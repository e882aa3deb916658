use vstd::prelude::*;

verus! {

/// Entries under their names' characters.
pub open spec fn keyed<V>(s: Seq<(String, V)>) -> Seq<(Seq<char>, V)> {
    s.map_values(|e: (String, V)| (e.0@, e.1))
}

/// Where the last entry named `k` stands, or -1 where none is.
pub open spec fn position_of<V>(s: Seq<(Seq<char>, V)>, k: Seq<char>) -> int
    decreases s.len(),
{
    if s.len() == 0 {
        -1
    } else if s.last().0 == k {
        s.len() - 1
    } else {
        position_of(s.drop_last(), k)
    }
}

/// The entries after `k` is given `v`: an entry named `k` is overwritten in place,
/// else the new entry comes last.
pub open spec fn with_entry<V>(s: Seq<(Seq<char>, V)>, k: Seq<char>, v: V) -> Seq<(Seq<char>, V)> {
    let p = position_of(s, k);
    if p < 0 {
        s.push((k, v))
    } else {
        s.update(p, (k, v))
    }
}

/// No two entries share a name.
pub open spec fn names_unique<V>(s: Seq<(Seq<char>, V)>) -> bool {
    forall|i: int, j: int| 0 <= i < j < s.len() ==> s[i].0 != s[j].0
}

pub proof fn lemma_position_of<V>(s: Seq<(Seq<char>, V)>, k: Seq<char>)
    ensures
        -1 <= position_of(s, k) < s.len(),
        position_of(s, k) >= 0 ==> s[position_of(s, k)].0 == k,
        position_of(s, k) < 0 ==> forall|i: int| 0 <= i < s.len() ==> s[i].0 != k,
    decreases s.len(),
{
    if s.len() > 0 {
        lemma_position_of(s.drop_last(), k);
        if position_of(s, k) < 0 {
            assert forall|i: int| 0 <= i < s.len() implies s[i].0 != k by {
                if i < s.len() - 1 {
                    assert(s.drop_last()[i] == s[i]);
                }
            }
        }
    }
}

/// Giving a name a value keeps the names unique.
pub proof fn lemma_with_entry_unique<V>(s: Seq<(Seq<char>, V)>, k: Seq<char>, v: V)
    requires
        names_unique(s),
    ensures
        names_unique(with_entry(s, k, v)),
{
    lemma_position_of(s, k);
}

/// Gives the entry named `k` the value `v`, in place where one is, else at the end.
pub fn set_entry<V>(entries: &mut Vec<(String, V)>, k: String, v: V)
    ensures
        keyed(final(entries)@) == with_entry(keyed(old(entries)@), k@, v),
{
    let ghost s = keyed(entries@);
    let mut i: usize = entries.len();
    assert(s.take(i as int) =~= s);
    while i > 0
        invariant
            i <= entries@.len(),
            s == keyed(entries@),
            entries@ == old(entries)@,
            position_of(s, k@) == position_of(s.take(i as int), k@),
        decreases i,
    {
        assert(s.take(i as int).drop_last() =~= s.take(i - 1));
        if entries[i - 1].0 == k {
            assert(s.take(i as int).last() == s[i - 1]);
            assert(s[i - 1].0 == k@);
            assert(position_of(s, k@) == i - 1);
            entries.set(i - 1, (k, v));
            assert(keyed(entries@) =~= s.update(i - 1, (k@, v)));
            return;
        }
        i = i - 1;
    }
    entries.push((k, v));
    assert(keyed(entries@) =~= s.push((k@, v)));
}

} // verus!

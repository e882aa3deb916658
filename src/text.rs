use vstd::prelude::*;

verus! {

/// The lines of `s`, split at every newline; an empty text has one empty line.
pub open spec fn lines(s: Seq<char>) -> Seq<Seq<char>>
    decreases s.len(),
{
    if s.len() == 0 {
        seq![Seq::<char>::empty()]
    } else {
        let prev = lines(s.drop_last());
        if s.last() == '\n' {
            prev.push(Seq::<char>::empty())
        } else {
            prev.update(prev.len() - 1, prev.last().push(s.last()))
        }
    }
}

/// The lines joined with a newline between each two.
pub open spec fn joined(ls: Seq<Seq<char>>) -> Seq<char>
    decreases ls.len(),
{
    if ls.len() == 0 {
        Seq::<char>::empty()
    } else if ls.len() == 1 {
        ls[0]
    } else {
        joined(ls.drop_last()) + seq!['\n'] + ls.last()
    }
}

/// Every line but the first gets `indent` in front of it.
pub open spec fn indent_rest(ls: Seq<Seq<char>>, indent: Seq<char>) -> Seq<Seq<char>> {
    Seq::new(ls.len(), |j: int| if j == 0 { ls[j] } else { indent + ls[j] })
}

pub open spec fn indented(indent: Seq<char>, value: Seq<char>) -> Seq<char> {
    joined(indent_rest(lines(value), indent))
}

pub open spec fn occurs_at(s: Seq<char>, pat: Seq<char>, i: int) -> bool {
    0 <= i && i + pat.len() <= s.len() && s.subrange(i, i + pat.len()) == pat
}

pub open spec fn occurs_in(s: Seq<char>, pat: Seq<char>) -> bool {
    exists|i: int| occurs_at(s, pat, i)
}

/// `p` is where `pat` first occurs in `s`.
pub open spec fn first_at(s: Seq<char>, pat: Seq<char>, p: int) -> bool {
    occurs_at(s, pat, p) && forall|j: int| 0 <= j < p ==> !occurs_at(s, pat, j)
}

/// Each occurrence of `pat`, taken from the left without overlap, replaced by `rep`.
pub open spec fn replaced(s: Seq<char>, pat: Seq<char>, rep: Seq<char>) -> Seq<char>
    decreases s.len(),
{
    if pat.len() == 0 || s.len() < pat.len() {
        s
    } else if s.take(pat.len() as int) == pat {
        rep + replaced(s.skip(pat.len() as int), pat, rep)
    } else {
        seq![s[0]] + replaced(s.skip(1), pat, rep)
    }
}

/// The characters that `char::is_whitespace` accepts (Unicode White_Space).
pub open spec fn is_space(c: char) -> bool {
    ('\u{9}' <= c && c <= '\u{d}') || c == ' ' || c == '\u{85}' || c == '\u{a0}' || c
        == '\u{1680}' || ('\u{2000}' <= c && c <= '\u{200a}') || c == '\u{2028}' || c
        == '\u{2029}' || c == '\u{202f}' || c == '\u{205f}' || c == '\u{3000}'
}

pub open spec fn trimmed_end(s: Seq<char>) -> Seq<char>
    decreases s.len(),
{
    if s.len() > 0 && is_space(s.last()) {
        trimmed_end(s.drop_last())
    } else {
        s
    }
}

pub open spec fn trimmed_start(s: Seq<char>) -> Seq<char>
    decreases s.len(),
{
    if s.len() > 0 && is_space(s[0]) {
        trimmed_start(s.drop_first())
    } else {
        s
    }
}

pub open spec fn trimmed(s: Seq<char>) -> Seq<char> {
    trimmed_end(trimmed_start(s))
}

pub open spec fn views(v: Seq<Vec<char>>) -> Seq<Seq<char>> {
    v.map_values(|l: Vec<char>| l@)
}

pub proof fn lemma_lines_len(s: Seq<char>)
    ensures
        lines(s).len() >= 1,
    decreases s.len(),
{
    if s.len() > 0 {
        lemma_lines_len(s.drop_last());
    }
}

/// The last line is what follows the last newline.
pub proof fn lemma_last_line_suffix(s: Seq<char>)
    ensures
        lines(s).len() >= 1,
        lines(s).last().len() <= s.len(),
        lines(s).last() == s.skip(s.len() - lines(s).last().len()),
    decreases s.len(),
{
    lemma_lines_len(s);
    if s.len() == 0 {
        assert(s.skip(0) =~= s);
    } else {
        let t = s.drop_last();
        lemma_last_line_suffix(t);
        lemma_lines_len(t);
        if s.last() == '\n' {
            assert(s.skip(s.len() as int) =~= Seq::<char>::empty());
        } else {
            let l = lines(t).last();
            assert(lines(s).last() == l.push(s.last()));
            assert(l.push(s.last()) =~= s.skip(s.len() - (l.len() + 1)));
        }
    }
}

proof fn lemma_prefix_free(s: Seq<char>, pat: Seq<char>, n: int)
    requires
        !occurs_in(s, pat),
        0 <= n <= s.len(),
    ensures
        !occurs_in(s.take(n), pat),
{
    assert forall|i: int| !occurs_at(s.take(n), pat, i) by {
        if occurs_at(s.take(n), pat, i) {
            assert(s.take(n).subrange(i, i + pat.len()) =~= s.subrange(i, i + pat.len()));
            assert(occurs_at(s, pat, i));
        }
    }
}

pub(crate) proof fn lemma_suffix_free(s: Seq<char>, pat: Seq<char>, k: int)
    requires
        !occurs_in(s, pat),
        0 <= k <= s.len(),
    ensures
        !occurs_in(s.skip(k), pat),
{
    assert forall|i: int| !occurs_at(s.skip(k), pat, i) by {
        if occurs_at(s.skip(k), pat, i) {
            assert(s.skip(k).subrange(i, i + pat.len()) =~= s.subrange(k + i, k + i + pat.len()));
            assert(occurs_at(s, pat, k + i));
        }
    }
}

/// Where `pat` does not occur in a text, it occurs in none of its lines.
pub proof fn lemma_lines_free(s: Seq<char>, pat: Seq<char>)
    requires
        !occurs_in(s, pat),
    ensures
        forall|j: int| 0 <= j < lines(s).len() ==> !occurs_in(#[trigger] lines(s)[j], pat),
    decreases s.len(),
{
    lemma_last_line_suffix(s);
    if s.len() == 0 {
        if pat.len() == 0 {
            assert(s.subrange(0, 0) =~= pat);
            assert(occurs_at(s, pat, 0));
        }
        assert forall|j: int| 0 <= j < lines(s).len() implies !occurs_in(#[trigger] lines(s)[j], pat) by {
            assert(lines(s)[j].len() == 0);
        }
    } else {
        let t = s.drop_last();
        assert(t =~= s.take(s.len() - 1));
        lemma_prefix_free(s, pat, s.len() - 1);
        lemma_lines_free(t, pat);
        lemma_lines_len(t);
        lemma_suffix_free(s, pat, s.len() - lines(s).last().len());
        assert forall|j: int| 0 <= j < lines(s).len() implies !occurs_in(#[trigger] lines(s)[j], pat) by {
            if j < lines(s).len() - 1 {
                assert(lines(s)[j] == lines(t)[j]);
            }
        }
    }
}

/// Joining the lines of a text gives the text back.
pub proof fn lemma_join_lines(s: Seq<char>)
    ensures
        joined(lines(s)) == s,
    decreases s.len(),
{
    lemma_lines_len(s);
    if s.len() > 0 {
        let t = s.drop_last();
        lemma_join_lines(t);
        lemma_lines_len(t);
        let l = lines(t);
        if s.last() == '\n' {
            assert(lines(s).drop_last() =~= l);
            assert(joined(lines(s)) =~= s);
        } else {
            let m = lines(s);
            if l.len() == 1 {
                assert(m[0] =~= s);
            } else {
                assert(m.drop_last() =~= l.drop_last());
                assert(joined(l) == joined(l.drop_last()) + seq!['\n'] + l.last());
                assert(m.last() == l.last().push(s.last()));
                assert(joined(m) == joined(m.drop_last()) + seq!['\n'] + m.last());
                assert(joined(m) =~= joined(l).push(s.last()));
                assert(t.push(s.last()) =~= s);
            }
        }
    }
}

/// Lines none of which holds `pat`, joined, do not hold it, where `pat` holds no newline.
pub proof fn lemma_joined_free(ls: Seq<Seq<char>>, pat: Seq<char>)
    requires
        pat.len() > 0,
        forall|k: int| 0 <= k < pat.len() ==> pat[k] != '\n',
        forall|j: int| 0 <= j < ls.len() ==> !occurs_in(#[trigger] ls[j], pat),
    ensures
        !occurs_in(joined(ls), pat),
    decreases ls.len(),
{
    if ls.len() == 0 {
        assert forall|i: int| !occurs_at(joined(ls), pat, i) by {}
    } else if ls.len() == 1 {
        assert(!occurs_in(ls[0], pat));
    } else {
        let a = joined(ls.drop_last());
        let b = ls.last();
        lemma_joined_free(ls.drop_last(), pat);
        assert(!occurs_in(ls[ls.len() - 1], pat));
        let s = a + seq!['\n'] + b;
        assert forall|i: int| !occurs_at(s, pat, i) by {
            if occurs_at(s, pat, i) {
                if i + pat.len() <= a.len() {
                    assert(a.subrange(i, i + pat.len()) =~= s.subrange(i, i + pat.len()));
                    assert(occurs_at(a, pat, i));
                } else if i > a.len() {
                    assert(b.subrange(i - a.len() - 1, i - a.len() - 1 + pat.len())
                        =~= s.subrange(i, i + pat.len()));
                    assert(occurs_at(b, pat, i - a.len() - 1));
                } else {
                    assert(s.subrange(i, i + pat.len())[a.len() - i] == '\n');
                }
            }
        }
    }
}

/// Each later line of an indented block is the indent and a line of the value; where
/// neither the value holds `pat` nor the indent holds its first character, the block
/// does not hold it.
pub proof fn lemma_indented_free(indent: Seq<char>, value: Seq<char>, pat: Seq<char>)
    requires
        pat.len() > 0,
        forall|k: int| 0 <= k < pat.len() ==> pat[k] != '\n',
        forall|k: int| 0 <= k < indent.len() ==> indent[k] != pat[0],
        !occurs_in(value, pat),
    ensures
        !occurs_in(indented(indent, value), pat),
{
    lemma_lines_free(value, pat);
    let ls = indent_rest(lines(value), indent);
    assert forall|j: int| 0 <= j < ls.len() implies !occurs_in(#[trigger] ls[j], pat) by {
        let l = lines(value)[j];
        assert(!occurs_in(l, pat));
        if j > 0 {
            assert forall|i: int| !occurs_at(indent + l, pat, i) by {
                if occurs_at(indent + l, pat, i) {
                    if i < indent.len() {
                        assert((indent + l).subrange(i, i + pat.len())[0] == indent[i]);
                    } else {
                        assert(l.subrange(i - indent.len(), i - indent.len() + pat.len())
                            =~= (indent + l).subrange(i, i + pat.len()));
                        assert(occurs_at(l, pat, i - indent.len()));
                    }
                }
            }
        }
    }
    lemma_joined_free(ls, pat);
}

/// Relies on `Iterator::collect` over `str::chars`: the characters of `s` in order.
#[verifier::external_body]
pub(crate) fn chars_of(s: &str) -> (r: Vec<char>)
    ensures
        r@ == s@,
{
    s.chars().collect()
}

/// Relies on `String::from_iter`: the string made of the characters of `v` in order.
#[verifier::external_body]
pub(crate) fn string_of(v: &Vec<char>) -> (r: String)
    ensures
        r@ == v@,
{
    String::from_iter(v.iter())
}

pub(crate) fn append(out: &mut Vec<char>, s: &Vec<char>)
    ensures
        final(out)@ == old(out)@ + s@,
{
    let mut i: usize = 0;
    while i < s.len()
        invariant
            i <= s@.len(),
            out@ == old(out)@ + s@.take(i as int),
        decreases s@.len() - i,
    {
        out.push(s[i]);
        i = i + 1;
        assert(s@.take(i as int) =~= s@.take(i - 1) + seq![s@[i - 1]]);
    }
    assert(s@.take(i as int) =~= s@);
}

/// Splits `s` into its lines at each newline.
pub fn split_lines(s: &Vec<char>) -> (r: Vec<Vec<char>>)
    ensures
        views(r@) == lines(s@),
{
    let mut out: Vec<Vec<char>> = Vec::new();
    let mut cur: Vec<char> = Vec::new();
    let mut i: usize = 0;
    assert(s@.take(0) =~= Seq::<char>::empty());
    assert(views(out@).push(cur@) =~= lines(s@.take(0)));
    while i < s.len()
        invariant
            i <= s@.len(),
            views(out@).push(cur@) == lines(s@.take(i as int)),
        decreases s@.len() - i,
    {
        let c = s[i];
        let ghost prev = lines(s@.take(i as int));
        assert(s@.take(i + 1).drop_last() =~= s@.take(i as int));
        if c == '\n' {
            out.push(cur);
            cur = Vec::new();
            assert(views(out@).push(cur@) =~= prev.push(Seq::<char>::empty()));
        } else {
            cur.push(c);
            assert(views(out@).push(cur@) =~= prev.update(prev.len() - 1, prev.last().push(c)));
        }
        i = i + 1;
    }
    assert(s@.take(i as int) =~= s@);
    out.push(cur);
    assert(views(out@) =~= lines(s@));
    out
}

/// Joins the lines with a newline between each two.
pub fn join_lines(ls: &Vec<Vec<char>>) -> (r: Vec<char>)
    ensures
        r@ == joined(views(ls@)),
{
    let mut out: Vec<char> = Vec::new();
    let mut i: usize = 0;
    let ghost vs = views(ls@);
    assert(vs.take(0) =~= Seq::<Seq<char>>::empty());
    while i < ls.len()
        invariant
            i <= ls@.len(),
            vs == views(ls@),
            out@ == joined(vs.take(i as int)),
        decreases ls@.len() - i,
    {
        assert(vs.take(i + 1).drop_last() =~= vs.take(i as int));
        if i > 0 {
            out.push('\n');
        } else {
            assert(vs.take(1) =~= seq![vs[0]]);
        }
        append(&mut out, &ls[i]);
        i = i + 1;
    }
    assert(vs.take(i as int) =~= vs);
    out
}

/// Puts `indent` in front of every line of `value` but the first.
pub fn with_indent(indent: &Vec<char>, value: &Vec<char>) -> (r: Vec<char>)
    ensures
        r@ == indented(indent@, value@),
{
    let ls = split_lines(value);
    let mut out: Vec<Vec<char>> = Vec::new();
    let mut i: usize = 0;
    while i < ls.len()
        invariant
            i <= ls@.len(),
            views(ls@) == lines(value@),
            views(out@) == indent_rest(lines(value@), indent@).take(i as int),
        decreases ls@.len() - i,
    {
        let mut line: Vec<char> = Vec::new();
        if i > 0 {
            append(&mut line, indent);
        }
        append(&mut line, &ls[i]);
        assert(line@ == indent_rest(lines(value@), indent@)[i as int]);
        let ghost prev = out@;
        out.push(line);
        assert(views(out@) =~= views(prev).push(line@));
        i = i + 1;
        assert(views(out@) =~= indent_rest(lines(value@), indent@).take(i as int));
    }
    assert(indent_rest(lines(value@), indent@).take(i as int) =~= indent_rest(lines(value@), indent@));
    join_lines(&out)
}

/// Whether `pat` occurs in `s` at `i`.
pub(crate) fn matches_at(s: &Vec<char>, pat: &Vec<char>, i: usize) -> (r: bool)
    ensures
        r == occurs_at(s@, pat@, i as int),
{
    if i > s.len() || pat.len() > s.len() - i {
        return false;
    }
    let mut j: usize = 0;
    while j < pat.len()
        invariant
            j <= pat@.len(),
            i + pat@.len() <= s@.len(),
            forall|k: int| 0 <= k < j ==> s@[i + k] == pat@[k],
        decreases pat@.len() - j,
    {
        assert(i + j < s.len());
        if s[i + j] != pat[j] {
            assert(s@.subrange(i as int, i + pat@.len())[j as int] != pat@[j as int]);
            return false;
        }
        j = j + 1;
    }
    assert(s@.subrange(i as int, i + pat@.len()) =~= pat@);
    true
}

/// The first position at which `pat` occurs in `s`, if it occurs.
pub fn find_first(s: &Vec<char>, pat: &Vec<char>) -> (r: Option<usize>)
    ensures
        match r {
            Some(p) => first_at(s@, pat@, p as int),
            None => !occurs_in(s@, pat@),
        },
{
    let mut i: usize = 0;
    while i < s.len()
        invariant
            i <= s@.len(),
            forall|j: int| 0 <= j < i ==> !occurs_at(s@, pat@, j),
        decreases s@.len() - i,
    {
        if matches_at(s, pat, i) {
            return Some(i);
        }
        i = i + 1;
    }
    if matches_at(s, pat, i) {
        return Some(i);
    }
    assert forall|j: int| !occurs_at(s@, pat@, j) by {
        if 0 <= j <= i {
        }
    }
    None
}

/// Whether `pat` occurs in `s`.
pub fn contains(s: &Vec<char>, pat: &Vec<char>) -> (r: bool)
    ensures
        r == occurs_in(s@, pat@),
{
    find_first(s, pat).is_some()
}

/// Replaces each occurrence of `pat` in `s`, from the left and without overlap, by `rep`.
pub fn replace_all(s: &Vec<char>, pat: &Vec<char>, rep: &Vec<char>) -> (r: Vec<char>)
    ensures
        r@ == replaced(s@, pat@, rep@),
{
    let mut out: Vec<char> = Vec::new();
    if pat.len() == 0 {
        append(&mut out, s);
        return out;
    }
    let mut i: usize = 0;
    assert(s@.skip(0) =~= s@);
    while i < s.len()
        invariant
            i <= s@.len(),
            pat@.len() > 0,
            out@ + replaced(s@.skip(i as int), pat@, rep@) == replaced(s@, pat@, rep@),
        decreases s@.len() - i,
    {
        let ghost rest = s@.skip(i as int);
        if matches_at(s, pat, i) {
            assert(rest.take(pat@.len() as int) =~= s@.subrange(i as int, i + pat@.len()));
            assert(rest.skip(pat@.len() as int) =~= s@.skip(i + pat@.len()));
            append(&mut out, rep);
            i = i + pat.len();
        } else {
            proof {
                if rest.len() >= pat@.len() {
                    assert(rest.take(pat@.len() as int) =~= s@.subrange(i as int, i + pat@.len()));
                }
            }
            assert(rest.skip(1) =~= s@.skip(i + 1));
            out.push(s[i]);
            i = i + 1;
        }
        assert(out@ + replaced(s@.skip(i as int), pat@, rep@) =~= replaced(s@, pat@, rep@));
    }
    assert(s@.skip(i as int) =~= Seq::<char>::empty());
    assert(out@ =~= out@ + Seq::<char>::empty());
    out
}

/// Whether `char::is_whitespace` accepts `c`.
pub(crate) fn space(c: char) -> (r: bool)
    ensures
        r == is_space(c),
{
    ('\u{9}' <= c && c <= '\u{d}') || c == ' ' || c == '\u{85}' || c == '\u{a0}' || c
        == '\u{1680}' || ('\u{2000}' <= c && c <= '\u{200a}') || c == '\u{2028}' || c
        == '\u{2029}' || c == '\u{202f}' || c == '\u{205f}' || c == '\u{3000}'
}

/// `s` without its trailing whitespace.
pub fn trim_end(s: &Vec<char>) -> (r: Vec<char>)
    ensures
        r@ == trimmed_end(s@),
{
    let mut n: usize = s.len();
    assert(s@.take(n as int) =~= s@);
    while n > 0 && space(s[n - 1])
        invariant
            n <= s@.len(),
            trimmed_end(s@.take(n as int)) == trimmed_end(s@),
        decreases n,
    {
        assert(s@.take(n as int).drop_last() =~= s@.take(n - 1));
        n = n - 1;
    }
    let mut out: Vec<char> = Vec::new();
    let mut i: usize = 0;
    while i < n
        invariant
            i <= n <= s@.len(),
            out@ == s@.take(i as int),
        decreases n - i,
    {
        out.push(s[i]);
        i = i + 1;
        assert(out@ =~= s@.take(i as int));
    }
    out
}

/// `s` without its leading and trailing whitespace.
pub fn trim(s: &Vec<char>) -> (r: Vec<char>)
    ensures
        r@ == trimmed(s@),
{
    let mut k: usize = 0;
    assert(s@.skip(0) =~= s@);
    while k < s.len() && space(s[k])
        invariant
            k <= s@.len(),
            trimmed_start(s@.skip(k as int)) == trimmed_start(s@),
        decreases s@.len() - k,
    {
        assert(s@.skip(k as int).drop_first() =~= s@.skip(k + 1));
        k = k + 1;
    }
    let mut rest: Vec<char> = Vec::new();
    let mut i: usize = k;
    while i < s.len()
        invariant
            k <= i <= s@.len(),
            rest@ == s@.subrange(k as int, i as int),
        decreases s@.len() - i,
    {
        rest.push(s[i]);
        i = i + 1;
        assert(rest@ =~= s@.subrange(k as int, i as int));
    }
    assert(rest@ =~= s@.skip(k as int));
    trim_end(&rest)
}

} // verus!

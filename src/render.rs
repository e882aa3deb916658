use vstd::prelude::*;
use crate::text::{
    append, chars_of, find_first, first_at, indented, join_lines, lemma_join_lines,
    lemma_lines_free, lemma_suffix_free, lines, occurs_at, occurs_in, replace_all,
    replaced, split_lines, string_of, trim_end, trimmed_end, views, with_indent,
};

verus! {

/// The marker `{{name}}` that stands for a placeholder in a template.
pub open spec fn marker(name: Seq<char>) -> Seq<char> {
    seq!['{', '{'] + name + seq!['}', '}']
}

/// One line after the pass for one placeholder: where the marker occurs, what comes
/// before its first occurrence is the indentation of the value's later lines, every
/// occurrence is replaced, and trailing whitespace is dropped.
pub open spec fn line_substituted(line: Seq<char>, pat: Seq<char>, value: Seq<char>) -> Seq<char> {
    if occurs_in(line, pat) {
        let p = choose|p: int| first_at(line, pat, p);
        trimmed_end(replaced(line, pat, indented(line.take(p), value)))
    } else {
        line
    }
}

/// The pass for one placeholder over every line of the text.
pub open spec fn text_substituted(t: Seq<char>, pat: Seq<char>, value: Seq<char>) -> Seq<char> {
    crate::text::joined(lines(t).map_values(|l: Seq<char>| line_substituted(l, pat, value)))
}

/// The template after one pass per entry, in the order of the entries.
pub open spec fn rendered(t: Seq<char>, entries: Seq<(Seq<char>, Seq<char>)>) -> Seq<char>
    decreases entries.len(),
{
    if entries.len() == 0 {
        t
    } else {
        text_substituted(
            rendered(t, entries.drop_last()),
            marker(entries.last().0),
            entries.last().1,
        )
    }
}

/// The entries of a store as names and texts.
pub open spec fn text_entries(s: Seq<(String, String)>) -> Seq<(Seq<char>, Seq<char>)> {
    s.map_values(|e: (String, String)| (e.0@, e.1@))
}

proof fn lemma_first_unique(s: Seq<char>, pat: Seq<char>, p: int, q: int)
    requires
        first_at(s, pat, p),
        first_at(s, pat, q),
    ensures
        p == q,
{
    if p < q {
        assert(!crate::text::occurs_at(s, pat, p));
    } else if q < p {
        assert(!crate::text::occurs_at(s, pat, q));
    }
}

fn marker_of(name: &String) -> (r: Vec<char>)
    ensures
        r@ == marker(name@),
{
    let mut r: Vec<char> = Vec::new();
    r.push('{');
    r.push('{');
    let n = chars_of(name.as_str());
    append(&mut r, &n);
    r.push('}');
    r.push('}');
    assert(r@ =~= marker(name@));
    r
}

fn substitute_line(line: &Vec<char>, pat: &Vec<char>, value: &Vec<char>) -> (r: Vec<char>)
    ensures
        r@ == line_substituted(line@, pat@, value@),
{
    match find_first(line, pat) {
        Some(p) => {
            proof {
                let q = choose|q: int| first_at(line@, pat@, q);
                lemma_first_unique(line@, pat@, p as int, q);
            }
            let mut indent: Vec<char> = Vec::new();
            let mut i: usize = 0;
            while i < p
                invariant
                    i <= p <= line@.len(),
                    indent@ == line@.take(i as int),
                decreases p - i,
            {
                indent.push(line[i]);
                i = i + 1;
                assert(indent@ =~= line@.take(i as int));
            }
            let block = with_indent(&indent, value);
            let replaced_line = replace_all(line, pat, &block);
            trim_end(&replaced_line)
        },
        None => {
            let mut r: Vec<char> = Vec::new();
            append(&mut r, line);
            assert(r@ =~= line@);
            r
        },
    }
}

fn substitute_text(t: &Vec<char>, pat: &Vec<char>, value: &Vec<char>) -> (r: Vec<char>)
    ensures
        r@ == text_substituted(t@, pat@, value@),
{
    let ls = split_lines(t);
    let ghost target = lines(t@).map_values(|l: Seq<char>| line_substituted(l, pat@, value@));
    let mut out: Vec<Vec<char>> = Vec::new();
    let mut i: usize = 0;
    while i < ls.len()
        invariant
            i <= ls@.len(),
            views(ls@) == lines(t@),
            target == lines(t@).map_values(|l: Seq<char>| line_substituted(l, pat@, value@)),
            views(out@) == target.take(i as int),
        decreases ls@.len() - i,
    {
        let line = substitute_line(&ls[i], pat, value);
        let ghost prev = out@;
        out.push(line);
        i = i + 1;
        assert(views(out@) =~= views(prev).push(line@));
        assert(views(out@) =~= target.take(i as int));
    }
    assert(target.take(i as int) =~= target);
    join_lines(&out)
}

/// Substitutes every entry's text for its marker in `template`, one pass per entry in
/// order. Markers of names that no entry has are left as they are. The result depends
/// on the template and the entries alone, and the entries are not changed.
pub fn render_template(template: &str, entries: &Vec<(String, String)>) -> (r: String)
    ensures
        r@ == rendered(template@, text_entries(entries@)),
{
    let mut t = chars_of(template);
    let ghost es = text_entries(entries@);
    let mut i: usize = 0;
    assert(es.take(0) =~= Seq::<(Seq<char>, Seq<char>)>::empty());
    while i < entries.len()
        invariant
            i <= entries@.len(),
            es == text_entries(entries@),
            t@ == rendered(template@, es.take(i as int)),
        decreases entries@.len() - i,
    {
        let pat = marker_of(&entries[i].0);
        let value = chars_of(entries[i].1.as_str());
        t = substitute_text(&t, &pat, &value);
        i = i + 1;
        assert(es.take(i as int).drop_last() =~= es.take(i - 1));
    }
    assert(es.take(i as int) =~= es);
    string_of(&t)
}

proof fn lemma_pass_without_marker(t: Seq<char>, pat: Seq<char>, value: Seq<char>)
    requires
        !occurs_in(t, pat),
    ensures
        text_substituted(t, pat, value) == t,
{
    lemma_lines_free(t, pat);
    let ls = lines(t);
    assert(ls.map_values(|l: Seq<char>| line_substituted(l, pat, value)) =~= ls);
    lemma_join_lines(t);
}

/// A template in which the marker of no entry occurs is rendered unchanged; so a
/// marker of a name that was never registered stays as it is.
pub proof fn lemma_unmatched_template_unchanged(t: Seq<char>, entries: Seq<(Seq<char>, Seq<char>)>)
    requires
        forall|i: int| 0 <= i < entries.len() ==> !occurs_in(t, #[trigger] marker(entries[i].0)),
    ensures
        rendered(t, entries) == t,
    decreases entries.len(),
{
    if entries.len() > 0 {
        let rest = entries.drop_last();
        assert forall|i: int| 0 <= i < rest.len() implies !occurs_in(t, #[trigger] marker(rest[i].0)) by {
            assert(rest[i] == entries[i]);
        }
        lemma_unmatched_template_unchanged(t, rest);
        assert(!occurs_in(t, marker(entries[entries.len() - 1].0)));
        lemma_pass_without_marker(t, marker(entries.last().0), entries.last().1);
    }
}

proof fn lemma_replaced_none(s: Seq<char>, pat: Seq<char>, rep: Seq<char>)
    requires
        pat.len() > 0,
        !occurs_in(s, pat),
    ensures
        replaced(s, pat, rep) == s,
    decreases s.len(),
{
    if s.len() >= pat.len() {
        assert(s.take(pat.len() as int) =~= s.subrange(0, pat.len() as int));
        assert(!occurs_at(s, pat, 0));
        lemma_suffix_free(s, pat, 1);
        lemma_replaced_none(s.skip(1), pat, rep);
        assert(seq![s[0]] + s.skip(1) =~= s);
    }
}

proof fn lemma_replaced_first(s: Seq<char>, pat: Seq<char>, rep: Seq<char>, p: int)
    requires
        pat.len() > 0,
        first_at(s, pat, p),
    ensures
        replaced(s, pat, rep) == s.take(p) + rep + replaced(s.skip(p + pat.len()), pat, rep),
    decreases p,
{
    if p == 0 {
        assert(s.take(pat.len() as int) =~= s.subrange(0, pat.len() as int));
        assert(s.take(0) + rep =~= rep);
    } else {
        assert(s.take(pat.len() as int) =~= s.subrange(0, pat.len() as int));
        assert(!occurs_at(s, pat, 0));
        let t = s.skip(1);
        assert(t.subrange(p - 1, p - 1 + pat.len()) =~= s.subrange(p, p + pat.len()));
        assert forall|j: int| 0 <= j < p - 1 implies !occurs_at(t, pat, j) by {
            if occurs_at(t, pat, j) {
                assert(t.subrange(j, j + pat.len()) =~= s.subrange(j + 1, j + 1 + pat.len()));
                assert(occurs_at(s, pat, j + 1));
            }
        }
        lemma_replaced_first(t, pat, rep, p - 1);
        assert(t.skip(p - 1 + pat.len()) =~= s.skip(p + pat.len()));
        assert(seq![s[0]] + t.take(p - 1) =~= s.take(p));
    }
}

/// A line in which the marker occurs once, after the text `p` and before `sfx`, becomes
/// `p`, then the value with each of its later lines indented by `p`, then `sfx`,
/// without trailing whitespace.
pub proof fn lemma_line_with_one_marker(p: Seq<char>, sfx: Seq<char>, m: Seq<char>, v: Seq<char>)
    requires
        m.len() > 0,
        forall|i: int| occurs_at(p + m + sfx, m, i) ==> i == p.len(),
    ensures
        line_substituted(p + m + sfx, m, v) == trimmed_end(p + indented(p, v) + sfx),
{
    let l = p + m + sfx;
    assert(l.subrange(p.len() as int, (p.len() + m.len()) as int) =~= m);
    assert(first_at(l, m, p.len() as int));
    let q = choose|q: int| first_at(l, m, q);
    lemma_first_unique(l, m, p.len() as int, q);
    assert(l.take(p.len() as int) =~= p);
    lemma_replaced_first(l, m, indented(p, v), p.len() as int);
    assert(l.skip((p.len() + m.len()) as int) =~= sfx);
    assert forall|i: int| !occurs_at(sfx, m, i) by {
        if occurs_at(sfx, m, i) {
            assert(l.subrange(p.len() + m.len() + i, p.len() + m.len() + i + m.len())
                =~= sfx.subrange(i, i + m.len()));
            assert(occurs_at(l, m, p.len() + m.len() + i));
        }
    }
    lemma_replaced_none(sfx, m, indented(p, v));
}

/// Where the text is empty, a line in which the marker occurs once, after `p` and
/// before `sfx`, becomes `p` and `sfx` without trailing whitespace.
pub proof fn lemma_line_with_empty_text(p: Seq<char>, sfx: Seq<char>, m: Seq<char>)
    requires
        m.len() > 0,
        forall|i: int| occurs_at(p + m + sfx, m, i) ==> i == p.len(),
    ensures
        line_substituted(p + m + sfx, m, Seq::<char>::empty()) == trimmed_end(p + sfx),
{
    lemma_line_with_one_marker(p, sfx, m, Seq::<char>::empty());
    let e = Seq::<char>::empty();
    assert(lines(e) == seq![e]);
    assert(crate::text::indent_rest(lines(e), p) =~= seq![e]);
    assert(indented(p, e) == e);
    assert(p + e + sfx =~= p + sfx);
}

/// Rendering is a function of the template and the entries: two renderings of one
/// template with the same entries give the same text.
pub proof fn lemma_render_deterministic(
    t: Seq<char>,
    entries: Seq<(Seq<char>, Seq<char>)>,
    a: Seq<char>,
    b: Seq<char>,
)
    requires
        a == rendered(t, entries),
        b == rendered(t, entries),
    ensures
        a == b,
{
}

} // verus!

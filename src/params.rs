use vstd::prelude::*;
use crate::text::{
    append, chars_of, contains, indented, join_lines, joined, lemma_indented_free,
    lemma_joined_free, lines, occurs_in, replace_all,
    replaced, split_lines, string_of, trim, trimmed, views, with_indent,
};

verus! {

/// The lines that do not hold `token`, in their order.
pub open spec fn kept_lines(ls: Seq<Seq<char>>, token: Seq<char>) -> Seq<Seq<char>>
    decreases ls.len(),
{
    if ls.len() == 0 {
        ls
    } else {
        let rest = kept_lines(ls.drop_last(), token);
        if occurs_in(ls.last(), token) {
            rest
        } else {
            rest.push(ls.last())
        }
    }
}

/// `text` without the lines that hold `token`.
pub open spec fn without_lines(text: Seq<char>, token: Seq<char>) -> Seq<char> {
    joined(kept_lines(lines(text), token))
}

/// Serializer output without its document markers and surrounding whitespace.
pub open spec fn tidied(raw: Seq<char>) -> Seq<char> {
    trimmed(replaced(raw, "---\n"@, Seq::<char>::empty()))
}

/// What one property of a query object tells the formatter.
pub struct Property {
    pub name: String,
    /// `Some(nullable)` for a property with an object schema, `None` for any other.
    pub nullable: Option<bool>,
    pub description: Option<String>,
    /// The property's schema as YAML text.
    pub schema_yaml: String,
}

/// A property is required exactly when its schema is an object schema without the
/// nullable marker.
pub open spec fn is_required(nullable: Option<bool>) -> bool {
    nullable == Some(false)
}

/// The schema block of a parameter entry: the schema's YAML without its description
/// lines, each later line indented under the `schema:` key.
pub open spec fn schema_block(schema_yaml: Seq<char>) -> Seq<char> {
    indented("    "@, without_lines(schema_yaml, "description:"@))
}

pub open spec fn description_line(description: Option<Seq<char>>) -> Seq<char> {
    match description {
        Some(d) => "  description: "@ + trimmed(d) + "\n"@,
        None => Seq::<char>::empty(),
    }
}

/// The parameter entry of one property; its schema block has no description lines.
pub open spec fn parameter_entry(
    name: Seq<char>,
    required: bool,
    description: Option<Seq<char>>,
    schema_yaml: Seq<char>,
) -> Seq<char> {
    "- in: query\n  name: "@ + name + "\n"@ + description_line(description) + "  required: "@ + (
    if required {
        "true"@
    } else {
        "false"@
    }) + "\n  schema:\n    "@ + schema_block(schema_yaml)
}

pub open spec fn property_entry(p: Property) -> Seq<char> {
    parameter_entry(
        p.name@,
        is_required(p.nullable),
        match p.description {
            Some(d) => Some(d@),
            None => None,
        },
        p.schema_yaml@,
    )
}

/// The parameters list: one entry per property, in order, a newline between each two.
pub open spec fn parameters_text(props: Seq<Property>) -> Seq<char> {
    joined(props.map_values(|p: Property| property_entry(p)))
}

proof fn lemma_kept_free(ls: Seq<Seq<char>>, token: Seq<char>)
    ensures
        forall|j: int|
            0 <= j < kept_lines(ls, token).len() ==> !occurs_in(#[trigger] kept_lines(ls, token)[j], token),
    decreases ls.len(),
{
    if ls.len() > 0 {
        lemma_kept_free(ls.drop_last(), token);
        let rest = kept_lines(ls.drop_last(), token);
        assert forall|j: int| 0 <= j < kept_lines(ls, token).len() implies !occurs_in(
            #[trigger] kept_lines(ls, token)[j],
            token,
        ) by {
            if j < rest.len() {
                assert(kept_lines(ls, token)[j] == rest[j]);
            }
        }
    }
}

/// The schema block holds no `description:`, whatever the schema's YAML holds.
pub proof fn lemma_schema_block_free(y: Seq<char>)
    ensures
        !occurs_in(schema_block(y), "description:"@),
{
    reveal_strlit("description:");
    reveal_strlit("    ");
    let token = "description:"@;
    lemma_kept_free(lines(y), token);
    lemma_joined_free(kept_lines(lines(y), token), token);
    lemma_indented_free("    "@, without_lines(y, token), token);
}

/// A query parameter is required exactly when its schema is an object schema without
/// the nullable marker, and the schema block of its entry holds no `description:`,
/// whatever the property's own schema text holds.
pub proof fn lemma_parameter_rules(p: Property)
    ensures
        is_required(p.nullable) <==> p.nullable == Some(false),
        !occurs_in(schema_block(p.schema_yaml@), "description:"@),
{
    lemma_schema_block_free(p.schema_yaml@);
}

/// Drops every line of `text` that holds `token`.
pub fn strip_lines(text: &str, token: &str) -> (r: String)
    ensures
        r@ == without_lines(text@, token@),
{
    let t = chars_of(text);
    let tok = chars_of(token);
    let ls = split_lines(&t);
    let mut out: Vec<Vec<char>> = Vec::new();
    let mut i: usize = 0;
    assert(views(ls@).take(0) =~= Seq::<Seq<char>>::empty());
    while i < ls.len()
        invariant
            i <= ls@.len(),
            views(ls@) == lines(t@),
            tok@ == token@,
            views(out@) == kept_lines(views(ls@).take(i as int), tok@),
        decreases ls@.len() - i,
    {
        assert(views(ls@).take(i + 1).drop_last() =~= views(ls@).take(i as int));
        if !contains(&ls[i], &tok) {
            let ghost prev = out@;
            out.push(ls[i].clone());
            assert(views(out@) =~= views(prev).push(ls@[i as int]@));
        }
        i = i + 1;
    }
    assert(views(ls@).take(i as int) =~= views(ls@));
    let r = join_lines(&out);
    string_of(&r)
}

/// Serializer output without its `---` document markers and surrounding whitespace.
pub fn tidy_yaml(raw: &str) -> (r: String)
    ensures
        r@ == tidied(raw@),
{
    let t = chars_of(raw);
    let marker = chars_of("---\n");
    let empty: Vec<char> = Vec::new();
    let cut = replace_all(&t, &marker, &empty);
    let r = trim(&cut);
    string_of(&r)
}

/// The parameter entry of one property.
pub fn parameter(
    name: &str,
    required: bool,
    description: Option<&str>,
    schema_yaml: &str,
) -> (r: String)
    ensures
        r@ == parameter_entry(
            name@,
            required,
            match description {
                Some(d) => Some(d@),
                None => None,
            },
            schema_yaml@,
        ),
{
    let mut out = chars_of("- in: query\n  name: ");
    append(&mut out, &chars_of(name));
    append(&mut out, &chars_of("\n"));
    match description {
        Some(d) => {
            append(&mut out, &chars_of("  description: "));
            append(&mut out, &trim(&chars_of(d)));
            append(&mut out, &chars_of("\n"));
        },
        None => {},
    }
    append(&mut out, &chars_of("  required: "));
    if required {
        append(&mut out, &chars_of("true"));
    } else {
        append(&mut out, &chars_of("false"));
    }
    append(&mut out, &chars_of("\n  schema:\n    "));
    let schema = strip_lines(schema_yaml, "description:");
    append(&mut out, &with_indent(&chars_of("    "), &chars_of(schema.as_str())));
    let ghost expected = parameter_entry(
        name@,
        required,
        match description {
            Some(d) => Some(d@),
            None => None,
        },
        schema_yaml@,
    );
    assert(out@ =~= expected);
    string_of(&out)
}

/// Whether a property with this schema kind is required.
pub fn required_of(nullable: Option<bool>) -> (r: bool)
    ensures
        r == is_required(nullable),
{
    match nullable {
        Some(n) => !n,
        None => false,
    }
}

/// The parameters list of a query object, one entry per property in order.
pub fn parameters_list(props: &Vec<Property>) -> (r: String)
    ensures
        r@ == parameters_text(props@),
{
    let ghost target = props@.map_values(|p: Property| property_entry(p));
    let mut out: Vec<Vec<char>> = Vec::new();
    let mut i: usize = 0;
    while i < props.len()
        invariant
            i <= props@.len(),
            target == props@.map_values(|p: Property| property_entry(p)),
            views(out@) == target.take(i as int),
        decreases props@.len() - i,
    {
        let p = &props[i];
        let description: Option<&str> = match &p.description {
            Some(d) => Some(d.as_str()),
            None => None,
        };
        let entry = parameter(p.name.as_str(), required_of(p.nullable), description, p.schema_yaml.as_str());
        let ghost prev = out@;
        out.push(chars_of(entry.as_str()));
        i = i + 1;
        assert(views(out@) =~= views(prev).push(entry@));
        assert(views(out@) =~= target.take(i as int));
    }
    assert(target.take(i as int) =~= target);
    let r = join_lines(&out);
    string_of(&r)
}

} // verus!

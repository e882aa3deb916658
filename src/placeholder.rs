use vstd::prelude::*;
use schemars::schema::Schema;
use crate::entries::{keyed, lemma_position_of, lemma_with_entry_unique, names_unique, position_of, set_entry, with_entry};
use crate::params::{
    is_required, lemma_schema_block_free, parameter_entry, schema_block, parameters_list, parameters_text, property_entry, tidied, tidy_yaml,
    Property,
};
use crate::text::{joined, occurs_in};
use crate::reflect::{
    definitions_of, definitions_yaml, definitions_yaml_of, describe, found_definitions,
    object_properties, own_schema, properties_of,
    property_facts, root_schema_of, schema_facts, schema_yaml, schema_yaml_of,
};
use schemars::schema::RootSchema;
use crate::render::{lemma_unmatched_template_unchanged, marker, render_template, rendered, text_entries};

verus! {

/// Why a registration or a rendering failed.
#[derive(Debug, Clone, Copy, PartialEq, Eq, Structural)]
pub enum PlaceholderError {
    /// Query parameters were asked of a type whose schema is not an object.
    UnsupportedSchemaKind,
    /// The serializer could not write a schema as YAML.
    SerializationFailure,
}

/// The name under which the collected definitions are substituted.
pub open spec fn definitions_key() -> Seq<char> {
    "oaph::definitions"@
}

/// Entries with their texts as characters.
pub open spec fn texts(s: Seq<(Seq<char>, String)>) -> Seq<(Seq<char>, Seq<char>)> {
    s.map_values(|e: (Seq<char>, String)| (e.0, e.1@))
}

/// The entries after each of `found`, in order, is given its value.
pub open spec fn with_all<V>(s: Seq<(Seq<char>, V)>, found: Seq<(Seq<char>, V)>) -> Seq<(Seq<char>, V)>
    decreases found.len(),
{
    if found.len() == 0 {
        s
    } else {
        let prev = with_all(s, found.drop_last());
        with_entry(prev, found.last().0, found.last().1)
    }
}

pub open spec fn has_name<V>(s: Seq<(Seq<char>, V)>, k: Seq<char>) -> bool {
    exists|j: int| 0 <= j < s.len() && s[j].0 == k
}

proof fn lemma_texts_position(s: Seq<(Seq<char>, String)>, k: Seq<char>)
    ensures
        position_of(texts(s), k) == position_of(s, k),
    decreases s.len(),
{
    if s.len() > 0 {
        assert(texts(s).drop_last() =~= texts(s.drop_last()));
        lemma_texts_position(s.drop_last(), k);
    }
}

proof fn lemma_texts_with_entry(s: Seq<(Seq<char>, String)>, k: Seq<char>, v: String)
    ensures
        texts(with_entry(s, k, v)) == with_entry(texts(s), k, v@),
{
    lemma_texts_position(s, k);
    lemma_position_of(s, k);
    assert(texts(with_entry(s, k, v)) =~= with_entry(texts(s), k, v@));
}

proof fn lemma_with_all_unique<V>(s: Seq<(Seq<char>, V)>, found: Seq<(Seq<char>, V)>)
    requires
        names_unique(s),
    ensures
        names_unique(with_all(s, found)),
    decreases found.len(),
{
    if found.len() > 0 {
        lemma_with_all_unique(s, found.drop_last());
        lemma_with_entry_unique(with_all(s, found.drop_last()), found.last().0, found.last().1);
    }
}

proof fn lemma_with_entry_names<V>(s: Seq<(Seq<char>, V)>, k: Seq<char>, v: V, other: Seq<char>)
    ensures
        has_name(with_entry(s, k, v), k),
        has_name(s, other) ==> has_name(with_entry(s, k, v), other),
{
    lemma_position_of(s, k);
    let r = with_entry(s, k, v);
    let p = position_of(s, k);
    if p < 0 {
        assert(r[s.len() as int].0 == k);
    } else {
        assert(r[p].0 == k);
    }
    if has_name(s, other) {
        let j = choose|j: int| 0 <= j < s.len() && s[j].0 == other;
        assert(r[j].0 == other);
    }
}

/// Registering what the describer found keeps every name registered before, and
/// registers every name it found.
pub proof fn lemma_found_registered<V>(s: Seq<(Seq<char>, V)>, found: Seq<(Seq<char>, V)>, k: Seq<char>)
    ensures
        has_name(s, k) ==> has_name(with_all(s, found), k),
        has_name(found, k) ==> has_name(with_all(s, found), k),
    decreases found.len(),
{
    if found.len() > 0 {
        let prev = with_all(s, found.drop_last());
        lemma_found_registered(s, found.drop_last(), k);
        lemma_with_entry_names(prev, found.last().0, found.last().1, k);
        if has_name(found, k) && found.last().0 != k {
            let j = choose|j: int| 0 <= j < found.len() && found[j].0 == k;
            assert(found.drop_last()[j].0 == k);
        }
    }
}

/// The nullable marker as the formatter reads it: `None` for a schema that is not an
/// object schema.
pub open spec fn facts_nullable(f: Option<(bool, Option<Seq<char>>)>) -> Option<bool> {
    match f {
        Some(x) => Some(x.0),
        None => None,
    }
}

pub open spec fn facts_description(f: Option<(bool, Option<Seq<char>>)>) -> Option<Seq<char>> {
    match f {
        Some(x) => x.1,
        None => None,
    }
}

/// The parameter entry of a reflected property named `name` with schema `s`.
pub open spec fn reflected_entry(name: Seq<char>, s: Schema) -> Seq<char> {
    parameter_entry(
        name,
        is_required(facts_nullable(schema_facts(s))),
        facts_description(schema_facts(s)),
        tidied(schema_yaml(s).unwrap_or(Seq::<char>::empty())),
    )
}

/// Every property's schema can be written as YAML.
pub open spec fn all_serializable(ps: Seq<(Seq<char>, Schema)>) -> bool {
    forall|i: int| 0 <= i < ps.len() ==> (#[trigger] schema_yaml(ps[i].1)) is Some
}

/// The entries of the reflected properties, one per property, in order.
pub open spec fn reflected_entries(ps: Seq<(Seq<char>, Schema)>) -> Seq<Seq<char>> {
    ps.map_values(|p: (Seq<char>, Schema)| reflected_entry(p.0, p.1))
}

/// Every entry of a described type's parameters list is the entry of its property, and
/// the schema block of that entry holds no `description:`.
pub proof fn lemma_reflected_blocks(ps: Seq<(Seq<char>, Schema)>)
    ensures
        reflected_entries(ps).len() == ps.len(),
        forall|i: int|
            0 <= i < ps.len() ==> {
                let y = tidied(schema_yaml(ps[i].1).unwrap_or(Seq::<char>::empty()));
                &&& #[trigger] reflected_entries(ps)[i] == parameter_entry(
                    ps[i].0,
                    is_required(facts_nullable(schema_facts(ps[i].1))),
                    facts_description(schema_facts(ps[i].1)),
                    y,
                )
                &&& !occurs_in(schema_block(y), "description:"@)
            },
{
    assert forall|i: int| 0 <= i < ps.len() implies !occurs_in(
        schema_block(tidied(schema_yaml(ps[i].1).unwrap_or(Seq::<char>::empty()))),
        "description:"@,
    ) by {
        lemma_schema_block_free(tidied(schema_yaml(ps[i].1).unwrap_or(Seq::<char>::empty())));
    }
}

/// The parameters list of a described type: an error where its schema is not an object
/// schema or a property's schema cannot be written, else one entry per property.
pub open spec fn parameters_outcome(root: RootSchema) -> Result<Seq<char>, PlaceholderError> {
    match object_properties(root) {
        None => Err(PlaceholderError::UnsupportedSchemaKind),
        Some(ps) => if all_serializable(ps) {
            Ok(joined(reflected_entries(ps)))
        } else {
            Err(PlaceholderError::SerializationFailure)
        },
    }
}

/// The query parameters list of a described type, one entry per property of its object
/// schema, in order.
pub fn query_parameters(root: &RootSchema) -> (r: Result<String, PlaceholderError>)
    ensures
        match r {
            Ok(t) => parameters_outcome(*root) == Ok::<Seq<char>, PlaceholderError>(t@),
            Err(e) => parameters_outcome(*root) == Err::<Seq<char>, PlaceholderError>(e),
        },
{
    let props = match properties_of(root) {
        Some(p) => p,
        None => {
            return Err(PlaceholderError::UnsupportedSchemaKind);
        },
    };
    let ghost ps = keyed(props@);
    let mut list: Vec<Property> = Vec::new();
    let mut i: usize = 0;
    assert(ps.take(0) =~= Seq::<(Seq<char>, Schema)>::empty());
    while i < props.len()
        invariant
            i <= props@.len(),
            ps == keyed(props@),
            object_properties(*root) == Some(ps),
            list@.map_values(|p: Property| property_entry(p)) == reflected_entries(ps.take(i as int)),
            forall|j: int| 0 <= j < i ==> (#[trigger] schema_yaml(ps[j].1)) is Some,
        decreases props@.len() - i,
    {
        let facts = property_facts(&props[i].1);
        let (nullable, description) = match facts {
            Some((n, d)) => (Some(n), d),
            None => (None, None),
        };
        let schema_text = match schema_yaml_of(&props[i].1) {
            Ok(y) => tidy_yaml(y.as_str()),
            Err(_) => {
                assert(ps[i as int].1 == props@[i as int].1);
                assert(schema_yaml(ps[i as int].1) is None);
                assert(!all_serializable(ps));
                return Err(PlaceholderError::SerializationFailure);
            },
        };
        let p = Property { name: props[i].0.clone(), nullable, description, schema_yaml: schema_text };
        assert(property_entry(p) == reflected_entry(ps[i as int].0, ps[i as int].1));
        let ghost prev = list@;
        list.push(p);
        i = i + 1;
        assert(ps.take(i as int).drop_last() =~= ps.take(i - 1));
        assert(list@.map_values(|p: Property| property_entry(p)) =~= prev.map_values(
            |p: Property| property_entry(p),
        ).push(property_entry(p)));
        assert(reflected_entries(ps.take(i as int)) =~= reflected_entries(ps.take(i - 1)).push(
            reflected_entry(ps[i - 1].0, ps[i - 1].1),
        ));
    }
    assert(ps.take(i as int) =~= ps);
    let text = parameters_list(&list);
    assert(parameters_text(list@) == joined(list@.map_values(|p: Property| property_entry(p))));
    Ok(text)
}

/// A template in which neither the marker of a registered name nor the definitions
/// marker occurs is rendered unchanged, whatever text the definitions get: markers of
/// names never registered stay as they are and no line is trimmed.
pub proof fn lemma_unmatched_render(
    placeholders: Seq<(Seq<char>, Seq<char>)>,
    d: Seq<char>,
    t: Seq<char>,
)
    requires
        forall|i: int| 0 <= i < placeholders.len() ==> !occurs_in(t, #[trigger] marker(placeholders[i].0)),
        !occurs_in(t, marker(definitions_key())),
    ensures
        rendered(t, with_entry(placeholders, definitions_key(), d)) == t,
{
    lemma_position_of(placeholders, definitions_key());
    let e = with_entry(placeholders, definitions_key(), d);
    assert forall|i: int| 0 <= i < e.len() implies !occurs_in(t, #[trigger] marker(e[i].0)) by {
        if i < placeholders.len() && e[i].0 != definitions_key() {
            assert(e[i] == placeholders[i]);
        }
    }
    lemma_unmatched_template_unchanged(t, e);
}

/// A store of named YAML blocks and of the schema definitions they refer to, from
/// which a template is rendered.
pub struct OpenApiPlaceHolder {
    ph: Vec<(String, String)>,
    definitions: Vec<(String, Schema)>,
}

impl OpenApiPlaceHolder {
    /// The registered placeholders, by name, in the order of their first registration.
    pub closed spec fn placeholders(&self) -> Seq<(Seq<char>, Seq<char>)> {
        text_entries(self.ph@)
    }

    /// The collected schema definitions, by name.
    pub closed spec fn definitions(&self) -> Seq<(Seq<char>, Schema)> {
        keyed(self.definitions@)
    }

    /// No name is registered twice.
    pub open spec fn wf(&self) -> bool {
        names_unique(self.placeholders()) && names_unique(self.definitions())
    }

    proof fn lemma_placeholders(&self)
        ensures
            self.placeholders() == texts(keyed(self.ph@)),
    {
        assert(self.placeholders() =~= texts(keyed(self.ph@)));
    }

    pub fn new() -> (r: Self)
        ensures
            r.wf(),
            r.placeholders().len() == 0,
            r.definitions().len() == 0,
    {
        OpenApiPlaceHolder { ph: Vec::new(), definitions: Vec::new() }
    }

    fn set_placeholder(&mut self, name: String, text: String)
        requires
            old(self).wf(),
        ensures
            final(self).wf(),
            final(self).placeholders() == with_entry(old(self).placeholders(), name@, text@),
            final(self).definitions() == old(self).definitions(),
    {
        proof {
            self.lemma_placeholders();
            lemma_texts_with_entry(keyed(self.ph@), name@, text);
            lemma_with_entry_unique(self.placeholders(), name@, text@);
        }
        set_entry(&mut self.ph, name, text);
        proof {
            self.lemma_placeholders();
        }
    }

    /// Registers what the describer found, each name overwriting an earlier one.
    fn merge_definitions(&mut self, found: Vec<(String, Schema)>)
        requires
            old(self).wf(),
        ensures
            final(self).wf(),
            final(self).definitions() == with_all(old(self).definitions(), keyed(found@)),
            final(self).placeholders() == old(self).placeholders(),
    {
        let mut found = found;
        let ghost all = keyed(found@);
        let ghost start = self.definitions();
        let n: usize = found.len();
        let mut i: usize = 0;
        assert(all.take(0) =~= Seq::<(Seq<char>, Schema)>::empty());
        while found.len() > 0
            invariant
                i + found@.len() == all.len(),
                all.len() == n,
                keyed(found@) == all.skip(i as int),
                self.wf(),
                self.definitions() == with_all(start, all.take(i as int)),
                self.placeholders() == old(self).placeholders(),
            decreases found@.len(),
        {
            let ghost before = found@;
            let (k, v) = found.remove(0);
            assert(found@ =~= before.drop_first());
            assert(keyed(before)[0] == all.skip(i as int)[0]);
            assert(keyed(found@) =~= keyed(before).drop_first());
            assert(all.skip(i + 1) =~= all.skip(i as int).drop_first());
            assert(all[i as int] == (k@, v));
            assert(all.take(i + 1).drop_last() =~= all.take(i as int));
            proof {
                lemma_with_entry_unique(self.definitions(), k@, v);
            }
            set_entry(&mut self.definitions, k, v);
            i = i + 1;
        }
        assert(all.take(i as int) =~= all);
    }

    /// Registers under `name` the given text.
    pub fn substitute(self, name: &str, value: &str) -> (r: Self)
        requires
            self.wf(),
        ensures
            r.wf(),
            r.placeholders() == with_entry(self.placeholders(), name@, value@),
            r.definitions() == self.definitions(),
    {
        let mut s = self;
        s.set_placeholder(name.to_owned(), value.to_owned());
        s
    }

    /// What registering the query parameters of the described schema `root` under
    /// `name` gives: the parameters list under `name` and the schema's definitions
    /// collected, or the error of the list.
    pub open spec fn query_params_outcome(
        self,
        name: Seq<char>,
        root: RootSchema,
        r: Result<Self, PlaceholderError>,
    ) -> bool {
        match parameters_outcome(root) {
            Ok(t) => r is Ok && r->Ok_0.wf() && r->Ok_0.placeholders() == with_entry(
                self.placeholders(),
                name,
                t,
            ) && r->Ok_0.definitions() == with_all(self.definitions(), found_definitions(root)),
            Err(e) => r == Err::<Self, PlaceholderError>(e),
        }
    }

    /// What registering the described schema `root` under `name` gives: its own
    /// schema's YAML under `name` and its definitions collected, or the serializer's
    /// failure.
    pub open spec fn schema_outcome(
        self,
        name: Seq<char>,
        root: RootSchema,
        r: Result<Self, PlaceholderError>,
    ) -> bool {
        match schema_yaml(own_schema(root)) {
            Some(y) => r is Ok && r->Ok_0.wf() && r->Ok_0.placeholders() == with_entry(
                self.placeholders(),
                name,
                tidied(y),
            ) && r->Ok_0.definitions() == with_all(self.definitions(), found_definitions(root)),
            None => r == Err::<Self, PlaceholderError>(PlaceholderError::SerializationFailure),
        }
    }

    /// Registers under `name` the query parameters of the described schema `root`, one
    /// per property of its object schema, and collects the definitions it refers to.
    pub fn query_params_of(self, name: &str, root: &RootSchema) -> (r: Result<Self, PlaceholderError>)
        requires
            self.wf(),
        ensures
            self.query_params_outcome(name@, *root, r),
    {
        let mut s = self;
        s.merge_definitions(definitions_of(root));
        let text = match query_parameters(root) {
            Ok(t) => t,
            Err(e) => {
                return Err(e);
            },
        };
        s.set_placeholder(name.to_owned(), text);
        Ok(s)
    }

    /// Registers under `name` the described schema `root` as YAML, and collects the
    /// definitions it refers to.
    pub fn schema_of(self, name: &str, root: &RootSchema) -> (r: Result<Self, PlaceholderError>)
        requires
            self.wf(),
        ensures
            self.schema_outcome(name@, *root, r),
    {
        let mut s = self;
        s.merge_definitions(definitions_of(root));
        let raw = match schema_yaml_of(&root_schema_of(root)) {
            Ok(y) => y,
            Err(_) => {
                return Err(PlaceholderError::SerializationFailure);
            },
        };
        s.set_placeholder(name.to_owned(), tidy_yaml(raw.as_str()));
        Ok(s)
    }

    /// Registers under `name` the query parameters of `T`, one per property of its
    /// object schema, and collects the definitions its schema refers to.
    pub fn query_params<T: schemars::JsonSchema>(self, name: &str) -> (r: Result<Self, PlaceholderError>)
        requires
            self.wf(),
        ensures
            exists|root: RootSchema| #[trigger] self.query_params_outcome(name@, root, r),
    {
        let root = describe::<T>();
        let r = self.query_params_of(name, &root);
        assert(self.query_params_outcome(name@, root, r));
        r
    }

    /// Registers under `name` the schema of `T` as YAML, and collects the definitions
    /// it refers to.
    pub fn schema<T: schemars::JsonSchema>(self, name: &str) -> (r: Result<Self, PlaceholderError>)
        requires
            self.wf(),
        ensures
            exists|root: RootSchema| #[trigger] self.schema_outcome(name@, root, r),
    {
        let root = describe::<T>();
        let r = self.schema_of(name, &root);
        assert(self.schema_outcome(name@, root, r));
        r
    }

    /// Renders `template`: the collected definitions as YAML (empty where none were
    /// collected) go under the definitions name, then every placeholder is substituted.
    pub fn render_to(self, template: &str) -> (r: Result<String, PlaceholderError>)
        requires
            self.wf(),
        ensures
            self.definitions().len() == 0 ==> r is Ok && r->Ok_0@ == rendered(
                template@,
                with_entry(self.placeholders(), definitions_key(), Seq::<char>::empty()),
            ),
            self.definitions().len() > 0 ==> match definitions_yaml(self.definitions()) {
                Some(y) => r is Ok && r->Ok_0@ == rendered(
                    template@,
                    with_entry(self.placeholders(), definitions_key(), tidied(y)),
                ),
                None => r == Err::<String, PlaceholderError>(PlaceholderError::SerializationFailure),
            },
    {
        let mut s = self;
        let defs_text = if s.definitions.len() == 0 {
            String::new()
        } else {
            match definitions_yaml_of(&s.definitions) {
                Ok(y) => tidy_yaml(y.as_str()),
                Err(_) => {
                    return Err(PlaceholderError::SerializationFailure);
                },
            }
        };
        s.set_placeholder("oaph::definitions".to_owned(), defs_text);
        let out = render_template(template, &s.ph);
        Ok(out)
    }
}

impl Default for OpenApiPlaceHolder {
    fn default() -> (r: Self)
        ensures
            r.wf(),
            r.placeholders().len() == 0,
            r.definitions().len() == 0,
    {
        Self::new()
    }
}

} // verus!

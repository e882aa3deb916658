use vstd::prelude::*;
use schemars::schema::{RootSchema, Schema};
use crate::entries::keyed;

verus! {

#[verifier::external_type_specification]
#[verifier::external_body]
pub struct ExRootSchema(RootSchema);

#[verifier::external_type_specification]
#[verifier::external_body]
pub struct ExSchema(Schema);

#[verifier::external_type_specification]
#[verifier::external_body]
pub struct ExYamlError(serde_yaml::Error);

/// Relies on schemars' draft-07 `SchemaGenerator::into_root_schema_for`, set to mark
/// optional fields `nullable` rather than adding a null type: the schema of `T` with the
/// named sub-schemas it refers to.
#[verifier::external_body]
pub(crate) fn describe<T: schemars::JsonSchema>() -> RootSchema {
    let mut settings = schemars::gen::SchemaSettings::draft07();
    settings.option_nullable = true;
    settings.option_add_null_type = false;
    settings.into_generator().into_root_schema_for::<T>()
}

/// The named sub-schemas that a described type's schema refers to, in their order.
pub uninterp spec fn found_definitions(root: RootSchema) -> Seq<(Seq<char>, Schema)>;

/// The described type's own schema.
pub uninterp spec fn own_schema(root: RootSchema) -> Schema;

/// Relies on `RootSchema::definitions`: the named sub-schemas of a described type.
#[verifier::external_body]
pub(crate) fn definitions_of(root: &RootSchema) -> (r: Vec<(String, Schema)>)
    ensures
        keyed(r@) == found_definitions(*root),
{
    root.definitions.clone().into_iter().collect()
}

/// Relies on `RootSchema::schema`: the described type's own schema.
#[verifier::external_body]
pub(crate) fn root_schema_of(root: &RootSchema) -> (r: Schema)
    ensures
        r == own_schema(*root),
{
    Schema::Object(root.schema.clone())
}

/// What `properties_of` finds in a described type's schema.
pub uninterp spec fn object_properties(root: RootSchema) -> Option<Seq<(Seq<char>, Schema)>>;

/// What `property_facts` reads of a property's schema.
pub uninterp spec fn schema_facts(s: Schema) -> Option<(bool, Option<Seq<char>>)>;

/// The YAML document that serde_yaml writes of a schema, where it can.
pub uninterp spec fn schema_yaml(s: Schema) -> Option<Seq<char>>;

/// The YAML document that serde_yaml writes of the named schemas as one map, where it can.
pub uninterp spec fn definitions_yaml(defs: Seq<(Seq<char>, Schema)>) -> Option<Seq<char>>;

/// Relies on `SchemaObject::object`: the properties of an object schema in their order,
/// `None` for a schema of another kind.
#[verifier::external_body]
pub(crate) fn properties_of(root: &RootSchema) -> (r: Option<Vec<(String, Schema)>>)
    ensures
        match r {
            Some(v) => object_properties(*root) == Some(keyed(v@)),
            None => object_properties(*root) == None::<Seq<(Seq<char>, Schema)>>,
        },
{
    root.schema.object.as_ref().map(|o| o.properties.clone().into_iter().collect())
}

/// Relies on the fields of `Schema::Object`: whether its extensions hold `nullable`, and
/// its description; `None` for a boolean schema.
#[verifier::external_body]
pub(crate) fn property_facts(s: &Schema) -> (r: Option<(bool, Option<String>)>)
    ensures
        match r {
            Some((n, d)) => schema_facts(*s) == Some(
                (
                    n,
                    match d {
                        Some(t) => Some(t@),
                        None => None::<Seq<char>>,
                    },
                ),
            ),
            None => schema_facts(*s) == None::<(bool, Option<Seq<char>>)>,
        },
{
    match s {
        Schema::Object(o) => Some((
            o.extensions.get("nullable").is_some(),
            o.metadata.as_ref().and_then(|m| m.description.clone()),
        )),
        Schema::Bool(_) => None,
    }
}

/// Relies on `serde_yaml::to_string` on a schema: its YAML document, or the serializer's
/// error.
#[verifier::external_body]
pub(crate) fn schema_yaml_of(s: &Schema) -> (r: Result<String, serde_yaml::Error>)
    ensures
        match r {
            Ok(t) => schema_yaml(*s) == Some(t@),
            Err(_) => schema_yaml(*s) == None::<Seq<char>>,
        },
{
    serde_yaml::to_string(s)
}

/// Relies on `serde_yaml::to_string` on the named schemas collected into a
/// `schemars::Map`, which keeps their order: its YAML document, or the serializer's error.
#[verifier::external_body]
pub(crate) fn definitions_yaml_of(defs: &Vec<(String, Schema)>) -> (r: Result<String, serde_yaml::Error>)
    ensures
        match r {
            Ok(t) => definitions_yaml(keyed(defs@)) == Some(t@),
            Err(_) => definitions_yaml(keyed(defs@)) == None::<Seq<char>>,
        },
{
    let map: schemars::Map<String, Schema> = defs.iter().cloned().collect();
    serde_yaml::to_string(&map)
}

} // verus!

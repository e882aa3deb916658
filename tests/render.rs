use oaph::{
    contains, find_first, join_lines, parameter, parameters_list, query_parameters, render_template,
    replace_all,
    required_of, set_entry, split_lines, strip_lines, tidy_yaml, trim, trim_end, with_indent,
    OpenApiPlaceHolder, PlaceholderError, Property, REDOC_UI_PAGE, SWAGGER_UI_PAGE,
};
use schemars::gen::SchemaGenerator;
use schemars::schema::{InstanceType, ObjectValidation, Schema, SchemaObject};
use schemars::JsonSchema;

fn chars(s: &str) -> Vec<char> {
    s.chars().collect()
}

fn text(v: &[char]) -> String {
    v.iter().collect()
}

fn object_schema(props: Vec<(&str, Schema)>, required: &[&str]) -> Schema {
    let mut object = ObjectValidation::default();
    for (name, schema) in props {
        object.properties.insert(name.to_owned(), schema);
    }
    for name in required {
        object.required.insert((*name).to_owned());
    }
    SchemaObject {
        instance_type: Some(InstanceType::Object.into()),
        object: Some(Box::new(object)),
        ..Default::default()
    }
    .into()
}

struct Query;

impl JsonSchema for Query {
    fn schema_name() -> String {
        "Query".to_owned()
    }

    fn json_schema(gen: &mut SchemaGenerator) -> Schema {
        let mut input = gen.subschema_for::<String>().into_object();
        input.metadata().description = Some("input description".to_owned());
        object_schema(
            vec![
                ("input", input.into()),
                ("tags", gen.subschema_for::<Vec<String>>()),
                ("extra", gen.subschema_for::<Option<usize>>()),
            ],
            &["input", "tags"],
        )
    }
}

struct User;

impl JsonSchema for User {
    fn schema_name() -> String {
        "User".to_owned()
    }

    fn json_schema(gen: &mut SchemaGenerator) -> Schema {
        object_schema(
            vec![
                ("id", gen.subschema_for::<usize>()),
                ("username", gen.subschema_for::<String>()),
            ],
            &["id", "username"],
        )
    }
}

struct Item;

impl JsonSchema for Item {
    fn schema_name() -> String {
        "Item".to_owned()
    }

    fn json_schema(gen: &mut SchemaGenerator) -> Schema {
        object_schema(
            vec![
                ("id", gen.subschema_for::<usize>()),
                ("width", gen.subschema_for::<Option<f64>>()),
                ("owner", gen.subschema_for::<User>()),
            ],
            &["id", "owner"],
        )
    }
}

struct Response;

impl JsonSchema for Response {
    fn schema_name() -> String {
        "Response".to_owned()
    }

    fn json_schema(gen: &mut SchemaGenerator) -> Schema {
        object_schema(
            vec![
                ("success", gen.subschema_for::<bool>()),
                ("count", gen.subschema_for::<usize>()),
                ("items", gen.subschema_for::<Vec<Item>>()),
            ],
            &["success", "count", "items"],
        )
    }
}

struct Request;

impl JsonSchema for Request {
    fn schema_name() -> String {
        "Request".to_owned()
    }

    fn json_schema(gen: &mut SchemaGenerator) -> Schema {
        object_schema(vec![("username", gen.subschema_for::<String>())], &["username"])
    }
}

#[test]
fn substitute() -> Result<(), PlaceholderError> {
    assert_eq!(
        "hello world!",
        OpenApiPlaceHolder::new()
            .substitute("ph", "world")
            .render_to("hello {{ph}}!")?
    );
    Ok(())
}

#[test]
fn query_params() -> Result<(), PlaceholderError> {
    let out = OpenApiPlaceHolder::new()
        .query_params::<Query>("Query")?
        .render_to("{{Query}}")?;
    assert!(out.contains(
        "- in: query\n  name: input\n  description: input description\n  required: true\n  schema:\n    type: string"
    ));
    assert!(out.contains("- in: query\n  name: extra\n  required: false\n  schema:\n    type: integer"));
    assert!(out.contains("- in: query\n  name: tags\n  required: true\n  schema:\n    type: array\n    items:\n      type: string"));
    assert_eq!(out.matches("description:").count(), 1);
    assert!(out.contains("nullable: true"));
    Ok(())
}

#[test]
fn query_params_of_a_non_object_fail() {
    let r = OpenApiPlaceHolder::new().query_params::<String>("Name");
    assert!(matches!(r, Err(PlaceholderError::UnsupportedSchemaKind)));
}

#[test]
fn schema() -> Result<(), PlaceholderError> {
    let out = OpenApiPlaceHolder::new()
        .schema::<Request>("Request")?
        .schema::<Response>("Response")?
        .render_to("request:\n  {{Request}}\nresponse:\n  {{Response}}\ndefinitions:\n  {{oaph::definitions}}")?;
    assert!(out.starts_with("request:\n  title: Request\n  type: object\n"), "{}", out);
    assert!(out.contains("response:\n  title: Response\n  type: object\n"), "{}", out);
    assert!(out.contains("#/definitions/Item"), "{}", out);
    assert!(out.contains("#/definitions/User"), "{}", out);
    assert!(out.contains("definitions:\n  Item:\n    type: object\n"), "{}", out);
    assert!(out.contains("\n  User:\n    type: object\n"), "{}", out);
    assert!(out.contains("      username:\n        type: string"), "{}", out);
    assert!(out.contains("nullable: true"), "{}", out);
    assert!(!out.contains("---"));
    Ok(())
}

#[test]
fn indented_placeholder_reindents_continuation_lines() -> Result<(), PlaceholderError> {
    let out = OpenApiPlaceHolder::new()
        .substitute("Query", "a:\n  b: 1")
        .render_to("  schema:\n    {{Query}}")?;
    assert_eq!(out, "  schema:\n    a:\n      b: 1");
    Ok(())
}

#[test]
fn empty_definitions_render_as_empty_text() -> Result<(), PlaceholderError> {
    let out = OpenApiPlaceHolder::new().render_to("defs: {{oaph::definitions}}\nend")?;
    assert_eq!(out, "defs:\nend");
    let out = OpenApiPlaceHolder::default().render_to("{{oaph::definitions}}")?;
    assert_eq!(out, "");
    Ok(())
}

#[test]
fn unknown_placeholder_is_left_intact() -> Result<(), PlaceholderError> {
    let out = OpenApiPlaceHolder::new()
        .substitute("ph", "x")
        .render_to("a: {{unknown}}\n  b: {{ph}}  ")?;
    assert_eq!(out, "a: {{unknown}}\n  b: x");
    Ok(())
}

#[test]
fn rendering_twice_gives_the_same_text() {
    let entries = vec![
        ("a".to_owned(), "one\ntwo".to_owned()),
        ("b".to_owned(), "{{a}}".to_owned()),
    ];
    let template = "x: {{b}}\n  y: {{a}}";
    let first = render_template(template, &entries);
    let second = render_template(template, &entries);
    assert_eq!(first, second);
    assert_eq!(first, "x: {{a}}\n  y: one\n  y: two");
}

#[test]
fn later_registration_overwrites() -> Result<(), PlaceholderError> {
    let out = OpenApiPlaceHolder::new()
        .substitute("ph", "old")
        .substitute("ph", "new")
        .render_to("{{ph}}")?;
    assert_eq!(out, "new");
    Ok(())
}

#[test]
fn every_occurrence_on_a_line_is_replaced() {
    let entries = vec![("v".to_owned(), "1\n2".to_owned())];
    assert_eq!(render_template("  {{v}} {{v}}", &entries), "  1\n  2 1\n  2");
}

#[test]
fn with_indent_skips_the_first_line() {
    assert_eq!(text(&with_indent(&chars("  "), &chars("a\nb\n\nc"))), "a\n  b\n  \n  c");
    assert_eq!(text(&with_indent(&chars("  "), &chars(""))), "");
}

#[test]
fn split_and_join_lines() {
    let ls = split_lines(&chars("a\n\nbc\n"));
    let shown: Vec<String> = ls.iter().map(|l| text(l)).collect();
    assert_eq!(shown, vec!["a", "", "bc", ""]);
    assert_eq!(text(&join_lines(&ls)), "a\n\nbc\n");
}

#[test]
fn find_and_contains() {
    assert_eq!(find_first(&chars("ab{{x}}{{x}}"), &chars("{{x}}")), Some(2));
    assert_eq!(find_first(&chars("abc"), &chars("{{x}}")), None);
    assert!(contains(&chars("a description: b"), &chars("description:")));
    assert!(!contains(&chars("descr"), &chars("description:")));
}

#[test]
fn replace_is_left_to_right_without_overlap() {
    assert_eq!(text(&replace_all(&chars("aaa"), &chars("aa"), &chars("b"))), "ba");
    assert_eq!(text(&replace_all(&chars("x--y--"), &chars("--"), &chars("+"))), "x+y+");
}

#[test]
fn trimming_whitespace() {
    assert_eq!(text(&trim_end(&chars("a b \t\u{3000}"))), "a b");
    assert_eq!(text(&trim(&chars("\n  a b  \n"))), "a b");
    assert_eq!(text(&trim(&chars("   "))), "");
}

#[test]
fn tidy_yaml_drops_document_markers() {
    assert_eq!(tidy_yaml("---\ntype: string\n"), "type: string");
    assert_eq!(tidy_yaml("  a: 1\n---\nb: 2\n\n"), "a: 1\nb: 2");
}

#[test]
fn strip_lines_drops_description_lines() {
    assert_eq!(
        strip_lines("description: x\ntype: object\n  inner description: y\nz", "description:"),
        "type: object\nz"
    );
}

#[test]
fn required_follows_the_nullable_marker() {
    assert!(required_of(Some(false)));
    assert!(!required_of(Some(true)));
    assert!(!required_of(None));
}

#[test]
fn parameter_entry_layout() {
    assert_eq!(
        parameter("input", true, Some("  the input "), "description: d\ntype: string"),
        "- in: query\n  name: input\n  description: the input\n  required: true\n  schema:\n    type: string"
    );
    assert_eq!(
        parameter("extra", false, None, "type: integer\nnullable: true"),
        "- in: query\n  name: extra\n  required: false\n  schema:\n    type: integer\n    nullable: true"
    );
}

#[test]
fn parameters_are_joined_in_order() {
    let props = vec![
        Property {
            name: "a".to_owned(),
            nullable: Some(false),
            description: None,
            schema_yaml: "type: string".to_owned(),
        },
        Property {
            name: "b".to_owned(),
            nullable: None,
            description: Some("bee".to_owned()),
            schema_yaml: "type: boolean".to_owned(),
        },
    ];
    assert_eq!(
        parameters_list(&props),
        "- in: query\n  name: a\n  required: true\n  schema:\n    type: string\n- in: query\n  name: b\n  description: bee\n  required: false\n  schema:\n    type: boolean"
    );
    assert_eq!(parameters_list(&Vec::new()), "");
}

#[test]
fn set_entry_overwrites_in_place() {
    let mut entries: Vec<(String, u8)> = Vec::new();
    set_entry(&mut entries, "a".to_owned(), 1);
    set_entry(&mut entries, "b".to_owned(), 2);
    set_entry(&mut entries, "a".to_owned(), 3);
    assert_eq!(entries, vec![("a".to_owned(), 3), ("b".to_owned(), 2)]);
}

#[test]
fn viewer_pages_carry_the_url() {
    let swagger = OpenApiPlaceHolder::swagger_ui_html("/doc/openapi.yaml");
    assert!(swagger.contains("url: \"/doc/openapi.yaml\""));
    assert!(!swagger.contains("{{openapi_yaml_url}}"));
    assert_eq!(swagger.len(), SWAGGER_UI_PAGE.len() - "{{openapi_yaml_url}}".len() + "/doc/openapi.yaml".len());
    let redoc = OpenApiPlaceHolder::redoc_ui_html("spec.yaml");
    assert!(redoc.contains("spec-url=\"spec.yaml\""));
    assert!(REDOC_UI_PAGE.contains("{{openapi_yaml_url}}"));
}

struct OnlyInput;

impl JsonSchema for OnlyInput {
    fn schema_name() -> String {
        "OnlyInput".to_owned()
    }

    fn json_schema(gen: &mut SchemaGenerator) -> Schema {
        object_schema(vec![("input", gen.subschema_for::<String>())], &["input"])
    }
}

struct DescribedInput;

impl JsonSchema for DescribedInput {
    fn schema_name() -> String {
        "DescribedInput".to_owned()
    }

    fn json_schema(gen: &mut SchemaGenerator) -> Schema {
        let mut input = gen.subschema_for::<String>().into_object();
        input.metadata().description = Some("input description".to_owned());
        object_schema(vec![("input", input.into())], &["input"])
    }
}

struct OnlyExtra;

impl JsonSchema for OnlyExtra {
    fn schema_name() -> String {
        "OnlyExtra".to_owned()
    }

    fn json_schema(gen: &mut SchemaGenerator) -> Schema {
        object_schema(vec![("extra", gen.subschema_for::<Option<usize>>())], &[])
    }
}

struct OnlyTags;

impl JsonSchema for OnlyTags {
    fn schema_name() -> String {
        "OnlyTags".to_owned()
    }

    fn json_schema(gen: &mut SchemaGenerator) -> Schema {
        object_schema(vec![("tags", gen.subschema_for::<Vec<String>>())], &["tags"])
    }
}

fn registered<T: JsonSchema>() -> String {
    OpenApiPlaceHolder::new()
        .query_params::<T>("Q")
        .unwrap()
        .render_to("{{Q}}")
        .unwrap()
}

#[test]
fn query_params_plain_field() {
    assert_eq!(
        registered::<OnlyInput>(),
        "- in: query\n  name: input\n  required: true\n  schema:\n    type: string"
    );
}

#[test]
fn query_params_described_field() {
    assert_eq!(
        registered::<DescribedInput>(),
        "- in: query\n  name: input\n  description: input description\n  required: true\n  schema:\n    type: string"
    );
}

#[test]
fn query_params_optional_field() {
    let out = registered::<OnlyExtra>();
    assert!(
        out.starts_with("- in: query\n  name: extra\n  required: false\n  schema:\n    type: integer"),
        "{}",
        out
    );
    assert!(out.contains("\n    nullable: true"), "{}", out);
    assert!(!out.contains("null\n") && !out.contains("- \"null\""), "{}", out);
}

#[test]
fn query_params_list_field() {
    assert_eq!(
        registered::<OnlyTags>(),
        "- in: query\n  name: tags\n  required: true\n  schema:\n    type: array\n    items:\n      type: string"
    );
}

#[test]
fn query_params_keep_declared_order() {
    let out = registered::<Query>();
    let input = out.find("name: input").unwrap();
    let tags = out.find("name: tags").unwrap();
    let extra = out.find("name: extra").unwrap();
    assert!(input < tags && tags < extra, "{}", out);
    assert_eq!(out.matches("- in: query").count(), 3);
}

fn reflected<T: JsonSchema>() -> schemars::schema::RootSchema {
    let mut settings = schemars::gen::SchemaSettings::draft07();
    settings.option_nullable = true;
    settings.option_add_null_type = false;
    settings.into_generator().into_root_schema_for::<T>()
}

#[test]
fn query_params_of_a_described_root() {
    let root = reflected::<OnlyInput>();
    let out = OpenApiPlaceHolder::new()
        .query_params_of("Q", &root)
        .unwrap()
        .render_to("{{Q}}")
        .unwrap();
    assert_eq!(out, "- in: query\n  name: input\n  required: true\n  schema:\n    type: string");
    assert_eq!(
        query_parameters(&reflected::<String>()),
        Err(PlaceholderError::UnsupportedSchemaKind)
    );
}

#[test]
fn schema_of_a_described_root_collects_its_definitions() {
    let root = reflected::<Response>();
    let out = OpenApiPlaceHolder::new()
        .schema_of("Response", &root)
        .unwrap()
        .render_to("{{Response}}\n---\n{{oaph::definitions}}")
        .unwrap();
    let (own, defs) = out.split_once("\n---\n").unwrap();
    assert!(own.starts_with("title: Response\ntype: object\n"), "{}", own);
    assert!(own.contains("#/definitions/Item"), "{}", own);
    assert!(!own.contains("definitions:"), "{}", own);
    assert!(defs.starts_with("Item:\n  type: object\n"), "{}", defs);
    assert!(defs.contains("\nUser:\n  type: object\n"), "{}", defs);
}

#[test]
fn schema_under_a_reused_name_keeps_the_last() -> Result<(), PlaceholderError> {
    let out = OpenApiPlaceHolder::new()
        .schema::<Request>("S")?
        .schema::<User>("S")?
        .render_to("{{S}}")?;
    assert!(out.starts_with("title: User\ntype: object\n"), "{}", out);
    assert!(!out.contains("Request"), "{}", out);
    Ok(())
}

#[test]
fn template_without_registered_markers_is_unchanged() -> Result<(), PlaceholderError> {
    let template = "a: {{unknown}}  \n\tb: {{other}} \n";
    let out = OpenApiPlaceHolder::new()
        .substitute("ph", "x")
        .schema::<User>("U")?
        .render_to(template)?;
    assert_eq!(out, template);
    Ok(())
}

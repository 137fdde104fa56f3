use homeostat::json::Json;
use homeostat::schema::{enum_values, markdown, render_file, type_label, File, Schemas, INTRODUCTION};

fn json(text: &str) -> Json {
    Json::parse(text.as_bytes()).unwrap()
}

fn label(text: &str) -> (String, Vec<String>) {
    type_label(&json(text))
}

#[test]
fn file_kinds_have_names() {
    for file in File::ALL {
        assert_eq!(File::parse(file.name()), Some(file));
    }
    assert_eq!(File::parse("dashboard"), None);
    assert_eq!(File::Zones.title(), "Zones (`zones.toml`)");
}

#[test]
fn types_read_well() {
    assert_eq!(
        label("{\"$ref\":\"#/$defs/UnitKind\"}"),
        ("[UnitKind](#unitkind)".to_string(), vec!["UnitKind".to_string()])
    );
    assert_eq!(label("{\"anyOf\":[{\"$ref\":\"#/$defs/A\"},{\"type\":\"null\"}]}").0, "[A](#a)");
    assert_eq!(label("{\"enum\":[\"a\",\"b\"]}").0, "`a` \\| `b`");
    assert_eq!(label("{\"type\":[\"string\",\"null\"]}").0, "string");
    assert_eq!(label("{\"type\":[\"null\"]}").0, "any");
    assert_eq!(label("{}").0, "any");
    assert_eq!(label("{\"type\":\"array\",\"items\":{\"type\":\"string\"}}").0, "list of string");
    assert_eq!(label("{\"type\":\"array\"}").0, "list of any");
    let table = label("{\"type\":\"object\",\"additionalProperties\":{\"$ref\":\"#/$defs/P\"}}");
    assert_eq!(table, ("table of name → [P](#p)".to_string(), vec!["P".to_string()]));
    assert_eq!(label("{\"type\":\"object\",\"additionalProperties\":false}").0, "table");
    assert_eq!(label("{\"type\":\"integer\"}"), ("integer".to_string(), vec![]));
}

#[test]
fn enums_list_their_values() {
    let plain = enum_values(&json("{\"enum\":[\"a\",1,\"b\"]}")).unwrap();
    assert_eq!(plain.iter().map(|c| c.value.as_str()).collect::<Vec<_>>(), vec!["a", "b"]);
    let told = enum_values(&json(
        "{\"oneOf\":[{\"const\":\"x\",\"description\":\"one\\ntwo\"},{\"enum\":[\"y\"]}]}",
    ))
    .unwrap();
    assert_eq!(told[0].description.as_deref(), Some("one two"));
    assert_eq!(told[1].value, "y");
    assert!(enum_values(&json("{\"oneOf\":[{\"type\":\"string\"}]}")).is_none());
    assert!(enum_values(&json("{}")).is_none());
}

const UNIT: &str = "{\"description\":\"A unit.\",\"required\":[\"kind\"],\"properties\":{\
    \"kind\":{\"$ref\":\"#/$defs/Kind\",\"description\":\"what|it\\nis\"},\
    \"parts\":{\"type\":\"array\",\"items\":{\"$ref\":\"#/$defs/Part\"}},\
    \"more\":{\"$ref\":\"#/$defs/Kind\"}},\
    \"$defs\":{\"Part\":{\"properties\":{\"self\":{\"$ref\":\"#/$defs/Part\"}}},\
    \"Kind\":{\"oneOf\":[{\"const\":\"a\",\"description\":\"first\"},{\"enum\":[\"b\"]}]},\
    \"Unused\":{\"enum\":[\"z\"]}}}";

#[test]
fn a_file_renders_with_each_definition_once() {
    assert_eq!(
        render_file(&json(UNIT)),
        "A unit.\n\n\
         | Field | Type | Required | Description |\n|---|---|---|---|\n\
         | `kind` | [Kind](#kind) | yes | what\\|it is |\n\
         | `more` | [Kind](#kind) | no |  |\n\
         | `parts` | list of [Part](#part) | no |  |\n\n\
         ### Kind\n\n- `a` — first\n- `b`\n\n\
         ### Part\n\n\
         | Field | Type | Required | Description |\n|---|---|---|---|\n\
         | `self` | [Part](#part) | no |  |\n\n"
    );
}

#[test]
fn the_reference_has_a_part_per_file() {
    let schemas = Schemas { unit: json(UNIT), entity: json("{}"), zones: json("{}") };
    let text = markdown(&schemas);
    assert!(text.starts_with(INTRODUCTION));
    assert!(text.contains("## Unit manifest (`units/<name>.toml`)\n\nA unit.\n\n"));
    assert!(text.ends_with(
        "## Entity file (`<entities dir>/<name>.toml`)\n\n## Zones (`zones.toml`)\n\n"
    ));
    assert_eq!(schemas.json(File::Zones).to_string(), "{}");
}

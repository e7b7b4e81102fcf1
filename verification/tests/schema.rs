use codex_core::json::clone_json;
use codex_core::json::get_field;
use codex_core::json::same_json;
use codex_core::json::Json;
use codex_core::json::JsonShape;
use codex_core::schema_evolution::api::pointer_escape;
use codex_core::schema_evolution::api::ApiSchema;
use codex_core::schema_evolution::method::get_property;
use codex_core::schema_evolution::method::Argument;
use codex_core::schema_evolution::method::Arguments;
use codex_core::schema_evolution::model::AdditionalProperties;
use codex_core::schema_evolution::model::SchemaId;
use codex_core::schema_evolution::model::SchemaNode;
use codex_core::schema_evolution::value::JsonType;
use codex_core::schema_evolution::value::TypeSet;
use codex_core::schema_evolution::value::ValueSet;

fn json(text: &str) -> Json {
    Json::parse(text).expect("json")
}

fn request(method: &str, params: &str, required: bool) -> String {
    let required_fields = if required {
        r#"["id","method","params"]"#
    } else {
        r#"["id","method"]"#
    };
    format!(
        r#"{{"properties":{{"id":{{"type":"string"}},"method":{{"enum":["{method}"]}},"params":{params}}},"required":{required_fields},"type":"object"}}"#
    )
}

fn request_schema(params: &str, definitions: Option<&str>) -> Json {
    let request = request("test/method", params, true);
    match definitions {
        Some(definitions) => json(&format!(
            r#"{{"oneOf":[{request}],"definitions":{definitions}}}"#
        )),
        None => json(&format!(r#"{{"oneOf":[{request}]}}"#)),
    }
}

#[test]
fn parses_methods_into_typed_argument_shapes() {
    let map = request(
        "map",
        r#"{"properties":{"value":{"type":"string"}},"type":"object"}"#,
        true,
    );
    let value = request("value", r#"{"type":"null"}"#, false);
    let none = r#"{"properties":{"method":{"const":"none"}},"required":["method"],"type":"object"}"#;
    let schema = json(&format!(r#"{{"oneOf":[{map},{value},{none}]}}"#));
    let parsed = ApiSchema::parse(&schema).expect("schema");

    let map = parsed.method("map").expect("map");
    assert!(matches!(map.arguments, Arguments::Mapping(_)));
    assert!(matches!(
        parsed.method("value").expect("value").arguments,
        Arguments::Value(Argument {
            required: false,
            ..
        })
    ));
    assert_eq!(
        parsed.method("none").expect("none").arguments,
        Arguments::Absent
    );
    let (_, request) = parsed.resolve(map.request).expect("request");
    let SchemaNode::Rules(request) = request else {
        panic!("method request should contain rules");
    };
    let request = request.object.as_ref().unwrap();
    assert!(get_property(&request.properties, "id").is_some());
    assert!(get_property(&request.properties, "method").is_some());
    assert!(get_property(&request.properties, "params").is_some());
    assert!(get_property(&request.properties, "other").is_none());
    assert!(parsed.method("other").is_none());
    let names: Vec<&str> = parsed.methods.iter().map(|m| m.name.as_str()).collect();
    assert_eq!(names, vec!["map", "none", "value"]);
}

#[test]
fn keeps_refs_typed_without_expanding_recursive_definitions() {
    let schema = request_schema(
        r##"{"$ref":"#/definitions/Params"}"##,
        Some(
            r##"{
                "Params": {
                    "properties": {
                        "child": { "$ref": "#/definitions/Params" },
                        "name": { "allOf": [{ "$ref": "#/definitions/Name" }], "description": "alias" }
                    },
                    "type": "object"
                },
                "Name": { "type": "string" }
            }"##,
        ),
    );

    let parsed = ApiSchema::parse(&schema).expect("schema");
    assert!(matches!(
        parsed.method("test/method").expect("method").arguments,
        Arguments::Mapping(_)
    ));
}

#[test]
fn rejects_malformed_protocol_shapes_and_direct_ref_cycles() {
    let same = request("same", "null", true);
    let duplicate = json(&format!(r#"{{"oneOf":[{same},{same}]}}"#));
    assert!(ApiSchema::parse(&duplicate).is_err());

    let missing_ref = request_schema(r##"{"$ref":"#/definitions/Missing"}"##, Some("{}"));
    assert!(ApiSchema::parse(&missing_ref).is_err());

    let cycle = request_schema(
        r##"{"$ref":"#/definitions/A"}"##,
        Some(r##"{"A":{"$ref":"#/definitions/B"},"B":{"$ref":"#/definitions/A"}}"##),
    );
    assert!(ApiSchema::parse(&cycle).is_err());

    let unsupported_all_of =
        request_schema(r#"{"allOf":[{"type":"string"},{"minLength":1}]}"#, None);
    assert!(ApiSchema::parse(&unsupported_all_of).is_err());
}

#[test]
fn methods_that_are_named_twice_are_refused() {
    let same = request("same", "true", true);
    let duplicate = json(&format!(r#"{{"oneOf":[{same},{same}]}}"#));
    let error = match ApiSchema::parse(&duplicate) {
        Ok(_) => panic!("duplicate methods should be refused"),
        Err(error) => error,
    };
    let told = format!("{} {}", error.message, error.cause.unwrap_or_default());
    assert!(told.contains("same"), "{told}");
}

#[test]
fn nodes_can_be_added_and_followed() {
    let mut api = ApiSchema { methods: Vec::new(), nodes: Vec::new() };
    let any = api.push(SchemaNode::Any);
    let reference = api.push(SchemaNode::Reference(any));
    assert_eq!((any, reference), (SchemaId(0), SchemaId(1)));
    let (id, node) = api.resolve(reference).expect("node");
    assert_eq!(id, any);
    assert!(matches!(node, SchemaNode::Any));
    assert!(api.resolve(SchemaId(7)).is_err());
    let first = api.push(SchemaNode::Reference(SchemaId(3)));
    let second = api.push(SchemaNode::Reference(first));
    assert!(api.resolve(second).is_err());
}

#[test]
fn pointers_are_escaped_apart() {
    assert_eq!(pointer_escape("a/b~c"), "a~1b~0c");
    assert_eq!(pointer_escape("~1"), "~01");
    assert_eq!(pointer_escape("/"), "~1");
    assert_eq!(pointer_escape("plain"), "plain");
}

#[test]
fn types_are_read_and_widened() {
    assert!(TypeSet::parse(None).expect("types").is_none());
    let one = TypeSet::parse(Some(&json(r#""string""#))).expect("types").expect("types");
    assert!(one.declares(JsonType::String));
    assert!(!one.declares(JsonType::Null));
    let two = TypeSet::parse(Some(&json(r#"["number","null"]"#)))
        .expect("types")
        .expect("types");
    assert!(two.declares(JsonType::Number));
    assert!(!two.declares(JsonType::Integer));
    let accepted = two.accepted_types();
    assert!(accepted.declares(JsonType::Integer));
    assert!(accepted.declares(JsonType::Null));
    assert!(TypeSet::parse(Some(&json(r#""text""#))).is_err());
    assert!(TypeSet::parse(Some(&json("3"))).is_err());
    assert_eq!(JsonType::parse("boolean"), Ok(JsonType::Boolean));
    assert!(JsonType::parse("Boolean").is_err());
}

#[test]
fn values_come_in_one_order() {
    let schema = json(r#"{"enum":["b","a","b"]}"#);
    let JsonShape::Object(fields) = &schema.shape else {
        panic!("object expected");
    };
    let values = ValueSet::parse(fields).expect("values").expect("values");
    let texts: Vec<&str> = values.values.iter().map(|v| v.text.as_str()).collect();
    assert_eq!(texts, vec![r#""a""#, r#""b""#]);
}

#[test]
fn objects_without_further_properties_are_told_apart() {
    let params = r#"{"properties":{"x":true},"required":["x"],"additionalProperties":false,"type":"object"}"#;
    let parsed = ApiSchema::parse(&request_schema(params, None)).expect("schema");
    let Arguments::Mapping(argument) = parsed.method("test/method").expect("method").arguments else {
        panic!("mapping expected");
    };
    assert!(argument.required);
    let (_, node) = parsed.resolve(argument.schema).expect("params");
    let SchemaNode::Rules(rules) = node else {
        panic!("rules expected");
    };
    let object = rules.object.as_ref().expect("object");
    assert_eq!(object.additional_properties, AdditionalProperties::Forbidden);
    assert_eq!(object.required, vec!["x".to_string()]);
    assert!(rules.types.as_ref().expect("types").declares(JsonType::Object));
    assert!(rules.values.is_none());
}

#[test]
fn properties_are_ordered_by_their_names() {
    let params = r#"{"properties":{"b":true,"c":{"type":"string"},"a":false,"ab":true},"type":"object"}"#;
    let parsed = ApiSchema::parse(&request_schema(params, None)).expect("schema");
    let Arguments::Mapping(argument) = parsed.method("test/method").expect("method").arguments else {
        panic!("mapping expected");
    };
    let (_, node) = parsed.resolve(argument.schema).expect("params");
    let SchemaNode::Rules(rules) = node else {
        panic!("rules expected");
    };
    let object = rules.object.as_ref().expect("object");
    let names: Vec<&str> = object.properties.iter().map(|(name, _)| name.as_str()).collect();
    assert_eq!(names, vec!["a", "ab", "b", "c"]);
}

#[test]
fn json_is_read_and_written() {
    let value = json(r#" { "b" : [ 1, true, null, "x\n" ], "a" : {} } "#);
    let JsonShape::Object(fields) = &value.shape else {
        panic!("object expected");
    };
    let b = get_field(fields, "b").expect("b");
    let JsonShape::Array(items) = &b.shape else {
        panic!("array expected");
    };
    assert_eq!(items[0].shape, JsonShape::Number("1".to_string()));
    assert_eq!(items[1].shape, JsonShape::Bool(true));
    assert_eq!(items[2].shape, JsonShape::Null);
    assert_eq!(items[3].shape, JsonShape::Str("x\n".to_string()));
    assert_eq!(items[3].text, r#""x\n""#);
    assert_eq!(b.text, r#"[1,true,null,"x\n"]"#);
    assert!(get_field(fields, "c").is_none());
    assert!(same_json(&value, &clone_json(&value)));
    assert!(!same_json(&value, b));
    assert!(Json::parse("{").is_err());
}

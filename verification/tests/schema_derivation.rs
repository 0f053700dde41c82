//! Schema derivation from argument field lists.

use mcp_sdk::json::Json;
use mcp_sdk::schema::{derive_schema, ArgField, ArgType};

fn field(name: &str, ty: ArgType) -> ArgField {
    ArgField {
        name: name.to_string(),
        ty,
        optional: false,
        desc: None,
        rename: None,
        skip: false,
        required: None,
    }
}

fn get<'a>(j: &'a Json, key: &str) -> &'a Json {
    match j {
        Json::Obj(members) => {
            for (k, v) in members.iter() {
                if k == key {
                    return v;
                }
            }
            panic!("key {} not found", key);
        },
        _ => panic!("not an object"),
    }
}

fn has_key(j: &Json, key: &str) -> bool {
    match j {
        Json::Obj(members) => members.iter().any(|(k, _)| k == key),
        _ => false,
    }
}

fn required_names(schema: &Json) -> Vec<String> {
    if !has_key(schema, "required") {
        return Vec::new();
    }
    match get(schema, "required") {
        Json::Arr(items) => items
            .iter()
            .map(|v| match v {
                Json::Str(s) => s.clone(),
                _ => panic!("required entry is not a string"),
            })
            .collect(),
        _ => panic!("required is not an array"),
    }
}

fn type_of(j: &Json) -> String {
    match get(j, "type") {
        Json::Str(s) => s.clone(),
        _ => panic!("type is not a string"),
    }
}

#[test]
fn test_basic_args() {
    let fields = vec![field("name", ArgType::Str), field("age", ArgType::Int)];
    let schema = derive_schema(&fields);
    assert_eq!(type_of(&schema), "object");
    assert_eq!(type_of(get(get(&schema, "properties"), "name")), "string");
    assert_eq!(type_of(get(get(&schema, "properties"), "age")), "integer");

    let required_fields = required_names(&schema);
    assert!(required_fields.contains(&"name".to_string()));
    assert!(required_fields.contains(&"age".to_string()));
    assert_eq!(required_fields.len(), 2);
}

#[test]
fn test_optional_args() {
    let mut description = field("description", ArgType::Str);
    description.optional = true;
    let fields = vec![field("id", ArgType::Str), description];
    let schema = derive_schema(&fields);
    assert_eq!(type_of(&schema), "object");
    assert_eq!(type_of(get(get(&schema, "properties"), "id")), "string");
    assert_eq!(
        type_of(get(get(&schema, "properties"), "description")),
        "string"
    );

    let required_fields = required_names(&schema);
    assert!(required_fields.contains(&"id".to_string()));
    assert!(!required_fields.contains(&"description".to_string()));
    assert_eq!(required_fields.len(), 1);
}

#[test]
fn test_list_args() {
    let fields = vec![
        field("items", ArgType::List(Box::new(ArgType::Str))),
        field("counts", ArgType::List(Box::new(ArgType::Int))),
    ];
    let schema = derive_schema(&fields);
    assert_eq!(type_of(&schema), "object");
    let items = get(get(&schema, "properties"), "items");
    assert_eq!(type_of(items), "array");
    assert_eq!(type_of(get(items, "items")), "string");
    let counts = get(get(&schema, "properties"), "counts");
    assert_eq!(type_of(counts), "array");
    assert_eq!(type_of(get(counts, "items")), "integer");

    let required_fields = required_names(&schema);
    assert!(required_fields.contains(&"items".to_string()));
    assert!(required_fields.contains(&"counts".to_string()));
    assert_eq!(required_fields.len(), 2);
}

#[test]
fn test_desc_args() {
    let mut id = field("id", ArgType::Str);
    id.desc = Some("The unique identifier.".to_string());
    let fields = vec![id];
    let schema = derive_schema(&fields);
    let id_schema = get(get(&schema, "properties"), "id");
    assert_eq!(
        get(id_schema, "description"),
        &Json::Str("The unique identifier.".to_string())
    );
    assert_eq!(type_of(id_schema), "string");
}

#[test]
fn test_rename_args() {
    let mut user_id = field("user_id", ArgType::Str);
    user_id.rename = Some("userIdentifier".to_string());
    let fields = vec![user_id];
    let schema = derive_schema(&fields);
    assert!(!has_key(get(&schema, "properties"), "user_id"));
    assert_eq!(
        type_of(get(get(&schema, "properties"), "userIdentifier")),
        "string"
    );
    let required_fields = required_names(&schema);
    assert!(required_fields.contains(&"userIdentifier".to_string()));
}

#[test]
fn test_skip_args() {
    let mut internal_data = field("internal_data", ArgType::Int);
    internal_data.skip = true;
    let fields = vec![field("visible", ArgType::Str), internal_data];
    let schema = derive_schema(&fields);
    assert!(!has_key(get(&schema, "properties"), "internal_data"));
    assert_eq!(type_of(get(get(&schema, "properties"), "visible")), "string");
    let required_fields = required_names(&schema);
    assert!(required_fields.contains(&"visible".to_string()));
    assert_eq!(required_fields.len(), 1);
}

#[test]
fn test_required_override_args() {
    let mut name = field("name", ArgType::Str);
    name.required = Some(false);
    let mut description = field("description", ArgType::Str);
    description.optional = true;
    description.required = Some(true);
    let mut code = field("code", ArgType::Int);
    code.optional = true;
    code.required = Some(true);
    let mut status = field("status", ArgType::Str);
    status.required = Some(false);
    let fields = vec![name, description, code, status];
    let schema = derive_schema(&fields);
    assert_eq!(type_of(get(get(&schema, "properties"), "name")), "string");
    assert_eq!(
        type_of(get(get(&schema, "properties"), "description")),
        "string"
    );
    assert_eq!(type_of(get(get(&schema, "properties"), "code")), "integer");
    assert_eq!(type_of(get(get(&schema, "properties"), "status")), "string");

    let required_fields = required_names(&schema);
    assert!(
        !required_fields.contains(&"name".to_string()),
        "name should not be required"
    );
    assert!(
        required_fields.contains(&"description".to_string()),
        "description should be required"
    );
    assert!(
        required_fields.contains(&"code".to_string()),
        "code should be required"
    );
    assert!(
        !required_fields.contains(&"status".to_string()),
        "status should not be required"
    );
    assert_eq!(
        required_fields.len(),
        2,
        "Expected 2 required fields: description, code. Got: {:?}",
        required_fields
    );
}

fn nested_inner_fields() -> Vec<ArgField> {
    let detail = field("detail", ArgType::Str);
    let mut detail_code = field("detail_code", ArgType::Int);
    detail_code.optional = true;
    detail_code.desc = Some("An optional detail code".to_string());
    vec![detail, detail_code]
}

#[test]
fn test_nested_struct_args() {
    let inner_schema_expected = derive_schema(&nested_inner_fields());
    assert_eq!(type_of(&inner_schema_expected), "object");
    assert_eq!(
        type_of(get(get(&inner_schema_expected, "properties"), "detail")),
        "string"
    );
    let code_schema = get(get(&inner_schema_expected, "properties"), "detail_code");
    assert_eq!(type_of(code_schema), "integer");
    assert_eq!(
        get(code_schema, "description"),
        &Json::Str("An optional detail code".to_string())
    );
    assert_eq!(required_names(&inner_schema_expected), vec!["detail".to_string()]);

    let inner_ty = || ArgType::Record(nested_inner_fields());
    let mut optional_inner = field("optional_inner", inner_ty());
    optional_inner.optional = true;
    let mut inner_list = field("inner_list", ArgType::List(Box::new(inner_ty())));
    inner_list.desc = Some("A list of inner details".to_string());
    let outer_fields = vec![
        field("id", ArgType::Int),
        field("inner_data", inner_ty()),
        optional_inner,
        inner_list,
    ];
    let outer_schema = derive_schema(&outer_fields);
    assert_eq!(type_of(&outer_schema), "object");
    assert_eq!(type_of(get(get(&outer_schema, "properties"), "id")), "integer");
    assert_eq!(
        get(get(&outer_schema, "properties"), "inner_data"),
        &inner_schema_expected,
        "inner_data schema mismatch"
    );
    assert_eq!(
        get(get(&outer_schema, "properties"), "optional_inner"),
        &inner_schema_expected,
        "optional_inner schema mismatch"
    );
    let list_schema = get(get(&outer_schema, "properties"), "inner_list");
    assert_eq!(type_of(list_schema), "array");
    assert_eq!(
        get(list_schema, "items"),
        &inner_schema_expected,
        "inner_list items schema mismatch"
    );
    assert_eq!(
        get(list_schema, "description"),
        &Json::Str("A list of inner details".to_string())
    );

    let required_fields = required_names(&outer_schema);
    assert!(required_fields.contains(&"id".to_string()));
    assert!(required_fields.contains(&"inner_data".to_string()));
    assert!(!required_fields.contains(&"optional_inner".to_string()));
    assert!(required_fields.contains(&"inner_list".to_string()));
    assert_eq!(
        required_fields.len(),
        3,
        "Outer required fields mismatch. Got: {:?}",
        required_fields
    );
}

#[test]
fn args_conformance_accepts_and_rejects() {
    let fields = vec![field("message", ArgType::Str), field("count", ArgType::Int)];
    let good = Json::Obj(vec![
        ("message".to_string(), Json::Str("hello".to_string())),
        ("count".to_string(), Json::Int(42)),
    ]);
    assert!(mcp_sdk::schema::args_conform(&fields, &good));

    let missing = Json::Obj(vec![(
        "message".to_string(),
        Json::Str("hello".to_string()),
    )]);
    assert!(!mcp_sdk::schema::args_conform(&fields, &missing));

    let wrong_type = Json::Obj(vec![
        ("message".to_string(), Json::Str("hello".to_string())),
        ("count".to_string(), Json::Str("not-a-number".to_string())),
    ]);
    assert!(!mcp_sdk::schema::args_conform(&fields, &wrong_type));

    let mut opt = field("value", ArgType::Int);
    opt.optional = true;
    let opt_fields = vec![field("id", ArgType::Str), opt];
    let absent = Json::Obj(vec![("id".to_string(), Json::Str("id2".to_string()))]);
    assert!(mcp_sdk::schema::args_conform(&opt_fields, &absent));
    let null_value = Json::Obj(vec![
        ("id".to_string(), Json::Str("id1".to_string())),
        ("value".to_string(), Json::Null),
    ]);
    assert!(mcp_sdk::schema::args_conform(&opt_fields, &null_value));
}

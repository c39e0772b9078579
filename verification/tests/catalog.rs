use faas_core::types::{BlobAddress, Id, JsonData, JsonShape, TimeStamp};
use faas_core::catalog::{
    Function, FunctionCatalog, FunctionId, InputKind, PathEntry, Root, SubPath, shape_accepts,
};

fn function(idv: u128, name: &str) -> Function {
    Function::new(
        FunctionId(Id { value: idv }),
        name.to_string(),
        format!("sample function {}", name),
        TimeStamp::from_secs(0),
        InputKind::List(Box::new(InputKind::Number)),
        BlobAddress { location: format!("blobs/{}.wasm", name) },
    )
}

#[test]
fn register_and_look_up_by_id() {
    let mut catalog = FunctionCatalog::new();
    catalog.register(function(1, "add"));
    catalog.register(function(2, "div"));
    let got = catalog.function_by_id(FunctionId(Id { value: 1 })).unwrap();
    assert_eq!(got.name, "add");
    assert!(catalog.function_by_id(FunctionId(Id { value: 3 })).is_none());
}

#[test]
fn register_overwrites_same_id() {
    let mut catalog = FunctionCatalog::new();
    catalog.register(function(1, "add"));
    let mut redeploy = function(1, "add");
    redeploy.description = "redeployed".to_string();
    catalog.register(redeploy);
    let got = catalog.function_by_id(FunctionId(Id { value: 1 })).unwrap();
    assert_eq!(got.description, "redeployed");
}

#[test]
fn bind_path_requires_a_registered_function() {
    let mut catalog = FunctionCatalog::new();
    let missing = catalog.bind_path(
        Root("api".to_string()),
        SubPath("add".to_string()),
        FunctionId(Id { value: 1 }),
    );
    assert!(missing.is_err());

    catalog.register(function(1, "add"));
    let bound = catalog.bind_path(
        Root("api".to_string()),
        SubPath("add".to_string()),
        FunctionId(Id { value: 1 }),
    );
    assert!(bound.is_ok());
    let resolved = catalog.resolve(&Root("api".to_string()), &SubPath("add".to_string())).unwrap();
    assert_eq!(resolved.name, "add");
}

#[test]
fn unbound_path_resolves_to_nothing() {
    let mut catalog = FunctionCatalog::new();
    catalog.register(function(1, "add"));
    catalog
        .bind_path(Root("api".to_string()), SubPath("add".to_string()), FunctionId(Id { value: 1 }))
        .unwrap();
    // an unbound (root, sub_path) is a pure lookup miss: no worker involved
    assert!(catalog.resolve(&Root("api".to_string()), &SubPath("mul".to_string())).is_none());
    assert!(catalog.resolve(&Root("other".to_string()), &SubPath("add".to_string())).is_none());
}

#[test]
fn reregistering_identical_content_keeps_resolve_results() {
    let mut catalog = FunctionCatalog::new();
    catalog.register(function(1, "add"));
    catalog
        .bind_path(Root("api".to_string()), SubPath("add".to_string()), FunctionId(Id { value: 1 }))
        .unwrap();
    let before = catalog.resolve(&Root("api".to_string()), &SubPath("add".to_string())).unwrap();

    catalog.register(function(1, "add"));
    let after = catalog.resolve(&Root("api".to_string()), &SubPath("add".to_string())).unwrap();
    assert_eq!(before.id, after.id);
    assert_eq!(before.name, after.name);
    assert_eq!(before.description, after.description);
    assert_eq!(before.blob_address, after.blob_address);
}

#[test]
fn rebinding_a_path_overwrites_it() {
    let mut catalog = FunctionCatalog::new();
    catalog.register(function(1, "add"));
    catalog.register(function(2, "mul"));
    catalog
        .bind_path(Root("api".to_string()), SubPath("op".to_string()), FunctionId(Id { value: 1 }))
        .unwrap();
    catalog
        .bind_path(Root("api".to_string()), SubPath("op".to_string()), FunctionId(Id { value: 2 }))
        .unwrap();
    let resolved = catalog.resolve(&Root("api".to_string()), &SubPath("op".to_string())).unwrap();
    assert_eq!(resolved.name, "mul");
}

#[test]
fn path_entry_getters_return_the_parts() {
    let entry = PathEntry::new(
        Root("api".to_string()),
        SubPath("add".to_string()),
        function(1, "add"),
    );
    assert_eq!(entry.root().0, "api");
    assert_eq!(entry.sub_path().0, "add");
    assert_eq!(entry.function().name, "add");
}

#[test]
fn shape_check_is_top_level_only() {
    assert!(shape_accepts(&InputKind::Nothing, JsonShape::Null));
    assert!(!shape_accepts(&InputKind::Nothing, JsonShape::Number));
    assert!(shape_accepts(&InputKind::Object, JsonShape::Object));
    assert!(shape_accepts(&InputKind::Text, JsonShape::Text));
    assert!(shape_accepts(&InputKind::Number, JsonShape::Number));
    // a list of numbers accepts any array: shape only, no element check
    let kind = InputKind::List(Box::new(InputKind::Number));
    assert!(shape_accepts(&kind, JsonShape::Array));
    assert!(!shape_accepts(&kind, JsonShape::Object));

    let payload = JsonData::try_from(b"[2, 3]".to_vec()).unwrap();
    assert!(shape_accepts(&kind, payload.shape()));
    let payload = JsonData::try_from(b"{\"a\": 1}".to_vec()).unwrap();
    assert!(!shape_accepts(&kind, payload.shape()));
}

#[test]
fn malformed_payload_is_rejected() {
    assert!(JsonData::try_from(b"{not json".to_vec()).is_err());
    let ok = JsonData::try_from(b"[2, 3]".to_vec()).unwrap();
    let bytes = ok.to_bytes().unwrap();
    assert_eq!(bytes, b"[2,3]".to_vec());
}

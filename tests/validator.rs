use misty::{
    attest_imports, resolve_data_type, ContainerType, DataType, Definition, Enum, Field, File,
    Function, Interface, Schema, ValidationError, Workspace,
};

fn schema(name: &str, fields: Vec<(&str, DataType)>) -> Definition {
    Definition::Schema(Schema {
        name: name.to_string(),
        fields: fields
            .into_iter()
            .map(|(n, t)| Field { name: n.to_string(), field_type: t })
            .collect(),
    })
}

fn user(name: &str) -> DataType {
    DataType::UserType(name.to_string())
}

fn prim(name: &str) -> DataType {
    DataType::Primitive(name.to_string())
}

fn common_file() -> File {
    File {
        imports: vec![],
        definitions: vec![
            schema("Money", vec![("cents", prim("u64"))]),
            Definition::Enum(Enum { name: "Color".to_string(), variants: vec!["RED".to_string()] }),
        ],
    }
}

fn shop_file() -> File {
    File {
        imports: vec!["common.types".to_string()],
        definitions: vec![
            schema(
                "Order",
                vec![
                    ("price", user("common.types.Money")),
                    ("items", DataType::Container(ContainerType::Vec, Box::new(user("Item")))),
                ],
            ),
            schema("Item", vec![("color", user("common.types.Color"))]),
            Definition::Interface(Interface {
                name: "Shop".to_string(),
                functions: vec![Function {
                    name: "buy".to_string(),
                    input: (false, user("Order")),
                    output: Some((true, DataType::Container(ContainerType::Option, Box::new(user("Item"))))),
                }],
            }),
        ],
    }
}

fn modules() -> Vec<(String, File)> {
    vec![("common.types".to_string(), common_file()), ("shop".to_string(), shop_file())]
}

#[test]
fn valid_workspace_validates() {
    let mut ws = Workspace::new();
    ws.add_local_module("common.types", common_file());
    ws.add_local_module("shop", shop_file());
    assert!(!ws.validated());
    assert_eq!(ws.validate(), Ok(()));
    assert!(ws.validated());
    assert_eq!(ws.package_local_modules().len(), 2);
}

#[test]
fn missing_import_fails() {
    let mut ws = Workspace::default();
    ws.add_local_module("shop", shop_file());
    assert_eq!(ws.validate(), Err(ValidationError::ImportedModuleNotFound));
    assert!(!ws.validated());
}

#[test]
fn attest_imports_checks_each_import() {
    let ms = modules();
    assert_eq!(attest_imports(&["common.types".to_string()], &ms), Ok(()));
    assert_eq!(attest_imports(&[], &ms), Ok(()));
    assert_eq!(
        attest_imports(&["shop".to_string(), "nowhere".to_string()], &ms),
        Err(ValidationError::ImportedModuleNotFound)
    );
}

#[test]
fn resolve_primitive_and_local_types() {
    let ms = modules();
    let shop = shop_file();
    assert_eq!(resolve_data_type(&ms, &shop, &prim("whatever")), Ok(()));
    assert_eq!(resolve_data_type(&ms, &shop, &user("Item")), Ok(()));
    assert_eq!(resolve_data_type(&ms, &shop, &user("Shop")), Ok(()));
    assert_eq!(
        resolve_data_type(&ms, &shop, &user("Money")),
        Err(ValidationError::TypeNotFound)
    );
}

#[test]
fn resolve_dotted_types() {
    let ms = modules();
    let shop = shop_file();
    assert_eq!(resolve_data_type(&ms, &shop, &user("common.types.Color")), Ok(()));
    assert_eq!(
        resolve_data_type(&ms, &shop, &user("common.types.Price")),
        Err(ValidationError::TypeNotFound)
    );
    assert_eq!(
        resolve_data_type(&ms, &shop, &user("shop.Item")),
        Err(ValidationError::ModuleNotImported)
    );
    let mut orphan = shop_file();
    orphan.imports.push("gone".to_string());
    assert_eq!(
        resolve_data_type(&ms, &orphan, &user("gone.Thing")),
        Err(ValidationError::ImportedModuleNotFound)
    );
}

#[test]
fn resolve_nested_containers() {
    let ms = modules();
    let shop = shop_file();
    let nested = DataType::Container(
        ContainerType::Vec,
        Box::new(DataType::Container(ContainerType::Option, Box::new(user("Missing")))),
    );
    assert_eq!(resolve_data_type(&ms, &shop, &nested), Err(ValidationError::TypeNotFound));
}

#[test]
fn first_failure_is_reported() {
    let mut ws = Workspace::new();
    ws.add_local_module("common.types", common_file());
    let mut bad = shop_file();
    if let Definition::Schema(s) = &mut bad.definitions[0] {
        s.fields.insert(0, Field { name: "x".to_string(), field_type: user("Nope") });
        s.fields.push(Field { name: "y".to_string(), field_type: user("other.Z") });
    }
    ws.add_local_module("shop", bad);
    assert_eq!(ws.validate(), Err(ValidationError::TypeNotFound));
}

#[test]
fn interface_output_is_checked() {
    let mut ws = Workspace::new();
    ws.add_local_module(
        "svc",
        File {
            imports: vec![],
            definitions: vec![Definition::Interface(Interface {
                name: "Svc".to_string(),
                functions: vec![Function {
                    name: "call".to_string(),
                    input: (false, prim("u8")),
                    output: Some((false, user("Reply"))),
                }],
            })],
        },
    );
    assert_eq!(ws.validate(), Err(ValidationError::TypeNotFound));
}

#[test]
fn adding_a_module_twice_replaces_it() {
    let mut ws = Workspace::new();
    ws.add_local_module("shop", shop_file());
    ws.add_local_module("common.types", common_file());
    ws.add_local_module("shop", common_file());
    let ms = ws.package_local_modules();
    assert_eq!(ms.len(), 2);
    assert_eq!(ms[0].0, "shop");
    assert!(ms[0].1.imports.is_empty());
    assert_eq!(ws.validate(), Ok(()));
}

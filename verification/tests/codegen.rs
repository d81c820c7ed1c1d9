use cleanroom::codegen::contracts::{
    ClassContract, ContractMethod, FunctionParam, FunctionSpec, InterfaceContract,
};
use cleanroom::codegen::{
    DataAttribute, DataModel, PythonGenerator, RustGenerator, TypeScriptGenerator,
};
use cleanroom::migration_gen::{DataMigration, MigrationGenerator};
use cleanroom::naming::{
    convert_entity_name, entity_symbols, split_pascal_case, to_camel_case, to_pascal_case,
    to_snake_case,
};

fn attr(name: &str, ty: &str, required: bool) -> DataAttribute {
    DataAttribute {
        name: name.to_string(),
        attr_type: ty.to_string(),
        description: None,
        required,
        generated: false,
        internal: false,
    }
}

fn user_model() -> DataModel {
    DataModel {
        entity: "user_account".to_string(),
        description: Some("A user".to_string()),
        attributes: Some(vec![attr("user_id", "uuid", true), attr("nickName", "string", false)]),
    }
}

fn sample_migration() -> DataMigration {
    DataMigration {
        id: "mig-001".to_string(),
        description: Some("Migrate UserV1 to UserV2 with new fields".to_string()),
        from_entity: "UserV1".to_string(),
        to_entity: "UserV2".to_string(),
        from_version: Some("1.0".to_string()),
        to_version: Some("2.0".to_string()),
        algorithm: Some("Transform: name -> firstName+lastName, add email field".to_string()),
    }
}

#[test]
fn test_naming_conventions() {
    assert_eq!(to_pascal_case("user_account"), "UserAccount");
    assert_eq!(to_pascal_case("order-line"), "OrderLine");
    assert_eq!(to_snake_case("UserAccount"), "user_account");
    assert_eq!(to_camel_case("user_account"), "userAccount");
    assert_eq!(split_pascal_case("HTTPServerConfig"), vec!["HTTP", "Server", "Config"]);
    assert_eq!(convert_entity_name("OrderItem", "rust"), "order_item");
    assert_eq!(convert_entity_name("OrderItem", "typescript"), "orderItem");
    assert_eq!(convert_entity_name("OrderItem", "go"), "OrderItem");
    assert_eq!(convert_entity_name("OrderItem", "cobol"), "OrderItem");
}

#[test]
fn test_entity_symbols_cover_languages() {
    let symbols = entity_symbols("shop", "OrderItem");
    let langs: Vec<&str> = symbols.iter().map(|s| s.language.as_str()).collect();
    assert_eq!(langs, vec!["rust", "typescript", "python", "go", "c"]);
    assert!(symbols.iter().all(|s| s.sdef_uri == "sdef://shop/entity/OrderItem"));
    assert_eq!(symbols[1].concrete_name, "orderItem");
    assert_eq!(symbols[3].concrete_name, "OrderItem");
}

#[test]
fn test_python_data_model() {
    let files = PythonGenerator.generate_data_model(&user_model());
    assert_eq!(files.len(), 1);
    assert_eq!(files[0].file_path, "user_account.py");
    assert_eq!(files[0].language, "python");
    let c = &files[0].content;
    assert!(c.starts_with("\"\"\"\nA user\n\"\"\"\n\n"));
    assert!(c.contains("@dataclass\nclass UserAccount:\n"));
    assert!(c.contains("    user_id: str\n"));
    assert!(c.contains("    nick_name = None: str\n"));
    assert!(c.contains("            'nickName': self.nick_name,\n"));
}

#[test]
fn test_typescript_data_model() {
    let files = TypeScriptGenerator.generate_data_model(&user_model());
    let c = &files[0].content;
    assert_eq!(files[0].file_path, "user_account.ts");
    assert!(c.contains("export interface UserAccount {\n  userId: string;\n  nickname?: string;\n}\n"));
    assert!(c.contains("    this.userId = data.userId;\n"));
}

#[test]
fn test_rust_data_model_dedups_attributes() {
    let mut model = user_model();
    model.attributes.as_mut().unwrap().push(attr("user_id", "int", true));
    let files = RustGenerator.generate_data_model(&model);
    let c = &files[0].content;
    assert_eq!(files[0].file_path, "user_account.rs");
    assert_eq!(c.matches("pub user_id").count(), 1);
    assert!(c.contains("    pub user_id: uuid::Uuid,\n"));
    assert!(c.contains("    pub nick_name: Option<String>,\n"));
    assert!(c.contains("pub fn new(user_id: uuid::Uuid, nick_name: Option<String>) -> Self {"));
    assert!(c.ends_with("\n#[derive(serde::Serialize, serde::Deserialize)]\n"));
}

fn order_interface() -> InterfaceContract {
    InterfaceContract {
        name: "order_store".to_string(),
        description: Some("Stores orders".to_string()),
        methods: Some(vec![
            ContractMethod {
                signature: "saveOrder(order: Order))".to_string(),
                behavior: Some("Persists an order".to_string()),
            },
            ContractMethod { signature: "clear".to_string(), behavior: None },
        ]),
    }
}

#[test]
fn test_python_interface() {
    let files = PythonGenerator.generate_interface(&order_interface());
    assert_eq!(files[0].file_path, "order_store_interface.py");
    assert_eq!(
        files[0].content,
        "\"\"\"\nStores orders\n\"\"\"\n\nfrom abc import ABC, abstractmethod\n\nclass OrderStoreInterface(ABC):\n    \"\"\"Persists an order -- \"\"\"\n    @abstractmethod\n    def save_order(order: Order) -> None:\n        pass\n\n    @abstractmethod\n    def clear() -> None:\n        pass\n\n"
    );
}

#[test]
fn test_typescript_interface() {
    let files = TypeScriptGenerator.generate_interface(&order_interface());
    assert_eq!(files[0].file_path, "order_store.ts");
    assert_eq!(
        files[0].content,
        "/**\n * Stores orders\n */\nexport interface OrderStore {\n  /** Persists an order\n   */\n  saveorder(order: Order): void;\n  clear(): void;\n}\n"
    );
}

#[test]
fn test_rust_interface() {
    let files = RustGenerator.generate_interface(&order_interface());
    assert_eq!(files[0].file_path, "order_store.rs");
    assert_eq!(
        files[0].content,
        "/// Stores orders\npub trait OrderStore {\n    /// Persists an order\n    fn save_order(order: Order);\n    fn clear();\n}\n"
    );
}

fn order_class() -> ClassContract {
    ClassContract {
        name: "order_service".to_string(),
        description: None,
        implements: Some(vec!["order_store".to_string(), "Auditable".to_string()]),
    }
}

#[test]
fn test_python_class() {
    let files = PythonGenerator.generate_class(&order_class());
    assert_eq!(files[0].file_path, "order_service.py");
    assert_eq!(
        files[0].content,
        "\"\"\"\n\"\"\"\n\nfrom .order_store import OrderStoreInterface\nfrom .auditable import AuditableInterface\nclass OrderService(OrderStoreInterface, AuditableInterface):\n    \"\"\"Class implementation.\"\"\"\n\n    def __init__(self) -> None:\n        super().__init__()\n        # TODO: Initialize attributes\n        pass\n"
    );
}

#[test]
fn test_typescript_class() {
    let files = TypeScriptGenerator.generate_class(&order_class());
    assert_eq!(
        files[0].content,
        "/**\n */\nexport class OrderService implements OrderStore, Auditable {\n  constructor() {}\n\n  // TODO: Add class methods\n}\n"
    );
    let plain = ClassContract { name: "plain".to_string(), description: None, implements: Some(vec![]) };
    assert!(TypeScriptGenerator.generate_class(&plain)[0].content.contains("export class Plain {\n"));
}

#[test]
fn test_rust_class() {
    let files = RustGenerator.generate_class(&order_class());
    assert_eq!(files[0].file_path, "order_service.rs");
    assert_eq!(
        files[0].content,
        "#[derive(Debug, Clone, order_store, Auditable)]\npub struct OrderService {\n    // TODO: Add fields from data model\n}\n\nimpl order_store for OrderService {\n    // TODO: Implement trait methods\n}\n\nimpl Auditable for OrderService {\n    // TODO: Implement trait methods\n}\n\nimpl OrderService {\n    pub fn new() -> Self {\n        Self { }\n    }\n}\n"
    );
}

fn total_function(outputs: Vec<FunctionParam>) -> FunctionSpec {
    FunctionSpec {
        name: "computeTotal".to_string(),
        description: Some("Sums the order".to_string()),
        inputs: Some(vec![
            FunctionParam { name: "order_id".to_string(), param_type: "uuid".to_string() },
            FunctionParam { name: "extra".to_string(), param_type: "json".to_string() },
        ]),
        outputs: Some(outputs),
        logic: Some("add line totals".to_string()),
    }
}

fn param(name: &str, ty: &str) -> FunctionParam {
    FunctionParam { name: name.to_string(), param_type: ty.to_string() }
}

#[test]
fn test_python_function() {
    let f = PythonGenerator.generate_function(&total_function(vec![param("total", "decimal")]));
    assert_eq!(f.file_path, "compute_total.py");
    assert_eq!(
        f.content,
        "\"\"\"\nSums the order\n\"\"\"\n\ndef compute_total(order_id: str, extra) -> float:\n    # add line totals\n    raise NotImplementedError()\n"
    );
    let g = PythonGenerator.generate_function(&total_function(vec![param("a", "int"), param("b", "bool")]));
    assert!(g.content.contains(") -> Tuple[int, bool]:\n"));
    let h = PythonGenerator.generate_function(&total_function(vec![]));
    assert!(h.content.contains(") -> None:\n"));
}

#[test]
fn test_typescript_function() {
    let f = TypeScriptGenerator.generate_function(&total_function(vec![param("total", "bigint")]));
    assert_eq!(f.file_path, "compute_total.ts");
    assert_eq!(
        f.content,
        "/**\n * Sums the order\n */\nexport function computetotal(orderId: string, extra: any): bigint {\n  // add line totals\n  throw new Error('Not implemented');\n}\n"
    );
    let none = FunctionSpec { outputs: None, ..total_function(vec![]) };
    assert!(TypeScriptGenerator.generate_function(&none).content.contains("extra: any) {\n"));
}

#[test]
fn test_rust_function() {
    let f = RustGenerator.generate_function(&total_function(vec![param("a", "int"), param("b", "text")]));
    assert_eq!(f.file_path, "compute_total.rs");
    assert_eq!(
        f.content,
        "/// Sums the order\npub fn compute_total(order_id: Option<uuid::Uuid>, extra: Option<serde_json::Value>) -> (Option<i32>, Option<String>) {\n    // add line totals\n    todo!()\n}\n"
    );
}

#[test]
fn test_generate_rust_migration() {
    let gen = MigrationGenerator::new("rust");
    let migration = sample_migration();
    let result = gen.generate(&migration).unwrap();
    assert!(result.code.contains("migrate_userv1_to_userv2"));
    assert!(result.code.contains("UserV1"));
    assert!(result.code.contains("UserV2"));
    assert!(result.code.contains("Transfor"));
    assert!(result.file_name.contains("rs"));
}

#[test]
fn test_generate_typescript_migration() {
    let gen = MigrationGenerator::new("typescript");
    let migration = sample_migration();
    let result = gen.generate(&migration).unwrap();
    assert!(result.code.contains("migrateUserV2"));
    assert!(result.code.contains("UserV1"));
    assert!(result.code.contains("UserV2"));
    assert!(result.file_name.contains(".ts"));
}

#[test]
fn test_generate_python_migration() {
    let gen = MigrationGenerator::new("python");
    let migration = sample_migration();
    let result = gen.generate(&migration).unwrap();
    assert!(result.code.contains("migrate_user_v1_to_user_v2"));
    assert!(result.code.contains("UserV1"));
    assert!(result.code.contains("UserV2"));
    assert!(result.file_name.contains(".py"));
}

#[test]
fn test_unsupported_language() {
    let gen = MigrationGenerator::new("brainfuck");
    let migration = sample_migration();
    let result = gen.generate(&migration);
    assert!(result.is_err());
    assert_eq!(result.unwrap_err(), "Unsupported language: brainfuck");
}

#[test]
fn test_multiple_migrations() {
    let gen = MigrationGenerator::new("rust");
    let migrations = vec![
        sample_migration(),
        DataMigration {
            id: "mig-002".to_string(),
            description: Some("Drop legacy field".to_string()),
            from_entity: "OrderV1".to_string(),
            to_entity: "OrderV2".to_string(),
            from_version: Some("1.0".to_string()),
            to_version: Some("2.0".to_string()),
            algorithm: Some("Flatten nested address".to_string()),
        },
    ];

    for m in &migrations {
        let result = gen.generate(m).unwrap();
        assert!(result.code.contains(&m.from_entity));
        assert!(result.code.contains(&m.to_entity));
    }
}

#[test]
fn test_rust_migration_defaults() {
    let m = DataMigration {
        id: "m".to_string(),
        description: None,
        from_entity: "A".to_string(),
        to_entity: "B".to_string(),
        from_version: None,
        to_version: None,
        algorithm: None,
    };
    let r = MigrationGenerator::new("rust").generate(&m).unwrap();
    assert!(r.code.starts_with("/// Data migration: A → B\n/// Description: \n/// From version: previous → To version: current\n///\n/// Migration algorithm not specified\npub fn migrate_a_to_b(source: A) -> B {\n"));
    assert!(r.code.ends_with("        let _result = migrate_a_to_b(A {});\n    }\n}"));
    assert_eq!(r.file_name, "migration_a_to_b_rs");
}

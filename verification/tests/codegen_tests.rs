use std::hash::BuildHasher;

use comet::migrations::{
    migration_plan, register_migration, rust_to_diesel_type, sql_struct, struct_to_sql, supported_type,
    FieldDef, Fields, RustType, StructDef,
};
use comet::models::{exprs_to_idents, impl_model_macro, impl_proto};
use comet::msg::{alter_macro, generate_msg_call, generate_update_call, hash, insert_macro_arg};
use comet::sql::{generate_server_sql_watch, register_sql_query, register_sql_watch};

fn s(x: &str) -> String {
    x.to_string()
}

fn path(p: &[&str]) -> RustType {
    RustType::Path(p.iter().map(|x| s(x)).collect())
}

fn todo_struct() -> StructDef {
    StructDef {
        ident: s("Todo"),
        fields: Fields::Named(vec![
            FieldDef { name: s("title"), ty: path(&["String"]) },
            FieldDef { name: s("done"), ty: path(&["bool"]) },
        ]),
    }
}

#[test]
fn diesel_types() {
    let cases = [
        (vec!["i32"], "INTEGER"),
        (vec!["i64"], "BIGINT"),
        (vec!["String"], "TEXT"),
        (vec!["bool"], "BOOLEAN"),
        (vec!["f32"], "REAL"),
        (vec!["f64"], "DOUBLE PRECISION"),
        (vec!["chrono", "NaiveDateTime"], "TIMESTAMP"),
        (vec!["uuid", "Uuid"], "UUID"),
    ];
    for (p, t) in cases {
        assert_eq!(rust_to_diesel_type(&path(&p)), t);
    }
}

#[test]
fn struct_to_sql_statements() {
    let (up, down) = struct_to_sql(&todo_struct());
    assert_eq!(
        up,
        "CREATE TABLE todos (\n                id SERIAL PRIMARY KEY,\n                title TEXT NOT NULL,\ndone BOOLEAN NOT NULL\n            );"
    );
    assert_eq!(down, "DROP TABLE todos;");
}

#[test]
fn migrations_concatenate_in_order() {
    let mut migrations: Vec<(String, String)> = Vec::new();
    register_migration(&mut migrations, &todo_struct());
    let user = StructDef {
        ident: s("UserAccount"),
        fields: Fields::Named(vec![FieldDef { name: s("age"), ty: path(&["i32"]) }]),
    };
    register_migration(&mut migrations, &user);
    let plan = migration_plan(&migrations, "");
    assert!(plan.changed);
    assert_eq!(plan.up, format!("{}{}", migrations[0].0, migrations[1].0));
    assert_eq!(plan.down, "DROP TABLE todos;DROP TABLE useraccounts;");
    let again = migration_plan(&migrations, &plan.up);
    assert!(!again.changed);
}

#[test]
fn model_names() {
    let mut migrations: Vec<(String, String)> = Vec::new();
    let n = impl_model_macro("", &todo_struct(), &mut migrations);
    assert_eq!(n.lower_name, "todo");
    assert_eq!(n.new_name, "NewTodo");
    assert_eq!(n.table_name, "todos");
    assert_eq!(n.from_name, "from_todo");
    assert_eq!(migrations.len(), 1);
    let named = impl_model_macro("\"tasks\"", &todo_struct(), &mut migrations);
    assert_eq!(named.table_name, "tasks");
    assert_eq!(migrations.len(), 2);
}

#[test]
fn proto_names_and_model_table() {
    let mut models: Vec<String> = Vec::new();
    let a = impl_proto(&mut models, "User");
    impl_proto(&mut models, "Todo");
    assert_eq!(a.proto_name, "UserProto");
    assert_eq!(a.id_name, "UserId");
    let table = exprs_to_idents(&models);
    assert_eq!(table.len(), 2);
    assert_eq!(table[1].name, "Todo");
    assert_eq!(table[1].proto_name, "TodoProto");
    assert_eq!(table[0].model_id, 0);
    assert_eq!(table[1].model_id, 1);
}

#[test]
fn hash_is_the_default_hasher_of_the_text() {
    let expected = std::hash::BuildHasherDefault::<std::collections::hash_map::DefaultHasher>::default()
        .hash_one("self.value += 1")
        .to_string();
    assert_eq!(hash("self.value += 1"), expected);
    assert_ne!(hash("a"), hash("b"));
}

#[test]
fn update_arm_names_a_declared_variant() {
    let exprs = vec![s("self.a += 1"), s("self.b = 0")];
    let variants = generate_msg_call(&exprs);
    assert_eq!(variants.len(), 2);
    assert_eq!(generate_update_call("self.b = 0"), variants[1]);
    assert_eq!(insert_macro_arg("self.a += 1"), variants[0]);
    assert!(variants[0].starts_with("Event"));
    assert_ne!(variants[0], variants[1]);
}

#[test]
fn watch_queries_are_numbered() {
    let mut queries = 0u64;
    let server = register_sql_watch(&mut queries, &vec![s("(not (target_arch = \"wasm32\"))")]);
    let client = register_sql_watch(&mut queries, &vec![s("(target_arch = \"wasm32\")")]);
    assert_eq!(server.query_id, 0);
    assert!(!server.client);
    assert_eq!(client.query_id, 1);
    assert!(client.client);
    assert_eq!(queries, 2);
    assert_eq!(generate_server_sql_watch(6), 2);
}

#[test]
fn sql_structs_are_recognised() {
    assert!(supported_type(&path(&["i32"])));
    assert!(supported_type(&path(&["chrono", "NaiveDateTime"])));
    assert!(!supported_type(&path(&["u8"])));
    assert!(!supported_type(&RustType::Other));
    assert!(sql_struct(&todo_struct()));
    let unnamed = StructDef { ident: s("Pair"), fields: Fields::Unnamed };
    assert!(!sql_struct(&unnamed));
    let bad = StructDef {
        ident: s("Bad"),
        fields: Fields::Named(vec![FieldDef { name: s("x"), ty: path(&["Vec"]) }]),
    };
    assert!(!sql_struct(&bad));
}

#[test]
fn duplicated_event() {
    let exprs = vec![s("* self += 1"), s("* self += 1")];
    let variants = generate_msg_call(&exprs);
    assert_eq!(variants.len(), 1);
    assert_eq!(variants[0], generate_update_call("* self += 1"));
    let mixed = vec![s("a"), s("b"), s("a"), s("c"), s("b")];
    let variants = generate_msg_call(&mixed);
    assert_eq!(
        variants,
        vec![generate_update_call("a"), generate_update_call("b"), generate_update_call("c")]
    );
}

#[test]
fn gensym_gives_each_expansion_its_own_identifier() {
    let mut expansions = 0u64;
    let first = alter_macro(&mut expansions, "u64");
    let second = alter_macro(&mut expansions, "u64");
    assert_eq!(expansions, 2);
    assert_ne!(first, second);
    assert_eq!(first, format!("{}_0", insert_macro_arg("u64")));
    assert_eq!(second, format!("{}_1", insert_macro_arg("u64")));
}

#[test]
fn generate_hash_names_the_handler_variant() {
    assert_eq!(insert_macro_arg("u64"), insert_macro_arg("u64"));
    assert_eq!(insert_macro_arg("u64"), generate_update_call("u64"));
    assert_ne!(insert_macro_arg("u64"), insert_macro_arg("u32"));
}

#[test]
fn sql_query_runs_its_last_statement() {
    assert_eq!(register_sql_query(1), 0);
    assert_eq!(register_sql_query(3), 2);
}

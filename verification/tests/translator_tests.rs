use graphql_pool::parser::parse_mutation_query;
use graphql_pool::parser::parse_query;
use graphql_pool::translate::Schema;
use graphql_pool::translate::TranslationError;
use graphql_pool::translate::bootstrap_statements;
use graphql_pool::translate::create_database;
use graphql_pool::translate::create_table;
use graphql_pool::translate::render_response;
use graphql_pool::translate::translate_add;
use graphql_pool::translate::translate_delete;
use graphql_pool::translate::translate_get;
use graphql_pool::translate::translate_relation;
use graphql_pool::translate::translate_update;
use graphql_pool::translate::use_database;

fn b(s: &str) -> Vec<u8> {
    s.as_bytes().to_vec()
}

fn col(name: &str) -> (Vec<u8>, Vec<u8>, bool) {
    (b(name), b("String"), false)
}

fn test_schema() -> Schema {
    Schema {
        database: b("startrack"),
        tables: vec![
            (b("user"), vec![col("id"), col("name"), col("phone")]),
            (b("Human"), vec![col("id"), col("name"), col("homePlanet")]),
            (b("Droid"), vec![col("id"), col("age"), col("primaryFunction")]),
        ],
    }
}

#[test]
fn select_from_query_tree() {
    let schema = test_schema();
    let t = parse_query(&b("{ user (id:1) { name phone } }")).unwrap();
    let stmts = translate_get(&t, &schema).unwrap();
    assert_eq!(stmts, vec![b("SELECT name, phone FROM user WHERE id='1'")]);

    let t = parse_query(&b("{ user }")).unwrap();
    let stmts = translate_get(&t, &schema).unwrap();
    assert_eq!(stmts, vec![b("SELECT * FROM user")]);
}

#[test]
fn select_with_relation_is_multi_statement() {
    let schema = Schema {
        database: b("startrack"),
        tables: vec![
            (b("user"), vec![col("id"), col("name"), col("friends")]),
            (b("friends"), vec![col("id"), col("user"), col("name")]),
        ],
    };
    let t = parse_query(&b("{ user (id:1) { name friends { id name } } }")).unwrap();
    // the node's own statement first; the relation is validated with it
    let stmts = translate_get(&t, &schema).unwrap();
    assert_eq!(stmts, vec![b("SELECT name FROM user WHERE id='1'")]);
    // once the parent's rows are known, the relation's statement is keyed
    // by the parent's result
    let relation = &t.attrs.as_ref().unwrap()[1];
    let keys = vec![(b("user"), b("1"))];
    let second = translate_relation(relation, &keys, &schema).unwrap();
    assert_eq!(second, b("SELECT id, name FROM friends WHERE user='1'"));

    // a key that is no column of the related table is rejected
    let bad = vec![(b("starship"), b("1"))];
    assert_eq!(
        translate_relation(relation, &bad, &schema),
        Err(TranslationError::UnknownColumn)
    );
}

#[test]
fn insert_from_mutation_tree() {
    let schema = test_schema();
    let t = parse_mutation_query(&b("{ Human { id: 1 name: Luke homePlanet: Char } }")).unwrap();
    let stmts = translate_add(&t, &schema).unwrap();
    assert_eq!(
        stmts,
        vec![b("INSERT INTO Human (id, name, homePlanet) VALUES ('1', 'Luke', 'Char')")]
    );
}

#[test]
fn nested_insert_emits_related_rows() {
    let schema = test_schema();
    let text = b("{ Human { id: 1 name: Luke friends { Human (id: 2 name: Leia) Human (id: 3 name: Han) } } }");
    let t = parse_mutation_query(&text).unwrap();
    let stmts = translate_add(&t, &schema).unwrap();
    assert_eq!(
        stmts,
        vec![
            b("INSERT INTO Human (id, name) VALUES ('1', 'Luke')"),
            b("INSERT INTO Human (id, name) VALUES ('2', 'Leia')"),
            b("INSERT INTO Human (id, name) VALUES ('3', 'Han')"),
        ]
    );
}

#[test]
fn update_from_mutation_tree() {
    let schema = test_schema();
    let t = parse_mutation_query(&b("{\n        Droid (id:1) {\n            age: 4\n        }\n    }")).unwrap();
    let stmt = translate_update(&t, &schema).unwrap();
    assert_eq!(stmt, b("UPDATE Droid SET age='4' WHERE id='1'"));
}

#[test]
fn delete_from_mutation_tree() {
    let schema = test_schema();
    let t = parse_mutation_query(&b("{\n        user (id:1)\n    }")).unwrap();
    assert_eq!(t.params, Some(vec![(b("id"), b("1"))]));
    assert_eq!(t.attrs, None);
    let stmt = translate_delete(&t, &schema).unwrap();
    assert_eq!(stmt, b("DELETE FROM user WHERE id='1'"));
}

#[test]
fn delete_with_attrs_is_rejected() {
    let schema = test_schema();
    let t = parse_mutation_query(&b("{ user (id:1) { name } }")).unwrap();
    assert_eq!(translate_delete(&t, &schema), Err(TranslationError::InvalidShape));
}

#[test]
fn unknown_table_and_column_are_rejected() {
    let schema = test_schema();
    let t = parse_query(&b("{ starship (id:1) { name } }")).unwrap();
    assert_eq!(translate_get(&t, &schema), Err(TranslationError::UnknownTable));

    let t = parse_query(&b("{ user (badkey:1) { name } }")).unwrap();
    assert_eq!(translate_get(&t, &schema), Err(TranslationError::UnknownColumn));

    let t = parse_query(&b("{ user { nosuchfield } }")).unwrap();
    assert_eq!(translate_get(&t, &schema), Err(TranslationError::UnknownColumn));

    let t = parse_mutation_query(&b("{ Droid { wheels: 4 } }")).unwrap();
    assert_eq!(translate_add(&t, &schema), Err(TranslationError::UnknownColumn));

    let t = parse_mutation_query(&b("{ Droid (id:1) }")).unwrap();
    assert_eq!(translate_update(&t, &schema), Err(TranslationError::InvalidShape));
}

#[test]
fn rows_render_in_requested_field_order() {
    let fields = vec![b("name"), b("phone")];
    let rows = vec![vec![b("Luke"), b("111")], vec![b("Leia"), b("222")]];
    let text = render_response(&fields, &rows);
    assert_eq!(text, b("[{name:\"Luke\",phone:\"111\"},{name:\"Leia\",phone:\"222\"}]"));

    let none: Vec<Vec<Vec<u8>>> = vec![];
    assert_eq!(render_response(&fields, &none), b("[]"));
}

#[test]
fn bootstrap_statements_match_schema() {
    let schema = test_schema();
    assert_eq!(create_database(&schema.database), b("CREATE DATABASE startrack"));
    assert_eq!(use_database(&schema.database), b("USE startrack"));
    assert_eq!(
        create_table(&schema.database, &schema.tables[0]),
        b("CREATE TABLE startrack.user (id String, name String, phone String)")
    );
    let all = bootstrap_statements(&schema);
    assert_eq!(all.len(), 5);
    assert_eq!(all[0], b("CREATE DATABASE startrack"));
    assert_eq!(all[1], b("USE startrack"));
    assert_eq!(all[2], b("CREATE TABLE startrack.user (id String, name String, phone String)"));
}

use graphql_pool::ast::MutationObject;
use graphql_pool::ast::QueryObject;
use graphql_pool::parser::parse_all_objects;
use graphql_pool::parser::parse_field;
use graphql_pool::parser::parse_mutation_query;
use graphql_pool::parser::parse_object;
use graphql_pool::parser::parse_object_attributes;
use graphql_pool::parser::parse_param;
use graphql_pool::parser::parse_mutation_reported;
use graphql_pool::parser::parse_query;
use graphql_pool::parser::parse_query_reported;
use graphql_pool::render::render_mutation_text;
use graphql_pool::render::render_query_text;

fn b(s: &str) -> Vec<u8> {
    s.as_bytes().to_vec()
}

fn pair(k: &str, v: &str) -> (Vec<u8>, Vec<u8>) {
    (b(k), b(v))
}

fn qleaf(name: &str) -> QueryObject {
    QueryObject { name: b(name), params: None, attrs: None }
}

fn mleaf(name: &str, value: &str) -> MutationObject {
    MutationObject { name: b(name), value: Some(b(value)), params: None, attrs: None }
}

#[test]
fn test_internal_parser_functions() {
    let input = b("id: \"1\"\n                    ");
    assert_eq!(parse_param(&input, 0), Some(((b("id"), b("1")), input.len())));

    let input = b("id : String!\n                    ");
    assert_eq!(parse_field(&input, 0), Some(((b("id"), b("String"), true), input.len())));

    let input = b("id:'1'\n                    ");
    assert_eq!(parse_field(&input, 0), Some(((b("id"), b("'1'"), false), input.len())));

    let input = b("id:[Object]\n                    ");
    assert_eq!(parse_field(&input, 0), Some(((b("id"), b("[Object]"), false), input.len())));

    let input = b("{\n                    id: String\n                    name: String\n                    homePlanet: String\n                    list: [String]\n                 }");
    let cols = vec![
        (b("id"), b("String"), false),
        (b("name"), b("String"), false),
        (b("homePlanet"), b("String"), false),
        (b("list"), b("[String]"), false),
    ];
    assert_eq!(parse_object_attributes(&input, 0), Some((cols, input.len())));

    let input = b("type Human{\n                    id: String\n                    name: String\n                    homePlanet: String\n                }");
    let result = (
        b("Human"),
        vec![
            (b("id"), b("String"), false),
            (b("name"), b("String"), false),
            (b("homePlanet"), b("String"), false),
        ],
    );
    assert_eq!(parse_object(&input, 0), Some((result, input.len())));
}

#[test]
fn test_get_parser_function() {
    let get_query = b("{\n        user (id:1) {\n            name\n            phone\n        }\n    }");
    let get_query_data = QueryObject {
        name: b("user"),
        params: Some(vec![pair("id", "1")]),
        attrs: Some(vec![qleaf("name"), qleaf("phone")]),
    };
    assert_eq!(parse_query(&get_query), Some(get_query_data));

    let get_query = b("{\n        user (id:\"1\") {\n            name\n            friends {\n              id\n              name\n            }\n        }\n    }");
    let get_query_data = QueryObject {
        name: b("user"),
        params: Some(vec![pair("id", "1")]),
        attrs: Some(vec![
            qleaf("name"),
            QueryObject {
                name: b("friends"),
                params: None,
                attrs: Some(vec![qleaf("id"), qleaf("name")]),
            },
        ]),
    };
    assert_eq!(parse_query(&get_query), Some(get_query_data));
}

#[test]
fn test_insert_parser_function() {
    let insert_query = b("{\n        Human {\n            id: 1\n            name: Luke\n            homePlanet: Char\n        }\n    }");
    let insert_query_data = MutationObject {
        name: b("Human"),
        value: None,
        params: None,
        attrs: Some(vec![mleaf("id", "1"), mleaf("name", "Luke"), mleaf("homePlanet", "Char")]),
    };
    assert_eq!(parse_mutation_query(&insert_query), Some(insert_query_data));

    let insert_query = b("{\n        Droid {\n            id: 1\n            name: \"R2D2\"\n            age: 3\n            primaryFunction: \"Mechanic\"\n        }\n    }");
    let insert_query_data = MutationObject {
        name: b("Droid"),
        value: None,
        params: None,
        attrs: Some(vec![
            mleaf("id", "1"),
            mleaf("name", "R2D2"),
            mleaf("age", "3"),
            mleaf("primaryFunction", "Mechanic"),
        ]),
    };
    assert_eq!(parse_mutation_query(&insert_query), Some(insert_query_data));

    let insert_query = b("{\n        Human {\n            \"id\": 1\n            \"name\": \"Luke\"\n            friends {\n                Human (\n                    \"id\": 2\n                    name: Leia\n                )\n                Human (\n                    \"id\": 3\n                    name: Han\n                )\n            }\n        }\n    }");
    let insert_query_data = MutationObject {
        name: b("Human"),
        value: None,
        params: None,
        attrs: Some(vec![
            mleaf("id", "1"),
            mleaf("name", "Luke"),
            MutationObject {
                name: b("friends"),
                value: None,
                params: None,
                attrs: Some(vec![
                    MutationObject {
                        name: b("Human"),
                        value: None,
                        params: Some(vec![pair("id", "2"), pair("name", "Leia")]),
                        attrs: None,
                    },
                    MutationObject {
                        name: b("Human"),
                        value: None,
                        params: Some(vec![pair("id", "3"), pair("name", "Han")]),
                        attrs: None,
                    },
                ]),
            },
        ]),
    };
    assert_eq!(parse_mutation_query(&insert_query), Some(insert_query_data));
}

#[test]
fn test_update_parser_function() {
    let update_query = b("{\n        Droid (id:1) {\n            age: 4\n        }\n    }");
    let update_query_data = MutationObject {
        name: b("Droid"),
        value: None,
        params: Some(vec![pair("id", "1")]),
        attrs: Some(vec![mleaf("age", "4")]),
    };
    assert_eq!(parse_mutation_query(&update_query), Some(update_query_data));
}

#[test]
fn test_delete_parser_function() {
    let delete_query = b("{\n        user (id:1)\n    }");
    let delete_query_data = MutationObject {
        name: b("user"),
        value: None,
        params: Some(vec![pair("id", "1")]),
        attrs: None,
    };
    assert_eq!(parse_mutation_query(&delete_query), Some(delete_query_data));

    let delete_query = b("{\n        user\n    }");
    let delete_query_data = MutationObject {
        name: b("user"),
        value: None,
        params: None,
        attrs: None,
    };
    assert_eq!(parse_mutation_query(&delete_query), Some(delete_query_data));
}

#[test]
fn query_round_trip_is_identity() {
    let text = b("{\n        user (id:1) {\n            name\n            phone\n        }\n    }");
    let t1 = parse_query(&text).unwrap();
    let canonical = render_query_text(&t1);
    assert_eq!(canonical, b("{user(id:1){name phone}}"));
    let t2 = parse_query(&canonical).unwrap();
    assert_eq!(t1, t2);

    let text = b("{ user (id:\"1\") { name friends { id name } } }");
    let t1 = parse_query(&text).unwrap();
    let t2 = parse_query(&render_query_text(&t1)).unwrap();
    assert_eq!(t1, t2);
}

#[test]
fn mutation_round_trip_is_identity() {
    let text = b("{ Droid (id:1) { age: 4 } }");
    let t1 = parse_mutation_query(&text).unwrap();
    let canonical = render_mutation_text(&t1);
    assert_eq!(canonical, b("{Droid(id:1){age:4}}"));
    let t2 = parse_mutation_query(&canonical).unwrap();
    assert_eq!(t1, t2);
}

#[test]
fn absent_and_empty_attrs_stay_distinct() {
    let scalar = parse_query(&b("{ user }")).unwrap();
    let empty = parse_query(&b("{ user {} }")).unwrap();
    assert_eq!(scalar.attrs, None);
    assert_eq!(empty.attrs, Some(vec![]));
    assert_ne!(scalar, empty);
    let scalar_text = render_query_text(&scalar);
    let empty_text = render_query_text(&empty);
    assert_ne!(scalar_text, empty_text);
    assert_eq!(parse_query(&scalar_text).unwrap().attrs, None);
    assert_eq!(parse_query(&empty_text).unwrap().attrs, Some(vec![]));

    let no_params = parse_query(&b("{ user }")).unwrap();
    let empty_params = parse_query(&b("{ user () }")).unwrap();
    assert_eq!(no_params.params, None);
    assert_eq!(empty_params.params, Some(vec![]));
}

#[test]
fn malformed_inputs_fail_to_parse() {
    assert_eq!(parse_query(&b("{ user (id:1 }")), None);
    assert_eq!(parse_query(&b("{ user { name }")), None);
    assert_eq!(parse_query(&b("user")), None);
    assert_eq!(parse_query(&b("{ user } trailing")), None);
    assert_eq!(parse_mutation_query(&b("{ }")), None);
}

#[test]
fn schema_declarations_parse() {
    let text = b("type Human{\n    id: String\n    name: String\n}\ntype Droid{\n    id: String\n}\n");
    let objects = parse_all_objects(&text).unwrap();
    assert_eq!(objects.len(), 2);
    assert_eq!(objects[0].0, b("Human"));
    assert_eq!(objects[0].1.len(), 2);
    assert_eq!(objects[1].0, b("Droid"));
    assert_eq!(objects[1].1, vec![(b("id"), b("String"), false)]);
}

#[test]
fn parse_failures_report_a_position() {
    let good = b("{ user (id:1) }");
    assert_eq!(parse_query_reported(&good), Ok(parse_query(&good).unwrap()));

    // no opening brace: the offset of the first non-space byte
    assert_eq!(parse_query_reported(&b("user")), Err(0));
    // unclosed query: the offset where the closing brace was expected
    let unclosed = b("{ user (id:1) ");
    match parse_query_reported(&unclosed) {
        Err(p) => assert!(p <= unclosed.len()),
        Ok(_) => panic!("unclosed query must not parse"),
    }
    // trailing bytes: the offset of the first trailing byte
    assert_eq!(parse_query_reported(&b("{ user } x")), Err(9));

    let good = b("{ Droid (id:1) { age: 4 } }");
    assert_eq!(
        parse_mutation_reported(&good),
        Ok(parse_mutation_query(&good).unwrap())
    );
    assert_eq!(parse_mutation_reported(&b("Droid")), Err(0));
}

use config_planner::form::{Expression, Field, FormData, FormValue, IfThen, Schema, SchemaType, Type};
use config_planner::update::UpdateSettings;

fn s(v: &str) -> String {
    v.to_string()
}

fn field(id: &str, typ_: Type) -> Field {
    Field { id: s(id), label: s(id), help: String::new(), typ_, default: None }
}

fn form(typ: SchemaType, fields: Vec<Field>, values: Vec<(&str, FormValue)>, is_update: bool) -> FormData {
    FormData {
        schema: Schema { id: s("test"), typ, fields },
        values: values.into_iter().map(|(k, v)| (s(k), v)).collect(),
        is_update,
    }
}

fn pairs(v: &[(&str, &str)]) -> Vec<(String, String)> {
    v.iter().map(|(k, v)| (s(k), s(v))).collect()
}

fn insert_of(u: &UpdateSettings) -> (Option<String>, Vec<(String, String)>, bool) {
    match u {
        UpdateSettings::Insert { prefix, values, assert_empty } => (prefix.clone(), values.clone(), *assert_empty),
        _ => panic!("not an insert"),
    }
}

#[test]
fn entry_create_inserts_single_key() {
    let d = form(
        SchemaType::Entry { prefix: s("store") },
        vec![],
        vec![("_id", FormValue::Value(s("mystore"))), ("_value", FormValue::Value(s("/var/mail")))],
        false,
    );
    let r = d.build_update();
    assert_eq!(r.len(), 1);
    assert_eq!(insert_of(&r[0]), (None, pairs(&[("store.mystore", "/var/mail")]), true));
}

#[test]
fn entry_update_without_value_inserts_empty() {
    let d = form(SchemaType::Entry { prefix: s("store") }, vec![], vec![("_id", FormValue::Value(s("a")))], true);
    let r = d.build_update();
    assert_eq!(r.len(), 1);
    assert_eq!(insert_of(&r[0]), (None, pairs(&[("store.a", "")]), false));
}

#[test]
fn record_update_clears_then_inserts() {
    let d = form(
        SchemaType::Record { prefix: s("listener") },
        vec![],
        vec![("_id", FormValue::Value(s("smtp"))), ("bind", FormValue::Value(s("0.0.0.0:25"))), ("empty", FormValue::Value(String::new()))],
        true,
    );
    let r = d.build_update();
    assert_eq!(r.len(), 2);
    match &r[0] {
        UpdateSettings::Clear { prefix } => assert_eq!(prefix, "listener.smtp."),
        _ => panic!("expected a clear"),
    }
    assert_eq!(insert_of(&r[1]), (Some(s("listener.smtp")), pairs(&[("bind", "0.0.0.0:25")]), false));
}

#[test]
fn record_create_asserts_empty() {
    let d = form(
        SchemaType::Record { prefix: s("listener") },
        vec![],
        vec![("_id", FormValue::Value(s("smtp"))), ("protocol", FormValue::Value(s("smtp")))],
        false,
    );
    let r = d.build_update();
    assert_eq!(r.len(), 1);
    assert_eq!(insert_of(&r[0]), (Some(s("listener.smtp")), pairs(&[("protocol", "smtp")]), true));
}

#[test]
fn record_create_without_values_plans_nothing() {
    let d = form(SchemaType::Record { prefix: s("x") }, vec![], vec![("_id", FormValue::Value(s("y")))], false);
    assert!(d.build_update().is_empty());
}

#[test]
fn array_keys_are_zero_padded() {
    let elems: Vec<String> = (0..11).map(|i| format!("v{i}")).collect();
    let d = form(SchemaType::List, vec![], vec![("list", FormValue::Array(elems))], false);
    let r = d.build_update();
    assert_eq!(r.len(), 1);
    let (_, values, _) = insert_of(&r[0]);
    assert_eq!(values.len(), 11);
    assert_eq!(values[0], (s("list.00"), s("v0")));
    assert_eq!(values[9], (s("list.09"), s("v9")));
    assert_eq!(values[10], (s("list.10"), s("v10")));
}

#[test]
fn array_of_ten_uses_one_digit() {
    let elems: Vec<String> = (0..10).map(|i| format!("{i}")).collect();
    let d = form(SchemaType::List, vec![], vec![("a", FormValue::Array(elems))], false);
    let (_, values, _) = insert_of(&d.build_update()[0]);
    assert_eq!(values[0].0, "a.0");
    assert_eq!(values[9].0, "a.9");
}

#[test]
fn single_element_array_uses_bare_key() {
    let d = form(SchemaType::List, vec![], vec![("host", FormValue::Array(vec![s("mx.example.org")]))], false);
    let r = d.build_update();
    assert_eq!(insert_of(&r[0]), (None, pairs(&[("host", "mx.example.org")]), false));
}

#[test]
fn expression_keys_with_two_conditions() {
    let e = Expression {
        if_thens: vec![
            IfThen { if_: s("a"), then_: s("1") },
            IfThen { if_: s("b"), then_: s("2") },
        ],
        else_: s("3"),
    };
    let d = form(SchemaType::List, vec![], vec![("rule", FormValue::Expression(e))], false);
    let (_, values, _) = insert_of(&d.build_update()[0]);
    assert_eq!(
        values,
        pairs(&[("rule.0.if", "a"), ("rule.0.then", "1"), ("rule.1.if", "b"), ("rule.1.then", "2"), ("rule.2.else", "3")])
    );
}

#[test]
fn expression_pad_width_counts_fallback() {
    let if_thens: Vec<IfThen> = (0..10).map(|i| IfThen { if_: format!("c{i}"), then_: format!("r{i}") }).collect();
    let e = Expression { if_thens, else_: s("z") };
    let d = form(SchemaType::List, vec![], vec![("x", FormValue::Expression(e))], false);
    let (_, values, _) = insert_of(&d.build_update()[0]);
    assert_eq!(values.len(), 21);
    assert_eq!(values[0].0, "x.00.if");
    assert_eq!(values[20], (s("x.10.else"), s("z")));
}

#[test]
fn expression_without_conditions_uses_bare_key() {
    let e = Expression { if_thens: vec![], else_: s("fallback") };
    let d = form(SchemaType::List, vec![], vec![("x", FormValue::Expression(e))], false);
    assert_eq!(insert_of(&d.build_update()[0]), (None, pairs(&[("x", "fallback")]), false));
}

#[test]
fn empty_expression_is_skipped() {
    let e = Expression { if_thens: vec![], else_: String::new() };
    let d = form(SchemaType::List, vec![], vec![("x", FormValue::Expression(e))], false);
    assert!(d.build_update().is_empty());
}

#[test]
fn control_fields_are_not_stored() {
    let d = form(
        SchemaType::List,
        vec![],
        vec![("_hidden", FormValue::Value(s("1"))), ("shown", FormValue::Value(s("2")))],
        false,
    );
    assert_eq!(insert_of(&d.build_update()[0]), (None, pairs(&[("shown", "2")]), false));
}

#[test]
fn list_update_clears_multivalue_and_deletes_empty() {
    let d = form(
        SchemaType::List,
        vec![field("hosts", Type::Array), field("name", Type::Input), field("port", Type::Input)],
        vec![("hosts", FormValue::Array(vec![])), ("name", FormValue::Value(String::new())), ("port", FormValue::Value(s("25")))],
        true,
    );
    let r = d.build_update();
    assert_eq!(r.len(), 3);
    match &r[0] {
        UpdateSettings::Clear { prefix } => assert_eq!(prefix, "hosts."),
        _ => panic!("expected a clear"),
    }
    match &r[1] {
        UpdateSettings::Delete { keys } => assert_eq!(keys, &vec![s("hosts"), s("name")]),
        _ => panic!("expected a delete"),
    }
    assert_eq!(insert_of(&r[2]), (None, pairs(&[("port", "25")]), false));
}

#[test]
fn list_update_without_removals_only_inserts() {
    let d = form(
        SchemaType::List,
        vec![field("name", Type::Input)],
        vec![("name", FormValue::Value(s("x")))],
        true,
    );
    let r = d.build_update();
    assert_eq!(r.len(), 1);
    assert_eq!(insert_of(&r[0]), (None, pairs(&[("name", "x")]), false));
}

#[test]
fn list_create_has_no_removals() {
    let d = form(SchemaType::List, vec![field("hosts", Type::Array)], vec![], false);
    assert!(d.build_update().is_empty());
}

use ahash::AHashMap;
use config_planner::form::{Field, FormData, FormValue, Schema, SchemaType, Source, Type};
use config_planner::schema::Builder;
use config_planner::settings::{Settings, SettingsValues};
use config_planner::update::UpdateSettings;

fn s(v: &str) -> String {
    v.to_string()
}

fn store(pairs: &[(&str, &str)]) -> Settings {
    let mut m: Settings = AHashMap::new();
    for (k, v) in pairs {
        m.insert(s(k), s(v));
    }
    m
}

fn field(id: &str, typ_: Type) -> Field {
    Field { id: s(id), label: s(id), help: String::new(), typ_, default: None }
}

fn select() -> Type {
    Type::Select { source: Source::Static(vec![(s("1"), s("One")), (s("2"), s("Two"))]), multi: false }
}

#[test]
fn static_select_shows_label() {
    let m = store(&[("kind", "2")]);
    assert_eq!(m.format(&field("kind", select())), "Two");
}

#[test]
fn static_select_falls_back_to_value() {
    let m = store(&[("kind", "9")]);
    assert_eq!(m.format(&field("kind", select())), "9");
}

#[test]
fn static_select_missing_value_is_empty() {
    let m = store(&[]);
    assert_eq!(m.format(&field("kind", select())), "");
}

#[test]
fn array_field_shows_least_key() {
    let m = store(&[("hosts.2", "c"), ("hosts.0", "a"), ("hosts.1", "b"), ("hostsx", "no")]);
    assert_eq!(m.format(&field("hosts", Type::Array)), "a");
}

#[test]
fn array_field_without_keys_is_empty() {
    let m = store(&[("other", "x")]);
    assert_eq!(m.format(&field("hosts", Type::Array)), "");
}

#[test]
fn scalar_field_shows_stored_value() {
    let m = store(&[("port", "25")]);
    assert_eq!(m.format(&field("port", Type::Input)), "25");
    assert_eq!(m.format(&field("missing", Type::Duration)), "");
}

#[test]
fn array_values_sorts_and_filters() {
    let m = store(&[("a.10", "k"), ("a.02", "c"), ("a", "bare"), ("ab", "no"), ("b.0", "no"), ("a.00", "a")]);
    let r = m.array_values("a");
    assert_eq!(r, vec![(s("a"), s("bare")), (s("a.00"), s("a")), (s("a.02"), s("c")), (s("a.10"), s("k"))]);
}

#[test]
fn array_round_trip_keeps_order() {
    for n in [2usize, 9, 10, 11, 100, 101, 1000] {
        let elems: Vec<String> = (0..n).map(|i| format!("e{i}")).collect();
        let d = FormData {
            schema: Schema { id: s("t"), typ: SchemaType::List, fields: vec![] },
            values: vec![(s("arr"), FormValue::Array(elems.clone()))],
            is_update: false,
        };
        let plan = d.build_update();
        let mut m: Settings = AHashMap::new();
        for op in &plan {
            if let UpdateSettings::Insert { values, .. } = op {
                for (k, v) in values {
                    m.insert(k.clone(), v.clone());
                }
            }
        }
        let back: Vec<String> = m.array_values("arr").into_iter().map(|(_, v)| v).collect();
        assert_eq!(back, elems);
    }
}

#[test]
fn authentication_schemas_are_declared() {
    let b = Builder::new().build_authentication();
    assert_eq!(b.schemas.len(), 2);
    assert_eq!(b.schemas[0].schema.id, "authentication");
    assert_eq!(b.schemas[0].schema.fields.len(), 7);
    assert_eq!(b.schemas[0].schema.fields[0].id, "storage.directory");
    assert_eq!(b.schemas[1].schema.id, "oauth");
    assert_eq!(b.schemas[1].schema.fields[6].id, "oauth.expiry.refresh-token-renew");
    assert_eq!(b.schemas[1].schema.fields[1].default.as_deref(), Some("3"));
    assert_eq!(b.schemas[0].sections.len(), 4);
}

#[test]
fn authentication_fields_have_types_defaults_and_sections() {
    let b = Builder::new().build_authentication();
    let auth = &b.schemas[0];
    assert!(matches!(
        &auth.schema.fields[0].typ_,
        Type::Select { source: Source::Dynamic { schema, field }, multi: false } if schema == "directory" && field == "type"
    ));
    assert!(matches!(auth.schema.fields[1].typ_, Type::Rate));
    assert_eq!(auth.schema.fields[1].default.as_deref(), Some("100/1d"));
    assert_eq!(auth.schema.fields[2].default.as_deref(), Some("10/1m"));
    assert!(matches!(auth.schema.fields[4].typ_, Type::Secret));
    assert_eq!(auth.schema.fields[3].default, None);
    assert_eq!(auth.sections[3].title, "Security");
    assert_eq!(auth.sections[3].fields, vec![s("authentication.rate-limit"), s("authentication.fail2ban")]);
    let oauth = &b.schemas[1];
    assert!(matches!(oauth.schema.fields[6].typ_, Type::Duration));
    assert_eq!(oauth.schema.fields[6].default.as_deref(), Some("4d"));
    assert_eq!(oauth.sections[0].title, "OAuth Settings");
    assert_eq!(oauth.sections[0].fields, vec![s("oauth.key"), s("oauth.auth.max-attempts")]);
    assert_eq!(oauth.sections[1].fields.len(), 5);
    assert!(oauth.schema.fields.iter().all(|f| !f.is_multivalue()));
}

use strand::config::editor::{AutoSaveConfig, BufferLine, EditorConfig, GutterType, LineNumber};
use strand::config::merge::{layer_editor, layer_override, merge_toml_values, TomlValue};

fn from_toml(v: &toml::Value) -> TomlValue {
    match v {
        toml::Value::String(s) => TomlValue::String(s.clone()),
        toml::Value::Integer(i) => TomlValue::Integer(*i),
        toml::Value::Boolean(b) => TomlValue::Boolean(*b),
        toml::Value::Array(items) => TomlValue::Array(items.iter().map(from_toml).collect()),
        toml::Value::Table(t) => TomlValue::Table(t.iter().map(|(k, v)| (k.clone(), from_toml(v))).collect()),
        _ => TomlValue::Opaque(0),
    }
}

fn copy(v: &TomlValue) -> TomlValue {
    match v {
        TomlValue::String(s) => TomlValue::String(s.clone()),
        TomlValue::Integer(i) => TomlValue::Integer(*i),
        TomlValue::Boolean(b) => TomlValue::Boolean(*b),
        TomlValue::Opaque(h) => TomlValue::Opaque(*h),
        TomlValue::Array(items) => TomlValue::Array(items.iter().map(copy).collect()),
        TomlValue::Table(t) => TomlValue::Table(t.iter().map(|(k, v)| (k.clone(), copy(v))).collect()),
    }
}

fn parse(s: &str) -> TomlValue {
    let v: toml::Value = toml::from_str(s).unwrap();
    from_toml(&v)
}

fn get<'a>(v: &'a TomlValue, key: &str) -> Option<&'a TomlValue> {
    match v {
        TomlValue::Table(t) => t.iter().find(|(k, _)| k == key).map(|(_, v)| v),
        _ => None,
    }
}

fn as_integer(v: Option<&TomlValue>) -> Option<i64> {
    match v {
        Some(TomlValue::Integer(i)) => Some(*i),
        _ => None,
    }
}

fn table(entries: Vec<(&str, TomlValue)>) -> TomlValue {
    TomlValue::Table(entries.into_iter().map(|(k, v)| (k.to_string(), v)).collect())
}

fn named(name: &str, value: i64) -> TomlValue {
    table(vec![("name", TomlValue::String(name.to_string())), ("value", TomlValue::Integer(value))])
}

#[test]
fn test_merge_toml_values() {
    let base = parse(
        r#"
        [section]
        a = 1
        b = 2
        "#,
    );
    let override_val = parse(
        r#"
        [section]
        b = 42
        c = 3
        "#,
    );
    let merged = merge_toml_values(base, override_val, 3);
    let section = get(&merged, "section");
    assert_eq!(as_integer(section.and_then(|s| get(s, "a"))), Some(1));
    assert_eq!(as_integer(section.and_then(|s| get(s, "b"))), Some(42));
    assert_eq!(as_integer(section.and_then(|s| get(s, "c"))), Some(3));
}

#[test]
fn merge_at_depth_zero_takes_the_later_value() {
    let left = table(vec![("a", TomlValue::Integer(1))]);
    let right = table(vec![("b", TomlValue::Integer(2))]);
    let merged = merge_toml_values(left, copy(&right), 0);
    assert_eq!(merged, right);
}

#[test]
fn merge_of_different_kinds_takes_the_later_value() {
    let left = table(vec![("a", TomlValue::Integer(1))]);
    let right = TomlValue::Array(vec![TomlValue::Integer(7)]);
    assert_eq!(merge_toml_values(left, copy(&right), 3), right);
    let scalar = merge_toml_values(TomlValue::Integer(1), TomlValue::Boolean(true), 3);
    assert_eq!(scalar, TomlValue::Boolean(true));
}

#[test]
fn merge_keeps_left_entries_and_appends_the_rest() {
    let left = table(vec![("a", TomlValue::Integer(1)), ("b", TomlValue::Integer(2))]);
    let right = table(vec![("b", TomlValue::Integer(20)), ("c", TomlValue::Integer(3))]);
    let merged = merge_toml_values(left, right, 1);
    assert_eq!(
        merged,
        table(vec![("a", TomlValue::Integer(1)), ("b", TomlValue::Integer(20)), ("c", TomlValue::Integer(3))])
    );
}

#[test]
fn merge_arrays_by_name() {
    let left = TomlValue::Array(vec![named("rust", 1), named("toml", 2), TomlValue::Integer(9)]);
    let right = TomlValue::Array(vec![named("rust", 10), named("python", 3), TomlValue::Integer(9)]);
    let merged = merge_toml_values(left, right, 3);
    assert_eq!(
        merged,
        TomlValue::Array(vec![named("toml", 2), TomlValue::Integer(9), named("rust", 10), named("python", 3), TomlValue::Integer(9)])
    );
}

#[test]
fn merge_arrays_at_depth_one_replaces_named_items_whole() {
    let left = TomlValue::Array(vec![table(vec![("name", TomlValue::String("a".to_string())), ("x", TomlValue::Integer(1))])]);
    let right = TomlValue::Array(vec![table(vec![("name", TomlValue::String("a".to_string())), ("y", TomlValue::Integer(2))])]);
    let merged = merge_toml_values(left, copy(&right), 1);
    assert_eq!(merged, right);
}

#[test]
fn nested_tables_merge_to_the_given_depth() {
    let left = parse("[a.b]\nx = 1\ny = 2\n");
    let right = parse("[a.b]\ny = 3\n");
    let deep = merge_toml_values(copy(&left), copy(&right), 3);
    let b = get(&deep, "a").and_then(|a| get(a, "b"));
    assert_eq!(as_integer(b.and_then(|b| get(b, "x"))), Some(1));
    assert_eq!(as_integer(b.and_then(|b| get(b, "y"))), Some(3));
    let shallow = merge_toml_values(left, right, 2);
    let b = get(&shallow, "a").and_then(|a| get(a, "b"));
    assert_eq!(as_integer(b.and_then(|b| get(b, "x"))), None);
    assert_eq!(as_integer(b.and_then(|b| get(b, "y"))), Some(3));
}

#[test]
fn merging_an_empty_table_changes_nothing() {
    let left = table(vec![("a", TomlValue::Integer(1))]);
    assert_eq!(merge_toml_values(copy(&left), TomlValue::Table(Vec::new()), 3), left);
}

#[test]
fn layering_editor_sections_and_overrides() {
    let global = parse("scrolloff = 5\ncursorline = false\n");
    let local = parse("cursorline = true\n");
    let merged = layer_editor(Some(copy(&global)), Some(copy(&local))).unwrap();
    assert_eq!(as_integer(get(&merged, "scrolloff")), Some(5));
    assert_eq!(get(&merged, "cursorline"), Some(&TomlValue::Boolean(true)));
    assert_eq!(layer_editor(Some(copy(&global)), None), Some(global));
    assert_eq!(layer_editor(None, Some(copy(&local))), Some(local));
    assert_eq!(layer_editor(None, None), None);
    assert_eq!(layer_override(Some("latte".to_string()), Some("mocha".to_string())), Some("mocha".to_string()));
    assert_eq!(layer_override(Some("latte".to_string()), None), Some("latte".to_string()));
}

#[test]
fn editor_config_defaults() {
    let config = EditorConfig::default();
    assert_eq!(config.scrolloff, 5);
    assert_eq!(config.mouse, true);
    assert_eq!(config.line_number, LineNumber::Absolute);
    assert_eq!(config.auto_save, AutoSaveConfig::Enable(false));
    assert_eq!(config.bufferline, BufferLine::Never);
    assert!(config.rulers.is_empty());
    assert_eq!(
        config.gutters.layout,
        vec![GutterType::Diagnostics, GutterType::Spacer, GutterType::LineNumbers, GutterType::Spacer, GutterType::Diff]
    );
    assert_eq!(config.statusline.separator, "│");
}

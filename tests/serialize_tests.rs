use toml_path::{get_nested_value, set_field, strip_quotes_internal, SetConfig, Value};

fn to_toml(v: &Value) -> toml::Value {
    match v {
        Value::String(s) => toml::Value::String(s.clone()),
        Value::Integer(i) => toml::Value::Integer(*i),
        Value::Float(b) => toml::Value::Float(f64::from_bits(*b)),
        Value::Boolean(b) => toml::Value::Boolean(*b),
        Value::Datetime(d) => toml::Value::String(d.clone()),
        Value::Array(a) => toml::Value::Array(a.iter().map(to_toml).collect()),
        Value::Table(t) => {
            let mut table = toml::Table::new();
            for (k, v) in t {
                table.insert(k.clone(), to_toml(v));
            }
            toml::Value::Table(table)
        }
    }
}

fn from_toml(v: toml::Value) -> Value {
    match v {
        toml::Value::String(s) => Value::String(s),
        toml::Value::Integer(i) => Value::Integer(i),
        toml::Value::Float(f) => Value::Float(f.to_bits()),
        toml::Value::Boolean(b) => Value::Boolean(b),
        toml::Value::Datetime(d) => Value::Datetime(d.to_string()),
        toml::Value::Array(a) => Value::Array(a.into_iter().map(from_toml).collect()),
        toml::Value::Table(t) => {
            Value::Table(t.into_iter().map(|(k, v)| (k, from_toml(v))).collect())
        }
    }
}

fn parse(text: &str) -> Value {
    from_toml(toml::from_str::<toml::Value>(text).unwrap())
}

fn write(text: &str, path: &str, value: &str, hint: Option<&str>, create: bool) -> String {
    let mut config = SetConfig::new("doc.toml".to_string(), path.to_string(), value.to_string())
        .with_create_missing(create);
    if let Some(h) = hint {
        config = config.with_type(h);
    }
    let bits = value.parse::<f64>().ok().map(f64::to_bits);
    let updated = set_field(parse(text), &config, bits).unwrap();
    toml::to_string_pretty(&to_toml(&updated)).unwrap()
}

#[test]
fn get_renders_quoted_and_stripped() {
    let doc = parse("[package]\nname = \"demo\"\nauthors = [\"A\",\"B\"]");
    let v = get_nested_value(&doc, "package.authors[1]").unwrap();
    let raw = to_toml(v).to_string();
    assert_eq!(raw, "\"B\"");
    assert_eq!(strip_quotes_internal(&raw), "B");
}

#[test]
fn set_version_serializes() {
    let out = write("[package]\nname = \"demo\"\n", "package.version", "1.2.3", Some("string"), false);
    assert!(out.contains("version = \"1.2.3\""), "{}", out);
    assert!(out.contains("name = \"demo\""), "{}", out);
}

#[test]
fn set_build_target_serializes() {
    let out = write("[package]\nname = \"demo\"\n", "build.target", "x86_64", None, true);
    assert!(out.contains("[build]"), "{}", out);
    assert!(out.contains("target = \"x86_64\""), "{}", out);
}

#[test]
fn set_same_value_twice_serializes_the_same() {
    let text = "[package]\nname = \"demo\"\nauthors = [\"A\"]\n";
    let once = write(text, "package.authors[2]", "C", None, true);
    let twice = write(&once, "package.authors[2]", "C", None, true);
    assert_eq!(once, twice);
    let once = write(text, "package.rate", "2.5", None, false);
    let twice = write(&once, "package.rate", "2.5", None, false);
    assert_eq!(once, twice);
}

#[test]
fn printed_scalars_read_back() {
    let doc = parse("i = -42\nf = 3.25\nb = false\ns = \"v1.2\"");
    for key in ["i", "f", "b", "s"] {
        let v = get_nested_value(&doc, key).unwrap();
        let text = strip_quotes_internal(&to_toml(v).to_string());
        let bits = text.parse::<f64>().ok().map(f64::to_bits);
        assert_eq!(&toml_path::auto_parse_value(&text, bits).unwrap(), v, "key {}", key);
    }
}

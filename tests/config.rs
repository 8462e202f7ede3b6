use sirun::config::{
    apply_config, field_name, find_key, get_env, get_shell_command, parse_index, resolve_config,
    set_env_var, Config, ConfigError, DocValue, Field,
};

fn s(text: &str) -> DocValue {
    DocValue::Str(text.to_owned())
}

fn table(entries: Vec<(&str, DocValue)>) -> DocValue {
    DocValue::Table(entries.into_iter().map(|(k, v)| (s(k), v)).collect())
}

fn words(ws: &[&str]) -> Vec<String> {
    ws.iter().map(|w| w.to_string()).collect()
}

fn resolve(doc: &DocValue, name: Option<&str>, variant: Option<&str>) -> Result<Config, ConfigError> {
    resolve_config(doc, &name.map(str::to_owned), &variant.map(str::to_owned))
}

#[test]
fn simple_config_resolves() {
    let doc = table(vec![("name", s("simple")), ("run", s("node -e 'console.log(1)'"))]);
    let c = resolve(&doc, None, None).unwrap();
    assert_eq!(c.name.as_deref(), Some("simple"));
    assert_eq!(c.run, words(&["node", "-e", "console.log(1)"]));
    assert_eq!(c.iterations, 1);
    assert_eq!(c.timeout, None);
    assert!(!c.instructions);
    assert!(c.variants.is_none());
    assert!(c.variant.is_none());
}

#[test]
fn name_from_environment_wins() {
    let doc = table(vec![("name", s("file name")), ("run", s("true"))]);
    let c = resolve(&doc, Some("test test"), None).unwrap();
    assert_eq!(c.name.as_deref(), Some("test test"));
}

#[test]
fn all_fields_are_read() {
    let doc = table(vec![
        ("run", s("sleep 1")),
        ("setup", s("echo setup")),
        ("teardown", s("echo 'tear down'")),
        ("service", s("server --port 8080")),
        ("timeout", DocValue::UInt(4)),
        ("iterations", DocValue::UInt(10)),
        ("instructions", DocValue::Bool(true)),
        ("env", table(vec![("FOO", s("bar")), ("BAZ", s("qux"))])),
    ]);
    let c = resolve(&doc, None, None).unwrap();
    assert_eq!(c.setup, Some(words(&["echo", "setup"])));
    assert_eq!(c.teardown, Some(words(&["echo", "tear down"])));
    assert_eq!(c.service, Some(words(&["server", "--port", "8080"])));
    assert_eq!(c.timeout, Some(4));
    assert_eq!(c.iterations, 10);
    assert!(c.instructions);
    assert_eq!(
        c.env,
        vec![("FOO".to_owned(), "bar".to_owned()), ("BAZ".to_owned(), "qux".to_owned())]
    );
}

#[test]
fn field_errors() {
    let cases = vec![
        (table(vec![("run", DocValue::UInt(1))]), ConfigError::NotAString(Field::Run)),
        (table(vec![("run", s("echo 'open"))]), ConfigError::MalformedCommand(Field::Run)),
        (table(vec![("run", s("x")), ("name", DocValue::Bool(true))]), ConfigError::NotAString(Field::Name)),
        (table(vec![("run", s("x")), ("timeout", DocValue::Other)]), ConfigError::BadTimeout),
        (table(vec![("run", s("x")), ("iterations", DocValue::UInt(0))]), ConfigError::BadIterations),
        (table(vec![("run", s("x")), ("iterations", s("2"))]), ConfigError::BadIterations),
        (table(vec![("run", s("x")), ("instructions", s("yes"))]), ConfigError::BadInstructions),
        (table(vec![("run", s("x")), ("env", s("A=1"))]), ConfigError::EnvNotMapping),
        (table(vec![("run", s("x")), ("env", table(vec![("A", DocValue::UInt(1))]))]), ConfigError::EnvValueNotString),
        (
            table(vec![("run", s("x")), ("env", DocValue::Table(vec![(DocValue::UInt(1), s("a"))]))]),
            ConfigError::EnvNameNotString,
        ),
        (table(vec![("name", s("no run"))]), ConfigError::MissingRun),
        (table(vec![("run", s(""))]), ConfigError::MissingRun),
        (s("run: x"), ConfigError::NotAMapping),
        (table(vec![("run", s("x")), ("variants", s("a"))]), ConfigError::BadVariants),
    ];
    for (doc, expected) in cases {
        assert_eq!(resolve(&doc, None, None).unwrap_err(), expected);
    }
}

fn variant_doc() -> DocValue {
    table(vec![
        ("run", s("echo base")),
        (
            "variants",
            DocValue::List(vec![
                table(vec![("run", s("echo zero"))]),
                table(vec![("run", s("echo one")), ("iterations", DocValue::UInt(3))]),
            ]),
        ),
    ])
}

#[test]
fn variants_by_index_are_distinct() {
    let zero = resolve(&variant_doc(), None, Some("0")).unwrap();
    let one = resolve(&variant_doc(), None, Some("1")).unwrap();
    assert_eq!(zero.variant.as_deref(), Some("0"));
    assert_eq!(zero.run, words(&["echo", "zero"]));
    assert_eq!(zero.iterations, 1);
    assert_eq!(one.variant.as_deref(), Some("1"));
    assert_eq!(one.run, words(&["echo", "one"]));
    assert_eq!(one.iterations, 3);
}

#[test]
fn variant_index_errors() {
    assert_eq!(resolve(&variant_doc(), None, Some("2")).unwrap_err(), ConfigError::VariantIndexMissing);
    assert_eq!(resolve(&variant_doc(), None, Some("one")).unwrap_err(), ConfigError::BadVariantIndex);
    assert_eq!(resolve(&variant_doc(), None, Some("-1")).unwrap_err(), ConfigError::BadVariantIndex);
}

#[test]
fn all_variants_are_listed() {
    let c = resolve(&variant_doc(), None, None).unwrap();
    assert_eq!(c.variants, Some(words(&["0", "1"])));
    let mut many = Vec::new();
    for _ in 0..12 {
        many.push(table(vec![]));
    }
    let doc = table(vec![("run", s("x")), ("variants", DocValue::List(many))]);
    let c = resolve(&doc, None, None).unwrap();
    assert_eq!(c.variants.unwrap()[11], "11");
}

#[test]
fn variants_by_key() {
    let doc = table(vec![(
        "variants",
        table(vec![("fast", table(vec![("run", s("echo fast"))])), ("slow", table(vec![("run", s("echo slow"))]))]),
    )]);
    let c = resolve(&doc, None, None).unwrap();
    assert_eq!(c.variants, Some(words(&["fast", "slow"])));
    let slow = resolve(&doc, None, Some("slow")).unwrap();
    assert_eq!(slow.run, words(&["echo", "slow"]));
    assert_eq!(slow.variant.as_deref(), Some("slow"));
    assert_eq!(resolve(&doc, None, Some("medium")).unwrap_err(), ConfigError::VariantKeyMissing);
    let bad = table(vec![("variants", DocValue::Table(vec![(DocValue::UInt(1), table(vec![]))]))]);
    assert_eq!(resolve(&bad, None, None).unwrap_err(), ConfigError::VariantKeyNotString);
}

#[test]
fn index_text_parses() {
    assert_eq!(parse_index("0"), Some(0));
    assert_eq!(parse_index("+12"), Some(12));
    assert_eq!(parse_index("007"), Some(7));
    assert_eq!(parse_index(""), None);
    assert_eq!(parse_index("+"), None);
    assert_eq!(parse_index("1a"), None);
    assert_eq!(parse_index("18446744073709551615"), Some(usize::MAX));
    assert_eq!(parse_index("18446744073709551616"), None);
}

#[test]
fn shell_words_are_split() {
    let r = get_shell_command(&s("a \"b c\" d\\ e"), Field::Setup).unwrap();
    assert_eq!(r, words(&["a", "b c", "d e"]));
    assert_eq!(get_shell_command(&DocValue::Other, Field::Setup), Err(ConfigError::NotAString(Field::Setup)));
}

#[test]
fn env_entries_replace_by_name() {
    let mut env = vec![("A".to_owned(), "1".to_owned())];
    set_env_var(&mut env, "B".to_owned(), "2".to_owned());
    set_env_var(&mut env, "A".to_owned(), "3".to_owned());
    assert_eq!(env, vec![("A".to_owned(), "3".to_owned()), ("B".to_owned(), "2".to_owned())]);
    assert_eq!(get_env(&mut env, &table(vec![("B", s("4"))])), Ok(()));
    assert_eq!(env[1], ("B".to_owned(), "4".to_owned()));
}

#[test]
fn keys_are_found() {
    let entries = vec![(s("a"), DocValue::Other), (s("run"), DocValue::Other)];
    assert_eq!(find_key(&entries, field_name(Field::Run)), Some(1));
    assert_eq!(find_key(&entries, "b"), None);
}

#[test]
fn apply_config_layers_fields() {
    let mut c = resolve(&table(vec![("run", s("x")), ("iterations", DocValue::UInt(5))]), None, None).unwrap();
    assert_eq!(apply_config(&mut c, &table(vec![("timeout", DocValue::UInt(9))]), &None), Ok(()));
    assert_eq!(c.iterations, 5);
    assert_eq!(c.timeout, Some(9));
    assert_eq!(apply_config(&mut c, &DocValue::Bool(false), &None), Err(ConfigError::NotAMapping));
}

use yamlconf::Config;
use yamlconf::ConfigError;
use yamlconf::Entry;
use yamlconf::Node;

const YAML: &str = "
db:
    redis:
        server: 127.0.0.1
        port: 6379
        key_expiry: 3600
    sql:
        driver: SQL Server
        server: 127.0.0.1
        database: my_db
        username: user
        password: Pa$$w0rd!
sources:
    - one
    - two
    - three
";

#[test]
fn parse_error_is_reported() {
    let result = Config::load_yaml("a: [1", "/");
    assert!(matches!(result, Err(ConfigError::Parse)));
}

#[test]
fn template_error_is_reported() {
    let result = Config::get_file("config_{other}.yaml", Some("dev"));
    assert!(matches!(result, Err(ConfigError::Template)));
}

#[test]
fn filename_kept_without_environment() {
    let (file, env) = Config::get_file("config_{env}.yaml", None).unwrap();
    assert_eq!(file, "config_{env}.yaml");
    assert_eq!(env, None);
}

#[test]
fn string_loaded_config_has_no_file_and_no_environment() {
    let parsed = Config::load_yaml(YAML, "/").unwrap();
    assert_eq!(parsed.get_filename(), "");
    assert_eq!(parsed.environment(), None);
}

#[test]
fn from_text_stores_filename_and_environment() {
    let parsed = Config::from_text(YAML, "/", "config_dev.yaml", Some("dev")).unwrap();
    assert_eq!(parsed.get_filename(), "config_dev.yaml");
    assert_eq!(parsed.environment(), Some("dev"));
}

#[test]
fn scalar_texts_are_canonical() {
    let parsed = Config::load_yaml("flag: true\ndisabled: false\nratio: 3.5\nnothing: ~\n", "/")
        .unwrap();
    assert_eq!(parsed.str("flag"), "true");
    assert_eq!(parsed.str("disabled"), "false");
    assert_eq!(parsed.str("ratio"), "3.5");
    assert_eq!(parsed.str("nothing"), "");
}

#[test]
fn str_degrades_to_empty() {
    let parsed = Config::load_yaml(YAML, "/").unwrap();
    assert_eq!(parsed.str("db"), "");
    assert_eq!(parsed.str("sources"), "");
    assert_eq!(parsed.str("db/redis/missing"), "");
    assert_eq!(parsed.str(""), "");
}

#[test]
fn list_of_scalars_keeps_order_and_texts() {
    let parsed = Config::load_yaml("mix:\n  - one\n  - 2\n  - true\n  - [x]\n  - {k: v}\n  - ~\n",
        "/").unwrap();
    let expected = vec![
        String::from("one"),
        String::from("2"),
        String::from("true"),
        String::new(),
        String::new(),
        String::new(),
    ];
    assert_eq!(parsed.list("mix"), expected);
}

#[test]
fn list_degrades_to_empty() {
    let parsed = Config::load_yaml(YAML, "/").unwrap();
    assert_eq!(parsed.list("db"), Vec::<String>::new());
    assert_eq!(parsed.list("db/redis/port"), Vec::<String>::new());
    assert_eq!(parsed.list("missing"), Vec::<String>::new());
}

#[test]
fn get_returns_exact_subtree() {
    let parsed = Config::load_yaml(YAML, "/").unwrap();
    let expected = Node::Mapping(vec![
        Entry { key: String::from("server"), value: Node::Text(String::from("127.0.0.1")) },
        Entry { key: String::from("port"), value: Node::Number(String::from("6379")) },
        Entry { key: String::from("key_expiry"), value: Node::Number(String::from("3600")) },
    ]);
    assert_eq!(parsed.get("db/redis"), Some(&expected));
    assert_eq!(parsed.get("db/redis/port/deeper"), None);
}

#[test]
fn fmt_with_single_attribute() {
    let parsed = Config::load_yaml(YAML, "/").unwrap();
    assert_eq!(parsed.fmt("{}", "db/redis/port"), "6379");
}

#[test]
fn fmt_empty_when_attribute_missing() {
    let parsed = Config::load_yaml(YAML, "/").unwrap();
    assert_eq!(parsed.fmt("{}:{}", "db/sql/database+missing"), "");
}

#[test]
fn fmt_empty_when_parent_missing() {
    let parsed = Config::load_yaml(YAML, "/").unwrap();
    assert_eq!(parsed.fmt("{}", "nosuch/key"), "");
}

#[test]
fn fmt_empty_on_placeholder_count_mismatch() {
    let parsed = Config::load_yaml(YAML, "/").unwrap();
    assert_eq!(parsed.fmt("{}", "db/sql/database+username"), "");
    assert_eq!(parsed.fmt("{}:{}", "db/sql/database"), "");
}

#[test]
fn custom_separator_addresses_the_same_tree() {
    let parsed = Config::load_yaml(YAML, ".").unwrap();
    assert_eq!(parsed.str("db.redis.port"), "6379");
    assert_eq!(parsed.str("db/redis/port"), "");
}

#[test]
fn round_trip_matches_source_text() {
    let parsed = Config::load_yaml(YAML, "/").unwrap();
    assert_eq!(parsed.str("db/redis/server"), "127.0.0.1");
    assert_eq!(parsed.str("db/redis/port"), "6379");
    assert_eq!(parsed.str("db/redis/key_expiry"), "3600");
    assert_eq!(parsed.str("db/sql/driver"), "SQL Server");
    assert_eq!(parsed.str("db/sql/server"), "127.0.0.1");
    assert_eq!(parsed.str("db/sql/database"), "my_db");
    assert_eq!(parsed.str("db/sql/username"), "user");
    assert_eq!(parsed.str("db/sql/password"), "Pa$$w0rd!");
    assert_eq!(
        parsed.list("sources"),
        vec![String::from("one"), String::from("two"), String::from("three")]
    );
}

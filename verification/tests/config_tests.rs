use yamlconf::Config;
use yamlconf::Node;

const YAML: &str = "
db:
    redis:
        server: 127.0.0.1
        port: 6379
        key_expiry: 3600
    sql:
        driver: SQL Server
        server: 127.0.0.1
        database: my_db
        username: user
        password: Pa$$w0rd!
sources:
    - one
    - two
    - three
";

#[test]
fn fmt_test() {
    let parsed: Config = Config::load_yaml(YAML, "/").unwrap();
    let formatted = parsed.fmt("{}:{}", "db/sql/database+username");

    assert_eq!(formatted, String::from("my_db:user"));
}

#[test]
fn get_leaf_test() {
    let parsed: Config = Config::load_yaml(YAML, "/").unwrap();
    let value1 = parsed.get("db/redis/port");
    let value2 = parsed.get("db/redis/username");

    assert_eq!(value1, Some(&Node::Number(String::from("6379"))));
    assert_eq!(value2, None);
}

#[test]
fn get_file_test() {
    let (file, env) = Config::get_file("config_{env}.yaml", Some("dev")).unwrap();

    assert_eq!(env, Some(String::from("dev")));
    assert_eq!(file, "config_dev.yaml");
}

#[test]
fn to_string_test() {
    let parsed: Config = Config::load_yaml(YAML, "/").unwrap();
    let value = parsed.get("db/redis/port").unwrap();
    let str_value = Config::to_string(value);

    assert_eq!(str_value, "6379");
}

#[test]
fn to_list_test() {
    let parsed: Config = Config::load_yaml(YAML, "/").unwrap();
    let value = parsed.get("sources").unwrap();
    let list = Config::to_list(value);

    let mut vec = Vec::new();
    vec.push(String::from("one"));
    vec.push(String::from("two"));
    vec.push(String::from("three"));

    assert_eq!(list, vec);
}

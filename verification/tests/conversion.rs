use envtoml::config::Config;
use envtoml::env_to_toml;

fn pair(name: &str, value: &str) -> (String, String) {
    (String::from(name), String::from(value))
}

#[test]
fn test_env_to_toml() {
    let env = vec![pair("APP_PORT", "8080"), pair("APP_DB__HOST", "localhost")];
    let result = env_to_toml("APP_", &env).unwrap();
    println!("{}\n", result);
}

#[test]
fn single_global_variable() {
    let env = vec![pair("APP_PORT", "8080")];
    assert_eq!(env_to_toml("APP_", &env).unwrap(), "port = \"8080\"\n");
}

#[test]
fn one_section_two_keys() {
    let env = vec![pair("APP_DB__HOST", "localhost"), pair("APP_DB__PORT", "5432")];
    assert_eq!(
        env_to_toml("APP_", &env).unwrap(),
        "\n[db]\nhost = \"localhost\"\nport = \"5432\"\n"
    );
}

#[test]
fn empty_environment() {
    let env: Vec<(String, String)> = vec![];
    assert_eq!(env_to_toml("APP_", &env).unwrap(), "");
}

#[test]
fn no_matching_variable() {
    let env = vec![pair("OTHER_X", "1")];
    assert_eq!(env_to_toml("APP_", &env).unwrap(), "");
}

#[test]
fn nested_components_join_with_dots() {
    let env = vec![pair("APP_A__B__C", "z")];
    assert_eq!(env_to_toml("APP_", &env).unwrap(), "\n[a.b]\nc = \"z\"\n");
}

#[test]
fn globals_first_then_sections_in_first_use_order() {
    let env = vec![
        pair("APP_PORT", "8080"),
        pair("APP_DB__HOST", "h"),
        pair("APP_LOG__LEVEL", "info"),
        pair("APP_DB__PORT", "5"),
        pair("APP_NAME", "svc"),
    ];
    assert_eq!(
        env_to_toml("APP_", &env).unwrap(),
        "port = \"8080\"\nname = \"svc\"\n\n[db]\nhost = \"h\"\nport = \"5\"\n\n[log]\nlevel = \"info\"\n"
    );
}

#[test]
fn names_are_lowercased() {
    let env = vec![pair("APP_Db__HoSt", "x")];
    assert_eq!(env_to_toml("APP_", &env).unwrap(), "\n[db]\nhost = \"x\"\n");
}

#[test]
fn unicode_names_are_lowercased() {
    let env = vec![pair("APP_GRÖSSE", "x")];
    assert_eq!(env_to_toml("APP_", &env).unwrap(), "grösse = \"x\"\n");
}

// The target format forbids duplicate keys; colliding derived names are still
// both emitted, a known limitation of the conversion.
#[test]
fn colliding_names_emit_both_lines() {
    let env = vec![pair("APP_A__B", "1"), pair("APP_a__b", "2")];
    assert_eq!(env_to_toml("APP_", &env).unwrap(), "\n[a]\nb = \"1\"\nb = \"2\"\n");
}

#[test]
fn name_equal_to_prefix_gives_empty_key() {
    let env = vec![pair("APP_", "v")];
    assert_eq!(env_to_toml("APP_", &env).unwrap(), " = \"v\"\n");
}

#[test]
fn value_quotes_pass_through_unescaped() {
    let env = vec![pair("APP_K", "say \"hi\"")];
    assert_eq!(env_to_toml("APP_", &env).unwrap(), "k = \"say \"hi\"\"\n");
}

#[test]
fn empty_prefix_matches_every_variable() {
    let env = vec![pair("X__Y", "v")];
    assert_eq!(env_to_toml("", &env).unwrap(), "\n[x]\ny = \"v\"\n");
}

#[test]
fn leading_delimiter_gives_empty_section_name() {
    let env = vec![pair("APP___X", "1")];
    assert_eq!(env_to_toml("APP_", &env).unwrap(), "\n[]\nx = \"1\"\n");
}

#[test]
fn trailing_delimiter_gives_empty_key() {
    let env = vec![pair("APP_A__", "v")];
    assert_eq!(env_to_toml("APP_", &env).unwrap(), "\n[a]\n = \"v\"\n");
}

#[test]
fn repeated_conversion_is_byte_identical() {
    let env = vec![
        pair("APP_PORT", "8080"),
        pair("APP_DB__HOST", "h"),
        pair("APP_LOG__LEVEL", "info"),
    ];
    let first = env_to_toml("APP_", &env).unwrap();
    let second = env_to_toml("APP_", &env).unwrap();
    assert_eq!(first, second);
}

#[test]
fn collect_then_serialize_matches_entry_point() {
    let env = vec![pair("APP_PORT", "8080"), pair("APP_DB__HOST", "h")];
    let config = Config::from_env("APP_", &env);
    assert_eq!(config.to_toml(), env_to_toml("APP_", &env).unwrap());
}

#[test]
fn non_matching_variables_never_appear() {
    let with_noise = vec![
        pair("HOME", "/root"),
        pair("APP_PORT", "8080"),
        pair("PATH", "/bin"),
        pair("APPX_Y", "1"),
    ];
    let clean = vec![pair("APP_PORT", "8080")];
    assert_eq!(
        env_to_toml("APP_", &with_noise).unwrap(),
        env_to_toml("APP_", &clean).unwrap()
    );
}

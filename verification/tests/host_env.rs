use doa::docker::envs::{env_interpolate, lookup};

fn envs() -> Vec<(String, String)> {
    vec![
        ("HOME".to_string(), "/root".to_string()),
        ("USER".to_string(), "me".to_string()),
        ("EMPTY".to_string(), String::new()),
        (" padded ".to_string(), "p".to_string()),
        ("}".to_string(), "brace".to_string()),
    ]
}

#[test]
fn placeholder_is_replaced_by_the_value() {
    assert_eq!(env_interpolate("{{HOME}}", &envs()), "/root");
    assert_eq!(env_interpolate("{{HOME}}/src:{{USER}}", &envs()), "/root/src:me");
    assert_eq!(env_interpolate("a{{USER}}{{USER}}b", &envs()), "amemeb");
}

#[test]
fn absent_key_renders_as_empty() {
    assert_eq!(env_interpolate("x{{NOPE}}y", &envs()), "xy");
    assert_eq!(env_interpolate("x{{EMPTY}}y", &envs()), "xy");
    assert_eq!(env_interpolate("{{HOME}}", &Vec::new()), "");
    assert_eq!(env_interpolate("x{{}}y", &envs()), "xy");
}

#[test]
fn key_is_taken_as_written() {
    assert_eq!(env_interpolate("{{ HOME }}", &envs()), "");
    assert_eq!(env_interpolate("{{ padded }}", &envs()), "p");
    assert_eq!(env_interpolate("{{home}}", &envs()), "");
}

#[test]
fn text_without_placeholder_is_unchanged() {
    for raw in ["", "plain", "{HOME}", "a{b}c", "}}", "{ {HOME} }", "#{cmd}", "}{"] {
        assert_eq!(env_interpolate(raw, &envs()), raw);
    }
}

#[test]
fn unclosed_placeholder_stands_as_written() {
    assert_eq!(env_interpolate("a{{HOME", &envs()), "a{{HOME");
    assert_eq!(env_interpolate("a{{HOME}", &envs()), "a{{HOME}");
    assert_eq!(env_interpolate("{{", &envs()), "{{");
    assert_eq!(env_interpolate("a{", &envs()), "a{");
    assert_eq!(env_interpolate("{{USER}}{{HOME", &envs()), "me{{HOME");
}

#[test]
fn key_ends_at_the_first_closing() {
    assert_eq!(env_interpolate("{{USER}}}", &envs()), "me}");
    assert_eq!(env_interpolate("{{}}}", &envs()), "}");
    assert_eq!(env_interpolate("{{}a}}", &envs()), "");
    assert_eq!(env_interpolate("{{{USER}}", &envs()), "");
    assert_eq!(env_interpolate("{{a}b}}c", &envs()), "c");
}

#[test]
fn first_pair_of_a_name_gives_the_value() {
    let twice = vec![("K".to_string(), "first".to_string()), ("K".to_string(), "second".to_string())];
    assert_eq!(env_interpolate("{{K}}", &twice), "first");
    assert_eq!(lookup(&twice, &"K".to_string()), Some(&"first".to_string()));
}

#[test]
fn lookup_tells_absent_from_empty() {
    assert_eq!(lookup(&envs(), &"EMPTY".to_string()), Some(&String::new()));
    assert_eq!(lookup(&envs(), &"NOPE".to_string()), None);
    assert_eq!(lookup(&envs(), &"USER".to_string()), Some(&"me".to_string()));
}

#[test]
fn values_are_not_rendered_again() {
    let nested = vec![("A".to_string(), "{{B}}".to_string()), ("B".to_string(), "b".to_string())];
    assert_eq!(env_interpolate("{{A}}", &nested), "{{B}}");
}

#[test]
fn values_beyond_ascii_are_kept() {
    let vars = vec![("clé".to_string(), "välue ✓".to_string())];
    assert_eq!(env_interpolate("→{{clé}}←", &vars), "→välue ✓←");
}

use doa::docker::conf::listing::listing;
use doa::docker::conf::v1_0::{Action, Context};
use doa::docker::conf;
use doa::docker::fmt::InterpolationError;
use doa::launch::{
    exit_code_after, select_config, ConfigFormat, ConfigurationError, Failure, CONFIG_MISSING,
    DOA_ACTION_MISSING, DOA_FAILURE, MULTIPLE_CONFIG_FOUND,
};

fn action(help: Option<&str>) -> conf::Action {
    conf::Action::V1_0(Action {
        context: Context::Image("img".to_string()),
        help: help.map(|h| h.to_string()),
        ..Action::default()
    })
}

#[test]
fn one_file_is_selected() {
    assert_eq!(select_config(true, false), Ok(ConfigFormat::Yaml));
    assert_eq!(select_config(false, true), Ok(ConfigFormat::Toml));
}

#[test]
fn no_file_and_two_files_are_errors() {
    assert_eq!(select_config(false, false), Err(ConfigurationError::Missing));
    assert_eq!(select_config(true, true), Err(ConfigurationError::Multiple));
}

#[test]
fn statuses_have_their_values() {
    assert_eq!(DOA_ACTION_MISSING, 1);
    assert_eq!(CONFIG_MISSING, 10);
    assert_eq!(MULTIPLE_CONFIG_FOUND, 11);
    assert_eq!(Failure::ActionNotFound.exit_code(), 1);
    assert_eq!(Failure::Configuration(ConfigurationError::Missing).exit_code(), 10);
    assert_eq!(Failure::Configuration(ConfigurationError::Multiple).exit_code(), 11);
    assert_eq!(Failure::Configuration(ConfigurationError::Malformed).exit_code(), DOA_FAILURE);
    assert_eq!(Failure::EngineNotFound.exit_code(), DOA_FAILURE);
    assert_eq!(Failure::EngineExecution.exit_code(), DOA_FAILURE);
    for e in [
        InterpolationError::SpawnFailed,
        InterpolationError::AbnormalExit,
        InterpolationError::InvalidOutput,
    ] {
        assert_eq!(Failure::Interpolation(e).exit_code(), DOA_FAILURE);
    }
}

#[test]
fn statuses_are_distinct_and_not_success() {
    let codes = [DOA_ACTION_MISSING, DOA_FAILURE, CONFIG_MISSING, MULTIPLE_CONFIG_FOUND];
    for (i, a) in codes.iter().enumerate() {
        assert_ne!(*a, 0);
        for b in &codes[i + 1..] {
            assert_ne!(a, b);
        }
    }
}

#[test]
fn engine_status_becomes_the_exit_code() {
    assert_eq!(exit_code_after(Some(0)), 0);
    assert_eq!(exit_code_after(Some(3)), 3);
    assert_eq!(exit_code_after(Some(-1)), -1);
    assert_eq!(exit_code_after(None), DOA_FAILURE);
}

#[test]
fn listing_is_sorted_by_name() {
    let actions = vec![
        ("test".to_string(), action(Some("runs the tests"))),
        ("build".to_string(), action(None)),
        ("Zeta".to_string(), action(Some("upper case first"))),
        ("bui".to_string(), action(None)),
        ("lint".to_string(), action(Some("checks style"))),
        ("éclair".to_string(), action(None)),
        ("".to_string(), action(None)),
    ];
    let listed = listing(&actions);
    let expected = vec![
        ("".to_string(), None),
        ("Zeta".to_string(), Some("upper case first".to_string())),
        ("bui".to_string(), None),
        ("build".to_string(), None),
        ("lint".to_string(), Some("checks style".to_string())),
        ("test".to_string(), Some("runs the tests".to_string())),
        ("éclair".to_string(), None),
    ];
    assert_eq!(listed, expected);
    let mut names: Vec<String> = actions.iter().map(|(name, _)| name.clone()).collect();
    names.sort();
    assert_eq!(listed.iter().map(|(name, _)| name.clone()).collect::<Vec<_>>(), names);
}

#[test]
fn listing_of_nothing_is_empty() {
    assert_eq!(listing(&Vec::new()), Vec::new());
}

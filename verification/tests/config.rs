use projector::config::{get_config, get_pwd, ArgsError, Config, ConfigError, Operation, Opts};

fn home() -> Option<String> {
    Some("/home/user".to_string())
}

fn current_dir() -> Option<String> {
    Some("/work/here".to_string())
}

fn strings(args: &[&str]) -> Vec<String> {
    args.iter().map(|s| s.to_string()).collect()
}

#[test]
fn test_print_all() {
    let opts: Config = Config::try_from(
        Opts {
            args: vec![],
            config: None,
            pwd: None,
        },
        home(),
        current_dir(),
    )
    .unwrap();
    assert_eq!(opts.operation, Operation::Print(None));
}

#[test]
fn test_print_key() {
    let opts: Config = Config::try_from(
        Opts {
            args: vec!["baba".to_string()],
            config: None,
            pwd: None,
        },
        home(),
        current_dir(),
    )
    .unwrap();
    assert_eq!(opts.operation, Operation::Print(Some(String::from("baba"))));
}

#[test]
fn test_add_key_value() {
    let opts: Config = Config::try_from(
        Opts {
            args: vec!["add".to_string(), "baba".to_string(), "baz".to_string()],
            config: None,
            pwd: None,
        },
        home(),
        current_dir(),
    )
    .unwrap();
    assert_eq!(
        opts.operation,
        Operation::Add(String::from("baba"), String::from("baz"))
    );
}

#[test]
fn test_remove_key() {
    let opts: Config = Config::try_from(
        Opts {
            args: vec!["rmv".to_string(), "baba".to_string()],
            config: None,
            pwd: None,
        },
        home(),
        current_dir(),
    )
    .unwrap();
    assert_eq!(opts.operation, Operation::Remove(String::from("baba")));
}

#[test]
fn operation_from_arguments() {
    assert_eq!(Operation::try_from(strings(&[])), Ok(Operation::Print(None)));
    assert_eq!(
        Operation::try_from(strings(&["k"])),
        Ok(Operation::Print(Some("k".to_string())))
    );
    assert_eq!(
        Operation::try_from(strings(&["add", "k", "v"])),
        Ok(Operation::Add("k".to_string(), "v".to_string()))
    );
    assert_eq!(
        Operation::try_from(strings(&["rmv", "k"])),
        Ok(Operation::Remove("k".to_string()))
    );
}

#[test]
fn add_with_wrong_arity_is_an_error() {
    assert_eq!(
        Operation::try_from(strings(&["add", "k"])),
        Err(ArgsError::Add(1))
    );
    assert_eq!(Operation::try_from(strings(&["add"])), Err(ArgsError::Add(0)));
    assert_eq!(
        Operation::try_from(strings(&["add", "a", "b", "c"])),
        Err(ArgsError::Add(3))
    );
}

#[test]
fn rmv_with_wrong_arity_is_an_error() {
    assert_eq!(
        Operation::try_from(strings(&["rmv"])),
        Err(ArgsError::Remove(0))
    );
    assert_eq!(
        Operation::try_from(strings(&["rmv", "a", "b"])),
        Err(ArgsError::Remove(2))
    );
}

#[test]
fn print_with_two_keys_is_an_error() {
    assert_eq!(
        Operation::try_from(strings(&["a", "b"])),
        Err(ArgsError::Print(1))
    );
    assert_eq!(
        Operation::try_from(strings(&["a", "add", "b"])),
        Err(ArgsError::Print(2))
    );
}

#[test]
fn verbs_are_matched_exactly() {
    assert_eq!(
        Operation::try_from(strings(&["Add"])),
        Ok(Operation::Print(Some("Add".to_string())))
    );
    assert_eq!(
        Operation::try_from(strings(&["remove"])),
        Ok(Operation::Print(Some("remove".to_string())))
    );
}

#[test]
fn config_location_defaults_under_home() {
    assert_eq!(
        get_config(None, home()),
        Ok("/home/user/projector/projector.json".to_string())
    );
    assert_eq!(
        get_config(Some("/etc/p.json".to_string()), home()),
        Ok("/etc/p.json".to_string())
    );
    assert_eq!(
        get_config(Some("/etc/p.json".to_string()), None),
        Ok("/etc/p.json".to_string())
    );
    assert_eq!(get_config(None, None), Err(ConfigError::NoHome));
}

#[test]
fn pwd_defaults_to_current_directory() {
    assert_eq!(get_pwd(None, current_dir()), Ok("/work/here".to_string()));
    assert_eq!(
        get_pwd(Some("/given".to_string()), current_dir()),
        Ok("/given".to_string())
    );
    assert_eq!(
        get_pwd(Some("/given".to_string()), None),
        Ok("/given".to_string())
    );
    assert_eq!(get_pwd(None, None), Err(ConfigError::NoCurrentDir));
}

#[test]
fn config_takes_defaults_and_given_values() {
    let config = Config::try_from(
        Opts {
            args: strings(&["add", "k", "v"]),
            config: None,
            pwd: None,
        },
        home(),
        current_dir(),
    )
    .unwrap();
    assert_eq!(config.config, "/home/user/projector/projector.json");
    assert_eq!(config.pwd, "/work/here");
    let config = Config::try_from(
        Opts {
            args: strings(&[]),
            config: Some("/c.json".to_string()),
            pwd: Some("/p".to_string()),
        },
        None,
        None,
    )
    .unwrap();
    assert_eq!(config.config, "/c.json");
    assert_eq!(config.pwd, "/p");
}

#[test]
fn config_reports_first_failure() {
    let failed = Config::try_from(
        Opts {
            args: strings(&["add", "k"]),
            config: None,
            pwd: None,
        },
        None,
        None,
    );
    assert_eq!(failed.err(), Some(ConfigError::Args(ArgsError::Add(1))));
    let failed = Config::try_from(
        Opts {
            args: strings(&["k"]),
            config: None,
            pwd: None,
        },
        None,
        None,
    );
    assert_eq!(failed.err(), Some(ConfigError::NoHome));
    let failed = Config::try_from(
        Opts {
            args: strings(&["k"]),
            config: None,
            pwd: None,
        },
        home(),
        None,
    );
    assert_eq!(failed.err(), Some(ConfigError::NoCurrentDir));
}

use shsh::environment::Environment;
use shsh::executor::get_env;

#[test]
fn unset_variable_is_empty() {
    let env = Environment::new();
    assert_eq!(env.get("HOME"), "");
    assert_eq!(get_env(&env, "HOME".to_string()), "");
}

#[test]
fn set_variable_is_found() {
    let mut env = Environment::new();
    env.set("HOME".to_string(), "/home/u".to_string());
    env.set("PATH".to_string(), "/bin".to_string());
    assert_eq!(env.get("HOME"), "/home/u");
    assert_eq!(get_env(&env, "PATH".to_string()), "/bin");
    assert_eq!(env.get("home"), "");
}

#[test]
fn later_binding_counts() {
    let mut env = Environment::new();
    env.set("A".to_string(), "1".to_string());
    env.set("B".to_string(), "x".to_string());
    env.set("A".to_string(), "2".to_string());
    assert_eq!(env.get("A"), "2");
    assert_eq!(env.get("B"), "x");
    env.set("A".to_string(), String::new());
    assert_eq!(env.get("A"), "");
}

#[test]
fn reference_names_the_variable_behind_the_sigil() {
    let mut env = Environment::new();
    env.set("NAME".to_string(), "bob".to_string());
    env.set("".to_string(), "nothing".to_string());
    assert_eq!(env.reference_value("$NAME"), "bob");
    assert_eq!(env.reference_value("^NAME"), "bob");
    assert_eq!(env.reference_value("xNAME"), "bob");
    assert_eq!(env.reference_value("NAME"), "");
    assert_eq!(env.reference_value("$"), "nothing");
    assert_eq!(env.reference_value(""), "nothing");
}

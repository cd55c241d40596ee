use cloup::dirs::{config_dir, home_dir, HomeLookup, Platform};
use cloup::utils::config::ConfigError;

fn lookup(home: Option<&str>, home_is_dir: bool, profile: Option<&str>, profile_is_dir: bool) -> HomeLookup {
    HomeLookup {
        home: home.map(|s| s.to_string()),
        home_is_dir,
        userprofile: profile.map(|s| s.to_string()),
        userprofile_is_dir: profile_is_dir,
    }
}

#[test]
fn config_dir_mac() {
    let env = lookup(Some("/Users/someone"), true, None, false);
    let path = config_dir(&env, Platform::MacOs).expect(
        "Failed to get config directory. Make sure you have a HOME environment variable.",
    );
    assert!(path.contains("/Library/Application Support"));
}

#[test]
fn config_dir_of_each_platform() {
    let env = lookup(Some("/home/u"), true, None, false);
    assert_eq!(config_dir(&env, Platform::Linux).unwrap(), "/home/u/.config");
    assert_eq!(
        config_dir(&env, Platform::MacOs).unwrap(),
        "/home/u/Library/Application Support"
    );
    let env = lookup(Some("C:\\Users\\u"), true, None, false);
    assert_eq!(config_dir(&env, Platform::Windows).unwrap(), "C:\\Users\\u\\AppData\\Roaming");
}

#[test]
fn config_dir_adds_no_second_separator() {
    let env = lookup(Some("/"), true, None, false);
    assert_eq!(config_dir(&env, Platform::Linux).unwrap(), "/.config");
    let env = lookup(Some("/home/u/"), true, None, false);
    assert_eq!(config_dir(&env, Platform::Linux).unwrap(), "/home/u/.config");
    let env = lookup(Some(""), true, None, false);
    assert_eq!(config_dir(&env, Platform::Linux).unwrap(), ".config");
    let env = lookup(Some("C:\\Users\\u\\"), true, None, false);
    assert_eq!(config_dir(&env, Platform::Windows).unwrap(), "C:\\Users\\u\\AppData\\Roaming");
    let env = lookup(Some("C:/Users/u/"), true, None, false);
    assert_eq!(config_dir(&env, Platform::Windows).unwrap(), "C:/Users/u/AppData\\Roaming");
    let env = lookup(Some("/home/u\\"), true, None, false);
    assert_eq!(config_dir(&env, Platform::Linux).unwrap(), "/home/u\\/.config");
}

#[test]
fn config_dir_agrees_with_the_standard_path_join() {
    for home in ["/home/u", "/home/u/", "/", "", "relative/dir", "/a b/c"] {
        let env = lookup(Some(home), true, None, false);
        let expected = std::path::Path::new(home).join(".config");
        assert_eq!(config_dir(&env, Platform::Linux).unwrap(), expected.to_string_lossy());
    }
}

#[test]
fn home_dir_prefers_home() {
    let env = lookup(Some("/h"), true, Some("/p"), true);
    assert_eq!(home_dir(&env).unwrap(), "/h");
}

#[test]
fn home_dir_falls_back_to_userprofile() {
    let env = lookup(Some("/h"), false, Some("/p"), true);
    assert_eq!(home_dir(&env).unwrap(), "/p");
}

#[test]
fn home_dir_not_found() {
    for env in [
        lookup(None, false, Some("/p"), true),
        lookup(None, true, None, false),
        lookup(Some("/h"), false, None, true),
        lookup(Some("/h"), false, Some("/p"), false),
    ] {
        assert!(matches!(home_dir(&env), Err(ConfigError::DirNotFound)));
        assert!(matches!(config_dir(&env, Platform::Linux), Err(ConfigError::DirNotFound)));
    }
}

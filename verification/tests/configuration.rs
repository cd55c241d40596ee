use cloup::commands::apply::{
    applied_message, cloup_dir, find_workspace as find_for_apply, missing_message, ApplyOpts,
};
use cloup::commands::create::{created_message, find_workspace as find_for_create, CreateOpts};
use cloup::commands::init::{find_active, plan as plan_init, InitOpts, InitReport};
use cloup::commands::list::{cloup_name, entry_line, heading, is_cloup};
use cloup::commands::workspace::{
    knows, list_workspaces, plan as plan_workspace, WorkspaceOpts, WorkspaceStep,
};
use cloup::toml::data::{Toml, TomlValue, TomlValueKind};
use cloup::utils::color::ColoredOutput;
use cloup::utils::config::{
    activate_workspace, add_workspace, default_config, get_config, locate_workspace, read_config,
    relocate_workspace, Config, ConfigData, ConfigError, Located, Workspace,
};

const STORED: &str = "version = \"1.0\"\nactive_workspace = \"work\"\n\n[workspaces]\ndefault = \"/home/u/proj\"\nwork = \"/srv/work\"\n";

fn config_of(text: &str) -> Result<Config, ConfigError> {
    get_config("/here".to_string(), "/cfg/Cloup.toml".to_string(), Some(text.to_string()))
}

fn stored() -> Config {
    config_of(STORED).unwrap()
}

fn names(config: &Config) -> Vec<(String, String, bool)> {
    config.data.workspaces.iter().map(|w| (w.name.clone(), w.location.clone(), w.active)).collect()
}

fn workspace(name: &str, location: &str, active: bool) -> Workspace {
    Workspace { name: name.to_string(), location: location.to_string(), active }
}

#[test]
fn first_run_without_a_file() {
    let config = get_config("/here".to_string(), "/cfg/Cloup.toml".to_string(), None).unwrap();
    assert!(config.initial_run);
    assert_eq!(config.version.as_deref(), Some("1"));
    assert_eq!(config.current_dir, "/here");
    assert_eq!(config.config_path, "/cfg/Cloup.toml");
    assert_eq!(names(&config), vec![("default".to_string(), "/here".to_string(), true)]);
    assert_eq!(
        config.toml.to_toml(),
        "version = \"1.0\"\nactive_workspace = \"default\"\n\n[workspaces]\ndefault = \"/here\"\n"
    );
}

#[test]
fn first_run_with_an_empty_document() {
    for text in ["", "\n\n", "# nothing\n", "= 1 ]"] {
        let config = config_of(text).unwrap();
        assert!(config.initial_run, "{:?}", text);
        assert_eq!(names(&config), vec![("default".to_string(), "/here".to_string(), true)]);
    }
    let config = default_config("/d".to_string(), "/p".to_string());
    assert!(config.initial_run);
    assert_eq!(config.current_dir, "/d");
}

#[test]
fn stored_configuration() {
    let config = stored();
    assert!(!config.initial_run);
    assert_eq!(config.version.as_deref(), Some("1.0"));
    assert_eq!(config.current_dir, "/here");
    assert_eq!(config.config_path, "/cfg/Cloup.toml");
    assert_eq!(
        names(&config),
        vec![
            ("default".to_string(), "/home/u/proj".to_string(), false),
            ("work".to_string(), "/srv/work".to_string(), true),
        ]
    );
    assert_eq!(config.toml.to_toml(), STORED);
}

#[test]
fn version_is_optional() {
    let config = config_of("active_workspace = \"a\"\n\n[workspaces]\na = \"/a\"\n").unwrap();
    assert_eq!(config.version, None);
    let config = config_of("version = 2\nactive_workspace = \"a\"\n\n[workspaces]\na = \"/a\"\n").unwrap();
    assert_eq!(config.version, None);
    assert_eq!(names(&config), vec![("a".to_string(), "/a".to_string(), true)]);
}

#[test]
fn missing_keys() {
    for text in [
        "version = \"1.0\"\n",
        "active_workspace = \"a\"\n",
        "x = 1\n\n[workspaces]\na = \"/a\"\n",
        "active_workspace = 5\n\n[workspaces]\na = \"/a\"\n",
        "active_workspace = true\nworkspaces = 1\n",
    ] {
        assert!(matches!(config_of(text), Err(ConfigError::KeyMissing)), "{:?}", text);
    }
}

#[test]
fn unexpected_values() {
    for text in [
        "active_workspace = \"a\"\nworkspaces = \"a\"\n",
        "active_workspace = \"a\"\n\n[workspaces]\na = 1\n",
        "active_workspace = \"a\"\n\n[workspaces]\na = \"/a\"\nb = true\n",
    ] {
        assert!(matches!(config_of(text), Err(ConfigError::UnexpectedValue)), "{:?}", text);
    }
    let nested = Toml {
        data: vec![
            TomlValue { key: "active_workspace".to_string(), kind: TomlValueKind::String("a".to_string()) },
            TomlValue {
                key: "workspaces".to_string(),
                kind: TomlValueKind::Table(vec![TomlValue {
                    key: "a".to_string(),
                    kind: TomlValueKind::Table(vec![]),
                }]),
            },
        ],
    };
    assert!(matches!(
        read_config(nested, "/d".to_string(), "/p".to_string()),
        Err(ConfigError::UnexpectedValue)
    ));
}

#[test]
fn empty_table_of_workspaces() {
    let config = config_of("active_workspace = \"a\"\n\n[workspaces]\n").unwrap();
    assert!(config.data.workspaces.is_empty());
}

#[test]
fn config_data_hands_out_the_last_first() {
    let mut data = ConfigData { workspaces: vec![workspace("a", "/a", false), workspace("b", "/b", true)] };
    assert_eq!(data.next().map(|w| w.name), Some("b".to_string()));
    assert_eq!(data.next().map(|w| w.name), Some("a".to_string()));
    assert!(data.next().is_none());
    assert!(data.next().is_none());
}

#[test]
fn config_error_messages() {
    assert_eq!(ConfigError::DirNotFound.message(), "Config directory not found");
    assert_eq!(
        ConfigError::FileNotFound.message(),
        "Config file not found. Run `cloup init` to create a config file."
    );
    assert_eq!(ConfigError::FileParseError.message(), "Config file parse error");
    assert_eq!(ConfigError::KeyMissing.message(), "Key missing in config file");
    assert_eq!(ConfigError::KeyExists.message(), "Key already exists in config file");
    assert_eq!(ConfigError::UnexpectedValue.message(), "Key present, but value was unexpected");
    assert!(matches!(ConfigError::from_io(true), ConfigError::FileNotFound));
    assert!(matches!(ConfigError::from_io(false), ConfigError::FileParseError));
}

#[test]
fn find_workspace_active_or_named() {
    let list = vec![workspace("a", "/a", false), workspace("b", "/b", true), workspace("c", "/c", true)];
    let apply = |w: Option<&str>| {
        let opts = ApplyOpts { name: "x".to_string(), workspace: w.map(|s| s.to_string()) };
        find_for_apply(&opts, &list).map(|w| w.name.clone())
    };
    let create = |w: Option<&str>| {
        let opts = CreateOpts {
            name: "x".to_string(),
            files: vec![],
            exclude: vec![],
            workspace: w.map(|s| s.to_string()),
        };
        find_for_create(&opts, &list).map(|w| w.name.clone())
    };
    for find in [&apply as &dyn Fn(Option<&str>) -> Option<String>, &create] {
        assert_eq!(find(None), Some("b".to_string()));
        assert_eq!(find(Some("a")), Some("a".to_string()));
        assert_eq!(find(Some("c")), Some("c".to_string()));
        assert_eq!(find(Some("d")), None);
        assert_eq!(find(Some("")), None);
    }
    let none_active = vec![workspace("a", "/a", false)];
    let opts = ApplyOpts { name: "x".to_string(), workspace: None };
    assert!(find_for_apply(&opts, &none_active).is_none());
    assert!(find_for_apply(&opts, &[]).is_none());
}

#[test]
fn apply_and_create_texts() {
    assert_eq!(cloup_dir("web"), "cl_web");
    assert_eq!(cloup_dir(""), "cl_");
    assert_eq!(
        applied_message("web", "/here"),
        "\x1b[1;32m»\x1b[0m Applied cloup \x1b[1mweb\x1b[0m to \x1b[1m/here\x1b[0m"
    );
    assert_eq!(
        missing_message("web", "work"),
        "\x1b[1;33m»\x1b[0m Cloup \x1b[1mweb\x1b[0m does not exist in workspace 'work'"
    );
    assert_eq!(
        created_message("web", "work"),
        "\x1b[1;32mÂ»\x1b[0m Created cloup 'web' in workspace 'work'"
    );
}

#[test]
fn list_texts() {
    assert!(is_cloup("cl_web") && is_cloup("cl_"));
    assert!(!is_cloup(".DS_Store") && !is_cloup("cl") && !is_cloup("xcl_a") && !is_cloup("") && !is_cloup("Cl_a"));
    for name in ["cl_web", "cl_cl_x", "ccl_l_", "cl_acl_bcl_", "clcl__", "cl", "", "c", "cl_", "xcl", "ccl_", "clcl_", "cl_é"] {
        assert_eq!(cloup_name(name), name.replace("cl_", ""), "{:?}", name);
    }
    assert_eq!(cloup_name("cl_web"), "web");
    assert_eq!(heading("work", true), "\x1b[1;33m»\x1b[0m No cloups in workspace 'work'");
    assert_eq!(heading("work", false), "\x1b[1;32m»\x1b[0m Cloups in workspace 'work':");
    assert_eq!(entry_line("cl_web", "1.50 MB", false), "    ├── \x1b[1mweb\x1b[0m (1.50 MB)");
    assert_eq!(entry_line("cl_api", "2.00 GB", true), "    └── \x1b[1mapi\x1b[0m (2.00 GB)");
}

#[test]
fn colors() {
    assert_eq!("x y".orange(), "\x1b[38;5;214mx y\x1b[0m");
    assert_eq!("x".on_red(), "\x1b[41mx\x1b[0m");
    assert_eq!("".on_purple(), "\x1b[45m\x1b[0m");
    assert_eq!("é".to_string().orange(), "\x1b[38;5;214mé\x1b[0m");
    assert_eq!("a".to_string().on_red(), "\x1b[41ma\x1b[0m");
    assert_eq!("a".to_string().on_purple(), "\x1b[45ma\x1b[0m");
}

#[test]
fn table_edits() {
    let mut toml = Toml::from(STORED.to_string());
    assert!(matches!(locate_workspace(&toml, &"work".to_string()), Located::At(l) if l == "/srv/work"));
    assert!(matches!(locate_workspace(&toml, &"none".to_string()), Located::Absent));
    assert!(add_workspace(&mut toml, "new".to_string(), "/n".to_string()));
    relocate_workspace(&mut toml, &"default".to_string(), "/moved".to_string());
    relocate_workspace(&mut toml, &"nobody".to_string(), "/lost".to_string());
    activate_workspace(&mut toml, "new".to_string());
    assert_eq!(
        toml.to_toml(),
        "version = \"1.0\"\nactive_workspace = \"new\"\n\n[workspaces]\ndefault = \"/moved\"\nwork = \"/srv/work\"\nnew = \"/n\"\n"
    );
    let mut plain = Toml::from("active_workspace = 3\nworkspaces = 1\n".to_string());
    assert!(matches!(locate_workspace(&plain, &"a".to_string()), Located::NoTable));
    assert!(!add_workspace(&mut plain, "a".to_string(), "/a".to_string()));
    relocate_workspace(&mut plain, &"a".to_string(), "/a".to_string());
    activate_workspace(&mut plain, "a".to_string());
    assert_eq!(plain.to_toml(), "active_workspace = 3\nworkspaces = 1\n");
    let mut odd = Toml::from("[workspaces]\na = 1\n".to_string());
    assert!(matches!(locate_workspace(&odd, &"a".to_string()), Located::NoText));
    relocate_workspace(&mut odd, &"a".to_string(), "/a".to_string());
    assert_eq!(odd.to_toml(), "[workspaces]\na = 1\n");
}

fn init(overwrite: bool, name: Option<&str>, config: Config) -> (InitReport, Option<String>) {
    let opts = InitOpts { overwrite, workspace: name.map(|s| s.to_string()) };
    let plan = plan_init(opts, config).unwrap();
    (plan.report, plan.document.map(|d| d.to_toml()))
}

#[test]
fn init_first_run() {
    let config = get_config("/here".to_string(), "/p".to_string(), None).unwrap();
    let (report, document) = init(false, None, config);
    assert!(matches!(report, InitReport::CreatedDefault));
    assert_eq!(document, None);
    assert_eq!(
        report.message("/here").unwrap(),
        "\x1b[1;32m»\x1b[0m Created new workspace for storing cloups: default (/here)."
    );
}

#[test]
fn init_asks_before_moving_the_active_workspace() {
    let (report, document) = init(false, None, stored());
    assert!(matches!(&report, InitReport::ConfirmActive { name, location } if name == "work" && location == "/srv/work"));
    assert_eq!(document, None);
    assert_eq!(
        report.message("/here").unwrap(),
        "\x1b[1;33m»\x1b[0m Overwrite existing location? (\x1b[1mwork: /srv/work\x1b[0m)\n\nPass the '-o' flag to overwrite"
    );
}

#[test]
fn init_moves_the_active_workspace() {
    let (report, document) = init(true, None, stored());
    assert!(matches!(&report, InitReport::Moved { name } if name == "work"));
    assert_eq!(
        document.unwrap(),
        "version = \"1.0\"\nactive_workspace = \"work\"\n\n[workspaces]\ndefault = \"/home/u/proj\"\nwork = \"/here\"\n"
    );
    assert_eq!(
        report.message("/here").unwrap(),
        "\x1b[1;32m»\x1b[0m New location for workspace work: (/here)"
    );
}

#[test]
fn init_creates_a_named_workspace() {
    for overwrite in [false, true] {
        let (report, document) = init(overwrite, Some("fresh"), stored());
        assert!(matches!(&report, InitReport::Created { name } if name == "fresh"));
        assert_eq!(
            document.unwrap(),
            "version = \"1.0\"\nactive_workspace = \"work\"\n\n[workspaces]\ndefault = \"/home/u/proj\"\nwork = \"/srv/work\"\nfresh = \"/here\"\n"
        );
        assert_eq!(
            report.message("/here").unwrap(),
            "\x1b[1;32m»\x1b[0m Created new workspace for storing cloups: fresh\n\nTo change to this workspace, use 'cloup workspace fresh'"
        );
    }
}

#[test]
fn init_asks_before_moving_a_named_workspace() {
    let (report, document) = init(false, Some("default"), stored());
    assert!(matches!(&report, InitReport::ConfirmNamed { name, location } if name == "default" && location == "/home/u/proj"));
    assert_eq!(document, None);
    assert_eq!(
        report.message("/here").unwrap(),
        "\x1b[1;33m»\x1b[0m Overwrite current location? (\x1b[1mdefault: /home/u/proj\x1b[0m)\n\nPass the '-o' flag to overwrite"
    );
}

#[test]
fn init_moves_a_named_workspace() {
    let (report, document) = init(true, Some("default"), stored());
    assert!(matches!(report, InitReport::Silent));
    assert!(report.message("/here").is_none());
    assert_eq!(
        document.unwrap(),
        "version = \"1.0\"\nactive_workspace = \"work\"\n\n[workspaces]\ndefault = \"/here\"\nwork = \"/srv/work\"\n"
    );
}

#[test]
fn init_named_on_a_first_run() {
    let config = get_config("/here".to_string(), "/p".to_string(), None).unwrap();
    let (report, document) = init(false, Some("second"), config);
    assert!(matches!(&report, InitReport::Created { name } if name == "second"));
    assert_eq!(
        document.unwrap(),
        "version = \"1.0\"\nactive_workspace = \"default\"\n\n[workspaces]\ndefault = \"/here\"\nsecond = \"/here\"\n"
    );
}

#[test]
fn init_without_a_table() {
    let mut config = stored();
    config.toml.delete("workspaces");
    let opts = InitOpts { overwrite: true, workspace: Some("x".to_string()) };
    assert!(matches!(plan_init(opts, config), Err(ConfigError::KeyMissing)));
}

#[test]
fn init_takes_the_last_active_workspace() {
    let list = vec![workspace("a", "/a", true), workspace("b", "/b", true), workspace("c", "/c", false)];
    assert_eq!(find_active(&list), Some(1));
    assert_eq!(find_active(&vec![workspace("c", "/c", false)]), None);
    assert_eq!(find_active(&vec![]), None);
}

fn step(list: bool, create: bool, name: Option<&str>) -> (WorkspaceStep, Option<String>) {
    let opts = WorkspaceOpts { list, create, name: name.map(|s| s.to_string()) };
    let plan = plan_workspace(opts, stored());
    (plan.step, plan.document.map(|d| d.to_toml()))
}

#[test]
fn workspace_listing() {
    let (found, document) = step(true, true, Some("x"));
    assert_eq!(document, None);
    match &found {
        WorkspaceStep::Listed { lines } => assert_eq!(
            lines,
            &vec![
                "default: /home/u/proj".to_string(),
                "\x1b[1;33m»\x1b[0m work: /srv/work".to_string()
            ]
        ),
        other => panic!("{:?}", other),
    }
    assert!(found.message().is_none());
    let list = vec![workspace("a", "/a", true)];
    assert_eq!(list_workspaces(&list), vec!["\x1b[1;33m»\x1b[0m a: /a".to_string()]);
    assert!(knows(&list, &"a".to_string()) && !knows(&list, &"b".to_string()));
}

#[test]
fn workspace_created() {
    let (found, document) = step(false, true, Some("fresh"));
    assert!(matches!(&found, WorkspaceStep::Created { name } if name == "fresh"));
    assert_eq!(
        document.unwrap(),
        "version = \"1.0\"\nactive_workspace = \"work\"\n\n[workspaces]\ndefault = \"/home/u/proj\"\nwork = \"/srv/work\"\nfresh = \"/here\"\n"
    );
    assert_eq!(
        found.message().unwrap(),
        "\x1b[1;33m»\x1b[0m Workspace \x1b[1;33mfresh\x1b[0m created"
    );
}

#[test]
fn workspace_not_found() {
    let (found, document) = step(false, false, Some("fresh"));
    assert!(matches!(found, WorkspaceStep::NotFound));
    assert_eq!(document, None);
    assert!(found.message().is_none());
}

#[test]
fn workspace_exists() {
    let (found, document) = step(false, true, Some("default"));
    assert!(matches!(&found, WorkspaceStep::Exists { name } if name == "default"));
    assert_eq!(document, None);
    assert_eq!(
        found.message().unwrap(),
        "\x1b[1;33m»\x1b[0m Workspace \x1b[1;33mdefault\x1b[0m already exists"
    );
}

#[test]
fn workspace_activated() {
    let (found, document) = step(false, false, Some("default"));
    assert!(matches!(&found, WorkspaceStep::Activated { name } if name == "default"));
    assert_eq!(
        document.unwrap(),
        "version = \"1.0\"\nactive_workspace = \"default\"\n\n[workspaces]\ndefault = \"/home/u/proj\"\nwork = \"/srv/work\"\n"
    );
    assert_eq!(
        found.message().unwrap(),
        "\x1b[1;33m»\x1b[0m The active workspace has been set to \x1b[1;33mdefault\x1b[0m"
    );
}

#[test]
fn workspace_nothing_to_do() {
    let (found, document) = step(false, true, None);
    assert!(matches!(found, WorkspaceStep::Nothing));
    assert_eq!(document, None);
}

#[test]
fn test_get_config() {
    let config = get_config("/here".to_string(), "/cfg/Cloup.toml".to_string(), None).unwrap();
    println!("{:#?}", config);
}

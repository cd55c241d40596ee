use cloup::utils::parse::{
    command_parser, get_flag_params, no_args, version_requested, Command, CommandError,
};

fn args(list: &[&str]) -> Vec<String> {
    list.iter().map(|s| s.to_string()).collect()
}

fn params(flags: [&str; 2], list: &[&str]) -> Option<Vec<String>> {
    get_flag_params(flags, &args(list))
}

fn some(list: &[&str]) -> Option<Vec<String>> {
    Some(args(list))
}

#[test]
fn flag_params_up_to_the_next_flag() {
    assert_eq!(params(["-f", "--files"], &["create", "x", "-f", "a", "b", "-e", "c"]), some(&["a", "b"]));
    assert_eq!(params(["-e", "--exclude"], &["create", "x", "-f", "a", "b", "-e", "c"]), some(&["c"]));
    assert_eq!(params(["-f", "--files"], &["create", "x", "--files", "a"]), some(&["a"]));
}

#[test]
fn flag_params_none_without_the_flag() {
    assert_eq!(params(["-f", "--files"], &["create", "x"]), None);
    assert_eq!(params(["-f", "--files"], &[]), None);
    assert_eq!(params(["-f", "--files"], &["-files", "--f", "f"]), None);
}

#[test]
fn flag_params_empty_at_the_end_or_before_a_flag() {
    assert_eq!(params(["-o", "--overwrite"], &["init", "-o"]), some(&[]));
    assert_eq!(params(["-o", "--overwrite"], &["init", "-o", "-w", "x"]), some(&[]));
    assert_eq!(params(["-o", "--overwrite"], &["init", "-o", "", "-"]), some(&[""]));
}

#[test]
fn flag_params_short_form_goes_first() {
    assert_eq!(params(["-w", "--workspace"], &["--workspace", "long", "-w", "short"]), some(&["short"]));
    assert_eq!(params(["-w", "--workspace"], &["-w", "one", "-w", "two"]), some(&["one"]));
    assert_eq!(params(["-w", "--workspace"], &["--workspace", "a", "--workspace", "b"]), some(&["a"]));
}

#[test]
fn version_flag_anywhere() {
    assert!(version_requested(&args(&["-V"])));
    assert!(version_requested(&args(&["list", "--version"])));
    assert!(!version_requested(&args(&["list", "-v"])));
    assert!(!version_requested(&args(&[])));
}

#[test]
fn parser_no_arguments() {
    assert!(matches!(command_parser(args(&[])), Err(CommandError::NoArgs)));
}

#[test]
fn parser_unknown_command() {
    assert!(matches!(command_parser(args(&["delete", "x"])), Err(CommandError::NotRecognized)));
    assert!(matches!(command_parser(args(&["Init"])), Err(CommandError::NotRecognized)));
    assert!(matches!(command_parser(args(&["-h"])), Err(CommandError::NotRecognized)));
    assert!(matches!(command_parser(args(&[""])), Err(CommandError::NotRecognized)));
}

#[test]
fn parser_init() {
    match command_parser(args(&["init"])) {
        Ok(Command::Init(opts)) => {
            assert!(!opts.overwrite);
            assert_eq!(opts.workspace, None);
        }
        other => panic!("{:?}", other),
    }
    match command_parser(args(&["init", "--overwrite", "-w", "work"])) {
        Ok(Command::Init(opts)) => {
            assert!(opts.overwrite);
            assert_eq!(opts.workspace.as_deref(), Some("work"));
        }
        other => panic!("{:?}", other),
    }
}

#[test]
fn parser_init_bad_usage() {
    for line in [
        vec!["init", "-h"],
        vec!["init", "-w"],
        vec!["init", "-w", "a", "b"],
        vec!["init", "-w", "-o"],
        vec!["init", "x", "--help", "y"],
    ] {
        assert!(matches!(command_parser(args(&line)), Err(CommandError::BadUsage(_))), "{:?}", line);
    }
}

#[test]
fn parser_create() {
    match command_parser(args(&["create", "tpl", "-f", "a", "b", "-e", "c", "--workspace", "w"])) {
        Ok(Command::Create(opts)) => {
            assert_eq!(opts.name, "tpl");
            assert_eq!(opts.files, args(&["a", "b"]));
            assert_eq!(opts.exclude, args(&["c"]));
            assert_eq!(opts.workspace.as_deref(), Some("w"));
        }
        other => panic!("{:?}", other),
    }
    match command_parser(args(&["create", "tpl"])) {
        Ok(Command::Create(opts)) => {
            assert_eq!(opts.name, "tpl");
            assert!(opts.files.is_empty() && opts.exclude.is_empty());
            assert_eq!(opts.workspace, None);
        }
        other => panic!("{:?}", other),
    }
    match command_parser(args(&["create", "-f", "a"])) {
        Ok(Command::Create(opts)) => {
            assert_eq!(opts.name, "-f");
            assert_eq!(opts.files, args(&["a"]));
        }
        other => panic!("{:?}", other),
    }
}

#[test]
fn parser_create_bad_usage() {
    for line in [vec!["create"], vec!["create", "x", "-h"], vec!["create", "x", "-w"], vec!["create", "x", "-w", "a", "b"]] {
        assert!(matches!(command_parser(args(&line)), Err(CommandError::BadUsage(_))), "{:?}", line);
    }
}

#[test]
fn parser_apply() {
    match command_parser(args(&["apply", "tpl", "-w", "w"])) {
        Ok(Command::Apply(opts)) => {
            assert_eq!(opts.name, "tpl");
            assert_eq!(opts.workspace.as_deref(), Some("w"));
        }
        other => panic!("{:?}", other),
    }
    for line in [vec!["apply"], vec!["apply", "--help"], vec!["apply", "x", "-w"]] {
        assert!(matches!(command_parser(args(&line)), Err(CommandError::BadUsage(_))), "{:?}", line);
    }
}

#[test]
fn parser_list() {
    assert!(matches!(command_parser(args(&["list"])), Ok(Command::List())));
    assert!(matches!(command_parser(args(&["list", "anything", "-w"])), Ok(Command::List())));
    assert!(matches!(command_parser(args(&["list", "-h"])), Err(CommandError::BadUsage(_))));
}

#[test]
fn parser_workspace() {
    for word in ["workspace", "w"] {
        match command_parser(args(&[word, "name", "-c"])) {
            Ok(Command::Workspace(opts)) => {
                assert_eq!(opts.name.as_deref(), Some("name"));
                assert!(opts.create && !opts.list);
            }
            other => panic!("{:?}", other),
        }
        match command_parser(args(&[word, "--list"])) {
            Ok(Command::Workspace(opts)) => {
                assert_eq!(opts.name.as_deref(), Some("--list"));
                assert!(!opts.create && opts.list);
            }
            other => panic!("{:?}", other),
        }
        assert!(matches!(command_parser(args(&[word])), Err(CommandError::BadUsage(_))));
        assert!(matches!(command_parser(args(&[word, "x", "-h"])), Err(CommandError::BadUsage(_))));
    }
}

const GENERAL: &str = "Local template manager

\x1b[1mVERSION\x1b[0m
    9.8.7

\x1b[1mUSAGE\x1b[0m
    $ cloup [command] [flags]

\x1b[1mOPTIONS\x1b[0m
    -h, --help      Print help information
    -V, --version   Print version information
    
\x1b[1mCOMMANDS\x1b[0m
    init            Sets the current directory as a location for cloups
    create          Create a new cloup
    apply           Apply a cloup to the current directory
    list            List all cloups in the current workspace
    workspace       Sets the current workspace or list all workspaces
";

#[test]
fn general_help_text() {
    assert_eq!(no_args("9.8.7"), GENERAL);
    assert_eq!(CommandError::NoArgs.message("9.8.7"), GENERAL);
    assert_eq!(CommandError::NotRecognized.message("9.8.7"), GENERAL);
}

fn usage_text(message: &str, usage: &str, examples: &[&str], flags: &[(&str, &str)]) -> String {
    let max_len = flags.iter().map(|(a, _)| a.len()).max().unwrap_or(0) + 2;
    format!(
        "{}\n\n\x1b[1mUSAGE\x1b[0m\n    {}\n\n\x1b[1mEXAMPLES\x1b[0m\n    {}\n\n\x1b[1mFLAGS\x1b[0m\n    {}\n",
        message,
        usage,
        examples.join("\n    "),
        flags
            .iter()
            .map(|(a, b)| format!("{:<width$} {}", a, b, width = max_len))
            .collect::<Vec<_>>()
            .join("\n    ")
    )
}

fn help_of(line: &[&str]) -> String {
    match command_parser(args(line)) {
        Err(error) => error.message("0.0.0"),
        Ok(command) => panic!("{:?}", command),
    }
}

#[test]
fn help_of_init() {
    assert_eq!(
        help_of(&["init", "-h"]),
        usage_text(
            "Set cloup storage location",
            "$ cloup init [flags]",
            &["cloup init", "cloup init -w my-workspace"],
            &[
                ("-w, --workspace <name>", "New workspace location for cloups"),
                ("-o, --overwrite", "Overwrite cloup storage location"),
            ],
        )
    );
    assert_eq!(
        help_of(&["init", "-h"]),
        "Set cloup storage location\n\n\x1b[1mUSAGE\x1b[0m\n    $ cloup init [flags]\n\n\x1b[1mEXAMPLES\x1b[0m\n    cloup init\n    cloup init -w my-workspace\n\n\x1b[1mFLAGS\x1b[0m\n    -w, --workspace <name>   New workspace location for cloups\n    -o, --overwrite          Overwrite cloup storage location\n"
    );
}

#[test]
fn help_of_create() {
    assert_eq!(
        help_of(&["create"]),
        usage_text(
            "Create a new cloup",
            "$ cloup create <name> [flags]",
            &[
                "cloup create my-cloup",
                "cloup create my-cloup -w my-workspace",
                "cloup create my-cloup -f file1 file2 -e file3 file4",
            ],
            &[
                ("-w, --workspace <name>", "Store cloup in a specific workspace"),
                ("-f, --files <file1> <file2>", "Files to include in cloup"),
                ("-e, --exclude <file1> <file2>", "Files to exclude from cloup"),
            ],
        )
    );
}

#[test]
fn help_of_apply() {
    assert_eq!(
        help_of(&["apply"]),
        usage_text(
            "Apply cloup to current directory",
            "$ cloup apply <name> [flags]",
            &["cloup apply my-cloup", "cloup apply my-cloup -w my-workspace"],
            &[("-w, --workspace <name>", "Apply cloup from a specific workspace")],
        )
    );
}

#[test]
fn help_of_list() {
    assert_eq!(
        help_of(&["list", "--help"]),
        usage_text(
            "List all cloups in the current workspace",
            "$ cloup list [flags]",
            &["cloup list"],
            &[("-h, --help", "Print help information")],
        )
    );
}

#[test]
fn help_of_workspace() {
    assert_eq!(
        help_of(&["w"]),
        usage_text(
            "Set the current workspace or list all workspaces",
            "cloup workspace [flags]",
            &["cloup workspace", "cloup workspace -l", "cloup workspace -c my-workspace"],
            &[
                ("-l, --list", "List all workspaces in the current directory"),
                ("-c, --create <name>", "Create a new workspace in current directory"),
            ],
        )
    );
}

//! The command line: from the arguments to a command.

use crate::commands::apply::ApplyOpts;
use crate::commands::create::CreateOpts;
use crate::commands::init::InitOpts;
use crate::commands::workspace::WorkspaceOpts;
use crate::text::{chars_of, optional_text, push_str, same_text, string_of, texts};
use vstd::prelude::*;

verus! {

/// Offset of the first of `args` at or after `from` that is `flag`; the
/// length of `args` where there is none.
pub open spec fn position_of(args: Seq<Seq<char>>, flag: Seq<char>, from: int) -> int
    decreases args.len() - from,
{
    if from < 0 || from >= args.len() {
        args.len() as int
    } else if args[from] == flag {
        from
    } else {
        position_of(args, flag, from + 1)
    }
}

/// Offset of the flag in `args`: of the first `short` where there is one,
/// else of the first `long`.
pub open spec fn flag_position(args: Seq<Seq<char>>, short: Seq<char>, long: Seq<char>) -> Option<
    int,
> {
    if position_of(args, short, 0) < args.len() {
        Some(position_of(args, short, 0))
    } else if position_of(args, long, 0) < args.len() {
        Some(position_of(args, long, 0))
    } else {
        None
    }
}

/// Whether `arg` starts with a dash.
pub open spec fn starts_with_dash(arg: Seq<char>) -> bool {
    arg.len() > 0 && arg[0] == '-'
}

/// Offset of the first of `args` at or after `from` that starts with a
/// dash; the length of `args` where there is none.
pub open spec fn params_end(args: Seq<Seq<char>>, from: int) -> int
    decreases args.len() - from,
{
    if from < 0 || from >= args.len() {
        args.len() as int
    } else if starts_with_dash(args[from]) {
        from
    } else {
        params_end(args, from + 1)
    }
}

/// The parameters of a flag: the arguments after it, up to the next one
/// that starts with a dash. `None` where the flag is not among `args`.
pub open spec fn flag_params(args: Seq<Seq<char>>, short: Seq<char>, long: Seq<char>) -> Option<
    Seq<Seq<char>>,
> {
    match flag_position(args, short, long) {
        Some(p) => Some(args.subrange(p + 1, params_end(args, p + 1))),
        None => None,
    }
}

/// The end of the parameters lies between their start and the end of the
/// arguments.
pub proof fn lemma_params_end(args: Seq<Seq<char>>, from: int)
    requires
        0 <= from <= args.len(),
    ensures
        from <= params_end(args, from) <= args.len(),
    decreases args.len() - from,
{
    if from < args.len() && !starts_with_dash(args[from]) {
        lemma_params_end(args, from + 1);
    }
}

/// Offset of the first of `args` that is `flag`.
fn find_flag(flag: &str, args: &[String]) -> (r: Option<usize>)
    ensures
        match r {
            Some(i) => i < args.len() && i == position_of(texts(args@), flag@, 0),
            None => position_of(texts(args@), flag@, 0) == args.len(),
        },
{
    let mut i: usize = 0;
    while i < args.len()
        invariant
            i <= args.len(),
            position_of(texts(args@), flag@, i as int) == position_of(texts(args@), flag@, 0),
        decreases args.len() - i,
    {
        if same_text(args[i].as_str(), flag) {
            return Some(i);
        }
        i += 1;
    }
    None
}

/// Whether `arg` starts with a dash.
fn is_flag_like(arg: &str) -> (b: bool)
    ensures
        b == starts_with_dash(arg@),
{
    let chars = chars_of(arg);
    chars.len() > 0 && chars[0] == '-'
}

/// The parameters of the flag `flags[0]` or `flags[1]`.
pub fn get_flag_params(flags: [&str; 2], args: &[String]) -> (r: Option<Vec<String>>)
    ensures
        match flag_params(texts(args@), flags[0]@, flags[1]@) {
            Some(params) => r matches Some(found) && texts(found@) == params,
            None => r is None,
        },
{
    let index = match find_flag(flags[0], args) {
        Some(i) => Some(i),
        None => find_flag(flags[1], args),
    };
    match index {
        Some(pos) => {
            let ghost all = texts(args@);
            let mut params: Vec<String> = Vec::new();
            let mut i: usize = pos + 1;
            let mut more = true;
            proof {
                lemma_params_end(all, pos + 1);
            }
            while more && i < args.len()
                invariant
                    pos < i <= args.len(),
                    all == texts(args@),
                    more ==> params_end(all, i as int) == params_end(all, pos + 1),
                    !more ==> i == params_end(all, pos + 1),
                    texts(params@) == all.subrange(pos + 1, i as int),
                decreases args.len() - i + (if more { 1int } else { 0int }),
            {
                if is_flag_like(args[i].as_str()) {
                    more = false;
                } else {
                    let ghost before = texts(params@);
                    params.push(args[i].clone());
                    assert(texts(params@) =~= before.push(all[i as int]));
                    assert(all.subrange(pos + 1, i + 1) =~= all.subrange(pos + 1, i as int).push(
                        all[i as int],
                    ));
                    i += 1;
                }
            }
            Some(params)
        },
        None => None,
    }
}

#[derive(Debug)]
pub enum Command {
    Init(InitOpts),
    Create(CreateOpts),
    Workspace(WorkspaceOpts),
    Apply(ApplyOpts),
    List(),
}

#[derive(Debug)]
pub enum CommandError {
    NotRecognized,
    NoArgs,
    BadUsage(UsageError),
}

/// The help of one command.
#[derive(Debug)]
pub struct UsageError {
    message: String,
    usage: String,
    examples: Vec<String>,
    flags: Vec<(String, String)>,
}

/// What a [`UsageError`] stands for.
pub struct UsageView {
    pub message: Seq<char>,
    pub usage: Seq<char>,
    pub examples: Seq<Seq<char>>,
    pub flags: Seq<(Seq<char>, Seq<char>)>,
}

impl View for UsageError {
    type V = UsageView;

    closed spec fn view(&self) -> UsageView {
        UsageView {
            message: self.message@,
            usage: self.usage@,
            examples: texts(self.examples@),
            flags: flag_views(self.flags@),
        }
    }
}

/// What the command line asks for.
#[allow(inconsistent_fields)]
pub enum Request {
    NoArgs,
    NotRecognized,
    BadUsage(UsageView),
    Init { overwrite: bool, workspace: Option<Seq<char>> },
    Create {
        name: Seq<char>,
        files: Seq<Seq<char>>,
        exclude: Seq<Seq<char>>,
        workspace: Option<Seq<char>>,
    },
    Apply { name: Seq<char>, workspace: Option<Seq<char>> },
    List,
    Workspace { list: bool, create: bool, name: Option<Seq<char>> },
}

/// What the result of `command_parser` stands for.
pub open spec fn request_of(result: Result<Command, CommandError>) -> Request {
    match result {
        Ok(Command::Init(opts)) => Request::Init {
            overwrite: opts.overwrite,
            workspace: optional_text(opts.workspace),
        },
        Ok(Command::Create(opts)) => Request::Create {
            name: opts.name@,
            files: texts(opts.files@),
            exclude: texts(opts.exclude@),
            workspace: optional_text(opts.workspace),
        },
        Ok(Command::Apply(opts)) => Request::Apply {
            name: opts.name@,
            workspace: optional_text(opts.workspace),
        },
        Ok(Command::List()) => Request::List,
        Ok(Command::Workspace(opts)) => Request::Workspace {
            list: opts.list,
            create: opts.create,
            name: optional_text(opts.name),
        },
        Err(CommandError::NoArgs) => Request::NoArgs,
        Err(CommandError::NotRecognized) => Request::NotRecognized,
        Err(CommandError::BadUsage(help)) => Request::BadUsage(help@),
    }
}

/// The help of the command `init`.
pub open spec fn init_usage() -> UsageView {
    UsageView {
        message: "Set cloup storage location"@,
        usage: "$ cloup init [flags]"@,
        examples: seq!["cloup init"@, "cloup init -w my-workspace"@],
        flags: seq![("-w, --workspace <name>"@, "New workspace location for cloups"@), ("-o, --overwrite"@, "Overwrite cloup storage location"@)],
    }
}

/// The help of the command `create`.
pub open spec fn create_usage() -> UsageView {
    UsageView {
        message: "Create a new cloup"@,
        usage: "$ cloup create <name> [flags]"@,
        examples: seq!["cloup create my-cloup"@, "cloup create my-cloup -w my-workspace"@, "cloup create my-cloup -f file1 file2 -e file3 file4"@],
        flags: seq![("-w, --workspace <name>"@, "Store cloup in a specific workspace"@), ("-f, --files <file1> <file2>"@, "Files to include in cloup"@), ("-e, --exclude <file1> <file2>"@, "Files to exclude from cloup"@)],
    }
}

/// The help of the command `apply`.
pub open spec fn apply_usage() -> UsageView {
    UsageView {
        message: "Apply cloup to current directory"@,
        usage: "$ cloup apply <name> [flags]"@,
        examples: seq!["cloup apply my-cloup"@, "cloup apply my-cloup -w my-workspace"@],
        flags: seq![("-w, --workspace <name>"@, "Apply cloup from a specific workspace"@)],
    }
}

/// The help of the command `list`.
pub open spec fn list_usage() -> UsageView {
    UsageView {
        message: "List all cloups in the current workspace"@,
        usage: "$ cloup list [flags]"@,
        examples: seq!["cloup list"@],
        flags: seq![("-h, --help"@, "Print help information"@)],
    }
}

/// The help of the command `workspace`.
pub open spec fn workspace_usage() -> UsageView {
    UsageView {
        message: "Set the current workspace or list all workspaces"@,
        usage: "cloup workspace [flags]"@,
        examples: seq!["cloup workspace"@, "cloup workspace -l"@, "cloup workspace -c my-workspace"@],
        flags: seq![("-l, --list"@, "List all workspaces in the current directory"@), ("-c, --create <name>"@, "Create a new workspace in current directory"@)],
    }
}

/// Whether the flag `short` or `long` is among `args`.
pub open spec fn has_flag(args: Seq<Seq<char>>, short: Seq<char>, long: Seq<char>) -> bool {
    flag_params(args, short, long) is Some
}

/// The parameters of the flag `short` or `long`; none where the flag is not
/// among `args`.
pub open spec fn params_or_none(args: Seq<Seq<char>>, short: Seq<char>, long: Seq<char>) -> Seq<
    Seq<char>,
> {
    match flag_params(args, short, long) {
        Some(params) => params,
        None => Seq::empty(),
    }
}

/// The workspace that `-w` or `--workspace` names: its one parameter.
/// `Err` where the flag is given with no parameter or with more than one.
pub open spec fn workspace_param(args: Seq<Seq<char>>) -> Result<Option<Seq<char>>, ()> {
    match flag_params(args, "-w"@, "--workspace"@) {
        Some(params) => if params.len() == 1 {
            Ok(Some(params[0]))
        } else {
            Err(())
        },
        None => Ok(None),
    }
}

/// What the arguments `args` ask for. The first of them is the command; a
/// help flag anywhere asks for the help of that command.
pub open spec fn request(args: Seq<Seq<char>>) -> Request {
    if args.len() == 0 {
        Request::NoArgs
    } else {
        let help = has_flag(args, "-h"@, "--help"@);
        if args[0] == "init"@ {
            if help {
                Request::BadUsage(init_usage())
            } else {
                match workspace_param(args) {
                    Ok(workspace) => Request::Init {
                        overwrite: has_flag(args, "-o"@, "--overwrite"@),
                        workspace,
                    },
                    Err(_) => Request::BadUsage(init_usage()),
                }
            }
        } else if args[0] == "create"@ {
            if help || args.len() < 2 {
                Request::BadUsage(create_usage())
            } else {
                match workspace_param(args) {
                    Ok(workspace) => Request::Create {
                        name: args[1],
                        files: params_or_none(args, "-f"@, "--files"@),
                        exclude: params_or_none(args, "-e"@, "--exclude"@),
                        workspace,
                    },
                    Err(_) => Request::BadUsage(create_usage()),
                }
            }
        } else if args[0] == "apply"@ {
            if help || args.len() < 2 {
                Request::BadUsage(apply_usage())
            } else {
                match workspace_param(args) {
                    Ok(workspace) => Request::Apply { name: args[1], workspace },
                    Err(_) => Request::BadUsage(apply_usage()),
                }
            }
        } else if args[0] == "list"@ {
            if help {
                Request::BadUsage(list_usage())
            } else {
                Request::List
            }
        } else if args[0] == "workspace"@ || args[0] == "w"@ {
            if help || args.len() < 2 {
                Request::BadUsage(workspace_usage())
            } else {
                Request::Workspace {
                    list: has_flag(args, "-l"@, "--list"@),
                    create: has_flag(args, "-c"@, "--create"@),
                    name: Some(args[1]),
                }
            }
        } else {
            Request::NotRecognized
        }
    }
}

/// The help of the command `init`.
fn init_help() -> (help: UsageError)
    ensures
        help@ == init_usage(),
{
    let mut examples: Vec<String> = Vec::new();
    examples.push("cloup init".to_string());
    examples.push("cloup init -w my-workspace".to_string());
    let mut flags: Vec<(String, String)> = Vec::new();
    flags.push(("-w, --workspace <name>".to_string(), "New workspace location for cloups".to_string()));
    flags.push(("-o, --overwrite".to_string(), "Overwrite cloup storage location".to_string()));
    let help = UsageError {
        message: "Set cloup storage location".to_string(),
        usage: "$ cloup init [flags]".to_string(),
        examples,
        flags,
    };
    assert(help@.examples =~= init_usage().examples);
    assert(help@.flags =~= init_usage().flags);
    help
}

/// The help of the command `create`.
fn create_help() -> (help: UsageError)
    ensures
        help@ == create_usage(),
{
    let mut examples: Vec<String> = Vec::new();
    examples.push("cloup create my-cloup".to_string());
    examples.push("cloup create my-cloup -w my-workspace".to_string());
    examples.push("cloup create my-cloup -f file1 file2 -e file3 file4".to_string());
    let mut flags: Vec<(String, String)> = Vec::new();
    flags.push(("-w, --workspace <name>".to_string(), "Store cloup in a specific workspace".to_string()));
    flags.push(("-f, --files <file1> <file2>".to_string(), "Files to include in cloup".to_string()));
    flags.push(("-e, --exclude <file1> <file2>".to_string(), "Files to exclude from cloup".to_string()));
    let help = UsageError {
        message: "Create a new cloup".to_string(),
        usage: "$ cloup create <name> [flags]".to_string(),
        examples,
        flags,
    };
    assert(help@.examples =~= create_usage().examples);
    assert(help@.flags =~= create_usage().flags);
    help
}

/// The help of the command `apply`.
fn apply_help() -> (help: UsageError)
    ensures
        help@ == apply_usage(),
{
    let mut examples: Vec<String> = Vec::new();
    examples.push("cloup apply my-cloup".to_string());
    examples.push("cloup apply my-cloup -w my-workspace".to_string());
    let mut flags: Vec<(String, String)> = Vec::new();
    flags.push(("-w, --workspace <name>".to_string(), "Apply cloup from a specific workspace".to_string()));
    let help = UsageError {
        message: "Apply cloup to current directory".to_string(),
        usage: "$ cloup apply <name> [flags]".to_string(),
        examples,
        flags,
    };
    assert(help@.examples =~= apply_usage().examples);
    assert(help@.flags =~= apply_usage().flags);
    help
}

/// The help of the command `list`.
fn list_help() -> (help: UsageError)
    ensures
        help@ == list_usage(),
{
    let mut examples: Vec<String> = Vec::new();
    examples.push("cloup list".to_string());
    let mut flags: Vec<(String, String)> = Vec::new();
    flags.push(("-h, --help".to_string(), "Print help information".to_string()));
    let help = UsageError {
        message: "List all cloups in the current workspace".to_string(),
        usage: "$ cloup list [flags]".to_string(),
        examples,
        flags,
    };
    assert(help@.examples =~= list_usage().examples);
    assert(help@.flags =~= list_usage().flags);
    help
}

/// The help of the command `workspace`.
fn workspace_help() -> (help: UsageError)
    ensures
        help@ == workspace_usage(),
{
    let mut examples: Vec<String> = Vec::new();
    examples.push("cloup workspace".to_string());
    examples.push("cloup workspace -l".to_string());
    examples.push("cloup workspace -c my-workspace".to_string());
    let mut flags: Vec<(String, String)> = Vec::new();
    flags.push(("-l, --list".to_string(), "List all workspaces in the current directory".to_string()));
    flags.push(("-c, --create <name>".to_string(), "Create a new workspace in current directory".to_string()));
    let help = UsageError {
        message: "Set the current workspace or list all workspaces".to_string(),
        usage: "cloup workspace [flags]".to_string(),
        examples,
        flags,
    };
    assert(help@.examples =~= workspace_usage().examples);
    assert(help@.flags =~= workspace_usage().flags);
    help
}

/// What stands before the version in the general help.
pub const HELP_HEAD: &'static str = "Local template manager\n\n\x1b[1mVERSION\x1b[0m\n    ";

/// What stands after the version in the general help.
pub const HELP_TAIL: &'static str = "\n\n\x1b[1mUSAGE\x1b[0m\n    $ cloup [command] [flags]\n\n\x1b[1mOPTIONS\x1b[0m\n    -h, --help      Print help information\n    -V, --version   Print version information\n    \n\x1b[1mCOMMANDS\x1b[0m\n    init            Sets the current directory as a location for cloups\n    create          Create a new cloup\n    apply           Apply a cloup to the current directory\n    list            List all cloups in the current workspace\n    workspace       Sets the current workspace or list all workspaces\n";

/// What parts the lines of a list in the help of a command.
pub const LINE_BREAK: &'static str = "\n    ";

/// The general help: what the program is, its version, and its commands.
pub open spec fn general_help(version: Seq<char>) -> Seq<char> {
    HELP_HEAD@ + version + HELP_TAIL@
}

/// The first `n` of `items`, each but the first after a line break and an
/// indent of four.
pub open spec fn listed(items: Seq<Seq<char>>, n: int) -> Seq<char>
    decreases n,
{
    if n <= 0 {
        Seq::empty()
    } else if n == 1 {
        items[0]
    } else {
        listed(items, n - 1) + LINE_BREAK@ + items[n - 1]
    }
}

/// Length of the longest flag among the first `n` of `flags`.
pub open spec fn widest(flags: Seq<(Seq<char>, Seq<char>)>, n: int) -> nat
    decreases n,
{
    if n <= 0 {
        0
    } else if flags[n - 1].0.len() > widest(flags, n - 1) {
        flags[n - 1].0.len()
    } else {
        widest(flags, n - 1)
    }
}

/// `n` spaces.
pub open spec fn spaces(n: int) -> Seq<char> {
    Seq::new(
        if n > 0 {
            n as nat
        } else {
            0
        },
        |i: int| ' ',
    )
}

/// The line of one flag: the flag, spaces up to two past the width of the
/// widest flag, one more space, and what the flag does.
pub open spec fn flag_line(flag: (Seq<char>, Seq<char>), width: nat) -> Seq<char> {
    flag.0 + spaces(width - flag.0.len() + 2) + seq![' '] + flag.1
}

/// The lines of all of `flags`.
pub open spec fn flag_lines(flags: Seq<(Seq<char>, Seq<char>)>) -> Seq<Seq<char>> {
    Seq::new(flags.len(), |i: int| flag_line(flags[i], widest(flags, flags.len() as int)))
}

/// The help of one command, as it is shown.
pub open spec fn usage_text(help: UsageView) -> Seq<char> {
    help.message + "\n\n\x1b[1mUSAGE\x1b[0m\n    "@ + help.usage
        + "\n\n\x1b[1mEXAMPLES\x1b[0m\n    "@ + listed(help.examples, help.examples.len() as int)
        + "\n\n\x1b[1mFLAGS\x1b[0m\n    "@ + listed(
        flag_lines(help.flags),
        help.flags.len() as int,
    ) + seq!['\n']
}

/// What tells a user of `error`: the help of the command that was used
/// badly, or the general help.
pub open spec fn command_error_text(error: CommandError, version: Seq<char>) -> Seq<char> {
    match error {
        CommandError::BadUsage(help) => usage_text(help@),
        _ => general_help(version),
    }
}

/// The general help, for the program version `version`.
pub fn no_args(version: &str) -> (text: String)
    ensures
        text@ == general_help(version@),
{
    let mut out: Vec<char> = Vec::new();
    push_str(&mut out, HELP_HEAD);
    push_str(&mut out, version);
    push_str(&mut out, HELP_TAIL);
    assert(out@ =~= general_help(version@));
    string_of(&out)
}

/// What a list of flags stands for.
pub open spec fn flag_views(flags: Seq<(String, String)>) -> Seq<(Seq<char>, Seq<char>)> {
    Seq::new(flags.len(), |i: int| (flags[i].0@, flags[i].1@))
}

/// Length of the longest flag.
fn widest_flag(flags: &Vec<(String, String)>) -> (width: usize)
    ensures
        width == widest(flag_views(flags@), flags.len() as int),
{
    let mut width: usize = 0;
    let mut i: usize = 0;
    while i < flags.len()
        invariant
            i <= flags.len(),
            width == widest(flag_views(flags@), i as int),
        decreases flags.len() - i,
    {
        let len = flags[i].0.as_str().unicode_len();
        if len > width {
            width = len;
        }
        i += 1;
    }
    width
}

/// Appends `n` spaces to `out`.
fn push_spaces(out: &mut Vec<char>, n: usize)
    ensures
        final(out)@ == old(out)@ + spaces(n as int),
{
    let mut i: usize = 0;
    assert(out@ =~= old(out)@ + spaces(0));
    while i < n
        invariant
            i <= n,
            out@ == old(out)@ + spaces(i as int),
        decreases n - i,
    {
        out.push(' ');
        i += 1;
        assert(out@ =~= old(out)@ + spaces(i as int));
    }
}

impl UsageError {
    /// The help, as it is shown.
    pub fn message(&self) -> (text: String)
        ensures
            text@ == usage_text(self@),
    {
        let mut out: Vec<char> = Vec::new();
        push_str(&mut out, self.message.as_str());
        push_str(&mut out, "\n\n\x1b[1mUSAGE\x1b[0m\n    ");
        push_str(&mut out, self.usage.as_str());
        push_str(&mut out, "\n\n\x1b[1mEXAMPLES\x1b[0m\n    ");
        let ghost head = out@;
        let mut i: usize = 0;
        while i < self.examples.len()
            invariant
                i <= self.examples.len(),
                out@ == head + listed(texts(self.examples@), i as int),
            decreases self.examples.len() - i,
        {
            let ghost lines = listed(texts(self.examples@), i as int);
            if i > 0 {
                push_str(&mut out, LINE_BREAK);
            }
            push_str(&mut out, self.examples[i].as_str());
            i += 1;
            assert(out@ =~= head + listed(texts(self.examples@), i as int));
        }
        push_str(&mut out, "\n\n\x1b[1mFLAGS\x1b[0m\n    ");
        let ghost head = out@;
        let ghost flags = flag_views(self.flags@);
        let width = widest_flag(&self.flags);
        let mut i: usize = 0;
        while i < self.flags.len()
            invariant
                i <= self.flags.len(),
                flags == flag_views(self.flags@),
                width == widest(flags, self.flags.len() as int),
                out@ == head + listed(flag_lines(flags), i as int),
            decreases self.flags.len() - i,
        {
            if i > 0 {
                push_str(&mut out, LINE_BREAK);
            }
            let ghost start = out@;
            let flag = &self.flags[i];
            let len = flag.0.as_str().unicode_len();
            proof {
                lemma_widest(flags, self.flags.len() as int, i as int);
            }
            push_str(&mut out, flag.0.as_str());
            push_spaces(&mut out, width - len);
            out.push(' ');
            out.push(' ');
            out.push(' ');
            push_str(&mut out, flag.1.as_str());
            assert(spaces(width - len) + seq![' ', ' '] =~= spaces(width - len + 2));
            assert(out@ =~= start + flag_line(flags[i as int], width as nat));
            i += 1;
            assert(out@ =~= head + listed(flag_lines(flags), i as int));
        }
        out.push('\n');
        assert(out@ =~= usage_text(self@));
        string_of(&out)
    }
}

/// No flag among the first `n` is longer than the widest of them.
pub proof fn lemma_widest(flags: Seq<(Seq<char>, Seq<char>)>, n: int, i: int)
    requires
        0 <= i < n <= flags.len(),
    ensures
        flags[i].0.len() <= widest(flags, n),
    decreases n,
{
    if i < n - 1 {
        lemma_widest(flags, n - 1, i);
    }
}

impl CommandError {
    /// What tells a user of this error, for the program version `version`.
    pub fn message(&self, version: &str) -> (text: String)
        ensures
            text@ == command_error_text(*self, version@),
    {
        match self {
            CommandError::BadUsage(help) => help.message(),
            _ => no_args(version),
        }
    }
}

/// The workspace that `-w` or `--workspace` names.
fn workspace_flag(argv: &[String]) -> (r: Result<Option<String>, ()>)
    ensures
        match workspace_param(texts(argv@)) {
            Ok(workspace) => r matches Ok(found) && optional_text(found) == workspace,
            Err(_) => r is Err,
        },
{
    match get_flag_params(["-w", "--workspace"], argv) {
        Some(params) => {
            if params.len() > 1 || params.len() == 0 {
                Err(())
            } else {
                Ok(Some(params[0].clone()))
            }
        },
        None => Ok(None),
    }
}

/// Whether the arguments ask for the version: they are not empty and `-V`
/// or `--version` is among them.
pub fn version_requested(argv: &[String]) -> (b: bool)
    ensures
        b == (argv@.len() > 0 && has_flag(texts(argv@), "-V"@, "--version"@)),
{
    argv.len() > 0 && get_flag_params(["-V", "--version"], argv).is_some()
}

/// The command that the arguments ask for.
pub fn command_parser(argv: Vec<String>) -> (r: Result<Command, CommandError>)
    ensures
        request_of(r) == request(texts(argv@)),
{
    if argv.len() == 0 {
        return Err(CommandError::NoArgs);
    }
    let ghost args = texts(argv@);
    let args_slice = argv.as_slice();
    let command = argv[0].as_str();
    let help = get_flag_params(["-h", "--help"], args_slice).is_some();
    if same_text(command, "init") {
        if help {
            return Err(CommandError::BadUsage(init_help()));
        }
        let overwrite = get_flag_params(["-o", "--overwrite"], args_slice).is_some();
        let workspace = match workspace_flag(args_slice) {
            Ok(w) => w,
            Err(_) => {
                return Err(CommandError::BadUsage(init_help()));
            },
        };
        Ok(Command::Init(InitOpts { overwrite, workspace }))
    } else if same_text(command, "create") {
        if help {
            return Err(CommandError::BadUsage(create_help()));
        }
        if argv.len() < 2 {
            return Err(CommandError::BadUsage(create_help()));
        }
        let workspace = match workspace_flag(args_slice) {
            Ok(w) => w,
            Err(_) => {
                return Err(CommandError::BadUsage(create_help()));
            },
        };
        let name = argv[1].clone();
        let files = match get_flag_params(["-f", "--files"], args_slice) {
            Some(f) => f,
            None => {
                let none: Vec<String> = Vec::new();
                assert(texts(none@) =~= Seq::<Seq<char>>::empty());
                none
            },
        };
        let exclude = match get_flag_params(["-e", "--exclude"], args_slice) {
            Some(e) => e,
            None => {
                let none: Vec<String> = Vec::new();
                assert(texts(none@) =~= Seq::<Seq<char>>::empty());
                none
            },
        };
        Ok(Command::Create(CreateOpts { name, files, exclude, workspace }))
    } else if same_text(command, "apply") {
        if help {
            return Err(CommandError::BadUsage(apply_help()));
        }
        if argv.len() < 2 {
            return Err(CommandError::BadUsage(apply_help()));
        }
        let workspace = match workspace_flag(args_slice) {
            Ok(w) => w,
            Err(_) => {
                return Err(CommandError::BadUsage(apply_help()));
            },
        };
        Ok(Command::Apply(ApplyOpts { name: argv[1].clone(), workspace }))
    } else if same_text(command, "list") {
        if help {
            return Err(CommandError::BadUsage(list_help()));
        }
        Ok(Command::List())
    } else if same_text(command, "workspace") || same_text(command, "w") {
        if help {
            return Err(CommandError::BadUsage(workspace_help()));
        }
        if argv.len() < 2 {
            return Err(CommandError::BadUsage(workspace_help()));
        }
        let name = Some(argv[1].clone());
        let list = get_flag_params(["-l", "--list"], args_slice).is_some();
        let create = get_flag_params(["-c", "--create"], args_slice).is_some();
        Ok(Command::Workspace(WorkspaceOpts { list, create, name }))
    } else {
        Err(CommandError::NotRecognized)
    }
}

} // verus!

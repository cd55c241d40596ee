//! The configuration: the workspaces that a document names.

use crate::toml::data::{
    entries_of, find_item, index_of, lemma_index_of, lemma_table_view, lookup, valid_key, Entry, Toml, TomlValue, TomlValueKind, Value,
};
use crate::text::optional_text;
use crate::toml::lexer::tokenize;
use crate::toml::parser::parse_tokens;
use vstd::prelude::*;

verus! {

#[derive(Debug)]
pub struct Workspace {
    pub name: String,
    pub location: String,
    pub active: bool,
}

/// What a [`Workspace`] stands for.
pub struct WorkspaceView {
    pub name: Seq<char>,
    pub location: Seq<char>,
    pub active: bool,
}

impl View for Workspace {
    type V = WorkspaceView;

    open spec fn view(&self) -> WorkspaceView {
        WorkspaceView { name: self.name@, location: self.location@, active: self.active }
    }
}

/// What a list of workspaces stands for.
pub open spec fn workspace_views(items: Seq<Workspace>) -> Seq<WorkspaceView> {
    Seq::new(items.len(), |i: int| items[i]@)
}

#[derive(Debug)]
pub struct ConfigData {
    /// List of available workspaces
    pub workspaces: Vec<Workspace>,
}

impl View for ConfigData {
    type V = Seq<WorkspaceView>;

    open spec fn view(&self) -> Seq<WorkspaceView> {
        workspace_views(self.workspaces@)
    }
}

impl ConfigData {
    /// Takes the last workspace out of the list.
    pub fn next(&mut self) -> (r: Option<Workspace>)
        ensures
            match r {
                Some(w) => old(self)@.len() > 0 && w@ == old(self)@.last() && final(self)@ == old(
                    self,
                )@.drop_last(),
                None => old(self)@.len() == 0 && final(self)@ == old(self)@,
            },
    {
        let r = self.workspaces.pop();
        proof {
            if old(self).workspaces@.len() > 0 {
                assert(workspace_views(self.workspaces@) =~= workspace_views(
                    old(self).workspaces@,
                ).drop_last());
            }
        }
        r
    }
}

#[derive(Debug)]
pub enum ConfigError {
    /// File and directory errors
    DirNotFound,
    FileNotFound,
    FileParseError,
    /// Config contents errors
    KeyMissing,
    KeyExists,
    UnexpectedValue,
}

/// The sentence that tells a user of `error`.
pub open spec fn config_error_text(error: ConfigError) -> Seq<char> {
    match error {
        ConfigError::DirNotFound => "Config directory not found"@,
        ConfigError::FileNotFound => "Config file not found. Run `cloup init` to create a config file."@,
        ConfigError::FileParseError => "Config file parse error"@,
        ConfigError::KeyMissing => "Key missing in config file"@,
        ConfigError::KeyExists => "Key already exists in config file"@,
        ConfigError::UnexpectedValue => "Key present, but value was unexpected"@,
    }
}

impl ConfigError {
    /// The error for a configuration file that could not be read: the file
    /// is not found where the system says so, and cannot be parsed where it
    /// gives another reason.
    pub fn from_io(not_found: bool) -> (error: ConfigError)
        ensures
            error == if not_found {
                ConfigError::FileNotFound
            } else {
                ConfigError::FileParseError
            },
    {
        if not_found {
            ConfigError::FileNotFound
        } else {
            ConfigError::FileParseError
        }
    }

    /// The sentence that tells a user of this error.
    pub fn message(&self) -> (text: String)
        ensures
            text@ == config_error_text(*self),
    {
        match self {
            ConfigError::DirNotFound => "Config directory not found".to_string(),
            ConfigError::FileNotFound => "Config file not found. Run `cloup init` to create a config file.".to_string(),
            ConfigError::FileParseError => "Config file parse error".to_string(),
            ConfigError::KeyMissing => "Key missing in config file".to_string(),
            ConfigError::KeyExists => "Key already exists in config file".to_string(),
            ConfigError::UnexpectedValue => "Key present, but value was unexpected".to_string(),
        }
    }
}

#[derive(Debug)]
pub struct Config {
    /// Initial run?
    pub initial_run: bool,
    /// Version of config
    pub version: Option<String>,
    /// Current directory
    pub current_dir: String,
    /// Config location
    pub config_path: String,
    /// Data from Toml
    pub data: ConfigData,
    /// Toml in case it's needed
    pub toml: Toml,
}

/// The document of a first run: the version, the active workspace
/// `default`, and the workspace `default` at `current_dir`.
pub open spec fn default_document(current_dir: Seq<char>) -> Seq<Entry> {
    seq![
        Entry { key: "version"@, value: Value::Text("1.0"@) },
        Entry { key: "active_workspace"@, value: Value::Text("default"@) },
        Entry {
            key: "workspaces"@,
            value: Value::Table(seq![Entry { key: "default"@, value: Value::Text(current_dir) }]),
        },
    ]
}

/// The text of the first entry of `doc` whose key is `key`, where its value
/// is a text.
pub open spec fn text_at(doc: Seq<Entry>, key: Seq<char>) -> Option<Seq<char>> {
    match index_of(doc, key) {
        Some(i) => match doc[i].value {
            Value::Text(text) => Some(text),
            _ => None,
        },
        None => None,
    }
}

/// Offset of the first of `entries` at or after `from` whose value is no
/// text; the length of `entries` where there is none.
pub open spec fn first_non_text(entries: Seq<Entry>, from: int) -> int
    decreases entries.len() - from,
{
    if from < 0 || from >= entries.len() {
        entries.len() as int
    } else if !(entries[from].value is Text) {
        from
    } else {
        first_non_text(entries, from + 1)
    }
}

/// Whether the value of every one of `entries` is a text.
pub open spec fn all_text(entries: Seq<Entry>) -> bool {
    forall|i: int| 0 <= i < entries.len() ==> (#[trigger] entries[i]).value is Text
}

/// The workspaces that the entries of a table name: each key is a name,
/// each text a location, and the one named `active` is the active one.
pub open spec fn workspaces_in(entries: Seq<Entry>, active: Seq<char>) -> Seq<WorkspaceView> {
    Seq::new(
        entries.len(),
        |i: int|
            WorkspaceView {
                name: entries[i].key,
                location: entries[i].value->Text_0,
                active: active == entries[i].key,
            },
    )
}

/// What keeps `doc` from being a configuration. A key is missing where
/// there is no `active_workspace`, no `workspaces`, or the first is no text;
/// a value is unexpected where `workspaces` is no table or holds anything
/// but texts.
pub open spec fn config_problem(doc: Seq<Entry>) -> Option<ConfigError> {
    if index_of(doc, "active_workspace"@) is None || index_of(doc, "workspaces"@) is None
        || text_at(doc, "active_workspace"@) is None {
        Some(ConfigError::KeyMissing)
    } else {
        match doc[index_of(doc, "workspaces"@)->0].value {
            Value::Table(entries) => if all_text(entries) {
                None
            } else {
                Some(ConfigError::UnexpectedValue)
            },
            _ => Some(ConfigError::UnexpectedValue),
        }
    }
}

/// The document that the content of the configuration file writes; `None`
/// where there is no file or the document is empty, which makes a first run.
pub open spec fn stored_document(content: Option<String>) -> Option<Seq<Entry>> {
    match content {
        Some(text) => if parse_tokens(tokenize(text@)).len() > 0 {
            Some(parse_tokens(tokenize(text@)))
        } else {
            None
        },
        None => None,
    }
}

/// Whether `config` is what the document `doc` holds: its version where
/// that is a text, its workspaces, and the document itself.
pub open spec fn reads_as(
    config: Config,
    doc: Seq<Entry>,
    current_dir: Seq<char>,
    config_path: Seq<char>,
) -> bool {
    &&& !config.initial_run
    &&& optional_text(config.version) == text_at(doc, "version"@)
    &&& config.current_dir@ == current_dir
    &&& config.config_path@ == config_path
    &&& config.toml@ == doc
    &&& config.data@ == workspaces_in(
        doc[index_of(doc, "workspaces"@)->0].value->Table_0,
        text_at(doc, "active_workspace"@)->0,
    )
}

/// Whether `config` is that of a first run: the one workspace `default` at
/// `current_dir`, which is active, and the document that says so.
pub open spec fn is_first_run(config: Config, current_dir: Seq<char>, config_path: Seq<char>) -> bool {
    &&& config.initial_run
    &&& optional_text(config.version) == Some("1"@)
    &&& config.current_dir@ == current_dir
    &&& config.config_path@ == config_path
    &&& config.toml@ == default_document(current_dir)
    &&& config.data@ == seq![
        WorkspaceView { name: "default"@, location: current_dir, active: true },
    ]
}

/// The workspaces that the items of a table name.
fn read_workspaces(values: &Vec<TomlValue>, active: &String) -> (r: Result<
    Vec<Workspace>,
    ConfigError,
>)
    ensures
        if all_text(entries_of(values@)) {
            r matches Ok(found) && workspace_views(found@) == workspaces_in(
                entries_of(values@),
                active@,
            )
        } else {
            r matches Err(ConfigError::UnexpectedValue)
        },
{
    let ghost entries = entries_of(values@);
    let mut found: Vec<Workspace> = Vec::new();
    let mut i: usize = 0;
    while i < values.len()
        invariant
            i <= values.len(),
            entries == entries_of(values@),
            forall|j: int| 0 <= j < i ==> (#[trigger] entries[j]).value is Text,
            workspace_views(found@) == workspaces_in(entries, active@).take(i as int),
        decreases values.len() - i,
    {
        let v = &values[i];
        match &v.kind {
            TomlValueKind::String(location) => {
                let ghost before = workspace_views(found@);
                found.push(
                    Workspace {
                        name: v.key.clone(),
                        location: location.clone(),
                        active: *active == v.key,
                    },
                );
                assert(workspace_views(found@) =~= before.push(
                    workspaces_in(entries, active@)[i as int],
                ));
                assert(workspaces_in(entries, active@).take(i + 1) =~= workspaces_in(
                    entries,
                    active@,
                ).take(i as int).push(workspaces_in(entries, active@)[i as int]));
            },
            _ => {
                assert(!(entries[i as int].value is Text));
                return Err(ConfigError::UnexpectedValue);
            },
        }
        i += 1;
    }
    assert(workspaces_in(entries, active@).take(i as int) =~= workspaces_in(entries, active@));
    Ok(found)
}

/// The configuration that the document `toml` holds.
pub fn read_config(toml: Toml, current_dir: String, config_path: String) -> (r: Result<
    Config,
    ConfigError,
>)
    ensures
        match config_problem(toml@) {
            Some(e) => r == Err::<Config, ConfigError>(e),
            None => r matches Ok(config) && config.toml == toml && reads_as(
                config,
                toml@,
                current_dir@,
                config_path@,
            ),
        },
{
    proof {
        lemma_index_of(toml@, "version"@);
        lemma_index_of(toml@, "active_workspace"@);
        lemma_index_of(toml@, "workspaces"@);
    }
    let version = match toml.get("version") {
        Some(TomlValueKind::String(value)) => Some(value.clone()),
        _ => None,
    };
    let active_workspace = match toml.get("active_workspace") {
        Some(kind) => kind,
        None => {
            return Err(ConfigError::KeyMissing);
        },
    };
    let workspaces = match toml.get("workspaces") {
        Some(kind) => kind,
        None => {
            return Err(ConfigError::KeyMissing);
        },
    };
    let active_workspace = match active_workspace {
        TomlValueKind::String(value) => value.clone(),
        _ => {
            return Err(ConfigError::KeyMissing);
        },
    };
    let workspaces = match workspaces {
        TomlValueKind::Table(values) => {
            proof {
                lemma_table_view(*values);
            }
            match read_workspaces(values, &active_workspace) {
                Ok(found) => found,
                Err(e) => {
                    return Err(e);
                },
            }
        },
        _ => {
            return Err(ConfigError::UnexpectedValue);
        },
    };
    Ok(
        Config {
            initial_run: false,
            version,
            current_dir,
            config_path,
            data: ConfigData { workspaces },
            toml,
        },
    )
}

/// The three keys of a configuration are keys that a document accepts, and
/// no two of them are the same.
proof fn lemma_config_keys()
    ensures
        valid_key("version"@),
        valid_key("active_workspace"@),
        valid_key("workspaces"@),
        "version"@ != "active_workspace"@,
        "version"@ != "workspaces"@,
        "active_workspace"@ != "workspaces"@,
{
    reveal_strlit("version");
    reveal_strlit("active_workspace");
    reveal_strlit("workspaces");
}

/// The configuration of a first run in `current_dir`.
pub fn default_config(current_dir: String, config_path: String) -> (config: Config)
    ensures
        is_first_run(config, current_dir@, config_path@),
{
    let mut toml = Toml::new();
    proof {
        lemma_config_keys();
    }
    let ghost first = default_document(current_dir@)[0];
    let ghost second = default_document(current_dir@)[1];
    let ghost third = default_document(current_dir@)[2];
    proof {
        lemma_index_of(Seq::empty(), "version"@);
        lemma_index_of(seq![first], "active_workspace"@);
        lemma_index_of(seq![first, second], "workspaces"@);
    }
    toml.set("version".to_string(), TomlValueKind::String("1.0".to_string()));
    assert(toml@ =~= seq![first]);
    toml.set("active_workspace".to_string(), TomlValueKind::String("default".to_string()));
    assert(toml@ =~= seq![first, second]);
    let mut table: Vec<TomlValue> = Vec::new();
    table.push(
        TomlValue { key: "default".to_string(), kind: TomlValueKind::String(current_dir.clone()) },
    );
    proof {
        lemma_table_view(table);
        assert(entries_of(table@) =~= seq![
            Entry { key: "default"@, value: Value::Text(current_dir@) },
        ]);
    }
    toml.set("workspaces".to_string(), TomlValueKind::Table(table));
    assert(toml@ =~= default_document(current_dir@));
    let mut workspaces: Vec<Workspace> = Vec::new();
    workspaces.push(
        Workspace { name: "default".to_string(), location: current_dir.clone(), active: true },
    );
    assert(workspace_views(workspaces@) =~= seq![
        WorkspaceView { name: "default"@, location: current_dir@, active: true },
    ]);
    Config {
        initial_run: true,
        version: Some("1".to_string()),
        current_dir,
        config_path,
        data: ConfigData { workspaces },
        toml,
    }
}

/// The configuration, given the content of the configuration file where
/// there is one. Without a file, or with one whose document is empty, this
/// is a first run: the configuration is the default one, and its document
/// is yet to be written to the file.
pub fn get_config(current_dir: String, config_path: String, content: Option<String>) -> (r: Result<
    Config,
    ConfigError,
>)
    ensures
        match stored_document(content) {
            None => r matches Ok(config) && is_first_run(config, current_dir@, config_path@),
            Some(doc) => match config_problem(doc) {
                Some(e) => r == Err::<Config, ConfigError>(e),
                None => r matches Ok(config) && reads_as(config, doc, current_dir@, config_path@),
            },
        },
{
    match content {
        None => Ok(default_config(current_dir, config_path)),
        Some(text) => {
            let toml = Toml::from(text);
            if toml.data.len() == 0 {
                Ok(default_config(current_dir, config_path))
            } else {
                read_config(toml, current_dir, config_path)
            }
        },
    }
}

/// `doc` with `entries` as the table of its first entry named `workspaces`,
/// where the value of that entry is a table; else `doc` itself.
pub open spec fn with_workspaces(doc: Seq<Entry>, entries: Seq<Entry>) -> Seq<Entry> {
    match lookup(doc, "workspaces"@) {
        Some(Value::Table(_)) => doc.update(
            index_of(doc, "workspaces"@)->0,
            Entry { key: doc[index_of(doc, "workspaces"@)->0].key, value: Value::Table(entries) },
        ),
        _ => doc,
    }
}

/// The entries of the table of the first entry named `workspaces`.
pub open spec fn workspace_entries(doc: Seq<Entry>) -> Option<Seq<Entry>> {
    match lookup(doc, "workspaces"@) {
        Some(Value::Table(entries)) => Some(entries),
        _ => None,
    }
}

/// Adds the workspace `name` at `location` to the end of the table
/// `workspaces`. Tells whether there is such a table; without one the
/// document stays as it is.
pub fn add_workspace(toml: &mut Toml, name: String, location: String) -> (done: bool)
    ensures
        match workspace_entries(old(toml)@) {
            Some(entries) => done && final(toml)@ == with_workspaces(
                old(toml)@,
                entries.push(Entry { key: name@, value: Value::Text(location@) }),
            ),
            None => !done && final(toml)@ == old(toml)@,
        },
{
    proof {
        lemma_index_of(toml@, "workspaces"@);
    }
    let done = match toml.get_mut("workspaces") {
        Some(TomlValueKind::Table(key_values)) => {
            key_values.push(TomlValue { key: name, kind: TomlValueKind::String(location) });
            true
        },
        _ => false,
    };
    proof {
        if done {
            let i = index_of(old(toml)@, "workspaces"@)->0;
            let before = old(toml).data@[i].kind->Table_0;
            let after = toml.data@[i].kind->Table_0;
            lemma_table_view(before);
            lemma_table_view(after);
            assert(entries_of(after@) =~= entries_of(before@).push(
                Entry { key: name@, value: Value::Text(location@) },
            ));
            assert(toml@ =~= with_workspaces(
                old(toml)@,
                entries_of(before@).push(Entry { key: name@, value: Value::Text(location@) }),
            ));
        }
    }
    done
}

/// `entries` with the text `location` as the value of the first entry
/// whose key is `name`, where the value of that entry is a text; else
/// `entries` themselves.
pub open spec fn relocated(entries: Seq<Entry>, name: Seq<char>, location: Seq<char>) -> Seq<Entry> {
    match lookup(entries, name) {
        Some(Value::Text(_)) => entries.update(
            index_of(entries, name)->0,
            Entry { key: entries[index_of(entries, name)->0].key, value: Value::Text(location) },
        ),
        _ => entries,
    }
}

/// What the table `workspaces` holds for a name.
#[derive(Debug)]
pub enum Located {
    /// The document has no table `workspaces`.
    NoTable,
    /// The table has no entry with the name.
    Absent,
    /// The table has the name with this location.
    At(String),
    /// The table has the name with a value that is no text.
    NoText,
}

/// What the table `workspaces` of `doc` holds for `name`: nothing where
/// there is no such table.
pub open spec fn located(doc: Seq<Entry>, name: Seq<char>) -> Option<Option<Value>> {
    match workspace_entries(doc) {
        Some(entries) => Some(lookup(entries, name)),
        None => None,
    }
}

/// What the table `workspaces` holds for `name`.
pub fn locate_workspace(toml: &Toml, name: &String) -> (r: Located)
    ensures
        match located(toml@, name@) {
            None => r is NoTable,
            Some(None) => r is Absent,
            Some(Some(Value::Text(location))) => r matches Located::At(found) && found@
                == location,
            Some(Some(_)) => r is NoText,
        },
{
    proof {
        lemma_index_of(toml@, "workspaces"@);
    }
    match toml.get("workspaces") {
        Some(TomlValueKind::Table(key_values)) => {
            proof {
                lemma_table_view(*key_values);
                lemma_index_of(entries_of(key_values@), name@);
            }
            match find_item(key_values, name) {
                Some(i) => match &key_values[i].kind {
                    TomlValueKind::String(location) => Located::At(location.clone()),
                    _ => Located::NoText,
                },
                None => Located::Absent,
            }
        },
        _ => Located::NoTable,
    }
}

/// Gives the workspace `name` the location `location`, where the table
/// `workspaces` has that name with a text as its value; else the document
/// stays as it is.
pub fn relocate_workspace(toml: &mut Toml, name: &String, location: String)
    ensures
        final(toml)@ == match workspace_entries(old(toml)@) {
            Some(entries) => with_workspaces(old(toml)@, relocated(entries, name@, location@)),
            None => old(toml)@,
        },
{
    proof {
        lemma_index_of(toml@, "workspaces"@);
    }
    let target: Option<usize> = match toml.get("workspaces") {
        Some(TomlValueKind::Table(key_values)) => {
            proof {
                lemma_table_view(*key_values);
                lemma_index_of(entries_of(key_values@), name@);
            }
            match find_item(key_values, name) {
                Some(i) => match &key_values[i].kind {
                    TomlValueKind::String(_) => Some(i),
                    _ => None,
                },
                None => None,
            }
        },
        _ => None,
    };
    match target {
        Some(i) => {
            match toml.get_mut("workspaces") {
                Some(TomlValueKind::Table(key_values)) => {
                    let key = key_values[i].key.clone();
                    key_values.set(i, TomlValue { key, kind: TomlValueKind::String(location) });
                },
                _ => {},
            }
            proof {
                let at = index_of(old(toml)@, "workspaces"@)->0;
                let before = old(toml).data@[at].kind->Table_0;
                let after = toml.data@[at].kind->Table_0;
                lemma_table_view(before);
                lemma_table_view(after);
                assert(entries_of(after@) =~= relocated(entries_of(before@), name@, location@));
                assert(toml@ =~= with_workspaces(
                    old(toml)@,
                    relocated(entries_of(before@), name@, location@),
                ));
            }
        },
        None => {
            proof {
                match workspace_entries(old(toml)@) {
                    Some(entries) => {
                        assert(relocated(entries, name@, location@) == entries);
                        let at = index_of(old(toml)@, "workspaces"@)->0;
                        assert(toml@ =~= with_workspaces(old(toml)@, entries));
                    },
                    None => {},
                }
            }
        },
    }
}

/// `doc` with the text `name` as the value of its first entry named
/// `active_workspace`, where the value of that entry is a text; else `doc`
/// itself.
pub open spec fn activated(doc: Seq<Entry>, name: Seq<char>) -> Seq<Entry> {
    match lookup(doc, "active_workspace"@) {
        Some(Value::Text(_)) => doc.update(
            index_of(doc, "active_workspace"@)->0,
            Entry {
                key: doc[index_of(doc, "active_workspace"@)->0].key,
                value: Value::Text(name),
            },
        ),
        _ => doc,
    }
}

/// Makes `name` the active workspace, where the document has an entry
/// `active_workspace` whose value is a text; else the document stays as it
/// is.
pub fn activate_workspace(toml: &mut Toml, name: String)
    ensures
        final(toml)@ == activated(old(toml)@, name@),
{
    proof {
        lemma_index_of(toml@, "active_workspace"@);
    }
    match toml.get_mut("active_workspace") {
        Some(TomlValueKind::String(value)) => {
            *value = name;
        },
        _ => {},
    }
    assert(toml@ =~= activated(old(toml)@, name@));
}

} // verus!

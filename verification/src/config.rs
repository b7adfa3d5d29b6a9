//! The configuration of commands that are started together.
use crate::path::{self, join_path, names_one_thing};
use crate::runtime::{NamedCommand, NamedView};
use crate::text::{
    self, chars_of, chars_trim, concat, concat3, copy_opt, copy_str, copy_strings, string_of,
};
use vstd::prelude::*;

verus! {

broadcast use text::lemma_views_push;

/// The name of the configuration of a project.
pub const PROJECT_CONFIG_FILE: &'static str = ".loggle.toml";

/// The name of the directory of configurations.
pub const CONFIG_DIR_NAME: &'static str = "loggle";

/// A configuration.
#[derive(Debug, PartialEq, Eq)]
pub struct StartConfig {
    pub root: String,
    pub source_fields: Vec<String>,
    pub commands: Vec<NamedCommand>,
}

/// What a configuration is.
pub struct ConfigView {
    pub root: Seq<char>,
    pub source_fields: Seq<Seq<char>>,
    pub commands: Seq<NamedView>,
}

impl View for StartConfig {
    type V = ConfigView;

    open spec fn view(&self) -> ConfigView {
        ConfigView {
            root: self.root@,
            source_fields: text::views(self.source_fields@),
            commands: text::views(self.commands@),
        }
    }
}

/// A configuration as it is written, its commands in the order of their names.
#[derive(Debug, PartialEq, Eq)]
pub struct RawConfig {
    pub root: Option<String>,
    pub source_fields: Vec<String>,
    pub commands: Option<Vec<RawCommand>>,
}

/// What a written configuration is.
pub struct RawView {
    pub root: Option<Seq<char>>,
    pub source_fields: Seq<Seq<char>>,
    pub commands: Option<Seq<RawCommandView>>,
}

impl View for RawConfig {
    type V = RawView;

    open spec fn view(&self) -> RawView {
        RawView {
            root: text::opt_view(self.root),
            source_fields: text::views(self.source_fields@),
            commands: match self.commands {
                Some(commands) => Some(text::views(commands@)),
                None => None,
            },
        }
    }
}

/// A command as it is written.
#[derive(Debug, PartialEq, Eq)]
pub struct RawCommand {
    pub name: String,
    pub command: Vec<String>,
}

/// What a written command is.
pub struct RawCommandView {
    pub name: Seq<char>,
    pub command: Seq<Seq<char>>,
}

impl View for RawCommand {
    type V = RawCommandView;

    open spec fn view(&self) -> RawCommandView {
        RawCommandView { name: self.name@, command: text::views(self.command@) }
    }
}

/// Where configurations may be.
#[derive(Debug, PartialEq, Eq)]
pub struct ConfigEnv {
    pub xdg_config_home: Option<String>,
    pub home: Option<String>,
}

/// A value, where it is more than nothing.
pub open spec fn non_empty(value: Option<Seq<char>>) -> Option<Seq<char>> {
    match value {
        Some(value) => if value.len() == 0 {
            None
        } else {
            Some(value)
        },
        None => None,
    }
}

fn drop_empty(value: Option<String>) -> (result: Option<String>)
    ensures
        text::opt_view(result) == non_empty(text::opt_view(value)),
{
    match value {
        Some(value) => if value.as_str().is_empty() {
            None
        } else {
            Some(value)
        },
        None => None,
    }
}

impl ConfigEnv {
    /// Where configurations may be, by what `XDG_CONFIG_HOME` and `HOME` are
    /// set to.
    pub fn from_env(xdg_config_home: Option<String>, home: Option<String>) -> (result: Self)
        ensures
            text::opt_view(result.xdg_config_home) == non_empty(text::opt_view(xdg_config_home)),
            text::opt_view(result.home) == non_empty(text::opt_view(home)),
    {
        ConfigEnv { xdg_config_home: drop_empty(xdg_config_home), home: drop_empty(home) }
    }
}

/// What is wrong with a configuration.
#[allow(inconsistent_fields)]
#[derive(Debug, PartialEq, Eq)]
pub enum ConfigError {
    InvalidName { name: String },
    MissingConfigDirectory,
    MissingFile(String),
    Read { path: String, reason: String },
    Parse { path: Option<String>, reason: String },
    Validation { path: Option<String>, message: String },
}

/// What an error of a configuration is.
#[allow(inconsistent_fields)]
pub enum ConfigErrorView {
    InvalidName { name: Seq<char> },
    MissingConfigDirectory,
    MissingFile(Seq<char>),
    Read { path: Seq<char>, reason: Seq<char> },
    Parse { path: Option<Seq<char>>, reason: Seq<char> },
    Validation { path: Option<Seq<char>>, message: Seq<char> },
}

impl View for ConfigError {
    type V = ConfigErrorView;

    open spec fn view(&self) -> ConfigErrorView {
        match self {
            ConfigError::InvalidName { name } => ConfigErrorView::InvalidName { name: name@ },
            ConfigError::MissingConfigDirectory => ConfigErrorView::MissingConfigDirectory,
            ConfigError::MissingFile(path) => ConfigErrorView::MissingFile(path@),
            ConfigError::Read { path, reason } => ConfigErrorView::Read {
                path: path@,
                reason: reason@,
            },
            ConfigError::Parse { path, reason } => ConfigErrorView::Parse {
                path: text::opt_view(*path),
                reason: reason@,
            },
            ConfigError::Validation { path, message } => ConfigErrorView::Validation {
                path: text::opt_view(*path),
                message: message@,
            },
        }
    }
}

/// A message about a file, or about no file.
pub open spec fn about(head: Seq<char>, path: Option<Seq<char>>, message: Seq<char>) -> Seq<char> {
    match path {
        Some(path) => head + " "@ + path + ": "@ + message,
        None => head + ": "@ + message,
    }
}

impl ConfigErrorView {
    /// The error in words.
    pub open spec fn message(self) -> Seq<char> {
        match self {
            ConfigErrorView::InvalidName { name } => "invalid config name '"@ + name
                + "': named configs must be simple names without path separators"@,
            ConfigErrorView::MissingConfigDirectory => {
                "could not resolve config directory: set XDG_CONFIG_HOME or HOME"@
            },
            ConfigErrorView::MissingFile(path) => "config file not found: "@ + path,
            ConfigErrorView::Read { path, reason } => about(
                "failed to read config"@,
                Some(path),
                reason,
            ),
            ConfigErrorView::Parse { path, reason } => about(
                "failed to parse config"@,
                path,
                reason,
            ),
            ConfigErrorView::Validation { path, message } => about(
                "invalid config"@,
                path,
                message,
            ),
        }
    }
}

fn message_about(head: &str, path: Option<&String>, message: &str) -> (result: String)
    ensures
        result@ == about(
            head@,
            match path {
                Some(path) => Some(path@),
                None => None,
            },
            message@,
        ),
{
    match path {
        Some(path) => {
            let head = concat3(head, " ", path.as_str());
            concat3(head.as_str(), ": ", message)
        },
        None => concat3(head, ": ", message),
    }
}

impl ConfigError {
    /// The error in words.
    pub fn message(&self) -> (result: String)
        ensures
            result@ == self@.message(),
    {
        match self {
            ConfigError::InvalidName { name } => concat3(
                "invalid config name '",
                name.as_str(),
                "': named configs must be simple names without path separators",
            ),
            ConfigError::MissingConfigDirectory => copy_str(
                "could not resolve config directory: set XDG_CONFIG_HOME or HOME",
            ),
            ConfigError::MissingFile(path) => concat("config file not found: ", path.as_str()),
            ConfigError::Read { path, reason } => message_about(
                "failed to read config",
                Some(path),
                reason.as_str(),
            ),
            ConfigError::Parse { path, reason } => message_about(
                "failed to parse config",
                path.as_ref(),
                reason.as_str(),
            ),
            ConfigError::Validation { path, message } => message_about(
                "invalid config",
                path.as_ref(),
                message.as_str(),
            ),
        }
    }
}

// ---------------------------------------------------------------------------
// Where a configuration is
// ---------------------------------------------------------------------------

/// Where a named configuration is.
pub open spec fn named_path(
    name: Seq<char>,
    xdg_config_home: Option<Seq<char>>,
    home: Option<Seq<char>>,
) -> Result<Seq<char>, ConfigErrorView> {
    let name = text::trim(name);
    let file = name + ".toml"@;
    if !path::is_simple_name(name) {
        Err(ConfigErrorView::InvalidName { name })
    } else {
        match (non_empty(xdg_config_home), non_empty(home)) {
            (Some(base), _) => Ok(path::joined(path::joined(base, CONFIG_DIR_NAME@), file)),
            (None, Some(base)) => Ok(
                path::joined(path::joined(path::joined(base, ".config"@), CONFIG_DIR_NAME@), file),
            ),
            (None, None) => Err(ConfigErrorView::MissingConfigDirectory),
        }
    }
}

/// Where the configuration of a project is.
pub fn project_config_path(current_dir: &str) -> (result: String)
    ensures
        result@ == path::joined(current_dir@, PROJECT_CONFIG_FILE@),
{
    join_path(current_dir, PROJECT_CONFIG_FILE)
}

/// Where a named configuration is.
pub fn named_config_path(name: &str, config_env: &ConfigEnv) -> (result: Result<
    String,
    ConfigError,
>)
    ensures
        match result {
            Ok(path) => named_path(
                name@,
                text::opt_view(config_env.xdg_config_home),
                text::opt_view(config_env.home),
            ) == Ok::<Seq<char>, ConfigErrorView>(path@),
            Err(error) => named_path(
                name@,
                text::opt_view(config_env.xdg_config_home),
                text::opt_view(config_env.home),
            ) == Err::<Seq<char>, ConfigErrorView>(error@),
        },
{
    let chars = chars_of(name);
    let name = string_of(chars_trim(chars.as_slice()));
    if !names_one_thing(name.as_str()) {
        return Err(ConfigError::InvalidName { name });
    }
    let file_name = concat(name.as_str(), ".toml");
    match drop_empty(copy_opt(&config_env.xdg_config_home)) {
        Some(base) => {
            let dir = join_path(base.as_str(), CONFIG_DIR_NAME);
            return Ok(join_path(dir.as_str(), file_name.as_str()));
        },
        None => {},
    }
    match drop_empty(copy_opt(&config_env.home)) {
        Some(base) => {
            let dir = join_path(base.as_str(), ".config");
            let dir = join_path(dir.as_str(), CONFIG_DIR_NAME);
            Ok(join_path(dir.as_str(), file_name.as_str()))
        },
        None => Err(ConfigError::MissingConfigDirectory),
    }
}

// ---------------------------------------------------------------------------
// What a configuration says
// ---------------------------------------------------------------------------

/// Whether some text is only space.
pub open spec fn is_blank(value: Seq<char>) -> bool {
    text::trim(value).len() == 0
}

/// What is wrong with a command, if anything.
pub open spec fn command_error(command: RawCommandView) -> Option<Seq<char>> {
    let name = text::trim(command.name);
    if name.len() == 0 {
        Some("command names must not be empty"@)
    } else if command.command.len() == 0 {
        Some("command '"@ + name + "' must not be empty"@)
    } else if is_blank(command.command[0]) {
        Some("command '"@ + name + "' executable must not be empty"@)
    } else {
        None
    }
}

/// What is wrong with the first of some commands that something is wrong with.
pub open spec fn commands_error(commands: Seq<RawCommandView>) -> Option<Seq<char>>
    decreases commands.len(),
{
    if commands.len() == 0 {
        None
    } else {
        match command_error(commands[0]) {
            Some(message) => Some(message),
            None => commands_error(commands.drop_first()),
        }
    }
}

/// Whether some of some texts are only space.
pub open spec fn has_blank(values: Seq<Seq<char>>) -> bool {
    exists|i: int| 0 <= i < values.len() && is_blank(#[trigger] values[i])
}

/// What is wrong with a configuration, if anything.
pub open spec fn config_error(raw: RawView) -> Option<Seq<char>> {
    match raw.root {
        None => Some("missing required field `root`"@),
        Some(root) => if root.len() == 0 {
            Some("`root` must not be empty"@)
        } else if has_blank(raw.source_fields) {
            Some("`source_fields` must not contain empty field names"@)
        } else {
            match raw.commands {
                None => Some("missing required table `[commands]`"@),
                Some(commands) => if commands.len() == 0 {
                    Some("`[commands]` must include at least one command"@)
                } else {
                    commands_error(commands)
                },
            }
        },
    }
}

/// Texts without the space around them.
pub open spec fn all_trimmed(values: Seq<Seq<char>>) -> Seq<Seq<char>> {
    Seq::new(values.len(), |i: int| text::trim(values[i]))
}

/// The commands of a configuration, each in its root.
pub open spec fn rooted(commands: Seq<RawCommandView>, root: Seq<char>) -> Seq<NamedView> {
    Seq::new(
        commands.len(),
        |i: int|
            NamedView {
                name: text::trim(commands[i].name),
                command: commands[i].command,
                cwd: Some(root),
            },
    )
}

/// What a configuration says.
pub open spec fn config_of(
    root: Seq<char>,
    source_fields: Seq<Seq<char>>,
    commands: Seq<RawCommandView>,
) -> ConfigView {
    ConfigView {
        root,
        source_fields: all_trimmed(source_fields),
        commands: rooted(commands, root),
    }
}

fn trimmed(value: &str) -> (result: String)
    ensures
        result@ == text::trim(value@),
{
    let chars = chars_of(value);
    string_of(chars_trim(chars.as_slice()))
}

fn trim_fields(fields: &Vec<String>) -> (result: Option<Vec<String>>)
    ensures
        match result {
            Some(trimmed) => !has_blank(text::views(fields@)) && text::views(trimmed@)
                == all_trimmed(text::views(fields@)),
            None => has_blank(text::views(fields@)),
        },
{
    let ghost all = text::views(fields@);
    let mut result: Vec<String> = Vec::new();
    let mut i: usize = 0;
    assert(text::views(result@) =~= all_trimmed(all).take(0));
    while i < fields.len()
        invariant
            i <= fields@.len(),
            all == text::views(fields@),
            forall|j: int| 0 <= j < i ==> !is_blank(#[trigger] all[j]),
            text::views(result@) == all_trimmed(all).take(i as int),
        decreases fields@.len() - i,
    {
        let field = trimmed(fields[i].as_str());
        if field.as_str().is_empty() {
            assert(is_blank(all[i as int]));
            return None;
        }
        result.push(field);
        assert(all_trimmed(all).take(i + 1) =~= all_trimmed(all).take(i as int).push(
            all_trimmed(all)[i as int],
        ));
        i += 1;
    }
    assert(all_trimmed(all).take(i as int) =~= all_trimmed(all));
    Some(result)
}

fn root_commands(commands: &Vec<RawCommand>, root: &str) -> (result: Result<
    Vec<NamedCommand>,
    String,
>)
    ensures
        match result {
            Ok(named) => commands_error(text::views(commands@)) is None && text::views(named@)
                == rooted(text::views(commands@), root@),
            Err(message) => commands_error(text::views(commands@)) == Some(message@),
        },
{
    let ghost all = text::views(commands@);
    let mut result: Vec<NamedCommand> = Vec::new();
    let mut i: usize = 0;
    assert(text::views(result@) =~= rooted(all, root@).take(0));
    assert(all.skip(0) =~= all);
    while i < commands.len()
        invariant
            i <= commands@.len(),
            all == text::views(commands@),
            commands_error(all) == commands_error(all.skip(i as int)),
            text::views(result@) == rooted(all, root@).take(i as int),
        decreases commands@.len() - i,
    {
        let raw = &commands[i];
        assert(all.skip(i as int)[0] == raw@);
        assert(raw@.command.len() == raw.command@.len());
        let name = trimmed(raw.name.as_str());
        if name.as_str().is_empty() {
            return Err(copy_str("command names must not be empty"));
        }
        if raw.command.len() == 0 {
            return Err(concat3("command '", name.as_str(), "' must not be empty"));
        }
        if trimmed(raw.command[0].as_str()).as_str().is_empty() {
            return Err(
                concat3("command '", name.as_str(), "' executable must not be empty"),
            );
        }
        result.push(
            NamedCommand {
                name,
                command: copy_strings(&raw.command),
                cwd: Some(copy_str(root)),
            },
        );
        assert(all.skip(i as int).drop_first() =~= all.skip(i + 1));
        assert(rooted(all, root@).take(i + 1) =~= rooted(all, root@).take(i as int).push(
            rooted(all, root@)[i as int],
        ));
        i += 1;
    }
    assert(rooted(all, root@).take(i as int) =~= rooted(all, root@));
    Ok(result)
}

fn validation_error(path: Option<String>, message: &str) -> (result: ConfigError)
    ensures
        result@ == (ConfigErrorView::Validation {
            path: text::opt_view(path),
            message: message@,
        }),
{
    ConfigError::Validation { path, message: copy_str(message) }
}

/// What a written configuration says, where nothing is wrong with it.
pub fn validate_config(raw: RawConfig, path: Option<String>) -> (result: Result<
    StartConfig,
    ConfigError,
>)
    ensures
        match result {
            Ok(config) => {
                &&& config_error(raw@) is None
                &&& config@ == config_of(raw@.root->0, raw@.source_fields, raw@.commands->0)
            },
            Err(error) => {
                &&& config_error(raw@) is Some
                &&& error@ == (ConfigErrorView::Validation {
                    path: text::opt_view(path),
                    message: config_error(raw@)->0,
                })
            },
        },
{
    let root = match raw.root {
        Some(root) => root,
        None => {
            return Err(validation_error(path, "missing required field `root`"));
        },
    };
    if root.as_str().is_empty() {
        return Err(validation_error(path, "`root` must not be empty"));
    }
    let source_fields = match trim_fields(&raw.source_fields) {
        Some(fields) => fields,
        None => {
            return Err(
                validation_error(path, "`source_fields` must not contain empty field names"),
            );
        },
    };
    let commands = match &raw.commands {
        Some(commands) => commands,
        None => {
            return Err(validation_error(path, "missing required table `[commands]`"));
        },
    };
    assert(raw@.commands->0.len() == commands@.len());
    if commands.len() == 0 {
        return Err(validation_error(path, "`[commands]` must include at least one command"));
    }
    match root_commands(commands, root.as_str()) {
        Ok(commands) => Ok(StartConfig { root, source_fields, commands }),
        Err(message) => Err(ConfigError::Validation { path, message }),
    }
}

/// What a written configuration that is in no file says.
pub fn parse_config(raw: RawConfig) -> (result: Result<StartConfig, ConfigError>)
    ensures
        match result {
            Ok(config) => {
                &&& config_error(raw@) is None
                &&& config@ == config_of(raw@.root->0, raw@.source_fields, raw@.commands->0)
            },
            Err(error) => {
                &&& config_error(raw@) is Some
                &&& error@ == (ConfigErrorView::Validation {
                    path: None,
                    message: config_error(raw@)->0,
                })
            },
        },
{
    validate_config(raw, None)
}

// ---------------------------------------------------------------------------
// Laws
// ---------------------------------------------------------------------------

proof fn lemma_commands(commands: Seq<RawCommandView>, i: int)
    requires
        commands_error(commands) is None,
        0 <= i < commands.len(),
    ensures
        command_error(commands[i]) is None,
    decreases commands.len(),
{
    if i > 0 {
        lemma_commands(commands.drop_first(), i - 1);
    }
}

/// In a configuration that is taken there is a command, each has a name and
/// something to run, and each runs in the root.
pub proof fn law_config_can_be_run(raw: RawView, i: int)
    requires
        config_error(raw) is None,
        0 <= i < raw.commands->0.len(),
    ensures
        ({
            let command = config_of(raw.root->0, raw.source_fields, raw.commands->0).commands[i];
            &&& command.name.len() > 0
            &&& command.command.len() > 0
            &&& !is_blank(command.command[0])
            &&& command.cwd == raw.root
        }),
{
    lemma_commands(raw.commands->0, i);
}

} // verus!

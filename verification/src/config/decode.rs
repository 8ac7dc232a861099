//! Decodes a configuration from the values of a configuration document.
//!
//! A command is a string of words that single spaces separate, a list of
//! strings, or a table with the key `command` (a string or a list) and the
//! optional keys `user` (a string) and `env-vars` (a list of strings). A
//! process is a table with the key `name` and the optional keys `pre`, `run`,
//! `post` (commands) and `stop` (the name of a signal, or a command). The
//! document is a table whose key `processes` holds the array of processes.

use vstd::prelude::*;

use crate::config::command::{
    option_view, split_spaces, CommandConfig, CommandLine, CommandSpec,
    CommandSpecView, DetailedCommandLine,
};
use crate::config::process::{
    command_view, ProcessConfig, ProcessConfigView, StopMechanism, StopMechanismView,
};
use crate::config::signal::SignalConfig;
use crate::config::{first_duplicate, names_of, spec_first_duplicate, strings_view, Config};
use crate::config::value::{all_strings, get, spec_get, spec_strings, strings, Value};

verus! {

/// Why a value is no command.
#[derive(Copy, Clone, Debug, PartialEq, Eq, Structural)]
pub enum CommandDecodeError {
    /// The value is neither a string, a list nor a table; or the `command`
    /// of a table is neither a string nor a list; or `env-vars` is no list.
    WrongType,
    /// The command names no program: its first word is empty, or it is an
    /// empty list.
    EmptyCommand,
    /// A word of a list, the user, or an allowed variable is no string.
    NotAString,
    /// The table has no key `command`.
    MissingCommand,
    /// The table has a key that is not known: the place of its first such
    /// entry.
    UnknownKey(usize),
}

/// The keys of one kind of table.
#[derive(Copy, Clone, Debug, PartialEq, Eq, Structural)]
pub enum KeySet {
    /// `command`, `user`, `env-vars`.
    Command,
    /// `name`, `pre`, `run`, `stop`, `post`.
    Process,
}

impl KeySet {
    /// The key is one of the set.
    pub open spec fn spec_known(self, key: Seq<char>) -> bool {
        match self {
            KeySet::Command => key == "command"@ || key == "user"@ || key == "env-vars"@,
            KeySet::Process => key == "name"@ || key == "pre"@ || key == "run"@ || key == "stop"@
                || key == "post"@,
        }
    }

    /// Whether the key is one of the set.
    pub fn known(self, key: &String) -> (known: bool)
        ensures
            known == self.spec_known(key@),
    {
        match self {
            KeySet::Command => *key == "command".to_owned() || *key == "user".to_owned() || *key
                == "env-vars".to_owned(),
            KeySet::Process => *key == "name".to_owned() || *key == "pre".to_owned() || *key
                == "run".to_owned() || *key == "stop".to_owned() || *key == "post".to_owned(),
        }
    }
}

/// The place of the first entry whose key is not of the set, if there is
/// one.
pub open spec fn spec_first_unknown(entries: Seq<(String, Value)>, keys: KeySet) -> Option<int>
    decreases entries.len(),
{
    if entries.len() == 0 {
        None
    } else if keys.spec_known(entries.last().0@) {
        spec_first_unknown(entries.drop_last(), keys)
    } else {
        match spec_first_unknown(entries.drop_last(), keys) {
            Some(k) => Some(k),
            None => Some(entries.len() - 1),
        }
    }
}

/// The first unknown key is unknown, and every key before it is known.
pub proof fn law_first_unknown(entries: Seq<(String, Value)>, keys: KeySet)
    ensures
        match spec_first_unknown(entries, keys) {
            Some(k) => 0 <= k < entries.len() && !keys.spec_known(entries[k].0@) && forall|j: int|
                0 <= j < k ==> keys.spec_known(#[trigger] entries[j].0@),
            None => forall|j: int|
                0 <= j < entries.len() ==> keys.spec_known(#[trigger] entries[j].0@),
        },
    decreases entries.len(),
{
    if entries.len() > 0 {
        let head = entries.drop_last();
        law_first_unknown(head, keys);
        assert forall|j: int| 0 <= j < head.len() implies head[j] == entries[j] by {}
        match spec_first_unknown(head, keys) {
            Some(k) => {
                assert forall|j: int| 0 <= j < k implies keys.spec_known(
                    #[trigger] entries[j].0@,
                ) by {
                    assert(keys.spec_known(head[j].0@));
                }
            },
            None => {
                assert forall|j: int| 0 <= j < head.len() implies keys.spec_known(
                    #[trigger] entries[j].0@,
                ) by {
                    assert(keys.spec_known(head[j].0@));
                }
            },
        }
    }
}

/// The place of the first entry whose key is not of the set, if there is
/// one.
pub fn first_unknown(entries: &Vec<(String, Value)>, keys: KeySet) -> (r: Option<usize>)
    ensures
        match r {
            Some(k) => spec_first_unknown(entries@, keys) == Some(k as int),
            None => spec_first_unknown(entries@, keys) is None,
        },
{
    let mut i: usize = 0;
    while i < entries.len()
        invariant
            i <= entries.len(),
            spec_first_unknown(entries@.take(i as int), keys) is None,
        decreases entries.len() - i,
    {
        proof {
            assert(entries@.take(i + 1).drop_last() =~= entries@.take(i as int));
            assert(entries@.take(i + 1).last() == entries@[i as int]);
        }
        if !keys.known(&entries[i].0) {
            proof {
                lemma_first_unknown_extends(entries@, keys, i + 1);
            }
            return Some(i);
        }
        i += 1;
    }
    proof {
        assert(entries@.take(i as int) =~= entries@);
    }
    None
}

/// An unknown key among the first `k` entries is the first unknown key of
/// all.
proof fn lemma_first_unknown_extends(entries: Seq<(String, Value)>, keys: KeySet, k: int)
    requires
        0 <= k <= entries.len(),
        spec_first_unknown(entries.take(k), keys) is Some,
    ensures
        spec_first_unknown(entries, keys) == spec_first_unknown(entries.take(k), keys),
    decreases entries.len() - k,
{
    if k == entries.len() {
        assert(entries.take(k) =~= entries);
    } else {
        assert(entries.take(k + 1).drop_last() =~= entries.take(k));
        lemma_first_unknown_extends(entries, keys, k + 1);
    }
}

/// The words of a command line: those of a string, or the strings of a
/// list.
pub open spec fn spec_words(value: Value) -> Result<Seq<Seq<char>>, CommandDecodeError> {
    match value {
        Value::String(line) => Ok(split_spaces(line@)),
        Value::Array(items) => if all_strings(items@) {
            Ok(spec_strings(items@))
        } else {
            Err(CommandDecodeError::NotAString)
        },
        _ => Err(CommandDecodeError::WrongType),
    }
}

/// The command line that a value is.
pub fn command_line(value: &Value) -> (r: Result<CommandLine, CommandDecodeError>)
    ensures
        match spec_words(*value) {
            Ok(words) => r matches Ok(line) && line.words() == words,
            Err(error) => r == Err::<CommandLine, CommandDecodeError>(error),
        },
{
    match value {
        Value::String(line) => Ok(CommandLine::CommandString(line.clone())),
        Value::Array(items) => match strings(items) {
            Some(words) => Ok(CommandLine::CommandVector(words)),
            None => Err(CommandDecodeError::NotAString),
        },
        _ => Err(CommandDecodeError::WrongType),
    }
}

/// The strings without those that have occurred before.
pub open spec fn spec_dedup(strings: Seq<Seq<char>>) -> Seq<Seq<char>>
    decreases strings.len(),
{
    if strings.len() == 0 {
        Seq::empty()
    } else if spec_dedup(strings.drop_last()).contains(strings.last()) {
        spec_dedup(strings.drop_last())
    } else {
        spec_dedup(strings.drop_last()).push(strings.last())
    }
}

/// What is kept of the strings: each of them that occurs, once.
pub proof fn law_dedup(strings: Seq<Seq<char>>)
    ensures
        forall|s: Seq<char>| spec_dedup(strings).contains(s) <==> strings.contains(s),
        forall|i: int, j: int|
            0 <= i < j < spec_dedup(strings).len() ==> spec_dedup(strings)[i] != spec_dedup(
                strings,
            )[j],
    decreases strings.len(),
{
    let kept = spec_dedup(strings);
    if strings.len() > 0 {
        let head = strings.drop_last();
        let last = strings.last();
        let before = spec_dedup(head);
        law_dedup(head);
        assert forall|s: Seq<char>| kept.contains(s) <==> strings.contains(s) by {
            if strings.contains(s) {
                let i = choose|i: int| 0 <= i < strings.len() && strings[i] == s;
                if i < head.len() {
                    assert(head[i] == s);
                    assert(head.contains(s));
                    assert(before.contains(s));
                    let k = choose|k: int| 0 <= k < before.len() && before[k] == s;
                    assert(kept[k] == s);
                } else if before.contains(last) {
                } else {
                    assert(kept[kept.len() - 1] == s);
                }
            }
            if kept.contains(s) {
                let k = choose|k: int| 0 <= k < kept.len() && kept[k] == s;
                if k < before.len() {
                    assert(before[k] == s);
                    assert(before.contains(s));
                    assert(head.contains(s));
                    let i = choose|i: int| 0 <= i < head.len() && head[i] == s;
                    assert(strings[i] == s);
                } else {
                    assert(strings[strings.len() - 1] == s);
                }
            }
        }
        assert forall|i: int, j: int| 0 <= i < j < kept.len() implies kept[i] != kept[j] by {
            if j < before.len() {
                assert(before[i] != before[j]);
            } else {
                assert(before[i] == kept[i]);
                assert(before.contains(before[i]));
            }
        }
    } else {
        assert forall|s: Seq<char>| kept.contains(s) <==> strings.contains(s) by {}
    }
}

/// Whether one of the strings is equal to `wanted`.
pub fn contains_string(strings: &Vec<String>, wanted: &String) -> (found: bool)
    ensures
        found == strings_view(strings@).contains(wanted@),
{
    let mut i: usize = 0;
    while i < strings.len()
        invariant
            i <= strings.len(),
            forall|j: int| 0 <= j < i ==> strings@[j]@ != wanted@,
        decreases strings.len() - i,
    {
        if strings[i] == *wanted {
            proof {
                assert(strings_view(strings@)[i as int] == wanted@);
            }
            return true;
        }
        i += 1;
    }
    proof {
        let all = strings_view(strings@);
        assert forall|j: int| 0 <= j < all.len() implies all[j] != wanted@ by {
            assert(all[j] == strings@[j]@);
        }
    }
    false
}

/// Drops each string that has occurred before.
pub fn dedup(strings: &Vec<String>) -> (kept: Vec<String>)
    ensures
        strings_view(kept@) == spec_dedup(strings_view(strings@)),
{
    let ghost all = strings_view(strings@);
    let mut kept: Vec<String> = Vec::new();
    let mut i: usize = 0;
    proof {
        assert(strings_view(kept@) =~= spec_dedup(all.take(0)));
    }
    while i < strings.len()
        invariant
            i <= strings.len(),
            all == strings_view(strings@),
            strings_view(kept@) == spec_dedup(all.take(i as int)),
        decreases strings.len() - i,
    {
        proof {
            assert(all.take(i + 1).drop_last() =~= all.take(i as int));
            assert(all.take(i + 1).last() == strings@[i as int]@);
        }
        if !contains_string(&kept, &strings[i]) {
            let ghost before = kept@;
            kept.push(strings[i].clone());
            proof {
                assert(strings_view(kept@) =~= strings_view(before).push(strings@[i as int]@));
            }
        }
        i += 1;
    }
    proof {
        assert(all.take(i as int) =~= all);
    }
    kept
}

/// What a value says of a command: its words, its user, and the variables
/// that it may inherit.
pub struct CommandParts {
    pub words: Seq<Seq<char>>,
    pub user: Option<Seq<char>>,
    pub env_vars: Seq<Seq<char>>,
}

/// The user of a command table: a string, where the key is there.
pub open spec fn spec_user_of(value: Option<Value>) -> Result<Option<Seq<char>>, CommandDecodeError> {
    match value {
        None => Ok(None),
        Some(Value::String(user)) => Ok(Some(user@)),
        Some(_) => Err(CommandDecodeError::NotAString),
    }
}

/// The allowed variables of a command table: a list of strings, where the
/// key is there.
pub open spec fn spec_env_vars_of(value: Option<Value>) -> Result<
    Seq<Seq<char>>,
    CommandDecodeError,
> {
    match value {
        None => Ok(Seq::empty()),
        Some(Value::Array(items)) => if all_strings(items@) {
            Ok(spec_strings(items@))
        } else {
            Err(CommandDecodeError::NotAString)
        },
        Some(_) => Err(CommandDecodeError::WrongType),
    }
}

/// What a value says of a command. A table may hold no key but `command`,
/// `user` and `env-vars`, and has to hold `command`.
pub open spec fn spec_command_parts(value: Value) -> Result<CommandParts, CommandDecodeError> {
    match value {
        Value::Table(entries) => match spec_first_unknown(entries@, KeySet::Command) {
            Some(k) => Err(CommandDecodeError::UnknownKey(k as usize)),
            None => match spec_get(entries@, "command"@) {
                None => Err(CommandDecodeError::MissingCommand),
                Some(command) => match spec_words(command) {
                    Err(error) => Err(error),
                    Ok(words) => match spec_user_of(spec_get(entries@, "user"@)) {
                        Err(error) => Err(error),
                        Ok(user) => match spec_env_vars_of(spec_get(entries@, "env-vars"@)) {
                            Err(error) => Err(error),
                            Ok(env_vars) => Ok(CommandParts { words, user, env_vars }),
                        },
                    },
                },
            },
        },
        _ => match spec_words(value) {
            Err(error) => Err(error),
            Ok(words) => Ok(CommandParts { words, user: None, env_vars: Seq::empty() }),
        },
    }
}

/// What a command configuration says of a command.
pub open spec fn parts_of(config: CommandConfig) -> CommandParts {
    match config {
        CommandConfig::Simple(line) => CommandParts {
            words: line.words(),
            user: None,
            env_vars: Seq::empty(),
        },
        CommandConfig::Detailed(detailed) => CommandParts {
            words: detailed.command.words(),
            user: option_view(detailed.user),
            env_vars: strings_view(detailed.env_vars@),
        },
    }
}

/// The command configuration that a value is.
pub fn command_config(value: &Value) -> (r: Result<CommandConfig, CommandDecodeError>)
    ensures
        match spec_command_parts(*value) {
            Ok(parts) => r matches Ok(config) && parts_of(config) == parts,
            Err(error) => r == Err::<CommandConfig, CommandDecodeError>(error),
        },
{
    match value {
        Value::Table(entries) => {
            match first_unknown(entries, KeySet::Command) {
                Some(k) => {
                    return Err(CommandDecodeError::UnknownKey(k));
                },
                None => {},
            }
            let command = match get(entries, "command") {
                None => {
                    return Err(CommandDecodeError::MissingCommand);
                },
                Some(command) => match command_line(command) {
                    Err(error) => {
                        return Err(error);
                    },
                    Ok(line) => line,
                },
            };
            let user = match get(entries, "user") {
                None => None,
                Some(Value::String(user)) => Some(user.clone()),
                Some(_) => {
                    return Err(CommandDecodeError::NotAString);
                },
            };
            let env_vars = match get(entries, "env-vars") {
                None => {
                    let none: Vec<String> = Vec::new();
                    proof {
                        assert(strings_view(none@) =~= Seq::empty());
                    }
                    none
                },
                Some(Value::Array(items)) => match strings(items) {
                    Some(names) => names,
                    None => {
                        return Err(CommandDecodeError::NotAString);
                    },
                },
                Some(_) => {
                    return Err(CommandDecodeError::WrongType);
                },
            };
            Ok(CommandConfig::Detailed(DetailedCommandLine { user, env_vars, command }))
        },
        _ => match command_line(value) {
            Err(error) => Err(error),
            Ok(line) => Ok(CommandConfig::Simple(line)),
        },
    }
}

/// The command that a value is: its first word is the program, which may
/// not be empty; the other words are the arguments. Of the allowed
/// variables, each is kept once.
pub open spec fn spec_decode_command(value: Value) -> Result<CommandSpecView, CommandDecodeError> {
    match spec_command_parts(value) {
        Err(error) => Err(error),
        Ok(parts) => if parts.words.len() == 0 || parts.words[0].len() == 0 {
            Err(CommandDecodeError::EmptyCommand)
        } else {
            Ok(
                CommandSpecView {
                    user: parts.user,
                    env_vars: spec_dedup(parts.env_vars),
                    program: parts.words[0],
                    args: parts.words.skip(1),
                },
            )
        },
    }
}

/// The view of a result.
pub open spec fn decoded_command_view(r: Result<CommandSpec, CommandDecodeError>) -> Result<
    CommandSpecView,
    CommandDecodeError,
> {
    match r {
        Ok(command) => Ok(command@),
        Err(error) => Err(error),
    }
}

/// Decodes a command.
pub fn decode_command(value: &Value) -> (r: Result<CommandSpec, CommandDecodeError>)
    ensures
        decoded_command_view(r) == spec_decode_command(*value),
        r matches Ok(command) ==> command.wf(),
{
    let config = match command_config(value) {
        Err(error) => {
            return Err(error);
        },
        Ok(config) => config,
    };
    let named = match &config {
        CommandConfig::Simple(CommandLine::CommandVector(words)) => words.len() > 0,
        CommandConfig::Detailed(
            DetailedCommandLine { command: CommandLine::CommandVector(words), .. },
        ) => words.len() > 0,
        _ => true,
    };
    if !named {
        return Err(CommandDecodeError::EmptyCommand);
    }
    let decoded = CommandSpec::from(config);
    if decoded.program.as_str().unicode_len() == 0 {
        return Err(CommandDecodeError::EmptyCommand);
    }
    let env_vars = dedup(&decoded.env_vars);
    Ok(CommandSpec { user: decoded.user, env_vars, program: decoded.program, args: decoded.args })
}

/// The command slots of a process.
#[derive(Copy, Clone, Debug, PartialEq, Eq, Structural)]
pub enum Slot {
    Pre,
    Run,
    Stop,
    Post,
}

/// Why a value is no process.
#[derive(Copy, Clone, Debug, PartialEq, Eq, Structural)]
pub enum ProcessDecodeError {
    /// The value is no table.
    NotATable,
    /// The table has a key that is not known: the place of its first such
    /// entry.
    UnknownKey(usize),
    /// The table has no key `name`.
    MissingName,
    /// The name is no string, or is empty.
    InvalidName,
    /// The value of a command slot is no command.
    Command(Slot, CommandDecodeError),
}

/// Why a value is no configuration.
#[derive(Copy, Clone, Debug, PartialEq, Eq, Structural)]
pub enum DecodeError {
    /// The document is no table.
    NotATable,
    /// The document has no key `processes`.
    MissingProcesses,
    /// `processes` is no array.
    ProcessesNotAnArray,
    /// The value at this place of `processes` is no process.
    Process(usize, ProcessDecodeError),
    /// The process at this place is named like one before it.
    DuplicateName(usize),
}

/// The command of an optional slot.
pub open spec fn spec_decode_slot(value: Option<Value>, slot: Slot) -> Result<
    Option<CommandSpecView>,
    ProcessDecodeError,
> {
    match value {
        None => Ok(None),
        Some(value) => match spec_decode_command(value) {
            Ok(command) => Ok(Some(command)),
            Err(error) => Err(ProcessDecodeError::Command(slot, error)),
        },
    }
}

/// The view of a result.
pub open spec fn decoded_slot_view(r: Result<Option<CommandSpec>, ProcessDecodeError>) -> Result<
    Option<CommandSpecView>,
    ProcessDecodeError,
> {
    match r {
        Ok(command) => Ok(command_view(command)),
        Err(error) => Err(error),
    }
}

/// Decodes the command of an optional slot.
pub fn decode_slot(value: Option<&Value>, slot: Slot) -> (r: Result<
    Option<CommandSpec>,
    ProcessDecodeError,
>)
    ensures
        decoded_slot_view(r) == spec_decode_slot(
            match value {
                Some(value) => Some(*value),
                None => None,
            },
            slot,
        ),
{
    match value {
        None => Ok(None),
        Some(value) => match decode_command(value) {
            Ok(command) => Ok(Some(command)),
            Err(error) => Err(ProcessDecodeError::Command(slot, error)),
        },
    }
}

/// The stop mechanism that a value is: the signal that a string names;
/// else the command that the value is. Without a value it is `SIGTERM`.
pub open spec fn spec_decode_stop(value: Option<Value>) -> Result<
    StopMechanismView,
    ProcessDecodeError,
> {
    match value {
        None => Ok(StopMechanismView::Signal(SignalConfig::SIGTERM)),
        Some(value) => if value is String && SignalConfig::spec_from_name(value->String_0@)
            is Some {
            Ok(StopMechanismView::Signal(SignalConfig::spec_from_name(value->String_0@)->0))
        } else {
            match spec_decode_command(value) {
                Ok(command) => Ok(StopMechanismView::Command(command)),
                Err(error) => Err(ProcessDecodeError::Command(Slot::Stop, error)),
            }
        },
    }
}

/// The view of a result.
pub open spec fn decoded_stop_view(r: Result<StopMechanism, ProcessDecodeError>) -> Result<
    StopMechanismView,
    ProcessDecodeError,
> {
    match r {
        Ok(stop) => Ok(stop@),
        Err(error) => Err(error),
    }
}

/// Decodes a stop mechanism.
pub fn decode_stop(value: Option<&Value>) -> (r: Result<StopMechanism, ProcessDecodeError>)
    ensures
        decoded_stop_view(r) == spec_decode_stop(
            match value {
                Some(value) => Some(*value),
                None => None,
            },
        ),
{
    match value {
        None => Ok(StopMechanism::Signal(SignalConfig::SIGTERM)),
        Some(value) => {
            match value {
                Value::String(name) => match SignalConfig::from_name(name) {
                    Some(signal) => {
                        return Ok(StopMechanism::Signal(signal));
                    },
                    None => {},
                },
                _ => {},
            }
            match decode_command(value) {
                Ok(command) => Ok(StopMechanism::Command(command)),
                Err(error) => Err(ProcessDecodeError::Command(Slot::Stop, error)),
            }
        },
    }
}

/// The name of a process: a string that is not empty.
pub open spec fn spec_decode_name(value: Option<Value>) -> Result<Seq<char>, ProcessDecodeError> {
    match value {
        None => Err(ProcessDecodeError::MissingName),
        Some(Value::String(name)) => if name@.len() > 0 {
            Ok(name@)
        } else {
            Err(ProcessDecodeError::InvalidName)
        },
        Some(_) => Err(ProcessDecodeError::InvalidName),
    }
}

/// The process that a value is: a table that holds no key but `name`,
/// `pre`, `run`, `stop` and `post`. Of the possible errors, the first in
/// that order is given, an unknown key before all.
pub open spec fn spec_decode_process(value: Value) -> Result<
    ProcessConfigView,
    ProcessDecodeError,
> {
    match value {
        Value::Table(entries) => match spec_first_unknown(entries@, KeySet::Process) {
            Some(k) => Err(ProcessDecodeError::UnknownKey(k as usize)),
            None => match spec_decode_name(spec_get(entries@, "name"@)) {
                Err(error) => Err(error),
                Ok(name) => match spec_decode_slot(spec_get(entries@, "pre"@), Slot::Pre) {
                    Err(error) => Err(error),
                    Ok(pre) => match spec_decode_slot(spec_get(entries@, "run"@), Slot::Run) {
                        Err(error) => Err(error),
                        Ok(run) => match spec_decode_stop(spec_get(entries@, "stop"@)) {
                            Err(error) => Err(error),
                            Ok(stop) => match spec_decode_slot(
                                spec_get(entries@, "post"@),
                                Slot::Post,
                            ) {
                                Err(error) => Err(error),
                                Ok(post) => Ok(ProcessConfigView { name, pre, run, stop, post }),
                            },
                        },
                    },
                },
            },
        },
        _ => Err(ProcessDecodeError::NotATable),
    }
}

/// The view of a result.
pub open spec fn decoded_process_view(r: Result<ProcessConfig, ProcessDecodeError>) -> Result<
    ProcessConfigView,
    ProcessDecodeError,
> {
    match r {
        Ok(process) => Ok(process@),
        Err(error) => Err(error),
    }
}

/// Decodes a process.
pub fn decode_process(value: &Value) -> (r: Result<ProcessConfig, ProcessDecodeError>)
    ensures
        decoded_process_view(r) == spec_decode_process(*value),
{
    match value {
        Value::Table(entries) => {
            match first_unknown(entries, KeySet::Process) {
                Some(k) => {
                    return Err(ProcessDecodeError::UnknownKey(k));
                },
                None => {},
            }
            let name = match get(entries, "name") {
                None => {
                    return Err(ProcessDecodeError::MissingName);
                },
                Some(Value::String(name)) => {
                    if name.as_str().unicode_len() == 0 {
                        return Err(ProcessDecodeError::InvalidName);
                    }
                    name.clone()
                },
                Some(_) => {
                    return Err(ProcessDecodeError::InvalidName);
                },
            };
            let pre = match decode_slot(get(entries, "pre"), Slot::Pre) {
                Err(error) => {
                    return Err(error);
                },
                Ok(pre) => pre,
            };
            let run = match decode_slot(get(entries, "run"), Slot::Run) {
                Err(error) => {
                    return Err(error);
                },
                Ok(run) => run,
            };
            let stop = match decode_stop(get(entries, "stop")) {
                Err(error) => {
                    return Err(error);
                },
                Ok(stop) => stop,
            };
            let post = match decode_slot(get(entries, "post"), Slot::Post) {
                Err(error) => {
                    return Err(error);
                },
                Ok(post) => post,
            };
            Ok(ProcessConfig { name, pre, run, stop, post })
        },
        _ => Err(ProcessDecodeError::NotATable),
    }
}

/// The processes that the values are; the error of the first value that is
/// none, with its place.
pub open spec fn spec_decode_processes(items: Seq<Value>) -> Result<
    Seq<ProcessConfigView>,
    DecodeError,
>
    decreases items.len(),
{
    if items.len() == 0 {
        Ok(Seq::empty())
    } else {
        match spec_decode_processes(items.drop_last()) {
            Err(error) => Err(error),
            Ok(head) => match spec_decode_process(items.last()) {
                Err(error) => Err(DecodeError::Process((items.len() - 1) as usize, error)),
                Ok(process) => Ok(head.push(process)),
            },
        }
    }
}

/// The configuration that a document is: a table whose key `processes`
/// holds an array of processes, no two of them named alike. Other keys of
/// the document are passed over.
pub open spec fn spec_decode(document: Value) -> Result<Seq<ProcessConfigView>, DecodeError> {
    match document {
        Value::Table(entries) => match spec_get(entries@, "processes"@) {
            None => Err(DecodeError::MissingProcesses),
            Some(Value::Array(items)) => match spec_decode_processes(items@) {
                Err(error) => Err(error),
                Ok(processes) => match spec_first_duplicate(names_of(processes)) {
                    Some(k) => Err(DecodeError::DuplicateName(k as usize)),
                    None => Ok(processes),
                },
            },
            Some(_) => Err(DecodeError::ProcessesNotAnArray),
        },
        _ => Err(DecodeError::NotATable),
    }
}

/// The view of a result.
pub open spec fn decoded_view(r: Result<Config, DecodeError>) -> Result<
    Seq<ProcessConfigView>,
    DecodeError,
> {
    match r {
        Ok(config) => Ok(config@),
        Err(error) => Err(error),
    }
}

/// Where the decoding fails for the first `k` values, it fails in the same
/// way for all of them.
proof fn lemma_decode_processes_fails(items: Seq<Value>, k: int)
    requires
        0 <= k <= items.len(),
        spec_decode_processes(items.take(k)) is Err,
    ensures
        spec_decode_processes(items) == spec_decode_processes(items.take(k)),
    decreases items.len() - k,
{
    if k == items.len() {
        assert(items.take(k) =~= items);
    } else {
        assert(items.take(k + 1).drop_last() =~= items.take(k));
        lemma_decode_processes_fails(items, k + 1);
    }
}

/// Decodes a configuration from the document that holds it.
pub fn decode(document: &Value) -> (r: Result<Config, DecodeError>)
    ensures
        decoded_view(r) == spec_decode(*document),
        r matches Ok(config) ==> config.valid(),
{
    let items = match document {
        Value::Table(entries) => match get(entries, "processes") {
            None => {
                return Err(DecodeError::MissingProcesses);
            },
            Some(Value::Array(items)) => items,
            Some(_) => {
                return Err(DecodeError::ProcessesNotAnArray);
            },
        },
        _ => {
            return Err(DecodeError::NotATable);
        },
    };
    let mut processes: Vec<ProcessConfig> = Vec::new();
    let mut i: usize = 0;
    proof {
        assert(processes@.map_values(|process: ProcessConfig| process@) =~= Seq::empty());
    }
    while i < items.len()
        invariant
            i <= items.len(),
            processes@.len() == i,
            spec_decode_processes(items@.take(i as int)) == Ok::<
                Seq<ProcessConfigView>,
                DecodeError,
            >(processes@.map_values(|process: ProcessConfig| process@)),
            forall|m: int| 0 <= m < i ==> (#[trigger] processes@[m]).name@.len() > 0,
            spec_decode(*document) == match spec_decode_processes(items@) {
                Err(error) => Err(error),
                Ok(processes) => match spec_first_duplicate(names_of(processes)) {
                    Some(k) => Err(DecodeError::DuplicateName(k as usize)),
                    None => Ok(processes),
                },
            },
        decreases items.len() - i,
    {
        proof {
            assert(items@.take(i + 1).drop_last() =~= items@.take(i as int));
            assert(items@.take(i + 1).last() == items@[i as int]);
        }
        let ghost before = processes@;
        match decode_process(&items[i]) {
            Err(error) => {
                proof {
                    lemma_decode_processes_fails(items@, i + 1);
                }
                return Err(DecodeError::Process(i, error));
            },
            Ok(process) => {
                processes.push(process);
            },
        }
        proof {
            assert(processes@.map_values(|process: ProcessConfig| process@) =~= before.map_values(
                |process: ProcessConfig| process@,
            ).push(processes@[i as int]@));
        }
        i += 1;
    }
    proof {
        assert(items@.take(i as int) =~= items@);
    }
    match first_duplicate(&processes) {
        Some(k) => Err(DecodeError::DuplicateName(k)),
        None => {
            let config = Config { processes };
            proof {
                assert forall|m: int| 0 <= m < config@.len() implies (#[trigger] config@[m]).name.len()
                    > 0 by {
                    assert(config.processes@[m].name@.len() > 0);
                }
            }
            Ok(config)
        },
    }
}

} // verus!

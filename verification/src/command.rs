//! Runs commands and reports how they ended.

use vstd::prelude::*;

use crate::config::command::{option_view, CommandSpec, CommandSpecView};
use crate::config::strings_view;
use crate::ShutdownReason;

verus! {

/// Exit status returned by a command.
#[derive(Copy, Clone, Eq, PartialEq, Debug, Structural)]
pub enum ExitStatus {
    /// Command exited with the given exit code.
    Exited(i32),
    /// Command was killed before it could exit.
    Killed,
}

/// Why a command could not be started.
#[derive(Clone, Debug, PartialEq, Eq)]
pub enum CommandError {
    /// A variable that the command is allowed to inherit is not set.
    MissingEnvironmentVariable(String),
    /// An argument refers to a variable that is not set.
    TemplateExpansionFailed(String),
    /// The arguments could not be searched for references to variables.
    TemplateScanFailed,
    /// No user of this name is known.
    UnknownUser(String),
    /// The operating system did not start the program; its message.
    SpawnFailed(String),
}

/// What waiting for a child process came to.
#[derive(Copy, Clone, Eq, PartialEq, Debug, Structural)]
pub enum WaitOutcome {
    /// The operating system reported an exit code.
    Code(i32),
    /// The child ended without an exit code: a signal terminated it.
    Signalled,
    /// Waiting itself failed.
    WaitFailed,
}

impl ExitStatus {
    /// Exit code 0 is the only success.
    pub open spec fn is_success(self) -> bool {
        self == ExitStatus::Exited(0)
    }

    /// The shutdown reason that a daemon's exit gives rise to.
    pub open spec fn spec_shutdown_reason(self) -> ShutdownReason {
        if self.is_success() {
            ShutdownReason::DaemonExited
        } else {
            ShutdownReason::DaemonFailed
        }
    }

    /// Whether the command succeeded.
    pub fn success(&self) -> (ok: bool)
        ensures
            ok == self.is_success(),
    {
        match self {
            ExitStatus::Exited(code) => *code == 0,
            ExitStatus::Killed => false,
        }
    }

    /// The reason that a daemon's watcher sends to the shutdown trigger once
    /// the daemon has ended with this status.
    pub fn shutdown_reason(&self) -> (reason: ShutdownReason)
        ensures
            reason == self.spec_shutdown_reason(),
    {
        if self.success() {
            ShutdownReason::DaemonExited
        } else {
            ShutdownReason::DaemonFailed
        }
    }
}

/// The exit status that a finished wait stands for.
pub open spec fn spec_monitor_process(waited: WaitOutcome) -> ExitStatus {
    match waited {
        WaitOutcome::Code(code) => ExitStatus::Exited(code),
        WaitOutcome::Signalled => ExitStatus::Killed,
        WaitOutcome::WaitFailed => ExitStatus::Killed,
    }
}

/// Turns the outcome of waiting for a child into the one exit status that is
/// reported for it: the code where there is one, `Killed` otherwise.
pub fn monitor_process(waited: WaitOutcome) -> (status: ExitStatus)
    ensures
        status == spec_monitor_process(waited),
{
    match waited {
        WaitOutcome::Code(code) => ExitStatus::Exited(code),
        WaitOutcome::Signalled => ExitStatus::Killed,
        WaitOutcome::WaitFailed => ExitStatus::Killed,
    }
}

/// Why a command could not be started, as plain values.
pub enum CommandErrorView {
    MissingEnvironmentVariable(Seq<char>),
    TemplateExpansionFailed(Seq<char>),
    TemplateScanFailed,
    UnknownUser(Seq<char>),
    SpawnFailed(Seq<char>),
}

impl View for CommandError {
    type V = CommandErrorView;

    open spec fn view(&self) -> CommandErrorView {
        match self {
            CommandError::MissingEnvironmentVariable(name) => {
                CommandErrorView::MissingEnvironmentVariable(name@)
            },
            CommandError::TemplateExpansionFailed(name) => {
                CommandErrorView::TemplateExpansionFailed(name@)
            },
            CommandError::TemplateScanFailed => CommandErrorView::TemplateScanFailed,
            CommandError::UnknownUser(name) => CommandErrorView::UnknownUser(name@),
            CommandError::SpawnFailed(message) => CommandErrorView::SpawnFailed(message@),
        }
    }
}

/// The variables of the supervisor's own environment, as it was handed in:
/// names and values. Where a name occurs twice, the first occurrence counts.
#[derive(Clone, Debug, PartialEq, Eq)]
pub struct Environment {
    pub vars: Vec<(String, String)>,
}

/// A variable as plain values: its name and its value.
pub type Binding = (Seq<char>, Seq<char>);

/// The value of the first variable of that name, if there is one.
pub open spec fn lookup(env: Seq<Binding>, name: Seq<char>) -> Option<Seq<char>>
    decreases env.len(),
{
    if env.len() == 0 {
        None
    } else if env[0].0 == name {
        Some(env[0].1)
    } else {
        lookup(env.drop_first(), name)
    }
}

/// What a lookup gives: the value of the first variable of that name, and
/// nothing exactly where no variable has that name.
pub proof fn law_lookup(env: Seq<Binding>, name: Seq<char>)
    ensures
        match lookup(env, name) {
            Some(value) => exists|i: int|
                0 <= i < env.len() && (#[trigger] env[i]).0 == name && env[i].1 == value && forall|
                    j: int,
                | 0 <= j < i ==> (#[trigger] env[j]).0 != name,
            None => forall|i: int| 0 <= i < env.len() ==> (#[trigger] env[i]).0 != name,
        },
    decreases env.len(),
{
    if env.len() > 0 && env[0].0 != name {
        let rest = env.drop_first();
        law_lookup(rest, name);
        assert forall|i: int| 0 <= i < rest.len() implies rest[i] == env[i + 1] by {}
        match lookup(rest, name) {
            Some(value) => {
                let i = choose|i: int|
                    0 <= i < rest.len() && (#[trigger] rest[i]).0 == name && rest[i].1 == value
                        && forall|j: int| 0 <= j < i ==> (#[trigger] rest[j]).0 != name;
                assert(env[i + 1] == rest[i]);
                assert forall|j: int| 0 <= j < i + 1 implies (#[trigger] env[j]).0 != name by {
                    if j > 0 {
                        assert(rest[j - 1] == env[j]);
                    }
                }
            },
            None => {
                assert forall|i: int| 0 <= i < env.len() implies (#[trigger] env[i]).0 != name by {
                    if i > 0 {
                        assert(rest[i - 1] == env[i]);
                    }
                }
            },
        }
    } else if env.len() > 0 {
        assert(env[0].0 == name);
    }
}

impl View for Environment {
    type V = Seq<Binding>;

    open spec fn view(&self) -> Seq<Binding> {
        self.vars@.map_values(|var: (String, String)| (var.0@, var.1@))
    }
}

impl Environment {
    /// The value of the variable, where it is set.
    pub fn get(&self, name: &String) -> (value: Option<&String>)
        ensures
            option_view_ref(value) == lookup(self@, name@),
    {
        let mut i: usize = 0;
        proof {
            assert(self@.skip(0) =~= self@);
        }
        while i < self.vars.len()
            invariant
                i <= self.vars.len(),
                lookup(self@.skip(i as int), name@) == lookup(self@, name@),
            decreases self.vars.len() - i,
        {
            proof {
                let rest = self@.skip(i as int);
                assert(rest[0] == self@[i as int]);
                assert(rest.drop_first() =~= self@.skip(i + 1));
            }
            if self.vars[i].0 == *name {
                return Some(&self.vars[i].1);
            }
            i += 1;
        }
        None
    }
}

/// The characters of an optional borrowed string.
pub open spec fn option_view_ref(s: Option<&String>) -> Option<Seq<char>> {
    match s {
        Some(s) => Some(s@),
        None => None,
    }
}

/// The text in which each reference to a variable is replaced by the
/// variable's value: `pieces` are the parts of the text between the
/// references, `names` the variables referred to, in order. The error is the
/// first name that is not set.
pub open spec fn spec_expand(pieces: Seq<Seq<char>>, names: Seq<Seq<char>>, env: Seq<Binding>)
    -> Result<Seq<char>, Seq<char>>
    decreases names.len(),
{
    if names.len() == 0 || pieces.len() == 0 {
        Ok(pieces.first())
    } else {
        match spec_expand(pieces.drop_last(), names.drop_last(), env) {
            Err(name) => Err(name),
            Ok(head) => match lookup(env, names.last()) {
                None => Err(names.last()),
                Some(value) => Ok(head + value + pieces.last()),
            },
        }
    }
}

/// Puts the text together again from the parts between the references to
/// variables, with the value of each variable in the place of the reference
/// to it. Fails at the first variable that is not set.
pub fn expand(pieces: &Vec<String>, names: &Vec<String>, env: &Environment) -> (r: Result<
    String,
    CommandError,
>)
    requires
        pieces@.len() == names@.len() + 1,
    ensures
        match spec_expand(strings_view(pieces@), strings_view(names@), env@) {
            Ok(text) => r matches Ok(expanded) && expanded@ == text,
            Err(name) => r matches Err(error) && error@
                == CommandErrorView::TemplateExpansionFailed(name),
        },
{
    let ghost all_pieces = strings_view(pieces@);
    let ghost all_names = strings_view(names@);
    let mut text = pieces[0].clone();
    let mut i: usize = 0;
    while i < names.len()
        invariant
            i <= names@.len(),
            pieces@.len() == names@.len() + 1,
            all_pieces == strings_view(pieces@),
            all_names == strings_view(names@),
            spec_expand(all_pieces.take(i + 1), all_names.take(i as int), env@) == Ok::<
                Seq<char>,
                Seq<char>,
            >(text@),
        decreases names@.len() - i,
    {
        proof {
            assert(all_pieces.take(i + 2).drop_last() =~= all_pieces.take(i + 1));
            assert(all_names.take(i + 1).drop_last() =~= all_names.take(i as int));
            assert(all_names.take(i + 1).last() == names@[i as int]@);
            assert(all_pieces.take(i + 2).last() == pieces@[i + 1]@);
        }
        match env.get(&names[i]) {
            None => {
                proof {
                    lemma_expand_fails(all_pieces, all_names, env@, i + 1);
                }
                return Err(CommandError::TemplateExpansionFailed(names[i].clone()));
            },
            Some(value) => {
                text.append(value.as_str());
                text.append(pieces[i + 1].as_str());
            },
        }
        i += 1;
    }
    proof {
        assert(all_pieces.take(i + 1) =~= all_pieces);
        assert(all_names.take(i as int) =~= all_names);
    }
    Ok(text)
}

/// Where the expansion fails for the first `k` names, it fails in the same
/// way for all of them.
proof fn lemma_expand_fails(pieces: Seq<Seq<char>>, names: Seq<Seq<char>>, env: Seq<Binding>, k: int)
    requires
        pieces.len() == names.len() + 1,
        0 <= k <= names.len(),
        spec_expand(pieces.take(k + 1), names.take(k), env) is Err,
    ensures
        spec_expand(pieces, names, env) == spec_expand(pieces.take(k + 1), names.take(k), env),
    decreases names.len() - k,
{
    if k == names.len() {
        assert(pieces.take(k + 1) =~= pieces);
        assert(names.take(k) =~= names);
    } else {
        assert(pieces.take(k + 2).drop_last() =~= pieces.take(k + 1));
        assert(names.take(k + 1).drop_last() =~= names.take(k));
        lemma_expand_fails(pieces, names, env, k + 1);
    }
}

/// The pattern of a reference to a variable in an argument: the name of the
/// variable in double braces, with optional ASCII whitespace around the
/// name. The name is the pattern's first group.
pub const TEMPLATE: &'static str =
    "\\{\\{[ \\t\\r\\n\\x0C]*([A-Za-z0-9_]+)[ \\t\\r\\n\\x0C]*\\}\\}";

/// The parts of `text` that lie between the matches of `pattern`, in order;
/// none where the pattern is no regular expression.
pub uninterp spec fn regex_split(pattern: Seq<char>, text: Seq<char>) -> Option<Seq<Seq<char>>>;

/// What the first group of `pattern` holds in each match of the pattern in
/// `text`, in order, where the group takes part in the match; none at all
/// where the pattern is no regular expression.
pub uninterp spec fn regex_first_groups(pattern: Seq<char>, text: Seq<char>) -> Option<
    Seq<Option<Seq<char>>>,
>;

/// The characters of each string that is there.
pub open spec fn options_view(v: Seq<Option<String>>) -> Seq<Option<Seq<char>>> {
    v.map_values(|s: Option<String>| option_view(s))
}

/// `regex::Regex::new`, then `regex::Regex::split` on the text: the parts of
/// the text that no match of the pattern covers, as the crate hands them
/// out. The contract only gives that result its name; none where the crate
/// refuses the pattern.
#[verifier::external_body]
fn split_by_pattern(pattern: &str, text: &str) -> (pieces: Option<Vec<String>>)
    ensures
        match pieces {
            Some(pieces) => regex_split(pattern@, text@) == Some(strings_view(pieces@)),
            None => regex_split(pattern@, text@) is None,
        },
{
    match regex::Regex::new(pattern) {
        Ok(re) => Some(re.split(text).map(|piece| piece.to_string()).collect()),
        Err(_) => None,
    }
}

/// `regex::Regex::new`, then `regex::Regex::captures_iter` on the text, and
/// of each match `regex::Captures::get` for the first group. The contract
/// only gives that result its name; none where the crate refuses the
/// pattern.
#[verifier::external_body]
fn first_groups(pattern: &str, text: &str) -> (groups: Option<Vec<Option<String>>>)
    ensures
        match groups {
            Some(groups) => regex_first_groups(pattern@, text@) == Some(options_view(groups@)),
            None => regex_first_groups(pattern@, text@) is None,
        },
{
    match regex::Regex::new(pattern) {
        Ok(re) => Some(
            re.captures_iter(text).map(|found| found.get(1).map(|name| name.as_str().to_string()))
                .collect(),
        ),
        Err(_) => None,
    }
}

/// The strings of a sequence in which each is there.
pub open spec fn all_some(groups: Seq<Option<Seq<char>>>) -> bool {
    forall|i: int| 0 <= i < groups.len() ==> (#[trigger] groups[i]) is Some
}

/// The strings of a sequence in which each is there.
pub open spec fn unwrap_all(groups: Seq<Option<Seq<char>>>) -> Seq<Seq<char>> {
    groups.map_values(|group: Option<Seq<char>>| group->0)
}

/// The argument with each reference to a variable replaced by the
/// variable's value, given what the search for references has found: the
/// parts between the references, and the names referred to.
pub open spec fn spec_substitute(
    pieces: Option<Seq<Seq<char>>>,
    groups: Option<Seq<Option<Seq<char>>>>,
    env: Seq<Binding>,
) -> Result<Seq<char>, CommandErrorView> {
    if pieces is Some && groups is Some && pieces->0.len() == groups->0.len() + 1 && all_some(
        groups->0,
    ) {
        match spec_expand(pieces->0, unwrap_all(groups->0), env) {
            Ok(text) => Ok(text),
            Err(name) => Err(CommandErrorView::TemplateExpansionFailed(name)),
        }
    } else {
        Err(CommandErrorView::TemplateScanFailed)
    }
}

/// The argument with each reference to a variable replaced by the
/// variable's value.
pub open spec fn spec_substitute_env_var(arg: Seq<char>, env: Seq<Binding>) -> Result<
    Seq<char>,
    CommandErrorView,
> {
    spec_substitute(regex_split(TEMPLATE@, arg), regex_first_groups(TEMPLATE@, arg), env)
}

/// The view of a result.
pub open spec fn text_result_view(r: Result<String, CommandError>) -> Result<
    Seq<char>,
    CommandErrorView,
> {
    match r {
        Ok(text) => Ok(text@),
        Err(error) => Err(error@),
    }
}

/// Replaces the references to variables, given what the search for them has
/// found. A search that has failed, or whose two halves do not fit
/// together, gives `TemplateScanFailed`; a variable that is not set gives
/// `TemplateExpansionFailed` with the first such name.
#[verifier::loop_isolation(false)]
pub fn substitute(
    pieces: Option<Vec<String>>,
    groups: Option<Vec<Option<String>>>,
    env: &Environment,
) -> (r: Result<String, CommandError>)
    ensures
        text_result_view(r) == spec_substitute(
            match pieces {
                Some(pieces) => Some(strings_view(pieces@)),
                None => None,
            },
            match groups {
                Some(groups) => Some(options_view(groups@)),
                None => None,
            },
            env@,
        ),
{
    match (pieces, groups) {
        (Some(pieces), Some(groups)) => {
            if pieces.len() == 0 || pieces.len() - 1 != groups.len() {
                return Err(CommandError::TemplateScanFailed);
            }
            let mut names: Vec<String> = Vec::new();
            let mut i: usize = 0;
            while i < groups.len()
                invariant
                    i <= groups@.len(),
                    names@.len() == i,
                    forall|j: int|
                        0 <= j < i ==> (#[trigger] groups@[j]) is Some && names@[j]
                            == groups@[j]->0,
                decreases groups@.len() - i,
            {
                match &groups[i] {
                    Some(name) => names.push(name.clone()),
                    None => {
                        proof {
                            assert(options_view(groups@)[i as int] is None);
                        }
                        return Err(CommandError::TemplateScanFailed);
                    },
                }
                i += 1;
            }
            proof {
                assert forall|j: int| 0 <= j < groups@.len() implies (#[trigger] options_view(
                    groups@,
                )[j]) is Some by {
                    assert(groups@[j] is Some);
                }
                assert(strings_view(names@) =~= unwrap_all(options_view(groups@)));
            }
            expand(&pieces, &names, env)
        },
        _ => Err(CommandError::TemplateScanFailed),
    }
}

/// Replaces each reference to a variable in the argument, `{{NAME}}`, by
/// the value of the variable. The replacement is not repeated on what it
/// has put in.
pub fn substitute_env_var(arg: &str, env: &Environment) -> (r: Result<String, CommandError>)
    ensures
        text_result_view(r) == spec_substitute_env_var(arg@, env@),
{
    let pieces = split_by_pattern(TEMPLATE, arg);
    let groups = first_groups(TEMPLATE, arg);
    substitute(pieces, groups, env)
}

/// The user and the group that a command runs as.
#[derive(Copy, Clone, Debug, PartialEq, Eq, Structural)]
pub struct UserIds {
    pub uid: u32,
    /// The user's primary group.
    pub gid: u32,
}

/// `users::get_user_by_name`, with `users::User::uid` and
/// `users::User::primary_group_id` of the user it finds. What comes back
/// depends on the system's user database, so nothing is claimed of it.
#[verifier::external_body]
fn lookup_user(name: &str) -> (ids: Option<UserIds>) {
    users::get_user_by_name(name).map(|user| UserIds { uid: user.uid(), gid: user.primary_group_id() })
}

/// A command that is ready to be spawned.
#[derive(Clone, Debug, PartialEq, Eq)]
pub struct PreparedCommand {
    /// Program to execute, as the specification has it.
    pub program: String,
    /// The arguments, with the references to variables replaced.
    pub args: Vec<String>,
    /// The whole environment of the child.
    pub env: Vec<(String, String)>,
    /// The user to run as, where the specification names one.
    pub user: Option<UserIds>,
}

/// A prepared command as plain values.
pub struct PreparedCommandView {
    pub program: Seq<char>,
    pub args: Seq<Seq<char>>,
    pub env: Seq<Binding>,
    pub user: Option<UserIds>,
}

impl View for PreparedCommand {
    type V = PreparedCommandView;

    open spec fn view(&self) -> PreparedCommandView {
        PreparedCommandView {
            program: self.program@,
            args: strings_view(self.args@),
            env: self.env@.map_values(|var: (String, String)| (var.0@, var.1@)),
            user: self.user,
        }
    }
}

/// The arguments, each with its references to variables replaced; the error
/// of the first argument that has one.
pub open spec fn spec_expand_args(args: Seq<Seq<char>>, env: Seq<Binding>) -> Result<
    Seq<Seq<char>>,
    CommandErrorView,
>
    decreases args.len(),
{
    if args.len() == 0 {
        Ok(Seq::empty())
    } else {
        match spec_expand_args(args.drop_last(), env) {
            Err(error) => Err(error),
            Ok(head) => match spec_substitute_env_var(args.last(), env) {
                Err(error) => Err(error),
                Ok(arg) => Ok(head.push(arg)),
            },
        }
    }
}

/// The variables that the command is allowed to inherit, with their values;
/// the first of them that is not set is an error.
pub open spec fn spec_allowed(vars: Seq<Seq<char>>, env: Seq<Binding>) -> Result<
    Seq<Binding>,
    CommandErrorView,
>
    decreases vars.len(),
{
    if vars.len() == 0 {
        Ok(Seq::empty())
    } else {
        match spec_allowed(vars.drop_last(), env) {
            Err(error) => Err(error),
            Ok(head) => match lookup(env, vars.last()) {
                None => Err(CommandErrorView::MissingEnvironmentVariable(vars.last())),
                Some(value) => Ok(head.push((vars.last(), value))),
            },
        }
    }
}

/// What the allowed variables come to: each of them with its value, in
/// their order, where all of them are set; and else the first of them that
/// is not.
pub proof fn law_allowed(vars: Seq<Seq<char>>, env: Seq<Binding>)
    ensures
        match spec_allowed(vars, env) {
            Ok(bindings) => bindings.len() == vars.len() && forall|i: int|
                0 <= i < vars.len() ==> lookup(env, vars[i]) == Some((#[trigger] bindings[i]).1)
                    && bindings[i].0 == vars[i],
            Err(error) => exists|i: int|
                0 <= i < vars.len() && error == CommandErrorView::MissingEnvironmentVariable(
                    vars[i],
                ) && lookup(env, #[trigger] vars[i]) is None && forall|j: int|
                    0 <= j < i ==> lookup(env, #[trigger] vars[j]) is Some,
        },
    decreases vars.len(),
{
    if vars.len() > 0 {
        let head = vars.drop_last();
        let last = vars.len() - 1;
        law_allowed(head, env);
        assert forall|i: int| 0 <= i < head.len() implies head[i] == vars[i] by {}
        match spec_allowed(head, env) {
            Err(error) => {
                let i = choose|i: int|
                    0 <= i < head.len() && error == CommandErrorView::MissingEnvironmentVariable(
                        head[i],
                    ) && lookup(env, #[trigger] head[i]) is None && forall|j: int|
                        0 <= j < i ==> lookup(env, #[trigger] head[j]) is Some;
                assert(vars[i] == head[i]);
                assert forall|j: int| 0 <= j < i implies lookup(env, #[trigger] vars[j])
                    is Some by {
                    assert(lookup(env, head[j]) is Some);
                }
            },
            Ok(bindings) => {
                match lookup(env, vars.last()) {
                    None => {
                        assert(lookup(env, vars[last]) is None);
                        assert forall|j: int| 0 <= j < last implies lookup(env, #[trigger] vars[j])
                            is Some by {
                            assert(lookup(env, head[j]) == Some(bindings[j].1));
                        }
                    },
                    Some(value) => {
                        let all = bindings.push((vars.last(), value));
                        assert forall|i: int| 0 <= i < vars.len() implies lookup(env, vars[i])
                            == Some((#[trigger] all[i]).1) && all[i].0 == vars[i] by {
                            if i < last {
                                assert(all[i] == bindings[i]);
                                assert(lookup(env, head[i]) == Some(bindings[i].1));
                            }
                        }
                    },
                }
            },
        }
    }
}

/// `PATH` with its value, where it is set.
pub open spec fn spec_path(env: Seq<Binding>) -> Seq<Binding> {
    match lookup(env, "PATH"@) {
        Some(value) => seq![("PATH"@, value)],
        None => Seq::empty(),
    }
}

/// The user to run as: none where the specification names none; an error
/// where it names one that was not found.
pub open spec fn spec_user(user: Option<Seq<char>>, resolved: Option<UserIds>) -> Result<
    Option<UserIds>,
    CommandErrorView,
> {
    match user {
        None => Ok(None),
        Some(name) => match resolved {
            Some(ids) => Ok(Some(ids)),
            None => Err(CommandErrorView::UnknownUser(name)),
        },
    }
}

/// The command made ready. The child inherits nothing but `PATH` and the
/// variables that the specification allows, each of which has to be set.
/// The program is taken as it is; the arguments have their references to
/// variables replaced. Of the possible errors, that of the arguments comes
/// first, then that of the allowed variables, then that of the user.
pub open spec fn spec_prepare(spec: CommandSpecView, env: Seq<Binding>, resolved: Option<UserIds>)
    -> Result<PreparedCommandView, CommandErrorView> {
    match spec_expand_args(spec.args, env) {
        Err(error) => Err(error),
        Ok(args) => match spec_allowed(spec.env_vars, env) {
            Err(error) => Err(error),
            Ok(allowed) => match spec_user(spec.user, resolved) {
                Err(error) => Err(error),
                Ok(user) => Ok(
                    PreparedCommandView {
                        program: spec.program,
                        args,
                        env: spec_path(env) + allowed,
                        user,
                    },
                ),
            },
        },
    }
}

/// The view of a result.
pub open spec fn prepared_view(r: Result<PreparedCommand, CommandError>) -> Result<
    PreparedCommandView,
    CommandErrorView,
> {
    match r {
        Ok(command) => Ok(command@),
        Err(error) => Err(error@),
    }
}

/// Makes a command ready to be spawned, given the supervisor's environment
/// and what looking up the command's user has come to (`resolved`; it is
/// not looked at where the command names no user).
#[verifier::loop_isolation(false)]
pub fn prepare(spec: &CommandSpec, env: &Environment, resolved: Option<UserIds>) -> (r: Result<
    PreparedCommand,
    CommandError,
>)
    ensures
        prepared_view(r) == spec_prepare(spec@, env@, resolved),
{
    let ghost all_args = strings_view(spec.args@);
    let mut args: Vec<String> = Vec::new();
    let mut i: usize = 0;
    proof {
        assert(strings_view(args@) =~= Seq::empty());
    }
    while i < spec.args.len()
        invariant
            i <= spec.args@.len(),
            args@.len() == i,
            spec_expand_args(all_args.take(i as int), env@) == Ok::<
                Seq<Seq<char>>,
                CommandErrorView,
            >(strings_view(args@)),
        decreases spec.args@.len() - i,
    {
        proof {
            assert(all_args.take(i + 1).drop_last() =~= all_args.take(i as int));
            assert(all_args.take(i + 1).last() == spec.args@[i as int]@);
        }
        let ghost before = args@;
        match substitute_env_var(spec.args[i].as_str(), env) {
            Err(error) => {
                proof {
                    lemma_expand_args_fails(all_args, env@, i + 1);
                }
                return Err(error);
            },
            Ok(arg) => {
                args.push(arg);
            },
        }
        proof {
            assert(strings_view(args@) =~= strings_view(before).push(args@[i as int]@));
        }
        i += 1;
    }
    proof {
        assert(all_args.take(i as int) =~= all_args);
    }
    let ghost all_vars = strings_view(spec.env_vars@);
    let mut child: Vec<(String, String)> = Vec::new();
    let path = "PATH".to_owned();
    match env.get(&path) {
        Some(value) => {
            child.push((path, value.clone()));
        },
        None => {},
    }
    proof {
        assert(child@.map_values(|var: (String, String)| (var.0@, var.1@)) =~= spec_path(env@));
    }
    let mut j: usize = 0;
    while j < spec.env_vars.len()
        invariant
            j <= spec.env_vars@.len(),
            spec_allowed(all_vars.take(j as int), env@) is Ok,
            child@.map_values(|var: (String, String)| (var.0@, var.1@)) == spec_path(env@)
                + spec_allowed(all_vars.take(j as int), env@)->Ok_0,
        decreases spec.env_vars@.len() - j,
    {
        proof {
            assert(all_vars.take(j + 1).drop_last() =~= all_vars.take(j as int));
            assert(all_vars.take(j + 1).last() == spec.env_vars@[j as int]@);
        }
        let ghost before = child@;
        match env.get(&spec.env_vars[j]) {
            None => {
                proof {
                    lemma_allowed_fails(all_vars, env@, j + 1);
                }
                return Err(CommandError::MissingEnvironmentVariable(spec.env_vars[j].clone()));
            },
            Some(value) => {
                child.push((spec.env_vars[j].clone(), value.clone()));
            },
        }
        proof {
            assert(child@.map_values(|var: (String, String)| (var.0@, var.1@)) =~= before.map_values(
                |var: (String, String)| (var.0@, var.1@),
            ).push((spec.env_vars@[j as int]@, child@[child@.len() - 1].1@)));
        }
        j += 1;
    }
    proof {
        assert(all_vars.take(j as int) =~= all_vars);
    }
    let user = match &spec.user {
        None => None,
        Some(name) => match resolved {
            Some(ids) => Some(ids),
            None => {
                return Err(CommandError::UnknownUser(name.clone()));
            },
        },
    };
    Ok(PreparedCommand { program: spec.program.clone(), args, env: child, user })
}

/// Where the expansion fails for the first `k` arguments, it fails in the
/// same way for all of them.
proof fn lemma_expand_args_fails(args: Seq<Seq<char>>, env: Seq<Binding>, k: int)
    requires
        0 <= k <= args.len(),
        spec_expand_args(args.take(k), env) is Err,
    ensures
        spec_expand_args(args, env) == spec_expand_args(args.take(k), env),
    decreases args.len() - k,
{
    if k == args.len() {
        assert(args.take(k) =~= args);
    } else {
        assert(args.take(k + 1).drop_last() =~= args.take(k));
        lemma_expand_args_fails(args, env, k + 1);
    }
}

/// Where one of the first `k` allowed variables is not set, the error is
/// the same for all of them.
proof fn lemma_allowed_fails(vars: Seq<Seq<char>>, env: Seq<Binding>, k: int)
    requires
        0 <= k <= vars.len(),
        spec_allowed(vars.take(k), env) is Err,
    ensures
        spec_allowed(vars, env) == spec_allowed(vars.take(k), env),
    decreases vars.len() - k,
{
    if k == vars.len() {
        assert(vars.take(k) =~= vars);
    } else {
        assert(vars.take(k + 1).drop_last() =~= vars.take(k));
        lemma_allowed_fails(vars, env, k + 1);
    }
}

/// Makes a command ready to be spawned: looks up the user that the
/// specification names, if it names one, and goes on as [`prepare`] does.
pub fn prepare_command(spec: &CommandSpec, env: &Environment) -> (r: Result<
    PreparedCommand,
    CommandError,
>)
    ensures
        exists|resolved: Option<UserIds>|
            prepared_view(r) == #[trigger] spec_prepare(spec@, env@, resolved),
        spec@.user is None ==> prepared_view(r) == spec_prepare(spec@, env@, None),
{
    let resolved = match &spec.user {
        Some(name) => lookup_user(name.as_str()),
        None => None,
    };
    prepare(spec, env, resolved)
}

} // verus!

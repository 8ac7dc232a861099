//! Command configuration.

use vstd::prelude::*;

use crate::config::strings_view;

verus! {

/// Specification for a command, its arguments, and any execution
/// properties (such as the user under which to run the command, or the
/// environment variables to pass through to the command).
#[derive(Clone, Debug, PartialEq, Eq)]
pub struct CommandSpec {
    /// User to run this command as, otherwise run the command as the
    /// user that executed the supervisor.
    pub user: Option<String>,
    /// Environment variables to pass through to the command.
    pub env_vars: Vec<String>,
    /// Program to execute.
    pub program: String,
    /// Arguments to pass to the program.
    pub args: Vec<String>,
}

/// What a command specification holds, as plain values.
pub struct CommandSpecView {
    pub user: Option<Seq<char>>,
    pub env_vars: Seq<Seq<char>>,
    pub program: Seq<char>,
    pub args: Seq<Seq<char>>,
}

/// The characters of an optional string.
pub open spec fn option_view(s: Option<String>) -> Option<Seq<char>> {
    match s {
        Some(s) => Some(s@),
        None => None,
    }
}

impl View for CommandSpec {
    type V = CommandSpecView;

    open spec fn view(&self) -> CommandSpecView {
        CommandSpecView {
            user: option_view(self.user),
            env_vars: strings_view(self.env_vars@),
            program: self.program@,
            args: strings_view(self.args@),
        }
    }
}

/// A command line: one string whose words a single space separates, or the
/// list of its words.
#[derive(Clone, Debug, PartialEq, Eq)]
pub enum CommandLine {
    CommandString(String),
    CommandVector(Vec<String>),
}

/// A command line together with its execution properties.
#[derive(Clone, Debug, PartialEq, Eq)]
pub struct DetailedCommandLine {
    pub user: Option<String>,
    pub env_vars: Vec<String>,
    pub command: CommandLine,
}

/// A command as the configuration gives it: a bare command line, or a table
/// around one.
#[derive(Clone, Debug, PartialEq, Eq)]
pub enum CommandConfig {
    Simple(CommandLine),
    Detailed(DetailedCommandLine),
}

/// The index of the first space of `s`, or its length where it has none.
pub open spec fn first_space(s: Seq<char>) -> int
    decreases s.len(),
{
    if s.len() == 0 || s[0] == ' ' {
        0
    } else {
        1 + first_space(s.drop_first())
    }
}

/// The words of `s`: the pieces that single spaces separate. There is always
/// a first word; two spaces in a row hold an empty word between them.
pub open spec fn split_spaces(s: Seq<char>) -> Seq<Seq<char>>
    decreases s.len(),
{
    let k = first_space(s);
    if 0 <= k < s.len() {
        seq![s.take(k)] + split_spaces(s.skip(k + 1))
    } else {
        seq![s]
    }
}

/// The words joined again, one space between two neighbours.
pub open spec fn join_spaces(words: Seq<Seq<char>>) -> Seq<char>
    decreases words.len(),
{
    if words.len() == 0 {
        Seq::empty()
    } else if words.len() == 1 {
        words[0]
    } else {
        words[0] + seq![' '] + join_spaces(words.drop_first())
    }
}

pub proof fn lemma_first_space(s: Seq<char>)
    ensures
        0 <= first_space(s) <= s.len(),
        forall|i: int| 0 <= i < first_space(s) ==> s[i] != ' ',
        first_space(s) < s.len() ==> s[first_space(s)] == ' ',
    decreases s.len(),
{
    if s.len() == 0 || s[0] == ' ' {
    } else {
        let t = s.drop_first();
        lemma_first_space(t);
        assert forall|i: int| 0 <= i < first_space(s) implies s[i] != ' ' by {
            if i > 0 {
                assert(s[i] == t[i - 1]);
            }
        }
        if first_space(s) < s.len() {
            assert(s[first_space(s)] == t[first_space(t)]);
        }
    }
}

/// The first space is where a position holds a space and none before it does.
pub proof fn lemma_first_space_at(s: Seq<char>, k: int)
    requires
        0 <= k <= s.len(),
        forall|i: int| 0 <= i < k ==> s[i] != ' ',
        k < s.len() ==> s[k] == ' ',
    ensures
        first_space(s) == k,
{
    lemma_first_space(s);
    let f = first_space(s);
    if f < k {
        assert(s[f] == ' ');
    } else if f > k {
        assert(s[k] != ' ');
    }
}

/// No character of the word is a space.
pub open spec fn has_no_space(word: Seq<char>) -> bool {
    forall|i: int| 0 <= i < word.len() ==> word[i] != ' '
}

/// What the words of a line are: there is at least one, none of them holds
/// a space, and joined by single spaces they are the line.
pub proof fn law_split_spaces(s: Seq<char>)
    ensures
        split_spaces(s).len() >= 1,
        forall|i: int| 0 <= i < split_spaces(s).len() ==> has_no_space(#[trigger] split_spaces(s)[i]),
        join_spaces(split_spaces(s)) == s,
    decreases s.len(),
{
    lemma_first_space(s);
    let k = first_space(s);
    if 0 <= k < s.len() {
        let rest = s.skip(k + 1);
        law_split_spaces(rest);
        let words = split_spaces(s);
        assert(words == seq![s.take(k)] + split_spaces(rest));
        assert(words.drop_first() =~= split_spaces(rest));
        assert(words[0] == s.take(k));
        assert forall|i: int| 0 <= i < words.len() implies has_no_space(#[trigger] words[i]) by {
            if i > 0 {
                assert(words[i] == split_spaces(rest)[i - 1]);
            }
        }
        assert(s.take(k) + seq![' '] + rest =~= s);
    }
}

/// Words without spaces, joined by single spaces and split again, are the
/// same words.
pub proof fn law_join_spaces(words: Seq<Seq<char>>)
    requires
        words.len() >= 1,
        forall|i: int| 0 <= i < words.len() ==> has_no_space(#[trigger] words[i]),
    ensures
        split_spaces(join_spaces(words)) == words,
    decreases words.len(),
{
    let line = join_spaces(words);
    assert(has_no_space(words[0]));
    if words.len() == 1 {
        lemma_first_space_at(line, line.len() as int);
        assert(split_spaces(line) =~= words);
    } else {
        let rest = words.drop_first();
        assert forall|i: int| 0 <= i < rest.len() implies has_no_space(#[trigger] rest[i]) by {
            assert(rest[i] == words[i + 1]);
        }
        law_join_spaces(rest);
        let k = words[0].len() as int;
        assert(line == words[0] + seq![' '] + join_spaces(rest));
        assert forall|i: int| 0 <= i < k implies line[i] != ' ' by {
            assert(line[i] == words[0][i]);
        }
        assert(line[k] == ' ');
        lemma_first_space_at(line, k);
        assert(line.take(k) =~= words[0]);
        assert(line.skip(k + 1) =~= join_spaces(rest));
        assert(split_spaces(line) =~= words);
    }
}

impl CommandLine {
    /// A command line names a program: a list of words is not empty.
    pub open spec fn wf(&self) -> bool {
        match self {
            CommandLine::CommandString(_) => true,
            CommandLine::CommandVector(v) => v@.len() > 0,
        }
    }

    /// The words of the command line, the program first.
    pub open spec fn words(&self) -> Seq<Seq<char>> {
        match self {
            CommandLine::CommandString(line) => split_spaces(line@),
            CommandLine::CommandVector(v) => strings_view(v@),
        }
    }

    /// Parse the command line into the program to execute, and the
    /// arguments to that program.
    pub fn program_and_args(&self) -> (r: (String, Vec<String>))
        requires
            self.wf(),
        ensures
            self.words().len() > 0,
            r.0@ == self.words()[0],
            strings_view(r.1@) == self.words().skip(1),
    {
        match self {
            CommandLine::CommandString(line) => {
                let mut words = split_line(line.as_str());
                let program = words.remove(0);
                proof {
                    assert(strings_view(words@) =~= self.words().skip(1));
                }
                (program, words)
            },
            CommandLine::CommandVector(v) => {
                let program = v[0].clone();
                let mut args: Vec<String> = Vec::new();
                let mut i: usize = 1;
                while i < v.len()
                    invariant
                        1 <= i <= v.len(),
                        args@.len() == i - 1,
                        forall|j: int| 0 <= j < args@.len() ==> args@[j] == v@[j + 1],
                    decreases v.len() - i,
                {
                    args.push(v[i].clone());
                    i += 1;
                }
                proof {
                    assert(strings_view(args@) =~= self.words().skip(1));
                }
                (program, args)
            },
        }
    }
}

impl CommandConfig {
    /// The command line that the configuration holds.
    pub open spec fn line(&self) -> CommandLine {
        match self {
            CommandConfig::Simple(line) => *line,
            CommandConfig::Detailed(detailed) => detailed.command,
        }
    }

    /// The configuration names a program.
    pub open spec fn wf(&self) -> bool {
        self.line().wf()
    }

    /// The command specification that the configuration stands for: the
    /// first word is the program, the others are its arguments; a bare
    /// command line has no user and inherits no variable.
    pub open spec fn spec_command(&self) -> CommandSpecView {
        match self {
            CommandConfig::Simple(line) => CommandSpecView {
                user: None,
                env_vars: Seq::empty(),
                program: line.words()[0],
                args: line.words().skip(1),
            },
            CommandConfig::Detailed(detailed) => CommandSpecView {
                user: option_view(detailed.user),
                env_vars: strings_view(detailed.env_vars@),
                program: detailed.command.words()[0],
                args: detailed.command.words().skip(1),
            },
        }
    }

    /// The configuration is the list form of the command specification: a
    /// table whose command is the list of the program and its arguments.
    pub open spec fn is_list_form_of(&self, spec: CommandSpecView) -> bool {
        &&& self matches CommandConfig::Detailed(detailed)
        &&& detailed.command is CommandVector
        &&& detailed.command.words() == seq![spec.program] + spec.args
        &&& option_view(detailed.user) == spec.user
        &&& strings_view(detailed.env_vars@) == spec.env_vars
    }
}

impl CommandSpec {
    /// A command names a program.
    pub open spec fn wf(&self) -> bool {
        self.program@.len() > 0
    }

    /// Decodes a command from the form that the configuration gives it in.
    pub fn from(config: CommandConfig) -> (spec: CommandSpec)
        requires
            config.wf(),
        ensures
            spec@ == config.spec_command(),
    {
        match config {
            CommandConfig::Simple(line) => {
                let (program, args) = line.program_and_args();
                let spec = CommandSpec { user: None, env_vars: Vec::new(), program, args };
                proof {
                    assert(strings_view(spec.env_vars@) =~= Seq::empty());
                }
                spec
            },
            CommandConfig::Detailed(detailed) => {
                let (program, args) = detailed.command.program_and_args();
                CommandSpec { user: detailed.user, env_vars: detailed.env_vars, program, args }
            },
        }
    }

    /// The list form of the command: a table whose command is the list of
    /// the program and its arguments.
    pub fn to_config(&self) -> (config: CommandConfig)
        ensures
            config.is_list_form_of(self@),
    {
        let mut words: Vec<String> = Vec::new();
        words.push(self.program.clone());
        let mut i: usize = 0;
        while i < self.args.len()
            invariant
                i <= self.args.len(),
                words@.len() == i + 1,
                words@[0] == self.program,
                forall|j: int| 0 <= j < i ==> words@[j + 1] == self.args@[j],
            decreases self.args.len() - i,
        {
            words.push(self.args[i].clone());
            i += 1;
        }
        let user = match &self.user {
            Some(user) => Some(user.clone()),
            None => None,
        };
        let env_vars = clone_strings(&self.env_vars);
        proof {
            assert(strings_view(words@) =~= seq![self@.program] + self@.args);
            assert(strings_view(env_vars@) =~= self@.env_vars);
        }
        CommandConfig::Detailed(
            DetailedCommandLine { user, env_vars, command: CommandLine::CommandVector(words) },
        )
    }
}

/// Decoding the list form of a command specification gives the
/// specification back.
pub proof fn law_list_form_round_trip(spec: CommandSpecView, config: CommandConfig)
    requires
        config.is_list_form_of(spec),
    ensures
        config.wf(),
        config.spec_command() == spec,
{
    let words = seq![spec.program] + spec.args;
    assert(words.len() > 0);
    assert(words[0] == spec.program);
    assert(words.skip(1) =~= spec.args);
}

/// A copy of the strings.
pub fn clone_strings(strings: &Vec<String>) -> (copy: Vec<String>)
    ensures
        copy@ == strings@,
{
    let mut copy: Vec<String> = Vec::new();
    let mut i: usize = 0;
    while i < strings.len()
        invariant
            i <= strings.len(),
            copy@.len() == i,
            forall|j: int| 0 <= j < i ==> copy@[j] == strings@[j],
        decreases strings.len() - i,
    {
        copy.push(strings[i].clone());
        i += 1;
    }
    proof {
        assert(copy@ =~= strings@);
    }
    copy
}

/// Splits a line at every single space.
pub fn split_line(line: &str) -> (words: Vec<String>)
    ensures
        strings_view(words@) == split_spaces(line@),
        words@.len() > 0,
{
    let n = line.unicode_len();
    let mut words: Vec<String> = Vec::new();
    let mut start: usize = 0;
    let mut i: usize = 0;
    proof {
        assert(line@.skip(0) =~= line@);
        assert(strings_view(words@) + split_spaces(line@) =~= split_spaces(line@));
    }
    while i < n
        invariant
            n == line@.len(),
            start <= i <= n,
            forall|j: int| start <= j < i ==> line@[j] != ' ',
            strings_view(words@) + split_spaces(line@.skip(start as int)) == split_spaces(line@),
        decreases n - i,
    {
        let c = line.get_char(i);
        if c == ' ' {
            let word = line.substring_char(start, i).to_owned();
            let ghost before = words@;
            words.push(word);
            proof {
                let rest = line@.skip(start as int);
                let k = i - start;
                assert forall|j: int| 0 <= j < k implies rest[j] != ' ' by {
                    assert(rest[j] == line@[start + j]);
                }
                assert(rest[k] == line@[i as int]);
                lemma_first_space_at(rest, k);
                assert(rest.take(k) =~= line@.subrange(start as int, i as int));
                assert(rest.skip(k + 1) =~= line@.skip(i + 1));
                assert(strings_view(words@) =~= strings_view(before) + seq![rest.take(k)]);
            }
            start = i + 1;
        }
        i += 1;
    }
    let last = line.substring_char(start, n).to_owned();
    let ghost before = words@;
    words.push(last);
    proof {
        let rest = line@.skip(start as int);
        assert forall|j: int| 0 <= j < rest.len() implies rest[j] != ' ' by {
            assert(rest[j] == line@[start + j]);
        }
        lemma_first_space_at(rest, rest.len() as int);
        assert(rest =~= line@.subrange(start as int, n as int));
        assert(strings_view(words@) =~= strings_view(before) + seq![rest]);
    }
    words
}

} // verus!

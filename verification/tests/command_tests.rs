//! Exit statuses, the environment of a command, and its arguments.

use groundcontrol::command::{
    expand, monitor_process, prepare, prepare_command, substitute, substitute_env_var,
    CommandError, Environment, ExitStatus, PreparedCommand, UserIds, WaitOutcome, TEMPLATE,
};
use groundcontrol::config::command::{
    split_line, CommandConfig, CommandLine, CommandSpec, DetailedCommandLine,
};
use groundcontrol::ShutdownReason;

fn environment(vars: &[(&str, &str)]) -> Environment {
    Environment {
        vars: vars
            .iter()
            .map(|(name, value)| (name.to_string(), value.to_string()))
            .collect(),
    }
}

fn strings(words: &[&str]) -> Vec<String> {
    words.iter().map(|word| word.to_string()).collect()
}

fn shell(script: &str) -> CommandSpec {
    CommandSpec {
        user: None,
        env_vars: vec![],
        program: "/bin/sh".to_string(),
        args: strings(&["-c", script]),
    }
}

#[test]
fn exit_code_becomes_exited() {
    assert_eq!(ExitStatus::Exited(3), monitor_process(WaitOutcome::Code(3)));
    assert_eq!(ExitStatus::Exited(0), monitor_process(WaitOutcome::Code(0)));
    assert_eq!(ExitStatus::Exited(-1), monitor_process(WaitOutcome::Code(-1)));
}

#[test]
fn no_exit_code_becomes_killed() {
    assert_eq!(ExitStatus::Killed, monitor_process(WaitOutcome::Signalled));
    assert_eq!(ExitStatus::Killed, monitor_process(WaitOutcome::WaitFailed));
}

#[test]
fn only_exit_code_zero_is_a_success() {
    assert!(ExitStatus::Exited(0).success());
    assert!(!ExitStatus::Exited(1).success());
    assert!(!ExitStatus::Exited(-1).success());
    assert!(!ExitStatus::Killed.success());
}

#[test]
fn daemon_exit_gives_the_shutdown_reason() {
    assert_eq!(
        ShutdownReason::DaemonExited,
        ExitStatus::Exited(0).shutdown_reason()
    );
    assert_eq!(
        ShutdownReason::DaemonFailed,
        ExitStatus::Exited(2).shutdown_reason()
    );
    assert_eq!(
        ShutdownReason::DaemonFailed,
        ExitStatus::Killed.shutdown_reason()
    );
}

#[test]
fn environment_gives_the_first_value_of_a_name() {
    let env = environment(&[("A", "1"), ("B", "2"), ("A", "3")]);
    assert_eq!(Some(&"1".to_string()), env.get(&"A".to_string()));
    assert_eq!(Some(&"2".to_string()), env.get(&"B".to_string()));
    assert_eq!(None, env.get(&"C".to_string()));
    assert_eq!(None, environment(&[]).get(&"A".to_string()));
}

#[test]
fn lines_split_at_every_single_space() {
    assert_eq!(strings(&["a", "b", "c"]), split_line("a b c"));
    assert_eq!(strings(&[""]), split_line(""));
    assert_eq!(strings(&["", ""]), split_line(" "));
    assert_eq!(strings(&["a", "", "b"]), split_line("a  b"));
    assert_eq!(strings(&["a\tb"]), split_line("a\tb"));
    assert_eq!(strings(&["é", "ü"]), split_line("é ü"));
}

#[test]
fn command_string_gives_program_and_args() {
    let line = CommandLine::CommandString("/app/run-me.sh using these args".to_string());
    assert_eq!(
        (
            "/app/run-me.sh".to_string(),
            strings(&["using", "these", "args"])
        ),
        line.program_and_args()
    );
    let line = CommandLine::CommandString("/bin/true".to_string());
    assert_eq!(("/bin/true".to_string(), strings(&[])), line.program_and_args());
}

#[test]
fn command_vector_gives_program_and_args() {
    let line = CommandLine::CommandVector(strings(&["/bin/sh", "-c", "echo a b"]));
    assert_eq!(
        ("/bin/sh".to_string(), strings(&["-c", "echo a b"])),
        line.program_and_args()
    );
    let line = CommandLine::CommandVector(strings(&["/bin/true"]));
    assert_eq!(("/bin/true".to_string(), strings(&[])), line.program_and_args());
}

#[test]
fn simple_command_has_no_user_and_no_variables() {
    let spec = CommandSpec::from(CommandConfig::Simple(CommandLine::CommandString(
        "/bin/echo hello".to_string(),
    )));
    assert_eq!(
        CommandSpec {
            user: None,
            env_vars: vec![],
            program: "/bin/echo".to_string(),
            args: strings(&["hello"]),
        },
        spec
    );
}

#[test]
fn detailed_command_keeps_user_and_variables() {
    let spec = CommandSpec::from(CommandConfig::Detailed(DetailedCommandLine {
        user: Some("app".to_string()),
        env_vars: strings(&["HOME"]),
        command: CommandLine::CommandVector(strings(&["/bin/echo", "hello world"])),
    }));
    assert_eq!(
        CommandSpec {
            user: Some("app".to_string()),
            env_vars: strings(&["HOME"]),
            program: "/bin/echo".to_string(),
            args: strings(&["hello world"]),
        },
        spec
    );
}

#[test]
fn list_form_round_trips() {
    let specs = [
        shell("echo a >> /tmp/result"),
        CommandSpec {
            user: Some("app".to_string()),
            env_vars: strings(&["HOME", "USER"]),
            program: "/app/run me.sh".to_string(),
            args: strings(&["", " ", "two words", "{{NAME}}"]),
        },
        CommandSpec {
            user: None,
            env_vars: vec![],
            program: "/bin/true".to_string(),
            args: vec![],
        },
    ];
    for spec in specs {
        assert_eq!(spec, CommandSpec::from(spec.to_config()));
    }
}

#[test]
fn template_references_are_replaced() {
    let env = environment(&[("TESTVAR1", "one"), ("TESTVAR3", "three")]);
    assert_eq!(
        Ok("echo one $TESTVAR2 three $TESTVAR4 >> result".to_string()),
        substitute_env_var(
            "echo {{TESTVAR1}} $TESTVAR2 {{ TESTVAR3 }} $TESTVAR4 >> result",
            &env
        )
    );
}

#[test]
fn template_without_reference_stays_as_it_is() {
    let env = environment(&[("A", "1")]);
    for text in ["", "plain", "{A}", "{{}}", "{{A B}}", "{{A-B}}", "{ {A} }", "$A"] {
        assert_eq!(Ok(text.to_string()), substitute_env_var(text, &env));
    }
}

#[test]
fn template_accepts_whitespace_around_the_name() {
    let env = environment(&[("A_1", "x")]);
    for text in ["{{A_1}}", "{{ A_1 }}", "{{\tA_1\n}}", "{{  A_1}}", "{{A_1 \r\n}}"] {
        assert_eq!(Ok("x".to_string()), substitute_env_var(text, &env));
    }
}

#[test]
fn template_replacement_is_not_repeated() {
    let env = environment(&[("A", "{{B}}"), ("B", "b")]);
    assert_eq!(
        Ok("{{B}}b{{B}}".to_string()),
        substitute_env_var("{{A}}{{B}}{{A}}", &env)
    );
    assert_eq!(Ok("{b}".to_string()), substitute_env_var("{{{B}}}", &env));
}

#[test]
fn template_reports_the_first_unknown_variable() {
    let env = environment(&[("A", "a")]);
    assert_eq!(
        Err(CommandError::TemplateExpansionFailed("MISSING".to_string())),
        substitute_env_var("echo {{A}} {{MISSING}} {{ALSO_MISSING}}", &env)
    );
    assert_eq!(
        Err(CommandError::TemplateExpansionFailed("MISSINGVAR".to_string())),
        substitute_env_var("echo {{MISSINGVAR}} >> result", &environment(&[]))
    );
}

#[test]
fn expansion_puts_values_between_the_pieces() {
    let env = environment(&[("X", "1"), ("Y", "2")]);
    assert_eq!(
        Ok("a1b2c".to_string()),
        expand(&strings(&["a", "b", "c"]), &strings(&["X", "Y"]), &env)
    );
    assert_eq!(Ok("only".to_string()), expand(&strings(&["only"]), &strings(&[]), &env));
    assert_eq!(
        Err(CommandError::TemplateExpansionFailed("Z".to_string())),
        expand(&strings(&["a", "b", "c"]), &strings(&["Z", "Q"]), &env)
    );
}

#[test]
fn substitution_needs_a_search_that_fits_together() {
    let env = environment(&[("X", "1")]);
    assert_eq!(
        Ok("a1b".to_string()),
        substitute(
            Some(strings(&["a", "b"])),
            Some(vec![Some("X".to_string())]),
            &env
        )
    );
    assert_eq!(
        Err(CommandError::TemplateScanFailed),
        substitute(None, Some(vec![]), &env)
    );
    assert_eq!(
        Err(CommandError::TemplateScanFailed),
        substitute(Some(strings(&["a"])), None, &env)
    );
    assert_eq!(
        Err(CommandError::TemplateScanFailed),
        substitute(Some(strings(&[])), Some(vec![]), &env)
    );
    assert_eq!(
        Err(CommandError::TemplateScanFailed),
        substitute(Some(strings(&["a", "b"])), Some(vec![]), &env)
    );
    assert_eq!(
        Err(CommandError::TemplateScanFailed),
        substitute(Some(strings(&["a", "b"])), Some(vec![None]), &env)
    );
}

#[test]
fn template_pattern_is_what_the_search_uses() {
    assert_eq!(
        "\\{\\{[ \\t\\r\\n\\x0C]*([A-Za-z0-9_]+)[ \\t\\r\\n\\x0C]*\\}\\}",
        TEMPLATE
    );
}

#[test]
fn only_path_and_allowed_variables_are_inherited() {
    let env = environment(&[
        ("PATH", "im_the_path"),
        ("TESTVAR1", "one"),
        ("TESTVAR2", "two"),
        ("TESTVAR3", "three"),
    ]);
    let mut spec = shell("echo $PATH $TESTVAR1 $TESTVAR2 $TESTVAR3");
    assert_eq!(
        Ok(PreparedCommand {
            program: "/bin/sh".to_string(),
            args: strings(&["-c", "echo $PATH $TESTVAR1 $TESTVAR2 $TESTVAR3"]),
            env: vec![("PATH".to_string(), "im_the_path".to_string())],
            user: None,
        }),
        prepare(&spec, &env, None)
    );
    spec.env_vars = strings(&["TESTVAR2", "TESTVAR3"]);
    assert_eq!(
        Ok(PreparedCommand {
            program: "/bin/sh".to_string(),
            args: strings(&["-c", "echo $PATH $TESTVAR1 $TESTVAR2 $TESTVAR3"]),
            env: vec![
                ("PATH".to_string(), "im_the_path".to_string()),
                ("TESTVAR2".to_string(), "two".to_string()),
                ("TESTVAR3".to_string(), "three".to_string()),
            ],
            user: None,
        }),
        prepare(&spec, &env, None)
    );
}

#[test]
fn path_is_left_out_where_it_is_not_set() {
    let env = environment(&[("HOME", "/root")]);
    let mut spec = shell("true");
    spec.env_vars = strings(&["HOME"]);
    let prepared = prepare(&spec, &env, None).expect("the command is prepared");
    assert_eq!(vec![("HOME".to_string(), "/root".to_string())], prepared.env);
}

#[test]
fn missing_allowed_variable_is_an_error() {
    let env = environment(&[("PATH", "im_the_path"), ("HOME", "/root")]);
    let mut spec = shell("echo $MISSINGVAR >> result");
    spec.env_vars = strings(&["HOME", "MISSINGVAR", "ALSO_MISSING"]);
    assert_eq!(
        Err(CommandError::MissingEnvironmentVariable(
            "MISSINGVAR".to_string()
        )),
        prepare(&spec, &env, None)
    );
    assert_eq!(
        Err(CommandError::MissingEnvironmentVariable(
            "MISSINGVAR".to_string()
        )),
        prepare_command(&spec, &env)
    );
}

#[test]
fn references_reach_variables_that_are_not_allowed() {
    let env = environment(&[
        ("PATH", "im_the_path"),
        ("TESTVAR1", "one"),
        ("TESTVAR2", "two"),
    ]);
    let spec = shell("echo $PATH $TESTVAR1 {{TESTVAR2}} >> result");
    assert_eq!(
        Ok(PreparedCommand {
            program: "/bin/sh".to_string(),
            args: strings(&["-c", "echo $PATH $TESTVAR1 two >> result"]),
            env: vec![("PATH".to_string(), "im_the_path".to_string())],
            user: None,
        }),
        prepare_command(&spec, &env)
    );
}

#[test]
fn references_and_allowed_variables_together() {
    let env = environment(&[
        ("PATH", "im_the_path"),
        ("TESTVAR1", "one"),
        ("TESTVAR2", "two"),
    ]);
    let mut spec = shell("echo run: $PATH {{TESTVAR1}} $TESTVAR2 >> result");
    spec.env_vars = strings(&["TESTVAR2"]);
    assert_eq!(
        Ok(PreparedCommand {
            program: "/bin/sh".to_string(),
            args: strings(&["-c", "echo run: $PATH one $TESTVAR2 >> result"]),
            env: vec![
                ("PATH".to_string(), "im_the_path".to_string()),
                ("TESTVAR2".to_string(), "two".to_string()),
            ],
            user: None,
        }),
        prepare_command(&spec, &env)
    );
}

#[test]
fn missing_referenced_variable_is_an_error() {
    let env = environment(&[("PATH", "im_the_path")]);
    let spec = shell("echo {{MISSINGVAR}} >> result");
    assert_eq!(
        Err(CommandError::TemplateExpansionFailed(
            "MISSINGVAR".to_string()
        )),
        prepare_command(&spec, &env)
    );
}

#[test]
fn the_program_is_not_searched_for_references() {
    let env = environment(&[("A", "a")]);
    let spec = CommandSpec {
        user: None,
        env_vars: vec![],
        program: "/opt/{{A}}/{{MISSING}}".to_string(),
        args: strings(&["{{A}}"]),
    };
    let prepared = prepare_command(&spec, &env).expect("the command is prepared");
    assert_eq!("/opt/{{A}}/{{MISSING}}", prepared.program);
    assert_eq!(strings(&["a"]), prepared.args);
}

#[test]
fn errors_of_the_arguments_come_before_those_of_the_variables() {
    let env = environment(&[]);
    let mut spec = shell("{{MISSING_IN_ARG}}");
    spec.env_vars = strings(&["MISSING_ALLOWED"]);
    spec.user = Some("app".to_string());
    assert_eq!(
        Err(CommandError::TemplateExpansionFailed(
            "MISSING_IN_ARG".to_string()
        )),
        prepare(&spec, &env, None)
    );
    spec.args = strings(&["-c", "true"]);
    assert_eq!(
        Err(CommandError::MissingEnvironmentVariable(
            "MISSING_ALLOWED".to_string()
        )),
        prepare(&spec, &env, None)
    );
    spec.env_vars = vec![];
    assert_eq!(
        Err(CommandError::UnknownUser("app".to_string())),
        prepare(&spec, &env, None)
    );
}

#[test]
fn the_user_that_was_found_is_kept() {
    let env = environment(&[]);
    let mut spec = shell("true");
    let ids = UserIds { uid: 1000, gid: 100 };
    assert_eq!(
        None,
        prepare(&spec, &env, Some(ids))
            .expect("the command is prepared")
            .user
    );
    spec.user = Some("app".to_string());
    assert_eq!(
        Some(ids),
        prepare(&spec, &env, Some(ids))
            .expect("the command is prepared")
            .user
    );
}

#[test]
fn a_user_that_nobody_knows_is_an_error() {
    let env = environment(&[]);
    let mut spec = shell("true");
    spec.user = Some("no such user \0 anywhere".to_string());
    assert_eq!(
        Err(CommandError::UnknownUser(
            "no such user \0 anywhere".to_string()
        )),
        prepare_command(&spec, &env)
    );
}

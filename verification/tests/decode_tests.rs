//! Decoding whole configuration documents.

use groundcontrol::config::command::CommandSpec;
use groundcontrol::config::decode::{
    decode, decode_process, dedup, first_unknown, CommandDecodeError, DecodeError, KeySet,
    ProcessDecodeError, Slot,
};
use groundcontrol::config::process::{ProcessConfig, StopMechanism};
use groundcontrol::config::signal::SignalConfig;
use groundcontrol::config::value::{get, strings, Value};
use groundcontrol::config::{first_duplicate, Config};

fn document_value(value: &toml::Value) -> Value {
    match value {
        toml::Value::String(s) => Value::String(s.clone()),
        toml::Value::Array(items) => Value::Array(items.iter().map(document_value).collect()),
        toml::Value::Table(table) => Value::Table(
            table
                .iter()
                .map(|(key, value)| (key.clone(), document_value(value)))
                .collect(),
        ),
        _ => Value::Other,
    }
}

fn document(text: &str) -> Value {
    let parsed: toml::Value = toml::from_str(text).expect("the text is TOML");
    document_value(&parsed)
}

fn text(s: &str) -> Value {
    Value::String(s.to_string())
}

fn table(entries: &[(&str, Value)]) -> Value {
    Value::Table(
        entries
            .iter()
            .map(|(key, value)| (key.to_string(), clone_value(value)))
            .collect(),
    )
}

fn clone_value(value: &Value) -> Value {
    match value {
        Value::String(s) => Value::String(s.clone()),
        Value::Array(items) => Value::Array(items.iter().map(clone_value).collect()),
        Value::Table(entries) => Value::Table(
            entries
                .iter()
                .map(|(key, value)| (key.clone(), clone_value(value)))
                .collect(),
        ),
        Value::Other => Value::Other,
    }
}

fn shell(script: &str) -> CommandSpec {
    CommandSpec {
        user: None,
        env_vars: vec![],
        program: "/bin/sh".to_string(),
        args: vec!["-c".to_string(), script.to_string()],
    }
}

#[test]
fn decodes_a_whole_document() {
    let config = decode(&document(
        r##"
        [[processes]]
        name = "oneshot"
        pre = [ "/bin/sh", "-c", "echo oneshot-pre" ]
        post = [ "/bin/sh", "-c", "echo oneshot-post" ]

        [[processes]]
        name = "daemon"
        run = { user = "app", env-vars = ["HOME"], command = "/bin/daemon --foreground" }
        stop = "SIGQUIT"

        [[processes]]
        name = "other"
        run = "/bin/other"
        stop = [ "/bin/other", "--stop" ]
        "##,
    ));
    assert_eq!(
        Ok(Config {
            processes: vec![
                ProcessConfig {
                    name: "oneshot".to_string(),
                    pre: Some(shell("echo oneshot-pre")),
                    run: None,
                    stop: StopMechanism::Signal(SignalConfig::SIGTERM),
                    post: Some(shell("echo oneshot-post")),
                },
                ProcessConfig {
                    name: "daemon".to_string(),
                    pre: None,
                    run: Some(CommandSpec {
                        user: Some("app".to_string()),
                        env_vars: vec!["HOME".to_string()],
                        program: "/bin/daemon".to_string(),
                        args: vec!["--foreground".to_string()],
                    }),
                    stop: StopMechanism::Signal(SignalConfig::SIGQUIT),
                    post: None,
                },
                ProcessConfig {
                    name: "other".to_string(),
                    pre: None,
                    run: Some(CommandSpec {
                        user: None,
                        env_vars: vec![],
                        program: "/bin/other".to_string(),
                        args: vec![],
                    }),
                    stop: StopMechanism::Command(CommandSpec {
                        user: None,
                        env_vars: vec![],
                        program: "/bin/other".to_string(),
                        args: vec!["--stop".to_string()],
                    }),
                    post: None,
                },
            ]
        }),
        config
    );
    assert!(config.unwrap().is_valid());
}

#[test]
fn decodes_an_empty_array_of_processes() {
    assert_eq!(
        Ok(Config { processes: vec![] }),
        decode(&document("processes = []"))
    );
}

#[test]
fn passes_over_other_keys_of_the_document() {
    assert_eq!(
        Ok(Config { processes: vec![] }),
        decode(&document("title = \"x\"\nprocesses = []\n[extra]\nkey = 1"))
    );
}

#[test]
fn document_has_to_be_a_table_with_processes() {
    assert_eq!(Err(DecodeError::NotATable), decode(&text("processes")));
    assert_eq!(Err(DecodeError::NotATable), decode(&Value::Other));
    assert_eq!(Err(DecodeError::NotATable), decode(&Value::Array(vec![])));
    assert_eq!(Err(DecodeError::MissingProcesses), decode(&document("")));
    assert_eq!(
        Err(DecodeError::ProcessesNotAnArray),
        decode(&document("processes = \"none\""))
    );
    assert_eq!(
        Err(DecodeError::ProcessesNotAnArray),
        decode(&document("[processes]\nname = \"a\""))
    );
}

#[test]
fn reports_the_first_process_that_is_none() {
    assert_eq!(
        Err(DecodeError::Process(1, ProcessDecodeError::MissingName)),
        decode(&document(
            r##"
            [[processes]]
            name = "a"
            [[processes]]
            run = "/bin/true"
            [[processes]]
            name = 3
            "##
        ))
    );
    assert_eq!(
        Err(DecodeError::Process(0, ProcessDecodeError::NotATable)),
        decode(&document(r#"processes = ["a"]"#))
    );
}

#[test]
fn names_have_to_differ() {
    assert_eq!(
        Err(DecodeError::DuplicateName(2)),
        decode(&document(
            r##"
            [[processes]]
            name = "a"
            [[processes]]
            name = "b"
            [[processes]]
            name = "a"
            [[processes]]
            name = "b"
            "##
        ))
    );
}

#[test]
fn names_may_not_be_empty() {
    assert_eq!(
        Err(ProcessDecodeError::InvalidName),
        decode_process(&table(&[("name", text(""))])).map(|_| ())
    );
    assert_eq!(
        Err(ProcessDecodeError::InvalidName),
        decode_process(&table(&[("name", Value::Other)])).map(|_| ())
    );
    assert_eq!(
        Err(ProcessDecodeError::MissingName),
        decode_process(&table(&[])).map(|_| ())
    );
}

#[test]
fn process_holds_only_the_keys_that_are_known() {
    assert_eq!(
        Err(ProcessDecodeError::UnknownKey(1)),
        decode_process(&table(&[
            ("name", text("a")),
            ("type", text("daemon")),
            ("other", text("x"))
        ]))
        .map(|_| ())
    );
    // An unknown key comes before every other error.
    assert_eq!(
        Err(ProcessDecodeError::UnknownKey(0)),
        decode_process(&table(&[("shell", text("sh")), ("pre", Value::Other)])).map(|_| ())
    );
}

#[test]
fn reports_the_slot_whose_value_is_no_command() {
    for (key, slot) in [
        ("pre", Slot::Pre),
        ("run", Slot::Run),
        ("stop", Slot::Stop),
        ("post", Slot::Post),
    ] {
        assert_eq!(
            Err(ProcessDecodeError::Command(
                slot,
                CommandDecodeError::WrongType
            )),
            decode_process(&table(&[("name", text("a")), (key, Value::Other)])).map(|_| ())
        );
        assert_eq!(
            Err(ProcessDecodeError::Command(
                slot,
                CommandDecodeError::MissingCommand
            )),
            decode_process(&table(&[("name", text("a")), (key, table(&[]))])).map(|_| ())
        );
    }
    // Of several errors the first slot's is given: pre, run, stop, post.
    assert_eq!(
        Err(ProcessDecodeError::Command(
            Slot::Run,
            CommandDecodeError::EmptyCommand
        )),
        decode_process(&table(&[
            ("post", Value::Other),
            ("stop", Value::Other),
            ("run", text("")),
            ("name", text("a")),
        ]))
        .map(|_| ())
    );
}

#[test]
fn process_without_commands_is_a_one_shot_with_the_default_stop() {
    assert_eq!(
        Ok(ProcessConfig {
            name: "a".to_string(),
            pre: None,
            run: None,
            stop: StopMechanism::Signal(SignalConfig::SIGTERM),
            post: None,
        }),
        decode_process(&table(&[("name", text("a"))]))
    );
}

#[test]
fn tables_give_the_first_value_of_a_key() {
    let entries = vec![
        ("a".to_string(), text("1")),
        ("b".to_string(), text("2")),
        ("a".to_string(), text("3")),
    ];
    assert_eq!(Some(&text("1")), get(&entries, "a"));
    assert_eq!(Some(&text("2")), get(&entries, "b"));
    assert_eq!(None, get(&entries, "c"));
    assert_eq!(None, get(&vec![], "a"));
}

#[test]
fn first_unknown_key_is_found() {
    let entries = vec![
        ("command".to_string(), text("1")),
        ("user".to_string(), text("2")),
        ("name".to_string(), text("3")),
        ("env-vars".to_string(), text("4")),
        ("nope".to_string(), text("5")),
    ];
    assert_eq!(Some(2), first_unknown(&entries, KeySet::Command));
    assert_eq!(Some(0), first_unknown(&entries, KeySet::Process));
    let known = vec![
        ("command".to_string(), text("1")),
        ("user".to_string(), text("2")),
    ];
    assert_eq!(None, first_unknown(&known, KeySet::Command));
    assert_eq!(None, first_unknown(&vec![], KeySet::Process));
    for key in ["name", "pre", "run", "stop", "post"] {
        assert!(KeySet::Process.known(&key.to_string()));
        assert!(!KeySet::Command.known(&key.to_string()));
    }
    for key in ["command", "user", "env-vars"] {
        assert!(KeySet::Command.known(&key.to_string()));
        assert!(!KeySet::Process.known(&key.to_string()));
    }
    assert!(!KeySet::Command.known(&"env_vars".to_string()));
    assert!(!KeySet::Process.known(&"Name".to_string()));
}

#[test]
fn strings_of_a_list_are_taken_where_all_are_strings() {
    assert_eq!(
        Some(vec!["a".to_string(), "b".to_string()]),
        strings(&vec![text("a"), text("b")])
    );
    assert_eq!(Some(vec![]), strings(&vec![]));
    assert_eq!(None, strings(&vec![text("a"), Value::Array(vec![])]));
}

#[test]
fn later_occurrences_are_dropped() {
    let given: Vec<String> = ["b", "a", "b", "c", "a", "b"]
        .iter()
        .map(|s| s.to_string())
        .collect();
    assert_eq!(
        vec!["b".to_string(), "a".to_string(), "c".to_string()],
        dedup(&given)
    );
    assert_eq!(Vec::<String>::new(), dedup(&vec![]));
}

fn named(names: &[&str]) -> Config {
    Config {
        processes: names
            .iter()
            .map(|name| ProcessConfig {
                name: name.to_string(),
                pre: None,
                run: None,
                stop: StopMechanism::default(),
                post: None,
            })
            .collect(),
    }
}

#[test]
fn valid_configurations_have_names_that_differ() {
    assert!(named(&[]).is_valid());
    assert!(named(&["a"]).is_valid());
    assert!(named(&["a", "b", "c"]).is_valid());
    assert!(!named(&["a", ""]).is_valid());
    assert!(!named(&["a", "b", "a"]).is_valid());
    assert_eq!(None, first_duplicate(&named(&["a", "b", "c"]).processes));
    assert_eq!(
        Some(3),
        first_duplicate(&named(&["a", "b", "c", "b", "a"]).processes)
    );
    assert_eq!(Some(1), first_duplicate(&named(&["", ""]).processes));
}

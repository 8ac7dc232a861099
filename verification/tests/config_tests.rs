//! Decoding commands and stop mechanisms from TOML.

use groundcontrol::config::command::CommandSpec;
use groundcontrol::config::decode::{
    decode_command, decode_stop, CommandDecodeError, ProcessDecodeError, Slot,
};
use groundcontrol::config::process::StopMechanism;
use groundcontrol::config::signal::SignalConfig;
use groundcontrol::config::value::Value;

/// Turns a TOML value into a value of the library, one for one.
fn config_value(value: &toml::Value) -> Value {
    match value {
        toml::Value::String(s) => Value::String(s.clone()),
        toml::Value::Array(items) => Value::Array(items.iter().map(config_value).collect()),
        toml::Value::Table(table) => Value::Table(
            table
                .iter()
                .map(|(key, value)| (key.clone(), config_value(value)))
                .collect(),
        ),
        _ => Value::Other,
    }
}

/// Parses a TOML document and hands out the value under `key`.
fn config_entry(text: &str, key: &str) -> Value {
    let document: toml::Value = toml::from_str(text).expect("Failed to parse test TOML");
    config_value(document.get(key).expect("the key is there"))
}

fn run_me() -> CommandSpec {
    CommandSpec {
        user: None,
        env_vars: vec![],
        program: String::from("/app/run-me.sh"),
        args: vec![
            String::from("using"),
            String::from("these"),
            String::from("args"),
        ],
    }
}

#[test]
fn supports_whitespace_separated_command_lines() {
    let toml = r#"run = "/app/run-me.sh using these args""#;
    let decoded = decode_command(&config_entry(toml, "run")).expect("Failed to parse test TOML");
    assert_eq!(
        CommandSpec {
            user: None,
            env_vars: Default::default(),
            program: String::from("/app/run-me.sh"),
            args: vec![
                String::from("using"),
                String::from("these"),
                String::from("args"),
            ]
        },
        decoded
    );
}

#[test]
fn supports_command_vectors() {
    let toml = r#"run = ["/app/run-me.sh", "using", "these", "args"]"#;
    let decoded = decode_command(&config_entry(toml, "run")).expect("Failed to parse test TOML");
    assert_eq!(
        CommandSpec {
            user: None,
            env_vars: Default::default(),
            program: String::from("/app/run-me.sh"),
            args: vec![
                String::from("using"),
                String::from("these"),
                String::from("args"),
            ]
        },
        decoded
    );
}

#[test]
fn supports_detailed_whitespace_separated_command_lines() {
    let toml = r#"run = { command = "/app/run-me.sh using these args" }"#;
    let decoded = decode_command(&config_entry(toml, "run")).expect("Failed to parse test TOML");
    assert_eq!(
        CommandSpec {
            user: None,
            env_vars: Default::default(),
            program: String::from("/app/run-me.sh"),
            args: vec![
                String::from("using"),
                String::from("these"),
                String::from("args"),
            ]
        },
        decoded
    );

    let toml = r#"run = { user = "app", command = "/app/run-me.sh using these args" }"#;
    let decoded = decode_command(&config_entry(toml, "run")).expect("Failed to parse test TOML");
    assert_eq!(
        CommandSpec {
            user: Some(String::from("app")),
            env_vars: Default::default(),
            program: String::from("/app/run-me.sh"),
            args: vec![
                String::from("using"),
                String::from("these"),
                String::from("args"),
            ]
        },
        decoded
    );
}

#[test]
fn supports_detailed_command_vectors() {
    let toml = r#"run = { command = ["/app/run-me.sh", "using", "these", "args"] }"#;
    let decoded = decode_command(&config_entry(toml, "run")).expect("Failed to parse test TOML");
    assert_eq!(
        CommandSpec {
            user: None,
            env_vars: Default::default(),
            program: String::from("/app/run-me.sh"),
            args: vec![
                String::from("using"),
                String::from("these"),
                String::from("args"),
            ]
        },
        decoded
    );

    let toml = r#"run = { user = "app", env-vars = ["USER", "HOME"], command = ["/app/run-me.sh", "using", "these", "args"] }"#;
    let decoded = decode_command(&config_entry(toml, "run")).expect("Failed to parse test TOML");
    assert_eq!(
        CommandSpec {
            user: Some(String::from("app")),
            env_vars: vec!["USER".into(), "HOME".into()],
            program: String::from("/app/run-me.sh"),
            args: vec![
                String::from("using"),
                String::from("these"),
                String::from("args"),
            ]
        },
        decoded
    );
}

#[test]
fn requires_command_in_detailed_command() {
    let toml = r#"run = { }"#;
    let error = decode_command(&config_entry(toml, "run")).unwrap_err();
    assert_eq!(CommandDecodeError::MissingCommand, error);

    let toml = r#"run = { user = "app" }"#;
    let error = decode_command(&config_entry(toml, "run")).unwrap_err();
    assert_eq!(CommandDecodeError::MissingCommand, error);
}

#[test]
fn supports_signal_names_in_stop() {
    let toml = r#"stop = "SIGTERM""#;
    let decoded =
        decode_stop(Some(&config_entry(toml, "stop"))).expect("Failed to parse test TOML");
    assert_eq!(StopMechanism::Signal(SignalConfig::SIGTERM), decoded);
}

#[test]
fn supports_every_signal_name_in_stop() {
    for (name, signal) in [
        ("SIGINT", SignalConfig::SIGINT),
        ("SIGQUIT", SignalConfig::SIGQUIT),
        ("SIGTERM", SignalConfig::SIGTERM),
    ] {
        let decoded = decode_stop(Some(&Value::String(name.to_string())));
        assert_eq!(Ok(StopMechanism::Signal(signal)), decoded);
        assert_eq!(name, signal.name());
        assert_eq!(Some(signal), SignalConfig::from_name(&name.to_string()));
    }
    assert_eq!(None, SignalConfig::from_name(&"sigterm".to_string()));
    assert_eq!(None, SignalConfig::from_name(&"SIGKILL".to_string()));
}

#[test]
fn stop_defaults_to_the_termination_signal() {
    assert_eq!(
        Ok(StopMechanism::Signal(SignalConfig::SIGTERM)),
        decode_stop(None)
    );
    assert_eq!(
        StopMechanism::Signal(SignalConfig::SIGTERM),
        StopMechanism::default()
    );
}

#[test]
fn stop_that_is_no_signal_name_is_a_command() {
    let toml = r#"stop = "/user/binary/nope""#;
    let decoded = decode_stop(Some(&config_entry(toml, "stop")));
    assert_eq!(
        Ok(StopMechanism::Command(CommandSpec {
            user: None,
            env_vars: vec![],
            program: String::from("/user/binary/nope"),
            args: vec![],
        })),
        decoded
    );

    let toml = r#"stop = [ "/bin/sh", "-c", "exit 1" ]"#;
    let decoded = decode_stop(Some(&config_entry(toml, "stop")));
    assert_eq!(
        Ok(StopMechanism::Command(CommandSpec {
            user: None,
            env_vars: vec![],
            program: String::from("/bin/sh"),
            args: vec![String::from("-c"), String::from("exit 1")],
        })),
        decoded
    );

    let toml = r#"stop = 15"#;
    assert_eq!(
        Err(ProcessDecodeError::Command(
            Slot::Stop,
            CommandDecodeError::WrongType
        )),
        decode_stop(Some(&config_entry(toml, "stop")))
    );
}

#[test]
fn rejects_unknown_keys_in_detailed_command() {
    let toml = r#"run = { command = "/bin/true", user = "app", shell = "sh" }"#;
    // The entries of a TOML table come in the order of their keys.
    assert_eq!(
        Err(CommandDecodeError::UnknownKey(1)),
        decode_command(&config_entry(toml, "run"))
    );
}

#[test]
fn rejects_commands_without_a_program() {
    assert_eq!(
        Err(CommandDecodeError::EmptyCommand),
        decode_command(&config_entry(r#"run = """#, "run"))
    );
    assert_eq!(
        Err(CommandDecodeError::EmptyCommand),
        decode_command(&config_entry(r#"run = " /bin/true""#, "run"))
    );
    assert_eq!(
        Err(CommandDecodeError::EmptyCommand),
        decode_command(&config_entry(r#"run = []"#, "run"))
    );
    assert_eq!(
        Err(CommandDecodeError::EmptyCommand),
        decode_command(&config_entry(r#"run = ["", "x"]"#, "run"))
    );
    assert_eq!(
        Err(CommandDecodeError::EmptyCommand),
        decode_command(&config_entry(r#"run = { command = [] }"#, "run"))
    );
}

#[test]
fn rejects_values_of_the_wrong_type() {
    assert_eq!(
        Err(CommandDecodeError::WrongType),
        decode_command(&config_entry(r#"run = 3"#, "run"))
    );
    assert_eq!(
        Err(CommandDecodeError::NotAString),
        decode_command(&Value::Array(vec![
            Value::String("/bin/true".to_string()),
            Value::Other
        ]))
    );
    assert_eq!(
        Err(CommandDecodeError::WrongType),
        decode_command(&config_entry(
            r#"run = { command = { command = "/bin/true" } }"#,
            "run"
        ))
    );
    assert_eq!(
        Err(CommandDecodeError::NotAString),
        decode_command(&config_entry(
            r#"run = { command = "/bin/true", user = 0 }"#,
            "run"
        ))
    );
    assert_eq!(
        Err(CommandDecodeError::WrongType),
        decode_command(&config_entry(
            r#"run = { command = "/bin/true", env-vars = "HOME" }"#,
            "run"
        ))
    );
    assert_eq!(
        Err(CommandDecodeError::NotAString),
        decode_command(&config_entry(
            r#"run = { command = "/bin/true", env-vars = [1, 2] }"#,
            "run"
        ))
    );
}

#[test]
fn keeps_each_allowed_variable_once() {
    let toml = r#"run = { command = "/bin/true", env-vars = ["HOME", "USER", "HOME", "USER", "LANG"] }"#;
    let decoded = decode_command(&config_entry(toml, "run")).expect("Failed to parse test TOML");
    assert_eq!(
        vec!["HOME".to_string(), "USER".to_string(), "LANG".to_string()],
        decoded.env_vars
    );
}

#[test]
fn single_spaces_separate_the_words_of_a_command_line() {
    let decoded = decode_command(&Value::String("/bin/echo a  b ".to_string()))
        .expect("Failed to parse test TOML");
    assert_eq!("/bin/echo", decoded.program);
    assert_eq!(
        vec![
            "a".to_string(),
            "".to_string(),
            "b".to_string(),
            "".to_string()
        ],
        decoded.args
    );
}

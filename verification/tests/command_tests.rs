use robin::split_command_and_args;
use robin::replace_variables;
use robin::replace_variables_in_string;
use robin::ScriptBody;

#[test]
fn test_split_command_and_args() {
    let args = vec![
        "command".to_string(),
        "--arg1=value1".to_string(),
        "--arg2=value2".to_string(),
    ];
    let (command, var_args) = split_command_and_args(&args);

    assert_eq!(command, "command");
    assert_eq!(var_args, vec!["--arg1=value1", "--arg2=value2"]);
}

#[test]
fn test_replace_variables() {
    let script = ScriptBody::Single("echo {{VAR1}} {{VAR2}}".to_string());
    let args = vec!["--VAR1=hello".to_string(), "--VAR2=world".to_string()];

    let result = replace_variables(&script, &args).unwrap();
    assert_eq!(result, ScriptBody::Single("echo hello world".to_string()));
}

#[test]
fn test_replace_variables_with_defaults() {
    let script = ScriptBody::Single("echo {{VAR1=hello}} {{VAR2=world}}".to_string());
    let args: Vec<String> = vec![];

    let result = replace_variables(&script, &args).unwrap();
    assert_eq!(result, ScriptBody::Single("echo hello world".to_string()));
}

#[test]
fn test_replace_variables_with_enum_validation() {
    let script = ScriptBody::Single("deploy {{env=[staging,prod]}}".to_string());

    // Valid value
    let args = vec!["--env=staging".to_string()];
    let result = replace_variables(&script, &args).unwrap();
    assert_eq!(result, ScriptBody::Single("deploy staging".to_string()));

    // Invalid value
    let args = vec!["--env=invalid".to_string()];
    assert!(replace_variables(&script, &args).is_err());
}

#[test]
fn test_replace_variables_with_array_commands() {
    let commands = vec![
        "echo {{VAR1=hello}}".to_string(),
        "echo {{VAR2=world}}".to_string(),
    ];
    let script = ScriptBody::Sequence(commands);
    let args: Vec<String> = vec![];

    let result = replace_variables(&script, &args).unwrap();
    match result {
        ScriptBody::Sequence(cmds) => {
            assert_eq!(cmds[0], "echo hello");
            assert_eq!(cmds[1], "echo world");
        }
        ScriptBody::Single(_) => panic!("expected a sequence"),
    }
}

#[test]
fn test_split_empty_tokens() {
    let args: Vec<String> = vec![];
    let (command, var_args) = split_command_and_args(&args);
    assert_eq!(command, "");
    assert!(var_args.is_empty());
}

#[test]
fn test_split_multiword_name() {
    let args = vec!["deploy".to_string(), "staging".to_string()];
    let (command, var_args) = split_command_and_args(&args);
    assert_eq!(command, "deploy staging");
    assert!(var_args.is_empty());
}

#[test]
fn test_split_keeps_plain_tokens_after_first_flag() {
    let args = vec![
        "deploy".to_string(),
        "--env=prod".to_string(),
        "staging".to_string(),
    ];
    let (command, var_args) = split_command_and_args(&args);
    assert_eq!(command, "deploy");
    assert_eq!(var_args, vec!["--env=prod", "staging"]);
}

#[test]
fn test_replace_missing_variable_error() {
    let err = replace_variables_in_string("echo {{VAR1}}", &[]).unwrap_err();
    assert_eq!(
        err,
        robin::RobinError::MissingVariable {
            name: "VAR1".to_string()
        }
    );
    assert_eq!(err.message(), "Missing required variable: VAR1");
}

#[test]
fn test_replace_invalid_enum_error_lists_allowed_values() {
    let err =
        replace_variables_in_string("deploy {{env=[staging,prod]}}", &["--env=qa".to_string()])
            .unwrap_err();
    assert_eq!(
        err,
        robin::RobinError::InvalidEnumValue {
            name: "env".to_string(),
            value: "qa".to_string(),
            allowed: vec!["staging".to_string(), "prod".to_string()],
        }
    );
    assert_eq!(
        err.message(),
        "Value 'qa' for env must be one of: staging, prod"
    );
}

#[test]
fn test_replace_enum_values_are_trimmed() {
    let out = replace_variables_in_string(
        "deploy {{env=[ staging , prod ]}}",
        &["--env=prod".to_string()],
    )
    .unwrap();
    assert_eq!(out, "deploy prod");
}

#[test]
fn test_replace_without_placeholders_is_identity() {
    let out = replace_variables_in_string("cargo build --release", &["--x=1".to_string()]).unwrap();
    assert_eq!(out, "cargo build --release");
}

#[test]
fn test_replace_first_matching_argument_wins() {
    let out = replace_variables_in_string(
        "echo {{v}}",
        &["--v=first".to_string(), "--v=second".to_string()],
    )
    .unwrap();
    assert_eq!(out, "echo first");
}

#[test]
fn test_replace_same_placeholder_twice() {
    let out =
        replace_variables_in_string("echo {{v}} {{v}}", &["--v=x".to_string()]).unwrap();
    assert_eq!(out, "echo x x");
}

#[test]
fn test_replace_argument_beats_default() {
    let out =
        replace_variables_in_string("echo {{v=fallback}}", &["--v=given".to_string()]).unwrap();
    assert_eq!(out, "echo given");
}

#[test]
fn test_replace_malformed_placeholder_kept_verbatim() {
    let out = replace_variables_in_string("echo {{}} {{a b}}", &[]).unwrap();
    assert_eq!(out, "echo {{}} {{a b}}");
}

#[test]
fn test_sequence_substitution_fails_fast() {
    let script = ScriptBody::Sequence(vec![
        "echo {{a=1}}".to_string(),
        "echo {{missing}}".to_string(),
        "echo {{b=2}}".to_string(),
    ]);
    let err = replace_variables(&script, &[]).unwrap_err();
    assert_eq!(
        err,
        robin::RobinError::MissingVariable {
            name: "missing".to_string()
        }
    );
}

use robin::Cli;
use robin::RobinConfig;
use robin::RobinError;
use robin::ScriptBody;
use robin::ScriptEntry;
use robin::SequenceRun;
use robin::ToolSpec;
use robin::TopAction;
use robin::UpdateRule;
use robin::detect_required_tools;
use robin::plan_run;
use robin::plan_updates;
use robin::render_command_list;
use robin::summarize_checks;

fn single(name: &str, cmd: &str) -> ScriptEntry {
    ScriptEntry {
        name: name.to_string(),
        body: ScriptBody::Single(cmd.to_string()),
    }
}

#[test]
fn test_sequence_fail_fast() {
    // A sequence of shell-truthy and shell-falsy commands: the run must
    // report the failure at index 1, and the third command is never handed
    // out to be executed.
    let body = ScriptBody::Sequence(vec![
        "true".to_string(),
        "false".to_string(),
        "echo unreachable".to_string(),
    ]);
    let mut run = SequenceRun::new(body);

    assert_eq!(run.current(), Some(&"true".to_string()));
    run.record_exit(true, Some(0));

    assert_eq!(run.current(), Some(&"false".to_string()));
    run.record_exit(false, Some(1));

    // Fail-fast: nothing more to run; "echo unreachable" was never current.
    assert_eq!(run.current(), None);
    let err = run.outcome().unwrap_err();
    assert_eq!(
        err,
        RobinError::SequenceStepFailed {
            index: 1,
            command: "false".to_string(),
            code: Some(1),
        }
    );
}

#[test]
fn test_sequence_success() {
    let body = ScriptBody::Sequence(vec!["echo one".to_string(), "echo two".to_string()]);
    let mut run = SequenceRun::new(body);
    while let Some(_cmd) = run.current().cloned() {
        run.record_exit(true, Some(0));
    }
    assert!(run.outcome().is_ok());
}

#[test]
fn test_single_command_failure() {
    let body = ScriptBody::Single("nonexistent_command".to_string());
    let mut run = SequenceRun::new(body);
    assert_eq!(run.current(), Some(&"nonexistent_command".to_string()));
    run.record_exit(false, Some(127));
    let err = run.outcome().unwrap_err();
    assert_eq!(
        err,
        RobinError::ScriptFailed {
            command: "nonexistent_command".to_string(),
            code: Some(127),
        }
    );
    assert_eq!(err.message(), "Script failed: nonexistent_command");
}

#[test]
fn test_plan_run_unknown_script() {
    // A name absent from the merged manifest yields UnknownScript, and no
    // run state is handed out, so no subprocess could start.
    let config = RobinConfig {
        includes: vec![],
        scripts: vec![single("build", "cargo build")],
    };
    let tokens = vec!["deploy".to_string(), "staging".to_string()];
    let err = plan_run(&config, &tokens).unwrap_err();
    assert_eq!(
        err,
        RobinError::UnknownScript {
            name: "deploy staging".to_string()
        }
    );
    assert_eq!(err.message(), "Unknown command: deploy staging");
}

#[test]
fn test_plan_run_resolves_and_substitutes() {
    let config = RobinConfig {
        includes: vec![],
        scripts: vec![single("greet", "echo {{who=world}}")],
    };
    let tokens = vec!["greet".to_string(), "--who=you".to_string()];
    let run = plan_run(&config, &tokens).unwrap();
    assert_eq!(run.current(), Some(&"echo you".to_string()));
}

#[test]
fn test_plan_run_substitution_failure_runs_nothing() {
    let config = RobinConfig {
        includes: vec![],
        scripts: vec![single("greet", "echo {{who}}")],
    };
    let tokens = vec!["greet".to_string()];
    let err = plan_run(&config, &tokens).unwrap_err();
    assert_eq!(
        err,
        RobinError::MissingVariable {
            name: "who".to_string()
        }
    );
}

#[test]
fn test_render_command_list_alignment() {
    let config = RobinConfig {
        includes: vec![],
        scripts: vec![
            single("go", "echo go"),
            single("longer", "echo longer"),
            ScriptEntry {
                name: "many".to_string(),
                body: ScriptBody::Sequence(vec!["echo a".to_string(), "echo b".to_string()]),
            },
        ],
    };
    let lines = render_command_list(&config);
    assert_eq!(
        lines,
        vec![
            "==> go     # echo go",
            "==> longer # echo longer",
            "==> many   # [",
            "       echo a",
            "       echo b",
            "     ]",
        ]
    );
}

#[test]
fn test_detect_required_tools() {
    let config = RobinConfig {
        includes: vec![],
        scripts: vec![
            single("build", "cargo build --release"),
            single("push", "git push origin main"),
        ],
    };
    let tools = vec![
        ToolSpec {
            name: "Node.js".to_string(),
            command: "node".to_string(),
            version_arg: "--version".to_string(),
            patterns: vec!["node ".to_string(), "npm ".to_string(), "npx ".to_string()],
        },
        ToolSpec {
            name: "Cargo".to_string(),
            command: "cargo".to_string(),
            version_arg: "--version".to_string(),
            patterns: vec!["cargo ".to_string()],
        },
        ToolSpec {
            name: "Git".to_string(),
            command: "git".to_string(),
            version_arg: "--version".to_string(),
            patterns: vec!["git ".to_string()],
        },
    ];
    let detected = detect_required_tools(&config, &tools);
    assert_eq!(detected, vec![1, 2]);
}

#[test]
fn test_summarize_checks() {
    let results = vec![true, false, true];
    let (passed, found, missing) = summarize_checks(&results);
    assert!(!passed);
    assert_eq!(found, 2);
    assert_eq!(missing, 1);

    let results = vec![true, true];
    let (passed, found, missing) = summarize_checks(&results);
    assert!(passed);
    assert_eq!(found, 2);
    assert_eq!(missing, 0);
}

#[test]
fn test_summarize_updates() {
    let labels = vec![
        "npm packages".to_string(),
        "Rust".to_string(),
        "Flutter".to_string(),
    ];
    let results = vec![true, false, true];
    let (all_success, updated) = robin::summarize_updates(&labels, &results);
    assert!(!all_success);
    assert_eq!(updated, vec!["npm packages", "Flutter"]);

    let (all_success, updated) = robin::summarize_updates(&labels, &vec![true, true, true]);
    assert!(all_success);
    assert_eq!(updated, labels);
}

#[test]
fn test_plan_updates_matches_detected_tools() {
    let detected = vec!["Cargo".to_string(), "Git".to_string()];
    let rules = vec![
        UpdateRule {
            tool_name: "Node.js".to_string(),
            probe_command: "npm".to_string(),
            update_command: "npm".to_string(),
            update_args: vec!["update".to_string(), "-g".to_string()],
            label: "npm packages".to_string(),
        },
        UpdateRule {
            tool_name: "Cargo".to_string(),
            probe_command: "rustup".to_string(),
            update_command: "rustup".to_string(),
            update_args: vec!["update".to_string()],
            label: "Rust".to_string(),
        },
    ];
    let plan = plan_updates(&detected, &rules);
    assert_eq!(plan, vec![1]);
}

#[test]
fn test_default_action_flags() {
    let cli = Cli {
        command: None,
        list: true,
        interactive: true,
        notify: false,
    };
    assert_eq!(cli.default_action(), TopAction::ShowList);

    let cli = Cli {
        command: None,
        list: false,
        interactive: true,
        notify: false,
    };
    assert_eq!(cli.default_action(), TopAction::Interactive);

    let cli = Cli {
        command: None,
        list: false,
        interactive: false,
        notify: true,
    };
    assert_eq!(cli.default_action(), TopAction::ShowHelp);
}

#[test]
fn test_error_messages() {
    assert_eq!(
        RobinError::ManifestNotFound.message(),
        "No .robin.json found. Run 'robin init' first"
    );
    assert_eq!(
        RobinError::ManifestParseError.message(),
        "Failed to parse .robin.json"
    );
    assert_eq!(
        RobinError::SubprocessLaunchError {
            command: "sh".to_string()
        }
        .message(),
        "Failed to execute script: sh"
    );
    assert_eq!(
        RobinError::NotificationDeliveryError.message(),
        "Failed to send notification"
    );
    assert_eq!(
        RobinError::InvalidScriptShape {
            name: "bad".to_string()
        }
        .message(),
        "Invalid script type for 'bad': must be string or array of strings"
    );
}

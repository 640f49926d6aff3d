use robin::IncludeResolver;
use robin::RawEntry;
use robin::RawItem;
use robin::RawScript;
use robin::RobinConfig;
use robin::RobinError;
use robin::ScriptBody;
use robin::ScriptEntry;
use robin::config_from_raw;

fn single(name: &str, cmd: &str) -> ScriptEntry {
    ScriptEntry {
        name: name.to_string(),
        body: ScriptBody::Single(cmd.to_string()),
    }
}

#[test]
fn test_create_template_contents() {
    let config = RobinConfig::create_template();
    assert!(config.includes.is_empty());
    assert_eq!(config.scripts.len(), 6);
    assert_eq!(
        config.lookup("clean"),
        Some(&ScriptBody::Single("...".to_string()))
    );
    assert_eq!(
        config.lookup("deploy staging"),
        Some(&ScriptBody::Single(
            "echo 'ruby deploy tool --staging'".to_string()
        ))
    );
    assert_eq!(config.lookup("release dev"), Some(&ScriptBody::Single("...".to_string())));
}

#[test]
fn test_lookup_unknown_name() {
    let config = RobinConfig::create_template();
    assert_eq!(config.lookup("does not exist"), None);
}

#[test]
fn test_add_script_appends_and_overwrites() {
    let mut config = RobinConfig {
        includes: vec![],
        scripts: vec![single("build", "cargo build")],
    };
    config.add_script(
        "test".to_string(),
        ScriptBody::Single("cargo test".to_string()),
    );
    assert_eq!(
        config.lookup("test"),
        Some(&ScriptBody::Single("cargo test".to_string()))
    );

    // The new body replaces the old one under the same name.
    config.add_script(
        "build".to_string(),
        ScriptBody::Single("cargo build --release".to_string()),
    );
    assert_eq!(config.scripts.len(), 2);
    assert_eq!(
        config.lookup("build"),
        Some(&ScriptBody::Single("cargo build --release".to_string()))
    );
}

#[test]
fn test_merge_first_writer_wins() {
    // The base manifest defines "clean"; the included manifest defines it
    // differently. After the merge the base's body survives.
    let mut base = RobinConfig {
        includes: vec![],
        scripts: vec![single("clean", "rm -rf target")],
    };
    let included = RobinConfig {
        includes: vec![],
        scripts: vec![
            single("clean", "echo from include"),
            single("fmt", "cargo fmt"),
        ],
    };
    base.merge_from(&included);
    assert_eq!(
        base.lookup("clean"),
        Some(&ScriptBody::Single("rm -rf target".to_string()))
    );
    assert_eq!(
        base.lookup("fmt"),
        Some(&ScriptBody::Single("cargo fmt".to_string()))
    );
    assert_eq!(base.scripts.len(), 2);
}

#[test]
fn test_config_from_raw_shapes() {
    let parts = vec![
        RawEntry {
            name: "one".to_string(),
            script: RawScript::Text("echo one".to_string()),
        },
        RawEntry {
            name: "many".to_string(),
            script: RawScript::List(vec![
                RawItem::Text("echo a".to_string()),
                RawItem::Text("echo b".to_string()),
            ]),
        },
    ];
    let config = config_from_raw(vec![], parts).unwrap();
    assert_eq!(
        config.lookup("one"),
        Some(&ScriptBody::Single("echo one".to_string()))
    );
    assert_eq!(
        config.lookup("many"),
        Some(&ScriptBody::Sequence(vec![
            "echo a".to_string(),
            "echo b".to_string()
        ]))
    );
}

#[test]
fn test_config_from_raw_invalid_shape() {
    let parts = vec![RawEntry {
        name: "bad".to_string(),
        script: RawScript::Other,
    }];
    let err = config_from_raw(vec![], parts).unwrap_err();
    assert_eq!(
        err,
        RobinError::InvalidScriptShape {
            name: "bad".to_string()
        }
    );
}

#[test]
fn test_config_from_raw_invalid_list_item() {
    let parts = vec![RawEntry {
        name: "mixed".to_string(),
        script: RawScript::List(vec![
            RawItem::Text("echo ok".to_string()),
            RawItem::Other,
        ]),
    }];
    let err = config_from_raw(vec![], parts).unwrap_err();
    assert_eq!(
        err,
        RobinError::InvalidScriptShape {
            name: "mixed".to_string()
        }
    );
}

#[test]
fn test_include_resolution_merges_depth_first() {
    let root = RobinConfig {
        includes: vec!["a.json".to_string(), "b.json".to_string()],
        scripts: vec![single("base", "echo base")],
    };
    let mut resolver = IncludeResolver::begin(".robin.json".to_string(), root);

    let first = resolver.step().unwrap().unwrap();
    assert_eq!(first, "a.json");
    resolver.supply(
        first,
        RobinConfig {
            includes: vec![],
            scripts: vec![single("from-a", "echo a"), single("base", "echo shadowed")],
        },
    );

    let second = resolver.step().unwrap().unwrap();
    assert_eq!(second, "b.json");
    resolver.supply(
        second,
        RobinConfig {
            includes: vec![],
            scripts: vec![single("from-b", "echo b")],
        },
    );

    assert_eq!(resolver.step().unwrap(), None);
    let merged = resolver.into_config();
    assert_eq!(
        merged.lookup("base"),
        Some(&ScriptBody::Single("echo base".to_string()))
    );
    assert_eq!(
        merged.lookup("from-a"),
        Some(&ScriptBody::Single("echo a".to_string()))
    );
    assert_eq!(
        merged.lookup("from-b"),
        Some(&ScriptBody::Single("echo b".to_string()))
    );
}

#[test]
fn test_include_resolution_skips_already_loaded() {
    // A diamond: both includes pull in the same shared file; it is loaded
    // only once.
    let root = RobinConfig {
        includes: vec!["left.json".to_string(), "right.json".to_string()],
        scripts: vec![],
    };
    let mut resolver = IncludeResolver::begin(".robin.json".to_string(), root);

    let p = resolver.step().unwrap().unwrap();
    assert_eq!(p, "left.json");
    resolver.supply(
        p,
        RobinConfig {
            includes: vec!["shared.json".to_string()],
            scripts: vec![],
        },
    );

    let p = resolver.step().unwrap().unwrap();
    assert_eq!(p, "shared.json");
    resolver.supply(
        p,
        RobinConfig {
            includes: vec![],
            scripts: vec![single("shared", "echo shared")],
        },
    );

    let p = resolver.step().unwrap().unwrap();
    assert_eq!(p, "right.json");
    resolver.supply(
        p,
        RobinConfig {
            includes: vec!["shared.json".to_string()],
            scripts: vec![],
        },
    );

    // shared.json is already merged; the walk finishes without asking again.
    assert_eq!(resolver.step().unwrap(), None);
    let merged = resolver.into_config();
    assert_eq!(
        merged.lookup("shared"),
        Some(&ScriptBody::Single("echo shared".to_string()))
    );
}

#[test]
fn test_no_includes_finishes_at_once() {
    let root = RobinConfig {
        includes: vec![],
        scripts: vec![single("build", "cargo build")],
    };
    let mut resolver = IncludeResolver::begin(".robin.json".to_string(), root);
    assert_eq!(resolver.step().unwrap(), None);
    let merged = resolver.into_config();
    assert_eq!(
        merged.lookup("build"),
        Some(&ScriptBody::Single("cargo build".to_string()))
    );
    assert_eq!(merged.scripts.len(), 1);
}

#[test]
fn test_cyclic_include_detected() {
    let root = RobinConfig {
        includes: vec!["a.json".to_string()],
        scripts: vec![],
    };
    let mut resolver = IncludeResolver::begin(".robin.json".to_string(), root);

    let p = resolver.step().unwrap().unwrap();
    assert_eq!(p, "a.json");
    resolver.supply(
        p,
        RobinConfig {
            includes: vec![".robin.json".to_string()],
            scripts: vec![],
        },
    );

    let err = resolver.step().unwrap_err();
    assert_eq!(
        err,
        RobinError::CyclicInclude {
            path: ".robin.json".to_string()
        }
    );
    assert_eq!(err.message(), "Cyclic include: .robin.json");
}

use raffi::config::Args;
use raffi::config::BinaryChecker;
use raffi::config::EnvProvider;
use raffi::config::RaffiConfig;
use raffi::config::find_config_index;
use raffi::config::is_valid_config;
use raffi::launcher::IconMap;
use raffi::launcher::build_icon_map;
use raffi::launcher::IconMapProvider;
use raffi::launcher::LauncherError;
use raffi::launcher::LaunchPlan;
use raffi::launcher::make_fuzzel_input;
use raffi::launcher::plan_execution;
use std::collections::HashMap;

fn default_args() -> Args {
    Args {
        help: false,
        version: false,
        configfile: None,
        print_only: false,
        refresh_cache: false,
        no_icons: true,
        default_script_shell: "bash".to_string(),
    }
}

struct MockEnvProvider {
    vars: HashMap<String, String>,
}

impl EnvProvider for MockEnvProvider {
    fn var(&self, key: &str) -> Option<String> {
        self.vars.get(key).cloned()
    }
}

struct MockBinaryChecker {
    binaries: Vec<String>,
}

impl BinaryChecker for MockBinaryChecker {
    fn binary_exists(&self, binary: &str) -> bool {
        self.binaries.contains(&binary.to_string())
    }
}

struct MockIconMapProvider {
    icon_map: Vec<(String, String)>,
}

impl IconMapProvider for MockIconMapProvider {
    fn get_icon_map(&self) -> Option<IconMap> {
        Some(IconMap::from_pairs(self.icon_map.clone()))
    }
}

struct NoIconMapProvider;

impl IconMapProvider for NoIconMapProvider {
    fn get_icon_map(&self) -> Option<IconMap> {
        None
    }
}

#[test]
fn test_is_valid_config() {
    let mut config = RaffiConfig {
        binary: Some("test-binary".to_string()),
        description: Some("Test Description".to_string()),
        script: None,
        args: None,
        icon: None,
        ifenveq: Some(vec!["TEST_VAR".to_string(), "true".to_string()]),
        ifenvset: Some("ANOTHER_VAR".to_string()),
        ifenvnotset: Some("MISSING_VAR".to_string()),
        ifexist: Some("another-binary".to_string()),
        disabled: None,
    };
    let args = default_args();
    let env_provider = MockEnvProvider {
        vars: {
            let mut vars = HashMap::new();
            vars.insert("TEST_VAR".to_string(), "true".to_string());
            vars.insert("ANOTHER_VAR".to_string(), "some_value".to_string());
            vars
        },
    };
    let binary_checker = MockBinaryChecker {
        binaries: vec!["test-binary".to_string(), "another-binary".to_string()],
    };

    assert!(is_valid_config(
        &mut config,
        &args,
        &env_provider,
        &binary_checker
    ));
}

#[test]
fn test_make_fuzzel_input() {
    let configs = vec![
        RaffiConfig {
            binary: Some("firefox".to_string()),
            description: Some("Firefox browser".to_string()),
            icon: Some("firefox".to_string()),
            ..Default::default()
        },
        RaffiConfig {
            script: Some("echo hello".to_string()),
            description: Some("Hello script".to_string()),
            icon: Some("script".to_string()),
            ..Default::default()
        },
    ];
    let icon_map_provider = MockIconMapProvider {
        icon_map: vec![
            ("firefox".to_string(), "/path/to/firefox.png".to_string()),
            ("script".to_string(), "/path/to/script.png".to_string()),
        ],
    };
    let input = make_fuzzel_input(&configs, false, &icon_map_provider).unwrap();
    assert!(input.contains("Firefox browser\0icon\x1f/path/to/firefox.png"));
    assert!(input.contains("Hello script\0icon\x1f/path/to/script.png"));
}

#[test]
fn make_fuzzel_input_without_icons_lists_labels() {
    let configs = vec![RaffiConfig {
        binary: Some("firefox".to_string()),
        ..Default::default()
    }];
    let input = make_fuzzel_input(&configs, true, &NoIconMapProvider).unwrap();
    assert_eq!(input, "firefox\n");
}

#[test]
fn make_fuzzel_input_without_map_is_an_error() {
    let configs = vec![RaffiConfig::default()];
    let err = make_fuzzel_input(&configs, false, &NoIconMapProvider).unwrap_err();
    assert_eq!(err, LauncherError::IconMapUnavailable);
}

#[test]
fn validation_falls_back_to_description() {
    let mut config = RaffiConfig {
        description: Some("Only description".to_string()),
        ..Default::default()
    };
    let args = default_args();
    let env = MockEnvProvider { vars: HashMap::new() };
    let checker = MockBinaryChecker { binaries: vec![] };
    assert!(is_valid_config(&mut config, &args, &env, &checker));
    assert_eq!(config.binary, Some("Only description".to_string()));
}

#[test]
fn validation_rejects_missing_binary() {
    let mut config = RaffiConfig {
        binary: Some("missing".to_string()),
        ..Default::default()
    };
    let args = default_args();
    let env = MockEnvProvider { vars: HashMap::new() };
    let checker = MockBinaryChecker { binaries: vec![] };
    assert!(!is_valid_config(&mut config, &args, &env, &checker));
}

#[test]
fn plan_prints_command_line() {
    let mc = RaffiConfig {
        binary: Some("firefox".to_string()),
        args: Some(vec!["--private".to_string(), "--new".to_string()]),
        ..Default::default()
    };
    let mut args = default_args();
    args.print_only = true;
    match plan_execution(&mc, &args, "").unwrap() {
        LaunchPlan::PrintCommand { line } => assert_eq!(line, "firefox --private --new"),
        _ => panic!("expected a printed command"),
    }
}

#[test]
fn plan_prints_script_header() {
    let mc = RaffiConfig {
        script: Some("echo hi".to_string()),
        args: Some(vec!["-x".to_string()]),
        ..Default::default()
    };
    let mut args = default_args();
    args.print_only = true;
    match plan_execution(&mc, &args, "bash").unwrap() {
        LaunchPlan::PrintScript { header, script } => {
            assert_eq!(header, "#!/usr/bin/env -S bash -x");
            assert_eq!(script, "echo hi");
        }
        _ => panic!("expected a printed script"),
    }
}

#[test]
fn plan_without_program_is_an_error() {
    let mc = RaffiConfig::default();
    let args = default_args();
    assert_eq!(plan_execution(&mc, &args, "").unwrap_err(), LauncherError::BinaryMissing);
}

#[test]
fn plan_runs_script_through_interpreter() {
    let mc = RaffiConfig {
        script: Some("echo hi".to_string()),
        ..Default::default()
    };
    let args = default_args();
    match plan_execution(&mc, &args, "bash").unwrap() {
        LaunchPlan::RunScript { interpreter, script, extra_args } => {
            assert_eq!(interpreter, "bash");
            assert_eq!(script, "echo hi");
            assert!(extra_args.is_none());
        }
        _ => panic!("expected a script run"),
    }
}

#[test]
fn chosen_name_matches_description_or_binary() {
    let configs = vec![
        RaffiConfig {
            binary: Some("firefox".to_string()),
            description: Some("Firefox browser".to_string()),
            ..Default::default()
        },
        RaffiConfig {
            binary: Some("kitty".to_string()),
            ..Default::default()
        },
    ];
    assert_eq!(find_config_index(&configs, "Firefox browser"), Some(0));
    assert_eq!(find_config_index(&configs, "kitty"), Some(1));
    assert_eq!(find_config_index(&configs, "nope"), None);
}

#[test]
fn icon_scan_filters_and_replaces() {
    let files = vec![
        ("firefox.png".to_string(), "/a/firefox.png".to_string()),
        ("notes.txt".to_string(), "/a/notes.txt".to_string()),
        ("term.svg".to_string(), "/a/term.svg".to_string()),
        ("firefox.png".to_string(), "/b/firefox.png".to_string()),
        ("x".to_string(), "/a/x".to_string()),
    ];
    let map = build_icon_map(&files);
    let pairs = map.pairs();
    assert_eq!(pairs.len(), 2);
    assert_eq!(pairs[0], ("firefox".to_string(), "/b/firefox.png".to_string()));
    assert_eq!(pairs[1], ("term".to_string(), "/a/term.svg".to_string()));
    let fx: Vec<char> = "firefox".chars().collect();
    assert_eq!(map.get(&fx), Some("/b/firefox.png".to_string()));
    let missing: Vec<char> = "nope".chars().collect();
    assert_eq!(map.get(&missing), None);
}

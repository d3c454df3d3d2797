use openclaw::env::prober::{EnvItem, EnvProber, EnvStatus, ProbeOutcome};

/// Look each candidate command up on the search path, as the application
/// does, and run nothing.
fn look_up(id: &str) -> Vec<ProbeOutcome> {
    EnvProber::probe_commands(id)
        .into_iter()
        .map(|cmd| match which::which(&cmd) {
            Ok(path) => ProbeOutcome::Found {
                command: cmd,
                path: path.to_string_lossy().to_string(),
                output: Err("not run".to_string()),
            },
            Err(_) => ProbeOutcome::NotFound,
        })
        .collect()
}

#[test]
fn parse_version_extracts_semver() {
    let v = EnvProber::parse_version("node", "v20.11.0");
    assert_eq!(v, Some("20.11.0".to_string()));
}

#[test]
fn parse_version_extracts_from_full_output() {
    let v = EnvProber::parse_version("git", "git version 2.43.0");
    assert_eq!(v, Some("2.43.0".to_string()));
}

#[test]
fn parse_version_handles_python_output() {
    let v = EnvProber::parse_version("python", "Python 3.12.1");
    assert_eq!(v, Some("3.12.1".to_string()));
}

#[test]
fn parse_version_handles_rustc_output() {
    let v = EnvProber::parse_version("rustc", "rustc 1.77.2 (25ef9e3d8 2024-04-09)");
    assert_eq!(v, Some("1.77.2".to_string()));
}

#[test]
fn parse_version_returns_none_for_no_version() {
    let v = EnvProber::parse_version("node", "no version info");
    assert!(v.is_none());
}

#[test]
fn parse_version_strips_v_prefix() {
    let v = EnvProber::parse_version("node", "v18.0.0");
    assert_eq!(v, Some("18.0.0".to_string()));
}

#[test]
fn probe_returns_missing_for_nonexistent_tool() {
    let id = "nonexistent_tool_xyz_12345";
    let item = EnvProber::probe(id, &look_up(id), 0);
    assert!(
        matches!(item.status, EnvStatus::Missing),
        "Expected Missing status for nonexistent tool"
    );
    assert!(item.version.is_none());
}

#[test]
fn parse_version_strips_trailing_commas_and_skips_words() {
    assert_eq!(
        EnvProber::parse_version("docker", "Docker version 24.0.7, build afdd53b"),
        Some("24.0.7".to_string())
    );
    assert_eq!(EnvProber::parse_version("node", ""), None);
    assert_eq!(EnvProber::parse_version("node", "v.1"), None);
    assert_eq!(EnvProber::parse_version("node", "x 1.2 3.4"), Some("1.2".to_string()));
}

#[test]
fn probe_commands_tries_python3_first() {
    assert_eq!(EnvProber::probe_commands("python"), vec!["python3", "python"]);
    assert_eq!(EnvProber::probe_commands("git"), vec!["git"]);
    assert_eq!(EnvProber::tool_ids(), vec!["node", "git", "python", "rustc", "docker"]);
}

#[test]
fn probe_uses_first_found_command() {
    let outcomes = vec![
        ProbeOutcome::NotFound,
        ProbeOutcome::Found {
            command: "python".to_string(),
            path: "/usr/bin/python".to_string(),
            output: Ok("Python 3.11.4\n".to_string()),
        },
    ];
    let item = EnvProber::probe("python", &outcomes, 42);
    assert_eq!(item.id, "python");
    assert_eq!(item.name, "Python");
    assert!(matches!(item.status, EnvStatus::Available));
    assert_eq!(item.version, Some("3.11.4".to_string()));
    assert_eq!(item.path, Some("/usr/bin/python".to_string()));
    assert_eq!(item.checked_at, 42);
    assert!(item.required_version.is_none());
    assert!(item.install_hint.is_some());
}

#[test]
fn probe_reports_error_when_version_command_fails() {
    let outcomes = vec![ProbeOutcome::Found {
        command: "git".to_string(),
        path: "/usr/bin/git".to_string(),
        output: Err("permission denied".to_string()),
    }];
    let item = EnvProber::probe("git", &outcomes, 7);
    match item.status {
        EnvStatus::Error { message } => {
            assert_eq!(message, "Failed to run git --version: permission denied")
        }
        _ => panic!("expected an error status"),
    }
    assert!(item.version.is_none());
    assert_eq!(item.path, Some("/usr/bin/git".to_string()));
}

#[test]
fn probe_all_covers_every_tool_in_order() {
    let outcomes = vec![vec![ProbeOutcome::Found {
        command: "node".to_string(),
        path: "/bin/node".to_string(),
        output: Ok("v20.1.0".to_string()),
    }]];
    let items = EnvProber::probe_all(&outcomes, 5);
    let ids: Vec<&str> = items.iter().map(|i| i.id.as_str()).collect();
    assert_eq!(ids, vec!["node", "git", "python", "rustc", "docker"]);
    assert_eq!(items[0].version, Some("20.1.0".to_string()));
    for item in &items[1..] {
        assert!(matches!(item.status, EnvStatus::Missing));
        assert_eq!(item.checked_at, 5);
    }
}

fn item(id: &str, at: u64) -> EnvItem {
    EnvProber::probe(id, &Vec::new(), at)
}

#[test]
fn update_cache_replaces_or_appends() {
    let mut cache = vec![item("node", 1), item("git", 1)];
    EnvProber::update_cache(&mut cache, item("git", 2));
    assert_eq!(cache.len(), 2);
    assert_eq!(cache[1].checked_at, 2);
    assert_eq!(cache[0].checked_at, 1);
    EnvProber::update_cache(&mut cache, item("docker", 3));
    assert_eq!(cache.len(), 3);
    assert_eq!(cache[2].id, "docker");
}

#[test]
fn env_status_text_matches_log_form() {
    assert_eq!(EnvStatus::Available.describe(), "Ok");
    assert_eq!(EnvStatus::Missing.describe(), "Missing");
    assert_eq!(
        EnvStatus::VersionMismatch { found: "1.0".to_string(), required: ">=2".to_string() }
            .describe(),
        "VersionMismatch { found: \"1.0\", required: \">=2\" }"
    );
    assert_eq!(
        EnvStatus::Error { message: "boom".to_string() }.describe(),
        "Error { message: \"boom\" }"
    );
}

#[test]
fn status_text_escapes_like_a_debug_listing() {
    let message = "say \"hi\"\\ at\tonce\nnow\r\u{1b}[0m\u{7f}\0 é".to_string();
    assert_eq!(
        EnvStatus::Error { message: message.clone() }.describe(),
        format!("Error {{ message: {:?} }}", message)
    );
    assert_eq!(
        EnvStatus::VersionMismatch { found: "1\n".to_string(), required: "\"2\"".to_string() }
            .describe(),
        format!("VersionMismatch {{ found: {:?}, required: {:?} }}", "1\n", "\"2\"")
    );
}

#[test]
fn probe_all_agrees_with_probe_per_tool() {
    let outcomes: Vec<Vec<ProbeOutcome>> = EnvProber::tool_ids()
        .iter()
        .map(|id| {
            vec![ProbeOutcome::Found {
                command: id.to_string(),
                path: format!("/bin/{id}"),
                output: Ok(format!("{id} 1.2.3")),
            }]
        })
        .collect();
    let all = EnvProber::probe_all(&outcomes, 9);
    for (k, id) in EnvProber::tool_ids().iter().enumerate() {
        let one = EnvProber::probe(id, &outcomes[k], 9);
        assert_eq!(format!("{:?}", all[k]), format!("{:?}", one));
    }
}

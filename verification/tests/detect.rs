use tool_first::detect::{
    collect_candidates, contains_string, detection_names, detection_record, detection_status,
    executable_probes, executable_probes_with_home, needs_version_check, not_found_method,
    path_fingerprint_of, version_outcome, version_report, ProbeKind,
};
use tool_first::registry::{Category, Registry, ToolSpec};

fn strings(v: &[&str]) -> Vec<String> {
    v.iter().map(|s| s.to_string()).collect()
}

fn spec(detect_names: &[&str], version_args: &[&str]) -> ToolSpec {
    ToolSpec {
        priority: None,
        detect_names: strings(detect_names),
        known_paths: Vec::new(),
        app_bundle_paths: Vec::new(),
        version_args: strings(version_args),
        handles: Vec::new(),
        commands: Vec::new(),
        fallbacks: Vec::new(),
    }
}

fn registry() -> Registry {
    Registry::from_entries(vec![
        (
            "data".to_string(),
            Category {
                description: None,
                tools: vec![
                    ("jq".to_string(), spec(&["jq"], &["--version"])),
                    ("yq".to_string(), spec(&["yq", "yq-go"], &[])),
                ],
            },
        ),
        (
            "image".to_string(),
            Category {
                description: None,
                tools: vec![("imagemagick".to_string(), spec(&["magick", "convert"], &[]))],
            },
        ),
    ])
}

#[test]
fn candidates_follow_category_and_names() {
    let reg = registry();
    let all = collect_candidates(&reg, None, &Vec::new());
    let names: Vec<(&str, &str)> = all.iter().map(|(c, t, _)| (c.as_str(), t.as_str())).collect();
    assert_eq!(names, vec![("data", "jq"), ("data", "yq"), ("image", "imagemagick")]);
    let data = collect_candidates(&reg, Some("data"), &Vec::new());
    assert_eq!(data.len(), 2);
    let by_detect_name = collect_candidates(&reg, None, &strings(&["yq-go", "magick"]));
    let names: Vec<&str> = by_detect_name.iter().map(|(_, t, _)| t.as_str()).collect();
    assert_eq!(names, vec!["yq", "imagemagick"]);
    assert!(collect_candidates(&reg, Some("pdf"), &Vec::new()).is_empty());
    assert!(collect_candidates(&reg, Some("image"), &strings(&["jq"])).is_empty());
}

#[test]
fn detect_names_default_to_the_tool_name() {
    assert_eq!(detection_names(&spec(&[], &[]), "rg"), strings(&["rg"]));
    assert_eq!(detection_names(&spec(&["fd", "fdfind"], &[]), "fd"), strings(&["fd", "fdfind"]));
}

#[test]
fn probes_follow_the_search_order() {
    let probes = executable_probes_with_home(
        &strings(&["jq"]),
        &strings(&["~/bin/jq"]),
        &strings(&["/Applications/Jq.app/jq"]),
        Some("/home/u"),
    );
    let plan: Vec<(ProbeKind, &str)> = probes.iter().map(|p| (p.kind, p.target.as_str())).collect();
    assert_eq!(
        plan,
        vec![
            (ProbeKind::Which, "jq"),
            (ProbeKind::KnownPath, "/home/u/bin/jq"),
            (ProbeKind::KnownPath, "/Applications/Jq.app/jq"),
            (ProbeKind::KnownBinDir, "/home/u/.local/bin/jq"),
            (ProbeKind::KnownBinDir, "/home/u/.hermes/bin/jq"),
            (ProbeKind::KnownBinDir, "/home/u/.cargo/bin/jq"),
            (ProbeKind::KnownBinDir, "/opt/homebrew/bin/jq"),
            (ProbeKind::KnownBinDir, "/usr/local/bin/jq"),
            (ProbeKind::KnownBinDir, "/usr/bin/jq"),
            (ProbeKind::KnownBinDir, "/bin/jq"),
        ]
    );
    assert_eq!(probes[0].kind.method(), "which");
    assert_eq!(probes[1].kind.method(), "known_path");
    assert_eq!(probes[3].kind.method(), "known_bin_dir");
    assert_eq!(not_found_method(), "not_found");
}

#[test]
fn bin_directories_are_searched_for_each_name() {
    let probes = executable_probes_with_home(&strings(&["a", "b"]), &Vec::new(), &Vec::new(), None);
    assert_eq!(probes.len(), 2 + 7 * 2);
    assert_eq!(probes[2].target, "~/.local/bin/a");
    assert_eq!(probes[3].target, "~/.local/bin/b");
    assert_eq!(probes[15].target, "/bin/b");
    let user = executable_probes(&strings(&["a"]), &Vec::new(), &Vec::new());
    assert_eq!(user.len(), 8);
    assert_eq!(user[7].target, "/bin/a");
}

#[test]
fn version_output_is_the_first_line() {
    assert_eq!(version_report("jq-1.7.1\nmore", "", true), ("jq-1.7.1".to_string(), true));
    assert_eq!(version_report("", "err line\r\nnext", false), ("err line".to_string(), true));
    assert_eq!(version_report("", "", false), (String::new(), false));
    assert_eq!(version_report("", "", true), (String::new(), true));
    assert_eq!(version_report("abc\r", "ignored", false), ("abc\r".to_string(), true));
    assert_eq!(version_report("\nsecond", "", false), (String::new(), true));
    let long = "v".repeat(300);
    let (text, ok) = version_report(&long, "", false);
    assert_eq!(text.chars().count(), 240);
    assert!(ok);
    let wide = "é".repeat(250);
    assert_eq!(version_report(&wide, "", false).0, "é".repeat(240));
}

#[test]
fn version_checks_only_for_found_tools_with_arguments() {
    assert!(needs_version_check(true, &spec(&[], &["--version"])));
    assert!(!needs_version_check(false, &spec(&[], &["--version"])));
    assert!(!needs_version_check(true, &spec(&[], &[])));
}

#[test]
fn status_and_confidence() {
    assert_eq!(detection_status(true, true), ("available".to_string(), 980));
    assert_eq!(detection_status(true, false), ("present_unverified".to_string(), 700));
    assert_eq!(detection_status(false, true), ("missing".to_string(), 200));
    assert_eq!(detection_status(false, false), ("missing".to_string(), 200));
}

#[test]
fn detection_records_carry_inventory_fields() {
    let d = detection_record(
        "data".to_string(),
        "jq".to_string(),
        None,
        "not_found".to_string(),
        String::new(),
        false,
        "2026-01-01T00:00:00Z".to_string(),
        "0011223344556677".to_string(),
    );
    assert_eq!(d.namespace, "agent_tool_inventory");
    assert_eq!(d.memory_type, "tool_inventory");
    assert_eq!(d.record_type, "availability");
    assert_eq!(d.status, "missing");
    assert_eq!(d.path, "");
    assert_eq!(d.confidence_permille, 200);
    assert_eq!(d.tags, strings(&["tool-inventory"]));
    assert_eq!(d.path_fingerprint, "0011223344556677");
    let f = detection_record(
        "data".to_string(),
        "jq".to_string(),
        Some("/usr/bin/jq".to_string()),
        "which".to_string(),
        "jq-1.7".to_string(),
        true,
        String::new(),
        String::new(),
    );
    assert_eq!(f.status, "available");
    assert_eq!(f.path, "/usr/bin/jq");
    assert_eq!(f.confidence_permille, 980);
    assert_eq!(f.detection_method, "which");
}

#[test]
fn fingerprint_is_the_sha256_prefix() {
    assert_eq!(path_fingerprint_of(""), "e3b0c44298fc1c14");
    assert_eq!(path_fingerprint_of("abc"), "ba7816bf8f01cfea");
    let f = path_fingerprint_of("/usr/local/bin:/usr/bin:/bin");
    assert_eq!(f.len(), 16);
    assert!(f.chars().all(|c| c.is_ascii_hexdigit() && !c.is_ascii_uppercase()));
}

#[test]
fn contains_string_is_membership() {
    assert!(contains_string(&strings(&["a", "bc"]), "bc"));
    assert!(!contains_string(&strings(&["a", "bc"]), "b"));
    assert!(!contains_string(&Vec::new(), ""));
}

#[test]
fn only_a_passed_version_check_makes_a_tool_available() {
    let with_args = spec(&["jq"], &["--version"]);
    let no_args = spec(&["yq"], &[]);
    let passed = Some(("jq-1.7".to_string(), true));
    let failed = Some(("boom".to_string(), false));
    assert_eq!(version_outcome(true, &with_args, passed.clone()), ("jq-1.7".to_string(), true));
    assert_eq!(version_outcome(true, &with_args, failed), ("boom".to_string(), false));
    assert_eq!(version_outcome(true, &with_args, None), (String::new(), false));
    assert_eq!(version_outcome(true, &no_args, passed.clone()), (String::new(), false));
    assert_eq!(version_outcome(false, &with_args, passed), (String::new(), false));
    let (_, ok) = version_outcome(true, &no_args, None);
    assert_eq!(detection_status(true, ok).0, "present_unverified");
}

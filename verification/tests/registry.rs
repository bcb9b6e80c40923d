use tool_first::config::{config_search_paths_with, find_config_path, first_true_index, Config};
use tool_first::registry::{
    find_registry, matches_task, query, registry_search_paths, Category, Registry, ToolSpec,
};

fn tool(priority: Option<u32>, handles: &[&str], commands: &[(&str, &str)]) -> ToolSpec {
    ToolSpec {
        priority,
        detect_names: Vec::new(),
        known_paths: Vec::new(),
        app_bundle_paths: Vec::new(),
        version_args: Vec::new(),
        handles: handles.iter().map(|s| s.to_string()).collect(),
        commands: commands
            .iter()
            .map(|(k, v)| (k.to_string(), v.to_string()))
            .collect(),
        fallbacks: Vec::new(),
    }
}

fn sample_registry() -> Registry {
    Registry::from_entries(vec![
        (
            "data".to_string(),
            Category {
                description: Some("Structured data".to_string()),
                tools: vec![("jq".to_string(), tool(Some(10), &["Query JSON"], &[("pretty", "jq .")]))],
            },
        ),
        (
            "image".to_string(),
            Category {
                description: None,
                tools: vec![
                    ("a-tool".to_string(), tool(Some(20), &["Crop images"], &[])),
                    ("b-tool".to_string(), tool(Some(10), &["Convert images"], &[])),
                    ("c-tool".to_string(), tool(None, &["Convert anything"], &[])),
                    ("d-tool".to_string(), tool(Some(10), &["Convert images"], &[])),
                ],
            },
        ),
    ])
}

#[test]
fn query_orders_matches_then_priority_then_name() {
    let reg = sample_registry();
    let rows = query(&reg, Some("image"), Some("CONVERT"));
    let names: Vec<&str> = rows.iter().map(|r| r.tool.as_str()).collect();
    assert_eq!(names, vec!["b-tool", "d-tool", "c-tool", "a-tool"]);
    assert_eq!(rows[2].priority, 999);
    assert!(rows[0].is_match && rows[1].is_match && rows[2].is_match);
    assert!(!rows[3].is_match);
    assert!(rows.iter().all(|r| r.category == "image"));
}

#[test]
fn query_without_filters_lists_every_tool_as_a_match() {
    let reg = sample_registry();
    let rows = query(&reg, None, None);
    assert_eq!(rows.len(), 5);
    assert_eq!(rows[0].category, "data");
    assert_eq!(rows[0].tool, "jq");
    assert_eq!(rows[0].commands, vec![("pretty".to_string(), "jq .".to_string())]);
    assert!(rows.iter().all(|r| r.is_match));
    let names: Vec<&str> = rows[1..].iter().map(|r| r.tool.as_str()).collect();
    assert_eq!(names, vec!["b-tool", "d-tool", "a-tool", "c-tool"]);
}

#[test]
fn query_of_unknown_category_is_empty() {
    assert!(query(&sample_registry(), Some("media"), None).is_empty());
}

#[test]
fn task_words_must_all_occur_in_handles_or_commands() {
    let spec = tool(Some(1), &["Convert and resize images"], &[("to_jpg", "magick {in} out.jpg")]);
    assert!(matches_task(&spec, "convert\tIMAGES"));
    assert!(matches_task(&spec, "to_jpg out"));
    assert!(matches_task(&spec, "ages siz"));
    assert!(!matches_task(&spec, "convert video"));
    assert!(matches_task(&spec, ""));
    assert!(matches_task(&spec, "   "));
}

#[test]
fn registry_search_paths_follow_the_documented_order() {
    let paths = registry_search_paths(Some("/opt/tf/bin"), Some("/work"));
    assert_eq!(
        paths,
        vec![
            "/opt/tf/bin/../../../registry/tools.yaml",
            "/opt/tf/bin/../../registry/tools.yaml",
            "/opt/tf/bin/../registry/tools.yaml",
            "/opt/tf/bin/registry/tools.yaml",
            "/work/registry/tools.yaml",
            "/work/crates/tool-first/registry/tools.yaml",
            "/work/../registry/tools.yaml",
        ]
    );
    assert_eq!(registry_search_paths(None, Some("/w/")).len(), 3);
    assert!(registry_search_paths(None, None).is_empty());
}

#[test]
fn find_registry_takes_the_first_file() {
    let paths = registry_search_paths(Some("/x"), Some("/y"));
    let mut flags = vec![false; paths.len()];
    assert_eq!(
        find_registry(&paths, &flags),
        Err("registry/tools.yaml not found. Run from the project root or set the path.".to_string())
    );
    flags[4] = true;
    flags[6] = true;
    assert_eq!(find_registry(&paths, &flags), Ok("/y/registry/tools.yaml".to_string()));
}

#[test]
fn config_search_paths_follow_the_documented_order() {
    let paths = config_search_paths_with(
        Some("~/cfg.yaml"),
        Some("/work"),
        Some("/home/u/.config"),
        Some("/home/u"),
    );
    assert_eq!(
        paths,
        vec![
            "/home/u/cfg.yaml",
            "/work/memory_config.yaml",
            "/work/crates/tool-first/memory_config.yaml",
            "/home/u/.config/tool-first-agent/config.yaml",
            "/home/u/.config/tool-first-agent/memory_config.yaml",
            "/home/u/.hermes/skills/devops/tool-first-agent/memory_config.yaml",
            "/home/u/.codex/skills/tool-first-agent/memory_config.yaml",
        ]
    );
    let flags = vec![false, false, true, true, false, false, true];
    assert_eq!(
        find_config_path(&paths, &flags),
        Some("/work/crates/tool-first/memory_config.yaml".to_string())
    );
    assert_eq!(find_config_path(&paths, &vec![false; 7]), None);
    assert_eq!(config_search_paths_with(Some("~/c"), None, None, None), vec!["~/c"]);
}

#[test]
fn first_true_index_finds_the_first() {
    assert_eq!(first_true_index(&vec![false, true, true]), Some(1));
    assert_eq!(first_true_index(&vec![false, false]), None);
    assert_eq!(first_true_index(&Vec::new()), None);
}

#[test]
fn default_config_is_empty() {
    let cfg = Config::default();
    assert!(cfg.memory_home.is_none());
    assert!(cfg.canonical.is_none());
    assert!(cfg.authority.is_none());
    assert!(cfg.write_policy.append_only.is_none());
    assert!(cfg.write_policy.atomic_write.is_none());
    assert!(cfg.write_policy.allow_create_new_home.is_none());
    assert!(cfg.file.base_dir.is_none());
}

#[test]
fn registry_keeps_names_in_order_and_the_last_entry() {
    let reg = Registry::from_entries(vec![
        (
            "web".to_string(),
            Category {
                description: Some("old".to_string()),
                tools: Vec::new(),
            },
        ),
        (
            "data".to_string(),
            Category {
                description: None,
                tools: vec![
                    ("yq".to_string(), tool(Some(1), &["first"], &[])),
                    ("jq".to_string(), tool(Some(2), &[], &[])),
                    ("yq".to_string(), tool(Some(3), &["second"], &[])),
                ],
            },
        ),
        (
            "web".to_string(),
            Category {
                description: Some("new".to_string()),
                tools: Vec::new(),
            },
        ),
    ]);
    assert_eq!(reg.len(), 2);
    let cats = reg.categories();
    assert_eq!(cats[0].0, "data");
    assert_eq!(cats[1].0, "web");
    assert_eq!(cats[1].1.description.as_deref(), Some("new"));
    let tools: Vec<(&str, Option<u32>)> =
        cats[0].1.tools.iter().map(|(n, s)| (n.as_str(), s.priority)).collect();
    assert_eq!(tools, vec![("jq", Some(2)), ("yq", Some(3))]);

    let mut reg = reg;
    reg.insert(
        "archive".to_string(),
        Category {
            description: None,
            tools: Vec::new(),
        },
    );
    let names: Vec<&str> = reg.categories().iter().map(|(n, _)| n.as_str()).collect();
    assert_eq!(names, vec!["archive", "data", "web"]);
    assert_eq!(Registry::default().len(), 0);
}

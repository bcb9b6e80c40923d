use tool_first::config::Config;
use tool_first::memory::MemoryRecord;
use tool_first::resolver::{
    configured_memory_home, default_memory_home, default_memory_home_under, detect_memory_homes,
    detect_memory_homes_with, expand_home_with, home_sources_with, legacy_home_paths,
    has_marker, home_conflicts, join_path, marker_path, memory_home_before_redirects,
    redirect_marker_path, redirect_walk_start, redirect_walk_step, shellexpand, MemoryHomeMarker,
    MAX_REDIRECTS,
};

#[test]
fn resolve_memory_home_follows_redirect_marker() {
    let old_home = "/tmp/tool-first-resolver-test-old-1b2c".to_string();
    let new_home = "/tmp/tool-first-resolver-test-new-3d4e".to_string();
    // The old home holds a redirect marker pointing at the new one; the new one has none.
    let walk = redirect_walk_start(old_home);
    let walk = redirect_walk_step(walk, Some(new_home.as_str()));
    assert!(!walk.finished);
    let walk = redirect_walk_step(walk, None);
    assert!(walk.finished);
    assert_eq!(walk.path, new_home);
}

#[test]
fn a_redirect_to_itself_stops() {
    let walk = redirect_walk_start("/data/home".to_string());
    let walk = redirect_walk_step(walk, Some("/data/home"));
    assert!(walk.finished);
    assert_eq!(walk.hops, 0);
    assert_eq!(walk.path, "/data/home");
    let walk = redirect_walk_step(redirect_walk_start("/a/b".to_string()), Some("/a/./b"));
    assert!(walk.finished);
    assert_eq!(walk.path, "/a/b");
}

#[test]
fn at_most_eight_redirects_are_followed() {
    let mut walk = redirect_walk_start("/r/0".to_string());
    let mut steps = 0;
    while !walk.finished {
        steps += 1;
        let next = format!("/r/{steps}");
        walk = redirect_walk_step(walk, Some(next.as_str()));
    }
    assert_eq!(steps, MAX_REDIRECTS);
    assert_eq!(walk.hops, 8);
    assert_eq!(walk.path, "/r/8");
}

#[test]
fn paths_join_like_pathbuf() {
    assert_eq!(join_path("/a", "b"), "/a/b");
    assert_eq!(join_path("/a/", "b"), "/a/b");
    assert_eq!(join_path("/a", "/b"), "/b");
    assert_eq!(join_path("", "b"), "b");
    assert_eq!(join_path("/a", ""), "/a/");
    assert_eq!(marker_path("/m"), "/m/.tool-memory-home");
    assert_eq!(redirect_marker_path("/m/"), "/m/.tool-memory-redirect");
}

#[test]
fn tilde_expands_to_the_home_directory() {
    assert_eq!(expand_home_with("~/x", Some("/home/u")), "/home/u/x");
    assert_eq!(expand_home_with("~", Some("/home/u")), "/home/u");
    assert_eq!(expand_home_with("~x", Some("/home/u")), "~x");
    assert_eq!(expand_home_with("/a/~/x", Some("/home/u")), "/a/~/x");
    assert_eq!(expand_home_with("~/x", None), "~/x");
    assert_eq!(shellexpand("/abs/path"), "/abs/path");
    assert!(shellexpand("~/x").ends_with("/x"));
    assert_eq!(shellexpand("~user/x"), "~user/x");
}

#[test]
fn memory_home_priority() {
    let mut cfg = Config::default();
    cfg.memory_home = Some("/cfg/home".to_string());
    cfg.file.base_dir = Some("/cfg/base".to_string());
    assert_eq!(memory_home_before_redirects(Some("/env/home"), &cfg), "/env/home");
    assert_eq!(memory_home_before_redirects(None, &cfg), "/cfg/home");
    assert_eq!(configured_memory_home(None, &cfg), Some("/cfg/home".to_string()));
    cfg.memory_home = None;
    assert_eq!(memory_home_before_redirects(None, &cfg), "/cfg/base");
    cfg.file.base_dir = None;
    assert_eq!(configured_memory_home(None, &cfg), None);
    let d = memory_home_before_redirects(None, &cfg);
    assert_eq!(d, default_memory_home());
    assert!(d.ends_with("/tool-first-agent/tool-memory"));
}

#[test]
fn conflicting_candidates_are_listed_once() {
    let mut cfg = Config::default();
    cfg.memory_home = Some("/tmp/tool-first-homes-test-x".to_string());
    cfg.file.base_dir = Some("/tmp/tool-first-homes-test-y".to_string());
    let list = detect_memory_homes(Some("/tmp/tool-first-homes-test-x"), &cfg);
    assert_eq!(list[0].path, "/tmp/tool-first-homes-test-x");
    assert_eq!(list[0].source, "TOOL_FIRST_MEMORY_HOME");
    assert!(list[0].is_canonical);
    assert!(!list[0].has_marker);
    assert_eq!(list[1].path, "/tmp/tool-first-homes-test-y");
    assert_eq!(list[1].source, "config.file.base_dir");
    assert_eq!(list[2].source, "default");
    assert!(list[1..].iter().all(|c| !c.is_canonical));
    for i in 0..list.len() {
        for j in (i + 1)..list.len() {
            assert_ne!(list[i].path, list[j].path);
        }
    }
}

#[test]
fn conflicts_need_more_than_one_existing_home() {
    assert_eq!(home_conflicts(&vec![true, false, true]), (2, true));
    assert_eq!(home_conflicts(&vec![false, true]), (1, false));
    assert_eq!(home_conflicts(&Vec::new()), (0, false));
}

#[test]
fn a_missing_directory_has_no_marker() {
    assert!(!has_marker("/nonexistent/tool-first/home-for-tests"));
}

#[test]
fn default_marker_content() {
    let m = MemoryHomeMarker::default();
    assert_eq!(m.marker_type, "tool-first-agent-memory-home");
    assert_eq!(m.version, "1.0");
    assert!(m.canonical);
    assert_eq!(m.source, "TOOL_FIRST_MEMORY_HOME");
    assert_eq!(m.adapter, "file");
    assert_eq!(m.authority, "runtime-infrastructure");
    assert_eq!(m.vault_authority, "none");
    assert_eq!(
        m.description,
        "Canonical shared runtime tool-memory home for local agents. Not authoritative Vault memory."
    );
}

#[test]
fn enrich_fills_only_missing_fields() {
    let mut r = MemoryRecord::empty();
    r.category = Some("image".to_string());
    r.scope = Some("project".to_string());
    r.authority = Some("vault".to_string());
    r.enrich("2026-06-12T15:30:00Z", "linux", "x86_64", None);
    assert_eq!(r.created_at.as_deref(), Some("2026-06-12T15:30:00Z"));
    assert_eq!(r.verified_at.as_deref(), Some("2026-06-12T15:30:00Z"));
    assert_eq!(r.authority.as_deref(), Some("runtime-infrastructure"));
    assert_eq!(r.os.as_deref(), Some("linux"));
    assert_eq!(r.arch.as_deref(), Some("x86_64"));
    assert_eq!(r.source_agent.as_deref(), Some("unknown"));
    assert_eq!(r.namespace.as_deref(), Some("agent_tool_inventory"));
    assert_eq!(r.memory_type.as_deref(), Some("tool_inventory"));
    assert_eq!(r.scope.as_deref(), Some("project"));
    assert_eq!(
        r.tags,
        Some(vec!["tool-inventory".to_string(), "tool-category-image".to_string()])
    );
    assert!(r.tool.is_none());
}

#[test]
fn enriching_twice_changes_nothing() {
    let mut r = MemoryRecord::empty();
    r.enrich("2026-06-12T15:30:00Z", "macos", "aarch64", Some("hermes"));
    assert_eq!(r.source_agent.as_deref(), Some("hermes"));
    assert_eq!(r.tags, Some(vec!["tool-inventory".to_string()]));
    assert_eq!(r.verified_at.as_deref(), Some("2026-06-12T15:30:00Z"));
    let before = format!(
        "{:?}",
        (r.created_at.clone(), r.os.clone(), r.arch.clone(), r.tags.clone(), r.authority.clone())
    );
    r.enrich("1999-01-01T00:00:00Z", "windows", "x86", Some("codex"));
    let after = format!(
        "{:?}",
        (r.created_at.clone(), r.os.clone(), r.arch.clone(), r.tags.clone(), r.authority.clone())
    );
    assert_eq!(before, after);
    assert_eq!(r.source_agent.as_deref(), Some("hermes"));
}

#[test]
fn memory_home_candidates_in_order() {
    let mut cfg = Config::default();
    cfg.memory_home = Some("/cfg/x".to_string());
    cfg.file.base_dir = Some("~/env".to_string());
    let home = "/home/u";
    let present = vec![false, true];
    let sources = home_sources_with(Some("~/env"), &cfg, Some(home), Some("/cfgdir"), &present);
    let view: Vec<(&str, &str, bool)> = sources
        .iter()
        .map(|(p, s, c)| (p.as_str(), s.as_str(), *c))
        .collect();
    assert_eq!(
        view,
        vec![
            ("/home/u/env", "TOOL_FIRST_MEMORY_HOME", true),
            ("/cfg/x", "config.memory_home", false),
            ("/home/u/env", "config.file.base_dir", false),
            ("/cfgdir/tool-first-agent/tool-memory", "default", false),
            ("/home/u/.hermes/tool-memory", "legacy:~/.hermes/tool-memory", false),
        ]
    );
    let marks = vec![true, false, false, true, false];
    let list = detect_memory_homes_with(
        Some("~/env"),
        &cfg,
        Some(home),
        Some("/cfgdir"),
        &present,
        &marks,
    );
    let view: Vec<(&str, &str, bool, bool)> = list
        .iter()
        .map(|c| (c.path.as_str(), c.source.as_str(), c.is_canonical, c.has_marker))
        .collect();
    assert_eq!(
        view,
        vec![
            ("/home/u/env", "TOOL_FIRST_MEMORY_HOME", true, true),
            ("/cfg/x", "config.memory_home", false, false),
            ("/cfgdir/tool-first-agent/tool-memory", "default", false, true),
            ("/home/u/.hermes/tool-memory", "legacy:~/.hermes/tool-memory", false, false),
        ]
    );
    assert_eq!(
        legacy_home_paths("/home/u"),
        vec!["/home/u/.config/tool-inventory/memory", "/home/u/.hermes/tool-memory"]
    );
    let none = detect_memory_homes_with(
        None,
        &Config::default(),
        None,
        None,
        &vec![true, true],
        &vec![false],
    );
    assert_eq!(none.len(), 1);
    assert_eq!(none[0].path, "~/.config/tool-first-agent/tool-memory");
    assert!(!none[0].has_marker);
    assert_eq!(default_memory_home_under(None), "~/.config/tool-first-agent/tool-memory");
    assert_eq!(
        default_memory_home_under(Some("/c/")),
        "/c/tool-first-agent/tool-memory"
    );
}

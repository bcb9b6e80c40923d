use tool_first::advice::{
    advise_after_detection, advise_after_recall, advise_start, detail, memory_command_templates,
    not_applicable, recommend_after_recall, recommend_available, AdviceOptions, AdviceStart,
    AfterDetection, ToolAdvice, AVOID_CUSTOM_CODE_INTENT, MAX_CANDIDATES,
};
use tool_first::detect::{detection_record, DetectionResult};
use tool_first::memory::MemoryRecord;
use tool_first::registry::{query, Category, MatchedTool, Registry, ToolSpec};

fn spec_for(tool: &str, priority: u32, handles: &[&str]) -> ToolSpec {
    ToolSpec {
        priority: Some(priority),
        detect_names: vec![tool.to_string()],
        version_args: vec!["--version".to_string()],
        handles: handles.iter().map(|s| s.to_string()).collect(),
        commands: vec![("run".to_string(), format!("{tool} {{input}}"))],
        known_paths: Vec::new(),
        app_bundle_paths: Vec::new(),
        fallbacks: Vec::new(),
    }
}

fn registry_with_tool(category_name: &str, tool: &str, handles: &[&str]) -> Registry {
    let category = Category {
        description: None,
        tools: vec![(tool.to_string(), spec_for(tool, 10, handles))],
    };
    Registry::from_entries(vec![(category_name.to_string(), category)])
}

fn options<'a>(category: Option<&'a str>) -> AdviceOptions<'a> {
    AdviceOptions {
        category,
        intent: Some(AVOID_CUSTOM_CODE_INTENT),
        memory_limit: 5,
        ..Default::default()
    }
}

fn found(category: &str, tool: &str) -> DetectionResult {
    detection_record(
        category.to_string(),
        tool.to_string(),
        Some(format!("/usr/bin/{tool}")),
        "which".to_string(),
        format!("{tool} 1.0"),
        true,
        "2026-01-01T00:00:00Z".to_string(),
        "0123456789abcdef".to_string(),
    )
}

fn missing(category: &str, tool: &str) -> DetectionResult {
    detection_record(
        category.to_string(),
        tool.to_string(),
        None,
        "not_found".to_string(),
        String::new(),
        false,
        "2026-01-01T00:00:00Z".to_string(),
        "0123456789abcdef".to_string(),
    )
}

fn decided(start: AdviceStart) -> ToolAdvice {
    match start {
        AdviceStart::Decided(a) => a,
        AdviceStart::Detect(_) => panic!("expected a final answer"),
    }
}

/// Runs the three steps, answering detection with `detected` and recall with `memory`.
fn advise_with(
    registry: &Registry,
    task: &str,
    options: &AdviceOptions,
    detected: Vec<DetectionResult>,
    memory: Vec<MemoryRecord>,
) -> ToolAdvice {
    match advise_start(registry, task, options) {
        AdviceStart::Decided(a) => a,
        AdviceStart::Detect(pending) => match advise_after_detection(pending, detected) {
            AfterDetection::Decided(a) => a,
            AfterDetection::Recall(p) => advise_after_recall(p, memory),
        },
    }
}

fn compact_json_len(advice: &ToolAdvice) -> usize {
    let mut rec = serde_json::Map::new();
    rec.insert(
        "decision".to_string(),
        serde_json::Value::String(advice.recommendation.decision.clone()),
    );
    if let Some(t) = &advice.recommendation.tool {
        rec.insert("tool".to_string(), serde_json::Value::String(t.clone()));
    }
    if let Some(c) = &advice.recommendation.category {
        rec.insert("category".to_string(), serde_json::Value::String(c.clone()));
    }
    rec.insert(
        "reason".to_string(),
        serde_json::Value::String(advice.recommendation.reason.clone()),
    );
    let mut obj = serde_json::Map::new();
    obj.insert("task".to_string(), serde_json::Value::String(advice.task.clone()));
    obj.insert("applicable".to_string(), serde_json::Value::Bool(advice.applicable));
    obj.insert(
        "category".to_string(),
        match &advice.category {
            Some(c) => serde_json::Value::String(c.clone()),
            None => serde_json::Value::Null,
        },
    );
    obj.insert("recommendation".to_string(), serde_json::Value::Object(rec));
    serde_json::to_vec(&serde_json::Value::Object(obj)).unwrap().len()
}

#[test]
fn ordinary_question_exits_without_candidates_or_detection() {
    let registry = registry_with_tool("ai", "assistant", &["Coding assistant"]);
    let advice = decided(advise_start(
        &registry,
        "解释为什么天空是蓝色的",
        &AdviceOptions::default(),
    ));

    assert!(!advice.applicable);
    assert_eq!(advice.recommendation.decision, "not_applicable");
    assert!(advice.candidates.is_empty());
    assert!(advice.detected.is_empty());
    assert!(advice.memory.is_empty());
    assert!(compact_json_len(&advice) < 1_000);
}

#[test]
fn ordinary_software_development_does_not_trigger() {
    let registry = registry_with_tool("dev", "sh", &["Run shell commands"]);
    let advice = decided(advise_start(
        &registry,
        "build a REST API in Rust",
        &AdviceOptions::default(),
    ));

    assert!(!advice.applicable);
    assert_eq!(advice.recommendation.decision, "not_applicable");
}

#[test]
fn explicitly_requested_converter_implementation_does_not_trigger() {
    let registry = registry_with_tool("image", "sips", &["Convert and resize images"]);
    let advice = decided(advise_start(
        &registry,
        "请用 Rust 编写一个 PNG 转换程序",
        &options(Some("image")),
    ));

    assert!(!advice.applicable);
    assert_eq!(advice.recommendation.decision, "not_applicable");
}

#[test]
fn explicit_category_checks_a_commodity_operation() {
    let registry = registry_with_tool("dev", "sh", &["Run shell commands"]);
    let advice = advise_with(
        &registry,
        "execute a shell command",
        &options(Some("dev")),
        vec![found("dev", "sh")],
        Vec::new(),
    );

    assert!(advice.applicable);
    assert_eq!(advice.recommendation.decision, "use_existing_tool");
    assert_eq!(advice.recommendation.tool.as_deref(), Some("sh"));
    assert!(
        advice.candidates.is_empty(),
        "compact output is the default"
    );
}

#[test]
fn chinese_image_conversion_is_in_scope() {
    let registry = registry_with_tool("image", "sips", &["Convert and resize images"]);
    let advice = advise_with(
        &registry,
        "把这张 PNG 图片转换成 JPG",
        &AdviceOptions {
            memory_limit: 5,
            ..Default::default()
        },
        vec![found("image", "sips")],
        Vec::new(),
    );

    assert!(advice.applicable);
    assert_eq!(advice.category.as_deref(), Some("image"));
    assert_eq!(advice.recommendation.decision, "use_existing_tool");
}

#[test]
fn verbose_mode_includes_bounded_details() {
    let registry = registry_with_tool("dev", "sh", &["Run shell commands"]);
    let advice = advise_with(
        &registry,
        "test rust project",
        &AdviceOptions {
            verbose: true,
            ..options(Some("dev"))
        },
        vec![found("dev", "sh")],
        Vec::new(),
    );

    assert_eq!(advice.candidates.len(), 1);
    assert_eq!(advice.detected.len(), 1);
    assert!(advice.candidates.len() <= MAX_CANDIDATES);
}

#[test]
fn unknown_intent_is_out_of_scope() {
    let registry = registry_with_tool("image", "sips", &["Convert and resize images"]);
    let advice = decided(advise_start(
        &registry,
        "convert a png",
        &AdviceOptions {
            category: Some("image"),
            intent: Some("explore"),
            ..Default::default()
        },
    ));
    assert!(!advice.applicable);
    assert_eq!(advice.category.as_deref(), Some("image"));
    assert_eq!(
        advice.recommendation.reason,
        "No commodity local operation requiring incidental custom code was identified."
    );
}

#[test]
fn category_without_candidates_is_not_applicable() {
    let registry = registry_with_tool("image", "sips", &["Convert and resize images"]);
    let advice = decided(advise_start(&registry, "convert a video", &options(Some("media"))));
    assert!(!advice.applicable);
    assert_eq!(advice.category.as_deref(), Some("media"));
    assert_eq!(
        advice.recommendation.reason,
        "The requested category has no registered local tool candidates."
    );
}

#[test]
fn explicit_category_without_a_registry_section_has_no_candidates() {
    let registry = Registry::new();
    let advice = decided(advise_start(&registry, "convert it", &options(Some("pdf"))));
    assert_eq!(advice.recommendation.decision, "not_applicable");
    assert!(advice.recommendation.tool.is_none());
    assert!(advice.recommendation.command_templates.is_empty());
}

#[test]
fn at_most_five_candidates_are_detected() {
    let mut tools = Vec::new();
    for name in ["a", "b", "c", "d", "e", "f", "g"] {
        tools.push((name.to_string(), spec_for(name, 10, &["convert things"])));
    }
    let registry = Registry::from_entries(vec![(
        "data".to_string(),
        Category {
            description: Some("Data".to_string()),
            tools,
        },
    )]);
    match advise_start(&registry, "convert json", &options(None)) {
        AdviceStart::Detect(pending) => {
            assert_eq!(pending.category, "data");
            assert_eq!(pending.candidates.len(), MAX_CANDIDATES);
            assert_eq!(
                pending.detection_targets(),
                vec!["a", "b", "c", "d", "e"]
                    .into_iter()
                    .map(String::from)
                    .collect::<Vec<_>>()
            );
        }
        AdviceStart::Decided(_) => panic!("expected candidates"),
    }
}

#[test]
fn missing_tool_without_memory_is_known_but_not_installed() {
    let registry = registry_with_tool("image", "sips", &["Convert and resize images"]);
    let advice = advise_with(
        &registry,
        "convert a png",
        &options(None),
        vec![missing("image", "sips")],
        Vec::new(),
    );
    assert!(advice.applicable);
    assert_eq!(advice.recommendation.decision, "known_tool_not_installed");
    assert_eq!(advice.recommendation.tool.as_deref(), Some("sips"));
    assert_eq!(
        advice.recommendation.reason,
        "sips fits the operation but was not detected; ask before installing it or use justified custom code."
    );
    assert_eq!(
        advice.recommendation.command_templates,
        vec![("run".to_string(), "sips {input}".to_string())]
    );
}

#[test]
fn recalled_recipe_is_preferred_when_nothing_is_installed() {
    let registry = registry_with_tool("image", "sips", &["Convert and resize images"]);
    let mut record = MemoryRecord::empty();
    record.status = Some("verified_success".to_string());
    record.tool = Some("magick".to_string());
    record.category = Some("image".to_string());
    record.command = Some("magick in.png out.jpg".to_string());
    let advice = advise_with(
        &registry,
        "convert a png",
        &options(None),
        vec![missing("image", "sips")],
        vec![record],
    );
    assert_eq!(advice.recommendation.decision, "verify_recalled_recipe");
    assert_eq!(advice.recommendation.tool.as_deref(), Some("magick"));
    assert_eq!(
        advice.recommendation.command_templates,
        vec![("recalled".to_string(), "magick in.png out.jpg".to_string())]
    );
    assert!(advice.memory.is_empty());
}

#[test]
fn recall_keeps_the_available_recommendation() {
    let registry = registry_with_tool("image", "sips", &["Convert and resize images"]);
    let opts = AdviceOptions {
        recall: true,
        verbose: true,
        memory_limit: 0,
        ..options(None)
    };
    let pending = match advise_start(&registry, "convert a png", &opts) {
        AdviceStart::Detect(p) => p,
        AdviceStart::Decided(_) => panic!("expected candidates"),
    };
    let recall = match advise_after_detection(pending, vec![found("image", "sips")]) {
        AfterDetection::Recall(p) => p,
        AfterDetection::Decided(_) => panic!("recall was asked for"),
    };
    assert_eq!(recall.limit, 1);
    let mut record = MemoryRecord::empty();
    record.status = Some("verified_success".to_string());
    record.command_template = Some("magick {input}".to_string());
    let advice = advise_after_recall(recall, vec![record]);
    assert_eq!(advice.recommendation.decision, "use_existing_tool");
    assert_eq!(advice.memory.len(), 1);
    assert_eq!(advice.detected.len(), 1);
    assert_eq!(
        advice.recommendation.reason,
        "sips is available and can be used instead of incidental custom code."
    );
}

fn row(category: &str, tool: &str) -> MatchedTool {
    MatchedTool {
        category: category.to_string(),
        tool: tool.to_string(),
        priority: 10,
        is_match: true,
        detect_names: Vec::new(),
        known_paths: Vec::new(),
        app_bundle_paths: Vec::new(),
        handles: Vec::new(),
        commands: vec![("run".to_string(), format!("{tool} x"))],
        fallbacks: Vec::new(),
    }
}

#[test]
fn the_last_detection_of_a_tool_counts() {
    let candidates = vec![row("data", "jq"), row("data", "yq")];
    let mut unverified = found("data", "yq");
    unverified.status = "present_unverified".to_string();
    let detected = vec![found("data", "jq"), missing("data", "jq"), unverified];
    let rec = recommend_available(&candidates, &detected).unwrap();
    assert_eq!(rec.tool.as_deref(), Some("yq"));
    assert_eq!(rec.category.as_deref(), Some("data"));
    assert_eq!(
        rec.reason,
        "yq is present_unverified and can be used instead of incidental custom code."
    );
    assert!(recommend_available(&candidates, &vec![missing("data", "yq")]).is_none());
}

#[test]
fn custom_code_is_justified_without_candidates_or_recipes() {
    let mut failed = MemoryRecord::empty();
    failed.status = Some("failed".to_string());
    failed.command = Some("x".to_string());
    let mut no_command = MemoryRecord::empty();
    no_command.status = Some("verified_success".to_string());
    let rec = recommend_after_recall(&Vec::new(), &vec![failed, no_command], "pdf");
    assert_eq!(rec.decision, "custom_code_justified");
    assert_eq!(rec.category.as_deref(), Some("pdf"));
    assert!(rec.tool.is_none());
    assert_eq!(
        rec.reason,
        "No matching installed tool or recalled recipe was found."
    );
}

#[test]
fn recalled_template_is_preferred_to_command() {
    let mut record = MemoryRecord::empty();
    record.command = Some("plain".to_string());
    record.command_template = Some("templated {x}".to_string());
    assert_eq!(
        memory_command_templates(&record),
        vec![("recalled".to_string(), "templated {x}".to_string())]
    );
    assert!(memory_command_templates(&MemoryRecord::empty()).is_empty());
}

#[test]
fn details_only_in_verbose_mode() {
    assert_eq!(detail(true, vec![1, 2, 3]), vec![1, 2, 3]);
    assert!(detail(false, vec![1, 2, 3]).is_empty());
}

#[test]
fn not_applicable_advice_is_empty() {
    let a = not_applicable("t", Some("pdf".to_string()), "because");
    assert_eq!(a.task, "t");
    assert!(!a.applicable);
    assert_eq!(a.category.as_deref(), Some("pdf"));
    assert_eq!(a.recommendation.decision, "not_applicable");
    assert_eq!(a.recommendation.reason, "because");
    assert!(a.recommendation.category.is_none());
    assert!(a.candidates.is_empty() && a.detected.is_empty() && a.memory.is_empty());
}

#[test]
fn candidates_come_from_the_registry_query() {
    let registry = registry_with_tool("image", "sips", &["Convert and resize images"]);
    let rows = query(&registry, Some("image"), Some("convert a png"));
    let pending = match advise_start(&registry, "convert a png", &options(None)) {
        AdviceStart::Detect(p) => p,
        AdviceStart::Decided(_) => panic!("expected candidates"),
    };
    assert_eq!(pending.candidates.len(), rows.len());
    assert_eq!(pending.candidates[0].tool, rows[0].tool);
    assert_eq!(pending.candidates[0].is_match, rows[0].is_match);
    assert_eq!(pending.memory_limit, 5);
}

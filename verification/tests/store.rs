use tool_first::file_store::{
    availability, is_record_file, recall_line, recall_ranking, record_filename,
    sanitize, score_record, tokenize,
};
use tool_first::memory::{clone_record, MemoryRecord};

fn strings(v: &[&str]) -> Vec<String> {
    v.iter().map(|s| s.to_string()).collect()
}

fn recipe(category: &str, tool: &str, task: &str, created: &str) -> MemoryRecord {
    let mut r = MemoryRecord::empty();
    r.record_type = Some("recipe".to_string());
    r.category = Some(category.to_string());
    r.tool = Some(tool.to_string());
    r.task = Some(task.to_string());
    r.status = Some("verified_success".to_string());
    r.created_at = Some(created.to_string());
    r
}

#[test]
fn tokens_are_lowercased_sorted_and_unique() {
    assert_eq!(
        tokenize("Hello world_wide, HELLO!"),
        strings(&["hello", "wide", "world", "world_wide"])
    );
    assert_eq!(tokenize("a__b"), strings(&["", "a", "a__b", "b"]));
    assert!(tokenize("  ...  ").is_empty());
    assert_eq!(tokenize("PNG→JPG 图片"), strings(&["jpg", "png", "图片"]));
}

#[test]
fn score_counts_query_terms_found_in_the_record() {
    let r = recipe("image", "sips", "Convert PNG files", "2026-01-01T00:00:00Z");
    let terms = tokenize("convert png to jpg");
    assert_eq!(score_record(&r, &terms), 2);
    let mut tagged = MemoryRecord::empty();
    tagged.tags = Some(strings(&["tool-category-image"]));
    assert_eq!(score_record(&tagged, &tokenize("category image pdf")), 2);
    assert_eq!(score_record(&MemoryRecord::empty(), &terms), 0);
}

#[test]
fn recall_ranks_by_score_then_recency() {
    let records = vec![
        recipe("image", "sips", "convert png", "2026-01-01T00:00:00Z"),
        recipe("image", "magick", "convert png resize", "2026-01-02T00:00:00Z"),
        recipe("pdf", "qpdf", "convert png resize", "2026-01-03T00:00:00Z"),
        recipe("image", "vips", "convert png", "2026-01-05T00:00:00Z"),
        recipe("image", "other", "unrelated", "2026-01-09T00:00:00Z"),
    ];
    assert_eq!(recall_ranking(&records, "convert png resize", None, 10), vec![2, 1, 3, 0]);
    assert_eq!(recall_ranking(&records, "convert png resize", Some("image"), 10), vec![1, 3, 0]);
    assert_eq!(recall_ranking(&records, "convert png resize", Some("image"), 2), vec![1, 3]);
    assert!(recall_ranking(&records, "nothing matches", None, 10).is_empty());
    assert!(recall_ranking(&records, "convert", None, 0).is_empty());
}

#[test]
fn recall_category_also_matches_tags() {
    let mut r = MemoryRecord::empty();
    r.tool = Some("jq".to_string());
    r.tags = Some(strings(&["tool-inventory", "tool-category-data"]));
    let records = vec![r];
    assert_eq!(recall_ranking(&records, "jq", Some("data"), 5), vec![0]);
    assert!(recall_ranking(&records, "jq", Some("image"), 5).is_empty());
}

#[test]
fn equal_records_keep_their_order() {
    let records = vec![
        recipe("image", "a", "convert", "2026-01-01T00:00:00Z"),
        recipe("image", "b", "convert", "2026-01-01T00:00:00Z"),
    ];
    assert_eq!(recall_ranking(&records, "convert", None, 5), vec![0, 1]);
}

#[test]
fn sanitize_keeps_safe_characters() {
    assert_eq!(sanitize("open code/ä_x-y!", 40), "open-code-ä_x-y-");
    assert_eq!(sanitize("abcdefgh", 3), "abc");
    assert_eq!(sanitize("", 3), "");
    assert_eq!(sanitize("a.b", 0), "");
}

#[test]
fn record_file_names_follow_the_documented_pattern() {
    let mut r = MemoryRecord::empty();
    r.source_agent = Some("open code".to_string());
    r.tool = Some("ffmpeg".to_string());
    r.record_type = Some("recipe".to_string());
    assert_eq!(
        record_filename("20260612-153102", &r, "a92d1234-5678-4abc-8def-0123456789ab"),
        "20260612-153102-open-code-ffmpeg-recipe-a92d.json"
    );
    assert_eq!(
        record_filename("20260612-153102", &MemoryRecord::empty(), "ab"),
        "20260612-153102----ab.json"
    );
}

#[test]
fn generated_names_are_record_files() {
    let mut r = MemoryRecord::empty();
    r.source_agent = Some("hermes".to_string());
    r.tool = Some("pandoc".to_string());
    r.record_type = Some("recipe".to_string());
    let name = record_filename("20260612-153000", &r, "8f3a0c1d-aaaa-4bbb-8ccc-0123456789ab");
    assert!(is_record_file(&name));
    assert_eq!(name, "20260612-153000-hermes-pandoc-recipe-8f3a.json");
    assert!(is_record_file(&record_filename("", &MemoryRecord::empty(), "")));
}

#[test]
fn record_files_are_json_but_not_temporary() {
    assert!(is_record_file("a.json"));
    assert!(is_record_file("x.tar.json"));
    assert!(!is_record_file(".tmp-a.json"));
    assert!(!is_record_file("a.txt"));
    assert!(!is_record_file(".json"));
    assert!(!is_record_file("json"));
    assert!(!is_record_file("a.JSON"));
    assert!(!is_record_file("a.json.tmp"));
    assert!(!is_record_file(""));
}

#[test]
fn availability_filters_by_type_and_tool() {
    let mut a = MemoryRecord::empty();
    a.record_type = Some("availability".to_string());
    a.tool = Some("jq".to_string());
    let mut b = clone_record(&a);
    b.tool = Some("yq".to_string());
    let mut c = clone_record(&a);
    c.record_type = Some("recipe".to_string());
    let mut d = clone_record(&a);
    d.tool = None;
    let records = vec![a, b, c, d];
    assert_eq!(availability(&records, None), vec![0, 1, 3]);
    assert_eq!(availability(&records, Some(&strings(&["yq", "zz"]))), vec![1]);
    assert!(availability(&records, Some(&Vec::new())).is_empty());
}

#[test]
fn recall_lines_summarize_records() {
    let mut r = recipe("image", "magick", "resize", "x");
    r.command = Some("magick a b".to_string());
    assert_eq!(recall_line(&r), "  image/magick [resize] -> verified_success  $ magick a b");
    r.command_template = Some("magick {in} {out}".to_string());
    assert_eq!(
        recall_line(&r),
        "  image/magick [resize] -> verified_success  $ magick {in} {out}"
    );
    assert_eq!(recall_line(&MemoryRecord::empty()), "  ?/? -> ?");
}

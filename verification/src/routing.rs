//! Task routing: which tasks are in scope and which tool category they need.
//!
//! All tests run on the lowercased task text and look for keywords as substrings.
use vstd::prelude::*;
use crate::text::{
    chars_of, contains_any, contains_any_word, lowercase, owned, strs_view, to_lowercase,
};

verus! {

/// The marker intent under which commodity operations are checked.
pub open spec fn avoid_custom_code_intent() -> Seq<char> {
    "avoid_custom_code"@
}

/// Verbs that ask for software to be written.
pub open spec fn implementation_verbs() -> Seq<Seq<char>> {
    seq![
        "write"@,
        "implement"@,
        "develop"@,
        "code"@,
        "build"@,
        "create"@,
        "编写"@,
        "实现"@,
        "开发"@,
        "编码"@,
        "创建"@,
        "写一个"@,
    ]
}

/// Nouns naming software artifacts.
pub open spec fn software_nouns() -> Seq<Seq<char>> {
    seq![
        "script"@,
        "program"@,
        "library"@,
        "function"@,
        "api"@,
        " app"@,
        "application"@,
        " cli"@,
        "rust"@,
        "python"@,
        "javascript"@,
        "typescript"@,
        "代码"@,
        "脚本"@,
        "程序"@,
        "函数"@,
        "库"@,
        "应用"@,
        "工具"@,
        "接口"@,
    ]
}

/// Verbs of commodity local operations that existing tools perform.
pub open spec fn commodity_actions() -> Seq<Seq<char>> {
    seq![
        "convert"@,
        "extract"@,
        "resize"@,
        "compress"@,
        "decompress"@,
        "split"@,
        "merge"@,
        "query"@,
        "filter"@,
        "transform"@,
        "download"@,
        "scrape"@,
        "render"@,
        "ocr"@,
        "archive"@,
        "unzip"@,
        "zip"@,
        "parse"@,
        "转换"@,
        "转成"@,
        "提取"@,
        "调整尺寸"@,
        "压缩"@,
        "解压"@,
        "拆分"@,
        "合并"@,
        "查询"@,
        "过滤"@,
        "下载"@,
        "抓取"@,
        "渲染"@,
        "识别"@,
    ]
}

/// Category inference rules, tried in order: (category, keywords).
pub open spec fn category_rules() -> Seq<(Seq<char>, Seq<Seq<char>>)> {
    seq![
        (
            "document"@,
            seq![
                "docx"@,
                "word"@,
                "markdown"@,
                "epub"@,
                "pptx"@,
                "slides"@,
                "文档"@,
                "幻灯片"@,
            ],
        ),
        ("pdf"@, seq!["pdf"@, "page count"@, "pdf text"@, "render pdf"@, "PDF"@]),
        (
            "image"@,
            seq![
                "image"@,
                "png"@,
                "jpg"@,
                "jpeg"@,
                "webp"@,
                "resize"@,
                "ocr"@,
                "exif"@,
                "图片"@,
                "图像"@,
            ],
        ),
        (
            "media"@,
            seq![
                "video"@,
                "audio"@,
                "mp4"@,
                "mov"@,
                "mp3"@,
                "ffmpeg"@,
                "subtitle"@,
                "视频"@,
                "音频"@,
                "字幕"@,
            ],
        ),
        (
            "data"@,
            seq![
                "json"@,
                "yaml"@,
                "yml"@,
                "csv"@,
                "tsv"@,
                "xml"@,
                "sqlite"@,
                "sql"@,
                "数据"@,
            ],
        ),
        (
            "search"@,
            seq![
                "search"@,
                "grep"@,
                "find files"@,
                "ripgrep"@,
                "replace"@,
                "list files"@,
                "搜索文件"@,
                "查找文本"@,
                "批量替换"@,
            ],
        ),
        ("archive"@, seq!["zip"@, "unzip"@, "tar"@, "zstd"@, "archive"@, "压缩包"@, "解压"@]),
        (
            "web"@,
            seq![
                "url"@,
                "http"@,
                "website"@,
                "web page"@,
                "curl"@,
                "download"@,
                "scrape"@,
                "网页"@,
                "网站"@,
            ],
        ),
    ]
}

/// The task asks for software to be written: it names both an implementation
/// verb and a software artifact.
pub open spec fn asks_for_software(task: Seq<char>) -> bool {
    let text = lowercase(task);
    contains_any_word(text, implementation_verbs()) && contains_any_word(text, software_nouns())
}

/// The task names a commodity operation.
pub open spec fn names_commodity_action(task: Seq<char>) -> bool {
    contains_any_word(lowercase(task), commodity_actions())
}

/// The first rule, from index `i` on, with a keyword in `text`.
pub open spec fn first_rule_from(text: Seq<char>, rules: Seq<(Seq<char>, Seq<Seq<char>>)>, i: nat) -> Option<
    Seq<char>,
>
    decreases rules.len() - i,
{
    if i >= rules.len() {
        None
    } else if contains_any_word(text, rules[i as int].1) {
        Some(rules[i as int].0)
    } else {
        first_rule_from(text, rules, i + 1)
    }
}

/// The category inferred from the task's keywords, if any.
pub open spec fn inferred_category(task: Seq<char>) -> Option<Seq<char>> {
    first_rule_from(lowercase(task), category_rules(), 0)
}

/// The tool-first check applies: the task does not ask for software, the intent
/// (if any) is the avoid-custom-code intent, and either a category was given
/// explicitly or one was resolved and the task names a commodity operation.
pub open spec fn applicable(
    task: Seq<char>,
    explicit_category: bool,
    intent: Option<Seq<char>>,
    resolved_category: bool,
) -> bool {
    &&& !asks_for_software(task)
    &&& match intent {
        Some(i) => i == avoid_custom_code_intent(),
        None => true,
    }
    &&& (explicit_category || (resolved_category && names_commodity_action(task)))
}

fn implementation_verb_list() -> (v: Vec<&'static str>)
    ensures
        strs_view(v@) == implementation_verbs(),
{
    let v = vec![
        "write",
        "implement",
        "develop",
        "code",
        "build",
        "create",
        "编写",
        "实现",
        "开发",
        "编码",
        "创建",
        "写一个",
    ];
    assert(strs_view(v@) =~= implementation_verbs());
    v
}

fn software_noun_list() -> (v: Vec<&'static str>)
    ensures
        strs_view(v@) == software_nouns(),
{
    let v = vec![
        "script",
        "program",
        "library",
        "function",
        "api",
        " app",
        "application",
        " cli",
        "rust",
        "python",
        "javascript",
        "typescript",
        "代码",
        "脚本",
        "程序",
        "函数",
        "库",
        "应用",
        "工具",
        "接口",
    ];
    assert(strs_view(v@) =~= software_nouns());
    v
}

fn commodity_action_list() -> (v: Vec<&'static str>)
    ensures
        strs_view(v@) == commodity_actions(),
{
    let v = vec![
        "convert",
        "extract",
        "resize",
        "compress",
        "decompress",
        "split",
        "merge",
        "query",
        "filter",
        "transform",
        "download",
        "scrape",
        "render",
        "ocr",
        "archive",
        "unzip",
        "zip",
        "parse",
        "转换",
        "转成",
        "提取",
        "调整尺寸",
        "压缩",
        "解压",
        "拆分",
        "合并",
        "查询",
        "过滤",
        "下载",
        "抓取",
        "渲染",
        "识别",
    ];
    assert(strs_view(v@) =~= commodity_actions());
    v
}

/// Whether the task explicitly asks for software to be implemented.
pub fn requests_software_implementation(task: &str) -> (b: bool)
    ensures
        b == asks_for_software(task@),
{
    let text = chars_of(to_lowercase(task).as_str());
    let verbs = implementation_verb_list();
    let nouns = software_noun_list();
    contains_any(&text, &verbs) && contains_any(&text, &nouns)
}

/// Whether the task names a commodity local operation.
pub fn has_commodity_action(task: &str) -> (b: bool)
    ensures
        b == names_commodity_action(task@),
{
    let text = chars_of(to_lowercase(task).as_str());
    let actions = commodity_action_list();
    contains_any(&text, &actions)
}

fn category_rule_list() -> (v: Vec<(&'static str, Vec<&'static str>)>)
    ensures
        v@.len() == category_rules().len(),
        forall|i: int|
            0 <= i < v@.len() ==> (#[trigger] v@[i]).0@ == category_rules()[i].0 && strs_view(
                v@[i].1@,
            ) == category_rules()[i].1,
{
    let v = vec![
        ("document", vec!["docx", "word", "markdown", "epub", "pptx", "slides", "文档", "幻灯片"]),
        ("pdf", vec!["pdf", "page count", "pdf text", "render pdf", "PDF"]),
        (
            "image",
            vec!["image", "png", "jpg", "jpeg", "webp", "resize", "ocr", "exif", "图片", "图像"],
        ),
        (
            "media",
            vec!["video", "audio", "mp4", "mov", "mp3", "ffmpeg", "subtitle", "视频", "音频", "字幕"],
        ),
        ("data", vec!["json", "yaml", "yml", "csv", "tsv", "xml", "sqlite", "sql", "数据"]),
        (
            "search",
            vec![
                "search",
                "grep",
                "find files",
                "ripgrep",
                "replace",
                "list files",
                "搜索文件",
                "查找文本",
                "批量替换",
            ],
        ),
        ("archive", vec!["zip", "unzip", "tar", "zstd", "archive", "压缩包", "解压"]),
        (
            "web",
            vec!["url", "http", "website", "web page", "curl", "download", "scrape", "网页", "网站"],
        ),
    ];
    assert(strs_view(v@[0].1@) =~= category_rules()[0].1);
    assert(strs_view(v@[1].1@) =~= category_rules()[1].1);
    assert(strs_view(v@[2].1@) =~= category_rules()[2].1);
    assert(strs_view(v@[3].1@) =~= category_rules()[3].1);
    assert(strs_view(v@[4].1@) =~= category_rules()[4].1);
    assert(strs_view(v@[5].1@) =~= category_rules()[5].1);
    assert(strs_view(v@[6].1@) =~= category_rules()[6].1);
    assert(strs_view(v@[7].1@) =~= category_rules()[7].1);
    v
}

/// The category a task's keywords point to: the first rule (document, pdf,
/// image, media, data, search, archive, web) with a keyword in the lowercased task.
pub fn infer_category(task: &str) -> (r: Option<String>)
    ensures
        match r {
            Some(c) => inferred_category(task@) == Some(c@),
            None => inferred_category(task@) is None,
        },
{
    let text = chars_of(to_lowercase(task).as_str());
    let rules = category_rule_list();
    let n = rules.len();
    let ghost t = lowercase(task@);
    let mut i: usize = 0;
    while i < n
        invariant
            n == rules@.len(),
            n == category_rules().len(),
            i <= n,
            text@ == t,
            t == lowercase(task@),
            forall|k: int|
                0 <= k < n ==> (#[trigger] rules@[k]).0@ == category_rules()[k].0 && strs_view(
                    rules@[k].1@,
                ) == category_rules()[k].1,
            first_rule_from(t, category_rules(), 0) == first_rule_from(
                t,
                category_rules(),
                i as nat,
            ),
        decreases n - i,
    {
        let _ = rules[i].0;
        if contains_any(&text, &rules[i].1) {
            return Some(owned(rules[i].0));
        }
        i = i + 1;
    }
    None
}

/// Whether the tool-first check applies to a task (see [`applicable`]).
pub fn is_applicable(
    task: &str,
    explicit_category: Option<&str>,
    intent: Option<&str>,
    resolved_category: Option<&str>,
) -> (b: bool)
    ensures
        b == applicable(
            task@,
            explicit_category is Some,
            match intent {
                Some(i) => Some(i@),
                None => None,
            },
            resolved_category is Some,
        ),
{
    if requests_software_implementation(task) {
        return false;
    }
    if let Some(intent) = intent {
        let marker = "avoid_custom_code";
        if !crate::text::str_eq(intent, marker) {
            return false;
        }
    }
    if explicit_category.is_some() {
        return true;
    }
    resolved_category.is_some() && has_commodity_action(task)
}

} // verus!

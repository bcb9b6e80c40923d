//! The tool registry: categories of candidate tools and the query over them.
//!
//! The registry is held as vectors in key order: categories by name, the tools of
//! a category by name, and the command templates of a tool by key.
use vstd::prelude::*;
use crate::order::{
    insert_stable, lemma_insert_stable_at, lemma_sort_stable_multiset, lemma_sort_stable_sorted,
    sort_stable, sorted_by, total_preorder,
};
use crate::config::{first_true, first_true_index};
use crate::resolver::{join_path, joined};
use crate::text::{
    chars_eq, lex_less, lemma_lex_total, owned, lex_lt, lemma_lex_irreflexive, lemma_lex_transitive, strictly_sorted,
    Separator, chars_of, chars_view, concat, contains_chars, has_substring, join_spaced,
    lowercase, push_str, split_chars, split_on, str_eq, strings_view, strs_view, to_lowercase,
    white_space,
};

verus! {

/// How to find, check and use one registered tool.
pub struct ToolSpec {
    pub priority: Option<u32>,
    pub detect_names: Vec<String>,
    pub known_paths: Vec<String>,
    pub app_bundle_paths: Vec<String>,
    pub version_args: Vec<String>,
    pub handles: Vec<String>,
    /// Command templates as (key, template), in key order.
    pub commands: Vec<(String, String)>,
    pub fallbacks: Vec<String>,
}

/// A category of tools, as (name, spec). A category in a [`Registry`] holds its
/// tools in name order, each name once.
pub struct Category {
    pub description: Option<String>,
    pub tools: Vec<(String, ToolSpec)>,
}

/// The whole registry: (category name, category), categories in name order
/// and each category's tools in name order, each name once.
pub struct Registry {
    categories: Vec<(String, Category)>,
}

/// A registered tool returned by a registry query.
pub struct MatchedTool {
    pub category: String,
    pub tool: String,
    pub priority: u32,
    pub is_match: bool,
    pub detect_names: Vec<String>,
    pub known_paths: Vec<String>,
    pub app_bundle_paths: Vec<String>,
    pub handles: Vec<String>,
    pub commands: Vec<(String, String)>,
    pub fallbacks: Vec<String>,
}

/// The mathematical content of a [`MatchedTool`].
#[verifier::ext_equal]
pub struct MatchedToolView {
    pub category: Seq<char>,
    pub tool: Seq<char>,
    pub priority: u32,
    pub is_match: bool,
    pub detect_names: Seq<Seq<char>>,
    pub known_paths: Seq<Seq<char>>,
    pub app_bundle_paths: Seq<Seq<char>>,
    pub handles: Seq<Seq<char>>,
    pub commands: Seq<(Seq<char>, Seq<char>)>,
    pub fallbacks: Seq<Seq<char>>,
}

/// The character sequences of (key, value) string pairs.
pub open spec fn pairs_view(v: Seq<(String, String)>) -> Seq<(Seq<char>, Seq<char>)> {
    v.map_values(|p: (String, String)| (p.0@, p.1@))
}

impl View for MatchedTool {
    type V = MatchedToolView;

    open spec fn view(&self) -> MatchedToolView {
        MatchedToolView {
            category: self.category@,
            tool: self.tool@,
            priority: self.priority,
            is_match: self.is_match,
            detect_names: strings_view(self.detect_names@),
            known_paths: strings_view(self.known_paths@),
            app_bundle_paths: strings_view(self.app_bundle_paths@),
            handles: strings_view(self.handles@),
            commands: pairs_view(self.commands@),
            fallbacks: strings_view(self.fallbacks@),
        }
    }
}

/// The views of a sequence of matched tools.
pub open spec fn rows_view(v: Seq<MatchedTool>) -> Seq<MatchedToolView> {
    v.map_values(|r: MatchedTool| r@)
}

/// Keys and templates of commands, flattened as key, template, key, template, ...
pub open spec fn command_parts(cmds: Seq<(Seq<char>, Seq<char>)>) -> Seq<Seq<char>>
    decreases cmds.len(),
{
    if cmds.len() == 0 {
        Seq::empty()
    } else {
        command_parts(cmds.drop_last()) + seq![cmds.last().0, cmds.last().1]
    }
}

/// The text a task is matched against: handles, then command keys and templates,
/// joined by spaces and lowercased.
pub open spec fn tool_haystack(spec: ToolSpec) -> Seq<char> {
    lowercase(join_spaced(strings_view(spec.handles@) + command_parts(pairs_view(spec.commands@))))
}

/// Every whitespace-separated word of the lowercased task occurs in the tool's haystack.
pub open spec fn tool_matches(spec: ToolSpec, task: Seq<char>) -> bool {
    let words = split_on(lowercase(task), |c: char| white_space(c));
    forall|k: int|
        0 <= k < words.len() && (#[trigger] words[k]).len() > 0 ==> has_substring(
            tool_haystack(spec),
            words[k],
        )
}

/// The row a query reports for one tool.
pub open spec fn row_of(cat: Seq<char>, name: Seq<char>, spec: ToolSpec, task: Option<Seq<char>>) -> MatchedToolView {
    MatchedToolView {
        category: cat,
        tool: name,
        priority: match spec.priority {
            Some(p) => p,
            None => 999,
        },
        is_match: match task {
            Some(t) => tool_matches(spec, t),
            None => true,
        },
        detect_names: strings_view(spec.detect_names@),
        known_paths: strings_view(spec.known_paths@),
        app_bundle_paths: strings_view(spec.app_bundle_paths@),
        handles: strings_view(spec.handles@),
        commands: pairs_view(spec.commands@),
        fallbacks: strings_view(spec.fallbacks@),
    }
}

/// Query order: matching tools first, then by ascending priority.
pub open spec fn row_before(a: MatchedToolView, b: MatchedToolView) -> bool {
    (a.is_match && !b.is_match) || (a.is_match == b.is_match && a.priority <= b.priority)
}

/// The query order as a closure.
pub open spec fn row_order() -> spec_fn(MatchedToolView, MatchedToolView) -> bool {
    |a: MatchedToolView, b: MatchedToolView| row_before(a, b)
}

/// The rows of one category, in registry (name) order.
pub open spec fn category_rows_unsorted(
    cat: Seq<char>,
    tools: Seq<(String, ToolSpec)>,
    task: Option<Seq<char>>,
) -> Seq<MatchedToolView> {
    tools.map_values(|e: (String, ToolSpec)| row_of(cat, e.0@, e.1, task))
}

/// The rows of one category, stably sorted into query order.
pub open spec fn category_rows(cat: Seq<char>, tools: Seq<(String, ToolSpec)>, task: Option<Seq<char>>) -> Seq<
    MatchedToolView,
> {
    sort_stable(category_rows_unsorted(cat, tools, task), row_order())
}

/// A category passes the optional category filter.
pub open spec fn category_selected(name: Seq<char>, filter: Option<Seq<char>>) -> bool {
    match filter {
        Some(f) => name == f,
        None => true,
    }
}

/// The rows of a registry query: the selected categories in registry order,
/// each contributing its rows in query order.
pub open spec fn query_rows(
    reg: Seq<(String, Category)>,
    filter: Option<Seq<char>>,
    task: Option<Seq<char>>,
) -> Seq<MatchedToolView>
    decreases reg.len(),
{
    if reg.len() == 0 {
        Seq::empty()
    } else {
        query_rows(reg.drop_last(), filter, task) + if category_selected(reg.last().0@, filter) {
            category_rows(reg.last().0@, reg.last().1.tools@, task)
        } else {
            Seq::empty()
        }
    }
}

/// The view of an optional string slice.
pub open spec fn opt_str_view(o: Option<&str>) -> Option<Seq<char>> {
    match o {
        Some(s) => Some(s@),
        None => None,
    }
}

/// The view of an optional string.
pub open spec fn opt_string_view(o: Option<String>) -> Option<Seq<char>> {
    match o {
        Some(s) => Some(s@),
        None => None,
    }
}

/// A copy of a vector of strings.
pub fn clone_strings(v: &Vec<String>) -> (r: Vec<String>)
    ensures
        strings_view(r@) == strings_view(v@),
{
    let mut r: Vec<String> = Vec::new();
    let n = v.len();
    for i in 0..n
        invariant
            n == v@.len(),
            strings_view(r@) == strings_view(v@).take(i as int),
    {
        let s = v[i].clone();
        let ghost before = strings_view(r@);
        r.push(s);
        assert(strings_view(r@) =~= before.push(v@[i as int]@));
        assert(strings_view(v@).take(i + 1) =~= strings_view(v@).take(i as int).push(
            v@[i as int]@,
        ));
    }
    assert(strings_view(v@).take(n as int) =~= strings_view(v@));
    r
}

/// A copy of a vector of string pairs.
pub fn clone_pairs(v: &Vec<(String, String)>) -> (r: Vec<(String, String)>)
    ensures
        pairs_view(r@) == pairs_view(v@),
{
    let mut r: Vec<(String, String)> = Vec::new();
    let n = v.len();
    for i in 0..n
        invariant
            n == v@.len(),
            pairs_view(r@) == pairs_view(v@).take(i as int),
    {
        let p = (v[i].0.clone(), v[i].1.clone());
        let ghost before = pairs_view(r@);
        r.push(p);
        assert(pairs_view(r@) =~= before.push((v@[i as int].0@, v@[i as int].1@)));
        assert(pairs_view(v@).take(i + 1) =~= pairs_view(v@).take(i as int).push(
            (v@[i as int].0@, v@[i as int].1@),
        ));
    }
    assert(pairs_view(v@).take(n as int) =~= pairs_view(v@));
    r
}

/// Joins parts with single spaces.
pub fn join_with_spaces(parts: &Vec<&str>) -> (s: String)
    ensures
        s@ == join_spaced(strs_view(parts@)),
{
    let mut s = String::new();
    let n = parts.len();
    let ghost pv = strs_view(parts@);
    assert(pv.take(0) =~= Seq::<Seq<char>>::empty());
    for i in 0..n
        invariant
            n == parts@.len(),
            pv == strs_view(parts@),
            s@ == join_spaced(pv.take(i as int)),
    {
        let ghost prev = s@;
        assert(pv.take(i + 1).drop_last() =~= pv.take(i as int));
        assert(pv[i as int] == parts@[i as int]@);
        if i > 0 {
            push_str(&mut s, " ");
            proof {
                reveal_strlit(" ");
            }
            push_str(&mut s, parts[i]);
            assert(s@ =~= prev + seq![' '] + parts@[i as int]@);
        } else {
            push_str(&mut s, parts[i]);
            assert(s@ =~= parts@[i as int]@);
        }
    }
    assert(pv.take(n as int) =~= pv);
    s
}

/// The text parts a task is matched against.
fn haystack_parts(spec: &ToolSpec) -> (parts: Vec<&str>)
    ensures
        strs_view(parts@) == strings_view(spec.handles@) + command_parts(pairs_view(spec.commands@)),
{
    let mut parts: Vec<&str> = Vec::new();
    let n = spec.handles.len();
    for i in 0..n
        invariant
            n == spec.handles@.len(),
            strs_view(parts@) == strings_view(spec.handles@).take(i as int),
    {
        let ghost before = strs_view(parts@);
        parts.push(spec.handles[i].as_str());
        assert(strs_view(parts@) =~= before.push(spec.handles@[i as int]@));
        assert(strings_view(spec.handles@).take(i + 1) =~= strings_view(spec.handles@).take(
            i as int,
        ).push(spec.handles@[i as int]@));
    }
    assert(strings_view(spec.handles@).take(n as int) =~= strings_view(spec.handles@));
    let ghost handles = strings_view(spec.handles@);
    let ghost cmds = pairs_view(spec.commands@);
    let m = spec.commands.len();
    assert(cmds.take(0) =~= Seq::<(Seq<char>, Seq<char>)>::empty());
    for j in 0..m
        invariant
            m == spec.commands@.len(),
            cmds == pairs_view(spec.commands@),
            handles == strings_view(spec.handles@),
            strs_view(parts@) == handles + command_parts(cmds.take(j as int)),
    {
        let ghost before = strs_view(parts@);
        parts.push(spec.commands[j].0.as_str());
        parts.push(spec.commands[j].1.as_str());
        assert(cmds.take(j + 1).drop_last() =~= cmds.take(j as int));
        assert(cmds[j as int] == (spec.commands@[j as int].0@, spec.commands@[j as int].1@));
        assert(strs_view(parts@) =~= before + seq![
            spec.commands@[j as int].0@,
            spec.commands@[j as int].1@,
        ]);
        assert(strs_view(parts@) =~= handles + command_parts(cmds.take(j + 1)));
    }
    assert(cmds.take(m as int) =~= cmds);
    parts
}

/// Whether every whitespace-separated word of the task (lowercased) occurs in the
/// tool's handles and command keys and templates (joined by spaces, lowercased).
pub fn matches_task(spec: &ToolSpec, text: &str) -> (b: bool)
    ensures
        b == tool_matches(*spec, text@),
{
    let parts = haystack_parts(spec);
    let joined = join_with_spaces(&parts);
    let hay = chars_of(to_lowercase(joined.as_str()).as_str());
    let lowered = chars_of(to_lowercase(text).as_str());
    let words = split_chars(&lowered, &Separator::Whitespace);
    let ghost wv = chars_view(words@);
    assert(Separator::Whitespace.pred() =~= (|c: char| white_space(c)));
    let n = words.len();
    for k in 0..n
        invariant
            n == words@.len(),
            wv == chars_view(words@),
            wv == split_on(lowercase(text@), |c: char| white_space(c)),
            hay@ == tool_haystack(*spec),
            forall|j: int|
                0 <= j < k && (#[trigger] wv[j]).len() > 0 ==> has_substring(
                    tool_haystack(*spec),
                    wv[j],
                ),
    {
        assert(wv[k as int] == words@[k as int]@);
        if words[k].len() > 0 && !contains_chars(&hay, &words[k]) {
            return false;
        }
    }
    true
}

/// Whether a category name passes the optional filter.
fn category_passes(name: &String, filter: Option<&str>) -> (b: bool)
    ensures
        b == category_selected(name@, opt_str_view(filter)),
{
    match filter {
        Some(f) => str_eq(name.as_str(), f),
        None => true,
    }
}

/// The executable query order.
fn row_precedes(a: &MatchedTool, b: &MatchedTool) -> (r: bool)
    ensures
        r == row_before(a@, b@),
{
    (a.is_match && !b.is_match) || (a.is_match == b.is_match && a.priority <= b.priority)
}

/// Builds the row reported for one tool.
fn make_row(cat: &String, name: &String, spec: &ToolSpec, task: Option<&str>) -> (r: MatchedTool)
    ensures
        r@ == row_of(cat@, name@, *spec, opt_str_view(task)),
{
    let is_match = match task {
        Some(t) => matches_task(spec, t),
        None => true,
    };
    let priority = match spec.priority {
        Some(p) => p,
        None => 999,
    };
    MatchedTool {
        category: cat.clone(),
        tool: name.clone(),
        priority,
        is_match,
        detect_names: clone_strings(&spec.detect_names),
        known_paths: clone_strings(&spec.known_paths),
        app_bundle_paths: clone_strings(&spec.app_bundle_paths),
        handles: clone_strings(&spec.handles),
        commands: clone_pairs(&spec.commands),
        fallbacks: clone_strings(&spec.fallbacks),
    }
}

/// Inserts a row into rows kept in query order, after every row that may precede it.
fn insert_row(rows: &mut Vec<MatchedTool>, x: MatchedTool)
    ensures
        rows_view(final(rows)@) == insert_stable(rows_view(old(rows)@), x@, row_order()),
{
    let ghost old_rows = rows_view(rows@);
    let mut p = rows.len();
    while p > 0 && !row_precedes(&rows[p - 1], &x)
        invariant
            p <= rows@.len(),
            old_rows == rows_view(rows@),
            forall|k: int| p <= k < old_rows.len() ==> !row_before(#[trigger] old_rows[k], x@),
        decreases p,
    {
        assert(old_rows[p - 1] == rows@[p - 1]@);
        p = p - 1;
    }
    proof {
        if p > 0 {
            assert(old_rows[p - 1] == rows@[p - 1]@);
        }
        assert(row_order() =~= (|a: MatchedToolView, b: MatchedToolView| row_before(a, b)));
        lemma_insert_stable_at(old_rows, x@, row_order(), p as int);
    }
    let ghost xv = x@;
    rows.insert(p, x);
    assert(rows_view(rows@) =~= old_rows.take(p as int).push(xv) + old_rows.skip(p as int));
}

/// The rows of one category in query order.
fn rows_of_category(cat: &String, section: &Category, task: Option<&str>) -> (rows: Vec<MatchedTool>)
    ensures
        rows_view(rows@) == category_rows(cat@, section.tools@, opt_str_view(task)),
{
    let mut rows: Vec<MatchedTool> = Vec::new();
    let ghost unsorted = category_rows_unsorted(cat@, section.tools@, opt_str_view(task));
    let n = section.tools.len();
    assert(unsorted.take(0) =~= Seq::<MatchedToolView>::empty());
    for i in 0..n
        invariant
            n == section.tools@.len(),
            unsorted == category_rows_unsorted(cat@, section.tools@, opt_str_view(task)),
            rows_view(rows@) == sort_stable(unsorted.take(i as int), row_order()),
    {
        let row = make_row(cat, &section.tools[i].0, &section.tools[i].1, task);
        assert(unsorted.take(i + 1).drop_last() =~= unsorted.take(i as int));
        assert(unsorted.take(i + 1).last() == row@);
        insert_row(&mut rows, row);
    }
    assert(unsorted.take(n as int) =~= unsorted);
    rows
}

/// Queries the registry for tools in a category (all categories when `None`),
/// marking which tools match the task text (all, when there is no task).
/// Categories come in name order; within one, matching tools come first,
/// then lower priority numbers, then tool names in order.
pub fn query(registry: &Registry, category: Option<&str>, task: Option<&str>) -> (out: Vec<MatchedTool>)
    ensures
        rows_view(out@) == query_rows(registry@, opt_str_view(category), opt_str_view(task)),
        strictly_registry_ordered(rows_view(out@)),
{
    let cats = registry.categories();
    let mut out: Vec<MatchedTool> = Vec::new();
    let n = cats.len();
    let ghost filter = opt_str_view(category);
    let ghost t = opt_str_view(task);
    assert(registry@.take(0) =~= Seq::<(String, Category)>::empty());
    for i in 0..n
        invariant
            n == registry@.len(),
            cats@ == registry@,
            filter == opt_str_view(category),
            t == opt_str_view(task),
            rows_view(out@) == query_rows(registry@.take(i as int), filter, t),
    {
        let ghost prev = rows_view(out@);
        assert(registry@.take(i + 1).drop_last() =~= registry@.take(i as int));
        assert(registry@.take(i + 1).last() == registry@[i as int]);
        if category_passes(&cats[i].0, category) {
            let mut rows = rows_of_category(&cats[i].0, &cats[i].1, task);
            let ghost added = rows_view(rows@);
            out.append(&mut rows);
            assert(rows_view(out@) =~= prev + added);
        } else {
            assert(prev + Seq::<MatchedToolView>::empty() =~= prev);
        }
    }
    assert(registry@.take(n as int) =~= registry@);
    proof {
        use_type_invariant(registry);
        lemma_query_ordered(registry@, opt_str_view(category), opt_str_view(task));
    }
    out
}

// ---------------------------------------------------------------------------
// Where the registry file is looked for
// ---------------------------------------------------------------------------
/// The registry files looked for, in order: `registry/tools.yaml` three, two,
/// one and zero levels above the executable's directory, then in the working
/// directory, its `crates/tool-first`, and its parent. Unknown directories
/// contribute nothing.
pub open spec fn registry_paths(exe_dir: Option<Seq<char>>, cwd: Option<Seq<char>>) -> Seq<Seq<char>> {
    (match exe_dir {
        Some(d) => seq![
            joined(d, "../../../registry/tools.yaml"@),
            joined(d, "../../registry/tools.yaml"@),
            joined(d, "../registry/tools.yaml"@),
            joined(d, "registry/tools.yaml"@),
        ],
        None => Seq::empty(),
    }) + (match cwd {
        Some(c) => seq![
            joined(c, "registry/tools.yaml"@),
            joined(c, "crates/tool-first/registry/tools.yaml"@),
            joined(c, "../registry/tools.yaml"@),
        ],
        None => Seq::empty(),
    })
}

/// The registry files looked for (see [`registry_paths`]).
pub fn registry_search_paths(exe_dir: Option<&str>, cwd: Option<&str>) -> (paths: Vec<String>)
    ensures
        strings_view(paths@) == registry_paths(opt_str_view(exe_dir), opt_str_view(cwd)),
{
    let mut paths: Vec<String> = Vec::new();
    if let Some(d) = exe_dir {
        paths.push(join_path(d, "../../../registry/tools.yaml"));
        paths.push(join_path(d, "../../registry/tools.yaml"));
        paths.push(join_path(d, "../registry/tools.yaml"));
        paths.push(join_path(d, "registry/tools.yaml"));
    }
    if let Some(c) = cwd {
        paths.push(join_path(c, "registry/tools.yaml"));
        paths.push(join_path(c, "crates/tool-first/registry/tools.yaml"));
        paths.push(join_path(c, "../registry/tools.yaml"));
    }
    assert(strings_view(paths@) =~= registry_paths(opt_str_view(exe_dir), opt_str_view(cwd)));
    paths
}

/// The error when no registry file is found.
pub open spec fn registry_not_found() -> Seq<char> {
    "registry/tools.yaml not found. Run from the project root or set the path."@
}

/// The registry file to load: the first of `paths` that is a file (`is_file`
/// tells which are), or the not-found error.
pub fn find_registry(paths: &Vec<String>, is_file: &Vec<bool>) -> (r: Result<String, String>)
    requires
        paths@.len() == is_file@.len(),
    ensures
        match first_true(is_file@, 0) {
            Some(i) => r is Ok && r->Ok_0@ == paths@[i]@,
            None => r is Err && r->Err_0@ == registry_not_found(),
        },
{
    match first_true_index(is_file) {
        Some(i) => Ok(paths[i].clone()),
        None => Err(owned("registry/tools.yaml not found. Run from the project root or set the path.")),
    }
}

// ---------------------------------------------------------------------------
// Laws
// ---------------------------------------------------------------------------
/// The query order is a total preorder.
pub proof fn lemma_row_order_total_preorder()
    ensures
        total_preorder(row_order()),
{
    assert forall|a: MatchedToolView, b: MatchedToolView|
        #[trigger] row_order()(a, b) || #[trigger] row_order()(b, a) by {}
    assert forall|a: MatchedToolView, b: MatchedToolView, c: MatchedToolView|
        #[trigger] row_order()(a, b) && #[trigger] row_order()(b, c) implies row_order()(a, c) by {}
}

/// Within a category, a query lists every tool of the category once, matching
/// tools before the others and lower priority numbers first.
pub proof fn lemma_category_rows_ordered(
    cat: Seq<char>,
    tools: Seq<(String, ToolSpec)>,
    task: Option<Seq<char>>,
)
    ensures
        sorted_by(category_rows(cat, tools, task), row_order()),
        category_rows(cat, tools, task).to_multiset() == category_rows_unsorted(
            cat,
            tools,
            task,
        ).to_multiset(),
        category_rows(cat, tools, task).len() == tools.len(),
{
    lemma_row_order_total_preorder();
    lemma_sort_stable_sorted(category_rows_unsorted(cat, tools, task), row_order());
    lemma_sort_stable_multiset(category_rows_unsorted(cat, tools, task), row_order());
}

/// A query for one category lists only tools of that category.
pub proof fn lemma_query_rows_in_category(
    reg: Seq<(String, Category)>,
    category: Seq<char>,
    task: Option<Seq<char>>,
)
    ensures
        forall|i: int|
            0 <= i < query_rows(reg, Some(category), task).len() ==> (#[trigger] query_rows(
                reg,
                Some(category),
                task,
            )[i]).category == category,
    decreases reg.len(),
{
    broadcast use vstd::seq_lib::group_to_multiset_ensures;

    if reg.len() > 0 {
        lemma_query_rows_in_category(reg.drop_last(), category, task);
        let prev = query_rows(reg.drop_last(), Some(category), task);
        let last = reg.last();
        if category_selected(last.0@, Some(category)) {
            let rows = category_rows(last.0@, last.1.tools@, task);
            let unsorted = category_rows_unsorted(last.0@, last.1.tools@, task);
            lemma_category_rows_ordered(last.0@, last.1.tools@, task);
            let all = prev + rows;
            assert(query_rows(reg, Some(category), task) == all);
            assert forall|i: int| 0 <= i < all.len() implies (#[trigger] all[i]).category
                == category by {
                if i >= prev.len() {
                    let e = rows[i - prev.len()];
                    assert(all[i] == e);
                    assert(rows.contains(e));
                    assert(rows.to_multiset().count(e) > 0);
                    assert(unsorted.to_multiset().count(e) > 0);
                    assert(unsorted.contains(e));
                    let k = choose|k: int| 0 <= k < unsorted.len() && unsorted[k] == e;
                    assert(unsorted[k].category == last.0@);
                } else {
                    assert(all[i] == prev[i]);
                }
            }
        } else {
            assert(query_rows(reg, Some(category), task) =~= prev);
        }
    }
}

/// The full query order: matching first, then ascending
/// priority, then tool name.
pub open spec fn query_lt(a: MatchedToolView, b: MatchedToolView) -> bool {
    (a.is_match && !b.is_match) || (a.is_match == b.is_match && (a.priority < b.priority || (
    a.priority == b.priority && lex_lt(a.tool, b.tool))))
}

/// `s` is strictly increasing in [`query_lt`].
pub open spec fn strictly_query_ordered(s: Seq<MatchedToolView>) -> bool {
    forall|i: int, j: int| 0 <= i < j < s.len() ==> query_lt(#[trigger] s[i], #[trigger] s[j])
}

/// The tool names of a category, in registry order.
pub open spec fn tool_names(tools: Seq<(String, ToolSpec)>) -> Seq<Seq<char>> {
    entry_names(tools)
}

proof fn lemma_insert_query_ordered(s: Seq<MatchedToolView>, x: MatchedToolView)
    requires
        strictly_query_ordered(s),
        forall|k: int| 0 <= k < s.len() ==> lex_lt(#[trigger] s[k].tool, x.tool),
    ensures
        strictly_query_ordered(insert_stable(s, x, row_order())),
    decreases s.len(),
{
    broadcast use vstd::seq_lib::group_to_multiset_ensures;

    if s.len() == 0 || row_before(s.last(), x) {
        let r = s.push(x);
        assert(insert_stable(s, x, row_order()) == r);
        assert forall|i: int, j: int| 0 <= i < j < r.len() implies query_lt(
            #[trigger] r[i],
            #[trigger] r[j],
        ) by {
            if j == s.len() {
                if i < s.len() - 1 {
                    assert(query_lt(s[i], s[s.len() - 1]));
                }
                assert(lex_lt(s[i].tool, x.tool));
            } else {
                assert(r[i] == s[i] && r[j] == s[j]);
            }
        }
    } else {
        let t = s.drop_last();
        assert forall|i: int, j: int| 0 <= i < j < t.len() implies query_lt(
            #[trigger] t[i],
            #[trigger] t[j],
        ) by {
            assert(t[i] == s[i] && t[j] == s[j]);
        }
        assert forall|k: int| 0 <= k < t.len() implies lex_lt(#[trigger] t[k].tool, x.tool) by {
            assert(t[k] == s[k]);
        }
        lemma_insert_query_ordered(t, x);
        crate::order::lemma_insert_stable_multiset(t, x, row_order());
        let u = insert_stable(t, x, row_order());
        let r = u.push(s.last());
        assert(insert_stable(s, x, row_order()) == r);
        assert forall|i: int, j: int| 0 <= i < j < r.len() implies query_lt(
            #[trigger] r[i],
            #[trigger] r[j],
        ) by {
            if j == u.len() {
                let e = u[i];
                assert(u.contains(e));
                assert(u.to_multiset().count(e) > 0);
                if e == x {
                } else {
                    assert(t.to_multiset().count(e) > 0);
                    assert(t.contains(e));
                    let k = choose|k: int| 0 <= k < t.len() && t[k] == e;
                    assert(s[k] == e);
                    assert(query_lt(s[k], s[s.len() - 1]));
                }
            } else {
                assert(r[i] == u[i] && r[j] == u[j]);
            }
        }
    }
}

/// With the tools of a category in name order (as the registry keeps them),
/// a query lists them exactly in the order "matching first, then ascending
/// priority, then name".
pub proof fn lemma_category_rows_by_name(
    cat: Seq<char>,
    tools: Seq<(String, ToolSpec)>,
    task: Option<Seq<char>>,
)
    requires
        strictly_sorted(tool_names(tools)),
    ensures
        strictly_query_ordered(category_rows(cat, tools, task)),
    decreases tools.len(),
{
    broadcast use vstd::seq_lib::group_to_multiset_ensures;

    let u = category_rows_unsorted(cat, tools, task);
    if tools.len() > 0 {
        let t = tools.drop_last();
        assert(tool_names(t) =~= tool_names(tools).drop_last());
        assert forall|i: int, j: int| 0 <= i < j < tool_names(t).len() implies lex_lt(
            #[trigger] tool_names(t)[i],
            #[trigger] tool_names(t)[j],
        ) by {
            assert(tool_names(t)[i] == tool_names(tools)[i]);
            assert(tool_names(t)[j] == tool_names(tools)[j]);
        }
        lemma_category_rows_by_name(cat, t, task);
        assert(category_rows_unsorted(cat, t, task) =~= u.drop_last());
        let s = sort_stable(u.drop_last(), row_order());
        lemma_sort_stable_multiset(u.drop_last(), row_order());
        let x = u.last();
        assert forall|k: int| 0 <= k < s.len() implies lex_lt(#[trigger] s[k].tool, x.tool) by {
            let e = s[k];
            assert(s.contains(e));
            assert(s.to_multiset().count(e) > 0);
            assert(u.drop_last().to_multiset().count(e) > 0);
            assert(u.drop_last().contains(e));
            let m = choose|m: int| 0 <= m < u.drop_last().len() && u.drop_last()[m] == e;
            assert(e.tool == tool_names(tools)[m]);
            assert(x.tool == tool_names(tools)[tools.len() - 1]);
        }
        lemma_insert_query_ordered(s, x);
    }
}

/// The registry as its YAML map gives it: category names strictly increasing,
/// and within each category the tool names strictly increasing.
pub open spec fn registry_wf(reg: Seq<(String, Category)>) -> bool {
    &&& strictly_sorted(category_names(reg))
    &&& forall|i: int| 0 <= i < reg.len() ==> strictly_sorted(tool_names(#[trigger] reg[i].1.tools@))
}

/// A query for a category that no entry has lists nothing.
proof fn lemma_query_rows_absent(
    reg: Seq<(String, Category)>,
    category: Seq<char>,
    task: Option<Seq<char>>,
)
    requires
        forall|i: int| 0 <= i < reg.len() ==> (#[trigger] reg[i]).0@ != category,
    ensures
        query_rows(reg, Some(category), task).len() == 0,
    decreases reg.len(),
{
    if reg.len() > 0 {
        let d = reg.drop_last();
        assert forall|i: int| 0 <= i < d.len() implies (#[trigger] d[i]).0@ != category by {
            assert(d[i] == reg[i]);
        }
        lemma_query_rows_absent(d, category, task);
        assert(reg.last() == reg[reg.len() - 1]);
    }
}

/// On a well-formed registry, a query for one category lists that category's
/// tools exactly in the order "matching first, then ascending priority, then name".
pub proof fn lemma_query_category_ordered(
    reg: Seq<(String, Category)>,
    category: Seq<char>,
    task: Option<Seq<char>>,
)
    requires
        registry_wf(reg),
    ensures
        strictly_query_ordered(query_rows(reg, Some(category), task)),
    decreases reg.len(),
{
    if reg.len() > 0 {
        let names = category_names(reg);
        let d = reg.drop_last();
        let dn = category_names(d);
        assert forall|i: int, j: int| 0 <= i < j < dn.len() implies lex_lt(
            #[trigger] dn[i],
            #[trigger] dn[j],
        ) by {
            assert(dn[i] == names[i] && dn[j] == names[j]);
        }
        assert forall|i: int| 0 <= i < d.len() implies strictly_sorted(
            tool_names(#[trigger] d[i].1.tools@),
        ) by {
            assert(d[i] == reg[i]);
        }
        let last = reg.last();
        assert(last == reg[reg.len() - 1]);
        if category_selected(last.0@, Some(category)) {
            assert forall|i: int| 0 <= i < d.len() implies (#[trigger] d[i]).0@ != category by {
                assert(d[i] == reg[i]);
                assert(names[i] == reg[i].0@);
                assert(names[reg.len() - 1] == last.0@);
                assert(lex_lt(names[i], names[reg.len() - 1]));
                lemma_lex_irreflexive(category);
            }
            lemma_query_rows_absent(d, category, task);
            lemma_category_rows_by_name(last.0@, last.1.tools@, task);
            assert(query_rows(reg, Some(category), task) =~= category_rows(
                last.0@,
                last.1.tools@,
                task,
            ));
        } else {
            lemma_query_category_ordered(d, category, task);
            assert(query_rows(reg, Some(category), task) =~= query_rows(d, Some(category), task));
        }
    }
}

/// Every row of a category lists that category.
proof fn lemma_category_rows_category(cat: Seq<char>, tools: Seq<(String, ToolSpec)>, task: Option<Seq<char>>)
    ensures
        forall|i: int|
            0 <= i < category_rows(cat, tools, task).len() ==> (#[trigger] category_rows(
                cat,
                tools,
                task,
            )[i]).category == cat,
{
    broadcast use vstd::seq_lib::group_to_multiset_ensures;

    let rows = category_rows(cat, tools, task);
    let unsorted = category_rows_unsorted(cat, tools, task);
    lemma_category_rows_ordered(cat, tools, task);
    assert forall|i: int| 0 <= i < rows.len() implies (#[trigger] rows[i]).category == cat by {
        let e = rows[i];
        assert(rows.contains(e));
        assert(rows.to_multiset().count(e) > 0);
        assert(unsorted.to_multiset().count(e) > 0);
        assert(unsorted.contains(e));
        let k = choose|k: int| 0 <= k < unsorted.len() && unsorted[k] == e;
        assert(unsorted[k].category == cat);
    }
}

/// The category names of a registry, in order.
pub open spec fn category_names(reg: Seq<(String, Category)>) -> Seq<Seq<char>> {
    entry_names(reg)
}

/// Every row of a query lists one of the registry's categories.
proof fn lemma_query_rows_known(
    reg: Seq<(String, Category)>,
    filter: Option<Seq<char>>,
    task: Option<Seq<char>>,
)
    ensures
        forall|i: int|
            0 <= i < query_rows(reg, filter, task).len() ==> category_names(reg).contains(
                (#[trigger] query_rows(reg, filter, task)[i]).category,
            ),
    decreases reg.len(),
{
    if reg.len() > 0 {
        let d = reg.drop_last();
        lemma_query_rows_known(d, filter, task);
        let prev = query_rows(d, filter, task);
        let all = query_rows(reg, filter, task);
        let last = reg.last();
        lemma_category_rows_category(last.0@, last.1.tools@, task);
        assert forall|i: int| 0 <= i < all.len() implies category_names(reg).contains(
            (#[trigger] all[i]).category,
        ) by {
            if i < prev.len() {
                assert(all[i] == prev[i]);
                let k = choose|k: int| 0 <= k < category_names(d).len() && category_names(d)[k]
                    == prev[i].category;
                assert(category_names(reg)[k] == category_names(d)[k]);
            } else {
                assert(all[i] == category_rows(last.0@, last.1.tools@, task)[i - prev.len()]);
                assert(category_names(reg)[reg.len() - 1] == last.0@);
            }
        }
    }
}

/// `s` is in the full query order: by category name, and within a category
/// matching first, then ascending priority, then tool name.
pub open spec fn strictly_registry_ordered(s: Seq<MatchedToolView>) -> bool {
    forall|i: int, j: int|
        0 <= i < j < s.len() ==> lex_lt(#[trigger] s[i].category, #[trigger] s[j].category) || (
        s[i].category == s[j].category && query_lt(s[i], s[j]))
}

/// On a well-formed registry, any query (with or without a category) lists its
/// tools in the order "category name, then matching first, then ascending
/// priority, then name", each tool once.
pub proof fn lemma_query_ordered(
    reg: Seq<(String, Category)>,
    filter: Option<Seq<char>>,
    task: Option<Seq<char>>,
)
    requires
        registry_wf(reg),
    ensures
        strictly_registry_ordered(query_rows(reg, filter, task)),
    decreases reg.len(),
{
    if reg.len() > 0 {
        let names = category_names(reg);
        let d = reg.drop_last();
        let dn = category_names(d);
        assert forall|i: int, j: int| 0 <= i < j < dn.len() implies lex_lt(
            #[trigger] dn[i],
            #[trigger] dn[j],
        ) by {
            assert(dn[i] == names[i] && dn[j] == names[j]);
        }
        assert forall|i: int| 0 <= i < d.len() implies strictly_sorted(
            tool_names(#[trigger] d[i].1.tools@),
        ) by {
            assert(d[i] == reg[i]);
        }
        lemma_query_ordered(d, filter, task);
        lemma_query_rows_known(d, filter, task);
        let last = reg.last();
        assert(last == reg[reg.len() - 1]);
        assert(names[reg.len() - 1] == last.0@);
        let prev = query_rows(d, filter, task);
        let all = query_rows(reg, filter, task);
        if category_selected(last.0@, filter) {
            let rows = category_rows(last.0@, last.1.tools@, task);
            lemma_category_rows_by_name(last.0@, last.1.tools@, task);
            lemma_category_rows_category(last.0@, last.1.tools@, task);
            assert(all == prev + rows);
            assert forall|i: int, j: int| 0 <= i < j < all.len() implies lex_lt(
                #[trigger] all[i].category,
                #[trigger] all[j].category,
            ) || (all[i].category == all[j].category && query_lt(all[i], all[j])) by {
                if j < prev.len() {
                    assert(all[i] == prev[i] && all[j] == prev[j]);
                } else if i >= prev.len() {
                    assert(all[i] == rows[i - prev.len()] && all[j] == rows[j - prev.len()]);
                } else {
                    assert(all[i] == prev[i] && all[j] == rows[j - prev.len()]);
                    let k = choose|k: int| 0 <= k < dn.len() && dn[k] == prev[i].category;
                    assert(names[k] == dn[k]);
                    assert(lex_lt(names[k], names[reg.len() - 1]));
                }
            }
        } else {
            assert(all =~= prev);
        }
    }
}

// ---------------------------------------------------------------------------
// Name-keyed entries and the registry's invariant
// ---------------------------------------------------------------------------
/// The names of (name, value) entries.
pub open spec fn entry_names<V>(v: Seq<(String, V)>) -> Seq<Seq<char>> {
    v.map_values(|e: (String, V)| e.0@)
}

/// `out` holds `input` keyed by name: names strictly increasing, the same names
/// as `input`, and each name holding the last entry `input` gives for it.
pub open spec fn keeps_last<V>(input: Seq<(String, V)>, out: Seq<(String, V)>) -> bool {
    &&& strictly_sorted(entry_names(out))
    &&& forall|t: Seq<char>| entry_names(out).contains(t) <==> entry_names(input).contains(t)
    &&& forall|i: int|
        0 <= i < out.len() ==> exists|k: int|
            0 <= k < input.len() && input[k] == #[trigger] out[i] && forall|m: int|
                k < m < input.len() ==> (#[trigger] input[m]).0@ != out[i].0@
}

/// Inserts an entry into entries kept in name order, replacing the entry of
/// the same name if there is one (as a map keyed by name does).
fn insert_by_name<V>(v: &mut Vec<(String, V)>, name: String, value: V)
    requires
        strictly_sorted(entry_names(old(v)@)),
    ensures
        strictly_sorted(entry_names(final(v)@)),
        forall|t: Seq<char>|
            entry_names(final(v)@).contains(t) <==> (entry_names(old(v)@).contains(t) || t
                == name@),
        final(v)@.contains((name, value)),
        forall|i: int|
            0 <= i < final(v)@.len() ==> ((#[trigger] final(v)@[i]).0@ == name@ ==> final(v)@[i]
                == (name, value)) && (final(v)@[i].0@ != name@ ==> old(v)@.contains(final(v)@[i])),
        forall|j: int|
            0 <= j < old(v)@.len() && (#[trigger] old(v)@[j]).0@ != name@ ==> final(v)@.contains(
                old(v)@[j],
            ),
{
    let ghost old_v = v@;
    let ghost on = entry_names(v@);
    let key = chars_of(name.as_str());
    let n = v.len();
    let mut p: usize = 0;
    while p < n && lex_less(&chars_of(v[p].0.as_str()), &key)
        invariant
            n == v@.len(),
            p <= n,
            old_v == v@,
            on == entry_names(v@),
            key@ == name@,
            forall|k: int| 0 <= k < p ==> lex_lt(#[trigger] on[k], name@),
        decreases n - p,
    {
        assert(on[p as int] == v@[p as int].0@);
        p = p + 1;
    }
    let same = p < n && chars_eq(&chars_of(v[p].0.as_str()), &key);
    if p < n {
        assert(on[p as int] == v@[p as int].0@);
    }
    if same {
        v[p] = (name, value);
        let ghost nv = v@;
        assert(nv == old_v.update(p as int, nv[p as int]));
        assert(entry_names(nv) =~= on);
        assert(nv.contains(nv[p as int]));
        assert forall|i: int| 0 <= i < nv.len() implies ((#[trigger] nv[i]).0@ == nv[p as int].0@
            ==> nv[i] == nv[p as int]) && (nv[i].0@ != nv[p as int].0@ ==> old_v.contains(nv[i])) by {
            if i != p {
                assert(nv[i] == old_v[i]);
                assert(entry_names(nv)[i] == nv[i].0@);
                assert(entry_names(nv)[p as int] == nv[p as int].0@);
                if i < p {
                    assert(lex_lt(on[i], on[p as int]));
                } else {
                    assert(lex_lt(on[p as int], on[i]));
                }
                lemma_lex_irreflexive(nv[i].0@);
            }
        }
        assert forall|j: int| 0 <= j < old_v.len() && (#[trigger] old_v[j]).0@ != nv[p as int].0@
            implies nv.contains(old_v[j]) by {
            assert(j != p);
            assert(nv[j] == old_v[j]);
        }
        assert forall|t: Seq<char>| entry_names(nv).contains(t) <==> (on.contains(t) || t
            == nv[p as int].0@) by {
            if t == nv[p as int].0@ {
                assert(on[p as int] == t);
            }
        }
        return ;
    }
    if p < n {
        proof {
            lemma_lex_total(on[p as int], name@);
        }
    }
    proof {
        assert forall|k: int| p <= k < n implies lex_lt(name@, #[trigger] on[k]) by {
            if k > p {
                lemma_lex_transitive(name@, on[p as int], on[k]);
            }
        }
    }
    let ghost x = (name, value);
    v.insert(p, (name, value));
    let ghost nv = v@;
    assert(nv =~= old_v.insert(p as int, x));
    let ghost nn = entry_names(nv);
    assert(nn =~= on.insert(p as int, x.0@));
    assert forall|i: int, j: int| 0 <= i < j < nn.len() implies lex_lt(
        #[trigger] nn[i],
        #[trigger] nn[j],
    ) by {
        if j < p {
        } else if j == p {
        } else if i < p {
            lemma_lex_transitive(nn[i], x.0@, nn[j]);
        } else if i == p {
        } else {
            assert(nn[i] == on[i - 1] && nn[j] == on[j - 1]);
        }
    }
    assert(nv[p as int] == x);
    assert forall|i: int| 0 <= i < nv.len() implies ((#[trigger] nv[i]).0@ == x.0@ ==> nv[i] == x)
        && (nv[i].0@ != x.0@ ==> old_v.contains(nv[i])) by {
        if i < p {
            assert(nv[i] == old_v[i]);
            assert(lex_lt(on[i], x.0@));
            assert(on[i] == old_v[i].0@);
            lemma_lex_irreflexive(x.0@);
        } else if i > p {
            assert(nv[i] == old_v[i - 1]);
            assert(lex_lt(x.0@, on[i - 1]));
            assert(on[i - 1] == old_v[i - 1].0@);
            lemma_lex_irreflexive(x.0@);
        }
    }
    assert forall|j: int| 0 <= j < old_v.len() && (#[trigger] old_v[j]).0@ != x.0@ implies nv.contains(
        old_v[j],
    ) by {
        if j < p {
            assert(nv[j] == old_v[j]);
        } else {
            assert(nv[j + 1] == old_v[j]);
        }
    }
    assert forall|t: Seq<char>| nn.contains(t) <==> (on.contains(t) || t == x.0@) by {
        if nn.contains(t) {
            let k = choose|k: int| 0 <= k < nn.len() && nn[k] == t;
            if k < p {
                assert(on[k] == t);
            } else if k > p {
                assert(on[k - 1] == t);
            }
        }
        if on.contains(t) {
            let k = choose|k: int| 0 <= k < on.len() && on[k] == t;
            if k < p {
                assert(nn[k] == t);
            } else {
                assert(nn[k + 1] == t);
            }
        }
        if t == x.0@ {
            assert(nn[p as int] == t);
        }
    }
    assert(nv.contains(x));
}

/// The entries keyed by name: in name order, each name once, holding the last
/// entry given for it (see [`keeps_last`]).
pub fn by_name<V>(input: Vec<(String, V)>) -> (out: Vec<(String, V)>)
    ensures
        keeps_last(input@, out@),
{
    let ghost iv = input@;
    let mut out: Vec<(String, V)> = Vec::new();
    let mut rest = input;
    let mut done: usize = 0;
    let n = rest.len();
    assert(iv.take(0) =~= Seq::<(String, V)>::empty());
    assert(entry_names(out@) =~= Seq::<Seq<char>>::empty());
    // entries are taken from the front in input order
    while rest.len() > 0
        invariant
            done + rest@.len() == n,
            n == iv.len(),
            rest@ == iv.skip(done as int),
            keeps_last(iv.take(done as int), out@),
        decreases rest@.len(),
    {
        let (name, value) = rest.remove(0);
        let ghost e = iv[done as int];
        assert(e == (name, value));
        let ghost prev = out@;
        let ghost pin = iv.take(done as int);
        let ghost nin = iv.take(done + 1);
        assert(nin =~= pin.push(e));
        insert_by_name(&mut out, name, value);
        assert(rest@ =~= iv.skip(done + 1));
        assert forall|t: Seq<char>| entry_names(out@).contains(t) <==> entry_names(nin).contains(t) by {
            if entry_names(pin).contains(t) {
                let k = choose|k: int| 0 <= k < entry_names(pin).len() && entry_names(pin)[k] == t;
                assert(entry_names(nin)[k] == t);
            }
            if entry_names(nin).contains(t) {
                let k = choose|k: int| 0 <= k < entry_names(nin).len() && entry_names(nin)[k] == t;
                if k < pin.len() {
                    assert(entry_names(pin)[k] == t);
                } else {
                    assert(t == e.0@);
                }
            }
            if t == e.0@ {
                assert(entry_names(nin)[pin.len() as int] == t);
            }
        }
        assert forall|i: int| 0 <= i < out@.len() implies exists|k: int|
            0 <= k < nin.len() && nin[k] == #[trigger] out@[i] && forall|m: int|
                k < m < nin.len() ==> (#[trigger] nin[m]).0@ != out@[i].0@ by {
            let o = out@[i];
            if o.0@ == e.0@ {
                assert(o == e);
                assert(nin[pin.len() as int] == o);
            } else {
                assert(prev.contains(o));
                let i2 = choose|i2: int| 0 <= i2 < prev.len() && prev[i2] == o;
                let k = choose|k: int|
                    0 <= k < pin.len() && pin[k] == #[trigger] prev[i2] && forall|m: int|
                        k < m < pin.len() ==> (#[trigger] pin[m]).0@ != prev[i2].0@;
                assert(nin[k] == o);
                assert forall|m: int| k < m < nin.len() implies (#[trigger] nin[m]).0@ != o.0@ by {
                    if m < pin.len() {
                        assert(nin[m] == pin[m]);
                    }
                }
            }
        }
        done = done + 1;
    }
    assert(iv.take(n as int) =~= iv);
    out
}

/// The registry's invariant (see [`registry_wf`]).
impl Registry {
    #[verifier::type_invariant]
    spec fn wf(self) -> bool {
        registry_wf(self.categories@)
    }
}

impl View for Registry {
    type V = Seq<(String, Category)>;

    /// The (name, category) entries, in name order.
    closed spec fn view(&self) -> Seq<(String, Category)> {
        self.categories@
    }
}

/// A category as the registry holds it: the same description, its tools keyed by name.
pub open spec fn holds_category(held: Category, given: Category) -> bool {
    held.description == given.description && keeps_last(given.tools@, held.tools@)
}

/// The position of the last entry named `name`, or -1.
pub open spec fn last_named<V>(entries: Seq<(String, V)>, name: Seq<char>) -> int
    decreases entries.len(),
{
    if entries.len() == 0 {
        -1
    } else if entries.last().0@ == name {
        entries.len() - 1
    } else {
        last_named(entries.drop_last(), name)
    }
}

/// Each entry of `reg` holds, under its name, the category of the last entry
/// of `entries` with that name.
pub open spec fn holds_last_categories(
    entries: Seq<(String, Category)>,
    reg: Seq<(String, Category)>,
) -> bool {
    forall|i: int|
        0 <= i < reg.len() ==> {
            let k = last_named(entries, (#[trigger] reg[i]).0@);
            0 <= k < entries.len() && entries[k].0 == reg[i].0 && holds_category(
                reg[i].1,
                entries[k].1,
            )
        }
}

impl Registry {
    /// An empty registry.
    pub fn new() -> (r: Registry)
        ensures
            r@ == Seq::<(String, Category)>::empty(),
    {
        let r = Registry { categories: Vec::new() };
        assert(strictly_sorted(category_names(r.categories@)));
        r
    }

    /// How many categories the registry has.
    pub fn len(&self) -> (n: usize)
        ensures
            n == self@.len(),
    {
        self.categories.len()
    }

    /// The (name, category) entries, in name order.
    pub fn categories(&self) -> (c: &Vec<(String, Category)>)
        ensures
            c@ == self@,
    {
        &self.categories
    }

    /// Adds a category under `name`, replacing a category of that name (as a
    /// map keyed by name does); its tools are kept by name, the last of a
    /// repeated name winning.
    pub fn insert(&mut self, name: String, category: Category)
        ensures
            forall|t: Seq<char>|
                category_names(final(self)@).contains(t) <==> (category_names(
                    old(self)@,
                ).contains(t) || t == name@),
            forall|i: int|
                0 <= i < final(self)@.len() ==> ((#[trigger] final(self)@[i]).0@ == name@ ==> (
                final(self)@[i].0 == name && holds_category(final(self)@[i].1, category))) && (
                final(self)@[i].0@ != name@ ==> old(self)@.contains(final(self)@[i])),
            forall|j: int|
                0 <= j < old(self)@.len() && (#[trigger] old(self)@[j]).0@ != name@
                    ==> final(self)@.contains(old(self)@[j]),
    {
        proof {
            use_type_invariant(&*self);
        }
        let ghost old_cats = self.categories@;
        let Category { description, tools } = category;
        let ghost given = tools@;
        let sorted = by_name(tools);
        let held = Category { description, tools: sorted };
        let ghost hv = held;
        let mut cats: Vec<(String, Category)> = Vec::new();
        std::mem::swap(&mut cats, &mut self.categories);
        insert_by_name(&mut cats, name, held);
        proof {
            let nv = cats@;
            assert forall|i: int| 0 <= i < nv.len() implies strictly_sorted(
                tool_names(#[trigger] nv[i].1.tools@),
            ) by {
                if nv[i].0@ == name@ {
                    assert(nv[i] == (name, hv));
                } else {
                    assert(old_cats.contains(nv[i]));
                    let j = choose|j: int| 0 <= j < old_cats.len() && old_cats[j] == nv[i];
                    assert(strictly_sorted(tool_names(old_cats[j].1.tools@)));
                }
            }
        }
        self.categories = cats;
    }

    /// A registry of the given (name, category) entries, a repeated name
    /// keeping its last category (as collecting into a map keyed by name does).
    pub fn from_entries(entries: Vec<(String, Category)>) -> (reg: Registry)
        ensures
            forall|t: Seq<char>| category_names(reg@).contains(t) <==> entry_names(entries@).contains(t),
            holds_last_categories(entries@, reg@),
    {
        let ghost ev = entries@;
        let mut r = Registry::new();
        let mut rest = entries;
        let mut done: usize = 0;
        let n = rest.len();
        assert(ev.take(0) =~= Seq::<(String, Category)>::empty());
        while rest.len() > 0
            invariant
                done + rest@.len() == n,
                n == ev.len(),
                rest@ == ev.skip(done as int),
                forall|t: Seq<char>|
                    category_names(r@).contains(t) <==> entry_names(ev.take(done as int)).contains(t),
                holds_last_categories(ev.take(done as int), r@),
            decreases rest@.len(),
        {
            let (name, category) = rest.remove(0);
            let ghost e = ev[done as int];
            assert(e == (name, category));
            assert(rest@ =~= ev.skip(done + 1));
            let ghost prev = r@;
            let ghost pin = ev.take(done as int);
            let ghost nin = ev.take(done + 1);
            assert(nin =~= pin.push(e));
            r.insert(name, category);
            assert forall|t: Seq<char>| category_names(r@).contains(t) <==> entry_names(nin).contains(
                t,
            ) by {
                if entry_names(pin).contains(t) {
                    let k = choose|k: int| 0 <= k < entry_names(pin).len() && entry_names(pin)[k] == t;
                    assert(entry_names(nin)[k] == t);
                }
                if entry_names(nin).contains(t) {
                    let k = choose|k: int| 0 <= k < entry_names(nin).len() && entry_names(nin)[k] == t;
                    if k < pin.len() {
                        assert(entry_names(pin)[k] == t);
                    }
                }
                if t == e.0@ {
                    assert(entry_names(nin)[pin.len() as int] == t);
                }
            }
            let ghost rv = r@;
            assert(nin.drop_last() =~= pin);
            assert forall|i: int| 0 <= i < rv.len() implies {
                let k = last_named(nin, (#[trigger] rv[i]).0@);
                0 <= k < nin.len() && nin[k].0 == rv[i].0 && holds_category(rv[i].1, nin[k].1)
            } by {
                let o = rv[i];
                if o.0@ == e.0@ {
                    assert(last_named(nin, o.0@) == pin.len());
                } else {
                    assert(last_named(nin, o.0@) == last_named(pin, o.0@));
                    assert(prev.contains(o));
                    let i2 = choose|i2: int| 0 <= i2 < prev.len() && prev[i2] == o;
                    let k = last_named(pin, prev[i2].0@);
                    assert(nin[k] == pin[k]);
                }
            }
            assert(holds_last_categories(nin, rv));
            done = done + 1;
        }
        assert(ev.take(n as int) =~= ev);
        r
    }
}

impl Default for Registry {
    fn default() -> (r: Registry)
        ensures
            r@ == Seq::<(String, Category)>::empty(),
    {
        Registry::new()
    }
}

} // verus!

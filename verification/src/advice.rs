//! One-step tool-first advice.
//!
//! Advice is decided in three steps, with the caller doing the outside work in
//! between: [`advise_start`] routes the task and picks at most five registered
//! candidates; the caller detects them; [`advise_after_detection`] recommends an
//! available one or asks for tool-memory; the caller recalls memory;
//! [`advise_after_recall`] gives the final recommendation.
use vstd::prelude::*;
use crate::detect::DetectionResult;
use crate::memory::{MemoryRecord, clone_opt};
use crate::registry::{
    MatchedTool, MatchedToolView, Registry, clone_pairs, opt_str_view, opt_string_view, pairs_view,
    query, query_rows, rows_view, lemma_query_rows_in_category,
};
use crate::routing::{applicable, inferred_category, infer_category, is_applicable};
use crate::text::{concat, owned, push_str, str_eq, strings_view};

verus! {

/// At most this many registered candidates are detected.
pub const MAX_CANDIDATES: usize = 5;

/// The intent under which commodity operations are checked.
pub const AVOID_CUSTOM_CODE_INTENT: &'static str = "avoid_custom_code";

/// How advice is requested.
pub struct AdviceOptions<'a> {
    /// A category chosen by the caller; inferred from the task when absent.
    pub category: Option<&'a str>,
    /// The caller's intent; only the avoid-custom-code intent is in scope.
    pub intent: Option<&'a str>,
    /// Read tool-memory even when a candidate is available.
    pub recall: bool,
    /// Include candidates, detections and memory in the advice.
    pub verbose: bool,
    /// How many memory records to recall (at least one is).
    pub memory_limit: usize,
}

impl<'a> Default for AdviceOptions<'a> {
    fn default() -> (o: AdviceOptions<'a>)
        ensures
            o.category is None,
            o.intent is None,
            !o.recall,
            !o.verbose,
            o.memory_limit == 0,
    {
        AdviceOptions { category: None, intent: None, recall: false, verbose: false, memory_limit: 0 }
    }
}

/// What the caller should do.
pub struct Recommendation {
    pub decision: String,
    pub tool: Option<String>,
    pub category: Option<String>,
    pub reason: String,
    /// Command templates as (key, template).
    pub command_templates: Vec<(String, String)>,
}

/// The mathematical content of a [`Recommendation`].
#[verifier::ext_equal]
pub struct RecommendationView {
    pub decision: Seq<char>,
    pub tool: Option<Seq<char>>,
    pub category: Option<Seq<char>>,
    pub reason: Seq<char>,
    pub command_templates: Seq<(Seq<char>, Seq<char>)>,
}

impl View for Recommendation {
    type V = RecommendationView;

    open spec fn view(&self) -> RecommendationView {
        RecommendationView {
            decision: self.decision@,
            tool: opt_string_view(self.tool),
            category: opt_string_view(self.category),
            reason: self.reason@,
            command_templates: pairs_view(self.command_templates@),
        }
    }
}

/// The advice for a task.
pub struct ToolAdvice {
    pub task: String,
    pub applicable: bool,
    pub category: Option<String>,
    pub candidates: Vec<MatchedTool>,
    pub detected: Vec<DetectionResult>,
    pub memory: Vec<MemoryRecord>,
    pub recommendation: Recommendation,
}

// ---------------------------------------------------------------------------
// Recommendations
// ---------------------------------------------------------------------------
/// Why no tool was looked for, when the task is out of scope.
pub open spec fn reason_out_of_scope() -> Seq<char> {
    "No commodity local operation requiring incidental custom code was identified."@
}

/// Why no tool was looked for, when no category is known.
pub open spec fn reason_no_category() -> Seq<char> {
    "A supported tool category is required before local tool discovery."@
}

/// Why no tool was looked for, when the category has no candidates.
pub open spec fn reason_no_candidates() -> Seq<char> {
    "The requested category has no registered local tool candidates."@
}

/// Why a recalled recipe is recommended.
pub open spec fn reason_recalled() -> Seq<char> {
    "A prior verified recipe exists; recheck tool availability before using it."@
}

/// Why custom code is justified.
pub open spec fn reason_custom_code() -> Seq<char> {
    "No matching installed tool or recalled recipe was found."@
}

/// The recommendation of an out-of-scope task.
pub open spec fn not_applicable_recommendation(reason: Seq<char>) -> RecommendationView {
    RecommendationView {
        decision: "not_applicable"@,
        tool: None,
        category: None,
        reason,
        command_templates: Seq::empty(),
    }
}

/// The advice `a` says the task is out of scope, with `category` and `reason`.
pub open spec fn is_not_applicable(a: ToolAdvice, task: Seq<char>, category: Option<Seq<char>>, reason: Seq<char>) -> bool {
    &&& a.task@ == task
    &&& !a.applicable
    &&& opt_string_view(a.category) == category
    &&& a.candidates@.len() == 0
    &&& a.detected@.len() == 0
    &&& a.memory@.len() == 0
    &&& a.recommendation@ == not_applicable_recommendation(reason)
}

/// Advice that the task is out of scope.
pub fn not_applicable(task: &str, category: Option<String>, reason: &str) -> (a: ToolAdvice)
    ensures
        is_not_applicable(a, task@, opt_string_view(category), reason@),
{
    let a = ToolAdvice {
        task: owned(task),
        applicable: false,
        category,
        candidates: Vec::new(),
        detected: Vec::new(),
        memory: Vec::new(),
        recommendation: Recommendation {
            decision: owned("not_applicable"),
            tool: None,
            category: None,
            reason: owned(reason),
            command_templates: Vec::new(),
        },
    };
    assert(a.recommendation@ =~= not_applicable_recommendation(reason@));
    a
}

/// The detection status under which a tool may be used.
pub open spec fn usable_status(s: Seq<char>) -> bool {
    s == "available"@ || s == "present_unverified"@
}

/// The last detection of `tool` (later detections of a tool replace earlier ones).
pub open spec fn last_detection(detected: Seq<DetectionResult>, tool: Seq<char>) -> Option<DetectionResult>
    decreases detected.len(),
{
    if detected.len() == 0 {
        None
    } else if detected.last().tool@ == tool {
        Some(detected.last())
    } else {
        last_detection(detected.drop_last(), tool)
    }
}

/// The candidate was detected as usable.
pub open spec fn detected_usable(c: MatchedToolView, detected: Seq<DetectionResult>) -> bool {
    match last_detection(detected, c.tool) {
        Some(d) => usable_status(d.status@),
        None => false,
    }
}

/// The first usable candidate from position `i` on.
pub open spec fn first_usable(cands: Seq<MatchedToolView>, detected: Seq<DetectionResult>, i: nat) -> Option<
    int,
>
    decreases cands.len() - i,
{
    if i >= cands.len() {
        None
    } else if detected_usable(cands[i as int], detected) {
        Some(i as int)
    } else {
        first_usable(cands, detected, i + 1)
    }
}

/// Recommends using a detected tool.
pub open spec fn use_existing(c: MatchedToolView, status: Seq<char>) -> RecommendationView {
    RecommendationView {
        decision: "use_existing_tool"@,
        tool: Some(c.tool),
        category: Some(c.category),
        reason: c.tool + " is "@ + status + " and can be used instead of incidental custom code."@,
        command_templates: c.commands,
    }
}

/// The recommendation of the first candidate, in order, detected as usable.
pub open spec fn available_recommendation(cands: Seq<MatchedToolView>, detected: Seq<DetectionResult>) -> Option<
    RecommendationView,
> {
    match first_usable(cands, detected, 0) {
        Some(i) => Some(
            use_existing(cands[i], last_detection(detected, cands[i].tool)->0.status@),
        ),
        None => None,
    }
}

/// The view of an optional recommendation.
pub open spec fn opt_rec_view(r: Option<Recommendation>) -> Option<RecommendationView> {
    match r {
        Some(x) => Some(x@),
        None => None,
    }
}

/// The status of the last detection of `tool`, if any.
fn last_status<'a>(detected: &'a Vec<DetectionResult>, tool: &str) -> (r: Option<&'a String>)
    ensures
        match last_detection(detected@, tool@) {
            Some(d) => r is Some && r->0@ == d.status@,
            None => r is None,
        },
{
    let mut i = detected.len();
    assert(detected@.take(i as int) =~= detected@);
    while i > 0
        invariant
            i <= detected@.len(),
            last_detection(detected@, tool@) == last_detection(detected@.take(i as int), tool@),
        decreases i,
    {
        assert(detected@.take(i as int).drop_last() =~= detected@.take(i - 1));
        assert(detected@.take(i as int).last() == detected@[i - 1]);
        if str_eq(detected[i - 1].tool.as_str(), tool) {
            return Some(&detected[i - 1].status);
        }
        i = i - 1;
    }
    None
}

/// Recommends the first candidate, in order, whose last detection is
/// `available` or `present_unverified`.
pub fn recommend_available(candidates: &Vec<MatchedTool>, detected: &Vec<DetectionResult>) -> (r: Option<
    Recommendation,
>)
    ensures
        opt_rec_view(r) == available_recommendation(rows_view(candidates@), detected@),
{
    let ghost cv = rows_view(candidates@);
    let n = candidates.len();
    let mut i: usize = 0;
    while i < n
        invariant
            n == candidates@.len(),
            cv == rows_view(candidates@),
            i <= n,
            first_usable(cv, detected@, 0) == first_usable(cv, detected@, i as nat),
        decreases n - i,
    {
        let c = &candidates[i];
        assert(cv[i as int] == c@);
        match last_status(detected, c.tool.as_str()) {
            Some(status) => {
                if str_eq(status.as_str(), "available") || str_eq(
                    status.as_str(),
                    "present_unverified",
                ) {
                    let mut reason = concat(c.tool.as_str(), " is ");
                    push_str(&mut reason, status.as_str());
                    push_str(&mut reason, " and can be used instead of incidental custom code.");
                    let rec = Recommendation {
                        decision: owned("use_existing_tool"),
                        tool: Some(c.tool.clone()),
                        category: Some(c.category.clone()),
                        reason,
                        command_templates: clone_pairs(&c.commands),
                    };
                    assert(rec@ =~= use_existing(c@, status@));
                    return Some(rec);
                }
            },
            None => {},
        }
        i = i + 1;
    }
    None
}

/// A remembered recipe that can be reused: verified, with a command.
pub open spec fn reusable_recipe(r: MemoryRecord) -> bool {
    opt_string_view(r.status) == Some("verified_success"@) && (r.command_template is Some
        || r.command is Some)
}

/// The first reusable recipe from position `i` on.
pub open spec fn first_recipe(mem: Seq<MemoryRecord>, i: nat) -> Option<int>
    decreases mem.len() - i,
{
    if i >= mem.len() {
        None
    } else if reusable_recipe(mem[i as int]) {
        Some(i as int)
    } else {
        first_recipe(mem, i + 1)
    }
}

/// The command templates recalled from a record: its template, or else its
/// command, under the key "recalled".
pub open spec fn recalled_templates(r: MemoryRecord) -> Seq<(Seq<char>, Seq<char>)> {
    match r.command_template {
        Some(t) => seq![("recalled"@, t@)],
        None => match r.command {
            Some(c) => seq![("recalled"@, c@)],
            None => Seq::empty(),
        },
    }
}

/// The recommendation after tool-memory was read: a reusable recipe if one was
/// recalled, else the first candidate (not installed), else custom code.
pub open spec fn recommendation_after_recall(
    cands: Seq<MatchedToolView>,
    mem: Seq<MemoryRecord>,
    category: Seq<char>,
) -> RecommendationView {
    match first_recipe(mem, 0) {
        Some(i) => RecommendationView {
            decision: "verify_recalled_recipe"@,
            tool: opt_string_view(mem[i].tool),
            category: opt_string_view(mem[i].category),
            reason: reason_recalled(),
            command_templates: recalled_templates(mem[i]),
        },
        None => if cands.len() > 0 {
            RecommendationView {
                decision: "known_tool_not_installed"@,
                tool: Some(cands[0].tool),
                category: Some(cands[0].category),
                reason: cands[0].tool
                    + " fits the operation but was not detected; ask before installing it or use justified custom code."@,
                command_templates: cands[0].commands,
            }
        } else {
            RecommendationView {
                decision: "custom_code_justified"@,
                tool: None,
                category: Some(category),
                reason: reason_custom_code(),
                command_templates: Seq::empty(),
            }
        },
    }
}

/// The command templates recalled from a record.
pub fn memory_command_templates(record: &MemoryRecord) -> (t: Vec<(String, String)>)
    ensures
        pairs_view(t@) == recalled_templates(*record),
{
    let mut t: Vec<(String, String)> = Vec::new();
    let command = match &record.command_template {
        Some(c) => Some(c),
        None => record.command.as_ref(),
    };
    if let Some(c) = command {
        t.push((owned("recalled"), c.clone()));
    }
    assert(pairs_view(t@) =~= recalled_templates(*record));
    t
}

/// The recommendation once tool-memory was read (see [`recommendation_after_recall`]).
pub fn recommend_after_recall(candidates: &Vec<MatchedTool>, memory: &Vec<MemoryRecord>, category: &str) -> (r:
    Recommendation)
    ensures
        r@ == recommendation_after_recall(rows_view(candidates@), memory@, category@),
{
    let n = memory.len();
    let mut i: usize = 0;
    while i < n
        invariant
            n == memory@.len(),
            i <= n,
            first_recipe(memory@, 0) == first_recipe(memory@, i as nat),
        decreases n - i,
    {
        let rec = &memory[i];
        let verified = match &rec.status {
            Some(s) => str_eq(s.as_str(), "verified_success"),
            None => false,
        };
        if verified && (rec.command_template.is_some() || rec.command.is_some()) {
            let r = Recommendation {
                decision: owned("verify_recalled_recipe"),
                tool: clone_opt(&rec.tool),
                category: clone_opt(&rec.category),
                reason: owned(
                    "A prior verified recipe exists; recheck tool availability before using it.",
                ),
                command_templates: memory_command_templates(rec),
            };
            assert(r@ =~= recommendation_after_recall(rows_view(candidates@), memory@, category@));
            return r;
        }
        i = i + 1;
    }
    if candidates.len() > 0 {
        let c = &candidates[0];
        let r = Recommendation {
            decision: owned("known_tool_not_installed"),
            tool: Some(c.tool.clone()),
            category: Some(c.category.clone()),
            reason: concat(
                c.tool.as_str(),
                " fits the operation but was not detected; ask before installing it or use justified custom code.",
            ),
            command_templates: clone_pairs(&c.commands),
        };
        assert(rows_view(candidates@)[0] == c@);
        assert(r@ =~= recommendation_after_recall(rows_view(candidates@), memory@, category@));
        return r;
    }
    let r = Recommendation {
        decision: owned("custom_code_justified"),
        tool: None,
        category: Some(owned(category)),
        reason: owned("No matching installed tool or recalled recipe was found."),
        command_templates: Vec::new(),
    };
    assert(r@ =~= recommendation_after_recall(rows_view(candidates@), memory@, category@));
    r
}

/// The values themselves in verbose mode, nothing otherwise.
pub fn detail<T>(verbose: bool, values: Vec<T>) -> (r: Vec<T>)
    ensures
        r@ == if verbose {
            values@
        } else {
            Seq::<T>::empty()
        },
{
    if verbose {
        values
    } else {
        Vec::new()
    }
}

// ---------------------------------------------------------------------------
// The three steps
// ---------------------------------------------------------------------------
/// A task routed to a category, waiting for its candidates to be detected.
pub struct PendingDetection {
    pub task: String,
    pub category: String,
    /// The candidates to detect, in query order.
    pub candidates: Vec<MatchedTool>,
    pub recall: bool,
    pub verbose: bool,
    pub memory_limit: usize,
}

impl PendingDetection {
    /// The names of the tools to detect: the candidates', in order.
    pub fn detection_targets(&self) -> (names: Vec<String>)
        ensures
            strings_view(names@) == rows_view(self.candidates@).map_values(
                |c: MatchedToolView| c.tool,
            ),
    {
        let mut names: Vec<String> = Vec::new();
        let n = self.candidates.len();
        for i in 0..n
            invariant
                n == self.candidates@.len(),
                strings_view(names@) == rows_view(self.candidates@).take(i as int).map_values(
                    |c: MatchedToolView| c.tool,
                ),
        {
            let ghost before = strings_view(names@);
            names.push(self.candidates[i].tool.clone());
            assert(strings_view(names@) =~= before.push(self.candidates@[i as int].tool@));
            assert(rows_view(self.candidates@).take(i + 1).map_values(|c: MatchedToolView| c.tool)
                =~= rows_view(self.candidates@).take(i as int).map_values(
                |c: MatchedToolView| c.tool,
            ).push(self.candidates@[i as int].tool@));
        }
        assert(rows_view(self.candidates@).take(n as int) =~= rows_view(self.candidates@));
        names
    }
}

/// The outcome of the first step.
pub enum AdviceStart {
    /// The advice is final: the task is out of scope or has no candidates.
    Decided(ToolAdvice),
    /// The candidates must be detected first.
    Detect(PendingDetection),
}

/// The category the advice uses: the explicit one, else the inferred one.
pub open spec fn resolved_category(task: Seq<char>, explicit: Option<Seq<char>>) -> Option<Seq<char>> {
    match explicit {
        Some(c) => Some(c),
        None => inferred_category(task),
    }
}

/// The candidates for a category: the query rows of that category matched
/// against the task, at most [`MAX_CANDIDATES`] of them.
pub open spec fn candidate_rows(reg: Seq<(String, crate::registry::Category)>, category: Seq<char>, task: Seq<char>) -> Seq<
    MatchedToolView,
> {
    let rows = query_rows(reg, Some(category), Some(task));
    if rows.len() <= 5 {
        rows
    } else {
        rows.take(5)
    }
}

/// The first step: route the task and pick the candidates to detect.
///
/// Out of scope (see [`applicable`]) or without a category, the task is answered
/// `not_applicable` without looking at the registry's tools further; a category
/// without candidates is answered `not_applicable` too. Otherwise at most five
/// candidates of the category, in query order, are to be detected.
pub fn advise_start(registry: &Registry, task: &str, options: &AdviceOptions) -> (s: AdviceStart)
    ensures
        ({
            let resolved = resolved_category(task@, opt_str_view(options.category));
            let intent = opt_str_view(options.intent);
            if !applicable(task@, options.category is Some, intent, resolved is Some) {
                s matches AdviceStart::Decided(a) && is_not_applicable(
                    a,
                    task@,
                    resolved,
                    reason_out_of_scope(),
                )
            } else if resolved is None {
                s matches AdviceStart::Decided(a) && is_not_applicable(
                    a,
                    task@,
                    None,
                    reason_no_category(),
                )
            } else if candidate_rows(registry@, resolved->0, task@).len() == 0 {
                s matches AdviceStart::Decided(a) && is_not_applicable(
                    a,
                    task@,
                    resolved,
                    reason_no_candidates(),
                )
            } else {
                s matches AdviceStart::Detect(p) && p.task@ == task@ && p.category@ == resolved->0
                    && rows_view(p.candidates@) == candidate_rows(registry@, resolved->0, task@)
                    && p.recall == options.recall && p.verbose == options.verbose
                    && p.memory_limit == options.memory_limit
            }
        }),
        options.category is Some ==> match s {
            AdviceStart::Detect(p) => p.category@ == options.category->0@,
            AdviceStart::Decided(a) => opt_string_view(a.category) == Some(options.category->0@),
        },
{
    let resolved = match options.category {
        Some(c) => Some(owned(c)),
        None => infer_category(task),
    };
    let ghost rv = opt_string_view(resolved);
    assert(rv == resolved_category(task@, opt_str_view(options.category)));
    let has_resolved = resolved.is_some();
    let ok = match &resolved {
        Some(r) => is_applicable(task, options.category, options.intent, Some(r.as_str())),
        None => is_applicable(task, options.category, options.intent, None),
    };
    if !ok {
        return AdviceStart::Decided(
            not_applicable(
                task,
                resolved,
                "No commodity local operation requiring incidental custom code was identified.",
            ),
        );
    }
    let category = match resolved {
        Some(c) => c,
        None => {
            return AdviceStart::Decided(
                not_applicable(
                    task,
                    None,
                    "A supported tool category is required before local tool discovery.",
                ),
            );
        },
    };
    let mut candidates = query(registry, Some(category.as_str()), Some(task));
    candidates.truncate(MAX_CANDIDATES);
    assert(rows_view(candidates@) =~= candidate_rows(registry@, category@, task@));
    if candidates.len() == 0 {
        return AdviceStart::Decided(
            not_applicable(
                task,
                Some(category),
                "The requested category has no registered local tool candidates.",
            ),
        );
    }
    AdviceStart::Detect(
        PendingDetection {
            task: owned(task),
            category,
            candidates,
            recall: options.recall,
            verbose: options.verbose,
            memory_limit: options.memory_limit,
        },
    )
}

/// A task whose candidates were detected, waiting for tool-memory to be recalled.
pub struct PendingRecall {
    pub task: String,
    pub category: String,
    pub candidates: Vec<MatchedTool>,
    pub detected: Vec<DetectionResult>,
    /// The recommendation of an available candidate, if there is one.
    pub available: Option<Recommendation>,
    pub verbose: bool,
    /// How many records to recall.
    pub limit: usize,
}

/// The outcome of the second step.
pub enum AfterDetection {
    /// The advice is final: an available candidate is recommended.
    Decided(ToolAdvice),
    /// Tool-memory must be recalled (`limit` records of the task in the category).
    Recall(PendingRecall),
}

/// Advice `a` lists what verbose mode shows.
pub open spec fn shows_details(
    a: ToolAdvice,
    verbose: bool,
    candidates: Seq<MatchedTool>,
    detected: Seq<DetectionResult>,
    memory: Seq<MemoryRecord>,
) -> bool {
    &&& a.candidates@ == if verbose {
        candidates
    } else {
        Seq::empty()
    }
    &&& a.detected@ == if verbose {
        detected
    } else {
        Seq::empty()
    }
    &&& a.memory@ == if verbose {
        memory
    } else {
        Seq::empty()
    }
}

/// The second step: with the detections in, recommend the first available
/// candidate. Tool-memory is read only when no candidate is available or the
/// caller asked for recall.
pub fn advise_after_detection(pending: PendingDetection, detected: Vec<DetectionResult>) -> (r: AfterDetection)
    ensures
        ({
            let avail = available_recommendation(rows_view(pending.candidates@), detected@);
            if avail is Some && !pending.recall {
                r matches AfterDetection::Decided(a) && a.task@ == pending.task@ && a.applicable
                    && opt_string_view(a.category) == Some(pending.category@)
                    && a.recommendation@ == avail->0 && shows_details(
                    a,
                    pending.verbose,
                    pending.candidates@,
                    detected@,
                    Seq::empty(),
                )
            } else {
                r matches AfterDetection::Recall(p) && p.task@ == pending.task@ && p.category@
                    == pending.category@ && rows_view(p.candidates@) == rows_view(
                    pending.candidates@,
                ) && p.detected@ == detected@ && opt_rec_view(p.available) == avail
                    && p.verbose == pending.verbose && p.limit == if pending.memory_limit == 0 {
                    1
                } else {
                    pending.memory_limit
                }
            }
        }),
{
    let available = recommend_available(&pending.candidates, &detected);
    if !pending.recall {
        if let Some(rec) = available {
            return AfterDetection::Decided(
                ToolAdvice {
                    task: pending.task,
                    applicable: true,
                    category: Some(pending.category),
                    candidates: detail(pending.verbose, pending.candidates),
                    detected: detail(pending.verbose, detected),
                    memory: Vec::new(),
                    recommendation: rec,
                },
            );
        }
    }
    let limit = if pending.memory_limit == 0 {
        1
    } else {
        pending.memory_limit
    };
    AfterDetection::Recall(
        PendingRecall {
            task: pending.task,
            category: pending.category,
            candidates: pending.candidates,
            detected,
            available,
            verbose: pending.verbose,
            limit,
        },
    )
}

/// The third step: with the recalled records in, the available candidate's
/// recommendation stands if there is one; otherwise see
/// [`recommendation_after_recall`].
pub fn advise_after_recall(pending: PendingRecall, memory: Vec<MemoryRecord>) -> (a: ToolAdvice)
    ensures
        a.task@ == pending.task@,
        a.applicable,
        opt_string_view(a.category) == Some(pending.category@),
        a.recommendation@ == match pending.available {
            Some(x) => x@,
            None => recommendation_after_recall(
                rows_view(pending.candidates@),
                memory@,
                pending.category@,
            ),
        },
        shows_details(a, pending.verbose, pending.candidates@, pending.detected@, memory@),
{
    let recommendation = match pending.available {
        Some(x) => x,
        None => recommend_after_recall(&pending.candidates, &memory, pending.category.as_str()),
    };
    ToolAdvice {
        task: pending.task,
        applicable: true,
        category: Some(pending.category),
        candidates: detail(pending.verbose, pending.candidates),
        detected: detail(pending.verbose, pending.detected),
        memory: detail(pending.verbose, memory),
        recommendation,
    }
}

/// Advice never looks at more than five candidates, and only at candidates of
/// the category the task was routed to.
pub proof fn lemma_candidates_bounded(
    reg: Seq<(String, crate::registry::Category)>,
    category: Seq<char>,
    task: Seq<char>,
)
    ensures
        candidate_rows(reg, category, task).len() <= MAX_CANDIDATES,
        forall|i: int|
            0 <= i < candidate_rows(reg, category, task).len() ==> (#[trigger] candidate_rows(
                reg,
                category,
                task,
            )[i]).category == category,
{
    lemma_query_rows_in_category(reg, category, Some(task));
    let rows = query_rows(reg, Some(category), Some(task));
    let c = candidate_rows(reg, category, task);
    assert forall|i: int| 0 <= i < c.len() implies (#[trigger] c[i]).category == category by {
        assert(c[i] == rows[i]);
    }
}

/// A category the caller gives is the one advice is routed to, whatever the
/// task's keywords point to; the keywords choose the category only when the
/// caller gives none.
pub proof fn lemma_explicit_category_routes(task: Seq<char>, explicit: Option<Seq<char>>)
    ensures
        explicit is Some ==> resolved_category(task, explicit) == explicit,
        explicit is None ==> resolved_category(task, explicit) == inferred_category(task),
        forall|c: Seq<char>| #[trigger] resolved_category(task, Some(c)) == Some(c),
{
}

} // verus!

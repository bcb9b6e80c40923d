//! Tool detection: which registered tools to look for, where to look, and how a
//! finding becomes an availability record.
//!
//! Looking (running `which`, checking files, running version commands) is done
//! by the caller; this module plans it and interprets what was found.
use vstd::prelude::*;
use crate::registry::{Registry, ToolSpec, category_selected, clone_strings, opt_str_view, opt_string_view};
use crate::resolver::{expand_home, expand_home_with, home_dir_text, join_path, joined};
use crate::text::{chars_of, owned, str_eq, strings_view, strs_view};
use vstd::string::StringSliceAdditionalSpecFns;

verus! {

/// Result of detecting a single tool.
pub struct DetectionResult {
    pub namespace: String,
    pub memory_type: String,
    pub record_type: String,
    pub category: String,
    pub tool: String,
    pub status: String,
    pub path: String,
    pub version: String,
    pub detection_method: String,
    pub checked_at: String,
    pub path_fingerprint: String,
    /// Confidence in thousandths.
    pub confidence_permille: u32,
    pub tags: Vec<String>,
}

// ---------------------------------------------------------------------------
// Which tools to detect
// ---------------------------------------------------------------------------
/// `tools` names the tool, by its registry name or one of its detect names; an
/// empty `tools` names every tool.
pub open spec fn tool_wanted(name: Seq<char>, spec: ToolSpec, tools: Seq<Seq<char>>) -> bool {
    tools.len() == 0 || tools.contains(name) || exists|d: int|
        0 <= d < spec.detect_names@.len() && tools.contains(#[trigger] spec.detect_names@[d]@)
}

/// The wanted tools of one category as (category, tool, spec), in registry order.
pub open spec fn wanted_in(
    cat: Seq<char>,
    entries: Seq<(String, ToolSpec)>,
    tools: Seq<Seq<char>>,
) -> Seq<(Seq<char>, Seq<char>, ToolSpec)>
    decreases entries.len(),
{
    if entries.len() == 0 {
        Seq::empty()
    } else {
        let e = entries.last();
        wanted_in(cat, entries.drop_last(), tools) + if tool_wanted(e.0@, e.1, tools) {
            seq![(cat, e.0@, e.1)]
        } else {
            Seq::empty()
        }
    }
}

/// The detection candidates of a registry: the wanted tools of the selected
/// categories, in registry order.
pub open spec fn candidates_of(
    reg: Seq<(String, crate::registry::Category)>,
    filter: Option<Seq<char>>,
    tools: Seq<Seq<char>>,
) -> Seq<(Seq<char>, Seq<char>, ToolSpec)>
    decreases reg.len(),
{
    if reg.len() == 0 {
        Seq::empty()
    } else {
        let c = reg.last();
        candidates_of(reg.drop_last(), filter, tools) + if category_selected(c.0@, filter) {
            wanted_in(c.0@, c.1.tools@, tools)
        } else {
            Seq::empty()
        }
    }
}

/// The views of collected candidates.
pub open spec fn candidates_view(v: Seq<(String, String, &ToolSpec)>) -> Seq<
    (Seq<char>, Seq<char>, ToolSpec),
> {
    v.map_values(|c: (String, String, &ToolSpec)| (c.0@, c.1@, *c.2))
}

/// Every entry collected from one category's tools is a wanted tool of it.
proof fn lemma_wanted_in_selected(
    cat: Seq<char>,
    entries: Seq<(String, ToolSpec)>,
    tools: Seq<Seq<char>>,
)
    ensures
        forall|k: int|
            0 <= k < wanted_in(cat, entries, tools).len() ==> {
                let e = #[trigger] wanted_in(cat, entries, tools)[k];
                e.0 == cat && tool_wanted(e.1, e.2, tools)
            },
    decreases entries.len(),
{
    if entries.len() > 0 {
        let d = entries.drop_last();
        lemma_wanted_in_selected(cat, d, tools);
        let prev = wanted_in(cat, d, tools);
        let all = wanted_in(cat, entries, tools);
        assert forall|k: int| 0 <= k < all.len() implies {
            let e = #[trigger] all[k];
            e.0 == cat && tool_wanted(e.1, e.2, tools)
        } by {
            if k < prev.len() {
                assert(all[k] == prev[k]);
            }
        }
    }
}

/// Detection looks only at what was asked for: every collected candidate is in
/// the selected category and is one of the named tools (or any tool, when none
/// are named).
pub proof fn lemma_candidates_selected(
    reg: Seq<(String, crate::registry::Category)>,
    filter: Option<Seq<char>>,
    tools: Seq<Seq<char>>,
)
    ensures
        forall|k: int|
            0 <= k < candidates_of(reg, filter, tools).len() ==> {
                let e = #[trigger] candidates_of(reg, filter, tools)[k];
                category_selected(e.0, filter) && tool_wanted(e.1, e.2, tools)
            },
    decreases reg.len(),
{
    if reg.len() > 0 {
        let d = reg.drop_last();
        lemma_candidates_selected(d, filter, tools);
        let c = reg.last();
        lemma_wanted_in_selected(c.0@, c.1.tools@, tools);
        let prev = candidates_of(d, filter, tools);
        let all = candidates_of(reg, filter, tools);
        assert forall|k: int| 0 <= k < all.len() implies {
            let e = #[trigger] all[k];
            category_selected(e.0, filter) && tool_wanted(e.1, e.2, tools)
        } by {
            if k < prev.len() {
                assert(all[k] == prev[k]);
            } else {
                assert(all[k] == wanted_in(c.0@, c.1.tools@, tools)[k - prev.len()]);
            }
        }
    }
}

/// Whether `s` is among `v`.
pub fn contains_string(v: &Vec<String>, s: &str) -> (b: bool)
    ensures
        b == strings_view(v@).contains(s@),
{
    let n = v.len();
    for i in 0..n
        invariant
            n == v@.len(),
            forall|k: int| 0 <= k < i ==> v@[k]@ != s@,
    {
        if str_eq(v[i].as_str(), s) {
            assert(strings_view(v@)[i as int] == s@);
            return true;
        }
    }
    assert forall|k: int| 0 <= k < strings_view(v@).len() implies strings_view(v@)[k] != s@ by {
        assert(strings_view(v@)[k] == v@[k]@);
    }
    false
}

/// Whether the tool is among those asked for.
fn wanted(name: &String, spec: &ToolSpec, tools: &Vec<String>) -> (b: bool)
    ensures
        b == tool_wanted(name@, *spec, strings_view(tools@)),
{
    if tools.len() == 0 {
        return true;
    }
    if contains_string(tools, name.as_str()) {
        return true;
    }
    let n = spec.detect_names.len();
    for d in 0..n
        invariant
            n == spec.detect_names@.len(),
            forall|k: int|
                0 <= k < d ==> !strings_view(tools@).contains(#[trigger] spec.detect_names@[k]@),
    {
        if contains_string(tools, spec.detect_names[d].as_str()) {
            return true;
        }
    }
    false
}

/// Collects the (category, tool, spec) triples to detect: tools of the given
/// category (every category when `None`), restricted to the named tools unless
/// `tools` is empty.
pub fn collect_candidates<'a>(
    registry: &'a Registry,
    category: Option<&str>,
    tools: &Vec<String>,
) -> (rows: Vec<(String, String, &'a ToolSpec)>)
    ensures
        candidates_view(rows@) == candidates_of(
            registry@,
            opt_str_view(category),
            strings_view(tools@),
        ),
{
    let mut rows: Vec<(String, String, &'a ToolSpec)> = Vec::new();
    let ghost filter = opt_str_view(category);
    let ghost ts = strings_view(tools@);
    let cats = registry.categories();
    let n = cats.len();
    assert(registry@.take(0) =~= Seq::<(String, crate::registry::Category)>::empty());
    for i in 0..n
        invariant
            n == registry@.len(),
            cats@ == registry@,
            filter == opt_str_view(category),
            ts == strings_view(tools@),
            candidates_view(rows@) == candidates_of(registry@.take(i as int), filter, ts),
    {
        let cat = &cats[i].0;
        let section = &cats[i].1;
        assert(registry@.take(i + 1).drop_last() =~= registry@.take(i as int));
        assert(registry@.take(i + 1).last() == registry@[i as int]);
        let selected = match category {
            Some(f) => str_eq(cat.as_str(), f),
            None => true,
        };
        let ghost before = candidates_view(rows@);
        if selected {
            let m = section.tools.len();
            assert(section.tools@.take(0) =~= Seq::<(String, ToolSpec)>::empty());
            for j in 0..m
                invariant
                    m == section.tools@.len(),
                    ts == strings_view(tools@),
                    candidates_view(rows@) == before + wanted_in(
                        cat@,
                        section.tools@.take(j as int),
                        ts,
                    ),
            {
                let name = &section.tools[j].0;
                let spec = &section.tools[j].1;
                assert(section.tools@.take(j + 1).drop_last() =~= section.tools@.take(j as int));
                assert(section.tools@.take(j + 1).last() == section.tools@[j as int]);
                let ghost mid = candidates_view(rows@);
                if wanted(name, spec, tools) {
                    rows.push((cat.clone(), name.clone(), spec));
                    assert(candidates_view(rows@) =~= mid.push((cat@, name@, *spec)));
                } else {
                }
                assert(candidates_view(rows@) =~= before + wanted_in(
                    cat@,
                    section.tools@.take(j + 1),
                    ts,
                ));
            }
            assert(section.tools@.take(m as int) =~= section.tools@);
        } else {
            assert(before + Seq::<(Seq<char>, Seq<char>, ToolSpec)>::empty() =~= before);
        }
    }
    assert(registry@.take(n as int) =~= registry@);
    rows
}

// ---------------------------------------------------------------------------
// Where to look
// ---------------------------------------------------------------------------
/// The executable names to look for: the detect names, or the tool name itself
/// when there are none.
pub open spec fn detection_names_of(spec: ToolSpec, tool: Seq<char>) -> Seq<Seq<char>> {
    if spec.detect_names@.len() == 0 {
        seq![tool]
    } else {
        strings_view(spec.detect_names@)
    }
}

/// The executable names to look for (see [`detection_names_of`]).
pub fn detection_names(spec: &ToolSpec, tool: &str) -> (names: Vec<String>)
    ensures
        strings_view(names@) == detection_names_of(*spec, tool@),
{
    if spec.detect_names.len() == 0 {
        let mut v: Vec<String> = Vec::new();
        v.push(owned(tool));
        assert(strings_view(v@) =~= seq![tool@]);
        v
    } else {
        clone_strings(&spec.detect_names)
    }
}

/// Well-known bin directories, checked last.
pub open spec fn known_bin_dirs() -> Seq<Seq<char>> {
    seq![
        "~/.local/bin"@,
        "~/.hermes/bin"@,
        "~/.cargo/bin"@,
        "/opt/homebrew/bin"@,
        "/usr/local/bin"@,
        "/usr/bin"@,
        "/bin"@,
    ]
}

fn known_bin_dir_list() -> (v: Vec<&'static str>)
    ensures
        strs_view(v@) == known_bin_dirs(),
{
    let v = vec![
        "~/.local/bin",
        "~/.hermes/bin",
        "~/.cargo/bin",
        "/opt/homebrew/bin",
        "/usr/local/bin",
        "/usr/bin",
        "/bin",
    ];
    assert(strs_view(v@) =~= known_bin_dirs());
    v
}

/// How an executable is looked for.
#[derive(PartialEq, Eq, Structural, Clone, Copy, Debug)]
pub enum ProbeKind {
    /// Searched on `PATH` by name.
    Which,
    /// A declared path (known path or app bundle path) that must exist and be executable.
    KnownPath,
    /// A name inside a well-known bin directory that must exist and be executable.
    KnownBinDir,
}

/// One place to look for an executable.
pub struct Probe {
    pub kind: ProbeKind,
    pub target: String,
}

/// The method name a finding by this kind of probe is reported with.
pub open spec fn method_name(kind: ProbeKind) -> Seq<char> {
    match kind {
        ProbeKind::Which => "which"@,
        ProbeKind::KnownPath => "known_path"@,
        ProbeKind::KnownBinDir => "known_bin_dir"@,
    }
}

impl ProbeKind {
    /// The method name a finding by this kind of probe is reported with.
    pub fn method(&self) -> (s: String)
        ensures
            s@ == method_name(*self),
    {
        match self {
            ProbeKind::Which => owned("which"),
            ProbeKind::KnownPath => owned("known_path"),
            ProbeKind::KnownBinDir => owned("known_bin_dir"),
        }
    }
}

/// The method reported when nothing was found.
pub fn not_found_method() -> (s: String)
    ensures
        s@ == "not_found"@,
{
    owned("not_found")
}

/// The views of probes.
pub open spec fn probes_view(v: Seq<Probe>) -> Seq<(ProbeKind, Seq<char>)> {
    v.map_values(|p: Probe| (p.kind, p.target@))
}

/// Probes of one kind for each of `targets`.
pub open spec fn probes_for(kind: ProbeKind, targets: Seq<Seq<char>>) -> Seq<(ProbeKind, Seq<char>)> {
    targets.map_values(|t: Seq<char>| (kind, t))
}

/// Declared paths, `~` expanded.
pub open spec fn expanded_all(paths: Seq<Seq<char>>, home: Option<Seq<char>>) -> Seq<Seq<char>> {
    paths.map_values(|p: Seq<char>| expand_home(p, home))
}

/// Each name inside each well-known directory, directory by directory.
pub open spec fn bin_dir_targets(dirs: Seq<Seq<char>>, names: Seq<Seq<char>>, home: Option<Seq<char>>) -> Seq<
    Seq<char>,
>
    decreases dirs.len(),
{
    if dirs.len() == 0 {
        Seq::empty()
    } else {
        bin_dir_targets(dirs.drop_last(), names, home) + names.map_values(
            |n: Seq<char>| joined(expand_home(dirs.last(), home), n),
        )
    }
}

/// The search order for an executable: each name on `PATH`, then the declared
/// known paths and app bundle paths, then each well-known bin directory for each name.
pub open spec fn probe_plan(
    names: Seq<Seq<char>>,
    known_paths: Seq<Seq<char>>,
    app_paths: Seq<Seq<char>>,
    home: Option<Seq<char>>,
) -> Seq<(ProbeKind, Seq<char>)> {
    probes_for(ProbeKind::Which, names) + probes_for(
        ProbeKind::KnownPath,
        expanded_all(known_paths + app_paths, home),
    ) + probes_for(ProbeKind::KnownBinDir, bin_dir_targets(known_bin_dirs(), names, home))
}

/// Appends a probe for each target.
fn push_probes(out: &mut Vec<Probe>, kind: ProbeKind, targets: &Vec<String>)
    ensures
        probes_view(final(out)@) == probes_view(old(out)@) + probes_for(kind, strings_view(targets@)),
{
    let ghost start = probes_view(out@);
    let n = targets.len();
    for i in 0..n
        invariant
            n == targets@.len(),
            probes_view(out@) == start + probes_for(kind, strings_view(targets@).take(i as int)),
    {
        let ghost before = probes_view(out@);
        out.push(Probe { kind, target: targets[i].clone() });
        assert(probes_view(out@) =~= before.push((kind, targets@[i as int]@)));
        assert(probes_for(kind, strings_view(targets@).take(i + 1)) =~= probes_for(
            kind,
            strings_view(targets@).take(i as int),
        ).push((kind, targets@[i as int]@)));
    }
    assert(strings_view(targets@).take(n as int) =~= strings_view(targets@));
}

/// Declared paths with `~` expanded.
fn expand_all(paths: &Vec<String>, home: Option<&str>) -> (r: Vec<String>)
    ensures
        strings_view(r@) == expanded_all(strings_view(paths@), opt_str_view(home)),
{
    let mut r: Vec<String> = Vec::new();
    let n = paths.len();
    for i in 0..n
        invariant
            n == paths@.len(),
            strings_view(r@) == expanded_all(strings_view(paths@).take(i as int), opt_str_view(home)),
    {
        let e = expand_home_with(paths[i].as_str(), home);
        let ghost before = strings_view(r@);
        r.push(e);
        assert(strings_view(r@) =~= before.push(e@));
        assert(expanded_all(strings_view(paths@).take(i + 1), opt_str_view(home)) =~= expanded_all(
            strings_view(paths@).take(i as int),
            opt_str_view(home),
        ).push(expand_home(paths@[i as int]@, opt_str_view(home))));
    }
    assert(strings_view(paths@).take(n as int) =~= strings_view(paths@));
    r
}

/// The places to look for an executable, given the home directory (see [`probe_plan`]).
pub fn executable_probes_with_home(
    names: &Vec<String>,
    known_paths: &Vec<String>,
    app_paths: &Vec<String>,
    home: Option<&str>,
) -> (probes: Vec<Probe>)
    ensures
        probes_view(probes@) == probe_plan(
            strings_view(names@),
            strings_view(known_paths@),
            strings_view(app_paths@),
            opt_str_view(home),
        ),
{
    let ghost h = opt_str_view(home);
    let ghost nv = strings_view(names@);
    let mut probes: Vec<Probe> = Vec::new();
    push_probes(&mut probes, ProbeKind::Which, names);
    let known = expand_all(known_paths, home);
    push_probes(&mut probes, ProbeKind::KnownPath, &known);
    let app = expand_all(app_paths, home);
    push_probes(&mut probes, ProbeKind::KnownPath, &app);
    assert(expanded_all(strings_view(known_paths@) + strings_view(app_paths@), h) =~= expanded_all(
        strings_view(known_paths@),
        h,
    ) + expanded_all(strings_view(app_paths@), h));
    assert(strings_view(known_paths@) + strings_view(app_paths@) =~= strings_view(
        known_paths@ + app_paths@,
    ));
    assert(probes_for(ProbeKind::KnownPath, strings_view(known@) + strings_view(app@))
        =~= probes_for(ProbeKind::KnownPath, strings_view(known@)) + probes_for(
        ProbeKind::KnownPath,
        strings_view(app@),
    ));
    let ghost after_paths = probes_view(probes@);
    let dirs = known_bin_dir_list();
    let m = dirs.len();
    let ghost dv = known_bin_dirs();
    assert(dv.take(0) =~= Seq::<Seq<char>>::empty());
    for d in 0..m
        invariant
            m == dirs@.len(),
            dv == strs_view(dirs@),
            h == opt_str_view(home),
            nv == strings_view(names@),
            probes_view(probes@) == after_paths + probes_for(
                ProbeKind::KnownBinDir,
                bin_dir_targets(dv.take(d as int), nv, h),
            ),
    {
        let dir = expand_home_with(dirs[d], home);
        let mut targets: Vec<String> = Vec::new();
        let k = names.len();
        for j in 0..k
            invariant
                k == names@.len(),
                nv == strings_view(names@),
                strings_view(targets@) == nv.take(j as int).map_values(
                    |n: Seq<char>| joined(dir@, n),
                ),
        {
            let t = join_path(dir.as_str(), names[j].as_str());
            let ghost before = strings_view(targets@);
            targets.push(t);
            assert(strings_view(targets@) =~= before.push(t@));
            assert(nv.take(j + 1).map_values(|n: Seq<char>| joined(dir@, n)) =~= nv.take(
                j as int,
            ).map_values(|n: Seq<char>| joined(dir@, n)).push(joined(dir@, nv[j as int])));
        }
        assert(nv.take(k as int) =~= nv);
        assert(dv.take(d + 1).drop_last() =~= dv.take(d as int));
        assert(dv.take(d + 1).last() == dirs@[d as int]@);
        let ghost before = probes_view(probes@);
        push_probes(&mut probes, ProbeKind::KnownBinDir, &targets);
        assert(probes_for(
            ProbeKind::KnownBinDir,
            bin_dir_targets(dv.take(d as int), nv, h) + strings_view(targets@),
        ) =~= probes_for(ProbeKind::KnownBinDir, bin_dir_targets(dv.take(d as int), nv, h))
            + probes_for(ProbeKind::KnownBinDir, strings_view(targets@)));
    }
    assert(dv.take(m as int) =~= dv);
    probes
}

/// The places to look for an executable (see [`probe_plan`]), for the user's
/// home directory.
pub fn executable_probes(names: &Vec<String>, known_paths: &Vec<String>, app_paths: &Vec<String>) -> (probes: Vec<Probe>)
    ensures
        exists|home: Option<Seq<char>>|
            probes_view(probes@) == #[trigger] probe_plan(
                strings_view(names@),
                strings_view(known_paths@),
                strings_view(app_paths@),
                home,
            ),
{
    let home = home_dir_text();
    let r = match &home {
        Some(h) => executable_probes_with_home(names, known_paths, app_paths, Some(h.as_str())),
        None => executable_probes_with_home(names, known_paths, app_paths, None),
    };
    assert(probes_view(r@) == probe_plan(
        strings_view(names@),
        strings_view(known_paths@),
        strings_view(app_paths@),
        opt_string_view(home),
    ));
    r
}

// ---------------------------------------------------------------------------
// Interpreting what was found
// ---------------------------------------------------------------------------
/// A version command is run only for a found executable with version arguments.
pub fn needs_version_check(found: bool, spec: &ToolSpec) -> (b: bool)
    ensures
        b == (found && spec.version_args@.len() > 0),
{
    found && spec.version_args.len() > 0
}

/// The view of an optional version report.
pub open spec fn opt_report_view(report: Option<(String, bool)>) -> Option<(Seq<char>, bool)> {
    match report {
        Some(r) => Some((r.0@, r.1)),
        None => None,
    }
}

/// The version text and whether the version check passed. Only a found tool
/// with version arguments is checked, by the version command's report (a
/// missing report is a failed check); any other tool has no version and no
/// passed check.
pub open spec fn version_outcome_of(found: bool, spec: ToolSpec, report: Option<(Seq<char>, bool)>) -> (
    Seq<char>,
    bool,
) {
    if found && spec.version_args@.len() > 0 {
        match report {
            Some(r) => r,
            None => (Seq::empty(), false),
        }
    } else {
        (Seq::empty(), false)
    }
}

/// The version text and whether the version check passed (see
/// [`version_outcome_of`]); `report` is what the version command gave, if it was run.
pub fn version_outcome(found: bool, spec: &ToolSpec, report: Option<(String, bool)>) -> (r: (
    String,
    bool,
))
    ensures
        r.0@ == version_outcome_of(found, *spec, opt_report_view(report)).0,
        r.1 == version_outcome_of(found, *spec, opt_report_view(report)).1,
{
    if needs_version_check(found, spec) {
        match report {
            Some(r) => r,
            None => (String::new(), false),
        }
    } else {
        (String::new(), false)
    }
}

/// The status a detection reports: `missing` without a path; `available` for a
/// found tool whose version check passed; `present_unverified` for a found tool
/// whose version check failed or could not be made (no version arguments).
pub proof fn lemma_detection_status(found: bool, spec: ToolSpec, report: Option<(Seq<char>, bool)>)
    ensures
        status_of(found, version_outcome_of(found, spec, report).1).0 == if !found {
            "missing"@
        } else if spec.version_args@.len() > 0 && (match report {
            Some(r) => r.1,
            None => false,
        }) {
            "available"@
        } else {
            "present_unverified"@
        },
{
}

/// Index of the first `'\n'` at or after `i`, or the length.
pub open spec fn line_end(t: Seq<char>, i: nat) -> nat
    decreases t.len() - i,
{
    if i >= t.len() {
        t.len()
    } else if t[i as int] == '\n' {
        i
    } else {
        line_end(t, i + 1)
    }
}

/// The first line of `t` (`str::lines().next()`, or empty text): up to the first
/// `'\n'`, without a `'\r'` right before it.
pub open spec fn first_line(t: Seq<char>) -> Seq<char> {
    let e = line_end(t, 0);
    let l = t.take(e as int);
    if e < t.len() && l.len() > 0 && l.last() == '\r' {
        l.drop_last()
    } else {
        l
    }
}

/// The version text reported: at most 240 characters of the first line.
pub open spec fn version_text(t: Seq<char>) -> Seq<char> {
    let l = first_line(t);
    if l.len() <= 240 {
        l
    } else {
        l.take(240)
    }
}

/// The reported version and whether the check succeeded, from a version
/// command's decoded output: the text is stdout, or stderr when stdout is empty;
/// the check succeeded when the command did or printed something.
pub fn version_report(stdout: &str, stderr: &str, success: bool) -> (r: (String, bool))
    ensures
        ({
            let t = if stdout@.len() > 0 {
                stdout@
            } else {
                stderr@
            };
            r.0@ == version_text(t) && r.1 == (success || t.len() > 0)
        }),
{
    let t = if stdout.is_empty() {
        chars_of(stderr)
    } else {
        chars_of(stdout)
    };
    let n = t.len();
    let mut e: usize = 0;
    while e < n && t[e] != '\n'
        invariant
            n == t@.len(),
            e <= n,
            line_end(t@, 0) == line_end(t@, e as nat),
        decreases n - e,
    {
        e = e + 1;
    }
    let mut end = e;
    if e < n && e > 0 && t[e - 1] == '\r' {
        end = e - 1;
    }
    if end > 240 {
        end = 240;
    }
    let mut line: Vec<char> = Vec::new();
    for i in 0..end
        invariant
            end <= n,
            n == t@.len(),
            line@ == t@.take(i as int),
    {
        line.push(t[i]);
        assert(line@ =~= t@.take(i + 1));
    }
    proof {
        let l = t@.take(e as int);
        if e < n && l.len() > 0 && l.last() == '\r' {
            assert(l.drop_last() =~= t@.take(e - 1));
            if l.drop_last().len() > 240 {
                assert(l.drop_last().take(240) =~= t@.take(240));
            }
        } else if l.len() > 240 {
            assert(l.take(240) =~= t@.take(240));
        }
        assert(line@ =~= version_text(t@));
    }
    (crate::text::string_from_chars(&line), success || n > 0)
}

/// The status of a detection and its confidence in thousandths.
pub open spec fn status_of(found: bool, version_ok: bool) -> (Seq<char>, u32) {
    if found && version_ok {
        ("available"@, 980)
    } else if found {
        ("present_unverified"@, 700)
    } else {
        ("missing"@, 200)
    }
}

/// The status of a detection and its confidence (see [`status_of`]).
pub fn detection_status(found: bool, version_ok: bool) -> (r: (String, u32))
    ensures
        r.0@ == status_of(found, version_ok).0,
        r.1 == status_of(found, version_ok).1,
{
    if found && version_ok {
        (owned("available"), 980)
    } else if found {
        (owned("present_unverified"), 700)
    } else {
        (owned("missing"), 200)
    }
}

/// The availability record for one detected tool.
pub fn detection_record(
    category: String,
    tool: String,
    path: Option<String>,
    method: String,
    version: String,
    version_ok: bool,
    checked_at: String,
    fingerprint: String,
) -> (d: DetectionResult)
    ensures
        d.namespace@ == "agent_tool_inventory"@,
        d.memory_type@ == "tool_inventory"@,
        d.record_type@ == "availability"@,
        d.category == category,
        d.tool == tool,
        d.status@ == status_of(path is Some, version_ok).0,
        d.confidence_permille == status_of(path is Some, version_ok).1,
        d.path@ == match path {
            Some(p) => p@,
            None => Seq::<char>::empty(),
        },
        d.version == version,
        d.detection_method == method,
        d.checked_at == checked_at,
        d.path_fingerprint == fingerprint,
        strings_view(d.tags@) == seq!["tool-inventory"@],
{
    let (status, confidence) = detection_status(path.is_some(), version_ok);
    let path = match path {
        Some(p) => p,
        None => String::new(),
    };
    let mut tags: Vec<String> = Vec::new();
    tags.push(owned("tool-inventory"));
    assert(strings_view(tags@) =~= seq!["tool-inventory"@]);
    DetectionResult {
        namespace: owned("agent_tool_inventory"),
        memory_type: owned("tool_inventory"),
        record_type: owned("availability"),
        category,
        tool,
        status,
        path,
        version,
        detection_method: method,
        checked_at,
        path_fingerprint: fingerprint,
        confidence_permille: confidence,
        tags,
    }
}

// ---------------------------------------------------------------------------
// PATH fingerprint
// ---------------------------------------------------------------------------
/// The SHA-256 digest of `data`.
pub uninterp spec fn sha256(data: Seq<u8>) -> Seq<u8>;

/// Calls `sha2::Sha256` (new, update, finalize); the result is the 32-byte
/// SHA-256 digest of `data`.
#[verifier::external_body]
fn sha256_digest(data: &[u8]) -> (d: Vec<u8>)
    ensures
        d@ == sha256(data@),
        d@.len() == 32,
{
    let mut hasher = <sha2::Sha256 as sha2::Digest>::new();
    sha2::Digest::update(&mut hasher, data);
    sha2::Digest::finalize(hasher).to_vec()
}

/// The lowercase hexadecimal digit of a value below 16.
pub open spec fn hex_digit(n: u8) -> char {
    seq!['0', '1', '2', '3', '4', '5', '6', '7', '8', '9', 'a', 'b', 'c', 'd', 'e', 'f'][n as int]
}

/// Lowercase hexadecimal, two digits per byte.
pub open spec fn hex_lower(bytes: Seq<u8>) -> Seq<char>
    decreases bytes.len(),
{
    if bytes.len() == 0 {
        Seq::empty()
    } else {
        hex_lower(bytes.drop_last()) + seq![
            hex_digit(bytes.last() / 16),
            hex_digit(bytes.last() % 16),
        ]
    }
}

fn hex_digit_exec(n: u8) -> (c: char)
    requires
        n < 16,
    ensures
        c == hex_digit(n),
{
    let digits = vec!['0', '1', '2', '3', '4', '5', '6', '7', '8', '9', 'a', 'b', 'c', 'd', 'e', 'f'];
    assert(digits@ =~= seq!['0', '1', '2', '3', '4', '5', '6', '7', '8', '9', 'a', 'b', 'c', 'd', 'e', 'f']);
    digits[n as usize]
}

/// The fingerprint of a `PATH` value: the first 16 lowercase hexadecimal digits
/// of the SHA-256 digest of its UTF-8 bytes (the hex of the first 8 digest bytes).
pub fn path_fingerprint_of(path_value: &str) -> (f: String)
    ensures
        f@ == hex_lower(sha256(path_value.spec_bytes()).take(8)),
{
    let digest = sha256_digest(path_value.as_bytes());
    let mut f = String::new();
    assert(digest@.take(0) =~= Seq::<u8>::empty());
    for i in 0..8
        invariant
            digest@.len() == 32,
            f@ == hex_lower(digest@.take(i as int)),
    {
        let b = digest[i];
        crate::text::push_char(&mut f, hex_digit_exec(b / 16));
        crate::text::push_char(&mut f, hex_digit_exec(b % 16));
        assert(digest@.take(i + 1).drop_last() =~= digest@.take(i as int));
        assert(f@ =~= hex_lower(digest@.take(i + 1)));
    }
    f
}

/// Asked-for tools of one category are all collected.
proof fn lemma_wanted_in_complete(
    cat: Seq<char>,
    entries: Seq<(String, ToolSpec)>,
    tools: Seq<Seq<char>>,
    j: int,
)
    requires
        0 <= j < entries.len(),
        tools.len() == 0 || tools.contains(entries[j].0@) || exists|d: int|
            0 <= d < entries[j].1.detect_names@.len() && tools.contains(
                #[trigger] entries[j].1.detect_names@[d]@,
            ),
    ensures
        wanted_in(cat, entries, tools).contains((cat, entries[j].0@, entries[j].1)),
    decreases entries.len(),
{
    let d = entries.drop_last();
    let prev = wanted_in(cat, d, tools);
    let all = wanted_in(cat, entries, tools);
    if j < entries.len() - 1 {
        assert(d[j] == entries[j]);
        lemma_wanted_in_complete(cat, d, tools, j);
        let k = choose|k: int| 0 <= k < prev.len() && prev[k] == (cat, entries[j].0@, entries[j].1);
        assert(all[k] == prev[k]);
    } else {
        assert(entries.last() == entries[j]);
        assert(all[prev.len() as int] == (cat, entries[j].0@, entries[j].1));
    }
}

/// Detection misses nothing asked for: every tool of a selected category that
/// is named by its registry name or by one of its detect names (or every tool,
/// when no names are given) is collected.
pub proof fn lemma_candidates_complete(
    reg: Seq<(String, crate::registry::Category)>,
    filter: Option<Seq<char>>,
    tools: Seq<Seq<char>>,
    i: int,
    j: int,
)
    requires
        0 <= i < reg.len(),
        0 <= j < reg[i].1.tools@.len(),
        category_selected(reg[i].0@, filter),
        tools.len() == 0 || tools.contains(reg[i].1.tools@[j].0@) || exists|d: int|
            0 <= d < reg[i].1.tools@[j].1.detect_names@.len() && tools.contains(
                #[trigger] reg[i].1.tools@[j].1.detect_names@[d]@,
            ),
    ensures
        candidates_of(reg, filter, tools).contains(
            (reg[i].0@, reg[i].1.tools@[j].0@, reg[i].1.tools@[j].1),
        ),
    decreases reg.len(),
{
    let d = reg.drop_last();
    let prev = candidates_of(d, filter, tools);
    let all = candidates_of(reg, filter, tools);
    let x = (reg[i].0@, reg[i].1.tools@[j].0@, reg[i].1.tools@[j].1);
    if i < reg.len() - 1 {
        assert(d[i] == reg[i]);
        lemma_candidates_complete(d, filter, tools, i, j);
        let k = choose|k: int| 0 <= k < prev.len() && prev[k] == x;
        assert(all[k] == prev[k]);
    } else {
        let c = reg.last();
        assert(c == reg[i]);
        lemma_wanted_in_complete(c.0@, c.1.tools@, tools, j);
        let w = wanted_in(c.0@, c.1.tools@, tools);
        let k = choose|k: int| 0 <= k < w.len() && w[k] == x;
        assert(all[prev.len() + k] == w[k]);
    }
}

} // verus!

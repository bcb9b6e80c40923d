//! Where the shared tool-memory home lives: configured locations, `~` expansion,
//! the `.tool-memory-home` marker, redirect markers and conflicting candidates.
//!
//! Paths are held as strings; joining follows `PathBuf::join` on Unix.
use vstd::prelude::*;
use crate::config::Config;
use crate::registry::{opt_str_view, opt_string_view};
use crate::text::{strings_view, chars_of, concat, owned, push_str, starts_with, starts_with_chars};

verus! {

/// The canonical `.tool-memory-home` marker filename.
pub const MARKER_FILENAME: &'static str = ".tool-memory-home";

/// The redirect marker filename.
pub const REDIRECT_FILENAME: &'static str = ".tool-memory-redirect";

/// At most this many redirects are followed.
pub const MAX_REDIRECTS: usize = 8;

/// `base` joined with `rel` (`PathBuf::join` on Unix): an absolute `rel` replaces
/// `base`; otherwise a `/` is put between them unless `base` is empty or ends with `/`.
pub open spec fn joined(base: Seq<char>, rel: Seq<char>) -> Seq<char> {
    if rel.len() > 0 && rel[0] == '/' {
        rel
    } else if base.len() == 0 || base.last() == '/' {
        base + rel
    } else {
        base + seq!['/'] + rel
    }
}

/// `s` has a leading `~` that names the home directory: `~` itself or `~/...`.
pub open spec fn tilde_form(s: Seq<char>) -> bool {
    starts_with(s, "~/"@) || s == "~"@
}

/// `s` with a leading `~` replaced by the home directory, when one is known.
pub open spec fn expand_home(s: Seq<char>, home: Option<Seq<char>>) -> Seq<char> {
    if tilde_form(s) && home is Some {
        home->0 + s.skip(1)
    } else {
        s
    }
}

/// The default home under the user's configuration directory (`~/.config` when
/// that directory is unknown).
pub open spec fn default_home_under(config_dir: Option<Seq<char>>) -> Seq<char> {
    let base = match config_dir {
        Some(d) => d,
        None => "~/.config"@,
    };
    joined(joined(base, "tool-first-agent"@), "tool-memory"@)
}

/// The configured location, by priority: the `TOOL_FIRST_MEMORY_HOME` value,
/// then `memory_home`, then `file.base_dir`; `None` means the default.
pub open spec fn configured_home(env_home: Option<Seq<char>>, cfg: Config) -> Option<Seq<char>> {
    if env_home is Some {
        env_home
    } else if cfg.memory_home is Some {
        opt_string_view(cfg.memory_home)
    } else {
        opt_string_view(cfg.file.base_dir)
    }
}

/// Whether two path strings name the same path (`Path`'s `==`, which compares
/// components).
pub uninterp spec fn paths_equal(a: Seq<char>, b: Seq<char>) -> bool;

/// Calls `Path::eq` on the two paths; identical strings are equal paths.
#[verifier::external_body]
fn same_path(a: &str, b: &str) -> (r: bool)
    ensures
        r == paths_equal(a@, b@),
        a@ == b@ ==> r,
{
    std::path::Path::new(a) == std::path::Path::new(b)
}

/// Calls `Path::exists`; the answer depends on the file system, so nothing is
/// stated of it.
#[verifier::external_body]
fn path_exists(p: &str) -> (r: bool) {
    std::path::Path::new(p).exists()
}

/// Calls `dirs::home_dir` and renders the path; the answer depends on the
/// environment, so nothing is stated of it.
#[verifier::external_body]
pub(crate) fn home_dir_text() -> (r: Option<String>) {
    dirs::home_dir().map(|p| p.display().to_string())
}

/// Calls `dirs::config_dir` and renders the path; the answer depends on the
/// environment, so nothing is stated of it.
#[verifier::external_body]
pub(crate) fn config_dir_text() -> (r: Option<String>) {
    dirs::config_dir().map(|p| p.to_string_lossy().to_string())
}

/// Joins two paths (see [`joined`]).
pub fn join_path(base: &str, rel: &str) -> (r: String)
    ensures
        r@ == joined(base@, rel@),
{
    let rc = chars_of(rel);
    if rc.len() > 0 && rc[0] == '/' {
        return owned(rel);
    }
    let bc = chars_of(base);
    if bc.len() == 0 || bc[bc.len() - 1] == '/' {
        return concat(base, rel);
    }
    let mut r = owned(base);
    push_str(&mut r, "/");
    proof {
        reveal_strlit("/");
    }
    push_str(&mut r, rel);
    r
}

/// The path of the `.tool-memory-home` marker in a memory home.
pub fn marker_path(memory_home: &str) -> (r: String)
    ensures
        r@ == joined(memory_home@, MARKER_FILENAME@),
{
    join_path(memory_home, MARKER_FILENAME)
}

/// The path of the redirect marker in a directory.
pub fn redirect_marker_path(dir: &str) -> (r: String)
    ensures
        r@ == joined(dir@, REDIRECT_FILENAME@),
{
    join_path(dir, REDIRECT_FILENAME)
}

/// Whether the `.tool-memory-home` marker exists in a memory home. The answer
/// comes from the file system at [`marker_path`].
pub fn has_marker(memory_home: &str) -> (b: bool) {
    let p = marker_path(memory_home);
    path_exists(p.as_str())
}

/// Replaces a leading `~` by the given home directory.
pub fn expand_home_with(s: &str, home: Option<&str>) -> (r: String)
    ensures
        r@ == expand_home(s@, opt_str_view(home)),
{
    let sc = chars_of(s);
    let prefix = chars_of("~/");
    let tilde = chars_of("~");
    proof {
        reveal_strlit("~/");
        reveal_strlit("~");
    }
    let is_tilde = starts_with_chars(&sc, &prefix) || crate::text::chars_eq(&sc, &tilde);
    if is_tilde {
        if let Some(h) = home {
            let mut r = owned(h);
            let n = sc.len();
            for i in 1..n
                invariant
                    n == sc@.len(),
                    1 <= n,
                    r@ == h@ + sc@.subrange(1, i as int),
            {
                crate::text::push_char(&mut r, sc[i]);
                assert(r@ =~= h@ + sc@.subrange(1, i + 1));
            }
            assert(sc@.subrange(1, n as int) =~= sc@.skip(1));
            return r;
        }
    }
    owned(s)
}

/// Replaces a leading `~` by the user's home directory. Text without a leading
/// `~` is returned unchanged.
pub fn shellexpand(s: &str) -> (r: String)
    ensures
        exists|home: Option<Seq<char>>| r@ == #[trigger] expand_home(s@, home),
        !tilde_form(s@) ==> r@ == s@,
{
    let home = home_dir_text();
    let r = match &home {
        Some(h) => expand_home_with(s, Some(h.as_str())),
        None => expand_home_with(s, None),
    };
    assert(r@ == expand_home(s@, opt_string_view(home)));
    r
}

/// The default memory home under the given configuration directory (see
/// [`default_home_under`]).
pub fn default_memory_home_under(config_dir: Option<&str>) -> (r: String)
    ensures
        r@ == default_home_under(opt_str_view(config_dir)),
{
    let base = match config_dir {
        Some(d) => owned(d),
        None => owned("~/.config"),
    };
    let mid = join_path(base.as_str(), "tool-first-agent");
    join_path(mid.as_str(), "tool-memory")
}

/// The default memory home, `<config dir>/tool-first-agent/tool-memory`.
pub fn default_memory_home() -> (r: String)
    ensures
        exists|dir: Option<Seq<char>>| r@ == #[trigger] default_home_under(dir),
{
    let dir = config_dir_text();
    let r = match &dir {
        Some(d) => default_memory_home_under(Some(d.as_str())),
        None => default_memory_home_under(None),
    };
    assert(r@ == default_home_under(opt_string_view(dir)));
    r
}

/// The configured memory-home location, unexpanded (see [`configured_home`]).
pub fn configured_memory_home(env_home: Option<&str>, cfg: &Config) -> (r: Option<String>)
    ensures
        opt_string_view(r) == configured_home(opt_str_view(env_home), *cfg),
{
    if let Some(e) = env_home {
        return Some(owned(e));
    }
    if let Some(h) = &cfg.memory_home {
        return Some(h.clone());
    }
    match &cfg.file.base_dir {
        Some(b) => Some(b.clone()),
        None => None,
    }
}

/// The memory home before redirects, given the home directory and the
/// configuration directory: the configured location with `~` expanded, or the default.
pub open spec fn home_choice(
    env_home: Option<Seq<char>>,
    cfg: Config,
    home: Option<Seq<char>>,
    config_dir: Option<Seq<char>>,
) -> Seq<char> {
    match configured_home(env_home, cfg) {
        Some(s) => expand_home(s, home),
        None => default_home_under(config_dir),
    }
}

/// `path` is [`home_choice`] for some home and configuration directory.
pub open spec fn before_redirects(path: Seq<char>, env_home: Option<Seq<char>>, cfg: Config) -> bool {
    exists|home: Option<Seq<char>>, dir: Option<Seq<char>>|
        path == #[trigger] home_choice(env_home, cfg, home, dir)
}

/// The memory home before redirects are followed: the configured location with
/// `~` expanded, or the default.
pub fn memory_home_before_redirects(env_home: Option<&str>, cfg: &Config) -> (r: String)
    ensures
        before_redirects(r@, opt_str_view(env_home), *cfg),
{
    match configured_memory_home(env_home, cfg) {
        Some(s) => {
            let r = shellexpand(s.as_str());
            let ghost home = choose|home: Option<Seq<char>>| r@ == expand_home(s@, home);
            assert(r@ == expand_home(s@, home));
            assert(configured_home(opt_str_view(env_home), *cfg) == Some(s@));
            assert(r@ == home_choice(opt_str_view(env_home), *cfg, home, None));
            r
        },
        None => {
            let r = default_memory_home();
            let ghost dir = choose|dir: Option<Seq<char>>| r@ == default_home_under(dir);
            assert(r@ == default_home_under(dir));
            assert(configured_home(opt_str_view(env_home), *cfg) is None);
            assert(r@ == home_choice(opt_str_view(env_home), *cfg, None, dir));
            r
        },
    }
}

/// The memory home before redirects, with the home and configuration
/// directories given (see [`home_choice`]).
pub fn memory_home_before_redirects_with(
    env_home: Option<&str>,
    cfg: &Config,
    home: Option<&str>,
    config_dir: Option<&str>,
) -> (r: String)
    ensures
        r@ == home_choice(
            opt_str_view(env_home),
            *cfg,
            opt_str_view(home),
            opt_str_view(config_dir),
        ),
{
    match configured_memory_home(env_home, cfg) {
        Some(s) => expand_home_with(s.as_str(), home),
        None => default_memory_home_under(config_dir),
    }
}

/// With the home directory known, a configured location that begins with `~`
/// lands under it (the `~` is replaced by the home directory); any other
/// configured location is used as written. Without a configured location the
/// default under the configuration directory is used.
pub proof fn lemma_configured_home_expanded(
    env_home: Option<Seq<char>>,
    cfg: Config,
    home: Seq<char>,
    config_dir: Option<Seq<char>>,
)
    ensures
        configured_home(env_home, cfg) matches Some(s) ==> {
            &&& tilde_form(s) ==> home_choice(env_home, cfg, Some(home), config_dir) == home
                + s.skip(1)
            &&& !tilde_form(s) ==> home_choice(env_home, cfg, Some(home), config_dir) == s
        },
        configured_home(env_home, cfg) is None ==> home_choice(
            env_home,
            cfg,
            Some(home),
            config_dir,
        ) == default_home_under(config_dir),
        env_home matches Some(e) ==> configured_home(env_home, cfg) == Some(e),
{
}

/// Content of the `.tool-memory-home` marker file.
pub struct MemoryHomeMarker {
    pub marker_type: String,
    pub version: String,
    pub canonical: bool,
    pub source: String,
    pub adapter: String,
    pub authority: String,
    pub vault_authority: String,
    pub description: String,
}

impl Default for MemoryHomeMarker {
    fn default() -> (m: MemoryHomeMarker)
        ensures
            m.marker_type@ == "tool-first-agent-memory-home"@,
            m.version@ == "1.0"@,
            m.canonical,
            m.source@ == "TOOL_FIRST_MEMORY_HOME"@,
            m.adapter@ == "file"@,
            m.authority@ == "runtime-infrastructure"@,
            m.vault_authority@ == "none"@,
            m.description@
                == "Canonical shared runtime tool-memory home for local agents. Not authoritative Vault memory."@,
    {
        MemoryHomeMarker {
            marker_type: owned("tool-first-agent-memory-home"),
            version: owned("1.0"),
            canonical: true,
            source: owned("TOOL_FIRST_MEMORY_HOME"),
            adapter: owned("file"),
            authority: owned("runtime-infrastructure"),
            vault_authority: owned("none"),
            description: owned(
                "Canonical shared runtime tool-memory home for local agents. Not authoritative Vault memory.",
            ),
        }
    }
}

/// Content of the `.tool-memory-redirect` marker file.
pub struct MemoryRedirectMarker {
    pub redirect_to: String,
    pub reason: String,
    pub do_not_write_here: bool,
}

/// A place where a tool-memory home may be found.
pub struct MemoryHomeCandidate {
    pub path: String,
    pub source: String,
    pub has_marker: bool,
    pub is_canonical: bool,
}

/// Progress through a chain of redirect markers.
pub struct RedirectWalk {
    /// The directory reached so far.
    pub path: String,
    /// Redirects followed so far.
    pub hops: usize,
    /// No further redirect will be followed.
    pub finished: bool,
}

/// The walk's invariant: at most [`MAX_REDIRECTS`] hops, and a walk that has
/// used them all is finished.
pub open spec fn walk_ok(w: RedirectWalk) -> bool {
    w.hops <= MAX_REDIRECTS && (w.hops == MAX_REDIRECTS ==> w.finished)
}

/// Starts following redirects from `path`.
pub fn redirect_walk_start(path: String) -> (w: RedirectWalk)
    ensures
        w.path@ == path@,
        w.hops == 0,
        !w.finished,
        walk_ok(w),
{
    RedirectWalk { path, hops: 0, finished: false }
}

/// One step: `target` is the `redirect_to` read from the redirect marker in
/// `walk.path`, if there is one. No marker, or a target (after `~` expansion)
/// naming the same path, ends the walk; otherwise the walk moves there, ending
/// once [`MAX_REDIRECTS`] redirects have been followed.
pub fn redirect_walk_step(walk: RedirectWalk, target: Option<&str>) -> (w: RedirectWalk)
    requires
        walk_ok(walk),
        !walk.finished,
    ensures
        walk_ok(w),
        match target {
            None => w.path@ == walk.path@ && w.hops == walk.hops && w.finished,
            Some(t) => exists|home: Option<Seq<char>>|
                {
                    let next = #[trigger] expand_home(t@, home);
                    if paths_equal(next, walk.path@) {
                        w.path@ == walk.path@ && w.hops == walk.hops && w.finished
                    } else {
                        w.path@ == next && w.hops == walk.hops + 1 && w.finished == (w.hops
                            == MAX_REDIRECTS)
                    }
                },
        },
{
    match target {
        None => RedirectWalk { path: walk.path, hops: walk.hops, finished: true },
        Some(t) => {
            let next = shellexpand(t);
            let ghost home = choose|home: Option<Seq<char>>| next@ == expand_home(t@, home);
            if same_path(next.as_str(), walk.path.as_str()) {
                RedirectWalk { path: walk.path, hops: walk.hops, finished: true }
            } else {
                let hops = walk.hops + 1;
                let w = RedirectWalk { path: next, hops, finished: hops == MAX_REDIRECTS };
                assert(w.path@ == expand_home(t@, home));
                w
            }
        },
    }
}

/// A memory-home candidate as (path, source, canonical, marker present).
pub open spec fn candidate_view(c: MemoryHomeCandidate) -> (Seq<char>, Seq<char>, bool, bool) {
    (c.path@, c.source@, c.is_canonical, c.has_marker)
}

/// The views of candidates.
pub open spec fn candidates_view(list: Seq<MemoryHomeCandidate>) -> Seq<
    (Seq<char>, Seq<char>, bool, bool),
> {
    list.map_values(|c: MemoryHomeCandidate| candidate_view(c))
}

/// `x` appended to `d` unless an entry of `d` has the same path.
pub open spec fn push_new_path(
    d: Seq<(Seq<char>, Seq<char>, bool, bool)>,
    x: (Seq<char>, Seq<char>, bool, bool),
) -> Seq<(Seq<char>, Seq<char>, bool, bool)> {
    if exists|k: int| 0 <= k < d.len() && paths_equal(#[trigger] d[k].0, x.0) {
        d
    } else {
        d.push(x)
    }
}

/// The entries of `s`, each left out when an entry kept before it has the same path.
pub open spec fn first_per_path(s: Seq<(Seq<char>, Seq<char>, bool, bool)>) -> Seq<
    (Seq<char>, Seq<char>, bool, bool),
>
    decreases s.len(),
{
    if s.len() == 0 {
        Seq::empty()
    } else {
        push_new_path(first_per_path(s.drop_last()), s.last())
    }
}

/// Places with whether each holds a `.tool-memory-home` marker (`marks`, by position).
pub open spec fn marked(s: Seq<(Seq<char>, Seq<char>, bool)>, marks: Seq<bool>) -> Seq<
    (Seq<char>, Seq<char>, bool, bool),
> {
    Seq::new(s.len(), |i: int| (s[i].0, s[i].1, s[i].2, marks[i]))
}

/// An optional configured location as a candidate, `~` expanded.
pub open spec fn opt_entry(
    o: Option<Seq<char>>,
    source: Seq<char>,
    home: Option<Seq<char>>,
    canonical: bool,
) -> Seq<(Seq<char>, Seq<char>, bool)> {
    match o {
        Some(p) => seq![(expand_home(p, home), source, canonical)],
        None => Seq::empty(),
    }
}

/// Legacy memory homes under the home directory, as (relative path, source).
pub open spec fn legacy_homes() -> Seq<(Seq<char>, Seq<char>)> {
    seq![
        (".config/tool-inventory/memory"@, "legacy:~/.config/tool-inventory/memory"@),
        (".hermes/tool-memory"@, "legacy:~/.hermes/tool-memory"@),
    ]
}

/// The legacy homes that are present (`present` tells which are), under `home`.
pub open spec fn legacy_entries(
    home: Seq<char>,
    legacy: Seq<(Seq<char>, Seq<char>)>,
    present: Seq<bool>,
) -> Seq<(Seq<char>, Seq<char>, bool)>
    decreases legacy.len(),
{
    if legacy.len() == 0 {
        Seq::empty()
    } else {
        legacy_entries(home, legacy.drop_last(), present) + if present[legacy.len() - 1] {
            seq![(joined(home, legacy.last().0), legacy.last().1, false)]
        } else {
            Seq::empty()
        }
    }
}

/// Every place where a memory home may be found, in order, before duplicate
/// paths are left out: the `TOOL_FIRST_MEMORY_HOME` value (canonical), the
/// configured `memory_home` and `file.base_dir` (`~` expanded), the default,
/// and the legacy homes under the home directory that are present.
pub open spec fn home_sources(
    env_home: Option<Seq<char>>,
    cfg: Config,
    home: Option<Seq<char>>,
    config_dir: Option<Seq<char>>,
    present: Seq<bool>,
) -> Seq<(Seq<char>, Seq<char>, bool)> {
    opt_entry(env_home, "TOOL_FIRST_MEMORY_HOME"@, home, true) + opt_entry(
        opt_string_view(cfg.memory_home),
        "config.memory_home"@,
        home,
        false,
    ) + opt_entry(opt_string_view(cfg.file.base_dir), "config.file.base_dir"@, home, false)
        + seq![(default_home_under(config_dir), "default"@, false)] + match home {
        Some(h) => legacy_entries(h, legacy_homes(), present),
        None => Seq::empty(),
    }
}

/// The views of (path, source, canonical) entries.
pub open spec fn sources_view(v: Seq<(String, String, bool)>) -> Seq<(Seq<char>, Seq<char>, bool)> {
    v.map_values(|e: (String, String, bool)| (e.0@, e.1@, e.2))
}

/// The legacy homes under `home`, in the order of [`legacy_homes`].
pub fn legacy_home_paths(home: &str) -> (paths: Vec<String>)
    ensures
        strings_view(paths@) == legacy_homes().map_values(
            |e: (Seq<char>, Seq<char>)| joined(home@, e.0),
        ),
{
    let mut paths: Vec<String> = Vec::new();
    paths.push(join_path(home, ".config/tool-inventory/memory"));
    paths.push(join_path(home, ".hermes/tool-memory"));
    assert(strings_view(paths@) =~= legacy_homes().map_values(
        |e: (Seq<char>, Seq<char>)| joined(home@, e.0),
    ));
    paths
}

/// Appends an optional configured location, `~` expanded with `home`.
fn push_configured(
    v: &mut Vec<(String, String, bool)>,
    value: Option<&str>,
    source: &str,
    home: Option<&str>,
    canonical: bool,
)
    ensures
        sources_view(final(v)@) == sources_view(old(v)@) + opt_entry(
            opt_str_view(value),
            source@,
            opt_str_view(home),
            canonical,
        ),
{
    let ghost before = sources_view(v@);
    if let Some(x) = value {
        v.push((expand_home_with(x, home), owned(source), canonical));
    }
    assert(sources_view(v@) =~= before + opt_entry(
        opt_str_view(value),
        source@,
        opt_str_view(home),
        canonical,
    ));
}

/// Every place where a memory home may be found, before duplicate paths are
/// left out (see [`home_sources`]); `legacy_present` tells which legacy homes
/// (see [`legacy_home_paths`]) are present.
pub fn home_sources_with(
    env_home: Option<&str>,
    cfg: &Config,
    home: Option<&str>,
    config_dir: Option<&str>,
    legacy_present: &Vec<bool>,
) -> (v: Vec<(String, String, bool)>)
    requires
        legacy_present@.len() == legacy_homes().len(),
    ensures
        sources_view(v@) == home_sources(
            opt_str_view(env_home),
            *cfg,
            opt_str_view(home),
            opt_str_view(config_dir),
            legacy_present@,
        ),
{
    let mut v: Vec<(String, String, bool)> = Vec::new();
    push_configured(&mut v, env_home, "TOOL_FIRST_MEMORY_HOME", home, true);
    let mh = match &cfg.memory_home {
        Some(x) => Some(x.as_str()),
        None => None,
    };
    assert(opt_str_view(mh) == opt_string_view(cfg.memory_home));
    push_configured(&mut v, mh, "config.memory_home", home, false);
    let bd = match &cfg.file.base_dir {
        Some(x) => Some(x.as_str()),
        None => None,
    };
    assert(opt_str_view(bd) == opt_string_view(cfg.file.base_dir));
    push_configured(&mut v, bd, "config.file.base_dir", home, false);
    let ghost before_default = sources_view(v@);
    v.push((default_memory_home_under(config_dir), owned("default"), false));
    assert(sources_view(v@) =~= before_default + seq![
        (default_home_under(opt_str_view(config_dir)), "default"@, false),
    ]);
    let ghost fixed = sources_view(v@);
    if let Some(h) = home {
        let legacy = vec![
            (".config/tool-inventory/memory", "legacy:~/.config/tool-inventory/memory"),
            (".hermes/tool-memory", "legacy:~/.hermes/tool-memory"),
        ];
        let ghost lv = legacy@.map_values(|e: (&str, &str)| (e.0@, e.1@));
        assert(lv =~= legacy_homes());
        let m = legacy.len();
        assert(lv.take(0) =~= Seq::<(Seq<char>, Seq<char>)>::empty());
        assert(sources_view(v@) =~= fixed + legacy_entries(h@, lv.take(0), legacy_present@));
        for j in 0..m
            invariant
                m == legacy@.len(),
                m == legacy_present@.len(),
                lv == legacy@.map_values(|e: (&str, &str)| (e.0@, e.1@)),
                sources_view(v@) == fixed + legacy_entries(h@, lv.take(j as int), legacy_present@),
        {
            let ghost before = sources_view(v@);
            assert(lv.take(j + 1).drop_last() =~= lv.take(j as int));
            assert(lv.take(j + 1).last() == (legacy@[j as int].0@, legacy@[j as int].1@));
            assert(legacy_entries(h@, lv.take(j + 1), legacy_present@) == legacy_entries(
                h@,
                lv.take(j as int),
                legacy_present@,
            ) + if legacy_present@[j as int] {
                seq![(joined(h@, legacy@[j as int].0@), legacy@[j as int].1@, false)]
            } else {
                Seq::empty()
            });
            if legacy_present[j] {
                let entry = (join_path(h, legacy[j].0), owned(legacy[j].1), false);
                let ghost ev = (entry.0@, entry.1@, entry.2);
                v.push(entry);
                assert(sources_view(v@) =~= before.push(ev));
                assert(sources_view(v@) =~= fixed + legacy_entries(
                    h@,
                    lv.take(j + 1),
                    legacy_present@,
                ));
            } else {
                assert(sources_view(v@) =~= fixed + legacy_entries(
                    h@,
                    lv.take(j + 1),
                    legacy_present@,
                ));
            }
        }
        assert(lv.take(m as int) =~= lv);
    }
    assert(sources_view(v@) =~= home_sources(
        opt_str_view(env_home),
        *cfg,
        opt_str_view(home),
        opt_str_view(config_dir),
        legacy_present@,
    ));
    v
}

/// Appends a candidate unless a listed candidate already has the same path.
fn add_candidate(
    list: &mut Vec<MemoryHomeCandidate>,
    path: String,
    source: String,
    is_canonical: bool,
    has_marker: bool,
)
    requires
        distinct_paths(old(list)@),
    ensures
        distinct_paths(final(list)@),
        candidates_view(final(list)@) == push_new_path(
            candidates_view(old(list)@),
            (path@, source@, is_canonical, has_marker),
        ),
{
    let ghost d = candidates_view(list@);
    let ghost x = (path@, source@, is_canonical, has_marker);
    let n = list.len();
    let mut i: usize = 0;
    while i < n
        invariant
            n == list@.len(),
            i <= n,
            list@ == old(list)@,
            d == candidates_view(list@),
            x == (path@, source@, is_canonical, has_marker),
            distinct_paths(list@),
            forall|k: int| 0 <= k < i ==> !paths_equal(#[trigger] list@[k].path@, path@),
        decreases n - i,
    {
        if same_path(list[i].path.as_str(), path.as_str()) {
            assert(d[i as int].0 == list@[i as int].path@);
            assert(push_new_path(d, x) == d);
            return ;
        }
        i = i + 1;
    }
    assert(!(exists|k: int| 0 <= k < d.len() && paths_equal(#[trigger] d[k].0, x.0))) by {
        assert forall|k: int| 0 <= k < d.len() implies !paths_equal(#[trigger] d[k].0, x.0) by {
            assert(d[k].0 == list@[k].path@);
        }
    }
    let ghost old_list = list@;
    list.push(MemoryHomeCandidate { path, source, has_marker, is_canonical });
    assert(candidates_view(list@) =~= d.push(x));
    assert forall|a: int, b: int| 0 <= a < b < list@.len() implies !paths_equal(
        #[trigger] list@[a].path@,
        #[trigger] list@[b].path@,
    ) by {
        if b == n {
        } else {
            assert(list@[a] == old_list[a] && list@[b] == old_list[b]);
        }
    }
}

/// No listed path equals a later one.
pub open spec fn distinct_paths(list: Seq<MemoryHomeCandidate>) -> bool {
    forall|a: int, b: int|
        0 <= a < b < list.len() ==> !paths_equal(#[trigger] list[a].path@, #[trigger] list[b].path@)
}

/// Every place where a tool-memory home may be found, for conflict checks, with
/// the home and configuration directories given (see [`home_sources`]); a path
/// equal to an earlier candidate's is left out. `legacy_present` tells which
/// legacy homes are present, and `marker_present` which of the places (by
/// position in [`home_sources_with`]) hold a `.tool-memory-home` marker.
pub fn detect_memory_homes_with(
    env_home: Option<&str>,
    cfg: &Config,
    home: Option<&str>,
    config_dir: Option<&str>,
    legacy_present: &Vec<bool>,
    marker_present: &Vec<bool>,
) -> (list: Vec<MemoryHomeCandidate>)
    requires
        legacy_present@.len() == legacy_homes().len(),
        marker_present@.len() == home_sources(
            opt_str_view(env_home),
            *cfg,
            opt_str_view(home),
            opt_str_view(config_dir),
            legacy_present@,
        ).len(),
    ensures
        distinct_paths(list@),
        candidates_view(list@) == first_per_path(
            marked(
                home_sources(
                    opt_str_view(env_home),
                    *cfg,
                    opt_str_view(home),
                    opt_str_view(config_dir),
                    legacy_present@,
                ),
                marker_present@,
            ),
        ),
{
    let sources = home_sources_with(env_home, cfg, home, config_dir, legacy_present);
    let ghost sv = sources_view(sources@);
    let ghost all = marked(sv, marker_present@);
    let mut list: Vec<MemoryHomeCandidate> = Vec::new();
    let n = sources.len();
    assert(all.take(0) =~= Seq::<(Seq<char>, Seq<char>, bool, bool)>::empty());
    for i in 0..n
        invariant
            n == sources@.len(),
            n == marker_present@.len(),
            sv == sources_view(sources@),
            all == marked(sv, marker_present@),
            distinct_paths(list@),
            candidates_view(list@) == first_per_path(all.take(i as int)),
    {
        let x = (sources[i].0.clone(), sources[i].1.clone(), sources[i].2, marker_present[i]);
        assert(all.take(i + 1).drop_last() =~= all.take(i as int));
        assert(all.take(i + 1).last() == (x.0@, x.1@, x.2, x.3));
        add_candidate(&mut list, x.0, x.1, x.2, x.3);
    }
    assert(all.take(n as int) =~= all);
    list
}

/// Every place where a tool-memory home may be found, for conflict checks (see
/// [`detect_memory_homes_with`]), for the user's home and configuration
/// directories, with legacy homes and markers looked up on the file system.
pub fn detect_memory_homes(env_home: Option<&str>, cfg: &Config) -> (list: Vec<MemoryHomeCandidate>)
    ensures
        distinct_paths(list@),
        exists|
            home: Option<Seq<char>>,
            config_dir: Option<Seq<char>>,
            present: Seq<bool>,
            marks: Seq<bool>,
        |
            present.len() == legacy_homes().len() && marks.len() == home_sources(
                opt_str_view(env_home),
                *cfg,
                home,
                config_dir,
                present,
            ).len() && candidates_view(list@) == first_per_path(
                #[trigger] marked(
                    home_sources(opt_str_view(env_home), *cfg, home, config_dir, present),
                    marks,
                ),
            ),
{
    let home = home_dir_text();
    let dir = config_dir_text();
    let h = match &home {
        Some(x) => Some(x.as_str()),
        None => None,
    };
    let d = match &dir {
        Some(x) => Some(x.as_str()),
        None => None,
    };
    let mut present: Vec<bool> = Vec::new();
    match h {
        Some(hd) => {
            let paths = legacy_home_paths(hd);
            assert(strings_view(paths@).len() == paths@.len());
            present.push(path_exists(paths[0].as_str()));
            present.push(path_exists(paths[1].as_str()));
        },
        None => {
            present.push(false);
            present.push(false);
        },
    }
    let sources = home_sources_with(env_home, cfg, h, d, &present);
    let mut marks: Vec<bool> = Vec::new();
    let n = sources.len();
    for i in 0..n
        invariant
            n == sources@.len(),
            marks@.len() == i,
    {
        marks.push(has_marker(sources[i].0.as_str()));
    }
    assert(sources_view(sources@).len() == n);
    detect_memory_homes_with(env_home, cfg, h, d, &present, &marks)
}

/// How many of `flags` are `true`.
pub open spec fn count_true(flags: Seq<bool>) -> nat
    decreases flags.len(),
{
    if flags.len() == 0 {
        0
    } else {
        count_true(flags.drop_last()) + if flags.last() {
            1nat
        } else {
            0nat
        }
    }
}

/// How many memory-home candidates exist (`exists` tells which do), and whether
/// that is a conflict: more than one.
pub fn home_conflicts(exists: &Vec<bool>) -> (r: (usize, bool))
    ensures
        r.0 == count_true(exists@),
        r.1 == (count_true(exists@) > 1),
{
    let n = exists.len();
    let mut c: usize = 0;
    assert(exists@.take(0) =~= Seq::<bool>::empty());
    for i in 0..n
        invariant
            n == exists@.len(),
            c == count_true(exists@.take(i as int)),
            c <= i,
    {
        assert(exists@.take(i + 1).drop_last() =~= exists@.take(i as int));
        if exists[i] {
            c = c + 1;
        }
    }
    assert(exists@.take(n as int) =~= exists@);
    (c, c > 1)
}

/// Leaving out repeated paths loses no place: each place is listed itself, or
/// a listed candidate has an equal path.
pub proof fn lemma_first_per_path_covers(s: Seq<(Seq<char>, Seq<char>, bool, bool)>)
    ensures
        forall|j: int|
            0 <= j < s.len() ==> exists|k: int|
                0 <= k < first_per_path(s).len() && (first_per_path(s)[k] == #[trigger] s[j]
                    || paths_equal(first_per_path(s)[k].0, s[j].0)),
    decreases s.len(),
{
    if s.len() > 0 {
        let d = s.drop_last();
        lemma_first_per_path_covers(d);
        let fd = first_per_path(d);
        let f = first_per_path(s);
        assert(f == push_new_path(fd, s.last()));
        assert forall|j: int| 0 <= j < s.len() implies exists|k: int|
            0 <= k < f.len() && (f[k] == #[trigger] s[j] || paths_equal(f[k].0, s[j].0)) by {
            if j < s.len() - 1 {
                assert(d[j] == s[j]);
                let k = choose|k: int| 0 <= k < fd.len() && (fd[k] == d[j] || paths_equal(fd[k].0, d[j].0));
                assert(f[k] == fd[k]);
            } else {
                if exists|k: int| 0 <= k < fd.len() && paths_equal(#[trigger] fd[k].0, s.last().0) {
                    let k = choose|k: int| 0 <= k < fd.len() && paths_equal(#[trigger] fd[k].0, s.last().0);
                    assert(f[k] == fd[k]);
                } else {
                    assert(f[fd.len() as int] == s.last());
                }
            }
        }
    }
}

/// A legacy home that is present is a place where a memory home may be found,
/// under the home directory.
proof fn lemma_present_legacy_in_sources(
    env_home: Option<Seq<char>>,
    cfg: Config,
    home: Seq<char>,
    config_dir: Option<Seq<char>>,
    present: Seq<bool>,
    j: int,
)
    requires
        0 <= j < legacy_homes().len(),
        present.len() == legacy_homes().len(),
        present[j],
    ensures
        home_sources(env_home, cfg, Some(home), config_dir, present).contains(
            (joined(home, legacy_homes()[j].0), legacy_homes()[j].1, false),
        ),
{
    let l = legacy_homes();
    let x = (joined(home, l[j].0), l[j].1, false);
    let e = legacy_entries(home, l, present);
    let e1 = legacy_entries(home, l.drop_last(), present);
    assert(l.drop_last().drop_last() =~= Seq::<(Seq<char>, Seq<char>)>::empty());
    assert(l.drop_last().last() == l[0]);
    assert(l.last() == l[1]);
    let src = home_sources(env_home, cfg, Some(home), config_dir, present);
    let fixed = opt_entry(env_home, "TOOL_FIRST_MEMORY_HOME"@, Some(home), true) + opt_entry(
        opt_string_view(cfg.memory_home),
        "config.memory_home"@,
        Some(home),
        false,
    ) + opt_entry(opt_string_view(cfg.file.base_dir), "config.file.base_dir"@, Some(home), false)
        + seq![(default_home_under(config_dir), "default"@, false)];
    assert(src == fixed + e);
    assert(legacy_entries(home, l.drop_last().drop_last(), present) == Seq::<
        (Seq<char>, Seq<char>, bool),
    >::empty());
    assert(l.drop_last().len() == 1);
    if j == 0 {
        assert(e1 =~= seq![x]);
        assert(e[0] == x);
        assert(src[fixed.len() as int] == x);
    } else {
        assert(e[e.len() - 1] == x);
        assert(src[src.len() - 1] == x);
    }
}

/// A legacy home that is present is listed as a candidate, unless an earlier
/// candidate has an equal path.
pub proof fn lemma_present_legacy_home_listed(
    env_home: Option<Seq<char>>,
    cfg: Config,
    home: Seq<char>,
    config_dir: Option<Seq<char>>,
    present: Seq<bool>,
    marks: Seq<bool>,
    j: int,
)
    requires
        0 <= j < legacy_homes().len(),
        present.len() == legacy_homes().len(),
        present[j],
        marks.len() == home_sources(env_home, cfg, Some(home), config_dir, present).len(),
    ensures
        ({
            let list = first_per_path(
                marked(home_sources(env_home, cfg, Some(home), config_dir, present), marks),
            );
            let p = joined(home, legacy_homes()[j].0);
            exists|k: int|
                0 <= k < list.len() && ((list[k].0 == p && list[k].1 == legacy_homes()[j].1)
                    || paths_equal(#[trigger] list[k].0, p))
        }),
{
    let src = home_sources(env_home, cfg, Some(home), config_dir, present);
    let m = marked(src, marks);
    let list = first_per_path(m);
    let p = joined(home, legacy_homes()[j].0);
    lemma_present_legacy_in_sources(env_home, cfg, home, config_dir, present, j);
    let x = (p, legacy_homes()[j].1, false);
    let i = choose|i: int| 0 <= i < src.len() && src[i] == x;
    assert(m[i].0 == p && m[i].1 == legacy_homes()[j].1);
    lemma_first_per_path_covers(m);
    let k = choose|k: int| 0 <= k < list.len() && (list[k] == #[trigger] m[i] || paths_equal(list[k].0, m[i].0));
    assert((list[k].0 == p && list[k].1 == legacy_homes()[j].1) || paths_equal(list[k].0, p));
}

} // verus!

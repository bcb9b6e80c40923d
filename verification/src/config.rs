//! Configuration of the tool-memory home, and where the configuration file is
//! looked for.
use vstd::prelude::*;
use crate::registry::{opt_str_view, opt_string_view};
use crate::resolver::{config_dir_text, expand_home, expand_home_with, home_dir_text, join_path, joined};
use crate::text::strings_view;

verus! {

/// Settings read from the configuration file.
pub struct Config {
    pub memory_home: Option<String>,
    pub canonical: Option<bool>,
    pub authority: Option<String>,
    pub write_policy: WritePolicy,
    pub file: FileConfig,
}

/// How the store may be written.
pub struct WritePolicy {
    pub allow_create_new_home: Option<bool>,
    pub append_only: Option<bool>,
    pub atomic_write: Option<bool>,
}

/// Settings of the file adapter.
pub struct FileConfig {
    pub base_dir: Option<String>,
}

impl Default for WritePolicy {
    fn default() -> (p: WritePolicy)
        ensures
            p.allow_create_new_home is None,
            p.append_only is None,
            p.atomic_write is None,
    {
        WritePolicy { allow_create_new_home: None, append_only: None, atomic_write: None }
    }
}

impl Default for FileConfig {
    fn default() -> (f: FileConfig)
        ensures
            f.base_dir is None,
    {
        FileConfig { base_dir: None }
    }
}

impl Default for Config {
    fn default() -> (c: Config)
        ensures
            c.memory_home is None,
            c.canonical is None,
            c.authority is None,
            c.write_policy.allow_create_new_home is None,
            c.write_policy.append_only is None,
            c.write_policy.atomic_write is None,
            c.file.base_dir is None,
    {
        Config {
            memory_home: None,
            canonical: None,
            authority: None,
            write_policy: WritePolicy::default(),
            file: FileConfig::default(),
        }
    }
}

// ---------------------------------------------------------------------------
// Where the configuration file is looked for
// ---------------------------------------------------------------------------
/// The position of the first `true` among `flags` from position `i` on.
pub open spec fn first_true(flags: Seq<bool>, i: nat) -> Option<int>
    decreases flags.len() - i,
{
    if i >= flags.len() {
        None
    } else if flags[i as int] {
        Some(i as int)
    } else {
        first_true(flags, i + 1)
    }
}

/// The position of the first `true` among `flags`.
pub fn first_true_index(flags: &Vec<bool>) -> (r: Option<usize>)
    ensures
        match r {
            Some(i) => first_true(flags@, 0) == Some(i as int),
            None => first_true(flags@, 0) is None,
        },
        r is Some ==> r->0 < flags@.len(),
{
    let n = flags.len();
    let mut i: usize = 0;
    while i < n
        invariant
            n == flags@.len(),
            i <= n,
            first_true(flags@, 0) == first_true(flags@, i as nat),
        decreases n - i,
    {
        if flags[i] {
            return Some(i);
        }
        i = i + 1;
    }
    None
}

/// The configuration files looked for, in order: the `TOOL_FIRST_MEMORY_CONFIG`
/// value (`~` expanded), `memory_config.yaml` in the working directory and in
/// its `crates/tool-first`, `config.yaml` and `memory_config.yaml` in the
/// `tool-first-agent` directory of the configuration directory, and the
/// skill directories of the agents under the home directory. Unknown
/// locations contribute nothing.
pub open spec fn config_paths(
    env_path: Option<Seq<char>>,
    cwd: Option<Seq<char>>,
    config_dir: Option<Seq<char>>,
    home: Option<Seq<char>>,
) -> Seq<Seq<char>> {
    (match env_path {
        Some(e) => seq![expand_home(e, home)],
        None => Seq::empty(),
    }) + (match cwd {
        Some(c) => seq![
            joined(c, "memory_config.yaml"@),
            joined(joined(joined(c, "crates"@), "tool-first"@), "memory_config.yaml"@),
        ],
        None => Seq::empty(),
    }) + (match config_dir {
        Some(d) => seq![
            joined(joined(d, "tool-first-agent"@), "config.yaml"@),
            joined(joined(d, "tool-first-agent"@), "memory_config.yaml"@),
        ],
        None => Seq::empty(),
    }) + (match home {
        Some(h) => seq![
            joined(h, ".hermes/skills/devops/tool-first-agent/memory_config.yaml"@),
            joined(h, ".codex/skills/tool-first-agent/memory_config.yaml"@),
        ],
        None => Seq::empty(),
    })
}

/// The configuration files looked for, given the locations (see [`config_paths`]).
pub fn config_search_paths_with(
    env_path: Option<&str>,
    cwd: Option<&str>,
    config_dir: Option<&str>,
    home: Option<&str>,
) -> (paths: Vec<String>)
    ensures
        strings_view(paths@) == config_paths(
            opt_str_view(env_path),
            opt_str_view(cwd),
            opt_str_view(config_dir),
            opt_str_view(home),
        ),
{
    let mut paths: Vec<String> = Vec::new();
    if let Some(e) = env_path {
        paths.push(expand_home_with(e, home));
    }
    let ghost a = strings_view(paths@);
    if let Some(c) = cwd {
        paths.push(join_path(c, "memory_config.yaml"));
        let crates = join_path(c, "crates");
        let sub = join_path(crates.as_str(), "tool-first");
        paths.push(join_path(sub.as_str(), "memory_config.yaml"));
    }
    let ghost b = strings_view(paths@);
    if let Some(d) = config_dir {
        let dir = join_path(d, "tool-first-agent");
        paths.push(join_path(dir.as_str(), "config.yaml"));
        paths.push(join_path(dir.as_str(), "memory_config.yaml"));
    }
    let ghost c = strings_view(paths@);
    if let Some(h) = home {
        paths.push(join_path(h, ".hermes/skills/devops/tool-first-agent/memory_config.yaml"));
        paths.push(join_path(h, ".codex/skills/tool-first-agent/memory_config.yaml"));
    }
    assert(strings_view(paths@) =~= config_paths(
        opt_str_view(env_path),
        opt_str_view(cwd),
        opt_str_view(config_dir),
        opt_str_view(home),
    ));
    paths
}

/// The configuration files looked for (see [`config_paths`]), for the user's
/// configuration and home directories.
pub fn config_search_paths(env_path: Option<&str>, cwd: Option<&str>) -> (paths: Vec<String>)
    ensures
        exists|config_dir: Option<Seq<char>>, home: Option<Seq<char>>|
            strings_view(paths@) == #[trigger] config_paths(
                opt_str_view(env_path),
                opt_str_view(cwd),
                config_dir,
                home,
            ),
{
    let dir = config_dir_text();
    let home = home_dir_text();
    let d = match &dir {
        Some(x) => Some(x.as_str()),
        None => None,
    };
    let h = match &home {
        Some(x) => Some(x.as_str()),
        None => None,
    };
    let paths = config_search_paths_with(env_path, cwd, d, h);
    assert(opt_str_view(d) == opt_string_view(dir));
    assert(opt_str_view(h) == opt_string_view(home));
    paths
}

/// The configuration file to read: the first of `paths` that is a file
/// (`is_file` tells which are), or `None`.
pub fn find_config_path(paths: &Vec<String>, is_file: &Vec<bool>) -> (r: Option<String>)
    requires
        paths@.len() == is_file@.len(),
    ensures
        match first_true(is_file@, 0) {
            Some(i) => r is Some && r->0@ == paths@[i]@,
            None => r is None,
        },
{
    match first_true_index(is_file) {
        Some(i) => Some(paths[i].clone()),
        None => None,
    }
}

} // verus!

//! Tool-memory records and their enrichment with infrastructure defaults.
use vstd::prelude::*;
use crate::registry::{clone_strings, opt_str_view, opt_string_view};
use crate::text::{concat, owned, strings_view};

verus! {

/// A tool-memory record: availability, a recipe, a failure or a policy.
pub struct MemoryRecord {
    pub namespace: Option<String>,
    pub memory_type: Option<String>,
    pub record_type: Option<String>,
    pub category: Option<String>,
    pub tool: Option<String>,
    pub task: Option<String>,
    pub status: Option<String>,
    pub scope: Option<String>,
    pub verified_at: Option<String>,
    pub created_at: Option<String>,
    pub tags: Option<Vec<String>>,
    pub source_agent: Option<String>,
    pub os: Option<String>,
    pub arch: Option<String>,
    pub authority: Option<String>,
    pub path: Option<String>,
    pub version: Option<String>,
    pub command_template: Option<String>,
    pub command: Option<String>,
    pub failure_reason: Option<String>,
    pub notes: Option<String>,
    pub doc_id: Option<String>,
}

/// The view of an optional list of strings.
pub open spec fn opt_strings_view(o: Option<Vec<String>>) -> Option<Seq<Seq<char>>> {
    match o {
        Some(v) => Some(strings_view(v@)),
        None => None,
    }
}

/// A field after defaulting: kept when present, else `d`.
pub open spec fn or_default(o: Option<String>, d: Seq<char>) -> Option<Seq<char>> {
    match o {
        Some(s) => Some(s@),
        None => Some(d),
    }
}

/// The tags given to a record that has none.
pub open spec fn default_tags(category: Option<String>) -> Seq<Seq<char>> {
    match category {
        Some(c) => seq!["tool-inventory"@, "tool-category-"@ + c@],
        None => seq!["tool-inventory"@],
    }
}

/// `new` is `old` with missing infrastructure fields filled in, the timestamps
/// taking `now`, the agent name taking `agent` (or "unknown"); the authority of
/// tool-memory is always `runtime-infrastructure`.
pub open spec fn enriched(
    old: MemoryRecord,
    new: MemoryRecord,
    now: Seq<char>,
    os: Seq<char>,
    arch: Seq<char>,
    agent: Option<Seq<char>>,
) -> bool {
    &&& opt_string_view(new.created_at) == or_default(old.created_at, now)
    &&& opt_string_view(new.verified_at) == or_default(old.verified_at, now)
    &&& opt_string_view(new.authority) == Some("runtime-infrastructure"@)
    &&& opt_string_view(new.os) == or_default(old.os, os)
    &&& opt_string_view(new.arch) == or_default(old.arch, arch)
    &&& opt_string_view(new.source_agent) == or_default(
        old.source_agent,
        match agent {
            Some(a) => a,
            None => "unknown"@,
        },
    )
    &&& opt_string_view(new.namespace) == or_default(old.namespace, "agent_tool_inventory"@)
    &&& opt_string_view(new.memory_type) == or_default(old.memory_type, "tool_inventory"@)
    &&& opt_string_view(new.scope) == or_default(old.scope, "local_machine"@)
    &&& opt_strings_view(new.tags) == match old.tags {
        Some(t) => Some(strings_view(t@)),
        None => Some(default_tags(old.category)),
    }
    &&& new.record_type == old.record_type
    &&& new.category == old.category
    &&& new.tool == old.tool
    &&& new.task == old.task
    &&& new.status == old.status
    &&& new.path == old.path
    &&& new.version == old.version
    &&& new.command_template == old.command_template
    &&& new.command == old.command
    &&& new.failure_reason == old.failure_reason
    &&& new.notes == old.notes
    &&& new.doc_id == old.doc_id
}

/// Fills a missing field with a default.
fn fill(field: &mut Option<String>, d: &str)
    ensures
        opt_string_view(*final(field)) == or_default(*old(field), d@),
{
    if field.is_none() {
        *field = Some(owned(d));
    }
}

/// The tags given to a record without tags.
fn tags_for(category: &Option<String>) -> (t: Vec<String>)
    ensures
        strings_view(t@) == default_tags(*category),
{
    let mut t: Vec<String> = Vec::new();
    t.push(owned("tool-inventory"));
    if let Some(c) = category {
        t.push(concat("tool-category-", c.as_str()));
    }
    assert(strings_view(t@) =~= default_tags(*category));
    t
}

impl MemoryRecord {
    /// An empty record.
    pub fn empty() -> (r: MemoryRecord)
        ensures
            r.namespace is None && r.memory_type is None && r.record_type is None && r.category is None
                && r.tool is None && r.task is None && r.status is None && r.scope is None
                && r.verified_at is None && r.created_at is None && r.tags is None
                && r.source_agent is None && r.os is None && r.arch is None && r.authority is None
                && r.path is None && r.version is None && r.command_template is None
                && r.command is None && r.failure_reason is None && r.notes is None
                && r.doc_id is None,
    {
        MemoryRecord {
            namespace: None,
            memory_type: None,
            record_type: None,
            category: None,
            tool: None,
            task: None,
            status: None,
            scope: None,
            verified_at: None,
            created_at: None,
            tags: None,
            source_agent: None,
            os: None,
            arch: None,
            authority: None,
            path: None,
            version: None,
            command_template: None,
            command: None,
            failure_reason: None,
            notes: None,
            doc_id: None,
        }
    }

    /// Fills missing infrastructure fields, timestamps taking `now` (the
    /// caller's clock), and marks the record as runtime-infrastructure authority.
    pub fn enrich(&mut self, now: &str, os: &str, arch: &str, agent: Option<&str>)
        ensures
            enriched(
                *old(self),
                *final(self),
                now@,
                os@,
                arch@,
                opt_str_view(agent),
            ),
    {
        fill(&mut self.created_at, now);
        fill(&mut self.verified_at, now);
        self.authority = Some(owned("runtime-infrastructure"));
        fill(&mut self.os, os);
        fill(&mut self.arch, arch);
        match agent {
            Some(a) => fill(&mut self.source_agent, a),
            None => fill(&mut self.source_agent, "unknown"),
        }
        fill(&mut self.namespace, "agent_tool_inventory");
        fill(&mut self.memory_type, "tool_inventory");
        fill(&mut self.scope, "local_machine");
        if self.tags.is_none() {
            self.tags = Some(tags_for(&self.category));
        } else {
            proof {
                let t = self.tags.unwrap();
                assert(opt_strings_view(self.tags) == Some(strings_view(t@)));
            }
        }
    }
}

/// A copy of an optional string.
pub fn clone_opt(o: &Option<String>) -> (r: Option<String>)
    ensures
        opt_string_view(r) == opt_string_view(*o),
{
    match o {
        Some(s) => Some(s.clone()),
        None => None,
    }
}

/// A copy of a record.
pub fn clone_record(r: &MemoryRecord) -> (c: MemoryRecord)
    ensures
        record_view(c) == record_view(*r),
{
    MemoryRecord {
        namespace: clone_opt(&r.namespace),
        memory_type: clone_opt(&r.memory_type),
        record_type: clone_opt(&r.record_type),
        category: clone_opt(&r.category),
        tool: clone_opt(&r.tool),
        task: clone_opt(&r.task),
        status: clone_opt(&r.status),
        scope: clone_opt(&r.scope),
        verified_at: clone_opt(&r.verified_at),
        created_at: clone_opt(&r.created_at),
        tags: match &r.tags {
            Some(t) => Some(clone_strings(t)),
            None => None,
        },
        source_agent: clone_opt(&r.source_agent),
        os: clone_opt(&r.os),
        arch: clone_opt(&r.arch),
        authority: clone_opt(&r.authority),
        path: clone_opt(&r.path),
        version: clone_opt(&r.version),
        command_template: clone_opt(&r.command_template),
        command: clone_opt(&r.command),
        failure_reason: clone_opt(&r.failure_reason),
        notes: clone_opt(&r.notes),
        doc_id: clone_opt(&r.doc_id),
    }
}

/// The mathematical content of a record.
pub struct MemoryRecordView {
    pub namespace: Option<Seq<char>>,
    pub memory_type: Option<Seq<char>>,
    pub record_type: Option<Seq<char>>,
    pub category: Option<Seq<char>>,
    pub tool: Option<Seq<char>>,
    pub task: Option<Seq<char>>,
    pub status: Option<Seq<char>>,
    pub scope: Option<Seq<char>>,
    pub verified_at: Option<Seq<char>>,
    pub created_at: Option<Seq<char>>,
    pub tags: Option<Seq<Seq<char>>>,
    pub source_agent: Option<Seq<char>>,
    pub os: Option<Seq<char>>,
    pub arch: Option<Seq<char>>,
    pub authority: Option<Seq<char>>,
    pub path: Option<Seq<char>>,
    pub version: Option<Seq<char>>,
    pub command_template: Option<Seq<char>>,
    pub command: Option<Seq<char>>,
    pub failure_reason: Option<Seq<char>>,
    pub notes: Option<Seq<char>>,
    pub doc_id: Option<Seq<char>>,
}

/// The view of a record.
pub open spec fn record_view(r: MemoryRecord) -> MemoryRecordView {
    MemoryRecordView {
        namespace: opt_string_view(r.namespace),
        memory_type: opt_string_view(r.memory_type),
        record_type: opt_string_view(r.record_type),
        category: opt_string_view(r.category),
        tool: opt_string_view(r.tool),
        task: opt_string_view(r.task),
        status: opt_string_view(r.status),
        scope: opt_string_view(r.scope),
        verified_at: opt_string_view(r.verified_at),
        created_at: opt_string_view(r.created_at),
        tags: opt_strings_view(r.tags),
        source_agent: opt_string_view(r.source_agent),
        os: opt_string_view(r.os),
        arch: opt_string_view(r.arch),
        authority: opt_string_view(r.authority),
        path: opt_string_view(r.path),
        version: opt_string_view(r.version),
        command_template: opt_string_view(r.command_template),
        command: opt_string_view(r.command),
        failure_reason: opt_string_view(r.failure_reason),
        notes: opt_string_view(r.notes),
        doc_id: opt_string_view(r.doc_id),
    }
}

/// Enriching is idempotent: an enriched record has every infrastructure field,
/// so enriching it again, at any time and on any machine, changes nothing.
pub proof fn lemma_enrich_idempotent(
    a: MemoryRecord,
    b: MemoryRecord,
    c: MemoryRecord,
    now1: Seq<char>,
    os1: Seq<char>,
    arch1: Seq<char>,
    agent1: Option<Seq<char>>,
    now2: Seq<char>,
    os2: Seq<char>,
    arch2: Seq<char>,
    agent2: Option<Seq<char>>,
)
    requires
        enriched(a, b, now1, os1, arch1, agent1),
        enriched(b, c, now2, os2, arch2, agent2),
    ensures
        record_view(c) == record_view(b),
{
}

} // verus!

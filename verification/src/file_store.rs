//! The file-based tool-memory store: record file names, which files hold
//! records, and how records are searched.
//!
//! Reading and writing the files is done by the caller.
use vstd::prelude::*;
use crate::memory::{MemoryRecord, opt_strings_view};
use crate::order::{
    insert_stable, lemma_insert_stable_at, lemma_sort_stable_multiset, lemma_sort_stable_sorted,
    sort_stable, sorted_by, total_preorder,
};
use crate::registry::{opt_str_view, opt_string_view};
use crate::text::{
    has_substring, occurs_at, Separator, alphanumeric, chars_of, chars_view, concat, contains_char, copy_chars, insert_sorted_unique, lemma_strictly_sorted_unique, lemma_lex_irreflexive, lemma_lex_total,
    lemma_lex_transitive,
    is_alphanumeric, join_spaced, lex_less, lex_lt, lowercase, owned, push_char, push_str,
    split_chars, split_on, starts_with, starts_with_chars, str_eq, strictly_sorted, strings_from,
    strings_view, strs_view, to_lowercase,
};
use crate::detect::contains_string;
use crate::registry::join_with_spaces;

verus! {

// ---------------------------------------------------------------------------
// Tokens
// ---------------------------------------------------------------------------
/// The pieces of text between word breaks (anything but alphanumerics and `_`).
pub open spec fn word_pieces(text: Seq<char>) -> Seq<Seq<char>> {
    split_on(text, Separator::WordBreak.pred())
}

/// The non-empty words among the first `k` pieces.
pub open spec fn word_set(ws: Seq<Seq<char>>, k: nat) -> Set<Seq<char>>
    decreases k,
{
    if k == 0 || k > ws.len() {
        Set::empty()
    } else if ws[k - 1].len() > 0 {
        word_set(ws, (k - 1) as nat).insert(ws[k - 1])
    } else {
        word_set(ws, (k - 1) as nat)
    }
}

/// The `_`-separated pieces (empty ones included) of the words among the first
/// `k` pieces that contain `_`.
pub open spec fn underscore_set(ws: Seq<Seq<char>>, k: nat) -> Set<Seq<char>>
    decreases k,
{
    if k == 0 || k > ws.len() {
        Set::empty()
    } else if ws[k - 1].len() > 0 && ws[k - 1].contains('_') {
        underscore_set(ws, (k - 1) as nat) + split_on(ws[k - 1], Separator::Underscore.pred()).to_set()
    } else {
        underscore_set(ws, (k - 1) as nat)
    }
}

/// The tokens of an (already lowercased) text: its non-empty words, and the
/// `_`-separated pieces (empty ones included) of the words that contain `_`.
pub open spec fn token_set(text: Seq<char>) -> Set<Seq<char>> {
    let ws = word_pieces(text);
    word_set(ws, ws.len()) + underscore_set(ws, ws.len())
}

/// `t` is a token of the (already lowercased) text.
pub open spec fn is_token(text: Seq<char>, t: Seq<char>) -> bool {
    token_set(text).contains(t)
}

/// `s` lists the tokens of `text` (lowercased), sorted, each once.
pub open spec fn lists_tokens(text: Seq<char>, s: Seq<Seq<char>>) -> bool {
    strictly_sorted(s) && s.to_set() == token_set(lowercase(text))
}

/// The tokens of a text: its lowercased tokens, sorted, each once.
pub open spec fn token_list(text: Seq<char>) -> Seq<Seq<char>> {
    choose|s: Seq<Seq<char>>| lists_tokens(text, s)
}

/// Inserts into a sorted set of character sequences.
fn add_token(sorted: &mut Vec<Vec<char>>, x: &Vec<char>)
    requires
        strictly_sorted(chars_view(old(sorted)@)),
    ensures
        strictly_sorted(chars_view(final(sorted)@)),
        chars_view(final(sorted)@).to_set() == chars_view(old(sorted)@).to_set().insert(x@),
{
    let ghost before = chars_view(sorted@);
    let p = copy_chars(x);
    insert_sorted_unique(sorted, p);
    assert(chars_view(sorted@).to_set() =~= before.to_set().insert(x@));
}

/// The tokens of a text: its lowercased tokens, sorted, each once (see [`token_set`]).
pub fn tokenize(text: &str) -> (tokens: Vec<String>)
    ensures
        strings_view(tokens@) == token_list(text@),
        lists_tokens(text@, strings_view(tokens@)),
{
    let lowered = chars_of(to_lowercase(text).as_str());
    let ghost l = lowercase(text@);
    let pieces = split_chars(&lowered, &Separator::WordBreak);
    let ghost ws = chars_view(pieces@);
    let mut sorted: Vec<Vec<char>> = Vec::new();
    let n = pieces.len();
    assert(chars_view(sorted@).to_set() =~= Set::<Seq<char>>::empty());
    for k in 0..n
        invariant
            n == pieces@.len(),
            ws == chars_view(pieces@),
            ws == word_pieces(l),
            strictly_sorted(chars_view(sorted@)),
            chars_view(sorted@).to_set() == word_set(ws, k as nat),
    {
        assert(ws[k as int] == pieces@[k as int]@);
        if pieces[k].len() > 0 {
            add_token(&mut sorted, &pieces[k]);
        }
    }
    let ghost words = word_set(ws, n as nat);
    assert(underscore_set(ws, 0) =~= Set::<Seq<char>>::empty());
    assert(words + underscore_set(ws, 0) =~= words);
    for k in 0..n
        invariant
            n == pieces@.len(),
            ws == chars_view(pieces@),
            words == word_set(ws, n as nat),
            strictly_sorted(chars_view(sorted@)),
            chars_view(sorted@).to_set() == words + underscore_set(ws, k as nat),
    {
        assert(ws[k as int] == pieces@[k as int]@);
        let ghost before = chars_view(sorted@).to_set();
        if pieces[k].len() > 0 && contains_char(&pieces[k], '_') {
            let subs = split_chars(&pieces[k], &Separator::Underscore);
            let ghost sv = chars_view(subs@);
            let m = subs.len();
            assert(before + sv.take(0).to_set() =~= before);
            for j in 0..m
                invariant
                    m == subs@.len(),
                    sv == chars_view(subs@),
                    strictly_sorted(chars_view(sorted@)),
                    chars_view(sorted@).to_set() == before + sv.take(j as int).to_set(),
            {
                assert(sv[j as int] == subs@[j as int]@);
                add_token(&mut sorted, &subs[j]);
                assert(sv.take(j + 1) =~= sv.take(j as int) + seq![sv[j as int]]);
                proof {
                    Seq::<Seq<char>>::lemma_to_set_insert_commutes(sv.take(j as int), sv[j as int]);
                }
                assert(chars_view(sorted@).to_set() =~= before + sv.take(j + 1).to_set());
            }
            assert(sv.take(m as int) =~= sv);
            assert(words + underscore_set(ws, (k + 1) as nat) =~= before + sv.to_set());
        }
    }
    let tokens = strings_from(&sorted);
    proof {
        let tv = strings_view(tokens@);
        assert(tv.to_set() =~= token_set(l));
        assert(lists_tokens(text@, tv));
        let c = token_list(text@);
        assert(lists_tokens(text@, c));
        assert forall|t: Seq<char>| tv.contains(t) <==> c.contains(t) by {
            assert(tv.to_set().contains(t) == tv.contains(t));
            assert(c.to_set().contains(t) == c.contains(t));
        }
        lemma_strictly_sorted_unique(tv, c);
    }
    tokens
}

// ---------------------------------------------------------------------------
// Scoring and recall
// ---------------------------------------------------------------------------
/// An optional field as a list of zero or one part.
pub open spec fn part(o: Option<String>) -> Seq<Seq<char>> {
    match o {
        Some(s) => seq![s@],
        None => Seq::empty(),
    }
}

/// The text of a record that a query is matched against: category, tool, task,
/// status, path, version, command template, command, failure reason, source
/// agent and tags, where present.
pub open spec fn record_parts(r: MemoryRecord) -> Seq<Seq<char>> {
    part(r.category) + part(r.tool) + part(r.task) + part(r.status) + part(r.path) + part(r.version)
        + part(r.command_template) + part(r.command) + part(r.failure_reason) + part(r.source_agent)
        + match r.tags {
        Some(t) => strings_view(t@),
        None => Seq::empty(),
    }
}

/// How many of `terms` are tokens of `hay` (a lowercased text).
pub open spec fn count_tokens(terms: Seq<Seq<char>>, hay: Seq<char>) -> nat
    decreases terms.len(),
{
    if terms.len() == 0 {
        0
    } else {
        count_tokens(terms.drop_last(), hay) + if is_token(hay, terms.last()) {
            1nat
        } else {
            0nat
        }
    }
}

/// The score of a record: how many query terms are tokens of its text.
pub open spec fn record_score(r: MemoryRecord, terms: Seq<Seq<char>>) -> nat {
    count_tokens(terms, lowercase(join_spaced(record_parts(r))))
}

/// Adds an optional field to the parts.
fn push_part<'a>(parts: &mut Vec<&'a str>, o: &'a Option<String>)
    ensures
        strs_view(final(parts)@) == strs_view(old(parts)@) + part(*o),
{
    let ghost before = strs_view(parts@);
    if let Some(s) = o {
        parts.push(s.as_str());
    }
    assert(strs_view(parts@) =~= before + part(*o));
}

/// The parts of a record's text.
fn parts_of(record: &MemoryRecord) -> (parts: Vec<&str>)
    ensures
        strs_view(parts@) == record_parts(*record),
{
    let mut parts: Vec<&str> = Vec::new();
    push_part(&mut parts, &record.category);
    push_part(&mut parts, &record.tool);
    push_part(&mut parts, &record.task);
    push_part(&mut parts, &record.status);
    push_part(&mut parts, &record.path);
    push_part(&mut parts, &record.version);
    push_part(&mut parts, &record.command_template);
    push_part(&mut parts, &record.command);
    push_part(&mut parts, &record.failure_reason);
    push_part(&mut parts, &record.source_agent);
    let ghost before = strs_view(parts@);
    if let Some(tags) = &record.tags {
        let n = tags.len();
        for i in 0..n
            invariant
                n == tags@.len(),
                strs_view(parts@) == before + strings_view(tags@).take(i as int),
        {
            let ghost b = strs_view(parts@);
            parts.push(tags[i].as_str());
            assert(strs_view(parts@) =~= b.push(tags@[i as int]@));
            assert(strings_view(tags@).take(i + 1) =~= strings_view(tags@).take(i as int).push(
                tags@[i as int]@,
            ));
        }
        assert(strings_view(tags@).take(n as int) =~= strings_view(tags@));
    } else {
        assert(before + Seq::<Seq<char>>::empty() =~= before);
    }
    parts
}

/// How many query terms are tokens of the record's text.
pub fn score_record(record: &MemoryRecord, terms: &Vec<String>) -> (score: usize)
    ensures
        score == record_score(*record, strings_view(terms@)),
{
    let parts = parts_of(record);
    let joined = join_with_spaces(&parts);
    let hay = tokenize(joined.as_str());
    let ghost h = lowercase(join_spaced(record_parts(*record)));
    let ghost tv = strings_view(terms@);
    let mut score: usize = 0;
    let n = terms.len();
    assert(tv.take(0) =~= Seq::<Seq<char>>::empty());
    for k in 0..n
        invariant
            n == terms@.len(),
            tv == strings_view(terms@),
            h == lowercase(join_spaced(record_parts(*record))),
            forall|t: Seq<char>| strings_view(hay@).contains(t) <==> is_token(h, t),
            score == count_tokens(tv.take(k as int), h),
            score <= k,
    {
        assert(tv.take(k + 1).drop_last() =~= tv.take(k as int));
        assert(tv.take(k + 1).last() == terms@[k as int]@);
        if contains_string(&hay, terms[k].as_str()) {
            score = score + 1;
        }
    }
    assert(tv.take(n as int) =~= tv);
    score
}

/// The record passes the optional category filter: its category is the one
/// asked for, or it carries the tag `tool-category-<category>`.
pub open spec fn in_category(r: MemoryRecord, category: Option<Seq<char>>) -> bool {
    match category {
        None => true,
        Some(c) => opt_string_view(r.category) == Some(c) || match r.tags {
            Some(t) => strings_view(t@).contains("tool-category-"@ + c),
            None => false,
        },
    }
}

/// (score, position) of the records that pass the filter and score above zero,
/// in input order.
pub open spec fn scored_records(records: Seq<MemoryRecord>, terms: Seq<Seq<char>>, category: Option<Seq<char>>) -> Seq<
    (nat, nat),
>
    decreases records.len(),
{
    if records.len() == 0 {
        Seq::empty()
    } else {
        let r = records.last();
        let s = record_score(r, terms);
        scored_records(records.drop_last(), terms, category) + if in_category(r, category) && s > 0 {
            seq![(s, (records.len() - 1) as nat)]
        } else {
            Seq::empty()
        }
    }
}

/// When a record was created, empty when unknown.
pub open spec fn created_key(r: MemoryRecord) -> Seq<char> {
    match r.created_at {
        Some(s) => s@,
        None => Seq::empty(),
    }
}

/// Recall order: higher score first, then later creation time first.
pub open spec fn recall_before(records: Seq<MemoryRecord>, a: (nat, nat), b: (nat, nat)) -> bool {
    a.0 > b.0 || (a.0 == b.0 && !lex_lt(
        created_key(records[a.1 as int]),
        created_key(records[b.1 as int]),
    ))
}

/// Recall order as a closure.
pub open spec fn recall_order(records: Seq<MemoryRecord>) -> spec_fn((nat, nat), (nat, nat)) -> bool {
    |a: (nat, nat), b: (nat, nat)| recall_before(records, a, b)
}

/// The positions of the recalled records, best first: the records in the
/// category (any, when `None`) sharing at least one token with the query,
/// stably sorted by score and then creation time, at most `limit` of them.
pub open spec fn recall_positions(
    records: Seq<MemoryRecord>,
    query: Seq<char>,
    category: Option<Seq<char>>,
    limit: nat,
) -> Seq<nat> {
    let terms = token_list(query);
    let sorted = sort_stable(scored_records(records, terms, category), recall_order(records));
    let chosen = if sorted.len() <= limit {
        sorted
    } else {
        sorted.take(limit as int)
    };
    chosen.map_values(|p: (nat, nat)| p.1)
}

/// Whether the record passes the category filter.
fn passes_category(r: &MemoryRecord, category: Option<&str>) -> (b: bool)
    ensures
        b == in_category(*r, opt_str_view(category)),
{
    match category {
        None => true,
        Some(c) => {
            let same = match &r.category {
                Some(rc) => str_eq(rc.as_str(), c),
                None => false,
            };
            if same {
                return true;
            }
            match &r.tags {
                Some(t) => {
                    let tag = concat("tool-category-", c);
                    contains_string(t, tag.as_str())
                },
                None => false,
            }
        },
    }
}

/// The creation time of a record as characters.
fn created_chars(r: &MemoryRecord) -> (c: Vec<char>)
    ensures
        c@ == created_key(*r),
{
    match &r.created_at {
        Some(s) => chars_of(s.as_str()),
        None => Vec::new(),
    }
}

/// The view of (score, position) pairs.
pub open spec fn pairs_nat(v: Seq<(usize, usize)>) -> Seq<(nat, nat)> {
    v.map_values(|p: (usize, usize)| (p.0 as nat, p.1 as nat))
}

/// Inserts a (score, position) pair in recall order.
fn insert_scored(
    records: &Vec<MemoryRecord>,
    sorted: &mut Vec<(usize, usize)>,
    x: (usize, usize),
    Ghost(bound): Ghost<nat>,
)
    requires
        x.1 < records@.len(),
        x.1 < bound,
        forall|k: int| 0 <= k < old(sorted)@.len() ==> (#[trigger] old(sorted)@[k]).1 < records@.len(),
        forall|k: int| 0 <= k < old(sorted)@.len() ==> (#[trigger] old(sorted)@[k]).1 < bound,
    ensures
        pairs_nat(final(sorted)@) == insert_stable(
            pairs_nat(old(sorted)@),
            (x.0 as nat, x.1 as nat),
            recall_order(records@),
        ),
        forall|k: int| 0 <= k < final(sorted)@.len() ==> (#[trigger] final(sorted)@[k]).1 < records@.len(),
        forall|k: int| 0 <= k < final(sorted)@.len() ==> (#[trigger] final(sorted)@[k]).1 < bound,
{
    let ghost old_v = pairs_nat(sorted@);
    let ghost xv = (x.0 as nat, x.1 as nat);
    let xc = created_chars(&records[x.1]);
    let mut p = sorted.len();
    loop
        invariant
            p <= sorted@.len(),
            old_v == pairs_nat(sorted@),
            x.1 < records@.len(),
            xc@ == created_key(records@[x.1 as int]),
            forall|k: int| 0 <= k < sorted@.len() ==> (#[trigger] sorted@[k]).1 < records@.len(),
            forall|k: int| 0 <= k < sorted@.len() ==> (#[trigger] sorted@[k]).1 < bound,
            forall|k: int| p <= k < old_v.len() ==> !recall_before(records@, #[trigger] old_v[k], xv),
            xv == (x.0 as nat, x.1 as nat),
        ensures
            p <= sorted@.len(),
            old_v == pairs_nat(sorted@),
            forall|k: int| 0 <= k < sorted@.len() ==> (#[trigger] sorted@[k]).1 < records@.len(),
            forall|k: int| 0 <= k < sorted@.len() ==> (#[trigger] sorted@[k]).1 < bound,
            forall|k: int| p <= k < old_v.len() ==> !recall_before(records@, #[trigger] old_v[k], xv),
            p == 0 || recall_before(records@, old_v[p - 1], xv),
        decreases p,
    {
        if p == 0 {
            break;
        }
        let e = sorted[p - 1];
        assert(old_v[p - 1] == (e.0 as nat, e.1 as nat));
        assert(e.1 < records@.len());
        let precedes = if e.0 > x.0 {
            true
        } else if e.0 == x.0 {
            let ec = created_chars(&records[e.1]);
            !lex_less(&ec, &xc)
        } else {
            false
        };
        assert(precedes == recall_before(records@, old_v[p - 1], xv));
        if precedes {
            break;
        }
        p = p - 1;
    }
    proof {
        assert(recall_order(records@) =~= (|a: (nat, nat), b: (nat, nat)| recall_before(records@, a, b)));
        lemma_insert_stable_at(old_v, xv, recall_order(records@), p as int);
    }
    let ghost old_s = sorted@;
    sorted.insert(p, x);
    assert(pairs_nat(sorted@) =~= old_v.take(p as int).push(xv) + old_v.skip(p as int));
    assert(sorted@ =~= old_s.insert(p as int, x));
    assert forall|k: int| 0 <= k < sorted@.len() implies (#[trigger] sorted@[k]).1 < bound
        && sorted@[k].1 < records@.len() by {
        if k < p {
            assert(sorted@[k] == old_s[k]);
        } else if k > p {
            assert(sorted@[k] == old_s[k - 1]);
        }
    }
}

/// The positions of the records recalled for a query (see [`recall_positions`]).
pub fn recall_ranking(records: &Vec<MemoryRecord>, query: &str, category: Option<&str>, limit: usize) -> (positions: Vec<usize>)
    ensures
        positions@.map_values(|i: usize| i as nat) == recall_positions(
            records@,
            query@,
            opt_str_view(category),
            limit as nat,
        ),
{
    let terms = tokenize(query);
    let ghost tv = strings_view(terms@);
    let ghost cat = opt_str_view(category);
    let mut sorted: Vec<(usize, usize)> = Vec::new();
    let n = records.len();
    assert(records@.take(0) =~= Seq::<MemoryRecord>::empty());
    for i in 0..n
        invariant
            n == records@.len(),
            tv == strings_view(terms@),
            cat == opt_str_view(category),
            pairs_nat(sorted@) == sort_stable(
                scored_records(records@.take(i as int), tv, cat),
                recall_order(records@),
            ),
            forall|k: int| 0 <= k < sorted@.len() ==> (#[trigger] sorted@[k]).1 < i,
    {
        let r = &records[i];
        let ghost prefix = records@.take(i + 1);
        assert(prefix.drop_last() =~= records@.take(i as int));
        assert(prefix.last() == records@[i as int]);
        let s = score_record(r, &terms);
        let ghost prev = scored_records(records@.take(i as int), tv, cat);
        if passes_category(r, category) && s > 0 {
            assert(scored_records(prefix, tv, cat) == prev + seq![(s as nat, i as nat)]);
            assert((prev + seq![(s as nat, i as nat)]).drop_last() =~= prev);
            insert_scored(records, &mut sorted, (s, i), Ghost((i + 1) as nat));
        } else {
            assert(scored_records(prefix, tv, cat) =~= prev);
        }
    }
    assert(records@.take(n as int) =~= records@);
    let ghost sv = pairs_nat(sorted@);
    let m = if sorted.len() <= limit {
        sorted.len()
    } else {
        limit
    };
    let ghost chosen = if sv.len() <= limit as nat {
        sv
    } else {
        sv.take(limit as int)
    };
    assert(chosen =~= sv.take(m as int));
    let mut positions: Vec<usize> = Vec::new();
    for k in 0..m
        invariant
            m <= sorted@.len(),
            sv == pairs_nat(sorted@),
            positions@.map_values(|i: usize| i as nat) == sv.take(k as int).map_values(
                |p: (nat, nat)| p.1,
            ),
    {
        let ghost before = positions@.map_values(|i: usize| i as nat);
        positions.push(sorted[k].1);
        assert(positions@.map_values(|i: usize| i as nat) =~= before.push(sorted@[k as int].1 as nat));
        assert(sv.take(k + 1).map_values(|p: (nat, nat)| p.1) =~= sv.take(k as int).map_values(
            |p: (nat, nat)| p.1,
        ).push(sv[k as int].1));
    }
    positions
}

// ---------------------------------------------------------------------------
// Record files
// ---------------------------------------------------------------------------
/// A character kept in file names: alphanumerics, `-` and `_` stay, anything
/// else becomes `-`.
pub open spec fn safe_char(c: char) -> char {
    if alphanumeric(c) || c == '-' || c == '_' {
        c
    } else {
        '-'
    }
}

/// `s` made safe for file names, cut to at most `max` characters.
pub open spec fn sanitized(s: Seq<char>, max: nat) -> Seq<char> {
    let m = s.map_values(|c: char| safe_char(c));
    if m.len() <= max {
        m
    } else {
        m.take(max as int)
    }
}

/// Makes text safe for a file name (see [`sanitized`]).
pub fn sanitize(s: &str, max_len: usize) -> (r: String)
    ensures
        r@ == sanitized(s@, max_len as nat),
{
    let cs = chars_of(s);
    let n = if cs.len() <= max_len {
        cs.len()
    } else {
        max_len
    };
    let mut r = String::new();
    for i in 0..n
        invariant
            n <= cs@.len(),
            cs@ == s@,
            r@ == s@.map_values(|c: char| safe_char(c)).take(i as int),
    {
        let c = cs[i];
        let keep = is_alphanumeric(c) || c == '-' || c == '_';
        let out = if keep {
            c
        } else {
            '-'
        };
        push_char(&mut r, out);
        assert(r@ =~= s@.map_values(|c: char| safe_char(c)).take(i + 1));
    }
    assert(r@ =~= sanitized(s@, max_len as nat));
    r
}

/// An optional field, empty when absent.
pub open spec fn or_empty(o: Option<String>) -> Seq<char> {
    match o {
        Some(s) => s@,
        None => Seq::empty(),
    }
}

/// At most the first four characters.
pub open spec fn first4(s: Seq<char>) -> Seq<char> {
    if s.len() <= 4 {
        s
    } else {
        s.take(4)
    }
}

/// The file name of a record:
/// `{timestamp}-{agent}-{tool}-{record type}-{first 4 of uid}.json`, each of agent,
/// tool and record type sanitized to at most 40 characters.
pub open spec fn record_file_name(timestamp: Seq<char>, r: MemoryRecord, uid: Seq<char>) -> Seq<char> {
    timestamp + "-"@ + sanitized(or_empty(r.source_agent), 40) + "-"@ + sanitized(or_empty(r.tool), 40)
        + "-"@ + sanitized(or_empty(r.record_type), 40) + "-"@ + first4(uid) + ".json"@
}

/// An optional field as a string slice, empty when absent.
fn field_or_empty(o: &Option<String>) -> (s: &str)
    ensures
        s@ == or_empty(*o),
{
    match o {
        Some(x) => x.as_str(),
        None => {
            proof {
                reveal_strlit("");
            }
            ""
        },
    }
}

/// The file name of a record (see [`record_file_name`]).
pub fn record_filename(timestamp: &str, record: &MemoryRecord, uid: &str) -> (name: String)
    ensures
        name@ == record_file_name(timestamp@, *record, uid@),
{
    let mut name = owned(timestamp);
    push_str(&mut name, "-");
    push_str(&mut name, sanitize(field_or_empty(&record.source_agent), 40).as_str());
    push_str(&mut name, "-");
    push_str(&mut name, sanitize(field_or_empty(&record.tool), 40).as_str());
    push_str(&mut name, "-");
    push_str(&mut name, sanitize(field_or_empty(&record.record_type), 40).as_str());
    push_str(&mut name, "-");
    let uc = chars_of(uid);
    let m = if uc.len() <= 4 {
        uc.len()
    } else {
        4
    };
    let ghost before = name@;
    for i in 0..m
        invariant
            m <= uc@.len(),
            uc@ == uid@,
            name@ == before + uc@.take(i as int),
    {
        push_char(&mut name, uc[i]);
        assert(name@ =~= before + uc@.take(i + 1));
    }
    assert(uc@.take(m as int) =~= first4(uid@));
    push_str(&mut name, ".json");
    assert(name@ =~= record_file_name(timestamp@, *record, uid@));
    name
}

/// The index of the last `c` before position `i`, or -1.
pub open spec fn last_index_before(s: Seq<char>, c: char, i: nat) -> int
    decreases i,
{
    if i == 0 || i > s.len() {
        -1
    } else if s[i - 1] == c {
        i - 1
    } else {
        last_index_before(s, c, (i - 1) as nat)
    }
}

/// The extension of a file name (`Path::extension`): the part after the last
/// `.`, unless there is no `.`, or the only `.` is the leading one, or the name
/// is `..`.
pub open spec fn extension_of(name: Seq<char>) -> Option<Seq<char>> {
    let i = last_index_before(name, '.', name.len());
    if name == ".."@ || i <= 0 {
        None
    } else {
        Some(name.skip(i + 1))
    }
}

/// A file in the records directory that holds a record: a `.json` file that is
/// not a temporary file (`.tmp-` prefix).
pub open spec fn holds_record(name: Seq<char>) -> bool {
    extension_of(name) == Some("json"@) && !starts_with(name, ".tmp-"@)
}

/// Whether a file in the records directory holds a record (see [`holds_record`]).
pub fn is_record_file(name: &str) -> (b: bool)
    ensures
        b == holds_record(name@),
{
    let cs = chars_of(name);
    let n = cs.len();
    let mut i = n;
    while i > 0 && cs[i - 1] != '.'
        invariant
            i <= n,
            n == cs@.len(),
            last_index_before(cs@, '.', n as nat) == last_index_before(cs@, '.', i as nat),
        decreases i,
    {
        i = i - 1;
    }
    let dotdot = chars_of("..");
    let tmp = chars_of(".tmp-");
    let json = chars_of("json");
    proof {
        reveal_strlit("..");
        reveal_strlit(".tmp-");
        reveal_strlit("json");
    }
    if crate::text::chars_eq(&cs, &dotdot) || i <= 1 {
        return false;
    }
    let mut ext: Vec<char> = Vec::new();
    for k in i..n
        invariant
            i <= n,
            n == cs@.len(),
            ext@ == cs@.subrange(i as int, k as int),
    {
        ext.push(cs[k]);
        assert(ext@ =~= cs@.subrange(i as int, k + 1));
    }
    assert(ext@ =~= cs@.skip(i as int));
    crate::text::chars_eq(&ext, &json) && !starts_with_chars(&cs, &tmp)
}

/// Availability records, among those asked for (all when `tools` is `None`).
pub open spec fn availability_wanted(r: MemoryRecord, tools: Option<Seq<Seq<char>>>) -> bool {
    opt_string_view(r.record_type) == Some("availability"@) && match tools {
        None => true,
        Some(ts) => match r.tool {
            Some(t) => ts.contains(t@),
            None => false,
        },
    }
}

/// The positions of the wanted availability records, in order.
pub open spec fn availability_positions(records: Seq<MemoryRecord>, tools: Option<Seq<Seq<char>>>) -> Seq<nat>
    decreases records.len(),
{
    if records.len() == 0 {
        Seq::empty()
    } else {
        availability_positions(records.drop_last(), tools) + if availability_wanted(
            records.last(),
            tools,
        ) {
            seq![(records.len() - 1) as nat]
        } else {
            Seq::empty()
        }
    }
}

/// The view of optional tool names.
pub open spec fn opt_names_view(tools: Option<&Vec<String>>) -> Option<Seq<Seq<char>>> {
    match tools {
        Some(t) => Some(strings_view(t@)),
        None => None,
    }
}

/// The positions of availability records, restricted to the given tools.
pub fn availability(records: &Vec<MemoryRecord>, tools: Option<&Vec<String>>) -> (positions: Vec<usize>)
    ensures
        positions@.map_values(|i: usize| i as nat) == availability_positions(
            records@,
            opt_names_view(tools),
        ),
{
    let mut positions: Vec<usize> = Vec::new();
    let n = records.len();
    let ghost tv = opt_names_view(tools);
    assert(records@.take(0) =~= Seq::<MemoryRecord>::empty());
    for i in 0..n
        invariant
            n == records@.len(),
            tv == opt_names_view(tools),
            positions@.map_values(|i: usize| i as nat) == availability_positions(
                records@.take(i as int),
                tv,
            ),
    {
        let r = &records[i];
        assert(records@.take(i + 1).drop_last() =~= records@.take(i as int));
        assert(records@.take(i + 1).last() == records@[i as int]);
        let is_availability = match &r.record_type {
            Some(t) => str_eq(t.as_str(), "availability"),
            None => false,
        };
        let wanted = match tools {
            None => true,
            Some(ts) => match &r.tool {
                Some(t) => contains_string(ts, t.as_str()),
                None => false,
            },
        };
        let ghost before = positions@.map_values(|i: usize| i as nat);
        if is_availability && wanted {
            positions.push(i);
            assert(positions@.map_values(|i: usize| i as nat) =~= before.push(i as nat));
        } else {
            assert(before + Seq::<nat>::empty() =~= before);
        }
    }
    assert(records@.take(n as int) =~= records@);
    positions
}

/// The one-line summary of a recalled record:
/// `  {category}/{tool}[ [{task}]] -> {status}[  $ {command}]`, with `?` for a
/// missing category, tool or status, and the command template preferred to the command.
pub open spec fn summary_line(r: MemoryRecord) -> Seq<char> {
    let cat = match r.category {
        Some(c) => c@,
        None => "?"@,
    };
    let tool = match r.tool {
        Some(t) => t@,
        None => "?"@,
    };
    let task = or_empty(r.task);
    let status = match r.status {
        Some(s) => s@,
        None => "?"@,
    };
    let cmd = match r.command_template {
        Some(c) => c@,
        None => or_empty(r.command),
    };
    "  "@ + cat + "/"@ + tool + (if task.len() > 0 {
        " ["@ + task + "]"@
    } else {
        Seq::empty()
    }) + " -> "@ + status + if cmd.len() > 0 {
        "  $ "@ + cmd
    } else {
        Seq::empty()
    }
}

/// An optional field, or `?`.
fn field_or_unknown(o: &Option<String>) -> (s: &str)
    ensures
        s@ == match *o {
            Some(x) => x@,
            None => "?"@,
        },
{
    match o {
        Some(x) => x.as_str(),
        None => "?",
    }
}

/// The one-line summary of a recalled record (see [`summary_line`]).
pub fn recall_line(record: &MemoryRecord) -> (line: String)
    ensures
        line@ == summary_line(*record),
{
    let task = field_or_empty(&record.task);
    let cmd = match &record.command_template {
        Some(c) => c.as_str(),
        None => field_or_empty(&record.command),
    };
    let mut line = owned("  ");
    push_str(&mut line, field_or_unknown(&record.category));
    push_str(&mut line, "/");
    push_str(&mut line, field_or_unknown(&record.tool));
    if !task.is_empty() {
        push_str(&mut line, " [");
        push_str(&mut line, task);
        push_str(&mut line, "]");
    }
    push_str(&mut line, " -> ");
    push_str(&mut line, field_or_unknown(&record.status));
    if !cmd.is_empty() {
        push_str(&mut line, "  $ ");
        push_str(&mut line, cmd);
    }
    assert(line@ =~= summary_line(*record));
    line
}

// ---------------------------------------------------------------------------
// Laws
// ---------------------------------------------------------------------------
/// Every scored entry points at a record in the category with that positive score.
proof fn lemma_scored_records_valid(
    records: Seq<MemoryRecord>,
    terms: Seq<Seq<char>>,
    category: Option<Seq<char>>,
)
    ensures
        forall|k: int|
            0 <= k < scored_records(records, terms, category).len() ==> {
                let e = #[trigger] scored_records(records, terms, category)[k];
                &&& e.1 < records.len()
                &&& in_category(records[e.1 as int], category)
                &&& e.0 == record_score(records[e.1 as int], terms)
                &&& e.0 > 0
            },
    decreases records.len(),
{
    if records.len() > 0 {
        let d = records.drop_last();
        lemma_scored_records_valid(d, terms, category);
        let prev = scored_records(d, terms, category);
        let all = scored_records(records, terms, category);
        assert forall|k: int| 0 <= k < all.len() implies {
            let e = #[trigger] all[k];
            &&& e.1 < records.len()
            &&& in_category(records[e.1 as int], category)
            &&& e.0 == record_score(records[e.1 as int], terms)
            &&& e.0 > 0
        } by {
            if k < prev.len() {
                assert(all[k] == prev[k]);
                assert(d[prev[k].1 as int] == records[prev[k].1 as int]);
            }
        }
    }
}

/// Recall order is a total preorder.
pub proof fn lemma_recall_order_total_preorder(records: Seq<MemoryRecord>)
    ensures
        total_preorder(recall_order(records)),
{
    let f = recall_order(records);
    assert forall|a: (nat, nat), b: (nat, nat)| #[trigger] f(a, b) || #[trigger] f(b, a) by {
        let ca = created_key(records[a.1 as int]);
        let cb = created_key(records[b.1 as int]);
        if lex_lt(ca, cb) && lex_lt(cb, ca) {
            lemma_lex_transitive(ca, cb, ca);
            lemma_lex_irreflexive(ca);
        }
    }
    assert forall|a: (nat, nat), b: (nat, nat), c: (nat, nat)|
        #[trigger] f(a, b) && #[trigger] f(b, c) implies f(a, c) by {
        let ca = created_key(records[a.1 as int]);
        let cb = created_key(records[b.1 as int]);
        let cc = created_key(records[c.1 as int]);
        if a.0 == b.0 && b.0 == c.0 && lex_lt(ca, cc) {
            if cb != ca {
                lemma_lex_total(ca, cb);
            }
            if cc != cb {
                lemma_lex_total(cb, cc);
            }
            if cb == ca {
                if cc == cb {
                    lemma_lex_irreflexive(ca);
                }
            } else if cc == cb {
            } else {
                lemma_lex_transitive(cc, cb, ca);
                lemma_lex_transitive(ca, cc, ca);
                lemma_lex_irreflexive(ca);
            }
            if cb == ca && cc != cb {
                lemma_lex_transitive(ca, cc, cb);
                lemma_lex_irreflexive(ca);
            }
            if cb != ca && cc == cb {
                lemma_lex_transitive(ca, cc, ca);
                lemma_lex_irreflexive(ca);
            }
        }
    }
}

/// Recall returns at most `limit` records, each in the category asked for and
/// sharing at least one token with the query, best first: higher scores first,
/// and among equal scores later creation times first.
pub proof fn lemma_recall_positions_valid(
    records: Seq<MemoryRecord>,
    query: Seq<char>,
    category: Option<Seq<char>>,
    limit: nat,
)
    ensures
        ({
            let ps = recall_positions(records, query, category, limit);
            let terms = token_list(query);
            &&& ps.len() <= limit
            &&& forall|k: int|
                0 <= k < ps.len() ==> {
                    let p = #[trigger] ps[k];
                    &&& p < records.len()
                    &&& in_category(records[p as int], category)
                    &&& record_score(records[p as int], terms) > 0
                }
            &&& forall|i: int, j: int|
                0 <= i < j < ps.len() ==> {
                    let a = records[#[trigger] ps[i] as int];
                    let b = records[#[trigger] ps[j] as int];
                    record_score(a, terms) > record_score(b, terms) || (record_score(a, terms)
                        == record_score(b, terms) && !lex_lt(created_key(a), created_key(b)))
                }
        }),
{
    broadcast use vstd::seq_lib::group_to_multiset_ensures;

    let terms = token_list(query);
    let scored = scored_records(records, terms, category);
    let order = recall_order(records);
    let sorted = sort_stable(scored, order);
    lemma_scored_records_valid(records, terms, category);
    lemma_recall_order_total_preorder(records);
    lemma_sort_stable_multiset(scored, order);
    lemma_sort_stable_sorted(scored, order);
    let chosen = if sorted.len() <= limit {
        sorted
    } else {
        sorted.take(limit as int)
    };
    let ps = recall_positions(records, query, category, limit);
    assert(ps == chosen.map_values(|p: (nat, nat)| p.1));
    assert forall|k: int| 0 <= k < chosen.len() implies {
        let e = #[trigger] chosen[k];
        &&& e.1 < records.len()
        &&& in_category(records[e.1 as int], category)
        &&& e.0 == record_score(records[e.1 as int], terms)
        &&& e.0 > 0
    } by {
        let e = chosen[k];
        assert(e == sorted[k]);
        assert(sorted.contains(e));
        assert(sorted.to_multiset().count(e) > 0);
        assert(scored.to_multiset().count(e) > 0);
        assert(scored.contains(e));
        let m = choose|m: int| 0 <= m < scored.len() && scored[m] == e;
    }
    assert forall|k: int| 0 <= k < ps.len() implies {
        let p = #[trigger] ps[k];
        &&& p < records.len()
        &&& in_category(records[p as int], category)
        &&& record_score(records[p as int], terms) > 0
    } by {
        assert(ps[k] == chosen[k].1);
    }
    assert forall|i: int, j: int| 0 <= i < j < ps.len() implies {
        let a = records[#[trigger] ps[i] as int];
        let b = records[#[trigger] ps[j] as int];
        record_score(a, terms) > record_score(b, terms) || (record_score(a, terms) == record_score(
            b,
            terms,
        ) && !lex_lt(created_key(a), created_key(b)))
    } by {
        assert(ps[i] == chosen[i].1 && ps[j] == chosen[j].1);
        assert(chosen[i] == sorted[i] && chosen[j] == sorted[j]);
        assert(order(sorted[i], sorted[j]));
        let _ = chosen[i];
        let _ = chosen[j];
    }
}

/// The names given to new records are recognized as record files, as long as
/// the timestamp does not begin with a dot.
pub proof fn lemma_generated_names_are_records(timestamp: Seq<char>, r: MemoryRecord, uid: Seq<char>)
    requires
        timestamp.len() == 0 || timestamp[0] != '.',
    ensures
        holds_record(record_file_name(timestamp, r, uid)),
{
    reveal_strlit(".json");
    reveal_strlit("-");
    reveal_strlit("json");
    reveal_strlit(".tmp-");
    reveal_strlit("..");
    let name = record_file_name(timestamp, r, uid);
    let n = name.len();
    let prefix = timestamp + "-"@ + sanitized(or_empty(r.source_agent), 40) + "-"@ + sanitized(
        or_empty(r.tool),
        40,
    ) + "-"@ + sanitized(or_empty(r.record_type), 40) + "-"@ + first4(uid);
    assert(name == prefix + ".json"@);
    assert(n >= 9);
    assert(name[n - 1] == 'n');
    assert(name[n - 2] == 'o');
    assert(name[n - 3] == 's');
    assert(name[n - 4] == 'j');
    assert(name[n - 5] == '.');
    assert(last_index_before(name, '.', (n - 4) as nat) == n - 5);
    assert(last_index_before(name, '.', (n - 3) as nat) == n - 5);
    assert(last_index_before(name, '.', (n - 2) as nat) == n - 5);
    assert(last_index_before(name, '.', (n - 1) as nat) == n - 5);
    assert(last_index_before(name, '.', n as nat) == n - 5);
    assert(name.skip(n - 4) =~= "json"@);
    assert(name != ".."@);
    if timestamp.len() > 0 {
        assert(name[0] == timestamp[0]);
    } else {
        assert(name[0] == '-');
    }
    assert(!starts_with(name, ".tmp-"@)) by {
        if starts_with(name, ".tmp-"@) {
            assert(name.take(5)[0] == name[0]);
        }
    }
}

/// Sanitized text is safe in a file name: at most `max` characters, each an
/// alphanumeric, `-` or `_`; and text that was safe and short enough is kept as it is.
pub proof fn lemma_sanitized_safe(s: Seq<char>, max: nat)
    ensures
        sanitized(s, max).len() <= max,
        sanitized(s, max).len() <= s.len(),
        forall|i: int|
            0 <= i < sanitized(s, max).len() ==> {
                let c = #[trigger] sanitized(s, max)[i];
                alphanumeric(c) || c == '-' || c == '_'
            },
        (s.len() <= max && forall|i: int|
            0 <= i < s.len() ==> alphanumeric(#[trigger] s[i]) || s[i] == '-' || s[i] == '_')
            ==> sanitized(s, max) == s,
{
    let m = s.map_values(|c: char| safe_char(c));
    assert forall|i: int| 0 <= i < sanitized(s, max).len() implies {
        let c = #[trigger] sanitized(s, max)[i];
        alphanumeric(c) || c == '-' || c == '_'
    } by {
        assert(sanitized(s, max)[i] == m[i]);
    }
    if s.len() <= max && forall|i: int|
        0 <= i < s.len() ==> alphanumeric(#[trigger] s[i]) || s[i] == '-' || s[i] == '_' {
        assert(m =~= s);
    }
}

/// Each part occurs in the parts joined by spaces.
proof fn lemma_join_has_parts(parts: Seq<Seq<char>>)
    ensures
        forall|k: int| 0 <= k < parts.len() ==> has_substring(join_spaced(parts), #[trigger] parts[k]),
    decreases parts.len(),
{
    if parts.len() == 1 {
        assert(occurs_at(join_spaced(parts), parts[0], 0)) by {
            assert(join_spaced(parts).subrange(0, parts[0].len() as int) =~= parts[0]);
        }
    } else if parts.len() > 1 {
        let d = parts.drop_last();
        lemma_join_has_parts(d);
        let jd = join_spaced(d);
        let j = join_spaced(parts);
        assert(j == jd + seq![' '] + parts.last());
        assert forall|k: int| 0 <= k < parts.len() implies has_substring(j, #[trigger] parts[k]) by {
            if k < parts.len() - 1 {
                assert(d[k] == parts[k]);
                let i = choose|i: int| occurs_at(jd, d[k], i);
                assert(j.subrange(i, i + d[k].len()) =~= jd.subrange(i, i + d[k].len()));
                assert(occurs_at(j, parts[k], i));
            } else {
                let i: int = jd.len() as int + 1;
                assert(j.subrange(i, i + parts.last().len()) =~= parts.last());
                assert(occurs_at(j, parts[k], i));
            }
        }
    }
}

/// The text a record is scored on holds every text field of the record that
/// is present: category, tool, task, status, path, version, command template,
/// command, failure reason, source agent, and each tag. So a query word that
/// occurs in any of them is matched against the record.
pub proof fn lemma_scored_text_covers_fields(r: MemoryRecord)
    ensures
        ({
            let text = join_spaced(record_parts(r));
            &&& r.category matches Some(v) ==> has_substring(text, v@)
            &&& r.tool matches Some(v) ==> has_substring(text, v@)
            &&& r.task matches Some(v) ==> has_substring(text, v@)
            &&& r.status matches Some(v) ==> has_substring(text, v@)
            &&& r.path matches Some(v) ==> has_substring(text, v@)
            &&& r.version matches Some(v) ==> has_substring(text, v@)
            &&& r.command_template matches Some(v) ==> has_substring(text, v@)
            &&& r.command matches Some(v) ==> has_substring(text, v@)
            &&& r.failure_reason matches Some(v) ==> has_substring(text, v@)
            &&& r.source_agent matches Some(v) ==> has_substring(text, v@)
            &&& r.tags matches Some(t) ==> forall|i: int|
                0 <= i < t@.len() ==> has_substring(text, (#[trigger] t@[i])@)
        }),
{
    let parts = record_parts(r);
    lemma_join_has_parts(parts);
    let p0 = part(r.category);
    let p1 = p0 + part(r.tool);
    let p2 = p1 + part(r.task);
    let p3 = p2 + part(r.status);
    let p4 = p3 + part(r.path);
    let p5 = p4 + part(r.version);
    let p6 = p5 + part(r.command_template);
    let p7 = p6 + part(r.command);
    let p8 = p7 + part(r.failure_reason);
    let p9 = p8 + part(r.source_agent);
    let tags = match r.tags {
        Some(t) => strings_view(t@),
        None => Seq::<Seq<char>>::empty(),
    };
    assert(parts == p9 + tags);
    assert(parts.take(p9.len() as int) =~= p9);
    lemma_prefix_part(p9, parts, r.source_agent, p8);
    lemma_prefix_part(p8, parts, r.failure_reason, p7);
    lemma_prefix_part(p7, parts, r.command, p6);
    lemma_prefix_part(p6, parts, r.command_template, p5);
    lemma_prefix_part(p5, parts, r.version, p4);
    lemma_prefix_part(p4, parts, r.path, p3);
    lemma_prefix_part(p3, parts, r.status, p2);
    lemma_prefix_part(p2, parts, r.task, p1);
    lemma_prefix_part(p1, parts, r.tool, p0);
    lemma_prefix_part(p0, parts, r.category, Seq::empty());
    if let Some(t) = r.tags {
        assert forall|i: int| 0 <= i < t@.len() implies has_substring(
            join_spaced(parts),
            (#[trigger] t@[i])@,
        ) by {
            assert(parts[p9.len() + i] == t@[i]@);
        }
    }
}

/// A field that ends a prefix of the parts occurs in their joined text, and
/// what comes before it is a prefix too.
proof fn lemma_prefix_part(
    p: Seq<Seq<char>>,
    parts: Seq<Seq<char>>,
    o: Option<String>,
    before: Seq<Seq<char>>,
)
    requires
        p == before + part(o),
        p.len() <= parts.len(),
        parts.take(p.len() as int) == p,
        forall|k: int| 0 <= k < parts.len() ==> has_substring(join_spaced(parts), #[trigger] parts[k]),
    ensures
        o matches Some(v) ==> has_substring(join_spaced(parts), v@),
        parts.take(before.len() as int) == before,
{
    assert(parts.take(before.len() as int) =~= p.take(before.len() as int));
    assert(p.take(before.len() as int) =~= before);
    if let Some(v) = o {
        assert(p[before.len() as int] == v@);
        assert(parts.take(p.len() as int)[before.len() as int] == parts[before.len() as int]);
    }
}

} // verus!

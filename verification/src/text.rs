//! Character-level text utilities shared by the routing and ranking logic.
//!
//! Strings are reasoned about through their character sequences (`s@`).
use vstd::prelude::*;

verus! {

// ---------------------------------------------------------------------------
// Specifications
// ---------------------------------------------------------------------------
/// The Unicode lowercase mapping that `str::to_lowercase` applies.
pub uninterp spec fn lowercase(s: Seq<char>) -> Seq<char>;

/// The Unicode `Alphabetic || Numeric` test that `char::is_alphanumeric` applies.
pub uninterp spec fn alphanumeric(c: char) -> bool;

/// The Unicode `White_Space` property, as listed by the Unicode character database.
pub open spec fn white_space(c: char) -> bool {
    let u = c as u32;
    ||| 0x9 <= u <= 0xd
    ||| u == 0x20
    ||| u == 0x85
    ||| u == 0xa0
    ||| u == 0x1680
    ||| 0x2000 <= u <= 0x200a
    ||| u == 0x2028
    ||| u == 0x2029
    ||| u == 0x202f
    ||| u == 0x205f
    ||| u == 0x3000
}

/// `needle` occurs in `hay` at position `i`.
pub open spec fn occurs_at(hay: Seq<char>, needle: Seq<char>, i: int) -> bool {
    0 <= i && i + needle.len() <= hay.len() && hay.subrange(i, i + needle.len()) == needle
}

/// `needle` occurs somewhere in `hay` as a contiguous run (`str::contains`).
pub open spec fn has_substring(hay: Seq<char>, needle: Seq<char>) -> bool {
    exists|i: int| occurs_at(hay, needle, i)
}

/// Some word of `words` occurs in `text`.
pub open spec fn contains_any_word(text: Seq<char>, words: Seq<Seq<char>>) -> bool {
    exists|j: int| 0 <= j < words.len() && has_substring(text, #[trigger] words[j])
}

/// `s` begins with `prefix`.
pub open spec fn starts_with(s: Seq<char>, prefix: Seq<char>) -> bool {
    prefix.len() <= s.len() && s.take(prefix.len() as int) == prefix
}

/// The pieces that splitting `rest` on separator characters yields, the first
/// piece being prefixed by `cur`. Empty pieces are kept, as `str::split` keeps them.
pub open spec fn split_pieces(cur: Seq<char>, rest: Seq<char>, sep: spec_fn(char) -> bool) -> Seq<
    Seq<char>,
>
    decreases rest.len(),
{
    if rest.len() == 0 {
        seq![cur]
    } else if sep(rest[0]) {
        seq![cur] + split_pieces(Seq::empty(), rest.drop_first(), sep)
    } else {
        split_pieces(cur.push(rest[0]), rest.drop_first(), sep)
    }
}

/// `s` split at every separator character (`str::split` with a predicate).
pub open spec fn split_on(s: Seq<char>, sep: spec_fn(char) -> bool) -> Seq<Seq<char>> {
    split_pieces(Seq::empty(), s, sep)
}

/// The parts joined with a single space between consecutive parts (`join(" ")`).
pub open spec fn join_spaced(parts: Seq<Seq<char>>) -> Seq<char>
    decreases parts.len(),
{
    if parts.len() == 0 {
        Seq::empty()
    } else if parts.len() == 1 {
        parts[0]
    } else {
        join_spaced(parts.drop_last()) + seq![' '] + parts.last()
    }
}

/// Strict lexicographic order on character sequences, comparing code points.
/// This is the order of `String`'s `Ord` (UTF-8 byte order agrees with code point order).
pub open spec fn lex_lt(a: Seq<char>, b: Seq<char>) -> bool
    decreases a.len(),
{
    if a.len() == 0 {
        b.len() > 0
    } else if b.len() == 0 {
        false
    } else if a[0] != b[0] {
        (a[0] as int) < (b[0] as int)
    } else {
        lex_lt(a.drop_first(), b.drop_first())
    }
}

/// `s` is strictly increasing in lexicographic order.
pub open spec fn strictly_sorted(s: Seq<Seq<char>>) -> bool {
    forall|i: int, j: int| 0 <= i < j < s.len() ==> lex_lt(#[trigger] s[i], #[trigger] s[j])
}

/// The character sequences of a vector of strings.
pub open spec fn strings_view(v: Seq<String>) -> Seq<Seq<char>> {
    v.map_values(|s: String| s@)
}

/// The character sequences of a vector of string slices.
pub open spec fn strs_view(v: Seq<&str>) -> Seq<Seq<char>> {
    v.map_values(|s: &str| s@)
}

/// Characters that end a word: anything but alphanumerics and `_`.
pub open spec fn word_break(c: char) -> bool {
    !(alphanumeric(c) || c == '_')
}

/// The separators used when splitting text.
pub enum Separator {
    /// Anything but alphanumerics and `_`.
    WordBreak,
    /// The underscore.
    Underscore,
    /// Unicode whitespace.
    Whitespace,
}

impl Separator {
    /// The set of separator characters.
    pub open spec fn holds(self, c: char) -> bool {
        match self {
            Separator::WordBreak => word_break(c),
            Separator::Underscore => c == '_',
            Separator::Whitespace => white_space(c),
        }
    }

    /// The separator test as a spec closure.
    pub open spec fn pred(self) -> spec_fn(char) -> bool {
        |c: char| self.holds(c)
    }
}

/// The character sequences held in a vector of character vectors.
pub open spec fn chars_view(v: Seq<Vec<char>>) -> Seq<Seq<char>> {
    v.map_values(|x: Vec<char>| x@)
}

// ---------------------------------------------------------------------------
// Lemmas about the lexicographic order
// ---------------------------------------------------------------------------
/// Lexicographic order is irreflexive.
pub proof fn lemma_lex_irreflexive(a: Seq<char>)
    ensures
        !lex_lt(a, a),
    decreases a.len(),
{
    if a.len() > 0 {
        lemma_lex_irreflexive(a.drop_first());
    }
}

/// Lexicographic order is transitive.
pub proof fn lemma_lex_transitive(a: Seq<char>, b: Seq<char>, c: Seq<char>)
    requires
        lex_lt(a, b),
        lex_lt(b, c),
    ensures
        lex_lt(a, c),
    decreases a.len(),
{
    if a.len() > 0 && b.len() > 0 && c.len() > 0 {
        if a[0] == b[0] && b[0] == c[0] {
            lemma_lex_transitive(a.drop_first(), b.drop_first(), c.drop_first());
        }
    }
}

/// Two distinct sequences are ordered one way or the other.
pub proof fn lemma_lex_total(a: Seq<char>, b: Seq<char>)
    requires
        a != b,
    ensures
        lex_lt(a, b) || lex_lt(b, a),
    decreases a.len(),
{
    if a.len() > 0 && b.len() > 0 && a[0] == b[0] {
        if a.drop_first() == b.drop_first() {
            assert(a =~= seq![a[0]] + a.drop_first());
            assert(b =~= seq![b[0]] + b.drop_first());
        }
        lemma_lex_total(a.drop_first(), b.drop_first());
    } else if a.len() == 0 && b.len() == 0 {
        assert(a =~= b);
    }
}

/// A strictly sorted sequence is determined by its elements.
pub proof fn lemma_strictly_sorted_unique(a: Seq<Seq<char>>, b: Seq<Seq<char>>)
    requires
        strictly_sorted(a),
        strictly_sorted(b),
        forall|t: Seq<char>| a.contains(t) <==> b.contains(t),
    ensures
        a == b,
    decreases a.len(),
{
    if a.len() == 0 {
        if b.len() > 0 {
            assert(b.contains(b[0]));
        }
        assert(a =~= b);
    } else if b.len() == 0 {
        assert(a.contains(a[0]));
    } else {
        assert(a.contains(a[0]));
        assert(b.contains(b[0]));
        if a[0] != b[0] {
            let j = choose|j: int| 0 <= j < b.len() && b[j] == a[0];
            let i = choose|i: int| 0 <= i < a.len() && a[i] == b[0];
            assert(j > 0 && i > 0);
            assert(lex_lt(b[0], b[j]));
            assert(lex_lt(a[0], a[i]));
            lemma_lex_transitive(a[0], b[0], a[0]);
            lemma_lex_irreflexive(a[0]);
        }
        let a1 = a.drop_first();
        let b1 = b.drop_first();
        assert(strictly_sorted(a1)) by {
            assert forall|i: int, j: int| 0 <= i < j < a1.len() implies lex_lt(
                #[trigger] a1[i],
                #[trigger] a1[j],
            ) by {
                assert(a1[i] == a[i + 1] && a1[j] == a[j + 1]);
            }
        }
        assert(strictly_sorted(b1)) by {
            assert forall|i: int, j: int| 0 <= i < j < b1.len() implies lex_lt(
                #[trigger] b1[i],
                #[trigger] b1[j],
            ) by {
                assert(b1[i] == b[i + 1] && b1[j] == b[j + 1]);
            }
        }
        assert forall|t: Seq<char>| a1.contains(t) <==> b1.contains(t) by {
            if a1.contains(t) {
                let i = choose|i: int| 0 <= i < a1.len() && a1[i] == t;
                assert(a[i + 1] == t);
                assert(lex_lt(a[0], a[i + 1]));
                lemma_lex_irreflexive(t);
                assert(b.contains(t));
                let j = choose|j: int| 0 <= j < b.len() && b[j] == t;
                assert(j != 0);
                assert(b1[j - 1] == t);
            }
            if b1.contains(t) {
                let j = choose|j: int| 0 <= j < b1.len() && b1[j] == t;
                assert(b[j + 1] == t);
                assert(lex_lt(b[0], b[j + 1]));
                lemma_lex_irreflexive(t);
                assert(a.contains(t));
                let i = choose|i: int| 0 <= i < a.len() && a[i] == t;
                assert(i != 0);
                assert(a1[i - 1] == t);
            }
        }
        lemma_strictly_sorted_unique(a1, b1);
        assert(a =~= seq![a[0]] + a1);
        assert(b =~= seq![b[0]] + b1);
    }
}

/// The order is decided after a shared prefix.
proof fn lemma_lex_skip_common(a: Seq<char>, b: Seq<char>, i: int)
    requires
        0 <= i <= a.len(),
        i <= b.len(),
        a.take(i) == b.take(i),
    ensures
        lex_lt(a, b) == lex_lt(a.skip(i), b.skip(i)),
    decreases i,
{
    if i > 0 {
        assert(a[0] == a.take(i)[0]);
        assert(b[0] == b.take(i)[0]);
        assert(a.drop_first().take(i - 1) =~= a.take(i).drop_first());
        assert(b.drop_first().take(i - 1) =~= b.take(i).drop_first());
        lemma_lex_skip_common(a.drop_first(), b.drop_first(), i - 1);
        assert(a.drop_first().skip(i - 1) =~= a.skip(i));
        assert(b.drop_first().skip(i - 1) =~= b.skip(i));
    } else {
        assert(a.skip(0) =~= a);
        assert(b.skip(0) =~= b);
    }
}

// ---------------------------------------------------------------------------
// Calls into std
// ---------------------------------------------------------------------------
/// Calls `str::to_lowercase`; its result is the Unicode lowercase mapping of `s`.
#[verifier::external_body]
pub(crate) fn to_lowercase(s: &str) -> (r: String)
    ensures
        r@ == lowercase(s@),
{
    s.to_lowercase()
}

/// Calls `char::is_alphanumeric`; its result is the Unicode alphanumeric test.
#[verifier::external_body]
pub(crate) fn is_alphanumeric(c: char) -> (b: bool)
    ensures
        b == alphanumeric(c),
{
    c.is_alphanumeric()
}

/// Whether `c` has the Unicode `White_Space` property (as `char::is_whitespace`).
fn is_whitespace(c: char) -> (b: bool)
    ensures
        b == white_space(c),
{
    let u = c as u32;
    (0x9 <= u && u <= 0xd) || u == 0x20 || u == 0x85 || u == 0xa0 || u == 0x1680 || (0x2000 <= u
        && u <= 0x200a) || u == 0x2028 || u == 0x2029 || u == 0x202f || u == 0x205f || u == 0x3000
}

/// Calls `String::push`, which appends one character.
#[verifier::external_body]
pub(crate) fn push_char(s: &mut String, c: char)
    ensures
        final(s)@ == old(s)@.push(c),
{
    s.push(c)
}

// ---------------------------------------------------------------------------
// Executable helpers
// ---------------------------------------------------------------------------
/// Collects the characters of a string slice.
pub fn chars_of(s: &str) -> (v: Vec<char>)
    ensures
        v@ == s@,
{
    let mut v: Vec<char> = Vec::new();
    for c in it: s.chars()
        invariant
            it.seq() == s@,
            v@ == it.seq().take(it.index() as int),
    {
        v.push(c);
        assert(v@ == it.seq().take(it.index() + 1));
    }
    v
}

/// Builds a string from characters.
pub fn string_from_chars(cs: &Vec<char>) -> (s: String)
    ensures
        s@ == cs@,
{
    let mut s = String::new();
    let n = cs.len();
    for i in 0..n
        invariant
            n == cs@.len(),
            s@ == cs@.take(i as int),
    {
        push_char(&mut s, cs[i]);
        assert(s@ =~= cs@.take(i + 1));
    }
    assert(cs@.take(n as int) =~= cs@);
    s
}

/// Appends all of `tail` to `s`.
pub fn push_str(s: &mut String, tail: &str)
    ensures
        final(s)@ == old(s)@ + tail@,
{
    let cs = chars_of(tail);
    let n = cs.len();
    let ghost start = s@;
    for i in 0..n
        invariant
            n == cs@.len(),
            cs@ == tail@,
            s@ == start + cs@.take(i as int),
    {
        push_char(s, cs[i]);
        assert(s@ =~= start + cs@.take(i + 1));
    }
    assert(cs@.take(n as int) =~= cs@);
}

/// Concatenation of two strings into a new string.
pub fn concat(a: &str, b: &str) -> (s: String)
    ensures
        s@ == a@ + b@,
{
    let mut s = String::new();
    push_str(&mut s, a);
    push_str(&mut s, b);
    assert(s@ =~= a@ + b@);
    s
}

/// A copy of a string slice as an owned string.
pub fn owned(a: &str) -> (s: String)
    ensures
        s@ == a@,
{
    let mut s = String::new();
    push_str(&mut s, a);
    assert(s@ =~= a@);
    s
}

/// Whether `needle` occurs in `hay` at position `i`.
fn occurs_at_exec(hay: &Vec<char>, needle: &Vec<char>, i: usize) -> (b: bool)
    requires
        i + needle@.len() <= hay@.len(),
    ensures
        b == occurs_at(hay@, needle@, i as int),
{
    let n = needle.len();
    let _hl = hay.len();
    let mut k: usize = 0;
    while k < n
        invariant
            n == needle@.len(),
            i + n <= hay@.len(),
            hay@.len() <= usize::MAX,
            k <= n,
            forall|m: int| 0 <= m < k ==> hay@[i + m] == needle@[m],
        decreases n - k,
    {
        if hay[i + k] != needle[k] {
            assert(hay@.subrange(i as int, i + n)[k as int] != needle@[k as int]);
            return false;
        }
        k = k + 1;
    }
    assert(hay@.subrange(i as int, i + n) =~= needle@);
    true
}

/// Substring search over characters (`str::contains` with a string pattern).
pub fn contains_chars(hay: &Vec<char>, needle: &Vec<char>) -> (b: bool)
    ensures
        b == has_substring(hay@, needle@),
{
    let h = hay.len();
    let n = needle.len();
    if n == 0 {
        assert(hay@.subrange(0, 0) =~= needle@);
        assert(occurs_at(hay@, needle@, 0));
        return true;
    }
    if n > h {
        assert forall|i: int| !occurs_at(hay@, needle@, i) by {}
        return false;
    }
    let mut i: usize = 0;
    while i <= h - n
        invariant
            h == hay@.len(),
            n == needle@.len(),
            0 < n <= h,
            i <= h - n + 1,
            forall|j: int| 0 <= j < i ==> !occurs_at(hay@, needle@, j),
        decreases h - n + 1 - i,
    {
        if occurs_at_exec(hay, needle, i) {
            return true;
        }
        i = i + 1;
    }
    assert forall|j: int| !occurs_at(hay@, needle@, j) by {
        if 0 <= j < i {
        }
    }
    false
}

/// Whether any of `words` occurs in `text`.
pub fn contains_any(text: &Vec<char>, words: &Vec<&str>) -> (b: bool)
    ensures
        b == contains_any_word(text@, strs_view(words@)),
{
    let n = words.len();
    for j in 0..n
        invariant
            n == words@.len(),
            forall|k: int| 0 <= k < j ==> !has_substring(text@, #[trigger] words@[k]@),
    {
        let w = chars_of(words[j]);
        if contains_chars(text, &w) {
            assert(strs_view(words@)[j as int] == words@[j as int]@);
            return true;
        }
    }
    assert forall|k: int| 0 <= k < strs_view(words@).len() implies !has_substring(
        text@,
        #[trigger] strs_view(words@)[k],
    ) by {
        assert(strs_view(words@)[k] == words@[k]@);
    }
    false
}

/// Whether `c` occurs in `v`.
pub fn contains_char(v: &Vec<char>, c: char) -> (b: bool)
    ensures
        b == v@.contains(c),
{
    let n = v.len();
    for i in 0..n
        invariant
            n == v@.len(),
            forall|k: int| 0 <= k < i ==> v@[k] != c,
    {
        if v[i] == c {
            return true;
        }
    }
    false
}

/// A copy of a character vector.
pub fn copy_chars(v: &Vec<char>) -> (r: Vec<char>)
    ensures
        r@ == v@,
{
    let mut r: Vec<char> = Vec::new();
    let n = v.len();
    for i in 0..n
        invariant
            n == v@.len(),
            r@ == v@.take(i as int),
    {
        r.push(v[i]);
        assert(r@ =~= v@.take(i + 1));
    }
    assert(v@.take(n as int) =~= v@);
    r
}

/// Whether `s` begins with `prefix`.
pub fn starts_with_chars(s: &Vec<char>, prefix: &Vec<char>) -> (b: bool)
    ensures
        b == starts_with(s@, prefix@),
{
    if prefix.len() > s.len() {
        return false;
    }
    let r = occurs_at_exec(s, prefix, 0);
    assert(s@.subrange(0, prefix@.len() as int) =~= s@.take(prefix@.len() as int));
    r
}

/// Whether two character vectors hold the same characters.
pub fn chars_eq(a: &Vec<char>, b: &Vec<char>) -> (r: bool)
    ensures
        r == (a@ == b@),
{
    if a.len() != b.len() {
        return false;
    }
    let r = occurs_at_exec(a, b, 0);
    assert(a@.subrange(0, b@.len() as int) =~= a@);
    r
}

/// Whether two string slices hold the same characters.
pub fn str_eq(a: &str, b: &str) -> (r: bool)
    ensures
        r == (a@ == b@),
{
    let ca = chars_of(a);
    let cb = chars_of(b);
    chars_eq(&ca, &cb)
}

/// Strict lexicographic comparison of character vectors.
pub fn lex_less(a: &Vec<char>, b: &Vec<char>) -> (r: bool)
    ensures
        r == lex_lt(a@, b@),
{
    let mut i: usize = 0;
    while i < a.len() && i < b.len()
        invariant
            i <= a@.len(),
            i <= b@.len(),
            a@.take(i as int) == b@.take(i as int),
        decreases a@.len() - i,
    {
        if a[i] != b[i] {
            let ai = a[i];
            let bi = b[i];
            proof {
                lemma_lex_skip_common(a@, b@, i as int);
                let sa = a@.skip(i as int);
                let sb = b@.skip(i as int);
                assert(sa[0] == a@[i as int]);
                assert(sb[0] == b@[i as int]);
                assert(sa.len() > 0 && sb.len() > 0);
                assert(lex_lt(sa, sb) == ((sa[0] as int) < (sb[0] as int)));
            }
            return ai < bi;
        }
        assert(a@.take(i + 1) =~= a@.take(i as int).push(a@[i as int]));
        assert(b@.take(i + 1) =~= b@.take(i as int).push(b@[i as int]));
        i = i + 1;
    }
    proof {
        lemma_lex_skip_common(a@, b@, i as int);
    }
    i < b.len() && i == a.len()
}

/// Whether `c` separates pieces for the given separator.
pub fn is_separator(sep: &Separator, c: char) -> (b: bool)
    ensures
        b == sep.holds(c),
{
    match sep {
        Separator::WordBreak => !(is_alphanumeric(c) || c == '_'),
        Separator::Underscore => c == '_',
        Separator::Whitespace => is_whitespace(c),
    }
}

/// Splits `s` at every separator character, keeping empty pieces.
pub fn split_chars(s: &Vec<char>, sep: &Separator) -> (pieces: Vec<Vec<char>>)
    ensures
        chars_view(pieces@) == split_on(s@, sep.pred()),
{
    let ghost p = sep.pred();
    let mut pieces: Vec<Vec<char>> = Vec::new();
    let mut cur: Vec<char> = Vec::new();
    let n = s.len();
    assert(s@.skip(0) =~= s@);
    for i in 0..n
        invariant
            n == s@.len(),
            p == sep.pred(),
            chars_view(pieces@) + split_pieces(cur@, s@.skip(i as int), p) == split_on(s@, p),
    {
        let c = s[i];
        let ghost rest = s@.skip(i as int);
        assert(rest[0] == c);
        assert(rest.drop_first() =~= s@.skip(i + 1));
        if is_separator(sep, c) {
            let ghost old_pieces = chars_view(pieces@);
            let ghost done = cur@;
            pieces.push(cur);
            cur = Vec::new();
            assert(chars_view(pieces@) =~= old_pieces.push(done));
            assert(cur@ =~= Seq::<char>::empty());
            assert(old_pieces + (seq![done] + split_pieces(Seq::empty(), s@.skip(i + 1), p))
                =~= old_pieces.push(done) + split_pieces(cur@, s@.skip(i + 1), p));
        } else {
            cur.push(c);
        }
    }
    let ghost old_pieces = chars_view(pieces@);
    let ghost last = cur@;
    pieces.push(cur);
    assert(chars_view(pieces@) =~= old_pieces.push(last));
    assert(s@.skip(n as int) =~= Seq::<char>::empty());
    assert(old_pieces + seq![last] =~= old_pieces.push(last));
    pieces
}

/// Inserts `x` into a strictly sorted vector unless it is already present.
pub fn insert_sorted_unique(v: &mut Vec<Vec<char>>, x: Vec<char>)
    requires
        strictly_sorted(chars_view(old(v)@)),
    ensures
        strictly_sorted(chars_view(final(v)@)),
        forall|t: Seq<char>|
            chars_view(final(v)@).contains(t) <==> (chars_view(old(v)@).contains(t) || t == x@),
{
    let ghost old_v = chars_view(v@);
    let n = v.len();
    let mut p: usize = 0;
    while p < n && lex_less(&v[p], &x)
        invariant
            n == v@.len(),
            p <= n,
            old_v == chars_view(v@),
            forall|k: int| 0 <= k < p ==> lex_lt(#[trigger] old_v[k], x@),
        decreases n - p,
    {
        assert(old_v[p as int] == v@[p as int]@);
        p = p + 1;
    }
    if p < n {
        assert(old_v[p as int] == v@[p as int]@);
        if chars_eq(&v[p], &x) {
            assert forall|t: Seq<char>|
                chars_view(v@).contains(t) <==> (old_v.contains(t) || t == x@) by {
                if t == x@ {
                    assert(old_v[p as int] == t);
                }
            }
            return ;
        }
        proof {
            lemma_lex_total(old_v[p as int], x@);
        }
    }
    proof {
        assert forall|k: int| p <= k < n implies lex_lt(x@, #[trigger] old_v[k]) by {
            if k > p {
                lemma_lex_transitive(x@, old_v[p as int], old_v[k]);
            }
        }
    }
    v.insert(p, x);
    let ghost nv = chars_view(v@);
    assert(nv =~= old_v.insert(p as int, x@));
    assert forall|i: int, j: int| 0 <= i < j < nv.len() implies lex_lt(
        #[trigger] nv[i],
        #[trigger] nv[j],
    ) by {
        if j < p {
        } else if j == p {
        } else if i < p {
            lemma_lex_transitive(nv[i], x@, nv[j]);
        } else if i == p {
        } else {
            assert(nv[i] == old_v[i - 1] && nv[j] == old_v[j - 1]);
        }
    }
    assert forall|t: Seq<char>| nv.contains(t) <==> (old_v.contains(t) || t == x@) by {
        if nv.contains(t) {
            let k = choose|k: int| 0 <= k < nv.len() && nv[k] == t;
            if k < p {
                assert(old_v[k] == t);
            } else if k > p {
                assert(old_v[k - 1] == t);
            }
        }
        if old_v.contains(t) {
            let k = choose|k: int| 0 <= k < old_v.len() && old_v[k] == t;
            if k < p {
                assert(nv[k] == t);
            } else {
                assert(nv[k + 1] == t);
            }
        }
        if t == x@ {
            assert(nv[p as int] == t);
        }
    }
}

/// Builds strings from character vectors.
pub fn strings_from(v: &Vec<Vec<char>>) -> (r: Vec<String>)
    ensures
        strings_view(r@) == chars_view(v@),
{
    let mut r: Vec<String> = Vec::new();
    let n = v.len();
    for i in 0..n
        invariant
            n == v@.len(),
            strings_view(r@) == chars_view(v@).take(i as int),
    {
        let s = string_from_chars(&v[i]);
        let ghost before = strings_view(r@);
        r.push(s);
        assert(strings_view(r@) =~= before.push(s@));
        assert(chars_view(v@).take(i + 1) =~= chars_view(v@).take(i as int).push(v@[i as int]@));
    }
    assert(chars_view(v@).take(n as int) =~= chars_view(v@));
    r
}

} // verus!

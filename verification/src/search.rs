//! Full-text search: the query plan (FTS5 trigram `MATCH` for queries of
//! three or more characters, `LIKE` on the indexed columns otherwise), the
//! escaping of the query, and how each hit is described (which fields
//! matched, whether only the body did, and a snippet around the match).

use vstd::prelude::*;
use vstd::string::StringExecFns;
use vstd::string::StringSliceAdditionalSpecFns;
use vstd::utf8::{decode_utf8, encode_utf8, is_char_boundary};
use crate::codegen::push_decimal;
use crate::decimal::decimal;
use crate::ext::{lowercase, to_lowercase_string};
use crate::text::{chars_of, join_lines, join_newlines, push_char, str_eq, string_from_chars, views_of};

verus! {

broadcast use crate::text::group_concat;

/// A search hit: the resource row and how it matched.
#[derive(Debug)]
pub struct SearchResult<R> {
    pub resource: R,
    pub matched_body: bool,
    pub match_fields: Vec<String>,
    pub snippet: Option<String>,
}

/// Index coverage: resources, those with extracted text, those still
/// waiting, and whether the index was ever built.
#[derive(Debug, Clone, Copy, PartialEq, Eq, Structural)]
pub struct IndexStats {
    pub total: u32,
    pub indexed: u32,
    pub pending: u32,
    pub fts_initialized: bool,
}

/// The statistics from the two counts. The count of indexed resources is
/// taken among the counted ones, so it is never larger.
pub fn index_stats(total: u32, indexed: u32, fts_initialized: bool) -> (s: IndexStats)
    requires
        indexed <= total,
    ensures
        s == (IndexStats { total, indexed, pending: (total - indexed) as u32, fts_initialized }),
{
    IndexStats { total, indexed, pending: total - indexed, fts_initialized }
}

/// The full-text row of one resource.
#[derive(Debug)]
pub struct IndexRow {
    pub title: String,
    pub url: String,
    pub description: String,
    pub highlights_text: String,
    pub comments_text: String,
    pub body_text: String,
}

pub open spec fn text_or_empty(t: Option<String>) -> Seq<char> {
    match t {
        Some(s) => s@,
        None => Seq::<char>::empty(),
    }
}

/// The full-text row of a resource from its fields and the texts of its
/// live highlights and comments: those are joined one per line, and a
/// missing description or body indexes as empty.
pub fn index_row(
    title: String,
    url: String,
    description: Option<String>,
    plain_text: Option<String>,
    highlights: &Vec<String>,
    comments: &Vec<String>,
) -> (r: IndexRow)
    ensures
        r.title@ == title@,
        r.url@ == url@,
        r.description@ == text_or_empty(description),
        r.highlights_text@ == join_lines(views_of(highlights@)),
        r.comments_text@ == join_lines(views_of(comments@)),
        r.body_text@ == text_or_empty(plain_text),
{
    let description = match description {
        Some(d) => d,
        None => String::new(),
    };
    let body_text = match plain_text {
        Some(b) => b,
        None => String::new(),
    };
    IndexRow {
        title,
        url,
        description,
        highlights_text: join_newlines(highlights),
        comments_text: join_newlines(comments),
        body_text,
    }
}

// ───────────────────────── occurrences ─────────────────────────

/// First position at or after `k` where `n` occurs in `h`.
pub open spec fn first_match_from<T>(h: Seq<T>, n: Seq<T>, k: int) -> Option<int>
    decreases h.len() - k,
{
    if k < 0 || k + n.len() > h.len() {
        None
    } else if n.len() == 0 {
        Some(k)
    } else if h.subrange(k, k + n.len()) == n {
        Some(k)
    } else {
        first_match_from(h, n, k + 1)
    }
}

pub open spec fn first_match<T>(h: Seq<T>, n: Seq<T>) -> Option<int> {
    first_match_from(h, n, 0)
}

/// `n` occurs in `h`.
pub open spec fn occurs<T>(h: Seq<T>, n: Seq<T>) -> bool {
    first_match(h, n) is Some
}

/// Byte offset of the first occurrence of `n` in `h` (`str::find` on the
/// bytes of two strings).
pub fn find_bytes(h: &[u8], n: &[u8]) -> (r: Option<usize>)
    ensures
        r matches Some(i) ==> first_match(h@, n@) == Some(i as int),
        r is None ==> first_match(h@, n@) is None,
{
    let mut i: usize = 0;
    if n.len() > h.len() {
        return None;
    }
    while i <= h.len() - n.len()
        invariant
            n.len() <= h.len(),
            0 <= i <= h.len() - n.len() + 1,
            first_match(h@, n@) == first_match_from(h@, n@, i as int),
        decreases h.len() - i,
    {
        let mut j: usize = 0;
        while j < n.len() && h[i + j] == n[j]
            invariant
                i + n.len() <= h.len(),
                0 <= j <= n.len(),
                forall|k: int| 0 <= k < j ==> h@[i + k] == n@[k],
            decreases n.len() - j,
        {
            j = j + 1;
        }
        if j == n.len() {
            assert(h@.subrange(i as int, i + n.len()) =~= n@);
            return Some(i);
        }
        assert(h@.subrange(i as int, i + n.len())[j as int] != n@[j as int]);
        i = i + 1;
    }
    None
}

/// Whether `n` occurs among the characters `h`.
pub fn contains_chars(h: &Vec<char>, n: &Vec<char>) -> (r: bool)
    ensures
        r == occurs(h@, n@),
{
    if n.len() > h.len() {
        return false;
    }
    let mut i: usize = 0;
    while i <= h.len() - n.len()
        invariant
            n.len() <= h.len(),
            0 <= i <= h.len() - n.len() + 1,
            first_match(h@, n@) == first_match_from(h@, n@, i as int),
        decreases h.len() - i,
    {
        let mut j: usize = 0;
        while j < n.len() && h[i + j] == n[j]
            invariant
                i + n.len() <= h.len(),
                0 <= j <= n.len(),
                forall|k: int| 0 <= k < j ==> h@[i + k] == n@[k],
            decreases n.len() - j,
        {
            j = j + 1;
        }
        if j == n.len() {
            assert(h@.subrange(i as int, i + n.len()) =~= n@);
            return true;
        }
        assert(h@.subrange(i as int, i + n.len())[j as int] != n@[j as int]);
        i = i + 1;
    }
    false
}

/// Case-insensitive containment: `lowercase(text)` contains `q_lower`.
pub open spec fn lower_contains(text: Seq<char>, q_lower: Seq<char>) -> bool {
    occurs(lowercase(text), q_lower)
}

fn lower_contains_exec(text: &str, q_lower: &Vec<char>) -> (r: bool)
    ensures
        r == lower_contains(text@, q_lower@),
{
    let l = to_lowercase_string(text);
    let lc = chars_of(l.as_str());
    contains_chars(&lc, q_lower)
}

// ───────────────────────── snippet ─────────────────────────

/// Byte offset, in the lowercased text, of the lowercased query.
pub open spec fn lower_match(text: Seq<char>, query: Seq<char>) -> Option<int> {
    first_match(encode_utf8(lowercase(text)), encode_utf8(lowercase(query)))
}

/// The match falls on a character boundary of the original text, so the
/// text can be cut there (lowercasing changed no byte lengths before it).
pub open spec fn snippet_aligned(text: Seq<char>, query: Seq<char>) -> bool {
    match lower_match(text, query) {
        Some(bp) => is_char_boundary(encode_utf8(text), bp),
        None => true,
    }
}

pub open spec fn ellipsis_if(b: bool) -> Seq<char> {
    if b {
        "..."@
    } else {
        Seq::<char>::empty()
    }
}

/// Up to `ctx` characters either side of the first case-insensitive match
/// of `query`, with `...` where the text was cut; `None` without a match.
pub open spec fn snippet_spec(text: Seq<char>, query: Seq<char>, ctx: nat) -> Option<Seq<char>> {
    match lower_match(text, query) {
        None => None,
        Some(bp) => {
            let char_pos = decode_utf8(encode_utf8(text).subrange(0, bp)).len();
            let total = text.len();
            let start: int = if char_pos >= ctx {
                char_pos - ctx
            } else {
                0
            };
            let end: int = if char_pos + query.len() + ctx < total {
                (char_pos + query.len() + ctx) as int
            } else {
                total as int
            };
            Some(ellipsis_if(start > 0) + text.subrange(start, end) + ellipsis_if(end < total))
        },
    }
}

/// Byte offset of the lowercased query in the lowercased text.
pub fn snippet_position(text: &str, query: &str) -> (r: Option<usize>)
    ensures
        r matches Some(i) ==> lower_match(text@, query@) == Some(i as int),
        r is None ==> lower_match(text@, query@) is None,
{
    let tl = to_lowercase_string(text);
    let ql = to_lowercase_string(query);
    find_bytes(tl.as_str().as_bytes(), ql.as_str().as_bytes())
}

/// The snippet around the first case-insensitive occurrence of `query`.
pub fn extract_snippet(text: &str, query: &str, context_chars: usize) -> (r: Option<String>)
    requires
        snippet_aligned(text@, query@),
        text@.len() + query@.len() + context_chars <= usize::MAX,
    ensures
        match snippet_spec(text@, query@, context_chars as nat) {
            Some(s) => r matches Some(x) && x@ == s,
            None => r is None,
        },
{
    let bp = match snippet_position(text, query) {
        Some(b) => b,
        None => return None,
    };
    let (pre, _) = text.split_at(bp);
    proof {
        vstd::utf8::encode_utf8_decode_utf8(pre@);
    }
    let chars = chars_of(text);
    let pre_chars = chars_of(pre);
    let qc = chars_of(query);
    let char_pos = pre_chars.len();
    proof {
        assert(pre.spec_bytes() =~= encode_utf8(text@).subrange(0, bp as int));
        assert(pre@ == decode_utf8(encode_utf8(text@).subrange(0, bp as int)));
        lemma_prefix_chars(text@, bp as int);
    }
    let total = chars.len();
    let start: usize = if char_pos >= context_chars {
        char_pos - context_chars
    } else {
        0
    };
    let end: usize = if char_pos + qc.len() + context_chars < total {
        char_pos + qc.len() + context_chars
    } else {
        total
    };
    let mut out = String::new();
    if start > 0 {
        out.append("...");
    }
    let mut i: usize = start;
    let ghost base = out@;
    while i < end
        invariant
            start <= i <= end,
            end <= chars.len(),
            chars@ == text@,
            out@ == base + text@.subrange(start as int, i as int),
        decreases end - i,
    {
        push_char(&mut out, chars[i]);
        i = i + 1;
        assert(text@.subrange(start as int, i as int) =~= text@.subrange(start as int, i - 1).push(
            text@[i - 1],
        ));
    }
    if end < total {
        out.append("...");
    }
    assert(out@ == ellipsis_if(start > 0) + text@.subrange(start as int, end as int) + ellipsis_if(
        end < total,
    ));
    Some(out)
}

/// The characters before a character boundary are no more than the text.
proof fn lemma_prefix_chars(text: Seq<char>, bp: int)
    requires
        is_char_boundary(encode_utf8(text), bp),
    ensures
        decode_utf8(encode_utf8(text).subrange(0, bp)).len() <= text.len(),
{
    let b = encode_utf8(text);
    vstd::utf8::encode_utf8_valid_utf8(text);
    vstd::utf8::valid_utf8_split(b, bp);
    vstd::utf8::decode_utf8_split(b, bp);
    vstd::utf8::encode_utf8_decode_utf8(text);
}

// ───────────────────────── hits ─────────────────────────

/// Which fields of a hit hold the query (case-insensitively), in order.
pub open spec fn match_fields_spec(
    q_lower: Seq<char>,
    title: Seq<char>,
    url: Seq<char>,
    description: Option<Seq<char>>,
    highlights: Seq<char>,
    comments: Seq<char>,
    body: Seq<char>,
) -> Seq<Seq<char>> {
    let f1 = if lower_contains(title, q_lower) {
        seq!["title"@]
    } else {
        seq![]
    };
    let f2 = if lower_contains(url, q_lower) {
        seq!["url"@]
    } else {
        seq![]
    };
    let f3 = if description matches Some(d) && lower_contains(d, q_lower) {
        seq!["description"@]
    } else {
        seq![]
    };
    let f4 = if lower_contains(highlights, q_lower) {
        seq!["highlights"@]
    } else {
        seq![]
    };
    let f5 = if lower_contains(comments, q_lower) {
        seq!["comments"@]
    } else {
        seq![]
    };
    let f6 = if lower_contains(body, q_lower) {
        seq!["body"@]
    } else {
        seq![]
    };
    f1 + f2 + f3 + f4 + f5 + f6
}

/// How a hit matched.
pub struct HitMatch {
    pub match_fields: Vec<String>,
    pub matched_body: bool,
    pub snippet: Option<String>,
}

pub open spec fn names_of(v: Seq<String>) -> Seq<Seq<char>> {
    v.map_values(|s: String| s@)
}

fn push_field(fields: &mut Vec<String>, name: &str, hit: bool)
    ensures
        names_of(final(fields)@) == names_of(old(fields)@) + (if hit {
            seq![name@]
        } else {
            Seq::<Seq<char>>::empty()
        }),
{
    let ghost before = fields@;
    if hit {
        fields.push(name.to_owned());
        assert(names_of(fields@) =~= names_of(before) + seq![name@]);
    } else {
        assert(names_of(fields@) =~= names_of(before) + Seq::<Seq<char>>::empty());
    }
}

/// Describe a hit for the (trimmed) query: the fields that contain it,
/// whether only the body did (or nothing did, when the index and the
/// fields disagree), and a 20-character snippet of the body around it.
/// The snippet is left out when lowercasing moved the match off a
/// character boundary of the body.
pub fn describe_hit(
    query: &str,
    title: &str,
    url: &str,
    description: Option<&str>,
    highlights: &str,
    comments: &str,
    body: &str,
) -> (h: HitMatch)
    requires
        body@.len() + query@.len() + 20 <= usize::MAX,
    ensures
        ({
            let q = lowercase(query@);
            let d = match description {
                Some(s) => Some(s@),
                None => None,
            };
            let fields = match_fields_spec(q, title@, url@, d, highlights@, comments@, body@);
            &&& names_of(h.match_fields@) == fields
            &&& h.matched_body == (fields.len() == 0 || fields == seq!["body"@])
            &&& h.snippet is Some ==> lower_contains(body@, q)
            &&& !snippet_aligned(body@, query@) ==> h.snippet is None
            &&& (lower_contains(body@, q) && snippet_aligned(body@, query@)) ==> (match snippet_spec(
                body@,
                query@,
                20,
            ) {
                Some(s) => h.snippet matches Some(x) && x@ == s,
                None => h.snippet is None,
            })
        }),
{
    let ql = to_lowercase_string(query);
    let qc = chars_of(ql.as_str());
    let mut fields: Vec<String> = Vec::new();
    push_field(&mut fields, "title", lower_contains_exec(title, &qc));
    push_field(&mut fields, "url", lower_contains_exec(url, &qc));
    let d_hit = match description {
        Some(d) => lower_contains_exec(d, &qc),
        None => false,
    };
    push_field(&mut fields, "description", d_hit);
    push_field(&mut fields, "highlights", lower_contains_exec(highlights, &qc));
    push_field(&mut fields, "comments", lower_contains_exec(comments, &qc));
    let body_hit = lower_contains_exec(body, &qc);
    push_field(&mut fields, "body", body_hit);
    let snippet = if body_hit {
        match snippet_position(body, query) {
            Some(bp) => {
                if body.is_char_boundary(bp) {
                    extract_snippet(body, query, 20)
                } else {
                    None
                }
            },
            None => extract_snippet(body, query, 20),
        }
    } else {
        None
    };
    let n = fields.len();
    let only_body = n == 1 && str_eq(fields[0].as_str(), "body");
    proof {
        let q = lowercase(query@);
        let d = match description {
            Some(s) => Some(s@),
            None => None,
        };
        let spec_fields = match_fields_spec(q, title@, url@, d, highlights@, comments@, body@);
        assert(names_of(fields@) == spec_fields);
        if n == 1 {
            assert(names_of(fields@)[0] == fields@[0]@);
            if only_body {
                assert(names_of(fields@) =~= seq!["body"@]);
            }
            if spec_fields == seq!["body"@] {
                assert(names_of(fields@)[0] == "body"@);
            }
        }
    }
    HitMatch { match_fields: fields, matched_body: n == 0 || only_body, snippet }
}

// ───────────────────────── query plan ─────────────────────────

/// `char::is_whitespace`: the Unicode `White_Space` characters.
pub open spec fn is_white_space(c: char) -> bool {
    ||| '\u{9}' <= c <= '\u{d}'
    ||| c == ' '
    ||| c == '\u{85}'
    ||| c == '\u{a0}'
    ||| c == '\u{1680}'
    ||| '\u{2000}' <= c <= '\u{200a}'
    ||| c == '\u{2028}'
    ||| c == '\u{2029}'
    ||| c == '\u{202f}'
    ||| c == '\u{205f}'
    ||| c == '\u{3000}'
}

fn is_white_space_exec(c: char) -> (r: bool)
    ensures
        r == is_white_space(c),
{
    ('\u{9}' <= c && c <= '\u{d}') || c == ' ' || c == '\u{85}' || c == '\u{a0}' || c == '\u{1680}'
        || ('\u{2000}' <= c && c <= '\u{200a}') || c == '\u{2028}' || c == '\u{2029}' || c
        == '\u{202f}' || c == '\u{205f}' || c == '\u{3000}'
}

/// Number of leading white-space characters.
pub open spec fn lead_ws(s: Seq<char>) -> nat
    decreases s.len(),
{
    if s.len() > 0 && is_white_space(s[0]) {
        1 + lead_ws(s.drop_first())
    } else {
        0
    }
}

/// Number of trailing white-space characters.
pub open spec fn trail_ws(s: Seq<char>) -> nat
    decreases s.len(),
{
    if s.len() > 0 && is_white_space(s.last()) {
        1 + trail_ws(s.drop_last())
    } else {
        0
    }
}

/// `str::trim`: without leading and trailing white space.
pub open spec fn trim_spec(s: Seq<char>) -> Seq<char> {
    let a = lead_ws(s);
    if a == s.len() {
        Seq::<char>::empty()
    } else {
        s.subrange(a as int, s.len() - trail_ws(s))
    }
}

proof fn lemma_lead_ws(s: Seq<char>, i: int)
    requires
        0 <= i <= s.len(),
        forall|j: int| 0 <= j < i ==> is_white_space(#[trigger] s[j]),
    ensures
        lead_ws(s) >= i,
        i < s.len() && !is_white_space(s[i]) ==> lead_ws(s) == i,
    decreases i,
{
    if i > 0 {
        lemma_lead_ws(s.drop_first(), i - 1);
    } else if s.len() > 0 && !is_white_space(s[0]) {
    }
}

proof fn lemma_trail_ws(s: Seq<char>, k: int)
    requires
        0 <= k <= s.len(),
        forall|j: int| s.len() - k <= j < s.len() ==> is_white_space(#[trigger] s[j]),
    ensures
        trail_ws(s) >= k,
        k < s.len() && !is_white_space(s[s.len() - k - 1]) ==> trail_ws(s) == k,
    decreases k,
{
    if k > 0 {
        assert forall|j: int| s.drop_last().len() - (k - 1) <= j < s.drop_last().len() implies is_white_space(
            #[trigger] s.drop_last()[j],
        ) by {
            assert(s.drop_last()[j] == s[j]);
        }
        lemma_trail_ws(s.drop_last(), k - 1);
        if k < s.len() && !is_white_space(s[s.len() - k - 1]) {
            assert(s.drop_last()[s.drop_last().len() - (k - 1) - 1] == s[s.len() - k - 1]);
        }
    }
}

proof fn lemma_ws_bounds(s: Seq<char>)
    ensures
        lead_ws(s) <= s.len(),
        trail_ws(s) <= s.len(),
        lead_ws(s) < s.len() ==> lead_ws(s) + trail_ws(s) <= s.len(),
    decreases s.len(),
{
    if s.len() > 0 {
        lemma_ws_bounds(s.drop_first());
        lemma_ws_bounds(s.drop_last());
    }
    if lead_ws(s) < s.len() {
        let a = lead_ws(s) as int;
        lemma_lead_ws_all(s, a);
        lemma_trail_ws_all(s, trail_ws(s) as int);
        if a + trail_ws(s) > s.len() {
            assert(s.len() - trail_ws(s) <= a < s.len());
            assert(is_white_space(s[a]));
        }
    }
}

proof fn lemma_ws_le(s: Seq<char>)
    ensures
        lead_ws(s) <= s.len(),
        trail_ws(s) <= s.len(),
    decreases s.len(),
{
    if s.len() > 0 {
        lemma_ws_le(s.drop_first());
        lemma_ws_le(s.drop_last());
    }
}

proof fn lemma_lead_ws_all(s: Seq<char>, a: int)
    requires
        a == lead_ws(s),
    ensures
        forall|j: int| 0 <= j < a ==> is_white_space(#[trigger] s[j]),
        a < s.len() ==> !is_white_space(s[a]),
    decreases s.len(),
{
    lemma_ws_le(s);
    lemma_ws_le(s.drop_first());
    if s.len() > 0 && is_white_space(s[0]) {
        lemma_lead_ws_all(s.drop_first(), a - 1);
        assert forall|j: int| 0 <= j < a implies is_white_space(#[trigger] s[j]) by {
            if j > 0 {
                assert(s[j] == s.drop_first()[j - 1]);
            }
        }
        if a < s.len() {
            assert(s[a] == s.drop_first()[a - 1]);
        }
    }
}

proof fn lemma_trail_ws_all(s: Seq<char>, k: int)
    requires
        k == trail_ws(s),
    ensures
        forall|j: int| s.len() - k <= j < s.len() ==> is_white_space(#[trigger] s[j]),
    decreases s.len(),
{
    lemma_ws_le(s);
    if s.len() > 0 && is_white_space(s.last()) {
        lemma_ws_le(s.drop_last());
        lemma_trail_ws_all(s.drop_last(), k - 1);
        assert forall|j: int| s.len() - k <= j < s.len() implies is_white_space(#[trigger] s[j]) by {
            if j < s.len() - 1 {
                assert(s[j] == s.drop_last()[j]);
            }
        }
    }
}

/// `s.trim()`.
pub fn trim(s: &str) -> (r: String)
    ensures
        r@ == trim_spec(s@),
{
    let cs = chars_of(s);
    let n = cs.len();
    let mut a: usize = 0;
    while a < n && is_white_space_exec(cs[a])
        invariant
            0 <= a <= n,
            n == cs.len(),
            cs@ == s@,
            forall|j: int| 0 <= j < a ==> is_white_space(#[trigger] s@[j]),
        decreases n - a,
    {
        a = a + 1;
    }
    proof {
        lemma_lead_ws(s@, a as int);
        lemma_ws_bounds(s@);
        if a < n {
            assert(lead_ws(s@) == a);
        } else {
            assert(lead_ws(s@) == n);
        }
    }
    if a == n {
        return String::new();
    }
    let mut b: usize = n;
    while b > a && is_white_space_exec(cs[b - 1])
        invariant
            a < n,
            a <= b <= n,
            n == cs.len(),
            cs@ == s@,
            !is_white_space(s@[a as int]),
            forall|j: int| b <= j < n ==> is_white_space(#[trigger] s@[j]),
        decreases b,
    {
        b = b - 1;
    }
    proof {
        lemma_trail_ws(s@, n - b);
        assert(b > a);
        assert(trail_ws(s@) == n - b);
    }
    let mut out = String::new();
    let mut i: usize = a;
    while i < b
        invariant
            a <= i <= b,
            b <= n,
            n == cs.len(),
            cs@ == s@,
            out@ == s@.subrange(a as int, i as int),
        decreases b - i,
    {
        push_char(&mut out, cs[i]);
        i = i + 1;
        assert(s@.subrange(a as int, i as int) =~= s@.subrange(a as int, i - 1).push(s@[i - 1]));
    }
    out
}

/// The FTS5 `MATCH` operand: the input in double quotes, inner quotes doubled.
pub open spec fn fts_quoted(s: Seq<char>) -> Seq<char>
    decreases s.len(),
{
    if s.len() == 0 {
        Seq::<char>::empty()
    } else if s.last() == '"' {
        fts_quoted(s.drop_last()) + seq!['"', '"']
    } else {
        fts_quoted(s.drop_last()).push(s.last())
    }
}

pub fn escape_fts_query(input: &str) -> (r: String)
    ensures
        r@ == seq!['"'] + fts_quoted(input@) + seq!['"'],
{
    let cs = chars_of(input);
    let mut body: Vec<char> = Vec::new();
    let mut i: usize = 0;
    while i < cs.len()
        invariant
            0 <= i <= cs.len(),
            cs@ == input@,
            body@ == fts_quoted(input@.take(i as int)),
        decreases cs.len() - i,
    {
        let c = cs[i];
        if c == '"' {
            body.push('"');
            body.push('"');
        } else {
            body.push(c);
        }
        proof {
            assert(input@.take(i + 1).drop_last() =~= input@.take(i as int));
        }
        i = i + 1;
        assert(body@ =~= fts_quoted(input@.take(i as int)));
    }
    assert(input@.take(i as int) =~= input@);
    let mut all: Vec<char> = Vec::new();
    all.push('"');
    let mut k: usize = 0;
    while k < body.len()
        invariant
            0 <= k <= body.len(),
            all@ == seq!['"'] + body@.take(k as int),
        decreases body.len() - k,
    {
        all.push(body[k]);
        k = k + 1;
        assert(all@ =~= seq!['"'] + body@.take(k as int));
    }
    all.push('"');
    assert(body@.take(k as int) =~= body@);
    assert(all@ =~= seq!['"'] + fts_quoted(input@) + seq!['"']);
    string_from_chars(&all)
}


// ───────────────────────── SQL of a search ─────────────────────────

pub open spec fn fts_select() -> Seq<char> {
    "SELECT r.id, r.title, r.url, r.domain, r.author, r.description, r.folder_id, r.resource_type, r.file_path, r.created_at, r.captured_at, r.selection_meta, si.highlights_text, si.comments_text, si.body_text FROM resources r JOIN search_index si ON r.id = si.resource_id WHERE r.deleted_at IS NULL AND search_index MATCH ?1"@
}

pub open spec fn like_select() -> Seq<char> {
    "SELECT r.id, r.title, r.url, r.domain, r.author, r.description, r.folder_id, r.resource_type, r.file_path, r.created_at, r.captured_at, r.selection_meta, si.highlights_text, si.comments_text, si.body_text FROM resources r JOIN search_index si ON r.id = si.resource_id WHERE r.deleted_at IS NULL AND (si.title LIKE ?1 OR si.url LIKE ?1 OR si.description LIKE ?1 OR si.highlights_text LIKE ?1 OR si.comments_text LIKE ?1 OR si.body_text LIKE ?1)"@
}

pub open spec fn annotated_order() -> Seq<char> {
    " ORDER BY COALESCE((SELECT MAX(created_at) FROM (SELECT created_at FROM highlights WHERE resource_id = r.id AND deleted_at IS NULL UNION ALL SELECT created_at FROM comments WHERE resource_id = r.id AND deleted_at IS NULL)), r.created_at) "@
}

/// `?first, ?first+1, …` for `n` parameters.
pub open spec fn placeholders(first: nat, n: nat) -> Seq<char>
    decreases n,
{
    if n == 0 {
        Seq::<char>::empty()
    } else if n == 1 {
        "?"@ + decimal(first)
    } else {
        placeholders(first, (n - 1) as nat) + ", "@ + "?"@ + decimal((first + n - 1) as nat)
    }
}

pub open spec fn order_dir(sort_order: Seq<char>) -> Seq<char> {
    if sort_order == "asc"@ || sort_order == "ASC"@ {
        "ASC"@
    } else {
        "DESC"@
    }
}

/// The SQL of a search for the trimmed query `t`.
pub open spec fn search_sql(t: Seq<char>, has_folder: bool, n_tags: nat, sort_by: Seq<char>, sort_order: Seq<char>) -> Seq<char> {
    (if t.len() >= 3 {
        fts_select()
    } else {
        like_select()
    }) + (if has_folder {
        " AND r.folder_id = ?"@ + decimal(2)
    } else {
        Seq::<char>::empty()
    }) + (if n_tags > 0 {
        " AND EXISTS (SELECT 1 FROM resource_tags rt WHERE rt.resource_id = r.id AND rt.tag_id IN ("@
            + placeholders(if has_folder { 3 } else { 2 }, n_tags) + ") AND rt.deleted_at IS NULL)"@
    } else {
        Seq::<char>::empty()
    }) + (if sort_by == "annotated_at"@ {
        annotated_order() + order_dir(sort_order)
    } else {
        " ORDER BY r.created_at "@ + order_dir(sort_order)
    })
}

/// The statement's parameters, in placeholder order.
pub open spec fn search_params(t: Seq<char>, folder: Option<Seq<char>>, tags: Seq<Seq<char>>) -> Seq<Seq<char>> {
    seq![
        if t.len() >= 3 {
            seq!['"'] + fts_quoted(t) + seq!['"']
        } else {
            "%"@ + t + "%"@
        },
    ] + (match folder {
        Some(f) => seq![f],
        None => Seq::<Seq<char>>::empty(),
    }) + tags
}

proof fn lemma_prefix_suffix_of_concat(p: Seq<char>, q: Seq<char>)
    ensures
        p.is_prefix_of(p + q),
        q.is_suffix_of(p + q),
{
    assert(p =~= (p + q).subrange(0, p.len() as int));
    assert(q =~= (p + q).subrange(p.len() as int, (p + q).len() as int));
}

proof fn lemma_search_sql_parts(
    t: Seq<char>,
    has_folder: bool,
    n_tags: nat,
    sort_by: Seq<char>,
    sort_order: Seq<char>,
)
    ensures
        t.len() >= 3 ==> fts_select().is_prefix_of(search_sql(t, has_folder, n_tags, sort_by, sort_order)),
        t.len() < 3 ==> like_select().is_prefix_of(search_sql(t, has_folder, n_tags, sort_by, sort_order)),
        order_dir(sort_order).is_suffix_of(search_sql(t, has_folder, n_tags, sort_by, sort_order)),
{
    let head = if t.len() >= 3 { fts_select() } else { like_select() };
    let fpart = if has_folder { " AND r.folder_id = ?"@ + decimal(2) } else { Seq::<char>::empty() };
    let tpart = if n_tags > 0 {
        " AND EXISTS (SELECT 1 FROM resource_tags rt WHERE rt.resource_id = r.id AND rt.tag_id IN ("@
            + placeholders(if has_folder { 3 } else { 2 }, n_tags) + ") AND rt.deleted_at IS NULL)"@
    } else {
        Seq::<char>::empty()
    };
    let lead = if sort_by == "annotated_at"@ { annotated_order() } else { " ORDER BY r.created_at "@ };
    let rest = fpart + tpart + lead;
    let sql = search_sql(t, has_folder, n_tags, sort_by, sort_order);
    assert(sql == head + (rest + order_dir(sort_order)));
    lemma_prefix_suffix_of_concat(head, rest + order_dir(sort_order));
    assert(sql == (head + rest) + order_dir(sort_order));
    lemma_prefix_suffix_of_concat(head + rest, order_dir(sort_order));
}

/// Law: a trimmed query of three or more characters is matched against the
/// trigram index, with its quoted form as first parameter; a shorter one is
/// matched with `LIKE`, with `%query%` as first parameter. The folder, when
/// given, is the next parameter, then the tags in order. The statement ends
/// with the direction: `ASC` exactly for the sort order `asc` or `ASC`,
/// `DESC` for any other.
pub proof fn lemma_search_shape(
    t: Seq<char>,
    folder: Option<Seq<char>>,
    tags: Seq<Seq<char>>,
    sort_by: Seq<char>,
    sort_order: Seq<char>,
)
    ensures
        t.len() >= 3 ==> fts_select().is_prefix_of(search_sql(t, folder is Some, tags.len(), sort_by, sort_order)),
        t.len() < 3 ==> like_select().is_prefix_of(search_sql(t, folder is Some, tags.len(), sort_by, sort_order)),
        t.len() >= 3 ==> search_params(t, folder, tags)[0] == seq!['"'] + fts_quoted(t) + seq!['"'],
        t.len() < 3 ==> search_params(t, folder, tags)[0] == "%"@ + t + "%"@,
        search_params(t, folder, tags).len() == 1 + (if folder is Some { 1int } else { 0int }) + tags.len(),
        folder matches Some(f) ==> search_params(t, folder, tags)[1] == f,
        forall|k: int| 0 <= k < tags.len() ==> search_params(t, folder, tags)[1 + (if folder is Some { 1int } else { 0int }) + k]
            == #[trigger] tags[k],
        order_dir(sort_order).is_suffix_of(search_sql(t, folder is Some, tags.len(), sort_by, sort_order)),
        sort_order == "asc"@ || sort_order == "ASC"@ ==> order_dir(sort_order) == "ASC"@,
        !(sort_order == "asc"@ || sort_order == "ASC"@) ==> order_dir(sort_order) == "DESC"@,
        "ASC"@ != "DESC"@,
{
    lemma_search_sql_parts(t, folder is Some, tags.len(), sort_by, sort_order);
    reveal_strlit("ASC");
    reveal_strlit("DESC");
    assert("ASC"@.len() != "DESC"@.len());
    let ps = search_params(t, folder, tags);
    let off: int = if folder is Some { 1int } else { 0int };
    assert forall|k: int| 0 <= k < tags.len() implies ps[1 + off + k] == #[trigger] tags[k] by {}
}

/// A prepared search: the statement and its text parameters.
pub struct SearchPlan {
    pub sql: String,
    pub params: Vec<String>,
}

fn push_placeholders(out: &mut String, first: usize, n: usize)
    requires
        first + n <= usize::MAX,
    ensures
        final(out)@ == old(out)@ + placeholders(first as nat, n as nat),
{
    let ghost start = out@;
    let mut k: usize = 0;
    while k < n
        invariant
            0 <= k <= n,
            first + n <= usize::MAX,
            out@ == start + placeholders(first as nat, k as nat),
        decreases n - k,
    {
        if k > 0 {
            out.append(", ");
        }
        out.append("?");
        push_decimal(out, first + k);
        k = k + 1;
        assert(out@ == start + placeholders(first as nat, k as nat));
    }
}

/// The statement and parameters of a search, or `None` when the query is
/// blank. Queries of three or more characters use the trigram `MATCH`;
/// shorter ones fall back to `LIKE` on every indexed column.
#[verifier::rlimit(30)]
pub fn plan_search(query: &str, folder_id: Option<&str>, tag_ids: &[String], sort_by: &str, sort_order: &str) -> (r: Option<SearchPlan>)
    requires
        tag_ids@.len() + 3 <= usize::MAX,
    ensures
        trim_spec(query@).len() == 0 <==> r is None,
        r matches Some(p) ==> ({
            let t = trim_spec(query@);
            let folder = match folder_id {
                Some(f) => Some(f@),
                None => None,
            };
            &&& p.sql@ == search_sql(t, folder_id is Some, tag_ids@.len(), sort_by@, sort_order@)
            &&& names_of(p.params@) == search_params(t, folder, names_of(tag_ids@))
        }),
{
    let trimmed = trim(query);
    let tc = chars_of(trimmed.as_str());
    if tc.len() == 0 {
        return None;
    }
    let ghost t = trim_spec(query@);
    let dir = if str_eq(sort_order, "asc") || str_eq(sort_order, "ASC") {
        "ASC"
    } else {
        "DESC"
    };
    let mut sql = String::new();
    let mut params: Vec<String> = Vec::new();
    if tc.len() >= 3 {
        sql.append("SELECT r.id, r.title, r.url, r.domain, r.author, r.description, r.folder_id, r.resource_type, r.file_path, r.created_at, r.captured_at, r.selection_meta, si.highlights_text, si.comments_text, si.body_text FROM resources r JOIN search_index si ON r.id = si.resource_id WHERE r.deleted_at IS NULL AND search_index MATCH ?1");
        params.push(escape_fts_query(trimmed.as_str()));
    } else {
        sql.append("SELECT r.id, r.title, r.url, r.domain, r.author, r.description, r.folder_id, r.resource_type, r.file_path, r.created_at, r.captured_at, r.selection_meta, si.highlights_text, si.comments_text, si.body_text FROM resources r JOIN search_index si ON r.id = si.resource_id WHERE r.deleted_at IS NULL AND (si.title LIKE ?1 OR si.url LIKE ?1 OR si.description LIKE ?1 OR si.highlights_text LIKE ?1 OR si.comments_text LIKE ?1 OR si.body_text LIKE ?1)");
        let mut pat = "%".to_owned();
        pat.append(trimmed.as_str());
        pat.append("%");
        params.push(pat);
    }
    let ghost sql1 = sql@;
    let ghost p1 = names_of(params@);
    let mut index: usize = 2;
    match folder_id {
        Some(f) => {
            sql.append(" AND r.folder_id = ?");
            push_decimal(&mut sql, 2);
            params.push(f.to_owned());
            index = 3;
        },
        None => {},
    }
    let ghost sql2 = sql@;
    let ghost p2 = names_of(params@);
    if tag_ids.len() > 0 {
        sql.append(" AND EXISTS (SELECT 1 FROM resource_tags rt WHERE rt.resource_id = r.id AND rt.tag_id IN (");
        push_placeholders(&mut sql, index, tag_ids.len());
        sql.append(") AND rt.deleted_at IS NULL)");
    }
    let ghost sql3 = sql@;
    let mut k: usize = 0;
    while k < tag_ids.len()
        invariant
            0 <= k <= tag_ids.len(),
            names_of(params@) == p2 + names_of(tag_ids@.take(k as int)),
        decreases tag_ids.len() - k,
    {
        let ghost before = params@;
        let tag = tag_ids[k].clone();
        assert(tag@ == tag_ids@[k as int]@);
        params.push(tag);
        proof {
            assert(params@ == before.push(tag));
            assert(names_of(params@) =~= names_of(before).push(tag@));
            assert(tag_ids@.take(k + 1) =~= tag_ids@.take(k as int).push(tag_ids@[k as int]));
            assert(names_of(tag_ids@.take(k + 1)) =~= names_of(tag_ids@.take(k as int)).push(tag@));
        }
        k = k + 1;
        assert(names_of(params@) =~= p2 + names_of(tag_ids@.take(k as int)));
    }
    assert(tag_ids@.take(k as int) =~= tag_ids@);
    if str_eq(sort_by, "annotated_at") {
        sql.append(" ORDER BY COALESCE((SELECT MAX(created_at) FROM (SELECT created_at FROM highlights WHERE resource_id = r.id AND deleted_at IS NULL UNION ALL SELECT created_at FROM comments WHERE resource_id = r.id AND deleted_at IS NULL)), r.created_at) ");
    } else {
        sql.append(" ORDER BY r.created_at ");
    }
    sql.append(dir);
    proof {
        let folder = match folder_id {
            Some(f) => Some(f@),
            None => None,
        };
        assert(tc@ == t);
        assert(p1 =~= seq![
            if t.len() >= 3 {
                seq!['"'] + fts_quoted(t) + seq!['"']
            } else {
                "%"@ + t + "%"@
            },
        ]);
        assert(p2 =~= p1 + (match folder {
            Some(f) => seq![f],
            None => Seq::<Seq<char>>::empty(),
        }));
        assert(names_of(params@) =~= search_params(t, folder, names_of(tag_ids@)));
    }
    Some(SearchPlan { sql, params })
}

} // verus!

//! Preparing a saved page for the reader: the page's own `<script>` blocks
//! are removed (so they cannot rewrite the DOM and break highlight anchors)
//! and the annotator is injected before `</head>`.

use vstd::prelude::*;
use vstd::string::StringExecFns;
use crate::hlc::{find_char, lemma_find_char};
use crate::search::{first_match, first_match_from};
use crate::text::{chars_of, string_from_chars};

verus! {

broadcast use crate::text::group_concat;

/// ASCII lowercase of a character (other characters unchanged).
pub open spec fn ascii_lower(c: char) -> char {
    if 'A' <= c <= 'Z' {
        ((c as u32) + 32) as char
    } else {
        c
    }
}

pub(crate) fn ascii_lower_exec(c: char) -> (r: char)
    ensures
        r == ascii_lower(c),
{
    if 'A' <= c && c <= 'Z' {
        let b: u8 = (c as u8) + 32;
        proof {
            assert(c as u8 == c as u32);
        }
        b as char
    } else {
        c
    }
}

/// `n` occurs at `i` in `h`, ignoring ASCII case.
pub open spec fn matches_ci_at(h: Seq<char>, i: int, n: Seq<char>) -> bool {
    &&& 0 <= i
    &&& i + n.len() <= h.len()
    &&& forall|k: int| 0 <= k < n.len() ==> ascii_lower(#[trigger] h[i + k]) == ascii_lower(n[k])
}

pub open spec fn scan_ci(h: Seq<char>, i: int, n: Seq<char>) -> Option<int>
    decreases h.len() - i,
{
    if i < 0 || i + n.len() > h.len() {
        None
    } else if matches_ci_at(h, i, n) {
        Some(i)
    } else {
        scan_ci(h, i + 1, n)
    }
}

/// First case-insensitive occurrence of `n` at or after `start`; none for
/// an empty needle or a start past the end.
pub open spec fn find_ci_spec(h: Seq<char>, start: int, n: Seq<char>) -> Option<int> {
    if n.len() == 0 || start >= h.len() {
        None
    } else {
        scan_ci(h, start, n)
    }
}

proof fn lemma_scan_ci(h: Seq<char>, i: int, n: Seq<char>)
    requires
        0 <= i,
    ensures
        scan_ci(h, i, n) matches Some(p) ==> i <= p && matches_ci_at(h, p, n),
    decreases h.len() - i,
{
    if i + n.len() <= h.len() && !matches_ci_at(h, i, n) {
        lemma_scan_ci(h, i + 1, n);
    }
}

pub fn find_ci(haystack: &Vec<char>, start: usize, needle: &Vec<char>) -> (r: Option<usize>)
    ensures
        match find_ci_spec(haystack@, start as int, needle@) {
            Some(p) => r == Some(p as usize),
            None => r is None,
        },
{
    if needle.len() == 0 || start >= haystack.len() {
        return None;
    }
    let mut i: usize = start;
    while needle.len() <= haystack.len() && i <= haystack.len() - needle.len()
        invariant
            start <= i,
            find_ci_spec(haystack@, start as int, needle@) == scan_ci(haystack@, i as int, needle@),
            needle.len() > 0,
            start < haystack.len(),
        decreases haystack.len() - i,
    {
        let mut ok = true;
        let mut j: usize = 0;
        while j < needle.len()
            invariant
                0 <= j <= needle.len(),
                i + needle.len() <= haystack.len(),
                ok ==> forall|k: int| 0 <= k < j ==> ascii_lower(#[trigger] haystack@[i + k]) == ascii_lower(needle@[k]),
                !ok ==> !matches_ci_at(haystack@, i as int, needle@),
            ensures
                ok ==> j == needle.len(),
                ok ==> forall|k: int| 0 <= k < j ==> ascii_lower(#[trigger] haystack@[i + k]) == ascii_lower(needle@[k]),
                !ok ==> !matches_ci_at(haystack@, i as int, needle@),
            decreases needle.len() - j,
        {
            let a = ascii_lower_exec(haystack[i + j]);
            let b = ascii_lower_exec(needle[j]);
            if a != b {
                ok = false;
                assert(ascii_lower(haystack@[i + j]) != ascii_lower(needle@[j as int]));
                break;
            }
            j = j + 1;
        }
        if ok {
            return Some(i);
        }
        i = i + 1;
    }
    None
}

// ───────────────────────── stripping ─────────────────────────

pub open spec fn script_open() -> Seq<char> {
    seq!['<', 's', 'c', 'r', 'i', 'p', 't']
}

pub open spec fn script_close() -> Seq<char> {
    seq!['<', '/', 's', 'c', 'r', 'i', 'p', 't']
}

/// What may follow `<script` for it to be a tag: `>`, `/` or ASCII
/// white space.
pub open spec fn tag_boundary(c: char) -> bool {
    c == '>' || c == '/' || c == ' ' || c == '\t' || c == '\n' || c == '\r' || c == '\u{c}'
}

/// Position of the first `c` at or after `a`.
pub open spec fn index_from(s: Seq<char>, a: int, c: char) -> Option<int> {
    match find_char(s.skip(a), c) {
        Some(i) => Some(a + i),
        None => None,
    }
}

/// The text from `cursor` on, without script blocks. A `<script` not
/// followed by a tag boundary is kept; an opening tag without `>`, or a
/// script without `</script`, or a closing tag without `>`, drops the rest.
pub open spec fn strip_from(s: Seq<char>, cursor: int) -> Seq<char>
    decreases s.len() - cursor,
{
    if cursor < 0 || cursor >= s.len() {
        Seq::<char>::empty()
    } else {
        match find_ci_spec(s, cursor, script_open()) {
            None => s.subrange(cursor, s.len() as int),
            Some(hit) => if hit < cursor || hit >= s.len() {
                Seq::<char>::empty()
            } else {
                let after = hit + 7;
                if !(after >= s.len() || tag_boundary(s[after])) {
                    s.subrange(cursor, hit + 1) + strip_from(s, hit + 1)
                } else {
                    s.subrange(cursor, hit) + match index_from(s, after, '>') {
                        None => Seq::<char>::empty(),
                        Some(p) => match find_ci_spec(s, p + 1, script_close()) {
                            None => Seq::<char>::empty(),
                            Some(ch) => match index_from(s, ch + 8, '>') {
                                None => Seq::<char>::empty(),
                                Some(q) => if q < cursor || q >= s.len() {
                                    Seq::<char>::empty()
                                } else {
                                    strip_from(s, q + 1)
                                },
                            },
                        },
                    }
                }
            },
        }
    }
}

/// A live script tag at `i`: `<script` (any ASCII case) followed by a tag
/// boundary or the end of the text.
pub open spec fn live_at(s: Seq<char>, i: int) -> bool {
    &&& matches_ci_at(s, i, script_open())
    &&& (i + 7 >= s.len() || tag_boundary(s[i + 7]))
}

/// No script tag is left in `s`.
pub open spec fn no_live_script(s: Seq<char>) -> bool {
    forall|i: int| !#[trigger] live_at(s, i)
}

/// Passes of `strip_from` until one removes nothing.
pub open spec fn strip_all(s: Seq<char>) -> Seq<char>
    decreases s.len(),
{
    let t = strip_from(s, 0);
    if t.len() < s.len() {
        strip_all(t)
    } else {
        t
    }
}

proof fn lemma_scan_ci_first(h: Seq<char>, j: int, n: Seq<char>, i: int)
    requires
        0 <= j <= i,
        matches_ci_at(h, i, n),
    ensures
        scan_ci(h, j, n) matches Some(p) && p <= i,
    decreases i - j,
{
    if !matches_ci_at(h, j, n) {
        lemma_scan_ci_first(h, j + 1, n, i);
    }
}

proof fn lemma_index_from(s: Seq<char>, a: int, c: char)
    requires
        0 <= a <= s.len(),
    ensures
        index_from(s, a, c) matches Some(p) ==> a <= p < s.len(),
{
    lemma_find_char(s.skip(a), c);
}

/// A pass never lengthens the text, and it shortens it when a script tag
/// starts at or after the cursor.
proof fn lemma_strip_len(s: Seq<char>, c: int)
    requires
        0 <= c,
    ensures
        strip_from(s, c).len() <= if c < s.len() { s.len() - c } else { 0 },
        (exists|i: int| c <= i && #[trigger] live_at(s, i)) ==> strip_from(s, c).len() < s.len() - c,
    decreases s.len() - c,
{
    if c < s.len() {
        lemma_scan_ci(s, c, script_open());
        match find_ci_spec(s, c, script_open()) {
            None => {
                if exists|i: int| c <= i && #[trigger] live_at(s, i) {
                    let i = choose|i: int| c <= i && #[trigger] live_at(s, i);
                    lemma_scan_ci_first(s, c, script_open(), i);
                }
            },
            Some(hit) => {
                if hit >= c && hit < s.len() {
                    let after = hit + 7;
                    if !(after >= s.len() || tag_boundary(s[after])) {
                        lemma_strip_len(s, hit + 1);
                        if exists|i: int| c <= i && #[trigger] live_at(s, i) {
                            let i = choose|i: int| c <= i && #[trigger] live_at(s, i);
                            lemma_scan_ci_first(s, c, script_open(), i);
                            assert(i != hit);
                            assert(hit + 1 <= i);
                        }
                    } else {
                        lemma_index_from(s, after, '>');
                        match index_from(s, after, '>') {
                            None => {},
                            Some(p) => {
                                lemma_scan_ci(s, p + 1, script_close());
                                match find_ci_spec(s, p + 1, script_close()) {
                                    None => {},
                                    Some(ch) => {
                                        if ch + 8 <= s.len() {
                                            lemma_index_from(s, ch + 8, '>');
                                        }
                                        match index_from(s, ch + 8, '>') {
                                            None => {},
                                            Some(q) => {
                                                if q >= c && q < s.len() {
                                                    lemma_index_from(s, ch + 8, '>');
                                                    lemma_strip_len(s, q + 1);
                                                }
                                            },
                                        }
                                    },
                                }
                            },
                        }
                    }
                }
            },
        }
    }
}

/// With no script tag at or after the cursor, a pass keeps the rest as it is.
proof fn lemma_strip_keeps(s: Seq<char>, c: int)
    requires
        0 <= c,
        forall|i: int| c <= i ==> !#[trigger] live_at(s, i),
    ensures
        c < s.len() ==> strip_from(s, c) == s.subrange(c, s.len() as int),
    decreases s.len() - c,
{
    if c < s.len() {
        lemma_scan_ci(s, c, script_open());
        match find_ci_spec(s, c, script_open()) {
            None => {},
            Some(hit) => {
                assert(!live_at(s, hit));
                if hit + 1 < s.len() {
                    lemma_strip_keeps(s, hit + 1);
                    assert(s.subrange(c, hit + 1) + s.subrange(hit + 1, s.len() as int) =~= s.subrange(c, s.len() as int));
                } else {
                    assert(strip_from(s, hit + 1) =~= Seq::<char>::empty());
                    assert(s.subrange(c, hit + 1) + Seq::<char>::empty() =~= s.subrange(c, s.len() as int));
                }
            },
        }
    }
}

/// A pass that removes nothing leaves a text without script tags, which is
/// then what `strip_all` gives.
proof fn lemma_strip_fixed(s: Seq<char>)
    requires
        strip_from(s, 0).len() >= s.len(),
    ensures
        no_live_script(strip_from(s, 0)),
        strip_all(s) == strip_from(s, 0),
{
    lemma_strip_len(s, 0);
    assert forall|i: int| 0 <= i implies !#[trigger] live_at(s, i) by {
        if live_at(s, i) {
            assert(exists|j: int| 0 <= j && #[trigger] live_at(s, j));
        }
    }
    if s.len() > 0 {
        lemma_strip_keeps(s, 0);
        assert(s.subrange(0, s.len() as int) =~= s);
    } else {
        assert(strip_from(s, 0) =~= s);
    }
    assert forall|i: int| !#[trigger] live_at(strip_from(s, 0), i) by {
        if i >= 0 {
            assert(strip_from(s, 0) == s);
        }
    }
}

fn index_from_exec(v: &Vec<char>, a: usize, c: char) -> (r: Option<usize>)
    requires
        a <= v.len(),
    ensures
        match index_from(v@, a as int, c) {
            Some(p) => r == Some(p as usize) && a <= p < v.len() && v@[p] == c,
            None => r is None,
        },
{
    proof {
        lemma_find_char(v@.skip(a as int), c);
    }
    let mut i: usize = a;
    while i < v.len()
        invariant
            a <= i <= v.len(),
            forall|k: int| a <= k < i ==> v@[k] != c,
        decreases v.len() - i,
    {
        if v[i] == c {
            proof {
                lemma_find_char(v@.skip(a as int), c);
                match find_char(v@.skip(a as int), c) {
                    Some(j) => {
                        assert(v@.skip(a as int)[j] == v@[a + j]);
                        assert(v@.skip(a as int)[i - a] == v@[i as int]);
                    },
                    None => {
                        assert(v@.skip(a as int)[i - a] == v@[i as int]);
                    },
                }
            }
            return Some(i);
        }
        i = i + 1;
    }
    proof {
        lemma_find_char(v@.skip(a as int), c);
        match find_char(v@.skip(a as int), c) {
            Some(j) => {
                assert(v@.skip(a as int)[j] == v@[a + j]);
            },
            None => {},
        }
    }
    None
}

fn push_range(out: &mut Vec<char>, v: &Vec<char>, a: usize, b: usize)
    requires
        a <= b <= v.len(),
    ensures
        final(out)@ == old(out)@ + v@.subrange(a as int, b as int),
{
    let ghost start = out@;
    let mut i: usize = a;
    while i < b
        invariant
            a <= i <= b,
            b <= v.len(),
            out@ == start + v@.subrange(a as int, i as int),
        decreases b - i,
    {
        out.push(v[i]);
        i = i + 1;
        assert(v@.subrange(a as int, i as int) =~= v@.subrange(a as int, i - 1).push(v@[i - 1]));
    }
}

/// One left-to-right pass removing `<script …>…</script>` blocks.
fn strip_chars(s: &Vec<char>) -> (out: Vec<char>)
    ensures
        out@ == strip_from(s@, 0),
{
    let ghost html = s@;
    let open: Vec<char> = vec!['<', 's', 'c', 'r', 'i', 'p', 't'];
    let close: Vec<char> = vec!['<', '/', 's', 'c', 'r', 'i', 'p', 't'];
    assert(open@ =~= script_open());
    assert(close@ =~= script_close());
    let mut out: Vec<char> = Vec::new();
    let mut cursor: usize = 0;
    let ghost total = strip_from(html, 0);
    while cursor < s.len()
        invariant
            s@ == html,
            open@ == script_open(),
            close@ == script_close(),
            cursor <= s.len(),
            out@ + strip_from(html, cursor as int) == total,
        ensures
            cursor == s.len(),
            out@ + strip_from(html, cursor as int) == total,
        decreases s.len() - cursor,
    {
        let ghost before = out@;
        let hit = match find_ci(&s, cursor, &open) {
            Some(p) => p,
            None => {
                push_range(&mut out, &s, cursor, s.len());
                assert(strip_from(html, s.len() as int) =~= Seq::<char>::empty());
                cursor = s.len();
                break;
            },
        };
        proof {
            lemma_scan_ci(html, cursor as int, script_open());
        }
        let after = hit + 7;
        let boundary = after >= s.len() || {
            let c = s[after];
            c == '>' || c == '/' || c == ' ' || c == '\t' || c == '\n' || c == '\r' || c == '\u{c}'
        };
        if !boundary {
            push_range(&mut out, &s, cursor, hit + 1);
            cursor = hit + 1;
            continue;
        }
        push_range(&mut out, &s, cursor, hit);
        let open_end = match index_from_exec(&s, after, '>') {
            Some(p) => p + 1,
            None => {
                cursor = s.len();
                break;
            },
        };
        let close_hit = match find_ci(&s, open_end, &close) {
            Some(p) => p,
            None => {
                cursor = s.len();
                break;
            },
        };
        proof {
            lemma_scan_ci(html, open_end as int, script_close());
        }
        let close_end = match index_from_exec(&s, close_hit + 8, '>') {
            Some(p) => p + 1,
            None => {
                cursor = s.len();
                break;
            },
        };
        cursor = close_end;
    }
    proof {
        assert(strip_from(html, cursor as int) =~= Seq::<char>::empty());
    }
    out
}

/// Remove `<script …>…</script>` blocks, matching the tag names without
/// regard to ASCII case, pass after pass until no script tag is left (a
/// pass can join the halves of a split tag into a new one).
pub fn strip_script_tags(html: &str) -> (r: String)
    ensures
        r@ == strip_all(html@),
        no_live_script(r@),
{
    let mut cur = chars_of(html);
    loop
        invariant
            strip_all(cur@) == strip_all(html@),
        decreases cur.len(),
    {
        let next = strip_chars(&cur);
        proof {
            lemma_strip_len(cur@, 0);
        }
        if next.len() < cur.len() {
            cur = next;
        } else {
            proof {
                lemma_strip_fixed(cur@);
            }
            return string_from_chars(&next);
        }
    }
}

// ───────────────────────── injection ─────────────────────────

pub open spec fn override_css() -> Seq<char> {
    "<style>*{-webkit-user-select:text!important;user-select:text!important;}</style>"@
}

/// The block injected into the page: the selection override and the
/// annotator script.
pub open spec fn injected_block(js: Seq<char>) -> Seq<char> {
    override_css() + "<script>"@ + js + "</script>"@
}

/// The page with its scripts stripped and the block inserted before the
/// first `</head>`, else before the first `<body`, else at the start.
pub open spec fn prepared_page(html: Seq<char>, js: Seq<char>) -> Seq<char> {
    let s = strip_all(html);
    let b = injected_block(js);
    match first_match(s, "</head>"@) {
        Some(p) => s.take(p) + b + s.skip(p),
        None => match first_match(s, "<body"@) {
            Some(p) => s.take(p) + b + s.skip(p),
            None => b + s,
        },
    }
}

fn first_match_chars(h: &Vec<char>, n: &Vec<char>) -> (r: Option<usize>)
    ensures
        r matches Some(i) ==> first_match(h@, n@) == Some(i as int) && i <= h.len(),
        r is None ==> first_match(h@, n@) is None,
{
    if n.len() > h.len() {
        return None;
    }
    let mut i: usize = 0;
    while i <= h.len() - n.len()
        invariant
            n.len() <= h.len(),
            0 <= i <= h.len() - n.len() + 1,
            first_match(h@, n@) == first_match_from(h@, n@, i as int),
        decreases h.len() - i,
    {
        if n.len() == 0 {
            return Some(i);
        }
        let mut j: usize = 0;
        while j < n.len() && h[i + j] == n[j]
            invariant
                i + n.len() <= h.len(),
                0 <= j <= n.len(),
                forall|k: int| 0 <= k < j ==> h@[i + k] == n@[k],
            decreases n.len() - j,
        {
            j = j + 1;
        }
        if j == n.len() {
            assert(h@.subrange(i as int, i + n.len()) =~= n@);
            return Some(i);
        }
        assert(h@.subrange(i as int, i + n.len())[j as int] != n@[j as int]);
        i = i + 1;
    }
    None
}

/// Strip the page's scripts and inject the annotator (`annotator_js`).
pub fn strip_scripts_and_inject(html: &str, annotator_js: &str) -> (r: String)
    ensures
        r@ == prepared_page(html@, annotator_js@),
{
    let stripped = strip_script_tags(html);
    let mut block = "<style>*{-webkit-user-select:text!important;user-select:text!important;}</style>".to_owned();
    block.append("<script>");
    block.append(annotator_js);
    block.append("</script>");
    let s = chars_of(stripped.as_str());
    let b = chars_of(block.as_str());
    let head = chars_of("</head>");
    let body = chars_of("<body");
    let pos = match first_match_chars(&s, &head) {
        Some(p) => Some(p),
        None => first_match_chars(&s, &body),
    };
    match pos {
        Some(p) => {
            let mut out: Vec<char> = Vec::new();
            push_range(&mut out, &s, 0, p);
            push_range(&mut out, &b, 0, b.len());
            push_range(&mut out, &s, p, s.len());
            assert(s@.subrange(0, p as int) =~= s@.take(p as int));
            assert(s@.subrange(p as int, s.len() as int) =~= s@.skip(p as int));
            assert(b@.subrange(0, b.len() as int) =~= b@);
            string_from_chars(&out)
        },
        None => {
            let mut out = block;
            out.append(stripped.as_str());
            out
        },
    }
}

} // verus!

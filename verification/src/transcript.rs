//! Plain text of an audio transcript: the trimmed, non-blank segment texts,
//! one per line, which feed full-text search.

use vstd::prelude::*;

use crate::search::{trim, trim_spec};
use crate::text::join_lines;

verus! {

broadcast use crate::text::group_concat;

/// The trimmed segment texts that are not blank, in order.
pub open spec fn kept_lines(texts: Seq<Seq<char>>) -> Seq<Seq<char>>
    decreases texts.len(),
{
    if texts.len() == 0 {
        seq![]
    } else {
        let k = kept_lines(texts.drop_last());
        let t = trim_spec(texts.last());
        if t.len() > 0 {
            k.push(t)
        } else {
            k
        }
    }
}

pub open spec fn texts_view(texts: Seq<String>) -> Seq<Seq<char>> {
    texts.map_values(|s: String| s@)
}

/// The search body of a transcript whose segments carry `texts`.
pub open spec fn plain_text_spec(texts: Seq<Seq<char>>) -> Seq<char> {
    join_lines(kept_lines(texts))
}

/// Concatenates the non-empty trimmed segment texts, separated by newlines.
pub fn plain_text(texts: &Vec<String>) -> (out: String)
    ensures
        out@ == plain_text_spec(texts_view(texts@)),
{
    let ghost tv = texts_view(texts@);
    let mut out = String::new();
    let mut any = false;
    let mut i: usize = 0;
    while i < texts.len()
        invariant
            0 <= i <= texts.len(),
            tv == texts_view(texts@),
            out@ == join_lines(kept_lines(tv.take(i as int))),
            any == (kept_lines(tv.take(i as int)).len() > 0),
        decreases texts.len() - i,
    {
        let t = trim(texts[i].as_str());
        let ghost k = kept_lines(tv.take(i as int));
        proof {
            let n = tv.take(i + 1);
            assert(n.drop_last() =~= tv.take(i as int));
            assert(n.last() == texts@[i as int]@);
        }
        if !t.as_str().is_empty() {
            proof {
                let kp = k.push(t@);
                assert(kp.drop_last() =~= k);
            }
            if any {
                crate::text::push_char(&mut out, '\n');
            }
            out.append(t.as_str());
            any = true;
        }
        i = i + 1;
    }
    assert(tv.take(texts.len() as int) =~= tv);
    out
}

} // verus!

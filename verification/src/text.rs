//! Character-level string helpers shared by the formatting and parsing code.

use vstd::prelude::*;
use vstd::string::StringExecFns;
use crate::decimal::{decimal, decimal_chars, push_signed_zero_padded, signed_zero_padded};

verus! {

/// Appends one character to a `String` (`String::push`).
#[verifier::external_body]
pub(crate) fn push_char(s: &mut String, c: char)
    ensures
        final(s)@ == old(s)@.push(c),
{
    s.push(c);
}

/// The characters of `s`, in order.
pub fn chars_of(s: &str) -> (v: Vec<char>)
    ensures
        v@ == s@,
{
    let mut v: Vec<char> = Vec::new();
    for c in it: s.chars()
        invariant
            v@ == it.seq().take(it.index() as int),
    {
        v.push(c);
    }
    v
}

} // verus!

verus! {

/// Lexicographic order on character sequences; the order `<` gives `str`
/// (UTF-8 byte order coincides with code-point order).
pub open spec fn seq_lt(a: Seq<char>, b: Seq<char>) -> bool
    decreases a.len(),
{
    if a.len() == 0 {
        b.len() > 0
    } else if b.len() == 0 {
        false
    } else if a[0] != b[0] {
        a[0] < b[0]
    } else {
        seq_lt(a.drop_first(), b.drop_first())
    }
}

/// Comparing two strings with equal-length prefixes: the prefixes decide,
/// and only on a tie do the remainders.
pub proof fn lemma_seq_lt_concat(p: Seq<char>, q: Seq<char>, r: Seq<char>, s: Seq<char>)
    requires
        p.len() == q.len(),
    ensures
        seq_lt(p + r, q + s) <==> (seq_lt(p, q) || (p == q && seq_lt(r, s))),
    decreases p.len(),
{
    if p.len() == 0 {
        assert(p + r =~= r);
        assert(q + s =~= s);
        assert(p =~= q);
    } else {
        assert((p + r)[0] == p[0]);
        assert((q + s)[0] == q[0]);
        assert((p + r).drop_first() =~= p.drop_first() + r);
        assert((q + s).drop_first() =~= q.drop_first() + s);
        lemma_seq_lt_concat(p.drop_first(), q.drop_first(), r, s);
        if p[0] == q[0] {
            if p.drop_first() == q.drop_first() {
                assert forall|i: int| 0 <= i < p.len() implies p[i] == q[i] by {
                    if i > 0 {
                        assert(p[i] == p.drop_first()[i - 1]);
                        assert(q[i] == q.drop_first()[i - 1]);
                    }
                }
                assert(p =~= q);
            }
            if p == q {
                assert(p.drop_first() =~= q.drop_first());
            }
        }
    }
}

pub proof fn lemma_seq_lt_irreflexive(a: Seq<char>)
    ensures
        !seq_lt(a, a),
    decreases a.len(),
{
    if a.len() > 0 {
        lemma_seq_lt_irreflexive(a.drop_first());
    }
}

pub proof fn lemma_seq_lt_asymmetric(a: Seq<char>, b: Seq<char>)
    ensures
        !(seq_lt(a, b) && seq_lt(b, a)),
    decreases a.len(),
{
    if a.len() > 0 && b.len() > 0 && a[0] == b[0] {
        lemma_seq_lt_asymmetric(a.drop_first(), b.drop_first());
    }
}

pub proof fn lemma_seq_lt_transitive(a: Seq<char>, b: Seq<char>, c: Seq<char>)
    requires
        seq_lt(a, b),
        seq_lt(b, c),
    ensures
        seq_lt(a, c),
    decreases a.len(),
{
    if a.len() > 0 && b.len() > 0 && c.len() > 0 && a[0] == b[0] && b[0] == c[0] {
        lemma_seq_lt_transitive(a.drop_first(), b.drop_first(), c.drop_first());
    }
}

/// Distinct strings are ordered one way or the other.
pub proof fn lemma_seq_lt_total(a: Seq<char>, b: Seq<char>)
    ensures
        a == b || seq_lt(a, b) || seq_lt(b, a),
    decreases a.len(),
{
    if a.len() > 0 && b.len() > 0 && a[0] == b[0] {
        lemma_seq_lt_total(a.drop_first(), b.drop_first());
        if a.drop_first() == b.drop_first() {
            assert(a =~= seq![a[0]] + a.drop_first());
            assert(b =~= seq![b[0]] + b.drop_first());
        }
    } else if a.len() == 0 && b.len() == 0 {
        assert(a =~= b);
    }
}

/// `a < b` on strings (`str`'s `Ord`).
pub fn str_lt(a: &str, b: &str) -> (r: bool)
    ensures
        r == seq_lt(a@, b@),
{
    let x = chars_of(a);
    let y = chars_of(b);
    let mut i: usize = 0;
    assert(a@.skip(0) =~= a@);
    assert(b@.skip(0) =~= b@);
    while i < x.len() && i < y.len() && x[i] == y[i]
        invariant
            0 <= i <= x.len(),
            i <= y.len(),
            x@ == a@,
            y@ == b@,
            seq_lt(a@, b@) == seq_lt(a@.skip(i as int), b@.skip(i as int)),
        decreases x.len() - i,
    {
        proof {
            let xs = a@.skip(i as int);
            let ys = b@.skip(i as int);
            assert(xs.drop_first() =~= a@.skip(i + 1));
            assert(ys.drop_first() =~= b@.skip(i + 1));
        }
        i = i + 1;
    }
    let ghost xs = a@.skip(i as int);
    let ghost ys = b@.skip(i as int);
    if i == x.len() {
        assert(xs.len() == 0);
        i < y.len()
    } else if i == y.len() {
        assert(ys.len() == 0);
        false
    } else {
        assert(xs[0] == x@[i as int]);
        assert(ys[0] == y@[i as int]);
        x[i] < y[i]
    }
}

/// `a == b` on strings.
pub fn str_eq(a: &str, b: &str) -> (r: bool)
    ensures
        r == (a@ == b@),
{
    proof {
        lemma_seq_lt_total(a@, b@);
        lemma_seq_lt_irreflexive(a@);
    }
    !str_lt(a, b) && !str_lt(b, a)
}

/// Appends every character of `s`.
pub fn push_str_chars(out: &mut Vec<char>, s: &str)
    ensures
        final(out)@ == old(out)@ + s@,
{
    let cs = chars_of(s);
    let ghost start = out@;
    let mut i: usize = 0;
    while i < cs.len()
        invariant
            0 <= i <= cs.len(),
            cs@ == s@,
            out@ == start + cs@.take(i as int),
        decreases cs.len() - i,
    {
        out.push(cs[i]);
        i = i + 1;
        proof {
            assert(cs@.take(i as int) =~= cs@.take(i - 1).push(cs@[i - 1]));
        }
    }
    assert(cs@.take(i as int) =~= cs@);
}

/// A `String` holding exactly the given characters.
pub fn string_from_chars(v: &Vec<char>) -> (s: String)
    ensures
        s@ == v@,
{
    let mut s = String::new();
    let mut i: usize = 0;
    while i < v.len()
        invariant
            0 <= i <= v.len(),
            s@ == v@.take(i as int),
        decreases v.len() - i,
    {
        push_char(&mut s, v[i]);
        i = i + 1;
        proof {
            assert(v@.take(i as int) =~= v@.take(i - 1).push(v@[i - 1]));
        }
    }
    assert(v@.take(i as int) =~= v@);
    s
}

/// `a` followed by `b`.
pub fn concat(a: &str, b: &str) -> (s: String)
    ensures
        s@ == a@ + b@,
{
    let mut s = a.to_owned();
    s.append(b);
    s
}

/// Decimal text of a signed integer (`i64::to_string`).
pub fn i64_to_string(v: i64) -> (s: String)
    ensures
        s@ == signed_zero_padded(v as int, 1),
{
    let mut out: Vec<char> = Vec::new();
    push_signed_zero_padded(&mut out, v, 1);
    assert(out@ =~= signed_zero_padded(v as int, 1));
    string_from_chars(&out)
}

/// Decimal text of an unsigned integer (`u64::to_string`).
pub fn u64_to_string(v: u64) -> (s: String)
    ensures
        s@ == decimal(v as nat),
{
    let d = decimal_chars(v);
    string_from_chars(&d)
}

/// `parts.join("\n")`.
pub open spec fn join_lines(parts: Seq<Seq<char>>) -> Seq<char>
    decreases parts.len(),
{
    if parts.len() == 0 {
        seq![]
    } else if parts.len() == 1 {
        parts[0]
    } else {
        join_lines(parts.drop_last()) + seq!['\n'] + parts.last()
    }
}

pub open spec fn views_of(v: Seq<String>) -> Seq<Seq<char>> {
    v.map_values(|s: String| s@)
}

/// `parts.join("\n")`.
pub fn join_newlines(parts: &Vec<String>) -> (out: String)
    ensures
        out@ == join_lines(views_of(parts@)),
{
    let ghost pv = views_of(parts@);
    let mut out = String::new();
    let mut i: usize = 0;
    while i < parts.len()
        invariant
            0 <= i <= parts.len(),
            pv == views_of(parts@),
            out@ == join_lines(pv.take(i as int)),
        decreases parts.len() - i,
    {
        proof {
            let n = pv.take(i + 1);
            assert(n.drop_last() =~= pv.take(i as int));
            assert(n.last() == parts@[i as int]@);
            assert(seq!['\n'] + n.last() =~= seq!['\n'].add(n.last()));
        }
        if i > 0 {
            push_char(&mut out, '\n');
        }
        out.append(parts[i].as_str());
        proof {
            let n = pv.take(i + 1);
            if i > 0 {
                assert(join_lines(n) == join_lines(pv.take(i as int)) + seq!['\n'] + parts@[i as int]@);
            } else {
                assert(join_lines(pv.take(i as int)) =~= Seq::<char>::empty());
                assert(out@ =~= parts@[0]@);
            }
        }
        i = i + 1;
    }
    assert(pv.take(parts.len() as int) =~= pv);
    out
}

} // verus!

verus! {

/// Concatenation regroups to the right.
pub broadcast proof fn lemma_concat_assoc(a: Seq<char>, b: Seq<char>, c: Seq<char>)
    ensures
        #[trigger] ((a + b) + c) == a + (b + c),
{
    assert((a + b) + c =~= a + (b + c));
}

/// Appending nothing changes nothing.
pub broadcast proof fn lemma_concat_empty(a: Seq<char>)
    ensures
        #[trigger] (a + Seq::<char>::empty()) == a,
{
    assert(a + Seq::<char>::empty() =~= a);
}

pub broadcast group group_concat {
    lemma_concat_assoc,
    lemma_concat_empty,
}

} // verus!

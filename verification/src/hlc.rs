//! Hybrid Logical Clock timestamps.
//!
//! Serialized as `"{wall_time_ms:013}-{counter:04}-{device_id}"` so that
//! lexicographic string comparison equals chronological order.

use vstd::prelude::*;
use crate::decimal::{
    is_digit, lemma_zero_padded_len, lemma_zero_padded_order, lemma_zero_padded_value, parse_i64,
    parse_i64_spec, parse_u32, parse_u32_spec, pow10, push_signed_zero_padded, push_zero_padded,
    signed_zero_padded, zero_padded,
};
use crate::text::{
    chars_of, lemma_seq_lt_concat, lemma_seq_lt_irreflexive, push_str_chars, seq_lt,
    string_from_chars,
};

verus! {

/// Hybrid Logical Clock timestamp.
#[derive(Debug)]
pub struct Hlc {
    pub wall_time_ms: i64,
    pub counter: u32,
    pub device_id: String,
}

/// Error returned when parsing an HLC string fails; holds the input.
#[derive(Debug)]
pub struct ParseHlcError(pub String);

/// The serialized form `"{wall_time_ms:013}-{counter:04}-{device_id}"`.
pub open spec fn hlc_format(wall_time_ms: i64, counter: u32, device_id: Seq<char>) -> Seq<char> {
    signed_zero_padded(wall_time_ms as int, 13) + seq!['-'] + zero_padded(counter as nat, 4)
        + seq!['-'] + device_id
}

/// Index of the first occurrence of `c` in `s`.
pub open spec fn find_char(s: Seq<char>, c: char) -> Option<int>
    decreases s.len(),
{
    if s.len() == 0 {
        None
    } else if s[0] == c {
        Some(0)
    } else {
        match find_char(s.drop_first(), c) {
            Some(i) => Some(i + 1),
            None => None,
        }
    }
}

pub proof fn lemma_find_char(s: Seq<char>, c: char)
    ensures
        match find_char(s, c) {
            Some(i) => 0 <= i < s.len() && s[i] == c && forall|k: int| 0 <= k < i ==> s[k] != c,
            None => forall|k: int| 0 <= k < s.len() ==> s[k] != c,
        },
    decreases s.len(),
{
    if s.len() > 0 {
        lemma_find_char(s.drop_first(), c);
        assert forall|k: int| 0 < k < s.len() implies s[k] == s.drop_first()[k - 1] by {}
    }
}

/// `find_char` on a string that starts with a run free of `c` followed by `c`.
pub proof fn lemma_find_char_after(x: Seq<char>, y: Seq<char>, c: char)
    requires
        forall|k: int| 0 <= k < x.len() ==> x[k] != c,
        y.len() > 0,
        y[0] == c,
    ensures
        find_char(x + y, c) == Some(x.len() as int),
{
    let s = x + y;
    lemma_find_char(s, c);
    assert(s[x.len() as int] == c);
    match find_char(s, c) {
        Some(i) => {
            if i < x.len() {
                assert(s[i] == x[i]);
            }
        },
        None => {},
    }
}

/// `Hlc::from_str`: split on the first two `-` (the device id may itself
/// contain `-`), then parse the wall time as `i64` and the counter as `u32`.
pub open spec fn parse_hlc_spec(s: Seq<char>) -> Option<(i64, u32, Seq<char>)> {
    match find_char(s, '-') {
        None => None,
        Some(i) => {
            let rest = s.skip(i + 1);
            match find_char(rest, '-') {
                None => None,
                Some(j) => match (parse_i64_spec(s.take(i)), parse_u32_spec(rest.take(j))) {
                    (Some(w), Some(c)) => Some((w, c, rest.skip(j + 1))),
                    _ => None,
                },
            }
        },
    }
}

/// `(w1, c1)` strictly precedes `(w2, c2)` in HLC order.
pub open spec fn hlc_before(w1: i64, c1: u32, w2: i64, c2: u32) -> bool {
    w1 < w2 || (w1 == w2 && c1 < c2)
}

impl Hlc {
    pub open spec fn to_seq(&self) -> Seq<char> {
        hlc_format(self.wall_time_ms, self.counter, self.device_id@)
    }

    pub fn new(wall_time_ms: i64, counter: u32, device_id: String) -> (h: Self)
        ensures
            h.wall_time_ms == wall_time_ms,
            h.counter == counter,
            h.device_id@ == device_id@,
    {
        Hlc { wall_time_ms, counter, device_id }
    }

    /// The serialized form (`Display` in other Rust code).
    pub fn to_string(&self) -> (s: String)
        ensures
            s@ == self.to_seq(),
    {
        let mut out: Vec<char> = Vec::new();
        push_signed_zero_padded(&mut out, self.wall_time_ms, 13);
        out.push('-');
        push_zero_padded(&mut out, self.counter as u64, 4);
        out.push('-');
        let ghost before_dev = out@;
        push_str_chars(&mut out, self.device_id.as_str());
        proof {
            assert(out@ =~= self.to_seq());
        }
        string_from_chars(&out)
    }

    /// Parses a string of the form `"{wall_ms:013}-{counter:04}-{device_id}"`.
    pub fn parse_str(s: &str) -> (r: Result<Hlc, ParseHlcError>)
        ensures
            match parse_hlc_spec(s@) {
                Some((w, c, d)) => r matches Ok(h) && h.wall_time_ms == w && h.counter == c
                    && h.device_id@ == d,
                None => r matches Err(e) && e.0@ == s@,
            },
    {
        let cs = chars_of(s);
        proof {
            lemma_find_char(s@, '-');
        }
        let i = match find_char_exec(&cs, '-') {
            Some(i) => i,
            None => return Err(ParseHlcError(s.to_owned())),
        };
        let rest = crate::decimal::slice_skip(cs.as_slice(), i + 1);
        proof {
            lemma_find_char(rest@, '-');
        }
        let j = match find_char_exec_slice(rest, '-') {
            Some(j) => j,
            None => return Err(ParseHlcError(s.to_owned())),
        };
        let wall_str = vstd::slice::slice_subrange(cs.as_slice(), 0, i);
        let counter_str = vstd::slice::slice_subrange(rest, 0, j);
        let dev = crate::decimal::slice_skip(rest, j + 1);
        assert(wall_str@ =~= s@.take(i as int));
        assert(counter_str@ =~= rest@.take(j as int));
        let wall_time_ms = match parse_i64(wall_str) {
            Some(w) => w,
            None => return Err(ParseHlcError(s.to_owned())),
        };
        let counter = match parse_u32(counter_str) {
            Some(c) => c,
            None => return Err(ParseHlcError(s.to_owned())),
        };
        let mut dv: Vec<char> = Vec::new();
        let mut k: usize = 0;
        while k < dev.len()
            invariant
                0 <= k <= dev.len(),
                dv@ == dev@.take(k as int),
            decreases dev.len() - k,
        {
            dv.push(dev[k]);
            k = k + 1;
            proof {
                assert(dev@.take(k as int) =~= dev@.take(k - 1).push(dev@[k - 1]));
            }
        }
        assert(dev@.take(k as int) =~= dev@);
        Ok(Hlc { wall_time_ms, counter, device_id: string_from_chars(&dv) })
    }
}

impl Clone for Hlc {
    fn clone(&self) -> (h: Self)
        ensures
            h.wall_time_ms == self.wall_time_ms,
            h.counter == self.counter,
            h.device_id@ == self.device_id@,
    {
        Hlc { wall_time_ms: self.wall_time_ms, counter: self.counter, device_id: self.device_id.clone() }
    }
}

impl core::str::FromStr for Hlc {
    type Err = ParseHlcError;

    fn from_str(s: &str) -> (r: Result<Hlc, ParseHlcError>)
        ensures
            match parse_hlc_spec(s@) {
                Some((w, c, d)) => r matches Ok(h) && h.wall_time_ms == w && h.counter == c
                    && h.device_id@ == d,
                None => r matches Err(e) && e.0@ == s@,
            },
    {
        Hlc::parse_str(s)
    }
}

fn find_char_exec(v: &Vec<char>, c: char) -> (r: Option<usize>)
    ensures
        match find_char(v@, c) {
            Some(i) => r == Some(i as usize),
            None => r is None,
        },
{
    find_char_exec_slice(v.as_slice(), c)
}

fn find_char_exec_slice(v: &[char], c: char) -> (r: Option<usize>)
    ensures
        match find_char(v@, c) {
            Some(i) => r == Some(i as usize),
            None => r is None,
        },
{
    let mut i: usize = 0;
    assert(v@.skip(0) =~= v@);
    while i < v.len()
        invariant
            0 <= i <= v.len(),
            find_char(v@, c) == match find_char(v@.skip(i as int), c) {
                Some(k) => Some(k + i),
                None => None::<int>,
            },
        decreases v.len() - i,
    {
        let ghost t = v@.skip(i as int);
        assert(t[0] == v@[i as int]);
        if v[i] == c {
            return Some(i);
        }
        assert(t.drop_first() =~= v@.skip(i + 1));
        i = i + 1;
    }
    None
}

pub proof fn lemma_concat_eq(x1: Seq<char>, y1: Seq<char>, x2: Seq<char>, y2: Seq<char>)
    requires
        x1.len() == x2.len(),
    ensures
        (x1 + y1 == x2 + y2) <==> (x1 == x2 && y1 == y2),
{
    if x1 + y1 == x2 + y2 {
        assert(x1 =~= (x1 + y1).take(x1.len() as int));
        assert(x2 =~= (x2 + y2).take(x2.len() as int));
        assert(y1 =~= (x1 + y1).skip(x1.len() as int));
        assert(y2 =~= (x2 + y2).skip(x2.len() as int));
    }
}

/// Law: a timestamp with a non-negative wall time parses back from its
/// serialized form to the same wall time, counter and device id.
pub proof fn lemma_hlc_parse_format_roundtrip(wall_time_ms: i64, counter: u32, device_id: Seq<char>)
    requires
        wall_time_ms >= 0,
    ensures
        parse_hlc_spec(hlc_format(wall_time_ms, counter, device_id)) == Some(
            (wall_time_ms, counter, device_id),
        ),
{
    let a = zero_padded(wall_time_ms as nat, 13);
    let b = zero_padded(counter as nat, 4);
    let dash = seq!['-'];
    let s = hlc_format(wall_time_ms, counter, device_id);
    lemma_zero_padded_value(wall_time_ms as nat, 13);
    lemma_zero_padded_value(counter as nat, 4);
    let tail1 = dash + b + dash + device_id;
    assert(s =~= a + tail1);
    assert forall|k: int| 0 <= k < a.len() implies a[k] != '-' by {
        assert(is_digit(a[k]));
    }
    lemma_find_char_after(a, tail1, '-');
    let rest = s.skip(a.len() as int + 1);
    assert(rest =~= b + (dash + device_id));
    assert forall|k: int| 0 <= k < b.len() implies b[k] != '-' by {
        assert(is_digit(b[k]));
    }
    lemma_find_char_after(b, dash + device_id, '-');
    assert(s.take(a.len() as int) =~= a);
    assert(rest.take(b.len() as int) =~= b);
    assert(rest.skip(b.len() as int + 1) =~= device_id);
    assert(is_digit(a[0]));
    assert(is_digit(b[0]));
}

/// Law: for wall times below 10^13 ms and counters below 10^4, comparing
/// serialized timestamps as strings is comparing (wall time, counter) and
/// then the device id.
pub proof fn lemma_hlc_string_order(
    w1: i64,
    c1: u32,
    d1: Seq<char>,
    w2: i64,
    c2: u32,
    d2: Seq<char>,
)
    requires
        0 <= w1 < 10_000_000_000_000,
        0 <= w2 < 10_000_000_000_000,
        c1 < 10_000,
        c2 < 10_000,
    ensures
        seq_lt(hlc_format(w1, c1, d1), hlc_format(w2, c2, d2)) <==> (hlc_before(w1, c1, w2, c2)
            || (w1 == w2 && c1 == c2 && seq_lt(d1, d2))),
{
    assert(pow10(13) == 10_000_000_000_000) by {
        reveal_with_fuel(pow10, 14);
    }
    assert(pow10(4) == 10_000) by {
        reveal_with_fuel(pow10, 5);
    }
    let a1 = zero_padded(w1 as nat, 13);
    let a2 = zero_padded(w2 as nat, 13);
    let b1 = zero_padded(c1 as nat, 4);
    let b2 = zero_padded(c2 as nat, 4);
    let dash = seq!['-'];
    lemma_zero_padded_order(w1 as nat, w2 as nat, 13);
    lemma_zero_padded_order(c1 as nat, c2 as nat, 4);
    lemma_zero_padded_len(w1 as nat, 13);
    lemma_zero_padded_len(w2 as nat, 13);
    lemma_zero_padded_len(c1 as nat, 4);
    lemma_zero_padded_len(c2 as nat, 4);
    let t1 = b1 + dash;
    let t2 = b2 + dash;
    let p1 = a1 + (dash + t1);
    let p2 = a2 + (dash + t2);
    assert(hlc_format(w1, c1, d1) =~= p1 + d1);
    assert(hlc_format(w2, c2, d2) =~= p2 + d2);
    lemma_seq_lt_concat(p1, p2, d1, d2);
    lemma_seq_lt_concat(a1, a2, dash + t1, dash + t2);
    lemma_seq_lt_concat(dash, dash, t1, t2);
    lemma_seq_lt_irreflexive(dash);
    lemma_seq_lt_concat(b1, b2, dash, dash);
    lemma_concat_eq(a1, dash + t1, a2, dash + t2);
    lemma_concat_eq(dash, t1, dash, t2);
    lemma_concat_eq(b1, dash, b2, dash);
}

/// Milliseconds since the Unix epoch from the system clock
/// (`chrono::Utc::now().timestamp_millis()`). Nothing is promised about the
/// value: it depends on the machine's clock.
#[verifier::external_body]
fn now_ms() -> (t: i64) {
    chrono::Utc::now().timestamp_millis()
}

/// Hybrid Logical Clock: remembers the last timestamp it issued.
pub struct HlcClock {
    last: Hlc,
    device_id: String,
}

/// Wall time of a local event at physical time `now`.
pub open spec fn tick_wall(last_wall: i64, now: i64) -> i64 {
    if now > last_wall { now } else { last_wall }
}

/// Counter of a local event at physical time `now`.
pub open spec fn tick_counter(last_wall: i64, last_counter: u32, now: i64) -> int {
    if tick_wall(last_wall, now) == last_wall { last_counter + 1 } else { 0 }
}

/// Wall time after receiving `remote_wall` at physical time `now`.
pub open spec fn receive_wall(last_wall: i64, remote_wall: i64, now: i64) -> i64 {
    let m = tick_wall(last_wall, now);
    if remote_wall > m { remote_wall } else { m }
}

/// Counter after receiving `(remote_wall, remote_counter)` at time `now`.
pub open spec fn receive_counter(
    last_wall: i64,
    last_counter: u32,
    remote_wall: i64,
    remote_counter: u32,
    now: i64,
) -> int {
    let w = receive_wall(last_wall, remote_wall, now);
    if w == last_wall && w == remote_wall {
        (if last_counter > remote_counter { last_counter } else { remote_counter }) + 1
    } else if w == last_wall {
        last_counter + 1
    } else if w == remote_wall {
        remote_counter + 1
    } else {
        0
    }
}

/// The counter of the next local event stays within `u32`.
pub open spec fn tick_fits(last_wall: i64, last_counter: u32, now: i64) -> bool {
    tick_counter(last_wall, last_counter, now) <= u32::MAX
}

/// The counter after a receive stays within `u32`.
pub open spec fn receive_fits(
    last_wall: i64,
    last_counter: u32,
    remote_wall: i64,
    remote_counter: u32,
    now: i64,
) -> bool {
    receive_counter(last_wall, last_counter, remote_wall, remote_counter, now) <= u32::MAX
}

impl HlcClock {
    pub closed spec fn last_wall(&self) -> i64 {
        self.last.wall_time_ms
    }

    pub closed spec fn last_counter(&self) -> u32 {
        self.last.counter
    }

    pub closed spec fn device(&self) -> Seq<char> {
        self.device_id@
    }

    pub fn new(device_id: String) -> (c: Self)
        ensures
            c.last_wall() == 0,
            c.last_counter() == 0,
            c.device() == device_id@,
    {
        HlcClock { last: Hlc::new(0, 0, device_id.clone()), device_id }
    }

    /// The last timestamp this clock issued.
    pub fn last(&self) -> (h: Hlc)
        ensures
            h.wall_time_ms == self.last_wall(),
            h.counter == self.last_counter(),
    {
        self.last.clone()
    }

    /// A new timestamp for a local event happening at physical time `now_ms`.
    pub fn tick_at(&mut self, now_ms: i64) -> (h: Hlc)
        requires
            tick_fits(old(self).last_wall(), old(self).last_counter(), now_ms),
        ensures
            h.wall_time_ms == tick_wall(old(self).last_wall(), now_ms),
            h.counter == tick_counter(old(self).last_wall(), old(self).last_counter(), now_ms),
            h.device_id@ == old(self).device(),
            final(self).last_wall() == h.wall_time_ms,
            final(self).last_counter() == h.counter,
            final(self).device() == old(self).device(),
            // Every timestamp is strictly after the one before it, and not
            // behind the physical clock.
            hlc_before(old(self).last_wall(), old(self).last_counter(), h.wall_time_ms, h.counter),
            h.wall_time_ms >= now_ms,
    {
        let wall = if now_ms > self.last.wall_time_ms { now_ms } else { self.last.wall_time_ms };
        let counter = if wall == self.last.wall_time_ms { self.last.counter + 1 } else { 0 };
        let hlc = Hlc::new(wall, counter, self.device_id.clone());
        self.last = hlc.clone();
        hlc
    }

    /// A new timestamp for a local event, read off the system clock.
    pub fn tick(&mut self) -> (h: Hlc)
        requires
            old(self).last_counter() < u32::MAX,
        ensures
            exists|now: i64|
                h.wall_time_ms == tick_wall(old(self).last_wall(), now) && h.counter
                    == tick_counter(old(self).last_wall(), old(self).last_counter(), now),
            h.device_id@ == old(self).device(),
            final(self).last_wall() == h.wall_time_ms,
            final(self).last_counter() == h.counter,
            final(self).device() == old(self).device(),
            hlc_before(old(self).last_wall(), old(self).last_counter(), h.wall_time_ms, h.counter),
    {
        let now = now_ms();
        self.tick_at(now)
    }

    /// Merge with a remote timestamp received at physical time `now_ms`.
    pub fn receive_at(&mut self, remote: &Hlc, now_ms: i64) -> (h: Hlc)
        requires
            receive_fits(
                old(self).last_wall(),
                old(self).last_counter(),
                remote.wall_time_ms,
                remote.counter,
                now_ms,
            ),
        ensures
            h.wall_time_ms == receive_wall(old(self).last_wall(), remote.wall_time_ms, now_ms),
            h.counter == receive_counter(
                old(self).last_wall(),
                old(self).last_counter(),
                remote.wall_time_ms,
                remote.counter,
                now_ms,
            ),
            h.device_id@ == old(self).device(),
            final(self).last_wall() == h.wall_time_ms,
            final(self).last_counter() == h.counter,
            final(self).device() == old(self).device(),
            // The merged timestamp follows both the local history and the
            // remote event, and is not behind the physical clock.
            hlc_before(old(self).last_wall(), old(self).last_counter(), h.wall_time_ms, h.counter),
            hlc_before(remote.wall_time_ms, remote.counter, h.wall_time_ms, h.counter),
            h.wall_time_ms >= now_ms,
    {
        let lw = self.last.wall_time_ms;
        let lc = self.last.counter;
        let m = if now_ms > lw { now_ms } else { lw };
        let wall = if remote.wall_time_ms > m { remote.wall_time_ms } else { m };
        let counter = if wall == lw && wall == remote.wall_time_ms {
            (if lc > remote.counter { lc } else { remote.counter }) + 1
        } else if wall == lw {
            lc + 1
        } else if wall == remote.wall_time_ms {
            remote.counter + 1
        } else {
            0
        };
        let hlc = Hlc::new(wall, counter, self.device_id.clone());
        self.last = hlc.clone();
        hlc
    }

    /// Merge with a remote timestamp, reading the system clock.
    pub fn receive(&mut self, remote: &Hlc) -> (h: Hlc)
        requires
            old(self).last_counter() < u32::MAX,
            remote.counter < u32::MAX,
        ensures
            exists|now: i64|
                h.wall_time_ms == receive_wall(old(self).last_wall(), remote.wall_time_ms, now)
                    && h.counter == receive_counter(
                    old(self).last_wall(),
                    old(self).last_counter(),
                    remote.wall_time_ms,
                    remote.counter,
                    now,
                ),
            h.device_id@ == old(self).device(),
            final(self).last_wall() == h.wall_time_ms,
            final(self).last_counter() == h.counter,
            final(self).device() == old(self).device(),
            hlc_before(old(self).last_wall(), old(self).last_counter(), h.wall_time_ms, h.counter),
            hlc_before(remote.wall_time_ms, remote.counter, h.wall_time_ms, h.counter),
    {
        let now = now_ms();
        self.receive_at(remote, now)
    }
}

/// Law: a fresh clock's first local event at a positive physical time
/// `now` is `(now, 0)`; its device never changes (`tick_at`, `receive_at`).
pub proof fn lemma_first_tick(now: i64)
    requires
        now > 0,
    ensures
        tick_wall(0, now) == now,
        tick_counter(0, 0, now) == 0,
{
}

/// Law: within the 13-digit wall time and 4-digit counter of the text
/// form, each local event's timestamp comes after the previous one as a
/// string too, and its wall time never goes back.
pub proof fn lemma_tick_text_advances(w: i64, c: u32, now: i64, d: Seq<char>)
    requires
        0 <= w < 10_000_000_000_000,
        0 <= now < 10_000_000_000_000,
        c < 9_999,
    ensures
        tick_wall(w, now) >= w,
        0 <= tick_counter(w, c, now) < 10_000,
        seq_lt(hlc_format(w, c, d), hlc_format(tick_wall(w, now), tick_counter(w, c, now) as u32, d)),
{
    let w2 = tick_wall(w, now);
    let c2 = tick_counter(w, c, now) as u32;
    lemma_hlc_string_order(w, c, d, w2, c2, d);
    assert(hlc_before(w, c, w2, c2));
}

/// Law: HLC order is transitive, so along any sequence of `tick_at`,
/// `receive_at`, `tick` and `receive` calls on one clock (each ensures its
/// result follows the clock's previous last timestamp and becomes the new
/// one) every timestamp follows all the earlier ones.
pub proof fn lemma_hlc_before_transitive(w1: i64, c1: u32, w2: i64, c2: u32, w3: i64, c3: u32)
    requires
        hlc_before(w1, c1, w2, c2),
        hlc_before(w2, c2, w3, c3),
    ensures
        hlc_before(w1, c1, w3, c3),
{
}

} // verus!

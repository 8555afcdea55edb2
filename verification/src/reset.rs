//! What a factory reset and a cursor reset remove: the session secrets,
//! the database tables whose rows are wiped (SQLite's own tables and the
//! FTS5 shadow tables are left alone), and the sync-state rows that hold
//! the remote cursors. Table and key names are matched as SQLite's `LIKE`
//! matches them: ASCII case-insensitive, `_` standing for any one
//! character unless escaped.

use vstd::prelude::*;
use crate::html::{ascii_lower, ascii_lower_exec, matches_ci_at};
use crate::search::names_of;
use crate::state::{clear_s3_creds, lock_vault, Session};
use crate::text::{chars_of, str_eq};

verus! {

/// `s` starts at `i` with `pat`, ASCII case-insensitively, where a `_` in
/// `pat` stands for any one character (an unescaped `LIKE` literal).
pub open spec fn like_at(s: Seq<char>, i: int, pat: Seq<char>) -> bool {
    &&& 0 <= i
    &&& i + pat.len() <= s.len()
    &&& forall|k: int| 0 <= k < pat.len() && pat[k] != '_' ==> ascii_lower(#[trigger] s[i + k]) == ascii_lower(pat[k])
}

/// A sync-state key the cursor reset removes: one matching
/// `remote:%:last_seq`, or exactly `last_sync_at`.
pub open spec fn is_cursor_key(k: Seq<char>) -> bool {
    ||| (k.len() >= 16 && like_at(k, 0, "remote:"@) && like_at(k, k.len() - 9, ":last_seq"@))
    ||| k == "last_sync_at"@
}

/// `s` ends with the literal `lit`, ASCII case-insensitively.
pub open spec fn ends_ci(s: Seq<char>, lit: Seq<char>) -> bool {
    s.len() >= lit.len() && matches_ci_at(s, s.len() - lit.len(), lit)
}

/// A table whose rows a factory reset deletes: not SQLite's own
/// (`sqlite_%`) and not an FTS5 shadow table (`%_content`, `%_data`,
/// `%_idx`, `%_docsize`, `%_config`, the `_` escaped).
pub open spec fn is_wiped_table(name: Seq<char>) -> bool {
    &&& !(name.len() >= 7 && like_at(name, 0, "sqlite_"@))
    &&& !ends_ci(name, "_content"@)
    &&& !ends_ci(name, "_data"@)
    &&& !ends_ci(name, "_idx"@)
    &&& !ends_ci(name, "_docsize"@)
    &&& !ends_ci(name, "_config"@)
}

fn like_at_exec(s: &Vec<char>, i: usize, pat: &Vec<char>, wildcard: bool) -> (r: bool)
    ensures
        wildcard ==> r == like_at(s@, i as int, pat@),
        !wildcard ==> r == matches_ci_at(s@, i as int, pat@),
{
    if pat.len() > s.len() || i > s.len() - pat.len() {
        return false;
    }
    let mut k: usize = 0;
    while k < pat.len()
        invariant
            0 <= k <= pat.len(),
            i + pat.len() <= s.len(),
            wildcard ==> forall|j: int| 0 <= j < k && pat@[j] != '_' ==> ascii_lower(#[trigger] s@[i + j]) == ascii_lower(pat@[j]),
            !wildcard ==> forall|j: int| 0 <= j < k ==> ascii_lower(#[trigger] s@[i + j]) == ascii_lower(pat@[j]),
        decreases pat.len() - k,
    {
        if !(wildcard && pat[k] == '_') && ascii_lower_exec(s[i + k]) != ascii_lower_exec(pat[k]) {
            return false;
        }
        k = k + 1;
    }
    true
}

fn ends_ci_exec(s: &Vec<char>, lit: &str) -> (r: bool)
    ensures
        r == ends_ci(s@, lit@),
{
    let l = chars_of(lit);
    if l.len() > s.len() {
        return false;
    }
    like_at_exec(s, s.len() - l.len(), &l, false)
}

/// Whether the cursor reset removes the key `k`.
pub fn cursor_key(k: &str) -> (r: bool)
    ensures
        r == is_cursor_key(k@),
{
    if str_eq(k, "last_sync_at") {
        return true;
    }
    let s = chars_of(k);
    if s.len() < 16 {
        return false;
    }
    let pre = chars_of("remote:");
    let suf = chars_of(":last_seq");
    like_at_exec(&s, 0, &pre, true) && like_at_exec(&s, s.len() - 9, &suf, true)
}

/// Whether a factory reset deletes the rows of the table `name`.
pub fn wiped_table(name: &str) -> (r: bool)
    ensures
        r == is_wiped_table(name@),
{
    let s = chars_of(name);
    let sq = chars_of("sqlite_");
    let internal = s.len() >= 7 && like_at_exec(&s, 0, &sq, true);
    !internal && !ends_ci_exec(&s, "_content") && !ends_ci_exec(&s, "_data") && !ends_ci_exec(&s, "_idx")
        && !ends_ci_exec(&s, "_docsize") && !ends_ci_exec(&s, "_config")
}

/// The sync-state keys the cursor reset deletes, in their given order.
pub fn cursor_keys(keys: &Vec<String>) -> (r: Vec<String>)
    ensures
        names_of(r@) == names_of(keys@).filter(|k: Seq<char>| is_cursor_key(k)),
{
    let r = keep_names(keys, true);
    assert((|k: Seq<char>| keeps(true, k)) =~= (|k: Seq<char>| is_cursor_key(k)));
    r
}

/// The tables whose rows a factory reset deletes, in their given order.
pub fn tables_to_wipe(names: &Vec<String>) -> (r: Vec<String>)
    ensures
        names_of(r@) == names_of(names@).filter(|k: Seq<char>| is_wiped_table(k)),
{
    let r = keep_names(names, false);
    assert((|k: Seq<char>| keeps(false, k)) =~= (|k: Seq<char>| is_wiped_table(k)));
    r
}

pub open spec fn keeps(cursors: bool, k: Seq<char>) -> bool {
    if cursors {
        is_cursor_key(k)
    } else {
        is_wiped_table(k)
    }
}

fn keep_names(v: &Vec<String>, cursors: bool) -> (r: Vec<String>)
    ensures
        names_of(r@) == names_of(v@).filter(|k: Seq<char>| keeps(cursors, k)),
{
    let ghost all = names_of(v@);
    let mut r: Vec<String> = Vec::new();
    let mut i: usize = 0;
    proof {
        assert(all.take(0) =~= Seq::<Seq<char>>::empty());
        reveal(Seq::filter);
        assert(names_of(r@) =~= Seq::<Seq<char>>::empty());
    }
    while i < v.len()
        invariant
            0 <= i <= v.len(),
            all == names_of(v@),
            names_of(r@) == all.take(i as int).filter(|k: Seq<char>| keeps(cursors, k)),
        decreases v.len() - i,
    {
        let keep = if cursors { cursor_key(v[i].as_str()) } else { wiped_table(v[i].as_str()) };
        let ghost before = names_of(r@);
        proof {
            reveal(Seq::filter);
            assert(all.take(i + 1).drop_last() =~= all.take(i as int));
            assert(all.take(i + 1).last() == v@[i as int]@);
        }
        if keep {
            r.push(v[i].clone());
            assert(names_of(r@) =~= before.push(v@[i as int]@));
        }
        i = i + 1;
    }
    assert(all.take(i as int) =~= all);
    r
}

/// The session part of a factory reset: the master key and the S3
/// credentials are dropped, so the vault is locked and nothing can reach
/// the old bucket.
pub fn reset_session(s: &mut Session)
    ensures
        final(s).key() is None,
        final(s).creds() is None,
{
    lock_vault(s);
    clear_s3_creds(s);
}

} // verus!

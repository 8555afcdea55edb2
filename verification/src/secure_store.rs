//! The byte store behind the `secure/` directory (`mk_pin`, `mk_bio`,
//! `pin_hash`, `s3_creds`). The device-bound wrap is applied by the caller
//! before bytes reach the store, so the store only keeps opaque blobs.

use vstd::prelude::*;
use crate::text::str_eq;

verus! {

/// A store of named byte blobs.
pub trait SecureStore {
    /// The blob named `id`, `None` when there is none.
    fn read(&self, id: &str) -> Result<Option<Vec<u8>>, String>;

    /// Store `bytes` under `id`, replacing what was there.
    fn write(&mut self, id: &str, bytes: &[u8]) -> Result<(), String>;

    /// Remove the blob named `id`; removing a missing blob succeeds.
    fn delete(&mut self, id: &str) -> Result<(), String>;

    /// Whether reading `id` succeeds with a blob.
    fn has_blob(&self, id: &str) -> bool {
        match self.read(id) {
            Ok(Some(_)) => true,
            _ => false,
        }
    }
}

/// A store held in memory (tests, and a device without a file system).
pub struct InMemoryStore {
    entries: Vec<(String, Vec<u8>)>,
    contents: Ghost<Map<Seq<char>, Seq<u8>>>,
}

/// Every name occurs once among the entries.
pub open spec fn distinct_names(e: Seq<(String, Vec<u8>)>) -> bool {
    forall|i: int, j: int| 0 <= i < j < e.len() ==> (#[trigger] e[i]).0@ != (#[trigger] e[j]).0@
}

/// The entries hold exactly the blobs of `m`.
pub open spec fn entries_match(e: Seq<(String, Vec<u8>)>, m: Map<Seq<char>, Seq<u8>>) -> bool {
    &&& distinct_names(e)
    &&& forall|i: int|
        0 <= i < e.len() ==> m.contains_key((#[trigger] e[i]).0@) && m[e[i].0@] == e[i].1@
    &&& forall|k: Seq<char>|
        #[trigger] m.contains_key(k) ==> exists|i: int| 0 <= i < e.len() && (#[trigger] e[i]).0@ == k
}

impl InMemoryStore {
    #[verifier::type_invariant]
    spec fn inv(self) -> bool {
        entries_match(self.entries@, self.contents@)
    }

    /// The blobs held, by name.
    pub closed spec fn view(&self) -> Map<Seq<char>, Seq<u8>> {
        self.contents@
    }

    /// An empty store.
    pub fn new() -> (s: Self)
        ensures
            s.view() == Map::<Seq<char>, Seq<u8>>::empty(),
    {
        InMemoryStore { entries: Vec::new(), contents: Ghost(Map::empty()) }
    }

    /// Position of the entry named `id`.
    fn find(&self, id: &str) -> (r: Option<usize>)
        ensures
            r matches Some(i) ==> i < self.entries.len() && self.entries@[i as int].0@ == id@
                && self.view().contains_key(id@) && self.view()[id@] == self.entries@[i as int].1@,
            r is None ==> !self.view().contains_key(id@),
    {
        proof {
            use_type_invariant(self);
        }
        let mut i: usize = 0;
        while i < self.entries.len()
            invariant
                entries_match(self.entries@, self.contents@),
                0 <= i <= self.entries.len(),
                forall|j: int| 0 <= j < i ==> (#[trigger] self.entries@[j]).0@ != id@,
            decreases self.entries.len() - i,
        {
            if str_eq(self.entries[i].0.as_str(), id) {
                return Some(i);
            }
            i = i + 1;
        }
        None
    }

    /// Copies of the entries whose name is not `id`.
    fn entries_without(&self, id: &str) -> (v: Vec<(String, Vec<u8>)>)
        ensures
            entries_match(v@, self.view().remove(id@)),
    {
        proof {
            use_type_invariant(self);
        }
        let ghost m = self.contents@;
        let mut v: Vec<(String, Vec<u8>)> = Vec::new();
        let mut i: usize = 0;
        while i < self.entries.len()
            invariant
                entries_match(self.entries@, m),
                0 <= i <= self.entries.len(),
                distinct_names(v@),
                forall|j: int|
                    0 <= j < v.len() ==> (#[trigger] v@[j]).0@ != id@ && m.contains_key(v@[j].0@)
                        && m[v@[j].0@] == v@[j].1@ && exists|k: int|
                        0 <= k < i && (#[trigger] self.entries@[k]).0@ == v@[j].0@,
                forall|k: int|
                    0 <= k < i && (#[trigger] self.entries@[k]).0@ != id@ ==> exists|j: int|
                        0 <= j < v.len() && (#[trigger] v@[j]).0@ == self.entries@[k].0@,
            decreases self.entries.len() - i,
        {
            let name = &self.entries[i].0;
            if !str_eq(name.as_str(), id) {
                let ghost old_v = v@;
                let copy = (name.clone(), vstd::slice::slice_to_vec(self.entries[i].1.as_slice()));
                v.push(copy);
                proof {
                    assert(v@[v.len() - 1].0@ == self.entries@[i as int].0@);
                    assert forall|a: int, b: int| 0 <= a < b < v.len() implies (#[trigger] v@[a]).0@
                        != (#[trigger] v@[b]).0@ by {
                        if b == v.len() - 1 {
                            assert(old_v[a] == v@[a]);
                            let k = choose|k: int| 0 <= k < i && (#[trigger] self.entries@[k]).0@ == v@[a].0@;
                            assert(k != i);
                        }
                    }
                    assert forall|k: int| 0 <= k < i + 1 && (#[trigger] self.entries@[k]).0@ != id@ implies exists|j: int|
                        0 <= j < v.len() && (#[trigger] v@[j]).0@ == self.entries@[k].0@ by {
                        if k == i {
                            assert(v@[v.len() - 1].0@ == self.entries@[k].0@);
                        } else {
                            let j = choose|j: int| 0 <= j < old_v.len() && (#[trigger] old_v[j]).0@ == self.entries@[k].0@;
                            assert(v@[j] == old_v[j]);
                        }
                    }
                    assert forall|j: int| 0 <= j < v.len() implies (#[trigger] v@[j]).0@ != id@ && m.contains_key(v@[j].0@)
                        && m[v@[j].0@] == v@[j].1@ && exists|k: int|
                        0 <= k < i + 1 && (#[trigger] self.entries@[k]).0@ == v@[j].0@ by {
                        if j == v.len() - 1 {
                            assert(self.entries@[i as int].0@ == v@[j].0@);
                        } else {
                            assert(v@[j] == old_v[j]);
                        }
                    }
                }
            }
            i = i + 1;
        }
        proof {
            let r = m.remove(id@);
            assert forall|k: Seq<char>| #[trigger] r.contains_key(k) implies exists|j: int|
                0 <= j < v.len() && (#[trigger] v@[j]).0@ == k by {
                let e = choose|e: int| 0 <= e < self.entries.len() && (#[trigger] self.entries@[e]).0@ == k;
                assert(self.entries@[e].0@ != id@);
            }
        }
        v
    }
}

impl SecureStore for InMemoryStore {
    fn read(&self, id: &str) -> (r: Result<Option<Vec<u8>>, String>)
        ensures
            r matches Ok(v) && (match v {
                Some(b) => self.view().contains_key(id@) && b@ == self.view()[id@],
                None => !self.view().contains_key(id@),
            }),
    {
        match self.find(id) {
            Some(i) => Ok(Some(vstd::slice::slice_to_vec(self.entries[i].1.as_slice()))),
            None => Ok(None),
        }
    }

    fn write(&mut self, id: &str, bytes: &[u8]) -> (r: Result<(), String>)
        ensures
            r is Ok,
            final(self).view() == old(self).view().insert(id@, bytes@),
    {
        let ghost m = self.view().remove(id@).insert(id@, bytes@);
        let mut v = self.entries_without(id);
        let ghost old_v = v@;
        v.push((id.to_owned(), vstd::slice::slice_to_vec(bytes)));
        proof {
            assert forall|a: int, b: int| 0 <= a < b < v.len() implies (#[trigger] v@[a]).0@
                != (#[trigger] v@[b]).0@ by {
                if b == v.len() - 1 {
                    assert(old_v[a] == v@[a]);
                }
            }
            assert forall|k: Seq<char>| #[trigger] m.contains_key(k) implies exists|j: int|
                0 <= j < v.len() && (#[trigger] v@[j]).0@ == k by {
                if k == id@ {
                    assert(v@[v.len() - 1].0@ == k);
                } else {
                    let j = choose|j: int| 0 <= j < old_v.len() && (#[trigger] old_v[j]).0@ == k;
                    assert(v@[j] == old_v[j]);
                }
            }
            assert forall|j: int| 0 <= j < v.len() implies m.contains_key((#[trigger] v@[j]).0@) && m[v@[j].0@]
                == v@[j].1@ by {
                if j < v.len() - 1 {
                    assert(v@[j] == old_v[j]);
                }
            }
        }
        assert(m =~= self.view().insert(id@, bytes@));
        *self = InMemoryStore { entries: v, contents: Ghost(m) };
        Ok(())
    }

    fn delete(&mut self, id: &str) -> (r: Result<(), String>)
        ensures
            r is Ok,
            final(self).view() == old(self).view().remove(id@),
    {
        let ghost m = self.view().remove(id@);
        let v = self.entries_without(id);
        *self = InMemoryStore { entries: v, contents: Ghost(m) };
        Ok(())
    }
}

/// Law: what was written is read back, until it is deleted.
pub proof fn lemma_read_after_write(m: Map<Seq<char>, Seq<u8>>, id: Seq<char>, other: Seq<char>, bytes: Seq<u8>)
    ensures
        m.insert(id, bytes).contains_key(id) && m.insert(id, bytes)[id] == bytes,
        !m.remove(id).contains_key(id),
        other != id ==> m.insert(id, bytes).remove(id).contains_key(other) == m.contains_key(other),
{
}

} // verus!

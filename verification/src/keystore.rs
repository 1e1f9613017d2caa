//! In-memory key store consulted by the core's key-store shim.
//!
//! The store is configured with a fixed set of key ids (its slots). It
//! accepts exactly those ids: importing under a configured id stores the
//! bytes, importing under any other id is rejected.

use vstd::prelude::*;

verus! {

/// Error kinds a key store reports.
#[derive(Clone, Copy, PartialEq, Eq, Structural, Debug)]
pub enum Error {
    /// The key id is not one of the store's configured slots.
    InvalidKeyId,
}

/// First-match lookup of the bytes stored under `key_id`, scanning `s` from
/// position `k`.
pub open spec fn lookup_from(s: Seq<(u32, Option<Vec<u8>>)>, k: int, key_id: u32) -> Option<
    Seq<u8>,
>
    decreases s.len() - k when 0 <= k <= s.len()
{
    if k >= s.len() {
        None
    } else if s[k].0 == key_id {
        match s[k].1 {
            Some(d) => Some(d@),
            None => None,
        }
    } else {
        lookup_from(s, k + 1, key_id)
    }
}

pub struct MemoryKeyStore {
    pub slots: Vec<(u32, Option<Vec<u8>>)>,
}

impl MemoryKeyStore {
    /// The configured key ids, in slot order.
    pub open spec fn ids(self) -> Seq<u32> {
        Seq::new(self.slots@.len(), |i: int| self.slots@[i].0)
    }

    /// Slot ids are pairwise distinct.
    pub open spec fn wf(self) -> bool {
        forall|i: int, j: int|
            0 <= i < j < self.slots@.len() ==> self.slots@[i].0 != self.slots@[j].0
    }

    /// The store accepts exactly the key ids it was configured with.
    pub open spec fn accepts(self, key_id: u32) -> bool {
        exists|i: int| 0 <= i < self.slots@.len() && self.slots@[i].0 == key_id
    }

    /// The bytes currently stored under `key_id`, if any.
    pub open spec fn stored(self, key_id: u32) -> Option<Seq<u8>> {
        lookup_from(self.slots@, 0, key_id)
    }

    pub fn new(key_ids: &Vec<u32>) -> (r: Self)
        requires
            forall|i: int, j: int| 0 <= i < j < key_ids@.len() ==> key_ids@[i] != key_ids@[j],
        ensures
            r.wf(),
            r.ids() == key_ids@,
            forall|k: u32| r.stored(k) is None,
            forall|k: u32| r.accepts(k) == key_ids@.contains(k),
    {
        let mut slots: Vec<(u32, Option<Vec<u8>>)> = Vec::new();
        let n = key_ids.len();
        let mut i: usize = 0;
        while i < n
            invariant
                n == key_ids@.len(),
                i <= n,
                slots@.len() == i,
                forall|j: int| 0 <= j < i ==> slots@[j].0 == key_ids@[j],
                forall|j: int| 0 <= j < i ==> slots@[j].1 is None,
            decreases n - i,
        {
            slots.push((key_ids[i], None));
            i += 1;
        }
        let r = MemoryKeyStore { slots };
        proof {
            assert(r.ids() =~= key_ids@);
            assert forall|a: int, b: int|
                0 <= a < b < r.slots@.len() implies r.slots@[a].0 != r.slots@[b].0 by {
                assert(r.slots@[a].0 == key_ids@[a]);
                assert(r.slots@[b].0 == key_ids@[b]);
            }
            assert forall|k: u32| r.stored(k) is None by {
                lemma_lookup_all_none(r.slots@, 0, k);
            }
            assert forall|k: u32| r.accepts(k) == key_ids@.contains(k) by {
                if r.accepts(k) {
                    let w = choose|i: int|
                        0 <= i < r.slots@.len() && r.slots@[i].0 == k;
                    assert(key_ids@[w] == k);
                }
                if key_ids@.contains(k) {
                    let w = choose|i: int| 0 <= i < key_ids@.len() && key_ids@[i] == k;
                    assert(r.slots@[w].0 == k);
                }
            }
        }
        r
    }

    /// Store `data` under `key_id`. Succeeds exactly when `key_id` is one of
    /// the configured slots; other slots keep their contents.
    pub fn import(&mut self, key_id: u32, data: Vec<u8>) -> (r: Result<(), Error>)
        requires
            old(self).wf(),
        ensures
            final(self).wf(),
            final(self).ids() == old(self).ids(),
            r is Ok <==> old(self).accepts(key_id),
            r is Ok ==> final(self).stored(key_id) == Some(data@),
            r is Ok ==> forall|k: u32| k != key_id ==> final(self).stored(k) == old(self).stored(k),
            r is Err ==> *final(self) == *old(self) && r == Err::<(), Error>(Error::InvalidKeyId),
    {
        let n = self.slots.len();
        let mut i: usize = 0;
        while i < n
            invariant
                old(self).wf(),
                *self == *old(self),
                n == self.slots@.len(),
                i <= n,
                forall|j: int| 0 <= j < i ==> self.slots@[j].0 != key_id,
            decreases n - i,
        {
            if self.slots[i].0 == key_id {
                let ghost pre = self.slots@;
                let ghost gdata = data@;
                let _removed = self.slots.remove(i);
                self.slots.insert(i, (key_id, Some(data)));
                proof {
                    let newslot = self.slots@[i as int];
                    assert(self.slots@ =~= pre.update(i as int, newslot));
                    assert(self.ids() =~= old(self).ids());
                    assert forall|a: int, b: int|
                        0 <= a < b < self.slots@.len() implies self.slots@[a].0
                        != self.slots@[b].0 by {
                        assert(old(self).slots@[a].0 != old(self).slots@[b].0);
                        assert(self.slots@[a].0 == pre[a].0);
                        assert(self.slots@[b].0 == pre[b].0);
                    }
                    lemma_lookup_first_match(self.slots@, 0, i as int, key_id);
                    assert(self.stored(key_id) == Some(gdata));
                    assert forall|k: u32| k != key_id implies #[trigger] self.stored(k)
                        == old(self).stored(k) by {
                        lemma_lookup_update_other(pre, i as int, newslot, 0, k);
                    }
                }
                return Ok(());
            }
            i += 1;
        }
        Err(Error::InvalidKeyId)
    }

    /// Remove the bytes stored under `key_id`, keeping the slot configured.
    pub fn delete(&mut self, key_id: u32) -> (r: Result<(), Error>)
        requires
            old(self).wf(),
        ensures
            final(self).wf(),
            final(self).ids() == old(self).ids(),
            r is Ok <==> old(self).accepts(key_id),
            r is Ok ==> final(self).stored(key_id) is None,
            r is Ok ==> forall|k: u32| k != key_id ==> final(self).stored(k) == old(self).stored(k),
            r is Err ==> *final(self) == *old(self) && r == Err::<(), Error>(Error::InvalidKeyId),
    {
        let n = self.slots.len();
        let mut i: usize = 0;
        while i < n
            invariant
                old(self).wf(),
                *self == *old(self),
                n == self.slots@.len(),
                i <= n,
                forall|j: int| 0 <= j < i ==> self.slots@[j].0 != key_id,
            decreases n - i,
        {
            if self.slots[i].0 == key_id {
                let ghost pre = self.slots@;
                let _removed = self.slots.remove(i);
                self.slots.insert(i, (key_id, None));
                proof {
                    let newslot = self.slots@[i as int];
                    assert(self.slots@ =~= pre.update(i as int, newslot));
                    assert(self.ids() =~= old(self).ids());
                    assert forall|a: int, b: int|
                        0 <= a < b < self.slots@.len() implies self.slots@[a].0
                        != self.slots@[b].0 by {
                        assert(old(self).slots@[a].0 != old(self).slots@[b].0);
                        assert(self.slots@[a].0 == pre[a].0);
                        assert(self.slots@[b].0 == pre[b].0);
                    }
                    lemma_lookup_first_match(self.slots@, 0, i as int, key_id);
                    assert forall|k: u32| k != key_id implies #[trigger] self.stored(k)
                        == old(self).stored(k) by {
                        lemma_lookup_update_other(pre, i as int, newslot, 0, k);
                    }
                }
                return Ok(());
            }
            i += 1;
        }
        Err(Error::InvalidKeyId)
    }

    /// The bytes currently stored under `key_id`, if any.
    pub fn lookup(&self, key_id: u32) -> (r: Option<&Vec<u8>>)
        ensures
            match r {
                Some(d) => self.stored(key_id) == Some(d@),
                None => self.stored(key_id) is None,
            },
    {
        let n = self.slots.len();
        let mut i: usize = 0;
        while i < n
            invariant
                n == self.slots@.len(),
                i <= n,
                forall|j: int| 0 <= j < i ==> self.slots@[j].0 != key_id,
            decreases n - i,
        {
            if self.slots[i].0 == key_id {
                proof {
                    lemma_lookup_first_match(self.slots@, 0, i as int, key_id);
                }
                return match &self.slots[i].1 {
                    Some(d) => Some(d),
                    None => None,
                };
            }
            i += 1;
        }
        proof {
            lemma_lookup_no_match(self.slots@, 0, key_id);
        }
        None
    }
}

/// If no slot at or after `k` holds any bytes, lookup from `k` finds none.
proof fn lemma_lookup_all_none(s: Seq<(u32, Option<Vec<u8>>)>, k: int, key_id: u32)
    requires
        0 <= k <= s.len(),
        forall|j: int| 0 <= j < s.len() ==> s[j].1 is None,
    ensures
        lookup_from(s, k, key_id) is None,
    decreases s.len() - k,
{
    if k < s.len() && s[k].0 != key_id {
        lemma_lookup_all_none(s, k + 1, key_id);
    }
}

/// If slot `i` is the first at or after `k` whose id is `key_id`, lookup from
/// `k` reads slot `i`.
proof fn lemma_lookup_first_match(s: Seq<(u32, Option<Vec<u8>>)>, k: int, i: int, key_id: u32)
    requires
        0 <= k <= i < s.len(),
        s[i].0 == key_id,
        forall|j: int| k <= j < i ==> s[j].0 != key_id,
    ensures
        lookup_from(s, k, key_id) == match s[i].1 {
            Some(d) => Some(d@),
            None => None::<Seq<u8>>,
        },
    decreases i - k,
{
    if k < i {
        lemma_lookup_first_match(s, k + 1, i, key_id);
    }
}

/// If no slot at or after `k` has id `key_id`, lookup from `k` finds none.
proof fn lemma_lookup_no_match(s: Seq<(u32, Option<Vec<u8>>)>, k: int, key_id: u32)
    requires
        0 <= k <= s.len(),
        forall|j: int| k <= j < s.len() ==> s[j].0 != key_id,
    ensures
        lookup_from(s, k, key_id) is None,
    decreases s.len() - k,
{
    if k < s.len() {
        lemma_lookup_no_match(s, k + 1, key_id);
    }
}

/// Updating a slot whose id differs from `key_id` leaves lookups for
/// `key_id` unchanged.
proof fn lemma_lookup_update_other(
    s: Seq<(u32, Option<Vec<u8>>)>,
    i: int,
    x: (u32, Option<Vec<u8>>),
    k: int,
    key_id: u32,
)
    requires
        0 <= i < s.len(),
        0 <= k <= s.len(),
        x.0 != key_id,
        s[i].0 != key_id,
    ensures
        lookup_from(s.update(i, x), k, key_id) == lookup_from(s, k, key_id),
    decreases s.len() - k,
{
    if k < s.len() {
        lemma_lookup_update_other(s, i, x, k + 1, key_id);
    }
}

} // verus!

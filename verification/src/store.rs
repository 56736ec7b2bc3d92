use vstd::prelude::*;

verus! {

use crate::components::{Cull, EntityTag, Health, Player, Projectile, Sprite, Transform};

/// A single entity: an opaque unique identity plus its optional components.
#[derive(Clone, Copy, Debug, Eq, PartialEq, Structural)]
pub struct EntityRecord {
    pub id: u64,
    pub transform: Option<Transform>,
    pub sprite: Option<Sprite>,
    pub tag: Option<EntityTag>,
    pub health: Option<Health>,
    pub projectile: Option<Projectile>,
    pub player: Option<Player>,
    pub cull: Option<Cull>,
    pub handle: Option<u64>,
}

impl EntityRecord {
    /// A record with identity `id` and no components attached.
    pub open spec fn empty_spec(id: u64) -> EntityRecord {
        EntityRecord {
            id,
            transform: None,
            sprite: None,
            tag: None,
            health: None,
            projectile: None,
            player: None,
            cull: None,
            handle: None,
        }
    }

    pub fn empty(id: u64) -> (r: EntityRecord)
        ensures
            r == EntityRecord::empty_spec(id),
    {
        EntityRecord {
            id,
            transform: None,
            sprite: None,
            tag: None,
            health: None,
            projectile: None,
            player: None,
            cull: None,
            handle: None,
        }
    }
}

/// The entity store: every live entity with its components, ordered by
/// strictly increasing identity. Identities are never reused.
pub struct World {
    next_id: u64,
    entries: Vec<EntityRecord>,
}

impl World {
    /// The live records, in insertion order.
    pub closed spec fn records(self) -> Seq<EntityRecord> {
        self.entries@
    }

    /// The identity the next inserted entity will get.
    pub closed spec fn spec_next_id(self) -> u64 {
        self.next_id
    }

    /// Identities are strictly increasing along the store (hence unique) and
    /// all below the next one to be handed out.
    pub open spec fn wf(self) -> bool {
        &&& forall|i: int|
            0 <= i < self.records().len() ==> (#[trigger] self.records()[i].id)
                < self.spec_next_id()
        &&& forall|i: int, j: int|
            0 <= i < j < self.records().len() ==> (#[trigger] self.records()[i].id)
                < (#[trigger] self.records()[j].id)
    }

    /// Whether an entity with identity `id` is in the store.
    pub open spec fn spec_contains(self, id: u64) -> bool {
        exists|i: int| 0 <= i < self.records().len() && (#[trigger] self.records()[i].id) == id
    }

    /// The position of the entity with identity `id`, when it is present.
    pub open spec fn spec_index_of(self, id: u64) -> int {
        choose|i: int| 0 <= i < self.records().len() && (#[trigger] self.records()[i].id) == id
    }

    /// The record of the entity with identity `id`, when it is present.
    pub open spec fn spec_get(self, id: u64) -> EntityRecord {
        self.records()[self.spec_index_of(id)]
    }

    /// In a well-formed store a record position is determined by its identity.
    pub proof fn lemma_id_determines_index(self, i: int, j: int)
        requires
            self.wf(),
            0 <= i < self.records().len(),
            0 <= j < self.records().len(),
            self.records()[i].id == self.records()[j].id,
        ensures
            i == j,
    {
        if i < j {
            assert(self.records()[i].id < self.records()[j].id);
        }
        if j < i {
            assert(self.records()[j].id < self.records()[i].id);
        }
    }

    pub fn new() -> (r: World)
        ensures
            r.records() == Seq::<EntityRecord>::empty(),
            r.spec_next_id() == 0,
            r.wf(),
    {
        World { next_id: 0, entries: Vec::new() }
    }

    pub fn len(&self) -> (r: usize)
        ensures
            r == self.records().len(),
    {
        self.entries.len()
    }

    /// The identity the next inserted entity will get; grows by one per
    /// insertion and is never reused.
    pub fn next_id(&self) -> (r: u64)
        ensures
            r == self.spec_next_id(),
    {
        self.next_id
    }

    /// The record at position `i` of the store.
    pub fn record_at(&self, i: usize) -> (r: EntityRecord)
        requires
            i < self.records().len(),
        ensures
            r == self.records()[i as int],
    {
        self.entries[i]
    }

    /// Replace the record at position `i`; the identity must stay.
    pub fn set_at(&mut self, i: usize, r: EntityRecord)
        requires
            old(self).wf(),
            i < old(self).records().len(),
            r.id == old(self).records()[i as int].id,
        ensures
            final(self).records() == old(self).records().update(i as int, r),
            final(self).spec_next_id() == old(self).spec_next_id(),
            final(self).wf(),
    {
        let slot = &mut self.entries[i];
        *slot = r;
    }

    /// Insert a new entity built from `template`, under a fresh identity
    /// (the `id` field of `template` is ignored).
    pub fn insert(&mut self, template: EntityRecord) -> (id: u64)
        requires
            old(self).wf(),
            old(self).spec_next_id() < u64::MAX,
        ensures
            id == old(self).spec_next_id(),
            final(self).records() == old(self).records().push(EntityRecord { id, ..template }),
            final(self).spec_next_id() == old(self).spec_next_id() + 1,
            final(self).wf(),
            final(self).spec_contains(id),
            !old(self).spec_contains(id),
            final(self).spec_get(id) == (EntityRecord { id, ..template }),
    {
        let id = self.next_id;
        let rec = EntityRecord { id, ..template };
        self.entries.push(rec);
        self.next_id = self.next_id + 1;
        proof {
            let n = self.records().len() - 1;
            assert(self.records()[n].id == id);
            if old(self).spec_contains(id) {
                let i = choose|i: int|
                    0 <= i < old(self).records().len() && (#[trigger] old(self).records()[i].id)
                        == id;
                assert(old(self).records()[i].id < id);
            }
            let w = self.spec_index_of(id);
            self.lemma_id_determines_index(w, n);
        }
        id
    }

    /// Look up an entity by identity.
    pub fn get(&self, id: u64) -> (r: Option<EntityRecord>)
        requires
            self.wf(),
        ensures
            r == if self.spec_contains(id) {
                Some(self.spec_get(id))
            } else {
                None::<EntityRecord>
            },
    {
        match self.get_index(id) {
            Some(i) => {
                let rec = self.entries[i];
                proof {
                    let w = self.spec_index_of(id);
                    self.lemma_id_determines_index(w, i as int);
                }
                Some(rec)
            },
            None => None,
        }
    }

    /// Find the position of an entity by identity.
    pub fn get_index(&self, id: u64) -> (r: Option<usize>)
        requires
            self.wf(),
        ensures
            match r {
                Some(i) => i < self.records().len() && self.records()[i as int].id == id
                    && self.spec_contains(id),
                None => !self.spec_contains(id),
            },
    {
        let n = self.entries.len();
        let mut i: usize = 0;
        while i < n
            invariant
                n == self.records().len(),
                0 <= i <= n,
                forall|j: int| 0 <= j < i ==> (#[trigger] self.records()[j].id) != id,
            decreases n - i,
        {
            if self.entries[i].id == id {
                return Some(i);
            }
            i = i + 1;
        }
        None
    }

    /// Remove the entity with identity `id`, if present. Every other record
    /// is retained, in order.
    pub fn remove(&mut self, id: u64) -> (removed: bool)
        requires
            old(self).wf(),
        ensures
            final(self).records() == old(self).records().filter(|r: EntityRecord| r.id != id),
            final(self).spec_next_id() == old(self).spec_next_id(),
            final(self).wf(),
            removed == old(self).spec_contains(id),
            !final(self).spec_contains(id),
    {
        match self.get_index(id) {
            Some(i) => {
                self.entries.remove(i);
                proof {
                    let s = old(self).records();
                    let pred = |r: EntityRecord| r.id != id;
                    let front = s.subrange(0, i as int);
                    let mid = s.subrange(i as int, i + 1);
                    let back = s.subrange(i + 1, s.len() as int);
                    assert(s =~= front + mid + back);
                    Seq::<EntityRecord>::filter_distributes_over_add(front + mid, back, pred);
                    Seq::<EntityRecord>::filter_distributes_over_add(front, mid, pred);
                    assert forall|j: int| 0 <= j < front.len() implies pred(#[trigger] front[j]) by {
                        assert(front[j] == s[j]);
                        if s[j].id == id {
                            old(self).lemma_id_determines_index(j, i as int);
                        }
                    }
                    assert forall|j: int| 0 <= j < back.len() implies pred(#[trigger] back[j]) by {
                        assert(back[j] == s[j + i + 1]);
                        if s[j + i + 1].id == id {
                            old(self).lemma_id_determines_index(j + i + 1, i as int);
                        }
                    }
                    lemma_filter_retains_all(front, pred);
                    lemma_filter_retains_all(back, pred);
                    lemma_filter_drops_single(mid, pred);
                    assert(self.records() =~= front + back);
                    assert(self.records() =~= s.filter(pred));
                    assert forall|k: int| 0 <= k < self.records().len() implies (
                    #[trigger] self.records()[k].id) < self.spec_next_id() by {
                        if k < i {
                            assert(self.records()[k] == s[k]);
                        } else {
                            assert(self.records()[k] == s[k + 1]);
                        }
                    }
                    assert forall|k: int, l: int|
                        0 <= k < l < self.records().len() implies (
                    #[trigger] self.records()[k].id) < (#[trigger] self.records()[l].id) by {
                        let k0 = if k < i {
                            k
                        } else {
                            k + 1
                        };
                        let l0 = if l < i {
                            l
                        } else {
                            l + 1
                        };
                        assert(self.records()[k] == s[k0]);
                        assert(self.records()[l] == s[l0]);
                    }
                    if self.spec_contains(id) {
                        let w = self.spec_index_of(id);
                        assert(pred(self.records()[w]));
                    }
                }
                true
            },
            None => {
                proof {
                    let s = self.records();
                    let pred = |r: EntityRecord| r.id != id;
                    assert forall|j: int| 0 <= j < s.len() implies pred(#[trigger] s[j]) by {}
                    lemma_filter_retains_all(s, pred);
                    assert(s.filter(pred) =~= s);
                }
                false
            },
        }
    }
}

/// Whether `ids` lists `id`.
fn contains_id(ids: &Vec<u64>, id: u64) -> (r: bool)
    ensures
        r == ids@.contains(id),
{
    let n = ids.len();
    let mut i: usize = 0;
    while i < n
        invariant
            n == ids@.len(),
            0 <= i <= n,
            forall|j: int| 0 <= j < i ==> ids@[j] != id,
        decreases n - i,
    {
        if ids[i] == id {
            return true;
        }
        i = i + 1;
    }
    false
}

impl World {
    /// Remove every entity whose identity is listed, keeping all others in
    /// order; the deferred-removal phase of culling.
    pub fn remove_ids(&mut self, ids: &Vec<u64>)
        requires
            old(self).wf(),
        ensures
            final(self).records() == old(self).records().filter(
                |r: EntityRecord| !ids@.contains(r.id),
            ),
            final(self).spec_next_id() == old(self).spec_next_id(),
            final(self).wf(),
    {
        let ghost pred = |r: EntityRecord| !ids@.contains(r.id);
        let n = self.entries.len();
        let mut kept: Vec<EntityRecord> = Vec::new();
        let mut i: usize = 0;
        while i < n
            invariant
                old(self).wf(),
                n == old(self).entries@.len(),
                0 <= i <= n,
                self == old(self),
                pred == (|r: EntityRecord| !ids@.contains(r.id)),
                kept@ == old(self).entries@.subrange(0, i as int).filter(pred),
            decreases n - i,
        {
            proof {
                let pre = self.entries@.subrange(0, i as int);
                let post = self.entries@.subrange(0, i + 1);
                assert(post.drop_last() =~= pre);
                assert(post.last() == self.entries@[i as int]);
                reveal(Seq::filter);
            }
            let r = self.entries[i];
            if !contains_id(ids, r.id) {
                kept.push(r);
            }
            i = i + 1;
        }
        proof {
            assert(old(self).entries@.subrange(0, n as int) =~= old(self).entries@);
        }
        self.entries = kept;
        proof {
            let s = old(self).records();
            let f = s.filter(pred);
            assert forall|a: int, b: int|
                0 <= a < b < f.len() implies (#[trigger] f[a]).id < (#[trigger] f[b]).id by {
                lemma_filter_keeps_order(s, pred, a, b);
            }
            assert forall|a: int|
                0 <= a < f.len() implies (#[trigger] f[a]).id < self.spec_next_id() by {
                assert(f.contains(f[a]));
                s.lemma_filter_contains_rev(pred, f[a]);
                let k = choose|k: int| 0 <= k < s.len() && s[k] == f[a];
                assert(s[k].id < old(self).spec_next_id());
            }
        }
    }
}

/// Filtering keeps the relative order of the kept elements: any two
/// positions of the filtered sequence come from positions of the original
/// in the same order.
pub proof fn lemma_filter_keeps_order<A>(s: Seq<A>, pred: spec_fn(A) -> bool, a: int, b: int)
    requires
        0 <= a < b < s.filter(pred).len(),
    ensures
        exists|i: int, j: int|
            0 <= i < j < s.len() && s[i] == #[trigger] s.filter(pred)[a] && s[j]
                == #[trigger] s.filter(pred)[b],
    decreases s.len(),
{
    reveal(Seq::filter);
    let f = s.filter(pred);
    if s.len() > 0 {
        let rest = s.drop_last();
        let rf = rest.filter(pred);
        if pred(s.last()) {
            if b < f.len() - 1 {
                lemma_filter_keeps_order(rest, pred, a, b);
                let (i, j) = choose|i: int, j: int|
                    0 <= i < j < rest.len() && rest[i] == #[trigger] rf[a] && rest[j]
                        == #[trigger] rf[b];
                assert(s[i] == f[a] && s[j] == f[b]);
            } else {
                // b is the appended last element
                if a < rf.len() {
                    rest.lemma_filter_contains_rev(pred, rf[a]);
                    let i = choose|i: int| 0 <= i < rest.len() && rest[i] == rf[a];
                    assert(s[i] == f[a]);
                    assert(s[s.len() - 1] == f[b]);
                }
            }
        } else {
            lemma_filter_keeps_order(rest, pred, a, b);
            let (i, j) = choose|i: int, j: int|
                0 <= i < j < rest.len() && rest[i] == #[trigger] rf[a] && rest[j] == #[trigger] rf[b];
            assert(s[i] == f[a] && s[j] == f[b]);
        }
    }
}

/// Filtering keeps a sequence unchanged when every element passes.
pub proof fn lemma_filter_retains_all<A>(s: Seq<A>, pred: spec_fn(A) -> bool)
    requires
        forall|i: int| 0 <= i < s.len() ==> pred(#[trigger] s[i]),
    ensures
        s.filter(pred) =~= s,
    decreases s.len(),
{
    reveal(Seq::filter);
    if s.len() > 0 {
        assert(forall|i: int| 0 <= i < s.drop_last().len() ==> pred(#[trigger] s.drop_last()[i]));
        lemma_filter_retains_all(s.drop_last(), pred);
    }
}

/// Filtering a one-element sequence whose element fails the predicate gives
/// the empty sequence.
pub proof fn lemma_filter_drops_single<A>(s: Seq<A>, pred: spec_fn(A) -> bool)
    requires
        s.len() == 1,
        !pred(s[0]),
    ensures
        s.filter(pred) =~= Seq::<A>::empty(),
{
    reveal(Seq::filter);
    assert(s.drop_last().len() == 0);
    assert(s.drop_last().filter(pred) =~= Seq::<A>::empty());
}

} // verus!

use vstd::prelude::*;

use crate::entity::{Entity, ValueView};

verus! {

/// What an entity holds: its fields, in order.
pub type EntityView = Seq<(Seq<char>, ValueView)>;

/// An entity type and an id.
#[derive(Debug)]
pub struct EntityKey {
    pub entity_type: String,
    pub entity_id: String,
}

impl View for EntityKey {
    type V = (Seq<char>, Seq<char>);

    open spec fn view(&self) -> (Seq<char>, Seq<char>) {
        (self.entity_type@, self.entity_id@)
    }
}

impl EntityKey {
    /// Whether both keys name the same entity.
    pub fn same(&self, o: &EntityKey) -> (r: bool)
        ensures
            r == (self@ == o@),
    {
        self.entity_type == o.entity_type && self.entity_id == o.entity_id
    }

    /// A copy of the key.
    pub fn duplicate(&self) -> (r: EntityKey)
        ensures
            r@ == self@,
    {
        EntityKey { entity_type: self.entity_type.clone(), entity_id: self.entity_id.clone() }
    }
}

/// A write (`Some`) or a removal (`None`) of an entity.
pub open spec fn op_view(op: Option<Entity>) -> Option<EntityView> {
    match op {
        Some(e) => Some(e@),
        None => None,
    }
}

/// A copy of a pending write or removal.
pub fn duplicate_op(op: &Option<Entity>) -> (r: Option<Entity>)
    ensures
        op_view(r) == op_view(*op),
{
    match op {
        Some(e) => Some(e.duplicate()),
        None => None,
    }
}

/// The change that is pending for one entity.
#[derive(Debug)]
pub struct PendingOp {
    pub key: EntityKey,
    pub entity: Option<Entity>,
}

/// The last change recorded for `k` in `ops`, if any.
pub open spec fn pending_of(
    ops: Seq<((Seq<char>, Seq<char>), Option<EntityView>)>,
    k: (Seq<char>, Seq<char>),
) -> Option<Option<EntityView>>
    decreases ops.len(),
{
    if ops.len() == 0 {
        None
    } else if ops.last().0 == k {
        Some(ops.last().1)
    } else {
        pending_of(ops.drop_last(), k)
    }
}

/// No key occurs twice in `ops`.
pub open spec fn keys_unique(ops: Seq<((Seq<char>, Seq<char>), Option<EntityView>)>) -> bool {
    forall|i: int, j: int| 0 <= i < j < ops.len() ==> ops[i].0 != ops[j].0
}

proof fn lemma_pending_at(ops: Seq<((Seq<char>, Seq<char>), Option<EntityView>)>, i: int)
    requires
        keys_unique(ops),
        0 <= i < ops.len(),
    ensures
        pending_of(ops, ops[i].0) == Some(ops[i].1),
    decreases ops.len(),
{
    if i < ops.len() - 1 {
        assert(ops.last() == ops[ops.len() - 1]);
        lemma_pending_at(ops.drop_last(), i);
    }
}

proof fn lemma_pending_absent(ops: Seq<((Seq<char>, Seq<char>), Option<EntityView>)>, k: (Seq<char>, Seq<char>))
    requires
        forall|i: int| 0 <= i < ops.len() ==> ops[i].0 != k,
    ensures
        pending_of(ops, k) is None,
    decreases ops.len(),
{
    if ops.len() > 0 {
        assert(ops.last() == ops[ops.len() - 1]);
        lemma_pending_absent(ops.drop_last(), k);
    }
}

/// Entity changes made while handling one block, at most one per entity.
#[derive(Debug)]
pub struct EntityCache {
    pub updates: Vec<PendingOp>,
}

impl EntityCache {
    /// Each pending change as a key and an optional entity.
    pub open spec fn ops(&self) -> Seq<((Seq<char>, Seq<char>), Option<EntityView>)> {
        self.updates@.map_values(|p: PendingOp| (p.key@, op_view(p.entity)))
    }

    /// The change pending for `k`: a write, a removal, or nothing.
    pub open spec fn pending(&self, k: (Seq<char>, Seq<char>)) -> Option<Option<EntityView>> {
        pending_of(self.ops(), k)
    }

    pub open spec fn wf(&self) -> bool {
        keys_unique(self.ops())
    }

    /// A cache with nothing pending.
    pub fn new() -> (r: EntityCache)
        ensures
            r.wf(),
            forall|k: (Seq<char>, Seq<char>)| #[trigger] r.pending(k) is None,
    {
        let r = EntityCache { updates: Vec::new() };
        assert(r.ops() =~= Seq::empty());
        r
    }

    /// Where the change for `key` is kept.
    fn find(&self, key: &EntityKey) -> (r: Option<usize>)
        ensures
            match r {
                Some(i) => i < self.ops().len() && self.ops()[i as int].0 == key@,
                None => forall|i: int| 0 <= i < self.ops().len() ==> self.ops()[i].0 != key@,
            },
    {
        let mut i: usize = 0;
        while i < self.updates.len()
            invariant
                0 <= i <= self.updates@.len(),
                forall|j: int| 0 <= j < i ==> self.ops()[j].0 != key@,
            decreases self.updates@.len() - i,
        {
            if self.updates[i].key.same(key) {
                return Some(i);
            }
            i = i + 1;
        }
        None
    }

    /// Whether no key occurs twice, the invariant that the cache's methods
    /// keep.
    pub fn is_well_formed(&self) -> (r: bool)
        ensures
            r == self.wf(),
    {
        let mut i: usize = 0;
        while i < self.updates.len()
            invariant
                0 <= i <= self.updates@.len(),
                forall|a: int, b: int| 0 <= a < b < self.ops().len() && a < i ==> self.ops()[a].0 != self.ops()[b].0,
            decreases self.updates@.len() - i,
        {
            let mut j: usize = i + 1;
            while j < self.updates.len()
                invariant
                    i < self.updates@.len(),
                    i + 1 <= j <= self.updates@.len(),
                    forall|a: int, b: int| 0 <= a < b < self.ops().len() && a < i ==> self.ops()[a].0 != self.ops()[b].0,
                    forall|b: int| i < b < j ==> self.ops()[i as int].0 != self.ops()[b].0,
                decreases self.updates@.len() - j,
            {
                if self.updates[i].key.same(&self.updates[j].key) {
                    assert(self.ops()[i as int].0 == self.ops()[j as int].0);
                    return false;
                }
                j = j + 1;
            }
            i = i + 1;
        }
        true
    }

    /// A copy of the change pending for `key`: `None` when there is none,
    /// `Some(None)` for a removal.
    pub fn get(&self, key: &EntityKey) -> (r: Option<Option<Entity>>)
        requires
            self.wf(),
        ensures
            match r {
                Some(op) => self.pending(key@) == Some(op_view(op)),
                None => self.pending(key@) is None,
            },
    {
        match self.find(key) {
            Some(i) => {
                proof {
                    lemma_pending_at(self.ops(), i as int);
                }
                Some(duplicate_op(&self.updates[i].entity))
            },
            None => {
                proof {
                    lemma_pending_absent(self.ops(), key@);
                }
                None
            },
        }
    }

    /// Records a write (`Some`) or a removal (`None`) for `key`, replacing what
    /// was pending for it.
    pub fn apply(&mut self, key: EntityKey, entity: Option<Entity>)
        requires
            old(self).wf(),
        ensures
            final(self).wf(),
            final(self).pending(key@) == Some(op_view(entity)),
            forall|k: (Seq<char>, Seq<char>)| k != key@ ==> #[trigger] final(self).pending(k) == old(self).pending(k),
    {
        let ghost kv = key@;
        let ghost ev = op_view(entity);
        let ghost before = self.ops();
        match self.find(&key) {
            Some(i) => {
                self.updates.set(i, PendingOp { key, entity });
                assert(self.ops() =~= before.update(i as int, (kv, ev)));
                proof {
                    lemma_pending_at(self.ops(), i as int);
                    assert forall|k: (Seq<char>, Seq<char>)| k != kv implies #[trigger] self.pending(k) == pending_of(before, k) by {
                        match pending_of(before, k) {
                            Some(_) => {
                                lemma_pending_found(before, k);
                                let j = choose|j: int| 0 <= j < before.len() && before[j].0 == k;
                                lemma_pending_at(before, j);
                                lemma_pending_at(self.ops(), j);
                            },
                            None => {
                                lemma_pending_none(before, k);
                                lemma_pending_absent(self.ops(), k);
                            },
                        }
                    }
                }
            },
            None => {
                self.updates.push(PendingOp { key, entity });
                assert(self.ops() =~= before.push((kv, ev)));
                assert(self.ops().drop_last() =~= before);
            },
        }
    }
}

proof fn lemma_pending_found(ops: Seq<((Seq<char>, Seq<char>), Option<EntityView>)>, k: (Seq<char>, Seq<char>))
    requires
        pending_of(ops, k) is Some,
    ensures
        exists|j: int| 0 <= j < ops.len() && ops[j].0 == k,
    decreases ops.len(),
{
    if ops.last().0 != k {
        lemma_pending_found(ops.drop_last(), k);
        let j = choose|j: int| 0 <= j < ops.drop_last().len() && ops.drop_last()[j].0 == k;
        assert(ops[j] == ops.drop_last()[j]);
    }
}

proof fn lemma_pending_none(ops: Seq<((Seq<char>, Seq<char>), Option<EntityView>)>, k: (Seq<char>, Seq<char>))
    requires
        pending_of(ops, k) is None,
    ensures
        forall|j: int| 0 <= j < ops.len() ==> ops[j].0 != k,
    decreases ops.len(),
{
    if ops.len() > 0 {
        lemma_pending_none(ops.drop_last(), k);
        assert forall|j: int| 0 <= j < ops.len() implies ops[j].0 != k by {
            if j < ops.len() - 1 {
                assert(ops[j] == ops.drop_last()[j]);
            }
        }
    }
}

/// Both sides write the same entity with different contents.
pub open spec fn conflicts(a: Option<Option<EntityView>>, b: Option<Option<EntityView>>) -> bool {
    &&& a matches Some(Some(x))
    &&& b matches Some(Some(y))
    &&& a->0->0 != b->0->0
}

/// What is pending after the changes `b` are laid over `a`.
pub open spec fn laid_over(a: Option<Option<EntityView>>, b: Option<Option<EntityView>>) -> Option<Option<EntityView>> {
    if b is Some {
        b
    } else {
        a
    }
}

impl EntityCache {
    /// A key that both caches write with different contents, if any.
    pub fn first_conflict(&self, other: &EntityCache) -> (r: Option<EntityKey>)
        requires
            self.wf(),
            other.wf(),
        ensures
            match r {
                Some(key) => conflicts(self.pending(key@), other.pending(key@)),
                None => forall|k: (Seq<char>, Seq<char>)| !conflicts(#[trigger] self.pending(k), other.pending(k)),
            },
    {
        let mut i: usize = 0;
        while i < other.updates.len()
            invariant
                0 <= i <= other.updates@.len(),
                self.wf(),
                other.wf(),
                forall|j: int| 0 <= j < i ==> !conflicts(self.pending(#[trigger] other.ops()[j].0), Some(other.ops()[j].1)),
            decreases other.updates@.len() - i,
        {
            let op = &other.updates[i];
            if let Some(theirs) = &op.entity {
                if let Some(Some(ours)) = self.get(&op.key) {
                    if !ours.same(theirs) {
                        proof {
                            lemma_pending_at(other.ops(), i as int);
                        }
                        return Some(op.key.duplicate());
                    }
                }
            }
            i = i + 1;
        }
        proof {
            assert forall|k: (Seq<char>, Seq<char>)| !conflicts(#[trigger] self.pending(k), other.pending(k)) by {
                if other.pending(k) is Some {
                    lemma_pending_found(other.ops(), k);
                    let j = choose|j: int| 0 <= j < other.ops().len() && other.ops()[j].0 == k;
                    lemma_pending_at(other.ops(), j);
                }
            }
        }
        None
    }

    /// Lays the changes of `other` over these. Fails, changing nothing, with
    /// a key that both write with different contents.
    pub fn extend(&mut self, other: &EntityCache) -> (r: Result<(), EntityKey>)
        requires
            old(self).wf(),
            other.wf(),
        ensures
            final(self).wf(),
            match r {
                Ok(()) => {
                    &&& forall|k: (Seq<char>, Seq<char>)| !conflicts(#[trigger] old(self).pending(k), other.pending(k))
                    &&& forall|k: (Seq<char>, Seq<char>)| #[trigger] final(self).pending(k) == laid_over(old(self).pending(k), other.pending(k))
                },
                Err(key) => {
                    &&& conflicts(old(self).pending(key@), other.pending(key@))
                    &&& *final(self) == *old(self)
                },
            },
    {
        if let Some(key) = self.first_conflict(other) {
            return Err(key);
        }
        let ghost start = *self;
        let mut i: usize = 0;
        while i < other.updates.len()
            invariant
                0 <= i <= other.updates@.len(),
                self.wf(),
                other.wf(),
                forall|k: (Seq<char>, Seq<char>)| #[trigger] self.pending(k) == laid_over(
                    start.pending(k),
                    pending_of(other.ops().subrange(0, i as int), k),
                ),
            decreases other.updates@.len() - i,
        {
            let op = &other.updates[i];
            let ghost prev = *self;
            self.apply(op.key.duplicate(), duplicate_op(&op.entity));
            proof {
                let pre = other.ops().subrange(0, i as int);
                let post = other.ops().subrange(0, i + 1);
                assert(post.drop_last() =~= pre);
                assert(post.last() == other.ops()[i as int]);
                assert forall|k: (Seq<char>, Seq<char>)| #[trigger] self.pending(k) == laid_over(start.pending(k), pending_of(post, k)) by {
                    if k != op.key@ {
                        assert(self.pending(k) == prev.pending(k));
                    }
                }
            }
            i = i + 1;
        }
        assert(other.ops().subrange(0, other.ops().len() as int) =~= other.ops());
        Ok(())
    }
}

/// A data source created from a template while handling a block.
#[derive(Debug)]
pub struct DataSourceTemplateInfo {
    pub template: String,
    pub params: Vec<String>,
    pub context: Option<Entity>,
}

/// Why two block states could not be merged.
#[derive(Debug)]
pub struct MergeError {
    pub key: EntityKey,
}

/// What a handler accumulates: entity changes and created data sources.
#[derive(Debug)]
pub struct BlockState {
    pub entity_cache: EntityCache,
    pub created_data_sources: Vec<DataSourceTemplateInfo>,
}

impl BlockState {
    pub open spec fn wf(&self) -> bool {
        self.entity_cache.wf()
    }

    /// A state with nothing in it.
    pub fn new() -> (r: BlockState)
        ensures
            r.wf(),
            forall|k: (Seq<char>, Seq<char>)| #[trigger] r.entity_cache.pending(k) is None,
            r.created_data_sources@.len() == 0,
    {
        BlockState { entity_cache: EntityCache::new(), created_data_sources: Vec::new() }
    }

    /// Merges `other` into this state: its entity changes are laid over these
    /// and its data sources follow these. Fails, changing nothing, where both
    /// write one entity with different contents.
    pub fn extend(&mut self, other: BlockState) -> (r: Result<(), MergeError>)
        requires
            old(self).wf(),
            other.wf(),
        ensures
            final(self).wf(),
            match r {
                Ok(()) => {
                    &&& forall|k: (Seq<char>, Seq<char>)| !conflicts(#[trigger] old(self).entity_cache.pending(k), other.entity_cache.pending(k))
                    &&& forall|k: (Seq<char>, Seq<char>)| #[trigger] final(self).entity_cache.pending(k) == laid_over(
                        old(self).entity_cache.pending(k),
                        other.entity_cache.pending(k),
                    )
                    &&& final(self).created_data_sources@ == old(self).created_data_sources@ + other.created_data_sources@
                },
                Err(e) => {
                    &&& conflicts(old(self).entity_cache.pending(e.key@), other.entity_cache.pending(e.key@))
                    &&& *final(self) == *old(self)
                },
            },
    {
        match self.entity_cache.extend(&other.entity_cache) {
            Ok(()) => {
                let mut sources = other.created_data_sources;
                self.created_data_sources.append(&mut sources);
                Ok(())
            },
            Err(key) => Err(MergeError { key }),
        }
    }
}

} // verus!

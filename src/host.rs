use vstd::prelude::*;

use crate::asc::AscError;
use crate::entity::Entity;
use crate::state::{
    BlockState, DataSourceTemplateInfo, EntityCache, EntityKey, EntityView, conflicts,
    laid_over, op_view,
};
use crate::ethereum::{block_obj, EthereumBlockData};
use crate::version::ApiVersion;

verus! {

/// An error raised by host logic on behalf of the guest; it unwinds the
/// guest's frames.
#[derive(Debug)]
pub enum Trap {
    /// The guest called `abort`; the text says where and why.
    Abort(String),
    /// A guest object could not be read or written.
    Memory(AscError),
    /// A division by zero.
    DivisionByZero,
    /// `dataSource.create` named a template that the subgraph does not have.
    UnknownTemplate(String),
    /// Two block states write one entity with different contents.
    MergeConflict(EntityKey),
    /// The text is not an address in hexadecimal; the text is kept.
    InvalidAddress(String),
    /// Bytes that are not JSON text, or JSON nested deeper than the runtime reads.
    InvalidJson,
    /// A service outside the runtime, such as the chain adapter, failed.
    Collaborator(String),
    /// The guest's own code trapped; the engine's description is kept.
    Guest(String),
    /// A JSON number in decimal text could not be read; the text is kept.
    NotANumber(String),
}

/// A record of an entity change for the proof of indexing.
#[derive(Debug)]
pub enum PoiEvent {
    SetEntity(EntityKey, Entity),
    RemoveEntity(EntityKey),
}

/// What a `PoiEvent` records.
pub enum PoiEventView {
    SetEntity((Seq<char>, Seq<char>), EntityView),
    RemoveEntity((Seq<char>, Seq<char>)),
}

impl View for PoiEvent {
    type V = PoiEventView;

    open spec fn view(&self) -> PoiEventView {
        match self {
            PoiEvent::SetEntity(k, e) => PoiEventView::SetEntity(k@, e@),
            PoiEvent::RemoveEntity(k) => PoiEventView::RemoveEntity(k@),
        }
    }
}

/// `name` is among `names`.
pub open spec fn listed(names: Seq<String>, name: Seq<char>) -> bool {
    exists|i: int| 0 <= i < names.len() && names[i]@ == name
}

/// Whether `name` is among `names`.
pub fn contains_string(names: &Vec<String>, name: &String) -> (r: bool)
    ensures
        r == listed(names@, name@),
{
    let mut i: usize = 0;
    while i < names.len()
        invariant
            0 <= i <= names@.len(),
            forall|j: int| 0 <= j < i ==> names@[j]@ != name@,
        decreases names@.len() - i,
    {
        if names[i] == *name {
            return true;
        }
        i = i + 1;
    }
    false
}

/// Configuration of the data source that a mapping runs for.
#[derive(Debug)]
pub struct HostExports {
    pub api_version: ApiVersion,
    /// Names of the templates that `dataSource.create` may instantiate.
    pub templates: Vec<String>,
    pub data_source_network: String,
    pub data_source_address: Vec<u8>,
    /// The context that the data source was created with; empty if none.
    pub data_source_context: Entity,
}

/// A copy of a list of strings.
pub fn copy_strings(v: &Vec<String>) -> (r: Vec<String>)
    ensures
        r@.len() == v@.len(),
        forall|i: int| 0 <= i < v@.len() ==> #[trigger] r@[i]@ == v@[i]@,
{
    let mut out: Vec<String> = Vec::new();
    let mut i: usize = 0;
    while i < v.len()
        invariant
            0 <= i <= v@.len(),
            out@.len() == i,
            forall|j: int| 0 <= j < i ==> #[trigger] out@[j]@ == v@[j]@,
        decreases v@.len() - i,
    {
        out.push(v[i].clone());
        i = i + 1;
    }
    out
}

impl HostExports {
    /// A copy of the configuration.
    pub fn duplicate(&self) -> (r: HostExports)
        ensures
            r.api_version == self.api_version,
            r.templates@.len() == self.templates@.len(),
            forall|i: int| 0 <= i < self.templates@.len() ==> #[trigger] r.templates@[i]@ == self.templates@[i]@,
            r.data_source_network@ == self.data_source_network@,
            r.data_source_address@ == self.data_source_address@,
            r.data_source_context@ == self.data_source_context@,
    {
        HostExports {
            api_version: self.api_version,
            templates: copy_strings(&self.templates),
            data_source_network: self.data_source_network.clone(),
            data_source_address: crate::entity::copy_bytes(&self.data_source_address),
            data_source_context: self.data_source_context.duplicate(),
        }
    }

    /// Whether `name` is one of the templates.
    pub fn has_template(&self, name: &String) -> (r: bool)
        ensures
            r == listed(self.templates@, name@),
    {
        contains_string(&self.templates, name)
    }
}

/// Everything one request works with: the configuration, the block state
/// being built, and the proof-of-indexing records.
#[derive(Debug)]
pub struct MappingContext {
    pub host_exports: HostExports,
    /// The block being handled.
    pub block: EthereumBlockData,
    pub state: BlockState,
    pub proof_of_indexing: Vec<PoiEvent>,
}

/// The pending change for `k` after laying each state of `outs` over `base`, in order.
pub open spec fn merged_pending(
    base: Option<Option<EntityView>>,
    outs: Seq<BlockState>,
    k: (Seq<char>, Seq<char>),
) -> Option<Option<EntityView>>
    decreases outs.len(),
{
    if outs.len() == 0 {
        base
    } else {
        laid_over(merged_pending(base, outs.drop_last(), k), outs.last().entity_cache.pending(k))
    }
}

/// The data sources that the states of `outs` created, in order.
pub open spec fn sources_of(outs: Seq<BlockState>) -> Seq<DataSourceTemplateInfo>
    decreases outs.len(),
{
    if outs.len() == 0 {
        Seq::empty()
    } else {
        sources_of(outs.drop_last()) + outs.last().created_data_sources@
    }
}

/// Laying the states of `outs` over `cache` one by one meets no conflict.
pub open spec fn merges_in_order(cache: EntityCache, outs: Seq<BlockState>) -> bool {
    forall|i: int, k: (Seq<char>, Seq<char>)|
        0 <= i < outs.len() ==> !conflicts(
            #[trigger] merged_pending(cache.pending(k), outs.subrange(0, i), k),
            outs[i].entity_cache.pending(k),
        )
}

/// No two of the sources, `cache` and the states of `outs`, write one
/// entity with different contents.
pub open spec fn merges_cleanly(cache: EntityCache, outs: Seq<BlockState>) -> bool {
    &&& forall|i: int, k: (Seq<char>, Seq<char>)|
        0 <= i < outs.len() ==> !conflicts(cache.pending(k), #[trigger] outs[i].entity_cache.pending(k))
    &&& forall|i: int, j: int, k: (Seq<char>, Seq<char>)|
        0 <= j < i < outs.len() ==> !conflicts(
            #[trigger] outs[j].entity_cache.pending(k),
            #[trigger] outs[i].entity_cache.pending(k),
        )
}

proof fn lemma_merged_source(base: Option<Option<EntityView>>, outs: Seq<BlockState>, k: (Seq<char>, Seq<char>), i: int)
    requires
        0 <= i <= outs.len(),
    ensures
        merged_pending(base, outs.subrange(0, i), k) == base || exists|j: int|
            0 <= j < i && merged_pending(base, outs.subrange(0, i), k) == #[trigger] outs[j].entity_cache.pending(k),
    decreases i,
{
    if i > 0 {
        let pre = outs.subrange(0, i);
        assert(pre.drop_last() =~= outs.subrange(0, i - 1));
        assert(pre.last() == outs[i - 1]);
        lemma_merged_source(base, outs, k, i - 1);
    }
}

proof fn lemma_clean_in_order(cache: EntityCache, outs: Seq<BlockState>)
    requires
        merges_cleanly(cache, outs),
    ensures
        merges_in_order(cache, outs),
{
    assert forall|i: int, k: (Seq<char>, Seq<char>)| 0 <= i < outs.len() implies !conflicts(
        #[trigger] merged_pending(cache.pending(k), outs.subrange(0, i), k),
        outs[i].entity_cache.pending(k),
    ) by {
        lemma_merged_source(cache.pending(k), outs, k, i);
        if merged_pending(cache.pending(k), outs.subrange(0, i), k) != cache.pending(k) {
            let j = choose|j: int|
                0 <= j < i && merged_pending(cache.pending(k), outs.subrange(0, i), k)
                    == #[trigger] outs[j].entity_cache.pending(k);
            assert(!conflicts(outs[j].entity_cache.pending(k), outs[i].entity_cache.pending(k)));
        } else {
            assert(!conflicts(cache.pending(k), outs[i].entity_cache.pending(k)));
        }
    }
}

impl MappingContext {
    pub open spec fn wf(&self) -> bool {
        self.state.wf()
    }

    /// The same configuration and block with an empty block state, for
    /// handlers run on behalf of this one. Each context keeps its own
    /// proof-of-indexing records, so the derived one starts with none;
    /// `merge_derived` appends its records and merges its state back in order.
    pub fn derive_with_empty_block_state(&self) -> (r: MappingContext)
        ensures
            r.wf(),
            r.host_exports.api_version == self.host_exports.api_version,
            r.host_exports.templates@.len() == self.host_exports.templates@.len(),
            forall|i: int| 0 <= i < self.host_exports.templates@.len() ==> #[trigger] r.host_exports.templates@[i]@ == self.host_exports.templates@[i]@,
            r.host_exports.data_source_network@ == self.host_exports.data_source_network@,
            r.host_exports.data_source_address@ == self.host_exports.data_source_address@,
            r.host_exports.data_source_context@ == self.host_exports.data_source_context@,
            block_obj(r.block) == block_obj(self.block),
            forall|k: (Seq<char>, Seq<char>)| #[trigger] r.state.entity_cache.pending(k) is None,
            r.state.created_data_sources@.len() == 0,
            r.proof_of_indexing@.len() == 0,
    {
        MappingContext {
            host_exports: self.host_exports.duplicate(),
            block: self.block.duplicate(),
            state: BlockState::new(),
            proof_of_indexing: Vec::new(),
        }
    }

    /// `store.set`: records a write of `data` for the entity and a
    /// proof-of-indexing record.
    pub fn store_set(&mut self, entity_type: String, id: String, data: Entity)
        requires
            old(self).wf(),
        ensures
            final(self).wf(),
            final(self).state.entity_cache.pending((entity_type@, id@)) == Some(Some(data@)),
            forall|k: (Seq<char>, Seq<char>)| k != (entity_type@, id@) ==> #[trigger] final(self).state.entity_cache.pending(k)
                == old(self).state.entity_cache.pending(k),
            final(self).state.created_data_sources@ == old(self).state.created_data_sources@,
            final(self).host_exports == old(self).host_exports,
            final(self).proof_of_indexing@.map_values(|e: PoiEvent| e@) == old(self).proof_of_indexing@.map_values(|e: PoiEvent| e@).push(
                PoiEventView::SetEntity((entity_type@, id@), data@),
            ),
    {
        let key = EntityKey { entity_type, entity_id: id };
        let ghost kv = key@;
        let ghost before = self.proof_of_indexing@.map_values(|e: PoiEvent| e@);
        self.proof_of_indexing.push(PoiEvent::SetEntity(key.duplicate(), data.duplicate()));
        self.state.entity_cache.apply(key, Some(data));
        assert(self.proof_of_indexing@.map_values(|e: PoiEvent| e@) =~= before.push(PoiEventView::SetEntity(kv, data@)));
    }

    /// `store.remove`: records a removal of the entity and a
    /// proof-of-indexing record.
    pub fn store_remove(&mut self, entity_type: String, id: String)
        requires
            old(self).wf(),
        ensures
            final(self).wf(),
            final(self).state.entity_cache.pending((entity_type@, id@)) == Some(None::<EntityView>),
            forall|k: (Seq<char>, Seq<char>)| k != (entity_type@, id@) ==> #[trigger] final(self).state.entity_cache.pending(k)
                == old(self).state.entity_cache.pending(k),
            final(self).state.created_data_sources@ == old(self).state.created_data_sources@,
            final(self).host_exports == old(self).host_exports,
            final(self).proof_of_indexing@.map_values(|e: PoiEvent| e@) == old(self).proof_of_indexing@.map_values(|e: PoiEvent| e@).push(
                PoiEventView::RemoveEntity((entity_type@, id@)),
            ),
    {
        let key = EntityKey { entity_type, entity_id: id };
        let ghost kv = key@;
        let ghost before = self.proof_of_indexing@.map_values(|e: PoiEvent| e@);
        self.proof_of_indexing.push(PoiEvent::RemoveEntity(key.duplicate()));
        self.state.entity_cache.apply(key, None);
        assert(self.proof_of_indexing@.map_values(|e: PoiEvent| e@) =~= before.push(PoiEventView::RemoveEntity(kv)));
    }

    /// The change pending in this request for the entity, if any: `Some`
    /// of a write or of a removal. Where it is `None`, the store is asked.
    pub fn pending_entity(&self, entity_type: &String, id: &String) -> (r: Option<Option<Entity>>)
        requires
            self.wf(),
        ensures
            match r {
                Some(op) => self.state.entity_cache.pending((entity_type@, id@)) == Some(op_view(op)),
                None => self.state.entity_cache.pending((entity_type@, id@)) is None,
            },
    {
        let key = EntityKey { entity_type: entity_type.clone(), entity_id: id.clone() };
        self.state.entity_cache.get(&key)
    }

    /// `store.get`: the entity as this request left it; `stored` is what the
    /// store holds, consulted only where nothing is pending.
    pub fn store_get(&self, entity_type: &String, id: &String, stored: Option<Entity>) -> (r: Option<Entity>)
        requires
            self.wf(),
        ensures
            op_view(r) == match self.state.entity_cache.pending((entity_type@, id@)) {
                Some(op) => op,
                None => op_view(stored),
            },
    {
        match self.pending_entity(entity_type, id) {
            Some(op) => op,
            None => stored,
        }
    }

    /// `dataSource.create` and `dataSource.createWithContext`: records a new
    /// data source from the template `name`. Unknown templates trap.
    pub fn data_source_create(&mut self, name: String, params: Vec<String>, context: Option<Entity>) -> (r: Result<(), Trap>)
        requires
            old(self).wf(),
        ensures
            final(self).wf(),
            (r is Ok) == listed(old(self).host_exports.templates@, name@),
            r matches Err(t) ==> t matches Trap::UnknownTemplate(n) && n@ == name@,
            r is Err ==> *final(self) == *old(self),
            r is Ok ==> {
                &&& final(self).state.created_data_sources@.len() == old(self).state.created_data_sources@.len() + 1
                &&& final(self).state.created_data_sources@.drop_last() == old(self).state.created_data_sources@
                &&& final(self).state.created_data_sources@.last().template@ == name@
                &&& final(self).state.created_data_sources@.last().params@ == params@
                &&& op_view(final(self).state.created_data_sources@.last().context) == op_view(context)
                &&& final(self).state.entity_cache == old(self).state.entity_cache
                &&& final(self).proof_of_indexing == old(self).proof_of_indexing
                &&& final(self).host_exports == old(self).host_exports
            },
    {
        if !self.host_exports.has_template(&name) {
            return Err(Trap::UnknownTemplate(name));
        }
        self.state.created_data_sources.push(DataSourceTemplateInfo { template: name, params, context });
        assert(self.state.created_data_sources@.drop_last() =~= old(self).state.created_data_sources@);
        Ok(())
    }

    /// The tail of `ipfs.map`: merges the states that the callback produced,
    /// in the order it produced them, into this one.
    pub fn merge_states(&mut self, outputs: Vec<BlockState>) -> (r: Result<(), Trap>)
        requires
            old(self).wf(),
            forall|i: int| 0 <= i < outputs@.len() ==> (#[trigger] outputs@[i]).wf(),
        ensures
            final(self).wf(),
            final(self).proof_of_indexing == old(self).proof_of_indexing,
            final(self).host_exports == old(self).host_exports,
            (r is Ok) == merges_cleanly(old(self).state.entity_cache, outputs@),
            r matches Err(t) ==> t is MergeConflict,
            r is Ok ==> {
                &&& forall|k: (Seq<char>, Seq<char>)| #[trigger] final(self).state.entity_cache.pending(k)
                    == merged_pending(old(self).state.entity_cache.pending(k), outputs@, k)
                &&& final(self).state.created_data_sources@ == old(self).state.created_data_sources@ + sources_of(outputs@)
            },
    {
        let ghost outs = outputs@;
        let ghost base = self.state.entity_cache;
        let ghost base_sources = self.state.created_data_sources@;
        assert(outs.len() == outputs.len());
        let mut i: usize = 0;
        while i < outputs.len()
            invariant
                0 <= i <= outs.len(),
                outs == outputs@,
                *self == *old(self),
                base == self.state.entity_cache,
                base.wf(),
                forall|j: int| 0 <= j < outs.len() ==> (#[trigger] outs[j]).wf(),
                forall|a: int, k: (Seq<char>, Seq<char>)|
                    0 <= a < i ==> !conflicts(base.pending(k), #[trigger] outs[a].entity_cache.pending(k)),
                forall|a: int, b: int, k: (Seq<char>, Seq<char>)|
                    0 <= b < a < i ==> !conflicts(
                        #[trigger] outs[b].entity_cache.pending(k),
                        #[trigger] outs[a].entity_cache.pending(k),
                    ),
            decreases outs.len() - i,
        {
            assert(outputs@[i as int].wf());
            if let Some(key) = self.state.entity_cache.first_conflict(&outputs[i].entity_cache) {
                assert(!merges_cleanly(base, outs)) by {
                    assert(conflicts(base.pending(key@), outs[i as int].entity_cache.pending(key@)));
                }
                return Err(Trap::MergeConflict(key));
            }
            let mut j: usize = 0;
            while j < i
                invariant
                    0 <= j <= i < outs.len(),
                    outs == outputs@,
                    *self == *old(self),
                    base == self.state.entity_cache,
                    base.wf(),
                    forall|jj: int| 0 <= jj < outs.len() ==> (#[trigger] outs[jj]).wf(),
                    forall|b: int, k: (Seq<char>, Seq<char>)|
                        0 <= b < j ==> !conflicts(
                            #[trigger] outs[b].entity_cache.pending(k),
                            outs[i as int].entity_cache.pending(k),
                        ),
                decreases i - j,
            {
                assert(outputs@[j as int].wf());
                if let Some(key) = outputs[j].entity_cache.first_conflict(&outputs[i].entity_cache) {
                    assert(!merges_cleanly(base, outs)) by {
                        assert(conflicts(
                            outs[j as int].entity_cache.pending(key@),
                            outs[i as int].entity_cache.pending(key@),
                        ));
                    }
                    return Err(Trap::MergeConflict(key));
                }
                j = j + 1;
            }
            i = i + 1;
        }
        assert(merges_cleanly(base, outs));
        proof {
            lemma_clean_in_order(base, outs);
        }
        let mut rest = outputs;
        let mut i: usize = 0;
        while rest.len() > 0
            invariant
                self.wf(),
                0 <= i <= outs.len(),
                outs.len() <= usize::MAX,
                outs == outputs@,
                base == old(self).state.entity_cache,
                merges_cleanly(base, outs),
                merges_in_order(base, outs),
                self.proof_of_indexing == old(self).proof_of_indexing,
                self.host_exports == old(self).host_exports,
                rest@ == outs.subrange(i as int, outs.len() as int),
                forall|j: int| 0 <= j < outs.len() ==> (#[trigger] outs[j]).wf(),
                forall|j: int, k: (Seq<char>, Seq<char>)|
                    0 <= j < i ==> !conflicts(
                        #[trigger] merged_pending(base.pending(k), outs.subrange(0, j), k),
                        outs[j].entity_cache.pending(k),
                    ),
                forall|k: (Seq<char>, Seq<char>)| #[trigger] self.state.entity_cache.pending(k)
                    == merged_pending(base.pending(k), outs.subrange(0, i as int), k),
                self.state.created_data_sources@ == base_sources + sources_of(outs.subrange(0, i as int)),
            decreases rest@.len(),
        {
            let next = rest.remove(0);
            assert(next == outs[i as int]);
            let ghost nx = next;
            let ghost prev = self.state;
            let ghost pre = outs.subrange(0, i as int);
            let ghost post = outs.subrange(0, i + 1);
            proof {
                assert(post.drop_last() =~= pre);
                assert(post.last() == outs[i as int]);
            }
            match self.state.extend(next) {
                Ok(()) => {
                    proof {
                        assert forall|k: (Seq<char>, Seq<char>)| !conflicts(
                            #[trigger] merged_pending(base.pending(k), outs.subrange(0, i as int), k),
                            outs[i as int].entity_cache.pending(k),
                        ) by {
                            assert(!conflicts(prev.entity_cache.pending(k), nx.entity_cache.pending(k)));
                        }
                        assert(self.state.created_data_sources@ =~= base_sources + sources_of(post));
                    }
                },
                Err(e) => {
                    proof {
                        let k = e.key@;
                        assert(conflicts(prev.entity_cache.pending(k), nx.entity_cache.pending(k)));
                        assert(prev.entity_cache.pending(k) == merged_pending(base.pending(k), outs.subrange(0, i as int), k));
                        assert(conflicts(merged_pending(base.pending(k), outs.subrange(0, i as int), k), outs[i as int].entity_cache.pending(k)));
                        assert(!conflicts(merged_pending(base.pending(k), outs.subrange(0, i as int), k), outs[i as int].entity_cache.pending(k)));
                    }
                    return Err(Trap::MergeConflict(e.key));
                },
            }
            assert(rest@ =~= outs.subrange(i + 1, outs.len() as int));
            i = i + 1;
        }
        proof {
            assert(outs.subrange(0, outs.len() as int) =~= outs);
        }
        Ok(())
    }
}

/// The block states of `outs`.
pub open spec fn states_of(outs: Seq<MappingContext>) -> Seq<BlockState> {
    outs.map_values(|c: MappingContext| c.state)
}

/// The proof-of-indexing records of `outs`, in order.
pub open spec fn records_of(outs: Seq<MappingContext>) -> Seq<PoiEvent>
    decreases outs.len(),
{
    if outs.len() == 0 {
        Seq::empty()
    } else {
        records_of(outs.drop_last()) + outs.last().proof_of_indexing@
    }
}

impl MappingContext {
    /// `ipfs.map`'s merge of the contexts that its callbacks ran in: their
    /// proof-of-indexing records follow these, and their block states are
    /// merged as `merge_states` does.
    pub fn merge_derived(&mut self, outputs: Vec<MappingContext>) -> (r: Result<(), Trap>)
        requires
            old(self).wf(),
            forall|i: int| 0 <= i < outputs@.len() ==> (#[trigger] outputs@[i]).wf(),
        ensures
            final(self).wf(),
            final(self).proof_of_indexing@ == old(self).proof_of_indexing@ + records_of(outputs@),
            (r is Ok) == merges_cleanly(old(self).state.entity_cache, states_of(outputs@)),
            r matches Err(t) ==> t is MergeConflict,
            r is Ok ==> {
                &&& forall|k: (Seq<char>, Seq<char>)| #[trigger] final(self).state.entity_cache.pending(k)
                    == merged_pending(old(self).state.entity_cache.pending(k), states_of(outputs@), k)
                &&& final(self).state.created_data_sources@ == old(self).state.created_data_sources@
                    + sources_of(states_of(outputs@))
            },
    {
        let ghost outs = outputs@;
        let ghost base_records = self.proof_of_indexing@;
        let mut states: Vec<BlockState> = Vec::new();
        let mut rest = outputs;
        let mut i: usize = 0;
        assert(outs.len() == rest.len());
        while rest.len() > 0
            invariant
                self.wf(),
                self.state == old(self).state,
                0 <= i <= outs.len(),
                outs.len() <= usize::MAX,
                rest@ == outs.subrange(i as int, outs.len() as int),
                states@ == states_of(outs.subrange(0, i as int)),
                forall|j: int| 0 <= j < outs.len() ==> (#[trigger] outs[j]).wf(),
                self.proof_of_indexing@ == base_records + records_of(outs.subrange(0, i as int)),
            decreases rest@.len(),
        {
            let mut next = rest.remove(0);
            assert(next == outs[i as int]);
            let ghost post = outs.subrange(0, i + 1);
            proof {
                assert(post.drop_last() =~= outs.subrange(0, i as int));
                assert(post.last() == outs[i as int]);
            }
            self.proof_of_indexing.append(&mut next.proof_of_indexing);
            states.push(next.state);
            proof {
                assert(self.proof_of_indexing@ =~= base_records + records_of(post));
                assert(states@ =~= states_of(post));
            }
            assert(rest@ =~= outs.subrange(i + 1, outs.len() as int));
            i = i + 1;
        }
        proof {
            assert(outs.subrange(0, outs.len() as int) =~= outs);
        }
        self.merge_states(states)
    }
}

/// What one request writes it can read back: after `store.set` of `data`,
/// `store.get` of the same entity returns `data`, whatever the store holds.
pub proof fn store_get_after_set(
    after_set: MappingContext,
    entity_type: Seq<char>,
    id: Seq<char>,
    data: EntityView,
    stored: Option<EntityView>,
    got: Option<EntityView>,
)
    requires
        after_set.state.entity_cache.pending((entity_type, id)) == Some(Some(data)),
        got == match after_set.state.entity_cache.pending((entity_type, id)) {
            Some(op) => op,
            None => stored,
        },
    ensures
        got == Some(data),
{
}

/// After `store.remove`, `store.get` of the same entity in the same request
/// returns nothing, whatever the store holds.
pub proof fn store_get_after_remove(
    after_remove: MappingContext,
    entity_type: Seq<char>,
    id: Seq<char>,
    stored: Option<EntityView>,
    got: Option<EntityView>,
)
    requires
        after_remove.state.entity_cache.pending((entity_type, id)) == Some(None::<EntityView>),
        got == match after_remove.state.entity_cache.pending((entity_type, id)) {
            Some(op) => op,
            None => stored,
        },
    ensures
        got is None,
{
}

} // verus!

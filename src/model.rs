//! The ledger as a mathematical value: what it holds, how each operation
//! changes it, and on which inputs each operation fails.
use vstd::prelude::*;
use crate::error::Error;
use crate::fields::FieldsView;
use crate::query::{of_type, select};
use crate::types::{Address, EventInput, EventView, Hash32, Product, ProductInput, ProductView, TrackingEvent};
use crate::validation::{fields_error, input_error, metadata_error};

verus! {

/// What the ledger holds, abstractly.
pub struct LedgerView {
    /// Product records by id.
    pub products: Map<Seq<char>, ProductView>,
    /// For each product id, the ids of its events in the order of appending.
    pub event_ids: Map<Seq<char>, Seq<u64>>,
    /// Every event ever appended; the event with id `k + 1` is at `k`.
    pub events: Seq<EventView>,
    /// Explicit allow-list edges, as (product id, actor) pairs.
    pub auth: Set<(Seq<char>, Seq<char>)>,
}

impl LedgerView {
    /// A ledger with nothing in it.
    pub open spec fn empty() -> LedgerView {
        LedgerView {
            products: Map::empty(),
            event_ids: Map::empty(),
            events: Seq::empty(),
            auth: Set::empty(),
        }
    }

    /// A record with id `id` is stored.
    pub open spec fn has_product(self, id: Seq<char>) -> bool {
        self.products.contains_key(id)
    }

    /// The owner of `pid`, or an actor on its allow-list.
    pub open spec fn may_append(self, pid: Seq<char>, actor: Seq<char>) -> bool {
        self.products[pid].owner == actor || self.auth.contains((pid, actor))
    }

    /// Why registering `id` with these fields fails, if it does: a taken id
    /// first, then the field constraints in their order.
    pub open spec fn register_error(
        self,
        id: Seq<char>,
        name: Seq<char>,
        description: Seq<char>,
        origin: Seq<char>,
        category: Seq<char>,
        tags: Seq<String>,
        n_certifications: nat,
        n_media_hashes: nat,
        custom: FieldsView,
    ) -> Option<Error> {
        if self.has_product(id) {
            Some(Error::ProductAlreadyExists)
        } else {
            fields_error(
                id,
                name,
                description,
                origin,
                category,
                tags,
                n_certifications,
                n_media_hashes,
                custom,
            )
        }
    }

    /// Why `caller` may not act as owner of `pid`, if it may not.
    pub open spec fn owner_error(self, pid: Seq<char>, caller: Seq<char>) -> Option<Error> {
        if !self.has_product(pid) {
            Some(Error::ProductNotFound)
        } else if self.products[pid].owner != caller {
            Some(Error::Unauthorized)
        } else {
            None
        }
    }

    /// Why `actor` may not append an event with `metadata` to `pid`, if it may not.
    pub open spec fn append_error(self, actor: Seq<char>, pid: Seq<char>, metadata: FieldsView) -> Option<
        Error,
    > {
        if !self.has_product(pid) {
            Some(Error::ProductNotFound)
        } else if !self.products[pid].active {
            Some(Error::InvalidInput)
        } else if !self.may_append(pid, actor) {
            Some(Error::Unauthorized)
        } else {
            metadata_error(metadata)
        }
    }

    /// The ledger with product `p` added, with no events yet.
    pub open spec fn with_product(self, p: ProductView) -> LedgerView {
        LedgerView {
            products: self.products.insert(p.id, p),
            event_ids: self.event_ids.insert(p.id, Seq::empty()),
            ..self
        }
    }

    /// The ledger with the record of `pid` replaced by `p`.
    pub open spec fn with_record(self, pid: Seq<char>, p: ProductView) -> LedgerView {
        LedgerView { products: self.products.insert(pid, p), ..self }
    }

    /// The ledger with the active flag of `pid` set to `active`.
    pub open spec fn with_active(self, pid: Seq<char>, active: bool) -> LedgerView {
        self.with_record(pid, ProductView { active, ..self.products[pid] })
    }

    /// The ledger after `pid` passes to `new_owner`: the former owner's edge,
    /// if any, is revoked; every other edge stays.
    pub open spec fn with_owner(self, pid: Seq<char>, new_owner: Seq<char>) -> LedgerView {
        LedgerView {
            products: self.products.insert(pid, ProductView { owner: new_owner, ..self.products[pid] }),
            auth: self.auth.remove((pid, self.products[pid].owner)),
            ..self
        }
    }

    /// The ledger with `actor` put on, or taken off, the allow-list of `pid`.
    pub open spec fn with_edge(self, pid: Seq<char>, actor: Seq<char>, allow: bool) -> LedgerView {
        LedgerView {
            auth: if allow {
                self.auth.insert((pid, actor))
            } else {
                self.auth.remove((pid, actor))
            },
            ..self
        }
    }

    /// The ledger with event `e` appended to the log and to the list of `e.product_id`.
    pub open spec fn with_event(self, e: EventView) -> LedgerView {
        LedgerView {
            events: self.events.push(e),
            event_ids: self.event_ids.insert(e.product_id, self.event_ids[e.product_id].push(e.event_id)),
            ..self
        }
    }

    /// The ids of the events of `pid` whose type is `t`.
    pub open spec fn ids_of_type(self, pid: Seq<char>, t: Seq<char>) -> Seq<u64> {
        select(self.event_ids[pid], self.events, of_type(t))
    }
}

/// The record that registration creates.
pub open spec fn new_product_view(
    owner: Seq<char>,
    id: Seq<char>,
    name: Seq<char>,
    description: Seq<char>,
    origin: Seq<char>,
    category: Seq<char>,
    tags: Seq<String>,
    certifications: Seq<Hash32>,
    media_hashes: Seq<Hash32>,
    custom: FieldsView,
    now: u64,
) -> ProductView {
    ProductView {
        id,
        name,
        description,
        origin,
        owner,
        created_at: now,
        active: true,
        category,
        tags,
        certifications,
        media_hashes,
        custom,
    }
}

/// The event that appending creates.
pub open spec fn new_event_view(
    event_id: u64,
    actor: Seq<char>,
    product_id: Seq<char>,
    event_type: Seq<char>,
    location: Seq<char>,
    data_hash: Hash32,
    note: Seq<char>,
    metadata: FieldsView,
    now: u64,
) -> EventView {
    EventView {
        event_id,
        product_id,
        actor,
        timestamp: now,
        event_type,
        location,
        data_hash,
        note,
        metadata,
    }
}

/// How an actor stands towards a product. The owner is never an edge of the
/// allow-list: its standing comes from the record and cannot be revoked.
#[derive(Clone, Copy, Debug, PartialEq, Eq, Structural)]
pub enum Authorization {
    Owner,
    AllowListed,
    Denied,
}

/// The standing of `actor` towards product `pid` of `l`.
pub open spec fn authorization_of(l: LedgerView, pid: Seq<char>, actor: Seq<char>) -> Authorization {
    if l.products[pid].owner == actor {
        Authorization::Owner
    } else if l.auth.contains((pid, actor)) {
        Authorization::AllowListed
    } else {
        Authorization::Denied
    }
}

/// The most inputs that one batch may hold.
pub const MAX_BATCH: usize = 20;

/// The record that registering `inp` for `owner` at `now` creates.
pub open spec fn input_product_view(owner: Seq<char>, inp: ProductInput, now: u64) -> ProductView {
    new_product_view(
        owner,
        inp.id@,
        inp.name@,
        inp.description@,
        inp.origin_location@,
        inp.category@,
        inp.tags@,
        inp.certifications@,
        inp.media_hashes@,
        inp.custom@,
        now,
    )
}

impl LedgerView {
    /// Why input `i` of a registration batch is refused, if it is: its id is
    /// taken, a field breaks a constraint, or an earlier input has its id.
    pub open spec fn batch_item_error(self, inputs: Seq<ProductInput>, i: int) -> Option<Error> {
        if self.has_product(inputs[i].id@) {
            Some(Error::ProductAlreadyExists)
        } else if input_error(inputs[i]) is Some {
            input_error(inputs[i])
        } else if exists|j: int| 0 <= j < i && #[trigger] inputs[j].id@ == inputs[i].id@ {
            Some(Error::DuplicateInBatch)
        } else {
            None
        }
    }

    /// The error of the first refused input among the first `n`.
    pub open spec fn batch_prefix_error(self, inputs: Seq<ProductInput>, n: int) -> Option<Error>
        decreases n,
    {
        if n <= 0 {
            None
        } else {
            match self.batch_prefix_error(inputs, n - 1) {
                Some(e) => Some(e),
                None => self.batch_item_error(inputs, n - 1),
            }
        }
    }

    /// Why a registration batch is refused, if it is.
    pub open spec fn register_batch_error(self, inputs: Seq<ProductInput>) -> Option<Error> {
        if inputs.len() == 0 {
            Some(Error::BatchEmpty)
        } else if inputs.len() > MAX_BATCH {
            Some(Error::BatchTooLarge)
        } else {
            self.batch_prefix_error(inputs, inputs.len() as int)
        }
    }

    /// The ledger after registering the first `n` inputs, in order.
    pub open spec fn with_inputs(self, owner: Seq<char>, inputs: Seq<ProductInput>, now: u64, n: int) -> LedgerView
        decreases n,
    {
        if n <= 0 {
            self
        } else {
            self.with_inputs(owner, inputs, now, n - 1).with_product(
                input_product_view(owner, inputs[n - 1], now),
            )
        }
    }

    /// Why an event batch is refused, if it is: the error of its first input
    /// that could not be appended on its own.
    pub open spec fn event_batch_error(self, actor: Seq<char>, inputs: Seq<EventInput>) -> Option<Error> {
        if inputs.len() == 0 {
            Some(Error::BatchEmpty)
        } else if inputs.len() > MAX_BATCH {
            Some(Error::BatchTooLarge)
        } else {
            self.events_prefix_error(actor, inputs, inputs.len() as int)
        }
    }

    /// The error of the first input among the first `n` that `actor` may not append.
    pub open spec fn events_prefix_error(self, actor: Seq<char>, inputs: Seq<EventInput>, n: int) -> Option<
        Error,
    >
        decreases n,
    {
        if n <= 0 {
            None
        } else {
            match self.events_prefix_error(actor, inputs, n - 1) {
                Some(e) => Some(e),
                None => self.append_error(actor, inputs[n - 1].product_id@, inputs[n - 1].metadata@),
            }
        }
    }

    /// The ledger after `actor` appends the first `n` inputs, in order.
    pub open spec fn with_event_inputs(self, actor: Seq<char>, inputs: Seq<EventInput>, now: u64, n: int) -> LedgerView
        decreases n,
    {
        if n <= 0 {
            self
        } else {
            let prev = self.with_event_inputs(actor, inputs, now, n - 1);
            let inp = inputs[n - 1];
            prev.with_event(
                new_event_view(
                    (prev.events.len() + 1) as u64,
                    actor,
                    inp.product_id@,
                    inp.event_type@,
                    inp.location@,
                    inp.data_hash,
                    inp.note@,
                    inp.metadata@,
                    now,
                ),
            )
        }
    }
}

/// Once an error is found among the first `n` inputs, it stays the batch's error.
pub proof fn lemma_prefix_error_sticks(l: LedgerView, inputs: Seq<ProductInput>, n: int, m: int)
    requires
        0 <= n <= m,
        l.batch_prefix_error(inputs, n) is Some,
    ensures
        l.batch_prefix_error(inputs, m) == l.batch_prefix_error(inputs, n),
    decreases m - n,
{
    if m > n {
        lemma_prefix_error_sticks(l, inputs, n, m - 1);
    }
}

/// With no error among the first `n` inputs, none of them is refused.
pub(crate) proof fn lemma_prefix_clean(l: LedgerView, inputs: Seq<ProductInput>, n: int, i: int)
    requires
        0 <= i < n,
        l.batch_prefix_error(inputs, n) is None,
    ensures
        l.batch_item_error(inputs, i) is None,
    decreases n,
{
    if i < n - 1 {
        lemma_prefix_clean(l, inputs, n - 1, i);
    }
}

pub(crate) proof fn lemma_events_error_sticks(l: LedgerView, actor: Seq<char>, inputs: Seq<EventInput>, n: int, m: int)
    requires
        0 <= n <= m,
        l.events_prefix_error(actor, inputs, n) is Some,
    ensures
        l.events_prefix_error(actor, inputs, m) == l.events_prefix_error(actor, inputs, n),
    decreases m - n,
{
    if m > n {
        lemma_events_error_sticks(l, actor, inputs, n, m - 1);
    }
}

pub(crate) proof fn lemma_events_clean(l: LedgerView, actor: Seq<char>, inputs: Seq<EventInput>, n: int, i: int)
    requires
        0 <= i < n,
        l.events_prefix_error(actor, inputs, n) is None,
    ensures
        l.append_error(actor, inputs[i].product_id@, inputs[i].metadata@) is None,
    decreases n,
{
    if i < n - 1 {
        lemma_events_clean(l, actor, inputs, n - 1, i);
    }
}

/// Appending events changes neither records nor allow-list, and the log only grows.
pub(crate) proof fn lemma_event_inputs_keep(l: LedgerView, actor: Seq<char>, inputs: Seq<EventInput>, now: u64, n: int)
    requires
        0 <= n,
    ensures
        l.with_event_inputs(actor, inputs, now, n).products == l.products,
        l.with_event_inputs(actor, inputs, now, n).auth == l.auth,
        l.with_event_inputs(actor, inputs, now, n).events.len() == l.events.len() + n,
    decreases n,
{
    if n > 0 {
        lemma_event_inputs_keep(l, actor, inputs, now, n - 1);
    }
}

/// An explicit allow-list edge: `actor` may append events to `product_id`.
#[derive(Clone, Debug, PartialEq, Eq)]
pub struct AuthEdge {
    pub product_id: String,
    pub actor: Address,
}

/// Everything a ledger holds, as plain lists: records in registration order,
/// the event log in id order, and the allow-list edges.
#[derive(Clone, Debug, PartialEq, Eq)]
pub struct Snapshot {
    pub products: Vec<Product>,
    pub events: Vec<TrackingEvent>,
    pub edges: Vec<AuthEdge>,
}

/// Accepts the events of one product.
pub open spec fn of_product(pid: Seq<char>) -> spec_fn(EventView) -> bool {
    |e: EventView| e.product_id == pid
}

/// The ids `1..=n`.
pub open spec fn first_ids(n: nat) -> Seq<u64> {
    Seq::new(n, |i: int| (i + 1) as u64)
}

/// The records, log and edges of `snap` make a consistent ledger: ids are
/// unique, the event at position `k` has id `k + 1`, and every event belongs
/// to a listed record.
pub open spec fn snapshot_consistent(snap: Snapshot) -> bool {
    &&& forall|i: int, j: int|
        0 <= i < j < snap.products@.len() ==> (#[trigger] snap.products@[i]).id@ != (#[trigger] snap.products@[j]).id@
    &&& forall|k: int| 0 <= k < snap.events@.len() ==> (#[trigger] snap.events@[k]).event_id == k + 1
    &&& forall|k: int|
        0 <= k < snap.events@.len() ==> lists_product(snap.products@, (#[trigger] snap.events@[k]).product_id@)
}

/// Some record of `ps` has id `id`.
pub open spec fn lists_product(ps: Seq<Product>, id: Seq<char>) -> bool {
    exists|i: int| 0 <= i < ps.len() && ps[i].id@ == id
}

/// `l` holds exactly what `snap` lists.
pub open spec fn holds_snapshot(l: LedgerView, snap: Snapshot) -> bool {
    &&& forall|id: Seq<char>|
        l.has_product(id) == exists|i: int| 0 <= i < snap.products@.len() && snap.products@[i].id@ == id
    &&& forall|i: int|
        0 <= i < snap.products@.len() ==> l.products[(#[trigger] snap.products@[i]).id@] == snap.products@[i]@
    &&& l.events == snap.events@.map_values(|e: TrackingEvent| e@)
    &&& forall|id: Seq<char>|
        l.has_product(id) ==> #[trigger] l.event_ids[id] == select(
            first_ids(l.events.len()),
            l.events,
            of_product(id),
        )
    &&& l.auth == edge_set(snap.edges@)
}

/// The (product id, actor) pair of an edge.
pub open spec fn edge_pair(e: AuthEdge) -> (Seq<char>, Seq<char>) {
    (e.product_id@, e.actor@)
}

/// The pairs that a list of edges allows.
pub open spec fn edge_set(es: Seq<AuthEdge>) -> Set<(Seq<char>, Seq<char>)> {
    Set::new(|pa: (Seq<char>, Seq<char>)| exists|k: int| 0 <= k < es.len() && edge_pair(es[k]) == pa)
}

} // verus!

//! The ledger: record store, authorization registry, event log with its
//! per-type index, queries, and batch writes.
use vstd::prelude::*;
use crate::error::Error;
use crate::fields::FieldMap;
use crate::query::{
    event_at, events_of, ids_in_log, in_time_range, is_page_of, lemma_select_none,
    lemma_select_stable, lemma_select_within, matches_filter, of_type, select,
};
use crate::types::{
    copy_hashes, copy_strings, Address, EventFilter, EventInput, EventPage, EventView, Hash32, Origin, Product, ProductInput,
    ProductView, TrackingEvent,
};
use crate::validation::{as_result, check_metadata, check_product_fields};
use crate::model::{
    authorization_of, edge_pair, edge_set, first_ids, holds_snapshot, input_product_view, lists_product,
    lemma_event_inputs_keep, lemma_events_clean, lemma_events_error_sticks, lemma_prefix_clean,
    lemma_prefix_error_sticks, new_event_view, new_product_view, of_product, snapshot_consistent, AuthEdge,
    Authorization, LedgerView,
    Snapshot, MAX_BATCH,
};

verus! {

/// Whether an input before position `i` has the id of input `i`.
fn earlier_has_id(inputs: &Vec<ProductInput>, i: usize) -> (r: bool)
    requires
        i < inputs@.len(),
    ensures
        r == exists|j: int| 0 <= j < i && #[trigger] inputs@[j].id@ == inputs@[i as int].id@,
{
    let mut j: usize = 0;
    while j < i
        invariant
            j <= i < inputs@.len(),
            forall|q: int| 0 <= q < j ==> inputs@[q].id@ != inputs@[i as int].id@,
        decreases i - j,
    {
        if inputs[j].id == inputs[i].id {
            return true;
        }
        j += 1;
    }
    false
}

/// A record built from `inp` for `owner`, stamped `now`.
fn make_product(owner: &Address, inp: &ProductInput, now: u64) -> (p: Product)
    ensures
        p@ == input_product_view(owner@, *inp, now),
{
    Product {
        id: inp.id.clone(),
        name: inp.name.clone(),
        description: inp.description.clone(),
        origin: Origin { location: inp.origin_location.clone() },
        owner: owner.duplicate(),
        created_at: now,
        active: true,
        category: inp.category.clone(),
        tags: copy_strings(&inp.tags),
        certifications: copy_hashes(&inp.certifications),
        media_hashes: copy_hashes(&inp.media_hashes),
        custom: inp.custom.duplicate(),
    }
}

/// The ids of the events of one product and one type, in order: the rank of
/// an event within its type is its position here plus one.
struct TypeIndex {
    slot: usize,
    event_type: String,
    ids: Vec<u64>,
}

spec fn has_slot(ps: Seq<Product>, id: Seq<char>) -> bool {
    exists|i: int| 0 <= i < ps.len() && ps[i].id@ == id
}

spec fn slot_of(ps: Seq<Product>, id: Seq<char>) -> int {
    choose|i: int| 0 <= i < ps.len() && ps[i].id@ == id
}

spec fn unique_ids(ps: Seq<Product>) -> bool {
    forall|i: int, j: int| 0 <= i < j < ps.len() ==> (#[trigger] ps[i]).id@ != (#[trigger] ps[j]).id@
}

spec fn product_map(ps: Seq<Product>) -> Map<Seq<char>, ProductView> {
    Map::new(|id: Seq<char>| has_slot(ps, id), |id: Seq<char>| ps[slot_of(ps, id)]@)
}

spec fn ids_map(ps: Seq<Product>, pes: Seq<Vec<u64>>) -> Map<Seq<char>, Seq<u64>> {
    Map::new(|id: Seq<char>| has_slot(ps, id), |id: Seq<char>| pes[slot_of(ps, id)]@)
}

proof fn lemma_slot_of(ps: Seq<Product>, i: int)
    requires
        unique_ids(ps),
        0 <= i < ps.len(),
    ensures
        has_slot(ps, ps[i].id@),
        slot_of(ps, ps[i].id@) == i,
{
    let id = ps[i].id@;
    assert(0 <= i < ps.len() && ps[i].id@ == id);
    let j = slot_of(ps, id);
    if j < i {
        assert(ps[j].id@ != ps[i].id@);
    } else if i < j {
        assert(ps[i].id@ != ps[j].id@);
    }
}

proof fn lemma_push_product(ps: Seq<Product>, pes: Seq<Vec<u64>>, p: Product, v: Vec<u64>)
    requires
        unique_ids(ps),
        !has_slot(ps, p.id@),
        pes.len() == ps.len(),
    ensures
        unique_ids(ps.push(p)),
        product_map(ps.push(p)) == product_map(ps).insert(p.id@, p@),
        ids_map(ps.push(p), pes.push(v)) == ids_map(ps, pes).insert(p.id@, v@),
{
    let ps2 = ps.push(p);
    let pes2 = pes.push(v);
    assert forall|i: int, j: int| 0 <= i < j < ps2.len() implies (#[trigger] ps2[i]).id@
        != (#[trigger] ps2[j]).id@ by {
        if j == ps.len() {
            assert(ps2[i] == ps[i]);
        } else {
            assert(ps[i].id@ != ps[j].id@);
        }
    }
    lemma_slot_of(ps2, ps.len() as int);
    assert forall|id: Seq<char>| has_slot(ps2, id) == (has_slot(ps, id) || id == p.id@) by {
        if has_slot(ps, id) {
            let i = choose|i: int| 0 <= i < ps.len() && ps[i].id@ == id;
            assert(ps2[i] == ps[i]);
        }
        if has_slot(ps2, id) && id != p.id@ {
            let i = choose|i: int| 0 <= i < ps2.len() && ps2[i].id@ == id;
            assert(ps2[i] == ps[i]);
        }
    }
    assert forall|id: Seq<char>| has_slot(ps, id) implies slot_of(ps2, id) == slot_of(ps, id) by {
        let i = slot_of(ps, id);
        lemma_slot_of(ps, i);
        assert(ps2[i] == ps[i]);
        lemma_slot_of(ps2, i);
    }
    assert(product_map(ps2) =~= product_map(ps).insert(p.id@, p@));
    assert(ids_map(ps2, pes2) =~= ids_map(ps, pes).insert(p.id@, v@));
}

proof fn lemma_update_product(ps: Seq<Product>, pes: Seq<Vec<u64>>, i: int, p: Product)
    requires
        unique_ids(ps),
        0 <= i < ps.len(),
        p.id@ == ps[i].id@,
    ensures
        unique_ids(ps.update(i, p)),
        product_map(ps.update(i, p)) == product_map(ps).insert(p.id@, p@),
        ids_map(ps.update(i, p), pes) == ids_map(ps, pes),
{
    let ps2 = ps.update(i, p);
    assert forall|a: int, b: int| 0 <= a < b < ps2.len() implies (#[trigger] ps2[a]).id@
        != (#[trigger] ps2[b]).id@ by {
        assert(ps[a].id@ != ps[b].id@);
    }
    assert forall|id: Seq<char>| has_slot(ps2, id) == has_slot(ps, id) by {
        if has_slot(ps, id) {
            let j = choose|j: int| 0 <= j < ps.len() && ps[j].id@ == id;
            assert(ps2[j].id@ == id);
        }
        if has_slot(ps2, id) {
            let j = choose|j: int| 0 <= j < ps2.len() && ps2[j].id@ == id;
            assert(ps[j].id@ == id);
        }
    }
    assert forall|id: Seq<char>| has_slot(ps, id) implies slot_of(ps2, id) == slot_of(ps, id) by {
        let j = slot_of(ps, id);
        lemma_slot_of(ps, j);
        lemma_slot_of(ps2, j);
    }
    lemma_slot_of(ps, i);
    assert(product_map(ps2) =~= product_map(ps).insert(p.id@, p@));
    assert(ids_map(ps2, pes) =~= ids_map(ps, pes));
}

proof fn lemma_update_ids(ps: Seq<Product>, pes: Seq<Vec<u64>>, i: int, v: Vec<u64>)
    requires
        unique_ids(ps),
        0 <= i < ps.len(),
        pes.len() == ps.len(),
    ensures
        ids_map(ps, pes.update(i, v)) == ids_map(ps, pes).insert(ps[i].id@, v@),
{
    lemma_slot_of(ps, i);
    assert forall|id: Seq<char>| has_slot(ps, id) && id != ps[i].id@ implies slot_of(ps, id) != i by {}
    assert(ids_map(ps, pes.update(i, v)) =~= ids_map(ps, pes).insert(ps[i].id@, v@));
}

/// Removes every edge of `actor` on `product_id`.
fn revoke_edge(edges: &mut Vec<AuthEdge>, product_id: &String, actor: &Address)
    ensures
        edge_set(final(edges)@) == edge_set(old(edges)@).remove((product_id@, actor@)),
{
    let ghost target = (product_id@, actor@);
    let ghost es0 = edges@;
    let mut i: usize = 0;
    while i < edges.len()
        invariant
            i <= edges@.len(),
            forall|k: int| 0 <= k < i ==> edge_pair(#[trigger] edges@[k]) != target,
            forall|pa: (Seq<char>, Seq<char>)|
                pa != target ==> (edge_set(edges@).contains(pa) == edge_set(es0).contains(pa)),
            forall|pa: (Seq<char>, Seq<char>)|
                edge_set(edges@).contains(pa) ==> edge_set(es0).contains(pa),
            target == (product_id@, actor@),
        decreases edges.len() - i,
    {
        if edges[i].product_id == *product_id && edges[i].actor.same_as(actor) {
            let ghost es = edges@;
            edges.remove(i);
            proof {
                let es1 = edges@;
                assert(es1 =~= es.remove(i as int));
                assert forall|pa: (Seq<char>, Seq<char>)|
                    pa != target implies (edge_set(es1).contains(pa) == edge_set(es).contains(pa)) by {
                    if edge_set(es).contains(pa) {
                        let k = choose|k: int| 0 <= k < es.len() && edge_pair(es[k]) == pa;
                        if k < i {
                            assert(es1[k] == es[k]);
                        } else {
                            assert(k != i);
                            assert(es1[k - 1] == es[k]);
                        }
                    }
                    if edge_set(es1).contains(pa) {
                        let k = choose|k: int| 0 <= k < es1.len() && edge_pair(es1[k]) == pa;
                        if k < i {
                            assert(es1[k] == es[k]);
                        } else {
                            assert(es1[k] == es[k + 1]);
                        }
                    }
                }
                assert forall|pa: (Seq<char>, Seq<char>)|
                    edge_set(es1).contains(pa) implies edge_set(es).contains(pa) by {
                    let k = choose|k: int| 0 <= k < es1.len() && edge_pair(es1[k]) == pa;
                    if k < i {
                        assert(es1[k] == es[k]);
                    } else {
                        assert(es1[k] == es[k + 1]);
                    }
                }
                assert forall|k: int| 0 <= k < i implies edge_pair(#[trigger] es1[k]) != target by {
                    assert(es1[k] == es[k]);
                }
            }
        } else {
            i += 1;
        }
    }
    proof {
        let es1 = edges@;
        assert forall|pa: (Seq<char>, Seq<char>)|
            edge_set(es1).contains(pa) == edge_set(es0).remove(target).contains(pa) by {
            if pa == target && edge_set(es1).contains(pa) {
                let k = choose|k: int| 0 <= k < es1.len() && edge_pair(es1[k]) == pa;
                assert(edge_pair(es1[k]) != target);
            }
        }
        assert(edge_set(es1) =~= edge_set(es0).remove(target));
    }
}

/// A copy of a list of ids.
fn copy_ids(v: &Vec<u64>) -> (r: Vec<u64>)
    ensures
        r@ == v@,
{
    let mut r: Vec<u64> = Vec::new();
    let mut i: usize = 0;
    while i < v.len()
        invariant
            i <= v@.len(),
            r@ =~= v@.subrange(0, i as int),
        decreases v.len() - i,
    {
        let x: u64 = v[i];
        r.push(x);
        i += 1;
    }
    assert(r@ =~= v@);
    r
}

/// The ledger's state: records, event log, allow-list and per-type index.
pub struct ChainLogisticsContract {
    products: Vec<Product>,
    product_events: Vec<Vec<u64>>,
    events: Vec<TrackingEvent>,
    auths: Vec<AuthEdge>,
    type_index: Vec<TypeIndex>,
}

impl View for ChainLogisticsContract {
    type V = LedgerView;

    closed spec fn view(&self) -> LedgerView {
        LedgerView {
            products: product_map(self.products@),
            event_ids: ids_map(self.products@, self.product_events@),
            events: self.events@.map_values(|e: TrackingEvent| e@),
            auth: edge_set(self.auths@),
        }
    }
}

impl ChainLogisticsContract {
    /// The internal consistency of the ledger.
    pub closed spec fn wf(&self) -> bool {
        &&& self.products@.len() == self.product_events@.len()
        &&& unique_ids(self.products@)
        &&& forall|k: int| 0 <= k < self.events@.len() ==> (#[trigger] self.events@[k]).event_id == k + 1
        &&& forall|s: int|
            0 <= s < self.product_events@.len() ==> ids_in_log(
                (#[trigger] self.product_events@[s])@,
                self.events@.len(),
            )
        &&& self.index_wf()
    }

    /// Each index entry holds exactly the ids of its product and type; no two
    /// entries share a product and a type; every stored event has an entry.
    closed spec fn index_wf(&self) -> bool {
        &&& self.index_exact()
        &&& self.index_unique()
        &&& self.index_complete()
    }

    closed spec fn log(&self) -> Seq<EventView> {
        self.events@.map_values(|e: TrackingEvent| e@)
    }

    closed spec fn index_exact(&self) -> bool {
        forall|k: int|
            0 <= k < self.type_index@.len() ==> {
                let e = #[trigger] self.type_index@[k];
                &&& e.slot < self.products@.len()
                &&& e.ids@ == select(self.product_events@[e.slot as int]@, self.log(), of_type(e.event_type@))
            }
    }

    closed spec fn index_unique(&self) -> bool {
        forall|a: int, b: int|
            0 <= a < b < self.type_index@.len() ==> !((#[trigger] self.type_index@[a]).slot
                == (#[trigger] self.type_index@[b]).slot && self.type_index@[a].event_type@
                == self.type_index@[b].event_type@)
    }

    /// Some index entry stands for product slot `s` and type `t`.
    closed spec fn has_entry(&self, s: int, t: Seq<char>) -> bool {
        exists|k: int|
            0 <= k < self.type_index@.len() && (#[trigger] self.type_index@[k]).slot == s
                && self.type_index@[k].event_type@ == t
    }

    closed spec fn index_complete(&self) -> bool {
        forall|s: int, j: int|
            #![trigger self.product_events@[s]@[j]]
            0 <= s < self.product_events@.len() && 0 <= j < self.product_events@[s]@.len()
                ==> self.has_entry(s, event_at(self.log(), self.product_events@[s]@[j]).event_type)
    }

    /// Consistency depends on neither the allow-list nor anything else
    /// beyond records, lists, log and index.
    proof fn lemma_wf_same_data(a: &Self, b: &Self)
        requires
            a.wf(),
            a.products@ == b.products@,
            a.product_events@ == b.product_events@,
            a.events@ == b.events@,
            a.type_index@ == b.type_index@,
        ensures
            b.wf(),
    {
        assert(a.index_exact());
        assert(a.index_complete());
        assert(a.index_unique());
        assert(b.index_exact());
        assert(b.index_complete());
        assert(b.index_unique());
    }

    /// An empty ledger.
    pub fn new() -> (r: ChainLogisticsContract)
        ensures
            r.wf(),
            r@ == LedgerView::empty(),
    {
        let r = ChainLogisticsContract {
            products: Vec::new(),
            product_events: Vec::new(),
            events: Vec::new(),
            auths: Vec::new(),
            type_index: Vec::new(),
        };
        assert(r@.products =~= Map::empty());
        assert(r@.event_ids =~= Map::empty());
        assert(r@.events =~= Seq::empty());
        assert(r@.auth =~= Set::empty());
        r
    }

    /// The slot that holds product `id`, if any.
    fn slot(&self, id: &String) -> (r: Option<usize>)
        requires
            self.wf(),
        ensures
            match r {
                Some(i) => i < self.products@.len() && self.products@[i as int].id@ == id@
                    && slot_of(self.products@, id@) == i,
                None => !has_slot(self.products@, id@),
            },
            r is Some == self@.has_product(id@),
    {
        let mut i: usize = 0;
        while i < self.products.len()
            invariant
                i <= self.products@.len(),
                unique_ids(self.products@),
                forall|j: int| 0 <= j < i ==> self.products@[j].id@ != id@,
            decreases self.products.len() - i,
        {
            if self.products[i].id == *id {
                proof {
                    lemma_slot_of(self.products@, i as int);
                }
                return Some(i);
            }
            i += 1;
        }
        None
    }

    /// The record of product `id`.
    pub fn get_product(&self, id: &String) -> (r: Result<Product, Error>)
        requires
            self.wf(),
        ensures
            match r {
                Ok(p) => self@.has_product(id@) && p@ == self@.products[id@],
                Err(e) => !self@.has_product(id@) && e == Error::ProductNotFound,
            },
    {
        match self.slot(id) {
            Some(i) => Ok(self.products[i].duplicate()),
            None => Err(Error::ProductNotFound),
        }
    }

    /// Registers a product owned by `owner`, stamped `now`: it fails with
    /// `ProductAlreadyExists` when `id` is taken, then with the first field
    /// constraint broken; otherwise the active record is stored with no events.
    pub fn register_product(
        &mut self,
        owner: Address,
        id: String,
        name: String,
        description: String,
        origin_location: String,
        category: String,
        tags: Vec<String>,
        certifications: Vec<Hash32>,
        media_hashes: Vec<Hash32>,
        custom: FieldMap,
        now: u64,
    ) -> (r: Result<Product, Error>)
        requires
            old(self).wf(),
        ensures
            final(self).wf(),
            old(self)@.register_error(
                id@,
                name@,
                description@,
                origin_location@,
                category@,
                tags@,
                certifications@.len(),
                media_hashes@.len(),
                custom@,
            ) == match r {
                Ok(_) => None,
                Err(e) => Some(e),
            },
            match r {
                Ok(p) => {
                    &&& p@ == new_product_view(
                        owner@,
                        id@,
                        name@,
                        description@,
                        origin_location@,
                        category@,
                        tags@,
                        certifications@,
                        media_hashes@,
                        custom@,
                        now,
                    )
                    &&& final(self)@ == old(self)@.with_product(p@)
                },
                Err(_) => final(self)@ == old(self)@,
            },
    {
        if self.slot(&id).is_some() {
            return Err(Error::ProductAlreadyExists);
        }
        match check_product_fields(
            &id,
            &name,
            &description,
            &origin_location,
            &category,
            &tags,
            &certifications,
            &media_hashes,
            &custom,
        ) {
            Err(e) => return Err(e),
            Ok(()) => {},
        }
        let product = Product {
            id,
            name,
            description,
            origin: Origin { location: origin_location },
            owner,
            created_at: now,
            active: true,
            category,
            tags,
            certifications,
            media_hashes,
            custom,
        };
        let r = product.duplicate();
        self.store_new(product);
        Ok(r)
    }

    /// Stores a record whose id is not taken yet, with an empty event list.
    fn store_new(&mut self, product: Product)
        requires
            old(self).wf(),
            !old(self)@.has_product(product.id@),
        ensures
            final(self).wf(),
            final(self)@ == old(self)@.with_product(product@),
    {
        let ghost s0 = *self;
        let ghost ps = self.products@;
        let ghost pes = self.product_events@;
        let ghost p = product;
        let empty: Vec<u64> = Vec::new();
        proof {
            lemma_push_product(ps, pes, p, empty);
            assert(empty@ =~= Seq::<u64>::empty());
        }
        self.products.push(product);
        self.product_events.push(empty);
        proof {
            assert(self.products@ == ps.push(p));
            assert forall|s: int|
                0 <= s < self.product_events@.len() implies ids_in_log(
                (#[trigger] self.product_events@[s])@,
                self.events@.len(),
            ) by {
                if s < pes.len() {
                    assert(self.product_events@[s] == pes[s]);
                } else {
                    assert(self.product_events@[s]@ =~= Seq::<u64>::empty());
                }
            }
            let evs = self.log();
            assert forall|k: int| 0 <= k < self.type_index@.len() implies {
                let e = #[trigger] self.type_index@[k];
                &&& e.slot < self.products@.len()
                &&& e.ids@ == select(self.product_events@[e.slot as int]@, evs, of_type(e.event_type@))
            } by {
                let e = self.type_index@[k];
                assert(self.product_events@[e.slot as int] == pes[e.slot as int]);
            }
            assert forall|s: int, j: int|
                #![trigger self.product_events@[s]@[j]]
                0 <= s < self.product_events@.len() && 0 <= j < self.product_events@[s]@.len()
                    implies self.has_entry(s, event_at(evs, self.product_events@[s]@[j]).event_type) by {
                assert(s < pes.len());
                assert(self.product_events@[s] == pes[s]);
                assert(s0.product_events@[s]@[j] == self.product_events@[s]@[j]);
                assert(s0.index_complete());
                let k = choose|k: int|
                    0 <= k < s0.type_index@.len() && (#[trigger] s0.type_index@[k]).slot == s
                        && s0.type_index@[k].event_type@ == event_at(evs, s0.product_events@[s]@[j]).event_type;
                assert(self.type_index@[k] == s0.type_index@[k]);
            }
            assert(self.products@.len() == self.product_events@.len());
            assert(unique_ids(self.products@));
            assert(self.type_index@ == s0.type_index@);
            assert(s0.index_wf());
            assert(self.index_exact());
            assert(self.index_unique());
            assert(self.index_complete());
        }
    }

    /// Whether `actor` has an explicit edge on `product_id`.
    fn has_edge(&self, product_id: &String, actor: &Address) -> (r: bool)
        ensures
            r == self@.auth.contains((product_id@, actor@)),
    {
        let mut i: usize = 0;
        while i < self.auths.len()
            invariant
                i <= self.auths@.len(),
                forall|k: int| 0 <= k < i ==> edge_pair(self.auths@[k]) != (product_id@, actor@),
            decreases self.auths.len() - i,
        {
            if self.auths[i].product_id == *product_id && self.auths[i].actor.same_as(actor) {
                assert(edge_pair(self.auths@[i as int]) == (product_id@, actor@));
                return true;
            }
            i += 1;
        }
        false
    }

    /// Puts `actor` on, or takes it off, the allow-list of `product_id`.
    fn set_auth(&mut self, product_id: &String, actor: &Address, allow: bool)
        requires
            old(self).wf(),
        ensures
            final(self).wf(),
            final(self)@ == old(self)@.with_edge(product_id@, actor@, allow),
            final(self).products@ == old(self).products@,
    {
        let ghost target = (product_id@, actor@);
        let ghost es0 = self.auths@;
        let ghost s0 = *self;
        if allow {
            if !self.has_edge(product_id, actor) {
                self.auths.push(AuthEdge { product_id: product_id.clone(), actor: actor.duplicate() });
                proof {
                    let es1 = self.auths@;
                    assert forall|pa: (Seq<char>, Seq<char>)|
                        edge_set(es1).contains(pa) == edge_set(es0).insert(target).contains(pa) by {
                        if edge_set(es0).contains(pa) {
                            let k = choose|k: int| 0 <= k < es0.len() && edge_pair(es0[k]) == pa;
                            assert(es1[k] == es0[k]);
                        }
                        if edge_set(es1).contains(pa) && pa != target {
                            let k = choose|k: int| 0 <= k < es1.len() && edge_pair(es1[k]) == pa;
                            assert(es1[k] == es0[k]);
                        }
                        assert(edge_pair(es1[es0.len() as int]) == target);
                    }
                    assert(edge_set(es1) =~= edge_set(es0).insert(target));
                }
            } else {
                assert(edge_set(es0) =~= edge_set(es0).insert(target));
            }
        } else {
            revoke_edge(&mut self.auths, product_id, actor);
        }
        proof {
            Self::lemma_wf_same_data(&s0, self);
        }
    }

    /// The standing of `actor` towards `product_id`.
    pub fn authorization(&self, product_id: &String, actor: &Address) -> (r: Result<Authorization, Error>)
        requires
            self.wf(),
        ensures
            match r {
                Ok(a) => self@.has_product(product_id@) && a == authorization_of(self@, product_id@, actor@),
                Err(e) => !self@.has_product(product_id@) && e == Error::ProductNotFound,
            },
    {
        match self.slot(product_id) {
            None => Err(Error::ProductNotFound),
            Some(i) => {
                proof {
                    lemma_slot_of(self.products@, i as int);
                }
                if self.products[i].owner.same_as(actor) {
                    Ok(Authorization::Owner)
                } else if self.has_edge(product_id, actor) {
                    Ok(Authorization::AllowListed)
                } else {
                    Ok(Authorization::Denied)
                }
            },
        }
    }

    /// Whether `actor` may append events to `product_id`: its owner always
    /// may, and so may every actor on its allow-list.
    pub fn is_authorized(&self, product_id: &String, actor: &Address) -> (r: Result<bool, Error>)
        requires
            self.wf(),
        ensures
            match r {
                Ok(b) => self@.has_product(product_id@) && b == self@.may_append(product_id@, actor@),
                Err(e) => !self@.has_product(product_id@) && e == Error::ProductNotFound,
            },
    {
        match self.authorization(product_id, actor)? {
            Authorization::Denied => Ok(false),
            _ => Ok(true),
        }
    }

    /// The slot of `product_id` when `caller` owns it.
    fn owned_slot(&self, caller: &Address, product_id: &String) -> (r: Result<usize, Error>)
        requires
            self.wf(),
        ensures
            match r {
                Ok(i) => self@.owner_error(product_id@, caller@) is None && i < self.products@.len()
                    && self.products@[i as int].id@ == product_id@,
                Err(e) => self@.owner_error(product_id@, caller@) == Some(e),
            },
    {
        match self.slot(product_id) {
            None => Err(Error::ProductNotFound),
            Some(i) => {
                if self.products[i].owner.same_as(caller) {
                    Ok(i)
                } else {
                    Err(Error::Unauthorized)
                }
            },
        }
    }

    /// Lets `actor` append events to `product_id`; only its owner may do so.
    pub fn add_authorized_actor(&mut self, owner: &Address, product_id: &String, actor: &Address) -> (r:
        Result<(), Error>)
        requires
            old(self).wf(),
        ensures
            final(self).wf(),
            r == as_result(old(self)@.owner_error(product_id@, owner@)),
            final(self)@ == if r is Ok {
                old(self)@.with_edge(product_id@, actor@, true)
            } else {
                old(self)@
            },
    {
        match self.owned_slot(owner, product_id) {
            Err(e) => Err(e),
            Ok(_) => {
                self.set_auth(product_id, actor, true);
                Ok(())
            },
        }
    }

    /// Takes `actor` off the allow-list of `product_id`; only its owner may do
    /// so. An actor with no edge is left as it is.
    pub fn remove_authorized_actor(&mut self, owner: &Address, product_id: &String, actor: &Address) -> (r:
        Result<(), Error>)
        requires
            old(self).wf(),
        ensures
            final(self).wf(),
            r == as_result(old(self)@.owner_error(product_id@, owner@)),
            final(self)@ == if r is Ok {
                old(self)@.with_edge(product_id@, actor@, false)
            } else {
                old(self)@
            },
    {
        match self.owned_slot(owner, product_id) {
            Err(e) => Err(e),
            Ok(_) => {
                self.set_auth(product_id, actor, false);
                Ok(())
            },
        }
    }

    /// Replaces the record in slot `i` by `p`, which has the same id.
    fn replace_record(&mut self, i: usize, p: Product)
        requires
            old(self).wf(),
            i < old(self).products@.len(),
            p.id@ == old(self).products@[i as int].id@,
        ensures
            final(self).wf(),
            final(self)@ == old(self)@.with_record(p.id@, p@),
    {
        let ghost s0 = *self;
        proof {
            lemma_update_product(self.products@, self.product_events@, i as int, p);
        }
        self.products.set(i, p);
        proof {
            assert(self.type_index@ == s0.type_index@);
            assert(self.product_events@ == s0.product_events@);
            assert(s0.index_wf());
            assert(self.index_exact());
            assert(self.index_complete());
        }
    }

    /// Hands `product_id` from `owner` to `new_owner`. The former owner's edge,
    /// if it had one, is revoked; every other actor's edge stays.
    pub fn transfer_product(&mut self, owner: &Address, product_id: &String, new_owner: &Address) -> (r:
        Result<(), Error>)
        requires
            old(self).wf(),
        ensures
            final(self).wf(),
            r == as_result(old(self)@.owner_error(product_id@, owner@)),
            final(self)@ == if r is Ok {
                old(self)@.with_owner(product_id@, new_owner@)
            } else {
                old(self)@
            },
    {
        match self.owned_slot(owner, product_id) {
            Err(e) => Err(e),
            Ok(i) => {
                let ghost v0 = self@;
                let former = self.products[i].owner.duplicate();
                self.set_auth(product_id, &former, false);
                let mut p = self.products[i].duplicate();
                p.owner = new_owner.duplicate();
                self.replace_record(i, p);
                proof {
                    assert(self@.products =~= v0.with_owner(product_id@, new_owner@).products);
                }
                Ok(())
            },
        }
    }

    /// Sets whether `product_id` accepts new events; only its owner may do so.
    pub fn set_product_active(&mut self, owner: &Address, product_id: &String, active: bool) -> (r:
        Result<(), Error>)
        requires
            old(self).wf(),
        ensures
            final(self).wf(),
            r == as_result(old(self)@.owner_error(product_id@, owner@)),
            final(self)@ == if r is Ok {
                old(self)@.with_active(product_id@, active)
            } else {
                old(self)@
            },
    {
        match self.owned_slot(owner, product_id) {
            Err(e) => Err(e),
            Ok(i) => {
                let mut p = self.products[i].duplicate();
                p.active = active;
                self.replace_record(i, p);
                Ok(())
            },
        }
    }

    /// The position of the index entry for slot `slot` and type `t`, if any.
    fn find_entry(&self, slot: usize, t: &String) -> (r: Option<usize>)
        ensures
            match r {
                Some(k) => k < self.type_index@.len() && self.type_index@[k as int].slot == slot
                    && self.type_index@[k as int].event_type@ == t@,
                None => !self.has_entry(slot as int, t@),
            },
    {
        let mut k: usize = 0;
        while k < self.type_index.len()
            invariant
                k <= self.type_index@.len(),
                forall|q: int|
                    0 <= q < k ==> !((#[trigger] self.type_index@[q]).slot == slot
                        && self.type_index@[q].event_type@ == t@),
            decreases self.type_index.len() - k,
        {
            if self.type_index[k].slot == slot && self.type_index[k].event_type == *t {
                return Some(k);
            }
            k += 1;
        }
        None
    }

    /// Appends an event to the log, to the list of the product in `slot`, and
    /// to the index entry of its type, whose count grows by one.
    fn append_unchecked(
        &mut self,
        slot: usize,
        actor: &Address,
        event_type: String,
        location: String,
        data_hash: Hash32,
        note: String,
        metadata: FieldMap,
        now: u64,
    ) -> (id: u64)
        requires
            old(self).wf(),
            slot < old(self).products@.len(),
            old(self).events@.len() < u64::MAX,
        ensures
            final(self).wf(),
            id == old(self).events@.len() + 1,
            final(self)@ == old(self)@.with_event(
                new_event_view(
                    id,
                    actor@,
                    old(self).products@[slot as int].id@,
                    event_type@,
                    location@,
                    data_hash,
                    note@,
                    metadata@,
                    now,
                ),
            ),
            final(self).products@ == old(self).products@,
    {
        let ghost s0 = *self;
        let ghost evs0 = self.log();
        let ghost pe0 = self.product_events@;
        let ghost ti0 = self.type_index@;
        let id: u64 = self.events.len() as u64 + 1;
        let et = event_type.clone();
        let ev = TrackingEvent {
            event_id: id,
            product_id: self.products[slot].id.clone(),
            actor: actor.duplicate(),
            timestamp: now,
            event_type,
            location,
            data_hash,
            note,
            metadata,
        };
        let ghost evv = ev@;
        self.events.push(ev);
        let ghost evs1 = self.log();
        proof {
            assert(evs1 =~= evs0.push(evv));
            assert(evs1.subrange(0, evs0.len() as int) =~= evs0);
            assert(event_at(evs1, id) == evv);
        }
        let mut list = Vec::new();
        std::mem::swap(&mut list, &mut self.product_events[slot]);
        list.push(id);
        let ghost list1 = list@;
        self.product_events.set(slot, list);
        proof {
            assert(list1 == pe0[slot as int]@.push(id));
            lemma_update_ids(s0.products@, pe0, slot as int, self.product_events@[slot as int]);
            assert(self.product_events@ == pe0.update(slot as int, self.product_events@[slot as int]));
        }
        let found = self.find_entry(slot, &et);
        let ghost k0: int;
        match found {
            Some(k) => {
                let mut ids = Vec::new();
                std::mem::swap(&mut ids, &mut self.type_index[k].ids);
                ids.push(id);
                let entry = TypeIndex { slot, event_type: et, ids };
                self.type_index.set(k, entry);
                proof {
                    k0 = k as int;
                }
            },
            None => {
                let mut ids = Vec::new();
                ids.push(id);
                self.type_index.push(TypeIndex { slot, event_type: et, ids });
                proof {
                    k0 = ti0.len() as int;
                }
            },
        }
        proof {
            let pe1 = self.product_events@;
            let ti1 = self.type_index@;
            assert(pe1[slot as int]@.drop_last() =~= pe0[slot as int]@);
            assert(pe1[slot as int]@.last() == id);
            // the entry of the new event's type
            assert(ti1[k0].slot == slot && ti1[k0].event_type@ == et@);
            assert(ids_in_log(pe0[slot as int]@, evs0.len())) by {
                assert(0 <= slot < s0.product_events@.len());
            }
            lemma_select_stable(pe0[slot as int]@, evs0, evs1, of_type(et@));
            if found is Some {
                assert(ti0[k0].ids@ == select(pe0[slot as int]@, evs0, of_type(et@)));
                assert(ti1[k0].ids@ =~= ti0[k0].ids@.push(id));
            } else {
                assert forall|j: int| 0 <= j < pe0[slot as int]@.len() implies !of_type(et@)(
                    #[trigger] event_at(evs0, pe0[slot as int]@[j]),
                ) by {
                    assert(s0.index_complete());
                    assert(pe0[slot as int]@[j] == s0.product_events@[slot as int]@[j]);
                    if of_type(et@)(event_at(evs0, pe0[slot as int]@[j])) {
                        let q = choose|q: int|
                            0 <= q < ti0.len() && (#[trigger] ti0[q]).slot == slot as int
                                && ti0[q].event_type@ == event_at(evs0, pe0[slot as int]@[j]).event_type;
                        assert(s0.type_index@[q] == ti0[q]);
                    }
                }
                lemma_select_none(pe0[slot as int]@, evs0, of_type(et@));
                assert(ti1[k0].ids@ =~= Seq::<u64>::empty().push(id));
            }
            assert(ti1[k0].ids@ == select(pe1[slot as int]@, evs1, of_type(et@)));
            // every entry is exact
            assert forall|q: int| 0 <= q < ti1.len() implies {
                let e = #[trigger] ti1[q];
                &&& e.slot < self.products@.len()
                &&& e.ids@ == select(pe1[e.slot as int]@, self.log(), of_type(e.event_type@))
            } by {
                if q != k0 {
                    let e = ti1[q];
                    assert(e == ti0[q]);
                    assert(s0.index_exact());
                    assert(ti0[q] == s0.type_index@[q]);
                    let es = e.slot as int;
                    assert(ids_in_log(pe0[es]@, evs0.len())) by {
                        assert(0 <= es < s0.product_events@.len());
                    }
                    lemma_select_stable(pe0[es]@, evs0, evs1, of_type(e.event_type@));
                    if es == slot {
                        assert(s0.index_unique());
                        if q < k0 && k0 < ti0.len() {
                            assert(!(s0.type_index@[q].slot == s0.type_index@[k0].slot
                                && s0.type_index@[q].event_type@ == s0.type_index@[k0].event_type@));
                        } else if k0 < q {
                            assert(!(s0.type_index@[k0].slot == s0.type_index@[q].slot
                                && s0.type_index@[k0].event_type@ == s0.type_index@[q].event_type@));
                        } else {
                            assert(!s0.has_entry(slot as int, et@));
                        }
                        assert(e.event_type@ != et@);
                    } else {
                        assert(pe1[es] == pe0[es]);
                    }
                }
            }
            assert(self.index_exact());
            // no two entries share product and type
            assert forall|a: int, b: int| 0 <= a < b < ti1.len() implies !((#[trigger] ti1[a]).slot
                == (#[trigger] ti1[b]).slot && ti1[a].event_type@ == ti1[b].event_type@) by {
                assert(s0.index_unique());
                if b == ti0.len() {
                    assert(ti1[a] == s0.type_index@[a]);
                    assert(!s0.has_entry(slot as int, et@));
                } else {
                    assert(ti1[a].slot == s0.type_index@[a].slot && ti1[a].event_type@ == s0.type_index@[a].event_type@);
                    assert(ti1[b].slot == s0.type_index@[b].slot && ti1[b].event_type@ == s0.type_index@[b].event_type@);
                }
            }
            assert(self.index_unique());
            // every stored event has an entry
            assert forall|s: int, j: int|
                #![trigger pe1[s]@[j]]
                0 <= s < pe1.len() && 0 <= j < pe1[s]@.len() implies self.has_entry(
                s,
                event_at(self.log(), pe1[s]@[j]).event_type,
            ) by {
                if s == slot && j == pe0[s]@.len() {
                    assert(ti1[k0].slot == s);
                } else {
                    assert(pe1[s]@[j] == pe0[s]@[j]);
                    assert(s0.index_complete());
                    assert(pe0[s]@[j] == s0.product_events@[s]@[j]);
                    assert(ids_in_log(pe0[s]@, evs0.len())) by {
                        assert(0 <= s < s0.product_events@.len());
                    }
                    assert(1 <= pe0[s]@[j] <= evs0.len());
                    assert(event_at(evs1, pe0[s]@[j]) == event_at(evs0, pe0[s]@[j]));
                    let q = choose|q: int|
                        0 <= q < ti0.len() && (#[trigger] ti0[q]).slot == s
                            && ti0[q].event_type@ == event_at(evs0, pe0[s]@[j]).event_type;
                    assert(s0.type_index@[q] == ti0[q]);
                    assert(ti1[q].slot == ti0[q].slot && ti1[q].event_type@ == ti0[q].event_type@);
                }
            }
            assert(self.index_complete());
            assert forall|s: int| 0 <= s < pe1.len() implies ids_in_log(
                (#[trigger] pe1[s])@,
                self.events@.len(),
            ) by {
                assert(ids_in_log(pe0[s]@, evs0.len())) by {
                    assert(0 <= s < s0.product_events@.len());
                }
                if s == slot {
                    assert forall|j: int| 0 <= j < pe1[s]@.len() implies 1 <= #[trigger] pe1[s]@[j] <= self.events@.len() by {
                        if j < pe0[s]@.len() {
                            assert(pe1[s]@[j] == pe0[s]@[j]);
                        }
                    }
                } else {
                    assert(pe1[s] == pe0[s]);
                }
            }
            assert(self@.event_ids =~= s0@.event_ids.insert(s0.products@[slot as int].id@, pe0[slot as int]@.push(id)));
            lemma_slot_of(s0.products@, slot as int);
            assert(s0@.event_ids[s0.products@[slot as int].id@] == pe0[slot as int]@);
        }
        id
    }

    /// The slot of `product_id` when `actor` may append an event with `metadata` to it.
    fn append_check(&self, actor: &Address, product_id: &String, metadata: &FieldMap) -> (r: Result<
        usize,
        Error,
    >)
        requires
            self.wf(),
        ensures
            match r {
                Ok(i) => {
                    &&& self@.append_error(actor@, product_id@, metadata@) is None
                    &&& i < self.products@.len()
                    &&& self.products@[i as int].id@ == product_id@
                },
                Err(e) => self@.append_error(actor@, product_id@, metadata@) == Some(e),
            },
    {
        let slot = match self.slot(product_id) {
            None => return Err(Error::ProductNotFound),
            Some(i) => i,
        };
        proof {
            lemma_slot_of(self.products@, slot as int);
        }
        if !self.products[slot].active {
            return Err(Error::InvalidInput);
        }
        match self.authorization(product_id, actor) {
            Ok(Authorization::Denied) | Err(_) => {
                return Err(Error::Unauthorized);
            },
            _ => {},
        }
        match check_metadata(metadata) {
            Err(e) => Err(e),
            Ok(()) => Ok(slot),
        }
    }

    /// Why input `i` of a registration batch is refused, if it is.
    fn batch_item_check(&self, inputs: &Vec<ProductInput>, i: usize) -> (r: Option<Error>)
        requires
            self.wf(),
            i < inputs@.len(),
        ensures
            r == self@.batch_item_error(inputs@, i as int),
    {
        let inp = &inputs[i];
        if self.slot(&inp.id).is_some() {
            return Some(Error::ProductAlreadyExists);
        }
        match check_product_fields(
            &inp.id,
            &inp.name,
            &inp.description,
            &inp.origin_location,
            &inp.category,
            &inp.tags,
            &inp.certifications,
            &inp.media_hashes,
            &inp.custom,
        ) {
            Err(e) => Some(e),
            Ok(()) => {
                if earlier_has_id(inputs, i) {
                    Some(Error::DuplicateInBatch)
                } else {
                    None
                }
            },
        }
    }

    /// Appends an event of `actor` to `product_id`, stamped `now`. It fails
    /// with `ProductNotFound` for an unknown product, `InvalidInput` for an
    /// inactive one, `Unauthorized` for an actor that is neither owner nor on
    /// its allow-list, then on metadata over its limits. Otherwise it returns
    /// the next event id.
    pub fn add_tracking_event(
        &mut self,
        actor: &Address,
        product_id: &String,
        event_type: String,
        location: String,
        data_hash: Hash32,
        note: String,
        metadata: FieldMap,
        now: u64,
    ) -> (r: Result<u64, Error>)
        requires
            old(self).wf(),
            old(self)@.events.len() < u64::MAX,
        ensures
            final(self).wf(),
            old(self)@.append_error(actor@, product_id@, metadata@) == match r {
                Ok(_) => None,
                Err(e) => Some(e),
            },
            match r {
                Ok(id) => {
                    &&& id == old(self)@.events.len() + 1
                    &&& final(self)@ == old(self)@.with_event(
                        new_event_view(
                            id,
                            actor@,
                            product_id@,
                            event_type@,
                            location@,
                            data_hash,
                            note@,
                            metadata@,
                            now,
                        ),
                    )
                },
                Err(_) => final(self)@ == old(self)@,
            },
    {
        let slot = self.append_check(actor, product_id, &metadata)?;
        let id = self.append_unchecked(slot, actor, event_type, location, data_hash, note, metadata, now);
        Ok(id)
    }

    /// With no index entry for a slot and type, the product has no event of that type.
    proof fn lemma_no_entry(&self, slot: int, t: Seq<char>)
        requires
            self.wf(),
            0 <= slot < self.products@.len(),
            !self.has_entry(slot, t),
        ensures
            select(self.product_events@[slot]@, self.log(), of_type(t)) == Seq::<u64>::empty(),
    {
        let ids = self.product_events@[slot]@;
        assert forall|j: int| 0 <= j < ids.len() implies !of_type(t)(#[trigger] event_at(self.log(), ids[j])) by {
            assert(self.index_complete());
            assert(ids[j] == self.product_events@[slot]@[j]);
        }
        lemma_select_none(ids, self.log(), of_type(t));
    }

    /// The slot of `product_id`, with what the view says of it.
    fn existing_slot(&self, product_id: &String) -> (r: Result<usize, Error>)
        requires
            self.wf(),
        ensures
            match r {
                Ok(i) => {
                    &&& self@.has_product(product_id@)
                    &&& i < self.products@.len()
                    &&& self.products@[i as int].id@ == product_id@
                    &&& self@.event_ids[product_id@] == self.product_events@[i as int]@
                    &&& ids_in_log(self.product_events@[i as int]@, self.events@.len())
                },
                Err(e) => !self@.has_product(product_id@) && e == Error::ProductNotFound,
            },
    {
        match self.slot(product_id) {
            None => Err(Error::ProductNotFound),
            Some(i) => {
                proof {
                    lemma_slot_of(self.products@, i as int);
                    assert(0 <= i < self.product_events@.len());
                }
                Ok(i)
            },
        }
    }

    /// The page at `offset` of at most `limit` of the events that `ids` name.
    fn build_page(&self, ids: &Vec<u64>, offset: u64, limit: u64) -> (page: EventPage)
        requires
            self.wf(),
            ids_in_log(ids@, self.events@.len()),
        ensures
            is_page_of(page, events_of(ids@, self@.events), offset, limit),
    {
        let n = ids.len();
        let start: usize = if offset < n as u64 {
            offset as usize
        } else {
            n
        };
        let room: usize = n - start;
        let take: usize = if limit < room as u64 {
            limit as usize
        } else {
            room
        };
        let end: usize = start + take;
        let ghost pop = events_of(ids@, self@.events);
        let mut events: Vec<TrackingEvent> = Vec::new();
        let mut k: usize = start;
        while k < end
            invariant
                start <= k <= end <= n,
                n == ids@.len(),
                self.wf(),
                ids_in_log(ids@, self.events@.len()),
                pop == events_of(ids@, self@.events),
                events@.map_values(|e: TrackingEvent| e@) =~= pop.subrange(start as int, k as int),
            decreases end - k,
        {
            let id = ids[k];
            assert(1 <= ids@[k as int] <= self.events@.len());
            let n_events: usize = self.events.len();
            let idx: usize = (id - 1) as usize;
            assert(idx as int == id as int - 1);
            let e = self.events[idx].duplicate();
            assert(e@ == pop[k as int]);
            let ghost before = events@.map_values(|e: TrackingEvent| e@);
            events.push(e);
            assert(events@.map_values(|e: TrackingEvent| e@) =~= before.push(pop[k as int]));
            assert(pop.subrange(start as int, k + 1) =~= pop.subrange(start as int, k as int).push(pop[k as int]));
            k += 1;
        }
        let has_more = if offset < n as u64 {
            (end as u64) < (n as u64)
        } else {
            false
        };
        EventPage { events, total_count: n as u64, has_more }
    }

    /// The ids in `ids` whose events `f` accepts, in order.
    fn select_filtered(&self, ids: &Vec<u64>, f: &EventFilter) -> (r: Vec<u64>)
        requires
            self.wf(),
            ids_in_log(ids@, self.events@.len()),
        ensures
            r@ == select(ids@, self@.events, matches_filter(*f)),
            ids_in_log(r@, self.events@.len()),
    {
        let mut r: Vec<u64> = Vec::new();
        let mut i: usize = 0;
        while i < ids.len()
            invariant
                i <= ids@.len(),
                self.wf(),
                ids_in_log(ids@, self.events@.len()),
                r@ == select(ids@.subrange(0, i as int), self@.events, matches_filter(*f)),
            decreases ids.len() - i,
        {
            let id = ids[i];
            assert(1 <= ids@[i as int] <= self.events@.len());
            let n_events: usize = self.events.len();
            let idx: usize = (id - 1) as usize;
            assert(idx as int == id as int - 1);
            let e = &self.events[idx];
            assert(e@ == event_at(self@.events, id));
            let keep = (f.event_type.as_str().is_empty() || e.event_type == f.event_type) && (
            f.start_time == 0 || f.start_time <= e.timestamp) && (f.end_time == u64::MAX
                || e.timestamp <= f.end_time) && (f.location.as_str().is_empty() || e.location
                == f.location);
            assert(ids@.subrange(0, i + 1).drop_last() =~= ids@.subrange(0, i as int));
            if keep {
                r.push(id);
            }
            i += 1;
        }
        assert(ids@.subrange(0, ids@.len() as int) =~= ids@);
        proof {
            lemma_select_within(ids@, self@.events, matches_filter(*f), self.events@.len());
        }
        r
    }

    /// The ids in `ids` whose events are stamped within `[start, end]`, in order.
    fn select_time_range(&self, ids: &Vec<u64>, start: u64, end: u64) -> (r: Vec<u64>)
        requires
            self.wf(),
            ids_in_log(ids@, self.events@.len()),
        ensures
            r@ == select(ids@, self@.events, in_time_range(start, end)),
            ids_in_log(r@, self.events@.len()),
    {
        let mut r: Vec<u64> = Vec::new();
        let mut i: usize = 0;
        while i < ids.len()
            invariant
                i <= ids@.len(),
                self.wf(),
                ids_in_log(ids@, self.events@.len()),
                r@ == select(ids@.subrange(0, i as int), self@.events, in_time_range(start, end)),
            decreases ids.len() - i,
        {
            let id = ids[i];
            assert(1 <= ids@[i as int] <= self.events@.len());
            let n_events: usize = self.events.len();
            let idx: usize = (id - 1) as usize;
            assert(idx as int == id as int - 1);
            let e = &self.events[idx];
            assert(e@ == event_at(self@.events, id));
            assert(ids@.subrange(0, i + 1).drop_last() =~= ids@.subrange(0, i as int));
            if start <= e.timestamp && e.timestamp <= end {
                r.push(id);
            }
            i += 1;
        }
        assert(ids@.subrange(0, ids@.len() as int) =~= ids@);
        proof {
            lemma_select_within(ids@, self@.events, in_time_range(start, end), self.events@.len());
        }
        r
    }

    /// The event with id `event_id`.
    pub fn get_event(&self, event_id: u64) -> (r: Result<TrackingEvent, Error>)
        requires
            self.wf(),
        ensures
            match r {
                Ok(e) => 1 <= event_id <= self@.events.len() && e@ == self@.events[event_id - 1],
                Err(e) => !(1 <= event_id <= self@.events.len()) && e == Error::EventNotFound,
            },
    {
        if event_id == 0 || event_id > self.events.len() as u64 {
            return Err(Error::EventNotFound);
        }
        Ok(self.events[(event_id - 1) as usize].duplicate())
    }

    /// The ids of the events of `product_id`, in the order of appending.
    pub fn get_product_event_ids(&self, product_id: &String) -> (r: Result<Vec<u64>, Error>)
        requires
            self.wf(),
        ensures
            match r {
                Ok(ids) => self@.has_product(product_id@) && ids@ == self@.event_ids[product_id@],
                Err(e) => !self@.has_product(product_id@) && e == Error::ProductNotFound,
            },
    {
        let slot = self.existing_slot(product_id)?;
        Ok(copy_ids(&self.product_events[slot]))
    }

    /// The number of events of `product_id`.
    pub fn get_event_count(&self, product_id: &String) -> (r: Result<u64, Error>)
        requires
            self.wf(),
        ensures
            match r {
                Ok(n) => self@.has_product(product_id@) && n == self@.event_ids[product_id@].len(),
                Err(e) => !self@.has_product(product_id@) && e == Error::ProductNotFound,
            },
    {
        let slot = self.existing_slot(product_id)?;
        Ok(self.product_events[slot].len() as u64)
    }

    /// The number of events of `product_id` whose type is `event_type`, read
    /// from the index.
    pub fn get_event_count_by_type(&self, product_id: &String, event_type: &String) -> (r: Result<
        u64,
        Error,
    >)
        requires
            self.wf(),
        ensures
            match r {
                Ok(n) => self@.has_product(product_id@) && n == self@.ids_of_type(
                    product_id@,
                    event_type@,
                ).len(),
                Err(e) => !self@.has_product(product_id@) && e == Error::ProductNotFound,
            },
    {
        let slot = self.existing_slot(product_id)?;
        match self.find_entry(slot, event_type) {
            Some(k) => {
                proof {
                    assert(self.index_exact());
                    assert(self.type_index@[k as int].ids@ == select(
                        self.product_events@[slot as int]@,
                        self.log(),
                        of_type(event_type@),
                    ));
                }
                Ok(self.type_index[k].ids.len() as u64)
            },
            None => {
                proof {
                    self.lemma_no_entry(slot as int, event_type@);
                }
                Ok(0)
            },
        }
    }

    /// A page of the events of `product_id`, in the order of appending.
    pub fn get_product_events(&self, product_id: &String, offset: u64, limit: u64) -> (r: Result<
        EventPage,
        Error,
    >)
        requires
            self.wf(),
        ensures
            match r {
                Ok(page) => self@.has_product(product_id@) && is_page_of(
                    page,
                    events_of(self@.event_ids[product_id@], self@.events),
                    offset,
                    limit,
                ),
                Err(e) => !self@.has_product(product_id@) && e == Error::ProductNotFound,
            },
    {
        let slot = self.existing_slot(product_id)?;
        Ok(self.build_page(&self.product_events[slot], offset, limit))
    }

    /// A page of the events of `product_id` whose type is `event_type`, read
    /// through the index.
    pub fn get_events_by_type(
        &self,
        product_id: &String,
        event_type: &String,
        offset: u64,
        limit: u64,
    ) -> (r: Result<EventPage, Error>)
        requires
            self.wf(),
        ensures
            match r {
                Ok(page) => self@.has_product(product_id@) && is_page_of(
                    page,
                    events_of(self@.ids_of_type(product_id@, event_type@), self@.events),
                    offset,
                    limit,
                ),
                Err(e) => !self@.has_product(product_id@) && e == Error::ProductNotFound,
            },
    {
        let slot = self.existing_slot(product_id)?;
        match self.find_entry(slot, event_type) {
            Some(k) => {
                proof {
                    assert(self.index_exact());
                    assert(self.type_index@[k as int].ids@ == select(
                        self.product_events@[slot as int]@,
                        self.log(),
                        of_type(event_type@),
                    ));
                    lemma_select_within(
                        self.product_events@[slot as int]@,
                        self.log(),
                        of_type(event_type@),
                        self.events@.len(),
                    );
                }
                Ok(self.build_page(&self.type_index[k].ids, offset, limit))
            },
            None => {
                proof {
                    self.lemma_no_entry(slot as int, event_type@);
                }
                let none: Vec<u64> = Vec::new();
                proof {
                    assert(none@ =~= Seq::<u64>::empty());
                }
                Ok(self.build_page(&none, offset, limit))
            },
        }
    }

    /// A page of the events of `product_id` stamped within `[start_time, end_time]`.
    /// This scans the product's whole list.
    pub fn get_events_by_time_range(
        &self,
        product_id: &String,
        start_time: u64,
        end_time: u64,
        offset: u64,
        limit: u64,
    ) -> (r: Result<EventPage, Error>)
        requires
            self.wf(),
        ensures
            match r {
                Ok(page) => self@.has_product(product_id@) && is_page_of(
                    page,
                    events_of(
                        select(
                            self@.event_ids[product_id@],
                            self@.events,
                            in_time_range(start_time, end_time),
                        ),
                        self@.events,
                    ),
                    offset,
                    limit,
                ),
                Err(e) => !self@.has_product(product_id@) && e == Error::ProductNotFound,
            },
    {
        let slot = self.existing_slot(product_id)?;
        let ids = self.select_time_range(&self.product_events[slot], start_time, end_time);
        Ok(self.build_page(&ids, offset, limit))
    }

    /// A page of the events of `product_id` that meet `filter`. This scans the
    /// product's whole list.
    pub fn get_filtered_events(&self, product_id: &String, filter: &EventFilter, offset: u64, limit: u64) -> (r:
        Result<EventPage, Error>)
        requires
            self.wf(),
        ensures
            match r {
                Ok(page) => self@.has_product(product_id@) && is_page_of(
                    page,
                    events_of(
                        select(self@.event_ids[product_id@], self@.events, matches_filter(*filter)),
                        self@.events,
                    ),
                    offset,
                    limit,
                ),
                Err(e) => !self@.has_product(product_id@) && e == Error::ProductNotFound,
            },
    {
        let slot = self.existing_slot(product_id)?;
        let ids = self.select_filtered(&self.product_events[slot], filter);
        Ok(self.build_page(&ids, offset, limit))
    }

    /// Registers every input for `owner`, stamped `now`, or none of them. All
    /// inputs are checked before anything is written: the batch fails with
    /// `BatchEmpty` or `BatchTooLarge`, else with the error of its first input
    /// whose id is taken, whose fields break a constraint, or whose id an
    /// earlier input has. Otherwise the records are stored in input order.
    pub fn register_batch(&mut self, owner: &Address, inputs: Vec<ProductInput>, now: u64) -> (r: Result<
        Vec<Product>,
        Error,
    >)
        requires
            old(self).wf(),
        ensures
            final(self).wf(),
            old(self)@.register_batch_error(inputs@) == match r {
                Ok(_) => None,
                Err(e) => Some(e),
            },
            match r {
                Ok(ps) => {
                    &&& ps@.len() == inputs@.len()
                    &&& forall|j: int|
                        0 <= j < ps@.len() ==> (#[trigger] ps@[j])@ == input_product_view(
                            owner@,
                            inputs@[j],
                            now,
                        )
                    &&& final(self)@ == old(self)@.with_inputs(owner@, inputs@, now, inputs@.len() as int)
                },
                Err(_) => final(self)@ == old(self)@,
            },
    {
        if inputs.len() == 0 {
            return Err(Error::BatchEmpty);
        }
        if inputs.len() > MAX_BATCH {
            return Err(Error::BatchTooLarge);
        }
        let ghost l0 = self@;
        let mut i: usize = 0;
        while i < inputs.len()
            invariant
                i <= inputs@.len(),
                0 < inputs@.len() <= MAX_BATCH,
                self.wf(),
                self@ == l0,
                l0.batch_prefix_error(inputs@, i as int) is None,
            decreases inputs.len() - i,
        {
            let err = self.batch_item_check(&inputs, i);
            match err {
                Some(e) => {
                    proof {
                        assert(l0.batch_prefix_error(inputs@, i + 1) == Some(e));
                        lemma_prefix_error_sticks(l0, inputs@, i + 1, inputs@.len() as int);
                    }
                    return Err(e);
                },
                None => {},
            }
            i += 1;
        }
        let mut out: Vec<Product> = Vec::new();
        proof {
            assert forall|q: int| 0 <= q < inputs@.len() implies !self@.has_product(
                #[trigger] inputs@[q].id@,
            ) by {
                lemma_prefix_clean(l0, inputs@, inputs@.len() as int, q);
            }
            assert(l0.with_inputs(owner@, inputs@, now, 0) == l0);
        }
        let mut i: usize = 0;
        while i < inputs.len()
            invariant
                i <= inputs@.len() <= MAX_BATCH,
                self.wf(),
                self@ == l0.with_inputs(owner@, inputs@, now, i as int),
                l0.batch_prefix_error(inputs@, inputs@.len() as int) is None,
                forall|q: int| i <= q < inputs@.len() ==> !self@.has_product(#[trigger] inputs@[q].id@),
                out@.len() == i,
                forall|q: int|
                    0 <= q < i ==> (#[trigger] out@[q])@ == input_product_view(owner@, inputs@[q], now),
            decreases inputs.len() - i,
        {
            let p = make_product(owner, &inputs[i], now);
            let stored = p.duplicate();
            let ghost before = self@;
            self.store_new(stored);
            out.push(p);
            proof {
                assert forall|q: int| i + 1 <= q < inputs@.len() implies !self@.has_product(
                    #[trigger] inputs@[q].id@,
                ) by {
                    lemma_prefix_clean(l0, inputs@, inputs@.len() as int, q);
                    assert(inputs@[i as int].id@ != inputs@[q].id@);
                    assert(!before.has_product(inputs@[q].id@));
                }
            }
            i += 1;
        }
        Ok(out)
    }

    /// Appends every input as an event of `actor`, stamped `now`, or none of
    /// them. All inputs are checked before anything is written: the batch
    /// fails with `BatchEmpty` or `BatchTooLarge`, else with the error of its
    /// first input that `add_tracking_event` would refuse. Otherwise the events
    /// are appended in input order and their ids returned.
    pub fn add_tracking_events_batch(&mut self, actor: &Address, inputs: Vec<EventInput>, now: u64) -> (r:
        Result<Vec<u64>, Error>)
        requires
            old(self).wf(),
            old(self)@.events.len() + inputs@.len() < u64::MAX,
        ensures
            final(self).wf(),
            old(self)@.event_batch_error(actor@, inputs@) == match r {
                Ok(_) => None,
                Err(e) => Some(e),
            },
            match r {
                Ok(ids) => {
                    &&& ids@.len() == inputs@.len()
                    &&& forall|j: int| 0 <= j < ids@.len() ==> #[trigger] ids@[j] == old(self)@.events.len() + j + 1
                    &&& final(self)@ == old(self)@.with_event_inputs(actor@, inputs@, now, inputs@.len() as int)
                },
                Err(_) => final(self)@ == old(self)@,
            },
    {
        if inputs.len() == 0 {
            return Err(Error::BatchEmpty);
        }
        if inputs.len() > MAX_BATCH {
            return Err(Error::BatchTooLarge);
        }
        let ghost l0 = self@;
        let mut i: usize = 0;
        while i < inputs.len()
            invariant
                i <= inputs@.len(),
                0 < inputs@.len() <= MAX_BATCH,
                self.wf(),
                self@ == l0,
                l0.events_prefix_error(actor@, inputs@, i as int) is None,
            decreases inputs.len() - i,
        {
            let err = match self.append_check(actor, &inputs[i].product_id, &inputs[i].metadata) {
                Ok(_) => None,
                Err(e) => Some(e),
            };
            match err {
                Some(e) => {
                    proof {
                        assert(l0.events_prefix_error(actor@, inputs@, i + 1) == Some(e));
                        lemma_events_error_sticks(l0, actor@, inputs@, i + 1, inputs@.len() as int);
                    }
                    return Err(e);
                },
                None => {},
            }
            i += 1;
        }
        let mut ids: Vec<u64> = Vec::new();
        proof {
            assert(l0.with_event_inputs(actor@, inputs@, now, 0) == l0);
        }
        let mut i: usize = 0;
        while i < inputs.len()
            invariant
                i <= inputs@.len() <= MAX_BATCH,
                l0.events.len() + inputs@.len() < u64::MAX,
                self.wf(),
                self@ == l0.with_event_inputs(actor@, inputs@, now, i as int),
                l0.events_prefix_error(actor@, inputs@, inputs@.len() as int) is None,
                ids@.len() == i,
                forall|q: int| 0 <= q < i ==> #[trigger] ids@[q] == l0.events.len() + q + 1,
            decreases inputs.len() - i,
        {
            let inp = &inputs[i];
            proof {
                lemma_events_clean(l0, actor@, inputs@, inputs@.len() as int, i as int);
                lemma_event_inputs_keep(l0, actor@, inputs@, now, i as int);
            }
            let slot = match self.slot(&inp.product_id) {
                Some(s) => s,
                None => {
                    return Err(Error::ProductNotFound);
                },
            };
            proof {
                assert(self.events@.len() == self@.events.len());
            }
            let id = self.append_unchecked(
                slot,
                actor,
                inp.event_type.clone(),
                inp.location.clone(),
                inp.data_hash,
                inp.note.clone(),
                inp.metadata.duplicate(),
                now,
            );
            ids.push(id);
            i += 1;
        }
        Ok(ids)
    }

    /// The ledger's records, log and edges as plain lists.
    pub fn snapshot(&self) -> (r: Snapshot)
        requires
            self.wf(),
        ensures
            forall|id: Seq<char>|
                self@.has_product(id) == exists|i: int| 0 <= i < r.products@.len() && r.products@[i].id@ == id,
            forall|i: int|
                0 <= i < r.products@.len() ==> self@.products[(#[trigger] r.products@[i]).id@]
                    == r.products@[i]@,
            r.events@.map_values(|e: TrackingEvent| e@) == self@.events,
            edge_set(r.edges@) == self@.auth,
    {
        let mut products: Vec<Product> = Vec::new();
        let mut i: usize = 0;
        while i < self.products.len()
            invariant
                i <= self.products@.len(),
                self.wf(),
                products@.len() == i,
                forall|q: int| 0 <= q < i ==> (#[trigger] products@[q])@ == self.products@[q]@,
            decreases self.products.len() - i,
        {
            products.push(self.products[i].duplicate());
            i += 1;
        }
        let ghost products_len = products@.len();
        let mut events: Vec<TrackingEvent> = Vec::new();
        let mut k: usize = 0;
        while k < self.events.len()
            invariant
                k <= self.events@.len(),
                events@.map_values(|e: TrackingEvent| e@) =~= self.log().subrange(0, k as int),
            decreases self.events.len() - k,
        {
            let ghost before = events@.map_values(|e: TrackingEvent| e@);
            events.push(self.events[k].duplicate());
            assert(events@.map_values(|e: TrackingEvent| e@) =~= before.push(self.log()[k as int]));
            k += 1;
        }
        let mut edges: Vec<AuthEdge> = Vec::new();
        let mut j: usize = 0;
        while j < self.auths.len()
            invariant
                j <= self.auths@.len(),
                edges@.len() == j,
                forall|q: int| 0 <= q < j ==> edge_pair(#[trigger] edges@[q]) == edge_pair(self.auths@[q]),
            decreases self.auths.len() - j,
        {
            edges.push(AuthEdge { product_id: self.auths[j].product_id.clone(), actor: self.auths[j].actor.duplicate() });
            j += 1;
        }
        proof {
            let ps = self.products@;
            assert forall|q: int| 0 <= q < products@.len() implies self@.products[(#[trigger] products@[q]).id@]
                == products@[q]@ by {
                lemma_slot_of(ps, q);
            }
            assert(self.log().subrange(0, self.events@.len() as int) =~= self.log());
            assert forall|pa: (Seq<char>, Seq<char>)| edge_set(edges@).contains(pa) == self@.auth.contains(pa) by {
                if edge_set(edges@).contains(pa) {
                    let q = choose|q: int| 0 <= q < edges@.len() && edge_pair(edges@[q]) == pa;
                    assert(edge_pair(self.auths@[q]) == pa);
                }
                if self@.auth.contains(pa) {
                    let q = choose|q: int| 0 <= q < self.auths@.len() && edge_pair(self.auths@[q]) == pa;
                    assert(edge_pair(edges@[q]) == pa);
                }
            }
            assert(edge_set(edges@) =~= self@.auth);
        }
        let r = Snapshot { products, events, edges };
        proof {
            let ps = self.products@;
            assert forall|id: Seq<char>|
                self@.has_product(id) == exists|q: int| 0 <= q < r.products@.len() && r.products@[q].id@ == id by {
                assert(self@.has_product(id) == has_slot(ps, id));
                if has_slot(ps, id) {
                    let q = slot_of(ps, id);
                    assert(r.products@[q]@ == ps[q]@);
                    assert(r.products@[q].id@ == id);
                }
                if exists|q: int| 0 <= q < r.products@.len() && r.products@[q].id@ == id {
                    let q = choose|q: int| 0 <= q < r.products@.len() && r.products@[q].id@ == id;
                    assert(r.products@[q]@ == ps[q]@);
                    assert(ps[q].id@ == id);
                }
            }
        }
        r
    }

    /// Rebuilds a ledger from plain lists: records are stored in their order,
    /// the log is replayed so that each record's list and the per-type index
    /// are derived from it, and the edges are granted. It returns `None`
    /// exactly when the lists are not consistent.
    pub fn restore(snap: &Snapshot) -> (r: Option<ChainLogisticsContract>)
        ensures
            r is Some == snapshot_consistent(*snap),
            match r {
                Some(l) => l.wf() && holds_snapshot(l@, *snap),
                None => true,
            },
    {
        let mut l = ChainLogisticsContract::new();
        let mut i: usize = 0;
        while i < snap.products.len()
            invariant
                i <= snap.products@.len(),
                l.wf(),
                forall|id: Seq<char>|
                    l@.has_product(id) == exists|q: int| 0 <= q < i && snap.products@[q].id@ == id,
                forall|q: int| 0 <= q < i ==> l@.products[(#[trigger] snap.products@[q]).id@] == snap.products@[q]@,
                forall|a: int, b: int|
                    0 <= a < b < i ==> (#[trigger] snap.products@[a]).id@ != (#[trigger] snap.products@[b]).id@,
                l@.events == Seq::<EventView>::empty(),
                forall|id: Seq<char>| l@.has_product(id) ==> #[trigger] l@.event_ids[id] == Seq::<u64>::empty(),
                l@.auth == Set::<(Seq<char>, Seq<char>)>::empty(),
            decreases snap.products.len() - i,
        {
            let p = &snap.products[i];
            if l.slot(&p.id).is_some() {
                proof {
                    let q = choose|q: int| 0 <= q < i && snap.products@[q].id@ == p.id@;
                    assert(snap.products@[q].id@ == snap.products@[i as int].id@);
                }
                return None;
            }
            let ghost before = l@;
            l.store_new(p.duplicate());
            proof {
                assert forall|id: Seq<char>|
                    l@.has_product(id) == exists|q: int| 0 <= q < i + 1 && snap.products@[q].id@ == id by {
                    assert(before.has_product(id) == exists|q: int| 0 <= q < i && snap.products@[q].id@ == id);
                    if id == p.id@ {
                        assert(snap.products@[i as int].id@ == id);
                    } else if exists|q: int| 0 <= q < i + 1 && snap.products@[q].id@ == id {
                        let q = choose|q: int| 0 <= q < i + 1 && snap.products@[q].id@ == id;
                        assert(q < i);
                    }
                }
                assert forall|a: int, b: int|
                    0 <= a < b < i + 1 implies (#[trigger] snap.products@[a]).id@ != (#[trigger] snap.products@[b]).id@ by {
                    if b == i {
                        assert(before.has_product(snap.products@[a].id@));
                    }
                }
            }
            i += 1;
        }
        let ghost prods = l@.products;
        proof {
            assert forall|id: Seq<char>|
                prods.contains_key(id) == exists|q: int| 0 <= q < snap.products@.len() && snap.products@[q].id@ == id by {
                assert(l@.has_product(id) == exists|q: int| 0 <= q < i && snap.products@[q].id@ == id);
            }
        }
        let mut k: usize = 0;
        while k < snap.events.len()
            invariant
                k <= snap.events@.len(),
                l.wf(),
                forall|id: Seq<char>|
                    prods.contains_key(id) == exists|q: int| 0 <= q < snap.products@.len() && snap.products@[q].id@ == id,
                l@.products == prods,
                forall|q: int| 0 <= q < snap.products@.len() ==> prods[(#[trigger] snap.products@[q]).id@] == snap.products@[q]@,
                forall|a: int, b: int|
                    0 <= a < b < snap.products@.len() ==> (#[trigger] snap.products@[a]).id@ != (#[trigger] snap.products@[b]).id@,
                l@.events == snap.events@.map_values(|e: TrackingEvent| e@).subrange(0, k as int),
                forall|q: int| 0 <= q < k ==> (#[trigger] snap.events@[q]).event_id == q + 1,
                forall|q: int|
                    0 <= q < k ==> lists_product(snap.products@, (#[trigger] snap.events@[q]).product_id@),
                forall|id: Seq<char>|
                    l@.has_product(id) ==> #[trigger] l@.event_ids[id] == select(first_ids(k as nat), l@.events, of_product(id)),
                l@.auth == Set::<(Seq<char>, Seq<char>)>::empty(),
            decreases snap.events.len() - k,
        {
            let e = &snap.events[k];
            if e.event_id != k as u64 + 1 {
                return None;
            }
            let slot = match l.slot(&e.product_id) {
                Some(s) => s,
                None => {
                    return None;
                },
            };
            let ghost before = l@;
            proof {
                assert(l.events@.len() == l@.events.len());
                assert(l@.events.len() == k);
                lemma_slot_of(l.products@, slot as int);
            }
            l.append_unchecked(
                slot,
                &e.actor,
                e.event_type.clone(),
                e.location.clone(),
                e.data_hash,
                e.note.clone(),
                e.metadata.duplicate(),
                e.timestamp,
            );
            proof {
                let evs = snap.events@.map_values(|e: TrackingEvent| e@);
                assert(l@.events =~= evs.subrange(0, k + 1));
                assert(l@.events.subrange(0, k as int) =~= before.events);
                assert(first_ids((k + 1) as nat).drop_last() =~= first_ids(k as nat));
                assert(ids_in_log(first_ids(k as nat), k as nat));
                assert forall|id: Seq<char>|
                    l@.has_product(id) implies #[trigger] l@.event_ids[id] == select(
                    first_ids((k + 1) as nat),
                    l@.events,
                    of_product(id),
                ) by {
                    lemma_select_stable(first_ids(k as nat), before.events, l@.events, of_product(id));
                    assert(event_at(l@.events, (k + 1) as u64) == e@);
                }
                let q = choose|q: int| 0 <= q < snap.products@.len() && snap.products@[q].id@ == e.product_id@;
                assert(lists_product(snap.products@, snap.events@[k as int].product_id@));
            }
            k += 1;
        }
        proof {
            assert(snapshot_consistent(*snap));
            assert(l@.events =~= snap.events@.map_values(|e: TrackingEvent| e@));
        }
        let mut j: usize = 0;
        while j < snap.edges.len()
            invariant
                j <= snap.edges@.len(),
                snapshot_consistent(*snap),
                forall|q: int| 0 <= q < snap.products@.len() ==> prods[(#[trigger] snap.products@[q]).id@] == snap.products@[q]@,
                l.wf(),
                forall|id: Seq<char>|
                    prods.contains_key(id) == exists|q: int| 0 <= q < snap.products@.len() && snap.products@[q].id@ == id,
                l@.products == prods,
                l@.events == snap.events@.map_values(|e: TrackingEvent| e@),
                forall|id: Seq<char>|
                    l@.has_product(id) ==> #[trigger] l@.event_ids[id] == select(
                        first_ids(l@.events.len()),
                        l@.events,
                        of_product(id),
                    ),
                l@.auth == edge_set(snap.edges@.subrange(0, j as int)),
            decreases snap.edges.len() - j,
        {
            let ghost before = l@;
            l.set_auth(&snap.edges[j].product_id, &snap.edges[j].actor, true);
            proof {
                let es = snap.edges@;
                assert(es.subrange(0, j + 1) =~= es.subrange(0, j as int).push(es[j as int]));
                assert forall|pa: (Seq<char>, Seq<char>)|
                    edge_set(es.subrange(0, j + 1)).contains(pa) == l@.auth.contains(pa) by {
                    let es1 = es.subrange(0, j + 1);
                    let es0 = es.subrange(0, j as int);
                    if edge_set(es1).contains(pa) && pa != edge_pair(es[j as int]) {
                        let q = choose|q: int| 0 <= q < es1.len() && edge_pair(es1[q]) == pa;
                        assert(es0[q] == es1[q]);
                    }
                    if edge_set(es0).contains(pa) {
                        let q = choose|q: int| 0 <= q < es0.len() && edge_pair(es0[q]) == pa;
                        assert(es0[q] == es1[q]);
                    }
                    assert(edge_pair(es1[j as int]) == edge_pair(es[j as int]));
                }
                assert(edge_set(es.subrange(0, j + 1)) =~= l@.auth);
            }
            j += 1;
        }
        proof {
            assert(snap.edges@.subrange(0, snap.edges@.len() as int) =~= snap.edges@);
        }
        Some(l)
    }

    /// The number of events in the whole log.
    pub fn total_events(&self) -> (r: usize)
        ensures
            r == self@.events.len(),
    {
        self.events.len()
    }

    /// Event ids are dense: the event at position `k` of the log has id `k + 1`,
    /// so no id names two events.
    pub proof fn lemma_event_ids_dense(&self)
        requires
            self.wf(),
        ensures
            forall|k: int| 0 <= k < self@.events.len() ==> (#[trigger] self@.events[k]).event_id == k + 1,
    {
    }
}

} // verus!

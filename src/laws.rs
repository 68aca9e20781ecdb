//! Properties that hold across operations of the ledger, stated over the
//! states that the operations' contracts describe.
use vstd::prelude::*;
use crate::error::Error;
use crate::fields::FieldsView;
use crate::model::{authorization_of, lemma_prefix_error_sticks, Authorization, LedgerView, MAX_BATCH};
use crate::types::{EventView, ProductInput, ProductView};
use crate::validation::{input_error, metadata_error};

verus! {

/// Uniqueness: in the state that registering a record leaves, registering its
/// id again fails with `ProductAlreadyExists`, whatever the other fields.
pub proof fn lemma_register_twice_fails(
    l: LedgerView,
    p: ProductView,
    name: Seq<char>,
    description: Seq<char>,
    origin: Seq<char>,
    category: Seq<char>,
    tags: Seq<String>,
    n_certifications: nat,
    n_media_hashes: nat,
    custom: FieldsView,
)
    ensures
        l.with_product(p).register_error(
            p.id,
            name,
            description,
            origin,
            category,
            tags,
            n_certifications,
            n_media_hashes,
            custom,
        ) == Some(Error::ProductAlreadyExists),
{
}

/// A registered id stays registered through every later change: a new
/// record, a changed record, an owner, an allow-list edge or an event.
pub proof fn lemma_registered_ids_persist(
    l: LedgerView,
    id: Seq<char>,
    pid: Seq<char>,
    p: ProductView,
    actor: Seq<char>,
    allow: bool,
    e: EventView,
)
    requires
        l.has_product(id),
    ensures
        l.with_product(p).has_product(id),
        l.with_record(pid, p).has_product(id),
        l.with_active(pid, allow).has_product(id),
        l.with_owner(pid, actor).has_product(id),
        l.with_edge(pid, actor, allow).has_product(id),
        l.with_event(e).has_product(id),
{
}

/// Monotonic ids: an append hands out the id one past the log's length and
/// the log never shrinks, so an id handed out later is strictly larger, and
/// no id is handed out twice.
pub proof fn lemma_event_ids_increase(l: LedgerView, e: EventView, later: LedgerView, f: EventView)
    requires
        e.event_id == l.events.len() + 1,
        later.events.len() >= l.with_event(e).events.len(),
        f.event_id == later.events.len() + 1,
    ensures
        e.event_id < f.event_id,
{
}

/// Only appending changes the log, and it adds exactly one event.
pub proof fn lemma_log_only_grows(
    l: LedgerView,
    pid: Seq<char>,
    p: ProductView,
    actor: Seq<char>,
    allow: bool,
    e: EventView,
)
    ensures
        l.with_product(p).events == l.events,
        l.with_record(pid, p).events == l.events,
        l.with_active(pid, allow).events == l.events,
        l.with_owner(pid, actor).events == l.events,
        l.with_edge(pid, actor, allow).events == l.events,
        l.with_event(e).events.len() == l.events.len() + 1,
        l.with_event(e).events.subrange(0, l.events.len() as int) == l.events,
{
    assert(l.with_event(e).events.subrange(0, l.events.len() as int) =~= l.events);
}

/// Authorization: on an active product, with acceptable metadata, an append
/// succeeds exactly for the owner and for actors on the allow-list; any other
/// actor gets `Unauthorized`.
pub proof fn lemma_append_authorization(l: LedgerView, pid: Seq<char>, actor: Seq<char>, metadata: FieldsView)
    requires
        l.has_product(pid),
        l.products[pid].active,
        metadata_error(metadata) is None,
    ensures
        (l.append_error(actor, pid, metadata) is None) == (l.products[pid].owner == actor || l.auth.contains(
            (pid, actor),
        )),
        !(l.products[pid].owner == actor || l.auth.contains((pid, actor))) ==> l.append_error(
            actor,
            pid,
            metadata,
        ) == Some(Error::Unauthorized),
{
}

/// Authorization: an actor that is not the owner may append once granted,
/// and may not once revoked, whatever came before.
pub proof fn lemma_grant_then_revoke(l: LedgerView, pid: Seq<char>, actor: Seq<char>, metadata: FieldsView)
    requires
        l.has_product(pid),
        l.products[pid].active,
        l.products[pid].owner != actor,
        metadata_error(metadata) is None,
    ensures
        l.with_edge(pid, actor, true).append_error(actor, pid, metadata) is None,
        l.with_edge(pid, actor, false).append_error(actor, pid, metadata) == Some(Error::Unauthorized),
        l.with_edge(pid, actor, true).with_edge(pid, actor, false).append_error(actor, pid, metadata)
            == Some(Error::Unauthorized),
{
}

/// The owner's standing comes from the record: revoking an edge for the
/// owner leaves it the owner, and only a transfer ends it.
pub proof fn lemma_owner_not_revocable(l: LedgerView, pid: Seq<char>, new_owner: Seq<char>)
    requires
        l.has_product(pid),
    ensures
        authorization_of(l.with_edge(pid, l.products[pid].owner, false), pid, l.products[pid].owner)
            == Authorization::Owner,
        authorization_of(l.with_owner(pid, new_owner), pid, new_owner) == Authorization::Owner,
{
}

/// Inactive gate: once a product is deactivated, every actor's append to it
/// fails with `InvalidInput`, the owner's included; reactivating an active
/// product's record restores the state it had.
pub proof fn lemma_inactive_gate(l: LedgerView, pid: Seq<char>, actor: Seq<char>, metadata: FieldsView)
    requires
        l.has_product(pid),
    ensures
        l.with_active(pid, false).append_error(actor, pid, metadata) == Some(Error::InvalidInput),
        l.products[pid].active ==> l.with_active(pid, false).with_active(pid, true) == l,
{
    if l.products[pid].active {
        let m = l.with_active(pid, false).with_active(pid, true);
        assert(m.products[pid] == l.products[pid]);
        assert(m.products =~= l.products);
    }
}

/// Batch atomicity: a batch with one input whose fields break a constraint,
/// among inputs that would each be accepted, is refused with that input's
/// own error (and a refused batch leaves the ledger as it was).
pub proof fn lemma_batch_one_invalid(l: LedgerView, inputs: Seq<ProductInput>, bad: int)
    requires
        0 < inputs.len() <= MAX_BATCH,
        0 <= bad < inputs.len(),
        input_error(inputs[bad]) is Some,
        forall|j: int| 0 <= j < inputs.len() && j != bad ==> input_error(#[trigger] inputs[j]) is None,
        forall|j: int| 0 <= j < inputs.len() ==> !l.has_product(#[trigger] inputs[j].id@),
        forall|i: int, j: int| 0 <= i < j < inputs.len() ==> (#[trigger] inputs[i]).id@ != (#[trigger] inputs[j]).id@,
    ensures
        l.register_batch_error(inputs) == input_error(inputs[bad]),
{
    lemma_clean_prefix(l, inputs, bad);
    lemma_prefix_error_sticks(l, inputs, bad + 1, inputs.len() as int);
}

proof fn lemma_clean_prefix(l: LedgerView, inputs: Seq<ProductInput>, n: int)
    requires
        0 <= n <= inputs.len(),
        forall|j: int| 0 <= j < n ==> input_error(#[trigger] inputs[j]) is None,
        forall|j: int| 0 <= j < inputs.len() ==> !l.has_product(#[trigger] inputs[j].id@),
        forall|i: int, j: int| 0 <= i < j < inputs.len() ==> (#[trigger] inputs[i]).id@ != (#[trigger] inputs[j]).id@,
    ensures
        l.batch_prefix_error(inputs, n) is None,
    decreases n,
{
    if n > 0 {
        lemma_clean_prefix(l, inputs, n - 1);
        let i = n - 1;
        assert(input_error(inputs[i]) is None);
        assert(!l.has_product(inputs[i].id@));
        assert(!exists|j: int| 0 <= j < i && #[trigger] inputs[j].id@ == inputs[i].id@);
    }
}

} // verus!

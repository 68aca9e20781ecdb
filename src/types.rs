//! The records, events, pages and filters that the ledger stores and returns.
use vstd::prelude::*;
use crate::fields::{FieldMap, FieldsView};

verus! {

/// A 32-byte content hash.
pub type Hash32 = [u8; 32];

/// An authenticated principal, known by its key.
#[derive(Clone, Debug, PartialEq, Eq)]
pub struct Address {
    pub key: String,
}

impl View for Address {
    type V = Seq<char>;

    open spec fn view(&self) -> Seq<char> {
        self.key@
    }
}

impl Address {
    /// True when both name the same principal.
    pub fn same_as(&self, other: &Address) -> (r: bool)
        ensures
            r == (self@ == other@),
    {
        self.key == other.key
    }

    /// A copy of this address.
    pub fn duplicate(&self) -> (r: Address)
        ensures
            r@ == self@,
    {
        Address { key: self.key.clone() }
    }
}

/// Where a product comes from.
#[derive(Clone, Debug, PartialEq, Eq)]
pub struct Origin {
    pub location: String,
}

/// A registered product record.
#[derive(Clone, Debug, PartialEq, Eq)]
pub struct Product {
    pub id: String,
    pub name: String,
    pub description: String,
    pub origin: Origin,
    pub owner: Address,
    pub created_at: u64,
    pub active: bool,
    pub category: String,
    pub tags: Vec<String>,
    pub certifications: Vec<Hash32>,
    pub media_hashes: Vec<Hash32>,
    pub custom: FieldMap,
}

/// What a product record holds, with text as character sequences.
pub struct ProductView {
    pub id: Seq<char>,
    pub name: Seq<char>,
    pub description: Seq<char>,
    pub origin: Seq<char>,
    pub owner: Seq<char>,
    pub created_at: u64,
    pub active: bool,
    pub category: Seq<char>,
    pub tags: Seq<String>,
    pub certifications: Seq<Hash32>,
    pub media_hashes: Seq<Hash32>,
    pub custom: FieldsView,
}

impl View for Product {
    type V = ProductView;

    open spec fn view(&self) -> ProductView {
        ProductView {
            id: self.id@,
            name: self.name@,
            description: self.description@,
            origin: self.origin.location@,
            owner: self.owner@,
            created_at: self.created_at,
            active: self.active,
            category: self.category@,
            tags: self.tags@,
            certifications: self.certifications@,
            media_hashes: self.media_hashes@,
            custom: self.custom@,
        }
    }
}

/// A copy of a list of strings.
pub fn copy_strings(v: &Vec<String>) -> (r: Vec<String>)
    ensures
        r@ == v@,
{
    let mut r: Vec<String> = Vec::new();
    let mut i: usize = 0;
    while i < v.len()
        invariant
            i <= v@.len(),
            r@ =~= v@.subrange(0, i as int),
        decreases v.len() - i,
    {
        r.push(v[i].clone());
        i += 1;
    }
    assert(r@ =~= v@);
    r
}

/// A copy of a list of hashes.
pub fn copy_hashes(v: &Vec<Hash32>) -> (r: Vec<Hash32>)
    ensures
        r@ == v@,
{
    let mut r: Vec<Hash32> = Vec::new();
    let mut i: usize = 0;
    while i < v.len()
        invariant
            i <= v@.len(),
            r@ =~= v@.subrange(0, i as int),
        decreases v.len() - i,
    {
        let h: Hash32 = v[i];
        r.push(h);
        i += 1;
    }
    assert(r@ =~= v@);
    r
}

impl Product {
    /// A copy of this record.
    pub fn duplicate(&self) -> (r: Product)
        ensures
            r@ == self@,
    {
        Product {
            id: self.id.clone(),
            name: self.name.clone(),
            description: self.description.clone(),
            origin: Origin { location: self.origin.location.clone() },
            owner: self.owner.duplicate(),
            created_at: self.created_at,
            active: self.active,
            category: self.category.clone(),
            tags: copy_strings(&self.tags),
            certifications: copy_hashes(&self.certifications),
            media_hashes: copy_hashes(&self.media_hashes),
            custom: self.custom.duplicate(),
        }
    }
}

/// An immutable fact appended against a product.
#[derive(Clone, Debug, PartialEq, Eq)]
pub struct TrackingEvent {
    pub event_id: u64,
    pub product_id: String,
    pub actor: Address,
    pub timestamp: u64,
    pub event_type: String,
    pub location: String,
    pub data_hash: Hash32,
    pub note: String,
    pub metadata: FieldMap,
}

/// What an event holds, with text as character sequences.
pub struct EventView {
    pub event_id: u64,
    pub product_id: Seq<char>,
    pub actor: Seq<char>,
    pub timestamp: u64,
    pub event_type: Seq<char>,
    pub location: Seq<char>,
    pub data_hash: Hash32,
    pub note: Seq<char>,
    pub metadata: FieldsView,
}

impl View for TrackingEvent {
    type V = EventView;

    open spec fn view(&self) -> EventView {
        EventView {
            event_id: self.event_id,
            product_id: self.product_id@,
            actor: self.actor@,
            timestamp: self.timestamp,
            event_type: self.event_type@,
            location: self.location@,
            data_hash: self.data_hash,
            note: self.note@,
            metadata: self.metadata@,
        }
    }
}

impl TrackingEvent {
    /// A copy of this event.
    pub fn duplicate(&self) -> (r: TrackingEvent)
        ensures
            r@ == self@,
    {
        TrackingEvent {
            event_id: self.event_id,
            product_id: self.product_id.clone(),
            actor: self.actor.duplicate(),
            timestamp: self.timestamp,
            event_type: self.event_type.clone(),
            location: self.location.clone(),
            data_hash: self.data_hash,
            note: self.note.clone(),
            metadata: self.metadata.duplicate(),
        }
    }
}

/// One page of a query over a product's events.
#[derive(Clone, Debug, PartialEq, Eq)]
pub struct EventPage {
    pub events: Vec<TrackingEvent>,
    /// Size of the whole filtered population, not of this page.
    pub total_count: u64,
    /// True when events of the population follow this page.
    pub has_more: bool,
}

/// Criteria for selecting events. A field at its sentinel value takes part in
/// no comparison: an empty `event_type` or `location`, a `start_time` of zero,
/// an `end_time` of `u64::MAX`.
#[derive(Clone, Debug, PartialEq, Eq)]
pub struct EventFilter {
    pub event_type: String,
    pub start_time: u64,
    pub end_time: u64,
    pub location: String,
}

/// Counts of products.
#[derive(Clone, Copy, Debug, PartialEq, Eq)]
pub struct ProductStats {
    pub total_products: u64,
    pub active_products: u64,
}

/// The kinds of step in a supply chain.
#[derive(Clone, Copy, Debug, PartialEq, Eq)]
pub enum EventType {
    Harvest,
    Processing,
    Packaging,
    Shipping,
    Receiving,
    QualityCheck,
}

/// The fields of a product to register.
#[derive(Clone, Debug, PartialEq, Eq)]
pub struct ProductInput {
    pub id: String,
    pub name: String,
    pub description: String,
    pub origin_location: String,
    pub category: String,
    pub tags: Vec<String>,
    pub certifications: Vec<Hash32>,
    pub media_hashes: Vec<Hash32>,
    pub custom: FieldMap,
}

/// The fields of an event to append.
#[derive(Clone, Debug, PartialEq, Eq)]
pub struct EventInput {
    pub product_id: String,
    pub event_type: String,
    pub location: String,
    pub data_hash: Hash32,
    pub note: String,
    pub metadata: FieldMap,
}

} // verus!

use chain_logistics::fields::FieldMap;
use chain_logistics::ledger::ChainLogisticsContract;
use chain_logistics::model::{Authorization, MAX_BATCH};
use chain_logistics::types::{Address, EventFilter, EventInput, Hash32, ProductInput};
use chain_logistics::validation::{max_len, non_empty, str_len};
use chain_logistics::Error;

fn s(v: &str) -> String {
    String::from(v)
}

fn addr(key: &str) -> Address {
    Address { key: s(key) }
}

const H: Hash32 = [7; 32];

fn input(id: &str) -> ProductInput {
    ProductInput {
        id: s(id),
        name: s("Name"),
        description: s("Description"),
        origin_location: s("Origin"),
        category: s("Category"),
        tags: vec![s("organic")],
        certifications: vec![H],
        media_hashes: Vec::new(),
        custom: FieldMap::new(),
    }
}

fn register(l: &mut ChainLogisticsContract, owner: &Address, inp: ProductInput, now: u64) -> Result<(), Error> {
    l.register_product(
        owner.clone(),
        inp.id,
        inp.name,
        inp.description,
        inp.origin_location,
        inp.category,
        inp.tags,
        inp.certifications,
        inp.media_hashes,
        inp.custom,
        now,
    )
    .map(|_| ())
}

fn append(l: &mut ChainLogisticsContract, actor: &Address, id: &str, event_type: &str, now: u64) -> Result<u64, Error> {
    l.add_tracking_event(actor, &s(id), s(event_type), s("Somewhere"), H, s("note"), FieldMap::new(), now)
}

#[test]
fn register_stores_all_fields() {
    let mut l = ChainLogisticsContract::new();
    let a = addr("A");
    let mut custom = FieldMap::new();
    custom.set(s("grade"), s("1"));
    let p = l
        .register_product(
            a.clone(),
            s("LOT-1"),
            s("Beans"),
            s("Fine beans"),
            s("Sidama"),
            s("Coffee"),
            vec![s("organic"), s("fair")],
            vec![H],
            vec![H, H],
            custom,
            42,
        )
        .unwrap();
    assert_eq!(p.created_at, 42);
    assert_eq!(p.origin.location, s("Sidama"));
    assert_eq!(p.tags, vec![s("organic"), s("fair")]);
    assert_eq!(p.media_hashes.len(), 2);
    assert_eq!(p.custom.get(&s("grade")), Some(s("1")));
    let stored = l.get_product(&s("LOT-1")).unwrap();
    assert_eq!(stored, p);
    assert_eq!(l.get_product_event_ids(&s("LOT-1")), Ok(Vec::new()));
}

#[test]
fn second_registration_of_an_id_fails_whatever_the_fields() {
    let mut l = ChainLogisticsContract::new();
    let a = addr("A");
    register(&mut l, &a, input("X"), 0).unwrap();
    let mut bad = input("X");
    bad.name = s("");
    assert_eq!(register(&mut l, &addr("B"), bad, 5), Err(Error::ProductAlreadyExists));
    assert_eq!(register(&mut l, &a, input("X"), 0), Err(Error::ProductAlreadyExists));
    assert_eq!(l.get_product(&s("X")).unwrap().owner, a);
}

#[test]
fn event_ids_increase_across_products() {
    let mut l = ChainLogisticsContract::new();
    let a = addr("A");
    register(&mut l, &a, input("LOT-1"), 0).unwrap();
    register(&mut l, &a, input("LOT-2"), 0).unwrap();
    let e1 = append(&mut l, &a, "LOT-1", "HARVEST", 1).unwrap();
    let e2 = append(&mut l, &a, "LOT-2", "HARVEST", 2).unwrap();
    let e3 = append(&mut l, &a, "LOT-1", "SHIP", 3).unwrap();
    assert_eq!((e1, e2, e3), (1, 2, 3));
    let batch = l
        .add_tracking_events_batch(
            &a,
            vec![
                EventInput {
                    product_id: s("LOT-2"),
                    event_type: s("SHIP"),
                    location: s("Port"),
                    data_hash: H,
                    note: s(""),
                    metadata: FieldMap::new(),
                },
                EventInput {
                    product_id: s("LOT-1"),
                    event_type: s("RECEIVE"),
                    location: s("Store"),
                    data_hash: H,
                    note: s(""),
                    metadata: FieldMap::new(),
                },
            ],
            4,
        )
        .unwrap();
    assert_eq!(batch, vec![4, 5]);
    assert_eq!(append(&mut l, &a, "LOT-2", "X", 5), Ok(6));
    assert_eq!(l.get_product_event_ids(&s("LOT-1")), Ok(vec![1, 3, 5]));
    assert_eq!(l.get_event(5).unwrap().location, s("Store"));
}

#[test]
fn authorization_follows_the_allow_list() {
    let mut l = ChainLogisticsContract::new();
    let a = addr("A");
    let b = addr("B");
    register(&mut l, &a, input("P"), 0).unwrap();
    assert_eq!(l.is_authorized(&s("P"), &a), Ok(true));
    assert_eq!(l.is_authorized(&s("P"), &b), Ok(false));
    assert_eq!(append(&mut l, &b, "P", "T", 0), Err(Error::Unauthorized));
    assert_eq!(l.add_authorized_actor(&b, &s("P"), &b), Err(Error::Unauthorized));
    l.add_authorized_actor(&a, &s("P"), &b).unwrap();
    assert_eq!(l.is_authorized(&s("P"), &b), Ok(true));
    assert!(append(&mut l, &b, "P", "T", 0).is_ok());
    l.remove_authorized_actor(&a, &s("P"), &b).unwrap();
    assert_eq!(append(&mut l, &b, "P", "T", 0), Err(Error::Unauthorized));
    // removing an actor without an edge is no error
    l.remove_authorized_actor(&a, &s("P"), &addr("C")).unwrap();
    // the owner cannot be revoked
    l.remove_authorized_actor(&a, &s("P"), &a).unwrap();
    assert!(append(&mut l, &a, "P", "T", 0).is_ok());
    assert_eq!(l.is_authorized(&s("missing"), &a), Err(Error::ProductNotFound));
}

#[test]
fn inactive_products_refuse_events_until_reactivated() {
    let mut l = ChainLogisticsContract::new();
    let a = addr("A");
    let b = addr("B");
    register(&mut l, &a, input("P"), 0).unwrap();
    l.add_authorized_actor(&a, &s("P"), &b).unwrap();
    assert_eq!(l.set_product_active(&b, &s("P"), false), Err(Error::Unauthorized));
    l.set_product_active(&a, &s("P"), false).unwrap();
    assert_eq!(append(&mut l, &a, "P", "T", 0), Err(Error::InvalidInput));
    assert_eq!(append(&mut l, &b, "P", "T", 0), Err(Error::InvalidInput));
    assert_eq!(l.get_event_count(&s("P")), Ok(0));
    l.set_product_active(&a, &s("P"), true).unwrap();
    assert_eq!(append(&mut l, &a, "P", "T", 0), Ok(1));
    assert_eq!(append(&mut l, &b, "P", "T", 0), Ok(2));
}

#[test]
fn pagination_sizes_and_continuation() {
    let mut l = ChainLogisticsContract::new();
    let a = addr("A");
    register(&mut l, &a, input("P"), 0).unwrap();
    for i in 0..7u64 {
        append(&mut l, &a, "P", if i % 2 == 0 { "EVEN" } else { "ODD" }, i * 10).unwrap();
    }
    let p = l.get_product_events(&s("P"), 2, 3).unwrap();
    assert_eq!(p.events.iter().map(|e| e.event_id).collect::<Vec<_>>(), vec![3, 4, 5]);
    assert!(p.has_more);
    assert_eq!(p.total_count, 7);
    let p = l.get_product_events(&s("P"), 5, 100).unwrap();
    assert_eq!(p.events.len(), 2);
    assert!(!p.has_more);
    let p = l.get_product_events(&s("P"), 7, 1).unwrap();
    assert_eq!(p.events.len(), 0);
    assert!(!p.has_more);
    let p = l.get_product_events(&s("P"), u64::MAX, u64::MAX).unwrap();
    assert_eq!(p.events.len(), 0);
    assert!(!p.has_more);
    let p = l.get_product_events(&s("P"), 0, 0).unwrap();
    assert_eq!(p.events.len(), 0);
    assert!(p.has_more);
    let p = l.get_events_by_type(&s("P"), &s("EVEN"), 1, 2).unwrap();
    assert_eq!(p.events.iter().map(|e| e.event_id).collect::<Vec<_>>(), vec![3, 5]);
    assert_eq!(p.total_count, 4);
    assert!(p.has_more);
    let p = l.get_events_by_time_range(&s("P"), 15, 45, 1, 10).unwrap();
    assert_eq!(p.events.iter().map(|e| e.timestamp).collect::<Vec<_>>(), vec![30, 40]);
    assert_eq!(p.total_count, 3);
    assert!(!p.has_more);
    let f = EventFilter { event_type: s("ODD"), start_time: 20, end_time: u64::MAX, location: s("") };
    let p = l.get_filtered_events(&s("P"), &f, 0, 10).unwrap();
    assert_eq!(p.events.iter().map(|e| e.event_id).collect::<Vec<_>>(), vec![4, 6]);
    let f = EventFilter { event_type: s(""), start_time: 0, end_time: 10, location: s("Elsewhere") };
    assert_eq!(l.get_filtered_events(&s("P"), &f, 0, 10).unwrap().total_count, 0);
    assert_eq!(l.get_product_events(&s("missing"), 0, 1), Err(Error::ProductNotFound));
}

#[test]
fn register_batch_is_all_or_nothing() {
    let mut l = ChainLogisticsContract::new();
    let a = addr("A");
    let mut bad = input("B3");
    bad.category = s("");
    let r = l.register_batch(&a, vec![input("B1"), input("B2"), bad, input("B4")], 0);
    assert_eq!(r, Err(Error::InvalidCategory));
    for id in ["B1", "B2", "B3", "B4"] {
        assert_eq!(l.get_product(&s(id)), Err(Error::ProductNotFound));
    }
    let r = l.register_batch(&a, vec![input("B1"), input("B2"), input("B1")], 0);
    assert_eq!(r, Err(Error::DuplicateInBatch));
    assert_eq!(l.get_product(&s("B1")), Err(Error::ProductNotFound));
    assert_eq!(l.register_batch(&a, Vec::new(), 0), Err(Error::BatchEmpty));
    let many: Vec<ProductInput> = (0..MAX_BATCH + 1).map(|i| input(&format!("M{}", i))).collect();
    assert_eq!(l.register_batch(&a, many, 0), Err(Error::BatchTooLarge));
    let ok = l.register_batch(&a, vec![input("B1"), input("B2")], 9).unwrap();
    assert_eq!(ok.iter().map(|p| p.id.clone()).collect::<Vec<_>>(), vec![s("B1"), s("B2")]);
    assert_eq!(l.get_product(&s("B2")).unwrap().created_at, 9);
    assert_eq!(l.register_batch(&a, vec![input("B9"), input("B2")], 0), Err(Error::ProductAlreadyExists));
    assert_eq!(l.get_product(&s("B9")), Err(Error::ProductNotFound));
}

#[test]
fn event_batch_is_all_or_nothing() {
    let mut l = ChainLogisticsContract::new();
    let a = addr("A");
    register(&mut l, &a, input("P"), 0).unwrap();
    let ev = |pid: &str| EventInput {
        product_id: s(pid),
        event_type: s("T"),
        location: s("L"),
        data_hash: H,
        note: s(""),
        metadata: FieldMap::new(),
    };
    assert_eq!(l.add_tracking_events_batch(&a, vec![ev("P"), ev("Q")], 0), Err(Error::ProductNotFound));
    assert_eq!(l.add_tracking_events_batch(&addr("B"), vec![ev("P")], 0), Err(Error::Unauthorized));
    assert_eq!(l.add_tracking_events_batch(&a, Vec::new(), 0), Err(Error::BatchEmpty));
    assert_eq!(l.get_event_count(&s("P")), Ok(0));
    assert_eq!(l.add_tracking_events_batch(&a, vec![ev("P"), ev("P")], 0), Ok(vec![1, 2]));
    assert_eq!(l.get_event_count_by_type(&s("P"), &s("T")), Ok(2));
}

#[test]
fn field_errors_come_in_order() {
    let mut l = ChainLogisticsContract::new();
    let a = addr("A");
    let long = |n: usize| "x".repeat(n);
    let cases: Vec<(Box<dyn Fn(&mut ProductInput)>, Error)> = vec![
        (Box::new(|i| i.id = long(65)), Error::ProductIdTooLong),
        (Box::new(|i| i.name = s("")), Error::InvalidProductName),
        (Box::new(|i| i.name = long(129)), Error::ProductNameTooLong),
        (Box::new(|i| i.origin_location = long(257)), Error::OriginTooLong),
        (Box::new(|i| i.category = long(65)), Error::CategoryTooLong),
        (Box::new(|i| i.description = long(2049)), Error::DescriptionTooLong),
        (Box::new(|i| i.tags = vec![s("t"); 21]), Error::TooManyTags),
        (Box::new(|i| i.tags = vec![s("ok"), long(65)]), Error::TagTooLong),
        (Box::new(|i| i.certifications = vec![H; 51]), Error::TooManyCertifications),
        (Box::new(|i| i.media_hashes = vec![H; 51]), Error::TooManyMediaHashes),
        (
            Box::new(|i| {
                for k in 0..21 {
                    i.custom.set(format!("k{}", k), s("v"));
                }
            }),
            Error::TooManyCustomFields,
        ),
        (Box::new(|i| i.custom.set(s("k"), long(513))), Error::CustomFieldValueTooLong),
        (Box::new(|i| i.name = s("")), Error::InvalidProductName),
    ];
    for (change, expected) in cases {
        let mut inp = input("E");
        change(&mut inp);
        assert_eq!(register(&mut l, &a, inp, 0), Err(expected));
    }
    let mut inp = input("E");
    inp.id = long(64);
    inp.description = s("");
    inp.tags = vec![long(64); 20];
    assert!(register(&mut l, &a, inp, 0).is_ok());
    // two-byte characters count as two bytes
    let mut inp = input("F");
    inp.category = "é".repeat(33);
    assert_eq!(register(&mut l, &a, inp, 0), Err(Error::CategoryTooLong));
}

#[test]
fn event_metadata_limits() {
    let mut l = ChainLogisticsContract::new();
    let a = addr("A");
    register(&mut l, &a, input("P"), 0).unwrap();
    let mut m = FieldMap::new();
    for k in 0..21 {
        m.set(format!("k{}", k), s("v"));
    }
    assert_eq!(
        l.add_tracking_event(&a, &s("P"), s("T"), s(""), H, s(""), m, 0),
        Err(Error::TooManyCustomFields)
    );
    let mut m = FieldMap::new();
    m.set(s("k"), "v".repeat(257));
    assert_eq!(
        l.add_tracking_event(&a, &s("P"), s("T"), s(""), H, s(""), m, 0),
        Err(Error::CustomFieldValueTooLong)
    );
    assert_eq!(append(&mut l, &a, "Q", "T", 0), Err(Error::ProductNotFound));
    assert_eq!(l.get_event(1), Err(Error::EventNotFound));
    assert_eq!(l.get_event(0), Err(Error::EventNotFound));
}

#[test]
fn transfer_keeps_other_authorizations() {
    let mut l = ChainLogisticsContract::new();
    let a = addr("A");
    let b = addr("B");
    let c = addr("C");
    register(&mut l, &a, input("R1"), 0).unwrap();
    l.add_authorized_actor(&a, &s("R1"), &b).unwrap();
    for _ in 0..3 {
        append(&mut l, &b, "R1", "HARVEST", 0).unwrap();
    }
    for _ in 0..2 {
        append(&mut l, &b, "R1", "SHIP", 0).unwrap();
    }
    assert_eq!(l.get_event_count_by_type(&s("R1"), &s("HARVEST")), Ok(3));
    assert_eq!(l.get_events_by_type(&s("R1"), &s("SHIP"), 0, 10).unwrap().total_count, 2);
    assert_eq!(l.transfer_product(&b, &s("R1"), &c), Err(Error::Unauthorized));
    l.transfer_product(&a, &s("R1"), &c).unwrap();
    assert_eq!(l.get_product(&s("R1")).unwrap().owner, c);
    assert!(append(&mut l, &b, "R1", "SHIP", 0).is_ok());
    assert!(append(&mut l, &c, "R1", "SHIP", 0).is_ok());
    assert_eq!(append(&mut l, &a, "R1", "SHIP", 0), Err(Error::Unauthorized));
    assert_eq!(l.add_authorized_actor(&a, &s("R1"), &a), Err(Error::Unauthorized));
}

#[test]
fn field_map_replaces_values() {
    let mut m = FieldMap::new();
    m.set(s("a"), s("1"));
    m.set(s("b"), s("2"));
    m.set(s("a"), s("3"));
    assert_eq!(m.len(), 2);
    assert_eq!(m.get(&s("a")), Some(s("3")));
    assert_eq!(m.get(&s("c")), None);
    assert!(m.values_within(1));
    assert!(!m.values_within(0));
    assert_eq!(m.duplicate(), m);
}

#[test]
fn string_checks_count_bytes() {
    assert_eq!(str_len(&s("héllo")), 6);
    assert!(non_empty(&s("a")));
    assert!(!non_empty(&s("")));
    assert!(max_len(&s("abc"), 3));
    assert!(!max_len(&s("abcd"), 3));
}

#[test]
fn snapshot_and_restore_keep_the_ledger() {
    let mut l = ChainLogisticsContract::new();
    let a = addr("A");
    let b = addr("B");
    register(&mut l, &a, input("LOT-1"), 0).unwrap();
    register(&mut l, &a, input("LOT-2"), 0).unwrap();
    l.add_authorized_actor(&a, &s("LOT-2"), &b).unwrap();
    append(&mut l, &a, "LOT-1", "HARVEST", 1).unwrap();
    append(&mut l, &b, "LOT-2", "SHIP", 2).unwrap();
    append(&mut l, &a, "LOT-1", "SHIP", 3).unwrap();
    let snap = l.snapshot();
    assert_eq!(snap.products.len(), 2);
    assert_eq!(snap.events.len(), 3);
    assert_eq!(snap.edges.len(), 1);
    let mut r = ChainLogisticsContract::restore(&snap).unwrap();
    assert_eq!(r.get_product_event_ids(&s("LOT-1")), Ok(vec![1, 3]));
    assert_eq!(r.get_product_event_ids(&s("LOT-2")), Ok(vec![2]));
    assert_eq!(r.get_event_count_by_type(&s("LOT-1"), &s("SHIP")), Ok(1));
    assert_eq!(r.is_authorized(&s("LOT-2"), &b), Ok(true));
    assert_eq!(r.is_authorized(&s("LOT-1"), &b), Ok(false));
    assert_eq!(r.get_product(&s("LOT-1")), l.get_product(&s("LOT-1")));
    assert_eq!(append(&mut r, &b, "LOT-2", "SHIP", 4), Ok(4));
    assert_eq!(r.total_events(), 4);

    let mut dup = snap.clone();
    dup.products.push(dup.products[0].clone());
    assert!(ChainLogisticsContract::restore(&dup).is_none());
    let mut gap = snap.clone();
    gap.events.remove(1);
    assert!(ChainLogisticsContract::restore(&gap).is_none());
    let mut orphan = snap.clone();
    orphan.products.remove(1);
    assert!(ChainLogisticsContract::restore(&orphan).is_none());
}

#[test]
fn authorization_is_three_way() {
    let mut l = ChainLogisticsContract::new();
    let a = addr("A");
    let b = addr("B");
    register(&mut l, &a, input("P"), 0).unwrap();
    l.add_authorized_actor(&a, &s("P"), &b).unwrap();
    assert_eq!(l.authorization(&s("P"), &a), Ok(Authorization::Owner));
    assert_eq!(l.authorization(&s("P"), &b), Ok(Authorization::AllowListed));
    assert_eq!(l.authorization(&s("P"), &addr("C")), Ok(Authorization::Denied));
    assert_eq!(l.authorization(&s("Q"), &a), Err(Error::ProductNotFound));
}

use chain_logistics::fields::FieldMap;
use chain_logistics::ledger::ChainLogisticsContract;
use chain_logistics::types::{Address, EventFilter, Hash32};
use chain_logistics::Error;

fn s(v: &str) -> String {
    String::from(v)
}

fn addr(key: &str) -> Address {
    Address { key: s(key) }
}

const H: Hash32 = [0; 32];

fn setup_product(client: &mut ChainLogisticsContract, owner: &Address) -> String {
    let id = s("COFFEE-ETH-001");
    client
        .register_product(
            owner.clone(),
            id.clone(),
            s("Organic Coffee Beans"),
            s("Premium single-origin coffee"),
            s("Yirgacheffe, Ethiopia"),
            s("Coffee"),
            Vec::new(),
            Vec::new(),
            Vec::new(),
            FieldMap::new(),
            0,
        )
        .unwrap();
    id
}

fn add_event(
    client: &mut ChainLogisticsContract,
    actor: &Address,
    id: &String,
    event_type: &str,
    location: &str,
    note: &str,
    metadata: FieldMap,
) -> Result<u64, Error> {
    client.add_tracking_event(actor, id, s(event_type), s(location), H, s(note), metadata, 0)
}

#[test]
fn test_register_and_get_product() {
    let mut client = ChainLogisticsContract::new();
    let owner = addr("owner");
    let id = setup_product(&mut client, &owner);

    let p = client.get_product(&id).unwrap();
    assert_eq!(p.id, id);
    assert_eq!(p.owner, owner);
    assert!(p.active);
}

#[test]
fn test_add_tracking_event_with_metadata() {
    let mut client = ChainLogisticsContract::new();
    let owner = addr("owner");
    let id = setup_product(&mut client, &owner);

    let mut metadata = FieldMap::new();
    metadata.set(s("temperature"), s("22.5"));
    metadata.set(s("humidity"), s("65"));
    metadata.set(s("batch"), s("B2024-001"));

    let event_id = add_event(
        &mut client,
        &owner,
        &id,
        "HARVEST",
        "Yirgacheffe Farm",
        "Coffee harvested at peak ripeness",
        metadata,
    )
    .unwrap();

    let event = client.get_event(event_id).unwrap();
    assert_eq!(event.event_id, event_id);
    assert_eq!(event.product_id, id);
    assert_eq!(event.actor, owner);
    assert_eq!(event.event_type, s("HARVEST"));
    assert_eq!(event.location, s("Yirgacheffe Farm"));

    let temp = event.metadata.get(&s("temperature"));
    assert_eq!(temp, Some(s("22.5")));
}

#[test]
fn test_event_pagination() {
    let mut client = ChainLogisticsContract::new();
    let owner = addr("owner");
    let id = setup_product(&mut client, &owner);

    for i in 0..10 {
        let event_type = match i % 3 {
            0 => "HARVEST",
            1 => "PROCESS",
            _ => "SHIP",
        };
        add_event(&mut client, &owner, &id, event_type, "Location", "", FieldMap::new()).unwrap();
    }

    let page1 = client.get_product_events(&id, 0, 5).unwrap();
    assert_eq!(page1.events.len(), 5);
    assert!(page1.has_more);
    assert_eq!(page1.total_count, 10);

    let page2 = client.get_product_events(&id, 5, 5).unwrap();
    assert_eq!(page2.events.len(), 5);
    assert!(!page2.has_more);
    assert_eq!(page2.total_count, 10);

    let page3 = client.get_product_events(&id, 20, 5).unwrap();
    assert_eq!(page3.events.len(), 0);
    assert!(!page3.has_more);
}

#[test]
fn test_filter_events_by_type() {
    let mut client = ChainLogisticsContract::new();
    let owner = addr("owner");
    let id = setup_product(&mut client, &owner);

    for _ in 0..3 {
        add_event(&mut client, &owner, &id, "HARVEST", "Farm", "", FieldMap::new()).unwrap();
    }
    for _ in 0..2 {
        add_event(&mut client, &owner, &id, "SHIP", "Port", "", FieldMap::new()).unwrap();
    }

    let harvest_events = client.get_events_by_type(&id, &s("HARVEST"), 0, 10).unwrap();
    assert_eq!(harvest_events.total_count, 3);
    assert_eq!(harvest_events.events.len(), 3);

    let ship_events = client.get_events_by_type(&id, &s("SHIP"), 0, 10).unwrap();
    assert_eq!(ship_events.total_count, 2);
    assert_eq!(ship_events.events.len(), 2);

    let process_events = client.get_events_by_type(&id, &s("PROCESS"), 0, 10).unwrap();
    assert_eq!(process_events.total_count, 0);
}

#[test]
fn test_filter_events_by_time_range() {
    let mut client = ChainLogisticsContract::new();
    let owner = addr("owner");
    let id = setup_product(&mut client, &owner);

    let current_time: u64 = 0;
    add_event(&mut client, &owner, &id, "HARVEST", "Farm", "", FieldMap::new()).unwrap();
    add_event(&mut client, &owner, &id, "SHIP", "Port", "", FieldMap::new()).unwrap();
    add_event(&mut client, &owner, &id, "RECEIVE", "Warehouse", "", FieldMap::new()).unwrap();

    let events = client.get_events_by_time_range(&id, 0, current_time + 1000, 0, 10).unwrap();
    assert_eq!(events.total_count, 3);
}

#[test]
fn test_flexible_filter() {
    let mut client = ChainLogisticsContract::new();
    let owner = addr("owner");
    let id = setup_product(&mut client, &owner);

    add_event(&mut client, &owner, &id, "HARVEST", "Farm A", "", FieldMap::new()).unwrap();
    add_event(&mut client, &owner, &id, "HARVEST", "Farm B", "", FieldMap::new()).unwrap();
    add_event(&mut client, &owner, &id, "PROCESS", "Mill", "", FieldMap::new()).unwrap();

    let filter = EventFilter { event_type: s(""), start_time: 0, end_time: u64::MAX, location: s("Farm A") };
    let events = client.get_filtered_events(&id, &filter, 0, 10).unwrap();
    assert_eq!(events.total_count, 1);
    assert_eq!(events.events[0].location, s("Farm A"));

    let filter = EventFilter { event_type: s("HARVEST"), start_time: 0, end_time: u64::MAX, location: s("") };
    let events = client.get_filtered_events(&id, &filter, 0, 10).unwrap();
    assert_eq!(events.total_count, 2);
}

#[test]
fn test_authorized_actor_can_add_event() {
    let mut client = ChainLogisticsContract::new();
    let owner = addr("owner");
    let processor = addr("processor");
    let id = setup_product(&mut client, &owner);
    client.add_authorized_actor(&owner, &id, &processor).unwrap();

    let event_id =
        add_event(&mut client, &processor, &id, "PROCESS", "Processing Mill", "Washed and dried", FieldMap::new())
            .unwrap();

    let event = client.get_event(event_id).unwrap();
    assert_eq!(event.actor, processor);
}

#[test]
fn test_unauthorized_actor_cannot_add_event() {
    let mut client = ChainLogisticsContract::new();
    let owner = addr("owner");
    let attacker = addr("attacker");
    let id = setup_product(&mut client, &owner);

    let res = add_event(&mut client, &attacker, &id, "HARVEST", "Farm", "", FieldMap::new());
    match res {
        Err(e) => assert_eq!(e, Error::Unauthorized),
        _ => panic!("expected Unauthorized"),
    }
}

#[test]
fn test_inactive_product_cannot_add_event() {
    let mut client = ChainLogisticsContract::new();
    let owner = addr("owner");
    let id = setup_product(&mut client, &owner);

    client.set_product_active(&owner, &id, false).unwrap();

    let res = add_event(&mut client, &owner, &id, "HARVEST", "Farm", "", FieldMap::new());
    match res {
        Err(e) => assert_eq!(e, Error::InvalidInput),
        _ => panic!("expected InvalidInput"),
    }
}

#[test]
fn test_event_count_functions() {
    let mut client = ChainLogisticsContract::new();
    let owner = addr("owner");
    let id = setup_product(&mut client, &owner);

    for _ in 0..5 {
        add_event(&mut client, &owner, &id, "HARVEST", "Farm", "", FieldMap::new()).unwrap();
    }
    for _ in 0..3 {
        add_event(&mut client, &owner, &id, "SHIP", "Port", "", FieldMap::new()).unwrap();
    }

    assert_eq!(client.get_event_count(&id), Ok(8));
    assert_eq!(client.get_event_count_by_type(&id, &s("HARVEST")), Ok(5));
    assert_eq!(client.get_event_count_by_type(&id, &s("SHIP")), Ok(3));
    assert_eq!(client.get_event_count_by_type(&id, &s("PROCESS")), Ok(0));
}

fn fields(pairs: &[(&str, &str)]) -> FieldMap {
    let mut m = FieldMap::new();
    for (k, v) in pairs {
        m.set(s(k), s(v));
    }
    m
}

#[test]
fn test_coffee_supply_chain_scenario() {
    let mut client = ChainLogisticsContract::new();
    let farmer = addr("farmer");
    let processor = addr("processor");
    let shipper = addr("shipper");
    let id = setup_product(&mut client, &farmer);

    client.add_authorized_actor(&farmer, &id, &processor).unwrap();
    client.add_authorized_actor(&farmer, &id, &shipper).unwrap();

    let metadata = fields(&[("gps", "6.5244,38.4356"), ("farmer_name", "Abebe Bekele")]);
    add_event(&mut client, &farmer, &id, "HARVEST", "Yirgacheffe, Ethiopia", "Hand-picked at peak ripeness", metadata)
        .unwrap();

    let metadata = fields(&[("method", "Washed"), ("grade", "Grade 1")]);
    add_event(&mut client, &processor, &id, "PROCESS", "Addis Mill", "Fermented for 24 hours", metadata).unwrap();

    let metadata = fields(&[("score", "87.5"), ("defects", "0")]);
    add_event(
        &mut client,
        &processor,
        &id,
        "QUALITY",
        "Addis Mill QC Lab",
        "Cupping notes: floral, citrus, chocolate",
        metadata,
    )
    .unwrap();

    let metadata = fields(&[("batch", "B2024-001"), ("weight_kg", "60")]);
    add_event(
        &mut client,
        &processor,
        &id,
        "PACKAGE",
        "Addis Export Facility",
        "Vacuum sealed in GrainPro bags",
        metadata,
    )
    .unwrap();

    let metadata = fields(&[("carrier", "Maersk"), ("container", "MSKU1234567")]);
    add_event(&mut client, &shipper, &id, "SHIP", "Port of Djibouti", "Departed for Hamburg", metadata).unwrap();

    let events = client.get_product_events(&id, 0, 10).unwrap();
    assert_eq!(events.total_count, 5);

    let harvest_events = client.get_events_by_type(&id, &s("HARVEST"), 0, 10).unwrap();
    assert_eq!(harvest_events.total_count, 1);
    let event = &harvest_events.events[0];
    assert_eq!(event.event_type, s("HARVEST"));
    assert_eq!(event.location, s("Yirgacheffe, Ethiopia"));
    let gps = event.metadata.get(&s("gps"));
    assert_eq!(gps, Some(s("6.5244,38.4356")));
}

#[test]
fn test_pharma_cold_chain_scenario() {
    let mut client = ChainLogisticsContract::new();
    let manufacturer = addr("manufacturer");
    let distributor = addr("distributor");

    let id = s("VACCINE-2024-001");
    client
        .register_product(
            manufacturer.clone(),
            id.clone(),
            s("COVID-19 Vaccine Batch A"),
            s("mRNA vaccine requiring cold chain"),
            s("Pfizer Manufacturing, Belgium"),
            s("Pharmaceutical"),
            Vec::new(),
            Vec::new(),
            Vec::new(),
            FieldMap::new(),
            0,
        )
        .unwrap();

    client.add_authorized_actor(&manufacturer, &id, &distributor).unwrap();

    let metadata = fields(&[("batch", "LOT-2024-A-001"), ("formula", "BNT162b2"), ("doses", "10000")]);
    add_event(&mut client, &manufacturer, &id, "MANUFACTURE", "Puurs, Belgium", "Quality controlled batch", metadata)
        .unwrap();

    let temps = ["-75.0", "-74.5", "-75.2", "-74.8"];
    let ts_strings = ["1000", "2000", "3000", "4000"];
    for i in 0..4 {
        let metadata =
            fields(&[("temperature_c", temps[i]), ("sensor_id", "TEMP-001"), ("recorded_at", ts_strings[i])]);
        add_event(&mut client, &manufacturer, &id, "TEMP_CHECK", "Cold Storage A", "Automated temperature log", metadata)
            .unwrap();
    }

    let temp_events = client.get_events_by_type(&id, &s("TEMP_CHECK"), 0, 10).unwrap();
    assert_eq!(temp_events.total_count, 4);

    let current_time: u64 = 0;
    let temp_range = client.get_events_by_time_range(&id, 0, current_time + 1000, 0, 10).unwrap();
    assert_eq!(temp_range.total_count, 5);
}

#[test]
fn test_duplicate_product_rejected() {
    let mut client = ChainLogisticsContract::new();
    let owner = addr("owner");
    let id = setup_product(&mut client, &owner);

    let res = client.register_product(
        owner.clone(),
        id.clone(),
        s("Duplicate"),
        s(""),
        s("Somewhere"),
        s("Other"),
        Vec::new(),
        Vec::new(),
        Vec::new(),
        FieldMap::new(),
        0,
    );
    match res {
        Err(e) => assert_eq!(e, Error::ProductAlreadyExists),
        _ => panic!("expected ProductAlreadyExists"),
    }
}

#[test]
fn test_register_rejects_empty_id() {
    let mut client = ChainLogisticsContract::new();
    let owner = addr("owner");
    let res = client.register_product(
        owner,
        s(""),
        s("Name"),
        s(""),
        s("Origin"),
        s("Category"),
        Vec::new(),
        Vec::new(),
        Vec::new(),
        FieldMap::new(),
        0,
    );
    match res {
        Err(e) => assert_eq!(e, Error::InvalidProductId),
        _ => panic!("expected InvalidProductId"),
    }
}

#[test]
fn test_register_rejects_empty_origin() {
    let mut client = ChainLogisticsContract::new();
    let owner = addr("owner");
    let res = client.register_product(
        owner,
        s("ID-001"),
        s("Name"),
        s(""),
        s(""),
        s("Category"),
        Vec::new(),
        Vec::new(),
        Vec::new(),
        FieldMap::new(),
        0,
    );
    match res {
        Err(e) => assert_eq!(e, Error::InvalidOrigin),
        _ => panic!("expected InvalidOrigin"),
    }
}

#[test]
fn test_transfer_product() {
    let mut client = ChainLogisticsContract::new();
    let owner = addr("owner");
    let new_owner = addr("new_owner");
    let id = setup_product(&mut client, &owner);

    client.transfer_product(&owner, &id, &new_owner).unwrap();

    let p = client.get_product(&id).unwrap();
    assert_eq!(p.owner, new_owner);
}

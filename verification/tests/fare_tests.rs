//! Tests of the fare readers over element trees, the decimal arithmetic,
//! and the prefix extraction.

use transit_model::collection::CollectionWithId;
use transit_model::decimal::{parse_u32, Decimal};
use transit_model::fares::{calculate_direct_price, get_distance, get_prefix};
use transit_model::model::Collections;
use transit_model::objects::{
    Contributor, Date, ObjectType, PerimeterAction, RestrictionType, Ticket, TicketPrice,
    TicketUse, TicketUsePerimeter, TicketUseRestriction,
};
use transit_model::xml::Element;

fn el(name: &str) -> Element {
    Element::new(name.to_string())
}

fn el_text(name: &str, text: &str) -> Element {
    let mut e = el(name);
    e.text = text.to_string();
    e
}

fn with_attr(name: &str, attr: &str, value: &str) -> Element {
    let mut e = el(name);
    e.attributes.push((attr.to_string(), value.to_string()));
    e
}

#[test]
fn extract_prefix() {
    let mut collections = Collections::empty();
    let contributor = Contributor {
        id: String::from("PRE:contributor:id"),
        name: String::new(),
    };
    collections.contributors.push(contributor).unwrap();
    let prefix = get_prefix(&collections).unwrap();
    assert_eq!(prefix, "PRE");
}

#[test]
fn no_prefix() {
    let collections = Collections::empty();
    let prefix = get_prefix(&collections);
    assert_eq!(prefix, None);
}

#[test]
fn extract_ticket() {
    let distance_matrix_element = with_attr("DistanceMatrixElement", "id", "ticket:1");
    let ticket = Ticket::try_from(&distance_matrix_element).unwrap();
    assert_eq!(ticket.id, "ticket:1");
    assert_eq!(ticket.name, "Ticket Origin-Destination");
    assert_eq!(ticket.comment, None);
}

#[test]
#[should_panic(expected = "XmlAttributeNotFound")]
fn no_id() {
    let distance_matrix_element = el("DistanceMatrixElement");
    Ticket::try_from(&distance_matrix_element).unwrap();
}

#[test]
#[should_panic(expected = "NotADistanceMatrixElement")]
fn incorrect_element_type() {
    let ticket = el("ticket");
    Ticket::try_from(&ticket).unwrap();
}

#[test]
fn valid_ticket_price() {
    let ticket_id = String::from("ticket:1");
    let price = Decimal::parse("4.2").unwrap();
    let currency = String::from("EUR");
    let validity_start = Date::new(2019, 2, 7);
    let validity_end = Date::new(2019, 3, 14);
    let ticket_price =
        TicketPrice::try_from(ticket_id, price, currency, (validity_start, validity_end)).unwrap();
    assert_eq!(ticket_price.ticket_id, String::from("ticket:1"));
    assert_eq!(ticket_price.price, Decimal::parse("4.2").unwrap());
    assert_eq!(ticket_price.currency, String::from("EUR"));
    assert_eq!(ticket_price.ticket_validity_start, validity_start);
    assert_eq!(ticket_price.ticket_validity_end, validity_end);
}

#[test]
#[should_panic(expected = "InvalidCurrency")]
fn invalid_currency() {
    let ticket_id = String::from("ticket:1");
    let price = Decimal::parse("4.2").unwrap();
    let currency = String::from("XXX");
    let validity_start = Date::new(2019, 2, 7);
    let validity_end = Date::new(2019, 3, 14);
    TicketPrice::try_from(ticket_id, price, currency, (validity_start, validity_end)).unwrap();
}

#[test]
fn valid_ticket_use() {
    let ticket_id = String::from("ticket:1");
    let ticket_use = TicketUse::from(ticket_id);
    assert_eq!(ticket_use.id, String::from("TU:ticket:1"));
    assert_eq!(ticket_use.ticket_id, String::from("ticket:1"));
    assert_eq!(ticket_use.max_transfers.unwrap(), 0);
    assert_eq!(ticket_use.boarding_time_limit, None);
    assert_eq!(ticket_use.alighting_time_limit, None);
}

#[test]
fn read_valid_ticket_use() {
    let ticket_use_id = String::from("ticket_use:1");
    let line_id = String::from("line:1");
    let ticket_use_perimeter = TicketUsePerimeter::from(ticket_use_id, line_id);
    assert_eq!(ticket_use_perimeter.ticket_use_id, String::from("ticket_use:1"));
    assert_eq!(ticket_use_perimeter.object_id, String::from("line:1"));
    assert_eq!(ticket_use_perimeter.object_type, ObjectType::Line);
    assert_eq!(ticket_use_perimeter.perimeter_action, PerimeterAction::Included);
}

#[test]
fn valid_ticket_use_restriction() {
    let ticket_use_id = String::from("ticket_use:1");
    let origin = String::from("stop_area:1");
    let destination = String::from("stop_area:2");
    let ticket_use_restriction = TicketUseRestriction::from(ticket_use_id, (origin, destination));
    assert_eq!(ticket_use_restriction.ticket_use_id, String::from("ticket_use:1"));
    assert_eq!(ticket_use_restriction.restriction_type, RestrictionType::OriginDestination);
    assert_eq!(ticket_use_restriction.use_origin, String::from("stop_area:1"));
    assert_eq!(ticket_use_restriction.use_destination, String::from("stop_area:2"));
}

fn direct_price_element(amount: &str, units: &str) -> Element {
    let mut dmp = el("DistanceMatrixElementPrice");
    dmp.children.push(el_text("Amount", amount));
    dmp.children.push(el_text("Units", units));
    let mut prices = el("prices");
    prices.children.push(dmp);
    let mut dme = el("DistanceMatrixElement");
    dme.children.push(prices);
    dme
}

#[test]
fn get_direct_price() {
    let distance_element_matrix = direct_price_element("42", "0.5");
    let price = calculate_direct_price(&distance_element_matrix).unwrap();
    assert_eq!(price, Decimal::parse("21.0").unwrap());
}

#[test]
#[should_panic(expected = "XmlChildNotFound")]
fn no_prices() {
    let distance_element_matrix = el("DistanceMatrixElement");
    calculate_direct_price(&distance_element_matrix).unwrap();
}

#[test]
#[should_panic(expected = "XmlChildNotFound")]
fn no_distance_matrix_element_price() {
    let mut distance_element_matrix = el("DistanceMatrixElement");
    distance_element_matrix.children.push(el("prices"));
    calculate_direct_price(&distance_element_matrix).unwrap();
}

#[test]
#[should_panic(expected = "XmlChildNotUnique")]
fn multiple_distance_matrix_element_price() {
    let mut prices = el("prices");
    prices.children.push(el("DistanceMatrixElementPrice"));
    prices.children.push(el("DistanceMatrixElementPrice"));
    let mut distance_element_matrix = el("DistanceMatrixElement");
    distance_element_matrix.children.push(prices);
    calculate_direct_price(&distance_element_matrix).unwrap();
}

#[test]
fn read_get_direct_price() {
    let mut dme = el("DistanceMatrixElement");
    dme.children.push(el_text("Distance", "50"));
    let distance = get_distance(&dme).unwrap();
    assert_eq!(distance, 50);
}

#[test]
#[should_panic(expected = "XmlChildNotFound")]
fn read_no_prices() {
    let dme = el("DistanceMatrixElement");
    get_distance(&dme).unwrap();
}

#[test]
fn only_one_child() {
    let mut root = el("root");
    root.children.push(el("child"));
    let child = root.try_only_child("child").unwrap();
    assert_eq!(child.name, "child");
}

#[test]
#[should_panic(expected = "XmlChildNotFound")]
fn no_child() {
    let root = el("root");
    root.try_only_child("child").unwrap();
}

#[test]
#[should_panic(expected = "XmlChildNotUnique")]
fn no_unique_child() {
    let mut root = el("root");
    root.children.push(el("child"));
    root.children.push(el("child"));
    root.try_only_child("child").unwrap();
}

#[test]
fn decimal_parsing_and_arithmetic() {
    assert_eq!(Decimal::parse("42").unwrap(), Decimal::new(42, 0));
    assert_eq!(Decimal::parse("0.5").unwrap(), Decimal::new(5, 1));
    assert_eq!(Decimal::parse("4.2").unwrap(), Decimal::new(42, 1));
    assert!(Decimal::parse("").is_err());
    assert!(Decimal::parse("4.").is_err());
    assert!(Decimal::parse(".5").is_err());
    assert!(Decimal::parse("4.2.1").is_err());
    assert!(Decimal::parse("4a").is_err());
    let a = Decimal::parse("1.25").unwrap();
    let b = Decimal::parse("0.5").unwrap();
    assert_eq!(a.add(b).unwrap(), Decimal::new(175, 2));
    assert_eq!(a.mul(b).unwrap(), Decimal::new(625, 3));
    assert_eq!(Decimal::new(625, 3).round_dp_half_up(2), Decimal::new(63, 2));
    assert_eq!(Decimal::new(210, 1).normalize().scale(), 0);
    assert_eq!(Decimal::new(210, 1).normalize(), Decimal::new(21, 0));
}

#[test]
fn numbers_parse_exactly() {
    assert_eq!(parse_u32("50").unwrap(), 50);
    assert_eq!(parse_u32("0").unwrap(), 0);
    assert!(parse_u32("").is_err());
    assert!(parse_u32("5x").is_err());
    assert!(parse_u32("99999999999").is_err());
}

#[test]
fn attributes_are_read_in_order() {
    let mut e = el("node");
    e.attributes.push(("ref".to_string(), "first".to_string()));
    e.attributes.push(("ref".to_string(), "second".to_string()));
    assert_eq!(e.try_attribute("ref").unwrap(), "first");
    assert!(e.try_attribute("missing").is_err());
    assert!(e.attribute_is("ref", "first"));
    assert!(!e.attribute_is("ref", "second"));
}

#[test]
fn distance_prices_follow_the_fee_and_unit_rule() {
    // fee 1.00 plus 0.05 per unit over 50 units, rounded to two places.
    let fee = Decimal::parse("1.00").unwrap();
    let unit = Decimal::parse("0.05").unwrap();
    let price = transit_model::fares::distance_price(fee, unit, 50, 2).unwrap();
    assert_eq!(price, Decimal::new(350, 2));
    // A rounding rule coarser than the scales leaves the value exact.
    let price = transit_model::fares::distance_price(fee, unit, 3, 2).unwrap();
    assert_eq!(price, Decimal::new(115, 2));
}

#[test]
fn stores_reject_duplicate_tickets() {
    let t1 = Ticket { id: "t1".to_string(), name: "a".to_string(), comment: None };
    let t2 = Ticket { id: "t1".to_string(), name: "b".to_string(), comment: None };
    assert!(CollectionWithId::new(vec![t1, t2]).is_err());
}

fn line_element(line_id: &str) -> Element {
    let key = el_text("Key", "KV1PlanningLijnNummer");
    let value = el_text("Value", "B42");
    let mut key_value = el("KeyValue");
    key_value.children.push(key);
    key_value.children.push(value);
    let mut key_list = el("KeyList");
    key_list.children.push(key_value);
    let mut line = with_attr("Line", "id", line_id);
    line.children.push(key_list);
    line
}

fn service_frame_with_line(line_id: &str) -> Element {
    let mut lines = el("lines");
    lines.children.push(line_element(line_id));
    let mut service = el("ServiceFrame");
    service.children.push(lines);
    service
}

fn fare_frame_with_refs(refs: &[(&str, &str)]) -> Element {
    let mut trigger = with_attr("ValidityTrigger", "id", "vt:1");
    for (reference, class) in refs {
        let mut tor = with_attr("TriggerObjectRef", "ref", reference);
        tor.attributes.push(("nameOfRefClass".to_string(), class.to_string()));
        trigger.children.push(tor);
    }
    let mut cvc = el("contentValidityConditions");
    cvc.children.push(trigger);
    let mut fare = el("FareFrame");
    fare.children.push(cvc);
    fare
}

#[test]
fn extract_line_id() {
    let service_frame = service_frame_with_line("syn:Line-B42");
    let fare_frame = fare_frame_with_refs(&[("syn:Line-B42", "Line")]);
    let line_id = transit_model::fares::get_line_id(&fare_frame, &service_frame).unwrap();
    assert_eq!(line_id, "B42");
}

#[test]
#[should_panic(expected = "XmlChildNotFound")]
fn no_content_validations() {
    let service_frame = service_frame_with_line("syn:Line-B42");
    let fare_frame = el("FareFrame");
    transit_model::fares::get_line_id(&fare_frame, &service_frame).unwrap();
}

#[test]
#[should_panic(expected = "LineReferenceNotFound")]
fn no_validity_trigger_for_line() {
    let service_frame = service_frame_with_line("syn:Line-B42");
    let fare_frame = fare_frame_with_refs(&[("nw:1", "Network")]);
    transit_model::fares::get_line_id(&fare_frame, &service_frame).unwrap();
}

#[test]
#[should_panic(expected = "LineReferenceNotFound")]
fn no_line_ref() {
    let service_frame = service_frame_with_line("syn:Line-B42");
    let mut tor = el("TriggerObjectRef");
    tor.attributes.push(("nameOfRefClass".to_string(), "Line".to_string()));
    let mut trigger = el("ValidityTrigger");
    trigger.children.push(tor);
    let mut cvc = el("contentValidityConditions");
    cvc.children.push(trigger);
    let mut fare_frame = el("FareFrame");
    fare_frame.children.push(cvc);
    transit_model::fares::get_line_id(&fare_frame, &service_frame).unwrap();
}

#[test]
#[should_panic(expected = "LineReferenceNotFound")]
fn multiple_line_ref() {
    let service_frame = service_frame_with_line("syn:Line-B42");
    let fare_frame =
        fare_frame_with_refs(&[("syn:Line-B42", "Line"), ("syn:Line-Other", "Line")]);
    transit_model::fares::get_line_id(&fare_frame, &service_frame).unwrap();
}

#[test]
#[should_panic(expected = "XmlChildNotFound")]
fn no_lines() {
    let service_frame = el("ServiceFrame");
    let fare_frame = fare_frame_with_refs(&[("syn:Line-B42", "Line")]);
    transit_model::fares::get_line_id(&fare_frame, &service_frame).unwrap();
}

#[test]
#[should_panic(expected = "LineNotFound")]
fn no_line() {
    let service_frame = service_frame_with_line("OtherID");
    let fare_frame = fare_frame_with_refs(&[("syn:Line-B42", "Line")]);
    transit_model::fares::get_line_id(&fare_frame, &service_frame).unwrap();
}

#[test]
#[should_panic(expected = "LineNotFound")]
fn no_unique_line() {
    let mut service_frame = service_frame_with_line("syn:Line-B42");
    service_frame.children[0].children.push(line_element("syn:Line-B42"));
    let fare_frame = fare_frame_with_refs(&[("syn:Line-B42", "Line")]);
    transit_model::fares::get_line_id(&fare_frame, &service_frame).unwrap();
}

#[test]
fn keylist_values_are_looked_up() {
    let service = service_frame_with_line("syn:Line-B42");
    let line = &service.children[0].children[0];
    let value =
        transit_model::fares::get_value_in_keylist(line, "KV1PlanningLijnNummer").unwrap();
    assert_eq!(value, "B42");
    assert!(transit_model::fares::get_value_in_keylist(line, "other_key").is_err());
}

fn scheduled_stop_point(id: &str, projected: &[&str]) -> Element {
    let mut projections = el("projections");
    for p in projected {
        let mut pp = el("PointProjection");
        pp.children.push(with_attr("ProjectedPointRef", "ref", p));
        projections.children.push(pp);
    }
    let mut ssp = with_attr("ScheduledStopPoint", "id", id);
    ssp.children.push(projections);
    ssp
}

fn od_service_frame() -> Element {
    let mut ssps = el("scheduledStopPoints");
    ssps.children.push(scheduled_stop_point("syn:ssp:1", &["syn:sp:1"]));
    ssps.children.push(scheduled_stop_point("syn:ssp:2", &["syn:sp:2", "syn:sp:3"]));
    let mut sf = el("ServiceFrame");
    sf.children.push(ssps);
    sf
}

fn od_distance_matrix_element() -> Element {
    let mut dme = el("DistanceMatrixElement");
    dme.children.push(el_text("Distance", "50"));
    dme.children.push(with_attr("StartStopPointRef", "ref", "syn:ssp:1"));
    dme.children.push(with_attr("EndStopPointRef", "ref", "syn:ssp:2"));
    dme
}

fn od_collections() -> transit_model::model::Collections {
    let mut collections = transit_model::model::Collections::empty();
    for n in ["1", "2", "3"] {
        let sa = transit_model::objects::StopArea {
            id: format!("NTM:sa:{}", n),
            name: String::new(),
            coord: transit_model::objects::Coord { lon_micro: 0, lat_micro: 0 },
        };
        collections.stop_areas.push(sa).unwrap();
        let sp = transit_model::objects::StopPoint {
            id: format!("NTM:sp:{}", n),
            name: String::new(),
            stop_area_id: format!("NTM:sa:{}", n),
            coord: transit_model::objects::Coord { lon_micro: 0, lat_micro: 0 },
        };
        collections.stop_points.push(sp).unwrap();
    }
    collections
}

#[test]
fn extract_ticket_use_restriction_od() {
    let collections = od_collections();
    let service_frame = od_service_frame();
    let distance_matrix_element = od_distance_matrix_element();
    let ods = transit_model::fares::get_origin_destinations(
        &collections,
        &service_frame,
        &distance_matrix_element,
        "NTM:",
    )
    .unwrap();
    assert_eq!(ods.len(), 2);
    assert_eq!(ods[0].0, "NTM:sa:1");
    assert_eq!(ods[0].1, "NTM:sa:2");
    assert_eq!(ods[1].0, "NTM:sa:1");
    assert_eq!(ods[1].1, "NTM:sa:3");
}

#[test]
#[should_panic(expected = "XmlChildNotFound")]
fn no_start_stop_point_ref() {
    let collections = od_collections();
    let service_frame = od_service_frame();
    let mut dme = el("DistanceMatrixElement");
    dme.children.push(el_text("Distance", "50"));
    dme.children.push(with_attr("EndStopPointRef", "ref", "syn:ssp:2"));
    transit_model::fares::get_origin_destinations(&collections, &service_frame, &dme, "NTM:")
        .unwrap();
}

#[test]
#[should_panic(expected = "XmlAttributeNotFound")]
fn no_start_stop_point_ref_reference() {
    let collections = od_collections();
    let service_frame = od_service_frame();
    let mut dme = el("DistanceMatrixElement");
    dme.children.push(el_text("Distance", "50"));
    dme.children.push(el("StartStopPointRef"));
    dme.children.push(with_attr("EndStopPointRef", "ref", "syn:ssp:2"));
    transit_model::fares::get_origin_destinations(&collections, &service_frame, &dme, "NTM:")
        .unwrap();
}

#[test]
#[should_panic(expected = "XmlChildNotFound")]
fn no_scheduled_stop_points() {
    let collections = od_collections();
    let service_frame = el("ServiceFrame");
    let dme = od_distance_matrix_element();
    transit_model::fares::get_origin_destinations(&collections, &service_frame, &dme, "NTM:")
        .unwrap();
}

#[test]
#[should_panic(expected = "ScheduledStopPointNotFound")]
fn scheduled_stop_point_not_found() {
    let collections = od_collections();
    let mut ssps = el("scheduledStopPoints");
    ssps.children.push(scheduled_stop_point("syn:ssp:1", &["syn:sp:1"]));
    ssps.children.push(with_attr("ScheduledStopPoint", "id", "syn:ssp:42"));
    let mut service_frame = el("ServiceFrame");
    service_frame.children.push(ssps);
    let dme = od_distance_matrix_element();
    transit_model::fares::get_origin_destinations(&collections, &service_frame, &dme, "NTM:")
        .unwrap();
}

#[test]
#[should_panic(expected = "ScheduledStopPointNotFound")]
fn multiple_scheduled_stop_points_found() {
    let collections = od_collections();
    let mut ssps = el("scheduledStopPoints");
    ssps.children.push(with_attr("ScheduledStopPoint", "id", "syn:ssp:1"));
    ssps.children.push(with_attr("ScheduledStopPoint", "id", "syn:ssp:1"));
    let mut service_frame = el("ServiceFrame");
    service_frame.children.push(ssps);
    let dme = od_distance_matrix_element();
    transit_model::fares::get_origin_destinations(&collections, &service_frame, &dme, "NTM:")
        .unwrap();
}

#[test]
#[should_panic(expected = "XmlChildNotFound")]
fn no_projections() {
    let collections = od_collections();
    let mut ssps = el("scheduledStopPoints");
    ssps.children.push(scheduled_stop_point("syn:ssp:1", &["syn:sp:1"]));
    ssps.children.push(with_attr("ScheduledStopPoint", "id", "syn:ssp:2"));
    let mut service_frame = el("ServiceFrame");
    service_frame.children.push(ssps);
    let dme = od_distance_matrix_element();
    transit_model::fares::get_origin_destinations(&collections, &service_frame, &dme, "NTM:")
        .unwrap();
}

#[test]
fn no_point_projection() {
    let collections = od_collections();
    let mut ssps = el("scheduledStopPoints");
    ssps.children.push(scheduled_stop_point("syn:ssp:1", &["syn:sp:1"]));
    ssps.children.push(scheduled_stop_point("syn:ssp:2", &[]));
    let mut service_frame = el("ServiceFrame");
    service_frame.children.push(ssps);
    let dme = od_distance_matrix_element();
    let ods = transit_model::fares::get_origin_destinations(
        &collections,
        &service_frame,
        &dme,
        "NTM:",
    )
    .unwrap();
    assert_eq!(ods.len(), 0);
}

#[test]
fn no_stop_point() {
    let collections = od_collections();
    let mut ssps = el("scheduledStopPoints");
    ssps.children.push(scheduled_stop_point("syn:ssp:1", &["syn:sp:42"]));
    ssps.children.push(scheduled_stop_point("syn:ssp:2", &["syn:sp:2", "syn:sp:3"]));
    let mut service_frame = el("ServiceFrame");
    service_frame.children.push(ssps);
    let dme = od_distance_matrix_element();
    let ods = transit_model::fares::get_origin_destinations(
        &collections,
        &service_frame,
        &dme,
        "NTM:",
    )
    .unwrap();
    assert_eq!(ods.len(), 0);
}

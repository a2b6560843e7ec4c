//! Tests of the stop-area merger: rule validation, distance skipping,
//! reference rewriting and the report.

use transit_model::collection::CollectionWithId;
use transit_model::error::Error;
use transit_model::merge_stop_areas::{merge_stop_areas, MergeRule};
use transit_model::model::{Collections, Model};
use transit_model::objects::{
    Calendar, CommercialMode, Company, Contributor, Coord, Dataset, Date, Line, Network,
    PhysicalMode, Route, StopArea, StopPoint, StopTime, Time, VehicleJourney,
};

fn rule(master: &str, targets: &[&str]) -> MergeRule {
    MergeRule {
        master_id: master.to_string(),
        to_merge_ids: targets.iter().map(|t| t.to_string()).collect(),
    }
}

fn area_at(id: &str, lon_micro: i64, lat_micro: i64) -> StopArea {
    StopArea { id: id.to_string(), name: id.to_string(), coord: Coord { lon_micro, lat_micro } }
}

fn point_in(id: &str, area: &str) -> StopPoint {
    StopPoint {
        id: id.to_string(),
        name: id.to_string(),
        stop_area_id: area.to_string(),
        coord: Coord { lon_micro: 2_300_000, lat_micro: 48_800_000 },
    }
}

/// Five stop areas close together, one stop point in each.
fn merge_collections() -> Collections {
    let mut c = Collections::empty();
    c.contributors = CollectionWithId::new(vec![Contributor {
        id: "c1".to_string(),
        name: "contributor".to_string(),
    }])
    .unwrap();
    c.datasets = CollectionWithId::new(vec![Dataset {
        id: "d1".to_string(),
        contributor_id: "c1".to_string(),
        start_date: Date::new(2018, 1, 1),
        end_date: Date::new(2018, 12, 31),
    }])
    .unwrap();
    c.networks = CollectionWithId::new(vec![Network {
        id: "net1".to_string(),
        name: "network".to_string(),
    }])
    .unwrap();
    c.commercial_modes = CollectionWithId::new(vec![CommercialMode {
        id: "cm1".to_string(),
        name: "Bus".to_string(),
    }])
    .unwrap();
    c.physical_modes = CollectionWithId::new(vec![PhysicalMode {
        id: "Bus".to_string(),
        name: "Bus".to_string(),
    }])
    .unwrap();
    c.companies = CollectionWithId::new(vec![Company {
        id: "comp1".to_string(),
        name: "company".to_string(),
    }])
    .unwrap();
    c.lines = CollectionWithId::new(vec![Line {
        id: "l1".to_string(),
        name: "line".to_string(),
        network_id: "net1".to_string(),
        commercial_mode_id: "cm1".to_string(),
    }])
    .unwrap();
    c.routes = CollectionWithId::new(vec![Route {
        id: "r1".to_string(),
        name: "route".to_string(),
        line_id: "l1".to_string(),
    }])
    .unwrap();
    let base_lon = 2_300_000i64;
    let base_lat = 48_800_000i64;
    c.stop_areas = CollectionWithId::new(vec![
        area_at("SA:01", base_lon, base_lat),
        area_at("SA:02", base_lon + 500, base_lat),
        area_at("SA:04", base_lon, base_lat + 500),
        area_at("SA:05", base_lon + 1_000, base_lat),
        area_at("SA:06", base_lon + 4_000, base_lat),
    ])
    .unwrap();
    c.stop_points = CollectionWithId::new(vec![
        point_in("sp1", "SA:01"),
        point_in("sp2", "SA:02"),
        point_in("sp4", "SA:04"),
        point_in("sp5", "SA:05"),
        point_in("sp6", "SA:06"),
    ])
    .unwrap();
    c.calendars = CollectionWithId::new(vec![Calendar {
        id: "cal1".to_string(),
        dates: vec![Date::new(2018, 6, 1)],
    }])
    .unwrap();
    c.vehicle_journeys = CollectionWithId::new(vec![VehicleJourney {
        id: "vj1".to_string(),
        route_id: "r1".to_string(),
        physical_mode_id: "Bus".to_string(),
        dataset_id: "d1".to_string(),
        service_id: "cal1".to_string(),
        company_id: "comp1".to_string(),
        stop_times: vec![StopTime {
            stop_point_id: "sp2".to_string(),
            sequence: 0,
            arrival_time: Time::new(9, 0, 0),
            departure_time: Time::new(9, 1, 0),
        }],
    }])
    .unwrap();
    c
}

#[test]
fn test_merge_stop_areas_multi_steps() {
    // Two rule sets applied in one run: the first merges two areas into
    // the first master, the second names an area beyond the 200 meter
    // threshold, whose merge is skipped.
    let c = merge_collections();
    let rules = vec![rule("SA:01", &["SA:02", "SA:04"]), rule("SA:05", &["SA:06"])];
    let (merged, report) = merge_stop_areas(c, &rules, 200).unwrap();
    // Exactly three stop areas remain.
    assert_eq!(merged.stop_areas.len(), 3);
    assert!(merged.stop_areas.get(&"SA:01".to_string()).is_some());
    assert!(merged.stop_areas.get(&"SA:05".to_string()).is_some());
    assert!(merged.stop_areas.get(&"SA:06".to_string()).is_some());
    assert!(merged.stop_areas.get(&"SA:02".to_string()).is_none());
    assert!(merged.stop_areas.get(&"SA:04".to_string()).is_none());
    // Every prior stop point reference was rewritten accordingly.
    assert_eq!(merged.stop_points.get(&"sp1".to_string()).unwrap().stop_area_id, "SA:01");
    assert_eq!(merged.stop_points.get(&"sp2".to_string()).unwrap().stop_area_id, "SA:01");
    assert_eq!(merged.stop_points.get(&"sp4".to_string()).unwrap().stop_area_id, "SA:01");
    assert_eq!(merged.stop_points.get(&"sp5".to_string()).unwrap().stop_area_id, "SA:05");
    assert_eq!(merged.stop_points.get(&"sp6".to_string()).unwrap().stop_area_id, "SA:06");
    assert_eq!(report.applied.len(), 2);
    assert_eq!(report.skipped_too_far.len(), 1);
    assert_eq!(report.skipped_too_far[0].merged, "SA:06");
    assert_eq!(report.unmatched.len(), 0);
    // The merged model still validates.
    let model = Model::new(merged).unwrap();
    assert_eq!(model.collections().stop_areas.len(), 3);
}

#[test]
fn merge_rejects_a_target_under_two_masters() {
    let c = merge_collections();
    let rules = vec![rule("SA:01", &["SA:02"]), rule("SA:05", &["SA:02"])];
    match merge_stop_areas(c, &rules, 200) {
        Err(Error::RuleConflict { id, .. }) => assert_eq!(id, "SA:02"),
        _ => panic!("a stop area under two masters must be rejected"),
    }
}

#[test]
fn merge_rejects_a_chained_master() {
    let c = merge_collections();
    let rules = vec![rule("SA:01", &["SA:02"]), rule("SA:02", &["SA:04"])];
    assert!(merge_stop_areas(c, &rules, 200).is_err());
}

#[test]
fn merge_skips_pairs_beyond_the_distance_threshold() {
    let mut c = merge_collections();
    // Move one area roughly eleven kilometers east.
    let mut areas = c.stop_areas.take();
    for a in &mut areas {
        if a.id == "SA:02" {
            a.coord.lon_micro += 150_000;
        }
    }
    c.stop_areas = CollectionWithId::new(areas).unwrap();
    let rules = vec![rule("SA:01", &["SA:02", "SA:04"])];
    let (merged, report) = merge_stop_areas(c, &rules, 200).unwrap();
    assert_eq!(report.applied.len(), 1);
    assert_eq!(report.skipped_too_far.len(), 1);
    assert_eq!(report.skipped_too_far[0].merged, "SA:02");
    // The skipped area survives with its stop point untouched.
    assert!(merged.stop_areas.get(&"SA:02".to_string()).is_some());
    assert_eq!(merged.stop_points.get(&"sp2".to_string()).unwrap().stop_area_id, "SA:02");
}

#[test]
fn merge_reports_unmatched_identifiers() {
    let c = merge_collections();
    let rules = vec![rule("SA:01", &["SA:02", "SA:99"]), rule("SA:77", &["SA:04"])];
    let (_, report) = merge_stop_areas(c, &rules, 200).unwrap();
    assert_eq!(report.applied.len(), 1);
    assert!(report.unmatched.contains(&"SA:99".to_string()));
    assert!(report.unmatched.contains(&"SA:77".to_string()));
}

#[test]
fn merge_leaves_no_reference_to_a_merged_area() {
    let c = merge_collections();
    let rules = vec![rule("SA:01", &["SA:02", "SA:04"]), rule("SA:05", &["SA:06"])];
    let (merged, report) = merge_stop_areas(c, &rules, 200).unwrap();
    for pair in &report.applied {
        assert!(merged.stop_areas.get(&pair.merged).is_none());
        for sp in merged.stop_points.values() {
            assert_ne!(sp.stop_area_id, pair.merged);
        }
        for tr in merged.ticket_use_restrictions.values() {
            assert_ne!(tr.use_origin, pair.merged);
            assert_ne!(tr.use_destination, pair.merged);
        }
    }
}

//! Tests of model construction, correspondence queries, the sanitizer,
//! the validity-period restrictor and the prefixer.

use transit_model::collection::CollectionWithId;
use transit_model::model::{Collections, Model};
use transit_model::objects::{
    Calendar, CommercialMode, Company, Contributor, Coord, Dataset, Date, Frequency, Line, Network,
    PhysicalMode, Route, StopArea, StopPoint, StopTime, Time, Transfer, VehicleJourney,
};
use transit_model::prefix::add_prefix;
use transit_model::schema::ObjectKind;
use transit_model::transform::{get_validity_period, set_dataset_validity_period};

fn date(y: u32, m: u32, d: u32) -> Date {
    Date::new(y, m, d)
}

fn stop_time(sp: &str, seq: u32) -> StopTime {
    StopTime {
        stop_point_id: sp.to_string(),
        sequence: seq,
        arrival_time: Time::new(8, 0, 0),
        departure_time: Time::new(8, 1, 0),
    }
}

fn vehicle_journey(id: &str, route: &str, service: &str, stops: Vec<StopTime>) -> VehicleJourney {
    VehicleJourney {
        id: id.to_string(),
        route_id: route.to_string(),
        physical_mode_id: "Bus".to_string(),
        dataset_id: "d1".to_string(),
        service_id: service.to_string(),
        company_id: "comp1".to_string(),
        stop_times: stops,
    }
}

fn stop_point(id: &str, area: &str) -> StopPoint {
    StopPoint {
        id: id.to_string(),
        name: id.to_string(),
        stop_area_id: area.to_string(),
        coord: Coord { lon_micro: 2_300_000, lat_micro: 48_800_000 },
    }
}

fn stop_area(id: &str) -> StopArea {
    StopArea {
        id: id.to_string(),
        name: id.to_string(),
        coord: Coord { lon_micro: 2_300_000, lat_micro: 48_800_000 },
    }
}

/// A small consistent model: one line with one route and two journeys
/// over two stop areas.
fn small_collections() -> Collections {
    let mut c = Collections::empty();
    c.contributors = CollectionWithId::new(vec![Contributor {
        id: "c1".to_string(),
        name: "contributor".to_string(),
    }])
    .unwrap();
    c.datasets = CollectionWithId::new(vec![Dataset {
        id: "d1".to_string(),
        contributor_id: "c1".to_string(),
        start_date: date(2018, 5, 1),
        end_date: date(2018, 8, 5),
    }])
    .unwrap();
    c.networks = CollectionWithId::new(vec![Network {
        id: "net1".to_string(),
        name: "network".to_string(),
    }])
    .unwrap();
    c.commercial_modes = CollectionWithId::new(vec![CommercialMode {
        id: "cm1".to_string(),
        name: "Bus".to_string(),
    }])
    .unwrap();
    c.physical_modes = CollectionWithId::new(vec![PhysicalMode {
        id: "Bus".to_string(),
        name: "Bus".to_string(),
    }])
    .unwrap();
    c.companies = CollectionWithId::new(vec![Company {
        id: "comp1".to_string(),
        name: "company".to_string(),
    }])
    .unwrap();
    c.lines = CollectionWithId::new(vec![Line {
        id: "l1".to_string(),
        name: "line".to_string(),
        network_id: "net1".to_string(),
        commercial_mode_id: "cm1".to_string(),
    }])
    .unwrap();
    c.routes = CollectionWithId::new(vec![Route {
        id: "r1".to_string(),
        name: "route".to_string(),
        line_id: "l1".to_string(),
    }])
    .unwrap();
    c.stop_areas =
        CollectionWithId::new(vec![stop_area("sa1"), stop_area("sa2")]).unwrap();
    c.stop_points = CollectionWithId::new(vec![
        stop_point("sp1", "sa1"),
        stop_point("sp2", "sa2"),
    ])
    .unwrap();
    c.calendars = CollectionWithId::new(vec![Calendar {
        id: "cal1".to_string(),
        dates: vec![
            date(2018, 5, 1),
            date(2018, 6, 15),
            date(2018, 8, 2),
            date(2018, 8, 5),
        ],
    }])
    .unwrap();
    c.vehicle_journeys = CollectionWithId::new(vec![
        vehicle_journey("vj1", "r1", "cal1", vec![stop_time("sp1", 0), stop_time("sp2", 1)]),
        vehicle_journey("vj2", "r1", "cal1", vec![stop_time("sp2", 0)]),
    ])
    .unwrap();
    c
}

#[test]
fn model_construction_validates_foreign_keys() {
    let model = Model::new(small_collections()).unwrap();
    assert_eq!(model.collections().lines.len(), 1);

    let mut broken = small_collections();
    broken.routes = CollectionWithId::new(vec![Route {
        id: "r1".to_string(),
        name: "route".to_string(),
        line_id: "missing_line".to_string(),
    }])
    .unwrap();
    assert!(Model::new(broken).is_err());
}

#[test]
fn corresponding_projects_across_the_schema() {
    let model = Model::new(small_collections()).unwrap();
    // From the first stop area to its stop points, journeys and line.
    let sas = vec![0usize];
    let sps = model.corresponding(ObjectKind::StopArea, &sas, ObjectKind::StopPoint);
    assert_eq!(sps, vec![0usize]);
    let vjs = model.corresponding(ObjectKind::StopArea, &sas, ObjectKind::VehicleJourney);
    assert_eq!(vjs, vec![0usize]);
    let lines = model.corresponding(ObjectKind::StopArea, &sas, ObjectKind::Line);
    assert_eq!(lines, vec![0usize]);
    // The second stop area is served by both journeys.
    let sas2 = vec![1usize];
    let vjs2 = model.corresponding(ObjectKind::StopArea, &sas2, ObjectKind::VehicleJourney);
    assert_eq!(vjs2, vec![0usize, 1usize]);
}

#[test]
fn corresponding_composes_and_deduplicates() {
    let model = Model::new(small_collections()).unwrap();
    let both = vec![0usize, 1usize];
    // Composing through the intermediate kind equals the direct query.
    let via_sp = model.corresponding(ObjectKind::StopArea, &both, ObjectKind::StopPoint);
    let composed =
        model.corresponding(ObjectKind::StopPoint, &via_sp, ObjectKind::VehicleJourney);
    let direct = model.corresponding(ObjectKind::StopArea, &both, ObjectKind::VehicleJourney);
    assert_eq!(composed, direct);
    // Both journeys serve stop area two; the result holds each handle once.
    assert_eq!(direct, vec![0usize, 1usize]);
    // Repeating the identical call returns the identical result.
    let again = model.corresponding(ObjectKind::StopArea, &both, ObjectKind::VehicleJourney);
    assert_eq!(again, direct);
}

#[test]
fn sanitize_frequencies() {
    let mut collections = Collections::empty();
    let frequency = Frequency {
        vehicle_journey_id: String::from("vehicle_journey_id_which_doesn_t_exist"),
        start_time: Time::new(0, 0, 0),
        end_time: Time::new(0, 0, 0),
        headway_secs: 0,
    };
    collections.frequencies.push(frequency);
    collections.sanitize().unwrap();
    assert_eq!(collections.frequencies.len(), 0);
}

#[test]
fn sanitize_is_idempotent() {
    let mut c = small_collections();
    // A dangling frequency, a dangling transfer and a journey without a
    // calendar are dropped by the first pass.
    c.frequencies.push(Frequency {
        vehicle_journey_id: "nowhere".to_string(),
        start_time: Time::new(6, 0, 0),
        end_time: Time::new(10, 0, 0),
        headway_secs: 600,
    });
    c.transfers.push(Transfer {
        from_stop_id: "sp1".to_string(),
        to_stop_id: "missing_stop".to_string(),
        min_transfer_time: Some(60),
    });
    c.vehicle_journeys
        .push(vehicle_journey("vj3", "r1", "missing_cal", vec![stop_time("sp1", 0)]))
        .unwrap();
    c.sanitize().unwrap();
    let vj_after_one = c.vehicle_journeys.len();
    let fr_after_one = c.frequencies.len();
    let tr_after_one = c.transfers.len();
    assert_eq!(vj_after_one, 2);
    assert_eq!(fr_after_one, 0);
    assert_eq!(tr_after_one, 0);
    c.sanitize().unwrap();
    assert_eq!(c.vehicle_journeys.len(), vj_after_one);
    assert_eq!(c.frequencies.len(), fr_after_one);
    assert_eq!(c.transfers.len(), tr_after_one);
}

#[test]
fn restrict_period_keeps_only_window_dates() {
    let mut c = small_collections();
    c.restrict_period(date(2018, 5, 1), date(2018, 8, 5)).unwrap();
    c.sanitize().unwrap();
    // The whole calendar lies in the window: nothing changes.
    assert_eq!(c.calendars.len(), 1);
    assert_eq!(c.vehicle_journeys.len(), 2);

    let mut c = small_collections();
    c.restrict_period(date(2018, 8, 2), date(2019, 7, 31)).unwrap();
    c.sanitize().unwrap();
    // Only the dates from the second of August survive.
    let cal = c.calendars.get(&"cal1".to_string()).unwrap();
    assert_eq!(cal.dates, vec![date(2018, 8, 2), date(2018, 8, 5)]);
    assert_eq!(c.vehicle_journeys.len(), 2);
}

#[test]
fn restrict_period_removes_emptied_calendars_and_their_journeys() {
    let mut c = small_collections();
    // The window lies beyond every date of the only calendar: it is
    // emptied, removed, and its journeys go with it.
    c.restrict_period(date(2018, 8, 6), date(2019, 7, 31)).unwrap();
    c.sanitize().unwrap();
    assert_eq!(c.calendars.len(), 0);
    assert_eq!(c.vehicle_journeys.len(), 0);
    let model = Model::new(c).unwrap();
    assert_eq!(model.collections().vehicle_journeys.len(), 0);
}

#[test]
fn restrict_period_rejects_a_backward_window() {
    let mut c = small_collections();
    assert!(c.restrict_period(date(2019, 1, 1), date(2018, 1, 1)).is_err());
    // Nothing was touched.
    assert_eq!(c.calendars.len(), 1);
}

#[test]
fn validity_period_spans_all_calendar_dates() {
    let c = small_collections();
    let vp = get_validity_period(&c.calendars).unwrap();
    assert_eq!(vp.start_date, date(2018, 5, 1));
    assert_eq!(vp.end_date, date(2018, 8, 5));

    let empty: CollectionWithId<Calendar> = CollectionWithId::new(vec![]).unwrap();
    assert!(get_validity_period(&empty).is_none());
}

#[test]
fn dataset_validity_period_is_stamped() {
    let mut c = small_collections();
    c.datasets = CollectionWithId::new(vec![Dataset {
        id: "d1".to_string(),
        contributor_id: "c1".to_string(),
        start_date: date(2000, 1, 1),
        end_date: date(2000, 1, 1),
    }])
    .unwrap();
    set_dataset_validity_period(&mut c.datasets, &c.calendars).unwrap();
    let d = c.datasets.get(&"d1".to_string()).unwrap();
    assert_eq!(d.start_date, date(2018, 5, 1));
    assert_eq!(d.end_date, date(2018, 8, 5));
}

#[test]
fn test_read_kv1() {
    // The reading pipeline on in-memory records: configured collections,
    // a prefix for every identifier, and a validated model.
    let mut c = small_collections();
    add_prefix("prefix".to_string(), &mut c).unwrap();
    assert!(c.lines.get(&"prefix:l1".to_string()).is_some());
    assert!(c.stop_areas.get(&"prefix:sa1".to_string()).is_some());
    let vj = c.vehicle_journeys.get(&"prefix:vj1".to_string()).unwrap();
    assert_eq!(vj.route_id, "prefix:r1");
    assert_eq!(vj.service_id, "prefix:cal1");
    assert_eq!(vj.physical_mode_id, "Bus");
    assert_eq!(vj.stop_times[0].stop_point_id, "prefix:sp1");
    // Every foreign key still resolves after prefixing.
    let model = Model::new(c).unwrap();
    assert_eq!(model.collections().vehicle_journeys.len(), 2);
}

#[test]
fn read_kv1_test_read_kv1() {
    // The same pipeline, driven through the configuration assembly.
    let (contributors, mut datasets) = transit_model::read_utils::read_config_collections(None);
    let mut c = small_collections();
    c.contributors = contributors;
    let mut ds = datasets.take();
    ds[0].contributor_id = "default_contributor".to_string();
    let mut vjs = c.vehicle_journeys.take();
    for vj in &mut vjs {
        vj.dataset_id = "default_dataset".to_string();
    }
    c.vehicle_journeys = CollectionWithId::new(vjs).unwrap();
    c.datasets = CollectionWithId::new(ds).unwrap();
    add_prefix("prefix".to_string(), &mut c).unwrap();
    let model = Model::new(c).unwrap();
    assert!(model
        .collections()
        .contributors
        .get(&"prefix:default_contributor".to_string())
        .is_some());
}

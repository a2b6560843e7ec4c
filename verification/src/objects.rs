//! The record kinds of the transit model, with their identifiers, foreign
//! keys, dates, times and coordinates held as plain values.

use vstd::prelude::*;

use crate::collection::WithId;
use crate::decimal::Decimal;

verus! {

/// A calendar date, held as plain year, month and day numbers.
#[derive(PartialEq, Eq, Structural, Clone, Copy, Debug, Hash)]
pub struct Date {
    /// The year.
    pub year: u32,
    /// The month, counted from one.
    pub month: u32,
    /// The day of the month, counted from one.
    pub day: u32,
}

/// A date as one ordered number: later dates get larger keys.
pub open spec fn date_key(d: Date) -> int {
    d.year * 10000 + d.month * 100 + d.day
}

/// Whether `a` is on or before `b`.
pub open spec fn spec_date_le(a: Date, b: Date) -> bool {
    date_key(a) <= date_key(b)
}

impl Date {
    /// Builds a date from its parts.
    pub fn new(year: u32, month: u32, day: u32) -> (r: Date)
        ensures
            r == (Date { year, month, day }),
    {
        Date { year, month, day }
    }

    /// Whether this date is on or before the other, dates ordered by
    /// year, then month, then day.
    pub fn le(&self, other: &Date) -> (r: bool)
        ensures
            r == spec_date_le(*self, *other),
    {
        let a = (self.year as u64) * 10000 + (self.month as u64) * 100 + (self.day as u64);
        let b = (other.year as u64) * 10000 + (other.month as u64) * 100 + (other.day as u64);
        a <= b
    }

    /// Whether this date lies in the closed interval.
    pub fn within(&self, start: &Date, end: &Date) -> (r: bool)
        ensures
            r == (spec_date_le(*start, *self) && spec_date_le(*self, *end)),
    {
        start.le(self) && self.le(end)
    }
}

/// A closed interval of dates.
#[derive(PartialEq, Eq, Structural, Clone, Copy, Debug)]
pub struct ValidityPeriod {
    /// The first covered date.
    pub start_date: Date,
    /// The last covered date.
    pub end_date: Date,
}

/// A time of day, held as seconds since midnight.
#[derive(PartialEq, Eq, Structural, Clone, Copy, Debug)]
pub struct Time {
    /// Seconds since midnight.
    pub secs: u32,
}

impl Time {
    /// Builds a time from hours, minutes and seconds.
    pub fn new(h: u32, m: u32, s: u32) -> (r: Time)
        requires
            h * 3600 + m * 60 + s <= u32::MAX,
        ensures
            r.secs == h * 3600 + m * 60 + s,
    {
        Time { secs: h * 3600 + m * 60 + s }
    }
}

/// A geographic position, in millionths of a degree.
#[derive(PartialEq, Eq, Structural, Clone, Copy, Debug)]
pub struct Coord {
    /// Longitude, in microdegrees.
    pub lon_micro: i64,
    /// Latitude, in microdegrees.
    pub lat_micro: i64,
}

impl Coord {
    /// The origin.
    pub fn zero() -> (r: Coord)
        ensures
            r.lon_micro == 0 && r.lat_micro == 0,
    {
        Coord { lon_micro: 0, lat_micro: 0 }
    }

    /// Whether the coordinate lies on the globe.
    pub open spec fn on_globe(&self) -> bool {
        -180000000 <= self.lon_micro <= 180000000 && -90000000 <= self.lat_micro <= 90000000
    }
}

/// Prepends a prefix to a string.
pub fn prefixed(prefix: &str, s: &String) -> (r: String)
    ensures
        r@ == prefix@ + s@,
{
    prefix.to_owned().concat(s.as_str())
}

/// A data provider.
#[derive(PartialEq, Clone, Debug)]
pub struct Contributor {
    /// The identifier.
    pub id: String,
    /// The display name.
    pub name: String,
}

impl WithId for Contributor {
    open spec fn sid(&self) -> Seq<char> {
        self.id@
    }

    fn id(&self) -> (r: &String) {
        &self.id
    }
}

impl Default for Contributor {
    /// The contributor used when no configuration names one.
    fn default() -> (d: Self)
        ensures
            d.id@ == "default_contributor"@,
            d.name@ == "Default contributor"@,
    {
        Contributor {
            id: "default_contributor".to_owned(),
            name: "Default contributor".to_owned(),
        }
    }
}

/// One delivered set of data, tied to a contributor.
#[derive(PartialEq, Clone, Debug)]
pub struct Dataset {
    /// The identifier.
    pub id: String,
    /// The contributor this set comes from.
    pub contributor_id: String,
    /// The first day the set is valid.
    pub start_date: Date,
    /// The last day the set is valid.
    pub end_date: Date,
}

impl WithId for Dataset {
    open spec fn sid(&self) -> Seq<char> {
        self.id@
    }

    fn id(&self) -> (r: &String) {
        &self.id
    }
}

impl Default for Dataset {
    /// The dataset used when no configuration names one.
    fn default() -> (d: Self)
        ensures
            d.id@ == "default_dataset"@,
            d.contributor_id@ == "default_contributor"@,
            d.start_date == (Date { year: 1970, month: 1, day: 1 }),
            d.end_date == (Date { year: 1970, month: 1, day: 1 }),
    {
        Dataset {
            id: "default_dataset".to_owned(),
            contributor_id: "default_contributor".to_owned(),
            start_date: Date::new(1970, 1, 1),
            end_date: Date::new(1970, 1, 1),
        }
    }
}

/// A transit authority's network.
#[derive(PartialEq, Clone, Debug)]
pub struct Network {
    /// The identifier.
    pub id: String,
    /// The display name.
    pub name: String,
}

impl WithId for Network {
    open spec fn sid(&self) -> Seq<char> {
        self.id@
    }

    fn id(&self) -> (r: &String) {
        &self.id
    }
}

/// A commercial classification of lines.
#[derive(PartialEq, Clone, Debug)]
pub struct CommercialMode {
    /// The identifier.
    pub id: String,
    /// The display name.
    pub name: String,
}

impl WithId for CommercialMode {
    open spec fn sid(&self) -> Seq<char> {
        self.id@
    }

    fn id(&self) -> (r: &String) {
        &self.id
    }
}

/// A physical classification of vehicle journeys.
#[derive(PartialEq, Clone, Debug)]
pub struct PhysicalMode {
    /// The identifier.
    pub id: String,
    /// The display name.
    pub name: String,
}

impl WithId for PhysicalMode {
    open spec fn sid(&self) -> Seq<char> {
        self.id@
    }

    fn id(&self) -> (r: &String) {
        &self.id
    }
}

/// An operating company.
#[derive(PartialEq, Clone, Debug)]
pub struct Company {
    /// The identifier.
    pub id: String,
    /// The display name.
    pub name: String,
}

impl WithId for Company {
    open spec fn sid(&self) -> Seq<char> {
        self.id@
    }

    fn id(&self) -> (r: &String) {
        &self.id
    }
}

/// A commercial line of a network.
#[derive(PartialEq, Clone, Debug)]
pub struct Line {
    /// The identifier.
    pub id: String,
    /// The display name.
    pub name: String,
    /// The network the line belongs to.
    pub network_id: String,
    /// The commercial mode of the line.
    pub commercial_mode_id: String,
}

impl WithId for Line {
    open spec fn sid(&self) -> Seq<char> {
        self.id@
    }

    fn id(&self) -> (r: &String) {
        &self.id
    }
}

/// One direction or variant of a line.
#[derive(PartialEq, Clone, Debug)]
pub struct Route {
    /// The identifier.
    pub id: String,
    /// The display name.
    pub name: String,
    /// The line the route belongs to.
    pub line_id: String,
}

impl WithId for Route {
    open spec fn sid(&self) -> Seq<char> {
        self.id@
    }

    fn id(&self) -> (r: &String) {
        &self.id
    }
}

/// A stop of a vehicle journey at a stop point, owned by its journey and
/// carrying no identifier of its own.
#[derive(PartialEq, Clone, Debug)]
pub struct StopTime {
    /// The stop point served.
    pub stop_point_id: String,
    /// The rank of this stop within the journey.
    pub sequence: u32,
    /// When the vehicle arrives.
    pub arrival_time: Time,
    /// When the vehicle leaves.
    pub departure_time: Time,
}

/// One run of a vehicle along a route on the days of a calendar.
#[derive(PartialEq, Clone, Debug)]
pub struct VehicleJourney {
    /// The identifier.
    pub id: String,
    /// The route followed.
    pub route_id: String,
    /// The physical mode of the vehicle.
    pub physical_mode_id: String,
    /// The dataset the journey comes from.
    pub dataset_id: String,
    /// The calendar naming the days the journey runs.
    pub service_id: String,
    /// The company operating the journey.
    pub company_id: String,
    /// The stops, in sequence order.
    pub stop_times: Vec<StopTime>,
}

impl WithId for VehicleJourney {
    open spec fn sid(&self) -> Seq<char> {
        self.id@
    }

    fn id(&self) -> (r: &String) {
        &self.id
    }
}

/// A place where vehicles stop, inside a stop area.
#[derive(PartialEq, Clone, Debug)]
pub struct StopPoint {
    /// The identifier.
    pub id: String,
    /// The display name.
    pub name: String,
    /// The stop area this point belongs to.
    pub stop_area_id: String,
    /// Where the point lies.
    pub coord: Coord,
}

impl WithId for StopPoint {
    open spec fn sid(&self) -> Seq<char> {
        self.id@
    }

    fn id(&self) -> (r: &String) {
        &self.id
    }
}

impl Default for StopPoint {
    /// A stop point with empty identifiers at the origin.
    fn default() -> (d: Self)
        ensures
            d.id@ == Seq::<char>::empty(),
            d.name@ == Seq::<char>::empty(),
            d.stop_area_id@ == Seq::<char>::empty(),
            d.coord == (Coord { lon_micro: 0, lat_micro: 0 }),
    {
        StopPoint {
            id: String::new(),
            name: String::new(),
            stop_area_id: String::new(),
            coord: Coord::zero(),
        }
    }
}

/// A named group of stop points.
#[derive(PartialEq, Clone, Debug)]
pub struct StopArea {
    /// The identifier.
    pub id: String,
    /// The display name.
    pub name: String,
    /// Where the area lies.
    pub coord: Coord,
}

impl WithId for StopArea {
    open spec fn sid(&self) -> Seq<char> {
        self.id@
    }

    fn id(&self) -> (r: &String) {
        &self.id
    }
}

impl Default for StopArea {
    /// A stop area with an empty identifier at the origin.
    fn default() -> (d: Self)
        ensures
            d.id@ == Seq::<char>::empty(),
            d.name@ == Seq::<char>::empty(),
            d.coord == (Coord { lon_micro: 0, lat_micro: 0 }),
    {
        StopArea { id: String::new(), name: String::new(), coord: Coord::zero() }
    }
}

/// The set of days a service runs.
#[derive(PartialEq, Clone, Debug)]
pub struct Calendar {
    /// The identifier.
    pub id: String,
    /// The days the service runs.
    pub dates: Vec<Date>,
}

impl WithId for Calendar {
    open spec fn sid(&self) -> Seq<char> {
        self.id@
    }

    fn id(&self) -> (r: &String) {
        &self.id
    }
}

/// How a comment is meant.
#[derive(PartialEq, Eq, Structural, Clone, Copy, Debug)]
pub enum CommentType {
    /// Plain information.
    Information,
    /// A note about on-demand transport.
    OnDemandTransport,
}

/// A free-text note attached to other records.
#[derive(PartialEq, Clone, Debug)]
pub struct Comment {
    /// The identifier.
    pub id: String,
    /// The text of the comment.
    pub name: String,
    /// How the comment is meant.
    pub comment_type: CommentType,
}

impl WithId for Comment {
    open spec fn sid(&self) -> Seq<char> {
        self.id@
    }

    fn id(&self) -> (r: &String) {
        &self.id
    }
}

/// Accessibility equipment of a stop.
#[derive(PartialEq, Clone, Debug)]
pub struct Equipment {
    /// The identifier.
    pub id: String,
}

impl WithId for Equipment {
    open spec fn sid(&self) -> Seq<char> {
        self.id@
    }

    fn id(&self) -> (r: &String) {
        &self.id
    }
}

/// A drawn shape.
#[derive(PartialEq, Clone, Debug)]
pub struct Geometry {
    /// The identifier.
    pub id: String,
    /// The shape, as well-known text.
    pub wkt: String,
}

impl WithId for Geometry {
    open spec fn sid(&self) -> Seq<char> {
        self.id@
    }

    fn id(&self) -> (r: &String) {
        &self.id
    }
}

/// A walkable connection between two stop points; no identifier of its
/// own.
#[derive(PartialEq, Clone, Debug)]
pub struct Transfer {
    /// Where the transfer starts.
    pub from_stop_id: String,
    /// Where the transfer ends.
    pub to_stop_id: String,
    /// The shortest possible duration, in seconds.
    pub min_transfer_time: Option<u32>,
}

/// A repeating service pattern of one vehicle journey; no identifier of
/// its own.
#[derive(PartialEq, Clone, Debug)]
pub struct Frequency {
    /// The journey repeated.
    pub vehicle_journey_id: String,
    /// When the repetition starts.
    pub start_time: Time,
    /// When the repetition ends.
    pub end_time: Time,
    /// Seconds between two departures.
    pub headway_secs: u32,
}

/// A purchasable fare product.
#[derive(PartialEq, Clone, Debug)]
pub struct Ticket {
    /// The identifier.
    pub id: String,
    /// The display name.
    pub name: String,
    /// An optional note.
    pub comment: Option<String>,
}

impl WithId for Ticket {
    open spec fn sid(&self) -> Seq<char> {
        self.id@
    }

    fn id(&self) -> (r: &String) {
        &self.id
    }
}

/// How a ticket may be used.
#[derive(PartialEq, Clone, Debug)]
pub struct TicketUse {
    /// The identifier.
    pub id: String,
    /// The ticket this use belongs to.
    pub ticket_id: String,
    /// How many transfers the use allows.
    pub max_transfers: Option<u32>,
    /// Until when boarding is allowed, in seconds.
    pub boarding_time_limit: Option<u32>,
    /// Until when alighting is allowed, in seconds.
    pub alighting_time_limit: Option<u32>,
}

impl WithId for TicketUse {
    open spec fn sid(&self) -> Seq<char> {
        self.id@
    }

    fn id(&self) -> (r: &String) {
        &self.id
    }
}

/// The price of a ticket over a validity period; no identifier of its
/// own.
#[derive(PartialEq, Clone, Debug)]
pub struct TicketPrice {
    /// The ticket priced.
    pub ticket_id: String,
    /// The amount to pay.
    pub price: Decimal,
    /// The ISO 4217 alpha-3 code of the currency.
    pub currency: String,
    /// The first day the price holds.
    pub ticket_validity_start: Date,
    /// The last day the price holds.
    pub ticket_validity_end: Date,
}

/// The kind of record a ticket-use perimeter points at.
#[derive(PartialEq, Eq, Structural, Clone, Copy, Debug)]
pub enum ObjectType {
    /// A commercial line.
    Line,
    /// A network.
    Network,
    /// A stop area.
    StopArea,
}

/// Whether a perimeter entry includes or excludes its object.
#[derive(PartialEq, Eq, Structural, Clone, Copy, Debug)]
pub enum PerimeterAction {
    /// The object belongs to the perimeter.
    Included,
    /// The object is cut out of the perimeter.
    Excluded,
}

/// Where a ticket use is valid; no identifier of its own.
#[derive(PartialEq, Clone, Debug)]
pub struct TicketUsePerimeter {
    /// The ticket use restricted.
    pub ticket_use_id: String,
    /// The kind of the named object.
    pub object_type: ObjectType,
    /// The identifier of the object.
    pub object_id: String,
    /// Whether the object is included or excluded.
    pub perimeter_action: PerimeterAction,
}

/// The shape of a ticket-use restriction.
#[derive(PartialEq, Eq, Structural, Clone, Copy, Debug)]
pub enum RestrictionType {
    /// The use is restricted to one origin and one destination.
    OriginDestination,
}

/// A restriction of a ticket use to an origin and destination pair; no
/// identifier of its own.
#[derive(PartialEq, Clone, Debug)]
pub struct TicketUseRestriction {
    /// The ticket use restricted.
    pub ticket_use_id: String,
    /// The shape of the restriction.
    pub restriction_type: RestrictionType,
    /// The stop area the journey must start in.
    pub use_origin: String,
    /// The stop area the journey must end in.
    pub use_destination: String,
}

} // verus!

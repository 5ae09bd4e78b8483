//! Stops of a route, as the catalog delivers them and as the pipeline uses them.

use vstd::prelude::*;

verus! {

/// The carriageway or terminus branch a stop belongs to.
#[derive(Clone, Copy, Debug, PartialEq, Eq, Structural)]
pub enum Direction {
    Down,
    Up,
}

impl Direction {
    /// The direction that a directional code stands for.
    pub open spec fn of_code(code: int) -> Direction {
        if code == 1 {
            Direction::Up
        } else {
            Direction::Down
        }
    }

    /// The directional code of a direction.
    pub open spec fn spec_code(self) -> int {
        match self {
            Direction::Down => 0,
            Direction::Up => 1,
        }
    }

    /// Reads a directional code: `1` is up, every other code is down.
    pub fn from_code(code: i64) -> (d: Direction)
        ensures
            d == Direction::of_code(code as int),
    {
        if code == 1 {
            Direction::Up
        } else {
            Direction::Down
        }
    }

    /// The directional code written to artifacts: `0` for down, `1` for up.
    pub fn code(self) -> (c: i64)
        ensures
            c == self.spec_code(),
            Direction::of_code(c as int) == self,
    {
        match self {
            Direction::Down => 0,
            Direction::Up => 1,
        }
    }
}

/// A position in millionths of a degree.
#[derive(Clone, Copy, Debug, PartialEq, Eq, Structural)]
pub struct Coord {
    pub lon: i64,
    pub lat: i64,
}

/// One stop record of the catalog, with every field in its canonical type.
#[derive(Debug, PartialEq, Eq)]
pub struct RawStop {
    pub node_id: String,
    pub node_nm: String,
    pub node_ord: i64,
    pub node_no: String,
    /// Latitude in millionths of a degree.
    pub gps_lat: i64,
    /// Longitude in millionths of a degree.
    pub gps_long: i64,
    pub up_down_cd: i64,
}

/// A stop of a route.
#[derive(Debug, PartialEq, Eq)]
pub struct Stop {
    pub node_id: String,
    pub name: String,
    /// The authoritative sequence key within the route.
    pub order: i64,
    pub code: String,
    /// Latitude in millionths of a degree.
    pub latitude: i64,
    /// Longitude in millionths of a degree.
    pub longitude: i64,
    pub direction: Direction,
}

/// What a stop record holds, with its texts as character sequences.
pub ghost struct RawStopView {
    pub node_id: Seq<char>,
    pub node_nm: Seq<char>,
    pub node_ord: int,
    pub node_no: Seq<char>,
    pub gps_lat: int,
    pub gps_long: int,
    pub up_down_cd: int,
}

/// What a stop holds, with its texts as character sequences.
pub ghost struct StopView {
    pub node_id: Seq<char>,
    pub name: Seq<char>,
    pub order: int,
    pub code: Seq<char>,
    pub latitude: int,
    pub longitude: int,
    pub direction: Direction,
}

impl View for RawStop {
    type V = RawStopView;

    open spec fn view(&self) -> RawStopView {
        RawStopView {
            node_id: self.node_id@,
            node_nm: self.node_nm@,
            node_ord: self.node_ord as int,
            node_no: self.node_no@,
            gps_lat: self.gps_lat as int,
            gps_long: self.gps_long as int,
            up_down_cd: self.up_down_cd as int,
        }
    }
}

impl View for Stop {
    type V = StopView;

    open spec fn view(&self) -> StopView {
        StopView {
            node_id: self.node_id@,
            name: self.name@,
            order: self.order as int,
            code: self.code@,
            latitude: self.latitude as int,
            longitude: self.longitude as int,
            direction: self.direction,
        }
    }
}

impl RawStopView {
    /// The stop that this record describes.
    pub open spec fn typed(self) -> StopView {
        StopView {
            node_id: self.node_id,
            name: self.node_nm,
            order: self.node_ord,
            code: self.node_no,
            latitude: self.gps_lat,
            longitude: self.gps_long,
            direction: Direction::of_code(self.up_down_cd),
        }
    }
}

impl StopView {
    /// The position of the stop.
    pub open spec fn position(self) -> Coord {
        Coord { lon: self.longitude as i64, lat: self.latitude as i64 }
    }

    /// The record under which this stop is written to a raw stop file.
    pub open spec fn raw(self) -> RawStopView {
        RawStopView {
            node_id: self.node_id,
            node_nm: self.name,
            node_ord: self.order,
            node_no: self.code,
            gps_lat: self.latitude,
            gps_long: self.longitude,
            up_down_cd: self.direction.spec_code(),
        }
    }
}

/// The views of a sequence of stops, in the same order.
pub open spec fn stop_views(stops: Seq<Stop>) -> Seq<StopView> {
    stops.map_values(|s: Stop| s@)
}

/// The views of a sequence of stop records, in the same order.
pub open spec fn raw_views(records: Seq<RawStop>) -> Seq<RawStopView> {
    records.map_values(|r: RawStop| r@)
}

impl Clone for RawStop {
    fn clone(&self) -> (r: Self)
        ensures
            r == *self,
    {
        RawStop {
            node_id: self.node_id.clone(),
            node_nm: self.node_nm.clone(),
            node_ord: self.node_ord,
            node_no: self.node_no.clone(),
            gps_lat: self.gps_lat,
            gps_long: self.gps_long,
            up_down_cd: self.up_down_cd,
        }
    }
}

impl Clone for Stop {
    fn clone(&self) -> (r: Self)
        ensures
            r == *self,
    {
        Stop {
            node_id: self.node_id.clone(),
            name: self.name.clone(),
            order: self.order,
            code: self.code.clone(),
            latitude: self.latitude,
            longitude: self.longitude,
            direction: self.direction,
        }
    }
}

impl Stop {
    /// Gives a stop record its typed form.
    pub fn from_raw(raw: RawStop) -> (s: Stop)
        ensures
            s@ == raw@.typed(),
    {
        let direction = Direction::from_code(raw.up_down_cd);
        Stop {
            node_id: raw.node_id,
            name: raw.node_nm,
            order: raw.node_ord,
            code: raw.node_no,
            latitude: raw.gps_lat,
            longitude: raw.gps_long,
            direction,
        }
    }

    /// The record under which the stop is written to a raw stop file.
    pub fn to_raw(&self) -> (r: RawStop)
        ensures
            r@ == self@.raw(),
            r@.typed() == self@,
    {
        RawStop {
            node_id: self.node_id.clone(),
            node_nm: self.name.clone(),
            node_ord: self.order,
            node_no: self.code.clone(),
            gps_lat: self.latitude,
            gps_long: self.longitude,
            up_down_cd: self.direction.code(),
        }
    }

    /// The position of the stop.
    pub fn position(&self) -> (c: Coord)
        ensures
            c == self@.position(),
    {
        Coord { lon: self.longitude, lat: self.latitude }
    }
}

} // verus!

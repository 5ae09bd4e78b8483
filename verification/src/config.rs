//! The settings of a run, resolved once at startup and handed on by value.

use vstd::prelude::*;
use crate::text::same_text;

verus! {

/// Where the catalog is reached unless another address is configured.
pub const TAGO_URL: &'static str = "http://apis.data.go.kr/1613000/BusRouteInfoInqireService";

/// Where the routing engine is reached unless another address is configured.
pub const OSRM_URL: &'static str = "http://router.project-osrm.org/route/v1/driving";

/// How many stop lists are fetched from the catalog at a time.
pub const CONCURRENCY_FETCH: usize = 10;

/// How many routes are snapped at a time.
pub const CONCURRENCY_SNAP: usize = 4;

/// The address to use: the configured one, or the default where none is
/// configured.
pub open spec fn spec_resolve_url(configured: Seq<char>, default: Seq<char>) -> Seq<char> {
    if configured.len() == 0 {
        default
    } else {
        configured
    }
}

/// Picks the address of a service from what is configured for it, which is
/// empty where nothing is, and its default.
pub fn resolve_url(configured: &str, default: &str) -> (url: String)
    ensures
        url@ == spec_resolve_url(configured@, default@),
{
    if configured.unicode_len() == 0 {
        String::from_str(default)
    } else {
        String::from_str(configured)
    }
}

/// Why a run cannot start.
#[derive(Clone, Copy, Debug, PartialEq, Eq, Structural)]
pub enum ConfigError {
    /// No service key for the catalog is configured.
    MissingServiceKey,
}

/// Which parts of the work a run does.
#[derive(Clone, Copy, Debug, PartialEq, Eq, Structural)]
pub struct RunPlan {
    /// Routes are collected from the catalog and the index is written.
    pub collect: bool,
    /// The raw stop file of each collected route is written.
    pub save_raw: bool,
    /// The raw stop files are snapped.
    pub snap: bool,
}

impl RunPlan {
    /// The plan of a run.  A run that only snaps collects nothing.  A run
    /// for the station map only writes no raw stop files and, once it has
    /// collected, snaps nothing.
    pub fn of(station_map_only: bool, osrm_only: bool) -> (plan: RunPlan)
        ensures
            plan.collect == !osrm_only,
            plan.save_raw == !station_map_only,
            plan.snap == (osrm_only || !station_map_only),
    {
        RunPlan { collect: !osrm_only, save_raw: !station_map_only, snap: osrm_only || !station_map_only }
    }
}

/// What a run works with.
#[derive(Debug, PartialEq, Eq)]
pub struct BusRouteProcessor {
    pub service_key: String,
    pub city_code: String,
    /// The directory of the raw stop files.
    pub raw_dir: String,
    /// The directory of the snapped paths.
    pub derived_dir: String,
    /// The file of the station and route index.
    pub mapping_file: String,
    pub tago_base_url: String,
    pub osrm_base_url: String,
}

/// The name of the directory of raw stop files below the output directory.
pub open spec fn raw_dir_name() -> Seq<char> {
    "raw_routes"@
}

/// The name of the directory of snapped paths below the output directory.
pub open spec fn derived_dir_name() -> Seq<char> {
    "snapped_routes"@
}

/// The name of the index file below the output directory.
pub open spec fn mapping_file_name() -> Seq<char> {
    "routeMap.json"@
}

/// `dir` with `name` below it.
pub open spec fn spec_below(dir: Seq<char>, name: Seq<char>) -> Seq<char> {
    if dir.len() == 0 || dir.last() == '/' {
        dir + name
    } else {
        dir + seq!['/'] + name
    }
}

/// The path of `name` below `dir`.
pub fn below(dir: &str, name: &str) -> (path: String)
    ensures
        path@ == spec_below(dir@, name@),
{
    let n = dir.unicode_len();
    let mut path = String::from_str(dir);
    if n > 0 && dir.get_char(n - 1) != '/' {
        path.append("/");
        proof {
            reveal_strlit("/");
            assert("/"@ =~= seq!['/']);
        }
    }
    path.append(name);
    path
}

impl BusRouteProcessor {
    /// Whether the run asks the shared public instance of the routing
    /// engine, which wants a pause between two requests.
    pub fn engine_is_shared(&self) -> (r: bool)
        ensures
            r == (self.osrm_base_url@ == OSRM_URL@),
    {
        same_text(self.osrm_base_url.as_str(), OSRM_URL)
    }

    /// Resolves the settings of a run.  `tago_url` and `osrm_url` hold what
    /// is configured for the two services and are empty where nothing is.
    /// A run without a service key cannot start.
    pub fn new(
        service_key: String,
        city_code: String,
        output_dir: &str,
        tago_url: &str,
        osrm_url: &str,
    ) -> (r: Result<BusRouteProcessor, ConfigError>)
        ensures
            r is Err <==> service_key@.len() == 0,
            r matches Err(e) ==> e == ConfigError::MissingServiceKey,
            r matches Ok(p) ==> {
                &&& p.service_key == service_key
                &&& p.city_code == city_code
                &&& p.raw_dir@ == spec_below(output_dir@, raw_dir_name())
                &&& p.derived_dir@ == spec_below(output_dir@, derived_dir_name())
                &&& p.mapping_file@ == spec_below(output_dir@, mapping_file_name())
                &&& p.tago_base_url@ == spec_resolve_url(tago_url@, TAGO_URL@)
                &&& p.osrm_base_url@ == spec_resolve_url(osrm_url@, OSRM_URL@)
            },
    {
        if service_key.as_str().unicode_len() == 0 {
            return Err(ConfigError::MissingServiceKey);
        }
        Ok(
            BusRouteProcessor {
                service_key,
                city_code,
                raw_dir: below(output_dir, "raw_routes"),
                derived_dir: below(output_dir, "snapped_routes"),
                mapping_file: below(output_dir, "routeMap.json"),
                tago_base_url: resolve_url(tago_url, TAGO_URL),
                osrm_base_url: resolve_url(osrm_url, OSRM_URL),
            },
        )
    }
}

} // verus!

//! Data model of the source tracking system and the request/response logic
//! around it.
//!
//! The HTTP exchange with the tracking system happens outside the library;
//! what stands here is everything that can be decided from plain values: the
//! shape of platform metadata and positions, the precedence rule that picks
//! between a date range and a fetch size, and the client-side truncation of
//! a response. A coordinate is carried as the bit pattern of its IEEE value;
//! the dispatch logic never reads it, only the timestamp.

use vstd::prelude::*;

verus! {

/// Metadata of one platform as the source tracking system reports it.
pub struct PlatformRes {
    pub _id: String,
    pub name: String,
    pub abbreviation: String,
    pub platform_type: Option<String>,
    pub color: Option<String>,
    pub icon_url: Option<String>,
}

/// Ghost image of a platform record, over character sequences.
pub ghost struct PlatformView {
    pub id: Seq<char>,
    pub name: Seq<char>,
    pub abbreviation: Seq<char>,
    pub platform_type: Option<Seq<char>>,
    pub color: Option<Seq<char>>,
    pub icon_url: Option<Seq<char>>,
}

impl View for PlatformRes {
    type V = PlatformView;

    open spec fn view(&self) -> PlatformView {
        PlatformView {
            id: self._id@,
            name: self.name@,
            abbreviation: self.abbreviation@,
            platform_type: self.platform_type.deep_view(),
            color: self.color.deep_view(),
            icon_url: self.icon_url.deep_view(),
        }
    }
}

/// A copy of an optional string, equal to the original.
pub(crate) fn clone_opt_string(s: &Option<String>) -> (res: Option<String>)
    ensures
        res == *s,
{
    match s {
        Option::Some(v) => Option::Some(v.clone()),
        Option::None => Option::None,
    }
}

impl Clone for PlatformRes {
    fn clone(&self) -> (res: Self)
        ensures
            res == *self,
    {
        PlatformRes {
            _id: self._id.clone(),
            name: self.name.clone(),
            abbreviation: self.abbreviation.clone(),
            platform_type: clone_opt_string(&self.platform_type),
            color: clone_opt_string(&self.color),
            icon_url: clone_opt_string(&self.icon_url),
        }
    }
}

/// One timestamped position fix. The coordinates are IEEE bit patterns,
/// opaque to the dispatch logic; the surrounding program converts them to
/// and from floating point at its edges.
#[derive(Clone, Copy, PartialEq, Eq, Structural, Debug)]
pub struct Position {
    pub time_ms: u64,
    pub lat_bits: u64,
    pub lon_bits: u64,
}

/// Positions reported for one platform.
pub struct PositionsResponse {
    pub platform_id: String,
    pub platform_name: Option<String>,
    pub positions: Vec<Position>,
}

/// Ghost image of a positions response.
pub ghost struct PositionsResponseView {
    pub platform_id: Seq<char>,
    pub platform_name: Option<Seq<char>>,
    pub positions: Seq<Position>,
}

impl View for PositionsResponse {
    type V = PositionsResponseView;

    open spec fn view(&self) -> PositionsResponseView {
        PositionsResponseView {
            platform_id: self.platform_id@,
            platform_name: self.platform_name.deep_view(),
            positions: self.positions@,
        }
    }
}

impl Clone for PositionsResponse {
    fn clone(&self) -> (res: Self)
        ensures
            res@ == self@,
    {
        PositionsResponse {
            platform_id: self.platform_id.clone(),
            platform_name: clone_opt_string(&self.platform_name),
            positions: self.positions.clone(),
        }
    }
}

/// How one positions request to the source system is to be made: either a
/// date range is sent, or a number of latest fixes is requested directly.
pub enum FetchParams {
    /// At least one bound of a date range was given; the range is sent and
    /// any fetch-size cap is applied only after receipt.
    DateRange { start_date: Option<String>, end_date: Option<String> },
    /// No date bound was given: the fetch size is sent with the request.
    LastFixes { last_number_of_fixes: u32 },
}

/// The effective fetch size: the caller's positive request, or the
/// configured default.
pub open spec fn effective_fixes(default_last_number_of_fixes: u32, requested: Option<u32>) -> u32 {
    match requested {
        Option::Some(n) => if n > 0 {
            n
        } else {
            default_last_number_of_fixes
        },
        Option::None => default_last_number_of_fixes,
    }
}

/// Decide how to query the source system for positions. A date range, when
/// any bound of it is present, takes precedence over (and excludes sending)
/// the fetch size; otherwise the effective fetch size is sent.
pub fn create_params_for_positions(
    default_last_number_of_fixes: u32,
    last_number_of_fixes: Option<u32>,
    start_date: Option<String>,
    end_date: Option<String>,
) -> (params: FetchParams)
    ensures
        (start_date is Some || end_date is Some) ==> params == (FetchParams::DateRange {
            start_date,
            end_date,
        }),
        (start_date is None && end_date is None) ==> params == (FetchParams::LastFixes {
            last_number_of_fixes: effective_fixes(default_last_number_of_fixes, last_number_of_fixes),
        }),
{
    if start_date.is_some() || end_date.is_some() {
        FetchParams::DateRange { start_date, end_date }
    } else {
        let n: u32 = match last_number_of_fixes {
            Option::Some(number) => if number > 0 {
                number
            } else {
                default_last_number_of_fixes
            },
            Option::None => default_last_number_of_fixes,
        };
        FetchParams::LastFixes { last_number_of_fixes: n }
    }
}

/// The positions a response is truncated to when a fetch-size cap applies.
pub open spec fn capped_positions(positions: Seq<Position>, cap: Option<u32>) -> Seq<Position> {
    match cap {
        Option::Some(n) => if n <= positions.len() {
            positions.take(n as int)
        } else {
            positions
        },
        Option::None => positions,
    }
}

/// The positions a track response yields: the k-th timestamp paired with
/// the k-th coordinate row — longitude first, latitude second, as the
/// source sends them — for as many entries as both sequences provide.
pub open spec fn paired_positions(timestamps: Seq<u64>, coordinates: Seq<Vec<u64>>) -> Seq<
    Position,
> {
    Seq::new(
        vstd::math::min(timestamps.len() as int, coordinates.len() as int) as nat,
        |k: int|
            Position {
                time_ms: timestamps[k],
                lat_bits: coordinates[k]@[1],
                lon_bits: coordinates[k]@[0],
            },
    )
}

/// Turn a track response from the source system into a positions response.
/// A response whose status is not `success` yields nothing; otherwise each
/// timestamp is paired with its coordinate row (as many as both sequences
/// provide), in the order received, truncated to the caller's fetch-size
/// cap when one was given. The platform name is left unset; it is joined
/// in from the cache by the caller that has one. A successful response
/// must carry at least a longitude and a latitude in every paired row.
pub fn track_res_to_positions_response(
    platform_id: &str,
    last_number_of_fixes: Option<u32>,
    status: &str,
    timestamps: Vec<u64>,
    coordinates: Vec<Vec<u64>>,
) -> (res: Option<PositionsResponse>)
    requires
        status@ == "success"@ ==> forall|k: int|
            0 <= k < vstd::math::min(timestamps@.len() as int, coordinates@.len() as int) ==> (
            #[trigger] coordinates@[k])@.len() >= 2,
    ensures
        res is Some <==> status@ == "success"@,
        res matches Some(pr) ==> {
            &&& pr@.platform_id == platform_id@
            &&& pr@.platform_name is None
            &&& pr@.positions == capped_positions(
                paired_positions(timestamps@, coordinates@),
                last_number_of_fixes,
            )
        },
{
    if !crate::str_order::str_eq(status, "success") {
        return None;
    }
    let n: usize = if timestamps.len() <= coordinates.len() {
        timestamps.len()
    } else {
        coordinates.len()
    };
    let ghost paired = paired_positions(timestamps@, coordinates@);
    let mut positions: Vec<Position> = Vec::new();
    let mut k: usize = 0;
    while k < n
        invariant
            k <= n,
            n == vstd::math::min(timestamps@.len() as int, coordinates@.len() as int),
            paired == paired_positions(timestamps@, coordinates@),
            forall|j: int| 0 <= j < n ==> (#[trigger] coordinates@[j])@.len() >= 2,
            positions@.len() == k,
            forall|j: int| 0 <= j < k ==> #[trigger] positions@[j] == paired[j],
        decreases n - k,
    {
        let row = &coordinates[k];
        positions.push(Position { time_ms: timestamps[k], lat_bits: row[1], lon_bits: row[0] });
        k += 1;
    }
    proof {
        assert(positions@ =~= paired);
    }
    let mut kept = positions;
    let ghost orig = kept@;
    if let Option::Some(number) = last_number_of_fixes {
        let cap: usize = number as usize;
        if cap <= kept.len() {
            kept.truncate(cap);
        }
    }
    proof {
        assert(kept@ =~= capped_positions(orig, last_number_of_fixes));
    }
    Some(PositionsResponse {
        platform_id: platform_id.to_owned(),
        platform_name: None,
        positions: kept,
    })
}

} // verus!

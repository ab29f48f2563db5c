//! The wire form of the revenue feed and its tolerant normalization.
//!
//! The upstream feed delivers an envelope `{ all_time, data }` whose
//! `data` entries carry an epoch second and two amounts as decimal text.
//! Normalization turns one entry into a canonical record and never
//! fails: malformed amount text is coerced to zero so that one bad entry
//! cannot abort ingestion of the rest of a batch.

use vstd::prelude::*;
use crate::amount::{parse_amount, parse_amount_spec, AMOUNT_MAX};
use crate::calendar::MAX_TIME;

verus! {

/// A raw feed entry as decoded from the wire: an epoch second and the
/// bytes of the two decimal-text amount fields. The amount fields carry
/// no invariant at all; they may be arbitrary garbage.
#[derive(Clone, Debug)]
pub struct RawEntry {
    pub time: i64,
    pub revenue: Vec<u8>,
    pub creator_revenue: Vec<u8>,
}

/// A canonical record: the entry's epoch second, kept exactly, and its
/// two amounts in micro-units.
#[derive(Clone, Copy, PartialEq, Eq, Structural, Debug)]
pub struct CanonicalRecord {
    pub time: i64,
    pub revenue: i64,
    pub creator_revenue: i64,
}

/// Why one fetch cycle yielded no data: the transport failed, the
/// endpoint answered with a non-success status, or the body did not
/// match the expected envelope shape.
#[derive(Clone, Copy, PartialEq, Eq, Structural, Debug)]
pub enum FetchError {
    Transport,
    Status(u16),
    Decode,
}

/// A record the store accepts: a timestamp within the supported
/// calendar range and amounts within the parser's bound.
pub open spec fn valid_record(r: CanonicalRecord) -> bool {
    &&& 0 <= r.time < MAX_TIME
    &&& -AMOUNT_MAX < r.revenue < AMOUNT_MAX
    &&& -AMOUNT_MAX < r.creator_revenue < AMOUNT_MAX
}

/// What normalization yields: the timestamp unchanged, each amount the
/// tolerant parse of its text.
pub open spec fn normalize_spec(e: RawEntry) -> CanonicalRecord {
    CanonicalRecord {
        time: e.time,
        revenue: parse_amount_spec(e.revenue@) as i64,
        creator_revenue: parse_amount_spec(e.creator_revenue@) as i64,
    }
}

pub open spec fn normalize_all_spec(es: Seq<RawEntry>) -> Seq<CanonicalRecord> {
    es.map_values(|e: RawEntry| normalize_spec(e))
}

/// `code` is a success status in the 2xx range.
pub fn status_is_success(code: u16) -> (r: bool)
    ensures
        r == (200 <= code < 300),
{
    200 <= code && code < 300
}

/// Normalize one raw entry. Pure and total over the supported timestamp
/// range: amount fields that fail to parse become zero, never an error.
pub fn normalize(e: &RawEntry) -> (r: CanonicalRecord)
    requires
        0 <= e.time < MAX_TIME,
    ensures
        r == normalize_spec(*e),
        valid_record(r),
{
    let revenue = parse_amount(&e.revenue);
    let creator_revenue = parse_amount(&e.creator_revenue);
    CanonicalRecord { time: e.time, revenue, creator_revenue }
}

/// Normalize a whole batch, in order.
pub fn normalize_all(es: &Vec<RawEntry>) -> (rs: Vec<CanonicalRecord>)
    requires
        forall|i: int| 0 <= i < es@.len() ==> 0 <= #[trigger] es@[i].time < MAX_TIME,
    ensures
        rs@ == normalize_all_spec(es@),
        forall|i: int| 0 <= i < rs@.len() ==> valid_record(#[trigger] rs@[i]),
{
    let mut rs: Vec<CanonicalRecord> = Vec::new();
    let mut i: usize = 0;
    while i < es.len()
        invariant
            0 <= i <= es@.len(),
            rs@ == normalize_all_spec(es@.subrange(0, i as int)),
            forall|j: int| 0 <= j < es@.len() ==> 0 <= #[trigger] es@[j].time < MAX_TIME,
            forall|j: int| 0 <= j < rs@.len() ==> valid_record(#[trigger] rs@[j]),
        decreases es@.len() - i,
    {
        let r = normalize(&es[i]);
        rs.push(r);
        proof {
            assert(normalize_all_spec(es@.subrange(0, i + 1 as int)) =~= normalize_all_spec(
                es@.subrange(0, i as int),
            ).push(normalize_spec(es@[i as int])));
        }
        i += 1;
    }
    proof {
        assert(es@.subrange(0, es@.len() as int) =~= es@);
    }
    rs
}

} // verus!

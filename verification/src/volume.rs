//! Free space, and when a gap between estimate and measurement is worth
//! explaining. Reading the volume is the caller's job.

use vstd::prelude::*;
use crate::text::{chars_of, contains, has, lines, lines_of};

verus! {

/// 100 MB: below this a shortfall is ordinary disk noise.
pub const SHORTFALL_FLOOR: u64 = 104857600;

pub open spec fn material(estimated: u64, measured: u64) -> bool {
    &&& measured < estimated / 2
    &&& (if estimated > measured { estimated - measured } else { 0 }) > SHORTFALL_FLOOR
}

/// Whether the gap between what was estimated and what was actually freed
/// is worth explaining: under half of the estimate landed, and the gap is
/// over 100 MB. A measurement above the estimate is never a shortfall.
pub fn shortfall_is_material(estimated: u64, measured: u64) -> (r: bool)
    ensures
        r == material(estimated, measured),
{
    measured < estimated / 2 && estimated.saturating_sub(measured) > SHORTFALL_FLOOR
}

/// The space a run freed: the growth in available bytes, or nothing when
/// either reading is missing or the volume filled up meanwhile.
pub fn measured_delta(before: Option<u64>, after: Option<u64>) -> (r: u64)
    ensures
        r == match (before, after) {
            (Some(b), Some(a)) => if a > b { (a - b) as u64 } else { 0 },
            _ => 0,
        },
{
    match (before, after) {
        (Some(b), Some(a)) => a.saturating_sub(b),
        _ => 0,
    }
}

/// Blocks times block size, saturating: the figure `statvfs` reports.
pub fn blocks_to_bytes(blocks: u64, block_size: u64) -> (r: u64)
    ensures
        r == if blocks * block_size > u64::MAX { u64::MAX as int } else { blocks * block_size },
{
    match blocks.checked_mul(block_size) {
        Some(bytes) => bytes,
        None => u64::MAX,
    }
}

pub open spec fn snapshot_marker() -> Seq<char> {
    "com.apple.TimeMachine"@
}

/// Whether a line of the listing names a Time Machine snapshot.
pub open spec fn lists_snapshot(listing: Seq<char>) -> bool {
    exists|i: int| 0 <= i < lines(listing).len() && contains(#[trigger] lines(listing)[i], snapshot_marker())
}

/// Reads the output of `tmutil listlocalsnapshots /`: a snapshot exists when
/// some line carries the Time Machine identifier.
pub fn lists_local_snapshot(listing: &str) -> (r: bool)
    ensures
        r == lists_snapshot(listing@),
{
    let text = chars_of(listing);
    let all = lines_of(text.as_slice());
    let marker = chars_of("com.apple.TimeMachine");
    let ghost ls = lines(listing@);
    assert(all@.map_values(|p: Vec<char>| p@) == ls);
    let mut i: usize = 0;
    while i < all.len()
        invariant
            all@.map_values(|p: Vec<char>| p@) == ls,
            ls == lines(listing@),
            marker@ == snapshot_marker(),
            i <= all.len(),
            forall|j: int| 0 <= j < i ==> !contains(#[trigger] ls[j], snapshot_marker()),
        decreases all.len() - i,
    {
        assert(all@[i as int]@ == ls[i as int]);
        if has(all[i].as_slice(), marker.as_slice()) {
            assert(contains(ls[i as int], snapshot_marker()));
            return true;
        }
        i += 1;
    }
    false
}

/// A measurement above the estimate is never a shortfall, however large
/// the estimate.
pub proof fn lemma_more_than_estimated_is_never_material(estimated: u64, measured: u64)
    requires
        measured >= estimated,
    ensures
        !material(estimated, measured),
{
}

} // verus!

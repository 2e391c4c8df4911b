//! The APIs that this broker serves, with the versions of each.
use std::ops::RangeInclusive;
use vstd::prelude::*;

verus! {

/// `RangeInclusive::start` gives the lower bound that the range holds.
pub assume_specification<Idx>[ RangeInclusive::<Idx>::start ](r: &RangeInclusive<Idx>) -> (s: &Idx)
    ensures
        *s == r@.start,
;

/// `RangeInclusive::end` gives the upper bound that the range holds.
pub assume_specification<Idx>[ RangeInclusive::<Idx>::end ](r: &RangeInclusive<Idx>) -> (e: &Idx)
    ensures
        *e == r@.end,
;

/// `RangeInclusive`'s derived `clone` clones both bounds and keeps whether
/// the range has been iterated to its end.
pub assume_specification<Idx: Clone>[ <RangeInclusive<Idx> as Clone>::clone ](r: &RangeInclusive<Idx>) -> (c: RangeInclusive<Idx>)
    ensures
        cloned::<Idx>(r@.start, c@.start),
        cloned::<Idx>(r@.end, c@.end),
        c@.exhausted == r@.exhausted,
;

pub struct ApiInfo {
    pub key: u16,
    pub name: &'static str,
    pub version_range: RangeInclusive<u16>,
}

/// The supported APIs as (key, lowest version, highest version), in order.
pub open spec fn api_table() -> Seq<(u16, u16, u16)> {
    seq![(18u16, 0u16, 4u16), (75u16, 0u16, 0u16)]
}

/// The version range that the first entry of `table` with `key` gives, if any.
pub open spec fn find_api(table: Seq<(u16, u16, u16)>, key: u16) -> Option<(u16, u16)>
    decreases table.len(),
{
    if table.len() == 0 {
        None
    } else if table[0].0 == key {
        Some((table[0].1, table[0].2))
    } else {
        find_api(table.drop_first(), key)
    }
}

impl ApiInfo {
    /// The entry of the API table that this value describes; a range that
    /// has been iterated to its end describes none.
    pub open spec fn entry(&self) -> (u16, u16, u16) {
        (self.key, self.version_range@.start, self.version_range@.end)
    }

    /// The range is fresh, as `RangeInclusive::new` makes it.
    pub open spec fn fresh(&self) -> bool {
        !self.version_range@.exhausted
    }
}

/// The supported APIs: `ApiVersions` (key 18, versions 0 to 4) and
/// `DescribeTopicPartitions` (key 75, version 0).
pub fn apis() -> (r: Vec<ApiInfo>)
    ensures
        r@.len() == api_table().len(),
        forall|i: int| 0 <= i < r@.len() ==> #[trigger] r@[i].entry() == api_table()[i] && r@[i].fresh(),
        r@[0].name@ == "ApiVersions"@,
        r@[1].name@ == "DescribeTopicPartitions"@,
{
    let mut v: Vec<ApiInfo> = Vec::new();
    v.push(ApiInfo { key: 18, name: "ApiVersions", version_range: RangeInclusive::new(0, 4) });
    v.push(ApiInfo { key: 75, name: "DescribeTopicPartitions", version_range: RangeInclusive::new(0, 0) });
    v
}

} // verus!

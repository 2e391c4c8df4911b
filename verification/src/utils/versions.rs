//! The table of supported APIs as a map from API key, and the check of a
//! requested API version against it.
use std::collections::HashMap;
use std::ops::RangeInclusive;

use crate::api::capabilites::{api_table, find_api};
use crate::utils::errors::ApiErrors;
use vstd::prelude::*;

verus! {

broadcast use vstd::std_specs::hash::group_hash_axioms;

/// The supported APIs by key: the name and the version range of each.
pub type Capabilities = HashMap<u16, (String, RangeInclusive<u16>)>;

/// `m` maps exactly the keys of the API table to their names and fresh
/// version ranges.
pub open spec fn is_capabilities(m: Map<u16, (String, RangeInclusive<u16>)>) -> bool {
    &&& m.dom() == set![18u16, 75u16]
    &&& m[18].0@ == "ApiVersions"@
    &&& m[75].0@ == "DescribeTopicPartitions"@
    &&& forall|k: u16| #[trigger] m.contains_key(k) ==> {
        &&& find_api(api_table(), k) == Some((m[k].1@.start, m[k].1@.end))
        &&& !m[k].1@.exhausted
    }
}

/// The supported APIs: `ApiVersions` (key 18, versions 0 to 4) and
/// `DescribeTopicPartitions` (key 75, version 0).
pub fn api_capabilities() -> (m: Capabilities)
    ensures
        is_capabilities(m@),
{
    let mut versions: Capabilities = HashMap::new();
    versions.insert(18, ("ApiVersions".to_owned(), RangeInclusive::new(0, 4)));
    versions.insert(75, ("DescribeTopicPartitions".to_owned(), RangeInclusive::new(0, 0)));
    assert(versions@.dom() =~= set![18u16, 75u16]);
    assert forall|k: u16| #[trigger] versions@.contains_key(k) implies {
        &&& find_api(api_table(), k) == Some((versions@[k].1@.start, versions@[k].1@.end))
        &&& !versions@[k].1@.exhausted
    } by {
        reveal_with_fuel(find_api, 3);
    }
    versions
}

/// A requested API key and version.
#[derive(Debug, Clone)]
pub struct ApiReqVersion {
    api_key: u16,
    version: u16,
}

/// Whether `version` of the API with `key` is served: `UnsupportedKey`
/// when the key is not in the table, `UnsupportedVersion` when the
/// version is outside its range.
pub open spec fn spec_check(key: u16, version: u16) -> Result<(), ApiErrors> {
    match find_api(api_table(), key) {
        None => Err(ApiErrors::UnsupportedKey(key)),
        Some((lo, hi)) => if lo <= version && version <= hi {
            Ok(())
        } else {
            Err(ApiErrors::UnsupportedVersion(version, key))
        },
    }
}

impl ApiReqVersion {
    pub closed spec fn api_key(&self) -> u16 {
        self.api_key
    }

    pub closed spec fn version(&self) -> u16 {
        self.version
    }

    pub fn new(api_key: u16, version: u16) -> (r: Self)
        ensures
            r.api_key() == api_key,
            r.version() == version,
    {
        Self { api_key, version }
    }

    /// Checks the requested version against the supported APIs.
    pub fn check(&self) -> (r: Result<(), ApiErrors>)
        ensures
            r == spec_check(self.api_key(), self.version()),
    {
        let api_versions = api_capabilities();
        let entry = api_versions.get(&self.api_key);
        let (_, version_range) = match entry {
            Some(e) => e,
            None => {
                assert(!api_versions@.contains_key(self.api_key));
                reveal_with_fuel(find_api, 3);
                return Err(ApiErrors::UnsupportedKey(self.api_key));
            },
        };
        assert(api_versions@.contains_key(self.api_key));
        let inside = version_range.contains(&self.version);
        if inside {
            Ok(())
        } else {
            Err(ApiErrors::UnsupportedVersion(self.version, self.api_key))
        }
    }
}

/// What the check gives for every key and version: key 18 serves versions
/// 0 to 4 and key 75 version 0; another version of those keys is
/// `UnsupportedVersion` with the version, then the key; any other key is
/// `UnsupportedKey`.
pub proof fn lemma_check_values(key: u16, version: u16)
    ensures
        spec_check(key, version) == if key == 18 {
            if version <= 4 { Ok(()) } else { Err(ApiErrors::UnsupportedVersion(version, key)) }
        } else if key == 75 {
            if version == 0 { Ok(()) } else { Err(ApiErrors::UnsupportedVersion(version, key)) }
        } else {
            Err(ApiErrors::UnsupportedKey(key))
        },
{
    reveal_with_fuel(find_api, 3);
}

} // verus!

use crate::api::capabilites::{api_table, apis, find_api};
use crate::error::{KafkaError, RequestError};
use crate::protocol::reader::{spec_string, spec_u16, spec_u32, spec_u8, then, Bytes16, Bytes32, Bytes8, BytesString, SpecRead, StreamReader};
use crate::protocol::reader::{be_value, lemma_string_at, lemma_u16_at, lemma_u8_at, lemma_wide_at};
use vstd::prelude::*;
use vstd::utf8::decode_utf8;

verus! {

/// The header of a request: API key and version, correlation id, client
/// id and tag buffer.
#[derive(Debug)]
pub struct RequestHeader {
    pub key: Bytes16,
    pub version: Bytes16,
    pub correlation_id: Bytes32,
    pub client: BytesString,
    pub tag_buffer: Bytes8,
}

impl View for RequestHeader {
    type V = (u16, u16, u32, (u16, Seq<char>), u8);

    open spec fn view(&self) -> Self::V {
        (self.key@, self.version@, self.correlation_id@, self.client@, self.tag_buffer@)
    }
}

/// Whether the broker serves `version` of the API with `key`: the key
/// must be in the API table, and the version in its range.
pub open spec fn spec_check_version(key: u16, version: u16) -> Result<(), KafkaError> {
    match find_api(api_table(), key) {
        None => Err(KafkaError::UnsupportedKey(key)),
        Some((lo, hi)) => if lo <= version && version <= hi {
            Ok(())
        } else {
            Err(KafkaError::UnsupportedVersion(key, version))
        },
    }
}

impl StreamReader for RequestHeader {
    open spec fn spec_from_stream(input: Seq<u8>, pos: int) -> SpecRead<Self::V> {
        then(spec_u16(input, pos), |key: u16, p1: int|
        then(spec_u16(input, p1), |version: u16, p2: int|
        then(spec_u32(input, p2), |correlation_id: u32, p3: int|
        then(spec_string(input, p3), |client: (u16, Seq<char>), p4: int|
        then(spec_u8(input, p4), |tag_buffer: u8, p5: int|
            Ok(((key, version, correlation_id, client, tag_buffer), p5))
        )))))
    }

    fn from_stream(input: &[u8], pos: usize) -> (r: Result<(Self, usize), RequestError>) {
        let (key, p) = match Bytes16::from_stream(input, pos) {
            Ok(v) => v,
            Err(e) => return Err(e),
        };
        let (version, p) = match Bytes16::from_stream(input, p) {
            Ok(v) => v,
            Err(e) => return Err(e),
        };
        let (correlation_id, p) = match Bytes32::from_stream(input, p) {
            Ok(v) => v,
            Err(e) => return Err(e),
        };
        let (client, p) = match BytesString::from_stream(input, p) {
            Ok(v) => v,
            Err(e) => return Err(e),
        };
        let (tag_buffer, p) = match Bytes8::from_stream(input, p) {
            Ok(v) => v,
            Err(e) => return Err(e),
        };
        Ok((Self { key, version, correlation_id, client, tag_buffer }, p))
    }
}

impl RequestHeader {
    /// Checks that the broker serves the requested version of the
    /// requested API.
    pub fn check_version(&self) -> (r: Result<(), KafkaError>)
        ensures
            r == spec_check_version(self.key@, self.version@),
    {
        let (key, version) = (self.key.0, self.version.0);
        let table = apis();
        let mut i: usize = 0;
        assert(api_table().skip(0) =~= api_table());
        while i < table.len()
            invariant
                table@.len() == api_table().len(),
                forall|j: int| 0 <= j < table@.len() ==> #[trigger] table@[j].entry() == api_table()[j] && table@[j].fresh(),
                i <= table@.len(),
                key == self.key@,
                version == self.version@,
                find_api(api_table(), key) == find_api(api_table().skip(i as int), key),
            decreases table.len() - i,
        {
            assert(table@[i as int].entry() == api_table()[i as int]);
            if table[i].key == key {
                let api = &table[i];
                assert(api_table().skip(i as int)[0] == api_table()[i as int]);
                assert(find_api(api_table().skip(i as int), key) == Some(
                    (api_table()[i as int].1, api_table()[i as int].2),
                ));
                assert(api.entry() == api_table()[i as int]);
                let inside = api.version_range.contains(&version);
                assert(inside == (api.version_range@.start <= version && version <= api.version_range@.end));
                return match inside {
                    true => Ok(()),
                    false => Err(KafkaError::UnsupportedVersion(key, version)),
                };
            }
            assert(api_table().skip(i as int).drop_first() =~= api_table().skip(i + 1));
            i = i + 1;
        }
        assert(api_table().skip(i as int) =~= Seq::<(u16, u16, u16)>::empty());
        Err(KafkaError::UnsupportedKey(key))
    }
}

/// A version of an API is accepted exactly when the API table (which the
/// `ApiVersions` response lists) has an entry for its key whose range
/// holds it.
pub proof fn lemma_accepted_iff_listed(key: u16, version: u16)
    ensures
        spec_check_version(key, version) is Ok <==> exists|i: int|
            0 <= i < api_table().len() && #[trigger] api_table()[i].0 == key && api_table()[i].1 <= version
                <= api_table()[i].2,
{
    reveal_with_fuel(find_api, 3);
    assert(api_table().drop_first()[0] == api_table()[1]);
    assert(api_table().drop_first().drop_first().len() == 0);
    if spec_check_version(key, version) is Ok {
        if key == 18 {
            assert(api_table()[0].0 == key);
        } else {
            assert(api_table()[1].0 == key);
        }
    }
}

/// A request header is laid out from `pos` as: the API key (two bytes),
/// the API version (two bytes), the correlation id (four bytes), each
/// big-endian; the client id, a string whose two-byte length `n` is at
/// `pos + 8`; the tag buffer, one byte at `pos + 10 + n`.
pub proof fn lemma_request_header_layout(s: Seq<u8>, pos: int)
    requires
        RequestHeader::spec_from_stream(s, pos) is Ok,
    ensures
        ({
            let ((key, version, correlation_id, client, tag_buffer), end) =
                RequestHeader::spec_from_stream(s, pos)->Ok_0;
            let n = s[pos + 8] * 256 + s[pos + 9];
            &&& 0 <= pos && end == pos + 11 + n && end <= s.len()
            &&& key as int == s[pos] * 256 + s[pos + 1]
            &&& version as int == s[pos + 2] * 256 + s[pos + 3]
            &&& correlation_id as int == be_value(s.subrange(pos + 4, pos + 8))
            &&& client.0 as int == n
            &&& client.1 == decode_utf8(s.subrange(pos + 10, pos + 10 + n))
            &&& tag_buffer == s[pos + 10 + n]
        }),
{
    lemma_u16_at(s, pos);
    lemma_u16_at(s, pos + 2);
    lemma_wide_at(s, pos + 4);
    lemma_string_at(s, pos + 8);
    let n = s[pos + 8] * 256 + s[pos + 9];
    lemma_u8_at(s, pos + 10 + n);
}

/// What the version check gives for every key and version: key 18 serves
/// versions 0 to 4 and key 75 version 0; another version of those keys is
/// `UnsupportedVersion` with the key, then the version; any other key is
/// `UnsupportedKey`.
pub proof fn lemma_check_version_values(key: u16, version: u16)
    ensures
        spec_check_version(key, version) == if key == 18 {
            if version <= 4 { Ok(()) } else { Err(KafkaError::UnsupportedVersion(key, version)) }
        } else if key == 75 {
            if version == 0 { Ok(()) } else { Err(KafkaError::UnsupportedVersion(key, version)) }
        } else {
            Err(KafkaError::UnsupportedKey(key))
        },
{
    reveal_with_fuel(find_api, 3);
}

} // verus!

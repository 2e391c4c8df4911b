use std::ops::RangeInclusive;

use crate::api::capabilites::{api_table, apis, ApiInfo};
use crate::api::requests::header::spec_check_version;
use crate::api::requests::{ApiVersionsRequest, RequestHeader};
use crate::api::responses::traits::{all_bytes, fold_bytes, ResponseBody, ResponseBytes};
use crate::buffer::{be16, be32, buf_bytes, extend_buf, put_u16, put_u32, put_u8};
use crate::error::ParseFail;
use crate::protocol::reader::{lemma_u16_written, lemma_u32_written, spec_u16, spec_u32};
use bytes::BytesMut;
use vstd::prelude::*;
use vstd::std_specs::convert::FromSpecImpl;

verus! {

/// The body of an `ApiVersions` response.
#[derive(Debug)]
pub struct ApiVersionsBody {
    pub error_code: u16,
    pub versions: Vec<ApiVersionsVer>,
    pub throttle_time: u32,
    pub tag_buffer: u8,
}

/// One API with the versions of it that the broker serves.
#[derive(Debug)]
pub struct ApiVersionsVer {
    pub api_key: u16,
    pub version_range: RangeInclusive<u16>,
    pub tag_buffer: u8,
}

/// The error code of an `ApiVersions` response: 0 when the requested
/// version is served, else the code of the reason why not.
pub open spec fn spec_api_error_code(key: u16, version: u16) -> u16 {
    match spec_check_version(key, version) {
        Ok(_) => 0,
        Err(e) => e.spec_error_code(),
    }
}

/// A compact count byte: the count, cut to a byte, plus one.
pub open spec fn count_byte(n: nat) -> u8 {
    ((n as u8) + 1) as u8
}

/// A count can be written as a compact count byte without overflow.
pub open spec fn count_fits(n: nat) -> bool {
    (n as u8) < 255
}

impl ApiVersionsVer {
    /// The (key, lowest version, highest version) that this entry lists.
    pub open spec fn entry(&self) -> (u16, u16, u16) {
        (self.api_key, self.version_range@.start, self.version_range@.end)
    }
}

impl ResponseBytes for ApiVersionsVer {
    open spec fn spec_to_bytes(&self) -> Seq<u8> {
        be16(self.api_key) + be16(self.version_range@.start) + be16(self.version_range@.end) + seq![self.tag_buffer]
    }

    open spec fn writable(&self) -> bool {
        true
    }

    fn to_bytes(&self) -> (r: BytesMut) {
        let mut buf = BytesMut::with_capacity(7);
        put_u16(&mut buf, self.api_key);
        put_u16(&mut buf, *self.version_range.start());
        put_u16(&mut buf, *self.version_range.end());
        put_u8(&mut buf, self.tag_buffer);
        assert(buf_bytes(buf) =~= self.spec_to_bytes());
        buf
    }
}

impl ResponseBytes for ApiVersionsBody {
    open spec fn spec_to_bytes(&self) -> Seq<u8> {
        be16(self.error_code) + seq![count_byte(self.versions@.len())] + all_bytes(self.versions@)
            + be32(self.throttle_time) + seq![self.tag_buffer]
    }

    open spec fn writable(&self) -> bool {
        &&& count_fits(self.versions@.len())
        &&& self.spec_to_bytes().len() <= isize::MAX
    }

    fn to_bytes(&self) -> (r: BytesMut) {
        let mut buf = BytesMut::with_capacity(13);
        put_u16(&mut buf, self.error_code);
        put_u8(&mut buf, self.versions.len() as u8 + 1);
        let version_bytes = fold_bytes(&self.versions);
        extend_buf(&mut buf, version_bytes);
        put_u32(&mut buf, self.throttle_time);
        put_u8(&mut buf, self.tag_buffer);
        assert(buf_bytes(buf) =~= self.spec_to_bytes());
        buf
    }
}

impl<'a> From<&'a ApiInfo> for ApiVersionsVer {
    /// Lists an API with its version range.
    fn from(info: &'a ApiInfo) -> (r: Self)
        ensures
            r.api_key == info.key,
            r.version_range@ == info.version_range@,
            r.tag_buffer == 0,
    {
        Self { api_key: info.key, version_range: info.version_range.clone(), tag_buffer: 0 }
    }
}

impl<'a> FromSpecImpl<&'a ApiInfo> for ApiVersionsVer {
    /// A range has no mathematical value to copy, so no value is promised
    /// through the trait; the impl above states what `from` gives.
    open spec fn obeys_from_spec() -> bool {
        false
    }

    open spec fn from_spec(info: &'a ApiInfo) -> Self {
        arbitrary()
    }
}

impl ResponseBody<ApiVersionsRequest> for ApiVersionsBody {
    /// Answers an `ApiVersions` request: error code 0 and every supported
    /// API when the requested version is served, else the error code and
    /// no APIs.
    fn from_request(req_header: &RequestHeader, req_body: &ApiVersionsRequest) -> (r: Self)
        ensures
            r.error_code == spec_api_error_code(req_header.key@, req_header.version@),
            r.versions@.len() == if r.error_code == 0 { api_table().len() } else { 0 },
            forall|i: int| 0 <= i < r.versions@.len() ==> {
                &&& #[trigger] r.versions@[i].entry() == api_table()[i]
                &&& !r.versions@[i].version_range@.exhausted
                &&& r.versions@[i].tag_buffer == 0
            },
            r.throttle_time == 0,
            r.tag_buffer == req_body.tag_buffer@,
    {
        let mut versions: Vec<ApiVersionsVer> = Vec::new();
        let error_code = match req_header.check_version() {
            Ok(_) => 0,
            Err(kafka_error) => kafka_error.into_error_code(),
        };
        if error_code == 0 {
            let table = apis();
            let mut i: usize = 0;
            while i < table.len()
                invariant
                    table@.len() == api_table().len(),
                    forall|j: int| 0 <= j < table@.len() ==> #[trigger] table@[j].entry() == api_table()[j] && table@[j].fresh(),
                    i <= table@.len(),
                    versions@.len() == i,
                    forall|j: int| 0 <= j < i ==> {
                        &&& #[trigger] versions@[j].entry() == api_table()[j]
                        &&& !versions@[j].version_range@.exhausted
                        &&& versions@[j].tag_buffer == 0
                    },
                decreases table.len() - i,
            {
                assert(table@[i as int].entry() == api_table()[i as int]);
                versions.push(ApiVersionsVer::from(&table[i]));
                i = i + 1;
            }
        }
        Self { error_code, versions, throttle_time: 0, tag_buffer: req_body.tag_buffer.0 }
    }
}

/// An entry written at `off` reads back as its key, the two ends of its
/// range and its tag byte.
proof fn lemma_entry_read_back(b: Seq<u8>, off: int, v: ApiVersionsVer)
    requires
        0 <= off,
        off + 7 <= b.len(),
        b.subrange(off, off + 7) == v.spec_to_bytes(),
    ensures
        spec_u16(b, off) == Ok::<(u16, int), ParseFail>((v.api_key, off + 2)),
        spec_u16(b, off + 2) == Ok::<(u16, int), ParseFail>((v.version_range@.start, off + 4)),
        spec_u16(b, off + 4) == Ok::<(u16, int), ParseFail>((v.version_range@.end, off + 6)),
        b[off + 6] == v.tag_buffer,
{
    let e = b.subrange(off, off + 7);
    let (k0, s0, e0) = (be16(v.api_key), be16(v.version_range@.start), be16(v.version_range@.end));
    assert(v.spec_to_bytes() =~= k0 + s0 + e0 + seq![v.tag_buffer]);
    assert(e.subrange(0, 2) =~= k0);
    assert(e.subrange(2, 4) =~= s0);
    assert(e.subrange(4, 6) =~= e0);
    assert(b.subrange(off, off + 2) =~= e.subrange(0, 2));
    assert(b.subrange(off + 2, off + 4) =~= e.subrange(2, 4));
    assert(b.subrange(off + 4, off + 6) =~= e.subrange(4, 6));
    assert(b[off + 6] == e[6]);
    lemma_u16_written(b, off, v.api_key);
    lemma_u16_written(b, off + 2, v.version_range@.start);
    lemma_u16_written(b, off + 4, v.version_range@.end);
}

/// The wire form of the `i`-th entry is the seven bytes at `7 * i`.
proof fn lemma_entries_at(vs: Seq<ApiVersionsVer>, i: int)
    requires
        0 <= i < vs.len(),
    ensures
        all_bytes(vs).len() == 7 * vs.len(),
        all_bytes(vs).subrange(7 * i, 7 * i + 7) == vs[i].spec_to_bytes(),
    decreases vs.len(),
{
    lemma_entries_len(vs.drop_last());
    if i == vs.len() - 1 {
        assert(all_bytes(vs).subrange(7 * i, 7 * i + 7) =~= vs[i].spec_to_bytes());
    } else {
        lemma_entries_at(vs.drop_last(), i);
        assert(all_bytes(vs).subrange(7 * i, 7 * i + 7) =~= all_bytes(vs.drop_last()).subrange(7 * i, 7 * i + 7));
    }
}

proof fn lemma_entries_len(vs: Seq<ApiVersionsVer>)
    ensures
        all_bytes(vs).len() == 7 * vs.len(),
    decreases vs.len(),
{
    if vs.len() > 0 {
        lemma_entries_len(vs.drop_last());
    }
}

/// Read back with the big-endian readers, the body of an `ApiVersions`
/// response holds: the error code at 0; the count byte (the number of
/// entries plus one) at 2; for the `i`-th entry, its API key at
/// `3 + 7 * i`, the lowest version of its range at `5 + 7 * i`, the
/// highest at `7 + 7 * i` and its tag byte at `9 + 7 * i`; the throttle
/// time after the entries; the tag buffer last.
pub proof fn lemma_api_versions_body_layout(body: ApiVersionsBody)
    ensures
        ({
            let b = body.spec_to_bytes();
            let vs = body.versions@;
            let n = vs.len() as int;
            &&& b.len() == 8 + 7 * n
            &&& spec_u16(b, 0) == Ok::<(u16, int), ParseFail>((body.error_code, 2))
            &&& b[2] == count_byte(vs.len())
            &&& forall|i: int| 0 <= i < n ==> {
                &&& spec_u16(b, 3 + 7 * i) == Ok::<(u16, int), ParseFail>((#[trigger] vs[i].api_key, 5 + 7 * i))
                &&& spec_u16(b, 5 + 7 * i) == Ok::<(u16, int), ParseFail>((vs[i].version_range@.start, 7 + 7 * i))
                &&& spec_u16(b, 7 + 7 * i) == Ok::<(u16, int), ParseFail>((vs[i].version_range@.end, 9 + 7 * i))
                &&& b[9 + 7 * i] == vs[i].tag_buffer
            }
            &&& spec_u32(b, 3 + 7 * n) == Ok::<(u32, int), ParseFail>((body.throttle_time, 7 + 7 * n))
            &&& b[7 + 7 * n] == body.tag_buffer
        }),
{
    let b = body.spec_to_bytes();
    let vs = body.versions@;
    let n = vs.len() as int;
    lemma_entries_len(vs);
    assert(b.subrange(0, 2) =~= be16(body.error_code));
    lemma_u16_written(b, 0, body.error_code);
    assert(b.subrange(3, 3 + 7 * n) =~= all_bytes(vs));
    assert forall|i: int| 0 <= i < n implies {
        &&& spec_u16(b, 3 + 7 * i) == Ok::<(u16, int), ParseFail>((#[trigger] vs[i].api_key, 5 + 7 * i))
        &&& spec_u16(b, 5 + 7 * i) == Ok::<(u16, int), ParseFail>((vs[i].version_range@.start, 7 + 7 * i))
        &&& spec_u16(b, 7 + 7 * i) == Ok::<(u16, int), ParseFail>((vs[i].version_range@.end, 9 + 7 * i))
        &&& b[9 + 7 * i] == vs[i].tag_buffer
    } by {
        lemma_entries_at(vs, i);
        assert(b.subrange(3 + 7 * i, 10 + 7 * i) =~= all_bytes(vs).subrange(7 * i, 7 * i + 7));
        lemma_entry_read_back(b, 3 + 7 * i, vs[i]);
    }
    assert(b.subrange(3 + 7 * n, 7 + 7 * n) =~= be32(body.throttle_time));
    lemma_u32_written(b, 3 + 7 * n, body.throttle_time);
}

/// The error code of an `ApiVersions` response body: 0 for key 18 with a
/// version from 0 to 4 and for key 75 with version 0; 35 for another
/// version of those keys; 36 for any other key.
pub proof fn lemma_api_error_code_values(key: u16, version: u16)
    ensures
        spec_api_error_code(key, version) == if key == 18 {
            if version <= 4 { 0u16 } else { 35u16 }
        } else if key == 75 {
            if version == 0 { 0u16 } else { 35u16 }
        } else {
            36u16
        },
{
    reveal_with_fuel(crate::api::capabilites::find_api, 3);
}

} // verus!

//! An older writer of `ApiVersions` responses, frame size included.
use std::ops::RangeInclusive;

use crate::api::capabilites::{api_table, find_api};
use crate::api::responses::body::api_versions::{count_byte, count_fits, spec_api_error_code};
use crate::buffer::{be16, be32, buf_bytes, put_u16, put_u32, put_u8};
use crate::error::ParseFail;
use crate::protocol::reader::{lemma_u16_written, lemma_u32_written, spec_u16, spec_u32};
use crate::requests::ApiVersionsReq;
use crate::utils::versions::{api_capabilities, is_capabilities, spec_check, ApiReqVersion};
use bytes::BytesMut;
use vstd::prelude::*;
use vstd::std_specs::convert::FromSpecImpl;

verus! {

broadcast use vstd::std_specs::hash::group_hash_axioms;

/// An `ApiVersions` response with the size of its frame.
#[derive(Debug)]
pub struct ApiVersionsRes {
    pub size: u32,
    pub header: ApiResHeader,
    pub body: ApiResBody,
}

#[derive(Debug)]
pub struct ApiResHeader {
    pub correlation_id: u32,
}

#[derive(Debug)]
pub struct ApiResBody {
    pub error_code: u16,
    pub versions: Vec<ApiVersion>,
    pub throttle_time: u32,
    pub tag_buffer: u8,
}

/// One API with the versions of it that the broker serves.
#[derive(Debug)]
pub struct ApiVersion {
    pub api_key: u16,
    pub version_range: RangeInclusive<u16>,
    pub tag_buffer: u8,
}

/// The error code for a request of `version` of the API with `key`: 0
/// when it is served, else the code of the reason why not.
pub open spec fn spec_error_code(key: u16, version: u16) -> u16 {
    match spec_check(key, version) {
        Ok(_) => 0,
        Err(e) => e.spec_error_code(),
    }
}

/// The wire form of one API entry.
pub open spec fn version_bytes(v: ApiVersion) -> Seq<u8> {
    be16(v.api_key) + be16(v.version_range@.start) + be16(v.version_range@.end) + seq![v.tag_buffer]
}

/// The wire forms of API entries, one after the other.
pub open spec fn versions_bytes(vs: Seq<ApiVersion>) -> Seq<u8>
    decreases vs.len(),
{
    if vs.len() == 0 {
        Seq::empty()
    } else {
        versions_bytes(vs.drop_last()) + version_bytes(vs.last())
    }
}

impl ApiVersionsRes {
    /// The frame: the size field, the correlation id, the error code, the
    /// compact count of APIs, the APIs, the throttle time and a zero tag
    /// byte.
    pub open spec fn spec_bytes(&self) -> Seq<u8> {
        be32(self.size) + be32(self.header.correlation_id) + be16(self.body.error_code)
            + seq![count_byte(self.body.versions@.len())] + versions_bytes(self.body.versions@)
            + be32(self.body.throttle_time) + seq![0u8]
    }

    /// The frame can be written: the count byte does not overflow and the
    /// frame fits an allocation.
    pub open spec fn writable(&self) -> bool {
        &&& count_fits(self.body.versions@.len())
        &&& self.spec_bytes().len() <= isize::MAX
    }
}

/// `res` answers `req`: the size field is 12 plus 7 for each listed API;
/// the correlation id is echoed; the error code says whether the
/// requested version is served; the APIs of the table are listed, each
/// once and in no particular order, exactly when the error code is 0 and
/// the request is an `ApiVersions` request; the tag buffer of the request
/// header is kept.
pub open spec fn answers(req: <ApiVersionsReq as View>::V, res: ApiVersionsRes) -> bool {
    let (key, version, correlation_id, tag_buffer) = (req.1.0, req.1.1, req.1.2, req.1.4);
    let listed = spec_error_code(key, version) == 0 && key == 18;
    let vs = res.body.versions@;
    &&& res.size == 12 + 7 * vs.len()
    &&& res.header.correlation_id == correlation_id
    &&& res.body.error_code == spec_error_code(key, version)
    &&& vs.len() == if listed { api_table().len() } else { 0 }
    &&& forall|i: int| 0 <= i < vs.len() ==> {
        &&& find_api(api_table(), #[trigger] vs[i].api_key) == Some(
            (vs[i].version_range@.start, vs[i].version_range@.end),
        )
        &&& !vs[i].version_range@.exhausted
        &&& vs[i].tag_buffer == 0
    }
    &&& forall|i: int, j: int| 0 <= i < j < vs.len() ==> #[trigger] vs[i].api_key != #[trigger] vs[j].api_key
    &&& res.body.throttle_time == 0
    &&& res.body.tag_buffer == tag_buffer
}

impl From<ApiVersionsReq> for ApiVersionsRes {
    /// Answers the request; see `answers`.
    fn from(req: ApiVersionsReq) -> (r: ApiVersionsRes)
        ensures
            answers(req@, r),
    {
        let mut versions: Vec<ApiVersion> = Vec::new();
        let error_code = match ApiReqVersion::new(req.header.key, req.header.version).check() {
            Ok(_) => 0,
            Err(api_error) => api_error.into_error_code(),
        };
        if error_code == 0 {
            match req.header.key {
                18 => {
                    let api_capabilities = api_capabilities();
                    let ghost caps = api_capabilities@;
                    for entry in it: api_capabilities.iter()
                        invariant
                            is_capabilities(caps),
                            caps == api_capabilities@,
                            versions@.len() == it.index(),
                            it.seq().len() == caps.dom().len(),
                            it.seq().no_duplicates(),
                            forall|j: int| 0 <= j < it.seq().len() ==> {
                                &&& caps.contains_key(*(#[trigger] it.seq()[j]).0)
                                &&& caps[*it.seq()[j].0] == *it.seq()[j].1
                            },
                            forall|j: int| 0 <= j < versions@.len() ==> {
                                &&& #[trigger] versions@[j].api_key == *it.seq()[j].0
                                &&& versions@[j].version_range@.start == it.seq()[j].1.1@.start
                                &&& versions@[j].version_range@.end == it.seq()[j].1.1@.end
                                &&& !versions@[j].version_range@.exhausted
                                &&& versions@[j].tag_buffer == 0
                            },
                    {
                        let ghost idx = versions@.len() as int;
                        assert(entry == it.seq()[idx]);
                        let (api_key, (_, version_range)) = entry;
                        let v = ApiVersion { api_key: *api_key, version_range: version_range.clone(), tag_buffer: 0 };
                        assert(v.api_key == *it.seq()[idx].0);
                        assert(v.version_range@.start == it.seq()[idx].1.1@.start);
                        assert(v.version_range@.end == it.seq()[idx].1.1@.end);
                        let ghost before = versions@;
                        versions.push(v);
                        assert forall|j: int| 0 <= j < versions@.len() implies {
                            &&& #[trigger] versions@[j].api_key == *it.seq()[j].0
                            &&& versions@[j].version_range@.start == it.seq()[j].1.1@.start
                            &&& versions@[j].version_range@.end == it.seq()[j].1.1@.end
                            &&& !versions@[j].version_range@.exhausted
                            &&& versions@[j].tag_buffer == 0
                        } by {
                            if j < idx {
                                assert(versions@[j] == before[j]);
                            }
                        }
                    }
                },
                _ => {},
            };
        };
        let header = ApiResHeader { correlation_id: req.header.correlation_id };
        let versions_len = versions.len() as u32;
        let body = ApiResBody { error_code, versions: versions, throttle_time: 0, tag_buffer: req.header.tag_buffer };
        ApiVersionsRes { size: 12 + versions_len * 7, header, body }
    }
}

impl FromSpecImpl<ApiVersionsReq> for ApiVersionsRes {
    /// The APIs are listed in the order in which a hash map is walked, so
    /// no single response is promised through the trait; `answers` states
    /// what holds of every response that `from` gives.
    open spec fn obeys_from_spec() -> bool {
        false
    }

    open spec fn from_spec(req: ApiVersionsReq) -> ApiVersionsRes {
        arbitrary()
    }
}

impl ApiVersionsRes {
    /// Writes the frame.
    pub fn into_bytes(self) -> (r: BytesMut)
        requires
            self.writable(),
        ensures
            buf_bytes(r) == self.spec_bytes(),
    {
        let mut buf = BytesMut::with_capacity(8);
        put_u32(&mut buf, self.size);
        put_u32(&mut buf, self.header.correlation_id);
        put_u16(&mut buf, self.body.error_code);
        put_u8(&mut buf, self.body.versions.len() as u8 + 1);
        let ghost head = buf_bytes(buf);
        let ghost vs = self.body.versions@;
        proof {
            lemma_versions_bytes_prefix(vs, vs.len() as int);
            assert(vs.take(vs.len() as int) =~= vs);
            assert(vs.take(0) =~= Seq::<ApiVersion>::empty());
        }
        let versions = self.body.versions;
        let mut i: usize = 0;
        while i < versions.len()
            invariant
                versions@ == vs,
                i <= vs.len(),
                head.len() + versions_bytes(vs).len() + 5 <= isize::MAX,
                buf_bytes(buf) == head + versions_bytes(vs.take(i as int)),
            decreases versions.len() - i,
        {
            let version = &versions[i];
            proof {
                assert(vs.take(i + 1).drop_last() =~= vs.take(i as int));
                lemma_versions_bytes_prefix(vs, i + 1);
            }
            put_u16(&mut buf, version.api_key);
            put_u16(&mut buf, *version.version_range.start());
            put_u16(&mut buf, *version.version_range.end());
            put_u8(&mut buf, version.tag_buffer);
            assert(buf_bytes(buf) =~= head + versions_bytes(vs.take(i + 1)));
            i = i + 1;
        }
        assert(vs.take(i as int) =~= vs);
        put_u32(&mut buf, self.body.throttle_time);
        put_u8(&mut buf, 0);
        assert(buf_bytes(buf) =~= self.spec_bytes());
        buf
    }
}

/// The wire forms of a prefix of entries are no longer than those of all.
proof fn lemma_versions_bytes_prefix(vs: Seq<ApiVersion>, i: int)
    requires
        0 <= i <= vs.len(),
    ensures
        versions_bytes(vs.take(i)).len() <= versions_bytes(vs).len(),
        versions_bytes(vs.take(i)).len() == 7 * i,
    decreases vs.len() - i,
{
    if i < vs.len() {
        lemma_versions_bytes_prefix(vs, i + 1);
        assert(vs.take(i + 1).drop_last() =~= vs.take(i));
    } else {
        assert(vs.take(i) =~= vs);
        lemma_versions_bytes_len(vs);
    }
}

proof fn lemma_versions_bytes_len(vs: Seq<ApiVersion>)
    ensures
        versions_bytes(vs).len() == 7 * vs.len(),
    decreases vs.len(),
{
    if vs.len() > 0 {
        lemma_versions_bytes_len(vs.drop_last());
    }
}

/// The request header check and the capability-map check agree: for
/// every API key and version they give the same error code.
pub proof fn lemma_error_codes_agree(key: u16, version: u16)
    ensures
        spec_error_code(key, version) == spec_api_error_code(key, version),
{
}

/// The wire form of the `i`-th entry is the seven bytes at `7 * i`.
proof fn lemma_versions_bytes_at(vs: Seq<ApiVersion>, i: int)
    requires
        0 <= i < vs.len(),
    ensures
        versions_bytes(vs).subrange(7 * i, 7 * i + 7) == version_bytes(vs[i]),
    decreases vs.len(),
{
    lemma_versions_bytes_len(vs.drop_last());
    if i == vs.len() - 1 {
        assert(versions_bytes(vs).subrange(7 * i, 7 * i + 7) =~= version_bytes(vs[i]));
    } else {
        lemma_versions_bytes_at(vs.drop_last(), i);
        assert(versions_bytes(vs).subrange(7 * i, 7 * i + 7) =~= versions_bytes(vs.drop_last()).subrange(
            7 * i,
            7 * i + 7,
        ));
    }
}

/// An entry written at `off` reads back as its key, the two ends of its
/// range and its tag byte.
proof fn lemma_entry_read_back(b: Seq<u8>, off: int, v: ApiVersion)
    requires
        0 <= off,
        off + 7 <= b.len(),
        b.subrange(off, off + 7) == version_bytes(v),
    ensures
        spec_u16(b, off) == Ok::<(u16, int), ParseFail>((v.api_key, off + 2)),
        spec_u16(b, off + 2) == Ok::<(u16, int), ParseFail>((v.version_range@.start, off + 4)),
        spec_u16(b, off + 4) == Ok::<(u16, int), ParseFail>((v.version_range@.end, off + 6)),
        b[off + 6] == v.tag_buffer,
{
    let e = b.subrange(off, off + 7);
    let (k0, s0, e0) = (be16(v.api_key), be16(v.version_range@.start), be16(v.version_range@.end));
    assert(version_bytes(v) =~= k0 + s0 + e0 + seq![v.tag_buffer]);
    assert(e.subrange(0, 2) =~= k0);
    assert(e.subrange(2, 4) =~= s0);
    assert(e.subrange(4, 6) =~= e0);
    assert(b.subrange(off, off + 2) =~= e.subrange(0, 2));
    assert(b.subrange(off + 2, off + 4) =~= e.subrange(2, 4));
    assert(b.subrange(off + 4, off + 6) =~= e.subrange(4, 6));
    assert(b.subrange(off, off + 2) =~= be16(v.api_key));
    assert(b.subrange(off + 2, off + 4) =~= be16(v.version_range@.start));
    assert(b.subrange(off + 4, off + 6) =~= be16(v.version_range@.end));
    assert(b[off + 6] == e[6]);
    lemma_u16_written(b, off, v.api_key);
    lemma_u16_written(b, off + 2, v.version_range@.start);
    lemma_u16_written(b, off + 4, v.version_range@.end);
}

/// Read back with the big-endian readers, the frame of an `ApiVersions`
/// response holds: the size field at 0; the correlation id at 4; the
/// error code at 8; the count byte (the number of entries plus one) at
/// 10; for the `i`-th entry, its API key at `11 + 7 * i`, the lowest
/// version of its range at `13 + 7 * i`, the highest at `15 + 7 * i` and
/// its tag byte at `17 + 7 * i`; the throttle time after the entries; a
/// zero tag byte last.
pub proof fn lemma_api_versions_res_layout(res: ApiVersionsRes)
    ensures
        ({
            let b = res.spec_bytes();
            let vs = res.body.versions@;
            let n = vs.len() as int;
            &&& b.len() == 16 + 7 * n
            &&& spec_u32(b, 0) == Ok::<(u32, int), ParseFail>((res.size, 4))
            &&& spec_u32(b, 4) == Ok::<(u32, int), ParseFail>((res.header.correlation_id, 8))
            &&& spec_u16(b, 8) == Ok::<(u16, int), ParseFail>((res.body.error_code, 10))
            &&& b[10] == count_byte(vs.len())
            &&& forall|i: int| 0 <= i < n ==> {
                &&& spec_u16(b, 11 + 7 * i) == Ok::<(u16, int), ParseFail>((#[trigger] vs[i].api_key, 13 + 7 * i))
                &&& spec_u16(b, 13 + 7 * i) == Ok::<(u16, int), ParseFail>((vs[i].version_range@.start, 15 + 7 * i))
                &&& spec_u16(b, 15 + 7 * i) == Ok::<(u16, int), ParseFail>((vs[i].version_range@.end, 17 + 7 * i))
                &&& b[17 + 7 * i] == vs[i].tag_buffer
            }
            &&& spec_u32(b, 11 + 7 * n) == Ok::<(u32, int), ParseFail>((res.body.throttle_time, 15 + 7 * n))
            &&& b[15 + 7 * n] == 0
        }),
{
    let b = res.spec_bytes();
    let vs = res.body.versions@;
    let n = vs.len() as int;
    lemma_versions_bytes_len(vs);
    assert(b.subrange(0, 4) =~= be32(res.size));
    lemma_u32_written(b, 0, res.size);
    assert(b.subrange(4, 8) =~= be32(res.header.correlation_id));
    lemma_u32_written(b, 4, res.header.correlation_id);
    assert(b.subrange(8, 10) =~= be16(res.body.error_code));
    lemma_u16_written(b, 8, res.body.error_code);
    assert(b.subrange(11, 11 + 7 * n) =~= versions_bytes(vs));
    assert forall|i: int| 0 <= i < n implies {
        &&& spec_u16(b, 11 + 7 * i) == Ok::<(u16, int), ParseFail>((#[trigger] vs[i].api_key, 13 + 7 * i))
        &&& spec_u16(b, 13 + 7 * i) == Ok::<(u16, int), ParseFail>((vs[i].version_range@.start, 15 + 7 * i))
        &&& spec_u16(b, 15 + 7 * i) == Ok::<(u16, int), ParseFail>((vs[i].version_range@.end, 17 + 7 * i))
        &&& b[17 + 7 * i] == vs[i].tag_buffer
    } by {
        lemma_versions_bytes_at(vs, i);
        assert(b.subrange(11 + 7 * i, 18 + 7 * i) =~= versions_bytes(vs).subrange(7 * i, 7 * i + 7));
        lemma_entry_read_back(b, 11 + 7 * i, vs[i]);
    }
    assert(b.subrange(11 + 7 * n, 15 + 7 * n) =~= be32(res.body.throttle_time));
    lemma_u32_written(b, 11 + 7 * n, res.body.throttle_time);
}

/// The error code of an `ApiVersions` response: 0 for key 18 with a
/// version from 0 to 4 and for key 75 with version 0; 35 for another
/// version of those keys; 36 for any other key.
pub proof fn lemma_api_versions_res_error_code(req: <ApiVersionsReq as View>::V, res: ApiVersionsRes)
    requires
        answers(req, res),
    ensures
        ({
            let (key, version) = (req.1.0, req.1.1);
            res.body.error_code == if key == 18 {
                if version <= 4 { 0u16 } else { 35u16 }
            } else if key == 75 {
                if version == 0 { 0u16 } else { 35u16 }
            } else {
                36u16
            }
        }),
{
    reveal_with_fuel(find_api, 3);
}

} // verus!

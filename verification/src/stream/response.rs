//! An `ApiVersions` response for a [`RequestApiVersion`], with the size
//! of its frame.
use crate::api::responses::body::api_versions::{count_byte, count_fits};
use crate::buffer::{be16, be32, buf_bytes, put_u16, put_u32, put_u8};
use crate::error::ParseFail;
use crate::protocol::reader::{lemma_u16_written, lemma_u32_written, spec_u16, spec_u32};
use crate::stream::request::RequestApiVersion;
use crate::utils::{response_error_code, ResponseApiError};
use bytes::BytesMut;
use vstd::prelude::*;
use vstd::std_specs::convert::FromSpecImpl;

verus! {

pub struct ResponseApiVersion {
    pub header: ResponseHeader,
    pub body: ResponseBody,
}

pub struct ResponseHeader {
    pub correlation_id: u32,
}

pub struct ResponseBody {
    pub error_code: u16,
    pub versions: Vec<ResponseVersion>,
    pub throttle_time_ms: u32,
    pub tag_buffer: u8,
}

pub struct ResponseVersion {
    pub api_key: u16,
    pub version_range: (u16, u16),
    pub tag_buffer: u8,
}

/// Why a request with `key` and `version` is not served: only key 18
/// with a version from 0 to 4 is.
pub open spec fn spec_check(key: u16, version: u16) -> Result<(), ResponseApiError> {
    if key != 18 {
        Err(ResponseApiError::UnsupportedKey(key))
    } else if !(0 <= version <= 4) {
        Err(ResponseApiError::UnsupportedVersion(version))
    } else {
        Ok(())
    }
}

/// The error code for a request with `key` and `version`.
pub open spec fn spec_error_code(key: u16, version: u16) -> u16 {
    match spec_check(key, version) {
        Ok(_) => 0,
        Err(e) => response_error_code(e),
    }
}

/// The wire form of one API entry.
pub open spec fn version_bytes(v: ResponseVersion) -> Seq<u8> {
    be16(v.api_key) + be16(v.version_range.0) + be16(v.version_range.1) + seq![v.tag_buffer]
}

/// The wire forms of API entries, one after the other.
pub open spec fn versions_bytes(vs: Seq<ResponseVersion>) -> Seq<u8>
    decreases vs.len(),
{
    if vs.len() == 0 {
        Seq::empty()
    } else {
        versions_bytes(vs.drop_last()) + version_bytes(vs.last())
    }
}

/// `res` answers `req`: the correlation id is echoed; the error code says
/// whether the request is served; one API is listed, with the key of the
/// request, versions 0 to 4 and the tag buffer of the request header; the
/// throttle time is zero; the tag buffer of the request header is kept.
pub open spec fn answers(req: <RequestApiVersion as View>::V, res: ResponseApiVersion) -> bool {
    let (key, version, correlation_id, tag_buffer) = (req.1.0, req.1.1, req.1.2, req.1.4);
    &&& res.header.correlation_id == correlation_id
    &&& res.body.error_code == spec_error_code(key, version)
    &&& res.body.versions@.len() == 1
    &&& res.body.versions@[0].api_key == key
    &&& res.body.versions@[0].version_range == (0u16, 4u16)
    &&& res.body.versions@[0].tag_buffer == tag_buffer
    &&& res.body.throttle_time_ms == 0
    &&& res.body.tag_buffer == tag_buffer
}

impl From<RequestApiVersion> for ResponseApiVersion {
    /// Answers the request; see `answers`.
    fn from(req: RequestApiVersion) -> (r: Self)
        ensures
            answers(req@, r),
    {
        let error_code: u16 = match Self::check(&req) {
            Ok(_) => 0,
            Err(err) => err.into(),
        };
        let mut versions = Vec::new();
        versions.push(ResponseVersion { api_key: req.header.key, version_range: (0, 4), tag_buffer: req.header.tag_buffer });
        Self {
            header: ResponseHeader { correlation_id: req.header.correlation_id },
            body: ResponseBody { error_code, versions: versions, throttle_time_ms: 0, tag_buffer: req.header.tag_buffer },
        }
    }
}

impl FromSpecImpl<RequestApiVersion> for ResponseApiVersion {
    /// A response holds a vector, which has no mathematical value to build
    /// here, so no value is promised through the trait; `answers` states
    /// what `from` gives.
    open spec fn obeys_from_spec() -> bool {
        false
    }

    open spec fn from_spec(req: RequestApiVersion) -> Self {
        arbitrary()
    }
}

impl ResponseApiVersion {
    /// The size field: the correlation id (4), error code (2), count byte (1), 7 for each listed API, throttle time (4) and tag buffer (1).
    pub open spec fn spec_size(&self) -> int {
        12 + 7 * self.body.versions@.len() as int
    }

    /// The frame: the size field, the correlation id, the error code, the
    /// compact count of APIs, the APIs, the throttle time and the tag
    /// buffer.
    pub open spec fn spec_bytes(&self) -> Seq<u8> {
        be32(self.spec_size() as u32) + be32(self.header.correlation_id) + be16(self.body.error_code)
            + seq![count_byte(self.body.versions@.len())] + versions_bytes(self.body.versions@)
            + be32(self.body.throttle_time_ms) + seq![self.body.tag_buffer]
    }

    /// The frame can be written: the size fits 32 bits, the count byte
    /// does not overflow and the frame fits an allocation.
    pub open spec fn writable(&self) -> bool {
        &&& self.spec_size() <= u32::MAX
        &&& count_fits(self.body.versions@.len())
        &&& 4 + self.spec_size() <= isize::MAX
    }

    pub fn size(&self) -> (n: u32)
        requires
            self.spec_size() <= u32::MAX,
        ensures
            n == self.spec_size(),
    {
        let mut size: u32 = 4;
        size += 2;
        size += 1;
        let mut i: usize = 0;
        while i < self.body.versions.len()
            invariant
                i <= self.body.versions@.len(),
                12 + 7 * self.body.versions@.len() <= u32::MAX,
                size == 7 + 7 * i,
            decreases self.body.versions.len() - i,
        {
            size += 2;
            size += 2;
            size += 2;
            size += 1;
            i = i + 1;
        }
        size += 4;
        size += 1;
        size
    }

    fn check(req: &RequestApiVersion) -> (r: Result<(), ResponseApiError>)
        ensures
            r == spec_check(req.header.key, req.header.version),
    {
        match Self::check_api_key(&req) {
            Ok(_) => {},
            Err(e) => return Err(e),
        }
        match Self::check_version(&req) {
            Ok(_) => {},
            Err(e) => return Err(e),
        }
        Ok(())
    }

    fn check_api_key(req: &RequestApiVersion) -> (r: Result<(), ResponseApiError>)
        ensures
            r == if req.header.key == 18 { Ok(()) } else { Err(ResponseApiError::UnsupportedKey(req.header.key)) },
    {
        if req.header.key == 18 {
            return Ok(());
        }
        Err(ResponseApiError::UnsupportedKey(req.header.key))
    }

    fn check_version(req: &RequestApiVersion) -> (r: Result<(), ResponseApiError>)
        ensures
            r == if 0 <= req.header.version <= 4 {
                Ok(())
            } else {
                Err(ResponseApiError::UnsupportedVersion(req.header.version))
            },
    {
        let range = 0..=4;
        if range.contains(&req.header.version) {
            return Ok(());
        }
        Err(ResponseApiError::UnsupportedVersion(req.header.version))
    }

    /// Writes the frame.
    pub fn into_bytes(self) -> (r: BytesMut)
        requires
            self.writable(),
        ensures
            buf_bytes(r) == self.spec_bytes(),
    {
        let mut buf = BytesMut::with_capacity(8);
        put_u32(&mut buf, self.size());
        put_u32(&mut buf, self.header.correlation_id);
        put_u16(&mut buf, self.body.error_code);
        put_u8(&mut buf, self.body.versions.len() as u8 + 1);
        let ghost head = buf_bytes(buf);
        let ghost vs = self.body.versions@;
        proof {
            lemma_versions_bytes_len(vs);
            assert(vs.take(0) =~= Seq::<ResponseVersion>::empty());
        }
        let versions = self.body.versions;
        let mut i: usize = 0;
        while i < versions.len()
            invariant
                versions@ == vs,
                i <= vs.len(),
                head.len() == 11,
                12 + 7 * vs.len() <= u32::MAX,
                16 + 7 * vs.len() <= isize::MAX,
                buf_bytes(buf) == head + versions_bytes(vs.take(i as int)),
            decreases versions.len() - i,
        {
            let version = &versions[i];
            proof {
                assert(vs.take(i + 1).drop_last() =~= vs.take(i as int));
                lemma_versions_bytes_len(vs.take(i as int));
            }
            put_u16(&mut buf, version.api_key);
            put_u16(&mut buf, version.version_range.0);
            put_u16(&mut buf, version.version_range.1);
            put_u8(&mut buf, version.tag_buffer);
            assert(buf_bytes(buf) =~= head + versions_bytes(vs.take(i + 1)));
            i = i + 1;
        }
        assert(vs.take(i as int) =~= vs);
        put_u32(&mut buf, self.body.throttle_time_ms);
        put_u8(&mut buf, self.body.tag_buffer);
        assert(buf_bytes(buf) =~= self.spec_bytes());
        buf
    }
}

proof fn lemma_versions_bytes_len(vs: Seq<ResponseVersion>)
    ensures
        versions_bytes(vs).len() == 7 * vs.len(),
    decreases vs.len(),
{
    if vs.len() > 0 {
        lemma_versions_bytes_len(vs.drop_last());
    }
}

/// The size field of a frame counts every byte after it.
pub proof fn lemma_size_counts_frame(res: ResponseApiVersion)
    requires
        res.writable(),
    ensures
        res.spec_bytes().len() == 4 + res.spec_size(),
{
    lemma_versions_bytes_len(res.body.versions@);
}

/// The wire form of the `i`-th entry is the seven bytes at `7 * i`.
proof fn lemma_versions_bytes_at(vs: Seq<ResponseVersion>, i: int)
    requires
        0 <= i < vs.len(),
    ensures
        versions_bytes(vs).subrange(7 * i, 7 * i + 7) == version_bytes(vs[i]),
    decreases vs.len(),
{
    lemma_versions_bytes_len(vs.drop_last());
    if i == vs.len() - 1 {
        assert(versions_bytes(vs).subrange(7 * i, 7 * i + 7) =~= version_bytes(vs[i]));
    } else {
        lemma_versions_bytes_at(vs.drop_last(), i);
        assert(versions_bytes(vs).subrange(7 * i, 7 * i + 7) =~= versions_bytes(vs.drop_last()).subrange(
            7 * i,
            7 * i + 7,
        ));
    }
}

/// An entry written at `off` reads back as its key, the two ends of its
/// range and its tag byte.
proof fn lemma_entry_read_back(b: Seq<u8>, off: int, v: ResponseVersion)
    requires
        0 <= off,
        off + 7 <= b.len(),
        b.subrange(off, off + 7) == version_bytes(v),
    ensures
        spec_u16(b, off) == Ok::<(u16, int), ParseFail>((v.api_key, off + 2)),
        spec_u16(b, off + 2) == Ok::<(u16, int), ParseFail>((v.version_range.0, off + 4)),
        spec_u16(b, off + 4) == Ok::<(u16, int), ParseFail>((v.version_range.1, off + 6)),
        b[off + 6] == v.tag_buffer,
{
    let e = b.subrange(off, off + 7);
    let (k0, s0, e0) = (be16(v.api_key), be16(v.version_range.0), be16(v.version_range.1));
    assert(version_bytes(v) =~= k0 + s0 + e0 + seq![v.tag_buffer]);
    assert(e.subrange(0, 2) =~= k0);
    assert(e.subrange(2, 4) =~= s0);
    assert(e.subrange(4, 6) =~= e0);
    assert(b.subrange(off, off + 2) =~= e.subrange(0, 2));
    assert(b.subrange(off + 2, off + 4) =~= e.subrange(2, 4));
    assert(b.subrange(off + 4, off + 6) =~= e.subrange(4, 6));
    assert(b[off + 6] == e[6]);
    lemma_u16_written(b, off, v.api_key);
    lemma_u16_written(b, off + 2, v.version_range.0);
    lemma_u16_written(b, off + 4, v.version_range.1);
}

/// Read back with the big-endian readers, the frame holds: the size field
/// (12 plus 7 per entry) at 0; the correlation id at 4; the error code at
/// 8; the count byte (the number of entries plus one) at 10; for the
/// `i`-th entry, its API key at `11 + 7 * i`, the lowest version of its
/// range at `13 + 7 * i`, the highest at `15 + 7 * i` and its tag byte at
/// `17 + 7 * i`; the throttle time after the entries; the tag buffer last.
pub proof fn lemma_response_layout(res: ResponseApiVersion)
    ensures
        ({
            let b = res.spec_bytes();
            let vs = res.body.versions@;
            let n = vs.len() as int;
            &&& b.len() == 16 + 7 * n
            &&& spec_u32(b, 0) == Ok::<(u32, int), ParseFail>(((12 + 7 * n) as u32, 4))
            &&& spec_u32(b, 4) == Ok::<(u32, int), ParseFail>((res.header.correlation_id, 8))
            &&& spec_u16(b, 8) == Ok::<(u16, int), ParseFail>((res.body.error_code, 10))
            &&& b[10] == count_byte(vs.len())
            &&& forall|i: int| 0 <= i < n ==> {
                &&& spec_u16(b, 11 + 7 * i) == Ok::<(u16, int), ParseFail>((#[trigger] vs[i].api_key, 13 + 7 * i))
                &&& spec_u16(b, 13 + 7 * i) == Ok::<(u16, int), ParseFail>((vs[i].version_range.0, 15 + 7 * i))
                &&& spec_u16(b, 15 + 7 * i) == Ok::<(u16, int), ParseFail>((vs[i].version_range.1, 17 + 7 * i))
                &&& b[17 + 7 * i] == vs[i].tag_buffer
            }
            &&& spec_u32(b, 11 + 7 * n) == Ok::<(u32, int), ParseFail>((res.body.throttle_time_ms, 15 + 7 * n))
            &&& b[15 + 7 * n] == res.body.tag_buffer
        }),
{
    let b = res.spec_bytes();
    let vs = res.body.versions@;
    let n = vs.len() as int;
    lemma_versions_bytes_len(vs);
    let size = (12 + 7 * n) as u32;
    assert(b.subrange(0, 4) =~= be32(size));
    lemma_u32_written(b, 0, size);
    assert(b.subrange(4, 8) =~= be32(res.header.correlation_id));
    lemma_u32_written(b, 4, res.header.correlation_id);
    assert(b.subrange(8, 10) =~= be16(res.body.error_code));
    lemma_u16_written(b, 8, res.body.error_code);
    assert(b.subrange(11, 11 + 7 * n) =~= versions_bytes(vs));
    assert forall|i: int| 0 <= i < n implies {
        &&& spec_u16(b, 11 + 7 * i) == Ok::<(u16, int), ParseFail>((#[trigger] vs[i].api_key, 13 + 7 * i))
        &&& spec_u16(b, 13 + 7 * i) == Ok::<(u16, int), ParseFail>((vs[i].version_range.0, 15 + 7 * i))
        &&& spec_u16(b, 15 + 7 * i) == Ok::<(u16, int), ParseFail>((vs[i].version_range.1, 17 + 7 * i))
        &&& b[17 + 7 * i] == vs[i].tag_buffer
    } by {
        lemma_versions_bytes_at(vs, i);
        assert(b.subrange(11 + 7 * i, 18 + 7 * i) =~= versions_bytes(vs).subrange(7 * i, 7 * i + 7));
        lemma_entry_read_back(b, 11 + 7 * i, vs[i]);
    }
    assert(b.subrange(11 + 7 * n, 15 + 7 * n) =~= be32(res.body.throttle_time_ms));
    lemma_u32_written(b, 11 + 7 * n, res.body.throttle_time_ms);
}

/// The error code of the response to a request: 0 for key 18 with a
/// version from 0 to 4; 35 for key 18 with any other version; 36 for any
/// other key.
pub proof fn lemma_response_error_code(req: <RequestApiVersion as View>::V, res: ResponseApiVersion)
    requires
        answers(req, res),
    ensures
        res.body.error_code == if req.1.0 != 18 {
            36u16
        } else if req.1.1 <= 4 {
            0u16
        } else {
            35u16
        },
{
}

} // verus!

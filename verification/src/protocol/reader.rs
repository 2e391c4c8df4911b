//! Readers for the primitive values of the Kafka wire format, over a byte
//! slice and a position in it.
use crate::buffer::{be16, be32};
use crate::error::{ErrorKind, ParseFail, RequestError};
use vstd::prelude::*;
use vstd::utf8::{decode_utf8, valid_utf8};

verus! {

/// The outcome of reading a value at a position: the value and the
/// position just after it, or how the reading failed.
pub type SpecRead<V> = Result<(V, int), ParseFail>;

/// The view of an executable reading outcome.
pub open spec fn read_view<T: View>(r: Result<(T, usize), RequestError>) -> SpecRead<T::V> {
    match r {
        Ok((v, p)) => Ok((v@, p as int)),
        Err(e) => Err(e.fail()),
    }
}

/// Continues a reading with `f`, applied to the value read and the
/// position after it; a failure stays as it is.
pub open spec fn then<A, B>(r: SpecRead<A>, f: spec_fn(A, int) -> SpecRead<B>) -> SpecRead<B> {
    match r {
        Ok((a, p)) => f(a, p),
        Err(e) => Err(e),
    }
}

/// The number that a byte sequence denotes in big-endian order.
pub open spec fn be_value(s: Seq<u8>) -> nat
    decreases s.len(),
{
    if s.len() == 0 {
        0
    } else {
        be_value(s.drop_last()) * 256 + s.last() as nat
    }
}

/// `256` to the power `k`: one more than the largest value of `k` bytes.
pub open spec fn byte_bound(k: nat) -> nat
    decreases k,
{
    if k == 0 {
        1
    } else {
        256 * byte_bound((k - 1) as nat)
    }
}

/// The `k` bytes at `pos`.
pub open spec fn spec_take(s: Seq<u8>, pos: int, k: int) -> SpecRead<Seq<u8>> {
    if 0 <= pos && 0 <= k && pos + k <= s.len() {
        Ok((s.subrange(pos, pos + k), pos + k))
    } else {
        Err(ParseFail::Eof)
    }
}

/// The big-endian unsigned integer of `k` bytes at `pos`.
pub open spec fn spec_uint(s: Seq<u8>, pos: int, k: int) -> SpecRead<nat> {
    match spec_take(s, pos, k) {
        Ok((b, p)) => Ok((be_value(b), p)),
        Err(f) => Err(f),
    }
}

/// The UTF-8 text of `k` bytes at `pos`.
pub open spec fn spec_text(s: Seq<u8>, pos: int, k: int) -> SpecRead<Seq<char>> {
    match spec_take(s, pos, k) {
        Ok((b, p)) => if valid_utf8(b) {
            Ok((decode_utf8(b), p))
        } else {
            Err(ParseFail::Utf8(b))
        },
        Err(f) => Err(f),
    }
}

/// The number that `k` bytes denote is below `256` to the power `k`.
pub proof fn lemma_be_value_bound(s: Seq<u8>)
    ensures
        be_value(s) < byte_bound(s.len()),
    decreases s.len(),
{
    if s.len() > 0 {
        let v = be_value(s.drop_last());
        let b = byte_bound((s.len() - 1) as nat);
        lemma_be_value_bound(s.drop_last());
        assert(v * 256 + s.last() < b * 256) by (nonlinear_arith)
            requires
                v < b,
                s.last() < 256,
        ;
    }
}

/// More bytes bound larger numbers.
pub proof fn lemma_byte_bound_mono(i: nat, j: nat)
    requires
        i <= j,
    ensures
        byte_bound(i) <= byte_bound(j),
    decreases j,
{
    if i < j {
        lemma_byte_bound_mono(i, (j - 1) as nat);
    }
}

/// Calls `String::from_utf8`, which succeeds exactly on valid UTF-8 and
/// then holds the decoded text; on failure the error hands the bytes back.
#[verifier::external_body]
fn string_from_utf8(bytes: Vec<u8>) -> (r: Result<String, Vec<u8>>)
    ensures
        r is Ok <==> valid_utf8(bytes@),
        r matches Ok(s) ==> s@ == decode_utf8(bytes@),
        r matches Err(b) ==> b@ == bytes@,
{
    String::from_utf8(bytes).map_err(|e| e.into_bytes())
}

pub(crate) fn eof() -> (e: RequestError)
    ensures
        e.fail() == ParseFail::Eof,
{
    RequestError::Io(ErrorKind::UnexpectedEof)
}

/// Reads the big-endian unsigned integer of `k` bytes at `pos`.
pub fn read_uint(input: &[u8], pos: usize, k: usize) -> (r: Result<(u128, usize), RequestError>)
    requires
        k <= 16,
    ensures
        match r {
            Ok((v, p)) => spec_uint(input@, pos as int, k as int) == Ok::<(nat, int), ParseFail>(
                (v as nat, p as int),
            ),
            Err(e) => spec_uint(input@, pos as int, k as int) == Err::<(nat, int), ParseFail>(
                e.fail(),
            ),
        },
{
    if pos > input.len() || input.len() - pos < k {
        return Err(eof());
    }
    let mut v: u128 = 0;
    let mut i: usize = 0;
    while i < k
        invariant
            i <= k <= 16,
            pos + k <= input.len(),
            v == be_value(input@.subrange(pos as int, pos + i)),
        decreases k - i,
    {
        let ghost prefix = input@.subrange(pos as int, pos + i);
        let ghost next = input@.subrange(pos as int, pos + i + 1);
        assert(next.drop_last() =~= prefix);
        proof {
            lemma_be_value_bound(prefix);
            lemma_byte_bound_mono(i as nat, 15);
            reveal_with_fuel(byte_bound, 16);
            assert(byte_bound(15) * 256 == 0x1_0000_0000_0000_0000_0000_0000_0000_0000);
            assert(v * 256 + input[pos + i as int] < byte_bound(15) * 256) by (nonlinear_arith)
                requires
                    v < byte_bound(i as nat),
                    byte_bound(i as nat) <= byte_bound(15),
                    input[pos + i as int] < 256,
            ;
        }
        v = v * 256 + input[pos + i] as u128;
        i = i + 1;
    }
    Ok((v, pos + k))
}

/// Reads `k` bytes at `pos` as UTF-8 text.
pub fn read_text(input: &[u8], pos: usize, k: usize) -> (r: Result<(String, usize), RequestError>)
    ensures
        read_view(r) == spec_text(input@, pos as int, k as int),
{
    if pos > input.len() || input.len() - pos < k {
        return Err(eof());
    }
    let mut bytes: Vec<u8> = Vec::new();
    let mut i: usize = 0;
    while i < k
        invariant
            i <= k,
            pos + k <= input.len(),
            bytes@ =~= input@.subrange(pos as int, pos + i),
        decreases k - i,
    {
        bytes.push(input[pos + i]);
        i = i + 1;
    }
    match string_from_utf8(bytes) {
        Ok(s) => Ok((s, pos + k)),
        Err(b) => Err(RequestError::Utf8(b)),
    }
}


pub(crate) fn zero_length() -> (e: RequestError)
    ensures
        e.fail() == ParseFail::ZeroLength,
{
    RequestError::Protocol("compact length of zero".to_owned())
}

/// A value that can be read from the wire format at a position.
pub trait StreamReader: Sized + View {
    /// What reading at `pos` gives.
    spec fn spec_from_stream(input: Seq<u8>, pos: int) -> SpecRead<Self::V>;

    /// Reads a value at `pos`; returns it with the position just after it.
    fn from_stream(input: &[u8], pos: usize) -> (r: Result<(Self, usize), RequestError>)
        ensures
            read_view(r) == Self::spec_from_stream(input@, pos as int),
    ;
}

#[derive(Debug)]
pub struct Bytes8(pub u8);

#[derive(Debug)]
pub struct Bytes16(pub u16);

#[derive(Debug)]
pub struct Bytes32(pub u32);

#[derive(Debug)]
pub struct Bytes64(pub u64);

#[derive(Debug)]
pub struct Bytes128(pub u128);

#[derive(Debug)]
pub struct BytesUUID(pub [u8; 16]);

/// A string with a two-byte length in front.
#[derive(Debug)]
pub struct BytesString(pub u16, pub String);

/// A string with a one-byte length in front that counts one more than
/// the bytes of the text.
#[derive(Debug)]
pub struct BytesCompactString(pub u8, pub String);

/// An array with a one-byte length in front that counts one more than
/// the elements.
#[derive(Debug)]
pub struct BytesCompactArray<T>(pub Bytes8, pub Vec<T>);

impl View for Bytes8 {
    type V = u8;

    open spec fn view(&self) -> u8 {
        self.0
    }
}

impl View for Bytes16 {
    type V = u16;

    open spec fn view(&self) -> u16 {
        self.0
    }
}

impl View for Bytes32 {
    type V = u32;

    open spec fn view(&self) -> u32 {
        self.0
    }
}

impl View for Bytes64 {
    type V = u64;

    open spec fn view(&self) -> u64 {
        self.0
    }
}

impl View for Bytes128 {
    type V = u128;

    open spec fn view(&self) -> u128 {
        self.0
    }
}

impl View for BytesUUID {
    type V = Seq<u8>;

    open spec fn view(&self) -> Seq<u8> {
        self.0@
    }
}

impl View for BytesString {
    type V = (u16, Seq<char>);

    open spec fn view(&self) -> (u16, Seq<char>) {
        (self.0, self.1@)
    }
}

impl View for BytesCompactString {
    type V = (u8, Seq<char>);

    open spec fn view(&self) -> (u8, Seq<char>) {
        (self.0, self.1@)
    }
}

impl<T: View> View for BytesCompactArray<T> {
    type V = (u8, Seq<T::V>);

    open spec fn view(&self) -> (u8, Seq<T::V>) {
        (self.0.0, self.1@.map_values(|t: T| t@))
    }
}

/// The one-byte unsigned integer at `pos`.
pub open spec fn spec_u8(s: Seq<u8>, pos: int) -> SpecRead<u8> {
    match spec_uint(s, pos, 1) {
        Ok((v, p)) => Ok((v as u8, p)),
        Err(f) => Err(f),
    }
}

/// The big-endian two-byte unsigned integer at `pos`.
pub open spec fn spec_u16(s: Seq<u8>, pos: int) -> SpecRead<u16> {
    match spec_uint(s, pos, 2) {
        Ok((v, p)) => Ok((v as u16, p)),
        Err(f) => Err(f),
    }
}

/// The big-endian four-byte unsigned integer at `pos`.
pub open spec fn spec_u32(s: Seq<u8>, pos: int) -> SpecRead<u32> {
    match spec_uint(s, pos, 4) {
        Ok((v, p)) => Ok((v as u32, p)),
        Err(f) => Err(f),
    }
}

/// The big-endian eight-byte unsigned integer at `pos`.
pub open spec fn spec_u64(s: Seq<u8>, pos: int) -> SpecRead<u64> {
    match spec_uint(s, pos, 8) {
        Ok((v, p)) => Ok((v as u64, p)),
        Err(f) => Err(f),
    }
}

/// The big-endian sixteen-byte unsigned integer at `pos`.
pub open spec fn spec_u128(s: Seq<u8>, pos: int) -> SpecRead<u128> {
    match spec_uint(s, pos, 16) {
        Ok((v, p)) => Ok((v as u128, p)),
        Err(f) => Err(f),
    }
}

/// A string with a two-byte length at `pos`: the length and the text.
pub open spec fn spec_string(s: Seq<u8>, pos: int) -> SpecRead<(u16, Seq<char>)> {
    match spec_uint(s, pos, 2) {
        Ok((n, p)) => match spec_text(s, p, n as int) {
            Ok((t, q)) => Ok(((n as u16, t), q)),
            Err(f) => Err(f),
        },
        Err(f) => Err(f),
    }
}

/// A compact string at `pos`: the length byte `n`, then `n - 1` bytes of
/// text. A length byte of zero cannot be read.
pub open spec fn spec_compact_string(s: Seq<u8>, pos: int) -> SpecRead<(u8, Seq<char>)> {
    match spec_uint(s, pos, 1) {
        Ok((n, p)) => if n == 0 {
            Err(ParseFail::ZeroLength)
        } else {
            match spec_text(s, p, n - 1) {
                Ok((t, q)) => Ok(((n as u8, t), q)),
                Err(f) => Err(f),
            }
        },
        Err(f) => Err(f),
    }
}

/// `n` values of type `T` one after the other from `pos`.
pub open spec fn spec_elems<T: StreamReader>(s: Seq<u8>, pos: int, n: nat) -> SpecRead<Seq<T::V>>
    decreases n,
{
    if n == 0 {
        Ok((Seq::empty(), pos))
    } else {
        match spec_elems::<T>(s, pos, (n - 1) as nat) {
            Ok((xs, p)) => match T::spec_from_stream(s, p) {
                Ok((x, q)) => Ok((xs.push(x), q)),
                Err(f) => Err(f),
            },
            Err(f) => Err(f),
        }
    }
}

/// A compact array at `pos`: the length byte `n`, then `n - 1` elements.
/// A length byte of zero cannot be read.
pub open spec fn spec_compact_array<T: StreamReader>(s: Seq<u8>, pos: int) -> SpecRead<(u8, Seq<T::V>)> {
    match spec_u8(s, pos) {
        Ok((n, p)) => if n == 0 {
            Err(ParseFail::ZeroLength)
        } else {
            match spec_elems::<T>(s, p, (n - 1) as nat) {
                Ok((xs, q)) => Ok(((n, xs), q)),
                Err(f) => Err(f),
            }
        },
        Err(f) => Err(f),
    }
}

/// Once reading the elements fails, reading more of them fails the same way.
pub proof fn lemma_elems_err<T: StreamReader>(s: Seq<u8>, pos: int, m: nat, n: nat)
    requires
        m <= n,
        spec_elems::<T>(s, pos, m) is Err,
    ensures
        spec_elems::<T>(s, pos, n) == spec_elems::<T>(s, pos, m),
    decreases n,
{
    if m < n {
        lemma_elems_err::<T>(s, pos, m, (n - 1) as nat);
    }
}

proof fn lemma_uint_fits(s: Seq<u8>, pos: int, k: nat)
    requires
        spec_uint(s, pos, k as int) is Ok,
    ensures
        spec_uint(s, pos, k as int)->Ok_0.0 < byte_bound(k),
{
    lemma_be_value_bound(s.subrange(pos, pos + k));
}

impl StreamReader for Bytes8 {
    open spec fn spec_from_stream(input: Seq<u8>, pos: int) -> SpecRead<u8> {
        spec_u8(input, pos)
    }

    fn from_stream(input: &[u8], pos: usize) -> (r: Result<(Self, usize), RequestError>) {
        assert(Self::spec_from_stream(input@, pos as int) == spec_u8(input@, pos as int));
        let res = read_uint(input, pos, 1);
        match res {
            Ok((v, p)) => {
                assert(v < 0x100) by {
                    lemma_uint_fits(input@, pos as int, 1);
                    reveal_with_fuel(byte_bound, 2);
                }
                let out = Bytes8(v as u8);
                assert(out@ == v as u8);
                Ok((out, p))
            },
            Err(e) => {
                assert(spec_u8(input@, pos as int) == Err::<(u8, int), ParseFail>(e.fail()));
                Err(e)
            },
        }
    }
}

impl StreamReader for Bytes16 {
    open spec fn spec_from_stream(input: Seq<u8>, pos: int) -> SpecRead<u16> {
        spec_u16(input, pos)
    }

    fn from_stream(input: &[u8], pos: usize) -> (r: Result<(Self, usize), RequestError>) {
        assert(Self::spec_from_stream(input@, pos as int) == spec_u16(input@, pos as int));
        let res = read_uint(input, pos, 2);
        match res {
            Ok((v, p)) => {
                assert(v < 0x1_0000) by {
                    lemma_uint_fits(input@, pos as int, 2);
                    reveal_with_fuel(byte_bound, 3);
                }
                let out = Bytes16(v as u16);
                assert(out@ == v as u16);
                Ok((out, p))
            },
            Err(e) => {
                assert(spec_u16(input@, pos as int) == Err::<(u16, int), ParseFail>(e.fail()));
                Err(e)
            },
        }
    }
}

impl StreamReader for Bytes32 {
    open spec fn spec_from_stream(input: Seq<u8>, pos: int) -> SpecRead<u32> {
        spec_u32(input, pos)
    }

    fn from_stream(input: &[u8], pos: usize) -> (r: Result<(Self, usize), RequestError>) {
        assert(Self::spec_from_stream(input@, pos as int) == spec_u32(input@, pos as int));
        let res = read_uint(input, pos, 4);
        match res {
            Ok((v, p)) => {
                assert(v < 0x1_0000_0000) by {
                    lemma_uint_fits(input@, pos as int, 4);
                    reveal_with_fuel(byte_bound, 5);
                }
                let out = Bytes32(v as u32);
                assert(out@ == v as u32);
                Ok((out, p))
            },
            Err(e) => {
                assert(spec_u32(input@, pos as int) == Err::<(u32, int), ParseFail>(e.fail()));
                Err(e)
            },
        }
    }
}

impl StreamReader for Bytes64 {
    open spec fn spec_from_stream(input: Seq<u8>, pos: int) -> SpecRead<u64> {
        spec_u64(input, pos)
    }

    fn from_stream(input: &[u8], pos: usize) -> (r: Result<(Self, usize), RequestError>) {
        assert(Self::spec_from_stream(input@, pos as int) == spec_u64(input@, pos as int));
        let res = read_uint(input, pos, 8);
        match res {
            Ok((v, p)) => {
                assert(v < 0x1_0000_0000_0000_0000) by {
                    lemma_uint_fits(input@, pos as int, 8);
                    reveal_with_fuel(byte_bound, 9);
                }
                let out = Bytes64(v as u64);
                assert(out@ == v as u64);
                Ok((out, p))
            },
            Err(e) => {
                assert(spec_u64(input@, pos as int) == Err::<(u64, int), ParseFail>(e.fail()));
                Err(e)
            },
        }
    }
}

impl StreamReader for Bytes128 {
    open spec fn spec_from_stream(input: Seq<u8>, pos: int) -> SpecRead<u128> {
        spec_u128(input, pos)
    }

    fn from_stream(input: &[u8], pos: usize) -> (r: Result<(Self, usize), RequestError>) {
        assert(Self::spec_from_stream(input@, pos as int) == spec_u128(input@, pos as int));
        let res = read_uint(input, pos, 16);
        match res {
            Ok((v, p)) => {
                let out = Bytes128(v);
                assert(out@ == v);
                Ok((out, p))
            },
            Err(e) => {
                assert(spec_u128(input@, pos as int) == Err::<(u128, int), ParseFail>(e.fail()));
                Err(e)
            },
        }
    }
}

impl StreamReader for BytesUUID {
    open spec fn spec_from_stream(input: Seq<u8>, pos: int) -> SpecRead<Seq<u8>> {
        spec_take(input, pos, 16)
    }

    fn from_stream(input: &[u8], pos: usize) -> (r: Result<(Self, usize), RequestError>) {
        if pos > input.len() || input.len() - pos < 16 {
            return Err(eof());
        }
        let mut buf = [0u8; 16];
        let mut i: usize = 0;
        while i < 16
            invariant
                i <= 16,
                pos + 16 <= input.len(),
                forall|j: int| 0 <= j < i ==> buf@[j] == input@[pos + j],
            decreases 16 - i,
        {
            buf[i] = input[pos + i];
            i = i + 1;
        }
        assert(buf@ =~= input@.subrange(pos as int, pos + 16));
        Ok((BytesUUID(buf), pos + 16))
    }
}

impl StreamReader for BytesString {
    open spec fn spec_from_stream(input: Seq<u8>, pos: int) -> SpecRead<(u16, Seq<char>)> {
        spec_string(input, pos)
    }

    fn from_stream(input: &[u8], pos: usize) -> (r: Result<(Self, usize), RequestError>) {
        assert(Self::spec_from_stream(input@, pos as int) == spec_string(input@, pos as int));
        let (n, p) = match Bytes16::from_stream(input, pos) {
            Ok(v) => v,
            Err(e) => return Err(e),
        };
        proof {
            lemma_uint_fits(input@, pos as int, 2);
            reveal_with_fuel(byte_bound, 3);
        }
        let (t, q) = match read_text(input, p, n.0 as usize) {
            Ok(v) => v,
            Err(e) => return Err(e),
        };
        Ok((BytesString(n.0, t), q))
    }
}

impl StreamReader for BytesCompactString {
    open spec fn spec_from_stream(input: Seq<u8>, pos: int) -> SpecRead<(u8, Seq<char>)> {
        spec_compact_string(input, pos)
    }

    fn from_stream(input: &[u8], pos: usize) -> (r: Result<(Self, usize), RequestError>) {
        assert(Self::spec_from_stream(input@, pos as int) == spec_compact_string(input@, pos as int));
        let (n, p) = match Bytes8::from_stream(input, pos) {
            Ok(v) => v,
            Err(e) => return Err(e),
        };
        proof {
            lemma_uint_fits(input@, pos as int, 1);
            reveal_with_fuel(byte_bound, 2);
        }
        if n.0 == 0 {
            return Err(zero_length());
        }
        let (t, q) = match read_text(input, p, (n.0 - 1) as usize) {
            Ok(v) => v,
            Err(e) => return Err(e),
        };
        Ok((BytesCompactString(n.0, t), q))
    }
}

impl<T: StreamReader> StreamReader for BytesCompactArray<T> {
    open spec fn spec_from_stream(input: Seq<u8>, pos: int) -> SpecRead<(u8, Seq<T::V>)> {
        spec_compact_array::<T>(input, pos)
    }

    fn from_stream(input: &[u8], pos: usize) -> (r: Result<(Self, usize), RequestError>) {
        assert(Self::spec_from_stream(input@, pos as int) == spec_compact_array::<T>(input@, pos as int));
        let (n, p) = match Bytes8::from_stream(input, pos) {
            Ok(v) => v,
            Err(e) => return Err(e),
        };
        if n.0 == 0 {
            return Err(zero_length());
        }
        let count = n.0 - 1;
        let mut arr: Vec<T> = Vec::new();
        let mut cur = p;
        let mut i: u8 = 0;
        assert(arr@.map_values(|t: T| t@) =~= Seq::<T::V>::empty());
        while i < count
            invariant
                i <= count,
                count == n.0 - 1,
                spec_u8(input@, pos as int) == Ok::<(u8, int), ParseFail>((n.0, p as int)),
                spec_elems::<T>(input@, p as int, i as nat) == Ok::<(Seq<T::V>, int), ParseFail>(
                    (arr@.map_values(|t: T| t@), cur as int),
                ),
            decreases count - i,
        {
            let res = T::from_stream(input, cur);
            let (elem, next) = match res {
                Ok(x) => x,
                Err(e) => {
                    proof {
                        lemma_elems_err::<T>(input@, p as int, (i + 1) as nat, count as nat);
                    }
                    return Err(e);
                },
            };
            proof {
                let ghost old_view = arr@.map_values(|t: T| t@);
                assert(arr@.push(elem).map_values(|t: T| t@) =~= old_view.push(elem@));
            }
            arr.push(elem);
            cur = next;
            i = i + 1;
        }
        Ok((BytesCompactArray(n, arr), cur))
    }
}

/// What `put_u16` writes, the two-byte reader reads back, whatever comes
/// before and after it.
pub proof fn lemma_u16_roundtrip(before: Seq<u8>, n: u16, after: Seq<u8>)
    ensures
        spec_u16(before + be16(n) + after, before.len() as int) == Ok::<(u16, int), ParseFail>(
            (n, before.len() + 2int),
        ),
{
    let s = before + be16(n) + after;
    let b = s.subrange(before.len() as int, before.len() + 2int);
    assert(b =~= be16(n));
    assert(b.drop_last().drop_last() =~= Seq::<u8>::empty());
    assert((n / 256) as u8 * 256 + (n % 256) as u8 == n) by (nonlinear_arith);
    reveal_with_fuel(be_value, 3);
    assert(be_value(b) == n);
}

/// What `put_u32` writes, the four-byte reader reads back, whatever comes
/// before and after it.
pub proof fn lemma_u32_roundtrip(before: Seq<u8>, n: u32, after: Seq<u8>)
    ensures
        spec_u32(before + be32(n) + after, before.len() as int) == Ok::<(u32, int), ParseFail>(
            (n, before.len() + 4int),
        ),
{
    let s = before + be32(n) + after;
    let b = s.subrange(before.len() as int, before.len() + 4int);
    assert(b =~= be32(n));
    assert(b.drop_last().drop_last().drop_last().drop_last() =~= Seq::<u8>::empty());
    assert(b.drop_last().drop_last().drop_last() =~= seq![b[0]]);
    assert(b.drop_last().drop_last() =~= seq![b[0], b[1]]);
    assert(b.drop_last() =~= seq![b[0], b[1], b[2]]);
    let (x0, x1, x2, x3) = (b[0] as int, b[1] as int, b[2] as int, b[3] as int);
    assert(x0 == n / 0x100_0000 && x1 == (n / 0x1_0000) % 256 && x2 == (n / 256) % 256 && x3 == n % 256);
    assert(((x0 * 256 + x1) * 256 + x2) * 256 + x3 == n) by (nonlinear_arith)
        requires
            x0 == n / 0x100_0000,
            x1 == (n / 0x1_0000) % 256,
            x2 == (n / 256) % 256,
            x3 == n % 256,
    ;
    reveal_with_fuel(be_value, 5);
    assert(be_value(b) == n);
}

/// The one-byte reader gives the byte at `a` and moves one past it; it
/// fails exactly when there is no byte there.
pub proof fn lemma_u8_at(s: Seq<u8>, a: int)
    ensures
        spec_u8(s, a) is Ok <==> 0 <= a < s.len(),
        0 <= a < s.len() ==> spec_u8(s, a) == Ok::<(u8, int), ParseFail>((s[a], a + 1)),
{
    if 0 <= a < s.len() {
        let b = s.subrange(a, a + 1);
        assert(b.drop_last() =~= Seq::<u8>::empty());
        reveal_with_fuel(be_value, 2);
    }
}

/// The two-byte reader gives `256 * s[a] + s[a + 1]` and moves two past
/// `a`; it fails exactly when the input ends before.
pub proof fn lemma_u16_at(s: Seq<u8>, a: int)
    ensures
        spec_u16(s, a) is Ok <==> 0 <= a && a + 2 <= s.len(),
        0 <= a && a + 2 <= s.len() ==> {
            &&& spec_u16(s, a)->Ok_0.0 as int == s[a] * 256 + s[a + 1]
            &&& spec_u16(s, a)->Ok_0.1 == a + 2
        },
{
    if 0 <= a && a + 2 <= s.len() {
        let b = s.subrange(a, a + 2);
        assert(b.drop_last().drop_last() =~= Seq::<u8>::empty());
        assert(b.drop_last() =~= seq![s[a]]);
        reveal_with_fuel(be_value, 3);
        assert(be_value(b) == s[a] * 256 + s[a + 1]);
    }
}

/// The `k`-byte reader (for 4, 8 and 16 bytes) gives the big-endian
/// number of the `k` bytes at `a` and moves `k` past `a`; it fails exactly
/// when the input ends before.
pub proof fn lemma_wide_at(s: Seq<u8>, a: int)
    ensures
        spec_u32(s, a) is Ok <==> 0 <= a && a + 4 <= s.len(),
        spec_u64(s, a) is Ok <==> 0 <= a && a + 8 <= s.len(),
        spec_u128(s, a) is Ok <==> 0 <= a && a + 16 <= s.len(),
        0 <= a && a + 4 <= s.len() ==> spec_u32(s, a)->Ok_0.0 as int == be_value(s.subrange(a, a + 4))
            && spec_u32(s, a)->Ok_0.1 == a + 4,
        0 <= a && a + 8 <= s.len() ==> spec_u64(s, a)->Ok_0.0 as int == be_value(s.subrange(a, a + 8))
            && spec_u64(s, a)->Ok_0.1 == a + 8,
        0 <= a && a + 16 <= s.len() ==> spec_u128(s, a)->Ok_0.0 as int == be_value(s.subrange(a, a + 16))
            && spec_u128(s, a)->Ok_0.1 == a + 16,
{
    reveal_with_fuel(byte_bound, 17);
    if 0 <= a && a + 4 <= s.len() {
        lemma_be_value_bound(s.subrange(a, a + 4));
    }
    if 0 <= a && a + 8 <= s.len() {
        lemma_be_value_bound(s.subrange(a, a + 8));
    }
    if 0 <= a && a + 16 <= s.len() {
        lemma_be_value_bound(s.subrange(a, a + 16));
    }
}

/// A string read at `a` has its length in the two bytes at `a` and its
/// text, as UTF-8, in the bytes right after them.
pub proof fn lemma_string_at(s: Seq<u8>, a: int)
    requires
        spec_string(s, a) is Ok,
    ensures
        ({
            let n = s[a] * 256 + s[a + 1];
            let ((len, text), end) = spec_string(s, a)->Ok_0;
            &&& 0 <= a && a + 2 + n <= s.len()
            &&& len as int == n
            &&& text == decode_utf8(s.subrange(a + 2, a + 2 + n))
            &&& end == a + 2 + n
        }),
{
    let b = s.subrange(a, a + 2);
    assert(b.drop_last().drop_last() =~= Seq::<u8>::empty());
    assert(b.drop_last() =~= seq![s[a]]);
    reveal_with_fuel(be_value, 3);
    assert(be_value(b) == s[a] * 256 + s[a + 1]);
    let n = s[a] * 256 + s[a + 1];
    assert(n < 0x1_0000) by (nonlinear_arith)
        requires n == s[a] * 256 + s[a + 1], s[a] < 256, s[a + 1] < 256;
}

/// A compact string read at `a` has its length byte `n` (at least 1) at
/// `a` and its text, as UTF-8, in the `n - 1` bytes right after it.
pub proof fn lemma_compact_string_at(s: Seq<u8>, a: int)
    requires
        spec_compact_string(s, a) is Ok,
    ensures
        ({
            let n = s[a] as int;
            let ((len, text), end) = spec_compact_string(s, a)->Ok_0;
            &&& 0 <= a && a + n <= s.len()
            &&& n >= 1
            &&& len == s[a]
            &&& text == decode_utf8(s.subrange(a + 1, a + n))
            &&& end == a + n
        }),
{
    let b = s.subrange(a, a + 1);
    assert(b.drop_last() =~= Seq::<u8>::empty());
    reveal_with_fuel(be_value, 2);
    assert(be_value(b) == s[a]);
}

/// Two bytes that hold `be16(n)` read back as `n`.
pub proof fn lemma_u16_written(s: Seq<u8>, a: int, n: u16)
    requires
        0 <= a,
        a + 2 <= s.len(),
        s.subrange(a, a + 2) == be16(n),
    ensures
        spec_u16(s, a) == Ok::<(u16, int), ParseFail>((n, a + 2)),
{
    let before = s.subrange(0, a);
    let after = s.subrange(a + 2, s.len() as int);
    assert(before + be16(n) + after =~= s);
    lemma_u16_roundtrip(before, n, after);
}

/// Four bytes that hold `be32(n)` read back as `n`.
pub proof fn lemma_u32_written(s: Seq<u8>, a: int, n: u32)
    requires
        0 <= a,
        a + 4 <= s.len(),
        s.subrange(a, a + 4) == be32(n),
    ensures
        spec_u32(s, a) == Ok::<(u32, int), ParseFail>((n, a + 4)),
{
    let before = s.subrange(0, a);
    let after = s.subrange(a + 4, s.len() as int);
    assert(before + be32(n) + after =~= s);
    lemma_u32_roundtrip(before, n, after);
}

/// When every value of `T` takes `k` bytes, the `i`-th of `n` values read
/// one after the other from `pos` is the value read at `pos + k * i`.
pub proof fn lemma_elems_fixed<T: StreamReader>(s: Seq<u8>, pos: int, n: nat, k: nat)
    requires
        spec_elems::<T>(s, pos, n) is Ok,
        forall|q: int| #[trigger] T::spec_from_stream(s, q) is Ok ==> T::spec_from_stream(s, q)->Ok_0.1 == q + k,
    ensures
        spec_elems::<T>(s, pos, n)->Ok_0.0.len() == n,
        spec_elems::<T>(s, pos, n)->Ok_0.1 == pos + k * n,
        forall|i: int| 0 <= i < n ==> #[trigger] T::spec_from_stream(s, pos + k * i) == Ok::<(T::V, int), ParseFail>(
            (spec_elems::<T>(s, pos, n)->Ok_0.0[i], pos + k * i + k),
        ),
    decreases n,
{
    if n > 0 {
        let m = (n - 1) as nat;
        lemma_elems_fixed::<T>(s, pos, m, k);
        let (xs, q) = spec_elems::<T>(s, pos, m)->Ok_0;
        assert(T::spec_from_stream(s, q) is Ok);
        let ys = spec_elems::<T>(s, pos, n)->Ok_0.0;
        assert(ys == xs.push(T::spec_from_stream(s, q)->Ok_0.0));
        assert(k * m + k == k * n) by (nonlinear_arith)
            requires m + 1 == n;
        assert forall|i: int| 0 <= i < n implies #[trigger] T::spec_from_stream(s, pos + k * i) == Ok::<(T::V, int), ParseFail>(
            (ys[i], pos + k * i + k),
        ) by {
            if i < m {
                assert(ys[i] == xs[i]);
                assert(T::spec_from_stream(s, pos + k * i) == Ok::<(T::V, int), ParseFail>((xs[i], pos + k * i + k)));
            } else {
                assert(i == m);
                assert(pos + k * i == q);
            }
        }
    } else {
        assert(k * n == 0) by (nonlinear_arith)
            requires n == 0;
    }
}

/// Reading `n` values one after the other, when it succeeds, gives `n`
/// values.
pub proof fn lemma_elems_count<T: StreamReader>(s: Seq<u8>, pos: int, n: nat)
    requires
        spec_elems::<T>(s, pos, n) is Ok,
    ensures
        spec_elems::<T>(s, pos, n)->Ok_0.0.len() == n,
    decreases n,
{
    if n > 0 {
        lemma_elems_count::<T>(s, pos, (n - 1) as nat);
    }
}

} // verus!

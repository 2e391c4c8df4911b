use crate::api::requests::RequestHeader;
use crate::buffer::{buf_bytes, extend_buf};
use bytes::BytesMut;
use vstd::prelude::*;

verus! {

/// A value with a wire form.
pub trait ResponseBytes {
    /// The bytes of the wire form.
    spec fn spec_to_bytes(&self) -> Seq<u8>;

    /// The wire form can be written: its length counters do not overflow
    /// and it fits an allocation.
    spec fn writable(&self) -> bool;

    /// Writes the wire form into a new buffer.
    fn to_bytes(&self) -> (r: BytesMut)
        requires
            self.writable(),
        ensures
            buf_bytes(r) == self.spec_to_bytes(),
    ;
}

/// A response header, made from the header of the request.
pub trait ResponseHeader: ResponseBytes + Sized {
    fn from_request(header: &RequestHeader) -> Self;
}

/// A response body, made from the header and body of the request.
pub trait ResponseBody<RequestBody>: ResponseBytes + Sized {
    fn from_request(header: &RequestHeader, body: &RequestBody) -> Self;
}

/// The wire forms of `items`, one after the other.
pub open spec fn all_bytes<T: ResponseBytes>(items: Seq<T>) -> Seq<u8>
    decreases items.len(),
{
    if items.len() == 0 {
        Seq::empty()
    } else {
        all_bytes(items.drop_last()) + items.last().spec_to_bytes()
    }
}

/// Each of `items` can be written.
pub open spec fn all_writable<T: ResponseBytes>(items: Seq<T>) -> bool {
    forall|i: int| 0 <= i < items.len() ==> #[trigger] items[i].writable()
}

/// The wire forms of a prefix are no longer than those of a longer prefix.
pub proof fn lemma_all_bytes_prefix<T: ResponseBytes>(items: Seq<T>, i: int, j: int)
    requires
        0 <= i <= j <= items.len(),
    ensures
        all_bytes(items.take(i)).len() <= all_bytes(items.take(j)).len(),
    decreases j - i,
{
    if i < j {
        lemma_all_bytes_prefix(items, i, j - 1);
        assert(items.take(j).drop_last() =~= items.take(j - 1));
    }
}

/// Writes the wire forms of `items` one after the other.
pub fn fold_bytes<T: ResponseBytes>(items: &Vec<T>) -> (r: BytesMut)
    requires
        all_writable(items@),
        all_bytes(items@).len() <= isize::MAX,
    ensures
        buf_bytes(r) == all_bytes(items@),
{
    let mut acc = BytesMut::new();
    let mut i: usize = 0;
    assert(items@.take(0) =~= Seq::<T>::empty());
    while i < items.len()
        invariant
            i <= items@.len(),
            all_writable(items@),
            all_bytes(items@).len() <= isize::MAX,
            buf_bytes(acc) == all_bytes(items@.take(i as int)),
        decreases items.len() - i,
    {
        let item = &items[i];
        assert(items@[i as int].writable());
        let b = item.to_bytes();
        proof {
            assert(items@.take(i + 1).drop_last() =~= items@.take(i as int));
            lemma_all_bytes_prefix(items@, i + 1, items@.len() as int);
            assert(items@.take(items@.len() as int) =~= items@);
        }
        extend_buf(&mut acc, b);
        i = i + 1;
    }
    assert(items@.take(i as int) =~= items@);
    acc
}

/// When each of `items` has a wire form of `k` bytes, their wire forms
/// one after the other take `k` bytes each, and the `i`-th is the `k`
/// bytes at `k * i`.
pub proof fn lemma_all_bytes_fixed<T: ResponseBytes>(items: Seq<T>, k: nat, i: int)
    requires
        forall|j: int| 0 <= j < items.len() ==> (#[trigger] items[j]).spec_to_bytes().len() == k,
        0 <= i < items.len(),
    ensures
        all_bytes(items).len() == k * items.len(),
        all_bytes(items).subrange(k * i, k * i + k) == items[i].spec_to_bytes(),
    decreases items.len(),
{
    let m = items.len() - 1;
    let front = items.drop_last();
    lemma_all_bytes_len(front, k);
    assert(k * m + k == k * items.len()) by (nonlinear_arith)
        requires m + 1 == items.len();
    if i == m {
        assert(all_bytes(items).subrange(k * i, k * i + k) =~= items[i].spec_to_bytes());
    } else {
        lemma_all_bytes_fixed(front, k, i);
        assert(k * i + k <= k * m) by (nonlinear_arith)
            requires i + 1 <= m;
        assert(0 <= k * i) by (nonlinear_arith)
            requires 0 <= i;
        assert(all_bytes(items).subrange(k * i, k * i + k) =~= all_bytes(front).subrange(k * i, k * i + k));
    }
}

/// When each of `items` has a wire form of `k` bytes, all of them take
/// `k` bytes each.
pub proof fn lemma_all_bytes_len<T: ResponseBytes>(items: Seq<T>, k: nat)
    requires
        forall|j: int| 0 <= j < items.len() ==> (#[trigger] items[j]).spec_to_bytes().len() == k,
    ensures
        all_bytes(items).len() == k * items.len(),
    decreases items.len(),
{
    if items.len() > 0 {
        let front = items.drop_last();
        assert forall|j: int| 0 <= j < front.len() implies (#[trigger] front[j]).spec_to_bytes().len() == k by {
            assert(front[j] == items[j]);
        }
        lemma_all_bytes_len(front, k);
        assert(k * (items.len() - 1) + k == k * items.len()) by (nonlinear_arith);
    } else {
        assert(k * items.len() == 0) by (nonlinear_arith)
            requires items.len() == 0;
    }
}

} // verus!

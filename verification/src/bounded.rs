//! The fixed-capacity `heapless` collections the engine stores inline, with the
//! few operations the verified code uses. Each collection's contents are named
//! by an uninterpreted spec function; the wrappers state what `heapless` 0.8 does
//! to them (a push fails and changes nothing exactly when the vector is full; a
//! `push_str` fails and changes nothing exactly when the bytes do not fit).
use vstd::prelude::*;
use vstd::utf8::encode_utf8;
use crate::paint::DrawOp;
use crate::reactive::ids::NodeId;

verus! {

#[verifier::external_type_specification]
#[verifier::external_body]
#[verifier::reject_recursive_types(T)]
pub struct ExHeaplessVec<T, const N: usize>(heapless::Vec<T, N>);

#[verifier::external_type_specification]
#[verifier::external_body]
pub struct ExHeaplessString<const N: usize>(heapless::String<N>);

/// The node ids a container holds, in order.
pub uninterp spec fn child_list(v: heapless::Vec<NodeId, 8>) -> Seq<NodeId>;

/// The subscriber node ids a signal holds, in order.
pub uninterp spec fn subscriber_list(v: heapless::Vec<NodeId, 4>) -> Seq<NodeId>;

/// The characters a text node's inline string holds.
pub uninterp spec fn text_chars(s: heapless::String<32>) -> Seq<char>;

/// The draw operations a mock canvas has logged, in order.
pub uninterp spec fn op_log(v: heapless::Vec<DrawOp, 64>) -> Seq<DrawOp>;

/// The packed pixel words of a pack buffer, in order.
pub uninterp spec fn packed_words(v: heapless::Vec<u16, 4096>) -> Seq<u16>;

// ---- heapless::Vec<NodeId, 8> ----

/// `heapless::Vec::new`: an empty vector.
#[verifier::external_body]
pub(crate) fn children_new() -> (v: heapless::Vec<NodeId, 8>)
    ensures
        child_list(v) == Seq::<NodeId>::empty(),
{
    heapless::Vec::new()
}

/// `heapless::Vec::push`: appends when fewer than 8 items are held, else refuses.
#[verifier::external_body]
pub(crate) fn children_push(v: &mut heapless::Vec<NodeId, 8>, id: NodeId) -> (ok: bool)
    ensures
        ok == (child_list(*old(v)).len() < 8),
        ok ==> child_list(*final(v)) == child_list(*old(v)).push(id),
        !ok ==> child_list(*final(v)) == child_list(*old(v)),
{
    v.push(id).is_ok()
}

/// The slice length of the vector: how many items it holds (at most 8).
#[verifier::external_body]
pub(crate) fn children_len(v: &heapless::Vec<NodeId, 8>) -> (n: usize)
    ensures
        n == child_list(*v).len(),
        n <= 8,
{
    v.len()
}

/// Slice indexing: the `i`-th item.
#[verifier::external_body]
pub(crate) fn children_at(v: &heapless::Vec<NodeId, 8>, i: usize) -> (id: NodeId)
    requires
        i < child_list(*v).len(),
    ensures
        id == child_list(*v)[i as int],
{
    v[i]
}

/// `Clone::clone`: a vector holding the same items.
#[verifier::external_body]
pub(crate) fn children_clone(v: &heapless::Vec<NodeId, 8>) -> (c: heapless::Vec<NodeId, 8>)
    ensures
        child_list(c) == child_list(*v),
{
    v.clone()
}

// ---- heapless::Vec<NodeId, 4> ----

/// `heapless::Vec::new`: an empty vector.
#[verifier::external_body]
pub(crate) fn subscribers_new() -> (v: heapless::Vec<NodeId, 4>)
    ensures
        subscriber_list(v) == Seq::<NodeId>::empty(),
{
    heapless::Vec::new()
}

/// `heapless::Vec::push`: appends when fewer than 4 items are held, else refuses.
#[verifier::external_body]
pub(crate) fn subscribers_push(v: &mut heapless::Vec<NodeId, 4>, id: NodeId) -> (ok: bool)
    ensures
        ok == (subscriber_list(*old(v)).len() < 4),
        ok ==> subscriber_list(*final(v)) == subscriber_list(*old(v)).push(id),
        !ok ==> subscriber_list(*final(v)) == subscriber_list(*old(v)),
{
    v.push(id).is_ok()
}

/// The slice length of the vector: how many items it holds (at most 4).
#[verifier::external_body]
pub(crate) fn subscribers_len(v: &heapless::Vec<NodeId, 4>) -> (n: usize)
    ensures
        n == subscriber_list(*v).len(),
        n <= 4,
{
    v.len()
}

/// Slice indexing: the `i`-th item.
#[verifier::external_body]
pub(crate) fn subscribers_at(v: &heapless::Vec<NodeId, 4>, i: usize) -> (id: NodeId)
    requires
        i < subscriber_list(*v).len(),
    ensures
        id == subscriber_list(*v)[i as int],
{
    v[i]
}

/// `heapless::Vec::clear`: removes every item.
#[verifier::external_body]
pub(crate) fn subscribers_clear(v: &mut heapless::Vec<NodeId, 4>)
    ensures
        subscriber_list(*final(v)) == Seq::<NodeId>::empty(),
{
    v.clear()
}

// ---- heapless::String<32> ----

/// `heapless::String::new`: an empty string.
#[verifier::external_body]
pub(crate) fn text_new() -> (s: heapless::String<32>)
    ensures
        text_chars(s) == Seq::<char>::empty(),
{
    heapless::String::new()
}

/// `heapless::String::push_str`: appends all of `t` when its UTF-8 bytes fit in
/// the remaining capacity of 32 bytes, else appends nothing.
#[verifier::external_body]
pub(crate) fn text_push_str(s: &mut heapless::String<32>, t: &str) -> (ok: bool)
    ensures
        ok == (encode_utf8(text_chars(*old(s))).len() + encode_utf8(t@).len() <= 32),
        ok ==> text_chars(*final(s)) == text_chars(*old(s)) + t@,
        !ok ==> text_chars(*final(s)) == text_chars(*old(s)),
{
    s.push_str(t).is_ok()
}

/// `heapless::String::clear`: empties the string.
#[verifier::external_body]
pub(crate) fn text_clear(s: &mut heapless::String<32>)
    ensures
        text_chars(*final(s)) == Seq::<char>::empty(),
{
    s.clear()
}

/// `heapless::String::as_str`: the held characters.
#[verifier::external_body]
pub(crate) fn text_as_str(s: &heapless::String<32>) -> (t: &str)
    ensures
        t@ == text_chars(*s),
{
    s.as_str()
}

// ---- heapless::Vec<DrawOp, 64> ----

/// `heapless::Vec::new`: an empty vector.
#[verifier::external_body]
pub(crate) fn op_log_new() -> (v: heapless::Vec<DrawOp, 64>)
    ensures
        op_log(v) == Seq::<DrawOp>::empty(),
{
    heapless::Vec::new()
}

/// `heapless::Vec::push`: appends when fewer than 64 items are held, else refuses.
#[verifier::external_body]
pub(crate) fn op_log_push(v: &mut heapless::Vec<DrawOp, 64>, op: DrawOp) -> (ok: bool)
    ensures
        ok == (op_log(*old(v)).len() < 64),
        ok ==> op_log(*final(v)) == op_log(*old(v)).push(op),
        !ok ==> op_log(*final(v)) == op_log(*old(v)),
{
    v.push(op).is_ok()
}

// ---- heapless::Vec<u16, 4096> ----

/// `heapless::Vec::clear`: removes every item.
#[verifier::external_body]
pub(crate) fn words_clear(v: &mut heapless::Vec<u16, 4096>)
    ensures
        packed_words(*final(v)) == Seq::<u16>::empty(),
{
    v.clear()
}

/// `heapless::Vec::push`: appends when fewer than 4096 items are held, else refuses.
#[verifier::external_body]
pub(crate) fn words_push(v: &mut heapless::Vec<u16, 4096>, w: u16) -> (ok: bool)
    ensures
        ok == (packed_words(*old(v)).len() < 4096),
        ok ==> packed_words(*final(v)) == packed_words(*old(v)).push(w),
        !ok ==> packed_words(*final(v)) == packed_words(*old(v)),
{
    v.push(w).is_ok()
}

} // verus!

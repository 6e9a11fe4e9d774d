//! Laws of what signatures and points hold.

use crate::matching;
use crate::path;
use crate::signature;
use crate::signature::{SecurityPoint, Signature};
use vstd::prelude::*;

verus! {

/// What an optional text holds.
pub open spec fn text_of(text: Option<String>) -> Option<Seq<char>> {
    match text {
        Some(t) => Some(t@),
        None => None,
    }
}

/// Law: the view of a signature holds each of its fields under its own name.
pub proof fn law_signature_view_holds_each_field(sig: Signature)
    ensures
        sig@.fn_name == sig.fn_name@,
        sig@.category == text_of(sig.category),
        sig@.prompt_arg_index == sig.prompt_arg_index,
        sig@.prompt_role == text_of(sig.prompt_role),
        sig@.result_index == sig.result_index,
        sig@.request_index == sig.request_index,
        sig@.behavior == text_of(sig.behavior),
{
}

/// Law: the view of a point holds each of its fields under its own name.
pub proof fn law_point_view_holds_each_field(point: SecurityPoint)
    ensures
        point@.kind == point.kind,
        point@.caller == point.caller@,
        point@.block == point.block@,
        point@.callee == point.callee@,
        point@.matched_fn_name == point.matched_fn_name@,
        point@.category == text_of(point.category),
        point@.prompt_arg_index == point.prompt_arg_index,
        point@.prompt_role == text_of(point.prompt_role),
        point@.request_index == point.request_index,
        point@.strategy == point.strategy@,
{
}

/// Law: the view of a list holds one view for each of its elements, in order.
pub proof fn law_lists_are_viewed_in_order(
    signatures: Seq<Signature>,
    points: Seq<SecurityPoint>,
    strings: Seq<String>,
)
    ensures
        signature::signature_views(signatures).len() == signatures.len(),
        forall|i: int|
            0 <= i < signatures.len() ==> #[trigger] signature::signature_views(signatures)[i]
                == signatures[i]@,
        signature::point_views(points).len() == points.len(),
        forall|i: int|
            0 <= i < points.len() ==> #[trigger] signature::point_views(points)[i] == points[i]@,
        path::texts(strings).len() == strings.len(),
        forall|i: int|
            0 <= i < strings.len() ==> #[trigger] path::texts(strings)[i] == strings[i]@,
{
}

/// Law: the view of an optional point is there if the point is.
pub proof fn law_optional_points_are_kept(point: SecurityPoint)
    ensures
        matching::point_view(Some(point)) == Some(point@),
        matching::point_view(None) is None,
{
}

} // verus!

//! Catalog signatures and the call sites that they match.

use vstd::prelude::*;

verus! {

/// What a call site means to the analysis.
#[derive(Clone, Debug, PartialEq, Eq, PartialOrd, Ord, Hash)]
pub enum SecurityTag {
    LLMAPIPrompt,
    LLMAPICalls,
    AccessControl,
    DataAccess,
}

/// A function listed in a catalog.
#[derive(Debug, Clone)]
pub struct Signature {
    pub fn_name: String,
    pub category: Option<String>,
    /// The argument that holds the prompt.
    pub prompt_arg_index: Option<usize>,
    /// The role under which the prompt is sent.
    pub prompt_role: Option<String>,
    pub result_index: Option<usize>,
    /// The argument that holds the request.
    pub request_index: Option<usize>,
    pub behavior: Option<String>,
}

/// A call site whose callee is listed in a catalog.
#[derive(Debug, Clone)]
pub struct SecurityPoint {
    pub kind: SecurityTag,
    /// The function that makes the call.
    pub caller: String,
    /// The basic block that holds the call.
    pub block: String,
    pub callee: String,
    /// The name under which the catalog lists the callee.
    pub matched_fn_name: String,
    pub category: Option<String>,
    /// The argument that holds the prompt.
    pub prompt_arg_index: Option<usize>,
    /// The role under which the prompt is sent.
    pub prompt_role: Option<String>,
    /// The argument that holds the request.
    pub request_index: Option<usize>,
    /// How the callee was found: `suffix` or `short-name`.
    pub strategy: &'static str,
}

/// What a [`Signature`] holds.
#[verifier::ext_equal]
pub struct SignatureView {
    pub fn_name: Seq<char>,
    pub category: Option<Seq<char>>,
    pub prompt_arg_index: Option<usize>,
    pub prompt_role: Option<Seq<char>>,
    pub result_index: Option<usize>,
    pub request_index: Option<usize>,
    pub behavior: Option<Seq<char>>,
}

/// What a [`SecurityPoint`] holds.
#[verifier::ext_equal]
pub struct SecurityPointView {
    pub kind: SecurityTag,
    pub caller: Seq<char>,
    pub block: Seq<char>,
    pub callee: Seq<char>,
    pub matched_fn_name: Seq<char>,
    pub category: Option<Seq<char>>,
    pub prompt_arg_index: Option<usize>,
    pub prompt_role: Option<Seq<char>>,
    pub request_index: Option<usize>,
    pub strategy: Seq<char>,
}

impl View for Signature {
    type V = SignatureView;

    open spec fn view(&self) -> SignatureView {
        SignatureView {
            fn_name: self.fn_name@,
            category: self.category.deep_view(),
            prompt_arg_index: self.prompt_arg_index,
            prompt_role: self.prompt_role.deep_view(),
            result_index: self.result_index,
            request_index: self.request_index,
            behavior: self.behavior.deep_view(),
        }
    }
}

impl View for SecurityPoint {
    type V = SecurityPointView;

    open spec fn view(&self) -> SecurityPointView {
        SecurityPointView {
            kind: self.kind,
            caller: self.caller@,
            block: self.block@,
            callee: self.callee@,
            matched_fn_name: self.matched_fn_name@,
            category: self.category.deep_view(),
            prompt_arg_index: self.prompt_arg_index,
            prompt_role: self.prompt_role.deep_view(),
            request_index: self.request_index,
            strategy: self.strategy@,
        }
    }
}

/// What the signatures of a catalog hold.
pub open spec fn signature_views(signatures: Seq<Signature>) -> Seq<SignatureView> {
    signatures.map_values(|s: Signature| s@)
}

/// What a list of points holds.
pub open spec fn point_views(points: Seq<SecurityPoint>) -> Seq<SecurityPointView> {
    points.map_values(|p: SecurityPoint| p@)
}

} // verus!

//! Matching the callee of a call site against the catalogs.

use crate::path;
use crate::path::{candidate_paths, last_two};
use crate::search;
use crate::signature;
use crate::signature::{SecurityPoint, SecurityTag, Signature};
use crate::symbol;
use crate::symbol::{demangle_symbol, strip_symbol};
use crate::text::{chars_of, same_text};
use vstd::prelude::*;
use vstd::string::*;

verus! {

/// How a path is compared with the name of a signature.
#[derive(Clone, Copy, Debug, PartialEq, Eq, Structural)]
pub enum Strategy {
    /// The path is the name, or ends with the name behind a separator.
    Suffix,
    /// The path and the name have the same last two segments.
    ShortName,
}

/// Whether `path` is `fn_name`, or ends with it behind a separator.
pub open spec fn suffix_match(path: Seq<char>, fn_name: Seq<char>) -> bool {
    path == fn_name || (seq![':', ':'] + fn_name).is_suffix_of(path)
}

/// Whether `path` and `fn_name` have the same last two segments.
pub open spec fn short_name_match(path: Seq<char>, fn_name: Seq<char>) -> bool {
    path::last_two_segments(path) == path::last_two_segments(fn_name)
}

/// Whether `path` matches `fn_name` by the given strategy.
pub open spec fn matches_by(path: Seq<char>, fn_name: Seq<char>, strategy: Strategy) -> bool {
    match strategy {
        Strategy::Suffix => suffix_match(path, fn_name),
        Strategy::ShortName => short_name_match(path, fn_name),
    }
}

/// The first signature that `path` matches by the given strategy.
pub open spec fn hit_for_path(
    path: Seq<char>,
    signatures: Seq<signature::SignatureView>,
    strategy: Strategy,
) -> Option<int> {
    search::first_index(
        |i: int| matches_by(path, signatures[i].fn_name, strategy),
        signatures.len() as int,
    )
}

/// The signature that the first path with a match by the given strategy
/// matches first.
pub open spec fn hit_by(
    paths: Seq<Seq<char>>,
    signatures: Seq<signature::SignatureView>,
    strategy: Strategy,
) -> Option<int> {
    match search::first_index(
        |c: int| hit_for_path(paths[c], signatures, strategy) is Some,
        paths.len() as int,
    ) {
        Some(c) => hit_for_path(paths[c], signatures, strategy),
        None => None,
    }
}

/// The signature that the paths match and how: by suffix if any path matches
/// any signature so, else by short name.
pub open spec fn catalog_hit(
    paths: Seq<Seq<char>>,
    signatures: Seq<signature::SignatureView>,
) -> Option<(int, Strategy)> {
    match hit_by(paths, signatures, Strategy::Suffix) {
        Some(i) => Some((i, Strategy::Suffix)),
        None => match hit_by(paths, signatures, Strategy::ShortName) {
            Some(i) => Some((i, Strategy::ShortName)),
            None => None,
        },
    }
}

/// The name of a strategy in a security point.
pub open spec fn strategy_name(strategy: Strategy) -> Seq<char> {
    match strategy {
        Strategy::Suffix => "suffix"@,
        Strategy::ShortName => "short-name"@,
    }
}

/// Whether `path` is `fn_name`, or ends with it behind a separator.
fn is_suffix_match(path: &str, fn_name: &str) -> (r: bool)
    ensures
        r == suffix_match(path@, fn_name@),
{
    if same_text(path, fn_name) {
        return true;
    }
    let p = chars_of(path);
    let f = chars_of(fn_name);
    let ghost tail = seq![':', ':'] + f@;
    if p.len() < 2 || p.len() - 2 < f.len() {
        return false;
    }
    let start: usize = p.len() - 2 - f.len();
    let ghost window = p@.subrange(start as int, p@.len() as int);
    if p[start] != ':' || p[start + 1] != ':' {
        assert(window[0] == p@[start as int] && window[1] == p@[start + 1]);
        return false;
    }
    let mut i: usize = 0;
    while i < f.len()
        invariant
            p@.len() == start + 2 + f@.len() <= usize::MAX,
            i <= f@.len(),
            tail == seq![':', ':'] + f@,
            window == p@.subrange(start as int, p@.len() as int),
            p@ == path@,
            f@ == fn_name@,
            path@ != fn_name@,
            forall|j: int| 0 <= j < i ==> p@[start + 2 + j] == f@[j],
        decreases f@.len() - i,
    {
        if p[start + 2 + i] != f[i] {
            assert(window[2 + i] != tail[2 + i]);
            return false;
        }
        i += 1;
    }
    assert(window == tail);
    true
}

/// Whether `path` matches `fn_name` by the given strategy.
fn is_match(path: &str, fn_name: &str, strategy: Strategy) -> (r: bool)
    ensures
        r == matches_by(path@, fn_name@, strategy),
{
    match strategy {
        Strategy::Suffix => is_suffix_match(path, fn_name),
        Strategy::ShortName => same_text(last_two(path), last_two(fn_name)),
    }
}

/// The first signature that `path` matches by the given strategy.
fn find_for_path(path: &str, signatures: &[Signature], strategy: Strategy) -> (r: Option<usize>)
    ensures
        match (hit_for_path(path@, signature::signature_views(signatures@), strategy), r) {
            (Some(k), Some(i)) => i == k && i < signatures@.len(),
            (None, None) => true,
            _ => false,
        },
{
    let ghost views = signature::signature_views(signatures@);
    let ghost p = |i: int| matches_by(path@, views[i].fn_name, strategy);
    let mut i: usize = 0;
    while i < signatures.len()
        invariant
            i <= signatures@.len(),
            views == signature::signature_views(signatures@),
            p == (|i: int| matches_by(path@, views[i].fn_name, strategy)),
            forall|j: int| 0 <= j < i ==> !#[trigger] p(j),
        decreases signatures@.len() - i,
    {
        if is_match(path, signatures[i].fn_name.as_str(), strategy) {
            proof {
                search::lemma_first_index_is(p, views.len() as int, i as int);
            }
            return Some(i);
        }
        assert(!p(i as int));
        i += 1;
    }
    proof {
        search::lemma_first_index_none(p, views.len() as int);
    }
    None
}

/// The signature that the first path with a match by the given strategy
/// matches first.
fn find_by(paths: &[String], signatures: &[Signature], strategy: Strategy) -> (r: Option<usize>)
    ensures
        match (hit_by(path::texts(paths@), signature::signature_views(signatures@), strategy), r) {
            (Some(k), Some(i)) => i == k && i < signatures@.len(),
            (None, None) => true,
            _ => false,
        },
{
    let ghost views = signature::signature_views(signatures@);
    let ghost names = path::texts(paths@);
    let ghost p = |c: int| hit_for_path(names[c], views, strategy) is Some;
    let mut c: usize = 0;
    while c < paths.len()
        invariant
            c <= paths@.len(),
            views == signature::signature_views(signatures@),
            names == path::texts(paths@),
            p == (|c: int| hit_for_path(names[c], views, strategy) is Some),
            forall|j: int| 0 <= j < c ==> !#[trigger] p(j),
        decreases paths@.len() - c,
    {
        if let Some(i) = find_for_path(paths[c].as_str(), signatures, strategy) {
            proof {
                search::lemma_first_index_is(p, names.len() as int, c as int);
            }
            return Some(i);
        }
        assert(!p(c as int));
        c += 1;
    }
    proof {
        search::lemma_first_index_none(p, names.len() as int);
    }
    None
}

/// Tries each candidate against the catalog: by suffix, which allows for a
/// crate prefix, across all candidates first, and then by short name.
pub fn match_any<'a>(candidates: &[String], signatures: &'a [Signature]) -> (r: Option<
    (&'a Signature, &'static str),
>)
    ensures
        match (
            catalog_hit(path::texts(candidates@), signature::signature_views(signatures@)),
            r,
        ) {
            (Some((i, strategy)), Some((sig, name))) => {
                &&& 0 <= i < signatures@.len()
                &&& *sig == signatures@[i]
                &&& name@ == strategy_name(strategy)
            },
            (None, None) => true,
            _ => false,
        },
{
    if let Some(i) = find_by(candidates, signatures, Strategy::Suffix) {
        return Some((&signatures[i], "suffix"));
    }
    if let Some(i) = find_by(candidates, signatures, Strategy::ShortName) {
        return Some((&signatures[i], "short-name"));
    }
    None
}

/// A signature of a catalog, the kind of that catalog and the strategy by
/// which the signature was found.
pub type Hit = (SecurityTag, signature::SignatureView, Strategy);

/// The hit in the first of the three catalogs that has one: LLM calls, then
/// access control, then data access.
pub open spec fn first_hit(
    paths: Seq<Seq<char>>,
    llm: Seq<signature::SignatureView>,
    ac: Seq<signature::SignatureView>,
    data: Seq<signature::SignatureView>,
) -> Option<Hit> {
    match catalog_hit(paths, llm) {
        Some((i, strategy)) => Some((SecurityTag::LLMAPICalls, llm[i], strategy)),
        None => match catalog_hit(paths, ac) {
            Some((i, strategy)) => Some((SecurityTag::AccessControl, ac[i], strategy)),
            None => match catalog_hit(paths, data) {
                Some((i, strategy)) => Some((SecurityTag::DataAccess, data[i], strategy)),
                None => None,
            },
        },
    }
}

/// The security point for a hit at a call of `callee` in `caller`.
pub open spec fn point_of_hit(
    hit: Hit,
    callee: Seq<char>,
    caller: Seq<char>,
    block: Seq<char>,
) -> signature::SecurityPointView {
    signature::SecurityPointView {
        kind: hit.0,
        caller,
        block,
        callee,
        matched_fn_name: hit.1.fn_name,
        category: hit.1.category,
        prompt_arg_index: hit.1.prompt_arg_index,
        prompt_role: hit.1.prompt_role,
        request_index: hit.1.request_index,
        strategy: strategy_name(hit.2),
    }
}

/// The security point at a call of `callee` in `caller`, both demangled.
pub open spec fn demangled_point(
    callee: Seq<char>,
    caller: Seq<char>,
    block: Seq<char>,
    llm: Seq<signature::SignatureView>,
    ac: Seq<signature::SignatureView>,
    data: Seq<signature::SignatureView>,
) -> Option<signature::SecurityPointView> {
    match first_hit(path::candidates(callee), llm, ac, data) {
        Some(hit) => Some(point_of_hit(hit, callee, caller, block)),
        None => None,
    }
}

/// The security point at a call of `callee` in `caller`, both as symbols.
pub open spec fn callsite_point(
    callee: Seq<char>,
    caller: Seq<char>,
    block: Seq<char>,
    llm: Seq<signature::SignatureView>,
    ac: Seq<signature::SignatureView>,
    data: Seq<signature::SignatureView>,
) -> Option<signature::SecurityPointView> {
    demangled_point(
        symbol::readable(symbol::bare_symbol(callee)),
        symbol::readable(symbol::bare_symbol(caller)),
        block,
        llm,
        ac,
        data,
    )
}

/// What an optional point holds.
pub open spec fn point_view(point: Option<SecurityPoint>) -> Option<signature::SecurityPointView> {
    match point {
        Some(p) => Some(p@),
        None => None,
    }
}

/// Finds a demangled callee in the catalogs. The catalogs are tried in order,
/// LLM calls, access control, data access, and the first hit wins: a callee
/// that an earlier catalog claims is attributed there.
pub fn classify_callee<'a>(
    demangled: &str,
    llm: &'a [Signature],
    ac: &'a [Signature],
    data: &'a [Signature],
) -> (r: Option<(SecurityTag, &'a Signature, &'static str)>)
    ensures
        match (
            first_hit(
                path::candidates(demangled@),
                signature::signature_views(llm@),
                signature::signature_views(ac@),
                signature::signature_views(data@),
            ),
            r,
        ) {
            (Some((kind, view, strategy)), Some((tag, sig, name))) => {
                &&& tag == kind
                &&& sig@ == view
                &&& name@ == strategy_name(strategy)
            },
            (None, None) => true,
            _ => false,
        },
{
    let candidates = candidate_paths(demangled);
    if let Some((sig, strategy)) = match_any(candidates.as_slice(), llm) {
        Some((SecurityTag::LLMAPICalls, sig, strategy))
    } else if let Some((sig, strategy)) = match_any(candidates.as_slice(), ac) {
        Some((SecurityTag::AccessControl, sig, strategy))
    } else if let Some((sig, strategy)) = match_any(candidates.as_slice(), data) {
        Some((SecurityTag::DataAccess, sig, strategy))
    } else {
        None
    }
}

/// The security point for a hit at a call of `callee` in `caller`.
fn security_point(
    hit: (SecurityTag, &Signature, &'static str),
    callee: String,
    caller: String,
    block: &str,
) -> (r: SecurityPoint)
    ensures
        forall|strategy: Strategy|
            hit.2@ == #[trigger] strategy_name(strategy) ==> r@ == point_of_hit(
                (hit.0, hit.1@, strategy),
                callee@,
                caller@,
                block@,
            ),
{
    let (kind, sig, strategy) = hit;
    SecurityPoint {
        kind,
        caller,
        block: block.to_owned(),
        callee,
        matched_fn_name: sig.fn_name.clone(),
        category: sig.category.clone(),
        prompt_arg_index: sig.prompt_arg_index,
        prompt_role: sig.prompt_role.clone(),
        request_index: sig.request_index,
        strategy,
    }
}

/// Matches the call of one demangled function in another against the catalogs.
pub fn match_demangled(
    callee: &str,
    caller: &str,
    block: &str,
    llm: &[Signature],
    ac: &[Signature],
    data: &[Signature],
) -> (r: Option<SecurityPoint>)
    ensures
        point_view(r) == demangled_point(
            callee@,
            caller@,
            block@,
            signature::signature_views(llm@),
            signature::signature_views(ac@),
            signature::signature_views(data@),
        ),
{
    match classify_callee(callee, llm, ac, data) {
        Some(hit) => Some(security_point(hit, callee.to_owned(), caller.to_owned(), block)),
        None => None,
    }
}

/// Matches the callee of a single call site against the catalogs. Callee and
/// caller are demangled first, which leaves plain symbols as they stand.
pub fn match_callsite(
    callee_mangled: &str,
    caller: &str,
    block: &str,
    llm: &[Signature],
    ac: &[Signature],
    data: &[Signature],
) -> (r: Option<SecurityPoint>)
    ensures
        point_view(r) == callsite_point(
            callee_mangled@,
            caller@,
            block@,
            signature::signature_views(llm@),
            signature::signature_views(ac@),
            signature::signature_views(data@),
        ),
        point_view(r) == demangled_point(
            symbol::demangled(symbol::bare_symbol(callee_mangled@)),
            symbol::demangled(symbol::bare_symbol(caller@)),
            block@,
            signature::signature_views(llm@),
            signature::signature_views(ac@),
            signature::signature_views(data@),
        ),
        symbol::is_plain_symbol(symbol::bare_symbol(callee_mangled@)) ==> point_view(r)
            == demangled_point(
            symbol::bare_symbol(callee_mangled@),
            symbol::demangled(symbol::bare_symbol(caller@)),
            block@,
            signature::signature_views(llm@),
            signature::signature_views(ac@),
            signature::signature_views(data@),
        ),
{
    let callee = demangle_symbol(strip_symbol(callee_mangled).as_str());
    match classify_callee(callee.as_str(), llm, ac, data) {
        Some(hit) => {
            let caller = demangle_symbol(strip_symbol(caller).as_str());
            Some(security_point(hit, callee, caller, block))
        },
        None => None,
    }
}

} // verus!

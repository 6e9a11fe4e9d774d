//! Laws of matching callees against catalogs.

use crate::matching;
use crate::matching::Strategy;
use crate::path;
use crate::path_laws;
use crate::search;
use crate::signature;
use crate::signature::SecurityTag;
use crate::symbol;
use vstd::prelude::*;

verus! {

/// Whether path `c` matches signature `i` by the given strategy.
pub open spec fn matches_at(
    paths: Seq<Seq<char>>,
    signatures: Seq<signature::SignatureView>,
    strategy: Strategy,
    c: int,
    i: int,
) -> bool {
    &&& 0 <= c < paths.len()
    &&& 0 <= i < signatures.len()
    &&& matching::matches_by(paths[c], signatures[i].fn_name, strategy)
}

/// The first hit for one path.
proof fn lemma_hit_for_path(
    path: Seq<char>,
    signatures: Seq<signature::SignatureView>,
    strategy: Strategy,
)
    ensures
        match matching::hit_for_path(path, signatures, strategy) {
            Some(i) => {
                &&& 0 <= i < signatures.len()
                &&& matching::matches_by(path, signatures[i].fn_name, strategy)
                &&& forall|j: int|
                    0 <= j < i ==> !matching::matches_by(
                        path,
                        (#[trigger] signatures[j]).fn_name,
                        strategy,
                    )
            },
            None => forall|j: int|
                0 <= j < signatures.len() ==> !matching::matches_by(
                    path,
                    (#[trigger] signatures[j]).fn_name,
                    strategy,
                ),
        },
{
    let p = |i: int| matching::matches_by(path, signatures[i].fn_name, strategy);
    search::lemma_first_index(p, signatures.len() as int);
    assert forall|j: int| 0 <= j < signatures.len() implies p(j) == matching::matches_by(
        path,
        (#[trigger] signatures[j]).fn_name,
        strategy,
    ) by {
    }
}

/// Law: by one strategy, the hit is the first match of the first path that
/// matches anything; there is none only where no path matches any signature.
pub proof fn law_first_path_decides(
    paths: Seq<Seq<char>>,
    signatures: Seq<signature::SignatureView>,
    strategy: Strategy,
)
    ensures
        match matching::hit_by(paths, signatures, strategy) {
            Some(i) => exists|c: int|
                {
                    &&& #[trigger] matches_at(paths, signatures, strategy, c, i)
                    &&& forall|d: int, j: int|
                        d < c || d == c && j < i ==> !#[trigger] matches_at(
                            paths,
                            signatures,
                            strategy,
                            d,
                            j,
                        )
                },
            None => forall|c: int, i: int|
                !#[trigger] matches_at(paths, signatures, strategy, c, i),
        },
{
    let p = |c: int| matching::hit_for_path(paths[c], signatures, strategy) is Some;
    search::lemma_first_index(p, paths.len() as int);
    assert forall|c: int, i: int| #[trigger]
        matches_at(paths, signatures, strategy, c, i) implies p(c) by {
        lemma_hit_for_path(paths[c], signatures, strategy);
        assert(matching::matches_by(paths[c], signatures[i].fn_name, strategy));
    }
    if let Some(c) = search::first_index(p, paths.len() as int) {
        assert(p(c));
        lemma_hit_for_path(paths[c], signatures, strategy);
        let i = matching::hit_for_path(paths[c], signatures, strategy)->0;
        assert(matches_at(paths, signatures, strategy, c, i));
        assert forall|d: int, j: int| d < c || d == c && j < i implies !#[trigger] matches_at(
            paths,
            signatures,
            strategy,
            d,
            j,
        ) by {
            if matches_at(paths, signatures, strategy, d, j) {
                assert(p(d));
                assert(matching::matches_by(paths[d], signatures[j].fn_name, strategy));
            }
        }
    }
}

/// Law: a catalog claims a callee if and only if some path of the callee
/// matches some signature, by suffix or by short name.
pub proof fn law_claimed_iff_some_match(
    paths: Seq<Seq<char>>,
    signatures: Seq<signature::SignatureView>,
)
    ensures
        matching::catalog_hit(paths, signatures) is Some <==> exists|
            strategy: Strategy,
            c: int,
            i: int,
        | #[trigger] matches_at(paths, signatures, strategy, c, i),
{
    law_first_path_decides(paths, signatures, Strategy::Suffix);
    law_first_path_decides(paths, signatures, Strategy::ShortName);
    if exists|strategy: Strategy, c: int, i: int| #[trigger]
        matches_at(paths, signatures, strategy, c, i) {
        let (strategy, c, i) = choose|strategy: Strategy, c: int, i: int| #[trigger]
            matches_at(paths, signatures, strategy, c, i);
        match strategy {
            Strategy::Suffix => {
                assert(matches_at(paths, signatures, Strategy::Suffix, c, i));
            },
            Strategy::ShortName => {
                assert(matches_at(paths, signatures, Strategy::ShortName, c, i));
            },
        }
    }
}

/// Law: a short name is used only where no path of the callee matches any
/// signature of the catalog by suffix.
pub proof fn law_suffix_before_short_name(
    paths: Seq<Seq<char>>,
    signatures: Seq<signature::SignatureView>,
)
    ensures
        match matching::catalog_hit(paths, signatures) {
            Some((i, Strategy::Suffix)) => exists|c: int| #[trigger]
                matches_at(paths, signatures, Strategy::Suffix, c, i),
            Some((i, Strategy::ShortName)) => {
                &&& exists|c: int| #[trigger]
                    matches_at(paths, signatures, Strategy::ShortName, c, i)
                &&& forall|c: int, j: int|
                    !#[trigger] matches_at(paths, signatures, Strategy::Suffix, c, j)
            },
            None => true,
        },
{
    law_first_path_decides(paths, signatures, Strategy::Suffix);
    law_first_path_decides(paths, signatures, Strategy::ShortName);
    if let Some((i, strategy)) = matching::catalog_hit(paths, signatures) {
        assert(exists|c: int| #[trigger] matches_at(paths, signatures, strategy, c, i));
    }
}

/// Law: a callee that an earlier catalog claims is attributed there, whatever
/// the later catalogs hold.
pub proof fn law_earlier_catalog_wins(
    callee: Seq<char>,
    caller: Seq<char>,
    block: Seq<char>,
    llm: Seq<signature::SignatureView>,
    ac: Seq<signature::SignatureView>,
    data: Seq<signature::SignatureView>,
    other_ac: Seq<signature::SignatureView>,
    other_data: Seq<signature::SignatureView>,
)
    ensures
        matching::catalog_hit(path::candidates(callee), llm) is Some ==> {
            &&& matching::demangled_point(callee, caller, block, llm, ac, data)
                == matching::demangled_point(callee, caller, block, llm, other_ac, other_data)
            &&& matching::demangled_point(callee, caller, block, llm, ac, data) is Some
            &&& matching::demangled_point(callee, caller, block, llm, ac, data)->0.kind
                == SecurityTag::LLMAPICalls
        },
        matching::catalog_hit(path::candidates(callee), llm) is None && matching::catalog_hit(
            path::candidates(callee),
            ac,
        ) is Some ==> {
            &&& matching::demangled_point(callee, caller, block, llm, ac, data)
                == matching::demangled_point(callee, caller, block, llm, ac, other_data)
            &&& matching::demangled_point(callee, caller, block, llm, ac, data) is Some
            &&& matching::demangled_point(callee, caller, block, llm, ac, data)->0.kind
                == SecurityTag::AccessControl
        },
{
}

/// Law: a call site is a security point if and only if one of the catalogs
/// claims its callee, and its kind is the catalog that does; no call site is
/// taken for a prompt.
pub proof fn law_point_iff_claimed(
    callee: Seq<char>,
    caller: Seq<char>,
    block: Seq<char>,
    llm: Seq<signature::SignatureView>,
    ac: Seq<signature::SignatureView>,
    data: Seq<signature::SignatureView>,
)
    ensures
        ({
            let paths = path::candidates(callee);
            match matching::demangled_point(callee, caller, block, llm, ac, data) {
                Some(point) => match point.kind {
                    SecurityTag::LLMAPICalls => matching::catalog_hit(paths, llm) is Some,
                    SecurityTag::AccessControl => matching::catalog_hit(paths, ac) is Some,
                    SecurityTag::DataAccess => matching::catalog_hit(paths, data) is Some,
                    SecurityTag::LLMAPIPrompt => false,
                },
                None => {
                    &&& matching::catalog_hit(paths, llm) is None
                    &&& matching::catalog_hit(paths, ac) is None
                    &&& matching::catalog_hit(paths, data) is None
                },
            }
        }),
{
}

/// Law: empty catalogs claim nothing.
pub proof fn law_empty_catalogs(callee: Seq<char>, caller: Seq<char>, block: Seq<char>)
    ensures
        matching::demangled_point(callee, caller, block, seq![], seq![], seq![]) is None,
{
    let none = Seq::<signature::SignatureView>::empty();
    law_first_path_decides(path::candidates(callee), none, Strategy::Suffix);
    law_first_path_decides(path::candidates(callee), none, Strategy::ShortName);
}

/// Law: whatever stands in front of a listed name, such as the name of a
/// crate, the callee is claimed, as long as it leaves no bracket open.
pub proof fn law_prefix_is_ignored(
    prefix: Seq<char>,
    signatures: Seq<signature::SignatureView>,
    i: int,
)
    requires
        0 <= i < signatures.len(),
        path::open_angles(prefix) == 0,
        path_laws::is_bracket_free(signatures[i].fn_name),
    ensures
        matching::catalog_hit(path::candidates(signatures[i].fn_name), signatures) is Some,
        matching::catalog_hit(
            path::candidates(prefix + path_laws::separator() + signatures[i].fn_name),
            signatures,
        ) is Some,
{
    let name = signatures[i].fn_name;
    let end = path_laws::separator() + name;
    let full = prefix + path_laws::separator() + name;
    let kept = path::without_generics(prefix) + end;
    path_laws::law_plain_paths_are_kept(name);
    path_laws::law_candidates_are_plain(name);
    path_laws::law_candidates_are_plain(full);
    path_laws::lemma_plain_end_is_kept(prefix, end);
    assert(full == prefix + end);
    assert(kept.subrange(kept.len() - end.len(), kept.len() as int) == seq![':', ':'] + name);
    assert(matching::suffix_match(kept, name));
    assert(matches_at(path::candidates(name), signatures, Strategy::Suffix, 0, i));
    assert(matches_at(path::candidates(full), signatures, Strategy::Suffix, 0, i));
    law_claimed_iff_some_match(path::candidates(name), signatures);
    law_claimed_iff_some_match(path::candidates(full), signatures);
}

/// Law: a call through a trait is claimed where the catalog lists the method
/// under the type, and where it lists it under the trait.
pub proof fn law_trait_dispatch_is_claimed(
    ty: Seq<char>,
    tr: Seq<char>,
    rest: Seq<char>,
    signatures: Seq<signature::SignatureView>,
    i: int,
)
    requires
        path_laws::is_type_path(ty),
        path_laws::is_bracketable(tr),
        0 <= i < signatures.len(),
        matching::suffix_match(path::without_generics(ty + rest), signatures[i].fn_name)
            || matching::suffix_match(path::without_generics(tr + rest), signatures[i].fn_name),
    ensures
        ({
            let demangled = seq!['<'] + ty + path::as_keyword() + tr + seq!['>'] + rest;
            match matching::catalog_hit(path::candidates(demangled), signatures) {
                Some((_, strategy)) => strategy == Strategy::Suffix,
                None => false,
            }
        }),
{
    let demangled = seq!['<'] + ty + path::as_keyword() + tr + seq!['>'] + rest;
    let paths = path::candidates(demangled);
    path_laws::law_trait_dispatch(ty, tr, rest);
    law_first_path_decides(paths, signatures, Strategy::Suffix);
    if matching::suffix_match(path::without_generics(ty + rest), signatures[i].fn_name) {
        assert(matches_at(paths, signatures, Strategy::Suffix, 1, i));
    } else {
        assert(matches_at(paths, signatures, Strategy::Suffix, 2, i));
    }
}

/// Law: a path never matches a name whose last segment is another one: no
/// match is on part of a segment. A name that is a single segment with a
/// colon in front has no segment boundary to respect.
pub proof fn law_last_segments_agree(path: Seq<char>, fn_name: Seq<char>, strategy: Strategy)
    requires
        matching::matches_by(path, fn_name, strategy),
        path == fn_name || path::last_separator(fn_name) is Some || fn_name.len() == 0
            || fn_name[0] != ':',
    ensures
        path_laws::last_segment(path) == path_laws::last_segment(fn_name),
{
    if matching::short_name_match(path, fn_name) && strategy == Strategy::ShortName {
        path_laws::law_short_names_are_stable(path);
        path_laws::law_short_names_are_stable(fn_name);
    } else if path != fn_name {
        let tail = seq![':', ':'] + fn_name;
        let start = path.len() - tail.len();
        assert(path.subrange(start, path.len() as int) == tail);
        assert forall|m: int| 0 <= m < tail.len() implies path[start + m] == #[trigger] tail[m] by {
            assert(path.subrange(start, path.len() as int)[m] == tail[m]);
        }
        assert forall|q: int| 0 <= q < fn_name.len() implies path[start + 2 + q]
            == #[trigger] fn_name[q] by {
            assert(path[start + (q + 2)] == tail[q + 2]);
        }
        path_laws::lemma_last_separator(fn_name);
        match path::last_separator(fn_name) {
            Some(k) => {
                let at = start + 2 + k;
                assert(path::separator_at(path, at)) by {
                    assert(path[at] == tail[2 + k] && path[at + 1] == tail[3 + k]);
                }
                assert forall|j: int| at < j implies !#[trigger] path::separator_at(path, j) by {
                    if path::separator_at(path, j) {
                        let m = j - start - 2;
                        assert(path[j] == tail[m + 2] && path[j + 1] == tail[m + 3]);
                        assert(path::separator_at(fn_name, m));
                    }
                }
                path_laws::lemma_last_separator_is(path, at);
                assert(path.skip(at + 2) == fn_name.skip(k + 2));
            },
            None => {
                assert(path::separator_at(path, start)) by {
                    assert(path[start] == tail[0] && path[start + 1] == tail[1]);
                }
                assert forall|j: int| start < j implies !#[trigger] path::separator_at(
                    path,
                    j,
                ) by {
                    if path::separator_at(path, j) {
                        let m = j - start - 2;
                        assert(path[j + 1] == tail[m + 3]);
                        if m >= 0 {
                            assert(path[j] == tail[m + 2]);
                            assert(path::separator_at(fn_name, m));
                        }
                    }
                }
                path_laws::lemma_last_separator_is(path, start);
                assert(path.skip(start + 2) == fn_name);
            },
        }
    }
}

/// Whether a path is the name behind a separator and a front.
pub open spec fn is_behind_separator(
    path: Seq<char>,
    front: Seq<char>,
    fn_name: Seq<char>,
) -> bool {
    path == front + seq![':', ':'] + fn_name
}

/// Law: a path matches a name by suffix if and only if it is the name, or the
/// name behind a separator with anything in front.
pub proof fn law_suffix_match_is_name_behind_separator(path: Seq<char>, fn_name: Seq<char>)
    ensures
        matching::matches_by(path, fn_name, Strategy::Suffix) <==> path == fn_name || exists|
            front: Seq<char>,
        | #[trigger] is_behind_separator(path, front, fn_name),
{
    let tail = seq![':', ':'] + fn_name;
    if tail.is_suffix_of(path) {
        let front = path.take(path.len() - tail.len());
        assert(path == front + tail) by {
            assert(tail == path.subrange(path.len() - tail.len(), path.len() as int));
        }
        assert(path == front + seq![':', ':'] + fn_name);
        assert(is_behind_separator(path, front, fn_name));
    }
    if exists|front: Seq<char>| #[trigger] is_behind_separator(path, front, fn_name) {
        let front = choose|front: Seq<char>| #[trigger] is_behind_separator(path, front, fn_name);
        assert(path.subrange(path.len() - tail.len(), path.len() as int) == tail);
    }
}

/// Law: a path matches a name by short name if and only if both have the same
/// last two segments.
pub proof fn law_short_names_agree_in_both_segments(
    front: Seq<char>,
    a: Seq<char>,
    b: Seq<char>,
    other: Seq<char>,
    c: Seq<char>,
    d: Seq<char>,
)
    requires
        path_laws::is_segment(a),
        path_laws::is_segment(b),
        path_laws::is_segment(c),
        path_laws::is_segment(d),
    ensures
        ({
            let sep = seq![':', ':'];
            let same = a == c && b == d;
            let long = front + sep + a + sep + b;
            let other_long = other + sep + c + sep + d;
            let short = a + sep + b;
            let other_short = c + sep + d;
            &&& matching::matches_by(long, other_long, Strategy::ShortName) <==> same
            &&& matching::matches_by(long, other_short, Strategy::ShortName) <==> same
            &&& matching::matches_by(short, other_long, Strategy::ShortName) <==> same
            &&& matching::matches_by(short, other_short, Strategy::ShortName) <==> same
        }),
{
    path_laws::law_short_name_is_last_two_segments(front, a, b);
    path_laws::law_short_name_is_last_two_segments(other, c, d);
    let sep = seq![':', ':'];
    if a + sep + b == c + sep + d {
        path_laws::lemma_two_segments_are_unique(a, b, c, d);
    }
}

/// Law: a path matches a name by short name if and only if their short names
/// are equal.
pub proof fn law_short_name_match_is_equality(path: Seq<char>, fn_name: Seq<char>)
    ensures
        matching::matches_by(path, fn_name, Strategy::ShortName) <==> path::last_two_segments(path)
            == path::last_two_segments(fn_name),
{
}

/// Whether the match of path `c` with signature `i` is the one that counts: no
/// earlier path matches by the same strategy, nor does path `c` match an
/// earlier signature, and a short name counts only where nothing matches by
/// suffix.
pub open spec fn is_deciding_match(
    paths: Seq<Seq<char>>,
    signatures: Seq<signature::SignatureView>,
    strategy: Strategy,
    c: int,
    i: int,
) -> bool {
    &&& matches_at(paths, signatures, strategy, c, i)
    &&& forall|d: int, j: int|
        d < c || d == c && j < i ==> !#[trigger] matches_at(paths, signatures, strategy, d, j)
    &&& strategy == Strategy::ShortName ==> forall|d: int, j: int|
        !#[trigger] matches_at(paths, signatures, Strategy::Suffix, d, j)
}

/// Whether no path matches any signature.
pub open spec fn is_unlisted(
    paths: Seq<Seq<char>>,
    signatures: Seq<signature::SignatureView>,
) -> bool {
    forall|strategy: Strategy, c: int, i: int|
        !#[trigger] matches_at(paths, signatures, strategy, c, i)
}

/// Law: the hit in a catalog is the match that counts, and there is none only
/// where no path matches any signature.
pub proof fn law_hit_is_deciding_match(
    paths: Seq<Seq<char>>,
    signatures: Seq<signature::SignatureView>,
)
    ensures
        match matching::catalog_hit(paths, signatures) {
            Some((i, strategy)) => exists|c: int| #[trigger]
                is_deciding_match(paths, signatures, strategy, c, i),
            None => is_unlisted(paths, signatures),
        },
{
    law_first_path_decides(paths, signatures, Strategy::Suffix);
    law_first_path_decides(paths, signatures, Strategy::ShortName);
    law_claimed_iff_some_match(paths, signatures);
    if let Some((i, strategy)) = matching::catalog_hit(paths, signatures) {
        let c = choose|c: int|
            {
                &&& #[trigger] matches_at(paths, signatures, strategy, c, i)
                &&& forall|d: int, j: int|
                    d < c || d == c && j < i ==> !#[trigger] matches_at(
                        paths,
                        signatures,
                        strategy,
                        d,
                        j,
                    )
            };
        assert(is_deciding_match(paths, signatures, strategy, c, i));
    }
}

/// Whether a point carries the facts of a signature.
pub open spec fn carries(
    point: signature::SecurityPointView,
    sig: signature::SignatureView,
) -> bool {
    &&& point.matched_fn_name == sig.fn_name
    &&& point.category == sig.category
    &&& point.prompt_arg_index == sig.prompt_arg_index
    &&& point.prompt_role == sig.prompt_role
    &&& point.request_index == sig.request_index
}

/// Whether a point names the strategy.
pub open spec fn names_strategy(
    point: signature::SecurityPointView,
    strategy: Strategy,
) -> bool {
    match strategy {
        Strategy::Suffix => point.strategy == "suffix"@,
        Strategy::ShortName => point.strategy == "short-name"@,
    }
}

/// Whether a point is due to a signature of the catalog: it carries the facts
/// of the signature whose match counts, and names the strategy of that match.
pub open spec fn is_due_to(
    point: signature::SecurityPointView,
    paths: Seq<Seq<char>>,
    signatures: Seq<signature::SignatureView>,
) -> bool {
    exists|strategy: Strategy, c: int, i: int|
        {
            &&& #[trigger] is_deciding_match(paths, signatures, strategy, c, i)
            &&& carries(point, signatures[i])
            &&& names_strategy(point, strategy)
        }
}

/// Law: each strategy has a name of its own.
pub proof fn law_strategies_have_their_names()
    ensures
        matching::strategy_name(Strategy::Suffix) == "suffix"@,
        matching::strategy_name(Strategy::ShortName) == "short-name"@,
        matching::strategy_name(Strategy::Suffix) != matching::strategy_name(Strategy::ShortName),
{
    reveal_strlit("suffix");
    reveal_strlit("short-name");
    assert("suffix"@.len() != "short-name"@.len());
}

/// Whether a signature is the one of a catalog whose match counts, by the given
/// strategy.
pub open spec fn is_found(
    sig: signature::SignatureView,
    strategy: Strategy,
    paths: Seq<Seq<char>>,
    signatures: Seq<signature::SignatureView>,
) -> bool {
    exists|c: int, i: int| #[trigger]
        is_deciding_match(paths, signatures, strategy, c, i) && sig == signatures[i]
}

/// Law: the hit among the three catalogs is the signature whose match counts in
/// the first catalog that lists a path, and its kind is that catalog.
pub proof fn law_first_catalog_that_lists_decides(
    paths: Seq<Seq<char>>,
    llm: Seq<signature::SignatureView>,
    ac: Seq<signature::SignatureView>,
    data: Seq<signature::SignatureView>,
)
    ensures
        match matching::first_hit(paths, llm, ac, data) {
            Some((kind, sig, strategy)) => match kind {
                SecurityTag::LLMAPICalls => is_found(sig, strategy, paths, llm),
                SecurityTag::AccessControl => is_unlisted(paths, llm) && is_found(
                    sig,
                    strategy,
                    paths,
                    ac,
                ),
                SecurityTag::DataAccess => is_unlisted(paths, llm) && is_unlisted(paths, ac)
                    && is_found(sig, strategy, paths, data),
                SecurityTag::LLMAPIPrompt => false,
            },
            None => is_unlisted(paths, llm) && is_unlisted(paths, ac) && is_unlisted(paths, data),
        },
{
    law_hit_is_deciding_match(paths, llm);
    law_hit_is_deciding_match(paths, ac);
    law_hit_is_deciding_match(paths, data);
    if let Some((kind, sig, strategy)) = matching::first_hit(paths, llm, ac, data) {
        let signatures = match kind {
            SecurityTag::LLMAPICalls => llm,
            SecurityTag::AccessControl => ac,
            _ => data,
        };
        let (i, by) = matching::catalog_hit(paths, signatures)->0;
        let c = choose|c: int| #[trigger] is_deciding_match(paths, signatures, by, c, i);
        assert(is_deciding_match(paths, signatures, strategy, c, i) && sig == signatures[i]);
    }
}

/// Law: the point for a signature is at the call that was looked up and carries
/// the facts of that signature, whatever the kind and the strategy are.
pub proof fn law_point_holds_the_facts_of_its_hit(
    kind: SecurityTag,
    sig: signature::SignatureView,
    strategy: Strategy,
    callee: Seq<char>,
    caller: Seq<char>,
    block: Seq<char>,
)
    ensures
        ({
            let point = matching::point_of_hit((kind, sig, strategy), callee, caller, block);
            &&& point.kind == kind
            &&& point.callee == callee
            &&& point.caller == caller
            &&& point.block == block
            &&& point.matched_fn_name == sig.fn_name
            &&& point.category == sig.category
            &&& point.prompt_arg_index == sig.prompt_arg_index
            &&& point.prompt_role == sig.prompt_role
            &&& point.request_index == sig.request_index
            &&& names_strategy(point, strategy)
        }),
{
}

/// Law: a point is at the call that was looked up, its kind is the first
/// catalog that lists the callee, and it carries the facts of the signature of
/// that catalog which the callee matches, by the strategy that it names. There
/// is no point only where no catalog lists the callee.
pub proof fn law_point_carries_its_signature(
    callee: Seq<char>,
    caller: Seq<char>,
    block: Seq<char>,
    llm: Seq<signature::SignatureView>,
    ac: Seq<signature::SignatureView>,
    data: Seq<signature::SignatureView>,
)
    ensures
        ({
            let paths = path::candidates(callee);
            match matching::demangled_point(callee, caller, block, llm, ac, data) {
                Some(point) => {
                    &&& point.callee == callee
                    &&& point.caller == caller
                    &&& point.block == block
                    &&& match point.kind {
                        SecurityTag::LLMAPICalls => is_due_to(point, paths, llm),
                        SecurityTag::AccessControl => is_unlisted(paths, llm) && is_due_to(
                            point,
                            paths,
                            ac,
                        ),
                        SecurityTag::DataAccess => is_unlisted(paths, llm) && is_unlisted(paths, ac)
                            && is_due_to(point, paths, data),
                        SecurityTag::LLMAPIPrompt => false,
                    }
                },
                None => is_unlisted(paths, llm) && is_unlisted(paths, ac) && is_unlisted(
                    paths,
                    data,
                ),
            }
        }),
{
    let paths = path::candidates(callee);
    law_hit_is_deciding_match(paths, llm);
    law_hit_is_deciding_match(paths, ac);
    law_hit_is_deciding_match(paths, data);
    if let Some(point) = matching::demangled_point(callee, caller, block, llm, ac, data) {
        let signatures = match point.kind {
            SecurityTag::LLMAPICalls => llm,
            SecurityTag::AccessControl => ac,
            _ => data,
        };
        let (i, strategy) = matching::catalog_hit(paths, signatures)->0;
        let c = choose|c: int| #[trigger] is_deciding_match(paths, signatures, strategy, c, i);
        assert(is_deciding_match(paths, signatures, strategy, c, i));
        assert(carries(point, signatures[i]));
        assert(names_strategy(point, strategy));
        assert(is_due_to(point, paths, signatures));
    }
}

/// Law: some candidate of the callee matches the name under which its point was
/// matched, by the strategy that the point names.
pub proof fn law_some_candidate_matches_the_point(
    callee: Seq<char>,
    caller: Seq<char>,
    block: Seq<char>,
    llm: Seq<signature::SignatureView>,
    ac: Seq<signature::SignatureView>,
    data: Seq<signature::SignatureView>,
)
    requires
        matching::demangled_point(callee, caller, block, llm, ac, data) is Some,
    ensures
        ({
            let point = matching::demangled_point(callee, caller, block, llm, ac, data)->0;
            let paths = path::candidates(callee);
            exists|c: int, strategy: Strategy|
                0 <= c < paths.len() && names_strategy(point, strategy)
                    && #[trigger] matching::matches_by(paths[c], point.matched_fn_name, strategy)
        }),
{
    let point = matching::demangled_point(callee, caller, block, llm, ac, data)->0;
    let paths = path::candidates(callee);
    law_point_carries_its_signature(callee, caller, block, llm, ac, data);
    let signatures = match point.kind {
        SecurityTag::LLMAPICalls => llm,
        SecurityTag::AccessControl => ac,
        _ => data,
    };
    let (strategy, c, i) = choose|strategy: Strategy, c: int, i: int|
        {
            &&& #[trigger] is_deciding_match(paths, signatures, strategy, c, i)
            &&& carries(point, signatures[i])
            &&& names_strategy(point, strategy)
        };
    assert(matching::matches_by(paths[c], point.matched_fn_name, strategy));
}

/// How a symbol reads once its sigils and quotes are gone.
pub open spec fn shown(name: Seq<char>) -> Seq<char> {
    let bare = symbol::bare_symbol(name);
    if symbol::is_plain_symbol(bare) {
        bare
    } else {
        symbol::demangled(bare)
    }
}

/// Law: the point at a call between two symbols, mangled or not, is the point
/// at a call between what they demangle to; only a plain symbol stands for
/// itself.
pub proof fn law_symbols_are_demangled(
    callee: Seq<char>,
    caller: Seq<char>,
    block: Seq<char>,
    llm: Seq<signature::SignatureView>,
    ac: Seq<signature::SignatureView>,
    data: Seq<signature::SignatureView>,
)
    ensures
        matching::callsite_point(callee, caller, block, llm, ac, data) == matching::demangled_point(
            shown(callee),
            shown(caller),
            block,
            llm,
            ac,
            data,
        ),
{
}

} // verus!

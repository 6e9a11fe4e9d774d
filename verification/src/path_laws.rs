//! Laws of demangled paths.

use crate::path;
use crate::search;
use vstd::prelude::*;

verus! {

/// Whether `s` has no angle bracket.
pub open spec fn is_bracket_free(s: Seq<char>) -> bool {
    forall|i: int| 0 <= i < s.len() ==> #[trigger] s[i] != '<' && s[i] != '>'
}

/// Whether every `>` of `s` closes a `<` of `s`, but for those of arrows, and
/// every `<` is closed.
pub open spec fn is_nested(s: Seq<char>) -> bool {
    &&& forall|j: int| 0 <= j <= s.len() ==> #[trigger] path::angle_balance(s.take(j)) >= 0
    &&& path::angle_balance(s) == 0
}

/// Whether a `>` behind `s` would be that of an arrow.
pub open spec fn ends_in_dash(s: Seq<char>) -> bool {
    s.len() > 0 && s.last() == '-'
}

/// Whether `s` can stand between a `<` and the `>` that closes it.
pub open spec fn is_bracketable(s: Seq<char>) -> bool {
    is_nested(s) && !ends_in_dash(s)
}

/// Whether `a` and `b` put together make an arrow that neither of them has.
pub open spec fn joins_arrow(a: Seq<char>, b: Seq<char>) -> bool {
    ends_in_dash(a) && b.len() > 0 && b[0] == '>'
}

/// Whether `s` has no colon.
pub open spec fn is_segment(s: Seq<char>) -> bool {
    forall|i: int| 0 <= i < s.len() ==> #[trigger] s[i] != ':'
}

/// The separator of path segments.
pub open spec fn separator() -> Seq<char> {
    seq![':', ':']
}

/// The balance of a concatenation is the sum of the balances.
proof fn lemma_balance_concat(a: Seq<char>, b: Seq<char>)
    requires
        !joins_arrow(a, b),
    ensures
        path::angle_balance(a + b) == path::angle_balance(a) + path::angle_balance(b),
    decreases b.len(),
{
    if b.len() == 0 {
        assert(a + b == a);
    } else {
        lemma_balance_concat(a, b.drop_last());
        assert((a + b).drop_last() == a + b.drop_last());
    }
}

/// Text without brackets opens none.
proof fn lemma_bracket_free_open(s: Seq<char>)
    requires
        is_bracket_free(s),
    ensures
        path::open_angles(s) == 0,
        path::without_generics(s) == s,
    decreases s.len(),
{
    if s.len() > 0 {
        assert(is_bracket_free(s.drop_last()));
        lemma_bracket_free_open(s.drop_last());
        assert(s.drop_last().push(s.last()) == s);
    }
}

/// Text without brackets behind text that leaves none open is kept.
pub proof fn lemma_plain_end_is_kept(front: Seq<char>, end: Seq<char>)
    requires
        path::open_angles(front) == 0,
        is_bracket_free(end),
    ensures
        path::open_angles(front + end) == 0,
        path::without_generics(front + end) == path::without_generics(front) + end,
    decreases end.len(),
{
    if end.len() == 0 {
        assert(front + end == front);
        assert(path::without_generics(front) + end == path::without_generics(front));
    } else {
        assert(is_bracket_free(end.drop_last()));
        lemma_plain_end_is_kept(front, end.drop_last());
        assert((front + end).drop_last() == front + end.drop_last());
        assert(path::without_generics(front + end) == path::without_generics(front) + end);
    }
}

/// Law: what is left of a path without its generics has no angle bracket.
pub proof fn law_generics_are_gone(s: Seq<char>)
    ensures
        is_bracket_free(path::without_generics(s)),
    decreases s.len(),
{
    if s.len() > 0 {
        law_generics_are_gone(s.drop_last());
    }
}

/// Law: a path without angle brackets is left as it is.
pub proof fn law_plain_paths_are_kept(s: Seq<char>)
    requires
        is_bracket_free(s),
    ensures
        path::without_generics(s) == s,
{
    lemma_bracket_free_open(s);
}

/// Law: taking generics out a second time changes nothing.
pub proof fn law_stripping_is_idempotent(s: Seq<char>)
    ensures
        path::without_generics(path::without_generics(s)) == path::without_generics(s),
{
    law_generics_are_gone(s);
    law_plain_paths_are_kept(path::without_generics(s));
}

/// While `generics` is read behind `before` and a `<`, nothing is kept.
proof fn lemma_inside_segment(before: Seq<char>, generics: Seq<char>, j: int)
    requires
        0 <= j <= generics.len(),
        is_nested(generics),
    ensures
        path::open_angles(before + seq!['<'] + generics.take(j)) == path::open_angles(before) + 1
            + path::angle_balance(generics.take(j)),
        path::without_generics(before + seq!['<'] + generics.take(j)) == path::without_generics(
            before,
        ),
    decreases j,
{
    let s = before + seq!['<'] + generics.take(j);
    if j == 0 {
        assert(generics.take(0) == Seq::<char>::empty());
        assert(s.drop_last() == before);
    } else {
        lemma_inside_segment(before, generics, j - 1);
        assert(s.drop_last() == before + seq!['<'] + generics.take(j - 1));
        assert(generics.take(j).drop_last() == generics.take(j - 1));
        assert(s.last() == generics.take(j).last());
        assert(path::angle_balance(generics.take(j - 1)) >= 0);
        assert(path::angle_balance(generics.take(j)) >= 0);
    }
}

/// Law: a balanced `<...>` segment counts for nothing, wherever it stands, but
/// where it keeps a `-` and a `>` apart that would make an arrow inside brackets.
pub proof fn law_balanced_segments_are_removed(
    before: Seq<char>,
    generics: Seq<char>,
    after: Seq<char>,
)
    requires
        is_bracketable(generics),
        joins_arrow(before, after) ==> path::open_angles(before) == 0,
    ensures
        path::without_generics(before + seq!['<'] + generics + seq!['>'] + after)
            == path::without_generics(before + after),
{
    lemma_segment_removed(before, generics, after);
}

proof fn lemma_segment_removed(before: Seq<char>, generics: Seq<char>, after: Seq<char>)
    requires
        is_bracketable(generics),
        joins_arrow(before, after) ==> path::open_angles(before) == 0,
    ensures
        path::open_angles(before + seq!['<'] + generics + seq!['>'] + after) == path::open_angles(
            before + after,
        ),
        path::without_generics(before + seq!['<'] + generics + seq!['>'] + after)
            == path::without_generics(before + after),
    decreases after.len(),
{
    let s = before + seq!['<'] + generics + seq!['>'] + after;
    if after.len() == 0 {
        lemma_inside_segment(before, generics, generics.len() as int);
        assert(generics.take(generics.len() as int) == generics);
        assert(s.drop_last() == before + seq!['<'] + generics);
        assert(s.last() == '>');
        assert(before + after == before);
    } else {
        lemma_segment_removed(before, generics, after.drop_last());
        assert(s.drop_last() == before + seq!['<'] + generics + seq!['>'] + after.drop_last());
        assert((before + after).drop_last() == before + after.drop_last());
        assert(s.last() == after.last());
        assert((before + after).last() == after.last());
    }
}

/// Law: a callee has one candidate or three, none of them with generics, and
/// the first is the path itself without generics.
pub proof fn law_candidates_are_plain(demangled: Seq<char>)
    ensures
        path::candidates(demangled).len() == 1 || path::candidates(demangled).len() == 3,
        path::candidates(demangled)[0] == path::without_generics(demangled),
        forall|i: int|
            0 <= i < path::candidates(demangled).len() ==> is_bracket_free(
                #[trigger] path::candidates(demangled)[i],
            ),
{
    assert forall|s: Seq<char>| is_bracket_free(#[trigger] path::without_generics(s)) by {
        law_generics_are_gone(s);
    }
}

/// Law: a path without angle brackets is its own only candidate.
pub proof fn law_direct_calls(demangled: Seq<char>)
    requires
        is_bracket_free(demangled),
    ensures
        path::candidates(demangled) == seq![demangled],
{
    law_plain_paths_are_kept(demangled);
    if demangled.len() > 0 {
        assert(demangled[0] != '<');
    }
}

/// Law: generics on a type or on a method of a path that does not begin with
/// a bracket do not change what the path is looked up under.
pub proof fn law_generics_are_ignored(before: Seq<char>, generics: Seq<char>, after: Seq<char>)
    requires
        before.len() > 0,
        before[0] != '<',
        is_bracketable(generics),
        joins_arrow(before, after) ==> path::open_angles(before) == 0,
    ensures
        path::candidates(before + seq!['<'] + generics + seq!['>'] + after) == path::candidates(
            before + after,
        ),
{
    law_balanced_segments_are_removed(before, generics, after);
    assert((before + seq!['<'] + generics + seq!['>'] + after)[0] == before[0]);
    assert((before + after)[0] == before[0]);
}

/// The `<` in front of `inner` is closed by the `>` behind it.
proof fn lemma_angle_around(inner: Seq<char>, rest: Seq<char>)
    requires
        is_bracketable(inner),
    ensures
        path::matching_angle_at(seq!['<'] + inner + seq!['>'] + rest) == Some(inner.len() as int + 1),
{
    let s = seq!['<'] + inner + seq!['>'] + rest;
    let p = |k: int| path::angle_balance(s.take(k + 1)) == 0;
    let end = inner.len() as int + 1;
    assert(path::angle_balance(seq!['<']) == 1 && path::angle_balance(seq!['>']) == -1) by {
        reveal_with_fuel(path::angle_balance, 2);
    }
    assert forall|k: int| 0 <= k < end implies !#[trigger] p(k) by {
        assert(s.take(k + 1) == seq!['<'] + inner.take(k));
        lemma_balance_concat(seq!['<'], inner.take(k));
        assert(path::angle_balance(inner.take(k)) >= 0);
    }
    assert(s.take(end + 1) == seq!['<'] + inner + seq!['>']);
    lemma_balance_concat(seq!['<'], inner);
    lemma_balance_concat(seq!['<'] + inner, seq!['>']);
    assert(p(end));
    search::lemma_first_index_is(p, s.len() as int, end);
}

/// Text without brackets is balanced.
proof fn lemma_bracket_free_balance(s: Seq<char>)
    requires
        is_bracket_free(s),
    ensures
        path::angle_balance(s) == 0,
    decreases s.len(),
{
    if s.len() > 0 {
        assert(is_bracket_free(s.drop_last()));
        lemma_bracket_free_balance(s.drop_last());
    }
}

/// Nested text behind nested text is nested.
proof fn lemma_nested_concat(a: Seq<char>, b: Seq<char>)
    requires
        is_nested(a),
        is_nested(b),
        !joins_arrow(a, b),
    ensures
        is_nested(a + b),
{
    lemma_balance_concat(a, b);
    assert forall|j: int| 0 <= j <= (a + b).len() implies #[trigger] path::angle_balance(
        (a + b).take(j),
    ) >= 0 by {
        if j <= a.len() {
            assert((a + b).take(j) == a.take(j));
        } else {
            let m = j - a.len();
            assert((a + b).take(j) == a + b.take(m));
            lemma_balance_concat(a, b.take(m));
        }
    }
}

/// Text without brackets is nested.
proof fn lemma_bracket_free_nested(s: Seq<char>)
    requires
        is_bracket_free(s),
    ensures
        is_nested(s),
{
    lemma_bracket_free_balance(s);
    assert forall|j: int| 0 <= j <= s.len() implies #[trigger] path::angle_balance(s.take(j))
        >= 0 by {
        assert(is_bracket_free(s.take(j)));
        lemma_bracket_free_balance(s.take(j));
    }
}

/// Whether `ty` can stand in front of ` as ` without an earlier ` as ` at its
/// top level.
pub open spec fn is_type_path(ty: Seq<char>) -> bool {
    &&& is_nested(ty)
    &&& forall|k: int|
        0 <= k < ty.len() ==> !#[trigger] path::as_at_top_level(ty + path::as_keyword(), k)
}

/// `Type as Trait` is split between the two.
proof fn lemma_split_between(ty: Seq<char>, tr: Seq<char>)
    requires
        is_type_path(ty),
    ensures
        path::top_level_as(ty + path::as_keyword() + tr) == Some(ty.len() as int),
{
    let front = ty + path::as_keyword();
    let inner = front + tr;
    let p = |k: int| path::as_at_top_level(inner, k);
    let n = ty.len() as int;
    assert(inner.subrange(n, n + 4) == path::as_keyword());
    assert(inner.take(n) == ty);
    assert(p(n));
    assert forall|k: int| 0 <= k < n implies !#[trigger] p(k) by {
        assert(!path::as_at_top_level(front, k));
        assert(front.subrange(k, k + 4) == inner.subrange(k, k + 4));
        assert(front.take(k) == inner.take(k));
    }
    search::lemma_first_index_is(p, inner.len() as int, n);
}

/// Law: a call through a trait, `<Type as Trait>::method`, is looked up as it
/// stands, as `Type::method` and as `Trait::method`. Type and trait may hold
/// angle brackets of their own, as long as these are nested, and arrows of
/// function types; the type may hold ` as ` inside brackets: the split is at
/// the outer one.
pub proof fn law_trait_dispatch(ty: Seq<char>, tr: Seq<char>, rest: Seq<char>)
    requires
        is_type_path(ty),
        is_bracketable(tr),
    ensures
        ({
            let demangled = seq!['<'] + ty + path::as_keyword() + tr + seq!['>'] + rest;
            path::candidates(demangled) == seq![
                path::without_generics(demangled),
                path::without_generics(ty + rest),
                path::without_generics(tr + rest),
            ]
        }),
{
    let demangled = seq!['<'] + ty + path::as_keyword() + tr + seq!['>'] + rest;
    let inner = ty + path::as_keyword() + tr;
    let gt = inner.len() as int + 1;
    lemma_parts_of_dispatch(ty, tr, rest);
    assert(path::matching_angle_at(demangled) == Some(gt)) by {
        lemma_type_as_trait_is_nested(ty, tr);
        lemma_angle_around(inner, rest);
    }
    lemma_split_between(ty, tr);
    lemma_candidates_of_split(demangled, gt, ty.len() as int);
}

/// The candidates of a path whose type and trait are split at `k`.
proof fn lemma_candidates_of_split(demangled: Seq<char>, gt: int, k: int)
    requires
        path::matching_angle_at(demangled) == Some(gt),
        path::top_level_as(demangled.subrange(1, gt)) == Some(k),
    ensures
        ({
            let inner = demangled.subrange(1, gt);
            let rest = demangled.skip(gt + 1);
            path::candidates(demangled) == seq![
                path::without_generics(demangled),
                path::without_generics(inner.take(k) + rest),
                path::without_generics(inner.skip(k + 4) + rest),
            ]
        }),
{
}

/// `Type as Trait` is nested where both are.
proof fn lemma_type_as_trait_is_nested(ty: Seq<char>, tr: Seq<char>)
    requires
        is_nested(ty),
        is_bracketable(tr),
    ensures
        is_bracketable(ty + path::as_keyword() + tr),
{
    let front = ty + path::as_keyword();
    lemma_bracket_free_nested(path::as_keyword());
    lemma_nested_concat(ty, path::as_keyword());
    lemma_nested_concat(front, tr);
    if tr.len() > 0 {
        assert((front + tr).last() == tr.last());
    } else {
        assert((front + tr).last() == path::as_keyword().last());
    }
}

/// Where the parts of `<Type as Trait>` with a rest behind it stand.
proof fn lemma_parts_of_dispatch(ty: Seq<char>, tr: Seq<char>, rest: Seq<char>)
    ensures
        ({
            let demangled = seq!['<'] + ty + path::as_keyword() + tr + seq!['>'] + rest;
            let inner = ty + path::as_keyword() + tr;
            let gt = inner.len() as int + 1;
            &&& demangled == seq!['<'] + inner + seq!['>'] + rest
            &&& demangled.subrange(1, gt) == inner
            &&& demangled.skip(gt + 1) == rest
            &&& inner.take(ty.len() as int) == ty
            &&& inner.skip(ty.len() as int + 4) == tr
        }),
{
    let demangled = seq!['<'] + ty + path::as_keyword() + tr + seq!['>'] + rest;
    let inner = ty + path::as_keyword() + tr;
    let gt = inner.len() as int + 1;
    assert(demangled == seq!['<'] + inner + seq!['>'] + rest);
    assert(demangled.subrange(1, gt) == inner);
    assert(demangled.skip(gt + 1) == rest);
    assert(inner.take(ty.len() as int) == ty);
    assert(inner.skip(ty.len() as int + 4) == tr);
}

/// Law: only a path of the form `<Type as Trait>` with a rest behind it has
/// three candidates, and they are those of that type, trait and rest.
pub proof fn law_three_candidates_only_for_traits(demangled: Seq<char>)
    ensures
        path::candidates(demangled).len() == 3 ==> exists|
            ty: Seq<char>,
            tr: Seq<char>,
            rest: Seq<char>,
        | #[trigger]
            is_dispatch(demangled, ty, tr, rest) && path::candidates(demangled) == seq![
                path::without_generics(demangled),
                path::without_generics(ty + rest),
                path::without_generics(tr + rest),
            ],
{
    path::lemma_matching_angle(demangled);
    if let Some(gt) = path::matching_angle_at(demangled) {
        let inner = demangled.subrange(1, gt);
        let rest = demangled.skip(gt + 1);
        let p = |k: int| path::as_at_top_level(inner, k);
        search::lemma_first_index(p, inner.len() as int);
        if let Some(k) = path::top_level_as(inner) {
            assert(p(k));
            let ty = inner.take(k);
            let tr = inner.skip(k + 4);
            assert(inner == ty + inner.subrange(k, k + 4) + tr);
            assert(demangled == seq!['<'] + inner + seq!['>'] + rest);
            assert(demangled == seq!['<'] + ty + path::as_keyword() + tr + seq!['>'] + rest);
            assert(is_dispatch(demangled, ty, tr, rest));
        }
    }
}

/// Whether a path is `<Type as Trait>` with a rest behind it.
pub open spec fn is_dispatch(
    demangled: Seq<char>,
    ty: Seq<char>,
    tr: Seq<char>,
    rest: Seq<char>,
) -> bool {
    demangled == seq!['<'] + ty + path::as_keyword() + tr + seq!['>'] + rest
}

/// The last segment of a path.
pub open spec fn last_segment(s: Seq<char>) -> Seq<char> {
    match path::last_separator(s) {
        Some(k) => s.skip(k + 2),
        None => s,
    }
}

/// What it means for a separator to be the last one.
pub proof fn lemma_last_separator(s: Seq<char>)
    ensures
        match path::last_separator(s) {
            Some(k) => path::separator_at(s, k) && forall|j: int|
                k < j ==> !#[trigger] path::separator_at(s, j),
            None => forall|j: int| !#[trigger] path::separator_at(s, j),
        },
{
    let p = |k: int| path::separator_at(s, k);
    search::lemma_last_index(p, s.len() as int);
    assert forall|j: int| #[trigger] path::separator_at(s, j) implies 0 <= j < s.len() && p(j) by {
    }
}

/// A separator with none behind it is the last one.
pub proof fn lemma_last_separator_is(s: Seq<char>, k: int)
    requires
        path::separator_at(s, k),
        forall|j: int| k < j ==> !#[trigger] path::separator_at(s, j),
    ensures
        path::last_separator(s) == Some(k),
{
    lemma_last_separator(s);
    let m = path::last_separator(s)->0;
    if m < k {
        assert(!path::separator_at(s, k));
    }
}

/// Dropping the front of a path up to its last separator or less keeps that
/// separator the last.
pub proof fn lemma_last_separator_of_suffix(s: Seq<char>, from: int)
    requires
        0 <= from <= s.len(),
        path::last_separator(s) is Some,
        from <= path::last_separator(s)->0,
    ensures
        path::last_separator(s.skip(from)) == Some(path::last_separator(s)->0 - from),
{
    let k = path::last_separator(s)->0;
    lemma_last_separator(s);
    assert(path::separator_at(s.skip(from), k - from));
    assert forall|j: int| k - from < j implies !#[trigger] path::separator_at(s.skip(from), j) by {
        assert(!path::separator_at(s, j + from));
    }
    lemma_last_separator_is(s.skip(from), k - from);
}

/// Law: the short name of a path is its end, and its own short name.
pub proof fn law_short_names_are_stable(s: Seq<char>)
    ensures
        path::last_two_segments(s).is_suffix_of(s),
        path::last_two_segments(path::last_two_segments(s)) == path::last_two_segments(s),
        last_segment(path::last_two_segments(s)) == last_segment(s),
{
    let short = path::last_two_segments(s);
    if let Some(k) = path::last_separator(s) {
        lemma_last_separator(s);
        if let Some(j) = path::last_separator(s.take(k)) {
            lemma_last_separator(s.take(k));
            let from = j + 2;
            assert(from <= k);
            lemma_last_separator_of_suffix(s, from);
            assert(short.take(k - from) == s.subrange(from, k));
            assert forall|i: int| !#[trigger] path::separator_at(short.take(k - from), i) by {
                if path::separator_at(short.take(k - from), i) {
                    assert(path::separator_at(s.take(k), i + from));
                }
            }
            lemma_last_separator(short.take(k - from));
            assert(short.skip(k - from + 2) == s.skip(k + 2));
        }
    }
    assert(s.skip(0) == s);
    assert(s.subrange(s.len() - short.len(), s.len() as int) == short);
}

/// The last separator of a path stands in front of its last segment.
proof fn lemma_separator_before_segment(front: Seq<char>, segment: Seq<char>)
    requires
        is_segment(segment),
    ensures
        path::last_separator(front + separator() + segment) == Some(front.len() as int),
{
    let s = front + separator() + segment;
    let k = front.len() as int;
    assert(path::separator_at(s, k));
    assert forall|j: int| k < j implies !#[trigger] path::separator_at(s, j) by {
        if path::separator_at(s, j) {
            assert(s[j + 1] == segment[j - 1 - k]);
        }
    }
    lemma_last_separator_is(s, k);
}

/// Law: the short name of a path is made of its last two segments, whatever
/// stands in front of them.
pub proof fn law_short_name_is_last_two_segments(
    front: Seq<char>,
    first: Seq<char>,
    second: Seq<char>,
)
    requires
        is_segment(first),
        is_segment(second),
    ensures
        path::last_two_segments(front + separator() + first + separator() + second) == first
            + separator() + second,
        path::last_two_segments(first + separator() + second) == first + separator() + second,
{
    let s = front + separator() + first + separator() + second;
    let short = first + separator() + second;
    let long = front + separator() + first;
    lemma_separator_before_segment(long, second);
    assert(s.take(long.len() as int) == long);
    lemma_separator_before_segment(front, first);
    assert(s.skip(front.len() as int + 2) == short);
    lemma_separator_before_segment(first, second);
    assert(short.take(first.len() as int) == first);
    assert forall|j: int| !#[trigger] path::separator_at(first, j) by {
    }
    lemma_last_separator(first);
}

/// The places in `s` at which a bracket is opened.
pub open spec fn openers(s: Seq<char>) -> Set<int> {
    Set::new(|i: int| 0 <= i < s.len() && s[i] == '<')
}

/// The places in `s` at which a bracket is closed: each `>` but those of arrows.
pub open spec fn closers(s: Seq<char>) -> Set<int> {
    Set::new(|i: int| 0 <= i < s.len() && s[i] == '>' && !(i > 0 && s[i - 1] == '-'))
}

/// Law: the balance of a text is the number of places at which it opens a
/// bracket less the number of places at which it closes one.
pub proof fn law_balance_counts_brackets(s: Seq<char>)
    ensures
        openers(s).finite(),
        closers(s).finite(),
        path::angle_balance(s) == openers(s).len() - closers(s).len(),
    decreases s.len(),
{
    if s.len() == 0 {
        assert(openers(s) == Set::<int>::empty());
        assert(closers(s) == Set::<int>::empty());
    } else {
        let front = s.drop_last();
        let end = s.len() - 1;
        law_balance_counts_brackets(front);
        assert(!openers(front).contains(end));
        assert(!closers(front).contains(end));
        if s.last() == '<' {
            assert(openers(s) == openers(front).insert(end));
        } else {
            assert(openers(s) == openers(front));
        }
        if s.last() == '>' && !path::ends_in_arrow(s) {
            assert(closers(s) == closers(front).insert(end));
        } else {
            assert(closers(s) == closers(front));
        }
    }
}

/// Law: one more character changes the number of open brackets only if it
/// opens one or closes one that is open, and is kept only if it is no bracket
/// and none is open.
pub proof fn law_one_more_character(s: Seq<char>, c: char)
    ensures
        path::open_angles(Seq::<char>::empty()) == 0,
        path::without_generics(Seq::<char>::empty()) == Seq::<char>::empty(),
        c == '<' ==> path::open_angles(s.push(c)) == path::open_angles(s) + 1,
        c == '>' && !ends_in_dash(s) && path::open_angles(s) > 0 ==> path::open_angles(s.push(c))
            == path::open_angles(s) - 1,
        c != '<' && (c != '>' || ends_in_dash(s) || path::open_angles(s) == 0)
            ==> path::open_angles(s.push(c)) == path::open_angles(s),
        c != '<' && c != '>' && path::open_angles(s) == 0 ==> path::without_generics(s.push(c))
            == path::without_generics(s).push(c),
        c == '<' || c == '>' || path::open_angles(s) > 0 ==> path::without_generics(s.push(c))
            == path::without_generics(s),
{
    assert(s.push(c).drop_last() == s);
}

/// Whether the four characters at `k` are ` as ` and as many brackets are
/// closed in front of them as are opened.
pub open spec fn is_split_point(s: Seq<char>, k: int) -> bool {
    &&& 0 <= k
    &&& k + 4 <= s.len()
    &&& s[k] == ' '
    &&& s[k + 1] == 'a'
    &&& s[k + 2] == 's'
    &&& s[k + 3] == ' '
    &&& openers(s.take(k)).len() == closers(s.take(k)).len()
}

/// Law: a type is split from its trait at the first ` as ` in front of which
/// no bracket is open.
pub proof fn law_split_is_at_first_split_point(s: Seq<char>)
    ensures
        match path::top_level_as(s) {
            Some(k) => is_split_point(s, k) && forall|j: int|
                j < k ==> !#[trigger] is_split_point(s, j),
            None => forall|j: int| !#[trigger] is_split_point(s, j),
        },
{
    let p = |k: int| path::as_at_top_level(s, k);
    search::lemma_first_index(p, s.len() as int);
    assert forall|j: int| #[trigger] is_split_point(s, j) == (0 <= j < s.len() && p(j)) by {
        if 0 <= j && j + 4 <= s.len() {
            law_balance_counts_brackets(s.take(j));
            let window = s.subrange(j, j + 4);
            assert(window[0] == s[j] && window[1] == s[j + 1] && window[2] == s[j + 2]
                && window[3] == s[j + 3]);
            if is_split_point(s, j) {
                assert(window == path::as_keyword());
            }
        }
    }
}

/// Law: the bracket that a text begins with is closed at the first place up to
/// which as many brackets are closed as are opened.
pub proof fn law_closing_bracket(s: Seq<char>)
    ensures
        match path::matching_angle_at(s) {
            Some(k) => {
                &&& 0 < k < s.len()
                &&& s[0] == '<'
                &&& s[k] == '>'
                &&& openers(s.take(k + 1)).len() == closers(s.take(k + 1)).len()
                &&& forall|j: int|
                    0 < j <= k ==> #[trigger] openers(s.take(j)).len() > closers(s.take(j)).len()
            },
            None => s.len() == 0 || s[0] != '<' || forall|j: int|
                0 < j <= s.len() ==> #[trigger] openers(s.take(j)).len() > closers(
                    s.take(j),
                ).len(),
        },
{
    path::lemma_matching_angle(s);
    assert forall|j: int| path::angle_balance(#[trigger] s.take(j)) == openers(s.take(j)).len()
        - closers(s.take(j)).len() by {
        law_balance_counts_brackets(s.take(j));
    }
    if let Some(k) = path::matching_angle_at(s) {
        law_balance_counts_brackets(s.take(k + 1));
        assert forall|j: int| 0 < j <= k implies #[trigger] openers(s.take(j)).len() > closers(
            s.take(j),
        ).len() by {
            assert(path::angle_balance(s.take(j)) > 0);
        }
    } else if s.len() > 0 && s[0] == '<' {
        assert forall|j: int| 0 < j <= s.len() implies #[trigger] openers(s.take(j)).len()
            > closers(s.take(j)).len() by {
            assert(path::angle_balance(s.take(j)) > 0);
        }
    }
}

/// Whether two colons stand at `k`.
pub open spec fn two_colons_at(s: Seq<char>, k: int) -> bool {
    0 <= k && k + 2 <= s.len() && s[k] == ':' && s[k + 1] == ':'
}

/// Law: the short name of a path begins behind the second separator from its
/// end, where separators do not overlap.
pub proof fn law_short_name_begins_behind_second_separator(s: Seq<char>, j: int, k: int)
    requires
        two_colons_at(s, j),
        two_colons_at(s, k),
        j + 2 <= k,
        forall|m: int| k < m ==> !#[trigger] two_colons_at(s, m),
        forall|m: int| j < m && m + 2 <= k ==> !#[trigger] two_colons_at(s, m),
    ensures
        path::last_two_segments(s) == s.skip(j + 2),
{
    assert forall|m: int| k < m implies !#[trigger] path::separator_at(s, m) by {
        assert(!two_colons_at(s, m));
    }
    lemma_last_separator_is(s, k);
    assert(path::separator_at(s.take(k), j));
    assert forall|m: int| j < m implies !#[trigger] path::separator_at(s.take(k), m) by {
        if path::separator_at(s.take(k), m) {
            assert(two_colons_at(s, m));
        }
    }
    lemma_last_separator_is(s.take(k), j);
}

/// Law: a path without two separators that do not overlap is its own short name.
pub proof fn law_short_paths_are_their_short_name(s: Seq<char>)
    requires
        forall|j: int, k: int|
            #[trigger] two_colons_at(s, j) && #[trigger] two_colons_at(s, k) ==> k < j + 2,
    ensures
        path::last_two_segments(s) == s,
{
    if let Some(k) = path::last_separator(s) {
        lemma_last_separator(s);
        assert(two_colons_at(s, k));
        if let Some(j) = path::last_separator(s.take(k)) {
            lemma_last_separator(s.take(k));
            assert(two_colons_at(s, j));
        }
    }
}

/// Two segments joined by a separator determine both.
pub proof fn lemma_two_segments_are_unique(
    a: Seq<char>,
    b: Seq<char>,
    c: Seq<char>,
    d: Seq<char>,
)
    requires
        is_segment(b),
        is_segment(d),
        a + separator() + b == c + separator() + d,
    ensures
        a == c,
        b == d,
{
    let s = a + separator() + b;
    lemma_separator_before_segment(a, b);
    lemma_separator_before_segment(c, d);
    assert(s.take(a.len() as int) == a);
    assert(s.take(c.len() as int) == c);
    assert(s.skip(a.len() as int + 2) == b);
    assert((c + separator() + d).skip(c.len() as int + 2) == d);
}

/// Whether a path is `<Type as Trait>` with a rest behind it, where the `>` is
/// the one that closes the `<` and the ` as ` is the first outside brackets.
pub open spec fn is_trait_dispatch(
    demangled: Seq<char>,
    ty: Seq<char>,
    tr: Seq<char>,
    rest: Seq<char>,
) -> bool {
    is_dispatch(demangled, ty, tr, rest) && is_type_path(ty) && is_bracketable(tr)
}

/// Law: a path has three candidates if it calls through a trait, and else only
/// the path itself without generics.
pub proof fn law_three_candidates_iff_trait_dispatch(demangled: Seq<char>)
    ensures
        path::candidates(demangled).len() == 3 <==> exists|
            ty: Seq<char>,
            tr: Seq<char>,
            rest: Seq<char>,
        | #[trigger] is_trait_dispatch(demangled, ty, tr, rest),
        path::candidates(demangled).len() != 3 ==> path::candidates(demangled) == seq![
            path::without_generics(demangled),
        ],
{
    if exists|ty: Seq<char>, tr: Seq<char>, rest: Seq<char>| #[trigger]
        is_trait_dispatch(demangled, ty, tr, rest) {
        let (ty, tr, rest) = choose|ty: Seq<char>, tr: Seq<char>, rest: Seq<char>| #[trigger]
            is_trait_dispatch(demangled, ty, tr, rest);
        assert(path::candidates(demangled).len() == 3) by {
            law_trait_dispatch(ty, tr, rest);
        }
    }
    if path::candidates(demangled).len() == 3 {
        lemma_three_candidates_are_of_dispatch(demangled);
    }
}

/// A path with three candidates calls through a trait.
proof fn lemma_three_candidates_are_of_dispatch(demangled: Seq<char>)
    requires
        path::candidates(demangled).len() == 3,
    ensures
        exists|ty: Seq<char>, tr: Seq<char>, rest: Seq<char>| #[trigger]
            is_trait_dispatch(demangled, ty, tr, rest),
{
    path::lemma_matching_angle(demangled);
    let gt = path::matching_angle_at(demangled)->0;
    let inner = demangled.subrange(1, gt);
    let rest = demangled.skip(gt + 1);
    assert(path::top_level_as(inner) is Some);
    lemma_inside_is_bracketable(demangled);
    lemma_parts_of_split(inner);
    let k = path::top_level_as(inner)->0;
    let ty = inner.take(k);
    let tr = inner.skip(k + 4);
    assert(demangled == seq!['<'] + inner + seq!['>'] + rest);
    assert(demangled == seq!['<'] + ty + path::as_keyword() + tr + seq!['>'] + rest);
    assert(is_trait_dispatch(demangled, ty, tr, rest));
}

/// What a nested text is split into at its first ` as ` outside brackets.
proof fn lemma_parts_of_split(inner: Seq<char>)
    requires
        is_bracketable(inner),
        path::top_level_as(inner) is Some,
    ensures
        ({
            let k = path::top_level_as(inner)->0;
            let ty = inner.take(k);
            let tr = inner.skip(k + 4);
            &&& 0 <= k
            &&& k + 4 <= inner.len()
            &&& inner == ty + path::as_keyword() + tr
            &&& is_type_path(ty)
            &&& is_bracketable(tr)
        }),
{
    let p = |k: int| path::as_at_top_level(inner, k);
    search::lemma_first_index(p, inner.len() as int);
    let k = path::top_level_as(inner)->0;
    assert(p(k));
    let ty = inner.take(k);
    let tr = inner.skip(k + 4);
    let front = ty + path::as_keyword();
    assert(front == inner.take(k + 4)) by {
        assert(inner.take(k + 4) == ty + inner.subrange(k, k + 4));
    }
    assert(inner == front + tr);
    assert(is_nested(ty)) by {
        assert forall|j: int| 0 <= j <= ty.len() implies #[trigger] path::angle_balance(ty.take(j))
            >= 0 by {
            assert(ty.take(j) == inner.take(j));
        }
    }
    assert forall|j: int| 0 <= j < ty.len() implies !#[trigger] path::as_at_top_level(front, j) by {
        assert(!p(j));
        if j + 4 <= front.len() {
            assert(front.subrange(j, j + 4) == inner.subrange(j, j + 4));
            assert(front.take(j) == inner.take(j));
        }
    }
    assert(path::angle_balance(front) == 0) by {
        lemma_bracket_free_balance(path::as_keyword());
        lemma_balance_concat(ty, path::as_keyword());
    }
    assert(!ends_in_dash(front));
    assert(is_nested(tr)) by {
        lemma_balance_concat(front, tr);
        assert forall|j: int| 0 <= j <= tr.len() implies #[trigger] path::angle_balance(tr.take(j))
            >= 0 by {
            assert(inner.take(k + 4 + j) == front + tr.take(j));
            lemma_balance_concat(front, tr.take(j));
            assert(path::angle_balance(inner.take(k + 4 + j)) >= 0);
        }
    }
    if tr.len() > 0 {
        assert(tr.last() == inner.last());
    }
}

/// What stands between a bracket and the one that closes it is nested
/// and ends in no dash.
proof fn lemma_inside_is_bracketable(s: Seq<char>)
    requires
        path::matching_angle_at(s) is Some,
    ensures
        is_bracketable(s.subrange(1, path::matching_angle_at(s)->0)),
{
    path::lemma_matching_angle(s);
    let gt = path::matching_angle_at(s)->0;
    let inner = s.subrange(1, gt);
    assert(path::angle_balance(seq!['<']) == 1) by {
        reveal_with_fuel(path::angle_balance, 2);
    }
    assert forall|j: int| 0 <= j <= inner.len() implies #[trigger] path::angle_balance(
        inner.take(j),
    ) >= 0 by {
        assert(s.take(j + 1) == seq!['<'] + inner.take(j));
        lemma_balance_concat(seq!['<'], inner.take(j));
        assert(path::angle_balance(s.take(j + 1)) > 0);
    }
    assert(inner.take(inner.len() as int) == inner);
    assert(s.take(gt) == seq!['<'] + inner);
    lemma_balance_concat(seq!['<'], inner);
    assert(s.take(gt + 1).drop_last() == s.take(gt));
}

} // verus!

//! Demangled paths: angle brackets, trait dispatch and path segments.

use crate::search;
use crate::text;
use crate::text::{chars_of, split_at_char};
use vstd::prelude::*;
use vstd::string::*;

verus! {

/// Whether `s` ends in the arrow `->` of a function type, whose `>` closes no
/// bracket.
pub open spec fn ends_in_arrow(s: Seq<char>) -> bool {
    s.len() >= 2 && s[s.len() - 2] == '-' && s.last() == '>'
}

/// How many more angle brackets `s` opens than it closes.
pub open spec fn angle_balance(s: Seq<char>) -> int
    decreases s.len(),
{
    if s.len() == 0 {
        0
    } else if s.last() == '<' {
        angle_balance(s.drop_last()) + 1
    } else if s.last() == '>' && !ends_in_arrow(s) {
        angle_balance(s.drop_last()) - 1
    } else {
        angle_balance(s.drop_last())
    }
}

/// The index of the `>` that closes the `<` which `s` begins with.
pub open spec fn matching_angle_at(s: Seq<char>) -> Option<int> {
    if s.len() > 0 && s[0] == '<' {
        search::first_index(|k: int| angle_balance(s.take(k + 1)) == 0, s.len() as int)
    } else {
        None
    }
}

/// The text ` as `, between the type and the trait of a qualified path.
pub open spec fn as_keyword() -> Seq<char> {
    seq![' ', 'a', 's', ' ']
}

/// Whether ` as ` stands at `k` outside all angle brackets of `s`.
pub open spec fn as_at_top_level(s: Seq<char>, k: int) -> bool {
    &&& 0 <= k
    &&& k + 4 <= s.len()
    &&& s.subrange(k, k + 4) == as_keyword()
    &&& angle_balance(s.take(k)) == 0
}

/// The index of the first ` as ` outside all angle brackets of `s`.
pub open spec fn top_level_as(s: Seq<char>) -> Option<int> {
    search::first_index(|k: int| as_at_top_level(s, k), s.len() as int)
}

/// How many angle brackets are open after `s`, where a `>` with none open
/// closes nothing.
pub open spec fn open_angles(s: Seq<char>) -> nat
    decreases s.len(),
{
    if s.len() == 0 {
        0
    } else {
        let before = open_angles(s.drop_last());
        if s.last() == '<' {
            before + 1
        } else if s.last() == '>' && !ends_in_arrow(s) && before > 0 {
            (before - 1) as nat
        } else {
            before
        }
    }
}

/// The characters of `s` outside all angle brackets, with every `<` and `>`
/// left out, that of an arrow too.
pub open spec fn without_generics(s: Seq<char>) -> Seq<char>
    decreases s.len(),
{
    if s.len() == 0 {
        s
    } else {
        let before = without_generics(s.drop_last());
        if s.last() != '<' && s.last() != '>' && open_angles(s.drop_last()) == 0 {
            before.push(s.last())
        } else {
            before
        }
    }
}

/// The paths under which a demangled callee may be listed: the path itself,
/// and for `<Type as Trait>::method` also `Type::method` and `Trait::method`,
/// each without generics.
pub open spec fn candidates(demangled: Seq<char>) -> Seq<Seq<char>> {
    match matching_angle_at(demangled) {
        Some(gt) => {
            let inner = demangled.subrange(1, gt);
            let rest = demangled.skip(gt + 1);
            match top_level_as(inner) {
                Some(k) => seq![
                    without_generics(demangled),
                    without_generics(inner.take(k) + rest),
                    without_generics(inner.skip(k + 4) + rest),
                ],
                None => seq![without_generics(demangled)],
            }
        },
        None => seq![without_generics(demangled)],
    }
}

/// Whether the separator `::` stands at `k`.
pub open spec fn separator_at(s: Seq<char>, k: int) -> bool {
    0 <= k && k + 1 < s.len() && s[k] == ':' && s[k + 1] == ':'
}

/// The index of the last separator in `s`.
pub open spec fn last_separator(s: Seq<char>) -> Option<int> {
    search::last_index(|k: int| separator_at(s, k), s.len() as int)
}

/// The last two segments of a path, or all of it where it has fewer than three.
pub open spec fn last_two_segments(path: Seq<char>) -> Seq<char> {
    match last_separator(path) {
        Some(k) => match last_separator(path.take(k)) {
            Some(j) => path.skip(j + 2),
            None => path,
        },
        None => path,
    }
}

/// The bracket that closes the first one is a `>` behind it.
pub proof fn lemma_matching_angle(s: Seq<char>)
    ensures
        match matching_angle_at(s) {
            Some(k) => {
                &&& 1 <= k < s.len()
                &&& s[0] == '<'
                &&& s[k] == '>'
                &&& s[k - 1] != '-'
                &&& angle_balance(s.take(k + 1)) == 0
                &&& forall|j: int| 0 < j <= k ==> #[trigger] angle_balance(s.take(j)) > 0
            },
            None => s.len() == 0 || s[0] != '<' || forall|j: int|
                0 < j <= s.len() ==> #[trigger] angle_balance(s.take(j)) > 0,
        },
{
    if s.len() > 0 && s[0] == '<' {
        let p = |k: int| angle_balance(s.take(k + 1)) == 0;
        let n = s.len() as int;
        search::lemma_first_index(p, n);
        let end = match search::first_index(p, n) {
            Some(k) => k,
            None => n,
        };
        assert(s.take(1).drop_last() == s.take(0));
        assert(angle_balance(s.take(0)) == 0);
        assert(angle_balance(s.take(1)) == 1);
        assert(!p(0));
        assert forall|j: int| 0 < j <= end implies #[trigger] angle_balance(s.take(j)) != 0 by {
            assert(!p(j - 1));
        }
        assert forall|j: int| 0 < j <= end implies #[trigger] angle_balance(s.take(j)) > 0 by {
            lemma_positive_until(s, j, end);
        }
        if search::first_index(p, n) is Some {
            assert(angle_balance(s.take(end)) > 0);
            assert(s.take(end + 1).drop_last() == s.take(end));
            assert(p(end));
        }
    }
}

proof fn lemma_positive_until(s: Seq<char>, j: int, end: int)
    requires
        0 < j <= end <= s.len(),
        s[0] == '<',
        forall|i: int| 0 < i <= end ==> #[trigger] angle_balance(s.take(i)) != 0,
    ensures
        angle_balance(s.take(j)) > 0,
    decreases j,
{
    assert(s.take(j).drop_last() == s.take(j - 1));
    if j == 1 {
        assert(angle_balance(s.take(0)) == 0);
    } else {
        lemma_positive_until(s, j - 1, end);
    }
}

/// The byte index of the `>` that closes the `<` which `s` begins with.
pub fn matching_angle(s: &str) -> (r: Option<usize>)
    ensures
        match matching_angle_at(s@) {
            Some(k) => r == Some(text::byte_offset(s@, k) as usize) && text::byte_offset(s@, k) <= usize::MAX,
            None => r is None,
        },
{
    let chars = chars_of(s);
    if chars.len() == 0 || chars[0] != '<' {
        return None;
    }
    let ghost p = |k: int| angle_balance(s@.take(k + 1)) == 0;
    let mut depth: usize = 0;
    let mut i: usize = 0;
    proof {
        lemma_matching_angle(s@);
        assert(s@.take(0) == Seq::<char>::empty());
    }
    while i < chars.len()
        invariant
            chars@ == s@,
            i <= chars@.len(),
            chars@.len() > 0,
            s@[0] == '<',
            depth == angle_balance(s@.take(i as int)),
            depth <= i,
            i > 0 ==> depth > 0,
            p == (|k: int| angle_balance(s@.take(k + 1)) == 0),
            forall|j: int| 0 <= j < i ==> !#[trigger] p(j),
        decreases chars@.len() - i,
    {
        let c = chars[i];
        assert(s@.take(i + 1).drop_last() == s@.take(i as int));
        if c == '<' {
            depth += 1;
        } else if c == '>' && chars[i - 1] != '-' {
            depth -= 1;
            if depth == 0 {
                proof {
                    search::lemma_first_index_is(p, s@.len() as int, i as int);
                }
                let before = s.substring_char(0, i);
                return Some(before.as_bytes().len());
            }
        }
        i += 1;
    }
    proof {
        search::lemma_first_index_none(p, s@.len() as int);
    }
    None
}

/// Splits `Type as Trait` at the first ` as ` outside all angle brackets.
pub fn split_as_top_level(inner: &str) -> (r: Option<(&str, &str)>)
    ensures
        match (top_level_as(inner@), r) {
            (Some(k), Some((ty, tr))) => ty@ == inner@.take(k) && tr@ == inner@.skip(k + 4),
            (None, None) => true,
            _ => false,
        },
{
    let chars = chars_of(inner);
    let ghost p = |k: int| as_at_top_level(inner@, k);
    // Wide enough to count the brackets of any string.
    let mut depth: i128 = 0;
    let mut i: usize = 0;
    proof {
        assert(inner@.take(0) == Seq::<char>::empty());
    }
    while i < chars.len()
        invariant
            chars@ == inner@,
            i <= chars@.len(),
            depth == angle_balance(inner@.take(i as int)),
            -i <= depth <= i,
            p == (|k: int| as_at_top_level(inner@, k)),
            forall|j: int| 0 <= j < i ==> !#[trigger] p(j),
        decreases chars@.len() - i,
    {
        let c = chars[i];
        assert(inner@.take(i + 1).drop_last() == inner@.take(i as int));
        if c == '<' {
            depth += 1;
        } else if c == '>' {
            if i == 0 || chars[i - 1] != '-' {
                depth -= 1;
            }
        } else if depth == 0 && chars.len() - i >= 4 && c == ' ' && chars[i + 1] == 'a' && chars[i
            + 2] == 's' && chars[i + 3] == ' ' {
            proof {
                assert(inner@.subrange(i as int, i + 4) == as_keyword());
                search::lemma_first_index_is(p, inner@.len() as int, i as int);
            }
            let ty = inner.substring_char(0, i);
            let tr = inner.substring_char(i + 4, chars.len());
            assert(tr@ == inner@.skip(i + 4));
            return Some((ty, tr));
        }
        proof {
            if p(i as int) {
                let window = inner@.subrange(i as int, i + 4);
                assert(window[0] == ' ' && window[1] == 'a' && window[2] == 's' && window[3]
                    == ' ');
            }
        }
        i += 1;
    }
    proof {
        search::lemma_first_index_none(p, inner@.len() as int);
    }
    None
}

/// `s` without its angle brackets and all that stands between them. The arrow
/// of a function type closes no bracket; outside brackets it loses its `>`.
pub fn strip_turbofish(s: &str) -> (r: String)
    ensures
        r@ == without_generics(s@),
{
    let chars = chars_of(s);
    let mut out = String::new();
    let mut depth: usize = 0;
    let mut i: usize = 0;
    proof {
        assert(s@.take(0) == Seq::<char>::empty());
    }
    while i < chars.len()
        invariant
            chars@ == s@,
            i <= chars@.len(),
            depth <= i,
            depth == open_angles(s@.take(i as int)),
            out@ == without_generics(s@.take(i as int)),
        decreases chars@.len() - i,
    {
        let c = chars[i];
        assert(s@.take(i + 1).drop_last() == s@.take(i as int));
        if c == '<' {
            depth += 1;
        } else if c == '>' {
            if i == 0 || chars[i - 1] != '-' {
                depth = depth.saturating_sub(1);
            }
        } else if depth == 0 {
            out.push(c);
        }
        i += 1;
    }
    assert(s@.take(s@.len() as int) == s@);
    out
}

/// The views of a sequence of strings.
pub open spec fn texts(strings: Seq<String>) -> Seq<Seq<char>> {
    strings.map_values(|s: String| s@)
}

/// The paths to look a demangled callee up under. Covers direct calls and
/// inherent methods, with generics left out, and for trait dispatch
/// `<Type as Trait>::method` both `Type::method` and `Trait::method`.
pub fn candidate_paths(demangled: &str) -> (r: Vec<String>)
    ensures
        texts(r@) == candidates(demangled@),
{
    let mut out: Vec<String> = Vec::new();
    out.push(strip_turbofish(demangled));
    if let Some(gt) = matching_angle(demangled) {
        let ghost k = matching_angle_at(demangled@)->0;
        let ghost s = demangled@;
        proof {
            lemma_matching_angle(s);
            text::lemma_ascii_first(s.take(k));
            text::lemma_ascii_first(s.skip(k));
            assert(s.take(k).skip(1) == s.subrange(1, k));
            assert(s.skip(k).skip(1) == s.skip(k + 1));
        }
        let (head, tail) = split_at_char(demangled, gt, Ghost(k));
        let (_, inner) = split_at_char(head, 1, Ghost(1));
        let (_, rest) = split_at_char(tail, 1, Ghost(1));
        if let Some((ty, tr)) = split_as_top_level(inner) {
            let mut by_type = ty.to_owned();
            by_type.append(rest);
            let mut by_trait = tr.to_owned();
            by_trait.append(rest);
            out.push(strip_turbofish(by_type.as_str()));
            out.push(strip_turbofish(by_trait.as_str()));
        }
    }
    assert(texts(out@) == candidates(demangled@));
    out
}

/// The index of the last separator among the first `end` characters.
fn find_last_separator(chars: &Vec<char>, end: usize) -> (r: Option<usize>)
    requires
        end <= chars@.len(),
    ensures
        match (last_separator(chars@.take(end as int)), r) {
            (Some(k), Some(i)) => i == k && i + 2 <= end,
            (None, None) => true,
            _ => false,
        },
{
    let ghost s = chars@.take(end as int);
    let ghost p = |k: int| separator_at(s, k);
    let mut i: usize = end;
    while i > 0
        invariant
            s == chars@.take(end as int),
            p == (|k: int| separator_at(s, k)),
            i <= end <= chars@.len(),
            search::last_index(p, end as int) == search::last_index(p, i as int),
        decreases i,
    {
        i -= 1;
        if end - i >= 2 && chars[i] == ':' && chars[i + 1] == ':' {
            assert(p(i as int));
            return Some(i);
        }
        assert(!p(i as int));
    }
    None
}

/// The last two segments of a path, or all of it where it has fewer than three.
pub fn last_two(path: &str) -> (r: &str)
    ensures
        r@ == last_two_segments(path@),
{
    let chars = chars_of(path);
    assert(path@.take(path@.len() as int) == path@);
    if let Some(last) = find_last_separator(&chars, chars.len()) {
        if let Some(before) = find_last_separator(&chars, last) {
            let r = path.substring_char(before + 2, chars.len());
            assert(r@ == path@.skip(before + 2));
            return r;
        }
    }
    path
}

} // verus!

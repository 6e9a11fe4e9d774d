//! Laws of linker symbols.

use crate::symbol;
use crate::text;
use vstd::prelude::*;

verus! {

/// Whether `s` begins with no sigil and has no quote at either end.
pub open spec fn is_bare(s: Seq<char>) -> bool {
    s.len() > 0 ==> s[0] != '@' && s[0] != '%' && s[0] != '"' && s.last() != '"'
}

/// Law: a bare symbol is left as it is, and so is one under the sigil of a
/// global or a local, with or without quotes.
pub proof fn law_sigils_and_quotes_are_stripped(name: Seq<char>)
    requires
        is_bare(name),
    ensures
        symbol::bare_symbol(name) == name,
        symbol::bare_symbol(seq!['@'] + name) == name,
        symbol::bare_symbol(seq!['%'] + name) == name,
        symbol::bare_symbol(seq!['@', '"'] + name + seq!['"']) == name,
        symbol::bare_symbol(seq!['%', '"'] + name + seq!['"']) == name,
{
    reveal_with_fuel(text::without_leading, 3);
    reveal_with_fuel(text::without_trailing, 2);
    assert((seq!['@'] + name).drop_first() == name);
    assert((seq!['%'] + name).drop_first() == name);
    let quoted = seq!['"'] + name + seq!['"'];
    let open = name + seq!['"'];
    assert((seq!['@', '"'] + name + seq!['"']).drop_first() == quoted);
    assert((seq!['%', '"'] + name + seq!['"']).drop_first() == quoted);
    assert(quoted.drop_first() == open);
    assert(open.drop_last() == name);
    if name.len() == 0 {
        assert(open.drop_first() == name);
    }
}

/// A run at the front is gone once it is taken off.
proof fn lemma_leading_is_gone(s: Seq<char>, c: char)
    ensures
        text::without_leading(s, c).len() > 0 ==> text::without_leading(s, c)[0] != c,
    decreases s.len(),
{
    if s.len() > 0 && s[0] == c {
        lemma_leading_is_gone(s.drop_first(), c);
    }
}

/// A run at the end is gone once it is taken off, and the front stays.
proof fn lemma_trailing_is_gone(s: Seq<char>, c: char)
    ensures
        text::without_trailing(s, c).len() > 0 ==> text::without_trailing(s, c).last() != c
            && text::without_trailing(s, c)[0] == s[0],
    decreases s.len(),
{
    if s.len() > 0 && s.last() == c {
        lemma_trailing_is_gone(s.drop_last(), c);
    }
}

/// Law: a stripped symbol has no quote at either end.
pub proof fn law_no_quotes_remain(name: Seq<char>)
    ensures
        symbol::bare_symbol(name).len() > 0 ==> symbol::bare_symbol(name)[0] != '"'
            && symbol::bare_symbol(name).last() != '"',
{
    let named = text::without_leading(text::without_leading(name, '@'), '%');
    lemma_leading_is_gone(named, '"');
    lemma_trailing_is_gone(text::without_leading(named, '"'), '"');
}

/// Whether `s` has nothing but `c` from `from` up to `to`.
pub open spec fn is_run(s: Seq<char>, from: int, to: int, c: char) -> bool {
    forall|i: int| from <= i < to ==> #[trigger] s[i] == c
}

/// Whether a name is cut as it should be: up to `at` there are all the `@` that
/// it begins with, up to `percent` all the `%` behind them, up to `from` all
/// the quotes behind these, and from `to` on all the quotes that it ends with.
pub open spec fn is_cut(name: Seq<char>, at: int, percent: int, from: int, to: int) -> bool {
    &&& 0 <= at <= percent <= from <= to <= name.len()
    &&& is_run(name, 0, at, '@')
    &&& at < name.len() ==> name[at] != '@'
    &&& is_run(name, at, percent, '%')
    &&& percent < name.len() ==> name[percent] != '%'
    &&& is_run(name, percent, from, '"')
    &&& from < name.len() ==> name[from] != '"'
    &&& is_run(name, to, name.len() as int, '"')
    &&& from < to ==> name[to - 1] != '"'
}

/// A run at the front is taken off whole.
proof fn lemma_leading_run(s: Seq<char>, from: int, to: int, c: char)
    requires
        0 <= from <= to <= s.len(),
        is_run(s, from, to, c),
        to < s.len() ==> s[to] != c,
    ensures
        text::without_leading(s.skip(from), c) == s.skip(to),
    decreases to - from,
{
    if from < to {
        assert(s.skip(from)[0] == s[from]);
        assert(s.skip(from).drop_first() == s.skip(from + 1));
        lemma_leading_run(s, from + 1, to, c);
    }
}

/// A run at the end is taken off whole.
proof fn lemma_trailing_run(s: Seq<char>, to: int, end: int, c: char)
    requires
        0 <= to <= end <= s.len(),
        is_run(s, to, end, c),
        0 < to ==> s[to - 1] != c,
    ensures
        text::without_trailing(s.take(end), c) == s.take(to),
    decreases end - to,
{
    if to < end {
        assert(s.take(end).last() == s[end - 1]);
        assert(s.take(end).drop_last() == s.take(end - 1));
        lemma_trailing_run(s, to, end - 1, c);
    }
}

/// Law: a stripped symbol is what the name holds between the sigils and quotes
/// in front of it and the quotes behind it.
pub proof fn law_symbol_is_between_sigils_and_quotes(
    name: Seq<char>,
    at: int,
    percent: int,
    from: int,
    to: int,
)
    requires
        is_cut(name, at, percent, from, to),
    ensures
        symbol::bare_symbol(name) == name.subrange(from, to),
{
    let n = name.len() as int;
    assert(name.skip(0) == name);
    lemma_leading_run(name, 0, at, '@');
    lemma_leading_run(name, at, percent, '%');
    lemma_leading_run(name, percent, from, '"');
    let s = name.skip(from);
    assert forall|i: int| to - from <= i < s.len() implies #[trigger] s[i] == '"' by {
        assert(name[from + i] == '"');
    }
    assert(s.take(s.len() as int) == s);
    lemma_trailing_run(s, to - from, s.len() as int, '"');
    assert(s.take(to - from) == name.subrange(from, to));
}

/// Where the run of `c` that begins at `from` ends.
proof fn lemma_run_ends(s: Seq<char>, from: int, c: char) -> (to: int)
    requires
        0 <= from <= s.len(),
    ensures
        from <= to <= s.len(),
        is_run(s, from, to, c),
        to < s.len() ==> s[to] != c,
    decreases s.len() - from,
{
    if from < s.len() && s[from] == c {
        lemma_run_ends(s, from + 1, c)
    } else {
        from
    }
}

/// Where the run of `c` behind `from` begins that ends at `end`.
proof fn lemma_run_begins(s: Seq<char>, from: int, end: int, c: char) -> (to: int)
    requires
        0 <= from <= end <= s.len(),
    ensures
        from <= to <= end,
        is_run(s, to, end, c),
        from < to ==> s[to - 1] != c,
    decreases end - from,
{
    if from < end && s[end - 1] == c {
        lemma_run_begins(s, from, end - 1, c)
    } else {
        end
    }
}

/// Law: every name can be cut into sigils, quotes and the symbol between them.
pub proof fn law_every_name_can_be_cut(name: Seq<char>)
    ensures
        exists|at: int, percent: int, from: int, to: int| #[trigger]
            is_cut(name, at, percent, from, to),
{
    let at = lemma_run_ends(name, 0, '@');
    let percent = lemma_run_ends(name, at, '%');
    let from = lemma_run_ends(name, percent, '"');
    let to = lemma_run_begins(name, from, name.len() as int, '"');
    assert(is_cut(name, at, percent, from, to));
}

/// Law: a plain symbol reads as it stands, and every other as it demangles.
pub proof fn law_only_plain_symbols_read_as_they_stand(s: Seq<char>)
    ensures
        symbol::is_plain_symbol(s) ==> symbol::readable(s) == s,
        !symbol::is_plain_symbol(s) ==> symbol::readable(s) == symbol::demangled(s),
{
}

} // verus!

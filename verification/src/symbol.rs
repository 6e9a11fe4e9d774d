//! Linker symbols: sigils, quotes and mangling.

use crate::text;
use crate::text::chars_of;
use vstd::prelude::*;
use vstd::string::*;

verus! {

/// `name` without leading `@`, then without leading `%`, then without the
/// quotes around it.
pub open spec fn bare_symbol(name: Seq<char>) -> Seq<char> {
    let named = text::without_leading(text::without_leading(name, '@'), '%');
    text::without_trailing(text::without_leading(named, '"'), '"')
}

/// What `rustc_demangle::demangle` displays for a symbol in the alternate
/// form, which leaves out the hash of the symbol.
pub uninterp spec fn demangled(symbol: Seq<char>) -> Seq<char>;

/// A symbol that has no part of a mangled name: it begins neither with an
/// underscore nor with one of the letters of a mangling scheme, and has no
/// suffix behind a dot.
pub open spec fn is_plain_symbol(symbol: Seq<char>) -> bool {
    &&& symbol.len() > 0 ==> symbol[0] != '_' && symbol[0] != 'Z' && symbol[0] != 'R'
    &&& forall|i: int| 0 <= i < symbol.len() ==> #[trigger] symbol[i] != '.'
}

/// How a symbol reads: a plain symbol as it stands, any other demangled.
pub open spec fn readable(symbol: Seq<char>) -> Seq<char> {
    if is_plain_symbol(symbol) {
        symbol
    } else {
        demangled(symbol)
    }
}

/// The index at which the run of `c` that begins at `from` ends.
fn end_of_run(chars: &Vec<char>, from: usize, c: char) -> (r: usize)
    requires
        from <= chars@.len(),
    ensures
        from <= r <= chars@.len(),
        text::without_leading(chars@.skip(from as int), c) == chars@.skip(r as int),
{
    let mut i: usize = from;
    while i < chars.len() && chars[i] == c
        invariant
            from <= i <= chars@.len(),
            text::without_leading(chars@.skip(from as int), c) == text::without_leading(
                chars@.skip(i as int),
                c,
            ),
        decreases chars@.len() - i,
    {
        assert(chars@.skip(i as int).drop_first() == chars@.skip(i + 1));
        i += 1;
    }
    i
}

/// The index at which the run of `c` begins that ends the characters behind
/// `from`.
fn start_of_last_run(chars: &Vec<char>, from: usize, c: char) -> (r: usize)
    requires
        from <= chars@.len(),
    ensures
        from <= r <= chars@.len(),
        text::without_trailing(chars@.skip(from as int), c) == chars@.subrange(
            from as int,
            r as int,
        ),
{
    let mut i: usize = chars.len();
    assert(chars@.skip(from as int) == chars@.subrange(from as int, i as int));
    while i > from && chars[i - 1] == c
        invariant
            from <= i <= chars@.len(),
            text::without_trailing(chars@.skip(from as int), c) == text::without_trailing(
                chars@.subrange(from as int, i as int),
                c,
            ),
        decreases i,
    {
        assert(chars@.subrange(from as int, i as int).drop_last() == chars@.subrange(
            from as int,
            i - 1,
        ));
        i -= 1;
    }
    i
}

/// `name` without the sigil of a global or a local and without quotes.
pub fn strip_symbol(name: &str) -> (r: String)
    ensures
        r@ == bare_symbol(name@),
{
    let chars = chars_of(name);
    assert(name@.skip(0) == name@);
    let behind_at = end_of_run(&chars, 0, '@');
    let behind_percent = end_of_run(&chars, behind_at, '%');
    let from = end_of_run(&chars, behind_percent, '"');
    let to = start_of_last_run(&chars, from, '"');
    name.substring_char(from, to).to_owned()
}

/// `rustc_demangle::demangle`, displayed in the alternate form. Its result
/// depends on the symbol alone and has a name here, [`demangled`]. A symbol
/// that does not look mangled is displayed as it is; that is claimed here of
/// plain symbols only.
#[verifier::external_body]
pub(crate) fn demangle_symbol(symbol: &str) -> (r: String)
    ensures
        r@ == demangled(symbol@),
        is_plain_symbol(symbol@) ==> r@ == symbol@,
{
    format!("{:#}", rustc_demangle::demangle(symbol))
}

} // verus!

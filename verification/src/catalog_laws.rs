//! Laws of catalogs.

use crate::catalog;
use crate::catalog::{CatalogEntry, CatalogLibrary};
use crate::search;
use crate::signature;
use crate::signature_laws;
use vstd::prelude::*;

verus! {

/// The signatures of a concatenation are the signatures of its parts.
proof fn lemma_catalog_concat(a: Seq<catalog::LibraryView>, b: Seq<catalog::LibraryView>)
    ensures
        catalog::catalog_signatures(a + b) == catalog::catalog_signatures(a)
            + catalog::catalog_signatures(b),
    decreases b.len(),
{
    if b.len() == 0 {
        assert(a + b == a);
        assert(catalog::catalog_signatures(a) + seq![] == catalog::catalog_signatures(a));
    } else {
        lemma_catalog_concat(a, b.drop_last());
        assert((a + b).drop_last() == a + b.drop_last());
        assert(catalog::catalog_signatures(a + b) == catalog::catalog_signatures(a)
            + catalog::catalog_signatures(b));
    }
}

/// The entries of a library give named signatures only.
proof fn lemma_entries_named(entries: Seq<catalog::EntryView>)
    ensures
        forall|i: int|
            0 <= i < catalog::entry_signatures(entries).len() ==> (
            #[trigger] catalog::entry_signatures(entries)[i]).fn_name.len() > 0,
    decreases entries.len(),
{
    if entries.len() > 0 {
        lemma_entries_named(entries.drop_last());
    }
}

/// Law: every signature of a catalog names a function.
pub proof fn law_signatures_are_named(libraries: Seq<catalog::LibraryView>)
    ensures
        forall|i: int|
            0 <= i < catalog::catalog_signatures(libraries).len() ==> (
            #[trigger] catalog::catalog_signatures(libraries)[i]).fn_name.len() > 0,
    decreases libraries.len(),
{
    if libraries.len() > 0 {
        law_signatures_are_named(libraries.drop_last());
        if let Some(entries) = libraries.last().entries {
            lemma_entries_named(entries);
        }
    }
}

/// Law: the member `_schema_notes` and members that are no arrays change
/// nothing, wherever they stand.
pub proof fn law_notes_are_skipped(
    before: Seq<catalog::LibraryView>,
    notes: catalog::LibraryView,
    after: Seq<catalog::LibraryView>,
)
    requires
        notes.name == "_schema_notes"@ || notes.entries is None,
    ensures
        catalog::catalog_signatures(before + seq![notes] + after) == catalog::catalog_signatures(
            before + after,
        ),
{
    lemma_catalog_concat(before + seq![notes], after);
    lemma_catalog_concat(before, seq![notes]);
    lemma_catalog_concat(before, after);
    assert(catalog::catalog_signatures(seq![notes]) == Seq::<signature::SignatureView>::empty())
        by {
        assert(seq![notes].drop_last() == Seq::<catalog::LibraryView>::empty());
        reveal_with_fuel(catalog::catalog_signatures, 2);
    }
    assert(catalog::catalog_signatures(before) + seq![] == catalog::catalog_signatures(before));
}

/// Law: an entry that names no function changes nothing, wherever it stands.
pub proof fn law_unnamed_entries_are_skipped(
    before: Seq<catalog::EntryView>,
    entry: catalog::EntryView,
    after: Seq<catalog::EntryView>,
)
    requires
        entry.fn_name is None || entry.fn_name == Some(Seq::<char>::empty()),
    ensures
        catalog::entry_signatures(before + seq![entry] + after) == catalog::entry_signatures(
            before + after,
        ),
    decreases after.len(),
{
    let with = before + seq![entry] + after;
    let without = before + after;
    if after.len() == 0 {
        assert(with.drop_last() == before);
        assert(with.last() == entry);
        assert(without == before);
    } else {
        law_unnamed_entries_are_skipped(before, entry, after.drop_last());
        assert(with.drop_last() == before + seq![entry] + after.drop_last());
        assert(without.drop_last() == before + after.drop_last());
        assert(with.last() == without.last());
    }
}

/// What the members give when they are taken in the given order.
pub open spec fn signatures_in_order(
    members: Map<Seq<char>, catalog::Json>,
    order: Seq<Seq<char>>,
) -> Seq<signature::SignatureView> {
    catalog::catalog_signatures(catalog::libraries_in_order(members, order))
}

/// Taking one name out of an order takes out what its library gives.
proof fn lemma_remove_name(
    members: Map<Seq<char>, catalog::Json>,
    order: Seq<Seq<char>>,
    i: int,
)
    requires
        0 <= i < order.len(),
    ensures
        signatures_in_order(members, order).to_multiset() == signatures_in_order(
            members,
            order.remove(i),
        ).to_multiset().add(
            catalog::library_signatures(
                catalog::library_of(order[i], members[order[i]]),
            ).to_multiset(),
        ),
{
    let libraries = catalog::libraries_in_order(members, order);
    let front = libraries.take(i);
    let one = seq![libraries[i]];
    let back = libraries.skip(i + 1);
    let sum = catalog::catalog_signatures(front);
    let mid = catalog::library_signatures(libraries[i]);
    let rest = catalog::catalog_signatures(back);
    assert(libraries == front + one + back);
    assert(catalog::libraries_in_order(members, order.remove(i)) == front + back);
    lemma_catalog_concat(front + one, back);
    lemma_catalog_concat(front, one);
    lemma_catalog_concat(front, back);
    assert(catalog::catalog_signatures(one) == mid) by {
        assert(one.drop_last() == Seq::<catalog::LibraryView>::empty());
        reveal_with_fuel(catalog::catalog_signatures, 2);
        assert(seq![] + mid == mid);
    }
    vstd::seq_lib::lemma_multiset_commutative(sum + mid, rest);
    vstd::seq_lib::lemma_multiset_commutative(sum, mid);
    vstd::seq_lib::lemma_multiset_commutative(sum, rest);
    assert(sum.to_multiset().add(mid.to_multiset()).add(rest.to_multiset())
        == sum.to_multiset().add(rest.to_multiset()).add(mid.to_multiset()));
}

/// Two lists that name the same members once give the same signatures.
proof fn lemma_order_is_immaterial(
    members: Map<Seq<char>, catalog::Json>,
    one: Seq<Seq<char>>,
    other: Seq<Seq<char>>,
)
    requires
        one.no_duplicates(),
        other.no_duplicates(),
        forall|name: Seq<char>| #[trigger] one.contains(name) == other.contains(name),
    ensures
        signatures_in_order(members, one).to_multiset() == signatures_in_order(
            members,
            other,
        ).to_multiset(),
    decreases one.len(),
{
    if one.len() == 0 {
        if other.len() > 0 {
            assert(other.contains(other[0]));
            assert(one.contains(other[0]));
        }
        assert(one == other);
    } else {
        let last = one.len() - 1;
        let name = one[last];
        assert(one.contains(name));
        assert(other.contains(name));
        let i = other.index_of(name);
        let fewer = one.remove(last);
        let fewer_other = other.remove(i);
        assert forall|n: Seq<char>| #[trigger]
            fewer.contains(n) == fewer_other.contains(n) by {
            assert(one.contains(n) == other.contains(n));
            if fewer.contains(n) {
                let k = fewer.index_of(n);
                assert(one[k] == n);
                assert(one.contains(n));
                let m = other.index_of(n);
                assert(m != i);
                let q = if m < i { m } else { m - 1 };
                assert(fewer_other[q] == n);
            }
            if fewer_other.contains(n) {
                let q = fewer_other.index_of(n);
                let m = if q < i { q } else { q + 1 };
                assert(other[m] == n);
                assert(other.contains(n));
                let k = one.index_of(n);
                assert(n != name);
                assert(k != last);
                assert(fewer[k] == n);
            }
        }
        lemma_order_is_immaterial(members, fewer, fewer_other);
        lemma_remove_name(members, one, last);
        lemma_remove_name(members, other, i);
    }
}

/// Law: the order in which the members of a catalog are taken does not change
/// which signatures are loaded, nor how often each.
pub proof fn law_order_is_immaterial(
    members: Map<Seq<char>, catalog::Json>,
    one: Seq<Seq<char>>,
    other: Seq<Seq<char>>,
)
    requires
        catalog::is_order_of(one, members),
        catalog::is_order_of(other, members),
    ensures
        signatures_in_order(members, one).to_multiset() == signatures_in_order(
            members,
            other,
        ).to_multiset(),
{
    assert forall|name: Seq<char>| #[trigger] one.contains(name) == other.contains(name) by {
        assert(one.to_set().contains(name) == one.contains(name));
        assert(other.to_set().contains(name) == other.contains(name));
    }
    lemma_order_is_immaterial(members, one, other);
}

/// Law: an entry gives a signature if and only if it names a function by a text
/// that is not empty, and each field of the signature is the field of the same
/// name of the entry, whatever the other fields are.
pub proof fn law_signature_holds_each_field_of_its_entry(entry: catalog::EntryView)
    ensures
        match catalog::signature_of(entry) {
            Some(sig) => {
                &&& sig.fn_name.len() > 0
                &&& entry.fn_name == Some(sig.fn_name)
                &&& sig.category == entry.category
                &&& sig.prompt_arg_index == catalog::index_of(entry.prompt_arg_index)
                &&& sig.prompt_role == entry.prompt_role
                &&& sig.result_index == catalog::index_of(entry.result_index)
                &&& sig.request_index == catalog::index_of(entry.request_index)
                &&& sig.behavior == entry.behavior
            },
            None => entry.fn_name is None || entry.fn_name->0.len() == 0,
        },
{
}

/// Law: an index that is missing stays missing, and one that fits the machine
/// stays the same number.
pub proof fn law_indices_are_kept(n: u64)
    ensures
        catalog::index_of(None) is None,
        catalog::index_of(Some(n)) == Some(n as usize),
        n <= usize::MAX ==> catalog::index_of(Some(n))->0 == n,
{
}

/// The text under a name among the members of an object.
pub open spec fn text_under(members: Map<Seq<char>, catalog::Json>, name: Seq<char>) -> Option<
    Seq<char>,
> {
    if members.contains_key(name) && members[name] is Text {
        Some(members[name]->Text_0)
    } else {
        None
    }
}

/// The unsigned integer under a name among the members of an object.
pub open spec fn number_under(members: Map<Seq<char>, catalog::Json>, name: Seq<char>) -> Option<
    u64,
> {
    if members.contains_key(name) && members[name] is Number {
        members[name]->Number_0
    } else {
        None
    }
}

/// Law: each field of an entry is read from the member of the same name alone,
/// and is missing where that member is, or is of another type.
pub proof fn law_entry_fields_are_the_members(members: Map<Seq<char>, catalog::Json>)
    ensures
        ({
            let entry = catalog::entry_of(catalog::Json::Object(members));
            &&& entry.fn_name == text_under(members, "fn_name"@)
            &&& entry.category == text_under(members, "category"@)
            &&& entry.prompt_arg_index == number_under(members, "prompt_arg_index"@)
            &&& entry.prompt_role == text_under(members, "prompt_role"@)
            &&& entry.result_index == number_under(members, "result_index"@)
            &&& entry.request_index == number_under(members, "request_index"@)
            &&& entry.behavior == text_under(members, "behavior"@)
        }),
{
}

/// Law: a value that is no object gives no signature and no field.
pub proof fn law_only_objects_are_entries(value: catalog::Json)
    requires
        !(value is Object),
    ensures
        ({
            let entry = catalog::entry_of(value);
            &&& entry.fn_name is None
            &&& entry.category is None
            &&& entry.prompt_arg_index is None
            &&& entry.prompt_role is None
            &&& entry.result_index is None
            &&& entry.request_index is None
            &&& entry.behavior is None
            &&& catalog::signature_of(entry) is None
        }),
{
}

/// Law: a member of a catalog is a library under its own name; it has entries
/// if and only if it is an array, one for each element, in order.
pub proof fn law_libraries_hold_their_elements(name: Seq<char>, value: catalog::Json)
    ensures
        catalog::library_of(name, value).name == name,
        match value {
            catalog::Json::Array(items) => {
                &&& catalog::library_of(name, value).entries is Some
                &&& catalog::library_of(name, value).entries->0.len() == items.len()
                &&& forall|i: int|
                    0 <= i < items.len()
                        ==> #[trigger] catalog::library_of(name, value).entries->0[i]
                        == catalog::entry_of(items[i])
            },
            _ => catalog::library_of(name, value).entries is None,
        },
{
}

/// Law: the entries of a library give their signatures in order, an entry that
/// gives none being left out.
pub proof fn law_entries_give_signatures_in_order(entries: Seq<catalog::EntryView>)
    ensures
        catalog::entry_signatures(entries) == entries.map_values(
            |entry: catalog::EntryView|
                if catalog::signature_of(entry) is Some {
                    seq![catalog::signature_of(entry)->0]
                } else {
                    seq![]
                },
        ).flatten(),
    decreases entries.len(),
{
    let f = |entry: catalog::EntryView|
        if catalog::signature_of(entry) is Some {
            seq![catalog::signature_of(entry)->0]
        } else {
            seq![]
        };
    search::lemma_flatten_last(entries, f);
    if entries.len() > 0 {
        law_entries_give_signatures_in_order(entries.drop_last());
        assert(catalog::entry_signatures(entries) == catalog::entry_signatures(entries.drop_last())
            + f(entries.last()));
    }
}

/// Law: a catalog gives the signatures of all the entries of its libraries, in
/// order, but for those under `_schema_notes`.
pub proof fn law_libraries_give_signatures_in_order(libraries: Seq<catalog::LibraryView>)
    ensures
        catalog::catalog_signatures(libraries) == libraries.map_values(
            |library: catalog::LibraryView|
                if library.entries is Some && library.name != "_schema_notes"@ {
                    catalog::entry_signatures(library.entries->0)
                } else {
                    seq![]
                },
        ).flatten(),
    decreases libraries.len(),
{
    let f = |library: catalog::LibraryView|
        if library.entries is Some && library.name != "_schema_notes"@ {
            catalog::entry_signatures(library.entries->0)
        } else {
            seq![]
        };
    search::lemma_flatten_last(libraries, f);
    if libraries.len() > 0 {
        law_libraries_give_signatures_in_order(libraries.drop_last());
    }
}

/// Law: the members of a catalog are taken each once, under its own name and
/// with its own value.
pub proof fn law_each_member_is_taken_once(
    members: Map<Seq<char>, catalog::Json>,
    order: Seq<Seq<char>>,
)
    requires
        catalog::is_order_of(order, members),
    ensures
        forall|i: int|
            0 <= i < order.len() ==> members.contains_key(#[trigger] order[i]),
        forall|i: int, j: int|
            0 <= i < j < order.len() ==> #[trigger] order[i] != #[trigger] order[j],
        forall|name: Seq<char>| #[trigger]
            members.contains_key(name) ==> exists|i: int|
                0 <= i < order.len() && #[trigger] order[i] == name,
        catalog::libraries_in_order(members, order).len() == order.len(),
        forall|i: int|
            0 <= i < order.len() ==> #[trigger] catalog::libraries_in_order(members, order)[i]
                == catalog::library_of(order[i], members[order[i]]),
{
    assert forall|i: int| 0 <= i < order.len() implies members.contains_key(
        #[trigger] order[i],
    ) by {
        assert(order.to_set().contains(order[i]));
    }
    assert forall|name: Seq<char>| #[trigger] members.contains_key(name) implies exists|i: int|
        0 <= i < order.len() && #[trigger] order[i] == name by {
        assert(order.to_set().contains(name));
        assert(order.contains(name));
        assert(order[order.index_of(name)] == name);
    }
}

/// Law: every entry of an array in a catalog gives its signature, if it names a
/// function and the array is not `_schema_notes`.
pub proof fn law_every_named_entry_is_loaded(
    members: Map<Seq<char>, catalog::Json>,
    order: Seq<Seq<char>>,
    library: Seq<char>,
    i: int,
)
    requires
        catalog::is_order_of(order, members),
        members.contains_key(library),
        library != "_schema_notes"@,
        members[library] is Array,
        0 <= i < members[library]->Array_0.len(),
        catalog::signature_of(catalog::entry_of(members[library]->Array_0[i])) is Some,
    ensures
        signatures_in_order(members, order).contains(
            catalog::signature_of(catalog::entry_of(members[library]->Array_0[i]))->0,
        ),
{
    let sig = catalog::signature_of(catalog::entry_of(members[library]->Array_0[i]))->0;
    law_each_member_is_taken_once(members, order);
    let k = choose|k: int| 0 <= k < order.len() && #[trigger] order[k] == library;
    let libraries = catalog::libraries_in_order(members, order);
    assert(libraries[k] == catalog::library_of(library, members[library]));
    let entries = libraries[k].entries->0;
    assert(entries[i] == catalog::entry_of(members[library]->Array_0[i]));
    lemma_entry_is_loaded(entries, i);
    lemma_library_is_loaded(libraries, k, sig);
}

/// What an entry gives is among the signatures of its library.
proof fn lemma_entry_is_loaded(entries: Seq<catalog::EntryView>, i: int)
    requires
        0 <= i < entries.len(),
        catalog::signature_of(entries[i]) is Some,
    ensures
        catalog::entry_signatures(entries).contains(catalog::signature_of(entries[i])->0),
    decreases entries.len(),
{
    let sig = catalog::signature_of(entries[i])->0;
    let all = catalog::entry_signatures(entries);
    if i == entries.len() - 1 {
        assert(all[all.len() - 1] == sig);
    } else {
        let front = entries.drop_last();
        lemma_entry_is_loaded(front, i);
        let before = catalog::entry_signatures(front);
        let k = before.index_of(sig);
        assert(all[k] == sig);
    }
}

/// What a library gives is among the signatures of its catalog.
proof fn lemma_library_is_loaded(
    libraries: Seq<catalog::LibraryView>,
    k: int,
    sig: signature::SignatureView,
)
    requires
        0 <= k < libraries.len(),
        catalog::library_signatures(libraries[k]).contains(sig),
    ensures
        catalog::catalog_signatures(libraries).contains(sig),
    decreases libraries.len(),
{
    let front = libraries.drop_last();
    let before = catalog::catalog_signatures(front);
    let last = catalog::library_signatures(libraries.last());
    let all = catalog::catalog_signatures(libraries);
    assert(all == before + last);
    if k == libraries.len() - 1 {
        let j = last.index_of(sig);
        assert(all[before.len() + j] == sig);
    } else {
        lemma_library_is_loaded(front, k, sig);
        let j = before.index_of(sig);
        assert(all[j] == sig);
    }
}

/// Law: the views of entries and libraries hold each field under its own name,
/// and those of lists one view for each element, in order.
pub proof fn law_catalog_views_hold_each_field(
    entry: CatalogEntry,
    library: CatalogLibrary,
    libraries: Seq<CatalogLibrary>,
)
    ensures
        entry@.fn_name == signature_laws::text_of(entry.fn_name),
        entry@.category == signature_laws::text_of(entry.category),
        entry@.prompt_arg_index == entry.prompt_arg_index,
        entry@.prompt_role == signature_laws::text_of(entry.prompt_role),
        entry@.result_index == entry.result_index,
        entry@.request_index == entry.request_index,
        entry@.behavior == signature_laws::text_of(entry.behavior),
        library@.name == library.name@,
        match library.entries {
            Some(entries) => {
                &&& library@.entries is Some
                &&& library@.entries->0.len() == entries@.len()
                &&& forall|i: int|
                    0 <= i < entries@.len() ==> #[trigger] library@.entries->0[i] == entries@[i]@
            },
            None => library@.entries is None,
        },
        catalog::library_views(libraries).len() == libraries.len(),
        forall|i: int|
            0 <= i < libraries.len() ==> #[trigger] catalog::library_views(libraries)[i]
                == libraries[i]@,
{
}

} // verus!

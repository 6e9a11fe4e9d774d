//! Reading catalogs of signatures.

use crate::signature;
use crate::signature::Signature;
use crate::text::same_text;
use std::collections::HashMap;
use vstd::prelude::*;
use vstd::string::*;

verus! {

/// The JSON values of `serde_json`.
#[verifier::external_type_specification]
#[verifier::external_body]
pub struct ExJsonValue(serde_json::Value);

/// The errors of `serde_json`.
#[verifier::external_type_specification]
#[verifier::external_body]
pub struct ExJsonError(serde_json::Error);

/// A JSON value. Of a number it tells whether it is an unsigned integer of
/// 64 bits, and which.
pub enum Json {
    Null,
    Bool(bool),
    Number(Option<u64>),
    Text(Seq<char>),
    Array(Seq<Json>),
    Object(Map<Seq<char>, Json>),
}

/// What a `serde_json::Value` holds.
pub uninterp spec fn json(value: serde_json::Value) -> Json;

/// The members of the JSON object that a text spells out, as
/// `serde_json::from_str` reads it into a map from names to values, or
/// nothing where it refuses the text.
pub uninterp spec fn json_members(text: Seq<char>) -> Option<Map<Seq<char>, Json>>;

/// Whether `pairs` lists the members of an object, each once, in any order.
pub open spec fn lists_members(
    pairs: Seq<(String, serde_json::Value)>,
    members: Map<Seq<char>, Json>,
) -> bool {
    &&& forall|i: int|
        #![trigger pairs[i]]
        0 <= i < pairs.len() ==> members.contains_key(pairs[i].0@) && members[pairs[i].0@] == json(
            pairs[i].1,
        )
    &&& forall|i: int, j: int|
        0 <= i < j < pairs.len() ==> (#[trigger] pairs[i]).0@ != (#[trigger] pairs[j]).0@
    &&& forall|name: Seq<char>| #[trigger]
        members.contains_key(name) ==> exists|i: int|
            0 <= i < pairs.len() && (#[trigger] pairs[i]).0@ == name
}

/// `serde_json::from_str` into a map from names to values. Where it reads the
/// text, the result holds each member of the map once; the order is left open,
/// for the map is a hash map.
#[verifier::external_body]
fn parse_members(text: &str) -> (r: Result<Vec<(String, serde_json::Value)>, serde_json::Error>)
    ensures
        match (json_members(text@), r) {
            (Some(members), Ok(pairs)) => lists_members(pairs@, members),
            (None, Err(_)) => true,
            _ => false,
        },
{
    let members: HashMap<String, serde_json::Value> = serde_json::from_str(text)?;
    Ok(members.into_iter().collect())
}

/// `serde_json::Value::as_array` gives the elements of an array, and nothing
/// of any other value.
pub assume_specification[ serde_json::Value::as_array ](value: &serde_json::Value) -> (r: Option<
    &Vec<serde_json::Value>,
>)
    ensures
        match (json(*value), r) {
            (Json::Array(items), Some(v)) => v@.map_values(|x: serde_json::Value| json(x))
                == items,
            (Json::Array(_), None) => false,
            (_, r) => r is None,
        },
;

/// `serde_json::Value::as_str` gives the text of a string, and nothing of any
/// other value.
pub assume_specification[ serde_json::Value::as_str ](value: &serde_json::Value) -> (r: Option<
    &str,
>)
    ensures
        match (json(*value), r) {
            (Json::Text(chars), Some(s)) => s@ == chars,
            (Json::Text(_), None) => false,
            (_, r) => r is None,
        },
;

/// `serde_json::Value::as_u64` gives a number that is an unsigned integer of
/// 64 bits, and nothing of any other value.
pub assume_specification[ serde_json::Value::as_u64 ](value: &serde_json::Value) -> (r: Option<u64>)
    ensures
        r == match json(*value) {
            Json::Number(n) => n,
            _ => None,
        },
;

/// `serde_json::Value::get` with a string gives the member of that name, and
/// nothing where there is none or the value is no object.
#[verifier::external_body]
fn json_member<'a>(value: &'a serde_json::Value, name: &str) -> (r: Option<&'a serde_json::Value>)
    ensures
        match (member(json(*value), name@), r) {
            (Some(j), Some(v)) => json(*v) == j,
            (None, None) => true,
            _ => false,
        },
{
    value.get(name)
}

/// The member of the given name of a JSON value.
pub open spec fn member(value: Json, name: Seq<char>) -> Option<Json> {
    match value {
        Json::Object(members) => if members.contains_key(name) {
            Some(members[name])
        } else {
            None
        },
        _ => None,
    }
}

/// The text of the string member of the given name.
pub open spec fn text_member(value: Json, name: Seq<char>) -> Option<Seq<char>> {
    match member(value, name) {
        Some(Json::Text(chars)) => Some(chars),
        _ => None,
    }
}

/// The unsigned integer that the member of the given name is.
pub open spec fn number_member(value: Json, name: Seq<char>) -> Option<u64> {
    match member(value, name) {
        Some(Json::Number(n)) => n,
        _ => None,
    }
}

/// An entry of a catalog as it is written: the members that are strings or
/// unsigned integers as they should be.
#[derive(Debug)]
pub struct CatalogEntry {
    pub fn_name: Option<String>,
    pub category: Option<String>,
    pub prompt_arg_index: Option<u64>,
    pub prompt_role: Option<String>,
    pub result_index: Option<u64>,
    pub request_index: Option<u64>,
    pub behavior: Option<String>,
}

/// A top-level member of a catalog: a library and its entries, which are
/// missing where the member is no array.
#[derive(Debug)]
pub struct CatalogLibrary {
    pub name: String,
    pub entries: Option<Vec<CatalogEntry>>,
}

/// What a [`CatalogEntry`] holds.
#[verifier::ext_equal]
pub struct EntryView {
    pub fn_name: Option<Seq<char>>,
    pub category: Option<Seq<char>>,
    pub prompt_arg_index: Option<u64>,
    pub prompt_role: Option<Seq<char>>,
    pub result_index: Option<u64>,
    pub request_index: Option<u64>,
    pub behavior: Option<Seq<char>>,
}

/// What a [`CatalogLibrary`] holds.
#[verifier::ext_equal]
pub struct LibraryView {
    pub name: Seq<char>,
    pub entries: Option<Seq<EntryView>>,
}

impl View for CatalogEntry {
    type V = EntryView;

    open spec fn view(&self) -> EntryView {
        EntryView {
            fn_name: self.fn_name.deep_view(),
            category: self.category.deep_view(),
            prompt_arg_index: self.prompt_arg_index,
            prompt_role: self.prompt_role.deep_view(),
            result_index: self.result_index,
            request_index: self.request_index,
            behavior: self.behavior.deep_view(),
        }
    }
}

/// What a list of entries holds.
pub open spec fn entry_views(entries: Seq<CatalogEntry>) -> Seq<EntryView> {
    entries.map_values(|e: CatalogEntry| e@)
}

impl View for CatalogLibrary {
    type V = LibraryView;

    open spec fn view(&self) -> LibraryView {
        LibraryView {
            name: self.name@,
            entries: match self.entries {
                Some(entries) => Some(entry_views(entries@)),
                None => None,
            },
        }
    }
}

/// What a list of libraries holds.
pub open spec fn library_views(libraries: Seq<CatalogLibrary>) -> Seq<LibraryView> {
    libraries.map_values(|l: CatalogLibrary| l@)
}

/// The entry that a JSON value spells out.
pub open spec fn entry_of(value: Json) -> EntryView {
    EntryView {
        fn_name: text_member(value, "fn_name"@),
        category: text_member(value, "category"@),
        prompt_arg_index: number_member(value, "prompt_arg_index"@),
        prompt_role: text_member(value, "prompt_role"@),
        result_index: number_member(value, "result_index"@),
        request_index: number_member(value, "request_index"@),
        behavior: text_member(value, "behavior"@),
    }
}

/// The library that a top-level member of a catalog spells out.
pub open spec fn library_of(name: Seq<char>, value: Json) -> LibraryView {
    LibraryView {
        name,
        entries: match value {
            Json::Array(items) => Some(items.map_values(|item: Json| entry_of(item))),
            _ => None,
        },
    }
}

/// An index of a catalog as an index of an argument.
pub open spec fn index_of(number: Option<u64>) -> Option<usize> {
    match number {
        Some(n) => Some(n as usize),
        None => None,
    }
}

/// The signature that an entry gives, if it names a function.
pub open spec fn signature_of(entry: EntryView) -> Option<signature::SignatureView> {
    match entry.fn_name {
        Some(fn_name) => if fn_name.len() > 0 {
            Some(
                signature::SignatureView {
                    fn_name,
                    category: entry.category,
                    prompt_arg_index: index_of(entry.prompt_arg_index),
                    prompt_role: entry.prompt_role,
                    result_index: index_of(entry.result_index),
                    request_index: index_of(entry.request_index),
                    behavior: entry.behavior,
                },
            )
        } else {
            None
        },
        None => None,
    }
}

/// The signatures that the entries give, in order.
pub open spec fn entry_signatures(entries: Seq<EntryView>) -> Seq<signature::SignatureView>
    decreases entries.len(),
{
    if entries.len() == 0 {
        seq![]
    } else {
        let before = entry_signatures(entries.drop_last());
        match signature_of(entries.last()) {
            Some(sig) => before.push(sig),
            None => before,
        }
    }
}

/// The signatures that a library gives: none under `_schema_notes`, which
/// describes the catalog, and none where it has no entries.
pub open spec fn library_signatures(library: LibraryView) -> Seq<signature::SignatureView> {
    match library.entries {
        Some(entries) => if library.name == "_schema_notes"@ {
            seq![]
        } else {
            entry_signatures(entries)
        },
        None => seq![],
    }
}

/// The signatures that the libraries give, in order.
pub open spec fn catalog_signatures(libraries: Seq<LibraryView>) -> Seq<signature::SignatureView>
    decreases libraries.len(),
{
    if libraries.len() == 0 {
        seq![]
    } else {
        catalog_signatures(libraries.drop_last()) + library_signatures(libraries.last())
    }
}

/// The libraries of a catalog, with its members taken in the given order.
pub open spec fn libraries_in_order(
    members: Map<Seq<char>, Json>,
    order: Seq<Seq<char>>,
) -> Seq<LibraryView> {
    order.map_values(|name: Seq<char>| library_of(name, members[name]))
}

/// Whether `order` names each member of an object once.
pub open spec fn is_order_of(order: Seq<Seq<char>>, members: Map<Seq<char>, Json>) -> bool {
    order.no_duplicates() && order.to_set() == members.dom()
}

/// Why a catalog could not be loaded.
#[derive(Debug)]
pub enum CatalogError {
    /// The text is no JSON object.
    Json(serde_json::Error),
}

/// The text of the string member of the given name.
fn read_text(value: &serde_json::Value, name: &str) -> (r: Option<String>)
    ensures
        r.deep_view() == text_member(json(*value), name@),
{
    match json_member(value, name) {
        Some(v) => match v.as_str() {
            Some(s) => Some(s.to_owned()),
            None => None,
        },
        None => None,
    }
}

/// The unsigned integer that the member of the given name is.
fn read_number(value: &serde_json::Value, name: &str) -> (r: Option<u64>)
    ensures
        r == number_member(json(*value), name@),
{
    match json_member(value, name) {
        Some(v) => v.as_u64(),
        None => None,
    }
}

/// The entry that a JSON value spells out.
fn read_entry(value: &serde_json::Value) -> (r: CatalogEntry)
    ensures
        r@ == entry_of(json(*value)),
{
    CatalogEntry {
        fn_name: read_text(value, "fn_name"),
        category: read_text(value, "category"),
        prompt_arg_index: read_number(value, "prompt_arg_index"),
        prompt_role: read_text(value, "prompt_role"),
        result_index: read_number(value, "result_index"),
        request_index: read_number(value, "request_index"),
        behavior: read_text(value, "behavior"),
    }
}

/// The library that a top-level member of a catalog spells out.
fn read_library(name: &String, value: &serde_json::Value) -> (r: CatalogLibrary)
    ensures
        r@ == library_of(name@, json(*value)),
{
    let entries = match value.as_array() {
        Some(items) => {
            let mut entries: Vec<CatalogEntry> = Vec::new();
            let mut i: usize = 0;
            while i < items.len()
                invariant
                    i <= items@.len(),
                    entries@.len() == i,
                    forall|j: int| 0 <= j < i ==> (#[trigger] entries@[j])@ == entry_of(
                        json(items@[j]),
                    ),
                decreases items@.len() - i,
            {
                entries.push(read_entry(&items[i]));
                i += 1;
            }
            proof {
                let elements = items@.map_values(|x: serde_json::Value| json(x));
                assert(entry_views(entries@) == elements.map_values(|item: Json| entry_of(item)));
            }
            Some(entries)
        },
        None => None,
    };
    CatalogLibrary { name: name.clone(), entries }
}

/// An index of a catalog as an index of an argument.
fn to_index(number: Option<u64>) -> (r: Option<usize>)
    ensures
        r == index_of(number),
{
    match number {
        Some(n) => Some(n as usize),
        None => None,
    }
}

/// The signature that an entry gives, if it names a function.
pub fn entry_signature(entry: &CatalogEntry) -> (r: Option<Signature>)
    ensures
        match (signature_of(entry@), r) {
            (Some(view), Some(sig)) => sig@ == view,
            (None, None) => true,
            _ => false,
        },
{
    match &entry.fn_name {
        Some(fn_name) => {
            if fn_name.as_str().is_empty() {
                return None;
            }
            Some(
                Signature {
                    fn_name: fn_name.clone(),
                    category: entry.category.clone(),
                    prompt_arg_index: to_index(entry.prompt_arg_index),
                    prompt_role: entry.prompt_role.clone(),
                    result_index: to_index(entry.result_index),
                    request_index: to_index(entry.request_index),
                    behavior: entry.behavior.clone(),
                },
            )
        },
        None => None,
    }
}

/// Appends the signatures that a library gives.
fn append_library(library: &CatalogLibrary, out: &mut Vec<Signature>)
    ensures
        signature::signature_views(final(out)@) == signature::signature_views(old(out)@)
            + library_signatures(library@),
{
    let ghost before = signature::signature_views(out@);
    assert(before + seq![] == before);
    if same_text(library.name.as_str(), "_schema_notes") {
        return;
    }
    if let Some(entries) = &library.entries {
        let ghost views = entry_views(entries@);
        let mut i: usize = 0;
        assert(views.take(0) == Seq::<EntryView>::empty());
        while i < entries.len()
            invariant
                i <= entries@.len(),
                views == entry_views(entries@),
                signature::signature_views(out@) == before + entry_signatures(
                    views.take(i as int),
                ),
            decreases entries@.len() - i,
        {
            assert(views.take(i + 1).drop_last() == views.take(i as int));
            let ghost earlier = out@;
            if let Some(sig) = entry_signature(&entries[i]) {
                out.push(sig);
                assert(signature::signature_views(out@) == signature::signature_views(earlier).push(
                    sig@,
                ));
            }
            assert(signature::signature_views(out@) == before + entry_signatures(
                views.take(i + 1),
            ));
            i += 1;
        }
        assert(views.take(views.len() as int) == views);
    }
}

/// The signatures that the libraries of a catalog give, in order. Entries
/// without a function name are left out.
pub fn collect_signatures(libraries: &[CatalogLibrary]) -> (r: Vec<Signature>)
    ensures
        signature::signature_views(r@) == catalog_signatures(library_views(libraries@)),
{
    let ghost views = library_views(libraries@);
    let mut out: Vec<Signature> = Vec::new();
    let mut i: usize = 0;
    assert(views.take(0) == Seq::<LibraryView>::empty());
    assert(signature::signature_views(out@) == Seq::<signature::SignatureView>::empty());
    while i < libraries.len()
        invariant
            i <= libraries@.len(),
            views == library_views(libraries@),
            signature::signature_views(out@) == catalog_signatures(views.take(i as int)),
        decreases libraries@.len() - i,
    {
        assert(views.take(i + 1).drop_last() == views.take(i as int));
        append_library(&libraries[i], &mut out);
        i += 1;
    }
    assert(views.take(views.len() as int) == views);
    out
}

/// Loads the signatures of a catalog from its JSON text. The members of the
/// catalog are taken in no particular order.
pub fn load_signatures(content: &str) -> (r: Result<Vec<Signature>, CatalogError>)
    ensures
        match (json_members(content@), r) {
            (Some(members), Ok(signatures)) => exists|order: Seq<Seq<char>>|
                #![trigger libraries_in_order(members, order)]
                is_order_of(order, members) && signature::signature_views(signatures@)
                    == catalog_signatures(libraries_in_order(members, order)),
            (None, Err(_)) => true,
            _ => false,
        },
{
    let pairs = match parse_members(content) {
        Ok(pairs) => pairs,
        Err(error) => {
            return Err(CatalogError::Json(error));
        },
    };
    let ghost members = json_members(content@)->0;
    let ghost order = pairs@.map_values(|p: (String, serde_json::Value)| p.0@);
    let mut libraries: Vec<CatalogLibrary> = Vec::new();
    let mut i: usize = 0;
    while i < pairs.len()
        invariant
            i <= pairs@.len(),
            libraries@.len() == i,
            lists_members(pairs@, members),
            forall|j: int| 0 <= j < i ==> (#[trigger] libraries@[j])@ == library_of(
                pairs@[j].0@,
                members[pairs@[j].0@],
            ),
        decreases pairs@.len() - i,
    {
        let (name, value) = &pairs[i];
        libraries.push(read_library(name, value));
        i += 1;
    }
    proof {
        assert(library_views(libraries@) == libraries_in_order(members, order));
        assert(order.no_duplicates());
        assert forall|name: Seq<char>| order.to_set().contains(name) == members.contains_key(
            name,
        ) by {
            if members.contains_key(name) {
                let j = choose|j: int|
                    0 <= j < pairs@.len() && (#[trigger] pairs@[j]).0@ == name;
                assert(order[j] == name);
            }
            if order.contains(name) {
                let j = order.index_of(name);
                assert(pairs@[j].0@ == name);
            }
        }
        assert(order.to_set() == members.dom());
        assert(is_order_of(order, members));
    }
    Ok(collect_signatures(libraries.as_slice()))
}

} // verus!

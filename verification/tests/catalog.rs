use rail_signature::{
    collect_signatures, entry_signature, load_signatures, CatalogEntry, CatalogError,
    CatalogLibrary,
};

const CATALOG: &str = r#"{
    "_schema_notes": [{"fn_name": "not::a::function"}],
    "version": 3,
    "async-openai": [
        {
            "fn_name": "async_openai::Chat::create",
            "category": "llm-api-chat",
            "prompt_arg_index": 1,
            "prompt_role": "user",
            "result_index": 0,
            "request_index": 2,
            "behavior": "request"
        },
        {"category": "nameless"},
        {"fn_name": ""},
        {"fn_name": 7},
        "no object",
        {"fn_name": "async_openai::Client::new", "category": null, "prompt_arg_index": -1,
         "request_index": 1.5, "result_index": "0", "prompt_role": ["user"]}
    ]
}"#;

fn entry(fn_name: Option<&str>) -> CatalogEntry {
    CatalogEntry {
        fn_name: fn_name.map(|n| n.to_string()),
        category: Some("c".to_string()),
        prompt_arg_index: Some(4),
        prompt_role: None,
        result_index: None,
        request_index: Some(5),
        behavior: Some("b".to_string()),
    }
}

fn library(name: &str, names: &[&str]) -> CatalogLibrary {
    CatalogLibrary {
        name: name.to_string(),
        entries: Some(names.iter().map(|n| entry(Some(n))).collect()),
    }
}

fn names(libraries: &[CatalogLibrary]) -> Vec<String> {
    collect_signatures(libraries)
        .iter()
        .map(|s| s.fn_name.clone())
        .collect()
}

#[test]
fn catalog_is_loaded() {
    let sigs = load_signatures(CATALOG).unwrap();
    assert_eq!(sigs.len(), 2);
    assert_eq!(sigs[0].fn_name, "async_openai::Chat::create");
    assert_eq!(sigs[0].category.as_deref(), Some("llm-api-chat"));
    assert_eq!(sigs[0].prompt_arg_index, Some(1));
    assert_eq!(sigs[0].prompt_role.as_deref(), Some("user"));
    assert_eq!(sigs[0].result_index, Some(0));
    assert_eq!(sigs[0].request_index, Some(2));
    assert_eq!(sigs[0].behavior.as_deref(), Some("request"));
}

#[test]
fn members_of_another_type_are_missing() {
    let sigs = load_signatures(CATALOG).unwrap();
    assert_eq!(sigs[1].fn_name, "async_openai::Client::new");
    assert_eq!(sigs[1].category, None);
    assert_eq!(sigs[1].prompt_arg_index, None);
    assert_eq!(sigs[1].prompt_role, None);
    assert_eq!(sigs[1].result_index, None);
    assert_eq!(sigs[1].request_index, None);
    assert_eq!(sigs[1].behavior, None);
}

#[test]
fn every_library_is_loaded() {
    let text = r#"{"a": [{"fn_name": "a::f"}], "b": [{"fn_name": "b::g"}, {"fn_name": "b::h"}]}"#;
    let mut loaded: Vec<String> = load_signatures(text)
        .unwrap()
        .iter()
        .map(|s| s.fn_name.clone())
        .collect();
    loaded.sort();
    assert_eq!(loaded, vec!["a::f", "b::g", "b::h"]);
}

#[test]
fn text_that_is_no_object_is_refused() {
    for text in ["", "{", "[]", "3", "{\"a\": }", "{} trailing"] {
        match load_signatures(text) {
            Err(CatalogError::Json(error)) => assert!(!error.to_string().is_empty()),
            Ok(_) => panic!("{} was accepted", text),
        }
    }
}

#[test]
fn empty_object_has_no_signatures() {
    assert_eq!(load_signatures("{}").unwrap().len(), 0);
}

#[test]
fn notes_and_members_without_entries_are_skipped() {
    let libraries = vec![
        library("a", &["a::f"]),
        library("_schema_notes", &["n::n"]),
        CatalogLibrary {
            name: "b".to_string(),
            entries: None,
        },
        library("c", &["c::f", "c::g"]),
    ];
    assert_eq!(names(&libraries), vec!["a::f", "c::f", "c::g"]);
}

#[test]
fn order_changes_no_signature() {
    let mut one = names(&[library("a", &["a::f"]), library("b", &["b::f", "b::g"])]);
    let mut other = names(&[library("b", &["b::f", "b::g"]), library("a", &["a::f"])]);
    assert_ne!(one, other);
    one.sort();
    other.sort();
    assert_eq!(one, other);
}

#[test]
fn unnamed_entries_give_no_signature() {
    assert!(entry_signature(&entry(None)).is_none());
    assert!(entry_signature(&entry(Some(""))).is_none());
    let sig = entry_signature(&entry(Some("f"))).unwrap();
    assert_eq!(sig.fn_name, "f");
    assert_eq!(sig.category.as_deref(), Some("c"));
    assert_eq!(sig.prompt_arg_index, Some(4));
    assert_eq!(sig.prompt_role, None);
    assert_eq!(sig.result_index, None);
    assert_eq!(sig.request_index, Some(5));
    assert_eq!(sig.behavior.as_deref(), Some("b"));
}

#[test]
fn unnamed_entries_change_nothing() {
    let with = vec![library("a", &["a::f", "", "a::g"])];
    let without = vec![library("a", &["a::f", "a::g"])];
    assert_eq!(names(&with), names(&without));
}

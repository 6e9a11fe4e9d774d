use rail_signature::{
    candidate_paths, classify_callee, match_any, match_callsite, match_demangled, strip_symbol,
    SecurityTag, Signature,
};

fn sig(fn_name: &str) -> Signature {
    Signature {
        fn_name: fn_name.to_string(),
        category: Some("category of ".to_string() + fn_name),
        prompt_arg_index: Some(1),
        prompt_role: Some("system".to_string()),
        result_index: Some(2),
        request_index: Some(3),
        behavior: None,
    }
}

fn paths(names: &[&str]) -> Vec<String> {
    names.iter().map(|n| n.to_string()).collect()
}

#[test]
fn suffix_match_needs_a_segment_boundary() {
    let sigs = vec![sig("decode")];
    assert!(match_any(&paths(&["decode"]), &sigs).is_some());
    assert!(match_any(&paths(&["a::decode"]), &sigs).is_some());
    assert!(match_any(&paths(&["a:decode"]), &sigs).is_none());
    assert!(match_any(&paths(&["a::redecode"]), &sigs).is_none());
    assert!(match_any(&paths(&["a::decode_header"]), &sigs).is_none());
    assert!(match_any(&paths(&["code"]), &sigs).is_none());
}

#[test]
fn strategies_are_named() {
    let sigs = vec![sig("sqlx::Query::fetch")];
    let (_, strategy) = match_any(&paths(&["app::sqlx::Query::fetch"]), &sigs).unwrap();
    assert_eq!(strategy, "suffix");
    let (_, strategy) = match_any(&paths(&["app::sqlx_core::Query::fetch"]), &sigs).unwrap();
    assert_eq!(strategy, "short-name");
}

#[test]
fn suffix_of_any_candidate_comes_before_short_names() {
    let sigs = vec![sig("y::B::m"), sig("z::C::m")];
    // the first candidate has a short name in the list, the second is listed
    let (found, strategy) = match_any(&paths(&["x::B::m", "z::C::m"]), &sigs).unwrap();
    assert_eq!(found.fn_name, "z::C::m");
    assert_eq!(strategy, "suffix");
}

#[test]
fn first_candidate_decides_before_first_signature() {
    let sigs = vec![sig("b::m"), sig("a::m")];
    let (found, _) = match_any(&paths(&["x::a::m", "x::b::m"]), &sigs).unwrap();
    assert_eq!(found.fn_name, "a::m");
    let both = vec![sig("m"), sig("a::m")];
    let (found, _) = match_any(&paths(&["x::a::m"]), &both).unwrap();
    assert_eq!(found.fn_name, "m");
}

#[test]
fn nothing_matches_nothing() {
    assert!(match_any(&[], &[sig("a")]).is_none());
    assert!(match_any(&paths(&["a"]), &[]).is_none());
    assert!(match_demangled("a::b", "c", "bb0", &[], &[], &[]).is_none());
}

#[test]
fn catalogs_are_tried_in_order() {
    let list = vec![sig("x::Store::get")];
    let (kind, _, _) = classify_callee("x::Store::get", &list, &list, &list).unwrap();
    assert_eq!(kind, SecurityTag::LLMAPICalls);
    let (kind, _, _) = classify_callee("x::Store::get", &[], &list, &list).unwrap();
    assert_eq!(kind, SecurityTag::AccessControl);
    let (kind, _, _) = classify_callee("x::Store::get", &[], &[], &list).unwrap();
    assert_eq!(kind, SecurityTag::DataAccess);
}

#[test]
fn earlier_short_name_wins_over_later_suffix() {
    let llm = vec![sig("y::Store::get")];
    let data = vec![sig("x::Store::get")];
    let (kind, found, strategy) = classify_callee("x::Store::get", &llm, &[], &data).unwrap();
    assert_eq!(kind, SecurityTag::LLMAPICalls);
    assert_eq!(found.fn_name, "y::Store::get");
    assert_eq!(strategy, "short-name");
}

#[test]
fn crate_prefix_is_ignored() {
    let sigs = vec![sig("bcrypt::verify")];
    assert!(match_any(&candidate_paths("bcrypt::verify"), &sigs).is_some());
    assert!(match_any(&candidate_paths("app::deps::bcrypt::verify"), &sigs).is_some());
}

#[test]
fn point_carries_the_signature() {
    let ac = vec![sig("bcrypt::verify")];
    let point = match_demangled("app::bcrypt::verify", "app::login", "%bb3", &[], &ac, &[]).unwrap();
    assert_eq!(point.kind, SecurityTag::AccessControl);
    assert_eq!(point.caller, "app::login");
    assert_eq!(point.block, "%bb3");
    assert_eq!(point.callee, "app::bcrypt::verify");
    assert_eq!(point.matched_fn_name, "bcrypt::verify");
    assert_eq!(point.category.as_deref(), Some("category of bcrypt::verify"));
    assert_eq!(point.prompt_arg_index, Some(1));
    assert_eq!(point.prompt_role.as_deref(), Some("system"));
    assert_eq!(point.request_index, Some(3));
    assert_eq!(point.strategy, "suffix");
}

#[test]
fn mangled_symbols_are_demangled() {
    let ac = vec![sig("bcrypt::verify")];
    let point = match_callsite(
        "@_ZN6bcrypt6verify17h05af221e174051e9E",
        "@\"_ZN3app5login17h05af221e174051e9E\"",
        "bb0",
        &[],
        &ac,
        &[],
    )
    .unwrap();
    assert_eq!(point.callee, "bcrypt::verify");
    assert_eq!(point.caller, "app::login");
}

#[test]
fn mangled_trait_calls_are_matched_by_trait() {
    let ac = vec![sig("casbin::CoreApi::enforce")];
    let point = match_callsite(
        "_ZN52_$LT$casbin..Enforcer$u20$as$u20$casbin..CoreApi$GT$7enforce17h05af221e174051e9E",
        "main",
        "bb0",
        &[],
        &ac,
        &[],
    )
    .unwrap();
    assert_eq!(point.callee, "<casbin::Enforcer as casbin::CoreApi>::enforce");
    assert_eq!(point.caller, "main");
    assert_eq!(point.strategy, "suffix");
}

#[test]
fn mangled_function_types_are_matched_by_trait() {
    let ac = vec![sig("app::Tr::call")];
    let point = match_callsite(
        "_RNvYFENtC3app1BNtC3app2Tr4call",
        "main",
        "bb0",
        &[],
        &ac,
        &[],
    )
    .unwrap();
    assert_eq!(point.callee, "<fn() -> app::B as app::Tr>::call");
    assert_eq!(point.strategy, "suffix");
}

#[test]
fn plain_callee_is_matched_under_a_mangled_caller() {
    let ac = vec![sig("bcrypt::verify")];
    let point = match_callsite(
        "bcrypt::verify",
        "_ZN3app5login17h05af221e174051e9E",
        "bb0",
        &[],
        &ac,
        &[],
    )
    .unwrap();
    assert_eq!(point.callee, "bcrypt::verify");
    assert_eq!(point.caller, "app::login");
}

#[test]
fn sigils_and_quotes_are_stripped() {
    assert_eq!(strip_symbol("name"), "name");
    assert_eq!(strip_symbol("@name"), "name");
    assert_eq!(strip_symbol("%name"), "name");
    assert_eq!(strip_symbol("@\"name\""), "name");
    assert_eq!(strip_symbol("%\"name\""), "name");
    assert_eq!(strip_symbol("@@%%\"\"na\"me\"\""), "na\"me");
    assert_eq!(strip_symbol("%@name"), "@name");
    assert_eq!(strip_symbol("\"@name"), "@name");
    assert_eq!(strip_symbol("\"\"\""), "");
    assert_eq!(strip_symbol("@"), "");
    assert_eq!(strip_symbol(""), "");
}

#[test]
fn database_calls_are_reads_and_writes() {
    let mut read = sig("sqlx::query::Query::fetch_one");
    read.category = Some("data-read".to_string());
    let mut write = sig("sqlx::query::Query::execute");
    write.category = Some("data-write".to_string());
    let data = vec![read, write];
    let point = match_callsite(
        "_ZN13afg_data_demo4sqlx5query5Query7execute17h05af221e174051e9E",
        "main",
        "bb0",
        &[],
        &[],
        &data,
    )
    .unwrap();
    assert_eq!(point.kind, SecurityTag::DataAccess);
    assert_eq!(point.category.as_deref(), Some("data-write"));
    let point = match_callsite(
        "_ZN13afg_data_demo4sqlx5query5Query9fetch_one17h05af221e174051e9E",
        "main",
        "bb0",
        &[],
        &[],
        &data,
    )
    .unwrap();
    assert_eq!(point.category.as_deref(), Some("data-read"));
}

use rail_signature::{
    candidate_paths, last_two, match_any, match_callsite, matching_angle, split_as_top_level,
    strip_turbofish, SecurityTag, Signature,
};

fn sig(fn_name: &str) -> Signature {
    Signature {
        fn_name: fn_name.to_string(),
        category: None,
        prompt_arg_index: None,
        prompt_role: None,
        result_index: None,
        request_index: None,
        behavior: None,
    }
}

fn sig_cat(fn_name: &str, category: &str) -> Signature {
    Signature {
        fn_name: fn_name.to_string(),
        category: Some(category.to_string()),
        prompt_arg_index: None,
        prompt_role: None,
        result_index: None,
        request_index: None,
        behavior: None,
    }
}

/// Does any candidate for `demangled` match a catalog of just `fn_name`?
fn matches(demangled: &str, fn_name: &str) -> bool {
    match_any(&candidate_paths(demangled), &[sig(fn_name)]).is_some()
}

// ---- direct calls and inherent methods ----

#[test]
fn direct_free_function() {
    assert!(matches("app::bcrypt::verify", "bcrypt::verify"));
}

#[test]
fn inherent_method() {
    assert!(matches(
        "app::ldap3::LdapConn::simple_bind",
        "ldap3::LdapConn::simple_bind"
    ));
}

#[test]
fn strips_generics_on_type() {
    assert!(matches(
        "app::oauth2::Client<Config>::exchange_code",
        "oauth2::Client::exchange_code"
    ));
}

#[test]
fn strips_method_level_generics() {
    assert!(matches("app::foo::Bar::baz<i32>", "foo::Bar::baz"));
}

// ---- trait dispatch `<Type as Trait>::method` ----

#[test]
fn trait_dispatch_yields_both_type_and_trait_paths() {
    let cands = candidate_paths(
        "<app::argon2::Argon2 as app::argon2::PasswordVerifier>::verify_password",
    );
    assert!(
        cands
            .iter()
            .any(|c| c.ends_with("argon2::Argon2::verify_password")),
        "{:?}",
        cands
    );
    assert!(
        cands
            .iter()
            .any(|c| c.ends_with("argon2::PasswordVerifier::verify_password")),
        "{:?}",
        cands
    );
}

#[test]
fn trait_dispatch_matches_trait_entry() {
    assert!(matches(
        "<app::argon2::Argon2 as app::argon2::PasswordVerifier>::verify_password",
        "argon2::PasswordVerifier::verify_password"
    ));
}

#[test]
fn trait_dispatch_matches_type_entry() {
    // listed under the concrete type
    assert!(matches(
        "<app::casbin::Enforcer as app::casbin::CoreApi>::enforce",
        "casbin::Enforcer::enforce"
    ));
    // and under the trait
    assert!(matches(
        "<app::casbin::Enforcer as app::casbin::CoreApi>::enforce",
        "casbin::CoreApi::enforce"
    ));
}

// ---- nesting and generics on both sides ----

#[test]
fn nested_generics_on_type() {
    assert!(matches(
        "<app::Foo<app::Bar<i32>> as app::Trait>::method",
        "Trait::method"
    ));
    assert!(matches(
        "<app::Foo<app::Bar<i32>> as app::Trait>::method",
        "Foo::method"
    ));
}

#[test]
fn generics_on_both_type_and_trait() {
    assert!(matches(
        "<app::Client<Config> as app::TokenExchange<Foo>>::exchange_code",
        "TokenExchange::exchange_code"
    ));
    assert!(matches(
        "<app::Client<Config> as app::TokenExchange<Foo>>::exchange_code",
        "Client::exchange_code"
    ));
}

#[test]
fn nested_trait_projection_splits_at_outer_as() {
    // `<<T as A>::B as C>::method` is split at the outer ` as `
    let cands = candidate_paths("<<app::T as app::A>::B as app::C>::method");
    assert!(
        cands.iter().any(|c| c.ends_with("app::C::method")),
        "{:?}",
        cands
    );
    // A is not taken for the trait
    assert!(
        !cands.iter().any(|c| c.ends_with("app::A::method")),
        "{:?}",
        cands
    );
}

// ---- negatives ----

#[test]
fn no_match_for_unrelated_callee() {
    assert!(!matches(
        "app::alloc::vec::Vec::push",
        "jsonwebtoken::decode"
    ));
}

#[test]
fn no_match_on_partial_segment() {
    // `decode_header` does not match a `decode` entry
    assert!(!matches(
        "app::jsonwebtoken::decode_header",
        "jsonwebtoken::decode"
    ));
}

#[test]
fn matching_angle_requires_leading_bracket() {
    assert_eq!(matching_angle("app::foo::bar"), None);
    assert!(matching_angle("<a as b>::c").is_some());
}

// ---- data-store catalog ----

#[test]
fn data_access_matches_and_is_tagged() {
    let data = vec![sig_cat("sqlx::query::Query::fetch_one", "data-read")];
    // the short name allows for a crate that is named otherwise
    let point = match_callsite(
        "app::sqlx_core::query::Query::fetch_one",
        "caller",
        "bb0",
        &[],
        &[],
        &data,
    )
    .expect("data-store callsite should match");
    assert_eq!(point.kind, SecurityTag::DataAccess);
    assert_eq!(point.category.as_deref(), Some("data-read"));
}

#[test]
fn earlier_catalog_wins_over_data() {
    // listed for access control and for data: access control is checked first
    let ac = vec![sig_cat("x::Store::get", "authentication")];
    let data = vec![sig_cat("x::Store::get", "data-read")];
    let point = match_callsite("app::x::Store::get", "c", "bb0", &[], &ac, &data).unwrap();
    assert_eq!(point.kind, SecurityTag::AccessControl);
}

// ---- angle brackets ----

#[test]
fn matching_angle_is_a_byte_index() {
    assert_eq!(matching_angle("<a as b>::c"), Some(7));
    assert_eq!(matching_angle("<a<b>>c>"), Some(5));
    assert_eq!(matching_angle("<é>::m"), Some(3));
    assert_eq!(matching_angle("<a<b>"), None);
    assert_eq!(matching_angle(""), None);
    assert_eq!(matching_angle("a<b>"), None);
}

#[test]
fn split_is_at_the_first_top_level_as() {
    assert_eq!(split_as_top_level("T as C"), Some(("T", "C")));
    assert_eq!(split_as_top_level("T as C as D"), Some(("T", "C as D")));
    assert_eq!(
        split_as_top_level("<T as A>::B as C"),
        Some(("<T as A>::B", "C"))
    );
    assert_eq!(split_as_top_level("é as ü"), Some(("é", "ü")));
    assert_eq!(split_as_top_level("T<U as V>"), None);
    assert_eq!(split_as_top_level("Tas C"), None);
    assert_eq!(split_as_top_level("T> as C"), None);
    assert_eq!(split_as_top_level("T as"), None);
    assert_eq!(split_as_top_level(""), None);
}

#[test]
fn unbalanced_brackets_are_dropped() {
    assert_eq!(strip_turbofish("a>b"), "ab");
    assert_eq!(strip_turbofish("a<b"), "a");
    assert_eq!(strip_turbofish("a>>b<c>d"), "abd");
}

#[test]
fn generics_are_gone_and_stay_gone() {
    let once = strip_turbofish("a::B<C<D>, E>::f::<G>");
    assert_eq!(once, "a::B::f::");
    assert_eq!(strip_turbofish(&once), once);
    assert_eq!(strip_turbofish("ü::é"), "ü::é");
}

#[test]
fn balanced_segment_counts_for_nothing() {
    assert_eq!(
        strip_turbofish("app::Client<A<B>, C>::send"),
        strip_turbofish("app::Client::send")
    );
    assert_eq!(
        candidate_paths("app::Client<A<B>, C>::send"),
        candidate_paths("app::Client::send")
    );
}

#[test]
fn candidates_of_a_direct_call() {
    assert_eq!(
        candidate_paths("app::bcrypt::verify"),
        vec!["app::bcrypt::verify".to_string()]
    );
    assert_eq!(candidate_paths(""), vec!["".to_string()]);
}

#[test]
fn candidates_of_a_trait_call() {
    assert_eq!(
        candidate_paths("<a::Client<Config> as b::Exchange<Foo>>::run::<T>"),
        vec![
            "::run::".to_string(),
            "a::Client::run::".to_string(),
            "b::Exchange::run::".to_string(),
        ]
    );
    assert_eq!(
        candidate_paths("<a::Client>::run"),
        vec!["::run".to_string()]
    );
}

#[test]
fn arrows_close_no_bracket() {
    assert_eq!(
        candidate_paths("<fn() -> T as C>::m"),
        vec!["::m".to_string(), "fn() - T::m".to_string(), "C::m".to_string()]
    );
    assert_eq!(
        candidate_paths("<fn() -> app::B as app::Tr>::call")[2],
        "app::Tr::call"
    );
    assert_eq!(
        split_as_top_level("fn(A) -> B as Tr"),
        Some(("fn(A) -> B", "Tr"))
    );
    assert_eq!(strip_turbofish("B<fn()->C>::f"), "B::f");
    assert_eq!(strip_turbofish("fn() -> B<C>"), "fn() - B");
    assert_eq!(matching_angle("<fn() -> T>::m"), Some(10));
    assert_eq!(matching_angle("<->"), None);
    assert_eq!(matching_angle("<a->>"), Some(4));
    assert!(matches("<fn() -> app::B as app::Tr>::call", "Tr::call"));
}

// ---- short names ----

#[test]
fn short_name_is_the_last_two_segments() {
    assert_eq!(last_two("a::b::c"), "b::c");
    assert_eq!(last_two("b::c"), "b::c");
    assert_eq!(last_two("c"), "c");
    assert_eq!(last_two(""), "");
    assert_eq!(last_two("a::::c"), "::c");
    assert_eq!(last_two("a:::b::c"), "b::c");
    assert_eq!(last_two("a::b:::c"), "b:::c");
    assert_eq!(last_two("é::ü::ö"), "ü::ö");
    assert_eq!(last_two(last_two("a::b::c::d")), "c::d");
}

use rail_signature::{
    callee_symbol, find_security_points, BasicBlock, Callee, Function, Instruction, Module,
    SecurityPoint, SecurityTag, Signature, Terminator,
};

fn sig(fn_name: &str) -> Signature {
    Signature {
        fn_name: fn_name.to_string(),
        category: None,
        prompt_arg_index: None,
        prompt_role: None,
        result_index: None,
        request_index: None,
        behavior: None,
    }
}

fn global(name: &str) -> Callee {
    Callee::GlobalReference(name.to_string())
}

fn call(name: &str) -> Instruction {
    Instruction::Call(global(name))
}

fn first_function() -> Function {
    Function {
        name: "app::serve".to_string(),
        basic_blocks: vec![
            BasicBlock {
                name: "%start".to_string(),
                instrs: vec![
                    Instruction::Other,
                    call("%llm::Chat::create"),
                    Instruction::Call(Callee::InlineAssembly),
                    call("%app::unlisted"),
                    Instruction::Call(Callee::NonConstant),
                    Instruction::Call(Callee::OtherConstant),
                    call("%llm::Chat::stream"),
                ],
                term: Terminator::Invoke(global("%jwt::decode")),
            },
            BasicBlock {
                name: "%bb1".to_string(),
                instrs: vec![call("%sqlx::Query::fetch")],
                term: Terminator::Other,
            },
        ],
    }
}

fn second_function() -> Function {
    Function {
        name: "_ZN3app5login17h05af221e174051e9E".to_string(),
        basic_blocks: vec![BasicBlock {
            name: "%0".to_string(),
            instrs: vec![],
            term: Terminator::Invoke(global("%_ZN3jwt6decode17h05af221e174051e9E")),
        }],
    }
}

fn scan(functions: Vec<Function>) -> Vec<SecurityPoint> {
    find_security_points(
        &Module { functions },
        &[sig("llm::Chat::create"), sig("llm::Chat::stream")],
        &[sig("jwt::decode")],
        &[sig("sqlx::Query::fetch")],
    )
}

fn summary(points: &[SecurityPoint]) -> Vec<(SecurityTag, String, String, String)> {
    points
        .iter()
        .map(|p| (p.kind.clone(), p.caller.clone(), p.block.clone(), p.callee.clone()))
        .collect()
}

fn row(kind: SecurityTag, caller: &str, block: &str, callee: &str) -> (SecurityTag, String, String, String) {
    (kind, caller.to_string(), block.to_string(), callee.to_string())
}

#[test]
fn calls_and_invokes_are_found_in_order() {
    assert_eq!(
        summary(&scan(vec![first_function(), second_function()])),
        vec![
            row(SecurityTag::LLMAPICalls, "app::serve", "%start", "llm::Chat::create"),
            row(SecurityTag::LLMAPICalls, "app::serve", "%start", "llm::Chat::stream"),
            row(SecurityTag::AccessControl, "app::serve", "%start", "jwt::decode"),
            row(SecurityTag::DataAccess, "app::serve", "%bb1", "sqlx::Query::fetch"),
            row(SecurityTag::AccessControl, "app::login", "%0", "jwt::decode"),
        ]
    );
}

#[test]
fn functions_are_scanned_apart() {
    let mut apart = summary(&scan(vec![first_function()]));
    apart.extend(summary(&scan(vec![second_function()])));
    assert_eq!(summary(&scan(vec![first_function(), second_function()])), apart);
}

#[test]
fn empty_module_and_empty_catalogs_have_no_points() {
    assert_eq!(scan(vec![]).len(), 0);
    let module = Module {
        functions: vec![first_function(), second_function()],
    };
    assert_eq!(find_security_points(&module, &[], &[], &[]).len(), 0);
}

#[test]
fn only_direct_references_have_a_symbol() {
    assert_eq!(callee_symbol(&global("%\"f\"")).as_deref(), Some("f"));
    assert_eq!(callee_symbol(&Callee::InlineAssembly), None);
    assert_eq!(callee_symbol(&Callee::OtherConstant), None);
    assert_eq!(callee_symbol(&Callee::NonConstant), None);
}

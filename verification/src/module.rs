//! Finding the call sites of a module that the catalogs list.

use crate::matching;
use crate::matching::match_callsite;
use crate::signature;
use crate::signature::{SecurityPoint, Signature};
use crate::symbol;
use crate::symbol::strip_symbol;
use vstd::prelude::*;

verus! {

/// What a call or an invoke calls.
#[derive(Debug)]
pub enum Callee {
    InlineAssembly,
    /// A function or variable of the module, by its name as displayed.
    GlobalReference(String),
    /// A constant other than a reference to a global.
    OtherConstant,
    /// An operand that is no constant, such as a function pointer.
    NonConstant,
}

/// An instruction that does not end a block.
#[derive(Debug)]
pub enum Instruction {
    Call(Callee),
    Other,
}

/// The instruction that ends a block.
#[derive(Debug)]
pub enum Terminator {
    Invoke(Callee),
    Other,
}

/// A run of instructions, under its name as displayed.
#[derive(Debug)]
pub struct BasicBlock {
    pub name: String,
    pub instrs: Vec<Instruction>,
    pub term: Terminator,
}

/// A function that the module defines.
#[derive(Debug)]
pub struct Function {
    pub name: String,
    pub basic_blocks: Vec<BasicBlock>,
}

/// The functions of an LLVM module, with the calls that they make.
#[derive(Debug)]
pub struct Module {
    pub functions: Vec<Function>,
}

/// The three catalogs to search.
pub struct Catalogs {
    pub llm: Seq<signature::SignatureView>,
    pub ac: Seq<signature::SignatureView>,
    pub data: Seq<signature::SignatureView>,
}

/// The catalogs that three lists of signatures make up.
pub open spec fn catalogs_of(
    llm: Seq<Signature>,
    ac: Seq<Signature>,
    data: Seq<Signature>,
) -> Catalogs {
    Catalogs {
        llm: signature::signature_views(llm),
        ac: signature::signature_views(ac),
        data: signature::signature_views(data),
    }
}

/// The symbol that is called, if the call refers to a global directly.
pub open spec fn symbol_of(callee: Callee) -> Option<Seq<char>> {
    match callee {
        Callee::GlobalReference(name) => Some(symbol::bare_symbol(name@)),
        _ => None,
    }
}

/// The point at a call of `callee` in the given block of `caller`, if it is one.
pub open spec fn callee_points(
    callee: Callee,
    caller: Seq<char>,
    block: Seq<char>,
    catalogs: Catalogs,
) -> Seq<signature::SecurityPointView> {
    match symbol_of(callee) {
        Some(name) => match matching::callsite_point(
            name,
            caller,
            block,
            catalogs.llm,
            catalogs.ac,
            catalogs.data,
        ) {
            Some(point) => seq![point],
            None => seq![],
        },
        None => seq![],
    }
}

/// The points at the calls among `instrs`, in order.
pub open spec fn instr_points(
    instrs: Seq<Instruction>,
    caller: Seq<char>,
    block: Seq<char>,
    catalogs: Catalogs,
) -> Seq<signature::SecurityPointView>
    decreases instrs.len(),
{
    if instrs.len() == 0 {
        seq![]
    } else {
        instr_points(instrs.drop_last(), caller, block, catalogs) + match instrs.last() {
            Instruction::Call(callee) => callee_points(callee, caller, block, catalogs),
            Instruction::Other => seq![],
        }
    }
}

/// The points of a block: those at its calls, then the one at its invoke.
pub open spec fn block_points(
    block: BasicBlock,
    caller: Seq<char>,
    catalogs: Catalogs,
) -> Seq<signature::SecurityPointView> {
    instr_points(block.instrs@, caller, block.name@, catalogs) + match block.term {
        Terminator::Invoke(callee) => callee_points(callee, caller, block.name@, catalogs),
        Terminator::Other => seq![],
    }
}

/// The points of a run of blocks, in order.
pub open spec fn blocks_points(
    blocks: Seq<BasicBlock>,
    caller: Seq<char>,
    catalogs: Catalogs,
) -> Seq<signature::SecurityPointView>
    decreases blocks.len(),
{
    if blocks.len() == 0 {
        seq![]
    } else {
        blocks_points(blocks.drop_last(), caller, catalogs) + block_points(
            blocks.last(),
            caller,
            catalogs,
        )
    }
}

/// The points of a run of functions, in order.
pub open spec fn functions_points(functions: Seq<Function>, catalogs: Catalogs) -> Seq<
    signature::SecurityPointView,
>
    decreases functions.len(),
{
    if functions.len() == 0 {
        seq![]
    } else {
        functions_points(functions.drop_last(), catalogs) + blocks_points(
            functions.last().basic_blocks@,
            functions.last().name@,
            catalogs,
        )
    }
}

/// The symbol that is called, if the call refers to a global directly.
pub fn callee_symbol(callee: &Callee) -> (r: Option<String>)
    ensures
        r.deep_view() == symbol_of(*callee),
{
    match callee {
        Callee::GlobalReference(name) => Some(strip_symbol(name.as_str())),
        _ => None,
    }
}

/// Appends the point at a call of `callee`, if it is one.
fn scan_callee(
    callee: &Callee,
    caller: &str,
    block: &str,
    llm: &[Signature],
    ac: &[Signature],
    data: &[Signature],
    points: &mut Vec<SecurityPoint>,
)
    ensures
        signature::point_views(final(points)@) == signature::point_views(old(points)@)
            + callee_points(*callee, caller@, block@, catalogs_of(llm@, ac@, data@)),
{
    let ghost before = points@;
    if let Some(name) = callee_symbol(callee) {
        if let Some(point) = match_callsite(name.as_str(), caller, block, llm, ac, data) {
            points.push(point);
            assert(signature::point_views(points@) == signature::point_views(before) + seq![
                point@,
            ]);
        }
    }
    assert(signature::point_views(before) + seq![] == signature::point_views(before));
}

/// Appends the points of a block.
fn scan_block(
    block: &BasicBlock,
    caller: &str,
    llm: &[Signature],
    ac: &[Signature],
    data: &[Signature],
    points: &mut Vec<SecurityPoint>,
)
    ensures
        signature::point_views(final(points)@) == signature::point_views(old(points)@)
            + block_points(*block, caller@, catalogs_of(llm@, ac@, data@)),
{
    let ghost before = signature::point_views(points@);
    let ghost catalogs = catalogs_of(llm@, ac@, data@);
    let ghost instrs = block.instrs@;
    let mut i: usize = 0;
    assert(instrs.take(0) == Seq::<Instruction>::empty());
    assert(before + seq![] == before);
    while i < block.instrs.len()
        invariant
            i <= instrs.len(),
            instrs == block.instrs@,
            catalogs == catalogs_of(llm@, ac@, data@),
            signature::point_views(points@) == before + instr_points(
                instrs.take(i as int),
                caller@,
                block.name@,
                catalogs,
            ),
        decreases instrs.len() - i,
    {
        assert(instrs.take(i + 1).drop_last() == instrs.take(i as int));
        if let Instruction::Call(callee) = &block.instrs[i] {
            scan_callee(callee, caller, block.name.as_str(), llm, ac, data, points);
        }
        assert(signature::point_views(points@) == before + instr_points(
            instrs.take(i + 1),
            caller@,
            block.name@,
            catalogs,
        ));
        i += 1;
    }
    assert(instrs.take(instrs.len() as int) == instrs);
    if let Terminator::Invoke(callee) = &block.term {
        scan_callee(callee, caller, block.name.as_str(), llm, ac, data, points);
    }
    assert(signature::point_views(points@) == before + block_points(*block, caller@, catalogs));
}

/// Appends the points of a function.
fn scan_function(
    function: &Function,
    llm: &[Signature],
    ac: &[Signature],
    data: &[Signature],
    points: &mut Vec<SecurityPoint>,
)
    ensures
        signature::point_views(final(points)@) == signature::point_views(old(points)@)
            + blocks_points(
            function.basic_blocks@,
            function.name@,
            catalogs_of(llm@, ac@, data@),
        ),
{
    let ghost before = signature::point_views(points@);
    let ghost catalogs = catalogs_of(llm@, ac@, data@);
    let ghost blocks = function.basic_blocks@;
    let mut i: usize = 0;
    assert(blocks.take(0) == Seq::<BasicBlock>::empty());
    assert(before + seq![] == before);
    while i < function.basic_blocks.len()
        invariant
            i <= blocks.len(),
            blocks == function.basic_blocks@,
            catalogs == catalogs_of(llm@, ac@, data@),
            signature::point_views(points@) == before + blocks_points(
                blocks.take(i as int),
                function.name@,
                catalogs,
            ),
        decreases blocks.len() - i,
    {
        assert(blocks.take(i + 1).drop_last() == blocks.take(i as int));
        scan_block(&function.basic_blocks[i], function.name.as_str(), llm, ac, data, points);
        assert(signature::point_views(points@) == before + blocks_points(
            blocks.take(i + 1),
            function.name@,
            catalogs,
        ));
        i += 1;
    }
    assert(blocks.take(blocks.len() as int) == blocks);
}

/// Scans every call and invoke of the module and records those whose callee
/// a catalog lists, in the order in which they stand.
pub fn find_security_points(
    module: &Module,
    llm: &[Signature],
    ac: &[Signature],
    data: &[Signature],
) -> (r: Vec<SecurityPoint>)
    ensures
        signature::point_views(r@) == functions_points(
            module.functions@,
            catalogs_of(llm@, ac@, data@),
        ),
{
    let ghost catalogs = catalogs_of(llm@, ac@, data@);
    let ghost functions = module.functions@;
    let mut points: Vec<SecurityPoint> = Vec::new();
    let mut i: usize = 0;
    assert(functions.take(0) == Seq::<Function>::empty());
    assert(signature::point_views(points@) == Seq::<signature::SecurityPointView>::empty());
    while i < module.functions.len()
        invariant
            i <= functions.len(),
            functions == module.functions@,
            catalogs == catalogs_of(llm@, ac@, data@),
            signature::point_views(points@) == functions_points(
                functions.take(i as int),
                catalogs,
            ),
        decreases functions.len() - i,
    {
        assert(functions.take(i + 1).drop_last() == functions.take(i as int));
        scan_function(&module.functions[i], llm, ac, data, &mut points);
        i += 1;
    }
    assert(functions.take(functions.len() as int) == functions);
    points
}

} // verus!

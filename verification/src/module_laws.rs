//! Laws of scanning a module.

use crate::matching;
use crate::matching_laws;
use crate::module;
use crate::module::{BasicBlock, Callee, Function, Instruction, Terminator};
use crate::search;
use crate::signature;
use crate::signature::Signature;
use crate::symbol;
use vstd::prelude::*;

verus! {

/// Law: the points of two runs of functions are those of the first and then
/// those of the second.
pub proof fn law_functions_are_scanned_apart(
    a: Seq<Function>,
    b: Seq<Function>,
    catalogs: module::Catalogs,
)
    ensures
        module::functions_points(a + b, catalogs) == module::functions_points(a, catalogs)
            + module::functions_points(b, catalogs),
    decreases b.len(),
{
    if b.len() == 0 {
        assert(a + b == a);
        assert(module::functions_points(a, catalogs) + seq![] == module::functions_points(
            a,
            catalogs,
        ));
    } else {
        law_functions_are_scanned_apart(a, b.drop_last(), catalogs);
        assert((a + b).drop_last() == a + b.drop_last());
        assert(module::functions_points(a + b, catalogs) == module::functions_points(a, catalogs)
            + module::functions_points(b, catalogs));
    }
}

/// Whether a block calls or invokes `callee`.
pub open spec fn calls(block: BasicBlock, callee: Callee) -> bool {
    ||| exists|i: int|
        0 <= i < block.instrs@.len() && #[trigger] block.instrs@[i] == Instruction::Call(callee)
    ||| block.term == Terminator::Invoke(callee)
}

/// Whether `point` is the point at a call of `callee` in a block of `caller`.
pub open spec fn is_point_at(
    point: signature::SecurityPointView,
    callee: Callee,
    caller: Seq<char>,
    block: Seq<char>,
    catalogs: module::Catalogs,
) -> bool {
    module::callee_points(callee, caller, block, catalogs) == seq![point]
}

/// Whether `point` is the point at a call that a block makes.
pub open spec fn is_in_block(
    point: signature::SecurityPointView,
    block: BasicBlock,
    caller: Seq<char>,
    catalogs: module::Catalogs,
) -> bool {
    exists|callee: Callee| #[trigger]
        calls(block, callee) && is_point_at(point, callee, caller, block.name@, catalogs)
}

/// A call site has the one point or none.
proof fn lemma_callee_points(
    point: signature::SecurityPointView,
    callee: Callee,
    caller: Seq<char>,
    block: Seq<char>,
    catalogs: module::Catalogs,
)
    ensures
        module::callee_points(callee, caller, block, catalogs).contains(point) == is_point_at(
            point,
            callee,
            caller,
            block,
            catalogs,
        ),
{
    let points = module::callee_points(callee, caller, block, catalogs);
    if points.contains(point) {
        assert(points == seq![point]);
    }
    if is_point_at(point, callee, caller, block, catalogs) {
        assert(points[0] == point);
    }
}

/// An element of a concatenation is an element of one of its parts.
proof fn lemma_contains_concat<T>(a: Seq<T>, b: Seq<T>, x: T)
    ensures
        (a + b).contains(x) == (a.contains(x) || b.contains(x)),
{
    if a.contains(x) {
        let i = a.index_of(x);
        assert((a + b)[i] == x);
    }
    if b.contains(x) {
        let i = b.index_of(x);
        assert((a + b)[a.len() + i] == x);
    }
    if (a + b).contains(x) {
        let i = (a + b).index_of(x);
        if i < a.len() {
            assert(a[i] == x);
        } else {
            assert(b[i - a.len()] == x);
        }
    }
}

/// The points of a run of instructions are those at its calls.
proof fn lemma_instr_points(
    point: signature::SecurityPointView,
    instrs: Seq<Instruction>,
    caller: Seq<char>,
    block: Seq<char>,
    catalogs: module::Catalogs,
)
    ensures
        module::instr_points(instrs, caller, block, catalogs).contains(point) <==> exists|i: int|
            0 <= i < instrs.len() && (#[trigger] instrs[i] matches Instruction::Call(callee)
                && is_point_at(point, callee, caller, block, catalogs)),
    decreases instrs.len(),
{
    if instrs.len() > 0 {
        let front = instrs.drop_last();
        let last = instrs.last();
        let added = match last {
            Instruction::Call(callee) => module::callee_points(callee, caller, block, catalogs),
            Instruction::Other => seq![],
        };
        lemma_instr_points(point, front, caller, block, catalogs);
        lemma_contains_concat(
            module::instr_points(front, caller, block, catalogs),
            added,
            point,
        );
        if let Instruction::Call(callee) = last {
            lemma_callee_points(point, callee, caller, block, catalogs);
        }
        assert(instrs[instrs.len() - 1] == last);
        assert(forall|i: int| 0 <= i < front.len() ==> #[trigger] front[i] == instrs[i]);
        if exists|i: int|
            0 <= i < instrs.len() && (#[trigger] instrs[i] matches Instruction::Call(callee)
                && is_point_at(point, callee, caller, block, catalogs)) {
            let i = choose|i: int|
                0 <= i < instrs.len() && (#[trigger] instrs[i] matches Instruction::Call(callee)
                    && is_point_at(point, callee, caller, block, catalogs));
            if i < front.len() {
                assert(front[i] == instrs[i]);
            }
        }
    }
}

/// The points of a block are those at its calls and its invoke.
proof fn lemma_block_points(
    point: signature::SecurityPointView,
    block: BasicBlock,
    caller: Seq<char>,
    catalogs: module::Catalogs,
)
    ensures
        module::block_points(block, caller, catalogs).contains(point) == is_in_block(
            point,
            block,
            caller,
            catalogs,
        ),
{
    let first = module::instr_points(block.instrs@, caller, block.name@, catalogs);
    let second = match block.term {
        Terminator::Invoke(callee) => module::callee_points(
            callee,
            caller,
            block.name@,
            catalogs,
        ),
        Terminator::Other => seq![],
    };
    lemma_instr_points(point, block.instrs@, caller, block.name@, catalogs);
    lemma_contains_concat(first, second, point);
    if let Terminator::Invoke(callee) = block.term {
        lemma_callee_points(point, callee, caller, block.name@, catalogs);
        assert(calls(block, callee));
    }
    if first.contains(point) {
        let i = choose|i: int|
            0 <= i < block.instrs@.len() && (
            #[trigger] block.instrs@[i] matches Instruction::Call(callee) && is_point_at(
                point,
                callee,
                caller,
                block.name@,
                catalogs,
            ));
        if let Instruction::Call(callee) = block.instrs@[i] {
            assert(calls(block, callee));
        }
    }
}

/// The points of a run of blocks are those of its blocks.
proof fn lemma_blocks_points(
    point: signature::SecurityPointView,
    blocks: Seq<BasicBlock>,
    caller: Seq<char>,
    catalogs: module::Catalogs,
)
    ensures
        module::blocks_points(blocks, caller, catalogs).contains(point) <==> exists|b: int|
            0 <= b < blocks.len() && is_in_block(point, #[trigger] blocks[b], caller, catalogs),
    decreases blocks.len(),
{
    if blocks.len() > 0 {
        let front = blocks.drop_last();
        lemma_blocks_points(point, front, caller, catalogs);
        lemma_block_points(point, blocks.last(), caller, catalogs);
        lemma_contains_concat(
            module::blocks_points(front, caller, catalogs),
            module::block_points(blocks.last(), caller, catalogs),
            point,
        );
        assert(blocks[blocks.len() - 1] == blocks.last());
        assert(forall|b: int| 0 <= b < front.len() ==> #[trigger] front[b] == blocks[b]);
        if exists|b: int|
            0 <= b < blocks.len() && is_in_block(point, #[trigger] blocks[b], caller, catalogs) {
            let b = choose|b: int|
                0 <= b < blocks.len() && is_in_block(point, #[trigger] blocks[b], caller, catalogs);
            if b < front.len() {
                assert(front[b] == blocks[b]);
            }
        }
    }
}

/// Law: every call and invoke is scanned and nothing else is recorded: a point
/// is found if and only if it is the point at a call or an invoke that some
/// block of some function makes.
pub proof fn law_points_are_at_calls(
    point: signature::SecurityPointView,
    functions: Seq<Function>,
    catalogs: module::Catalogs,
)
    ensures
        module::functions_points(functions, catalogs).contains(point) <==> exists|f: int, b: int|
            0 <= f < functions.len() && 0 <= b < functions[f].basic_blocks@.len() && is_in_block(
                point,
                #[trigger] functions[f].basic_blocks@[b],
                functions[f].name@,
                catalogs,
            ),
    decreases functions.len(),
{
    if functions.len() > 0 {
        let front = functions.drop_last();
        let last = functions.last();
        let end = functions.len() - 1;
        law_points_are_at_calls(point, front, catalogs);
        lemma_blocks_points(point, last.basic_blocks@, last.name@, catalogs);
        lemma_contains_concat(
            module::functions_points(front, catalogs),
            module::blocks_points(last.basic_blocks@, last.name@, catalogs),
            point,
        );
        assert(functions[end] == last);
        assert(forall|f: int| 0 <= f < front.len() ==> #[trigger] front[f] == functions[f]);
        if module::functions_points(front, catalogs).contains(point) {
            let (f, b) = choose|f: int, b: int|
                0 <= f < front.len() && 0 <= b < front[f].basic_blocks@.len() && is_in_block(
                    point,
                    #[trigger] front[f].basic_blocks@[b],
                    front[f].name@,
                    catalogs,
                );
            assert(is_in_block(
                point,
                functions[f].basic_blocks@[b],
                functions[f].name@,
                catalogs,
            ));
        }
        if module::blocks_points(last.basic_blocks@, last.name@, catalogs).contains(point) {
            let b = choose|b: int|
                0 <= b < last.basic_blocks@.len() && is_in_block(
                    point,
                    #[trigger] last.basic_blocks@[b],
                    last.name@,
                    catalogs,
                );
            assert(is_in_block(
                point,
                functions[end].basic_blocks@[b],
                functions[end].name@,
                catalogs,
            ));
        }
        if exists|f: int, b: int|
            0 <= f < functions.len() && 0 <= b < functions[f].basic_blocks@.len() && is_in_block(
                point,
                #[trigger] functions[f].basic_blocks@[b],
                functions[f].name@,
                catalogs,
            ) {
            let (f, b) = choose|f: int, b: int|
                0 <= f < functions.len() && 0 <= b < functions[f].basic_blocks@.len()
                    && is_in_block(
                    point,
                    #[trigger] functions[f].basic_blocks@[b],
                    functions[f].name@,
                    catalogs,
                );
            if f < front.len() {
                assert(is_in_block(
                    point,
                    front[f].basic_blocks@[b],
                    front[f].name@,
                    catalogs,
                ));
            } else {
                assert(is_in_block(point, last.basic_blocks@[b], last.name@, catalogs));
            }
        }
    }
}

/// The name that a call refers to, as it is matched against the catalogs.
pub open spec fn called_name(callee: Callee) -> Seq<char> {
    match module::symbol_of(callee) {
        Some(name) => symbol::bare_symbol(name),
        None => seq![],
    }
}

/// The point at a call whose callee is matched as it stands.
pub open spec fn plain_callee_points(
    callee: Callee,
    caller: Seq<char>,
    block: Seq<char>,
    catalogs: module::Catalogs,
) -> Seq<signature::SecurityPointView> {
    match module::symbol_of(callee) {
        Some(_) => match matching::demangled_point(
            called_name(callee),
            symbol::readable(symbol::bare_symbol(caller)),
            block,
            catalogs.llm,
            catalogs.ac,
            catalogs.data,
        ) {
            Some(point) => seq![point],
            None => seq![],
        },
        None => seq![],
    }
}

/// Law: a call of a plain symbol is matched as it stands, whoever makes it, and
/// a plain caller is recorded as it stands.
pub proof fn law_plain_symbols_are_matched_as_they_stand(
    callee: Callee,
    caller: Seq<char>,
    block: Seq<char>,
    catalogs: module::Catalogs,
)
    requires
        symbol::is_plain_symbol(called_name(callee)),
    ensures
        module::callee_points(callee, caller, block, catalogs) == plain_callee_points(
            callee,
            caller,
            block,
            catalogs,
        ),
        symbol::is_plain_symbol(symbol::bare_symbol(caller)) ==> symbol::readable(
            symbol::bare_symbol(caller),
        ) == symbol::bare_symbol(caller),
{
}

/// Law: a call of inline assembly or through an operand that is no global has
/// no symbol and no point.
pub proof fn law_indirect_calls_have_no_point(
    callee: Callee,
    caller: Seq<char>,
    block: Seq<char>,
    catalogs: module::Catalogs,
)
    requires
        !(callee is GlobalReference),
    ensures
        module::symbol_of(callee) is None,
        module::callee_points(callee, caller, block, catalogs).len() == 0,
{
}

/// What the point at a call is: the one of the call between the two names as
/// they read, or none.
pub open spec fn point_of_call(
    callee: Callee,
    caller: Seq<char>,
    block: Seq<char>,
    catalogs: module::Catalogs,
) -> Option<signature::SecurityPointView> {
    match callee {
        Callee::GlobalReference(name) => matching::demangled_point(
            matching_laws::shown(symbol::bare_symbol(name@)),
            matching_laws::shown(caller),
            block,
            catalogs.llm,
            catalogs.ac,
            catalogs.data,
        ),
        _ => None,
    }
}

/// A list of what is there.
pub open spec fn listed(point: Option<signature::SecurityPointView>) -> Seq<
    signature::SecurityPointView,
> {
    match point {
        Some(p) => seq![p],
        None => seq![],
    }
}

/// Law: at every call of a global, whatever its symbol is, there is exactly the
/// point of the call between the names that callee and caller read as, or none
/// where that call has none. A symbol that is not plain reads as it demangles.
pub proof fn law_every_call_of_a_global_is_matched(
    name: String,
    caller: Seq<char>,
    block: Seq<char>,
    catalogs: module::Catalogs,
)
    ensures
        ({
            let callee = symbol::bare_symbol(symbol::bare_symbol(name@));
            let from = symbol::bare_symbol(caller);
            let point = matching::demangled_point(
                if symbol::is_plain_symbol(callee) {
                    callee
                } else {
                    symbol::demangled(callee)
                },
                if symbol::is_plain_symbol(from) {
                    from
                } else {
                    symbol::demangled(from)
                },
                block,
                catalogs.llm,
                catalogs.ac,
                catalogs.data,
            );
            let points = module::callee_points(
                Callee::GlobalReference(name),
                caller,
                block,
                catalogs,
            );
            &&& module::symbol_of(Callee::GlobalReference(name)) == Some(
                symbol::bare_symbol(name@),
            )
            &&& point is Some ==> points == seq![point->0]
            &&& point is None ==> points.len() == 0
        }),
{
}

/// The points of a block: at each of its instructions in order, then at the
/// terminator.
pub open spec fn points_in_block(
    block: BasicBlock,
    caller: Seq<char>,
    catalogs: module::Catalogs,
) -> Seq<signature::SecurityPointView> {
    block.instrs@.map_values(
        |instr: Instruction|
            match instr {
                Instruction::Call(callee) => listed(
                    point_of_call(callee, caller, block.name@, catalogs),
                ),
                Instruction::Other => seq![],
            },
    ).flatten() + match block.term {
        Terminator::Invoke(callee) => listed(
            point_of_call(callee, caller, block.name@, catalogs),
        ),
        Terminator::Other => seq![],
    }
}

/// The points of a function: those of its blocks in order, each under the name
/// of the function.
pub open spec fn points_in_function(function: Function, catalogs: module::Catalogs) -> Seq<
    signature::SecurityPointView,
> {
    function.basic_blocks@.map_values(
        |block: BasicBlock| points_in_block(block, function.name@, catalogs),
    ).flatten()
}

/// The points of a run of instructions are those at each of them, in order.
proof fn lemma_instrs_in_order(
    instrs: Seq<Instruction>,
    caller: Seq<char>,
    block: Seq<char>,
    catalogs: module::Catalogs,
    f: spec_fn(Instruction) -> Seq<signature::SecurityPointView>,
)
    requires
        forall|instr: Instruction| #[trigger]
            f(instr) == match instr {
                Instruction::Call(callee) => listed(point_of_call(callee, caller, block, catalogs)),
                Instruction::Other => seq![],
            },
    ensures
        module::instr_points(instrs, caller, block, catalogs) == instrs.map_values(f).flatten(),
    decreases instrs.len(),
{
    search::lemma_flatten_last(instrs, f);
    if instrs.len() > 0 {
        lemma_instrs_in_order(instrs.drop_last(), caller, block, catalogs, f);
        lemma_call_points(instrs.last(), caller, block, catalogs);
    }
}

/// What stands at an instruction.
proof fn lemma_call_points(
    instr: Instruction,
    caller: Seq<char>,
    block: Seq<char>,
    catalogs: module::Catalogs,
)
    ensures
        match instr {
            Instruction::Call(callee) => module::callee_points(callee, caller, block, catalogs)
                == listed(point_of_call(callee, caller, block, catalogs)),
            Instruction::Other => true,
        },
{
}

/// The points of a block in order.
proof fn lemma_block_in_order(block: BasicBlock, caller: Seq<char>, catalogs: module::Catalogs)
    ensures
        module::block_points(block, caller, catalogs) == points_in_block(block, caller, catalogs),
{
    let f = |instr: Instruction|
        match instr {
            Instruction::Call(callee) => listed(
                point_of_call(callee, caller, block.name@, catalogs),
            ),
            Instruction::Other => seq![],
        };
    lemma_instrs_in_order(block.instrs@, caller, block.name@, catalogs, f);
    if let Terminator::Invoke(callee) = block.term {
        lemma_call_points(Instruction::Call(callee), caller, block.name@, catalogs);
    }
}

/// The points of a run of blocks in order.
proof fn lemma_blocks_in_order(
    blocks: Seq<BasicBlock>,
    caller: Seq<char>,
    catalogs: module::Catalogs,
)
    ensures
        module::blocks_points(blocks, caller, catalogs) == blocks.map_values(
            |block: BasicBlock| points_in_block(block, caller, catalogs),
        ).flatten(),
    decreases blocks.len(),
{
    let f = |block: BasicBlock| points_in_block(block, caller, catalogs);
    search::lemma_flatten_last(blocks, f);
    if blocks.len() > 0 {
        lemma_blocks_in_order(blocks.drop_last(), caller, catalogs);
        lemma_block_in_order(blocks.last(), caller, catalogs);
    }
}

/// Law: the points of a module are those at the calls of its functions, block
/// by block and instruction by instruction as they stand, with the invoke of a
/// block behind its calls; each names its own block and function.
pub proof fn law_points_stand_in_order(functions: Seq<Function>, catalogs: module::Catalogs)
    ensures
        module::functions_points(functions, catalogs) == functions.map_values(
            |function: Function| points_in_function(function, catalogs),
        ).flatten(),
    decreases functions.len(),
{
    let f = |function: Function| points_in_function(function, catalogs);
    search::lemma_flatten_last(functions, f);
    if functions.len() > 0 {
        let last = functions.last();
        law_points_stand_in_order(functions.drop_last(), catalogs);
        lemma_blocks_in_order(last.basic_blocks@, last.name@, catalogs);
    }
}

/// Law: each list of signatures is searched as the catalog that it is given as,
/// in its own order.
pub proof fn law_catalogs_are_searched_as_given(
    llm: Seq<Signature>,
    ac: Seq<Signature>,
    data: Seq<Signature>,
)
    ensures
        ({
            let catalogs = module::catalogs_of(llm, ac, data);
            &&& catalogs.llm.len() == llm.len()
            &&& catalogs.ac.len() == ac.len()
            &&& catalogs.data.len() == data.len()
            &&& forall|i: int| 0 <= i < llm.len() ==> #[trigger] catalogs.llm[i] == llm[i]@
            &&& forall|i: int| 0 <= i < ac.len() ==> #[trigger] catalogs.ac[i] == ac[i]@
            &&& forall|i: int| 0 <= i < data.len() ==> #[trigger] catalogs.data[i] == data[i]@
        }),
{
}

} // verus!

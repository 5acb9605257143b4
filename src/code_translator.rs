//! This module contains the bulk of the interesting code performing the translation between
//! WebAssembly and the IR.
//!
//! The translation is done in one pass, opcode by opcode. Two main data structures are used
//! during code translations: the value stack and the control stack. The value stack mimics the
//! execution of the WebAssembly stack machine: each instruction result is pushed onto the stack
//! and instruction arguments are popped off the stack. Similarly, when encountering a control
//! flow block, it is pushed onto the control stack and popped off when encountering the
//! corresponding `End`.
//!
//! Another data structure, the translation state, records information concerning unreachable
//! code status.
//!
//! Some of the WebAssembly instructions need information about the environment for which they
//! are being translated:
//!
//! - the loads and stores need the memory base address;
//! - the `get_global` and `set_global` instructions depend on how the globals are implemented;
//! - `current_memory` and `grow_memory` are runtime functions;
//! - `call_indirect` has to translate the function index into the address of where this is.
use vstd::prelude::*;
use crate::builder::{InstNode, insts_extend, lemma_no_params, lemma_predecessor_kept, FunctionBuilder};
use crate::environ::{FuncEnvironment, GlobalValue};
use crate::ir::{Ebb, Heap, Inst, InstData, Type, Value, ValueDef, IntCC, TrapCode, LoadOpcode, StoreOpcode};
use crate::operator::{
    block_value_type,    binary_opcode, binary_opcode_of, block_arity, conversion, conversion_of, float_compare,
    float_compare_of, int_compare, int_compare_of, is_saturating, load_kind, load_kind_of,
    memarg, memarg_of, num_return_values, store_kind, store_kind_of, type_to_type,
    unary_opcode, unary_opcode_of, Operator, BlockType,
};
use crate::state::{
    params_kept, lemma_params_kept, lemma_params_push, lemma_blocks_kept, lemma_blocks_pop, lemma_blocks_push,
    lemma_blocks_sealed_new, lemma_marked_same_blocks, same_blocks, sig_normal_args,
    ControlStackFrame, TranslationState,
};

verus! {

/// The smallest of `default` and the `targets`.
pub open spec fn min_depth(targets: Seq<u32>, default: u32) -> u32
    decreases targets.len(),
{
    if targets.len() == 0 {
        default
    } else {
        let m = min_depth(targets.drop_last(), default);
        if targets.last() < m {
            targets.last()
        } else {
            m
        }
    }
}

/// The minimum is one of the depths and bounds all of them.
pub proof fn lemma_min_depth(targets: Seq<u32>, default: u32)
    ensures
        min_depth(targets, default) <= default,
        forall|j: int| 0 <= j < targets.len() ==> min_depth(targets, default) <= #[trigger] targets[j],
        min_depth(targets, default) == default || exists|j: int|
            0 <= j < targets.len() && #[trigger] targets[j] == min_depth(targets, default),
    decreases targets.len(),
{
    if targets.len() > 0 {
        let prev = targets.drop_last();
        lemma_min_depth(prev, default);
        assert forall|j: int| 0 <= j < targets.len() implies min_depth(targets, default) <= #[trigger] targets[j] by {
            if j < targets.len() - 1 {
                assert(prev[j] == targets[j]);
            }
        }
        if min_depth(targets, default) != default && min_depth(targets, default) != targets.last() {
            let j = choose|j: int| 0 <= j < prev.len() && #[trigger] prev[j] == min_depth(prev, default);
            assert(targets[j] == prev[j]);
        }
        if min_depth(targets, default) == targets.last() {
            assert(targets[targets.len() - 1] == targets.last());
        }
    }
}

/// How many operand values of the innermost frame are on the stack.
pub open spec fn available(s: &TranslationState) -> int {
    s.stack.len() - s.top().stack_size()
}

/// The loads and stores need a heap for memory 0 with guard pages.
pub open spec fn heap0_ok(env: &FuncEnvironment) -> bool {
    env.memory_guard_sizes.len() > 0 && env.memory_guard_sizes@[0] > 0
}

/// Whether `op` may be translated in reachable code: the values it takes are on the stack, the
/// frames and entities it names exist, and it is supported.
pub open spec fn reachable_op_ok(s: &TranslationState, env: &FuncEnvironment, op: Operator) -> bool {
    let avail = available(s);
    let n = s.control_stack.len();
    match op {
        Operator::Unreachable => true,
        Operator::Nop => true,
        Operator::Block { .. } => true,
        Operator::Loop { .. } => true,
        Operator::If { .. } => avail >= 1,
        Operator::Else => s.top() is If && avail >= s.top().return_count(),
        Operator::End => avail >= s.top().return_count(),
        Operator::Br { relative_depth } => relative_depth < n && avail >= s.frame_at(
            relative_depth as int,
        ).branch_args(),
        Operator::BrIf { relative_depth } => relative_depth < n && avail >= 1 + s.frame_at(
            relative_depth as int,
        ).branch_args(),
        Operator::BrTable { targets, default } => default < n && (forall|j: int|
            0 <= j < targets.len() ==> #[trigger] targets@[j] < n) && avail >= 1 + s.frame_at(
            min_depth(targets@, default) as int,
        ).branch_args(),
        Operator::Return => avail >= s.control_stack@[0].return_count(),
        Operator::Call { function_index } => function_index < env.functions.len() && avail
            >= sig_normal_args(env.signatures@[env.functions@[function_index as int] as int]),
        Operator::CallIndirect { index, .. } => index < env.signatures.len() && avail >= 1
            + sig_normal_args(env.signatures@[index as int]),
        Operator::Drop => avail >= 1,
        Operator::Select => avail >= 3,
        Operator::GetLocal { .. } => true,
        Operator::SetLocal { .. } => avail >= 1,
        Operator::TeeLocal { .. } => avail >= 1,
        Operator::GetGlobal { global_index } => global_index < env.globals.len(),
        Operator::SetGlobal { global_index } => global_index < env.globals.len()
            && env.globals@[global_index as int] is Memory && avail >= 1,
        Operator::CurrentMemory { reserved } => reserved < env.memory_guard_sizes.len(),
        Operator::GrowMemory { reserved } => reserved < env.memory_guard_sizes.len() && avail >= 1,
        Operator::I32Const { .. } => true,
        Operator::I64Const { .. } => true,
        Operator::F32Const { .. } => true,
        Operator::F64Const { .. } => true,
        _ => if is_saturating(op) {
            false
        } else if load_kind(op) is Some {
            heap0_ok(env) && avail >= 1
        } else if store_kind(op) is Some {
            heap0_ok(env) && avail >= 2
        } else if binary_opcode(op) is Some || int_compare(op) is Some || float_compare(op) is Some {
            avail >= 2
        } else {
            avail >= 1
        },
    }
}

/// Whether `op` may be translated in state `s`. In unreachable code only the structure
/// matters: an `end` or `else` that closes a real frame needs that frame.
pub open spec fn op_ok(s: &TranslationState, env: &FuncEnvironment, op: Operator) -> bool {
    if s.real_unreachable_stack_depth > 0 {
        match op {
            Operator::Block { .. } => s.phantom_unreachable_stack_depth < usize::MAX,
            Operator::Loop { .. } => s.phantom_unreachable_stack_depth < usize::MAX,
            Operator::If { .. } => s.phantom_unreachable_stack_depth < usize::MAX,
            Operator::End => s.phantom_unreachable_stack_depth > 0 || s.control_stack.len() > 0,
            Operator::Else => s.phantom_unreachable_stack_depth > 0 || (s.control_stack.len() > 0
                && s.top() is If),
            _ => true,
        }
    } else {
        s.control_stack.len() > 0 && reachable_op_ok(s, env, op)
    }
}

/// The result type of a `block`, `loop` or `if`.
pub open spec fn construct_type(op: Operator) -> BlockType {
    match op {
        Operator::Block { ty } => ty,
        Operator::Loop { ty } => ty,
        Operator::If { ty } => ty,
        _ => BlockType::EmptyBlock,
    }
}

/// Whether `op` opens a structured construct.
pub open spec fn opens(op: Operator) -> bool {
    op is Block || op is Loop || op is If
}

/// How many structured constructs are open: real frames and phantom ones.
pub open spec fn nesting(s: &TranslationState) -> int {
    s.control_stack.len() + s.phantom_unreachable_stack_depth
}

/// The change of nesting that `op` makes.
pub open spec fn nesting_delta(op: Operator) -> int {
    if opens(op) {
        1
    } else if op is End {
        -1
    } else {
        0
    }
}

/// The unreachable depth after `op` in reachable code.
pub open spec fn depth_after(s: &TranslationState, op: Operator) -> int {
    match op {
        Operator::Unreachable => 1,
        Operator::Return => 1,
        Operator::Br { relative_depth } => 1 + relative_depth,
        Operator::BrTable { targets, default } => 1 + min_depth(targets@, default),
        _ => 0,
    }
}

/// The stacks and counters are those of `o`.
pub open spec fn unchanged(s: &TranslationState, o: &TranslationState) -> bool {
    &&& s.stack@ == o.stack@
    &&& s.control_stack@ == o.control_stack@
    &&& s.phantom_unreachable_stack_depth == o.phantom_unreachable_stack_depth
    &&& s.real_unreachable_stack_depth == o.real_unreachable_stack_depth
}

/// What an operator does to the state in unreachable code, `b` being the function after it.
pub open spec fn unreachable_step(s0: &TranslationState, s1: &TranslationState, b: &FunctionBuilder, op: Operator) -> bool {
    if opens(op) {
        &&& s1.phantom_unreachable_stack_depth == s0.phantom_unreachable_stack_depth + 1
        &&& s1.real_unreachable_stack_depth == s0.real_unreachable_stack_depth
        &&& s1.stack@ == s0.stack@
        &&& s1.control_stack@ == s0.control_stack@
    } else if op is End && s0.phantom_unreachable_stack_depth > 0 {
        &&& s1.phantom_unreachable_stack_depth == s0.phantom_unreachable_stack_depth - 1
        &&& s1.real_unreachable_stack_depth == s0.real_unreachable_stack_depth
        &&& s1.stack@ == s0.stack@
        &&& s1.control_stack@ == s0.control_stack@
    } else if op is End {
        let f = s0.top();
        let resumes = f is If || f.reached() || s0.real_unreachable_stack_depth == 1;
        &&& s1.control_stack@ == s0.control_stack@.drop_last()
        &&& s1.phantom_unreachable_stack_depth == 0
        &&& s1.real_unreachable_stack_depth == if resumes {
            0
        } else {
            s0.real_unreachable_stack_depth - 1
        }
        &&& s1.stack@ == s0.stack@.subrange(0, f.stack_size() as int) + if resumes {
            b.params(f.dest())
        } else {
            Seq::empty()
        }
    } else if op is Else && s0.phantom_unreachable_stack_depth == 0 {
        &&& s1.control_stack@ == s0.control_stack@
        &&& s1.phantom_unreachable_stack_depth == 0
        &&& s1.real_unreachable_stack_depth == 0
        &&& s1.stack@ == s0.stack@.subrange(0, s0.top().stack_size() as int)
    } else {
        unchanged(s1, s0)
    }
}

/// Every depth of a `br_table` marks its frame reachable and gives its target a predecessor.
pub open spec fn br_table_edges(s: &TranslationState, b: &FunctionBuilder, targets: Seq<u32>, default: u32) -> bool {
    &&& forall|j: int|
        0 <= j < targets.len() ==> s.frame_at(#[trigger] targets[j] as int).reached()
            && b.has_predecessor(s.frame_at(targets[j] as int).branch_target())
    &&& s.frame_at(default as int).reached()
    &&& b.has_predecessor(s.frame_at(default as int).branch_target())
}

/// The builder only grew: its blocks keep their seals, its instructions their kind.
pub open spec fn grows(b0: &FunctionBuilder, b1: &FunctionBuilder) -> bool {
    &&& b1.ebb_sealed@ == b0.ebb_sealed@
    &&& params_kept(b0, b1)
    &&& insts_extend(b0, b1)
    &&& b1.heaps@ == b0.heaps@
    &&& b1.global_vars.len() >= b0.global_vars.len()
}

/// A step that keeps the frames, the counters and the seals keeps the state consistent.
pub proof fn lemma_step_kept(
    s0: &TranslationState,
    b0: &FunctionBuilder,
    s1: &TranslationState,
    b1: &FunctionBuilder,
    env: &FuncEnvironment,
)
    requires
        s0.wf(b0, env),
        s1.control_stack@ == s0.control_stack@,
        s1.phantom_unreachable_stack_depth > 0 ==> s1.real_unreachable_stack_depth > 0,
        s0.control_stack.len() > 0 ==> s1.stack.len() >= s0.top().stack_size(),
        b1.wf(),
        b1.ebb_sealed@ == b0.ebb_sealed@,
        insts_extend(b0, b1),
        params_kept(b0, b1),
        s1.caches_wf(b1, env),
    ensures
        s1.wf(b1, env),
{
    assert forall|k: int| 0 <= k < s0.control_stack.len() implies same_blocks(#[trigger] s0.control_stack@[k], s1.control_stack@[k]) by {}
    lemma_blocks_kept(s0, b0, s1, b1);
    lemma_params_kept(s0, b0, s1, b1);
}

/// Caches stay consistent while the builder grows.
pub proof fn lemma_caches_kept(s0: &TranslationState, b0: &FunctionBuilder, s1: &TranslationState, b1: &FunctionBuilder, env: &FuncEnvironment)
    requires
        s0.caches_wf(b0, env),
        s1.same_caches(s0),
        b1.heaps@ == b0.heaps@,
        b1.global_vars.len() >= b0.global_vars.len(),
    ensures
        s1.caches_wf(b1, env),
{
}

// Get the address+offset to use for a heap access.
pub fn get_heap_addr(heap: Heap, addr32: Value, offset: u32, addr_ty: Type, builder: &mut FunctionBuilder) -> (r: (Value, i32))
    requires
        old(builder).wf(),
        heap.index < old(builder).heaps.len(),
        old(builder).heaps@[heap.index as int].guard_size > 0,
    ensures
        final(builder).wf(),
        r.0 == addr_base(old(builder).values.len() as nat, offset),
        r.1 == heap_addr_offset(offset),
        grows(old(builder), final(builder)),
        final(builder).position == old(builder).position,
        final(builder).jump_tables@ == old(builder).jump_tables@,
        final(builder).global_vars@ == old(builder).global_vars@,
        final(builder).insts@ == old(builder).insts@ + addr_nodes(
            old(builder).position->0,
            old(builder).values.len() as nat,
            heap,
            addr32,
            offset,
            old(builder).heaps@[heap.index as int].guard_size,
            addr_ty,
        ),
        final(builder).values@ == old(builder).values@ + first_results(old(builder).insts.len() as nat, addr_value_count(offset)),
        !final(builder).pristine,
        final(builder).insts.len() == old(builder).insts.len() + addr_value_count(offset),
{
    let guard_size = builder.heaps[heap.index].guard_size;
    // Generate `heap_addr` instructions that are friendly to CSE by checking offsets that are
    // multiples of the guard size. Add one to make sure that we check the pointer itself is in
    // bounds.
    //
    // For accesses on the outer skirts of the guard pages, we expect that we get a trap
    // even if the access goes beyond the guard pages. This is because the first byte pointed to
    // is inside the guard pages.
    let q = offset as u64 / guard_size;
    proof {
        assert(q * guard_size <= offset as u64) by (nonlinear_arith)
            requires
                q == offset as u64 / guard_size,
                guard_size > 0,
        ;
    }
    let quantized = 1 + q * guard_size;
    let check_size: u32 = if quantized > 0xffff_ffffu64 {
        0xffff_ffffu32
    } else {
        quantized as u32
    };
    assert(check_size == heap_check_size(offset, guard_size));
    let base = builder.ins1(InstData::HeapAddr { ty: addr_ty, heap, addr: addr32, size: check_size });
    let ghost b1 = *builder;
    let ghost e = old(builder).position->0;
    let ghost v = old(builder).values.len() as nat;
    let ghost ni = old(builder).insts.len() as nat;
    // Native load/store instructions take a signed 32-bit offset, so adjust the base pointer if
    // necessary.
    if offset > 0x7fff_ffffu32 {
        // Offset doesn't fit in the load/store instruction.
        let adj = builder.ins1(InstData::IaddImm { arg: base, imm: 0x8000_0000i64 });
        proof {
            assert(builder.insts@ =~= old(builder).insts@ + addr_nodes(e, v, heap, addr32, offset, guard_size, addr_ty));
            assert(builder.values@ =~= old(builder).values@ + first_results(ni, 2));
        }
        (adj, (offset - 0x8000_0000u32) as i32)
    } else {
        proof {
            assert(builder.insts@ =~= old(builder).insts@ + addr_nodes(e, v, heap, addr32, offset, guard_size, addr_ty));
            assert(builder.values@ =~= old(builder).values@ + first_results(ni, 1));
        }
        (base, offset as i32)
    }
}

/// The size that a `heap_addr` checks for an access at `offset` with guard size `guard`: the
/// offset rounded down to a multiple of the guard size, plus one, at most `u32::MAX`.
pub open spec fn heap_check_size(offset: u32, guard: u64) -> u32 {
    let quantized = 1 + (offset as int / guard as int) * guard as int;
    if quantized > 0xffff_ffff {
        0xffff_ffffu32
    } else {
        quantized as u32
    }
}

/// An instruction inserted in block `e`.
pub open spec fn node(e: Ebb, data: InstData) -> InstNode {
    InstNode { ebb: e, data }
}

/// The instructions that form the address of a heap access at `offset` in block `e`, where the
/// next value is numbered `v`: a `heap_addr` checking the quantized size, and, where the offset
/// does not fit a signed 32-bit immediate, an adjustment of its result.
pub open spec fn addr_nodes(e: Ebb, v: nat, heap: Heap, addr: Value, offset: u32, guard: u64, ty: Type) -> Seq<InstNode> {
    let check = seq![node(e, InstData::HeapAddr { ty, heap, addr, size: heap_check_size(offset, guard) })];
    if offset > 0x7fff_ffff {
        check.push(node(e, InstData::IaddImm { arg: Value { index: v as usize }, imm: 0x8000_0000 }))
    } else {
        check
    }
}

/// How many values forming the address of an access at `offset` defines.
pub open spec fn addr_value_count(offset: u32) -> nat {
    if offset > 0x7fff_ffff {
        2
    } else {
        1
    }
}

/// The base value of a heap access at `offset`, where the next value is numbered `v`: the
/// `heap_addr` result, or the adjusted one.
pub open spec fn addr_base(v: nat, offset: u32) -> Value {
    Value { index: (v + addr_value_count(offset) - 1) as usize }
}

/// The immediate offset of a heap access at `offset`.
pub open spec fn heap_addr_offset(offset: u32) -> i32 {
    if offset > 0x7fff_ffff {
        (offset - 0x8000_0000) as i32
    } else {
        offset as i32
    }
}

/// The first results of `c` consecutive instructions numbered from `first`.
pub open spec fn first_results(first: nat, c: nat) -> Seq<ValueDef> {
    Seq::new(c, |k: int| ValueDef::InstResult { inst: Inst { index: (first + k) as usize }, num: 0 })
}

/// `b1` holds the instructions of `b0` and one more.
pub open spec fn one_more(b0: &FunctionBuilder, b1: &FunctionBuilder) -> bool {
    &&& b1.insts.len() == b0.insts.len() + 1
    &&& b1.insts@.drop_last() == b0.insts@
}

/// `n` is a jump from block `e` to `dest` passing `args`.
pub open spec fn jump_node(n: InstNode, e: Ebb, dest: Ebb, args: Seq<Value>) -> bool {
    &&& n.ebb == e
    &&& n.data is Jump
    &&& n.data->Jump_destination == dest
    &&& n.data->Jump_args@ == args
}

/// The parameter definitions that a construct of type `ty` gives its destination `e`.
pub open spec fn param_defs(e: Ebb, ty: BlockType) -> Seq<ValueDef> {
    match block_value_type(ty) {
        Some(t) => seq![ValueDef::EbbParam { ebb: e, ty: t }],
        None => Seq::empty(),
    }
}

/// The instructions after an `else` in reachable code: the `then` arm's jump to the
/// destination with the construct's values, and the `if`'s conditional branch retargeted to
/// the new block; nothing else changes.
pub open spec fn else_insts(s0: &TranslationState, b0: &FunctionBuilder, b1: &FunctionBuilder) -> bool {
    let f = s0.top();
    let bi = f->If_branch_inst.index as int;
    let n = s0.stack.len() as int;
    &&& b1.insts.len() == b0.insts.len() + 1
    &&& forall|i: int| 0 <= i < b0.insts.len() && i != bi ==> #[trigger] b1.insts@[i] == b0.insts@[i]
    &&& b1.insts@[bi].ebb == b0.insts@[bi].ebb
    &&& b1.insts@[bi].data is Brz
    &&& b1.insts@[bi].data->Brz_cond == b0.insts@[bi].data->Brz_cond
    &&& b1.insts@[bi].data->Brz_args == b0.insts@[bi].data->Brz_args
    &&& b1.insts@[bi].data->Brz_destination == (Ebb { index: b0.ebb_sealed.len() })
    &&& jump_node(b1.insts@.last(), b0.position->0, f.dest(), s0.stack@.subrange(n - f.return_count(), n))
}

/// The instructions after an `end` in reachable code: a jump to the destination with the
/// construct's values, unless the current block is unreachable and still empty.
pub open spec fn end_insts(s0: &TranslationState, b0: &FunctionBuilder, b1: &FunctionBuilder) -> bool {
    let f = s0.top();
    let n = s0.stack.len() as int;
    if b0.current_unreachable() && b0.pristine {
        b1.insts@ == b0.insts@
    } else {
        one_more(b0, b1) && jump_node(b1.insts@.last(), b0.position->0, f.dest(), s0.stack@.subrange(n - f.return_count(), n))
    }
}

/// `nd` returns from the function with its values: a jump to the exit block where the
/// environment asks for it, else a return.
pub open spec fn return_node(s0: &TranslationState, b0: &FunctionBuilder, nd: InstNode, env: &FuncEnvironment) -> bool {
    let n = s0.stack.len() as int;
    let args = s0.stack@.subrange(n - s0.control_stack@[0].return_count(), n);
    if env.return_at_end {
        jump_node(nd, b0.position->0, s0.control_stack@[0].branch_target(), args)
    } else {
        nd.ebb == b0.position->0 && nd.data is Return && nd.data->Return_args@ == args
    }
}

/// Pushing a frame that starts at the current stack height keeps the stacks consistent.
pub proof fn lemma_stacks_push(s0: &TranslationState, s1: &TranslationState, f: ControlStackFrame)
    requires
        s0.stacks_wf(),
        s1.control_stack@ == s0.control_stack@.push(f),
        f.stack_size() == s1.stack.len(),
        s0.control_stack.len() > 0 ==> s0.top().stack_size() <= s1.stack.len(),
        s1.phantom_unreachable_stack_depth > 0 ==> s1.real_unreachable_stack_depth > 0,
    ensures
        s1.stacks_wf(),
{
    let n = s0.control_stack.len() as int;
    assert forall|k: int, j: int|
        0 <= k <= j < s1.control_stack.len() implies (#[trigger] s1.control_stack@[k]).stack_size()
            <= (#[trigger] s1.control_stack@[j]).stack_size() by {
        if j == n {
            if k < n {
                assert(s0.control_stack@[k].stack_size() <= s0.control_stack@[n - 1].stack_size());
            }
        } else {
            assert(s0.control_stack@[k].stack_size() <= s0.control_stack@[j].stack_size());
        }
    }
}

/// Popping the innermost frame keeps the stacks consistent when the stack is at least as high
/// as where that frame started.
pub proof fn lemma_stacks_pop(s0: &TranslationState, s1: &TranslationState)
    requires
        s0.stacks_wf(),
        s0.control_stack.len() > 0,
        s1.control_stack@ == s0.control_stack@.drop_last(),
        s1.stack.len() >= s0.top().stack_size(),
        s1.phantom_unreachable_stack_depth > 0 ==> s1.real_unreachable_stack_depth > 0,
    ensures
        s1.stacks_wf(),
{
    let n = s1.control_stack.len() as int;
    assert forall|k: int, j: int|
        0 <= k <= j < s1.control_stack.len() implies (#[trigger] s1.control_stack@[k]).stack_size()
            <= (#[trigger] s1.control_stack@[j]).stack_size() by {
        assert(s0.control_stack@[k].stack_size() <= s0.control_stack@[j].stack_size());
    }
    if n > 0 {
        assert(s0.control_stack@[n - 1].stack_size() <= s0.control_stack@[n].stack_size());
    }
}

/// Marking frame `i` reachable keeps the state consistent.
pub proof fn lemma_mark_kept(s0: &TranslationState, s1: &TranslationState, b: &FunctionBuilder, env: &FuncEnvironment, i: int)
    requires
        s0.wf(b, env),
        0 <= i < s0.control_stack.len(),
        s1.control_stack@ == s0.control_stack@.update(i, s0.control_stack@[i].marked_reachable()),
        s1.stack@ == s0.stack@,
        s1.phantom_unreachable_stack_depth == s0.phantom_unreachable_stack_depth,
        s1.real_unreachable_stack_depth == s0.real_unreachable_stack_depth,
        s1.same_caches(s0),
    ensures
        s1.wf(b, env),
        forall|k: int| 0 <= k < s0.control_stack.len() ==> same_blocks(#[trigger] s0.control_stack@[k], s1.control_stack@[k]),
{
    lemma_marked_same_blocks(s0.control_stack@[i]);
    assert forall|k: int| 0 <= k < s0.control_stack.len() implies same_blocks(#[trigger] s0.control_stack@[k], s1.control_stack@[k]) by {}
    lemma_blocks_kept(s0, b, s1, b);
    assert forall|k: int, j: int|
        0 <= k <= j < s1.control_stack.len() implies (#[trigger] s1.control_stack@[k]).stack_size()
            <= (#[trigger] s1.control_stack@[j]).stack_size() by {
        assert(same_blocks(s0.control_stack@[k], s1.control_stack@[k]));
        assert(same_blocks(s0.control_stack@[j], s1.control_stack@[j]));
        assert(s0.control_stack@[k].stack_size() <= s0.control_stack@[j].stack_size());
    }
    if s1.control_stack.len() > 0 {
        assert(same_blocks(s0.control_stack@[s0.control_stack.len() - 1], s1.control_stack@[s0.control_stack.len() - 1]));
    }
}

// Translate `block`: a new block holds the code that follows.
fn translate_block(ty: BlockType, builder: &mut FunctionBuilder, state: &mut TranslationState, environ: &FuncEnvironment)
    requires
        old(state).wf(old(builder), environ),
        old(state).control_stack.len() > 0,
        old(state).real_unreachable_stack_depth == 0,
    ensures
        final(state).wf(final(builder), environ),
        final(state).control_stack@ == old(state).control_stack@.push(
            ControlStackFrame::Block {
                destination: Ebb { index: old(builder).ebb_sealed.len() },
                num_return_values: block_arity(ty),
                original_stack_size: old(state).stack.len(),
                reachable: false,
            },
        ),
        final(state).stack@ == old(state).stack@,
        final(builder).ebb_sealed@ == old(builder).ebb_sealed@.push(false),
        final(builder).insts@ == old(builder).insts@,
        final(builder).values@ == old(builder).values@ + param_defs(Ebb { index: old(builder).ebb_sealed.len() }, ty),
        final(builder).position == old(builder).position,
        final(builder).jump_tables@ == old(builder).jump_tables@,
        final(state).phantom_unreachable_stack_depth == 0,
        final(state).real_unreachable_stack_depth == 0,
        final(state).same_caches(old(state)),
{
    let next = builder.create_ebb();
    proof { lemma_no_params(builder.values@, next); }
    match type_to_type(&ty) {
        Some(t) => {
            builder.append_ebb_param(next, t);
        },
        None => {},
    }
    state.push_block(next, num_return_values(&ty));
    proof {
        let f = state.top();
        assert(state.control_stack@.last() == f);
        lemma_blocks_push(old(state), old(builder), state, builder, f);
        lemma_params_push(old(state), old(builder), state, builder, f);
        lemma_stacks_push(old(state), state, f);
    }
}

// Translate `loop`: a new block for the body, entered by a jump, and one for the code that
// follows.
fn translate_loop(ty: BlockType, builder: &mut FunctionBuilder, state: &mut TranslationState, environ: &FuncEnvironment)
    requires
        old(state).wf(old(builder), environ),
        old(state).control_stack.len() > 0,
        old(state).real_unreachable_stack_depth == 0,
    ensures
        final(state).wf(final(builder), environ),
        final(state).control_stack@ == old(state).control_stack@.push(
            ControlStackFrame::Loop {
                destination: Ebb { index: (old(builder).ebb_sealed.len() + 1) as usize },
                header: Ebb { index: old(builder).ebb_sealed.len() },
                num_return_values: block_arity(ty),
                original_stack_size: old(state).stack.len(),
                reachable: false,
            },
        ),
        final(builder).position == Some(Ebb { index: old(builder).ebb_sealed.len() }),
        final(state).stack@ == old(state).stack@,
        final(builder).ebb_sealed@ == old(builder).ebb_sealed@.push(false).push(false),
        one_more(old(builder), final(builder)),
        jump_node(final(builder).insts@.last(), old(builder).position->0, Ebb { index: old(builder).ebb_sealed.len() }, Seq::empty()),
        final(builder).values@ == old(builder).values@ + param_defs(Ebb { index: (old(builder).ebb_sealed.len() + 1) as usize }, ty),
        final(builder).jump_tables@ == old(builder).jump_tables@,
        final(state).phantom_unreachable_stack_depth == 0,
        final(state).real_unreachable_stack_depth == 0,
        final(state).same_caches(old(state)),
{
    let loop_body = builder.create_ebb();
    let next = builder.create_ebb();
    proof { lemma_no_params(builder.values@, next); }
    match type_to_type(&ty) {
        Some(t) => {
            builder.append_ebb_param(next, t);
        },
        None => {},
    }
    let ghost b1 = *builder;
    assert(params_kept(old(builder), &b1));
    builder.ins0(InstData::Jump { destination: loop_body, args: Vec::new() });
    state.push_loop(loop_body, next, num_return_values(&ty));
    builder.switch_to_block(loop_body);
    proof {
        assert forall|e: Ebb| e.index < old(builder).ebb_sealed.len() implies #[trigger] builder.params(e) == old(builder).params(e) by {
            assert(b1.params(e) == old(builder).params(e));
        }
        let f = state.top();
        assert(state.control_stack@.last() == f);
        lemma_blocks_push(old(state), old(builder), state, builder, f);
        lemma_params_push(old(state), old(builder), state, builder, f);
        lemma_stacks_push(old(state), state, f);
    }
}

// Translate `if`: a conditional branch on the popped condition skips to a new block.
fn translate_if(ty: BlockType, builder: &mut FunctionBuilder, state: &mut TranslationState, environ: &FuncEnvironment)
    requires
        old(state).wf(old(builder), environ),
        old(state).control_stack.len() > 0,
        old(state).real_unreachable_stack_depth == 0,
        available(old(state)) >= 1,
    ensures
        final(state).wf(final(builder), environ),
        final(state).control_stack@ == old(state).control_stack@.push(
            ControlStackFrame::If {
                destination: Ebb { index: old(builder).ebb_sealed.len() },
                branch_inst: crate::ir::Inst { index: old(builder).insts.len() },
                num_return_values: block_arity(ty),
                original_stack_size: (old(state).stack.len() - 1) as usize,
                reachable: false,
            },
        ),
        final(builder).insts@.last().data is Brz,
        final(builder).insts@.last().data->Brz_cond == old(state).stack@.last(),
        final(builder).insts@.last().data->Brz_destination == (Ebb { index: old(builder).ebb_sealed.len() }),
        final(builder).insts@.last().data->Brz_args@.len() == 0,
        final(state).stack@ == old(state).stack@.drop_last(),
        one_more(old(builder), final(builder)),
        final(builder).insts@.last().ebb == old(builder).position->0,
        final(builder).ebb_sealed@ == old(builder).ebb_sealed@.push(false),
        final(builder).values@ == old(builder).values@ + param_defs(Ebb { index: old(builder).ebb_sealed.len() }, ty),
        final(builder).position == old(builder).position,
        final(builder).jump_tables@ == old(builder).jump_tables@,
        final(state).phantom_unreachable_stack_depth == 0,
        final(state).real_unreachable_stack_depth == 0,
        final(state).same_caches(old(state)),
{
    let val = state.pop1();
    let if_not = builder.create_ebb();
    proof { lemma_no_params(builder.values@, if_not); }
    let jump_inst = builder.ins0(InstData::Brz { cond: val, destination: if_not, args: Vec::new() });
    // Here we append an argument to an Ebb targeted by an argumentless jump instruction
    // But in fact there are two cases:
    // - either the If does not have a Else clause, in that case ty = EmptyBlock
    //   and we add nothing;
    // - either the If have an Else clause, in that case the destination of this jump
    //   instruction will be changed later when we translate the Else operator.
    match type_to_type(&ty) {
        Some(t) => {
            builder.append_ebb_param(if_not, t);
        },
        None => {},
    }
    state.push_if(jump_inst, if_not, num_return_values(&ty));
    proof {
        let f = state.top();
        assert(state.control_stack@.last() == f);
        lemma_blocks_push(old(state), old(builder), state, builder, f);
        lemma_params_push(old(state), old(builder), state, builder, f);
        lemma_stacks_push(old(state), state, f);
    }
}

// Translate `else`: the `then` arm jumps to the code that follows, and the conditional branch
// of the `if` is made to target a new block for the `else` arm.
fn translate_else(builder: &mut FunctionBuilder, state: &mut TranslationState, environ: &FuncEnvironment)
    requires
        old(state).wf(old(builder), environ),
        old(state).control_stack.len() > 0,
        old(state).top() is If,
        old(state).real_unreachable_stack_depth == 0,
        available(old(state)) >= old(state).top().return_count(),
    ensures
        final(state).wf(final(builder), environ),
        final(state).control_stack@ == old(state).control_stack@,
        final(state).stack@ == old(state).stack@.subrange(0, old(state).stack.len() - old(state).top().return_count()),
        final(builder).ebb_sealed@ == old(builder).ebb_sealed@.push(true),
        final(builder).position == Some(Ebb { index: old(builder).ebb_sealed.len() }),
        final(builder).values@ == old(builder).values@,
        final(builder).jump_tables@ == old(builder).jump_tables@,
        else_insts(old(state), old(builder), final(builder)),
        final(state).phantom_unreachable_stack_depth == 0,
        final(state).real_unreachable_stack_depth == 0,
        final(state).same_caches(old(state)),
{
    // We take the control frame pushed by the if, use its ebb as the else body
    // and push a new control frame with a new ebb for the code after the if/then/else
    // At the end of the then clause we jump to the destination
    let i = state.control_stack.len() - 1;
    let (destination, return_count, branch_inst) = match state.control_stack[i] {
        ControlStackFrame::If { destination, num_return_values, branch_inst, .. } => (
            destination,
            num_return_values,
            branch_inst,
        ),
        _ => {
            assert(false);
            return ;
        },
    };
    let args = state.peekn(return_count);
    builder.ins0(InstData::Jump { destination, args });
    let ghost b1 = *builder;
    state.popn(return_count);
    // We change the target of the branch instruction
    else_block(branch_inst, builder, state, environ);
    proof {
        let k = old(state).control_stack.len() - 1;
        assert(old(state).control_stack@[k] is If);
        let bi = branch_inst.index as int;
        assert(bi < old(builder).insts.len());
        assert(b1.insts@[bi] == old(builder).insts@[bi]);
        assert(builder.insts@.last() == b1.insts@.last());
        assert forall|i: int| 0 <= i < old(builder).insts.len() && i != bi implies #[trigger] builder.insts@[i] == old(builder).insts@[i] by {
            assert(b1.insts@[i] == old(builder).insts@[i]);
        }
    }
}

// Create the block of an `else` arm, retarget the `if`'s conditional branch to it, seal it and
// switch to it.
fn else_block(branch_inst: crate::ir::Inst, builder: &mut FunctionBuilder, state: &TranslationState, environ: &FuncEnvironment) -> (r: Ebb)
    requires
        old(builder).wf(),
        state.blocks_wf(old(builder)),
        state.control_stack.len() > 0,
        state.top() is If,
        state.top()->If_branch_inst == branch_inst,
    ensures
        final(builder).wf(),
        state.blocks_wf(final(builder)),
        final(builder).heaps@ == old(builder).heaps@,
        final(builder).global_vars@ == old(builder).global_vars@,
        final(builder).values@ == old(builder).values@,
        r.index == old(builder).ebb_sealed.len(),
        final(builder).position == Some(r),
        final(builder).ebb_sealed@ == old(builder).ebb_sealed@.push(true),
        final(builder).jump_tables@ == old(builder).jump_tables@,
        final(builder).insts@ == old(builder).insts@.update(
            branch_inst.index as int,
            InstNode {
                ebb: old(builder).insts@[branch_inst.index as int].ebb,
                data: InstData::Brz {
                    cond: old(builder).insts@[branch_inst.index as int].data->Brz_cond,
                    destination: r,
                    args: old(builder).insts@[branch_inst.index as int].data->Brz_args,
                },
            },
        ),
{
    let k = state.control_stack.len() - 1;
    assert(state.control_stack@[k as int] is If);
    let else_ebb = builder.create_ebb();
    builder.change_jump_destination(branch_inst, else_ebb);
    builder.seal_block(else_ebb);
    builder.switch_to_block(else_ebb);
    proof {
        lemma_blocks_sealed_new(state, old(builder), state, builder);
    }
    else_ebb
}

// Translate `end` in reachable code: jump to the code that follows with the construct's
// results, switch there, seal it (and the header of a loop), and make its parameters the new
// top of the stack.
fn translate_end(builder: &mut FunctionBuilder, state: &mut TranslationState, environ: &FuncEnvironment)
    requires
        old(state).wf(old(builder), environ),
        old(state).control_stack.len() > 0,
        old(state).real_unreachable_stack_depth == 0,
        available(old(state)) >= old(state).top().return_count(),
    ensures
        final(state).wf(final(builder), environ),
        final(state).control_stack@ == old(state).control_stack@.drop_last(),
        final(state).stack@ == old(state).stack@.subrange(0, old(state).top().stack_size() as int)
            + final(builder).params(old(state).top().dest()),
        final(builder).position == Some(old(state).top().dest()),
        end_insts(old(state), old(builder), final(builder)),
        final(builder).ebb_sealed.len() == old(builder).ebb_sealed.len(),
        forall|i: int| 0 <= i < old(builder).ebb_sealed.len() ==> #[trigger] final(builder).ebb_sealed@[i] == (
            old(builder).ebb_sealed@[i] || old(state).top().holds(Ebb { index: i as usize })),
        final(builder).values@ == old(builder).values@,
        final(builder).jump_tables@ == old(builder).jump_tables@,
        final(builder).is_sealed(old(state).top().dest()),
        final(builder).params(old(state).top().dest()).len() == old(state).top().return_count(),
        final(state).phantom_unreachable_stack_depth == 0,
        final(state).real_unreachable_stack_depth == 0,
        final(state).same_caches(old(state)),
{
    let frame = state.control_stack.pop().unwrap();
    let return_count = frame.num_return_values();
    let dest = frame.following_code();
    proof {
        let n = old(state).control_stack.len() - 1;
        assert(old(state).control_stack@[n] == frame);
        assert(old(state).control_stack@[n].holds(dest));
        assert(old(state).pending(dest));
    }
    if !builder.is_unreachable() || !builder.is_pristine() {
        let args = state.peekn(return_count);
        builder.ins0(InstData::Jump { destination: dest, args });
    }
    builder.switch_to_block(dest);
    builder.seal_block(dest);
    // If it is a loop we also have to seal the body loop block
    match frame {
        ControlStackFrame::Loop { header, .. } => {
            proof {
                let n = old(state).control_stack.len() - 1;
                assert(old(state).control_stack@[n].holds(header));
                assert(old(state).pending(header));
            }
            builder.seal_block(header);
        },
        _ => {},
    }
    state.truncate_stack(frame.original_stack_size());
    let params = builder.ebb_params(dest);
    state.pushn(&params);
    proof {
        assert forall|i: int| 0 <= i < old(builder).ebb_sealed.len() implies #[trigger] builder.ebb_sealed@[i] == (
        old(builder).ebb_sealed@[i] || old(state).top().holds(Ebb { index: i as usize })) by {}
        lemma_blocks_pop(old(state), old(builder), state, builder);
        lemma_stacks_pop(old(state), state);
    }
}

// Translate `br`: jump to the target frame with the values it takes, and skip the code that
// follows up to the `end` of that frame.
fn translate_br(relative_depth: u32, builder: &mut FunctionBuilder, state: &mut TranslationState, environ: &FuncEnvironment)
    requires
        old(state).wf(old(builder), environ),
        old(state).real_unreachable_stack_depth == 0,
        relative_depth < old(state).control_stack.len(),
        available(old(state)) >= old(state).frame_at(relative_depth as int).branch_args(),
    ensures
        final(state).wf(final(builder), environ),
        final(state).control_stack@ == old(state).control_stack@.update(
            old(state).control_stack.len() - 1 - relative_depth,
            old(state).frame_at(relative_depth as int).marked_reachable(),
        ),
        final(state).stack@ == old(state).stack@.subrange(
            0,
            old(state).stack.len() - old(state).frame_at(relative_depth as int).branch_args(),
        ),
        final(builder).has_predecessor(old(state).frame_at(relative_depth as int).branch_target()),
        one_more(old(builder), final(builder)),
        jump_node(
            final(builder).insts@.last(),
            old(builder).position->0,
            old(state).frame_at(relative_depth as int).branch_target(),
            old(state).stack@.subrange(old(state).stack.len() - old(state).frame_at(relative_depth as int).branch_args(), old(state).stack.len() as int),
        ),
        final(builder).ebb_sealed@ == old(builder).ebb_sealed@,
        final(builder).values@ == old(builder).values@,
        final(builder).position == old(builder).position,
        final(builder).jump_tables@ == old(builder).jump_tables@,
        final(state).phantom_unreachable_stack_depth == 0,
        final(state).real_unreachable_stack_depth == 1 + relative_depth,
        final(state).same_caches(old(state)),
{
    let i = state.control_stack.len() - 1 - relative_depth as usize;
    state.set_frame_reachable(relative_depth as usize);
    proof { lemma_mark_kept(old(state), state, builder, environ, i as int); }
    let ghost s1 = *state;
    let frame = state.control_stack[i];
    let return_count = if frame.is_loop() {
        0
    } else {
        frame.num_return_values()
    };
    let dest = frame.br_destination();
    let args = state.peekn(return_count);
    let jump = builder.ins0(InstData::Jump { destination: dest, args });
    state.popn(return_count);
    state.real_unreachable_stack_depth = 1 + relative_depth as usize;
    proof {
        assert(crate::builder::branches_to(builder.jump_tables@, builder.insts@[jump.index as int].data, dest));
        lemma_step_kept(&s1, old(builder), state, builder, environ);
    }
}

// Translate `br_if`: branch to the target frame on a non-zero condition; the values it takes
// stay on the stack for the code that follows.
fn translate_br_if(relative_depth: u32, builder: &mut FunctionBuilder, state: &mut TranslationState, environ: &FuncEnvironment)
    requires
        old(state).wf(old(builder), environ),
        old(state).real_unreachable_stack_depth == 0,
        relative_depth < old(state).control_stack.len(),
        available(old(state)) >= 1 + old(state).frame_at(relative_depth as int).branch_args(),
    ensures
        final(state).wf(final(builder), environ),
        final(state).control_stack@ == old(state).control_stack@.update(
            old(state).control_stack.len() - 1 - relative_depth,
            old(state).frame_at(relative_depth as int).marked_reachable(),
        ),
        final(state).stack@ == old(state).stack@.drop_last(),
        final(builder).has_predecessor(old(state).frame_at(relative_depth as int).branch_target()),
        one_more(old(builder), final(builder)),
        final(builder).insts@.last().ebb == old(builder).position->0,
        final(builder).insts@.last().data is Brnz,
        final(builder).insts@.last().data->Brnz_cond == old(state).stack@.last(),
        final(builder).insts@.last().data->Brnz_destination == old(state).frame_at(relative_depth as int).branch_target(),
        final(builder).insts@.last().data->Brnz_args@ == old(state).stack@.subrange(
            old(state).stack.len() - 1 - old(state).frame_at(relative_depth as int).branch_args(),
            old(state).stack.len() - 1,
        ),
        final(builder).ebb_sealed@ == old(builder).ebb_sealed@,
        final(builder).values@ == old(builder).values@,
        final(builder).position == old(builder).position,
        final(builder).jump_tables@ == old(builder).jump_tables@,
        final(state).phantom_unreachable_stack_depth == 0,
        final(state).real_unreachable_stack_depth == 0,
        final(state).same_caches(old(state)),
{
    let val = state.pop1();
    let ghost s1 = *state;
    let i = state.control_stack.len() - 1 - relative_depth as usize;
    state.set_frame_reachable(relative_depth as usize);
    proof { lemma_mark_kept(&s1, state, builder, environ, i as int); }
    let ghost s2 = *state;
    let frame = state.control_stack[i];
    let return_count = if frame.is_loop() {
        0
    } else {
        frame.num_return_values()
    };
    let dest = frame.br_destination();
    let args = state.peekn(return_count);
    let branch = builder.ins0(InstData::Brnz { cond: val, destination: dest, args });
    proof {
        assert(crate::builder::branches_to(builder.jump_tables@, builder.insts@[branch.index as int].data, dest));
        lemma_step_kept(&s2, old(builder), state, builder, environ);
    }
}

// Translate `return`: leave the function with the values it returns, through the exit block
// when the environment asks for it.
fn translate_return(builder: &mut FunctionBuilder, state: &mut TranslationState, environ: &FuncEnvironment)
    requires
        old(state).wf(old(builder), environ),
        old(state).real_unreachable_stack_depth == 0,
        old(state).control_stack.len() > 0,
        available(old(state)) >= old(state).control_stack@[0].return_count(),
    ensures
        final(state).wf(final(builder), environ),
        final(state).control_stack@ == old(state).control_stack@.update(0, old(state).control_stack@[0].marked_reachable()),
        final(state).stack@ == old(state).stack@.subrange(0, old(state).stack.len() - old(state).control_stack@[0].return_count()),
        one_more(old(builder), final(builder)),
        return_node(old(state), old(builder), final(builder).insts@.last(), environ),
        final(builder).ebb_sealed@ == old(builder).ebb_sealed@,
        final(builder).values@ == old(builder).values@,
        final(builder).position == old(builder).position,
        final(builder).jump_tables@ == old(builder).jump_tables@,
        final(state).phantom_unreachable_stack_depth == 0,
        final(state).real_unreachable_stack_depth == 1,
        final(state).same_caches(old(state)),
{
    let depth = state.control_stack.len() - 1;
    state.set_frame_reachable(depth);
    proof { lemma_mark_kept(old(state), state, builder, environ, 0); }
    let ghost s1 = *state;
    let return_count = state.control_stack[0].num_return_values();
    let dest = state.control_stack[0].br_destination();
    let args = state.peekn(return_count);
    if environ.return_at_end() {
        builder.ins0(InstData::Jump { destination: dest, args });
    } else {
        builder.ins0(InstData::Return { args });
    }
    state.popn(return_count);
    state.real_unreachable_stack_depth = 1;
    proof {
        lemma_step_kept(&s1, old(builder), state, builder, environ);
    }
}

/// Frames with the same blocks and a stack at least as high as where the innermost one started
/// keep the stacks consistent.
pub proof fn lemma_stacks_blocks(s0: &TranslationState, s1: &TranslationState)
    requires
        s0.stacks_wf(),
        s1.control_stack.len() == s0.control_stack.len(),
        forall|k: int| 0 <= k < s0.control_stack.len() ==> same_blocks(#[trigger] s0.control_stack@[k], s1.control_stack@[k]),
        s1.phantom_unreachable_stack_depth > 0 ==> s1.real_unreachable_stack_depth > 0,
        s0.control_stack.len() > 0 ==> s1.stack.len() >= s0.top().stack_size(),
    ensures
        s1.stacks_wf(),
{
    assert forall|k: int, j: int|
        0 <= k <= j < s1.control_stack.len() implies (#[trigger] s1.control_stack@[k]).stack_size()
            <= (#[trigger] s1.control_stack@[j]).stack_size() by {
        assert(same_blocks(s0.control_stack@[k], s1.control_stack@[k]));
        assert(same_blocks(s0.control_stack@[j], s1.control_stack@[j]));
        assert(s0.control_stack@[k].stack_size() <= s0.control_stack@[j].stack_size());
    }
    if s1.control_stack.len() > 0 {
        assert(same_blocks(s0.control_stack@[s0.control_stack.len() - 1], s1.control_stack@[s0.control_stack.len() - 1]));
    }
}

/// Whether some instruction of `b` from position `from` on jumps from block `t` to `dest`
/// passing `args`.
pub open spec fn trampoline_jump(b: &FunctionBuilder, from: int, t: Ebb, dest: Ebb, args: Seq<Value>) -> bool {
    exists|i: int| from <= i < b.insts.len() && #[trigger] jump_node(b.insts@[i], t, dest, args)
}

/// The instructions of a `br_table` in reachable code, from state `s0` and function `b0`: a
/// `br_table` on the popped selector through a new jump table, then a jump to the default
/// target with the values it takes. Without values, the table and the default jump name the
/// targets themselves; with values, each entry and the default jump name a new, sealed block
/// that jumps on to its target with them.
pub open spec fn br_table_ir(s0: &TranslationState, b0: &FunctionBuilder, b1: &FunctionBuilder, targets: Seq<u32>, default: u32) -> bool {
    let n = s0.stack.len() as int;
    let a = s0.frame_at(min_depth(targets, default) as int).branch_args() as int;
    let e = b0.position->0;
    let ni = b0.insts.len() as int;
    let args = s0.stack@.subrange(n - 1 - a, n - 1);
    let table = b1.jump_tables@.last()@;
    &&& b1.jump_tables.len() == b0.jump_tables.len() + 1
    &&& b1.jump_tables@.drop_last() == b0.jump_tables@
    &&& table.len() == targets.len()
    &&& b1.insts.len() >= ni + 2
    &&& b1.insts@.subrange(0, ni) == b0.insts@
    &&& b1.insts@[ni] == node(e, InstData::BrTable { selector: s0.stack@.last(), table: crate::ir::JumpTable { index: b0.jump_tables.len() } })
    &&& a == 0 ==> jump_node(b1.insts@[ni + 1], e, s0.frame_at(default as int).branch_target(), args)
    &&& a != 0 ==> {
        let td = b1.insts@[ni + 1].data->Jump_destination;
        &&& jump_node(b1.insts@[ni + 1], e, td, args)
        &&& b0.ebb_sealed.len() <= td.index < b1.ebb_sealed.len()
        &&& trampoline_jump(b1, ni + 2, td, s0.frame_at(default as int).branch_target(), args)
    }
    &&& a == 0 ==> b1.insts.len() == ni + 2 && b1.ebb_sealed@ == b0.ebb_sealed@ && forall|j: int|
        0 <= j < targets.len() ==> #[trigger] table[j] == s0.frame_at(targets[j] as int).branch_target()
    &&& a != 0 ==> forall|j: int|
        0 <= j < targets.len() ==> b0.ebb_sealed.len() <= (#[trigger] table[j]).index < b1.ebb_sealed.len()
            && trampoline_jump(b1, ni + 2, table[j], s0.frame_at(targets[j] as int).branch_target(), args)
}

/// Whether one of the first `upto` trampolines is for depth `d`.
pub open spec fn has_depth(dests: Seq<(u32, Ebb)>, d: int, upto: int) -> bool {
    exists|q: int| 0 <= q < upto && dests[q].0 as int == d
}

/// The frame `f`, marked reachable where `m` holds.
pub open spec fn marked_if(f: ControlStackFrame, m: bool) -> ControlStackFrame {
    if m {
        f.marked_reachable()
    } else {
        f
    }
}

/// Whether `e` is the trampoline made for `depth`.
pub open spec fn has_trampoline(dests: Seq<(u32, Ebb)>, depth: u32, e: Ebb) -> bool {
    exists|p: int| 0 <= p < dests.len() && #[trigger] dests[p] == (depth, e)
}

// The trampoline already made for `depth`, if any.
fn find_trampoline(dests: &Vec<(u32, Ebb)>, depth: u32) -> (r: Option<Ebb>)
    ensures
        r is Some ==> has_trampoline(dests@, depth, r->0),
        r is None ==> forall|p: int| 0 <= p < dests.len() ==> (#[trigger] dests@[p]).0 != depth,
{
    let mut p: usize = 0;
    while p < dests.len()
        invariant
            p <= dests.len(),
            forall|q: int| 0 <= q < p ==> (#[trigger] dests@[q]).0 != depth,
        decreases dests.len() - p,
    {
        if dests[p].0 == depth {
            let e = dests[p].1;
            assert(dests@[p as int] == (depth, e));
            return Some(e);
        }
        p = p + 1;
    }
    None
}

// Translate `br_table`. Where the targets take values, which the jump table cannot pass, each
// distinct target depth gets a trampoline block that jumps on with the values.
#[verifier::rlimit(90)]
fn translate_br_table(targets: &Vec<u32>, default: u32, builder: &mut FunctionBuilder, state: &mut TranslationState, environ: &FuncEnvironment)
    requires
        old(state).wf(old(builder), environ),
        old(state).real_unreachable_stack_depth == 0,
        default < old(state).control_stack.len(),
        forall|j: int| 0 <= j < targets.len() ==> #[trigger] targets@[j] < old(state).control_stack.len(),
        available(old(state)) >= 1 + old(state).frame_at(min_depth(targets@, default) as int).branch_args(),
    ensures
        final(state).wf(final(builder), environ),
        final(state).control_stack.len() == old(state).control_stack.len(),
        forall|k: int| 0 <= k < old(state).control_stack.len() ==> same_blocks(#[trigger] old(state).control_stack@[k], final(state).control_stack@[k]),
        final(state).stack@ == old(state).stack@.subrange(
            0,
            old(state).stack.len() - 1 - old(state).frame_at(min_depth(targets@, default) as int).branch_args(),
        ),
        br_table_edges(final(state), final(builder), targets@, default),
        br_table_ir(old(state), old(builder), final(builder), targets@, default),
        forall|k: int| 0 <= k < old(state).control_stack.len() ==> #[trigger] final(state).control_stack@[k] == marked_if(
            old(state).control_stack@[k],
            old(state).control_stack.len() - 1 - k == default || listed(targets@, old(state).control_stack.len() - 1 - k, targets.len() as int),
        ),
        final(state).phantom_unreachable_stack_depth == 0,
        final(state).real_unreachable_stack_depth == 1 + min_depth(targets@, default),
        final(state).same_caches(old(state)),
{
    let mut min: u32 = default;
    let mut j: usize = 0;
    while j < targets.len()
        invariant
            j <= targets.len(),
            min == min_depth(targets@.subrange(0, j as int), default),
        decreases targets.len() - j,
    {
        proof {
            assert(targets@.subrange(0, j + 1).drop_last() =~= targets@.subrange(0, j as int));
        }
        if targets[j] < min {
            min = targets[j];
        }
        j = j + 1;
    }
    proof {
        assert(targets@.subrange(0, targets.len() as int) =~= targets@);
        lemma_min_depth(targets@, default);
    }
    let len = state.control_stack.len();
    let min_frame = state.control_stack[len - 1 - min as usize];
    let jump_args_count = if min_frame.is_loop() {
        0
    } else {
        min_frame.num_return_values()
    };
    let val = state.pop1();
    let ghost s1 = *state;
    let ghost b1 = *builder;
    let mut dests: Vec<(u32, Ebb)> = Vec::new();
    let mut data: Vec<Ebb> = Vec::new();
    let mut j: usize = 0;
    while j < targets.len()
        invariant
            j <= targets.len(),
            len == s1.control_stack.len(),
            forall|m: int| 0 <= m < targets.len() ==> #[trigger] targets@[m] < len,
            state.control_stack.len() == len,
            forall|k: int| 0 <= k < len ==> same_blocks(#[trigger] s1.control_stack@[k], state.control_stack@[k]),
            state.stack@ == s1.stack@,
            state.phantom_unreachable_stack_depth == s1.phantom_unreachable_stack_depth,
            state.real_unreachable_stack_depth == s1.real_unreachable_stack_depth,
            state.same_caches(&s1),
            data@.len() == j,
            jump_args_count == 0 ==> dests@.len() == 0,
            jump_args_count == 0 ==> forall|m: int| 0 <= m < j ==> #[trigger] data@[m] == s1.frame_at(targets@[m] as int).branch_target(),
            jump_args_count == 0 ==> forall|m: int| 0 <= m < j ==> state.frame_at(#[trigger] targets@[m] as int).reached(),
            jump_args_count == 0 ==> builder.ebb_sealed@ == b1.ebb_sealed@,
            jump_args_count != 0 ==> state.control_stack@ == s1.control_stack@,
            jump_args_count == 0 ==> forall|k: int| 0 <= k < len ==> #[trigger] state.control_stack@[k] == marked_if(
                s1.control_stack@[k],
                listed(targets@, len - 1 - k, j as int),
            ),
            jump_args_count != 0 ==> forall|p: int| 0 <= p < dests.len() ==> listed(targets@, (#[trigger] dests@[p]).0 as int, j as int),
            jump_args_count != 0 ==> forall|m: int| 0 <= m < j ==> has_trampoline(dests@, targets@[m], #[trigger] data@[m]),
            forall|p: int| 0 <= p < dests.len() ==> (#[trigger] dests@[p]).1.index == b1.ebb_sealed.len() + p,
            forall|p: int| 0 <= p < dests.len() ==> (#[trigger] dests@[p]).0 < len,
            builder.ebb_sealed.len() == b1.ebb_sealed.len() + dests.len(),
            forall|i: int| 0 <= i < b1.ebb_sealed.len() ==> #[trigger] builder.ebb_sealed@[i] == b1.ebb_sealed@[i],
            forall|i: int| b1.ebb_sealed.len() <= i < builder.ebb_sealed.len() ==> !#[trigger] builder.ebb_sealed@[i],
            builder.insts@ == b1.insts@,
            builder.jump_tables@ == b1.jump_tables@,
            builder.heaps@ == b1.heaps@,
            builder.global_vars@ == b1.global_vars@,
            builder.values@ == b1.values@,
            builder.position == b1.position,
            builder.entry == b1.entry,
            builder.pristine == b1.pristine,
        decreases targets.len() - j,
    {
        let depth = targets[j];
        if jump_args_count == 0 {
            // No jump arguments: the jump table targets the frames directly.
            let i = len - 1 - depth as usize;
            let ebb = state.control_stack[i].br_destination();
            data.push(ebb);
            let ghost before = *state;
            state.set_frame_reachable(depth as usize);
            proof {
                lemma_marked_same_blocks(before.control_stack@[i as int]);
                lemma_marked_same_blocks(s1.control_stack@[i as int]);
                assert forall|k: int| 0 <= k < len implies #[trigger] state.control_stack@[k] == marked_if(
                    s1.control_stack@[k],
                    listed(targets@, len - 1 - k, j + 1),
                ) by {
                    let d = len - 1 - k;
                    if k == i {
                        assert(targets@[j as int] as int == d);
                    } else {
                        if listed(targets@, d, j + 1) {
                            let m = choose|m: int| 0 <= m < j + 1 && targets@[m] as int == d;
                            assert(m != j);
                        }
                        assert(listed(targets@, d, j + 1) == listed(targets@, d, j as int));
                    }
                }
                assert forall|m: int| 0 <= m < j + 1 implies state.frame_at(#[trigger] targets@[m] as int).reached() by {
                    if targets@[m] != depth {
                        assert(before.frame_at(targets@[m] as int).reached());
                    }
                }
            }
        } else {
            // Jump arguments: one trampoline per distinct depth.
            let ghost d0 = dests@;
            let ghost a0 = data@;
            match find_trampoline(&dests, depth) {
                Some(e) => {
                    data.push(e);
                },
                None => {
                    let e = builder.create_ebb();
                    data.push(e);
                    dests.push((depth, e));
                },
            }
            proof {
                assert forall|p: int| 0 <= p < dests.len() implies listed(targets@, (#[trigger] dests@[p]).0 as int, j + 1) by {
                    if p < d0.len() {
                        assert(dests@[p] == d0[p]);
                        assert(listed(targets@, d0[p].0 as int, j as int));
                        let m = choose|m: int| 0 <= m < j && targets@[m] as int == d0[p].0 as int;
                        assert(0 <= m < j + 1 && targets@[m] as int == dests@[p].0 as int);
                    } else {
                        assert(dests@[p].0 == depth);
                        assert(targets@[j as int] as int == dests@[p].0 as int);
                    }
                }
                assert forall|m: int| 0 <= m < j + 1 implies has_trampoline(dests@, targets@[m], #[trigger] data@[m]) by {
                    if m < j {
                        assert(has_trampoline(d0, targets@[m], a0[m]));
                        let p = choose|p: int| 0 <= p < d0.len() && #[trigger] d0[p] == (targets@[m], a0[m]);
                        assert(dests@[p] == d0[p]);
                        assert(data@[m] == a0[m]);
                    } else if dests@.len() > d0.len() {
                        assert(dests@[d0.len() as int] == (depth, data@[m]));
                    }
                }
            }
        }
        j = j + 1;
    }
    // With values, the default target gets a trampoline too.
    let mut default_trampoline = Ebb { index: 0 };
    if jump_args_count != 0 {
        let ghost d0 = dests@;
        match find_trampoline(&dests, default) {
            Some(e) => {
                default_trampoline = e;
            },
            None => {
                let e = builder.create_ebb();
                dests.push((default, e));
                default_trampoline = e;
            },
        }
        proof {
            assert forall|m: int| 0 <= m < targets.len() implies has_trampoline(dests@, targets@[m], #[trigger] data@[m]) by {
                assert(has_trampoline(d0, targets@[m], data@[m]));
                let p = choose|p: int| 0 <= p < d0.len() && #[trigger] d0[p] == (targets@[m], data@[m]);
                assert(dests@[p] == d0[p]);
            }
            assert forall|p: int| 0 <= p < dests.len() implies listed(targets@, (#[trigger] dests@[p]).0 as int, targets.len() as int)
                || dests@[p].0 == default by {
                if p < d0.len() {
                    assert(dests@[p] == d0[p]);
                }
            }
            if dests@.len() > d0.len() {
                assert(dests@[d0.len() as int] == (default, default_trampoline));
            }
            assert(has_trampoline(dests@, default, default_trampoline));
        }
    }
    let ghost table = data@;
    let jt = builder.create_jump_table(data);
    let br = builder.ins0(InstData::BrTable { selector: val, table: jt });
    let ghost b2 = *builder;
    proof {
        assert forall|m: int| 0 <= m < targets.len() implies builder.has_predecessor(#[trigger] table[m]) by {
            assert(builder.jump_tables@[jt.index as int]@[m] == table[m]);
            assert(crate::builder::branches_to(builder.jump_tables@, builder.insts@[br.index as int].data, table[m]));
        }
    }
    let ghost s2 = *state;
    let di = len - 1 - default as usize;
    state.set_frame_reachable(default as usize);
    proof { lemma_marked_same_blocks(s2.control_stack@[di as int]); }
    let default_ebb = if jump_args_count == 0 {
        state.control_stack[di].br_destination()
    } else {
        default_trampoline
    };
    let args = state.peekn(jump_args_count);
    let jump = builder.ins0(InstData::Jump { destination: default_ebb, args });
    proof {
        assert(crate::builder::branches_to(builder.jump_tables@, builder.insts@[jump.index as int].data, default_ebb));
        assert(builder.has_predecessor(default_ebb));
        assert forall|m: int| 0 <= m < targets.len() implies builder.has_predecessor(#[trigger] table[m]) by {
            lemma_predecessor_kept(&b2, builder, table[m]);
        }
    }
    let ghost b3 = *builder;
    let ghost s3 = *state;
    proof {
        lemma_marked_same_blocks(s1.control_stack@[di as int]);
        assert forall|k: int| 0 <= k < len implies #[trigger] state.control_stack@[k] == marked_if(
            s1.control_stack@[k],
            len - 1 - k == default || (jump_args_count == 0 && listed(targets@, len - 1 - k, targets.len() as int))
                || has_depth(dests@, len - 1 - k, 0),
        ) by {
            lemma_marked_same_blocks(s1.control_stack@[k]);
            lemma_marked_same_blocks(s2.control_stack@[k]);
        }
    }
    assert forall|e: Ebb| #[trigger] b3.params(e) == b1.params(e) by {
        assert(b2.params(e) == b1.params(e));
    }
    let mut p: usize = 0;
    while p < dests.len()
        invariant
            p <= dests.len(),
            len == s1.control_stack.len(),
            di == len - 1 - default,
            default < len,
            jump_args_count <= state.stack.len(),
            state.control_stack.len() == len,
            forall|k: int| 0 <= k < len ==> same_blocks(#[trigger] s1.control_stack@[k], state.control_stack@[k]),
            s3.control_stack.len() == len,
            forall|k: int| 0 <= k < len ==> #[trigger] s3.control_stack@[k].reached() ==> state.control_stack@[k].reached(),
            forall|k: int| 0 <= k < len ==> #[trigger] state.control_stack@[k] == marked_if(
                s1.control_stack@[k],
                len - 1 - k == default || (jump_args_count == 0 && listed(targets@, len - 1 - k, targets.len() as int))
                    || has_depth(dests@, len - 1 - k, p as int),
            ),
            jump_args_count == 0 ==> dests.len() == 0,
            state.stack@ == s1.stack@,
            state.phantom_unreachable_stack_depth == s1.phantom_unreachable_stack_depth,
            state.real_unreachable_stack_depth == s1.real_unreachable_stack_depth,
            state.same_caches(&s1),
            forall|q: int| 0 <= q < dests.len() ==> (#[trigger] dests@[q]).1.index == b1.ebb_sealed.len() + q,
            forall|q: int| 0 <= q < dests.len() ==> (#[trigger] dests@[q]).0 < len,
            forall|q: int| 0 <= q < p ==> state.frame_at((#[trigger] dests@[q]).0 as int).reached()
                && builder.has_predecessor(s1.frame_at(dests@[q].0 as int).branch_target()),
            forall|q: int| 0 <= q < p ==> trampoline_jump(
                builder,
                b3.insts.len() as int,
                (#[trigger] dests@[q]).1,
                s1.frame_at(dests@[q].0 as int).branch_target(),
                state.stack@.subrange(state.stack.len() - jump_args_count, state.stack.len() as int),
            ),
            builder.insts.len() >= b3.insts.len(),
            p == 0 ==> builder.insts@ == b3.insts@ && builder.ebb_sealed@ == b3.ebb_sealed@,
            b3.jump_tables@ == b2.jump_tables@,
            builder.wf(),
            builder.ebb_sealed.len() == b1.ebb_sealed.len() + dests.len(),
            forall|i: int| 0 <= i < b1.ebb_sealed.len() ==> #[trigger] builder.ebb_sealed@[i] == b1.ebb_sealed@[i],
            forall|i: int| b1.ebb_sealed.len() <= i < b1.ebb_sealed.len() + p ==> #[trigger] builder.ebb_sealed@[i],
            forall|i: int| b1.ebb_sealed.len() + p <= i < builder.ebb_sealed.len() ==> !#[trigger] builder.ebb_sealed@[i],
            insts_extend(&b1, builder),
            forall|e: Ebb| #[trigger] builder.params(e) == b1.params(e),
            crate::builder::insts_prefix(&b3, builder),
            builder.heaps@ == b1.heaps@,
            builder.global_vars@ == b1.global_vars@,
        decreases dests.len() - p,
    {
        let (depth, dest_ebb) = dests[p];
        let ghost bq = *builder;
        builder.switch_to_block(dest_ebb);
        builder.seal_block(dest_ebb);
        let i = len - 1 - depth as usize;
        let ghost before = *state;
        state.set_frame_reachable(depth as usize);
        proof {
            lemma_marked_same_blocks(before.control_stack@[i as int]);
            lemma_marked_same_blocks(s1.control_stack@[i as int]);
            assert forall|k: int| 0 <= k < len implies #[trigger] state.control_stack@[k] == marked_if(
                s1.control_stack@[k],
                len - 1 - k == default || (jump_args_count == 0 && listed(targets@, len - 1 - k, targets.len() as int))
                    || has_depth(dests@, len - 1 - k, p + 1),
            ) by {
                let d = len - 1 - k;
                if k == i {
                    assert(dests@[p as int].0 as int == d);
                } else {
                    if has_depth(dests@, d, p + 1) {
                        let q = choose|q: int| 0 <= q < p + 1 && dests@[q].0 as int == d;
                        assert(q != p);
                    }
                    assert(has_depth(dests@, d, p + 1) == has_depth(dests@, d, p as int));
                }
            }
        }
        let real_dest_ebb = state.control_stack[i].br_destination();
        let args = state.peekn(jump_args_count);
        let ghost bm = *builder;
        let jump = builder.ins0(InstData::Jump { destination: real_dest_ebb, args });
        proof {
            assert(bm.values@ == bq.values@);
            assert forall|e: Ebb| #[trigger] builder.params(e) == b1.params(e) by {
                assert(bm.params(e) == bq.params(e));
                assert(bq.params(e) == b1.params(e));
            }
            assert(crate::builder::branches_to(builder.jump_tables@, builder.insts@[jump.index as int].data, real_dest_ebb));
            assert(builder.has_predecessor(real_dest_ebb));
            let aa = state.stack@.subrange(state.stack.len() - jump_args_count, state.stack.len() as int);
            assert(jump_node(builder.insts@[jump.index as int], dest_ebb, real_dest_ebb, aa));
            assert forall|q: int| 0 <= q < p + 1 implies trampoline_jump(
                builder,
                b3.insts.len() as int,
                (#[trigger] dests@[q]).1,
                s1.frame_at(dests@[q].0 as int).branch_target(),
                aa,
            ) by {
                if q < p {
                    let i = choose|i: int| b3.insts.len() <= i < bq.insts.len() && #[trigger] jump_node(bq.insts@[i], dests@[q].1, s1.frame_at(dests@[q].0 as int).branch_target(), aa);
                    assert(builder.insts@[i] == bq.insts@[i]);
                } else {
                    assert(same_blocks(s1.control_stack@[i as int], state.control_stack@[i as int]));
                }
            }
            assert forall|q: int| 0 <= q < p + 1 implies state.frame_at((#[trigger] dests@[q]).0 as int).reached()
                && builder.has_predecessor(s1.frame_at(dests@[q].0 as int).branch_target()) by {
                if q < p {
                    lemma_predecessor_kept(&bq, builder, s1.frame_at(dests@[q].0 as int).branch_target());
                    if dests@[q].0 != depth {
                        assert(before.frame_at(dests@[q].0 as int).reached());
                    }
                }
            }
        }
        p = p + 1;
    }
    state.popn(jump_args_count);
    state.real_unreachable_stack_depth = 1 + min as usize;
    proof {
        let n = old(state).stack.len() as int;
        let a = jump_args_count as int;
        let ni = old(builder).insts.len() as int;
        let aa = old(state).stack@.subrange(n - 1 - a, n - 1);
        assert(s1.stack@.subrange(n - 1 - a, n - 1) =~= aa);
        assert(builder.jump_tables@.drop_last() =~= old(builder).jump_tables@);
        assert(builder.jump_tables@.last()@ == table);
        assert(builder.insts@[ni] == b3.insts@[ni]);
        assert(builder.insts@[ni + 1] == b3.insts@[ni + 1]);
        assert(builder.insts@.subrange(0, ni) =~= old(builder).insts@) by {
            assert forall|i: int| 0 <= i < ni implies builder.insts@[i] == old(builder).insts@[i] by {
                assert(builder.insts@[i] == b3.insts@[i]);
            }
        }
        assert(same_blocks(s1.control_stack@[di as int], s3.control_stack@[di as int]));
        if jump_args_count != 0 {
            assert forall|j: int| 0 <= j < targets.len() implies old(builder).ebb_sealed.len() <= (#[trigger] table[j]).index
                < builder.ebb_sealed.len() && trampoline_jump(
                builder,
                ni + 2,
                table[j],
                old(state).frame_at(targets@[j] as int).branch_target(),
                aa,
            ) by {
                assert(has_trampoline(dests@, targets@[j], table[j]));
                let q = choose|q: int| 0 <= q < dests.len() && #[trigger] dests@[q] == (targets@[j], table[j]);
                assert(dests@[q].1 == table[j]);
            }
        }
        lemma_predecessor_kept(&b3, builder, default_ebb);
        assert forall|m: int| 0 <= m < targets.len() implies builder.has_predecessor(#[trigger] table[m]) by {
            lemma_predecessor_kept(&b3, builder, table[m]);
        }
        if jump_args_count != 0 {
            assert(has_trampoline(dests@, default, default_trampoline));
            let q = choose|q: int| 0 <= q < dests.len() && #[trigger] dests@[q] == (default, default_trampoline);
            assert(state.frame_at(dests@[q].0 as int).reached());
            assert(builder.has_predecessor(s1.frame_at(default as int).branch_target()));
            assert(trampoline_jump(builder, ni + 2, default_trampoline, old(state).frame_at(default as int).branch_target(), aa));
            assert(builder.insts@[ni + 1].data->Jump_destination == default_trampoline);
        }
        assert forall|k: int| 0 <= k < len implies #[trigger] state.control_stack@[k] == marked_if(
            old(state).control_stack@[k],
            len - 1 - k == default || listed(targets@, len - 1 - k, targets.len() as int),
        ) by {
            let d = len - 1 - k;
            assert(s1.control_stack@[k] == old(state).control_stack@[k]);
            if jump_args_count != 0 {
                if has_depth(dests@, d, dests.len() as int) {
                    let q = choose|q: int| 0 <= q < dests.len() && dests@[q].0 as int == d;
                    assert(listed(targets@, dests@[q].0 as int, targets.len() as int) || dests@[q].0 == default);
                }
                if listed(targets@, d, targets.len() as int) {
                    let m = choose|m: int| 0 <= m < targets.len() && targets@[m] as int == d;
                    assert(has_trampoline(dests@, targets@[m], table[m]));
                    let q = choose|q: int| 0 <= q < dests.len() && #[trigger] dests@[q] == (targets@[m], table[m]);
                    assert(dests@[q].0 as int == d);
                }
            }
        }
        lemma_blocks_sealed_new(old(state), old(builder), state, builder);
        lemma_params_kept(old(state), old(builder), state, builder);
        assert(state.stack.len() >= old(state).top().stack_size());
        lemma_stacks_blocks(old(state), state);
        lemma_caches_kept(old(state), old(builder), state, builder, environ);
        assert forall|j: int| 0 <= j < targets.len() implies state.frame_at(#[trigger] targets@[j] as int).reached()
            && builder.has_predecessor(state.frame_at(targets@[j] as int).branch_target()) by {
            let k = len - 1 - targets@[j];
            assert(same_blocks(s1.control_stack@[k], state.control_stack@[k]));
            if jump_args_count == 0 {
                assert(table[j] == s1.frame_at(targets@[j] as int).branch_target());
                assert(s3.control_stack@[k].reached());
            } else {
                assert(has_trampoline(dests@, targets@[j], table[j]));
                let p = choose|p: int| 0 <= p < dests.len() && #[trigger] dests@[p] == (targets@[j], table[j]);
                assert(state.frame_at(dests@[p].0 as int).reached());
            }
        }
        assert(s3.control_stack@[di as int].reached());
        assert(same_blocks(s1.control_stack@[di as int], state.control_stack@[di as int]));
    }
}

/// Deals with a Wasm instruction located in an unreachable portion of the code. Most of them
/// are dropped but special ones like `End` or `Else` signal the potential end of the
/// unreachable portion so the translation state must be updated accordingly.
pub fn translate_unreachable_operator(op: &Operator, builder: &mut FunctionBuilder, state: &mut TranslationState, environ: &FuncEnvironment)
    requires
        old(state).wf(old(builder), environ),
        old(state).real_unreachable_stack_depth > 0,
        op_ok(old(state), environ, *op),
    ensures
        unreachable_ir(old(state), old(builder), final(builder), *op),
        final(state).wf(final(builder), environ),
        unreachable_step(old(state), final(state), final(builder), *op),
        *op is End && old(state).phantom_unreachable_stack_depth == 0 ==> final(builder).params(old(state).top().dest()).len()
            == old(state).top().return_count(),
        final(state).same_caches(old(state)),
{
    // We don't translate because the code is unreachable
    // Nevertheless we have to record a phantom stack for this code
    // to know when the unreachable code ends
    match op {
        Operator::If { .. } | Operator::Loop { .. } | Operator::Block { .. } => {
            state.phantom_unreachable_stack_depth = state.phantom_unreachable_stack_depth + 1;
        },
        Operator::End => {
            if state.phantom_unreachable_stack_depth > 0 {
                state.phantom_unreachable_stack_depth = state.phantom_unreachable_stack_depth - 1;
            } else {
                // This End corresponds to a real control stack frame
                // We switch to the destination block but we don't insert
                // a jump instruction since the code is still unreachable
                let frame = state.control_stack.pop().unwrap();
                let dest = frame.following_code();
                proof {
                    let n = old(state).control_stack.len() - 1;
                    assert(old(state).control_stack@[n] == frame);
                    assert(old(state).control_stack@[n].holds(dest));
                    assert(old(state).pending(dest));
                }
                builder.switch_to_block(dest);
                builder.seal_block(dest);
                match frame {
                    // If it is a loop we also have to seal the body loop block
                    ControlStackFrame::Loop { header, .. } => {
                        proof {
                            let n = old(state).control_stack.len() - 1;
                            assert(old(state).control_stack@[n].holds(header));
                            assert(old(state).pending(header));
                        }
                        builder.seal_block(header);
                    },
                    // If it is an if then the code after is reachable again
                    ControlStackFrame::If { .. } => {
                        state.real_unreachable_stack_depth = 1;
                    },
                    _ => {},
                }
                if frame.is_reachable() {
                    state.real_unreachable_stack_depth = 1;
                }
                // Now we have to split off the stack the values not used
                // by unreachable code that hasn't been translated
                state.truncate_stack(frame.original_stack_size());
                // And add the return values of the block but only if the next block is
                // reachable (which corresponds to testing if the stack depth is 1)
                if state.real_unreachable_stack_depth == 1 {
                    let params = builder.ebb_params(dest);
                    state.pushn(&params);
                }
                state.real_unreachable_stack_depth = state.real_unreachable_stack_depth - 1;
                proof {
                    assert forall|i: int| 0 <= i < old(builder).ebb_sealed.len() implies #[trigger] builder.ebb_sealed@[i] == (
                    old(builder).ebb_sealed@[i] || old(state).top().holds(Ebb { index: i as usize })) by {}
                    lemma_blocks_pop(old(state), old(builder), state, builder);
                    lemma_stacks_pop(old(state), state);
                }
            }
        },
        Operator::Else => {
            if state.phantom_unreachable_stack_depth == 0 {
                // Encountering a real else means that the code in the else
                // clause is reachable again
                let i = state.control_stack.len() - 1;
                let (branch_inst, original_stack_size) = match state.control_stack[i] {
                    ControlStackFrame::If { branch_inst, original_stack_size, .. } => (branch_inst, original_stack_size),
                    _ => {
                        assert(false);
                        return ;
                    },
                };
                // We change the target of the branch instruction
                else_block(branch_inst, builder, state, environ);
                // Now we have to split off the stack the values not used
                // by unreachable code that hasn't been translated
                state.truncate_stack(original_stack_size);
                state.real_unreachable_stack_depth = 0;
            }
        },
        _ => {
            // We don't translate because this is unreachable code
        },
    }
}

// Translate a load instruction.
fn translate_load(offset: u32, opcode: LoadOpcode, result_ty: Type, builder: &mut FunctionBuilder, state: &mut TranslationState, environ: &FuncEnvironment)
    requires
        old(state).wf(old(builder), environ),
        old(state).control_stack.len() > 0,
        old(state).real_unreachable_stack_depth == 0,
        available(old(state)) >= 1,
        heap0_ok(environ),
    ensures
        final(builder).values@ == old(builder).values@ + first_results(old(builder).insts.len() as nat, addr_value_count(offset) + 1),
        !final(builder).pristine,
        final(state).wf(final(builder), environ),
        final(state).control_stack@ == old(state).control_stack@,
        final(state).stack@.len() == old(state).stack@.len(),
        final(state).stack@.drop_last() == old(state).stack@.drop_last(),
        final(builder).insts@ == access_insts(old(state), old(builder), environ, old(state).stack@.last(), offset, InstData::Load {
            opcode,
            ty: result_ty,
            offset: heap_addr_offset(offset),
            base: addr_base(old(builder).values.len() as nat, offset),
        }),
        final(state).stack@ == old(state).stack@.drop_last().push(
            Value { index: (old(builder).values.len() + addr_value_count(offset)) as usize },
        ),
        final(builder).position == old(builder).position,
        final(builder).ebb_sealed@ == old(builder).ebb_sealed@,
        final(builder).jump_tables@ == old(builder).jump_tables@,
        final(state).heaps@ == crate::state::cache_after(old(state).heaps@, 0, Heap { index: old(builder).heaps.len() }),
        final(state).globals@ == old(state).globals@,
        final(state).signatures@ == old(state).signatures@,
        final(state).functions@ == old(state).functions@,
        final(state).phantom_unreachable_stack_depth == 0,
        final(state).real_unreachable_stack_depth == 0,
{
    let ghost static_offset = offset;
    let addr32 = state.pop1();
    // We don't yet support multiple linear memories.
    let heap = state.get_heap(builder, 0, environ);
    let ghost b1 = *builder;
    let ghost s1 = *state;
    let (base, offset) = get_heap_addr(heap, addr32, offset, environ.native_pointer(), builder);
    let ghost b2 = *builder;
    let val = builder.ins1(InstData::Load { opcode, ty: result_ty, offset: offset, base });
    state.push1(val);
    proof {
        let ni = old(builder).insts.len() as nat;
        let c = addr_value_count(static_offset);
        assert(b2.insts.len() == ni + c);
        assert(builder.values@ =~= old(builder).values@ + first_results(ni, c + 1));
        lemma_caches_kept(&s1, &b1, state, builder, environ);
        lemma_step_kept(old(state), old(builder), state, builder, environ);
    }
}

// Translate a store instruction.
fn translate_store(offset: u32, opcode: StoreOpcode, builder: &mut FunctionBuilder, state: &mut TranslationState, environ: &FuncEnvironment)
    requires
        old(state).wf(old(builder), environ),
        old(state).control_stack.len() > 0,
        old(state).real_unreachable_stack_depth == 0,
        available(old(state)) >= 2,
        heap0_ok(environ),
    ensures
        final(builder).values@ == old(builder).values@ + first_results(old(builder).insts.len() as nat, addr_value_count(offset)),
        !final(builder).pristine,
        final(state).wf(final(builder), environ),
        final(state).control_stack@ == old(state).control_stack@,
        final(state).stack@ == old(state).stack@.subrange(0, old(state).stack.len() - 2),
        final(builder).insts@ == access_insts(
            old(state),
            old(builder),
            environ,
            old(state).stack@[old(state).stack.len() - 2],
            offset,
            InstData::Store {
                opcode,
                value: old(state).stack@.last(),
                offset: heap_addr_offset(offset),
                base: addr_base(old(builder).values.len() as nat, offset),
            },
        ),
        final(builder).position == old(builder).position,
        final(builder).ebb_sealed@ == old(builder).ebb_sealed@,
        final(builder).jump_tables@ == old(builder).jump_tables@,
        final(state).heaps@ == crate::state::cache_after(old(state).heaps@, 0, Heap { index: old(builder).heaps.len() }),
        final(state).globals@ == old(state).globals@,
        final(state).signatures@ == old(state).signatures@,
        final(state).functions@ == old(state).functions@,
        final(state).phantom_unreachable_stack_depth == 0,
        final(state).real_unreachable_stack_depth == 0,
{
    let (addr32, val) = state.pop2();
    // We don't yet support multiple linear memories.
    let heap = state.get_heap(builder, 0, environ);
    let ghost b1 = *builder;
    let ghost s1 = *state;
    let (base, offset) = get_heap_addr(heap, addr32, offset, environ.native_pointer(), builder);
    builder.ins0(InstData::Store { opcode, value: val, offset, base });
    proof {
        lemma_caches_kept(&s1, &b1, state, builder, environ);
        lemma_step_kept(old(state), old(builder), state, builder, environ);
    }
}

/// Whether `op` is a memory access, a comparison, an arithmetic or a conversion operator.
pub open spec fn numeric(op: Operator) -> bool {
    match op {
        Operator::Unreachable | Operator::Nop | Operator::Block { .. } | Operator::Loop { .. }
        | Operator::If { .. } | Operator::Else | Operator::End | Operator::Br { .. }
        | Operator::BrIf { .. } | Operator::BrTable { .. } | Operator::Return
        | Operator::Call { .. } | Operator::CallIndirect { .. } | Operator::Drop
        | Operator::Select | Operator::GetLocal { .. } | Operator::SetLocal { .. }
        | Operator::TeeLocal { .. } | Operator::GetGlobal { .. } | Operator::SetGlobal { .. }
        | Operator::CurrentMemory { .. } | Operator::GrowMemory { .. } | Operator::I32Const { .. }
        | Operator::I64Const { .. } | Operator::F32Const { .. } | Operator::F64Const { .. } => false,
        _ => true,
    }
}

/// Whether `op` leaves the control structure alone: it only takes values off the operand stack
/// and puts results on it.
pub open spec fn plain(op: Operator) -> bool {
    !(op is Unreachable || op is Block || op is Loop || op is If || op is Else || op is End
        || op is Br || op is BrIf || op is BrTable || op is Return)
}

/// How many values a plain operator takes off the operand stack.
pub open spec fn operands(env: &FuncEnvironment, op: Operator) -> int {
    match op {
        Operator::SetLocal { .. } => 1,
        Operator::SetGlobal { .. } => 1,
        Operator::Drop => 1,
        Operator::Select => 3,
        Operator::Call { function_index } => sig_normal_args(env.signatures@[env.functions@[function_index as int] as int]) as int,
        Operator::CallIndirect { index, .. } => 1 + sig_normal_args(env.signatures@[index as int]) as int,
        Operator::GrowMemory { .. } => 1,
        _ => if numeric(op) {
            if store_kind(op) is Some {
                2
            } else if binary_opcode(op) is Some || int_compare(op) is Some || float_compare(op) is Some {
                2
            } else {
                1
            }
        } else {
            0
        },
    }
}

/// How many results a plain operator puts on the operand stack.
pub open spec fn results(env: &FuncEnvironment, op: Operator) -> int {
    match op {
        Operator::SetLocal { .. } => 0,
        Operator::TeeLocal { .. } => 0,
        Operator::SetGlobal { .. } => 0,
        Operator::Drop => 0,
        Operator::Nop => 0,
        Operator::Call { function_index } => env.call_results(function_index) as int,
        Operator::CallIndirect { index, .. } => env.indirect_call_results(index) as int,
        _ => if numeric(op) && store_kind(op) is Some {
            0
        } else {
            1
        },
    }
}

/// A plain operator replaces its operands on top of the stack with its results.
pub open spec fn plain_step(s0: &TranslationState, s1: &TranslationState, env: &FuncEnvironment, op: Operator) -> bool {
    let kept = s0.stack.len() - operands(env, op);
    &&& s1.stack.len() == kept + results(env, op)
    &&& s1.stack@.subrange(0, kept) == s0.stack@.subrange(0, kept)
    &&& s1.control_stack@ == s0.control_stack@
}

/// The heap that an access to memory 0 uses: the cached one, or the one made next.
pub open spec fn heap0(s: &TranslationState, b: &FunctionBuilder) -> Heap {
    crate::state::cache_lookup(s.heaps@, 0, Heap { index: b.heaps.len() })
}

/// The instructions of a load or store at `offset` with address `addr`, ending with `last`,
/// appended to `b`.
pub open spec fn access_insts(s: &TranslationState, b: &FunctionBuilder, env: &FuncEnvironment, addr: Value, offset: u32, last: InstData) -> Seq<InstNode> {
    let e = b.position->0;
    (b.insts@ + addr_nodes(e, b.values.len() as nat, heap0(s, b), addr, offset, env.memory_guard_sizes@[0], env.pointer_type)).push(
        node(e, last),
    )
}

/// What a control operator emits into the function and does to the stacks in reachable
/// code, from state `s0` and function `b0`.
pub open spec fn control_ir(s0: &TranslationState, b0: &FunctionBuilder, s1: &TranslationState, b1: &FunctionBuilder, env: &FuncEnvironment, op: Operator) -> bool {
    let st = s0.stack@;
    let n = st.len() as int;
    let e = b0.position->0;
    let fresh = Ebb { index: b0.ebb_sealed.len() };
    match op {
        Operator::Unreachable => {
            &&& b1.insts@ == b0.insts@.push(node(e, InstData::Trap { code: TrapCode::User(0) }))
            &&& b1.ebb_sealed@ == b0.ebb_sealed@
            &&& b1.values@ == b0.values@
            &&& !b1.pristine
            &&& s1.stack@ == st
            &&& s1.control_stack@ == s0.control_stack@
        },
        Operator::Block { ty } => {
            &&& b1.ebb_sealed@ == b0.ebb_sealed@.push(false)
            &&& b1.insts@ == b0.insts@
            &&& b1.values@ == b0.values@ + param_defs(fresh, ty)
            &&& b1.position == b0.position
            &&& s1.stack@ == st
            &&& s1.control_stack@ == s0.control_stack@.push(
                ControlStackFrame::Block { destination: fresh, num_return_values: block_arity(ty), original_stack_size: n as usize, reachable: false },
            )
        },
        Operator::Loop { ty } => {
            let next = Ebb { index: (b0.ebb_sealed.len() + 1) as usize };
            &&& b1.ebb_sealed@ == b0.ebb_sealed@.push(false).push(false)
            &&& one_more(b0, b1)
            &&& jump_node(b1.insts@.last(), e, fresh, Seq::empty())
            &&& b1.values@ == b0.values@ + param_defs(next, ty)
            &&& b1.position == Some(fresh)
            &&& s1.stack@ == st
            &&& s1.control_stack@ == s0.control_stack@.push(
                ControlStackFrame::Loop { destination: next, header: fresh, num_return_values: block_arity(ty), original_stack_size: n as usize, reachable: false },
            )
        },
        Operator::If { ty } => {
            &&& one_more(b0, b1)
            &&& b1.insts@.last().ebb == e
            &&& b1.insts@.last().data is Brz
            &&& b1.insts@.last().data->Brz_cond == st.last()
            &&& b1.insts@.last().data->Brz_destination == fresh
            &&& b1.insts@.last().data->Brz_args@.len() == 0
            &&& b1.ebb_sealed@ == b0.ebb_sealed@.push(false)
            &&& b1.values@ == b0.values@ + param_defs(fresh, ty)
            &&& b1.position == b0.position
            &&& s1.stack@ == st.drop_last()
            &&& s1.control_stack@ == s0.control_stack@.push(
                ControlStackFrame::If {
                    destination: fresh,
                    branch_inst: Inst { index: b0.insts.len() },
                    num_return_values: block_arity(ty),
                    original_stack_size: (n - 1) as usize,
                    reachable: false,
                },
            )
        },
        Operator::Else => {
            &&& else_insts(s0, b0, b1)
            &&& b1.ebb_sealed@ == b0.ebb_sealed@.push(true)
            &&& b1.position == Some(fresh)
            &&& b1.values@ == b0.values@
            &&& s1.stack@ == st.subrange(0, n - s0.top().return_count())
            &&& s1.control_stack@ == s0.control_stack@
        },
        Operator::End => {
            &&& end_insts(s0, b0, b1)
            &&& b1.position == Some(s0.top().dest())
            &&& b1.ebb_sealed.len() == b0.ebb_sealed.len()
            &&& forall|i: int| 0 <= i < b0.ebb_sealed.len() ==> #[trigger] b1.ebb_sealed@[i] == (b0.ebb_sealed@[i]
                || s0.top().holds(Ebb { index: i as usize }))
            &&& b1.values@ == b0.values@
            &&& s1.stack@ == st.subrange(0, s0.top().stack_size() as int) + b1.params(s0.top().dest())
            &&& s1.control_stack@ == s0.control_stack@.drop_last()
        },
        Operator::Br { relative_depth } => {
            let f = s0.frame_at(relative_depth as int);
            &&& one_more(b0, b1)
            &&& jump_node(b1.insts@.last(), e, f.branch_target(), st.subrange(n - f.branch_args(), n))
            &&& b1.ebb_sealed@ == b0.ebb_sealed@
            &&& b1.values@ == b0.values@
            &&& s1.stack@ == st.subrange(0, n - f.branch_args())
            &&& s1.control_stack@ == s0.control_stack@.update(s0.control_stack.len() - 1 - relative_depth, f.marked_reachable())
        },
        Operator::BrIf { relative_depth } => {
            let f = s0.frame_at(relative_depth as int);
            &&& one_more(b0, b1)
            &&& b1.insts@.last().ebb == e
            &&& b1.insts@.last().data is Brnz
            &&& b1.insts@.last().data->Brnz_cond == st.last()
            &&& b1.insts@.last().data->Brnz_destination == f.branch_target()
            &&& b1.insts@.last().data->Brnz_args@ == st.subrange(n - 1 - f.branch_args(), n - 1)
            &&& b1.ebb_sealed@ == b0.ebb_sealed@
            &&& b1.values@ == b0.values@
            &&& s1.stack@ == st.drop_last()
            &&& s1.control_stack@ == s0.control_stack@.update(s0.control_stack.len() - 1 - relative_depth, f.marked_reachable())
        },
        Operator::BrTable { targets, default } => {
            let len = s0.control_stack.len() as int;
            &&& br_table_ir(s0, b0, b1, targets@, default)
            &&& s1.stack@ == st.subrange(0, n - 1 - s0.frame_at(min_depth(targets@, default) as int).branch_args())
            &&& s1.control_stack.len() == len
            &&& forall|k: int| 0 <= k < len ==> #[trigger] s1.control_stack@[k] == marked_if(
                s0.control_stack@[k],
                len - 1 - k == default || listed(targets@, len - 1 - k, targets.len() as int),
            )
        },
        Operator::Return => {
            &&& one_more(b0, b1)
            &&& return_node(s0, b0, b1.insts@.last(), env)
            &&& b1.ebb_sealed@ == b0.ebb_sealed@
            &&& b1.values@ == b0.values@
            &&& s1.stack@ == st.subrange(0, n - s0.control_stack@[0].return_count())
            &&& s1.control_stack@ == s0.control_stack@.update(0, s0.control_stack@[0].marked_reachable())
        },
        _ => true,
    }
}

/// What an operator does to the function in unreachable code: nothing, but at the `end` or
/// `else` of a real construct. There the builder moves to the construct's destination and
/// seals it (and a loop's header), or makes and seals a block for the `else` arm, retargets
/// the `if`'s conditional branch to it and moves there; no instruction is added either way.
pub open spec fn unreachable_ir(s0: &TranslationState, b0: &FunctionBuilder, b1: &FunctionBuilder, op: Operator) -> bool {
    let closes_real = s0.phantom_unreachable_stack_depth == 0;
    let fresh = Ebb { index: b0.ebb_sealed.len() };
    &&& b1.values@ == b0.values@
    &&& b1.jump_tables@ == b0.jump_tables@
    &&& if op is End && closes_real {
        &&& b1.insts@ == b0.insts@
        &&& b1.position == Some(s0.top().dest())
        &&& b1.ebb_sealed.len() == b0.ebb_sealed.len()
        &&& forall|i: int| 0 <= i < b0.ebb_sealed.len() ==> #[trigger] b1.ebb_sealed@[i] == (b0.ebb_sealed@[i]
            || s0.top().holds(Ebb { index: i as usize }))
    } else if op is Else && closes_real {
        let bi = s0.top()->If_branch_inst.index as int;
        &&& b1.ebb_sealed@ == b0.ebb_sealed@.push(true)
        &&& b1.position == Some(fresh)
        &&& b1.insts@ == b0.insts@.update(
            bi,
            InstNode {
                ebb: b0.insts@[bi].ebb,
                data: InstData::Brz { cond: b0.insts@[bi].data->Brz_cond, destination: fresh, args: b0.insts@[bi].data->Brz_args },
            },
        )
    } else {
        &&& b1.insts@ == b0.insts@
        &&& b1.ebb_sealed@ == b0.ebb_sealed@
        &&& b1.position == b0.position
    }
}

/// One translated operator: from state `s0` and function `b0` to `s1` and `b1`, as
/// `translate_operator` states it.
pub open spec fn step(s0: &TranslationState, b0: &FunctionBuilder, s1: &TranslationState, b1: &FunctionBuilder, env: &FuncEnvironment, op: Operator) -> bool {
    &&& s1.wf(b1, env)
    &&& s0.real_unreachable_stack_depth == 0 && plain(op) ==> plain_ir(s0, b0, s1, b1, env, op)
    &&& s0.real_unreachable_stack_depth == 0 && !plain(op) ==> control_ir(s0, b0, s1, b1, env, op)
    &&& s0.real_unreachable_stack_depth == 0 ==> s1.real_unreachable_stack_depth == depth_after(s0, op)
    &&& s0.real_unreachable_stack_depth > 0 ==> unreachable_ir(s0, b0, b1, op) && unreachable_step(s0, s1, b1, op)
    &&& shape(s1) == shape_step(shape(s0), env, op)
    &&& caches_kept(s0, s1)
}

/// The frame of the whole body stays at the bottom of the control stack, and when a step
/// closes it, the builder is at its destination with, in reachable code, that block's
/// parameters as the whole stack.
pub proof fn lemma_step_bottom(s0: &TranslationState, b0: &FunctionBuilder, s1: &TranslationState, b1: &FunctionBuilder, env: &FuncEnvironment, op: Operator)
    requires
        s0.wf(b0, env),
        s0.control_stack.len() > 0,
        op_ok(s0, env, op),
        step(s0, b0, s1, b1, env, op),
    ensures
        s1.control_stack.len() > 0 ==> s1.control_stack@[0].dest() == s0.control_stack@[0].dest()
            && s1.control_stack@[0].stack_size() == s0.control_stack@[0].stack_size(),
        s1.control_stack.len() == 0 ==> s0.control_stack.len() == 1 && b1.position == Some(s0.control_stack@[0].dest()),
        s1.control_stack.len() == 0 && s1.real_unreachable_stack_depth == 0 ==> s1.stack@ == s0.stack@.subrange(
            0,
            s0.control_stack@[0].stack_size() as int,
        ) + b1.params(s0.control_stack@[0].dest()),
{
    let f = s0.control_stack@[0];
    lemma_marked_same_blocks(f);
    if s1.control_stack.len() > 0 {
        if s1.control_stack@ == s0.control_stack@.drop_last() {
            assert(s1.control_stack@[0] == s0.control_stack@.drop_last()[0]);
        } else if s0.real_unreachable_stack_depth == 0 && opens(op) {
            assert(s1.control_stack@[0] == s0.control_stack@[0]);
        } else if s0.real_unreachable_stack_depth == 0 && op is Return {
            assert(s1.control_stack@[0] == f.marked_reachable());
        } else if s1.control_stack@ == s0.control_stack@ {
        } else if s0.real_unreachable_stack_depth == 0 && op is BrTable {
            assert(s1.control_stack@[0] == marked_if(f, s0.control_stack.len() - 1 == op->BrTable_default
                || listed(op->BrTable_targets@, s0.control_stack.len() - 1, op->BrTable_targets.len() as int)));
        } else if s0.real_unreachable_stack_depth == 0 && op is Br {
            let i = s0.control_stack.len() - 1 - op->Br_relative_depth;
            lemma_marked_same_blocks(s0.control_stack@[i]);
            if i != 0 {
                assert(s1.control_stack@[0] == f);
            }
        } else if s0.real_unreachable_stack_depth == 0 && op is BrIf {
            let i = s0.control_stack.len() - 1 - op->BrIf_relative_depth;
            lemma_marked_same_blocks(s0.control_stack@[i]);
            if i != 0 {
                assert(s1.control_stack@[0] == f);
            }
        }
    }
}

/// Every entity cached in `s0` is cached in `s1` with the same handle.
pub open spec fn caches_kept(s0: &TranslationState, s1: &TranslationState) -> bool {
    &&& forall|i: u32| #[trigger] s0.globals@.contains_key(i) ==> s1.globals@.contains_key(i) && s1.globals@[i] == s0.globals@[i]
    &&& forall|i: u32| #[trigger] s0.heaps@.contains_key(i) ==> s1.heaps@.contains_key(i) && s1.heaps@[i] == s0.heaps@[i]
    &&& forall|i: u32| #[trigger] s0.signatures@.contains_key(i) ==> s1.signatures@.contains_key(i) && s1.signatures@[i] == s0.signatures@[i]
    &&& forall|i: u32| #[trigger] s0.functions@.contains_key(i) ==> s1.functions@.contains_key(i) && s1.functions@[i] == s0.functions@[i]
}

/// What a plain operator emits into the function and leaves on the stack, from state `s0`
/// and function `b0`: the IR instructions appended at the current position, in order, and the
/// stack with the operands replaced by the results, each result being the next value defined.
pub open spec fn plain_ir(s0: &TranslationState, b0: &FunctionBuilder, s1: &TranslationState, b1: &FunctionBuilder, env: &FuncEnvironment, op: Operator) -> bool {
    let st = s0.stack@;
    let n = st.len() as int;
    let v = b0.values.len() as nat;
    let e = b0.position->0;
    let ni = b0.insts.len() as nat;
    let val = |k: nat| Value { index: (v + k) as usize };
    let res = |k: nat| ValueDef::InstResult { inst: Inst { index: (ni + k) as usize }, num: 0 };
    let emitted0 = b1.values@ == b0.values@ && !b1.pristine;
    let emitted1 = b1.values@ == b0.values@.push(res(0)) && !b1.pristine;
    let emitted2 = b1.values@ == b0.values@.push(res(0)).push(res(1)) && !b1.pristine;
    let untouched = b1.values@ == b0.values@ && b1.pristine == b0.pristine;
    let one = |d: InstData| b1.insts@ == b0.insts@.push(node(e, d)) && s1.stack@ == st.push(val(0)) && emitted1;
    let one_of = |d: InstData, k: int| b1.insts@ == b0.insts@.push(node(e, d)) && s1.stack@ == st.subrange(0, n - k).push(val(0))
        && emitted1;
    let two_of = |d1: InstData, d2: InstData, k: int| b1.insts@ == b0.insts@.push(node(e, d1)).push(node(e, d2))
        && s1.stack@ == st.subrange(0, n - k).push(val(1)) && emitted2;
    &&& b1.position == b0.position
    &&& b1.ebb_sealed@ == b0.ebb_sealed@
    &&& b1.jump_tables@ == b0.jump_tables@
    &&& s1.control_stack@ == s0.control_stack@
    &&& match op {
        Operator::GetLocal { local_index } => one(InstData::UseVar { local: local_index }),
        Operator::SetLocal { local_index } => b1.insts@ == b0.insts@.push(node(e, InstData::DefVar { local: local_index, value: st.last() }))
            && s1.stack@ == st.drop_last() && emitted0,
        Operator::TeeLocal { local_index } => b1.insts@ == b0.insts@.push(node(e, InstData::DefVar { local: local_index, value: st.last() }))
            && s1.stack@ == st && emitted0,
        Operator::GetGlobal { global_index } => match crate::state::cache_lookup(
            s0.globals@,
            global_index,
            env.global_value(global_index, crate::ir::GlobalVar { index: b0.global_vars.len() }),
        ) {
            GlobalValue::Const(c) => b1.insts@ == b0.insts@ && s1.stack@ == st.push(c) && untouched,
            GlobalValue::Memory { gv, ty } => two_of(
                InstData::GlobalAddr { ty: env.pointer_type, global: gv },
                InstData::Load { opcode: LoadOpcode::Load, ty, offset: 0, base: val(0) },
                0,
            ),
        },
        Operator::SetGlobal { global_index } => match crate::state::cache_lookup(
            s0.globals@,
            global_index,
            env.global_value(global_index, crate::ir::GlobalVar { index: b0.global_vars.len() }),
        ) {
            GlobalValue::Const(_) => false,
            GlobalValue::Memory { gv, .. } => b1.insts@ == b0.insts@.push(node(e, InstData::GlobalAddr { ty: env.pointer_type, global: gv }))
                .push(node(e, InstData::Store { opcode: StoreOpcode::Store, value: st.last(), offset: 0, base: val(0) }))
                && s1.stack@ == st.drop_last() && emitted1,
        },
        Operator::Drop => b1.insts@ == b0.insts@ && s1.stack@ == st.drop_last() && untouched,
        Operator::Nop => b1.insts@ == b0.insts@ && s1.stack@ == st && untouched,
        Operator::Select => one_of(InstData::Select { cond: st[n - 1], if_true: st[n - 3], if_false: st[n - 2] }, 3),
        Operator::Call { function_index } => {
            let f = crate::state::cache_lookup(
                s0.functions@,
                function_index,
                (crate::ir::FuncRef { index: b0.func_refs.len() }, sig_normal_args(env.signatures@[env.functions@[function_index as int] as int]) as usize),
            );
            let k = f.1 as int;
            &&& b1.insts@.len() == b0.insts@.len() + 1
            &&& b1.insts@.drop_last() == b0.insts@
            &&& b1.insts@.last().ebb == e
            &&& b1.insts@.last().data is Call
            &&& b1.insts@.last().data->Call_func == f.0
            &&& b1.insts@.last().data->Call_args@ == st.subrange(n - k, n)
            &&& s1.stack@ == st.subrange(0, n - k) + crate::builder::values_from(v as int, (v + env.call_results(function_index)) as int)
            &&& b1.values@ == b0.values@ + Seq::new(
                env.call_results(function_index),
                |k: int| ValueDef::InstResult { inst: Inst { index: b0.insts.len() }, num: k as usize },
            )
            &&& !b1.pristine
        },
        Operator::CallIndirect { index, table_index } => {
            let sig = crate::state::cache_lookup(
                s0.signatures@,
                index,
                (crate::ir::SigRef { index: b0.sig_refs.len() }, sig_normal_args(env.signatures@[index as int]) as usize),
            );
            let k = sig.1 as int;
            &&& b1.insts@.len() == b0.insts@.len() + 1
            &&& b1.insts@.drop_last() == b0.insts@
            &&& b1.insts@.last().ebb == e
            &&& b1.insts@.last().data is CallIndirect
            &&& b1.insts@.last().data->CallIndirect_sig == sig.0
            &&& b1.insts@.last().data->CallIndirect_table == table_index
            &&& b1.insts@.last().data->CallIndirect_callee == st[n - 1]
            &&& b1.insts@.last().data->CallIndirect_args@ == st.subrange(n - 1 - k, n - 1)
            &&& s1.stack@ == st.subrange(0, n - 1 - k) + crate::builder::values_from(v as int, (v + env.indirect_call_results(index)) as int)
            &&& b1.values@ == b0.values@ + Seq::new(
                env.indirect_call_results(index),
                |k: int| ValueDef::InstResult { inst: Inst { index: b0.insts.len() }, num: k as usize },
            )
            &&& !b1.pristine
        },
        Operator::GrowMemory { reserved } => one_of(
            InstData::GrowMemory { heap: crate::state::cache_lookup(s0.heaps@, reserved, Heap { index: b0.heaps.len() }), delta: st.last() },
            1,
        ),
        Operator::CurrentMemory { reserved } => one(
            InstData::CurrentMemory { heap: crate::state::cache_lookup(s0.heaps@, reserved, Heap { index: b0.heaps.len() }) },
        ),
        Operator::I32Const { value } => one(InstData::Iconst { ty: Type::I32, imm: value as i64 }),
        Operator::I64Const { value } => one(InstData::Iconst { ty: Type::I64, imm: value }),
        Operator::F32Const { bits } => one(InstData::F32const { bits }),
        Operator::F64Const { bits } => one(InstData::F64const { bits }),
        _ => if load_kind(op) is Some {
            let (opcode, ty) = load_kind(op)->Some_0;
            let offset = memarg(op)->Some_0.offset;
            &&& b1.insts@ == access_insts(s0, b0, env, st.last(), offset, InstData::Load {
                opcode,
                ty,
                offset: heap_addr_offset(offset),
                base: addr_base(v, offset),
            })
            &&& s1.stack@ == st.drop_last().push(val(addr_value_count(offset)))
            &&& b1.values@ == b0.values@ + first_results(ni, addr_value_count(offset) + 1)
            &&& !b1.pristine
        } else if store_kind(op) is Some {
            let offset = memarg(op)->Some_0.offset;
            &&& b1.insts@ == access_insts(s0, b0, env, st[n - 2], offset, InstData::Store {
                opcode: store_kind(op)->Some_0,
                value: st[n - 1],
                offset: heap_addr_offset(offset),
                base: addr_base(v, offset),
            })
            &&& s1.stack@ == st.subrange(0, n - 2)
            &&& b1.values@ == b0.values@ + first_results(ni, addr_value_count(offset))
            &&& !b1.pristine
        } else if int_compare(op) is Some {
            two_of(InstData::Icmp { cond: int_compare(op)->Some_0, lhs: st[n - 2], rhs: st[n - 1] }, InstData::Bint { ty: Type::I32, arg: val(0) }, 2)
        } else if float_compare(op) is Some {
            two_of(InstData::Fcmp { cond: float_compare(op)->Some_0, lhs: st[n - 2], rhs: st[n - 1] }, InstData::Bint { ty: Type::I32, arg: val(0) }, 2)
        } else if binary_opcode(op) is Some {
            one_of(InstData::Binary { opcode: binary_opcode(op)->Some_0, lhs: st[n - 2], rhs: st[n - 1] }, 2)
        } else if unary_opcode(op) is Some {
            one_of(InstData::Unary { opcode: unary_opcode(op)->Some_0, arg: st[n - 1] }, 1)
        } else if conversion(op) is Some {
            one_of(InstData::Conversion { opcode: conversion(op)->Some_0.0, ty: conversion(op)->Some_0.1, arg: st[n - 1] }, 1)
        } else {
            two_of(InstData::IcmpImm { cond: IntCC::Equal, arg: st[n - 1], imm: 0 }, InstData::Bint { ty: Type::I32, arg: val(0) }, 1)
        },
    }
}

/// A plain step: the stack below the operands is kept, and the results follow it.
pub proof fn lemma_plain_step(s0: &TranslationState, s1: &TranslationState, env: &FuncEnvironment, op: Operator)
    requires
        0 <= operands(env, op) <= s0.stack.len(),
        s1.stack.len() == s0.stack.len() - operands(env, op) + results(env, op),
        forall|i: int| 0 <= i < s0.stack.len() - operands(env, op) ==> #[trigger] s1.stack@[i] == s0.stack@[i],
        s1.control_stack@ == s0.control_stack@,
    ensures
        plain_step(s0, s1, env, op),
{
    let kept = s0.stack.len() - operands(env, op);
    assert(s1.stack@.subrange(0, kept) =~= s0.stack@.subrange(0, kept));
}

/// A step that adds instructions and changes only the stack, above where the innermost frame
/// started, keeps the state consistent.
pub proof fn lemma_stack_step(s0: &TranslationState, b0: &FunctionBuilder, s1: &TranslationState, b1: &FunctionBuilder, env: &FuncEnvironment)
    requires
        s0.wf(b0, env),
        s0.control_stack.len() > 0,
        s1.control_stack@ == s0.control_stack@,
        s1.phantom_unreachable_stack_depth == 0,
        s1.real_unreachable_stack_depth == 0,
        s1.stack.len() >= s0.top().stack_size(),
        s1.same_caches(s0),
        b1.wf(),
        grows(b0, b1),
    ensures
        s1.wf(b1, env),
{
    lemma_caches_kept(s0, b0, s1, b1, env);
    lemma_step_kept(s0, b0, s1, b1, env);
}

// Translate a memory access, a comparison, an arithmetic operator or a conversion: a direct
// mapping from the WebAssembly operator to IR instructions.
fn translate_numeric(op: &Operator, builder: &mut FunctionBuilder, state: &mut TranslationState, environ: &FuncEnvironment)
    requires
        old(state).wf(old(builder), environ),
        old(state).control_stack.len() > 0,
        old(state).real_unreachable_stack_depth == 0,
        numeric(*op),
        reachable_op_ok(old(state), environ, *op),
    ensures
        final(state).wf(final(builder), environ),
        plain_step(old(state), final(state), environ, *op),
        plain_ir(old(state), old(builder), final(state), final(builder), environ, *op),
        caches_kept(old(state), final(state)),
        final(state).phantom_unreachable_stack_depth == 0,
        final(state).real_unreachable_stack_depth == 0,
{
    match memarg_of(op) {
        Some(m) => {
            match load_kind_of(op) {
                Some((opcode, ty)) => {
                    translate_load(m.offset, opcode, ty, builder, state, environ);
                    proof {
                        assert forall|i: int| 0 <= i < old(state).stack.len() - 1 implies #[trigger] state.stack@[i] == old(state).stack@[i] by {
                            assert(state.stack@.drop_last()[i] == old(state).stack@.drop_last()[i]);
                        }
                        lemma_plain_step(old(state), state, environ, *op);
                    }
                },
                None => {
                    match store_kind_of(op) {
                        Some(opcode) => {
                            translate_store(m.offset, opcode, builder, state, environ);
                            proof { lemma_plain_step(old(state), state, environ, *op); }
                        },
                        None => {
                            assert(false);
                        },
                    }
                },
            }
            return ;
        },
        None => {},
    }
    assert(load_kind(*op) is None && store_kind(*op) is None);
    assert(!is_saturating(*op));
    match int_compare_of(op) {
        Some(cond) => {
            let (arg1, arg2) = state.pop2();
            let val = builder.ins1(InstData::Icmp { cond, lhs: arg1, rhs: arg2 });
            let r = builder.ins1(InstData::Bint { ty: Type::I32, arg: val });
            state.push1(r);
            proof {
                lemma_stack_step(old(state), old(builder), state, builder, environ);
                lemma_plain_step(old(state), state, environ, *op);
            }
            return ;
        },
        None => {},
    }
    match float_compare_of(op) {
        Some(cond) => {
            let (arg1, arg2) = state.pop2();
            let val = builder.ins1(InstData::Fcmp { cond, lhs: arg1, rhs: arg2 });
            let r = builder.ins1(InstData::Bint { ty: Type::I32, arg: val });
            state.push1(r);
            proof {
                lemma_stack_step(old(state), old(builder), state, builder, environ);
                lemma_plain_step(old(state), state, environ, *op);
            }
            return ;
        },
        None => {},
    }
    match binary_opcode_of(op) {
        Some(opcode) => {
            let (arg1, arg2) = state.pop2();
            let r = builder.ins1(InstData::Binary { opcode, lhs: arg1, rhs: arg2 });
            state.push1(r);
            proof {
                lemma_stack_step(old(state), old(builder), state, builder, environ);
                lemma_plain_step(old(state), state, environ, *op);
            }
            return ;
        },
        None => {},
    }
    let arg = state.pop1();
    let r = match unary_opcode_of(op) {
        Some(opcode) => builder.ins1(InstData::Unary { opcode, arg }),
        None => match conversion_of(op) {
            Some((opcode, ty)) => builder.ins1(InstData::Conversion { opcode, ty, arg }),
            None => {
                // `i32.eqz` and `i64.eqz` compare with zero.
                let val = builder.ins1(InstData::IcmpImm { cond: IntCC::Equal, arg, imm: 0 });
                builder.ins1(InstData::Bint { ty: Type::I32, arg: val })
            },
        },
    };
    state.push1(r);
    proof {
                lemma_stack_step(old(state), old(builder), state, builder, environ);
                lemma_plain_step(old(state), state, environ, *op);
            }
}

/// Translates an operator that takes values off the operand stack and puts its results on
/// it, in reachable code.
#[verifier::rlimit(50)]
fn translate_plain(op: &Operator, builder: &mut FunctionBuilder, state: &mut TranslationState, environ: &FuncEnvironment)
    requires
        old(state).wf(old(builder), environ),
        old(state).control_stack.len() > 0,
        old(state).real_unreachable_stack_depth == 0,
        plain(*op),
        reachable_op_ok(old(state), environ, *op),
    ensures
        final(state).wf(final(builder), environ),
        plain_step(old(state), final(state), environ, *op),
        plain_ir(old(state), old(builder), final(state), final(builder), environ, *op),
        caches_kept(old(state), final(state)),
        final(state).phantom_unreachable_stack_depth == 0,
        final(state).real_unreachable_stack_depth == 0,
{
    match op {
        /********************************** Locals ****************************************
         *  `get_local` and `set_local` are treated as non-SSA variables and will completely
         *  disappear in the SSA form
         ***********************************************************************************/
        Operator::GetLocal { local_index } => {
            let val = builder.ins1(InstData::UseVar { local: *local_index });
            state.push1(val);
            proof {
                lemma_stack_step(old(state), old(builder), state, builder, environ);
                lemma_plain_step(old(state), state, environ, *op);
            }
        },
        Operator::SetLocal { local_index } => {
            let val = state.pop1();
            builder.ins0(InstData::DefVar { local: *local_index, value: val });
            proof {
                lemma_stack_step(old(state), old(builder), state, builder, environ);
                lemma_plain_step(old(state), state, environ, *op);
            }
        },
        Operator::TeeLocal { local_index } => {
            let val = state.peek1();
            builder.ins0(InstData::DefVar { local: *local_index, value: val });
            proof {
                lemma_stack_step(old(state), old(builder), state, builder, environ);
                lemma_plain_step(old(state), state, environ, *op);
            }
        },
        /********************************** Globals ****************************************
         *  `get_global` and `set_global` are handled by the environment.
         ***********************************************************************************/
        Operator::GetGlobal { global_index } => {
            let global = state.get_global(builder, *global_index, environ);
            let ghost s1 = *state;
            let ghost b1 = *builder;
            let val = match global {
                GlobalValue::Const(val) => val,
                GlobalValue::Memory { gv, ty } => {
                    let addr = builder.ins1(InstData::GlobalAddr { ty: environ.native_pointer(), global: gv });
                    builder.ins1(InstData::Load { opcode: LoadOpcode::Load, ty, offset: 0, base: addr })
                },
            };
            state.push1(val);
            proof {
                assert(old(state).stack@.subrange(0, old(state).stack.len() as int) =~= old(state).stack@);
                lemma_caches_kept(&s1, &b1, state, builder, environ);
                lemma_step_kept(old(state), old(builder), state, builder, environ);
                lemma_plain_step(old(state), state, environ, *op);
            }
        },
        Operator::SetGlobal { global_index } => {
            let global = state.get_global(builder, *global_index, environ);
            let ghost s1 = *state;
            let ghost b1 = *builder;
            match global {
                GlobalValue::Const(_) => {
                    // A constant global is never written: the operator was refused above.
                    assert(false);
                },
                GlobalValue::Memory { gv, .. } => {
                    let addr = builder.ins1(InstData::GlobalAddr { ty: environ.native_pointer(), global: gv });
                    let val = state.pop1();
                    builder.ins0(InstData::Store { opcode: StoreOpcode::Store, value: val, offset: 0, base: addr });
                },
            }
            proof {
                lemma_caches_kept(&s1, &b1, state, builder, environ);
                lemma_step_kept(old(state), old(builder), state, builder, environ);
                lemma_plain_step(old(state), state, environ, *op);
            }
        },
        /********************************* Stack misc ***************************************
         *  `drop`, `nop`, `unreachable` and `select`.
         ***********************************************************************************/
        Operator::Drop => {
            state.pop1();
            proof {
                lemma_stack_step(old(state), old(builder), state, builder, environ);
                lemma_plain_step(old(state), state, environ, *op);
            }
        },
        Operator::Select => {
            let (arg1, arg2, cond) = state.pop3();
            let val = builder.ins1(InstData::Select { cond, if_true: arg1, if_false: arg2 });
            state.push1(val);
            proof {
                lemma_stack_step(old(state), old(builder), state, builder, environ);
                lemma_plain_step(old(state), state, environ, *op);
            }
        },
        Operator::Nop => {
            // We do nothing
            proof { lemma_plain_step(old(state), state, environ, *op); }
        },
        /************************************ Calls ****************************************
         * The call instructions pop off their arguments from the stack and append their
         * return values to it. `call_indirect` needs environment support because there is an
         * argument referring to an index in the external functions table of the module.
         ************************************************************************************/
        Operator::Call { function_index } => {
            let (fref, num_args) = state.get_direct_func(builder, *function_index, environ);
            let ghost s1 = *state;
            let ghost b1 = *builder;
            let args = state.peekn(num_args);
            let (_, results) = environ.translate_call(builder, *function_index, fref, args);
            state.popn(num_args);
            state.pushn(&results);
            proof {
                assert(builder.insts@.drop_last() =~= old(builder).insts@);
                lemma_caches_kept(&s1, &b1, state, builder, environ);
                lemma_step_kept(old(state), old(builder), state, builder, environ);
                lemma_plain_step(old(state), state, environ, *op);
            }
        },
        Operator::CallIndirect { index, table_index } => {
            // `index` is the index of the function's signature and `table_index` is the index
            // of the table to search the function in.
            let (sigref, num_args) = state.get_indirect_sig(builder, *index, environ);
            let ghost s1 = *state;
            let ghost b1 = *builder;
            let callee = state.pop1();
            let args = state.peekn(num_args);
            let ghost popped = state.stack@;
            let (_, results) = environ.translate_call_indirect(builder, *table_index, *index, sigref, callee, args);
            state.popn(num_args);
            state.pushn(&results);
            proof {
                assert(builder.insts@.drop_last() =~= old(builder).insts@);
                let n = old(state).stack.len() as int;
                let k = num_args as int;
                assert(popped.subrange(n - 1 - k, n - 1) =~= old(state).stack@.subrange(n - 1 - k, n - 1));
                assert(popped.subrange(0, n - 1 - k) =~= old(state).stack@.subrange(0, n - 1 - k));
                lemma_caches_kept(&s1, &b1, state, builder, environ);
                lemma_step_kept(old(state), old(builder), state, builder, environ);
                lemma_plain_step(old(state), state, environ, *op);
            }
        },
        /******************************* Memory management ***********************************
         * Memory management is handled by environment. It is usually translated into calls to
         * special functions.
         ************************************************************************************/
        Operator::GrowMemory { reserved } => {
            // The WebAssembly MVP only supports one linear memory, but we expect the reserved
            // argument to be a memory index.
            let heap = state.get_heap(builder, *reserved, environ);
            let ghost s1 = *state;
            let ghost b1 = *builder;
            let val = state.pop1();
            let r = environ.translate_grow_memory(builder, heap, val);
            state.push1(r);
            proof {
                lemma_caches_kept(&s1, &b1, state, builder, environ);
                lemma_step_kept(old(state), old(builder), state, builder, environ);
                lemma_plain_step(old(state), state, environ, *op);
            }
        },
        Operator::CurrentMemory { reserved } => {
            let heap = state.get_heap(builder, *reserved, environ);
            let ghost s1 = *state;
            let ghost b1 = *builder;
            let r = environ.translate_current_memory(builder, heap);
            state.push1(r);
            proof {
                lemma_caches_kept(&s1, &b1, state, builder, environ);
                lemma_step_kept(old(state), old(builder), state, builder, environ);
                lemma_plain_step(old(state), state, environ, *op);
            }
        },
        /******************************* Constants ***********************************/
        Operator::I32Const { value } => {
            let val = builder.ins1(InstData::Iconst { ty: Type::I32, imm: *value as i64 });
            state.push1(val);
            proof {
                lemma_stack_step(old(state), old(builder), state, builder, environ);
                lemma_plain_step(old(state), state, environ, *op);
            }
        },
        Operator::I64Const { value } => {
            let val = builder.ins1(InstData::Iconst { ty: Type::I64, imm: *value });
            state.push1(val);
            proof {
                lemma_stack_step(old(state), old(builder), state, builder, environ);
                lemma_plain_step(old(state), state, environ, *op);
            }
        },
        Operator::F32Const { bits } => {
            // The bit pattern is kept as it is, NaN payloads included.
            let val = builder.ins1(InstData::F32const { bits: *bits });
            state.push1(val);
            proof {
                lemma_stack_step(old(state), old(builder), state, builder, environ);
                lemma_plain_step(old(state), state, environ, *op);
            }
        },
        Operator::F64Const { bits } => {
            let val = builder.ins1(InstData::F64const { bits: *bits });
            state.push1(val);
            proof {
                lemma_stack_step(old(state), old(builder), state, builder, environ);
                lemma_plain_step(old(state), state, environ, *op);
            }
        },
        _ => translate_numeric(op, builder, state, environ),

    }
}

/// Translates a control operator in reachable code.
fn translate_control(op: &Operator, builder: &mut FunctionBuilder, state: &mut TranslationState, environ: &FuncEnvironment)
    requires
        old(state).wf(old(builder), environ),
        old(state).control_stack.len() > 0,
        old(state).real_unreachable_stack_depth == 0,
        !plain(*op),
        reachable_op_ok(old(state), environ, *op),
    ensures
        control_ir(old(state), old(builder), final(state), final(builder), environ, *op),
        caches_kept(old(state), final(state)),
        final(state).wf(final(builder), environ),
        nesting(final(state)) == nesting(old(state)) + nesting_delta(*op),
        old(state).real_unreachable_stack_depth > 0 ==> unreachable_step(old(state), final(state), final(builder), *op),
        old(state).real_unreachable_stack_depth == 0 ==> final(state).real_unreachable_stack_depth == depth_after(old(state), *op)
            && final(state).phantom_unreachable_stack_depth == 0,
        shape(final(state)) == shape_step(shape(old(state)), environ, *op),
        old(state).real_unreachable_stack_depth == 0 && plain(*op) ==> plain_step(old(state), final(state), environ, *op),
        old(state).real_unreachable_stack_depth == 0 && opens(*op) ==> final(state).control_stack@.drop_last()
            == old(state).control_stack@ && final(state).top().return_count() == block_arity(construct_type(*op))
            && !final(state).top().reached() && !final(builder).is_sealed(final(state).top().dest())
            && final(state).top().dest().index >= old(builder).ebb_sealed.len(),
        old(state).real_unreachable_stack_depth == 0 && *op is Else ==> final(state).control_stack@
            == old(state).control_stack@ && final(state).stack@ == old(state).stack@.subrange(
            0,
            old(state).stack.len() - old(state).top().return_count(),
        ),
        old(state).real_unreachable_stack_depth == 0 && *op is End ==> final(state).control_stack@
            == old(state).control_stack@.drop_last() && final(state).stack@ == old(state).stack@.subrange(
            0,
            old(state).top().stack_size() as int,
        ) + final(builder).params(old(state).top().dest()),
        old(state).real_unreachable_stack_depth == 0 && *op is Br ==> final(state).frame_at(op->Br_relative_depth as int).reached()
            && final(builder).has_predecessor(final(state).frame_at(op->Br_relative_depth as int).branch_target()),
        old(state).real_unreachable_stack_depth == 0 && *op is BrTable ==> br_table_edges(
            final(state),
            final(builder),
            op->BrTable_targets@,
            op->BrTable_default,
        ),
{
    match op {
        Operator::Unreachable => {
            // We use `trap user0` to indicate a user-generated trap.
            builder.ins0(InstData::Trap { code: TrapCode::User(0) });
            state.real_unreachable_stack_depth = 1;
            proof { lemma_step_kept(old(state), old(builder), state, builder, environ); }
        },
        /***************************** Control flow blocks **********************************
         *  When starting a control flow block, we create a new `Ebb` that will hold the code
         *  after the block, and we push a frame on the control stack. Depending on the type
         *  of block, we create a new `Ebb` for the body of the block with an associated
         *  jump instruction.
         *
         *  The `End` instruction pops the last control frame from the control stack, seals
         *  the destination block (since `br` instructions targeting it only appear inside the
         *  block and have already been translated) and modify the value stack to use the
         *  possible `Ebb`'s arguments values.
         ***********************************************************************************/
        Operator::Block { ty } => {
            translate_block(*ty, builder, state, environ);
            proof {
                lemma_innermost_open(state, builder);
                lemma_shape_push(old(state), state);
            }
        },
        Operator::Loop { ty } => {
            translate_loop(*ty, builder, state, environ);
            proof {
                lemma_innermost_open(state, builder);
                lemma_shape_push(old(state), state);
            }
        },
        Operator::If { ty } => {
            translate_if(*ty, builder, state, environ);
            proof {
                lemma_innermost_open(state, builder);
                lemma_shape_push(old(state), state);
            }
        },
        Operator::Else => {
            translate_else(builder, state, environ);
            proof { assert(shape(old(state)).1.last() == frame_shape(old(state).top())); }
        },
        Operator::End => {
            translate_end(builder, state, environ);
            proof {
                lemma_shape_pop(old(state), state);
                assert(shape(old(state)).1.last() == frame_shape(old(state).top()));
            }
        },
        /**************************** Branch instructions *********************************
         * The branch instructions all have as arguments a target nesting level, which
         * corresponds to how many control stack frames do we have to pop to get the
         * destination `Ebb`.
         *
         * Once the destination `Ebb` is found, we sometimes have to declare a certain depth
         * of the stack unreachable, because some branch instructions are terminator.
         *
         * The `br_table` case is much more complicated because the IR's `br_table`
         * instruction does not support jump arguments like all the other branch
         * instructions. That is why, in the case where we would use jump arguments for every
         * other branch instructions, we need to split the critical edges leaving the
         * `br_tables` by creating one `Ebb` per table destination; the `br_table` will point
         * to these newly created `Ebbs` and these `Ebb`s contain only a jump instruction
         * pointing to the final destination, this time with jump arguments.
         ***********************************************************************************/
        Operator::Br { relative_depth } => {
            translate_br(*relative_depth, builder, state, environ);
            proof {
                lemma_marked_same_blocks(old(state).frame_at(*relative_depth as int));
                let k = *relative_depth as int;
                lemma_shape_mark(old(state), state, |d: int| d == k);
                assert(shape(old(state)).1[old(state).control_stack.len() - 1 - k] == frame_shape(old(state).frame_at(k)));
            }
        },
        Operator::BrIf { relative_depth } => {
            translate_br_if(*relative_depth, builder, state, environ);
            proof {
                let k = *relative_depth as int;
                lemma_shape_mark(old(state), state, |d: int| d == k);
            }
        },
        Operator::BrTable { targets, default } => {
            translate_br_table(targets, *default, builder, state, environ);
            proof {
                let t = targets@;
                let dd = *default as int;
                lemma_shape_mark(old(state), state, |d: int| d == dd || listed(t, d, t.len() as int));
                lemma_min_frame_shape(old(state), t, *default);
            }
        },
        Operator::Return => {
            translate_return(builder, state, environ);
            proof {
                let n = old(state).control_stack.len() as int;
                lemma_shape_mark(old(state), state, |d: int| d == n - 1);
                assert(shape(old(state)).1[0] == frame_shape(old(state).control_stack@[0]));
            }
        },
        _ => {
            assert(false);
        },
    }
}

/// Whether `op` only takes values off the operand stack and puts results on it.
fn is_plain(op: &Operator) -> (r: bool)
    ensures
        r == plain(*op),
{
    match op {
        Operator::Unreachable | Operator::Block { .. } | Operator::Loop { .. } | Operator::If { .. }
        | Operator::Else | Operator::End | Operator::Br { .. } | Operator::BrIf { .. }
        | Operator::BrTable { .. } | Operator::Return => false,
        _ => true,
    }
}

/// Translates one WebAssembly operator into IR instructions. In reachable code the operator's
/// meaning is emitted; in unreachable code only the nesting is followed, to find where
/// reachable code resumes.
pub fn translate_operator(op: &Operator, builder: &mut FunctionBuilder, state: &mut TranslationState, environ: &FuncEnvironment)
    requires
        old(state).wf(old(builder), environ),
        op_ok(old(state), environ, *op),
    ensures
        step(old(state), old(builder), final(state), final(builder), environ, *op),
        old(state).real_unreachable_stack_depth == 0 && plain(*op) ==> plain_ir(old(state), old(builder), final(state), final(builder), environ, *op),
        old(state).real_unreachable_stack_depth == 0 && !plain(*op) ==> control_ir(old(state), old(builder), final(state), final(builder), environ, *op),
        old(state).real_unreachable_stack_depth > 0 ==> unreachable_ir(old(state), old(builder), final(builder), *op),
        caches_kept(old(state), final(state)),
        final(state).wf(final(builder), environ),
        nesting(final(state)) == nesting(old(state)) + nesting_delta(*op),
        old(state).real_unreachable_stack_depth > 0 ==> unreachable_step(old(state), final(state), final(builder), *op),
        old(state).real_unreachable_stack_depth == 0 ==> final(state).real_unreachable_stack_depth == depth_after(old(state), *op)
            && final(state).phantom_unreachable_stack_depth == 0,
        shape(final(state)) == shape_step(shape(old(state)), environ, *op),
        old(state).real_unreachable_stack_depth == 0 && plain(*op) ==> plain_step(old(state), final(state), environ, *op),
        old(state).real_unreachable_stack_depth == 0 && opens(*op) ==> final(state).control_stack@.drop_last()
            == old(state).control_stack@ && final(state).top().return_count() == block_arity(construct_type(*op))
            && !final(state).top().reached() && !final(builder).is_sealed(final(state).top().dest())
            && final(state).top().dest().index >= old(builder).ebb_sealed.len(),
        old(state).real_unreachable_stack_depth == 0 && *op is Else ==> final(state).control_stack@
            == old(state).control_stack@ && final(state).stack@ == old(state).stack@.subrange(
            0,
            old(state).stack.len() - old(state).top().return_count(),
        ),
        old(state).real_unreachable_stack_depth == 0 && *op is End ==> final(state).control_stack@
            == old(state).control_stack@.drop_last() && final(state).stack@ == old(state).stack@.subrange(
            0,
            old(state).top().stack_size() as int,
        ) + final(builder).params(old(state).top().dest()),
        old(state).real_unreachable_stack_depth == 0 && *op is Br ==> final(state).frame_at(op->Br_relative_depth as int).reached()
            && final(builder).has_predecessor(final(state).frame_at(op->Br_relative_depth as int).branch_target()),
        old(state).real_unreachable_stack_depth == 0 && *op is BrTable ==> br_table_edges(
            final(state),
            final(builder),
            op->BrTable_targets@,
            op->BrTable_default,
        ),
{
    if state.in_unreachable_code() {
        translate_unreachable_operator(op, builder, state, environ);
        proof { lemma_shape_unreachable(old(state), state, builder, environ, *op); }
        return ;
    }
    if is_plain(op) {
        translate_plain(op, builder, state, environ);
    } else {
        translate_control(op, builder, state, environ);
    }
}

/// The net number of constructs that `ops` opens: one for each `block`, `loop` and `if`, minus
/// one for each `end`.
pub open spec fn balance(ops: Seq<Operator>) -> int
    decreases ops.len(),
{
    if ops.len() == 0 {
        0
    } else {
        balance(ops.drop_last()) + nesting_delta(ops.last())
    }
}

/// Whether every `end` and `else` in `ops` belongs to a construct that `ops` opened before it.
pub open spec fn ends_matched(ops: Seq<Operator>) -> bool {
    &&& forall|k: int| 0 <= k <= ops.len() ==> #[trigger] balance(ops.subrange(0, k)) >= 0
    &&& forall|k: int| 0 <= k < ops.len() && (#[trigger] ops[k]) is Else ==> balance(ops.subrange(0, k)) > 0
}

/// Structured constructs are closed exactly by their matching `end`s: along a translation in
/// which each step changes the nesting as `translate_operator` states, the nesting after
/// `ops` is the nesting before plus what `ops` opens net; so after a balanced sequence the
/// control-stack depth (counting constructs opened in unreachable code) is restored.
pub proof fn lemma_nesting_restored(states: Seq<TranslationState>, ops: Seq<Operator>)
    requires
        states.len() == ops.len() + 1,
        forall|i: int| 0 <= i < ops.len() ==> nesting(&#[trigger] states[i + 1]) == nesting(&states[i]) + nesting_delta(ops[i]),
    ensures
        nesting(&states.last()) == nesting(&states[0]) + balance(ops),
        balance(ops) == 0 ==> nesting(&states.last()) == nesting(&states[0]),
    decreases ops.len(),
{
    if ops.len() > 0 {
        let n = ops.len() as int;
        let s2 = states.subrange(0, n);
        let o2 = ops.subrange(0, n - 1);
        assert(ops.drop_last() =~= o2);
        assert forall|i: int| 0 <= i < o2.len() implies nesting(&#[trigger] s2[i + 1]) == nesting(&s2[i]) + nesting_delta(o2[i]) by {
            assert(s2[i + 1] == states[i + 1]);
            assert(s2[i] == states[i]);
        }
        lemma_nesting_restored(s2, o2);
        assert(nesting(&states[n]) == nesting(&states[n - 1]) + nesting_delta(ops[n - 1]));
    }
}

/// Constructs opened in unreachable code are closed by their own `end`s: along unreachable
/// code in which every `end` closes a construct opened there, the phantom depth after `ops`
/// is the phantom depth before plus what `ops` opens net, while the real depth, the control
/// stack and the operand stack do not change. So once those constructs are closed, the
/// phantom depth is back where it was, and the next `end` or `else` closes a real frame.
pub proof fn lemma_phantom_restored(states: Seq<TranslationState>, builders: Seq<FunctionBuilder>, ops: Seq<Operator>)
    requires
        states.len() == ops.len() + 1,
        builders.len() == ops.len(),
        states[0].real_unreachable_stack_depth > 0,
        ends_matched(ops),
        forall|i: int|
            0 <= i < ops.len() ==> #[trigger] unreachable_step(&states[i], &states[i + 1], &builders[i], ops[i]),
    ensures
        states.last().phantom_unreachable_stack_depth == states[0].phantom_unreachable_stack_depth + balance(ops),
        states.last().real_unreachable_stack_depth == states[0].real_unreachable_stack_depth,
        states.last().control_stack@ == states[0].control_stack@,
        balance(ops) == 0 ==> states.last().phantom_unreachable_stack_depth == states[0].phantom_unreachable_stack_depth,
    decreases ops.len(),
{
    if ops.len() > 0 {
        let n = ops.len() as int;
        let s2 = states.subrange(0, n);
        let b2 = builders.subrange(0, n - 1);
        let o2 = ops.subrange(0, n - 1);
        assert(ops.drop_last() =~= o2);
        assert forall|k: int| 0 <= k <= o2.len() implies #[trigger] balance(o2.subrange(0, k)) >= 0 by {
            assert(o2.subrange(0, k) =~= ops.subrange(0, k));
            assert(balance(ops.subrange(0, k)) >= 0);
        }
        assert forall|k: int| 0 <= k < o2.len() && (#[trigger] o2[k]) is Else implies balance(o2.subrange(0, k)) > 0 by {
            assert(o2.subrange(0, k) =~= ops.subrange(0, k));
            assert(ops[k] == o2[k]);
        }
        assert(o2 =~= ops.subrange(0, n - 1));
        assert forall|i: int| 0 <= i < o2.len() implies #[trigger] unreachable_step(&s2[i], &s2[i + 1], &b2[i], o2[i]) by {
            assert(unreachable_step(&states[i], &states[i + 1], &builders[i], ops[i]));
        }
        lemma_phantom_restored(s2, b2, o2);
        assert(ops.subrange(0, n) =~= ops);
        assert(balance(ops.subrange(0, n)) >= 0);
        assert(unreachable_step(&states[n - 1], &states[n], &builders[n - 1], ops[n - 1]));
        assert(states[n - 1] == s2.last());
    }
}

/// The block that the innermost frame holds open is not sealed yet.
pub proof fn lemma_innermost_open(s: &TranslationState, b: &FunctionBuilder)
    requires
        s.blocks_wf(b),
        s.control_stack.len() > 0,
    ensures
        !b.is_sealed(s.top().dest()),
        s.control_stack@.drop_last().push(s.top()) == s.control_stack@,
{
    let n = s.control_stack.len() - 1;
    assert(s.control_stack@[n].holds(s.top().dest()));
    assert(s.pending(s.top().dest()));
    assert(s.control_stack@.drop_last().push(s.top()) =~= s.control_stack@);
}

/// The operand stack never falls below where the innermost open construct started, and the
/// constructs started at nondecreasing heights; this holds after every operator, since
/// `translate_operator` keeps the state consistent.
pub proof fn lemma_stack_above_frames(s: &TranslationState, b: &FunctionBuilder, env: &FuncEnvironment)
    requires
        s.wf(b, env),
    ensures
        forall|k: int| 0 <= k < s.control_stack.len() ==> (#[trigger] s.control_stack@[k]).stack_size() <= s.stack.len(),
{
    assert forall|k: int| 0 <= k < s.control_stack.len() implies (#[trigger] s.control_stack@[k]).stack_size() <= s.stack.len() by {
        let n = s.control_stack.len() - 1;
        assert(s.control_stack@[k].stack_size() <= s.control_stack@[n].stack_size());
    }
}

/// What the translation of later operators depends on, of a frame: its kind (0 for a block,
/// 1 for a loop, 2 for an if), the number of values it produces, the stack height where it
/// started, and whether a branch targets it.
pub open spec fn frame_shape(f: ControlStackFrame) -> (int, nat, nat, bool) {
    (
        if f is Loop {
            1int
        } else if f is If {
            2int
        } else {
            0int
        },
        f.return_count() as nat,
        f.stack_size() as nat,
        f.reached(),
    )
}

/// What the translation of later operators depends on, of a state: the operand stack height,
/// the frames' shapes, the depth and the phantom unreachable depths.
pub open spec fn shape(s: &TranslationState) -> (nat, Seq<(int, nat, nat, bool)>, nat, nat) {
    (
        s.stack.len() as nat,
        s.control_stack@.map_values(|f: ControlStackFrame| frame_shape(f)),
        s.real_unreachable_stack_depth as nat,
        s.phantom_unreachable_stack_depth as nat,
    )
}

/// The number of values a branch to a frame of shape `f` carries.
pub open spec fn shape_branch_args(f: (int, nat, nat, bool)) -> nat {
    if f.0 == 1 {
        0
    } else {
        f.1
    }
}

/// `op_ok` on shapes.
pub open spec fn shape_ok(sh: (nat, Seq<(int, nat, nat, bool)>, nat, nat), env: &FuncEnvironment, op: Operator) -> bool {
    let (h, fr, depth, ph) = sh;
    if depth > 0 {
        match op {
            Operator::Block { .. } => ph < usize::MAX,
            Operator::Loop { .. } => ph < usize::MAX,
            Operator::If { .. } => ph < usize::MAX,
            Operator::End => ph > 0 || fr.len() > 0,
            Operator::Else => ph > 0 || (fr.len() > 0 && fr.last().0 == 2),
            _ => true,
        }
    } else if fr.len() == 0 {
        false
    } else {
        let avail = h - fr.last().2;
        let n = fr.len();
        let at = |d: int| fr[n - 1 - d];
        match op {
            Operator::Unreachable => true,
            Operator::Nop => true,
            Operator::Block { .. } => true,
            Operator::Loop { .. } => true,
            Operator::If { .. } => avail >= 1,
            Operator::Else => fr.last().0 == 2 && avail >= fr.last().1,
            Operator::End => avail >= fr.last().1,
            Operator::Br { relative_depth } => relative_depth < n && avail >= shape_branch_args(at(relative_depth as int)),
            Operator::BrIf { relative_depth } => relative_depth < n && avail >= 1 + shape_branch_args(at(relative_depth as int)),
            Operator::BrTable { targets, default } => default < n && (forall|j: int|
                0 <= j < targets.len() ==> #[trigger] targets@[j] < n) && avail >= 1 + shape_branch_args(
                at(min_depth(targets@, default) as int),
            ),
            Operator::Return => avail >= fr[0].1,
            Operator::TeeLocal { .. } => avail >= 1,
            _ => avail >= operands(env, op) && reachable_op_ok_static(env, op),
        }
    }
}

/// The conditions of `reachable_op_ok` that do not depend on the stacks.
pub open spec fn reachable_op_ok_static(env: &FuncEnvironment, op: Operator) -> bool {
    match op {
        Operator::Call { function_index } => function_index < env.functions.len(),
        Operator::CallIndirect { index, .. } => index < env.signatures.len(),
        Operator::GetGlobal { global_index } => global_index < env.globals.len(),
        Operator::SetGlobal { global_index } => global_index < env.globals.len()
            && env.globals@[global_index as int] is Memory,
        Operator::CurrentMemory { reserved } => reserved < env.memory_guard_sizes.len(),
        Operator::GrowMemory { reserved } => reserved < env.memory_guard_sizes.len(),
        _ => if is_saturating(op) {
            false
        } else if load_kind(op) is Some || store_kind(op) is Some {
            heap0_ok(env)
        } else {
            true
        },
    }
}

/// Whether depth `d` is among the first `upto` depths of `targets`.
pub open spec fn listed(targets: Seq<u32>, d: int, upto: int) -> bool {
    exists|m: int| 0 <= m < upto && targets[m] as int == d
}

/// The frames `fr` with those at the given depths marked reachable.
pub open spec fn mark_depths(fr: Seq<(int, nat, nat, bool)>, marked: spec_fn(int) -> bool) -> Seq<(int, nat, nat, bool)> {
    Seq::new(fr.len(), |k: int| if marked(fr.len() - 1 - k) {
        (fr[k].0, fr[k].1, fr[k].2, true)
    } else {
        fr[k]
    })
}

/// The shape after translating `op` from shape `sh`.
pub open spec fn shape_step(sh: (nat, Seq<(int, nat, nat, bool)>, nat, nat), env: &FuncEnvironment, op: Operator) -> (nat, Seq<(int, nat, nat, bool)>, nat, nat) {
    let (h, fr, depth, ph) = sh;
    let n = fr.len();
    if depth > 0 {
        if opens(op) {
            (h, fr, depth, ph + 1)
        } else if op is End && ph > 0 {
            (h, fr, depth, (ph - 1) as nat)
        } else if op is End {
            let f = fr.last();
            let resumes = f.0 == 2 || f.3 || depth == 1;
            (
                if resumes { f.2 + f.1 } else { f.2 },
                fr.drop_last(),
                if resumes { 0 } else { (depth - 1) as nat },
                0,
            )
        } else if op is Else && ph == 0 {
            (fr.last().2, fr, 0, 0)
        } else {
            sh
        }
    } else {
        match op {
            Operator::Unreachable => (h, fr, 1, 0),
            Operator::Block { ty } => (h, fr.push((0, block_arity(ty) as nat, h, false)), 0, 0),
            Operator::Loop { ty } => (h, fr.push((1, block_arity(ty) as nat, h, false)), 0, 0),
            Operator::If { ty } => ((h - 1) as nat, fr.push((2, block_arity(ty) as nat, (h - 1) as nat, false)), 0, 0),
            Operator::Else => ((h - fr.last().1) as nat, fr, 0, 0),
            Operator::End => (fr.last().2 + fr.last().1, fr.drop_last(), 0, 0),
            Operator::Br { relative_depth } => (
                (h - shape_branch_args(fr[n - 1 - relative_depth])) as nat,
                mark_depths(fr, |d: int| d == relative_depth),
                (1 + relative_depth) as nat,
                0,
            ),
            Operator::BrIf { relative_depth } => (
                (h - 1) as nat,
                mark_depths(fr, |d: int| d == relative_depth),
                0,
                0,
            ),
            Operator::BrTable { targets, default } => (
                (h - 1 - shape_branch_args(fr[n - 1 - min_depth(targets@, default)])) as nat,
                mark_depths(fr, |d: int| d == default || listed(targets@, d, targets.len() as int)),
                (1 + min_depth(targets@, default)) as nat,
                0,
            ),
            Operator::Return => (
                (h - fr[0].1) as nat,
                mark_depths(fr, |d: int| d == n - 1),
                1,
                0,
            ),
            _ => ((h - operands(env, op) + results(env, op)) as nat, fr, 0, 0),
        }
    }
}

/// `op_ok` depends on the shape of the state alone.
pub proof fn lemma_op_ok_shape(s: &TranslationState, env: &FuncEnvironment, op: Operator)
    requires
        s.stacks_wf(),
    ensures
        op_ok(s, env, op) == shape_ok(shape(s), env, op),
{
    let fr = shape(s).1;
    assert forall|k: int| 0 <= k < s.control_stack.len() implies #[trigger] fr[k] == frame_shape(s.control_stack@[k]) by {}
    if s.control_stack.len() > 0 {
        assert(fr.last() == frame_shape(s.top()));
        assert(fr[0] == frame_shape(s.control_stack@[0]));
    }
}

/// Frames after popping the innermost one.
pub proof fn lemma_shape_pop(s0: &TranslationState, s1: &TranslationState)
    requires
        s0.control_stack.len() > 0,
        s1.control_stack@ == s0.control_stack@.drop_last(),
    ensures
        shape(s1).1 == shape(s0).1.drop_last(),
{
    assert(shape(s1).1 =~= shape(s0).1.drop_last());
}

/// Frames after pushing one.
pub proof fn lemma_shape_push(s0: &TranslationState, s1: &TranslationState)
    requires
        s1.control_stack.len() == s0.control_stack.len() + 1,
        forall|k: int| 0 <= k < s0.control_stack.len() ==> #[trigger] s1.control_stack@[k] == s0.control_stack@[k],
    ensures
        shape(s1).1 == shape(s0).1.push(frame_shape(s1.top())),
{
    assert(shape(s1).1 =~= shape(s0).1.push(frame_shape(s1.top())));
}

/// Frames after marking those at the depths `marked` reachable.
pub proof fn lemma_shape_mark(s0: &TranslationState, s1: &TranslationState, marked: spec_fn(int) -> bool)
    requires
        s1.control_stack.len() == s0.control_stack.len(),
        forall|k: int| 0 <= k < s0.control_stack.len() ==> #[trigger] s1.control_stack@[k] == if marked(
            s0.control_stack.len() - 1 - k,
        ) {
            s0.control_stack@[k].marked_reachable()
        } else {
            s0.control_stack@[k]
        },
    ensures
        shape(s1).1 == mark_depths(shape(s0).1, marked),
{
    assert forall|k: int| 0 <= k < s0.control_stack.len() implies #[trigger] shape(s1).1[k] == mark_depths(shape(s0).1, marked)[k] by {
        lemma_marked_same_blocks(s0.control_stack@[k]);
    }
    assert(shape(s1).1 =~= mark_depths(shape(s0).1, marked));
}

/// In unreachable code the shape follows `shape_step`.
pub proof fn lemma_shape_unreachable(s0: &TranslationState, s1: &TranslationState, b: &FunctionBuilder, env: &FuncEnvironment, op: Operator)
    requires
        s0.real_unreachable_stack_depth > 0,
        unreachable_step(s0, s1, b, op),
        op is End && s0.phantom_unreachable_stack_depth == 0 ==> s0.control_stack.len() > 0
            && b.params(s0.top().dest()).len() == s0.top().return_count(),
        op is Else && s0.phantom_unreachable_stack_depth == 0 ==> s0.control_stack.len() > 0
            && s0.top().stack_size() <= s0.stack.len(),
        op is End && s0.phantom_unreachable_stack_depth == 0 ==> s0.top().stack_size() <= s0.stack.len(),
    ensures
        shape(s1) == shape_step(shape(s0), env, op),
{
    if op is End && s0.phantom_unreachable_stack_depth == 0 {
        lemma_shape_pop(s0, s1);
        assert(shape(s0).1.last() == frame_shape(s0.top()));
    }
    if op is Else && s0.phantom_unreachable_stack_depth == 0 {
        assert(shape(s0).1.last() == frame_shape(s0.top()));
    }
}

/// The shape of the frame a `br_table` takes its argument count from.
pub proof fn lemma_min_frame_shape(s: &TranslationState, targets: Seq<u32>, default: u32)
    requires
        default < s.control_stack.len(),
    ensures
        min_depth(targets, default) < s.control_stack.len() ==> shape(s).1[s.control_stack.len() - 1 - min_depth(targets, default)]
            == frame_shape(s.frame_at(min_depth(targets, default) as int)),
{
}

/// Two translations of the same operators in the same environment, from states of the same
/// shape, go through states of the same shapes: the operand stack heights, the frames (kinds,
/// arities, heights, reachability) and the unreachable depths agree after every operator.
pub proof fn lemma_shape_deterministic(
    a: Seq<TranslationState>,
    b: Seq<TranslationState>,
    env: &FuncEnvironment,
    ops: Seq<Operator>,
)
    requires
        a.len() == ops.len() + 1,
        b.len() == ops.len() + 1,
        shape(&a[0]) == shape(&b[0]),
        forall|i: int| 0 <= i < ops.len() ==> shape(&#[trigger] a[i + 1]) == shape_step(shape(&a[i]), env, ops[i]),
        forall|i: int| 0 <= i < ops.len() ==> shape(&#[trigger] b[i + 1]) == shape_step(shape(&b[i]), env, ops[i]),
    ensures
        forall|i: int| 0 <= i < a.len() ==> shape(&#[trigger] a[i]) == shape(&b[i]),
    decreases ops.len(),
{
    if ops.len() > 0 {
        let n = ops.len() as int;
        lemma_shape_deterministic(a.subrange(0, n), b.subrange(0, n), env, ops.subrange(0, n - 1));
        assert forall|i: int| 0 <= i < a.len() implies shape(&#[trigger] a[i]) == shape(&b[i]) by {
            if i < n {
                assert(a.subrange(0, n)[i] == a[i]);
                assert(b.subrange(0, n)[i] == b[i]);
            } else {
                assert(a.subrange(0, n)[n - 1] == a[n - 1]);
                assert(b.subrange(0, n)[n - 1] == b[n - 1]);
                assert(shape(&a[n]) == shape_step(shape(&a[n - 1]), env, ops[n - 1]));
                assert(shape(&b[n]) == shape_step(shape(&b[n - 1]), env, ops[n - 1]));
            }
        }
    }
}

/// Along any sequence of translation steps, every entity cached at the start keeps its handle:
/// a later `get_*` of the same index returns the handle the first one returned, whatever was
/// translated in between.
pub proof fn lemma_caches_kept_along(ss: Seq<TranslationState>)
    requires
        ss.len() > 0,
        forall|i: int| #![trigger ss[i]] 0 <= i < ss.len() - 1 ==> caches_kept(&ss[i], &ss[i + 1]),
    ensures
        caches_kept(&ss[0], &ss.last()),
    decreases ss.len(),
{
    if ss.len() > 1 {
        let prev = ss.drop_last();
        assert forall|i: int| #![trigger prev[i]] 0 <= i < prev.len() - 1 implies caches_kept(&prev[i], &prev[i + 1]) by {
            assert(prev[i] == ss[i] && prev[i + 1] == ss[i + 1]);
        }
        lemma_caches_kept_along(prev);
        assert(caches_kept(&ss[ss.len() - 2], &ss[ss.len() - 1]));
        assert(prev.last() == ss[ss.len() - 2]);
    }
}

/// Two frame shapes agree in kind, arity and starting height.
pub open spec fn same_frame(f: (int, nat, nat, bool), g: (int, nat, nat, bool)) -> bool {
    f.0 == g.0 && f.1 == g.1 && f.2 == g.2
}

/// A step changes no frame below the innermost ones it pushes or pops, but for its flag.
pub proof fn lemma_shape_frames_kept(sh: (nat, Seq<(int, nat, nat, bool)>, nat, nat), env: &FuncEnvironment, op: Operator)
    ensures
        forall|k: int|
            0 <= k < sh.1.len() && k < shape_step(sh, env, op).1.len() ==> same_frame(
                #[trigger] shape_step(sh, env, op).1[k],
                sh.1[k],
            ),
{
    let r = shape_step(sh, env, op);
    assert forall|k: int| 0 <= k < sh.1.len() && k < r.1.len() implies same_frame(#[trigger] r.1[k], sh.1[k]) by {
        if sh.2 > 0 {
            if op is End && sh.3 == 0 {
                assert(r.1[k] == sh.1.drop_last()[k]);
            }
        } else {
            match op {
                Operator::Block { ty } => assert(r.1[k] == sh.1.push((0, block_arity(ty) as nat, sh.0, false))[k]),
                Operator::Loop { ty } => assert(r.1[k] == sh.1.push((1, block_arity(ty) as nat, sh.0, false))[k]),
                Operator::If { ty } => assert(r.1[k] == sh.1.push((2, block_arity(ty) as nat, (sh.0 - 1) as nat, false))[k]),
                Operator::End => assert(r.1[k] == sh.1.drop_last()[k]),
                _ => {},
            }
        }
    }
}

/// Frames up to `l` keep their kind, arity and height from step 1 to step `upto`, while the
/// control stack stays deeper than `l`.
proof fn lemma_frames_below(
    shs: Seq<(nat, Seq<(int, nat, nat, bool)>, nat, nat)>,
    env: &FuncEnvironment,
    ops: Seq<Operator>,
    l: int,
    upto: int,
)
    requires
        shs.len() == ops.len() + 1,
        1 <= upto <= ops.len(),
        0 <= l,
        forall|k: int| 0 <= k < ops.len() ==> shs[k + 1] == #[trigger] shape_step(shs[k], env, ops[k]),
        forall|k: int| 1 <= k <= upto ==> (#[trigger] shs[k]).1.len() > l,
    ensures
        forall|m: int| 0 <= m <= l ==> same_frame(#[trigger] shs[upto].1[m], shs[1].1[m]),
    decreases upto,
{
    if upto > 1 {
        lemma_frames_below(shs, env, ops, l, upto - 1);
        assert(shs[upto] == shape_step(shs[upto - 1], env, ops[upto - 1]));
        assert(shs[upto - 1].1.len() > l);
        lemma_shape_frames_kept(shs[upto - 1], env, ops[upto - 1]);
    }
}

/// A construct opened in reachable code and closed by its matching `end`, reached in
/// reachable code: the control stack is back to its depth before the construct, the frames
/// below it are unchanged but for their flags, and the operand stack is as high as before,
/// less the condition of an `if`, plus the values the construct produces.
pub proof fn lemma_construct_closed(
    shs: Seq<(nat, Seq<(int, nat, nat, bool)>, nat, nat)>,
    env: &FuncEnvironment,
    ops: Seq<Operator>,
)
    requires
        shs.len() == ops.len() + 1,
        ops.len() >= 2,
        forall|k: int| 0 <= k < ops.len() ==> shs[k + 1] == #[trigger] shape_step(shs[k], env, ops[k]),
        shs[0].2 == 0,
        opens(ops[0]),
        ops[0] is If ==> shs[0].0 >= 1,
        forall|k: int| 1 <= k < ops.len() ==> (#[trigger] shs[k]).1.len() > shs[0].1.len(),
        ops.last() is End,
        shs[ops.len() - 1].2 == 0,
        shs.last().1.len() == shs[0].1.len(),
    ensures
        forall|m: int| 0 <= m < shs[0].1.len() ==> same_frame(#[trigger] shs.last().1[m], shs[0].1[m]),
        shs.last().0 == shs[0].0 - (if ops[0] is If { 1int } else { 0int }) + block_arity(construct_type(ops[0])),
{
    let l = shs[0].1.len() as int;
    let n = ops.len() as int;
    assert(shs[1] == shape_step(shs[0], env, ops[0]));
    lemma_frames_below(shs, env, ops, l, n - 1);
    lemma_shape_frames_kept(shs[0], env, ops[0]);
    assert(shs[n] == shape_step(shs[n - 1], env, ops[n - 1]));
    assert(shs[n - 1].1.len() == l + 1);
    assert(shs[n - 1].1.last() == shs[n - 1].1[l]);
    assert(same_frame(shs[n - 1].1[l], shs[1].1[l]));
    lemma_shape_frames_kept(shs[n - 1], env, ops[n - 1]);
    assert forall|m: int| 0 <= m < l implies same_frame(#[trigger] shs.last().1[m], shs[0].1[m]) by {
        assert(same_frame(shs[n].1[m], shs[n - 1].1[m]));
        assert(same_frame(shs[n - 1].1[m], shs[1].1[m]));
        assert(same_frame(shs[1].1[m], shs[0].1[m]));
    }
}

} // verus!

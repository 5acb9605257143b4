//! Translation of a whole function body: the entry driver.
//!
//! The driver creates the entry and exit blocks, feeds the operators to the translator one by
//! one, and returns from the exit block once the body's last `end` has been translated.
use vstd::prelude::*;
use crate::builder::FunctionBuilder;
use crate::code_translator::{
    step,    available, heap0_ok, lemma_min_depth, lemma_op_ok_shape, min_depth, op_ok, shape, shape_ok,
    shape_step, translate_operator,
};
use crate::environ::{FuncEnvironment, GlobalDesc};
use crate::ir::{ArgumentPurpose, Ebb, InstData, Signature};
use crate::operator::{
    binary_opcode_of, float_compare_of, int_compare_of, is_saturating, load_kind_of, saturating,
    store_kind_of, Operator,
};
use crate::state::{count_normal, normal_args, ControlStackFrame, TranslationState};

verus! {

/// Why a function body could not be translated.
#[derive(Clone, Copy, Debug, PartialEq, Eq, Structural)]
pub enum TranslationError {
    /// The operator at this position cannot stand where it is: it takes more values than the
    /// stack holds, names a frame or an entity that does not exist, writes a constant global,
    /// or closes a construct that is not open.
    InvalidOperator { offset: usize },
    /// The operator at this position is a saturating float-to-int conversion, which is not
    /// supported.
    Unsupported { offset: usize },
    /// An operator follows the `end` of the body.
    TrailingOperator { offset: usize },
    /// The body ends before the `end` that closes it.
    MissingEnd,
}

/// The shape in which the translation of a function with signature `sig` starts: an empty
/// stack and the frame of the whole body.
pub open spec fn initial_shape(sig: Signature) -> (nat, Seq<(int, nat, nat, bool)>, nat, nat) {
    (0, seq![(0int, count_normal(sig.returns@), 0nat, false)], 0, 0)
}

/// The shape after translating `ops` in a function with signature `sig`, if each operator
/// found a construct open and could be translated where it stands.
pub open spec fn run(sig: Signature, env: &FuncEnvironment, ops: Seq<Operator>) -> Option<(nat, Seq<(int, nat, nat, bool)>, nat, nat)>
    decreases ops.len(),
{
    if ops.len() == 0 {
        Some(initial_shape(sig))
    } else {
        match run(sig, env, ops.drop_last()) {
            Some(sh) => if sh.1.len() > 0 && shape_ok(sh, env, ops.last()) {
                Some(shape_step(sh, env, ops.last()))
            } else {
                None
            },
            None => None,
        }
    }
}

/// The function that the translation of a body with signature `sig` starts from: a sealed
/// entry block with the function's parameters, where the builder stands, and an unsealed exit
/// block with the normal return values; no instruction and no entity yet.
pub open spec fn initial_function(sig: Signature, b: &FunctionBuilder) -> bool {
    &&& b.ebb_sealed@ == seq![true, false]
    &&& b.insts@.len() == 0
    &&& b.jump_tables@.len() == 0
    &&& b.heaps@.len() == 0
    &&& b.global_vars@.len() == 0
    &&& b.sig_refs@.len() == 0
    &&& b.func_refs@.len() == 0
    &&& b.position == Some(Ebb { index: 0 })
    &&& b.entry == Some(Ebb { index: 0 })
    &&& b.params(Ebb { index: 0 }).len() == sig.params.len()
    &&& b.params(Ebb { index: 1 }).len() == count_normal(sig.returns@)
}

/// The state that the translation of a body with signature `sig` starts from: empty stacks
/// but the frame of the whole body, whose destination is the exit block.
pub open spec fn initial_state(sig: Signature, s: &TranslationState) -> bool {
    &&& s.stack@.len() == 0
    &&& s.control_stack@ == seq![
        ControlStackFrame::Block {
            destination: Ebb { index: 1 },
            num_return_values: count_normal(sig.returns@) as usize,
            original_stack_size: 0,
            reachable: false,
        },
    ]
    &&& s.phantom_unreachable_stack_depth == 0
    &&& s.real_unreachable_stack_depth == 0
    &&& s.globals@.len() == 0
    &&& s.heaps@.len() == 0
    &&& s.signatures@.len() == 0
    &&& s.functions@.len() == 0
}

/// `r` is the translation of `ops`: the states `ss` and functions `bs` go from the initial
/// ones through one `step` per operator until the body's frame is closed, and `r` is the last
/// function, with a return of the exit block's parameters appended where translation ended
/// in reachable code and the exit block can be reached.
pub open spec fn translation(
    sig: Signature,
    env: &FuncEnvironment,
    ops: Seq<Operator>,
    ss: Seq<TranslationState>,
    bs: Seq<FunctionBuilder>,
    r: FunctionBuilder,
) -> bool {
    let exit = Ebb { index: 1 };
    let last = bs.last();
    &&& ss.len() == ops.len() + 1
    &&& bs.len() == ops.len() + 1
    &&& initial_state(sig, &ss[0])
    &&& initial_function(sig, &bs[0])
    &&& forall|i: int| 0 <= i < ops.len() ==> #[trigger] step(&ss[i], &bs[i], &ss[i + 1], &bs[i + 1], env, ops[i])
    &&& ss.last().control_stack.len() == 0
    &&& r.position == Some(exit)
    &&& if ss.last().real_unreachable_stack_depth == 0 && !last.current_unreachable() {
        &&& r.insts.len() == last.insts.len() + 1
        &&& r.insts@.drop_last() == last.insts@
        &&& r.insts@.last().ebb == exit
        &&& r.insts@.last().data is Return
        &&& r.insts@.last().data->Return_args@ == r.params(exit)
        &&& r.values@ == last.values@
        &&& r.ebb_sealed@ == last.ebb_sealed@
        &&& r.jump_tables@ == last.jump_tables@
    } else {
        r == last
    }
}

/// Once an operator cannot be translated, no longer sequence can be.
pub proof fn lemma_run_stuck(sig: Signature, env: &FuncEnvironment, ops: Seq<Operator>, i: int)
    requires
        0 <= i < ops.len(),
        run(sig, env, ops.subrange(0, i + 1)) is None,
    ensures
        run(sig, env, ops) is None,
    decreases ops.len(),
{
    if ops.len() == i + 1 {
        assert(ops.subrange(0, i + 1) =~= ops);
    } else {
        let prev = ops.drop_last();
        assert(prev.subrange(0, i + 1) =~= ops.subrange(0, i + 1));
        lemma_run_stuck(sig, env, prev, i);
    }
}

/// The number of values a branch to `frame` carries.
fn branch_args_of(frame: &ControlStackFrame) -> (r: usize)
    ensures
        r == frame.branch_args(),
{
    if frame.is_loop() {
        0
    } else {
        frame.num_return_values()
    }
}

/// Whether `op` may be translated in `state`.
pub fn operator_ok(state: &TranslationState, environ: &FuncEnvironment, op: &Operator) -> (r: bool)
    requires
        state.stacks_wf(),
        environ.wf(),
    ensures
        r == op_ok(state, environ, *op),
{
    let n = state.control_stack.len();
    if state.real_unreachable_stack_depth > 0 {
        let phantom = state.phantom_unreachable_stack_depth;
        return match op {
            Operator::Block { .. } | Operator::Loop { .. } | Operator::If { .. } => phantom < usize::MAX,
            Operator::End => phantom > 0 || n > 0,
            Operator::Else => phantom > 0 || (n > 0 && matches!(state.control_stack[n - 1], ControlStackFrame::If { .. })),
            _ => true,
        };
    }
    if n == 0 {
        return false;
    }
    let top = state.control_stack[n - 1];
    let avail = state.stack.len() - top.original_stack_size();
    assert(avail == available(state));
    match op {
        Operator::Unreachable | Operator::Nop | Operator::Block { .. } | Operator::Loop { .. } => true,
        Operator::If { .. } => avail >= 1,
        Operator::Else => matches!(top, ControlStackFrame::If { .. }) && avail >= top.num_return_values(),
        Operator::End => avail >= top.num_return_values(),
        Operator::Br { relative_depth } => (*relative_depth as usize) < n && avail >= branch_args_of(
            &state.control_stack[n - 1 - *relative_depth as usize],
        ),
        Operator::BrIf { relative_depth } => (*relative_depth as usize) < n && avail >= 1 && avail - 1
            >= branch_args_of(&state.control_stack[n - 1 - *relative_depth as usize]),
        Operator::BrTable { targets, default } => {
            if *default as usize >= n {
                return false;
            }
            let mut min: u32 = *default;
            let mut j: usize = 0;
            while j < targets.len()
                invariant
                    j <= targets.len(),
                    min == min_depth(targets@.subrange(0, j as int), *default),
                    forall|m: int| 0 <= m < j ==> #[trigger] targets@[m] < n,
                    *op is BrTable,
                    targets@ == op->BrTable_targets@,
                    n == state.control_stack.len(),
                    state.real_unreachable_stack_depth == 0,
                decreases targets.len() - j,
            {
                proof {
                    assert(targets@.subrange(0, j + 1).drop_last() =~= targets@.subrange(0, j as int));
                }
                if targets[j] as usize >= n {
                    assert(op->BrTable_targets@[j as int] >= n);
                    return false;
                }
                if targets[j] < min {
                    min = targets[j];
                }
                j = j + 1;
            }
            proof {
                assert(targets@.subrange(0, targets.len() as int) =~= targets@);
                lemma_min_depth(targets@, *default);
            }
            avail >= 1 && avail - 1 >= branch_args_of(&state.control_stack[n - 1 - min as usize])
        },
        Operator::Return => avail >= state.control_stack[0].num_return_values(),
        Operator::Call { function_index } => {
            if *function_index as usize >= environ.functions.len() {
                return false;
            }
            let sig = environ.functions[*function_index as usize] as usize;
            avail >= normal_args(&environ.signatures[sig])
        },
        Operator::CallIndirect { index, .. } => {
            if *index as usize >= environ.signatures.len() {
                return false;
            }
            avail >= 1 && avail - 1 >= normal_args(&environ.signatures[*index as usize])
        },
        Operator::Drop | Operator::SetLocal { .. } | Operator::TeeLocal { .. } => avail >= 1,
        Operator::Select => avail >= 3,
        Operator::GetLocal { .. } => true,
        Operator::GetGlobal { global_index } => (*global_index as usize) < environ.globals.len(),
        Operator::SetGlobal { global_index } => (*global_index as usize) < environ.globals.len()
            && matches!(environ.globals[*global_index as usize], GlobalDesc::Memory { .. }) && avail >= 1,
        Operator::CurrentMemory { reserved } => (*reserved as usize) < environ.memory_guard_sizes.len(),
        Operator::GrowMemory { reserved } => (*reserved as usize) < environ.memory_guard_sizes.len() && avail >= 1,
        Operator::I32Const { .. } | Operator::I64Const { .. } | Operator::F32Const { .. } | Operator::F64Const { .. } => true,
        _ => {
            let heap0 = environ.memory_guard_sizes.len() > 0 && environ.memory_guard_sizes[0] > 0;
            assert(heap0 == heap0_ok(environ));
            if saturating(op) {
                false
            } else if load_kind_of(op).is_some() {
                heap0 && avail >= 1
            } else if store_kind_of(op).is_some() {
                heap0 && avail >= 2
            } else if binary_opcode_of(op).is_some() || int_compare_of(op).is_some() || float_compare_of(op).is_some() {
                avail >= 2
            } else {
                avail >= 1
            }
        },
    }
}

/// Translate the body of a function with signature `sig`, given as its operators up to and
/// including the `end` that closes it.
///
/// The entry block takes the function's parameters; the exit block takes its normal return
/// values and holds the final `return`.
pub fn translate_function_body(sig: &Signature, ops: &Vec<Operator>, environ: &FuncEnvironment) -> (r: Result<FunctionBuilder, TranslationError>)
    requires
        environ.wf(),
    ensures
        r is Ok <==> run(*sig, environ, ops@) is Some && run(*sig, environ, ops@)->Some_0.1.len() == 0,
        r matches Err(TranslationError::MissingEnd) ==> run(*sig, environ, ops@) is Some
            && run(*sig, environ, ops@)->Some_0.1.len() > 0,
        r matches Err(TranslationError::TrailingOperator { offset }) ==> offset < ops.len() && run(
            *sig,
            environ,
            ops@.subrange(0, offset as int),
        ) is Some && run(*sig, environ, ops@.subrange(0, offset as int))->Some_0.1.len() == 0,
        r matches Err(TranslationError::InvalidOperator { offset }) ==> offset < ops.len() && run(
            *sig,
            environ,
            ops@.subrange(0, offset as int),
        ) is Some && !shape_ok(run(*sig, environ, ops@.subrange(0, offset as int))->Some_0, environ, ops@[offset as int])
            && !is_saturating(ops@[offset as int]),
        r matches Err(TranslationError::Unsupported { offset }) ==> offset < ops.len() && run(
            *sig,
            environ,
            ops@.subrange(0, offset as int),
        ) is Some && !shape_ok(run(*sig, environ, ops@.subrange(0, offset as int))->Some_0, environ, ops@[offset as int]),
        r is Ok ==> forall|i: int| 0 <= i < r->Ok_0.ebb_sealed.len() ==> #[trigger] r->Ok_0.ebb_sealed@[i],
        r is Ok ==> exists|ss: Seq<TranslationState>, bs: Seq<FunctionBuilder>| #[trigger] translation(*sig, environ, ops@, ss, bs, r->Ok_0),
        r is Ok ==> r->Ok_0.entry == Some(Ebb { index: 0 }),
        r matches Err(TranslationError::Unsupported { offset }) ==> offset < ops.len() && is_saturating(ops@[offset as int]),
        r matches Err(TranslationError::InvalidOperator { offset }) ==> offset < ops.len(),
        r matches Err(TranslationError::TrailingOperator { offset }) ==> offset < ops.len(),
{
    let mut builder = FunctionBuilder::new();
    let entry = builder.create_ebb();
    builder.set_entry(entry);
    builder.switch_to_block(entry);
    builder.seal_block(entry);
    let mut k: usize = 0;
    while k < sig.params.len()
        invariant
            builder.ebb_sealed@ == seq![true],
            builder.params_valid(),
            builder.insts@.len() == 0,
            builder.jump_tables@.len() == 0,
            builder.heaps@.len() == 0,
            builder.global_vars@.len() == 0,
            builder.entry == Some(entry),
            builder.position == Some(entry),
            entry.index == 0,
            builder.sig_refs@.len() == 0,
            builder.func_refs@.len() == 0,
            k <= sig.params.len(),
            builder.params(entry).len() == k,
        decreases sig.params.len() - k,
    {
        builder.append_ebb_param(entry, sig.params[k].value_type);
        k = k + 1;
    }
    let exit_block = builder.create_ebb();
    proof { crate::builder::lemma_no_params(builder.values@, exit_block); }
    let mut k: usize = 0;
    while k < sig.returns.len()
        invariant
            builder.ebb_sealed@ == seq![true, false],
            builder.params_valid(),
            builder.insts@.len() == 0,
            builder.jump_tables@.len() == 0,
            builder.heaps@.len() == 0,
            builder.global_vars@.len() == 0,
            builder.entry == Some(entry),
            builder.position == Some(entry),
            entry.index == 0,
            exit_block.index == 1,
            builder.sig_refs@.len() == 0,
            builder.func_refs@.len() == 0,
            builder.params(entry).len() == sig.params.len(),
            k <= sig.returns.len(),
            builder.params(exit_block).len() == count_normal(sig.returns@.subrange(0, k as int)),
        decreases sig.returns.len() - k,
    {
        proof {
            assert(sig.returns@.subrange(0, k + 1).drop_last() =~= sig.returns@.subrange(0, k as int));
        }
        if sig.returns[k].purpose == ArgumentPurpose::Normal {
            builder.append_ebb_param(exit_block, sig.returns[k].value_type);
        }
        k = k + 1;
    }
    proof {
        assert(sig.returns@.subrange(0, sig.returns.len() as int) =~= sig.returns@);
    }
    let mut state = TranslationState::new();
    state.initialize(sig, exit_block);
    proof {
        crate::state::lemma_count_normal_bound(sig.returns@);
        assert(builder.params(exit_block).len() == state.control_stack@[0].return_count());
        assert(state.control_stack@[0].holds(exit_block));
        assert(state.pending(exit_block));
        assert forall|e: Ebb| #[trigger] state.pending(e) implies e == exit_block by {
            let k = choose|k: int| 0 <= k < state.control_stack.len() && #[trigger] state.control_stack@[k].holds(e);
            assert(k == 0);
        }
        assert(shape(&state).1 =~= initial_shape(*sig).1);
        assert(ops@.subrange(0, 0) =~= Seq::<Operator>::empty());
    }
    let ghost s_init = state;
    let ghost b_init = builder;
    proof {
        assert(state.control_stack@ =~= seq![state.control_stack@[0]]);
    }
    let ghost mut ss: Seq<TranslationState> = seq![state];
    let ghost mut bs: Seq<FunctionBuilder> = seq![builder];
    let mut i: usize = 0;
    while i < ops.len()
        invariant
            environ.wf(),
            i <= ops.len(),
            state.wf(&builder, environ),
            run(*sig, environ, ops@.subrange(0, i as int)) == Some(shape(&state)),
            initial_state(*sig, &s_init),
            initial_function(*sig, &b_init),
            ss.len() == i + 1,
            bs.len() == i + 1,
            ss[0] == s_init,
            bs[0] == b_init,
            ss.last() == state,
            bs.last() == builder,
            forall|k: int| 0 <= k < i ==> #[trigger] step(&ss[k], &bs[k], &ss[k + 1], &bs[k + 1], environ, ops@[k]),
            state.control_stack.len() > 0 ==> state.control_stack@[0].dest() == (Ebb { index: 1 })
                && state.control_stack@[0].stack_size() == 0,
            state.control_stack.len() == 0 ==> builder.position == Some(Ebb { index: 1 }) && (
            state.real_unreachable_stack_depth == 0 ==> state.stack@ == builder.params(Ebb { index: 1 })),
        decreases ops.len() - i,
    {
        proof {
            assert(ops@.subrange(0, i + 1).drop_last() =~= ops@.subrange(0, i as int));
            assert(ops@.subrange(0, i + 1).last() == ops@[i as int]);
            lemma_op_ok_shape(&state, environ, ops@[i as int]);
        }
        if state.control_stack.len() == 0 {
            proof { lemma_run_stuck(*sig, environ, ops@, i as int); }
            return Err(TranslationError::TrailingOperator { offset: i });
        }
        if !operator_ok(&state, environ, &ops[i]) {
            proof { lemma_run_stuck(*sig, environ, ops@, i as int); }
            if saturating(&ops[i]) {
                return Err(TranslationError::Unsupported { offset: i });
            }
            return Err(TranslationError::InvalidOperator { offset: i });
        }
        let ghost s0 = state;
        let ghost b0 = builder;
        translate_operator(&ops[i], &mut builder, &mut state, environ);
        proof {
            crate::code_translator::lemma_step_bottom(&s0, &b0, &state, &builder, environ, ops@[i as int]);
            if state.control_stack.len() == 0 {
                assert(s0.stack@.subrange(0, 0) + builder.params(Ebb { index: 1 }) =~= builder.params(Ebb { index: 1 }));
            }
            let ss0 = ss;
            let bs0 = bs;
            ss = ss.push(state);
            bs = bs.push(builder);
            assert forall|k: int| 0 <= k < i + 1 implies #[trigger] step(&ss[k], &bs[k], &ss[k + 1], &bs[k + 1], environ, ops@[k]) by {
                if k < i {
                    assert(ss[k] == ss0[k] && ss[k + 1] == ss0[k + 1] && bs[k] == bs0[k] && bs[k + 1] == bs0[k + 1]);
                }
            }
        }
        i = i + 1;
    }
    proof {
        assert(ops@.subrange(0, ops.len() as int) =~= ops@);
    }
    if state.control_stack.len() > 0 {
        return Err(TranslationError::MissingEnd);
    }
    // The final `end` left us in the exit block where we need to manually add a return
    // instruction, unless that block cannot be reached.
    let ghost last = builder;
    if state.real_unreachable_stack_depth == 0 && !builder.is_unreachable() {
        let args = state.peekn(state.stack.len());
        builder.ins0(InstData::Return { args });
        proof {
            assert(state.stack@.subrange(0, state.stack.len() as int) =~= state.stack@);
        }
    }
    proof {
        crate::state::lemma_all_sealed(&state, &builder);
        assert(translation(*sig, environ, ops@, ss, bs, builder));
    }
    Ok(builder)
}

} // verus!

//! WebAssembly function translation state.
//!
//! The `TranslationState` struct defined in this module keeps track of the WebAssembly value
//! and control stacks during the translation of a single function, of how deep the translator
//! is in unreachable code, and of the entities already made for the function.
use vstd::prelude::*;
use std::collections::HashMap;
use crate::builder::{insts_extend, FunctionBuilder};
use crate::environ::{FuncEnvironment, GlobalDesc, GlobalValue};
use crate::ir::{AbiParam, ArgumentPurpose, Ebb, FuncRef, GlobalVar, Heap, HeapData, Inst, SigRef, Signature, Value};

verus! {

broadcast use vstd::std_specs::hash::group_hash_axioms;

/// A control stack frame can be an `if`, a `block` or a `loop`, each one having the following
/// fields:
///
/// - `destination`: the `Ebb` that will hold the code after the control block;
/// - `num_return_values`: number of values returned by the control block;
/// - `original_stack_size`: size of the value stack at the beginning of the control block;
/// - `reachable`: whether some branch targets the frame.
///
/// Moreover, the `if` frame has the `branch_inst` field that points to the `brz` instruction
/// separating the `true` and `false` branch. The `loop` frame has a `header` field that
/// references the `Ebb` that contains the beginning of the body of the loop.
#[derive(Clone, Copy, Debug, PartialEq, Eq, Structural)]
pub enum ControlStackFrame {
    If {
        destination: Ebb,
        branch_inst: Inst,
        num_return_values: usize,
        original_stack_size: usize,
        reachable: bool,
    },
    Block {
        destination: Ebb,
        num_return_values: usize,
        original_stack_size: usize,
        reachable: bool,
    },
    Loop {
        destination: Ebb,
        header: Ebb,
        num_return_values: usize,
        original_stack_size: usize,
        reachable: bool,
    },
}

impl ControlStackFrame {
    pub open spec fn return_count(&self) -> usize {
        match *self {
            ControlStackFrame::If { num_return_values, .. } => num_return_values,
            ControlStackFrame::Block { num_return_values, .. } => num_return_values,
            ControlStackFrame::Loop { num_return_values, .. } => num_return_values,
        }
    }

    pub open spec fn dest(&self) -> Ebb {
        match *self {
            ControlStackFrame::If { destination, .. } => destination,
            ControlStackFrame::Block { destination, .. } => destination,
            ControlStackFrame::Loop { destination, .. } => destination,
        }
    }

    /// Where a branch to the frame goes: the header of a loop, the code after anything else.
    pub open spec fn branch_target(&self) -> Ebb {
        match *self {
            ControlStackFrame::Loop { header, .. } => header,
            _ => self.dest(),
        }
    }

    pub open spec fn stack_size(&self) -> usize {
        match *self {
            ControlStackFrame::If { original_stack_size, .. } => original_stack_size,
            ControlStackFrame::Block { original_stack_size, .. } => original_stack_size,
            ControlStackFrame::Loop { original_stack_size, .. } => original_stack_size,
        }
    }

    pub open spec fn reached(&self) -> bool {
        match *self {
            ControlStackFrame::If { reachable, .. } => reachable,
            ControlStackFrame::Block { reachable, .. } => reachable,
            ControlStackFrame::Loop { reachable, .. } => reachable,
        }
    }

    /// The number of values that a branch to the frame carries: none for a loop.
    pub open spec fn branch_args(&self) -> usize {
        if self is Loop {
            0
        } else {
            self.return_count()
        }
    }

    /// The frame with `reachable` set.
    pub open spec fn marked_reachable(&self) -> ControlStackFrame {
        match *self {
            ControlStackFrame::If { destination, branch_inst, num_return_values, original_stack_size, .. } =>
                ControlStackFrame::If { destination, branch_inst, num_return_values, original_stack_size, reachable: true },
            ControlStackFrame::Block { destination, num_return_values, original_stack_size, .. } =>
                ControlStackFrame::Block { destination, num_return_values, original_stack_size, reachable: true },
            ControlStackFrame::Loop { destination, header, num_return_values, original_stack_size, .. } =>
                ControlStackFrame::Loop { destination, header, num_return_values, original_stack_size, reachable: true },
        }
    }

    /// Whether the frame holds block `e` open: its destination, or the header of a loop.
    pub open spec fn holds(&self, e: Ebb) -> bool {
        self.dest() == e || (self is Loop && self->Loop_header == e)
    }

    pub fn num_return_values(&self) -> (r: usize)
        ensures
            r == self.return_count(),
    {
        match *self {
            ControlStackFrame::If { num_return_values, .. } => num_return_values,
            ControlStackFrame::Block { num_return_values, .. } => num_return_values,
            ControlStackFrame::Loop { num_return_values, .. } => num_return_values,
        }
    }

    pub fn following_code(&self) -> (r: Ebb)
        ensures
            r == self.dest(),
    {
        match *self {
            ControlStackFrame::If { destination, .. } => destination,
            ControlStackFrame::Block { destination, .. } => destination,
            ControlStackFrame::Loop { destination, .. } => destination,
        }
    }

    pub fn br_destination(&self) -> (r: Ebb)
        ensures
            r == self.branch_target(),
    {
        match *self {
            ControlStackFrame::If { destination, .. } => destination,
            ControlStackFrame::Block { destination, .. } => destination,
            ControlStackFrame::Loop { header, .. } => header,
        }
    }

    pub fn original_stack_size(&self) -> (r: usize)
        ensures
            r == self.stack_size(),
    {
        match *self {
            ControlStackFrame::If { original_stack_size, .. } => original_stack_size,
            ControlStackFrame::Block { original_stack_size, .. } => original_stack_size,
            ControlStackFrame::Loop { original_stack_size, .. } => original_stack_size,
        }
    }

    pub fn is_loop(&self) -> (r: bool)
        ensures
            r == (self is Loop),
    {
        match *self {
            ControlStackFrame::If { .. } => false,
            ControlStackFrame::Block { .. } => false,
            ControlStackFrame::Loop { .. } => true,
        }
    }

    pub fn is_reachable(&self) -> (r: bool)
        ensures
            r == self.reached(),
    {
        match *self {
            ControlStackFrame::If { reachable, .. } => reachable,
            ControlStackFrame::Block { reachable, .. } => reachable,
            ControlStackFrame::Loop { reachable, .. } => reachable,
        }
    }

    pub fn set_reachable(&mut self)
        ensures
            *final(self) == old(self).marked_reachable(),
    {
        match self {
            ControlStackFrame::If { reachable, .. } => {
                *reachable = true;
            },
            ControlStackFrame::Block { reachable, .. } => {
                *reachable = true;
            },
            ControlStackFrame::Loop { reachable, .. } => {
                *reachable = true;
            },
        }
    }
}

/// The number of parameters among `params` that are WebAssembly values.
pub open spec fn count_normal(params: Seq<AbiParam>) -> nat
    decreases params.len(),
{
    if params.len() == 0 {
        0
    } else {
        count_normal(params.drop_last()) + if params.last().purpose == ArgumentPurpose::Normal {
            1nat
        } else {
            0nat
        }
    }
}

/// At most every parameter is a WebAssembly value.
pub proof fn lemma_count_normal_bound(params: Seq<AbiParam>)
    ensures
        count_normal(params) <= params.len(),
    decreases params.len(),
{
    if params.len() > 0 {
        lemma_count_normal_bound(params.drop_last());
    }
}

/// The number of WebAssembly arguments of a call with signature `sig`.
pub open spec fn sig_normal_args(sig: Signature) -> nat {
    count_normal(sig.params@)
}

/// Contains information passed along during the translation and that records:
///
/// - The current value and control stacks.
/// - The depth of the two unreachable control blocks stacks, that are manipulated when
///   translating unreachable code;
/// - The entities already made for the function, by WebAssembly index.
pub struct TranslationState {
    pub stack: Vec<Value>,
    pub control_stack: Vec<ControlStackFrame>,
    pub phantom_unreachable_stack_depth: usize,
    pub real_unreachable_stack_depth: usize,
    /// Globals made by `FuncEnvironment::make_global`.
    pub globals: HashMap<u32, GlobalValue>,
    /// Heaps made by `FuncEnvironment::make_heap`.
    pub heaps: HashMap<u32, Heap>,
    /// Signatures made by `FuncEnvironment::make_indirect_sig`, with their number of
    /// WebAssembly arguments.
    pub signatures: HashMap<u32, (SigRef, usize)>,
    /// Functions made by `FuncEnvironment::make_direct_func`, with their number of
    /// WebAssembly arguments.
    pub functions: HashMap<u32, (FuncRef, usize)>,
}

/// What a cache gives for `i`: the entry if there is one, else what was just made.
pub open spec fn cache_lookup<V>(m: Map<u32, V>, i: u32, made: V) -> V {
    if m.contains_key(i) {
        m[i]
    } else {
        made
    }
}

/// The cache after a lookup of `i`.
pub open spec fn cache_after<V>(m: Map<u32, V>, i: u32, made: V) -> Map<u32, V> {
    m.insert(i, cache_lookup(m, i, made))
}

impl TranslationState {
    pub open spec fn top(&self) -> ControlStackFrame {
        self.control_stack@.last()
    }

    /// The frame `depth` levels out from the innermost one.
    pub open spec fn frame_at(&self, depth: int) -> ControlStackFrame {
        self.control_stack@[self.control_stack.len() - 1 - depth]
    }

    /// Whether some frame holds block `e` open.
    pub open spec fn pending(&self, e: Ebb) -> bool {
        exists|k: int| 0 <= k < self.control_stack.len() && #[trigger] self.control_stack@[k].holds(e)
    }

    /// The two stacks and the reachability counters are consistent with each other.
    pub open spec fn stacks_wf(&self) -> bool {
        &&& forall|k: int, j: int|
            0 <= k <= j < self.control_stack.len() ==> (#[trigger] self.control_stack@[k]).stack_size()
                <= (#[trigger] self.control_stack@[j]).stack_size()
        &&& self.control_stack.len() > 0 ==> self.top().stack_size() <= self.stack.len()
        &&& self.phantom_unreachable_stack_depth > 0 ==> self.real_unreachable_stack_depth > 0
    }

    /// The blocks that frames hold open exist, are unsealed and belong to one frame each; every
    /// other block is sealed.
    pub open spec fn blocks_wf(&self, b: &FunctionBuilder) -> bool {
        &&& forall|k: int, e: Ebb|
            0 <= k < self.control_stack.len() && #[trigger] self.control_stack@[k].holds(e)
                ==> e.index < b.ebb_sealed.len()
        &&& forall|k: int|
            0 <= k < self.control_stack.len() && (#[trigger] self.control_stack@[k]) is Loop
                ==> self.control_stack@[k]->Loop_header != self.control_stack@[k].dest()
        &&& forall|k: int, j: int, e: Ebb|
            0 <= k < self.control_stack.len() && 0 <= j < self.control_stack.len() && k != j
                && #[trigger] self.control_stack@[k].holds(e) ==> !#[trigger] self.control_stack@[j].holds(e)
        &&& forall|i: int|
            0 <= i < b.ebb_sealed.len() ==> (#[trigger] b.ebb_sealed@[i] <==> !self.pending(
                Ebb { index: i as usize },
            ))
        &&& forall|k: int|
            0 <= k < self.control_stack.len() && (#[trigger] self.control_stack@[k]) is If
                ==> self.control_stack@[k]->If_branch_inst.index < b.insts.len()
                && b.insts@[self.control_stack@[k]->If_branch_inst.index as int].data is Brz
    }

    /// The destination of each frame has one parameter for each value the construct produces.
    pub open spec fn params_wf(&self, b: &FunctionBuilder) -> bool {
        forall|k: int|
            0 <= k < self.control_stack.len() ==> b.params((#[trigger] self.control_stack@[k]).dest()).len()
                == self.control_stack@[k].return_count()
    }

    /// The cached entities are those that the environment made in this function.
    pub open spec fn caches_wf(&self, b: &FunctionBuilder, env: &FuncEnvironment) -> bool {
        &&& forall|i: u32|
            #[trigger] self.globals@.contains_key(i) ==> i < env.globals.len() && match self.globals@[i] {
                GlobalValue::Const(v) => env.globals@[i as int] == (GlobalDesc::Const { value: v }),
                GlobalValue::Memory { gv, ty } => env.globals@[i as int] == (GlobalDesc::Memory { ty })
                    && gv.index < b.global_vars.len(),
            }
        &&& forall|i: u32|
            #[trigger] self.heaps@.contains_key(i) ==> i < env.memory_guard_sizes.len()
                && self.heaps@[i].index < b.heaps.len() && b.heaps@[self.heaps@[i].index as int]
                == (HeapData { memory: i, guard_size: env.memory_guard_sizes@[i as int] })
        &&& forall|i: u32|
            #[trigger] self.signatures@.contains_key(i) ==> i < env.signatures.len()
                && self.signatures@[i].1 == sig_normal_args(env.signatures@[i as int])
        &&& forall|i: u32|
            #[trigger] self.functions@.contains_key(i) ==> i < env.functions.len()
                && self.functions@[i].1 == sig_normal_args(
                env.signatures@[env.functions@[i as int] as int],
            )
    }

    /// The state is consistent with the function under construction and its environment.
    pub open spec fn wf(&self, b: &FunctionBuilder, env: &FuncEnvironment) -> bool {
        &&& self.stacks_wf()
        &&& self.blocks_wf(b)
        &&& self.params_wf(b)
        &&& self.caches_wf(b, env)
        &&& b.wf()
        &&& env.wf()
    }

    /// The control stack, the counters and the caches are those of `o`.
    pub open spec fn same_but_stack(&self, o: &TranslationState) -> bool {
        &&& self.control_stack@ == o.control_stack@
        &&& self.phantom_unreachable_stack_depth == o.phantom_unreachable_stack_depth
        &&& self.real_unreachable_stack_depth == o.real_unreachable_stack_depth
        &&& self.globals@ == o.globals@
        &&& self.heaps@ == o.heaps@
        &&& self.signatures@ == o.signatures@
        &&& self.functions@ == o.functions@
    }

    /// The caches are those of `o`.
    pub open spec fn same_caches(&self, o: &TranslationState) -> bool {
        &&& self.globals@ == o.globals@
        &&& self.heaps@ == o.heaps@
        &&& self.signatures@ == o.signatures@
        &&& self.functions@ == o.functions@
    }

    pub fn new() -> (r: TranslationState)
        ensures
            r.stack@.len() == 0,
            r.control_stack@.len() == 0,
            r.phantom_unreachable_stack_depth == 0,
            r.real_unreachable_stack_depth == 0,
            r.globals@ == Map::<u32, GlobalValue>::empty(),
            r.heaps@ == Map::<u32, Heap>::empty(),
            r.signatures@ == Map::<u32, (SigRef, usize)>::empty(),
            r.functions@ == Map::<u32, (FuncRef, usize)>::empty(),
    {
        TranslationState {
            stack: Vec::new(),
            control_stack: Vec::new(),
            phantom_unreachable_stack_depth: 0,
            real_unreachable_stack_depth: 0,
            globals: HashMap::new(),
            heaps: HashMap::new(),
            signatures: HashMap::new(),
            functions: HashMap::new(),
        }
    }

    fn clear(&mut self)
        ensures
            final(self).stack@.len() == 0,
            final(self).control_stack@.len() == 0,
            final(self).phantom_unreachable_stack_depth == 0,
            final(self).real_unreachable_stack_depth == 0,
            final(self).globals@ == Map::<u32, GlobalValue>::empty(),
            final(self).heaps@ == Map::<u32, Heap>::empty(),
            final(self).signatures@ == Map::<u32, (SigRef, usize)>::empty(),
            final(self).functions@ == Map::<u32, (FuncRef, usize)>::empty(),
    {
        self.stack.clear();
        self.control_stack.clear();
        self.phantom_unreachable_stack_depth = 0;
        self.real_unreachable_stack_depth = 0;
        self.globals.clear();
        self.heaps.clear();
        self.signatures.clear();
        self.functions.clear();
    }

    /// Initialize the state for compiling a function with the given signature.
    ///
    /// This resets the state to containing only a single block representing the whole
    /// function. The exit block is the last block in the function which will contain the
    /// return instruction.
    pub fn initialize(&mut self, sig: &Signature, exit_block: Ebb)
        ensures
            final(self).stack@.len() == 0,
            final(self).control_stack@ == seq![
                ControlStackFrame::Block {
                    destination: exit_block,
                    num_return_values: count_normal(sig.returns@) as usize,
                    original_stack_size: 0,
                    reachable: false,
                },
            ],
            final(self).phantom_unreachable_stack_depth == 0,
            final(self).real_unreachable_stack_depth == 0,
            final(self).globals@ == Map::<u32, GlobalValue>::empty(),
            final(self).heaps@ == Map::<u32, Heap>::empty(),
            final(self).signatures@ == Map::<u32, (SigRef, usize)>::empty(),
            final(self).functions@ == Map::<u32, (FuncRef, usize)>::empty(),
    {
        self.clear();
        let n = count_normal_params(&sig.returns);
        self.push_block(exit_block, n);
    }

    /// Push a value.
    pub fn push1(&mut self, val: Value)
        ensures
            final(self).stack@ == old(self).stack@.push(val),
            final(self).same_but_stack(old(self)),
    {
        self.stack.push(val);
    }

    /// Push multiple values.
    pub fn pushn(&mut self, vals: &Vec<Value>)
        ensures
            final(self).stack@ == old(self).stack@ + vals@,
            final(self).same_but_stack(old(self)),
    {
        let mut i: usize = 0;
        while i < vals.len()
            invariant
                i <= vals.len(),
                self.stack@ == old(self).stack@ + vals@.subrange(0, i as int),
                self.same_but_stack(old(self)),
            decreases vals.len() - i,
        {
            self.stack.push(vals[i]);
            proof {
                assert(self.stack@ =~= old(self).stack@ + vals@.subrange(0, i + 1));
            }
            i = i + 1;
        }
        proof {
            assert(vals@.subrange(0, vals.len() as int) =~= vals@);
        }
    }

    /// Pop one value.
    pub fn pop1(&mut self) -> (r: Value)
        requires
            old(self).stack.len() >= 1,
        ensures
            r == old(self).stack@.last(),
            final(self).stack@ == old(self).stack@.drop_last(),
            final(self).same_but_stack(old(self)),
    {
        self.stack.pop().unwrap()
    }

    /// Peek at the top of the stack without popping it.
    pub fn peek1(&self) -> (r: Value)
        requires
            self.stack.len() >= 1,
        ensures
            r == self.stack@.last(),
    {
        self.stack[self.stack.len() - 1]
    }

    /// Pop two values. Return them in the order they were pushed.
    pub fn pop2(&mut self) -> (r: (Value, Value))
        requires
            old(self).stack.len() >= 2,
        ensures
            r.0 == old(self).stack@[old(self).stack.len() - 2],
            r.1 == old(self).stack@[old(self).stack.len() - 1],
            final(self).stack@ == old(self).stack@.subrange(0, old(self).stack.len() - 2),
            final(self).same_but_stack(old(self)),
    {
        let v2 = self.stack.pop().unwrap();
        let v1 = self.stack.pop().unwrap();
        (v1, v2)
    }

    /// Pop three values. Return them in the order they were pushed.
    pub fn pop3(&mut self) -> (r: (Value, Value, Value))
        requires
            old(self).stack.len() >= 3,
        ensures
            r.0 == old(self).stack@[old(self).stack.len() - 3],
            r.1 == old(self).stack@[old(self).stack.len() - 2],
            r.2 == old(self).stack@[old(self).stack.len() - 1],
            final(self).stack@ == old(self).stack@.subrange(0, old(self).stack.len() - 3),
            final(self).same_but_stack(old(self)),
    {
        let v3 = self.stack.pop().unwrap();
        let v2 = self.stack.pop().unwrap();
        let v1 = self.stack.pop().unwrap();
        (v1, v2, v3)
    }

    /// Pop the top `n` values on the stack.
    ///
    /// The popped values are not returned. Use `peekn` to look at them before popping.
    pub fn popn(&mut self, n: usize)
        requires
            n <= old(self).stack.len(),
        ensures
            final(self).stack@ == old(self).stack@.subrange(0, old(self).stack.len() - n),
            final(self).same_but_stack(old(self)),
    {
        let new_len = self.stack.len() - n;
        self.stack.truncate(new_len);
    }

    /// The top `n` values on the stack in the order they were pushed.
    pub fn peekn(&self, n: usize) -> (r: Vec<Value>)
        requires
            n <= self.stack.len(),
        ensures
            r@ == self.stack@.subrange(self.stack.len() - n, self.stack.len() as int),
    {
        let start = self.stack.len() - n;
        let mut r: Vec<Value> = Vec::new();
        let mut i: usize = start;
        while i < self.stack.len()
            invariant
                start <= i <= self.stack.len(),
                start == self.stack.len() - n,
                r@ == self.stack@.subrange(start as int, i as int),
            decreases self.stack.len() - i,
        {
            r.push(self.stack[i]);
            proof {
                assert(r@ =~= self.stack@.subrange(start as int, i + 1));
            }
            i = i + 1;
        }
        r
    }

    /// Cut the stack back to `len` values.
    pub fn truncate_stack(&mut self, len: usize)
        requires
            len <= old(self).stack.len(),
        ensures
            final(self).stack@ == old(self).stack@.subrange(0, len as int),
            final(self).same_but_stack(old(self)),
    {
        self.stack.truncate(len);
    }

    // Push a block on the control stack.
    pub fn push_block(&mut self, following_code: Ebb, num_result_types: usize)
        ensures
            final(self).control_stack@ == old(self).control_stack@.push(
                ControlStackFrame::Block {
                    destination: following_code,
                    num_return_values: num_result_types,
                    original_stack_size: old(self).stack.len(),
                    reachable: false,
                },
            ),
            final(self).stack@ == old(self).stack@,
            final(self).phantom_unreachable_stack_depth == old(self).phantom_unreachable_stack_depth,
            final(self).real_unreachable_stack_depth == old(self).real_unreachable_stack_depth,
            final(self).same_caches(old(self)),
    {
        self.control_stack.push(
            ControlStackFrame::Block {
                destination: following_code,
                original_stack_size: self.stack.len(),
                num_return_values: num_result_types,
                reachable: false,
            },
        );
    }

    // Push a loop on the control stack.
    pub fn push_loop(&mut self, header: Ebb, following_code: Ebb, num_result_types: usize)
        ensures
            final(self).control_stack@ == old(self).control_stack@.push(
                ControlStackFrame::Loop {
                    destination: following_code,
                    header,
                    num_return_values: num_result_types,
                    original_stack_size: old(self).stack.len(),
                    reachable: false,
                },
            ),
            final(self).stack@ == old(self).stack@,
            final(self).phantom_unreachable_stack_depth == old(self).phantom_unreachable_stack_depth,
            final(self).real_unreachable_stack_depth == old(self).real_unreachable_stack_depth,
            final(self).same_caches(old(self)),
    {
        self.control_stack.push(
            ControlStackFrame::Loop {
                header,
                destination: following_code,
                original_stack_size: self.stack.len(),
                num_return_values: num_result_types,
                reachable: false,
            },
        );
    }

    // Push an if on the control stack.
    pub fn push_if(&mut self, branch_inst: Inst, following_code: Ebb, num_result_types: usize)
        ensures
            final(self).control_stack@ == old(self).control_stack@.push(
                ControlStackFrame::If {
                    destination: following_code,
                    branch_inst,
                    num_return_values: num_result_types,
                    original_stack_size: old(self).stack.len(),
                    reachable: false,
                },
            ),
            final(self).stack@ == old(self).stack@,
            final(self).phantom_unreachable_stack_depth == old(self).phantom_unreachable_stack_depth,
            final(self).real_unreachable_stack_depth == old(self).real_unreachable_stack_depth,
            final(self).same_caches(old(self)),
    {
        self.control_stack.push(
            ControlStackFrame::If {
                branch_inst,
                destination: following_code,
                original_stack_size: self.stack.len(),
                num_return_values: num_result_types,
                reachable: false,
            },
        );
    }

    /// Test if the translation state is currently in unreachable code.
    pub fn in_unreachable_code(&self) -> (r: bool)
        requires
            self.phantom_unreachable_stack_depth > 0 ==> self.real_unreachable_stack_depth > 0,
        ensures
            r == (self.real_unreachable_stack_depth > 0),
            !r ==> self.phantom_unreachable_stack_depth == 0,
    {
        self.real_unreachable_stack_depth > 0
    }

    /// Mark the frame `depth` levels out from the innermost one as reachable.
    pub fn set_frame_reachable(&mut self, depth: usize)
        requires
            depth < old(self).control_stack.len(),
        ensures
            final(self).control_stack@ == old(self).control_stack@.update(
                old(self).control_stack.len() - 1 - depth,
                old(self).frame_at(depth as int).marked_reachable(),
            ),
            final(self).stack@ == old(self).stack@,
            final(self).phantom_unreachable_stack_depth == old(self).phantom_unreachable_stack_depth,
            final(self).real_unreachable_stack_depth == old(self).real_unreachable_stack_depth,
            final(self).same_caches(old(self)),
    {
        let i = self.control_stack.len() - 1 - depth;
        let mut frame = self.control_stack[i];
        frame.set_reachable();
        self.control_stack.set(i, frame);
    }
}

/// Methods for handling entity references.
impl TranslationState {
    /// Get the `GlobalValue` that should be used to access the global variable `index`.
    /// Create the reference if necessary.
    pub fn get_global(&mut self, func: &mut FunctionBuilder, index: u32, environ: &FuncEnvironment) -> (r: GlobalValue)
        requires
            old(self).caches_wf(old(func), environ),
            index < environ.globals.len(),
        ensures
            r == cache_lookup(
                old(self).globals@,
                index,
                environ.global_value(index, GlobalVar { index: old(func).global_vars.len() }),
            ),
            final(self).globals@ == cache_after(
                old(self).globals@,
                index,
                environ.global_value(index, GlobalVar { index: old(func).global_vars.len() }),
            ),
            final(func).global_vars@ == if old(self).globals@.contains_key(index) || environ.globals@[index as int] is Const {
                old(func).global_vars@
            } else {
                old(func).global_vars@.push(index)
            },
            final(func).sig_refs@ == old(func).sig_refs@,
            final(func).func_refs@ == old(func).func_refs@,
            final(self).caches_wf(final(func), environ),
            final(self).stack@ == old(self).stack@,
            final(self).control_stack@ == old(self).control_stack@,
            final(self).phantom_unreachable_stack_depth == old(self).phantom_unreachable_stack_depth,
            final(self).real_unreachable_stack_depth == old(self).real_unreachable_stack_depth,
            final(self).heaps@ == old(self).heaps@,
            final(self).signatures@ == old(self).signatures@,
            final(self).functions@ == old(self).functions@,
            crate::environ::same_code(final(func), old(func)),
            final(func).heaps@ == old(func).heaps@,
            final(func).global_vars.len() >= old(func).global_vars.len(),
    {
        match self.globals.get(&index) {
            Some(v) => *v,
            None => {
                let v = environ.make_global(func, index);
                self.globals.insert(index, v);
                v
            },
        }
    }

    /// Get the `Heap` reference that should be used to access linear memory `index`.
    /// Create the reference if necessary.
    pub fn get_heap(&mut self, func: &mut FunctionBuilder, index: u32, environ: &FuncEnvironment) -> (r: Heap)
        requires
            old(self).caches_wf(old(func), environ),
            index < environ.memory_guard_sizes.len(),
        ensures
            r == cache_lookup(old(self).heaps@, index, Heap { index: old(func).heaps.len() }),
            final(self).heaps@ == cache_after(old(self).heaps@, index, Heap { index: old(func).heaps.len() }),
            final(func).heaps@ == if old(self).heaps@.contains_key(index) {
                old(func).heaps@
            } else {
                old(func).heaps@.push(HeapData { memory: index, guard_size: environ.memory_guard_sizes@[index as int] })
            },
            final(func).sig_refs@ == old(func).sig_refs@,
            final(func).func_refs@ == old(func).func_refs@,
            r.index < final(func).heaps.len(),
            final(func).heaps@[r.index as int] == (HeapData {
                memory: index,
                guard_size: environ.memory_guard_sizes@[index as int],
            }),
            final(self).caches_wf(final(func), environ),
            final(self).stack@ == old(self).stack@,
            final(self).control_stack@ == old(self).control_stack@,
            final(self).phantom_unreachable_stack_depth == old(self).phantom_unreachable_stack_depth,
            final(self).real_unreachable_stack_depth == old(self).real_unreachable_stack_depth,
            final(self).globals@ == old(self).globals@,
            final(self).signatures@ == old(self).signatures@,
            final(self).functions@ == old(self).functions@,
            crate::environ::same_code(final(func), old(func)),
            final(func).global_vars@ == old(func).global_vars@,
            final(func).heaps.len() >= old(func).heaps.len(),
    {
        match self.heaps.get(&index) {
            Some(h) => *h,
            None => {
                let h = environ.make_heap(func, index);
                self.heaps.insert(index, h);
                h
            },
        }
    }

    /// Get the `SigRef` reference that should be used to make an indirect call with signature
    /// `index`. Also return the number of WebAssembly arguments in the signature.
    ///
    /// Create the signature if necessary.
    pub fn get_indirect_sig(&mut self, func: &mut FunctionBuilder, index: u32, environ: &FuncEnvironment) -> (r: (SigRef, usize))
        requires
            old(self).caches_wf(old(func), environ),
            index < environ.signatures.len(),
        ensures
            r == cache_lookup(
                old(self).signatures@,
                index,
                (SigRef { index: old(func).sig_refs.len() }, sig_normal_args(environ.signatures@[index as int]) as usize),
            ),
            final(self).signatures@ == cache_after(
                old(self).signatures@,
                index,
                (SigRef { index: old(func).sig_refs.len() }, sig_normal_args(environ.signatures@[index as int]) as usize),
            ),
            r.1 == sig_normal_args(environ.signatures@[index as int]),
            final(func).sig_refs@ == if old(self).signatures@.contains_key(index) {
                old(func).sig_refs@
            } else {
                old(func).sig_refs@.push(index)
            },
            final(func).func_refs@ == old(func).func_refs@,
            final(self).caches_wf(final(func), environ),
            final(self).stack@ == old(self).stack@,
            final(self).control_stack@ == old(self).control_stack@,
            final(self).phantom_unreachable_stack_depth == old(self).phantom_unreachable_stack_depth,
            final(self).real_unreachable_stack_depth == old(self).real_unreachable_stack_depth,
            final(self).globals@ == old(self).globals@,
            final(self).heaps@ == old(self).heaps@,
            final(self).functions@ == old(self).functions@,
            crate::environ::same_code(final(func), old(func)),
            final(func).global_vars@ == old(func).global_vars@,
            final(func).heaps@ == old(func).heaps@,
    {
        match self.signatures.get(&index) {
            Some(s) => *s,
            None => {
                let sig = environ.make_indirect_sig(func, index);
                let n = normal_args(&environ.signatures[index as usize]);
                self.signatures.insert(index, (sig, n));
                (sig, n)
            },
        }
    }

    /// Get the `FuncRef` reference that should be used to make a direct call to function
    /// `index`. Also return the number of WebAssembly arguments in the signature.
    ///
    /// Create the function reference if necessary.
    pub fn get_direct_func(&mut self, func: &mut FunctionBuilder, index: u32, environ: &FuncEnvironment) -> (r: (FuncRef, usize))
        requires
            old(self).caches_wf(old(func), environ),
            environ.wf(),
            index < environ.functions.len(),
        ensures
            r == cache_lookup(
                old(self).functions@,
                index,
                (
                    FuncRef { index: old(func).func_refs.len() },
                    sig_normal_args(environ.signatures@[environ.functions@[index as int] as int]) as usize,
                ),
            ),
            final(self).functions@ == cache_after(
                old(self).functions@,
                index,
                (
                    FuncRef { index: old(func).func_refs.len() },
                    sig_normal_args(environ.signatures@[environ.functions@[index as int] as int]) as usize,
                ),
            ),
            r.1 == sig_normal_args(environ.signatures@[environ.functions@[index as int] as int]),
            final(func).func_refs@ == if old(self).functions@.contains_key(index) {
                old(func).func_refs@
            } else {
                old(func).func_refs@.push(index)
            },
            final(func).sig_refs@ == old(func).sig_refs@,
            final(self).caches_wf(final(func), environ),
            final(self).stack@ == old(self).stack@,
            final(self).control_stack@ == old(self).control_stack@,
            final(self).phantom_unreachable_stack_depth == old(self).phantom_unreachable_stack_depth,
            final(self).real_unreachable_stack_depth == old(self).real_unreachable_stack_depth,
            final(self).globals@ == old(self).globals@,
            final(self).heaps@ == old(self).heaps@,
            final(self).signatures@ == old(self).signatures@,
            crate::environ::same_code(final(func), old(func)),
            final(func).global_vars@ == old(func).global_vars@,
            final(func).heaps@ == old(func).heaps@,
    {
        match self.functions.get(&index) {
            Some(f) => *f,
            None => {
                let fref = environ.make_direct_func(func, index);
                let sig = environ.functions[index as usize] as usize;
                let n = normal_args(&environ.signatures[sig]);
                self.functions.insert(index, (fref, n));
                (fref, n)
            },
        }
    }
}

/// Count the parameters among `params` that are WebAssembly values.
fn count_normal_params(params: &Vec<AbiParam>) -> (r: usize)
    ensures
        r == count_normal(params@),
{
    let mut n: usize = 0;
    let mut i: usize = 0;
    while i < params.len()
        invariant
            i <= params.len(),
            n == count_normal(params@.subrange(0, i as int)),
            n <= i,
        decreases params.len() - i,
    {
        proof {
            assert(params@.subrange(0, i + 1).drop_last() =~= params@.subrange(0, i as int));
        }
        if params[i].purpose == ArgumentPurpose::Normal {
            n = n + 1;
        }
        i = i + 1;
    }
    proof {
        assert(params@.subrange(0, params.len() as int) =~= params@);
    }
    n
}

/// Count the number of normal parameters in a signature.
/// Exclude special-purpose parameters that represent runtime stuff and not WebAssembly
/// arguments.
pub fn normal_args(sig: &Signature) -> (r: usize)
    ensures
        r == sig_normal_args(*sig),
{
    count_normal_params(&sig.params)
}

/// The blocks of `b0` have the same parameters in `b1`.
pub open spec fn params_kept(b0: &FunctionBuilder, b1: &FunctionBuilder) -> bool {
    forall|e: Ebb| e.index < b0.ebb_sealed.len() ==> #[trigger] b1.params(e) == b0.params(e)
}

/// Frames with the same blocks keep their parameter counts while the builder keeps the
/// parameters of its blocks.
pub proof fn lemma_params_kept(s0: &TranslationState, b0: &FunctionBuilder, s1: &TranslationState, b1: &FunctionBuilder)
    requires
        s0.params_wf(b0),
        s0.blocks_wf(b0),
        s1.control_stack.len() <= s0.control_stack.len(),
        forall|k: int| 0 <= k < s1.control_stack.len() ==> same_blocks(#[trigger] s0.control_stack@[k], s1.control_stack@[k]),
        params_kept(b0, b1),
    ensures
        s1.params_wf(b1),
{
    assert forall|k: int| 0 <= k < s1.control_stack.len() implies b1.params((#[trigger] s1.control_stack@[k]).dest()).len()
        == s1.control_stack@[k].return_count() by {
        assert(same_blocks(s0.control_stack@[k], s1.control_stack@[k]));
        assert(s0.control_stack@[k].holds(s0.control_stack@[k].dest()));
        assert(b0.params(s0.control_stack@[k].dest()).len() == s0.control_stack@[k].return_count());
    }
}

/// Pushing a frame whose destination has one parameter per value keeps the counts.
pub proof fn lemma_params_push(s0: &TranslationState, b0: &FunctionBuilder, s1: &TranslationState, b1: &FunctionBuilder, f: ControlStackFrame)
    requires
        s0.params_wf(b0),
        s0.blocks_wf(b0),
        s1.control_stack@ == s0.control_stack@.push(f),
        params_kept(b0, b1),
        b1.params(f.dest()).len() == f.return_count(),
    ensures
        s1.params_wf(b1),
{
    let n = s0.control_stack.len() as int;
    assert forall|k: int| 0 <= k < s1.control_stack.len() implies b1.params((#[trigger] s1.control_stack@[k]).dest()).len()
        == s1.control_stack@[k].return_count() by {
        if k < n {
            assert(s1.control_stack@[k] == s0.control_stack@[k]);
            assert(s0.control_stack@[k].holds(s0.control_stack@[k].dest()));
            assert(b0.params(s0.control_stack@[k].dest()).len() == s0.control_stack@[k].return_count());
        }
    }
}

/// Frames that hold the same blocks and the same branch instruction.
pub open spec fn same_blocks(f: ControlStackFrame, g: ControlStackFrame) -> bool {
    &&& f.dest() == g.dest()
    &&& f is Loop <==> g is Loop
    &&& f is Loop ==> f->Loop_header == g->Loop_header
    &&& f is If <==> g is If
    &&& f is If ==> f->If_branch_inst == g->If_branch_inst
    &&& f.stack_size() == g.stack_size()
    &&& f.return_count() == g.return_count()
}

/// With the same frames (up to their `reachable` flags) and the same seals, the blocks stay
/// consistent while instructions are added.
pub proof fn lemma_blocks_kept(s0: &TranslationState, b0: &FunctionBuilder, s1: &TranslationState, b1: &FunctionBuilder)
    requires
        s0.blocks_wf(b0),
        s1.control_stack.len() == s0.control_stack.len(),
        forall|k: int| 0 <= k < s0.control_stack.len() ==> same_blocks(#[trigger] s0.control_stack@[k], s1.control_stack@[k]),
        b1.ebb_sealed@ == b0.ebb_sealed@,
        insts_extend(b0, b1),
    ensures
        s1.blocks_wf(b1),
{
    assert forall|k: int, e: Ebb| 0 <= k < s1.control_stack.len() implies (#[trigger] s1.control_stack@[k].holds(e)
        <==> s0.control_stack@[k].holds(e)) by {
        assert(same_blocks(s0.control_stack@[k], s1.control_stack@[k]));
    }
    assert forall|e: Ebb| s1.pending(e) <==> s0.pending(e) by {
        if s1.pending(e) {
            let k = choose|k: int| 0 <= k < s1.control_stack.len() && #[trigger] s1.control_stack@[k].holds(e);
            assert(s0.control_stack@[k].holds(e));
        }
        if s0.pending(e) {
            let k = choose|k: int| 0 <= k < s0.control_stack.len() && #[trigger] s0.control_stack@[k].holds(e);
            assert(s1.control_stack@[k].holds(e));
        }
    }
    assert forall|k: int| 0 <= k < s1.control_stack.len() && (#[trigger] s1.control_stack@[k]) is If
        implies s1.control_stack@[k]->If_branch_inst.index < b1.insts.len()
        && b1.insts@[s1.control_stack@[k]->If_branch_inst.index as int].data is Brz by {
        assert(same_blocks(s0.control_stack@[k], s1.control_stack@[k]));
        assert(s0.control_stack@[k] is If);
        let i = s0.control_stack@[k]->If_branch_inst.index as int;
        assert(b0.insts@[i].data is Brz);
    }
    assert forall|k: int| 0 <= k < s1.control_stack.len() && (#[trigger] s1.control_stack@[k]) is Loop
        implies s1.control_stack@[k]->Loop_header != s1.control_stack@[k].dest() by {
        assert(same_blocks(s0.control_stack@[k], s1.control_stack@[k]));
    }
}

/// Pushing a frame that holds exactly the blocks just created keeps the blocks consistent.
pub proof fn lemma_blocks_push(s0: &TranslationState, b0: &FunctionBuilder, s1: &TranslationState, b1: &FunctionBuilder, f: ControlStackFrame)
    requires
        s0.blocks_wf(b0),
        s1.control_stack@ == s0.control_stack@.push(f),
        b1.ebb_sealed.len() >= b0.ebb_sealed.len(),
        forall|i: int| 0 <= i < b0.ebb_sealed.len() ==> #[trigger] b1.ebb_sealed@[i] == b0.ebb_sealed@[i],
        forall|i: int| b0.ebb_sealed.len() <= i < b1.ebb_sealed.len() ==> !#[trigger] b1.ebb_sealed@[i] && f.holds(Ebb { index: i as usize }),
        forall|e: Ebb| f.holds(e) ==> b0.ebb_sealed.len() <= e.index < b1.ebb_sealed.len(),
        f is Loop ==> f->Loop_header != f.dest(),
        f is If ==> f->If_branch_inst.index < b1.insts.len() && b1.insts@[f->If_branch_inst.index as int].data is Brz,
        insts_extend(b0, b1),
    ensures
        s1.blocks_wf(b1),
{
    let n = s0.control_stack.len() as int;
    assert forall|k: int| 0 <= k < n implies #[trigger] s1.control_stack@[k] == s0.control_stack@[k] by {}
    assert(s1.control_stack@[n] == f);
    assert forall|i: int| 0 <= i < b1.ebb_sealed.len() implies (#[trigger] b1.ebb_sealed@[i] <==> !s1.pending(
        Ebb { index: i as usize },
    )) by {
        let e = Ebb { index: i as usize };
        if i < b0.ebb_sealed.len() {
            assert(!f.holds(e));
            assert(b0.ebb_sealed@[i] <==> !s0.pending(e));
            if s1.pending(e) {
                let k = choose|k: int| 0 <= k < s1.control_stack.len() && #[trigger] s1.control_stack@[k].holds(e);
                assert(k != n);
                assert(s0.control_stack@[k].holds(e));
            }
            if s0.pending(e) {
                let k = choose|k: int| 0 <= k < s0.control_stack.len() && #[trigger] s0.control_stack@[k].holds(e);
                assert(s1.control_stack@[k].holds(e));
            }
        } else {
            assert(b0.ebb_sealed.len() <= i < b1.ebb_sealed.len());
            assert(!b1.ebb_sealed@[i]);
            assert(f.holds(e));
            assert(s1.control_stack@[n].holds(e));
        }
    }
    assert forall|k: int, j: int, e: Ebb|
        0 <= k < s1.control_stack.len() && 0 <= j < s1.control_stack.len() && k != j
            && #[trigger] s1.control_stack@[k].holds(e) implies !#[trigger] s1.control_stack@[j].holds(e) by {
        if k == n {
            assert(e.index >= b0.ebb_sealed.len());
        } else if j == n {
            assert(s0.control_stack@[k].holds(e));
            assert(e.index < b0.ebb_sealed.len());
        } else {
            assert(s0.control_stack@[k].holds(e));
        }
    }
    assert forall|k: int, e: Ebb|
        0 <= k < s1.control_stack.len() && #[trigger] s1.control_stack@[k].holds(e) implies e.index < b1.ebb_sealed.len() by {
        if k < n {
            assert(s0.control_stack@[k].holds(e));
        }
    }
    assert forall|k: int| 0 <= k < s1.control_stack.len() && (#[trigger] s1.control_stack@[k]) is If
        implies s1.control_stack@[k]->If_branch_inst.index < b1.insts.len()
        && b1.insts@[s1.control_stack@[k]->If_branch_inst.index as int].data is Brz by {
        if k < n {
            let i = s0.control_stack@[k]->If_branch_inst.index as int;
            assert(b0.insts@[i].data is Brz);
        }
    }
}

/// Popping the innermost frame and sealing the blocks it held keeps the blocks consistent.
pub proof fn lemma_blocks_pop(s0: &TranslationState, b0: &FunctionBuilder, s1: &TranslationState, b1: &FunctionBuilder)
    requires
        s0.blocks_wf(b0),
        s0.control_stack.len() > 0,
        s1.control_stack@ == s0.control_stack@.drop_last(),
        b1.ebb_sealed.len() == b0.ebb_sealed.len(),
        forall|i: int| 0 <= i < b0.ebb_sealed.len() ==> #[trigger] b1.ebb_sealed@[i] == (b0.ebb_sealed@[i]
            || s0.top().holds(Ebb { index: i as usize })),
        insts_extend(b0, b1),
    ensures
        s1.blocks_wf(b1),
{
    let n = s1.control_stack.len() as int;
    assert forall|k: int| 0 <= k < n implies #[trigger] s1.control_stack@[k] == s0.control_stack@[k] by {}
    assert forall|i: int| 0 <= i < b1.ebb_sealed.len() implies (#[trigger] b1.ebb_sealed@[i] <==> !s1.pending(
        Ebb { index: i as usize },
    )) by {
        let e = Ebb { index: i as usize };
        assert(b0.ebb_sealed@[i] <==> !s0.pending(e));
        if s1.pending(e) {
            let k = choose|k: int| 0 <= k < s1.control_stack.len() && #[trigger] s1.control_stack@[k].holds(e);
            assert(s0.control_stack@[k].holds(e));
            assert(!s0.control_stack@[n].holds(e));
        }
        if s0.pending(e) && !s0.top().holds(e) {
            let k = choose|k: int| 0 <= k < s0.control_stack.len() && #[trigger] s0.control_stack@[k].holds(e);
            assert(k != n);
            assert(s1.control_stack@[k].holds(e));
        }
        if s0.top().holds(e) {
            assert(s0.control_stack@[n].holds(e));
        }
    }
    assert forall|k: int, e: Ebb|
        0 <= k < s1.control_stack.len() && #[trigger] s1.control_stack@[k].holds(e) implies e.index < b1.ebb_sealed.len() by {
        assert(s0.control_stack@[k].holds(e));
    }
    assert forall|k: int| 0 <= k < s1.control_stack.len() && (#[trigger] s1.control_stack@[k]) is If
        implies s1.control_stack@[k]->If_branch_inst.index < b1.insts.len()
        && b1.insts@[s1.control_stack@[k]->If_branch_inst.index as int].data is Brz by {
        let i = s0.control_stack@[k]->If_branch_inst.index as int;
        assert(b0.insts@[i].data is Brz);
    }
    assert forall|k: int, j: int, e: Ebb|
        0 <= k < s1.control_stack.len() && 0 <= j < s1.control_stack.len() && k != j
            && #[trigger] s1.control_stack@[k].holds(e) implies !#[trigger] s1.control_stack@[j].holds(e) by {
        assert(s0.control_stack@[k].holds(e));
    }
    assert forall|k: int| 0 <= k < s1.control_stack.len() && (#[trigger] s1.control_stack@[k]) is Loop
        implies s1.control_stack@[k]->Loop_header != s1.control_stack@[k].dest() by {
        assert(s0.control_stack@[k] is Loop);
    }
}

/// Blocks created and sealed with no frame change keep the blocks consistent.
pub proof fn lemma_blocks_sealed_new(s0: &TranslationState, b0: &FunctionBuilder, s1: &TranslationState, b1: &FunctionBuilder)
    requires
        s0.blocks_wf(b0),
        s1.control_stack.len() == s0.control_stack.len(),
        forall|k: int| 0 <= k < s0.control_stack.len() ==> same_blocks(#[trigger] s0.control_stack@[k], s1.control_stack@[k]),
        b1.ebb_sealed.len() >= b0.ebb_sealed.len(),
        forall|i: int| 0 <= i < b0.ebb_sealed.len() ==> #[trigger] b1.ebb_sealed@[i] == b0.ebb_sealed@[i],
        forall|i: int| b0.ebb_sealed.len() <= i < b1.ebb_sealed.len() ==> #[trigger] b1.ebb_sealed@[i],
        insts_extend(b0, b1),
    ensures
        s1.blocks_wf(b1),
{
    assert forall|k: int, e: Ebb| 0 <= k < s1.control_stack.len() implies (#[trigger] s1.control_stack@[k].holds(e)
        <==> s0.control_stack@[k].holds(e)) by {
        assert(same_blocks(s0.control_stack@[k], s1.control_stack@[k]));
    }
    assert forall|e: Ebb| s1.pending(e) <==> s0.pending(e) by {
        if s1.pending(e) {
            let k = choose|k: int| 0 <= k < s1.control_stack.len() && #[trigger] s1.control_stack@[k].holds(e);
            assert(s0.control_stack@[k].holds(e));
        }
        if s0.pending(e) {
            let k = choose|k: int| 0 <= k < s0.control_stack.len() && #[trigger] s0.control_stack@[k].holds(e);
            assert(s1.control_stack@[k].holds(e));
        }
    }
    assert forall|k: int| 0 <= k < s1.control_stack.len() && (#[trigger] s1.control_stack@[k]) is Loop
        implies s1.control_stack@[k]->Loop_header != s1.control_stack@[k].dest() by {
        assert(same_blocks(s0.control_stack@[k], s1.control_stack@[k]));
    }
    assert forall|k: int, e: Ebb|
        0 <= k < s1.control_stack.len() && #[trigger] s1.control_stack@[k].holds(e) implies e.index < b1.ebb_sealed.len() by {
        assert(s0.control_stack@[k].holds(e));
    }
    assert forall|i: int| 0 <= i < b1.ebb_sealed.len() implies (#[trigger] b1.ebb_sealed@[i] <==> !s1.pending(
        Ebb { index: i as usize },
    )) by {
        let e = Ebb { index: i as usize };
        if i < b0.ebb_sealed.len() {
            assert(b0.ebb_sealed@[i] <==> !s0.pending(e));
        } else {
            if s1.pending(e) {
                let k = choose|k: int| 0 <= k < s1.control_stack.len() && #[trigger] s1.control_stack@[k].holds(e);
                assert(s0.control_stack@[k].holds(e));
            }
        }
    }
    assert forall|k: int| 0 <= k < s1.control_stack.len() && (#[trigger] s1.control_stack@[k]) is If
        implies s1.control_stack@[k]->If_branch_inst.index < b1.insts.len()
        && b1.insts@[s1.control_stack@[k]->If_branch_inst.index as int].data is Brz by {
        assert(same_blocks(s0.control_stack@[k], s1.control_stack@[k]));
        let i = s0.control_stack@[k]->If_branch_inst.index as int;
        assert(b0.insts@[i].data is Brz);
    }
    assert forall|k: int, j: int, e: Ebb|
        0 <= k < s1.control_stack.len() && 0 <= j < s1.control_stack.len() && k != j
            && #[trigger] s1.control_stack@[k].holds(e) implies !#[trigger] s1.control_stack@[j].holds(e) by {
        assert(s0.control_stack@[k].holds(e));
    }
}

/// Setting the `reachable` flag of a frame changes no block it holds.
pub proof fn lemma_marked_same_blocks(f: ControlStackFrame)
    ensures
        same_blocks(f, f.marked_reachable()),
        f.marked_reachable().reached(),
        f.marked_reachable().branch_target() == f.branch_target(),
        f.marked_reachable().branch_args() == f.branch_args(),
        f.marked_reachable().return_count() == f.return_count(),
        f.marked_reachable().marked_reachable() == f.marked_reachable(),
        f.reached() ==> f.marked_reachable() == f,
{
}

/// Once every construct is closed, every block of the function is sealed; since a block is
/// sealed only while unsealed, each one was sealed exactly once.
pub proof fn lemma_all_sealed(s: &TranslationState, b: &FunctionBuilder)
    requires
        s.blocks_wf(b),
        s.control_stack.len() == 0,
    ensures
        forall|i: int| 0 <= i < b.ebb_sealed.len() ==> #[trigger] b.ebb_sealed@[i],
{
    assert forall|i: int| 0 <= i < b.ebb_sealed.len() implies #[trigger] b.ebb_sealed@[i] by {
        assert(!s.pending(Ebb { index: i as usize }));
    }
}

/// A cache gives the same entry for an index on every lookup in a function: a second lookup of
/// `i` returns what the first returned, whatever would have been made the second time.
pub proof fn lemma_cache_idempotent<V>(m: Map<u32, V>, i: u32, made1: V, made2: V)
    ensures
        cache_lookup(cache_after(m, i, made1), i, made2) == cache_lookup(m, i, made1),
        cache_after(cache_after(m, i, made1), i, made2) == cache_after(m, i, made1),
{
    assert(cache_after(cache_after(m, i, made1), i, made2) =~= cache_after(m, i, made1));
}

} // verus!

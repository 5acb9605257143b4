//! What the translator asks of its environment: how globals, heaps, signatures and functions
//! of the module are made into entities of the function, and how calls and the memory
//! intrinsics are emitted.
//!
//! The environment is described by plain data that the embedder fills in before translating.
use vstd::prelude::*;
use crate::builder::{values_from, FunctionBuilder};
use crate::ir::{
    Ebb, FuncRef, GlobalVar, Heap, HeapData, Inst, InstData, SigRef, Signature, Type, Value,
};

verus! {

/// How a WebAssembly global is accessed in the function.
#[derive(Clone, Copy, Debug, PartialEq, Eq, Structural)]
pub enum GlobalValue {
    /// The global is a constant, available as this value.
    Const(Value),
    /// The global lives in memory at the address of the slot `gv`, with type `ty`.
    Memory { gv: GlobalVar, ty: Type },
}

/// How the embedder implements a WebAssembly global.
#[derive(Clone, Copy, Debug, PartialEq, Eq, Structural)]
pub enum GlobalDesc {
    /// An immutable global whose value the embedder has defined in the function.
    Const { value: Value },
    /// A global stored in memory.
    Memory { ty: Type },
}

/// The module seen from the function being translated.
pub struct FuncEnvironment {
    /// The pointer-sized integer type of the target.
    pub pointer_type: Type,
    /// Whether `return` is lowered as a jump to the exit block.
    pub return_at_end: bool,
    /// The globals, by index.
    pub globals: Vec<GlobalDesc>,
    /// The guard-region size of each linear memory, by index.
    pub memory_guard_sizes: Vec<u64>,
    /// The signatures, by index.
    pub signatures: Vec<Signature>,
    /// The signature index of each function, by function index.
    pub functions: Vec<u32>,
}

/// Everything of the builder but its entity tables and instructions is unchanged.
pub open spec fn same_layout(a: &FunctionBuilder, b: &FunctionBuilder) -> bool {
    &&& a.ebb_sealed@ == b.ebb_sealed@
    &&& a.jump_tables@ == b.jump_tables@
    &&& a.position == b.position
    &&& a.entry == b.entry
    &&& a.pristine == b.pristine
}

/// Only the entity tables may differ.
pub open spec fn same_code(a: &FunctionBuilder, b: &FunctionBuilder) -> bool {
    &&& same_layout(a, b)
    &&& a.values@ == b.values@
    &&& a.insts@ == b.insts@
}

impl FuncEnvironment {
    /// Every function names an existing signature.
    pub open spec fn wf(&self) -> bool {
        forall|i: int|
            0 <= i < self.functions.len() ==> (#[trigger] self.functions@[i]) < self.signatures.len()
    }

    /// The pointer-sized integer type.
    pub fn native_pointer(&self) -> (r: Type)
        ensures
            r == self.pointer_type,
    {
        self.pointer_type
    }

    /// Whether `return` is lowered as a jump to the exit block.
    pub fn return_at_end(&self) -> (r: bool)
        ensures
            r == self.return_at_end,
    {
        self.return_at_end
    }

    /// What `make_global` gives for global `index`, where the next global slot would be `next`.
    pub open spec fn global_value(&self, index: u32, next: GlobalVar) -> GlobalValue {
        match self.globals@[index as int] {
            GlobalDesc::Const { value } => GlobalValue::Const(value),
            GlobalDesc::Memory { ty } => GlobalValue::Memory { gv: next, ty },
        }
    }

    /// Makes global `index` accessible in the function.
    pub fn make_global(&self, func: &mut FunctionBuilder, index: u32) -> (r: GlobalValue)
        requires
            index < self.globals.len(),
        ensures
            r == self.global_value(index, GlobalVar { index: old(func).global_vars.len() }),
            match self.globals@[index as int] {
                GlobalDesc::Const { .. } => final(func).global_vars@ == old(func).global_vars@,
                GlobalDesc::Memory { .. } => final(func).global_vars@
                    == old(func).global_vars@.push(index),
            },
            same_code(final(func), old(func)),
            final(func).heaps@ == old(func).heaps@,
            final(func).sig_refs@ == old(func).sig_refs@,
            final(func).func_refs@ == old(func).func_refs@,
    {
        match self.globals[index as usize] {
            GlobalDesc::Const { value } => GlobalValue::Const(value),
            GlobalDesc::Memory { ty } => {
                let gv = GlobalVar { index: func.global_vars.len() };
                func.global_vars.push(index);
                GlobalValue::Memory { gv, ty }
            },
        }
    }

    /// Makes linear memory `index` accessible in the function.
    pub fn make_heap(&self, func: &mut FunctionBuilder, index: u32) -> (r: Heap)
        requires
            index < self.memory_guard_sizes.len(),
        ensures
            r.index == old(func).heaps.len(),
            final(func).heaps@ == old(func).heaps@.push(
                HeapData { memory: index, guard_size: self.memory_guard_sizes@[index as int] },
            ),
            same_code(final(func), old(func)),
            final(func).global_vars@ == old(func).global_vars@,
            final(func).sig_refs@ == old(func).sig_refs@,
            final(func).func_refs@ == old(func).func_refs@,
    {
        let heap = Heap { index: func.heaps.len() };
        func.heaps.push(HeapData { memory: index, guard_size: self.memory_guard_sizes[index as usize] });
        heap
    }

    /// Imports signature `index` into the function, for indirect calls.
    pub fn make_indirect_sig(&self, func: &mut FunctionBuilder, index: u32) -> (r: SigRef)
        requires
            index < self.signatures.len(),
        ensures
            r.index == old(func).sig_refs.len(),
            final(func).sig_refs@ == old(func).sig_refs@.push(index),
            same_code(final(func), old(func)),
            final(func).global_vars@ == old(func).global_vars@,
            final(func).heaps@ == old(func).heaps@,
            final(func).func_refs@ == old(func).func_refs@,
    {
        let sig = SigRef { index: func.sig_refs.len() };
        func.sig_refs.push(index);
        sig
    }

    /// Imports function `index` into the function, for direct calls.
    pub fn make_direct_func(&self, func: &mut FunctionBuilder, index: u32) -> (r: FuncRef)
        requires
            index < self.functions.len(),
        ensures
            r.index == old(func).func_refs.len(),
            final(func).func_refs@ == old(func).func_refs@.push(index),
            same_code(final(func), old(func)),
            final(func).global_vars@ == old(func).global_vars@,
            final(func).heaps@ == old(func).heaps@,
            final(func).sig_refs@ == old(func).sig_refs@,
    {
        let f = FuncRef { index: func.func_refs.len() };
        func.func_refs.push(index);
        f
    }

    /// The number of results of a call to function `index`.
    pub open spec fn call_results(&self, index: u32) -> nat {
        self.signatures@[self.functions@[index as int] as int].returns.len() as nat
    }

    /// Emits a direct call of function `index` through `fref` with `args`; returns the call
    /// and its results.
    pub fn translate_call(
        &self,
        func: &mut FunctionBuilder,
        index: u32,
        fref: FuncRef,
        args: Vec<Value>,
    ) -> (r: (Inst, Vec<Value>))
        requires
            self.wf(),
            index < self.functions.len(),
            old(func).wf(),
        ensures
            final(func).wf(),
            final(func).appended(old(func), InstData::Call { func: fref, args }, self.call_results(index)),
            r.0.index == old(func).insts.len(),
            r.1@ == values_from(old(func).values.len() as int, final(func).values.len() as int),
            forall|e: Ebb| #[trigger] final(func).params(e) == old(func).params(e),
    {
        let sig = self.functions[index as usize] as usize;
        let n = self.signatures[sig].returns.len();
        func.ins(InstData::Call { func: fref, args }, n)
    }

    /// The number of results of an indirect call with signature `index`.
    pub open spec fn indirect_call_results(&self, index: u32) -> nat {
        self.signatures@[index as int].returns.len() as nat
    }

    /// Emits an indirect call of `callee` in table `table_index`, with signature `sig_index`
    /// imported as `sigref`; returns the call and its results.
    pub fn translate_call_indirect(
        &self,
        func: &mut FunctionBuilder,
        table_index: u32,
        sig_index: u32,
        sigref: SigRef,
        callee: Value,
        args: Vec<Value>,
    ) -> (r: (Inst, Vec<Value>))
        requires
            sig_index < self.signatures.len(),
            old(func).wf(),
        ensures
            final(func).wf(),
            final(func).appended(
                old(func),
                InstData::CallIndirect { sig: sigref, table: table_index, callee, args },
                self.indirect_call_results(sig_index),
            ),
            r.0.index == old(func).insts.len(),
            r.1@ == values_from(old(func).values.len() as int, final(func).values.len() as int),
            forall|e: Ebb| #[trigger] final(func).params(e) == old(func).params(e),
    {
        let n = self.signatures[sig_index as usize].returns.len();
        func.ins(InstData::CallIndirect { sig: sigref, table: table_index, callee, args }, n)
    }

    /// Emits `grow_memory` of `heap` by `delta` pages; returns the previous size.
    pub fn translate_grow_memory(&self, func: &mut FunctionBuilder, heap: Heap, delta: Value) -> (r: Value)
        requires
            old(func).wf(),
        ensures
            final(func).wf(),
            final(func).appended(old(func), InstData::GrowMemory { heap, delta }, 1),
            final(func).values@ == old(func).values@.push(crate::ir::ValueDef::InstResult { inst: Inst { index: old(func).insts.len() }, num: 0 }),
            r.index == old(func).values.len(),
            forall|e: Ebb| #[trigger] final(func).params(e) == old(func).params(e),
    {
        func.ins1(InstData::GrowMemory { heap, delta })
    }

    /// Emits `current_memory` of `heap`; returns the size in pages.
    pub fn translate_current_memory(&self, func: &mut FunctionBuilder, heap: Heap) -> (r: Value)
        requires
            old(func).wf(),
        ensures
            final(func).wf(),
            final(func).appended(old(func), InstData::CurrentMemory { heap }, 1),
            final(func).values@ == old(func).values@.push(crate::ir::ValueDef::InstResult { inst: Inst { index: old(func).insts.len() }, num: 0 }),
            r.index == old(func).values.len(),
            forall|e: Ebb| #[trigger] final(func).params(e) == old(func).params(e),
    {
        func.ins1(InstData::CurrentMemory { heap })
    }
}

} // verus!

//! A function builder that records, in order, the blocks, values and instructions that a
//! translation asks for.
//!
//! The builder keeps what the translator needs to decide on (which blocks are sealed, whether
//! the current block can be reached, whether anything was inserted since the last switch) and
//! leaves SSA construction for the locals to whoever consumes the record: `use_var` and
//! `def_var` are recorded as instructions.
use vstd::prelude::*;
use crate::ir::{Ebb, HeapData, Inst, InstData, JumpTable, Type, Value, ValueDef};

verus! {

/// An instruction together with the block it was inserted in.
#[derive(Clone, Debug)]
pub struct InstNode {
    pub ebb: Ebb,
    pub data: InstData,
}

/// The function under construction.
pub struct FunctionBuilder {
    /// One entry per block: whether it is sealed.
    pub ebb_sealed: Vec<bool>,
    /// One entry per value: where it is defined.
    pub values: Vec<ValueDef>,
    /// The instructions, in insertion order.
    pub insts: Vec<InstNode>,
    /// The jump tables, one list of targets each.
    pub jump_tables: Vec<Vec<Ebb>>,
    /// The heaps made by the environment.
    pub heaps: Vec<HeapData>,
    /// The global slots made by the environment, by WebAssembly global index.
    pub global_vars: Vec<u32>,
    /// The signatures made by the environment, by WebAssembly signature index.
    pub sig_refs: Vec<u32>,
    /// The functions made by the environment, by WebAssembly function index.
    pub func_refs: Vec<u32>,
    /// The block in which instructions are inserted.
    pub position: Option<Ebb>,
    /// Whether nothing was inserted since the last switch of block.
    pub pristine: bool,
    /// The entry block of the function.
    pub entry: Option<Ebb>,
}

/// Whether the instruction `data` can branch to `e`, given the function's jump tables.
pub open spec fn branches_to(jump_tables: Seq<Vec<Ebb>>, data: InstData, e: Ebb) -> bool {
    match data {
        InstData::Jump { destination, .. } => destination == e,
        InstData::Brz { destination, .. } => destination == e,
        InstData::Brnz { destination, .. } => destination == e,
        InstData::BrTable { table, .. } => table.index < jump_tables.len()
            && jump_tables[table.index as int]@.contains(e),
        _ => false,
    }
}

/// `b1` keeps every instruction of `b0` at its place as a conditional branch where it was one.
pub open spec fn insts_extend(b0: &FunctionBuilder, b1: &FunctionBuilder) -> bool {
    &&& b1.insts.len() >= b0.insts.len()
    &&& forall|i: int|
        0 <= i < b0.insts.len() && (#[trigger] b0.insts@[i]).data is Brz ==> b1.insts@[i].data is Brz
}

/// `b1` holds the instructions of `b0` unchanged, and the same jump tables.
pub open spec fn insts_prefix(b0: &FunctionBuilder, b1: &FunctionBuilder) -> bool {
    &&& b1.insts.len() >= b0.insts.len()
    &&& forall|i: int| 0 <= i < b0.insts.len() ==> #[trigger] b1.insts@[i] == b0.insts@[i]
    &&& b1.jump_tables@ == b0.jump_tables@
}

/// A block keeps its predecessors while instructions are only added.
pub proof fn lemma_predecessor_kept(b0: &FunctionBuilder, b1: &FunctionBuilder, e: Ebb)
    requires
        b0.has_predecessor(e),
        insts_prefix(b0, b1),
    ensures
        b1.has_predecessor(e),
{
    let i = choose|i: int| 0 <= i < b0.insts.len() && #[trigger] branches_to(b0.jump_tables@, b0.insts@[i].data, e);
    assert(b1.insts@[i] == b0.insts@[i]);
    assert(branches_to(b1.jump_tables@, b1.insts@[i].data, e));
}

/// The parameters of `e` among the value definitions `defs`, in order.
pub open spec fn params_of(defs: Seq<ValueDef>, e: Ebb) -> Seq<Value>
    decreases defs.len(),
{
    if defs.len() == 0 {
        Seq::empty()
    } else {
        let prev = params_of(defs.drop_last(), e);
        match defs.last() {
            ValueDef::EbbParam { ebb, .. } => if ebb == e {
                prev.push(Value { index: (defs.len() - 1) as usize })
            } else {
                prev
            },
            _ => prev,
        }
    }
}

/// A block that no definition names has no parameters.
pub proof fn lemma_no_params(defs: Seq<ValueDef>, e: Ebb)
    requires
        forall|i: int| 0 <= i < defs.len() && (#[trigger] defs[i]) is EbbParam ==> defs[i]->EbbParam_ebb != e,
    ensures
        params_of(defs, e).len() == 0,
    decreases defs.len(),
{
    if defs.len() > 0 {
        let prev = defs.drop_last();
        assert forall|i: int| 0 <= i < prev.len() && (#[trigger] prev[i]) is EbbParam implies prev[i]->EbbParam_ebb != e by {
            assert(prev[i] == defs[i]);
        }
        lemma_no_params(prev, e);
        assert(defs[defs.len() - 1] == defs.last());
    }
}

/// The values numbered from `start` up to `end`, in order.
pub open spec fn values_from(start: int, end: int) -> Seq<Value> {
    Seq::new((end - start) as nat, |k: int| Value { index: (start + k) as usize })
}

impl FunctionBuilder {
    /// The builder is positioned in one of its blocks, its first block is the entry, and every
    /// block parameter belongs to an existing block.
    pub open spec fn wf(&self) -> bool {
        &&& self.position is Some
        &&& self.position->0.index < self.ebb_sealed.len()
        &&& self.entry == Some(Ebb { index: 0 })
        &&& self.params_valid()
    }

    /// Every block parameter belongs to an existing block.
    pub open spec fn params_valid(&self) -> bool {
        forall|i: int|
            0 <= i < self.values.len() && (#[trigger] self.values@[i]) is EbbParam
                ==> self.values@[i]->EbbParam_ebb.index < self.ebb_sealed.len()
    }

    pub open spec fn is_sealed(&self, e: Ebb) -> bool {
        self.ebb_sealed@[e.index as int]
    }

    pub open spec fn has_predecessor(&self, e: Ebb) -> bool {
        exists|i: int|
            0 <= i < self.insts.len() && #[trigger] branches_to(
                self.jump_tables@,
                self.insts@[i].data,
                e,
            )
    }

    /// The parameters of block `e`, in the order they were appended.
    pub open spec fn params(&self, e: Ebb) -> Seq<Value> {
        params_of(self.values@, e)
    }

    /// Whether the current block is sealed, has no predecessor, and is not the entry.
    pub open spec fn current_unreachable(&self) -> bool {
        let e = self.position->0;
        &&& self.entry != Some(e)
        &&& self.is_sealed(e)
        &&& !self.has_predecessor(e)
    }

    /// Only instructions and their results were added since `old`, and `data` was the
    /// last instruction inserted, in the current block.
    pub open spec fn appended(&self, old: &FunctionBuilder, data: InstData, n: nat) -> bool {
        &&& self.insts@ == old.insts@.push(InstNode { ebb: old.position->0, data })
        &&& self.values@ == old.values@ + Seq::new(
            n,
            |k: int| ValueDef::InstResult { inst: Inst { index: old.insts.len() }, num: k as usize },
        )
        &&& self.ebb_sealed@ == old.ebb_sealed@
        &&& self.jump_tables@ == old.jump_tables@
        &&& self.heaps@ == old.heaps@
        &&& self.global_vars@ == old.global_vars@
        &&& self.sig_refs@ == old.sig_refs@
        &&& self.func_refs@ == old.func_refs@
        &&& self.position == old.position
        &&& self.entry == old.entry
        &&& !self.pristine
    }

    /// An empty function.
    pub fn new() -> (r: FunctionBuilder)
        ensures
            r.ebb_sealed@.len() == 0,
            r.values@.len() == 0,
            r.insts@.len() == 0,
            r.jump_tables@.len() == 0,
            r.heaps@.len() == 0,
            r.global_vars@.len() == 0,
            r.sig_refs@.len() == 0,
            r.func_refs@.len() == 0,
            r.position is None,
            r.entry is None,
            r.pristine,
    {
        FunctionBuilder {
            ebb_sealed: Vec::new(),
            values: Vec::new(),
            insts: Vec::new(),
            jump_tables: Vec::new(),
            heaps: Vec::new(),
            global_vars: Vec::new(),
            sig_refs: Vec::new(),
            func_refs: Vec::new(),
            position: None,
            pristine: true,
            entry: None,
        }
    }

    /// Creates a new, unsealed block without parameters.
    pub fn create_ebb(&mut self) -> (e: Ebb)
        ensures
            e.index == old(self).ebb_sealed.len(),
            final(self).ebb_sealed@ == old(self).ebb_sealed@.push(false),
            final(self).values@ == old(self).values@,
            final(self).insts@ == old(self).insts@,
            final(self).jump_tables@ == old(self).jump_tables@,
            final(self).heaps@ == old(self).heaps@,
            final(self).global_vars@ == old(self).global_vars@,
            final(self).sig_refs@ == old(self).sig_refs@,
            final(self).func_refs@ == old(self).func_refs@,
            final(self).position == old(self).position,
            final(self).pristine == old(self).pristine,
            final(self).entry == old(self).entry,
    {
        let e = Ebb { index: self.ebb_sealed.len() };
        self.ebb_sealed.push(false);
        e
    }

    /// Makes `e` the entry block of the function.
    pub fn set_entry(&mut self, e: Ebb)
        ensures
            final(self).entry == Some(e),
            final(self).ebb_sealed@ == old(self).ebb_sealed@,
            final(self).values@ == old(self).values@,
            final(self).insts@ == old(self).insts@,
            final(self).jump_tables@ == old(self).jump_tables@,
            final(self).heaps@ == old(self).heaps@,
            final(self).global_vars@ == old(self).global_vars@,
            final(self).sig_refs@ == old(self).sig_refs@,
            final(self).func_refs@ == old(self).func_refs@,
            final(self).position == old(self).position,
            final(self).pristine == old(self).pristine,
    {
        self.entry = Some(e);
    }

    /// Appends a parameter of type `ty` to block `e` and returns it.
    pub fn append_ebb_param(&mut self, e: Ebb, ty: Type) -> (v: Value)
        requires
            e.index < old(self).ebb_sealed.len(),
        ensures
            v.index == old(self).values.len(),
            final(self).values@ == old(self).values@.push(ValueDef::EbbParam { ebb: e, ty }),
            final(self).params(e) == old(self).params(e).push(v),
            forall|o: Ebb| o != e ==> final(self).params(o) == old(self).params(o),
            final(self).ebb_sealed@ == old(self).ebb_sealed@,
            final(self).insts@ == old(self).insts@,
            final(self).jump_tables@ == old(self).jump_tables@,
            final(self).heaps@ == old(self).heaps@,
            final(self).global_vars@ == old(self).global_vars@,
            final(self).sig_refs@ == old(self).sig_refs@,
            final(self).func_refs@ == old(self).func_refs@,
            final(self).position == old(self).position,
            final(self).pristine == old(self).pristine,
            final(self).entry == old(self).entry,
    {
        let v = Value { index: self.values.len() };
        self.values.push(ValueDef::EbbParam { ebb: e, ty });
        proof {
            assert(final(self).values@.drop_last() == old(self).values@);
        }
        v
    }

    /// The parameters of block `e`, in order.
    pub fn ebb_params(&self, e: Ebb) -> (r: Vec<Value>)
        ensures
            r@ == self.params(e),
    {
        let mut r: Vec<Value> = Vec::new();
        let mut i: usize = 0;
        while i < self.values.len()
            invariant
                i <= self.values.len(),
                r@ == params_of(self.values@.subrange(0, i as int), e),
            decreases self.values.len() - i,
        {
            proof {
                assert(self.values@.subrange(0, i + 1).drop_last() == self.values@.subrange(
                    0,
                    i as int,
                ));
            }
            match self.values[i] {
                ValueDef::EbbParam { ebb, .. } => {
                    if ebb == e {
                        r.push(Value { index: i });
                    }
                },
                _ => {},
            }
            i = i + 1;
        }
        proof {
            assert(self.values@.subrange(0, self.values.len() as int) == self.values@);
        }
        r
    }

    /// Moves the insertion point to the end of block `e`.
    pub fn switch_to_block(&mut self, e: Ebb)
        requires
            e.index < old(self).ebb_sealed.len(),
        ensures
            final(self).position == Some(e),
            final(self).pristine,
            final(self).ebb_sealed@ == old(self).ebb_sealed@,
            final(self).values@ == old(self).values@,
            final(self).insts@ == old(self).insts@,
            final(self).jump_tables@ == old(self).jump_tables@,
            final(self).heaps@ == old(self).heaps@,
            final(self).global_vars@ == old(self).global_vars@,
            final(self).sig_refs@ == old(self).sig_refs@,
            final(self).func_refs@ == old(self).func_refs@,
            final(self).entry == old(self).entry,
    {
        self.position = Some(e);
        self.pristine = true;
    }

    /// Declares that block `e` will get no further predecessors. A block is sealed once.
    pub fn seal_block(&mut self, e: Ebb)
        requires
            e.index < old(self).ebb_sealed.len(),
            !old(self).ebb_sealed@[e.index as int],
        ensures
            final(self).ebb_sealed@ == old(self).ebb_sealed@.update(e.index as int, true),
            final(self).values@ == old(self).values@,
            final(self).insts@ == old(self).insts@,
            final(self).jump_tables@ == old(self).jump_tables@,
            final(self).heaps@ == old(self).heaps@,
            final(self).global_vars@ == old(self).global_vars@,
            final(self).sig_refs@ == old(self).sig_refs@,
            final(self).func_refs@ == old(self).func_refs@,
            final(self).position == old(self).position,
            final(self).pristine == old(self).pristine,
            final(self).entry == old(self).entry,
    {
        self.ebb_sealed.set(e.index, true);
    }

    /// Whether nothing was inserted since the last switch of block.
    pub fn is_pristine(&self) -> (r: bool)
        ensures
            r == self.pristine,
    {
        self.pristine
    }

    /// Whether some instruction can branch to block `e`.
    pub fn ebb_has_predecessor(&self, e: Ebb) -> (r: bool)
        ensures
            r == self.has_predecessor(e),
    {
        let mut i: usize = 0;
        while i < self.insts.len()
            invariant
                i <= self.insts.len(),
                forall|k: int|
                    0 <= k < i ==> !#[trigger] branches_to(
                        self.jump_tables@,
                        self.insts@[k].data,
                        e,
                    ),
            decreases self.insts.len() - i,
        {
            let found = match &self.insts[i].data {
                InstData::Jump { destination, .. } => *destination == e,
                InstData::Brz { destination, .. } => *destination == e,
                InstData::Brnz { destination, .. } => *destination == e,
                InstData::BrTable { table, .. } => {
                    if table.index < self.jump_tables.len() {
                        self.table_contains(table.index, e)
                    } else {
                        false
                    }
                },
                _ => false,
            };
            if found {
                assert(branches_to(self.jump_tables@, self.insts@[i as int].data, e));
                return true;
            }
            i = i + 1;
        }
        false
    }

    fn table_contains(&self, t: usize, e: Ebb) -> (r: bool)
        requires
            t < self.jump_tables.len(),
        ensures
            r == self.jump_tables@[t as int]@.contains(e),
    {
        let mut j: usize = 0;
        while j < self.jump_tables[t].len()
            invariant
                t < self.jump_tables.len(),
                j <= self.jump_tables@[t as int].len(),
                forall|k: int| 0 <= k < j ==> self.jump_tables@[t as int]@[k] != e,
            decreases self.jump_tables@[t as int].len() - j,
        {
            if self.jump_tables[t][j] == e {
                assert(self.jump_tables@[t as int]@[j as int] == e);
                return true;
            }
            j = j + 1;
        }
        false
    }

    /// Whether the current block is sealed and has no predecessor (the entry block is always
    /// reachable).
    pub fn is_unreachable(&self) -> (r: bool)
        requires
            self.wf(),
        ensures
            r == self.current_unreachable(),
    {
        let e = self.position.unwrap();
        let is_entry = match self.entry {
            Some(entry) => entry == e,
            None => false,
        };
        if is_entry {
            false
        } else if !self.ebb_sealed[e.index] {
            false
        } else {
            !self.ebb_has_predecessor(e)
        }
    }

    /// Inserts `data` at the end of the current block, with `n` results.
    pub fn ins(&mut self, data: InstData, n: usize) -> (r: (Inst, Vec<Value>))
        requires
            old(self).wf(),
        ensures
            final(self).wf(),
            final(self).appended(old(self), data, n as nat),
            final(self).insts@.drop_last() == old(self).insts@,
            insts_extend(old(self), final(self)),
            r.0.index == old(self).insts.len(),
            r.1@ == values_from(old(self).values.len() as int, final(self).values.len() as int),
            final(self).values.len() == old(self).values.len() + n,
            forall|e: Ebb| #[trigger] final(self).params(e) == old(self).params(e),
    {
        let inst = Inst { index: self.insts.len() };
        let e = self.position.unwrap();
        self.insts.push(InstNode { ebb: e, data });
        self.pristine = false;
        let mut results: Vec<Value> = Vec::new();
        let start = self.values.len();
        let mut k: usize = 0;
        while k < n
            invariant
                k <= n,
                start == old(self).values.len(),
                self.values@ == old(self).values@ + Seq::new(
                    k as nat,
                    |j: int| ValueDef::InstResult { inst, num: j as usize },
                ),
                results@ == values_from(start as int, start + k),
                self.insts@ == old(self).insts@.push(InstNode { ebb: old(self).position->0, data }),
                self.ebb_sealed@ == old(self).ebb_sealed@,
                self.jump_tables@ == old(self).jump_tables@,
                self.heaps@ == old(self).heaps@,
                self.global_vars@ == old(self).global_vars@,
                self.sig_refs@ == old(self).sig_refs@,
                self.func_refs@ == old(self).func_refs@,
                self.position == old(self).position,
                self.entry == old(self).entry,
                !self.pristine,
                inst.index == old(self).insts.len(),
                forall|e: Ebb| #[trigger] params_of(self.values@, e) == params_of(old(self).values@, e),
                self.params_valid(),
            decreases n - k,
        {
            let ghost prev = self.values@;
            results.push(Value { index: self.values.len() });
            self.values.push(ValueDef::InstResult { inst, num: k });
            proof {
                assert(self.values@.drop_last() == prev);
                assert forall|e: Ebb| #[trigger] params_of(self.values@, e) == params_of(old(self).values@, e) by {
                    assert(params_of(self.values@, e) == params_of(prev, e));
                }
                assert(self.values@ =~= old(self).values@ + Seq::new(
                    (k + 1) as nat,
                    |j: int| ValueDef::InstResult { inst, num: j as usize },
                ));
                assert(results@ =~= values_from(start as int, start + k + 1));
            }
            k = k + 1;
        }
        proof {
            assert(self.insts@.drop_last() =~= old(self).insts@);
            assert forall|i: int| 0 <= i < old(self).insts.len() && (#[trigger] old(self).insts@[i]).data is Brz implies self.insts@[i].data is Brz by {
                assert(self.insts@[i] == old(self).insts@[i]);
            }
        }
        (inst, results)
    }

    /// Inserts `data`, which has no result.
    pub fn ins0(&mut self, data: InstData) -> (r: Inst)
        requires
            old(self).wf(),
        ensures
            final(self).wf(),
            final(self).appended(old(self), data, 0),
            final(self).insts@.drop_last() == old(self).insts@,
            final(self).values@ == old(self).values@,
            insts_extend(old(self), final(self)),
            r.index == old(self).insts.len(),
            forall|e: Ebb| #[trigger] final(self).params(e) == old(self).params(e),
    {
        let (inst, _) = self.ins(data, 0);
        assert(self.values@ =~= old(self).values@);
        inst
    }

    /// Inserts `data`, which has one result, and returns that result.
    pub fn ins1(&mut self, data: InstData) -> (r: Value)
        requires
            old(self).wf(),
        ensures
            final(self).wf(),
            final(self).appended(old(self), data, 1),
            final(self).insts@.drop_last() == old(self).insts@,
            final(self).values@ == old(self).values@.push(ValueDef::InstResult { inst: Inst { index: old(self).insts.len() }, num: 0 }),
            insts_extend(old(self), final(self)),
            r.index == old(self).values.len(),
            forall|e: Ebb| #[trigger] final(self).params(e) == old(self).params(e),
    {
        let (_, results) = self.ins(data, 1);
        assert(self.values@ =~= old(self).values@.push(ValueDef::InstResult { inst: Inst { index: old(self).insts.len() }, num: 0 }));
        results[0]
    }

    /// Makes the conditional branch `inst` target `e` instead, keeping its operands.
    pub fn change_jump_destination(&mut self, inst: Inst, e: Ebb)
        requires
            inst.index < old(self).insts.len(),
            old(self).insts@[inst.index as int].data is Brz,
        ensures
            final(self).insts@ == old(self).insts@.update(
                inst.index as int,
                InstNode {
                    ebb: old(self).insts@[inst.index as int].ebb,
                    data: InstData::Brz {
                        cond: old(self).insts@[inst.index as int].data->Brz_cond,
                        destination: e,
                        args: old(self).insts@[inst.index as int].data->Brz_args,
                    },
                },
            ),
            final(self).ebb_sealed@ == old(self).ebb_sealed@,
            final(self).values@ == old(self).values@,
            final(self).jump_tables@ == old(self).jump_tables@,
            final(self).heaps@ == old(self).heaps@,
            final(self).global_vars@ == old(self).global_vars@,
            final(self).sig_refs@ == old(self).sig_refs@,
            final(self).func_refs@ == old(self).func_refs@,
            final(self).position == old(self).position,
            final(self).pristine == old(self).pristine,
            final(self).entry == old(self).entry,
            insts_extend(old(self), final(self)),
    {
        let node = self.insts.remove(inst.index);
        let ebb = node.ebb;
        match node.data {
            InstData::Brz { cond, args, .. } => {
                self.insts.insert(inst.index, InstNode { ebb, data: InstData::Brz { cond, destination: e, args } });
            },
            _ => {
                self.insts.insert(inst.index, InstNode { ebb, data: node.data });
            },
        }
        proof {
            assert(final(self).insts@ =~= old(self).insts@.update(
                inst.index as int,
                InstNode {
                    ebb: old(self).insts@[inst.index as int].ebb,
                    data: InstData::Brz {
                        cond: old(self).insts@[inst.index as int].data->Brz_cond,
                        destination: e,
                        args: old(self).insts@[inst.index as int].data->Brz_args,
                    },
                },
            ));
        }
    }

    /// Records a jump table with the given targets.
    pub fn create_jump_table(&mut self, targets: Vec<Ebb>) -> (t: JumpTable)
        ensures
            t.index == old(self).jump_tables.len(),
            final(self).jump_tables@ == old(self).jump_tables@.push(targets),
            final(self).ebb_sealed@ == old(self).ebb_sealed@,
            final(self).values@ == old(self).values@,
            final(self).insts@ == old(self).insts@,
            final(self).heaps@ == old(self).heaps@,
            final(self).global_vars@ == old(self).global_vars@,
            final(self).sig_refs@ == old(self).sig_refs@,
            final(self).func_refs@ == old(self).func_refs@,
            final(self).position == old(self).position,
            final(self).pristine == old(self).pristine,
            final(self).entry == old(self).entry,
    {
        let t = JumpTable { index: self.jump_tables.len() };
        self.jump_tables.push(targets);
        t
    }
}

} // verus!

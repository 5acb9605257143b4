use cton_wasm::builder::FunctionBuilder;
use cton_wasm::code_translator::{get_heap_addr, translate_operator};
use cton_wasm::environ::{FuncEnvironment, GlobalDesc, GlobalValue};
use cton_wasm::func_translator::translate_function_body;
use cton_wasm::ir::{
    AbiParam, ArgumentPurpose, Ebb, Heap, HeapData, InstData, Signature, TrapCode, Type, Value,
};
use cton_wasm::operator::{BlockType, MemoryImmediate, Operator};
use cton_wasm::state::{normal_args, ControlStackFrame, TranslationState};

fn param(ty: Type, purpose: ArgumentPurpose) -> AbiParam {
    AbiParam { value_type: ty, purpose }
}

fn call_env() -> FuncEnvironment {
    FuncEnvironment {
        pointer_type: Type::I64,
        return_at_end: false,
        globals: vec![GlobalDesc::Memory { ty: Type::I32 }],
        memory_guard_sizes: vec![0x1000],
        signatures: vec![Signature {
            params: vec![param(Type::I32, ArgumentPurpose::Normal), param(Type::I64, ArgumentPurpose::VMContext)],
            returns: vec![param(Type::I32, ArgumentPurpose::Normal)],
        }],
        functions: vec![0],
    }
}

fn positioned_builder() -> FunctionBuilder {
    let mut b = FunctionBuilder::new();
    let entry = b.create_ebb();
    b.set_entry(entry);
    b.switch_to_block(entry);
    b.seal_block(entry);
    b
}

/// A state for a function returning nothing, ready to translate its body.
fn start(returns: Vec<AbiParam>) -> (TranslationState, FunctionBuilder) {
    let mut b = positioned_builder();
    let exit = b.create_ebb();
    let mut s = TranslationState::new();
    s.initialize(&Signature { params: vec![], returns }, exit);
    (s, b)
}

fn heap_builder(guard_size: u64) -> (FunctionBuilder, Heap) {
    let mut b = positioned_builder();
    b.heaps.push(HeapData { memory: 0, guard_size });
    (b, Heap { index: 0 })
}

fn heap_check(b: &FunctionBuilder) -> u32 {
    b.insts
        .iter()
        .find_map(|n| match n.data {
            InstData::HeapAddr { size, .. } => Some(size),
            _ => None,
        })
        .unwrap()
}

#[test]
fn heap_check_size_covers_the_first_byte() {
    let (mut b, heap) = heap_builder(0x1000);
    let addr = Value { index: 0 };
    let (base, offset) = get_heap_addr(heap, addr, 0, Type::I64, &mut b);
    assert_eq!(heap_check(&b), 1);
    assert_eq!(offset, 0);
    assert_eq!(base, Value { index: 0 });
    assert_eq!(b.insts.len(), 1);
}

#[test]
fn heap_check_size_is_quantized_by_the_guard() {
    let (mut b, heap) = heap_builder(0x1000);
    let (_, offset) = get_heap_addr(heap, Value { index: 0 }, 0x1234, Type::I64, &mut b);
    assert_eq!(heap_check(&b), 0x1001);
    assert_eq!(offset, 0x1234);
}

#[test]
fn heap_check_size_saturates() {
    let (mut b, heap) = heap_builder(1);
    let (_, offset) = get_heap_addr(heap, Value { index: 0 }, 0x7fff_ffff, Type::I32, &mut b);
    assert_eq!(heap_check(&b), 0x8000_0000);
    assert_eq!(offset, 0x7fff_ffff);
    let (mut b, heap) = heap_builder(1);
    get_heap_addr(heap, Value { index: 0 }, u32::MAX, Type::I32, &mut b);
    assert_eq!(heap_check(&b), u32::MAX);
}

#[test]
fn large_offset_moves_into_the_base() {
    let (mut b, heap) = heap_builder(0x1_0000);
    let (base, offset) = get_heap_addr(heap, Value { index: 0 }, 0x8000_0010, Type::I64, &mut b);
    assert_eq!(offset, 0x10);
    assert_eq!(heap_check(&b), 0x8000_0001);
    assert_eq!(base, Value { index: 1 });
    assert!(matches!(b.insts[1].data, InstData::IaddImm { arg: Value { index: 0 }, imm: 0x8000_0000 }));
}

#[test]
fn load_uses_heap_zero() {
    let env = call_env();
    let ops = vec![
        Operator::I32Const { value: 8 },
        Operator::I32Load { memarg: MemoryImmediate { flags: 2, offset: 16 } },
        Operator::I32Const { value: 8 },
        Operator::I64Load8U { memarg: MemoryImmediate { flags: 0, offset: 0 } },
        Operator::Drop,
        Operator::End,
    ];
    let sig = Signature { params: vec![], returns: vec![param(Type::I32, ArgumentPurpose::Normal)] };
    let b = translate_function_body(&sig, &ops, &env).unwrap();
    assert_eq!(b.heaps, vec![HeapData { memory: 0, guard_size: 0x1000 }]);
    assert!(b.insts.iter().any(|n| matches!(n.data, InstData::Load { ty: Type::I32, offset: 16, .. })));
    assert!(b.insts.iter().any(|n| matches!(n.data, InstData::Load { ty: Type::I64, offset: 0, opcode: cton_wasm::ir::LoadOpcode::Uload8, .. })));
    // Both offsets are below the guard size: each access checks its first byte.
    assert_eq!(b.insts.iter().filter(|n| matches!(n.data, InstData::HeapAddr { size: 1, .. })).count(), 2);
}

#[test]
fn store_takes_address_then_value() {
    let env = call_env();
    let ops = vec![
        Operator::I32Const { value: 8 },
        Operator::I32Const { value: 99 },
        Operator::I32Store8 { memarg: MemoryImmediate { flags: 0, offset: 4 } },
        Operator::End,
    ];
    let sig = Signature { params: vec![], returns: vec![] };
    let b = translate_function_body(&sig, &ops, &env).unwrap();
    let (value, offset) = b.insts.iter().find_map(|n| match n.data {
        InstData::Store { value, offset, .. } => Some((value, offset)),
        _ => None,
    }).unwrap();
    assert_eq!(offset, 4);
    assert!(matches!(b.insts[1].data, InstData::Iconst { imm: 99, .. }));
    assert_eq!(value, Value { index: 1 });
}

#[test]
fn entities_are_made_once_per_function() {
    let env = call_env();
    let (mut s, mut b) = start(vec![]);
    let g1 = s.get_global(&mut b, 0, &env);
    let g2 = s.get_global(&mut b, 0, &env);
    assert_eq!(g1, g2);
    assert_eq!(b.global_vars, vec![0]);
    assert!(matches!(g1, GlobalValue::Memory { ty: Type::I32, .. }));
    let h1 = s.get_heap(&mut b, 0, &env);
    let h2 = s.get_heap(&mut b, 0, &env);
    assert_eq!(h1, h2);
    assert_eq!(b.heaps.len(), 1);
    let f1 = s.get_direct_func(&mut b, 0, &env);
    let f2 = s.get_direct_func(&mut b, 0, &env);
    assert_eq!(f1, f2);
    assert_eq!(f1.1, 1);
    assert_eq!(b.func_refs, vec![0]);
    let i1 = s.get_indirect_sig(&mut b, 0, &env);
    let i2 = s.get_indirect_sig(&mut b, 0, &env);
    assert_eq!(i1, i2);
    assert_eq!(b.sig_refs, vec![0]);
}

#[test]
fn special_parameters_are_not_arguments() {
    let env = call_env();
    assert_eq!(normal_args(&env.signatures[0]), 1);
    assert_eq!(normal_args(&Signature { params: vec![], returns: vec![] }), 0);
}

#[test]
fn call_passes_normal_arguments_and_pushes_results() {
    let env = call_env();
    let ops = vec![
        Operator::I32Const { value: 4 },
        Operator::Call { function_index: 0 },
        Operator::Call { function_index: 0 },
        Operator::End,
    ];
    let sig = Signature { params: vec![], returns: vec![param(Type::I32, ArgumentPurpose::Normal)] };
    let b = translate_function_body(&sig, &ops, &env).unwrap();
    let calls: Vec<_> = b.insts.iter().filter_map(|n| match &n.data {
        InstData::Call { func, args } => Some((*func, args.clone())),
        _ => None,
    }).collect();
    assert_eq!(calls.len(), 2);
    assert_eq!(calls[0].0, calls[1].0);
    // Value 0 is the exit block's parameter.
    assert_eq!(calls[0].1, vec![Value { index: 1 }]);
    // The second call takes the result of the first.
    assert_eq!(calls[1].1, vec![Value { index: 2 }]);
    assert_eq!(b.func_refs.len(), 1);
}

#[test]
fn call_indirect_pops_callee_then_arguments() {
    let env = call_env();
    let ops = vec![
        Operator::I32Const { value: 4 },
        Operator::I32Const { value: 0 },
        Operator::CallIndirect { index: 0, table_index: 0 },
        Operator::End,
    ];
    let sig = Signature { params: vec![], returns: vec![param(Type::I32, ArgumentPurpose::Normal)] };
    let b = translate_function_body(&sig, &ops, &env).unwrap();
    let (callee, args) = b.insts.iter().find_map(|n| match &n.data {
        InstData::CallIndirect { callee, args, .. } => Some((*callee, args.clone())),
        _ => None,
    }).unwrap();
    // Value 0 is the exit block's parameter.
    assert_eq!(callee, Value { index: 2 });
    assert_eq!(args, vec![Value { index: 1 }]);
}

#[test]
fn memory_intrinsics_use_the_heap() {
    let env = call_env();
    let ops = vec![
        Operator::CurrentMemory { reserved: 0 },
        Operator::GrowMemory { reserved: 0 },
        Operator::End,
    ];
    let sig = Signature { params: vec![], returns: vec![param(Type::I32, ArgumentPurpose::Normal)] };
    let b = translate_function_body(&sig, &ops, &env).unwrap();
    assert!(matches!(b.insts[0].data, InstData::CurrentMemory { heap: Heap { index: 0 } }));
    // Value 0 is the exit block's parameter; value 1 the current size.
    assert!(matches!(b.insts[1].data, InstData::GrowMemory { heap: Heap { index: 0 }, delta: Value { index: 1 } }));
    assert_eq!(b.heaps.len(), 1);
}

#[test]
fn return_at_end_jumps_to_exit() {
    let mut env = call_env();
    env.return_at_end = true;
    let ops = vec![Operator::I32Const { value: 3 }, Operator::Return, Operator::End];
    let sig = Signature { params: vec![], returns: vec![param(Type::I32, ArgumentPurpose::Normal)] };
    let b = translate_function_body(&sig, &ops, &env).unwrap();
    assert!(matches!(&b.insts[1].data, InstData::Jump { destination: Ebb { index: 1 }, args } if args == &vec![Value { index: 1 }]));
    // The exit block is reachable, so the function returns from it.
    assert!(matches!(b.insts.last().unwrap().data, InstData::Return { .. }));
}

#[test]
fn return_is_native_by_default() {
    let env = call_env();
    let ops = vec![Operator::I32Const { value: 3 }, Operator::Return, Operator::End];
    let sig = Signature { params: vec![], returns: vec![param(Type::I32, ArgumentPurpose::Normal)] };
    let b = translate_function_body(&sig, &ops, &env).unwrap();
    assert!(matches!(&b.insts[1].data, InstData::Return { args } if args == &vec![Value { index: 1 }]));
    // The `return` marks the function's frame reachable, so the exit block is entered.
    assert_eq!(b.position, Some(Ebb { index: 1 }));
}

#[test]
fn unreachable_traps_and_skips_nested_constructs() {
    let env = call_env();
    let (mut s, mut b) = start(vec![]);
    translate_operator(&Operator::Block { ty: BlockType::EmptyBlock }, &mut b, &mut s, &env);
    translate_operator(&Operator::Unreachable, &mut b, &mut s, &env);
    assert!(matches!(b.insts.last().unwrap().data, InstData::Trap { code: TrapCode::User(0) }));
    assert_eq!(s.real_unreachable_stack_depth, 1);
    translate_operator(&Operator::Block { ty: BlockType::EmptyBlock }, &mut b, &mut s, &env);
    translate_operator(&Operator::Loop { ty: BlockType::EmptyBlock }, &mut b, &mut s, &env);
    translate_operator(&Operator::I32Add, &mut b, &mut s, &env);
    assert_eq!(s.phantom_unreachable_stack_depth, 2);
    assert_eq!(s.control_stack.len(), 2);
    translate_operator(&Operator::End, &mut b, &mut s, &env);
    translate_operator(&Operator::End, &mut b, &mut s, &env);
    assert_eq!(s.phantom_unreachable_stack_depth, 0);
    assert_eq!(s.real_unreachable_stack_depth, 1);
    let insts = b.insts.len();
    // This `end` closes the real block, which nothing branches to: its code follows
    // nevertheless, as the depth was one.
    translate_operator(&Operator::End, &mut b, &mut s, &env);
    assert_eq!(s.real_unreachable_stack_depth, 0);
    assert_eq!(s.phantom_unreachable_stack_depth, 0);
    assert_eq!(s.control_stack.len(), 1);
    assert_eq!(b.insts.len(), insts);
    assert!(b.is_unreachable());
}

#[test]
fn br_skips_to_the_end_of_its_frame() {
    let env = call_env();
    let (mut s, mut b) = start(vec![]);
    translate_operator(&Operator::Block { ty: BlockType::EmptyBlock }, &mut b, &mut s, &env);
    translate_operator(&Operator::Block { ty: BlockType::EmptyBlock }, &mut b, &mut s, &env);
    translate_operator(&Operator::Br { relative_depth: 1 }, &mut b, &mut s, &env);
    assert_eq!(s.real_unreachable_stack_depth, 2);
    assert!(s.control_stack[1].is_reachable());
    assert!(!s.control_stack[2].is_reachable());
    translate_operator(&Operator::End, &mut b, &mut s, &env);
    assert_eq!(s.real_unreachable_stack_depth, 1);
    translate_operator(&Operator::End, &mut b, &mut s, &env);
    assert_eq!(s.real_unreachable_stack_depth, 0);
    assert_eq!(b.position, Some(Ebb { index: 2 }));
}

#[test]
fn unreachable_else_resumes_in_the_else_arm() {
    let env = call_env();
    let (mut s, mut b) = start(vec![]);
    translate_operator(&Operator::I32Const { value: 1 }, &mut b, &mut s, &env);
    translate_operator(&Operator::If { ty: BlockType::EmptyBlock }, &mut b, &mut s, &env);
    let brz = b.insts.len() - 1;
    translate_operator(&Operator::Unreachable, &mut b, &mut s, &env);
    translate_operator(&Operator::If { ty: BlockType::EmptyBlock }, &mut b, &mut s, &env);
    // The `else` of a construct opened in unreachable code is skipped.
    translate_operator(&Operator::Else, &mut b, &mut s, &env);
    assert_eq!(s.real_unreachable_stack_depth, 1);
    translate_operator(&Operator::End, &mut b, &mut s, &env);
    translate_operator(&Operator::Else, &mut b, &mut s, &env);
    assert_eq!(s.real_unreachable_stack_depth, 0);
    let else_ebb = b.position.unwrap();
    assert!(matches!(b.insts[brz].data, InstData::Brz { destination, .. } if destination == else_ebb));
    assert!(b.ebb_sealed[else_ebb.index]);
}

#[test]
fn br_if_keeps_the_values() {
    let env = call_env();
    let (mut s, mut b) = start(vec![param(Type::I32, ArgumentPurpose::Normal)]);
    translate_operator(&Operator::I32Const { value: 7 }, &mut b, &mut s, &env);
    translate_operator(&Operator::I32Const { value: 1 }, &mut b, &mut s, &env);
    translate_operator(&Operator::BrIf { relative_depth: 0 }, &mut b, &mut s, &env);
    assert_eq!(s.stack, vec![Value { index: 0 }]);
    assert_eq!(s.real_unreachable_stack_depth, 0);
    assert!(matches!(&b.insts[2].data, InstData::Brnz { cond: Value { index: 1 }, destination: Ebb { index: 1 }, args } if args == &vec![Value { index: 0 }]));
}

#[test]
fn locals_select_and_float_constants() {
    let env = call_env();
    let (mut s, mut b) = start(vec![]);
    translate_operator(&Operator::F32Const { bits: 0x7fc0_0001 }, &mut b, &mut s, &env);
    translate_operator(&Operator::TeeLocal { local_index: 3 }, &mut b, &mut s, &env);
    translate_operator(&Operator::GetLocal { local_index: 3 }, &mut b, &mut s, &env);
    translate_operator(&Operator::I32Const { value: 0 }, &mut b, &mut s, &env);
    translate_operator(&Operator::Select, &mut b, &mut s, &env);
    translate_operator(&Operator::SetLocal { local_index: 2 }, &mut b, &mut s, &env);
    assert!(s.stack.is_empty());
    assert!(matches!(b.insts[0].data, InstData::F32const { bits: 0x7fc0_0001 }));
    assert!(matches!(b.insts[1].data, InstData::DefVar { local: 3, value: Value { index: 0 } }));
    assert!(matches!(b.insts[2].data, InstData::UseVar { local: 3 }));
    assert!(matches!(b.insts[4].data, InstData::Select { cond: Value { index: 2 }, if_true: Value { index: 0 }, if_false: Value { index: 1 } }));
    assert!(matches!(b.insts[5].data, InstData::DefVar { local: 2, value: Value { index: 3 } }));
}

#[test]
fn frames_report_their_fields() {
    let f = ControlStackFrame::Loop {
        destination: Ebb { index: 4 },
        header: Ebb { index: 3 },
        num_return_values: 1,
        original_stack_size: 2,
        reachable: false,
    };
    assert_eq!(f.following_code(), Ebb { index: 4 });
    assert_eq!(f.br_destination(), Ebb { index: 3 });
    assert_eq!(f.num_return_values(), 1);
    assert_eq!(f.original_stack_size(), 2);
    assert!(f.is_loop());
    let mut g = ControlStackFrame::Block {
        destination: Ebb { index: 5 },
        num_return_values: 0,
        original_stack_size: 0,
        reachable: false,
    };
    assert_eq!(g.br_destination(), Ebb { index: 5 });
    assert!(!g.is_reachable());
    g.set_reachable();
    assert!(g.is_reachable());
    g.set_reachable();
    assert!(g.is_reachable());
}

#[test]
fn stack_operations_keep_push_order() {
    let mut s = TranslationState::new();
    let v = |i| Value { index: i };
    s.pushn(&vec![v(0), v(1), v(2), v(3)]);
    assert_eq!(s.peekn(2), vec![v(2), v(3)]);
    assert_eq!(s.peek1(), v(3));
    assert_eq!(s.pop2(), (v(2), v(3)));
    s.push1(v(4));
    assert_eq!(s.pop3(), (v(0), v(1), v(4)));
    s.pushn(&vec![v(5), v(6)]);
    s.popn(1);
    assert_eq!(s.pop1(), v(5));
    assert!(s.stack.is_empty());
    assert!(!s.in_unreachable_code());
}

#[test]
fn loop_with_back_edge_seals_header_and_destination() {
    let env = call_env();
    let (mut s, mut b) = start(vec![]);
    translate_operator(&Operator::Loop { ty: BlockType::EmptyBlock }, &mut b, &mut s, &env);
    let header = b.position.unwrap();
    translate_operator(&Operator::Br { relative_depth: 0 }, &mut b, &mut s, &env);
    assert!(matches!(b.insts.last().unwrap().data, InstData::Jump { destination, .. } if destination == header));
    assert_eq!(s.real_unreachable_stack_depth, 1);
    let after = s.control_stack[1].following_code();
    assert!(!b.ebb_sealed[header.index] && !b.ebb_sealed[after.index]);
    translate_operator(&Operator::End, &mut b, &mut s, &env);
    assert!(b.ebb_sealed[header.index] && b.ebb_sealed[after.index]);
    // The loop frame was the target of the branch, so translation resumes after it, in a
    // block that nothing reaches.
    assert_eq!(s.real_unreachable_stack_depth, 0);
    assert_eq!(b.position, Some(after));
    assert!(b.is_unreachable());
    assert_eq!(s.control_stack.len(), 1);
}

#[test]
fn nesting_is_restored_by_matching_ends() {
    let env = call_env();
    let (mut s, mut b) = start(vec![]);
    let ops = vec![
        Operator::Block { ty: BlockType::EmptyBlock },
        Operator::Loop { ty: BlockType::EmptyBlock },
        Operator::I32Const { value: 1 },
        Operator::If { ty: BlockType::EmptyBlock },
        Operator::Br { relative_depth: 2 },
        Operator::Block { ty: BlockType::EmptyBlock },
        Operator::End,
        Operator::End,
        Operator::End,
        Operator::End,
    ];
    for op in &ops {
        translate_operator(op, &mut b, &mut s, &env);
    }
    assert_eq!(s.control_stack.len(), 1);
    assert_eq!(s.phantom_unreachable_stack_depth, 0);
    assert_eq!(s.real_unreachable_stack_depth, 0);
}

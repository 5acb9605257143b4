use cton_wasm::builder::FunctionBuilder;
use cton_wasm::environ::{FuncEnvironment, GlobalDesc, GlobalValue};
use cton_wasm::func_translator::{translate_function_body, TranslationError};
use cton_wasm::ir::{
    AbiParam, ArgumentPurpose, BinaryOpcode, Ebb, InstData, IntCC, Signature, Type, Value,
    ValueDef,
};
use cton_wasm::operator::{BlockType, Operator};

fn env() -> FuncEnvironment {
    FuncEnvironment {
        pointer_type: Type::I64,
        return_at_end: false,
        globals: vec![],
        memory_guard_sizes: vec![0x1_0000],
        signatures: vec![],
        functions: vec![],
    }
}

fn normal(ty: Type) -> AbiParam {
    AbiParam { value_type: ty, purpose: ArgumentPurpose::Normal }
}

fn sig(params: Vec<Type>, returns: Vec<Type>) -> Signature {
    Signature {
        params: params.into_iter().map(normal).collect(),
        returns: returns.into_iter().map(normal).collect(),
    }
}

fn translate(params: Vec<Type>, returns: Vec<Type>, ops: Vec<Operator>) -> FunctionBuilder {
    translate_function_body(&sig(params, returns), &ops, &env()).expect("translation succeeds")
}

const EXIT: Ebb = Ebb { index: 1 };

fn jumps_to(b: &FunctionBuilder, dest: Ebb) -> Vec<Vec<Value>> {
    b.insts
        .iter()
        .filter_map(|n| match &n.data {
            InstData::Jump { destination, args } if *destination == dest => Some(args.clone()),
            _ => None,
        })
        .collect()
}

fn exit_params(b: &FunctionBuilder) -> Vec<Value> {
    b.ebb_params(EXIT)
}

fn def_of(b: &FunctionBuilder, v: Value) -> &InstData {
    match b.values[v.index] {
        ValueDef::InstResult { inst, .. } => &b.insts[inst.index].data,
        ValueDef::EbbParam { .. } => panic!("value {:?} is a block parameter", v),
    }
}

fn last_return(b: &FunctionBuilder) -> Vec<Value> {
    match &b.insts.last().unwrap().data {
        InstData::Return { args } => args.clone(),
        other => panic!("last instruction is {:?}", other),
    }
}

#[test]
fn add_two_constants_returns_the_sum() {
    let b = translate(
        vec![],
        vec![Type::I32],
        vec![
            Operator::I32Const { value: 1 },
            Operator::I32Const { value: 2 },
            Operator::I32Add,
            Operator::End,
        ],
    );
    let params = exit_params(&b);
    assert_eq!(params.len(), 1);
    let edges = jumps_to(&b, EXIT);
    assert_eq!(edges.len(), 1);
    assert_eq!(edges[0].len(), 1);
    match def_of(&b, edges[0][0]) {
        InstData::Binary { opcode: BinaryOpcode::Iadd, lhs, rhs } => {
            assert!(matches!(def_of(&b, *lhs), InstData::Iconst { ty: Type::I32, imm: 1 }));
            assert!(matches!(def_of(&b, *rhs), InstData::Iconst { ty: Type::I32, imm: 2 }));
        },
        other => panic!("unexpected {:?}", other),
    }
    assert_eq!(last_return(&b), params);
    assert!(b.ebb_sealed.iter().all(|s| *s));
}

#[test]
fn code_after_br_is_skipped() {
    let b = translate(
        vec![],
        vec![Type::I32],
        vec![
            Operator::Block { ty: BlockType::Value(Type::I32) },
            Operator::I32Const { value: 7 },
            Operator::Br { relative_depth: 0 },
            Operator::I32Const { value: 9 },
            Operator::End,
            Operator::End,
        ],
    );
    assert!(!b.insts.iter().any(|n| matches!(n.data, InstData::Iconst { imm: 9, .. })));
    let block_dest = Ebb { index: 2 };
    let edges = jumps_to(&b, block_dest);
    assert_eq!(edges.len(), 1);
    assert!(matches!(def_of(&b, edges[0][0]), InstData::Iconst { ty: Type::I32, imm: 7 }));
    let dest_params = b.ebb_params(block_dest);
    assert_eq!(dest_params.len(), 1);
    let exit_edges = jumps_to(&b, EXIT);
    assert_eq!(exit_edges, vec![dest_params]);
}

#[test]
fn if_else_joins_with_one_parameter() {
    let b = translate(
        vec![Type::I32],
        vec![Type::I32],
        vec![
            Operator::GetLocal { local_index: 0 },
            Operator::If { ty: BlockType::Value(Type::I32) },
            Operator::I32Const { value: 1 },
            Operator::Else,
            Operator::I32Const { value: 2 },
            Operator::End,
            Operator::End,
        ],
    );
    let brz: Vec<(Value, Ebb)> = b
        .insts
        .iter()
        .filter_map(|n| match &n.data {
            InstData::Brz { cond, destination, args } if args.is_empty() => Some((*cond, *destination)),
            _ => None,
        })
        .collect();
    assert_eq!(brz.len(), 1);
    let (cond, else_body) = brz[0];
    assert!(matches!(def_of(&b, cond), InstData::UseVar { local: 0 }));
    // The destination of the `if` is the block made first, after entry and exit.
    let dest = Ebb { index: 2 };
    assert_ne!(else_body, dest);
    let edges = jumps_to(&b, dest);
    assert_eq!(edges.len(), 2);
    assert!(matches!(def_of(&b, edges[0][0]), InstData::Iconst { imm: 1, .. }));
    assert!(matches!(def_of(&b, edges[1][0]), InstData::Iconst { imm: 2, .. }));
    let else_jump = b.insts.iter().find(|n| matches!(n.data, InstData::Jump { destination, .. } if destination == dest) && n.ebb == else_body);
    assert!(else_jump.is_some());
    let dest_params = b.ebb_params(dest);
    assert_eq!(dest_params.len(), 1);
    assert!(matches!(b.values[dest_params[0].index], ValueDef::EbbParam { ty: Type::I32, .. }));
    let branches = b
        .insts
        .iter()
        .filter(|n| matches!(n.data, InstData::Jump { .. } | InstData::Brz { .. } | InstData::Brnz { .. } | InstData::BrTable { .. }))
        .count();
    // brz, the two arms' jumps, and the jump to the exit block.
    assert_eq!(branches, 4);
}

#[test]
fn br_table_without_arguments_targets_frames() {
    let b = translate(
        vec![],
        vec![],
        vec![
            Operator::Block { ty: BlockType::EmptyBlock },
            Operator::Block { ty: BlockType::EmptyBlock },
            Operator::I32Const { value: 0 },
            Operator::BrTable { targets: vec![0, 1, 0], default: 0 },
            Operator::End,
            Operator::End,
            Operator::End,
        ],
    );
    let outer = Ebb { index: 2 };
    let inner = Ebb { index: 3 };
    let (selector, table) = b
        .insts
        .iter()
        .find_map(|n| match &n.data {
            InstData::BrTable { selector, table } => Some((*selector, *table)),
            _ => None,
        })
        .expect("a br_table");
    assert!(matches!(def_of(&b, selector), InstData::Iconst { ty: Type::I32, imm: 0 }));
    assert_eq!(b.jump_tables[table.index], vec![inner, outer, inner]);
    let pos = b.insts.iter().position(|n| matches!(n.data, InstData::BrTable { .. })).unwrap();
    match &b.insts[pos + 1].data {
        InstData::Jump { destination, args } => {
            assert_eq!(*destination, inner);
            assert!(args.is_empty());
        },
        other => panic!("unexpected {:?}", other),
    }
    assert!(b.ebb_sealed.iter().all(|s| *s));
}

#[test]
fn loop_back_edge_targets_header() {
    let b = translate(
        vec![],
        vec![],
        vec![
            Operator::Loop { ty: BlockType::EmptyBlock },
            Operator::Br { relative_depth: 0 },
            Operator::End,
            Operator::End,
        ],
    );
    let header = Ebb { index: 2 };
    let after = Ebb { index: 3 };
    let into_header: Vec<_> = b
        .insts
        .iter()
        .filter(|n| matches!(n.data, InstData::Jump { destination, .. } if destination == header))
        .collect();
    // The jump into the loop, and the back edge from the loop body.
    assert_eq!(into_header.len(), 2);
    assert_eq!(into_header[1].ebb, header);
    assert!(!b.ebb_has_predecessor(after));
    assert!(b.ebb_sealed[header.index] && b.ebb_sealed[after.index]);
    // Nothing can reach the end of the function, so it does not return.
    assert!(!b.insts.iter().any(|n| matches!(n.data, InstData::Return { .. })));
}

#[test]
fn comparison_is_extended_to_i32() {
    let b = translate(
        vec![],
        vec![Type::I32],
        vec![
            Operator::I32Const { value: 10 },
            Operator::I32Const { value: 20 },
            Operator::I32LtS,
            Operator::End,
        ],
    );
    let edges = jumps_to(&b, EXIT);
    assert_eq!(edges.len(), 1);
    match def_of(&b, edges[0][0]) {
        InstData::Bint { ty: Type::I32, arg } => match def_of(&b, *arg) {
            InstData::Icmp { cond: IntCC::SignedLessThan, lhs, rhs } => {
                assert!(matches!(def_of(&b, *lhs), InstData::Iconst { imm: 10, .. }));
                assert!(matches!(def_of(&b, *rhs), InstData::Iconst { imm: 20, .. }));
            },
            other => panic!("unexpected {:?}", other),
        },
        other => panic!("unexpected {:?}", other),
    }
}

#[test]
fn same_input_gives_same_ir() {
    let ops = vec![
        Operator::Block { ty: BlockType::Value(Type::I32) },
        Operator::Block { ty: BlockType::Value(Type::I32) },
        Operator::I32Const { value: 5 },
        Operator::I32Const { value: 1 },
        Operator::BrTable { targets: vec![1, 0, 1, 0], default: 1 },
        Operator::End,
        Operator::End,
        Operator::End,
    ];
    let a = translate(vec![], vec![Type::I32], ops.clone());
    let b = translate(vec![], vec![Type::I32], ops);
    assert_eq!(format!("{:?}", a.insts), format!("{:?}", b.insts));
    assert_eq!(a.values, b.values);
    assert_eq!(a.jump_tables, b.jump_tables);
}

#[test]
fn br_table_with_arguments_uses_trampolines() {
    let b = translate(
        vec![],
        vec![Type::I32],
        vec![
            Operator::Block { ty: BlockType::Value(Type::I32) },
            Operator::Block { ty: BlockType::Value(Type::I32) },
            Operator::I32Const { value: 5 },
            Operator::I32Const { value: 1 },
            Operator::BrTable { targets: vec![1, 0, 1], default: 0 },
            Operator::End,
            Operator::End,
            Operator::End,
        ],
    );
    let outer = Ebb { index: 2 };
    let inner = Ebb { index: 3 };
    let table = b
        .insts
        .iter()
        .find_map(|n| match &n.data {
            InstData::BrTable { table, .. } => Some(*table),
            _ => None,
        })
        .unwrap();
    // One trampoline per distinct depth, in order of first use.
    let t_outer = Ebb { index: 4 };
    let t_inner = Ebb { index: 5 };
    assert_eq!(b.jump_tables[table.index], vec![t_outer, t_inner, t_outer]);
    for (t, dest) in [(t_outer, outer), (t_inner, inner)] {
        let from_t: Vec<_> = b.insts.iter().filter(|n| n.ebb == t).collect();
        assert_eq!(from_t.len(), 1);
        match &from_t[0].data {
            InstData::Jump { destination, args } => {
                assert_eq!(*destination, dest);
                assert_eq!(args.len(), 1);
                assert!(matches!(def_of(&b, args[0]), InstData::Iconst { imm: 5, .. }));
            },
            other => panic!("unexpected {:?}", other),
        }
    }
    assert!(b.ebb_sealed.iter().all(|s| *s));
}

#[test]
fn saturating_conversion_is_unsupported() {
    let ops = vec![
        Operator::F32Const { bits: 0 },
        Operator::I32TruncSSatF32,
        Operator::End,
    ];
    let r = translate_function_body(&sig(vec![], vec![Type::I32]), &ops, &env());
    assert_eq!(r.err(), Some(TranslationError::Unsupported { offset: 1 }));
}

#[test]
fn missing_operand_is_invalid() {
    let ops = vec![Operator::I32Add, Operator::End];
    let r = translate_function_body(&sig(vec![], vec![]), &ops, &env());
    assert_eq!(r.err(), Some(TranslationError::InvalidOperator { offset: 0 }));
}

#[test]
fn else_without_if_is_invalid() {
    let ops = vec![Operator::Block { ty: BlockType::EmptyBlock }, Operator::Else, Operator::End, Operator::End];
    let r = translate_function_body(&sig(vec![], vec![]), &ops, &env());
    assert_eq!(r.err(), Some(TranslationError::InvalidOperator { offset: 1 }));
}

#[test]
fn writing_a_constant_global_is_invalid() {
    let mut e = env();
    e.globals = vec![GlobalDesc::Const { value: Value { index: 0 } }];
    let ops = vec![
        Operator::I32Const { value: 3 },
        Operator::SetGlobal { global_index: 0 },
        Operator::End,
    ];
    let r = translate_function_body(&sig(vec![], vec![]), &ops, &e);
    assert_eq!(r.err(), Some(TranslationError::InvalidOperator { offset: 1 }));
}

#[test]
fn operator_after_the_body_is_trailing() {
    let ops = vec![Operator::End, Operator::Nop];
    let r = translate_function_body(&sig(vec![], vec![]), &ops, &env());
    assert_eq!(r.err(), Some(TranslationError::TrailingOperator { offset: 1 }));
}

#[test]
fn body_without_end_is_missing_end() {
    let ops = vec![Operator::Nop];
    let r = translate_function_body(&sig(vec![], vec![]), &ops, &env());
    assert_eq!(r.err(), Some(TranslationError::MissingEnd));
}

#[test]
fn empty_body_is_missing_end() {
    let r = translate_function_body(&sig(vec![], vec![]), &vec![], &env());
    assert_eq!(r.err(), Some(TranslationError::MissingEnd));
}

#[test]
fn memory_global_is_loaded_and_stored() {
    let mut e = env();
    e.globals = vec![GlobalDesc::Memory { ty: Type::I64 }];
    let ops = vec![
        Operator::GetGlobal { global_index: 0 },
        Operator::SetGlobal { global_index: 0 },
        Operator::GetGlobal { global_index: 0 },
        Operator::Drop,
        Operator::End,
    ];
    let b = translate_function_body(&sig(vec![], vec![]), &ops, &e).unwrap();
    // The global slot is made once and used by all three accesses.
    assert_eq!(b.global_vars, vec![0]);
    let addrs = b.insts.iter().filter(|n| matches!(n.data, InstData::GlobalAddr { ty: Type::I64, global } if global.index == 0)).count();
    assert_eq!(addrs, 3);
    let loads = b.insts.iter().filter(|n| matches!(n.data, InstData::Load { ty: Type::I64, offset: 0, .. })).count();
    assert_eq!(loads, 2);
    assert_eq!(b.insts.iter().filter(|n| matches!(n.data, InstData::Store { .. })).count(), 1);
}

#[test]
fn constant_global_is_its_value() {
    let mut e = env();
    let v = Value { index: 0 };
    e.globals = vec![GlobalDesc::Const { value: v }];
    let ops = vec![Operator::GetGlobal { global_index: 0 }, Operator::End];
    let b = translate_function_body(&sig(vec![Type::I32], vec![Type::I32]), &ops, &e).unwrap();
    assert_eq!(jumps_to(&b, EXIT), vec![vec![v]]);
    let _ = GlobalValue::Const(v);
}

#[test]
fn br_table_default_with_arguments_gets_its_own_trampoline() {
    let b = translate(
        vec![],
        vec![Type::I32],
        vec![
            Operator::Block { ty: BlockType::Value(Type::I32) },
            Operator::Block { ty: BlockType::Value(Type::I32) },
            Operator::I32Const { value: 5 },
            Operator::I32Const { value: 0 },
            Operator::BrTable { targets: vec![0], default: 1 },
            Operator::End,
            Operator::End,
            Operator::End,
        ],
    );
    let outer = Ebb { index: 2 };
    let inner = Ebb { index: 3 };
    let t_inner = Ebb { index: 4 };
    let t_default = Ebb { index: 5 };
    let pos = b.insts.iter().position(|n| matches!(n.data, InstData::BrTable { .. })).unwrap();
    let table = match b.insts[pos].data {
        InstData::BrTable { table, .. } => table,
        _ => unreachable!(),
    };
    assert_eq!(b.jump_tables[table.index], vec![t_inner]);
    // The default jump goes to a new block carrying the value, which jumps on to the outer
    // block's destination with it.
    match &b.insts[pos + 1].data {
        InstData::Jump { destination, args } => {
            assert_eq!(*destination, t_default);
            assert_eq!(args.len(), 1);
            assert!(matches!(def_of(&b, args[0]), InstData::Iconst { imm: 5, .. }));
        },
        other => panic!("unexpected {:?}", other),
    }
    for (t, dest) in [(t_inner, inner), (t_default, outer)] {
        let from_t: Vec<_> = b.insts.iter().filter(|n| n.ebb == t).collect();
        assert_eq!(from_t.len(), 1);
        assert!(matches!(&from_t[0].data, InstData::Jump { destination, args } if *destination == dest && args.len() == 1));
        assert!(b.ebb_sealed[t.index]);
    }
}

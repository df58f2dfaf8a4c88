use wasm_decode::func_parse::parse_func;
use wasm_decode::insn::{FuncError, Op};
use wasm_decode::module_data::{BranchTarget, FunctionData};

fn decode(size_start: u64, locals_start: u64, body: Vec<u8>) -> Result<FunctionData, FuncError> {
    let end = locals_start + body.len() as u64;
    parse_func(size_start, locals_start, end, body)
}

#[test]
fn br_out_of_block_lands_after_end() {
    // block; i32.const 1; br 0; end; end
    let body = vec![0x00u8, 0x02, 0x40, 0x41, 0x01, 0x0c, 0x00, 0x0b, 0x0b];
    let f = decode(99, 100, body).unwrap();
    assert_eq!(f.ops_start, 101);
    assert_eq!(f.end, 109);
    // Operators: block@101, i32.const@103, br@105, end@107, end@108.
    let offsets: Vec<u64> = f.ops.iter().map(|o| o.offset).collect();
    assert_eq!(offsets, vec![101, 103, 105, 107, 108]);
    let br = f.op_at(105).unwrap();
    assert!(matches!(br.op, Op::Br { relative_depth: 0 }));
    // The branch resolves to the address immediately after the block's end.
    match &br.target {
        Some(BranchTarget::Unconditional(a)) => assert_eq!(*a, 108),
        other => panic!("unexpected target: {other:?}"),
    }
    // The function-level end carries the function-end marker.
    let fin = f.op_at(108).unwrap();
    assert!(matches!(fin.target, Some(BranchTarget::FunctionEnd)));
}

#[test]
fn br_into_loop_is_back_edge() {
    // loop; br 0; end; end
    let body = vec![0x00u8, 0x03, 0x40, 0x0c, 0x00, 0x0b, 0x0b];
    let f = decode(99, 100, body).unwrap();
    // Operators: loop@101, br@103, end@105, end@106.
    let br = f.op_at(103).unwrap();
    // The branch resolves to the loop's own start offset.
    match &br.target {
        Some(BranchTarget::Unconditional(a)) => assert_eq!(*a, 101),
        other => panic!("unexpected target: {other:?}"),
    }
}

#[test]
fn if_without_else_edges() {
    // if; end; end
    let body = vec![0x00u8, 0x04, 0x40, 0x0b, 0x0b];
    let f = decode(99, 100, body).unwrap();
    // Operators: if@101 (2 bytes), end@103 (if), end@104 (function).
    let ifop = f.op_at(101).unwrap();
    match &ifop.target {
        Some(BranchTarget::Conditional { true_target, false_target }) => {
            // The false edge equals the address just past the matching end,
            // and both edges land at or before it.
            assert_eq!(*false_target, 104);
            assert_eq!(*true_target, 103);
            assert!(*true_target <= 104);
        },
        other => panic!("unexpected target: {other:?}"),
    }
}

#[test]
fn if_with_else_edges() {
    // if; else; end; end
    let body = vec![0x00u8, 0x04, 0x40, 0x05, 0x0b, 0x0b];
    let f = decode(99, 100, body).unwrap();
    // Operators: if@101 (2), else@103 (1), end@104 (if), end@105 (function).
    let ifop = f.op_at(101).unwrap();
    match &ifop.target {
        Some(BranchTarget::Conditional { true_target, false_target }) => {
            assert_eq!(*true_target, 103);
            // The if's false edge equals the else's own start of arm.
            assert_eq!(*false_target, 104);
        },
        other => panic!("unexpected target: {other:?}"),
    }
    // The else's own edge equals the block's address-after.
    let elseop = f.op_at(103).unwrap();
    assert!(matches!(elseop.op, Op::Else));
    match &elseop.target {
        Some(BranchTarget::Unconditional(a)) => assert_eq!(*a, 105),
        other => panic!("unexpected target: {other:?}"),
    }
}

#[test]
fn br_if_edges() {
    // block; br_if 0; end; end
    let body = vec![0x00u8, 0x02, 0x40, 0x0d, 0x00, 0x0b, 0x0b];
    let f = decode(99, 100, body).unwrap();
    // Operators: block@101, br_if@103 (2), end@105, end@106.
    let brif = f.op_at(103).unwrap();
    match &brif.target {
        Some(BranchTarget::Conditional { true_target, false_target }) => {
            assert_eq!(*true_target, 106);
            assert_eq!(*false_target, 105);
        },
        other => panic!("unexpected target: {other:?}"),
    }
}

#[test]
fn br_table_edges() {
    // block; loop; br_table [0, 1] default 1; end; end; end
    let body = vec![
        0x00u8, 0x02, 0x40, 0x03, 0x40, 0x0e, 0x02, 0x00, 0x01, 0x01, 0x0b, 0x0b, 0x0b,
    ];
    let f = decode(99, 100, body).unwrap();
    // Operators: block@101, loop@103, br_table@105 (5 bytes), end@110 (loop),
    // end@111 (block), end@112 (function).
    let bt = f.op_at(105).unwrap();
    assert!(matches!(bt.op, Op::BrTable { .. }));
    match &bt.target {
        Some(BranchTarget::Table { targets, default_target }) => {
            // Depth 0 is the loop (back edge to 103); depth 1 is the block
            // (just past its end at 111+1 = 112).
            assert_eq!(targets, &vec![103, 112]);
            assert_eq!(*default_target, 112);
        },
        other => panic!("unexpected target: {other:?}"),
    }
}

#[test]
fn sizes_sum_to_end() {
    let body = vec![
        0x00u8, 0x02, 0x40, 0x03, 0x40, 0x0e, 0x02, 0x00, 0x01, 0x01, 0x0b, 0x0b, 0x0b,
    ];
    let f = decode(99, 100, body).unwrap();
    let total: u64 = f.ops.iter().map(|o| o.size as u64).sum();
    assert_eq!(f.ops_start + total, f.end);
}

#[test]
fn ranges_tile_without_gaps() {
    let body = vec![0x00u8, 0x02, 0x40, 0x41, 0x01, 0x0c, 0x00, 0x0b, 0x0b];
    let f = decode(99, 100, body).unwrap();
    // The two structural pseudo-ranges, then the operator ranges, tile
    // [size_start, end) exactly.
    let mut cursor = f.size_start;
    assert!(cursor < f.locals_start);
    cursor = f.locals_start;
    assert!(cursor <= f.ops_start);
    cursor = f.ops_start;
    for o in f.ops.iter() {
        assert_eq!(o.offset, cursor);
        assert!(o.size >= 1);
        cursor += o.size as u64;
    }
    assert_eq!(cursor, f.end);
}

#[test]
fn depth_overflow_rejected() {
    // br 5 with only the function scope open.
    let body = vec![0x00u8, 0x0c, 0x05, 0x0b];
    assert_eq!(decode(99, 100, body).unwrap_err(), FuncError::BadDepth);
}

#[test]
fn misplaced_else_rejected() {
    // else with no if anywhere.
    let body = vec![0x00u8, 0x05, 0x0b];
    assert!(decode(99, 100, body).is_err());
}

#[test]
fn malformed_operator_rejected() {
    // 0xff is no opcode at all.
    let body = vec![0x00u8, 0xff, 0x0b];
    assert_eq!(decode(99, 100, body).unwrap_err(), FuncError::MalformedBody);
}

#[test]
fn trailing_operators_after_final_end_rejected() {
    // The function-level end closes the last scope; a nop after it is
    // outside every scope.
    let body = vec![0x00u8, 0x0b, 0x01];
    assert!(decode(99, 100, body).is_err());
}

#[test]
fn unclosed_scope_with_branch_rejected() {
    // block; br 0 — the stream ends before the block's end, so the branch's
    // label never resolves.
    let body = vec![0x00u8, 0x02, 0x40, 0x0c, 0x00];
    assert_eq!(decode(99, 100, body).unwrap_err(), FuncError::UnresolvedLabel);
}

#[test]
fn unclosed_scope_without_branch_is_accepted() {
    // block with no end and nothing referring to it: every recorded label
    // resolves, so the function decodes.
    let body = vec![0x00u8, 0x02, 0x40, 0x01];
    let f = decode(99, 100, body).unwrap();
    assert_eq!(f.ops.len(), 2);
}

#[test]
fn malformed_locals_rejected() {
    let body = vec![0x80u8];
    assert_eq!(decode(99, 100, body).unwrap_err(), FuncError::MalformedLocals);
}

#[test]
fn locals_are_skipped() {
    // One locals group: 2 locals of type i32 (0x7f); then nop; end.
    let body = vec![0x01u8, 0x02, 0x7f, 0x01, 0x0b];
    let f = decode(99, 100, body).unwrap();
    assert_eq!(f.ops_start, 103);
    assert!(matches!(f.op_at(103).unwrap().op, Op::Nop));
}

#[test]
fn non_boundary_address_is_no_instruction() {
    let body = vec![0x00u8, 0x02, 0x40, 0x41, 0x01, 0x0c, 0x00, 0x0b, 0x0b];
    let f = decode(99, 100, body).unwrap();
    // 102 is inside the block operator, not a boundary.
    assert!(f.op_at(102).is_none());
    assert!(f.op_at(200).is_none());
}

use wasm_decode::insn_info::{header_info, instruction_info, Edge};
use wasm_decode::module_data::ModuleData;
use wasm_decode::module_parse::{code_entries, load_functions, EntryData};

// Two functions at base 0x200 behind 3 function-typed imports:
//   function 3: block; i32.const 1; br 0; end; end
//   function 4: unreachable; return; call 3; call 4; call 9; call_indirect; end
fn sample_module() -> ModuleData {
    let body_a = vec![0x00u8, 0x02, 0x40, 0x41, 0x01, 0x0c, 0x00, 0x0b, 0x0b];
    let body_b = vec![
        0x00u8, 0x00, 0x0f, 0x10, 0x03, 0x10, 0x04, 0x10, 0x09, 0x11, 0x00, 0x00, 0x0b,
    ];
    let mut sec = vec![0x02u8, body_a.len() as u8];
    sec.extend_from_slice(&body_a);
    sec.push(body_b.len() as u8);
    sec.extend_from_slice(&body_b);
    let entries = code_entries(&sec, 0x200).unwrap();
    let mut md = ModuleData::new();
    let inputs: Vec<EntryData> = entries
        .iter()
        .zip([body_a, body_b])
        .map(|(e, body)| EntryData { entry: *e, executable: true, body })
        .collect();
    load_functions(&mut md, inputs, 3).unwrap();
    md
}

#[test]
fn pseudo_instructions_have_no_edges() {
    let md = sample_module();
    // Function 3's size field at 0x201, one byte; locals vector at 0x202.
    let s = instruction_info(&md, 0x201).unwrap();
    assert_eq!(s.length, 1);
    assert!(s.edges.is_empty());
    let s = instruction_info(&md, 0x202).unwrap();
    assert_eq!(s.length, 1);
    assert!(s.edges.is_empty());
    assert_eq!(header_info(&md, 0x201), Some((1, false)));
    assert_eq!(header_info(&md, 0x202), Some((1, false)));
    // A real operator answers the lifting query with nothing.
    assert_eq!(header_info(&md, 0x203), None);
    assert_eq!(header_info(&md, 0x300), None);
}

#[test]
fn unconditional_branch_edge() {
    let md = sample_module();
    // br 0 at 0x207 resolves past the block's end at 0x20a.
    let s = instruction_info(&md, 0x207).unwrap();
    assert_eq!(s.length, 2);
    assert_eq!(s.edges, vec![Edge::Unconditional(0x20a)]);
}

#[test]
fn function_end_is_return_edge() {
    let md = sample_module();
    let s = instruction_info(&md, 0x20a).unwrap();
    assert_eq!(s.edges, vec![Edge::FunctionReturn]);
}

#[test]
fn unreachable_return_and_call_edges() {
    let md = sample_module();
    // Function 4's operators start at 0x20d: unreachable@20d, return@20e,
    // call 3@20f, call 4@211, call 9@213, call_indirect@215 (3 bytes),
    // end@218.
    let s = instruction_info(&md, 0x20d).unwrap();
    assert_eq!(s.edges, vec![Edge::Exception]);
    let s = instruction_info(&md, 0x20e).unwrap();
    assert_eq!(s.edges, vec![Edge::FunctionReturn]);
    // A call resolves through the function-address list by declared index.
    let s = instruction_info(&md, 0x20f).unwrap();
    assert_eq!(s.edges, vec![Edge::Call(0x201)]);
    let s = instruction_info(&md, 0x211).unwrap();
    assert_eq!(s.edges, vec![Edge::Call(0x20b)]);
    // A call whose index names no decoded function carries no edge.
    let s = instruction_info(&md, 0x213).unwrap();
    assert!(s.edges.is_empty());
    // call_indirect deliberately carries no edge.
    let s = instruction_info(&md, 0x215).unwrap();
    assert_eq!(s.length, 3);
    assert!(s.edges.is_empty());
}

#[test]
fn conditional_branch_edges() {
    // if; else; end; end — true edge into the arm, false edge to else_start.
    let body = vec![0x00u8, 0x04, 0x40, 0x05, 0x0b, 0x0b];
    let mut sec = vec![0x01u8, body.len() as u8];
    sec.extend_from_slice(&body);
    let entries = code_entries(&sec, 0x100).unwrap();
    let mut md = ModuleData::new();
    let inputs = vec![EntryData { entry: entries[0], executable: true, body }];
    load_functions(&mut md, inputs, 0).unwrap();
    // if at 0x103 (locals at 0x102, one byte).
    let s = instruction_info(&md, 0x103).unwrap();
    assert_eq!(s.edges, vec![Edge::TrueBranch(0x105), Edge::FalseBranch(0x106)]);
}

#[test]
fn br_table_collapses_to_indirect() {
    // block; br_table [0] default 0; end; end
    let body = vec![0x00u8, 0x02, 0x40, 0x0e, 0x01, 0x00, 0x00, 0x0b, 0x0b];
    let mut sec = vec![0x01u8, body.len() as u8];
    sec.extend_from_slice(&body);
    let entries = code_entries(&sec, 0x100).unwrap();
    let mut md = ModuleData::new();
    let inputs = vec![EntryData { entry: entries[0], executable: true, body }];
    load_functions(&mut md, inputs, 0).unwrap();
    // br_table at 0x105.
    let s = instruction_info(&md, 0x105).unwrap();
    assert_eq!(s.edges, vec![Edge::Indirect]);
}

#[test]
fn addresses_outside_any_function() {
    let md = sample_module();
    assert!(instruction_info(&md, 0x1ff).is_none());
    assert!(instruction_info(&md, 0x219).is_none());
    // Inside a function but not on an operator boundary.
    assert!(instruction_info(&md, 0x204).is_none());
}

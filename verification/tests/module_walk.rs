use wasm_decode::module_data::{ModuleData, Registry};
use wasm_decode::module_parse::{
    code_entries, count_func_imports, covered_by, export_name, is_wasm_header, load_functions,
    CodeEntry, EntryData, ExportEntry, ModuleError,
};
use wasm_decode::wasm_read::{read_func_exports, read_import_func_flags};

// block; i32.const 1; br 0; end; end  (9 bytes with its empty locals vector)
fn body_a() -> Vec<u8> {
    vec![0x00, 0x02, 0x40, 0x41, 0x01, 0x0c, 0x00, 0x0b, 0x0b]
}

// loop; br 0; end; end  (7 bytes)
fn body_b() -> Vec<u8> {
    vec![0x00, 0x03, 0x40, 0x0c, 0x00, 0x0b, 0x0b]
}

fn code_section_two_entries() -> Vec<u8> {
    let mut sec = vec![0x02u8, 0x09];
    sec.extend_from_slice(&body_a());
    sec.push(0x07);
    sec.extend_from_slice(&body_b());
    sec
}

#[test]
fn code_entry_boundaries() {
    let sec = code_section_two_entries();
    let entries = code_entries(&sec, 0x200).unwrap();
    assert_eq!(
        entries,
        vec![
            CodeEntry { size_start: 0x201, locals_start: 0x202, end: 0x20b },
            CodeEntry { size_start: 0x20b, locals_start: 0x20c, end: 0x213 },
        ]
    );
}

#[test]
fn code_boundary_mismatch_is_fatal() {
    let mut sec = code_section_two_entries();
    sec.push(0x00);
    assert_eq!(code_entries(&sec, 0x200), Err(ModuleError::CodeBoundaryMismatch));
}

#[test]
fn code_entry_overrunning_section_is_fatal() {
    // One entry claiming 100 body bytes inside a 3-byte section.
    let sec = vec![0x01u8, 0x64, 0x0b];
    assert_eq!(code_entries(&sec, 0), Err(ModuleError::MalformedCode));
}

#[test]
fn malformed_count_is_fatal() {
    let sec = vec![0x80u8];
    assert_eq!(code_entries(&sec, 0), Err(ModuleError::MalformedCode));
}

#[test]
fn function_address_list_after_imports() {
    // A code section with 2 entries and 3 preceding function-typed imports:
    // the list has length 2, in declaration order, under declared indices 3
    // and 4.
    let sec = code_section_two_entries();
    let entries = code_entries(&sec, 0x200).unwrap();
    let mut md = ModuleData::new();
    let inputs: Vec<EntryData> = entries
        .iter()
        .zip([body_a(), body_b()])
        .map(|(e, body)| EntryData { entry: *e, executable: true, body })
        .collect();
    load_functions(&mut md, inputs, 3).unwrap();
    assert_eq!(md.func_addrs, vec![(3, 0x201), (4, 0x20b)]);
    assert_eq!(md.call_target(3), Some(0x201));
    assert_eq!(md.call_target(4), Some(0x20b));
    assert_eq!(md.call_target(0), None);
    assert_eq!(md.call_target(5), None);
}

#[test]
fn non_executable_entry_skipped_but_counted() {
    let sec = code_section_two_entries();
    let entries = code_entries(&sec, 0x200).unwrap();
    let mut md = ModuleData::new();
    let inputs = vec![
        EntryData { entry: entries[0], executable: false, body: body_a() },
        EntryData { entry: entries[1], executable: true, body: body_b() },
    ];
    load_functions(&mut md, inputs, 3).unwrap();
    // The skipped entry is excluded, but the index counter advanced past it.
    assert_eq!(md.func_addrs, vec![(4, 0x20b)]);
    assert_eq!(md.call_target(3), None);
    assert_eq!(md.call_target(4), Some(0x20b));
    assert!(md.function_at(0x205).is_none());
    assert!(md.function_at(0x20c).is_some());
}

#[test]
fn truncated_body_aborts_load() {
    let sec = code_section_two_entries();
    let entries = code_entries(&sec, 0x200).unwrap();
    let mut short = body_a();
    short.pop();
    let inputs = vec![EntryData { entry: entries[0], executable: true, body: short }];
    let mut md = ModuleData::new();
    assert_eq!(load_functions(&mut md, inputs, 0), Err(ModuleError::TruncatedRead));
}

#[test]
fn undecodable_body_skips_only_that_function() {
    let entries = vec![
        CodeEntry { size_start: 0x201, locals_start: 0x202, end: 0x205 },
        CodeEntry { size_start: 0x205, locals_start: 0x206, end: 0x20d },
    ];
    let inputs = vec![
        EntryData { entry: entries[0], executable: true, body: vec![0x00, 0x0c, 0x09] },
        EntryData { entry: entries[1], executable: true, body: body_b() },
    ];
    let mut md = ModuleData::new();
    load_functions(&mut md, inputs, 0).unwrap();
    assert_eq!(md.func_addrs, vec![(1, 0x205)]);
}

#[test]
fn import_section_counting() {
    // Two imports: ("m", "f") of function type 0, ("m", "g") a memory.
    let sec = vec![
        0x02u8, // two imports
        0x01, b'm', 0x01, b'f', 0x00, 0x00, // func, type index 0
        0x01, b'm', 0x01, b'g', 0x02, 0x00, 0x01, // memory, limits {min: 1}
    ];
    let flags = read_import_func_flags(&sec).unwrap();
    assert_eq!(flags, vec![true, false]);
    assert_eq!(count_func_imports(&flags), 1);
}

#[test]
fn malformed_import_section() {
    let sec = vec![0x01u8, 0xff];
    assert_eq!(read_import_func_flags(&sec), Err(ModuleError::MalformedImports));
}

#[test]
fn malformed_export_section_is_not_fatal() {
    // A malformed entry ends the export walk; the load goes on with the
    // names gathered so far.
    let sec = vec![0x01u8, 0xff];
    assert!(read_func_exports(&sec).is_empty());
    // A well-formed prefix before a malformed entry is kept.
    let sec = vec![
        0x02u8, // two exports declared
        0x01, b'f', 0x00, 0x03, // func index 3
        0xff, // malformed second entry
    ];
    let exports = read_func_exports(&sec);
    assert_eq!(exports.len(), 1);
    assert_eq!(exports[0].func_index, 3);
}

#[test]
fn export_section_names() {
    // Three exports: "f" names function 3, "m" names a memory, and a second
    // "g" renames function 3 (the later entry wins).
    let sec = vec![
        0x03u8, // three exports
        0x01, b'f', 0x00, 0x03, // func index 3
        0x01, b'm', 0x02, 0x00, // memory index 0
        0x01, b'g', 0x00, 0x03, // func index 3 again
    ];
    let exports = read_func_exports(&sec);
    assert_eq!(exports.len(), 2);
    assert_eq!(exports[0].func_index, 3);
    assert_eq!(exports[0].name, "f");
    assert_eq!(export_name(&exports, 3).map(String::as_str), Some("g"));
    assert_eq!(export_name(&exports, 0), None);
}

#[test]
fn second_open_fails_and_keeps_resident_index() {
    let sec = code_section_two_entries();
    let entries = code_entries(&sec, 0x200).unwrap();
    let mut md = ModuleData::new();
    let inputs: Vec<EntryData> = entries
        .iter()
        .zip([body_a(), body_b()])
        .map(|(e, body)| EntryData { entry: *e, executable: true, body })
        .collect();
    load_functions(&mut md, inputs, 3).unwrap();

    let mut reg = Registry::new();
    reg.open(md).unwrap();

    let second = ModuleData::new();
    assert!(matches!(reg.open(second), Err(ModuleError::AlreadyResident)));

    // The resident module's index is untouched.
    let resident = reg.module().unwrap();
    assert_eq!(resident.func_addrs, vec![(3, 0x201), (4, 0x20b)]);
    assert!(resident.function_at(0x202).is_some());

    reg.close();
    assert!(reg.module().is_none());
}

#[test]
fn header_sniff() {
    assert!(is_wasm_header(&vec![0x00, 0x61, 0x73, 0x6d, 0x01, 0x00, 0x00, 0x00]));
    assert!(!is_wasm_header(&vec![0x00, 0x61, 0x73, 0x6d, 0x02, 0x00, 0x00, 0x00]));
    assert!(!is_wasm_header(&vec![0x00, 0x61, 0x73]));
    assert!(!is_wasm_header(&vec![0x00, 0x61, 0x73, 0x6d, 0x01, 0x00, 0x00, 0x00, 0x00]));
}

#[test]
fn executable_range_containment() {
    let ranges: Vec<(u64, u64)> = vec![(0x100, 0x200), (0x300, 0x400)];
    assert!(covered_by(&ranges, 0x100, 0x200));
    assert!(covered_by(&ranges, 0x350, 0x360));
    assert!(!covered_by(&ranges, 0x1f0, 0x210));
    assert!(!covered_by(&ranges, 0x250, 0x260));
    assert!(!covered_by(&Vec::new(), 0x100, 0x101));
}

#[test]
fn empty_export_entry_list() {
    let exports: Vec<ExportEntry> = Vec::new();
    assert_eq!(export_name(&exports, 0), None);
}

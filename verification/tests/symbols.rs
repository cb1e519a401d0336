//! Symbol-table parsing from raw `.symtab` / `.strtab` bytes.

use rv64_emu::elf_reader::{read_symbols_list, symbol_addr, Symbol};

/// One 24-byte RV64 ELF symbol entry.
fn entry(name_offset: u32, value: u64) -> Vec<u8> {
    let mut e = Vec::new();
    e.extend_from_slice(&name_offset.to_le_bytes());
    e.push(0); // info
    e.push(0); // other
    e.extend_from_slice(&0u16.to_le_bytes()); // shndx
    e.extend_from_slice(&value.to_le_bytes());
    e.extend_from_slice(&0u64.to_le_bytes()); // size
    e
}

#[test]
fn read_symbol_decodes_all_fields() {
    let mut raw = Vec::new();
    raw.extend_from_slice(&7u32.to_le_bytes());
    raw.push(0x12);
    raw.push(0x34);
    raw.extend_from_slice(&0xBEEFu16.to_le_bytes());
    raw.extend_from_slice(&0x1122_3344_5566_7788u64.to_le_bytes());
    raw.extend_from_slice(&24u64.to_le_bytes());
    let s = Symbol::read_symbol(&raw);
    assert_eq!(s.name, 7);
    assert_eq!(s.info, 0x12);
    assert_eq!(s.other, 0x34);
    assert_eq!(s.shndx, 0xBEEF);
    assert_eq!(s.value, 0x1122_3344_5566_7788);
    assert_eq!(s.size, 24);
}

#[test]
fn symbols_resolve_against_the_string_table() {
    let strtab = b"\0main\0exit\0".to_vec();
    let mut symtab = entry(1, 0x4000);
    symtab.extend_from_slice(&entry(6, 0x5000));
    let list = read_symbols_list(&symtab, &strtab);
    assert_eq!(list.len(), 2);
    assert_eq!(list[0].name, b"main".to_vec());
    assert_eq!(list[0].addr, 0x4000);
    assert_eq!(list[1].name, b"exit".to_vec());
    assert_eq!(list[1].addr, 0x5000);

    assert_eq!(symbol_addr(&list, b"main"), Some(0x4000));
    assert_eq!(symbol_addr(&list, b"exit"), Some(0x5000));
    assert_eq!(symbol_addr(&list, b"pass"), None);
    assert_eq!(symbol_addr(&list, b"mai"), None);
}

#[test]
fn later_entries_shadow_earlier_ones() {
    let strtab = b"\0main\0".to_vec();
    let mut symtab = entry(1, 0x4000);
    symtab.extend_from_slice(&entry(1, 0x7000));
    let list = read_symbols_list(&symtab, &strtab);
    assert_eq!(symbol_addr(&list, b"main"), Some(0x7000));
}

#[test]
fn bad_entries_are_skipped() {
    let strtab = b"\0abc\0".to_vec();
    // Name offset beyond the string table: skipped.
    let mut symtab = entry(99, 0x4000);
    // Name with no terminating NUL reachable: offset points at the
    // table's end.
    symtab.extend_from_slice(&entry(5, 0x5000));
    // A good entry.
    symtab.extend_from_slice(&entry(1, 0x6000));
    // A trailing fragment shorter than one entry: ignored.
    symtab.extend_from_slice(&[1, 2, 3]);
    let list = read_symbols_list(&symtab, &strtab);
    assert_eq!(list.len(), 1);
    assert_eq!(list[0].name, b"abc".to_vec());
    assert_eq!(list[0].addr, 0x6000);
}

#[test]
fn empty_tables_yield_no_symbols() {
    let list = read_symbols_list(&[], &[]);
    assert!(list.is_empty());
    assert_eq!(symbol_addr(&list, b"main"), None);
}

//! Symbol-table parsing for the ELF loader.
//!
//! The host opens the ELF file and hands over the raw bytes of the
//! `.symtab` and `.strtab` sections; everything here is plain
//! byte-level parsing.  A symbol entry is 24 bytes in the RV64 ELF
//! layout — `{name_offset:u32, info:u8, other:u8, shndx:u16,
//! value:u64, size:u64}`, little-endian — and symbol names are
//! NUL-terminated byte strings in the string table.

use vstd::prelude::*;
use vstd::slice::slice_subrange;
use vstd::slice::slice_to_vec;

use crate::cpu::le16;
use crate::cpu::le32;
use crate::cpu::le64;

verus! {

/// One entry of `.symtab`, as laid out in the file.
#[derive(Debug, Clone, Copy, PartialEq, Eq, Structural)]
pub struct Symbol {
    pub name: u32,
    pub info: u8,
    pub other: u8,
    pub shndx: u16,
    pub value: u64,
    pub size: u64,
}

/// The symbol encoded by 24 little-endian bytes.
pub open spec fn spec_read_symbol(data: Seq<u8>) -> Symbol {
    Symbol {
        name: le32(data.subrange(0, 4)),
        info: data[4],
        other: data[5],
        shndx: le16(data.subrange(6, 8)) as u16,
        value: le64(data.subrange(8, 16)),
        size: le64(data.subrange(16, 24)),
    }
}

impl Symbol {
    /// Decode one 24-byte symbol entry.
    pub fn read_symbol(data: &[u8]) -> (s: Symbol)
        requires
            data@.len() >= 24,
        ensures
            s == spec_read_symbol(data@.subrange(0, 24)),
    {
        let s = Symbol {
            name: (data[0] as u32) | ((data[1] as u32) << 8) | ((data[2] as u32) << 16) | ((
            data[3] as u32) << 24),
            info: data[4],
            other: data[5],
            shndx: (data[6] as u16) | ((data[7] as u16) << 8),
            value: (data[8] as u64) | ((data[9] as u64) << 8) | ((data[10] as u64) << 16) | ((
            data[11] as u64) << 24) | ((data[12] as u64) << 32) | ((data[13] as u64) << 40) | ((
            data[14] as u64) << 48) | ((data[15] as u64) << 56),
            size: (data[16] as u64) | ((data[17] as u64) << 8) | ((data[18] as u64) << 16) | ((
            data[19] as u64) << 24) | ((data[20] as u64) << 32) | ((data[21] as u64) << 40) | ((
            data[22] as u64) << 48) | ((data[23] as u64) << 56),
        };
        proof {
            let d = data@.subrange(0, 24);
            assert(d.subrange(0, 4) =~= data@.subrange(0, 4));
            assert(d.subrange(6, 8) =~= data@.subrange(6, 8));
            assert(d.subrange(8, 16) =~= data@.subrange(8, 16));
            assert(d.subrange(16, 24) =~= data@.subrange(16, 24));
            lemma_le16_fits(data@[6], data@[7]);
        }
        s
    }
}

/// Two little-endian bytes assemble below 2^16, so the `u16` cast is
/// exact.
proof fn lemma_le16_fits(b0: u8, b1: u8)
    by (bit_vector)
    ensures
        ((b0 as u64) | ((b1 as u64) << 8)) < 0x10000,
        ((b0 as u16) | ((b1 as u16) << 8)) as u64 == ((b0 as u64) | ((b1 as u64) << 8)),
{
}

/// The position of the first NUL at or after `off`, or the table's
/// length when there is none.
pub open spec fn first_nul(strtab: Seq<u8>, off: int) -> int
    decreases strtab.len() - off when 0 <= off <= strtab.len()
{
    if off >= strtab.len() {
        strtab.len() as int
    } else if strtab[off] == 0 {
        off
    } else {
        first_nul(strtab, off + 1)
    }
}

/// The NUL-terminated name starting at `off` in the string table, or
/// nothing when `off` is out of range or no NUL follows.
pub open spec fn symbol_name(strtab: Seq<u8>, off: int) -> Option<Seq<u8>> {
    if 0 <= off <= strtab.len() && first_nul(strtab, off) < strtab.len() {
        Option::Some(strtab.subrange(off, first_nul(strtab, off)))
    } else {
        Option::None
    }
}

/// A run of non-NUL bytes ending at a NUL (or at the table's end)
/// pins down `first_nul`.
proof fn lemma_first_nul_at(strtab: Seq<u8>, off: int, e: int)
    requires
        0 <= off <= e <= strtab.len(),
        forall|t: int| off <= t < e ==> strtab[t] != 0,
        e == strtab.len() || strtab[e] == 0,
    ensures
        first_nul(strtab, off) == e,
    decreases e - off,
{
    if off < e {
        lemma_first_nul_at(strtab, off + 1, e);
    }
}

/// The symbol list read from the two tables: one `(name, address)`
/// pair per 24-byte entry whose name can be resolved; entries with an
/// unresolvable name are skipped, as is a trailing fragment shorter
/// than one entry.
pub open spec fn parse_symbols(symtab: Seq<u8>, strtab: Seq<u8>) -> Seq<(Seq<u8>, u64)>
    decreases symtab.len(),
{
    if symtab.len() < 24 {
        Seq::empty()
    } else {
        let s = spec_read_symbol(symtab.subrange(0, 24));
        let rest = parse_symbols(symtab.skip(24), strtab);
        match symbol_name(strtab, s.name as int) {
            Option::Some(nm) => seq![(nm, s.value)] + rest,
            Option::None => rest,
        }
    }
}

/// One parsed symbol: its name bytes and its virtual address.
#[derive(Debug)]
pub struct SymbolEntry {
    pub name: Vec<u8>,
    pub addr: u64,
}

impl View for SymbolEntry {
    type V = (Seq<u8>, u64);

    open spec fn view(&self) -> (Seq<u8>, u64) {
        (self.name@, self.addr)
    }
}

/// Read the whole symbol list from the raw bytes of `.symtab` and
/// `.strtab`.
pub fn read_symbols_list(symtab: &[u8], strtab: &[u8]) -> (r: Vec<SymbolEntry>)
    ensures
        r@.map_values(|e: SymbolEntry| e@) == parse_symbols(symtab@, strtab@),
{
    let n = symtab.len();
    let m = strtab.len();
    let mut out: Vec<SymbolEntry> = Vec::new();
    let mut i: usize = 0;
    proof {
        assert(symtab@.skip(0) =~= symtab@);
        assert(out@.map_values(|e: SymbolEntry| e@) + parse_symbols(symtab@, strtab@)
            =~= parse_symbols(symtab@, strtab@));
    }
    while n >= 24 && i <= n - 24
        invariant
            n == symtab@.len(),
            m == strtab@.len(),
            i <= n,
            parse_symbols(symtab@, strtab@) == out@.map_values(|e: SymbolEntry| e@)
                + parse_symbols(symtab@.skip(i as int), strtab@),
        decreases n - i,
    {
        let entry = slice_subrange(symtab, i, i + 24);
        let s = Symbol::read_symbol(entry);
        let ghost tail = symtab@.skip(i as int);
        let ghost prev = out@.map_values(|e: SymbolEntry| e@);
        proof {
            assert(entry@.subrange(0, 24) =~= tail.subrange(0, 24));
            assert(tail.skip(24) =~= symtab@.skip(i + 24));
        }
        let off = s.name as usize;
        if off <= m {
            let mut e: usize = off;
            while e < m && strtab[e] != 0
                invariant
                    off <= e <= m,
                    m == strtab@.len(),
                    forall|t: int| off <= t < e ==> strtab@[t] != 0,
                decreases m - e,
            {
                e += 1;
            }
            proof {
                lemma_first_nul_at(strtab@, off as int, e as int);
            }
            if e < m {
                let name = slice_to_vec(slice_subrange(strtab, off, e));
                out.push(SymbolEntry { name, addr: s.value });
                proof {
                    assert(symbol_name(strtab@, off as int) == Option::Some(
                        strtab@.subrange(off as int, e as int),
                    ));
                    assert(out@.map_values(|en: SymbolEntry| en@) =~= prev + seq![
                        (strtab@.subrange(off as int, e as int), s.value),
                    ]);
                }
            }
        }
        proof {
            assert(parse_symbols(symtab@, strtab@) =~= out@.map_values(|e: SymbolEntry| e@)
                + parse_symbols(symtab@.skip(i + 24), strtab@));
        }
        i += 24;
    }
    proof {
        assert(symtab@.skip(i as int).len() < 24);
        assert(parse_symbols(symtab@.skip(i as int), strtab@) =~= Seq::<(Seq<u8>, u64)>::empty());
        assert(out@.map_values(|e: SymbolEntry| e@) + Seq::<(Seq<u8>, u64)>::empty()
            =~= out@.map_values(|e: SymbolEntry| e@));
    }
    out
}

/// The address of `name` in the symbol list — the last entry wins, as
/// it would when inserting into a map in order.
pub open spec fn spec_symbol_addr(entries: Seq<(Seq<u8>, u64)>, name: Seq<u8>) -> Option<u64>
    decreases entries.len(),
{
    if entries.len() == 0 {
        Option::None
    } else if entries.last().0 == name {
        Option::Some(entries.last().1)
    } else {
        spec_symbol_addr(entries.drop_last(), name)
    }
}

/// Whether two byte strings hold the same bytes.
fn bytes_eq(a: &[u8], b: &[u8]) -> (r: bool)
    ensures
        r == (a@ == b@),
{
    if a.len() != b.len() {
        proof {
            assert(a@.len() != b@.len());
        }
        return false;
    }
    let n = a.len();
    let mut k: usize = 0;
    while k < n
        invariant
            k <= n,
            n == a@.len(),
            n == b@.len(),
            forall|t: int| 0 <= t < k ==> a@[t] == b@[t],
        decreases n - k,
    {
        if a[k] != b[k] {
            return false;
        }
        k += 1;
    }
    proof {
        assert(a@ =~= b@);
    }
    true
}

/// Look a symbol up by name; the latest entry with that name wins.
pub fn symbol_addr(symbols: &Vec<SymbolEntry>, name: &[u8]) -> (r: Option<u64>)
    ensures
        r == spec_symbol_addr(symbols@.map_values(|e: SymbolEntry| e@), name@),
{
    let ghost full = symbols@.map_values(|e: SymbolEntry| e@);
    let mut i: usize = symbols.len();
    proof {
        assert(full.take(i as int) =~= full);
    }
    while i > 0
        invariant
            i <= symbols@.len(),
            full == symbols@.map_values(|e: SymbolEntry| e@),
            spec_symbol_addr(full, name@) == spec_symbol_addr(
                full.take(i as int),
                name@,
            ),
        decreases i,
    {
        i -= 1;
        let entry = &symbols[i];
        if bytes_eq(entry.name.as_slice(), name) {
            proof {
                assert(full.take(i + 1).last() == (entry.name@, entry.addr));
            }
            return Option::Some(entry.addr);
        }
        proof {
            assert(full.take(i + 1).last() == symbols@[i as int]@);
            assert(full.take(i + 1).drop_last() =~= full.take(i as int));
        }
    }
    proof {
        assert(full.take(0) =~= Seq::<(Seq<u8>, u64)>::empty());
    }
    Option::None
}

} // verus!

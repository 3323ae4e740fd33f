//! Symbol names for the addresses that the firmware reports as task and executor ids.
use object::{Object, ObjectSymbol};
use std::collections::HashMap;
use vstd::prelude::*;

use crate::text::{chars_of, find_chars, find_seq};

verus! {

broadcast use vstd::std_specs::hash::group_hash_axioms;

#[verifier::external_type_specification]
#[verifier::external_body]
pub struct ExObjectError(object::Error);

/// The symbols (address and, where readable, name) of the object file `data`, in the
/// order its symbol table lists them.
pub uninterp spec fn elf_symbols_of(data: Seq<u8>) -> Seq<(u64, Option<Seq<char>>)>;

/// Whether `data` is an object file that can be parsed.
pub uninterp spec fn object_parses(data: Seq<u8>) -> bool;

/// The demangled form of a Rust symbol name.
pub uninterp spec fn demangled(name: Seq<char>) -> Seq<char>;

pub open spec fn symbols_view(v: Seq<(u64, Option<String>)>) -> Seq<(u64, Option<Seq<char>>)> {
    v.map_values(
        |p: (u64, Option<String>)|
            (
                p.0,
                match p.1 {
                    Some(s) => Some(s@),
                    None => None,
                },
            ),
    )
}

/// Relies on `object::File::parse` and `Object::symbols`: parses the object file (success
/// depends on the bytes alone) and lists each symbol's address and name (`None` where the
/// name is not readable).
#[verifier::external_body]
fn read_symbols(data: &[u8]) -> (r: Result<Vec<(u64, Option<String>)>, object::Error>)
    ensures
        r is Ok <==> object_parses(data@),
        r matches Ok(v) ==> symbols_view(v@) == elf_symbols_of(data@),
{
    let file = object::File::parse(data)?;
    Ok(file.symbols().map(|s| (s.address(), s.name().ok().map(|n| n.to_string()))).collect())
}

/// Relies on `rustc_demangle::demangle`, displayed: the demangled symbol name.
#[verifier::external_body]
fn demangle_name(name: &str) -> (r: String)
    ensures
        r@ == demangled(name@),
{
    rustc_demangle::demangle(name).to_string()
}

/// Address to demangled name, over `symbols` in order (a later symbol at the same address
/// replaces an earlier one); address zero and empty names are skipped.
pub open spec fn addr_map_of(symbols: Seq<(u64, Option<Seq<char>>)>) -> Map<u64, Seq<char>>
    decreases symbols.len(),
{
    if symbols.len() == 0 {
        Map::empty()
    } else {
        let prev = addr_map_of(symbols.drop_last());
        let (addr, name) = symbols.last();
        if addr != 0 && name is Some && name->0.len() > 0 {
            prev.insert(addr, demangled(name->0))
        } else {
            prev
        }
    }
}

/// `m` maps each address to the name that `expected` gives it.
pub open spec fn names_match(m: Map<u64, String>, expected: Map<u64, Seq<char>>) -> bool {
    &&& m.dom() == expected.dom()
    &&& forall|k: u64| #[trigger] m.contains_key(k) ==> m[k]@ == expected[k]
}

/// Builds the address-to-symbol map from a symbol list.
pub fn get_addr_map(symbols: &Vec<(u64, Option<String>)>) -> (r: HashMap<u64, String>)
    ensures
        names_match(r@, addr_map_of(symbols_view(symbols@))),
{
    let ghost sv = symbols_view(symbols@);
    let mut addr_map: HashMap<u64, String> = HashMap::new();
    let mut i: usize = 0;
    while i < symbols.len()
        invariant
            0 <= i <= symbols@.len(),
            sv == symbols_view(symbols@),
            names_match(addr_map@, addr_map_of(sv.take(i as int))),
        decreases symbols@.len() - i,
    {
        proof {
            assert(sv.take(i + 1).drop_last() =~= sv.take(i as int));
            assert(sv.take(i + 1).last() == sv[i as int]);
        }
        let addr = symbols[i].0;
        if addr != 0 {
            match &symbols[i].1 {
                Some(name) => {
                    if name.as_str().unicode_len() > 0 {
                        let demangled_name = demangle_name(name.as_str());
                        addr_map.insert(addr, demangled_name);
                    }
                },
                None => {},
            }
        }
        proof {
            let expected = addr_map_of(sv.take(i + 1));
            assert(addr_map@.dom() =~= expected.dom());
        }
        i = i + 1;
    }
    assert(sv.take(i as int) =~= sv);
    addr_map
}

/// Why a symbol table could not be read.
#[derive(Debug, Clone, Copy, PartialEq, Eq, Structural)]
pub enum SymbolTableError {
    /// The data is not an object file that can be parsed.
    Unparsable,
}

/// Reads the address-to-symbol map of the executable `data`.
pub fn read_addr_map(data: &[u8]) -> (r: Result<HashMap<u64, String>, SymbolTableError>)
    ensures
        r is Ok <==> object_parses(data@),
        r matches Ok(m) ==> names_match(m@, addr_map_of(elf_symbols_of(data@))),
{
    match read_symbols(data) {
        Ok(symbols) => Ok(get_addr_map(&symbols)),
        Err(_) => Err(SymbolTableError::Unparsable),
    }
}

/// Marker that ends the useful part of a task's symbol: what follows names its storage pool.
pub open spec fn pool_marker() -> Seq<char> {
    "::POOL"@
}

/// `full` cut at the first storage-pool marker, or whole if it has none.
pub open spec fn short_name(full: Seq<char>) -> Seq<char> {
    match find_seq(full, pool_marker()) {
        Some(i) => full.take(i),
        None => full,
    }
}

/// Extracts the short name from a full symbol name: everything before `::POOL`.
pub fn try_extract_short_name(full_name: &str) -> (r: &str)
    ensures
        r@ == short_name(full_name@),
{
    let chars = chars_of(full_name);
    let marker = chars_of("::POOL");
    match find_chars(&chars, &marker) {
        Some(i) => {
            let r = full_name.substring_char(0, i);
            assert(r@ =~= full_name@.take(i as int));
            r
        },
        None => full_name,
    }
}

} // verus!

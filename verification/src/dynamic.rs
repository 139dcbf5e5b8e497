//! The decisions of the module loader: whether a file name is a module,
//! which kind of module an ABI number names, and the loader's error texts.
//! The loader itself opens libraries and looks up their symbols.

use vstd::prelude::*;
use crate::text::{has_suffix, push_char, push_str, str_chars, ends_with};

verus! {

/// The ABI number of modules written in C++.
pub const MODULE_ABI: u64 = 4010;

/// The ABI number of modules written in Rust.
pub const RUST_MODULE_ABI: u64 = 4011;

/// The kind of module an ABI number names.
#[derive(PartialEq, Eq, Structural, Clone, Copy, Debug)]
pub enum AbiKind {
    /// A Rust module, initialised through its vtable.
    Rust,
    /// A C++ module of this server's ABI.
    Cpp,
    /// A module built for another ABI.
    Mismatch,
}

/// The kind of module an ABI number names.
pub fn classify_abi(abi: u64) -> (r: AbiKind)
    ensures
        r == (if abi == RUST_MODULE_ABI {
            AbiKind::Rust
        } else if abi != MODULE_ABI {
            AbiKind::Mismatch
        } else {
            AbiKind::Cpp
        }),
{
    if abi == RUST_MODULE_ABI {
        AbiKind::Rust
    } else if abi != MODULE_ABI {
        AbiKind::Mismatch
    } else {
        AbiKind::Cpp
    }
}

/// Whether a file name ends with the platform's library extension.
pub fn is_module_file_name(name: &str, extension: &str) -> (r: bool)
    ensures
        r == has_suffix(name@, extension@),
{
    ends_with(name, extension)
}

/// `name` followed by `tail`.
pub fn name_message(name: &str, tail: &str) -> (r: String)
    ensures
        r@ == name@ + tail@,
{
    let mut s = String::new();
    push_str(&mut s, name);
    push_str(&mut s, tail);
    proof {
        assert(Seq::<char>::empty() + name@ + tail@ =~= name@ + tail@);
    }
    s
}

/// The error for a file that lacks the library extension:
/// `<name> is not a module (no <extension> extension)`.
pub fn no_extension_message(name: &str, extension: &str) -> (r: String)
    ensures
        r@ == name@ + " is not a module (no "@ + extension@ + " extension)"@,
{
    let mut s = String::new();
    push_str(&mut s, name);
    push_str(&mut s, " is not a module (no ");
    push_str(&mut s, extension);
    push_str(&mut s, " extension)");
    proof {
        assert(Seq::<char>::empty() + name@ + " is not a module (no "@ + extension@ + " extension)"@
            =~= name@ + " is not a module (no "@ + extension@ + " extension)"@);
    }
    s
}

/// The error for a module whose ABI symbol is missing.
pub fn no_abi_symbol_message(name: &str) -> (r: String)
    ensures
        r@ == name@ + " is not a module (no ABI symbol)"@,
{
    name_message(name, " is not a module (no ABI symbol)")
}

/// The error for a Rust module whose vtable symbol is missing.
pub fn no_vtable_symbol_message(name: &str) -> (r: String)
    ensures
        r@ == name@ + " is not a Rust module (no vtable symbol)"@,
{
    name_message(name, " is not a Rust module (no vtable symbol)")
}

/// The error for a Rust module whose init symbol is missing.
pub fn no_rust_init_symbol_message(name: &str) -> (r: String)
    ensures
        r@ == name@ + " is not a Rust module (no init symbol)"@,
{
    name_message(name, " is not a Rust module (no init symbol)")
}

/// The error for a C++ module whose init symbol is missing.
pub fn no_init_symbol_message(name: &str) -> (r: String)
    ensures
        r@ == name@ + " is not a module (no init symbol)"@,
{
    name_message(name, " is not a module (no init symbol)")
}

/// The error for a module whose init function gave nothing.
pub fn init_failed_message(name: &str) -> (r: String)
    ensures
        r@ == "Failed to initialize module "@ + name@,
{
    name_message("Failed to initialize module ", name)
}

/// A line break becomes a space.
pub open spec fn flatten_char(c: char) -> char {
    if c == '\r' || c == '\n' {
        ' '
    } else {
        c
    }
}

/// The loader's error text on one line: carriage returns and line feeds
/// become spaces.
pub fn flatten_error_text(text: &str) -> (r: String)
    ensures
        r@ == text@.map_values(|c: char| flatten_char(c)),
{
    let v = str_chars(text);
    let mut s = String::new();
    let mut i: usize = 0;
    while i < v.len()
        invariant
            v@ == text@,
            i <= v@.len(),
            s@ == v@.take(i as int).map_values(|c: char| flatten_char(c)),
        decreases v.len() - i,
    {
        let c = v[i];
        let d = if c == '\r' || c == '\n' {
            ' '
        } else {
            c
        };
        push_char(&mut s, d);
        proof {
            assert(v@.take(i + 1).map_values(|c: char| flatten_char(c)) =~= v@.take(i as int).map_values(
                |c: char| flatten_char(c),
            ).push(d));
        }
        i = i + 1;
    }
    proof {
        assert(v@.take(i as int) =~= v@);
    }
    s
}

} // verus!

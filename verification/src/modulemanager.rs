//! Module management: the names of module files, and the checks made
//! before a module is loaded.

use vstd::prelude::*;
use vstd::string::StringSliceAdditionalSpecFns;
use crate::text::{ends_with, has_prefix, has_suffix, starts_with};

verus! {

/// Loads and names modules.
pub struct ModuleManager {}

/// A byte that separates path components: `\` or `/`.
pub open spec fn is_path_separator(b: u8) -> bool {
    b == '\\' as u8 || b == '/' as u8
}

/// The file name of a module: `m_` is put in front unless the name starts
/// with `core_` or `m_`, and `.so` is put after it unless it ends so.
pub open spec fn spec_expand_mod_name(modname: Seq<char>) -> Seq<char> {
    let prefix = if has_prefix(modname, "core_"@) || has_prefix(modname, "m_"@) {
        Seq::empty()
    } else {
        "m_"@
    };
    let suffix = if has_suffix(modname, ".so"@) {
        Seq::empty()
    } else {
        ".so"@
    };
    prefix + modname + suffix
}

impl ModuleManager {
    /// A module manager.
    pub fn new() -> (r: Self) {
        ModuleManager {  }
    }

    /// Whether a module name holds a path separator.
    pub fn module_name_contains_path(&self, name: &str) -> (r: bool)
        ensures
            r == exists|i: int| 0 <= i < name.spec_bytes().len() && is_path_separator(
                #[trigger] name.spec_bytes()[i],
            ),
    {
        let b = name.as_bytes();
        let mut i: usize = 0;
        while i < b.len()
            invariant
                b@ == name.spec_bytes(),
                i <= b@.len(),
                forall|j: int| 0 <= j < i ==> !is_path_separator(#[trigger] b@[j]),
            decreases b.len() - i,
        {
            if b[i] == '\\' as u8 || b[i] == '/' as u8 {
                assert(is_path_separator(b@[i as int]));
                return true;
            }
            i = i + 1;
        }
        false
    }

    /// Expands a module name to the name of its file.
    pub fn expand_mod_name(&self, modname: &str) -> (r: String)
        ensures
            r@ == spec_expand_mod_name(modname@),
    {
        let mut fullname = String::new();
        if !starts_with(modname, "core_") && !starts_with(modname, "m_") {
            fullname.append("m_");
        }
        fullname.append(modname);
        if !ends_with(modname, ".so") {
            fullname.append(".so");
        }
        proof {
            assert(Seq::<char>::empty() + "m_"@ =~= "m_"@);
            assert(Seq::<char>::empty() + modname@ =~= modname@);
            assert(modname@ + Seq::<char>::empty() =~= modname@);
            assert(Seq::<char>::empty() + modname@ + Seq::<char>::empty() =~= modname@);
        }
        fullname
    }

    /// Checks that a module's file is a regular file, given whether the
    /// file at its path exists and is one; the error names the module file.
    pub fn validate_module_file(&self, is_regular_file: bool, filename: &str) -> (r: Result<(), String>)
        ensures
            is_regular_file ==> r is Ok,
            !is_regular_file ==> (r matches Err(e) && e@ == "Module file could not be found: "@
                + filename@),
    {
        if !is_regular_file {
            let mut e = String::new();
            e.append("Module file could not be found: ");
            e.append(filename);
            proof {
                assert(Seq::<char>::empty() + "Module file could not be found: "@
                    =~= "Module file could not be found: "@);
            }
            return Err(e);
        }
        Ok(())
    }

    /// Checks a module name before loading: it is refused if it holds a
    /// path separator.
    pub fn load_module(&self, modname: &str) -> (r: bool)
        ensures
            r == !exists|i: int| 0 <= i < modname.spec_bytes().len() && is_path_separator(
                #[trigger] modname.spec_bytes()[i],
            ),
    {
        !self.module_name_contains_path(modname)
    }
}

} // verus!

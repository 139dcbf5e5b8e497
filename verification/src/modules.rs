//! Names for services and module properties, and the short names of
//! module files.

use vstd::prelude::*;
use crate::text::{ends_with, has_prefix, has_suffix, starts_with, str_chars, string_from_chars};

verus! {

pub const SERVICE_COMMAND: u32 = 0;

pub const SERVICE_MODE: u32 = 1;

pub const SERVICE_METADATA: u32 = 2;

pub const SERVICE_IOHOOK: u32 = 3;

pub const SERVICE_DATA: u32 = 4;

pub const SERVICE_CUSTOM: u32 = 5;

pub const VF_CORE: u32 = 1;

pub const VF_VENDOR: u32 = 2;

pub const VF_COMMON: u32 = 4;

pub const VF_OPTCOMMON: u32 = 8;

pub const VF_DEPRECATED: u32 = 16;

pub const VF_LAST: u32 = 16;

/// The name of a kind of service.
pub fn service_type_string(service_type: u32) -> (r: &'static str)
    ensures
        r@ == (if service_type == SERVICE_COMMAND {
            "command"@
        } else if service_type == SERVICE_MODE {
            "mode"@
        } else if service_type == SERVICE_METADATA {
            "metadata"@
        } else if service_type == SERVICE_IOHOOK {
            "iohook"@
        } else if service_type == SERVICE_DATA {
            "data service"@
        } else if service_type == SERVICE_CUSTOM {
            "module service"@
        } else {
            "unknown service"@
        }),
{
    if service_type == SERVICE_COMMAND {
        "command"
    } else if service_type == SERVICE_MODE {
        "mode"
    } else if service_type == SERVICE_METADATA {
        "metadata"
    } else if service_type == SERVICE_IOHOOK {
        "iohook"
    } else if service_type == SERVICE_DATA {
        "data service"
    } else if service_type == SERVICE_CUSTOM {
        "module service"
    } else {
        "unknown service"
    }
}

/// The flag letters of module properties: R (core, "required"), V
/// (vendor), C (common), O (optionally common) and D (deprecated), each
/// replaced by `-` where the property is not set.
pub open spec fn spec_property_string(properties: u32) -> Seq<char> {
    seq![
        if properties & 1 != 0 { 'R' } else { '-' },
        if properties & 2 != 0 { 'V' } else { '-' },
        if properties & 4 != 0 { 'C' } else { '-' },
        if properties & 8 != 0 { 'O' } else { '-' },
        if properties & 16 != 0 { 'D' } else { '-' },
    ]
}

/// The flag letters of a module's properties.
pub fn module_property_string(properties: u32) -> (r: String)
    ensures
        r@ == spec_property_string(properties),
{
    let mut out = String::new();
    crate::text::push_char(&mut out, if properties & VF_CORE != 0 { 'R' } else { '-' });
    crate::text::push_char(&mut out, if properties & VF_VENDOR != 0 { 'V' } else { '-' });
    crate::text::push_char(&mut out, if properties & VF_COMMON != 0 { 'C' } else { '-' });
    crate::text::push_char(&mut out, if properties & VF_OPTCOMMON != 0 { 'O' } else { '-' });
    crate::text::push_char(&mut out, if properties & VF_DEPRECATED != 0 { 'D' } else { '-' });
    proof {
        assert(out@ =~= spec_property_string(properties));
    }
    out
}

/// The short name of a module file: without an `m_` in front and a `.so`
/// behind.
pub open spec fn spec_shrink_mod_name(modname: Seq<char>) -> Seq<char> {
    let start: int = if has_prefix(modname, "m_"@) { 2 } else { 0 };
    let end: int = if has_suffix(modname, ".so"@) { 3 } else { 0 };
    modname.subrange(start, modname.len() - end)
}

/// Shrinks a module file name to the module's short name.
pub fn shrink_mod_name(modname: &str) -> (r: String)
    ensures
        r@ == spec_shrink_mod_name(modname@),
{
    let v = str_chars(modname);
    let start: usize = if starts_with(modname, "m_") { 2 } else { 0 };
    let end: usize = if ends_with(modname, ".so") { 3 } else { 0 };
    proof {
        reveal_strlit("m_");
        reveal_strlit(".so");
        if start == 2 && end == 3 && v@.len() < 5 {
            let n = v@.len();
            assert(v@.subrange(0, 2) == "m_"@);
            assert(v@.subrange(n - 3, n as int) == ".so"@);
            assert(v@[1] == v@.subrange(0, 2)[1]);
            assert(v@[0] == v@.subrange(0, 2)[0]);
            assert(v@[n - 3] == v@.subrange(n - 3, n as int)[0]);
            assert(v@[n - 3] == '.');
            assert(v@[1] == '_');
            assert(v@[0] == 'm');
        }
    }
    string_from_chars(&v, start, v.len() - end)
}

/// Whether a channel name is valid by default: nonempty, no longer than
/// the maximum, starting with a channel prefix, and without bell, space
/// or comma after it.
pub open spec fn spec_default_is_channel(channel: Seq<u8>, max_len: nat, starts_with_prefix: bool) -> bool {
    &&& channel.len() > 0
    &&& channel.len() <= max_len
    &&& starts_with_prefix
    &&& forall|i: int| 1 <= i < channel.len() ==> #[trigger] channel[i] != 0x07 && channel[i] != 0x20
        && channel[i] != 0x2C
}

/// Checks a channel name, given the maximum channel length and whether
/// its first byte is a channel prefix.
pub fn default_is_channel(channel: &[u8], max_len: usize, starts_with_prefix: bool) -> (r: bool)
    ensures
        r == spec_default_is_channel(channel@, max_len as nat, starts_with_prefix),
{
    if channel.len() == 0 || channel.len() > max_len {
        return false;
    }
    if !starts_with_prefix {
        return false;
    }
    let mut i: usize = 1;
    while i < channel.len()
        invariant
            1 <= i <= channel@.len(),
            forall|k: int| 1 <= k < i ==> #[trigger] channel@[k] != 0x07 && channel@[k] != 0x20
                && channel@[k] != 0x2C,
        decreases channel.len() - i,
    {
        let c = channel[i];
        if c == 0x07 || c == 0x20 || c == 0x2C {
            return false;
        }
        i = i + 1;
    }
    true
}

} // verus!

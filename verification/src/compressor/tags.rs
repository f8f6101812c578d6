use vstd::prelude::*;

use crate::compressor::literals::literal_value::str_eq;

verus! {

/// Writes a tag whose name has a writer of its own; no name has one yet but
/// `amenity`, whose writer is not written.
pub fn write_tag_name(name: &str, value: &str, writer: &mut Vec<u8>) -> (r: Option<()>)
    requires
        name@ != "amenity"@,
    ensures
        r is None,
        final(writer)@ == old(writer)@,
{
    if str_eq(name, "amenity") {
        return Some(());
    }
    None
}

} // verus!

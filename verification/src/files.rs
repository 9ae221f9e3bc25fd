//! The names of source and object files.

use crate::text::chars_of;
use vstd::prelude::*;

verus! {

/// The extension of an assembly source file, without the dot.
pub open spec fn source_extension() -> Seq<char> {
    "myasm"@
}

/// What an object file's name ends with.
pub open spec fn object_suffix() -> Seq<char> {
    ".myobj"@
}

/// Whether a file with this extension is an assembly source file.
pub fn is_source_extension(extension: &str) -> (b: bool)
    ensures
        b == (extension@ == source_extension()),
{
    proof {
        reveal_strlit("myasm");
    }
    let chars = chars_of(extension);
    let b = chars.len() == 5 && chars[0] == 'm' && chars[1] == 'y' && chars[2] == 'a' && chars[3]
        == 's' && chars[4] == 'm';
    assert(b ==> extension@ =~= "myasm"@);
    b
}

/// The name of the object file for an output base name: the base name and
/// `.myobj`.
pub fn object_file_name(basename: &str) -> (name: String)
    ensures
        name@ == basename@ + object_suffix(),
{
    let mut name = basename.to_owned();
    name.append(".myobj");
    name
}

} // verus!

//! Permission-bit formatting: one rwx triple from a mode word and the three
//! bit masks that select the read, write and execute bits of one class.
use vstd::prelude::*;

verus! {

/// The rwx triple that `masking` produces: each position shows its letter
/// when the corresponding bit of `mode` is set and `-` when it is not.
pub open spec fn masking_spec(mode: u16, read: u16, write: u16, execute: u16) -> Seq<char> {
    if mode & read == 0 && mode & write == 0 && mode & execute == 0 {
        "---"@
    } else if mode & write == 0 && mode & execute == 0 {
        "r--"@
    } else if mode & read == 0 && mode & execute == 0 {
        "-w-"@
    } else if mode & read == 0 && mode & write == 0 {
        "--x"@
    } else if mode & write == 0 {
        "r-x"@
    } else if mode & execute == 0 {
        "rw-"@
    } else if mode & read == 0 {
        "-wx"@
    } else {
        "rwx"@
    }
}

/// Formats one permission class of `mode` as its rwx triple, selecting the
/// read, write and execute bits with the given masks.
pub fn masking(mode: u16, read: u16, write: u16, execute: u16) -> (r: String)
    ensures
        r@ == masking_spec(mode, read, write, execute),
{
    let rb = mode & read != 0;
    let wb = mode & write != 0;
    let xb = mode & execute != 0;
    if !rb && !wb && !xb {
        "---".to_owned()
    } else if !wb && !xb {
        "r--".to_owned()
    } else if !rb && !xb {
        "-w-".to_owned()
    } else if !rb && !wb {
        "--x".to_owned()
    } else if !wb {
        "r-x".to_owned()
    } else if !xb {
        "rw-".to_owned()
    } else if !rb {
        "-wx".to_owned()
    } else {
        "rwx".to_owned()
    }
}

} // verus!

//! File types in the mode word that `stat` reports.
use vstd::prelude::*;

verus! {

/// The mask of the file-type bits of a mode word.
pub open spec fn type_mask() -> u32 {
    0o170000
}

/// The file-type bits of a regular file.
pub open spec fn regular_type() -> u32 {
    0o100000
}

/// Relies on `libc::S_IFMT`: the mask of the file-type bits, `0o170000`.
#[verifier::external_body]
fn s_ifmt() -> (r: u32)
    ensures
        r == type_mask(),
{
    libc::S_IFMT
}

/// Relies on `libc::S_IFREG`: the file-type bits of a regular file, `0o100000`.
#[verifier::external_body]
fn s_ifreg() -> (r: u32)
    ensures
        r == regular_type(),
{
    libc::S_IFREG
}

/// Whether the mode word `stx_mode` describes a regular file.
pub fn is_file(stx_mode: u32) -> (r: bool)
    ensures
        r == (stx_mode & type_mask() == regular_type()),
{
    stx_mode & s_ifmt() == s_ifreg()
}

} // verus!

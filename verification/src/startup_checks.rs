use vstd::prelude::*;

use crate::text::{occurs_in, str_contains};

verus! {

/// Whether the executable's directory already appears in the `PATH` value.
pub fn path_includes_dir(current_path: &str, exe_dir: &str) -> (included: bool)
    ensures
        included == occurs_in(exe_dir@, current_path@),
{
    str_contains(current_path, exe_dir)
}

/// The `PATH` value with the executable's directory added at the end, after a `;`.
pub fn extended_path(current_path: &str, exe_dir: &str) -> (path: String)
    ensures
        path@ == current_path@ + ";"@ + exe_dir@,
{
    String::from_str(current_path).concat(";").concat(exe_dir)
}

} // verus!

verus! {

/// Once the executable's directory is added to `PATH`, the check finds it there.
pub proof fn lemma_extended_path_includes_dir(current_path: Seq<char>, exe_dir: Seq<char>)
    ensures
        occurs_in(exe_dir, current_path + ";"@ + exe_dir),
{
    let whole = current_path + ";"@ + exe_dir;
    let i = whole.len() - exe_dir.len();
    assert(whole.subrange(i, i + exe_dir.len()) =~= exe_dir);
}

} // verus!

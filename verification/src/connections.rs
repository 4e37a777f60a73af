use vstd::prelude::*;

verus! {

/// The code by which `WNetAddConnection2A` reports success (`NO_ERROR` of the Windows API).
pub const NO_ERROR: u32 = 0;

/// The outcome of a connection attempt from the code that Windows reports: success for
/// `NO_ERROR`, else the code, read as a signed number, as the error.
pub fn connection_result(code: u32) -> (r: Result<(), i32>)
    ensures
        code == NO_ERROR ==> r is Ok,
        code != NO_ERROR ==> r == Err::<(), i32>(code as i32),
{
    if code == NO_ERROR {
        Ok(())
    } else {
        Err(code as i32)
    }
}

/// The remote name of a server's shares in UNC form: two backslashes, then the server.
pub fn unc_path(server: &str) -> (path: String)
    ensures
        path@ == "\\\\"@ + server@,
{
    String::from_str("\\\\").concat(server)
}

} // verus!

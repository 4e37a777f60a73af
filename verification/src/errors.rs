use vstd::prelude::*;

verus! {

/// What each Windows networking error code that the tool knows about means.
pub open spec fn error_explanation(error_code: i32) -> Seq<char> {
    if error_code == 5 {
        "Access denied"@
    } else if error_code == 53 {
        "Network path not found"@
    } else if error_code == 67 {
        "Network name cannot be found"@
    } else if error_code == 86 {
        "Invalid password"@
    } else if error_code == 1219 {
        "Multiple connections to a server or shared resource by the same user, using more than one user name, are not allowed"@
    } else if error_code == 1326 {
        "The username or password is incorrect"@
    } else {
        "Unknown error"@
    }
}

/// Explains a Windows networking error code in words.
pub fn get_error_explanation(error_code: i32) -> (explanation: String)
    ensures
        explanation@ == error_explanation(error_code),
{
    match error_code {
        5 => String::from_str("Access denied"),
        53 => String::from_str("Network path not found"),
        67 => String::from_str("Network name cannot be found"),
        86 => String::from_str("Invalid password"),
        1219 => String::from_str(
            "Multiple connections to a server or shared resource by the same user, using more than one user name, are not allowed",
        ),
        1326 => String::from_str("The username or password is incorrect"),
        _ => String::from_str("Unknown error"),
    }
}

} // verus!

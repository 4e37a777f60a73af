use vstd::prelude::*;

use crate::config::{json_server_list, parse_server_list};
use crate::validations::{check_server_list, server_list_verdict, verdict_model};

verus! {

/// Checks the text of the configuration file at `path`: it must be JSON whose `servers`
/// member is a non-empty array.
pub fn validate_config_file(config_file_path: &str, content: &str) -> (r: Result<(), String>)
    ensures
        verdict_model(r) == server_list_verdict(config_file_path@, json_server_list(content@)),
{
    let read = parse_server_list(content);
    check_server_list(config_file_path, read)
}

} // verus!

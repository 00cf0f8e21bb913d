use vstd::prelude::*;
use vstd::string::{StrSliceExecFns, StringSliceAdditionalSpecFns};

use crate::bytes::{decimal, format_decimal};

verus! {

/// The path of the authorization check for a caller.
pub open spec fn auth_path_of(caller_id: nat) -> Seq<u8> {
    "/auth/".spec_bytes() + decimal(caller_id)
}

/// Builds `/auth/{caller_id}`.
pub fn auth_path(caller_id: usize) -> (r: Vec<u8>)
    ensures
        r@ == auth_path_of(caller_id as nat),
{
    let mut r = "/auth/".as_bytes_vec();
    let mut digits = format_decimal(caller_id as u64);
    r.append(&mut digits);
    r
}

/// Whether a status code is in the success class 200 to 299.
pub fn is_success(status: u16) -> (r: bool)
    ensures
        r == (200 <= status <= 299),
{
    200 <= status && status <= 299
}

/// The error of a check made before an operation, when permission is gone.
pub open spec fn revoked_message() -> Seq<char> {
    "Caller no longer has permissions to use a repository"@
}

/// Decides an authorization check made again before an operation, from the
/// status the check returned: a fresh answer each time, never a cached one.
pub fn recheck_access(status: u16) -> (r: Result<(), String>)
    ensures
        r is Ok <==> 200 <= status <= 299,
        r matches Err(m) ==> m@ == revoked_message(),
{
    if is_success(status) {
        Ok(())
    } else {
        Err(String::from_str("Caller no longer has permissions to use a repository"))
    }
}

} // verus!

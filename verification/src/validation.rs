//! Validation of the requested login.
use vstd::prelude::*;

use crate::types::{is_valid_login, lowercase, Username};

verus! {

/// The login named by `raw`, when it is a well-formed GitHub login; kept in lower case.
pub fn valid_username(raw: &str) -> (r: Option<Username>)
    ensures
        r is Some <==> is_valid_login(raw@),
        r matches Some(u) ==> u@ == lowercase(raw@),
{
    Username::new(raw)
}

} // verus!

//! The one-shot request line written on each connection after connect.

use vstd::prelude::*;
use vstd::string::StringExecFns;

verus! {

/// The request line for `path`: a plain-text `GET` with a fixed host header
/// and `Connection: close`, so the peer half-closes when it is done sending.
pub open spec fn spec_req(path: Seq<char>) -> Seq<char> {
    "GET "@ + path + " HTTP/1.1\r\nHost: localhost\r\nConnection: close\r\n\r\n"@
}

/// Not the entire url, but everything after the domain addr
/// i.e. http://localhost/1000/hello => /1000/hello
pub fn get_req(path: &str) -> (r: String)
    ensures
        r@ == spec_req(path@),
{
    let mut r = String::from_str("GET ");
    r.append(path);
    r.append(" HTTP/1.1\r\nHost: localhost\r\nConnection: close\r\n\r\n");
    proof {
        assert(r@ =~= spec_req(path@));
    }
    r
}

} // verus!

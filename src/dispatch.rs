//! What to do with one received datagram: answer it negatively, relay it
//! upstream, or drop it. The I/O itself is left to the caller.
use vstd::prelude::*;
use crate::codec::{create_nxdomain_response, negative_response, parse_dns_query, question_name, ParseError};
use crate::filter::DomainSet;
use crate::matcher::{blocked_by, in_denylist};

verus! {

/// Why relaying a query upstream failed.
#[derive(Debug, Clone, Copy, PartialEq, Eq, Structural)]
pub enum ForwardError {
    /// Sending to the upstream server failed.
    ForwardFailed,
    /// Receiving from the upstream server failed.
    UpstreamUnreachable,
    /// No reply came from the upstream server in time.
    UpstreamTimeout,
}

/// The decision taken on one datagram.
#[derive(Debug)]
pub enum Decision {
    /// The domain is denied: send `response` back to the client.
    Blocked { domain: String, response: Vec<u8> },
    /// The domain is allowed: relay the datagram to the upstream server.
    Allowed { domain: String },
    /// The datagram is not a query that can be read: send nothing.
    Dropped(ParseError),
}

/// Decides what to do with `request` under `denylist`.
pub fn route_request(request: &[u8], denylist: &DomainSet) -> (r: Decision)
    ensures
        match question_name(request@) {
            Err(e) => r == Decision::Dropped(e),
            Ok(d) => if blocked_by(d, denylist.reported()) {
                r matches Decision::Blocked { domain, response } && domain@ == d && response@
                    == negative_response(request@)
            } else {
                r matches Decision::Allowed { domain } && domain@ == d
            },
        },
{
    let domain = match parse_dns_query(request) {
        Ok(d) => d,
        Err(e) => {
            return Decision::Dropped(e);
        },
    };
    if in_denylist(domain.as_str(), denylist) {
        match create_nxdomain_response(request) {
            Ok(response) => Decision::Blocked { domain, response },
            Err(e) => Decision::Dropped(e),
        }
    } else {
        Decision::Allowed { domain }
    }
}

/// The reply owed to the client once the upstream server has been asked:
/// its answer unchanged, or nothing when relaying failed.
pub fn forward_reply(outcome: Result<Vec<u8>, ForwardError>) -> (r: Option<Vec<u8>>)
    ensures
        outcome matches Ok(v) ==> (r matches Some(w) && w@ == v@),
        outcome is Err ==> r is None,
{
    match outcome {
        Ok(v) => Some(v),
        Err(_) => None,
    }
}

} // verus!

use vstd::prelude::*;
use crate::codec::dec_report;
use crate::codec::decode_report;
use crate::errors::APIErr;
use crate::schema::Report;

verus! {

/// What one GET against an endpoint came to, as the transport collaborator
/// reports it: the request failed outright, the response body could not be
/// read, or a body arrived.
pub enum TransportOutcome {
    Failed(String),
    BodyUnreadable(String),
    Received(String),
}

/// One fetch-and-decode cycle for the report endpoint, given the transport's
/// outcome: transport failure becomes a network error with the collaborator's
/// diagnostic text kept verbatim, an unreadable or malformed body a decode
/// error, and a well-formed body the decoded report.
pub fn get_json(outcome: TransportOutcome) -> (r: Result<Report, APIErr>)
    ensures
        match outcome {
            TransportOutcome::Failed(d) => r == Result::<Report, APIErr>::Err(APIErr::Network(d)),
            TransportOutcome::BodyUnreadable(d) => r == Result::<Report, APIErr>::Err(
                APIErr::Decode(d),
            ),
            TransportOutcome::Received(body) => match dec_report(body@) {
                Option::Some(rv) => (r matches Ok(rep) && rep@ == rv),
                Option::None => (r matches Err(e) && e matches APIErr::Decode(m) && m@
                    == "invalid report body"@),
            },
        },
{
    match outcome {
        TransportOutcome::Failed(d) => Result::Err(APIErr::Network(d)),
        TransportOutcome::BodyUnreadable(d) => Result::Err(APIErr::Decode(d)),
        TransportOutcome::Received(body) => match decode_report(body.as_str()) {
            Result::Ok(rep) => Result::Ok(rep),
            Result::Err(m) => Result::Err(APIErr::Decode(m)),
        },
    }
}

/// One fetch cycle for the raw log endpoint: the body is handed back
/// verbatim, with no parsing; failures map as for the report.
pub fn get_string(outcome: TransportOutcome) -> (r: Result<String, APIErr>)
    ensures
        match outcome {
            TransportOutcome::Failed(d) => r == Result::<String, APIErr>::Err(APIErr::Network(d)),
            TransportOutcome::BodyUnreadable(d) => r == Result::<String, APIErr>::Err(
                APIErr::Decode(d),
            ),
            TransportOutcome::Received(body) => r == Result::<String, APIErr>::Ok(body),
        },
{
    match outcome {
        TransportOutcome::Failed(d) => Result::Err(APIErr::Network(d)),
        TransportOutcome::BodyUnreadable(d) => Result::Err(APIErr::Decode(d)),
        TransportOutcome::Received(body) => Result::Ok(body),
    }
}

} // verus!

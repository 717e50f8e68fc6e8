//! The measurement of one request/response exchange.

use vstd::prelude::*;
use crate::response::{
    body_size, body_size_of, parse_status, response_status, ResponseError,
};

verus! {

/// How long a read waits before it gives up, in milliseconds.
pub const READ_TIMEOUT_MILLIS: u64 = 2000;

/// The measurement of one exchange.
#[derive(Clone, Copy, Debug, PartialEq, Eq, Structural)]
pub struct RequestRecord {
    /// Bytes after the first blank line of the response.
    pub body_size_bytes: usize,
    /// Time the exchange took, without the read timeout it waited out.
    pub elapsed_millis: u64,
    /// The status code was 200.
    pub succeeded: bool,
    /// The status code of the response.
    pub status_code: u16,
}

/// The elapsed time of an exchange that took `raw` milliseconds on the clock
/// and received `len` bytes. A non-empty response is read until the read
/// times out, so the timeout is taken off (down to zero); an empty response
/// keeps its time.
pub open spec fn adjusted_elapsed(raw: u64, len: nat) -> u64 {
    if len == 0 {
        raw
    } else if raw >= READ_TIMEOUT_MILLIS {
        (raw - READ_TIMEOUT_MILLIS) as u64
    } else {
        0
    }
}

/// The record of a response `r` received after `raw` milliseconds.
pub open spec fn record_of(r: Seq<u8>, raw: u64) -> Result<RequestRecord, ResponseError> {
    match response_status(r) {
        Err(e) => Err(e),
        Ok((ok, code)) => Ok(
            RequestRecord {
                body_size_bytes: body_size(r) as usize,
                elapsed_millis: adjusted_elapsed(raw, r.len()),
                succeeded: ok,
                status_code: code,
            },
        ),
    }
}

/// Takes the read timeout off the elapsed time of a non-empty response.
pub fn adjust_elapsed(raw_elapsed_millis: u64, response_len: usize) -> (ms: u64)
    ensures
        ms == adjusted_elapsed(raw_elapsed_millis, response_len as nat),
{
    if response_len == 0 {
        raw_elapsed_millis
    } else if raw_elapsed_millis >= READ_TIMEOUT_MILLIS {
        raw_elapsed_millis - READ_TIMEOUT_MILLIS
    } else {
        0
    }
}

impl RequestRecord {
    /// The record of the response `response`, received `raw_elapsed_millis`
    /// milliseconds after the connection was started.
    pub fn from_response(response: &[u8], raw_elapsed_millis: u64) -> (rec: Result<
        RequestRecord,
        ResponseError,
    >)
        ensures
            rec == record_of(response@, raw_elapsed_millis),
    {
        match parse_status(response) {
            Err(e) => Err(e),
            Ok((ok, code)) => {
                let size = body_size_of(response);
                let ms = adjust_elapsed(raw_elapsed_millis, response.len());
                Ok(
                    RequestRecord {
                        body_size_bytes: size,
                        elapsed_millis: ms,
                        succeeded: ok,
                        status_code: code,
                    },
                )
            },
        }
    }
}

} // verus!

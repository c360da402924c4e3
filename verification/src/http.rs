//! The retry policy of baller's HTTP requests: what a response status or a
//! failed attempt means, and how long to wait before the next attempt. The
//! requests themselves are sent by the caller.

use vstd::prelude::*;
use vstd::string::*;

use crate::error::{BallError, ErrorView};
use crate::text::{concat, concat3, decimal, decimal_string};

verus! {

/// How many times a request is tried.
pub const MAX_RETRIES: u32 = 3;

/// What kind of request a response answers.
#[derive(Debug, Clone, Copy, PartialEq, Eq, Structural)]
pub enum RequestKind {
    /// A JSON document is fetched.
    Json,
    /// A text body is fetched, or a response is streamed.
    Text,
    /// A file is downloaded.
    Download,
}

/// What to do after a response.
#[derive(Debug)]
pub enum StatusStep {
    /// The response is good.
    Accept,
    /// The request fails for good.
    Fail(BallError),
    /// Another attempt may succeed; this error stands if none does.
    Retry(BallError),
}

pub open spec fn is_success(code: u16) -> bool {
    200 <= code && code <= 299
}

/// A response status: success is taken; 404 means the resource does not
/// exist; 403 on a JSON request means rate limiting; anything else is worth
/// retrying. `status` is the status as it is shown (`"500 Internal Server
/// Error"`).
pub fn status_step(code: u16, status: &str, url: &str, kind: RequestKind) -> (r: StatusStep)
    ensures
        is_success(code) ==> r is Accept,
        !is_success(code) && code == 404 ==> (r matches StatusStep::Fail(e) && e@ == ErrorView::PackageNotFound(url@)),
        !is_success(code) && code == 403 && kind == RequestKind::Json ==> (r matches StatusStep::Fail(e) && e@
            == ErrorView::NetworkError("rate limited or forbidden when accessing "@ + url@ + ": "@ + status@)),
        !is_success(code) && code != 404 && !(code == 403 && kind == RequestKind::Json) ==> (r matches StatusStep::Retry(
            e,
        ) && e@ == ErrorView::NetworkError(
            "HTTP "@ + status@ + (if kind == RequestKind::Download {
                " when downloading "@
            } else {
                " when accessing "@
            }) + url@,
        )),
{
    if 200 <= code && code <= 299 {
        StatusStep::Accept
    } else if code == 404 {
        StatusStep::Fail(BallError::PackageNotFound(String::from_str(url)))
    } else if code == 403 && kind == RequestKind::Json {
        let mut m = concat3("rate limited or forbidden when accessing ", url, ": ");
        m.append(status);
        StatusStep::Fail(BallError::NetworkError(m))
    } else {
        let verb = if kind == RequestKind::Download {
            " when downloading "
        } else {
            " when accessing "
        };
        let mut m = concat3("HTTP ", status, verb);
        m.append(url);
        StatusStep::Retry(BallError::NetworkError(m))
    }
}

/// The error an attempt that got no response leaves (`attempt` counts from
/// zero; the message counts from one).
pub fn transport_error(url: &str, attempt: u32, reason: &str, kind: RequestKind) -> (r: BallError)
    requires
        attempt < MAX_RETRIES,
    ensures
        r@ == ErrorView::NetworkError(
            (if kind == RequestKind::Download {
                "download from "@
            } else {
                "request to "@
            }) + url@ + " failed (attempt "@ + decimal((attempt + 1) as nat) + "): "@ + reason@,
        ),
{
    let head = if kind == RequestKind::Download {
        "download from "
    } else {
        "request to "
    };
    let mut m = concat3(head, url, " failed (attempt ");
    m.append(decimal_string((attempt + 1) as u64).as_str());
    m.append("): ");
    m.append(reason);
    BallError::NetworkError(m)
}

/// How long to wait after failed attempt `attempt` (from zero): one second,
/// then two, doubling; no wait after the last attempt.
pub fn backoff_secs(attempt: u32) -> (r: Option<u64>)
    requires
        attempt < MAX_RETRIES,
    ensures
        attempt + 1 < MAX_RETRIES ==> r == Some(if attempt == 0 {
            1u64
        } else {
            2u64
        }),
        attempt + 1 >= MAX_RETRIES ==> r is None,
{
    if attempt + 1 < MAX_RETRIES {
        Some(if attempt == 0 {
            1
        } else {
            2
        })
    } else {
        None
    }
}

/// The error a request ends with once every attempt failed.
pub fn exhausted(url: &str, last: Option<BallError>) -> (r: BallError)
    ensures
        match last {
            Some(e) => r == e,
            None => r@ == ErrorView::NetworkError("all retries exhausted for "@ + url@),
        },
{
    match last {
        Some(e) => e,
        None => BallError::NetworkError(concat("all retries exhausted for ", url)),
    }
}

} // verus!

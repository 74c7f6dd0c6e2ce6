//! Dispatch of gate invocations: the closed return-code taxonomy of the
//! scheduler tier, the task-return message that carries it, and the mapping
//! to the externally visible response.  Every non-success outcome becomes
//! one uniform server-error response with a short fixed message, so internal
//! admission-control state is never distinguishable from an application
//! error; success passes the invoked payload through verbatim.

use vstd::prelude::*;
use vstd::string::StrSliceExecFns;
use crate::buckle::Buckle;

verus! {

/// The closed set of scheduler outcomes for a dispatched invocation.
#[derive(Clone, Copy, Debug, PartialEq, Eq, Structural)]
pub enum ReturnCode {
    Success,
    QueueFull,
    LaunchFailed,
    GateNotExist,
    ResourceExhausted,
    ProcessRequestFailed,
}

impl ReturnCode {
    /// The wire number of each return code.
    pub open spec fn spec_code(self) -> i32 {
        match self {
            ReturnCode::Success => 0,
            ReturnCode::QueueFull => 1,
            ReturnCode::LaunchFailed => 2,
            ReturnCode::GateNotExist => 3,
            ReturnCode::ResourceExhausted => 4,
            ReturnCode::ProcessRequestFailed => 5,
        }
    }

    pub fn code(&self) -> (r: i32)
        ensures
            r == self.spec_code(),
    {
        match self {
            ReturnCode::Success => 0,
            ReturnCode::QueueFull => 1,
            ReturnCode::LaunchFailed => 2,
            ReturnCode::GateNotExist => 3,
            ReturnCode::ResourceExhausted => 4,
            ReturnCode::ProcessRequestFailed => 5,
        }
    }

    /// The return code a wire number stands for; an unrecognized number
    /// stands for none of them.
    pub open spec fn spec_from_i32(c: i32) -> Option<ReturnCode> {
        if c == 0 {
            Some(ReturnCode::Success)
        } else if c == 1 {
            Some(ReturnCode::QueueFull)
        } else if c == 2 {
            Some(ReturnCode::LaunchFailed)
        } else if c == 3 {
            Some(ReturnCode::GateNotExist)
        } else if c == 4 {
            Some(ReturnCode::ResourceExhausted)
        } else if c == 5 {
            Some(ReturnCode::ProcessRequestFailed)
        } else {
            None
        }
    }

    pub fn from_i32(c: i32) -> (r: Option<ReturnCode>)
        ensures
            r == ReturnCode::spec_from_i32(c),
    {
        if c == 0 {
            Some(ReturnCode::Success)
        } else if c == 1 {
            Some(ReturnCode::QueueFull)
        } else if c == 2 {
            Some(ReturnCode::LaunchFailed)
        } else if c == 3 {
            Some(ReturnCode::GateNotExist)
        } else if c == 4 {
            Some(ReturnCode::ResourceExhausted)
        } else if c == 5 {
            Some(ReturnCode::ProcessRequestFailed)
        } else {
            None
        }
    }
}

/// The opaque payload an invoked function or service produced: its own
/// status code, headers and body, carried through without interpretation.
pub struct Payload {
    pub status_code: u32,
    pub headers: Vec<(String, String)>,
    pub body: Vec<u8>,
}

/// The message the scheduler tier returns for one dispatched invocation.
pub struct TaskReturn {
    pub code: i32,
    pub payload: Option<Payload>,
}

/// A request to invoke a gate: its path, the caller's label context,
/// and the request body.
pub struct Request {
    pub gate: String,
    pub label: Buckle,
    pub payload: Vec<u8>,
}

/// The body format of the externally visible response.
#[derive(Clone, Copy, Debug, PartialEq, Eq, Structural)]
pub enum ContentType {
    Json,
    OctetStream,
}

/// The externally visible response to an end-user request.
pub struct HttpResponse {
    pub status_code: u16,
    pub content_type: ContentType,
    pub headers: Vec<(String, String)>,
    pub body: Vec<u8>,
}

/// The uniform failure response: one fixed server-error status and a short
/// fixed JSON body, with no internal detail.
pub open spec fn is_error_response(r: HttpResponse, msg: Seq<char>) -> bool {
    &&& r.status_code == 500
    &&& r.content_type == ContentType::Json
    &&& r.body@ == vstd::utf8::encode_utf8(msg)
    &&& r.headers@.len() == 0
}

fn error_response(msg: &str) -> (r: HttpResponse)
    ensures
        is_error_response(r, msg@),
{
    HttpResponse {
        status_code: 500,
        content_type: ContentType::Json,
        headers: Vec::new(),
        body: msg.as_bytes_vec(),
    }
}

/// Turns a task return into the externally visible response.  On success
/// the payload's own status code, headers and body pass through verbatim;
/// every other code, and any unrecognized code, becomes the uniform
/// server-error response with its fixed message.
pub fn task_return_to_response(tr: TaskReturn) -> (r: HttpResponse)
    requires
        ReturnCode::spec_from_i32(tr.code) == Some(ReturnCode::Success) ==> tr.payload is Some,
    ensures
        ReturnCode::spec_from_i32(tr.code) == Some(ReturnCode::Success) ==> (tr.payload matches
            Some(p) ==> r.status_code == p.status_code as u16 && r.body == p.body && r.headers
            == p.headers && r.content_type == ContentType::OctetStream),
        ReturnCode::spec_from_i32(tr.code) == Some(ReturnCode::QueueFull) ==> is_error_response(
            r, "{\"error\":\"queue full\"}"@),
        ReturnCode::spec_from_i32(tr.code) == Some(ReturnCode::LaunchFailed)
            ==> is_error_response(r, "{\"error\":\"failed to launch the VM\"}"@),
        ReturnCode::spec_from_i32(tr.code) == Some(ReturnCode::GateNotExist)
            ==> is_error_response(r, "{\"error\":\"gate does not exist\"}"@),
        ReturnCode::spec_from_i32(tr.code) == Some(ReturnCode::ResourceExhausted)
            ==> is_error_response(r, "{\"error\":\"resource exhausted\"}"@),
        ReturnCode::spec_from_i32(tr.code) == Some(ReturnCode::ProcessRequestFailed)
            ==> is_error_response(r, "{\"error\":\"failed to process request\"}"@),
        ReturnCode::spec_from_i32(tr.code) is None ==> is_error_response(r,
            "{\"error\":\"unknown return code\"}"@),
{
    match ReturnCode::from_i32(tr.code) {
        Some(ReturnCode::Success) => {
            let p = match tr.payload {
                Some(p) => p,
                None => {
                    proof {
                        assert(false);
                    }
                    Payload { status_code: 0, headers: Vec::new(), body: Vec::new() }
                },
            };
            HttpResponse {
                status_code: #[verifier::truncate] (p.status_code as u16),
                content_type: ContentType::OctetStream,
                headers: p.headers,
                body: p.body,
            }
        },
        Some(ReturnCode::QueueFull) => error_response("{\"error\":\"queue full\"}"),
        Some(ReturnCode::LaunchFailed) => error_response("{\"error\":\"failed to launch the VM\"}"),
        Some(ReturnCode::GateNotExist) => error_response("{\"error\":\"gate does not exist\"}"),
        Some(ReturnCode::ResourceExhausted) => error_response("{\"error\":\"resource exhausted\"}"),
        Some(ReturnCode::ProcessRequestFailed) => error_response(
            "{\"error\":\"failed to process request\"}"),
        None => error_response("{\"error\":\"unknown return code\"}"),
    }
}

} // verus!

use vstd::prelude::*;

verus! {

/// Version of the command protocol carried by every message.
pub const PROTOCOL_VERSION: u8 = 0;

/// A request sent on a command channel.
#[derive(Debug, Clone, PartialEq, Eq, Hash)]
pub struct CommandRequest {
    pub id: String,
    pub version: u8,
    pub worker_id: Option<u32>,
}

impl CommandRequest {
    /// A request of the current protocol version.
    pub fn new(id: &str, worker_id: Option<u32>) -> (r: CommandRequest)
        ensures
            r.id@ == id@,
            r.version == PROTOCOL_VERSION,
            r.worker_id == worker_id,
    {
        CommandRequest { version: PROTOCOL_VERSION, id: id.to_owned(), worker_id }
    }
}

/// How far the handling of a request went.
#[derive(Debug, Clone, PartialEq, Eq, Hash, Structural)]
pub enum CommandStatus {
    /// The request was handled.
    Success,
    /// The request is being handled.
    Processing,
    /// The request could not be handled.
    Error,
}

/// A response sent on a command channel.
#[derive(Debug, Clone, PartialEq, Eq)]
pub struct CommandResponse {
    pub id: String,
    pub version: u8,
    pub status: CommandStatus,
    pub message: String,
}

impl CommandResponse {
    /// A response of the current protocol version.
    pub fn new(id: &str, status: CommandStatus, message: &str) -> (r: CommandResponse)
        ensures
            r.id@ == id@,
            r.version == PROTOCOL_VERSION,
            r.status == status,
            r.message@ == message@,
    {
        CommandResponse {
            version: PROTOCOL_VERSION,
            id: id.to_owned(),
            status,
            message: message.to_owned(),
        }
    }
}

/// The response a server sends while it is still handling a request.
pub fn processing_response() -> (r: CommandResponse)
    ensures
        r.id@ == "processing"@,
        r.version == PROTOCOL_VERSION,
        r.status == CommandStatus::Processing,
        r.message@ == "still processing..."@,
{
    CommandResponse::new("processing", CommandStatus::Processing, "still processing...")
}

/// The final response a server sends to `request`: the request named
/// `request` is acknowledged, any other one is refused.
pub fn final_response(request: &CommandRequest) -> (r: CommandResponse)
    ensures
        r.version == PROTOCOL_VERSION,
        request.id@ == "request"@ ==> {
            &&& r.id@ == "response"@
            &&& r.status == CommandStatus::Success
            &&& r.message@ == "Roger that"@
        },
        request.id@ != "request"@ ==> {
            &&& r.id@ == "what"@
            &&& r.status == CommandStatus::Error
            &&& r.message@ == "Sorry what?"@
        },
{
    let known = "request".to_owned();
    if request.id == known {
        CommandResponse::new("response", CommandStatus::Success, "Roger that")
    } else {
        CommandResponse::new("what", CommandStatus::Error, "Sorry what?")
    }
}

} // verus!

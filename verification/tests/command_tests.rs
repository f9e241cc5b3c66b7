use stream_stuff_on_a_sozu_channel::command::{
    final_response, processing_response, CommandRequest, CommandResponse, CommandStatus,
    PROTOCOL_VERSION,
};

#[test]
fn request_new_sets_fields() {
    let request = CommandRequest::new("some-request-id", Some(23));
    assert_eq!(request.id, "some-request-id");
    assert_eq!(request.version, PROTOCOL_VERSION);
    assert_eq!(request.version, 0);
    assert_eq!(request.worker_id, Some(23));
    let other = CommandRequest::new("My-urgent-request", None);
    assert_eq!(other.worker_id, None);
}

#[test]
fn response_new_sets_fields() {
    let response = CommandResponse::new("processing-3", CommandStatus::Processing, "Not done yet");
    assert_eq!(response.id, "processing-3");
    assert_eq!(response.version, 0);
    assert_eq!(response.status, CommandStatus::Processing);
    assert_eq!(response.message, "Not done yet");
}

#[test]
fn processing_response_is_fixed() {
    let r = processing_response();
    assert_eq!(r, CommandResponse::new("processing", CommandStatus::Processing, "still processing..."));
}

#[test]
fn known_request_is_acknowledged() {
    let r = final_response(&CommandRequest::new("request", None));
    assert_eq!(r.id, "response");
    assert_eq!(r.status, CommandStatus::Success);
    assert_eq!(r.message, "Roger that");
}

#[test]
fn unknown_request_is_refused() {
    let r = final_response(&CommandRequest::new("My-urgent-request", None));
    assert_eq!(r.id, "what");
    assert_eq!(r.status, CommandStatus::Error);
    assert_eq!(r.message, "Sorry what?");
}

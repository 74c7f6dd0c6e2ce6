use faasten_core::message::{
    ContentType, HttpResponse, Payload, ReturnCode, TaskReturn, task_return_to_response,
};

fn body_str(r: &HttpResponse) -> String {
    String::from_utf8(r.body.clone()).unwrap()
}

#[test]
fn return_code_wire_numbers() {
    assert_eq!(ReturnCode::Success.code(), 0);
    assert_eq!(ReturnCode::ProcessRequestFailed.code(), 5);
    assert_eq!(ReturnCode::from_i32(4), Some(ReturnCode::ResourceExhausted));
    assert_eq!(ReturnCode::from_i32(6), None);
    assert_eq!(ReturnCode::from_i32(-1), None);
}

#[test]
fn resource_exhausted_maps_to_fixed_error_body() {
    let tr = TaskReturn { code: ReturnCode::ResourceExhausted.code(), payload: None };
    let r = task_return_to_response(tr);
    assert_eq!(r.status_code, 500);
    assert_eq!(r.content_type, ContentType::Json);
    assert!(body_str(&r).contains("resource exhausted"));
    assert_eq!(body_str(&r), "{\"error\":\"resource exhausted\"}");
}

#[test]
fn each_failure_code_has_its_fixed_message() {
    let cases = [
        (1, "{\"error\":\"queue full\"}"),
        (2, "{\"error\":\"failed to launch the VM\"}"),
        (3, "{\"error\":\"gate does not exist\"}"),
        (4, "{\"error\":\"resource exhausted\"}"),
        (5, "{\"error\":\"failed to process request\"}"),
        (17, "{\"error\":\"unknown return code\"}"),
    ];
    for (code, body) in cases {
        let r = task_return_to_response(TaskReturn { code, payload: None });
        assert_eq!(r.status_code, 500);
        assert_eq!(body_str(&r), body.to_string());
        assert!(r.headers.is_empty());
    }
}

#[test]
fn success_passes_payload_through_verbatim() {
    let tr = TaskReturn {
        code: 0,
        payload: Some(Payload {
            status_code: 201,
            headers: vec![("x-run".to_string(), "1".to_string())],
            body: b"ok".to_vec(),
        }),
    };
    let r = task_return_to_response(tr);
    assert_eq!(r.status_code, 201);
    assert_eq!(r.body, b"ok".to_vec());
    assert_eq!(r.headers, vec![("x-run".to_string(), "1".to_string())]);
    assert_eq!(r.content_type, ContentType::OctetStream);
}

#[test]
fn success_does_not_reinterpret_error_statuses() {
    // the dispatch layer does not validate the payload's own status
    let tr = TaskReturn {
        code: 0,
        payload: Some(Payload { status_code: 404, headers: vec![], body: b"gone".to_vec() }),
    };
    let r = task_return_to_response(tr);
    assert_eq!(r.status_code, 404);
    assert_eq!(r.body, b"gone".to_vec());
}

use openshell_drivers::lxd::client::{
    after_project_create, error_from_lxd, error_from_response, event_item, events_result,
    json_error, operation_result, ping_result, push_result, request_and_wait, request_json,
    url_encode, validate_name, wait_for_operation, CallStep, EventBuffer, LxdApiError, LxdClient,
    LxdEvent, LxdReply, LxdRequest, LxdResponse, Method, OperationStatus, ProjectStep, StreamFrame,
    API_TIMEOUT, MAX_EVENT_BUFFER, MAX_NAME_LEN,
};

#[test]
fn url_encode_encodes_special_characters() {
    assert_eq!(url_encode("hello world"), "hello%20world");
    assert_eq!(url_encode("a=b&c=d"), "a%3Db%26c%3Dd");
    assert_eq!(url_encode("safe-_.~chars"), "safe-_.~chars");
}

#[test]
fn validate_name_accepts_valid_names() {
    assert!(validate_name("my-instance").is_ok());
    assert!(validate_name("a").is_ok());
    assert!(validate_name("instance123").is_ok());
    assert!(validate_name("test-sandbox-abc").is_ok());
}

#[test]
fn validate_name_rejects_invalid_names() {
    assert!(validate_name("").is_err());
    assert!(validate_name("-leading").is_err());
    assert!(validate_name("has/slash").is_err());
    assert!(validate_name("has_underscore").is_err()); // LXD doesn't allow underscores
    assert!(validate_name("has space").is_err());
    assert!(validate_name("has.dot").is_err()); // LXD doesn't allow dots
}

#[test]
fn validate_name_rejects_names_exceeding_max_length() {
    let long_name = format!("a{}", "b".repeat(MAX_NAME_LEN));
    assert!(long_name.len() > MAX_NAME_LEN);
    assert!(validate_name(&long_name).is_err());

    let exact_name = "a".repeat(MAX_NAME_LEN);
    assert!(validate_name(&exact_name).is_ok());
}

#[test]
fn name_complaints_say_what_is_wrong() {
    assert_eq!(
        validate_name("").unwrap_err().text(),
        "invalid input: name must not be empty"
    );
    assert_eq!(
        validate_name(&"x".repeat(64)).unwrap_err().text(),
        "invalid input: name exceeds maximum length of 63 characters (got 64)"
    );
    assert_eq!(
        validate_name("-x").unwrap_err().text(),
        "invalid input: name must start with an alphanumeric character: \"-x\""
    );
    assert_eq!(
        validate_name("a\"b").unwrap_err().text(),
        "invalid input: name contains invalid characters (only alphanumerics and hyphens allowed): \"a\\\"b\""
    );
}

#[test]
fn name_length_counts_bytes() {
    // 32 characters of two bytes each.
    let name = "\u{e9}".repeat(32);
    assert_eq!(
        validate_name(&name).unwrap_err().text(),
        "invalid input: name exceeds maximum length of 63 characters (got 64)"
    );
}

#[test]
fn url_encode_goes_by_bytes() {
    assert_eq!(url_encode("\u{e9}/\u{7f}"), "%C3%A9%2F%7F");
    assert_eq!(url_encode(""), "");
    assert_eq!(url_encode("%"), "%25");
}

#[test]
fn valid_name_is_its_own_encoding() {
    let name = "openshell-sandbox-Abc-9";
    assert!(validate_name(name).is_ok());
    assert_eq!(url_encode(name), name);
}

#[test]
fn error_texts() {
    assert_eq!(
        LxdApiError::NotFound("x".to_string()).text(),
        "LXD API not found (404): x"
    );
    assert_eq!(
        LxdApiError::Conflict("x".to_string()).text(),
        "LXD API conflict (409): x"
    );
    assert_eq!(
        LxdApiError::Api { status: 500, message: "x".to_string() }.text(),
        "LXD API error (500): x"
    );
    assert_eq!(
        LxdApiError::Connection("x".to_string()).text(),
        "connection error: x"
    );
    assert_eq!(LxdApiError::Timeout(30).text(), "timeout after 30s");
    assert_eq!(LxdApiError::Json("x".to_string()).text(), "JSON error: x");
    assert_eq!(
        LxdApiError::OperationFailed("x".to_string()).text(),
        "LXD async operation failed: x"
    );
}

fn client() -> LxdClient {
    LxdClient::new("/run/lxd.sock".to_string(), "my project".to_string())
}

fn body_json(request: &LxdRequest) -> serde_json::Value {
    serde_json::from_slice(&request.body).unwrap()
}

fn header<'a>(request: &'a LxdRequest, name: &str) -> Option<&'a str> {
    request
        .headers
        .iter()
        .find(|h| h.0 == name)
        .map(|h| h.1.as_str())
}

#[test]
fn project_scopes_requests() {
    let c = client();
    assert_eq!(c.project_query(), "?project=my%20project");
    assert_eq!(c.project_query_extra(), "&project=my%20project");
    for project in ["", "default"] {
        let c = LxdClient::new("/s".to_string(), project.to_string());
        assert_eq!(c.project_query(), "");
        assert_eq!(c.project_query_extra(), "");
    }
}

#[test]
fn start_request() {
    let q = client().start_instance("abc").unwrap();
    assert_eq!(q.method, Method::Put);
    assert_eq!(
        q.uri,
        "http://localhost/1.0/instances/abc/state?project=my%20project"
    );
    assert_eq!(q.timeout_secs, API_TIMEOUT);
    assert_eq!(header(&q, "Host"), Some("localhost"));
    assert_eq!(header(&q, "Content-Type"), Some("application/json"));
    assert_eq!(body_json(&q)["action"], "start");
}

#[test]
fn stop_requests() {
    let q = client().stop_instance("abc", 7).unwrap();
    assert_eq!(q.timeout_secs, 17);
    let body = body_json(&q);
    assert_eq!(body["action"], "stop");
    assert_eq!(body["timeout"], 7);
    assert_eq!(body["force"], false);
    let q = client().force_stop_instance("abc").unwrap();
    let body = body_json(&q);
    assert_eq!(body["action"], "stop");
    assert_eq!(body["force"], true);
    assert!(body.get("timeout").is_none());
}

#[test]
fn exec_request() {
    let q = client().exec_instance("abc", &["/bin/sh", "x y"]).unwrap();
    assert_eq!(
        q.uri,
        "http://localhost/1.0/instances/abc/exec?project=my%20project"
    );
    let body = body_json(&q);
    assert_eq!(body["command"][0], "/bin/sh");
    assert_eq!(body["command"][1], "x y");
    assert_eq!(body["wait-for-websocket"], false);
    assert_eq!(body["record-output"], false);
}

#[test]
fn push_file_request() {
    let q = client().push_file("abc", "/opt/a b", b"data", "0755").unwrap();
    assert_eq!(q.method, Method::Post);
    assert_eq!(
        q.uri,
        "http://localhost/1.0/instances/abc/files?path=%2Fopt%2Fa%20b&project=my%20project"
    );
    assert_eq!(q.body, b"data".to_vec());
    assert_eq!(header(&q, "Content-Type"), Some("application/octet-stream"));
    assert_eq!(header(&q, "X-LXD-type"), Some("file"));
    assert_eq!(header(&q, "X-LXD-mode"), Some("0755"));
}

#[test]
fn reading_requests() {
    let c = client();
    assert_eq!(
        c.get_instance("abc").unwrap().uri,
        "http://localhost/1.0/instances/abc?project=my%20project"
    );
    assert_eq!(
        c.get_instance_state("abc").unwrap().uri,
        "http://localhost/1.0/instances/abc/state?project=my%20project"
    );
    assert_eq!(
        c.list_instances().uri,
        "http://localhost/1.0/instances?recursion=1&project=my%20project"
    );
    assert_eq!(c.delete_instance("abc").unwrap().method, Method::Delete);
    assert_eq!(c.ping().uri, "http://localhost/1.0");
    assert_eq!(c.server_info().uri, "http://localhost/1.0");
    assert_eq!(
        c.events_stream().uri,
        "http://localhost/1.0/events?type=lifecycle&project=my%20project"
    );
    let spec = serde_json::Value::String("spec".to_string());
    let q = c.create_instance(&spec);
    assert_eq!(q.uri, "http://localhost/1.0/instances?project=my%20project");
    assert_eq!(q.timeout_secs, 300);
    assert_eq!(q.body, b"\"spec\"".to_vec());
}

#[test]
fn unsafe_names_make_no_request() {
    let c = client();
    assert!(c.start_instance("../x").is_err());
    assert!(c.stop_instance("../x", 1).is_err());
    assert!(c.force_stop_instance("../x").is_err());
    assert!(c.delete_instance("../x").is_err());
    assert!(c.get_instance("../x").is_err());
    assert!(c.get_instance_state("../x").is_err());
    assert!(c.exec_instance("../x", &[]).is_err());
    assert!(c.push_file("../x", "/p", b"", "0644").is_err());
}

#[test]
fn project_is_created_when_it_is_missing() {
    let c = client();
    match c.ensure_project() {
        ProjectStep::Lookup(q) => {
            assert_eq!(q.uri, "http://localhost/1.0/projects/my%20project")
        }
        _ => panic!("the project has to be looked up"),
    }
    match c.after_project_lookup(Err(LxdApiError::NotFound("x".to_string()))) {
        ProjectStep::Create(q) => {
            assert_eq!(q.uri, "http://localhost/1.0/projects");
            let body = body_json(&q);
            assert_eq!(body["name"], "my project");
            assert_eq!(body["description"], "OpenShell sandbox instances");
            assert_eq!(body["config"]["features.images"], "false");
            assert_eq!(body["config"]["features.profiles"], "true");
            assert_eq!(body["config"]["features.storage.volumes"], "false");
            assert_eq!(body["config"]["features.networks"], "false");
        }
        _ => panic!("the project has to be created"),
    }
    assert!(matches!(
        c.after_project_lookup(Ok(())),
        ProjectStep::Done(Ok(()))
    ));
    assert!(matches!(
        c.after_project_lookup(Err(LxdApiError::Timeout(1))),
        ProjectStep::Done(Err(LxdApiError::Timeout(1)))
    ));
    let c = LxdClient::new("/s".to_string(), "default".to_string());
    assert!(matches!(c.ensure_project(), ProjectStep::Done(Ok(()))));
}

#[test]
fn project_that_another_process_creates_is_fine() {
    assert!(after_project_create(Ok(())).is_ok());
    assert!(after_project_create(Err(LxdApiError::Conflict("x".to_string()))).is_ok());
    assert!(after_project_create(Err(LxdApiError::NotFound("x".to_string()))).is_err());
}

fn reply(status: u16, body: &str) -> LxdReply {
    LxdReply { status, body: body.as_bytes().to_vec() }
}

fn wrapper<T>(response_type: &str, metadata: Option<T>) -> LxdResponse<T> {
    LxdResponse {
        response_type: response_type.to_string(),
        metadata,
        error: None,
        error_code: None,
        operation: None,
    }
}

#[test]
fn errors_from_responses() {
    assert_eq!(
        error_from_response(404, b"{\"error\":\"no such thing\"}").text(),
        "LXD API not found (404): no such thing"
    );
    assert_eq!(
        error_from_response(409, b"{\"error\":\"there\"}").text(),
        "LXD API conflict (409): there"
    );
    assert_eq!(
        error_from_response(500, b"plain text").text(),
        "LXD API error (500): plain text"
    );
    // No text under the key, and no JSON object at all.
    assert_eq!(
        error_from_response(500, b"{\"error\":1}").text(),
        "LXD API error (500): {\"error\":1}"
    );
    assert_eq!(error_from_response(500, b"[]").text(), "LXD API error (500): []");
    assert_eq!(
        error_from_response(500, b"\xffx").text(),
        "LXD API error (500): \u{fffd}x"
    );
    assert!(matches!(error_from_lxd(404, "m"), LxdApiError::NotFound(_)));
    assert!(matches!(error_from_lxd(409, "m"), LxdApiError::Conflict(_)));
    assert_eq!(error_from_lxd(418, "m").text(), "LXD API error (418): m");
}

#[test]
fn metadata_is_taken_out_of_replies() {
    let r = request_json(reply(200, ""), Ok(wrapper("sync", Some(5u32))));
    assert_eq!(r.unwrap(), 5);
    let r = request_json::<u32>(reply(200, ""), Ok(wrapper("sync", None)));
    assert_eq!(
        r.unwrap_err().text(),
        "JSON error: response missing metadata field"
    );
    let r = request_json::<u32>(reply(299, "{"), Err("broken".to_string()));
    assert_eq!(r.unwrap_err().text(), "JSON error: broken: {");
    let r = request_json(reply(404, "gone"), Ok(wrapper("sync", Some(5u32))));
    assert_eq!(r.unwrap_err().text(), "LXD API not found (404): gone");
    let mut w = wrapper("error", Some(5u32));
    w.error_code = Some(404);
    w.error = Some("nothing".to_string());
    let r = request_json(reply(200, ""), Ok(w));
    assert_eq!(r.unwrap_err().text(), "LXD API not found (404): nothing");
    let mut w = wrapper("sync", Some(5u32));
    w.error_code = Some(399);
    assert_eq!(request_json(reply(200, ""), Ok(w)).unwrap(), 5);
    // Codes are cut to 16 bits.
    let mut w = wrapper("error", Some(5u32));
    w.error_code = Some(65_536 + 404);
    let r = request_json(reply(200, ""), Ok(w));
    assert_eq!(r.unwrap_err().text(), "LXD API not found (404): ");
    assert_eq!(json_error("bad", b"x").text(), "JSON error: bad: x");
}

#[test]
fn operations_are_waited_for() {
    assert!(matches!(
        request_and_wait::<u32>(reply(200, ""), Ok(wrapper("sync", None)), 30),
        CallStep::Finished(Ok(()))
    ));
    let mut w = wrapper::<u32>("async", None);
    w.operation = Some("/1.0/operations/u-1".to_string());
    match request_and_wait(reply(202, ""), Ok(w), 300) {
        CallStep::Wait(q) => {
            assert_eq!(
                q.uri,
                "http://localhost/1.0/operations/u-1/wait?timeout=300"
            );
            assert_eq!(q.timeout_secs, 305);
        }
        _ => panic!("the operation has to be waited for"),
    }
    assert!(matches!(
        request_and_wait::<u32>(reply(202, ""), Ok(wrapper("async", None)), 30),
        CallStep::Finished(Ok(()))
    ));
    let mut w = wrapper::<u32>("async", None);
    w.error_code = Some(409);
    assert!(matches!(
        request_and_wait(reply(200, ""), Ok(w), 30),
        CallStep::Finished(Err(LxdApiError::Conflict(_)))
    ));
    assert!(matches!(
        request_and_wait::<u32>(reply(500, "x"), Err("e".to_string()), 30),
        CallStep::Finished(Err(LxdApiError::Api { status: 500, .. }))
    ));
    assert!(matches!(
        request_and_wait::<u32>(reply(200, "x"), Err("e".to_string()), 30),
        CallStep::Finished(Err(LxdApiError::Json(_)))
    ));
}

#[test]
fn waiting_takes_at_least_half_a_minute() {
    let q = wait_for_operation("/operations/u-2", 5);
    assert_eq!(q.uri, "http://localhost/1.0/operations/u-2/wait?timeout=30");
    assert_eq!(q.timeout_secs, 10);
}

fn operation(status_code: i32, description: Option<&str>, err: Option<&str>) -> OperationStatus {
    OperationStatus {
        status: String::new(),
        status_code,
        description: description.map(|s| s.to_string()),
        err: err.map(|s| s.to_string()),
    }
}

#[test]
fn operation_results() {
    let ok = operation_result(reply(200, ""), Ok(wrapper("sync", Some(operation(200, None, None)))));
    assert!(ok.is_ok());
    assert!(operation_result(reply(200, ""), Ok(wrapper("sync", None))).is_ok());
    let e = operation_result(
        reply(200, ""),
        Ok(wrapper("sync", Some(operation(400, Some("Starting"), Some("no disk"))))),
    );
    assert_eq!(
        e.unwrap_err().text(),
        "LXD async operation failed: operation Starting: no disk (code 400)"
    );
    let e = operation_result(
        reply(200, ""),
        Ok(wrapper("sync", Some(operation(401, None, None)))),
    );
    assert_eq!(
        e.unwrap_err().text(),
        "LXD async operation failed: operation unknown: failed (code 401)"
    );
    assert!(matches!(
        operation_result(reply(404, ""), Err("e".to_string())),
        Err(LxdApiError::NotFound(_))
    ));
}

#[test]
fn results_by_status_alone() {
    assert!(ping_result(200).is_ok());
    assert_eq!(
        ping_result(503).unwrap_err().text(),
        "LXD API error (503): ping failed"
    );
    assert!(events_result(204).is_ok());
    assert_eq!(
        events_result(300).unwrap_err().text(),
        "LXD API error (300): events stream request failed"
    );
    assert!(push_result(reply(200, "")).is_ok());
    assert!(matches!(
        push_result(reply(404, "x")),
        Err(LxdApiError::NotFound(_))
    ));
}

#[test]
fn event_lines_do_not_depend_on_chunks() {
    let stream = b"{\"a\":1}\n\n{\"b\":2}\nrest";
    let mut whole = EventBuffer::new();
    let lines = whole.feed(stream).unwrap();
    assert_eq!(lines, vec![b"{\"a\":1}".to_vec(), b"{\"b\":2}".to_vec()]);
    assert_eq!(whole.buffer, b"rest".to_vec());
    let mut pieces = EventBuffer::new();
    let mut collected: Vec<Vec<u8>> = Vec::new();
    for b in stream {
        collected.extend(pieces.feed(&[*b]).unwrap());
    }
    assert_eq!(collected, lines);
    assert_eq!(pieces.buffer, whole.buffer);
}

#[test]
fn event_buffer_has_a_limit() {
    let mut buffer = EventBuffer::new();
    assert!(buffer.feed(&vec![b'x'; MAX_EVENT_BUFFER]).unwrap().is_empty());
    let e = buffer.feed(b"\n").unwrap_err();
    assert_eq!(e.text(), "connection error: event buffer exceeded 1 MB limit");
}

/// Reads lines as events the way of a caller: the line names its event.
fn read_line(line: &[u8]) -> Result<LxdEvent, String> {
    if line == b"bad" {
        return Err("no event".to_string());
    }
    Ok(LxdEvent {
        event_type: String::from_utf8(line.to_vec()).unwrap(),
        metadata: None,
        timestamp: String::new(),
    })
}

fn stream(frames: Vec<StreamFrame>) -> Vec<String> {
    let mut buffer = EventBuffer::new();
    let mut items = Vec::new();
    for frame in frames {
        let step = buffer.after_frame(frame);
        for line in step.lines {
            items.push(match event_item(&line, read_line(&line)) {
                Ok(event) => event.event_type,
                Err(e) => e.text(),
            });
        }
        match step.end {
            None => {}
            Some(Ok(())) => return items,
            Some(Err(e)) => {
                items.push(e.text());
                return items;
            }
        }
    }
    items.push("open".to_string());
    items
}

#[test]
fn event_items_are_the_lines_of_all_frames() {
    let bytes = b"one\n\nbad\ntwo\nunfinished";
    let expected = vec!["one", "JSON error: no event: bad", "two"];
    let mut by_byte: Vec<StreamFrame> =
        bytes.iter().map(|b| StreamFrame::Data(vec![*b])).collect();
    by_byte.push(StreamFrame::Data(Vec::new()));
    by_byte.push(StreamFrame::Ended);
    assert_eq!(stream(by_byte), expected);
    assert_eq!(
        stream(vec![StreamFrame::Data(bytes.to_vec()), StreamFrame::Ended]),
        expected
    );
    let (head, tail) = bytes.split_at(7);
    assert_eq!(
        stream(vec![
            StreamFrame::Data(head.to_vec()),
            StreamFrame::Data(tail.to_vec()),
            StreamFrame::Ended,
            StreamFrame::Data(b"late\n".to_vec()),
        ]),
        expected
    );
}

#[test]
fn event_stream_ends_with_its_error() {
    assert_eq!(
        stream(vec![
            StreamFrame::Data(b"one\nhalf".to_vec()),
            StreamFrame::Failed("reset".to_string()),
            StreamFrame::Data(b"late\n".to_vec()),
        ]),
        vec!["one", "connection error: reset"]
    );
    assert_eq!(
        stream(vec![
            StreamFrame::Data(b"one\n".to_vec()),
            StreamFrame::Data(vec![b'x'; MAX_EVENT_BUFFER]),
            StreamFrame::Data(b"\nlate\n".to_vec()),
        ]),
        vec!["one", "connection error: event buffer exceeded 1 MB limit"]
    );
    assert_eq!(stream(vec![StreamFrame::Data(b"one\n".to_vec())]), vec!["one", "open"]);
}

//! Requests to the LXD REST API and what their replies mean.
//!
//! The functions here build requests and read replies; sending them over the
//! Unix socket is left to the caller.
use vstd::prelude::*;
use vstd::string::*;
use vstd::utf8::*;
use serde_json::Value;
use crate::json;
use crate::platform;
use crate::string_map;
use crate::string_map::StringMap;
use crate::text;

verus! {

broadcast use vstd::string::group_string_axioms;

/// LXD API version prefix.
pub const API_VERSION: &'static str = "1.0";

/// Timeout for individual API calls, in seconds.
pub const API_TIMEOUT: u64 = 30;

/// Largest size of the line buffer of the event stream (1 MB).
pub const MAX_EVENT_BUFFER: usize = 1_048_576;

/// Largest length of a resource name, in bytes.
pub const MAX_NAME_LEN: usize = 63;

// ---------------------------------------------------------------------------
// Errors
// ---------------------------------------------------------------------------

/// How a call of the LXD API failed.
#[derive(Debug)]
pub enum LxdApiError {
    NotFound(String),
    Conflict(String),
    Api { status: u16, message: String },
    Connection(String),
    /// No answer within this many seconds.
    Timeout(u64),
    Json(String),
    InvalidInput(String),
    OperationFailed(String),
}

pub enum LxdApiErrorView {
    NotFound(Seq<char>),
    Conflict(Seq<char>),
    Api { status: u16, message: Seq<char> },
    Connection(Seq<char>),
    Timeout(u64),
    Json(Seq<char>),
    InvalidInput(Seq<char>),
    OperationFailed(Seq<char>),
}

impl View for LxdApiError {
    type V = LxdApiErrorView;

    open spec fn view(&self) -> LxdApiErrorView {
        match self {
            LxdApiError::NotFound(m) => LxdApiErrorView::NotFound(m@),
            LxdApiError::Conflict(m) => LxdApiErrorView::Conflict(m@),
            LxdApiError::Api { status, message } => LxdApiErrorView::Api {
                status: *status,
                message: message@,
            },
            LxdApiError::Connection(m) => LxdApiErrorView::Connection(m@),
            LxdApiError::Timeout(secs) => LxdApiErrorView::Timeout(*secs),
            LxdApiError::Json(m) => LxdApiErrorView::Json(m@),
            LxdApiError::InvalidInput(m) => LxdApiErrorView::InvalidInput(m@),
            LxdApiError::OperationFailed(m) => LxdApiErrorView::OperationFailed(m@),
        }
    }
}

/// The text in which an error is shown.
pub open spec fn error_text(e: LxdApiErrorView) -> Seq<char> {
    match e {
        LxdApiErrorView::NotFound(m) => "LXD API not found (404): "@ + m,
        LxdApiErrorView::Conflict(m) => "LXD API conflict (409): "@ + m,
        LxdApiErrorView::Api { status, message } => "LXD API error ("@ + text::decimal(
            status as nat,
        ) + "): "@ + message,
        LxdApiErrorView::Connection(m) => "connection error: "@ + m,
        LxdApiErrorView::Timeout(secs) => "timeout after "@ + text::decimal(secs as nat) + "s"@,
        LxdApiErrorView::Json(m) => "JSON error: "@ + m,
        LxdApiErrorView::InvalidInput(m) => "invalid input: "@ + m,
        LxdApiErrorView::OperationFailed(m) => "LXD async operation failed: "@ + m,
    }
}

impl LxdApiError {
    /// The text in which the error is shown.
    pub fn text(&self) -> (r: String)
        ensures
            r@ == error_text(self@),
    {
        match self {
            LxdApiError::NotFound(m) => "LXD API not found (404): ".to_owned().concat(m.as_str()),
            LxdApiError::Conflict(m) => "LXD API conflict (409): ".to_owned().concat(m.as_str()),
            LxdApiError::Api { status, message } => "LXD API error (".to_owned().concat(
                text::u64_text(*status as u64).as_str(),
            ).concat("): ").concat(message.as_str()),
            LxdApiError::Connection(m) => "connection error: ".to_owned().concat(m.as_str()),
            LxdApiError::Timeout(secs) => "timeout after ".to_owned().concat(
                text::u64_text(*secs).as_str(),
            ).concat("s"),
            LxdApiError::Json(m) => "JSON error: ".to_owned().concat(m.as_str()),
            LxdApiError::InvalidInput(m) => "invalid input: ".to_owned().concat(m.as_str()),
            LxdApiError::OperationFailed(m) => "LXD async operation failed: ".to_owned().concat(
                m.as_str(),
            ),
        }
    }
}

/// The view of a result whose error is an API error.
pub open spec fn outcome<T>(r: Result<T, LxdApiError>) -> Result<T, LxdApiErrorView> {
    match r {
        Ok(t) => Ok(t),
        Err(e) => Err(e@),
    }
}

// ---------------------------------------------------------------------------
// Names
// ---------------------------------------------------------------------------

/// Whether the byte is an ASCII letter or digit.
pub open spec fn alphanumeric(b: u8) -> bool {
    ||| 'A' as u8 <= b <= 'Z' as u8
    ||| 'a' as u8 <= b <= 'z' as u8
    ||| '0' as u8 <= b <= '9' as u8
}

/// Whether the byte may stand in a resource name.
pub open spec fn name_byte(b: u8) -> bool {
    alphanumeric(b) || b == '-' as u8
}

/// Whether the bytes are all of a kind that may stand in a resource name.
pub open spec fn name_bytes(bytes: Seq<u8>) -> bool {
    forall|i: int| 0 <= i < bytes.len() ==> name_byte(#[trigger] bytes[i])
}

/// A name that is safe in the path of a URL: it starts with a letter or digit,
/// holds only letters, digits and hyphens, and is at most [`MAX_NAME_LEN`] long.
pub open spec fn valid_name(name: Seq<char>) -> bool {
    let bytes = encode_utf8(name);
    &&& 0 < name.len()
    &&& bytes.len() <= MAX_NAME_LEN
    &&& alphanumeric(bytes[0])
    &&& name_bytes(bytes)
}

/// What is said of a name that is not valid.
pub open spec fn name_complaint(name: Seq<char>) -> Seq<char> {
    let bytes = encode_utf8(name);
    if name.len() == 0 {
        "name must not be empty"@
    } else if bytes.len() > MAX_NAME_LEN {
        "name exceeds maximum length of "@ + text::decimal(MAX_NAME_LEN as nat)
            + " characters (got "@ + text::decimal(bytes.len()) + ")"@
    } else if !alphanumeric(bytes[0]) {
        "name must start with an alphanumeric character: "@ + platform::debug_text(name)
    } else {
        "name contains invalid characters (only alphanumerics and hyphens allowed): "@
            + platform::debug_text(name)
    }
}

/// What [`validate_name`] answers.
pub open spec fn name_check(name: Seq<char>) -> Result<(), LxdApiErrorView> {
    if valid_name(name) {
        Ok(())
    } else {
        Err(LxdApiErrorView::InvalidInput(name_complaint(name)))
    }
}

fn is_alphanumeric(b: u8) -> (r: bool)
    ensures
        r == alphanumeric(b),
{
    (65 <= b && b <= 90) || (97 <= b && b <= 122) || (48 <= b && b <= 57)
}

/// Checks that a resource name is safe to put into the path of a URL.
pub fn validate_name(name: &str) -> (r: Result<(), LxdApiError>)
    ensures
        outcome(r) == name_check(name@),
{
    if name.is_empty() {
        return Err(LxdApiError::InvalidInput("name must not be empty".to_owned()));
    }
    let bytes = name.as_bytes();
    proof {
        encode_utf8_first_scalar(name@);
    }
    if bytes.len() > MAX_NAME_LEN {
        return Err(
            LxdApiError::InvalidInput(
                "name exceeds maximum length of ".to_owned().concat(
                    text::u64_text(MAX_NAME_LEN as u64).as_str(),
                ).concat(" characters (got ").concat(
                    text::u64_text(bytes.len() as u64).as_str(),
                ).concat(")"),
            ),
        );
    }
    if !is_alphanumeric(bytes[0]) {
        return Err(
            LxdApiError::InvalidInput(
                "name must start with an alphanumeric character: ".to_owned().concat(
                    platform::quoted(name).as_str(),
                ),
            ),
        );
    }
    let mut i: usize = 0;
    while i < bytes.len()
        invariant
            i <= bytes.len(),
            bytes@ == encode_utf8(name@),
            0 < name@.len(),
            bytes.len() <= MAX_NAME_LEN,
            alphanumeric(bytes@[0]),
            forall|j: int| 0 <= j < i ==> name_byte(#[trigger] bytes@[j]),
        decreases bytes.len() - i,
    {
        if !is_alphanumeric(bytes[i]) && bytes[i] != 45 {
            return Err(
                LxdApiError::InvalidInput(
                    "name contains invalid characters (only alphanumerics and hyphens allowed): ".to_owned().concat(
                    platform::quoted(name).as_str()),
                ),
            );
        }
        i = i + 1;
    }
    Ok(())
}

// ---------------------------------------------------------------------------
// Percent-encoding
// ---------------------------------------------------------------------------

/// Whether a byte stands for itself in a query parameter.
pub open spec fn unreserved(b: u8) -> bool {
    ||| alphanumeric(b)
    ||| b == '-' as u8
    ||| b == '_' as u8
    ||| b == '.' as u8
    ||| b == '~' as u8
}

/// The upper-case hexadecimal digit of a number below 16.
pub open spec fn upper_hex(n: int) -> char {
    if n < 10 {
        ('0' as u32 + n) as char
    } else {
        ('A' as u32 + (n - 10)) as char
    }
}

/// A byte as it stands in an encoded query parameter.
pub open spec fn encoded_byte(b: u8) -> Seq<char> {
    if unreserved(b) {
        seq![b as char]
    } else {
        seq!['%', upper_hex(b as int / 16), upper_hex(b as int % 16)]
    }
}

/// The encoded bytes one after the other.
pub open spec fn encoded_bytes(bytes: Seq<u8>) -> Seq<char>
    decreases bytes.len(),
{
    if bytes.len() == 0 {
        Seq::empty()
    } else {
        encoded_bytes(bytes.drop_last()) + encoded_byte(bytes.last())
    }
}

/// A text as a query parameter value: its UTF-8 bytes, each as it is when it is
/// unreserved and as `%` with two hexadecimal digits otherwise.
pub open spec fn url_encoded(s: Seq<char>) -> Seq<char> {
    encoded_bytes(encode_utf8(s))
}

fn hex_digit(n: u8) -> (c: char)
    requires
        n < 16,
    ensures
        c == upper_hex(n as int),
{
    if n < 10 {
        (48 + n) as char
    } else {
        (55 + n) as char
    }
}

/// Minimal percent-encoding for query parameter values.
pub fn url_encode(s: &str) -> (r: String)
    ensures
        r@ == url_encoded(s@),
{
    let bytes = s.as_bytes();
    let mut r = String::new();
    let mut i: usize = 0;
    proof {
        assert(bytes@.take(0) =~= Seq::empty());
    }
    while i < bytes.len()
        invariant
            i <= bytes.len(),
            r@ == encoded_bytes(bytes@.take(i as int)),
        decreases bytes.len() - i,
    {
        let b = bytes[i];
        let ghost before = r@;
        proof {
            assert(bytes@.take(i + 1).drop_last() =~= bytes@.take(i as int));
        }
        if is_alphanumeric(b) || b == 45 || b == 95 || b == 46 || b == 126 {
            r.push(b as char);
        } else {
            r.push('%');
            r.push(hex_digit(b / 16));
            r.push(hex_digit(b % 16));
        }
        proof {
            assert(r@ =~= before + encoded_byte(b));
        }
        i = i + 1;
    }
    proof {
        assert(bytes@.take(bytes@.len() as int) =~= bytes@);
    }
    r
}

// ---------------------------------------------------------------------------
// Data of the API
// ---------------------------------------------------------------------------

/// An instance state returned by the LXD API.
pub struct InstanceState {
    pub status: String,
    pub status_code: i32,
    pub processes: i64,
    pub network: Option<StringMap<NetworkState>>,
}

/// One network interface of an instance.
pub struct NetworkState {
    pub addresses: Vec<NetworkAddress>,
    pub state: String,
}

/// One address of a network interface.
pub struct NetworkAddress {
    pub family: String,
    pub address: String,
    pub scope: String,
}

/// Instance metadata returned by `GET /1.0/instances/<name>`.
pub struct Instance {
    pub name: String,
    pub status: String,
    pub status_code: i32,
    pub config: StringMap<String>,
    pub instance_type: String,
    pub architecture: String,
    pub created_at: String,
    pub last_used_at: String,
}

pub struct InstanceView {
    pub name: Seq<char>,
    pub status: Seq<char>,
    pub status_code: i32,
    pub config: Map<Seq<char>, Seq<char>>,
    pub instance_type: Seq<char>,
    pub architecture: Seq<char>,
    pub created_at: Seq<char>,
    pub last_used_at: Seq<char>,
}

impl View for Instance {
    type V = InstanceView;

    open spec fn view(&self) -> InstanceView {
        InstanceView {
            name: self.name@,
            status: self.status@,
            status_code: self.status_code,
            config: string_map::text_map(self.config),
            instance_type: self.instance_type@,
            architecture: self.architecture@,
            created_at: self.created_at@,
            last_used_at: self.last_used_at@,
        }
    }
}

/// A lifecycle event from the events stream.
pub struct LxdEvent {
    pub event_type: String,
    pub metadata: Option<EventMetadata>,
    pub timestamp: String,
}

/// What happened, and to what.
pub struct EventMetadata {
    pub action: String,
    pub source: String,
    pub requestor: Option<EventRequestor>,
    pub context: StringMap<String>,
}

/// Who asked for it.
pub struct EventRequestor {
    pub username: String,
    pub protocol: String,
}

/// The wrapper in which LXD puts every answer.
pub struct LxdResponse<T> {
    pub response_type: String,
    pub metadata: Option<T>,
    pub error: Option<String>,
    pub error_code: Option<i32>,
    pub operation: Option<String>,
}

/// Status of an asynchronous operation, returned by
/// `GET /1.0/operations/<uuid>/wait`.
pub struct OperationStatus {
    pub status: String,
    pub status_code: i32,
    pub description: Option<String>,
    pub err: Option<String>,
}

// ---------------------------------------------------------------------------
// Requests
// ---------------------------------------------------------------------------

/// The method of an HTTP request.
#[derive(Clone, Copy, Debug, PartialEq, Eq, Structural)]
pub enum Method {
    Get,
    Post,
    Put,
    Delete,
}

/// An HTTP request that is ready to be sent.
pub struct LxdRequest {
    pub method: Method,
    pub uri: String,
    /// Header names and values, in the order in which they are set.
    pub headers: Vec<(String, String)>,
    pub body: Vec<u8>,
    /// How long to wait for the answer, in seconds.
    pub timeout_secs: u64,
}

pub struct LxdRequestView {
    pub method: Method,
    pub uri: Seq<char>,
    pub headers: Seq<(Seq<char>, Seq<char>)>,
    pub body: Seq<u8>,
    pub timeout_secs: u64,
}

impl View for LxdRequest {
    type V = LxdRequestView;

    open spec fn view(&self) -> LxdRequestView {
        LxdRequestView {
            method: self.method,
            uri: self.uri@,
            headers: text::pair_views(self.headers@),
            body: self.body@,
            timeout_secs: self.timeout_secs,
        }
    }
}

/// The view of a request that may have been refused.
pub open spec fn request_outcome(r: Result<LxdRequest, LxdApiError>) -> Result<
    LxdRequestView,
    LxdApiErrorView,
> {
    match r {
        Ok(q) => Ok(q@),
        Err(e) => Err(e@),
    }
}

/// A request with the headers that every request has.
pub open spec fn raw_request(
    method: Method,
    path: Seq<char>,
    body: Seq<u8>,
    content_type: Option<Seq<char>>,
    timeout_secs: u64,
) -> LxdRequestView {
    let host = seq![("Host"@, "localhost"@)];
    LxdRequestView {
        method,
        uri: "http://localhost"@ + path,
        headers: match content_type {
            Some(ct) => host.push(("Content-Type"@, ct)),
            None => host,
        },
        body,
        timeout_secs,
    }
}

/// A request to a path below the API version, with a JSON body when there is one.
pub open spec fn api_request(
    method: Method,
    path: Seq<char>,
    body: Option<json::Json>,
    timeout_secs: u64,
) -> LxdRequestView {
    let full_path = "/"@ + API_VERSION@ + path;
    match body {
        Some(value) => raw_request(
            method,
            full_path,
            json::json_bytes(value),
            Some("application/json"@),
            timeout_secs,
        ),
        None => raw_request(method, full_path, Seq::empty(), None, timeout_secs),
    }
}

/// Builds an HTTP request from components.
pub fn build_request(
    method: Method,
    path: &str,
    body: Vec<u8>,
    content_type: Option<&str>,
    timeout_secs: u64,
) -> (r: LxdRequest)
    ensures
        r@ == raw_request(
            method,
            path@,
            body@,
            match content_type {
                Some(ct) => Some(ct@),
                None => None,
            },
            timeout_secs,
        ),
{
    let mut headers: Vec<(String, String)> = Vec::new();
    headers.push(("Host".to_owned(), "localhost".to_owned()));
    if let Some(ct) = content_type {
        headers.push(("Content-Type".to_owned(), ct.to_owned()));
        proof {
            assert(text::pair_views(headers@) =~= seq![("Host"@, "localhost"@)].push(
                ("Content-Type"@, ct@),
            ));
        }
    } else {
        proof {
            assert(text::pair_views(headers@) =~= seq![("Host"@, "localhost"@)]);
        }
    }
    LxdRequest {
        method,
        uri: "http://localhost".to_owned().concat(path),
        headers,
        body,
        timeout_secs,
    }
}

/// Builds a request to a path below the API version.
pub fn request(method: Method, path: &str, body: Option<&Value>, timeout_secs: u64) -> (r:
    LxdRequest)
    ensures
        r@ == api_request(
            method,
            path@,
            match body {
                Some(v) => Some(json::json_of(*v)),
                None => None,
            },
            timeout_secs,
        ),
{
    let full_path = "/".to_owned().concat(API_VERSION).concat(path);
    match body {
        Some(value) => {
            let payload = json::json_to_vec(value).unwrap();
            build_request(
                method,
                full_path.as_str(),
                payload,
                Some("application/json"),
                timeout_secs,
            )
        },
        None => build_request(method, full_path.as_str(), Vec::new(), None, timeout_secs),
    }
}

// ---------------------------------------------------------------------------
// Client
// ---------------------------------------------------------------------------

/// Whether the project is LXD's own default project.
pub open spec fn default_project(project: Seq<char>) -> bool {
    project.len() == 0 || project == "default"@
}

/// The query string that scopes a request to a project.
pub open spec fn project_suffix(project: Seq<char>, separator: Seq<char>) -> Seq<char> {
    if default_project(project) {
        Seq::empty()
    } else {
        separator + "project="@ + url_encoded(project)
    }
}

/// The path of an instance.
pub open spec fn instance_path(name: Seq<char>, rest: Seq<char>, project: Seq<char>) -> Seq<char> {
    "/instances/"@ + name + rest + project_suffix(project, "?"@)
}

/// A request that changes an instance or reads it, refused when the name is not
/// safe in a path.
pub open spec fn instance_request(
    name: Seq<char>,
    request: LxdRequestView,
) -> Result<LxdRequestView, LxdApiErrorView> {
    match name_check(name) {
        Ok(_) => Ok(request),
        Err(e) => Err(e),
    }
}

/// The body that starts an instance.
pub open spec fn start_body() -> json::Json {
    json::Json::Object(map!["action"@ => json::Json::Text("start"@)])
}

/// The body that stops an instance within a time.
pub open spec fn stop_body(timeout_secs: u32) -> json::Json {
    json::Json::Object(
        map![
            "action"@ => json::Json::Text("stop"@),
            "timeout"@ => json::Json::Number(text::decimal(timeout_secs as nat)),
            "force"@ => json::Json::Bool(false)
        ],
    )
}

/// The body that stops an instance at once.
pub open spec fn force_stop_body() -> json::Json {
    json::Json::Object(
        map!["action"@ => json::Json::Text("stop"@), "force"@ => json::Json::Bool(true)],
    )
}

/// The views of a list of texts.
pub open spec fn str_views(items: Seq<&str>) -> Seq<Seq<char>> {
    items.map_values(|s: &str| s@)
}

/// The body that runs a command in an instance.
pub open spec fn exec_body(command: Seq<Seq<char>>) -> json::Json {
    json::Json::Object(
        map![
            "command"@ => json::Json::Array(command.map_values(|s: Seq<char>| json::Json::Text(s))),
            "wait-for-websocket"@ => json::Json::Bool(false),
            "record-output"@ => json::Json::Bool(false)
        ],
    )
}

/// The body that creates a project whose instances are kept apart from other
/// workloads, while images, volumes and networks are shared.
pub open spec fn project_body(project: Seq<char>) -> json::Json {
    json::Json::Object(
        map![
            "name"@ => json::Json::Text(project),
            "description"@ => json::Json::Text("OpenShell sandbox instances"@),
            "config"@ => json::Json::Object(map![
                "features.images"@ => json::Json::Text("false"@),
                "features.profiles"@ => json::Json::Text("true"@),
                "features.storage.volumes"@ => json::Json::Text("false"@),
                "features.networks"@ => json::Json::Text("false"@)
            ])
        ],
    )
}

/// The request that creates an instance.
pub open spec fn create_call(spec: json::Json, project: Seq<char>) -> LxdRequestView {
    api_request(
        Method::Post,
        "/instances"@ + project_suffix(project, "?"@),
        Some(spec),
        300,
    )
}

/// The request that starts an instance.
pub open spec fn start_call(name: Seq<char>, project: Seq<char>) -> LxdRequestView {
    api_request(
        Method::Put,
        instance_path(name, "/state"@, project),
        Some(start_body()),
        API_TIMEOUT,
    )
}

/// The request that stops an instance within a time, with 10 seconds more for
/// the answer to arrive.
pub open spec fn stop_call(name: Seq<char>, timeout_secs: u32, project: Seq<char>) -> LxdRequestView {
    api_request(
        Method::Put,
        instance_path(name, "/state"@, project),
        Some(stop_body(timeout_secs)),
        (timeout_secs + 10) as u64,
    )
}

/// The request that stops an instance at once.
pub open spec fn force_stop_call(name: Seq<char>, project: Seq<char>) -> LxdRequestView {
    api_request(
        Method::Put,
        instance_path(name, "/state"@, project),
        Some(force_stop_body()),
        API_TIMEOUT,
    )
}

/// The request that deletes an instance.
pub open spec fn delete_call(name: Seq<char>, project: Seq<char>) -> LxdRequestView {
    api_request(Method::Delete, instance_path(name, Seq::empty(), project), None, API_TIMEOUT)
}

/// The request that reads the metadata of an instance.
pub open spec fn get_call(name: Seq<char>, project: Seq<char>) -> LxdRequestView {
    api_request(Method::Get, instance_path(name, Seq::empty(), project), None, API_TIMEOUT)
}

/// The request that reads the state of an instance.
pub open spec fn state_call(name: Seq<char>, project: Seq<char>) -> LxdRequestView {
    api_request(Method::Get, instance_path(name, "/state"@, project), None, API_TIMEOUT)
}

/// The request that lists all instances with their metadata.
pub open spec fn list_call(project: Seq<char>) -> LxdRequestView {
    api_request(
        Method::Get,
        "/instances?recursion=1"@ + project_suffix(project, "&"@),
        None,
        API_TIMEOUT,
    )
}

/// The request that runs a command in an instance.
pub open spec fn exec_call(
    name: Seq<char>,
    command: Seq<Seq<char>>,
    project: Seq<char>,
) -> LxdRequestView {
    api_request(
        Method::Post,
        instance_path(name, "/exec"@, project),
        Some(exec_body(command)),
        API_TIMEOUT,
    )
}

/// The request that pushes a file into an instance.
pub open spec fn push_request(
    name: Seq<char>,
    path: Seq<char>,
    content: Seq<u8>,
    mode: Seq<char>,
    project: Seq<char>,
) -> LxdRequestView {
    let base = raw_request(
        Method::Post,
        "/"@ + API_VERSION@ + "/instances/"@ + name + "/files?path="@ + url_encoded(path)
            + project_suffix(project, "&"@),
        content,
        Some("application/octet-stream"@),
        API_TIMEOUT,
    );
    LxdRequestView {
        headers: base.headers.push(("X-LXD-type"@, "file"@)).push(("X-LXD-mode"@, mode)),
        ..base
    }
}

/// The request for the root of the API.
pub open spec fn ping_call() -> LxdRequestView {
    raw_request(Method::Get, "/"@ + API_VERSION@, Seq::empty(), None, API_TIMEOUT)
}

/// The request for the server information.
pub open spec fn info_call() -> LxdRequestView {
    api_request(Method::Get, Seq::empty(), None, API_TIMEOUT)
}

/// The request that looks a project up.
pub open spec fn find_project_call(project: Seq<char>) -> LxdRequestView {
    api_request(Method::Get, "/projects/"@ + url_encoded(project), None, API_TIMEOUT)
}

/// The request that creates a project.
pub open spec fn make_project_call(project: Seq<char>) -> LxdRequestView {
    api_request(Method::Post, "/projects"@, Some(project_body(project)), API_TIMEOUT)
}

/// The request that subscribes to lifecycle events.
pub open spec fn events_call(project: Seq<char>) -> LxdRequestView {
    raw_request(
        Method::Get,
        "/"@ + API_VERSION@ + "/events?type=lifecycle"@ + project_suffix(project, "&"@),
        Seq::empty(),
        None,
        API_TIMEOUT,
    )
}

/// What to do next to have the project of a client in place.
pub enum ProjectStep {
    /// Look the project up.
    Lookup(LxdRequest),
    /// Create the project, and wait for it.
    Create(LxdRequest),
    /// There is nothing left to do.
    Done(Result<(), LxdApiError>),
}

pub enum ProjectStepView {
    Lookup(LxdRequestView),
    Create(LxdRequestView),
    Done(Result<(), LxdApiErrorView>),
}

impl View for ProjectStep {
    type V = ProjectStepView;

    open spec fn view(&self) -> ProjectStepView {
        match self {
            ProjectStep::Lookup(q) => ProjectStepView::Lookup(q@),
            ProjectStep::Create(q) => ProjectStepView::Create(q@),
            ProjectStep::Done(r) => ProjectStepView::Done(outcome(*r)),
        }
    }
}

/// A client of the LXD REST API on a Unix socket.
pub struct LxdClient {
    pub socket_path: String,
    /// LXD project that all instance operations are scoped to.
    pub project: String,
}

impl Clone for LxdClient {
    fn clone(&self) -> (r: Self)
        ensures
            r == *self,
    {
        LxdClient { socket_path: self.socket_path.clone(), project: self.project.clone() }
    }
}

impl LxdClient {
    /// A client for the given socket path and project.
    pub fn new(socket_path: String, project: String) -> (r: Self)
        ensures
            r.socket_path@ == socket_path@,
            r.project@ == project@,
    {
        LxdClient { socket_path, project }
    }

    fn has_default_project(&self) -> (r: bool)
        ensures
            r == default_project(self.project@),
    {
        self.project.as_str().is_empty() || text::same(self.project.as_str(), "default")
    }

    /// The query-string suffix that scopes requests to the configured project:
    /// `?project=<name>`, or nothing for the default project.
    pub fn project_query(&self) -> (r: String)
        ensures
            r@ == project_suffix(self.project@, "?"@),
    {
        if self.has_default_project() {
            String::new()
        } else {
            "?".to_owned().concat("project=").concat(url_encode(self.project.as_str()).as_str())
        }
    }

    /// Like [`LxdClient::project_query`], for paths that already have query
    /// parameters.
    pub fn project_query_extra(&self) -> (r: String)
        ensures
            r@ == project_suffix(self.project@, "&"@),
    {
        if self.has_default_project() {
            String::new()
        } else {
            "&".to_owned().concat("project=").concat(url_encode(self.project.as_str()).as_str())
        }
    }

    /// Creates an instance from a JSON specification.
    pub fn create_instance(&self, spec: &Value) -> (r: LxdRequest)
        ensures
            r@ == create_call(json::json_of(*spec), self.project@),
    {
        let path = "/instances".to_owned().concat(self.project_query().as_str());
        request(Method::Post, path.as_str(), Some(spec), 300)
    }

    fn instance_path(&self, name: &str, rest: &str) -> (r: String)
        ensures
            r@ == instance_path(name@, rest@, self.project@),
    {
        "/instances/".to_owned().concat(name).concat(rest).concat(self.project_query().as_str())
    }

    /// Starts an instance.
    pub fn start_instance(&self, name: &str) -> (r: Result<LxdRequest, LxdApiError>)
        ensures
            request_outcome(r) == instance_request(
                name@,
                start_call(name@, self.project@),
            ),
    {
        match validate_name(name) {
            Err(e) => Err(e),
            Ok(()) => {
                let mut body = json::no_members();
                json::add_text(&mut body, "action", "start");
                let body = json::json_object(body);
                let path = self.instance_path(name, "/state");
                Ok(request(Method::Put, path.as_str(), Some(&body), API_TIMEOUT))
            },
        }
    }

    /// Stops an instance, and waits for it up to a time.
    pub fn stop_instance(&self, name: &str, timeout_secs: u32) -> (r: Result<
        LxdRequest,
        LxdApiError,
    >)
        ensures
            request_outcome(r) == instance_request(
                name@,
                stop_call(name@, timeout_secs, self.project@),
            ),
    {
        match validate_name(name) {
            Err(e) => Err(e),
            Ok(()) => {
                let mut body = json::no_members();
                json::add_text(&mut body, "action", "stop");
                json::add_member(&mut body, "timeout".to_owned(), json::json_number(timeout_secs));
                json::add_member(&mut body, "force".to_owned(), json::json_bool(false));
                let body = json::json_object(body);
                let path = self.instance_path(name, "/state");
                let http_timeout: u64 = timeout_secs as u64 + 10;
                Ok(request(Method::Put, path.as_str(), Some(&body), http_timeout))
            },
        }
    }

    /// Stops an instance at once.
    pub fn force_stop_instance(&self, name: &str) -> (r: Result<LxdRequest, LxdApiError>)
        ensures
            request_outcome(r) == instance_request(
                name@,
                force_stop_call(name@, self.project@),
            ),
    {
        match validate_name(name) {
            Err(e) => Err(e),
            Ok(()) => {
                let mut body = json::no_members();
                json::add_text(&mut body, "action", "stop");
                json::add_member(&mut body, "force".to_owned(), json::json_bool(true));
                let body = json::json_object(body);
                let path = self.instance_path(name, "/state");
                Ok(request(Method::Put, path.as_str(), Some(&body), API_TIMEOUT))
            },
        }
    }

    /// Deletes an instance.
    pub fn delete_instance(&self, name: &str) -> (r: Result<LxdRequest, LxdApiError>)
        ensures
            request_outcome(r) == instance_request(
                name@,
                delete_call(name@, self.project@),
            ),
    {
        match validate_name(name) {
            Err(e) => Err(e),
            Ok(()) => {
                let path = self.instance_path(name, String::new().as_str());
                Ok(request(Method::Delete, path.as_str(), None, API_TIMEOUT))
            },
        }
    }

    /// Reads the metadata of an instance.
    pub fn get_instance(&self, name: &str) -> (r: Result<LxdRequest, LxdApiError>)
        ensures
            request_outcome(r) == instance_request(
                name@,
                get_call(name@, self.project@),
            ),
    {
        match validate_name(name) {
            Err(e) => Err(e),
            Ok(()) => {
                let path = self.instance_path(name, String::new().as_str());
                Ok(request(Method::Get, path.as_str(), None, API_TIMEOUT))
            },
        }
    }

    /// Reads the state of an instance: running status, network and so on.
    pub fn get_instance_state(&self, name: &str) -> (r: Result<LxdRequest, LxdApiError>)
        ensures
            request_outcome(r) == instance_request(
                name@,
                state_call(name@, self.project@),
            ),
    {
        match validate_name(name) {
            Err(e) => Err(e),
            Ok(()) => {
                let path = self.instance_path(name, "/state");
                Ok(request(Method::Get, path.as_str(), None, API_TIMEOUT))
            },
        }
    }

    /// Lists all instances with their metadata.
    pub fn list_instances(&self) -> (r: LxdRequest)
        ensures
            r@ == list_call(self.project@),
    {
        let path = "/instances?recursion=1".to_owned().concat(self.project_query_extra().as_str());
        request(Method::Get, path.as_str(), None, API_TIMEOUT)
    }

    /// Runs a command inside an instance.
    pub fn exec_instance(&self, name: &str, command: &[&str]) -> (r: Result<
        LxdRequest,
        LxdApiError,
    >)
        ensures
            request_outcome(r) == instance_request(
                name@,
                exec_call(name@, str_views(command@), self.project@),
            ),
    {
        match validate_name(name) {
            Err(e) => Err(e),
            Ok(()) => {
                let mut words: Vec<Value> = Vec::new();
                let mut i: usize = 0;
                while i < command.len()
                    invariant
                        i <= command.len(),
                        words.len() == i,
                        forall|j: int|
                            0 <= j < i ==> json::json_of(#[trigger] words@[j]) == json::Json::Text(
                                command@[j]@,
                            ),
                    decreases command.len() - i,
                {
                    words.push(json::json_string(command[i].to_owned()));
                    i = i + 1;
                }
                proof {
                    assert(words@.map_values(|v: Value| json::json_of(v)) =~= str_views(
                        command@,
                    ).map_values(|s: Seq<char>| json::Json::Text(s)));
                }
                let mut body = json::no_members();
                json::add_member(&mut body, "command".to_owned(), json::json_array(words));
                json::add_member(
                    &mut body,
                    "wait-for-websocket".to_owned(),
                    json::json_bool(false),
                );
                json::add_member(&mut body, "record-output".to_owned(), json::json_bool(false));
                let body = json::json_object(body);
                let path = self.instance_path(name, "/exec");
                Ok(request(Method::Post, path.as_str(), Some(&body), API_TIMEOUT))
            },
        }
    }

    /// Pushes a file into an instance.
    pub fn push_file(&self, name: &str, path: &str, content: &[u8], mode: &str) -> (r: Result<
        LxdRequest,
        LxdApiError,
    >)
        ensures
            request_outcome(r) == instance_request(
                name@,
                push_request(name@, path@, content@, mode@, self.project@),
            ),
    {
        match validate_name(name) {
            Err(e) => Err(e),
            Ok(()) => {
                let req_path = "/".to_owned().concat(API_VERSION).concat("/instances/").concat(
                    name,
                ).concat("/files?path=").concat(url_encode(path).as_str()).concat(
                    self.project_query_extra().as_str(),
                );
                let mut r = build_request(
                    Method::Post,
                    req_path.as_str(),
                    vstd::slice::slice_to_vec(content),
                    Some("application/octet-stream"),
                    API_TIMEOUT,
                );
                let ghost base = r@;
                r.headers.push(("X-LXD-type".to_owned(), "file".to_owned()));
                r.headers.push(("X-LXD-mode".to_owned(), mode.to_owned()));
                proof {
                    assert(r@.headers =~= base.headers.push(("X-LXD-type"@, "file"@)).push(
                        ("X-LXD-mode"@, mode@),
                    ));
                }
                Ok(r)
            },
        }
    }

    /// Asks for the root of the API, to see whether the daemon answers.
    pub fn ping(&self) -> (r: LxdRequest)
        ensures
            r@ == ping_call(),
    {
        let path = "/".to_owned().concat(API_VERSION);
        build_request(Method::Get, path.as_str(), Vec::new(), None, API_TIMEOUT)
    }

    /// Asks for the server information.
    pub fn server_info(&self) -> (r: LxdRequest)
        ensures
            r@ == info_call(),
    {
        request(Method::Get, String::new().as_str(), None, API_TIMEOUT)
    }

    /// The first step to have the configured project in place: look it up,
    /// unless it is the default project, which is always there.
    pub fn ensure_project(&self) -> (r: ProjectStep)
        ensures
            r@ == (if default_project(self.project@) {
                ProjectStepView::Done(Ok(()))
            } else {
                ProjectStepView::Lookup(find_project_call(self.project@))
            }),
    {
        if self.has_default_project() {
            return ProjectStep::Done(Ok(()));
        }
        let path = "/projects/".to_owned().concat(url_encode(self.project.as_str()).as_str());
        ProjectStep::Lookup(request(Method::Get, path.as_str(), None, API_TIMEOUT))
    }

    /// The step after the lookup: create the project when it was not found.
    pub fn after_project_lookup(&self, found: Result<(), LxdApiError>) -> (r: ProjectStep)
        ensures
            r@ == (match outcome(found) {
                Ok(_) => ProjectStepView::Done(Ok(())),
                Err(LxdApiErrorView::NotFound(_)) => ProjectStepView::Create(
                    make_project_call(self.project@),
                ),
                Err(e) => ProjectStepView::Done(Err(e)),
            }),
    {
        match found {
            Ok(()) => ProjectStep::Done(Ok(())),
            Err(LxdApiError::NotFound(_)) => {
                let mut config = json::no_members();
                json::add_text(&mut config, "features.images", "false");
                json::add_text(&mut config, "features.profiles", "true");
                json::add_text(&mut config, "features.storage.volumes", "false");
                json::add_text(&mut config, "features.networks", "false");
                let mut body = json::no_members();
                json::add_text(&mut body, "name", self.project.as_str());
                json::add_text(&mut body, "description", "OpenShell sandbox instances");
                json::add_member(&mut body, "config".to_owned(), json::json_object(config));
                let body = json::json_object(body);
                ProjectStep::Create(request(Method::Post, "/projects", Some(&body), API_TIMEOUT))
            },
            Err(e) => ProjectStep::Done(Err(e)),
        }
    }

    /// Subscribes to lifecycle events.
    pub fn events_stream(&self) -> (r: LxdRequest)
        ensures
            r@ == events_call(self.project@),
    {
        let path = "/".to_owned().concat(API_VERSION).concat("/events?type=lifecycle").concat(
            self.project_query_extra().as_str(),
        );
        build_request(Method::Get, path.as_str(), Vec::new(), None, API_TIMEOUT)
    }
}

/// What became of the project after an attempt to create it. A conflict means
/// that another process created it at the same time.
pub fn after_project_create(created: Result<(), LxdApiError>) -> (r: Result<(), LxdApiError>)
    ensures
        outcome(r) == (match outcome(created) {
            Err(LxdApiErrorView::Conflict(_)) => Ok(()),
            other => other,
        }),
{
    match created {
        Ok(()) => Ok(()),
        Err(LxdApiError::Conflict(_)) => Ok(()),
        Err(e) => Err(e),
    }
}

// ---------------------------------------------------------------------------
// Replies
// ---------------------------------------------------------------------------

/// Whether an HTTP status code stands for success.
pub open spec fn success(status: u16) -> bool {
    200 <= status < 300
}

/// The error that an error code stands for.
pub open spec fn code_error(code: u16, message: Seq<char>) -> LxdApiErrorView {
    if code == 404 {
        LxdApiErrorView::NotFound(message)
    } else if code == 409 {
        LxdApiErrorView::Conflict(message)
    } else {
        LxdApiErrorView::Api { status: code, message }
    }
}

/// The error that an LXD error code stands for.
pub fn error_from_lxd(code: u16, message: &str) -> (r: LxdApiError)
    ensures
        r@ == code_error(code, message@),
{
    if code == 404 {
        LxdApiError::NotFound(message.to_owned())
    } else if code == 409 {
        LxdApiError::Conflict(message.to_owned())
    } else {
        LxdApiError::Api { status: code, message: message.to_owned() }
    }
}

/// The text in the `error` member of a JSON value.
pub open spec fn error_member(value: Option<json::Json>) -> Option<Seq<char>> {
    match value {
        Some(v) => match json::member(v, "error"@) {
            Some(e) => json::text_of(e),
            None => None,
        },
        None => None,
    }
}

/// What the body of a failed reply says: its `error` member when the body is a
/// JSON object with such a text, and otherwise the body as it is.
pub open spec fn body_message(bytes: Seq<u8>) -> Seq<char> {
    match error_member(json::json_parsed(bytes)) {
        Some(m) => m,
        None => platform::utf8_lossy(bytes),
    }
}

/// Reads the `error` member of a JSON value that may be absent.
pub fn error_field(value: Option<Value>) -> (r: Option<String>)
    ensures
        r is Some == (error_member(
            match value {
                Some(v) => Some(json::json_of(v)),
                None => None,
            },
        ) is Some),
        r matches Some(m) ==> Some(m@) == error_member(
            match value {
                Some(v) => Some(json::json_of(v)),
                None => None,
            },
        ),
{
    match value {
        Some(v) => match json::json_get(&v, "error") {
            Some(e) => match json::json_as_str(e) {
                Some(m) => Some(m.to_owned()),
                None => None,
            },
            None => None,
        },
        None => None,
    }
}

/// The error that a reply with a failure status stands for.
pub fn error_from_response(status: u16, bytes: &[u8]) -> (r: LxdApiError)
    ensures
        r@ == code_error(status, body_message(bytes@)),
{
    let value = match json::json_from_slice(bytes) {
        Ok(v) => Some(v),
        Err(_) => None,
    };
    let message = match error_field(value) {
        Some(m) => m,
        None => platform::text_from_utf8_lossy(bytes),
    };
    error_from_lxd(status, message.as_str())
}

/// The error for a body that could not be read as the expected JSON.
pub open spec fn unreadable(error: Seq<char>, bytes: Seq<u8>) -> LxdApiErrorView {
    LxdApiErrorView::Json(error + ": "@ + platform::utf8_lossy(bytes))
}

/// The error for bytes that could not be read as the expected JSON.
pub fn json_error(error: &str, bytes: &[u8]) -> (r: LxdApiError)
    ensures
        r@ == unreadable(error@, bytes@),
{
    LxdApiError::Json(
        error.to_owned().concat(": ").concat(platform::text_from_utf8_lossy(bytes).as_str()),
    )
}

/// An answer to a request: the status code and the body.
pub struct LxdReply {
    pub status: u16,
    pub body: Vec<u8>,
}

/// The text of an optional string, empty when it is absent.
pub open spec fn text_or_empty(s: Option<String>) -> Seq<char> {
    match s {
        Some(t) => t@,
        None => Seq::empty(),
    }
}

/// The error that a wrapper reports, when it does. Codes are cut to 16 bits.
pub open spec fn wrapper_error<T>(wrapper: LxdResponse<T>) -> Option<LxdApiErrorView> {
    match wrapper.error_code {
        Some(code) => if code >= 400 {
            Some(code_error((code as int % 0x1_0000) as u16, text_or_empty(wrapper.error)))
        } else {
            None
        },
        None => None,
    }
}

/// The wrapper that a reply holds, or the error that it stands for. `parsed` is
/// the body read as JSON, or the complaint of the JSON reader.
pub open spec fn reply_wrapper<T>(
    reply: LxdReply,
    parsed: Result<LxdResponse<T>, String>,
) -> Result<LxdResponse<T>, LxdApiErrorView> {
    if !success(reply.status) {
        Err(code_error(reply.status, body_message(reply.body@)))
    } else {
        match parsed {
            Err(e) => Err(unreadable(e@, reply.body@)),
            Ok(wrapper) => Ok(wrapper),
        }
    }
}

/// What a reply to a request for data stands for: the metadata in the wrapper,
/// or the error.
pub open spec fn reply_metadata<T>(
    reply: LxdReply,
    parsed: Result<LxdResponse<T>, String>,
) -> Result<T, LxdApiErrorView> {
    match reply_wrapper(reply, parsed) {
        Err(e) => Err(e),
        Ok(wrapper) => match wrapper_error(wrapper) {
            Some(e) => Err(e),
            None => match wrapper.metadata {
                Some(t) => Ok(t),
                None => Err(LxdApiErrorView::Json("response missing metadata field"@)),
            },
        },
    }
}

/// Reads the error that a wrapper reports.
fn error_of_wrapper(error_code: Option<i32>, error: Option<String>) -> (r: Option<LxdApiError>)
    ensures
        match error_code {
            Some(code) => if code >= 400 {
                r is Some && r->0@ == code_error(
                    (code as int % 0x1_0000) as u16,
                    text_or_empty(error),
                )
            } else {
                r is None
            },
            None => r is None,
        },
{
    match error_code {
        Some(code) => if code >= 400 {
            let message = match error {
                Some(m) => m,
                None => String::new(),
            };
            let low: i32 = code % 0x1_0000;
            Some(error_from_lxd(low as u16, message.as_str()))
        } else {
            None
        },
        None => None,
    }
}

/// Takes the metadata out of a reply to a request for data.
pub fn request_json<T>(reply: LxdReply, parsed: Result<LxdResponse<T>, String>) -> (r: Result<
    T,
    LxdApiError,
>)
    ensures
        outcome(r) == reply_metadata(reply, parsed),
{
    if reply.status < 200 || reply.status >= 300 {
        return Err(error_from_response(reply.status, reply.body.as_slice()));
    }
    match parsed {
        Err(e) => Err(json_error(e.as_str(), reply.body.as_slice())),
        Ok(wrapper) => match error_of_wrapper(wrapper.error_code, wrapper.error) {
            Some(e) => Err(e),
            None => match wrapper.metadata {
                Some(t) => Ok(t),
                None => Err(LxdApiError::Json("response missing metadata field".to_owned())),
            },
        },
    }
}

/// What to do after the first reply to a request that starts an operation.
pub enum CallStep {
    /// The call is over.
    Finished(Result<(), LxdApiError>),
    /// Wait for the operation by sending this request.
    Wait(LxdRequest),
}

pub enum CallStepView {
    Finished(Result<(), LxdApiErrorView>),
    Wait(LxdRequestView),
}

impl View for CallStep {
    type V = CallStepView;

    open spec fn view(&self) -> CallStepView {
        match self {
            CallStep::Finished(r) => CallStepView::Finished(outcome(*r)),
            CallStep::Wait(q) => CallStepView::Wait(q@),
        }
    }
}

/// The path of an operation below the API version. The daemon names an operation
/// by its full path, `/1.0/operations/<uuid>`.
pub open spec fn operation_path(operation_url: Seq<char>) -> Seq<char> {
    match text::stripped(operation_url, "/"@ + API_VERSION@) {
        Some(rest) => rest,
        None => operation_url,
    }
}

/// The request that waits for an operation: for as long as the call may take but
/// at least 30 seconds, with 5 seconds more for the answer to arrive.
pub open spec fn wait_request(operation_url: Seq<char>, timeout_secs: u64) -> LxdRequestView {
    api_request(
        Method::Get,
        operation_path(operation_url) + "/wait?timeout="@ + text::decimal(
            if timeout_secs < 30 {
                30
            } else {
                timeout_secs as nat
            },
        ),
        None,
        (timeout_secs + 5) as u64,
    )
}

/// Waits for an asynchronous operation to complete.
pub fn wait_for_operation(operation_url: &str, timeout_secs: u64) -> (r: LxdRequest)
    requires
        timeout_secs <= u64::MAX - 5,
    ensures
        r@ == wait_request(operation_url@, timeout_secs),
{
    let wait_secs: u64 = if timeout_secs < 30 {
        30
    } else {
        timeout_secs
    };
    let version = "/".to_owned().concat(API_VERSION);
    let operation = match text::strip_prefix(operation_url, version.as_str()) {
        Some(rest) => rest.to_owned(),
        None => operation_url.to_owned(),
    };
    let path = operation.concat("/wait?timeout=").concat(text::u64_text(wait_secs).as_str());
    request(Method::Get, path.as_str(), None, timeout_secs + 5)
}

/// The step after the first reply to a request that starts an operation: a
/// synchronous answer completes the call, an asynchronous one names an operation
/// to wait for.
pub open spec fn submit_step<T>(
    reply: LxdReply,
    parsed: Result<LxdResponse<T>, String>,
    timeout_secs: u64,
) -> CallStepView {
    match reply_wrapper(reply, parsed) {
        Err(e) => CallStepView::Finished(Err(e)),
        Ok(wrapper) => match wrapper_error(wrapper) {
            Some(e) => CallStepView::Finished(Err(e)),
            None => if wrapper.response_type@ == "sync"@ {
                CallStepView::Finished(Ok(()))
            } else {
                match wrapper.operation {
                    Some(operation) => CallStepView::Wait(wait_request(operation@, timeout_secs)),
                    None => CallStepView::Finished(Ok(())),
                }
            },
        },
    }
}

/// Reads the first reply to a request that starts an operation.
pub fn request_and_wait<T>(
    reply: LxdReply,
    parsed: Result<LxdResponse<T>, String>,
    timeout_secs: u64,
) -> (r: CallStep)
    requires
        timeout_secs <= u64::MAX - 5,
    ensures
        r@ == submit_step(reply, parsed, timeout_secs),
{
    if reply.status < 200 || reply.status >= 300 {
        return CallStep::Finished(Err(error_from_response(reply.status, reply.body.as_slice())));
    }
    match parsed {
        Err(e) => CallStep::Finished(Err(json_error(e.as_str(), reply.body.as_slice()))),
        Ok(wrapper) => {
            if let Some(e) = error_of_wrapper(wrapper.error_code, wrapper.error) {
                return CallStep::Finished(Err(e));
            }
            if text::same(wrapper.response_type.as_str(), "sync") {
                return CallStep::Finished(Ok(()));
            }
            match wrapper.operation {
                Some(operation) => CallStep::Wait(
                    wait_for_operation(operation.as_str(), timeout_secs),
                ),
                None => CallStep::Finished(Ok(())),
            }
        },
    }
}

/// The text of an optional string, or what stands in for it.
pub open spec fn text_or(s: Option<String>, otherwise: Seq<char>) -> Seq<char> {
    match s {
        Some(t) => t@,
        None => otherwise,
    }
}

/// What the reply to a wait request says of the operation.
pub open spec fn wait_result(
    reply: LxdReply,
    parsed: Result<LxdResponse<OperationStatus>, String>,
) -> Result<(), LxdApiErrorView> {
    match reply_wrapper(reply, parsed) {
        Err(e) => Err(e),
        Ok(wrapper) => match wrapper.metadata {
            Some(meta) => if meta.status_code >= 400 {
                Err(
                    LxdApiErrorView::OperationFailed(
                        "operation "@ + text_or(meta.description, "unknown"@) + ": "@ + text_or(
                            meta.err,
                            "failed"@,
                        ) + " (code "@ + text::signed_decimal(meta.status_code as int) + ")"@,
                    ),
                )
            } else {
                Ok(())
            },
            None => Ok(()),
        },
    }
}

fn string_or(s: Option<String>, otherwise: &str) -> (r: String)
    ensures
        r@ == text_or(s, otherwise@),
{
    match s {
        Some(t) => t,
        None => otherwise.to_owned(),
    }
}

/// Reads the reply to a wait request.
pub fn operation_result(
    reply: LxdReply,
    parsed: Result<LxdResponse<OperationStatus>, String>,
) -> (r: Result<(), LxdApiError>)
    ensures
        outcome(r) == wait_result(reply, parsed),
{
    if reply.status < 200 || reply.status >= 300 {
        return Err(error_from_response(reply.status, reply.body.as_slice()));
    }
    match parsed {
        Err(e) => Err(json_error(e.as_str(), reply.body.as_slice())),
        Ok(wrapper) => match wrapper.metadata {
            Some(meta) => if meta.status_code >= 400 {
                let code = text::i32_text(meta.status_code);
                Err(
                    LxdApiError::OperationFailed(
                        "operation ".to_owned().concat(
                            string_or(meta.description, "unknown").as_str(),
                        ).concat(": ").concat(string_or(meta.err, "failed").as_str()).concat(
                            " (code ",
                        ).concat(code.as_str()).concat(")"),
                    ),
                )
            } else {
                Ok(())
            },
            None => Ok(()),
        },
    }
}

/// Reads a reply of which only the status counts.
pub fn status_result(status: u16, message: &str) -> (r: Result<(), LxdApiError>)
    ensures
        outcome(r) == (if success(status) {
            Ok(())
        } else {
            Err(LxdApiErrorView::Api { status, message: message@ })
        }),
{
    if status < 200 || status >= 300 {
        Err(LxdApiError::Api { status, message: message.to_owned() })
    } else {
        Ok(())
    }
}

/// Reads the reply to [`LxdClient::ping`].
pub fn ping_result(status: u16) -> (r: Result<(), LxdApiError>)
    ensures
        outcome(r) == (if success(status) {
            Ok(())
        } else {
            Err(LxdApiErrorView::Api { status, message: "ping failed"@ })
        }),
{
    status_result(status, "ping failed")
}

/// Reads the reply to [`LxdClient::push_file`].
pub fn push_result(reply: LxdReply) -> (r: Result<(), LxdApiError>)
    ensures
        outcome(r) == (if success(reply.status) {
            Ok(())
        } else {
            Err(code_error(reply.status, body_message(reply.body@)))
        }),
{
    if reply.status < 200 || reply.status >= 300 {
        Err(error_from_response(reply.status, reply.body.as_slice()))
    } else {
        Ok(())
    }
}

/// Reads the head of the reply to [`LxdClient::events_stream`].
pub fn events_result(status: u16) -> (r: Result<(), LxdApiError>)
    ensures
        outcome(r) == (if success(status) {
            Ok(())
        } else {
            Err(LxdApiErrorView::Api { status, message: "events stream request failed"@ })
        }),
{
    status_result(status, "events stream request failed")
}

// ---------------------------------------------------------------------------
// Event stream
// ---------------------------------------------------------------------------

/// The lines in a byte sequence that are complete and not empty, and the bytes
/// after the last line break.
pub open spec fn split_lines(bytes: Seq<u8>) -> (Seq<Seq<u8>>, Seq<u8>)
    decreases bytes.len(),
{
    if bytes.len() == 0 {
        (Seq::empty(), Seq::empty())
    } else {
        let (lines, open_line) = split_lines(bytes.drop_last());
        if bytes.last() != 10 {
            (lines, open_line.push(bytes.last()))
        } else if open_line.len() == 0 {
            (lines, Seq::empty())
        } else {
            (lines.push(open_line), Seq::empty())
        }
    }
}

/// The views of a list of lines.
pub open spec fn line_views(lines: Seq<Vec<u8>>) -> Seq<Seq<u8>> {
    lines.map_values(|l: Vec<u8>| l@)
}

/// The bytes of the event stream that do not make a complete line yet.
pub struct EventBuffer {
    pub buffer: Vec<u8>,
}

impl EventBuffer {
    /// An empty buffer.
    pub fn new() -> (r: Self)
        ensures
            r.buffer@ == Seq::<u8>::empty(),
    {
        EventBuffer { buffer: Vec::new() }
    }

    /// Takes the next bytes of the stream and returns the lines that they
    /// complete. When what has piled up exceeds [`MAX_EVENT_BUFFER`], the stream
    /// is to be dropped.
    pub fn feed(&mut self, data: &[u8]) -> (r: Result<Vec<Vec<u8>>, LxdApiError>)
        ensures
            (old(self).buffer@ + data@).len() > MAX_EVENT_BUFFER ==> {
                &&& r matches Err(e) && e@ == LxdApiErrorView::Connection(
                    "event buffer exceeded 1 MB limit"@,
                )
                &&& final(self).buffer@ == old(self).buffer@ + data@
            },
            (old(self).buffer@ + data@).len() <= MAX_EVENT_BUFFER ==> {
                &&& r matches Ok(lines) && line_views(lines@) == split_lines(
                    old(self).buffer@ + data@,
                ).0
                &&& final(self).buffer@ == split_lines(old(self).buffer@ + data@).1
            },
    {
        let ghost all = self.buffer@ + data@;
        let mut i: usize = 0;
        while i < data.len()
            invariant
                i <= data.len(),
                self.buffer@ == old(self).buffer@ + data@.take(i as int),
            decreases data.len() - i,
        {
            self.buffer.push(data[i]);
            i = i + 1;
            proof {
                assert(self.buffer@ =~= old(self).buffer@ + data@.take(i as int));
            }
        }
        proof {
            assert(data@.take(data@.len() as int) =~= data@);
        }
        if self.buffer.len() > MAX_EVENT_BUFFER {
            return Err(LxdApiError::Connection("event buffer exceeded 1 MB limit".to_owned()));
        }
        let mut lines: Vec<Vec<u8>> = Vec::new();
        let mut open_line: Vec<u8> = Vec::new();
        let mut k: usize = 0;
        proof {
            assert(all.take(0) =~= Seq::empty());
            assert(line_views(lines@) =~= Seq::empty());
        }
        while k < self.buffer.len()
            invariant
                k <= self.buffer.len(),
                self.buffer@ == all,
                line_views(lines@) == split_lines(all.take(k as int)).0,
                open_line@ == split_lines(all.take(k as int)).1,
            decreases self.buffer.len() - k,
        {
            let b = self.buffer[k];
            let ghost before = lines@;
            proof {
                assert(all.take(k + 1).drop_last() =~= all.take(k as int));
            }
            if b != 10 {
                open_line.push(b);
            } else if open_line.len() > 0 {
                lines.push(open_line);
                proof {
                    assert(line_views(lines@) =~= line_views(before).push(
                        split_lines(all.take(k as int)).1,
                    ));
                }
                open_line = Vec::new();
            }
            k = k + 1;
        }
        proof {
            assert(all.take(all.len() as int) =~= all);
        }
        self.buffer = open_line;
        Ok(lines)
    }

    /// Takes what the connection gives next, and says what comes of it. The
    /// lines are to be read in order, each handed to [`event_item`], before the
    /// end of the stream is told.
    pub fn after_frame(&mut self, frame: StreamFrame) -> (r: FrameStep)
        ensures
            r@ == frame_step(old(self).buffer@, frame@).0,
            final(self).buffer@ == frame_step(old(self).buffer@, frame@).1,
    {
        let mut lines: Vec<Vec<u8>> = Vec::new();
        proof {
            assert(line_views(lines@) =~= Seq::empty());
        }
        match frame {
            StreamFrame::Data(data) => match self.feed(data.as_slice()) {
                Ok(lines) => FrameStep { lines, end: None },
                Err(e) => FrameStep { lines, end: Some(Err(e)) },
            },
            StreamFrame::Failed(message) => FrameStep {
                lines,
                end: Some(Err(LxdApiError::Connection(message))),
            },
            StreamFrame::Ended => FrameStep { lines, end: Some(Ok(())) },
        }
    }
}

/// What the connection of the event stream gives.
pub enum StreamFrame {
    /// More bytes. A frame without data has none.
    Data(Vec<u8>),
    /// The connection broke.
    Failed(String),
    /// The daemon closed the stream.
    Ended,
}

pub enum StreamFrameView {
    Data(Seq<u8>),
    Failed(Seq<char>),
    Ended,
}

impl View for StreamFrame {
    type V = StreamFrameView;

    open spec fn view(&self) -> StreamFrameView {
        match self {
            StreamFrame::Data(data) => StreamFrameView::Data(data@),
            StreamFrame::Failed(message) => StreamFrameView::Failed(message@),
            StreamFrame::Ended => StreamFrameView::Ended,
        }
    }
}

/// What comes of a frame.
pub struct FrameStep {
    /// The lines that are complete now.
    pub lines: Vec<Vec<u8>>,
    /// Whether the stream is over: with nothing more to tell, or with an error as
    /// its last item.
    pub end: Option<Result<(), LxdApiError>>,
}

pub struct FrameStepView {
    pub lines: Seq<Seq<u8>>,
    pub end: Option<Result<(), LxdApiErrorView>>,
}

impl View for FrameStep {
    type V = FrameStepView;

    open spec fn view(&self) -> FrameStepView {
        FrameStepView {
            lines: line_views(self.lines@),
            end: match self.end {
                None => None,
                Some(r) => Some(outcome(r)),
            },
        }
    }
}

/// What comes of a frame after the given bytes were left over, and what is left
/// over then.
pub open spec fn frame_step(rest: Seq<u8>, frame: StreamFrameView) -> (FrameStepView, Seq<u8>) {
    match frame {
        StreamFrameView::Data(data) => if (rest + data).len() > MAX_EVENT_BUFFER {
            (
                FrameStepView {
                    lines: Seq::empty(),
                    end: Some(
                        Err(LxdApiErrorView::Connection("event buffer exceeded 1 MB limit"@)),
                    ),
                },
                rest + data,
            )
        } else {
            (
                FrameStepView { lines: split_lines(rest + data).0, end: None },
                split_lines(rest + data).1,
            )
        },
        StreamFrameView::Failed(message) => (
            FrameStepView {
                lines: Seq::empty(),
                end: Some(Err(LxdApiErrorView::Connection(message))),
            },
            rest,
        ),
        StreamFrameView::Ended => (
            FrameStepView { lines: Seq::empty(), end: Some(Ok(())) },
            rest,
        ),
    }
}

/// The item of the stream that a line stands for, given what it reads as: the
/// event, or the error with the line in it.
pub open spec fn item_of(line: Seq<u8>, parsed: Result<LxdEvent, String>) -> Result<
    LxdEvent,
    LxdApiErrorView,
> {
    match parsed {
        Ok(event) => Ok(event),
        Err(e) => Err(unreadable(e@, line)),
    }
}

/// Makes the item of the stream for a line, given what it reads as.
pub fn event_item(line: &[u8], parsed: Result<LxdEvent, String>) -> (r: Result<
    LxdEvent,
    LxdApiError,
>)
    ensures
        outcome(r) == item_of(line@, parsed),
{
    match parsed {
        Ok(event) => Ok(event),
        Err(e) => Err(json_error(e.as_str(), line)),
    }
}

/// The items for a list of lines, each read as `parsed` says.
pub open spec fn line_items(
    lines: Seq<Seq<u8>>,
    parsed: spec_fn(Seq<u8>) -> Result<LxdEvent, String>,
) -> Seq<Result<LxdEvent, LxdApiErrorView>> {
    lines.map_values(|line: Seq<u8>| item_of(line, parsed(line)))
}

/// The items that a stream gives for a list of frames, after the given bytes were
/// left over. Frames after its end count for nothing.
pub open spec fn stream_items(
    rest: Seq<u8>,
    frames: Seq<StreamFrameView>,
    parsed: spec_fn(Seq<u8>) -> Result<LxdEvent, String>,
) -> Seq<Result<LxdEvent, LxdApiErrorView>>
    decreases frames.len(),
{
    if frames.len() == 0 {
        Seq::empty()
    } else {
        let (step, left) = frame_step(rest, frames[0]);
        let items = line_items(step.lines, parsed);
        match step.end {
            None => items + stream_items(left, frames.drop_first(), parsed),
            Some(Ok(_)) => items,
            Some(Err(e)) => items.push(Err(e)),
        }
    }
}

/// The bytes of a list of pieces, one after the other.
pub open spec fn joined(pieces: Seq<Seq<u8>>) -> Seq<u8>
    decreases pieces.len(),
{
    if pieces.len() == 0 {
        Seq::empty()
    } else {
        pieces[0] + joined(pieces.drop_first())
    }
}

/// The frames that carry the given pieces.
pub open spec fn data_frames(pieces: Seq<Seq<u8>>) -> Seq<StreamFrameView> {
    pieces.map_values(|data: Seq<u8>| StreamFrameView::Data(data))
}

/// Whether no piece makes what has piled up exceed [`MAX_EVENT_BUFFER`], after the
/// given bytes were left over.
pub open spec fn within_limit(rest: Seq<u8>, pieces: Seq<Seq<u8>>) -> bool
    decreases pieces.len(),
{
    pieces.len() == 0 || {
        &&& (rest + pieces[0]).len() <= MAX_EVENT_BUFFER
        &&& within_limit(split_lines(rest + pieces[0]).1, pieces.drop_first())
    }
}

/// The lines of a stream do not depend on how it is cut into pieces: splitting
/// the bytes before a cut, and then what was left over together with the bytes
/// after it, gives the lines of the whole and the same rest.
pub proof fn split_lines_in_pieces(a: Seq<u8>, b: Seq<u8>)
    ensures
        split_lines(a + b).0 == split_lines(a).0 + split_lines(split_lines(a).1 + b).0,
        split_lines(a + b).1 == split_lines(split_lines(a).1 + b).1,
    decreases b.len(),
{
    let rest = split_lines(a).1;
    if b.len() == 0 {
        assert(a + b =~= a);
        assert(rest + b =~= rest);
        split_lines_rest(a);
    } else {
        split_lines_in_pieces(a, b.drop_last());
        assert((a + b).drop_last() =~= a + b.drop_last());
        assert((rest + b).drop_last() =~= rest + b.drop_last());
        let whole = split_lines(a + b.drop_last());
        let part = split_lines(rest + b.drop_last());
        if b.last() == 10 && whole.1.len() > 0 {
            assert((split_lines(a).0 + part.0).push(whole.1) =~= split_lines(a).0 + part.0.push(
                part.1,
            ));
        }
    }
}

/// What is left over holds no complete line.
pub proof fn split_lines_rest(bytes: Seq<u8>)
    ensures
        split_lines(split_lines(bytes).1) == (Seq::<Seq<u8>>::empty(), split_lines(bytes).1),
        !split_lines(bytes).1.contains(10u8),
    decreases bytes.len(),
{
    if bytes.len() > 0 {
        split_lines_rest(bytes.drop_last());
        let open_line = split_lines(bytes.drop_last()).1;
        if bytes.last() != 10 {
            assert(open_line.push(bytes.last()).drop_last() =~= open_line);
            assert forall|i: int| 0 <= i < open_line.push(bytes.last()).len() implies open_line.push(
                bytes.last(),
            )[i] != 10 by {
                if i < open_line.len() {
                    assert(open_line.contains(open_line[i]));
                }
            }
        }
    }
}

/// Every line that comes out is without line breaks and not empty.
pub proof fn split_lines_are_lines(bytes: Seq<u8>, i: int)
    requires
        0 <= i < split_lines(bytes).0.len(),
    ensures
        split_lines(bytes).0[i].len() > 0,
        !split_lines(bytes).0[i].contains(10u8),
    decreases bytes.len(),
{
    if bytes.len() > 0 {
        split_lines_rest(bytes.drop_last());
        if i < split_lines(bytes.drop_last()).0.len() {
            split_lines_are_lines(bytes.drop_last(), i);
        }
    }
}

/// The items of the stream are the complete lines of its bytes, each read once
/// and in order, however the bytes are cut into pieces: after the pieces the
/// stream has given the items of those lines, and goes on with what follows from
/// the bytes after the last line break.
pub proof fn items_are_the_lines(
    pieces: Seq<Seq<u8>>,
    following: Seq<StreamFrameView>,
    parsed: spec_fn(Seq<u8>) -> Result<LxdEvent, String>,
)
    requires
        within_limit(Seq::empty(), pieces),
    ensures
        stream_items(Seq::empty(), data_frames(pieces) + following, parsed) == line_items(
            split_lines(joined(pieces)).0,
            parsed,
        ) + stream_items(split_lines(joined(pieces)).1, following, parsed),
{
    items_after_rest(Seq::empty(), pieces, following, parsed);
    assert(Seq::<u8>::empty() + joined(pieces) =~= joined(pieces));
}

/// The same, from a moment on at which bytes are left over that make no line.
pub proof fn items_after_rest(
    rest: Seq<u8>,
    pieces: Seq<Seq<u8>>,
    following: Seq<StreamFrameView>,
    parsed: spec_fn(Seq<u8>) -> Result<LxdEvent, String>,
)
    requires
        split_lines(rest) == (Seq::<Seq<u8>>::empty(), rest),
        within_limit(rest, pieces),
    ensures
        stream_items(rest, data_frames(pieces) + following, parsed) == line_items(
            split_lines(rest + joined(pieces)).0,
            parsed,
        ) + stream_items(split_lines(rest + joined(pieces)).1, following, parsed),
    decreases pieces.len(),
{
    let frames = data_frames(pieces) + following;
    if pieces.len() == 0 {
        assert(frames =~= following);
        assert(rest + joined(pieces) =~= rest);
        assert(line_items(Seq::empty(), parsed) =~= Seq::empty());
        assert(line_items(split_lines(rest).0, parsed) + stream_items(rest, following, parsed)
            =~= stream_items(rest, following, parsed));
    } else {
        let first = rest + pieces[0];
        let others = pieces.drop_first();
        let (lines, left) = split_lines(first);
        assert(frames.drop_first() =~= data_frames(others) + following);
        split_lines_rest(first);
        items_after_rest(left, others, following, parsed);
        split_lines_in_pieces(first, joined(others));
        assert(rest + joined(pieces) =~= first + joined(others));
        let later = split_lines(left + joined(others));
        assert(line_items(lines + later.0, parsed) =~= line_items(lines, parsed) + line_items(
            later.0,
            parsed,
        ));
        let after = stream_items(later.1, following, parsed);
        assert(line_items(lines, parsed) + (line_items(later.0, parsed) + after) =~= (line_items(
            lines,
            parsed,
        ) + line_items(later.0, parsed)) + after);
    }
}

/// How the bytes of a stream are cut into pieces makes no difference to its
/// items.
pub proof fn cuts_make_no_difference(
    a: Seq<Seq<u8>>,
    b: Seq<Seq<u8>>,
    following: Seq<StreamFrameView>,
    parsed: spec_fn(Seq<u8>) -> Result<LxdEvent, String>,
)
    requires
        joined(a) == joined(b),
        within_limit(Seq::empty(), a),
        within_limit(Seq::empty(), b),
    ensures
        stream_items(Seq::empty(), data_frames(a) + following, parsed) == stream_items(
            Seq::empty(),
            data_frames(b) + following,
            parsed,
        ),
{
    items_are_the_lines(a, following, parsed);
    items_are_the_lines(b, following, parsed);
}

/// A line that cannot be read is told as an error in its place, and does not end
/// the stream: there are as many items as lines, and those of the other lines are
/// what they would be without it.
pub proof fn unreadable_line_does_not_end_the_stream(
    lines: Seq<Seq<u8>>,
    parsed: spec_fn(Seq<u8>) -> Result<LxdEvent, String>,
    i: int,
)
    requires
        0 <= i < lines.len(),
    ensures
        line_items(lines, parsed).len() == lines.len(),
        line_items(lines, parsed)[i] == item_of(lines[i], parsed(lines[i])),
        parsed(lines[i]) matches Err(e) ==> line_items(lines, parsed)[i] == Err::<
            LxdEvent,
            LxdApiErrorView,
        >(unreadable(e@, lines[i])),
        line_items(lines.remove(i), parsed) == line_items(lines, parsed).remove(i),
{
    assert(line_items(lines.remove(i), parsed) =~= line_items(lines, parsed).remove(i));
}

/// A stream that holds no more than [`MAX_EVENT_BUFFER`] bytes stays within the
/// limit, however it is cut.
pub proof fn short_streams_are_within_the_limit(rest: Seq<u8>, pieces: Seq<Seq<u8>>)
    requires
        (rest + joined(pieces)).len() <= MAX_EVENT_BUFFER,
    ensures
        within_limit(rest, pieces),
    decreases pieces.len(),
{
    if pieces.len() > 0 {
        split_lines_rest_is_shorter(rest + pieces[0]);
        short_streams_are_within_the_limit(
            split_lines(rest + pieces[0]).1,
            pieces.drop_first(),
        );
    }
}

/// What is left over is no longer than what was there.
pub proof fn split_lines_rest_is_shorter(bytes: Seq<u8>)
    ensures
        split_lines(bytes).1.len() <= bytes.len(),
    decreases bytes.len(),
{
    if bytes.len() > 0 {
        split_lines_rest_is_shorter(bytes.drop_last());
    }
}

/// When the stream ends, its items end: those of the complete lines, and after
/// them the error when the connection broke or too much piled up. What comes later
/// counts for nothing.
pub proof fn end_of_the_stream(
    pieces: Seq<Seq<u8>>,
    last: StreamFrameView,
    later: Seq<StreamFrameView>,
    parsed: spec_fn(Seq<u8>) -> Result<LxdEvent, String>,
)
    requires
        within_limit(Seq::empty(), pieces),
        last matches StreamFrameView::Data(data) ==> (split_lines(joined(pieces)).1 + data).len()
            > MAX_EVENT_BUFFER,
    ensures
        stream_items(Seq::empty(), data_frames(pieces) + (seq![last] + later), parsed)
            == line_items(split_lines(joined(pieces)).0, parsed) + (match last {
            StreamFrameView::Data(_) => seq![
                Err(LxdApiErrorView::Connection("event buffer exceeded 1 MB limit"@)),
            ],
            StreamFrameView::Failed(message) => seq![
                Err(LxdApiErrorView::Connection(message)),
            ],
            StreamFrameView::Ended => Seq::empty(),
        }),
{
    let following = seq![last] + later;
    items_are_the_lines(pieces, following, parsed);
    assert(following[0] == last);
    assert(line_items(Seq::empty(), parsed) =~= Seq::empty());
    match last {
        StreamFrameView::Data(_) => {
            let e = LxdApiErrorView::Connection("event buffer exceeded 1 MB limit"@);
            assert(line_items(Seq::empty(), parsed).push(Err(e)) =~= seq![Err(e)]);
        },
        StreamFrameView::Failed(message) => {
            let e = LxdApiErrorView::Connection(message);
            assert(line_items(Seq::empty(), parsed).push(Err(e)) =~= seq![Err(e)]);
        },
        StreamFrameView::Ended => {},
    }
}

// ---------------------------------------------------------------------------
// Laws of names and encodings
// ---------------------------------------------------------------------------

/// A daemon that names an operation by its full path is asked at that path.
pub proof fn operation_is_asked_at_its_path(uuid: Seq<char>, timeout_secs: u64)
    ensures
        wait_request("/1.0/operations/"@ + uuid, timeout_secs).uri
            == "http://localhost/1.0/operations/"@ + uuid + "/wait?timeout="@ + text::decimal(
            if timeout_secs < 30 {
                30
            } else {
                timeout_secs as nat
            },
        ),
{
    reveal_strlit("/1.0/operations/");
    reveal_strlit("http://localhost/1.0/operations/");
    reveal_strlit("http://localhost");
    reveal_strlit("/");
    reveal_strlit("1.0");
    let version = "/"@ + API_VERSION@;
    let url = "/1.0/operations/"@ + uuid;
    assert(version.is_prefix_of(url)) by {
        assert(version =~= url.subrange(0, version.len() as int));
    }
    let q = wait_request(url, timeout_secs);
    let n: nat = if timeout_secs < 30 {
        30
    } else {
        timeout_secs as nat
    };
    let tail = "/wait?timeout="@ + text::decimal(n);
    assert(q.uri =~= "http://localhost/1.0/operations/"@ + uuid + "/wait?timeout="@
        + text::decimal(n));
}

/// A text whose UTF-8 bytes are all below 128 has these bytes as its characters.
proof fn lemma_ascii_bytes(s: Seq<char>)
    requires
        forall|i: int| 0 <= i < encode_utf8(s).len() ==> #[trigger] encode_utf8(s)[i] < 128,
    ensures
        is_ascii_chars(s),
        encode_utf8(s).len() == s.len(),
        forall|i: int| 0 <= i < s.len() ==> #[trigger] s[i] as u8 == encode_utf8(s)[i],
    decreases s.len(),
{
    if s.len() > 0 {
        let c = s[0] as u32;
        let rest = s.drop_first();
        let bytes = encode_utf8(s);
        char_is_scalar(s[0]);
        assert(bytes =~= encode_scalar(c) + encode_utf8(rest));
        assert(bytes[0] == encode_scalar(c)[0]);
        assert(c < 128) by {
            let b1 = ((c >> 6) & 0x1F) as u8;
            let b2 = ((c >> 12) & 0x0F) as u8;
            let b3 = ((c >> 18) & 0x7) as u8;
            assert(0xC0u8 | b1 >= 128) by (bit_vector);
            assert(0xE0u8 | b2 >= 128) by (bit_vector);
            assert(0xF0u8 | b3 >= 128) by (bit_vector);
        }
        assert forall|i: int| 0 <= i < encode_utf8(rest).len() implies #[trigger] encode_utf8(
            rest,
        )[i] < 128 by {
            assert(encode_utf8(rest)[i] == bytes[i + 1]);
        }
        lemma_ascii_bytes(rest);
        assert forall|i: int| 0 <= i < s.len() implies '\0' <= #[trigger] s[i] <= '\u{7f}' by {
            if i > 0 {
                assert(s[i] == rest[i - 1]);
            } else {
                char_u32_cast(s[0], c);
                assert(c as char <= '\u{7f}');
            }
        }
        is_ascii_chars_encode_utf8(s);
    }
}

/// The encoding of a byte sequence goes byte by byte from the front as well.
proof fn lemma_encoded_front(bytes: Seq<u8>)
    requires
        bytes.len() > 0,
    ensures
        encoded_bytes(bytes) == encoded_byte(bytes[0]) + encoded_bytes(bytes.drop_first()),
    decreases bytes.len(),
{
    if bytes.len() == 1 {
        assert(bytes.drop_last() =~= Seq::empty());
        assert(bytes.drop_first() =~= Seq::empty());
        assert(encoded_bytes(Seq::<u8>::empty()) =~= Seq::empty());
        assert(encoded_bytes(bytes) =~= encoded_byte(bytes[0]) + encoded_bytes(
            bytes.drop_first(),
        ));
    } else {
        lemma_encoded_front(bytes.drop_last());
        assert(bytes.drop_last().drop_first() =~= bytes.drop_first().drop_last());
        assert(encoded_bytes(bytes) =~= encoded_byte(bytes[0]) + encoded_bytes(
            bytes.drop_first(),
        ));
    }
}

/// A valid name stands for itself in a URL: percent-encoding leaves it as it is.
pub proof fn valid_name_needs_no_encoding(name: Seq<char>)
    requires
        valid_name(name),
    ensures
        url_encoded(name) == name,
{
    let bytes = encode_utf8(name);
    assert forall|i: int| 0 <= i < bytes.len() implies #[trigger] bytes[i] < 128 by {
        assert(name_byte(bytes[i]));
    }
    lemma_ascii_bytes(name);
    lemma_unreserved_unchanged(name, name.len());
    assert(bytes.take(name.len() as int) =~= bytes);
    assert(name.take(name.len() as int) =~= name);
}

/// A valid name holds no separator of a path.
pub proof fn valid_name_has_no_slash(name: Seq<char>)
    requires
        valid_name(name),
    ensures
        !name.contains('/'),
{
    let bytes = encode_utf8(name);
    assert forall|i: int| 0 <= i < bytes.len() implies #[trigger] bytes[i] < 128 by {
        assert(name_byte(bytes[i]));
    }
    lemma_ascii_bytes(name);
    assert forall|i: int| 0 <= i < name.len() implies name[i] != '/' by {
        assert(name[i] as u8 == bytes[i]);
        assert(name_byte(bytes[i]));
    }
}

proof fn lemma_unreserved_unchanged(s: Seq<char>, n: nat)
    requires
        n <= s.len(),
        encode_utf8(s).len() == s.len(),
        is_ascii_chars(s),
        forall|i: int| 0 <= i < s.len() ==> #[trigger] s[i] as u8 == encode_utf8(s)[i],
        forall|i: int| 0 <= i < s.len() ==> unreserved(#[trigger] encode_utf8(s)[i]),
    ensures
        encoded_bytes(encode_utf8(s).take(n as int)) == s.take(n as int),
    decreases n,
{
    let bytes = encode_utf8(s);
    if n == 0 {
        assert(bytes.take(0) =~= Seq::empty());
        assert(s.take(0) =~= Seq::empty());
    } else {
        lemma_unreserved_unchanged(s, (n - 1) as nat);
        assert(bytes.take(n as int).drop_last() =~= bytes.take(n - 1));
        assert(s[n - 1] as u8 == bytes[n - 1]);
        assert(bytes[n - 1] as char == s[n - 1]);
        assert(s.take(n as int) =~= s.take(n - 1) + seq![s[n - 1]]);
    }
}

/// A text of unreserved characters stands for itself.
pub proof fn unreserved_text_needs_no_encoding(s: Seq<char>)
    requires
        forall|i: int| 0 <= i < encode_utf8(s).len() ==> unreserved(#[trigger] encode_utf8(s)[i]),
    ensures
        url_encoded(s) == s,
{
    let bytes = encode_utf8(s);
    assert forall|i: int| 0 <= i < bytes.len() implies #[trigger] bytes[i] < 128 by {
        assert(unreserved(bytes[i]));
    }
    lemma_ascii_bytes(s);
    lemma_unreserved_unchanged(s, s.len());
    assert(bytes.take(s.len() as int) =~= bytes);
    assert(s.take(s.len() as int) =~= s);
}

/// The characters that an encoded text is made of.
pub open spec fn encoded_char(c: char) -> bool {
    c == '%' || (c < '\u{80}' && unreserved(c as u8))
}

/// Nothing but unreserved characters and `%` is left in an encoded text: no
/// separator of a path or a query gets through.
pub proof fn encoded_text_is_safe(s: Seq<char>)
    ensures
        forall|i: int| 0 <= i < url_encoded(s).len() ==> encoded_char(#[trigger] url_encoded(s)[i]),
{
    lemma_encoded_chars(encode_utf8(s));
}

proof fn lemma_encoded_byte_chars(b: u8)
    ensures
        forall|i: int|
            0 <= i < encoded_byte(b).len() ==> encoded_char(#[trigger] encoded_byte(b)[i]),
{
}

proof fn lemma_encoded_chars(bytes: Seq<u8>)
    ensures
        forall|i: int|
            0 <= i < encoded_bytes(bytes).len() ==> encoded_char(#[trigger] encoded_bytes(bytes)[i]),
    decreases bytes.len(),
{
    if bytes.len() > 0 {
        lemma_encoded_chars(bytes.drop_last());
        lemma_encoded_byte_chars(bytes.last());
        let head = encoded_bytes(bytes.drop_last());
        assert forall|i: int| 0 <= i < encoded_bytes(bytes).len() implies encoded_char(
            #[trigger] encoded_bytes(bytes)[i],
        ) by {
            if i >= head.len() {
                assert(encoded_bytes(bytes)[i] == encoded_byte(bytes.last())[i - head.len()]);
            }
        }
    }
}

/// Two different texts have different encodings.
pub proof fn url_encoding_is_injective(a: Seq<char>, b: Seq<char>)
    requires
        url_encoded(a) == url_encoded(b),
    ensures
        a == b,
{
    lemma_encoded_bytes_injective(encode_utf8(a), encode_utf8(b));
    encode_utf8_decode_utf8(a);
    encode_utf8_decode_utf8(b);
}

proof fn lemma_encoded_bytes_injective(a: Seq<u8>, b: Seq<u8>)
    requires
        encoded_bytes(a) == encoded_bytes(b),
    ensures
        a == b,
    decreases a.len(),
{
    if a.len() > 0 {
        lemma_encoded_front(a);
        assert(encoded_byte(a[0]).len() > 0);
    }
    if b.len() > 0 {
        lemma_encoded_front(b);
        assert(encoded_byte(b[0]).len() > 0);
    }
    if a.len() == 0 || b.len() == 0 {
        assert(encoded_bytes(Seq::<u8>::empty()).len() == 0);
        assert(a =~= b);
    } else {
        let x = encoded_byte(a[0]);
        let y = encoded_byte(b[0]);
        let whole = encoded_bytes(a);
        assert(whole[0] == x[0]);
        assert(whole[0] == y[0]);
        if !unreserved(a[0]) && !unreserved(b[0]) {
            assert(whole[1] == x[1] && whole[1] == y[1]);
            assert(whole[2] == x[2] && whole[2] == y[2]);
        }
        assert(a[0] == b[0]);
        assert(encoded_bytes(a.drop_first()) =~= whole.skip(x.len() as int));
        assert(encoded_bytes(b.drop_first()) =~= whole.skip(x.len() as int));
        lemma_encoded_bytes_injective(a.drop_first(), b.drop_first());
        assert(a =~= seq![a[0]] + a.drop_first());
        assert(b =~= seq![b[0]] + b.drop_first());
    }
}

/// Whether a request is confined to a project.
pub open spec fn scoped_to(request: LxdRequestView, project: Seq<char>) -> bool {
    ("project="@ + url_encoded(project)).is_suffix_of(request.uri)
}

proof fn lemma_suffix(head: Seq<char>, separator: Seq<char>, project: Seq<char>)
    requires
        !default_project(project),
    ensures
        ("project="@ + url_encoded(project)).is_suffix_of(
            head + project_suffix(project, separator),
        ),
{
    let tail = "project="@ + url_encoded(project);
    let whole = head + project_suffix(project, separator);
    assert(project_suffix(project, separator) =~= separator + tail);
    assert(whole.subrange(whole.len() - tail.len(), whole.len() as int) =~= tail);
}

/// Instances are kept apart from other workloads: every request that creates,
/// changes, reads, lists or watches instances is confined to the project of the
/// client, unless that is LXD's own default project.
pub proof fn requests_are_scoped(
    name: Seq<char>,
    spec: json::Json,
    timeout_secs: u32,
    command: Seq<Seq<char>>,
    path: Seq<char>,
    content: Seq<u8>,
    mode: Seq<char>,
    project: Seq<char>,
)
    requires
        !default_project(project),
    ensures
        scoped_to(create_call(spec, project), project),
        scoped_to(start_call(name, project), project),
        scoped_to(stop_call(name, timeout_secs, project), project),
        scoped_to(force_stop_call(name, project), project),
        scoped_to(delete_call(name, project), project),
        scoped_to(get_call(name, project), project),
        scoped_to(state_call(name, project), project),
        scoped_to(list_call(project), project),
        scoped_to(exec_call(name, command, project), project),
        scoped_to(push_request(name, path, content, mode, project), project),
        scoped_to(events_call(project), project),
{
    let root = "http://localhost"@;
    let version = "/"@ + API_VERSION@;
    let instance = "/instances/"@ + name;
    let one = project_suffix(project, "?"@);
    let more = project_suffix(project, "&"@);
    lemma_suffix(root + (version + "/instances"@), "?"@, project);
    assert(create_call(spec, project).uri =~= root + (version + "/instances"@) + one);
    lemma_suffix(root + (version + (instance + "/state"@)), "?"@, project);
    assert(start_call(name, project).uri =~= root + (version + (instance + "/state"@)) + one);
    lemma_suffix(root + (version + (instance + Seq::<char>::empty())), "?"@, project);
    assert(get_call(name, project).uri =~= root + (version + (instance + Seq::<char>::empty()))
        + one);
    lemma_suffix(root + (version + "/instances?recursion=1"@), "&"@, project);
    assert(list_call(project).uri =~= root + (version + "/instances?recursion=1"@) + more);
    lemma_suffix(root + (version + (instance + "/exec"@)), "?"@, project);
    assert(exec_call(name, command, project).uri =~= root + (version + (instance + "/exec"@))
        + one);
    let file = version + "/instances/"@ + name + "/files?path="@ + url_encoded(path);
    lemma_suffix(root + file, "&"@, project);
    assert(push_request(name, path, content, mode, project).uri =~= root + file + more);
    lemma_suffix(root + (version + "/events?type=lifecycle"@), "&"@, project);
    assert(events_call(project).uri =~= root + (version + "/events?type=lifecycle"@) + more);
}

/// Whether a character is an ASCII letter or digit.
pub open spec fn letter_or_digit(c: char) -> bool {
    ('A' <= c <= 'Z') || ('a' <= c <= 'z') || ('0' <= c <= '9')
}

/// A name is accepted if and only if it is made of 1 to 63 ASCII letters, digits
/// and hyphens and does not begin with a hyphen.
pub proof fn names_are_of_letters_digits_and_hyphens(name: &str, r: Result<(), LxdApiError>)
    requires
        call_ensures(validate_name, (name,), r),
    ensures
        (r is Ok) == (0 < name@.len() <= 63 && letter_or_digit(name@[0]) && forall|i: int|
            0 <= i < name@.len() ==> letter_or_digit(#[trigger] name@[i]) || name@[i] == '-'),
        r matches Err(e) ==> e is InvalidInput,
        valid_name(name@) == (r is Ok),
{
    let s = name@;
    let bytes = encode_utf8(s);
    if valid_name(s) {
        assert forall|i: int| 0 <= i < bytes.len() implies #[trigger] bytes[i] < 128 by {
            assert(name_byte(bytes[i]));
        }
        lemma_ascii_bytes(s);
        assert forall|i: int| 0 <= i < s.len() implies letter_or_digit(#[trigger] s[i]) || s[i]
            == '-' by {
            assert(s[i] as u8 == bytes[i]);
            assert(name_byte(bytes[i]));
        }
        assert(s[0] as u8 == bytes[0]);
    }
    if 0 < s.len() <= 63 && letter_or_digit(s[0]) && forall|i: int|
        0 <= i < s.len() ==> letter_or_digit(#[trigger] s[i]) || s[i] == '-' {
        assert forall|i: int| 0 <= i < s.len() implies '\0' <= #[trigger] s[i] <= '\u{7f}' by {
            assert(letter_or_digit(s[i]) || s[i] == '-');
        }
        is_ascii_chars_encode_utf8(s);
        assert forall|i: int| 0 <= i < bytes.len() implies name_byte(#[trigger] bytes[i]) by {
            assert(letter_or_digit(s[i]) || s[i] == '-');
        }
    }
    match r {
        Ok(_) => {
            assert(outcome(r) is Ok);
        },
        Err(e) => {
            assert(outcome(r) == Err::<(), LxdApiErrorView>(e@));
        },
    }
}

/// What an upper-case hexadecimal digit stands for.
pub open spec fn hex_value(c: char) -> Option<int> {
    if '0' <= c <= '9' {
        Some(c as int - '0' as int)
    } else if 'A' <= c <= 'F' {
        Some(c as int - 'A' as int + 10)
    } else {
        None
    }
}

/// The bytes that a percent-encoded text stands for, as a server reads it: `%` with
/// two digits is the byte with that number, and every other character is itself.
pub open spec fn percent_decoded(s: Seq<char>) -> Option<Seq<u8>>
    decreases s.len(),
{
    if s.len() == 0 {
        Some(Seq::empty())
    } else if s[0] == '%' {
        if s.len() < 3 {
            None
        } else {
            match (hex_value(s[1]), hex_value(s[2]), percent_decoded(s.skip(3))) {
                (Some(high), Some(low), Some(rest)) => Some(
                    seq![(high * 16 + low) as u8] + rest,
                ),
                _ => None,
            }
        }
    } else {
        match percent_decoded(s.drop_first()) {
            Some(rest) => Some(seq![s[0] as u8] + rest),
            None => None,
        }
    }
}

proof fn lemma_percent_decoded(bytes: Seq<u8>)
    ensures
        percent_decoded(encoded_bytes(bytes)) == Some(bytes),
    decreases bytes.len(),
{
    if bytes.len() == 0 {
        assert(encoded_bytes(bytes) =~= Seq::empty());
        assert(bytes =~= Seq::empty());
    } else {
        let b = bytes[0];
        let rest = bytes.drop_first();
        lemma_encoded_front(bytes);
        lemma_percent_decoded(rest);
        let whole = encoded_bytes(bytes);
        assert(bytes =~= seq![b] + rest);
        if unreserved(b) {
            assert(whole.drop_first() =~= encoded_bytes(rest));
            assert(whole[0] == b as char);
        } else {
            assert(whole.skip(3) =~= encoded_bytes(rest));
            assert(whole[0] == '%');
            assert(whole[1] == upper_hex(b as int / 16) && whole[2] == upper_hex(b as int % 16));
            assert(hex_value(upper_hex(b as int / 16)) == Some(b as int / 16));
            assert(hex_value(upper_hex(b as int % 16)) == Some(b as int % 16));
            assert(b as int / 16 * 16 + b as int % 16 == b as int);
        }
    }
}

proof fn lemma_encoded_letters(bytes: Seq<u8>)
    ensures
        forall|i: int|
            0 <= i < encoded_bytes(bytes).len() ==> letter_or_digit(
                #[trigger] encoded_bytes(bytes)[i],
            ) || encoded_bytes(bytes)[i] == '-' || encoded_bytes(bytes)[i] == '_' || encoded_bytes(
                bytes,
            )[i] == '.' || encoded_bytes(bytes)[i] == '~' || encoded_bytes(bytes)[i] == '%',
    decreases bytes.len(),
{
    if bytes.len() > 0 {
        lemma_encoded_letters(bytes.drop_last());
        let head = encoded_bytes(bytes.drop_last());
        let last = encoded_byte(bytes.last());
        let whole = encoded_bytes(bytes);
        assert forall|i: int| 0 <= i < whole.len() implies letter_or_digit(#[trigger] whole[i])
            || whole[i] == '-' || whole[i] == '_' || whole[i] == '.' || whole[i] == '~' || whole[i]
            == '%' by {
            if i >= head.len() {
                assert(whole[i] == last[i - head.len()]);
            } else {
                assert(whole[i] == head[i]);
            }
        }
    }
}

/// A server reads an encoded text back: what it decodes are the bytes of the text.
/// In between there are only letters, digits, `-`, `_`, `.`, `~` and `%`, and a text
/// of the former stands for itself.
pub proof fn encoded_text_is_read_back(s: &str, r: String)
    requires
        call_ensures(url_encode, (s,), r),
    ensures
        percent_decoded(r@) == Some(encode_utf8(s@)),
        forall|i: int|
            0 <= i < r@.len() ==> letter_or_digit(#[trigger] r@[i]) || r@[i] == '-' || r@[i] == '_'
                || r@[i] == '.' || r@[i] == '~' || r@[i] == '%',
        (forall|i: int|
            0 <= i < s@.len() ==> letter_or_digit(#[trigger] s@[i]) || s@[i] == '-' || s@[i] == '_'
                || s@[i] == '.' || s@[i] == '~') ==> r@ == s@,
{
    lemma_percent_decoded(encode_utf8(s@));
    lemma_encoded_letters(encode_utf8(s@));
    if forall|i: int|
        0 <= i < s@.len() ==> letter_or_digit(#[trigger] s@[i]) || s@[i] == '-' || s@[i] == '_'
            || s@[i] == '.' || s@[i] == '~' {
        assert forall|i: int| 0 <= i < s@.len() implies '\0' <= #[trigger] s@[i] <= '\u{7f}' by {
            assert(letter_or_digit(s@[i]) || s@[i] == '-' || s@[i] == '_' || s@[i] == '.' || s@[i]
                == '~');
        }
        is_ascii_chars_encode_utf8(s@);
        assert forall|i: int| 0 <= i < encode_utf8(s@).len() implies unreserved(
            #[trigger] encode_utf8(s@)[i],
        ) by {
            assert(letter_or_digit(s@[i]) || s@[i] == '-' || s@[i] == '_' || s@[i] == '.' || s@[i]
                == '~');
        }
        unreserved_text_needs_no_encoding(s@);
    }
}

/// Bytes up to a line break are one line, unless there are none; bytes without a
/// line break are left over.
pub proof fn line_break_ends_a_line(line: Seq<u8>, rest: Seq<u8>)
    requires
        !line.contains(10u8),
    ensures
        split_lines(line) == (Seq::<Seq<u8>>::empty(), line),
        split_lines(line + seq![10u8] + rest) == (
            (if line.len() > 0 {
                seq![line]
            } else {
                Seq::empty()
            }) + split_lines(rest).0,
            split_lines(rest).1,
        ),
{
    lemma_no_break(line);
    let head = line + seq![10u8];
    assert(head.drop_last() =~= line);
    assert(head.last() == 10u8);
    split_lines_in_pieces(head, rest);
    assert(split_lines(head).1 + rest =~= rest);
    assert(Seq::<Seq<u8>>::empty().push(line) =~= seq![line]);
}

proof fn lemma_no_break(line: Seq<u8>)
    requires
        !line.contains(10u8),
    ensures
        split_lines(line) == (Seq::<Seq<u8>>::empty(), line),
    decreases line.len(),
{
    if line.len() > 0 {
        let front = line.drop_last();
        assert forall|i: int| 0 <= i < front.len() implies front[i] != 10u8 by {
            assert(line.contains(line[i]));
        }
        lemma_no_break(front);
        assert(line.contains(line[line.len() - 1]));
        assert(front.push(line.last()) =~= line);
    } else {
        assert(line =~= Seq::empty());
    }
}

} // verus!

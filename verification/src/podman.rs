//! Sets Podman up as a compute driver.
//!
//! What is shown and which socket is used is decided here; showing it and asking
//! the daemon is left to the caller.
use vstd::prelude::*;
use vstd::string::*;
use crate::platform;
use crate::text;

verus! {

/// How a line is shown.
#[derive(Clone, Copy, Debug, PartialEq, Eq, Structural)]
pub enum Style {
    Plain,
    Bold,
    RedBold,
    GreenBold,
}

/// A line to show.
pub struct Line {
    pub style: Style,
    /// Whether an empty line comes first.
    pub spaced: bool,
    pub text: String,
}

pub struct LineView {
    pub style: Style,
    pub spaced: bool,
    pub text: Seq<char>,
}

impl View for Line {
    type V = LineView;

    open spec fn view(&self) -> LineView {
        LineView { style: self.style, spaced: self.spaced, text: self.text@ }
    }
}

/// A line.
pub open spec fn line(style: Style, spaced: bool, text: Seq<char>) -> LineView {
    LineView { style, spaced, text }
}

/// The views of a list of lines.
pub open spec fn line_views(lines: Seq<Line>) -> Seq<LineView> {
    lines.map_values(|l: Line| l@)
}

fn show(lines: &mut Vec<Line>, style: Style, spaced: bool, text: String)
    ensures
        line_views(final(lines)@) == line_views(old(lines)@).push(line(style, spaced, text@)),
{
    let ghost before = line_views(lines@);
    let ghost added = line(style, spaced, text@);
    lines.push(Line { style, spaced, text });
    proof {
        assert(line_views(lines@) =~= before.push(added));
    }
}

/// The socket of Podman: the one that is configured, and otherwise the one of
/// the user, or of the system where the user has no runtime directory.
pub open spec fn socket_of(
    configured: Option<Seq<char>>,
    runtime_dir: Option<Seq<char>>,
) -> Seq<char> {
    match configured {
        Some(path) => path,
        None => match runtime_dir {
            Some(dir) => dir + "/podman/podman.sock"@,
            None => "/run/podman/podman.sock"@,
        },
    }
}

/// Resolves the socket of Podman from `OPENSHELL_PODMAN_SOCKET` and
/// `XDG_RUNTIME_DIR`.
pub fn resolve_socket(configured: Option<String>, runtime_dir: Option<String>) -> (r: String)
    ensures
        r@ == socket_of(text::optional(configured), text::optional(runtime_dir)),
{
    match configured {
        Some(path) => path,
        None => match runtime_dir {
            Some(dir) => dir.concat("/podman/podman.sock"),
            None => "/run/podman/podman.sock".to_owned(),
        },
    }
}

/// What is shown before the daemon is asked, and why it is not asked at all if
/// it is not.
pub struct Opening {
    pub lines: Vec<Line>,
    pub failure: Option<String>,
}

/// Whether the socket is missing. One that is reached over the network is not
/// looked for.
pub open spec fn socket_missing(socket_path: Seq<char>, exists_on_disk: bool) -> bool {
    !"tcp://"@.is_prefix_of(socket_path) && !exists_on_disk
}

/// The lines that are shown before the daemon is asked.
pub open spec fn opening_lines(socket_path: Seq<char>, exists_on_disk: bool) -> Seq<LineView> {
    let heading = line(Style::Bold, false, "Initializing Podman for OpenShell..."@);
    if socket_missing(socket_path, exists_on_disk) {
        seq![
            heading,
            line(Style::RedBold, true, "Podman socket not found!"@),
            line(Style::Plain, false, "Expected socket at: "@ + socket_path),
            line(
                Style::Plain,
                true,
                "Ensure Podman is running with socket activation enabled:"@,
            ),
            line(Style::Plain, false, "  systemctl --user start podman.socket"@),
        ]
    } else {
        seq![heading, line(Style::Plain, false, "✓ Found Podman socket at: "@ + socket_path)]
    }
}

/// Why the daemon is not asked.
pub open spec fn opening_failure(socket_path: Seq<char>, exists_on_disk: bool) -> Option<
    Seq<char>,
> {
    if socket_missing(socket_path, exists_on_disk) {
        Some("Podman socket not found at "@ + socket_path)
    } else {
        None
    }
}

/// Decides what is shown first, given whether the socket is there.
pub fn open_with(socket_path: &str, exists_on_disk: bool) -> (r: Opening)
    ensures
        line_views(r.lines@) == opening_lines(socket_path@, exists_on_disk),
        text::optional(r.failure) == opening_failure(socket_path@, exists_on_disk),
{
    let mut lines: Vec<Line> = Vec::new();
    show(&mut lines, Style::Bold, false, "Initializing Podman for OpenShell...".to_owned());
    if !text::starts_with(socket_path, "tcp://") && !exists_on_disk {
        show(&mut lines, Style::RedBold, true, "Podman socket not found!".to_owned());
        show(
            &mut lines,
            Style::Plain,
            false,
            "Expected socket at: ".to_owned().concat(socket_path),
        );
        show(
            &mut lines,
            Style::Plain,
            true,
            "Ensure Podman is running with socket activation enabled:".to_owned(),
        );
        show(
            &mut lines,
            Style::Plain,
            false,
            "  systemctl --user start podman.socket".to_owned(),
        );
        proof {
            assert(line_views(lines@) =~= opening_lines(socket_path@, exists_on_disk));
        }
        return Opening {
            lines,
            failure: Some("Podman socket not found at ".to_owned().concat(socket_path)),
        };
    }
    show(
        &mut lines,
        Style::Plain,
        false,
        "✓ Found Podman socket at: ".to_owned().concat(socket_path),
    );
    proof {
        assert(line_views(lines@) =~= opening_lines(socket_path@, exists_on_disk));
    }
    Opening { lines, failure: None }
}

/// Decides what is shown first: looks for the socket, unless it is reached over
/// the network.
pub fn init(socket_path: &str) -> (r: Opening)
    ensures
        exists|exists_on_disk: bool|
            ("tcp://"@.is_prefix_of(socket_path@) || platform::looked_for(
                socket_path@,
                exists_on_disk,
            )) && line_views(r.lines@) == #[trigger] opening_lines(socket_path@, exists_on_disk)
                && text::optional(r.failure) == opening_failure(socket_path@, exists_on_disk),
        "tcp://"@.is_prefix_of(socket_path@) ==> r.failure is None,
{
    let exists_on_disk = !text::starts_with(socket_path, "tcp://") && platform::look_for(
        socket_path,
    );
    open_with(socket_path, exists_on_disk)
}

/// What is said when the daemon does not answer.
pub const CONNECT_FAILURE: &'static str = "Failed to connect to Podman daemon";

/// The lines that are shown once the daemon has answered.
pub open spec fn closing_lines(socket_path: Seq<char>) -> Seq<LineView> {
    seq![
        line(Style::Plain, false, "✓ Successfully connected to Podman daemon"@),
        line(Style::GreenBold, true, "Podman initialization complete!"@),
        line(
            Style::Plain,
            false,
            "To configure OpenShell to use the Podman compute driver, start the gateway with:"@,
        ),
        line(
            Style::Plain,
            false,
            "  OPENSHELL_PODMAN_SOCKET=\""@ + socket_path
                + "\" openshell gateway start --compute-driver podman"@,
        ),
    ]
}

/// Decides what comes after the daemon was asked: the lines to show, or what was
/// tried and what went wrong.
pub fn after_ping(socket_path: &str, answered: Result<(), String>) -> (r: Result<
    Vec<Line>,
    (String, String),
>)
    ensures
        match answered {
            Ok(_) => r matches Ok(lines) && line_views(lines@) == closing_lines(socket_path@),
            Err(m) => r matches Err(e) && e.0@ == CONNECT_FAILURE@ && e.1@ == m@,
        },
{
    if let Err(m) = answered {
        return Err((CONNECT_FAILURE.to_owned(), m));
    }
    let mut lines: Vec<Line> = Vec::new();
    show(
        &mut lines,
        Style::Plain,
        false,
        "✓ Successfully connected to Podman daemon".to_owned(),
    );
    show(&mut lines, Style::GreenBold, true, "Podman initialization complete!".to_owned());
    show(
        &mut lines,
        Style::Plain,
        false,
        "To configure OpenShell to use the Podman compute driver, start the gateway with:".to_owned(),
    );
    show(
        &mut lines,
        Style::Plain,
        false,
        "  OPENSHELL_PODMAN_SOCKET=\"".to_owned().concat(socket_path).concat(
            "\" openshell gateway start --compute-driver podman",
        ),
    );
    proof {
        assert(line_views(lines@) =~= closing_lines(socket_path@));
    }
    Ok(lines)
}

/// The socket is the one that is configured, whatever the runtime directory is.
pub proof fn configured_socket_wins(configured: Seq<char>, runtime_dir: Option<Seq<char>>)
    ensures
        socket_of(Some(configured), runtime_dir) == configured,
{
}

/// The socket is the one that is configured; otherwise it lies below the runtime
/// directory of the user or, where there is none, below that of the system.
pub proof fn socket_is_found_in_order(
    configured: Option<String>,
    runtime_dir: Option<String>,
    r: String,
)
    requires
        call_ensures(resolve_socket, (configured, runtime_dir), r),
    ensures
        configured matches Some(path) ==> r@ == path@,
        configured is None ==> (runtime_dir matches Some(dir) ==> r@ == dir@
            + "/podman/podman.sock"@),
        configured is None && runtime_dir is None ==> r@ == "/run/podman/podman.sock"@,
{
}

/// The daemon is not asked if and only if its socket is a path at which there is
/// nothing; what is shown names the path either way.
pub proof fn missing_socket_is_reported(socket_path: &str, exists_on_disk: bool, r: Opening)
    requires
        call_ensures(open_with, (socket_path, exists_on_disk), r),
    ensures
        (r.failure is Some) == (!exists_on_disk && !"tcp://"@.is_prefix_of(socket_path@)),
        r.failure matches Some(m) ==> socket_path@.is_suffix_of(m@),
        r.lines@.len() == (if r.failure is Some {
            5int
        } else {
            2int
        }),
        r.lines@[0]@.style == Style::Bold,
        r.failure is Some ==> r.lines@[1]@.style == Style::RedBold && r.lines@[2]@.text
            == "Expected socket at: "@ + socket_path@,
        r.failure is None ==> r.lines@[1]@.style == Style::Plain && r.lines@[1]@.text
            == "✓ Found Podman socket at: "@ + socket_path@,
{
    let shown = line_views(r.lines@);
    assert(shown.len() == r.lines@.len());
    assert forall|i: int| 0 <= i < shown.len() implies #[trigger] shown[i] == r.lines@[i]@ by {}
    assert(shown[0] == r.lines@[0]@ && shown[1] == r.lines@[1]@);
    if r.failure is Some {
        assert(shown[2] == r.lines@[2]@);
        let m = "Podman socket not found at "@ + socket_path@;
        assert(m.subrange(m.len() - socket_path@.len(), m.len() as int) =~= socket_path@);
    }
}

/// Once the daemon has answered, the last line says how to start the gateway with
/// the very socket that was asked; an answer that fails is passed on.
pub proof fn socket_that_answered_is_named(
    socket_path: &str,
    answered: Result<(), String>,
    r: Result<Vec<Line>, (String, String)>,
)
    requires
        call_ensures(after_ping, (socket_path, answered), r),
    ensures
        (r is Ok) == (answered is Ok),
        r matches Ok(lines) ==> lines@.len() == 4 && lines@[3]@.text
            == "  OPENSHELL_PODMAN_SOCKET=\""@ + socket_path@
            + "\" openshell gateway start --compute-driver podman"@ && lines@[1]@.style
            == Style::GreenBold,
        r matches Err(e) ==> e.0@ == "Failed to connect to Podman daemon"@ && e.1@
            == answered->Err_0@,
{
    if let Ok(lines) = r {
        let shown = line_views(lines@);
        assert(shown.len() == lines@.len());
        assert(shown[3] == lines@[3]@ && shown[1] == lines@[1]@);
    }
}

/// A socket that is reached over the network is never missing; one that is a path
/// is missing only where nothing was found at it.
pub proof fn socket_is_looked_for(socket_path: &str, r: Opening)
    requires
        call_ensures(init, (socket_path,), r),
    ensures
        "tcp://"@.is_prefix_of(socket_path@) ==> r.failure is None,
        r.failure is Some ==> platform::looked_for(socket_path@, false),
        r.failure is None && !"tcp://"@.is_prefix_of(socket_path@) ==> platform::looked_for(
            socket_path@,
            true,
        ),
{
}

} // verus!

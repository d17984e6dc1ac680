//! The embedded terminal and the event stream.

use crate::guards::{AuthRole, AuthUser};
use crate::json::{
    json_member, json_value, parse_json, read_member, value_view, Json, JsonView,
};
use crate::reply::{not_found, plain, Refusal};
use crate::text::owned;
use vstd::prelude::*;

verus! {

/// What a terminal is asked to open from.
#[derive(Clone, Debug)]
pub struct TerminalContext {
    /// Whether this process serves sockets.
    pub serves_realtime: bool,
    pub same_origin: bool,
    pub accounts: bool,
    pub user: Option<AuthUser>,
    pub project_exists: bool,
    /// Whether nothing may be executed in this process.
    pub no_inline_exec: bool,
}

/// Why a terminal is refused.
pub open spec fn terminal_refusal(c: TerminalContext) -> Option<(u16, Seq<char>, bool)> {
    if !c.serves_realtime {
        Some(
            (503, "wrong service role for this endpoint — check the load balancer routing"@, false),
        )
    } else if !c.same_origin {
        Some((403, "cross-origin websocket rejected"@, false))
    } else if c.accounts && c.user is None {
        Some((401, "unauthenticated"@, false))
    } else if c.accounts && c.user->0.role != AuthRole::Admin && c.user->0.role
        != AuthRole::Super {
        Some((403, "read-only role"@, false))
    } else if !c.project_exists {
        Some((404, "no such project"@, false))
    } else if c.no_inline_exec {
        Some((503, "terminals are disabled on the control plane — connect via a runner"@, false))
    } else {
        None
    }
}

/// Admits a terminal and tells who opens it. A shell reaches the whole host, so it is for admins
/// and the hub's owner alone.
pub fn admit_terminal(c: &TerminalContext) -> (r: Result<String, Refusal>)
    ensures
        match r {
            Err(e) => terminal_refusal(*c) == Some(e.v()),
            Ok(who) => terminal_refusal(*c) is None && who@ == if c.accounts {
                c.user->0.username@
            } else {
                "user"@
            },
        },
{
    if !c.serves_realtime {
        return Err(
            plain(503, "wrong service role for this endpoint — check the load balancer routing"),
        );
    }
    if !c.same_origin {
        return Err(plain(403, "cross-origin websocket rejected"));
    }
    let mut who = owned("user");
    if c.accounts {
        match &c.user {
            None => {
                return Err(plain(401, "unauthenticated"));
            },
            Some(u) => {
                if u.role != AuthRole::Admin && u.role != AuthRole::Super {
                    return Err(plain(403, "read-only role"));
                }
                who = u.username.clone();
            },
        }
    }
    if !c.project_exists {
        return Err(not_found());
    }
    if c.no_inline_exec {
        return Err(
            plain(503, "terminals are disabled on the control plane — connect via a runner"),
        );
    }
    Ok(who)
}

/// What a client's frame asks the terminal for.
#[derive(Clone, Debug)]
pub enum TerminalFrame {
    Ignore,
    Input(String),
    Resize { cols: u16, rows: u16 },
}

/// What a frame asks for, in texts.
pub enum FrameView {
    Ignore,
    Input(Seq<char>),
    Resize { cols: u16, rows: u16 },
}

impl View for TerminalFrame {
    type V = FrameView;

    open spec fn view(&self) -> FrameView {
        match *self {
            TerminalFrame::Ignore => FrameView::Ignore,
            TerminalFrame::Input(s) => FrameView::Input(s@),
            TerminalFrame::Resize { cols, rows } => FrameView::Resize { cols, rows },
        }
    }
}

/// A dimension within bounds, with a default where the frame gives no whole number.
pub open spec fn dimension(value: Option<JsonView>, default: u64, low: u64, high: u64) -> u64 {
    let n = match value {
        Some(JsonView::Uint(n)) => n,
        _ => default,
    };
    if n < low {
        low
    } else if n > high {
        high
    } else {
        n
    }
}

fn dimension_of(value: &Option<Json>, default: u64, low: u64, high: u64) -> (r: u64)
    ensures
        r == dimension(value_view(*value), default, low, high),
{
    let n: u64 = match value {
        Some(Json::Uint(n)) => *n,
        _ => default,
    };
    if n < low {
        low
    } else if n > high {
        high
    } else {
        n
    }
}

/// What a frame is, given the value of its `input` and, where it has a `resize`, the values of its
/// dimensions. Input wins.
pub open spec fn frame_from(
    input: Option<JsonView>,
    resize: Option<(Option<JsonView>, Option<JsonView>)>,
) -> FrameView {
    match input {
        Some(JsonView::Text(s)) => FrameView::Input(s),
        _ => match resize {
            None => FrameView::Ignore,
            Some((cols, rows)) => FrameView::Resize {
                cols: dimension(cols, 100, 20, 500) as u16,
                rows: dimension(rows, 30, 4, 300) as u16,
            },
        },
    }
}

/// The dimensions of a `resize`, where there is one.
pub open spec fn resize_view(resize: Option<(Option<Json>, Option<Json>)>) -> Option<
    (Option<JsonView>, Option<JsonView>),
> {
    match resize {
        Some((cols, rows)) => Some((value_view(cols), value_view(rows))),
        None => None,
    }
}

/// Decides what a frame is.
pub fn frame_of(input: &Option<Json>, resize: &Option<(Option<Json>, Option<Json>)>) -> (r:
    TerminalFrame)
    ensures
        r@ == frame_from(value_view(*input), resize_view(*resize)),
{
    match input {
        Some(Json::Text(s)) => TerminalFrame::Input(s.clone()),
        _ => match resize {
            None => TerminalFrame::Ignore,
            Some(d) => {
                let cols: u64 = dimension_of(&d.0, 100, 20, 500);
                let rows: u64 = dimension_of(&d.1, 30, 4, 300);
                TerminalFrame::Resize { cols: cols as u16, rows: rows as u16 }
            },
        },
    }
}

pub open spec fn resize_in(v: JsonView) -> Option<(Option<JsonView>, Option<JsonView>)> {
    match v.get("resize"@) {
        None => None,
        Some(t) => Some((json_member(t, "cols"@), json_member(t, "rows"@))),
    }
}

pub open spec fn input_in(v: JsonView) -> Option<JsonView> {
    match v.get("input"@) {
        None => None,
        Some(t) => json_value(t),
    }
}

/// What a client's text asks for: one that is not JSON asks for nothing.
pub open spec fn spec_frame(text: Seq<char>) -> FrameView {
    match json_value(text) {
        None => FrameView::Ignore,
        Some(v) => frame_from(input_in(v), resize_in(v)),
    }
}

/// Reads a client's frame; one that is not JSON is ignored.
pub fn terminal_frame(text: &str) -> (r: TerminalFrame)
    ensures
        r@ == spec_frame(text@),
{
    match parse_json(text) {
        None => TerminalFrame::Ignore,
        Some(v) => {
            let input = match v.get("input") {
                None => None,
                Some(t) => parse_json(t.as_str()),
            };
            let resize = match v.get("resize") {
                None => None,
                Some(t) => Some((read_member(t.as_str(), "cols"), read_member(t.as_str(), "rows"))),
            };
            frame_of(&input, &resize)
        },
    }
}

/// What happens on an open terminal.
#[derive(Clone, Debug)]
pub enum TerminalEvent {
    /// The shell printed something.
    Printed,
    /// The shell is gone.
    ShellEnded,
    /// The client sent a text.
    Text(String),
    /// The client sent something else.
    Other,
    /// The client is gone, or could not be reached, or the shell does not read any more.
    Broken,
}

/// What is done about it.
#[derive(Clone, Debug)]
pub enum TerminalAction {
    /// What was printed is sent on.
    Forward,
    /// This is said, and the session is over.
    SayAndEnd(&'static str),
    /// This goes to the shell.
    Type(String),
    /// The terminal gets this size.
    Resize { cols: u16, rows: u16 },
    Nothing,
    End,
}

/// What is said when the shell is gone.
pub const SESSION_ENDED: &'static str = "\r\n[session ended]\r\n";

/// What is said where no terminal can be had.
pub const PTY_UNAVAILABLE: &'static str = "\r\n[pty unavailable]\r\n";

/// What is said where the shell does not start.
pub const SPAWN_FAILED: &'static str = "\r\n[shell spawn failed]\r\n";

/// Whether that is done about what a frame asks for.
pub open spec fn answers_frame(a: TerminalAction, f: FrameView) -> bool {
    match f {
        FrameView::Ignore => a is Nothing,
        FrameView::Input(s) => a is Type && a->Type_0@ == s,
        FrameView::Resize { cols, rows } => a == (TerminalAction::Resize { cols, rows }),
    }
}

/// Decides what is done about a frame.
pub fn frame_action(f: TerminalFrame) -> (r: TerminalAction)
    ensures
        answers_frame(r, f@),
{
    match f {
        TerminalFrame::Ignore => TerminalAction::Nothing,
        TerminalFrame::Input(s) => TerminalAction::Type(s),
        TerminalFrame::Resize { cols, rows } => TerminalAction::Resize { cols, rows },
    }
}

/// Decides what is done about what happened on an open terminal. A session ends with its shell
/// or with its client, and with nothing else: a text that means nothing is passed over.
pub fn terminal_action(e: &TerminalEvent) -> (r: TerminalAction)
    ensures
        match e {
            TerminalEvent::Printed => r is Forward,
            TerminalEvent::ShellEnded => r == TerminalAction::SayAndEnd(SESSION_ENDED),
            TerminalEvent::Text(t) => answers_frame(r, spec_frame(t@)),
            TerminalEvent::Other => r is Nothing,
            TerminalEvent::Broken => r is End,
        },
{
    match e {
        TerminalEvent::Printed => TerminalAction::Forward,
        TerminalEvent::ShellEnded => TerminalAction::SayAndEnd(SESSION_ENDED),
        TerminalEvent::Text(t) => frame_action(terminal_frame(t.as_str())),
        TerminalEvent::Other => TerminalAction::Nothing,
        TerminalEvent::Broken => TerminalAction::End,
    }
}

/// Nothing that a client sends ends a session, whatever it holds.
pub proof fn no_text_ends_a_session(text: Seq<char>, done: TerminalAction)
    requires
        answers_frame(done, spec_frame(text)),
    ensures
        done !is End,
        done !is SayAndEnd,
{
}

/// A terminal never gets a size that it cannot have, whatever the client sends.
pub proof fn a_terminal_stays_within_bounds(text: Seq<char>)
    ensures
        spec_frame(text) matches FrameView::Resize { cols, rows } ==> 20 <= cols <= 500 && 4 <= rows
            <= 300,
{
}

/// The name under which a viewer of the event stream is counted.
pub fn stream_viewer(accounts: bool, user: &Option<AuthUser>) -> (r: String)
    ensures
        r@ == if !accounts {
            "local"@
        } else {
            match user {
                Some(u) => u.username@,
                None => "anonymous"@,
            }
        },
{
    if !accounts {
        return owned("local");
    }
    match user {
        Some(u) => u.username.clone(),
        None => owned("anonymous"),
    }
}

/// A terminal opens exactly for an admin or the hub's owner (for anyone where there are no
/// accounts), from the hub's own pages, on a project that exists, in a process that serves sockets
/// and may execute.
pub proof fn a_terminal_opens_for_those_who_run_the_hub(c: TerminalContext)
    ensures
        terminal_refusal(c) is None <==> {
            &&& c.serves_realtime
            &&& c.same_origin
            &&& c.accounts ==> c.user is Some && (c.user->0.role == AuthRole::Admin
                || c.user->0.role == AuthRole::Super)
            &&& c.project_exists
            &&& !c.no_inline_exec
        },
        match terminal_refusal(c) {
            Some((status, _, _)) => {
                &&& status == 401 ==> c.accounts && c.user is None
                &&& status == 404 ==> !c.project_exists
                &&& status == 503 ==> !c.serves_realtime || c.no_inline_exec
                &&& status == 403 ==> !c.same_origin || c.accounts
                &&& status == 401 || status == 403 || status == 404 || status == 503
            },
            None => true,
        },
{
}

/// What is typed reaches the shell as it is, whatever else the frame holds; a size that a terminal
/// can have is taken as it is; a dimension that is missing or no whole number is the usual one.
pub proof fn a_frame_is_taken_at_its_word(
    typed: Seq<char>,
    resize: Option<(Option<JsonView>, Option<JsonView>)>,
    cols: u64,
    rows: u64,
)
    ensures
        frame_from(Some(JsonView::Text(typed)), resize) == FrameView::Input(typed),
        20 <= cols <= 500 && 4 <= rows <= 300 ==> frame_from(
            None,
            Some((Some(JsonView::Uint(cols)), Some(JsonView::Uint(rows)))),
        ) == (FrameView::Resize { cols: cols as u16, rows: rows as u16 }),
        frame_from(None, Some((None, None))) == (FrameView::Resize { cols: 100, rows: 30 }),
        frame_from(None, None) == FrameView::Ignore,
        cols < 20 && rows < 4 ==> frame_from(
            None,
            Some((Some(JsonView::Uint(cols)), Some(JsonView::Uint(rows)))),
        ) == (FrameView::Resize { cols: 20, rows: 4 }),
        cols > 500 && rows > 300 ==> frame_from(
            None,
            Some((Some(JsonView::Uint(cols)), Some(JsonView::Uint(rows)))),
        ) == (FrameView::Resize { cols: 500, rows: 300 }),
{
}

/// A text that is not JSON, or holds neither input nor a size, is passed over; one whose input is
/// a text types it.
pub proof fn a_text_is_read_by_its_members(text: Seq<char>)
    ensures
        json_value(text) is None ==> spec_frame(text) == FrameView::Ignore,
        json_value(text) is Some && json_value(text)->0.get("input"@) is None && json_value(
            text,
        )->0.get("resize"@) is None ==> spec_frame(text) == FrameView::Ignore,
        json_value(text) is Some && json_value(text)->0.get("input"@) is Some && json_value(
            json_value(text)->0.get("input"@)->0,
        ) is Some && json_value(json_value(text)->0.get("input"@)->0)->0 is Text ==> spec_frame(text)
            == FrameView::Input(json_value(json_value(text)->0.get("input"@)->0)->0->Text_0),
        json_value(text) is Some && json_value(text)->0.get("input"@) is None && json_value(
            text,
        )->0.get("resize"@) is Some ==> spec_frame(text) is Resize,
{
}

/// What is typed is what the shell gets, and a new size is what the terminal gets; a frame that
/// says nothing does nothing.
pub proof fn the_shell_gets_what_is_typed(a: TerminalAction, f: FrameView)
    requires
        answers_frame(a, f),
    ensures
        match (f, a) {
            (FrameView::Input(s), TerminalAction::Type(t)) => t@ == s,
            (FrameView::Resize { cols, rows }, TerminalAction::Resize { cols: c, rows: r }) => c
                == cols && r == rows,
            (FrameView::Ignore, TerminalAction::Nothing) => true,
            _ => false,
        },
{
}

} // verus!

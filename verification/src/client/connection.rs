//! The life of the connection: logging in, opening the socket, and what each event on it calls
//! for.
use vstd::prelude::*;

use crate::client::{Client, LoginRequest};

verus! {

/// Seconds between two attempts to log in.
pub const LOGIN_RETRY_SECS: u64 = 10;

/// Seconds between two attempts to open the socket.
pub const SOCKET_RETRY_SECS: u64 = 5;

/// Seconds between two announcements of the player.
pub const ANNOUNCE_GAP_SECS: u64 = 5;

/// How often the player is announced on a new socket.
pub const ANNOUNCEMENTS: u32 = 3;

/// How far the connection has come.
#[derive(PartialEq, Eq, Structural, Clone, Copy, Debug)]
pub enum Phase {
    /// Not logged in yet.
    Login,
    /// Logged in, without a socket.
    Socket,
    /// Exchanging messages.
    Messages,
}

/// What happened to the last action, or on the socket.
#[derive(Debug)]
pub enum Event {
    /// The login was answered with this status and, where the body could be read, a token.
    LoginAnswered { status: u16, token: Option<String> },
    /// The login got no answer.
    LoginFailed,
    SocketOpened,
    SocketFailed,
    /// A message arrived, with its text where it has one.
    Received { is_ping: bool, text: Option<String> },
    ReceiveFailed,
    /// A message is to be sent, with its text where it could be written.
    Outgoing { text: Option<String> },
    Sent,
    SendFailed,
    /// There is nothing left to wait for.
    Ended,
}

/// What is done next.
#[derive(Debug)]
pub enum Action {
    /// Log in, after waiting.
    Login { wait_secs: u64, url: String, req: LoginRequest },
    /// Open the socket with this authorization, after waiting.
    OpenSocket { wait_secs: u64, url: String, auth: String },
    /// Announce the player a few times, and wait for the next event.
    Announce,
    /// Wait for the next event.
    Listen,
    /// Hand the text to the modules.
    Handle { text: String },
    /// Send the text.
    Send { text: String },
}

/// The connection's state.
#[derive(Debug)]
pub struct Connection {
    pub phase: Phase,
    /// The authorization that logging in gave.
    pub auth: String,
}

/// Whether an event can happen in a phase.
pub open spec fn expected(phase: Phase, event: Event) -> bool {
    match event {
        Event::LoginAnswered { .. } | Event::LoginFailed => phase == Phase::Login,
        Event::SocketOpened | Event::SocketFailed => phase == Phase::Socket,
        _ => phase == Phase::Messages,
    }
}

/// The token that a login answer gives: only with status 200 and a readable body.
pub open spec fn token_of(event: Event) -> Option<Seq<char>> {
    match event {
        Event::LoginAnswered { status, token: Some(token) } if status == 200 => Some(token@),
        _ => None,
    }
}

/// Whether an event on the socket ends it.
pub open spec fn breaks(event: Event) -> bool {
    match event {
        Event::ReceiveFailed | Event::SendFailed | Event::Ended => true,
        Event::Outgoing { text } => text is None,
        _ => false,
    }
}

/// The phase after an event.
pub open spec fn next_phase(phase: Phase, event: Event) -> Phase {
    match phase {
        Phase::Login => if token_of(event) is Some {
            Phase::Socket
        } else {
            Phase::Login
        },
        Phase::Socket => if event is SocketOpened {
            Phase::Messages
        } else {
            Phase::Socket
        },
        Phase::Messages => if breaks(event) {
            Phase::Socket
        } else {
            Phase::Messages
        },
    }
}

/// The authorization after an event.
pub open spec fn next_auth(phase: Phase, auth: Seq<char>, event: Event) -> Seq<char> {
    match token_of(event) {
        Some(token) if phase == Phase::Login => "Bearer "@ + token,
        _ => auth,
    }
}

/// Whether an action is a login at this client's server after `wait_secs`.
pub open spec fn is_login(
    action: Action,
    client: Client,
    password: Seq<char>,
    wait_secs: u64,
) -> bool {
    action matches Action::Login { wait_secs: w, url, req } && w == wait_secs && url@
        == crate::client::http_base(client.host@) + "/api/login"@ && req.username@ == "game"@
        && req.password@ == password
}

/// Whether an action opens this client's socket with `auth` after `wait_secs`.
pub open spec fn is_open(action: Action, client: Client, auth: Seq<char>, wait_secs: u64) -> bool {
    action matches Action::OpenSocket { wait_secs: w, url, auth: a } && w == wait_secs && url@
        == crate::client::ws_base(client.host@) + "/socket?id="@ + client.unique_id@ && a@ == auth
}

/// Whether `action` is what the event calls for. A login that gave a token leads to the socket,
/// any other is tried again; a socket that cannot be opened is tried again; a broken one is opened
/// anew at once. Pings and messages without text are passed over.
pub open spec fn called_for(
    phase: Phase,
    auth: Seq<char>,
    event: Event,
    client: Client,
    password: Seq<char>,
    action: Action,
) -> bool {
    match event {
        Event::LoginAnswered { .. } | Event::LoginFailed => if token_of(event) is Some {
            is_open(action, client, next_auth(phase, auth, event), 0)
        } else {
            is_login(action, client, password, LOGIN_RETRY_SECS)
        },
        Event::SocketOpened => action is Announce,
        Event::SocketFailed => is_open(action, client, auth, SOCKET_RETRY_SECS),
        Event::Received { is_ping, text } => match text {
            Some(t) if !is_ping => action matches Action::Handle { text: h } && h@ == t@,
            _ => action is Listen,
        },
        Event::Outgoing { text: Some(t) } => action matches Action::Send { text: s } && s@ == t@,
        Event::Sent => action is Listen,
        Event::Outgoing { .. } | Event::ReceiveFailed | Event::SendFailed | Event::Ended => is_open(
            action,
            client,
            auth,
            0,
        ),
    }
}

impl Connection {
    /// A connection that is not logged in.
    pub fn new() -> (r: Self)
        ensures
            r.phase == Phase::Login,
            r.auth@ == Seq::<char>::empty(),
    {
        Connection { phase: Phase::Login, auth: String::new() }
    }

    /// The first action: logging in at once.
    pub fn start(&self, client: &Client, password: &str) -> (r: Action)
        ensures
            is_login(r, *client, password@, 0),
    {
        Action::Login {
            wait_secs: 0,
            url: client.login_url(),
            req: client.login_request(password),
        }
    }

    fn open(&self, client: &Client, wait_secs: u64) -> (r: Action)
        ensures
            is_open(r, *client, self.auth@, wait_secs),
    {
        Action::OpenSocket { wait_secs, url: client.socket_url(), auth: self.auth.clone() }
    }

    /// Takes in an event, and says what is done next.
    pub fn step(&mut self, client: &Client, password: &str, event: Event) -> (r: Action)
        requires
            expected(old(self).phase, event),
        ensures
            final(self).phase == next_phase(old(self).phase, event),
            final(self).auth@ == next_auth(old(self).phase, old(self).auth@, event),
            called_for(old(self).phase, old(self).auth@, event, *client, password@, r),
    {
        match event {
            Event::LoginAnswered { status, token } => {
                if status == 200 {
                    if let Some(token) = token {
                        let mut auth = "Bearer ".to_owned();
                        auth.append(token.as_str());
                        self.auth = auth;
                        self.phase = Phase::Socket;
                        return self.open(client, 0);
                    }
                }
                Action::Login {
                    wait_secs: LOGIN_RETRY_SECS,
                    url: client.login_url(),
                    req: client.login_request(password),
                }
            },
            Event::LoginFailed => Action::Login {
                wait_secs: LOGIN_RETRY_SECS,
                url: client.login_url(),
                req: client.login_request(password),
            },
            Event::SocketOpened => {
                self.phase = Phase::Messages;
                Action::Announce
            },
            Event::SocketFailed => self.open(client, SOCKET_RETRY_SECS),
            Event::Received { is_ping, text } => {
                if is_ping {
                    return Action::Listen;
                }
                match text {
                    Some(text) => Action::Handle { text },
                    None => Action::Listen,
                }
            },
            Event::Outgoing { text: Some(text) } => Action::Send { text },
            Event::Sent => Action::Listen,
            Event::Outgoing { text: None } | Event::ReceiveFailed | Event::SendFailed
            | Event::Ended => {
                self.phase = Phase::Socket;
                self.open(client, 0)
            },
        }
    }
}

/// The seconds to wait before the player is announced, after so many times.
pub open spec fn wait_before(times: u32) -> Option<u64> {
    if times == 0 {
        Some(0u64)
    } else if times < ANNOUNCEMENTS {
        Some(ANNOUNCE_GAP_SECS)
    } else {
        None
    }
}

/// The seconds to wait before the player is announced again on a new socket, after so many times:
/// none before the first, a gap before the others, and no more after the last.
pub fn announce_wait(times: u32) -> (r: Option<u64>)
    ensures
        r == wait_before(times),
{
    if times == 0 {
        Some(0)
    } else if times < ANNOUNCEMENTS {
        Some(ANNOUNCE_GAP_SECS)
    } else {
        None
    }
}

/// Once logged in, the connection never logs in again and keeps its authorization.
pub proof fn lemma_login_is_kept(phase: Phase, auth: Seq<char>, event: Event)
    requires
        phase != Phase::Login,
        expected(phase, event),
    ensures
        next_phase(phase, event) != Phase::Login,
        next_auth(phase, auth, event) == auth,
{
}

/// Logging in. An answer with status 200 and a token leads to the socket, at once and with the
/// token as a bearer's; anything else is tried again in ten seconds.
pub proof fn lemma_logging_in(
    auth: Seq<char>,
    event: Event,
    client: Client,
    password: Seq<char>,
    action: Action,
)
    requires
        expected(Phase::Login, event),
        called_for(Phase::Login, auth, event, client, password, action),
    ensures
        match event {
            Event::LoginAnswered { status: 200, token: Some(token) } => {
                &&& next_phase(Phase::Login, event) == Phase::Socket
                &&& next_auth(Phase::Login, auth, event) == "Bearer "@ + token@
                &&& action matches Action::OpenSocket { wait_secs, url, auth: sent } && wait_secs
                    == 0 && sent@ == "Bearer "@ + token@ && url@ == crate::client::ws_base(
                    client.host@,
                ) + "/socket?id="@ + client.unique_id@
            },
            _ => {
                &&& next_phase(Phase::Login, event) == Phase::Login
                &&& next_auth(Phase::Login, auth, event) == auth
                &&& action matches Action::Login { wait_secs, url, req } && wait_secs == 10 && url@
                    == crate::client::http_base(client.host@) + "/api/login"@ && req.username@
                    == "game"@ && req.password@ == password
            },
        },
{
}

/// Opening the socket. Once it is open the player is announced; until then it is tried again every
/// five seconds, with the same authorization.
pub proof fn lemma_opening(
    auth: Seq<char>,
    event: Event,
    client: Client,
    password: Seq<char>,
    action: Action,
)
    requires
        expected(Phase::Socket, event),
        called_for(Phase::Socket, auth, event, client, password, action),
    ensures
        next_auth(Phase::Socket, auth, event) == auth,
        event is SocketOpened ==> next_phase(Phase::Socket, event) == Phase::Messages
            && action is Announce,
        !(event is SocketOpened) ==> next_phase(Phase::Socket, event) == Phase::Socket && (
        action matches Action::OpenSocket { wait_secs, url, auth: sent } && wait_secs == 5 && sent@
            == auth && url@ == crate::client::ws_base(client.host@) + "/socket?id="@
            + client.unique_id@),
{
}

/// Exchanging messages. Texts that arrive are handed on, unless they are pings, and texts to send
/// are sent. Where receiving or sending fails, where a message cannot be written and where nothing
/// is left, the socket is opened anew at once; nothing else ends it.
pub proof fn lemma_exchanging(
    auth: Seq<char>,
    event: Event,
    client: Client,
    password: Seq<char>,
    action: Action,
)
    requires
        expected(Phase::Messages, event),
        called_for(Phase::Messages, auth, event, client, password, action),
    ensures
        next_auth(Phase::Messages, auth, event) == auth,
        match event {
            Event::Received { is_ping: false, text: Some(t) } => action matches Action::Handle {
                text,
            } && text@ == t@ && next_phase(Phase::Messages, event) == Phase::Messages,
            Event::Received { .. } | Event::Sent => action is Listen && next_phase(
                Phase::Messages,
                event,
            ) == Phase::Messages,
            Event::Outgoing { text: Some(t) } => action matches Action::Send { text } && text@ == t@
                && next_phase(Phase::Messages, event) == Phase::Messages,
            _ => next_phase(Phase::Messages, event) == Phase::Socket && (
            action matches Action::OpenSocket { wait_secs, url, auth: sent } && wait_secs == 0
                && sent@ == auth && url@ == crate::client::ws_base(client.host@) + "/socket?id="@
                + client.unique_id@),
        },
{
}

/// The player is announced three times on a new socket: at once, and then every five seconds.
pub proof fn lemma_announcements(times: u32)
    ensures
        times == 0 ==> wait_before(times) == Some(0u64),
        times == 1 || times == 2 ==> wait_before(times) == Some(5u64),
        times >= 3 ==> wait_before(times) is None,
{
}

} // verus!

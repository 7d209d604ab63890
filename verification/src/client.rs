//! The connection to the server: who this client is, where the server is, and what is said first.
use vstd::prelude::*;

pub mod connection;
pub mod time;

pub use time::{parse_network_time, NetworkTime};

use crate::game::FromGame;
use crate::text::{begins_with, same_text};

verus! {

/// A message that is sent on the socket.
pub trait StreamRequest {

}

/// A message that is posted to the server.
pub trait ApiPostRequest {
    spec fn path(&self) -> Seq<char>;

    /// The path that the message is posted to.
    fn url(&self) -> (r: &'static str)
        ensures
            r@ == self.path(),
    ;
}

impl ApiPostRequest for crate::names::NameClaim {
    open spec fn path(&self) -> Seq<char> {
        "/api/claims"@
    }

    fn url(&self) -> (r: &'static str) {
        "/api/claims"
    }
}

/// What requests of several kinds have in common.
#[derive(Debug)]
pub struct CommonRequest {
    /// The client that a request is for, where it is not for all.
    pub player: Option<String>,
}

/// A player's id and name.
#[derive(Debug)]
pub struct PlayerName {
    pub id: String,
    pub name: String,
}

impl ApiPostRequest for PlayerName {
    open spec fn path(&self) -> Seq<char> {
        "/api/players"@
    }

    fn url(&self) -> (r: &'static str) {
        "/api/players"
    }
}

/// What a client logs in with.
#[derive(Debug)]
pub struct LoginRequest {
    pub username: String,
    pub password: String,
}

/// What the server answers to a login.
#[derive(Debug)]
pub struct LoginResponse {
    pub token: String,
}

/// The client's own messages on the socket.
#[derive(Debug)]
pub enum CoreStreamRequest {
    SetPlayer { name: String },
}

impl StreamRequest for CoreStreamRequest {

}

/// Whether a request of this content announces the player `name`.
pub open spec fn announces(req: Option<CoreStreamRequest>, name: Seq<char>) -> bool {
    match req {
        Some(CoreStreamRequest::SetPlayer { name: n }) => n@ == name,
        None => false,
    }
}

/// Whether a host is this machine, which is spoken to without encryption.
pub open spec fn is_local(host: Seq<char>) -> bool {
    crate::text::occurs_at(host, "localhost"@, 0)
}

/// The start of every address on the host.
pub open spec fn http_base(host: Seq<char>) -> Seq<char> {
    if is_local(host) {
        "http"@ + "://"@ + host
    } else {
        "https"@ + "://"@ + host
    }
}

/// The start of every socket address on the host.
pub open spec fn ws_base(host: Seq<char>) -> Seq<char> {
    if is_local(host) {
        "ws"@ + "://"@ + host
    } else {
        "wss"@ + "://"@ + host
    }
}

/// This client, as the server knows it.
#[derive(Debug)]
pub struct Client {
    pub host: String,
    pub unique_id: String,
    pub game: FromGame,
    /// The last player name that was not empty.
    pub player_name: String,
}

impl Client {
    /// A client whose player is not known yet.
    pub fn new(host: &str, unique_id: &str, game: FromGame) -> (r: Self)
        ensures
            r.host@ == host@,
            r.unique_id@ == unique_id@,
            r.game == game,
            r.player_name@ == Seq::<char>::empty(),
    {
        Client {
            host: host.to_owned(),
            unique_id: unique_id.to_owned(),
            game,
            player_name: String::new(),
        }
    }

    /// Takes the player's name from the game. An empty name is passed over; a new name is kept
    /// and announced.
    pub fn set_player(&mut self, name: &str) -> (r: Option<CoreStreamRequest>)
        ensures
            final(self).player_name@ == player_after(old(self).player_name@, name@),
            final(self).host == old(self).host,
            final(self).unique_id == old(self).unique_id,
            final(self).game == old(self).game,
            r is Some <==> player_is_new(old(self).player_name@, name@),
            r is Some ==> announces(r, name@),
    {
        proof {
            reveal_strlit("");
        }
        if same_text(name, "") {
            assert(name@.len() == 0);
            return None;
        }
        assert(name@.len() == 0 ==> name@ =~= ""@);
        if same_text(name, self.player_name.as_str()) {
            return None;
        }
        self.player_name = name.to_owned();
        Some(CoreStreamRequest::SetPlayer { name: name.to_owned() })
    }

    /// What is said on a new connection: the player's name, if it is known.
    pub fn connect(&self) -> (r: Option<CoreStreamRequest>)
        ensures
            if self.player_name@.len() == 0 {
                r is None
            } else {
                announces(r, self.player_name@)
            },
    {
        proof {
            reveal_strlit("");
        }
        if same_text(self.player_name.as_str(), "") {
            assert(self.player_name@.len() == 0);
            return None;
        }
        assert(self.player_name@.len() == 0 ==> self.player_name@ =~= ""@);
        Some(CoreStreamRequest::SetPlayer { name: self.player_name.clone() })
    }

    /// The start of every address on the server.
    pub fn get_http_base(&self) -> (r: String)
        ensures
            r@ == http_base(self.host@),
    {
        let mut out = if begins_with(self.host.as_str(), "localhost") {
            "http".to_owned()
        } else {
            "https".to_owned()
        };
        out.append("://");
        out.append(self.host.as_str());
        out
    }

    /// The start of every socket address on the server.
    pub fn get_ws_base(&self) -> (r: String)
        ensures
            r@ == ws_base(self.host@),
    {
        let mut out = if begins_with(self.host.as_str(), "localhost") {
            "ws".to_owned()
        } else {
            "wss".to_owned()
        };
        out.append("://");
        out.append(self.host.as_str());
        out
    }

    /// Where the client logs in.
    pub fn login_url(&self) -> (r: String)
        ensures
            r@ == http_base(self.host@) + "/api/login"@,
    {
        let mut out = self.get_http_base();
        out.append("/api/login");
        out
    }

    /// Where a message with this path is posted.
    pub fn post_url(&self, path: &str) -> (r: String)
        ensures
            r@ == http_base(self.host@) + "/"@ + path@,
    {
        let mut out = self.get_http_base();
        out.append("/");
        out.append(path);
        out
    }

    /// Where the socket is opened, with this client's id.
    pub fn socket_url(&self) -> (r: String)
        ensures
            r@ == ws_base(self.host@) + "/socket?id="@ + self.unique_id@,
    {
        let mut out = self.get_ws_base();
        out.append("/socket?id=");
        out.append(self.unique_id.as_str());
        out
    }

    /// The login of a game client.
    pub fn login_request(&self, password: &str) -> (r: LoginRequest)
        ensures
            r.username@ == "game"@,
            r.password@ == password@,
    {
        LoginRequest { username: "game".to_owned(), password: password.to_owned() }
    }
}

/// A player's name is announced when it changes and not again while it stays the same.
pub proof fn lemma_same_player_is_announced_once(name: Seq<char>, stored: Seq<char>)
    ensures
        player_after(player_after(stored, name), name) == player_after(stored, name),
        !player_is_new(player_after(stored, name), name),
{
}

/// The stored player name after the game reports `name`.
pub open spec fn player_after(stored: Seq<char>, name: Seq<char>) -> Seq<char> {
    if name.len() == 0 {
        stored
    } else {
        name
    }
}

/// Whether the reported name is announced.
pub open spec fn player_is_new(stored: Seq<char>, name: Seq<char>) -> bool {
    name.len() > 0 && name != stored
}

/// A host that begins with localhost is spoken to without encryption, any other with it.
pub proof fn lemma_bases(host: Seq<char>)
    ensures
        ({
            let here = host.len() >= 9 && host.take(9) == seq![
                'l',
                'o',
                'c',
                'a',
                'l',
                'h',
                'o',
                's',
                't',
            ];
            &&& here ==> http_base(host) == "http://"@ + host && ws_base(host) == "ws://"@ + host
            &&& !here ==> http_base(host) == "https://"@ + host && ws_base(host) == "wss://"@
                + host
        }),
{
    reveal_strlit("localhost");
    reveal_strlit("http");
    reveal_strlit("https");
    reveal_strlit("ws");
    reveal_strlit("wss");
    reveal_strlit("://");
    reveal_strlit("http://");
    reveal_strlit("https://");
    reveal_strlit("ws://");
    reveal_strlit("wss://");
    let word = seq!['l', 'o', 'c', 'a', 'l', 'h', 'o', 's', 't'];
    assert("localhost"@ =~= word);
    if host.len() >= 9 {
        assert(host.subrange(0, 9) =~= host.take(9));
    }
    assert("http"@ + "://"@ =~= "http://"@);
    assert("https"@ + "://"@ =~= "https://"@);
    assert("ws"@ + "://"@ =~= "ws://"@);
    assert("wss"@ + "://"@ =~= "wss://"@);
}

/// A name is announced just where it is not empty and not the one before; it is then the one that
/// is kept, and an empty one never is.
pub proof fn lemma_player(stored: Seq<char>, name: Seq<char>)
    ensures
        player_is_new(stored, name) <==> name.len() > 0 && player_after(stored, name) != stored,
        name.len() > 0 ==> player_after(stored, name) == name,
        name.len() == 0 ==> player_after(stored, name) == stored,
{
}

} // verus!

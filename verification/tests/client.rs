use souls_client::client::connection::{Action, Connection, Event, Phase};
use souls_client::client::time::{network_time_from, write_network_time};
use souls_client::client::{
    parse_network_time, ApiPostRequest, Client, CoreStreamRequest, NetworkTime, PlayerName,
};
use souls_client::game::FromGame;

fn client(host: &str) -> Client {
    Client::new(host, "beef", FromGame::ER)
}

fn name_of(req: Option<CoreStreamRequest>) -> Option<String> {
    req.map(|CoreStreamRequest::SetPlayer { name }| name)
}

#[test]
fn addresses_depend_on_the_host() {
    let local = client("localhost:3000");
    assert_eq!(local.get_http_base(), "http://localhost:3000");
    assert_eq!(local.get_ws_base(), "ws://localhost:3000");
    let remote = client("example.org");
    assert_eq!(remote.get_http_base(), "https://example.org");
    assert_eq!(remote.get_ws_base(), "wss://example.org");
    assert_eq!(remote.login_url(), "https://example.org/api/login");
    assert_eq!(remote.post_url("/api/claims"), "https://example.org//api/claims");
    assert_eq!(remote.socket_url(), "wss://example.org/socket?id=beef");
}

#[test]
fn players_are_posted_to_players() {
    let req = PlayerName { id: "beef".to_string(), name: "Rya".to_string() };
    assert_eq!(req.url(), "/api/players");
}

#[test]
fn player_names_are_announced_when_they_change() {
    let mut c = client("example.org");
    assert_eq!(name_of(c.connect()), None);
    assert_eq!(name_of(c.set_player("")), None);
    assert_eq!(name_of(c.set_player("Rya")), Some("Rya".to_string()));
    assert_eq!(name_of(c.set_player("Rya")), None);
    assert_eq!(name_of(c.set_player("")), None);
    assert_eq!(name_of(c.connect()), Some("Rya".to_string()));
    assert_eq!(name_of(c.set_player("Roderika")), Some("Roderika".to_string()));
    assert_eq!(c.player_name, "Roderika");
}

#[test]
fn times_are_read() {
    assert_eq!(parse_network_time(""), None);
    assert_eq!(parse_network_time("yesterday"), None);
    assert_eq!(parse_network_time("2026-01-01"), None);
    assert_eq!(
        parse_network_time("1996-12-19T16:39:57.25-08:00"),
        Some(NetworkTime { secs: 851042397, nanos: 250_000_000, offset: -28800 })
    );
    assert_eq!(
        parse_network_time("1970-01-01T00:00:00Z"),
        Some(NetworkTime { secs: 0, nanos: 0, offset: 0 })
    );
}

#[test]
fn a_given_reading_is_taken_over() {
    assert_eq!(network_time_from("", Some((1, 2, 3))), None);
    assert_eq!(network_time_from("x", None), None);
    assert_eq!(
        network_time_from("x", Some((1, 2, 3))),
        Some(NetworkTime { secs: 1, nanos: 2, offset: 3 })
    );
}

#[test]
fn times_are_written_with_milliseconds() {
    let time = NetworkTime { secs: 1516991409, nanos: 453_829_000, offset: 0 };
    assert!(time.is_valid());
    assert_eq!(write_network_time(time), "2018-01-26T18:30:09.453+00:00");
    let east = NetworkTime { secs: 1516991409, nanos: 0, offset: 3600 };
    assert_eq!(write_network_time(east), "2018-01-26T19:30:09.000+01:00");
    let early = NetworkTime { secs: -1, nanos: 0, offset: 0 };
    assert_eq!(write_network_time(early), "1969-12-31T23:59:59.000+00:00");
}

#[test]
fn valid_times_have_real_fractions_and_offsets() {
    let time = |secs, nanos, offset| NetworkTime { secs, nanos, offset }.is_valid();
    assert!(time(59, 1_999_999_999, 0));
    assert!(time(-1, 1_000_000_000, 0));
    assert!(!time(58, 1_000_000_000, 0));
    assert!(!time(59, 2_000_000_000, 0));
    assert!(!time(0, 0, 86_400));
    assert!(time(8_000_000_000_000, 0, -86_399));
    assert!(!time(8_000_000_000_001, 0, 0));
    assert!(!time(i64::MIN, 0, 0));
    write_network_time(NetworkTime { secs: 8_000_000_000_000, nanos: 0, offset: 86_399 });
    write_network_time(NetworkTime { secs: -8_000_000_000_000, nanos: 0, offset: -86_399 });
    write_network_time(NetworkTime { secs: 59, nanos: 1_999_999_999, offset: 0 });
}

fn login(action: Action) -> (u64, String, String, String) {
    match action {
        Action::Login { wait_secs, url, req } => (wait_secs, url, req.username, req.password),
        other => panic!("{:?}", other),
    }
}

fn open(action: Action) -> (u64, String, String) {
    match action {
        Action::OpenSocket { wait_secs, url, auth } => (wait_secs, url, auth),
        other => panic!("{:?}", other),
    }
}

#[test]
fn logging_in_is_tried_until_it_works() {
    let c = client("example.org");
    let mut conn = Connection::new();
    let expected = |wait: u64| {
        (
            wait,
            "https://example.org/api/login".to_string(),
            "game".to_string(),
            "pw".to_string(),
        )
    };
    assert_eq!(login(conn.start(&c, "pw")), expected(0));
    assert_eq!(login(conn.step(&c, "pw", Event::LoginFailed)), expected(10));
    let refused = Event::LoginAnswered { status: 403, token: Some("t".to_string()) };
    assert_eq!(login(conn.step(&c, "pw", refused)), expected(10));
    let unreadable = Event::LoginAnswered { status: 200, token: None };
    assert_eq!(login(conn.step(&c, "pw", unreadable)), expected(10));
    assert_eq!(conn.phase, Phase::Login);
    let granted = Event::LoginAnswered { status: 200, token: Some("t".to_string()) };
    assert_eq!(
        open(conn.step(&c, "pw", granted)),
        (0, "wss://example.org/socket?id=beef".to_string(), "Bearer t".to_string())
    );
    assert_eq!(conn.phase, Phase::Socket);
}

fn connected(c: &Client) -> Connection {
    let mut conn = Connection::new();
    conn.step(c, "pw", Event::LoginAnswered { status: 200, token: Some("t".to_string()) });
    assert!(matches!(conn.step(c, "pw", Event::SocketOpened), Action::Announce));
    assert_eq!(conn.phase, Phase::Messages);
    conn
}

#[test]
fn sockets_are_opened_again() {
    let c = client("example.org");
    let mut conn = Connection::new();
    conn.step(&c, "pw", Event::LoginAnswered { status: 200, token: Some("t".to_string()) });
    assert_eq!(open(conn.step(&c, "pw", Event::SocketFailed)).0, 5);
    for event in [
        Event::ReceiveFailed,
        Event::SendFailed,
        Event::Ended,
        Event::Outgoing { text: None },
    ] {
        let mut conn = connected(&c);
        let (wait, _, auth) = open(conn.step(&c, "pw", event));
        assert_eq!((wait, auth.as_str()), (0, "Bearer t"));
        assert_eq!(conn.phase, Phase::Socket);
    }
}

#[test]
fn messages_are_handled_and_sent() {
    let c = client("example.org");
    let mut conn = connected(&c);
    let text = || Some("{}".to_string());
    let received = conn.step(&c, "pw", Event::Received { is_ping: false, text: text() });
    assert!(matches!(received, Action::Handle { text } if text == "{}"));
    let ping = conn.step(&c, "pw", Event::Received { is_ping: true, text: text() });
    assert!(matches!(ping, Action::Listen));
    let binary = conn.step(&c, "pw", Event::Received { is_ping: false, text: None });
    assert!(matches!(binary, Action::Listen));
    let sent = conn.step(&c, "pw", Event::Outgoing { text: text() });
    assert!(matches!(sent, Action::Send { text } if text == "{}"));
    assert!(matches!(conn.step(&c, "pw", Event::Sent), Action::Listen));
    assert_eq!(conn.phase, Phase::Messages);
}

#[test]
fn players_are_announced_three_times() {
    let waits: Vec<Option<u64>> = (0..5).map(souls_client::client::connection::announce_wait).collect();
    assert_eq!(waits, vec![Some(0), Some(5), Some(5), None, None]);
}

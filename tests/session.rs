use lokipool::session::{
    AuthSettings, Event, Next, Phase, Session, SessionError, Step, REP_GENERAL_FAILURE,
};
use lokipool::Config;

fn no_auth() -> AuthSettings {
    AuthSettings { use_auth: false, username: Vec::new(), password: Vec::new() }
}

fn user_pass() -> AuthSettings {
    AuthSettings { use_auth: true, username: b"u".to_vec(), password: b"p".to_vec() }
}

fn client(s: &mut Session, bytes: &[u8]) -> Step {
    s.step(Event::Client(bytes.to_vec()))
}

fn upstream(s: &mut Session, bytes: &[u8]) -> Step {
    s.step(Event::Upstream(bytes.to_vec()))
}

fn reads_client(step: &Step, n: usize) -> bool {
    matches!(step.next, Next::ReadClient(k) if k == n)
}

fn reads_upstream(step: &Step, n: usize) -> bool {
    matches!(step.next, Next::ReadUpstream(k) if k == n)
}

fn closes(step: &Step, why: SessionError) -> bool {
    matches!(step.next, Next::Close(e) if e == why)
}

/// A no-auth session that has read `CONNECT 127.0.0.1:9000`.
fn connected_request() -> Session {
    let (mut s, first) = Session::new(no_auth());
    assert!(matches!(first, Next::ReadClient(2)));
    assert!(reads_client(&client(&mut s, &[5, 1]), 1));
    let st = client(&mut s, &[0]);
    assert_eq!(st.to_client, vec![5, 0]);
    assert!(reads_client(&st, 4));
    assert!(reads_client(&client(&mut s, &[5, 1, 0, 1]), 4));
    assert!(reads_client(&client(&mut s, &[0x7f, 0, 0, 1]), 2));
    let st = client(&mut s, &[0x23, 0x28]);
    assert!(matches!(st.next, Next::SelectUpstream));
    assert!(st.to_client.is_empty());
    s
}

#[test]
fn no_auth_happy_path() {
    let mut s = connected_request();
    let st = s.step(Event::Selected(Some("127.0.0.1:1180".to_string())));
    assert!(matches!(&st.next, Next::Connect(a) if a == "127.0.0.1:1180"));
    let st = s.step(Event::Connected(true));
    assert_eq!(st.to_upstream, vec![5, 1, 0]);
    assert!(reads_upstream(&st, 2));
    let st = upstream(&mut s, &[5, 0]);
    assert_eq!(st.to_upstream, vec![5, 1, 0, 1, 0x7f, 0, 0, 1, 0x23, 0x28]);
    assert!(reads_upstream(&st, 4));
    let st = upstream(&mut s, &[5, 0, 0, 1]);
    assert!(reads_upstream(&st, 6));
    let st = upstream(&mut s, &[127, 0, 0, 1, 0x04, 0x38]);
    assert_eq!(st.to_client, vec![5, 0, 0, 1, 0, 0, 0, 0, 0, 0]);
    assert!(matches!(st.next, Next::Relay));
    assert_eq!(s.phase, Phase::Relaying);
}

#[test]
fn user_pass_wrong_password() {
    let (mut s, _) = Session::new(user_pass());
    client(&mut s, &[5, 1]);
    let st = client(&mut s, &[2]);
    assert_eq!(st.to_client, vec![5, 2]);
    assert!(reads_client(&st, 1));
    client(&mut s, &[1]);
    client(&mut s, &[1]);
    client(&mut s, &[0x75]);
    client(&mut s, &[1]);
    let st = client(&mut s, &[0x71]);
    assert_eq!(st.to_client, vec![1, 1]);
    assert!(closes(&st, SessionError::AuthFailed));
}

#[test]
fn user_pass_right_credentials() {
    let (mut s, _) = Session::new(user_pass());
    client(&mut s, &[5, 2]);
    assert_eq!(client(&mut s, &[0, 2]).to_client, vec![5, 2]);
    client(&mut s, &[1]);
    assert!(reads_client(&client(&mut s, &[1]), 1));
    assert!(reads_client(&client(&mut s, &[b'u']), 1));
    assert!(reads_client(&client(&mut s, &[1]), 1));
    let st = client(&mut s, &[b'p']);
    assert_eq!(st.to_client, vec![1, 0]);
    assert!(reads_client(&st, 4));
}

#[test]
fn wrong_user_right_password() {
    let (mut s, _) = Session::new(user_pass());
    client(&mut s, &[5, 1]);
    client(&mut s, &[2]);
    client(&mut s, &[1]);
    client(&mut s, &[1]);
    client(&mut s, &[b'x']);
    client(&mut s, &[1]);
    let st = client(&mut s, &[b'p']);
    assert_eq!(st.to_client, vec![1, 1]);
    assert!(closes(&st, SessionError::AuthFailed));
}

#[test]
fn auth_required_but_not_offered() {
    let (mut s, _) = Session::new(user_pass());
    client(&mut s, &[5, 1]);
    let st = client(&mut s, &[0]);
    assert_eq!(st.to_client, vec![5, 0xff]);
    assert!(closes(&st, SessionError::AuthFailed));
}

#[test]
fn no_auth_method_not_offered() {
    let (mut s, _) = Session::new(no_auth());
    client(&mut s, &[5, 0]);
    let st = client(&mut s, &[]);
    assert_eq!(st.to_client, vec![5, 0xff]);
    assert!(closes(&st, SessionError::AuthFailed));
}

#[test]
fn wrong_auth_version() {
    let (mut s, _) = Session::new(user_pass());
    client(&mut s, &[5, 1]);
    client(&mut s, &[2]);
    let st = client(&mut s, &[5]);
    assert!(st.to_client.is_empty());
    assert!(closes(&st, SessionError::Protocol));
}

#[test]
fn wrong_socks_version() {
    let (mut s, _) = Session::new(no_auth());
    let st = client(&mut s, &[4, 1]);
    assert!(st.to_client.is_empty());
    assert!(closes(&st, SessionError::Protocol));
}

#[test]
fn ipv6_target_rejection() {
    let (mut s, _) = Session::new(no_auth());
    client(&mut s, &[5, 1]);
    client(&mut s, &[0]);
    let st = client(&mut s, &[5, 1, 0, 4]);
    assert!(reads_client(&st, 18));
    let st = client(&mut s, &[0u8; 18]);
    assert!(st.to_client.is_empty());
    assert!(closes(&st, SessionError::Unsupported));
}

#[test]
fn empty_pool_reply() {
    let mut s = connected_request();
    let st = s.step(Event::Selected(None));
    assert_eq!(st.to_client, vec![5, 1, 0, 1, 0, 0, 0, 0, 0, 0]);
    assert_eq!(st.to_client, lokipool::session::reply(REP_GENERAL_FAILURE));
    assert!(closes(&st, SessionError::NoUpstream));
}

#[test]
fn non_connect_command() {
    let (mut s, _) = Session::new(no_auth());
    client(&mut s, &[5, 1]);
    client(&mut s, &[0]);
    let st = client(&mut s, &[5, 2, 0, 1]);
    assert!(st.to_client.is_empty());
    assert!(closes(&st, SessionError::Unsupported));
}

#[test]
fn unknown_address_type() {
    let (mut s, _) = Session::new(no_auth());
    client(&mut s, &[5, 1]);
    client(&mut s, &[0]);
    assert!(closes(&client(&mut s, &[5, 1, 0, 7]), SessionError::Unsupported));
}

#[test]
fn domain_target_is_forwarded_as_domain() {
    let (mut s, _) = Session::new(no_auth());
    client(&mut s, &[5, 1]);
    client(&mut s, &[0]);
    assert!(reads_client(&client(&mut s, &[5, 1, 9, 3]), 1));
    assert!(reads_client(&client(&mut s, &[7]), 7));
    assert!(reads_client(&client(&mut s, b"a.b.com"), 2));
    client(&mut s, &[0, 80]);
    s.step(Event::Selected(Some("10.0.0.1:1080".to_string())));
    s.step(Event::Connected(true));
    let st = upstream(&mut s, &[5, 0]);
    let mut want = vec![5, 1, 0, 3, 7];
    want.extend_from_slice(b"a.b.com");
    want.extend_from_slice(&[0, 80]);
    assert_eq!(st.to_upstream, want);
}

#[test]
fn domain_that_is_not_utf8() {
    let (mut s, _) = Session::new(no_auth());
    client(&mut s, &[5, 1]);
    client(&mut s, &[0]);
    client(&mut s, &[5, 1, 0, 3]);
    client(&mut s, &[2]);
    assert!(closes(&client(&mut s, &[0xff, 0xfe]), SessionError::Protocol));
}

#[test]
fn upstream_connect_failure() {
    let mut s = connected_request();
    s.step(Event::Selected(Some("not an address".to_string())));
    let st = s.step(Event::Connected(false));
    assert_eq!(st.to_client, vec![5, 4, 0, 1, 0, 0, 0, 0, 0, 0]);
    assert!(closes(&st, SessionError::UpstreamUnreachable));
}

#[test]
fn upstream_refuses_handshake() {
    let mut s = connected_request();
    s.step(Event::Selected(Some("1.1.1.1:1".to_string())));
    s.step(Event::Connected(true));
    let st = upstream(&mut s, &[5, 0xff]);
    assert!(st.to_client.is_empty());
    assert!(closes(&st, SessionError::UpstreamUnreachable));
}

#[test]
fn upstream_refuses_target() {
    let mut s = connected_request();
    s.step(Event::Selected(Some("1.1.1.1:1".to_string())));
    s.step(Event::Connected(true));
    upstream(&mut s, &[5, 0]);
    let st = upstream(&mut s, &[5, 5, 0, 1]);
    assert_eq!(st.to_client, vec![5, 4, 0, 1, 0, 0, 0, 0, 0, 0]);
    assert!(closes(&st, SessionError::UpstreamUnreachable));
}

#[test]
fn upstream_binds_a_domain() {
    let mut s = connected_request();
    s.step(Event::Selected(Some("1.1.1.1:1".to_string())));
    s.step(Event::Connected(true));
    upstream(&mut s, &[5, 0]);
    assert!(reads_upstream(&upstream(&mut s, &[5, 0, 0, 3]), 1));
    assert!(reads_upstream(&upstream(&mut s, &[4]), 6));
    let st = upstream(&mut s, b"host\x00\x50");
    assert_eq!(st.to_client, vec![5, 0, 0, 1, 0, 0, 0, 0, 0, 0]);
    assert!(matches!(st.next, Next::Relay));
}

#[test]
fn upstream_binds_ipv6_and_unknown() {
    let mut s = connected_request();
    s.step(Event::Selected(Some("1.1.1.1:1".to_string())));
    s.step(Event::Connected(true));
    upstream(&mut s, &[5, 0]);
    assert!(reads_upstream(&upstream(&mut s, &[5, 0, 0, 4]), 18));

    let mut t = connected_request();
    t.step(Event::Selected(Some("1.1.1.1:1".to_string())));
    t.step(Event::Connected(true));
    upstream(&mut t, &[5, 0]);
    assert!(closes(&upstream(&mut t, &[5, 0, 0, 9]), SessionError::Protocol));
}

#[test]
fn wrong_length_or_unexpected_event() {
    let (mut s, _) = Session::new(no_auth());
    assert!(closes(&client(&mut s, &[5]), SessionError::Protocol));
    let (mut t, _) = Session::new(no_auth());
    assert!(closes(&t.step(Event::Connected(true)), SessionError::Protocol));
}

#[test]
fn same_bytes_same_replies() {
    let run = || {
        let (mut s, _) = Session::new(user_pass());
        let mut out = Vec::new();
        for chunk in [&[5u8, 1][..], &[2], &[1], &[1], b"u", &[1], b"p", &[5, 1, 0, 1]] {
            out.extend(client(&mut s, chunk).to_client);
        }
        out
    };
    assert_eq!(run(), run());
    assert_eq!(run(), vec![5, 2, 1, 0]);
}

#[test]
fn settings_from_config() {
    let mut c = Config::default();
    c.proxy.use_auth = true;
    c.proxy.username = "ü".to_string();
    c.proxy.password = "pw".to_string();
    let a = AuthSettings::from_config(&c.proxy);
    assert!(a.use_auth);
    assert_eq!(a.username, vec![0xc3, 0xbc]);
    assert_eq!(a.password, b"pw".to_vec());
}

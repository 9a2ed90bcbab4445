//! One SOCKS5 relay session as a state machine.
//!
//! The driver performs what the session asks for (read so many bytes from
//! the client or from the upstream, ask the pool for the current upstream,
//! connect to it, relay) and feeds back what happened. Each step says which
//! bytes go to the client and to the upstream, and what to do next.
//!
//! Client side: method negotiation (no authentication, or user name and
//! password), then a CONNECT request for an IPv4 address or a domain name.
//! Upstream side: a no-authentication SOCKS5 handshake and the same CONNECT
//! request, forwarded as the client sent it.
use vstd::prelude::*;
use vstd::utf8::valid_utf8;
use vstd::utf8::encode_utf8;
use crate::config::ProxyConfig;

verus! {

/// How clients must authenticate.
#[derive(Debug, Clone)]
pub struct AuthSettings {
    /// Whether user name and password are required.
    pub use_auth: bool,
    /// The expected user name, as UTF-8 bytes.
    pub username: Vec<u8>,
    /// The expected password, as UTF-8 bytes.
    pub password: Vec<u8>,
}

pub struct AuthView {
    pub use_auth: bool,
    pub username: Seq<u8>,
    pub password: Seq<u8>,
}

impl View for AuthSettings {
    type V = AuthView;

    open spec fn view(&self) -> AuthView {
        AuthView { use_auth: self.use_auth, username: self.username@, password: self.password@ }
    }
}

impl AuthSettings {
    /// The settings a proxy configuration gives.
    pub fn from_config(p: &ProxyConfig) -> (r: AuthSettings)
        ensures
            r.use_auth == p.use_auth,
            r.username@ == encode_utf8(p.username@),
            r.password@ == encode_utf8(p.password@),
    {
        AuthSettings {
            use_auth: p.use_auth,
            username: p.username.as_str().as_bytes_vec(),
            password: p.password.as_str().as_bytes_vec(),
        }
    }
}

/// Where a session stands.
#[derive(Debug, Clone, Copy, PartialEq, Eq, Structural)]
pub enum Phase {
    /// Awaiting the version and the number of methods.
    Greeting,
    /// Awaiting the method bytes.
    Methods,
    /// Awaiting the version of the user name and password exchange.
    AuthVersion,
    UserLength,
    User,
    PasswordLength,
    Password,
    /// Awaiting version, command, reserved byte and address type.
    Request,
    Ipv4Address,
    DomainLength,
    Domain,
    /// Awaiting the IPv6 address and port, which are read and refused.
    Ipv6Address,
    Port,
    /// Awaiting the pool's current upstream.
    Lookup,
    /// Awaiting the outcome of the connection to the upstream.
    Connecting,
    /// Awaiting the upstream's method choice.
    UpstreamMethod,
    /// Awaiting version, reply code, reserved byte and address type.
    UpstreamReply,
    UpstreamBoundLength,
    /// Awaiting the upstream's bound address and port.
    UpstreamBound,
    /// Both sides are connected; bytes are copied both ways.
    Relaying,
    Closed,
}

/// Why a session ended before relaying.
#[derive(Debug, Clone, Copy, PartialEq, Eq, Structural)]
pub enum SessionError {
    /// Bytes that break the protocol, from either side.
    Protocol,
    /// No acceptable method, or wrong credentials.
    AuthFailed,
    /// A command other than CONNECT, an IPv6 target or an unknown address type.
    Unsupported,
    /// The pool had no upstream.
    NoUpstream,
    /// The upstream could not be reached, refused the handshake or the target.
    UpstreamUnreachable,
}

/// What happened since the last step.
#[derive(Debug)]
pub enum Event {
    /// The bytes read from the client.
    Client(Vec<u8>),
    /// The bytes read from the upstream.
    Upstream(Vec<u8>),
    /// The address of the pool's current upstream, if there is one.
    Selected(Option<String>),
    /// Whether the connection to the upstream was established.
    Connected(bool),
}

pub enum EventView {
    Client(Seq<u8>),
    Upstream(Seq<u8>),
    Selected(Option<Seq<char>>),
    Connected(bool),
}

impl View for Event {
    type V = EventView;

    open spec fn view(&self) -> EventView {
        match self {
            Event::Client(b) => EventView::Client(b@),
            Event::Upstream(b) => EventView::Upstream(b@),
            Event::Selected(a) => EventView::Selected(
                match a {
                    Some(s) => Some(s@),
                    None => None,
                },
            ),
            Event::Connected(ok) => EventView::Connected(*ok),
        }
    }
}

/// What the driver does next.
#[derive(Debug)]
pub enum Next {
    /// Read exactly this many bytes from the client.
    ReadClient(usize),
    /// Read exactly this many bytes from the upstream.
    ReadUpstream(usize),
    /// Ask the pool for its current upstream.
    SelectUpstream,
    /// Open a TCP connection to this `host:port`.
    Connect(String),
    /// Copy bytes both ways until either side closes.
    Relay,
    /// Close both connections.
    Close(SessionError),
}

pub enum NextView {
    ReadClient(nat),
    ReadUpstream(nat),
    SelectUpstream,
    Connect(Seq<char>),
    Relay,
    Close(SessionError),
}

impl View for Next {
    type V = NextView;

    open spec fn view(&self) -> NextView {
        match self {
            Next::ReadClient(n) => NextView::ReadClient(*n as nat),
            Next::ReadUpstream(n) => NextView::ReadUpstream(*n as nat),
            Next::SelectUpstream => NextView::SelectUpstream,
            Next::Connect(a) => NextView::Connect(a@),
            Next::Relay => NextView::Relay,
            Next::Close(e) => NextView::Close(*e),
        }
    }
}

/// The outcome of one step: bytes to write to the client, then bytes to
/// write to the upstream, then what to do next.
#[derive(Debug)]
pub struct Step {
    pub to_client: Vec<u8>,
    pub to_upstream: Vec<u8>,
    pub next: Next,
}

pub struct StepView {
    pub to_client: Seq<u8>,
    pub to_upstream: Seq<u8>,
    pub next: NextView,
}

impl View for Step {
    type V = StepView;

    open spec fn view(&self) -> StepView {
        StepView { to_client: self.to_client@, to_upstream: self.to_upstream@, next: self.next@ }
    }
}

/// One client connection.
#[derive(Debug)]
pub struct Session {
    pub auth: AuthSettings,
    pub phase: Phase,
    /// How many bytes the pending read asked for.
    pub want: usize,
    /// Whether the user name matched.
    pub user_ok: bool,
    /// The CONNECT request for the upstream, as far as it was read.
    pub request: Vec<u8>,
}

pub struct SessionView {
    pub phase: Phase,
    pub want: nat,
    pub user_ok: bool,
    pub request: Seq<u8>,
}

impl View for Session {
    type V = SessionView;

    open spec fn view(&self) -> SessionView {
        SessionView {
            phase: self.phase,
            want: self.want as nat,
            user_ok: self.user_ok,
            request: self.request@,
        }
    }
}

impl SessionView {
    /// Each phase that reads a fixed-size field asks for that many bytes.
    pub open spec fn well_formed(self) -> bool {
        match self.phase {
            Phase::Greeting | Phase::UpstreamMethod | Phase::Port => self.want == 2,
            Phase::AuthVersion | Phase::UserLength | Phase::PasswordLength | Phase::DomainLength
            | Phase::UpstreamBoundLength => self.want == 1,
            Phase::Request | Phase::Ipv4Address | Phase::UpstreamReply => self.want == 4,
            Phase::Ipv6Address => self.want == 18,
            Phase::Lookup | Phase::Connecting | Phase::Relaying | Phase::Closed => self.want == 0,
            _ => true,
        }
    }
}

/// A reply to the client: version 5, the reply code, and an IPv4 bind
/// address and port of zeros.
pub open spec fn reply_bytes(rep: u8) -> Seq<u8> {
    seq![5u8, rep, 0, 1, 0, 0, 0, 0, 0, 0]
}

/// The reply code for success.
pub const REP_SUCCEEDED: u8 = 0x00;

/// The reply code for a general failure.
pub const REP_GENERAL_FAILURE: u8 = 0x01;

/// The reply code for an unreachable host.
pub const REP_HOST_UNREACHABLE: u8 = 0x04;

/// The method the server picks among those the client offers: user name and
/// password (2) when authentication is on, none (0) when it is off, or 0xFF
/// when the client does not offer it.
pub open spec fn chosen_method(use_auth: bool, methods: Seq<u8>) -> u8 {
    let wanted: u8 = if use_auth {
        2
    } else {
        0
    };
    if methods.contains(wanted) {
        wanted
    } else {
        0xff
    }
}

pub open spec fn state(phase: Phase, want: nat, user_ok: bool, request: Seq<u8>) -> SessionView {
    SessionView { phase, want, user_ok, request }
}

pub open spec fn output(to_client: Seq<u8>, to_upstream: Seq<u8>, next: NextView) -> StepView {
    StepView { to_client, to_upstream, next }
}

/// The session closes after writing `to_client`.
pub open spec fn closing(s: SessionView, to_client: Seq<u8>, why: SessionError) -> (
    SessionView,
    StepView,
) {
    (
        state(Phase::Closed, 0, s.user_ok, s.request),
        output(to_client, Seq::empty(), NextView::Close(why)),
    )
}

/// The session asks for `want` client bytes in `phase`, after writing `to_client`.
pub open spec fn reading(
    s: SessionView,
    phase: Phase,
    want: nat,
    user_ok: bool,
    request: Seq<u8>,
    to_client: Seq<u8>,
) -> (SessionView, StepView) {
    (
        state(phase, want, user_ok, request),
        output(to_client, Seq::empty(), NextView::ReadClient(want)),
    )
}

/// The step on bytes read from the client.
pub open spec fn client_step(auth: AuthView, s: SessionView, b: Seq<u8>) -> (
    SessionView,
    StepView,
) {
    let none = Seq::<u8>::empty();
    match s.phase {
        Phase::Greeting => if b[0] != 5 {
            closing(s, none, SessionError::Protocol)
        } else {
            reading(s, Phase::Methods, b[1] as nat, s.user_ok, s.request, none)
        },
        Phase::Methods => {
            let m = chosen_method(auth.use_auth, b);
            if m == 0xff {
                closing(s, seq![5u8, 0xff], SessionError::AuthFailed)
            } else if m == 2 {
                reading(s, Phase::AuthVersion, 1, s.user_ok, s.request, seq![5u8, 2])
            } else {
                reading(s, Phase::Request, 4, s.user_ok, s.request, seq![5u8, 0])
            }
        },
        Phase::AuthVersion => if b[0] != 1 {
            closing(s, none, SessionError::Protocol)
        } else {
            reading(s, Phase::UserLength, 1, s.user_ok, s.request, none)
        },
        Phase::UserLength => reading(s, Phase::User, b[0] as nat, s.user_ok, s.request, none),
        Phase::User => reading(s, Phase::PasswordLength, 1, b == auth.username, s.request, none),
        Phase::PasswordLength => reading(
            s,
            Phase::Password,
            b[0] as nat,
            s.user_ok,
            s.request,
            none,
        ),
        Phase::Password => if s.user_ok && b == auth.password {
            reading(s, Phase::Request, 4, s.user_ok, s.request, seq![1u8, 0])
        } else {
            closing(s, seq![1u8, 1], SessionError::AuthFailed)
        },
        Phase::Request => if b[0] != 5 {
            closing(s, none, SessionError::Protocol)
        } else if b[1] != 1 {
            closing(s, none, SessionError::Unsupported)
        } else if b[3] == 1 {
            reading(s, Phase::Ipv4Address, 4, s.user_ok, seq![5u8, 1, 0, 1], none)
        } else if b[3] == 3 {
            reading(s, Phase::DomainLength, 1, s.user_ok, seq![5u8, 1, 0, 3], none)
        } else if b[3] == 4 {
            reading(s, Phase::Ipv6Address, 18, s.user_ok, s.request, none)
        } else {
            closing(s, none, SessionError::Unsupported)
        },
        Phase::Ipv4Address => reading(s, Phase::Port, 2, s.user_ok, s.request + b, none),
        Phase::DomainLength => reading(s, Phase::Domain, b[0] as nat, s.user_ok, s.request + b, none),
        Phase::Domain => if valid_utf8(b) {
            reading(s, Phase::Port, 2, s.user_ok, s.request + b, none)
        } else {
            closing(s, none, SessionError::Protocol)
        },
        Phase::Ipv6Address => closing(s, none, SessionError::Unsupported),
        Phase::Port => (
            state(Phase::Lookup, 0, s.user_ok, s.request + b),
            output(none, none, NextView::SelectUpstream),
        ),
        _ => closing(s, none, SessionError::Protocol),
    }
}

/// The step on bytes read from the upstream.
pub open spec fn upstream_step(s: SessionView, b: Seq<u8>) -> (SessionView, StepView) {
    let none = Seq::<u8>::empty();
    match s.phase {
        Phase::UpstreamMethod => if b[0] == 5 && b[1] == 0 {
            (
                state(Phase::UpstreamReply, 4, s.user_ok, s.request),
                output(none, s.request, NextView::ReadUpstream(4)),
            )
        } else {
            closing(s, none, SessionError::UpstreamUnreachable)
        },
        Phase::UpstreamReply => if b[1] != 0 {
            closing(s, reply_bytes(REP_HOST_UNREACHABLE), SessionError::UpstreamUnreachable)
        } else if b[3] == 1 {
            (
                state(Phase::UpstreamBound, 6, s.user_ok, s.request),
                output(none, none, NextView::ReadUpstream(6)),
            )
        } else if b[3] == 3 {
            (
                state(Phase::UpstreamBoundLength, 1, s.user_ok, s.request),
                output(none, none, NextView::ReadUpstream(1)),
            )
        } else if b[3] == 4 {
            (
                state(Phase::UpstreamBound, 18, s.user_ok, s.request),
                output(none, none, NextView::ReadUpstream(18)),
            )
        } else {
            closing(s, none, SessionError::Protocol)
        },
        Phase::UpstreamBoundLength => (
            state(Phase::UpstreamBound, (b[0] + 2) as nat, s.user_ok, s.request),
            output(none, none, NextView::ReadUpstream((b[0] + 2) as nat)),
        ),
        Phase::UpstreamBound => (
            state(Phase::Relaying, 0, s.user_ok, s.request),
            output(reply_bytes(REP_SUCCEEDED), none, NextView::Relay),
        ),
        _ => closing(s, none, SessionError::Protocol),
    }
}

/// The protocol: the next state and the step that an event gives. Bytes of
/// another length than asked for, or an event the phase does not await,
/// close the session.
pub open spec fn transition(auth: AuthView, s: SessionView, e: EventView) -> (
    SessionView,
    StepView,
) {
    let none = Seq::<u8>::empty();
    match e {
        EventView::Client(b) => if b.len() == s.want {
            client_step(auth, s, b)
        } else {
            closing(s, none, SessionError::Protocol)
        },
        EventView::Upstream(b) => if b.len() == s.want {
            upstream_step(s, b)
        } else {
            closing(s, none, SessionError::Protocol)
        },
        EventView::Selected(a) => if s.phase == Phase::Lookup {
            match a {
                Some(addr) => (
                    state(Phase::Connecting, 0, s.user_ok, s.request),
                    output(none, none, NextView::Connect(addr)),
                ),
                None => closing(s, reply_bytes(REP_GENERAL_FAILURE), SessionError::NoUpstream),
            }
        } else {
            closing(s, none, SessionError::Protocol)
        },
        EventView::Connected(ok) => if s.phase == Phase::Connecting {
            if ok {
                (
                    state(Phase::UpstreamMethod, 2, s.user_ok, s.request),
                    output(none, seq![5u8, 1, 0], NextView::ReadUpstream(2)),
                )
            } else {
                closing(s, reply_bytes(REP_HOST_UNREACHABLE), SessionError::UpstreamUnreachable)
            }
        } else {
            closing(s, none, SessionError::Protocol)
        },
    }
}

/// Feeds `input` to the session in the pieces it asks for, for at most
/// `steps` reads and as long as it asks for client bytes that `input` holds;
/// gives the state reached and everything written to the client.
pub open spec fn drive(auth: AuthView, s: SessionView, asked: NextView, input: Seq<u8>, steps: nat) -> (
    SessionView,
    Seq<u8>,
)
    decreases steps,
{
    match asked {
        NextView::ReadClient(n) => if steps > 0 && n <= input.len() {
            let (s2, out) = transition(auth, s, EventView::Client(input.subrange(0, n as int)));
            let (s3, rest) = drive(
                auth,
                s2,
                out.next,
                input.subrange(n as int, input.len() as int),
                (steps - 1) as nat,
            );
            (s3, out.to_client + rest)
        } else {
            (s, Seq::empty())
        },
        _ => (s, Seq::empty()),
    }
}

/// Handshake determinism: the replies to a client depend on the bytes it
/// sends and on the settings alone, so equal byte streams get equal replies.
pub proof fn lemma_handshake_idempotent(
    auth: AuthView,
    s: SessionView,
    asked: NextView,
    a: Seq<u8>,
    b: Seq<u8>,
    steps: nat,
)
    requires
        a == b,
    ensures
        drive(auth, s, asked, a, steps) == drive(auth, s, asked, b, steps),
{
}

/// Relies on `std::str::from_utf8`: it succeeds exactly on valid UTF-8.
#[verifier::external_body]
fn is_utf8(b: &Vec<u8>) -> (r: bool)
    ensures
        r == valid_utf8(b@),
{
    std::str::from_utf8(b.as_slice()).is_ok()
}

fn bytes_equal(a: &Vec<u8>, b: &Vec<u8>) -> (r: bool)
    ensures
        r == (a@ == b@),
{
    if a.len() != b.len() {
        return false;
    }
    let mut i: usize = 0;
    while i < a.len()
        invariant
            i <= a.len(),
            a.len() == b.len(),
            forall|j: int| 0 <= j < i ==> a@[j] == b@[j],
        decreases a.len() - i,
    {
        if a[i] != b[i] {
            return false;
        }
        i += 1;
    }
    assert(a@ =~= b@);
    true
}

fn contains_byte(v: &Vec<u8>, x: u8) -> (r: bool)
    ensures
        r == v@.contains(x),
{
    let mut i: usize = 0;
    while i < v.len()
        invariant
            i <= v.len(),
            forall|j: int| 0 <= j < i ==> v@[j] != x,
        decreases v.len() - i,
    {
        if v[i] == x {
            return true;
        }
        i += 1;
    }
    false
}

fn append_bytes(v: &mut Vec<u8>, b: &Vec<u8>)
    ensures
        final(v)@ == old(v)@ + b@,
{
    let mut i: usize = 0;
    while i < b.len()
        invariant
            i <= b.len(),
            v@ == old(v)@ + b@.subrange(0, i as int),
        decreases b.len() - i,
    {
        v.push(b[i]);
        assert(b@.subrange(0, i + 1) =~= b@.subrange(0, i as int).push(b@[i as int]));
        i += 1;
    }
    assert(b@.subrange(0, b.len() as int) =~= b@);
}

/// A reply to the client with the given reply code.
pub fn reply(rep: u8) -> (r: Vec<u8>)
    ensures
        r@ == reply_bytes(rep),
{
    let r = vec![5u8, rep, 0, 1, 0, 0, 0, 0, 0, 0];
    assert(r@ =~= reply_bytes(rep));
    r
}

fn two(a: u8, b: u8) -> (r: Vec<u8>)
    ensures
        r@ == seq![a, b],
{
    let r = vec![a, b];
    assert(r@ =~= seq![a, b]);
    r
}

impl Session {
    /// A fresh session, which first reads the client's greeting.
    pub fn new(auth: AuthSettings) -> (r: (Session, Next))
        ensures
            r.0.auth == auth,
            r.0@ == state(Phase::Greeting, 2, false, Seq::empty()),
            r.0@.well_formed(),
            r.1@ == NextView::ReadClient(2),
    {
        (Session { auth, phase: Phase::Greeting, want: 2, user_ok: false, request: Vec::new() }, Next::ReadClient(2))
    }

    fn close(&mut self, to_client: Vec<u8>, why: SessionError) -> (r: Step)
        ensures
            final(self).auth == old(self).auth,
            (final(self)@, r@) == closing(old(self)@, to_client@, why),
    {
        self.phase = Phase::Closed;
        self.want = 0;
        Step { to_client, to_upstream: Vec::new(), next: Next::Close(why) }
    }

    fn read_client(&mut self, phase: Phase, want: usize, to_client: Vec<u8>) -> (r: Step)
        ensures
            final(self).auth == old(self).auth,
            (final(self)@, r@) == reading(
                old(self)@,
                phase,
                want as nat,
                old(self).user_ok,
                old(self).request@,
                to_client@,
            ),
    {
        self.phase = phase;
        self.want = want;
        Step { to_client, to_upstream: Vec::new(), next: Next::ReadClient(want) }
    }

    fn read_upstream(&mut self, phase: Phase, want: usize, to_upstream: Vec<u8>) -> (r: Step)
        ensures
            final(self).auth == old(self).auth,
            final(self)@ == state(phase, want as nat, old(self).user_ok, old(self).request@),
            r@ == output(Seq::empty(), to_upstream@, NextView::ReadUpstream(want as nat)),
    {
        self.phase = phase;
        self.want = want;
        Step { to_client: Vec::new(), to_upstream, next: Next::ReadUpstream(want) }
    }

    fn on_client(&mut self, b: Vec<u8>) -> (r: Step)
        requires
            old(self)@.well_formed(),
            b@.len() == old(self).want,
        ensures
            final(self).auth == old(self).auth,
            (final(self)@, r@) == client_step(old(self).auth@, old(self)@, b@),
    {
        let none: Vec<u8> = Vec::new();
        match self.phase {
            Phase::Greeting => {
                if b[0] != 5 {
                    self.close(none, SessionError::Protocol)
                } else {
                    self.read_client(Phase::Methods, b[1] as usize, none)
                }
            },
            Phase::Methods => {
                let wanted: u8 = if self.auth.use_auth {
                    2
                } else {
                    0
                };
                if !contains_byte(&b, wanted) {
                    self.close(two(5, 0xff), SessionError::AuthFailed)
                } else if wanted == 2 {
                    self.read_client(Phase::AuthVersion, 1, two(5, 2))
                } else {
                    self.read_client(Phase::Request, 4, two(5, 0))
                }
            },
            Phase::AuthVersion => {
                if b[0] != 1 {
                    self.close(none, SessionError::Protocol)
                } else {
                    self.read_client(Phase::UserLength, 1, none)
                }
            },
            Phase::UserLength => self.read_client(Phase::User, b[0] as usize, none),
            Phase::User => {
                self.user_ok = bytes_equal(&b, &self.auth.username);
                self.read_client(Phase::PasswordLength, 1, none)
            },
            Phase::PasswordLength => self.read_client(Phase::Password, b[0] as usize, none),
            Phase::Password => {
                if self.user_ok && bytes_equal(&b, &self.auth.password) {
                    self.read_client(Phase::Request, 4, two(1, 0))
                } else {
                    self.close(two(1, 1), SessionError::AuthFailed)
                }
            },
            Phase::Request => {
                if b[0] != 5 {
                    self.close(none, SessionError::Protocol)
                } else if b[1] != 1 {
                    self.close(none, SessionError::Unsupported)
                } else if b[3] == 1 || b[3] == 3 {
                    let mut request = vec![5u8, 1, 0, b[3]];
                    assert(request@ =~= seq![5u8, 1, 0, b@[3 as int]]);
                    self.request = request;
                    if b[3] == 1 {
                        self.read_client(Phase::Ipv4Address, 4, none)
                    } else {
                        self.read_client(Phase::DomainLength, 1, none)
                    }
                } else if b[3] == 4 {
                    self.read_client(Phase::Ipv6Address, 18, none)
                } else {
                    self.close(none, SessionError::Unsupported)
                }
            },
            Phase::Ipv4Address => {
                append_bytes(&mut self.request, &b);
                self.read_client(Phase::Port, 2, none)
            },
            Phase::DomainLength => {
                append_bytes(&mut self.request, &b);
                self.read_client(Phase::Domain, b[0] as usize, none)
            },
            Phase::Domain => {
                if is_utf8(&b) {
                    append_bytes(&mut self.request, &b);
                    self.read_client(Phase::Port, 2, none)
                } else {
                    self.close(none, SessionError::Protocol)
                }
            },
            Phase::Ipv6Address => self.close(none, SessionError::Unsupported),
            Phase::Port => {
                append_bytes(&mut self.request, &b);
                self.phase = Phase::Lookup;
                self.want = 0;
                Step { to_client: none, to_upstream: Vec::new(), next: Next::SelectUpstream }
            },
            _ => self.close(none, SessionError::Protocol),
        }
    }

    fn on_upstream(&mut self, b: Vec<u8>) -> (r: Step)
        requires
            old(self)@.well_formed(),
            b@.len() == old(self).want,
        ensures
            final(self).auth == old(self).auth,
            (final(self)@, r@) == upstream_step(old(self)@, b@),
    {
        let none: Vec<u8> = Vec::new();
        match self.phase {
            Phase::UpstreamMethod => {
                if b[0] == 5 && b[1] == 0 {
                    let request = self.request.clone();
                    assert(request@ =~= self.request@);
                    self.read_upstream(Phase::UpstreamReply, 4, request)
                } else {
                    self.close(none, SessionError::UpstreamUnreachable)
                }
            },
            Phase::UpstreamReply => {
                if b[1] != 0 {
                    self.close(reply(REP_HOST_UNREACHABLE), SessionError::UpstreamUnreachable)
                } else if b[3] == 1 {
                    self.read_upstream(Phase::UpstreamBound, 6, none)
                } else if b[3] == 3 {
                    self.read_upstream(Phase::UpstreamBoundLength, 1, none)
                } else if b[3] == 4 {
                    self.read_upstream(Phase::UpstreamBound, 18, none)
                } else {
                    self.close(none, SessionError::Protocol)
                }
            },
            Phase::UpstreamBoundLength => {
                let want = b[0] as usize + 2;
                self.read_upstream(Phase::UpstreamBound, want, none)
            },
            Phase::UpstreamBound => {
                self.phase = Phase::Relaying;
                self.want = 0;
                Step { to_client: reply(REP_SUCCEEDED), to_upstream: none, next: Next::Relay }
            },
            _ => self.close(none, SessionError::Protocol),
        }
    }

    /// Advances the session by one event.
    pub fn step(&mut self, event: Event) -> (r: Step)
        requires
            old(self)@.well_formed(),
        ensures
            final(self)@.well_formed(),
            final(self).auth == old(self).auth,
            (final(self)@, r@) == transition(old(self).auth@, old(self)@, event@),
    {
        match event {
            Event::Client(b) => {
                if b.len() == self.want {
                    self.on_client(b)
                } else {
                    self.close(Vec::new(), SessionError::Protocol)
                }
            },
            Event::Upstream(b) => {
                if b.len() == self.want {
                    self.on_upstream(b)
                } else {
                    self.close(Vec::new(), SessionError::Protocol)
                }
            },
            Event::Selected(a) => {
                if self.phase == Phase::Lookup {
                    match a {
                        Some(addr) => {
                            self.phase = Phase::Connecting;
                            self.want = 0;
                            Step { to_client: Vec::new(), to_upstream: Vec::new(), next: Next::Connect(addr) }
                        },
                        None => self.close(reply(REP_GENERAL_FAILURE), SessionError::NoUpstream),
                    }
                } else {
                    self.close(Vec::new(), SessionError::Protocol)
                }
            },
            Event::Connected(ok) => {
                if self.phase == Phase::Connecting {
                    if ok {
                        let hello = vec![5u8, 1, 0];
                        assert(hello@ =~= seq![5u8, 1, 0]);
                        self.read_upstream(Phase::UpstreamMethod, 2, hello)
                    } else {
                        self.close(reply(REP_HOST_UNREACHABLE), SessionError::UpstreamUnreachable)
                    }
                } else {
                    self.close(Vec::new(), SessionError::Protocol)
                }
            },
        }
    }
}

} // verus!

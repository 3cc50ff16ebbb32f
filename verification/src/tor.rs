//! Control of the local anonymity daemon: the authentication procedure as a
//! state machine, and the requests that provision onion services.
//!
//! Nothing here talks to the daemon. The embedding program carries out each
//! action and reports what came of it.

use crate::text::{decimal_text, push_decimal};
use vstd::prelude::*;
use vstd::string::*;
use vstd::utf8::encode_utf8;

verus! {

/// The loopback port on which the daemon offers its SOCKS5 proxy, unless
/// configured otherwise.
pub const DEFAULT_SOCKS5_PORT: u16 = 9050;

/// The loopback port on which the daemon offers its control protocol,
/// unless configured otherwise.
pub const DEFAULT_CONTROL_PORT: u16 = 9051;

/// Why the daemon could not be used.
#[derive(Clone, Copy, Debug, PartialEq, Eq, Structural)]
pub enum AnonymityNetworkError {
    /// The control port could not be reached.
    Unreachable,
    /// The liveness check did not confirm that traffic goes through the network.
    NotRunning,
    /// The daemon's protocol information could not be had, no
    /// authentication data could be made of it, or the daemon refused it.
    AuthFailed,
    /// The daemon did not acknowledge a provisioning request.
    Provisioning,
}

/// The sentence by which the check page confirms the use of the network,
/// as UTF-8 bytes.
pub open spec fn confirmation() -> Seq<u8> {
    "Congratulations. This browser is configured to use Tor.".spec_bytes()
}

/// Whether `needle` stands in `haystack` at position `at`.
pub open spec fn occurs_at(haystack: Seq<u8>, needle: Seq<u8>, at: int) -> bool {
    0 <= at && at + needle.len() <= haystack.len() && haystack.subrange(
        at,
        at + needle.len(),
    ) == needle
}

/// Whether `needle` occurs in `haystack` as a contiguous run.
pub open spec fn contains_run(haystack: Seq<u8>, needle: Seq<u8>) -> bool {
    exists|at: int| occurs_at(haystack, needle, at)
}

/// Whether the text of the check page confirms that the request came
/// through the network: it holds the confirmation sentence, letter for letter.
pub open spec fn confirms_tor(page: Seq<u8>) -> bool {
    contains_run(page, confirmation())
}

/// Whether `needle` occurs in `haystack`.
pub fn contains(haystack: &[u8], needle: &[u8]) -> (found: bool)
    ensures
        found == contains_run(haystack@, needle@),
{
    let n = haystack.len();
    let m = needle.len();
    if m > n {
        assert forall|at: int| !occurs_at(haystack@, needle@, at) by {}
        return false;
    }
    let mut at: usize = 0;
    while at <= n - m
        invariant
            n == haystack@.len(),
            m == needle@.len(),
            m <= n,
            at <= n - m + 1,
            forall|a: int| 0 <= a < at ==> !occurs_at(haystack@, needle@, a),
        decreases n - m + 1 - at,
    {
        let mut k: usize = 0;
        while k < m && haystack[at + k] == needle[k]
            invariant
                n == haystack@.len(),
                m == needle@.len(),
                at + m <= n,
                k <= m,
                forall|j: int| 0 <= j < k ==> haystack@[at + j] == needle@[j],
            decreases m - k,
        {
            k = k + 1;
        }
        if k == m {
            assert(haystack@.subrange(at as int, at + m) =~= needle@);
            assert(occurs_at(haystack@, needle@, at as int));
            return true;
        }
        assert(!occurs_at(haystack@, needle@, at as int)) by {
            if occurs_at(haystack@, needle@, at as int) {
                assert(haystack@.subrange(at as int, at + m)[k as int] == needle@[k as int]);
            }
        }
        at = at + 1;
    }
    assert forall|a: int| !occurs_at(haystack@, needle@, a) by {}
    false
}

/// The local daemon as it is configured, before any session with it: the
/// loopback ports of its SOCKS5 proxy and of its control protocol.
#[derive(Clone, Copy, Debug, PartialEq, Eq, Structural)]
pub struct UnauthenticatedConnection {
    socks5_port: u16,
    control_port: u16,
}

impl Default for UnauthenticatedConnection {
    fn default() -> (connection: Self)
        ensures
            connection.spec_tor_proxy_port() == DEFAULT_SOCKS5_PORT,
            connection.spec_control_port() == DEFAULT_CONTROL_PORT,
    {
        Self { socks5_port: DEFAULT_SOCKS5_PORT, control_port: DEFAULT_CONTROL_PORT }
    }
}

impl UnauthenticatedConnection {
    pub closed spec fn spec_tor_proxy_port(&self) -> u16 {
        self.socks5_port
    }

    pub closed spec fn spec_control_port(&self) -> u16 {
        self.control_port
    }

    /// The address of the SOCKS5 proxy as a proxy URL that leaves name
    /// resolution to the proxy.
    pub open spec fn spec_proxy_url(&self) -> Seq<char> {
        "socks5h://127.0.0.1:"@ + decimal_text(self.spec_tor_proxy_port() as nat)
    }

    pub fn with_socks5_port(self, socks5_port: u16) -> (connection: Self)
        ensures
            connection.spec_tor_proxy_port() == socks5_port,
            connection.spec_control_port() == self.spec_control_port(),
    {
        Self { socks5_port, control_port: self.control_port }
    }

    pub fn with_control_port(self, control_port: u16) -> (connection: Self)
        ensures
            connection.spec_tor_proxy_port() == self.spec_tor_proxy_port(),
            connection.spec_control_port() == control_port,
    {
        Self { socks5_port: self.socks5_port, control_port }
    }

    #[verifier::when_used_as_spec(spec_tor_proxy_port)]
    pub fn tor_proxy_port(&self) -> (port: u16)
        ensures
            port == self.spec_tor_proxy_port(),
    {
        self.socks5_port
    }

    #[verifier::when_used_as_spec(spec_control_port)]
    pub fn control_port(&self) -> (port: u16)
        ensures
            port == self.spec_control_port(),
    {
        self.control_port
    }

    /// The address of the page that tells whether a request came through
    /// the network.
    pub fn check_endpoint(&self) -> (url: &'static str)
        ensures
            url@ == "https://check.torproject.org"@,
    {
        "https://check.torproject.org"
    }

    /// The proxy URL through which the liveness check is made.
    pub fn proxy_url(&self) -> (url: String)
        ensures
            url@ == self.spec_proxy_url(),
    {
        let mut url = String::from_str("socks5h://127.0.0.1:");
        push_decimal(&mut url, self.socks5_port);
        url
    }

    /// Judges the liveness check by the text of the check page, fetched
    /// through the proxy: the daemon runs if the page holds the
    /// confirmation sentence.
    pub fn assert_tor_running(&self, page: &str) -> (running: Result<(), AnonymityNetworkError>)
        ensures
            running is Ok <==> confirms_tor(page.spec_bytes()),
            running matches Err(e) ==> e == AnonymityNetworkError::NotRunning,
    {
        let sentence = "Congratulations. This browser is configured to use Tor.";
        if contains(page.as_bytes(), sentence.as_bytes()) {
            Ok(())
        } else {
            Err(AnonymityNetworkError::NotRunning)
        }
    }
}

/// A step of authentication over an open control session.
#[derive(Clone, Copy, Debug, PartialEq, Eq, Structural)]
pub enum AuthStep {
    /// Checking through the proxy that traffic goes through the network.
    Liveness,
    /// Loading the protocol information that the daemon advertises.
    ProtocolInfo,
    /// Making the authentication data that this information asks for.
    AuthData,
    /// Presenting the authentication data to the daemon.
    Authentication,
}

/// Where a controller stands. It only ever moves forward, and a failure
/// ends it.
#[derive(Clone, Copy, Debug, PartialEq, Eq, Structural)]
pub enum ControllerState {
    /// No control session yet.
    Disconnected,
    /// A control session is open and not authenticated; the step is the
    /// one that is owed next.
    Connected(AuthStep),
    /// The control session is authenticated.
    Authenticated,
    /// A step failed.
    Failed(AnonymityNetworkError),
}

/// What the embedding program reports of the action it was asked for.
#[derive(Clone, Debug)]
pub enum ControllerEvent {
    /// The control session is open.
    Connected,
    /// The check page was fetched through the proxy; this is its text.
    CheckPage(String),
    /// The protocol information was loaded.
    ProtocolInfoLoaded,
    /// Authentication data was made.
    AuthDataMade,
    /// The daemon accepted the authentication data.
    AuthAccepted,
    /// The action did not succeed.
    Failure,
}

/// What the embedding program is to do next.
#[derive(Clone, Copy, Debug, PartialEq, Eq, Structural)]
pub enum ControllerAction {
    /// Open a control session over TCP to the loopback address at this port.
    Connect { control_port: u16 },
    /// Fetch the check page through the SOCKS5 proxy on the loopback
    /// address at this port.
    CheckLiveness { socks5_port: u16 },
    /// Load the protocol information.
    LoadProtocolInfo,
    /// Make the authentication data.
    MakeAuthData,
    /// Authenticate with the data made.
    Authenticate,
    /// Nothing: the session is authenticated.
    Serve,
    /// Nothing: the controller has failed for good.
    GiveUp(AnonymityNetworkError),
}

/// The error that a failure of the step owed in `state` amounts to.
pub open spec fn failure_in(state: ControllerState) -> AnonymityNetworkError {
    match state {
        ControllerState::Disconnected => AnonymityNetworkError::Unreachable,
        ControllerState::Connected(AuthStep::Liveness) => AnonymityNetworkError::NotRunning,
        ControllerState::Connected(_) => AnonymityNetworkError::AuthFailed,
        ControllerState::Authenticated => AnonymityNetworkError::AuthFailed,
        ControllerState::Failed(e) => e,
    }
}

/// Whether `event` reports the success of the step owed in `state`.
pub open spec fn succeeds(state: ControllerState, event: ControllerEvent) -> bool {
    match (state, event) {
        (ControllerState::Disconnected, ControllerEvent::Connected) => true,
        (ControllerState::Connected(AuthStep::Liveness), ControllerEvent::CheckPage(page)) => {
            confirms_tor(encode_utf8(page@))
        },
        (
            ControllerState::Connected(AuthStep::ProtocolInfo),
            ControllerEvent::ProtocolInfoLoaded,
        ) => true,
        (ControllerState::Connected(AuthStep::AuthData), ControllerEvent::AuthDataMade) => true,
        (ControllerState::Connected(AuthStep::Authentication), ControllerEvent::AuthAccepted) => {
            true
        },
        _ => false,
    }
}

/// The state that follows the success of the step owed in `state`.
pub open spec fn advanced(state: ControllerState) -> ControllerState {
    match state {
        ControllerState::Disconnected => ControllerState::Connected(AuthStep::Liveness),
        ControllerState::Connected(AuthStep::Liveness) => ControllerState::Connected(
            AuthStep::ProtocolInfo,
        ),
        ControllerState::Connected(AuthStep::ProtocolInfo) => ControllerState::Connected(
            AuthStep::AuthData,
        ),
        ControllerState::Connected(AuthStep::AuthData) => ControllerState::Connected(
            AuthStep::Authentication,
        ),
        ControllerState::Connected(AuthStep::Authentication) => ControllerState::Authenticated,
        ControllerState::Authenticated => ControllerState::Authenticated,
        ControllerState::Failed(e) => ControllerState::Failed(e),
    }
}

/// The transition: the two final states stay; elsewhere the report of the
/// owed step's success advances, and any other report fails that step.
pub open spec fn step(state: ControllerState, event: ControllerEvent) -> ControllerState {
    match state {
        ControllerState::Authenticated => state,
        ControllerState::Failed(_) => state,
        _ => if succeeds(state, event) {
            advanced(state)
        } else {
            ControllerState::Failed(failure_in(state))
        },
    }
}

/// The state after a sequence of reports.
pub open spec fn run(state: ControllerState, events: Seq<ControllerEvent>) -> ControllerState
    decreases events.len(),
{
    if events.len() == 0 {
        state
    } else {
        run(step(state, events[0]), events.skip(1))
    }
}

/// The action that `state` asks for.
pub open spec fn action_in(
    connection: UnauthenticatedConnection,
    state: ControllerState,
) -> ControllerAction {
    match state {
        ControllerState::Disconnected => ControllerAction::Connect {
            control_port: connection.spec_control_port(),
        },
        ControllerState::Connected(AuthStep::Liveness) => ControllerAction::CheckLiveness {
            socks5_port: connection.spec_tor_proxy_port(),
        },
        ControllerState::Connected(AuthStep::ProtocolInfo) => ControllerAction::LoadProtocolInfo,
        ControllerState::Connected(AuthStep::AuthData) => ControllerAction::MakeAuthData,
        ControllerState::Connected(AuthStep::Authentication) => ControllerAction::Authenticate,
        ControllerState::Authenticated => ControllerAction::Serve,
        ControllerState::Failed(e) => ControllerAction::GiveUp(e),
    }
}

/// How far a state is along the procedure.
pub open spec fn progress(state: ControllerState) -> nat {
    match state {
        ControllerState::Disconnected => 0,
        ControllerState::Connected(AuthStep::Liveness) => 1,
        ControllerState::Connected(AuthStep::ProtocolInfo) => 2,
        ControllerState::Connected(AuthStep::AuthData) => 3,
        ControllerState::Connected(AuthStep::Authentication) => 4,
        ControllerState::Authenticated => 5,
        ControllerState::Failed(_) => 6,
    }
}

/// No way back: a report moves a controller one step forward or fails it,
/// and neither an authenticated nor a failed controller ever changes.
pub proof fn lemma_no_way_back(state: ControllerState, event: ControllerEvent)
    ensures
        state is Authenticated || state is Failed ==> step(state, event) == state,
        !(state is Authenticated || state is Failed) ==> step(state, event) is Failed
            || progress(step(state, event)) == progress(state) + 1,
        step(state, event) matches ControllerState::Failed(e) ==> e == failure_in(state),
{
}

/// A failed or authenticated controller stays so whatever is reported.
pub proof fn lemma_final_states_stay(state: ControllerState, events: Seq<ControllerEvent>)
    requires
        state is Authenticated || state is Failed,
    ensures
        run(state, events) == state,
    decreases events.len(),
{
    if events.len() > 0 {
        lemma_final_states_stay(state, events.skip(1));
    }
}

/// Authentication is reached by the five steps in their order and in no
/// other way: the session was opened, the check page confirmed the network,
/// the protocol information was loaded, the authentication data made, and
/// the daemon accepted it.
pub proof fn lemma_authenticated_by_every_step(events: Seq<ControllerEvent>)
    requires
        run(ControllerState::Disconnected, events) is Authenticated,
    ensures
        events.len() >= 5,
        events[0] is Connected,
        events[1] matches ControllerEvent::CheckPage(page) && confirms_tor(encode_utf8(page@)),
        events[2] is ProtocolInfoLoaded,
        events[3] is AuthDataMade,
        events[4] is AuthAccepted,
{
    let s0 = ControllerState::Disconnected;
    lemma_reaches(s0, events);
    let s1 = step(s0, events[0]);
    let e1 = events.skip(1);
    lemma_reaches(s1, e1);
    let s2 = step(s1, e1[0]);
    let e2 = e1.skip(1);
    lemma_reaches(s2, e2);
    let s3 = step(s2, e2[0]);
    let e3 = e2.skip(1);
    lemma_reaches(s3, e3);
    let s4 = step(s3, e3[0]);
    let e4 = e3.skip(1);
    lemma_reaches(s4, e4);
    assert(e1[0] == events[1]);
    assert(e2[0] == events[2]);
    assert(e3[0] == events[3]);
    assert(e4[0] == events[4]);
}

/// A run that ends authenticated, from a state that is not, has a first
/// report, and that report is the success of the step owed.
proof fn lemma_reaches(state: ControllerState, events: Seq<ControllerEvent>)
    requires
        run(state, events) is Authenticated,
        !(state is Authenticated),
    ensures
        events.len() >= 1,
        succeeds(state, events[0]),
        step(state, events[0]) == advanced(state),
        run(step(state, events[0]), events.skip(1)) is Authenticated,
{
    if state is Failed {
        lemma_final_states_stay(state, events);
    } else if events.len() > 0 && !succeeds(state, events[0]) {
        lemma_final_states_stay(step(state, events[0]), events.skip(1));
    }
}

/// The controller of the local daemon: its configuration and where the
/// authentication procedure stands.
#[derive(Clone, Copy, Debug, PartialEq, Eq, Structural)]
pub struct HiddenServiceController {
    connection: UnauthenticatedConnection,
    state: ControllerState,
}

impl HiddenServiceController {
    pub closed spec fn spec_connection(&self) -> UnauthenticatedConnection {
        self.connection
    }

    pub closed spec fn spec_state(&self) -> ControllerState {
        self.state
    }

    /// A controller that has done nothing yet.
    pub fn new(connection: UnauthenticatedConnection) -> (controller: Self)
        ensures
            controller.spec_connection() == connection,
            controller.spec_state() == ControllerState::Disconnected,
    {
        Self { connection, state: ControllerState::Disconnected }
    }

    #[verifier::when_used_as_spec(spec_connection)]
    pub fn connection(&self) -> (connection: UnauthenticatedConnection)
        ensures
            connection == self.spec_connection(),
    {
        self.connection
    }

    #[verifier::when_used_as_spec(spec_state)]
    pub fn state(&self) -> (state: ControllerState)
        ensures
            state == self.spec_state(),
    {
        self.state
    }

    /// What is to be done next.
    pub fn action(&self) -> (action: ControllerAction)
        ensures
            action == action_in(self.spec_connection(), self.spec_state()),
    {
        match self.state {
            ControllerState::Disconnected => ControllerAction::Connect {
                control_port: self.connection.control_port(),
            },
            ControllerState::Connected(AuthStep::Liveness) => ControllerAction::CheckLiveness {
                socks5_port: self.connection.tor_proxy_port(),
            },
            ControllerState::Connected(AuthStep::ProtocolInfo) => ControllerAction::LoadProtocolInfo,
            ControllerState::Connected(AuthStep::AuthData) => ControllerAction::MakeAuthData,
            ControllerState::Connected(AuthStep::Authentication) => ControllerAction::Authenticate,
            ControllerState::Authenticated => ControllerAction::Serve,
            ControllerState::Failed(e) => ControllerAction::GiveUp(e),
        }
    }

    /// Takes in what came of the action.
    pub fn handle(&mut self, event: &ControllerEvent)
        ensures
            final(self).spec_connection() == old(self).spec_connection(),
            final(self).spec_state() == step(old(self).spec_state(), *event),
    {
        let next = match (self.state, event) {
            (ControllerState::Authenticated, _) => ControllerState::Authenticated,
            (ControllerState::Failed(e), _) => ControllerState::Failed(e),
            (ControllerState::Disconnected, ControllerEvent::Connected) => {
                ControllerState::Connected(AuthStep::Liveness)
            },
            (ControllerState::Disconnected, _) => ControllerState::Failed(
                AnonymityNetworkError::Unreachable,
            ),
            (ControllerState::Connected(AuthStep::Liveness), ControllerEvent::CheckPage(page)) => {
                match self.connection.assert_tor_running(page.as_str()) {
                    Ok(()) => ControllerState::Connected(AuthStep::ProtocolInfo),
                    Err(e) => ControllerState::Failed(e),
                }
            },
            (ControllerState::Connected(AuthStep::Liveness), _) => ControllerState::Failed(
                AnonymityNetworkError::NotRunning,
            ),
            (
                ControllerState::Connected(AuthStep::ProtocolInfo),
                ControllerEvent::ProtocolInfoLoaded,
            ) => ControllerState::Connected(AuthStep::AuthData),
            (ControllerState::Connected(AuthStep::AuthData), ControllerEvent::AuthDataMade) => {
                ControllerState::Connected(AuthStep::Authentication)
            },
            (
                ControllerState::Connected(AuthStep::Authentication),
                ControllerEvent::AuthAccepted,
            ) => ControllerState::Authenticated,
            (ControllerState::Connected(_), _) => ControllerState::Failed(
                AnonymityNetworkError::AuthFailed,
            ),
        };
        self.state = next;
    }
}

/// The verdict on a procedure that stands in `state`: success once it is
/// authenticated; otherwise the error of the step that failed or is owed.
pub open spec fn verdict(state: ControllerState) -> Result<(), AnonymityNetworkError> {
    match state {
        ControllerState::Authenticated => Ok(()),
        _ => Err(failure_in(state)),
    }
}

/// A control session that is authenticated. There is no other way to one
/// than through the authentication procedure.
#[derive(Debug)]
pub struct AuthenticatedConnection {
    connection: UnauthenticatedConnection,
}

/// A request for one ephemeral v3 onion service. Each listener maps an
/// onion port to a TCP port on the loopback address.
#[derive(Clone, Debug)]
pub struct AddOnion {
    /// Whether the service outlives the control session. It never does.
    pub detach: bool,
    /// Whether the service gives up the anonymity of the server. It never does.
    pub non_anonymous: bool,
    /// Whether a circuit is closed when it exceeds the stream limit. It never is.
    pub max_streams_close_circuit: bool,
    /// The stream limit of a circuit. There is none.
    pub max_num_streams: Option<u16>,
    /// Pairs of onion port and loopback port.
    pub listeners: Vec<(u16, u16)>,
}

/// Whether a request is for an ephemeral service with these listeners.
pub open spec fn is_ephemeral_request(request: AddOnion, listeners: Seq<(u16, u16)>) -> bool {
    &&& !request.detach
    &&& !request.non_anonymous
    &&& !request.max_streams_close_circuit
    &&& request.max_num_streams is None
    &&& request.listeners@ == listeners
}

impl UnauthenticatedConnection {
    /// Concludes the authentication procedure from the reports of its
    /// actions, in the order in which they came: an authenticated
    /// connection if they carry a controller from the start to the
    /// authenticated state, else the error of the step that failed or is
    /// still owed.
    pub fn into_authenticated_connection(self, events: &Vec<ControllerEvent>) -> (connection:
        Result<AuthenticatedConnection, AnonymityNetworkError>)
        ensures
            connection is Ok <==> run(ControllerState::Disconnected, events@) is Authenticated,
            connection matches Ok(c) ==> c.spec_connection() == self,
            connection matches Err(e) ==> verdict(run(ControllerState::Disconnected, events@))
                == Err::<(), AnonymityNetworkError>(e),
    {
        let mut controller = HiddenServiceController::new(self);
        let n = events.len();
        let mut i: usize = 0;
        assert(events@.skip(0) =~= events@);
        while i < n
            invariant
                n == events@.len(),
                i <= n,
                controller.spec_connection() == self,
                run(ControllerState::Disconnected, events@) == run(
                    controller.spec_state(),
                    events@.skip(i as int),
                ),
            decreases n - i,
        {
            controller.handle(&events[i]);
            assert(events@.skip(i as int).skip(1) =~= events@.skip(i + 1));
            i = i + 1;
        }
        match controller.state() {
            ControllerState::Authenticated => Ok(AuthenticatedConnection { connection: self }),
            ControllerState::Failed(e) => Err(e),
            ControllerState::Disconnected => Err(AnonymityNetworkError::Unreachable),
            ControllerState::Connected(AuthStep::Liveness) => Err(AnonymityNetworkError::NotRunning),
            ControllerState::Connected(_) => Err(AnonymityNetworkError::AuthFailed),
        }
    }
}

impl AuthenticatedConnection {
    /// The configuration of the daemon that the session is with.
    pub closed spec fn spec_connection(&self) -> UnauthenticatedConnection {
        self.connection
    }

    #[verifier::when_used_as_spec(spec_connection)]
    pub fn connection(&self) -> (connection: UnauthenticatedConnection)
        ensures
            connection == self.spec_connection(),
    {
        self.connection
    }

    /// The request for an ephemeral service that makes the loopback port
    /// `service_port` reachable at `onion_port`. The two may differ: they
    /// are ports of different networks.
    pub fn add_service(&mut self, service_port: u16, onion_port: u16) -> (request: AddOnion)
        ensures
            is_ephemeral_request(request, seq![(onion_port, service_port)]),
            final(self).spec_connection() == old(self).spec_connection(),
    {
        let mut listeners: Vec<(u16, u16)> = Vec::new();
        listeners.push((onion_port, service_port));
        assert(listeners@ =~= seq![(onion_port, service_port)]);
        AddOnion {
            detach: false,
            non_anonymous: false,
            max_streams_close_circuit: false,
            max_num_streams: None,
            listeners,
        }
    }

    /// The request for an ephemeral service with several listeners, each a
    /// pair of onion port and loopback port.
    pub fn add_services(&mut self, services: &Vec<(u16, u16)>) -> (request: AddOnion)
        ensures
            is_ephemeral_request(request, services@),
            final(self).spec_connection() == old(self).spec_connection(),
    {
        let mut listeners: Vec<(u16, u16)> = Vec::new();
        let n = services.len();
        let mut i: usize = 0;
        while i < n
            invariant
                n == services@.len(),
                i <= n,
                listeners@ == services@.take(i as int),
            decreases n - i,
        {
            listeners.push(services[i]);
            i = i + 1;
            assert(listeners@ =~= services@.take(i as int));
        }
        assert(services@.take(n as int) =~= services@);
        AddOnion {
            detach: false,
            non_anonymous: false,
            max_streams_close_circuit: false,
            max_num_streams: None,
            listeners,
        }
    }

    /// What the daemon's answer to a provisioning request amounts to.
    pub fn provisioned(&mut self, acknowledged: bool) -> (done: Result<(), AnonymityNetworkError>)
        ensures
            done is Ok <==> acknowledged,
            done matches Err(e) ==> e == AnonymityNetworkError::Provisioning,
            final(self).spec_connection() == old(self).spec_connection(),
    {
        if acknowledged {
            Ok(())
        } else {
            Err(AnonymityNetworkError::Provisioning)
        }
    }
}

} // verus!

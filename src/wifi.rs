//! Wi-Fi session state: the aggregate that URC events mutate, the join and
//! restart decisions, and the local address record.
use vstd::prelude::*;
use crate::bytes::{copy_range, range_eq};
use crate::commands::AtError;
use crate::keywords as kw;
use crate::net::{ipv4_of, ipv6_of, Ipv4Addr, Ipv6Addr};
use crate::stack::{closed_slot, ConnectionState, SocketState};
use crate::urc::{URCMessages, UrcEvent};

verus! {

/// Possible errors when joining an access point
#[derive(Clone, Copy, Debug, PartialEq, Eq, Structural)]
pub enum JoinError {
    /// Error while setting the flash configuration mode
    ConfigurationStoreError(AtError),
    /// Error while setting Wi-Fi mode to station
    ModeError(AtError),
    /// Error while setting Wi-Fi credentials
    ConnectError(AtError),
    /// Given SSID is longer than the max. size of 32 bytes
    InvalidSSDLength,
    /// Given password is longer than the max. size of 63 bytes
    InvalidPasswordLength,
    /// Received an unexpected WouldBlock from the client
    UnexpectedWouldBlock,
}

/// Errors when receiving local address information
#[derive(Clone, Copy, Debug, PartialEq, Eq, Structural)]
pub enum AddressErrors {
    /// CIFSR command failed
    CommandError(AtError),
    /// Error while parsing addresses
    AddressParseError,
    /// Received an unexpected WouldBlock from the client
    UnexpectedWouldBlock,
}

/// General errors for simple commands (e.g. enabling a configuration flag)
#[derive(Clone, Copy, Debug, PartialEq, Eq, Structural)]
pub enum CommandError {
    /// Command failed with the given upstream error
    CommandFailed(AtError),
    /// No ready message received within the timeout (5 seconds)
    ReadyTimeout,
    /// Upstream timer error
    TimerError,
    /// Received an unexpected WouldBlock from the client
    UnexpectedWouldBlock,
}

/// Current Wi-Fi connection state
#[derive(Copy, Clone, Debug, PartialEq, Eq, Structural)]
pub struct JoinState {
    /// True if connected to a Wi-Fi access point
    pub connected: bool,
    /// True if an IP was assigned
    pub ip_assigned: bool,
}

/// How long a restart waits for the ready banner.
pub const RESTART_TIMEOUT_MS: u32 = 5000;

/// Default time a sent chunk waits for its confirmation.
pub const DEFAULT_SEND_TIMEOUT_MS: u32 = 5000;

/// What one poll of a running timer saw.
#[derive(Copy, Clone, Debug, PartialEq, Eq, Structural)]
pub enum TimerStatus {
    /// The timer has not fired yet
    Pending,
    /// The timer fired
    Expired,
    /// The timer reported an error
    Failed,
}

/// Collection of network state
pub struct Session {
    /// Joined to a Wi-Fi network; updated by URC messages
    pub joined: bool,
    /// An IP was assigned by the access point; updated by URC messages
    pub ip_assigned: bool,
    /// A ready banner arrived
    pub ready: bool,
    /// Multiple connections have been enabled
    pub multi_connections_enabled: bool,
    /// Passive receiving mode has been enabled
    pub passive_mode_enabled: bool,
    /// Socket slots, index = link id
    pub sockets: [SocketState; 5],
    /// Byte count confirmed by a `Recv N bytes` URC; cleared before each chunk
    pub recv_byte_count: Option<usize>,
    /// `Some(true)`: send confirmed; `Some(false)`: send failed; `None`: neither yet
    pub send_confirmed: Option<bool>,
    /// The peer answered a connect with `ALREADY CONNECTED`
    pub already_connected: bool,
    /// Socket data of the last `+CIPRECVDATA` frame
    pub data: Option<Vec<u8>>,
}

/// The mathematical value of a session.
pub struct SessionView {
    pub joined: bool,
    pub ip_assigned: bool,
    pub ready: bool,
    pub multi_connections_enabled: bool,
    pub passive_mode_enabled: bool,
    pub sockets: Seq<SocketState>,
    pub recv_byte_count: Option<usize>,
    pub send_confirmed: Option<bool>,
    pub already_connected: bool,
    pub data: Option<Seq<u8>>,
}

impl View for Session {
    type V = SessionView;

    open spec fn view(&self) -> SessionView {
        SessionView {
            joined: self.joined,
            ip_assigned: self.ip_assigned,
            ready: self.ready,
            multi_connections_enabled: self.multi_connections_enabled,
            passive_mode_enabled: self.passive_mode_enabled,
            sockets: self.sockets@,
            recv_byte_count: self.recv_byte_count,
            send_confirmed: self.send_confirmed,
            already_connected: self.already_connected,
            data: match self.data {
                Some(d) => Some(d@),
                None => None,
            },
        }
    }
}

/// The session of a freshly started or restarted driver.
pub open spec fn initial_session() -> SessionView {
    SessionView {
        joined: false,
        ip_assigned: false,
        ready: false,
        multi_connections_enabled: false,
        passive_mode_enabled: false,
        sockets: Seq::new(5, |i: int| closed_slot()),
        recv_byte_count: None,
        send_confirmed: None,
        already_connected: false,
        data: None,
    }
}

/// Sets the connection state of slot `id`.
pub open spec fn with_state(s: SessionView, id: int, state: ConnectionState) -> SessionView {
    SessionView {
        sockets: s.sockets.update(id, SocketState { state, ..s.sockets[id] }),
        ..s
    }
}

/// Sets the available byte count of slot `id`.
pub open spec fn with_available(s: SessionView, id: int, n: usize) -> SessionView {
    SessionView {
        sockets: s.sockets.update(id, SocketState { data_available: n, ..s.sockets[id] }),
        ..s
    }
}

/// The effect of one event on the session.
pub open spec fn apply_event(s: SessionView, e: UrcEvent) -> SessionView {
    match e {
        UrcEvent::WifiConnected => SessionView { joined: true, ..s },
        UrcEvent::WifiDisconnected => SessionView { joined: false, ip_assigned: false, ..s },
        UrcEvent::ReceivedIP => SessionView { ip_assigned: true, ..s },
        UrcEvent::Ready => SessionView { ready: true, ..s },
        UrcEvent::SocketConnected(id) => if id < 5 {
            with_state(s, id as int, ConnectionState::Connected)
        } else {
            s
        },
        UrcEvent::SocketClosed(id) => if id < 5 {
            with_state(s, id as int, ConnectionState::Closing)
        } else {
            s
        },
        UrcEvent::AlreadyConnected => SessionView { already_connected: true, ..s },
        UrcEvent::ReceivedBytes(n) => SessionView { recv_byte_count: Some(n), ..s },
        UrcEvent::SendConfirmation => SessionView { send_confirmed: Some(true), ..s },
        UrcEvent::SendFail => SessionView { send_confirmed: Some(false), ..s },
        UrcEvent::DataAvailable(id, n) => if id < 5 {
            with_available(s, id as int, n)
        } else {
            s
        },
        UrcEvent::Data(d) => SessionView { data: Some(d), ..s },
        UrcEvent::Echo => s,
        UrcEvent::Unknown => s,
    }
}

/// The effect of a sequence of events, in arrival order.
pub open spec fn apply_events(s: SessionView, es: Seq<UrcEvent>) -> SessionView
    decreases es.len(),
{
    if es.len() == 0 {
        s
    } else {
        apply_event(apply_events(s, es.drop_last()), es.last())
    }
}

impl Session {
    /// A fresh session: not joined, not ready, all slots closed.
    pub fn new() -> (r: Self)
        ensures
            r@ == initial_session(),
    {
        let r = Session {
            joined: false,
            ip_assigned: false,
            ready: false,
            multi_connections_enabled: false,
            passive_mode_enabled: false,
            sockets: [
                SocketState::closed(),
                SocketState::closed(),
                SocketState::closed(),
                SocketState::closed(),
                SocketState::closed(),
            ],
            recv_byte_count: None,
            send_confirmed: None,
            already_connected: false,
            data: None,
        };
        assert(r@.sockets =~= initial_session().sockets);
        r
    }

    /// Applies one URC event. Socket events for a link id of 5 or more are
    /// ignored.
    pub fn handle_urc<const N: usize>(&mut self, message: URCMessages<N>)
        ensures
            final(self)@ == apply_event(old(self)@, message@),
    {
        match message {
            URCMessages::WifiDisconnected => {
                self.joined = false;
                self.ip_assigned = false;
            },
            URCMessages::ReceivedIP => self.ip_assigned = true,
            URCMessages::WifiConnected => self.joined = true,
            URCMessages::Ready => self.ready = true,
            URCMessages::SocketConnected(link_id) => {
                if link_id < 5 {
                    self.set_state(link_id, ConnectionState::Connected);
                }
            },
            URCMessages::SocketClosed(link_id) => {
                if link_id < 5 {
                    self.set_state(link_id, ConnectionState::Closing);
                }
            },
            URCMessages::AlreadyConnected => self.already_connected = true,
            URCMessages::ReceivedBytes(count) => self.recv_byte_count = Some(count),
            URCMessages::SendConfirmation => self.send_confirmed = Some(true),
            URCMessages::SendFail => self.send_confirmed = Some(false),
            URCMessages::DataAvailable(link_id, length) => {
                if link_id < 5 {
                    let mut slot = self.sockets[link_id];
                    slot.data_available = length;
                    self.sockets[link_id] = slot;
                    assert(self@.sockets =~= with_available(old(self)@, link_id as int, length).sockets);
                }
            },
            URCMessages::Data(data) => self.data = Some(data),
            URCMessages::Echo => {},
            URCMessages::Unknown => {},
        }
    }

    /// Sets the connection state of one slot.
    pub(crate) fn set_state(&mut self, link_id: usize, state: ConnectionState)
        requires
            link_id < 5,
        ensures
            final(self)@ == with_state(old(self)@, link_id as int, state),
    {
        let mut slot = self.sockets[link_id];
        slot.state = state;
        self.sockets[link_id] = slot;
        assert(self@.sockets =~= with_state(old(self)@, link_id as int, state).sockets);
    }

    /// The Wi-Fi part of the session.
    pub fn join_state(&self) -> (r: JoinState)
        ensures
            r.connected == self.joined,
            r.ip_assigned == self.ip_assigned,
    {
        JoinState { connected: self.joined, ip_assigned: self.ip_assigned }
    }
}

/// Single line of the local address response: `+CIFSR:<type>,"<address>"`
pub struct LocalAddressResponse {
    /// Address type: `STAIP`, `STAIP6LL`, `STAIP6GL` or `STAMAC`
    pub address_type: Vec<u8>,
    /// The address as text
    pub address: Vec<u8>,
}

/// Local IP and MAC addresses
#[derive(Debug)]
pub struct LocalAddress {
    /// Local IPv4 address if assigned
    pub ipv4: Option<Ipv4Addr>,
    /// Local MAC address
    pub mac: Option<Vec<u8>>,
    /// Link local IPv6 address if assigned
    pub ipv6_link_local: Option<Ipv6Addr>,
    /// Global IPv6 address if assigned
    pub ipv6_global: Option<Ipv6Addr>,
}

/// The mathematical value of a local address record.
pub struct LocalAddressView {
    pub ipv4: Option<Seq<u8>>,
    pub mac: Option<Seq<u8>>,
    pub ipv6_link_local: Option<Seq<u16>>,
    pub ipv6_global: Option<Seq<u16>>,
}

impl View for LocalAddress {
    type V = LocalAddressView;

    open spec fn view(&self) -> LocalAddressView {
        LocalAddressView {
            ipv4: match self.ipv4 {
                Some(a) => Some(a.octets@),
                None => None,
            },
            mac: match self.mac {
                Some(m) => Some(m@),
                None => None,
            },
            ipv6_link_local: match self.ipv6_link_local {
                Some(a) => Some(a.segments@),
                None => None,
            },
            ipv6_global: match self.ipv6_global {
                Some(a) => Some(a.segments@),
                None => None,
            },
        }
    }
}

/// A record with no address.
pub open spec fn no_address() -> LocalAddressView {
    LocalAddressView { ipv4: None, mac: None, ipv6_link_local: None, ipv6_global: None }
}

/// Longest MAC address text.
pub const MAX_MAC_LENGTH: usize = 17;

/// Folds one response line into the record: a known type whose address
/// does not parse (or a MAC over 17 bytes) is an error; an unknown type is
/// skipped.
pub open spec fn address_step(a: LocalAddressView, t: Seq<u8>, v: Seq<u8>) -> Result<LocalAddressView, AddressErrors> {
    if t == kw::addr_staip() {
        match ipv4_of(v) {
            Some(o) => Ok(LocalAddressView { ipv4: Some(o), ..a }),
            None => Err(AddressErrors::AddressParseError),
        }
    } else if t == kw::addr_staip6ll() {
        match ipv6_of(v) {
            Some(g) => Ok(LocalAddressView { ipv6_link_local: Some(g), ..a }),
            None => Err(AddressErrors::AddressParseError),
        }
    } else if t == kw::addr_staip6gl() {
        match ipv6_of(v) {
            Some(g) => Ok(LocalAddressView { ipv6_global: Some(g), ..a }),
            None => Err(AddressErrors::AddressParseError),
        }
    } else if t == kw::addr_stamac() {
        if v.len() > 17 {
            Err(AddressErrors::AddressParseError)
        } else {
            Ok(LocalAddressView { mac: Some(v), ..a })
        }
    } else {
        Ok(a)
    }
}

/// The record that the first `n` response lines give, in order.
pub open spec fn addresses_of(rs: Seq<LocalAddressResponse>, n: int) -> Result<LocalAddressView, AddressErrors>
    decreases n,
{
    if n <= 0 {
        Ok(no_address())
    } else {
        match addresses_of(rs, n - 1) {
            Err(e) => Err(e),
            Ok(a) => address_step(a, rs[n - 1].address_type@, rs[n - 1].address@),
        }
    }
}

/// Once a line failed, the whole response fails with that error.
proof fn lemma_address_error_stays(rs: Seq<LocalAddressResponse>, i: int, n: int)
    requires
        0 < i <= n,
        addresses_of(rs, i) is Err,
    ensures
        addresses_of(rs, n) == addresses_of(rs, i),
    decreases n - i,
{
    if i < n {
        lemma_address_error_stays(rs, i, n - 1);
    }
}

impl LocalAddress {
    /// Builds the record from the lines of the `AT+CIFSR` response.
    pub fn from_responses(responses: Vec<LocalAddressResponse>) -> (r: Result<Self, AddressErrors>)
        ensures
            match r {
                Ok(a) => addresses_of(responses@, responses@.len() as int) == Ok::<
                    LocalAddressView,
                    AddressErrors,
                >(a@),
                Err(e) => addresses_of(responses@, responses@.len() as int) == Err::<
                    LocalAddressView,
                    AddressErrors,
                >(e),
            },
    {
        let mut data = LocalAddress { ipv4: None, mac: None, ipv6_link_local: None, ipv6_global: None };
        let staip = kw::addr_staip_bytes();
        let staip6ll = kw::addr_staip6ll_bytes();
        let staip6gl = kw::addr_staip6gl_bytes();
        let stamac = kw::addr_stamac_bytes();
        let mut i: usize = 0;
        while i < responses.len()
            invariant
                i <= responses@.len(),
                addresses_of(responses@, i as int) == Ok::<LocalAddressView, AddressErrors>(data@),
                staip@ == kw::addr_staip(),
                staip6ll@ == kw::addr_staip6ll(),
                staip6gl@ == kw::addr_staip6gl(),
                stamac@ == kw::addr_stamac(),
            decreases responses@.len() - i,
        {
            let t = responses[i].address_type.as_slice();
            let v = responses[i].address.as_slice();
            let n = t.len();
            let ghost prev = data@;
            assert(t@.subrange(0, n as int) == t@);
            assert(addresses_of(responses@, i + 1) == address_step(prev, t@, v@));
            if range_eq(t, 0, n, &staip) {
                match Ipv4Addr::parse(v) {
                    Some(ip) => data.ipv4 = Some(ip),
                    None => {
                        proof {
                            lemma_address_error_stays(responses@, i as int + 1, responses@.len() as int);
                        }
                        return Err(AddressErrors::AddressParseError);
                    },
                }
            } else if range_eq(t, 0, n, &staip6ll) {
                match Ipv6Addr::parse(v) {
                    Some(ip) => data.ipv6_link_local = Some(ip),
                    None => {
                        proof {
                            lemma_address_error_stays(responses@, i as int + 1, responses@.len() as int);
                        }
                        return Err(AddressErrors::AddressParseError);
                    },
                }
            } else if range_eq(t, 0, n, &staip6gl) {
                match Ipv6Addr::parse(v) {
                    Some(ip) => data.ipv6_global = Some(ip),
                    None => {
                        proof {
                            lemma_address_error_stays(responses@, i as int + 1, responses@.len() as int);
                        }
                        return Err(AddressErrors::AddressParseError);
                    },
                }
            } else if range_eq(t, 0, n, &stamac) {
                if v.len() > MAX_MAC_LENGTH {
                    proof {
                        lemma_address_error_stays(responses@, i as int + 1, responses@.len() as int);
                    }
                    return Err(AddressErrors::AddressParseError);
                }
                let mac = copy_range(v, 0, v.len());
                assert(mac@ =~= v@);
                data.mac = Some(mac);
            }
            assert(address_step(prev, t@, v@) == Ok::<LocalAddressView, AddressErrors>(data@));
            i = i + 1;
        }
        Ok(data)
    }
}

impl Session {
    /// First step of a restart: the session is no longer ready.
    pub fn begin_restart(&mut self)
        ensures
            final(self)@ == (SessionView { ready: false, ..old(self)@ }),
    {
        self.ready = false;
    }

    /// Records the result of the restart command: on success the whole
    /// session is reset before anything else happens; a failure is reported
    /// as a failed command and leaves the session as it was.
    pub fn restart_result(&mut self, result: Result<(), AtError>) -> (r: Result<(), CommandError>)
        ensures
            match result {
                Ok(_) => r is Ok && final(self)@ == initial_session(),
                Err(e) => r == Err::<(), CommandError>(CommandError::CommandFailed(e))
                    && final(self)@ == old(self)@,
            },
    {
        match result {
            Ok(_) => {
                *self = Session::new();
                Ok(())
            },
            Err(e) => Err(CommandError::CommandFailed(e)),
        }
    }

    /// Decides one poll while a restart waits for the ready banner, after
    /// the pending URCs were applied: ready ends the wait; else an expired
    /// timer is a ready timeout and a timer error is reported as such.
    pub fn restart_poll(&self, timer: TimerStatus) -> (r: Option<Result<(), CommandError>>)
        ensures
            r == if self.ready {
                Some(Ok::<(), CommandError>(()))
            } else {
                match timer {
                    TimerStatus::Pending => None,
                    TimerStatus::Expired => Some(Err(CommandError::ReadyTimeout)),
                    TimerStatus::Failed => Some(Err(CommandError::TimerError)),
                }
            },
    {
        if self.ready {
            return Some(Ok(()));
        }
        match timer {
            TimerStatus::Pending => None,
            TimerStatus::Expired => Some(Err(CommandError::ReadyTimeout)),
            TimerStatus::Failed => Some(Err(CommandError::TimerError)),
        }
    }
}

/// True if the event moves a socket slot.
pub open spec fn is_socket_event(e: UrcEvent) -> bool {
    e is SocketConnected || e is SocketClosed
}

/// Events other than socket events leave the connection states alone.
pub proof fn lemma_states_kept(s: SessionView, es: Seq<UrcEvent>)
    requires
        s.sockets.len() == 5,
        forall|i: int| 0 <= i < es.len() ==> !is_socket_event(#[trigger] es[i]),
    ensures
        apply_events(s, es).sockets.len() == 5,
        forall|id: int| 0 <= id < 5 ==> (#[trigger] apply_events(s, es).sockets[id]).state
            == s.sockets[id].state,
    decreases es.len(),
{
    if es.len() > 0 {
        let init = es.drop_last();
        assert forall|i: int| 0 <= i < init.len() implies !is_socket_event(#[trigger] init[i]) by {
            assert(init[i] == es[i]);
        }
        lemma_states_kept(s, init);
        assert(!is_socket_event(es[es.len() - 1]));
    }
}

/// A completed restart leaves every slot closed and the session ready: a
/// session reset by the restart, then changed by the events that arrived
/// until the ready banner was seen, has all five slots Closed, provided
/// none of those events was a socket connect or close notice.
pub proof fn lemma_restart_completes(es: Seq<UrcEvent>)
    requires
        forall|i: int| 0 <= i < es.len() ==> !is_socket_event(#[trigger] es[i]),
        apply_events(initial_session(), es).ready,
    ensures
        forall|id: int| 0 <= id < 5 ==> (#[trigger] apply_events(initial_session(), es).sockets[id]).state
            == ConnectionState::Closed,
        apply_events(initial_session(), es).ready,
{
    lemma_states_kept(initial_session(), es);
}

/// A slot that a connect event marked Connected stays Connected until a
/// close event for that slot arrives.
pub proof fn lemma_connected_until_closed(s: SessionView, id: usize, es: Seq<UrcEvent>)
    requires
        s.sockets.len() == 5,
        id < 5,
        es.len() > 0,
        es[0] == UrcEvent::SocketConnected(id),
        forall|i: int| 0 <= i < es.len() ==> es[i] != UrcEvent::SocketClosed(id),
    ensures
        apply_events(s, es).sockets[id as int].state == ConnectionState::Connected,
    decreases es.len(),
{
    if es.len() == 1 {
        assert(es.drop_last() =~= Seq::<UrcEvent>::empty());
        assert(apply_events(s, es.drop_last()) == s);
    } else {
        let init = es.drop_last();
        assert forall|i: int| 0 <= i < init.len() implies init[i] != UrcEvent::SocketClosed(id) by {
            assert(init[i] == es[i]);
        }
        lemma_connected_until_closed(s, id, init);
        lemma_sockets_len(s, init);
        assert(es.last() != UrcEvent::SocketClosed(id));
    }
}

/// Events keep five slots.
pub proof fn lemma_sockets_len(s: SessionView, es: Seq<UrcEvent>)
    requires
        s.sockets.len() == 5,
    ensures
        apply_events(s, es).sockets.len() == 5,
    decreases es.len(),
{
    if es.len() > 0 {
        lemma_sockets_len(s, es.drop_last());
    }
}

} // verus!

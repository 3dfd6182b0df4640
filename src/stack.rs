//! TCP client stack: socket handles, per-slot state, the stack's error
//! taxonomy, the receive buffer, and the decisions of the socket operations.
use vstd::prelude::*;
use crate::commands::{AtError, ConnectCommand, TransmissionPrepareCommand};
use crate::net::SocketAddr;
use crate::wifi::{with_available, with_state, Session, SessionView, TimerStatus};

verus! {

/// Unique handle of a socket slot.
#[derive(Debug)]
pub struct Socket {
    /// Link id on the peer, one of the five slots
    link_id: usize,
}

impl Socket {
    #[verifier::type_invariant]
    spec fn inv(self) -> bool {
        self.link_id < 5
    }

    /// The slot this handle owns.
    pub closed spec fn id(self) -> usize {
        self.link_id
    }

    pub(crate) fn new(link_id: usize) -> (r: Self)
        requires
            link_id < 5,
        ensures
            r.id() == link_id,
    {
        Self { link_id }
    }

    /// The link id of the slot.
    pub fn link_id(&self) -> (r: usize)
        ensures
            r == self.id(),
            r < 5,
    {
        proof {
            use_type_invariant(self);
        }
        self.link_id
    }
}

/// Connection state of a socket slot.
#[derive(Copy, Clone, PartialEq, Eq, Debug, Structural)]
pub enum ConnectionState {
    /// Socket is closed and may be (re)used
    Closed,
    /// Socket was returned by socket() but is not connected yet
    Open,
    /// Connection is fully open
    Connected,
    /// Socket was closed by the remote side; `close()` frees it
    Closing,
}

/// State of a single socket slot.
#[derive(Copy, Clone, PartialEq, Eq, Debug, Structural)]
pub struct SocketState {
    /// Connection state
    pub state: ConnectionState,
    /// Bytes buffered on the peer for this socket
    pub data_available: usize,
}

impl SocketState {
    /// A closed slot with nothing buffered.
    pub fn closed() -> (r: Self)
        ensures
            r == closed_slot(),
    {
        SocketState { state: ConnectionState::Closed, data_available: 0 }
    }
}

/// A closed slot with nothing buffered.
pub open spec fn closed_slot() -> SocketState {
    SocketState { state: ConnectionState::Closed, data_available: 0 }
}

/// Network related errors
#[derive(Clone, Copy, Debug, PartialEq, Eq, Structural)]
pub enum Error {
    /// Error while sending CIPMUX command for enabling multiple connections
    EnablingMultiConnectionsFailed(AtError),
    /// Error while sending CIPRECVMODE command for enabling passive socket receiving mode
    EnablingPassiveSocketModeFailed(AtError),
    /// TCP connect command failed
    ConnectError(AtError),
    /// Preparing the transmission failed (CIPSEND command)
    TransmissionStartFailed(AtError),
    /// Transmission of data failed
    SendFailed(AtError),
    /// Receiving data failed
    ReceiveFailed(AtError),
    /// Socket close command failed
    CloseError(AtError),
    /// The peer confirmed receiving an unexpected byte count
    PartialSend,
    /// Connect or close was answered by OK but not confirmed by a URC
    UnconfirmedSocketState,
    /// No socket available, since the maximum number is in use
    NoSocketAvailable,
    /// Given socket is already connected to another remote
    AlreadyConnected,
    /// Unable to send data if socket is not connected
    SocketUnconnected,
    /// Socket was remotely closed and needs to be reconnected or closed
    ClosingSocket,
    /// Received more data than requested; a peer or driver bug
    ReceiveOverflow,
    /// Received an unexpected WouldBlock from the client
    UnexpectedWouldBlock,
    /// Upstream timer error
    TimerError,
}

/// Index of the first closed slot at or after `from`.
pub open spec fn first_closed(sockets: Seq<SocketState>, from: int) -> Option<int>
    decreases sockets.len() - from,
{
    if from < 0 || from >= sockets.len() {
        None
    } else if sockets[from].state == ConnectionState::Closed {
        Some(from)
    } else {
        first_closed(sockets, from + 1)
    }
}

/// The session after `socket()` allocated a slot, and that slot; the
/// session unchanged and no slot if none is closed.
pub open spec fn open_model(s: SessionView) -> (SessionView, Option<int>) {
    match first_closed(s.sockets, 0) {
        Some(id) => (with_state(s, id, ConnectionState::Open), Some(id)),
        None => (s, None),
    }
}

/// One successful `socket()` call on the model: whether it sends the
/// multiple-connections command, and the session after it.
pub open spec fn socket_call_model(s: SessionView) -> (SessionView, bool) {
    let sent = !s.multi_connections_enabled;
    let latched = SessionView { multi_connections_enabled: true, ..s };
    (open_model(latched).0, sent)
}

/// `n` successive `socket()` calls whose commands succeed: the session
/// after them and how many multiple-connections commands went out.
pub open spec fn socket_calls_model(s: SessionView, n: nat) -> (SessionView, nat)
    decreases n,
{
    if n == 0 {
        (s, 0)
    } else {
        let (mid, count) = socket_calls_model(s, (n - 1) as nat);
        let (next, sent) = socket_call_model(mid);
        (next, if sent {
            count + 1
        } else {
            count
        })
    }
}

/// Smaller of the remaining length and the chunk size.
pub fn chunk_length(remaining: usize, chunk_size: usize) -> (r: usize)
    ensures
        r == if remaining < chunk_size {
            remaining
        } else {
            chunk_size
        },
{
    if remaining < chunk_size {
        remaining
    } else {
        chunk_size
    }
}

/// Outcome of one poll while a chunk waits for its confirmation.
#[derive(Clone, Copy, Debug, PartialEq, Eq, Structural)]
pub enum SendPoll {
    /// Neither confirmation nor timeout yet
    Waiting,
    /// The chunk was confirmed with a matching byte count
    Confirmed,
    /// The chunk failed; when the flag is set the client must be reset so
    /// that later commands resynchronise
    Failed(Error, bool),
}

impl Session {
    /// True if the slot is Open.
    pub fn is_socket_open(&self, socket: &Socket) -> (r: bool)
        ensures
            r == (self@.sockets[socket.id() as int].state == ConnectionState::Open),
    {
        let id = socket.link_id();
        self.sockets[id].state == ConnectionState::Open
    }

    /// True if the slot is Closed.
    pub fn is_socket_closed(&self, socket: &Socket) -> (r: bool)
        ensures
            r == (self@.sockets[socket.id() as int].state == ConnectionState::Closed),
    {
        let id = socket.link_id();
        self.sockets[id].state == ConnectionState::Closed
    }

    /// True if the slot is Closing.
    pub fn is_socket_closing(&self, socket: &Socket) -> (r: bool)
        ensures
            r == (self@.sockets[socket.id() as int].state == ConnectionState::Closing),
    {
        let id = socket.link_id();
        self.sockets[id].state == ConnectionState::Closing
    }

    /// True if the slot is Connected.
    pub fn is_socket_connected(&self, socket: &Socket) -> (r: bool)
        ensures
            r == (self@.sockets[socket.id() as int].state == ConnectionState::Connected),
    {
        let id = socket.link_id();
        self.sockets[id].state == ConnectionState::Connected
    }

    /// True if the peer buffers data for the slot.
    pub fn is_data_available(&self, socket: &Socket) -> (r: bool)
        ensures
            r == (self@.sockets[socket.id() as int].data_available > 0),
    {
        let id = socket.link_id();
        self.sockets[id].data_available > 0
    }

    /// The lowest closed slot, if any.
    pub fn get_next_open(&self) -> (r: Option<usize>)
        ensures
            match r {
                Some(id) => first_closed(self@.sockets, 0) == Some(id as int),
                None => first_closed(self@.sockets, 0) is None,
            },
    {
        let mut i: usize = 0;
        while i < 5
            invariant
                i <= 5,
                self@.sockets.len() == 5,
                first_closed(self@.sockets, 0) == first_closed(self@.sockets, i as int),
            decreases 5 - i,
        {
            if self.sockets[i].state == ConnectionState::Closed {
                return Some(i);
            }
            i = i + 1;
        }
        None
    }

    /// Lowers the available byte count of the slot by `length`, stopping at zero.
    pub fn reduce_available_data(&mut self, socket: &Socket, length: usize)
        ensures
            final(self)@ == with_available(
                old(self)@,
                socket.id() as int,
                if old(self)@.sockets[socket.id() as int].data_available < length {
                    0usize
                } else {
                    (old(self)@.sockets[socket.id() as int].data_available - length) as usize
                },
            ),
    {
        let id = socket.link_id();
        let mut slot = self.sockets[id];
        if slot.data_available < length {
            slot.data_available = 0;
        } else {
            slot.data_available = slot.data_available - length;
        }
        self.sockets[id] = slot;
        assert(self@.sockets =~= with_available(old(self)@, id as int, slot.data_available).sockets);
    }

    /// True if the peer reported a received byte count that differs from
    /// `actual_data_length`; false if it reported none.
    pub fn is_received_byte_count_incorrect(&self, actual_data_length: usize) -> (r: bool)
        ensures
            r == (self.recv_byte_count is Some && self.recv_byte_count != Some(actual_data_length)),
    {
        match self.recv_byte_count {
            Some(n) => n != actual_data_length,
            None => false,
        }
    }

    /// Sets the available byte count of the slot to zero.
    pub fn reset_available_data(&mut self, socket: &Socket)
        ensures
            final(self)@ == with_available(old(self)@, socket.id() as int, 0),
    {
        let id = socket.link_id();
        let mut slot = self.sockets[id];
        slot.data_available = 0;
        self.sockets[id] = slot;
        assert(self@.sockets =~= with_available(old(self)@, id as int, 0).sockets);
    }

    /// True if `socket()` must first send the multiple-connections command;
    /// it is sent once per session.
    pub fn needs_multiple_connections(&self) -> (r: bool)
        ensures
            r == !self.multi_connections_enabled,
            r == socket_call_model(self@).1,
    {
        !self.multi_connections_enabled
    }

    /// Assigns the lowest closed slot and marks it Open.
    pub fn open_socket(&mut self) -> (r: Result<Socket, Error>)
        ensures
            final(self)@ == open_model(old(self)@).0,
            match r {
                Ok(socket) => open_model(old(self)@).1 == Some(socket.id() as int)
                    && old(self)@.sockets[socket.id() as int].state == ConnectionState::Closed,
                Err(e) => e == Error::NoSocketAvailable && open_model(old(self)@).1 is None,
            },
    {
        match self.get_next_open() {
            Some(link_id) => {
                proof {
                    lemma_first_closed(self@.sockets, 0);
                }
                self.set_state(link_id, ConnectionState::Open);
                Ok(Socket::new(link_id))
            },
            None => Err(Error::NoSocketAvailable),
        }
    }

    /// True if `connect()` must first send the passive receiving mode
    /// command; it is sent once per session.
    pub fn needs_passive_mode(&self) -> (r: bool)
        ensures
            r == !self.passive_mode_enabled,
    {
        !self.passive_mode_enabled
    }

    /// Records the result of the passive receiving mode command.
    pub fn passive_mode_result(&mut self, result: Result<(), AtError>) -> (r: Result<(), Error>)
        ensures
            match result {
                Ok(_) => r is Ok && final(self)@ == (SessionView {
                    passive_mode_enabled: true,
                    ..old(self)@
                }),
                Err(e) => r == Err::<(), Error>(Error::EnablingPassiveSocketModeFailed(e))
                    && final(self)@ == old(self)@,
            },
    {
        match result {
            Ok(_) => {
                self.passive_mode_enabled = true;
                Ok(())
            },
            Err(e) => Err(Error::EnablingPassiveSocketModeFailed(e)),
        }
    }

    /// Refuses to connect a socket that is already connected.
    pub fn check_not_connected(&self, socket: &Socket) -> (r: Result<(), Error>)
        ensures
            r == if self@.sockets[socket.id() as int].state == ConnectionState::Connected {
                Err::<(), Error>(Error::AlreadyConnected)
            } else {
                Ok(())
            },
    {
        if self.is_socket_connected(socket) {
            return Err(Error::AlreadyConnected);
        }
        Ok(())
    }

    /// Clears the `ALREADY CONNECTED` flag and builds the connect command
    /// for the remote's address family.
    pub fn prepare_connect(&mut self, socket: &Socket, remote: SocketAddr) -> (r: ConnectCommand)
        ensures
            final(self)@ == (SessionView { already_connected: false, ..old(self)@ }),
            r.link_id == socket.id(),
            match remote {
                SocketAddr::V4(a) => r.connection_type@ == crate::keywords::tcp()
                    && r.remote_host@ == crate::net::ipv4_text(a.ip.octets@) && r.port == a.port,
                SocketAddr::V6(a) => r.connection_type@ == crate::keywords::tcp_v6()
                    && r.remote_host@ == crate::net::ipv6_text(a.ip.segments@) && r.port == a.port,
            },
    {
        self.already_connected = false;
        match remote {
            SocketAddr::V4(address) => ConnectCommand::tcp_v4(socket.link_id(), address),
            SocketAddr::V6(address) => ConnectCommand::tcp_v6(socket.link_id(), address),
        }
    }

    /// Decides a connect once its command returned and the URCs that came
    /// with it were applied: `ALREADY CONNECTED` means success and forces the
    /// slot to Connected; else a command error is reported; else the slot
    /// must have been confirmed Connected, and its available data is reset.
    pub fn finish_connect(&mut self, socket: &Socket, result: Result<(), AtError>) -> (r: Result<(), Error>)
        ensures
            old(self).already_connected ==> r is Ok && final(self)@ == with_state(
                old(self)@,
                socket.id() as int,
                ConnectionState::Connected,
            ),
            !old(self).already_connected && result is Err ==> r == Err::<(), Error>(
                Error::ConnectError(result->Err_0),
            ) && final(self)@ == old(self)@,
            !old(self).already_connected && result is Ok && old(self)@.sockets[socket.id() as int].state
                != ConnectionState::Connected ==> r == Err::<(), Error>(Error::UnconfirmedSocketState)
                && final(self)@ == old(self)@,
            !old(self).already_connected && result is Ok && old(self)@.sockets[socket.id() as int].state
                == ConnectionState::Connected ==> r is Ok && final(self)@ == with_available(
                old(self)@,
                socket.id() as int,
                0,
            ),
    {
        let id = socket.link_id();
        if self.already_connected {
            self.set_state(id, ConnectionState::Connected);
            return Ok(());
        }
        if let Err(e) = result {
            return Err(Error::ConnectError(e));
        }
        if !self.is_socket_connected(socket) {
            return Err(Error::UnconfirmedSocketState);
        }
        self.reset_available_data(socket);
        Ok(())
    }

    /// Checks that data can be sent on the socket.
    pub fn assert_socket_connected(&self, socket: &Socket) -> (r: Result<(), Error>)
        ensures
            r == match self@.sockets[socket.id() as int].state {
                ConnectionState::Closing => Err::<(), Error>(Error::ClosingSocket),
                ConnectionState::Connected => Ok(()),
                _ => Err(Error::SocketUnconnected),
            },
    {
        if self.is_socket_closing(socket) {
            return Err(Error::ClosingSocket);
        }
        if !self.is_socket_connected(socket) {
            return Err(Error::SocketUnconnected);
        }
        Ok(())
    }

    /// Clears the confirmation and the byte count before a chunk is sent.
    pub fn begin_chunk(&mut self)
        ensures
            final(self)@ == (SessionView { send_confirmed: None, recv_byte_count: None, ..old(self)@ }),
    {
        self.send_confirmed = None;
        self.recv_byte_count = None;
    }

    /// Decides one poll of a chunk that waits for its confirmation, after the
    /// pending URCs were applied. A confirmation is looked at before the
    /// timer: `SEND FAIL` fails the chunk, a confirmation with a differing
    /// byte count is a partial send, one without a count or with the chunk's
    /// length succeeds. Without confirmation an expired timer fails the chunk
    /// as a timeout and a timer error is reported as such.
    pub fn send_poll(&self, chunk_len: usize, timer: TimerStatus) -> (r: SendPoll)
        ensures
            r == match self.send_confirmed {
                Some(false) => SendPoll::Failed(Error::SendFailed(AtError::Error), true),
                Some(true) => if self.recv_byte_count is Some && self.recv_byte_count != Some(
                    chunk_len,
                ) {
                    SendPoll::Failed(Error::PartialSend, false)
                } else {
                    SendPoll::Confirmed
                },
                None => match timer {
                    TimerStatus::Pending => SendPoll::Waiting,
                    TimerStatus::Expired => SendPoll::Failed(Error::SendFailed(AtError::Timeout), true),
                    TimerStatus::Failed => SendPoll::Failed(Error::TimerError, false),
                },
            },
            r is Confirmed ==> self.send_confirmed == Some(true) && (self.recv_byte_count is None
                || self.recv_byte_count == Some(chunk_len)),
    {
        match self.send_confirmed {
            Some(false) => SendPoll::Failed(Error::SendFailed(AtError::Error), true),
            Some(true) => {
                if self.is_received_byte_count_incorrect(chunk_len) {
                    SendPoll::Failed(Error::PartialSend, false)
                } else {
                    SendPoll::Confirmed
                }
            },
            None => match timer {
                TimerStatus::Pending => SendPoll::Waiting,
                TimerStatus::Expired => SendPoll::Failed(Error::SendFailed(AtError::Timeout), true),
                TimerStatus::Failed => SendPoll::Failed(Error::TimerError, false),
            },
        }
    }

    /// Takes the payload of the last data frame after a receive command;
    /// without a payload the receive failed.
    pub fn take_received_data(&mut self) -> (r: Result<Vec<u8>, Error>)
        ensures
            match old(self)@.data {
                None => r == Err::<Vec<u8>, Error>(Error::ReceiveFailed(AtError::InvalidResponse))
                    && final(self)@ == old(self)@,
                Some(d) => (r matches Ok(v) && v@ == d) && final(self)@ == (SessionView {
                    data: None,
                    ..old(self)@
                }),
            },
    {
        match self.data.take() {
            None => Err(Error::ReceiveFailed(AtError::InvalidResponse)),
            Some(d) => Ok(d),
        }
    }

    /// One step of `receive()`, after a receive command returned and the
    /// URCs that came with it were applied: takes the pending payload,
    /// appends it to the buffer and lowers the slot's available count by its
    /// length. Without a payload the receive failed; a payload that does not
    /// fit is an overflow. Returns whether to pull more: data is still
    /// available and the buffer has room.
    pub fn receive_step<'a, const N: usize>(&mut self, socket: &Socket, buffer: &mut Buffer<'a, N>) -> (r: Result<bool, Error>)
        requires
            old(buffer).wf(),
        ensures
            final(buffer).wf(),
            final(buffer).initial() == old(buffer).initial(),
            match old(self)@.data {
                None => {
                    &&& r == Err::<bool, Error>(Error::ReceiveFailed(AtError::InvalidResponse))
                    &&& final(self)@ == old(self)@
                    &&& final(buffer).content() == old(buffer).content()
                    &&& final(buffer).pos() == old(buffer).pos()
                    &&& final(buffer).payloads() == old(buffer).payloads()
                },
                Some(d) => if d.len() > old(buffer).content().len() - old(buffer).pos() {
                    &&& r == Err::<bool, Error>(Error::ReceiveOverflow)
                    &&& final(self)@ == (SessionView { data: None, ..old(self)@ })
                    &&& final(buffer).content() == old(buffer).content()
                    &&& final(buffer).pos() == old(buffer).pos()
                    &&& final(buffer).payloads() == old(buffer).payloads()
                } else {
                    &&& final(buffer).payloads() == old(buffer).payloads().push(d)
                    &&& final(self)@ == with_available(
                        SessionView { data: None, ..old(self)@ },
                        socket.id() as int,
                        if old(self)@.sockets[socket.id() as int].data_available < d.len() {
                            0usize
                        } else {
                            (old(self)@.sockets[socket.id() as int].data_available - d.len()) as usize
                        },
                    )
                    &&& r == Ok::<bool, Error>(
                        final(self)@.sockets[socket.id() as int].data_available > 0
                            && final(buffer).pos() < final(buffer).content().len()
                    )
                },
            },
    {
        let data = self.take_received_data()?;
        let length = data.len();
        buffer.append(data)?;
        self.reduce_available_data(socket, length);
        Ok(self.is_data_available(socket) && !buffer.is_full())
    }

    /// Starts one chunk of `send()`: clears the confirmation and the byte
    /// count, and announces the next chunk, of at most `chunk_size` of the
    /// `remaining` bytes.
    pub fn prepare_chunk(&mut self, socket: &Socket, remaining: usize, chunk_size: usize) -> (r: TransmissionPrepareCommand)
        ensures
            final(self)@ == (SessionView { send_confirmed: None, recv_byte_count: None, ..old(self)@ }),
            r.link_id == socket.id(),
            r.length == if remaining < chunk_size {
                remaining
            } else {
                chunk_size
            },
    {
        self.begin_chunk();
        TransmissionPrepareCommand::new(socket.link_id(), chunk_length(remaining, chunk_size))
    }

    /// One `socket()` call, once the multiple-connections command returned
    /// where it was needed: `command` is its result, `None` where it was not
    /// sent. A failed command is reported and changes nothing; otherwise the
    /// flag is latched and the lowest closed slot is opened.
    pub fn socket_step(&mut self, command: Option<Result<(), AtError>>) -> (r: Result<Socket, Error>)
        ensures
            match command {
                Some(Err(e)) => r == Err::<Socket, Error>(Error::EnablingMultiConnectionsFailed(e))
                    && final(self)@ == old(self)@,
                _ => {
                    let latched = SessionView { multi_connections_enabled: true, ..old(self)@ };
                    &&& final(self)@ == socket_call_model(old(self)@).0
                    &&& match r {
                        Ok(socket) => open_model(latched).1 == Some(socket.id() as int)
                            && old(self)@.sockets[socket.id() as int].state == ConnectionState::Closed,
                        Err(e) => e == Error::NoSocketAvailable && open_model(latched).1 is None,
                    }
                },
            },
    {
        match command {
            Some(Err(e)) => return Err(Error::EnablingMultiConnectionsFailed(e)),
            _ => self.multi_connections_enabled = true,
        }
        self.open_socket()
    }

    /// First step of `close()`: a Closed slot needs nothing; an Open or
    /// Closing slot is set Closed locally; only a Connected slot needs the
    /// close command, and then the result is true.
    pub fn begin_close(&mut self, socket: &Socket) -> (r: bool)
        ensures
            r == (old(self)@.sockets[socket.id() as int].state == ConnectionState::Connected),
            r ==> final(self)@ == old(self)@,
            !r ==> final(self)@ == with_state(old(self)@, socket.id() as int, ConnectionState::Closed)
                || (old(self)@.sockets[socket.id() as int].state == ConnectionState::Closed
                && final(self)@ == old(self)@),
            !r ==> final(self)@.sockets[socket.id() as int].state == ConnectionState::Closed,
    {
        let id = socket.link_id();
        if self.is_socket_closed(socket) {
            return false;
        }
        if self.is_socket_closing(socket) || self.is_socket_open(socket) {
            self.set_state(id, ConnectionState::Closed);
            return false;
        }
        true
    }

    /// Last step of `close()` on a Connected slot, after the close command
    /// returned and the URCs were applied. A command error is reported; a
    /// success that no close URC confirmed is unconfirmed. The slot is set
    /// Closed in every case so that it can be reused.
    pub fn finish_close(&mut self, socket: &Socket, result: Result<(), AtError>) -> (r: Result<(), Error>)
        ensures
            final(self)@ == with_state(old(self)@, socket.id() as int, ConnectionState::Closed),
            r == match result {
                Err(e) => Err::<(), Error>(Error::CloseError(e)),
                Ok(_) => if old(self)@.sockets[socket.id() as int].state == ConnectionState::Closing
                    || old(self)@.sockets[socket.id() as int].state == ConnectionState::Closed {
                    Ok(())
                } else {
                    Err(Error::UnconfirmedSocketState)
                },
            },
    {
        let id = socket.link_id();
        let confirmed = self.is_socket_closing(socket) || self.is_socket_closed(socket);
        self.set_state(id, ConnectionState::Closed);
        match result {
            Err(e) => Err(Error::CloseError(e)),
            Ok(_) => if confirmed {
                Ok(())
            } else {
                Err(Error::UnconfirmedSocketState)
            },
        }
    }
}

/// A found closed slot lies in range and is closed.
pub proof fn lemma_first_closed(sockets: Seq<SocketState>, from: int)
    ensures
        match first_closed(sockets, from) {
            Some(i) => from <= i < sockets.len() && sockets[i].state == ConnectionState::Closed,
            None => true,
        },
    decreases sockets.len() - from,
{
    if 0 <= from < sockets.len() && sockets[from].state != ConnectionState::Closed {
        lemma_first_closed(sockets, from + 1);
    }
}

/// `c` with `d` written from index `p` on.
pub open spec fn write_at(c: Seq<u8>, p: int, d: Seq<u8>) -> Seq<u8> {
    c.subrange(0, p) + d + c.subrange(p + d.len(), c.len() as int)
}

/// The payloads one after the other.
pub open spec fn concat(ps: Seq<Seq<u8>>) -> Seq<u8>
    decreases ps.len(),
{
    if ps.len() == 0 {
        seq![]
    } else {
        concat(ps.drop_last()) + ps.last()
    }
}

/// A receive buffer with content `c`, filled from its start with the
/// payloads `ps` in order: the content and the fill length after them, or
/// `None` once a payload does not fit (an overflow).
pub open spec fn fill(c: Seq<u8>, ps: Seq<Seq<u8>>) -> Option<(Seq<u8>, nat)>
    decreases ps.len(),
{
    if ps.len() == 0 {
        Some((c, 0))
    } else {
        match fill(c, ps.drop_last()) {
            Some((c1, p1)) => if p1 + ps.last().len() <= c1.len() {
                Some((write_at(c1, p1 as int, ps.last()), p1 + ps.last().len()))
            } else {
                None
            },
            None => None,
        }
    }
}

/// A receive that fills its buffer with payloads returns a length between
/// zero and the buffer's length, the bytes written up to it are exactly the
/// payloads one after the other, and the bytes past it are untouched.
pub proof fn lemma_fill_concatenates(c: Seq<u8>, ps: Seq<Seq<u8>>)
    ensures
        match fill(c, ps) {
            Some((c2, n)) => {
                &&& n == concat(ps).len()
                &&& n <= c.len()
                &&& c2.len() == c.len()
                &&& c2.subrange(0, n as int) == concat(ps)
                &&& c2.subrange(n as int, c.len() as int) == c.subrange(n as int, c.len() as int)
            },
            None => true,
        },
    decreases ps.len(),
{
    if ps.len() > 0 {
        lemma_fill_concatenates(c, ps.drop_last());
        match fill(c, ps.drop_last()) {
            Some((c1, p1)) => {
                let d = ps.last();
                if p1 + d.len() <= c1.len() {
                    let c2 = write_at(c1, p1 as int, d);
                    assert(c2.subrange(0, (p1 + d.len()) as int) =~= c1.subrange(0, p1 as int) + d);
                    let q = (p1 + d.len()) as int;
                    assert forall|k: int| q <= k < c.len() implies c1[k] == c[k] by {
                        assert(c1.subrange(p1 as int, c.len() as int)[k - p1] == c.subrange(
                            p1 as int,
                            c.len() as int,
                        )[k - p1]);
                    }
                    assert(c2.subrange(q, c.len() as int) =~= c.subrange(q, c.len() as int));
                }
            },
            None => {},
        }
    }
}

/// Fills a caller's receive buffer chunk by chunk.
///
/// `CHUNK_SIZE` bounds the length that one receive command asks for.
pub struct Buffer<'a, const CHUNK_SIZE: usize> {
    buffer: &'a mut [u8],
    /// Next index to write at
    position: usize,
    /// The caller buffer as it was handed over
    initial: Ghost<Seq<u8>>,
    /// The payloads appended so far, in order
    payloads: Ghost<Seq<Seq<u8>>>,
}

impl<'a, const CHUNK_SIZE: usize> Buffer<'a, CHUNK_SIZE> {
    /// The fill position lies within the buffer, and the buffer is what
    /// filling the handed-over buffer with the appended payloads gives.
    pub closed spec fn wf(&self) -> bool {
        &&& self.position <= self.buffer@.len()
        &&& fill(self.initial@, self.payloads@) == Some((self.buffer@, self.position as nat))
    }

    /// The caller buffer as it was handed over.
    pub closed spec fn initial(&self) -> Seq<u8> {
        self.initial@
    }

    /// The payloads appended so far, in order.
    pub closed spec fn payloads(&self) -> Seq<Seq<u8>> {
        self.payloads@
    }

    /// The whole caller buffer.
    pub closed spec fn content(&self) -> Seq<u8> {
        self.buffer@
    }

    /// The number of bytes written so far.
    pub closed spec fn pos(&self) -> nat {
        self.position as nat
    }

    pub fn new(buffer: &'a mut [u8]) -> (r: Self)
        ensures
            r.content() == old(buffer)@,
            r.initial() == old(buffer)@,
            r.payloads() == Seq::<Seq<u8>>::empty(),
            r.pos() == 0,
            r.wf(),
    {
        let ghost initial = buffer@;
        Self { buffer, position: 0, initial: Ghost(initial), payloads: Ghost(Seq::empty()) }
    }

    /// Length of the next receive request: the free space, at most `CHUNK_SIZE`.
    pub fn get_next_length(&self) -> (r: usize)
        requires
            self.wf(),
        ensures
            r == if self.content().len() - self.pos() > CHUNK_SIZE {
                CHUNK_SIZE as int
            } else {
                self.content().len() - self.pos()
            },
    {
        let buffer_space = self.buffer_space();
        if buffer_space > CHUNK_SIZE {
            return CHUNK_SIZE;
        }
        buffer_space
    }

    /// Appends received bytes behind those written so far; data that does
    /// not fit is refused as an overflow and nothing is written.
    pub fn append(&mut self, data: Vec<u8>) -> (r: Result<(), Error>)
        requires
            old(self).wf(),
        ensures
            final(self).wf(),
            final(self).content().len() == old(self).content().len(),
            final(self).initial() == old(self).initial(),
            data@.len() > old(self).content().len() - old(self).pos() ==> {
                &&& r == Err::<(), Error>(Error::ReceiveOverflow)
                &&& final(self).content() == old(self).content()
                &&& final(self).pos() == old(self).pos()
                &&& final(self).payloads() == old(self).payloads()
            },
            data@.len() <= old(self).content().len() - old(self).pos() ==> {
                let p = old(self).pos() as int;
                let q = final(self).pos() as int;
                let n = old(self).content().len() as int;
                &&& r is Ok
                &&& q == p + data@.len()
                &&& final(self).content().subrange(0, q) == old(self).content().subrange(0, p) + data@
                &&& final(self).content().subrange(q, n) == old(self).content().subrange(q, n)
                &&& final(self).content() == write_at(old(self).content(), p, data@)
                &&& final(self).payloads() == old(self).payloads().push(data@)
            },
    {
        if data.len() > self.buffer_space() {
            return Err(Error::ReceiveOverflow);
        }
        let ghost before = self.buffer@;
        let ghost earlier = self.payloads@;
        let total = self.buffer.len();
        let start = self.position;
        let mut i: usize = 0;
        while i < data.len()
            invariant
                start + data@.len() <= total,
                self.buffer@.len() == before.len(),
                total == before.len(),
                self.position == start,
                self.initial == old(self).initial,
                self.payloads@ == earlier,
                fill(self.initial@, earlier) == Some((before, start as nat)),
                i <= data@.len(),
                forall|k: int| 0 <= k < start ==> self.buffer@[k] == before[k],
                forall|k: int| 0 <= k < i ==> self.buffer@[start + k] == data@[k],
                forall|k: int| start + i <= k < before.len() ==> self.buffer@[k] == before[k],
            decreases data@.len() - i,
        {
            self.buffer[start + i] = data[i];
            i = i + 1;
        }
        self.position = start + data.len();
        self.payloads = Ghost(earlier.push(data@));
        assert(earlier.push(data@).drop_last() =~= earlier);
        assert(self.buffer@.subrange(0, self.position as int) =~= before.subrange(0, start as int)
            + data@);
        assert(self.buffer@.subrange(self.position as int, self.buffer@.len() as int)
            =~= before.subrange(self.position as int, before.len() as int));
        assert(self.buffer@ =~= write_at(before, start as int, data@));
        assert(earlier.push(data@).last() == data@);
        assert(fill(self.initial@, self.payloads@) == Some((self.buffer@, self.position as nat)));
        Ok(())
    }

    /// True if the buffer has no free space left.
    pub fn is_full(&self) -> (r: bool)
        requires
            self.wf(),
        ensures
            r == (self.content().len() == 0 || self.pos() >= self.content().len()),
    {
        if self.buffer.len() == 0 {
            return true;
        }
        self.position >= self.buffer.len()
    }

    /// The remaining free space.
    fn buffer_space(&self) -> (r: usize)
        requires
            self.wf(),
        ensures
            r == self.content().len() - self.pos(),
    {
        self.buffer.len() - self.position
    }

    /// However many receive steps filled the buffer, the fill length is at
    /// most the buffer's length, the bytes before it are all appended
    /// payloads one after the other, and the bytes after it are untouched.
    pub proof fn lemma_written_is_concatenation(&self)
        requires
            self.wf(),
        ensures
            self.pos() <= self.content().len(),
            self.pos() == concat(self.payloads()).len(),
            self.content().subrange(0, self.pos() as int) == concat(self.payloads()),
            self.content().subrange(self.pos() as int, self.content().len() as int)
                == self.initial().subrange(self.pos() as int, self.initial().len() as int),
    {
        lemma_fill_concatenates(self.initial@, self.payloads@);
    }

    /// The number of bytes written so far: at most the buffer's length,
    /// and the bytes up to it are the appended payloads one after the other.
    pub fn len(&self) -> (r: usize)
        requires
            self.wf(),
        ensures
            r == self.pos(),
            r <= self.content().len(),
            r == concat(self.payloads()).len(),
            self.content().subrange(0, r as int) == concat(self.payloads()),
            self.content().len() == self.initial().len(),
            self.content().subrange(r as int, self.content().len() as int) == self.initial().subrange(
                r as int,
                self.initial().len() as int,
            ),
    {
        proof {
            lemma_fill_concatenates(self.initial@, self.payloads@);
        }
        self.position
    }
}

/// Number of closed slots among the first `n`.
pub open spec fn closed_count(sk: Seq<SocketState>, n: int) -> nat
    decreases n,
{
    if n <= 0 {
        0
    } else {
        closed_count(sk, n - 1) + if sk[n - 1].state == ConnectionState::Closed {
            1nat
        } else {
            0nat
        }
    }
}

/// Replacing one slot changes the closed count by what the two slots add.
proof fn lemma_closed_count_update(sk: Seq<SocketState>, k: int, x: SocketState, n: int)
    requires
        0 <= k < sk.len(),
        0 <= n <= sk.len(),
    ensures
        k < n ==> closed_count(sk.update(k, x), n) + (if sk[k].state == ConnectionState::Closed {
            1nat
        } else {
            0nat
        }) == closed_count(sk, n) + (if x.state == ConnectionState::Closed {
            1nat
        } else {
            0nat
        }),
        k >= n ==> closed_count(sk.update(k, x), n) == closed_count(sk, n),
    decreases n,
{
    if n > 0 {
        lemma_closed_count_update(sk, k, x, n - 1);
    }
}

/// A closed count of zero means no slot is closed.
proof fn lemma_closed_count_zero(sk: Seq<SocketState>, n: int)
    requires
        0 <= n <= sk.len(),
        closed_count(sk, n) == 0,
    ensures
        forall|i: int| 0 <= i < n ==> (#[trigger] sk[i]).state != ConnectionState::Closed,
    decreases n,
{
    if n > 0 {
        lemma_closed_count_zero(sk, n - 1);
    }
}

/// With no closed slot from `from` on, none is found.
proof fn lemma_first_closed_none(sk: Seq<SocketState>, from: int)
    requires
        0 <= from,
        forall|i: int| from <= i < sk.len() ==> (#[trigger] sk[i]).state != ConnectionState::Closed,
    ensures
        first_closed(sk, from) is None,
    decreases sk.len() - from,
{
    if from < sk.len() {
        lemma_first_closed_none(sk, from + 1);
    }
}

/// One call on the model keeps five slots and the latched flag, and
/// allocates a slot whenever one is closed.
proof fn lemma_socket_call(s: SessionView)
    requires
        s.sockets.len() == 5,
    ensures
        socket_call_model(s).0.sockets.len() == 5,
        socket_call_model(s).0.multi_connections_enabled,
        closed_count(s.sockets, 5) > 0 ==> closed_count(socket_call_model(s).0.sockets, 5) + 1
            == closed_count(s.sockets, 5),
        closed_count(s.sockets, 5) == 0 ==> closed_count(socket_call_model(s).0.sockets, 5) == 0,
{
    let latched = SessionView { multi_connections_enabled: true, ..s };
    lemma_first_closed(latched.sockets, 0);
    match first_closed(latched.sockets, 0) {
        Some(id) => {
            let x = SocketState { state: ConnectionState::Open, ..latched.sockets[id] };
            lemma_closed_count_update(latched.sockets, id, x, 5);
        },
        None => {
            if closed_count(s.sockets, 5) > 0 {
                assert forall|i: int| 0 <= i < 5 implies (#[trigger] s.sockets[i]).state
                    != ConnectionState::Closed by {
                    lemma_first_closed_all(s.sockets, 0, i);
                }
                lemma_closed_count_all_open(s.sockets, 5);
            }
        },
    }
}

/// A search that found nothing passed no closed slot.
proof fn lemma_first_closed_all(sk: Seq<SocketState>, from: int, i: int)
    requires
        0 <= from <= i < sk.len(),
        first_closed(sk, from) is None,
    ensures
        sk[i].state != ConnectionState::Closed,
    decreases i - from,
{
    if from < i {
        lemma_first_closed_all(sk, from + 1, i);
    }
}

/// With no closed slot the closed count is zero.
proof fn lemma_closed_count_all_open(sk: Seq<SocketState>, n: int)
    requires
        0 <= n <= sk.len(),
        forall|i: int| 0 <= i < n ==> (#[trigger] sk[i]).state != ConnectionState::Closed,
    ensures
        closed_count(sk, n) == 0,
    decreases n,
{
    if n > 0 {
        lemma_closed_count_all_open(sk, n - 1);
    }
}

/// `n` calls on the model keep five slots, latch the flag, allocate a slot
/// per call while any is closed, and send the command at most once.
proof fn lemma_socket_calls(s: SessionView, n: nat)
    requires
        s.sockets.len() == 5,
    ensures
        socket_calls_model(s, n).0.sockets.len() == 5,
        n > 0 ==> socket_calls_model(s, n).0.multi_connections_enabled,
        closed_count(socket_calls_model(s, n).0.sockets, 5) + n >= closed_count(s.sockets, 5),
        closed_count(socket_calls_model(s, n).0.sockets, 5) <= closed_count(s.sockets, 5),
        closed_count(socket_calls_model(s, n).0.sockets, 5) == 0 || closed_count(
            socket_calls_model(s, n).0.sockets,
            5,
        ) + n == closed_count(s.sockets, 5),
        socket_calls_model(s, n).1 == if n == 0 || s.multi_connections_enabled {
            0nat
        } else {
            1nat
        },
    decreases n,
{
    if n > 0 {
        lemma_socket_calls(s, (n - 1) as nat);
        lemma_socket_call(socket_calls_model(s, (n - 1) as nat).0);
    }
}

/// Across any number of successive `socket()` calls, the
/// multiple-connections command goes out at most once: once if the
/// session had not enabled it yet, never if it had.
pub proof fn lemma_multiple_connections_sent_once(s: SessionView, n: nat)
    requires
        s.sockets.len() == 5,
        n > 0,
    ensures
        socket_calls_model(s, n).1 == if s.multi_connections_enabled {
            0nat
        } else {
            1nat
        },
{
    lemma_socket_calls(s, n);
}

/// After five `socket()` calls with none closed, a sixth finds no free
/// slot, whatever the slots held before.
pub proof fn lemma_sixth_socket_refused(s: SessionView)
    requires
        s.sockets.len() == 5,
    ensures
        open_model(socket_calls_model(s, 5).0).1 is None,
{
    lemma_socket_calls(s, 5);
    let after = socket_calls_model(s, 5).0;
    assert(closed_count(s.sockets, 5) <= 5) by {
        lemma_closed_count_bound(s.sockets, 5);
    }
    assert(closed_count(after.sockets, 5) == 0);
    lemma_closed_count_zero(after.sockets, 5);
    lemma_first_closed_none(after.sockets, 0);
}

/// At most `n` of the first `n` slots are closed.
proof fn lemma_closed_count_bound(sk: Seq<SocketState>, n: int)
    requires
        0 <= n <= sk.len(),
    ensures
        closed_count(sk, n) <= n,
    decreases n,
{
    if n > 0 {
        lemma_closed_count_bound(sk, n - 1);
    }
}

} // verus!

//! Encoding of the outgoing AT commands, their timeouts, and the error each
//! command's failure is reported as.
use vstd::prelude::*;
use vstd::string::StringSliceAdditionalSpecFns;
use crate::bytes::copy_range;
use crate::keywords as kw;
use crate::net::{append, decimal, decimal_text, ipv4_text, ipv4_to_string, ipv6_text, ipv6_to_string, SocketAddrV4, SocketAddrV6};
use crate::stack::Error as StackError;
use crate::wifi::{AddressErrors, CommandError, JoinError};

verus! {

/// Failure of one AT command exchange, as the client reports it.
#[derive(Clone, Copy, Debug, PartialEq, Eq, Structural)]
pub enum AtError {
    /// Serial read error
    Read,
    /// Serial write error
    Write,
    /// Timed out while waiting for a response
    Timeout,
    /// Invalid response from module
    InvalidResponse,
    /// Command was aborted
    Aborted,
    /// Failed to parse received response
    Parse,
    /// Received response exceeded capacity
    Capacity,
    /// Generic error response without any error message
    Error,
    /// Error response with an error code
    Coded,
}

/// `"` as a byte.
pub open spec fn quote() -> u8 {
    34
}

/// `,` as a byte.
pub open spec fn comma() -> u8 {
    44
}

/// `AT<name>=<args>\r\n`
pub open spec fn at_set(name: Seq<u8>, args: Seq<u8>) -> Seq<u8> {
    kw::at() + name + kw::equals() + args + kw::crlf()
}

/// `AT<name>\r\n`
pub open spec fn at_exec(name: Seq<u8>) -> Seq<u8> {
    kw::at() + name + kw::crlf()
}

/// Upper-case hex digit of `n < 16`.
pub open spec fn upper_hex_digit(n: nat) -> u8 {
    if n < 10 {
        (48 + n) as u8
    } else {
        (55 + n) as u8
    }
}

/// One byte of a string argument: a backslash is written `\5C`, a quote
/// `\22`, a control byte below 32 as `\` and two upper-case hex digits;
/// any other byte stands for itself.
pub open spec fn escape_byte(b: u8) -> Seq<u8> {
    if b == 92 {
        seq![92u8, 53u8, 67u8]
    } else if b == 34 {
        seq![92u8, 50u8, 50u8]
    } else if b < 32 {
        seq![92u8, upper_hex_digit(b as nat / 16), upper_hex_digit(b as nat % 16)]
    } else {
        seq![b]
    }
}

/// A string argument with every byte escaped.
pub open spec fn escaped(s: Seq<u8>) -> Seq<u8>
    decreases s.len(),
{
    if s.len() == 0 {
        seq![]
    } else {
        escaped(s.drop_last()) + escape_byte(s.last())
    }
}

/// A quoted, escaped string argument.
pub open spec fn quoted(s: Seq<u8>) -> Seq<u8> {
    seq![quote()] + escaped(s) + seq![quote()]
}

/// Appends a quoted, escaped string argument.
fn append_quoted(out: &mut Vec<u8>, s: &[u8])
    ensures
        final(out)@ == old(out)@ + quoted(s@),
{
    let ghost start = out@;
    out.push(34);
    let mut i: usize = 0;
    while i < s.len()
        invariant
            i <= s.len(),
            out@ == start + seq![quote()] + escaped(s@.subrange(0, i as int)),
        decreases s.len() - i,
    {
        let b = s[i];
        let ghost before = out@;
        if b == 92 {
            out.push(92);
            out.push(53);
            out.push(67);
        } else if b == 34 {
            out.push(92);
            out.push(50);
            out.push(50);
        } else if b < 32 {
            let hi = b / 16;
            let lo = b % 16;
            out.push(92);
            out.push(if hi < 10 { 48 + hi } else { 55 + hi });
            out.push(if lo < 10 { 48 + lo } else { 55 + lo });
        } else {
            out.push(b);
        }
        assert(out@ =~= before + escape_byte(b));
        assert(s@.subrange(0, i + 1).drop_last() =~= s@.subrange(0, i as int));
        i = i + 1;
    }
    out.push(34);
    assert(s@.subrange(0, s.len() as int) =~= s@);
    assert(out@ =~= start + quoted(s@));
}

/// Two numeric arguments.
pub open spec fn two_numbers(a: nat, b: nat) -> Seq<u8> {
    decimal_text(a) + seq![comma()] + decimal_text(b)
}

/// Writes `AT<name>=` into a new buffer.
fn set_head(name: &[u8]) -> (r: Vec<u8>)
    ensures
        r@ == kw::at() + name@ + kw::equals(),
{
    let mut out: Vec<u8> = Vec::new();
    append(&mut out, &kw::at_bytes());
    append(&mut out, name);
    append(&mut out, &kw::equals_bytes());
    out
}

/// Ends a command line with CR LF.
fn finish(out: &mut Vec<u8>)
    ensures
        final(out)@ == old(out)@ + kw::crlf(),
{
    append(out, &kw::crlf_bytes());
}

/// `AT<name>=<n>\r\n`
fn encode_number(name: &[u8], n: usize) -> (r: Vec<u8>)
    ensures
        r@ == at_set(name@, decimal_text(n as nat)),
{
    let mut out = set_head(name);
    let digits = decimal(n);
    append(&mut out, digits.as_slice());
    finish(&mut out);
    out
}

/// `AT<name>=<a>,<b>\r\n`
fn encode_two_numbers(name: &[u8], a: usize, b: usize) -> (r: Vec<u8>)
    ensures
        r@ == at_set(name@, two_numbers(a as nat, b as nat)),
{
    let mut out = set_head(name);
    let first = decimal(a);
    append(&mut out, first.as_slice());
    out.push(44);
    let second = decimal(b);
    append(&mut out, second.as_slice());
    finish(&mut out);
    assert(out@ =~= at_set(name@, two_numbers(a as nat, b as nat)));
    out
}

/// `AT<name>\r\n`
fn encode_exec(name: &[u8]) -> (r: Vec<u8>)
    ensures
        r@ == at_exec(name@),
{
    let mut out: Vec<u8> = Vec::new();
    append(&mut out, &kw::at_bytes());
    append(&mut out, name);
    finish(&mut out);
    out
}

/// Sets the Wi-Fi mode (`AT+CWMODE`).
pub struct WifiModeCommand {
    /// 0: radio off, 1: station, 2: SoftAP, 3: SoftAP and station
    pub mode: usize,
}

impl WifiModeCommand {
    pub fn station_mode() -> (r: Self)
        ensures
            r.mode == 1,
    {
        Self { mode: 1 }
    }

    pub fn encode(&self) -> (r: Vec<u8>)
        ensures
            r@ == at_set(kw::cmd_cwmode(), decimal_text(self.mode as nat)),
    {
        encode_number(&kw::cmd_cwmode_bytes(), self.mode)
    }

    pub fn timeout_ms(&self) -> (r: u32)
        ensures
            r == 1000,
    {
        1000
    }

    pub fn command_error(&self, error: AtError) -> (r: JoinError)
        ensures
            r == JoinError::ModeError(error),
    {
        JoinError::ModeError(error)
    }
}

/// Enables or disables joining the stored access point at power-on (`AT+CWAUTOCONN`).
pub struct AutoConnectCommand {
    /// 1: enabled, 0: disabled
    pub mode: usize,
}

impl AutoConnectCommand {
    pub fn new(enabled: bool) -> (r: Self)
        ensures
            r.mode == if enabled {
                1usize
            } else {
                0usize
            },
    {
        Self { mode: if enabled { 1 } else { 0 } }
    }

    pub fn encode(&self) -> (r: Vec<u8>)
        ensures
            r@ == at_set(kw::cmd_cwautoconn(), decimal_text(self.mode as nat)),
    {
        encode_number(&kw::cmd_cwautoconn_bytes(), self.mode)
    }

    pub fn timeout_ms(&self) -> (r: u32)
        ensures
            r == 1000,
    {
        1000
    }

    pub fn command_error(&self, error: AtError) -> (r: CommandError)
        ensures
            r == CommandError::CommandFailed(error),
    {
        CommandError::CommandFailed(error)
    }
}

/// Largest SSID, in bytes.
pub const MAX_SSID_LENGTH: usize = 32;

/// Largest password, in bytes.
pub const MAX_PASSWORD_LENGTH: usize = 63;

/// Sets the target access point (`AT+CWJAP`).
pub struct AccessPointConnectCommand {
    /// SSID of the target access point
    pub ssid: Vec<u8>,
    /// Password of the target access point
    pub password: Vec<u8>,
}

impl AccessPointConnectCommand {
    /// Builds the command; an SSID over 32 bytes or a password over 63 bytes
    /// is refused.
    pub fn new(ssid: &str, password: &str) -> (r: Result<Self, JoinError>)
        ensures
            ssid.spec_bytes().len() > 32 ==> r == Err::<Self, JoinError>(JoinError::InvalidSSDLength),
            ssid.spec_bytes().len() <= 32 && password.spec_bytes().len() > 63 ==> r == Err::<
                Self,
                JoinError,
            >(JoinError::InvalidPasswordLength),
            ssid.spec_bytes().len() <= 32 && password.spec_bytes().len() <= 63 ==> (r matches Ok(c)
                && c.ssid@ == ssid.spec_bytes() && c.password@ == password.spec_bytes()),
    {
        let s = ssid.as_bytes();
        let p = password.as_bytes();
        if s.len() > MAX_SSID_LENGTH {
            return Err(JoinError::InvalidSSDLength);
        }
        if p.len() > MAX_PASSWORD_LENGTH {
            return Err(JoinError::InvalidPasswordLength);
        }
        Ok(Self { ssid: copy_range(s, 0, s.len()), password: copy_range(p, 0, p.len()) })
    }

    pub fn encode(&self) -> (r: Vec<u8>)
        ensures
            r@ == at_set(
                kw::cmd_cwjap(),
                quoted(self.ssid@) + seq![comma()] + quoted(self.password@),
            ),
    {
        let mut out = set_head(&kw::cmd_cwjap_bytes());
        append_quoted(&mut out, self.ssid.as_slice());
        out.push(44);
        append_quoted(&mut out, self.password.as_slice());
        finish(&mut out);
        assert(out@ =~= at_set(
            kw::cmd_cwjap(),
            quoted(self.ssid@) + seq![comma()] + quoted(self.password@),
        ));
        out
    }

    pub fn timeout_ms(&self) -> (r: u32)
        ensures
            r == 20000,
    {
        20000
    }

    pub fn command_error(&self, error: AtError) -> (r: JoinError)
        ensures
            r == JoinError::ConnectError(error),
    {
        JoinError::ConnectError(error)
    }
}

/// Queries the local addresses (`AT+CIFSR`).
pub struct ObtainLocalAddressCommand {}

impl ObtainLocalAddressCommand {
    pub fn new() -> (r: Self) {
        Self {  }
    }

    pub fn encode(&self) -> (r: Vec<u8>)
        ensures
            r@ == at_exec(kw::cmd_cifsr()),
    {
        encode_exec(&kw::cmd_cifsr_bytes())
    }

    pub fn timeout_ms(&self) -> (r: u32)
        ensures
            r == 5000,
    {
        5000
    }

    pub fn command_error(&self, error: AtError) -> (r: AddressErrors)
        ensures
            r == AddressErrors::CommandError(error),
    {
        AddressErrors::CommandError(error)
    }
}

/// Enables multiple connections (`AT+CIPMUX`).
pub struct SetMultipleConnectionsCommand {
    /// 0: single connection, 1: multiple connections
    pub mode: usize,
}

impl SetMultipleConnectionsCommand {
    pub fn multiple() -> (r: Self)
        ensures
            r.mode == 1,
    {
        Self { mode: 1 }
    }

    pub fn encode(&self) -> (r: Vec<u8>)
        ensures
            r@ == at_set(kw::cmd_cipmux(), decimal_text(self.mode as nat)),
    {
        encode_number(&kw::cmd_cipmux_bytes(), self.mode)
    }

    pub fn timeout_ms(&self) -> (r: u32)
        ensures
            r == 1000,
    {
        1000
    }

    pub fn command_error(&self, error: AtError) -> (r: StackError)
        ensures
            r == StackError::EnablingMultiConnectionsFailed(error),
    {
        StackError::EnablingMultiConnectionsFailed(error)
    }
}

/// Sets the socket receiving mode (`AT+CIPRECVMODE`).
pub struct SetSocketReceivingModeCommand {
    /// 0: active mode, data is pushed at once; 1: passive mode, data is
    /// buffered by the peer and pulled
    pub mode: usize,
}

impl SetSocketReceivingModeCommand {
    pub fn passive_mode() -> (r: Self)
        ensures
            r.mode == 1,
    {
        Self { mode: 1 }
    }

    pub fn encode(&self) -> (r: Vec<u8>)
        ensures
            r@ == at_set(kw::cmd_ciprecvmode(), decimal_text(self.mode as nat)),
    {
        encode_number(&kw::cmd_ciprecvmode_bytes(), self.mode)
    }

    pub fn timeout_ms(&self) -> (r: u32)
        ensures
            r == 1000,
    {
        1000
    }

    pub fn command_error(&self, error: AtError) -> (r: StackError)
        ensures
            r == StackError::EnablingPassiveSocketModeFailed(error),
    {
        StackError::EnablingPassiveSocketModeFailed(error)
    }
}

/// Opens a TCP connection (`AT+CIPSTART`).
pub struct ConnectCommand {
    /// Socket id
    pub link_id: usize,
    /// Connection type: `TCP` or `TCPv6`
    pub connection_type: Vec<u8>,
    /// Remote address as text
    pub remote_host: Vec<u8>,
    /// Remote port
    pub port: u16,
}

impl ConnectCommand {
    /// An IPv4 TCP connection.
    pub fn tcp_v4(link_id: usize, remote: SocketAddrV4) -> (r: Self)
        ensures
            r.link_id == link_id,
            r.connection_type@ == kw::tcp(),
            r.remote_host@ == ipv4_text(remote.ip.octets@),
            r.port == remote.port,
    {
        let t = kw::tcp_bytes();
        Self {
            link_id,
            connection_type: copy_range(&t, 0, 3),
            remote_host: ipv4_to_string(&remote.ip),
            port: remote.port,
        }
    }

    /// An IPv6 TCP connection.
    pub fn tcp_v6(link_id: usize, remote: SocketAddrV6) -> (r: Self)
        ensures
            r.link_id == link_id,
            r.connection_type@ == kw::tcp_v6(),
            r.remote_host@ == ipv6_text(remote.ip.segments@),
            r.port == remote.port,
    {
        let t = kw::tcp_v6_bytes();
        Self {
            link_id,
            connection_type: copy_range(&t, 0, 5),
            remote_host: ipv6_to_string(&remote.ip),
            port: remote.port,
        }
    }

    pub fn encode(&self) -> (r: Vec<u8>)
        ensures
            r@ == at_set(
                kw::cmd_cipstart(),
                decimal_text(self.link_id as nat) + seq![comma()] + quoted(self.connection_type@)
                    + seq![comma()] + quoted(self.remote_host@) + seq![comma()] + decimal_text(
                    self.port as nat,
                ),
            ),
    {
        let mut out = set_head(&kw::cmd_cipstart_bytes());
        let id = decimal(self.link_id);
        append(&mut out, id.as_slice());
        out.push(44);
        append_quoted(&mut out, self.connection_type.as_slice());
        out.push(44);
        append_quoted(&mut out, self.remote_host.as_slice());
        out.push(44);
        let port = decimal(self.port as usize);
        append(&mut out, port.as_slice());
        finish(&mut out);
        assert(out@ =~= at_set(
            kw::cmd_cipstart(),
            decimal_text(self.link_id as nat) + seq![comma()] + quoted(self.connection_type@)
                + seq![comma()] + quoted(self.remote_host@) + seq![comma()] + decimal_text(
                self.port as nat,
            ),
        ));
        out
    }

    pub fn timeout_ms(&self) -> (r: u32)
        ensures
            r == 5000,
    {
        5000
    }

    pub fn command_error(&self, error: AtError) -> (r: StackError)
        ensures
            r == StackError::ConnectError(error),
    {
        StackError::ConnectError(error)
    }
}

/// Announces the length of the next payload (`AT+CIPSEND`).
pub struct TransmissionPrepareCommand {
    /// Socket id
    pub link_id: usize,
    /// Length of the payload
    pub length: usize,
}

impl TransmissionPrepareCommand {
    pub fn new(link_id: usize, length: usize) -> (r: Self)
        ensures
            r.link_id == link_id && r.length == length,
    {
        Self { link_id, length }
    }

    pub fn encode(&self) -> (r: Vec<u8>)
        ensures
            r@ == at_set(kw::cmd_cipsend(), two_numbers(self.link_id as nat, self.length as nat)),
    {
        encode_two_numbers(&kw::cmd_cipsend_bytes(), self.link_id, self.length)
    }

    pub fn timeout_ms(&self) -> (r: u32)
        ensures
            r == 1000,
    {
        1000
    }

    pub fn command_error(&self, error: AtError) -> (r: StackError)
        ensures
            r == StackError::TransmissionStartFailed(error),
    {
        StackError::TransmissionStartFailed(error)
    }
}

/// The raw payload after a transmission prepare; no response code is
/// expected, completion comes as a URC.
pub struct TransmissionCommand<'a, const MAX_LEN: usize> {
    data: &'a [u8],
}

impl<'a, const MAX_LEN: usize> TransmissionCommand<'a, MAX_LEN> {
    /// The payload bytes.
    pub closed spec fn payload(&self) -> Seq<u8> {
        self.data@
    }

    pub fn new(data: &'a [u8]) -> (r: Self)
        ensures
            r.payload() == data@,
    {
        Self { data }
    }

    /// The bytes on the wire: the payload as it is.
    pub fn encode(&self) -> (r: Vec<u8>)
        ensures
            r@ == self.payload(),
    {
        copy_range(self.data, 0, self.data.len())
    }

    pub fn expects_response_code(&self) -> (r: bool)
        ensures
            !r,
    {
        false
    }

    pub fn timeout_ms(&self) -> (r: u32)
        ensures
            r == 5000,
    {
        5000
    }

    pub fn command_error(&self, error: AtError) -> (r: StackError)
        ensures
            r == StackError::SendFailed(error),
    {
        StackError::SendFailed(error)
    }
}

/// Pulls buffered socket data (`AT+CIPRECVDATA`).
pub struct ReceiveDataCommand<const RESP_LEN: usize> {
    /// Socket id
    pub link_id: usize,
    /// Number of bytes to pull
    pub length: usize,
}

impl<const RESP_LEN: usize> ReceiveDataCommand<RESP_LEN> {
    pub fn new(link_id: usize, length: usize) -> (r: Self)
        ensures
            r.link_id == link_id && r.length == length,
    {
        Self { link_id, length }
    }

    pub fn encode(&self) -> (r: Vec<u8>)
        ensures
            r@ == at_set(kw::cmd_ciprecvdata(), two_numbers(self.link_id as nat, self.length as nat)),
    {
        encode_two_numbers(&kw::cmd_ciprecvdata_bytes(), self.link_id, self.length)
    }

    pub fn timeout_ms(&self) -> (r: u32)
        ensures
            r == 1000,
    {
        1000
    }

    pub fn command_error(&self, error: AtError) -> (r: StackError)
        ensures
            r == StackError::ReceiveFailed(error),
    {
        StackError::ReceiveFailed(error)
    }
}

/// Closes a socket (`AT+CIPCLOSE`).
pub struct CloseSocketCommand {
    /// Socket id
    pub link_id: usize,
}

impl CloseSocketCommand {
    pub fn new(link_id: usize) -> (r: Self)
        ensures
            r.link_id == link_id,
    {
        Self { link_id }
    }

    pub fn encode(&self) -> (r: Vec<u8>)
        ensures
            r@ == at_set(kw::cmd_cipclose(), decimal_text(self.link_id as nat)),
    {
        encode_number(&kw::cmd_cipclose_bytes(), self.link_id)
    }

    pub fn timeout_ms(&self) -> (r: u32)
        ensures
            r == 1000,
    {
        1000
    }

    pub fn command_error(&self, error: AtError) -> (r: StackError)
        ensures
            r == StackError::CloseError(error),
    {
        StackError::CloseError(error)
    }
}

/// Restarts the module (`AT+RST`).
pub struct RestartCommand {}

impl RestartCommand {
    pub fn new() -> (r: Self) {
        Self {  }
    }

    pub fn encode(&self) -> (r: Vec<u8>)
        ensures
            r@ == at_exec(kw::cmd_rst()),
    {
        encode_exec(&kw::cmd_rst_bytes())
    }

    pub fn timeout_ms(&self) -> (r: u32)
        ensures
            r == 1000,
    {
        1000
    }

    pub fn command_error(&self, error: AtError) -> (r: CommandError)
        ensures
            r == CommandError::CommandFailed(error),
    {
        CommandError::CommandFailed(error)
    }
}

} // verus!

//! URC framing and decoding.
//!
//! The first pass ([`URCMessages::parse_frame`]) splits the ingress byte
//! stream into frames: CR LF terminated lines, length-prefixed
//! `+CIPRECVDATA` frames and boot banners. The second pass
//! ([`URCMessages::parse`]) turns one frame into a typed event.
use vstd::prelude::*;
use crate::bytes::{
    contains, copy_range, decimal_of, find_byte, find_byte_from, find_crlf, find_crlf_from,
    first_non_newline, first_non_newline_from, is_prefix, parse_decimal, range_contains, range_eq,
    range_is, rfind_byte, rfind_byte_before, starts_with,
};
use crate::keywords as kw;

verus! {

/// Why the first pass did not yield a frame.
#[derive(Clone, Copy, Debug, PartialEq, Eq, Structural)]
pub enum ParseError {
    /// More bytes are needed before a frame can be recognised.
    Incomplete,
    /// The buffer does not start with a known frame.
    NoMatch,
}

/// Typed events decoded from URC frames.
///
/// `RX_SIZE` bounds the payload of a [`URCMessages::Data`] frame.
#[derive(Clone, Debug, PartialEq, Eq)]
pub enum URCMessages<const RX_SIZE: usize> {
    /// Modem is ready for receiving AT commands
    Ready,
    /// Wi-Fi connection state changed to connected
    WifiConnected,
    /// Wi-Fi connection state changed to disconnected
    WifiDisconnected,
    /// Received an IP from the access point
    ReceivedIP,
    /// Socket with the given link_id connected
    SocketConnected(usize),
    /// Socket with the given link_id closed
    SocketClosed(usize),
    /// Confirmation that the given number of bytes have been received by ESP-AT
    ReceivedBytes(usize),
    /// Signals that socket is already connected when trying to establish the same connection again
    AlreadyConnected,
    /// Transmission of socket data was successful
    SendConfirmation,
    /// Transmission of socket data failed
    SendFail,
    /// Data is available in passive receiving mode: link_id, available byte count
    DataAvailable(usize, usize),
    /// Received the data requested by a CIPRECVDATA command
    Data(Vec<u8>),
    /// Echo of a command
    Echo,
    /// Unknown URC message
    Unknown,
}

/// The mathematical value of a decoded event.
pub enum UrcEvent {
    Ready,
    WifiConnected,
    WifiDisconnected,
    ReceivedIP,
    SocketConnected(usize),
    SocketClosed(usize),
    ReceivedBytes(usize),
    AlreadyConnected,
    SendConfirmation,
    SendFail,
    DataAvailable(usize, usize),
    Data(Seq<u8>),
    Echo,
    Unknown,
}

impl<const RX_SIZE: usize> View for URCMessages<RX_SIZE> {
    type V = UrcEvent;

    open spec fn view(&self) -> UrcEvent {
        match self {
            URCMessages::Ready => UrcEvent::Ready,
            URCMessages::WifiConnected => UrcEvent::WifiConnected,
            URCMessages::WifiDisconnected => UrcEvent::WifiDisconnected,
            URCMessages::ReceivedIP => UrcEvent::ReceivedIP,
            URCMessages::SocketConnected(id) => UrcEvent::SocketConnected(*id),
            URCMessages::SocketClosed(id) => UrcEvent::SocketClosed(*id),
            URCMessages::ReceivedBytes(n) => UrcEvent::ReceivedBytes(*n),
            URCMessages::AlreadyConnected => UrcEvent::AlreadyConnected,
            URCMessages::SendConfirmation => UrcEvent::SendConfirmation,
            URCMessages::SendFail => UrcEvent::SendFail,
            URCMessages::DataAvailable(id, n) => UrcEvent::DataAvailable(*id, *n),
            URCMessages::Data(v) => UrcEvent::Data(v@),
            URCMessages::Echo => UrcEvent::Echo,
            URCMessages::Unknown => UrcEvent::Unknown,
        }
    }
}

/// The view of an optional event.
pub open spec fn opt_event<const N: usize>(r: Option<URCMessages<N>>) -> Option<UrcEvent> {
    match r {
        Some(m) => Some(m@),
        None => None,
    }
}

// ---------------------------------------------------------------------------
// First pass: framing
// ---------------------------------------------------------------------------

/// Byte that opens the legacy ordering `+CIPRECVDATA,<len>:<bytes>`.
pub open spec fn is_comma(b: u8) -> bool {
    b == 44
}

/// Byte that opens the current ordering `+CIPRECVDATA:<len>,<bytes>`.
pub open spec fn is_colon(b: u8) -> bool {
    b == 58
}

/// True if `d` starts with `+CIPRECVDATA` followed by a comma or a colon.
pub open spec fn is_data_prefix(d: Seq<u8>) -> bool {
    d.len() >= 13 && is_prefix(kw::recv_data(), d) && (is_comma(d[12]) || is_colon(d[12]))
}

/// Index of the byte that ends the length field of a data frame: a colon in
/// the legacy ordering, a comma in the current one.
pub open spec fn data_separator(d: Seq<u8>) -> Option<int> {
    if is_comma(d[12]) {
        find_byte(d, 13, 58)
    } else {
        find_byte(d, 13, 44)
    }
}

/// A data frame `d` (which starts with the data prefix) decoded into the
/// index of its separator and its declared payload length.
pub open spec fn data_frame(d: Seq<u8>) -> Result<(int, usize), ParseError> {
    match data_separator(d) {
        None => Err(ParseError::Incomplete),
        Some(sep) => match decimal_of(d.subrange(13, sep)) {
            None => Err(ParseError::NoMatch),
            Some(n) => if d.len() - (sep + 1) < n {
                Err(ParseError::Incomplete)
            } else {
                Ok((sep, n))
            },
        },
    }
}

/// Position after the empty CR LF lines that open `s` at `from`.
pub open spec fn skip_blank_lines(s: Seq<u8>, from: int) -> int
    decreases s.len() - from,
{
    if 0 <= from && from + 1 < s.len() && s[from] == 13 && s[from + 1] == 10 {
        skip_blank_lines(s, from + 2)
    } else {
        from
    }
}

/// Lines that the driver recognises as a complete URC line (without its CR LF).
pub open spec fn is_line_urc(line: Seq<u8>) -> bool {
    line == kw::ready() || is_prefix(kw::echo(), line) || is_prefix(kw::ipd(), line) || line
        == kw::send_ok() || line == kw::send_fail() || is_prefix(kw::wifi(), line) || (line.len()
        >= 1 && line.subrange(1, line.len() as int) == kw::connect_suffix()) || (line.len() >= 1
        && line.subrange(1, line.len() as int) == kw::closed_suffix()) || line
        == kw::already_connected() || is_receive_confirmation(line)
}

/// `Recv <n> bytes`, with at least one character in place of `<n>`.
pub open spec fn is_receive_confirmation(line: Seq<u8>) -> bool {
    line.len() >= 12 && is_prefix(kw::recv_space(), line) && line.subrange(
        line.len() - 6,
        line.len() as int,
    ) == kw::bytes_suffix()
}

/// Outcome of the line matcher: the frame (with its CR LF) and the bytes consumed.
pub open spec fn line_frame(s: Seq<u8>) -> Result<(Seq<u8>, nat), ParseError> {
    let start = skip_blank_lines(s, 0);
    match find_crlf(s, start) {
        None => if s.len() - start < 4 {
            Err(ParseError::Incomplete)
        } else {
            Err(ParseError::NoMatch)
        },
        Some(e) => if e - start >= 4 && is_line_urc(s.subrange(start, e)) {
            Ok((s.subrange(start, e + 2), (e + 2) as nat))
        } else {
            Err(ParseError::NoMatch)
        },
    }
}

/// Scan of a boot banner by lines ending in a line feed: once a line holding
/// `rst cause:` has been seen, the first later `ready\r` line ends the
/// banner. The result is the number of bytes up to and including that line.
pub open spec fn boot_scan(s: Seq<u8>, pos: int, in_boot: bool) -> Option<nat>
    decreases s.len() - pos,
{
    if pos < 0 || pos >= s.len() {
        None
    } else {
        match find_byte(s, pos, 10) {
            None => None,
            Some(nl) => if nl < pos || nl >= s.len() {
                None
            } else {
                let line = s.subrange(pos, nl);
                if !in_boot && contains(line, kw::rst_cause()) {
                    boot_scan(s, nl + 1, true)
                } else if in_boot && line == kw::ready_cr() {
                    Some((nl + 1) as nat)
                } else {
                    boot_scan(s, nl + 1, in_boot)
                }
            },
        }
    }
}

/// True if the length-prefixed matcher takes the buffer.
pub open spec fn size_based_applies(s: Seq<u8>) -> bool {
    s.len() >= 15 && match first_non_newline(s, 0) {
        Some(start) => is_data_prefix(s.subrange(start, s.len() as int)),
        None => false,
    }
}

/// Outcome of the length-prefixed matcher on a buffer that it takes.
pub open spec fn size_frame(s: Seq<u8>) -> Result<(Seq<u8>, nat), ParseError> {
    let start = first_non_newline(s, 0)->Some_0;
    let d = s.subrange(start, s.len() as int);
    match data_frame(d) {
        Ok((sep, n)) => Ok((d.subrange(0, sep + 1 + n), (start + sep + 1 + n) as nat)),
        Err(e) => Err(e),
    }
}

/// The first pass: the frame at the start of `s` and the number of bytes
/// it consumes, or why there is none.
pub open spec fn frame_of(s: Seq<u8>) -> Result<(Seq<u8>, nat), ParseError> {
    if s.len() < 6 {
        Err(ParseError::Incomplete)
    } else if size_based_applies(s) {
        size_frame(s)
    } else {
        match line_frame(s) {
            Ok(r) => Ok(r),
            Err(e) => match boot_scan(s, 0, false) {
                Some(n) => Ok((kw::ready_crlf(), n)),
                None => Err(e),
            },
        }
    }
}

/// The view of a first-pass result.
pub open spec fn frame_view(r: Result<(Vec<u8>, usize), ParseError>) -> Result<(Seq<u8>, nat), ParseError> {
    match r {
        Ok((f, n)) => Ok((f@, n as nat)),
        Err(e) => Err(e),
    }
}

// ---------------------------------------------------------------------------
// Second pass: decoding
// ---------------------------------------------------------------------------

/// A frame without its two terminating bytes.
pub open spec fn line_body(resp: Seq<u8>) -> Seq<u8> {
    if resp.len() >= 2 {
        resp.subrange(0, resp.len() - 2)
    } else {
        resp
    }
}

/// Link id of an ASCII digit `0`..`4`.
pub open spec fn link_id_of(b: u8) -> Option<usize> {
    if 48 <= b <= 52 {
        Some((b - 48) as usize)
    } else {
        None
    }
}

/// `+IPD,<id>,...,<len>`: the id is the second comma-separated field and
/// the length the last one; at least three fields are needed.
pub open spec fn data_available_of(resp: Seq<u8>) -> Option<UrcEvent> {
    let body = line_body(resp);
    match find_byte(body, 0, 44) {
        None => None,
        Some(c1) => match find_byte(body, c1 + 1, 44) {
            None => None,
            Some(c2) => {
                let last = rfind_byte(body, body.len() as int, 44)->Some_0;
                match (
                    decimal_of(body.subrange(c1 + 1, c2)),
                    decimal_of(body.subrange(last + 1, body.len() as int)),
                ) {
                    (Some(id), Some(n)) => Some(UrcEvent::DataAvailable(id, n)),
                    _ => None,
                }
            },
        },
    }
}

/// `Recv <n> bytes`: `<n>` stands between the fifth byte and the last eight.
pub open spec fn receive_count_of(resp: Seq<u8>) -> Option<UrcEvent> {
    if resp.len() >= 13 {
        match decimal_of(resp.subrange(5, resp.len() - 8)) {
            Some(n) => Some(UrcEvent::ReceivedBytes(n)),
            None => None,
        }
    } else {
        None
    }
}

/// A data frame's payload (all bytes after the separator), refused when it
/// exceeds `rx_size`.
pub open spec fn data_event_of(resp: Seq<u8>, rx_size: nat) -> Option<UrcEvent> {
    match data_frame(resp) {
        Ok((sep, n)) => {
            let payload = resp.subrange(sep + 1, resp.len() as int);
            if payload.len() <= rx_size {
                Some(UrcEvent::Data(payload))
            } else {
                None
            }
        },
        Err(_) => None,
    }
}

/// Events named by the whole body of a line.
pub open spec fn keyword_event_of(body: Seq<u8>) -> UrcEvent {
    if body == kw::ready() {
        UrcEvent::Ready
    } else if body == kw::send_ok() {
        UrcEvent::SendConfirmation
    } else if body == kw::send_fail() {
        UrcEvent::SendFail
    } else if body == kw::wifi_connected() {
        UrcEvent::WifiConnected
    } else if body == kw::wifi_disconnect() {
        UrcEvent::WifiDisconnected
    } else if body == kw::wifi_got_ip() {
        UrcEvent::ReceivedIP
    } else if body == kw::already_connected() {
        UrcEvent::AlreadyConnected
    } else {
        UrcEvent::Unknown
    }
}

/// The second pass: the event that a frame stands for, if any.
pub open spec fn event_of(resp: Seq<u8>, rx_size: nat) -> Option<UrcEvent> {
    if is_prefix(kw::echo(), resp) {
        Some(UrcEvent::Echo)
    } else if is_prefix(kw::ipd(), resp) {
        data_available_of(resp)
    } else if is_data_prefix(resp) {
        data_event_of(resp, rx_size)
    } else if resp.len() == 11 && range_is(resp, 1, 9, kw::connect_suffix()) {
        match link_id_of(resp[0]) {
            Some(id) => Some(UrcEvent::SocketConnected(id)),
            None => None,
        }
    } else if resp.len() == 10 && range_is(resp, 1, 8, kw::closed_suffix()) {
        match link_id_of(resp[0]) {
            Some(id) => Some(UrcEvent::SocketClosed(id)),
            None => None,
        }
    } else if is_prefix(kw::recv(), resp) {
        receive_count_of(resp)
    } else {
        Some(keyword_event_of(line_body(resp)))
    }
}

// ---------------------------------------------------------------------------
// First pass: executable matchers
// ---------------------------------------------------------------------------

/// Decoded head of a `+CIPRECVDATA` frame.
pub struct DataMessage {
    /// Declared payload length
    pub length: usize,
    /// Index of the byte that ends the length field
    pub separator: usize,
}

/// Decodes the head of a `+CIPRECVDATA` frame.
pub struct DataResponseParser<'a> {
    buffer: &'a [u8],
}

impl<'a> DataResponseParser<'a> {
    /// The bytes under decoding.
    pub closed spec fn bytes(&self) -> Seq<u8> {
        self.buffer@
    }

    pub fn new(buffer: &'a [u8]) -> (r: Self)
        ensures
            r.bytes() == buffer@,
    {
        Self { buffer }
    }

    /// Finds the separator and the declared length, and checks that the
    /// whole payload is present.
    pub fn parse(self) -> (r: Result<DataMessage, ParseError>)
        requires
            is_data_prefix(self.bytes()),
        ensures
            match r {
                Ok(m) => data_frame(self.bytes()) == Ok::<(int, usize), ParseError>(
                    (m.separator as int, m.length),
                ),
                Err(e) => data_frame(self.bytes()) == Err::<(int, usize), ParseError>(e),
            },
    {
        let d = self.buffer;
        let sep_byte: u8 = if d[12] == 44 { 58 } else { 44 };
        let sep = match find_byte_from(d, 13, sep_byte) {
            Some(i) => i,
            None => return Err(ParseError::Incomplete),
        };
        proof {
            crate::bytes::lemma_find_byte_bounds(d@, 13, sep_byte);
        }
        let length = match parse_decimal(d, 13, sep) {
            Some(n) => n,
            None => return Err(ParseError::NoMatch),
        };
        if d.len() - (sep + 1) < length {
            return Err(ParseError::Incomplete);
        }
        Ok(DataMessage { length, separator: sep })
    }
}

/// Matches the length-prefixed `+CIPRECVDATA` frame.
pub struct SizeBasedMatcher<'a> {
    buffer: &'a [u8],
    /// First index where the actual message starts
    start: usize,
}

impl<'a> SizeBasedMatcher<'a> {
    /// The buffer under matching.
    pub closed spec fn bytes(&self) -> Seq<u8> {
        self.buffer@
    }

    /// A matcher that `matches` returned.
    pub closed spec fn wf(&self) -> bool {
        size_based_applies(self.buffer@) && first_non_newline(self.buffer@, 0) == Some(
            self.start as int,
        )
    }

    /// Returns a matcher if the buffer holds a length-prefixed frame after
    /// any CR and LF bytes.
    pub fn matches(buffer: &'a [u8]) -> (r: Option<Self>)
        ensures
            match r {
                Some(m) => m.wf() && m.bytes() == buffer@,
                None => !size_based_applies(buffer@),
            },
    {
        if buffer.len() < 15 {
            return None;
        }
        let start = match first_non_newline_from(buffer, 0) {
            Some(i) => i,
            None => return None,
        };
        let ghost d = buffer@.subrange(start as int, buffer@.len() as int);
        let p = kw::recv_data_bytes();
        let head = buffer.len() - start >= 13 && range_eq(buffer, start, start + 12, &p);
        if !head {
            proof {
                if d.len() >= 13 && is_prefix(kw::recv_data(), d) {
                    assert(buffer@.subrange(start as int, start + 12) == d.subrange(0, 12));
                }
            }
            return None;
        }
        assert(buffer@.subrange(start as int, start + 12) == d.subrange(0, 12));
        if buffer[start + 12] != 44 && buffer[start + 12] != 58 {
            return None;
        }
        Some(Self { buffer, start })
    }

    /// Parses the frame and checks that it is complete.
    pub fn handle(self) -> (r: Result<(Vec<u8>, usize), ParseError>)
        requires
            self.wf(),
        ensures
            frame_view(r) == size_frame(self.bytes()),
    {
        let start = self.start;
        proof {
            crate::bytes::lemma_first_non_newline_bounds(self.buffer@, 0);
        }
        let ghost d = self.buffer@.subrange(start as int, self.buffer@.len() as int);
        let data = copy_range(self.buffer, start, self.buffer.len());
        assert(data@ == d);
        let message = match DataResponseParser::new(data.as_slice()).parse() {
            Ok(m) => m,
            Err(e) => return Err(e),
        };
        proof {
            crate::bytes::lemma_find_byte_bounds(d, 13, 58);
            crate::bytes::lemma_find_byte_bounds(d, 13, 44);
        }
        assert(message.separator < d.len());
        assert(d.len() - (message.separator + 1) >= message.length);
        let end = message.separator + 1 + message.length;
        let frame = copy_range(self.buffer, start, start + end);
        assert(frame@ =~= d.subrange(0, end as int));
        Ok((frame, start + end))
    }
}

/// Matches regular CR LF terminated URC lines.
pub struct LineBasedMatcher<'a> {
    buffer: &'a [u8],
}

impl<'a> LineBasedMatcher<'a> {
    /// The buffer under matching.
    pub closed spec fn bytes(&self) -> Seq<u8> {
        self.buffer@
    }

    pub fn new(buffer: &'a [u8]) -> (r: Self)
        ensures
            r.bytes() == buffer@,
    {
        Self { buffer }
    }

    /// Skips empty lines, then returns the next line if it is a known URC.
    pub fn handle(self) -> (r: Result<(Vec<u8>, usize), ParseError>)
        ensures
            frame_view(r) == line_frame(self.bytes()),
    {
        let buf = self.buffer;
        let ghost s = buf@;
        let mut start: usize = 0;
        while buf.len() - start >= 2 && buf[start] == 13 && buf[start + 1] == 10
            invariant
                s == buf@,
                start <= buf.len(),
                skip_blank_lines(s, 0) == skip_blank_lines(s, start as int),
            decreases buf.len() - start,
        {
            start = start + 2;
        }
        match find_crlf_from(buf, start) {
            None => {
                if buf.len() - start < 4 {
                    Err(ParseError::Incomplete)
                } else {
                    Err(ParseError::NoMatch)
                }
            },
            Some(e) => {
                proof {
                    crate::bytes::lemma_find_crlf_bounds(s, start as int);
                }
                if e - start < 4 {
                    return Err(ParseError::NoMatch);
                }
                let line = copy_range(buf, start, e);
                if self.matches_lines_based_urc(line.as_slice()) {
                    let frame = copy_range(buf, start, e + 2);
                    Ok((frame, e + 2))
                } else {
                    Err(ParseError::NoMatch)
                }
            },
        }
    }

    /// True if a regular CR LF terminated URC line was matched.
    pub fn matches_lines_based_urc(&self, line: &[u8]) -> (r: bool)
        ensures
            r == is_line_urc(line@),
    {
        let n = line.len();
        let ready = kw::ready_bytes();
        let echo = kw::echo_bytes();
        let ipd = kw::ipd_bytes();
        let send_ok = kw::send_ok_bytes();
        let send_fail = kw::send_fail_bytes();
        let wifi = kw::wifi_bytes();
        let connect = kw::connect_suffix_bytes();
        let closed = kw::closed_suffix_bytes();
        let already = kw::already_connected_bytes();
        let tail_connect = n >= 1 && range_eq(line, 1, n, &connect);
        let tail_closed = n >= 1 && range_eq(line, 1, n, &closed);
        let r = range_eq(line, 0, n, &ready) || starts_with(line, &echo) || starts_with(line, &ipd)
            || range_eq(line, 0, n, &send_ok) || range_eq(line, 0, n, &send_fail) || starts_with(
            line,
            &wifi,
        ) || tail_connect || tail_closed || range_eq(line, 0, n, &already)
            || self.matches_receive_confirmation(line);
        assert(line@.subrange(0, n as int) == line@);
        r
    }

    /// True if the line reads `Recv <n> bytes`.
    pub fn matches_receive_confirmation(&self, line: &[u8]) -> (r: bool)
        ensures
            r == is_receive_confirmation(line@),
    {
        if line.len() < 12 {
            return false;
        }
        let head = kw::recv_space_bytes();
        let tail = kw::bytes_suffix_bytes();
        starts_with(line, &head) && range_eq(line, line.len() - 6, line.len(), &tail)
    }
}

/// Matches a boot banner that ends in a `ready` line.
pub struct BootMessageParser<'a> {
    buffer: &'a [u8],
}

impl<'a> BootMessageParser<'a> {
    /// The buffer under matching.
    pub closed spec fn bytes(&self) -> Seq<u8> {
        self.buffer@
    }

    pub fn new(buffer: &'a [u8]) -> (r: Self)
        ensures
            r.bytes() == buffer@,
    {
        Self { buffer }
    }

    /// Returns `ready\r\n` and the length of the whole banner once a boot line
    /// and a later ready line have been seen.
    pub fn handle(self) -> (r: Result<(Vec<u8>, usize), ParseError>)
        ensures
            frame_view(r) == match boot_scan(self.bytes(), 0, false) {
                Some(n) => Ok::<(Seq<u8>, nat), ParseError>((kw::ready_crlf(), n)),
                None => Err(ParseError::NoMatch),
            },
    {
        let buf = self.buffer;
        let ghost s = buf@;
        let mut is_boot_seq = false;
        let mut pos: usize = 0;
        while pos < buf.len()
            invariant
                s == buf@,
                buf@ == self.bytes(),
                pos <= buf.len(),
                boot_scan(s, 0, false) == boot_scan(s, pos as int, is_boot_seq),
            decreases buf.len() - pos,
        {
            proof {
                crate::bytes::lemma_find_byte_bounds(s, pos as int, 10);
            }
            let nl = match find_byte_from(buf, pos, 10) {
                Some(i) => i,
                None => {
                    assert(boot_scan(s, pos as int, is_boot_seq) is None);
                    return Err(ParseError::NoMatch);
                },
            };
            assert(pos <= nl < buf.len());
            let line = copy_range(buf, pos, nl);
            if !is_boot_seq && self.is_boot_line(line.as_slice()) {
                is_boot_seq = true;
            } else if is_boot_seq {
                let ready = kw::ready_cr_bytes();
                if range_eq(line.as_slice(), 0, line.len(), &ready) {
                    assert(line@.subrange(0, line@.len() as int) == line@);
                    let frame = kw::ready_crlf_bytes();
                    let out = copy_range(&frame, 0, 7);
                    assert(out@ =~= kw::ready_crlf());
                    return Ok((out, nl + 1));
                }
                assert(line@.subrange(0, line@.len() as int) == line@);
            }
            pos = nl + 1;
        }
        Err(ParseError::NoMatch)
    }

    /// True if the line holds `rst cause:`, as in
    /// "ets Jan  8 2013,rst cause:1, boot mode:(3,7)".
    pub fn is_boot_line(&self, line: &[u8]) -> (r: bool)
        ensures
            r == contains(line@, kw::rst_cause()),
    {
        let p = kw::rst_cause_bytes();
        let r = range_contains(line, 0, line.len(), &p);
        assert(line@.subrange(0, line@.len() as int) == line@);
        r
    }
}

// ---------------------------------------------------------------------------
// Both passes on the event type
// ---------------------------------------------------------------------------

impl<const RX_SIZE: usize> URCMessages<RX_SIZE> {
    /// First pass: finds the frame at the start of `buf`. Returns the frame
    /// and the number of bytes it consumes, leading empty lines counted.
    pub fn parse_frame(buf: &[u8]) -> (r: Result<(Vec<u8>, usize), ParseError>)
        ensures
            frame_view(r) == frame_of(buf@),
    {
        if buf.len() < 6 {
            return Err(ParseError::Incomplete);
        }
        if let Some(matcher) = SizeBasedMatcher::matches(buf) {
            return matcher.handle();
        }
        let line = LineBasedMatcher::new(buf).handle();
        if line.is_ok() {
            return line;
        }
        match BootMessageParser::new(buf).handle() {
            Ok(r) => Ok(r),
            Err(_) => line,
        }
    }

    /// Second pass: decodes one frame into an event. Returns `None` for a
    /// malformed frame and for a data frame whose payload exceeds `RX_SIZE`.
    pub fn parse(resp: &[u8]) -> (r: Option<Self>)
        ensures
            opt_event(r) == event_of(resp@, RX_SIZE as nat),
    {
        let echo = kw::echo_bytes();
        if starts_with(resp, &echo) {
            return Some(Self::Echo);
        }
        let ipd = kw::ipd_bytes();
        if starts_with(resp, &ipd) {
            return Self::parse_data_available(resp);
        }
        if resp.len() >= 13 {
            let p = kw::recv_data_bytes();
            if range_eq(resp, 0, 12, &p) && (resp[12] == 44 || resp[12] == 58) {
                assert(resp@.subrange(0, 12) == p@);
                return Self::parse_data(resp);
            }
            proof {
                if is_prefix(kw::recv_data(), resp@) {
                    assert(resp@.subrange(0, 12) == kw::recv_data());
                }
            }
        }
        let connect = kw::connect_suffix_bytes();
        if resp.len() == 11 && range_eq(resp, 1, 9, &connect) {
            return match Self::parse_link_id(resp[0]) {
                Some(id) => Some(Self::SocketConnected(id)),
                None => None,
            };
        }
        let closed = kw::closed_suffix_bytes();
        if resp.len() == 10 && range_eq(resp, 1, 8, &closed) {
            return match Self::parse_link_id(resp[0]) {
                Some(id) => Some(Self::SocketClosed(id)),
                None => None,
            };
        }
        let recv = kw::recv_bytes();
        if starts_with(resp, &recv) {
            return match Self::parse_receive_byte_count(resp) {
                Some(n) => Some(Self::ReceivedBytes(n)),
                None => None,
            };
        }
        let end: usize = if resp.len() >= 2 { resp.len() - 2 } else { resp.len() };
        assert(resp@.subrange(0, end as int) == line_body(resp@));
        let ready = kw::ready_bytes();
        let send_ok = kw::send_ok_bytes();
        let send_fail = kw::send_fail_bytes();
        let wifi_connected = kw::wifi_connected_bytes();
        let wifi_disconnect = kw::wifi_disconnect_bytes();
        let wifi_got_ip = kw::wifi_got_ip_bytes();
        let already = kw::already_connected_bytes();
        if range_eq(resp, 0, end, &ready) {
            Some(Self::Ready)
        } else if range_eq(resp, 0, end, &send_ok) {
            Some(Self::SendConfirmation)
        } else if range_eq(resp, 0, end, &send_fail) {
            Some(Self::SendFail)
        } else if range_eq(resp, 0, end, &wifi_connected) {
            Some(Self::WifiConnected)
        } else if range_eq(resp, 0, end, &wifi_disconnect) {
            Some(Self::WifiDisconnected)
        } else if range_eq(resp, 0, end, &wifi_got_ip) {
            Some(Self::ReceivedIP)
        } else if range_eq(resp, 0, end, &already) {
            Some(Self::AlreadyConnected)
        } else {
            Some(Self::Unknown)
        }
    }

    /// Parses the link id digit; link ids `0` to `4` are supported.
    pub fn parse_link_id(link_id: u8) -> (r: Option<usize>)
        ensures
            r == link_id_of(link_id),
    {
        if 48 <= link_id && link_id <= 52 {
            Some((link_id - 48) as usize)
        } else {
            None
        }
    }

    /// Parses the N of `Recv N bytes`.
    pub fn parse_receive_byte_count(resp: &[u8]) -> (r: Option<usize>)
        ensures
            match r {
                Some(n) => receive_count_of(resp@) == Some(UrcEvent::ReceivedBytes(n)),
                None => receive_count_of(resp@) is None,
            },
    {
        if resp.len() < 13 {
            return None;
        }
        parse_decimal(resp, 5, resp.len() - 8)
    }

    /// Parses a `+IPD,<id>,<len>` notice.
    pub fn parse_data_available(resp: &[u8]) -> (r: Option<Self>)
        requires
            is_prefix(kw::ipd(), resp@),
        ensures
            opt_event(r) == data_available_of(resp@),
    {
        let ghost body = line_body(resp@);
        let end: usize = resp.len() - 2;
        let line = copy_range(resp, 0, end);
        assert(line@ == body);
        let c1 = match find_byte_from(line.as_slice(), 0, 44) {
            Some(i) => i,
            None => return None,
        };
        proof {
            crate::bytes::lemma_find_byte_bounds(body, 0, 44);
            crate::bytes::lemma_find_byte_bounds(body, c1 + 1, 44);
        }
        let c2 = match find_byte_from(line.as_slice(), c1 + 1, 44) {
            Some(i) => i,
            None => return None,
        };
        proof {
            crate::bytes::lemma_rfind_byte_finds(body, end as int, 44, c1 as int);
        }
        let last = match rfind_byte_before(line.as_slice(), end, 44) {
            Some(i) => i,
            None => return None,
        };
        proof {
            crate::bytes::lemma_rfind_byte_bounds(body, end as int, 44);
        }
        let link_id = parse_decimal(line.as_slice(), c1 + 1, c2);
        let length = parse_decimal(line.as_slice(), last + 1, end);
        match (link_id, length) {
            (Some(id), Some(n)) => Some(Self::DataAvailable(id, n)),
            _ => None,
        }
    }

    /// Parses a `+CIPRECVDATA` frame into its payload.
    fn parse_data(resp: &[u8]) -> (r: Option<Self>)
        requires
            is_data_prefix(resp@),
        ensures
            opt_event(r) == data_event_of(resp@, RX_SIZE as nat),
    {
        let message = match DataResponseParser::new(resp).parse() {
            Ok(m) => m,
            Err(_) => return None,
        };
        proof {
            crate::bytes::lemma_find_byte_bounds(resp@, 13, 58);
            crate::bytes::lemma_find_byte_bounds(resp@, 13, 44);
        }
        if resp.len() - (message.separator + 1) > RX_SIZE {
            return None;
        }
        let payload = copy_range(resp, message.separator + 1, resp.len());
        Some(Self::Data(payload))
    }
}

} // verus!

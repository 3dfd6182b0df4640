//! IP addresses and socket addresses, their text forms, and the calls into
//! the number and hex formatting crates that produce those forms.
use vstd::prelude::*;
use numtoa::NumToA;
use crate::bytes::{copy_range, all_digits, decimal_of, digits_value, find_byte, find_byte_from, is_digit, parse_decimal};

verus! {

/// An IPv4 address as its four octets.
#[derive(Clone, Copy, Debug, PartialEq, Eq)]
pub struct Ipv4Addr {
    pub octets: [u8; 4],
}

/// An IPv6 address as its eight 16-bit segments.
#[derive(Clone, Copy, Debug, PartialEq, Eq)]
pub struct Ipv6Addr {
    pub segments: [u16; 8],
}

/// An IPv4 address and a port.
#[derive(Clone, Copy, Debug, PartialEq, Eq)]
pub struct SocketAddrV4 {
    pub ip: Ipv4Addr,
    pub port: u16,
}

/// An IPv6 address and a port.
#[derive(Clone, Copy, Debug, PartialEq, Eq)]
pub struct SocketAddrV6 {
    pub ip: Ipv6Addr,
    pub port: u16,
}

/// A remote endpoint of either family.
#[derive(Clone, Copy, Debug, PartialEq, Eq)]
pub enum SocketAddr {
    V4(SocketAddrV4),
    V6(SocketAddrV6),
}

impl Ipv4Addr {
    pub fn new(a: u8, b: u8, c: u8, d: u8) -> (r: Self)
        ensures
            r.octets@ == seq![a, b, c, d],
    {
        Ipv4Addr { octets: [a, b, c, d] }
    }
}

impl Ipv6Addr {
    #[allow(clippy::too_many_arguments)]
    pub fn new(a: u16, b: u16, c: u16, d: u16, e: u16, f: u16, g: u16, h: u16) -> (r: Self)
        ensures
            r.segments@ == seq![a, b, c, d, e, f, g, h],
    {
        Ipv6Addr { segments: [a, b, c, d, e, f, g, h] }
    }
}

impl SocketAddrV4 {
    pub fn new(ip: Ipv4Addr, port: u16) -> (r: Self)
        ensures
            r.ip == ip && r.port == port,
    {
        SocketAddrV4 { ip, port }
    }
}

impl SocketAddrV6 {
    pub fn new(ip: Ipv6Addr, port: u16) -> (r: Self)
        ensures
            r.ip == ip && r.port == port,
    {
        SocketAddrV6 { ip, port }
    }
}

// ---------------------------------------------------------------------------
// Number formatting
// ---------------------------------------------------------------------------

/// Decimal digits of `n`, most significant first, without leading zeros.
pub open spec fn decimal_text(n: nat) -> Seq<u8>
    decreases n,
{
    if n < 10 {
        seq![(48 + n) as u8]
    } else {
        decimal_text(n / 10).push((48 + n % 10) as u8)
    }
}

/// Lower-case hex digit of `n < 16`.
pub open spec fn hex_digit(n: nat) -> u8 {
    if n < 10 {
        (48 + n) as u8
    } else {
        (87 + n) as u8
    }
}

/// Two lower-case hex digits per byte, high nibble first.
pub open spec fn hex_text(b: Seq<u8>) -> Seq<u8>
    decreases b.len(),
{
    if b.len() == 0 {
        seq![]
    } else {
        hex_text(b.drop_last()) + seq![hex_digit(b.last() as nat / 16), hex_digit(b.last() as nat % 16)]
    }
}

/// Relies on numtoa's `NumToA::numtoa` for `usize` in base 10: it writes the
/// decimal digits of `n` at the end of the buffer (20 bytes hold any `u64`)
/// and returns them.
#[verifier::external_body]
pub(crate) fn decimal(n: usize) -> (r: Vec<u8>)
    ensures
        r@ == decimal_text(n as nat),
{
    let mut buf = [0u8; 20];
    n.numtoa(10, &mut buf).to_vec()
}

/// Relies on `base16::encode_config_slice` with `EncodeLower`: two lower-case
/// hex digits for each input byte, high nibble first.
#[verifier::external_body]
pub(crate) fn hex_lower(bytes: &[u8]) -> (r: Vec<u8>)
    requires
        bytes.len() <= 1024,
    ensures
        r@ == hex_text(bytes@),
{
    let mut out = vec![0u8; bytes.len() * 2];
    base16::encode_config_slice(bytes, base16::EncodeLower, &mut out);
    out
}

/// Appends `b` to `out`.
pub(crate) fn append(out: &mut Vec<u8>, b: &[u8])
    ensures
        final(out)@ == old(out)@ + b@,
{
    let ghost start = out@;
    let mut i: usize = 0;
    while i < b.len()
        invariant
            i <= b.len(),
            out@ == start + b@.subrange(0, i as int),
        decreases b.len() - i,
    {
        out.push(b[i]);
        assert(out@ =~= start + b@.subrange(0, i + 1));
        i = i + 1;
    }
    assert(b@.subrange(0, b.len() as int) == b@);
}

// ---------------------------------------------------------------------------
// Address text
// ---------------------------------------------------------------------------

/// `.` as a byte.
pub open spec fn dot() -> u8 {
    46
}

/// `:` as a byte.
pub open spec fn colon() -> u8 {
    58
}

/// Dotted decimal form of four octets.
pub open spec fn ipv4_text(o: Seq<u8>) -> Seq<u8> {
    decimal_text(o[0] as nat) + seq![dot()] + decimal_text(o[1] as nat) + seq![dot()]
        + decimal_text(o[2] as nat) + seq![dot()] + decimal_text(o[3] as nat)
}

/// Text of one IPv6 segment: `0` for an all-zero segment, else four
/// lower-case hex digits.
pub open spec fn segment_text(s: u16) -> Seq<u8> {
    if s == 0 {
        seq![48u8]
    } else {
        hex_text(seq![(s / 256) as u8, (s % 256) as u8])
    }
}

/// The first `n` segments, colon-joined.
pub open spec fn segments_text(s: Seq<u16>, n: nat) -> Seq<u8>
    decreases n,
{
    if n == 0 {
        seq![]
    } else if n == 1 {
        segment_text(s[0])
    } else {
        segments_text(s, (n - 1) as nat) + seq![colon()] + segment_text(s[n - 1])
    }
}

/// Eight colon-joined segments, without `::` elision.
pub open spec fn ipv6_text(s: Seq<u16>) -> Seq<u8> {
    segments_text(s, 8)
}

/// Converts an IPv4 address to its dotted decimal form.
pub fn ipv4_to_string(ip: &Ipv4Addr) -> (r: Vec<u8>)
    ensures
        r@ == ipv4_text(ip.octets@),
{
    let mut out: Vec<u8> = Vec::new();
    let mut i: usize = 0;
    while i < 4
        invariant
            i <= 4,
            i == 0 ==> out@ == Seq::<u8>::empty(),
            i == 1 ==> out@ == decimal_text(ip.octets@[0] as nat),
            i == 2 ==> out@ == decimal_text(ip.octets@[0] as nat) + seq![dot()] + decimal_text(
                ip.octets@[1] as nat,
            ),
            i == 3 ==> out@ == decimal_text(ip.octets@[0] as nat) + seq![dot()] + decimal_text(
                ip.octets@[1] as nat,
            ) + seq![dot()] + decimal_text(ip.octets@[2] as nat),
            i == 4 ==> out@ == ipv4_text(ip.octets@),
        decreases 4 - i,
    {
        if i != 0 {
            out.push(46);
        }
        let digits = decimal(ip.octets[i] as usize);
        append(&mut out, digits.as_slice());
        i = i + 1;
    }
    out
}

/// Converts an IPv6 address to eight colon-joined segments; an all-zero
/// segment is written `0`, any other as four lower-case hex digits.
pub fn ipv6_to_string(ip: &Ipv6Addr) -> (r: Vec<u8>)
    ensures
        r@ == ipv6_text(ip.segments@),
{
    let mut out: Vec<u8> = Vec::new();
    let mut i: usize = 0;
    while i < 8
        invariant
            i <= 8,
            out@ == segments_text(ip.segments@, i as nat),
        decreases 8 - i,
    {
        if i != 0 {
            out.push(58);
        }
        let segment = ip.segments[i];
        if segment == 0 {
            out.push(48);
        } else {
            let be: [u8; 2] = [(segment / 256) as u8, (segment % 256) as u8];
            let hex = hex_lower(&be);
            append(&mut out, hex.as_slice());
        }
        assert(out@ =~= segments_text(ip.segments@, (i + 1) as nat));
        i = i + 1;
    }
    out
}

// ---------------------------------------------------------------------------
// Address parsing
// ---------------------------------------------------------------------------

/// One octet of a dotted quad: one to three digits, no leading zero, at most 255.
pub open spec fn octet_of(f: Seq<u8>) -> Option<u8> {
    if 1 <= f.len() <= 3 && all_digits(f) && !(f.len() > 1 && f[0] == 48) && digits_value(f)
        <= 255 {
        Some(digits_value(f) as u8)
    } else {
        None
    }
}

/// The four octets that a dotted quad spells, if it is one.
pub open spec fn ipv4_of(s: Seq<u8>) -> Option<Seq<u8>> {
    match find_byte(s, 0, dot()) {
        None => None,
        Some(d1) => match find_byte(s, d1 + 1, dot()) {
            None => None,
            Some(d2) => match find_byte(s, d2 + 1, dot()) {
                None => None,
                Some(d3) => if find_byte(s, d3 + 1, dot()) is Some {
                    None
                } else {
                    match (
                        octet_of(s.subrange(0, d1)),
                        octet_of(s.subrange(d1 + 1, d2)),
                        octet_of(s.subrange(d2 + 1, d3)),
                        octet_of(s.subrange(d3 + 1, s.len() as int)),
                    ) {
                        (Some(a), Some(b), Some(c), Some(d)) => Some(seq![a, b, c, d]),
                        _ => None,
                    }
                },
            },
        },
    }
}

/// Parses `s[lo..hi]` as one octet of a dotted quad.
fn parse_octet(s: &[u8], lo: usize, hi: usize) -> (r: Option<u8>)
    requires
        lo <= hi <= s.len(),
    ensures
        r == octet_of(s@.subrange(lo as int, hi as int)),
{
    let ghost f = s@.subrange(lo as int, hi as int);
    if hi - lo < 1 || hi - lo > 3 {
        return None;
    }
    if hi - lo > 1 && s[lo] == 48 {
        assert(f[0] == 48);
        return None;
    }
    match parse_decimal(s, lo, hi) {
        Some(v) => {
            if v > 255 {
                None
            } else {
                Some(v as u8)
            }
        },
        None => None,
    }
}

impl Ipv4Addr {
    /// Parses a dotted quad such as `10.0.0.181`.
    pub fn parse(s: &[u8]) -> (r: Option<Ipv4Addr>)
        ensures
            match r {
                Some(ip) => ipv4_of(s@) == Some(ip.octets@),
                None => ipv4_of(s@) is None,
            },
    {
        let d1 = match find_byte_from(s, 0, 46) {
            Some(i) => i,
            None => return None,
        };
        proof {
            crate::bytes::lemma_find_byte_bounds(s@, 0, 46);
        }
        assert(d1 < s.len());
        let d2 = match find_byte_from(s, d1 + 1, 46) {
            Some(i) => i,
            None => return None,
        };
        proof {
            crate::bytes::lemma_find_byte_bounds(s@, d1 + 1, 46);
        }
        assert(d1 < d2 < s.len());
        let d3 = match find_byte_from(s, d2 + 1, 46) {
            Some(i) => i,
            None => return None,
        };
        proof {
            crate::bytes::lemma_find_byte_bounds(s@, d2 + 1, 46);
        }
        assert(d2 < d3 < s.len());
        if find_byte_from(s, d3 + 1, 46).is_some() {
            return None;
        }
        let a = parse_octet(s, 0, d1);
        let b = parse_octet(s, d1 + 1, d2);
        let c = parse_octet(s, d2 + 1, d3);
        let d = parse_octet(s, d3 + 1, s.len());
        match (a, b, c, d) {
            (Some(a), Some(b), Some(c), Some(d)) => Some(Ipv4Addr::new(a, b, c, d)),
            _ => None,
        }
    }
}

/// Value of a hex digit, either case.
pub open spec fn hex_value_of(b: u8) -> Option<nat> {
    if 48 <= b <= 57 {
        Some((b - 48) as nat)
    } else if 97 <= b <= 102 {
        Some((b - 87) as nat)
    } else if 65 <= b <= 70 {
        Some((b - 55) as nat)
    } else {
        None
    }
}

/// Value of a run of hex digits, most significant first.
pub open spec fn hex_digits_value(f: Seq<u8>) -> nat
    decreases f.len(),
{
    if f.len() == 0 {
        0
    } else {
        hex_digits_value(f.drop_last()) * 16 + match hex_value_of(f.last()) {
            Some(v) => v,
            None => 0,
        }
    }
}

/// One IPv6 group: one to four hex digits.
pub open spec fn group_of(f: Seq<u8>) -> Option<u16> {
    if 1 <= f.len() <= 4 && forall|i: int| 0 <= i < f.len() ==> (#[trigger] hex_value_of(f[i])) is Some {
        Some(hex_digits_value(f) as u16)
    } else {
        None
    }
}

/// The two segments that an embedded dotted quad stands for.
pub open spec fn ipv4_segments(o: Seq<u8>) -> Seq<u16> {
    seq![(o[0] * 256 + o[1]) as u16, (o[2] * 256 + o[3]) as u16]
}

/// The last field of a side: one group, or, where `v4` allows it, a dotted
/// quad that fills two segments.
pub open spec fn last_field_of(f: Seq<u8>, v4: bool) -> Option<Seq<u16>> {
    match group_of(f) {
        Some(g) => Some(seq![g]),
        None => if v4 {
            match ipv4_of(f) {
                Some(o) => Some(ipv4_segments(o)),
                None => None,
            }
        } else {
            None
        },
    }
}

/// The colon-separated groups of `t` from `pos` on; every group must be
/// well formed, so an empty one (a second `::`, a leading or trailing
/// colon) fails. Where `v4` is set the last field may be a dotted quad.
pub open spec fn fields_from(t: Seq<u8>, pos: int, v4: bool) -> Option<Seq<u16>>
    decreases t.len() - pos,
{
    if pos < 0 || pos > t.len() {
        None
    } else {
        match find_byte(t, pos, colon()) {
            None => last_field_of(t.subrange(pos, t.len() as int), v4),
            Some(c) => if c < pos || c >= t.len() {
                None
            } else {
                match group_of(t.subrange(pos, c)) {
                    None => None,
                    Some(g) => match fields_from(t, c + 1, v4) {
                        Some(rest) => Some(seq![g] + rest),
                        None => None,
                    },
                }
            },
        }
    }
}

/// The groups of a side of `::`; an empty side has none.
pub open spec fn groups_of(t: Seq<u8>, v4: bool) -> Option<Seq<u16>> {
    if t.len() == 0 {
        Some(seq![])
    } else {
        fields_from(t, 0, v4)
    }
}

/// Index of the first `::` at or after `from`.
pub open spec fn find_double_colon(s: Seq<u8>, from: int) -> Option<int>
    decreases s.len() - from,
{
    if from < 0 || from + 1 >= s.len() {
        None
    } else if s[from] == colon() && s[from + 1] == colon() {
        Some(from)
    } else {
        find_double_colon(s, from + 1)
    }
}

/// The eight segments that an IPv6 text spells: eight groups, or groups on
/// both sides of one `::` that stands for at least one zero segment. The
/// last two groups may be written as a dotted quad, but not before `::`.
pub open spec fn ipv6_of(s: Seq<u8>) -> Option<Seq<u16>> {
    match find_double_colon(s, 0) {
        None => match fields_from(s, 0, true) {
            Some(g) => if g.len() == 8 {
                Some(g)
            } else {
                None
            },
            None => None,
        },
        Some(p) => match (
            groups_of(s.subrange(0, p), false),
            groups_of(s.subrange(p + 2, s.len() as int), true),
        ) {
            (Some(h), Some(t)) => if h.len() + t.len() <= 7 {
                Some(h + Seq::new((8 - h.len() - t.len()) as nat, |i: int| 0u16) + t)
            } else {
                None
            },
            _ => None,
        },
    }
}

/// Parses one group of one to four hex digits.
fn parse_group(t: &[u8], lo: usize, hi: usize) -> (r: Option<u16>)
    requires
        lo <= hi <= t.len(),
    ensures
        r == group_of(t@.subrange(lo as int, hi as int)),
{
    let ghost f = t@.subrange(lo as int, hi as int);
    if hi - lo < 1 || hi - lo > 4 {
        return None;
    }
    let mut value: u32 = 0;
    let mut i: usize = lo;
    proof {
        lemma_pow16_small();
        assert(t@.subrange(lo as int, lo as int) =~= Seq::<u8>::empty());
    }
    while i < hi
        invariant
            lo <= i <= hi <= t.len(),
            hi - lo <= 4,
            f == t@.subrange(lo as int, hi as int),
            forall|k: int| 0 <= k < i - lo ==> (#[trigger] hex_value_of(f[k])) is Some,
            value as nat == hex_digits_value(t@.subrange(lo as int, i as int)),
            value < pow16(i - lo),
        decreases hi - i,
    {
        let b = t[i];
        let v: u32 = if 48 <= b && b <= 57 {
            (b - 48) as u32
        } else if 97 <= b && b <= 102 {
            (b - 87) as u32
        } else if 65 <= b && b <= 70 {
            (b - 55) as u32
        } else {
            assert(hex_value_of(f[i - lo]) is None);
            return None;
        };
        assert(t@.subrange(lo as int, i + 1).drop_last() == t@.subrange(lo as int, i as int));
        assert(hex_value_of(b) == Some(v as nat));
        assert(pow16(i + 1 - lo) == pow16(i - lo) * 16);
        assert(value * 16 + v < pow16(i + 1 - lo)) by (nonlinear_arith)
            requires
                value < pow16(i - lo),
                v < 16,
                pow16(i + 1 - lo) == pow16(i - lo) * 16,
        ;
        proof {
            lemma_pow16_small();
        }
        value = value * 16 + v;
        i = i + 1;
    }
    assert(t@.subrange(lo as int, i as int) == f);
    proof {
        lemma_pow16_small();
    }
    Some(value as u16)
}

/// The first powers of sixteen.
proof fn lemma_pow16_small()
    ensures
        pow16(0) == 1,
        pow16(1) == 16,
        pow16(2) == 256,
        pow16(3) == 4096,
        pow16(4) == 65536,
{
    reveal_with_fuel(pow16, 5);
}

/// `16^n`.
pub open spec fn pow16(n: int) -> nat
    decreases n,
{
    if n <= 0 {
        1
    } else {
        16 * pow16(n - 1)
    }
}

/// Parses the last field of a side, `t[lo..]`.
fn parse_last_field(t: &[u8], lo: usize, v4: bool) -> (r: Option<Vec<u16>>)
    requires
        lo <= t.len(),
    ensures
        match r {
            Some(v) => last_field_of(t@.subrange(lo as int, t@.len() as int), v4) == Some(v@),
            None => last_field_of(t@.subrange(lo as int, t@.len() as int), v4) is None,
        },
{
    if let Some(g) = parse_group(t, lo, t.len()) {
        let mut v: Vec<u16> = Vec::new();
        v.push(g);
        assert(v@ =~= seq![g]);
        return Some(v);
    }
    if !v4 {
        return None;
    }
    let field = copy_range(t, lo, t.len());
    match Ipv4Addr::parse(field.as_slice()) {
        Some(ip) => {
            let o = ip.octets;
            let mut v: Vec<u16> = Vec::new();
            v.push(o[0] as u16 * 256 + o[1] as u16);
            v.push(o[2] as u16 * 256 + o[3] as u16);
            assert(v@ =~= ipv4_segments(ip.octets@));
            Some(v)
        },
        None => None,
    }
}

/// Parses the colon-separated groups of `t[from..]`.
fn parse_fields(t: &[u8], from: usize, v4: bool) -> (r: Option<Vec<u16>>)
    requires
        from <= t.len(),
    ensures
        match r {
            Some(v) => fields_from(t@, from as int, v4) == Some(v@),
            None => fields_from(t@, from as int, v4) is None,
        },
{
    let mut acc: Vec<u16> = Vec::new();
    let mut pos: usize = from;
    loop
        invariant
            from <= pos <= t.len(),
            fields_from(t@, from as int, v4) == match fields_from(t@, pos as int, v4) {
                Some(rest) => Some(acc@ + rest),
                None => None::<Seq<u16>>,
            },
        decreases t.len() - pos,
    {
        proof {
            crate::bytes::lemma_find_byte_bounds(t@, pos as int, colon());
        }
        match find_byte_from(t, pos, 58) {
            None => {
                match parse_last_field(t, pos, v4) {
                    Some(last) => {
                        let ghost before = acc@;
                        let mut k: usize = 0;
                        while k < last.len()
                            invariant
                                k <= last@.len(),
                                acc@ == before + last@.subrange(0, k as int),
                            decreases last@.len() - k,
                        {
                            acc.push(last[k]);
                            assert(acc@ =~= before + last@.subrange(0, k + 1));
                            k = k + 1;
                        }
                        assert(last@.subrange(0, last@.len() as int) =~= last@);
                        return Some(acc);
                    },
                    None => return None,
                }
            },
            Some(c) => {
                match parse_group(t, pos, c) {
                    Some(g) => {
                        let ghost before = acc@;
                        acc.push(g);
                        proof {
                            match fields_from(t@, c + 1, v4) {
                                Some(rest) => {
                                    assert(before + (seq![g] + rest) =~= acc@ + rest);
                                },
                                None => {},
                            }
                        }
                        pos = c + 1;
                    },
                    None => return None,
                }
            },
        }
    }
}

/// First index at or after `from` where a `::` starts.
fn find_double_colon_from(s: &[u8], from: usize) -> (r: Option<usize>)
    ensures
        match r {
            Some(i) => find_double_colon(s@, from as int) == Some(i as int) && i + 1 < s.len(),
            None => find_double_colon(s@, from as int) is None,
        },
{
    let mut i: usize = from;
    while i < s.len() && s.len() - i >= 2
        invariant
            from <= i,
            find_double_colon(s@, from as int) == find_double_colon(s@, i as int),
        decreases s.len() - i,
    {
        if s[i] == 58 && s[i + 1] == 58 {
            return Some(i);
        }
        i = i + 1;
    }
    None
}

/// Groups of one side of `::`.
fn parse_groups(t: &[u8], v4: bool) -> (r: Option<Vec<u16>>)
    ensures
        match r {
            Some(v) => groups_of(t@, v4) == Some(v@),
            None => groups_of(t@, v4) is None,
        },
{
    if t.len() == 0 {
        let v: Vec<u16> = Vec::new();
        assert(v@ =~= Seq::<u16>::empty());
        return Some(v);
    }
    parse_fields(t, 0, v4)
}

impl Ipv6Addr {
    /// Parses an IPv6 text of eight colon-separated groups of one to four hex
    /// digits, where one `::` may stand for one or more zero groups and the
    /// last two groups may be an embedded IPv4 address (`::ffff:1.2.3.4`).
    #[verifier::rlimit(80)]
    pub fn parse(s: &[u8]) -> (r: Option<Ipv6Addr>)
        ensures
            match r {
                Some(ip) => ipv6_of(s@) == Some(ip.segments@),
                None => ipv6_of(s@) is None,
            },
    {
        let p = match find_double_colon_from(s, 0) {
            Some(p) => p,
            None => {
                let groups = match parse_fields(s, 0, true) {
                    Some(g) => g,
                    None => return None,
                };
                if groups.len() != 8 {
                    return None;
                }
                let r = Ipv6Addr::new(
                    groups[0], groups[1], groups[2], groups[3], groups[4], groups[5], groups[6], groups[7],
                );
                assert(r.segments@ =~= groups@);
                return Some(r);
            },
        };
        let head_text = copy_range(s, 0, p);
        let tail_text = copy_range(s, p + 2, s.len());
        let head = match parse_groups(head_text.as_slice(), false) {
            Some(g) => g,
            None => return None,
        };
        let tail = match parse_groups(tail_text.as_slice(), true) {
            Some(g) => g,
            None => return None,
        };
        if head.len() > 7 || tail.len() > 7 - head.len() {
            return None;
        }
        let zeros: usize = 8 - head.len() - tail.len();
        let mut all: Vec<u16> = Vec::new();
        let mut i: usize = 0;
        while i < head.len()
            invariant
                i <= head.len(),
                all@ == head@.subrange(0, i as int),
            decreases head.len() - i,
        {
            all.push(head[i]);
            assert(all@ =~= head@.subrange(0, i + 1));
            i = i + 1;
        }
        let mut z: usize = 0;
        while z < zeros
            invariant
                i == head.len(),
                z <= zeros,
                all@ == head@ + Seq::new(z as nat, |k: int| 0u16),
            decreases zeros - z,
        {
            all.push(0);
            assert(all@ =~= head@ + Seq::new((z + 1) as nat, |k: int| 0u16));
            z = z + 1;
        }
        let mut j: usize = 0;
        while j < tail.len()
            invariant
                j <= tail.len(),
                all@ == head@ + Seq::new(zeros as nat, |k: int| 0u16) + tail@.subrange(0, j as int),
            decreases tail.len() - j,
        {
            all.push(tail[j]);
            assert(all@ =~= head@ + Seq::new(zeros as nat, |k: int| 0u16) + tail@.subrange(
                0,
                j + 1,
            ));
            j = j + 1;
        }
        assert(tail@.subrange(0, tail@.len() as int) == tail@);
        let r = Ipv6Addr::new(all[0], all[1], all[2], all[3], all[4], all[5], all[6], all[7]);
        assert(r.segments@ =~= all@);
        Some(r)
    }
}

} // verus!

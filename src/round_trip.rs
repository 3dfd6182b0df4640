//! Round trips of the address text forms.
use vstd::prelude::*;
use crate::bytes::{all_digits, digits_value, find_byte, is_digit};
use crate::net::{
    colon, decimal_text, dot, fields_from, find_double_colon, group_of, hex_digit, hex_digits_value,
    hex_text, hex_value_of, ipv4_of, ipv4_text, ipv6_of, ipv6_text, octet_of, segment_text,
    segments_text,
};

verus! {

/// The decimal text of `n` is a run of digits that spells `n`, with no
/// leading zero, one digit below ten, and at most three below a thousand.
pub proof fn lemma_decimal_text(n: nat)
    ensures
        all_digits(decimal_text(n)),
        digits_value(decimal_text(n)) == n,
        n < 10 ==> decimal_text(n).len() == 1,
        n >= 10 ==> decimal_text(n)[0] != 48,
        n < 100 ==> decimal_text(n).len() <= 2,
        n < 1000 ==> decimal_text(n).len() <= 3,
    decreases n,
{
    let t = decimal_text(n);
    if n >= 10 {
        lemma_decimal_text(n / 10);
        let h = decimal_text(n / 10);
        assert(t == h.push((48 + n % 10) as u8));
        assert(t.drop_last() =~= h);
        assert(forall|i: int| 0 <= i < h.len() ==> t[i] == h[i]);
        assert forall|i: int| 0 <= i < t.len() implies is_digit(#[trigger] t[i]) by {
            if i < h.len() {
                assert(is_digit(h[i]));
            }
        }
        assert(n / 10 * 10 + n % 10 == n);
        assert(t.last() == (48 + n % 10) as u8);
        assert(n % 10 < 10);
        assert((48 + n % 10) as u8 - 48 == n % 10);
        assert(digits_value(t) == digits_value(h) * 10 + (n % 10));
        assert(digits_value(h) * 10 == (n / 10) * 10);
        if n / 10 < 10 {
            assert(h[0] == (48 + n / 10) as u8);
        }
    } else {
        assert(t.drop_last() =~= Seq::<u8>::empty());
        assert(digits_value(Seq::<u8>::empty()) == 0);
        assert(digits_value(t.drop_last()) == 0);
        assert(t.last() == (48 + n) as u8);
        assert((48 + n) as u8 - 48 == n);
        assert(digits_value(t) == n);
    }
}

/// One octet's decimal text reads back as that octet.
pub proof fn lemma_octet_round_trip(n: u8)
    ensures
        octet_of(decimal_text(n as nat)) == Some(n),
{
    lemma_decimal_text(n as nat);
}

/// A search in `p + y` that starts inside `y` finds what the search in `y` finds,
/// shifted by the length of `p`.
proof fn lemma_find_byte_shift(p: Seq<u8>, y: Seq<u8>, from: int, b: u8)
    requires
        0 <= from,
    ensures
        find_byte(p + y, p.len() + from, b) == match find_byte(y, from, b) {
            Some(i) => Some(i + p.len()),
            None => None::<int>,
        },
    decreases y.len() - from,
{
    if from < y.len() {
        assert((p + y)[p.len() + from] == y[from]);
        if y[from] != b {
            lemma_find_byte_shift(p, y, from + 1, b);
        }
    }
}

/// A field without dots followed by a dot: the first dot ends the field.
proof fn lemma_field_then_dot(x: Seq<u8>, y: Seq<u8>)
    requires
        all_digits(x),
    ensures
        find_byte(x + seq![dot()] + y, 0, dot()) == Some(x.len() as int),
        (x + seq![dot()] + y).subrange(0, x.len() as int) == x,
{
    let s = x + seq![dot()] + y;
    assert forall|i: int| 0 <= i < x.len() implies s[i] != dot() by {
        assert(s[i] == x[i]);
        assert(is_digit(x[i]));
    }
    crate::bytes::lemma_find_byte_at(s, 0, dot(), x.len() as int);
    assert(s.subrange(0, x.len() as int) =~= x);
}

/// A field without dots holds no dot.
proof fn lemma_last_field(x: Seq<u8>)
    requires
        all_digits(x),
    ensures
        find_byte(x, 0, dot()) is None,
{
    assert forall|i: int| 0 <= i < x.len() implies x[i] != dot() by {
        assert(is_digit(x[i]));
    }
    crate::bytes::lemma_find_byte_at(x, 0, dot(), x.len() as int);
}

/// Formatting an IPv4 address and parsing the text gives back the same
/// four octets.
pub proof fn lemma_ipv4_round_trip(o: Seq<u8>)
    requires
        o.len() == 4,
    ensures
        ipv4_of(ipv4_text(o)) == Some(o),
{
    let a = decimal_text(o[0] as nat);
    let b = decimal_text(o[1] as nat);
    let c = decimal_text(o[2] as nat);
    let d = decimal_text(o[3] as nat);
    lemma_decimal_text(o[0] as nat);
    lemma_decimal_text(o[1] as nat);
    lemma_decimal_text(o[2] as nat);
    lemma_decimal_text(o[3] as nat);
    lemma_octet_round_trip(o[0]);
    lemma_octet_round_trip(o[1]);
    lemma_octet_round_trip(o[2]);
    lemma_octet_round_trip(o[3]);
    let y3 = d;
    let y2 = c + seq![dot()] + y3;
    let y1 = b + seq![dot()] + y2;
    let s = a + seq![dot()] + y1;
    assert(ipv4_text(o) =~= s);
    let p1 = a + seq![dot()];
    let p2 = p1 + b + seq![dot()];
    let p3 = p2 + c + seq![dot()];
    assert(s =~= p1 + y1);
    assert(s =~= p2 + y2);
    assert(s =~= p3 + y3);
    let d1 = a.len() as int;
    let d2: int = p1.len() as int + b.len() as int;
    let d3: int = p2.len() as int + c.len() as int;
    lemma_field_then_dot(a, y1);
    lemma_field_then_dot(b, y2);
    lemma_field_then_dot(c, y3);
    lemma_last_field(d);
    lemma_find_byte_shift(p1, y1, 0, dot());
    lemma_find_byte_shift(p2, y2, 0, dot());
    lemma_find_byte_shift(p3, y3, 0, dot());
    assert(find_byte(s, 0, dot()) == Some(d1));
    assert(find_byte(s, d1 + 1, dot()) == Some(d2));
    assert(find_byte(s, d2 + 1, dot()) == Some(d3));
    assert(find_byte(s, d3 + 1, dot()) is None);
    assert(s.subrange(0, d1) =~= a);
    assert(s.subrange(d1 + 1, d2) =~= b);
    assert(s.subrange(d2 + 1, d3) =~= c);
    assert(s.subrange(d3 + 1, s.len() as int) =~= d);
    assert(seq![o[0], o[1], o[2], o[3]] =~= o);
}

/// The eight segments from `k` on, colon-joined (the same text as
/// `segments_text`, built from the right).
pub open spec fn segments_from(s: Seq<u16>, k: int) -> Seq<u8>
    decreases 7 - k,
{
    if k >= 7 {
        segment_text(s[7])
    } else {
        segment_text(s[k]) + seq![colon()] + segments_from(s, k + 1)
    }
}

/// True if `b` is a lower-case hex digit.
pub open spec fn is_hex_text_byte(b: u8) -> bool {
    (48 <= b <= 57) || (97 <= b <= 102)
}

/// A lower-case hex digit reads back as its value.
proof fn lemma_hex_digit(n: nat)
    requires
        n < 16,
    ensures
        hex_value_of(hex_digit(n)) == Some(n),
        is_hex_text_byte(hex_digit(n)),
{
}

/// A segment's text is one to four hex digits that spell the segment.
proof fn lemma_segment_text(v: u16)
    ensures
        group_of(segment_text(v)) == Some(v),
        1 <= segment_text(v).len() <= 4,
        forall|i: int| 0 <= i < segment_text(v).len() ==> is_hex_text_byte(#[trigger] segment_text(v)[i]),
{
    let t = segment_text(v);
    if v == 0 {
        assert(t.drop_last() =~= Seq::<u8>::empty());
        assert(hex_digits_value(Seq::<u8>::empty()) == 0);
        assert(hex_digits_value(t) == 0);
    } else {
        let hi = (v / 256) as u8;
        let lo = (v % 256) as u8;
        let b = seq![hi, lo];
        reveal_with_fuel(hex_text, 3);
        assert(b.drop_last() =~= seq![hi]);
        assert(seq![hi].drop_last() =~= Seq::<u8>::empty());
        let d0 = hex_digit(hi as nat / 16);
        let d1 = hex_digit(hi as nat % 16);
        let d2 = hex_digit(lo as nat / 16);
        let d3 = hex_digit(lo as nat % 16);
        assert(hex_text(seq![hi]) =~= seq![d0, d1]);
        assert(t =~= seq![d0, d1, d2, d3]);
        lemma_hex_digit(hi as nat / 16);
        lemma_hex_digit(hi as nat % 16);
        lemma_hex_digit(lo as nat / 16);
        lemma_hex_digit(lo as nat % 16);
        assert(t.drop_last() =~= seq![d0, d1, d2]);
        assert(seq![d0, d1, d2].drop_last() =~= seq![d0, d1]);
        assert(seq![d0, d1].drop_last() =~= seq![d0]);
        assert(seq![d0].drop_last() =~= Seq::<u8>::empty());
        reveal_with_fuel(hex_digits_value, 5);
        assert(hex_digits_value(seq![d0]) == hi as nat / 16);
        assert(hex_digits_value(seq![d0, d1]) == (hi as nat / 16) * 16 + hi as nat % 16);
        assert(hex_digits_value(seq![d0, d1, d2]) == ((hi as nat / 16) * 16 + hi as nat % 16) * 16
            + lo as nat / 16);
        assert(hex_digits_value(t) == (((hi as nat / 16) * 16 + hi as nat % 16) * 16 + lo as nat
            / 16) * 16 + lo as nat % 16);
        assert(hex_digits_value(t) == v) by (nonlinear_arith)
            requires
                hex_digits_value(t) == (((hi as nat / 16) * 16 + hi as nat % 16) * 16 + lo as nat
                    / 16) * 16 + lo as nat % 16,
                hi as nat == v as nat / 256,
                lo as nat == v as nat % 256,
                v < 65536,
        ;
    }
}

/// The left-built and the right-built texts agree.
proof fn lemma_segments_text_split(s: Seq<u16>, n: int)
    requires
        1 <= n <= 7,
    ensures
        segments_text(s, 8) == segments_text(s, n as nat) + seq![colon()] + segments_from(s, n),
    decreases 7 - n,
{
    if n < 7 {
        lemma_segments_text_split(s, n + 1);
        assert(segments_text(s, (n + 1) as nat) == segments_text(s, n as nat) + seq![colon()]
            + segment_text(s[n]));
        assert(segments_from(s, n) == segment_text(s[n]) + seq![colon()] + segments_from(s, n + 1));
        assert(segments_text(s, (n + 1) as nat) + seq![colon()] + segments_from(s, n + 1)
            =~= segments_text(s, n as nat) + seq![colon()] + segments_from(s, n));
    }
}

/// The text from segment `k` on: its first byte is a hex digit and every
/// colon in it is followed by a hex digit.
proof fn lemma_segments_from_shape(s: Seq<u16>, k: int)
    requires
        0 <= k <= 7,
    ensures
        segments_from(s, k).len() >= 1,
        is_hex_text_byte(segments_from(s, k)[0]),
        forall|i: int| 0 <= i < segments_from(s, k).len() ==> (#[trigger] segments_from(s, k)[i]
            == colon() ==> i + 1 < segments_from(s, k).len() && is_hex_text_byte(
            segments_from(s, k)[i + 1],
        )),
        forall|i: int| 0 <= i < segments_from(s, k).len() ==> (is_hex_text_byte(
            #[trigger] segments_from(s, k)[i],
        ) || segments_from(s, k)[i] == colon()),
    decreases 7 - k,
{
    lemma_segment_text(s[k]);
    let g = segment_text(s[k]);
    if k < 7 {
        lemma_segments_from_shape(s, k + 1);
        let rest = segments_from(s, k + 1);
        let t = segments_from(s, k);
        assert(t == g + seq![colon()] + rest);
        assert forall|i: int| 0 <= i < t.len() && #[trigger] t[i] == colon() implies i + 1
            < t.len() && is_hex_text_byte(t[i + 1]) by {
            if i < g.len() {
                assert(t[i] == g[i]);
            } else if i == g.len() {
                assert(t[i + 1] == rest[0]);
            } else {
                assert(t[i] == rest[i - g.len() - 1]);
                assert(t[i + 1] == rest[i - g.len()]);
            }
        }
        assert forall|i: int| 0 <= i < t.len() implies (is_hex_text_byte(#[trigger] t[i]) || t[i]
            == colon()) by {
            if i < g.len() {
                assert(t[i] == g[i]);
            } else if i > g.len() {
                assert(t[i] == rest[i - g.len() - 1]);
            }
        }
    }
}

/// A search for `::` in a text without one finds nothing.
proof fn lemma_no_double_colon(t: Seq<u8>, from: int)
    requires
        0 <= from,
        forall|i: int| 0 <= i < t.len() ==> (#[trigger] t[i] == colon() ==> i + 1 < t.len()
            && t[i + 1] != colon()),
    ensures
        find_double_colon(t, from) is None,
    decreases t.len() - from,
{
    if from + 1 < t.len() {
        lemma_no_double_colon(t, from + 1);
    }
}

/// Parsing the groups of `p + y` from inside `y` is parsing the groups of `y`.
proof fn lemma_fields_shift(p: Seq<u8>, y: Seq<u8>, pos: int, v4: bool)
    requires
        0 <= pos <= y.len(),
    ensures
        fields_from(p + y, p.len() + pos, v4) == fields_from(y, pos, v4),
    decreases y.len() - pos,
{
    let t = p + y;
    crate::round_trip::lemma_find_byte_shift(p, y, pos, colon());
    crate::bytes::lemma_find_byte_bounds(y, pos, colon());
    match crate::bytes::find_byte(y, pos, colon()) {
        None => {
            assert(t.subrange(p.len() + pos, t.len() as int) =~= y.subrange(pos, y.len() as int));
        },
        Some(c) => {
            assert(t.subrange(p.len() + pos, p.len() + c) =~= y.subrange(pos, c));
            lemma_fields_shift(p, y, c + 1, v4);
        },
    }
}

/// The groups of the text from segment `k` on are the segments from `k` on.
proof fn lemma_fields_of_segments(s: Seq<u16>, k: int)
    requires
        0 <= k <= 7,
        s.len() == 8,
    ensures
        fields_from(segments_from(s, k), 0, true) == Some(s.subrange(k, 8)),
    decreases 7 - k,
{
    lemma_segment_text(s[k]);
    let g = segment_text(s[k]);
    assert forall|i: int| 0 <= i < g.len() implies g[i] != colon() by {
        assert(is_hex_text_byte(g[i]));
    }
    if k == 7 {
        let t = segments_from(s, 7);
        crate::bytes::lemma_find_byte_at(t, 0, colon(), t.len() as int);
        assert(t.subrange(0, t.len() as int) =~= t);
        assert(s.subrange(7, 8) =~= seq![s[7]]);
    } else {
        let rest = segments_from(s, k + 1);
        let t = segments_from(s, k);
        let p = g + seq![colon()];
        assert(t =~= p + rest);
        crate::bytes::lemma_find_byte_at(t, 0, colon(), g.len() as int);
        assert(t.subrange(0, g.len() as int) =~= g);
        lemma_fields_of_segments(s, k + 1);
        lemma_fields_shift(p, rest, 0, true);
        assert(seq![s[k]] + s.subrange(k + 1, 8) =~= s.subrange(k, 8));
    }
}

/// Formatting an IPv6 address and parsing the text gives back all eight
/// segments.
pub proof fn lemma_ipv6_round_trip(s: Seq<u16>)
    requires
        s.len() == 8,
    ensures
        ipv6_of(ipv6_text(s)) == Some(s),
{
    lemma_segments_text_split(s, 1);
    reveal_with_fuel(segments_text, 2);
    let t = ipv6_text(s);
    assert(t == segments_from(s, 0));
    lemma_segments_from_shape(s, 0);
    assert forall|i: int| 0 <= i < t.len() && #[trigger] t[i] == colon() implies i + 1 < t.len()
        && t[i + 1] != colon() by {
        assert(is_hex_text_byte(t[i + 1]));
    }
    lemma_no_double_colon(t, 0);
    lemma_fields_of_segments(s, 0);
    assert(s.subrange(0, 8) =~= s);
}

} // verus!

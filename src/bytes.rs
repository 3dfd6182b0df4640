//! Byte-sequence helpers shared by the parsers and encoders.
use vstd::prelude::*;

verus! {

/// True if `p` is a prefix of `s`.
pub open spec fn is_prefix(p: Seq<u8>, s: Seq<u8>) -> bool {
    p.len() <= s.len() && s.subrange(0, p.len() as int) == p
}

/// True if `s[lo..hi]` equals `p`.
pub open spec fn range_is(s: Seq<u8>, lo: int, hi: int, p: Seq<u8>) -> bool {
    0 <= lo <= hi <= s.len() && s.subrange(lo, hi) == p
}

/// True if `b` is an ASCII decimal digit.
pub open spec fn is_digit(b: u8) -> bool {
    48 <= b <= 57
}

/// Value of a sequence of decimal digits (most significant first).
pub open spec fn digits_value(s: Seq<u8>) -> nat
    decreases s.len(),
{
    if s.len() == 0 {
        0
    } else {
        digits_value(s.drop_last()) * 10 + (s.last() - 48) as nat
    }
}

/// True if `s` is a non-empty run of decimal digits.
pub open spec fn all_digits(s: Seq<u8>) -> bool {
    s.len() > 0 && forall|i: int| 0 <= i < s.len() ==> is_digit(#[trigger] s[i])
}

/// The non-negative integer that `s` spells in decimal, if it fits a `usize`.
pub open spec fn decimal_of(s: Seq<u8>) -> Option<usize> {
    if all_digits(s) && digits_value(s) <= usize::MAX {
        Some(digits_value(s) as usize)
    } else {
        None
    }
}

/// A prefix of a digit run spells no more than the whole run.
proof fn lemma_digits_value_prefix_grows(s: Seq<u8>, i: int)
    requires
        0 <= i <= s.len(),
        forall|k: int| 0 <= k < s.len() ==> is_digit(#[trigger] s[k]),
    ensures
        digits_value(s.subrange(0, i)) <= digits_value(s),
    decreases s.len() - i,
{
    if i < s.len() {
        lemma_digits_value_prefix_grows(s, i + 1);
        assert(s.subrange(0, i + 1).drop_last() == s.subrange(0, i));
    } else {
        assert(s.subrange(0, i) == s);
    }
}

/// True if `s[lo..hi]` equals `p`.
pub fn range_eq(s: &[u8], lo: usize, hi: usize, p: &[u8]) -> (r: bool)
    ensures
        r == range_is(s@, lo as int, hi as int, p@),
{
    if lo > hi || hi > s.len() || hi - lo != p.len() {
        return false;
    }
    let mut i: usize = 0;
    while i < p.len()
        invariant
            lo <= hi <= s.len(),
            hi - lo == p.len(),
            i <= p.len(),
            forall|k: int| 0 <= k < i ==> s@[lo + k] == p@[k],
        decreases p.len() - i,
    {
        if s[lo + i] != p[i] {
            assert(s@.subrange(lo as int, hi as int)[i as int] != p@[i as int]);
            return false;
        }
        i = i + 1;
    }
    assert(s@.subrange(lo as int, hi as int) =~= p@);
    true
}

/// True if `p` is a prefix of `s`.
pub fn starts_with(s: &[u8], p: &[u8]) -> (r: bool)
    ensures
        r == is_prefix(p@, s@),
{
    if p.len() > s.len() {
        return false;
    }
    range_eq(s, 0, p.len(), p)
}

/// Parses `s[lo..hi]` as a decimal number that fits a `usize`.
pub fn parse_decimal(s: &[u8], lo: usize, hi: usize) -> (r: Option<usize>)
    requires
        lo <= hi <= s.len(),
    ensures
        r == decimal_of(s@.subrange(lo as int, hi as int)),
{
    let ghost d = s@.subrange(lo as int, hi as int);
    if lo == hi {
        return None;
    }
    let mut value: usize = 0;
    let mut i: usize = lo;
    while i < hi
        invariant
            lo <= i <= hi <= s.len(),
            d == s@.subrange(lo as int, hi as int),
            forall|k: int| lo <= k < i ==> is_digit(#[trigger] s@[k]),
            value as nat == digits_value(s@.subrange(lo as int, i as int)),
        decreases hi - i,
    {
        let b = s[i];
        if b < 48 || b > 57 {
            assert(!is_digit(d[i - lo]));
            return None;
        }
        let digit = (b - 48) as usize;
        assert(s@.subrange(lo as int, i + 1).drop_last() == s@.subrange(lo as int, i as int));
        if value > (usize::MAX - digit) / 10 {
            proof {
                let bigger = s@.subrange(lo as int, i + 1);
                assert(digits_value(bigger) == value * 10 + digit);
                assert(digits_value(bigger) > usize::MAX) by (nonlinear_arith)
                    requires
                        value > (usize::MAX - digit) / 10,
                        digits_value(bigger) == value * 10 + digit,
                        digit <= 9,
                ;
                assert(is_digit(s@[i as int]));
                lemma_rest_digits_or_none(s@, lo as int, i as int + 1, hi as int);
            }
            return None;
        }
        value = value * 10 + digit;
        i = i + 1;
    }
    assert(s@.subrange(lo as int, i as int) == d);
    Some(value)
}

/// Once a prefix of a digit field exceeds `usize`, the field has no value.
proof fn lemma_rest_digits_or_none(s: Seq<u8>, lo: int, j: int, hi: int)
    requires
        0 <= lo < j <= hi <= s.len(),
        digits_value(s.subrange(lo, j)) > usize::MAX,
        forall|k: int| lo <= k < j ==> is_digit(#[trigger] s[k]),
    ensures
        decimal_of(s.subrange(lo, hi)) is None,
{
    let d = s.subrange(lo, hi);
    if all_digits(d) {
        lemma_digits_value_prefix_grows(d, j - lo);
        assert(d.subrange(0, j - lo) == s.subrange(lo, j));
    }
}


/// Index of the first occurrence of `b` in `s` at or after `from`.
pub open spec fn find_byte(s: Seq<u8>, from: int, b: u8) -> Option<int>
    decreases s.len() - from,
{
    if from < 0 || from >= s.len() {
        None
    } else if s[from] == b {
        Some(from)
    } else {
        find_byte(s, from + 1, b)
    }
}

/// A found byte lies at or after the start of the search and holds `b`.
pub proof fn lemma_find_byte_bounds(s: Seq<u8>, from: int, b: u8)
    ensures
        match find_byte(s, from, b) {
            Some(i) => from <= i < s.len() && s[i] == b,
            None => true,
        },
    decreases s.len() - from,
{
    if 0 <= from < s.len() && s[from] != b {
        lemma_find_byte_bounds(s, from + 1, b);
    }
}

/// A found CR LF pair lies at or after the start of the search.
pub proof fn lemma_find_crlf_bounds(s: Seq<u8>, from: int)
    ensures
        match find_crlf(s, from) {
            Some(i) => from <= i && i + 1 < s.len() && s[i] == 13 && s[i + 1] == 10,
            None => true,
        },
    decreases s.len() - from,
{
    if 0 <= from && from + 1 < s.len() && !(s[from] == 13 && s[from + 1] == 10) {
        lemma_find_crlf_bounds(s, from + 1);
    }
}

/// A byte that is neither CR nor LF, when found, lies within the sequence.
pub proof fn lemma_first_non_newline_bounds(s: Seq<u8>, from: int)
    ensures
        match first_non_newline(s, from) {
            Some(i) => from <= i < s.len(),
            None => true,
        },
    decreases s.len() - from,
{
    if 0 <= from < s.len() && !(s[from] != 13 && s[from] != 10) {
        lemma_first_non_newline_bounds(s, from + 1);
    }
}

/// A search that meets no `b` before `k` and finds `b` at `k` returns `k`;
/// one that meets no `b` up to the end returns nothing.
pub proof fn lemma_find_byte_at(s: Seq<u8>, from: int, b: u8, k: int)
    requires
        0 <= from <= k <= s.len(),
        forall|i: int| from <= i < k ==> s[i] != b,
        k < s.len() ==> s[k] == b,
    ensures
        find_byte(s, from, b) == if k < s.len() {
            Some(k)
        } else {
            None::<int>
        },
    decreases k - from,
{
    if from < k {
        lemma_find_byte_at(s, from + 1, b, k);
    }
}

/// Index of the last occurrence of `b` in `s[..end]`.
pub open spec fn rfind_byte(s: Seq<u8>, end: int, b: u8) -> Option<int>
    decreases end,
{
    if end <= 0 || end > s.len() {
        None
    } else if s[end - 1] == b {
        Some(end - 1)
    } else {
        rfind_byte(s, end - 1, b)
    }
}

/// A byte found from the end lies before the end of the search.
pub proof fn lemma_rfind_byte_bounds(s: Seq<u8>, end: int, b: u8)
    ensures
        match rfind_byte(s, end, b) {
            Some(i) => 0 <= i < end && end <= s.len() && s[i] == b,
            None => true,
        },
    decreases end,
{
    if 0 < end <= s.len() && s[end - 1] != b {
        lemma_rfind_byte_bounds(s, end - 1, b);
    }
}

/// A search from the end that finds nothing saw no `b` at all.
pub proof fn lemma_rfind_byte_finds(s: Seq<u8>, end: int, b: u8, i: int)
    requires
        0 <= i < end <= s.len(),
        s[i] == b,
    ensures
        rfind_byte(s, end, b) is Some,
    decreases end,
{
    if s[end - 1] != b {
        lemma_rfind_byte_finds(s, end - 1, b, i);
    }
}

/// Index of the first CR LF pair in `s` that starts at or after `from`.
pub open spec fn find_crlf(s: Seq<u8>, from: int) -> Option<int>
    decreases s.len() - from,
{
    if from < 0 || from + 1 >= s.len() {
        None
    } else if s[from] == 13 && s[from + 1] == 10 {
        Some(from)
    } else {
        find_crlf(s, from + 1)
    }
}

/// Index of the first byte of `s` at or after `from` that is neither CR nor LF.
pub open spec fn first_non_newline(s: Seq<u8>, from: int) -> Option<int>
    decreases s.len() - from,
{
    if from < 0 || from >= s.len() {
        None
    } else if s[from] != 13 && s[from] != 10 {
        Some(from)
    } else {
        first_non_newline(s, from + 1)
    }
}

/// True if `p` occurs somewhere in `s`.
pub open spec fn contains(s: Seq<u8>, p: Seq<u8>) -> bool {
    exists|i: int| 0 <= i && i + p.len() <= s.len() && #[trigger] s.subrange(i, i + p.len()) == p
}

/// First index at or after `from` that holds `b`.
pub fn find_byte_from(s: &[u8], from: usize, b: u8) -> (r: Option<usize>)
    ensures
        match r {
            Some(i) => find_byte(s@, from as int, b) == Some(i as int),
            None => find_byte(s@, from as int, b) is None,
        },
{
    let mut i: usize = from;
    while i < s.len()
        invariant
            from <= i,
            find_byte(s@, from as int, b) == find_byte(s@, i as int, b),
        decreases s.len() - i,
    {
        if s[i] == b {
            return Some(i);
        }
        i = i + 1;
    }
    None
}

/// Last index before `end` that holds `b`.
pub fn rfind_byte_before(s: &[u8], end: usize, b: u8) -> (r: Option<usize>)
    requires
        end <= s.len(),
    ensures
        match r {
            Some(i) => rfind_byte(s@, end as int, b) == Some(i as int),
            None => rfind_byte(s@, end as int, b) is None,
        },
{
    let mut i: usize = end;
    while i > 0
        invariant
            i <= end <= s.len(),
            rfind_byte(s@, end as int, b) == rfind_byte(s@, i as int, b),
        decreases i,
    {
        if s[i - 1] == b {
            return Some(i - 1);
        }
        i = i - 1;
    }
    None
}

/// First index at or after `from` where a CR LF pair starts.
pub fn find_crlf_from(s: &[u8], from: usize) -> (r: Option<usize>)
    ensures
        match r {
            Some(i) => find_crlf(s@, from as int) == Some(i as int) && i + 1 < s.len(),
            None => find_crlf(s@, from as int) is None,
        },
{
    let mut i: usize = from;
    while i < s.len() && i + 1 < s.len()
        invariant
            from <= i,
            find_crlf(s@, from as int) == find_crlf(s@, i as int),
        decreases s.len() - i,
    {
        if s[i] == 13 && s[i + 1] == 10 {
            return Some(i);
        }
        i = i + 1;
    }
    None
}

/// First index at or after `from` whose byte is neither CR nor LF.
pub fn first_non_newline_from(s: &[u8], from: usize) -> (r: Option<usize>)
    ensures
        match r {
            Some(i) => first_non_newline(s@, from as int) == Some(i as int) && i < s.len(),
            None => first_non_newline(s@, from as int) is None,
        },
{
    let mut i: usize = from;
    while i < s.len()
        invariant
            from <= i,
            first_non_newline(s@, from as int) == first_non_newline(s@, i as int),
        decreases s.len() - i,
    {
        if s[i] != 13 && s[i] != 10 {
            return Some(i);
        }
        i = i + 1;
    }
    None
}

/// True if `p` occurs somewhere in `s[lo..hi]`.
pub fn range_contains(s: &[u8], lo: usize, hi: usize, p: &[u8]) -> (r: bool)
    requires
        lo <= hi <= s.len(),
    ensures
        r == contains(s@.subrange(lo as int, hi as int), p@),
{
    let ghost line = s@.subrange(lo as int, hi as int);
    if p.len() > hi - lo {
        return false;
    }
    let last: usize = hi - p.len();
    let mut i: usize = lo;
    while i <= last
        invariant
            lo <= i <= last + 1,
            last == hi - p.len(),
            p.len() <= hi - lo,
            hi <= s.len(),
            line == s@.subrange(lo as int, hi as int),
            forall|j: int| 0 <= j < i - lo ==> #[trigger] line.subrange(j, j + p.len()) != p@,
        decreases last + 1 - i,
    {
        if range_eq(s, i, i + p.len(), p) {
            assert(line.subrange(i - lo, i - lo + p.len()) == s@.subrange(i as int, i + p.len()));
            return true;
        }
        assert(line.subrange(i - lo, i - lo + p.len()) == s@.subrange(i as int, i + p.len()));
        if i == last {
            return false;
        }
        i = i + 1;
    }
    false
}

/// Copies `s[lo..hi]` into a new vector.
pub fn copy_range(s: &[u8], lo: usize, hi: usize) -> (r: Vec<u8>)
    requires
        lo <= hi <= s.len(),
    ensures
        r@ == s@.subrange(lo as int, hi as int),
{
    let mut out: Vec<u8> = Vec::new();
    let mut i: usize = lo;
    while i < hi
        invariant
            lo <= i <= hi <= s.len(),
            out@ == s@.subrange(lo as int, i as int),
        decreases hi - i,
    {
        out.push(s[i]);
        assert(out@ =~= s@.subrange(lo as int, i + 1));
        i = i + 1;
    }
    out
}

} // verus!

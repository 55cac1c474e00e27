//! Text helpers shared by the parsers: decimal rendering, UTF-8 decoding,
//! character search, Unicode whitespace trimming and integer parsing with the
//! grammar that `str::parse` accepts for Rust's integer types.

use vstd::prelude::*;
use vstd::utf8::*;

verus! {

// ─── Decimal rendering ─────────────────────────────────────────────────────

/// The decimal digit character for `d` (0..9).
pub open spec fn digit_char(d: nat) -> char {
    (('0' as u8) + d) as char
}

/// Decimal representation of a natural number, most significant digit first,
/// without leading zeros ("0" for zero).
pub open spec fn decimal(n: nat) -> Seq<char>
    decreases n,
{
    if n < 10 {
        seq![digit_char(n)]
    } else {
        decimal(n / 10).push(digit_char(n % 10))
    }
}

/// Decimal representation of an integer: a '-' before the digits of a negative value.
pub open spec fn signed_decimal(n: int) -> Seq<char> {
    if n < 0 {
        seq!['-'].add(decimal((-n) as nat))
    } else {
        decimal(n as nat)
    }
}

/// The decimal text of an unsigned 64-bit integer, as `u64::to_string`
/// writes it.
pub fn u64_decimal(n: u64) -> (s: String)
    ensures
        s@ == decimal(n as nat),
    decreases n,
{
    let d: u8 = (n % 10) as u8;
    let c: char = (48u8 + d) as char;
    assert(c == digit_char((n % 10) as nat));
    if n < 10 {
        let mut s = String::new();
        push_char(&mut s, c);
        assert(s@ =~= seq![c]);
        s
    } else {
        let mut s = u64_decimal(n / 10);
        push_char(&mut s, c);
        s
    }
}

/// The decimal text of a signed 64-bit integer, as `i64::to_string` writes
/// it: a '-' before the digits of a negative value.
pub fn i64_decimal(n: i64) -> (s: String)
    ensures
        s@ == signed_decimal(n as int),
{
    if n < 0 {
        let m: u64 = (-(n as i128)) as u64;
        let digits = u64_decimal(m);
        let mut s = String::new();
        push_char(&mut s, '-');
        let dv = chars_of(digits.as_str());
        push_chars(&mut s, dv.as_slice());
        assert(s@ =~= seq!['-'].add(decimal((-n) as nat)));
        s
    } else {
        u64_decimal(n as u64)
    }
}

/// `n` zero-padded to at least `width` characters, the way `{:0width$}`
/// formats an integer: the sign comes first and counts toward the width.
pub open spec fn zero_padded(n: int, width: nat) -> Seq<char> {
    let digits = decimal(if n < 0 { (-n) as nat } else { n as nat });
    let sign: Seq<char> = if n < 0 { seq!['-'] } else { seq![] };
    let used = sign.len() + digits.len();
    let pad: nat = if used < width { (width - used) as nat } else { 0 };
    sign + Seq::new(pad, |i: int| '0') + digits
}

/// Renders `n` zero-padded to at least `width` characters.
pub fn zero_padded_string(n: i64, width: usize) -> (s: String)
    ensures
        s@ == zero_padded(n as int, width as nat),
{
    let mag: u64 = if n < 0 {
        (0i128 - n as i128) as u64
    } else {
        n as u64
    };
    let digits = u64_decimal(mag);
    let dv = chars_of(digits.as_str());
    let mut s = String::new();
    let d: usize = dv.len();
    let sgn: usize = if n < 0 {
        1
    } else {
        0
    };
    if n < 0 {
        push_char(&mut s, '-');
    }
    let ghost sign: Seq<char> = if n < 0 { seq!['-'] } else { seq![] };
    assert(s@ == sign);
    let pad: usize = if d < width && width - d > sgn {
        width - d - sgn
    } else {
        0
    };
    let mut k: usize = 0;
    while k < pad
        invariant
            0 <= k <= pad,
            s@ == sign + Seq::new(k as nat, |i: int| '0'),
        decreases pad - k,
    {
        push_char(&mut s, '0');
        k = k + 1;
        assert(s@ =~= sign + Seq::new(k as nat, |i: int| '0'));
    }
    append_str(&mut s, digits.as_str());
    s
}

// ─── UTF-8 ─────────────────────────────────────────────────────────────────

/// The text that `String::from_utf8_lossy` decodes from a byte sequence
/// (every ill-formed subsequence becomes U+FFFD).
pub uninterp spec fn utf8_lossy(bytes: Seq<u8>) -> Seq<char>;

/// std's `String::from_utf8_lossy`, taken as an owned `String`. On valid UTF-8
/// it decodes exactly; otherwise its result is named by `utf8_lossy`.
#[verifier::external_body]
pub fn string_from_utf8_lossy(bytes: &[u8]) -> (s: String)
    ensures
        s@ == utf8_lossy(bytes@),
        valid_utf8(bytes@) ==> s@ == decode_utf8(bytes@),
{
    String::from_utf8_lossy(bytes).into_owned()
}

/// std's `str::from_utf8`: succeeds exactly on valid UTF-8 and then decodes it.
#[verifier::external_body]
pub fn string_from_utf8(bytes: &[u8]) -> (r: Option<String>)
    ensures
        r is Some <==> valid_utf8(bytes@),
        r matches Some(s) ==> s@ == decode_utf8(bytes@),
{
    match std::str::from_utf8(bytes) {
        Ok(s) => Some(s.to_string()),
        Err(_) => None,
    }
}

/// std's `String::push`.
#[verifier::external_body]
pub fn push_char(s: &mut String, c: char)
    ensures
        final(s)@ == old(s)@.push(c),
{
    s.push(c);
}

/// The characters of a string slice, in order.
pub fn chars_of(s: &str) -> (v: Vec<char>)
    ensures
        v@ == s@,
{
    let mut v: Vec<char> = Vec::new();
    for c in it: s.chars()
        invariant
            v@ == it.seq().take(it.index() as int),
            it.seq() == s@,
    {
        v.push(c);
    }
    v
}

/// Builds a `String` from the characters `v[lo..hi]`.
pub fn string_from_chars(v: &[char], lo: usize, hi: usize) -> (s: String)
    requires
        lo <= hi <= v@.len(),
    ensures
        s@ == v@.subrange(lo as int, hi as int),
{
    let mut s = String::new();
    let mut i = lo;
    while i < hi
        invariant
            lo <= i <= hi <= v@.len(),
            s@ == v@.subrange(lo as int, i as int),
        decreases hi - i,
    {
        push_char(&mut s, v[i]);
        i = i + 1;
    }
    s
}

/// Appends the characters of `t` to `s`.
pub fn append_str(s: &mut String, t: &str)
    ensures
        final(s)@ == old(s)@ + t@,
{
    let v = chars_of(t);
    let mut i: usize = 0;
    while i < v.len()
        invariant
            i <= v@.len(),
            v@ == t@,
            s@ == old(s)@ + v@.take(i as int),
        decreases v@.len() - i,
    {
        push_char(s, v[i]);
        i = i + 1;
        assert(v@.take(i as int) == v@.take((i - 1) as int).push(v@[i - 1]));
    }
    assert(v@.take(v@.len() as int) == v@);
}

/// Appends the characters `v` to `s`.
pub fn push_chars(s: &mut String, v: &[char])
    ensures
        final(s)@ == old(s)@ + v@,
{
    let mut i: usize = 0;
    while i < v.len()
        invariant
            i <= v@.len(),
            s@ == old(s)@ + v@.take(i as int),
        decreases v@.len() - i,
    {
        push_char(s, v[i]);
        i = i + 1;
        assert(v@.take(i as int) =~= v@.take((i - 1) as int).push(v@[i - 1]));
    }
    assert(v@.take(v@.len() as int) =~= v@);
}

/// Whether two byte sequences are equal.
pub fn bytes_equal(a: &[u8], b: &[u8]) -> (r: bool)
    ensures
        r == (a@ == b@),
{
    if a.len() != b.len() {
        return false;
    }
    let mut i: usize = 0;
    while i < a.len()
        invariant
            i <= a@.len(),
            a@.len() == b@.len(),
            forall|j: int| 0 <= j < i ==> a@[j] == b@[j],
        decreases a@.len() - i,
    {
        if a[i] != b[i] {
            return false;
        }
        i = i + 1;
    }
    assert(a@ =~= b@);
    true
}

/// Whether two character sequences are equal.
pub fn chars_equal(a: &[char], b: &[char]) -> (r: bool)
    ensures
        r == (a@ == b@),
{
    if a.len() != b.len() {
        return false;
    }
    let mut i: usize = 0;
    while i < a.len()
        invariant
            i <= a@.len(),
            a@.len() == b@.len(),
            forall|j: int| 0 <= j < i ==> a@[j] == b@[j],
        decreases a@.len() - i,
    {
        if a[i] != b[i] {
            return false;
        }
        i = i + 1;
    }
    assert(a@ =~= b@);
    true
}

/// Whether two strings hold the same characters.
pub fn str_equals(a: &str, b: &str) -> (r: bool)
    ensures
        r == (a@ == b@),
{
    let va = chars_of(a);
    let vb = chars_of(b);
    chars_equal(va.as_slice(), vb.as_slice())
}

// ─── Searching ─────────────────────────────────────────────────────────────

/// `needle` occurs in `hay` starting at index `i`.
pub open spec fn occurs_at<T>(hay: Seq<T>, needle: Seq<T>, i: int) -> bool {
    0 <= i && i + needle.len() <= hay.len() && hay.subrange(i, i + needle.len()) == needle
}

/// The result of a search is the least occurrence at or after `from`.
pub open spec fn is_first_occurrence<T>(hay: Seq<T>, needle: Seq<T>, from: int, r: Option<usize>) -> bool {
    match r {
        Some(i) => from <= i && occurs_at(hay, needle, i as int)
            && forall|j: int| from <= j < i ==> !occurs_at(hay, needle, j),
        None => forall|j: int| from <= j ==> !occurs_at(hay, needle, j),
    }
}

fn chars_match_at(hay: &[char], needle: &[char], i: usize) -> (b: bool)
    requires
        i + needle@.len() <= hay@.len(),
    ensures
        b == occurs_at(hay@, needle@, i as int),
{
    let mut k: usize = 0;
    while k < needle.len()
        invariant
            i + needle@.len() <= hay@.len(),
            k <= needle@.len(),
                forall|m: int| 0 <= m < k ==> hay@[i + m] == needle@[m],
        decreases needle@.len() - k,
    {
        assert(i + k < hay@.len() == hay.len());
        if hay[i + k] != needle[k] {
            assert(hay@.subrange(i as int, i + needle@.len())[k as int] != needle@[k as int]);
            return false;
        }
        k = k + 1;
    }
    assert(hay@.subrange(i as int, i + needle@.len()) =~= needle@);
    true
}

pub fn bytes_match_at(hay: &[u8], needle: &[u8], i: usize) -> (b: bool)
    requires
        i + needle@.len() <= hay@.len(),
    ensures
        b == occurs_at(hay@, needle@, i as int),
{
    let mut k: usize = 0;
    while k < needle.len()
        invariant
            i + needle@.len() <= hay@.len(),
            k <= needle@.len(),
                forall|m: int| 0 <= m < k ==> hay@[i + m] == needle@[m],
        decreases needle@.len() - k,
    {
        assert(i + k < hay@.len() == hay.len());
        if hay[i + k] != needle[k] {
            assert(hay@.subrange(i as int, i + needle@.len())[k as int] != needle@[k as int]);
            return false;
        }
        k = k + 1;
    }
    assert(hay@.subrange(i as int, i + needle@.len()) =~= needle@);
    true
}

/// Finds the first occurrence of a non-empty `needle` in `hay` at or after `from`.
pub fn find_from(hay: &[char], needle: &[char], from: usize) -> (r: Option<usize>)
    ensures
        is_first_occurrence(hay@, needle@, from as int, r),
{
    if needle.len() > hay.len() {
        return None;
    }
    let last = hay.len() - needle.len();
    let mut i = from;
    while i <= last
        invariant
            last == hay@.len() - needle@.len(),
            from <= i,
            forall|j: int| from <= j < i ==> !occurs_at(hay@, needle@, j),
        decreases last + 1 - i,
    {
        if chars_match_at(hay, needle, i) {
            return Some(i);
        }
        if i == last {
            return None;
        }
        i = i + 1;
    }
    None
}

/// Byte-level counterpart of `find_from`.
pub fn find_bytes_from(hay: &[u8], needle: &[u8], from: usize) -> (r: Option<usize>)
    ensures
        is_first_occurrence(hay@, needle@, from as int, r),
{
    if needle.len() > hay.len() {
        return None;
    }
    let last = hay.len() - needle.len();
    let mut i = from;
    while i <= last
        invariant
            last == hay@.len() - needle@.len(),
            from <= i,
            forall|j: int| from <= j < i ==> !occurs_at(hay@, needle@, j),
        decreases last + 1 - i,
    {
        if bytes_match_at(hay, needle, i) {
            return Some(i);
        }
        if i == last {
            return None;
        }
        i = i + 1;
    }
    None
}

/// Index of the last occurrence of `c` in `v[lo..hi]`.
pub fn rfind_char(v: &[char], lo: usize, hi: usize, c: char) -> (r: Option<usize>)
    requires
        lo <= hi <= v@.len(),
    ensures
        r matches Some(i) ==> lo <= i < hi && v@[i as int] == c
            && forall|j: int| i < j < hi ==> v@[j] != c,
        r is None ==> forall|j: int| lo <= j < hi ==> v@[j] != c,
{
    let mut i = hi;
    while i > lo
        invariant
            lo <= i <= hi <= v@.len(),
            forall|j: int| i <= j < hi ==> v@[j] != c,
        decreases i - lo,
    {
        if v[i - 1] == c {
            return Some(i - 1);
        }
        i = i - 1;
    }
    None
}

// ─── Whitespace ────────────────────────────────────────────────────────────

/// Unicode `White_Space` (what `char::is_whitespace` and `str::trim` use).
pub open spec fn is_ws(c: char) -> bool {
    let u = c as u32;
    (0x09 <= u <= 0x0D) || u == 0x20 || u == 0x85 || u == 0xA0 || u == 0x1680
        || (0x2000 <= u <= 0x200A) || u == 0x2028 || u == 0x2029 || u == 0x202F
        || u == 0x205F || u == 0x3000
}

/// std's `char::is_whitespace`, written out over the code point.
pub fn is_whitespace(c: char) -> (b: bool)
    ensures
        b == is_ws(c),
{
    let u = c as u32;
    (0x09 <= u && u <= 0x0D) || u == 0x20 || u == 0x85 || u == 0xA0 || u == 0x1680
        || (0x2000 <= u && u <= 0x200A) || u == 0x2028 || u == 0x2029 || u == 0x202F
        || u == 0x205F || u == 0x3000
}

/// Start of `s` after its leading whitespace.
pub open spec fn trim_start_index(s: Seq<char>) -> int
    decreases s.len(),
{
    if s.len() > 0 && is_ws(s[0]) {
        1 + trim_start_index(s.subrange(1, s.len() as int))
    } else {
        0
    }
}

/// End of `s` before its trailing whitespace.
pub open spec fn trim_end_index(s: Seq<char>) -> int
    decreases s.len(),
{
    if s.len() > 0 && is_ws(s.last()) {
        trim_end_index(s.drop_last())
    } else {
        s.len() as int
    }
}

/// `str::trim`: `s` without leading and trailing whitespace.
pub open spec fn trim(s: Seq<char>) -> Seq<char> {
    let t = s.subrange(trim_start_index(s), s.len() as int);
    t.subrange(0, trim_end_index(t))
}

proof fn lemma_trim_start_bounds(s: Seq<char>)
    ensures
        0 <= trim_start_index(s) <= s.len(),
    decreases s.len(),
{
    if s.len() > 0 && is_ws(s[0]) {
        lemma_trim_start_bounds(s.subrange(1, s.len() as int));
    }
}

proof fn lemma_trim_end_bounds(s: Seq<char>)
    ensures
        0 <= trim_end_index(s) <= s.len(),
    decreases s.len(),
{
    if s.len() > 0 && is_ws(s.last()) {
        lemma_trim_end_bounds(s.drop_last());
    }
}

/// The bounds `(a, b)` of `trim(v[lo..hi])` inside `v`.
pub fn trim_range(v: &[char], lo: usize, hi: usize) -> (r: (usize, usize))
    requires
        lo <= hi <= v@.len(),
    ensures
        lo <= r.0 <= r.1 <= hi,
        v@.subrange(r.0 as int, r.1 as int) == trim(v@.subrange(lo as int, hi as int)),
{
    let ghost s = v@.subrange(lo as int, hi as int);
    let mut a = lo;
    while a < hi && is_whitespace(v[a])
        invariant
            lo <= a <= hi <= v@.len(),
            s == v@.subrange(lo as int, hi as int),
            trim_start_index(s) == (a - lo) + trim_start_index(v@.subrange(a as int, hi as int)),
        decreases hi - a,
    {
        assert(v@.subrange(a as int, hi as int).subrange(1, (hi - a) as int) =~= v@.subrange(a + 1, hi as int));
        a = a + 1;
    }
    assert(trim_start_index(v@.subrange(a as int, hi as int)) == 0);
    let ghost t = s.subrange(trim_start_index(s), s.len() as int);
    assert(t =~= v@.subrange(a as int, hi as int));
    let mut b = hi;
    while b > a && is_whitespace(v[b - 1])
        invariant
            lo <= a <= b <= hi <= v@.len(),
            t == v@.subrange(a as int, hi as int),
            trim_end_index(t) == trim_end_index(v@.subrange(a as int, b as int)),
        decreases b - a,
    {
        assert(v@.subrange(a as int, b as int).drop_last() =~= v@.subrange(a as int, b - 1));
        b = b - 1;
    }
    assert(trim_end_index(v@.subrange(a as int, b as int)) == b - a);
    assert(t.subrange(0, (b - a) as int) =~= v@.subrange(a as int, b as int));
    (a, b)
}

/// `s.trim().to_string()` over a character range.
pub fn trimmed_string(v: &[char], lo: usize, hi: usize) -> (s: String)
    requires
        lo <= hi <= v@.len(),
    ensures
        s@ == trim(v@.subrange(lo as int, hi as int)),
{
    let (a, b) = trim_range(v, lo, hi);
    string_from_chars(v, a, b)
}

// ─── Integer parsing ───────────────────────────────────────────────────────

pub open spec fn is_digit(c: char) -> bool {
    '0' <= c <= '9'
}

pub open spec fn all_digits(s: Seq<char>) -> bool {
    forall|i: int| 0 <= i < s.len() ==> is_digit(#[trigger] s[i])
}

/// Value of a string of decimal digits.
pub open spec fn digits_value(s: Seq<char>) -> nat
    decreases s.len(),
{
    if s.len() == 0 {
        0
    } else {
        digits_value(s.drop_last()) * 10 + ((s.last() as u32 - '0' as u32) as nat)
    }
}

/// What `str::parse` gives for an integer type whose range is `[min, max]`:
/// an optional '+' (or '-' where `min < 0`), then one or more decimal digits,
/// nothing else, and a value inside the range.
pub open spec fn parse_int_spec(s: Seq<char>, min: int, max: int) -> Option<int> {
    let neg = s.len() > 0 && s[0] == '-';
    let signed = s.len() > 0 && (s[0] == '-' || s[0] == '+');
    let body = if signed { s.subrange(1, s.len() as int) } else { s };
    let v: int = if neg { -(digits_value(body) as int) } else { digits_value(body) as int };
    if body.len() == 0 || !all_digits(body) || (neg && min >= 0) || v < min || v > max {
        None
    } else {
        Some(v)
    }
}

proof fn lemma_digits_value_grows(s: Seq<char>, c: char)
    requires
        is_digit(c),
    ensures
        digits_value(s.push(c)) == digits_value(s) * 10 + (c as u32 - '0' as u32),
        digits_value(s.push(c)) >= digits_value(s),
{
    assert(s.push(c).drop_last() =~= s);
}

proof fn lemma_digits_value_monotone(s: Seq<char>, t: Seq<char>)
    requires
        all_digits(s + t),
    ensures
        digits_value(s + t) >= digits_value(s),
    decreases t.len(),
{
    if t.len() > 0 {
        assert((s + t).drop_last() =~= s + t.drop_last());
        assert(all_digits(s + t.drop_last())) by {
            assert forall|i: int| 0 <= i < (s + t.drop_last()).len() implies is_digit(#[trigger] (s + t.drop_last())[i]) by {
                assert((s + t.drop_last())[i] == (s + t)[i]);
            }
        }
        lemma_digits_value_monotone(s, t.drop_last());
    }
}

/// Parses `v[lo..hi]` as an integer of the range `[min, max]`, as `str::parse` does.
pub fn parse_int(v: &[char], lo: usize, hi: usize, min: i128, max: i128) -> (r: Option<i128>)
    requires
        lo <= hi <= v@.len(),
        -0x1_0000_0000_0000_0000 <= min <= 0 <= max <= 0x1_0000_0000_0000_0000,
    ensures
        r matches Some(x) ==> parse_int_spec(v@.subrange(lo as int, hi as int), min as int, max as int) == Some(x as int),
        r is None ==> parse_int_spec(v@.subrange(lo as int, hi as int), min as int, max as int) is None,
{
    let ghost s = v@.subrange(lo as int, hi as int);
    if lo == hi {
        return None;
    }
    let neg = v[lo] == '-';
    let signed = neg || v[lo] == '+';
    assert(s[0] == v@[lo as int]);
    let start = if signed { lo + 1 } else { lo };
    let ghost body = v@.subrange(start as int, hi as int);
    assert(body =~= (if signed { s.subrange(1, s.len() as int) } else { s }));
    if start == hi {
        return None;
    }
    if neg && min >= 0 {
        return None;
    }
    let mut acc: i128 = 0;
    let mut i = start;
    while i < hi
        invariant
            lo <= start <= i <= hi <= v@.len(),
            body == v@.subrange(start as int, hi as int),
            s == v@.subrange(lo as int, hi as int),
            s.len() > 0,
            neg == (s[0] == '-'),
            signed == (s[0] == '-' || s[0] == '+'),
            body == (if signed { s.subrange(1, s.len() as int) } else { s }),
            !(neg && min >= 0),
            -0x1_0000_0000_0000_0000 <= min <= 0 <= max <= 0x1_0000_0000_0000_0000,
            all_digits(v@.subrange(start as int, i as int)),
            acc == digits_value(v@.subrange(start as int, i as int)),
            0 <= acc <= 0x1_0000_0000_0000_0000,
        decreases hi - i,
    {
        let c = v[i];
        if !('0' <= c && c <= '9') {
            assert(body[i - start] == c);
            assert(!is_digit(body[i - start]));
            assert(!all_digits(body));
            return None;
        }
        let d = (c as u32 - '0' as u32) as i128;
        proof {
            assert(v@.subrange(start as int, i + 1) =~= v@.subrange(start as int, i as int).push(c));
            lemma_digits_value_grows(v@.subrange(start as int, i as int), c);
        }
        let next = acc * 10 + d;
        if next > 0x1_0000_0000_0000_0000 {
            // Every further digit only grows the value, and any other character fails the parse.
            proof {
                if all_digits(body) {
                    assert(body =~= v@.subrange(start as int, i + 1) + v@.subrange(i + 1, hi as int));
                    lemma_digits_value_monotone(v@.subrange(start as int, i + 1), v@.subrange(i + 1, hi as int));
                }
            }
            return None;
        }
        acc = next;
        i = i + 1;
    }
    assert(v@.subrange(start as int, i as int) == body);
    let value: i128 = if neg { -acc } else { acc };
    if value < min || value > max {
        return None;
    }
    Some(value)
}

// ─── Float literals ────────────────────────────────────────────────────────

/// ASCII lowercase of a character.
pub open spec fn lower(c: char) -> char {
    if 'A' <= c <= 'Z' {
        ((c as u32) + 32) as char
    } else {
        c
    }
}

/// The first index of `c` in `s`.
pub open spec fn index_of(s: Seq<char>, c: char) -> Option<int>
    decreases s.len(),
{
    if s.len() == 0 {
        None
    } else {
        match index_of(s.drop_last(), c) {
            Some(i) => Some(i),
            None => if s.last() == c {
                Some(s.len() - 1)
            } else {
                None
            },
        }
    }
}

/// `s` without a leading sign.
pub open spec fn unsigned_part(s: Seq<char>) -> Seq<char> {
    if s.len() > 0 && (s[0] == '+' || s[0] == '-') {
        s.skip(1)
    } else {
        s
    }
}

/// `Digit+ | Digit+ '.' Digit* | Digit* '.' Digit+`.
pub open spec fn mantissa_ok(m: Seq<char>) -> bool {
    match index_of(m, '.') {
        None => m.len() > 0 && all_digits(m),
        Some(d) => all_digits(m.take(d)) && all_digits(m.skip(d + 1)) && (d > 0 || m.len() > d + 1),
    }
}

/// A decimal number with an optional exponent `e Sign? Digit+` (lowercased).
pub open spec fn number_ok(b: Seq<char>) -> bool {
    match index_of(b, 'e') {
        None => mantissa_ok(b),
        Some(e) => mantissa_ok(b.take(e)) && unsigned_part(b.skip(e + 1)).len() > 0 && all_digits(
            unsigned_part(b.skip(e + 1)),
        ),
    }
}

/// Whether `str::parse` accepts `s` as a floating-point number: after
/// lowercasing, an optional sign and then `inf`, `infinity`, `nan` or a
/// decimal number with an optional exponent.
pub open spec fn is_float_literal(s: Seq<char>) -> bool {
    let b = unsigned_part(s.map_values(|c: char| lower(c)));
    b == "inf"@ || b == "infinity"@ || b == "nan"@ || number_ok(b)
}

/// Whether the text, lowercased and without its sign, is `inf`, `infinity`
/// or `nan`: the texts `str::parse` reads as an infinity or a NaN.
pub open spec fn special_float_word(s: Seq<char>) -> bool {
    let b = unsigned_part(s.map_values(|c: char| lower(c)));
    b == "inf"@ || b == "infinity"@ || b == "nan"@
}

pub proof fn lemma_index_of(s: Seq<char>, c: char, i: int)
    requires
        0 <= i <= s.len(),
        forall|j: int| 0 <= j < i ==> s[j] != c,
    ensures
        i < s.len() && s[i] == c ==> index_of(s, c) == Some(i),
        i == s.len() ==> index_of(s, c) is None,
    decreases s.len(),
{
    if s.len() > 0 {
        if i < s.len() && s[i] == c {
            lemma_index_of(s.drop_last(), c, i);
        } else if i == s.len() {
            lemma_index_of(s.drop_last(), c, i - 1);
        }
    }
}

pub fn index_of_exec(s: &[char], c: char) -> (r: Option<usize>)
    ensures
        match r {
            Some(i) => index_of(s@, c) == Some(i as int) && i < s@.len(),
            None => index_of(s@, c) is None,
        },
{
    let mut i: usize = 0;
    while i < s.len()
        invariant
            i <= s@.len(),
            forall|j: int| 0 <= j < i ==> s@[j] != c,
        decreases s@.len() - i,
    {
        if s[i] == c {
            proof {
                lemma_index_of(s@, c, i as int);
            }
            return Some(i);
        }
        i = i + 1;
    }
    proof {
        lemma_index_of(s@, c, i as int);
    }
    None
}

fn all_digits_exec(s: &[char], lo: usize, hi: usize) -> (r: bool)
    requires
        lo <= hi <= s@.len(),
    ensures
        r == all_digits(s@.subrange(lo as int, hi as int)),
{
    let mut i = lo;
    while i < hi
        invariant
            lo <= i <= hi <= s@.len(),
            forall|j: int| lo <= j < i ==> is_digit(s@[j]),
        decreases hi - i,
    {
        if !('0' <= s[i] && s[i] <= '9') {
            assert(!is_digit(s@.subrange(lo as int, hi as int)[i - lo]));
            return false;
        }
        i = i + 1;
    }
    assert forall|j: int| 0 <= j < s@.subrange(lo as int, hi as int).len() implies is_digit(
        #[trigger] s@.subrange(lo as int, hi as int)[j],
    ) by {
        assert(s@.subrange(lo as int, hi as int)[j] == s@[lo + j]);
    }
    true
}

fn mantissa_ok_exec(m: &[char]) -> (r: bool)
    ensures
        r == mantissa_ok(m@),
{
    match index_of_exec(m, '.') {
        None => {
            let ok = m.len() > 0 && all_digits_exec(m, 0, m.len());
            assert(m@.subrange(0, m@.len() as int) =~= m@);
            ok
        },
        Some(d) => {
            assert(d < m@.len() && m@.len() == m.len());
            let a = all_digits_exec(m, 0, d);
            let b = all_digits_exec(m, d + 1, m.len());
            assert(m@.subrange(0, d as int) =~= m@.take(d as int));
            assert(m@.subrange(d + 1, m@.len() as int) =~= m@.skip(d + 1));
            a && b && (d > 0 || m.len() > d + 1)
        },
    }
}

pub fn slice_vec(v: &[char], lo: usize, hi: usize) -> (r: Vec<char>)
    requires
        lo <= hi <= v@.len(),
    ensures
        r@ == v@.subrange(lo as int, hi as int),
{
    let mut out: Vec<char> = Vec::new();
    let mut i = lo;
    while i < hi
        invariant
            lo <= i <= hi <= v@.len(),
            out@ == v@.subrange(lo as int, i as int),
        decreases hi - i,
    {
        out.push(v[i]);
        i = i + 1;
        assert(out@ =~= v@.subrange(lo as int, i as int));
    }
    out
}

fn number_ok_exec(b: &[char]) -> (r: bool)
    ensures
        r == number_ok(b@),
{
    match index_of_exec(b, 'e') {
        None => mantissa_ok_exec(b),
        Some(e) => {
            assert(e < b@.len() && b@.len() == b.len());
            let m = slice_vec(b, 0, e);
            assert(m@ =~= b@.take(e as int));
            let start: usize = if e + 1 < b.len() && (b[e + 1] == '+' || b[e + 1] == '-') {
                e + 2
            } else {
                e + 1
            };
            let ghost x = b@.skip(e + 1);
            assert(b@.subrange(start as int, b@.len() as int) =~= unsigned_part(x));
            let exp_ok = start < b.len() && all_digits_exec(b, start, b.len());
            mantissa_ok_exec(m.as_slice()) && exp_ok
        },
    }
}

/// Whether `str::parse` accepts `v` as a floating-point number.
/// `v` lowercased, without a leading sign.
fn unsigned_lower(v: &[char]) -> (b: Vec<char>)
    ensures
        b@ == unsigned_part(v@.map_values(|c: char| lower(c))),
{
    let mut low: Vec<char> = Vec::new();
    let mut i: usize = 0;
    while i < v.len()
        invariant
            i <= v@.len(),
            low@ == v@.take(i as int).map_values(|c: char| lower(c)),
        decreases v@.len() - i,
    {
        let c = v[i];
        let l = if 'A' <= c && c <= 'Z' {
            ((c as u32) + 32) as u8 as char
        } else {
            c
        };
        assert(l == lower(c)) by {
            if 'A' <= c && c <= 'Z' {
                assert(((c as u32) + 32) < 256);
            }
        }
        low.push(l);
        i = i + 1;
        assert(low@ =~= v@.take(i as int).map_values(|c: char| lower(c)));
    }
    assert(v@.take(i as int) =~= v@);
    let start: usize = if low.len() > 0 && (low[0] == '+' || low[0] == '-') {
        1
    } else {
        0
    };
    let b = slice_vec(low.as_slice(), start, low.len());
    assert(b@ =~= unsigned_part(v@.map_values(|c: char| lower(c))));
    b
}

/// Whether `v` is `inf`, `infinity` or `nan` in any case, with an optional sign.
pub fn is_special_float_word_exec(v: &[char]) -> (r: bool)
    ensures
        r == special_float_word(v@),
{
    let b = unsigned_lower(v);
    let inf = chars_of("inf");
    let infinity = chars_of("infinity");
    let nan = chars_of("nan");
    chars_equal(b.as_slice(), inf.as_slice()) || chars_equal(b.as_slice(), infinity.as_slice())
        || chars_equal(b.as_slice(), nan.as_slice())
}

pub fn is_float_literal_exec(v: &[char]) -> (r: bool)
    ensures
        r == is_float_literal(v@),
{
    let b = unsigned_lower(v);
    let inf = chars_of("inf");
    let infinity = chars_of("infinity");
    let nan = chars_of("nan");
    chars_equal(b.as_slice(), inf.as_slice()) || chars_equal(b.as_slice(), infinity.as_slice())
        || chars_equal(b.as_slice(), nan.as_slice()) || number_ok_exec(b.as_slice())
}

} // verus!

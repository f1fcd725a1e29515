use vstd::prelude::*;

use crate::models::sentinel::Sentinel;
use vstd::string::StringSliceAdditionalSpecFns;
use crate::models::text::{clock_text, decimal, digit_char, format_clock, padded};
use vstd::utf8::{encode_utf8, is_ascii_chars, is_ascii_chars_encode_utf8};

verus! {

/// Seconds since the start of the service day; GTFS times go past 24 hours
/// when a trip runs past midnight.
#[derive(Debug, Clone, Copy, PartialEq, Eq, Structural, Hash, PartialOrd, Ord)]
pub struct Time(pub u32);

/// A length of time in seconds.
#[derive(Debug, Clone, Copy, PartialEq, Eq, Structural, Hash)]
pub struct Duration(pub u32);

/// A signed deviation from the schedule in seconds.
#[derive(Debug, Clone, Copy, PartialEq, Eq, Structural, Hash, Default)]
pub struct Delay(pub i16);

/// `x + y`, or `u32::MAX` where that does not fit.
pub open spec fn sat_add(x: int, y: int) -> u32 {
    if x + y > u32::MAX {
        u32::MAX
    } else {
        (x + y) as u32
    }
}

/// `x - y`, or 0 where that is negative.
pub open spec fn sat_sub(x: int, y: int) -> u32 {
    if x - y < 0 {
        0
    } else {
        (x - y) as u32
    }
}

/// The byte is an ASCII decimal digit.
pub open spec fn is_digit(b: u8) -> bool {
    48 <= b <= 57
}

/// The number written by a string of ASCII digits.
pub open spec fn digits_value(d: Seq<u8>) -> nat
    decreases d.len(),
{
    if d.len() == 0 {
        0
    } else {
        digits_value(d.drop_last()) * 10 + (d.last() - 48) as nat
    }
}

/// What `str::parse::<u32>` gives for `f`: an optional `+` followed by at
/// least one digit, whose value fits in 32 bits.
pub open spec fn parse_u32(f: Seq<u8>) -> Option<u32> {
    let d = unsigned_part(f);
    if d.len() == 0 || !all_digits(d) || digits_value(d) > u32::MAX {
        None
    } else {
        Some(digits_value(d) as u32)
    }
}

/// The text after an optional leading `+`.
pub open spec fn unsigned_part(f: Seq<u8>) -> Seq<u8> {
    if f.len() > 0 && f[0] == 43 {
        f.skip(1)
    } else {
        f
    }
}

/// Every byte is an ASCII digit.
pub open spec fn all_digits(d: Seq<u8>) -> bool {
    forall|i: int| 0 <= i < d.len() ==> is_digit(#[trigger] d[i])
}

/// The position of the first `:` in `s`, or its length where there is none.
pub open spec fn first_colon(s: Seq<u8>) -> int {
    if exists|i: int| 0 <= i < s.len() && s[i] == 58 {
        choose|i: int|
            0 <= i < s.len() && s[i] == 58 && forall|j: int| 0 <= j < i ==> s[j] != 58
    } else {
        s.len() as int
    }
}

/// The text up to the first `:`.
pub open spec fn first_field(s: Seq<u8>) -> Seq<u8> {
    s.take(first_colon(s))
}

/// The text after the first `:`, if there is one.
pub open spec fn after_colon(s: Seq<u8>) -> Option<Seq<u8>> {
    if first_colon(s) < s.len() {
        Some(s.skip(first_colon(s) + 1))
    } else {
        None
    }
}

/// The hours, minutes and seconds of `H:M:S` text, as far as they parse;
/// text after a third `:` is ignored.
pub open spec fn hms_fields(s: Seq<u8>) -> (Option<u32>, Option<u32>, Option<u32>) {
    let h = parse_u32(first_field(s));
    match after_colon(s) {
        None => (h, None, None),
        Some(r1) => {
            let m = parse_u32(first_field(r1));
            match after_colon(r1) {
                None => (h, m, None),
                Some(r2) => (h, m, parse_u32(first_field(r2))),
            }
        },
    }
}

/// Seconds since midnight written by `H:M:S` text, if all three parse.
pub open spec fn hms_seconds(s: Seq<u8>) -> Option<int> {
    match hms_fields(s) {
        (Some(h), Some(m), Some(sec)) => Some(h * 3600 + m * 60 + sec),
        _ => None,
    }
}

/// No step of the conversion of `s` overflows 32 bits.
pub open spec fn hms_in_range(s: Seq<u8>) -> bool {
    let (h, m, sec) = hms_fields(s);
    &&& h matches Some(h) ==> h * 3600 <= u32::MAX
    &&& (h is Some && m is Some) ==> m->0 * 60 <= u32::MAX
    &&& hms_seconds(s) matches Some(t) ==> t <= u32::MAX
}

proof fn lemma_digits_prefix(d: Seq<u8>, k: int)
    requires
        0 <= k <= d.len(),
    ensures
        digits_value(d.take(k)) <= digits_value(d),
    decreases d.len(),
{
    if k < d.len() {
        assert(d.drop_last().take(k) =~= d.take(k));
        lemma_digits_prefix(d.drop_last(), k);
    } else {
        assert(d.take(k) =~= d);
    }
}

/// Finds the first `:` at or after `lo`, or `s.len()`.
fn find_colon(s: &[u8], lo: usize) -> (r: usize)
    requires
        lo <= s.len(),
    ensures
        r - lo == first_colon(s@.skip(lo as int)),
        lo <= r <= s.len(),
        s@.subrange(lo as int, r as int) == first_field(s@.skip(lo as int)),
        r < s.len() ==> after_colon(s@.skip(lo as int)) == Some(s@.skip(r + 1)),
        r == s.len() ==> after_colon(s@.skip(lo as int)) is None,
{
    let ghost t = s@.skip(lo as int);
    let mut i = lo;
    while i < s.len() && s[i] != 58
        invariant
            lo <= i <= s.len(),
            forall|j: int| lo <= j < i ==> s@[j] != 58,
        decreases s.len() - i,
    {
        i = i + 1;
    }
    proof {
        if i < s.len() {
            assert(t[i - lo] == 58);
            let c = choose|c: int|
                0 <= c < t.len() && t[c] == 58 && forall|j: int| 0 <= j < c ==> t[j] != 58;
            assert(c == i - lo) by {
                if c < i - lo {
                    assert(t[c] == s@[lo + c]);
                } else if c > i - lo {
                    assert(t[i - lo] != 58);
                }
            }
        } else {
            assert(!exists|c: int| 0 <= c < t.len() && t[c] == 58) by {
                assert forall|c: int| 0 <= c < t.len() implies t[c] != 58 by {
                    assert(t[c] == s@[lo + c]);
                }
            }
        }
        assert(s@.subrange(lo as int, i as int) =~= t.take(i - lo));
        if i < s.len() {
            assert(t.skip(i - lo + 1) =~= s@.skip(i + 1));
        }
    }
    i
}

/// The three fields of `H:M:S` text, parsed.
fn hms_fields_of(s: &[u8]) -> (r: (Option<u32>, Option<u32>, Option<u32>))
    ensures
        r == hms_fields(s@),
{
    assert(s@.skip(0) =~= s@);
    let c1 = find_colon(s, 0);
    let h = parse_field(s, 0, c1);
    if c1 == s.len() {
        return (h, None, None);
    }
    let c2 = find_colon(s, c1 + 1);
    let m = parse_field(s, c1 + 1, c2);
    if c2 == s.len() {
        return (h, m, None);
    }
    let c3 = find_colon(s, c2 + 1);
    let sec = parse_field(s, c2 + 1, c3);
    (h, m, sec)
}

/// Parses `s[lo..hi]` as `str::parse::<u32>` does.
fn parse_field(s: &[u8], lo: usize, hi: usize) -> (r: Option<u32>)
    requires
        lo <= hi <= s.len(),
    ensures
        r == parse_u32(s@.subrange(lo as int, hi as int)),
{
    let ghost f = s@.subrange(lo as int, hi as int);
    let mut i = lo;
    if i < hi && s[i] == 43 {
        i = i + 1;
    }
    let start = i;
    let ghost d = s@.subrange(start as int, hi as int);
    assert(d =~= unsigned_part(f));
    if i == hi {
        return None;
    }
    let mut v: u64 = 0;
    while i < hi
        invariant
            start <= i <= hi <= s.len(),
            f == s@.subrange(lo as int, hi as int),
            d == s@.subrange(start as int, hi as int),
            d == unsigned_part(f),
            v == digits_value(d.take(i - start)),
            v <= u32::MAX,
            forall|k: int| 0 <= k < i - start ==> is_digit(#[trigger] d[k]),
        decreases hi - i,
    {
        let b = s[i];
        if b < 48 || b > 57 {
            assert(!is_digit(d[i - start]));
            assert(!all_digits(d));
            return None;
        }
        assert(d.take(i - start + 1).drop_last() =~= d.take(i - start));
        v = v * 10 + (b - 48) as u64;
        i = i + 1;
        if v > 0xffff_ffffu64 {
            proof {
                lemma_digits_prefix(d, i - start);
            }
            return None;
        }
    }
    assert(d.take(i - start) =~= d);
    Some(v as u32)
}

impl Sentinel for Time {
    open spec fn spec_none() -> Self {
        Time(u32::MAX)
    }

    fn none() -> (r: Self) {
        Time(u32::MAX)
    }

    fn is_none(self) -> (b: bool) {
        self.0 == u32::MAX
    }

    fn is_some(self) -> (b: bool) {
        self.0 != u32::MAX
    }

    fn as_option(self) -> (o: Option<Self>) {
        if self.0 == u32::MAX {
            None
        } else {
            Some(self)
        }
    }
}

impl Default for Time {
    fn default() -> (r: Self)
        ensures
            r.0 == 0,
    {
        Time(0)
    }
}

impl From<i64> for Time {
    fn from(value: i64) -> (r: Self) {
        if 0 <= value && value <= 0xffff_ffffi64 {
            Time(value as u32)
        } else {
            Time(u32::MAX)
        }
    }
}

impl vstd::std_specs::convert::FromSpecImpl<i64> for Time {
    open spec fn obeys_from_spec() -> bool {
        true
    }

    /// A value outside the range of `u32` becomes the reserved time.
    open spec fn from_spec(v: i64) -> Self {
        if 0 <= v <= u32::MAX {
            Time(v as u32)
        } else {
            Time(u32::MAX)
        }
    }
}

/// The bytes of ASCII characters, one for one.
pub open spec fn ascii_bytes(cs: Seq<char>) -> Seq<u8> {
    cs.map_values(|c: char| c as u8)
}

/// A number written as decimal text reads back as that number.
proof fn lemma_decimal_reads_back(n: nat)
    ensures
        decimal(n).len() >= 1,
        forall|i: int| 0 <= i < decimal(n).len() ==> 48 <= #[trigger] decimal(n)[i] as int <= 57,
        digits_value(ascii_bytes(decimal(n))) == n,
    decreases n,
{
    if n < 10 {
        let c = digit_char(n);
        assert(c as int == 48 + n);
        assert(ascii_bytes(decimal(n)).drop_last() =~= Seq::<u8>::empty());
        assert(ascii_bytes(decimal(n)).last() == c as u8);
        assert(digits_value(ascii_bytes(decimal(n))) == digits_value(Seq::<u8>::empty()) * 10 + ((c as u8) - 48) as nat);
    } else {
        lemma_decimal_reads_back(n / 10);
        let d = decimal(n / 10);
        let c = digit_char(n % 10);
        assert(decimal(n) == d.push(c));
        assert(ascii_bytes(d.push(c)).drop_last() =~= ascii_bytes(d));
        assert(ascii_bytes(d.push(c)).last() == c as u8);
        assert(c as int == 48 + n % 10);
        assert(digits_value(ascii_bytes(decimal(n))) == digits_value(ascii_bytes(d)) * 10 + ((c as u8) - 48) as nat);
        assert((n / 10) * 10 + n % 10 == n);
        assert forall|i: int| 0 <= i < decimal(n).len() implies 48 <= #[trigger] decimal(n)[i] as int <= 57 by {
            if i < d.len() {
                assert(decimal(n)[i] == d[i]);
            }
        }
    }
}

/// Leading zero digits do not change the number that digits write.
proof fn lemma_leading_zeros(z: Seq<u8>, e: Seq<u8>)
    requires
        forall|i: int| 0 <= i < z.len() ==> #[trigger] z[i] == 48,
    ensures
        digits_value(z + e) == digits_value(e),
    decreases e.len() + z.len(),
{
    if e.len() == 0 {
        assert(z + e =~= z);
        if z.len() > 0 {
            lemma_leading_zeros(z.drop_last(), e);
            assert(z.drop_last() + e =~= z.drop_last());
        }
    } else {
        lemma_leading_zeros(z, e.drop_last());
        assert((z + e).drop_last() =~= z + e.drop_last());
    }
}

/// A number written zero-padded reads back as that number, in ASCII digits.
proof fn lemma_padded_reads_back(n: nat, w: nat)
    ensures
        padded(n, w).len() >= 1,
        forall|i: int| 0 <= i < padded(n, w).len() ==> 48 <= #[trigger] padded(n, w)[i] as int <= 57,
        digits_value(ascii_bytes(padded(n, w))) == n,
{
    lemma_decimal_reads_back(n);
    let d = decimal(n);
    if d.len() < w {
        let z = Seq::new((w - d.len()) as nat, |_i: int| '0');
        assert(ascii_bytes(z + d) =~= ascii_bytes(z) + ascii_bytes(d));
        lemma_leading_zeros(ascii_bytes(z), ascii_bytes(d));
        assert forall|i: int| 0 <= i < padded(n, w).len() implies 48 <= #[trigger] padded(n, w)[i] as int <= 57 by {
            if i >= z.len() {
                assert(padded(n, w)[i] == d[i - z.len()]);
            }
        }
    }
}

/// Text with no `:` before a `:` splits there.
proof fn lemma_colon_split(a: Seq<u8>, b: Seq<u8>)
    requires
        forall|i: int| 0 <= i < a.len() ==> #[trigger] a[i] != 58,
    ensures
        first_field(a + seq![58u8] + b) == a,
        after_colon(a + seq![58u8] + b) == Some(b),
{
    let s = a + seq![58u8] + b;
    assert(s[a.len() as int] == 58);
    let i = first_colon(s);
    assert(0 <= i < s.len() && s[i] == 58 && forall|j: int| 0 <= j < i ==> s[j] != 58);
    if i < a.len() {
        assert(s[i] == a[i]);
    }
    assert(i == a.len());
    assert(s.take(i) =~= a);
    assert(s.skip(i + 1) =~= b);
}

/// Text with no `:` is one field.
proof fn lemma_no_colon(a: Seq<u8>)
    requires
        forall|i: int| 0 <= i < a.len() ==> #[trigger] a[i] != 58,
    ensures
        first_field(a) == a,
{
    assert(a.take(a.len() as int) =~= a);
}

/// Nonempty ASCII digits read as the number they write.
proof fn lemma_digits_parse(a: Seq<u8>)
    requires
        a.len() >= 1,
        forall|i: int| 0 <= i < a.len() ==> 48 <= #[trigger] a[i] <= 57,
        digits_value(a) <= u32::MAX,
    ensures
        parse_u32(a) == Some(digits_value(a) as u32),
{
    assert(unsigned_part(a) == a);
}

/// The text that `to_string` writes for a time reads back as that time.
pub proof fn lemma_time_text_reads_back(t: Time)
    ensures
        hms_in_range(encode_utf8(clock_text(t.0 / 3600, (t.0 % 3600) / 60, t.0 % 60))),
        hms_seconds(encode_utf8(clock_text(t.0 / 3600, (t.0 % 3600) / 60, t.0 % 60))) == Some(t.0 as int),
{
    let h = t.0 / 3600;
    let m = (t.0 % 3600) / 60;
    let sec = t.0 % 60;
    let ph = padded(h as nat, 2);
    let pm = padded(m as nat, 2);
    let ps = padded(sec as nat, 2);
    lemma_padded_reads_back(h as nat, 2);
    lemma_padded_reads_back(m as nat, 2);
    lemma_padded_reads_back(sec as nat, 2);
    let cs = clock_text(h, m, sec);
    assert(cs == ph + seq![':'] + pm + seq![':'] + ps);
    assert(is_ascii_chars(cs)) by {
        assert forall|i: int| 0 <= i < cs.len() implies '\0' <= #[trigger] cs[i] <= '\u{7f}' by {
            if i < ph.len() {
                assert(cs[i] == ph[i]);
            } else if i == ph.len() {
            } else if i < ph.len() + 1 + pm.len() {
                assert(cs[i] == pm[i - ph.len() - 1]);
            } else if i == ph.len() + 1 + pm.len() {
            } else {
                assert(cs[i] == ps[i - ph.len() - 2 - pm.len()]);
            }
        }
    }
    is_ascii_chars_encode_utf8(cs);
    let b = encode_utf8(cs);
    let bh = ascii_bytes(ph);
    let bm = ascii_bytes(pm);
    let bs = ascii_bytes(ps);
    assert(b =~= bh + seq![58u8] + (bm + seq![58u8] + bs)) by {
        assert forall|i: int| 0 <= i < b.len() implies b[i] == (bh + seq![58u8] + (bm + seq![58u8] + bs))[i] by {
            assert(cs[i] as u8 == b[i]);
            if i < ph.len() {
                assert(cs[i] == ph[i]);
            } else if i == ph.len() {
            } else if i < ph.len() + 1 + pm.len() {
                assert(cs[i] == pm[i - ph.len() - 1]);
            } else if i == ph.len() + 1 + pm.len() {
            } else {
                assert(cs[i] == ps[i - ph.len() - 2 - pm.len()]);
            }
        }
    }
    assert forall|i: int| 0 <= i < bh.len() implies 48 <= #[trigger] bh[i] <= 57 by {
        assert(48 <= ph[i] as int <= 57);
    }
    assert forall|i: int| 0 <= i < bm.len() implies 48 <= #[trigger] bm[i] <= 57 by {
        assert(48 <= pm[i] as int <= 57);
    }
    assert forall|i: int| 0 <= i < bs.len() implies 48 <= #[trigger] bs[i] <= 57 by {
        assert(48 <= ps[i] as int <= 57);
    }
    lemma_colon_split(bh, bm + seq![58u8] + bs);
    lemma_colon_split(bm, bs);
    lemma_no_colon(bs);
    lemma_digits_parse(bh);
    lemma_digits_parse(bm);
    lemma_digits_parse(bs);
    assert(hms_fields(b) == (Some(h), Some(m), Some(sec)));
    assert(h * 3600 + m * 60 + sec == t.0) by (nonlinear_arith)
        requires
            h == t.0 / 3600,
            m == (t.0 % 3600) / 60,
            sec == t.0 % 60,
    ;
    assert(h * 3600 <= u32::MAX) by (nonlinear_arith)
        requires
            h == t.0 / 3600,
    ;
}

impl Time {
    /// Whether reading `time` as `H:M:S` text stays within 32 bits at every
    /// step, as `from_hms` needs.
    pub fn hms_fits(time: &str) -> (r: bool)
        ensures
            r == hms_in_range(time.spec_bytes()),
    {
        let s = time.as_bytes();
        let (h, m, sec) = hms_fields_of(s);
        let h_ok = match h {
            Some(h) => h as u64 * 3600 <= 0xffff_ffffu64,
            None => true,
        };
        let m_ok = match (h, m) {
            (Some(_), Some(m)) => m as u64 * 60 <= 0xffff_ffffu64,
            _ => true,
        };
        let t_ok = match (h, m, sec) {
            (Some(h), Some(m), Some(sec)) => h as u64 * 3600 + m as u64 * 60 + sec as u64 <= 0xffff_ffffu64,
            _ => true,
        };
        h_ok && m_ok && t_ok
    }

    /// Reads `H:M:S` text; `None` where a field is missing or does not parse.
    pub fn from_hms(time: &str) -> (r: Option<Time>)
        requires
            hms_in_range(time.spec_bytes()),
        ensures
            r matches Some(t) ==> hms_seconds(time.spec_bytes()) == Some(t.0 as int),
            r is None ==> hms_seconds(time.spec_bytes()) is None,
    {
        let s = time.as_bytes();
        let (h, m, sec) = hms_fields_of(s);
        match (h, m, sec) {
            (Some(h), Some(m), Some(sec)) => {
                let hours = h * 3600;
                let minutes = m * 60;
                Some(Time(hours + minutes + sec))
            },
            _ => None,
        }
    }

    /// `self + rhs`, held at `u32::MAX`.
    pub fn add_duration(self, rhs: Duration) -> (r: Time)
        ensures
            r.0 == sat_add(self.0 as int, rhs.0 as int),
    {
        Time(self.0.saturating_add(rhs.0))
    }

    /// `self - rhs`, held at 0.
    pub fn sub_duration(self, rhs: Duration) -> (r: Time)
        ensures
            r.0 == sat_sub(self.0 as int, rhs.0 as int),
    {
        Time(self.0.saturating_sub(rhs.0))
    }

    /// Moves the time forward by `rhs`, held at `u32::MAX`.
    pub fn add_assign(&mut self, rhs: Duration)
        ensures
            final(self).0 == sat_add(old(self).0 as int, rhs.0 as int),
    {
        *self = self.add_duration(rhs);
    }

    /// Moves the time back by `rhs`, held at 0.
    pub fn sub_assign(&mut self, rhs: Duration)
        ensures
            final(self).0 == sat_sub(old(self).0 as int, rhs.0 as int),
    {
        *self = self.sub_duration(rhs);
    }

    /// Moves the time by a delay, held within `0..=u32::MAX`.
    pub fn add_delay_assign(&mut self, rhs: Delay)
        ensures
            rhs.0 < 0 ==> final(self).0 == sat_sub(old(self).0 as int, -(rhs.0 as int)),
            rhs.0 >= 0 ==> final(self).0 == sat_add(old(self).0 as int, rhs.0 as int),
    {
        *self = self.add_delay(rhs);
    }

    /// Moves the time back by a delay, held within `0..=u32::MAX`.
    pub fn sub_delay_assign(&mut self, rhs: Delay)
        ensures
            rhs.0 < 0 ==> final(self).0 == sat_add(old(self).0 as int, -(rhs.0 as int)),
            rhs.0 >= 0 ==> final(self).0 == sat_sub(old(self).0 as int, rhs.0 as int),
    {
        *self = self.sub_delay(rhs);
    }

    /// The time from `rhs` to `self`, 0 where `rhs` is later.
    pub fn sub_time(self, rhs: Time) -> (r: Duration)
        ensures
            r.0 == sat_sub(self.0 as int, rhs.0 as int),
    {
        Duration(self.0.saturating_sub(rhs.0))
    }

    /// The time moved by a delay, held within `0..=u32::MAX`.
    pub fn add_delay(self, rhs: Delay) -> (r: Time)
        ensures
            rhs.0 < 0 ==> r.0 == sat_sub(self.0 as int, -(rhs.0 as int)),
            rhs.0 >= 0 ==> r.0 == sat_add(self.0 as int, rhs.0 as int),
    {
        if rhs.0 < 0 {
            let amount: u32 = (-(rhs.0 as i32)) as u32;
            Time(self.0.saturating_sub(amount))
        } else {
            Time(self.0.saturating_add(rhs.0 as u32))
        }
    }

    /// The time moved back by a delay, held within `0..=u32::MAX`.
    pub fn sub_delay(self, rhs: Delay) -> (r: Time)
        ensures
            rhs.0 < 0 ==> r.0 == sat_add(self.0 as int, -(rhs.0 as int)),
            rhs.0 >= 0 ==> r.0 == sat_sub(self.0 as int, rhs.0 as int),
    {
        if rhs.0 < 0 {
            let amount: u32 = (-(rhs.0 as i32)) as u32;
            Time(self.0.saturating_add(amount))
        } else {
            Time(self.0.saturating_sub(rhs.0 as u32))
        }
    }

    /// The time as `HH:MM:SS`, hours past 23 included.
    pub fn to_string(&self) -> (r: String)
        ensures
            r@ == clock_text(self.0 / 3600, (self.0 % 3600) / 60, self.0 % 60),
    {
        format_clock(self.0 / 3600, (self.0 % 3600) / 60, self.0 % 60)
    }
}

impl Sentinel for Duration {
    open spec fn spec_none() -> Self {
        Duration(u32::MAX)
    }

    fn none() -> (r: Self) {
        Duration(u32::MAX)
    }

    fn is_none(self) -> (b: bool) {
        self.0 == u32::MAX
    }

    fn is_some(self) -> (b: bool) {
        self.0 != u32::MAX
    }

    fn as_option(self) -> (o: Option<Self>) {
        if self.0 == u32::MAX {
            None
        } else {
            Some(self)
        }
    }
}

impl Default for Duration {
    fn default() -> (r: Self)
        ensures
            r.0 == 0,
    {
        Duration(0)
    }
}

impl Duration {
    /// The sum, held at `u32::MAX`.
    pub fn add(self, rhs: Duration) -> (r: Duration)
        ensures
            r.0 == sat_add(self.0 as int, rhs.0 as int),
    {
        Duration(self.0.saturating_add(rhs.0))
    }

    /// The difference, held at 0.
    pub fn sub(self, rhs: Duration) -> (r: Duration)
        ensures
            r.0 == sat_sub(self.0 as int, rhs.0 as int),
    {
        Duration(self.0.saturating_sub(rhs.0))
    }

    /// Adds `rhs`, held at `u32::MAX`.
    pub fn add_assign(&mut self, rhs: Duration)
        ensures
            final(self).0 == sat_add(old(self).0 as int, rhs.0 as int),
    {
        *self = self.add(rhs);
    }

    /// Takes away `rhs`, held at 0.
    pub fn sub_assign(&mut self, rhs: Duration)
        ensures
            final(self).0 == sat_sub(old(self).0 as int, rhs.0 as int),
    {
        *self = self.sub(rhs);
    }
}

impl Sentinel for Delay {
    open spec fn spec_none() -> Self {
        Delay(i16::MAX)
    }

    fn none() -> (r: Self) {
        Delay(i16::MAX)
    }

    fn is_none(self) -> (b: bool) {
        self.0 == i16::MAX
    }

    fn is_some(self) -> (b: bool) {
        self.0 != i16::MAX
    }

    fn as_option(self) -> (o: Option<Self>) {
        if self.0 == i16::MAX {
            None
        } else {
            Some(self)
        }
    }
}

/// The delay of `v` seconds, or the reserved delay where `v` does not fit in 16 bits.
pub open spec fn delay_of(v: int) -> Delay {
    if i16::MIN <= v <= i16::MAX {
        Delay(v as i16)
    } else {
        Delay(i16::MAX)
    }
}

impl Delay {
    /// The delay of `value` seconds.
    pub fn from_i32(value: i32) -> (r: Delay)
        ensures
            r == delay_of(value as int),
    {
        if -32768 <= value && value <= 32767 {
            Delay(value as i16)
        } else {
            Delay(i16::MAX)
        }
    }

    /// The delay of `value` seconds.
    pub fn from_i64(value: i64) -> (r: Delay)
        ensures
            r == delay_of(value as int),
    {
        if -32768 <= value && value <= 32767 {
            Delay(value as i16)
        } else {
            Delay(i16::MAX)
        }
    }

    /// The sum, held within the range of `i16`.
    pub fn add(self, rhs: Delay) -> (r: Delay)
        ensures
            r.0 == (if self.0 + rhs.0 > i16::MAX {
                i16::MAX as int
            } else if self.0 + rhs.0 < i16::MIN {
                i16::MIN as int
            } else {
                self.0 + rhs.0
            }),
    {
        let s: i32 = self.0 as i32 + rhs.0 as i32;
        if s > 32767 {
            Delay(i16::MAX)
        } else if s < -32768 {
            Delay(i16::MIN)
        } else {
            Delay(s as i16)
        }
    }
}

impl Delay {
    /// Adds `rhs`, held within the range of `i16`.
    pub fn add_assign(&mut self, rhs: Delay)
        ensures
            final(self).0 == (if old(self).0 + rhs.0 > i16::MAX {
                i16::MAX as int
            } else if old(self).0 + rhs.0 < i16::MIN {
                i16::MIN as int
            } else {
                old(self).0 + rhs.0
            }),
    {
        *self = self.add(rhs);
    }
}

} // verus!

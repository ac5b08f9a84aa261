//! Dates and RFC 3339 timestamps: the `YYYY-MM-DD` day of a Unix time, the
//! `YYYY-MM-DDTHH:MM:SSZ` form shown for reset times, and the reading of the timestamps
//! that the usage endpoint emits into epoch milliseconds.
use vstd::prelude::*;
use vstd::string::StringSliceAdditionalSpecFns;
use crate::calendar::{
    civil_from_days, civil_of, days_from_civil, days_from_civil_spec, law_days_civil_days,
    law_four_digit_years,
};
use crate::text::{
    all_digits, append_padded, decimal, digit_char, digits_value, is_digit, padded_decimal,
    parse_i64, parse_signed, string_of_vec,
};

verus! {

broadcast use vstd::string::group_string_axioms;

/// `format!("{:04}-{:02}-{:02}", y, m, d)`.
pub open spec fn date_text(y: int, m: int, d: int) -> Seq<char> {
    padded_decimal(y, 4) + seq!['-'] + padded_decimal(m, 2) + seq!['-'] + padded_decimal(d, 2)
}

/// The `YYYY-MM-DD` date of day `z` after 1970-01-01.
pub open spec fn day_text(z: int) -> Seq<char> {
    date_text(civil_of(z).0, civil_of(z).1, civil_of(z).2)
}

/// The `YYYY-MM-DDTHH:MM:SSZ` form of Unix time `t` (seconds), in UTC.
pub open spec fn iso_text(t: int) -> Seq<char> {
    let s = t % 86400;
    day_text(t / 86400) + seq!['T'] + padded_decimal(s / 3600, 2) + seq![':'] + padded_decimal(
        (s % 3600) / 60,
        2,
    ) + seq![':'] + padded_decimal(s % 60, 2) + seq!['Z']
}

/// The day of Unix time `secs` (seconds since 1970-01-01T00:00:00Z), rounded down.
fn day_of(secs: i64) -> (r: i64)
    ensures
        r == secs as int / 86400,
        -106751991167301 <= r <= 106751991167300,
{
    let q = secs / 86400;
    let rem = secs % 86400;
    proof {
        let s = secs as int;
        if s >= 0 {
            assert(q == s / 86400);
        } else {
            vstd::arithmetic::div_mod::lemma_fundamental_div_mod(-s, 86400);
            assert(q == -((-s) / 86400));
            assert(rem == -((-s) % 86400));
            if rem < 0 {
                vstd::arithmetic::div_mod::lemma_fundamental_div_mod_converse(s, 86400, q - 1, rem + 86400);
            } else {
                vstd::arithmetic::div_mod::lemma_fundamental_div_mod_converse(s, 86400, q as int, 0);
            }
        }
        vstd::arithmetic::div_mod::lemma_fundamental_div_mod(s, 86400);
    }
    if rem < 0 {
        q - 1
    } else {
        q
    }
}

/// The characters of `format!("{:04}-{:02}-{:02}")` for day `days` after 1970-01-01.
fn day_chars(days: i64) -> (r: Vec<char>)
    requires
        -106751991167301 <= days <= 106751991167300,
    ensures
        r@ == day_text(days as int),
{
    let (y, m, d) = civil_from_days(days);
    let mut out: Vec<char> = Vec::new();
    append_padded(&mut out, y, 4);
    out.push('-');
    append_padded(&mut out, m, 2);
    out.push('-');
    append_padded(&mut out, d, 2);
    out
}

/// The `YYYY-MM-DD` UTC date of Unix time `secs`.
pub fn date_from_secs(secs: i64) -> (r: String)
    ensures
        r@ == day_text(secs as int / 86400),
{
    let days = day_of(secs);
    let chars = day_chars(days);
    string_of_vec(&chars)
}

/// Unix time `timestamp` (seconds) as `YYYY-MM-DDTHH:MM:SSZ`, the form shown for reset times.
pub fn timestamp_to_iso(timestamp: i64) -> (r: String)
    ensures
        r@ == iso_text(timestamp as int),
{
    let days = day_of(timestamp);
    let mut out = day_chars(days);
    let rem = timestamp % 86400;
    let seconds = if rem < 0 { rem + 86400 } else { rem };
    proof {
        vstd::arithmetic::div_mod::lemma_fundamental_div_mod(timestamp as int, 86400);
        assert(seconds == timestamp as int % 86400) by {
            vstd::arithmetic::div_mod::lemma_fundamental_div_mod_converse(
                timestamp as int,
                86400,
                days as int,
                seconds as int,
            );
        }
    }
    let hour = seconds / 3600;
    let minute = (seconds % 3600) / 60;
    let second = seconds % 60;
    out.push('T');
    append_padded(&mut out, hour, 2);
    out.push(':');
    append_padded(&mut out, minute, 2);
    out.push(':');
    append_padded(&mut out, second, 2);
    out.push('Z');
    string_of_vec(&out)
}

/// Bytes read as characters one for one; a byte above 0x7f becomes a character that is
/// neither a digit nor a sign.
pub open spec fn byte_chars(b: Seq<u8>) -> Seq<char> {
    b.map_values(|x: u8| x as char)
}

/// `str::parse::<i64>` on the bytes `b[lo..hi]` (a slice that does not fall on character
/// boundaries holds a byte above 0x7f, which is no digit, so reading it fails too).
pub open spec fn field_value(b: Seq<u8>, lo: int, hi: int) -> Option<int> {
    parse_signed(byte_chars(b.subrange(lo, hi)))
}

/// A UTF-8 continuation byte: slicing a `str` there panics.
pub open spec fn is_continuation(x: u8) -> bool {
    0x80 <= x < 0xc0
}

/// The date and time fields of a timestamp, when its shape and all six fields read.
pub open spec fn iso_fields(b: Seq<u8>) -> Option<(int, int, int, int, int, int)> {
    if b.len() < 19 || b[4] != 0x2d || b[7] != 0x2d {
        None
    } else if field_value(b, 0, 4) is Some && field_value(b, 5, 7) is Some && field_value(b, 8, 10)
        is Some && field_value(b, 11, 13) is Some && field_value(b, 14, 16) is Some
        && field_value(b, 17, 19) is Some {
        Some(
            (
                field_value(b, 0, 4)->0,
                field_value(b, 5, 7)->0,
                field_value(b, 8, 10)->0,
                field_value(b, 11, 13)->0,
                field_value(b, 14, 16)->0,
                field_value(b, 17, 19)->0,
            ),
        )
    } else {
        None
    }
}

/// Position of the first `+` or `-` from byte 19 on: where the UTC offset starts.
#[verifier::opaque]
pub open spec fn offset_start(b: Seq<u8>) -> Option<int> {
    if exists|k: int| 19 <= k < b.len() && (b[k] == 0x2b || b[k] == 0x2d) {
        Some(
            choose|k: int|
                19 <= k < b.len() && (b[k] == 0x2b || b[k] == 0x2d) && forall|j: int|
                    19 <= j < k ==> b[j] != 0x2b && b[j] != 0x2d,
        )
    } else {
        None
    }
}

/// Inputs on which reading the offset slices a string inside a multi-byte character.
pub open spec fn iso_slicing_panics(b: Seq<u8>) -> bool {
    &&& iso_fields(b) is Some
    &&& offset_start(b) matches Some(k) && b.len() - k >= 6 && (is_continuation(b[k + 3]) || (
    field_value(b, k + 1, k + 3) is Some && (is_continuation(b[k + 4]) || (k + 6 < b.len()
        && is_continuation(b[k + 6])))))
}

/// The UTC offset in minutes, `None` when it is there but does not read.
pub open spec fn offset_minutes(b: Seq<u8>) -> Option<int> {
    match offset_start(b) {
        None => Some(0),
        Some(k) => if b.len() - k < 6 {
            None
        } else if field_value(b, k + 1, k + 3) is Some && field_value(b, k + 4, k + 6) is Some {
            let sign = if b[k] == 0x2d { -1int } else { 1int };
            Some(sign * (field_value(b, k + 1, k + 3)->0 * 60 + field_value(b, k + 4, k + 6)->0))
        } else {
            None
        },
    }
}

/// Epoch milliseconds of an RFC 3339 timestamp: `YYYY-MM-DD`, one separator, `hh:mm:ss`,
/// then anything (fractional seconds are ignored) and an optional `+hh:mm`/`-hh:mm` offset;
/// `None` when a part does not read or the instant lies before 1970.
pub open spec fn iso_epoch_ms(b: Seq<u8>) -> Option<int> {
    match (iso_fields(b), offset_minutes(b)) {
        (Some(f), Some(off)) => {
            let seconds = days_from_civil_spec(f.0, f.1, f.2) * 86400 + f.3 * 3600 + f.4 * 60
                + f.5 - off * 60;
            if seconds >= 0 {
                Some(seconds * 1000)
            } else {
                None
            }
        },
        _ => None,
    }
}

proof fn lemma_field_range(b: Seq<u8>, lo: int, hi: int)
    requires
        0 <= lo <= hi <= b.len(),
        hi - lo <= 4,
        field_value(b, lo, hi) is Some,
    ensures
        -999 <= field_value(b, lo, hi)->0 <= 9999,
{
    let s = byte_chars(b.subrange(lo, hi));
    if s.len() > 0 && s[0] == '-' {
        lemma_digits_bound(s.drop_first());
    } else {
        let body = if s.len() > 0 && s[0] == '+' { s.drop_first() } else { s };
        lemma_digits_bound(body);
    }
}

proof fn lemma_digits_bound(s: Seq<char>)
    requires
        all_digits(s),
        s.len() <= 4,
    ensures
        0 <= digits_value(s) <= (if s.len() == 0 { 0int } else if s.len() == 1 { 9 } else if s.len()
            == 2 { 99 } else if s.len() == 3 { 999 } else { 9999 }),
    decreases s.len(),
{
    if s.len() > 0 {
        lemma_digits_bound(s.drop_last());
        assert(is_digit(s[s.len() - 1]));
    }
}

/// `str::parse::<i64>` on `b[lo..hi]`.
fn read_field(b: &[u8], lo: usize, hi: usize) -> (r: Option<i64>)
    requires
        lo <= hi <= b@.len(),
    ensures
        match r {
            Some(v) => field_value(b@, lo as int, hi as int) == Some(v as int),
            None => field_value(b@, lo as int, hi as int) is None,
        },
{
    let mut chars: Vec<char> = Vec::new();
    let mut i = lo;
    while i < hi
        invariant
            lo <= i <= hi,
            hi <= b@.len(),
            chars@ == byte_chars(b@.subrange(lo as int, i as int)),
        decreases hi - i,
    {
        chars.push(b[i] as char);
        proof {
            assert(b@.subrange(lo as int, i + 1) == b@.subrange(lo as int, i as int).push(
                b@[i as int],
            ));
        }
        i = i + 1;
    }
    parse_i64(&chars)
}

/// The six date and time fields of `b`, when its shape is right and all of them read.
fn read_fields(b: &[u8]) -> (r: Option<(i64, i64, i64, i64, i64, i64)>)
    ensures
        match r {
            Some(f) => iso_fields(b@) == Some(
                (f.0 as int, f.1 as int, f.2 as int, f.3 as int, f.4 as int, f.5 as int),
            ) && -999 <= f.0 <= 9999 && -99 <= f.1 <= 99 && -99 <= f.2 <= 99 && -99 <= f.3 <= 99
                && -99 <= f.4 <= 99 && -99 <= f.5 <= 99,
            None => iso_fields(b@) is None,
        },
{
    if b.len() < 19 || b[4] != 0x2d || b[7] != 0x2d {
        return None;
    }
    let year = read_field(b, 0, 4);
    let month = read_field(b, 5, 7);
    let day = read_field(b, 8, 10);
    let hour = read_field(b, 11, 13);
    let minute = read_field(b, 14, 16);
    let second = read_field(b, 17, 19);
    match (year, month, day, hour, minute, second) {
        (Some(y), Some(mo), Some(d), Some(h), Some(mi), Some(s)) => {
            proof {
                lemma_field_range(b@, 0, 4);
                lemma_field_range(b@, 5, 7);
                lemma_field_range(b@, 8, 10);
                lemma_field_range(b@, 11, 13);
                lemma_field_range(b@, 14, 16);
                lemma_field_range(b@, 17, 19);
                lemma_short_field(b@, 5, 7);
                lemma_short_field(b@, 8, 10);
                lemma_short_field(b@, 11, 13);
                lemma_short_field(b@, 14, 16);
                lemma_short_field(b@, 17, 19);
            }
            Some((y, mo, d, h, mi, s))
        },
        _ => None,
    }
}

proof fn lemma_short_field(b: Seq<u8>, lo: int, hi: int)
    requires
        0 <= lo <= hi <= b.len(),
        hi - lo == 2,
        field_value(b, lo, hi) is Some,
    ensures
        -99 <= field_value(b, lo, hi)->0 <= 99,
{
    let s = byte_chars(b.subrange(lo, hi));
    if s.len() > 0 && s[0] == '-' {
        lemma_digits_bound(s.drop_first());
    } else {
        let body = if s.len() > 0 && s[0] == '+' { s.drop_first() } else { s };
        lemma_digits_bound(body);
    }
}

/// Position of the first `+` or `-` from byte 19 on; `b.len()` when there is none.
fn offset_index(b: &[u8]) -> (k: usize)
    requires
        b@.len() >= 19,
    ensures
        19 <= k <= b@.len(),
        k < b@.len() ==> offset_start(b@) == Some(k as int),
        k == b@.len() ==> offset_start(b@) is None,
{
    let ghost bs = b@;
    let mut k: usize = 19;
    while k < b.len() && b[k] != 0x2b && b[k] != 0x2d
        invariant
            19 <= k <= b@.len(),
            b@ == bs,
            forall|j: int| 19 <= j < k ==> bs[j] != 0x2b && bs[j] != 0x2d,
        decreases b.len() - k,
    {
        k = k + 1;
    }
    proof {
        reveal(offset_start);
        if k < b.len() {
            let c = choose|c: int|
                19 <= c < bs.len() && (bs[c] == 0x2b || bs[c] == 0x2d) && forall|j: int|
                    19 <= j < c ==> bs[j] != 0x2b && bs[j] != 0x2d;
            assert(19 <= k < bs.len() && (bs[k as int] == 0x2b || bs[k as int] == 0x2d));
            if c < k {
                assert(false);
            }
            if c > k {
                assert(bs[k as int] != 0x2b && bs[k as int] != 0x2d);
            }
        } else {
            assert(!exists|j: int| 19 <= j < bs.len() && (bs[j] == 0x2b || bs[j] == 0x2d));
        }
    }
    k
}

/// Whether reading `value` as a timestamp would slice it inside a multi-byte character, which
/// `str` slicing refuses by panicking: those are the inputs `iso_to_epoch_ms` cannot take.
pub fn iso_reading_panics(value: &str) -> (r: bool)
    ensures
        r == iso_slicing_panics(value.spec_bytes()),
{
    let b = value.as_bytes();
    match read_fields(b) {
        None => false,
        Some(_) => {
            let k = offset_index(b);
            if k == b.len() || b.len() - k < 6 {
                false
            } else if 0x80 <= b[k + 3] && b[k + 3] < 0xc0 {
                true
            } else {
                match read_field(b, k + 1, k + 3) {
                    None => false,
                    Some(_) => (0x80 <= b[k + 4] && b[k + 4] < 0xc0) || (k + 6 < b.len() && 0x80
                        <= b[k + 6] && b[k + 6] < 0xc0),
                }
            }
        },
    }
}

/// Epoch milliseconds of the timestamps that the usage endpoint emits, such as
/// `2026-08-11T16:19:59.718872+00:00` or `2026-08-11T16:19:59Z`; `None` when the text is
/// not such a timestamp or names an instant before 1970.
pub fn iso_to_epoch_ms(value: &str) -> (r: Option<u64>)
    requires
        !iso_slicing_panics(value.spec_bytes()),
    ensures
        match r {
            Some(ms) => iso_epoch_ms(value.spec_bytes()) == Some(ms as int),
            None => iso_epoch_ms(value.spec_bytes()) is None,
        },
{
    let b = value.as_bytes();
    let ghost bs = value.spec_bytes();
    let (year, month, day, hour, minute, second) = match read_fields(b) {
        Some(f) => f,
        None => return None,
    };
    let k = offset_index(b);
    let offset: i64 = if k < b.len() {
        if b.len() - k < 6 {
            return None;
        }
        let hours = match read_field(b, k + 1, k + 3) {
            Some(v) => v,
            None => return None,
        };
        let minutes = match read_field(b, k + 4, k + 6) {
            Some(v) => v,
            None => return None,
        };
        proof {
            lemma_field_range(bs, k + 1, k + 3);
            lemma_field_range(bs, k + 4, k + 6);
        }
        let magnitude = hours * 60 + minutes;
        proof {
            assert(offset_start(bs) == Some(k as int));
            assert(field_value(bs, k + 1, k + 3) == Some(hours as int));
            assert(field_value(bs, k + 4, k + 6) == Some(minutes as int));
        }
        if b[k] == 0x2d {
            assert(offset_minutes(bs) == Some(-1 * (magnitude as int)));
            -magnitude
        } else {
            assert(offset_minutes(bs) == Some(magnitude as int));
            magnitude
        }
    } else {
        0
    };
    assert(-(9999 * 60 + 9999) <= offset <= 9999 * 60 + 9999);
    proof {
        assert(offset_minutes(bs) == Some(offset as int));
        assert(iso_fields(bs) == Some(
            (year as int, month as int, day as int, hour as int, minute as int, second as int),
        ));
    }
    let seconds = days_from_civil(year, month, day) * 86400 + hour * 3600 + minute * 60 + second
        - offset * 60;
    if seconds < 0 {
        None
    } else {
        Some((seconds as u64) * 1000)
    }
}

/// Epoch milliseconds of a timestamp text, read as `iso_to_epoch_ms` reads its UTF-8 bytes.
pub open spec fn text_epoch_ms(t: Seq<char>) -> Option<int> {
    iso_epoch_ms(vstd::utf8::encode_utf8(t))
}

/// Whether reading a timestamp text would slice inside a multi-byte character.
pub open spec fn text_reading_panics(t: Seq<char>) -> bool {
    iso_slicing_panics(vstd::utf8::encode_utf8(t))
}

/// A digit character stands for its digit.
proof fn lemma_digit_char(d: int)
    requires
        0 <= d <= 9,
    ensures
        digit_char(d) as int == d + '0' as int,
        is_digit(digit_char(d)),
{
    assert(((d + 48) as char) as u32 == d + 48);
}

/// The decimal digits of `n` read back as `n`.
proof fn lemma_decimal_reads(n: nat)
    ensures
        all_digits(decimal(n)),
        digits_value(decimal(n)) == n,
        n < 10 ==> decimal(n).len() == 1,
        10 <= n < 100 ==> decimal(n).len() == 2,
        100 <= n < 1000 ==> decimal(n).len() == 3,
        1000 <= n < 10000 ==> decimal(n).len() == 4,
    decreases n,
{
    let s = decimal(n);
    lemma_digit_char((n % 10) as int);
    if n < 10 {
        assert(s == seq![digit_char(n as int)]);
        assert(s.drop_last() =~= Seq::<char>::empty());
        assert(digits_value(Seq::<char>::empty()) == 0);
        assert(s.last() == digit_char(n as int));
        assert(digits_value(s) == digits_value(s.drop_last()) * 10 + (s.last() as int - '0' as int));
    } else {
        lemma_decimal_reads(n / 10);
        let p = decimal(n / 10);
        assert(s == p.push(digit_char((n % 10) as int)));
        assert(s.drop_last() =~= p);
        assert forall|i: int| 0 <= i < s.len() implies is_digit(#[trigger] s[i]) by {
            if i < p.len() {
                assert(s[i] == p[i]);
            }
        }
        assert(s.last() == digit_char((n % 10) as int));
        assert(digits_value(s) == digits_value(s.drop_last()) * 10 + (s.last() as int - '0' as int));
        assert(digits_value(s) == (n / 10) * 10 + n % 10);
    }
}

/// A two-digit field (`{:02}`) or a four-digit year (`{:04}`) reads back as its value.
proof fn lemma_padded_reads(v: int, width: nat)
    requires
        (width == 2 && 0 <= v <= 99) || (width == 4 && 1000 <= v <= 9999),
    ensures
        padded_decimal(v, width).len() == width,
        all_digits(padded_decimal(v, width)),
        parse_signed(padded_decimal(v, width)) == Some(v),
{
    let s = padded_decimal(v, width);
    lemma_decimal_reads(v as nat);
    if width == 2 && v < 10 {
        let dc = decimal(v as nat);
        assert(s =~= seq!['0'] + dc);
        assert(s =~= seq!['0', dc[0]]);
        assert(s.drop_last() =~= seq!['0']);
        assert(seq!['0'].drop_last() =~= Seq::<char>::empty());
        assert(dc.drop_last() =~= Seq::<char>::empty());
        assert(digits_value(Seq::<char>::empty()) == 0);
        assert(digits_value(seq!['0']) == 0);
        assert(s.last() == dc[0]);
        assert(digits_value(dc) == digits_value(dc.drop_last()) * 10 + (dc.last() as int - '0' as int));
        assert(digits_value(s) == digits_value(s.drop_last()) * 10 + (s.last() as int - '0' as int));
        assert(digits_value(s) == v);
        assert(is_digit(s[1]));
        assert forall|i: int| 0 <= i < s.len() implies is_digit(#[trigger] s[i]) by {}
    } else {
        assert(s == decimal(v as nat));
    }
    assert(is_digit(s[0]));
}

/// The layout of `iso_text(t)`: twenty ASCII characters whose six fields read back as the
/// date and time of `t`.
proof fn lemma_iso_layout(t: int)
    requires
        0 <= t <= 253402300799,
    ensures
        ({
            let s = iso_text(t);
            let c = civil_of(t / 86400);
            let r = t % 86400;
            &&& s.len() == 20
            &&& vstd::utf8::is_ascii_chars(s)
            &&& s[4] == '-' && s[7] == '-' && s[19] == 'Z'
            &&& parse_signed(s.subrange(0, 4)) == Some(c.0)
            &&& parse_signed(s.subrange(5, 7)) == Some(c.1)
            &&& parse_signed(s.subrange(8, 10)) == Some(c.2)
            &&& parse_signed(s.subrange(11, 13)) == Some(r / 3600)
            &&& parse_signed(s.subrange(14, 16)) == Some((r % 3600) / 60)
            &&& parse_signed(s.subrange(17, 19)) == Some(r % 60)
        }),
{
    let z = t / 86400;
    let r = t % 86400;
    let c = civil_of(z);
    law_days_civil_days(z);
    law_four_digit_years(z);
    let y4 = padded_decimal(c.0, 4);
    let m2 = padded_decimal(c.1, 2);
    let d2 = padded_decimal(c.2, 2);
    let h2 = padded_decimal(r / 3600, 2);
    let i2 = padded_decimal((r % 3600) / 60, 2);
    let s2 = padded_decimal(r % 60, 2);
    lemma_padded_reads(c.0, 4);
    lemma_padded_reads(c.1, 2);
    lemma_padded_reads(c.2, 2);
    lemma_padded_reads(r / 3600, 2);
    lemma_padded_reads((r % 3600) / 60, 2);
    lemma_padded_reads(r % 60, 2);
    let s = iso_text(t);
    assert(s =~= y4 + seq!['-'] + m2 + seq!['-'] + d2 + seq!['T'] + h2 + seq![':'] + i2 + seq![':']
        + s2 + seq!['Z']);
    assert(s.subrange(0, 4) =~= y4);
    assert(s.subrange(5, 7) =~= m2);
    assert(s.subrange(8, 10) =~= d2);
    assert(s.subrange(11, 13) =~= h2);
    assert(s.subrange(14, 16) =~= i2);
    assert(s.subrange(17, 19) =~= s2);
    assert forall|i: int| 0 <= i < s.len() implies '\0' <= #[trigger] s[i] <= '\u{7f}' by {
        if 0 <= i < 4 {
            assert(s[i] == y4[i]);
            assert(is_digit(y4[i]));
        } else if 5 <= i < 7 {
            assert(s[i] == m2[i - 5]);
            assert(is_digit(m2[i - 5]));
        } else if 8 <= i < 10 {
            assert(s[i] == d2[i - 8]);
            assert(is_digit(d2[i - 8]));
        } else if 11 <= i < 13 {
            assert(s[i] == h2[i - 11]);
            assert(is_digit(h2[i - 11]));
        } else if 14 <= i < 16 {
            assert(s[i] == i2[i - 14]);
            assert(is_digit(i2[i - 14]));
        } else if 17 <= i < 19 {
            assert(s[i] == s2[i - 17]);
            assert(is_digit(s2[i - 17]));
        }
    }
}

/// Reading back a timestamp written by `timestamp_to_iso` gives its milliseconds, for every
/// instant from 1970-01-01T00:00:00Z through 9999-12-31T23:59:59Z; such a text never makes
/// the reader slice inside a character.
pub proof fn law_iso_text_reads_back(t: int)
    requires
        0 <= t <= 253402300799,
    ensures
        text_epoch_ms(iso_text(t)) == Some(t * 1000),
        !text_reading_panics(iso_text(t)),
{
    let s = iso_text(t);
    lemma_iso_layout(t);
    let b = vstd::utf8::encode_utf8(s);
    vstd::utf8::is_ascii_chars_encode_utf8(s);
    vstd::utf8::is_ascii_chars_nat_bound(s);
    assert(byte_chars(b) =~= s) by {
        assert forall|i: int| 0 <= i < s.len() implies #[trigger] byte_chars(b)[i] == s[i] by {
            assert(b[i] == s[i] as u8);
            assert((s[i] as nat) < 128);
        }
    }
    assert forall|lo: int, hi: int| 0 <= lo <= hi <= 20 implies #[trigger] byte_chars(
        b.subrange(lo, hi),
    ) == s.subrange(lo, hi) by {
        assert(byte_chars(b.subrange(lo, hi)) =~= byte_chars(b).subrange(lo, hi));
    }
    assert(b[4] == 0x2d && b[7] == 0x2d && b[19] == 0x5a);
    let z = t / 86400;
    let r = t % 86400;
    let c = civil_of(z);
    assert(field_value(b, 0, 4) == Some(c.0));
    assert(field_value(b, 5, 7) == Some(c.1));
    assert(field_value(b, 8, 10) == Some(c.2));
    assert(field_value(b, 11, 13) == Some(r / 3600));
    assert(field_value(b, 14, 16) == Some((r % 3600) / 60));
    assert(field_value(b, 17, 19) == Some(r % 60));
    assert(offset_start(b) is None) by {
        reveal(offset_start);
    }
    law_days_civil_days(z);
    vstd::arithmetic::div_mod::lemma_fundamental_div_mod(t, 86400);
    vstd::arithmetic::div_mod::lemma_fundamental_div_mod(r, 3600);
    vstd::arithmetic::div_mod::lemma_fundamental_div_mod(r % 3600, 60);
    vstd::arithmetic::div_mod::lemma_mod_mod(r, 60, 60);
    assert((r / 3600) * 3600 + ((r % 3600) / 60) * 60 + r % 60 == r);
}

} // verus!

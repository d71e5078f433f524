//! Calendar timestamps with a fixed UTC offset.
//!
//! A [`Timestamp`] keeps the civil fields (year through nanosecond) together
//! with the offset they were observed in, which is exactly what the on-disk
//! format stores.  Ordering goes through [`Timestamp::instant_seconds`], the
//! count of seconds since the civil epoch after removing the offset, so two
//! timestamps taken in different offsets compare as instants, not as digits.

use vstd::prelude::*;
use crate::numeral::{dec_pad, dec_value, dec_value_range, all_dec_digits, is_dec_digit, pow10};
use crate::numeral::{lemma_dec_pad_len, lemma_dec_pad_digits, lemma_dec_roundtrip, lemma_pow10_pos, lemma_pow10_add};
use crate::numeral::{dec_val_exec, push_dec_pad, read_number, pow10_exec, digit_run, lemma_digit_run};

verus! {

pub const NANOS_PER_SECOND: u32 = 1_000_000_000;

#[derive(Clone, Copy, PartialEq, Eq, Structural, Debug)]
pub struct Timestamp {
    pub year: u16,
    pub month: u8,
    pub day: u8,
    pub hour: u8,
    pub minute: u8,
    pub second: u8,
    pub nanosecond: u32,
    /// Offset of the local clock from UTC, in minutes.
    pub offset_minutes: i16,
}

impl Timestamp {
    /// Field ranges every stored timestamp satisfies.
    pub open spec fn wf(self) -> bool {
        &&& 1 <= self.year <= 9999
        &&& 1 <= self.month <= 12
        &&& 1 <= self.day <= 31
        &&& self.hour < 24
        &&& self.minute < 60
        &&& self.second < 60
        &&& self.nanosecond < NANOS_PER_SECOND
        &&& -1439 <= self.offset_minutes <= 1439
    }

    /// Days between the civil date and 0000-03-01, counted in the proleptic
    /// Gregorian calendar (the standard era/year-of-era decomposition).
    pub open spec fn day_number(self) -> int {
        let y: int = if self.month <= 2 { self.year - 1 } else { self.year as int };
        let era = y / 400;
        let yoe = y % 400;
        let mp: int = if self.month > 2 { self.month - 3 } else { self.month + 9 };
        let doy = (153 * mp + 2) / 5 + self.day - 1;
        let doe = yoe * 365 + yoe / 4 - yoe / 100 + doy;
        era * 146097 + doe
    }

    /// Seconds since the epoch of `day_number`, with the offset removed:
    /// the instant this timestamp denotes.
    pub open spec fn instant_seconds(self) -> int {
        self.day_number() * 86400 + self.hour * 3600 + self.minute * 60 + self.second
            - self.offset_minutes * 60
    }

    /// `self` denotes an instant no later than `other`.
    pub open spec fn le(self, other: Timestamp) -> bool {
        self.instant_seconds() < other.instant_seconds()
        || (self.instant_seconds() == other.instant_seconds()
            && self.nanosecond <= other.nanosecond)
    }

    /// `self` denotes an instant strictly before `other`.
    pub open spec fn lt(self, other: Timestamp) -> bool {
        self.le(other) && !(other.le(self))
    }

    /// Executable range check, equal to the well-formedness predicate.
    pub fn is_valid(&self) -> (r: bool)
        ensures
            r == self.wf(),
    {
        1 <= self.year && self.year <= 9999
            && 1 <= self.month && self.month <= 12
            && 1 <= self.day && self.day <= 31
            && self.hour < 24
            && self.minute < 60
            && self.second < 60
            && self.nanosecond < NANOS_PER_SECOND
            && -1439 <= self.offset_minutes && self.offset_minutes <= 1439
    }

    /// The day number, computed in machine integers.
    fn day_number_exec(&self) -> (r: u64)
        requires
            self.wf(),
        ensures
            r == self.day_number(),
            r < 3_700_000,
    {
        let y: u64 = if self.month <= 2 { (self.year - 1) as u64 } else { self.year as u64 };
        let era: u64 = y / 400;
        let yoe: u64 = y % 400;
        let mp: u64 = if self.month > 2 { (self.month - 3) as u64 } else { (self.month + 9) as u64 };
        let doy: u64 = (153 * mp + 2) / 5 + (self.day - 1) as u64;
        let doe: u64 = yoe * 365 + yoe / 4 - yoe / 100 + doy;
        era * 146097 + doe
    }

    /// The instant, in seconds, computed in machine integers.
    pub fn instant_seconds_exec(&self) -> (r: i64)
        requires
            self.wf(),
        ensures
            r == self.instant_seconds(),
    {
        let days = self.day_number_exec();
        let sod: u64 = (self.hour as u64) * 3600 + (self.minute as u64) * 60 + self.second as u64;
        (days * 86400 + sod) as i64 - (self.offset_minutes as i64) * 60
    }

    /// Comparison of the instants two timestamps denote.
    pub fn le_exec(&self, other: &Timestamp) -> (r: bool)
        requires
            self.wf(),
            other.wf(),
        ensures
            r == self.le(*other),
    {
        let a = self.instant_seconds_exec();
        let b = other.instant_seconds_exec();
        a < b || (a == b && self.nanosecond <= other.nanosecond)
    }

    /// The later of two timestamps; `b` when they denote the same instant
    /// down to the nanosecond.
    pub open spec fn later_of(a: Timestamp, b: Timestamp) -> Timestamp {
        if b.le(a) && !a.le(b) { a } else { b }
    }

    /// The later of two timestamps; `other` when they denote the same instant
    /// down to the nanosecond.
    pub fn later(&self, other: &Timestamp) -> (r: Timestamp)
        requires
            self.wf(),
            other.wf(),
        ensures
            r == Timestamp::later_of(*self, *other),
            r.wf(),
            self.le(r) || r == *self,
            other.le(r) || r == *other,
    {
        if other.le_exec(self) && !self.le_exec(other) {
            *self
        } else {
            *other
        }
    }
}

} // verus!

verus! {

impl Timestamp {
    /// The character the rendering starts the offset with.
    pub open spec fn offset_sign(self) -> char {
        if self.offset_minutes >= 0 { '+' } else { '-' }
    }

    /// Magnitude of the offset, in minutes.
    pub open spec fn offset_abs(self) -> int {
        if self.offset_minutes >= 0 { self.offset_minutes as int } else { -(self.offset_minutes as int) }
    }

    /// The canonical textual form the store writes: the civil fields, a nine
    /// digit fraction, and an explicit signed offset.
    pub open spec fn render(self) -> Seq<char> {
        dec_pad(self.year as int, 4) + seq!['-'] + dec_pad(self.month as int, 2)
            + seq!['-'] + dec_pad(self.day as int, 2) + seq!['T']
            + dec_pad(self.hour as int, 2) + seq![':'] + dec_pad(self.minute as int, 2)
            + seq![':'] + dec_pad(self.second as int, 2)
            + seq!['.'] + dec_pad(self.nanosecond as int, 9)
            + seq![self.offset_sign()] + dec_pad(self.offset_abs() / 60, 2)
            + seq![':'] + dec_pad(self.offset_abs() % 60, 2)
    }

    /// Appends the canonical textual form.
    #[verifier::rlimit(30)]
    pub fn render_onto(&self, out: &mut Vec<char>) -> (nothing: ())
        requires
            self.wf(),
        ensures
            final(out)@ == old(out)@ + self.render(),
    {
        push_dec_pad(out, self.year as u32, 4);
        out.push('-');
        push_dec_pad(out, self.month as u32, 2);
        out.push('-');
        push_dec_pad(out, self.day as u32, 2);
        out.push('T');
        push_dec_pad(out, self.hour as u32, 2);
        out.push(':');
        push_dec_pad(out, self.minute as u32, 2);
        out.push(':');
        push_dec_pad(out, self.second as u32, 2);
        out.push('.');
        push_dec_pad(out, self.nanosecond, 9);
        let abs: u32 = if self.offset_minutes >= 0 {
            self.offset_minutes as u32
        } else {
            (-(self.offset_minutes as i32)) as u32
        };
        out.push(if self.offset_minutes >= 0 { '+' } else { '-' });
        push_dec_pad(out, abs / 60, 2);
        out.push(':');
        push_dec_pad(out, abs % 60, 2);
        proof {
            assert(final(out)@ =~= old(out)@ + self.render());
        }
    }
}

/// The parse of the textual timestamp form, `None` when the text does not
/// follow it.  Accepted: `YYYY-MM-DDTHH:MM:SS`, an optional fraction of one
/// to nine digits, and either a signed `HH:MM` offset or `Z`/`z` for UTC,
/// with every field in range.  A leap second (`:60`, as some writers put on
/// disk) folds back into the very end of the last ordinary second.
pub open spec fn sp_parse_timestamp(s: Seq<char>) -> Option<Timestamp> {
    if s.len() < 19 {
        None
    } else if !(all_dec_digits(s, 0, 4) && s[4] == '-' && all_dec_digits(s, 5, 7) && s[7] == '-'
        && all_dec_digits(s, 8, 10) && s[10] == 'T' && all_dec_digits(s, 11, 13) && s[13] == ':'
        && all_dec_digits(s, 14, 16) && s[16] == ':' && all_dec_digits(s, 17, 19)) {
        None
    } else {
        let frac = s.len() > 19 && s[19] == '.';
        let f = if frac { digit_run(s, 20) } else { 0 };
        if frac && !(1 <= f <= 9) {
            None
        } else {
            let nano = if frac { dec_value_range(s, 20, 20 + f) * pow10((9 - f) as nat) } else { 0 };
            let p = if frac { 20 + f } else { 19 };
            let zulu = s.len() == p + 1 && (s[p] == 'Z' || s[p] == 'z');
            let signed = s.len() == p + 6 && (s[p] == '+' || s[p] == '-')
                && all_dec_digits(s, p + 1, p + 3) && s[p + 3] == ':'
                && all_dec_digits(s, p + 4, p + 6);
            if !zulu && !signed {
                None
            } else {
                let year = dec_value_range(s, 0, 4);
                let month = dec_value_range(s, 5, 7);
                let day = dec_value_range(s, 8, 10);
                let hour = dec_value_range(s, 11, 13);
                let minute = dec_value_range(s, 14, 16);
                let second = dec_value_range(s, 17, 19);
                let oh = if signed { dec_value_range(s, p + 1, p + 3) } else { 0 };
                let om = if signed { dec_value_range(s, p + 4, p + 6) } else { 0 };
                if 1 <= year && 1 <= month <= 12 && 1 <= day <= 31 && hour < 24 && minute < 60
                    && second <= 60 && oh < 24 && om < 60 {
                    let abs = oh * 60 + om;
                    let offset = if signed && s[p] == '-' { -abs } else { abs };
                    if second == 60 {
                        Some(Timestamp {
                            year: year as u16,
                            month: month as u8,
                            day: day as u8,
                            hour: hour as u8,
                            minute: minute as u8,
                            second: 59,
                            nanosecond: 999_999_999,
                            offset_minutes: offset as i16,
                        })
                    } else {
                        Some(Timestamp {
                            year: year as u16,
                            month: month as u8,
                            day: day as u8,
                            hour: hour as u8,
                            minute: minute as u8,
                            second: second as u8,
                            nanosecond: nano as u32,
                            offset_minutes: offset as i16,
                        })
                    }
                } else {
                    None
                }
            }
        }
    }
}

} // verus!

verus! {

/// Reads the textual timestamp form back into its fields.
pub fn parse_timestamp(s: &[char]) -> (r: Option<Timestamp>)
    ensures
        r == sp_parse_timestamp(s@),
{
    if s.len() < 19 {
        return None;
    }
    let year = match read_number(s, 0, 4) { Some(v) => v, None => { return None; } };
    if !(s[4] == '-') { return None; }
    let month = match read_number(s, 5, 7) { Some(v) => v, None => { return None; } };
    if !(s[7] == '-') { return None; }
    let day = match read_number(s, 8, 10) { Some(v) => v, None => { return None; } };
    if !(s[10] == 'T') { return None; }
    let hour = match read_number(s, 11, 13) { Some(v) => v, None => { return None; } };
    if !(s[13] == ':') { return None; }
    let minute = match read_number(s, 14, 16) { Some(v) => v, None => { return None; } };
    if !(s[16] == ':') { return None; }
    let second = match read_number(s, 17, 19) { Some(v) => v, None => { return None; } };

    let frac = s.len() > 19 && s[19] == '.';
    let mut nano: u32 = 0;
    let mut p: usize = 19;
    if frac {
        let n = s.len();
        let mut f: usize = 0;
        while 20 + f < n && dec_val_exec(s[20 + f]) < 10
            invariant
                n == s@.len(),
                20 <= n,
                20 + f <= n,
                all_dec_digits(s@, 20, 20 + f),
            decreases n - f,
        {
            assert(is_dec_digit(s@[20 + f as int]));
            f = f + 1;
            assert forall|k: int| 20 <= k < 20 + f implies is_dec_digit(#[trigger] s@[k]) by {};
        }
        proof {
            lemma_digit_run(s@, 20, f as int);
        }
        if f < 1 || 9 < f {
            return None;
        }
        let v = match read_number(s, 20, 20 + f) {
            Some(v) => v,
            None => { proof { assert(false); } return None; }
        };
        proof {
            lemma_pow10_add(f as nat, (9 - f) as nat);
            lemma_pow10_pos((9 - f) as nat);
            lemma_pow10_pos(f as nat);
            assert(v * pow10((9 - f) as nat) < pow10(f as nat) * pow10((9 - f) as nat))
                by (nonlinear_arith)
                requires v < pow10(f as nat), pow10((9 - f) as nat) >= 1,
            ;
            reveal_with_fuel(pow10, 10);
            assert(pow10(9) == 1_000_000_000);
        }
        nano = v * pow10_exec(9 - f);
        p = 20 + f;
    }
    let zulu = s.len() == p + 1 && (s[p] == 'Z' || s[p] == 'z');
    let mut offset_minutes: i16 = 0;
    if !zulu {
        if s.len() != p + 6 {
            return None;
        }
        let sign = s[p];
        if !(sign == '+' || sign == '-') {
            return None;
        }
        let oh = match read_number(s, p + 1, p + 3) { Some(v) => v, None => { return None; } };
        if !(s[p + 3] == ':') { return None; }
        let om = match read_number(s, p + 4, p + 6) { Some(v) => v, None => { return None; } };
        if !(oh < 24 && om < 60) {
            return None;
        }
        let abs: u32 = oh * 60 + om;
        offset_minutes = if sign == '-' { -((abs as i16)) } else { abs as i16 };
    }
    if !(1 <= year && 1 <= month && month <= 12 && 1 <= day && day <= 31 && hour < 24
        && minute < 60 && second <= 60) {
        return None;
    }
    if second == 60 {
        // a leap second, as chrono writes one, folds back into second 59
        Some(Timestamp {
            year: year as u16,
            month: month as u8,
            day: day as u8,
            hour: hour as u8,
            minute: minute as u8,
            second: 59,
            nanosecond: 999_999_999,
            offset_minutes,
        })
    } else {
        Some(Timestamp {
            year: year as u16,
            month: month as u8,
            day: day as u8,
            hour: hour as u8,
            minute: minute as u8,
            second: second as u8,
            nanosecond: nano,
            offset_minutes,
        })
    }
}

/// Reading the canonical rendering back yields the same timestamp.
#[verifier::rlimit(50)]
pub proof fn lemma_timestamp_roundtrip(t: Timestamp)
    requires
        t.wf(),
    ensures
        sp_parse_timestamp(t.render()) == Some(t),
{
    let s = t.render();
    reveal_with_fuel(pow10, 11);
    lemma_dec_pad_len(t.year as int, 4);
    lemma_dec_pad_len(t.month as int, 2);
    lemma_dec_pad_len(t.day as int, 2);
    lemma_dec_pad_len(t.hour as int, 2);
    lemma_dec_pad_len(t.minute as int, 2);
    lemma_dec_pad_len(t.second as int, 2);
    lemma_dec_pad_len(t.nanosecond as int, 9);
    lemma_dec_pad_len(t.offset_abs() / 60, 2);
    lemma_dec_pad_len(t.offset_abs() % 60, 2);
    assert(s.len() == 35);
    assert(s.subrange(0, 4) =~= dec_pad(t.year as int, 4));
    assert(s[4] == '-');
    assert(s.subrange(5, 7) =~= dec_pad(t.month as int, 2));
    assert(s[7] == '-');
    assert(s.subrange(8, 10) =~= dec_pad(t.day as int, 2));
    assert(s[10] == 'T');
    assert(s.subrange(11, 13) =~= dec_pad(t.hour as int, 2));
    assert(s[13] == ':');
    assert(s.subrange(14, 16) =~= dec_pad(t.minute as int, 2));
    assert(s[16] == ':');
    assert(s.subrange(17, 19) =~= dec_pad(t.second as int, 2));
    assert(s[19] == '.');
    assert(s.subrange(20, 29) =~= dec_pad(t.nanosecond as int, 9));
    assert(s[29] == t.offset_sign());
    assert(s.subrange(30, 32) =~= dec_pad(t.offset_abs() / 60, 2));
    assert(s[32] == ':');
    assert(s.subrange(33, 35) =~= dec_pad(t.offset_abs() % 60, 2));

    assert forall|k: int| 20 <= k < 29 implies is_dec_digit(#[trigger] s[k]) by {
        lemma_dec_pad_digits(t.nanosecond as int, 9, k - 20);
        assert(s[k] == dec_pad(t.nanosecond as int, 9)[k - 20]);
    };
    assert(all_dec_digits(s, 20, 29));
    assert(!is_dec_digit(s[29]));
    lemma_digit_run(s, 20, 9);

    assert forall|k: int| 0 <= k < 4 implies is_dec_digit(#[trigger] s[k]) by {
        lemma_dec_pad_digits(t.year as int, 4, k);
    };
    assert forall|k: int| 5 <= k < 7 implies is_dec_digit(#[trigger] s[k]) by {
        lemma_dec_pad_digits(t.month as int, 2, k - 5);
    };
    assert forall|k: int| 8 <= k < 10 implies is_dec_digit(#[trigger] s[k]) by {
        lemma_dec_pad_digits(t.day as int, 2, k - 8);
    };
    assert forall|k: int| 11 <= k < 13 implies is_dec_digit(#[trigger] s[k]) by {
        lemma_dec_pad_digits(t.hour as int, 2, k - 11);
    };
    assert forall|k: int| 14 <= k < 16 implies is_dec_digit(#[trigger] s[k]) by {
        lemma_dec_pad_digits(t.minute as int, 2, k - 14);
    };
    assert forall|k: int| 17 <= k < 19 implies is_dec_digit(#[trigger] s[k]) by {
        lemma_dec_pad_digits(t.second as int, 2, k - 17);
    };
    assert forall|k: int| 30 <= k < 32 implies is_dec_digit(#[trigger] s[k]) by {
        lemma_dec_pad_digits(t.offset_abs() / 60, 2, k - 30);
    };
    assert forall|k: int| 33 <= k < 35 implies is_dec_digit(#[trigger] s[k]) by {
        lemma_dec_pad_digits(t.offset_abs() % 60, 2, k - 33);
    };

    lemma_dec_roundtrip(t.year as int, 4);
    lemma_dec_roundtrip(t.month as int, 2);
    lemma_dec_roundtrip(t.day as int, 2);
    lemma_dec_roundtrip(t.hour as int, 2);
    lemma_dec_roundtrip(t.minute as int, 2);
    lemma_dec_roundtrip(t.second as int, 2);
    lemma_dec_roundtrip(t.nanosecond as int, 9);
    lemma_dec_roundtrip(t.offset_abs() / 60, 2);
    lemma_dec_roundtrip(t.offset_abs() % 60, 2);

    assert(dec_value_range(s, 0, 4) == t.year);
    assert(dec_value_range(s, 5, 7) == t.month);
    assert(dec_value_range(s, 8, 10) == t.day);
    assert(dec_value_range(s, 11, 13) == t.hour);
    assert(dec_value_range(s, 14, 16) == t.minute);
    assert(dec_value_range(s, 17, 19) == t.second);
    assert(dec_value_range(s, 20, 29) == t.nanosecond);
    assert(dec_value_range(s, 30, 32) == t.offset_abs() / 60);
    assert(dec_value_range(s, 33, 35) == t.offset_abs() % 60);
    assert(t.offset_abs() / 60 * 60 + t.offset_abs() % 60 == t.offset_abs());

    let parsed = sp_parse_timestamp(s);
    assert(parsed is Some);
    let u = parsed->0;
    assert(digit_run(s, 20) == 9);
    assert(pow10(0) == 1);
    assert(dec_value_range(s, 20, 20 + digit_run(s, 20)) == t.nanosecond);
    assert((9 - digit_run(s, 20)) as nat == 0);
    let x = dec_value_range(s, 20, 20 + digit_run(s, 20));
    assert(x * pow10((9 - digit_run(s, 20)) as nat) == x * pow10(0));
    assert(x * pow10(0) == x) by (nonlinear_arith)
        requires pow10(0) == 1,
    ;
    assert(u.year == t.year);
    assert(u.month == t.month);
    assert(u.day == t.day);
    assert(u.hour == t.hour);
    assert(u.minute == t.minute);
    assert(u.second == t.second);
    assert(u.nanosecond == t.nanosecond);
    assert(u.offset_minutes == t.offset_minutes);
    assert(u == t);
}

} // verus!

verus! {

/// Whatever the textual parse accepts is well formed.
pub proof fn lemma_sp_parse_timestamp_wf(s: Seq<char>)
    ensures
        match sp_parse_timestamp(s) {
            Some(t) => t.wf(),
            None => true,
        },
{
    reveal_with_fuel(pow10, 11);
    if sp_parse_timestamp(s) is Some {
        let frac = s.len() > 19 && s[19] == '.';
        let f = if frac { digit_run(s, 20) } else { 0 };
        let yr = s.subrange(0, 4);
        assert(yr.len() == 4);
        assert(all_dec_digits(yr, 0, 4)) by {
            assert forall|k: int| 0 <= k < 4 implies is_dec_digit(#[trigger] yr[k]) by {
                assert(yr[k] == s[k]);
            };
        };
        crate::numeral::lemma_dec_value_bound(yr);
        if frac {
            crate::numeral::lemma_digit_run_digits(s, 20);
            let fr = s.subrange(20, 20 + f);
            assert(all_dec_digits(fr, 0, f)) by {
                assert forall|k: int| 0 <= k < f implies is_dec_digit(#[trigger] fr[k]) by {
                    assert(fr[k] == s[20 + k]);
                };
            };
            crate::numeral::lemma_dec_value_bound(fr);
            lemma_pow10_add(f as nat, (9 - f) as nat);
            lemma_pow10_pos((9 - f) as nat);
            assert(dec_value(fr) * pow10((9 - f) as nat) < pow10(f as nat) * pow10((9 - f) as nat))
                by (nonlinear_arith)
                requires
                    dec_value(fr) < pow10(f as nat),
                    dec_value(fr) >= 0,
                    pow10((9 - f) as nat) >= 1,
            ;
            assert(pow10(f as nat) * pow10((9 - f) as nat) == pow10(9));
            assert(dec_value_range(s, 20, 20 + f) == dec_value(fr));
        }
        let p = if frac { 20 + f } else { 19 };
        let signed = s.len() == p + 6 && (s[p] == '+' || s[p] == '-')
            && all_dec_digits(s, p + 1, p + 3) && s[p + 3] == ':'
            && all_dec_digits(s, p + 4, p + 6);
        crate::numeral::lemma_dec_value_range_bound(s, 0, 4);
        crate::numeral::lemma_dec_value_range_bound(s, 5, 7);
        crate::numeral::lemma_dec_value_range_bound(s, 8, 10);
        crate::numeral::lemma_dec_value_range_bound(s, 11, 13);
        crate::numeral::lemma_dec_value_range_bound(s, 14, 16);
        crate::numeral::lemma_dec_value_range_bound(s, 17, 19);
        if signed {
            crate::numeral::lemma_dec_value_range_bound(s, p + 1, p + 3);
            crate::numeral::lemma_dec_value_range_bound(s, p + 4, p + 6);
        }
        if frac {
            crate::numeral::lemma_dec_value_range_bound(s, 20, 20 + f);
        }
        let t = sp_parse_timestamp(s)->0;
        assert(1 <= t.year <= 9999);
        assert(1 <= t.month <= 12);
        assert(1 <= t.day <= 31);
        assert(t.hour < 24 && t.minute < 60 && t.second < 60);
        assert(t.nanosecond < NANOS_PER_SECOND);
        assert(-1439 <= t.offset_minutes <= 1439);
    }
}

} // verus!

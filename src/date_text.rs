//! Writing dates and times as text, and what reading that text gives back.
use vstd::prelude::*;

use crate::date_time::{Date, DateTime, Time, u16_tok, u8_tok, month_of_name, DateTimeErrorView};
use crate::date_time_filter::{digit_tokens, lemma_digit_tokens_nonempty, spec_parse_date_optional_time};
use crate::text::{all_digits, digit_of, digits_value, is_digit, parsed_uint, unsigned_digits, string_of};

verus! {

/// The decimal digit of `k`, for `k` in `0..=9`.
pub open spec fn digit_char(k: int) -> char {
    if k <= 0 {
        '0'
    } else if k == 1 {
        '1'
    } else if k == 2 {
        '2'
    } else if k == 3 {
        '3'
    } else if k == 4 {
        '4'
    } else if k == 5 {
        '5'
    } else if k == 6 {
        '6'
    } else if k == 7 {
        '7'
    } else if k == 8 {
        '8'
    } else {
        '9'
    }
}

/// The decimal writing of `n`, without leading zeros.
pub open spec fn dec(n: nat) -> Seq<char>
    decreases n,
{
    if n < 10 {
        seq![digit_char(n as int)]
    } else {
        dec(n / 10).push(digit_char((n % 10) as int))
    }
}

/// Two digits, for a number below 100.
pub open spec fn pad2(n: nat) -> Seq<char> {
    seq![digit_char((n / 10) as int), digit_char((n % 10) as int)]
}

/// Four digits, for a number below 10000.
pub open spec fn pad4(n: nat) -> Seq<char> {
    seq![
        digit_char((n / 1000) as int),
        digit_char((n / 100 % 10) as int),
        digit_char((n / 10 % 10) as int),
        digit_char((n % 10) as int),
    ]
}

/// A date written `year/MM/DD`.
pub open spec fn date_text(d: Date) -> Seq<char> {
    dec(d.year as nat).push('/') + pad2(d.month as nat) + seq!['/'] + pad2(d.day as nat)
}

/// A time written `HH:MM:SS`.
pub open spec fn time_text(t: Time) -> Seq<char> {
    pad2(t.hour as nat) + seq![':'] + pad2(t.minute as nat) + seq![':'] + pad2(t.second as nat)
}

/// A date and time written `year/MM/DDTHH:MM:SS`.
pub open spec fn date_time_text(dt: DateTime) -> Seq<char> {
    date_text(dt.date) + seq!['T'] + time_text(dt.time)
}

proof fn lemma_digit_char(k: int)
    requires
        0 <= k <= 9,
    ensures
        is_digit(digit_char(k)),
        digit_of(digit_char(k)) == k,
{
}

proof fn lemma_dec(n: nat)
    ensures
        dec(n).len() >= 1,
        all_digits(dec(n)),
        digits_value(dec(n)) == n,
    decreases n,
{
    if n < 10 {
        lemma_digit_char(n as int);
        assert(dec(n).drop_last() =~= Seq::<char>::empty());
        assert(digits_value(dec(n)) == digits_value(Seq::<char>::empty()) * 10 + digit_of(digit_char(n as int)));
    } else {
        lemma_dec(n / 10);
        lemma_digit_char((n % 10) as int);
        assert(dec(n).drop_last() =~= dec(n / 10));
        assert(digits_value(dec(n)) == digits_value(dec(n / 10)) * 10 + digit_of(digit_char((n % 10) as int)));
        assert((n / 10) * 10 + n % 10 == n);
    }
}

/// A writing in digits parses back to its value.
proof fn lemma_parse_digits(s: Seq<char>, max: nat)
    requires
        s.len() >= 1,
        all_digits(s),
        digits_value(s) <= max,
    ensures
        parsed_uint(s, max) == Some(digits_value(s)),
{
    assert(is_digit(s[0]));
    assert(unsigned_digits(s) == s);
}

proof fn lemma_pad2(n: nat)
    requires
        n < 100,
    ensures
        all_digits(pad2(n)),
        digits_value(pad2(n)) == n,
        u8_tok(pad2(n)) == Some(n as u8),
{
    lemma_digit_char((n / 10) as int);
    lemma_digit_char((n % 10) as int);
    let s = pad2(n);
    let (a, b) = (digit_char((n / 10) as int), digit_char((n % 10) as int));
    assert(s.drop_last() =~= seq![a]);
    assert(s.drop_last().drop_last() =~= Seq::<char>::empty());
    assert(digits_value(seq![a]) == digits_value(Seq::<char>::empty()) * 10 + digit_of(a));
    assert(digits_value(s) == digits_value(seq![a]) * 10 + digit_of(b));
    assert((n / 10) * 10 + n % 10 == n);
    lemma_parse_digits(s, 255);
}

proof fn lemma_pad4(n: nat)
    requires
        n < 10000,
    ensures
        all_digits(pad4(n)),
        digits_value(pad4(n)) == n,
        u16_tok(pad4(n)) == Some(n as u16),
        parsed_uint(pad4(n), 65535) is Some,
{
    lemma_digit_char((n / 1000) as int);
    lemma_digit_char((n / 100 % 10) as int);
    lemma_digit_char((n / 10 % 10) as int);
    lemma_digit_char((n % 10) as int);
    let s = pad4(n);
    let (a, b, c, d) = (digit_char((n / 1000) as int), digit_char((n / 100 % 10) as int), digit_char((n / 10 % 10) as int), digit_char((n % 10) as int));
    assert(s.drop_last() =~= seq![a, b, c]);
    assert(seq![a, b, c].drop_last() =~= seq![a, b]);
    assert(seq![a, b].drop_last() =~= seq![a]);
    assert(seq![a].drop_last() =~= Seq::<char>::empty());
    assert(digits_value(seq![a]) == digits_value(Seq::<char>::empty()) * 10 + digit_of(a));
    assert(digits_value(seq![a, b]) == digits_value(seq![a]) * 10 + digit_of(b));
    assert(digits_value(seq![a, b, c]) == digits_value(seq![a, b]) * 10 + digit_of(c));
    assert(digits_value(s) == digits_value(seq![a, b, c]) * 10 + digit_of(d));
    assert(((n / 1000) * 10 + n / 100 % 10) * 10 + n / 10 % 10 == n / 10);
    assert((n / 10) * 10 + n % 10 == n);
    lemma_parse_digits(s, 65535);
}

/// Digits added at the end of a text lengthen its last run of digits.
proof fn lemma_tokens_append_digits(s: Seq<char>, t: Seq<char>)
    requires
        all_digits(t),
    ensures
        digit_tokens(s + t) == digit_tokens(s).update(
            digit_tokens(s).len() - 1,
            digit_tokens(s).last() + t,
        ),
    decreases t.len(),
{
    lemma_digit_tokens_nonempty(s);
    if t.len() == 0 {
        assert(s + t =~= s);
        assert(digit_tokens(s).last() + t =~= digit_tokens(s).last());
        assert(digit_tokens(s).update(digit_tokens(s).len() - 1, digit_tokens(s).last()) =~= digit_tokens(s));
    } else {
        let t0 = t.drop_last();
        assert(all_digits(t0));
        lemma_tokens_append_digits(s, t0);
        assert((s + t).drop_last() =~= s + t0);
        assert((s + t).last() == t.last());
        let p = digit_tokens(s + t0);
        assert(p.last() =~= digit_tokens(s).last() + t0);
        assert(p.last().push(t.last()) =~= digit_tokens(s).last() + t);
        assert(digit_tokens(s + t) =~= digit_tokens(s).update(digit_tokens(s).len() - 1, digit_tokens(s).last() + t));
    }
}

/// Another character added at the end of a text starts a new run.
proof fn lemma_tokens_push_sep(s: Seq<char>, c: char)
    requires
        !is_digit(c),
    ensures
        digit_tokens(s.push(c)) == digit_tokens(s).push(Seq::<char>::empty()),
{
    assert(s.push(c).drop_last() =~= s);
}

/// The runs of digits of `a`, then a separator, then the digits `b`.
proof fn lemma_tokens_then(a: Seq<char>, c: char, b: Seq<char>)
    requires
        !is_digit(c),
        all_digits(b),
    ensures
        digit_tokens(a.push(c) + b) == digit_tokens(a).push(b),
{
    lemma_tokens_push_sep(a, c);
    lemma_tokens_append_digits(a.push(c), b);
    assert(Seq::<char>::empty() + b =~= b);
    assert(digit_tokens(a.push(c)).update(digit_tokens(a.push(c)).len() - 1, Seq::<char>::empty() + b) =~= digit_tokens(a).push(b));
}

/// Writing a date, or a date and time, and reading the text back as a
/// pattern date gives the same date, and time, whatever the defaults.
pub proof fn lemma_round_trip(d: Date, t: Time, dy: Option<u16>, dm: Option<u8>)
    requires
        d.wf(),
        t.wf(),
    ensures
        spec_parse_date_optional_time(date_text(d), dy, dm) == Ok::<(Date, Option<Time>), DateTimeErrorView>((d, None)),
        spec_parse_date_optional_time(date_time_text(DateTime { date: d, time: t }), dy, dm)
            == Ok::<(Date, Option<Time>), DateTimeErrorView>((d, Some(t))),
{
    let y = dec(d.year as nat);
    lemma_dec(d.year as nat);
    lemma_parse_digits(y, 65535);
    lemma_pad2(d.month as nat);
    lemma_pad2(d.day as nat);
    lemma_pad2(t.hour as nat);
    lemma_pad2(t.minute as nat);
    lemma_pad2(t.second as nat);
    let (m, dd, h, mi, se) = (pad2(d.month as nat), pad2(d.day as nat), pad2(t.hour as nat), pad2(t.minute as nat), pad2(t.second as nat));
    lemma_tokens_append_digits(Seq::<char>::empty(), y);
    assert(Seq::<char>::empty() + y =~= y);
    assert(digit_tokens(Seq::<char>::empty()) =~= seq![Seq::<char>::empty()]);
    assert(digit_tokens(y) =~= seq![y]);
    let s1 = y.push('/') + m;
    lemma_tokens_then(y, '/', m);
    let s2 = s1.push('/') + dd;
    lemma_tokens_then(s1, '/', dd);
    assert(s1 + seq!['/'] + dd =~= s2);
    assert(date_text(d) =~= s2);
    assert(digit_tokens(s2) =~= seq![y, m, dd]);
    let s3 = s2.push('T') + h;
    lemma_tokens_then(s2, 'T', h);
    let s4 = s3.push(':') + mi;
    lemma_tokens_then(s3, ':', mi);
    let s5 = s4.push(':') + se;
    lemma_tokens_then(s4, ':', se);
    assert(date_time_text(DateTime { date: d, time: t }) =~= s5);
    assert(digit_tokens(s5) =~= seq![y, m, dd, h, mi, se]);
}

/// The three-letter name of a month.
pub open spec fn month_name(m: u8) -> Seq<char> {
    if m == 1 { "Jan"@ } else if m == 2 { "Feb"@ } else if m == 3 { "Mar"@ } else if m == 4 { "Apr"@ }
    else if m == 5 { "May"@ } else if m == 6 { "Jun"@ } else if m == 7 { "Jul"@ } else if m == 8 { "Aug"@ }
    else if m == 9 { "Sep"@ } else if m == 10 { "Oct"@ } else if m == 11 { "Nov"@ } else { "Dec"@ }
}

/// An instant in the common log format: `DD/Mon/YYYY:HH:MM:SS +0000`.
pub open spec fn common_log_text(dt: DateTime) -> Seq<char> {
    let (y, mo, d) = (pad4(dt.date.year as nat), month_name(dt.date.month), pad2(dt.date.day as nat));
    let (h, mi, s) = (pad2(dt.time.hour as nat), pad2(dt.time.minute as nat), pad2(dt.time.second as nat));
    seq![
        d[0], d[1], '/', mo[0], mo[1], mo[2], '/', y[0], y[1], y[2], y[3], ':', h[0], h[1], ':',
        mi[0], mi[1], ':', s[0], s[1], ' ', '+', '0', '0', '0', '0',
    ]
}

/// An instant in ISO 8601: `YYYY-MM-DDTHH:MM:SS+00:00`.
pub open spec fn iso_text(dt: DateTime) -> Seq<char> {
    let (y, mo, d) = (pad4(dt.date.year as nat), pad2(dt.date.month as nat), pad2(dt.date.day as nat));
    let (h, mi, s) = (pad2(dt.time.hour as nat), pad2(dt.time.minute as nat), pad2(dt.time.second as nat));
    seq![
        y[0], y[1], y[2], y[3], '-', mo[0], mo[1], '-', d[0], d[1], 'T', h[0], h[1], ':', mi[0],
        mi[1], ':', s[0], s[1], '+', '0', '0', ':', '0', '0',
    ]
}

#[verifier::rlimit(100)]
proof fn lemma_iso(dt: DateTime)
    requires
        dt.wf(),
        dt.date.year <= 9999,
    ensures
        DateTime::spec_from_nginx(iso_text(dt)) == Ok::<DateTime, DateTimeErrorView>(dt),
{
    let (d, t) = (dt.date, dt.time);
    lemma_pad4(d.year as nat);
    lemma_pad2(d.month as nat);
    lemma_pad2(d.day as nat);
    lemma_pad2(t.hour as nat);
    lemma_pad2(t.minute as nat);
    lemma_pad2(t.second as nat);
    let iso = iso_text(dt);
    assert(iso.len() == 25);
    assert(iso.subrange(0, 4) =~= pad4(d.year as nat));
    assert(iso.subrange(5, 7) =~= pad2(d.month as nat));
    assert(iso.subrange(8, 10) =~= pad2(d.day as nat));
    assert(iso.subrange(11, 13) =~= pad2(t.hour as nat));
    assert(iso.subrange(14, 16) =~= pad2(t.minute as nat));
    assert(iso.subrange(17, 19) =~= pad2(t.second as nat));
}

proof fn lemma_month_name(m: u8)
    requires
        1 <= m <= 12,
    ensures
        month_name(m).len() == 3,
        month_of_name(month_name(m)) == Some(m),
{
    reveal_strlit("Jan");
    reveal_strlit("Feb");
    reveal_strlit("Mar");
    reveal_strlit("Apr");
    reveal_strlit("May");
    reveal_strlit("Jun");
    reveal_strlit("Jul");
    reveal_strlit("Aug");
    reveal_strlit("Sep");
    reveal_strlit("Oct");
    reveal_strlit("Nov");
    reveal_strlit("Dec");
    assert("Jan"@[0] == 'J' && "Jan"@[1] == 'a' && "Jan"@[2] == 'n');
    assert("Feb"@[0] == 'F' && "Feb"@[1] == 'e' && "Feb"@[2] == 'b');
    assert("Mar"@[0] == 'M' && "Mar"@[1] == 'a' && "Mar"@[2] == 'r');
    assert("Apr"@[0] == 'A' && "Apr"@[1] == 'p' && "Apr"@[2] == 'r');
    assert("May"@[0] == 'M' && "May"@[1] == 'a' && "May"@[2] == 'y');
    assert("Jun"@[0] == 'J' && "Jun"@[1] == 'u' && "Jun"@[2] == 'n');
    assert("Jul"@[0] == 'J' && "Jul"@[1] == 'u' && "Jul"@[2] == 'l');
    assert("Aug"@[0] == 'A' && "Aug"@[1] == 'u' && "Aug"@[2] == 'g');
    assert("Sep"@[0] == 'S' && "Sep"@[1] == 'e' && "Sep"@[2] == 'p');
    assert("Oct"@[0] == 'O' && "Oct"@[1] == 'c' && "Oct"@[2] == 't');
    assert("Nov"@[0] == 'N' && "Nov"@[1] == 'o' && "Nov"@[2] == 'v');
    assert("Dec"@[0] == 'D' && "Dec"@[1] == 'e' && "Dec"@[2] == 'c');
}

#[verifier::rlimit(100)]
proof fn lemma_common_log(dt: DateTime)
    requires
        dt.wf(),
        dt.date.year <= 9999,
    ensures
        DateTime::spec_from_nginx(common_log_text(dt)) == Ok::<DateTime, DateTimeErrorView>(dt),
{
    let (d, t) = (dt.date, dt.time);
    lemma_pad4(d.year as nat);
    lemma_pad2(d.month as nat);
    lemma_pad2(d.day as nat);
    lemma_pad2(t.hour as nat);
    lemma_pad2(t.minute as nat);
    lemma_pad2(t.second as nat);
    lemma_month_name(d.month);
    let clf = common_log_text(dt);
    let mn = month_name(d.month);
    assert(clf.len() == 26);
    assert(clf.subrange(0, 2) =~= pad2(d.day as nat));
    assert(clf.subrange(3, 6) =~= mn);
    assert(clf.subrange(7, 11) =~= pad4(d.year as nat));
    assert(clf.subrange(12, 14) =~= pad2(t.hour as nat));
    assert(clf.subrange(15, 17) =~= pad2(t.minute as nat));
    assert(clf.subrange(18, 20) =~= pad2(t.second as nat));
    let head = clf.subrange(0, 4);
    assert(head[2] == '/');
    assert(head[0] == pad2(d.day as nat)[0]);
    assert(is_digit(pad2(d.day as nat)[0]));
    assert(unsigned_digits(head) == head);
    assert(!is_digit(head[2]));
    assert(!all_digits(head));
    assert(parsed_uint(head, 65535) is None);
}

/// An instant written in either timestamp encoding reads back as itself,
/// so both encodings of one instant give equal values. The year must fit
/// the four digits of the encodings.
pub proof fn lemma_both_encodings(dt: DateTime)
    requires
        dt.wf(),
        dt.date.year <= 9999,
    ensures
        DateTime::spec_from_nginx(common_log_text(dt)) == Ok::<DateTime, DateTimeErrorView>(dt),
        DateTime::spec_from_nginx(iso_text(dt)) == Ok::<DateTime, DateTimeErrorView>(dt),
{
    lemma_iso(dt);
    lemma_common_log(dt);
}

fn digit_char_exec(k: u64) -> (r: char)
    requires
        k <= 9,
    ensures
        r == digit_char(k as int),
{
    if k == 0 {
        '0'
    } else if k == 1 {
        '1'
    } else if k == 2 {
        '2'
    } else if k == 3 {
        '3'
    } else if k == 4 {
        '4'
    } else if k == 5 {
        '5'
    } else if k == 6 {
        '6'
    } else if k == 7 {
        '7'
    } else if k == 8 {
        '8'
    } else {
        '9'
    }
}

fn push_dec(v: &mut Vec<char>, n: u64)
    ensures
        final(v)@ == old(v)@ + dec(n as nat),
    decreases n,
{
    if n >= 10 {
        push_dec(v, n / 10);
    }
    v.push(digit_char_exec(n % 10));
    proof {
        if n < 10 {
            assert(old(v)@ + dec(n as nat) =~= old(v)@.push(digit_char(n as int)));
        } else {
            assert(old(v)@ + dec(n as nat) =~= (old(v)@ + dec((n / 10) as nat)).push(digit_char((n % 10) as int)));
        }
    }
}

fn push_pad2(v: &mut Vec<char>, n: u8)
    requires
        n < 100,
    ensures
        final(v)@ == old(v)@ + pad2(n as nat),
{
    v.push(digit_char_exec((n / 10) as u64));
    v.push(digit_char_exec((n % 10) as u64));
    assert(final(v)@ =~= old(v)@ + pad2(n as nat));
}

impl Date {
    /// The date written `year/MM/DD`.
    pub fn to_string(&self) -> (r: String)
        requires
            self.wf(),
        ensures
            r@ == date_text(*self),
    {
        let mut v: Vec<char> = Vec::new();
        push_dec(&mut v, self.year as u64);
        v.push('/');
        push_pad2(&mut v, self.month);
        v.push('/');
        push_pad2(&mut v, self.day);
        assert(v@ =~= date_text(*self));
        string_of(v.as_slice())
    }
}

impl Time {
    /// The time written `HH:MM:SS`.
    pub fn to_string(&self) -> (r: String)
        requires
            self.wf(),
        ensures
            r@ == time_text(*self),
    {
        let mut v: Vec<char> = Vec::new();
        push_pad2(&mut v, self.hour);
        v.push(':');
        push_pad2(&mut v, self.minute);
        v.push(':');
        push_pad2(&mut v, self.second);
        assert(v@ =~= time_text(*self));
        string_of(v.as_slice())
    }
}

impl DateTime {
    /// The instant written `year/MM/DDTHH:MM:SS`.
    pub fn to_string(&self) -> (r: String)
        requires
            self.wf(),
        ensures
            r@ == date_time_text(*self),
    {
        let mut v: Vec<char> = Vec::new();
        push_dec(&mut v, self.date.year as u64);
        v.push('/');
        push_pad2(&mut v, self.date.month);
        v.push('/');
        push_pad2(&mut v, self.date.day);
        v.push('T');
        push_pad2(&mut v, self.time.hour);
        v.push(':');
        push_pad2(&mut v, self.time.minute);
        v.push(':');
        push_pad2(&mut v, self.time.second);
        assert(v@ =~= date_time_text(*self));
        string_of(v.as_slice())
    }
}

} // verus!

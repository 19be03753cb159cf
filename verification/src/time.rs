//! Times as text: `mm:ss.mmm`, with the hours in front where there are any.

use crate::text;
use crate::text::{
    chars_of, decimal_text, lower_text, padded_text, parse_unsigned, split_text, text_of, trim,
};
use vstd::prelude::*;
use vstd::string::*;

verus! {

/// The whole seconds to show: one more where the fraction was rounded up to a
/// whole second.
pub open spec fn shown_seconds(seconds: nat, millis: nat) -> nat {
    if millis >= 1000 {
        seconds + 1
    } else {
        seconds
    }
}

pub open spec fn shown_millis(millis: nat) -> nat {
    if millis >= 1000 {
        0
    } else {
        millis
    }
}

/// Seconds and thousandths as shown behind the minutes.
pub open spec fn seconds_text(seconds: nat, millis: nat) -> Seq<char> {
    text::padded(shown_seconds(seconds, millis) % 60, 2) + "."@ + text::padded(
        shown_millis(millis),
        3,
    )
}

/// The minutes as shown behind the hours.
pub open spec fn minutes_text(seconds: nat, millis: nat) -> Seq<char> {
    text::padded((shown_seconds(seconds, millis) / 60) % 60, 2)
}

/// The hours as shown, if there are any.
pub open spec fn hours_text(seconds: nat, millis: nat) -> Seq<char> {
    let hours = shown_seconds(seconds, millis) / 3600;
    if hours > 0 {
        text::decimal(hours) + ":"@
    } else {
        ""@
    }
}

/// A time as shown.
pub open spec fn time_text(seconds: nat, millis: nat) -> Seq<char> {
    hours_text(seconds, millis) + minutes_text(seconds, millis) + ":"@ + seconds_text(
        seconds,
        millis,
    )
}

/// Formats a time, given as its whole seconds and the rounded thousandths
/// behind them.
pub fn format_time(seconds: u64, millis: u64) -> (r: String)
    ensures
        r@ == time_text(seconds as nat, millis as nat),
{
    let (s, ms): (u128, u64) = if millis >= 1000 {
        (seconds as u128 + 1, 0)
    } else {
        (seconds as u128, millis)
    };
    let hours: u64 = (s / 3600) as u64;
    let mut out = if hours > 0 {
        let mut h = decimal_text(hours);
        h.append(":");
        h
    } else {
        String::from_str("")
    };
    out.append(padded_text(((s / 60) % 60) as u64, 2).as_str());
    out.append(":");
    out.append(padded_text((s % 60) as u64, 2).as_str());
    out.append(".");
    out.append(padded_text(ms, 3).as_str());
    assert(out@ =~= time_text(seconds as nat, millis as nat));
    out
}

/// A typed time: the hours and minutes, whichever there are, and the seconds
/// as typed, which may have a fraction.
#[derive(Debug)]
pub struct TimeParts {
    pub leading: Vec<u64>,
    pub seconds: String,
}

/// The whole number that each piece but the last stands for, if they all do.
pub open spec fn leading_of(pieces: Seq<Seq<char>>) -> Option<Seq<u64>>
    decreases pieces.len(),
{
    if pieces.len() <= 1 {
        Some(Seq::empty())
    } else {
        match (
            text::unsigned_of(text::trimmed(pieces[0])),
            leading_of(pieces.drop_first()),
        ) {
            (Some(n), Some(rest)) => Some(seq![n] + rest),
            _ => None,
        }
    }
}

/// What stands behind the sign of a number.
pub open spec fn behind_sign(s: Seq<char>) -> Seq<char> {
    if s.len() > 0 && (s.first() == '+' || s.first() == '-') {
        s.drop_first()
    } else {
        s
    }
}

/// One digit at least, and one point at most.
pub open spec fn is_decimal(s: Seq<char>) -> bool {
    let p = text::split(s, '.');
    &&& p.len() == 1 || p.len() == 2
    &&& text::all_digits(p[0]) && text::all_digits(p.last())
    &&& p[0].len() + p.last().len() > 0
}

/// A run of digits, one at least.
pub open spec fn is_whole(s: Seq<char>) -> bool {
    s.len() > 0 && text::all_digits(s)
}

/// The parts of a number in front of and behind the `e` of its exponent.
pub open spec fn around_exponent(s: Seq<char>) -> Seq<Seq<char>> {
    text::split(text::ascii_lower(behind_sign(s)), 'e')
}

/// Whether a text is a finite number: a sign if there is one, digits with a
/// point among them or not, and an exponent if there is one.
pub open spec fn is_number(s: Seq<char>) -> bool {
    let p = around_exponent(s);
    ||| p.len() == 1 && is_decimal(p[0])
    ||| p.len() == 2 && is_decimal(p[0]) && is_whole(behind_sign(p[1]))
}

/// Whether a number is below zero however it is rounded: it has a minus sign, a
/// digit other than zero, no exponent, and not more digits than a
/// double-precision number can tell from zero.
pub open spec fn below_zero(s: Seq<char>) -> bool {
    &&& s.len() > 0 && s.first() == '-'
    &&& s.len() <= 300
    &&& around_exponent(s).len() == 1
    &&& exists|i: int| 0 < i < s.len() && '1' <= #[trigger] s[i] <= '9'
}

/// What a typed time consists of: up to three parts between colons, the last
/// of which is the seconds, a number that is not below zero; the others have
/// to be whole numbers.
pub open spec fn time_parts(s: Seq<char>) -> Option<(Seq<u64>, Seq<char>)> {
    let pieces = text::split(text::trimmed(s), ':');
    let seconds = text::trimmed(pieces.last());
    if pieces.len() > 3 || !is_number(seconds) || below_zero(seconds) {
        None
    } else {
        match leading_of(pieces) {
            Some(leading) => Some((leading, seconds)),
            None => None,
        }
    }
}

pub open spec fn parts_view(p: Option<TimeParts>) -> Option<(Seq<u64>, Seq<char>)> {
    match p {
        Some(t) => Some((t.leading@, t.seconds@)),
        None => None,
    }
}

fn digits_only(s: &str) -> (r: bool)
    ensures
        r == text::all_digits(s@),
{
    let chars = chars_of(s);
    let mut i: usize = 0;
    while i < chars.len()
        invariant
            i <= chars.len(),
            chars@ == s@,
            forall|k: int| 0 <= k < i ==> text::is_digit(#[trigger] s@[k]),
        decreases chars.len() - i,
    {
        if chars[i] < '0' || chars[i] > '9' {
            assert(!text::is_digit(s@[i as int]));
            return false;
        }
        i += 1;
    }
    true
}

fn unsigned_part(s: &str) -> (r: String)
    ensures
        r@ == behind_sign(s@),
{
    let chars = chars_of(s);
    if chars.len() > 0 && (chars[0] == '+' || chars[0] == '-') {
        let rest = text_of(&chars, 1, chars.len());
        assert(rest@ =~= s@.drop_first());
        rest
    } else {
        String::from_str(s)
    }
}

fn decimal_only(s: &str) -> (r: bool)
    ensures
        r == is_decimal(s@),
{
    let pieces = split_text(s, '.');
    let n: usize = pieces.len();
    let ghost p = text::texts(pieces@);
    assert(p.len() == n);
    if n == 0 || n > 2 {
        return false;
    }
    let first = &pieces[0];
    let last = &pieces[n - 1];
    assert(p[0] == first@ && p.last() == last@);
    digits_only(first.as_str()) && digits_only(last.as_str()) && (first.as_str().unicode_len() > 0
        || last.as_str().unicode_len() > 0)
}

/// Whether a text is a number that can be the seconds of a time.
fn number_from_zero(s: &str) -> (r: bool)
    ensures
        r == (is_number(s@) && !below_zero(s@)),
{
    let chars = chars_of(s);
    let bare = unsigned_part(s);
    let lower = lower_text(bare.as_str());
    let pieces = split_text(lower.as_str(), 'e');
    let ghost p = text::texts(pieces@);
    assert(p == around_exponent(s@));
    let n: usize = pieces.len();
    assert(p.len() == n);
    if n == 0 || n > 2 {
        return false;
    }
    assert(p[0] == pieces@[0]@);
    if !decimal_only(pieces[0].as_str()) {
        return false;
    }
    if n == 2 {
        assert(p[1] == pieces@[1]@);
        let power = unsigned_part(pieces[1].as_str());
        return power.as_str().unicode_len() > 0 && digits_only(power.as_str());
    }
    if chars.len() == 0 || chars[0] != '-' || chars.len() > 300 {
        return true;
    }
    let mut i: usize = 1;
    while i < chars.len()
        invariant
            1 <= i <= chars.len() <= 300,
            chars@ == s@,
            s@.first() == '-',
            around_exponent(s@).len() == 1,
            forall|k: int| 0 < k < i ==> !('1' <= #[trigger] s@[k] <= '9'),
        decreases chars.len() - i,
    {
        if '1' <= chars[i] && chars[i] <= '9' {
            assert('1' <= s@[i as int] <= '9');
            return false;
        }
        i += 1;
    }
    true
}

/// Takes a typed time apart. What only rounding decides is left to whoever
/// reads the seconds: whether a number is too large, and whether one below
/// zero that has an exponent or very many digits comes to zero.
pub fn parse_time(s: &str) -> (r: Option<TimeParts>)
    ensures
        parts_view(r) == time_parts(s@),
{
    let whole = trim(s);
    let pieces = split_text(whole.as_str(), ':');
    let n: usize = pieces.len();
    let ghost p = text::texts(pieces@);
    if n > 3 {
        return None;
    }
    let seconds = trim(pieces[n - 1].as_str());
    assert(p.last() == pieces@[n - 1]@);
    if !number_from_zero(seconds.as_str()) {
        return None;
    }
    let mut leading: Vec<u64> = Vec::new();
    let mut i: usize = 0;
    proof {
        assert(p.skip(0) =~= p);
        assert(p.len() == n);
    }
    while i + 1 < n
        invariant
            i + 1 <= n == pieces@.len() <= 3,
            p == text::texts(pieces@),
            p == text::split(text::trimmed(s@), ':'),
            is_number(text::trimmed(p.last())) && !below_zero(text::trimmed(p.last())),
            leading_of(p) == match leading_of(p.skip(i as int)) {
                Some(rest) => Some(leading@ + rest),
                None => None,
            },
        decreases n - i,
    {
        let part = trim(pieces[i].as_str());
        proof {
            assert(p.skip(i as int)[0] == pieces@[i as int]@);
            assert(p.skip(i as int).drop_first() =~= p.skip(i + 1));
        }
        match parse_unsigned(part.as_str()) {
            Some(v) => {
                let ghost before = leading@;
                leading.push(v);
                proof {
                    if leading_of(p.skip(i + 1)) is Some {
                        let rest = leading_of(p.skip(i + 1))->0;
                        assert(before + (seq![v] + rest) =~= leading@ + rest);
                    }
                }
            },
            None => {
                return None;
            },
        }
        i += 1;
    }
    proof {
        assert(leading@ + Seq::<u64>::empty() =~= leading@);
    }
    Some(TimeParts { leading, seconds })
}

proof fn lemma_no_colon(s: Seq<char>)
    requires
        text::all_digits(s),
    ensures
        !s.contains(':'),
{
    assert forall|i: int| 0 <= i < s.len() implies s[i] != ':' by {
        assert(text::is_digit(s[i]));
    }
}

proof fn lemma_digit_ends(s: Seq<char>)
    requires
        s.len() > 0,
        text::all_digits(s),
    ensures
        text::is_digit(s.first()),
        text::is_digit(s.last()),
{
    assert(text::is_digit(s[0]));
    assert(text::is_digit(s[s.len() - 1]));
}

proof fn lemma_seconds_text(seconds: nat, millis: nat)
    ensures
        seconds_text(seconds, millis).len() > 0,
        !seconds_text(seconds, millis).contains(':'),
        text::is_digit(seconds_text(seconds, millis).first()),
        text::is_digit(seconds_text(seconds, millis).last()),
{
    reveal_strlit(".");
    let sec = text::padded(shown_seconds(seconds, millis) % 60, 2);
    let ms = text::padded(shown_millis(millis), 3);
    let tail = seconds_text(seconds, millis);
    text::lemma_padded(shown_seconds(seconds, millis) % 60, 2);
    text::lemma_padded(shown_millis(millis), 3);
    lemma_digit_ends(sec);
    lemma_digit_ends(ms);
    assert forall|i: int| 0 <= i < tail.len() implies tail[i] != ':' by {
        if i < sec.len() {
            assert(tail[i] == sec[i]);
            assert(text::is_digit(sec[i]));
        } else if i == sec.len() {
            assert(tail[i] == '.');
        } else {
            assert(tail[i] == ms[i - sec.len() - 1]);
            assert(text::is_digit(ms[i - sec.len() - 1]));
        }
    }
    assert(tail.first() == sec.first());
    assert(tail.last() == ms.last());
}

/// What is shown of the seconds is a number that is not below zero.
proof fn lemma_seconds_number(seconds: nat, millis: nat)
    ensures
        is_number(seconds_text(seconds, millis)),
        !below_zero(seconds_text(seconds, millis)),
{
    reveal_strlit(".");
    let whole = text::padded(shown_seconds(seconds, millis) % 60, 2);
    let fraction = text::padded(shown_millis(millis), 3);
    let tail = seconds_text(seconds, millis);
    text::lemma_padded(shown_seconds(seconds, millis) % 60, 2);
    text::lemma_padded(shown_millis(millis), 3);
    lemma_seconds_text(seconds, millis);
    assert(behind_sign(tail) == tail);
    assert forall|i: int| 0 <= i < tail.len() implies tail[i] != 'e' && text::lower_char(tail[i])
        == tail[i] by {
        if i < whole.len() {
            assert(tail[i] == whole[i]);
            assert(text::is_digit(whole[i]));
        } else if i == whole.len() {
            assert(tail[i] == '.');
        } else {
            assert(tail[i] == fraction[i - whole.len() - 1]);
            assert(text::is_digit(fraction[i - whole.len() - 1]));
        }
    }
    assert(text::ascii_lower(tail) =~= tail);
    text::lemma_split_one(tail, 'e');
    lemma_split_at_point(whole, fraction);
    assert(tail =~= whole.push('.') + fraction);
}

proof fn lemma_split_at_point(whole: Seq<char>, fraction: Seq<char>)
    requires
        text::all_digits(whole),
        text::all_digits(fraction),
    ensures
        text::split(whole.push('.') + fraction, '.') == seq![whole, fraction],
{
    assert forall|i: int| 0 <= i < whole.len() implies whole[i] != '.' by {
        assert(text::is_digit(whole[i]));
    }
    assert forall|i: int| 0 <= i < fraction.len() implies fraction[i] != '.' by {
        assert(text::is_digit(fraction[i]));
    }
    text::lemma_split_join(whole, fraction, '.');
    text::lemma_split_one(whole, '.');
    text::lemma_split_one(fraction, '.');
    assert(seq![whole] + seq![fraction] =~= seq![whole, fraction]);
}

proof fn lemma_minutes_and_seconds(minutes: nat, tail: Seq<char>)
    requires
        minutes < 60,
        !tail.contains(':'),
    ensures
        ({
            let m = text::padded(minutes, 2);
            &&& text::split(m.push(':') + tail, ':') == seq![m, tail]
            &&& leading_of(seq![m, tail]) == Some(seq![minutes as u64])
            &&& text::is_digit((m.push(':') + tail).first())
        }),
{
    let m = text::padded(minutes, 2);
    text::lemma_padded(minutes, 2);
    text::law_number_read_back(minutes, 2);
    lemma_no_colon(m);
    lemma_digit_ends(m);
    text::lemma_split_join(m, tail, ':');
    text::lemma_split_one(m, ':');
    text::lemma_split_one(tail, ':');
    text::lemma_trimmed_same(m);
    let two = seq![m, tail];
    assert(seq![m] + seq![tail] =~= two);
    assert(two.drop_first() =~= seq![tail]);
    assert(leading_of(seq![tail]) == Some(Seq::<u64>::empty()));
    assert(seq![minutes as u64] + Seq::<u64>::empty() =~= seq![minutes as u64]);
    assert((m.push(':') + tail).first() == m.first());
}

proof fn lemma_hours(hours: nat, m: Seq<char>, tail: Seq<char>, minutes: u64)
    requires
        hours <= u64::MAX,
        text::split(m.push(':') + tail, ':') == seq![m, tail],
        leading_of(seq![m, tail]) == Some(seq![minutes]),
    ensures
        ({
            let h = text::decimal(hours);
            let whole = h.push(':') + (m.push(':') + tail);
            &&& text::split(whole, ':') == seq![h, m, tail]
            &&& leading_of(seq![h, m, tail]) == Some(seq![hours as u64, minutes])
            &&& text::is_digit(whole.first())
        }),
{
    let h = text::decimal(hours);
    let rest = m.push(':') + tail;
    text::lemma_decimal(hours);
    assert(text::padded(hours, 0) == h);
    text::law_number_read_back(hours, 0);
    lemma_no_colon(h);
    lemma_digit_ends(h);
    text::lemma_split_join(h, rest, ':');
    text::lemma_split_one(h, ':');
    text::lemma_trimmed_same(h);
    let three = seq![h, m, tail];
    assert(seq![h] + seq![m, tail] =~= three);
    assert(three.drop_first() =~= seq![m, tail]);
    assert(seq![hours as u64] + seq![minutes] =~= seq![hours as u64, minutes]);
    assert((h.push(':') + rest).first() == h.first());
}

/// A time that was shown can be typed in again: its parts are the hours, if
/// there are any, the minutes, and the seconds as shown.
pub proof fn law_shown_time_parses(seconds: nat, millis: nat)
    requires
        shown_seconds(seconds, millis) / 3600 <= u64::MAX,
    ensures
        ({
            let hours = shown_seconds(seconds, millis) / 3600;
            let minutes = (shown_seconds(seconds, millis) / 60) % 60;
            time_parts(time_text(seconds, millis)) == Some(
                (
                    if hours > 0 {
                        seq![hours as u64, minutes as u64]
                    } else {
                        seq![minutes as u64]
                    },
                    seconds_text(seconds, millis),
                ),
            )
        }),
{
    reveal_strlit(":");
    reveal_strlit("");
    let hours = shown_seconds(seconds, millis) / 3600;
    let minutes = (shown_seconds(seconds, millis) / 60) % 60;
    let m = minutes_text(seconds, millis);
    let tail = seconds_text(seconds, millis);
    let shown = time_text(seconds, millis);
    let rest = m.push(':') + tail;
    lemma_seconds_text(seconds, millis);
    lemma_minutes_and_seconds(minutes, tail);
    lemma_seconds_number(seconds, millis);
    text::lemma_trimmed_same(tail);
    if hours > 0 {
        lemma_hours(hours, m, tail, minutes as u64);
        assert(shown =~= text::decimal(hours).push(':') + rest);
    } else {
        assert(shown =~= rest);
    }
    assert(shown.last() == tail.last());
    text::lemma_trimmed_same(shown);
}

proof fn lemma_two_digits(n: nat)
    requires
        n < 100,
    ensures
        text::padded(n, 2).len() == 2,
{
    reveal_with_fuel(text::decimal, 2);
}

proof fn lemma_three_digits(n: nat)
    requires
        n < 1000,
    ensures
        text::padded(n, 3).len() == 3,
{
    reveal_with_fuel(text::decimal, 3);
}

/// A time is shown as `mm:ss.mmm`, with the hours and a colon in front where
/// there are any: two digits of minutes below 60, two digits of seconds below
/// 60, and three digits of thousandths.
pub proof fn law_shown_time_has_form(seconds: nat, millis: nat)
    ensures
        ({
            let minutes = minutes_text(seconds, millis);
            let whole = text::padded(shown_seconds(seconds, millis) % 60, 2);
            let fraction = text::padded(shown_millis(millis), 3);
            &&& time_text(seconds, millis) == hours_text(seconds, millis) + minutes + ":"@ + (whole
                + "."@ + fraction)
            &&& minutes.len() == 2 && text::all_digits(minutes) && text::digits_value(minutes) < 60
            &&& whole.len() == 2 && text::all_digits(whole) && text::digits_value(whole) < 60
            &&& fraction.len() == 3 && text::all_digits(fraction)
        }),
{
    let s = shown_seconds(seconds, millis);
    lemma_two_digits((s / 60) % 60);
    lemma_two_digits(s % 60);
    lemma_three_digits(shown_millis(millis));
    text::lemma_padded((s / 60) % 60, 2);
    text::lemma_padded(s % 60, 2);
    text::lemma_padded(shown_millis(millis), 3);
}

/// What whole numbers between colons come to, each counting sixty of the next.
pub open spec fn in_sixties(leading: Seq<u64>) -> nat
    decreases leading.len(),
{
    if leading.len() == 0 {
        0
    } else {
        in_sixties(leading.drop_last()) * 60 + leading.last() as nat
    }
}

/// The thousandths that seconds come to that are written with three decimals.
pub open spec fn thousandths(s: Seq<char>) -> Option<nat> {
    let p = text::split(s, '.');
    if p.len() == 2 && p[0].len() > 0 && p[1].len() == 3 && text::all_digits(p[0])
        && text::all_digits(p[1]) {
        Some(text::digits_value(p[0]) * 1000 + text::digits_value(p[1]))
    } else {
        None
    }
}

/// The thousandths of a second that the parts of a time come to, where its
/// seconds are written with three decimals.
pub open spec fn thousandths_of(parts: (Seq<u64>, Seq<char>)) -> Option<nat> {
    match thousandths(parts.1) {
        Some(n) => Some(in_sixties(parts.0) * 60000 + n),
        None => None,
    }
}

proof fn lemma_thousandths(seconds: nat, millis: nat)
    ensures
        thousandths(seconds_text(seconds, millis)) == Some(
            (shown_seconds(seconds, millis) % 60) * 1000 + shown_millis(millis),
        ),
{
    reveal_strlit(".");
    let whole = text::padded(shown_seconds(seconds, millis) % 60, 2);
    let fraction = text::padded(shown_millis(millis), 3);
    text::lemma_padded(shown_seconds(seconds, millis) % 60, 2);
    text::lemma_padded(shown_millis(millis), 3);
    lemma_three_digits(shown_millis(millis));
    lemma_split_at_point(whole, fraction);
    assert(seconds_text(seconds, millis) =~= whole.push('.') + fraction);
}

/// A time that was shown is read back to the thousandth: typed in again, it
/// comes to the seconds and the rounded thousandths that were shown.
pub proof fn law_shown_time_reads_back(seconds: nat, millis: nat)
    requires
        seconds <= u64::MAX,
        millis <= 1000,
    ensures
        time_parts(time_text(seconds, millis)) matches Some(parts) && thousandths_of(parts) == Some(
            seconds * 1000 + millis,
        ),
{
    let s = shown_seconds(seconds, millis);
    let hours = s / 3600;
    let minutes = (s / 60) % 60;
    law_shown_time_parses(seconds, millis);
    lemma_thousandths(seconds, millis);
    reveal_with_fuel(in_sixties, 3);
    let one = seq![minutes as u64];
    let two = seq![hours as u64, minutes as u64];
    assert(one.drop_last() =~= Seq::<u64>::empty());
    assert(two.drop_last() =~= seq![hours as u64]);
    assert(seq![hours as u64].drop_last() =~= Seq::<u64>::empty());
    assert((s / 60) / 60 == s / 3600);
    assert(s == (hours * 60 + minutes) * 60 + s % 60);
}

/// Up to an hour a time is shown in nine characters, `mm:ss.mmm`; from an hour on the
/// hours and a colon stand before that. A thousand thousandths are one more second.
pub proof fn law_hours_are_shown_where_there_are_any(seconds: nat, millis: nat)
    requires
        millis < 1000,
    ensures
        seconds < 3600 ==> time_text(seconds, millis) == text::padded(seconds / 60, 2) + ":"@
            + text::padded(seconds % 60, 2) + "."@ + text::padded(millis, 3),
        seconds >= 3600 ==> time_text(seconds, millis) == text::decimal(seconds / 3600) + ":"@
            + text::padded((seconds / 60) % 60, 2) + ":"@ + text::padded(seconds % 60, 2) + "."@
            + text::padded(millis, 3),
        time_text(seconds, 1000) == time_text(seconds + 1, 0),
{
    reveal_strlit("");
    if seconds < 3600 {
        assert((seconds / 60) % 60 == seconds / 60);
        assert(time_text(seconds, millis) =~= text::padded(seconds / 60, 2) + ":"@ + text::padded(
            seconds % 60,
            2,
        ) + "."@ + text::padded(millis, 3));
    } else {
        assert(time_text(seconds, millis) =~= text::decimal(seconds / 3600) + ":"@ + text::padded(
            (seconds / 60) % 60,
            2,
        ) + ":"@ + text::padded(seconds % 60, 2) + "."@ + text::padded(millis, 3));
    }
}

proof fn lemma_digits_are_number(s: Seq<char>)
    requires
        s.len() > 0,
        text::all_digits(s),
    ensures
        is_number(s),
        !below_zero(s),
        text::trimmed(s) == s,
        !s.contains(':'),
{
    assert(text::is_digit(s[0]));
    assert(text::is_digit(s[s.len() - 1]));
    text::lemma_trimmed_same(s);
    assert forall|i: int| 0 <= i < s.len() implies s[i] != ':' && s[i] != 'e' && s[i] != '.' by {
        assert(text::is_digit(s[i]));
    }
    assert(text::ascii_lower(s) =~= s) by {
        assert forall|i: int| 0 <= i < s.len() implies text::ascii_lower(s)[i] == s[i] by {
            assert(text::is_digit(s[i]));
        }
    }
    text::lemma_split_one(s, 'e');
    text::lemma_split_one(s, '.');
}

/// A typed time of whole numbers is read as seconds, as minutes and seconds, or as
/// hours, minutes and seconds, by how many numbers there are. Four are too many.
pub proof fn law_typed_numbers_are_read(
    a: Seq<char>,
    b: Seq<char>,
    c: Seq<char>,
    d: Seq<char>,
)
    requires
        a.len() > 0 && text::all_digits(a) && text::digits_value(a) <= u64::MAX,
        b.len() > 0 && text::all_digits(b) && text::digits_value(b) <= u64::MAX,
        c.len() > 0 && text::all_digits(c),
        d.len() > 0 && text::all_digits(d),
    ensures
        time_parts(c) == Some((Seq::<u64>::empty(), c)),
        time_parts(b.push(':') + c) == Some((seq![text::digits_value(b) as u64], c)),
        time_parts(a.push(':') + (b.push(':') + c)) == Some(
            (seq![text::digits_value(a) as u64, text::digits_value(b) as u64], c),
        ),
        time_parts(a.push(':') + (b.push(':') + (c.push(':') + d))) is None,
{
    lemma_digits_are_number(a);
    lemma_digits_are_number(b);
    lemma_digits_are_number(c);
    lemma_digits_are_number(d);
    assert(text::is_digit(a[0]) && text::is_digit(b[0]) && text::is_digit(c[0]));
    assert(text::is_digit(c[c.len() - 1]) && text::is_digit(d[d.len() - 1]));
    let two = b.push(':') + c;
    let three = a.push(':') + two;
    let four = a.push(':') + (b.push(':') + (c.push(':') + d));
    text::lemma_split_one(a, ':');
    text::lemma_split_one(b, ':');
    text::lemma_split_one(c, ':');
    text::lemma_split_one(d, ':');
    text::lemma_split_join(b, c, ':');
    text::lemma_split_join(a, two, ':');
    text::lemma_split_join(c, d, ':');
    text::lemma_split_join(b, c.push(':') + d, ':');
    text::lemma_split_join(a, b.push(':') + (c.push(':') + d), ':');
    assert(two.last() == c.last() && three.last() == c.last() && four.last() == d.last());
    assert(two.first() == b.first() && three.first() == a.first() && four.first() == a.first());
    text::lemma_trimmed_same(two);
    text::lemma_trimmed_same(three);
    text::lemma_trimmed_same(four);
    assert(seq![b] + seq![c] =~= seq![b, c]);
    assert(seq![a] + seq![b, c] =~= seq![a, b, c]);
    assert(seq![b, c].drop_first() =~= seq![c]);
    assert(seq![a, b, c].drop_first() =~= seq![b, c]);
    let none = Seq::<u64>::empty();
    assert(leading_of(seq![c]) == Some(none));
    assert(seq![text::digits_value(b) as u64] + none =~= seq![text::digits_value(b) as u64]);
    assert(leading_of(seq![b, c]) == Some(seq![text::digits_value(b) as u64]));
    assert(seq![text::digits_value(a) as u64] + seq![text::digits_value(b) as u64] =~= seq![
        text::digits_value(a) as u64,
        text::digits_value(b) as u64,
    ]);
}

}

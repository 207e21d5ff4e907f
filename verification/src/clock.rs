//! Timestamps: points in time as Slack writes them.

use crate::channel::SlackChannel;
use crate::message::{ChannelMessage, PendingMessage};
use crate::text::{lemma_lt_not_le, text_le, text_lt, text_order_is_reflexive};
use vstd::prelude::*;

verus! {

/// The decimal digit for `n`, which is below ten.
pub open spec fn digit(n: nat) -> char {
    ('0' as nat + n) as char
}

/// `n` in decimal notation.
pub open spec fn decimal(n: nat) -> Seq<char>
    decreases n,
{
    if n < 10 {
        seq![digit(n)]
    } else {
        decimal(n / 10).push(digit(n % 10))
    }
}

/// The last `width` decimal digits of `n`, with zeros in front where it has fewer.
pub open spec fn padded(n: nat, width: nat) -> Seq<char>
    decreases width,
{
    if width == 0 {
        Seq::empty()
    } else {
        padded(n / 10, (width - 1) as nat).push(digit(n % 10))
    }
}

/// The timestamp of a point in time: the seconds since the Unix epoch, and six digits
/// for the microseconds.
pub open spec fn timestamp(secs: nat, micros: nat) -> Seq<char> {
    decimal(secs).push('.') + padded(micros, 6)
}

/// The decimal digit for `n`.
fn digit_char(n: u64) -> (c: char)
    requires
        n < 10,
    ensures
        c == digit(n as nat),
{
    (48 + n as u8) as char
}

/// Appends `n` in decimal notation.
fn push_decimal(text: &mut String, n: u64)
    ensures
        final(text)@ == old(text)@ + decimal(n as nat),
    decreases n,
{
    if n >= 10 {
        push_decimal(text, n / 10);
    }
    text.push(digit_char(n % 10));
    assert(n >= 10 ==> text@ == old(text)@ + decimal((n / 10) as nat).push(digit((n % 10) as nat)));
}

/// Appends the last `width` decimal digits of `n`.
fn push_padded(text: &mut String, n: u64, width: usize)
    ensures
        final(text)@ == old(text)@ + padded(n as nat, width as nat),
    decreases width,
{
    if width > 0 {
        push_padded(text, n / 10, width - 1);
        text.push(digit_char(n % 10));
    }
}

/// The timestamp of the point in time `secs` seconds and `micros` microseconds after the
/// Unix epoch.
pub fn slack_ts(secs: u64, micros: u32) -> (ts: String)
    ensures
        ts@ == timestamp(secs as nat, micros as nat),
{
    let mut ts = String::new();
    push_decimal(&mut ts, secs);
    ts.push('.');
    push_padded(&mut ts, micros as u64, 6);
    assert(ts@ =~= timestamp(secs as nat, micros as nat));
    ts
}

/// Reads the clock with `std::time::SystemTime::now`: the whole seconds since the Unix
/// epoch and the microseconds on top of them, or nothing where the clock stands before the
/// epoch. Which time it is depends on the machine and is left open.
#[verifier::external_body]
fn unix_time() -> (now: Option<(u64, u32)>)
    ensures
        now matches Some(time) ==> time.1 < 1_000_000,
{
    match std::time::SystemTime::now().duration_since(std::time::UNIX_EPOCH) {
        Ok(now) => Some((now.as_secs(), now.subsec_micros())),
        Err(_) => None,
    }
}

/// The time that a reading of the clock gives. A clock that stands before the Unix epoch
/// counts as standing at it.
pub fn time_of(reading: Option<(u64, u32)>) -> (time: (u64, u32))
    ensures
        time == match reading {
            Some(time) => time,
            None => (0u64, 0u32),
        },
{
    match reading {
        Some(time) => time,
        None => (0, 0),
    }
}

/// The timestamp of a reading of the clock.
pub fn ts_at(reading: Option<(u64, u32)>) -> (ts: String)
    ensures
        ts@ == match reading {
            Some(time) => timestamp(time.0 as nat, time.1 as nat),
            None => timestamp(0, 0),
        },
{
    let (secs, micros) = time_of(reading);
    slack_ts(secs, micros)
}

impl SlackChannel {
    /// The timestamp of now.
    pub fn slack_now_ts() -> (ts: String)
        ensures
            exists|secs: u64, micros: u32|
                micros < 1_000_000 && ts@ == #[trigger] timestamp(secs as nat, micros as nat),
    {
        ts_at(unix_time())
    }
}

impl PendingMessage {
    /// The message, handed on at the time of a reading of the clock.
    pub fn stamped_at(self, reading: Option<(u64, u32)>) -> (r: ChannelMessage)
        ensures
            r.timestamp == match reading {
                Some(time) => time.0,
                None => 0,
            },
            r.id == self.id,
            r.sender == self.sender,
            r.reply_target == self.reply_target,
            r.content == self.content,
            r.channel == self.channel,
            r.thread_ts == self.thread_ts,
    {
        let (secs, _) = time_of(reading);
        self.stamped(secs)
    }

    /// The message, handed on now.
    pub fn stamped_now(self) -> (r: ChannelMessage)
        ensures
            r.id == self.id,
            r.sender == self.sender,
            r.reply_target == self.reply_target,
            r.content == self.content,
            r.channel == self.channel,
            r.thread_ts == self.thread_ts,
    {
        self.stamped_at(unix_time())
    }
}

/// What stands behind two texts of one length that differ does not change their order.
proof fn lemma_lt_extends(a: Seq<char>, b: Seq<char>, c: Seq<char>, d: Seq<char>)
    requires
        a.len() == b.len(),
        text_lt(a, b),
    ensures
        text_lt(a + c, b + d),
    decreases a.len(),
{
    if a.len() > 0 {
        let x = a + c;
        let y = b + d;
        assert(x.drop_first() =~= a.drop_first() + c);
        assert(y.drop_first() =~= b.drop_first() + d);
        if a[0] == b[0] {
            assert(a =~= seq![a[0]] + a.drop_first());
            assert(b =~= seq![b[0]] + b.drop_first());
            lemma_lt_extends(a.drop_first(), b.drop_first(), c, d);
            if x == y {
                assert(x.drop_first() == y.drop_first());
            }
        } else {
            assert(x[0] != y[0]);
        }
    } else {
        assert(a =~= b);
    }
}

/// A common beginning does not change the order of two texts.
proof fn lemma_lt_behind(a: Seq<char>, c: Seq<char>, d: Seq<char>)
    requires
        text_lt(c, d),
    ensures
        text_lt(a + c, a + d),
    decreases a.len(),
{
    if a.len() == 0 {
        assert(a + c =~= c);
        assert(a + d =~= d);
    } else {
        lemma_lt_behind(a.drop_first(), c, d);
        assert((a + c).drop_first() =~= a.drop_first() + c);
        assert((a + d).drop_first() =~= a.drop_first() + d);
    }
}

proof fn lemma_digit_order(m: nat, n: nat)
    requires
        m < n < 10,
    ensures
        text_lt(seq![digit(m)], seq![digit(n)]),
{
    assert(seq![digit(m)][0] < seq![digit(n)][0]);
}

/// One digit more keeps the order of two numbers written with equally many digits.
proof fn lemma_push_digit(x: Seq<char>, y: Seq<char>, m: nat, n: nat)
    requires
        m < 10,
        n < 10,
        x.len() == y.len(),
        text_lt(x, y) || (x == y && m < n),
    ensures
        text_lt(x.push(digit(m)), y.push(digit(n))),
{
    assert(x.push(digit(m)) =~= x + seq![digit(m)]);
    assert(y.push(digit(n)) =~= y + seq![digit(n)]);
    if text_lt(x, y) {
        lemma_lt_extends(x, y, seq![digit(m)], seq![digit(n)]);
    } else {
        lemma_digit_order(m, n);
        lemma_lt_behind(x, seq![digit(m)], seq![digit(n)]);
    }
}

proof fn lemma_decimal_order(m: nat, n: nat)
    requires
        m < n,
        decimal(m).len() == decimal(n).len(),
    ensures
        text_lt(decimal(m), decimal(n)),
    decreases n,
{
    lemma_decimal_len(m);
    lemma_decimal_len(n);
    if n < 10 {
        lemma_digit_order(m, n);
    } else {
        assert(m >= 10) by {
            lemma_decimal_len(n / 10);
        }
        if m / 10 < n / 10 {
            lemma_decimal_order(m / 10, n / 10);
        }
        lemma_push_digit(decimal(m / 10), decimal(n / 10), m % 10, n % 10);
    }
}

proof fn lemma_decimal_len(n: nat)
    ensures
        decimal(n).len() >= 1,
    decreases n,
{
    if n >= 10 {
        lemma_decimal_len(n / 10);
    }
}

proof fn lemma_padded_len(n: nat, width: nat)
    ensures
        padded(n, width).len() == width,
    decreases width,
{
    if width > 0 {
        lemma_padded_len(n / 10, (width - 1) as nat);
    }
}

/// Ten to the power of `width`.
spec fn tens(width: nat) -> nat
    decreases width,
{
    if width == 0 {
        1
    } else {
        10 * tens((width - 1) as nat)
    }
}

proof fn lemma_padded_order(m: nat, n: nat, width: nat)
    requires
        m < n < tens(width),
    ensures
        text_lt(padded(m, width), padded(n, width)),
    decreases width,
{
    if width > 0 {
        let w = (width - 1) as nat;
        lemma_padded_len(m / 10, w);
        lemma_padded_len(n / 10, w);
        if m / 10 < n / 10 {
            lemma_padded_order(m / 10, n / 10, w);
        }
        lemma_push_digit(padded(m / 10, w), padded(n / 10, w), m % 10, n % 10);
    }
}

/// Comparing two timestamps as texts is comparing the times, where the seconds of both
/// are written with equally many digits.
pub proof fn timestamps_are_ordered_like_times(secs1: nat, micros1: nat, secs2: nat, micros2: nat)
    requires
        decimal(secs1).len() == decimal(secs2).len(),
        micros1 < 1_000_000,
        micros2 < 1_000_000,
    ensures
        text_le(timestamp(secs1, micros1), timestamp(secs2, micros2)) <==> (secs1 < secs2 || (secs1
            == secs2 && micros1 <= micros2)),
{
    reveal_with_fuel(tens, 7);
    assert(tens(6) == 1_000_000);
    if secs1 == secs2 && micros1 == micros2 {
        text_order_is_reflexive(timestamp(secs1, micros1));
    } else if secs1 < secs2 || (secs1 == secs2 && micros1 < micros2) {
        lemma_timestamp_order(secs1, micros1, secs2, micros2);
    } else {
        lemma_timestamp_order(secs2, micros2, secs1, micros1);
        lemma_lt_not_le(timestamp(secs2, micros2), timestamp(secs1, micros1));
    }
}

proof fn lemma_timestamp_order(secs1: nat, micros1: nat, secs2: nat, micros2: nat)
    requires
        decimal(secs1).len() == decimal(secs2).len(),
        micros1 < 1_000_000,
        micros2 < 1_000_000,
        secs1 < secs2 || (secs1 == secs2 && micros1 < micros2),
    ensures
        text_lt(timestamp(secs1, micros1), timestamp(secs2, micros2)),
{
    reveal_with_fuel(tens, 7);
    assert(tens(6) == 1_000_000);
    let a = decimal(secs1).push('.');
    let b = decimal(secs2).push('.');
    if secs1 < secs2 {
        lemma_decimal_order(secs1, secs2);
        lemma_lt_extends(decimal(secs1), decimal(secs2), seq!['.'], seq!['.']);
        assert(a =~= decimal(secs1) + seq!['.']);
        assert(b =~= decimal(secs2) + seq!['.']);
        lemma_lt_extends(a, b, padded(micros1, 6), padded(micros2, 6));
    } else {
        lemma_padded_order(micros1, micros2, 6);
        lemma_lt_behind(a, padded(micros1, 6), padded(micros2, 6));
    }
}

/// The number that decimal digits stand for.
pub open spec fn number(digits: Seq<char>) -> int
    decreases digits.len(),
{
    if digits.len() == 0 {
        0
    } else {
        number(digits.drop_last()) * 10 + (digits.last() as int - '0' as int)
    }
}

/// A number can be read back from its decimal notation, which is made of digits and does not
/// begin with a zero, but for the number zero.
pub proof fn decimals_are_read_back(n: nat)
    ensures
        number(decimal(n)) == n,
        decimal(n).len() > 0,
        forall|i: int| 0 <= i < decimal(n).len() ==> '0' <= #[trigger] decimal(n)[i] <= '9',
        n > 0 ==> decimal(n)[0] != '0',
    decreases n,
{
    let d = decimal(n);
    if n < 10 {
        assert(d.drop_last() =~= Seq::empty());
        assert(number(d.drop_last()) == 0);
    } else {
        decimals_are_read_back(n / 10);
        assert(d.drop_last() =~= decimal(n / 10));
        assert(d[0] == decimal(n / 10)[0]);
        assert forall|i: int| 0 <= i < d.len() implies '0' <= #[trigger] d[i] <= '9' by {
            if i < d.len() - 1 {
                assert(d[i] == decimal(n / 10)[i]);
            }
        }
    }
}

proof fn lemma_padded_is_read_back(n: nat, width: nat)
    requires
        n < tens(width),
    ensures
        number(padded(n, width)) == n,
        forall|i: int| 0 <= i < padded(n, width).len() ==> '0' <= #[trigger] padded(n, width)[i]
            <= '9',
    decreases width,
{
    let d = padded(n, width);
    if width > 0 {
        let w = (width - 1) as nat;
        lemma_padded_is_read_back(n / 10, w);
        assert(d.drop_last() =~= padded(n / 10, w));
        assert forall|i: int| 0 <= i < d.len() implies '0' <= #[trigger] d[i] <= '9' by {
            if i < d.len() - 1 {
                assert(d[i] == padded(n / 10, w)[i]);
            }
        }
    }
}

/// The seconds can be read back from a timestamp before the point, and the microseconds from
/// the six digits behind it.
pub proof fn timestamps_are_read_back(secs: nat, micros: nat)
    requires
        micros < 1_000_000,
    ensures
        ({
            let ts = timestamp(secs, micros);
            let point = ts.len() - 7;
            &&& point > 0
            &&& ts[point] == '.'
            &&& number(ts.take(point)) == secs
            &&& number(ts.skip(point + 1)) == micros
            &&& secs > 0 ==> ts[0] != '0'
            &&& forall|i: int|
                0 <= i < ts.len() && i != point ==> '0' <= #[trigger] ts[i] <= '9'
        }),
{
    reveal_with_fuel(tens, 7);
    assert(tens(6) == 1_000_000);
    decimals_are_read_back(secs);
    lemma_padded_len(micros, 6);
    lemma_padded_is_read_back(micros, 6);
    let ts = timestamp(secs, micros);
    let point = ts.len() - 7;
    assert(ts.take(point) =~= decimal(secs));
    assert(ts.skip(point + 1) =~= padded(micros, 6));
    assert(ts[0] == decimal(secs)[0]);
    assert forall|i: int| 0 <= i < ts.len() && i != point implies '0' <= #[trigger] ts[i]
        <= '9' by {
        if i < point {
            assert(ts[i] == decimal(secs)[i]);
        } else {
            assert(ts[i] == padded(micros, 6)[i - point - 1]);
        }
    }
}

} // verus!

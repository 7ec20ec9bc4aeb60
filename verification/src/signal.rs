//! The modem's report on the signal.
//!
//! The modem answers `AT+CESQ` with a line such as `+CESQ: 99,99,255,255,31,62`. The last of the
//! six numbers tells the received power: it counts the dBm above -140, and 255 stands for a power
//! that is not known.

use vstd::prelude::*;

verus! {

/// The bytes that have a meaning in a report, in ASCII.
pub const LINE_FEED: u8 = 0x0a;

pub const CARRIAGE_RETURN: u8 = 0x0d;

pub const SPACE: u8 = 0x20;

pub const PLUS: u8 = 0x2b;

pub const COMMA: u8 = 0x2c;

pub const MINUS: u8 = 0x2d;

pub const DIGIT_ZERO: u8 = 0x30;

pub const DIGIT_NINE: u8 = 0x39;

/// How many bytes in front satisfy `holds`.
pub open spec fn run_len(text: Seq<u8>, holds: spec_fn(u8) -> bool) -> nat
    decreases text.len(),
{
    if text.len() == 0 || !holds(text.first()) {
        0
    } else {
        1 + run_len(text.drop_first(), holds)
    }
}

/// A digit.
pub open spec fn is_digit(byte: u8) -> bool {
    DIGIT_ZERO <= byte <= DIGIT_NINE
}

/// Digits and nothing else.
pub open spec fn all_digits(text: Seq<u8>) -> bool {
    forall|i: int| 0 <= i < text.len() ==> is_digit(#[trigger] text[i])
}

/// A byte that can be part of a number.
pub open spec fn is_number_byte(byte: u8) -> bool {
    is_digit(byte) || byte == MINUS || byte == PLUS
}

/// The text without the spaces in front.
pub open spec fn trim_spaces(text: Seq<u8>) -> Seq<u8> {
    text.skip(run_len(text, |byte: u8| byte == SPACE) as int)
}

/// The text starts with `prefix`.
pub open spec fn starts_with(text: Seq<u8>, prefix: Seq<u8>) -> bool {
    prefix.len() <= text.len() && text.take(prefix.len() as int) == prefix
}

/// What a row of digits stands for.
pub open spec fn digits_value(digits: Seq<u8>) -> int
    decreases digits.len(),
{
    if digits.len() == 0 {
        0
    } else {
        digits_value(digits.drop_last()) * 10 + (digits.last() - DIGIT_ZERO)
    }
}

/// The number that a text without a plus sign stands for: at most eleven bytes, digits after an
/// optional minus sign, within the range of `i32`.
pub open spec fn signed_value(text: Seq<u8>) -> Option<int> {
    let negative = text.len() > 0 && text.first() == MINUS;
    let digits = if negative {
        text.drop_first()
    } else {
        text
    };
    let value = if negative {
        -digits_value(digits)
    } else {
        digits_value(digits)
    };
    if 0 < text.len() <= 11 && all_digits(digits) && i32::MIN <= value <= i32::MAX {
        Some(value)
    } else {
        None
    }
}

/// The number that a text stands for.
pub open spec fn number_value(text: Seq<u8>) -> Option<int> {
    if text.len() > 0 && text.first() == PLUS {
        signed_value(text.drop_first())
    } else {
        signed_value(text)
    }
}

/// The number in front, and what follows it. A comma after the number is passed over, and so are
/// the spaces after that.
pub open spec fn number_parameter(text: Seq<u8>) -> Option<(int, Seq<u8>)> {
    let end = run_len(text, |byte: u8| is_number_byte(byte)) as int;
    let rest = text.skip(end);
    match number_value(text.take(end)) {
        Some(value) => Some(
            (
                value,
                trim_spaces(
                    if rest.len() > 0 && rest.first() == COMMA {
                        rest.drop_first()
                    } else {
                        rest
                    },
                ),
            ),
        ),
        None => None,
    }
}

/// The `count` numbers in front, and what follows them.
pub open spec fn number_parameters(text: Seq<u8>, count: nat) -> Option<(Seq<int>, Seq<u8>)>
    decreases count,
{
    if count == 0 {
        Some((Seq::empty(), text))
    } else {
        match number_parameters(text, (count - 1) as nat) {
            Some((values, rest)) => match number_parameter(rest) {
                Some((value, rest)) => Some((values.push(value), rest)),
                None => None,
            },
            None => None,
        }
    }
}

/// What the answer starts with: `+CESQ:`.
pub open spec fn report_name() -> Seq<u8> {
    seq![PLUS, 0x43, 0x45, 0x53, 0x51, 0x3a]
}

/// The six numbers of a report.
pub open spec fn signal_report(response: Seq<u8>) -> Option<Seq<int>> {
    if starts_with(response, report_name()) {
        match number_parameters(trim_spaces(response.skip(6)), 6) {
            Some((values, rest)) => if starts_with(rest, seq![CARRIAGE_RETURN, LINE_FEED]) {
                Some(values)
            } else {
                None
            },
            None => None,
        }
    } else {
        None
    }
}

/// The power that the last number of a report tells, in dBm, or 255 if it is not known.
pub open spec fn signal_power(number: int) -> int {
    if number == 255 {
        255
    } else {
        number - 140
    }
}

/// The signal strength that a response tells, if the response is a report and the strength is in
/// the range of `i32`.
pub open spec fn signal_strength(response: Seq<u8>) -> Option<int> {
    match signal_report(response) {
        Some(values) => if i32::MIN <= signal_power(values[5]) {
            Some(signal_power(values[5]))
        } else {
            None
        },
        None => None,
    }
}

/// A run ends where its description says.
pub proof fn lemma_run_len_is(text: Seq<u8>, holds: spec_fn(u8) -> bool, len: nat)
    requires
        len <= text.len(),
        forall|i: int| 0 <= i < len ==> holds(#[trigger] text[i]),
        len < text.len() ==> !holds(text[len as int]),
    ensures
        run_len(text, holds) == len,
    decreases len,
{
    if len > 0 {
        assert(holds(text[0]));
        let rest = text.drop_first();
        assert forall|i: int| 0 <= i < len - 1 implies holds(#[trigger] rest[i]) by {
            assert(rest[i] == text[i + 1]);
        }
        lemma_run_len_is(rest, holds, (len - 1) as nat);
    }
}

/// The position after the spaces that stand at `position`.
fn skip_spaces(text: &[u8], position: usize) -> (end: usize)
    requires
        position <= text@.len(),
    ensures
        position <= end <= text@.len(),
        text@.skip(end as int) == trim_spaces(text@.skip(position as int)),
{
    let mut end = position;
    while end < text.len() && text[end] == SPACE
        invariant
            position <= end <= text@.len(),
            forall|i: int| position <= i < end ==> text@[i] == SPACE,
        decreases text@.len() - end,
    {
        end += 1;
    }
    proof {
        let rest = text@.skip(position as int);
        lemma_run_len_is(rest, |byte: u8| byte == SPACE, (end - position) as nat);
        assert(text@.skip(end as int) =~= rest.skip(end - position));
    }
    end
}

/// Whether `prefix` stands at `position`.
fn stands_at(text: &[u8], position: usize, prefix: &[u8]) -> (stands: bool)
    requires
        position <= text@.len(),
    ensures
        stands == starts_with(text@.skip(position as int), prefix@),
{
    let ghost rest = text@.skip(position as int);
    let len = text.len();
    if len - position < prefix.len() {
        return false;
    }
    for i in 0..prefix.len()
        invariant
            len == text@.len(),
            position + prefix@.len() <= len,
            rest == text@.skip(position as int),
            forall|j: int| 0 <= j < i ==> rest[j] == prefix@[j],
    {
        if text[position + i] != prefix[i] {
            assert(rest.take(prefix@.len() as int)[i as int] != prefix@[i as int]);
            return false;
        }
    }
    assert(rest.take(prefix@.len() as int) =~= prefix@);
    true
}

/// One more than the largest number of `len` digits.
spec fn power_of_ten(len: nat) -> int
    decreases len,
{
    if len == 0 {
        1
    } else {
        10 * power_of_ten((len - 1) as nat)
    }
}

/// The number that the digits stand for, if they are digits and at most eleven.
fn parse_digits(text: &[u8], start: usize, end: usize) -> (value: Option<i64>)
    requires
        start <= end <= text@.len(),
        end - start <= 11,
    ensures
        match value {
            Some(value) => all_digits(text@.subrange(start as int, end as int)) && value
                == digits_value(text@.subrange(start as int, end as int)) && value >= 0,
            None => !all_digits(text@.subrange(start as int, end as int)),
        },
{
    let mut value: i64 = 0;
    let mut i = start;
    assert(text@.subrange(start as int, start as int) =~= Seq::<u8>::empty());
    assert(power_of_ten(11) == 100_000_000_000) by {
        reveal_with_fuel(power_of_ten, 12);
    }
    while i < end
        invariant
            start <= i <= end <= text@.len(),
            end - start <= 11,
            all_digits(text@.subrange(start as int, i as int)),
            value == digits_value(text@.subrange(start as int, i as int)),
            0 <= value < power_of_ten((i - start) as nat) <= 100_000_000_000,
            power_of_ten(11) == 100_000_000_000,
        decreases end - i,
    {
        if text[i] < DIGIT_ZERO || text[i] > DIGIT_NINE {
            assert(!is_digit(text@.subrange(start as int, end as int)[i - start]));
            return None;
        }
        proof {
            let longer = text@.subrange(start as int, i + 1);
            assert(longer.drop_last() =~= text@.subrange(start as int, i as int));
            assert forall|j: int| 0 <= j < longer.len() implies is_digit(#[trigger] longer[j]) by {
                if j < i - start {
                    assert(longer[j] == longer.drop_last()[j]);
                }
            }
            lemma_power_of_ten(((i + 1) - start) as nat, 11);
        }
        value = value * 10 + (text[i] - DIGIT_ZERO) as i64;
        i += 1;
    }
    Some(value)
}

/// More digits make larger numbers.
proof fn lemma_power_of_ten(len: nat, more: nat)
    requires
        len <= more,
    ensures
        0 < power_of_ten(len) <= power_of_ten(more),
    decreases more,
{
    if len < more {
        lemma_power_of_ten(len, (more - 1) as nat);
    } else if len > 0 {
        lemma_power_of_ten((len - 1) as nat, (more - 1) as nat);
    }
}

/// The number that stands between the two positions.
fn parse_number(text: &[u8], start: usize, end: usize) -> (value: Option<i32>)
    requires
        start <= end <= text@.len(),
    ensures
        match value {
            Some(value) => number_value(text@.subrange(start as int, end as int)) == Some(
                value as int,
            ),
            None => number_value(text@.subrange(start as int, end as int)) is None,
        },
{
    let ghost whole = text@.subrange(start as int, end as int);
    let first = if start < end && text[start] == PLUS {
        start + 1
    } else {
        start
    };
    let ghost signed = text@.subrange(first as int, end as int);
    assert(first > start ==> signed =~= whole.drop_first());
    assert(number_value(whole) == signed_value(signed));
    if first == end || end - first > 11 {
        return None;
    }
    let negative = text[first] == MINUS;
    let digits_start = if negative {
        first + 1
    } else {
        first
    };
    let ghost digits = text@.subrange(digits_start as int, end as int);
    assert(negative ==> digits =~= signed.drop_first());
    let magnitude = match parse_digits(text, digits_start, end) {
        Some(magnitude) => magnitude,
        None => return None,
    };
    let value: i64 = if negative {
        -magnitude
    } else {
        magnitude
    };
    if value < i32::MIN as i64 || value > i32::MAX as i64 {
        None
    } else {
        Some(value as i32)
    }
}

/// The number that stands at `position`, and the position after it.
fn parse_parameter(text: &[u8], position: usize) -> (parameter: Option<(i32, usize)>)
    requires
        position <= text@.len(),
    ensures
        match parameter {
            Some((value, end)) => end <= text@.len() && number_parameter(
                text@.skip(position as int),
            ) == Some((value as int, text@.skip(end as int))),
            None => number_parameter(text@.skip(position as int)) is None,
        },
{
    let ghost rest = text@.skip(position as int);
    let mut end = position;
    while end < text.len() && (text[end] == PLUS || text[end] == MINUS || (DIGIT_ZERO <= text[end]
        && text[end] <= DIGIT_NINE))
        invariant
            position <= end <= text@.len(),
            forall|i: int| position <= i < end ==> is_number_byte(text@[i]),
        decreases text@.len() - end,
    {
        end += 1;
    }
    proof {
        lemma_run_len_is(rest, |byte: u8| is_number_byte(byte), (end - position) as nat);
        assert(rest.take(end - position) =~= text@.subrange(position as int, end as int));
        assert(rest.skip(end - position) =~= text@.skip(end as int));
    }
    match parse_number(text, position, end) {
        Some(value) => {
            let after = if end < text.len() && text[end] == COMMA {
                end + 1
            } else {
                end
            };
            assert(after > end ==> text@.skip(after as int) =~= text@.skip(
                end as int,
            ).drop_first());
            Some((value, skip_spaces(text, after)))
        },
        None => None,
    }
}

/// Get the signal strength out of the modem's answer to `AT+CESQ`, in dBm. A strength that is not
/// known is 255. There is none if the answer is not a report or a number in it is out of range.
pub fn get_signal_strength(response: &[u8]) -> (signal: Option<i32>)
    ensures
        match signal {
            Some(signal) => signal_strength(response@) == Some(signal as int),
            None => signal_strength(response@) is None,
        },
        match signal_report(response@) {
            Some(values) => match signal {
                Some(signal) => signal == if values[5] == 255 {
                    255
                } else {
                    values[5] - 140
                },
                None => values[5] - 140 < i32::MIN,
            },
            None => signal is None,
        },
{
    let name: [u8; 6] = [PLUS, 0x43, 0x45, 0x53, 0x51, 0x3a];
    assert(name@ =~= report_name());
    assert(response@.skip(0) =~= response@);
    if !stands_at(response, 0, name.as_slice()) {
        return None;
    }
    let mut position = skip_spaces(response, 6);
    let ghost start = response@.skip(position as int);
    let ghost mut values = Seq::<int>::empty();
    let mut signal: i32 = 0;
    for i in 0..6usize
        invariant
            position <= response@.len(),
            values.len() == i,
            number_parameters(start, i as nat) == Some((values, response@.skip(position as int))),
            i > 0 ==> signal == values[i - 1],
            starts_with(response@, report_name()),
            start == trim_spaces(response@.skip(6)),
    {
        match parse_parameter(response, position) {
            Some((value, end)) => {
                signal = value;
                position = end;
                proof {
                    values = values.push(value as int);
                }
            },
            None => {
                proof {
                    lemma_number_parameters_stop(start, (i + 1) as nat, 6);
                }
                return None;
            },
        }
    }
    let line_end: [u8; 2] = [CARRIAGE_RETURN, LINE_FEED];
    assert(line_end@ =~= seq![CARRIAGE_RETURN, LINE_FEED]);
    if !stands_at(response, position, line_end.as_slice()) {
        return None;
    }
    if signal == 255 {
        Some(signal)
    } else {
        signal.checked_sub(140)
    }
}

/// Where a number is missing, more numbers are missing too.
proof fn lemma_number_parameters_stop(text: Seq<u8>, count: nat, more: nat)
    requires
        count <= more,
        number_parameters(text, count) is None,
    ensures
        number_parameters(text, more) is None,
    decreases more,
{
    if count < more {
        lemma_number_parameters_stop(text, count, (more - 1) as nat);
    }
}

} // verus!

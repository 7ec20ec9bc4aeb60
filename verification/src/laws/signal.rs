//! What a report on the signal looks like, byte for byte, and what strength it tells.

use vstd::prelude::*;

verus! {

/// What a row of digits stands for, place by place from the left.
pub open spec fn place_value(digits: Seq<u8>) -> int
    decreases digits.len(),
{
    if digits.len() == 0 {
        0
    } else {
        (digits[0] - 0x30) * vstd::arithmetic::power::pow(10, (digits.len() - 1) as nat)
            + place_value(digits.drop_first())
    }
}

/// The sign, or nothing where it is left out.
pub open spec fn sign(present: bool, byte: u8) -> Seq<u8> {
    if present {
        seq![byte]
    } else {
        Seq::empty()
    }
}

/// The text is a plus sign, a minus sign and digits, each of which can be left out but the last two
/// not both. From the minus sign on it has at most eleven bytes.
pub open spec fn spells(
    text: Seq<u8>,
    value: int,
    plus: bool,
    minus: bool,
    digits: Seq<u8>,
) -> bool {
    &&& text == sign(plus, 0x2b) + sign(minus, 0x2d) + digits
    &&& forall|i: int| 0 <= i < digits.len() ==> 0x30 <= #[trigger] digits[i] <= 0x39
    &&& 1 <= sign(minus, 0x2d).len() + digits.len() <= 11
    &&& value == if minus {
        -place_value(digits)
    } else {
        place_value(digits)
    }
    &&& -0x8000_0000 <= value <= 0x7fff_ffff
}

/// The text is a number with this value.
pub open spec fn is_number(text: Seq<u8>, value: int) -> bool {
    exists|plus: bool, minus: bool, digits: Seq<u8>| spells(text, value, plus, minus, digits)
}

/// Spaces, or none.
pub open spec fn is_blank(gap: Seq<u8>) -> bool {
    forall|i: int| 0 <= i < gap.len() ==> #[trigger] gap[i] == 0x20
}

/// What can stand after a number: a comma that can be left out, then spaces.
pub open spec fn is_gap(gap: Seq<u8>) -> bool {
    forall|i: int|
        0 <= i < gap.len() ==> #[trigger] gap[i] == 0x20 || (i == 0 && gap[i] == 0x2c)
}

/// The texts, each with the gap behind it.
pub open spec fn row(texts: Seq<Seq<u8>>, gaps: Seq<Seq<u8>>) -> Seq<u8>
    decreases texts.len(),
{
    if texts.len() == 0 {
        Seq::empty()
    } else {
        row(texts.drop_last(), gaps.drop_last()) + texts.last() + gaps.last()
    }
}

/// The texts are numbers with these values, with gaps behind them of which only the last can be
/// empty.
pub open spec fn is_row(texts: Seq<Seq<u8>>, gaps: Seq<Seq<u8>>, values: Seq<int>) -> bool {
    &&& texts.len() == values.len()
    &&& gaps.len() == values.len()
    &&& forall|i: int| #![trigger texts[i]]
        0 <= i < values.len() ==> is_number(texts[i], values[i])
    &&& forall|i: int| 0 <= i < values.len() ==> is_gap(#[trigger] gaps[i])
    &&& forall|i: int| 0 <= i < values.len() - 1 ==> (#[trigger] gaps[i]).len() > 0
}

/// The response is `+CESQ:`, spaces, six numbers with gaps behind them and the end of the line,
/// whatever follows that.
pub open spec fn is_report(
    response: Seq<u8>,
    values: Seq<int>,
    blank: Seq<u8>,
    texts: Seq<Seq<u8>>,
    gaps: Seq<Seq<u8>>,
    tail: Seq<u8>,
) -> bool {
    &&& values.len() == 6
    &&& is_blank(blank)
    &&& is_row(texts, gaps, values)
    &&& response == seq![0x2bu8, 0x43, 0x45, 0x53, 0x51, 0x3a] + blank + row(texts, gaps) + seq![
        0x0du8,
        0x0a,
    ] + tail
}

/// The response is a report of these numbers.
pub open spec fn reports(response: Seq<u8>, values: Seq<int>) -> bool {
    exists|blank: Seq<u8>, texts: Seq<Seq<u8>>, gaps: Seq<Seq<u8>>, tail: Seq<u8>|
        is_report(response, values, blank, texts, gaps, tail)
}

/// One more digit on the right makes the number ten times as large, and adds the digit.
proof fn lemma_place_value_grows(digits: Seq<u8>)
    requires
        digits.len() > 0,
    ensures
        place_value(digits) == place_value(digits.drop_last()) * 10 + (digits.last() - 0x30),
    decreases digits.len(),
{
    let rest = digits.drop_first();
    if digits.len() == 1 {
        vstd::arithmetic::power::lemma_pow0(10);
        assert(place_value(rest) == 0);
        assert(place_value(digits.drop_last()) == 0);
    } else {
        lemma_place_value_grows(rest);
        let shorter = digits.drop_last();
        assert(shorter.drop_first() =~= rest.drop_last());
        let n = (digits.len() - 2) as nat;
        let p = vstd::arithmetic::power::pow(10, n);
        reveal(vstd::arithmetic::power::pow);
        assert(vstd::arithmetic::power::pow(10, n + 1) == 10 * p);
        let d = digits[0] - 0x30;
        assert(d * (10 * p) == d * p * 10) by (nonlinear_arith);
    }
}

/// Counting the places from the left or growing the number to the right gives the same.
proof fn lemma_place_value(digits: Seq<u8>)
    ensures
        crate::signal::digits_value(digits) == place_value(digits),
    decreases digits.len(),
{
    if digits.len() > 0 {
        lemma_place_value(digits.drop_last());
        lemma_place_value_grows(digits);
    }
}

/// A text that spells a number has that value.
proof fn lemma_number_value(
    text: Seq<u8>,
    value: int,
    plus: bool,
    minus: bool,
    digits: Seq<u8>,
)
    requires
        spells(text, value, plus, minus, digits),
    ensures
        crate::signal::number_value(text) == Some(value),
{
    lemma_place_value(digits);
    let signed = sign(minus, 0x2d) + digits;
    if plus {
        assert(text.first() == 0x2b);
        assert(text.drop_first() =~= signed);
    } else {
        assert(text =~= signed);
        assert(!minus ==> digits[0] == signed.first());
        assert(text.first() != 0x2b);
    }
    if minus {
        assert(signed.first() == 0x2d);
        assert(signed.drop_first() =~= digits);
    } else {
        assert(signed =~= digits);
        assert(signed.first() != 0x2d);
    }
    assert(crate::signal::all_digits(digits));
}

/// A text that has a value spells it.
proof fn lemma_has_a_spelling(text: Seq<u8>)
    ensures
        crate::signal::number_value(text) matches Some(value) ==> is_number(text, value),
{
    if let Some(value) = crate::signal::number_value(text) {
        let plus = text.len() > 0 && text.first() == 0x2b;
        let signed = if plus {
            text.drop_first()
        } else {
            text
        };
        let minus = signed.len() > 0 && signed.first() == 0x2d;
        let digits = if minus {
            signed.drop_first()
        } else {
            signed
        };
        lemma_place_value(digits);
        assert(signed =~= sign(minus, 0x2d) + digits);
        assert(text =~= sign(plus, 0x2b) + sign(minus, 0x2d) + digits);
        assert forall|i: int| 0 <= i < digits.len() implies 0x30 <= #[trigger] digits[i]
            <= 0x39 by {
            assert(crate::signal::is_digit(digits[i]));
        }
        assert(spells(text, value, plus, minus, digits));
    }
}

/// A byte that can be part of a number.
spec fn number_byte(byte: u8) -> bool {
    0x30 <= byte <= 0x39 || byte == 0x2b || byte == 0x2d
}

/// A number is not empty, and only bytes of numbers are in it.
proof fn lemma_number_bytes(text: Seq<u8>, value: int)
    requires
        is_number(text, value),
    ensures
        text.len() > 0,
        forall|i: int| 0 <= i < text.len() ==> number_byte(#[trigger] text[i]),
{
    let (plus, minus, digits) = choose|plus: bool, minus: bool, digits: Seq<u8>|
        spells(text, value, plus, minus, digits);
    let front = sign(plus, 0x2b) + sign(minus, 0x2d);
    assert forall|i: int| 0 <= i < text.len() implies number_byte(#[trigger] text[i]) by {
        if i >= front.len() {
            assert(text[i] == digits[i - front.len()]);
        }
    }
}

/// What stands behind a number and its gap is part of neither.
spec fn stops(gap: Seq<u8>, rest: Seq<u8>) -> bool {
    rest.len() > 0 ==> rest[0] != 0x20 && (gap.len() == 0 ==> !number_byte(rest[0]) && rest[0]
        != 0x2c)
}

/// Where a run ends.
proof fn lemma_run(text: Seq<u8>, holds: spec_fn(u8) -> bool)
    ensures
        crate::signal::run_len(text, holds) <= text.len(),
        forall|i: int|
            0 <= i < crate::signal::run_len(text, holds) ==> holds(#[trigger] text[i]),
        crate::signal::run_len(text, holds) < text.len() ==> !holds(
            text[crate::signal::run_len(text, holds) as int],
        ),
    decreases text.len(),
{
    if text.len() > 0 && holds(text.first()) {
        let rest = text.drop_first();
        lemma_run(rest, holds);
        assert forall|i: int| 0 <= i < crate::signal::run_len(text, holds) implies holds(
            #[trigger] text[i],
        ) by {
            if i > 0 {
                assert(text[i] == rest[i - 1]);
            }
        }
    }
}

/// A number with its gap in front of something else is read as that number.
proof fn lemma_number_is_read(
    text: Seq<u8>,
    value: int,
    number: Seq<u8>,
    gap: Seq<u8>,
    rest: Seq<u8>,
)
    requires
        text == number + gap + rest,
        is_number(number, value),
        is_gap(gap),
        stops(gap, rest),
    ensures
        crate::signal::number_parameter(text) == Some((value, rest)),
{
    lemma_number_bytes(number, value);
    let (plus, minus, digits) = choose|plus: bool, minus: bool, digits: Seq<u8>|
        spells(number, value, plus, minus, digits);
    lemma_number_value(number, value, plus, minus, digits);
    let holds = |byte: u8| crate::signal::is_number_byte(byte);
    let end = number.len();
    assert forall|i: int| 0 <= i < end implies holds(#[trigger] text[i]) by {
        assert(text[i] == number[i]);
        assert(number_byte(number[i]));
    }
    if end < text.len() {
        if gap.len() > 0 {
            assert(text[end as int] == gap[0]);
        } else {
            assert(text[end as int] == rest[0]);
        }
    }
    crate::signal::lemma_run_len_is(text, holds, end);
    assert(text.take(end as int) =~= number);
    let behind = text.skip(end as int);
    assert(behind =~= gap + rest);
    let comma = behind.len() > 0 && behind.first() == 0x2c;
    if comma && gap.len() == 0 {
        assert(behind.first() == rest[0]);
    }
    let blank = if comma {
        gap.drop_first()
    } else {
        gap
    };
    let spaced = if comma {
        behind.drop_first()
    } else {
        behind
    };
    assert(spaced =~= blank + rest);
    assert forall|i: int| 0 <= i < blank.len() implies #[trigger] spaced[i] == 0x20 by {
        if comma {
            assert(spaced[i] == gap[i + 1]);
        } else {
            assert(spaced[i] == gap[i]);
            assert(gap[0] == behind.first());
        }
    }
    crate::signal::lemma_run_len_is(
        spaced,
        |byte: u8| byte == crate::signal::SPACE,
        blank.len(),
    );
    assert(spaced.skip(blank.len() as int) =~= rest);
}

/// Where a number is read, one stands there, with its gap behind it.
proof fn lemma_read_number_is_there(text: Seq<u8>) -> (parts: (Seq<u8>, Seq<u8>))
    ensures
        crate::signal::number_parameter(text) matches Some((value, rest)) ==> {
            &&& text == parts.0 + parts.1 + rest
            &&& is_number(parts.0, value)
            &&& is_gap(parts.1)
            &&& stops(parts.1, rest)
        },
{
    let holds = |byte: u8| crate::signal::is_number_byte(byte);
    lemma_run(text, holds);
    let end = crate::signal::run_len(text, holds) as int;
    let number = text.take(end);
    lemma_has_a_spelling(number);
    let behind = text.skip(end);
    let comma = behind.len() > 0 && behind.first() == 0x2c;
    let spaced = if comma {
        behind.drop_first()
    } else {
        behind
    };
    let is_space = |byte: u8| byte == crate::signal::SPACE;
    lemma_run(spaced, is_space);
    let spaces = crate::signal::run_len(spaced, is_space) as int;
    let gap_len = if comma {
        1 + spaces
    } else {
        spaces
    };
    let gap = behind.take(gap_len);
    assert forall|i: int| 0 <= i < gap.len() implies #[trigger] gap[i] == 0x20 || (i == 0 && gap[i]
        == 0x2c) by {
        if comma {
            if i > 0 {
                assert(gap[i] == spaced[i - 1]);
            }
        } else {
            assert(gap[i] == spaced[i]);
        }
    }
    let rest = spaced.skip(spaces);
    assert(text =~= number + gap + rest);
    if rest.len() > 0 {
        assert(rest[0] == spaced[spaces]);
        if gap.len() == 0 {
            assert(rest[0] == text[end]);
        }
    }
    (number, gap)
}

/// A row of numbers in front of something else is read as those numbers.
proof fn lemma_row_is_read(
    text: Seq<u8>,
    values: Seq<int>,
    texts: Seq<Seq<u8>>,
    gaps: Seq<Seq<u8>>,
    rest: Seq<u8>,
)
    requires
        is_row(texts, gaps, values),
        text == row(texts, gaps) + rest,
        values.len() > 0 ==> stops(gaps.last(), rest),
    ensures
        crate::signal::number_parameters(text, values.len()) == Some((values, rest)),
    decreases values.len(),
{
    if values.len() == 0 {
        assert(text =~= rest);
        assert(values =~= Seq::<int>::empty());
    } else {
        let last = values.len() - 1;
        let behind = texts.last() + gaps.last() + rest;
        assert(text =~= row(texts.drop_last(), gaps.drop_last()) + behind);
        assert(is_number(texts[last], values[last]));
        assert(is_gap(gaps[last]));
        lemma_number_bytes(texts.last(), values.last());
        assert(behind[0] == texts.last()[0]);
        assert(number_byte(behind[0]));
        if last > 0 {
            assert(gaps[last - 1].len() > 0);
            assert(gaps.drop_last().last() == gaps[last - 1]);
        }
        assert forall|i: int| #![trigger texts.drop_last()[i]] 0 <= i < last implies is_number(
            texts.drop_last()[i],
            values.drop_last()[i],
        ) by {
            assert(is_number(texts[i], values[i]));
        }
        assert forall|i: int| 0 <= i < last implies is_gap(#[trigger] gaps.drop_last()[i]) by {
            assert(is_gap(gaps[i]));
        }
        lemma_row_is_read(text, values.drop_last(), texts.drop_last(), gaps.drop_last(), behind);
        lemma_number_is_read(behind, values.last(), texts.last(), gaps.last(), rest);
        assert(values.drop_last().push(values.last()) =~= values);
    }
}

/// Where numbers are read, a row of them stands there.
proof fn lemma_read_row_is_there(text: Seq<u8>, count: nat) -> (parts: (
    Seq<Seq<u8>>,
    Seq<Seq<u8>>,
))
    ensures
        crate::signal::number_parameters(text, count) matches Some((values, rest)) ==> {
            &&& values.len() == count
            &&& is_row(parts.0, parts.1, values)
            &&& text == row(parts.0, parts.1) + rest
            &&& count > 0 ==> stops(parts.1.last(), rest)
        },
    decreases count,
{
    if count == 0 {
        assert(Seq::<u8>::empty() + text =~= text);
        (Seq::empty(), Seq::empty())
    } else {
        let (texts, gaps) = lemma_read_row_is_there(text, (count - 1) as nat);
        if let Some((values, behind)) = crate::signal::number_parameters(
            text,
            (count - 1) as nat,
        ) {
            let (number, gap) = lemma_read_number_is_there(behind);
            let all_texts = texts.push(number);
            let all_gaps = gaps.push(gap);
            if let Some((value, rest)) = crate::signal::number_parameter(behind) {
                let all_values = values.push(value);
                lemma_number_bytes(number, value);
                assert(behind[0] == number[0]);
                assert(number_byte(behind[0]));
                assert forall|i: int| #![trigger all_texts[i]] 0 <= i < count implies is_number(
                    all_texts[i],
                    all_values[i],
                ) by {
                    if i < count - 1 {
                        assert(is_number(texts[i], values[i]));
                    }
                }
                assert forall|i: int| 0 <= i < count implies is_gap(#[trigger] all_gaps[i]) by {
                    if i < count - 1 {
                        assert(is_gap(gaps[i]));
                    }
                }
                assert forall|i: int| 0 <= i < count - 1 implies (#[trigger] all_gaps[i]).len()
                    > 0 by {
                    assert(all_gaps[i] == gaps[i]);
                    if i == count - 2 {
                        assert(gaps.last() == gaps[i]);
                    }
                }
                assert(all_texts.drop_last() =~= texts);
                assert(all_gaps.drop_last() =~= gaps);
                assert(text =~= row(all_texts, all_gaps) + rest);
            }
            (all_texts, all_gaps)
        } else {
            (texts, gaps)
        }
    }
}

/// A report is read as its numbers.
proof fn lemma_report_is_read(response: Seq<u8>, values: Seq<int>)
    requires
        reports(response, values),
    ensures
        crate::signal::signal_report(response) == Some(values),
{
    let is_space = |byte: u8| byte == crate::signal::SPACE;
    let name = seq![0x2bu8, 0x43, 0x45, 0x53, 0x51, 0x3a];
    let line_end = seq![0x0du8, 0x0a];
    assert(crate::signal::report_name() =~= name);
    let (blank, texts, gaps, tail) = choose|
        blank: Seq<u8>,
        texts: Seq<Seq<u8>>,
        gaps: Seq<Seq<u8>>,
        tail: Seq<u8>,
    |
        is_report(response, values, blank, texts, gaps, tail);
    let rest = line_end + tail;
    let numbers = row(texts, gaps) + rest;
    assert(response.take(6) =~= name);
    let behind = response.skip(6);
    assert(behind =~= blank + numbers);
    lemma_row_starts(texts, gaps, values);
    assert(numbers[0] == row(texts, gaps)[0]);
    assert forall|i: int| 0 <= i < blank.len() implies is_space(#[trigger] behind[i]) by {
        assert(behind[i] == blank[i]);
    }
    assert(behind[blank.len() as int] == numbers[0]);
    crate::signal::lemma_run_len_is(behind, is_space, blank.len());
    assert(behind.skip(blank.len() as int) =~= numbers);
    assert(rest[0] == 0x0d);
    lemma_row_is_read(numbers, values, texts, gaps, rest);
    assert(rest.take(2) =~= line_end);
}

/// Where a report is read, one stands there.
proof fn lemma_read_report_is_there(response: Seq<u8>, values: Seq<int>)
    requires
        crate::signal::signal_report(response) == Some(values),
    ensures
        reports(response, values),
{
    let is_space = |byte: u8| byte == crate::signal::SPACE;
    let name = seq![0x2bu8, 0x43, 0x45, 0x53, 0x51, 0x3a];
    let line_end = seq![0x0du8, 0x0a];
    assert(crate::signal::report_name() =~= name);
    let behind = response.skip(6);
    assert(response.take(6) == name);
    lemma_run(behind, is_space);
    let spaces = crate::signal::run_len(behind, is_space) as int;
    let blank = behind.take(spaces);
    assert forall|i: int| 0 <= i < blank.len() implies #[trigger] blank[i] == 0x20 by {
        assert(is_space(behind[i]));
    }
    let numbers = behind.skip(spaces);
    let (texts, gaps) = lemma_read_row_is_there(numbers, 6);
    let (_, rest) = crate::signal::number_parameters(numbers, 6)->0;
    let tail = rest.skip(2);
    assert(rest.take(2) == line_end);
    assert(rest =~= line_end + tail);
    assert(response =~= name + behind);
    assert(behind =~= blank + numbers);
    assert(response =~= name + blank + row(texts, gaps) + line_end + tail);
    assert(is_report(response, values, blank, texts, gaps, tail));
}

/// A response is read as a report of six numbers exactly if it is one, byte for byte.
pub proof fn law_reports_are_read(response: Seq<u8>, values: Seq<int>)
    ensures
        crate::signal::signal_report(response) == Some(values) <==> reports(response, values),
{
    if reports(response, values) {
        lemma_report_is_read(response, values);
    }
    if crate::signal::signal_report(response) == Some(values) {
        lemma_read_report_is_there(response, values);
    }
}

/// A row that is not empty starts with a byte of a number.
proof fn lemma_row_starts(texts: Seq<Seq<u8>>, gaps: Seq<Seq<u8>>, values: Seq<int>)
    requires
        is_row(texts, gaps, values),
        values.len() > 0,
    ensures
        row(texts, gaps).len() > 0,
        number_byte(row(texts, gaps)[0]),
    decreases values.len(),
{
    let last = values.len() - 1;
    assert(is_number(texts[last], values[last]));
    lemma_number_bytes(texts[last], values[last]);
    let front = row(texts.drop_last(), gaps.drop_last());
    if last > 0 {
        assert forall|i: int| #![trigger texts.drop_last()[i]] 0 <= i < last implies is_number(
            texts.drop_last()[i],
            values.drop_last()[i],
        ) by {
            assert(is_number(texts[i], values[i]));
        }
        assert forall|i: int| 0 <= i < last implies is_gap(#[trigger] gaps.drop_last()[i]) by {
            assert(is_gap(gaps[i]));
        }
        lemma_row_starts(texts.drop_last(), gaps.drop_last(), values.drop_last());
        assert(row(texts, gaps)[0] == front[0]);
    } else {
        assert(front =~= Seq::<u8>::empty());
        assert(row(texts, gaps)[0] == texts[last][0]);
    }
}

/// A digit stands for its distance from zero, and one more digit on the right makes a number ten
/// times as large and adds the digit. A minus sign in front makes the number negative, and a plus
/// sign changes nothing.
pub proof fn law_numbers_are_decimal(digits: Seq<u8>, digit: u8, value: int)
    requires
        0x30 <= digit <= 0x39,
        crate::signal::number_value(digits) == Some(value),
        0x30 <= digits[0] <= 0x39,
        digits.len() <= 10,
    ensures
        crate::signal::number_value(seq![digit]) == Some(digit - 0x30),
        crate::signal::number_value(digits.push(digit)) == if value * 10 + (digit - 0x30)
            <= 0x7fff_ffff {
            Some(value * 10 + (digit - 0x30))
        } else {
            None
        },
        crate::signal::number_value(seq![0x2du8] + digits) == Some(-value),
        crate::signal::number_value(seq![0x2bu8] + digits) == Some(value),
        crate::signal::number_value(seq![0x2bu8, 0x2du8] + digits) == Some(-value),
{
    lemma_digits_of(digits, value);
    let one = seq![digit];
    assert(one.drop_last() =~= Seq::<u8>::empty());
    assert(crate::signal::digits_value(one) == digit - 0x30) by {
        assert(crate::signal::digits_value(one.drop_last()) == 0);
    }
    lemma_signs(one);
    let longer = digits.push(digit);
    assert(longer.drop_last() =~= digits);
    assert(crate::signal::digits_value(longer) == value * 10 + (digit - 0x30));
    lemma_signs(longer);
    lemma_signs(digits);
}

/// A number that starts with a digit is digits only.
proof fn lemma_digits_of(digits: Seq<u8>, value: int)
    requires
        crate::signal::number_value(digits) == Some(value),
        0x30 <= digits[0] <= 0x39,
    ensures
        digits.len() > 0,
        crate::signal::all_digits(digits),
        value == crate::signal::digits_value(digits),
{
}

/// The value of digits with and without signs.
#[verifier::spinoff_prover]
proof fn lemma_signs(digits: Seq<u8>)
    requires
        1 <= digits.len() <= 11,
        crate::signal::all_digits(digits),
    ensures
        ({
            let value = crate::signal::digits_value(digits);
            &&& crate::signal::number_value(digits) == if value <= 0x7fff_ffff {
                Some(value)
            } else {
                None
            }
            &&& digits.len() <= 10 && value <= 0x7fff_ffff ==> {
                &&& crate::signal::number_value(seq![0x2du8] + digits) == Some(-value)
                &&& crate::signal::number_value(seq![0x2bu8] + digits) == Some(value)
                &&& crate::signal::number_value(seq![0x2bu8, 0x2du8] + digits) == Some(-value)
            }
        }),
{
    lemma_digits_value_bounds(digits);
    assert(crate::signal::is_digit(digits[0]));
    let negative = seq![0x2du8] + digits;
    assert(negative.drop_first() =~= digits);
    let positive = seq![0x2bu8] + digits;
    assert(positive.drop_first() =~= digits);
    let both = seq![0x2bu8, 0x2du8] + digits;
    assert(both.drop_first() =~= negative);
}

/// Digits stand for no negative number.
proof fn lemma_digits_value_bounds(digits: Seq<u8>)
    requires
        crate::signal::all_digits(digits),
    ensures
        crate::signal::digits_value(digits) >= 0,
    decreases digits.len(),
{
    if digits.len() > 0 {
        assert forall|i: int| 0 <= i < digits.len() - 1 implies crate::signal::is_digit(
            #[trigger] digits.drop_last()[i],
        ) by {
            assert(crate::signal::is_digit(digits[i]));
        }
        lemma_digits_value_bounds(digits.drop_last());
        assert(crate::signal::is_digit(digits[digits.len() - 1]));
    }
}

/// Six numbers with commas between them are read as those numbers.
pub proof fn law_six_numbers_with_commas_are_read(texts: Seq<Seq<u8>>, values: Seq<int>)
    requires
        texts.len() == 6,
        values.len() == 6,
        forall|i: int|
            0 <= i < 6 ==> crate::signal::number_value(#[trigger] texts[i]) == Some(values[i]),
    ensures
        crate::signal::signal_report(
            seq![0x2bu8, 0x43, 0x45, 0x53, 0x51, 0x3a, 0x20] + texts[0] + seq![0x2cu8] + texts[1]
                + seq![0x2cu8] + texts[2] + seq![0x2cu8] + texts[3] + seq![0x2cu8] + texts[4]
                + seq![0x2cu8] + texts[5] + seq![0x0du8, 0x0a],
        ) == Some(values),
{
    let response = seq![0x2bu8, 0x43, 0x45, 0x53, 0x51, 0x3a, 0x20] + texts[0] + seq![0x2cu8]
        + texts[1] + seq![0x2cu8] + texts[2] + seq![0x2cu8] + texts[3] + seq![0x2cu8] + texts[4]
        + seq![0x2cu8] + texts[5] + seq![0x0du8, 0x0a];
    let comma = seq![0x2cu8];
    let none = Seq::<u8>::empty();
    let gaps = seq![comma, comma, comma, comma, comma, none];
    assert forall|i: int| #![trigger texts[i]] 0 <= i < 6 implies is_number(
        texts[i],
        values[i],
    ) by {
        lemma_has_a_spelling(texts[i]);
    }
    assert(is_gap(comma));
    assert(is_gap(none));
    assert(is_row(texts, gaps, values));
    lemma_row_of(texts, gaps, 6);
    let front = seq![0x2bu8, 0x43, 0x45, 0x53, 0x51, 0x3a, 0x20];
    let a = texts[0] + comma;
    let b = a + texts[1] + comma;
    let c = b + texts[2] + comma;
    let d = c + texts[3] + comma;
    let e = d + texts[4] + comma;
    assert(front + texts[0] + comma =~= front + a);
    lemma_front_stays(front, a, texts[1], comma);
    lemma_front_stays(front, b, texts[2], comma);
    lemma_front_stays(front, c, texts[3], comma);
    lemma_front_stays(front, d, texts[4], comma);
    lemma_front_stays(front, e, texts[5], none);
    let numbers = row(texts, gaps);
    assert(front + e + texts[5] =~= front + numbers);
    assert(response == front + numbers + seq![0x0du8, 0x0a]);
    assert(front =~= seq![0x2bu8, 0x43, 0x45, 0x53, 0x51, 0x3a] + seq![0x20u8]);
    assert(response + none =~= response);
    assert(is_report(response, values, seq![0x20u8], texts, gaps, none));
    law_reports_are_read(response, values);
}

/// What stands in front can be set apart.
proof fn lemma_front_stays(front: Seq<u8>, a: Seq<u8>, b: Seq<u8>, c: Seq<u8>)
    ensures
        front + a + b + c == front + (a + b + c),
{
    assert(front + a + b + c =~= front + (a + b + c));
}

/// The row of the first texts and gaps.
proof fn lemma_row_of(texts: Seq<Seq<u8>>, gaps: Seq<Seq<u8>>, count: int)
    requires
        texts.len() == 6,
        gaps.len() == 6,
        0 <= count <= 6,
    ensures
        row(texts.take(count), gaps.take(count)) == ({
            let none = Seq::<u8>::empty();
            let a = if count > 0 { texts[0] + gaps[0] } else { none };
            let b = if count > 1 { a + texts[1] + gaps[1] } else { a };
            let c = if count > 2 { b + texts[2] + gaps[2] } else { b };
            let d = if count > 3 { c + texts[3] + gaps[3] } else { c };
            let e = if count > 4 { d + texts[4] + gaps[4] } else { d };
            if count > 5 { e + texts[5] + gaps[5] } else { e }
        }),
        texts.take(6) == texts,
        gaps.take(6) == gaps,
    decreases count,
{
    if count > 0 {
        lemma_row_of(texts, gaps, count - 1);
        assert(texts.take(count).drop_last() =~= texts.take(count - 1));
        assert(gaps.take(count).drop_last() =~= gaps.take(count - 1));
        assert(Seq::<u8>::empty() + texts[0] + gaps[0] =~= texts[0] + gaps[0]);
    }
}

/// Only a text that starts with `+CESQ:` and holds the end of a line is a report. It has six
/// numbers, all in the range of `i32`.
pub proof fn law_report_has_a_name_and_an_end(response: Seq<u8>, values: Seq<int>)
    requires
        crate::signal::signal_report(response) == Some(values),
    ensures
        response.len() > 8,
        response.take(6) == seq![0x2bu8, 0x43, 0x45, 0x53, 0x51, 0x3a],
        exists|i: int|
            6 < i < response.len() - 1 && #[trigger] response[i] == 0x0d && response[i + 1] == 0x0a,
        values.len() == 6,
        forall|i: int| 0 <= i < 6 ==> -0x8000_0000 <= #[trigger] values[i] <= 0x7fff_ffff,
{
    law_reports_are_read(response, values);
    let (blank, texts, gaps, tail) = choose|
        blank: Seq<u8>,
        texts: Seq<Seq<u8>>,
        gaps: Seq<Seq<u8>>,
        tail: Seq<u8>,
    |
        is_report(response, values, blank, texts, gaps, tail);
    lemma_row_starts(texts, gaps, values);
    let end: int = 6 + blank.len() + row(texts, gaps).len() as int;
    assert(response[end] == 0x0d);
    assert(response[end + 1] == 0x0a);
    assert(response.take(6) =~= seq![0x2bu8, 0x43, 0x45, 0x53, 0x51, 0x3a]);
    assert forall|i: int| 0 <= i < 6 implies -0x8000_0000 <= #[trigger] values[i]
        <= 0x7fff_ffff by {
        assert(is_number(texts[i], values[i]));
    }
}

/// What follows the end of the line, and a space more after the name, do not change what a report
/// says.
pub proof fn law_report_ends_with_its_line(
    response: Seq<u8>,
    values: Seq<int>,
    more: Seq<u8>,
)
    requires
        crate::signal::signal_report(response) == Some(values),
    ensures
        crate::signal::signal_report(response + more) == Some(values),
        crate::signal::signal_report(response.take(6) + seq![0x20u8] + response.skip(6)) == Some(
            values,
        ),
{
    law_reports_are_read(response, values);
    let (blank, texts, gaps, tail) = choose|
        blank: Seq<u8>,
        texts: Seq<Seq<u8>>,
        gaps: Seq<Seq<u8>>,
        tail: Seq<u8>,
    |
        is_report(response, values, blank, texts, gaps, tail);
    let name = seq![0x2bu8, 0x43, 0x45, 0x53, 0x51, 0x3a];
    let line_end = seq![0x0du8, 0x0a];
    let longer = response + more;
    assert(longer =~= name + blank + row(texts, gaps) + line_end + (tail + more));
    assert(is_report(longer, values, blank, texts, gaps, tail + more));
    law_reports_are_read(longer, values);
    let spaced = response.take(6) + seq![0x20u8] + response.skip(6);
    let wider = seq![0x20u8] + blank;
    assert(spaced =~= name + wider + row(texts, gaps) + line_end + tail);
    assert(is_report(spaced, values, wider, texts, gaps, tail));
    law_reports_are_read(spaced, values);
}

/// The strength that a report tells is its last number less 140, where that is in the range of
/// `i32`; but 255 stays 255. It is 255 for no other number but 395.
pub proof fn law_strength_is_the_last_number_less_140(response: Seq<u8>, values: Seq<int>)
    requires
        crate::signal::signal_report(response) == Some(values),
    ensures
        values.len() == 6,
        values[5] == 255 ==> crate::signal::signal_strength(response) == Some(255int),
        values[5] != 255 && values[5] - 140 >= -0x8000_0000 ==> crate::signal::signal_strength(
            response,
        ) == Some(values[5] - 140),
        values[5] - 140 < -0x8000_0000 ==> crate::signal::signal_strength(response) is None,
        crate::signal::signal_strength(response) == Some(255int) ==> values[5] == 255 || values[5]
            == 395,
{
    law_report_has_a_name_and_an_end(response, values);
}

/// A strength comes only from a report. It is 255 only if the last number is 255 or 395.
pub proof fn law_strength_comes_from_a_report(response: Seq<u8>)
    ensures
        crate::signal::signal_strength(response) matches Some(strength) ==> exists|values: Seq<int>|
            {
                &&& #[trigger] reports(response, values)
                &&& strength == 255 ==> values[5] == 255 || values[5] == 395
                &&& strength != 255 ==> values[5] == strength + 140
            },
{
    if crate::signal::signal_strength(response) is Some {
        let values = crate::signal::signal_report(response)->0;
        law_reports_are_read(response, values);
    }
}

/// A larger last number tells a larger strength, by as much, unless one of them is 255.
pub proof fn law_strengths_differ_as_the_numbers_do(
    response: Seq<u8>,
    values: Seq<int>,
    other: Seq<u8>,
    other_values: Seq<int>,
)
    requires
        reports(response, values),
        reports(other, other_values),
        values[5] != 255,
        other_values[5] != 255,
        crate::signal::signal_strength(response) is Some,
        crate::signal::signal_strength(other) is Some,
    ensures
        crate::signal::signal_strength(response)->0 - crate::signal::signal_strength(other)->0
            == values[5] - other_values[5],
{
    law_reports_are_read(response, values);
    law_reports_are_read(other, other_values);
    law_strength_is_the_last_number_less_140(response, values);
    law_strength_is_the_last_number_less_140(other, other_values);
}

} // verus!

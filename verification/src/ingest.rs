//! Lines of samples as they come in: a time and one value for each channel, written as
//! decimal numbers with one space between them.

use crate::store::IngestError;
use crate::store::Sample;
use crate::store::TimeSeriesStore;
use vstd::prelude::*;

verus! {

/// Whether the byte is a blank: a space, a tab or an end of line.
pub open spec fn is_blank(b: u8) -> bool {
    b == 32 || 9 <= b <= 13
}

/// The line without the blanks at its end.
pub open spec fn trimmed(line: Seq<u8>) -> Seq<u8>
    decreases line.len(),
{
    if line.len() > 0 && is_blank(line.last()) {
        trimmed(line.drop_last())
    } else {
        line
    }
}

/// The fields of the text that are not yet cut off when the text is read up to position
/// `i` and the field in hand began at position `start`. A field ends at each separator
/// and at the end of the text.
pub open spec fn fields_from(text: Seq<u8>, separator: u8, start: int, i: int) -> Seq<Seq<u8>>
    decreases text.len() - i,
{
    if i >= text.len() {
        seq![text.subrange(start, text.len() as int)]
    } else if text[i] == separator {
        seq![text.subrange(start, i)] + fields_from(text, separator, i + 1, i + 1)
    } else {
        fields_from(text, separator, start, i + 1)
    }
}

/// The fields of the text: what stands between its separators.
pub open spec fn fields(text: Seq<u8>, separator: u8) -> Seq<Seq<u8>> {
    fields_from(text, separator, 0, 0)
}

/// The numbers that the fields stand for, where each of them stands for one.
pub open spec fn numbers_of(parts: Seq<Seq<u8>>) -> Option<Seq<i64>> {
    if malformed(parts) {
        None
    } else {
        Some(Seq::new(parts.len(), |k: int| field_number(parts[k])->Some_0))
    }
}

/// The byte that stands between the numbers of a sample.
pub const SPACE: u8 = 32;

/// The byte that stands between the numbers of a report from a serial port.
pub const COMMA: u8 = 44;

/// Whether every byte is a decimal digit.
pub open spec fn all_digits(s: Seq<u8>) -> bool {
    forall|i: int| 0 <= i < s.len() ==> 48 <= #[trigger] s[i] <= 57
}

/// The number that the decimal digits stand for.
pub open spec fn decimal(digits: Seq<u8>) -> nat
    decreases digits.len(),
{
    if digits.len() == 0 {
        0
    } else {
        (decimal(digits.drop_last()) * 10 + (digits.last() - 48)) as nat
    }
}

/// The digits of a field: the field without a plus sign at its start.
pub open spec fn digits_of(field: Seq<u8>) -> Seq<u8> {
    if field.len() > 0 && field[0] == 43 {
        field.drop_first()
    } else {
        field
    }
}

/// The number that a field stands for: the field is one decimal digit or more, after a
/// plus sign or not, and the number is no larger than the largest time.
pub open spec fn field_number(field: Seq<u8>) -> Option<i64> {
    let digits = digits_of(field);
    if digits.len() > 0 && all_digits(digits) && decimal(digits) <= i64::MAX {
        Some(decimal(digits) as i64)
    } else {
        None
    }
}

/// Whether one of the fields stands for no number.
pub open spec fn malformed(parts: Seq<Seq<u8>>) -> bool {
    exists|k: int| 0 <= k < parts.len() && field_number(#[trigger] parts[k]) is None
}

/// What a line for `channels` channels says. A field that stands for no number makes
/// the line malformed. A line of numbers that are not one time and one value for each
/// channel does not match the configuration. Else the line is a sample: the first number
/// is its time, the others are its values.
pub open spec fn line_sample(line: Seq<u8>, channels: nat) -> Result<(i64, Seq<i64>), IngestError> {
    match numbers_of(fields(trimmed(line), SPACE)) {
        None => Err(IngestError::Malformed),
        Some(numbers) => if numbers.len() != channels + 1 {
            Err(IngestError::ConfigMismatch)
        } else {
            Ok((numbers[0], numbers.subrange(1, numbers.len() as int)))
        },
    }
}

/// The text without the separators at its end.
pub open spec fn without_trailing(text: Seq<u8>, separator: u8) -> Seq<u8>
    decreases text.len(),
{
    if text.len() > 0 && text.last() == separator {
        without_trailing(text.drop_last(), separator)
    } else {
        text
    }
}

/// The numbers of a report from a serial port: the numbers between the commas of the
/// line, blanks and commas at its end left aside.
pub open spec fn report_numbers(line: Seq<u8>) -> Option<Seq<i64>> {
    numbers_of(fields(without_trailing(trimmed(line), COMMA), COMMA))
}

proof fn lemma_decimal_grows(digits: Seq<u8>, j: int)
    requires
        0 <= j <= digits.len(),
        all_digits(digits),
    ensures
        decimal(digits.take(j)) <= decimal(digits),
    decreases digits.len() - j,
{
    if j < digits.len() {
        lemma_decimal_grows(digits, j + 1);
        assert(digits.take(j + 1).drop_last() =~= digits.take(j));
    } else {
        assert(digits.take(j) =~= digits);
    }
}

/// The number that the bytes of the line from `start` up to `end` stand for.
fn parse_field(line: &[u8], start: usize, end: usize) -> (r: Option<i64>)
    requires
        start <= end <= line@.len(),
    ensures
        r == field_number(line@.subrange(start as int, end as int)),
{
    let ghost field = line@.subrange(start as int, end as int);
    let mut i: usize = start;
    if i < end && line[i] == 43 {
        i += 1;
    }
    let first: usize = i;
    let ghost digits = digits_of(field);
    proof {
        assert(digits =~= line@.subrange(first as int, end as int));
    }
    if first == end {
        return None;
    }
    let mut value: u64 = 0;
    proof {
        assert(digits.take(0) =~= Seq::<u8>::empty());
    }
    while i < end
        invariant
            start <= first <= i <= end <= line@.len(),
            digits == line@.subrange(first as int, end as int),
            digits == digits_of(line@.subrange(start as int, end as int)),
            all_digits(digits.take(i - first)),
            value == decimal(digits.take(i - first)),
            value <= i64::MAX,
        decreases end - i,
    {
        let b: u8 = line[i];
        proof {
            assert(digits[i - first] == b);
            assert(digits.take(i - first + 1).drop_last() =~= digits.take(i - first));
        }
        if b < 48 || b > 57 {
            proof {
                assert(!(48 <= digits[i - first] <= 57));
            }
            return None;
        }
        let d: u64 = (b - 48) as u64;
        if value > (i64::MAX as u64 - d) / 10 {
            proof {
                if all_digits(digits) {
                    lemma_decimal_grows(digits, i - first + 1);
                    assert(digits.take(i - first + 1).last() == b);
                    assert(decimal(digits.take(i - first + 1)) == value * 10 + d);
                }
            }
            return None;
        }
        value = value * 10 + d;
        i += 1;
    }
    proof {
        assert(digits.take(end - first) =~= digits);
    }
    Some(value as i64)
}

/// The length of the line without the blanks at its end.
fn trimmed_length(line: &[u8]) -> (end: usize)
    ensures
        end <= line@.len(),
        trimmed(line@) == line@.take(end as int),
{
    let mut end: usize = line.len();
    proof {
        assert(line@.take(end as int) =~= line@);
    }
    while end > 0 && is_blank_byte(line[end - 1])
        invariant
            end <= line@.len(),
            trimmed(line@) == trimmed(line@.take(end as int)),
        decreases end,
    {
        proof {
            assert(line@.take(end as int).drop_last() =~= line@.take(end - 1));
        }
        end -= 1;
    }
    end
}

/// The numbers in the first `end` bytes of the line, with `separator` between them.
fn parse_numbers(line: &[u8], end: usize, separator: u8) -> (r: Option<Vec<i64>>)
    requires
        end <= line@.len(),
    ensures
        match r {
            Some(numbers) => numbers@.len() >= 1 && numbers_of(
                fields(line@.take(end as int), separator),
            ) == Some(numbers@),
            None => numbers_of(fields(line@.take(end as int), separator)) is None,
        },
{
    let ghost text = line@.take(end as int);
    let mut numbers: Vec<i64> = Vec::new();
    let ghost mut done: Seq<Seq<u8>> = Seq::empty();
    let mut start: usize = 0;
    let mut i: usize = 0;
    while i < end
        invariant
            start <= i <= end <= line@.len(),
            text == line@.take(end as int),
            fields(text, separator) == done + fields_from(text, separator, start as int, i as int),
            numbers@.len() == done.len(),
            forall|k: int|
                0 <= k < done.len() ==> field_number(#[trigger] done[k]) == Some(numbers@[k]),
        decreases end - i,
    {
        if line[i] == separator {
            let number = parse_field(line, start, i);
            proof {
                assert(line@.subrange(start as int, i as int) =~= text.subrange(
                    start as int,
                    i as int,
                ));
                assert(done + (seq![text.subrange(start as int, i as int)] + fields_from(
                    text,
                    separator,
                    i + 1,
                    i + 1,
                )) =~= done.push(text.subrange(start as int, i as int)) + fields_from(
                    text,
                    separator,
                    i + 1,
                    i + 1,
                ));
            }
            match number {
                Some(value) => {
                    numbers.push(value);
                    proof {
                        done = done.push(text.subrange(start as int, i as int));
                    }
                },
                None => {
                    proof {
                        let parts = fields(text, separator);
                        assert(parts[done.len() as int] == text.subrange(start as int, i as int));
                    }
                    return None;
                },
            }
            start = i + 1;
        }
        i += 1;
    }
    let number = parse_field(line, start, end);
    proof {
        assert(line@.subrange(start as int, end as int) =~= text.subrange(
            start as int,
            end as int,
        ));
        assert(fields(text, separator) =~= done.push(text.subrange(start as int, end as int)));
    }
    match number {
        Some(value) => {
            numbers.push(value);
            proof {
                done = done.push(text.subrange(start as int, end as int));
                let parts = fields(text, separator);
                assert(!malformed(parts));
                assert(numbers@ =~= Seq::new(parts.len(), |k: int| field_number(parts[k])->Some_0));
            }
            Some(numbers)
        },
        None => {
            proof {
                let parts = fields(text, separator);
                assert(parts[done.len() as int] == text.subrange(start as int, end as int));
            }
            None
        },
    }
}

/// Reads one line as a sample of `channels` channels.
pub fn parse_line(line: &[u8], channels: usize) -> (r: Result<Sample, IngestError>)
    ensures
        match r {
            Ok(sample) => line_sample(line@, channels as nat) == Ok::<
                (i64, Seq<i64>),
                IngestError,
            >(sample@),
            Err(e) => line_sample(line@, channels as nat) == Err::<(i64, Seq<i64>), IngestError>(e),
        },
{
    let end: usize = trimmed_length(line);
    let numbers = match parse_numbers(line, end, SPACE) {
        Some(numbers) => numbers,
        None => {
            return Err(IngestError::Malformed);
        },
    };
    if numbers.len() - 1 != channels {
        return Err(IngestError::ConfigMismatch);
    }
    let time: i64 = numbers[0];
    let mut values: Vec<i64> = Vec::new();
    let mut k: usize = 1;
    while k < numbers.len()
        invariant
            1 <= k <= numbers@.len(),
            values@.len() == k - 1,
            forall|m: int| 0 <= m < k - 1 ==> #[trigger] values@[m] == numbers@[m + 1],
        decreases numbers.len() - k,
    {
        values.push(numbers[k]);
        k += 1;
    }
    proof {
        assert(values@ =~= numbers@.subrange(1, numbers@.len() as int));
    }
    Ok(Sample { time, values })
}

/// Reads the numbers of one report from a serial port.
pub fn parse_report(line: &[u8]) -> (r: Option<Vec<i64>>)
    ensures
        match r {
            Some(numbers) => report_numbers(line@) == Some(numbers@),
            None => report_numbers(line@) is None,
        },
{
    let mut end: usize = trimmed_length(line);
    while end > 0 && line[end - 1] == COMMA
        invariant
            end <= line@.len(),
            without_trailing(trimmed(line@), COMMA) == without_trailing(
                line@.take(end as int),
                COMMA,
            ),
        decreases end,
    {
        proof {
            assert(line@.take(end as int).drop_last() =~= line@.take(end - 1));
        }
        end -= 1;
    }
    parse_numbers(line, end, COMMA)
}

/// Reads one line and puts its sample into the store. A line that is no sample for the
/// store leaves the store as it is.
pub fn ingest_line(data: &mut TimeSeriesStore, line: &[u8]) -> (r: Result<(), IngestError>)
    ensures
        final(data).arity() == old(data).arity(),
        match line_sample(line@, old(data).arity()) {
            Ok(sample) => r is Ok && final(data)@ == old(data)@.insert(sample.0, sample.1),
            Err(e) => r == Err::<(), IngestError>(e) && final(data)@ == old(data)@,
        },
        old(data)@.dom().finite(),
        final(data)@.dom().finite(),
{
    match parse_line(line, data.channels()) {
        Ok(sample) => data.insert(sample.time, sample.values),
        Err(e) => Err(e),
    }
}

fn is_blank_byte(b: u8) -> (r: bool)
    ensures
        r == is_blank(b),
{
    b == 32 || (9 <= b && b <= 13)
}

/// Puts a sample into the store: the time and the value of each channel at that time.
pub fn ingest(data: &mut TimeSeriesStore, timestamp: i64, values: Vec<i64>) -> (r: Result<
    (),
    IngestError,
>)
    ensures
        final(data).arity() == old(data).arity(),
        values@.len() == old(data).arity() ==> r is Ok && final(data)@ == old(data)@.insert(
            timestamp,
            values@,
        ),
        values@.len() != old(data).arity() ==> r == Err::<(), IngestError>(
            IngestError::ConfigMismatch,
        ) && final(data)@ == old(data)@,
        old(data)@.dom().finite(),
        final(data)@.dom().finite(),
{
    data.insert(timestamp, values)
}

/// What is done about a line that is no sample for the store.
#[derive(Clone, Copy, Debug, PartialEq, Eq, Structural)]
pub enum Policy {
    /// The line is left out and the reading goes on.
    Skip,
    /// The reading ends.
    Abort,
}

/// What became of a line.
#[derive(Clone, Copy, Debug, PartialEq, Eq, Structural)]
pub enum Intake {
    /// The sample of the line is in the store.
    Stored,
    /// The line was left out; the reading goes on.
    Skipped(IngestError),
    /// The line was left out; the reading ends.
    Aborted(IngestError),
}

/// What becomes of a line under a policy.
pub open spec fn intake_of(line: Seq<u8>, channels: nat, policy: Policy) -> Intake {
    match line_sample(line, channels) {
        Ok(_) => Intake::Stored,
        Err(e) => match policy {
            Policy::Skip => Intake::Skipped(e),
            Policy::Abort => Intake::Aborted(e),
        },
    }
}

/// Reads one line under a policy: its sample is put into the store, or the line is left
/// out and the store stays as it is.
pub fn ingest_line_with(data: &mut TimeSeriesStore, line: &[u8], policy: Policy) -> (r: Intake)
    ensures
        final(data).arity() == old(data).arity(),
        r == intake_of(line@, old(data).arity(), policy),
        match line_sample(line@, old(data).arity()) {
            Ok(sample) => final(data)@ == old(data)@.insert(sample.0, sample.1),
            Err(_) => final(data)@ == old(data)@,
        },
        old(data)@.dom().finite(),
        final(data)@.dom().finite(),
{
    match ingest_line(data, line) {
        Ok(()) => Intake::Stored,
        Err(e) => match policy {
            Policy::Skip => Intake::Skipped(e),
            Policy::Abort => Intake::Aborted(e),
        },
    }
}

} // verus!

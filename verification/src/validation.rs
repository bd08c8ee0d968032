//! From form input to a list of numbers, or to the reason why there is none.

use crate::decimal::{parse_u64, parse_u64_spec};
use crate::form::FormInput;
use crate::numbers::{all_positive, NumberList};
use vstd::pervasive::unreached;
use vstd::prelude::*;
use vstd::string::StringExecFns;

verus! {

/// Why a submitted value is not accepted as a number.
#[derive(Clone, Copy, Debug, PartialEq, Eq, Structural)]
pub enum ParseFailure {
    /// The text is not the numeral of an unsigned 64-bit number.
    NotANumber,
    /// The text denotes zero; divisors are computed of positive numbers only.
    Zero,
}

/// Why form input yields no list of numbers.
#[derive(Clone, Copy, Debug, PartialEq, Eq, Structural)]
pub enum ValidationError {
    /// The form has no field `n`.
    MissingField,
    /// A value of the field `n` is not accepted as a number.
    ParseError(ParseFailure),
    /// The field `n` is there, without any value.
    EmptyInput,
}

/// The name of the field that holds the numbers.
pub open spec fn numbers_field() -> Seq<char> {
    seq!['n']
}

/// What one submitted value means: a positive number, or a failure.
pub open spec fn number_of(text: Seq<char>) -> Result<u64, ParseFailure> {
    match parse_u64_spec(text) {
        None => Err(ParseFailure::NotANumber),
        Some(n) => if n == 0 {
            Err(ParseFailure::Zero)
        } else {
            Ok(n)
        },
    }
}

/// What a list of submitted values means: the numbers in the order of the
/// values, or the failure of the first value that is not accepted.
pub open spec fn numbers_of(values: Seq<Seq<char>>) -> Result<Seq<u64>, ParseFailure>
    decreases values.len(),
{
    if values.len() == 0 {
        Ok(Seq::empty())
    } else {
        match numbers_of(values.drop_last()) {
            Err(failure) => Err(failure),
            Ok(front) => match number_of(values.last()) {
                Err(failure) => Err(failure),
                Ok(n) => Ok(front.push(n)),
            },
        }
    }
}

/// What form input means: the numbers of its field `n`, or the reason why it
/// has none.
pub open spec fn validation_of(form: Map<Seq<char>, Seq<Seq<char>>>) -> Result<
    Seq<u64>,
    ValidationError,
> {
    if !form.contains_key(numbers_field()) {
        Err(ValidationError::MissingField)
    } else if form[numbers_field()].len() == 0 {
        Err(ValidationError::EmptyInput)
    } else {
        match numbers_of(form[numbers_field()]) {
            Err(failure) => Err(ValidationError::ParseError(failure)),
            Ok(numbers) => Ok(numbers),
        }
    }
}

/// A list of values is accepted exactly if each value is; the numbers then
/// stand for the values one by one, in their order.
pub proof fn lemma_numbers_of_accepted(values: Seq<Seq<char>>)
    ensures
        numbers_of(values) is Ok <==> forall|i: int|
            0 <= i < values.len() ==> number_of(#[trigger] values[i]) is Ok,
        numbers_of(values) matches Ok(numbers) ==> {
            &&& numbers.len() == values.len()
            &&& all_positive(numbers)
            &&& forall|i: int|
                0 <= i < values.len() ==> number_of(#[trigger] values[i]) == Ok::<u64, ParseFailure>(
                    numbers[i],
                )
        },
    decreases values.len(),
{
    if values.len() > 0 {
        let front = values.drop_last();
        lemma_numbers_of_accepted(front);
        assert forall|i: int| 0 <= i < front.len() implies front[i] == values[i] by {}
        if numbers_of(values) is Ok {
            assert forall|i: int| 0 <= i < values.len() implies number_of(#[trigger] values[i])
                is Ok by {}
        }
    }
}

/// A list of values is rejected with the failure of its first value that is
/// not accepted.
pub proof fn lemma_numbers_of_rejected(values: Seq<Seq<char>>) -> (first: int)
    requires
        numbers_of(values) is Err,
    ensures
        0 <= first < values.len(),
        forall|i: int| 0 <= i < first ==> number_of(#[trigger] values[i]) is Ok,
        number_of(values[first]) is Err,
        numbers_of(values)->Err_0 == number_of(values[first])->Err_0,
    decreases values.len(),
{
    let front = values.drop_last();
    if numbers_of(front) is Err {
        let first = lemma_numbers_of_rejected(front);
        assert forall|i: int| 0 <= i < first implies number_of(#[trigger] values[i]) is Ok by {
            assert(front[i] == values[i]);
        }
        first
    } else {
        lemma_numbers_of_accepted(front);
        assert forall|i: int| 0 <= i < front.len() implies number_of(#[trigger] values[i])
            is Ok by {
            assert(front[i] == values[i]);
        }
        values.len() - 1
    }
}

/// Reads one submitted value as a positive number.
pub fn parse_number(text: &str) -> (number: Result<u64, ParseFailure>)
    ensures
        number == number_of(text@),
{
    match parse_u64(text) {
        None => Err(ParseFailure::NotANumber),
        Some(n) => if n == 0 {
            Err(ParseFailure::Zero)
        } else {
            Ok(n)
        },
    }
}

/// Reads submitted values as positive numbers, in their order, and stops at
/// the first value that is not accepted.
pub fn parse_numbers(values: &Vec<String>) -> (numbers: Result<Vec<u64>, ParseFailure>)
    ensures
        match numbers_of(values.deep_view()) {
            Ok(expected) => numbers matches Ok(found) && found@ == expected,
            Err(failure) => numbers == Err::<Vec<u64>, ParseFailure>(failure),
        },
{
    let ghost texts = values.deep_view();
    let mut found: Vec<u64> = Vec::new();
    let mut i: usize = 0;
    while i < values.len()
        invariant
            i <= values.len(),
            texts == values.deep_view(),
            numbers_of(texts.take(i as int)) == Ok::<Seq<u64>, ParseFailure>(found@),
        decreases values.len() - i,
    {
        proof {
            assert(texts.take(i + 1).drop_last() =~= texts.take(i as int));
            lemma_numbers_of_prefix(texts, i + 1);
        }
        match parse_number(values[i].as_str()) {
            Err(failure) => {
                return Err(failure);
            },
            Ok(n) => {
                found.push(n);
            },
        }
        i += 1;
    }
    proof {
        assert(texts.take(i as int) =~= texts);
    }
    Ok(found)
}

/// Once a prefix of a list is rejected, the whole list is, with the same
/// failure.
proof fn lemma_numbers_of_prefix(values: Seq<Seq<char>>, k: int)
    requires
        0 <= k <= values.len(),
    ensures
        numbers_of(values.take(k)) is Err ==> numbers_of(values) == numbers_of(values.take(k)),
    decreases values.len(),
{
    if k == values.len() {
        assert(values.take(k) =~= values);
    } else {
        lemma_numbers_of_prefix(values.drop_last(), k);
        assert(values.drop_last().take(k) =~= values.take(k));
    }
}

impl ValidationError {
    /// The message that tells a client what was wrong with its form.
    pub open spec fn message_text(self) -> Seq<char> {
        match self {
            ValidationError::MissingField => "form data has no 'n' parameter!\n"@,
            ValidationError::ParseError(ParseFailure::NotANumber) => "Value 'n' is not a number!"@,
            ValidationError::ParseError(ParseFailure::Zero) => "Value 'n' must not be zero!"@,
            ValidationError::EmptyInput => "form data has no value for 'n'!\n"@,
        }
    }

    /// The message that tells a client what was wrong with its form.
    pub fn message(&self) -> (text: String)
        ensures
            text@ == self.message_text(),
    {
        match self {
            ValidationError::MissingField => String::from_str("form data has no 'n' parameter!\n"),
            ValidationError::ParseError(ParseFailure::NotANumber) => String::from_str(
                "Value 'n' is not a number!",
            ),
            ValidationError::ParseError(ParseFailure::Zero) => String::from_str(
                "Value 'n' must not be zero!",
            ),
            ValidationError::EmptyInput => String::from_str("form data has no value for 'n'!\n"),
        }
    }
}

/// The numbers submitted in the field `n` of a form.
///
/// A form without the field is rejected, as is a field without values and a
/// value that is no numeral of a positive number below two to the 64th.
pub fn validate(form: &FormInput) -> (outcome: Result<NumberList, ValidationError>)
    ensures
        match validation_of(form@) {
            Ok(numbers) => outcome matches Ok(list) && list@ == numbers,
            Err(error) => outcome matches Err(e) && e == error,
        },
{
    let name = String::from_str("n");
    proof {
        reveal_strlit("n");
        assert(name@ =~= numbers_field());
    }
    let values = match form.get(&name) {
        None => {
            return Err(ValidationError::MissingField);
        },
        Some(values) => values,
    };
    if values.len() == 0 {
        return Err(ValidationError::EmptyInput);
    }
    match parse_numbers(values) {
        Err(failure) => Err(ValidationError::ParseError(failure)),
        Ok(numbers) => {
            proof {
                lemma_numbers_of_accepted(values.deep_view());
            }
            match NumberList::new(numbers) {
                Some(list) => Ok(list),
                None => unreached(),
            }
        },
    }
}

} // verus!

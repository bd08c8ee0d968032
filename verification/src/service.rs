//! What the service answers: a status, a kind of content and a body for each
//! request, as plain values for the program around the library to send.

use crate::decimal::{decimal_text, push_decimal, push_signed_decimal, signed_decimal_text};
use crate::form::FormInput;
use crate::numbers::gcd_of;
use crate::validation::{validate, validation_of, ValidationError};
use vstd::prelude::*;
use vstd::string::StringExecFns;

verus! {

/// The status of an answer.
#[derive(Clone, Copy, Debug, PartialEq, Eq, Structural)]
pub enum Status {
    /// The request was served.
    Success,
    /// The request was at fault.
    BadRequest,
    /// The service could not do its part.
    InternalServerError,
}

impl Status {
    /// The number that stands for the status on the wire.
    pub open spec fn code_spec(self) -> u16 {
        match self {
            Status::Success => 200,
            Status::BadRequest => 400,
            Status::InternalServerError => 500,
        }
    }

    /// The number that stands for the status on the wire.
    pub fn code(&self) -> (code: u16)
        ensures
            code == self.code_spec(),
    {
        match self {
            Status::Success => 200,
            Status::BadRequest => 400,
            Status::InternalServerError => 500,
        }
    }
}

/// An answer to a request.
#[derive(Debug, PartialEq, Eq)]
pub struct Reply {
    /// The status to answer with.
    pub status: Status,
    /// Whether the body is an HTML text in UTF-8; if not, the answer names no
    /// kind of content.
    pub html: bool,
    /// The body of the answer.
    pub body: String,
}

/// An answer as a plain value.
pub ghost struct ReplyView {
    pub status: Status,
    pub html: bool,
    pub body: Seq<char>,
}

impl View for Reply {
    type V = ReplyView;

    open spec fn view(&self) -> ReplyView {
        ReplyView { status: self.status, html: self.html, body: self.body@ }
    }
}

/// The numerals of a list of numbers, separated by a comma and a space.
pub open spec fn joined_text(numbers: Seq<u64>) -> Seq<char>
    decreases numbers.len(),
{
    if numbers.len() == 0 {
        Seq::empty()
    } else if numbers.len() == 1 {
        decimal_text(numbers[0] as nat)
    } else {
        joined_text(numbers.drop_last()) + seq![',', ' '] + decimal_text(numbers.last() as nat)
    }
}

/// A list of numbers as text: the numerals in square brackets.
pub open spec fn list_text(numbers: Seq<u64>) -> Seq<char> {
    seq!['['] + joined_text(numbers) + seq![']']
}

/// The body that reports the divisor `d` of `numbers`.
pub open spec fn gcd_body(numbers: Seq<u64>, d: nat) -> Seq<char> {
    "The greatest common divisor of the numbers "@ + list_text(numbers) + " is <b>"@
        + decimal_text(d) + "</b>\n"@
}

/// The answer to a form: the divisor of its numbers, or what was wrong with
/// it.
pub open spec fn gcd_reply(form: Map<Seq<char>, Seq<Seq<char>>>) -> ReplyView {
    match validation_of(form) {
        Ok(numbers) => ReplyView {
            status: Status::Success,
            html: true,
            body: gcd_body(numbers, gcd_of(numbers)),
        },
        Err(error) => ReplyView {
            status: Status::BadRequest,
            html: false,
            body: error.message_text(),
        },
    }
}

/// Appends a list of numbers as text to `out`.
pub fn push_list(out: &mut String, numbers: &Vec<u64>)
    ensures
        final(out)@ == old(out)@ + list_text(numbers@),
{
    let ghost head = out@;
    out.append("[");
    proof {
        reveal_strlit("[");
    }
    let mut i: usize = 0;
    while i < numbers.len()
        invariant
            i <= numbers.len(),
            out@ == head + seq!['['] + joined_text(numbers@.take(i as int)),
        decreases numbers.len() - i,
    {
        let ghost so_far = numbers@.take(i as int);
        let ghost next = numbers@.take(i + 1);
        proof {
            assert(next.drop_last() =~= so_far);
        }
        if i > 0 {
            out.append(", ");
        }
        push_decimal(out, numbers[i]);
        proof {
            reveal_strlit(", ");
            let numeral = decimal_text(numbers[i as int] as nat);
            if i > 0 {
                assert(head + seq!['['] + joined_text(so_far) + seq![',', ' '] + numeral =~= head
                    + seq!['['] + (joined_text(so_far) + seq![',', ' '] + numeral));
            } else {
                assert(head + seq!['['] + joined_text(so_far) + numeral =~= head + seq!['[']
                    + numeral);
            }
        }
        i += 1;
    }
    out.append("]");
    proof {
        reveal_strlit("]");
        assert(numbers@.take(i as int) =~= numbers@);
        assert(head + seq!['['] + joined_text(numbers@) + seq![']'] =~= head + list_text(
            numbers@,
        ));
    }
}

/// The answer that reports the divisor `d` of `numbers`.
pub fn gcd_found(numbers: &Vec<u64>, d: u64) -> (reply: Reply)
    ensures
        reply@ == (ReplyView {
            status: Status::Success,
            html: true,
            body: gcd_body(numbers@, d as nat),
        }),
{
    let mut body = String::from_str("The greatest common divisor of the numbers ");
    push_list(&mut body, numbers);
    body.append(" is <b>");
    push_decimal(&mut body, d);
    body.append("</b>\n");
    Reply { status: Status::Success, html: true, body }
}

/// The answer to a form that yields no numbers.
pub fn rejected(error: ValidationError) -> (reply: Reply)
    ensures
        reply@ == (ReplyView {
            status: Status::BadRequest,
            html: false,
            body: error.message_text(),
        }),
{
    Reply { status: Status::BadRequest, html: false, body: error.message() }
}

/// Answers a form submitted for a greatest common divisor.
pub fn post_gcd(form: &FormInput) -> (reply: Reply)
    ensures
        reply@ == gcd_reply(form@),
{
    match validate(form) {
        Err(error) => rejected(error),
        Ok(list) => {
            let d = list.gcd();
            gcd_found(list.values(), d)
        },
    }
}

/// The page that offers the form.
pub const FORM_PAGE: &'static str = r#"
        <title>GCD Calculator</title>
        <form action="/gcd" method="post">
            <input type="text" name="n"/>
            <input type="text" name="n"/>
            <button type="submit">Compute GCD</button>
        </form>
        "#;

/// Answers a request for the form.
pub fn get_form() -> (reply: Reply)
    ensures
        reply@ == (ReplyView { status: Status::Success, html: true, body: FORM_PAGE@ }),
{
    Reply { status: Status::Success, html: true, body: String::from_str(FORM_PAGE) }
}

/// The answer to a request whose body could not be read as a form; `detail`
/// says what was wrong with it.
pub fn unreadable_form(detail: &str) -> (reply: Reply)
    ensures
        reply@ == (ReplyView {
            status: Status::BadRequest,
            html: false,
            body: "Error parsing form data: "@ + detail@ + "\n"@,
        }),
{
    let mut body = String::from_str("Error parsing form data: ");
    body.append(detail);
    body.append("\n");
    Reply { status: Status::BadRequest, html: false, body }
}

/// A user as another service describes one.
#[derive(Debug, PartialEq, Eq)]
pub struct ExternalUser {
    pub id: i32,
    pub name: String,
    pub email: String,
}

/// Why the other service gave no user; each holds the error's own text.
#[derive(Debug, PartialEq, Eq)]
pub enum FetchFailure {
    /// The request could not be made or was not answered.
    Request(String),
    /// The answer was not the description of a user.
    Json(String),
}

/// The answer that passes on what the other service gave.
pub open spec fn external_reply(outcome: Result<ExternalUser, FetchFailure>) -> ReplyView {
    match outcome {
        Ok(user) => ReplyView {
            status: Status::Success,
            html: false,
            body: "External user: id="@ + signed_decimal_text(user.id as int) + ", name="@
                + user.name@,
        },
        Err(FetchFailure::Request(text)) => ReplyView {
            status: Status::InternalServerError,
            html: false,
            body: "Async error: Reqwest error: "@ + text@,
        },
        Err(FetchFailure::Json(text)) => ReplyView {
            status: Status::InternalServerError,
            html: false,
            body: "Async error: JSON error: "@ + text@,
        },
    }
}

/// Answers a request for the user of the other service, once that service
/// has been asked.
pub fn external_user_reply(outcome: &Result<ExternalUser, FetchFailure>) -> (reply: Reply)
    ensures
        reply@ == external_reply(*outcome),
{
    match outcome {
        Ok(user) => {
            let mut body = String::from_str("External user: id=");
            push_signed_decimal(&mut body, user.id as i64);
            body.append(", name=");
            body.append(user.name.as_str());
            Reply { status: Status::Success, html: false, body }
        },
        Err(FetchFailure::Request(text)) => {
            let mut body = String::from_str("Async error: Reqwest error: ");
            body.append(text.as_str());
            Reply { status: Status::InternalServerError, html: false, body }
        },
        Err(FetchFailure::Json(text)) => {
            let mut body = String::from_str("Async error: JSON error: ");
            body.append(text.as_str());
            Reply { status: Status::InternalServerError, html: false, body }
        },
    }
}

} // verus!

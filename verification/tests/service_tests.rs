use iron_gcd::form::FormInput;
use iron_gcd::service::{
    external_user_reply, gcd_found, get_form, post_gcd, push_list, rejected, unreadable_form,
    ExternalUser, FetchFailure, Reply, Status, FORM_PAGE,
};
use iron_gcd::validation::{ParseFailure, ValidationError};

fn form_with_n(values: &[&str]) -> FormInput {
    let mut form = FormInput::new();
    form.insert("n".to_string(), values.iter().map(|v| v.to_string()).collect());
    form
}

#[test]
fn status_codes() {
    assert_eq!(Status::Success.code(), 200);
    assert_eq!(Status::BadRequest.code(), 400);
    assert_eq!(Status::InternalServerError.code(), 500);
}

#[test]
fn missing_field_is_a_bad_request() {
    let reply = post_gcd(&FormInput::new());
    assert_eq!(reply.status, Status::BadRequest);
    assert_eq!(reply.status.code(), 400);
    assert!(!reply.html);
    assert_eq!(reply.body, "form data has no 'n' parameter!\n");
}

#[test]
fn value_that_is_no_number_is_a_bad_request() {
    let reply = post_gcd(&form_with_n(&["abc"]));
    assert_eq!(reply.status, Status::BadRequest);
    assert_eq!(reply.status.code(), 400);
    assert!(!reply.html);
    assert_eq!(reply.body, "Value 'n' is not a number!");
}

#[test]
fn zero_is_a_bad_request() {
    let reply = post_gcd(&form_with_n(&["12", "0"]));
    assert_eq!(
        reply,
        Reply {
            status: Status::BadRequest,
            html: false,
            body: "Value 'n' must not be zero!".to_string(),
        }
    );
}

#[test]
fn field_without_values_is_a_bad_request() {
    let reply = post_gcd(&form_with_n(&[]));
    assert_eq!(
        reply,
        Reply {
            status: Status::BadRequest,
            html: false,
            body: "form data has no value for 'n'!\n".to_string(),
        }
    );
}

#[test]
fn divisor_of_48_and_18() {
    let reply = post_gcd(&form_with_n(&["48", "18"]));
    assert_eq!(reply.status, Status::Success);
    assert!(reply.html);
    assert!(reply.body.contains("is <b>6</b>"));
    assert_eq!(
        reply.body,
        "The greatest common divisor of the numbers [48, 18] is <b>6</b>\n"
    );
}

#[test]
fn divisor_of_a_single_number() {
    let reply = post_gcd(&form_with_n(&["7"]));
    assert_eq!(reply.status, Status::Success);
    assert!(reply.html);
    assert!(reply.body.contains("is <b>7</b>"));
    assert_eq!(reply.body, "The greatest common divisor of the numbers [7] is <b>7</b>\n");
}

#[test]
fn divisor_of_many_numbers() {
    let reply = post_gcd(&form_with_n(&["360", "+84", "0132", "600"]));
    assert_eq!(
        reply,
        Reply {
            status: Status::Success,
            html: true,
            body: "The greatest common divisor of the numbers [360, 84, 132, 600] is <b>12</b>\n"
                .to_string(),
        }
    );
}

#[test]
fn divisor_of_the_largest_number() {
    let reply = post_gcd(&form_with_n(&["18446744073709551615", "18446744073709551615"]));
    assert_eq!(
        reply.body,
        "The greatest common divisor of the numbers [18446744073709551615, 18446744073709551615] \
         is <b>18446744073709551615</b>\n"
    );
}

#[test]
fn push_list_writes_numbers_in_brackets() {
    let mut out = String::new();
    push_list(&mut out, &vec![]);
    assert_eq!(out, "[]");
    let mut out = String::from("numbers ");
    push_list(&mut out, &vec![5]);
    assert_eq!(out, "numbers [5]");
    let mut out = String::new();
    push_list(&mut out, &vec![48, 18, 0, 1000]);
    assert_eq!(out, "[48, 18, 0, 1000]");
    assert_eq!(out, format!("{:?}", vec![48u64, 18, 0, 1000]));
}

#[test]
fn gcd_found_reports_the_divisor() {
    assert_eq!(
        gcd_found(&vec![10, 4], 2),
        Reply {
            status: Status::Success,
            html: true,
            body: "The greatest common divisor of the numbers [10, 4] is <b>2</b>\n".to_string(),
        }
    );
}

#[test]
fn rejected_carries_the_message_of_the_error() {
    for error in [
        ValidationError::MissingField,
        ValidationError::EmptyInput,
        ValidationError::ParseError(ParseFailure::NotANumber),
        ValidationError::ParseError(ParseFailure::Zero),
    ] {
        let reply = rejected(error);
        assert_eq!(reply.status, Status::BadRequest);
        assert!(!reply.html);
        assert_eq!(reply.body, error.message());
    }
}

#[test]
fn form_page_is_served_as_html() {
    let reply = get_form();
    assert_eq!(reply.status, Status::Success);
    assert!(reply.html);
    assert_eq!(reply.body, FORM_PAGE);
    assert!(reply.body.contains("<form action=\"/gcd\" method=\"post\">"));
    assert_eq!(reply.body.matches("<input type=\"text\" name=\"n\"/>").count(), 2);
    assert!(reply.body.starts_with("\n        <title>GCD Calculator</title>\n"));
    assert!(reply.body.ends_with("</form>\n        "));
}

#[test]
fn unreadable_form_is_a_bad_request() {
    assert_eq!(
        unreadable_form("EmptyQuery"),
        Reply {
            status: Status::BadRequest,
            html: false,
            body: "Error parsing form data: EmptyQuery\n".to_string(),
        }
    );
}

#[test]
fn external_user_is_passed_on() {
    let user = ExternalUser {
        id: 123,
        name: "Ada".to_string(),
        email: "ada@example.org".to_string(),
    };
    assert_eq!(
        external_user_reply(&Ok(user)),
        Reply {
            status: Status::Success,
            html: false,
            body: "External user: id=123, name=Ada".to_string(),
        }
    );
}

#[test]
fn external_user_with_a_negative_id() {
    let user = ExternalUser { id: i32::MIN, name: String::new(), email: String::new() };
    assert_eq!(
        external_user_reply(&Ok(user)).body,
        "External user: id=-2147483648, name="
    );
}

#[test]
fn failed_request_is_a_server_error() {
    let reply = external_user_reply(&Err(FetchFailure::Request("connection refused".to_string())));
    assert_eq!(reply.status, Status::InternalServerError);
    assert_eq!(reply.status.code(), 500);
    assert!(!reply.html);
    assert_eq!(reply.body, "Async error: Reqwest error: connection refused");
}

#[test]
fn unreadable_user_is_a_server_error() {
    let reply = external_user_reply(&Err(FetchFailure::Json("missing field `id`".to_string())));
    assert_eq!(reply.status, Status::InternalServerError);
    assert!(!reply.html);
    assert_eq!(reply.body, "Async error: JSON error: missing field `id`");
}

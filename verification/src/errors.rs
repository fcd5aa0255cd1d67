//! Argument-validation failures and their user-facing messages.

use vstd::prelude::*;

verus! {

/// The ways command-line validation can fail before a scan starts.
#[derive(Clone, Copy, Debug, PartialEq, Eq, Structural)]
pub enum ErrorType {
    NotEnough,
    TooMany,
    Help,
    NotValidIp,
    NotValidThreads,
    InvalidSyntax,
}

/// The message text reported for each validation failure.
pub open spec fn spec_error_message(err_type: ErrorType) -> Seq<char> {
    match err_type {
        ErrorType::NotEnough => "Not enough arguments"@,
        ErrorType::TooMany => "Too many arguments"@,
        ErrorType::Help => "Help doc"@,
        ErrorType::NotValidIp => "Not a valid ipv4 or ipv6 address"@,
        ErrorType::NotValidThreads => "Not a valid number"@,
        ErrorType::InvalidSyntax => "Invalid syntax"@,
    }
}

/// Returns the message reported for a validation failure.
pub fn get_error_message(err_type: ErrorType) -> (msg: &'static str)
    ensures
        msg@ == spec_error_message(err_type),
{
    match err_type {
        ErrorType::NotEnough => "Not enough arguments",
        ErrorType::TooMany => "Too many arguments",
        ErrorType::Help => "Help doc",
        ErrorType::NotValidIp => "Not a valid ipv4 or ipv6 address",
        ErrorType::NotValidThreads => "Not a valid number",
        ErrorType::InvalidSyntax => "Invalid syntax",
    }
}

} // verus!

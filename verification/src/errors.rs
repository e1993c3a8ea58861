//! What can go wrong while activity data is fetched and read.

use vstd::prelude::*;

verus! {

/// Trusted: the error of std's integer parsing, `core::num::ParseIntError`,
/// as a value that is carried through unread.
#[verifier::external_type_specification]
#[verifier::external_body]
pub struct ExParseIntError(core::num::ParseIntError);

/// Trusted: the error of the service client, `octocrab::Error`, as a
/// value that is carried through unread.
#[verifier::external_type_specification]
#[verifier::external_body]
pub struct ExServiceError(octocrab::Error);

/// Why no activity data could be had.
#[derive(Debug)]
pub enum FetchError {
    /// The year that was asked for is not a number.
    YearParseError(core::num::ParseIntError),
    /// A day of the response carries a text that is no date.
    DateCreationError,
    /// The service refused the request or could not be reached.
    GitHubApiError(octocrab::Error),
    /// The response lacks the total, or a day lacks its count or date.
    UnexpectedResponseFormat,
}

} // verus!

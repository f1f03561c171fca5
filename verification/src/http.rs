//! Settings of the HTTP client.
use vstd::prelude::*;

use crate::error::{concat2, DockerPullError, ErrorView, Result};
use crate::text;

verus! {

/// How long a connection may take to be made, in seconds, where nothing else is asked for.
pub const DEFAULT_CONNECT_TIMEOUT_SECONDS: i64 = 20;

/// The time limit in seconds for making a connection; -1 stands for no limit.
pub fn connect_timeout_from_seconds(seconds: i64) -> (r: Result<Option<u64>>)
    ensures
        match r {
            Ok(None) => seconds == -1,
            Ok(Some(n)) => seconds >= 0 && n == seconds,
            Err(e) => seconds < -1 && e@ == ErrorView::InvalidInput(
                "connect timeout must be -1 or a non-negative number of seconds"@,
            ),
        },
{
    if seconds == -1 {
        Ok(None)
    } else if seconds >= 0 {
        Ok(Some(seconds as u64))
    } else {
        Err(
            DockerPullError::InvalidInput(
                "connect timeout must be -1 or a non-negative number of seconds".to_owned(),
            ),
        )
    }
}

/// The usual time limit in seconds for making a connection.
pub fn default_connect_timeout() -> (r: Option<u64>)
    ensures
        r == Some(20u64),
{
    Some(DEFAULT_CONNECT_TIMEOUT_SECONDS as u64)
}

/// Why a text is no 64-bit signed number.
pub uninterp spec fn number_error(value: Seq<char>) -> Seq<char>;

/// Calls `str::parse::<i64>`: an optional sign and decimal digits, within the range of the type.
/// The message of a failure depends on the text alone.
#[verifier::external_body]
fn parse_i64(value: &str) -> (r: std::result::Result<i64, String>)
    ensures
        match r {
            Ok(n) => text::parse_signed_view(value@, i64::MIN as int, i64::MAX as int) == Some(
                n as int,
            ),
            Err(message) => text::parse_signed_view(value@, i64::MIN as int, i64::MAX as int)
                is None && message@ == number_error(value@),
        },
{
    value.parse::<i64>().map_err(|error| error.to_string())
}

/// Reads the time limit for making a connection.
pub fn parse_connect_timeout_seconds(value: &str) -> (r: std::result::Result<i64, String>)
    ensures
        match text::parse_signed_view(value@, i64::MIN as int, i64::MAX as int) {
            None => r matches Err(m) && m@ == "invalid connect timeout: "@ + number_error(value@),
            Some(n) => if n < -1 {
                r matches Err(m) && m@
                    == "connect timeout must be -1 or a non-negative number of seconds"@
            } else {
                r matches Ok(k) && k == n
            },
        },
{
    match parse_i64(value) {
        Err(message) => Err(concat2("invalid connect timeout: ", message.as_str())),
        Ok(n) => {
            if n < -1 {
                Err("connect timeout must be -1 or a non-negative number of seconds".to_owned())
            } else {
                Ok(n)
            }
        },
    }
}

} // verus!

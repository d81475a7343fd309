//! Answers to the question how many messages a user has sent.

use crate::error::StoreError;
use crate::text::{append_decimal, decimal};
use vstd::prelude::*;
use vstd::string::StringExecFns;

verus! {

/// The user a count is asked about: the first user the question mentions,
/// or the one who asks where it mentions nobody.
pub fn query_target<T>(first_mention: Option<T>, author: T) -> (r: T)
    ensures
        r == match first_mention {
            Some(user) => user,
            None => author,
        },
{
    match first_mention {
        Some(user) => user,
        None => author,
    }
}

/// The count to report for a user from the record found for them: a user
/// without a record has sent no message, which is an answer and no failure.
pub fn recorded_count(record: Option<u64>) -> (r: u64)
    ensures
        r == match record {
            Some(count) => count,
            None => 0,
        },
{
    match record {
        Some(count) => count,
        None => 0,
    }
}

/// The answer to a question about a user's count: the user's name, then
/// ` has sent `, the count in decimal, and ` message(s)`.
pub fn count_reply(name: &str, count: u64) -> (r: String)
    ensures
        r@ == name@ + " has sent "@ + decimal(count as nat) + " message(s)"@,
{
    let mut text = String::from_str(name);
    text.append(" has sent ");
    append_decimal(&mut text, count);
    text.append(" message(s)");
    text
}

/// What a user is told who asked for a count: the count where the store
/// gave one, and otherwise, in so many words, that the count cannot be had.
/// A failure is never passed off as a count.
pub fn query_reply(name: &str, result: Result<u64, StoreError>) -> (r: String)
    ensures
        r@ == match result {
            Ok(count) => name@ + " has sent "@ + decimal(count as nat) + " message(s)"@,
            Err(_) => "The message count of "@ + name@ + " is unavailable"@,
        },
{
    match result {
        Ok(count) => count_reply(name, count),
        Err(_) => {
            let mut text = String::from_str("The message count of ");
            text.append(name);
            text.append(" is unavailable");
            text
        },
    }
}

} // verus!

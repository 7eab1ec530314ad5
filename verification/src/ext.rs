//! Contracts for the outside functions the library calls: these are the
//! crate's trusted statements about std, tokio and uuid.

use vstd::prelude::*;

use tokio::sync::mpsc::UnboundedSender;

verus! {

/// Relies on std's String::push: appends the character to the string.
pub assume_specification[ String::push ](s: &mut String, ch: char)
    ensures
        final(s)@ == old(s)@.push(ch),
;

/// tokio's unbounded channel sender, held opaquely: one of these is the
/// outbound handle of a live connection.
#[verifier::external_type_specification]
#[verifier::external_body]
#[verifier::reject_recursive_types(T)]
pub struct ExUnboundedSender<T>(UnboundedSender<T>);

/// Relies on tokio's UnboundedSender::send: queues the value without
/// waiting; it fails only when the receiving half is gone, and nothing
/// here depends on which of the two happened.
#[verifier::external_body]
pub(crate) fn queue_send<T>(tx: &UnboundedSender<T>, value: T) -> (accepted: bool) {
    tx.send(value).is_ok()
}

/// What the hyphenated text of a 128-bit connection identifier is.
pub uninterp spec fn uuid_text_of(id: u128) -> Seq<char>;

/// What identifier, if any, a piece of text names.
pub uninterp spec fn spec_parse_uuid(s: Seq<char>) -> Option<u128>;

/// Relies on uuid's Display for Uuid (via Uuid::from_u128): the
/// hyphenated lowercase text, 36 characters, a function of the identifier
/// alone; uuid's parser reads the hyphenated form back.
#[verifier::external_body]
pub(crate) fn uuid_text(id: u128) -> (r: String)
    ensures
        r@ == uuid_text_of(id),
        r@.len() == 36,
        spec_parse_uuid(r@) == Some(id),
{
    uuid::Uuid::from_u128(id).to_string()
}

/// Relies on uuid's Uuid::parse_str: reads a textual UUID or fails, as a
/// function of the text alone.
#[verifier::external_body]
pub(crate) fn parse_uuid(s: &str) -> (r: Option<u128>)
    ensures
        r == spec_parse_uuid(s@),
{
    match uuid::Uuid::parse_str(s) {
        Ok(u) => Some(u.as_u128()),
        Err(_) => None,
    }
}

} // verus!

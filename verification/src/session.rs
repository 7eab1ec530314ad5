//! The per-connection decisions a session's loop takes between its
//! suspension points: how an inbound frame becomes a command, and what the
//! synthetic lifecycle events carry. On a server every dispatched
//! parameter map carries the connection identifier under `uuid`; on a
//! client none does.

use vstd::prelude::*;
use vstd::string::StringExecFns;

use crate::ext::{uuid_text, uuid_text_of};
use crate::params::{has_key, lemma_update_binds, spec_lookup, spec_update, Params};
use crate::parser::{spec_command_name, spec_command_params, Parsed};

verus! {

/// The parameters of a synthetic `CONNECTED`/`DISCONNECTED` event: on a
/// server (`Some` identifier) exactly the `uuid` binding, on a client
/// nothing.
pub fn lifecycle_params(session_id: Option<u128>) -> (r: Params)
    ensures
        r.wf(),
        match session_id {
            Some(id) => r@ == seq![("uuid"@, uuid_text_of(id))],
            None => r@ == Seq::<(Seq<char>, Seq<char>)>::empty(),
        },
{
    let mut params = Params::new();
    match session_id {
        Some(id) => {
            let key = String::from_str("uuid");
            params.insert(key, uuid_text(id));
            proof {
                assert(params@ =~= seq![("uuid"@, uuid_text_of(id))]);
            }
        },
        None => {
        },
    }
    params
}

/// Decodes an inbound frame into the command to dispatch: the decoded
/// name, and the decoded parameters with the connection identifier bound
/// under `uuid` when a server session (`Some` identifier) receives it.
pub fn inbound_command(text: String, session_id: Option<u128>) -> (r: (String, Params))
    ensures
        r.0@ == spec_command_name(text@),
        r.1.wf(),
        match session_id {
            Some(id) => r.1@ == spec_update(
                spec_command_params(text@),
                "uuid"@,
                uuid_text_of(id),
            ),
            None => r.1@ == spec_command_params(text@),
        },
{
    let parsed = Parsed::parse(text);
    let mut params = parsed.params;
    match session_id {
        Some(id) => {
            let key = String::from_str("uuid");
            params.insert(key, uuid_text(id));
        },
        None => {
        },
    }
    (parsed.command, params)
}

/// What a server hands a handler always carries the connection
/// identifier: the `uuid` binding is present and holds the session's
/// identifier text, whatever the frame said.
pub proof fn lemma_server_params_carry_uuid(text: Seq<char>, id: u128)
    ensures
        has_key(spec_update(spec_command_params(text), "uuid"@, uuid_text_of(id)), "uuid"@),
        spec_lookup(spec_update(spec_command_params(text), "uuid"@, uuid_text_of(id)), "uuid"@)
            == Some(uuid_text_of(id)),
{
    lemma_update_binds(spec_command_params(text), "uuid"@, uuid_text_of(id));
}

} // verus!

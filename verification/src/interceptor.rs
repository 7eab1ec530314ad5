//! Raw-text interceptors: one optional stage per direction, run on the
//! frame text before decoding (incoming) or before the transport write
//! (outgoing). A stage passes the text on, rewritten, or cancels the one frame;
//! the stage's own transform runs outside this crate, which only fixes
//! what each answer means.

use vstd::prelude::*;

verus! {

/// An interceptor's answer for one frame.
#[derive(PartialEq)]
pub enum InterceptorResult {
    Pass(String),
    Cancel,
}

/// The direction a stage applies to.
#[derive(PartialEq, Eq, Structural, Clone, Copy)]
pub enum InterceptorType {
    INCOMING,
    OUTGOING,
}

/// An interceptor stage: the direction it guards.
pub struct Interceptor {
    pub kind: InterceptorType,
}

impl Interceptor {
    /// A stage for the given direction.
    pub fn new(kind: InterceptorType) -> (r: Interceptor)
        ensures
            r.kind == kind,
    {
        Interceptor { kind }
    }
}

/// A server-side interceptor stage; its transform also sees the
/// connection identifier.
pub struct ServerInterceptor {
    pub kind: InterceptorType,
}

impl ServerInterceptor {
    /// A stage for the given direction.
    pub fn new(kind: InterceptorType) -> (r: ServerInterceptor)
        ensures
            r.kind == kind,
    {
        ServerInterceptor { kind }
    }
}

/// What one frame becomes after a stage answers: the rewritten text,
/// or nothing — a cancelled frame is dropped without closing the
/// connection.
pub fn intercept_outcome(result: InterceptorResult) -> (r: Option<String>)
    ensures
        match result {
            InterceptorResult::Pass(t) => r == Some(t),
            InterceptorResult::Cancel => r is None,
        },
{
    match result {
        InterceptorResult::Pass(t) => Some(t),
        InterceptorResult::Cancel => None,
    }
}

} // verus!

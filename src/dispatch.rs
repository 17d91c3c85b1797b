//! The synchronous and external-delegation calling conventions.
//!
//! A call runs in two steps around the module's entry point: `prepare_call`
//! finds the module and encodes the request; the host invokes `execute` (or
//! `execute_external`) with it and hands the module's reply to
//! `settle_reply`, which decides the caller's result and which buffer goes
//! back to the module's `release`.
use vstd::prelude::*;
use vstd::string::StringSliceAdditionalSpecFns;
use crate::registry::{key_of, ModuleRegistry};
use crate::text::{decode_lossy, lossy_of};
use crate::wire::{encode_wire, wire_of};

verus! {

/// Why a call produced no result.
#[derive(Debug, Clone, Copy, PartialEq, Eq, Structural)]
pub enum BridgeError {
    /// No module is registered under the requested name.
    ModuleNotFound,
    /// The payload holds a terminator, which the wire form cannot carry.
    EncodingError,
    /// The module answered with the null sentinel.
    NativeExecutionFailed,
}

/// What the host hands to a module's entry point: the module and the
/// encoded request.
pub struct Invocation<H> {
    pub handle: H,
    pub request: Vec<u8>,
}

/// What a module's `execute` or `execute_external` answered.
pub enum NativeReply<B> {
    /// The null sentinel: the module signalled failure.
    Null,
    /// A buffer the module allocated: the means to release it, and the text
    /// it holds up to its terminator.
    Buffer { token: B, content: Vec<u8> },
}

/// The outcome of a reply: the caller's result, and the buffer, if any,
/// that must go back to the module's own `release`, once.
pub struct Settlement<B> {
    pub result: Result<String, BridgeError>,
    pub release: Option<B>,
}

/// Looks up the module named `name` and encodes `payload` for it.
///
/// Fails with `ModuleNotFound` when no module is registered under the name,
/// else with `EncodingError` when the payload holds a terminator; no module
/// code runs in either case.
pub fn prepare_call<H: Copy>(registry: &ModuleRegistry<H>, name: &str, payload: &str) -> (r: Result<
    Invocation<H>,
    BridgeError,
>)
    requires
        registry.wf(),
    ensures
        !registry@.contains_key(key_of(name@)) ==> r == Err::<Invocation<H>, BridgeError>(
            BridgeError::ModuleNotFound,
        ),
        registry@.contains_key(key_of(name@)) && payload@.contains('\0') ==> r
            == Err::<Invocation<H>, BridgeError>(BridgeError::EncodingError),
        registry@.contains_key(key_of(name@)) && !payload@.contains('\0') ==> {
            &&& r is Ok
            &&& r->Ok_0.handle == registry@[key_of(name@)]
            &&& r->Ok_0.request@ == wire_of(payload.spec_bytes())
        },
{
    match registry.lookup(name) {
        None => Err(BridgeError::ModuleNotFound),
        Some(handle) => match encode_wire(payload) {
            None => Err(BridgeError::EncodingError),
            Some(request) => Ok(Invocation { handle, request }),
        },
    }
}

/// Settles a module's reply: the null sentinel fails the call and releases
/// nothing; a buffer gives its text to the caller and goes back, once, to be
/// released.
pub fn settle_reply<B>(reply: NativeReply<B>) -> (r: Settlement<B>)
    ensures
        match reply {
            NativeReply::Null => {
                &&& r.result == Err::<String, BridgeError>(BridgeError::NativeExecutionFailed)
                &&& r.release is None
            },
            NativeReply::Buffer { token, content } => {
                &&& r.result is Ok
                &&& r.result->Ok_0@ == lossy_of(content@)
                &&& r.release == Some(token)
            },
        },
{
    match reply {
        NativeReply::Null => Settlement { result: Err(BridgeError::NativeExecutionFailed), release: None },
        NativeReply::Buffer { token, content } => {
            let text = decode_lossy(content.as_slice());
            Settlement { result: Ok(text), release: Some(token) }
        },
    }
}

} // verus!

//! The streaming calling convention and its callback route.
//!
//! A module's progress callback is a plain function with no per-call
//! context, so every message reaches one process-wide route. The route knows
//! whether the caller's event sink is attached, and whose `release` frees
//! the message buffers: that of the module whose streaming call started
//! last. Only one streaming call should be in flight at a time; a later one
//! takes the release slot over.
use vstd::prelude::*;
use vstd::string::StringSliceAdditionalSpecFns;
use crate::dispatch::{prepare_call, BridgeError, Invocation};
use crate::registry::{key_of, ModuleRegistry};
use crate::text::{decode_lossy, lossy_of};
use crate::wire::wire_of;

verus! {

/// The name of the event under which progress messages reach the caller.
pub const PROGRESS_EVENT: &'static str = "stream-progress";

/// The process-wide route of progress messages.
pub struct StreamRoute<H> {
    /// The caller's event sink is attached.
    pub sink_ready: bool,
    /// The module whose `release` frees progress buffers.
    pub releaser: Option<H>,
}

/// What the host does with one progress message: emit it as an event with
/// this text, if any, and then release its buffer through this module, if
/// any.
pub struct ProgressAction<H> {
    pub emit: Option<String>,
    pub release_with: Option<H>,
}

/// What `start_streaming` decided.
pub enum StreamStart<H> {
    /// No module is registered under the name: nothing happens.
    Skipped,
    /// The payload cannot be put on the wire: nothing happens.
    Rejected,
    /// Run the module's `execute_streaming` on a worker of its own.
    Launch(Invocation<H>),
}

/// The route once a streaming call on module `h` has started.
pub open spec fn route_after_start<H>(route: StreamRoute<H>, h: H) -> StreamRoute<H> {
    StreamRoute { sink_ready: route.sink_ready, releaser: Some(h) }
}

/// The text emitted for a message on a route, if any.
pub open spec fn emitted<H>(route: StreamRoute<H>, message: Seq<u8>) -> Option<Seq<char>> {
    if route.sink_ready {
        Some(lossy_of(message))
    } else {
        None
    }
}

impl<H: Copy> StreamRoute<H> {
    /// A route with no sink and no release function.
    pub fn new() -> (r: Self)
        ensures
            !r.sink_ready,
            r.releaser is None,
    {
        StreamRoute { sink_ready: false, releaser: None }
    }

    /// Marks the caller's event sink as attached.
    pub fn attach_sink(&mut self)
        ensures
            final(self).sink_ready,
            final(self).releaser == old(self).releaser,
    {
        self.sink_ready = true;
    }

    /// Routes one progress message: its text is emitted if the sink is
    /// attached, and its buffer is released through the current release
    /// module, if there is one. The route itself is left as it is.
    pub fn on_progress(&self, message: &[u8]) -> (r: ProgressAction<H>)
        ensures
            match r.emit {
                Some(t) => emitted(*self, message@) == Some(t@),
                None => emitted(*self, message@) is None,
            },
            r.release_with == self.releaser,
    {
        let emit = if self.sink_ready {
            Some(decode_lossy(message))
        } else {
            None
        };
        ProgressAction { emit, release_with: self.releaser }
    }
}

/// Starts a streaming call: looks up the module named `name`, encodes
/// `payload`, and makes the module's `release` the route's. A missing module
/// or an unencodable payload leaves everything as it was.
pub fn start_streaming<H: Copy>(
    route: &mut StreamRoute<H>,
    registry: &ModuleRegistry<H>,
    name: &str,
    payload: &str,
) -> (r: StreamStart<H>)
    requires
        registry.wf(),
    ensures
        !registry@.contains_key(key_of(name@)) ==> r is Skipped && *final(route) == *old(route),
        registry@.contains_key(key_of(name@)) && payload@.contains('\0') ==> r is Rejected
            && *final(route) == *old(route),
        registry@.contains_key(key_of(name@)) && !payload@.contains('\0') ==> {
            &&& r is Launch
            &&& r->Launch_0.handle == registry@[key_of(name@)]
            &&& r->Launch_0.request@ == wire_of(payload.spec_bytes())
            &&& *final(route) == route_after_start(*old(route), registry@[key_of(name@)])
        },
{
    match prepare_call(registry, name, payload) {
        Err(BridgeError::ModuleNotFound) => StreamStart::Skipped,
        Err(_) => StreamStart::Rejected,
        Ok(inv) => {
            route.releaser = Some(inv.handle);
            StreamStart::Launch(inv)
        },
    }
}

/// Progress messages of a streaming call reach the caller in the order the
/// module sends them, each as the event text decoded from its buffer and
/// each followed by a release through the module that started the call,
/// whatever the route held before the call started.
pub proof fn lemma_progress_relayed_in_order<H>(
    route: StreamRoute<H>,
    h: H,
    messages: Seq<Seq<u8>>,
)
    requires
        route.sink_ready,
    ensures
        ({
            let started = route_after_start(route, h);
            &&& messages.map_values(|m: Seq<u8>| emitted(started, m)) == messages.map_values(
                |m: Seq<u8>| Some(lossy_of(m)),
            )
            &&& started.releaser == Some(h)
        }),
{
    let started = route_after_start(route, h);
    assert(messages.map_values(|m: Seq<u8>| emitted(started, m)) =~= messages.map_values(
        |m: Seq<u8>| Some(lossy_of(m)),
    ));
}

} // verus!

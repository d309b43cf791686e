//! The exporter: publishes service objects at bus addresses and dispatches
//! incoming calls through their method registries.
//!
//! Dispatch looks the method name up in the registry; unknown names yield
//! [`BusError::MethodNotFound`] without touching the handler.  Arguments are
//! decoded by the marshaller before the handler runs and the reply is encoded
//! after it, so the handler never sees wire bytes.  A handler error becomes
//! an error reply for request/reply methods and is dropped for one-way
//! methods; one-way methods never report a reply to the caller.

use vstd::prelude::*;

use crate::descriptor::{Direction, InterfaceDescriptor, MethodModel};
use crate::error::BusError;
use crate::registry::{resolve, MethodRegistry};
use crate::value::{conforms, views_of, ValModel, Value};
use crate::wire::{decode_args, decoded_args, enc, encode};

verus! {

/// An error signalled by the underlying service implementation.
#[derive(Clone, Copy, Debug, PartialEq, Eq, Structural)]
pub struct HandlerError {}

/// A service implementation that an exported object dispatches into.  The
/// implementer chooses `handles`, the relation saying how one invocation may
/// transform the handler's state and what it may return; `handle` is then
/// bound to it.
pub trait ServiceHandler: Sized {
    /// The handler relation: given the state before the call, the exact
    /// method name and the decoded arguments, which states after the call
    /// and which outcomes the handler allows.
    spec fn handles(
        pre: Self,
        method: Seq<char>,
        args: Seq<ValModel>,
        post: Self,
        outcome: Result<Option<ValModel>, ()>,
    ) -> bool;

    /// Handles one decoded call and returns its reply value, no reply, or an
    /// error.
    fn handle(&mut self, method: &String, args: Vec<Value>) -> (r: Result<
        Option<Value>,
        HandlerError,
    >)
        ensures
            Self::handles(*old(self), method@, views_of(args@), *final(self), outcome_of(r)),
    ;
}

/// The model of a handler's return value.
pub open spec fn outcome_of(r: Result<Option<Value>, HandlerError>) -> Result<
    Option<ValModel>,
    (),
> {
    match r {
        Ok(Some(v)) => Ok(Some(v@)),
        Ok(None) => Ok(None),
        Err(_) => Err(()),
    }
}

/// How the reply sent back to the caller relates to the method's direction,
/// its reply shape and the handler's outcome: a handler error is an error
/// reply for a request/reply method and is dropped for a one-way method; a
/// one-way method never reports a value back; a request/reply method returns
/// the encoded reply, an empty payload when it declares no reply shape, and
/// `HandlerFailure` when the handler's value does not conform to the
/// declared reply shape.
pub open spec fn reply_matches(
    m: MethodModel,
    outcome: Result<Option<ValModel>, ()>,
    r: Result<Option<Vec<u8>>, BusError>,
) -> bool {
    match outcome {
        Err(_) => if m.direction is Call {
            r == Err::<Option<Vec<u8>>, BusError>(BusError::HandlerFailure)
        } else {
            r == Ok::<Option<Vec<u8>>, BusError>(None)
        },
        Ok(reply) => if m.direction is Notify {
            r == Ok::<Option<Vec<u8>>, BusError>(None)
        } else {
            match m.reply_shape {
                None => r matches Ok(Some(b)) && b@ == Seq::<u8>::empty(),
                Some(shape) => match reply {
                    Some(v) => if conforms(v, shape) {
                        r matches Ok(Some(b)) && b@ == enc(v)
                    } else {
                        r == Err::<Option<Vec<u8>>, BusError>(BusError::HandlerFailure)
                    },
                    None => r == Err::<Option<Vec<u8>>, BusError>(BusError::HandlerFailure),
                },
            }
        },
    }
}

/// A service implementation published under a bus address and an interface
/// name, with the method registry its calls are routed through.
pub struct ExportedObject<H> {
    pub bus_address: String,
    pub interface_name: String,
    pub registry: MethodRegistry,
    pub handler: H,
}

/// The handler ran once, on exactly the given method name and arguments,
/// and the reply follows [`reply_matches`].
pub open spec fn handler_ran<H: ServiceHandler>(
    pre: ExportedObject<H>,
    post: ExportedObject<H>,
    m: MethodModel,
    method: Seq<char>,
    args: Seq<ValModel>,
    r: Result<Option<Vec<u8>>, BusError>,
) -> bool {
    &&& post.bus_address == pre.bus_address
    &&& post.interface_name == pre.interface_name
    &&& post.registry == pre.registry
    &&& exists|outcome: Result<Option<ValModel>, ()>|
        {
            &&& #[trigger] H::handles(pre.handler, method, args, post.handler, outcome)
            &&& reply_matches(m, outcome, r)
        }
}

/// What one dispatch of a resolved method does: arguments that do not match
/// the declared shapes leave the handler untouched and report
/// `ShapeMismatch`; otherwise the handler runs once on the exact decoded
/// arguments.
pub open spec fn dispatch_found<H: ServiceHandler>(
    pre: ExportedObject<H>,
    post: ExportedObject<H>,
    m: MethodModel,
    method: Seq<char>,
    payload: Seq<u8>,
    r: Result<Option<Vec<u8>>, BusError>,
) -> bool {
    match decoded_args(payload, m.argument_shapes) {
        None => post == pre && r == Err::<Option<Vec<u8>>, BusError>(BusError::ShapeMismatch),
        Some(args) => handler_ran(pre, post, m, method, args, r),
    }
}

/// What one dispatch does: an unknown name leaves the object untouched and
/// reports `MethodNotFound`; a known name is dispatched per
/// [`dispatch_found`].
pub open spec fn dispatch_post<H: ServiceHandler>(
    pre: ExportedObject<H>,
    post: ExportedObject<H>,
    method: Seq<char>,
    payload: Seq<u8>,
    r: Result<Option<Vec<u8>>, BusError>,
) -> bool {
    match resolve(pre.registry@, method) {
        None => post == pre && r == Err::<Option<Vec<u8>>, BusError>(BusError::MethodNotFound),
        Some(m) => dispatch_found(pre, post, m, method, payload, r),
    }
}

impl<H: ServiceHandler> ExportedObject<H> {
    /// Binds a handler to a bus address and an interface: the object's
    /// registry holds the interface's methods in declaration order.
    pub fn bind(bus_address: String, iface: &InterfaceDescriptor, handler: H) -> (r:
        ExportedObject<H>)
        ensures
            r.bus_address@ == bus_address@,
            r.interface_name@ == iface@.interface_name,
            r.registry@ == iface@.methods,
            r.handler == handler,
    {
        let interface_name = iface.interface_name.clone();
        let registry = MethodRegistry::from_interface(iface);
        ExportedObject { bus_address, interface_name, registry, handler }
    }

    /// Dispatches one incoming call: looks the name up, decodes the
    /// arguments, runs the handler, and encodes the reply.
    #[verifier::rlimit(100)]
    #[verifier::spinoff_prover]
    pub fn dispatch(&mut self, method: &String, payload: &Vec<u8>) -> (r: Result<
        Option<Vec<u8>>,
        BusError,
    >)
        ensures
            dispatch_post(*old(self), *final(self), method@, payload@, r),
    {
        match self.registry.lookup(method) {
            None => Err(BusError::MethodNotFound),
            Some(d) => {
                match decode_args(payload, &d.argument_shapes) {
                    Err(_) => Err(BusError::ShapeMismatch),
                    Ok(args) => {
                        let ghost args_m = views_of(args@);
                        let outcome = self.handler.handle(method, args);
                        let ghost oc = outcome_of(outcome);
                        let reply: Result<Option<Vec<u8>>, BusError> = match outcome {
                            Err(_) => match d.direction {
                                Direction::Call => Err(BusError::HandlerFailure),
                                Direction::Notify => Ok(None),
                            },
                            Ok(maybe_v) => match d.direction {
                                Direction::Notify => Ok(None),
                                Direction::Call => match &d.reply_shape {
                                    None => Ok(Some(Vec::new())),
                                    Some(shape) => match maybe_v {
                                        Some(v) => {
                                            if crate::value::value_conforms(&v, shape) {
                                                Ok(Some(encode(&v, shape)))
                                            } else {
                                                Err(BusError::HandlerFailure)
                                            }
                                        },
                                        None => Err(BusError::HandlerFailure),
                                    },
                                },
                            },
                        };
                        proof {
                            assert(H::handles(
                                old(self).handler,
                                method@,
                                args_m,
                                self.handler,
                                oc,
                            ));
                            assert(reply_matches(d@, oc, reply));
                            assert(resolve(old(self).registry@, method@) == Some(d@));
                            assert(decoded_args(payload@, d@.argument_shapes) == Some(args_m));
                            assert(handler_ran(*old(self), *self, d@, method@, args_m, reply));
                            assert(dispatch_found(*old(self), *self, d@, method@, payload@, reply));
                            assert(dispatch_post(*old(self), *self, method@, payload@, reply));
                        }
                        reply
                    },
                }
            },
        }
    }
}

/// The index the exporter routes a call to: the first published slot whose
/// object is bound to exactly the given bus address and interface name.
pub open spec fn route_index<H: ServiceHandler>(
    slots: Seq<Option<ExportedObject<H>>>,
    path: Seq<char>,
    interface: Seq<char>,
) -> Option<int>
    decreases slots.len(),
{
    if slots.len() == 0 {
        None
    } else if slots[0] matches Some(obj) && obj.bus_address@ == path && obj.interface_name@
        == interface {
        Some(0)
    } else {
        match route_index(slots.drop_first(), path, interface) {
            Some(k) => Some(k + 1),
            None => None,
        }
    }
}

/// Publishes service objects under handles and routes incoming calls to them
/// by bus address and interface name.
pub struct Exporter<H> {
    slots: Vec<Option<ExportedObject<H>>>,
}

impl<H: ServiceHandler> View for Exporter<H> {
    type V = Seq<Option<ExportedObject<H>>>;

    closed spec fn view(&self) -> Seq<Option<ExportedObject<H>>> {
        self.slots@
    }
}

impl<H: ServiceHandler> Exporter<H> {
    /// An exporter with nothing published.
    pub fn new() -> (r: Exporter<H>)
        ensures
            r@ == Seq::<Option<ExportedObject<H>>>::empty(),
    {
        Exporter { slots: Vec::new() }
    }

    /// Publishes an object and returns its handle.  The binding stays until
    /// the handle is unpublished.
    pub fn publish(&mut self, obj: ExportedObject<H>) -> (h: usize)
        ensures
            h == old(self)@.len(),
            final(self)@ == old(self)@.push(Some(obj)),
    {
        let h = self.slots.len();
        self.slots.push(Some(obj));
        h
    }

    /// Unpublishes the object behind a handle.  Returns whether the handle
    /// was bound; other publications are untouched either way.
    pub fn unpublish(&mut self, h: usize) -> (r: bool)
        ensures
            r == (h < old(self)@.len() && old(self)@[h as int] is Some),
            r ==> final(self)@ == old(self)@.update(h as int, None),
            !r ==> final(self)@ == old(self)@,
    {
        if h >= self.slots.len() {
            return false;
        }
        let was = self.slots.remove(h);
        let bound = was.is_some();
        if bound {
            self.slots.insert(h, None);
            assert(final(self)@ =~= old(self)@.update(h as int, None));
        } else {
            self.slots.insert(h, None);
            assert(final(self)@ =~= old(self)@);
        }
        bound
    }

    /// Routes one incoming call to the first object published at the given
    /// bus address under the given interface name, and dispatches it there.
    /// A call addressed to nothing yields `MethodNotFound` and changes no
    /// state.
    #[verifier::loop_isolation(false)]
    pub fn handle_call(
        &mut self,
        path: &String,
        interface: &String,
        method: &String,
        payload: &Vec<u8>,
    ) -> (r: Result<Option<Vec<u8>>, BusError>)
        ensures
            match route_index(old(self)@, path@, interface@) {
                None => final(self)@ == old(self)@ && r == Err::<Option<Vec<u8>>, BusError>(
                    BusError::MethodNotFound,
                ),
                Some(i) => {
                    &&& final(self)@.len() == old(self)@.len()
                    &&& forall|j: int|
                        0 <= j < old(self)@.len() && j != i ==> final(self)@[j] == old(self)@[j]
                    &&& final(self)@[i] is Some
                    &&& old(self)@[i] is Some
                    &&& dispatch_post(
                        old(self)@[i]->Some_0,
                        final(self)@[i]->Some_0,
                        method@,
                        payload@,
                        r,
                    )
                },
            },
    {
        let n = self.slots.len();
        let mut i: usize = 0;
        assert(self@.skip(0) =~= self@);
        while i < n
            invariant
                i <= n,
                self@ == old(self)@,
                n == self@.len(),
                route_index(self@, path@, interface@) == match route_index(
                    self@.skip(i as int),
                    path@,
                    interface@,
                ) {
                    Some(k) => Some(k + i),
                    None => None::<int>,
                },
            decreases n - i,
        {
            proof {
                assert(self@.skip(i as int)[0] == self@[i as int]);
                assert(self@.skip(i as int).drop_first() =~= self@.skip(i as int + 1));
            }
            let hit = match &self.slots[i] {
                Some(obj) => {
                    if obj.bus_address == *path {
                        obj.interface_name == *interface
                    } else {
                        false
                    }
                },
                None => false,
            };
            if hit {
                proof {
                    let sfx = self@.skip(i as int);
                    assert(sfx[0] matches Some(obj) && obj.bus_address@ == path@
                        && obj.interface_name@ == interface@);
                    assert(route_index(sfx, path@, interface@) == Some(0int));
                    assert(route_index(old(self)@, path@, interface@) == Some(i as int));
                }
                let ghost pre = self@;
                let slot = self.slots.remove(i);
                let mut obj = match slot {
                    Some(o) => o,
                    None => {
                        proof {
                            assert(false);
                        }
                        return Err(BusError::MethodNotFound);
                    },
                };
                let r = obj.dispatch(method, payload);
                self.slots.insert(i, Some(obj));
                proof {
                    assert(pre == old(self)@);
                    assert(self@ =~= pre.update(i as int, self@[i as int]));
                }
                return r;
            }
            proof {
                let sfx = self@.skip(i as int);
                assert(!(sfx[0] matches Some(obj) && obj.bus_address@ == path@
                    && obj.interface_name@ == interface@));
                match route_index(self@.skip(i as int + 1), path@, interface@) {
                    Some(k) => {
                        assert(route_index(sfx, path@, interface@) == Some(k + 1));
                    },
                    None => {
                        assert(route_index(sfx, path@, interface@) is None);
                    },
                }
            }
            i += 1;
        }
        proof {
            assert(self@.skip(n as int) =~= Seq::<Option<ExportedObject<H>>>::empty());
        }
        Err(BusError::MethodNotFound)
    }
}

/// A service implementation that counts its invocations and remembers the
/// last method name it was called with, replying with no value.
pub struct CountingHandler {
    pub calls: u64,
    pub last_method: Option<String>,
}

impl ServiceHandler for CountingHandler {
    open spec fn handles(
        pre: Self,
        method: Seq<char>,
        args: Seq<ValModel>,
        post: Self,
        outcome: Result<Option<ValModel>, ()>,
    ) -> bool {
        &&& post.calls == (if pre.calls < u64::MAX {
            (pre.calls + 1) as u64
        } else {
            u64::MAX
        })
        &&& (post.last_method matches Some(n) && n@ == method)
        &&& outcome == Ok::<Option<ValModel>, ()>(None)
    }

    fn handle(&mut self, method: &String, args: Vec<Value>) -> (r: Result<
        Option<Value>,
        HandlerError,
    >) {
        if self.calls < u64::MAX {
            self.calls = self.calls + 1;
        }
        self.last_method = Some(method.clone());
        Ok(None)
    }
}

/// A service implementation that refuses every call, signalling a handler
/// error without changing state.
pub struct RejectingHandler {}

impl ServiceHandler for RejectingHandler {
    open spec fn handles(
        pre: Self,
        method: Seq<char>,
        args: Seq<ValModel>,
        post: Self,
        outcome: Result<Option<ValModel>, ()>,
    ) -> bool {
        outcome == Err::<Option<ValModel>, ()>(())
    }

    fn handle(&mut self, method: &String, args: Vec<Value>) -> (r: Result<
        Option<Value>,
        HandlerError,
    >) {
        Err(HandlerError {})
    }
}

/// A service implementation that replies with its first argument, unchanged,
/// and keeps no state.
pub struct EchoHandler {}

impl ServiceHandler for EchoHandler {
    open spec fn handles(
        pre: Self,
        method: Seq<char>,
        args: Seq<ValModel>,
        post: Self,
        outcome: Result<Option<ValModel>, ()>,
    ) -> bool {
        outcome == Ok::<Option<ValModel>, ()>(
            if args.len() > 0 {
                Some(args[0])
            } else {
                None
            },
        )
    }

    fn handle(&mut self, method: &String, args: Vec<Value>) -> (r: Result<
        Option<Value>,
        HandlerError,
    >) {
        broadcast use crate::value::lemma_views_of_len, crate::value::lemma_views_of_index;

        let mut args = args;
        if args.len() > 0 {
            let first = args.remove(0);
            Ok(Some(first))
        } else {
            Ok(None)
        }
    }
}

/// Dispatch correctness: with entries registered for two distinct names, a
/// dispatch of the first name is governed by the first name's entry alone —
/// the handler runs on that entry's decoded arguments, never the other's.
pub proof fn lemma_dispatch_selects_named_entry<H: ServiceHandler>(
    pre: ExportedObject<H>,
    post: ExportedObject<H>,
    a: MethodModel,
    b: MethodModel,
    payload: Seq<u8>,
    r: Result<Option<Vec<u8>>, BusError>,
)
    requires
        a.name != b.name,
        pre.registry@ == seq![a, b],
        dispatch_post(pre, post, a.name, payload, r),
    ensures
        resolve(pre.registry@, a.name) == Some(a),
        dispatch_found(pre, post, a, a.name, payload, r),
{
    let ms = pre.registry@;
    assert(ms.last() == b);
    assert(ms.drop_last() =~= seq![a]);
    assert(resolve(seq![a], a.name) == Some(a));
}

/// Unknown method: dispatching a name that no registry entry carries yields
/// `MethodNotFound` and invokes no handler — the object is unchanged.
pub proof fn lemma_unknown_method_runs_nothing<H: ServiceHandler>(
    pre: ExportedObject<H>,
    post: ExportedObject<H>,
    method: Seq<char>,
    payload: Seq<u8>,
    r: Result<Option<Vec<u8>>, BusError>,
)
    requires
        forall|i: int| 0 <= i < pre.registry@.len() ==> (#[trigger] pre.registry@[i]).name != method,
        dispatch_post(pre, post, method, payload, r),
    ensures
        r == Err::<Option<Vec<u8>>, BusError>(BusError::MethodNotFound),
        post == pre,
{
    crate::registry::lemma_resolve_absent(pre.registry@, method);
}

} // verus!

//! Callback proxies: local stand-ins for remote callback interfaces.
//!
//! A proxy is generated from a target bus address and the callback
//! interface's descriptor alone.  Invoking a method on it encodes the
//! arguments and yields a one-way outbound notification for the transport to
//! deliver; nothing is awaited and no reply is ever carried.  A retired
//! proxy (its peer disconnected) refuses every call with
//! [`BusError::ProxyRetired`].

use vstd::prelude::*;

use crate::descriptor::{InterfaceDescriptor, MethodModel};
use crate::error::BusError;
use crate::registry::{resolve, MethodRegistry};
use crate::value::{conforms, shape_views, views_of, ValModel, Value};
use crate::wire::{enc_seq, encode_args};

verus! {

/// Mathematical model of a [`CallbackProxy`].
#[verifier::ext_equal]
pub struct ProxyModel {
    pub target: Seq<char>,
    pub interface: Seq<char>,
    pub methods: Seq<MethodModel>,
    pub owner: u64,
    pub retired: bool,
}

/// A one-way notification bound for a remote subscriber: where it goes and
/// the encoded arguments it carries.
pub struct OutboundNotification {
    pub target: String,
    pub interface: String,
    pub method: String,
    pub payload: Vec<u8>,
}

/// Mathematical model of an [`OutboundNotification`].
#[verifier::ext_equal]
pub struct NotifModel {
    pub target: Seq<char>,
    pub interface: Seq<char>,
    pub method: Seq<char>,
    pub payload: Seq<u8>,
}

impl View for OutboundNotification {
    type V = NotifModel;

    open spec fn view(&self) -> NotifModel {
        NotifModel {
            target: self.target@,
            interface: self.interface@,
            method: self.method@,
            payload: self.payload@,
        }
    }
}

/// What invoking a proxy method returns: `ProxyRetired` once the peer
/// disconnected, `MethodNotFound` for a name outside the callback interface,
/// `ShapeMismatch` for arguments that do not match the declared shapes, and
/// otherwise exactly one notification to the proxy's target carrying the
/// encoded arguments.
pub open spec fn invoke_model(p: ProxyModel, method: Seq<char>, args: Seq<ValModel>) -> Result<
    NotifModel,
    BusError,
> {
    if p.retired {
        Err(BusError::ProxyRetired)
    } else {
        match resolve(p.methods, method) {
            None => Err(BusError::MethodNotFound),
            Some(m) => if args.len() == m.argument_shapes.len() && (forall|i: int|
                0 <= i < args.len() ==> conforms(#[trigger] args[i], m.argument_shapes[i])) {
                Ok(
                    NotifModel {
                        target: p.target,
                        interface: p.interface,
                        method: method,
                        payload: enc_seq(args),
                    },
                )
            } else {
                Err(BusError::ShapeMismatch)
            },
        }
    }
}

/// Whether an invocation's result is the modelled one.
pub open spec fn invoke_matches(
    r: Result<OutboundNotification, BusError>,
    m: Result<NotifModel, BusError>,
) -> bool {
    match r {
        Ok(n) => m matches Ok(nm) && n@ == nm,
        Err(e) => m matches Err(em) && e == em,
    }
}

/// A local stand-in for a remote callback interface at a peer's bus address.
pub struct CallbackProxy {
    target: String,
    interface_name: String,
    registry: MethodRegistry,
    owner: u64,
    retired: bool,
}

impl View for CallbackProxy {
    type V = ProxyModel;

    closed spec fn view(&self) -> ProxyModel {
        ProxyModel {
            target: self.target@,
            interface: self.interface_name@,
            methods: self.registry@,
            owner: self.owner,
            retired: self.retired,
        }
    }
}

/// The minimal capability every remote endpoint offers: it reports the bus
/// address it targets and the connection that owns it, so that disconnect
/// cleanup can treat heterogeneous proxies uniformly.
pub trait BusEndpoint {
    /// The bus address the endpoint targets.
    spec fn endpoint_target(&self) -> Seq<char>;

    /// The connection the endpoint belongs to.
    spec fn endpoint_owner(&self) -> u64;

    /// Reports the bus address the endpoint targets.
    fn target_address(&self) -> (r: &String)
        ensures
            r@ == self.endpoint_target(),
    ;

    /// Reports the connection the endpoint belongs to.
    fn owner_connection(&self) -> (r: u64)
        ensures
            r == self.endpoint_owner(),
    ;
}

impl BusEndpoint for CallbackProxy {
    open spec fn endpoint_target(&self) -> Seq<char> {
        self@.target
    }

    open spec fn endpoint_owner(&self) -> u64 {
        self@.owner
    }

    fn target_address(&self) -> (r: &String) {
        &self.target
    }

    fn owner_connection(&self) -> (r: u64) {
        self.owner
    }
}

impl CallbackProxy {
    /// Generates the proxy for a callback interface from its descriptor
    /// alone: a fresh, not yet retired stand-in bound to the target address
    /// under the owning connection.
    pub fn generate(target: String, iface: &InterfaceDescriptor, owner: u64) -> (r: CallbackProxy)
        ensures
            r@.target == target@,
            r@.interface == iface@.interface_name,
            r@.methods == iface@.methods,
            r@.owner == owner,
            !r@.retired,
    {
        let interface_name = iface.interface_name.clone();
        let registry = MethodRegistry::from_interface(iface);
        CallbackProxy { target, interface_name, registry, owner, retired: false }
    }

    /// Marks the proxy unusable: every later call fails with `ProxyRetired`.
    pub fn retire(&mut self)
        ensures
            final(self)@ == (ProxyModel { retired: true, ..old(self)@ }),
    {
        self.retired = true;
    }

    /// Whether the proxy has been retired.
    pub fn is_retired(&self) -> (r: bool)
        ensures
            r == self@.retired,
    {
        self.retired
    }

    /// Invokes one callback method: encodes the arguments and returns the
    /// one-way notification to send, immediately and without any
    /// acknowledgment.  Fails per [`invoke_model`].
    #[verifier::loop_isolation(false)]
    pub fn invoke(&self, method: &String, args: &Vec<Value>) -> (r: Result<
        OutboundNotification,
        BusError,
    >)
        ensures
            invoke_matches(r, invoke_model(self@, method@, views_of(args@))),
    {
        broadcast use crate::value::lemma_views_of_len, crate::value::lemma_views_of_index;

        if self.retired {
            return Err(BusError::ProxyRetired);
        }
        let d = match self.registry.lookup(method) {
            None => {
                return Err(BusError::MethodNotFound);
            },
            Some(d) => d,
        };
        if args.len() != d.argument_shapes.len() {
            return Err(BusError::ShapeMismatch);
        }
        let ghost am = views_of(args@);
        let ghost sm = shape_views(d.argument_shapes@);
        let mut i: usize = 0;
        while i < args.len()
            invariant
                i <= args@.len(),
                forall|j: int| 0 <= j < i ==> conforms(#[trigger] am[j], sm[j]),
            decreases args@.len() - i,
        {
            if !crate::value::value_conforms(&args[i], &d.argument_shapes[i]) {
                assert(!conforms(am[i as int], sm[i as int]));
                return Err(BusError::ShapeMismatch);
            }
            i += 1;
        }
        let payload = encode_args(args);
        Ok(
            OutboundNotification {
                target: self.target.clone(),
                interface: self.interface_name.clone(),
                method: method.clone(),
                payload,
            },
        )
    }
}

} // verus!

//! Interface and method descriptors: the data-driven description of what an
//! exported object or a callback interface offers.

use vstd::prelude::*;

use crate::value::{shape_views, ShapeModel, ValueShape};

verus! {

/// Whether a method is request/reply or one-way.
#[derive(Clone, Copy, Debug, PartialEq, Eq, Structural)]
pub enum Direction {
    /// Request/reply: the caller waits for a typed reply or error.
    Call,
    /// Fire-and-forget: no reply is ever sent.
    Notify,
}

/// Describes one method of an interface: its exact name, the shapes of its
/// arguments in order, the shape of its reply if any, and its direction.
pub struct MethodDescriptor {
    pub name: String,
    pub argument_shapes: Vec<ValueShape>,
    pub reply_shape: Option<ValueShape>,
    pub direction: Direction,
}

/// Mathematical model of a [`MethodDescriptor`].
#[verifier::ext_equal]
pub struct MethodModel {
    pub name: Seq<char>,
    pub argument_shapes: Seq<ShapeModel>,
    pub reply_shape: Option<ShapeModel>,
    pub direction: Direction,
}

impl View for MethodDescriptor {
    type V = MethodModel;

    open spec fn view(&self) -> MethodModel {
        MethodModel {
            name: self.name@,
            argument_shapes: shape_views(self.argument_shapes@),
            reply_shape: match self.reply_shape {
                Some(s) => Some(s@),
                None => None,
            },
            direction: self.direction,
        }
    }
}

/// The views of a sequence of method descriptors.
pub open spec fn method_views(ds: Seq<MethodDescriptor>) -> Seq<MethodModel> {
    Seq::new(ds.len(), |i: int| ds[i]@)
}

/// Describes one interface: its reverse-domain-style name and its methods in
/// declaration order.
pub struct InterfaceDescriptor {
    pub interface_name: String,
    pub methods: Vec<MethodDescriptor>,
}

/// Mathematical model of an [`InterfaceDescriptor`].
#[verifier::ext_equal]
pub struct InterfaceModel {
    pub interface_name: Seq<char>,
    pub methods: Seq<MethodModel>,
}

impl View for InterfaceDescriptor {
    type V = InterfaceModel;

    open spec fn view(&self) -> InterfaceModel {
        InterfaceModel { interface_name: self.interface_name@, methods: method_views(self.methods@) }
    }
}

/// The invariant of an interface: method names are unique within it.
pub open spec fn unique_method_names(ms: Seq<MethodModel>) -> bool {
    forall|i: int, j: int| 0 <= i < j < ms.len() ==> (#[trigger] ms[i]).name != (#[trigger] ms[j]).name
}

} // verus!

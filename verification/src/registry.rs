//! The method registry: maps method names to their typed entries for one
//! interface.
//!
//! Lookup is by exact, case-sensitive name match.  Registering an entry under
//! a name that is already taken replaces the prior entry: the registry keeps
//! its entries in registration order and resolves a name to the entry
//! registered for it most recently (last write wins).

use vstd::prelude::*;

use crate::descriptor::{method_views, InterfaceDescriptor, MethodDescriptor, MethodModel};
use crate::value::{shape_views, shape_field_views, shape_depth, lemma_shape_depth_fields_index,
    lemma_shape_field_views_index, lemma_shape_field_views_len, ShapeModel, ValueShape};

verus! {

/// The entry a sequence of registrations resolves a name to: the most
/// recently registered entry with exactly that name.
pub open spec fn resolve(ms: Seq<MethodModel>, name: Seq<char>) -> Option<MethodModel>
    decreases ms.len(),
{
    if ms.len() == 0 {
        None
    } else if ms.last().name == name {
        Some(ms.last())
    } else {
        resolve(ms.drop_last(), name)
    }
}

/// No entry, no resolution: a name that no registration carries resolves to
/// nothing.
pub proof fn lemma_resolve_absent(ms: Seq<MethodModel>, name: Seq<char>)
    requires
        forall|i: int| 0 <= i < ms.len() ==> (#[trigger] ms[i]).name != name,
    ensures
        resolve(ms, name) is None,
    decreases ms.len(),
{
    if ms.len() != 0 {
        assert(forall|i: int|
            0 <= i < ms.drop_last().len() ==> (#[trigger] ms.drop_last()[i]).name != name);
        lemma_resolve_absent(ms.drop_last(), name);
    }
}

/// Registering one more entry changes resolution only for that entry's name:
/// a duplicate name replaces the prior entry, last write wins.
pub broadcast proof fn lemma_resolve_push(ms: Seq<MethodModel>, m: MethodModel, name: Seq<char>)
    ensures
        #[trigger] resolve(ms.push(m), name) == if m.name == name {
            Some(m)
        } else {
            resolve(ms, name)
        },
{
    assert(ms.push(m).drop_last() =~= ms);
    assert(ms.push(m).last() == m);
}

/// A registry of method entries for one interface, resolved by exact name.
pub struct MethodRegistry {
    entries: Vec<MethodDescriptor>,
}

impl View for MethodRegistry {
    type V = Seq<MethodModel>;

    closed spec fn view(&self) -> Seq<MethodModel> {
        method_views(self.entries@)
    }
}

impl MethodRegistry {
    /// An empty registry: no name resolves.
    pub fn new() -> (r: MethodRegistry)
        ensures
            r@ == Seq::<MethodModel>::empty(),
    {
        let r = MethodRegistry { entries: Vec::new() };
        assert(r@ =~= Seq::<MethodModel>::empty());
        r
    }

    /// Registers an entry under its name.  A later registration under the
    /// same name wins over this one.
    pub fn register(&mut self, d: MethodDescriptor)
        ensures
            final(self)@ == old(self)@.push(d@),
    {
        let ghost before = self@;
        self.entries.push(d);
        assert(self@ =~= before.push(d@));
    }

    /// How many entries have been registered.
    pub fn len(&self) -> (n: usize)
        ensures
            n == self@.len(),
    {
        self.entries.len()
    }

    /// Finds the entry a name resolves to: the most recent registration
    /// under exactly that name, or `None` when no entry matches.
    #[verifier::loop_isolation(false)]
    pub fn lookup(&self, name: &String) -> (r: Option<&MethodDescriptor>)
        ensures
            match r {
                Some(d) => resolve(self@, name@) == Some(d@),
                None => resolve(self@, name@) is None,
            },
    {
        let mut i: usize = self.entries.len();
        assert(self@.take(self@.len() as int) =~= self@);
        while i > 0
            invariant
                i <= self.entries@.len(),
                resolve(self@, name@) == resolve(self@.take(i as int), name@),
            decreases i,
        {
            i = i - 1;
            proof {
                assert(self@.take(i as int + 1).last() == self@[i as int]);
                assert(self@.take(i as int + 1).drop_last() =~= self@.take(i as int));
            }
            if self.entries[i].name == *name {
                return Some(&self.entries[i]);
            }
        }
        assert(self@.take(0) =~= Seq::<MethodModel>::empty());
        None
    }

    /// Builds the registry of an interface by registering its methods in
    /// declaration order.
    #[verifier::loop_isolation(false)]
    pub fn from_interface(iface: &InterfaceDescriptor) -> (r: MethodRegistry)
        ensures
            r@ == iface@.methods,
    {
        let mut r = MethodRegistry::new();
        let mut i: usize = 0;
        while i < iface.methods.len()
            invariant
                i <= iface.methods@.len(),
                r@ == iface@.methods.take(i as int),
            decreases iface.methods.len() - i,
        {
            let ghost before = r@;
            let d = clone_descriptor(&iface.methods[i]);
            r.register(d);
            assert(r@ =~= iface@.methods.take(i as int + 1));
            i += 1;
        }
        assert(iface@.methods.take(iface@.methods.len() as int) =~= iface@.methods);
        r
    }
}

/// Copies a method descriptor, field by field.
#[verifier::loop_isolation(false)]
fn clone_descriptor(d: &MethodDescriptor) -> (r: MethodDescriptor)
    ensures
        r@ == d@,
{
    let name = d.name.clone();
    let mut argument_shapes: Vec<ValueShape> = Vec::new();
    let mut i: usize = 0;
    assert(shape_views(argument_shapes@) =~= shape_views(
        d.argument_shapes@,
    ).take(0));
    while i < d.argument_shapes.len()
        invariant
            i <= d.argument_shapes@.len(),
            shape_views(argument_shapes@) == shape_views(
                d.argument_shapes@,
            ).take(i as int),
        decreases d.argument_shapes@.len() - i,
    {
        argument_shapes.push(clone_shape(&d.argument_shapes[i]));
        assert(shape_views(argument_shapes@) =~= shape_views(
            d.argument_shapes@,
        ).take(i as int + 1));
        i += 1;
    }
    assert(shape_views(d.argument_shapes@).take(d.argument_shapes@.len() as int)
        =~= shape_views(d.argument_shapes@));
    let reply_shape = match &d.reply_shape {
        Some(s) => Some(clone_shape(s)),
        None => None,
    };
    MethodDescriptor { name, argument_shapes, reply_shape, direction: d.direction }
}

/// Copies a shape, structurally.
#[verifier::loop_isolation(false)]
pub fn clone_shape(s: &ValueShape) -> (r: ValueShape)
    ensures
        r@ == s@,
    decreases shape_depth(s@),
{
    broadcast use lemma_shape_field_views_len,
        lemma_shape_field_views_index;

    match s {
        ValueShape::Bool => ValueShape::Bool,
        ValueShape::Int => ValueShape::Int,
        ValueShape::Str => ValueShape::Str,
        ValueShape::Bytes => ValueShape::Bytes,
        ValueShape::List(e) => {
            proof {
                assert(s@ == ShapeModel::List(Box::new((**e)@)));
            }
            ValueShape::List(Box::new(clone_shape(e)))
        },
        ValueShape::Optional(e) => {
            proof {
                assert(s@ == ShapeModel::Optional(Box::new((**e)@)));
            }
            ValueShape::Optional(Box::new(clone_shape(e)))
        },
        ValueShape::Record(fs) => {
            proof {
                assert(s@ == ShapeModel::Record(shape_field_views(
                    fs@,
                )));
            }
            let ghost sm = shape_field_views(fs@);
            let mut out: Vec<(String, ValueShape)> = Vec::new();
            let mut i: usize = 0;
            proof {
                assert(shape_field_views(out@) =~= sm.take(0));
            }
            while i < fs.len()
                invariant
                    i <= fs@.len(),
                    shape_field_views(out@) == sm.take(i as int),
                decreases fs@.len() - i,
            {
                proof {
                    lemma_shape_depth_fields_index(sm, i as int);
                }
                let name = fs[i].0.clone();
                let sub = clone_shape(&fs[i].1);
                out.push((name, sub));
                proof {
                    assert(out@.drop_last() =~= out@.subrange(0, out@.len() - 1));
                    assert(shape_field_views(out@) =~= sm.take(i as int + 1));
                }
                i += 1;
            }
            assert(sm.take(sm.len() as int) =~= sm);
            ValueShape::Record(out)
        },
    }
}

} // verus!

//! Marshal-able values and the shapes that describe them.
//!
//! A [`ValueShape`] is a recursive description of a wire-representable value:
//! a primitive (boolean, integer, string, byte sequence), an ordered sequence
//! of one element shape, an optional value, or a named record of fields.  A
//! [`Value`] is a concrete value; [`conforms`] says when a value structurally
//! matches a shape.

use vstd::prelude::*;

verus! {

broadcast use vstd::std_specs::vec::axiom_vec_index_decreases, vstd::std_specs::vec::axiom_vec_decreases_to_view, vstd::seq::axiom_seq_index_decreases;

/// Structural description of a marshal-able value.
pub enum ValueShape {
    /// A boolean.
    Bool,
    /// An unsigned 64-bit integer.
    Int,
    /// A unicode string.
    Str,
    /// A raw byte sequence.
    Bytes,
    /// An ordered sequence of values, all of the element shape.
    List(Box<ValueShape>),
    /// A value that may be absent.
    Optional(Box<ValueShape>),
    /// A named record: ordered fields, each a name and a shape.
    Record(Vec<(String, ValueShape)>),
}

/// Mathematical model of a [`ValueShape`].
#[verifier::ext_equal]
pub enum ShapeModel {
    Bool,
    Int,
    Str,
    Bytes,
    List(Box<ShapeModel>),
    Optional(Box<ShapeModel>),
    Record(Seq<(Seq<char>, ShapeModel)>),
}

impl View for ValueShape {
    type V = ShapeModel;

    open spec fn view(&self) -> ShapeModel
        decreases self,
    {
        match self {
            ValueShape::Bool => ShapeModel::Bool,
            ValueShape::Int => ShapeModel::Int,
            ValueShape::Str => ShapeModel::Str,
            ValueShape::Bytes => ShapeModel::Bytes,
            ValueShape::List(e) => ShapeModel::List(Box::new((**e)@)),
            ValueShape::Optional(e) => ShapeModel::Optional(Box::new((**e)@)),
            ValueShape::Record(fs) => ShapeModel::Record(shape_field_views(fs@)),
        }
    }
}

/// A marshal-able value.
#[derive(PartialEq, Eq)]
pub enum Value {
    /// A boolean.
    Bool(bool),
    /// An unsigned 64-bit integer.
    Int(u64),
    /// A unicode string.
    Str(String),
    /// A raw byte sequence.
    Bytes(Vec<u8>),
    /// An ordered sequence of values.
    List(Vec<Value>),
    /// An absent optional value.
    Absent,
    /// A present optional value.
    Present(Box<Value>),
    /// A named record: ordered fields, each a name and a value.
    Record(Vec<(String, Value)>),
}

/// Mathematical model of a [`Value`].
#[verifier::ext_equal]
pub enum ValModel {
    Bool(bool),
    Int(u64),
    Str(Seq<char>),
    Bytes(Seq<u8>),
    List(Seq<ValModel>),
    Absent,
    Present(Box<ValModel>),
    Record(Seq<(Seq<char>, ValModel)>),
}

impl View for Value {
    type V = ValModel;

    open spec fn view(&self) -> ValModel
        decreases self,
    {
        match self {
            Value::Bool(b) => ValModel::Bool(*b),
            Value::Int(n) => ValModel::Int(*n),
            Value::Str(s) => ValModel::Str(s@),
            Value::Bytes(bs) => ValModel::Bytes(bs@),
            Value::List(vs) => ValModel::List(views_of(vs@)),
            Value::Absent => ValModel::Absent,
            Value::Present(v) => ValModel::Present(Box::new((**v)@)),
            Value::Record(fs) => ValModel::Record(field_views(fs@)),
        }
    }
}

/// The views of a sequence of record field shapes.
pub open spec fn shape_field_views(fs: Seq<(String, ValueShape)>) -> Seq<(Seq<char>, ShapeModel)>
    decreases fs, 1nat,
{
    if fs.len() == 0 {
        Seq::empty()
    } else {
        shape_field_views(fs.drop_last()).push((fs.last().0@, fs.last().1@))
    }
}

/// The views of a sequence of values.
pub open spec fn views_of(vs: Seq<Value>) -> Seq<ValModel>
    decreases vs, 1nat,
{
    if vs.len() == 0 {
        Seq::empty()
    } else {
        views_of(vs.drop_last()).push(vs.last()@)
    }
}

/// The views of a sequence of record fields.
pub open spec fn field_views(fs: Seq<(String, Value)>) -> Seq<(Seq<char>, ValModel)>
    decreases fs, 1nat,
{
    if fs.len() == 0 {
        Seq::empty()
    } else {
        field_views(fs.drop_last()).push((fs.last().0@, fs.last().1@))
    }
}

/// The views of a sequence of shapes.
pub open spec fn shape_views(ss: Seq<ValueShape>) -> Seq<ShapeModel> {
    Seq::new(ss.len(), |i: int| ss[i]@)
}

pub broadcast proof fn lemma_views_of_len(vs: Seq<Value>)
    ensures
        (#[trigger] views_of(vs)).len() == vs.len(),
    decreases vs.len(),
{
    if vs.len() != 0 {
        lemma_views_of_len(vs.drop_last());
        assert(views_of(vs) == views_of(vs.drop_last()).push(vs.last()@));
    } else {
        assert(views_of(vs).len() == 0);
    }
}

pub broadcast proof fn lemma_views_of_index(vs: Seq<Value>, i: int)
    requires
        0 <= i < vs.len(),
    ensures
        #[trigger] (views_of(vs)[i]) == vs[i]@,
    decreases vs.len(),
{
    lemma_views_of_len(vs.drop_last());
    assert(views_of(vs) == views_of(vs.drop_last()).push(vs.last()@));
    if i < vs.len() - 1 {
        lemma_views_of_index(vs.drop_last(), i);
    }
}

pub broadcast proof fn lemma_field_views_len(fs: Seq<(String, Value)>)
    ensures
        (#[trigger] field_views(fs)).len() == fs.len(),
    decreases fs.len(),
{
    if fs.len() != 0 {
        lemma_field_views_len(fs.drop_last());
        assert(field_views(fs) == field_views(fs.drop_last()).push((fs.last().0@, fs.last().1@)));
    } else {
        assert(field_views(fs).len() == 0);
    }
}

pub broadcast proof fn lemma_field_views_index(fs: Seq<(String, Value)>, i: int)
    requires
        0 <= i < fs.len(),
    ensures
        #[trigger] (field_views(fs)[i]) == (fs[i].0@, fs[i].1@),
    decreases fs.len(),
{
    lemma_field_views_len(fs.drop_last());
    assert(field_views(fs) == field_views(fs.drop_last()).push((fs.last().0@, fs.last().1@)));
    if i < fs.len() - 1 {
        lemma_field_views_index(fs.drop_last(), i);
    }
}

pub broadcast proof fn lemma_shape_field_views_len(fs: Seq<(String, ValueShape)>)
    ensures
        (#[trigger] shape_field_views(fs)).len() == fs.len(),
    decreases fs.len(),
{
    if fs.len() != 0 {
        lemma_shape_field_views_len(fs.drop_last());
        assert(shape_field_views(fs) == shape_field_views(fs.drop_last()).push(
            (fs.last().0@, fs.last().1@),
        ));
    } else {
        assert(shape_field_views(fs).len() == 0);
    }
}

pub broadcast proof fn lemma_shape_field_views_index(fs: Seq<(String, ValueShape)>, i: int)
    requires
        0 <= i < fs.len(),
    ensures
        #[trigger] (shape_field_views(fs)[i]) == (fs[i].0@, fs[i].1@),
    decreases fs.len(),
{
    lemma_shape_field_views_len(fs.drop_last());
    assert(shape_field_views(fs) == shape_field_views(fs.drop_last()).push(
        (fs.last().0@, fs.last().1@),
    ));
    if i < fs.len() - 1 {
        lemma_shape_field_views_index(fs.drop_last(), i);
    }
}

pub broadcast proof fn lemma_views_of_push(vs: Seq<Value>, v: Value)
    ensures
        #[trigger] views_of(vs.push(v)) == views_of(vs).push(v@),
{
    assert(vs.push(v).drop_last() =~= vs);
    assert(views_of(vs.push(v)) == views_of(vs).push(vs.push(v).last()@));
}

pub broadcast proof fn lemma_field_views_push(fs: Seq<(String, Value)>, f: (String, Value))
    ensures
        #[trigger] field_views(fs.push(f)) == field_views(fs).push((f.0@, f.1@)),
{
    assert(fs.push(f).drop_last() =~= fs);
    assert(field_views(fs.push(f)) == field_views(fs).push(
        (fs.push(f).last().0@, fs.push(f).last().1@),
    ));
}

/// The nesting depth of a value: zero for primitives, one more than the
/// deepest child for lists, optionals and records.  Recursions over values
/// use it as their termination measure.
pub open spec fn depth_of(m: ValModel) -> nat
    decreases m, 1nat,
{
    match m {
        ValModel::List(ms) => 1 + depth_of_seq(ms),
        ValModel::Present(m0) => 1 + depth_of(*m0),
        ValModel::Record(fs) => 1 + depth_of_fields(fs),
        _ => 0,
    }
}

/// The deepest nesting depth among a sequence of values.
pub open spec fn depth_of_seq(ms: Seq<ValModel>) -> nat
    decreases ms, 2nat,
{
    if ms.len() == 0 {
        0
    } else if depth_of(ms.last()) > depth_of_seq(ms.drop_last()) {
        depth_of(ms.last())
    } else {
        depth_of_seq(ms.drop_last())
    }
}

/// The deepest nesting depth among a record's field values.
pub open spec fn depth_of_fields(fs: Seq<(Seq<char>, ValModel)>) -> nat
    decreases fs, 2nat,
{
    if fs.len() == 0 {
        0
    } else if depth_of(fs.last().1) > depth_of_fields(fs.drop_last()) {
        depth_of(fs.last().1)
    } else {
        depth_of_fields(fs.drop_last())
    }
}

pub proof fn lemma_depth_of_seq_index(ms: Seq<ValModel>, i: int)
    requires
        0 <= i < ms.len(),
    ensures
        depth_of(ms[i]) <= depth_of_seq(ms),
    decreases ms.len(),
{
    if i < ms.len() - 1 {
        lemma_depth_of_seq_index(ms.drop_last(), i);
    }
}

pub proof fn lemma_depth_of_fields_index(fs: Seq<(Seq<char>, ValModel)>, i: int)
    requires
        0 <= i < fs.len(),
    ensures
        depth_of(fs[i].1) <= depth_of_fields(fs),
    decreases fs.len(),
{
    if i < fs.len() - 1 {
        lemma_depth_of_fields_index(fs.drop_last(), i);
    }
}

/// The nesting depth of a shape, used as a termination measure by
/// shape-directed recursions.
pub open spec fn shape_depth(s: ShapeModel) -> nat
    decreases s, 1nat,
{
    match s {
        ShapeModel::List(e) => 1 + shape_depth(*e),
        ShapeModel::Optional(e) => 1 + shape_depth(*e),
        ShapeModel::Record(fs) => 1 + shape_depth_fields(fs),
        _ => 0,
    }
}

/// The deepest nesting depth among a record shape's field shapes.
pub open spec fn shape_depth_fields(fs: Seq<(Seq<char>, ShapeModel)>) -> nat
    decreases fs, 2nat,
{
    if fs.len() == 0 {
        0
    } else if shape_depth(fs.last().1) > shape_depth_fields(fs.drop_last()) {
        shape_depth(fs.last().1)
    } else {
        shape_depth_fields(fs.drop_last())
    }
}

pub proof fn lemma_shape_depth_fields_index(fs: Seq<(Seq<char>, ShapeModel)>, i: int)
    requires
        0 <= i < fs.len(),
    ensures
        shape_depth(fs[i].1) <= shape_depth_fields(fs),
    decreases fs.len(),
{
    if i < fs.len() - 1 {
        lemma_shape_depth_fields_index(fs.drop_last(), i);
    }
}

/// Whether a value structurally matches a shape: primitives match their own
/// kind, every list element matches the element shape, a present optional
/// matches the inner shape, and a record has exactly the declared fields, in
/// order, each matching its declared shape.
pub open spec fn conforms(m: ValModel, s: ShapeModel) -> bool
    decreases m,
{
    match (m, s) {
        (ValModel::Bool(_), ShapeModel::Bool) => true,
        (ValModel::Int(_), ShapeModel::Int) => true,
        (ValModel::Str(_), ShapeModel::Str) => true,
        (ValModel::Bytes(_), ShapeModel::Bytes) => true,
        (ValModel::List(ms), ShapeModel::List(e)) => forall|i: int|
            0 <= i < ms.len() ==> conforms(#[trigger] ms[i], *e),
        (ValModel::Absent, ShapeModel::Optional(_)) => true,
        (ValModel::Present(m0), ShapeModel::Optional(e)) => conforms(*m0, *e),
        (ValModel::Record(mfs), ShapeModel::Record(sfs)) => {
            &&& mfs.len() == sfs.len()
            &&& forall|i: int|
                0 <= i < mfs.len() ==> (#[trigger] mfs[i]).0 == sfs[i].0
            &&& forall|i: int|
                0 <= i < mfs.len() ==> conforms((#[trigger] mfs[i]).1, sfs[i].1)
        },
        _ => false,
    }
}

/// Decides [`conforms`] for a concrete value and shape.
#[verifier::loop_isolation(false)]
pub fn value_conforms(v: &Value, s: &ValueShape) -> (r: bool)
    ensures
        r == conforms(v@, s@),
    decreases depth_of(v@),
{
    broadcast use lemma_views_of_len, lemma_views_of_index, lemma_field_views_len,
        lemma_field_views_index, lemma_shape_field_views_len, lemma_shape_field_views_index;

    match v {
        Value::Bool(_) => matches!(s, ValueShape::Bool),
        Value::Int(_) => matches!(s, ValueShape::Int),
        Value::Str(_) => matches!(s, ValueShape::Str),
        Value::Bytes(_) => matches!(s, ValueShape::Bytes),
        Value::List(vs) => match s {
            ValueShape::List(e) => {
                proof {
                    assert(*v == Value::List(*vs));
                    assert(v@ == ValModel::List(views_of(vs@)));
                    assert(*s == ValueShape::List(*e));
                    assert(s@ == ShapeModel::List(Box::new((**e)@)));
                }
                let ghost lm = views_of(vs@);
                let mut i: usize = 0;
                while i < vs.len()
                    invariant
                        i <= vs.len(),
                        lm == views_of(vs@),
                        lm.len() == vs@.len(),
                        forall|j: int| 0 <= j < i ==> conforms(#[trigger] lm[j], e@),
                    decreases vs.len() - i,
                {
                    let vi = &vs[i];
                    proof {
                        lemma_views_of_index(vs@, i as int);
                        lemma_depth_of_seq_index(views_of(vs@), i as int);
                    }
                    if !value_conforms(vi, e) {
                        assert(!conforms(lm[i as int], e@));
                        return false;
                    }
                    i += 1;
                }
                true
            },
            _ => false,
        },
        Value::Absent => matches!(s, ValueShape::Optional(_)),
        Value::Present(v0) => match s {
            ValueShape::Optional(e) => value_conforms(v0, e),
            _ => false,
        },
        Value::Record(fs) => match s {
            ValueShape::Record(sfs) => {
                proof {
                    assert(*v == Value::Record(*fs));
                    assert(v@ == ValModel::Record(field_views(fs@)));
                    assert(*s == ValueShape::Record(*sfs));
                    assert(s@ == ShapeModel::Record(shape_field_views(sfs@)));
                }
                let ghost mfs = field_views(fs@);
                let ghost sm = shape_field_views(sfs@);
                if fs.len() != sfs.len() {
                    return false;
                }
                let mut i: usize = 0;
                while i < fs.len()
                    invariant
                        i <= fs.len(),
                        mfs == field_views(fs@),
                        sm == shape_field_views(sfs@),
                        mfs.len() == fs@.len(),
                        sm.len() == sfs@.len(),
                        fs@.len() == sfs@.len(),
                        forall|j: int| 0 <= j < i ==> (#[trigger] mfs[j]).0 == sm[j].0,
                        forall|j: int| 0 <= j < i ==> conforms((#[trigger] mfs[j]).1, sm[j].1),
                    decreases fs.len() - i,
                {
                    proof {
                        lemma_field_views_index(fs@, i as int);
                        lemma_shape_field_views_index(sfs@, i as int);
                        lemma_depth_of_fields_index(field_views(fs@), i as int);
                    }
                    if !(fs[i].0 == sfs[i].0) {
                        assert(mfs[i as int].0 != sm[i as int].0);
                        return false;
                    }
                    if !value_conforms(&fs[i].1, &sfs[i].1) {
                        assert(!conforms(mfs[i as int].1, sm[i as int].1));
                        return false;
                    }
                    i += 1;
                }
                true
            },
            _ => false,
        },
    }
}

} // verus!

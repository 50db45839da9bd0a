//! The neutral, tagged, serialisable value type exchanged with callers, and
//! the positional-argument bundle wrapped around it.
//!
//! `Double` carries the IEEE-754 bit pattern of the floating-point payload as
//! a plain 64-bit integer, so equality on values is bit-for-bit exact.

use vstd::prelude::*;

verus! {

/// Mathematical model of a [`SerializableIValue`]: the same tree shape over
/// `Seq` and mathematical scalars.
pub enum IValueView {
    Null,
    Bool(bool),
    Int(i64),
    Double(u64),
    Str(Seq<char>),
    Tuple(Seq<IValueView>),
    List(Seq<IValueView>),
    Optional(Option<Box<IValueView>>),
    TensorNPYBase64(Seq<char>),
}

/// The neutral value exchanged with callers: a null marker, booleans, integers,
/// doubles (as IEEE-754 bit patterns), strings, tuples, generic lists, an
/// optional wrapper, and a base64-encoded NPY tensor payload.
#[derive(Debug)]
pub enum SerializableIValue {
    Null,
    Bool(bool),
    Int(i64),
    Double(u64),
    Str(String),
    Tuple(Vec<SerializableIValue>),
    List(Vec<SerializableIValue>),
    Optional(Option<Box<SerializableIValue>>),
    TensorNPYBase64(String),
}

/// Model of a sequence of values: each element replaced by its view.
pub open spec fn deep_view_seq(s: Seq<SerializableIValue>) -> Seq<IValueView>
    decreases s,
{
    if s.len() == 0 {
        Seq::empty()
    } else {
        deep_view_seq(s.drop_last()).push(s.last().deep_view())
    }
}

impl DeepView for SerializableIValue {
    type V = IValueView;

    open spec fn deep_view(&self) -> IValueView
        decreases self,
    {
        match self {
            SerializableIValue::Null => IValueView::Null,
            SerializableIValue::Bool(b) => IValueView::Bool(*b),
            SerializableIValue::Int(i) => IValueView::Int(*i),
            SerializableIValue::Double(d) => IValueView::Double(*d),
            SerializableIValue::Str(s) => IValueView::Str(s@),
            SerializableIValue::Tuple(v) => IValueView::Tuple(deep_view_seq(v@)),
            SerializableIValue::List(v) => IValueView::List(deep_view_seq(v@)),
            SerializableIValue::Optional(o) => IValueView::Optional(
                match o {
                    Option::None => Option::None,
                    Option::Some(b) => Option::Some(Box::new((**b).deep_view())),
                },
            ),
            SerializableIValue::TensorNPYBase64(s) => IValueView::TensorNPYBase64(s@),
        }
    }
}

/// The view of a sequence of values is pointwise: as long as the sequence,
/// with the view of the element at every position.
pub broadcast proof fn lemma_deep_view_seq(s: Seq<SerializableIValue>)
    ensures
        (#[trigger] deep_view_seq(s)).len() == s.len(),
        forall|i: int| 0 <= i < s.len() ==> deep_view_seq(s)[i] == s[i].deep_view(),
    decreases s,
{
    if s.len() == 0 {
        assert(deep_view_seq(s) == Seq::<IValueView>::empty());
    } else {
        lemma_deep_view_seq(s.drop_last());
        assert(deep_view_seq(s) == deep_view_seq(s.drop_last()).push(s.last().deep_view()));
    }
}

/// Pushing one value extends the sequence view by the value's view.
pub(crate) proof fn lemma_deep_view_seq_push(
    after: Seq<SerializableIValue>,
    pre: Seq<IValueView>,
    vv: IValueView,
)
    requires
        after.len() > 0,
        deep_view_seq(after.drop_last()) == pre,
        after.last().deep_view() == vv,
    ensures
        deep_view_seq(after) == pre.push(vv),
{
}

/// The ordered positional-argument bundle handed to a model.
#[derive(Debug)]
pub struct TorchScriptInput {
    pub positional_arguments: Vec<SerializableIValue>,
}

impl TorchScriptInput {
    /// Model of an input: the sequence of views of its positional arguments.
    pub open spec fn view_seq(&self) -> Seq<IValueView> {
        deep_view_seq(self.positional_arguments@)
    }
}

impl DeepView for TorchScriptInput {
    type V = Seq<IValueView>;

    open spec fn deep_view(&self) -> Seq<IValueView> {
        self.view_seq()
    }
}

/// Structural equality on values, specified by equality of the views.
pub fn value_eq(a: &SerializableIValue, b: &SerializableIValue) -> (r: bool)
    ensures
        r == (a.deep_view() == b.deep_view()),
    decreases a,
{
    match (a, b) {
        (SerializableIValue::Null, SerializableIValue::Null) => true,
        (SerializableIValue::Bool(x), SerializableIValue::Bool(y)) => x == y,
        (SerializableIValue::Int(x), SerializableIValue::Int(y)) => x == y,
        (SerializableIValue::Double(x), SerializableIValue::Double(y)) => x == y,
        (SerializableIValue::Str(x), SerializableIValue::Str(y)) => *x == *y,
        (SerializableIValue::Tuple(x), SerializableIValue::Tuple(y)) => value_vec_eq(x, y),
        (SerializableIValue::List(x), SerializableIValue::List(y)) => value_vec_eq(x, y),
        (SerializableIValue::Optional(x), SerializableIValue::Optional(y)) => {
            match (x, y) {
                (Option::None, Option::None) => true,
                (Option::Some(bx), Option::Some(by)) => value_eq(bx, by),
                _ => false,
            }
        },
        (SerializableIValue::TensorNPYBase64(x), SerializableIValue::TensorNPYBase64(y)) => {
            *x == *y
        },
        _ => false,
    }
}

/// Pointwise structural equality on value vectors.
pub fn value_vec_eq(a: &Vec<SerializableIValue>, b: &Vec<SerializableIValue>) -> (r: bool)
    ensures
        r == (deep_view_seq(a@) == deep_view_seq(b@)),
    decreases a,
{
    proof {
        lemma_deep_view_seq(a@);
        lemma_deep_view_seq(b@);
    }
    if a.len() != b.len() {
        return false;
    }
    let n = a.len();
    let mut i: usize = 0;
    while i < n
        invariant
            n == a.len() == b.len(),
            i <= n,
            forall|j: int| 0 <= j < i ==> deep_view_seq(a@)[j] == deep_view_seq(b@)[j],
        decreases n - i,
    {
        proof {
            lemma_deep_view_seq(a@);
            lemma_deep_view_seq(b@);
        }
        if !value_eq(&a[i], &b[i]) {
            assert(deep_view_seq(a@)[i as int] != deep_view_seq(b@)[i as int]);
            return false;
        }
        i += 1;
    }
    proof {
        assert(deep_view_seq(a@) =~= deep_view_seq(b@));
    }
    true
}

impl PartialEq for SerializableIValue {
    fn eq(&self, other: &SerializableIValue) -> (r: bool) {
        value_eq(self, other)
    }
}

impl vstd::std_specs::cmp::PartialEqSpecImpl for SerializableIValue {
    open spec fn obeys_eq_spec() -> bool {
        true
    }

    open spec fn eq_spec(&self, other: &SerializableIValue) -> bool {
        self.deep_view() == other.deep_view()
    }
}

impl PartialEq for TorchScriptInput {
    fn eq(&self, other: &TorchScriptInput) -> (r: bool) {
        value_vec_eq(&self.positional_arguments, &other.positional_arguments)
    }
}

impl vstd::std_specs::cmp::PartialEqSpecImpl for TorchScriptInput {
    open spec fn obeys_eq_spec() -> bool {
        true
    }

    open spec fn eq_spec(&self, other: &TorchScriptInput) -> bool {
        self.deep_view() == other.deep_view()
    }
}

} // verus!

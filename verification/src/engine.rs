//! The engine's value universe and the graph wrapper.
//!
//! [`EngineValue`] models the value representation of the native inference
//! runtime; [`to_engine`] and [`from_engine`] convert between it and
//! [`SerializableIValue`]. A [`TorchScriptGraph`] pairs a loaded module with
//! the conversions: `forward` converts the arguments, runs the engine, and
//! converts the answer back.

use vstd::prelude::*;

use crate::tensor::{spec_read_npy, NpyTensor, NpyTensorView};
use crate::value::{deep_view_seq, IValueView, SerializableIValue};

verus! {

/// Mathematical model of an [`EngineValue`].
pub enum EngineValueView {
    Null,
    Bool(bool),
    Int(i64),
    Double(u64),
    Str(Seq<char>),
    Tuple(Seq<EngineValueView>),
    GenericList(Seq<EngineValueView>),
    DoubleList(Seq<u64>),
    IntList(Seq<i64>),
    BoolList(Seq<bool>),
    Tensor(NpyTensorView),
    Unsupported,
}

/// The engine's tagged value universe, as far as the codec reads it: the
/// doubles carry IEEE-754 bit patterns, a tensor carries its decoded NPY
/// form, and `Unsupported` stands for every engine variant the codec does
/// not read (dictionaries and the like).
#[derive(Debug)]
pub enum EngineValue {
    Null,
    Bool(bool),
    Int(i64),
    Double(u64),
    Str(String),
    Tuple(Vec<EngineValue>),
    GenericList(Vec<EngineValue>),
    DoubleList(Vec<u64>),
    IntList(Vec<i64>),
    BoolList(Vec<bool>),
    Tensor(NpyTensor),
    Unsupported,
}

/// Model of a sequence of engine values.
pub open spec fn engine_view_seq(s: Seq<EngineValue>) -> Seq<EngineValueView>
    decreases s,
{
    if s.len() == 0 {
        Seq::empty()
    } else {
        engine_view_seq(s.drop_last()).push(s.last().deep_view())
    }
}

impl DeepView for EngineValue {
    type V = EngineValueView;

    open spec fn deep_view(&self) -> EngineValueView
        decreases self,
    {
        match self {
            EngineValue::Null => EngineValueView::Null,
            EngineValue::Bool(b) => EngineValueView::Bool(*b),
            EngineValue::Int(i) => EngineValueView::Int(*i),
            EngineValue::Double(d) => EngineValueView::Double(*d),
            EngineValue::Str(s) => EngineValueView::Str(s@),
            EngineValue::Tuple(v) => EngineValueView::Tuple(engine_view_seq(v@)),
            EngineValue::GenericList(v) => EngineValueView::GenericList(engine_view_seq(v@)),
            EngineValue::DoubleList(v) => EngineValueView::DoubleList(v@),
            EngineValue::IntList(v) => EngineValueView::IntList(v@),
            EngineValue::BoolList(v) => EngineValueView::BoolList(v@),
            EngineValue::Tensor(t) => EngineValueView::Tensor(t.view_spec()),
            EngineValue::Unsupported => EngineValueView::Unsupported,
        }
    }
}

/// The view of a sequence of engine values is pointwise.
pub broadcast proof fn lemma_engine_view_seq(s: Seq<EngineValue>)
    ensures
        (#[trigger] engine_view_seq(s)).len() == s.len(),
        forall|i: int| 0 <= i < s.len() ==> engine_view_seq(s)[i] == s[i].deep_view(),
    decreases s,
{
    if s.len() == 0 {
        assert(engine_view_seq(s) == Seq::<EngineValueView>::empty());
    } else {
        lemma_engine_view_seq(s.drop_last());
        assert(engine_view_seq(s) == engine_view_seq(s.drop_last()).push(s.last().deep_view()));
    }
}

/// The failure of the native inference runtime, carried as a message.
#[derive(Debug)]
pub struct InternalTorchError {
    pub internal_error: String,
}

impl InternalTorchError {
    /// The message this error carries.
    pub fn message(&self) -> (r: &str)
        ensures
            r@ == self.internal_error@,
    {
        self.internal_error.as_str()
    }
}

impl From<String> for InternalTorchError {
    fn from(internal_error: String) -> Self {
        InternalTorchError { internal_error }
    }
}

impl vstd::std_specs::convert::FromSpecImpl<String> for InternalTorchError {
    open spec fn obeys_from_spec() -> bool {
        true
    }

    open spec fn from_spec(internal_error: String) -> Self {
        InternalTorchError { internal_error }
    }
}

// ---------------------------------------------------------------------------
// Base64 (trusted boundary)
// ---------------------------------------------------------------------------

/// The bytes that standard, padded base64 text decodes to, if it is valid;
/// a function of the text alone.
pub uninterp spec fn b64_decode_of(s: Seq<char>) -> Option<Seq<u8>>;

/// Relies on `base64::decode` (standard alphabet, padding required): decoding
/// is deterministic in the input text, and the error is reported as text.
#[verifier::external_body]
fn base64_decode(s: &str) -> (r: Result<Vec<u8>, String>)
    ensures
        r is Ok <==> b64_decode_of(s@) is Some,
        r matches Ok(b) ==> b64_decode_of(s@) == Some(b@),
{
    match base64::decode(s) {
        Ok(b) => Ok(b),
        Err(e) => Err(e.to_string()),
    }
}

// ---------------------------------------------------------------------------
// Conversions between the two value universes
// ---------------------------------------------------------------------------

/// Conversion of a caller value into the engine universe. `None` is a
/// conversion failure: an undecodable tensor payload.
pub open spec fn spec_to_engine(v: IValueView) -> Option<EngineValueView>
    decreases v,
{
    match v {
        IValueView::Null => Some(EngineValueView::Null),
        IValueView::Bool(b) => Some(EngineValueView::Bool(b)),
        IValueView::Int(i) => Some(EngineValueView::Int(i)),
        IValueView::Double(d) => Some(EngineValueView::Double(d)),
        IValueView::Str(s) => Some(EngineValueView::Str(s)),
        IValueView::Tuple(vs) => match spec_to_engine_seq(vs) {
            Some(es) => Some(EngineValueView::Tuple(es)),
            None => None,
        },
        IValueView::List(vs) => match spec_to_engine_seq(vs) {
            Some(es) => Some(EngineValueView::GenericList(es)),
            None => None,
        },
        IValueView::Optional(o) => match o {
            Option::None => Some(EngineValueView::Null),
            Option::Some(b) => spec_to_engine(*b),
        },
        IValueView::TensorNPYBase64(s) => match b64_decode_of(s) {
            None => None,
            Some(bytes) => match spec_read_npy(bytes) {
                Ok(t) => Some(EngineValueView::Tensor(t)),
                Err(_) => None,
            },
        },
    }
}

/// Pointwise conversion of an argument list; the first failure wins.
pub open spec fn spec_to_engine_seq(vs: Seq<IValueView>) -> Option<Seq<EngineValueView>>
    decreases vs,
{
    if vs.len() == 0 {
        Some(Seq::empty())
    } else {
        match spec_to_engine(vs[0]) {
            None => None,
            Some(h) => match spec_to_engine_seq(vs.drop_first()) {
                None => None,
                Some(t) => Some(seq![h] + t),
            },
        }
    }
}

/// Conversion of an engine value back into the caller universe. Homogeneous
/// primitive engine lists demote to generic lists of tagged values; tensors
/// and unsupported variants fail.
pub open spec fn spec_from_engine(e: EngineValueView) -> Option<IValueView>
    decreases e,
{
    match e {
        EngineValueView::Null => Some(IValueView::Null),
        EngineValueView::Bool(b) => Some(IValueView::Bool(b)),
        EngineValueView::Int(i) => Some(IValueView::Int(i)),
        EngineValueView::Double(d) => Some(IValueView::Double(d)),
        EngineValueView::Str(s) => Some(IValueView::Str(s)),
        EngineValueView::Tuple(es) => match spec_from_engine_seq(es) {
            Some(vs) => Some(IValueView::Tuple(vs)),
            None => None,
        },
        EngineValueView::GenericList(es) => match spec_from_engine_seq(es) {
            Some(vs) => Some(IValueView::List(vs)),
            None => None,
        },
        EngineValueView::DoubleList(ds) => Some(
            IValueView::List(ds.map_values(|d: u64| IValueView::Double(d))),
        ),
        EngineValueView::IntList(is) => Some(
            IValueView::List(is.map_values(|i: i64| IValueView::Int(i))),
        ),
        EngineValueView::BoolList(bs) => Some(
            IValueView::List(bs.map_values(|b: bool| IValueView::Bool(b))),
        ),
        EngineValueView::Tensor(_) => None,
        EngineValueView::Unsupported => None,
    }
}

/// Pointwise back-conversion of a value list; the first failure wins.
pub open spec fn spec_from_engine_seq(es: Seq<EngineValueView>) -> Option<Seq<IValueView>>
    decreases es,
{
    if es.len() == 0 {
        Some(Seq::empty())
    } else {
        match spec_from_engine(es[0]) {
            None => None,
            Some(h) => match spec_from_engine_seq(es.drop_first()) {
                None => None,
                Some(t) => Some(seq![h] + t),
            },
        }
    }
}

/// Prepend converted values to the outcome of a list conversion.
pub open spec fn conv_prepend<T>(p: Seq<T>, r: Option<Seq<T>>) -> Option<Seq<T>> {
    match r {
        Some(t) => Some(p + t),
        None => None,
    }
}

/// Convert a caller value into the engine universe. Fails exactly when a
/// tensor payload is not valid base64 or not a decodable NPY stream; the
/// message then comes from the codec.
pub fn to_engine(v: &SerializableIValue) -> (r: Result<EngineValue, String>)
    ensures
        r is Ok <==> spec_to_engine(v.deep_view()) is Some,
        r matches Ok(e) ==> spec_to_engine(v.deep_view()) == Some(e.deep_view()),
    decreases v,
{
    match v {
        SerializableIValue::Null => Ok(EngineValue::Null),
        SerializableIValue::Bool(b) => Ok(EngineValue::Bool(*b)),
        SerializableIValue::Int(i) => Ok(EngineValue::Int(*i)),
        SerializableIValue::Double(d) => Ok(EngineValue::Double(*d)),
        SerializableIValue::Str(s) => Ok(EngineValue::Str(s.clone())),
        SerializableIValue::Tuple(vs) => match to_engine_vec(vs) {
            Ok(es) => Ok(EngineValue::Tuple(es)),
            Err(e) => Err(e),
        },
        SerializableIValue::List(vs) => match to_engine_vec(vs) {
            Ok(es) => Ok(EngineValue::GenericList(es)),
            Err(e) => Err(e),
        },
        SerializableIValue::Optional(o) => match o {
            Option::None => Ok(EngineValue::Null),
            Option::Some(b) => to_engine(&**b),
        },
        SerializableIValue::TensorNPYBase64(s) => match base64_decode(s.as_str()) {
            Err(e) => Err(e),
            Ok(bytes) => match crate::tensor::read_npy(bytes.as_slice()) {
                Ok(t) => Ok(EngineValue::Tensor(t)),
                Err(e) => Err(e),
            },
        },
    }
}

/// Convert an argument list into the engine universe; the first failure wins.
#[verifier::loop_isolation(false)]
pub fn to_engine_vec(vs: &Vec<SerializableIValue>) -> (r: Result<Vec<EngineValue>, String>)
    ensures
        r is Ok <==> spec_to_engine_seq(deep_view_seq(vs@)) is Some,
        r matches Ok(es) ==> spec_to_engine_seq(deep_view_seq(vs@)) == Some(engine_view_seq(es@)),
    decreases vs,
{
    let ghost views = deep_view_seq(vs@);
    proof {
        crate::value::lemma_deep_view_seq(vs@);
        assert(views.skip(0) =~= views);
    }
    let n = vs.len();
    let mut out: Vec<EngineValue> = Vec::new();
    let mut k: usize = 0;
    while k < n
        invariant
            k <= n,
            spec_to_engine_seq(views) == conv_prepend(
                engine_view_seq(out@),
                spec_to_engine_seq(views.skip(k as int)),
            ),
        decreases n - k,
    {
        let ghost pre = engine_view_seq(out@);
        let ghost out_pre = out@;
        proof {
            assert(views.skip(k as int)[0] == vs@[k as int].deep_view());
            assert(views.skip(k as int).drop_first() =~= views.skip(k + 1));
        }
        match to_engine(&vs[k]) {
            Err(e) => {
                return Err(e);
            },
            Ok(ev) => {
                let ghost evv = ev.deep_view();
                out.push(ev);
                proof {
                    assert(out@.drop_last() =~= out_pre);
                    assert(engine_view_seq(out@) == pre.push(evv));
                    match spec_to_engine_seq(views.skip(k + 1)) {
                        Some(t) => {
                            assert(pre.push(evv) + t =~= pre + (seq![evv] + t));
                        },
                        None => {},
                    }
                }
            },
        }
        k += 1;
    }
    proof {
        assert(views.skip(n as int) =~= Seq::<IValueView>::empty());
        match spec_to_engine_seq(views) {
            Some(t) => {
                assert(engine_view_seq(out@) + Seq::<EngineValueView>::empty()
                    =~= engine_view_seq(out@));
            },
            None => {},
        }
    }
    Ok(out)
}

/// Convert an engine value back into the caller universe. Fails exactly on
/// tensors and unsupported engine variants.
#[verifier::loop_isolation(false)]
pub fn from_engine(e: &EngineValue) -> (r: Result<SerializableIValue, String>)
    ensures
        r is Ok <==> spec_from_engine(e.deep_view()) is Some,
        r matches Ok(v) ==> spec_from_engine(e.deep_view()) == Some(v.deep_view()),
        r matches Err(m) ==> m@ == "unsupported engine value"@,
    decreases e,
{
    match e {
        EngineValue::Null => Ok(SerializableIValue::Null),
        EngineValue::Bool(b) => Ok(SerializableIValue::Bool(*b)),
        EngineValue::Int(i) => Ok(SerializableIValue::Int(*i)),
        EngineValue::Double(d) => Ok(SerializableIValue::Double(*d)),
        EngineValue::Str(s) => Ok(SerializableIValue::Str(s.clone())),
        EngineValue::Tuple(es) => match from_engine_vec(es) {
            Ok(vs) => Ok(SerializableIValue::Tuple(vs)),
            Err(m) => Err(m),
        },
        EngineValue::GenericList(es) => match from_engine_vec(es) {
            Ok(vs) => Ok(SerializableIValue::List(vs)),
            Err(m) => Err(m),
        },
        EngineValue::DoubleList(ds) => {
            let ghost target = e.deep_view()->DoubleList_0.map_values(
                |d: u64| IValueView::Double(d),
            );
            let mut out: Vec<SerializableIValue> = Vec::new();
            let n = ds.len();
            let mut k: usize = 0;
            while k < n
                invariant
                    k <= n == ds@.len(),
                    deep_view_seq(out@) =~= ds@.take(k as int).map_values(
                        |d: u64| IValueView::Double(d),
                    ),
                decreases n - k,
            {
                let ghost out_pre = out@;
                let elem = SerializableIValue::Double(ds[k]);
                let ghost ev = elem.deep_view();
                out.push(elem);
                proof {
                    assert(out@.drop_last() =~= out_pre);
                    crate::value::lemma_deep_view_seq_push(
                        out@,
                        deep_view_seq(out_pre),
                        ev,
                    );
                    assert(ev == IValueView::Double(ds@[k as int]));
                    assert(deep_view_seq(out@) =~= ds@.take(k + 1).map_values(
                        |d: u64| IValueView::Double(d),
                    ));
                }
                k += 1;
            }
            proof {
                assert(ds@.take(n as int) =~= ds@);
            }
            Ok(SerializableIValue::List(out))
        },
        EngineValue::IntList(is) => {
            let mut out: Vec<SerializableIValue> = Vec::new();
            let n = is.len();
            let mut k: usize = 0;
            while k < n
                invariant
                    k <= n == is@.len(),
                    deep_view_seq(out@) =~= is@.take(k as int).map_values(
                        |i: i64| IValueView::Int(i),
                    ),
                decreases n - k,
            {
                let ghost out_pre = out@;
                let elem = SerializableIValue::Int(is[k]);
                let ghost ev = elem.deep_view();
                out.push(elem);
                proof {
                    assert(out@.drop_last() =~= out_pre);
                    crate::value::lemma_deep_view_seq_push(
                        out@,
                        deep_view_seq(out_pre),
                        ev,
                    );
                    assert(ev == IValueView::Int(is@[k as int]));
                    assert(deep_view_seq(out@) =~= is@.take(k + 1).map_values(
                        |i: i64| IValueView::Int(i),
                    ));
                }
                k += 1;
            }
            proof {
                assert(is@.take(n as int) =~= is@);
            }
            Ok(SerializableIValue::List(out))
        },
        EngineValue::BoolList(bs) => {
            let mut out: Vec<SerializableIValue> = Vec::new();
            let n = bs.len();
            let mut k: usize = 0;
            while k < n
                invariant
                    k <= n == bs@.len(),
                    deep_view_seq(out@) =~= bs@.take(k as int).map_values(
                        |b: bool| IValueView::Bool(b),
                    ),
                decreases n - k,
            {
                let ghost out_pre = out@;
                let elem = SerializableIValue::Bool(bs[k]);
                let ghost ev = elem.deep_view();
                out.push(elem);
                proof {
                    assert(out@.drop_last() =~= out_pre);
                    crate::value::lemma_deep_view_seq_push(
                        out@,
                        deep_view_seq(out_pre),
                        ev,
                    );
                    assert(ev == IValueView::Bool(bs@[k as int]));
                    assert(deep_view_seq(out@) =~= bs@.take(k + 1).map_values(
                        |b: bool| IValueView::Bool(b),
                    ));
                }
                k += 1;
            }
            proof {
                assert(bs@.take(n as int) =~= bs@);
            }
            Ok(SerializableIValue::List(out))
        },
        EngineValue::Tensor(_) => Err(String::from_str("unsupported engine value")),
        EngineValue::Unsupported => Err(String::from_str("unsupported engine value")),
    }
}

/// Convert a value list back from the engine universe; the first failure
/// wins.
#[verifier::loop_isolation(false)]
pub fn from_engine_vec(es: &Vec<EngineValue>) -> (r: Result<Vec<SerializableIValue>, String>)
    ensures
        r is Ok <==> spec_from_engine_seq(engine_view_seq(es@)) is Some,
        r matches Ok(vs) ==> spec_from_engine_seq(engine_view_seq(es@)) == Some(
            deep_view_seq(vs@),
        ),
        r matches Err(m) ==> m@ == "unsupported engine value"@,
    decreases es,
{
    let ghost views = engine_view_seq(es@);
    proof {
        lemma_engine_view_seq(es@);
        assert(views.skip(0) =~= views);
    }
    let n = es.len();
    let mut out: Vec<SerializableIValue> = Vec::new();
    let mut k: usize = 0;
    while k < n
        invariant
            k <= n,
            spec_from_engine_seq(views) == conv_prepend(
                deep_view_seq(out@),
                spec_from_engine_seq(views.skip(k as int)),
            ),
        decreases n - k,
    {
        let ghost pre = deep_view_seq(out@);
        let ghost out_pre = out@;
        proof {
            assert(views.skip(k as int)[0] == es@[k as int].deep_view());
            assert(views.skip(k as int).drop_first() =~= views.skip(k + 1));
        }
        match from_engine(&es[k]) {
            Err(m) => {
                return Err(m);
            },
            Ok(sv) => {
                let ghost svv = sv.deep_view();
                out.push(sv);
                proof {
                    assert(out@.drop_last() =~= out_pre);
                    assert(deep_view_seq(out@) == pre.push(svv));
                    match spec_from_engine_seq(views.skip(k + 1)) {
                        Some(t) => {
                            assert(pre.push(svv) + t =~= pre + (seq![svv] + t));
                        },
                        None => {},
                    }
                }
            },
        }
        k += 1;
    }
    proof {
        assert(views.skip(n as int) =~= Seq::<EngineValueView>::empty());
        match spec_from_engine_seq(views) {
            Some(t) => {
                assert(deep_view_seq(out@) + Seq::<IValueView>::empty() =~= deep_view_seq(out@));
            },
            None => {},
        }
    }
    Ok(out)
}

// ---------------------------------------------------------------------------
// The engine abstraction and the graph wrapper
// ---------------------------------------------------------------------------

/// A loaded inference module: one call maps a list of engine values to one
/// engine value or an error message, deterministically in the inputs.
pub trait TorchEngine: Sized {
    /// What this module computes.
    spec fn spec_forward(&self, inputs: Seq<EngineValueView>) -> Result<EngineValueView, Seq<char>>;

    /// Run the module on the given arguments.
    fn forward_values(&self, inputs: &Vec<EngineValue>) -> (r: Result<
        EngineValue,
        InternalTorchError,
    >)
        ensures
            r is Ok <==> self.spec_forward(engine_view_seq(inputs@)) is Ok,
            r matches Ok(v) ==> self.spec_forward(engine_view_seq(inputs@)) == Ok::<
                EngineValueView,
                Seq<char>,
            >(v.deep_view()),
            r matches Err(e) ==> self.spec_forward(engine_view_seq(inputs@)) == Err::<
                EngineValueView,
                Seq<char>,
            >(e.internal_error@),
    ;
}

/// Deep copy of an engine value.
#[verifier::loop_isolation(false)]
pub fn clone_engine_value(v: &EngineValue) -> (r: EngineValue)
    ensures
        r.deep_view() == v.deep_view(),
    decreases v,
{
    match v {
        EngineValue::Null => EngineValue::Null,
        EngineValue::Bool(b) => EngineValue::Bool(*b),
        EngineValue::Int(i) => EngineValue::Int(*i),
        EngineValue::Double(d) => EngineValue::Double(*d),
        EngineValue::Str(s) => EngineValue::Str(s.clone()),
        EngineValue::Tuple(vs) => EngineValue::Tuple(clone_engine_vec(vs)),
        EngineValue::GenericList(vs) => EngineValue::GenericList(clone_engine_vec(vs)),
        EngineValue::DoubleList(ds) => EngineValue::DoubleList(clone_scalar_vec_u64(ds)),
        EngineValue::IntList(is) => EngineValue::IntList(clone_scalar_vec_i64(is)),
        EngineValue::BoolList(bs) => EngineValue::BoolList(clone_scalar_vec_bool(bs)),
        EngineValue::Tensor(t) => EngineValue::Tensor(
            NpyTensor {
                data: clone_scalar_vec_u8(&t.data),
                shape: clone_scalar_vec_i64(&t.shape),
                dtype: t.dtype,
            },
        ),
        EngineValue::Unsupported => EngineValue::Unsupported,
    }
}

/// Deep copy of a list of engine values.
#[verifier::loop_isolation(false)]
pub fn clone_engine_vec(vs: &Vec<EngineValue>) -> (r: Vec<EngineValue>)
    ensures
        engine_view_seq(r@) == engine_view_seq(vs@),
    decreases vs,
{
    proof {
        lemma_engine_view_seq(vs@);
    }
    let n = vs.len();
    let mut out: Vec<EngineValue> = Vec::new();
    let mut k: usize = 0;
    while k < n
        invariant
            k <= n,
            out@.len() == k,
            forall|m: int| 0 <= m < k ==> out@[m].deep_view() == vs@[m].deep_view(),
        decreases n - k,
    {
        out.push(clone_engine_value(&vs[k]));
        k += 1;
    }
    proof {
        lemma_engine_view_seq(out@);
        assert(engine_view_seq(out@) =~= engine_view_seq(vs@));
    }
    out
}

fn clone_scalar_vec_u64(v: &Vec<u64>) -> (r: Vec<u64>)
    ensures
        r@ == v@,
{
    let n = v.len();
    let mut out: Vec<u64> = Vec::new();
    let mut k: usize = 0;
    while k < n
        invariant
            k <= n <= v@.len(),
            out@ == v@.take(k as int),
        decreases n - k,
    {
        out.push(v[k]);
        proof {
            assert(out@ =~= v@.take(k + 1));
        }
        k += 1;
    }
    proof {
        assert(out@ =~= v@);
    }
    out
}

fn clone_scalar_vec_i64(v: &Vec<i64>) -> (r: Vec<i64>)
    ensures
        r@ == v@,
{
    let n = v.len();
    let mut out: Vec<i64> = Vec::new();
    let mut k: usize = 0;
    while k < n
        invariant
            k <= n <= v@.len(),
            out@ == v@.take(k as int),
        decreases n - k,
    {
        out.push(v[k]);
        proof {
            assert(out@ =~= v@.take(k + 1));
        }
        k += 1;
    }
    proof {
        assert(out@ =~= v@);
    }
    out
}

fn clone_scalar_vec_bool(v: &Vec<bool>) -> (r: Vec<bool>)
    ensures
        r@ == v@,
{
    let n = v.len();
    let mut out: Vec<bool> = Vec::new();
    let mut k: usize = 0;
    while k < n
        invariant
            k <= n <= v@.len(),
            out@ == v@.take(k as int),
        decreases n - k,
    {
        out.push(v[k]);
        proof {
            assert(out@ =~= v@.take(k + 1));
        }
        k += 1;
    }
    proof {
        assert(out@ =~= v@);
    }
    out
}

fn clone_scalar_vec_u8(v: &Vec<u8>) -> (r: Vec<u8>)
    ensures
        r@ == v@,
{
    let n = v.len();
    let mut out: Vec<u8> = Vec::new();
    let mut k: usize = 0;
    while k < n
        invariant
            k <= n <= v@.len(),
            out@ == v@.take(k as int),
        decreases n - k,
    {
        out.push(v[k]);
        proof {
            assert(out@ =~= v@.take(k + 1));
        }
        k += 1;
    }
    proof {
        assert(out@ =~= v@);
    }
    out
}

/// An engine module that answers every call with its first argument: the
/// behaviour of a plain text pass-through model, useful as a deterministic
/// stand-in where no native runtime is linked.
#[derive(Debug, Clone, Copy)]
pub struct EchoEngine;

impl TorchEngine for EchoEngine {
    open spec fn spec_forward(&self, inputs: Seq<EngineValueView>) -> Result<
        EngineValueView,
        Seq<char>,
    > {
        if inputs.len() >= 1 {
            Ok(inputs[0])
        } else {
            Err("echo engine needs at least one argument"@)
        }
    }

    fn forward_values(&self, inputs: &Vec<EngineValue>) -> (r: Result<
        EngineValue,
        InternalTorchError,
    >) {
        proof {
            lemma_engine_view_seq(inputs@);
        }
        if inputs.len() >= 1 {
            Ok(clone_engine_value(&inputs[0]))
        } else {
            Err(
                InternalTorchError {
                    internal_error: String::from_str("echo engine needs at least one argument"),
                },
            )
        }
    }
}

/// The outcome a graph's forward pass is specified to have.
pub enum ForwardOutcome {
    Output(IValueView),
    ConversionError,
    EngineError(Seq<char>),
    OutputError,
}

/// A loaded engine module together with the value conversions around it.
#[derive(Debug)]
pub struct TorchScriptGraph<E: TorchEngine> {
    pub batchable: bool,
    pub module: E,
}

/// What one forward pass yields: convert every argument, run the module,
/// convert the answer back.
pub open spec fn spec_graph_forward<E: TorchEngine>(
    module: E,
    input: Seq<IValueView>,
) -> ForwardOutcome {
    match spec_to_engine_seq(input) {
        None => ForwardOutcome::ConversionError,
        Some(es) => match module.spec_forward(es) {
            Err(m) => ForwardOutcome::EngineError(m),
            Ok(out) => match spec_from_engine(out) {
                None => ForwardOutcome::OutputError,
                Some(v) => ForwardOutcome::Output(v),
            },
        },
    }
}

impl<E: TorchEngine> TorchScriptGraph<E> {
    /// Run one forward pass: convert the positional arguments, call the
    /// module, and convert its answer back.
    pub fn forward(&self, inputs: &crate::value::TorchScriptInput) -> (r: Result<
        SerializableIValue,
        InternalTorchError,
    >)
        ensures
            match spec_graph_forward(self.module, inputs.deep_view()) {
                ForwardOutcome::Output(v) => r matches Ok(x) && x.deep_view() == v,
                ForwardOutcome::ConversionError => r is Err,
                ForwardOutcome::EngineError(m) => r matches Err(e) && e.internal_error@ == m,
                ForwardOutcome::OutputError => r matches Err(e) && e.internal_error@
                    == "unsupported engine value"@,
            },
    {
        let es = match to_engine_vec(&inputs.positional_arguments) {
            Ok(es) => es,
            Err(m) => {
                return Err(InternalTorchError { internal_error: m });
            },
        };
        match self.module.forward_values(&es) {
            Err(e) => Err(e),
            Ok(out) => match from_engine(&out) {
                Ok(v) => Ok(v),
                Err(m) => Err(InternalTorchError { internal_error: m }),
            },
        }
    }

    /// Batched inference is declared but not implemented; it may only be
    /// called on a batchable graph, and it fails fast.
    pub fn forward_batched(&self) -> (r: Result<SerializableIValue, InternalTorchError>)
        requires
            self.batchable,
        ensures
            r matches Err(e) && e.internal_error@ == "not implemented"@,
    {
        Err(InternalTorchError { internal_error: String::from_str("not implemented") })
    }
}

// ---------------------------------------------------------------------------
// The conversion round trip
// ---------------------------------------------------------------------------

/// Values on which the two conversions invert each other exactly: every tag
/// except the optional wrapper and the tensor payload.
pub open spec fn engine_exact(v: IValueView) -> bool
    decreases v,
{
    match v {
        IValueView::Null => true,
        IValueView::Bool(_) => true,
        IValueView::Int(_) => true,
        IValueView::Double(_) => true,
        IValueView::Str(_) => true,
        IValueView::Tuple(vs) => forall|k: int|
            0 <= k < vs.len() ==> engine_exact(#[trigger] vs[k]),
        IValueView::List(vs) => forall|k: int|
            0 <= k < vs.len() ==> engine_exact(#[trigger] vs[k]),
        IValueView::Optional(_) => false,
        IValueView::TensorNPYBase64(_) => false,
    }
}

/// Round trip of the value conversions: on every value without optional
/// wrappers and tensor payloads, converting into the engine universe and back
/// returns the value unchanged. An optional wrapper is flattened on the way
/// in, so it cannot come back out: `Optional(None)` maps to the engine's null
/// and returns as the bare null value.
pub proof fn lemma_engine_round_trip(v: IValueView)
    requires
        engine_exact(v),
    ensures
        spec_to_engine(v) is Some,
        spec_from_engine(spec_to_engine(v).unwrap()) == Some(v),
    decreases v,
{
    match v {
        IValueView::Tuple(vs) => {
            lemma_engine_round_trip_seq(vs);
        },
        IValueView::List(vs) => {
            lemma_engine_round_trip_seq(vs);
        },
        _ => {},
    }
}

/// Round trip of the value conversions over a list of values.
proof fn lemma_engine_round_trip_seq(vs: Seq<IValueView>)
    requires
        forall|k: int| 0 <= k < vs.len() ==> engine_exact(#[trigger] vs[k]),
    ensures
        spec_to_engine_seq(vs) is Some,
        spec_from_engine_seq(spec_to_engine_seq(vs).unwrap()) == Some(vs),
    decreases vs,
{
    if vs.len() == 0 {
    } else {
        lemma_engine_round_trip(vs[0]);
        lemma_engine_round_trip_seq(vs.drop_first());
        let h = spec_to_engine(vs[0]).unwrap();
        let t = spec_to_engine_seq(vs.drop_first()).unwrap();
        assert((seq![h] + t)[0] == h);
        assert((seq![h] + t).drop_first() =~= t);
        assert(seq![vs[0]] + vs.drop_first() =~= vs);
    }
}

} // verus!

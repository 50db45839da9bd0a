//! The semantic input validator: per-argument policies applied against a
//! canonical baseline input, first violation wins.

use vstd::prelude::*;

use crate::errors::{
    LightrayModelInputSemanticError, LightrayVerificationInputDoesNotEqual,
    LightrayVerificationInputSize, LightrayVerificationInputSizeDoesNotEqual,
    LightrayVerificationInputTypes, SemanticErrorView,
};
use crate::value::{deep_view_seq, IValueView, SerializableIValue, TorchScriptInput};

verus! {

/// Per-argument policy: the argument must equal the baseline exactly, have
/// the baseline's element count, or only carry the baseline's tag.
#[derive(Debug, Clone, Copy, PartialEq, Eq, Structural)]
pub enum LightrayIValueSemantic {
    ExactValueMatch,
    SizeMatch,
    TypeMatch,
}

/// The tag of a value, numbered for comparison.
pub open spec fn tag_of(v: IValueView) -> int {
    match v {
        IValueView::Null => 0,
        IValueView::Bool(_) => 1,
        IValueView::Int(_) => 2,
        IValueView::Double(_) => 3,
        IValueView::Str(_) => 4,
        IValueView::Tuple(_) => 5,
        IValueView::List(_) => 6,
        IValueView::Optional(_) => 7,
        IValueView::TensorNPYBase64(_) => 8,
    }
}

/// The first violation at or after position `i`, if any: a tag mismatch, a
/// failed exact match, or a failed element-count match, in policy order.
pub open spec fn spec_scan(
    policies: Seq<LightrayIValueSemantic>,
    input: Seq<IValueView>,
    baseline: Seq<IValueView>,
    i: nat,
) -> Option<SemanticErrorView>
    decreases input.len() - i,
{
    if i >= input.len() {
        None
    } else if tag_of(baseline[i as int]) != tag_of(input[i as int]) {
        Some(SemanticErrorView::InputTypes { argument_position: i as u16 })
    } else {
        let step: Option<SemanticErrorView> = match policies[i as int] {
            LightrayIValueSemantic::ExactValueMatch => if baseline[i as int] != input[i as int] {
                Some(
                    SemanticErrorView::DoesNotEqual {
                        argument_position: i as u16,
                        value: baseline[i as int],
                    },
                )
            } else {
                None
            },
            LightrayIValueSemantic::SizeMatch => match (baseline[i as int], input[i as int]) {
                (IValueView::Tuple(x), IValueView::Tuple(y)) => if x.len() != y.len() {
                    Some(
                        SemanticErrorView::SizeDoesNotEqual {
                            argument_position: i as u16,
                            expected_input_size: x.len() as u16,
                        },
                    )
                } else {
                    None
                },
                (IValueView::List(x), IValueView::List(y)) => if x.len() != y.len() {
                    Some(
                        SemanticErrorView::SizeDoesNotEqual {
                            argument_position: i as u16,
                            expected_input_size: x.len() as u16,
                        },
                    )
                } else {
                    None
                },
                _ => None,
            },
            LightrayIValueSemantic::TypeMatch => None,
        };
        match step {
            Some(e) => Some(e),
            None => spec_scan(policies, input, baseline, i + 1),
        }
    }
}

/// The verdict of the validator: an arity mismatch, or the first positional
/// violation, or nothing.
pub open spec fn spec_semantic_error(
    policies: Seq<LightrayIValueSemantic>,
    input: Seq<IValueView>,
    baseline: Seq<IValueView>,
) -> Option<SemanticErrorView> {
    if input.len() != policies.len() {
        Some(
            SemanticErrorView::InputSize {
                input_length: input.len() as u16,
                output_length: policies.len() as u16,
            },
        )
    } else {
        spec_scan(policies, input, baseline, 0)
    }
}

/// Whether two values carry the same tag.
fn same_tag(a: &SerializableIValue, b: &SerializableIValue) -> (r: bool)
    ensures
        r == (tag_of(a.deep_view()) == tag_of(b.deep_view())),
{
    match (a, b) {
        (SerializableIValue::Null, SerializableIValue::Null) => true,
        (SerializableIValue::Bool(_), SerializableIValue::Bool(_)) => true,
        (SerializableIValue::Int(_), SerializableIValue::Int(_)) => true,
        (SerializableIValue::Double(_), SerializableIValue::Double(_)) => true,
        (SerializableIValue::Str(_), SerializableIValue::Str(_)) => true,
        (SerializableIValue::Tuple(_), SerializableIValue::Tuple(_)) => true,
        (SerializableIValue::List(_), SerializableIValue::List(_)) => true,
        (SerializableIValue::Optional(_), SerializableIValue::Optional(_)) => true,
        (SerializableIValue::TensorNPYBase64(_), SerializableIValue::TensorNPYBase64(_)) => true,
        _ => false,
    }
}

/// Deep copy of a value.
#[verifier::loop_isolation(false)]
pub fn clone_value(v: &SerializableIValue) -> (r: SerializableIValue)
    ensures
        r.deep_view() == v.deep_view(),
    decreases v,
{
    match v {
        SerializableIValue::Null => SerializableIValue::Null,
        SerializableIValue::Bool(b) => SerializableIValue::Bool(*b),
        SerializableIValue::Int(i) => SerializableIValue::Int(*i),
        SerializableIValue::Double(d) => SerializableIValue::Double(*d),
        SerializableIValue::Str(s) => SerializableIValue::Str(s.clone()),
        SerializableIValue::Tuple(vs) => SerializableIValue::Tuple(clone_value_vec(vs)),
        SerializableIValue::List(vs) => SerializableIValue::List(clone_value_vec(vs)),
        SerializableIValue::Optional(o) => match o {
            Option::None => SerializableIValue::Optional(None),
            Option::Some(b) => SerializableIValue::Optional(Some(Box::new(clone_value(&**b)))),
        },
        SerializableIValue::TensorNPYBase64(s) => SerializableIValue::TensorNPYBase64(s.clone()),
    }
}

/// Deep copy of a value vector.
#[verifier::loop_isolation(false)]
pub fn clone_value_vec(vs: &Vec<SerializableIValue>) -> (r: Vec<SerializableIValue>)
    ensures
        deep_view_seq(r@) == deep_view_seq(vs@),
    decreases vs,
{
    proof {
        crate::value::lemma_deep_view_seq(vs@);
    }
    let n = vs.len();
    let mut out: Vec<SerializableIValue> = Vec::new();
    let mut k: usize = 0;
    while k < n
        invariant
            k <= n,
            out@.len() == k,
            forall|m: int| 0 <= m < k ==> out@[m].deep_view() == vs@[m].deep_view(),
        decreases n - k,
    {
        out.push(clone_value(&vs[k]));
        k += 1;
    }
    proof {
        crate::value::lemma_deep_view_seq(out@);
        assert(deep_view_seq(out@) =~= deep_view_seq(vs@));
    }
    out
}

/// The ordered list of per-argument policies, one per positional argument.
#[derive(Debug)]
pub struct LightrayModelSemantics {
    pub positional_semantics: Vec<LightrayIValueSemantic>,
}

impl LightrayModelSemantics {
    /// Validate an input against the baseline: the arity must match the
    /// policy list, and each argument must satisfy its policy against the
    /// baseline argument. The first violation wins, in the order
    /// arity, tag, then value or element count.
    #[verifier::loop_isolation(false)]
    pub fn verify_semantics(
        &self,
        model_input: &TorchScriptInput,
        model_baseline: &TorchScriptInput,
    ) -> (r: Result<(), LightrayModelInputSemanticError>)
        requires
            model_input.deep_view().len() == self.positional_semantics@.len()
                ==> model_baseline.deep_view().len() >= model_input.deep_view().len(),
        ensures
            r is Ok <==> spec_semantic_error(
                self.positional_semantics@,
                model_input.deep_view(),
                model_baseline.deep_view(),
            ) is None,
            r matches Err(e) ==> spec_semantic_error(
                self.positional_semantics@,
                model_input.deep_view(),
                model_baseline.deep_view(),
            ) == Some(e.view_spec()),
    {
        let ghost policies = self.positional_semantics@;
        let ghost inputv = model_input.deep_view();
        let ghost basev = model_baseline.deep_view();
        proof {
            crate::value::lemma_deep_view_seq(model_input.positional_arguments@);
            crate::value::lemma_deep_view_seq(model_baseline.positional_arguments@);
        }
        let n = model_input.positional_arguments.len();
        if n != self.positional_semantics.len() {
            return Err(
                LightrayModelInputSemanticError::LightrayVerificationInputSize(
                    LightrayVerificationInputSize {
                        input_length: n as u16,
                        output_length: self.positional_semantics.len() as u16,
                    },
                ),
            );
        }
        let mut i: usize = 0;
        while i < n
            invariant
                i <= n,
                spec_scan(policies, inputv, basev, 0) == spec_scan(policies, inputv, basev, i as nat),
            decreases n - i,
        {
            let input_arg = &model_input.positional_arguments[i];
            let baseline_arg = &model_baseline.positional_arguments[i];
            if !same_tag(baseline_arg, input_arg) {
                return Err(
                    LightrayModelInputSemanticError::LightrayVerificationInputTypes(
                        LightrayVerificationInputTypes { argument_position: i as u16 },
                    ),
                );
            }
            match self.positional_semantics[i] {
                LightrayIValueSemantic::ExactValueMatch => {
                    if !crate::value::value_eq(baseline_arg, input_arg) {
                        return Err(
                            LightrayModelInputSemanticError::LightrayVerificationInputDoesNotEqual(
                                LightrayVerificationInputDoesNotEqual {
                                    argument_position: i as u16,
                                    value: clone_value(baseline_arg),
                                },
                            ),
                        );
                    }
                },
                LightrayIValueSemantic::SizeMatch => {
                    match (baseline_arg, input_arg) {
                        (SerializableIValue::Tuple(x), SerializableIValue::Tuple(y)) => {
                            if x.len() != y.len() {
                                proof {
                                    crate::value::lemma_deep_view_seq(x@);
                                    crate::value::lemma_deep_view_seq(y@);
                                }
                                return Err(
                                    LightrayModelInputSemanticError::LightrayVerificationInputSizeDoesNotEqual(
                                        LightrayVerificationInputSizeDoesNotEqual {
                                            argument_position: i as u16,
                                            expected_input_size: x.len() as u16,
                                        },
                                    ),
                                );
                            }
                            proof {
                                crate::value::lemma_deep_view_seq(x@);
                                crate::value::lemma_deep_view_seq(y@);
                            }
                        },
                        (SerializableIValue::List(x), SerializableIValue::List(y)) => {
                            if x.len() != y.len() {
                                proof {
                                    crate::value::lemma_deep_view_seq(x@);
                                    crate::value::lemma_deep_view_seq(y@);
                                }
                                return Err(
                                    LightrayModelInputSemanticError::LightrayVerificationInputSizeDoesNotEqual(
                                        LightrayVerificationInputSizeDoesNotEqual {
                                            argument_position: i as u16,
                                            expected_input_size: x.len() as u16,
                                        },
                                    ),
                                );
                            }
                            proof {
                                crate::value::lemma_deep_view_seq(x@);
                                crate::value::lemma_deep_view_seq(y@);
                            }
                        },
                        _ => {},
                    }
                },
                LightrayIValueSemantic::TypeMatch => {},
            }
            i += 1;
        }
        Ok(())
    }
}

} // verus!

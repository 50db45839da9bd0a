//! The error taxonomy: verification, semantic, execution, registration,
//! scheduling and service errors, with their report texts.

use vstd::prelude::*;

use crate::engine::InternalTorchError;
use crate::json::{dec_of, print_value};
use crate::value::{IValueView, SerializableIValue};

verus! {

/// A model was handed no samples to verify or warm up with.
#[derive(Debug)]
pub struct LightrayMissingSamples {}

/// The input's arity does not match the declared semantics.
#[derive(Debug, PartialEq, Eq, Structural)]
pub struct LightrayVerificationInputSize {
    pub input_length: u16,
    pub output_length: u16,
}

/// The input's tag at a position does not match the baseline.
#[derive(Debug, PartialEq, Eq, Structural)]
pub struct LightrayVerificationInputTypes {
    pub argument_position: u16,
}

/// The input at a position is not exactly the required value, which is
/// carried along.
#[derive(Debug)]
pub struct LightrayVerificationInputDoesNotEqual {
    pub argument_position: u16,
    pub value: SerializableIValue,
}

/// The input at a position does not have the required number of elements.
#[derive(Debug, PartialEq, Eq, Structural)]
pub struct LightrayVerificationInputSizeDoesNotEqual {
    pub argument_position: u16,
    pub expected_input_size: u16,
}

/// Mathematical model of a semantic-validation error.
pub enum SemanticErrorView {
    InputSize { input_length: u16, output_length: u16 },
    InputTypes { argument_position: u16 },
    DoesNotEqual { argument_position: u16, value: IValueView },
    SizeDoesNotEqual { argument_position: u16, expected_input_size: u16 },
}

/// A semantic-validation failure: wrong arity, wrong tag, wrong exact value,
/// or wrong element count, in that order of precedence.
#[derive(Debug)]
pub enum LightrayModelInputSemanticError {
    LightrayVerificationInputSize(LightrayVerificationInputSize),
    LightrayVerificationInputTypes(LightrayVerificationInputTypes),
    LightrayVerificationInputDoesNotEqual(LightrayVerificationInputDoesNotEqual),
    LightrayVerificationInputSizeDoesNotEqual(LightrayVerificationInputSizeDoesNotEqual),
}

impl LightrayModelInputSemanticError {
    /// Model of this error.
    pub open spec fn view_spec(&self) -> SemanticErrorView {
        match self {
            LightrayModelInputSemanticError::LightrayVerificationInputSize(e) =>
                SemanticErrorView::InputSize {
                    input_length: e.input_length,
                    output_length: e.output_length,
                },
            LightrayModelInputSemanticError::LightrayVerificationInputTypes(e) =>
                SemanticErrorView::InputTypes { argument_position: e.argument_position },
            LightrayModelInputSemanticError::LightrayVerificationInputDoesNotEqual(e) =>
                SemanticErrorView::DoesNotEqual {
                    argument_position: e.argument_position,
                    value: e.value.deep_view(),
                },
            LightrayModelInputSemanticError::LightrayVerificationInputSizeDoesNotEqual(e) =>
                SemanticErrorView::SizeDoesNotEqual {
                    argument_position: e.argument_position,
                    expected_input_size: e.expected_input_size,
                },
        }
    }
}

/// A model could not be verified: no samples, or the engine failed on one.
#[derive(Debug)]
pub enum LightrayModelVerificationError {
    InternalTorchError(InternalTorchError),
    LightrayMissingSamples(LightrayMissingSamples),
}

/// An execution failed: engine error, rejected input, unknown model, or a
/// poisoned registry lock.
#[derive(Debug)]
pub enum LightrayModelExecutionError {
    InternalTorchScriptError(InternalTorchError),
    LightrayModelInputSemanticError(LightrayModelInputSemanticError),
    MissingModel,
    Poison,
}

/// A registration operation failed: the model could not be verified, the
/// model to delete is unknown, or the registry lock is poisoned.
#[derive(Debug)]
pub enum LightrayRegistrationError {
    LightrayModelVerificationError(LightrayModelVerificationError),
    MissingModel,
    Poison,
}

/// A scheduled execution failed: the execution itself, or the reply channel
/// closed without an answer.
#[derive(Debug)]
pub enum LightraySchedulerError {
    LightrayModelExecutionError(LightrayModelExecutionError),
    SchedulerError,
}

impl From<LightrayModelExecutionError> for LightraySchedulerError {
    fn from(x: LightrayModelExecutionError) -> Self {
        LightraySchedulerError::LightrayModelExecutionError(x)
    }
}

impl vstd::std_specs::convert::FromSpecImpl<LightrayModelExecutionError>
    for LightraySchedulerError {
    open spec fn obeys_from_spec() -> bool {
        true
    }

    open spec fn from_spec(x: LightrayModelExecutionError) -> Self {
        LightraySchedulerError::LightrayModelExecutionError(x)
    }
}

// ---------------------------------------------------------------------------
// Report texts
// ---------------------------------------------------------------------------

impl LightrayMissingSamples {
    /// The report text of this error.
    pub fn message(&self) -> (r: String)
        ensures
            r@ == "LightrayModel is missing samples to verify/warmup TorchScript models"@,
    {
        String::from_str("LightrayModel is missing samples to verify/warmup TorchScript models")
    }
}

/// Report text of an arity mismatch.
pub open spec fn msg_input_size(input_length: u16, output_length: u16) -> Seq<char> {
    "LightrayModel expected "@ + dec_of(input_length as nat)
        + " inputs but instead got "@ + dec_of(output_length as nat)
}

impl LightrayVerificationInputSize {
    /// The report text of this error.
    pub fn message(&self) -> (r: String)
        ensures
            r@ == msg_input_size(self.input_length, self.output_length),
    {
        let mut out: Vec<char> = Vec::new();
        crate::json::emit_lit(&mut out, "LightrayModel expected ");
        crate::json::emit_u64(&mut out, self.input_length as u64);
        crate::json::emit_lit(&mut out, " inputs but instead got ");
        crate::json::emit_u64(&mut out, self.output_length as u64);
        proof {
            assert(out@ =~= msg_input_size(self.input_length, self.output_length));
        }
        crate::json::chars_to_string(&out)
    }
}

/// Report text of a tag mismatch.
pub open spec fn msg_input_types(argument_position: u16) -> Seq<char> {
    "LightrayModel input does not match the correct type at position "@
        + dec_of(argument_position as nat)
}

impl LightrayVerificationInputTypes {
    /// The report text of this error.
    pub fn message(&self) -> (r: String)
        ensures
            r@ == msg_input_types(self.argument_position),
    {
        let mut out: Vec<char> = Vec::new();
        crate::json::emit_lit(&mut out, "LightrayModel input does not match the correct type at position ");
        crate::json::emit_u64(&mut out, self.argument_position as u64);
        proof {
            assert(out@ =~= msg_input_types(self.argument_position));
        }
        crate::json::chars_to_string(&out)
    }
}

/// Report text of an exact-value mismatch; the required value is written in
/// its JSON form.
pub open spec fn msg_does_not_equal(argument_position: u16, value: IValueView) -> Seq<char> {
    "LightrayModel input at position "@ + dec_of(argument_position as nat)
        + " does not equal it's exact value "@ + print_value(value)
}

impl LightrayVerificationInputDoesNotEqual {
    /// The report text of this error.
    pub fn message(&self) -> (r: String)
        ensures
            r@ == msg_does_not_equal(self.argument_position, self.value.deep_view()),
    {
        let mut out: Vec<char> = Vec::new();
        crate::json::emit_lit(&mut out, "LightrayModel input at position ");
        crate::json::emit_u64(&mut out, self.argument_position as u64);
        crate::json::emit_lit(&mut out, " does not equal it's exact value ");
        crate::json::emit_value(&mut out, &self.value);
        proof {
            assert(out@ =~= msg_does_not_equal(self.argument_position, self.value.deep_view()));
        }
        crate::json::chars_to_string(&out)
    }
}

/// Report text of an element-count mismatch.
pub open spec fn msg_size_does_not_equal(
    argument_position: u16,
    expected_input_size: u16,
) -> Seq<char> {
    "LightrayModel input at position "@ + dec_of(argument_position as nat)
        + " requires exactly "@ + dec_of(expected_input_size as nat) + " arguments"@
}

impl LightrayVerificationInputSizeDoesNotEqual {
    /// The report text of this error.
    pub fn message(&self) -> (r: String)
        ensures
            r@ == msg_size_does_not_equal(self.argument_position, self.expected_input_size),
    {
        let mut out: Vec<char> = Vec::new();
        crate::json::emit_lit(&mut out, "LightrayModel input at position ");
        crate::json::emit_u64(&mut out, self.argument_position as u64);
        crate::json::emit_lit(&mut out, " requires exactly ");
        crate::json::emit_u64(&mut out, self.expected_input_size as u64);
        crate::json::emit_lit(&mut out, " arguments");
        proof {
            assert(out@ =~= msg_size_does_not_equal(
                self.argument_position,
                self.expected_input_size,
            ));
        }
        crate::json::chars_to_string(&out)
    }
}

impl LightrayModelInputSemanticError {
    /// The report text of this error.
    pub fn message(&self) -> (r: String)
        ensures
            r@ == match self.view_spec() {
                SemanticErrorView::InputSize { input_length, output_length } => msg_input_size(
                    input_length,
                    output_length,
                ),
                SemanticErrorView::InputTypes { argument_position } => msg_input_types(
                    argument_position,
                ),
                SemanticErrorView::DoesNotEqual { argument_position, value } =>
                    msg_does_not_equal(argument_position, value),
                SemanticErrorView::SizeDoesNotEqual { argument_position, expected_input_size } =>
                    msg_size_does_not_equal(argument_position, expected_input_size),
            },
    {
        match self {
            LightrayModelInputSemanticError::LightrayVerificationInputSize(e) => e.message(),
            LightrayModelInputSemanticError::LightrayVerificationInputTypes(e) => e.message(),
            LightrayModelInputSemanticError::LightrayVerificationInputDoesNotEqual(e) =>
                e.message(),
            LightrayModelInputSemanticError::LightrayVerificationInputSizeDoesNotEqual(e) =>
                e.message(),
        }
    }
}

// ---------------------------------------------------------------------------
// The service-facing error
// ---------------------------------------------------------------------------

/// What the HTTP surface reports: an internal failure, a caller mistake with
/// its text, or a rejected credential.
#[derive(Debug)]
pub enum ServiceError {
    InternalServerError,
    BadRequest(String),
    Unauthorized,
}

impl ServiceError {
    /// Turn a registration failure into the service error reported for it:
    /// verification failures are the caller's, everything else is internal.
    pub fn from_registration_error(error: LightrayRegistrationError) -> (r: ServiceError)
        ensures
            match error {
                LightrayRegistrationError::LightrayModelVerificationError(
                    LightrayModelVerificationError::InternalTorchError(te),
                ) => r matches ServiceError::BadRequest(m) && m@ == te.internal_error@,
                LightrayRegistrationError::LightrayModelVerificationError(
                    LightrayModelVerificationError::LightrayMissingSamples(_),
                ) => r matches ServiceError::BadRequest(m) && m@ == "Missing samples"@,
                _ => r is InternalServerError,
            },
    {
        match error {
            LightrayRegistrationError::LightrayModelVerificationError(model_err) => match model_err
                {
                LightrayModelVerificationError::InternalTorchError(torch_err) =>
                    ServiceError::BadRequest(torch_err.internal_error),
                LightrayModelVerificationError::LightrayMissingSamples(_) =>
                    ServiceError::BadRequest(String::from_str("Missing samples")),
            },
            _ => ServiceError::InternalServerError,
        }
    }

    /// Turn an execution failure into the service error reported for it:
    /// semantic rejections are the caller's, with their report text,
    /// everything else is internal.
    pub fn from_execution_error(error: LightrayModelExecutionError) -> (r: ServiceError)
        ensures
            match error {
                LightrayModelExecutionError::LightrayModelInputSemanticError(e) => (r matches
                ServiceError::BadRequest(m) && m@ == match e.view_spec() {
                    SemanticErrorView::InputSize { input_length, output_length } =>
                        msg_input_size(input_length, output_length),
                    SemanticErrorView::InputTypes { argument_position } => msg_input_types(
                        argument_position,
                    ),
                    SemanticErrorView::DoesNotEqual { argument_position, value } =>
                        msg_does_not_equal(argument_position, value),
                    SemanticErrorView::SizeDoesNotEqual {
                        argument_position,
                        expected_input_size,
                    } => msg_size_does_not_equal(argument_position, expected_input_size),
                }),
                _ => r is InternalServerError,
            },
    {
        match error {
            LightrayModelExecutionError::LightrayModelInputSemanticError(model_err) =>
                ServiceError::BadRequest(model_err.message()),
            _ => ServiceError::InternalServerError,
        }
    }
}

} // verus!

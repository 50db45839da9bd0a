//! The model record: a registered identifier, the graph it owns, the samples
//! it was verified against, and the per-argument semantics.

use vstd::prelude::*;

use crate::engine::{
    spec_graph_forward, ForwardOutcome, TorchEngine, TorchScriptGraph,
};
use crate::errors::{
    LightrayMissingSamples, LightrayModelExecutionError, LightrayModelVerificationError,
    SemanticErrorView,
};
use crate::semantics::{spec_semantic_error, LightrayModelSemantics};
use crate::value::{IValueView, SerializableIValue, TorchScriptInput};

verus! {

/// The stable name of a registered model: a 128-bit identifier and a version.
#[derive(Debug, PartialEq, Eq, Structural, Hash, Copy, Clone)]
pub struct LightrayModelId {
    pub model_id: u128,
    pub model_version: u16,
}

/// Whether one sample forwards successfully through a module.
pub open spec fn sample_ok<E: TorchEngine>(module: E, sample: TorchScriptInput) -> bool {
    spec_graph_forward(module, sample.deep_view()) is Output
}

/// Index of the first sample at or after `i` that fails to forward.
pub open spec fn first_bad<E: TorchEngine>(
    module: E,
    samples: Seq<TorchScriptInput>,
    i: nat,
) -> Option<nat>
    decreases samples.len() - i,
{
    if i >= samples.len() {
        None
    } else if !sample_ok(module, samples[i as int]) {
        Some(i)
    } else {
        first_bad(module, samples, i + 1)
    }
}

/// What one model execution is specified to yield.
pub enum ExecOutcome {
    Value(IValueView),
    Semantic(SemanticErrorView),
    Fwd(ForwardOutcome),
}

/// A registered model: its identifier, the graph it owns, its verification
/// samples and its input semantics. Immutable once constructed.
#[derive(Debug)]
pub struct LightrayModel<E: TorchEngine> {
    pub id: LightrayModelId,
    pub executor: TorchScriptGraph<E>,
    pub samples: Vec<TorchScriptInput>,
    pub semantics: LightrayModelSemantics,
}

impl<E: TorchEngine> LightrayModel<E> {
    /// Well-formedness: there is at least one sample.
    pub open spec fn wf(&self) -> bool {
        self.samples@.len() >= 1
    }

    /// The declared semantics fit the canonical baseline: no more policies
    /// than the first sample has arguments.
    pub open spec fn semantics_arity_ok(&self) -> bool {
        self.semantics.positional_semantics@.len() <= self.samples@[0].deep_view().len()
    }

    /// What `execute` yields: the semantic verdict first when asked for, then
    /// the graph's forward pass.
    pub open spec fn spec_execute(&self, input: Seq<IValueView>, verify: bool) -> ExecOutcome {
        if verify && spec_semantic_error(
            self.semantics.positional_semantics@,
            input,
            self.samples@[0].deep_view(),
        ) is Some {
            ExecOutcome::Semantic(
                spec_semantic_error(
                    self.semantics.positional_semantics@,
                    input,
                    self.samples@[0].deep_view(),
                ).unwrap(),
            )
        } else {
            match spec_graph_forward(self.executor.module, input) {
                ForwardOutcome::Output(v) => ExecOutcome::Value(v),
                o => ExecOutcome::Fwd(o),
            }
        }
    }

    /// Build a model record after verifying that every sample forwards
    /// through the graph; ownership of the graph, samples and semantics is
    /// taken.
    pub fn new(
        id: LightrayModelId,
        executor: TorchScriptGraph<E>,
        samples: Vec<TorchScriptInput>,
        semantics: LightrayModelSemantics,
    ) -> (r: Result<LightrayModel<E>, LightrayModelVerificationError>)
        ensures
            r is Ok <==> samples@.len() >= 1 && first_bad(executor.module, samples@, 0) is None,
            r matches Ok(m) ==> m.id == id && m.executor == executor && m.samples@ == samples@
                && m.semantics == semantics && m.wf(),
            samples@.len() == 0 ==> r matches Err(
                LightrayModelVerificationError::LightrayMissingSamples(_),
            ),
    {
        let model = LightrayModel { id, samples, executor, semantics };
        match model.verify() {
            Ok(()) => Ok(model),
            Err(e) => Err(e),
        }
    }

    /// Run every sample through the graph; the first failure is reported.
    #[verifier::loop_isolation(false)]
    pub fn verify(&self) -> (r: Result<(), LightrayModelVerificationError>)
        ensures
            r is Ok <==> self.samples@.len() >= 1 && first_bad(
                self.executor.module,
                self.samples@,
                0,
            ) is None,
            self.samples@.len() == 0 ==> r matches Err(
                LightrayModelVerificationError::LightrayMissingSamples(_),
            ),
            self.samples@.len() >= 1 && first_bad(self.executor.module, self.samples@, 0)
                is Some ==> (r matches Err(
                LightrayModelVerificationError::InternalTorchError(e),
            ) && match spec_graph_forward(
                self.executor.module,
                self.samples@[first_bad(self.executor.module, self.samples@, 0).unwrap() as int]
                    .deep_view(),
            ) {
                ForwardOutcome::EngineError(m) => e.internal_error@ == m,
                ForwardOutcome::OutputError => e.internal_error@ == "unsupported engine value"@,
                ForwardOutcome::ConversionError => true,
                ForwardOutcome::Output(_) => true,
            }),
    {
        let n = self.samples.len();
        if n == 0 {
            return Err(
                LightrayModelVerificationError::LightrayMissingSamples(LightrayMissingSamples {}),
            );
        }
        let mut i: usize = 0;
        while i < n
            invariant
                i <= n == self.samples@.len(),
                first_bad(self.executor.module, self.samples@, 0) == first_bad(
                    self.executor.module,
                    self.samples@,
                    i as nat,
                ),
            decreases n - i,
        {
            match self.executor.forward(&self.samples[i]) {
                Ok(_) => {},
                Err(e) => {
                    proof {
                        assert(!sample_ok(self.executor.module, self.samples@[i as int]));
                    }
                    return Err(LightrayModelVerificationError::InternalTorchError(e));
                },
            }
            i += 1;
        }
        Ok(())
    }

    /// Warm the JIT by forwarding `warmup_count` samples, cycling round-robin
    /// through the sample list. A round-robin pass over an empty sample list
    /// could never make progress, so a positive count demands a sample.
    #[verifier::loop_isolation(false)]
    pub fn warmup_jit(&self, warmup_count: u16) -> (r: Result<(), LightrayModelVerificationError>)
        requires
            warmup_count > 0 ==> self.samples@.len() >= 1,
        ensures
            r is Ok <==> match first_bad(self.executor.module, self.samples@, 0) {
                Option::None => true,
                Option::Some(j) => j >= warmup_count,
            },
    {
        let n = self.samples.len();
        if warmup_count == 0 {
            proof {
                lemma_first_bad_min(self.executor.module, self.samples@, 0);
            }
            return Ok(());
        }
        let mut c: u16 = 0;
        while c < warmup_count
            invariant
                warmup_count > 0,
                n == self.samples@.len() >= 1,
                c <= warmup_count,
                forall|m: int| 0 <= m < c && m < n ==> sample_ok(
                    self.executor.module,
                    self.samples@[m],
                ),
            decreases warmup_count - c,
        {
            let idx: usize = (c as usize) % n;
            proof {
                if c < n {
                    vstd::arithmetic::div_mod::lemma_small_mod(c as nat, n as nat);
                    assert(idx == c);
                } else {
                    vstd::arithmetic::div_mod::lemma_mod_bound(c as int, n as int);
                    assert(sample_ok(self.executor.module, self.samples@[idx as int]));
                }
            }
            match self.executor.forward(&self.samples[idx]) {
                Ok(_) => {
                    proof {
                        assert(sample_ok(self.executor.module, self.samples@[idx as int]));
                    }
                },
                Err(e) => {
                    proof {
                        assert(idx == c);
                        lemma_first_bad_at(self.executor.module, self.samples@, c as nat);
                    }
                    return Err(LightrayModelVerificationError::InternalTorchError(e));
                },
            }
            c += 1;
        }
        proof {
            lemma_first_bad_min(self.executor.module, self.samples@, 0);
        }
        Ok(())
    }

    /// Execute the model on an input: when asked, validate it against the
    /// first sample first; then forward it through the graph.
    pub fn execute(&self, input: &TorchScriptInput, do_semantic_verification: bool) -> (r: Result<
        SerializableIValue,
        LightrayModelExecutionError,
    >)
        requires
            self.wf(),
            do_semantic_verification ==> self.semantics_arity_ok(),
        ensures
            match self.spec_execute(input.deep_view(), do_semantic_verification) {
                ExecOutcome::Value(v) => r matches Ok(x) && x.deep_view() == v,
                ExecOutcome::Semantic(e) => r matches Err(
                    LightrayModelExecutionError::LightrayModelInputSemanticError(se),
                ) && se.view_spec() == e,
                ExecOutcome::Fwd(o) => match o {
                    ForwardOutcome::EngineError(m) => r matches Err(
                        LightrayModelExecutionError::InternalTorchScriptError(te),
                    ) && te.internal_error@ == m,
                    ForwardOutcome::OutputError => r matches Err(
                        LightrayModelExecutionError::InternalTorchScriptError(te),
                    ) && te.internal_error@ == "unsupported engine value"@,
                    ForwardOutcome::ConversionError => r matches Err(
                        LightrayModelExecutionError::InternalTorchScriptError(_),
                    ),
                    ForwardOutcome::Output(_) => true,
                },
            },
    {
        if do_semantic_verification {
            if let Err(x) = self.semantics.verify_semantics(input, &self.samples[0]) {
                return Err(LightrayModelExecutionError::LightrayModelInputSemanticError(x));
            }
        }
        match self.executor.forward(input) {
            Ok(x) => Ok(x),
            Err(y) => Err(LightrayModelExecutionError::InternalTorchScriptError(y)),
        }
    }
}

/// If every sample before `c` forwards and sample `c` does not, then `c` is
/// the first failing index.
proof fn lemma_first_bad_at<E: TorchEngine>(module: E, samples: Seq<TorchScriptInput>, c: nat)
    requires
        c < samples.len(),
        forall|m: int| 0 <= m < c ==> sample_ok(module, #[trigger] samples[m]),
        !sample_ok(module, samples[c as int]),
    ensures
        first_bad(module, samples, 0) == Some(c),
{
    lemma_first_bad_skip(module, samples, 0, c);
}

/// Scanning for the first failure can start anywhere below it.
proof fn lemma_first_bad_skip<E: TorchEngine>(
    module: E,
    samples: Seq<TorchScriptInput>,
    i: nat,
    c: nat,
)
    requires
        i <= c < samples.len(),
        forall|m: int| i <= m < c ==> sample_ok(module, #[trigger] samples[m]),
        !sample_ok(module, samples[c as int]),
    ensures
        first_bad(module, samples, i) == Some(c),
    decreases c - i,
{
    if i < c {
        lemma_first_bad_skip(module, samples, i + 1, c);
    }
}

/// The first failing index, when there is one, is below the sample count;
/// and when every sample is fine there is none.
proof fn lemma_first_bad_min<E: TorchEngine>(module: E, samples: Seq<TorchScriptInput>, i: nat)
    ensures
        first_bad(module, samples, i) matches Some(j) ==> i <= j < samples.len() && !sample_ok(
            module,
            samples[j as int],
        ) && forall|m: int| i <= m < j ==> sample_ok(module, #[trigger] samples[m]),
        first_bad(module, samples, i) is None ==> forall|m: int|
            i <= m < samples.len() ==> sample_ok(module, #[trigger] samples[m]),
    decreases samples.len() - i,
{
    if i < samples.len() && sample_ok(module, samples[i as int]) {
        lemma_first_bad_min(module, samples, i + 1);
    }
}

} // verus!

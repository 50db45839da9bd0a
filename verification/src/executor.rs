//! The model registry and executor: a table from model identifiers to shared
//! model records, and a concurrency-safe wrapper around it that times every
//! execution.

use std::sync::Arc;
use std::time::Instant;

use vstd::prelude::*;
use vstd::rwlock::RwLock;

use crate::engine::TorchEngine;
use crate::errors::{LightrayModelExecutionError, LightrayRegistrationError};
use crate::model::{ExecOutcome, LightrayModel, LightrayModelId};
use crate::statistics::LightrayModelExecutionStatistic;
use crate::value::{SerializableIValue, TorchScriptInput};

verus! {

/// One executed request: its timing and the value the model produced.
#[derive(Debug)]
pub struct LightrayExecutedExample {
    pub execution_statistic: LightrayModelExecutionStatistic,
    pub execution_result: SerializableIValue,
}

/// What an execution hands back: the executed example, or why it failed.
pub type LightrayExecutorResult = Result<LightrayExecutedExample, LightrayModelExecutionError>;

// ---------------------------------------------------------------------------
// Trusted boundary: shared handles and clocks
// ---------------------------------------------------------------------------

/// Relies on `Arc::clone`: the clone is a handle to the same value.
#[verifier::external_body]
fn arc_clone<T>(a: &Arc<T>) -> (r: Arc<T>)
    ensures
        r == *a,
{
    a.clone()
}

/// Relies on `Arc`'s `Deref`: borrowing through the handle yields the value
/// it holds.
#[verifier::external_body]
fn arc_borrow<T>(a: &Arc<T>) -> (r: &T)
    ensures
        *r == *a,
{
    &**a
}

#[verifier::external_type_specification]
#[verifier::external_body]
pub struct ExInstant(Instant);

/// Relies on `std::time::Instant::now`: an opaque reading of the monotonic
/// clock. Nothing is promised of its value.
#[verifier::external_body]
fn instant_now() -> Instant {
    Instant::now()
}

/// Relies on `std::time::Instant::elapsed`: nanoseconds of monotonic time
/// since the reading, saturated into 64 bits. The value depends on the
/// moment of the call, so nothing is promised of it.
#[verifier::external_body]
fn instant_elapsed_ns(earlier: &Instant) -> u64 {
    let nanos = earlier.elapsed().as_nanos();
    if nanos > u64::MAX as u128 {
        u64::MAX
    } else {
        nanos as u64
    }
}

/// Relies on `std::time::SystemTime::now`: nanoseconds of wall-clock time
/// since the epoch, saturated into 64 bits; zero if the clock reads before
/// the epoch. The value depends on the moment of the call, so nothing is
/// promised of it.
#[verifier::external_body]
pub(crate) fn wall_now_ns() -> u64 {
    match std::time::SystemTime::now().duration_since(std::time::UNIX_EPOCH) {
        Ok(d) => {
            let nanos = d.as_nanos();
            if nanos > u64::MAX as u128 {
                u64::MAX
            } else {
                nanos as u64
            }
        },
        Err(_) => 0,
    }
}

// ---------------------------------------------------------------------------
// The sequential table
// ---------------------------------------------------------------------------

/// The model a table holds under an identifier: the first entry carrying it.
pub open spec fn lookup<E: TorchEngine>(
    entries: Seq<(LightrayModelId, Arc<LightrayModel<E>>)>,
    id: LightrayModelId,
) -> Option<Arc<LightrayModel<E>>>
    decreases entries,
{
    if entries.len() == 0 {
        None
    } else if entries[0].0 == id {
        Some(entries[0].1)
    } else {
        lookup(entries.drop_first(), id)
    }
}

/// What executing against a table yields.
pub enum TableExecOutcome {
    Missing,
    Model(ExecOutcome),
}

/// What an execution against a table yields: the outcome of the model
/// registered under the identifier, or a missing-model verdict.
pub open spec fn spec_table_execute<E: TorchEngine>(
    entries: Seq<(LightrayModelId, Arc<LightrayModel<E>>)>,
    id: LightrayModelId,
    input: Seq<crate::value::IValueView>,
    verify: bool,
) -> TableExecOutcome {
    match lookup(entries, id) {
        Option::None => TableExecOutcome::Missing,
        Option::Some(m) => TableExecOutcome::Model(m.spec_execute(input, verify)),
    }
}

/// The registry's table: identifier-keyed entries holding shared model
/// records.
pub struct ModelTable<E: TorchEngine> {
    pub entries: Vec<(LightrayModelId, Arc<LightrayModel<E>>)>,
}

impl<E: TorchEngine> ModelTable<E> {
    /// Well-formedness: keys are unique, each entry's key names its model,
    /// and every model is well formed with semantics that fit its baseline.
    pub open spec fn wf(&self) -> bool {
        &&& forall|i: int, j: int|
            0 <= i < j < self.entries@.len() ==> (#[trigger] self.entries@[i]).0 != (
            #[trigger] self.entries@[j]).0
        &&& forall|i: int|
            0 <= i < self.entries@.len() ==> (#[trigger] self.entries@[i]).1.wf() && self.entries@[
                i
            ].1.id == self.entries@[i].0 && self.entries@[i].1.semantics_arity_ok()
    }

    /// An empty table.
    pub fn new() -> (r: ModelTable<E>)
        ensures
            r.wf(),
            r.entries@.len() == 0,
    {
        ModelTable { entries: Vec::new() }
    }

    /// The position of an identifier's entry, if present.
    #[verifier::loop_isolation(false)]
    fn position_of(&self, id: &LightrayModelId) -> (r: Option<usize>)
        ensures
            r is Some <==> lookup(self.entries@, *id) is Some,
            r matches Some(p) ==> p < self.entries@.len() && self.entries@[p as int].0 == *id
                && lookup(self.entries@, *id) == Some(self.entries@[p as int].1)
                && (forall|m: int| 0 <= m < p ==> (#[trigger] self.entries@[m]).0 != *id),
    {
        let n = self.entries.len();
        proof {
            assert(self.entries@.skip(0) =~= self.entries@);
        }
        let mut k: usize = 0;
        while k < n
            invariant
                k <= n == self.entries@.len(),
                forall|m: int| 0 <= m < k ==> (#[trigger] self.entries@[m]).0 != *id,
                lookup(self.entries@, *id) == lookup(self.entries@.skip(k as int), *id),
            decreases n - k,
        {
            proof {
                assert(self.entries@.skip(k as int)[0] == self.entries@[k as int]);
                assert(self.entries@.skip(k as int).drop_first() =~= self.entries@.skip(k + 1));
            }
            if self.entries[k].0 == *id {
                return Some(k);
            }
            k += 1;
        }
        proof {
            assert(self.entries@.skip(n as int) =~= Seq::<
                (LightrayModelId, Arc<LightrayModel<E>>),
            >::empty());
        }
        None
    }

    /// Insert a model under its identifier; an existing entry with that
    /// identifier is overwritten, last writer wins.
    #[verifier::loop_isolation(false)]
    pub fn insert_model(&mut self, model: Arc<LightrayModel<E>>)
        requires
            old(self).wf(),
            model.wf(),
            model.semantics_arity_ok(),
        ensures
            final(self).wf(),
            lookup(final(self).entries@, model.id) == Some(model),
            forall|other: LightrayModelId|
                other != model.id ==> #[trigger] lookup(final(self).entries@, other) == lookup(
                    old(self).entries@,
                    other,
                ),
    {
        let id = model.id_of();
        match self.position_of(&id) {
            Some(p) => {
                proof {
                    lemma_lookup_unique(self.entries@, p as int);
                    lemma_remove_wf(self.entries@, p as int);
                }
                let _ = self.entries.remove(p);
                proof {
                    lemma_remove_lookup(old(self).entries@, p as int);
                }
            },
            None => {},
        }
        let ghost mid = self.entries@;
        self.entries.push((id, model));
        proof {
            assert(self.entries@.drop_last() =~= mid);
            lemma_push_lookup(mid, (id, model));
            lemma_lookup_none_pointwise(mid, id);
            assert forall|i: int, j: int|
                0 <= i < j < self.entries@.len() implies (#[trigger] self.entries@[i]).0 != (
            #[trigger] self.entries@[j]).0 by {
                if j < self.entries@.len() - 1 {
                    assert(self.entries@[i] == mid[i]);
                    assert(self.entries@[j] == mid[j]);
                } else {
                    assert(self.entries@[j] == (id, model));
                    if i < self.entries@.len() - 1 {
                        assert(self.entries@[i] == mid[i]);
                    }
                }
            }
        }
    }

    /// Remove an identifier's entry; whether one was there is reported.
    pub fn remove_model(&mut self, id: &LightrayModelId) -> (r: bool)
        requires
            old(self).wf(),
        ensures
            final(self).wf(),
            r == (lookup(old(self).entries@, *id) is Some),
            lookup(final(self).entries@, *id) is None,
            forall|other: LightrayModelId|
                other != *id ==> #[trigger] lookup(final(self).entries@, other) == lookup(
                    old(self).entries@,
                    other,
                ),
    {
        match self.position_of(id) {
            Some(p) => {
                proof {
                    lemma_lookup_unique(self.entries@, p as int);
                    lemma_remove_wf(self.entries@, p as int);
                }
                let _ = self.entries.remove(p);
                proof {
                    lemma_remove_lookup(old(self).entries@, p as int);
                }
                true
            },
            None => false,
        }
    }

    /// A shared handle to the identifier's model, if present.
    pub fn lookup_arc(&self, id: &LightrayModelId) -> (r: Option<Arc<LightrayModel<E>>>)
        ensures
            r is Some <==> lookup(self.entries@, *id) is Some,
            r matches Some(m) ==> lookup(self.entries@, *id) == Some(m),
    {
        match self.position_of(id) {
            Some(p) => Some(arc_clone(&self.entries[p].1)),
            None => None,
        }
    }
}

impl<E: TorchEngine> LightrayModel<E> {
    /// The identifier of this model.
    pub fn id_of(&self) -> (r: LightrayModelId)
        ensures
            r == self.id,
    {
        LightrayModelId { model_id: self.id.model_id, model_version: self.id.model_version }
    }
}

/// In a table with unique keys, the entry found at the key's position is the
/// looked-up one, and no other entry carries the key.
proof fn lemma_lookup_unique<E: TorchEngine>(
    entries: Seq<(LightrayModelId, Arc<LightrayModel<E>>)>,
    p: int,
)
    requires
        0 <= p < entries.len(),
        forall|i: int, j: int|
            0 <= i < j < entries.len() ==> (#[trigger] entries[i]).0 != (#[trigger] entries[j]).0,
    ensures
        forall|m: int| 0 <= m < entries.len() && m != p ==> (#[trigger] entries[m]).0 != entries[
            p
        ].0,
{
}

/// Removing one entry removes exactly its key from the lookup.
proof fn lemma_remove_lookup<E: TorchEngine>(
    entries: Seq<(LightrayModelId, Arc<LightrayModel<E>>)>,
    p: int,
)
    requires
        0 <= p < entries.len(),
        forall|m: int| 0 <= m < entries.len() && m != p ==> (#[trigger] entries[m]).0 != entries[
            p
        ].0,
    ensures
        lookup(entries.remove(p), entries[p].0) is None,
        forall|other: LightrayModelId|
            other != entries[p].0 ==> #[trigger] lookup(entries.remove(p), other) == lookup(
                entries,
                other,
            ),
    decreases entries.len(),
{
    if p == 0 {
        assert(entries.remove(0) =~= entries.drop_first());
        assert forall|m: int|
            0 <= m < entries.drop_first().len() implies (#[trigger] entries.drop_first()[m]).0
            != entries[0].0 by {
            assert(entries.drop_first()[m] == entries[m + 1]);
        }
        lemma_lookup_absent(entries.drop_first(), entries[0].0);
        assert forall|other: LightrayModelId| other != entries[0].0 implies #[trigger] lookup(
            entries.remove(0),
            other,
        ) == lookup(entries, other) by {
            assert(lookup(entries, other) == lookup(entries.drop_first(), other));
        }
    } else {
        assert(entries.remove(p).drop_first() =~= entries.drop_first().remove(p - 1));
        assert(entries.remove(p)[0] == entries[0]);
        assert(entries.drop_first()[p - 1] == entries[p]);
        assert forall|m: int|
            0 <= m < entries.drop_first().len() && m != p - 1 implies (
        #[trigger] entries.drop_first()[m]).0 != entries.drop_first()[p - 1].0 by {
            assert(entries.drop_first()[m] == entries[m + 1]);
        }
        lemma_remove_lookup(entries.drop_first(), p - 1);
        assert(entries.remove(p).len() > 0);
        assert forall|other: LightrayModelId| other != entries[p].0 implies #[trigger] lookup(
            entries.remove(p),
            other,
        ) == lookup(entries, other) by {
            if entries[0].0 == other {
            } else {
                assert(lookup(entries.remove(p), other) == lookup(
                    entries.remove(p).drop_first(),
                    other,
                ));
                assert(lookup(entries, other) == lookup(entries.drop_first(), other));
            }
        }
        assert(lookup(entries.remove(p), entries[p].0) is None) by {
            assert(entries.remove(p)[0] == entries[0]);
            assert(entries[0].0 != entries[p].0);
        }
    }
}

/// A key carried by no entry is not found.
proof fn lemma_lookup_absent<E: TorchEngine>(
    entries: Seq<(LightrayModelId, Arc<LightrayModel<E>>)>,
    id: LightrayModelId,
)
    requires
        forall|m: int| 0 <= m < entries.len() ==> (#[trigger] entries[m]).0 != id,
    ensures
        lookup(entries, id) is None,
    decreases entries.len(),
{
    if entries.len() > 0 {
        lemma_lookup_absent(entries.drop_first(), id);
    }
}

/// Appending an entry whose key is absent makes it found, and changes no
/// other key.
proof fn lemma_push_lookup<E: TorchEngine>(
    entries: Seq<(LightrayModelId, Arc<LightrayModel<E>>)>,
    e: (LightrayModelId, Arc<LightrayModel<E>>),
)
    requires
        lookup(entries, e.0) is None,
    ensures
        lookup(entries.push(e), e.0) == Some(e.1),
        forall|other: LightrayModelId|
            other != e.0 ==> #[trigger] lookup(entries.push(e), other) == lookup(entries, other),
    decreases entries.len(),
{
    if entries.len() == 0 {
        assert(entries.push(e)[0] == e);
        assert(entries.push(e).drop_first() =~= Seq::<
            (LightrayModelId, Arc<LightrayModel<E>>),
        >::empty());
        assert forall|other: LightrayModelId| other != e.0 implies #[trigger] lookup(
            entries.push(e),
            other,
        ) == lookup(entries, other) by {
            assert(lookup(entries.push(e), other) == lookup(
                entries.push(e).drop_first(),
                other,
            ));
        }
    } else {
        assert(entries.push(e)[0] == entries[0]);
        assert(entries.push(e).drop_first() =~= entries.drop_first().push(e));
        lemma_push_lookup(entries.drop_first(), e);
        assert forall|other: LightrayModelId| other != e.0 implies #[trigger] lookup(
            entries.push(e),
            other,
        ) == lookup(entries, other) by {
            if entries[0].0 == other {
            } else {
                assert(lookup(entries.push(e), other) == lookup(
                    entries.push(e).drop_first(),
                    other,
                ));
                assert(lookup(entries, other) == lookup(entries.drop_first(), other));
            }
        }
    }
}

/// A key that is not found is carried by no entry.
proof fn lemma_lookup_none_pointwise<E: TorchEngine>(
    entries: Seq<(LightrayModelId, Arc<LightrayModel<E>>)>,
    id: LightrayModelId,
)
    requires
        lookup(entries, id) is None,
    ensures
        forall|m: int| 0 <= m < entries.len() ==> (#[trigger] entries[m]).0 != id,
    decreases entries.len(),
{
    if entries.len() > 0 {
        lemma_lookup_none_pointwise(entries.drop_first(), id);
        assert forall|m: int| 0 <= m < entries.len() implies (#[trigger] entries[m]).0 != id by {
            if m > 0 {
                assert(entries.drop_first()[m - 1] == entries[m]);
            }
        }
    }
}

/// Looking a model up in a well-formed table yields a well-formed model
/// named by the key.
proof fn lemma_lookup_in_table<E: TorchEngine>(
    entries: Seq<(LightrayModelId, Arc<LightrayModel<E>>)>,
    id: LightrayModelId,
)
    requires
        forall|i: int|
            0 <= i < entries.len() ==> (#[trigger] entries[i]).1.wf() && entries[i].1.id == entries[
                i
            ].0 && entries[i].1.semantics_arity_ok(),
    ensures
        lookup(entries, id) matches Some(m) ==> m.wf() && m.id == id && m.semantics_arity_ok(),
    decreases entries.len(),
{
    if entries.len() > 0 {
        assert(entries[0] == entries[0]);
        assert forall|i: int|
            0 <= i < entries.drop_first().len() implies (#[trigger] entries.drop_first()[
            i
        ]).1.wf() && entries.drop_first()[i].1.id == entries.drop_first()[i].0
            && entries.drop_first()[i].1.semantics_arity_ok() by {
            assert(entries.drop_first()[i] == entries[i + 1]);
        }
        lemma_lookup_in_table(entries.drop_first(), id);
    }
}

/// Removing an entry keeps a table well formed.
proof fn lemma_remove_wf<E: TorchEngine>(
    entries: Seq<(LightrayModelId, Arc<LightrayModel<E>>)>,
    p: int,
)
    requires
        0 <= p < entries.len(),
        forall|i: int, j: int|
            0 <= i < j < entries.len() ==> (#[trigger] entries[i]).0 != (#[trigger] entries[j]).0,
        forall|i: int|
            0 <= i < entries.len() ==> (#[trigger] entries[i]).1.wf() && entries[i].1.id == entries[
                i
            ].0 && entries[i].1.semantics_arity_ok(),
    ensures
        forall|i: int, j: int|
            0 <= i < j < entries.remove(p).len() ==> (#[trigger] entries.remove(p)[i]).0 != (
            #[trigger] entries.remove(p)[j]).0,
        forall|i: int|
            0 <= i < entries.remove(p).len() ==> (#[trigger] entries.remove(p)[i]).1.wf()
                && entries.remove(p)[i].1.id == entries.remove(p)[i].0 && entries.remove(p)[
                i
            ].1.semantics_arity_ok(),
{
    entries.remove_ensures(p);
}

// ---------------------------------------------------------------------------
// The concurrent executor
// ---------------------------------------------------------------------------

/// The registry: a reader-writer lock over the model table, holding its
/// well-formedness as the lock invariant, so that registration, deletion and
/// execution are safe under concurrent callers.
#[verifier::reject_recursive_types(E)]
pub struct InMemorySimpleLightrayExecutor<E: TorchEngine> {
    pub in_memory_mapping: RwLock<ModelTable<E>, spec_fn(ModelTable<E>) -> bool>,
}

impl<E: TorchEngine> InMemorySimpleLightrayExecutor<E> {
    /// The lock admits exactly the well-formed tables.
    pub open spec fn wf(&self) -> bool {
        forall|t: ModelTable<E>| self.in_memory_mapping.inv(t) == t.wf()
    }

    /// An executor over an empty registry.
    pub fn new() -> (r: InMemorySimpleLightrayExecutor<E>)
        ensures
            r.wf(),
    {
        let table = ModelTable::new();
        InMemorySimpleLightrayExecutor {
            in_memory_mapping: RwLock::new(table, Ghost(|t: ModelTable<E>| t.wf())),
        }
    }

    /// Register a model under its identifier; an existing registration is
    /// overwritten, last writer wins. The model was verified when it was
    /// built.
    pub fn register_model(&self, model: LightrayModel<E>) -> (r: Result<
        LightrayModelId,
        LightrayRegistrationError,
    >)
        requires
            self.wf(),
            model.wf(),
            model.semantics_arity_ok(),
        ensures
            r matches Ok(id) && id == model.id,
    {
        let model_id_clone = model.id_of();
        let (mut table, handle) = self.in_memory_mapping.acquire_write();
        table.insert_model(Arc::new(model));
        handle.release_write(table);
        Ok(model_id_clone)
    }

    /// Delete a model's registration; deleting an unknown identifier is the
    /// caller's error. A live handle obtained before the deletion keeps
    /// working.
    pub fn delete_model(&self, model_id: LightrayModelId) -> (r: Result<
        (),
        LightrayRegistrationError,
    >)
        requires
            self.wf(),
        ensures
            r is Ok || r matches Err(LightrayRegistrationError::MissingModel),
    {
        let (mut table, handle) = self.in_memory_mapping.acquire_write();
        let found = table.remove_model(&model_id);
        handle.release_write(table);
        if found {
            Ok(())
        } else {
            Err(LightrayRegistrationError::MissingModel)
        }
    }

    /// What the executor promises of an execution's result: a produced value,
    /// a semantic rejection or an engine failure comes from a well-formed
    /// model registered under the identifier; an unknown identifier is
    /// reported as missing; the registry lock never poisons.
    pub open spec fn spec_execute_post(
        r: Result<LightrayExecutedExample, LightrayModelExecutionError>,
        model_id: LightrayModelId,
        input: Seq<crate::value::IValueView>,
        verify: bool,
    ) -> bool {
        match r {
            Ok(ex) => exists|m: LightrayModel<E>|
                {
                    &&& m.wf()
                    &&& m.id == model_id
                    &&& (#[trigger] m.spec_execute(input, verify)) matches ExecOutcome::Value(v)
                    &&& ex.execution_result.deep_view() == v
                },
            Err(LightrayModelExecutionError::LightrayModelInputSemanticError(se)) => exists|
                m: LightrayModel<E>,
            |
                {
                    &&& m.wf()
                    &&& m.id == model_id
                    &&& (#[trigger] m.spec_execute(input, verify)) matches ExecOutcome::Semantic(e)
                    &&& se.view_spec() == e
                },
            Err(LightrayModelExecutionError::InternalTorchScriptError(_)) => exists|
                m: LightrayModel<E>,
            |
                {
                    &&& m.wf()
                    &&& m.id == model_id
                    &&& (#[trigger] m.spec_execute(input, verify)) matches ExecOutcome::Fwd(_)
                },
            Err(LightrayModelExecutionError::MissingModel) => true,
            Err(LightrayModelExecutionError::Poison) => false,
        }
    }

    /// Execute a model on an input: look the model up under a shared lock,
    /// let the lock go before the engine runs, execute, and report the
    /// result with its timing. The model seen is one that was registered
    /// under the identifier; when none is, the caller made the identifier
    /// up or the model was deleted.
    pub fn execute(
        &self,
        model_id: &LightrayModelId,
        example: &TorchScriptInput,
        do_semantic_verification: bool,
    ) -> (r: Result<LightrayExecutedExample, LightrayModelExecutionError>)
        requires
            self.wf(),
        ensures
            Self::spec_execute_post(
                r,
                *model_id,
                example.deep_view(),
                do_semantic_verification,
            ),
    {
        let read_handle = self.in_memory_mapping.acquire_read();
        let table = read_handle.borrow();
        let ghost entries = table.entries@;
        proof {
            assert(table.wf());
            lemma_lookup_in_table(entries, *model_id);
        }
        let model_opt = table.lookup_arc(model_id);
        read_handle.release_read();
        let model = match model_opt {
            Some(m) => m,
            None => {
                return Err(LightrayModelExecutionError::MissingModel);
            },
        };
        let system_start_time = wall_now_ns();
        let instant_start_time = instant_now();
        let model_ref = arc_borrow(&model);
        let model_output = model_ref.execute(example, do_semantic_verification);
        let elapsed = instant_elapsed_ns(&instant_start_time);
        let system_end_time = wall_now_ns();
        match model_output {
            Ok(output_value) => Ok(
                LightrayExecutedExample {
                    execution_statistic: LightrayModelExecutionStatistic {
                        elapsed_execution_time: elapsed,
                        start_execution_time: system_start_time,
                        end_execution_time: system_end_time,
                    },
                    execution_result: output_value,
                },
            ),
            Err(error) => Err(error),
        }
    }
}

// ---------------------------------------------------------------------------
// Registration laws
// ---------------------------------------------------------------------------

/// Registering then executing: once a table holds a model under its
/// identifier, executing that identifier yields exactly what the model's own
/// execution yields — with validation off, exactly the graph's forward pass
/// on the input.
pub proof fn lemma_register_then_execute<E: TorchEngine>(
    entries: Seq<(LightrayModelId, Arc<LightrayModel<E>>)>,
    model: Arc<LightrayModel<E>>,
    input: Seq<crate::value::IValueView>,
    verify: bool,
)
    requires
        lookup(entries, model.id) == Some(model),
    ensures
        spec_table_execute(entries, model.id, input, verify) == TableExecOutcome::Model(
            model.spec_execute(input, verify),
        ),
        !verify ==> spec_table_execute(entries, model.id, input, false) == TableExecOutcome::Model(
            match crate::engine::spec_graph_forward(model.executor.module, input) {
                crate::engine::ForwardOutcome::Output(v) => ExecOutcome::Value(v),
                o => ExecOutcome::Fwd(o),
            },
        ),
{
}

/// Deleting then executing: once a table no longer holds an identifier,
/// executing it reports a missing model.
pub proof fn lemma_delete_then_execute<E: TorchEngine>(
    entries: Seq<(LightrayModelId, Arc<LightrayModel<E>>)>,
    id: LightrayModelId,
    input: Seq<crate::value::IValueView>,
    verify: bool,
)
    requires
        lookup(entries, id) is None,
    ensures
        spec_table_execute(entries, id, input, verify) == TableExecOutcome::Missing,
{
}

} // verus!

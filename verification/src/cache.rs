//! A cache over executed examples, declared for users of the library to
//! implement: a lookup that may answer a request without running the engine,
//! and a hint that offers a finished result for keeping.

use vstd::prelude::*;

use crate::executor::LightrayExecutorResult;
use crate::model::LightrayModelId;
use crate::value::{SerializableIValue, TorchScriptInput};

verus! {

/// A pluggable cache of executions, keyed by model and input.
pub trait LightrayCaching {
    /// A cached result for the request, if the cache holds one.
    fn try_read(
        &mut self,
        model_id: &LightrayModelId,
        model_input: &TorchScriptInput,
    ) -> Option<LightrayExecutorResult>;

    /// Offer a finished execution for keeping; reports whether it was kept.
    fn hint_cache(
        &mut self,
        model_id: &LightrayModelId,
        model_input: &TorchScriptInput,
        model_output: &SerializableIValue,
    ) -> bool;
}

} // verus!

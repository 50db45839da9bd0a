use lightray::engine::{EchoEngine, TorchScriptGraph};
use lightray::errors::{
    LightrayModelExecutionError, LightrayModelInputSemanticError, LightrayRegistrationError,
};
use lightray::executor::{InMemorySimpleLightrayExecutor, LightrayExecutedExample, ModelTable};
use lightray::json::from_json;
use lightray::model::{LightrayModel, LightrayModelId};
use lightray::semantics::{LightrayIValueSemantic, LightrayModelSemantics};
use lightray::value::{SerializableIValue, TorchScriptInput};

static GENERIC_TEXT_BASED_MODEL_INPUT: &'static str = "{\"positional_arguments\":\n [{\"List\":[{\"Str\":\"<bos>\"},{\"Str\":\"call\"},{\"Str\":\"mom\"},{\"Str\":\"<eos>\"}]},\n {\"Int\":3},\n {\"Int\":3}]}";

fn generic_text_based_model_input() -> TorchScriptInput {
    TorchScriptInput {
        positional_arguments: vec![
            SerializableIValue::List(vec![
                SerializableIValue::Str("<bos>".to_string()),
                SerializableIValue::Str("call".to_string()),
                SerializableIValue::Str("mom".to_string()),
                SerializableIValue::Str("<eos>".to_string()),
            ]),
            SerializableIValue::Int(3),
            SerializableIValue::Int(3),
        ],
    }
}

fn generic_text_based_model_semantics() -> LightrayModelSemantics {
    LightrayModelSemantics {
        positional_semantics: vec![
            LightrayIValueSemantic::TypeMatch,
            LightrayIValueSemantic::ExactValueMatch,
            LightrayIValueSemantic::ExactValueMatch,
        ],
    }
}

fn generic_text_based_model(model_id: u128) -> LightrayModel<EchoEngine> {
    let graph = TorchScriptGraph {
        batchable: false,
        module: EchoEngine,
    };
    let lightray_id = LightrayModelId {
        model_id,
        model_version: 0,
    };
    LightrayModel::new(
        lightray_id,
        graph,
        vec![generic_text_based_model_input()],
        generic_text_based_model_semantics(),
    )
    .unwrap()
}

fn expected_output() -> SerializableIValue {
    SerializableIValue::List(vec![
        SerializableIValue::Str("<bos>".to_string()),
        SerializableIValue::Str("call".to_string()),
        SerializableIValue::Str("mom".to_string()),
        SerializableIValue::Str("<eos>".to_string()),
    ])
}

#[test]
fn lightray_generic_text_based_model() {
    let lightray_model = generic_text_based_model(1234);
    assert!(!lightray_model.verify().is_err());
    assert!(!lightray_model.warmup_jit(100).is_err());
    assert_eq!(
        lightray_model
            .execute(&generic_text_based_model_input(), false)
            .unwrap(),
        expected_output()
    )
}

#[test]
fn lightray_executor_test_lightray_generic_text_based_model() {
    let lightray_model = generic_text_based_model(99);
    assert!(!lightray_model.verify().is_err());
    assert!(!lightray_model.warmup_jit(100).is_err());
    assert_eq!(
        lightray_model
            .execute(&generic_text_based_model_input(), false)
            .unwrap(),
        expected_output()
    )
}

#[test]
fn simple_executor_generic_text_based_model() {
    let executor = InMemorySimpleLightrayExecutor::new();
    let lightray_model = generic_text_based_model(1234);

    let register_result = executor.register_model(lightray_model);
    assert!(register_result.is_ok());
    let model_id = register_result.unwrap();

    let output_exec = executor.execute(&model_id, &generic_text_based_model_input(), false);
    assert!(output_exec.is_ok());

    let raw_output: LightrayExecutedExample = output_exec.unwrap();

    assert!((raw_output.execution_statistic.elapsed_execution_time % 1_000_000_000) / 1_000_000 < 1);
    assert_eq!(raw_output.execution_result, expected_output());
}

#[test]
fn lightray_executor_test_simple_executor_generic_text_based_model() {
    let executor = InMemorySimpleLightrayExecutor::new();
    let lightray_model = generic_text_based_model(4321);

    let register_result = executor.register_model(lightray_model);
    assert!(register_result.is_ok());
    let model_id = register_result.unwrap();

    let output_exec = executor.execute(&model_id, &generic_text_based_model_input(), false);
    assert!(output_exec.is_ok());

    let raw_output: LightrayExecutedExample = output_exec.unwrap();

    assert!((raw_output.execution_statistic.elapsed_execution_time % 1_000_000_000) / 1_000_000 < 1);
    assert_eq!(raw_output.execution_result, expected_output());
}

#[test]
fn text_simple_executor_generic_text_based_model() {
    let executor = InMemorySimpleLightrayExecutor::new();
    let register_result = executor.register_model(generic_text_based_model(1234));
    let model_input: TorchScriptInput = from_json(GENERIC_TEXT_BASED_MODEL_INPUT).unwrap();
    let raw_output: LightrayExecutedExample = executor
        .execute(&register_result.unwrap(), &model_input, false)
        .unwrap();
    assert_eq!(raw_output.execution_result, expected_output());
}

#[test]
fn lightray_executor_test_text_simple_executor_generic_text_based_model() {
    let executor = InMemorySimpleLightrayExecutor::new();
    let register_result = executor.register_model(generic_text_based_model(77));
    let model_input: TorchScriptInput = from_json(GENERIC_TEXT_BASED_MODEL_INPUT).unwrap();
    let raw_output: LightrayExecutedExample = executor
        .execute(&register_result.unwrap(), &model_input, false)
        .unwrap();
    assert_eq!(raw_output.execution_result, expected_output());
}

fn wrong_first_type_input() -> TorchScriptInput {
    TorchScriptInput {
        positional_arguments: vec![
            SerializableIValue::Tuple(vec![
                SerializableIValue::Str("<bos>".to_string()),
                SerializableIValue::Str("call".to_string()),
                SerializableIValue::Str("mom".to_string()),
                SerializableIValue::Str("<eos>".to_string()),
            ]),
            SerializableIValue::Int(3),
            SerializableIValue::Int(3),
        ],
    }
}

fn wrong_sized_input() -> TorchScriptInput {
    TorchScriptInput {
        positional_arguments: vec![
            SerializableIValue::Tuple(vec![
                SerializableIValue::Str("<bos>".to_string()),
                SerializableIValue::Str("call".to_string()),
                SerializableIValue::Str("mom".to_string()),
                SerializableIValue::Str("<eos>".to_string()),
            ]),
            SerializableIValue::Int(3),
            SerializableIValue::Int(3),
            SerializableIValue::Int(3),
        ],
    }
}

#[test]
fn test_lightray_model_semantics() {
    let model = generic_text_based_model(1234);

    match model.execute(&wrong_first_type_input(), true) {
        Result::Ok(_x) => assert!(false, "failed for LightrayVerificationInputTypes"),
        Result::Err(y) => match y {
            LightrayModelExecutionError::LightrayModelInputSemanticError(z) => match z {
                LightrayModelInputSemanticError::LightrayVerificationInputTypes(_) => (),
                _ => assert!(false, "failed for LightrayVerificationInputTypes"),
            },
            _ => assert!(false, "failed for LightrayVerificationInputTypes"),
        },
    }
    match model.execute(&wrong_sized_input(), true) {
        Result::Ok(_x) => assert!(false, "failed for LightrayVerificationInputSize"),
        Result::Err(y) => match y {
            LightrayModelExecutionError::LightrayModelInputSemanticError(z) => match z {
                LightrayModelInputSemanticError::LightrayVerificationInputSize(_) => (),
                _ => assert!(false, "failed for LightrayVerificationInputSize"),
            },
            _ => assert!(false, "failed for LightrayVerificationInputSize"),
        },
    }
}

#[test]
fn lightray_executor_test_test_lightray_model_semantics() {
    let model = generic_text_based_model(555);
    match model.execute(&wrong_first_type_input(), true) {
        Result::Ok(_x) => assert!(false, "failed for LightrayVerificationInputTypes"),
        Result::Err(y) => match y {
            LightrayModelExecutionError::LightrayModelInputSemanticError(z) => match z {
                LightrayModelInputSemanticError::LightrayVerificationInputTypes(_) => (),
                _ => assert!(false, "failed for LightrayVerificationInputTypes"),
            },
            _ => assert!(false, "failed for LightrayVerificationInputTypes"),
        },
    }
    match model.execute(&wrong_sized_input(), true) {
        Result::Ok(_x) => assert!(false, "failed for LightrayVerificationInputSize"),
        Result::Err(y) => match y {
            LightrayModelExecutionError::LightrayModelInputSemanticError(z) => match z {
                LightrayModelInputSemanticError::LightrayVerificationInputSize(_) => (),
                _ => assert!(false, "failed for LightrayVerificationInputSize"),
            },
            _ => assert!(false, "failed for LightrayVerificationInputSize"),
        },
    }
}

#[test]
fn torchscript_generic_text_based_model() {
    let graph = TorchScriptGraph {
        batchable: false,
        module: EchoEngine,
    };
    let valid_input = generic_text_based_model_input();
    let model_output = graph.forward(&valid_input).unwrap();
    assert_eq!(model_output, expected_output());
}

#[test]
fn execute_missing_model() {
    let executor: InMemorySimpleLightrayExecutor<EchoEngine> =
        InMemorySimpleLightrayExecutor::new();
    let random_id = LightrayModelId {
        model_id: 0xDEAD_BEEF_0123,
        model_version: 7,
    };
    match executor.execute(&random_id, &generic_text_based_model_input(), false) {
        Err(LightrayModelExecutionError::MissingModel) => (),
        _ => panic!("an unknown model must report MissingModel"),
    }
}

#[test]
fn delete_then_execute_reports_missing() {
    let executor = InMemorySimpleLightrayExecutor::new();
    let model_id = executor
        .register_model(generic_text_based_model(42))
        .unwrap();
    assert!(executor
        .execute(&model_id, &generic_text_based_model_input(), false)
        .is_ok());
    assert!(executor.delete_model(model_id).is_ok());
    match executor.execute(&model_id, &generic_text_based_model_input(), false) {
        Err(LightrayModelExecutionError::MissingModel) => (),
        _ => panic!("a deleted model must report MissingModel"),
    }
    match executor.delete_model(model_id) {
        Err(LightrayRegistrationError::MissingModel) => (),
        _ => panic!("deleting twice must report MissingModel"),
    }
}

#[test]
fn register_overwrites_previous_model() {
    let executor = InMemorySimpleLightrayExecutor::new();
    let first = executor.register_model(generic_text_based_model(5)).unwrap();
    let second = executor.register_model(generic_text_based_model(5)).unwrap();
    assert_eq!(first, second);
    assert!(executor
        .execute(&first, &generic_text_based_model_input(), false)
        .is_ok());
    assert!(executor.delete_model(first).is_ok());
    match executor.delete_model(first) {
        Err(LightrayRegistrationError::MissingModel) => (),
        _ => panic!("the overwrite must leave a single registration"),
    }
}

#[test]
fn held_model_survives_deletion() {
    let mut table: ModelTable<EchoEngine> = ModelTable::new();
    let model = generic_text_based_model(9);
    let id = model.id;
    table.insert_model(std::sync::Arc::new(model));
    let held = table.lookup_arc(&id).unwrap();
    assert!(table.remove_model(&id));
    assert!(table.lookup_arc(&id).is_none());
    let out = held.execute(&generic_text_based_model_input(), false).unwrap();
    assert_eq!(out, expected_output());
}

#[test]
fn forward_batched_fails_fast() {
    let graph = TorchScriptGraph {
        batchable: true,
        module: EchoEngine,
    };
    let err = graph.forward_batched().unwrap_err();
    assert_eq!(err.internal_error, "not implemented");
}

#[test]
fn missing_samples_is_rejected() {
    let graph = TorchScriptGraph {
        batchable: false,
        module: EchoEngine,
    };
    let id = LightrayModelId {
        model_id: 1,
        model_version: 0,
    };
    match LightrayModel::new(id, graph, vec![], generic_text_based_model_semantics()) {
        Err(lightray::errors::LightrayModelVerificationError::LightrayMissingSamples(e)) => {
            assert_eq!(
                e.message(),
                "LightrayModel is missing samples to verify/warmup TorchScript models"
            );
        }
        _ => panic!("a model without samples must be rejected"),
    }
}

#[test]
fn semantic_error_messages() {
    let model = generic_text_based_model(1234);
    match model.execute(&wrong_sized_input(), true) {
        Err(LightrayModelExecutionError::LightrayModelInputSemanticError(e)) => {
            assert_eq!(e.message(), "LightrayModel expected 4 inputs but instead got 3");
        }
        _ => panic!("expected an arity error"),
    }
    match model.execute(&wrong_first_type_input(), true) {
        Err(LightrayModelExecutionError::LightrayModelInputSemanticError(e)) => {
            assert_eq!(
                e.message(),
                "LightrayModel input does not match the correct type at position 0"
            );
        }
        _ => panic!("expected a type error"),
    }
}

#[test]
fn semantic_exact_value_mismatch() {
    let model = generic_text_based_model(12);
    let mut input = generic_text_based_model_input();
    input.positional_arguments[1] = SerializableIValue::Int(4);
    match model.execute(&input, true) {
        Err(LightrayModelExecutionError::LightrayModelInputSemanticError(
            LightrayModelInputSemanticError::LightrayVerificationInputDoesNotEqual(e),
        )) => {
            assert_eq!(e.argument_position, 1);
            assert_eq!(e.value, SerializableIValue::Int(3));
        }
        _ => panic!("a changed exact-match argument must be rejected"),
    }
}

#[test]
fn semantic_size_mismatch() {
    let graph = TorchScriptGraph {
        batchable: false,
        module: EchoEngine,
    };
    let sample = TorchScriptInput {
        positional_arguments: vec![SerializableIValue::List(vec![
            SerializableIValue::Int(1),
            SerializableIValue::Int(2),
        ])],
    };
    let model = LightrayModel::new(
        LightrayModelId {
            model_id: 13,
            model_version: 0,
        },
        graph,
        vec![sample],
        LightrayModelSemantics {
            positional_semantics: vec![LightrayIValueSemantic::SizeMatch],
        },
    )
    .unwrap();
    let short = TorchScriptInput {
        positional_arguments: vec![SerializableIValue::List(vec![SerializableIValue::Int(9)])],
    };
    match model.execute(&short, true) {
        Err(LightrayModelExecutionError::LightrayModelInputSemanticError(
            LightrayModelInputSemanticError::LightrayVerificationInputSizeDoesNotEqual(e),
        )) => {
            assert_eq!(e.argument_position, 0);
            assert_eq!(e.expected_input_size, 2);
        }
        _ => panic!("a changed element count must be rejected under a size match"),
    }
}

#[test]
fn engine_failure_surfaces_in_verification() {
    let graph = TorchScriptGraph {
        batchable: false,
        module: EchoEngine,
    };
    let empty_sample = TorchScriptInput {
        positional_arguments: vec![],
    };
    match LightrayModel::new(
        LightrayModelId {
            model_id: 14,
            model_version: 0,
        },
        graph,
        vec![empty_sample],
        LightrayModelSemantics {
            positional_semantics: vec![],
        },
    ) {
        Err(lightray::errors::LightrayModelVerificationError::InternalTorchError(e)) => {
            assert_eq!(e.internal_error, "echo engine needs at least one argument");
        }
        _ => panic!("a sample the engine rejects must fail verification"),
    }
}

#[test]
fn engine_failure_surfaces_in_execution() {
    let model = generic_text_based_model(15);
    let empty = TorchScriptInput {
        positional_arguments: vec![],
    };
    match model.execute(&empty, false) {
        Err(LightrayModelExecutionError::InternalTorchScriptError(e)) => {
            assert_eq!(e.internal_error, "echo engine needs at least one argument");
        }
        _ => panic!("an engine failure must surface as an execution error"),
    }
}

#[test]
fn warmup_cycles_in_sample_order() {
    // Build the record directly so that the second sample is one the engine
    // rejects: a warmup that never reaches it succeeds, one that does fails.
    let model = LightrayModel {
        id: LightrayModelId {
            model_id: 16,
            model_version: 0,
        },
        executor: TorchScriptGraph {
            batchable: false,
            module: EchoEngine,
        },
        samples: vec![
            generic_text_based_model_input(),
            TorchScriptInput {
                positional_arguments: vec![],
            },
        ],
        semantics: generic_text_based_model_semantics(),
    };
    assert!(model.warmup_jit(0).is_ok());
    assert!(model.warmup_jit(1).is_ok());
    assert!(model.warmup_jit(2).is_err());
    assert!(model.verify().is_err());
}

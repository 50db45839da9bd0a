use lightray::engine::{EchoEngine, TorchScriptGraph};
use lightray::executor::InMemorySimpleLightrayExecutor;
use lightray::model::{LightrayModel, LightrayModelId};
use lightray::scheduler::{finish_enqueue, LightrayFIFOWorkQueue};
use lightray::semantics::{LightrayIValueSemantic, LightrayModelSemantics};
use lightray::statistics::SchedulerStatistics;
use lightray::value::{SerializableIValue, TorchScriptInput};

fn echo_input(text: &str) -> TorchScriptInput {
    TorchScriptInput {
        positional_arguments: vec![
            SerializableIValue::List(vec![SerializableIValue::Str(text.to_string())]),
            SerializableIValue::Int(3),
        ],
    }
}

fn echo_model(model_id: u128) -> LightrayModel<EchoEngine> {
    LightrayModel::new(
        LightrayModelId {
            model_id,
            model_version: 0,
        },
        TorchScriptGraph {
            batchable: false,
            module: EchoEngine,
        },
        vec![echo_input("sample")],
        LightrayModelSemantics {
            positional_semantics: vec![
                LightrayIValueSemantic::TypeMatch,
                LightrayIValueSemantic::TypeMatch,
            ],
        },
    )
    .unwrap()
}

#[test]
fn scheduler_runs_work_in_fifo_order() {
    let executor = InMemorySimpleLightrayExecutor::new();
    let model_id = executor.register_model(echo_model(1)).unwrap();
    let mut queue = LightrayFIFOWorkQueue::new(executor, false);

    // Ten producers, each submitting ten requests: the pushes interleave, and
    // the ticket order is the order in which the pushes succeeded.
    let mut tickets: Vec<u64> = Vec::new();
    for round in 0..10u32 {
        for producer in 0..10u32 {
            let text = format!("producer {} round {}", producer, round);
            tickets.push(queue.enqueue_work(echo_input(&text), model_id));
        }
    }
    assert_eq!(tickets.len(), 100);

    let mut served: Vec<u64> = Vec::new();
    while let Some((ticket, result)) = queue.worker_step() {
        assert!(result.is_ok());
        served.push(ticket);
    }
    assert_eq!(served, tickets);
    assert!(queue.worker_step().is_none());
}

#[test]
fn scheduler_reports_results_per_ticket() {
    let executor = InMemorySimpleLightrayExecutor::new();
    let model_id = executor.register_model(echo_model(2)).unwrap();
    let mut queue = LightrayFIFOWorkQueue::new(executor, false);

    let t1 = queue.enqueue_work(echo_input("first"), model_id);
    let t2 = queue.enqueue_work(echo_input("second"), model_id);
    assert!(t1 < t2);

    let (ticket, result) = queue.worker_step().unwrap();
    assert_eq!(ticket, t1);
    let example = result.unwrap();
    assert_eq!(
        example.execution_result,
        SerializableIValue::List(vec![SerializableIValue::Str("first".to_string())])
    );

    let (ticket, result) = queue.worker_step().unwrap();
    assert_eq!(ticket, t2);
    let example = result.unwrap();
    assert_eq!(
        example.execution_result,
        SerializableIValue::List(vec![SerializableIValue::Str("second".to_string())])
    );
}

#[test]
fn scheduler_statistics_from_readings() {
    let stats = SchedulerStatistics::from_readings(100, 350, 7, 9, 4);
    assert_eq!(stats.time_spent_in_queue, 250);
    assert_eq!(stats.start_time_in_queue, 7);
    assert_eq!(stats.end_time_in_queue, 9);
    assert_eq!(stats.number_of_elements_in_queue, 4);

    let backwards = SchedulerStatistics::from_readings(350, 100, 7, 9, 0);
    assert_eq!(backwards.time_spent_in_queue, 0);
}

#[test]
fn finish_enqueue_wires_reply_and_error() {
    let stats = SchedulerStatistics::from_readings(0, 5, 1, 2, 0);
    let dropped = finish_enqueue(None, stats);
    assert!(dropped.execution_result.is_none());
    assert!(dropped.scheduler_error.is_some());

    let executor = InMemorySimpleLightrayExecutor::new();
    let model_id = executor.register_model(echo_model(3)).unwrap();
    let mut queue = LightrayFIFOWorkQueue::new(executor, false);
    queue.enqueue_work(echo_input("hello"), model_id);
    let (_, result) = queue.worker_step().unwrap();
    let delivered = finish_enqueue(Some(result), stats);
    assert!(delivered.scheduler_error.is_none());
    let example = delivered.execution_result.unwrap().unwrap();
    assert_eq!(
        example.execution_result,
        SerializableIValue::List(vec![SerializableIValue::Str("hello".to_string())])
    );
}

#[test]
fn scheduler_validation_flag_is_applied() {
    let executor = InMemorySimpleLightrayExecutor::new();
    let model_id = executor.register_model(echo_model(4)).unwrap();
    let mut queue = LightrayFIFOWorkQueue::new(executor, true);

    // Wrong arity: with validation on, the worker reports a semantic error.
    let bad = TorchScriptInput {
        positional_arguments: vec![SerializableIValue::Int(1)],
    };
    queue.enqueue_work(bad, model_id);
    let (_, result) = queue.worker_step().unwrap();
    match result {
        Err(lightray::errors::LightrayModelExecutionError::LightrayModelInputSemanticError(_)) => {}
        _ => panic!("validation must reject the wrong arity"),
    }
}

use oxide_rs::inference::dynamic_batcher::{
    batch_prompts, batch_settings, process_batch, BatchCoalescer, BatchConfig, BatchOutcome,
    BatchRequest, BatchResult, BatcherAction, BatcherError, BatcherEvent,
    DEFAULT_REPEAT_PENALTY_BITS,
};

fn request(id: u64) -> BatchRequest {
    BatchRequest {
        id,
        prompt: format!("prompt {}", id),
        max_tokens: 10 + id as usize,
        repeat_penalty_bits: 1.0f32.to_bits() + id as u32,
        repeat_last_n: 20 + id as usize,
    }
}

fn ids(batch: &[BatchRequest]) -> Vec<u64> {
    batch.iter().map(|r| r.id).collect()
}

fn dispatched(action: BatcherAction) -> Option<Vec<u64>> {
    match action {
        BatcherAction::Dispatch(batch) => Some(ids(&batch)),
        BatcherAction::DispatchAndStop(batch) => Some(ids(&batch)),
        _ => None,
    }
}

fn shown(results: &[BatchResult]) -> Vec<(u64, Result<String, String>)> {
    results.iter().map(|r| (r.id, r.result.clone())).collect()
}

#[test]
fn test_batch_config_defaults() {
    let config = BatchConfig::default();
    assert_eq!(config.max_batch_size, 8);
    assert_eq!(config.batch_window_ms, 100);
    assert_eq!(config.max_queue_size, 100);
}

#[test]
fn five_requests_in_one_window_make_one_batch() {
    let config = BatchConfig { max_batch_size: 8, batch_window_ms: 100, max_queue_size: 100 };
    let mut coalescer = BatchCoalescer::new(config);
    assert!(matches!(coalescer.step(BatcherEvent::Idle, 0), BatcherAction::AwaitRequest));
    let mut batches: Vec<Vec<u64>> = Vec::new();
    for i in 0..5u64 {
        let now = 1000 + 10 * i;
        let action = coalescer.step(BatcherEvent::Request(request(i)), now);
        assert!(matches!(action, BatcherAction::Poll));
        assert!(matches!(coalescer.step(BatcherEvent::Idle, now + 1), BatcherAction::Poll));
    }
    assert_eq!(coalescer.pending_len(), 5);
    assert!(matches!(coalescer.step(BatcherEvent::Idle, 1099), BatcherAction::Poll));
    if let Some(batch) = dispatched(coalescer.step(BatcherEvent::Idle, 1100)) {
        batches.push(batch);
    }
    assert_eq!(batches, vec![vec![0, 1, 2, 3, 4]]);
    assert_eq!(coalescer.pending_len(), 0);
    assert!(matches!(coalescer.step(BatcherEvent::Idle, 1101), BatcherAction::AwaitRequest));
    assert!(matches!(coalescer.step(BatcherEvent::Closed, 1102), BatcherAction::Stop));
}

#[test]
fn a_burst_fills_its_batches() {
    let config = BatchConfig { max_batch_size: 4, batch_window_ms: 100, max_queue_size: 100 };
    for n in 0..=13u64 {
        let mut coalescer = BatchCoalescer::new(config);
        let mut batches: Vec<Vec<u64>> = Vec::new();
        for i in 0..n {
            if let Some(b) = dispatched(coalescer.step(BatcherEvent::Request(request(i)), 50 + i))
            {
                assert_eq!(b.len(), 4);
                batches.push(b);
            }
            if let Some(b) = dispatched(coalescer.step(BatcherEvent::Idle, 50 + i)) {
                batches.push(b);
            }
        }
        if let Some(b) = dispatched(coalescer.step(BatcherEvent::Closed, 80)) {
            batches.push(b);
        }
        assert_eq!(batches.len() as u64, (n + 3) / 4, "for {} requests", n);
        let all: Vec<u64> = batches.concat();
        assert_eq!(all, (0..n).collect::<Vec<u64>>());
    }
}

#[test]
fn a_full_batch_goes_out_at_once() {
    let config = BatchConfig { max_batch_size: 2, batch_window_ms: 1000, max_queue_size: 100 };
    let mut coalescer = BatchCoalescer::new(config);
    assert!(matches!(coalescer.step(BatcherEvent::Request(request(1)), 5), BatcherAction::Poll));
    let action = coalescer.step(BatcherEvent::Request(request(2)), 6);
    assert!(matches!(action, BatcherAction::Dispatch(_)));
    assert_eq!(dispatched(action), Some(vec![1, 2]));
    assert_eq!(coalescer.pending_len(), 0);
}

#[test]
fn a_window_starts_with_the_first_request_that_waits() {
    let config = BatchConfig { max_batch_size: 8, batch_window_ms: 100, max_queue_size: 100 };
    let mut coalescer = BatchCoalescer::new(config);
    assert!(matches!(coalescer.step(BatcherEvent::Request(request(1)), 500), BatcherAction::Poll));
    assert!(matches!(coalescer.step(BatcherEvent::Request(request(2)), 590), BatcherAction::Poll));
    assert_eq!(dispatched(coalescer.step(BatcherEvent::Idle, 600)), Some(vec![1, 2]));
    assert!(matches!(coalescer.step(BatcherEvent::Request(request(3)), 650), BatcherAction::Poll));
    assert!(matches!(coalescer.step(BatcherEvent::Idle, 749), BatcherAction::Poll));
    assert_eq!(dispatched(coalescer.step(BatcherEvent::Idle, 750)), Some(vec![3]));
}

#[test]
fn a_window_of_no_length_batches_nothing_together() {
    let config = BatchConfig { max_batch_size: 8, batch_window_ms: 0, max_queue_size: 100 };
    let mut coalescer = BatchCoalescer::new(config);
    assert_eq!(dispatched(coalescer.step(BatcherEvent::Request(request(1)), 5)), Some(vec![1]));
    assert_eq!(dispatched(coalescer.step(BatcherEvent::Request(request(2)), 5)), Some(vec![2]));
}

#[test]
fn closing_the_queue_flushes_what_waits() {
    let mut coalescer = BatchCoalescer::new(BatchConfig::default());
    assert_eq!(coalescer.config(), &BatchConfig::default());
    coalescer.step(BatcherEvent::Request(request(7)), 1);
    coalescer.step(BatcherEvent::Request(request(8)), 2);
    let action = coalescer.step(BatcherEvent::Closed, 3);
    assert!(matches!(action, BatcherAction::DispatchAndStop(_)));
    assert_eq!(dispatched(action), Some(vec![7, 8]));
    assert!(matches!(coalescer.step(BatcherEvent::Closed, 4), BatcherAction::Stop));
}

#[test]
fn a_batch_of_size_zero_never_waits() {
    let config = BatchConfig { max_batch_size: 0, batch_window_ms: 100, max_queue_size: 100 };
    let mut coalescer = BatchCoalescer::new(config);
    assert_eq!(dispatched(coalescer.step(BatcherEvent::Request(request(1)), 5)), Some(vec![1]));
}

#[test]
fn a_batch_runs_with_the_settings_of_its_first_request() {
    let batch = vec![request(3), request(1), request(2)];
    let settings = batch_settings(&batch);
    assert_eq!(settings.max_tokens, 13);
    assert_eq!(settings.repeat_penalty_bits, 1.0f32.to_bits() + 3);
    assert_eq!(settings.repeat_last_n, 23);
    assert_eq!(batch_prompts(&batch), vec!["prompt 3", "prompt 1", "prompt 2"]);
    let none = batch_settings(&Vec::new());
    assert_eq!(none.max_tokens, 512);
    assert_eq!(none.repeat_last_n, 64);
    assert_eq!(none.repeat_penalty_bits, DEFAULT_REPEAT_PENALTY_BITS);
    assert_eq!(f32::from_bits(none.repeat_penalty_bits), 1.1f32);
    assert!(batch_prompts(&Vec::new()).is_empty());
}

#[test]
fn every_request_gets_its_own_answer_in_order() {
    let batch = vec![request(3), request(1), request(2)];
    let texts = vec!["c".to_string(), "a".to_string(), "b".to_string()];
    let results = process_batch(&batch, BatchOutcome::Texts(texts));
    assert_eq!(
        shown(&results),
        vec![(3, Ok("c".to_string())), (1, Ok("a".to_string())), (2, Ok("b".to_string()))]
    );
}

#[test]
fn a_failure_is_told_to_every_request() {
    let batch = vec![request(3), request(1)];
    let results = process_batch(&batch, BatchOutcome::Failed("out of memory".to_string()));
    assert_eq!(
        shown(&results),
        vec![(3, Err("out of memory".to_string())), (1, Err("out of memory".to_string()))]
    );
    let results = process_batch(&batch, BatchOutcome::NoGenerator);
    assert_eq!(
        shown(&results),
        vec![
            (3, Err("Generator not connected to batcher".to_string())),
            (1, Err("Generator not connected to batcher".to_string()))
        ]
    );
    let results = process_batch(&batch, BatchOutcome::Texts(vec!["only one".to_string()]));
    assert_eq!(
        shown(&results),
        vec![
            (3, Err("Batch output count mismatch".to_string())),
            (1, Err("Batch output count mismatch".to_string()))
        ]
    );
    assert!(process_batch(&Vec::new(), BatchOutcome::NoGenerator).is_empty());
}

#[test]
fn errors_have_their_messages() {
    assert_eq!(BatcherError::BatcherClosed.message(), "Batcher channel closed");
    assert_eq!(BatcherError::BatcherCancelled.message(), "Request cancelled");
    assert_eq!(BatcherError::GeneratorMissing.message(), "Generator not connected to batcher");
}

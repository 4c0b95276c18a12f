use indexer_core::runtime::{outputs_to_forward, poll_is_due, FifoChannel};
use indexer_core::step::{connect, AsyncStep, PollableAsyncStep};
use std::time::Duration;

struct DoubleStep;

impl AsyncStep for DoubleStep {
    type Input = u64;
    type Output = u64;

    fn process(&mut self, items: Vec<u64>) -> Vec<u64> {
        items.into_iter().map(|v| v * 2).collect()
    }
}

struct IncrementStep;

impl AsyncStep for IncrementStep {
    type Input = u64;
    type Output = u64;

    fn process(&mut self, items: Vec<u64>) -> Vec<u64> {
        items.into_iter().map(|v| v + 1).collect()
    }
}

struct TickStep {
    ticks: u64,
}

impl AsyncStep for TickStep {
    type Input = u64;
    type Output = u64;

    fn process(&mut self, items: Vec<u64>) -> Vec<u64> {
        items
    }
}

impl PollableAsyncStep for TickStep {
    fn poll_interval(&self) -> Duration {
        Duration::from_millis(250)
    }

    fn poll(&mut self) -> Option<Vec<u64>> {
        self.ticks += 1;
        Some(vec![self.ticks])
    }
}

#[test]
fn pollable_step_produces_on_poll() {
    let mut step = TickStep { ticks: 0 };
    assert_eq!(step.poll_interval(), Duration::from_millis(250));
    assert_eq!(step.poll(), Some(vec![1]));
    assert_eq!(step.poll(), Some(vec![2]));
    assert_eq!(step.process(vec![9, 9]), vec![9, 9]);
}

#[test]
fn connector_feeds_first_output_into_second() {
    let mut pipeline = connect(DoubleStep, IncrementStep);
    let out = pipeline.process(vec![1, 2, 3]);
    assert_eq!(out, vec![3, 5, 7]);
}

#[test]
fn connector_composition_is_associative_at_type_level() {
    let mut pipeline = connect(connect(DoubleStep, IncrementStep), DoubleStep);
    let out = pipeline.process(vec![10]);
    assert_eq!(out, vec![42]);
}

#[test]
fn edge_delivers_batches_in_send_order() {
    let mut edge: FifoChannel<Vec<u64>> = FifoChannel::new(4);
    assert!(edge.try_send(vec![1, 2]));
    assert!(edge.try_send(vec![3]));
    assert!(edge.try_send(vec![4, 5]));
    assert_eq!(edge.recv(), Some(vec![1, 2]));
    assert_eq!(edge.recv(), Some(vec![3]));
    assert_eq!(edge.recv(), Some(vec![4, 5]));
    assert_eq!(edge.recv(), None);
}

#[test]
fn full_edge_applies_backpressure() {
    let mut edge: FifoChannel<u64> = FifoChannel::new(2);
    assert!(edge.try_send(1));
    assert!(edge.try_send(2));
    assert!(!edge.try_send(3));
    assert_eq!(edge.len(), 2);
    assert_eq!(edge.recv(), Some(1));
    assert!(edge.try_send(3));
    assert_eq!(edge.recv(), Some(2));
    assert_eq!(edge.recv(), Some(3));
}

#[test]
fn empty_outputs_are_dropped_not_forwarded() {
    let empty: Vec<u64> = Vec::new();
    assert_eq!(outputs_to_forward(empty), None);
    assert_eq!(outputs_to_forward(vec![7u64]), Some(vec![7u64]));
}

#[test]
fn poll_due_exactly_at_interval() {
    assert!(poll_is_due(1000, 1000));
    assert!(poll_is_due(1001, 1000));
    assert!(!poll_is_due(999, 1000));
}

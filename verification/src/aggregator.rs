//! What a mock backend keeps count of.
use vstd::prelude::*;

verus! {

/// Something a mock backend keeps up to date as it serves.
pub trait Aggregator {}

/// Counts the requests received and the responses sent.
#[derive(Debug, Clone)]
pub struct SimpleAggregator {
    pub received: usize,
    pub sent: usize,
}

impl Aggregator for SimpleAggregator {}

} // verus!

//! A Markov-chain transition engine: a row-stochastic transition matrix held in
//! fixed point, the update policy that folds observations into it, a buffered
//! fixed-capacity byte sink, and the aggregator that ties them to a bounded
//! observation channel.
pub mod actor;
pub mod machine;
pub mod matrix;
pub mod sink;

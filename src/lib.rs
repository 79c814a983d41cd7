//! Coupon-collector simulation over eight equally likely prizes: one trial
//! draws until every prize has come up, and a batch of trials is reduced to a
//! total, a count and a histogram of trial lengths.

mod rng;

pub mod batch;
pub mod prize;
pub mod trial;

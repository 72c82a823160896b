//! Multi-step workflow records: a saga groups the transactions of one
//! workflow and tracks its lifecycle.

use vstd::prelude::*;
use crate::utils::{new_uuid, now_millis};

verus! {

/// Lifecycle of a saga.
#[derive(Clone, Copy, PartialEq, Eq, Structural, Debug)]
pub enum SagaState {
    InProgress,
    Completed,
    Failed,
    Compensating,
}

/// A multi-step workflow and the transactions it has issued.
pub struct Saga {
    pub id: String,
    pub transactions: Vec<String>,
    pub state: SagaState,
    /// Unix milliseconds.
    pub created_at: u64,
    pub updated_at: u64,
    pub description: Option<String>,
}

impl Saga {
    /// A fresh saga: in progress, no transactions yet.
    pub fn new(description: Option<String>) -> (r: Saga)
        ensures
            r.state == SagaState::InProgress,
            r.transactions@.len() == 0,
            r.description == description,
            r.created_at == r.updated_at,
    {
        let now_signed = now_millis();
        let now: u64 = if now_signed >= 0 {
            now_signed as u64
        } else {
            0
        };
        Saga {
            id: new_uuid(),
            transactions: Vec::new(),
            state: SagaState::InProgress,
            created_at: now,
            updated_at: now,
            description,
        }
    }

    /// Whether a transaction may still be added: only while in progress.
    pub fn accepts_transactions(&self) -> (r: bool)
        ensures
            r == (self.state == SagaState::InProgress),
    {
        self.state == SagaState::InProgress
    }
}

} // verus!

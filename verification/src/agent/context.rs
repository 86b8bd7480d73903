use vstd::prelude::*;
use std::collections::HashMap;
use crate::agent::event::{Event, new_uuid};

verus! {

/// The state of one agent execution: its events, in the order they
/// happened, and the number of steps taken.
pub struct ExecutionContext {
    pub execution_id: String,
    pub event: Vec<Event>,
    pub current_step: u32,
    pub state: HashMap<String, serde_json::Value>,
    pub final_result: Option<String>,
}

impl ExecutionContext {
    /// A fresh context with a random id, no events and step 0.
    pub fn new() -> (c: ExecutionContext)
        ensures
            c.execution_id@.len() == 36,
            c.event@.len() == 0,
            c.current_step == 0,
            c.state@ == Map::<String, serde_json::Value>::empty(),
            c.final_result is None,
    {
        ExecutionContext {
            execution_id: new_uuid(),
            event: Vec::new(),
            current_step: 0,
            state: HashMap::new(),
            final_result: None,
        }
    }

    /// Appends an event.
    pub fn add_event(&mut self, event: Event)
        ensures
            final(self).event@ == old(self).event@.push(event),
            final(self).execution_id == old(self).execution_id,
            final(self).current_step == old(self).current_step,
            final(self).state == old(self).state,
            final(self).final_result == old(self).final_result,
    {
        self.event.push(event);
    }

    /// Counts one more step.
    pub fn increment_step(&mut self)
        requires
            old(self).current_step < u32::MAX,
        ensures
            final(self).current_step == old(self).current_step + 1,
            final(self).event == old(self).event,
            final(self).execution_id == old(self).execution_id,
            final(self).state == old(self).state,
            final(self).final_result == old(self).final_result,
    {
        self.current_step = self.current_step + 1;
    }
}


impl Default for ExecutionContext {
    fn default() -> (c: ExecutionContext)
        ensures
            c.execution_id@.len() == 36,
            c.event@.len() == 0,
            c.current_step == 0,
            c.state@ == Map::<String, serde_json::Value>::empty(),
            c.final_result is None,
    {
        ExecutionContext::new()
    }
}

} // verus!

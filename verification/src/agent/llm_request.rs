use vstd::prelude::*;
use crate::agent::event::ContentItem;

verus! {

/// What is about to be sent to the model: instructions and content items.
pub struct LlmRequest {
    pub instructions: Vec<String>,
    pub content: Vec<ContentItem>,
}

impl LlmRequest {
    /// Appends one instruction.
    pub fn append_instructions(&mut self, instructions: &str)
        ensures
            final(self).instructions@.len() == old(self).instructions@.len() + 1,
            forall|i: int|
                0 <= i < old(self).instructions@.len() ==> #[trigger] final(self).instructions@[i]
                    == old(self).instructions@[i],
            final(self).instructions@.last()@ == instructions@,
            final(self).content == old(self).content,
    {
        self.instructions.push(instructions.to_owned());
    }
}


impl Default for LlmRequest {
    fn default() -> (r: LlmRequest)
        ensures
            r.instructions@.len() == 0,
            r.content@.len() == 0,
    {
        LlmRequest { instructions: Vec::new(), content: Vec::new() }
    }
}

} // verus!

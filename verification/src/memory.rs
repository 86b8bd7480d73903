use vstd::prelude::*;

verus! {

/// One remembered chat message.
pub struct MemoryMessage {
    pub role: String,
    pub content: String,
}

impl View for MemoryMessage {
    type V = (Seq<char>, Seq<char>);

    open spec fn view(&self) -> (Seq<char>, Seq<char>) {
        (self.role@, self.content@)
    }
}

/// The largest number of messages kept for a turn limit: two per turn,
/// saturating at `usize::MAX`.
pub open spec fn message_cap(max_turns: usize) -> nat {
    if max_turns * 2 > usize::MAX {
        usize::MAX as nat
    } else {
        (max_turns * 2) as nat
    }
}

/// The last `n` elements of `s` (all of `s` when it is not longer than `n`).
pub open spec fn keep_last<T>(s: Seq<T>, n: nat) -> Seq<T> {
    if s.len() > n {
        s.subrange(s.len() - n, s.len() as int)
    } else {
        s
    }
}

/// Conversation history bounded by a number of turns (a turn is a user and
/// an assistant message); the oldest messages are dropped first.
pub struct Memory {
    messages: Vec<MemoryMessage>,
    max_turns: usize,
}

impl View for Memory {
    type V = Seq<(Seq<char>, Seq<char>)>;

    closed spec fn view(&self) -> Seq<(Seq<char>, Seq<char>)> {
        self.messages@.map_values(|m: MemoryMessage| m@)
    }
}

impl Memory {
    /// The turn limit of this memory.
    pub closed spec fn turn_limit(&self) -> usize {
        self.max_turns
    }

    /// Whether the memory holds at most two messages per turn of its limit.
    pub open spec fn within_limit(&self) -> bool {
        self@.len() <= message_cap(self.turn_limit())
    }

    /// An empty memory that keeps at most 20 turns.
    pub fn new() -> (m: Memory)
        ensures
            m@ == Seq::<(Seq<char>, Seq<char>)>::empty(),
            m.turn_limit() == 20,
            m.within_limit(),
    {
        let m = Memory { messages: Vec::new(), max_turns: 20 };
        assert(m@ =~= Seq::<(Seq<char>, Seq<char>)>::empty());
        m
    }

    /// The same memory with another turn limit; the messages already held
    /// are left as they are until the next `add`.
    pub fn with_max_turns(self, max_turns: usize) -> (m: Memory)
        ensures
            m@ == self@,
            m.turn_limit() == max_turns,
            self@.len() <= message_cap(max_turns) ==> m.within_limit(),
    {
        let mut s = self;
        s.max_turns = max_turns;
        s
    }

    /// A memory made of the given messages and turn limit, as they are.
    pub fn from_parts(messages: Vec<MemoryMessage>, max_turns: usize) -> (m: Memory)
        ensures
            m@ == messages@.map_values(|x: MemoryMessage| x@),
            m.turn_limit() == max_turns,
    {
        Memory { messages, max_turns }
    }

    /// The turn limit.
    pub fn max_turns(&self) -> (n: usize)
        ensures
            n == self.turn_limit(),
    {
        self.max_turns
    }

    fn trim(&mut self)
        ensures
            final(self).turn_limit() == old(self).turn_limit(),
            final(self)@ == keep_last(old(self)@, message_cap(old(self).max_turns)),
    {
        let max_messages: usize = if self.max_turns > usize::MAX / 2 {
            usize::MAX
        } else {
            self.max_turns * 2
        };
        assert(max_messages == message_cap(self.max_turns));
        if self.messages.len() > max_messages {
            let remove: usize = self.messages.len() - max_messages;
            let kept = self.messages.split_off(remove);
            self.messages = kept;
            assert(self@ =~= keep_last(old(self)@, message_cap(old(self).max_turns)));
        }
    }

    /// Appends a message, then drops the oldest messages beyond two per turn.
    pub fn add(&mut self, role: &str, content: &str)
        ensures
            final(self).turn_limit() == old(self).turn_limit(),
            final(self)@ == keep_last(
                old(self)@.push((role@, content@)),
                message_cap(old(self).turn_limit()),
            ),
            final(self)@ == after_op(old(self)@, old(self).turn_limit(), MemoryOp::Add(role@, content@)),
            final(self).within_limit(),
    {
        let msg = MemoryMessage { role: role.to_owned(), content: content.to_owned() };
        self.messages.push(msg);
        assert(self@ =~= old(self)@.push((role@, content@)));
        self.trim();
    }

    /// Appends a message with the role `user`.
    pub fn add_user(&mut self, content: &str)
        ensures
            final(self).turn_limit() == old(self).turn_limit(),
            final(self)@ == keep_last(
                old(self)@.push(("user"@, content@)),
                message_cap(old(self).turn_limit()),
            ),
            final(self)@ == after_op(old(self)@, old(self).turn_limit(), MemoryOp::Add("user"@, content@)),
            final(self).within_limit(),
    {
        self.add("user", content);
    }

    /// Appends a message with the role `assistant`.
    pub fn add_assistant(&mut self, content: &str)
        ensures
            final(self).turn_limit() == old(self).turn_limit(),
            final(self)@ == keep_last(
                old(self)@.push(("assistant"@, content@)),
                message_cap(old(self).turn_limit()),
            ),
            final(self)@ == after_op(old(self)@, old(self).turn_limit(), MemoryOp::Add("assistant"@, content@)),
            final(self).within_limit(),
    {
        self.add("assistant", content);
    }

    /// The messages held, oldest first.
    pub fn messages(&self) -> (r: &[MemoryMessage])
        ensures
            r@.map_values(|x: MemoryMessage| x@) == self@,
    {
        self.messages.as_slice()
    }

    /// The number of messages held.
    pub fn len(&self) -> (n: usize)
        ensures
            n == self@.len(),
    {
        self.messages.len()
    }

    /// Whether no message is held.
    pub fn is_empty(&self) -> (b: bool)
        ensures
            b == (self@.len() == 0),
    {
        self.messages.len() == 0
    }

    /// Forgets every message; the turn limit stays.
    pub fn clear(&mut self)
        ensures
            final(self)@ == Seq::<(Seq<char>, Seq<char>)>::empty(),
            final(self).turn_limit() == old(self).turn_limit(),
            final(self)@ == after_op(old(self)@, old(self).turn_limit(), MemoryOp::Clear),
            final(self).within_limit(),
    {
        self.messages.clear();
        assert(self@ =~= Seq::<(Seq<char>, Seq<char>)>::empty());
    }
}


/// Adding to a memory keeps exactly as many messages as fit: the old ones
/// and the new one when they are at most two per turn, else two per turn; it
/// drops only the oldest beyond that, and keeps the message just added
/// whenever the limit allows any.
pub proof fn lemma_add_keeps_newest(
    old_messages: Seq<(Seq<char>, Seq<char>)>,
    message: (Seq<char>, Seq<char>),
    max_turns: usize,
)
    ensures
        ({
            let new_messages = keep_last(old_messages.push(message), message_cap(max_turns));
            &&& new_messages.len() <= message_cap(max_turns)
            &&& new_messages.len() <= old_messages.len() + 1
            &&& new_messages.len() == if old_messages.len() + 1 <= message_cap(max_turns) {
                (old_messages.len() + 1) as int
            } else {
                message_cap(max_turns) as int
            }
            &&& new_messages == old_messages.push(message).subrange(
                old_messages.len() + 1 - new_messages.len(),
                old_messages.len() + 1 as int,
            )
            &&& message_cap(max_turns) > 0 ==> new_messages.last() == message
            &&& forall|i: int|
                0 <= i < new_messages.len() - 1 ==> #[trigger] new_messages[i] == old_messages[
                    old_messages.len() + 1 - new_messages.len() + i
                ]
        }),
{
}


/// A change made to a memory: a message added (`add`, `add_user`,
/// `add_assistant`) or everything forgotten (`clear`).
pub enum MemoryOp {
    Add(Seq<char>, Seq<char>),
    Clear,
}

/// The messages after one change, under a turn limit (as `add` and `clear`
/// state it).
pub open spec fn after_op(messages: Seq<(Seq<char>, Seq<char>)>, max_turns: usize, op: MemoryOp) -> Seq<
    (Seq<char>, Seq<char>),
> {
    match op {
        MemoryOp::Add(role, content) => keep_last(messages.push((role, content)), message_cap(max_turns)),
        MemoryOp::Clear => Seq::empty(),
    }
}

/// The messages after the changes, in order.
pub open spec fn after_ops(
    messages: Seq<(Seq<char>, Seq<char>)>,
    max_turns: usize,
    ops: Seq<MemoryOp>,
) -> Seq<(Seq<char>, Seq<char>)>
    decreases ops.len(),
{
    if ops.len() == 0 {
        messages
    } else {
        after_op(after_ops(messages, max_turns, ops.drop_last()), max_turns, ops.last())
    }
}

/// A memory never holds more than two messages per turn: starting from
/// messages that fit the limit (an empty memory from `new`, with the limit
/// set by `with_max_turns` before the first message), any sequence of adds
/// and clears leaves at most `max_turns * 2` messages (saturating at
/// `usize::MAX`).
pub proof fn lemma_memory_stays_within_limit(
    messages: Seq<(Seq<char>, Seq<char>)>,
    max_turns: usize,
    ops: Seq<MemoryOp>,
)
    requires
        messages.len() <= message_cap(max_turns),
    ensures
        after_ops(messages, max_turns, ops).len() <= message_cap(max_turns),
    decreases ops.len(),
{
    if ops.len() > 0 {
        lemma_memory_stays_within_limit(messages, max_turns, ops.drop_last());
    }
}

impl Default for Memory {
    fn default() -> (m: Memory)
        ensures
            m@ == Seq::<(Seq<char>, Seq<char>)>::empty(),
            m.turn_limit() == 20,
            m.within_limit(),
    {
        Memory::new()
    }
}

} // verus!

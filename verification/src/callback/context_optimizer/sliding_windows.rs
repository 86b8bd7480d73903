use vstd::prelude::*;
use crate::agent::event::ContentItem;
use crate::agent::llm_request::LlmRequest;
use crate::text::same_text;

verus! {

/// Whether an item is a message from the user.
pub open spec fn is_user_message(item: ContentItem) -> bool {
    item matches ContentItem::Message { role, .. } && role@ == "user"@
}

/// The position of the first user message at or after `i`, if any.
pub open spec fn first_user_from(items: Seq<ContentItem>, i: int) -> Option<int>
    decreases items.len() - i,
{
    if i < 0 || i >= items.len() {
        None
    } else if is_user_message(items[i]) {
        Some(i)
    } else {
        first_user_from(items, i + 1)
    }
}

proof fn lemma_first_user_in_range(items: Seq<ContentItem>, i: int)
    ensures
        first_user_from(items, i) matches Some(u) ==> i <= u < items.len(),
    decreases items.len() - i,
{
    if 0 <= i < items.len() && !is_user_message(items[i]) {
        lemma_first_user_in_range(items, i + 1);
    }
}

/// The position of the first user message, if any.
pub open spec fn first_user(items: Seq<ContentItem>) -> Option<int> {
    first_user_from(items, 0)
}

/// Drops the most recent content items once a request grows too large,
/// keeping everything up to the first user message.
pub struct SlidingWindow {
    pub model: String,
    pub tokens_threshold: usize,
    pub window_size: usize,
}

impl SlidingWindow {
    /// Whether the window applies to a request of `len` items whose first user
    /// message is at `user`, given its token count.
    pub open spec fn cuts(&self, token_count: usize, len: int, user: Option<int>) -> bool {
        &&& token_count >= self.tokens_threshold
        &&& len > self.window_size
        &&& user is Some
        &&& len - user->0 - 1 > self.tokens_threshold
    }

    /// The number of items kept when the window applies.
    pub open spec fn kept_len(&self, len: int) -> int {
        len - self.window_size
    }

    /// When the request holds at least `tokens_threshold` tokens (counted
    /// by the caller for `model`), more than `window_size` items, a user
    /// message, and more than `tokens_threshold` items after the first user
    /// message, the last `window_size` items are dropped; otherwise the
    /// request is left as it is.
    pub fn apply(&self, token_count: usize, request: &mut LlmRequest)
        requires
            self.cuts(token_count, old(request).content@.len() as int, first_user(old(request).content@))
                ==> old(request).content@.len() - first_user(old(request).content@)->0 - 1
                >= self.window_size,
        ensures
            final(request).instructions == old(request).instructions,
            final(request).content@ == if self.cuts(
                token_count,
                old(request).content@.len() as int,
                first_user(old(request).content@),
            ) {
                old(request).content@.take(self.kept_len(old(request).content@.len() as int))
            } else {
                old(request).content@
            },
            first_user(old(request).content@) matches Some(u) ==> u < final(request).content@.len(),
    {
        proof {
            lemma_first_user_in_range(request.content@, 0);
        }
        if token_count < self.tokens_threshold {
            return;
        }
        let len = request.content.len();
        if len <= self.window_size {
            return;
        }
        let mut u: usize = 0;
        let mut found = false;
        while u < len
            invariant_except_break
                !found,
            invariant
                u <= len,
                len == request.content@.len(),
                request.content@ == old(request).content@,
                first_user(request.content@) == first_user_from(request.content@, u as int),
            ensures
                found ==> u < len && first_user(request.content@) == Some(u as int),
                !found ==> first_user(request.content@) is None,
            decreases len - u,
        {
            let is_user = match &request.content[u] {
                ContentItem::Message { role, .. } => same_text(role, "user"),
                _ => false,
            };
            if is_user {
                found = true;
                break;
            }
            u = u + 1;
        }
        if !found {
            return;
        }
        let remaining = len - u - 1;
        if remaining > self.tokens_threshold {
            let keep = len - self.window_size;
            request.content.truncate(keep);
        }
    }
}

} // verus!

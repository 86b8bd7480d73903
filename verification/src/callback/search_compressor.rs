use vstd::prelude::*;
use crate::agent::context::ExecutionContext;
use crate::agent::event::{ContentItem, Event, ToolResultStatus};
use crate::agent::runtime::event_items;
use crate::json::{json_string_field, opt_view, string_field};
use crate::knowledge_base::chunk::{fixed_chunks, fixed_length_chunking, texts_view};
use crate::text::same_text;

verus! {

/// Results shorter than this many bytes are left as they are.
pub const COMPRESS_THRESHOLD: usize = 2000;

/// Chunk size, in characters, used to cut a long result.
pub const CHUNK_SIZE: usize = 500;

/// Overlap, in characters, between neighbouring chunks.
pub const CHUNK_OVERLAP: usize = 50;

/// How many chunks a compressed result keeps.
pub const TOP_K: usize = 3;

/// The search query that an item carries for the tool call `id`: the item
/// must be a `WebSearch` call with that id whose arguments have a string
/// `query`.
pub open spec fn item_query(item: ContentItem, id: Seq<char>) -> Option<Seq<char>> {
    match item {
        ContentItem::ToolCall { tool_call_id, name, arguments } => if tool_call_id@ == id && name@
            == "WebSearch"@ {
            json_string_field(arguments@, "query"@)
        } else {
            None
        },
        _ => None,
    }
}

/// The first search query that the items carry for the tool call `id`.
pub open spec fn query_in(items: Seq<ContentItem>, id: Seq<char>) -> Option<Seq<char>>
    decreases items.len(),
{
    if items.len() == 0 {
        None
    } else {
        match query_in(items.drop_last(), id) {
            Some(q) => Some(q),
            None => item_query(items.last(), id),
        }
    }
}

proof fn lemma_query_in_prefix(a: Seq<ContentItem>, b: Seq<ContentItem>, id: Seq<char>)
    requires
        query_in(a, id) is Some,
    ensures
        query_in(a + b, id) == query_in(a, id),
    decreases b.len(),
{
    if b.len() > 0 {
        lemma_query_in_prefix(a, b.drop_last(), id);
        assert((a + b).drop_last() =~= a + b.drop_last());
    } else {
        assert(a + b =~= a);
    }
}

/// The query of the web search that produced a tool result: the first
/// `WebSearch` call recorded in the context with the same id and a string
/// `query` argument.
pub fn extract_query(context: &ExecutionContext, tool_call_id: &String) -> (r: Option<String>)
    ensures
        opt_view(r) == query_in(event_items(context.event@), tool_call_id@),
{
    let n = context.event.len();
    let mut i: usize = 0;
    assert(context.event@.take(0) =~= Seq::<Event>::empty());
    while i < n
        invariant
            i <= n,
            n == context.event@.len(),
            query_in(event_items(context.event@.take(i as int)), tool_call_id@) is None,
        decreases n - i,
    {
        let ev = &context.event[i];
        let ghost prefix = event_items(context.event@.take(i as int));
        let m = ev.content.len();
        let mut j: usize = 0;
        assert(prefix + ev.content@.take(0) =~= prefix);
        while j < m
            invariant
                j <= m,
                m == ev.content@.len(),
                i < n,
                n == context.event@.len(),
                *ev == context.event@[i as int],
                prefix == event_items(context.event@.take(i as int)),
                query_in(prefix + ev.content@.take(j as int), tool_call_id@) is None,
            decreases m - j,
        {
            let ghost cur = prefix + ev.content@.take(j + 1);
            assert(cur.drop_last() =~= prefix + ev.content@.take(j as int));
            let found: Option<String> = match &ev.content[j] {
                ContentItem::ToolCall { tool_call_id: id, name, arguments } => {
                    if *id == *tool_call_id && same_text(name, "WebSearch") {
                        string_field(arguments.as_str(), "query")
                    } else {
                        None
                    }
                },
                _ => None,
            };
            match found {
                Some(q) => {
                    proof {
                        assert(query_in(cur, tool_call_id@) == Some(q@));
                        let rest_of_event = ev.content@.subrange(j + 1, m as int);
                        lemma_event_items_split(context.event@, i as int);
                        assert(ev.content@ =~= ev.content@.take(j + 1) + rest_of_event);
                        assert(prefix + ev.content@ =~= cur + rest_of_event);
                        lemma_query_in_prefix(cur, rest_of_event, tool_call_id@);
                        lemma_query_in_prefix(
                            prefix + ev.content@,
                            event_items(context.event@.subrange(i + 1, n as int)),
                            tool_call_id@,
                        );
                    }
                    return Some(q);
                },
                None => {},
            }
            j = j + 1;
        }
        assert(context.event@.take(i + 1).drop_last() =~= context.event@.take(i as int));
        assert(ev.content@.take(m as int) =~= ev.content@);
        i = i + 1;
    }
    assert(context.event@.take(n as int) =~= context.event@);
    None
}

/// The items of the events split around event `i`.
proof fn lemma_event_items_split(events: Seq<Event>, i: int)
    requires
        0 <= i < events.len(),
    ensures
        event_items(events) == event_items(events.take(i)) + events[i].content@ + event_items(
            events.subrange(i + 1, events.len() as int),
        ),
    decreases events.len(),
{
    if events.len() == i + 1 {
        assert(events.drop_last() =~= events.take(i));
        assert(events.subrange(i + 1, events.len() as int) =~= Seq::<Event>::empty());
        assert(event_items(Seq::<Event>::empty()) =~= Seq::<ContentItem>::empty());
        assert(event_items(events) =~= event_items(events.take(i)) + events[i].content@ + Seq::<ContentItem>::empty());
    } else {
        lemma_event_items_split(events.drop_last(), i);
        assert(events.drop_last().take(i) =~= events.take(i));
        assert(events.subrange(i + 1, events.len() as int).drop_last() =~= events.drop_last().subrange(
            i + 1,
            events.len() - 1,
        ));
        assert(events.subrange(i + 1, events.len() as int).last() == events.last());
        assert(event_items(events) =~= event_items(events.take(i)) + events[i].content@ + event_items(
            events.subrange(i + 1, events.len() as int),
        ));
    }
}

} // verus!

verus! {

/// Compresses long web-search results down to the chunks most similar to
/// the query.
pub struct SearchCompressorCallback;

impl SearchCompressorCallback {
    /// Whether a result is compressed: a successful `WebSearch` result of at
    /// least `COMPRESS_THRESHOLD` bytes whose query can be found and that
    /// gives at least one chunk.
    pub open spec fn compresses(
        context: &ExecutionContext,
        tool_call_id: Seq<char>,
        tool_name: Seq<char>,
        status: ToolResultStatus,
        content: &str,
    ) -> bool {
        &&& tool_name == "WebSearch"@
        &&& status == ToolResultStatus::Success
        &&& content.len() >= COMPRESS_THRESHOLD
        &&& query_in(event_items(context.event@), tool_call_id) is Some
        &&& fixed_chunks(content@, CHUNK_SIZE as nat, CHUNK_OVERLAP as nat).len() > 0
    }

    /// The query and the chunks to rank when a result is to be compressed,
    /// `None` when it is left as it is.
    pub fn prepare(
        &self,
        context: &ExecutionContext,
        tool_call_id: &String,
        tool_name: &str,
        status: ToolResultStatus,
        content: &str,
    ) -> (r: Option<(String, Vec<String>)>)
        ensures
            r is Some <==> Self::compresses(context, tool_call_id@, tool_name@, status, content),
            r matches Some((q, chunks)) ==> {
                &&& Some(q@) == query_in(event_items(context.event@), tool_call_id@)
                &&& texts_view(chunks@) == fixed_chunks(content@, CHUNK_SIZE as nat, CHUNK_OVERLAP as nat)
            },
    {
        let name = crate::text::owned(tool_name);
        if !same_text(&name, "WebSearch") {
            return None;
        }
        match status {
            ToolResultStatus::Success => {},
            ToolResultStatus::Error => {
                return None;
            },
        }
        if content.len() < COMPRESS_THRESHOLD {
            return None;
        }
        let query = match extract_query(context, tool_call_id) {
            Some(q) => q,
            None => {
                return None;
            },
        };
        let chunks = fixed_length_chunking(content, CHUNK_SIZE, CHUNK_OVERLAP);
        if chunks.len() == 0 {
            return None;
        }
        Some((query, chunks))
    }

    /// The compressed result: the texts of the best-ranked chunks joined by
    /// blank lines, or, when ranking failed (`None`), the first `TOP_K`
    /// chunks joined the same way. The status is kept.
    pub fn finish(&self, status: ToolResultStatus, chunks: &Vec<String>, hits: Option<Vec<String>>) -> (r: (
        ToolResultStatus,
        String,
    ))
        ensures
            r.0 == status,
            r.1@ == match hits {
                Some(h) => crate::text::joined(texts_view(h@), "\n\n"@),
                None => crate::text::joined(
                    texts_view(chunks@).take(
                        if TOP_K < chunks@.len() { TOP_K as int } else { chunks@.len() as int },
                    ),
                    "\n\n"@,
                ),
            },
    {
        match hits {
            Some(h) => {
                let s = crate::text::join_texts(&h, h.len(), "\n\n");
                assert(texts_view(h@).take(h@.len() as int) =~= texts_view(h@));
                (status, s)
            },
            None => (status, crate::text::join_texts(chunks, TOP_K, "\n\n")),
        }
    }
}

} // verus!

use vstd::prelude::*;
use crate::agent::event::ContentItem;
use crate::agent::llm_request::LlmRequest;
use crate::json::{json_string_field, string_field};
use crate::text::{join2, same_text};

verus! {

/// The arguments of the last tool call before position `i` whose id is `id`.
pub open spec fn latest_args(items: Seq<ContentItem>, i: int, id: Seq<char>) -> Option<Seq<char>>
    decreases i,
{
    if i <= 0 {
        None
    } else {
        match items[i - 1] {
            ContentItem::ToolCall { tool_call_id, arguments, .. } => if tool_call_id@ == id {
                Some(arguments@)
            } else {
                latest_args(items, i - 1, id)
            },
            _ => latest_args(items, i - 1, id),
        }
    }
}

/// The file path named by tool-call arguments, or `unknow`.
pub open spec fn path_of(args: Option<Seq<char>>) -> Seq<char> {
    match args {
        Some(a) => match json_string_field(a, "file_path"@) {
            Some(p) => p,
            None => "unknow"@,
        },
        None => "unknow"@,
    }
}

/// The text that stands for a file that was already read.
pub open spec fn already_read(path: Seq<char>) -> Seq<char> {
    "File '"@ + path + "' was already read,call read_file agent if you need it."@
}

/// Whether `new` is `old` after compaction of the item at `i`, where
/// `protect_from` is the first protected position.
pub open spec fn compacted_item(items: Seq<ContentItem>, i: int, protect_from: int, new: ContentItem) -> bool {
    match items[i] {
        ContentItem::ToolResult { tool_call_id, name, status, content } => if i < protect_from
            && name@ == "read_file"@ {
            new matches ContentItem::ToolResult {
                tool_call_id: t2,
                name: n2,
                status: s2,
                content: c2,
            } && t2 == tool_call_id && n2 == name && s2 == status && c2@ == already_read(
                path_of(latest_args(items, i, tool_call_id@)),
            )
        } else {
            new == items[i]
        },
        _ => new == items[i],
    }
}

/// Items that agree on their tool calls agree on the latest arguments.
proof fn lemma_latest_args_same(a: Seq<ContentItem>, b: Seq<ContentItem>, i: int, id: Seq<char>)
    requires
        0 <= i <= a.len(),
        a.len() == b.len(),
        forall|k: int| 0 <= k < a.len() ==> (#[trigger] a[k] is ToolCall <==> b[k] is ToolCall),
        forall|k: int| 0 <= k < a.len() && b[k] is ToolCall ==> #[trigger] a[k] == b[k],
    ensures
        latest_args(a, i, id) == latest_args(b, i, id),
    decreases i,
{
    if i > 0 {
        lemma_latest_args_same(a, b, i - 1, id);
        assert(a[i - 1] is ToolCall <==> b[i - 1] is ToolCall);
    }
}

/// Whether an item is a tool call with the given id.
pub open spec fn is_call_with_id(item: ContentItem, id: Seq<char>) -> bool {
    item matches ContentItem::ToolCall { tool_call_id, .. } && tool_call_id@ == id
}

/// The arguments a compacted result is named after come from the call with
/// the result's id and from no other: they are the arguments of a call with
/// that id before position `i` after which no call with that id comes; when
/// no call before `i` has that id there are none.
pub proof fn lemma_latest_args_come_from_the_call(items: Seq<ContentItem>, i: int, id: Seq<char>)
    requires
        0 <= i <= items.len(),
    ensures
        match latest_args(items, i, id) {
            Some(a) => exists|j: int|
                0 <= j < i && is_call_with_id(#[trigger] items[j], id) && (items[j] matches ContentItem::ToolCall {
                    arguments,
                    ..
                } && arguments@ == a) && forall|k: int| j < k < i ==> !is_call_with_id(#[trigger] items[k], id),
            None => forall|k: int| 0 <= k < i ==> !is_call_with_id(#[trigger] items[k], id),
        },
    decreases i,
{
    if i > 0 {
        lemma_latest_args_come_from_the_call(items, i - 1, id);
        if is_call_with_id(items[i - 1], id) {
            assert(is_call_with_id(items[i - 1], id));
        } else {
            match latest_args(items, i - 1, id) {
                Some(a) => {
                    let j = choose|j: int|
                        0 <= j < i - 1 && is_call_with_id(#[trigger] items[j], id) && (items[j] matches ContentItem::ToolCall {
                            arguments,
                            ..
                        } && arguments@ == a) && forall|k: int| j < k < i - 1 ==> !is_call_with_id(#[trigger] items[k], id);
                    assert(forall|k: int| j < k < i ==> !is_call_with_id(#[trigger] items[k], id));
                },
                None => {},
            }
        }
    }
}

/// Compaction touches nothing but old `read_file` results: an item at or
/// after the first protected position, and any item that is not a result of
/// `read_file`, stays exactly as it was; an old `read_file` result keeps its
/// id, name and status and only its content changes.
pub proof fn lemma_compaction_touches_only_old_read_file_results(
    items: Seq<ContentItem>,
    i: int,
    protect_from: int,
    new: ContentItem,
)
    requires
        0 <= i < items.len(),
        compacted_item(items, i, protect_from, new),
    ensures
        i >= protect_from ==> new == items[i],
        !(items[i] matches ContentItem::ToolResult { name, .. } && name@ == "read_file"@) ==> new == items[i],
        items[i] matches ContentItem::ToolResult { tool_call_id, name, status, .. } ==> (new matches ContentItem::ToolResult {
            tool_call_id: t2,
            name: n2,
            status: s2,
            ..
        } && t2 == tool_call_id && n2 == name && s2 == status),
{
}

/// Replaces old tool results by short notes so that the request stays small.
pub struct Compaction {
    /// How many of the last content items are left as they are.
    pub keep_recent: usize,
}

impl Compaction {
    /// Outside the last `keep_recent` items, the result of every `read_file`
    /// call is replaced by a note naming the file (taken from the
    /// `file_path` argument of the last call with that id before it).
    pub fn apply(&self, request: &mut LlmRequest)
        ensures
            final(request).instructions == old(request).instructions,
            final(request).content@.len() == old(request).content@.len(),
            forall|i: int|
                0 <= i < old(request).content@.len() ==> compacted_item(
                    old(request).content@,
                    i,
                    if old(request).content@.len() >= self.keep_recent {
                        old(request).content@.len() - self.keep_recent
                    } else {
                        0
                    },
                    #[trigger] final(request).content@[i],
                ),
    {
        let n = request.content.len();
        let protection_from: usize = if n >= self.keep_recent { n - self.keep_recent } else { 0 };
        let ghost items = request.content@;
        let mut i: usize = 0;
        while i < n
            invariant
                i <= n,
                n == items.len(),
                request.content@.len() == n,
                request.instructions == old(request).instructions,
                items == old(request).content@,
                protection_from == if n >= self.keep_recent { n - self.keep_recent } else { 0 },
                forall|k: int| 0 <= k < i ==> compacted_item(items, k, protection_from as int, #[trigger] request.content@[k]),
                forall|k: int| i <= k < n ==> #[trigger] request.content@[k] == items[k],
                forall|k: int|
                    0 <= k < n ==> (#[trigger] request.content@[k] is ToolCall <==> items[k] is ToolCall),
                forall|k: int|
                    0 <= k < n && items[k] is ToolCall ==> #[trigger] request.content@[k] == items[k],
            decreases n - i,
        {
            let replacement: Option<ContentItem> = match &request.content[i] {
                ContentItem::ToolResult { tool_call_id, name, status, .. } => {
                    if i < protection_from && same_text(name, "read_file") {
                        let args = Self::latest_call_args(&request.content, i, tool_call_id);
                        proof {
                            lemma_latest_args_same(request.content@, items, i as int, tool_call_id@);
                        }
                        let path = match args {
                            Some(a) => match string_field(a.as_str(), "file_path") {
                                Some(p) => p,
                                None => crate::text::owned("unknow"),
                            },
                            None => crate::text::owned("unknow"),
                        };
                        let note = join2(join2("File '", path.as_str()).as_str(), "' was already read,call read_file agent if you need it.");
                        Some(ContentItem::ToolResult {
                            tool_call_id: tool_call_id.clone(),
                            name: name.clone(),
                            status: *status,
                            content: note,
                        })
                    } else {
                        None
                    }
                },
                _ => None,
            };
            match replacement {
                Some(item) => {
                    request.content.set(i, item);
                },
                None => {},
            }
            i = i + 1;
        }
    }

    /// The arguments of the last tool call before `i` with the given id.
    fn latest_call_args(items: &Vec<ContentItem>, i: usize, id: &String) -> (r: Option<String>)
        requires
            i <= items@.len(),
        ensures
            crate::json::opt_view(r) == latest_args(items@, i as int, id@),
    {
        let mut k = i;
        while k > 0
            invariant
                k <= i <= items@.len(),
                latest_args(items@, i as int, id@) == latest_args(items@, k as int, id@),
            decreases k,
        {
            match &items[k - 1] {
                ContentItem::ToolCall { tool_call_id, arguments, .. } => {
                    if *tool_call_id == *id {
                        return Some(arguments.clone());
                    }
                },
                _ => {},
            }
            k = k - 1;
        }
        None
    }
}


/// Whether two items are the same item, texts compared by their characters.
pub open spec fn same_item(a: ContentItem, b: ContentItem) -> bool {
    match (a, b) {
        (
            ContentItem::Message { role: r1, content: c1 },
            ContentItem::Message { role: r2, content: c2 },
        ) => r1@ == r2@ && c1@ == c2@,
        (
            ContentItem::ToolCall { tool_call_id: i1, name: n1, arguments: a1 },
            ContentItem::ToolCall { tool_call_id: i2, name: n2, arguments: a2 },
        ) => i1@ == i2@ && n1@ == n2@ && a1@ == a2@,
        (
            ContentItem::ToolResult { tool_call_id: i1, name: n1, status: s1, content: c1 },
            ContentItem::ToolResult { tool_call_id: i2, name: n2, status: s2, content: c2 },
        ) => i1@ == i2@ && n1@ == n2@ && s1 == s2 && c1@ == c2@,
        _ => false,
    }
}

/// Compacting an already compacted request changes nothing: with the same
/// protected tail, every item comes out as it went in.
pub proof fn lemma_compaction_idempotent(
    items: Seq<ContentItem>,
    once: Seq<ContentItem>,
    twice: Seq<ContentItem>,
    protect_from: int,
)
    requires
        once.len() == items.len(),
        twice.len() == items.len(),
        forall|i: int| 0 <= i < items.len() ==> compacted_item(items, i, protect_from, #[trigger] once[i]),
        forall|i: int| 0 <= i < items.len() ==> compacted_item(once, i, protect_from, #[trigger] twice[i]),
    ensures
        forall|i: int| 0 <= i < items.len() ==> same_item(#[trigger] twice[i], once[i]),
{
    assert forall|k: int| 0 <= k < items.len() implies (#[trigger] once[k] is ToolCall <==> items[k] is ToolCall) by {
        assert(compacted_item(items, k, protect_from, once[k]));
    }
    assert forall|k: int| 0 <= k < items.len() && items[k] is ToolCall implies #[trigger] once[k] == items[k] by {
        assert(compacted_item(items, k, protect_from, once[k]));
    }
    assert forall|i: int| 0 <= i < items.len() implies same_item(#[trigger] twice[i], once[i]) by {
        assert(compacted_item(items, i, protect_from, once[i]));
        assert(compacted_item(once, i, protect_from, twice[i]));
        match items[i] {
            ContentItem::ToolResult { tool_call_id, .. } => {
                lemma_latest_args_same(once, items, i, tool_call_id@);
            },
            _ => {},
        }
    }
}

} // verus!

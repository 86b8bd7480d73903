use vstd::prelude::*;
use crate::text::{decimal, decimal_string, join2, joined};

verus! {

/// The texts of the text blocks, in order.
pub open spec fn text_blocks(blocks: Seq<Option<String>>) -> Seq<Seq<char>>
    decreases blocks.len(),
{
    if blocks.len() == 0 {
        Seq::empty()
    } else {
        match blocks.last() {
            Some(t) => text_blocks(blocks.drop_last()).push(t@),
            None => text_blocks(blocks.drop_last()),
        }
    }
}

/// The text that a tool call answers: the text blocks joined by blank lines,
/// or, when that is empty, a note that the blocks were not text.
pub open spec fn call_result_text(name: Seq<char>, blocks: Seq<Option<String>>) -> Seq<char> {
    let text = joined(text_blocks(blocks), "\n\n"@);
    if text.len() == 0 {
        "[tool `"@ + name + "` returned "@ + decimal(blocks.len()) + " non-text content block(s), which are not supported]"@
    } else {
        text
    }
}

/// Renders the content blocks of a tool-call result (`Some` for a text block).
pub fn render_call_result(name: &str, blocks: &Vec<Option<String>>) -> (r: String)
    ensures
        r@ == call_result_text(name@, blocks@),
{
    let mut text = String::new();
    let mut count: usize = 0;
    let n = blocks.len();
    let mut i: usize = 0;
    assert(blocks@.take(0) =~= Seq::<Option<String>>::empty());
    while i < n
        invariant
            i <= n,
            n == blocks@.len(),
            count == text_blocks(blocks@.take(i as int)).len(),
            count <= i,
            text@ == joined(text_blocks(blocks@.take(i as int)), "\n\n"@),
        decreases n - i,
    {
        assert(blocks@.take(i + 1).drop_last() =~= blocks@.take(i as int));
        let ghost before = text_blocks(blocks@.take(i as int));
        match &blocks[i] {
            Some(t) => {
                assert(before.push(t@).drop_last() =~= before);
                if count > 0 {
                    text.append("\n\n");
                }
                text.append(t.as_str());
                count = count + 1;
            },
            None => {},
        }
        i = i + 1;
    }
    assert(blocks@.take(n as int) =~= blocks@);
    if text.as_str().is_empty() {
        let head = join2(join2("[tool `", name).as_str(), "` returned ");
        let num = decimal_string(n as u64);
        join2(join2(head.as_str(), num.as_str()).as_str(), " non-text content block(s), which are not supported]")
    } else {
        text
    }
}

} // verus!

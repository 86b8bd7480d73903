use vstd::prelude::*;
use crate::json::opt_view;
use crate::text::{chars_of, is_white_space, is_whitespace};

verus! {

/// Asks the user before any tool of a given set runs.
pub struct ApprovalCallback {
    dangerous_tool: Vec<String>,
}

impl ApprovalCallback {
    /// The names of the tools that need approval.
    pub closed spec fn dangerous(&self) -> Set<Seq<char>> {
        Set::new(|s: Seq<char>| exists|i: int| 0 <= i < self.dangerous_tool@.len() && #[trigger] self.dangerous_tool@[i]@ == s)
    }

    /// A callback for the given tool names.
    pub fn new(dangerous_tools: Vec<String>) -> (c: ApprovalCallback)
        ensures
            forall|s: Seq<char>|
                #[trigger] c.dangerous().contains(s) <==> exists|i: int|
                    0 <= i < dangerous_tools@.len() && #[trigger] dangerous_tools@[i]@ == s,
    {
        ApprovalCallback { dangerous_tool: dangerous_tools }
    }

    /// Whether a call of the named tool needs the user's approval.
    pub fn needs_approval(&self, name: &str) -> (b: bool)
        ensures
            b == self.dangerous().contains(name@),
    {
        let target = crate::text::owned(name);
        let n = self.dangerous_tool.len();
        let mut i: usize = 0;
        while i < n
            invariant
                i <= n,
                n == self.dangerous_tool@.len(),
                target@ == name@,
                forall|k: int| 0 <= k < i ==> self.dangerous_tool@[k]@ != name@,
            decreases n - i,
        {
            if self.dangerous_tool[i] == target {
                assert(self.dangerous().contains(name@));
                return true;
            }
            i = i + 1;
        }
        false
    }

    /// What the callback answers once the user has decided: nothing (the
    /// tool runs) when approved, else a note that stands for the tool's output.
    pub fn answer(&self, name: &str, approved: bool) -> (r: Option<String>)
        ensures
            opt_view(r) == if approved {
                None
            } else {
                Some("User denied execution of "@ + name@)
            },
    {
        if approved {
            None
        } else {
            Some(crate::text::join2("User denied execution of ", name))
        }
    }
}

/// Whether a typed line approves: once the white space around it is trimmed,
/// it is `y` or `Y`.
pub open spec fn approving_line(line: Seq<char>) -> bool {
    exists|i: int|
        0 <= i < line.len() && (line[i] == 'y' || line[i] == 'Y') && forall|j: int|
            0 <= j < line.len() && j != i ==> is_white_space(#[trigger] line[j])
}

/// Reads the user's answer (see `approving_line`).
pub fn approves(line: &str) -> (b: bool)
    ensures
        b == approving_line(line@),
{
    let chars = chars_of(line);
    let n = chars.len();
    let mut found: Option<usize> = None;
    let mut i: usize = 0;
    while i < n
        invariant
            i <= n,
            n == chars@.len(),
            chars@ == line@,
            match found {
                None => forall|j: int| 0 <= j < i ==> is_white_space(#[trigger] chars@[j]),
                Some(k) => k < i && (chars@[k as int] == 'y' || chars@[k as int] == 'Y') && forall|
                    j: int,
                | 0 <= j < i && j != k ==> is_white_space(#[trigger] chars@[j]),
            },
        decreases n - i,
    {
        let c = chars[i];
        if !is_whitespace(c) {
            match found {
                None => {
                    if c == 'y' || c == 'Y' {
                        found = Some(i);
                    } else {
                        assert(!approving_line(line@)) by {
                            assert(!is_white_space(chars@[i as int]));
                        }
                        return false;
                    }
                },
                Some(k) => {
                    assert(!approving_line(line@)) by {
                        assert(!is_white_space(chars@[i as int]));
                        assert(!is_white_space(chars@[k as int]));
                    }
                    return false;
                },
            }
        }
        i = i + 1;
    }
    match found {
        None => {
            assert(!approving_line(line@)) by {
                if approving_line(line@) {
                    let w = choose|w: int|
                        0 <= w < line@.len() && (line@[w] == 'y' || line@[w] == 'Y') && forall|j: int|
                            0 <= j < line@.len() && j != w ==> is_white_space(#[trigger] line@[j]);
                    assert(is_white_space(chars@[w]));
                }
            }
            false
        },
        Some(k) => {
            assert(approving_line(line@)) by {
                assert(0 <= k < line@.len() && (line@[k as int] == 'y' || line@[k as int] == 'Y'));
            }
            true
        },
    }
}

} // verus!

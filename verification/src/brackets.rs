//! Bracket matching: which `]` closes which `[`.
//!
//! The nesting depth after `k` bytes is the number of `[` minus the number
//! of `]` among them. A program is balanced when that depth never drops
//! below zero and ends at zero. In a balanced program every bracket belongs
//! to exactly one matched pair, and the jump table records those pairs in
//! both directions.

use std::collections::HashMap;
use vstd::prelude::*;

use crate::instruction::{is_bracket, LSQUARE, RSQUARE};

verus! {

/// Why a program text cannot be resolved into matched bracket pairs.
#[derive(Clone, Copy, Debug, PartialEq, Eq, Structural)]
pub enum ProgramError {
    /// Some `]` has no `[` before it that is still open.
    UnmatchedClosing,
    /// Every `]` has its `[`, but some `[` is never closed.
    UnmatchedOpening,
}

impl ProgramError {
    /// The diagnostic for this error.
    pub open spec fn message_spec(self) -> Seq<char> {
        match self {
            ProgramError::UnmatchedClosing => "unmatched closing square bracket"@,
            ProgramError::UnmatchedOpening => "Unmatched opening square bracket"@,
        }
    }

    /// A short text that names the error, for a diagnostic.
    pub fn message(self) -> (text: &'static str)
        ensures
            text@ == self.message_spec(),
    {
        match self {
            ProgramError::UnmatchedClosing => "unmatched closing square bracket",
            ProgramError::UnmatchedOpening => "Unmatched opening square bracket",
        }
    }
}

/// What one byte adds to the nesting depth.
pub open spec fn delta(byte: u8) -> int {
    if byte == LSQUARE {
        1
    } else if byte == RSQUARE {
        -1
    } else {
        0
    }
}

/// The nesting depth after the first `k` bytes of `code`.
pub open spec fn depth(code: Seq<u8>, k: int) -> int
    decreases k,
{
    if k <= 0 {
        0
    } else {
        depth(code, k - 1) + delta(code[k - 1])
    }
}

/// Some prefix of `code` closes more brackets than it opened.
pub open spec fn closes_unopened(code: Seq<u8>) -> bool {
    exists|k: int| 0 <= k <= code.len() && #[trigger] depth(code, k) < 0
}

/// No prefix closes more than it opened, but the whole text leaves a
/// bracket open.
pub open spec fn leaves_open(code: Seq<u8>) -> bool {
    !closes_unopened(code) && depth(code, code.len() as int) > 0
}

/// The brackets of `code` nest properly.
pub open spec fn balanced(code: Seq<u8>) -> bool {
    !closes_unopened(code) && depth(code, code.len() as int) == 0
}

/// The `[` at `open` and the `]` at `close` form a pair: the depth just
/// after `close` is back to what it was just before `open`, and it stays
/// above that everywhere in between.
pub open spec fn matched(code: Seq<u8>, open: int, close: int) -> bool {
    &&& 0 <= open < close < code.len()
    &&& code[open] == LSQUARE
    &&& code[close] == RSQUARE
    &&& depth(code, close + 1) == depth(code, open)
    &&& forall|k: int| open < k <= close ==> #[trigger] depth(code, k) > depth(code, open)
}

/// The index of the bracket paired with the bracket at `index`.
pub open spec fn partner(code: Seq<u8>, index: int) -> int {
    if code[index] == LSQUARE {
        choose|close: int| matched(code, index, close)
    } else {
        choose|open: int| matched(code, open, index)
    }
}

/// `table` is the jump table of `code`: it is defined on the indices that
/// hold a bracket and on no others, and it sends each end of a matched pair
/// to the other end.
pub open spec fn is_jump_table(code: Seq<u8>, table: Map<usize, usize>) -> bool {
    &&& code.len() <= usize::MAX
    &&& forall|i: usize|
        table.dom().contains(i) <==> (i < code.len() && is_bracket(#[trigger] code[i as int]))
    &&& forall|open: usize, close: usize|
        #[trigger] matched(code, open as int, close as int) ==> {
            &&& table.dom().contains(open)
            &&& table.dom().contains(close)
            &&& table[open] == close
            &&& table[close] == open
        }
}

/// A `[` has at most one matching `]`.
pub proof fn lemma_close_unique(code: Seq<u8>, open: int, close1: int, close2: int)
    requires
        matched(code, open, close1),
        matched(code, open, close2),
    ensures
        close1 == close2,
{
    if close1 < close2 {
        assert(depth(code, close1 + 1) > depth(code, open));
    } else if close2 < close1 {
        assert(depth(code, close2 + 1) > depth(code, open));
    }
}

/// A `]` has at most one matching `[`.
pub proof fn lemma_open_unique(code: Seq<u8>, open1: int, open2: int, close: int)
    requires
        matched(code, open1, close),
        matched(code, open2, close),
    ensures
        open1 == open2,
{
    if open1 < open2 {
        assert(depth(code, open2) > depth(code, open1));
    } else if open2 < open1 {
        assert(depth(code, open1) > depth(code, open2));
    }
}

/// Searches to the right of `open` for the `]` that closes it: the first
/// place where the depth is back to what it was before `open`.
proof fn lemma_find_close(code: Seq<u8>, open: int, k: int) -> (close: int)
    requires
        0 <= open < k <= code.len(),
        code[open] == LSQUARE,
        depth(code, code.len() as int) <= depth(code, open),
        forall|j: int| open < j <= k ==> #[trigger] depth(code, j) > depth(code, open),
    ensures
        matched(code, open, close),
    decreases code.len() - k,
{
    assert(depth(code, k) > depth(code, open));
    assert(k < code.len());
    if depth(code, k + 1) > depth(code, open) {
        lemma_find_close(code, open, k + 1)
    } else {
        k
    }
}

/// Searches to the left of `close` for the `[` that it closes: the last
/// place where the depth is what it will be after `close`.
proof fn lemma_find_open(code: Seq<u8>, close: int, k: int) -> (open: int)
    requires
        0 <= k <= close < code.len(),
        code[close] == RSQUARE,
        0 <= depth(code, close + 1),
        forall|j: int| k <= j <= close ==> #[trigger] depth(code, j) > depth(code, close + 1),
    ensures
        matched(code, open, close),
    decreases k,
{
    assert(depth(code, k) > depth(code, close + 1));
    assert(k > 0);
    if depth(code, k - 1) > depth(code, close + 1) {
        lemma_find_open(code, close, k - 1)
    } else {
        k - 1
    }
}

/// In a balanced program every bracket is one end of a matched pair,
/// `partner` names the other end, and the partner of the partner is the
/// bracket itself.
pub proof fn lemma_partner(code: Seq<u8>, index: int)
    requires
        balanced(code),
        0 <= index < code.len(),
        is_bracket(code[index]),
    ensures
        0 <= partner(code, index) < code.len(),
        code[index] == LSQUARE ==> matched(code, index, partner(code, index)),
        code[index] == RSQUARE ==> matched(code, partner(code, index), index),
        partner(code, partner(code, index)) == index,
{
    assert(depth(code, index) >= 0);
    assert(depth(code, index + 1) >= 0);
    if code[index] == LSQUARE {
        let close = lemma_find_close(code, index, index + 1);
        let other = partner(code, index);
        assert(matched(code, index, other));
        let back = partner(code, other);
        assert(matched(code, index, other) ==> matched(code, back, other));
        lemma_open_unique(code, index, back, other);
    } else {
        let open = lemma_find_open(code, index, index);
        let other = partner(code, index);
        assert(matched(code, other, index));
        let back = partner(code, other);
        assert(matched(code, other, index) ==> matched(code, other, back));
        lemma_close_unique(code, other, index, back);
    }
}

/// A jump table of a balanced program sends every bracket to its partner,
/// and following it twice leads back to where one started.
pub proof fn lemma_jump_table(code: Seq<u8>, table: Map<usize, usize>, index: usize)
    requires
        balanced(code),
        is_jump_table(code, table),
        table.dom().contains(index),
    ensures
        table[index] == partner(code, index as int),
        table.dom().contains(table[index]),
        table[table[index]] == index,
{
    assert(is_bracket(code[index as int]));
    lemma_partner(code, index as int);
    let other = partner(code, index as int) as usize;
    assert(other == partner(code, index as int));
    if code[index as int] == LSQUARE {
        assert(matched(code, index as int, other as int));
    } else {
        assert(matched(code, other as int, index as int));
    }
}

/// The `[` at `open` is still waiting for its `]` after `scanned` bytes,
/// with `below` open brackets before it that are also still waiting.
spec fn pending(code: Seq<u8>, scanned: int, open: int, below: int) -> bool {
    &&& 0 <= open < scanned
    &&& code[open] == LSQUARE
    &&& depth(code, open) == below
    &&& forall|k: int| open < k <= scanned ==> #[trigger] depth(code, k) > below
}

/// The brackets at `index` and `other` are the two ends of one pair.
spec fn paired(code: Seq<u8>, index: int, other: int) -> bool {
    if code[index] == LSQUARE {
        matched(code, index, other)
    } else {
        matched(code, other, index)
    }
}

/// Resolves the brackets of `code` into a jump table.
///
/// Scans once from the left with a stack of the `[` that are still open.
/// Succeeds exactly on balanced programs, and then the table holds both
/// directions of every matched pair. A `]` with nothing open is reported as
/// `UnmatchedClosing`, even if a later `[` is also left open; otherwise a
/// `[` left open at the end is reported as `UnmatchedOpening`.
pub fn resolve(code: &Vec<u8>) -> (result: Result<HashMap<usize, usize>, ProgramError>)
    ensures
        match result {
            Ok(table) => balanced(code@) && is_jump_table(code@, table@),
            Err(ProgramError::UnmatchedClosing) => closes_unopened(code@),
            Err(ProgramError::UnmatchedOpening) => leaves_open(code@),
        },
{
    let mut stack: Vec<usize> = Vec::new();
    let mut table: HashMap<usize, usize> = HashMap::new();
    let mut i: usize = 0;
    while i < code.len()
        invariant
            i <= code.len(),
            stack.len() == depth(code@, i as int),
            forall|k: int| 0 <= k <= i ==> #[trigger] depth(code@, k) >= 0,
            forall|p: int|
                0 <= p < stack.len() ==> pending(code@, i as int, #[trigger] stack[p] as int, p),
            forall|x: usize|
                #[trigger] table@.dom().contains(x) <==> (x < i && is_bracket(code@[x as int])
                    && !stack@.contains(x)),
            forall|x: usize|
                #[trigger] table@.dom().contains(x) ==> paired(
                    code@,
                    x as int,
                    table@[x] as int,
                ),
        decreases code.len() - i,
    {
        let byte = code[i];
        let ghost before = stack@;
        if byte == LSQUARE {
            stack.push(i);
            proof {
                assert(stack@[before.len() as int] == i);
                assert forall|x: usize| x != i implies (stack@.contains(x) <==> before.contains(
                    x,
                )) by {
                    if before.contains(x) {
                        let q = choose|q: int| 0 <= q < before.len() && before[q] == x;
                        assert(stack@[q] == x);
                    }
                }
            }
        } else if byte == RSQUARE {
            match stack.pop() {
                None => {
                    assert(depth(code@, i + 1) < 0);
                    return Err(ProgramError::UnmatchedClosing);
                },
                Some(other) => {
                    table.insert(i, other);
                    table.insert(other, i);
                    proof {
                        let top = before.len() - 1;
                        assert(other == before[top]);
                        assert(pending(code@, i as int, other as int, top));
                        assert(matched(code@, other as int, i as int));
                        assert forall|x: usize| x != other implies (stack@.contains(x)
                            <==> before.contains(x)) by {
                            if before.contains(x) {
                                let q = choose|q: int| 0 <= q < before.len() && before[q] == x;
                                assert(stack@[q] == x);
                            }
                        }
                        assert(!stack@.contains(other)) by {
                            if stack@.contains(other) {
                                let q = choose|q: int| 0 <= q < stack@.len() && stack@[q] == other;
                                assert(pending(code@, i as int, before[q] as int, q));
                            }
                        }
                        assert(!stack@.contains(i)) by {
                            if stack@.contains(i) {
                                let q = choose|q: int| 0 <= q < stack@.len() && stack@[q] == i;
                                assert(pending(code@, i as int, before[q] as int, q));
                            }
                        }
                    }
                },
            }
        }
        i += 1;
    }
    if !stack.is_empty() {
        assert(depth(code@, code@.len() as int) > 0);
        return Err(ProgramError::UnmatchedOpening);
    }
    proof {
        assert forall|open: usize, close: usize| #[trigger]
            matched(code@, open as int, close as int) implies {
            &&& table@.dom().contains(open)
            &&& table@.dom().contains(close)
            &&& table@[open] == close
            &&& table@[close] == open
        } by {
            assert(table@.dom().contains(open));
            assert(table@.dom().contains(close));
            lemma_close_unique(code@, open as int, close as int, table@[open] as int);
            lemma_open_unique(code@, open as int, table@[close] as int, close as int);
        }
    }
    Ok(table)
}

} // verus!

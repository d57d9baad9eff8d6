//! Properties of the bracket structure and of single steps, proved from the
//! definitions in `semantics`.
use vstd::prelude::*;
use crate::error::BrainfuckError;
use crate::semantics::{
    closes, depth, excess_close_at, innermost_open_at, is_bracket, is_jump_table,
    lemma_bracket_error_close, lemma_bracket_error_open, lemma_closes_unique, lemma_partner,
    nesting, no_excess_close, program_result, run_from, step, Machine,
};

verus! {

/// A jump table is an involution on bracket positions: following it twice
/// from a bracket leads back to that bracket.
pub proof fn lemma_jump_table_involution(p: Seq<char>, t: Seq<Option<usize>>)
    requires
        is_jump_table(p, t),
    ensures
        forall|i: int|
            0 <= i < p.len() && is_bracket(#[trigger] p[i]) ==> {
                &&& t[i] is Some
                &&& 0 <= t[i]->0 < p.len()
                &&& t[t[i]->0 as int] == Some(i as usize)
            },
{
    assert forall|i: int| 0 <= i < p.len() && is_bracket(#[trigger] p[i]) implies {
        &&& t[i] is Some
        &&& 0 <= t[i]->0 < p.len()
        &&& t[t[i]->0 as int] == Some(i as usize)
    } by {
        assert(t[i] is Some);
        let j = t[i]->0 as int;
        assert(closes(p, i, j) || closes(p, j, i));
        assert(is_bracket(p[j]));
        assert(t[j] is Some);
        let k = t[j]->0 as int;
        assert(closes(p, j, k) || closes(p, k, j));
        if closes(p, i, j) {
            lemma_closes_unique(p, i, j, k, j);
        } else {
            lemma_closes_unique(p, j, i, j, k);
        }
    }
}

proof fn lemma_find_innermost_open(p: Seq<char>, hi: int) -> (i: int)
    requires
        no_excess_close(p),
        depth(p, p.len() as int) > 0,
        0 < hi <= p.len(),
        forall|k: int| hi <= k <= p.len() ==> #[trigger] depth(p, k) >= depth(p, p.len() as int),
    ensures
        innermost_open_at(p, i),
    decreases hi,
{
    let d = depth(p, p.len() as int);
    if depth(p, hi - 1) <= d - 1 {
        assert(depth(p, hi) == depth(p, hi - 1) + nesting(p[hi - 1]));
        hi - 1
    } else {
        assert(depth(p, 0) == 0);
        lemma_find_innermost_open(p, hi - 1)
    }
}

/// A program with more `[` than `]`, and no `]` in excess on the way, fails
/// with the innermost `[` left open.
pub proof fn lemma_unclosed_open_reported(p: Seq<char>, capacity: nat, max_steps: nat)
    requires
        no_excess_close(p),
        depth(p, p.len() as int) > 0,
    ensures
        exists|i: int|
            innermost_open_at(p, i) && program_result(p, capacity, max_steps)
                == Err::<Seq<char>, BrainfuckError>(BrainfuckError::UnmatchedOpenBracket(i as usize)),
{
    let i = lemma_find_innermost_open(p, p.len() as int);
    lemma_bracket_error_open(p, i);
}

proof fn lemma_find_excess_close(p: Seq<char>, lo: int, w: int) -> (i: int)
    requires
        0 <= lo < w <= p.len(),
        depth(p, w) < 0,
        forall|k: int| 0 <= k <= lo ==> #[trigger] depth(p, k) >= 0,
    ensures
        excess_close_at(p, i),
    decreases w - lo,
{
    assert(depth(p, lo + 1) == depth(p, lo) + nesting(p[lo]));
    if depth(p, lo + 1) < 0 {
        lo
    } else {
        lemma_find_excess_close(p, lo + 1, w)
    }
}

/// A program where some prefix closes more than it opens fails with the
/// first `]` in excess.
pub proof fn lemma_excess_close_reported(p: Seq<char>, capacity: nat, max_steps: nat)
    requires
        !no_excess_close(p),
    ensures
        exists|i: int|
            excess_close_at(p, i) && program_result(p, capacity, max_steps)
                == Err::<Seq<char>, BrainfuckError>(BrainfuckError::UnmatchedCloseBracket(i as usize)),
{
    let w = choose|k: int| 0 <= k <= p.len() && depth(p, k) < 0;
    assert(depth(p, 0) == 0);
    let i = lemma_find_excess_close(p, 0, w);
    lemma_bracket_error_close(p, i);
}

/// The pointer's cell, where the pointer is on the tape.
pub open spec fn on_tape(m: Machine) -> bool {
    0 <= m.pointer < m.tape.len()
}

/// Cell arithmetic wraps: `-` on a zero cell leaves 255 there, `+` on 255
/// leaves zero.
pub proof fn lemma_cell_wraps(p: Seq<char>, capacity: int, m: Machine)
    requires
        0 <= m.ip < p.len(),
        on_tape(m),
    ensures
        p[m.ip] == '-' && m.tape[m.pointer] == 0 ==> step(p, capacity, m) == Ok::<
            Machine,
            BrainfuckError,
        >(Machine { tape: m.tape.update(m.pointer, 255), ip: m.ip + 1, ..m }),
        p[m.ip] == '+' && m.tape[m.pointer] == 255 ==> step(p, capacity, m) == Ok::<
            Machine,
            BrainfuckError,
        >(Machine { tape: m.tape.update(m.pointer, 0), ip: m.ip + 1, ..m }),
{
}

/// `<` on the first cell fails `PointerUnderflow`; `>` on the last cell
/// fails `PointerOverflow`.
pub proof fn lemma_pointer_bounds(p: Seq<char>, capacity: int, m: Machine)
    requires
        0 <= m.ip < p.len(),
    ensures
        p[m.ip] == '<' && m.pointer == 0 ==> step(p, capacity, m) == Err::<Machine, BrainfuckError>(
            BrainfuckError::PointerUnderflow,
        ),
        p[m.ip] == '>' && m.pointer == capacity - 1 ==> step(p, capacity, m) == Err::<
            Machine,
            BrainfuckError,
        >(BrainfuckError::PointerOverflow),
{
}

/// One of the eight instruction characters.
pub open spec fn is_operator(c: char) -> bool {
    c == '>' || c == '<' || c == '+' || c == '-' || c == '.' || c == ',' || c == '[' || c == ']'
}

/// A character that is no instruction only moves on to the next one:
/// tape, pointer and output stay as they are.
pub proof fn lemma_comment_is_inert(p: Seq<char>, capacity: int, m: Machine)
    requires
        0 <= m.ip < p.len(),
        !is_operator(p[m.ip]),
    ensures
        step(p, capacity, m) == Ok::<Machine, BrainfuckError>(Machine { ip: m.ip + 1, ..m }),
{
}

/// `,` fails `InputNotSupported` whenever it is reached, whatever the tape,
/// pointer and output.
pub proof fn lemma_input_rejected(p: Seq<char>, capacity: int, m: Machine)
    requires
        0 <= m.ip < p.len(),
        p[m.ip] == ',',
    ensures
        step(p, capacity, m) == Err::<Machine, BrainfuckError>(BrainfuckError::InputNotSupported),
{
}

/// Entered with a nonzero cell, a loop whose body holds only `.` and
/// characters that are no instructions runs until the budget is spent, and
/// fails `MaxStepsExceeded`.
pub proof fn lemma_idle_loop_exhausts_budget(
    p: Seq<char>,
    capacity: int,
    m: Machine,
    open: int,
    close: int,
    budget: nat,
)
    requires
        closes(p, open, close),
        forall|k: int| open < k < close ==> #[trigger] p[k] == '.' || !is_operator(p[k]),
        open <= m.ip <= close,
        on_tape(m),
        m.tape[m.pointer] != 0,
    ensures
        run_from(p, capacity, m, budget) == Err::<Seq<char>, BrainfuckError>(
            BrainfuckError::MaxStepsExceeded,
        ),
    decreases budget,
{
    if budget > 0 {
        let c = p[m.ip];
        if m.ip == close {
            lemma_partner(p, open, close);
        }
        let n = step(p, capacity, m)->Ok_0;
        assert(step(p, capacity, m) is Ok);
        lemma_idle_loop_exhausts_budget(p, capacity, n, open, close, (budget - 1) as nat);
    }
}

} // verus!

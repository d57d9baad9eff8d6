//! The meaning of a program, stated over `Seq<char>`: bracket depth and
//! matching, and a run as a sequence of single steps.
use vstd::prelude::*;
use crate::error::BrainfuckError;

verus! {

/// How a character changes the bracket nesting depth.
pub open spec fn nesting(c: char) -> int {
    if c == '[' {
        1
    } else if c == ']' {
        -1
    } else {
        0
    }
}

/// Opened minus closed brackets among the first `k` characters.
pub open spec fn depth(p: Seq<char>, k: int) -> int
    decreases k,
{
    if k <= 0 {
        0
    } else {
        depth(p, k - 1) + nesting(p[k - 1])
    }
}

pub open spec fn is_bracket(c: char) -> bool {
    c == '[' || c == ']'
}

/// The `]` at `j` closes the `[` at `i`: it is where the depth first falls
/// back to what it was before `i`.
pub open spec fn closes(p: Seq<char>, i: int, j: int) -> bool {
    &&& 0 <= i < j < p.len()
    &&& p[i] == '['
    &&& p[j] == ']'
    &&& depth(p, j + 1) == depth(p, i)
    &&& forall|k: int| i < k <= j ==> #[trigger] depth(p, k) > depth(p, i)
}

/// No prefix closes more brackets than it opens.
pub open spec fn no_excess_close(p: Seq<char>) -> bool {
    forall|k: int| 0 <= k <= p.len() ==> #[trigger] depth(p, k) >= 0
}

/// Every bracket has its counterpart.
pub open spec fn well_nested(p: Seq<char>) -> bool {
    no_excess_close(p) && depth(p, p.len() as int) == 0
}

/// `i` is the first `]` that closes more than has been opened.
pub open spec fn excess_close_at(p: Seq<char>, i: int) -> bool {
    &&& 0 <= i < p.len()
    &&& p[i] == ']'
    &&& depth(p, i) == 0
    &&& forall|k: int| 0 <= k <= i ==> #[trigger] depth(p, k) >= 0
}

/// `i` is the innermost `[` left open at the end, in a program with no
/// excess `]`.
pub open spec fn innermost_open_at(p: Seq<char>, i: int) -> bool {
    &&& no_excess_close(p)
    &&& 0 <= i < p.len()
    &&& p[i] == '['
    &&& depth(p, i) == depth(p, p.len() as int) - 1
    &&& forall|k: int| i < k <= p.len() ==> #[trigger] depth(p, k) >= depth(p, p.len() as int)
}

/// The counterpart of the bracket at `i`.
pub open spec fn partner(p: Seq<char>, i: int) -> int {
    choose|j: int| closes(p, i, j) || closes(p, j, i)
}

/// `t` maps each bracket to its counterpart and nothing else.
pub open spec fn is_jump_table(p: Seq<char>, t: Seq<Option<usize>>) -> bool {
    &&& t.len() == p.len()
    &&& forall|i: int|
        0 <= i < p.len() ==> (#[trigger] t[i] is Some <==> is_bracket(p[i]))
    &&& forall|i: int|
        0 <= i < p.len() && #[trigger] t[i] is Some ==> (closes(p, i, t[i]->0 as int) || closes(
            p,
            t[i]->0 as int,
            i,
        ))
}

/// The bracket error of a program that is not well nested.
pub open spec fn bracket_error(p: Seq<char>) -> BrainfuckError {
    if exists|i: int| excess_close_at(p, i) {
        BrainfuckError::UnmatchedCloseBracket((choose|i: int| excess_close_at(p, i)) as usize)
    } else {
        BrainfuckError::UnmatchedOpenBracket((choose|i: int| innermost_open_at(p, i)) as usize)
    }
}

/// Everything a run can change: tape, pointer, output and the index of the
/// next instruction.
pub struct Machine {
    pub tape: Seq<u8>,
    pub pointer: int,
    pub output: Seq<char>,
    pub ip: int,
}

pub open spec fn fresh_machine(capacity: nat) -> Machine {
    Machine { tape: Seq::new(capacity, |i: int| 0u8), pointer: 0, output: Seq::empty(), ip: 0 }
}

pub open spec fn cell_inc(b: u8) -> u8 {
    ((b + 1) % 256) as u8
}

pub open spec fn cell_dec(b: u8) -> u8 {
    ((b + 255) % 256) as u8
}

/// One instruction at `m.ip`: the machine after it, or the error it raises.
pub open spec fn step(p: Seq<char>, capacity: int, m: Machine) -> Result<Machine, BrainfuckError> {
    let c = p[m.ip];
    let cell = m.tape[m.pointer];
    let next = Machine { ip: m.ip + 1, ..m };
    if c == '>' {
        if m.pointer + 1 >= capacity {
            Err(BrainfuckError::PointerOverflow)
        } else {
            Ok(Machine { pointer: m.pointer + 1, ..next })
        }
    } else if c == '<' {
        if m.pointer == 0 {
            Err(BrainfuckError::PointerUnderflow)
        } else {
            Ok(Machine { pointer: m.pointer - 1, ..next })
        }
    } else if c == '+' {
        Ok(Machine { tape: m.tape.update(m.pointer, cell_inc(cell)), ..next })
    } else if c == '-' {
        Ok(Machine { tape: m.tape.update(m.pointer, cell_dec(cell)), ..next })
    } else if c == '.' {
        Ok(Machine { output: m.output.push(cell as char), ..next })
    } else if c == ',' {
        Err(BrainfuckError::InputNotSupported)
    } else if (c == '[' && cell == 0) || (c == ']' && cell != 0) {
        Ok(Machine { ip: partner(p, m.ip) + 1, ..m })
    } else {
        Ok(next)
    }
}

/// Runs from `m` with `budget` steps left.
pub open spec fn run_from(p: Seq<char>, capacity: int, m: Machine, budget: nat) -> Result<
    Seq<char>,
    BrainfuckError,
>
    decreases budget,
{
    if !(0 <= m.ip < p.len()) {
        Ok(m.output)
    } else if budget == 0 {
        Err(BrainfuckError::MaxStepsExceeded)
    } else {
        match step(p, capacity, m) {
            Ok(n) => run_from(p, capacity, n, (budget - 1) as nat),
            Err(e) => Err(e),
        }
    }
}

/// What running `p` on a fresh tape of `capacity` cells, with at most
/// `max_steps` steps, produces.
pub open spec fn program_result(p: Seq<char>, capacity: nat, max_steps: nat) -> Result<
    Seq<char>,
    BrainfuckError,
> {
    if well_nested(p) {
        run_from(p, capacity as int, fresh_machine(capacity), max_steps)
    } else {
        Err(bracket_error(p))
    }
}

} // verus!

verus! {

/// A `[` is closed by at most one `]`, and a `]` closes at most one `[`.
pub proof fn lemma_closes_unique(p: Seq<char>, i: int, j: int, i2: int, j2: int)
    requires
        closes(p, i, j),
        closes(p, i2, j2),
        i == i2 || j == j2,
    ensures
        i == i2 && j == j2,
{
    if i == i2 && j < j2 {
        assert(depth(p, j + 1) > depth(p, i));
    } else if i == i2 && j2 < j {
        assert(depth(p, j2 + 1) > depth(p, i));
    } else if j == j2 && i < i2 {
        assert(depth(p, i2) > depth(p, i));
    } else if j == j2 && i2 < i {
        assert(depth(p, i) > depth(p, i2));
    }
}

/// The counterpart of either end of a matched pair is the other end.
pub proof fn lemma_partner(p: Seq<char>, i: int, j: int)
    requires
        closes(p, i, j),
    ensures
        partner(p, i) == j,
        partner(p, j) == i,
{
    let a = partner(p, i);
    assert(closes(p, i, a) || closes(p, a, i));
    if closes(p, i, a) {
        lemma_closes_unique(p, i, j, i, a);
    }
    let b = partner(p, j);
    assert(closes(p, j, b) || closes(p, b, j));
    if closes(p, b, j) {
        lemma_closes_unique(p, i, j, b, j);
    }
}

pub proof fn lemma_excess_close_unique(p: Seq<char>, i: int, i2: int)
    requires
        excess_close_at(p, i),
        excess_close_at(p, i2),
    ensures
        i == i2,
{
    if i < i2 {
        assert(depth(p, i + 1) >= 0);
    } else if i2 < i {
        assert(depth(p, i2 + 1) >= 0);
    }
}

pub proof fn lemma_innermost_open_unique(p: Seq<char>, i: int, i2: int)
    requires
        innermost_open_at(p, i),
        innermost_open_at(p, i2),
    ensures
        i == i2,
{
    if i < i2 {
        assert(depth(p, i2) >= depth(p, p.len() as int));
    } else if i2 < i {
        assert(depth(p, i) >= depth(p, p.len() as int));
    }
}

/// A first excess `]` is what `bracket_error` reports.
pub proof fn lemma_bracket_error_close(p: Seq<char>, i: int)
    requires
        excess_close_at(p, i),
    ensures
        bracket_error(p) == BrainfuckError::UnmatchedCloseBracket(i as usize),
        !well_nested(p),
{
    let c = choose|k: int| excess_close_at(p, k);
    lemma_excess_close_unique(p, i, c);
    assert(depth(p, i + 1) == -1);
}

/// Without an excess `]`, the innermost open `[` is what `bracket_error`
/// reports.
pub proof fn lemma_bracket_error_open(p: Seq<char>, i: int)
    requires
        innermost_open_at(p, i),
    ensures
        bracket_error(p) == BrainfuckError::UnmatchedOpenBracket(i as usize),
        !well_nested(p),
{
    if exists|k: int| excess_close_at(p, k) {
        let k = choose|k: int| excess_close_at(p, k);
        assert(depth(p, k + 1) >= 0);
    }
    let c = choose|k: int| innermost_open_at(p, k);
    lemma_innermost_open_unique(p, i, c);
    assert(depth(p, i) >= 0);
}

} // verus!

//! The interpreter: a jump table from the bracket structure, then a run
//! over a fixed-size tape with a step budget.
use vstd::prelude::*;
use crate::error::BrainfuckError;
use crate::semantics::{
    closes, depth, excess_close_at, fresh_machine, innermost_open_at, is_bracket,
    is_jump_table, lemma_bracket_error_close, lemma_bracket_error_open, lemma_partner, nesting,
    program_result, run_from, step, well_nested, Machine,
};

verus! {

/// Number of tape cells of `BrainfuckInterpreter::new`.
pub const TAPE_SIZE: usize = 30_000;

/// Step budget of `BrainfuckInterpreter::new`.
pub const MAX_STEPS: usize = 1_000_000;

/// The characters of `code`, in order.
pub fn program_chars(code: &str) -> (r: Vec<char>)
    ensures
        r@ == code@,
{
    let mut v: Vec<char> = Vec::new();
    for c in it: code.chars()
        invariant
            v@ == it.seq().take(it.index() as int),
            it.seq() == code@,
    {
        v.push(c);
    }
    v
}

/// Runs `code` on a fresh interpreter with `TAPE_SIZE` cells and a budget
/// of `MAX_STEPS`: what it prints, or the first error it meets.
pub fn brainfuck(code: &str) -> (r: Result<String, BrainfuckError>)
    ensures
        result_view(r) == program_result(code@, TAPE_SIZE as nat, MAX_STEPS as nat),
{
    let mut interpreter = BrainfuckInterpreter::new();
    interpreter.execute(code)
}

/// Relies on `String::push`: appends one character.
#[verifier::external_body]
fn push_char(s: &mut String, c: char)
    ensures
        final(s)@ == old(s)@.push(c),
{
    s.push(c)
}

/// A run's result with the output as a sequence of characters.
pub open spec fn result_view(r: Result<String, BrainfuckError>) -> Result<Seq<char>, BrainfuckError> {
    match r {
        Ok(s) => Ok(s@),
        Err(e) => Err(e),
    }
}

/// A tape, a pointer into it and the output so far, with the limits a run
/// is held to.
pub struct BrainfuckInterpreter {
    tape: Vec<u8>,
    pointer: usize,
    output: String,
    capacity: usize,
    max_steps: usize,
}

impl BrainfuckInterpreter {
    /// Number of tape cells.
    pub closed spec fn capacity_spec(&self) -> nat {
        self.capacity as nat
    }

    /// Most instructions one run may dispatch.
    pub closed spec fn max_steps_spec(&self) -> nat {
        self.max_steps as nat
    }

    /// The tape has `capacity` cells, of which the pointer names one.
    pub closed spec fn wf(&self) -> bool {
        &&& self.capacity >= 1
        &&& self.tape@.len() == self.capacity
        &&& self.pointer < self.capacity
    }

    /// An interpreter with `TAPE_SIZE` cells and a budget of `MAX_STEPS`.
    pub fn new() -> (r: Self)
        ensures
            r.wf(),
            r.capacity_spec() == TAPE_SIZE,
            r.max_steps_spec() == MAX_STEPS,
    {
        Self::with_limits(TAPE_SIZE, MAX_STEPS)
    }

    /// An interpreter with `capacity` cells and a budget of `max_steps`.
    pub fn with_limits(capacity: usize, max_steps: usize) -> (r: Self)
        requires
            capacity >= 1,
        ensures
            r.wf(),
            r.capacity_spec() == capacity,
            r.max_steps_spec() == max_steps,
    {
        BrainfuckInterpreter {
            tape: vec![0u8; capacity],
            pointer: 0,
            output: String::new(),
            capacity,
            max_steps,
        }
    }

    /// The counterpart of each bracket of `code`, by character index; the
    /// first excess `]`, or else the innermost `[` left open, is an error.
    pub fn find_matching_brackets(code: &str) -> (r: Result<Vec<Option<usize>>, BrainfuckError>)
        ensures
            r is Ok <==> well_nested(code@),
            match r {
                Ok(t) => is_jump_table(code@, t@),
                Err(BrainfuckError::UnmatchedCloseBracket(i)) => excess_close_at(code@, i as int),
                Err(BrainfuckError::UnmatchedOpenBracket(i)) => innermost_open_at(code@, i as int),
                Err(_) => false,
            },
    {
        let chars = program_chars(code);
        Self::match_brackets(&chars)
    }

    /// `find_matching_brackets` over the characters of a program.
    fn match_brackets(chars: &Vec<char>) -> (r: Result<Vec<Option<usize>>, BrainfuckError>)
        ensures
            r is Ok <==> well_nested(chars@),
            match r {
                Ok(t) => is_jump_table(chars@, t@),
                Err(BrainfuckError::UnmatchedCloseBracket(i)) => excess_close_at(chars@, i as int),
                Err(BrainfuckError::UnmatchedOpenBracket(i)) => innermost_open_at(chars@, i as int),
                Err(_) => false,
            },
    {
        let ghost p = chars@;
        let n = chars.len();
        let mut jump_table: Vec<Option<usize>> = vec![None; n];
        let mut stack: Vec<usize> = Vec::new();
        let mut i: usize = 0;
        while i < n
            invariant
                n == p.len(),
                p == chars@,
                0 <= i <= n,
                jump_table@.len() == n,
                forall|k: int| 0 <= k <= i ==> #[trigger] depth(p, k) >= 0,
                stack@.len() == depth(p, i as int),
                // the open brackets not yet closed, outermost first
                forall|d: int|
                    0 <= d < stack@.len() ==> {
                        let o = #[trigger] stack@[d] as int;
                        &&& o < i
                        &&& p[o] == '['
                        &&& depth(p, o) == d
                        &&& jump_table@[o] is None
                        &&& forall|k: int| o < k <= i ==> #[trigger] depth(p, k) > d
                    },
                forall|j: int|
                    0 <= j < n ==> {
                        let e = #[trigger] jump_table@[j];
                        &&& (i <= j || !is_bracket(p[j])) ==> e is None
                        &&& (j < i && p[j] == ']') ==> e is Some && closes(p, e->0 as int, j)
                        &&& (j < i && p[j] == '[' && e is Some) ==> closes(p, j, e->0 as int)
                        &&& (j < i && p[j] == '[' && e is None) ==> depth(p, j) < stack@.len()
                            && stack@[depth(p, j)] == j
                    },
            decreases n - i,
        {
            let ghost d0 = depth(p, i as int);
            assert(depth(p, i + 1) == d0 + nesting(p[i as int]));
            let c = chars[i];
            if c == '[' {
                stack.push(i);
            } else if c == ']' {
                match stack.pop() {
                    Some(open_pos) => {
                        assert(closes(p, open_pos as int, i as int));
                        jump_table.set(open_pos, Some(i));
                        jump_table.set(i, Some(open_pos));
                    },
                    None => {
                        return Err(BrainfuckError::UnmatchedCloseBracket(i));
                    },
                }
            }
            i = i + 1;
        }
        match stack.pop() {
            Some(open_pos) => {
                assert(innermost_open_at(p, open_pos as int));
                proof {
                    lemma_bracket_error_open(p, open_pos as int);
                }
                Err(BrainfuckError::UnmatchedOpenBracket(open_pos))
            },
            None => Ok(jump_table),
        }
    }

    /// The machine these fields describe, about to run instruction `ip`.
    closed spec fn machine(&self, ip: int) -> Machine {
        Machine { tape: self.tape@, pointer: self.pointer as int, output: self.output@, ip }
    }

    /// Runs `code` from a zeroed tape, the pointer on the first cell and no
    /// output; what it prints, or the first error it meets.
    pub fn execute(&mut self, code: &str) -> (r: Result<String, BrainfuckError>)
        requires
            old(self).wf(),
        ensures
            final(self).wf(),
            final(self).capacity_spec() == old(self).capacity_spec(),
            final(self).max_steps_spec() == old(self).max_steps_spec(),
            result_view(r) == program_result(
                code@,
                old(self).capacity_spec(),
                old(self).max_steps_spec(),
            ),
    {
        let chars = program_chars(code);
        let jump_table = match Self::match_brackets(&chars) {
            Ok(t) => t,
            Err(e) => {
                proof {
                    match e {
                        BrainfuckError::UnmatchedCloseBracket(i) => {
                            lemma_bracket_error_close(code@, i as int);
                        },
                        BrainfuckError::UnmatchedOpenBracket(i) => {
                            lemma_bracket_error_open(code@, i as int);
                        },
                        _ => {},
                    }
                }
                return Err(e);
            },
        };
        self.tape = vec![0u8; self.capacity];
        self.pointer = 0;
        self.output = String::new();
        assert(self.machine(0) == fresh_machine(self.capacity as nat)) by {
            assert(self.tape@ =~= Seq::new(self.capacity as nat, |i: int| 0u8));
        }
        self.run(&chars, &jump_table)
    }

    /// Runs a well-nested program from the current tape, pointer and output.
    fn run(&mut self, chars: &Vec<char>, jump_table: &Vec<Option<usize>>) -> (r: Result<
        String,
        BrainfuckError,
    >)
        requires
            old(self).wf(),
            well_nested(chars@),
            is_jump_table(chars@, jump_table@),
        ensures
            final(self).wf(),
            final(self).capacity == old(self).capacity,
            final(self).max_steps == old(self).max_steps,
            result_view(r) == run_from(
                chars@,
                old(self).capacity as int,
                old(self).machine(0),
                old(self).max_steps as nat,
            ),
    {
        let ghost p = chars@;
        let ghost cap = self.capacity as int;
        let ghost start = self.machine(0);
        let n = chars.len();
        let mut ip: usize = 0;
        let mut steps: usize = 0;
        while ip < n
            invariant
                p == chars@,
                n == p.len(),
                is_jump_table(p, jump_table@),
                self.wf(),
                self.capacity == cap,
                cap == old(self).capacity,
                start == old(self).machine(0),
                self.max_steps == old(self).max_steps,
                ip <= n,
                steps <= self.max_steps,
                run_from(p, cap, self.machine(ip as int), (self.max_steps - steps) as nat)
                    == run_from(p, cap, start, self.max_steps as nat),
            decreases self.max_steps - steps,
        {
            let ghost m = self.machine(ip as int);
            let ghost budget = (self.max_steps - steps) as nat;
            if steps >= self.max_steps {
                return Err(BrainfuckError::MaxStepsExceeded);
            }
            steps = steps + 1;
            assert(run_from(p, cap, m, budget) == match step(p, cap, m) {
                Ok(next) => run_from(p, cap, next, (budget - 1) as nat),
                Err(e) => Err(e),
            });
            let c = chars[ip];
            if c == '>' {
                if self.pointer >= self.capacity - 1 {
                    return Err(BrainfuckError::PointerOverflow);
                }
                self.pointer = self.pointer + 1;
            } else if c == '<' {
                if self.pointer == 0 {
                    return Err(BrainfuckError::PointerUnderflow);
                }
                self.pointer = self.pointer - 1;
            } else if c == '+' {
                let v = self.tape[self.pointer];
                self.tape.set(self.pointer, v.wrapping_add(1));
            } else if c == '-' {
                let v = self.tape[self.pointer];
                self.tape.set(self.pointer, v.wrapping_sub(1));
            } else if c == '.' {
                let v = self.tape[self.pointer];
                push_char(&mut self.output, v as char);
            } else if c == ',' {
                return Err(BrainfuckError::InputNotSupported);
            } else if c == '[' {
                if self.tape[self.pointer] == 0 {
                    if let Some(matching) = jump_table[ip] {
                        proof {
                            lemma_partner(p, ip as int, matching as int);
                        }
                        ip = matching;
                    }
                }
            } else if c == ']' {
                if self.tape[self.pointer] != 0 {
                    if let Some(matching) = jump_table[ip] {
                        proof {
                            lemma_partner(p, matching as int, ip as int);
                        }
                        ip = matching;
                    }
                }
            }
            ip = ip + 1;
            assert(step(p, cap, m) == Ok::<Machine, BrainfuckError>(self.machine(ip as int)));
        }
        Ok(self.output.clone())
    }
}

} // verus!

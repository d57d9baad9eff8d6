use vstd::prelude::*;

verus! {

/// Why a program could not be run to completion.
#[derive(Debug, Clone, Copy, PartialEq, Eq, Structural)]
pub enum BrainfuckError {
    /// A `[` that no `]` closes, at this character index.
    UnmatchedOpenBracket(usize),
    /// A `]` that no `[` opens, at this character index.
    UnmatchedCloseBracket(usize),
    /// `<` with the pointer on the first cell.
    PointerUnderflow,
    /// `>` with the pointer on the last cell.
    PointerOverflow,
    /// `,` was reached: there is no input channel.
    InputNotSupported,
    /// The step budget ran out before the program ended.
    MaxStepsExceeded,
}

} // verus!

//! The kinds of request the assistant serves.
use vstd::prelude::*;

verus! {

/// What a request asks the model for.
#[derive(Clone, Copy, PartialEq, Eq, Structural, Debug)]
pub enum TaskKind {
    Code,
    Explain,
    Notes,
    Fix,
    Quiz,
    Summarize,
    QuizFile,
    Chat,
    Prompt,
}

} // verus!

//! Fatal conditions of parsing and of code generation.
//!
//! Every condition the engine can reject is surfaced as a value; no library
//! function panics.
use vstd::prelude::*;

verus! {

/// A fatal condition found while parsing template source.
#[derive(Clone, Copy, PartialEq, Eq, Structural, Debug)]
pub enum ParseError {
    /// The grammar failed, or unconsumed input remains; the offset is where
    /// parsing stopped.
    Syntax(usize),
    /// Non-whitespace text stands between a `match` head and its first `when`;
    /// the offset is where the stray text was found.
    MatchNonWhitespace(usize),
}

/// A soft or fatal failure of one parsing function: `Soft` lets the caller
/// try the next alternative, `Fatal` aborts the whole parse.
#[derive(Clone, Copy, PartialEq, Eq, Structural, Debug)]
pub enum PFail {
    Soft,
    Fatal(ParseError),
}

/// A fatal condition found while assembling generation state or emitting code.
#[derive(Clone, Copy, PartialEq, Eq, Structural, Debug)]
pub enum GenError {
    /// More than one `extends` directive in one template.
    MultipleExtends,
    /// A block definition below the top level of a template or of a block.
    NestedBlockDef,
    /// A macro definition below the top level.
    NestedMacro,
    /// An import below the top level.
    NestedImport,
    /// An `extends` below the top level.
    NestedExtends,
    /// A `call` names a macro that is neither local nor imported.
    UnknownMacro,
    /// A `loop.*` attribute other than `index` or `index0`.
    UnknownLoopAttribute,
    /// A macro call supplies fewer arguments than the macro has parameters.
    MacroArgumentMissing,
    /// A derived template's host type has no `_parent` field.
    MissingParentField,
    /// The host type is not a struct with named fields.
    NotANamedStruct,
    /// The loader has no entry for a referenced template path.
    TemplateNotFound,
    /// An included template failed to parse.
    IncludeSyntax(ParseError),
    /// Include or macro-call nesting exceeded the recursion bound.
    RecursionLimit,
    /// The emitted-source indentation would drop below zero.
    IndentUnderflow,
    /// The emitted-source indentation would exceed its bound.
    IndentOverflow,
    /// A literal was emitted while trailing whitespace was still pending.
    PendingWhitespace,
    /// A literal node's parts do not satisfy the whitespace split invariant.
    MalformedLiteral,
    /// The fresh-name counter for lifted arguments is exhausted.
    TooManyTemporaries,
    /// A conditional chain with no arms, or whose first arm has no condition.
    MalformedConditional,
}

} // verus!

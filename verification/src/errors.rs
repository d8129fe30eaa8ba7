use vstd::prelude::*;

verus! {

/// A structural error raised while compiling a pattern, or an internal
/// consistency violation detected while rendering. A pattern that fails to
/// compile is unusable; rendering never recovers from these.
#[derive(Clone, Copy, Debug, PartialEq, Eq, Structural)]
pub enum PatternError {
    /// A `}` with no `{` open before it.
    NoMatchingBrace,
    /// A `{` left unclosed at the end of the pattern.
    MismatchedBraces,
    /// A `{...}` segment whose header is neither a placeholder nor a
    /// select/plural/selectordinal header.
    UnknownBlockType,
    /// A choice key with no `{...}` segment after it.
    MissingValueElement,
    /// A choice key followed by plain text where a `{...}` segment was due.
    InvalidValueElement,
    /// A plural offset too large to represent.
    InvalidOffset,
    /// A choice construct without an `other` branch.
    MissingOther,
    /// A `#` left outside any plural/ordinal scope after a full render pass.
    UnresolvedPound,
}

} // verus!

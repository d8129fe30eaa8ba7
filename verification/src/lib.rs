//! An ICU-style MessageFormat engine: patterns holding plain text, simple
//! placeholders and nested select / plural / selectordinal constructs are
//! compiled once into a syntax tree and then rendered against named runtime
//! parameters, with locale-sensitive pluralization and number formatting.

pub mod ast;
pub mod laws;
pub mod errors;
pub mod literals;
pub mod locale;
pub mod param;
pub mod parse;
pub mod render;
pub mod text;
pub mod tokenize;

use vstd::prelude::*;

use crate::ast::{blocks_view, wf_blocks, Block, BlockV};
use crate::errors::PatternError;
use crate::literals::{protect_literals, protect_quotes, spec_protect_literals,
    spec_protect_quotes};
use crate::locale::Locale;
use crate::param::{ParamValue, ParamValueV};
use crate::parse::{lemma_parse_blocks_wf, parse_block, spec_parse_blocks};
use crate::render::{params_view, spec_format, Formatter};
use crate::text::str_chars;

verus! {

/// Compile a raw pattern: protect quoted literals, then tokenize and parse
/// the result into a block sequence, keeping the literal table alongside.
pub open spec fn spec_compile(p: Seq<char>) -> Result<
    (Seq<BlockV>, Seq<Seq<char>>),
    PatternError,
> {
    let q = spec_protect_quotes(p, Seq::empty());
    let l = spec_protect_literals(q.0, q.1);
    match spec_parse_blocks(l.0) {
        Result::Ok(bs) => Ok((bs, l.1)),
        Result::Err(e) => Err(e),
    }
}

/// A MessageFormat pattern, compiled on first use and rendered against
/// named parameters. The compiled tree and its literal table are kept on
/// the instance; each render call works on its own copy of the table.
pub struct MessageFormat {
    pattern: Option<String>,
    initial_literals: Vec<Vec<char>>,
    parsed_pattern: Vec<Block>,
    locale: Locale,
}

impl MessageFormat {
    /// The pattern still waiting to be compiled, if any.
    pub closed spec fn pending_pattern(&self) -> Option<Seq<char>> {
        match self.pattern {
            Option::Some(p) => Some(p@),
            Option::None => None,
        }
    }

    /// The compiled block sequence and literal table.
    pub closed spec fn compiled(&self) -> (Seq<BlockV>, Seq<Seq<char>>) {
        (blocks_view(self.parsed_pattern@), self.initial_literals.deep_view())
    }

    /// The tag of the locale this formatter renders for.
    pub closed spec fn locale_tag(&self) -> Seq<char> {
        self.locale@
    }

    /// Once compiled, the pattern tree is well-formed.
    pub closed spec fn wf(&self) -> bool {
        self.pattern is None ==> wf_blocks(blocks_view(self.parsed_pattern@))
    }

    /// What rendering from the current state yields: compile the pending
    /// pattern if one is left, then render it against the parameters.
    pub open spec fn spec_state_format(
        &self,
        ps: Seq<(Seq<char>, ParamValueV)>,
        ignore_pound: bool,
    ) -> Result<Seq<char>, PatternError> {
        match self.pending_pattern() {
            Option::Some(p) => match spec_compile(p) {
                Result::Err(e) => Err(e),
                Result::Ok(c) => spec_format(c.0, c.1, ps, self.locale_tag(), ignore_pound),
            },
            Option::None => spec_format(
                self.compiled().0,
                self.compiled().1,
                ps,
                self.locale_tag(),
                ignore_pound,
            ),
        }
    }

    /// A formatter over the given pattern for the given locale.
    pub fn new(pattern: &str, locale: &Locale) -> (r: MessageFormat)
        ensures
            r.pending_pattern() == Some(pattern@),
            r.locale_tag() == locale@,
            r.wf(),
    {
        MessageFormat {
            pattern: Some(pattern.to_owned()),
            initial_literals: Vec::new(),
            parsed_pattern: Vec::new(),
            locale: locale.dup(),
        }
    }

    /// Replace quoted literal spans in the pattern with placeholder tokens,
    /// appending each span to the literal table: first doubled quotes, then
    /// quoted `{`/`}`/`#` spans.
    fn insert_placeholders(pattern: &Vec<char>, literals: &mut Vec<Vec<char>>) -> (out: Vec<char>)
        ensures
            ({
                let q = spec_protect_quotes(pattern@, old(literals).deep_view());
                let l = spec_protect_literals(q.0, q.1);
                out@ == l.0 && final(literals).deep_view() == l.1
            }),
    {
        let q = protect_quotes(pattern, literals);
        protect_literals(&q, literals)
    }

    /// Compile the pending pattern, if any: on success the compiled tree
    /// replaces it; a structural error leaves the state as it was.
    fn init(&mut self) -> (r: Result<(), PatternError>)
        requires
            old(self).wf(),
        ensures
            final(self).wf(),
            final(self).locale_tag() == old(self).locale_tag(),
            (match old(self).pending_pattern() {
                Option::None => r is Ok && *final(self) == *old(self),
                Option::Some(p) => match spec_compile(p) {
                    Result::Ok(c) => r is Ok && final(self).pending_pattern() is None
                        && final(self).compiled() == c,
                    Result::Err(e) => r == Err::<(), PatternError>(e) && *final(self)
                        == *old(self),
                },
            }),
    {
        let pc = match &self.pattern {
            Option::None => {
                return Ok(());
            },
            Option::Some(p) => str_chars(p.as_str()),
        };
        let mut lits: Vec<Vec<char>> = Vec::new();
        proof {
            assert(lits.deep_view() =~= Seq::<Seq<char>>::empty());
        }
        let protected = Self::insert_placeholders(&pc, &mut lits);
        match parse_block(&protected) {
            Result::Err(e) => Err(e),
            Result::Ok(bs) => {
                proof {
                    lemma_parse_blocks_wf(protected@);
                }
                self.initial_literals = lits;
                self.parsed_pattern = bs;
                self.pattern = None;
                Ok(())
            },
        }
    }

    /// Compile if needed, then render against the parameters.
    fn format_impl(
        &mut self,
        ignore_pound: bool,
        named_parameters: &Vec<(String, ParamValue)>,
    ) -> (r: Result<String, PatternError>)
        requires
            old(self).wf(),
        ensures
            final(self).wf(),
            forall|ps2: Seq<(Seq<char>, ParamValueV)>, ip2: bool|
                #[trigger] final(self).spec_state_format(ps2, ip2) == old(self).spec_state_format(
                    ps2,
                    ip2,
                ),
            (match r {
                Ok(s) => old(self).spec_state_format(params_view(named_parameters@), ignore_pound)
                    == Ok::<Seq<char>, PatternError>(s@),
                Err(e) => old(self).spec_state_format(params_view(named_parameters@), ignore_pound)
                    == Err::<Seq<char>, PatternError>(e),
            }),
    {
        match self.init() {
            Result::Err(e) => {
                return Err(e);
            },
            Result::Ok(()) => {},
        }
        let f = Formatter::new(&self.locale, &self.initial_literals, &self.parsed_pattern,
            ignore_pound);
        f.format(named_parameters)
    }

    /// Render with no parameters. A pattern that needs none renders to its
    /// own text; placeholders would surface as in-output diagnostics.
    pub fn format(&mut self) -> (r: Result<String, PatternError>)
        requires
            old(self).wf(),
        ensures
            final(self).wf(),
            forall|ps2: Seq<(Seq<char>, ParamValueV)>, ip2: bool|
                #[trigger] final(self).spec_state_format(ps2, ip2) == old(self).spec_state_format(
                    ps2,
                    ip2,
                ),
            (match r {
                Ok(s) => old(self).spec_state_format(Seq::empty(), false) == Ok::<
                    Seq<char>,
                    PatternError,
                >(s@),
                Err(e) => old(self).spec_state_format(Seq::empty(), false) == Err::<
                    Seq<char>,
                    PatternError,
                >(e),
            }),
    {
        let ps: Vec<(String, ParamValue)> = Vec::new();
        proof {
            assert(params_view(ps@) =~= Seq::<(Seq<char>, ParamValueV)>::empty());
        }
        self.format_impl(false, &ps)
    }

    /// Render against the given named parameters, substituting `#` inside
    /// plural and ordinal branches.
    pub fn format_with_params(&mut self, named_parameters: &Vec<(String, ParamValue)>) -> (r:
        Result<String, PatternError>)
        requires
            old(self).wf(),
        ensures
            final(self).wf(),
            forall|ps2: Seq<(Seq<char>, ParamValueV)>, ip2: bool|
                #[trigger] final(self).spec_state_format(ps2, ip2) == old(self).spec_state_format(
                    ps2,
                    ip2,
                ),
            (match r {
                Ok(s) => old(self).spec_state_format(params_view(named_parameters@), false) == Ok::<
                    Seq<char>,
                    PatternError,
                >(s@),
                Err(e) => old(self).spec_state_format(params_view(named_parameters@), false)
                    == Err::<Seq<char>, PatternError>(e),
            }),
    {
        self.format_impl(false, named_parameters)
    }

    /// Render against the given named parameters, leaving every `#`
    /// untouched: for callers that want to see the template shape.
    pub fn format_ignoring_pound(&mut self, named_parameters: &Vec<(String, ParamValue)>) -> (r:
        Result<String, PatternError>)
        requires
            old(self).wf(),
        ensures
            final(self).wf(),
            forall|ps2: Seq<(Seq<char>, ParamValueV)>, ip2: bool|
                #[trigger] final(self).spec_state_format(ps2, ip2) == old(self).spec_state_format(
                    ps2,
                    ip2,
                ),
            (match r {
                Ok(s) => old(self).spec_state_format(params_view(named_parameters@), true) == Ok::<
                    Seq<char>,
                    PatternError,
                >(s@),
                Err(e) => old(self).spec_state_format(params_view(named_parameters@), true)
                    == Err::<Seq<char>, PatternError>(e),
            }),
    {
        self.format_impl(true, named_parameters)
    }
}

} // verus!

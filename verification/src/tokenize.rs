use vstd::prelude::*;

use crate::errors::PatternError;
use crate::text::sub_vec;

verus! {

/// The kind of one tokenizer part: plain text between blocks, or the body
/// of one balanced `{...}` segment.
pub enum ElementType {
    Text,
    Block,
}

/// The abstract form of one tokenizer part.
pub enum PartV {
    Text(Seq<char>),
    Block(Seq<char>),
}

/// One part that the tokenizer emits: its kind and its text.
pub struct ElementTypeAndVal {
    pub typ: ElementType,
    pub value: Vec<char>,
}

impl ElementTypeAndVal {
    /// One tokenizer part of the given kind and text.
    pub fn new(typ: ElementType, value: Vec<char>) -> (r: ElementTypeAndVal)
        ensures
            r.typ == typ,
            r.value == value,
    {
        ElementTypeAndVal { typ, value }
    }
}

impl View for ElementTypeAndVal {
    type V = PartV;

    open spec fn view(&self) -> PartV {
        match self.typ {
            ElementType::Text => PartV::Text(self.value@),
            ElementType::Block => PartV::Block(self.value@),
        }
    }
}

impl DeepView for ElementTypeAndVal {
    type V = PartV;

    open spec fn deep_view(&self) -> PartV {
        self.view()
    }
}

/// The brace-depth scan from position `i` on, with `prev` the position
/// after the last cut and `depth` the number of open braces: plain text and
/// balanced top-level `{...}` bodies alternate in the result. A `}` with no
/// `{` open, or a `{` left open at the end, is a structural error.
pub open spec fn tokenize_from(s: Seq<char>, i: int, prev: int, depth: int) -> Result<
    Seq<PartV>,
    PatternError,
>
    decreases s.len() - i + 1,
{
    if i < 0 || i >= s.len() {
        if depth != 0 {
            Err(PatternError::MismatchedBraces)
        } else if prev < s.len() {
            Ok(seq![PartV::Text(s.subrange(prev, s.len() as int))])
        } else {
            Ok(Seq::empty())
        }
    } else if s[i] == '{' {
        if depth == 0 {
            let pre: Seq<PartV> = if prev < i {
                seq![PartV::Text(s.subrange(prev, i))]
            } else {
                Seq::empty()
            };
            match tokenize_from(s, i + 1, i + 1, 1) {
                Ok(r) => Ok(pre + r),
                Err(e) => Err(e),
            }
        } else {
            tokenize_from(s, i + 1, prev, depth + 1)
        }
    } else if s[i] == '}' {
        if depth == 0 {
            Err(PatternError::NoMatchingBrace)
        } else if depth == 1 {
            match tokenize_from(s, i + 1, i + 1, 0) {
                Ok(r) => Ok(seq![PartV::Block(s.subrange(prev, i))] + r),
                Err(e) => Err(e),
            }
        } else {
            tokenize_from(s, i + 1, prev, depth - 1)
        }
    } else {
        tokenize_from(s, i + 1, prev, depth)
    }
}

/// The brace-depth scan of a whole pattern.
pub open spec fn spec_tokenize(s: Seq<char>) -> Result<Seq<PartV>, PatternError> {
    tokenize_from(s, 0, 0, 0)
}

/// Every block body the tokenizer emits is at least two characters shorter
/// than the text it was cut from: its braces are not part of it.
pub proof fn lemma_tokenize_block_len(s: Seq<char>, i: int, prev: int, depth: int)
    requires
        0 <= prev <= i <= s.len(),
        depth >= 1 ==> prev >= 1,
    ensures
        tokenize_from(s, i, prev, depth) matches Ok(parts) ==> forall|t: int|
            0 <= t < parts.len() ==> (#[trigger] parts[t] matches PartV::Block(c) ==> c.len() + 2
                <= s.len()),
    decreases s.len() - i,
{
    if i >= s.len() {
    } else if s[i] == '{' {
        if depth == 0 {
            lemma_tokenize_block_len(s, i + 1, i + 1, 1);
        } else {
            lemma_tokenize_block_len(s, i + 1, prev, depth + 1);
        }
    } else if s[i] == '}' {
        if depth == 0 {
        } else if depth == 1 {
            lemma_tokenize_block_len(s, i + 1, i + 1, 0);
        } else {
            lemma_tokenize_block_len(s, i + 1, prev, depth - 1);
        }
    } else {
        lemma_tokenize_block_len(s, i + 1, prev, depth);
    }
}

/// Split a pattern into its plain-text and top-level block parts, tracking
/// brace depth.
#[verifier::loop_isolation(false)]
pub fn extract_parts(pattern: &Vec<char>) -> (r: Result<Vec<ElementTypeAndVal>, PatternError>)
    ensures
        (match r {
            Ok(parts) => spec_tokenize(pattern@) == Ok::<Seq<PartV>, PatternError>(
                parts.deep_view(),
            ),
            Err(e) => spec_tokenize(pattern@) == Err::<Seq<PartV>, PatternError>(e),
        }),
{
    proof {
        assert(pattern@.len() == pattern.len());
    }
    let s = pattern;
    let mut results: Vec<ElementTypeAndVal> = Vec::new();
    let mut i: usize = 0;
    let mut prev: usize = 0;
    let mut depth: usize = 0;
    proof {
        assert(Seq::<PartV>::empty() + tokenize_from(s@, 0, 0, 0)->Ok_0 =~= tokenize_from(
            s@,
            0,
            0,
            0,
        )->Ok_0);
    }
    while i < s.len()
        invariant
            prev <= i <= s@.len(),
            depth <= i,
            depth >= 1 ==> prev >= 1,
            spec_tokenize(s@) == (match tokenize_from(s@, i as int, prev as int, depth as int) {
                Ok(rest) => Ok::<Seq<PartV>, PatternError>(results.deep_view() + rest),
                Err(e) => Err::<Seq<PartV>, PatternError>(e),
            }),
        decreases s@.len() - i,
    {
        let ghost pre_res = results.deep_view();
        let c = s[i];
        if c == '{' {
            if depth == 0 {
                if prev < i {
                    let part = ElementTypeAndVal::new(ElementType::Text, sub_vec(s, prev, i));
                    results.push(part);
                    proof {
                        assert(results.deep_view() =~~= pre_res.push(
                            PartV::Text(s@.subrange(prev as int, i as int)),
                        ));
                        if tokenize_from(s@, i + 1, i + 1, 1) is Ok {
                            assert(pre_res + (seq![PartV::Text(s@.subrange(prev as int, i as int))]
                                + tokenize_from(s@, i + 1, i + 1, 1)->Ok_0) =~= results.deep_view()
                                + tokenize_from(s@, i + 1, i + 1, 1)->Ok_0);
                        }
                    }
                } else {
                    proof {
                        if tokenize_from(s@, i + 1, i + 1, 1) is Ok {
                            assert(pre_res + (Seq::<PartV>::empty() + tokenize_from(
                                s@,
                                i + 1,
                                i + 1,
                                1,
                            )->Ok_0) =~= results.deep_view() + tokenize_from(
                                s@,
                                i + 1,
                                i + 1,
                                1,
                            )->Ok_0);
                        }
                    }
                }
                prev = i + 1;
                depth = 1;
            } else {
                depth = depth + 1;
            }
        } else if c == '}' {
            if depth == 0 {
                return Err(PatternError::NoMatchingBrace);
            } else if depth == 1 {
                let part = ElementTypeAndVal::new(ElementType::Block, sub_vec(s, prev, i));
                results.push(part);
                proof {
                    assert(results.deep_view() =~~= pre_res.push(
                        PartV::Block(s@.subrange(prev as int, i as int)),
                    ));
                    if tokenize_from(s@, i + 1, i + 1, 0) is Ok {
                        assert(pre_res + (seq![PartV::Block(s@.subrange(prev as int, i as int))]
                            + tokenize_from(s@, i + 1, i + 1, 0)->Ok_0) =~= results.deep_view()
                            + tokenize_from(s@, i + 1, i + 1, 0)->Ok_0);
                    }
                }
                prev = i + 1;
                depth = 0;
            } else {
                depth = depth - 1;
            }
        }
        i = i + 1;
    }
    if depth != 0 {
        return Err(PatternError::MismatchedBraces);
    }
    if prev < s.len() {
        let part = ElementTypeAndVal::new(ElementType::Text, sub_vec(s, prev, s.len()));
        let ghost pre_res = results.deep_view();
        results.push(part);
        proof {
            assert(results.deep_view() =~~= pre_res.push(
                PartV::Text(s@.subrange(prev as int, s@.len() as int)),
            ));
            assert(pre_res + seq![PartV::Text(s@.subrange(prev as int, s@.len() as int))]
                =~= results.deep_view());
        }
    } else {
        proof {
            assert(results.deep_view() + Seq::<PartV>::empty() =~= results.deep_view());
        }
    }
    Ok(results)
}

} // verus!

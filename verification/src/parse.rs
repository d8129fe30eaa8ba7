use vstd::prelude::*;

use crate::ast::{
    block_view, blocks_view, has_other, options_view, Block, BlockV, ChoiceBlock, ChoiceV,
    OptionEntry,
    lemma_blocks_view_push, lemma_options_view_push, wf_block, wf_blocks,
};
use crate::errors::PatternError;
use crate::param::{
    digit_run_end, digits_value_capped, lemma_digit_run_end, spec_parse_number, ParamValue,
    ParamValueV,
};
use crate::text::{digits_val, is_space, is_space_exec, is_word, is_word_exec, match_at,
    match_here, sub_vec};
use crate::tokenize::{
    extract_parts, lemma_tokenize_block_len, spec_tokenize, ElementType, PartV,
};

verus! {

// ---------------------------------------------------------------------------
// Header recognition
//
// A block's header is `name , keyword ,` with optional whitespace around the
// separators; a plural header may carry `offset:digits` after its second
// comma. Argument names are runs of word characters.
// ---------------------------------------------------------------------------

/// The first position at or after `i` that does not hold whitespace.
pub open spec fn ws_end(s: Seq<char>, i: int) -> int
    decreases s.len() - i + 1,
{
    if 0 <= i < s.len() && is_space(s[i]) {
        ws_end(s, i + 1)
    } else {
        i
    }
}

/// The first position at or after `i` that does not hold a word character.
pub open spec fn word_end(s: Seq<char>, i: int) -> int
    decreases s.len() - i + 1,
{
    if 0 <= i < s.len() && is_word(s[i]) {
        word_end(s, i + 1)
    } else {
        i
    }
}

pub proof fn lemma_ws_end(s: Seq<char>, i: int)
    requires
        0 <= i <= s.len(),
    ensures
        i <= ws_end(s, i) <= s.len(),
        ws_end(s, i) < s.len() ==> !is_space(s[ws_end(s, i)]),
    decreases s.len() - i,
{
    if i < s.len() && is_space(s[i]) {
        lemma_ws_end(s, i + 1);
    }
}

pub proof fn lemma_word_end(s: Seq<char>, i: int)
    requires
        0 <= i <= s.len(),
    ensures
        i <= word_end(s, i) <= s.len(),
        word_end(s, i) < s.len() ==> !is_word(s[word_end(s, i)]),
    decreases s.len() - i,
{
    if i < s.len() && is_word(s[i]) {
        lemma_word_end(s, i + 1);
    }
}

/// The `plural` keyword.
pub open spec fn kw_plural() -> Seq<char> {
    seq!['p', 'l', 'u', 'r', 'a', 'l']
}

/// The `selectordinal` keyword.
pub open spec fn kw_ordinal() -> Seq<char> {
    seq!['s', 'e', 'l', 'e', 'c', 't', 'o', 'r', 'd', 'i', 'n', 'a', 'l']
}

/// The `select` keyword.
pub open spec fn kw_select() -> Seq<char> {
    seq!['s', 'e', 'l', 'e', 'c', 't']
}

/// The `offset:` introducer.
pub open spec fn kw_offset() -> Seq<char> {
    seq!['o', 'f', 'f', 's', 'e', 't', ':']
}

/// Match `name , keyword ,` at the start of `s`, with optional whitespace
/// around the separators: the argument name and the position after the
/// second comma.
pub open spec fn spec_match_header(s: Seq<char>, kw: Seq<char>) -> Option<(Seq<char>, int)> {
    let a = ws_end(s, 0);
    let b = word_end(s, a);
    if b == a {
        None
    } else {
        let c = ws_end(s, b);
        if !(c < s.len() && s[c] == ',') {
            None
        } else {
            let d = ws_end(s, c + 1);
            if !match_at(s, kw, d) {
                None
            } else {
                let e = ws_end(s, d + kw.len());
                if !(e < s.len() && s[e] == ',') {
                    None
                } else {
                    Some((s.subrange(a, b), e + 1))
                }
            }
        }
    }
}

/// A matched header starts after at least one character and ends within the
/// text.
pub proof fn lemma_match_header(s: Seq<char>, kw: Seq<char>)
    ensures
        spec_match_header(s, kw) matches Some(m) ==> 1 <= m.1 <= s.len(),
{
    lemma_ws_end(s, 0);
    if spec_match_header(s, kw) is Some {
        let a = ws_end(s, 0);
        lemma_word_end(s, a);
        let b = word_end(s, a);
        lemma_ws_end(s, b);
        let c = ws_end(s, b);
        lemma_ws_end(s, c + 1);
        let d = ws_end(s, c + 1);
        lemma_ws_end(s, d + kw.len());
    }
}

/// Match a plural header at the start of `s`: the argument name, the digits
/// of the offset (empty when none is given), and the position after the
/// match.
pub open spec fn spec_match_plural(s: Seq<char>) -> Option<(Seq<char>, Seq<char>, int)> {
    match spec_match_header(s, kw_plural()) {
        Option::None => None,
        Option::Some((name, e1)) => {
            let f = ws_end(s, e1);
            let g = f + kw_offset().len();
            if match_at(s, kw_offset(), f) && digit_run_end(s, g) > g {
                Some((name, s.subrange(g, digit_run_end(s, g)), digit_run_end(s, g)))
            } else {
                Some((name, Seq::empty(), e1))
            }
        },
    }
}

/// A matched plural header starts after at least one character and ends
/// within the text.
pub proof fn lemma_match_plural(s: Seq<char>)
    ensures
        spec_match_plural(s) matches Some(m) ==> 1 <= m.2 <= s.len(),
{
    lemma_match_header(s, kw_plural());
    if spec_match_header(s, kw_plural()) is Some {
        let e1 = spec_match_header(s, kw_plural())->Some_0.1;
        lemma_ws_end(s, e1);
        let f = ws_end(s, e1);
        if f + kw_offset().len() <= s.len() {
            lemma_digit_run_end(s, f + kw_offset().len());
        }
    }
}

/// The kind a block segment is classified as, in priority order: plural,
/// selectordinal, select, a bare placeholder, or unknown.
pub enum BlockType {
    Plural,
    Ordinal,
    Select,
    Simple,
    Unknown,
}

/// Classify a block segment by its header.
pub open spec fn spec_block_type(s: Seq<char>) -> BlockType {
    if spec_match_header(s, kw_plural()) is Some {
        BlockType::Plural
    } else if spec_match_header(s, kw_ordinal()) is Some {
        BlockType::Ordinal
    } else if spec_match_header(s, kw_select()) is Some {
        BlockType::Select
    } else if ws_end(s, 0) < s.len() && is_word(s[ws_end(s, 0)]) {
        BlockType::Simple
    } else {
        BlockType::Unknown
    }
}

// ---------------------------------------------------------------------------
// Key normalization
// ---------------------------------------------------------------------------

/// `s` from `i` on with all whitespace removed: how a select key is
/// cleaned.
pub open spec fn remove_spaces_from(s: Seq<char>, i: int) -> Seq<char>
    decreases s.len() - i + 1,
{
    if i < 0 || i >= s.len() {
        Seq::empty()
    } else if is_space(s[i]) {
        remove_spaces_from(s, i + 1)
    } else {
        seq![s[i]] + remove_spaces_from(s, i + 1)
    }
}

/// The word match at `i` of a plural/ordinal key cleaner: optional
/// whitespace, an optional `=` glued to a word, the word, and trailing
/// whitespace; the word's bounds and the match end.
pub open spec fn kv_match_at(s: Seq<char>, i: int) -> Option<(int, int, int)> {
    let a = ws_end(s, i);
    if a < s.len() && s[a] == '=' && a + 1 < s.len() && is_word(s[a + 1]) {
        let w = word_end(s, a + 1);
        Some((a + 1, w, ws_end(s, w)))
    } else if a < s.len() && is_word(s[a]) {
        let w = word_end(s, a);
        Some((a, w, ws_end(s, w)))
    } else {
        None
    }
}

pub proof fn lemma_kv_match_at(s: Seq<char>, i: int)
    requires
        0 <= i <= s.len(),
    ensures
        kv_match_at(s, i) matches Some(m) ==> i < m.2 <= s.len() && 0 <= m.0 <= m.1 <= s.len(),
{
    lemma_ws_end(s, i);
    let a = ws_end(s, i);
    if a < s.len() && s[a] == '=' && a + 1 < s.len() && is_word(s[a + 1]) {
        lemma_word_end(s, a + 1);
        lemma_ws_end(s, word_end(s, a + 1));
    } else if a < s.len() && is_word(s[a]) {
        lemma_word_end(s, a);
        lemma_ws_end(s, word_end(s, a));
    }
}

/// `s` from `i` on with each key word stripped of surrounding whitespace
/// and of a leading `=`: how a plural/ordinal key is cleaned.
pub open spec fn kv_normalize_from(s: Seq<char>, i: int) -> Seq<char>
    decreases s.len() - i + 1,
    when i >= 0
    via kv_normalize_from_decreases
{
    if i >= s.len() {
        Seq::empty()
    } else {
        match kv_match_at(s, i) {
            Option::Some((ws, we, end)) => s.subrange(ws, we) + kv_normalize_from(s, end),
            Option::None => seq![s[i]] + kv_normalize_from(s, i + 1),
        }
    }
}

#[via_fn]
proof fn kv_normalize_from_decreases(s: Seq<char>, i: int) {
    if 0 <= i < s.len() {
        lemma_kv_match_at(s, i);
    }
}

// ---------------------------------------------------------------------------
// Executable header recognition
// ---------------------------------------------------------------------------

/// The first position at or after `i` that does not hold whitespace.
#[verifier::loop_isolation(false)]
fn ws_end_exec(s: &Vec<char>, i: usize) -> (e: usize)
    requires
        i <= s@.len(),
    ensures
        e == ws_end(s@, i as int),
        i <= e <= s@.len(),
{
    proof {
        assert(s@.len() == s.len());
    }
    let mut e: usize = i;
    while e < s.len() && is_space_exec(s[e])
        invariant
            i <= e <= s@.len(),
            ws_end(s@, i as int) == ws_end(s@, e as int),
        decreases s@.len() - e,
    {
        e = e + 1;
    }
    e
}

/// The first position at or after `i` that does not hold a word character.
#[verifier::loop_isolation(false)]
fn word_end_exec(s: &Vec<char>, i: usize) -> (e: usize)
    requires
        i <= s@.len(),
    ensures
        e == word_end(s@, i as int),
        i <= e <= s@.len(),
{
    proof {
        assert(s@.len() == s.len());
    }
    let mut e: usize = i;
    while e < s.len() && is_word_exec(s[e])
        invariant
            i <= e <= s@.len(),
            word_end(s@, i as int) == word_end(s@, e as int),
        decreases s@.len() - e,
    {
        e = e + 1;
    }
    e
}

/// The characters of the `plural` keyword.
fn kw_plural_exec() -> (v: Vec<char>)
    ensures
        v@ == kw_plural(),
{
    let mut v: Vec<char> = Vec::new();
    v.push('p');
    v.push('l');
    v.push('u');
    v.push('r');
    v.push('a');
    v.push('l');
    proof {
        assert(v@ =~= kw_plural());
    }
    v
}

/// The characters of the `selectordinal` keyword.
fn kw_ordinal_exec() -> (v: Vec<char>)
    ensures
        v@ == kw_ordinal(),
{
    let mut v: Vec<char> = Vec::new();
    v.push('s');
    v.push('e');
    v.push('l');
    v.push('e');
    v.push('c');
    v.push('t');
    v.push('o');
    v.push('r');
    v.push('d');
    v.push('i');
    v.push('n');
    v.push('a');
    v.push('l');
    proof {
        assert(v@ =~= kw_ordinal());
    }
    v
}

/// The characters of the `select` keyword.
fn kw_select_exec() -> (v: Vec<char>)
    ensures
        v@ == kw_select(),
{
    let mut v: Vec<char> = Vec::new();
    v.push('s');
    v.push('e');
    v.push('l');
    v.push('e');
    v.push('c');
    v.push('t');
    proof {
        assert(v@ =~= kw_select());
    }
    v
}

/// The characters of the `offset:` introducer.
fn kw_offset_exec() -> (v: Vec<char>)
    ensures
        v@ == kw_offset(),
{
    let mut v: Vec<char> = Vec::new();
    v.push('o');
    v.push('f');
    v.push('f');
    v.push('s');
    v.push('e');
    v.push('t');
    v.push(':');
    proof {
        assert(v@ =~= kw_offset());
    }
    v
}

/// Match `name , keyword ,` at the start of `s`.
fn match_header_exec(s: &Vec<char>, kw: &Vec<char>) -> (r: Option<(Vec<char>, usize)>)
    ensures
        (match r {
            Option::Some(m) => spec_match_header(s@, kw@) == Some((m.0@, m.1 as int)) && 1 <= m.1
                <= s@.len(),
            Option::None => spec_match_header(s@, kw@) is None,
        }),
{
    proof {
        assert(s@.len() == s.len());
        lemma_match_header(s@, kw@);
    }
    let a = ws_end_exec(s, 0);
    let b = word_end_exec(s, a);
    if b == a {
        return None;
    }
    let c = ws_end_exec(s, b);
    if !(c < s.len() && s[c] == ',') {
        return None;
    }
    let d = ws_end_exec(s, c + 1);
    if kw.len() > s.len() - d {
        proof {
            assert(!match_at(s@, kw@, d as int));
        }
        return None;
    }
    if !match_here(s, kw, d) {
        return None;
    }
    let e = ws_end_exec(s, d + kw.len());
    if !(e < s.len() && s[e] == ',') {
        return None;
    }
    Some((sub_vec(s, a, b), e + 1))
}

/// Match a plural header at the start of `s`: the argument name, the
/// offset value (`None` when absent, `Err` when its digits overflow), and
/// the position after the match.
fn match_plural_exec(s: &Vec<char>) -> (r: Option<(Vec<char>, Option<Result<u64, ()>>, usize)>)
    ensures
        (match r {
            Option::Some(m) => spec_match_plural(s@) matches Some(sm) && sm.0 == m.0@ && m.2
                == sm.2 && 1 <= m.2 <= s@.len() && (match m.1 {
                Option::None => sm.1.len() == 0,
                Option::Some(Ok(k)) => sm.1.len() > 0 && digits_val(sm.1) == k as nat,
                Option::Some(Err(())) => sm.1.len() > 0 && digits_val(sm.1) > u64::MAX as nat,
            }),
            Option::None => spec_match_plural(s@) is None,
        }),
{
    proof {
        assert(s@.len() == s.len());
        lemma_match_plural(s@);
    }
    let kw = kw_plural_exec();
    let base = match match_header_exec(s, &kw) {
        Option::None => {
            return None;
        },
        Option::Some(m) => m,
    };
    let (name, e1) = base;
    let f = ws_end_exec(s, e1);
    let off_kw = kw_offset_exec();
    if off_kw.len() <= s.len() - f && match_here(s, &off_kw, f) {
        let g = f + off_kw.len();
        let ge = crate::param::digit_run_end_exec(s, g);
        if ge > g {
            proof {
                lemma_digit_run_end(s@, g as int);
            }
            match digits_value_capped(s, g, ge) {
                Option::Some(k) => {
                    proof {
                        assert(s@.subrange(g as int, ge as int).len() > 0);
                    }
                    return Some((name, Some(Ok(k as u64)), ge));
                },
                Option::None => {
                    return Some((name, Some(Err(())), ge));
                },
            }
        }
        proof {
            assert(spec_match_plural(s@)->Some_0.1.len() == 0);
        }
        return Some((name, None, e1));
    }
    proof {
        if off_kw@.len() > s@.len() - f {
            assert(!match_at(s@, kw_offset(), f as int));
        }
    }
    Some((name, None, e1))
}

/// Classify a block segment by its header.
fn block_type_exec(s: &Vec<char>) -> (r: BlockType)
    ensures
        r == spec_block_type(s@),
{
    let kw_p = kw_plural_exec();
    if match_header_exec(s, &kw_p).is_some() {
        return BlockType::Plural;
    }
    let kw_o = kw_ordinal_exec();
    if match_header_exec(s, &kw_o).is_some() {
        return BlockType::Ordinal;
    }
    let kw_s = kw_select_exec();
    if match_header_exec(s, &kw_s).is_some() {
        return BlockType::Select;
    }
    let a = ws_end_exec(s, 0);
    if a < s.len() && is_word_exec(s[a]) {
        return BlockType::Simple;
    }
    BlockType::Unknown
}

// ---------------------------------------------------------------------------
// Executable key normalization
// ---------------------------------------------------------------------------

/// A select key with all whitespace removed.
#[verifier::loop_isolation(false)]
fn remove_spaces(s: &Vec<char>) -> (r: Vec<char>)
    ensures
        r@ == remove_spaces_from(s@, 0),
{
    proof {
        assert(s@.len() == s.len());
    }
    let mut r: Vec<char> = Vec::new();
    let mut i: usize = 0;
    proof {
        assert(Seq::<char>::empty() + remove_spaces_from(s@, 0) =~= remove_spaces_from(s@, 0));
    }
    while i < s.len()
        invariant
            i <= s@.len(),
            remove_spaces_from(s@, 0) == r@ + remove_spaces_from(s@, i as int),
        decreases s@.len() - i,
    {
        let ghost pre = r@;
        if !is_space_exec(s[i]) {
            r.push(s[i]);
            proof {
                assert(pre + (seq![s@[i as int]] + remove_spaces_from(s@, i + 1)) =~= r@
                    + remove_spaces_from(s@, i + 1));
            }
        }
        i = i + 1;
    }
    proof {
        assert(r@ + remove_spaces_from(s@, i as int) =~= r@);
    }
    r
}

/// A plural/ordinal key with each word stripped of surrounding whitespace
/// and of a leading `=`.
#[verifier::loop_isolation(false)]
fn kv_normalize(s: &Vec<char>) -> (r: Vec<char>)
    ensures
        r@ == kv_normalize_from(s@, 0),
{
    proof {
        assert(s@.len() == s.len());
    }
    let mut r: Vec<char> = Vec::new();
    let mut i: usize = 0;
    proof {
        assert(Seq::<char>::empty() + kv_normalize_from(s@, 0) =~= kv_normalize_from(s@, 0));
    }
    while i < s.len()
        invariant
            i <= s@.len(),
            kv_normalize_from(s@, 0) == r@ + kv_normalize_from(s@, i as int),
        decreases s@.len() - i,
    {
        let ghost pre = r@;
        proof {
            lemma_kv_match_at(s@, i as int);
        }
        let a = ws_end_exec(s, i);
        let mut wstart: usize = 0;
        let mut wend: usize = 0;
        let mut matched: bool = false;
        if a < s.len() && s[a] == '=' && a + 1 < s.len() && is_word_exec(s[a + 1]) {
            wstart = a + 1;
            wend = word_end_exec(s, a + 1);
            matched = true;
        } else if a < s.len() && is_word_exec(s[a]) {
            wstart = a;
            wend = word_end_exec(s, a);
            matched = true;
        }
        if matched {
            let end = ws_end_exec(s, wend);
            let word = sub_vec(s, wstart, wend);
            crate::text::push_all(&mut r, &word);
            proof {
                assert(kv_match_at(s@, i as int) == Some(
                    (wstart as int, wend as int, end as int),
                ));
                assert(pre + (s@.subrange(wstart as int, wend as int) + kv_normalize_from(
                    s@,
                    end as int,
                )) =~= r@ + kv_normalize_from(s@, end as int));
            }
            i = end;
        } else {
            r.push(s[i]);
            proof {
                assert(kv_match_at(s@, i as int) is None);
                assert(pre + (seq![s@[i as int]] + kv_normalize_from(s@, i + 1)) =~= r@
                    + kv_normalize_from(s@, i + 1));
            }
            i = i + 1;
        }
    }
    proof {
        assert(r@ + kv_normalize_from(s@, i as int) =~= r@);
    }
    r
}


// ---------------------------------------------------------------------------
// The block parser
// ---------------------------------------------------------------------------

/// The text of a tokenizer part, whatever its kind: the key loop reads a
/// key from any part, text or block alike.
pub open spec fn part_text(p: PartV) -> Seq<char> {
    match p {
        PartV::Text(t) => t,
        PartV::Block(t) => t,
    }
}

/// Compile a literal-protected pattern string into its block sequence:
/// tokenize, then parse each part.
pub open spec fn spec_parse_blocks(s: Seq<char>) -> Result<Seq<BlockV>, PatternError>
    decreases s.len(), 3int, 0int,
{
    match spec_tokenize(s) {
        Result::Err(e) => Err(e),
        Result::Ok(_) => spec_parse_parts(s, 0),
    }
}

/// Parse the tokenizer parts of `s`, from part `j` on: plain text becomes a
/// text block, and each block segment is parsed by its header.
pub open spec fn spec_parse_parts(s: Seq<char>, j: int) -> Result<Seq<BlockV>, PatternError>
    decreases s.len(), 2int, (if spec_tokenize(s) is Ok && j <= spec_tokenize(s)->Ok_0.len() {
        spec_tokenize(s)->Ok_0.len() - j
    } else {
        0int
    }),
    when j >= 0
    via spec_parse_parts_decreases
{
    match spec_tokenize(s) {
        Result::Err(_) => Ok(Seq::empty()),
        Result::Ok(parts) => {
            if j >= parts.len() {
                Ok(Seq::empty())
            } else {
                let head = (match parts[j] {
                    PartV::Text(t) => Ok(BlockV::Text(t)),
                    PartV::Block(c) => spec_parse_one(c),
                });
                match head {
                    Result::Err(e) => Err(e),
                    Result::Ok(b) => match spec_parse_parts(s, j + 1) {
                        Result::Err(e) => Err(e),
                        Result::Ok(rest) => Ok(seq![b] + rest),
                    },
                }
            }
        },
    }
}

#[via_fn]
proof fn spec_parse_parts_decreases(s: Seq<char>, j: int) {
    lemma_tokenize_block_len(s, 0, 0, 0);
}

/// Parse one block segment by its header kind.
pub open spec fn spec_parse_one(c: Seq<char>) -> Result<BlockV, PatternError>
    decreases c.len(), 1int, 0int,
{
    match spec_block_type(c) {
        BlockType::Plural => {
            let m = spec_match_plural(c)->Some_0;
            if m.1.len() > 0 && digits_val(m.1) > u64::MAX as nat {
                Err(PatternError::InvalidOffset)
            } else {
                let off: u64 = if m.1.len() > 0 {
                    digits_val(m.1) as u64
                } else {
                    0u64
                };
                match spec_parse_choice(c, m.2, false) {
                    Result::Err(e) => Err(e),
                    Result::Ok(options) => if has_other(options) {
                        Ok(BlockV::Plural(ChoiceV { arg_name: m.0, offset: off, options }))
                    } else {
                        Err(PatternError::MissingOther)
                    },
                }
            }
        },
        BlockType::Ordinal => {
            let m = spec_match_header(c, kw_ordinal())->Some_0;
            match spec_parse_choice(c, m.1, false) {
                Result::Err(e) => Err(e),
                Result::Ok(options) => if has_other(options) {
                    Ok(BlockV::Ordinal(ChoiceV { arg_name: m.0, offset: 0u64, options }))
                } else {
                    Err(PatternError::MissingOther)
                },
            }
        },
        BlockType::Select => {
            let m = spec_match_header(c, kw_select())->Some_0;
            match spec_parse_choice(c, m.1, true) {
                Result::Err(e) => Err(e),
                Result::Ok(options) => if has_other(options) {
                    Ok(BlockV::Select(ChoiceV { arg_name: m.0, offset: 0u64, options }))
                } else {
                    Err(PatternError::MissingOther)
                },
            }
        },
        BlockType::Simple => Ok(BlockV::Simple(c)),
        BlockType::Unknown => Err(PatternError::UnknownBlockType),
    }
}

/// Parse the remainder of a choice segment after its header into its option
/// table: re-tokenize, then read an alternating `key {block}` sequence.
pub open spec fn spec_parse_choice(c: Seq<char>, e: int, is_select: bool) -> Result<
    Seq<(ParamValueV, Seq<BlockV>)>,
    PatternError,
>
    decreases c.len(), 0int, 0int,
{
    if e < 1 || e > c.len() {
        Err(PatternError::UnknownBlockType)
    } else {
        let rem = c.subrange(e, c.len() as int);
        match spec_tokenize(rem) {
            Result::Err(e2) => Err(e2),
            Result::Ok(_) => spec_parse_pairs(rem, 0, is_select),
        }
    }
}

/// Read the alternating `key {block}` sequence of a choice segment from
/// part `pos` on: each key is cleaned, read as a number where it is one,
/// and paired with its recursively parsed branch.
pub open spec fn spec_parse_pairs(rem: Seq<char>, pos: int, is_select: bool) -> Result<
    Seq<(ParamValueV, Seq<BlockV>)>,
    PatternError,
>
    decreases rem.len(), 2int, (if spec_tokenize(rem) is Ok && pos <= spec_tokenize(
        rem,
    )->Ok_0.len() {
        spec_tokenize(rem)->Ok_0.len() - pos
    } else {
        0int
    }),
    when pos >= 0
    via spec_parse_pairs_decreases
{
    match spec_tokenize(rem) {
        Result::Err(_) => Ok(Seq::empty()),
        Result::Ok(parts) => {
            if pos >= parts.len() {
                Ok(Seq::empty())
            } else if pos + 1 >= parts.len() {
                Err(PatternError::MissingValueElement)
            } else {
                match parts[pos + 1] {
                    PartV::Text(_) => Err(PatternError::InvalidValueElement),
                    PartV::Block(sub) => match spec_parse_blocks(sub) {
                        Result::Err(e) => Err(e),
                        Result::Ok(bs) => {
                            let keytext = part_text(parts[pos]);
                            let norm = if is_select {
                                remove_spaces_from(keytext, 0)
                            } else {
                                kv_normalize_from(keytext, 0)
                            };
                            let key = (match spec_parse_number(norm) {
                                Option::Some(v) => v,
                                Option::None => ParamValueV::Text(norm),
                            });
                            match spec_parse_pairs(rem, pos + 2, is_select) {
                                Result::Err(e) => Err(e),
                                Result::Ok(rest) => Ok(seq![(key, bs)] + rest),
                            }
                        },
                    },
                }
            }
        },
    }
}

#[via_fn]
proof fn spec_parse_pairs_decreases(rem: Seq<char>, pos: int, is_select: bool) {
    lemma_tokenize_block_len(rem, 0, 0, 0);
}

// ---------------------------------------------------------------------------
// Every parsed pattern is well-formed
// ---------------------------------------------------------------------------

/// A pattern the parser accepts is well-formed: every choice construct in
/// it holds an `other` branch.
pub proof fn lemma_parse_blocks_wf(s: Seq<char>)
    ensures
        spec_parse_blocks(s) matches Ok(bs) ==> wf_blocks(bs),
    decreases s.len(), 3int, 0int,
{
    if spec_tokenize(s) is Ok {
        lemma_parse_parts_wf(s, 0);
    }
}

proof fn lemma_parse_parts_wf(s: Seq<char>, j: int)
    requires
        j >= 0,
    ensures
        spec_parse_parts(s, j) matches Ok(bs) ==> wf_blocks(bs),
    decreases s.len(), 2int, (if spec_tokenize(s) is Ok && j <= spec_tokenize(s)->Ok_0.len() {
        spec_tokenize(s)->Ok_0.len() - j
    } else {
        0int
    }),
{
    match spec_tokenize(s) {
        Result::Err(_) => {},
        Result::Ok(parts) => {
            if j < parts.len() {
                lemma_tokenize_block_len(s, 0, 0, 0);
                match parts[j] {
                    PartV::Text(_) => {},
                    PartV::Block(c) => {
                        lemma_parse_one_wf(c);
                    },
                }
                lemma_parse_parts_wf(s, j + 1);
                if spec_parse_parts(s, j) is Ok {
                    let bs = spec_parse_parts(s, j)->Ok_0;
                    let rest = spec_parse_parts(s, j + 1)->Ok_0;
                    assert forall|i: int| 0 <= i < bs.len() implies wf_block(#[trigger] bs[i]) by {
                        if i > 0 {
                            assert(bs[i] == rest[i - 1]);
                        }
                    }
                }
            }
        },
    }
}

proof fn lemma_parse_one_wf(c: Seq<char>)
    ensures
        spec_parse_one(c) matches Ok(b) ==> wf_block(b),
    decreases c.len(), 1int, 0int,
{
    match spec_block_type(c) {
        BlockType::Plural => {
            lemma_parse_choice_wf(c, spec_match_plural(c)->Some_0.2, false);
        },
        BlockType::Ordinal => {
            lemma_parse_choice_wf(c, spec_match_header(c, kw_ordinal())->Some_0.1, false);
        },
        BlockType::Select => {
            lemma_parse_choice_wf(c, spec_match_header(c, kw_select())->Some_0.1, true);
        },
        BlockType::Simple => {},
        BlockType::Unknown => {},
    }
}

proof fn lemma_parse_choice_wf(c: Seq<char>, e: int, is_select: bool)
    ensures
        spec_parse_choice(c, e, is_select) matches Ok(opts) ==> forall|i: int|
            0 <= i < opts.len() ==> wf_blocks(#[trigger] opts[i].1),
    decreases c.len(), 0int, 0int,
{
    if 1 <= e <= c.len() {
        let rem = c.subrange(e, c.len() as int);
        if spec_tokenize(rem) is Ok {
            lemma_parse_pairs_wf(rem, 0, is_select);
        }
    }
}

proof fn lemma_parse_pairs_wf(rem: Seq<char>, pos: int, is_select: bool)
    requires
        pos >= 0,
    ensures
        spec_parse_pairs(rem, pos, is_select) matches Ok(opts) ==> forall|i: int|
            0 <= i < opts.len() ==> wf_blocks(#[trigger] opts[i].1),
    decreases rem.len(), 2int, (if spec_tokenize(rem) is Ok && pos <= spec_tokenize(
        rem,
    )->Ok_0.len() {
        spec_tokenize(rem)->Ok_0.len() - pos
    } else {
        0int
    }),
{
    match spec_tokenize(rem) {
        Result::Err(_) => {},
        Result::Ok(parts) => {
            if pos + 1 < parts.len() {
                lemma_tokenize_block_len(rem, 0, 0, 0);
                match parts[pos + 1] {
                    PartV::Text(_) => {},
                    PartV::Block(sub) => {
                        lemma_parse_blocks_wf(sub);
                        lemma_parse_pairs_wf(rem, pos + 2, is_select);
                        if spec_parse_pairs(rem, pos, is_select) is Ok {
                            let opts = spec_parse_pairs(rem, pos, is_select)->Ok_0;
                            let rest = spec_parse_pairs(rem, pos + 2, is_select)->Ok_0;
                            assert forall|i: int| 0 <= i < opts.len() implies wf_blocks(
                                #[trigger] opts[i].1,
                            ) by {
                                if i > 0 {
                                    assert(opts[i] == rest[i - 1]);
                                }
                            }
                        }
                    },
                }
            }
        },
    }
}



// ---------------------------------------------------------------------------
// The executable parser
// ---------------------------------------------------------------------------

/// Whether a numeric-or-text key equals a text key: only a text value can.
pub proof fn lemma_pv_eq_text(x: ParamValueV, o: Seq<char>)
    ensures
        crate::param::pv_eq(x, ParamValueV::Text(o)) == (x == ParamValueV::Text(o)),
{
}

/// Whether an option table holds a branch under the key `other`.
#[verifier::loop_isolation(false)]
fn has_other_exec(options: &Vec<OptionEntry>) -> (r: bool)
    ensures
        r == has_other(options_view(options@)),
{
    proof {
        assert(options@.len() == options.len());
        crate::ast::lemma_options_view_len(options@);
        reveal_strlit("other");
        assert("other"@ =~= crate::ast::other_key());
    }
    let other = ParamValue::from_text("other");
    let mut i: usize = 0;
    while i < options.len()
        invariant
            i <= options@.len(),
            other@ == ParamValueV::Text(crate::ast::other_key()),
            forall|k: int|
                0 <= k < i ==> options_view(options@)[k].0 != ParamValueV::Text(
                    crate::ast::other_key(),
                ),
        decreases options@.len() - i,
    {
        proof {
            crate::ast::lemma_options_view_index(options@, i as int);
            lemma_pv_eq_text(options@[i as int].key@, crate::ast::other_key());
        }
        if options[i].key == other {
            return true;
        }
        i = i + 1;
    }
    false
}

/// Compile a literal-protected pattern string into its block sequence:
/// tokenize it, then parse each segment by its header.
#[verifier::loop_isolation(false)]
pub fn parse_block(pattern: &Vec<char>) -> (r: Result<Vec<Block>, PatternError>)
    ensures
        (match r {
            Ok(bs) => spec_parse_blocks(pattern@) == Ok::<Seq<BlockV>, PatternError>(
                blocks_view(bs@),
            ),
            Err(e) => spec_parse_blocks(pattern@) == Err::<Seq<BlockV>, PatternError>(e),
        }),
    decreases pattern@.len(), 3int, 0int,
{
    proof {
        assert(pattern@.len() == pattern.len());
    }
    let parts = match extract_parts(pattern) {
        Result::Err(e) => {
            return Err(e);
        },
        Result::Ok(p) => p,
    };
    proof {
        lemma_tokenize_block_len(pattern@, 0, 0, 0);
        assert(parts@.len() == parts.len());
    }
    let mut result: Vec<Block> = Vec::new();
    let mut j: usize = 0;
    proof {
        assert(blocks_view(result@) =~= Seq::<BlockV>::empty());
        if spec_parse_parts(pattern@, 0) is Ok {
            assert(blocks_view(result@) + spec_parse_parts(pattern@, 0)->Ok_0 =~= spec_parse_parts(
                pattern@,
                0,
            )->Ok_0);
        }
    }
    while j < parts.len()
        invariant
            j <= parts@.len(),
            parts.deep_view() == spec_tokenize(pattern@)->Ok_0,
            spec_tokenize(pattern@) is Ok,
            (match spec_parse_parts(pattern@, j as int) {
                Ok(rest) => spec_parse_parts(pattern@, 0) == Ok::<Seq<BlockV>, PatternError>(
                    blocks_view(result@) + rest,
                ),
                Err(e) => spec_parse_parts(pattern@, 0) == Err::<Seq<BlockV>, PatternError>(e),
            }),
        decreases parts@.len() - j,
    {
        let ghost pre_res = result@;
        let part = &parts[j];
        proof {
            assert(parts.deep_view()[j as int] == parts@[j as int]@);
        }
        match part.typ {
            ElementType::Text => {
                let t = sub_vec(&part.value, 0, part.value.len());
                proof {
                    assert(t@ =~= part.value@);
                }
                result.push(Block::Text(t));
                proof {
                    lemma_blocks_view_push(pre_res, result@.last());
                    if spec_parse_parts(pattern@, j + 1) is Ok {
                        assert(blocks_view(pre_res) + (seq![BlockV::Text(part.value@)]
                            + spec_parse_parts(pattern@, j + 1)->Ok_0) =~= blocks_view(result@)
                            + spec_parse_parts(pattern@, j + 1)->Ok_0);
                    }
                }
            },
            ElementType::Block => {
                proof {
                    assert(parts@[j as int]@ == PartV::Block(part.value@));
                    assert(part.value@.len() + 2 <= pattern@.len());
                }
                let b = match parse_one(&part.value) {
                    Result::Err(e) => {
                        return Err(e);
                    },
                    Result::Ok(b) => b,
                };
                let ghost bv = block_view(b);
                result.push(b);
                proof {
                    lemma_blocks_view_push(pre_res, result@.last());
                    if spec_parse_parts(pattern@, j + 1) is Ok {
                        assert(blocks_view(pre_res) + (seq![bv] + spec_parse_parts(
                            pattern@,
                            j + 1,
                        )->Ok_0) =~= blocks_view(result@) + spec_parse_parts(pattern@, j + 1)->Ok_0);
                    }
                }
            },
        }
        j = j + 1;
    }
    proof {
        assert(blocks_view(result@) + Seq::<BlockV>::empty() =~= blocks_view(result@));
    }
    Ok(result)
}

/// Parse one block segment by its header kind.
#[verifier::loop_isolation(false)]
fn parse_one(c: &Vec<char>) -> (r: Result<Block, PatternError>)
    ensures
        (match r {
            Ok(b) => spec_parse_one(c@) == Ok::<BlockV, PatternError>(block_view(b)),
            Err(e) => spec_parse_one(c@) == Err::<BlockV, PatternError>(e),
        }),
    decreases c@.len(), 2int, 0int,
{
    proof {
        assert(c@.len() == c.len());
    }
    match block_type_exec(c) {
        BlockType::Plural => {
            let m = match match_plural_exec(c) {
                Option::None => {
                    // never taken: this segment was classified by the same header match
                    proof {
                        assert(false);
                    }
                    return Err(PatternError::UnknownBlockType);
                },
                Option::Some(m) => m,
            };
            let (name, off_opt, e) = m;
            let off: u64 = match off_opt {
                Option::None => 0,
                Option::Some(Ok(k)) => k,
                Option::Some(Err(())) => {
                    return Err(PatternError::InvalidOffset);
                },
            };
            let options = match parse_choice(c, e, false) {
                Result::Err(e2) => {
                    return Err(e2);
                },
                Result::Ok(o) => o,
            };
            if has_other_exec(&options) {
                Ok(Block::Plural(ChoiceBlock { arg_name: name, offset: off, options }))
            } else {
                Err(PatternError::MissingOther)
            }
        },
        BlockType::Ordinal => {
            let kw = kw_ordinal_exec();
            let m = match match_header_exec(c, &kw) {
                Option::None => {
                    // never taken: this segment was classified by the same header match
                    proof {
                        assert(false);
                    }
                    return Err(PatternError::UnknownBlockType);
                },
                Option::Some(m) => m,
            };
            let (name, e) = m;
            let options = match parse_choice(c, e, false) {
                Result::Err(e2) => {
                    return Err(e2);
                },
                Result::Ok(o) => o,
            };
            if has_other_exec(&options) {
                Ok(Block::Ordinal(ChoiceBlock { arg_name: name, offset: 0, options }))
            } else {
                Err(PatternError::MissingOther)
            }
        },
        BlockType::Select => {
            let kw = kw_select_exec();
            let m = match match_header_exec(c, &kw) {
                Option::None => {
                    // never taken: this segment was classified by the same header match
                    proof {
                        assert(false);
                    }
                    return Err(PatternError::UnknownBlockType);
                },
                Option::Some(m) => m,
            };
            let (name, e) = m;
            let options = match parse_choice(c, e, true) {
                Result::Err(e2) => {
                    return Err(e2);
                },
                Result::Ok(o) => o,
            };
            if has_other_exec(&options) {
                Ok(Block::Select(ChoiceBlock { arg_name: name, offset: 0, options }))
            } else {
                Err(PatternError::MissingOther)
            }
        },
        BlockType::Simple => {
            let t = sub_vec(c, 0, c.len());
            proof {
                assert(t@ =~= c@);
            }
            Ok(Block::Simple(t))
        },
        BlockType::Unknown => Err(PatternError::UnknownBlockType),
    }
}

/// Parse the remainder of a choice segment after its header into its option
/// table.
#[verifier::loop_isolation(false)]
fn parse_choice(c: &Vec<char>, e: usize, is_select: bool) -> (r: Result<
    Vec<OptionEntry>,
    PatternError,
>)
    requires
        1 <= e <= c@.len(),
    ensures
        (match r {
            Ok(opts) => spec_parse_choice(c@, e as int, is_select) == Ok::<
                Seq<(ParamValueV, Seq<BlockV>)>,
                PatternError,
            >(options_view(opts@)),
            Err(err) => spec_parse_choice(c@, e as int, is_select) == Err::<
                Seq<(ParamValueV, Seq<BlockV>)>,
                PatternError,
            >(err),
        }),
    decreases c@.len(), 1int, 0int,
{
    proof {
        assert(c@.len() == c.len());
    }
    let rem = sub_vec(c, e, c.len());
    let ghost remv = c@.subrange(e as int, c@.len() as int);
    let parts = match extract_parts(&rem) {
        Result::Err(err) => {
            return Err(err);
        },
        Result::Ok(p) => p,
    };
    proof {
        lemma_tokenize_block_len(remv, 0, 0, 0);
        assert(parts@.len() == parts.len());
    }
    let mut options: Vec<OptionEntry> = Vec::new();
    let mut pos: usize = 0;
    proof {
        assert(options_view(options@) =~= Seq::<(ParamValueV, Seq<BlockV>)>::empty());
        if spec_parse_pairs(remv, 0, is_select) is Ok {
            assert(options_view(options@) + spec_parse_pairs(remv, 0, is_select)->Ok_0
                =~= spec_parse_pairs(remv, 0, is_select)->Ok_0);
        }
    }
    while pos < parts.len()
        invariant
            pos <= parts@.len(),
            parts.deep_view() == spec_tokenize(remv)->Ok_0,
            spec_tokenize(remv) is Ok,
            remv == c@.subrange(e as int, c@.len() as int),
            (match spec_parse_pairs(remv, pos as int, is_select) {
                Ok(rest) => spec_parse_pairs(remv, 0, is_select) == Ok::<
                    Seq<(ParamValueV, Seq<BlockV>)>,
                    PatternError,
                >(options_view(options@) + rest),
                Err(err) => spec_parse_pairs(remv, 0, is_select) == Err::<
                    Seq<(ParamValueV, Seq<BlockV>)>,
                    PatternError,
                >(err),
            }),
        decreases parts@.len() - pos,
    {
        if pos + 1 >= parts.len() {
            return Err(PatternError::MissingValueElement);
        }
        let vp = &parts[pos + 1];
        proof {
            assert(parts.deep_view()[pos + 1] == parts@[pos + 1]@);
        }
        match vp.typ {
            ElementType::Text => {
                return Err(PatternError::InvalidValueElement);
            },
            ElementType::Block => {},
        }
        proof {
            assert(parts@[pos + 1]@ == PartV::Block(vp.value@));
            assert(vp.value@.len() + 2 <= remv.len());
        }
        let bs = match parse_block(&vp.value) {
            Result::Err(err) => {
                return Err(err);
            },
            Result::Ok(b) => b,
        };
        let kp = &parts[pos];
        proof {
            assert(parts.deep_view()[pos as int] == parts@[pos as int]@);
            assert(part_text(parts@[pos as int]@) == kp.value@);
        }
        let norm = if is_select {
            remove_spaces(&kp.value)
        } else {
            kv_normalize(&kp.value)
        };
        let key = match crate::param::parse_number_chars(&norm) {
            Option::Some(v) => v,
            Option::None => crate::param::from_text_chars(norm),
        };
        let ghost keyv = key@;
        let ghost bsv = blocks_view(bs@);
        let ghost pre_opts = options@;
        options.push(OptionEntry { key, val: bs });
        proof {
            lemma_options_view_push(pre_opts, options@.last());
            assert(options@.last().key@ == keyv);
            assert(blocks_view(options@.last().val@) == bsv);
            if spec_parse_pairs(remv, pos + 2, is_select) is Ok {
                assert(options_view(pre_opts) + (seq![(keyv, bsv)] + spec_parse_pairs(
                    remv,
                    pos + 2,
                    is_select,
                )->Ok_0) =~= options_view(options@) + spec_parse_pairs(
                    remv,
                    pos + 2,
                    is_select,
                )->Ok_0);
            }
        }
        pos = pos + 2;
    }
    proof {
        assert(options_view(options@) + Seq::<(ParamValueV, Seq<BlockV>)>::empty() =~= options_view(
            options@,
        ));
    }
    Ok(options)
}


} // verus!

use vstd::prelude::*;

use crate::ast::{other_key, wf_choice, BlockV, ChoiceV};
use crate::errors::PatternError;
use crate::literals::{protect_literals_from, protect_quotes_from, literal_match_at};
use crate::locale::cardinal_category;
use crate::param::{
    dec_abs, dec_digits_wf, dec_num, fmt_or_plain, pow10, pv_eq, pv_wf, spec_as_decimal,
    spec_dec_str, spec_sub_offset, lemma_sub_offset, ParamValueV,
};
use crate::render::{
    lemma_opt_index_bounds, lemma_opt_index_found, opt_index_from, pound_apply, spec_lookup,
    spec_opt_index, spec_render_blocks, spec_render_one,
};
use crate::parse::{ws_end, word_end};
use crate::text::{contains_char, is_word, replace_char_from, spec_replace_char};
use crate::tokenize::{tokenize_from, PartV};

verus! {

// ---------------------------------------------------------------------------
// Option lookup facts
// ---------------------------------------------------------------------------

/// A found option's key equals the value looked up; a miss means no key
/// equals it.
pub proof fn lemma_opt_index_match(
    options: Seq<(ParamValueV, Seq<BlockV>)>,
    v: ParamValueV,
    j: int,
)
    requires
        j < options.len(),
    ensures
        opt_index_from(options, v, j) matches Some(k) ==> 0 <= k <= j && pv_eq(options[k].0, v),
        opt_index_from(options, v, j) is None ==> forall|i: int|
            0 <= i <= j ==> !pv_eq(#[trigger] options[i].0, v),
    decreases j + 1,
{
    if 0 <= j && !pv_eq(options[j].0, v) {
        lemma_opt_index_match(options, v, j - 1);
    }
}

// ---------------------------------------------------------------------------
// Select resolution
// ---------------------------------------------------------------------------

/// For every well-formed select construct with a supplied argument: a
/// declared key equal to the runtime value chooses that branch, not
/// `other`; with no matching key the `other` branch is chosen, and a
/// construct without `other` never comes out of the parser (see
/// `lemma_parse_blocks_wf`).
pub proof fn lemma_select_resolution(
    c: ChoiceV,
    ps: Seq<(Seq<char>, ParamValueV)>,
    loc: Seq<char>,
    ip: bool,
    lits: Seq<Seq<char>>,
)
    requires
        wf_choice(c),
        spec_lookup(ps, c.arg_name) is Some,
    ensures
        ({
            let v = spec_lookup(ps, c.arg_name)->Some_0;
            match spec_opt_index(c.options, v) {
                Option::Some(i) => 0 <= i < c.options.len() && pv_eq(c.options[i].0, v)
                    && spec_render_one(BlockV::Select(c), ps, loc, ip, lits)
                    == spec_render_blocks(c.options[i].1, ps, loc, ip, lits),
                Option::None => {
                    &&& (forall|i: int|
                        0 <= i < c.options.len() ==> !pv_eq(#[trigger] c.options[i].0, v))
                    &&& spec_opt_index(c.options, ParamValueV::Text(other_key())) is Some
                    &&& spec_render_one(BlockV::Select(c), ps, loc, ip, lits)
                        == spec_render_blocks(
                        c.options[spec_opt_index(
                            c.options,
                            ParamValueV::Text(other_key()),
                        )->Some_0].1,
                        ps,
                        loc,
                        ip,
                        lits,
                    )
                },
            }
        }),
{
    let v = spec_lookup(ps, c.arg_name)->Some_0;
    lemma_opt_index_bounds(c.options, v, c.options.len() - 1);
    if c.options.len() > 0 {
        lemma_opt_index_match(c.options, v, c.options.len() - 1);
    }
    if spec_opt_index(c.options, v) is None {
        let w = choose|i: int|
            0 <= i < c.options.len() && (#[trigger] c.options[i]).0 == ParamValueV::Text(
                other_key(),
            );
        crate::parse::lemma_pv_eq_text(c.options[w].0, other_key());
        lemma_opt_index_found(c.options, ParamValueV::Text(other_key()), c.options.len() - 1);
        lemma_opt_index_bounds(c.options, ParamValueV::Text(other_key()), c.options.len() - 1);
    }
}

// ---------------------------------------------------------------------------
// Plural resolution
// ---------------------------------------------------------------------------

/// For every well-formed plural construct with offset `k` and a supplied
/// numeric argument: an explicit key equal to the raw runtime value takes
/// priority over category resolution; with no such key, the branch is
/// chosen by the cardinal category of `|value - k|`, never of the raw
/// value, and the scaled value of the adjusted number is exactly the
/// scaled value of the argument minus `k` at the fraction's scale.
pub proof fn lemma_plural_resolution(
    c: ChoiceV,
    ps: Seq<(Seq<char>, ParamValueV)>,
    loc: Seq<char>,
    ip: bool,
    lits: Seq<Seq<char>>,
)
    requires
        wf_choice(c),
        spec_lookup(ps, c.arg_name) is Some,
        pv_wf(spec_lookup(ps, c.arg_name)->Some_0),
        spec_as_decimal(spec_lookup(ps, c.arg_name)->Some_0) is Some,
    ensures
        ({
            let v = spec_lookup(ps, c.arg_name)->Some_0;
            let d = spec_as_decimal(v)->Some_0;
            let diff = spec_sub_offset(d, c.offset as nat);
            &&& dec_num(diff) == dec_num(d) - (((c.offset as nat) * pow10(d.frac.len())) as int)
            &&& (spec_opt_index(c.options, v) matches Some(i) ==> 0 <= i < c.options.len()
                && pv_eq(c.options[i].0, v) && spec_render_one(BlockV::Plural(c), ps, loc, ip, lits)
                == ({
                let sub = spec_render_blocks(c.options[i].1, ps, loc, ip, lits);
                (pound_apply(ip, sub.0, loc, diff), sub.1)
            }))
            &&& (spec_opt_index(c.options, v) is None ==> (cardinal_category(
                loc,
                spec_dec_str(dec_abs(diff)),
            ) matches Some(cat) ==> ({
                let idx = (match spec_opt_index(c.options, ParamValueV::Text(cat)) {
                    Option::Some(i) => i,
                    Option::None => spec_opt_index(
                        c.options,
                        ParamValueV::Text(other_key()),
                    )->Some_0,
                });
                &&& 0 <= idx < c.options.len()
                &&& spec_render_one(BlockV::Plural(c), ps, loc, ip, lits) == ({
                    let sub = spec_render_blocks(c.options[idx].1, ps, loc, ip, lits);
                    (pound_apply(ip, sub.0, loc, diff), sub.1)
                })
            })))
        }),
{
    let v = spec_lookup(ps, c.arg_name)->Some_0;
    let d = spec_as_decimal(v)->Some_0;
    assert(dec_digits_wf(d)) by {
        crate::param::lemma_as_decimal_wf(v);
    }
    lemma_sub_offset(d, c.offset as nat);
    lemma_opt_index_bounds(c.options, v, c.options.len() - 1);
    if c.options.len() > 0 {
        lemma_opt_index_match(c.options, v, c.options.len() - 1);
    }
    let diff = spec_sub_offset(d, c.offset as nat);
    if spec_opt_index(c.options, v) is None && cardinal_category(
        loc,
        spec_dec_str(dec_abs(diff)),
    ) is Some {
        let cat = cardinal_category(loc, spec_dec_str(dec_abs(diff)))->Some_0;
        lemma_opt_index_bounds(c.options, ParamValueV::Text(cat), c.options.len() - 1);
        if spec_opt_index(c.options, ParamValueV::Text(cat)) is None {
            let w = choose|i: int|
                0 <= i < c.options.len() && (#[trigger] c.options[i]).0 == ParamValueV::Text(
                    other_key(),
                );
            crate::parse::lemma_pv_eq_text(c.options[w].0, other_key());
            lemma_opt_index_found(c.options, ParamValueV::Text(other_key()), c.options.len() - 1);
            lemma_opt_index_bounds(
                c.options,
                ParamValueV::Text(other_key()),
                c.options.len() - 1,
            );
        }
    }
}

// ---------------------------------------------------------------------------
// Pound substitution
// ---------------------------------------------------------------------------

/// Replacing a character that does not occur leaves the text unchanged.
pub proof fn lemma_replace_char_absent(s: Seq<char>, i: int, c: char, rep: Seq<char>)
    requires
        0 <= i <= s.len(),
        forall|k: int| i <= k < s.len() ==> s[k] != c,
    ensures
        replace_char_from(s, i, c, rep) == s.subrange(i, s.len() as int),
    decreases s.len() - i,
{
    if i < s.len() {
        lemma_replace_char_absent(s, i + 1, c, rep);
        assert(seq![s[i]] + s.subrange(i + 1, s.len() as int) =~= s.subrange(i, s.len() as int));
    } else {
        assert(s.subrange(i, s.len() as int) =~= Seq::<char>::empty());
    }
}

/// In every rendered plural/ordinal branch, `#` substitution yields the
/// branch text with each `#` replaced by the locale rendering of
/// `value - offset` exactly; with substitution off the text passes through
/// unchanged, and a branch without `#` is never altered.
pub proof fn lemma_pound_substitution(ip: bool, text: Seq<char>, loc: Seq<char>, diff: crate::param::DecV)
    ensures
        ip ==> pound_apply(ip, text, loc, diff) == text,
        !ip ==> pound_apply(ip, text, loc, diff) == spec_replace_char(
            text,
            '#',
            fmt_or_plain(loc, spec_dec_str(diff)),
        ),
        !contains_char(text, '#') ==> pound_apply(ip, text, loc, diff) == text,
{
    if !contains_char(text, '#') {
        lemma_replace_char_absent(text, 0, '#', fmt_or_plain(loc, spec_dec_str(diff)));
        assert(text.subrange(0, text.len() as int) =~= text);
    }
}


// ---------------------------------------------------------------------------
// Plain text renders to itself
// ---------------------------------------------------------------------------

/// Pass one of literal protection leaves quote-free text untouched.
proof fn lemma_protect_quotes_plain(s: Seq<char>, i: int, lits: Seq<Seq<char>>)
    requires
        0 <= i <= s.len(),
        forall|k: int| i <= k < s.len() ==> s[k] != '\'',
    ensures
        protect_quotes_from(s, i, lits) == (s.subrange(i, s.len() as int), lits),
    decreases s.len() - i,
{
    if i < s.len() {
        lemma_protect_quotes_plain(s, i + 1, lits);
        assert(seq![s[i]] + s.subrange(i + 1, s.len() as int) =~= s.subrange(i, s.len() as int));
    } else {
        assert(s.subrange(i, s.len() as int) =~= Seq::<char>::empty());
    }
}

/// Pass two of literal protection leaves quote-free text untouched.
proof fn lemma_protect_literals_plain(s: Seq<char>, i: int, lits: Seq<Seq<char>>)
    requires
        0 <= i <= s.len(),
        forall|k: int| i <= k < s.len() ==> s[k] != '\'',
    ensures
        protect_literals_from(s, i, lits) == (s.subrange(i, s.len() as int), lits),
    decreases s.len() - i,
{
    if i < s.len() {
        assert(!literal_match_at(s, i));
        lemma_protect_literals_plain(s, i + 1, lits);
        assert(seq![s[i]] + s.subrange(i + 1, s.len() as int) =~= s.subrange(i, s.len() as int));
    } else {
        assert(s.subrange(i, s.len() as int) =~= Seq::<char>::empty());
    }
}

/// Tokenizing brace-free text yields one text part, or nothing when the
/// text is empty.
proof fn lemma_tokenize_plain(s: Seq<char>, i: int, prev: int)
    requires
        0 <= prev <= i <= s.len(),
        forall|k: int| i <= k < s.len() ==> s[k] != '{' && s[k] != '}',
    ensures
        tokenize_from(s, i, prev, 0) == (if prev < s.len() {
            Ok::<Seq<PartV>, PatternError>(seq![PartV::Text(s.subrange(prev, s.len() as int))])
        } else {
            Ok::<Seq<PartV>, PatternError>(Seq::empty())
        }),
    decreases s.len() - i,
{
    if i < s.len() {
        lemma_tokenize_plain(s, i + 1, prev);
    }
}

/// For every pattern holding no argument syntax — no brace, no quote, no
/// pound sign — rendering returns the pattern text unchanged, whatever the
/// parameters, the locale and the pound flag.
pub proof fn lemma_plain_text_identity(
    p: Seq<char>,
    ps: Seq<(Seq<char>, ParamValueV)>,
    loc: Seq<char>,
    ip: bool,
)
    requires
        forall|i: int|
            0 <= i < p.len() ==> p[i] != '{' && p[i] != '}' && p[i] != '\'' && p[i] != '#',
    ensures
        crate::spec_compile(p) is Ok,
        crate::render::spec_format(
            crate::spec_compile(p)->Ok_0.0,
            crate::spec_compile(p)->Ok_0.1,
            ps,
            loc,
            ip,
        ) == Ok::<Seq<char>, PatternError>(p),
{
    let nolits = Seq::<Seq<char>>::empty();
    lemma_protect_quotes_plain(p, 0, nolits);
    assert(p.subrange(0, p.len() as int) =~= p);
    lemma_protect_literals_plain(p, 0, nolits);
    lemma_tokenize_plain(p, 0, 0);
    if p.len() == 0 {
        assert(crate::parse::spec_parse_parts(p, 0) == Ok::<Seq<BlockV>, PatternError>(
            Seq::empty(),
        ));
    } else {
        let parts = seq![PartV::Text(p)];
        assert(crate::tokenize::spec_tokenize(p) == Ok::<Seq<PartV>, PatternError>(parts));
        assert(crate::parse::spec_parse_parts(p, 1) == Ok::<Seq<BlockV>, PatternError>(
            Seq::empty(),
        ));
        assert(crate::parse::spec_parse_parts(p, 0) == Ok::<Seq<BlockV>, PatternError>(
            seq![BlockV::Text(p)] + Seq::<BlockV>::empty(),
        ));
        let bs = seq![BlockV::Text(p)];
        assert(seq![BlockV::Text(p)] + Seq::<BlockV>::empty() =~= bs);
        assert(bs.drop_last() =~= Seq::<BlockV>::empty());
        assert(bs.last() == BlockV::Text(p));
        assert(spec_render_blocks(Seq::<BlockV>::empty(), ps, loc, ip, nolits) == (
            Seq::<char>::empty(),
            nolits,
        ));
        assert(spec_render_one(BlockV::Text(p), ps, loc, ip, nolits) == (p, nolits));
        assert(spec_render_blocks(bs, ps, loc, ip, nolits) == (Seq::<char>::empty() + p, nolits));
        assert(Seq::<char>::empty() + p =~= p);
        assert(!contains_char(p, '#'));
        assert(crate::literals::spec_restore(nolits, p) == p);
    }
}

// ---------------------------------------------------------------------------
// A parameter's text is emitted verbatim
// ---------------------------------------------------------------------------

/// A run of word characters ends the word scan at the end of the text.
proof fn lemma_word_end_all(s: Seq<char>, i: int)
    requires
        0 <= i <= s.len(),
        forall|k: int| 0 <= k < s.len() ==> is_word(#[trigger] s[k]),
    ensures
        word_end(s, i) == s.len(),
    decreases s.len() - i,
{
    if i < s.len() {
        lemma_word_end_all(s, i + 1);
    }
}

/// Tokenizing `{name}` with a brace-free name yields one block part.
proof fn lemma_tokenize_single_block(p: Seq<char>, i: int)
    requires
        p.len() >= 2,
        p[0] == '{',
        p.last() == '}',
        forall|k: int| 1 <= k < p.len() - 1 ==> p[k] != '{' && p[k] != '}',
        1 <= i <= p.len() - 1,
    ensures
        tokenize_from(p, i, 1, 1) == Ok::<Seq<PartV>, PatternError>(
            seq![PartV::Block(p.subrange(1, p.len() - 1))],
        ),
    decreases p.len() - i,
{
    if i == p.len() - 1 {
        assert(p[i] == '}');
        assert(tokenize_from(p, p.len() as int, p.len() as int, 0) == Ok::<
            Seq<PartV>,
            PatternError,
        >(Seq::empty()));
        assert(seq![PartV::Block(p.subrange(1, p.len() - 1))] + Seq::<PartV>::empty()
            =~= seq![PartV::Block(p.subrange(1, p.len() - 1))]);
    } else {
        lemma_tokenize_single_block(p, i + 1);
    }
}

/// For every word-character argument name and every value text — braces,
/// pound signs and all — the pattern that is exactly that placeholder
/// renders to the value verbatim: a parameter's content never alters the
/// parse structure.
#[verifier::rlimit(80)]
pub proof fn lemma_param_text_verbatim(name: Seq<char>, v: Seq<char>, loc: Seq<char>, ip: bool)
    requires
        name.len() > 0,
        forall|i: int| 0 <= i < name.len() ==> is_word(#[trigger] name[i]),
    ensures
        ({
            let p = seq!['{'] + name + seq!['}'];
            &&& crate::spec_compile(p) is Ok
            &&& crate::render::spec_format(
                crate::spec_compile(p)->Ok_0.0,
                crate::spec_compile(p)->Ok_0.1,
                seq![(name, ParamValueV::Text(v))],
                loc,
                ip,
            ) == Ok::<Seq<char>, PatternError>(v)
        }),
{
    let p = seq!['{'] + name + seq!['}'];
    let ps = seq![(name, ParamValueV::Text(v))];
    let nolits = Seq::<Seq<char>>::empty();
    assert(p.len() == name.len() + 2);
    assert forall|k: int| 0 <= k < p.len() implies p[k] != '\'' by {
        if 1 <= k < p.len() - 1 {
            assert(p[k] == name[k - 1]);
            assert(is_word(name[k - 1]));
        }
    }
    lemma_protect_quotes_plain(p, 0, nolits);
    assert(p.subrange(0, p.len() as int) =~= p);
    lemma_protect_literals_plain(p, 0, nolits);
    // tokenize: one block part holding exactly the name
    assert forall|k: int| 1 <= k < p.len() - 1 implies p[k] != '{' && p[k] != '}' by {
        assert(p[k] == name[k - 1]);
        assert(is_word(name[k - 1]));
    }
    assert(p.last() == '}');
    lemma_tokenize_single_block(p, 1);
    assert(p[0] == '{');
    assert(Seq::<PartV>::empty() + seq![PartV::Block(p.subrange(1, p.len() - 1))]
        =~= seq![PartV::Block(p.subrange(1, p.len() - 1))]);
    assert(p.subrange(1, p.len() - 1) =~= name);
    let parts = seq![PartV::Block(name)];
    assert(crate::tokenize::spec_tokenize(p) == Ok::<Seq<PartV>, PatternError>(parts));
    // the block is a bare placeholder
    assert(ws_end(name, 0) == 0);
    lemma_word_end_all(name, 0);
    assert(crate::parse::spec_match_header(name, crate::parse::kw_plural()) is None);
    assert(crate::parse::spec_match_header(name, crate::parse::kw_ordinal()) is None);
    assert(crate::parse::spec_match_header(name, crate::parse::kw_select()) is None);
    assert(crate::parse::spec_block_type(name) == crate::parse::BlockType::Simple);
    assert(crate::parse::spec_parse_one(name) == Ok::<BlockV, PatternError>(BlockV::Simple(name)));
    assert(crate::parse::spec_parse_parts(p, 1) == Ok::<Seq<BlockV>, PatternError>(Seq::empty()));
    assert(crate::parse::spec_parse_parts(p, 0) == Ok::<Seq<BlockV>, PatternError>(
        seq![BlockV::Simple(name)] + Seq::<BlockV>::empty(),
    ));
    let bs = seq![BlockV::Simple(name)];
    assert(seq![BlockV::Simple(name)] + Seq::<BlockV>::empty() =~= bs);
    assert(crate::spec_compile(p) == Ok::<(Seq<BlockV>, Seq<Seq<char>>), PatternError>(
        (bs, nolits),
    ));
    // render: the value joins the literal table behind a fresh token
    assert(bs.drop_last() =~= Seq::<BlockV>::empty());
    assert(bs.last() == BlockV::Simple(name));
    assert(spec_lookup(ps, name) == Some(ParamValueV::Text(v)));
    assert(crate::param::spec_format_value(ParamValueV::Text(v), loc) == v);
    let tok = crate::literals::spec_placeholder(0);
    assert(spec_render_one(BlockV::Simple(name), ps, loc, ip, nolits) == (
        tok,
        nolits.push(v),
    ));
    assert(spec_render_blocks(Seq::<BlockV>::empty(), ps, loc, ip, nolits) == (
        Seq::<char>::empty(),
        nolits,
    ));
    assert(spec_render_blocks(bs, ps, loc, ip, nolits) == (
        Seq::<char>::empty() + tok,
        nolits.push(v),
    ));
    assert(Seq::<char>::empty() + tok =~= tok);
    // the token holds no pound sign
    assert(crate::text::spec_digits(0nat) =~= seq!['0']);
    assert(tok =~= seq!['_', crate::literals::marker_char(), '_', '0', '_']);
    assert(!contains_char(tok, '#')) by {
        assert(forall|i: int| 0 <= i < tok.len() ==> tok[i] != '#');
    }
    // restoration puts the value back in place of the token
    let lits1 = nolits.push(v);
    assert(lits1.drop_last() =~= nolits);
    assert(lits1.last() == v);
    assert(crate::text::match_at(tok, tok, 0)) by {
        assert(tok.subrange(0, tok.len() as int) =~= tok);
    }
    assert(crate::text::find_from(tok, tok, 0) == Some(0int));
    assert(crate::text::spec_replace_first(tok, tok, v) == tok.subrange(0, 0) + v + tok.subrange(
        tok.len() as int,
        tok.len() as int,
    ));
    assert(tok.subrange(0, 0) + v + tok.subrange(tok.len() as int, tok.len() as int) =~= v);
    assert(crate::text::spec_replace_first(tok, tok, v) == v);
    assert(crate::literals::spec_restore(nolits, v) == v);
    assert(crate::literals::spec_restore(lits1, tok) == v);
}


} // verus!

use vstd::prelude::*;

use crate::ast::{
    blocks_view, block_view, options_view, other_key, wf_block, wf_blocks, wf_choice, Block,
    BlockV, ChoiceBlock, ChoiceV, OptionEntry,
};
use crate::errors::PatternError;
use crate::literals::{placeholder_chars, restore_literals, spec_placeholder, spec_restore};
use crate::locale::{cardinal_category, Locale};
use crate::param::{
    dec_abs, fmt_or_plain, pv_eq, spec_as_decimal, spec_dec_str, spec_format_value,
    spec_sub_offset, DecV, ParamValue, ParamValueV,
};
use crate::text::{
    chars_eq, chars_string, contains_char, contains_char_exec, push_all, replace_char,
    spec_replace_char, str_chars, sub_vec,
};

verus! {

// ---------------------------------------------------------------------------
// Parameter and option lookup
// ---------------------------------------------------------------------------

/// The abstract form of a parameter map: each name with its value, in
/// order.
pub open spec fn params_view(ps: Seq<(String, ParamValue)>) -> Seq<(Seq<char>, ParamValueV)> {
    Seq::new(ps.len(), |i: int| (ps[i].0@, ps[i].1@))
}

/// The value under `name`, scanning from position `i` towards the front:
/// with duplicate names the last entry wins, as collecting into a map
/// would make it.
pub open spec fn lookup_param_from(
    ps: Seq<(Seq<char>, ParamValueV)>,
    name: Seq<char>,
    i: int,
) -> Option<ParamValueV>
    decreases i + 1,
{
    if i < 0 || i >= ps.len() {
        None
    } else if ps[i].0 == name {
        Some(ps[i].1)
    } else {
        lookup_param_from(ps, name, i - 1)
    }
}

/// The value under `name` in the parameter map, if any.
pub open spec fn spec_lookup(ps: Seq<(Seq<char>, ParamValueV)>, name: Seq<char>) -> Option<
    ParamValueV,
> {
    lookup_param_from(ps, name, ps.len() - 1)
}

/// The position of the last option whose key equals `v` under
/// cross-representation equality, scanning from position `i` towards the
/// front.
pub open spec fn opt_index_from(
    options: Seq<(ParamValueV, Seq<BlockV>)>,
    v: ParamValueV,
    i: int,
) -> Option<int>
    decreases i + 1,
{
    if i < 0 || i >= options.len() {
        None
    } else if pv_eq(options[i].0, v) {
        Some(i)
    } else {
        opt_index_from(options, v, i - 1)
    }
}

/// The position of the option chosen for the key `v`, if any: with
/// duplicate keys the last entry wins.
pub open spec fn spec_opt_index(options: Seq<(ParamValueV, Seq<BlockV>)>, v: ParamValueV) -> Option<
    int,
> {
    opt_index_from(options, v, options.len() - 1)
}

/// A found option position lies within the table.
pub proof fn lemma_opt_index_bounds(options: Seq<(ParamValueV, Seq<BlockV>)>, v: ParamValueV, i: int)
    ensures
        opt_index_from(options, v, i) matches Some(k) ==> 0 <= k < options.len(),
    decreases i + 1,
{
    if !(i < 0 || i >= options.len()) && !pv_eq(options[i].0, v) {
        lemma_opt_index_bounds(options, v, i - 1);
    }
}

// ---------------------------------------------------------------------------
// Diagnostic text
// ---------------------------------------------------------------------------

/// The in-output diagnostic for a parameter the caller did not supply.
pub open spec fn undef_msg(name: Seq<char>) -> Seq<char> {
    "Undefined parameter - "@ + name
}

/// The in-output diagnostic for a parameter that is not a number where one
/// is required.
pub open spec fn invalid_msg(name: Seq<char>) -> Seq<char> {
    "Invalid parameter - "@ + name
}

// ---------------------------------------------------------------------------
// The rendering semantics
// ---------------------------------------------------------------------------

/// The pound pass over one rendered choice branch: every `#` becomes the
/// locale rendering of the offset-adjusted value, unless pound substitution
/// is off.
pub open spec fn pound_apply(ip: bool, text: Seq<char>, loc: Seq<char>, diff: DecV) -> Seq<char> {
    if ip {
        text
    } else {
        spec_replace_char(text, '#', fmt_or_plain(loc, spec_dec_str(diff)))
    }
}

/// Render a block sequence left to right, threading the literal table: the
/// rendered text and the grown table.
pub open spec fn spec_render_blocks(
    bs: Seq<BlockV>,
    ps: Seq<(Seq<char>, ParamValueV)>,
    loc: Seq<char>,
    ip: bool,
    lits: Seq<Seq<char>>,
) -> (Seq<char>, Seq<Seq<char>>)
    decreases bs,
{
    if bs.len() == 0 {
        (Seq::empty(), lits)
    } else {
        let front = spec_render_blocks(bs.drop_last(), ps, loc, ip, lits);
        let last = spec_render_one(bs.last(), ps, loc, ip, front.1);
        (front.0 + last.0, last.1)
    }
}

/// Render one block: literal text verbatim; a placeholder through the
/// parameter map, the locale formatter and a fresh literal-table entry; a
/// select by key lookup with `other` as fallback; a plural or ordinal by
/// exact match, else cardinal category, with pound substitution after.
pub open spec fn spec_render_one(
    b: BlockV,
    ps: Seq<(Seq<char>, ParamValueV)>,
    loc: Seq<char>,
    ip: bool,
    lits: Seq<Seq<char>>,
) -> (Seq<char>, Seq<Seq<char>>)
    decreases b,
    via spec_render_one_decreases
{
    match b {
        BlockV::Text(t) => (t, lits),
        BlockV::Simple(name) => (match spec_lookup(ps, name) {
            Option::None => (undef_msg(name), lits),
            Option::Some(v) => (
                spec_placeholder(lits.len()),
                lits.push(spec_format_value(v, loc)),
            ),
        }),
        BlockV::Select(c) => (match spec_lookup(ps, c.arg_name) {
            Option::None => (undef_msg(c.arg_name), lits),
            Option::Some(v) => {
                let idx = (match spec_opt_index(c.options, v) {
                    Option::Some(i) => Option::Some(i),
                    Option::None => spec_opt_index(c.options, ParamValueV::Text(other_key())),
                });
                match idx {
                    Option::None => (Seq::empty(), lits),
                    Option::Some(i) => spec_render_blocks(c.options[i].1, ps, loc, ip, lits),
                }
            },
        }),
        BlockV::Plural(c) => spec_render_numeric(c, ps, loc, ip, lits),
        BlockV::Ordinal(c) => spec_render_numeric(c, ps, loc, ip, lits),
    }
}

#[via_fn]
proof fn spec_render_one_decreases(
    b: BlockV,
    ps: Seq<(Seq<char>, ParamValueV)>,
    loc: Seq<char>,
    ip: bool,
    lits: Seq<Seq<char>>,
) {
    match b {
        BlockV::Select(c) => {
            if spec_lookup(ps, c.arg_name) is Some {
                let v = spec_lookup(ps, c.arg_name)->Some_0;
                lemma_opt_index_bounds(c.options, v, c.options.len() - 1);
                lemma_opt_index_bounds(
                    c.options,
                    ParamValueV::Text(other_key()),
                    c.options.len() - 1,
                );
            }
        },
        _ => {},
    }
}

/// Render a plural or selectordinal choice. An explicit key equal to the
/// raw runtime value wins; otherwise the cardinal plural category of the
/// absolute offset-adjusted value chooses the branch, with `other` as
/// fallback. Ordinal categories deliberately go through the cardinal
/// classifier: true ordinal rules are a documented limitation.
pub open spec fn spec_render_numeric(
    c: ChoiceV,
    ps: Seq<(Seq<char>, ParamValueV)>,
    loc: Seq<char>,
    ip: bool,
    lits: Seq<Seq<char>>,
) -> (Seq<char>, Seq<Seq<char>>)
    decreases c,
    via spec_render_numeric_decreases
{
    match spec_lookup(ps, c.arg_name) {
        Option::None => (undef_msg(c.arg_name), lits),
        Option::Some(v) => match spec_as_decimal(v) {
            Option::None => (invalid_msg(c.arg_name), lits),
            Option::Some(d) => {
                let diff = spec_sub_offset(d, c.offset as nat);
                match spec_opt_index(c.options, v) {
                    Option::Some(i) => {
                        let sub = spec_render_blocks(c.options[i].1, ps, loc, ip, lits);
                        (pound_apply(ip, sub.0, loc, diff), sub.1)
                    },
                    Option::None => match cardinal_category(loc, spec_dec_str(dec_abs(diff))) {
                        Option::None => (invalid_msg(spec_dec_str(diff)), lits),
                        Option::Some(cat) => {
                            let idx = (match spec_opt_index(c.options, ParamValueV::Text(cat)) {
                                Option::Some(i) => Option::Some(i),
                                Option::None => spec_opt_index(
                                    c.options,
                                    ParamValueV::Text(other_key()),
                                ),
                            });
                            match idx {
                                Option::None => (Seq::empty(), lits),
                                Option::Some(i) => {
                                    let sub = spec_render_blocks(c.options[i].1, ps, loc, ip, lits);
                                    (pound_apply(ip, sub.0, loc, diff), sub.1)
                                },
                            }
                        },
                    },
                }
            },
        },
    }
}

#[via_fn]
proof fn spec_render_numeric_decreases(
    c: ChoiceV,
    ps: Seq<(Seq<char>, ParamValueV)>,
    loc: Seq<char>,
    ip: bool,
    lits: Seq<Seq<char>>,
) {
    if spec_lookup(ps, c.arg_name) is Some {
        let v = spec_lookup(ps, c.arg_name)->Some_0;
        lemma_opt_index_bounds(c.options, v, c.options.len() - 1);
        lemma_opt_index_bounds(c.options, ParamValueV::Text(other_key()), c.options.len() - 1);
        if spec_as_decimal(v) is Some {
            let d = spec_as_decimal(v)->Some_0;
            let diff = spec_sub_offset(d, c.offset as nat);
            if cardinal_category(loc, spec_dec_str(dec_abs(diff))) is Some {
                let cat = cardinal_category(loc, spec_dec_str(dec_abs(diff)))->Some_0;
                lemma_opt_index_bounds(c.options, ParamValueV::Text(cat), c.options.len() - 1);
            }
        }
    }
}

/// Render a whole compiled pattern: an empty pattern renders to nothing;
/// otherwise the blocks are rendered, a leftover `#` outside any plural
/// scope is a fatal internal error, and the protected literals are restored
/// last.
pub open spec fn spec_format(
    parsed: Seq<BlockV>,
    init_lits: Seq<Seq<char>>,
    ps: Seq<(Seq<char>, ParamValueV)>,
    loc: Seq<char>,
    ip: bool,
) -> Result<Seq<char>, PatternError> {
    if parsed.len() == 0 {
        Ok(Seq::empty())
    } else {
        let rendered = spec_render_blocks(parsed, ps, loc, ip, init_lits);
        if !ip && contains_char(rendered.0, '#') {
            Err(PatternError::UnresolvedPound)
        } else {
            Ok(spec_restore(rendered.1, rendered.0))
        }
    }
}


// ---------------------------------------------------------------------------
// Executable lookup
// ---------------------------------------------------------------------------

/// A key present under cross-representation equality is found.
pub proof fn lemma_opt_index_found(options: Seq<(ParamValueV, Seq<BlockV>)>, v: ParamValueV, j: int)
    requires
        j < options.len(),
        exists|i: int| 0 <= i <= j && pv_eq(#[trigger] options[i].0, v),
    ensures
        opt_index_from(options, v, j) is Some,
    decreases j + 1,
{
    if !pv_eq(options[j].0, v) {
        let w = choose|i: int| 0 <= i <= j && pv_eq(#[trigger] options[i].0, v);
        assert(0 <= w <= j - 1);
        lemma_opt_index_found(options, v, j - 1);
    }
}

/// The value under `name` in the parameter map: with duplicate names the
/// last entry wins.
#[verifier::loop_isolation(false)]
fn lookup_param<'p>(ps: &'p Vec<(String, ParamValue)>, name: &Vec<char>) -> (r: Option<
    &'p ParamValue,
>)
    ensures
        (match r {
            Option::Some(v) => spec_lookup(params_view(ps@), name@) == Some(v@),
            Option::None => spec_lookup(params_view(ps@), name@) is None,
        }),
{
    proof {
        assert(ps@.len() == ps.len());
    }
    let mut i: usize = ps.len();
    while i > 0
        invariant
            i <= ps@.len(),
            spec_lookup(params_view(ps@), name@) == lookup_param_from(
                params_view(ps@),
                name@,
                i as int - 1,
            ),
        decreases i,
    {
        i = i - 1;
        let kv = &ps[i];
        let kc = str_chars(kv.0.as_str());
        proof {
            assert(params_view(ps@)[i as int] == (ps@[i as int].0@, ps@[i as int].1@));
        }
        if chars_eq(&kc, name) {
            return Some(&kv.1);
        }
    }
    None
}

/// The position of the option chosen for the key `v`, if any: with
/// duplicate keys the last entry wins.
#[verifier::loop_isolation(false)]
fn opt_index_exec(options: &Vec<OptionEntry>, v: &ParamValue) -> (r: Option<usize>)
    ensures
        (match r {
            Option::Some(i) => spec_opt_index(options_view(options@), v@) == Some(i as int) && i
                < options@.len(),
            Option::None => spec_opt_index(options_view(options@), v@) is None,
        }),
{
    proof {
        crate::ast::lemma_options_view_len(options@);
        assert(options@.len() == options.len());
    }
    let mut i: usize = options.len();
    while i > 0
        invariant
            i <= options@.len(),
            spec_opt_index(options_view(options@), v@) == opt_index_from(
                options_view(options@),
                v@,
                i as int - 1,
            ),
        decreases i,
    {
        i = i - 1;
        proof {
            crate::ast::lemma_options_view_index(options@, i as int);
        }
        if options[i].key == *v {
            return Some(i);
        }
    }
    None
}

/// The in-output diagnostic for a missing parameter.
fn undef_msg_exec(name: &Vec<char>) -> (r: Vec<char>)
    ensures
        r@ == undef_msg(name@),
{
    let mut r = str_chars("Undefined parameter - ");
    push_all(&mut r, name);
    r
}

/// The in-output diagnostic for a non-numeric parameter.
fn invalid_msg_exec(name: &Vec<char>) -> (r: Vec<char>)
    ensures
        r@ == invalid_msg(name@),
{
    let mut r = str_chars("Invalid parameter - ");
    push_all(&mut r, name);
    r
}

/// A working copy of the literal table for one render call.
#[verifier::loop_isolation(false)]
fn dup_lits(lits: &Vec<Vec<char>>) -> (r: Vec<Vec<char>>)
    ensures
        r.deep_view() == lits.deep_view(),
{
    proof {
        assert(lits@.len() == lits.len());
    }
    let mut r: Vec<Vec<char>> = Vec::new();
    let mut i: usize = 0;
    while i < lits.len()
        invariant
            i <= lits@.len(),
            r@.len() == i,
            forall|k: int| 0 <= k < i ==> #[trigger] r@[k]@ == lits@[k]@,
        decreases lits@.len() - i,
    {
        let e = sub_vec(&lits[i], 0, lits[i].len());
        proof {
            assert(e@ =~= lits@[i as int]@);
        }
        r.push(e);
        i = i + 1;
    }
    proof {
        assert(r.deep_view() =~~= lits.deep_view());
    }
    r
}

// ---------------------------------------------------------------------------
// The tree-walking renderer
// ---------------------------------------------------------------------------

/// The tree-walking renderer: the locale, the compiled pattern with its
/// literal table, and whether `#` substitution is on.
pub struct Formatter<'a> {
    pub(crate) locale: &'a Locale,
    pub(crate) initial_literals: &'a Vec<Vec<char>>,
    pub(crate) parsed_pattern: &'a Vec<Block>,
    pub(crate) ignore_pound: bool,
}

impl<'a> Formatter<'a> {
    /// A renderer over a compiled pattern.
    pub(crate) fn new(
        locale: &'a Locale,
        initial_literals: &'a Vec<Vec<char>>,
        parsed_pattern: &'a Vec<Block>,
        ignore_pound: bool,
    ) -> (r: Formatter<'a>)
        ensures
            r.locale == locale,
            r.initial_literals == initial_literals,
            r.parsed_pattern == parsed_pattern,
            r.ignore_pound == ignore_pound,
    {
        Formatter { locale, initial_literals, parsed_pattern, ignore_pound }
    }

    /// Render the compiled pattern against the given parameters.
    pub(crate) fn format(&self, named_parameters: &Vec<(String, ParamValue)>) -> (r: Result<
        String,
        PatternError,
    >)
        requires
            wf_blocks(blocks_view(self.parsed_pattern@)),
        ensures
            (match r {
                Ok(s) => spec_format(
                    blocks_view(self.parsed_pattern@),
                    self.initial_literals.deep_view(),
                    params_view(named_parameters@),
                    self.locale@,
                    self.ignore_pound,
                ) == Ok::<Seq<char>, PatternError>(s@),
                Err(e) => spec_format(
                    blocks_view(self.parsed_pattern@),
                    self.initial_literals.deep_view(),
                    params_view(named_parameters@),
                    self.locale@,
                    self.ignore_pound,
                ) == Err::<Seq<char>, PatternError>(e),
            }),
    {
        proof {
            crate::ast::lemma_blocks_view_len(self.parsed_pattern@);
            assert(self.parsed_pattern@.len() == self.parsed_pattern.len());
        }
        if self.parsed_pattern.len() == 0 {
            let s = String::new();
            return Ok(s);
        }
        let lits = dup_lits(self.initial_literals);
        let rendered = self.format_block(self.parsed_pattern, named_parameters, lits);
        let (text, lits2) = rendered;
        if !self.ignore_pound && contains_char_exec(&text, '#') {
            return Err(PatternError::UnresolvedPound);
        }
        let restored = restore_literals(lits2, text);
        Ok(chars_string(&restored))
    }

    /// Render a block sequence left to right, threading the literal table.
    #[verifier::loop_isolation(false)]
    fn format_block(
        &self,
        blocks: &Vec<Block>,
        ps: &Vec<(String, ParamValue)>,
        lits: Vec<Vec<char>>,
    ) -> (r: (Vec<char>, Vec<Vec<char>>))
        requires
            wf_blocks(blocks_view(blocks@)),
        ensures
            ({
                let sr = spec_render_blocks(
                    blocks_view(blocks@),
                    params_view(ps@),
                    self.locale@,
                    self.ignore_pound,
                    lits.deep_view(),
                );
                r.0@ == sr.0 && r.1.deep_view() == sr.1
            }),
        decreases blocks@,
    {
        proof {
            crate::ast::lemma_blocks_view_len(blocks@);
            assert(blocks@.len() == blocks.len());
        }
        let mut out: Vec<char> = Vec::new();
        let mut cur = lits;
        let ghost lits0 = cur.deep_view();
        let mut j: usize = 0;
        proof {
            assert(blocks_view(blocks@.subrange(0, 0)) =~= Seq::<BlockV>::empty());
        }
        while j < blocks.len()
            invariant
                j <= blocks@.len(),
                out@ == spec_render_blocks(
                    blocks_view(blocks@.subrange(0, j as int)),
                    params_view(ps@),
                    self.locale@,
                    self.ignore_pound,
                    lits0,
                ).0,
                cur.deep_view() == spec_render_blocks(
                    blocks_view(blocks@.subrange(0, j as int)),
                    params_view(ps@),
                    self.locale@,
                    self.ignore_pound,
                    lits0,
                ).1,
            decreases blocks@.len() - j,
        {
            let ghost pre_take = blocks_view(blocks@.subrange(0, j as int));
            proof {
                assert(blocks@.subrange(0, j + 1).drop_last() =~= blocks@.subrange(0, j as int));
                assert(blocks@.subrange(0, j + 1).last() == blocks@[j as int]);
                crate::ast::lemma_blocks_view_push(
                    blocks@.subrange(0, j as int),
                    blocks@[j as int],
                );
                assert(blocks_view(blocks@.subrange(0, j + 1)) == pre_take.push(
                    block_view(blocks@[j as int]),
                ));
                assert(blocks_view(blocks@.subrange(0, j + 1)).drop_last() =~= pre_take);
                crate::ast::lemma_blocks_view_index(blocks@, j as int);
                assert(wf_block(block_view(blocks@[j as int])));
            }
            let b = &blocks[j];
            match b {
                Block::Text(t) => {
                    push_all(&mut out, t);
                },
                Block::Simple(name) => {
                    let stepped = self.format_simple_placeholder(name, ps, cur);
                    cur = stepped.1;
                    push_all(&mut out, &stepped.0);
                },
                Block::Select(c) => {
                    proof {
                        assert(block_view(blocks@[j as int]) == BlockV::Select(
                            ChoiceV {
                                arg_name: c.arg_name@,
                                offset: c.offset,
                                options: options_view(c.options@),
                            },
                        ));
                    }
                    let stepped = self.format_select_block(c, ps, cur);
                    cur = stepped.1;
                    push_all(&mut out, &stepped.0);
                },
                Block::Plural(c) => {
                    proof {
                        assert(block_view(blocks@[j as int]) == BlockV::Plural(
                            ChoiceV {
                                arg_name: c.arg_name@,
                                offset: c.offset,
                                options: options_view(c.options@),
                            },
                        ));
                    }
                    let stepped = self.format_plural_ordinal_block(c, ps, cur);
                    cur = stepped.1;
                    push_all(&mut out, &stepped.0);
                },
                Block::Ordinal(c) => {
                    proof {
                        assert(block_view(blocks@[j as int]) == BlockV::Ordinal(
                            ChoiceV {
                                arg_name: c.arg_name@,
                                offset: c.offset,
                                options: options_view(c.options@),
                            },
                        ));
                    }
                    let stepped = self.format_plural_ordinal_block(c, ps, cur);
                    cur = stepped.1;
                    push_all(&mut out, &stepped.0);
                },
            }
            proof {
                let frontp = spec_render_blocks(
                    pre_take,
                    params_view(ps@),
                    self.locale@,
                    self.ignore_pound,
                    lits0,
                );
                let lastp = spec_render_one(
                    block_view(blocks@[j as int]),
                    params_view(ps@),
                    self.locale@,
                    self.ignore_pound,
                    frontp.1,
                );
                assert(blocks_view(blocks@.subrange(0, j + 1)).last() == block_view(
                    blocks@[j as int],
                ));
                assert(spec_render_blocks(
                    blocks_view(blocks@.subrange(0, j + 1)),
                    params_view(ps@),
                    self.locale@,
                    self.ignore_pound,
                    lits0,
                ) == (frontp.0 + lastp.0, lastp.1));
            }
            j = j + 1;
        }
        proof {
            assert(blocks@.subrange(0, blocks@.len() as int) =~= blocks@);
        }
        (out, cur)
    }

    /// Render a simple placeholder: the looked-up value is formatted for
    /// the locale, appended to the literal table, and stood in for by a
    /// fresh placeholder token; a missing parameter becomes an in-output
    /// diagnostic.
    fn format_simple_placeholder(
        &self,
        param: &Vec<char>,
        ps: &Vec<(String, ParamValue)>,
        lits: Vec<Vec<char>>,
    ) -> (r: (Vec<char>, Vec<Vec<char>>))
        ensures
            ({
                let sr = spec_render_one(
                    BlockV::Simple(param@),
                    params_view(ps@),
                    self.locale@,
                    self.ignore_pound,
                    lits.deep_view(),
                );
                r.0@ == sr.0 && r.1.deep_view() == sr.1
            }),
    {
        match lookup_param(ps, param) {
            Option::None => (undef_msg_exec(param), lits),
            Option::Some(v) => {
                let formatted = v.format_value_chars(self.locale);
                let ghost fv = formatted@;
                let mut lits2 = lits;
                proof {
                    assert(lits2@.len() == lits2.len());
                }
                let tok = placeholder_chars(lits2.len());
                let ghost pre = lits2.deep_view();
                lits2.push(formatted);
                proof {
                    assert(lits2.deep_view() =~~= pre.push(fv));
                }
                (tok, lits2)
            },
        }
    }

    /// Render a select construct: the branch under the exact runtime value,
    /// else the `other` branch.
    fn format_select_block(
        &self,
        c: &ChoiceBlock,
        ps: &Vec<(String, ParamValue)>,
        lits: Vec<Vec<char>>,
    ) -> (r: (Vec<char>, Vec<Vec<char>>))
        requires
            wf_choice(
                ChoiceV {
                    arg_name: c.arg_name@,
                    offset: c.offset,
                    options: options_view(c.options@),
                },
            ),
        ensures
            ({
                let sr = spec_render_one(
                    BlockV::Select(
                        ChoiceV {
                            arg_name: c.arg_name@,
                            offset: c.offset,
                            options: options_view(c.options@),
                        },
                    ),
                    params_view(ps@),
                    self.locale@,
                    self.ignore_pound,
                    lits.deep_view(),
                );
                r.0@ == sr.0 && r.1.deep_view() == sr.1
            }),
        decreases c.options@,
    {
        let v = match lookup_param(ps, &c.arg_name) {
            Option::None => {
                return (undef_msg_exec(&c.arg_name), lits);
            },
            Option::Some(v) => v,
        };
        let ghost optv = options_view(c.options@);
        let idx = match opt_index_exec(&c.options, v) {
            Option::Some(i) => Some(i),
            Option::None => {
                let other = ParamValue::from_text("other");
                proof {
                    reveal_strlit("other");
                    assert("other"@ =~= other_key());
                }
                opt_index_exec(&c.options, &other)
            },
        };
        match idx {
            Option::None => {
                // never taken: a well-formed choice always holds an `other` branch
                proof {
                    crate::ast::lemma_options_view_len(c.options@);
                    let w = choose|i: int|
                        0 <= i < optv.len() && (#[trigger] optv[i]).0 == ParamValueV::Text(
                            other_key(),
                        );
                    crate::parse::lemma_pv_eq_text(optv[w].0, other_key());
                    lemma_opt_index_found(optv, ParamValueV::Text(other_key()), optv.len() - 1);
                    assert(false);
                }
                (Vec::new(), lits)
            },
            Option::Some(i) => {
                proof {
                    crate::ast::lemma_options_view_index(c.options@, i as int);
                    assert(wf_blocks(options_view(c.options@)[i as int].1));
                }
                let entry = &c.options[i];
                self.format_block(&entry.val, ps, lits)
            },
        }
    }

    /// The pound pass over one rendered choice branch.
    fn apply_pound(&self, text: &Vec<char>, diff: &crate::param::Decimal) -> (r: Vec<char>)
        ensures
            r@ == pound_apply(self.ignore_pound, text@, self.locale@, diff@),
    {
        if self.ignore_pound {
            let t = sub_vec(text, 0, text.len());
            proof {
                assert(t@ =~= text@);
            }
            t
        } else {
            let ds = diff.to_chars();
            let f = crate::param::fmt_vec_or_plain(self.locale, &ds);
            replace_char(text, '#', &f)
        }
    }

    /// Render a plural or selectordinal construct: exact-match override,
    /// else the cardinal category of the absolute offset-adjusted value,
    /// else `other`; then the pound pass over the rendered branch.
    fn format_plural_ordinal_block(
        &self,
        c: &ChoiceBlock,
        ps: &Vec<(String, ParamValue)>,
        lits: Vec<Vec<char>>,
    ) -> (r: (Vec<char>, Vec<Vec<char>>))
        requires
            wf_choice(
                ChoiceV {
                    arg_name: c.arg_name@,
                    offset: c.offset,
                    options: options_view(c.options@),
                },
            ),
        ensures
            ({
                let sr = spec_render_numeric(
                    ChoiceV {
                        arg_name: c.arg_name@,
                        offset: c.offset,
                        options: options_view(c.options@),
                    },
                    params_view(ps@),
                    self.locale@,
                    self.ignore_pound,
                    lits.deep_view(),
                );
                r.0@ == sr.0 && r.1.deep_view() == sr.1
            }),
        decreases c.options@,
    {
        let v = match lookup_param(ps, &c.arg_name) {
            Option::None => {
                return (undef_msg_exec(&c.arg_name), lits);
            },
            Option::Some(v) => v,
        };
        let d = match v.as_decimal() {
            Option::None => {
                return (invalid_msg_exec(&c.arg_name), lits);
            },
            Option::Some(d) => d,
        };
        let diff = crate::param::dec_sub_offset(&d, c.offset);
        let ghost optv = options_view(c.options@);
        match opt_index_exec(&c.options, v) {
            Option::Some(i) => {
                proof {
                    crate::ast::lemma_options_view_index(c.options@, i as int);
                    assert(wf_blocks(options_view(c.options@)[i as int].1));
                }
                let entry = &c.options[i];
                let rendered = self.format_block(&entry.val, ps, lits);
                let outt = self.apply_pound(&rendered.0, &diff);
                (outt, rendered.1)
            },
            Option::None => {
                let operand = diff.abs().to_chars();
                let op_str = chars_string(&operand);
                match crate::locale::icu_plural_category(self.locale.tag_str(), op_str.as_str()) {
                    Option::None => {
                        let ds = diff.to_chars();
                        (invalid_msg_exec(&ds), lits)
                    },
                    Option::Some(cat) => {
                        let catv = ParamValue::from_text(cat.as_str());
                        let idx = match opt_index_exec(&c.options, &catv) {
                            Option::Some(i) => Some(i),
                            Option::None => {
                                let other = ParamValue::from_text("other");
                                proof {
                                    reveal_strlit("other");
                                    assert("other"@ =~= other_key());
                                }
                                opt_index_exec(&c.options, &other)
                            },
                        };
                        match idx {
                            Option::None => {
                                // never taken: a well-formed choice always holds an `other` branch
                                proof {
                                    crate::ast::lemma_options_view_len(c.options@);
                                    let w = choose|i: int|
                                        0 <= i < optv.len() && (#[trigger] optv[i]).0
                                            == ParamValueV::Text(other_key());
                                    crate::parse::lemma_pv_eq_text(optv[w].0, other_key());
                                    lemma_opt_index_found(
                                        optv,
                                        ParamValueV::Text(other_key()),
                                        optv.len() - 1,
                                    );
                                    assert(false);
                                }
                                (Vec::new(), lits)
                            },
                            Option::Some(i) => {
                                proof {
                                    crate::ast::lemma_options_view_index(c.options@, i as int);
                                    assert(wf_blocks(options_view(c.options@)[i as int].1));
                                }
                                let entry = &c.options[i];
                                let rendered = self.format_block(&entry.val, ps, lits);
                                let outt = self.apply_pound(&rendered.0, &diff);
                                (outt, rendered.1)
                            },
                        }
                    },
                }
            },
        }
    }
}


} // verus!

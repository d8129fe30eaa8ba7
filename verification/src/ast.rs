use vstd::prelude::*;

use crate::param::{ParamValue, ParamValueV};

verus! {

/// One node of a compiled pattern: literal text (with literals already
/// protected), a simple placeholder, or a select / plural / selectordinal
/// choice construct.
pub enum Block {
    Text(Vec<char>),
    Simple(Vec<char>),
    Select(ChoiceBlock),
    Plural(ChoiceBlock),
    Ordinal(ChoiceBlock),
}

/// A choice construct: the argument it selects on, the offset subtracted
/// before plural classification (zero for select and selectordinal), and
/// the keyed table of sub-patterns.
pub struct ChoiceBlock {
    pub arg_name: Vec<char>,
    pub offset: u64,
    pub options: Vec<OptionEntry>,
}

/// One `key {sub-pattern}` pair of a choice construct.
pub struct OptionEntry {
    pub key: ParamValue,
    pub val: Vec<Block>,
}

/// The abstract form of a pattern node.
pub enum BlockV {
    Text(Seq<char>),
    Simple(Seq<char>),
    Select(ChoiceV),
    Plural(ChoiceV),
    Ordinal(ChoiceV),
}

/// The abstract form of a choice construct.
pub struct ChoiceV {
    pub arg_name: Seq<char>,
    pub offset: u64,
    pub options: Seq<(ParamValueV, Seq<BlockV>)>,
}

/// The abstract tree a parsed block stands for.
pub open spec fn block_view(b: Block) -> BlockV
    decreases b,
{
    match b {
        Block::Text(t) => BlockV::Text(t@),
        Block::Simple(t) => BlockV::Simple(t@),
        Block::Select(c) => BlockV::Select(
            ChoiceV { arg_name: c.arg_name@, offset: c.offset, options: options_view(c.options@) },
        ),
        Block::Plural(c) => BlockV::Plural(
            ChoiceV { arg_name: c.arg_name@, offset: c.offset, options: options_view(c.options@) },
        ),
        Block::Ordinal(c) => BlockV::Ordinal(
            ChoiceV { arg_name: c.arg_name@, offset: c.offset, options: options_view(c.options@) },
        ),
    }
}

/// The abstract option table a parsed option list stands for.
pub open spec fn options_view(s: Seq<OptionEntry>) -> Seq<(ParamValueV, Seq<BlockV>)>
    decreases s,
{
    if s.len() == 0 {
        Seq::empty()
    } else {
        options_view(s.drop_last()).push((s.last().key@, blocks_view(s.last().val@)))
    }
}

/// The abstract block sequence a parsed block list stands for.
pub open spec fn blocks_view(s: Seq<Block>) -> Seq<BlockV>
    decreases s,
{
    if s.len() == 0 {
        Seq::empty()
    } else {
        blocks_view(s.drop_last()).push(block_view(s.last()))
    }
}

/// The key under which every choice construct must hold a fallback branch.
pub open spec fn other_key() -> Seq<char> {
    seq!['o', 't', 'h', 'e', 'r']
}

/// Whether an option table holds a branch under the text key `other`.
pub open spec fn has_other(options: Seq<(ParamValueV, Seq<BlockV>)>) -> bool {
    exists|i: int|
        0 <= i < options.len() && (#[trigger] options[i]).0 == ParamValueV::Text(other_key())
}

/// A well-formed pattern node: every choice construct in it holds an
/// `other` branch.
pub open spec fn wf_block(b: BlockV) -> bool
    decreases b,
{
    match b {
        BlockV::Text(_) => true,
        BlockV::Simple(_) => true,
        BlockV::Select(c) => wf_choice(c),
        BlockV::Plural(c) => wf_choice(c),
        BlockV::Ordinal(c) => wf_choice(c),
    }
}

/// A well-formed choice: it holds an `other` branch and every branch is a
/// well-formed pattern.
pub open spec fn wf_choice(c: ChoiceV) -> bool
    decreases c,
{
    &&& has_other(c.options)
    &&& (forall|i: int|
        0 <= i < c.options.len() ==> wf_blocks(#[trigger] c.options[i].1))
}

/// A well-formed pattern: every node of it is well-formed.
pub open spec fn wf_blocks(bs: Seq<BlockV>) -> bool
    decreases bs,
{
    forall|i: int| 0 <= i < bs.len() ==> wf_block(#[trigger] bs[i])
}

/// A pushed block extends the abstract sequence by the block's own tree.
pub proof fn lemma_blocks_view_push(s: Seq<Block>, b: Block)
    ensures
        blocks_view(s.push(b)) == blocks_view(s).push(block_view(b)),
{
    assert(s.push(b).drop_last() =~= s);
}

/// A pushed option extends the abstract table by the option's own pair.
pub proof fn lemma_options_view_push(s: Seq<OptionEntry>, e: OptionEntry)
    ensures
        options_view(s.push(e)) == options_view(s).push((e.key@, blocks_view(e.val@))),
{
    assert(s.push(e).drop_last() =~= s);
}

/// The abstract block sequence indexes pointwise.
pub proof fn lemma_blocks_view_index(s: Seq<Block>, i: int)
    requires
        0 <= i < s.len(),
    ensures
        blocks_view(s).len() == s.len(),
        blocks_view(s)[i] == block_view(s[i]),
    decreases s.len(),
{
    if s.len() > 0 {
        if i < s.len() - 1 {
            lemma_blocks_view_index(s.drop_last(), i);
        } else {
            lemma_blocks_view_len(s.drop_last());
        }
    }
}

/// The abstract block sequence has the same length.
pub proof fn lemma_blocks_view_len(s: Seq<Block>)
    ensures
        blocks_view(s).len() == s.len(),
    decreases s.len(),
{
    if s.len() > 0 {
        lemma_blocks_view_len(s.drop_last());
    }
}

/// The abstract option table indexes pointwise.
pub proof fn lemma_options_view_index(s: Seq<OptionEntry>, i: int)
    requires
        0 <= i < s.len(),
    ensures
        options_view(s).len() == s.len(),
        options_view(s)[i] == (s[i].key@, blocks_view(s[i].val@)),
    decreases s.len(),
{
    if s.len() > 0 {
        if i < s.len() - 1 {
            lemma_options_view_index(s.drop_last(), i);
        } else {
            lemma_options_view_len(s.drop_last());
        }
    }
}

/// The abstract option table has the same length.
pub proof fn lemma_options_view_len(s: Seq<OptionEntry>)
    ensures
        options_view(s).len() == s.len(),
    decreases s.len(),
{
    if s.len() > 0 {
        lemma_options_view_len(s.drop_last());
    }
}

} // verus!

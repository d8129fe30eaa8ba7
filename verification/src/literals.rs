use vstd::prelude::*;

use crate::text::{
    chars_string, push_all, spec_digits, spec_replace_first, replace_first, u128_digits,
};

verus! {

// ---------------------------------------------------------------------------
// Placeholder tokens
// ---------------------------------------------------------------------------

/// The marker code point used in literal-placeholder tokens: a
/// rarely-occurring non-character, chosen so that tokens are unlikely to
/// collide with ordinary message text. A message that itself contains a
/// whole token would corrupt restoration; see the note on `spec_restore`.
pub open spec fn marker_char() -> char {
    '\u{FDDF}'
}

/// The placeholder token that stands for entry `idx` of the literal table.
pub open spec fn spec_placeholder(idx: nat) -> Seq<char> {
    seq!['_', marker_char(), '_'] + spec_digits(idx) + seq!['_']
}

/// The placeholder token that stands for entry `idx` of the literal table,
/// as written into the pattern text.
pub fn placeholder(idx: usize) -> (r: String)
    ensures
        r@ == spec_placeholder(idx as nat),
{
    let v = placeholder_chars(idx);
    chars_string(&v)
}

/// The characters of the placeholder token for entry `idx`.
pub fn placeholder_chars(idx: usize) -> (r: Vec<char>)
    ensures
        r@ == spec_placeholder(idx as nat),
        r@.len() >= 5,
{
    let mut r: Vec<char> = Vec::new();
    r.push('_');
    r.push('\u{FDDF}');
    r.push('_');
    let ds = u128_digits(idx as u128);
    push_all(&mut r, &ds);
    r.push('_');
    proof {
        assert(r@ =~= spec_placeholder(idx as nat));
        crate::text::lemma_spec_digits_nonempty(idx as nat);
    }
    r
}

// ---------------------------------------------------------------------------
// Pass one: doubled single quotes
// ---------------------------------------------------------------------------

/// Pass one of literal protection, from position `i` on: every doubled
/// single quote becomes a placeholder token, and one entry holding a single
/// quote joins the literal table.
pub open spec fn protect_quotes_from(s: Seq<char>, i: int, lits: Seq<Seq<char>>) -> (
    Seq<char>,
    Seq<Seq<char>>,
)
    decreases s.len() - i + 1,
{
    if i < 0 || i >= s.len() {
        (Seq::empty(), lits)
    } else if i + 1 < s.len() && s[i] == '\'' && s[i + 1] == '\'' {
        let rest = protect_quotes_from(s, i + 2, lits.push(seq!['\'']));
        (spec_placeholder(lits.len()) + rest.0, rest.1)
    } else {
        let rest = protect_quotes_from(s, i + 1, lits);
        (seq![s[i]] + rest.0, rest.1)
    }
}

/// Pass one of literal protection over the whole pattern.
pub open spec fn spec_protect_quotes(s: Seq<char>, lits: Seq<Seq<char>>) -> (
    Seq<char>,
    Seq<Seq<char>>,
) {
    protect_quotes_from(s, 0, lits)
}

/// Pass one, executable: replace every `''` with a fresh placeholder token.
#[verifier::loop_isolation(false)]
pub(crate) fn protect_quotes(s: &Vec<char>, lits: &mut Vec<Vec<char>>) -> (out: Vec<char>)
    ensures
        (out@, final(lits).deep_view()) == spec_protect_quotes(s@, old(lits).deep_view()),
{
    proof {
        assert(s@.len() == s.len());
    }
    let mut out: Vec<char> = Vec::new();
    let mut i: usize = 0;
    proof {
        assert(Seq::<char>::empty() + protect_quotes_from(s@, 0, lits.deep_view()).0
            =~= protect_quotes_from(s@, 0, lits.deep_view()).0);
    }
    while i < s.len()
        invariant
            i <= s@.len(),
            spec_protect_quotes(s@, old(lits).deep_view()).0 == out@ + protect_quotes_from(
                s@,
                i as int,
                lits.deep_view(),
            ).0,
            spec_protect_quotes(s@, old(lits).deep_view()).1 == protect_quotes_from(
                s@,
                i as int,
                lits.deep_view(),
            ).1,
        decreases s@.len() - i,
    {
        let ghost pre_out = out@;
        let ghost pre_lits = lits.deep_view();
        if i + 1 < s.len() && s[i] == '\'' && s[i + 1] == '\'' {
            let tok = placeholder_chars(lits.len());
            let mut quote: Vec<char> = Vec::new();
            quote.push('\'');
            lits.push(quote);
            proof {
                assert(lits.deep_view() =~~= pre_lits.push(seq!['\'']));
                assert(pre_lits.len() == lits@.len() - 1);
            }
            push_all(&mut out, &tok);
            proof {
                assert(pre_out + (spec_placeholder(pre_lits.len()) + protect_quotes_from(
                    s@,
                    i + 2,
                    lits.deep_view(),
                ).0) =~= out@ + protect_quotes_from(s@, i + 2, lits.deep_view()).0);
            }
            i = i + 2;
        } else {
            out.push(s[i]);
            proof {
                assert(pre_out + (seq![s@[i as int]] + protect_quotes_from(
                    s@,
                    i + 1,
                    lits.deep_view(),
                ).0) =~= out@ + protect_quotes_from(s@, i + 1, lits.deep_view()).0);
            }
            i = i + 1;
        }
    }
    proof {
        assert(out@ + protect_quotes_from(s@, i as int, lits.deep_view()).0 =~= out@);
    }
    out
}

// ---------------------------------------------------------------------------
// Pass two: quoted literal spans
// ---------------------------------------------------------------------------

/// The first position at or after `j` holding a single quote; the length of
/// `s` when there is none.
pub open spec fn quote_end(s: Seq<char>, j: int) -> int
    decreases s.len() - j + 1,
{
    if 0 <= j < s.len() && s[j] != '\'' {
        quote_end(s, j + 1)
    } else {
        j
    }
}

pub proof fn lemma_quote_end(s: Seq<char>, j: int)
    requires
        0 <= j <= s.len(),
    ensures
        j <= quote_end(s, j) <= s.len(),
        forall|k: int| j <= k < quote_end(s, j) ==> s[k] != '\'',
        quote_end(s, j) < s.len() ==> s[quote_end(s, j)] == '\'',
    decreases s.len() - j,
{
    if j < s.len() && s[j] != '\'' {
        lemma_quote_end(s, j + 1);
    }
}

/// Whether a quoted literal span starts at `i`: a quote, then `{`, `}` or
/// `#`, then the shortest run up to a closing quote, with no line feed in
/// between.
pub open spec fn literal_match_at(s: Seq<char>, i: int) -> bool {
    &&& 0 <= i && i + 1 < s.len()
    &&& s[i] == '\''
    &&& (s[i + 1] == '{' || s[i + 1] == '}' || s[i + 1] == '#')
    &&& quote_end(s, i + 2) < s.len()
    &&& (forall|k: int| i + 2 <= k < quote_end(s, i + 2) ==> s[k] != '\n')
}

/// Pass two of literal protection, from position `i` on: every quoted span
/// whose body starts with `{`, `}` or `#` becomes a placeholder token, and
/// the span's body joins the literal table verbatim.
pub open spec fn protect_literals_from(s: Seq<char>, i: int, lits: Seq<Seq<char>>) -> (
    Seq<char>,
    Seq<Seq<char>>,
)
    decreases s.len() - i + 1,
    when i >= 0
    via protect_literals_from_decreases
{
    if i >= s.len() {
        (Seq::empty(), lits)
    } else if literal_match_at(s, i) {
        let j = quote_end(s, i + 2);
        let rest = protect_literals_from(s, j + 1, lits.push(s.subrange(i + 1, j)));
        (spec_placeholder(lits.len()) + rest.0, rest.1)
    } else {
        let rest = protect_literals_from(s, i + 1, lits);
        (seq![s[i]] + rest.0, rest.1)
    }
}

#[via_fn]
proof fn protect_literals_from_decreases(s: Seq<char>, i: int, lits: Seq<Seq<char>>) {
    if 0 <= i < s.len() && literal_match_at(s, i) {
        lemma_quote_end(s, i + 2);
    }
}

/// Pass two of literal protection over the whole pattern.
pub open spec fn spec_protect_literals(s: Seq<char>, lits: Seq<Seq<char>>) -> (
    Seq<char>,
    Seq<Seq<char>>,
) {
    protect_literals_from(s, 0, lits)
}

/// The first position at or after `j` holding a single quote, executable.
#[verifier::loop_isolation(false)]
fn quote_end_exec(s: &Vec<char>, j: usize) -> (e: usize)
    requires
        j <= s@.len(),
    ensures
        e == quote_end(s@, j as int),
        j <= e <= s@.len(),
{
    proof {
        assert(s@.len() == s.len());
    }
    let mut e: usize = j;
    while e < s.len() && s[e] != '\''
        invariant
            j <= e <= s@.len(),
            quote_end(s@, j as int) == quote_end(s@, e as int),
        decreases s@.len() - e,
    {
        e = e + 1;
    }
    e
}

/// Pass two, executable: replace every quoted `{`/`}`/`#` span with a fresh
/// placeholder token.
#[verifier::loop_isolation(false)]
pub(crate) fn protect_literals(s: &Vec<char>, lits: &mut Vec<Vec<char>>) -> (out: Vec<char>)
    ensures
        (out@, final(lits).deep_view()) == spec_protect_literals(s@, old(lits).deep_view()),
{
    proof {
        assert(s@.len() == s.len());
    }
    let mut out: Vec<char> = Vec::new();
    let mut i: usize = 0;
    proof {
        assert(Seq::<char>::empty() + protect_literals_from(s@, 0, lits.deep_view()).0
            =~= protect_literals_from(s@, 0, lits.deep_view()).0);
    }
    while i < s.len()
        invariant
            i <= s@.len(),
            spec_protect_literals(s@, old(lits).deep_view()).0 == out@ + protect_literals_from(
                s@,
                i as int,
                lits.deep_view(),
            ).0,
            spec_protect_literals(s@, old(lits).deep_view()).1 == protect_literals_from(
                s@,
                i as int,
                lits.deep_view(),
            ).1,
        decreases s@.len() - i,
    {
        let ghost pre_out = out@;
        let ghost pre_lits = lits.deep_view();
        let mut matched: bool = false;
        let mut close: usize = 0;
        if i + 1 < s.len() && s[i] == '\'' && (s[i + 1] == '{' || s[i + 1] == '}' || s[i + 1]
            == '#') {
            let j = quote_end_exec(s, i + 2);
            proof {
                lemma_quote_end(s@, i + 2);
            }
            if j < s.len() {
                let mut clean: bool = true;
                let mut k: usize = i + 2;
                while k < j
                    invariant
                        i + 2 <= k <= j,
                        clean == (forall|t: int| i + 2 <= t < k ==> s@[t] != '\n'),
                    decreases j - k,
                {
                    if s[k] == '\n' {
                        clean = false;
                    }
                    k = k + 1;
                }
                if clean {
                    matched = true;
                    close = j;
                }
            }
        }
        proof {
            assert(matched == literal_match_at(s@, i as int));
        }
        if matched {
            let j = close;
            let tok = placeholder_chars(lits.len());
            let inner = crate::text::sub_vec(s, i + 1, j);
            lits.push(inner);
            proof {
                assert(lits.deep_view() =~~= pre_lits.push(s@.subrange(i + 1, j as int)));
            }
            push_all(&mut out, &tok);
            proof {
                assert(pre_out + (spec_placeholder(pre_lits.len()) + protect_literals_from(
                    s@,
                    j + 1,
                    lits.deep_view(),
                ).0) =~= out@ + protect_literals_from(s@, j + 1, lits.deep_view()).0);
            }
            i = j + 1;
        } else {
            out.push(s[i]);
            proof {
                assert(pre_out + (seq![s@[i as int]] + protect_literals_from(
                    s@,
                    i + 1,
                    lits.deep_view(),
                ).0) =~= out@ + protect_literals_from(s@, i + 1, lits.deep_view()).0);
            }
            i = i + 1;
        }
    }
    proof {
        assert(out@ + protect_literals_from(s@, i as int, lits.deep_view()).0 =~= out@);
    }
    out
}

// ---------------------------------------------------------------------------
// Restoration
// ---------------------------------------------------------------------------

/// Restore protected literals into the rendered text, highest index first:
/// each step replaces the first occurrence of a token with its literal.
/// Last-in-first-out order keeps tokens embedded in later literals from
/// being re-interpreted; text that itself contains a whole token would still
/// be corrupted, which is the known fragility of the marker scheme.
pub open spec fn spec_restore(lits: Seq<Seq<char>>, text: Seq<char>) -> Seq<char>
    decreases lits.len(),
{
    if lits.len() == 0 {
        text
    } else {
        spec_restore(
            lits.drop_last(),
            spec_replace_first(text, spec_placeholder((lits.len() - 1) as nat), lits.last()),
        )
    }
}

/// Restore protected literals into the rendered text, executable.
#[verifier::loop_isolation(false)]
pub(crate) fn restore_literals(lits: Vec<Vec<char>>, text: Vec<char>) -> (r: Vec<char>)
    ensures
        r@ == spec_restore(lits.deep_view(), text@),
{
    let mut lits = lits;
    let mut text = text;
    let ghost lits0 = lits.deep_view();
    let ghost text0 = text@;
    while lits.len() > 0
        invariant
            spec_restore(lits0, text0) == spec_restore(lits.deep_view(), text@),
        decreases lits@.len(),
    {
        let ghost pre = lits.deep_view();
        let lit = match lits.pop() {
            Option::Some(l) => l,
            Option::None => Vec::new(),
        };
        proof {
            assert(lits.deep_view() =~= pre.drop_last());
            assert(lit@ == pre.last());
        }
        let tok = placeholder_chars(lits.len());
        text = replace_first(&text, &tok, &lit);
    }
    text
}

} // verus!

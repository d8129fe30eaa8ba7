use vstd::prelude::*;

use crate::text::{
    digit_char, digit_char_exec, digit_val, digit_val_exec, digits_val, is_digit, is_digit_exec,
    lemma_digits_val_mono, spec_digits, sub_vec, u128_digits,
};

verus! {

// ---------------------------------------------------------------------------
// The abstract value of a parameter
// ---------------------------------------------------------------------------

/// The abstract form of a decimal number: a sign, an integer part, and the
/// fraction digits with trailing zeroes removed.
pub struct DecV {
    pub neg: bool,
    pub units: nat,
    pub frac: Seq<char>,
}

/// The abstract form of a parameter value: an integer, a decimal number, or
/// plain text.
pub enum ParamValueV {
    Int(int),
    Dec(DecV),
    Text(Seq<char>),
}

/// A decimal in canonical form: fraction digits only, no trailing zero
/// fraction digit, no negative zero, and an integer part no larger than what
/// a numeric parse accepts.
pub open spec fn dec_wf(d: DecV) -> bool {
    &&& (forall|i: int| 0 <= i < d.frac.len() ==> is_digit(#[trigger] d.frac[i]))
    &&& (d.frac.len() > 0 ==> d.frac.last() != '0')
    &&& (d.neg ==> d.units > 0 || d.frac.len() > 0)
    &&& d.units <= u64::MAX
}

/// Well-formedness of a parameter value: its decimal form, if any, is
/// canonical.
pub open spec fn pv_wf(v: ParamValueV) -> bool {
    match v {
        ParamValueV::Int(n) => i64::MIN <= n <= i64::MAX,
        ParamValueV::Dec(d) => dec_wf(d),
        ParamValueV::Text(_) => true,
    }
}

// ---------------------------------------------------------------------------
// Numeric parsing
// ---------------------------------------------------------------------------

/// The first position at or after `i` that does not hold a decimal digit.
pub open spec fn digit_run_end(s: Seq<char>, i: int) -> int
    decreases s.len() - i + 1,
{
    if 0 <= i < s.len() && is_digit(s[i]) {
        digit_run_end(s, i + 1)
    } else {
        i
    }
}

pub proof fn lemma_digit_run_end(s: Seq<char>, i: int)
    requires
        0 <= i <= s.len(),
    ensures
        i <= digit_run_end(s, i) <= s.len(),
        forall|k: int| i <= k < digit_run_end(s, i) ==> is_digit(#[trigger] s[k]),
        digit_run_end(s, i) < s.len() ==> !is_digit(s[digit_run_end(s, i)]),
    decreases s.len() - i,
{
    if i < s.len() && is_digit(s[i]) {
        lemma_digit_run_end(s, i + 1);
    }
}

/// The sign of a numeric literal: whether it is negative, and the position
/// where its digits start.
pub open spec fn spec_sign(s: Seq<char>) -> (bool, int) {
    if s.len() > 0 && s[0] == '-' {
        (true, 1)
    } else if s.len() > 0 && s[0] == '+' {
        (false, 1)
    } else {
        (false, 0)
    }
}

/// What parsing the whole of `s` as a signed 64-bit integer yields: an
/// optional sign, one or more digits, nothing else, and a value in range.
pub open spec fn spec_parse_i64(s: Seq<char>) -> Option<int> {
    let (neg, i0) = spec_sign(s);
    let e = digit_run_end(s, i0);
    if e != s.len() || e == i0 {
        None
    } else {
        let v = digits_val(s.subrange(i0, e)) as int;
        if neg {
            if v <= -(i64::MIN as int) {
                Some(-v)
            } else {
                None
            }
        } else {
            if v <= i64::MAX as int {
                Some(v)
            } else {
                None
            }
        }
    }
}

/// `s` with trailing `'0'` characters removed.
pub open spec fn strip_zeros(s: Seq<char>) -> Seq<char>
    decreases s.len(),
{
    if s.len() > 0 && s.last() == '0' {
        strip_zeros(s.drop_last())
    } else {
        s
    }
}

/// What parsing the whole of `s` as a plain decimal literal yields: an
/// optional sign, digits with at most one decimal point, at least one digit
/// in all, and an integer part that fits the supported range. The result is
/// canonical: trailing fraction zeroes are dropped and a negative zero loses
/// its sign.
pub open spec fn spec_parse_dec(s: Seq<char>) -> Option<DecV> {
    let (neg0, i0) = spec_sign(s);
    let e1 = digit_run_end(s, i0);
    let has_dot = e1 < s.len() && s[e1] == '.';
    let fstart = if has_dot {
        e1 + 1
    } else {
        e1
    };
    let e2 = if has_dot {
        digit_run_end(s, fstart)
    } else {
        e1
    };
    if e2 != s.len() || (e1 == i0 && e2 == fstart) {
        None
    } else {
        let units = digits_val(s.subrange(i0, e1));
        if units > u64::MAX as nat {
            None
        } else {
            let frac = strip_zeros(s.subrange(fstart, e2));
            let neg = neg0 && !(units == 0 && frac.len() == 0);
            Some(DecV { neg, units, frac })
        }
    }
}

/// What parsing `s` as a numeric option key or parameter yields: an integer
/// if the whole of `s` is one, else a decimal if the whole of `s` is one,
/// else nothing.
pub open spec fn spec_parse_number(s: Seq<char>) -> Option<ParamValueV> {
    match spec_parse_i64(s) {
        Option::Some(v) => Some(ParamValueV::Int(v)),
        Option::None => match spec_parse_dec(s) {
            Option::Some(d) => Some(ParamValueV::Dec(d)),
            Option::None => None,
        },
    }
}

// ---------------------------------------------------------------------------
// Cross-representation equality
// ---------------------------------------------------------------------------

/// A decimal equals an integer exactly when it has no fraction digits and
/// its signed integer part is that integer.
pub open spec fn dec_eq_int(d: DecV, n: int) -> bool {
    d.frac.len() == 0 && (if d.neg {
        n == -(d.units as int)
    } else {
        n == d.units as int
    })
}

/// Equality of parameter values: integers and decimals compare across
/// representations; text compares only to text.
pub open spec fn pv_eq(a: ParamValueV, b: ParamValueV) -> bool {
    match (a, b) {
        (ParamValueV::Int(x), ParamValueV::Int(y)) => x == y,
        (ParamValueV::Dec(p), ParamValueV::Dec(q)) => p == q,
        (ParamValueV::Text(x), ParamValueV::Text(y)) => x == y,
        (ParamValueV::Int(x), ParamValueV::Dec(q)) => dec_eq_int(q, x),
        (ParamValueV::Dec(p), ParamValueV::Int(y)) => dec_eq_int(p, y),
        _ => false,
    }
}

// ---------------------------------------------------------------------------
// The executable representation
// ---------------------------------------------------------------------------

/// A decimal number in canonical form.
#[derive(Debug)]
pub(crate) struct Decimal {
    pub(crate) neg: bool,
    pub(crate) units: u128,
    pub(crate) frac: Vec<char>,
}

impl View for Decimal {
    type V = DecV;

    closed spec fn view(&self) -> DecV {
        DecV { neg: self.neg, units: self.units as nat, frac: self.frac@ }
    }
}

#[derive(Debug)]
pub(crate) enum ParamValueInner {
    Int(i64),
    Dec(Decimal),
    Text(String),
}

/// A runtime parameter value or a parsed option key: an integer, a decimal
/// number, or plain text.
#[derive(Debug)]
pub struct ParamValue {
    inner: ParamValueInner,
}

impl View for ParamValue {
    type V = ParamValueV;

    closed spec fn view(&self) -> ParamValueV {
        match self.inner {
            ParamValueInner::Int(n) => ParamValueV::Int(n as int),
            ParamValueInner::Dec(d) => ParamValueV::Dec(d@),
            ParamValueInner::Text(s) => ParamValueV::Text(s@),
        }
    }
}

impl ParamValue {
    /// Every parameter value holds a canonical decimal, if it holds one at
    /// all.
    #[verifier::type_invariant]
    spec fn type_inv(self) -> bool {
        pv_wf(self@)
    }

    /// An integer parameter value.
    pub fn from_int(n: i64) -> (r: ParamValue)
        ensures
            r@ == ParamValueV::Int(n as int),
    {
        ParamValue { inner: ParamValueInner::Int(n) }
    }

    /// A text parameter value.
    pub fn from_text(s: &str) -> (r: ParamValue)
        ensures
            r@ == ParamValueV::Text(s@),
    {
        ParamValue { inner: ParamValueInner::Text(s.to_owned()) }
    }

    /// Parse `s` as an integer, else as a decimal, else yield nothing.
    pub fn parse_number(s: &str) -> (r: Option<ParamValue>)
        ensures
            match r {
                Option::Some(v) => spec_parse_number(s@) == Some(v@) && pv_wf(v@),
                Option::None => spec_parse_number(s@) is None,
            },
    {
        let chars = crate::text::str_chars(s);
        match parse_i64_chars(&chars) {
            Option::Some(n) => Some(ParamValue { inner: ParamValueInner::Int(n) }),
            Option::None => match parse_dec_chars(&chars) {
                Option::Some(d) => Some(ParamValue { inner: ParamValueInner::Dec(d) }),
                Option::None => None,
            },
        }
    }
}

// ---------------------------------------------------------------------------
// Executable parsing
// ---------------------------------------------------------------------------

/// The end of the digit run starting at `i`.
#[verifier::loop_isolation(false)]
pub(crate) fn digit_run_end_exec(s: &Vec<char>, i: usize) -> (e: usize)
    requires
        i <= s@.len(),
    ensures
        e == digit_run_end(s@, i as int),
        i <= e <= s@.len(),
{
    proof {
        assert(s@.len() == s.len());
    }
    let mut e: usize = i;
    while e < s.len() && is_digit_exec(s[e])
        invariant
            i <= e <= s@.len(),
            digit_run_end(s@, i as int) == digit_run_end(s@, e as int),
        decreases s@.len() - e,
    {
        e = e + 1;
    }
    e
}

/// The digits from `from` to `to` as a number, unless their value exceeds
/// `u64::MAX`.
#[verifier::loop_isolation(false)]
pub(crate) fn digits_value_capped(s: &Vec<char>, from: usize, to: usize) -> (r: Option<u128>)
    requires
        from <= to <= s@.len(),
        forall|k: int| from <= k < to ==> is_digit(#[trigger] s@[k]),
    ensures
        match r {
            Option::Some(v) => v as nat == digits_val(s@.subrange(from as int, to as int)) && v
                <= u64::MAX as u128,
            Option::None => digits_val(s@.subrange(from as int, to as int)) > u64::MAX as nat,
        },
{
    let mut acc: u128 = 0;
    let mut i: usize = from;
    while i < to
        invariant
            from <= i <= to,
            acc <= u64::MAX as u128,
            acc as nat == digits_val(s@.subrange(from as int, i as int)),
        decreases to - i,
    {
        let d: u8 = digit_val_exec(s[i]);
        let next: u128 = acc * 10 + (d as u128);
        proof {
            assert(s@.subrange(from as int, i + 1).drop_last() =~= s@.subrange(
                from as int,
                i as int,
            ));
            assert(digits_val(s@.subrange(from as int, i + 1)) == acc as nat * 10 + digit_val(
                s@[i as int],
            ));
        }
        if next > u64::MAX as u128 {
            proof {
                lemma_digits_val_mono(s@.subrange(from as int, to as int), i + 1 - from, to - from);
                assert(s@.subrange(from as int, to as int).subrange(0, i + 1 - from) =~= s@.subrange(
                    from as int,
                    i + 1,
                ));
                assert(s@.subrange(from as int, to as int).subrange(0, to - from) =~= s@.subrange(
                    from as int,
                    to as int,
                ));
            }
            return None;
        }
        acc = next;
        i = i + 1;
    }
    Some(acc)
}

/// Parse the whole of `s` as a signed 64-bit integer.
pub(crate) fn parse_i64_chars(s: &Vec<char>) -> (r: Option<i64>)
    ensures
        match r {
            Option::Some(n) => spec_parse_i64(s@) == Some(n as int),
            Option::None => spec_parse_i64(s@) is None,
        },
{
    proof {
        assert(s@.len() == s.len());
    }
    let (neg, i0): (bool, usize) = if s.len() > 0 && s[0] == '-' {
        (true, 1)
    } else if s.len() > 0 && s[0] == '+' {
        (false, 1)
    } else {
        (false, 0)
    };
    let e = digit_run_end_exec(s, i0);
    if e != s.len() || e == i0 {
        return None;
    }
    proof {
        lemma_digit_run_end(s@, i0 as int);
    }
    match digits_value_capped(s, i0, e) {
        Option::None => None,
        Option::Some(v) => {
            if neg {
                if v <= i64::MAX as u128 {
                    Some(-(v as i64))
                } else if v == (i64::MAX as u128) + 1 {
                    Some(i64::MIN)
                } else {
                    None
                }
            } else {
                if v <= i64::MAX as u128 {
                    Some(v as i64)
                } else {
                    None
                }
            }
        },
    }
}

/// Parse the whole of `s` as a plain decimal literal, in canonical form.
#[verifier::loop_isolation(false)]
pub(crate) fn parse_dec_chars(s: &Vec<char>) -> (r: Option<Decimal>)
    ensures
        match r {
            Option::Some(d) => spec_parse_dec(s@) == Some(d@) && dec_wf(d@),
            Option::None => spec_parse_dec(s@) is None,
        },
{
    proof {
        assert(s@.len() == s.len());
    }
    let (neg0, i0): (bool, usize) = if s.len() > 0 && s[0] == '-' {
        (true, 1)
    } else if s.len() > 0 && s[0] == '+' {
        (false, 1)
    } else {
        (false, 0)
    };
    let e1 = digit_run_end_exec(s, i0);
    let has_dot = e1 < s.len() && s[e1] == '.';
    let fstart: usize = if has_dot {
        e1 + 1
    } else {
        e1
    };
    let e2: usize = if has_dot {
        digit_run_end_exec(s, fstart)
    } else {
        e1
    };
    if e2 != s.len() || (e1 == i0 && e2 == fstart) {
        return None;
    }
    proof {
        lemma_digit_run_end(s@, i0 as int);
        lemma_digit_run_end(s@, fstart as int);
    }
    match digits_value_capped(s, i0, e1) {
        Option::None => None,
        Option::Some(units) => {
            let mut frac = sub_vec(s, fstart, e2);
            while frac.len() > 0 && frac[frac.len() - 1] == '0'
                invariant
                    strip_zeros(s@.subrange(fstart as int, e2 as int)) == strip_zeros(frac@),
                    forall|k: int| 0 <= k < frac@.len() ==> is_digit(#[trigger] frac@[k]),
                decreases frac@.len(),
            {
                let ghost pre = frac@;
                frac.pop();
                proof {
                    assert(frac@ =~= pre.drop_last());
                }
            }
            proof {
                assert(strip_zeros(frac@) == frac@);
            }
            let neg = neg0 && !(units == 0 && frac.len() == 0);
            Some(Decimal { neg, units, frac })
        },
    }
}


// ---------------------------------------------------------------------------
// Decimal arithmetic and string forms
// ---------------------------------------------------------------------------

/// The digit shape of a canonical decimal, apart from the size of its
/// integer part.
pub open spec fn dec_digits_wf(d: DecV) -> bool {
    &&& (forall|i: int| 0 <= i < d.frac.len() ==> is_digit(#[trigger] d.frac[i]))
    &&& (d.frac.len() > 0 ==> d.frac.last() != '0')
    &&& (d.neg ==> d.units > 0 || d.frac.len() > 0)
}

/// Ten to the power `m`.
pub open spec fn pow10(m: nat) -> nat
    decreases m,
{
    if m == 0 {
        1
    } else {
        10 * pow10((m - 1) as nat)
    }
}

/// The value of a decimal, scaled by ten to the number of its fraction
/// digits: an exact integer.
pub open spec fn dec_num(d: DecV) -> int {
    let mag = d.units * pow10(d.frac.len()) + digits_val(d.frac);
    if d.neg {
        -(mag as int)
    } else {
        mag as int
    }
}

/// The nines-complement of a digit string.
pub open spec fn nines(f: Seq<char>) -> Seq<char> {
    Seq::new(f.len(), |i: int| digit_char((9 - digit_val(f[i])) as nat))
}

/// The tens-complement of a nonempty digit string whose last digit is not
/// zero: the digits of `10^len - value`.
pub open spec fn frac_complement(f: Seq<char>) -> Seq<char> {
    nines(f).drop_last().push(digit_char((10 - digit_val(f.last())) as nat))
}

/// The canonical decimal for `value - k`, where `value` is the number `d`
/// stands for.
pub open spec fn spec_sub_offset(d: DecV, k: nat) -> DecV {
    if d.neg {
        DecV { neg: true, units: d.units + k, frac: d.frac }
    } else if d.units >= k {
        DecV { neg: false, units: (d.units - k) as nat, frac: d.frac }
    } else if d.frac.len() == 0 {
        DecV { neg: true, units: (k - d.units) as nat, frac: d.frac }
    } else {
        DecV { neg: true, units: (k - d.units - 1) as nat, frac: frac_complement(d.frac) }
    }
}

/// The same decimal without its sign.
pub open spec fn dec_abs(d: DecV) -> DecV {
    DecV { neg: false, units: d.units, frac: d.frac }
}

/// The plain text form of a decimal: sign, integer digits, and the fraction
/// digits after a point when there are any.
pub open spec fn spec_dec_str(d: DecV) -> Seq<char> {
    (if d.neg {
        seq!['-']
    } else {
        Seq::<char>::empty()
    }) + spec_digits(d.units) + (if d.frac.len() > 0 {
        seq!['.'] + d.frac
    } else {
        Seq::<char>::empty()
    })
}

/// The plain text form of an integer.
pub open spec fn spec_int_str(n: int) -> Seq<char> {
    if n < 0 {
        seq!['-'] + spec_digits((-n) as nat)
    } else {
        spec_digits(n as nat)
    }
}

/// The canonical decimal standing for an integer.
pub open spec fn int_to_dec(n: int) -> DecV {
    DecV {
        neg: n < 0,
        units: if n < 0 {
            (-n) as nat
        } else {
            n as nat
        },
        frac: Seq::empty(),
    }
}

/// What reading a parameter value as a number yields: integers and decimals
/// directly, text through a decimal parse.
pub open spec fn spec_as_decimal(v: ParamValueV) -> Option<DecV> {
    match v {
        ParamValueV::Int(n) => Some(int_to_dec(n)),
        ParamValueV::Dec(d) => Some(d),
        ParamValueV::Text(s) => spec_parse_dec(s),
    }
}

pub proof fn lemma_pow10_pos(m: nat)
    ensures
        pow10(m) >= 1,
    decreases m,
{
    if m > 0 {
        lemma_pow10_pos((m - 1) as nat);
    }
}

/// A digit string's value is below ten to its length.
pub proof fn lemma_digits_val_bound(s: Seq<char>)
    requires
        forall|i: int| 0 <= i < s.len() ==> is_digit(#[trigger] s[i]),
    ensures
        digits_val(s) < pow10(s.len()),
    decreases s.len(),
{
    if s.len() == 0 {
    } else {
        lemma_digits_val_bound(s.drop_last());
        assert(digit_val(s.last()) <= 9);
        assert(pow10(s.len()) == 10 * pow10((s.len() - 1) as nat));
    }
}

proof fn lemma_nines_val(f: Seq<char>)
    requires
        forall|i: int| 0 <= i < f.len() ==> is_digit(#[trigger] f[i]),
    ensures
        nines(f).len() == f.len(),
        forall|i: int| 0 <= i < f.len() ==> is_digit(#[trigger] nines(f)[i]),
        digits_val(nines(f)) == pow10(f.len()) - 1 - digits_val(f),
    decreases f.len(),
{
    assert forall|i: int| 0 <= i < f.len() implies is_digit(#[trigger] nines(f)[i]) by {
        assert(digit_val(f[i]) <= 9);
    }
    if f.len() == 0 {
    } else {
        lemma_nines_val(f.drop_last());
        assert(nines(f).drop_last() =~= nines(f.drop_last()));
        lemma_digits_val_bound(f.drop_last());
        assert(digits_val(nines(f)) == digits_val(nines(f.drop_last())) * 10 + digit_val(
            nines(f).last(),
        ));
        assert(nines(f).last() == digit_char((9 - digit_val(f.last())) as nat));
        assert(digit_val(digit_char((9 - digit_val(f.last())) as nat)) == 9 - digit_val(f.last()));
        assert(pow10(f.len()) == 10 * pow10((f.len() - 1) as nat));
        assert(digits_val(f) == digits_val(f.drop_last()) * 10 + digit_val(f.last()));
        assert((pow10((f.len() - 1) as nat) - 1 - digits_val(f.drop_last())) * 10 == pow10(
            (f.len() - 1) as nat,
        ) * 10 - 10 - digits_val(f.drop_last()) * 10) by (nonlinear_arith);
    }
}

/// The tens-complement holds the digits of `10^len - value`.
proof fn lemma_complement_val(f: Seq<char>)
    requires
        forall|i: int| 0 <= i < f.len() ==> is_digit(#[trigger] f[i]),
        f.len() > 0,
        f.last() != '0',
    ensures
        frac_complement(f).len() == f.len(),
        forall|i: int| 0 <= i < f.len() ==> is_digit(#[trigger] frac_complement(f)[i]),
        frac_complement(f).last() != '0',
        digits_val(frac_complement(f)) == pow10(f.len()) - digits_val(f),
{
    lemma_nines_val(f);
    let c = frac_complement(f);
    assert(digit_val(f.last()) >= 1);
    let dl = digit_val(f.last());
    assert(c.last() == digit_char((10 - dl) as nat));
    assert(digit_val(digit_char((10 - dl) as nat)) == 10 - dl);
    assert(c.drop_last() =~= nines(f).drop_last());
    assert(digits_val(c) == digits_val(c.drop_last()) * 10 + (10 - dl));
    assert(digits_val(nines(f)) == digits_val(nines(f).drop_last()) * 10 + digit_val(
        nines(f).last(),
    ));
    assert(nines(f).last() == digit_char((9 - dl) as nat));
    assert(digit_val(digit_char((9 - dl) as nat)) == 9 - dl);
    assert(digits_val(c) == digits_val(nines(f)) + 1);
    assert forall|i: int| 0 <= i < f.len() implies is_digit(#[trigger] c[i]) by {
        if i < f.len() - 1 {
            assert(c[i] == nines(f)[i]);
        } else {
            assert(c[i] == c.last());
            assert(1 <= 10 - dl <= 9);
        }
    }
    assert(c.last() != '0') by {
        assert(1 <= 10 - dl <= 9);
    }
}

/// Subtracting the offset keeps the digit shape and takes exactly `k` times
/// the fraction scale from the scaled value.
#[verifier::rlimit(60)]
#[verifier::spinoff_prover]
pub proof fn lemma_sub_offset(d: DecV, k: nat)
    requires
        dec_digits_wf(d),
    ensures
        dec_digits_wf(spec_sub_offset(d, k)),
        spec_sub_offset(d, k).frac.len() == d.frac.len(),
        dec_num(spec_sub_offset(d, k)) == dec_num(d) - ((k * pow10(d.frac.len())) as int),
{
    let r = spec_sub_offset(d, k);
    let m = d.frac.len();
    let p = pow10(m);
    lemma_pow10_pos(m);
    if d.neg {
        let u = d.units;
        let dv = digits_val(d.frac);
        assert(r.units == u + k && r.frac == d.frac && r.neg);
        assert(dec_num(d) == -((u * p + dv) as int));
        assert(dec_num(r) == -(((u + k) * p + dv) as int));
        assert((u + k) * p + dv == (u * p + dv) + k * p) by (nonlinear_arith);
        assert(((u + k) * p + dv) as int == ((u * p + dv) as int) + ((k * p) as int));
        assert(dec_num(r) == -(((u * p + dv) as int) + ((k * p) as int)));
        assert(dec_num(r) == dec_num(d) - ((k * p) as int));
    } else if d.units >= k {
        assert(((d.units - k) as nat) * p + k * p == d.units * p) by (nonlinear_arith)
            requires
                d.units >= k,
        ;
        assert(dec_num(r) == (((d.units - k) as nat) * p + digits_val(d.frac)) as int);
        assert(dec_num(r) == dec_num(d) - ((k * p) as int));
    } else if d.frac.len() == 0 {
        assert(p == 1);
        assert(digits_val(d.frac) == 0);
        assert(d.units * 1 == d.units) by (nonlinear_arith);
        assert(((k - d.units) as nat) * 1 == k - d.units) by (nonlinear_arith)
            requires
                k > d.units,
        ;
        assert(k * p == k) by (nonlinear_arith)
            requires
                p == 1,
        ;
        assert(dec_num(r) == dec_num(d) - ((k * p) as int));
    } else {
        lemma_complement_val(d.frac);
        lemma_digits_val_bound(d.frac);
        assert(((k - d.units - 1) as nat) * p + p == ((k - d.units) as nat) * p)
            by (nonlinear_arith)
            requires
                k > d.units,
        ;
        assert(((k - d.units) as nat) * p == k * p - d.units * p) by (nonlinear_arith)
            requires
                k > d.units,
        ;
        assert(dec_num(r) == -((((k - d.units - 1) as nat) * p + (p - digits_val(d.frac))) as int));
        assert(dec_num(r) == -(((k * p - d.units * p - digits_val(d.frac))) as int));
        assert(dec_num(r) == dec_num(d) - ((k * p) as int));
    }
}

/// Copy a character vector.
fn dup_chars(v: &Vec<char>) -> (r: Vec<char>)
    ensures
        r@ == v@,
{
    let r = sub_vec(v, 0, v.len());
    proof {
        assert(v@.subrange(0, v@.len() as int) =~= v@);
    }
    r
}

impl Decimal {
    /// A copy with the same value.
    pub(crate) fn dup(&self) -> (r: Decimal)
        ensures
            r@ == self@,
    {
        Decimal { neg: self.neg, units: self.units, frac: dup_chars(&self.frac) }
    }

    /// The same decimal without its sign.
    pub(crate) fn abs(&self) -> (r: Decimal)
        ensures
            r@ == dec_abs(self@),
    {
        Decimal { neg: false, units: self.units, frac: dup_chars(&self.frac) }
    }

    /// The plain text form of this decimal.
    pub(crate) fn to_chars(&self) -> (r: Vec<char>)
        ensures
            r@ == spec_dec_str(self@),
    {
        let mut r: Vec<char> = Vec::new();
        if self.neg {
            r.push('-');
        }
        let ds = u128_digits(self.units);
        crate::text::push_all(&mut r, &ds);
        let ghost mid = r@;
        if self.frac.len() > 0 {
            r.push('.');
            crate::text::push_all(&mut r, &self.frac);
            proof {
                assert(r@ =~= mid + (seq!['.'] + self.frac@));
                assert(r@ =~= spec_dec_str(self@));
            }
        } else {
            proof {
                assert(r@ =~= spec_dec_str(self@));
            }
        }
        r
    }
}

/// The canonical decimal for an integer value.
pub(crate) fn int_decimal(n: i64) -> (r: Decimal)
    ensures
        r@ == int_to_dec(n as int),
        dec_wf(r@),
{
    if n < 0 {
        let units: u128 = (-(n as i128)) as u128;
        Decimal { neg: true, units, frac: Vec::new() }
    } else {
        Decimal { neg: false, units: n as u128, frac: Vec::new() }
    }
}

/// The plain text form of an integer.
pub(crate) fn int_str(n: i64) -> (r: Vec<char>)
    ensures
        r@ == spec_int_str(n as int),
{
    if n < 0 {
        let mut r: Vec<char> = Vec::new();
        r.push('-');
        let ds = u128_digits((-(n as i128)) as u128);
        crate::text::push_all(&mut r, &ds);
        proof {
            assert(r@ =~= seq!['-'] + spec_digits((-(n as int)) as nat));
        }
        r
    } else {
        u128_digits(n as u128)
    }
}

/// The tens-complement of the fraction digits.
#[verifier::loop_isolation(false)]
fn complement_exec(f: &Vec<char>) -> (r: Vec<char>)
    requires
        forall|i: int| 0 <= i < f@.len() ==> is_digit(#[trigger] f@[i]),
        f@.len() > 0,
        f@.last() != '0',
    ensures
        r@ == frac_complement(f@),
{
    proof {
        assert(f@.len() == f.len());
    }
    let mut r: Vec<char> = Vec::new();
    let mut i: usize = 0;
    while i < f.len() - 1
        invariant
            i <= f@.len() - 1,
            r@.len() == i,
            forall|k: int| 0 <= k < i ==> r@[k] == nines(f@)[k],
        decreases f@.len() - i,
    {
        let d = digit_val_exec(f[i]);
        r.push(digit_char_exec(9 - d));
        i = i + 1;
    }
    let dl = digit_val_exec(f[f.len() - 1]);
    proof {
        assert(digit_val(f@.last()) >= 1);
    }
    r.push(digit_char_exec(10 - dl));
    proof {
        assert(r@ =~= frac_complement(f@));
    }
    r
}

/// The canonical decimal for `value - k`, where `value` is the number `d`
/// stands for.
pub(crate) fn dec_sub_offset(d: &Decimal, k: u64) -> (r: Decimal)
    requires
        dec_wf(d@),
    ensures
        r@ == spec_sub_offset(d@, k as nat),
{
    proof {
        assert(d.frac@.len() == d.frac.len());
    }
    if d.neg {
        let r = Decimal { neg: true, units: d.units + (k as u128), frac: dup_chars(&d.frac) };
        proof {
            assert(r@.frac == spec_sub_offset(d@, k as nat).frac);
        }
        r
    } else if d.units >= k as u128 {
        let r = Decimal { neg: false, units: d.units - k as u128, frac: dup_chars(&d.frac) };
        proof {
            assert(r@.frac == spec_sub_offset(d@, k as nat).frac);
        }
        r
    } else if d.frac.len() == 0 {
        let r = Decimal { neg: true, units: (k as u128) - d.units, frac: Vec::new() };
        proof {
            assert(d@.frac.len() == 0);
            assert(r@.frac =~= spec_sub_offset(d@, k as nat).frac);
        }
        r
    } else {
        let frac = complement_exec(&d.frac);
        let r = Decimal { neg: true, units: (k as u128) - d.units - 1, frac };
        proof {
            assert(d@.frac.len() > 0);
            assert(r@.frac == frac_complement(d@.frac));
            assert(r@.frac == spec_sub_offset(d@, k as nat).frac);
        }
        r
    }
}

// ---------------------------------------------------------------------------
// Equality across representations
// ---------------------------------------------------------------------------

/// Whether two decimals are the same canonical value.
fn dec_eq(a: &Decimal, b: &Decimal) -> (r: bool)
    ensures
        r == (a@ == b@),
{
    let fr = crate::text::chars_eq(&a.frac, &b.frac);
    a.neg == b.neg && a.units == b.units && fr
}

/// Whether a decimal equals an integer.
fn dec_int_eq(d: &Decimal, n: i64) -> (r: bool)
    ensures
        r == dec_eq_int(d@, n as int),
{
    if d.frac.len() > 0 {
        proof {
            assert(d@.frac.len() > 0);
        }
        return false;
    }
    if d.neg {
        if n > 0 {
            false
        } else {
            let mag: u128 = (-(n as i128)) as u128;
            proof {
                assert(mag as int == -(n as int));
            }
            mag == d.units
        }
    } else {
        if n < 0 {
            false
        } else {
            (n as u128) == d.units
        }
    }
}

impl PartialEq for ParamValue {
    fn eq(&self, other: &ParamValue) -> (r: bool) {
        match (&self.inner, &other.inner) {
            (ParamValueInner::Int(a), ParamValueInner::Int(b)) => *a == *b,
            (ParamValueInner::Dec(a), ParamValueInner::Dec(b)) => dec_eq(a, b),
            (ParamValueInner::Text(a), ParamValueInner::Text(b)) => *a == *b,
            (ParamValueInner::Int(a), ParamValueInner::Dec(b)) => dec_int_eq(b, *a),
            (ParamValueInner::Dec(a), ParamValueInner::Int(b)) => dec_int_eq(a, *b),
            _ => false,
        }
    }
}

impl vstd::std_specs::cmp::PartialEqSpecImpl for ParamValue {
    open spec fn obeys_eq_spec() -> bool {
        true
    }

    open spec fn eq_spec(&self, other: &ParamValue) -> bool {
        pv_eq(self@, other@)
    }
}

impl ParamValue {
    /// Read this value as a number: integers and decimals directly, text
    /// through a decimal parse.
    pub(crate) fn as_decimal(&self) -> (r: Option<Decimal>)
        ensures
            match r {
                Option::Some(d) => spec_as_decimal(self@) == Some(d@) && dec_wf(d@),
                Option::None => spec_as_decimal(self@) is None,
            },
    {
        proof {
            use_type_invariant(self);
        }
        match &self.inner {
            ParamValueInner::Int(n) => Some(int_decimal(*n)),
            ParamValueInner::Dec(d) => Some(d.dup()),
            ParamValueInner::Text(s) => {
                let chars = crate::text::str_chars(s.as_str());
                parse_dec_chars(&chars)
            },
        }
    }
}



// ---------------------------------------------------------------------------
// Locale-sensitive formatting of a value
// ---------------------------------------------------------------------------

/// The locale rendering of a decimal string, or the string itself where the
/// formatter yields nothing.
pub open spec fn fmt_or_plain(loc: Seq<char>, ds: Seq<char>) -> Seq<char> {
    match crate::locale::formatted_decimal(loc, ds) {
        Option::Some(s) => s,
        Option::None => ds,
    }
}

/// What formatting a parameter value for a locale yields: numbers through
/// the locale's decimal formatter, text verbatim.
pub open spec fn spec_format_value(v: ParamValueV, loc: Seq<char>) -> Seq<char> {
    match v {
        ParamValueV::Int(n) => fmt_or_plain(loc, spec_int_str(n)),
        ParamValueV::Dec(d) => fmt_or_plain(loc, spec_dec_str(d)),
        ParamValueV::Text(s) => s,
    }
}

/// Format a plain decimal string for the locale, falling back to the string
/// itself.
pub(crate) fn fmt_chars_or_plain(locale: &crate::locale::Locale, ds: Vec<char>) -> (r: String)
    ensures
        r@ == fmt_or_plain(locale@, ds@),
{
    let s = crate::text::chars_string(&ds);
    match crate::locale::icu_format_decimal(locale.tag_str(), s.as_str()) {
        Option::Some(f) => f,
        Option::None => s,
    }
}

impl ParamValue {
    /// Format this value for the locale: numbers through the locale's
    /// decimal formatter, text verbatim.
    pub fn format_with_locale(&self, locale: &crate::locale::Locale) -> (r: String)
        ensures
            r@ == spec_format_value(self@, locale@),
    {
        match &self.inner {
            ParamValueInner::Int(n) => fmt_chars_or_plain(locale, int_str(*n)),
            ParamValueInner::Dec(d) => fmt_chars_or_plain(locale, d.to_chars()),
            ParamValueInner::Text(s) => s.clone(),
        }
    }
}



/// Parse a character string as an integer, else a decimal, else nothing.
pub(crate) fn parse_number_chars(s: &Vec<char>) -> (r: Option<ParamValue>)
    ensures
        (match r {
            Option::Some(v) => spec_parse_number(s@) == Some(v@) && pv_wf(v@),
            Option::None => spec_parse_number(s@) is None,
        }),
{
    match parse_i64_chars(s) {
        Option::Some(n) => Some(ParamValue { inner: ParamValueInner::Int(n) }),
        Option::None => match parse_dec_chars(s) {
            Option::Some(d) => Some(ParamValue { inner: ParamValueInner::Dec(d) }),
            Option::None => None,
        },
    }
}

/// A text parameter value from its characters.
pub(crate) fn from_text_chars(s: Vec<char>) -> (r: ParamValue)
    ensures
        r@ == ParamValueV::Text(s@),
{
    let t = crate::text::chars_string(&s);
    ParamValue { inner: ParamValueInner::Text(t) }
}



/// Format a plain decimal string for the locale, falling back to the
/// string itself, as characters.
pub(crate) fn fmt_vec_or_plain(locale: &crate::locale::Locale, ds: &Vec<char>) -> (r: Vec<char>)
    ensures
        r@ == fmt_or_plain(locale@, ds@),
{
    let s = crate::text::chars_string(ds);
    match crate::locale::icu_format_decimal(locale.tag_str(), s.as_str()) {
        Option::Some(f) => crate::text::str_chars(f.as_str()),
        Option::None => crate::text::str_chars(s.as_str()),
    }
}

impl ParamValue {
    /// Format this value for the locale, as characters.
    pub(crate) fn format_value_chars(&self, locale: &crate::locale::Locale) -> (r: Vec<char>)
        ensures
            r@ == spec_format_value(self@, locale@),
    {
        let s = self.format_with_locale(locale);
        crate::text::str_chars(s.as_str())
    }
}



/// Stripping trailing zeroes keeps a digit string's digits and leaves no
/// trailing zero.
pub proof fn lemma_strip_zeros(s: Seq<char>)
    requires
        forall|i: int| 0 <= i < s.len() ==> is_digit(#[trigger] s[i]),
    ensures
        strip_zeros(s).len() <= s.len(),
        forall|i: int| 0 <= i < strip_zeros(s).len() ==> strip_zeros(s)[i] == s[i],
        forall|i: int| 0 <= i < strip_zeros(s).len() ==> is_digit(#[trigger] strip_zeros(s)[i]),
        strip_zeros(s).len() > 0 ==> strip_zeros(s).last() != '0',
    decreases s.len(),
{
    if s.len() > 0 && s.last() == '0' {
        lemma_strip_zeros(s.drop_last());
        assert(forall|i: int| 0 <= i < s.drop_last().len() ==> s.drop_last()[i] == s[i]);
        assert(forall|i: int|
            0 <= i < s.drop_last().len() ==> is_digit(#[trigger] s.drop_last()[i]));
    }
}

/// A parsed decimal is canonical.
pub proof fn lemma_parse_dec_wf(s: Seq<char>)
    ensures
        spec_parse_dec(s) matches Some(d) ==> dec_wf(d),
{
    if spec_parse_dec(s) is Some {
        let (neg0, i0) = spec_sign(s);
        let e1 = digit_run_end(s, i0);
        lemma_digit_run_end(s, i0);
        let has_dot = e1 < s.len() && s[e1] == '.';
        let fstart = if has_dot {
            e1 + 1
        } else {
            e1
        };
        let e2 = if has_dot {
            digit_run_end(s, fstart)
        } else {
            e1
        };
        if has_dot {
            lemma_digit_run_end(s, fstart);
        }
        lemma_strip_zeros(s.subrange(fstart, e2));
    }
}

/// Reading a well-formed value as a number yields a canonical decimal.
pub proof fn lemma_as_decimal_wf(v: ParamValueV)
    requires
        pv_wf(v),
        spec_as_decimal(v) is Some,
    ensures
        dec_wf(spec_as_decimal(v)->Some_0),
{
    match v {
        ParamValueV::Int(n) => {},
        ParamValueV::Dec(d) => {},
        ParamValueV::Text(s) => {
            lemma_parse_dec_wf(s);
        },
    }
}


} // verus!

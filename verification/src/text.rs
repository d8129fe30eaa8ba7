use vstd::std_specs::iter::IteratorSpec;
use vstd::prelude::*;

verus! {

// ---------------------------------------------------------------------------
// Character classes
//
// Argument names and keywords are recognized over ASCII word characters, and
// whitespace around separators is ASCII whitespace.
// ---------------------------------------------------------------------------

/// ASCII whitespace: space, tab, line feed, vertical tab, form feed, carriage
/// return.
pub open spec fn is_space(c: char) -> bool {
    c == ' ' || c == '\t' || c == '\n' || c == '\u{B}' || c == '\u{C}' || c == '\r'
}

/// ASCII word character: a letter, a digit or an underscore.
pub open spec fn is_word(c: char) -> bool {
    ('a' <= c && c <= 'z') || ('A' <= c && c <= 'Z') || ('0' <= c && c <= '9') || c == '_'
}

/// ASCII decimal digit.
pub open spec fn is_digit(c: char) -> bool {
    '0' <= c && c <= '9'
}

pub fn is_space_exec(c: char) -> (r: bool)
    ensures
        r == is_space(c),
{
    c == ' ' || c == '\t' || c == '\n' || c == '\u{B}' || c == '\u{C}' || c == '\r'
}

pub fn is_word_exec(c: char) -> (r: bool)
    ensures
        r == is_word(c),
{
    ('a' <= c && c <= 'z') || ('A' <= c && c <= 'Z') || ('0' <= c && c <= '9') || c == '_'
}

pub fn is_digit_exec(c: char) -> (r: bool)
    ensures
        r == is_digit(c),
{
    '0' <= c && c <= '9'
}

// ---------------------------------------------------------------------------
// Decimal digits
// ---------------------------------------------------------------------------

/// The character for a single decimal digit value.
pub open spec fn digit_char(d: nat) -> char {
    if d == 0 {
        '0'
    } else if d == 1 {
        '1'
    } else if d == 2 {
        '2'
    } else if d == 3 {
        '3'
    } else if d == 4 {
        '4'
    } else if d == 5 {
        '5'
    } else if d == 6 {
        '6'
    } else if d == 7 {
        '7'
    } else if d == 8 {
        '8'
    } else {
        '9'
    }
}

/// The value of a single decimal digit character.
pub open spec fn digit_val(c: char) -> nat {
    if c == '0' {
        0
    } else if c == '1' {
        1
    } else if c == '2' {
        2
    } else if c == '3' {
        3
    } else if c == '4' {
        4
    } else if c == '5' {
        5
    } else if c == '6' {
        6
    } else if c == '7' {
        7
    } else if c == '8' {
        8
    } else {
        9
    }
}

/// The decimal digits of `n`, most significant first.
pub open spec fn spec_digits(n: nat) -> Seq<char>
    decreases n,
{
    if n < 10 {
        seq![digit_char(n)]
    } else {
        spec_digits(n / 10).push(digit_char(n % 10))
    }
}

/// A number's digit string is never empty.
pub proof fn lemma_spec_digits_nonempty(n: nat)
    ensures
        spec_digits(n).len() >= 1,
    decreases n,
{
    if n >= 10 {
        lemma_spec_digits_nonempty(n / 10);
    }
}

/// The value of a string of decimal digit characters.
pub open spec fn digits_val(s: Seq<char>) -> nat
    decreases s.len(),
{
    if s.len() == 0 {
        0
    } else {
        digits_val(s.drop_last()) * 10 + digit_val(s.last())
    }
}

/// Extending a digit string on the right cannot decrease its value.
pub proof fn lemma_digits_val_mono(s: Seq<char>, i: int, j: int)
    requires
        0 <= i <= j <= s.len(),
    ensures
        digits_val(s.subrange(0, i)) <= digits_val(s.subrange(0, j)),
    decreases j - i,
{
    if i < j {
        lemma_digits_val_mono(s, i, j - 1);
        assert(s.subrange(0, j).drop_last() =~= s.subrange(0, j - 1));
        assert(digits_val(s.subrange(0, j)) == digits_val(s.subrange(0, j - 1)) * 10 + digit_val(
            s.subrange(0, j).last(),
        ));
    }
}

pub fn digit_char_exec(d: u8) -> (c: char)
    requires
        d < 10,
    ensures
        c == digit_char(d as nat),
{
    if d == 0 {
        '0'
    } else if d == 1 {
        '1'
    } else if d == 2 {
        '2'
    } else if d == 3 {
        '3'
    } else if d == 4 {
        '4'
    } else if d == 5 {
        '5'
    } else if d == 6 {
        '6'
    } else if d == 7 {
        '7'
    } else if d == 8 {
        '8'
    } else {
        '9'
    }
}

pub fn digit_val_exec(c: char) -> (d: u8)
    requires
        is_digit(c),
    ensures
        d == digit_val(c),
        d < 10,
{
    if c == '0' {
        0
    } else if c == '1' {
        1
    } else if c == '2' {
        2
    } else if c == '3' {
        3
    } else if c == '4' {
        4
    } else if c == '5' {
        5
    } else if c == '6' {
        6
    } else if c == '7' {
        7
    } else if c == '8' {
        8
    } else {
        9
    }
}

/// The decimal digits of `n`, as characters, most significant first.
#[verifier::loop_isolation(false)]
pub fn u128_digits(n: u128) -> (v: Vec<char>)
    ensures
        v@ == spec_digits(n as nat),
{
    let mut rev: Vec<char> = Vec::new();
    let mut m: u128 = n;
    while m >= 10
        invariant
            spec_digits(n as nat) == spec_digits(m as nat) + rev@.reverse(),
        decreases m,
    {
        let d: u8 = (m % 10) as u8;
        let c: char = digit_char_exec(d);
        let ghost old_rev = rev@;
        rev.push(c);
        proof {
            assert(rev@.reverse() =~= seq![c] + old_rev.reverse());
            assert(spec_digits(m as nat) == spec_digits((m as nat) / 10).push(
                digit_char((m as nat) % 10),
            ));
            assert(spec_digits((m as nat) / 10) + (seq![c] + old_rev.reverse())
                =~= spec_digits(m as nat) + old_rev.reverse());
        }
        m = m / 10;
    }
    let c: char = digit_char_exec(m as u8);
    let ghost before = rev@;
    rev.push(c);
    proof {
        assert(spec_digits(m as nat) =~= seq![c]);
        assert(rev@.reverse() =~= seq![c] + before.reverse());
        assert(rev@.reverse() == spec_digits(n as nat));
    }
    let mut v: Vec<char> = Vec::new();
    let mut i: usize = rev.len();
    while i > 0
        invariant
            i <= rev@.len(),
            v@ =~= rev@.subrange(i as int, rev@.len() as int).reverse(),
        decreases i,
    {
        i = i - 1;
        v.push(rev[i]);
        proof {
            assert(v@ =~= rev@.subrange(i as int, rev@.len() as int).reverse());
        }
    }
    proof {
        assert(rev@.subrange(0, rev@.len() as int) =~= rev@);
        assert(v@ == spec_digits(n as nat));
    }
    v
}

// ---------------------------------------------------------------------------
// Substring search and replacement
// ---------------------------------------------------------------------------

/// `pat` occurs in `s` at position `i`.
pub open spec fn match_at(s: Seq<char>, pat: Seq<char>, i: int) -> bool {
    0 <= i && i + pat.len() <= s.len() && s.subrange(i, i + pat.len() as int) == pat
}

/// The first position at or after `i` where `pat` occurs in `s`.
pub open spec fn find_from(s: Seq<char>, pat: Seq<char>, i: int) -> Option<int>
    decreases s.len() - i + 1,
{
    if i < 0 || i + pat.len() > s.len() {
        None
    } else if match_at(s, pat, i) {
        Some(i)
    } else {
        find_from(s, pat, i + 1)
    }
}

/// `s` with the first occurrence of `pat` (if any) replaced by `rep`.
pub open spec fn spec_replace_first(s: Seq<char>, pat: Seq<char>, rep: Seq<char>) -> Seq<char> {
    match find_from(s, pat, 0) {
        Option::None => s,
        Option::Some(i) => s.subrange(0, i) + rep + s.subrange(i + pat.len() as int, s.len() as int),
    }
}

/// `s` from position `i` on, with every occurrence of the character `c`
/// replaced by `rep`.
pub open spec fn replace_char_from(s: Seq<char>, i: int, c: char, rep: Seq<char>) -> Seq<char>
    decreases s.len() - i,
{
    if i < 0 || i >= s.len() {
        Seq::empty()
    } else if s[i] == c {
        rep + replace_char_from(s, i + 1, c, rep)
    } else {
        seq![s[i]] + replace_char_from(s, i + 1, c, rep)
    }
}

/// `s` with every occurrence of the character `c` replaced by `rep`.
pub open spec fn spec_replace_char(s: Seq<char>, c: char, rep: Seq<char>) -> Seq<char> {
    replace_char_from(s, 0, c, rep)
}

/// `s` contains the character `c`.
pub open spec fn contains_char(s: Seq<char>, c: char) -> bool {
    exists|i: int| 0 <= i < s.len() && s[i] == c
}

/// Append a copy of every character of `src` to `dst`.
#[verifier::loop_isolation(false)]
pub fn push_all(dst: &mut Vec<char>, src: &Vec<char>)
    ensures
        final(dst)@ == old(dst)@ + src@,
{
    let mut i: usize = 0;
    while i < src.len()
        invariant
            i <= src@.len(),
            dst@ == old(dst)@ + src@.subrange(0, i as int),
        decreases src@.len() - i,
    {
        dst.push(src[i]);
        proof {
            assert(old(dst)@ + src@.subrange(0, i as int) + seq![src@[i as int]]
                =~= old(dst)@ + src@.subrange(0, i + 1));
        }
        i = i + 1;
    }
    proof {
        assert(src@.subrange(0, src@.len() as int) =~= src@);
    }
}

/// Whether `s` contains the character `c`.
#[verifier::loop_isolation(false)]
pub fn contains_char_exec(s: &Vec<char>, c: char) -> (r: bool)
    ensures
        r == contains_char(s@, c),
{
    let mut i: usize = 0;
    while i < s.len()
        invariant
            i <= s@.len(),
            forall|k: int| 0 <= k < i ==> s@[k] != c,
        decreases s@.len() - i,
    {
        if s[i] == c {
            return true;
        }
        i = i + 1;
    }
    false
}

/// Whether `pat` occurs in `s` at position `i`.
#[verifier::loop_isolation(false)]
pub fn match_here(s: &Vec<char>, pat: &Vec<char>, i: usize) -> (r: bool)
    requires
        i + pat@.len() <= s@.len(),
    ensures
        r == match_at(s@, pat@, i as int),
{
    proof {
        assert(s@.len() == s.len());
    }
    let mut j: usize = 0;
    while j < pat.len()
        invariant
            j <= pat@.len(),
            i + pat@.len() <= s@.len(),
            forall|k: int| 0 <= k < j ==> s@[i + k] == pat@[k],
        decreases pat@.len() - j,
    {
        if s[i + j] != pat[j] {
            proof {
                assert(s@.subrange(i as int, i + pat@.len() as int)[j as int] == s@[i + j]);
            }
            return false;
        }
        j = j + 1;
    }
    proof {
        assert(s@.subrange(i as int, i + pat@.len() as int) =~= pat@);
    }
    true
}

/// The first position at which `pat` occurs in `s`, if any.
#[verifier::loop_isolation(false)]
pub fn find_sub(s: &Vec<char>, pat: &Vec<char>) -> (r: Option<usize>)
    requires
        pat@.len() >= 1,
    ensures
        match r {
            Option::Some(i) => find_from(s@, pat@, 0) == Option::Some(i as int) && match_at(
                s@,
                pat@,
                i as int,
            ),
            Option::None => find_from(s@, pat@, 0) is None,
        },
{
    if pat.len() > s.len() {
        return None;
    }
    let bound: usize = s.len() - pat.len();
    proof {
        assert(s@.len() == s.len());
        assert(pat@.len() == pat.len());
    }
    let mut i: usize = 0;
    loop
        invariant
            pat@.len() >= 1,
            pat@.len() <= s@.len(),
            bound == s@.len() - pat@.len(),
            i <= bound + 1,
            find_from(s@, pat@, 0) == find_from(s@, pat@, i as int),
        decreases s@.len() - i,
    {
        if i > bound {
            break;
        }
        if match_here(s, pat, i) {
            return Some(i);
        }
        i = i + 1;
    }
    proof {
        assert(find_from(s@, pat@, i as int) is None);
    }
    None
}

/// `s` with the first occurrence of `pat` (if any) replaced by `rep`.
#[verifier::loop_isolation(false)]
pub fn replace_first(s: &Vec<char>, pat: &Vec<char>, rep: &Vec<char>) -> (r: Vec<char>)
    requires
        pat@.len() >= 1,
    ensures
        r@ == spec_replace_first(s@, pat@, rep@),
{
    match find_sub(s, pat) {
        Option::None => {
            let mut r: Vec<char> = Vec::new();
            push_all(&mut r, s);
            proof {
                assert(Seq::<char>::empty() + s@ =~= s@);
            }
            r
        },
        Option::Some(i) => {
            proof {
                assert(s@.len() == s.len());
                assert(pat@.len() == pat.len());
            }
            let mut r: Vec<char> = Vec::new();
            let mut k: usize = 0;
            while k < i
                invariant
                    i + pat@.len() <= s@.len(),
                    k <= i,
                    r@ == s@.subrange(0, k as int),
                decreases i - k,
            {
                r.push(s[k]);
                proof {
                    assert(s@.subrange(0, k as int).push(s@[k as int]) =~= s@.subrange(
                        0,
                        k + 1,
                    ));
                }
                k = k + 1;
            }
            push_all(&mut r, rep);
            let mut k2: usize = i + pat.len();
            while k2 < s.len()
                invariant
                    i + pat@.len() <= k2 <= s@.len(),
                    r@ == s@.subrange(0, i as int) + rep@ + s@.subrange(
                        i + pat@.len() as int,
                        k2 as int,
                    ),
                decreases s@.len() - k2,
            {
                r.push(s[k2]);
                proof {
                    assert((s@.subrange(0, i as int) + rep@ + s@.subrange(
                        i + pat@.len() as int,
                        k2 as int,
                    )).push(s@[k2 as int]) =~= s@.subrange(0, i as int) + rep@ + s@.subrange(
                        i + pat@.len() as int,
                        k2 + 1,
                    ));
                }
                k2 = k2 + 1;
            }
            r
        },
    }
}

/// `s` with every occurrence of the character `c` replaced by `rep`.
#[verifier::loop_isolation(false)]
pub fn replace_char(s: &Vec<char>, c: char, rep: &Vec<char>) -> (r: Vec<char>)
    ensures
        r@ == spec_replace_char(s@, c, rep@),
{
    let mut r: Vec<char> = Vec::new();
    let mut i: usize = 0;
    while i < s.len()
        invariant
            i <= s@.len(),
            spec_replace_char(s@, c, rep@) == r@ + replace_char_from(s@, i as int, c, rep@),
        decreases s@.len() - i,
    {
        if s[i] == c {
            let ghost r0 = r@;
            push_all(&mut r, rep);
            proof {
                assert(r0 + (rep@ + replace_char_from(s@, i + 1, c, rep@))
                    =~= r@ + replace_char_from(s@, i + 1, c, rep@));
            }
        } else {
            let ghost r0 = r@;
            r.push(s[i]);
            proof {
                assert(r0 + (seq![s@[i as int]] + replace_char_from(s@, i + 1, c, rep@))
                    =~= r@ + replace_char_from(s@, i + 1, c, rep@));
            }
        }
        i = i + 1;
    }
    proof {
        assert(r@ + replace_char_from(s@, i as int, c, rep@) =~= r@);
    }
    r
}

/// A copy of the characters of `s` from `from` (inclusive) to `to`
/// (exclusive).
#[verifier::loop_isolation(false)]
pub fn sub_vec(s: &Vec<char>, from: usize, to: usize) -> (r: Vec<char>)
    requires
        from <= to <= s@.len(),
    ensures
        r@ == s@.subrange(from as int, to as int),
{
    let mut r: Vec<char> = Vec::new();
    let mut i: usize = from;
    while i < to
        invariant
            from <= i <= to,
            r@ == s@.subrange(from as int, i as int),
        decreases to - i,
    {
        r.push(s[i]);
        proof {
            assert(s@.subrange(from as int, i as int).push(s@[i as int]) =~= s@.subrange(
                from as int,
                i + 1,
            ));
        }
        i = i + 1;
    }
    r
}

/// Whether two character vectors hold the same characters.
#[verifier::loop_isolation(false)]
pub fn chars_eq(a: &Vec<char>, b: &Vec<char>) -> (r: bool)
    ensures
        r == (a@ == b@),
{
    proof {
        assert(a@.len() == a.len());
        assert(b@.len() == b.len());
    }
    if a.len() != b.len() {
        return false;
    }
    let mut i: usize = 0;
    while i < a.len()
        invariant
            i <= a@.len(),
            forall|k: int| 0 <= k < i ==> a@[k] == b@[k],
        decreases a@.len() - i,
    {
        if a[i] != b[i] {
            return false;
        }
        i = i + 1;
    }
    proof {
        assert(a@ =~= b@);
    }
    true
}

// ---------------------------------------------------------------------------
// Conversions between strings and character vectors
//
// All of the crate's logic works on character vectors; strings cross the
// boundary only here.
// ---------------------------------------------------------------------------

/// The characters of the string, in order.
pub fn str_chars(s: &str) -> (v: Vec<char>)
    ensures
        v@ == s@,
{
    broadcast use vstd::string::group_string_axioms;

    let mut it = s.chars();
    let mut v: Vec<char> = Vec::new();
    loop
        invariant
            it.obeys_prophetic_iter_laws(),
            it.decrease() is Some,
            v@ + it.remaining() == s@,
        ensures
            v@ == s@,
        decreases it.decrease()->Some_0,
    {
        match it.next() {
            Option::Some(c) => {
                let ghost pre = v@;
                v.push(c);
                proof {
                    assert(pre + (seq![c] + it.remaining()) =~= v@ + it.remaining());
                }
            },
            Option::None => {
                proof {
                    assert(it.remaining().len() == 0);
                    assert(v@ + it.remaining() =~= v@);
                }
                break;
            },
        }
    }
    v
}

/// Relies on `String`'s `FromIterator` over characters: the string holding
/// exactly these characters, in order.
#[verifier::external_body]
pub fn chars_string(v: &Vec<char>) -> (s: String)
    ensures
        s@ == v@,
{
    v.iter().collect()
}

} // verus!

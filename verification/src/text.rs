//! Text utilities for the wire protocol: whitespace tokenization, joining
//! tokens back together, and decimal parsing and formatting.

use vstd::prelude::*;
use vstd::string::*;

use crate::store::views_of;

verus! {

/// The whitespace characters that separate tokens on a command line.
pub open spec fn is_wsp(c: char) -> bool {
    c == ' ' || c == '\t' || c == '\n' || c == '\r'
}

/// The tokens of `s`: its maximal runs of non-whitespace characters, in
/// order, described by how appending one character extends them.
pub open spec fn spec_tokens(s: Seq<char>) -> Seq<Seq<char>>
    decreases s.len(),
{
    if s.len() == 0 {
        Seq::empty()
    } else {
        let prev = spec_tokens(s.drop_last());
        let c = s.last();
        if is_wsp(c) {
            prev
        } else if s.len() == 1 || is_wsp(s[s.len() - 2]) {
            prev.push(seq![c])
        } else {
            prev.update(prev.len() - 1, prev.last().push(c))
        }
    }
}

/// The tokens joined back together with a single space between them.
pub open spec fn spec_join(ts: Seq<Seq<char>>) -> Seq<char>
    decreases ts.len(),
{
    if ts.len() == 0 {
        Seq::empty()
    } else if ts.len() == 1 {
        ts[0]
    } else {
        spec_join(ts.drop_last()) + seq![' '] + ts.last()
    }
}

/// Relies on String::push, which appends the given character to the end
/// of the string.
#[verifier::external_body]
fn push_char(s: &mut String, c: char)
    ensures
        final(s)@ == old(s)@.push(c),
{
    s.push(c);
}

fn is_wsp_char(c: char) -> (b: bool)
    ensures
        b == is_wsp(c),
{
    c == ' ' || c == '\t' || c == '\n' || c == '\r'
}

/// Splits `s` on whitespace into its tokens.
pub fn tokenize(s: &str) -> (r: Vec<String>)
    ensures
        views_of(r@) == spec_tokens(s@),
{
    let n = s.unicode_len();
    let mut toks: Vec<String> = Vec::new();
    let mut in_tok = false;
    let mut i: usize = 0;
    proof {
        assert(s@.take(0) =~= Seq::<char>::empty());
        assert(views_of(toks@) =~= spec_tokens(s@.take(0)));
    }
    while i < n
        invariant
            i <= n,
            n == s@.len(),
            views_of(toks@) == spec_tokens(s@.take(i as int)),
            in_tok == (i > 0 && !is_wsp(s@[i as int - 1])),
            in_tok ==> toks@.len() > 0,
        decreases n - i,
    {
        let ghost pre_toks = toks@;
        let c = s.get_char(i);
        proof {
            assert(s@.take(i as int + 1).drop_last() =~= s@.take(i as int));
            assert(s@.take(i as int + 1).last() == s@[i as int]);
            if i > 0 {
                assert(s@.take(i as int + 1)[i as int - 1] == s@[i as int - 1]);
            }
        }
        if is_wsp_char(c) {
            in_tok = false;
        } else if !in_tok {
            let mut t = String::new();
            push_char(&mut t, c);
            toks.push(t);
            in_tok = true;
            proof {
                assert(views_of(toks@) =~= views_of(pre_toks).push(seq![c]));
            }
        } else {
            let mut t = toks.pop().unwrap();
            push_char(&mut t, c);
            toks.push(t);
            proof {
                assert(views_of(toks@) =~= views_of(pre_toks).update(
                    pre_toks.len() - 1,
                    pre_toks.last()@.push(c),
                ));
            }
        }
        i = i + 1;
    }
    proof {
        assert(s@.take(n as int) =~= s@);
    }
    toks
}

/// Joins the tokens at indices `from..to` with single spaces.
pub fn join_tokens(toks: &Vec<String>, from: usize, to: usize) -> (r: String)
    requires
        from <= to,
        to <= toks@.len(),
    ensures
        r@ == spec_join(views_of(toks@).subrange(from as int, to as int)),
{
    let mut r = String::new();
    let mut i = from;
    proof {
        assert(views_of(toks@).subrange(from as int, from as int) =~= Seq::<Seq<char>>::empty());
    }
    while i < to
        invariant
            from <= i <= to,
            to <= toks@.len(),
            r@ == spec_join(views_of(toks@).subrange(from as int, i as int)),
        decreases to - i,
    {
        if i > from {
            push_char(&mut r, ' ');
        }
        r.append(toks[i].as_str());
        proof {
            let vs = views_of(toks@);
            assert(vs.subrange(from as int, i as int + 1).drop_last() =~= vs.subrange(
                from as int,
                i as int,
            ));
            assert(vs.subrange(from as int, i as int + 1).last() == toks@[i as int]@);
        }
        i = i + 1;
    }
    r
}

/// A decimal digit character.
pub open spec fn is_digit(c: char) -> bool {
    48 <= c as int && c as int <= 57
}

/// The numeric value of a digit character.
pub open spec fn digit_val(c: char) -> int {
    c as int - 48
}

/// `s` is a non-empty run of decimal digits.
pub open spec fn all_digits(s: Seq<char>) -> bool {
    forall|i: int| 0 <= i < s.len() ==> is_digit(#[trigger] s[i])
}

/// The number the digit string `s` denotes, most significant digit first.
pub open spec fn digits_val(s: Seq<char>) -> int
    decreases s.len(),
{
    if s.len() == 0 {
        0
    } else {
        digits_val(s.drop_last()) * 10 + digit_val(s.last())
    }
}

proof fn lemma_digits_val_nonneg(s: Seq<char>)
    requires
        all_digits(s),
    ensures
        digits_val(s) >= 0,
    decreases s.len(),
{
    if s.len() > 0 {
        assert forall|i: int| 0 <= i < s.drop_last().len() implies is_digit(
            #[trigger] s.drop_last()[i],
        ) by {
            assert(s.drop_last()[i] == s[i]);
        }
        lemma_digits_val_nonneg(s.drop_last());
    }
}

proof fn lemma_digits_val_prefix(s: Seq<char>, i: int)
    requires
        all_digits(s),
        0 <= i <= s.len(),
    ensures
        digits_val(s.take(i)) <= digits_val(s),
    decreases s.len() - i,
{
    if i < s.len() {
        assert(s.take(i + 1).drop_last() =~= s.take(i));
        assert(s.take(i + 1).last() == s[i]);
        assert forall|j: int| 0 <= j < s.take(i).len() implies is_digit(
            #[trigger] s.take(i)[j],
        ) by {
            assert(s.take(i)[j] == s[j]);
        }
        lemma_digits_val_nonneg(s.take(i));
        assert(digits_val(s.take(i + 1)) == digits_val(s.take(i)) * 10 + digit_val(s[i]));
        lemma_digits_val_prefix(s, i + 1);
    } else {
        assert(s.take(i) =~= s);
    }
}

/// Parses `s` as a non-negative decimal integer.  Succeeds exactly when
/// `s` is a non-empty digit string whose value fits in a `u64`.
pub fn parse_u64(s: &str) -> (r: Option<u64>)
    ensures
        match r {
            Some(v) => all_digits(s@) && s@.len() > 0 && v == digits_val(s@),
            None => !(all_digits(s@) && s@.len() > 0 && digits_val(s@) <= u64::MAX),
        },
{
    let n = s.unicode_len();
    if n == 0 {
        return None;
    }
    let mut acc: u64 = 0;
    let mut i: usize = 0;
    proof {
        assert(s@.take(0) =~= Seq::<char>::empty());
    }
    while i < n
        invariant
            i <= n,
            n == s@.len(),
            n > 0,
            all_digits(s@.take(i as int)),
            acc == digits_val(s@.take(i as int)),
        decreases n - i,
    {
        let c = s.get_char(i);
        let cu = c as u32;
        if cu < 48 || cu > 57 {
            proof {
                assert(!is_digit(s@[i as int]));
            }
            return None;
        }
        let d = (cu - 48) as u64;
        proof {
            assert(s@.take(i as int + 1).drop_last() =~= s@.take(i as int));
            assert(s@.take(i as int + 1).last() == s@[i as int]);
            assert forall|j: int| 0 <= j < s@.take(i as int + 1).len() implies is_digit(
                #[trigger] s@.take(i as int + 1)[j],
            ) by {
                assert(s@.take(i as int + 1)[j] == s@[j]);
            }
        }
        let overflowed: bool;
        match acc.checked_mul(10) {
            Some(p) => {
                match p.checked_add(d) {
                    Some(v) => {
                        acc = v;
                        overflowed = false;
                    },
                    None => {
                        overflowed = true;
                    },
                }
            },
            None => {
                overflowed = true;
            },
        }
        if overflowed {
            proof {
                if all_digits(s@) {
                    assert(digits_val(s@.take(i as int + 1)) > u64::MAX);
                    lemma_digits_val_prefix(s@, i as int + 1);
                }
            }
            return None;
        }
        i = i + 1;
    }
    proof {
        assert(s@.take(n as int) =~= s@);
    }
    Some(acc)
}

/// The digit character for a value below ten.
pub open spec fn spec_digit_char(d: int) -> char {
    if d == 0 {
        '0'
    } else if d == 1 {
        '1'
    } else if d == 2 {
        '2'
    } else if d == 3 {
        '3'
    } else if d == 4 {
        '4'
    } else if d == 5 {
        '5'
    } else if d == 6 {
        '6'
    } else if d == 7 {
        '7'
    } else if d == 8 {
        '8'
    } else {
        '9'
    }
}

/// The decimal rendering of a non-negative number, no leading zeroes.
pub open spec fn spec_u64_digits(n: int) -> Seq<char>
    decreases n,
{
    if n < 10 {
        seq![spec_digit_char(n)]
    } else {
        spec_u64_digits(n / 10).push(spec_digit_char(n % 10))
    }
}

/// The decimal rendering of a signed number: a minus sign, then digits.
pub open spec fn spec_i64_digits(n: int) -> Seq<char> {
    if n < 0 {
        seq!['-'] + spec_u64_digits(-n)
    } else {
        spec_u64_digits(n)
    }
}

fn digit_char(d: u64) -> (c: char)
    requires
        d < 10,
    ensures
        c == spec_digit_char(d as int),
{
    match d {
        0 => '0',
        1 => '1',
        2 => '2',
        3 => '3',
        4 => '4',
        5 => '5',
        6 => '6',
        7 => '7',
        8 => '8',
        _ => '9',
    }
}

/// Renders `n` in decimal.
pub fn fmt_u64(n: u64) -> (s: String)
    ensures
        s@ == spec_u64_digits(n as int),
    decreases n,
{
    if n < 10 {
        let c = digit_char(n);
        let mut s = String::new();
        push_char(&mut s, c);
        proof {
            assert(s@ =~= seq![spec_digit_char(n as int)]);
        }
        s
    } else {
        let c = digit_char(n % 10);
        let mut s = fmt_u64(n / 10);
        push_char(&mut s, c);
        s
    }
}

/// Renders `n` in decimal, with a leading minus sign when negative.
pub fn fmt_i64(n: i64) -> (s: String)
    requires
        n > i64::MIN,
    ensures
        s@ == spec_i64_digits(n as int),
{
    if n < 0 {
        let m = (-n) as u64;
        let mut s = String::new();
        push_char(&mut s, '-');
        let rest = fmt_u64(m);
        let out = s.concat(rest.as_str());
        proof {
            assert(out@ =~= seq!['-'] + spec_u64_digits(m as int));
        }
        out
    } else {
        fmt_u64(n as u64)
    }
}

/// Whether string `a` reads as the text `lit`.
pub fn str_eq(a: &String, lit: &str) -> (b: bool)
    ensures
        b == (a@ == lit@),
{
    let other = lit.to_owned();
    *a == other
}

} // verus!

//! Tokenizing of a whitespace-separated line into a fixed count of signed
//! 64-bit integers, with a precise error taxonomy.

use vstd::prelude::*;
use vstd::std_specs::iter::IteratorSpec;
use vstd::string::StrSliceExecFns;
use vstd::string::StringExecFns;

verus! {

broadcast use vstd::string::group_string_axioms;

/// Error returned by [`parse_args`].
#[derive(Debug)]
pub struct ParseArgError {
    pub kind: ArgErrorKind,
}

/// What went wrong while tokenizing and converting a line of input.
#[derive(Debug)]
pub enum ArgErrorKind {
    /// The token count differs from the requested count: `(expected, actual)`.
    ArgAmount((usize, usize)),
    /// A token is not a valid integer: the offending token and the cause.
    ExternErr((String, IntParseError)),
}

/// Why a single token failed to convert to an `i64`.
#[derive(Debug, Clone, Copy, PartialEq, Eq, Structural)]
pub enum IntParseError {
    /// The token is not an optional sign followed by one or more decimal digits.
    InvalidDigit,
    /// The token denotes an integer greater than `i64::MAX`.
    PosOverflow,
    /// The token denotes an integer less than `i64::MIN`.
    NegOverflow,
}

/// The Unicode `White_Space` characters, the separators between tokens.
pub open spec fn is_space(c: char) -> bool {
    let u = c as u32;
    ||| u == 0x09
    ||| u == 0x0A
    ||| u == 0x0B
    ||| u == 0x0C
    ||| u == 0x0D
    ||| u == 0x20
    ||| u == 0x85
    ||| u == 0xA0
    ||| u == 0x1680
    ||| (0x2000 <= u && u <= 0x200A)
    ||| u == 0x2028
    ||| u == 0x2029
    ||| u == 0x202F
    ||| u == 0x205F
    ||| u == 0x3000
}

/// Decides [`is_space`] on a concrete character.
pub(crate) fn is_space_char(c: char) -> (r: bool)
    ensures
        r == is_space(c),
{
    let u = c as u32;
    u == 0x09 || u == 0x0A || u == 0x0B || u == 0x0C || u == 0x0D || u == 0x20 || u == 0x85
        || u == 0xA0 || u == 0x1680 || (0x2000 <= u && u <= 0x200A) || u == 0x2028 || u == 0x2029
        || u == 0x202F || u == 0x205F || u == 0x3000
}

/// Length of the maximal non-space prefix of `s`.
pub open spec fn token_len(s: Seq<char>) -> nat
    decreases s.len(),
{
    if s.len() == 0 || is_space(s[0]) {
        0
    } else {
        1 + token_len(s.drop_first())
    }
}

/// The maximal non-space prefix is bounded by the whole, and is non-empty
/// exactly when `s` starts with a non-space character.
proof fn lemma_token_len_bounds(s: Seq<char>)
    ensures
        token_len(s) <= s.len(),
        s.len() > 0 && !is_space(s[0]) ==> token_len(s) >= 1,
    decreases s.len(),
{
    if s.len() > 0 && !is_space(s[0]) {
        lemma_token_len_bounds(s.drop_first());
    }
}

/// The tokens of `s`: the maximal runs of non-space characters, in order.
pub open spec fn tokens(s: Seq<char>) -> Seq<Seq<char>>
    decreases s.len(),
    via tokens_decreases
{
    if s.len() == 0 {
        Seq::empty()
    } else if is_space(s[0]) {
        tokens(s.drop_first())
    } else {
        seq![s.take(token_len(s) as int)] + tokens(s.skip(token_len(s) as int))
    }
}

#[via_fn]
proof fn tokens_decreases(s: Seq<char>) {
    lemma_token_len_bounds(s);
}

/// If the first `n` characters of `s` are non-space and the next one (if any)
/// is a space, then the maximal non-space prefix has length exactly `n`.
proof fn lemma_token_len_at(s: Seq<char>, n: nat)
    requires
        n <= s.len(),
        forall|k: int| 0 <= k < n ==> !is_space(s[k]),
        n == s.len() || is_space(s[n as int]),
    ensures
        token_len(s) == n,
    decreases n,
{
    if n > 0 {
        lemma_token_len_at(s.drop_first(), (n - 1) as nat);
    }
}

/// The tokens of the subsequences of `s` named by `spans`.
pub(crate) open spec fn span_texts(s: Seq<char>, spans: Seq<(usize, usize)>) -> Seq<Seq<char>> {
    spans.map_values(|sp: (usize, usize)| s.subrange(sp.0 as int, sp.1 as int))
}

/// Splits `cs` on runs of whitespace: returns the half-open index ranges of
/// the tokens of `cs`, in order.
pub(crate) fn tokenize(cs: &Vec<char>) -> (spans: Vec<(usize, usize)>)
    ensures
        spans@.len() == tokens(cs@).len(),
        forall|k: int|
            0 <= k < spans@.len() ==> (#[trigger] spans@[k]).0 < spans@[k].1 <= cs@.len()
                && tokens(cs@)[k] == cs@.subrange(spans@[k].0 as int, spans@[k].1 as int),
{
    let mut spans: Vec<(usize, usize)> = Vec::new();
    let mut i: usize = 0;
    proof {
        assert(cs@.skip(0) =~= cs@);
        assert(span_texts(cs@, spans@) + tokens(cs@) =~= tokens(cs@));
    }
    while i < cs.len()
        invariant
            i <= cs@.len(),
            tokens(cs@) == span_texts(cs@, spans@) + tokens(cs@.skip(i as int)),
            forall|k: int|
                0 <= k < spans@.len() ==> (#[trigger] spans@[k]).0 < spans@[k].1 <= cs@.len(),
        decreases cs@.len() - i,
    {
        if is_space_char(cs[i]) {
            proof {
                assert(cs@.skip(i as int).drop_first() =~= cs@.skip(i as int + 1));
            }
            i = i + 1;
        } else {
            let start: usize = i;
            let mut j: usize = i + 1;
            while j < cs.len() && !is_space_char(cs[j])
                invariant
                    i < j <= cs@.len(),
                    i < cs@.len(),
                    !is_space(cs@[i as int]),
                    forall|k: int| i <= k < j ==> !is_space(cs@[k]),
                decreases cs@.len() - j,
            {
                j = j + 1;
            }
            proof {
                let rest = cs@.skip(i as int);
                assert(forall|k: int|
                    0 <= k < j - i ==> !is_space(#[trigger] rest[k]) && rest[k] == cs@[k + i]);
                lemma_token_len_at(rest, (j - i) as nat);
                assert(rest.take(j - i) =~= cs@.subrange(i as int, j as int));
                assert(rest.skip(j - i) =~= cs@.skip(j as int));
                assert(span_texts(cs@, spans@.push((start, j)))
                    =~= span_texts(cs@, spans@).push(cs@.subrange(i as int, j as int)));
                assert(span_texts(cs@, spans@).push(cs@.subrange(i as int, j as int)) + tokens(
                    cs@.skip(j as int),
                ) =~= span_texts(cs@, spans@) + (seq![cs@.subrange(i as int, j as int)] + tokens(
                    cs@.skip(j as int),
                )));
            }
            spans.push((start, j));
            i = j;
        }
    }
    proof {
        assert(tokens(cs@.skip(cs@.len() as int)) =~= Seq::<Seq<char>>::empty());
        assert(tokens(cs@) =~= span_texts(cs@, spans@));
    }
    spans
}

/// A decimal digit.
pub open spec fn is_digit(c: char) -> bool {
    0x30 <= c as u32 <= 0x39
}

/// The value of a decimal digit.
pub open spec fn digit_val(c: char) -> int {
    c as u32 - 0x30
}

/// Every character of `s` is a decimal digit.
pub open spec fn all_digits(s: Seq<char>) -> bool {
    forall|k: int| 0 <= k < s.len() ==> is_digit(#[trigger] s[k])
}

/// The number denoted by a sequence of decimal digits, most significant first.
pub open spec fn digits_val(s: Seq<char>) -> int
    decreases s.len(),
{
    if s.len() == 0 {
        0
    } else {
        digits_val(s.drop_last()) * 10 + digit_val(s.last())
    }
}

/// The token starts with an explicit sign character.
pub open spec fn has_sign(s: Seq<char>) -> bool {
    s.len() > 0 && (s[0] == '+' || s[0] == '-')
}

/// The digit portion of an integer token: what follows the optional sign.
pub open spec fn int_digits(s: Seq<char>) -> Seq<char> {
    if has_sign(s) {
        s.drop_first()
    } else {
        s
    }
}

/// The token denotes a negative number.
pub open spec fn is_negative_literal(s: Seq<char>) -> bool {
    s.len() > 0 && s[0] == '-'
}

/// An optional sign followed by at least one decimal digit.
pub open spec fn is_well_formed_int(s: Seq<char>) -> bool {
    int_digits(s).len() > 0 && all_digits(int_digits(s))
}

/// The integer a well-formed token denotes.
pub open spec fn int_val(s: Seq<char>) -> int {
    if is_negative_literal(s) {
        -digits_val(int_digits(s))
    } else {
        digits_val(int_digits(s))
    }
}

/// The token denotes an integer representable as an `i64`.
pub open spec fn is_i64_token(s: Seq<char>) -> bool {
    is_well_formed_int(s) && i64::MIN <= int_val(s) <= i64::MAX
}

/// The cause reported for a token that is not a valid `i64`.
pub open spec fn int_err_of(s: Seq<char>) -> IntParseError {
    if !is_well_formed_int(s) {
        IntParseError::InvalidDigit
    } else if int_val(s) > i64::MAX {
        IntParseError::PosOverflow
    } else {
        IntParseError::NegOverflow
    }
}

/// A digit string denotes a non-negative number.
proof fn lemma_digits_val_nonneg(s: Seq<char>)
    requires
        all_digits(s),
    ensures
        digits_val(s) >= 0,
    decreases s.len(),
{
    if s.len() > 0 {
        lemma_digits_val_nonneg(s.drop_last());
    }
}

/// Extending a digit string on the right never decreases its value.
proof fn lemma_digits_val_prefix_le(s: Seq<char>, n: int)
    requires
        all_digits(s),
        0 <= n <= s.len(),
    ensures
        digits_val(s.take(n)) <= digits_val(s),
    decreases s.len() - n,
{
    if n < s.len() {
        let t = s.take(n + 1);
        assert(t.drop_last() =~= s.take(n));
        assert(all_digits(s.take(n)));
        lemma_digits_val_nonneg(s.take(n));
        assert(digits_val(t) == digits_val(s.take(n)) * 10 + digit_val(s[n]));
        lemma_digits_val_prefix_le(s, n + 1);
    } else {
        assert(s.take(n) =~= s);
    }
}

/// Converts the characters `cs[start..end]` to an `i64`, or says exactly why
/// that token is not a valid `i64`.
#[verifier::loop_isolation(false)]
fn parse_i64_span(cs: &Vec<char>, start: usize, end: usize) -> (r: Result<i64, IntParseError>)
    requires
        start <= end <= cs@.len(),
    ensures
        ({
            let tok = cs@.subrange(start as int, end as int);
            match r {
                Ok(v) => is_i64_token(tok) && v as int == int_val(tok),
                Err(k) => !is_i64_token(tok) && k == int_err_of(tok),
            }
        }),
{
    let ghost tok = cs@.subrange(start as int, end as int);
    if start == end {
        return Err(IntParseError::InvalidDigit);
    }
    let mut first: usize = start;
    let mut neg: bool = false;
    let c0 = cs[start];
    if c0 == '+' {
        first = start + 1;
    } else if c0 == '-' {
        neg = true;
        first = start + 1;
    }
    let ghost digs = cs@.subrange(first as int, end as int);
    proof {
        assert(digs =~= int_digits(tok));
        assert(neg == is_negative_literal(tok));
    }
    if first == end {
        // a bare sign: no digits at all
        return Err(IntParseError::InvalidDigit);
    }
    let mut j: usize = first;
    while j < end
        invariant
            first <= j <= end <= cs@.len(),
            digs == cs@.subrange(first as int, end as int),
            forall|k: int| first <= k < j ==> is_digit(#[trigger] cs@[k]),
        decreases end - j,
    {
        let u = cs[j] as u32;
        if u < 0x30 || u > 0x39 {
            proof {
                assert(digs[j - first] == cs@[j as int]);
                assert(!all_digits(digs));
            }
            return Err(IntParseError::InvalidDigit);
        }
        j = j + 1;
    }
    proof {
        assert(forall|k: int| 0 <= k < digs.len() ==> #[trigger] digs[k] == cs@[k + first]);
        assert(all_digits(digs));
        assert(is_well_formed_int(tok));
    }
    let limit: u64 = if neg {
        9223372036854775808
    } else {
        9223372036854775807
    };
    let mut acc: u64 = 0;
    let mut j: usize = first;
    proof {
        assert(digs.take(0) =~= Seq::<char>::empty());
    }
    while j < end
        invariant
            first <= j <= end <= cs@.len(),
            digs == cs@.subrange(first as int, end as int),
            all_digits(digs),
            limit == (if neg {
                0x8000000000000000u64
            } else {
                0x7fffffffffffffffu64
            }),
            acc as int == digits_val(digs.take(j - first)),
            acc <= limit,
        decreases end - j,
    {
        let ghost prefix = digs.take(j - first);
        proof {
            assert(digs[j - first] == cs@[j as int]);
        }
        let c = cs[j];
        let d: u64 = (c as u32 - 0x30) as u64;
        let q: u64 = (limit - d) / 10;
        proof {
            vstd::arithmetic::div_mod::lemma_fundamental_div_mod((limit - d) as int, 10);
            vstd::arithmetic::div_mod::lemma_mod_bound((limit - d) as int, 10);
            assert(digs.take(j - first + 1).drop_last() =~= prefix);
            assert(digits_val(digs.take(j - first + 1)) == digits_val(prefix) * 10 + d);
        }
        if acc > q {
            proof {
                vstd::arithmetic::mul::lemma_mul_inequality(q as int + 1, acc as int, 10);
                assert(acc as int * 10 + d > limit);
                lemma_digits_val_prefix_le(digs, j - first + 1);
                assert(digits_val(digs) > limit);
            }
            return Err(
                if neg {
                    IntParseError::NegOverflow
                } else {
                    IntParseError::PosOverflow
                },
            );
        }
        proof {
            vstd::arithmetic::mul::lemma_mul_inequality(acc as int, q as int, 10);
            assert(acc as int * 10 + d <= limit);
        }
        acc = acc * 10 + d;
        j = j + 1;
    }
    proof {
        assert(digs.take(end - first) =~= digs);
        assert(acc as int == digits_val(digs));
    }
    if neg {
        if acc == 9223372036854775808 {
            Ok(i64::MIN)
        } else {
            Ok(-(acc as i64))
        }
    } else {
        Ok(acc as i64)
    }
}

/// Collects the characters of `s`, in order, into a vector.
pub(crate) fn chars_of(s: &str) -> (cs: Vec<char>)
    ensures
        cs@ == s@,
{
    let mut it = s.chars();
    let mut cs: Vec<char> = Vec::new();
    loop
        invariant
            cs@.len() <= s@.len(),
            cs@ == s@.take(cs@.len() as int),
            it.remaining() == s@.skip(cs@.len() as int),
        decreases s@.len() - cs@.len(),
    {
        match it.next() {
            Some(c) => {
                proof {
                    assert(s@.take(cs@.len() as int + 1) =~= s@.take(cs@.len() as int).push(c));
                    assert(s@.skip(cs@.len() as int).drop_first() =~= s@.skip(cs@.len() as int + 1));
                }
                cs.push(c);
            },
            None => {
                proof {
                    assert(cs@ =~= s@);
                }
                return cs;
            },
        }
    }
}

/// What a successful parse returns: `text` holds exactly `argc` tokens, every
/// token is a valid `i64`, and `vals` are their values in original order.
pub open spec fn parse_ok_post(argc: nat, text: Seq<char>, vals: Seq<i64>) -> bool {
    let toks = tokens(text);
    &&& toks.len() == argc
    &&& vals.len() == argc
    &&& forall|k: int|
        0 <= k < argc ==> is_i64_token(#[trigger] toks[k]) && vals[k] as int == int_val(toks[k])
}

/// When each parse error is returned: `ArgAmount` exactly when the token count
/// differs from `argc`; otherwise `ExternErr` with the first invalid token and
/// its cause.
pub open spec fn parse_err_post(argc: nat, text: Seq<char>, e: ParseArgError) -> bool {
    let toks = tokens(text);
    match e.kind {
        ArgErrorKind::ArgAmount((expected, actual)) => {
            &&& expected == argc
            &&& actual == toks.len()
            &&& toks.len() != argc
        },
        ArgErrorKind::ExternErr((token_text, cause)) => {
            &&& toks.len() == argc
            &&& exists|k: int|
                {
                    &&& 0 <= k < argc
                    &&& !is_i64_token(#[trigger] toks[k])
                    &&& forall|m: int| 0 <= m < k ==> is_i64_token(#[trigger] toks[m])
                    &&& token_text@ == toks[k]
                    &&& cause == int_err_of(toks[k])
                }
        },
    }
}

/// Splits `buff` on runs of whitespace and converts the tokens, in order, to
/// exactly `argc` signed 64-bit integers; fails with the token count on a
/// count mismatch, and with the first offending token on a conversion failure.
#[verifier::loop_isolation(false)]
pub fn parse_args(argc: usize, buff: &str) -> (r: Result<Vec<i64>, ParseArgError>)
    ensures
        match r {
            Ok(vals) => parse_ok_post(argc as nat, buff@, vals@),
            Err(e) => parse_err_post(argc as nat, buff@, e),
        },
{
    let cs = chars_of(buff);
    let spans = tokenize(&cs);
    if spans.len() != argc {
        return Err(ParseArgError { kind: ArgErrorKind::ArgAmount((argc, spans.len())) });
    }
    let mut vals: Vec<i64> = Vec::new();
    let mut idx: usize = 0;
    while idx < argc
        invariant
            idx <= argc,
            vals@.len() == idx,
            forall|k: int|
                0 <= k < idx ==> is_i64_token(#[trigger] tokens(cs@)[k]) && vals@[k] as int
                    == int_val(tokens(cs@)[k]),
        decreases argc - idx,
    {
        let (a, b) = spans[idx];
        match parse_i64_span(&cs, a, b) {
            Ok(v) => {
                vals.push(v);
            },
            Err(cause) => {
                let token_text = String::from_str(buff.substring_char(a, b));
                return Err(
                    ParseArgError { kind: ArgErrorKind::ExternErr((token_text, cause)) },
                );
            },
        }
        idx = idx + 1;
    }
    Ok(vals)
}

} // verus!

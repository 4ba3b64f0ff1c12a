//! The bounds-narrowing state machine: validated construction of an integer
//! range, binary-search guessing, and reply-driven adjustment.

use vstd::prelude::*;

verus! {

/// The current closed search interval, the pair it was built from, and how
/// many guesses have been issued.
#[derive(Debug)]
pub struct Bounds {
    lower: i64,
    upper: i64,
    initial_values: (i64, i64),
    tries: usize,
}

/// Mathematical state of a [`Bounds`] value.
pub struct BoundsView {
    pub lower: int,
    pub upper: int,
    pub initial: (int, int),
    pub tries: nat,
}

impl View for Bounds {
    type V = BoundsView;

    closed spec fn view(&self) -> BoundsView {
        BoundsView {
            lower: self.lower as int,
            upper: self.upper as int,
            initial: (self.initial_values.0 as int, self.initial_values.1 as int),
            tries: self.tries as nat,
        }
    }
}

/// How two optional bounds of a [`BoundsBuilder`] look to specifications.
pub struct BuilderView {
    pub lower: Option<int>,
    pub upper: Option<int>,
}

/// Accumulates the two bounds of a range before validated construction.
pub struct BoundsBuilder {
    lower: Option<i64>,
    upper: Option<i64>,
}

impl View for BoundsBuilder {
    type V = BuilderView;

    closed spec fn view(&self) -> BuilderView {
        BuilderView {
            lower: match self.lower {
                Some(v) => Some(v as int),
                None => None,
            },
            upper: match self.upper {
                Some(v) => Some(v as int),
                None => None,
            },
        }
    }
}

/// The caller's judgement of a guess: the guessed value was too high, too
/// low, or correct.
pub enum Reply {
    TooHigh(i64),
    TooLow(i64),
    Correct,
}

/// Error returned by the bounds engine.
#[derive(Debug)]
pub struct BoundsError {
    pub kind: BoundsErrorKind,
}

/// What went wrong while constructing or narrowing a range.
#[derive(Debug)]
pub enum BoundsErrorKind {
    /// Fewer raw values than a range needs.
    TooFew,
    /// The two raw bounds are identical.
    BoundsEqual,
    /// An adjustment made the lower bound exceed the upper: the feedback was
    /// contradictory, and the range is dead.
    BoundsOverlap,
    /// The builder was finalized with `lower >= upper`.
    BoundsInvalid,
    /// The builder was finalized before both bounds were set.
    Initialization,
    /// The raw text did not parse to the required integers.
    ParseArgs(crate::parseargs::ParseArgError),
}

impl From<crate::parseargs::ParseArgError> for BoundsError {
    /// Wraps a parser failure as a bounds-engine error.
    fn from(e: crate::parseargs::ParseArgError) -> (r: Self) {
        BoundsError { kind: BoundsErrorKind::ParseArgs(e) }
    }
}

impl vstd::std_specs::convert::FromSpecImpl<crate::parseargs::ParseArgError> for BoundsError {
    open spec fn obeys_from_spec() -> bool {
        true
    }

    open spec fn from_spec(e: crate::parseargs::ParseArgError) -> Self {
        BoundsError { kind: BoundsErrorKind::ParseArgs(e) }
    }
}

/// A distinct pair put in ascending order: the normalized range a raw pair
/// yields, whichever way round it was supplied.
pub open spec fn normalized_pair(a: int, b: int) -> (int, int) {
    if a < b {
        (a, b)
    } else {
        (b, a)
    }
}

/// Orders a pair of distinct values ascending.
fn order_neq_pair(a: i64, b: i64) -> (r: (i64, i64))
    ensures
        (r.0 as int, r.1 as int) == normalized_pair(a as int, b as int),
{
    if a < b {
        (a, b)
    } else {
        (b, a)
    }
}

/// What [`ToBounds::to_bounds`] returns for a source whose characters are
/// `text`: the fresh normalized range when `text` holds exactly two valid,
/// distinct integers; `BoundsEqual` when the two are equal; and the parser's
/// own error otherwise.
pub open spec fn to_bounds_post(text: Seq<char>, r: Result<Bounds, BoundsError>) -> bool {
    let toks = crate::parseargs::tokens(text);
    match r {
        Ok(b) => {
            &&& toks.len() == 2
            &&& crate::parseargs::is_i64_token(toks[0])
            &&& crate::parseargs::is_i64_token(toks[1])
            &&& crate::parseargs::int_val(toks[0]) != crate::parseargs::int_val(toks[1])
            &&& (b@.lower, b@.upper) == normalized_pair(
                crate::parseargs::int_val(toks[0]),
                crate::parseargs::int_val(toks[1]),
            )
            &&& b@.initial == (b@.lower, b@.upper)
            &&& b@.tries == 0
        },
        Err(e) => match e.kind {
            BoundsErrorKind::BoundsEqual => {
                &&& toks.len() == 2
                &&& crate::parseargs::is_i64_token(toks[0])
                &&& crate::parseargs::is_i64_token(toks[1])
                &&& crate::parseargs::int_val(toks[0]) == crate::parseargs::int_val(toks[1])
            },
            BoundsErrorKind::ParseArgs(pe) => crate::parseargs::parse_err_post(2, text, pe),
            _ => false,
        },
    }
}

/// Converts a raw source of two bounds into a validated range.
pub trait ToBounds {
    /// The characters the conversion reads.
    spec fn bounds_text(&self) -> Seq<char>;

    /// Parses two distinct integers out of the source and constructs the
    /// normalized range they bound.
    fn to_bounds(&self) -> (r: Result<Bounds, BoundsError>)
        ensures
            to_bounds_post(self.bounds_text(), r),
    ;
}

impl ToBounds for &str {
    open spec fn bounds_text(&self) -> Seq<char> {
        self@
    }

    fn to_bounds(&self) -> (r: Result<Bounds, BoundsError>) {
        let args: Vec<i64> = match crate::parseargs::parse_args(2, *self) {
            Ok(v) => v,
            Err(e) => {
                return Err(BoundsError { kind: BoundsErrorKind::ParseArgs(e) });
            },
        };
        if args[0] == args[1] {
            return Err(BoundsError { kind: BoundsErrorKind::BoundsEqual });
        }

        let ordered = order_neq_pair(args[0], args[1]);

        Bounds::build().lower(ordered.0).upper(ordered.1).create()
    }
}

/// The midpoint of `[lo, hi]`, biased toward `lo` when the span is odd: what
/// [`Bounds::guess`] proposes.
pub open spec fn mid_of(lo: int, hi: int) -> int {
    lo + (hi - lo) / 2
}

impl Bounds {
    /// The range is live: the interval `[lower, upper]` is non-empty (here
    /// strictly, as construction demands).
    fn is_valid(&self) -> (r: bool)
        ensures
            r == (self@.lower < self@.upper),
    {
        self.lower < self.upper
    }

    /// A fresh range `[lower, upper]` with no guesses issued yet.
    fn init(lower: i64, upper: i64) -> (r: Self)
        ensures
            r@.lower == lower as int,
            r@.upper == upper as int,
            r@.initial == (lower as int, upper as int),
            r@.tries == 0,
    {
        Bounds { lower, upper, initial_values: (lower, upper), tries: 0 }
    }

    /// The lower end of the current interval.
    pub fn lower(&self) -> (r: i64)
        ensures
            r as int == self@.lower,
    {
        self.lower
    }

    /// The upper end of the current interval.
    pub fn upper(&self) -> (r: i64)
        ensures
            r as int == self@.upper,
    {
        self.upper
    }

    /// The pair the range was constructed from, never mutated afterwards.
    pub fn init_vals(&self) -> (r: (i64, i64))
        ensures
            (r.0 as int, r.1 as int) == self@.initial,
    {
        self.initial_values
    }

    /// Proposes the binary-search midpoint of the current interval and counts
    /// the guess; the interval itself is untouched.
    pub fn guess(&mut self) -> (g: i64)
        requires
            old(self)@.lower <= old(self)@.upper,
            old(self)@.tries < usize::MAX,
        ensures
            g as int == mid_of(old(self)@.lower, old(self)@.upper),
            old(self)@.lower <= g as int <= old(self)@.upper,
            final(self)@.lower == old(self)@.lower,
            final(self)@.upper == old(self)@.upper,
            final(self)@.initial == old(self)@.initial,
            final(self)@.tries == old(self)@.tries + 1,
    {
        self.tries = self.tries + 1;

        let lo = self.lower as i128;
        let hi = self.upper as i128;
        let mid: i128 = ((hi - lo) / 2) + lo;
        mid as i64
    }

    /// How many guesses have been issued so far.
    pub fn tries(&self) -> (r: usize)
        ensures
            r as nat == self@.tries,
    {
        self.tries
    }

    /// Narrows the interval from a reply about a guessed value: `TooHigh(g)`
    /// excludes `g` and everything above it, `TooLow(g)` excludes `g` and
    /// everything below it. Fails with `BoundsOverlap` exactly when the new
    /// interval is empty: the replies given so far contradict each other.
    /// `Correct` must be handled by the caller instead of being passed here.
    pub fn adj_bounds(&mut self, re: Reply) -> (r: Result<(), BoundsError>)
        requires
            !(re is Correct),
            re matches Reply::TooHigh(g) ==> g > i64::MIN,
            re matches Reply::TooLow(g) ==> g < i64::MAX,
        ensures
            final(self)@.initial == old(self)@.initial,
            final(self)@.tries == old(self)@.tries,
            re matches Reply::TooHigh(g) ==> final(self)@.upper == g - 1 && final(self)@.lower
                == old(self)@.lower,
            re matches Reply::TooLow(g) ==> final(self)@.lower == g + 1 && final(self)@.upper
                == old(self)@.upper,
            r is Ok <==> final(self)@.lower <= final(self)@.upper,
            r matches Err(e) ==> e.kind is BoundsOverlap,
    {
        match re {
            Reply::TooHigh(val) => self.upper = val - 1,
            Reply::TooLow(val) => self.lower = val + 1,
            Reply::Correct => proof { assert(false); },
        };

        if self.lower <= self.upper {
            Ok(())
        } else {
            Err(BoundsError { kind: BoundsErrorKind::BoundsOverlap })
        }
    }

    /// Starts a builder with neither bound set.
    pub fn build() -> (r: BoundsBuilder)
        ensures
            r@.lower is None,
            r@.upper is None,
    {
        BoundsBuilder::new()
    }
}

impl BoundsBuilder {
    /// A builder with neither bound set.
    fn new() -> (r: Self)
        ensures
            r@.lower is None,
            r@.upper is None,
    {
        BoundsBuilder { lower: None, upper: None }
    }

    /// Sets the lower bound, leaving the upper bound as it was.
    pub fn lower(self, val: i64) -> (r: Self)
        ensures
            r@.lower == Some(val as int),
            r@.upper == self@.upper,
    {
        BoundsBuilder { lower: Some(val), upper: self.upper }
    }

    /// Sets the upper bound, leaving the lower bound as it was.
    pub fn upper(self, val: i64) -> (r: Self)
        ensures
            r@.upper == Some(val as int),
            r@.lower == self@.lower,
    {
        BoundsBuilder { lower: self.lower, upper: Some(val) }
    }

    /// Finalizes the builder: fails with `Initialization` exactly when a bound
    /// is missing, with `BoundsInvalid` exactly when `lower >= upper`, and
    /// otherwise returns the fresh range with no guesses issued.
    pub fn create(self) -> (r: Result<Bounds, BoundsError>)
        ensures
            match r {
                Ok(b) => {
                    &&& self@.lower is Some
                    &&& self@.upper is Some
                    &&& self@.lower->0 < self@.upper->0
                    &&& b@.lower == self@.lower->0
                    &&& b@.upper == self@.upper->0
                    &&& b@.initial == (self@.lower->0, self@.upper->0)
                    &&& b@.tries == 0
                },
                Err(e) => match e.kind {
                    BoundsErrorKind::Initialization => self@.lower is None || self@.upper is None,
                    BoundsErrorKind::BoundsInvalid => {
                        &&& self@.lower is Some
                        &&& self@.upper is Some
                        &&& self@.lower->0 >= self@.upper->0
                    },
                    _ => false,
                },
            },
    {
        let (lo, hi) = match (self.lower, self.upper) {
            (Some(lo), Some(hi)) => (lo, hi),
            _ => {
                return Err(BoundsError { kind: BoundsErrorKind::Initialization });
            },
        };

        let retval = Bounds::init(lo, hi);

        if retval.is_valid() {
            Ok(retval)
        } else {
            Err(BoundsError { kind: BoundsErrorKind::BoundsInvalid })
        }
    }
}

/// Law: intake of a distinct pair is order-independent. From `(a, b)` or
/// `(b, a)` the normalized range is the same, namely `[min(a, b), max(a, b)]`.
pub proof fn lemma_intake_order_independent(a: int, b: int)
    requires
        a != b,
    ensures
        normalized_pair(a, b) == normalized_pair(b, a),
        normalized_pair(a, b).0 == vstd::math::min(a, b),
        normalized_pair(a, b).1 == vstd::math::max(a, b),
{
}

/// How many guesses a game takes when every reply is truthful about a hidden
/// target `t` in `[lo, hi]`: each round proposes [`mid_of`] the interval, and
/// a `TooHigh`/`TooLow` reply narrows it exactly as [`Bounds::adj_bounds`]
/// does, until the guess hits `t`.
pub open spec fn search_tries(lo: int, hi: int, t: int) -> nat
    decreases hi - lo,
{
    if !(lo <= t <= hi) {
        0
    } else {
        let g = mid_of(lo, hi);
        if g == t {
            1
        } else if t < g {
            1 + search_tries(lo, g - 1, t)
        } else {
            1 + search_tries(g + 1, hi, t)
        }
    }
}

/// Law: truthful binary search converges. For a hidden target `t` in
/// `[lo, hi]`, replying `TooHigh`/`TooLow` consistently relative to `t` leads
/// to a guess equal to `t` within `k + 1` tries, where `2^k` exceeds the span
/// `hi - lo` (that is, within `ceil(log2(hi - lo + 1)) + 1` tries).
pub proof fn lemma_search_converges(lo: int, hi: int, t: int, k: nat)
    requires
        lo <= t <= hi,
        hi - lo < vstd::arithmetic::power2::pow2(k),
    ensures
        1 <= search_tries(lo, hi, t) <= k + 1,
    decreases k,
{
    let g = mid_of(lo, hi);
    if g != t {
        assert(vstd::arithmetic::power2::pow2(0) == 1) by {
            vstd::arithmetic::power::lemma_pow0(2);
        }
        assert(k >= 1);
        vstd::arithmetic::power2::lemma_pow2_unfold(k);
        let p = vstd::arithmetic::power2::pow2((k - 1) as nat);
        let d = hi - lo;
        vstd::arithmetic::div_mod::lemma_fundamental_div_mod(d, 2);
        vstd::arithmetic::div_mod::lemma_mod_bound(d, 2);
        if t < g {
            vstd::arithmetic::div_mod::lemma_div_is_ordered(d, 2 * p as int - 1, 2);
            vstd::arithmetic::div_mod::lemma_fundamental_div_mod(2 * p as int - 1, 2);
            vstd::arithmetic::div_mod::lemma_mod_bound(2 * p as int - 1, 2);
            lemma_search_converges(lo, g - 1, t, (k - 1) as nat);
        } else {
            lemma_search_converges(g + 1, hi, t, (k - 1) as nat);
        }
    }
}

/// `s` without its leading whitespace.
pub open spec fn trim_front(s: Seq<char>) -> Seq<char>
    decreases s.len(),
{
    if s.len() > 0 && crate::parseargs::is_space(s[0]) {
        trim_front(s.drop_first())
    } else {
        s
    }
}

/// `s` without its trailing whitespace.
pub open spec fn trim_back(s: Seq<char>) -> Seq<char>
    decreases s.len(),
{
    if s.len() > 0 && crate::parseargs::is_space(s.last()) {
        trim_back(s.drop_last())
    } else {
        s
    }
}

/// `s` without leading and trailing whitespace.
pub open spec fn trimmed(s: Seq<char>) -> Seq<char> {
    trim_back(trim_front(s))
}

/// Reads one line of feedback about a guessed value: after trimming
/// whitespace, `h`/`H` judges it too high, `l`/`L` too low, `c`/`C` correct;
/// anything else is no answer at all.
#[verifier::loop_isolation(false)]
pub fn get_answer(input: &str, guess: i64) -> (r: Option<Reply>)
    ensures
        ({
            let t = trimmed(input@);
            match r {
                Some(Reply::TooHigh(g)) => g == guess && (t == seq!['h'] || t == seq!['H']),
                Some(Reply::TooLow(g)) => g == guess && (t == seq!['l'] || t == seq!['L']),
                Some(Reply::Correct) => t == seq!['c'] || t == seq!['C'],
                None => !(t == seq!['h'] || t == seq!['H'] || t == seq!['l'] || t == seq!['L']
                    || t == seq!['c'] || t == seq!['C']),
            }
        }),
{
    let cs = crate::parseargs::chars_of(input);
    let mut a: usize = 0;
    proof {
        assert(cs@.skip(0) =~= cs@);
    }
    while a < cs.len() && crate::parseargs::is_space_char(cs[a])
        invariant
            a <= cs@.len(),
            trim_front(cs@) == trim_front(cs@.skip(a as int)),
        decreases cs@.len() - a,
    {
        proof {
            assert(cs@.skip(a as int).drop_first() =~= cs@.skip(a as int + 1));
        }
        a = a + 1;
    }
    proof {
        assert(trim_front(cs@) =~= cs@.skip(a as int));
    }
    let mut b: usize = cs.len();
    while b > a && crate::parseargs::is_space_char(cs[b - 1])
        invariant
            a <= b <= cs@.len(),
            trim_back(cs@.skip(a as int)) == trim_back(cs@.subrange(a as int, b as int)),
        decreases b,
    {
        proof {
            assert(cs@.subrange(a as int, b as int).drop_last() =~= cs@.subrange(
                a as int,
                b as int - 1,
            ));
        }
        b = b - 1;
    }
    proof {
        assert(trimmed(cs@) =~= cs@.subrange(a as int, b as int));
    }
    if b - a == 1 {
        let c = cs[a];
        proof {
            assert(trimmed(cs@) =~= seq![cs@[a as int]]);
        }
        if c == 'h' || c == 'H' {
            return Some(Reply::TooHigh(guess));
        }
        if c == 'l' || c == 'L' {
            return Some(Reply::TooLow(guess));
        }
        if c == 'c' || c == 'C' {
            return Some(Reply::Correct);
        }
    }
    None
}

} // verus!


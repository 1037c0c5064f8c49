//! Text in, exact rational out — and back again for display.
//!
//! Everything inward of this border is a [`Rational`] and stays exact;
//! everything outward is a string a person reads. There is no floating point
//! on either path: parsing through one would put a rounding step between
//! what the cook typed and what the cart adds up.
//!
//! Rendering, unlike parsing, cannot always be exact — a quantity that came
//! out of an imperial conversion is `28349523125/1000000000` grams and no
//! human wants to read it. So a rendered amount says whether it is the exact
//! value or a rounded one, and the UI can mark the difference.

use vstd::prelude::*;

use crate::client::error::AppError;
use crate::rational::{
    abs, denotes, from_int, lemma_add_whole, lemma_div_whole, lemma_from_int, lemma_in_range,
    lemma_make_denotes, lemma_make_fits, lemma_make_parts_shrink, lemma_same_ratio_trans, make,
    Rational, BOUND,
};
use crate::sync::key::{pieces, words};
use crate::text::{
    is_space, lead_spaces, trail_spaces, chars_of, decimal, digit, digit_char, push_decimal_wide, push_str, string_of, trim_chars, trimmed,
};

verus! {

/// The denominators a recipe is actually written in: halves, thirds,
/// quarters, and their subdivisions. These render as fractions — "1 1/2" is
/// how a cook writes it and "1.5" is how a spreadsheet does. Tenths and
/// fifths are deliberately absent: 1300 g of flour is "1.3 kg" to everyone.
pub const FRACTIONS: [i128; 7] = [2, 3, 4, 6, 8, 12, 16];

/// Hundredths: the decimals kept when a value cannot be a tidy fraction. Two
/// is where a kitchen scale stops caring.
pub const DECIMALS: i128 = 100;

/// The most digits after the point an amount may have.
pub const MAX_DECIMALS: usize = 38;

/// A rendered amount, and whether anything was lost rendering it.
#[derive(Debug, Clone, PartialEq, Eq)]
pub struct Rendered {
    pub text: String,
    pub approximate: bool,
}

/// Whether `c` is an ASCII digit.
pub open spec fn is_digit(c: char) -> bool {
    '0' <= c <= '9'
}

/// Every character of `s` is an ASCII digit.
pub open spec fn all_digits(s: Seq<char>) -> bool {
    forall|i: int| 0 <= i < s.len() ==> is_digit(#[trigger] s[i])
}

/// The number the digits `s` spell.
pub open spec fn digits_value(s: Seq<char>) -> nat
    decreases s.len(),
{
    if s.len() == 0 {
        0
    } else {
        digits_value(s.drop_last()) * 10 + (s.last() as nat - '0' as nat) as nat
    }
}

/// `10^k`.
pub open spec fn pow10(k: nat) -> nat
    decreases k,
{
    if k == 0 {
        1
    } else {
        10 * pow10((k - 1) as nat)
    }
}

/// A whole number written in digits, within the bounds.
pub open spec fn spec_integer(s: Seq<char>) -> Option<Rational> {
    if s.len() > 0 && all_digits(s) && digits_value(s) <= BOUND {
        Some(from_int(digits_value(s) as int))
    } else {
        None
    }
}

/// Where the first `c` in `s` is.
pub open spec fn first_index(s: Seq<char>, c: char) -> Option<int> {
    if exists|i: int| 0 <= i < s.len() && s[i] == c {
        Some(choose|i: int| 0 <= i < s.len() && s[i] == c && forall|j: int| 0 <= j < i ==> s[j] != c)
    } else {
        None
    }
}

/// `n/d` written as two whole numbers around a slash; `None` for a zero
/// denominator or anything else.
pub open spec fn spec_fraction(s: Seq<char>) -> Option<Rational> {
    match first_index(s, '/') {
        None => None,
        Some(i) => match (spec_integer(s.take(i)), spec_integer(s.skip(i + 1))) {
            (Some(n), Some(d)) => if d.num() == 0 {
                None
            } else {
                n.spec_div(d)
            },
            _ => None,
        },
    }
}

/// A decimal number: digits, a point, digits, either side possibly empty but
/// not both. The denominator is a power of ten, so nothing is approximated on
/// the way in.
pub open spec fn spec_decimal(s: Seq<char>) -> Option<Rational> {
    let (whole, fraction) = match first_index(s, '.') {
        Some(i) => (s.take(i), s.skip(i + 1)),
        None => (s, Seq::<char>::empty()),
    };
    if whole.len() == 0 && fraction.len() == 0 {
        None
    } else if !all_digits(whole) || !all_digits(fraction) {
        None
    } else if fraction.len() > MAX_DECIMALS || digits_value(whole) > BOUND {
        None
    } else if digits_value(whole) * pow10(fraction.len()) + digits_value(fraction) > BOUND {
        None
    } else {
        make(
            (digits_value(whole) * pow10(fraction.len()) + digits_value(fraction)) as int,
            pow10(fraction.len()) as int,
        )
    }
}

/// One term: a fraction if it has a slash, a decimal otherwise.
pub open spec fn spec_term(s: Seq<char>) -> Option<Rational> {
    if exists|i: int| 0 <= i < s.len() && s[i] == '/' {
        spec_fraction(s)
    } else {
        spec_decimal(s)
    }
}

/// `s` with every comma made a point: the French keyboard's decimal comma.
pub open spec fn commas_to_points(s: Seq<char>) -> Seq<char> {
    Seq::new(s.len(), |i: int| if s[i] == ',' { '.' } else { s[i] })
}

/// The amount a person typed: one term, or a whole number and a fraction —
/// "1 1/2", the way a recipe writes it.
pub open spec fn spec_amount(raw: Seq<char>) -> Option<Rational> {
    let parts = words(commas_to_points(trimmed(raw)));
    if parts.len() == 2 {
        match (spec_integer(parts[0]), spec_fraction(parts[1])) {
            (Some(w), Some(f)) => w.spec_add(f),
            _ => None,
        }
    } else if parts.len() == 1 {
        spec_term(parts[0])
    } else {
        None
    }
}

/// How a string is spelled by `{:?}`: quoted, with its special characters
/// escaped.
pub uninterp spec fn debug_form(s: Seq<char>) -> Seq<char>;

/// `format!("{:?}", s)` for a string: claims only that the result is the one
/// [`debug_form`] names.
#[verifier::external_body]
pub(crate) fn debug_quoted(s: &str) -> (r: String)
    ensures
        r@ == debug_form(s@),
{
    format!("{s:?}")
}

/// The number spelled by ASCII digits, if it is within the bounds.
fn digits_of(s: &Vec<char>, from: usize, to: usize) -> (r: Option<i128>)
    requires
        from <= to <= s@.len(),
    ensures
        match r {
            Some(v) => all_digits(s@.subrange(from as int, to as int)) && v == digits_value(
                s@.subrange(from as int, to as int),
            ) && v <= BOUND,
            None => !all_digits(s@.subrange(from as int, to as int)) || digits_value(
                s@.subrange(from as int, to as int),
            ) > BOUND,
        },
{
    let mut v: i128 = 0;
    let mut i: usize = from;
    while i < to
        invariant
            from <= i <= to <= s@.len(),
            all_digits(s@.subrange(from as int, i as int)),
            v == digits_value(s@.subrange(from as int, i as int)),
            0 <= v <= BOUND,
        decreases to - i,
    {
        let c = s[i];
        let ghost sub = s@.subrange(from as int, i + 1);
        proof {
            assert(sub.drop_last() =~= s@.subrange(from as int, i as int));
            assert(sub.last() == c);
        }
        if !('0' <= c && c <= '9') {
            proof {
                let whole = s@.subrange(from as int, to as int);
                assert(whole[i - from] == c);
            }
            return None;
        }
        let d: i128 = (c as u32 - '0' as u32) as i128;
        if v > (BOUND - d) / 10 {
            proof {
                let whole = s@.subrange(from as int, to as int);
                if all_digits(whole) {
                    lemma_digits_grow(whole, (i - from + 1) as int);
                    assert(whole.take(i - from + 1) =~= sub);
                }
            }
            return None;
        }
        v = v * 10 + d;
        proof {
            assert forall|j: int| 0 <= j < sub.len() implies is_digit(#[trigger] sub[j]) by {
                if j < sub.len() - 1 {
                    assert(sub[j] == s@.subrange(from as int, i as int)[j]);
                }
            }
        }
        i = i + 1;
    }
    Some(v)
}

/// Digits never spell less than a prefix of them does.
pub(crate) proof fn lemma_digits_grow(s: Seq<char>, k: int)
    requires
        0 <= k <= s.len(),
        all_digits(s),
    ensures
        digits_value(s) >= digits_value(s.take(k)),
    decreases s.len() - k,
{
    if k < s.len() {
        lemma_digits_grow(s, k + 1);
        let t = s.take(k + 1);
        assert(t.drop_last() =~= s.take(k));
        assert(is_digit(s[k]));
    } else {
        assert(s.take(k) =~= s);
    }
}

fn is_all_digits(s: &Vec<char>, from: usize, to: usize) -> (b: bool)
    requires
        from <= to <= s@.len(),
    ensures
        b == all_digits(s@.subrange(from as int, to as int)),
{
    let mut i: usize = from;
    while i < to
        invariant
            from <= i <= to <= s@.len(),
            all_digits(s@.subrange(from as int, i as int)),
        decreases to - i,
    {
        if !('0' <= s[i] && s[i] <= '9') {
            proof {
                assert(s@.subrange(from as int, to as int)[i - from] == s@[i as int]);
            }
            return false;
        }
        proof {
            let sub = s@.subrange(from as int, i + 1);
            assert forall|j: int| 0 <= j < sub.len() implies is_digit(#[trigger] sub[j]) by {
                if j < sub.len() - 1 {
                    assert(sub[j] == s@.subrange(from as int, i as int)[j]);
                }
            }
        }
        i = i + 1;
    }
    true
}

/// Where the first `c` is in `s`, if anywhere.
fn find_char(s: &Vec<char>, c: char) -> (r: Option<usize>)
    ensures
        match (r, first_index(s@, c)) {
            (Some(i), Some(j)) => i == j,
            (None, None) => true,
            _ => false,
        },
        r is Some ==> r->0 < s@.len() && s@[r->0 as int] == c,
{
    let mut i: usize = 0;
    while i < s.len()
        invariant
            i <= s@.len(),
            forall|j: int| 0 <= j < i ==> s@[j] != c,
        decreases s@.len() - i,
    {
        if s[i] == c {
            proof {
                let k = choose|k: int| 0 <= k < s@.len() && s@[k] == c && forall|j: int| 0 <= j < k ==> s@[j] != c;
                assert(k == i) by {
                    if k < i {
                        assert(s@[k] != c);
                    }
                    if k > i {
                        assert(s@[i as int] != c);
                    }
                }
            }
            return Some(i);
        }
        i = i + 1;
    }
    None
}

fn integer(s: &Vec<char>, from: usize, to: usize) -> (r: Option<Rational>)
    requires
        from <= to <= s@.len(),
    ensures
        r == spec_integer(s@.subrange(from as int, to as int)),
{
    if from == to {
        return None;
    }
    match digits_of(s, from, to) {
        Some(v) => Some(Rational::from_integer(v)),
        None => None,
    }
}

fn fraction_of(s: &Vec<char>) -> (r: Option<Rational>)
    ensures
        r == spec_fraction(s@),
{
    let len = s.len();
    let slash = match find_char(s, '/') {
        Some(i) => i,
        None => return None,
    };
    proof {
        assert(first_index(s@, '/') == Some(slash as int));
        assert(s@.take(slash as int) =~= s@.subrange(0, slash as int));
        assert(s@.skip(slash + 1) =~= s@.subrange(slash + 1, s@.len() as int));
    }
    let n = match integer(s, 0, slash) {
        Some(n) => n,
        None => return None,
    };
    let d = match integer(s, slash + 1, len) {
        Some(d) => d,
        None => return None,
    };
    if d.is_zero() {
        return None;
    }
    n.checked_div(&d)
}

proof fn lemma_pow10_positive(k: nat)
    ensures
        pow10(k) >= 1,
    decreases k,
{
    if k > 0 {
        lemma_pow10_positive((k - 1) as nat);
    }
}

#[verifier::spinoff_prover]
#[verifier::rlimit(40)]
fn decimal_of(s: &Vec<char>) -> (r: Option<Rational>)
    ensures
        r == spec_decimal(s@),
{
    let len = s.len();
    let (wend, fstart) = match find_char(s, '.') {
        Some(i) => (i, i + 1),
        None => (s.len(), s.len()),
    };
    let ghost whole = s@.subrange(0, wend as int);
    let ghost fraction = s@.subrange(fstart as int, s@.len() as int);
    proof {
        match first_index(s@, '.') {
            Some(i) => {
                assert(s@.take(i) =~= whole);
                assert(s@.skip(i + 1) =~= fraction);
            },
            None => {
                assert(s@ =~= whole);
                assert(fraction =~= Seq::<char>::empty());
            },
        }
    }
    if wend == 0 && fstart == s.len() {
        return None;
    }
    if !is_all_digits(s, 0, wend) || !is_all_digits(s, fstart, s.len()) {
        return None;
    }
    let flen = s.len() - fstart;
    if flen > MAX_DECIMALS {
        return None;
    }
    let w = match digits_of(s, 0, wend) {
        Some(w) => w,
        None => return None,
    };
    proof {
        lemma_pow10_bound(flen as nat);
        lemma_digits_below_pow10(fraction);
    }
    let f = match digits_of(s, fstart, s.len()) {
        Some(f) => f,
        None => return None,
    };
    let mut scale: i128 = 1;
    let mut k: usize = 0;
    while k < flen
        invariant
            k <= flen <= MAX_DECIMALS,
            scale == pow10(k as nat),
            scale <= 100_000_000_000_000_000_000_000_000_000_000_000_000,
        decreases flen - k,
    {
        proof {
            lemma_pow10_bound(k as nat);
        }
        scale = scale * 10;
        k = k + 1;
    }
    proof {
        lemma_pow10_bound(flen as nat);
        lemma_pow10_positive(flen as nat);
        lemma_digits_below_pow10(fraction);
        assert(0 <= w * scale) by (nonlinear_arith)
            requires
                0 <= w,
                1 <= scale,
        ;
    }
    let v = match w.checked_mul(scale) {
        Some(x) => match x.checked_add(f) {
            Some(v) => v,
            None => return None,
        },
        None => return None,
    };
    Rational::reduce(v, scale)
}

proof fn lemma_pow10_bound(k: nat)
    requires
        k <= MAX_DECIMALS,
    ensures
        pow10(k) <= 100_000_000_000_000_000_000_000_000_000_000_000_000,
        k < MAX_DECIMALS ==> pow10(k) <= 10_000_000_000_000_000_000_000_000_000_000_000_000,
{
    reveal_with_fuel(pow10, 39);
    assert(pow10(37) == 10_000_000_000_000_000_000_000_000_000_000_000_000);
    assert(pow10(38) == 100_000_000_000_000_000_000_000_000_000_000_000_000);
    if k < MAX_DECIMALS {
        lemma_pow10_grows(k, 37);
    } else {
        lemma_pow10_grows(k, 38);
    }
}

/// More digits, a larger power of ten.
proof fn lemma_pow10_grows(i: nat, j: nat)
    requires
        i <= j,
    ensures
        pow10(i) <= pow10(j),
    decreases j,
{
    if i < j {
        lemma_pow10_grows(i, (j - 1) as nat);
    }
}

/// Digits spell less than ten to the power of their count.
proof fn lemma_digits_below_pow10(s: Seq<char>)
    requires
        all_digits(s),
    ensures
        digits_value(s) < pow10(s.len()),
    decreases s.len(),
{
    if s.len() > 0 {
        let rest = s.drop_last();
        assert forall|i: int| 0 <= i < rest.len() implies is_digit(#[trigger] rest[i]) by {
            assert(rest[i] == s[i]);
        }
        lemma_digits_below_pow10(rest);
        assert(is_digit(s[s.len() - 1]));
    }
}

fn term(s: &Vec<char>) -> (r: Option<Rational>)
    ensures
        r == spec_term(s@),
{
    match find_char(s, '/') {
        Some(_) => fraction_of(s),
        None => {
            proof {
                if exists|i: int| 0 <= i < s@.len() && s@[i] == '/' {
                    assert(first_index(s@, '/') is Some);
                }
            }
            decimal_of(s)
        },
    }
}

/// The words of `s`, split on runs of white space.
fn split_words(s: &Vec<char>) -> (r: Vec<Vec<char>>)
    ensures
        r@.len() == words(s@).len(),
        forall|i: int| 0 <= i < r@.len() ==> (#[trigger] r@[i])@ == words(s@)[i],
{
    let mut out: Vec<Vec<char>> = Vec::new();
    let mut cur: Vec<char> = Vec::new();
    let ghost mut done: Seq<Seq<char>> = seq![];
    let mut i: usize = 0;
    proof {
        assert(s@.skip(0) =~= s@);
    }
    while i < s.len()
        invariant
            i <= s@.len(),
            done + pieces(s@.skip(i as int), cur@, true) == words(s@),
            out@.len() == done.len(),
            forall|k: int| 0 <= k < out@.len() ==> (#[trigger] out@[k])@ == done[k],
        decreases s@.len() - i,
    {
        proof {
            assert(s@.skip(i as int)[0] == s@[i as int]);
            assert(s@.skip(i as int).drop_first() =~= s@.skip(i + 1));
        }
        if crate::text::char_is_space(s[i]) {
            if cur.len() > 0 {
                proof {
                    let rest = pieces(s@.skip(i + 1), seq![], true);
                    assert(done.push(cur@) + rest =~= done + (seq![cur@] + rest));
                    done = done.push(cur@);
                }
                out.push(cur);
                cur = Vec::new();
                proof {
                    assert(cur@ =~= Seq::<char>::empty());
                }
            } else {
                proof {
                    assert(cur@ =~= Seq::<char>::empty());
                }
            }
        } else {
            cur.push(s[i]);
        }
        i = i + 1;
    }
    proof {
        assert(s@.skip(i as int) =~= Seq::<char>::empty());
    }
    if cur.len() > 0 {
        proof {
            assert(done.push(cur@) =~= done + seq![cur@]);
            done = done.push(cur@);
        }
        out.push(cur);
    } else {
        proof {
            assert(done + Seq::<Seq<char>>::empty() =~= done);
        }
    }
    out
}

/// Reads an amount a person typed: `200`, `1.5`, `1,5`, `1/2`, `1 1/2`.
///
/// The comma is accepted because the app is used in French and that is what
/// the keyboard offers. Anything that is not an amount, and any amount not
/// greater than zero, is refused with a message for the person typing it.
pub fn parse_amount(field: &'static str, raw: &str) -> (r: Result<Rational, AppError>)
    ensures
        match spec_amount(raw@) {
            None => (r matches Err(AppError::Invalid { field: f, detail }) && f == field && detail@
                == debug_form(raw@) + " is not an amount \u{2014} try 200, 1.5 or 1/2"@),
            Some(v) => if v.num() <= 0 {
                (r matches Err(AppError::Invalid { field: f, detail }) && f == field && detail@
                    == "an amount must be greater than zero"@)
            } else {
                r == Ok::<Rational, AppError>(v)
            },
        },
{
    let chars = chars_of(raw);
    let t = trim_chars(&chars);
    let mut text: Vec<char> = Vec::new();
    let mut i: usize = 0;
    while i < t.len()
        invariant
            i <= t@.len(),
            text@ == commas_to_points(t@).take(i as int),
        decreases t@.len() - i,
    {
        let c = if t[i] == ',' {
            '.'
        } else {
            t[i]
        };
        text.push(c);
        proof {
            assert(commas_to_points(t@).take(i + 1) =~= commas_to_points(t@).take(i as int).push(c));
        }
        i = i + 1;
    }
    proof {
        assert(commas_to_points(t@).take(i as int) =~= commas_to_points(t@));
    }
    let parts = split_words(&text);
    let value = if parts.len() == 2 {
        match (integer(&parts[0], 0, parts[0].len()), fraction_of(&parts[1])) {
            (Some(w), Some(f)) => w.checked_add(&f),
            _ => None,
        }
    } else if parts.len() == 1 {
        term(&parts[0])
    } else {
        None
    };
    proof {
        if parts@.len() >= 1 {
            assert(parts@[0]@.subrange(0, parts@[0]@.len() as int) =~= parts@[0]@);
        }
    }
    let value = match value {
        Some(v) => v,
        None => {
            let mut detail: Vec<char> = Vec::new();
            let quoted = debug_quoted(raw);
            push_str(&mut detail, quoted.as_str());
            push_str(&mut detail, " is not an amount \u{2014} try 200, 1.5 or 1/2");
            return Err(AppError::invalid(field, string_of(&detail)));
        },
    };
    if value.numer() <= 0 {
        let mut detail: Vec<char> = Vec::new();
        push_str(&mut detail, "an amount must be greater than zero");
        proof {
            assert(detail@ =~= "an amount must be greater than zero"@);
        }
        return Err(AppError::invalid(field, string_of(&detail)));
    }
    Ok(value)
}


/// `s`, behind a minus sign when `negative`.
pub open spec fn signed(negative: bool, s: Seq<char>) -> Seq<char> {
    if negative {
        seq!['-'] + s
    } else {
        s
    }
}

/// The denominators that render as fractions: the values of [`FRACTIONS`].
pub open spec fn kitchen(d: int) -> bool {
    d == 2 || d == 3 || d == 4 || d == 6 || d == 8 || d == 12 || d == 16
}

/// `n / d` in hundredths, rounded to the nearest, half-way cases away from
/// zero.
pub open spec fn hundredths(n: int, d: int) -> int {
    let a = (200 * abs(n) + d) / (2 * d);
    if n < 0 {
        -a
    } else {
        a
    }
}

/// Whether `n / d` is a whole number of hundredths.
pub open spec fn whole_hundredths(n: int, d: int) -> bool {
    (100 * (abs(n) as int)) % d == 0
}

/// A number of hundredths below a hundred, written after a point: a single
/// digit for a whole tenth, two digits otherwise.
pub open spec fn cents_text(c: int) -> Seq<char> {
    if c % 10 == 0 {
        seq!['.', digit(c / 10)]
    } else {
        seq!['.', digit(c / 10), digit(c % 10)]
    }
}

/// What [`render`] shows for `n / d` (in lowest terms, `d > 0`).
pub open spec fn render_text(n: int, d: int) -> Seq<char> {
    if d == 1 {
        signed(n < 0, decimal(abs(n)))
    } else if kitchen(d) {
        let w = (abs(n) as int) / d;
        let r = (abs(n) as int) % d;
        signed(
            n < 0,
            if w == 0 {
                decimal(r as nat) + seq!['/'] + decimal(d as nat)
            } else {
                decimal(w as nat) + seq![' '] + decimal(r as nat) + seq!['/'] + decimal(d as nat)
            },
        )
    } else {
        let h = hundredths(n, d);
        let w = (abs(h) as int) / 100;
        let c = (abs(h) as int) % 100;
        signed(
            h < 0,
            if c == 0 {
                decimal(w as nat)
            } else {
                decimal(w as nat) + cents_text(c)
            },
        )
    }
}

/// Whether [`render`] rounds `n / d`: only a value that is neither whole nor
/// a kitchen fraction nor a whole number of hundredths.
pub open spec fn render_rounds(n: int, d: int) -> bool {
    d != 1 && !kitchen(d) && !whole_hundredths(n, d)
}

/// `n/d` as two whole numbers around a slash.
pub open spec fn raw_fraction(n: int, d: int) -> Seq<char> {
    signed(n < 0, decimal(abs(n))) + seq!['/'] + decimal(d as nat)
}

/// Whether `d` is one of [`FRACTIONS`].
fn is_kitchen(d: i128) -> (b: bool)
    ensures
        b == kitchen(d as int),
{
    let fractions = FRACTIONS;
    let mut i: usize = 0;
    while i < 7
        invariant
            i <= 7,
            fractions@ == seq![2i128, 3, 4, 6, 8, 12, 16],
            forall|j: int| 0 <= j < i ==> fractions@[j] != d,
        decreases 7 - i,
    {
        if fractions[i] == d {
            return true;
        }
        i = i + 1;
    }
    proof {
        assert(fractions@[0] != d && fractions@[1] != d && fractions@[2] != d);
        assert(fractions@[3] != d && fractions@[4] != d && fractions@[5] != d && fractions@[6] != d);
    }
    false
}

/// Appends `-` to `out` when `negative`.
fn push_sign(out: &mut Vec<char>, negative: bool)
    ensures
        final(out)@ == old(out)@ + (if negative {
            seq!['-']
        } else {
            Seq::<char>::empty()
        }),
{
    if negative {
        out.push('-');
    } else {
        proof {
            assert(old(out)@ + Seq::<char>::empty() =~= old(out)@);
        }
    }
}

fn exact(text: String) -> (r: Rendered)
    ensures
        r.text@ == text@,
        !r.approximate,
{
    Rendered { text, approximate: false }
}

/// The way round a person reads an amount.
///
/// Whole numbers stay whole, small denominators stay fractions, and anything
/// else becomes a two-decimal approximation that says so: 1/20 is 0.05 and
/// nothing is lost, while 1/7 is not and the caller deserves to know.
pub fn render(value: Rational) -> (r: Rendered)
    ensures
        r.text@ == render_text(value.num(), value.den()),
        r.approximate == render_rounds(value.num(), value.den()),
{
    let numer = value.numer();
    let denom = value.denom();
    let an: u128 = if numer < 0 {
        (-numer) as u128
    } else {
        numer as u128
    };
    let ud = denom as u128;
    let mut out: Vec<char> = Vec::new();
    if denom == 1 {
        push_sign(&mut out, numer < 0);
        push_decimal_wide(&mut out, an);
        proof {
            assert(out@ =~= render_text(value.num(), value.den()));
        }
        return exact(string_of(&out));
    }
    let whole = an / ud;
    let rest = an % ud;
    if is_kitchen(denom) {
        push_sign(&mut out, numer < 0);
        let ghost start = out@;
        if whole != 0 {
            push_decimal_wide(&mut out, whole);
            out.push(' ');
        }
        push_decimal_wide(&mut out, rest);
        out.push('/');
        push_decimal_wide(&mut out, ud);
        proof {
            let w = (abs(value.num()) as int) / value.den();
            let rr = (abs(value.num()) as int) % value.den();
            if whole != 0 {
                assert(out@ =~= start + (decimal(w as nat) + seq![' '] + decimal(rr as nat)
                    + seq!['/'] + decimal(value.den() as nat)));
            } else {
                assert(out@ =~= start + (decimal(rr as nat) + seq!['/'] + decimal(
                    value.den() as nat,
                )));
            }
            assert(out@ =~= render_text(value.num(), value.den()));
        }
        return exact(string_of(&out));
    }
    let (tenths, r1) = times_ten_over(rest, ud);
    let (digit2, r2) = times_ten_over(r1, ud);
    let below = 10 * tenths + digit2;
    let up = r2 >= ud - r2;
    let c1 = if up {
        below + 1
    } else {
        below
    };
    proof {
        lemma_rounded_hundredths(
            an as int,
            ud as int,
            whole as int,
            rest as int,
            tenths as int,
            r1 as int,
            digit2 as int,
            r2 as int,
        );
        assert(whole <= an);
    }
    let (w, cents) = if c1 == 100 {
        (whole + 1, 0u128)
    } else {
        (whole, c1)
    };
    let negative = numer < 0 && (w != 0 || cents != 0);
    push_sign(&mut out, negative);
    let ghost start = out@;
    push_decimal_wide(&mut out, w);
    if cents != 0 {
        out.push('.');
        out.push(digit_char((cents / 10) as u8));
        if cents % 10 != 0 {
            out.push(digit_char((cents % 10) as u8));
        }
    }
    proof {
        let h = hundredths(value.num(), value.den());
        assert(abs(h) == 100 * w + cents);
        assert((h < 0) == negative);
        assert((abs(h) as int) / 100 == w as int);
        assert((abs(h) as int) % 100 == cents as int);
        if cents != 0 {
            assert(out@ =~= start + (decimal(w as nat) + cents_text(cents as int)));
        }
        assert(out@ =~= render_text(value.num(), value.den()));
    }
    Rendered { text: string_of(&out), approximate: r2 != 0 }
}

/// One step of long division: `10·r` over `d`, for a remainder `r < d`.
fn times_ten_over(r: u128, d: u128) -> (qr: (u128, u128))
    requires
        r < d <= 0x7fff_ffff_ffff_ffff_ffff_ffff_ffff_ffff,
    ensures
        10 * r == qr.0 * d + qr.1,
        qr.1 < d,
        qr.0 < 10,
{
    let mut q: u128 = 0;
    let mut acc: u128 = 0;
    let mut i: u128 = 0;
    while i < 10
        invariant
            i <= 10,
            r < d <= 0x7fff_ffff_ffff_ffff_ffff_ffff_ffff_ffff,
            acc < d,
            q <= i,
            i * r == q * d + acc,
        decreases 10 - i,
    {
        proof {
            assert((i + 1) * r == i * r + r) by (nonlinear_arith);
        }
        acc = acc + r;
        if acc >= d {
            acc = acc - d;
            proof {
                assert((q + 1) * d == q * d + d) by (nonlinear_arith);
            }
            q = q + 1;
        }
        i = i + 1;
    }
    proof {
        assert(q < 10) by (nonlinear_arith)
            requires
                10 * r == q * d + acc,
                r < d,
                acc >= 0,
                q >= 0,
        ;
    }
    (q, acc)
}

/// The rounded hundredths of `n / d`, worked out digit by digit from the
/// whole part `w` and the remainder `r`.
proof fn lemma_rounded_hundredths(
    n: int,
    d: int,
    w: int,
    r: int,
    t1: int,
    r1: int,
    t2: int,
    r2: int,
)
    requires
        n >= 0,
        d >= 2,
        w == n / d,
        r == n % d,
        10 * r == t1 * d + r1,
        0 <= r1 < d,
        10 * r1 == t2 * d + r2,
        0 <= r2 < d,
        0 <= t1 < 10,
        0 <= t2 < 10,
    ensures
        (200 * n + d) / (2 * d) == 100 * w + 10 * t1 + t2 + (if r2 >= d - r2 { 1int } else { 0 }),
        (100 * n) % d == r2,
        10 * t1 + t2 + (if r2 >= d - r2 { 1int } else { 0 }) <= 100,
{
    vstd::arithmetic::div_mod::lemma_fundamental_div_mod(n, d);
    let c0 = 10 * t1 + t2;
    let up: int = if r2 >= d - r2 { 1 } else { 0 };
    assert(100 * r == c0 * d + r2) by (nonlinear_arith)
        requires
            10 * r == t1 * d + r1,
            10 * r1 == t2 * d + r2,
            c0 == 10 * t1 + t2,
    ;
    assert(100 * n == (100 * w + c0) * d + r2) by (nonlinear_arith)
        requires
            n == d * w + r,
            100 * r == c0 * d + r2,
    ;
    vstd::arithmetic::div_mod::lemma_fundamental_div_mod(100 * n, d);
    assert((100 * n) % d == r2) by (nonlinear_arith)
        requires
            100 * n == (100 * w + c0) * d + r2,
            100 * n == d * ((100 * n) / d) + (100 * n) % d,
            0 <= (100 * n) % d < d,
            0 <= r2 < d,
    ;
    let x = 100 * w + c0 + up;
    let rr = 2 * r2 + d - 2 * d * up;
    assert(200 * n + d == 2 * d * x + rr) by (nonlinear_arith)
        requires
            100 * n == (100 * w + c0) * d + r2,
            x == 100 * w + c0 + up,
            rr == 2 * r2 + d - 2 * d * up,
    ;
    assert(0 <= rr < 2 * d);
    vstd::arithmetic::div_mod::lemma_fundamental_div_mod(200 * n + d, 2 * d);
    assert((200 * n + d) / (2 * d) == x) by (nonlinear_arith)
        requires
            200 * n + d == 2 * d * x + rr,
            0 <= rr < 2 * d,
            200 * n + d == (2 * d) * ((200 * n + d) / (2 * d)) + (200 * n + d) % (2 * d),
            0 <= (200 * n + d) % (2 * d) < 2 * d,
            d > 0,
    ;
    assert(c0 <= 99) by (nonlinear_arith)
        requires
            100 * r == c0 * d + r2,
            0 <= r < d,
            0 <= r2,
            c0 >= 0,
    ;
}

/// The same value, rendered so that parsing it back cannot lose anything.
///
/// For an edit form, not for a screen: [`render`] rounds when a value has no
/// tidy form, and an editor that showed the rounded text would write it back
/// on the next save. So when the pretty rendering is approximate this falls
/// back to the raw fraction, which is ugly and exact.
pub fn render_lossless(value: Rational) -> (s: String)
    ensures
        s@ == lossless_text(value.num(), value.den()),
{
    let rendered = render(value);
    if rendered.approximate {
        let numer = value.numer();
        let denom = value.denom();
        let mut out: Vec<char> = Vec::new();
        push_sign(&mut out, numer < 0);
        push_decimal_wide(&mut out, if numer < 0 { -numer } else { numer } as u128);
        out.push('/');
        push_decimal_wide(&mut out, denom as u128);
        proof {
            assert(out@ =~= raw_fraction(value.num(), value.den()));
        }
        string_of(&out)
    } else {
        rendered.text
    }
}


/// What [`render_lossless`] shows for `n / d`.
pub open spec fn lossless_text(n: int, d: int) -> Seq<char> {
    if render_rounds(n, d) {
        raw_fraction(n, d)
    } else {
        render_text(n, d)
    }
}

/// `s` holds no `c`.
pub open spec fn lacks(s: Seq<char>, c: char) -> bool {
    forall|i: int| 0 <= i < s.len() ==> s[i] != c
}

/// `s` holds no white space.
pub open spec fn spaceless(s: Seq<char>) -> bool {
    forall|i: int| 0 <= i < s.len() ==> !is_space(#[trigger] s[i])
}

proof fn lemma_digit(x: int)
    requires
        0 <= x <= 9,
    ensures
        is_digit(digit(x)),
        (digit(x) as nat - '0' as nat) as nat == x,
{
}

/// A number written in decimal is digits, and spells that number.
pub(crate) proof fn lemma_decimal_digits(n: nat)
    ensures
        decimal(n).len() > 0,
        all_digits(decimal(n)),
        digits_value(decimal(n)) == n,
    decreases n,
{
    let s = decimal(n);
    if n < 10 {
        lemma_digit(n as int);
        assert(s.drop_last() =~= Seq::<char>::empty());
        assert(digits_value(Seq::<char>::empty()) == 0);
        assert(s.last() == digit(n as int));
    } else {
        lemma_decimal_digits(n / 10);
        lemma_digit((n % 10) as int);
        assert(s.drop_last() =~= decimal(n / 10));
        assert(s.last() == digit((n % 10) as int));
        assert(digits_value(s) == digits_value(decimal(n / 10)) * 10 + n % 10);
        assert forall|i: int| 0 <= i < s.len() implies is_digit(#[trigger] s[i]) by {
            if i < s.len() - 1 {
                assert(s[i] == decimal(n / 10)[i]);
            }
        }
    }
}

/// Digits are none of the other characters an amount is written with.
proof fn lemma_digits_lack(s: Seq<char>)
    requires
        all_digits(s),
    ensures
        lacks(s, '/'),
        lacks(s, '.'),
        lacks(s, ','),
        lacks(s, ' '),
        spaceless(s),
{
    assert forall|i: int| 0 <= i < s.len() implies !is_space(#[trigger] s[i]) by {
        assert(is_digit(s[i]));
    }
    assert forall|i: int| 0 <= i < s.len() implies s[i] != '/' && s[i] != '.' && s[i] != ','
        && s[i] != ' ' by {
        assert(is_digit(s[i]));
    }
}

/// Walking through characters that are not white space only extends the
/// word begun so far.
proof fn lemma_pieces_through(a: Seq<char>, rest: Seq<char>, cur: Seq<char>)
    requires
        spaceless(a),
    ensures
        pieces(a + rest, cur, true) == pieces(rest, cur + a, true),
    decreases a.len(),
{
    if a.len() == 0 {
        assert(a + rest =~= rest);
        assert(cur + a =~= cur);
    } else {
        let s = a + rest;
        assert(s[0] == a[0]);
        assert(!is_space(a[0]));
        assert(s.drop_first() =~= a.drop_first() + rest);
        assert forall|i: int| 0 <= i < a.drop_first().len() implies !is_space(
            #[trigger] a.drop_first()[i],
        ) by {
            assert(a.drop_first()[i] == a[i + 1]);
        }
        lemma_pieces_through(a.drop_first(), rest, cur.push(a[0]));
        assert(cur.push(a[0]) + a.drop_first() =~= cur + a);
    }
}

/// A non-empty text without white space is one word.
proof fn lemma_one_word(t: Seq<char>)
    requires
        t.len() > 0,
        spaceless(t),
    ensures
        words(t) == seq![t],
{
    lemma_pieces_through(t, Seq::<char>::empty(), Seq::<char>::empty());
    assert(t + Seq::<char>::empty() =~= t);
    assert(Seq::<char>::empty() + t =~= t);
}

/// Two non-empty texts without white space, joined by a space, are two
/// words.
proof fn lemma_two_words(a: Seq<char>, b: Seq<char>)
    requires
        a.len() > 0,
        b.len() > 0,
        spaceless(a),
        spaceless(b),
    ensures
        words(a + seq![' '] + b) == seq![a, b],
{
    let rest = seq![' '] + b;
    assert(a + seq![' '] + b =~= a + rest);
    lemma_pieces_through(a, rest, Seq::<char>::empty());
    assert(Seq::<char>::empty() + a =~= a);
    assert(rest[0] == ' ');
    assert(rest.drop_first() =~= b);
    lemma_one_word(b);
    assert(seq![a] + seq![b] =~= seq![a, b]);
}

/// A text that neither starts nor ends with white space is its own trim.
proof fn lemma_untrimmed(t: Seq<char>)
    requires
        t.len() > 0,
        !is_space(t[0]),
        !is_space(t.last()),
    ensures
        trimmed(t) == t,
{
    assert(lead_spaces(t) == 0);
    assert(t.skip(0) =~= t);
    assert(trail_spaces(t) == 0);
    assert(t.take(t.len() as int) =~= t);
}

/// Without a comma, there is nothing to make a point.
proof fn lemma_no_commas(t: Seq<char>)
    requires
        lacks(t, ','),
    ensures
        commas_to_points(t) == t,
{
    assert(commas_to_points(t) =~= t);
}

/// The first `c` of `a + c + b`, when `a` has none, is the one after `a`.
proof fn lemma_first_index_at(a: Seq<char>, c: char, b: Seq<char>)
    requires
        lacks(a, c),
    ensures
        first_index(a + seq![c] + b, c) == Some(a.len() as int),
{
    let s = a + seq![c] + b;
    let at = a.len() as int;
    assert(s[at] == c);
    assert forall|j: int| 0 <= j < at implies s[j] != c by {
        assert(s[j] == a[j]);
    }
    let k = choose|i: int| 0 <= i < s.len() && s[i] == c && forall|j: int| 0 <= j < i ==> s[j] != c;
    assert(0 <= k < s.len() && s[k] == c && forall|j: int| 0 <= j < k ==> s[j] != c);
    if k < at {
        assert(s[k] == a[k]);
    }
    if k > at {
        assert(s[at] != c);
    }
}

proof fn lemma_first_index_none(s: Seq<char>, c: char)
    requires
        lacks(s, c),
    ensures
        first_index(s, c) is None,
{
}

/// A whole number written in decimal reads back as itself.
proof fn lemma_integer_text(n: nat)
    requires
        n <= BOUND,
    ensures
        spec_integer(decimal(n)) == Some(from_int(n as int)),
{
    lemma_decimal_digits(n);
}

/// `a/b` written in decimal reads back as the reduced `a / b`.
proof fn lemma_fraction_text(a: nat, b: nat)
    requires
        a <= BOUND,
        0 < b <= BOUND,
    ensures
        spec_fraction(decimal(a) + seq!['/'] + decimal(b)) == make(a as int, b as int),
        spec_term(decimal(a) + seq!['/'] + decimal(b)) == make(a as int, b as int),
{
    let da = decimal(a);
    let db = decimal(b);
    let s = da + seq!['/'] + db;
    lemma_decimal_digits(a);
    lemma_digits_lack(da);
    lemma_first_index_at(da, '/', db);
    assert(s.take(da.len() as int) =~= da);
    assert(s.skip(da.len() as int + 1) =~= db);
    lemma_integer_text(a);
    lemma_integer_text(b);
    lemma_from_int(a as int);
    lemma_from_int(b as int);
    lemma_div_whole(a as int, b as int);
    assert(s[da.len() as int] == '/');
}

/// A whole number written in decimal reads back as that number over one.
proof fn lemma_whole_text(n: nat)
    requires
        n <= BOUND,
    ensures
        spec_term(decimal(n)) == make(n as int, 1),
{
    let s = decimal(n);
    lemma_decimal_digits(n);
    lemma_digits_lack(s);
    lemma_first_index_none(s, '.');
    assert(digits_value(Seq::<char>::empty()) == 0);
    assert(pow10(0) == 1);
    assert(all_digits(Seq::<char>::empty()));
    assert(digits_value(s) * pow10(0) + digits_value(Seq::<char>::empty()) == n);
    assert(!exists|i: int| 0 <= i < s.len() && s[i] == '/');
}

/// `w.g` reads back as `w` and the digits `g` over the matching power of
/// ten.
proof fn lemma_point_text(w: nat, g: Seq<char>)
    requires
        w <= BOUND,
        all_digits(g),
        0 < g.len() <= MAX_DECIMALS,
        w * pow10(g.len()) + digits_value(g) <= BOUND,
    ensures
        spec_term(decimal(w) + seq!['.'] + g) == make(
            (w * pow10(g.len()) + digits_value(g)) as int,
            pow10(g.len()) as int,
        ),
{
    let dw = decimal(w);
    let s = dw + seq!['.'] + g;
    lemma_decimal_digits(w);
    lemma_digits_lack(dw);
    lemma_digits_lack(g);
    lemma_first_index_at(dw, '.', g);
    assert(s.take(dw.len() as int) =~= dw);
    assert(s.skip(dw.len() as int + 1) =~= g);
    assert(lacks(s, '/')) by {
        assert forall|i: int| 0 <= i < s.len() implies s[i] != '/' by {
            if i < dw.len() {
                assert(s[i] == dw[i]);
            } else if i > dw.len() {
                assert(s[i] == g[i - dw.len() - 1]);
            }
        }
    }
}

/// A hundredths count's digits after the point spell the value they stand
/// for.
proof fn lemma_cents_text(c: int)
    requires
        0 < c < 100,
    ensures
        cents_text(c) == seq!['.'] + cents_digits(c),
        all_digits(cents_digits(c)),
        0 < cents_digits(c).len() <= 2,
        c % 10 == 0 ==> cents_digits(c).len() == 1 && digits_value(cents_digits(c)) == c / 10,
        c % 10 != 0 ==> cents_digits(c).len() == 2 && digits_value(cents_digits(c)) == c,
{
    lemma_digit(c / 10);
    lemma_digit(c % 10);
    let g = cents_digits(c);
    assert(digits_value(Seq::<char>::empty()) == 0);
    assert(digits_value(seq![digit(c / 10)]) == c / 10) by {
        assert(seq![digit(c / 10)].drop_last() =~= Seq::<char>::empty());
    }
    if c % 10 == 0 {
        assert(g =~= seq![digit(c / 10)]);
    } else {
        assert(g.drop_last() =~= seq![digit(c / 10)]);
        assert(g.last() == digit(c % 10));
        assert(digits_value(g) == (c / 10) * 10 + c % 10);
    }
    assert(cents_text(c) =~= seq!['.'] + g);
}

/// The digits [`cents_text`] writes after the point.
pub open spec fn cents_digits(c: int) -> Seq<char> {
    if c % 10 == 0 {
        seq![digit(c / 10)]
    } else {
        seq![digit(c / 10), digit(c % 10)]
    }
}

/// A typed amount that is one term, with nothing around it, reads as that
/// term.
proof fn lemma_single_term(t: Seq<char>)
    requires
        t.len() > 0,
        spaceless(t),
        lacks(t, ','),
    ensures
        spec_amount(t) == spec_term(t),
{
    lemma_untrimmed(t);
    lemma_no_commas(t);
    lemma_one_word(t);
}

/// Reducing `nn / dd`, a fraction equal to `n / d`, gives a value that
/// denotes `n / d`.
proof fn lemma_reads_as(nn: int, dd: int, n: int, d: int)
    requires
        dd > 0,
        0 < d <= BOUND,
        nn >= 0,
        0 <= n <= BOUND,
        nn * d == n * dd,
    ensures
        make(nn, dd) matches Some(x) && denotes(x, n, d),
{
    lemma_make_fits(nn, dd, n, d);
    lemma_make_denotes(nn, dd);
    let x = make(nn, dd)->0;
    lemma_same_ratio_trans(x.num(), x.den(), nn, dd, n, d);
}

/// Whole and kitchen-fraction renderings read back.
proof fn lemma_exact_fraction_reads_back(n: int, d: int)
    requires
        0 < n <= BOUND,
        0 < d <= BOUND,
        d == 1 || kitchen(d),
    ensures
        spec_amount(render_text(n, d)) matches Some(x) && denotes(x, n, d),
{
    let t = render_text(n, d);
    if d == 1 {
        let dn = decimal(n as nat);
        assert(t == dn);
        lemma_decimal_digits(n as nat);
        lemma_digits_lack(dn);
        lemma_single_term(dn);
        lemma_whole_text(n as nat);
        lemma_reads_as(n, 1, n, 1);
    } else {
        let w = n / d;
        let r = n % d;
        vstd::arithmetic::div_mod::lemma_fundamental_div_mod(n, d);
        let dr = decimal(r as nat);
        let dd = decimal(d as nat);
        let f = dr + seq!['/'] + dd;
        lemma_decimal_digits(r as nat);
        lemma_decimal_digits(d as nat);
        lemma_digits_lack(dr);
        lemma_digits_lack(dd);
        assert(spaceless(f) && lacks(f, ',')) by {
            assert forall|i: int| 0 <= i < f.len() implies !is_space(#[trigger] f[i]) && f[i]
                != ',' by {
                if i < dr.len() {
                    assert(f[i] == dr[i]);
                } else if i > dr.len() {
                    assert(f[i] == dd[i - dr.len() - 1]);
                }
            }
        }
        lemma_fraction_text(r as nat, d as nat);
        if w == 0 {
            assert(t == f);
            lemma_single_term(f);
            lemma_reads_as(r, d, n, d);
        } else {
            let dw = decimal(w as nat);
            lemma_decimal_digits(w as nat);
            lemma_digits_lack(dw);
            assert(t =~= dw + seq![' '] + f);
            assert(lacks(t, ',')) by {
                assert forall|i: int| 0 <= i < t.len() implies t[i] != ',' by {
                    if i < dw.len() {
                        assert(t[i] == dw[i]);
                    } else if i > dw.len() {
                        assert(t[i] == f[i - dw.len() - 1]);
                    }
                }
            }
            assert(t[0] == dw[0]);
            assert(t.last() == f.last());
            lemma_untrimmed(t);
            lemma_no_commas(t);
            lemma_two_words(dw, f);
            lemma_integer_text(w as nat);
            lemma_reads_as(r, d, r, d);
            let fr = make(r, d)->0;
            lemma_make_denotes(r, d);
            lemma_from_int(w);
            lemma_make_parts_shrink(r, d);
            let nn = w * fr.den() + fr.num();
            assert(fr.num() >= 0) by (nonlinear_arith)
                requires
                    fr.num() * d == r * fr.den(),
                    fr.den() > 0,
                    d > 0,
                    r >= 0,
            ;
            assert(nn * d == n * fr.den()) by (nonlinear_arith)
                requires
                    nn == w * fr.den() + fr.num(),
                    fr.num() * d == r * fr.den(),
                    n == w * d + r,
            ;
            assert(0 <= w * fr.den() <= w * d) by (nonlinear_arith)
                requires
                    0 < fr.den() <= d,
                    w >= 0,
            ;
            assert(w * d <= n) by (nonlinear_arith)
                requires
                    n == w * d + r,
                    r >= 0,
            ;
            assert(0 <= fr.num() <= r);
            lemma_add_whole(w, fr);
            lemma_reads_as(nn, fr.den(), n, d);
        }
    }
}

/// A rendering in exact hundredths reads back.
proof fn lemma_exact_decimal_reads_back(n: int, d: int)
    requires
        0 < n <= BOUND,
        100 * n <= BOUND,
        0 < d <= BOUND,
        d != 1,
        !kitchen(d),
        whole_hundredths(n, d),
    ensures
        spec_amount(render_text(n, d)) matches Some(x) && denotes(x, n, d),
{
    let t = render_text(n, d);
    let q = 100 * n / d;
    vstd::arithmetic::div_mod::lemma_fundamental_div_mod(100 * n, d);
    assert(q * d == 100 * n);
    let a = (200 * n + d) / (2 * d);
    vstd::arithmetic::div_mod::lemma_fundamental_div_mod(200 * n + d, 2 * d);
    let rem = (200 * n + d) % (2 * d);
    assert(a == q) by (nonlinear_arith)
        requires
            200 * n + d == 2 * d * a + rem,
            0 <= rem < 2 * d,
            q * d == 100 * n,
            d > 0,
    ;
    assert(hundredths(n, d) == q);
    assert(0 <= q <= 100 * n) by (nonlinear_arith)
        requires
            q * d == 100 * n,
            d >= 1,
            n > 0,
    ;
    let w = q / 100;
    let c = q % 100;
    assert(w <= n);
    let dw = decimal(w as nat);
    lemma_decimal_digits(w as nat);
    lemma_digits_lack(dw);
    if c == 0 {
        assert(t == dw);
        lemma_single_term(dw);
        lemma_whole_text(w as nat);
        assert(w * d == n * 1) by (nonlinear_arith)
            requires
                q * d == 100 * n,
                q == 100 * w,
        ;
        lemma_reads_as(w, 1, n, d);
    } else {
        lemma_cents_text(c);
        let g = cents_digits(c);
        lemma_digits_lack(g);
        assert(t =~= dw + seq!['.'] + g);
        assert(spaceless(t) && lacks(t, ',')) by {
            assert forall|i: int| 0 <= i < t.len() implies !is_space(#[trigger] t[i]) && t[i]
                != ',' by {
                if i < dw.len() {
                    assert(t[i] == dw[i]);
                } else if i > dw.len() {
                    assert(t[i] == g[i - dw.len() - 1]);
                }
            }
        }
        lemma_single_term(t);
        reveal_with_fuel(pow10, 3);
        assert(w * pow10(g.len()) + digits_value(g) <= q) by {
            if c % 10 == 0 {
                assert(w * 10 + c / 10 <= 100 * w + c);
            }
        }
        assert(q <= BOUND);
        lemma_point_text(w as nat, g);
        if c % 10 == 0 {
            let nn = w * 10 + c / 10;
            assert(nn * d == n * 10) by (nonlinear_arith)
                requires
                    q * d == 100 * n,
                    q == 100 * w + c,
                    c == 10 * (c / 10),
                    nn == w * 10 + c / 10,
            ;
            lemma_reads_as(nn, 10, n, d);
        } else {
            let nn = w * 100 + c;
            assert(nn * d == n * 100) by (nonlinear_arith)
                requires
                    q * d == 100 * n,
                    q == 100 * w + c,
                    nn == w * 100 + c,
            ;
            lemma_reads_as(nn, 100, n, d);
        }
    }
}

/// A rendering that says it is exact reads back, through [`parse_amount`],
/// as the value it shows.
pub proof fn law_an_exact_rendering_reads_back(v: Rational)
    requires
        v.in_range(),
        v.num() > 0,
        100 * v.num() <= BOUND,
        !render_rounds(v.num(), v.den()),
    ensures
        spec_amount(render_text(v.num(), v.den())) matches Some(x) && denotes(
            x,
            v.num(),
            v.den(),
        ),
{
    lemma_in_range(v);
    if v.den() == 1 || kitchen(v.den()) {
        lemma_exact_fraction_reads_back(v.num(), v.den());
    } else {
        lemma_exact_decimal_reads_back(v.num(), v.den());
    }
}

/// What the edit form shows for a positive amount always reads back,
/// through [`parse_amount`], as the value it shows: the form never loses
/// precision to its own rendering.
pub proof fn law_the_edit_form_reads_back(v: Rational)
    requires
        v.in_range(),
        v.num() > 0,
        100 * v.num() <= BOUND,
    ensures
        spec_amount(lossless_text(v.num(), v.den())) matches Some(x) && denotes(
            x,
            v.num(),
            v.den(),
        ),
{
    lemma_in_range(v);
    let (n, d) = (v.num(), v.den());
    if render_rounds(n, d) {
        let dn = decimal(n as nat);
        let dd = decimal(d as nat);
        let t = dn + seq!['/'] + dd;
        assert(lossless_text(n, d) == t);
        lemma_decimal_digits(n as nat);
        lemma_decimal_digits(d as nat);
        lemma_digits_lack(dn);
        lemma_digits_lack(dd);
        assert(spaceless(t) && lacks(t, ',')) by {
            assert forall|i: int| 0 <= i < t.len() implies !is_space(#[trigger] t[i]) && t[i]
                != ',' by {
                if i < dn.len() {
                    assert(t[i] == dn[i]);
                } else if i > dn.len() {
                    assert(t[i] == dd[i - dn.len() - 1]);
                }
            }
        }
        lemma_single_term(t);
        lemma_fraction_text(n as nat, d as nat);
        lemma_reads_as(n, d, n, d);
    } else {
        law_an_exact_rendering_reads_back(v);
    }
}

} // verus!

//! The exact encodings of the document's primitive values: numbers, tags,
//! counts and quantities.
//!
//! Tags are strings rather than integer discriminants: a discriminant
//! silently changes meaning when a variant is inserted in the middle of an
//! enum, and this document outlives the build that wrote it.

use vstd::prelude::*;

use crate::client::number::{all_digits, debug_form, debug_quoted, digits_value, is_digit, lemma_decimal_digits, lemma_digits_grow};
use crate::ids::Timestamp;
use crate::ingredient::Aisle;
use crate::quantity::Quantity;
use crate::rational::{denotes, lemma_make_denotes, lemma_make_small, make, Rational};
use crate::recipe::{RefDisplay, Servings};
use crate::store::error::StoreError;
use crate::store::schema::{UNIT, VALUE};
use crate::store::value::{as_int, as_map, as_text, corrupt, corrupt_at, entry, field, integer, present, table, string, Value};
use crate::text::{
    chars_of, decimal, push_decimal_wide, push_signed, push_signed_wide, push_str, signed_decimal,
    string_of,
};
use crate::units::{MassUnit, Unit, VolumeUnit};

verus! {

/// Whether `s` spells `lit`.
fn same(s: &String, lit: &str) -> (b: bool)
    ensures
        b == (s@ == lit@),
{
    *s == lit.to_owned()
}

/// The detail naming an unknown tag, quoted as a debug form quotes it.
fn unknown(what: &str, tag: &String) -> (s: String)
    ensures
        s@ == what@ + debug_form(tag@),
{
    let mut out: Vec<char> = Vec::new();
    push_str(&mut out, what);
    let quoted = debug_quoted(tag.as_str());
    push_str(&mut out, quoted.as_str());
    string_of(&out)
}

// --- enum tags --------------------------------------------------------------

pub open spec fn unit_tag_text(x: Unit) -> Seq<char> {
    match x {
        Unit::Mass(MassUnit::Milligram) => "mg"@,
        Unit::Mass(MassUnit::Gram) => "g"@,
        Unit::Mass(MassUnit::Kilogram) => "kg"@,
        Unit::Mass(MassUnit::Ounce) => "oz"@,
        Unit::Mass(MassUnit::Pound) => "lb"@,
        Unit::Volume(VolumeUnit::Milliliter) => "ml"@,
        Unit::Volume(VolumeUnit::Centiliter) => "cl"@,
        Unit::Volume(VolumeUnit::Deciliter) => "dl"@,
        Unit::Volume(VolumeUnit::Liter) => "l"@,
        Unit::Volume(VolumeUnit::TeaspoonFr) => "tsp_fr"@,
        Unit::Volume(VolumeUnit::TablespoonFr) => "tbsp_fr"@,
        Unit::Volume(VolumeUnit::CupMetric) => "cup_metric"@,
        Unit::Volume(VolumeUnit::TeaspoonUs) => "tsp_us"@,
        Unit::Volume(VolumeUnit::TablespoonUs) => "tbsp_us"@,
        Unit::Volume(VolumeUnit::CupUs) => "cup_us"@,
        Unit::Volume(VolumeUnit::FluidOunceUs) => "floz_us"@,
        Unit::Piece => "piece"@,
        Unit::Pinch => "pinch"@,
        Unit::ToTaste => "to_taste"@,
    }
}

pub fn unit_tag(x: Unit) -> (t: &'static str)
    ensures
        t@ == unit_tag_text(x),
{
    match x {
        Unit::Mass(MassUnit::Milligram) => "mg",
        Unit::Mass(MassUnit::Gram) => "g",
        Unit::Mass(MassUnit::Kilogram) => "kg",
        Unit::Mass(MassUnit::Ounce) => "oz",
        Unit::Mass(MassUnit::Pound) => "lb",
        Unit::Volume(VolumeUnit::Milliliter) => "ml",
        Unit::Volume(VolumeUnit::Centiliter) => "cl",
        Unit::Volume(VolumeUnit::Deciliter) => "dl",
        Unit::Volume(VolumeUnit::Liter) => "l",
        Unit::Volume(VolumeUnit::TeaspoonFr) => "tsp_fr",
        Unit::Volume(VolumeUnit::TablespoonFr) => "tbsp_fr",
        Unit::Volume(VolumeUnit::CupMetric) => "cup_metric",
        Unit::Volume(VolumeUnit::TeaspoonUs) => "tsp_us",
        Unit::Volume(VolumeUnit::TablespoonUs) => "tbsp_us",
        Unit::Volume(VolumeUnit::CupUs) => "cup_us",
        Unit::Volume(VolumeUnit::FluidOunceUs) => "floz_us",
        Unit::Piece => "piece",
        Unit::Pinch => "pinch",
        Unit::ToTaste => "to_taste",
    }
}

pub open spec fn unit_named(tag: Seq<char>) -> Option<Unit> {
    if tag == "mg"@ {
        Some(Unit::Mass(MassUnit::Milligram))
    } else if tag == "g"@ {
        Some(Unit::Mass(MassUnit::Gram))
    } else if tag == "kg"@ {
        Some(Unit::Mass(MassUnit::Kilogram))
    } else if tag == "oz"@ {
        Some(Unit::Mass(MassUnit::Ounce))
    } else if tag == "lb"@ {
        Some(Unit::Mass(MassUnit::Pound))
    } else if tag == "ml"@ {
        Some(Unit::Volume(VolumeUnit::Milliliter))
    } else if tag == "cl"@ {
        Some(Unit::Volume(VolumeUnit::Centiliter))
    } else if tag == "dl"@ {
        Some(Unit::Volume(VolumeUnit::Deciliter))
    } else if tag == "l"@ {
        Some(Unit::Volume(VolumeUnit::Liter))
    } else if tag == "tsp_fr"@ {
        Some(Unit::Volume(VolumeUnit::TeaspoonFr))
    } else if tag == "tbsp_fr"@ {
        Some(Unit::Volume(VolumeUnit::TablespoonFr))
    } else if tag == "cup_metric"@ {
        Some(Unit::Volume(VolumeUnit::CupMetric))
    } else if tag == "tsp_us"@ {
        Some(Unit::Volume(VolumeUnit::TeaspoonUs))
    } else if tag == "tbsp_us"@ {
        Some(Unit::Volume(VolumeUnit::TablespoonUs))
    } else if tag == "cup_us"@ {
        Some(Unit::Volume(VolumeUnit::CupUs))
    } else if tag == "floz_us"@ {
        Some(Unit::Volume(VolumeUnit::FluidOunceUs))
    } else if tag == "piece"@ {
        Some(Unit::Piece)
    } else if tag == "pinch"@ {
        Some(Unit::Pinch)
    } else if tag == "to_taste"@ {
        Some(Unit::ToTaste)
    } else {
        None
    }
}

pub open spec fn aisle_tag_text(x: Aisle) -> Seq<char> {
    match x {
        Aisle::Produce => "produce"@,
        Aisle::Butcher => "butcher"@,
        Aisle::Fish => "fish"@,
        Aisle::Deli => "deli"@,
        Aisle::Dairy => "dairy"@,
        Aisle::Bakery => "bakery"@,
        Aisle::Grocery => "grocery"@,
        Aisle::Frozen => "frozen"@,
        Aisle::Beverages => "beverages"@,
        Aisle::Household => "household"@,
        Aisle::Other => "other"@,
    }
}

pub fn aisle_tag(x: Aisle) -> (t: &'static str)
    ensures
        t@ == aisle_tag_text(x),
{
    match x {
        Aisle::Produce => "produce",
        Aisle::Butcher => "butcher",
        Aisle::Fish => "fish",
        Aisle::Deli => "deli",
        Aisle::Dairy => "dairy",
        Aisle::Bakery => "bakery",
        Aisle::Grocery => "grocery",
        Aisle::Frozen => "frozen",
        Aisle::Beverages => "beverages",
        Aisle::Household => "household",
        Aisle::Other => "other",
    }
}

pub open spec fn aisle_named(tag: Seq<char>) -> Aisle {
    if tag == "produce"@ {
        Aisle::Produce
    } else if tag == "butcher"@ {
        Aisle::Butcher
    } else if tag == "fish"@ {
        Aisle::Fish
    } else if tag == "deli"@ {
        Aisle::Deli
    } else if tag == "dairy"@ {
        Aisle::Dairy
    } else if tag == "bakery"@ {
        Aisle::Bakery
    } else if tag == "grocery"@ {
        Aisle::Grocery
    } else if tag == "frozen"@ {
        Aisle::Frozen
    } else if tag == "beverages"@ {
        Aisle::Beverages
    } else if tag == "household"@ {
        Aisle::Household
    } else {
        Aisle::Other
    }
}

pub open spec fn display_tag_text(x: RefDisplay) -> Seq<char> {
    match x {
        RefDisplay::Full => "full"@,
        RefDisplay::NameOnly => "name_only"@,
        RefDisplay::QuantityOnly => "quantity_only"@,
    }
}

pub fn display_tag(x: RefDisplay) -> (t: &'static str)
    ensures
        t@ == display_tag_text(x),
{
    match x {
        RefDisplay::Full => "full",
        RefDisplay::NameOnly => "name_only",
        RefDisplay::QuantityOnly => "quantity_only",
    }
}

pub open spec fn display_named(tag: Seq<char>) -> Option<RefDisplay> {
    if tag == "full"@ {
        Some(RefDisplay::Full)
    } else if tag == "name_only"@ {
        Some(RefDisplay::NameOnly)
    } else if tag == "quantity_only"@ {
        Some(RefDisplay::QuantityOnly)
    } else {
        None
    }
}

/// The unit a string value names.
pub open spec fn unit_in(v: Value) -> Option<Unit> {
    match as_text(v) {
        Some(t) => unit_named(t),
        None => None,
    }
}

/// The aisle a string value names; an unknown name is `Other`. An aisle only
/// decides sort order, so an unknown one is survivable where an unknown
/// unit is not, and adding one stays a non-breaking change.
pub open spec fn aisle_in(v: Value) -> Option<Aisle> {
    match as_text(v) {
        Some(t) => Some(aisle_named(t)),
        None => None,
    }
}

/// The reference display a string value names.
pub open spec fn display_in(v: Value) -> Option<RefDisplay> {
    match as_text(v) {
        Some(t) => display_named(t),
        None => None,
    }
}

/// Reads a unit tag; an unknown one is refused.
pub fn unit(value: &Value, path: &str) -> (r: Result<Unit, StoreError>)
    ensures
        match r {
            Ok(u) => unit_in(*value) == Some(u),
            Err(e) => unit_in(*value) is None && corrupt_at(e, path@),
        },
{
    let tag = string(value, path)?;
    if same(&tag, "mg") {
        Ok(Unit::Mass(MassUnit::Milligram))
    } else if same(&tag, "g") {
        Ok(Unit::Mass(MassUnit::Gram))
    } else if same(&tag, "kg") {
        Ok(Unit::Mass(MassUnit::Kilogram))
    } else if same(&tag, "oz") {
        Ok(Unit::Mass(MassUnit::Ounce))
    } else if same(&tag, "lb") {
        Ok(Unit::Mass(MassUnit::Pound))
    } else if same(&tag, "ml") {
        Ok(Unit::Volume(VolumeUnit::Milliliter))
    } else if same(&tag, "cl") {
        Ok(Unit::Volume(VolumeUnit::Centiliter))
    } else if same(&tag, "dl") {
        Ok(Unit::Volume(VolumeUnit::Deciliter))
    } else if same(&tag, "l") {
        Ok(Unit::Volume(VolumeUnit::Liter))
    } else if same(&tag, "tsp_fr") {
        Ok(Unit::Volume(VolumeUnit::TeaspoonFr))
    } else if same(&tag, "tbsp_fr") {
        Ok(Unit::Volume(VolumeUnit::TablespoonFr))
    } else if same(&tag, "cup_metric") {
        Ok(Unit::Volume(VolumeUnit::CupMetric))
    } else if same(&tag, "tsp_us") {
        Ok(Unit::Volume(VolumeUnit::TeaspoonUs))
    } else if same(&tag, "tbsp_us") {
        Ok(Unit::Volume(VolumeUnit::TablespoonUs))
    } else if same(&tag, "cup_us") {
        Ok(Unit::Volume(VolumeUnit::CupUs))
    } else if same(&tag, "floz_us") {
        Ok(Unit::Volume(VolumeUnit::FluidOunceUs))
    } else if same(&tag, "piece") {
        Ok(Unit::Piece)
    } else if same(&tag, "pinch") {
        Ok(Unit::Pinch)
    } else if same(&tag, "to_taste") {
        Ok(Unit::ToTaste)
    } else {
        Err(corrupt(path, unknown("unknown unit ", &tag).as_str()))
    }
}

/// Reads an aisle tag; an unknown one reads as `Other`.
pub fn aisle(value: &Value, path: &str) -> (r: Result<Aisle, StoreError>)
    ensures
        match r {
            Ok(a) => aisle_in(*value) == Some(a),
            Err(e) => aisle_in(*value) is None && corrupt_at(e, path@),
        },
{
    let tag = string(value, path)?;
    if same(&tag, "produce") {
        Ok(Aisle::Produce)
    } else if same(&tag, "butcher") {
        Ok(Aisle::Butcher)
    } else if same(&tag, "fish") {
        Ok(Aisle::Fish)
    } else if same(&tag, "deli") {
        Ok(Aisle::Deli)
    } else if same(&tag, "dairy") {
        Ok(Aisle::Dairy)
    } else if same(&tag, "bakery") {
        Ok(Aisle::Bakery)
    } else if same(&tag, "grocery") {
        Ok(Aisle::Grocery)
    } else if same(&tag, "frozen") {
        Ok(Aisle::Frozen)
    } else if same(&tag, "beverages") {
        Ok(Aisle::Beverages)
    } else if same(&tag, "household") {
        Ok(Aisle::Household)
    } else {
        Ok(Aisle::Other)
    }
}

/// Reads a reference display tag; an unknown one is refused.
pub fn display(value: &Value, path: &str) -> (r: Result<RefDisplay, StoreError>)
    ensures
        match r {
            Ok(d) => display_in(*value) == Some(d),
            Err(e) => display_in(*value) is None && corrupt_at(e, path@),
        },
{
    let tag = string(value, path)?;
    if same(&tag, "full") {
        Ok(RefDisplay::Full)
    } else if same(&tag, "name_only") {
        Ok(RefDisplay::NameOnly)
    } else if same(&tag, "quantity_only") {
        Ok(RefDisplay::QuantityOnly)
    } else {
        Err(corrupt(path, unknown("unknown reference display ", &tag).as_str()))
    }
}

// --- exact numbers ----------------------------------------------------------

/// Whether `s` starts with a sign.
pub open spec fn has_sign(s: Seq<char>) -> bool {
    s.len() > 0 && (s[0] == '-' || s[0] == '+')
}

/// The digits of `s`, past any sign.
pub open spec fn digits_part(s: Seq<char>) -> Seq<char> {
    if has_sign(s) {
        s.skip(1)
    } else {
        s
    }
}

/// An integer as the standard parser reads one: an optional sign, then one
/// or more ASCII digits, of magnitude at most `i128::MAX`.
pub open spec fn signed_value(s: Seq<char>) -> Option<int> {
    let body = digits_part(s);
    if body.len() > 0 && all_digits(body) && digits_value(body) <= i128::MAX {
        if has_sign(s) && s[0] == '-' {
            Some(-(digits_value(body) as int))
        } else {
            Some(digits_value(body) as int)
        }
    } else {
        None
    }
}

/// `k` is where the first `/` of `s` stands.
pub open spec fn first_slash(s: Seq<char>, k: int) -> bool {
    &&& 0 <= k < s.len()
    &&& s[k] == '/'
    &&& forall|j: int| 0 <= j < k ==> s[j] != '/'
}

/// The rational `"numerator/denominator"` spells, in lowest terms: split at
/// the first `/`, both sides integers, the denominator not zero. An
/// unreduced form reads back reduced, so it equals its own reduced form.
pub open spec fn rational_from_text(s: Seq<char>) -> Option<Rational> {
    if exists|k: int| first_slash(s, k) {
        let k = choose|k: int| first_slash(s, k);
        match (signed_value(s.take(k)), signed_value(s.skip(k + 1))) {
            (Some(n), Some(d)) => if d == 0 {
                None
            } else {
                make(n, d)
            },
            _ => None,
        }
    } else {
        None
    }
}

/// How a rational is written: `"numerator/denominator"`.
pub open spec fn rational_text(r: Rational) -> Seq<char> {
    signed_decimal(r.num()) + seq!['/'] + decimal(r.den() as nat)
}

/// The rational a string value spells.
pub open spec fn rational_in(v: Value) -> Option<Rational> {
    match as_text(v) {
        Some(t) => rational_from_text(t),
        None => None,
    }
}

/// The integer `s[from..to]` spells, signed.
fn signed_of(s: &Vec<char>, from: usize, to: usize) -> (r: Option<i128>)
    requires
        from <= to <= s@.len(),
    ensures
        match r {
            Some(v) => signed_value(s@.subrange(from as int, to as int)) == Some(v as int) && v
                > i128::MIN,
            None => signed_value(s@.subrange(from as int, to as int)) is None,
        },
{
    let ghost whole = s@.subrange(from as int, to as int);
    let signed = from < to && (s[from] == '-' || s[from] == '+');
    let negative = signed && s[from] == '-';
    let start: usize = if signed {
        from + 1
    } else {
        from
    };
    let ghost body = s@.subrange(start as int, to as int);
    proof {
        if from < to {
            assert(whole[0] == s@[from as int]);
        }
        assert(signed == has_sign(whole));
        if signed {
            assert(body =~= whole.skip(1));
        } else {
            assert(body =~= whole);
        }
        assert(body == digits_part(whole));
    }
    if start == to {
        return None;
    }
    let mut v: i128 = 0;
    let mut i: usize = start;
    proof {
        assert(s@.subrange(start as int, start as int) =~= Seq::<char>::empty());
    }
    while i < to
        invariant
            start <= i <= to <= s@.len(),
            from <= start,
            whole == s@.subrange(from as int, to as int),
            body == s@.subrange(start as int, to as int),
            body == digits_part(whole),
            all_digits(s@.subrange(start as int, i as int)),
            v == digits_value(s@.subrange(start as int, i as int)),
            0 <= v <= i128::MAX,
        decreases to - i,
    {
        let c = s[i];
        let ghost sub = s@.subrange(start as int, i + 1);
        proof {
            assert(sub.drop_last() =~= s@.subrange(start as int, i as int));
            assert(sub.last() == c);
        }
        if !('0' <= c && c <= '9') {
            proof {
                assert(body[i - start] == c);
                assert(!is_digit(body[i - start]));
            }
            return None;
        }
        let d: i128 = (c as u32 - '0' as u32) as i128;
        if v > (i128::MAX - d) / 10 {
            proof {
                if all_digits(body) {
                    lemma_digits_grow(body, (i - start + 1) as int);
                    assert(body.take(i - start + 1) =~= sub);
                }
            }
            return None;
        }
        v = v * 10 + d;
        proof {
            assert forall|j: int| 0 <= j < sub.len() implies is_digit(#[trigger] sub[j]) by {
                if j < sub.len() - 1 {
                    assert(sub[j] == s@.subrange(start as int, i as int)[j]);
                }
            }
        }
        i = i + 1;
    }
    proof {
        assert(s@.subrange(start as int, to as int) == body);
    }
    if negative {
        Some(-v)
    } else {
        Some(v)
    }
}

/// Reads a rational written as `"numerator/denominator"`; a form without a
/// `/`, with a side that is not an integer, or with a zero denominator is
/// refused rather than guessed at.
pub fn rational(value: &Value, path: &str) -> (r: Result<Rational, StoreError>)
    ensures
        match r {
            Ok(x) => rational_in(*value) == Some(x),
            Err(e) => rational_in(*value) is None && corrupt_at(e, path@),
        },
{
    let raw = string(value, path)?;
    let s = chars_of(raw.as_str());
    let mut k: usize = 0;
    while k < s.len() && s[k] != '/'
        invariant
            k <= s@.len(),
            forall|j: int| 0 <= j < k ==> s@[j] != '/',
        decreases s@.len() - k,
    {
        k = k + 1;
    }
    if k == s.len() {
        proof {
            assert(!exists|j: int| first_slash(s@, j));
        }
        return Err(corrupt(path, "rational has no `/`"));
    }
    proof {
        assert(first_slash(s@, k as int));
        let c = choose|j: int| first_slash(s@, j);
        assert(c == k) by {
            if c < k {
                assert(s@[c] != '/');
            }
            if c > k {
                assert(s@[k as int] != '/');
            }
        }
        assert(s@.subrange(0, k as int) =~= s@.take(k as int));
        assert(s@.subrange(k + 1, s@.len() as int) =~= s@.skip(k + 1));
    }
    let n = match signed_of(&s, 0, k) {
        Some(n) => n,
        None => {
            return Err(corrupt(path, "numerator is not an integer"));
        },
    };
    let d = match signed_of(&s, k + 1, s.len()) {
        Some(d) => d,
        None => {
            return Err(corrupt(path, "denominator is not an integer"));
        },
    };
    if d == 0 {
        return Err(corrupt(path, "rational with a zero denominator"));
    }
    match Rational::reduce(n, d) {
        Some(x) => Ok(x),
        None => Err(corrupt(path, "rational out of range")),
    }
}

/// Writes a rational as `"numerator/denominator"`.
pub fn rational_value(r: Rational) -> (v: Value)
    ensures
        as_text(v) == Some(rational_text(r)),
{
    let mut out: Vec<char> = Vec::new();
    let n = r.numer();
    let d = r.denom();
    push_signed_wide(&mut out, n);
    out.push('/');
    push_decimal_wide(&mut out, d as u128);
    proof {
        assert(out@ =~= rational_text(r));
    }
    Value::String(string_of(&out))
}

/// A written rational reads back as the same number.
pub proof fn law_rationals_round_trip(r: Rational)
    requires
        r.in_range(),
    ensures
        rational_from_text(rational_text(r)) matches Some(x) && denotes(x, r.num(), r.den()),
{
    let n = r.num();
    let d = r.den();
    let t = rational_text(r);
    let head = signed_decimal(n);
    let tail = decimal(d as nat);
    let k = head.len() as int;
    lemma_decimal_digits(d as nat);
    if n < 0 {
        lemma_decimal_digits((-n) as nat);
    } else {
        lemma_decimal_digits(n as nat);
    }
    assert(forall|j: int| 0 <= j < head.len() ==> head[j] != '/') by {
        assert forall|j: int| 0 <= j < head.len() implies head[j] != '/' by {
            if n < 0 {
                if j > 0 {
                    assert(head[j] == decimal((-n) as nat)[j - 1]);
                    assert(is_digit(decimal((-n) as nat)[j - 1]));
                }
            } else {
                assert(is_digit(decimal(n as nat)[j]));
            }
        }
    }
    assert(first_slash(t, k));
    let c = choose|j: int| first_slash(t, j);
    assert(c == k) by {
        if c < k {
            assert(t[c] == head[c]);
        }
        if c > k {
            assert(t[k] == '/');
        }
    }
    assert(t.take(k) =~= head);
    assert(t.skip(k + 1) =~= tail);
    crate::rational::lemma_in_range(r);
    if n < 0 {
        assert(head[0] == '-');
        assert(head.skip(1) =~= decimal((-n) as nat));
        assert(signed_value(head) == Some(n));
    } else {
        assert(is_digit(head[0]));
        assert(signed_value(head) == Some(n));
    }
    assert(is_digit(tail[0]));
    assert(signed_value(tail) == Some(d));
    lemma_make_small(n, d);
    lemma_make_denotes(n, d);
    assert(rational_from_text(t) == make(n, d));
}

/// Writes a timestamp: milliseconds since the epoch, as an integer.
pub fn timestamp_value(t: Timestamp) -> (v: Value)
    ensures
        as_int(v) == Some(t.0),
{
    Value::I64(t.0)
}

/// The timestamp an integer value holds.
pub open spec fn timestamp_in(v: Value) -> Option<Timestamp> {
    match as_int(v) {
        Some(n) => Some(Timestamp(n)),
        None => None,
    }
}

pub fn timestamp(value: &Value, path: &str) -> (r: Result<Timestamp, StoreError>)
    ensures
        match r {
            Ok(t) => timestamp_in(*value) == Some(t),
            Err(e) => timestamp_in(*value) is None && corrupt_at(e, path@),
        },
{
    Ok(Timestamp(integer(value, path)?))
}

/// The serving count an integer value holds: positive, and within a `u32`.
pub open spec fn servings_in(v: Value) -> Option<int> {
    match as_int(v) {
        Some(n) => if 1 <= n <= u32::MAX {
            Some(n as int)
        } else {
            None
        },
        None => None,
    }
}

/// Reads a serving count; zero, a negative count or one beyond a `u32` is
/// refused.
pub fn servings(value: &Value, path: &str) -> (r: Result<Servings, StoreError>)
    ensures
        match r {
            Ok(s) => servings_in(*value) == Some(s.count()),
            Err(e) => servings_in(*value) is None && corrupt_at(e, path@),
        },
{
    let raw = integer(value, path)?;
    if raw < 1 || raw > 0xffff_ffff {
        let mut out: Vec<char> = Vec::new();
        push_signed(&mut out, raw);
        push_str(&mut out, " is not a positive serving count");
        return Err(corrupt(path, string_of(&out).as_str()));
    }
    match Servings::new(raw as u32) {
        Some(s) => Ok(s),
        None => Err(corrupt(path, "not a positive serving count")),
    }
}

/// Writes a serving count.
pub fn servings_value(s: Servings) -> (v: Value)
    ensures
        as_int(v) == Some(s.count() as i64),
{
    Value::I64(s.get() as i64)
}

// --- quantities -------------------------------------------------------------

/// The quantity a map value holds: `{ value: "3/2", unit: "kg" }`.
pub open spec fn quantity_in(v: Value) -> Option<Quantity> {
    match as_map(v) {
        Some(m) => match (present(m, VALUE@), present(m, UNIT@)) {
            (Some(a), Some(b)) => match (rational_in(a), unit_in(b)) {
                (Some(x), Some(u)) => Some(Quantity { value: x, unit: u }),
                _ => None,
            },
            _ => None,
        },
        None => None,
    }
}

/// `v` is how `q` is written: its value as text, its unit as a tag.
pub open spec fn writes_quantity(v: Value, q: Quantity) -> bool {
    &&& as_map(v) matches Some(m)
    &&& present(m, VALUE@) matches Some(a) && as_text(a) == Some(rational_text(q.value))
    &&& present(m, UNIT@) matches Some(b) && as_text(b) == Some(unit_tag_text(q.unit))
}

/// `path` followed by `.` and `key`.
fn subpath(path: &str, key: &str) -> (s: String)
    ensures
        s@ == path@ + seq!['.'] + key@,
{
    let mut out: Vec<char> = Vec::new();
    push_str(&mut out, path);
    out.push('.');
    push_str(&mut out, key);
    proof {
        assert(out@ =~= path@ + seq!['.'] + key@);
    }
    string_of(&out)
}

pub fn quantity(value: &Value, path: &str) -> (r: Result<Quantity, StoreError>)
    ensures
        match r {
            Ok(q) => quantity_in(*value) == Some(q),
            Err(e) => quantity_in(*value) is None && e is Corrupt,
        },
{
    let m = table(value, path)?;
    let v = field(m, VALUE, path)?;
    let u = field(m, UNIT, path)?;
    let value_path = subpath(path, VALUE);
    let unit_path = subpath(path, UNIT);
    let x = rational(v, value_path.as_str())?;
    let unit = unit(u, unit_path.as_str())?;
    Ok(Quantity::new(x, unit))
}

/// Writes a quantity.
pub fn quantity_value(q: &Quantity) -> (v: Value)
    ensures
        writes_quantity(v, *q),
{
    let mut entries: Vec<(String, Value)> = Vec::new();
    entries.push((VALUE.to_owned(), rational_value(q.value)));
    entries.push((UNIT.to_owned(), Value::String(unit_tag(q.unit).to_owned())));
    proof {
        reveal_strlit("value");
        reveal_strlit("unit");
        assert(VALUE@.len() == 5);
        assert(UNIT@.len() == 4);
        assert(entries@[0].0@ == VALUE@);
        assert(entries@[0].0@ != UNIT@);
        assert(entries@[1].0@ == UNIT@);
        assert(entry(entries@.drop_first(), UNIT@) == Some(entries@[1].1));
        assert(entry(entries@, UNIT@) == Some(entries@[1].1));
        assert(entry(entries@, VALUE@) == Some(entries@[0].1));
        assert(entries@.drop_first()[0] == entries@[1]);
    }
    Value::Table(entries)
}

/// A written quantity reads back as the same amount of the same unit.
pub proof fn law_quantities_round_trip(v: Value, q: Quantity)
    requires
        q.value.in_range(),
        writes_quantity(v, q),
    ensures
        quantity_in(v) matches Some(p) && p.unit == q.unit && denotes(p.value, q.value.num(), q.value.den()),
{
    law_rationals_round_trip(q.value);
    law_unit_tags_round_trip(q.unit);
}

/// Every unit reads back from its own tag, so no two units share one.
pub proof fn law_unit_tags_round_trip(x: Unit)
    ensures
        unit_named(unit_tag_text(x)) == Some(x),
{
    reveal_strlit("mg");
    reveal_strlit("g");
    reveal_strlit("kg");
    reveal_strlit("oz");
    reveal_strlit("lb");
    reveal_strlit("ml");
    reveal_strlit("cl");
    reveal_strlit("dl");
    reveal_strlit("l");
    reveal_strlit("tsp_fr");
    reveal_strlit("tbsp_fr");
    reveal_strlit("cup_metric");
    reveal_strlit("tsp_us");
    reveal_strlit("tbsp_us");
    reveal_strlit("cup_us");
    reveal_strlit("floz_us");
    reveal_strlit("piece");
    reveal_strlit("pinch");
    reveal_strlit("to_taste");
    assert("mg"@.len() == 2);
    assert("mg"@[0] == 'm');
    assert("mg"@[1] == 'g');
    assert("g"@.len() == 1);
    assert("g"@[0] == 'g');
    assert("kg"@.len() == 2);
    assert("kg"@[0] == 'k');
    assert("kg"@[1] == 'g');
    assert("oz"@.len() == 2);
    assert("oz"@[0] == 'o');
    assert("oz"@[1] == 'z');
    assert("lb"@.len() == 2);
    assert("lb"@[0] == 'l');
    assert("lb"@[1] == 'b');
    assert("ml"@.len() == 2);
    assert("ml"@[0] == 'm');
    assert("ml"@[1] == 'l');
    assert("cl"@.len() == 2);
    assert("cl"@[0] == 'c');
    assert("cl"@[1] == 'l');
    assert("dl"@.len() == 2);
    assert("dl"@[0] == 'd');
    assert("dl"@[1] == 'l');
    assert("l"@.len() == 1);
    assert("l"@[0] == 'l');
    assert("tsp_fr"@.len() == 6);
    assert("tsp_fr"@[0] == 't');
    assert("tsp_fr"@[1] == 's');
    assert("tsp_fr"@[2] == 'p');
    assert("tsp_fr"@[3] == '_');
    assert("tsp_fr"@[4] == 'f');
    assert("tsp_fr"@[5] == 'r');
    assert("tbsp_fr"@.len() == 7);
    assert("tbsp_fr"@[0] == 't');
    assert("tbsp_fr"@[1] == 'b');
    assert("tbsp_fr"@[2] == 's');
    assert("tbsp_fr"@[3] == 'p');
    assert("tbsp_fr"@[4] == '_');
    assert("tbsp_fr"@[5] == 'f');
    assert("tbsp_fr"@[6] == 'r');
    assert("cup_metric"@.len() == 10);
    assert("cup_metric"@[0] == 'c');
    assert("cup_metric"@[1] == 'u');
    assert("cup_metric"@[2] == 'p');
    assert("cup_metric"@[3] == '_');
    assert("cup_metric"@[4] == 'm');
    assert("cup_metric"@[5] == 'e');
    assert("cup_metric"@[6] == 't');
    assert("cup_metric"@[7] == 'r');
    assert("cup_metric"@[8] == 'i');
    assert("cup_metric"@[9] == 'c');
    assert("tsp_us"@.len() == 6);
    assert("tsp_us"@[0] == 't');
    assert("tsp_us"@[1] == 's');
    assert("tsp_us"@[2] == 'p');
    assert("tsp_us"@[3] == '_');
    assert("tsp_us"@[4] == 'u');
    assert("tsp_us"@[5] == 's');
    assert("tbsp_us"@.len() == 7);
    assert("tbsp_us"@[0] == 't');
    assert("tbsp_us"@[1] == 'b');
    assert("tbsp_us"@[2] == 's');
    assert("tbsp_us"@[3] == 'p');
    assert("tbsp_us"@[4] == '_');
    assert("tbsp_us"@[5] == 'u');
    assert("tbsp_us"@[6] == 's');
    assert("cup_us"@.len() == 6);
    assert("cup_us"@[0] == 'c');
    assert("cup_us"@[1] == 'u');
    assert("cup_us"@[2] == 'p');
    assert("cup_us"@[3] == '_');
    assert("cup_us"@[4] == 'u');
    assert("cup_us"@[5] == 's');
    assert("floz_us"@.len() == 7);
    assert("floz_us"@[0] == 'f');
    assert("floz_us"@[1] == 'l');
    assert("floz_us"@[2] == 'o');
    assert("floz_us"@[3] == 'z');
    assert("floz_us"@[4] == '_');
    assert("floz_us"@[5] == 'u');
    assert("floz_us"@[6] == 's');
    assert("piece"@.len() == 5);
    assert("piece"@[0] == 'p');
    assert("piece"@[1] == 'i');
    assert("piece"@[2] == 'e');
    assert("piece"@[3] == 'c');
    assert("piece"@[4] == 'e');
    assert("pinch"@.len() == 5);
    assert("pinch"@[0] == 'p');
    assert("pinch"@[1] == 'i');
    assert("pinch"@[2] == 'n');
    assert("pinch"@[3] == 'c');
    assert("pinch"@[4] == 'h');
    assert("to_taste"@.len() == 8);
    assert("to_taste"@[0] == 't');
    assert("to_taste"@[1] == 'o');
    assert("to_taste"@[2] == '_');
    assert("to_taste"@[3] == 't');
    assert("to_taste"@[4] == 'a');
    assert("to_taste"@[5] == 's');
    assert("to_taste"@[6] == 't');
    assert("to_taste"@[7] == 'e');
    assert(unit_named("mg"@) == Some(Unit::Mass(MassUnit::Milligram)));
    assert(unit_named("g"@) == Some(Unit::Mass(MassUnit::Gram)));
    assert(unit_named("kg"@) == Some(Unit::Mass(MassUnit::Kilogram)));
    assert(unit_named("oz"@) == Some(Unit::Mass(MassUnit::Ounce)));
    assert(unit_named("lb"@) == Some(Unit::Mass(MassUnit::Pound)));
    assert(unit_named("ml"@) == Some(Unit::Volume(VolumeUnit::Milliliter)));
    assert(unit_named("cl"@) == Some(Unit::Volume(VolumeUnit::Centiliter)));
    assert(unit_named("dl"@) == Some(Unit::Volume(VolumeUnit::Deciliter)));
    assert(unit_named("l"@) == Some(Unit::Volume(VolumeUnit::Liter)));
    assert(unit_named("tsp_fr"@) == Some(Unit::Volume(VolumeUnit::TeaspoonFr)));
    assert(unit_named("tbsp_fr"@) == Some(Unit::Volume(VolumeUnit::TablespoonFr)));
    assert(unit_named("cup_metric"@) == Some(Unit::Volume(VolumeUnit::CupMetric)));
    assert(unit_named("tsp_us"@) == Some(Unit::Volume(VolumeUnit::TeaspoonUs)));
    assert(unit_named("tbsp_us"@) == Some(Unit::Volume(VolumeUnit::TablespoonUs)));
    assert(unit_named("cup_us"@) == Some(Unit::Volume(VolumeUnit::CupUs)));
    assert(unit_named("floz_us"@) == Some(Unit::Volume(VolumeUnit::FluidOunceUs)));
    assert(unit_named("piece"@) == Some(Unit::Piece));
    assert(unit_named("pinch"@) == Some(Unit::Pinch));
    assert(unit_named("to_taste"@) == Some(Unit::ToTaste));
}

/// Every aisle reads back from its own tag.
pub proof fn law_aisle_tags_round_trip(x: Aisle)
    ensures
        aisle_named(aisle_tag_text(x)) == x,
{
    reveal_strlit("produce");
    reveal_strlit("butcher");
    reveal_strlit("fish");
    reveal_strlit("deli");
    reveal_strlit("dairy");
    reveal_strlit("bakery");
    reveal_strlit("grocery");
    reveal_strlit("frozen");
    reveal_strlit("beverages");
    reveal_strlit("household");
    reveal_strlit("other");
    assert("produce"@.len() == 7);
    assert("produce"@[0] == 'p');
    assert("produce"@[1] == 'r');
    assert("produce"@[2] == 'o');
    assert("produce"@[3] == 'd');
    assert("produce"@[4] == 'u');
    assert("produce"@[5] == 'c');
    assert("produce"@[6] == 'e');
    assert("butcher"@.len() == 7);
    assert("butcher"@[0] == 'b');
    assert("butcher"@[1] == 'u');
    assert("butcher"@[2] == 't');
    assert("butcher"@[3] == 'c');
    assert("butcher"@[4] == 'h');
    assert("butcher"@[5] == 'e');
    assert("butcher"@[6] == 'r');
    assert("fish"@.len() == 4);
    assert("fish"@[0] == 'f');
    assert("fish"@[1] == 'i');
    assert("fish"@[2] == 's');
    assert("fish"@[3] == 'h');
    assert("deli"@.len() == 4);
    assert("deli"@[0] == 'd');
    assert("deli"@[1] == 'e');
    assert("deli"@[2] == 'l');
    assert("deli"@[3] == 'i');
    assert("dairy"@.len() == 5);
    assert("dairy"@[0] == 'd');
    assert("dairy"@[1] == 'a');
    assert("dairy"@[2] == 'i');
    assert("dairy"@[3] == 'r');
    assert("dairy"@[4] == 'y');
    assert("bakery"@.len() == 6);
    assert("bakery"@[0] == 'b');
    assert("bakery"@[1] == 'a');
    assert("bakery"@[2] == 'k');
    assert("bakery"@[3] == 'e');
    assert("bakery"@[4] == 'r');
    assert("bakery"@[5] == 'y');
    assert("grocery"@.len() == 7);
    assert("grocery"@[0] == 'g');
    assert("grocery"@[1] == 'r');
    assert("grocery"@[2] == 'o');
    assert("grocery"@[3] == 'c');
    assert("grocery"@[4] == 'e');
    assert("grocery"@[5] == 'r');
    assert("grocery"@[6] == 'y');
    assert("frozen"@.len() == 6);
    assert("frozen"@[0] == 'f');
    assert("frozen"@[1] == 'r');
    assert("frozen"@[2] == 'o');
    assert("frozen"@[3] == 'z');
    assert("frozen"@[4] == 'e');
    assert("frozen"@[5] == 'n');
    assert("beverages"@.len() == 9);
    assert("beverages"@[0] == 'b');
    assert("beverages"@[1] == 'e');
    assert("beverages"@[2] == 'v');
    assert("beverages"@[3] == 'e');
    assert("beverages"@[4] == 'r');
    assert("beverages"@[5] == 'a');
    assert("beverages"@[6] == 'g');
    assert("beverages"@[7] == 'e');
    assert("beverages"@[8] == 's');
    assert("household"@.len() == 9);
    assert("household"@[0] == 'h');
    assert("household"@[1] == 'o');
    assert("household"@[2] == 'u');
    assert("household"@[3] == 's');
    assert("household"@[4] == 'e');
    assert("household"@[5] == 'h');
    assert("household"@[6] == 'o');
    assert("household"@[7] == 'l');
    assert("household"@[8] == 'd');
    assert("other"@.len() == 5);
    assert("other"@[0] == 'o');
    assert("other"@[1] == 't');
    assert("other"@[2] == 'h');
    assert("other"@[3] == 'e');
    assert("other"@[4] == 'r');
    assert(aisle_named("produce"@) == Aisle::Produce);
    assert(aisle_named("butcher"@) == Aisle::Butcher);
    assert(aisle_named("fish"@) == Aisle::Fish);
    assert(aisle_named("deli"@) == Aisle::Deli);
    assert(aisle_named("dairy"@) == Aisle::Dairy);
    assert(aisle_named("bakery"@) == Aisle::Bakery);
    assert(aisle_named("grocery"@) == Aisle::Grocery);
    assert(aisle_named("frozen"@) == Aisle::Frozen);
    assert(aisle_named("beverages"@) == Aisle::Beverages);
    assert(aisle_named("household"@) == Aisle::Household);
    assert(aisle_named("other"@) == Aisle::Other);
}

/// Every reference display reads back from its own tag.
pub proof fn law_display_tags_round_trip(x: RefDisplay)
    ensures
        display_named(display_tag_text(x)) == Some(x),
{
    reveal_strlit("full");
    reveal_strlit("name_only");
    reveal_strlit("quantity_only");
    assert("full"@.len() == 4);
    assert("name_only"@.len() == 9);
    assert("quantity_only"@.len() == 13);
    assert(display_named("full"@) == Some(RefDisplay::Full));
    assert(display_named("name_only"@) == Some(RefDisplay::NameOnly));
    assert(display_named("quantity_only"@) == Some(RefDisplay::QuantityOnly));
}

} // verus!

//! What an operator is told about the families on disk.
//!
//! The relay cannot tell an abandoned family from a quiet one: it holds no
//! key, no roster and no calendar of anyone's life. So there is no expiry and
//! no sweep — only a survey, for a person who knows which family they
//! abandoned, and a command that forgets one named in full. This module
//! holds what those two decide: which directory names are families at all,
//! how many frames a log has handed out, and how ages read.

use vstd::prelude::*;
use vstd::multiset::Multiset;
use vstd::string::StringSliceAdditionalSpecFns;

use crate::relay::log::Meta;
use crate::text::{
    decimal, lemma_seq_lt_irreflexive, lemma_seq_lt_transitive, push_decimal, push_str, seq_lt, str_lt, string_of,
};

verus! {

/// Whether byte `b` is an ASCII hex digit, in either case.
pub open spec fn is_hex_byte(b: u8) -> bool {
    (48 <= b <= 57) || (97 <= b <= 102) || (65 <= b <= 70)
}

/// A family id is 16 bytes rendered as hex, and the directory is named after
/// it. Anything else under the data root belongs to somebody else and is
/// left alone — including, deliberately, whatever a future version puts
/// there.
pub fn is_family_id(name: &str) -> (b: bool)
    ensures
        b == (name.spec_bytes().len() == 32 && forall|i: int|
            0 <= i < 32 ==> is_hex_byte(#[trigger] name.spec_bytes()[i])),
{
    let bytes = name.as_bytes();
    if bytes.len() != 32 {
        return false;
    }
    let mut i: usize = 0;
    while i < 32
        invariant
            i <= 32,
            bytes@ == name.spec_bytes(),
            bytes@.len() == 32,
            forall|j: int| 0 <= j < i ==> is_hex_byte(#[trigger] bytes@[j]),
        decreases 32 - i,
    {
        let b = bytes[i];
        if !((48 <= b && b <= 57) || (97 <= b && b <= 102) || (65 <= b && b <= 70)) {
            return false;
        }
        i = i + 1;
    }
    true
}

/// Sequence numbers handed out over a family's whole life — including those
/// a snapshot has since truncated away: one less than the next to be handed
/// out, and none for a family whose meta is gone.
pub fn frames_handed_out(meta: Option<Meta>) -> (n: u64)
    ensures
        n == match meta {
            Some(m) => if m.next_seq == 0 {
                0
            } else {
                m.next_seq - 1
            },
            None => 0,
        },
{
    match meta {
        Some(m) => m.next_seq.saturating_sub(1),
        None => 0,
    }
}

/// An age of `secs` seconds as a person would say it: seconds under a
/// minute, minutes under an hour, hours under a day, then days.
pub open spec fn spoken_age(secs: nat) -> Seq<char> {
    if secs < 60 {
        decimal(secs) + "s"@
    } else if secs < 3600 {
        decimal(secs / 60) + "min"@
    } else if secs < 86400 {
        decimal(secs / 3600) + "h"@
    } else {
        decimal(secs / 86400) + " days"@
    }
}

/// An age in seconds, as a person would say it.
pub fn humanize_secs(secs: u64) -> (s: String)
    ensures
        s@ == spoken_age(secs as nat),
{
    let mut out: Vec<char> = Vec::new();
    if secs < 60 {
        push_decimal(&mut out, secs);
        push_str(&mut out, "s");
    } else if secs < 3600 {
        push_decimal(&mut out, secs / 60);
        push_str(&mut out, "min");
    } else if secs < 86400 {
        push_decimal(&mut out, secs / 3600);
        push_str(&mut out, "h");
    } else {
        push_decimal(&mut out, secs / 86400);
        push_str(&mut out, " days");
    }
    string_of(&out)
}

/// The whole seconds that a `Duration` holds, as `Duration::as_secs` gives
/// them: a function of the duration alone, which the library does not take
/// apart further.
pub uninterp spec fn seconds_of(d: std::time::Duration) -> u64;

/// `Duration::as_secs`: the whole seconds of `d`, named by `seconds_of`.
#[verifier::external_body]
fn whole_seconds(d: std::time::Duration) -> (n: u64)
    ensures
        n == seconds_of(d),
{
    d.as_secs()
}

/// An age as a person would say it: "12s", "3min", "5h", "97 days". Ages
/// rather than dates, because the question is "which of these stopped when
/// I rotated", and "97 days" answers it without arithmetic on a timestamp.
pub fn humanize(d: std::time::Duration) -> (s: String)
    ensures
        s@ == spoken_age(seconds_of(d) as nat),
{
    humanize_secs(whole_seconds(d))
}

/// `n / d` rounded to the nearest whole number, halves to the even one.
pub open spec fn round_half_even(n: nat, d: nat) -> nat
    recommends
        d > 0,
{
    let q = n / d;
    let r = n % d;
    if 2 * r < d || (2 * r == d && q % 2 == 0) {
        q
    } else {
        q + 1
    }
}

/// A size as the survey prints it: bytes under a kibibyte, whole kilobytes
/// under a mebibyte, then megabytes to one decimal, each rounded to the
/// nearest with halves to the even digit.
pub open spec fn spoken_size(n: nat) -> Seq<char> {
    if n < 1024 {
        decimal(n) + " B"@
    } else if n < 1048576 {
        decimal(round_half_even(n, 1024)) + " kB"@
    } else {
        let tenths = round_half_even(n * 10, 1048576);
        decimal(tenths / 10) + "."@ + decimal(tenths % 10) + " MB"@
    }
}

fn round_half_even_of(n: u128, d: u128) -> (r: u128)
    requires
        d > 0,
        n <= u64::MAX as u128 * 10,
    ensures
        r == round_half_even(n as nat, d as nat),
        r <= n / d + 1,
{
    let q = n / d;
    let r = n % d;
    if r < d - r || (r == d - r && q % 2 == 0) {
        q
    } else {
        q + 1
    }
}

/// A size in bytes, as the survey prints it.
pub fn bytes(n: u64) -> (s: String)
    ensures
        s@ == spoken_size(n as nat),
{
    let mut out: Vec<char> = Vec::new();
    if n < 1024 {
        push_decimal(&mut out, n);
        push_str(&mut out, " B");
    } else if n < 1048576 {
        let k = round_half_even_of(n as u128, 1024);
        push_decimal(&mut out, k as u64);
        push_str(&mut out, " kB");
    } else {
        let tenths = round_half_even_of(n as u128 * 10, 1048576);
        assert(tenths <= u64::MAX);
        push_decimal(&mut out, (tenths / 10) as u64);
        push_str(&mut out, ".");
        push_decimal(&mut out, (tenths % 10) as u64);
        push_str(&mut out, " MB");
    }
    string_of(&out)
}

/// When a family last received something, as the survey reads it.
#[derive(Debug, Clone, Copy, PartialEq, Eq)]
pub enum LastWrite {
    /// It said hello and never pushed.
    Never,
    /// This many whole seconds ago.
    Ago(u64),
    /// The clock says the write lies ahead of it.
    InTheFuture,
}

/// One family's directory, as reported without opening it.
#[derive(Debug, Clone, PartialEq, Eq)]
pub struct Family {
    /// The directory name: a family id in hex.
    pub id: String,
    /// Sequence numbers handed out over the family's whole life.
    pub frames: u64,
    /// Everything under the directory.
    pub bytes: u64,
    pub last_write: LastWrite,
}

/// `n` spaces.
pub open spec fn spaces(n: nat) -> Seq<char> {
    Seq::new(n, |i: int| ' ')
}

/// `s` padded with spaces on the right to `w` characters.
pub open spec fn pad_right(s: Seq<char>, w: nat) -> Seq<char> {
    if s.len() < w {
        s + spaces((w - s.len()) as nat)
    } else {
        s
    }
}

/// `s` padded with spaces on the left to `w` characters.
pub open spec fn pad_left(s: Seq<char>, w: nat) -> Seq<char> {
    if s.len() < w {
        spaces((w - s.len()) as nat) + s
    } else {
        s
    }
}

/// One line of the survey table.
pub open spec fn table_row(id: Seq<char>, frames: Seq<char>, size: Seq<char>, age: Seq<char>) -> Seq<char> {
    pad_right(id, 32) + "  "@ + pad_left(frames, 8) + "  "@ + pad_left(size, 9) + "  "@ + age + "\n"@
}

/// How a last write reads.
pub open spec fn age_text(last: LastWrite) -> Seq<char> {
    match last {
        LastWrite::Never => "never"@,
        LastWrite::Ago(secs) => spoken_age(secs as nat) + " ago"@,
        LastWrite::InTheFuture => "in the future"@,
    }
}

/// The table rows of `families`, in order.
pub open spec fn family_rows(families: Seq<Family>) -> Seq<char>
    decreases families.len(),
{
    if families.len() == 0 {
        seq![]
    } else {
        let f = families.last();
        family_rows(families.drop_last()) + table_row(f.id@, decimal(f.frames as nat), spoken_size(f.bytes as nat), age_text(f.last_write))
    }
}

/// Everything on disk, over `families`.
pub open spec fn total_bytes(families: Seq<Family>) -> nat
    decreases families.len(),
{
    if families.len() == 0 {
        0
    } else {
        total_bytes(families.drop_last()) + families.last().bytes as nat
    }
}

/// The survey as text, for a terminal: ages rather than dates, since the
/// question it answers is "which of these stopped when I rotated".
pub open spec fn survey_text(families: Seq<Family>) -> Seq<char> {
    if families.len() == 0 {
        "no families \u{2014} nothing has ever synced through this relay\n"@
    } else {
        table_row("family"@, "frames"@, "size"@, "last write"@) + family_rows(families) + "\n"@ + decimal(families.len())
            + (if families.len() == 1 {
            " family, "@
        } else {
            " families, "@
        }) + spoken_size(total_bytes(families)) + " on disk\n"@
    }
}

fn push_spaces(out: &mut Vec<char>, n: usize)
    ensures
        final(out)@ == old(out)@ + spaces(n as nat),
{
    let mut i: usize = 0;
    while i < n
        invariant
            i <= n,
            out@ == old(out)@ + spaces(i as nat),
        decreases n - i,
    {
        out.push(' ');
        proof {
            assert(old(out)@ + spaces((i + 1) as nat) =~= old(out)@ + spaces(i as nat) + seq![' ']);
        }
        i = i + 1;
    }
}

fn push_padded_right(out: &mut Vec<char>, s: &Vec<char>, w: usize)
    ensures
        final(out)@ == old(out)@ + pad_right(s@, w as nat),
{
    push_chars(out, s);
    if s.len() < w {
        push_spaces(out, w - s.len());
    }
    proof {
        assert(out@ =~= old(out)@ + pad_right(s@, w as nat));
    }
}

fn push_padded_left(out: &mut Vec<char>, s: &Vec<char>, w: usize)
    ensures
        final(out)@ == old(out)@ + pad_left(s@, w as nat),
{
    if s.len() < w {
        push_spaces(out, w - s.len());
    }
    push_chars(out, s);
    proof {
        assert(out@ =~= old(out)@ + pad_left(s@, w as nat));
    }
}

#[verifier::rlimit(30)]
fn push_row(out: &mut Vec<char>, id: &Vec<char>, frames: &Vec<char>, size: &Vec<char>, age: &Vec<char>)
    ensures
        final(out)@ == old(out)@ + table_row(id@, frames@, size@, age@),
{
    let ghost s0 = out@;
    push_padded_right(out, id, 32);
    push_str(out, "  ");
    push_padded_left(out, frames, 8);
    push_str(out, "  ");
    push_padded_left(out, size, 9);
    push_str(out, "  ");
    push_chars(out, age);
    push_str(out, "\n");
    proof {
        let a = pad_right(id@, 32);
        let b = pad_left(frames@, 8);
        let c = pad_left(size@, 9);
        assert(out@ == s0 + a + "  "@ + b + "  "@ + c + "  "@ + age@ + "\n"@);
        assert(s0 + a + "  "@ + b + "  "@ + c + "  "@ + age@ + "\n"@ =~= s0 + (a + "  "@ + b + "  "@ + c + "  "@ + age@ + "\n"@));
    }
}

fn push_chars(out: &mut Vec<char>, s: &Vec<char>)
    ensures
        final(out)@ == old(out)@ + s@,
{
    let mut i: usize = 0;
    while i < s.len()
        invariant
            i <= s@.len(),
            out@ == old(out)@ + s@.take(i as int),
        decreases s@.len() - i,
    {
        out.push(s[i]);
        proof {
            assert(s@.take(i + 1) =~= s@.take(i as int).push(s@[i as int]));
        }
        i = i + 1;
    }
    proof {
        assert(s@.take(i as int) =~= s@);
    }
}

fn chars_from(s: &str) -> (r: Vec<char>)
    ensures
        r@ == s@,
{
    let mut r: Vec<char> = Vec::new();
    push_str(&mut r, s);
    proof {
        assert(r@ =~= s@);
    }
    r
}

fn age_chars(last: LastWrite) -> (r: Vec<char>)
    ensures
        r@ == age_text(last),
{
    match last {
        LastWrite::Never => chars_from("never"),
        LastWrite::Ago(secs) => {
            let mut r = chars_from(humanize_secs(secs).as_str());
            push_str(&mut r, " ago");
            r
        },
        LastWrite::InTheFuture => chars_from("in the future"),
    }
}

/// Everything on disk over `families`, when a counter holds it.
pub fn total_bytes_of(families: &Vec<Family>) -> (r: Option<u64>)
    ensures
        match r {
            Some(t) => t == total_bytes(families@),
            None => total_bytes(families@) > u64::MAX,
        },
{
    let mut total: u64 = 0;
    let mut i: usize = 0;
    while i < families.len()
        invariant
            i <= families@.len(),
            total == total_bytes(families@.take(i as int)),
        decreases families@.len() - i,
    {
        proof {
            assert(families@.take(i + 1).drop_last() =~= families@.take(i as int));
        }
        match total.checked_add(families[i].bytes) {
            Some(t) => total = t,
            None => {
                proof {
                    lemma_total_prefix(families@, i + 1);
                }
                return None;
            },
        }
        i = i + 1;
    }
    proof {
        assert(families@.take(i as int) =~= families@);
    }
    Some(total)
}

/// The survey as text, for a terminal.
pub fn render(families: &Vec<Family>) -> (s: String)
    requires
        total_bytes(families@) <= u64::MAX,
    ensures
        s@ == survey_text(families@),
{
    if families.len() == 0 {
        return string_of(&chars_from("no families \u{2014} nothing has ever synced through this relay\n"));
    }
    let mut out: Vec<char> = Vec::new();
    push_row(&mut out, &chars_from("family"), &chars_from("frames"), &chars_from("size"), &chars_from("last write"));
    let ghost header = out@;
    let mut total: u64 = 0;
    let mut i: usize = 0;
    while i < families.len()
        invariant
            i <= families@.len(),
            total_bytes(families@) <= u64::MAX,
            total == total_bytes(families@.take(i as int)),
            out@ == header + family_rows(families@.take(i as int)),
        decreases families@.len() - i,
    {
        let f = &families[i];
        proof {
            assert(families@.take(i + 1).drop_last() =~= families@.take(i as int));
            lemma_total_prefix(families@, i + 1);
        }
        total = total + f.bytes;
        let mut frames: Vec<char> = Vec::new();
        push_decimal(&mut frames, f.frames);
        proof {
            assert(frames@ =~= decimal(f.frames as nat));
        }
        push_row(&mut out, &chars_from(f.id.as_str()), &frames, &chars_from(bytes(f.bytes).as_str()), &age_chars(f.last_write));
        i = i + 1;
    }
    proof {
        assert(families@.take(i as int) =~= families@);
    }
    push_str(&mut out, "\n");
    push_decimal(&mut out, families.len() as u64);
    if families.len() == 1 {
        push_str(&mut out, " family, ");
    } else {
        push_str(&mut out, " families, ");
    }
    push_str(&mut out, bytes(total).as_str());
    push_str(&mut out, " on disk\n");
    proof {
        assert(out@ =~= survey_text(families@));
    }
    string_of(&out)
}

proof fn lemma_total_prefix(families: Seq<Family>, k: int)
    requires
        0 <= k <= families.len(),
    ensures
        total_bytes(families.take(k)) <= total_bytes(families),
    decreases families.len() - k,
{
    if k < families.len() {
        lemma_total_prefix(families, k + 1);
        assert(families.take(k + 1).drop_last() =~= families.take(k));
    } else {
        assert(families.take(k) =~= families);
    }
}

/// `a` is older activity than `b`: never written comes first, then writes
/// from longest ago to most recent, then a write the clock puts ahead.
pub open spec fn staler(a: LastWrite, b: LastWrite) -> bool {
    match (a, b) {
        (LastWrite::Never, LastWrite::Never) => false,
        (LastWrite::Never, _) => true,
        (LastWrite::Ago(x), LastWrite::Ago(y)) => x > y,
        (LastWrite::Ago(_), LastWrite::InTheFuture) => true,
        _ => false,
    }
}

/// `a` is listed before `b`: staler, or as stale and first by id.
pub open spec fn listed_before(a: Family, b: Family) -> bool {
    staler(a.last_write, b.last_write) || (a.last_write == b.last_write && seq_lt(a.id@, b.id@))
}

/// `s` is in listing order.
pub open spec fn stalest_first_order(s: Seq<Family>) -> bool {
    forall|i: int, j: int| 0 <= i < j < s.len() ==> !listed_before(#[trigger] s[j], #[trigger] s[i])
}

proof fn lemma_listed_before_strict(a: Family, b: Family, c: Family)
    ensures
        !listed_before(a, a),
        listed_before(a, b) && listed_before(b, c) ==> listed_before(a, c),
{
    lemma_seq_lt_irreflexive(a.id@);
    if listed_before(a, b) && listed_before(b, c) {
        if a.last_write == b.last_write && b.last_write == c.last_write {
            lemma_seq_lt_transitive(a.id@, b.id@, c.id@);
        }
    }
}

fn listed_before_exec(a: &Family, b: &Family) -> (r: bool)
    ensures
        r == listed_before(*a, *b),
{
    let same_age = match (a.last_write, b.last_write) {
        (LastWrite::Never, LastWrite::Never) => true,
        (LastWrite::Ago(x), LastWrite::Ago(y)) => x == y,
        (LastWrite::InTheFuture, LastWrite::InTheFuture) => true,
        _ => false,
    };
    let older = match (a.last_write, b.last_write) {
        (LastWrite::Never, LastWrite::Never) => false,
        (LastWrite::Never, _) => true,
        (LastWrite::Ago(x), LastWrite::Ago(y)) => x > y,
        (LastWrite::Ago(_), LastWrite::InTheFuture) => true,
        _ => false,
    };
    older || (same_age && str_lt(a.id.as_str(), b.id.as_str()))
}

/// The survey in listing order, oldest activity first: the candidates for
/// forgetting come to the top, a family that never wrote anything first of
/// all, as the emptiest thing there and the least costly mistake to remove.
pub fn stalest_first(families: Vec<Family>) -> (r: Vec<Family>)
    ensures
        r@.to_multiset() == families@.to_multiset(),
        stalest_first_order(r@),
{
    broadcast use vstd::seq_lib::group_to_multiset_ensures, vstd::multiset::group_multiset_axioms;
    let mut rest = families;
    let mut out: Vec<Family> = Vec::new();
    proof {
        assert(out@.to_multiset() =~= Multiset::<Family>::empty());
        assert(out@.to_multiset().add(rest@.to_multiset()) =~= families@.to_multiset());
    }
    while rest.len() > 0
        invariant
            out@.to_multiset().add(rest@.to_multiset()) == families@.to_multiset(),
            stalest_first_order(out@),
        decreases rest@.len(),
    {
        let ghost before_rest = rest@;
        let x = rest.pop().unwrap();
        proof {
            assert(before_rest =~= rest@.push(x));
            vstd::seq_lib::to_multiset_build(rest@, x);
            assert(before_rest.to_multiset() =~= rest@.to_multiset().insert(x));
        }
        let mut p: usize = 0;
        while p < out.len() && !listed_before_exec(&x, &out[p])
            invariant
                p <= out@.len(),
                forall|q: int| 0 <= q < p ==> !listed_before(x, #[trigger] out@[q]),
            decreases out@.len() - p,
        {
            p = p + 1;
        }
        let ghost old_out = out@;
        out.insert(p, x);
        proof {
            assert(out@ == old_out.insert(p as int, x));
            vstd::seq_lib::to_multiset_insert(old_out, p as int, x);
            assert(out@.to_multiset() =~= old_out.to_multiset().insert(x));
            assert(out@.to_multiset().add(rest@.to_multiset()) =~= old_out.to_multiset().add(
                before_rest.to_multiset(),
            ));
            assert forall|i: int, j: int| 0 <= i < j < out@.len() implies !listed_before(
                #[trigger] out@[j],
                #[trigger] out@[i],
            ) by {
                if j < p {
                    assert(out@[i] == old_out[i] && out@[j] == old_out[j]);
                } else if j == p {
                    assert(out@[j] == x && out@[i] == old_out[i]);
                } else if i > p {
                    assert(out@[i] == old_out[i - 1] && out@[j] == old_out[j - 1]);
                } else if i == p {
                    assert(out@[i] == x && out@[j] == old_out[j - 1]);
                    assert(p < old_out.len());
                    lemma_listed_before_strict(old_out[j - 1], x, old_out[p as int]);
                    lemma_listed_before_strict(old_out[p as int], x, x);
                } else {
                    assert(out@[i] == old_out[i] && out@[j] == old_out[j - 1]);
                }
            }
        }
    }
    out
}

} // verus!

//! The family key, and the 12-word phrase that is its only true form.
//!
//! The BIP39 mnemonic is the **single canonical secret**: the symmetric key
//! is the first 32 bytes of its standard seed, the family id — the relay's
//! routing and storage key — is the next 16. Every device derives both from
//! the same phrase with no second channel, so pairing by QR and pairing by
//! typing the phrase are the same operation with different input methods.
//!
//! The wordlist is BIP39 English: it is the list every backup tool
//! understands, and the phrase carries its own checksum.

use vstd::prelude::*;
use vstd::string::StringSliceAdditionalSpecFns;

use crate::sync::error::SyncError;
use crate::text::{
    char_is_space, chars_of, decimal, digit, digit_char, is_space, push_decimal, push_str,
    string_of,
};

verus! {

#[verifier::external_type_specification]
#[verifier::external_body]
pub struct ExMnemonic(bip39::Mnemonic);

/// A BIP39 mnemonic, with the words it is written as: lowercase, single
/// spaces.
pub struct Phrase {
    mnemonic: bip39::Mnemonic,
    words: Ghost<Seq<char>>,
}

impl View for Phrase {
    type V = Seq<char>;

    closed spec fn view(&self) -> Seq<char> {
        self.words@
    }
}

/// The number of words a phrase has. `bip39` would happily parse 15 up to
/// 24, but a phrase of any other length here means a word was lost in
/// transcription, and "expected 12 words, got 11" is the error that says so.
pub const PHRASE_WORDS: usize = 12;

/// The relay's routing and storage key: unguessable, which is the relay's
/// entire access story.
#[derive(Debug, Clone, Copy, PartialEq, Eq, Hash)]
pub struct FamilyId(pub [u8; 16]);

/// `bytes` in lowercase hex, two digits each.
pub open spec fn hex_of(bytes: Seq<u8>) -> Seq<char>
    decreases bytes.len(),
{
    if bytes.len() == 0 {
        seq![]
    } else {
        hex_of(bytes.drop_last()) + seq![
            digit(bytes.last() as int / 16),
            digit(bytes.last() as int % 16),
        ]
    }
}

/// The value of the hex digit whose ASCII code is `b`, in either case.
pub open spec fn hex_value(b: u8) -> Option<int> {
    if 48 <= b <= 57 {
        Some(b - 48)
    } else if 97 <= b <= 102 {
        Some(b - 87)
    } else if 65 <= b <= 70 {
        Some(b - 55)
    } else {
        None
    }
}

/// The byte a two-byte chunk spells: two hex digits, high first.
pub open spec fn hex_pair(hi: u8, lo: u8) -> Option<u8> {
    match (hex_value(hi), hex_value(lo)) {
        (Some(h), Some(l)) => Some((h * 16 + l) as u8),
        _ => None,
    }
}

/// The bytes `text` spells, two characters each; `None` unless every
/// character is an ASCII hex digit.
pub open spec fn parse_hex(text: Seq<u8>) -> Option<Seq<u8>>
    decreases text.len(),
{
    if text.len() == 0 {
        Some(seq![])
    } else if text.len() == 1 {
        None
    } else {
        match (
            parse_hex(text.take(text.len() - 2)),
            hex_pair(text[text.len() - 2], text[text.len() - 1]),
        ) {
            (Some(p), Some(b)) => Some(p.push(b)),
            _ => None,
        }
    }
}

fn hex_value_of(b: u8) -> (r: Option<u8>)
    ensures
        match (r, hex_value(b)) {
            (Some(x), Some(y)) => x == y,
            (None, None) => true,
            _ => false,
        },
{
    if 48 <= b && b <= 57 {
        Some(b - 48)
    } else if 97 <= b && b <= 102 {
        Some(b - 87)
    } else if 65 <= b && b <= 70 {
        Some(b - 55)
    } else {
        None
    }
}

fn hex_pair_of(hi: u8, lo: u8) -> (r: Option<u8>)
    ensures
        r == hex_pair(hi, lo),
{
    match (hex_value_of(hi), hex_value_of(lo)) {
        (Some(h), Some(l)) => Some(h * 16 + l),
        _ => None,
    }
}

impl FamilyId {
    /// The hex spelling — directory names on the relay, and nothing else.
    pub fn to_hex(&self) -> (s: String)
        ensures
            s@ == hex_of(self.0@),
    {
        let mut out: Vec<char> = Vec::new();
        let mut i: usize = 0;
        while i < 16
            invariant
                i <= 16,
                out@ == hex_of(self.0@.take(i as int)),
            decreases 16 - i,
        {
            let b = self.0[i];
            proof {
                assert(self.0@.take(i + 1).drop_last() =~= self.0@.take(i as int));
                assert(self.0@.take(i + 1).last() == b);
            }
            out.push(digit_char(b / 16));
            out.push(digit_char(b % 16));
            i = i + 1;
        }
        proof {
            assert(self.0@.take(16) =~= self.0@);
        }
        string_of(&out)
    }

    /// Parses the hex spelling back. The relay uses this to rediscover its
    /// families from directory names after a restart.
    pub fn from_hex(hex: &str) -> (r: Result<FamilyId, SyncError>)
        ensures
            hex.spec_bytes().len() != 32 ==> (r matches Err(SyncError::Wire(m)) && m@
                == "family id: expected 32 hex digits, got "@ + decimal(hex.spec_bytes().len())),
            hex.spec_bytes().len() == 32 ==> match parse_hex(hex.spec_bytes()) {
                Some(b) => (r matches Ok(id) && id.0@ == b),
                None => (r matches Err(SyncError::Wire(m)) && m@ == "family id: not hex"@),
            },
    {
        let bytes = hex.as_bytes();
        if bytes.len() != 32 {
            let mut m: Vec<char> = Vec::new();
            push_str(&mut m, "family id: expected 32 hex digits, got ");
            push_decimal(&mut m, bytes.len() as u64);
            return Err(SyncError::Wire(string_of(&m)));
        }
        let ghost text = hex.spec_bytes();
        let mut out = [0u8; 16];
        let mut i: usize = 0;
        proof {
            assert(text.take(0) =~= Seq::<u8>::empty());
            assert(out@.take(0) =~= Seq::<u8>::empty());
        }
        while i < 16
            invariant
                i <= 16,
                bytes@ == text,
                text == hex.spec_bytes(),
                text.len() == 32,
                parse_hex(text.take(2 * i)) == Some(out@.take(i as int)),
            decreases 16 - i,
        {
            let b = match hex_pair_of(bytes[2 * i], bytes[2 * i + 1]) {
                Some(b) => b,
                None => {
                    proof {
                        let t = text.take(2 * i + 2);
                        assert(t.take(t.len() - 2) =~= text.take(2 * i));
                        lemma_parse_hex_fails(text, 2 * i + 2);
                    }
                    let mut m: Vec<char> = Vec::new();
                    push_str(&mut m, "family id: not hex");
                    proof {
                        assert(m@ =~= "family id: not hex"@);
                    }
                    return Err(SyncError::Wire(string_of(&m)));
                },
            };
            let ghost before = out@;
            out[i] = b;
            proof {
                let t = text.take(2 * i + 2);
                assert(t.take(t.len() - 2) =~= text.take(2 * i));
                assert(out@.take(i + 1) =~= before.take(i as int).push(b));
            }
            i = i + 1;
        }
        proof {
            assert(text.take(32) =~= text);
            assert(out@.take(16) =~= out@);
        }
        Ok(FamilyId(out))
    }
}

proof fn lemma_parse_hex_fails(text: Seq<u8>, n: int)
    requires
        2 <= n <= text.len(),
        n % 2 == 0,
        text.len() % 2 == 0,
        parse_hex(text.take(n)) is None,
    ensures
        parse_hex(text) is None,
    decreases text.len() - n,
{
    if n < text.len() {
        let t = text.take(n + 2);
        assert(t.take(t.len() - 2) =~= text.take(n));
        lemma_parse_hex_fails(text, n + 2);
    } else {
        assert(text.take(n) =~= text);
    }
}

/// The hex spelling of an id reads back as the id.
pub proof fn law_hex_round_trips(id: Seq<u8>)
    ensures
        parse_hex(vstd::utf8::encode_utf8(hex_of(id))) == Some(id),
        vstd::utf8::encode_utf8(hex_of(id)).len() == 2 * id.len(),
    decreases id.len(),
{
    lemma_hex_is_ascii(id);
    vstd::utf8::is_ascii_chars_encode_utf8(hex_of(id));
    if id.len() > 0 {
        let rest = id.drop_last();
        law_hex_round_trips(rest);
        lemma_hex_is_ascii(rest);
        vstd::utf8::is_ascii_chars_encode_utf8(hex_of(rest));
        let text = vstd::utf8::encode_utf8(hex_of(id));
        let b = id.last();
        let n = text.len();
        assert(hex_of(id) == hex_of(rest) + seq![digit(b as int / 16), digit(b as int % 16)]);
        assert(text.take(n - 2) =~= vstd::utf8::encode_utf8(hex_of(rest))) by {
            assert forall|i: int| 0 <= i < n - 2 implies text.take(n - 2)[i] == vstd::utf8::encode_utf8(hex_of(rest))[i] by {
                assert(hex_of(id)[i] == hex_of(rest)[i]);
            }
        }
        assert(text[n - 2] == digit(b as int / 16) as u8);
        assert(text[n - 1] == digit(b as int % 16) as u8);
        lemma_digit_pair(b);
        assert(id =~= rest.push(b));
    }
}

proof fn lemma_digit_pair(b: u8)
    ensures
        hex_pair(digit(b as int / 16) as u8, digit(b as int % 16) as u8) == Some(b),
{
    let h = b as int / 16;
    let l = b as int % 16;
    assert(0 <= h < 16 && 0 <= l < 16 && h * 16 + l == b) by (nonlinear_arith)
        requires
            h == b as int / 16,
            l == b as int % 16,
            0 <= b < 256,
    ;
    lemma_digit_value(h);
    lemma_digit_value(l);
}

proof fn lemma_digit_value(d: int)
    requires
        0 <= d < 16,
    ensures
        hex_value(digit(d) as u8) == Some(d),
        '\0' <= digit(d) <= '\u{7f}',
{
}

proof fn lemma_hex_is_ascii(id: Seq<u8>)
    ensures
        vstd::utf8::is_ascii_chars(hex_of(id)),
        hex_of(id).len() == 2 * id.len(),
    decreases id.len(),
{
    if id.len() > 0 {
        lemma_hex_is_ascii(id.drop_last());
        let b = id.last();
        lemma_digit_value(b as int / 16);
        lemma_digit_value(b as int % 16);
        let h = hex_of(id);
        let r = hex_of(id.drop_last());
        assert forall|i: int| 0 <= i < h.len() implies '\0' <= #[trigger] h[i] <= '\u{7f}' by {
            if i < r.len() {
                assert(h[i] == r[i]);
            }
        }
    }
}

/// The lowercase form of `s`, as `str::to_lowercase` gives it.
pub uninterp spec fn lowercase(s: Seq<char>) -> Seq<char>;

/// `str::to_lowercase`: claims only that the result is the one the name
/// [`lowercase`] gives for the argument.
#[verifier::external_body]
pub(crate) fn to_lowercase(s: &str) -> (r: String)
    ensures
        r@ == lowercase(s@),
{
    s.to_lowercase()
}

/// Whether `phrase` is a valid English BIP39 mnemonic: its words are in the
/// list and its checksum agrees.
pub uninterp spec fn bip39_english_valid(phrase: Seq<char>) -> bool;

/// The phrase BIP39 writes for `entropy` in English.
pub uninterp spec fn bip39_phrase(entropy: Seq<u8>) -> Seq<char>;

/// The standard 64-byte BIP39 seed of the mnemonic written as `words`,
/// with the empty passphrase. The seed is PBKDF2 over the words joined by
/// single spaces, so it is a function of that text alone.
pub uninterp spec fn bip39_seed(words: Seq<char>) -> Seq<u8>;

/// `bip39::Mnemonic::parse_in_normalized` in English: claims that it
/// succeeds exactly on the phrases [`bip39_english_valid`] accepts, and that
/// a mnemonic it reads from a phrase already in normal form (lowercase words
/// joined by single spaces) is written as that same phrase: the parser splits
/// at white space and looks each word up in the list, and a mnemonic is
/// displayed as its list words joined by single spaces. The error is carried
/// as its `Display` text, of which nothing is claimed.
#[verifier::external_body]
fn parse_english(text: &str) -> (r: Result<Phrase, String>)
    requires
        exists|typed: Seq<char>| text@ == #[trigger] normalized(typed),
    ensures
        r is Ok <==> bip39_english_valid(text@),
        r matches Ok(p) ==> p@ == text@,
{
    bip39::Mnemonic::parse_in_normalized(bip39::Language::English, text).map(
        |m| Phrase { mnemonic: m, words: Ghost(text@) },
    ).map_err(|e| e.to_string())
}

/// `bip39::Mnemonic::from_entropy_in` in English for 16 bytes of entropy:
/// claims that it succeeds, which the source shows for any 128 bits, that
/// the mnemonic is written as the phrase [`bip39_phrase`] names, and that
/// this phrase is twelve words the parser accepts: the checksum is computed
/// from the entropy the parser recovers.
#[verifier::external_body]
fn mnemonic_from_entropy(entropy: &[u8; 16]) -> (r: Result<Phrase, String>)
    ensures
        r is Ok,
        r matches Ok(p) ==> p@ == bip39_phrase(entropy@),
        r matches Ok(p) ==> bip39_english_valid(p@),
        r matches Ok(p) ==> word_count(p@) == PHRASE_WORDS,
{
    bip39::Mnemonic::from_entropy_in(bip39::Language::English, entropy).map(
        |m| Phrase { words: Ghost(bip39_phrase(entropy@)), mnemonic: m },
    ).map_err(|e| e.to_string())
}

/// `bip39::Mnemonic::to_seed_normalized` with the empty passphrase: the
/// standard 64-byte seed, which [`bip39_seed`] names for the mnemonic's
/// words.
#[verifier::external_body]
fn seed_of(phrase: &Phrase) -> (r: [u8; 64])
    ensures
        r@ == bip39_seed(phrase@),
{
    phrase.mnemonic.to_seed_normalized("")
}

/// The `Display` form of a `bip39::Mnemonic`: its words, joined by single
/// spaces.
#[verifier::external_body]
fn words_of(phrase: &Phrase) -> (r: String)
    ensures
        r@ == phrase@,
{
    phrase.mnemonic.to_string()
}

/// `getrandom::fill`: claims nothing of the bytes written, nor of when it
/// fails; the error is carried as its `Display` text.
#[verifier::external_body]
pub(crate) fn fill_random<const N: usize>(buf: &mut [u8; N]) -> (r: Result<(), String>) {
    getrandom::fill(buf).map_err(|e| e.to_string())
}

/// Whether `c` ends a piece: any white space, or only a space.
pub open spec fn separates(c: char, any_space: bool) -> bool {
    if any_space {
        is_space(c)
    } else {
        c == ' '
    }
}

/// The non-empty pieces of `s` between separators, `cur` being the piece
/// begun so far.
pub open spec fn pieces(s: Seq<char>, cur: Seq<char>, any_space: bool) -> Seq<Seq<char>>
    decreases s.len(),
{
    if s.len() == 0 {
        if cur.len() > 0 {
            seq![cur]
        } else {
            seq![]
        }
    } else if separates(s[0], any_space) {
        let rest = pieces(s.drop_first(), seq![], any_space);
        if cur.len() > 0 {
            seq![cur] + rest
        } else {
            rest
        }
    } else {
        pieces(s.drop_first(), cur.push(s[0]), any_space)
    }
}

/// The words of `s`, split on runs of white space.
pub open spec fn words(s: Seq<char>) -> Seq<Seq<char>> {
    pieces(s, seq![], true)
}

/// `ws` joined by single spaces.
pub open spec fn join_words(ws: Seq<Seq<char>>) -> Seq<char>
    decreases ws.len(),
{
    if ws.len() == 0 {
        seq![]
    } else if ws.len() == 1 {
        ws[0]
    } else {
        join_words(ws.drop_last()) + seq![' '] + ws.last()
    }
}

/// Each of `ws` in lowercase.
pub open spec fn lowered(ws: Seq<Seq<char>>) -> Seq<Seq<char>> {
    ws.map_values(|w: Seq<char>| lowercase(w))
}

/// A phrase as typed, in the form the wordlist is matched against: words
/// lowercased and joined by single spaces. Case and runs of whitespace are
/// forgiven.
pub open spec fn normalized(phrase: Seq<char>) -> Seq<char> {
    join_words(lowered(words(phrase)))
}

/// The number of words in a normalized phrase: the non-empty pieces between
/// spaces.
pub open spec fn word_count(s: Seq<char>) -> nat {
    pieces(s, seq![], false).len()
}

proof fn lemma_pieces_step(s: Seq<char>, i: int, cur: Seq<char>, any_space: bool)
    requires
        0 <= i < s.len(),
    ensures
        pieces(s.skip(i), cur, any_space) == if separates(s[i], any_space) {
            if cur.len() > 0 {
                seq![cur] + pieces(s.skip(i + 1), seq![], any_space)
            } else {
                pieces(s.skip(i + 1), seq![], any_space)
            }
        } else {
            pieces(s.skip(i + 1), cur.push(s[i]), any_space)
        },
{
    assert(s.skip(i)[0] == s[i]);
    assert(s.skip(i).drop_first() =~= s.skip(i + 1));
}

proof fn lemma_lowered_push(ws: Seq<Seq<char>>, w: Seq<char>)
    ensures
        lowered(ws.push(w)) == lowered(ws).push(lowercase(w)),
        lowered(ws).len() == ws.len(),
{
    assert(lowered(ws.push(w)) =~= lowered(ws).push(lowercase(w)));
}

/// Appends the lowercase form of the word `cur` to `out`, after a space
/// unless it is the first word.
fn emit_word(out: &mut Vec<char>, cur: &Vec<char>, first: bool, Ghost(done): Ghost<Seq<Seq<char>>>)
    requires
        old(out)@ == join_words(lowered(done)),
        first == (done.len() == 0),
    ensures
        final(out)@ == join_words(lowered(done.push(cur@))),
{
    let word = string_of(cur);
    let low = to_lowercase(word.as_str());
    if !first {
        out.push(' ');
    }
    push_str(out, low.as_str());
    proof {
        lemma_lowered_push(done, cur@);
        let next = done.push(cur@);
        if done.len() > 0 {
            assert(lowered(next).drop_last() =~= lowered(done));
        } else {
            assert(lowered(next) =~= seq![lowercase(cur@)]);
        }
    }
}

/// `phrase`'s words, lowercased and joined by single spaces.
fn normalize(phrase: &str) -> (r: Vec<char>)
    ensures
        r@ == normalized(phrase@),
{
    let s = chars_of(phrase);
    let mut out: Vec<char> = Vec::new();
    let mut cur: Vec<char> = Vec::new();
    let ghost mut done: Seq<Seq<char>> = seq![];
    let mut first = true;
    let mut i: usize = 0;
    proof {
        assert(s@.skip(0) =~= s@);
    }
    while i < s.len()
        invariant
            i <= s@.len(),
            s@ == phrase@,
            done + pieces(s@.skip(i as int), cur@, true) == words(phrase@),
            out@ == join_words(lowered(done)),
            first == (done.len() == 0),
        decreases s@.len() - i,
    {
        proof {
            lemma_pieces_step(s@, i as int, cur@, true);
        }
        if char_is_space(s[i]) {
            if cur.len() > 0 {
                emit_word(&mut out, &cur, first, Ghost(done));
                proof {
                    let rest = pieces(s@.skip(i + 1), seq![], true);
                    assert(done.push(cur@) + rest =~= done + (seq![cur@] + rest));
                    done = done.push(cur@);
                }
                first = false;
                cur = Vec::new();
                proof {
                    assert(cur@ =~= Seq::<char>::empty());
                }
            } else {
                proof {
                    assert(cur@ =~= Seq::<char>::empty());
                }
            }
        } else {
            cur.push(s[i]);
        }
        i = i + 1;
    }
    proof {
        assert(s@.skip(i as int) =~= Seq::<char>::empty());
    }
    if cur.len() > 0 {
        emit_word(&mut out, &cur, first, Ghost(done));
        proof {
            assert(done.push(cur@) =~= done + seq![cur@]);
        }
    } else {
        proof {
            assert(done + Seq::<Seq<char>>::empty() =~= done);
        }
    }
    out
}

/// The number of non-empty pieces between the spaces of `s`.
fn count_words(s: &Vec<char>) -> (n: usize)
    ensures
        n == word_count(s@),
{
    let mut n: usize = 0;
    let mut begun = false;
    let mut i: usize = 0;
    let ghost mut cur: Seq<char> = seq![];
    proof {
        assert(s@.skip(0) =~= s@);
    }
    while i < s.len()
        invariant
            i <= s@.len(),
            begun == (cur.len() > 0),
            n + (if begun { 1int } else { 0int }) <= i,
            n + pieces(s@.skip(i as int), cur, false).len() == word_count(s@),
        decreases s@.len() - i,
    {
        proof {
            lemma_pieces_step(s@, i as int, cur, false);
        }
        if s[i] == ' ' {
            if begun {
                n = n + 1;
            }
            begun = false;
            proof {
                cur = seq![];
            }
        } else {
            begun = true;
            proof {
                cur = cur.push(s@[i as int]);
            }
        }
        i = i + 1;
    }
    proof {
        assert(s@.skip(i as int) =~= Seq::<char>::empty());
    }
    if begun {
        n + 1
    } else {
        n
    }
}

/// One shared symmetric key per family. Every paired device holds it; the
/// relay never does. Rotating it — the only way to revoke a device — means
/// generating a new phrase and re-pairing everyone.
pub struct FamilyKey {
    key: [u8; 32],
    id: FamilyId,
    phrase: String,
}

impl FamilyKey {
    pub closed spec fn key_bytes(self) -> Seq<u8> {
        self.key@
    }

    pub closed spec fn id_bytes(self) -> Seq<u8> {
        self.id.0@
    }

    pub closed spec fn phrase_text(self) -> Seq<char> {
        self.phrase@
    }

    /// The family that 128 bits of entropy spell: the twelve words BIP39
    /// writes for them, and the key and id derived from those words.
    pub fn from_entropy(entropy: &[u8; 16]) -> (k: FamilyKey)
        ensures
            k.phrase_text() == bip39_phrase(entropy@),
            k.derived_from(bip39_phrase(entropy@)),
            bip39_english_valid(k.phrase_text()),
            word_count(k.phrase_text()) == PHRASE_WORDS,
    {
        match mnemonic_from_entropy(entropy) {
            Ok(mnemonic) => Self::derive(&mnemonic),
            Err(_) => {
                proof {
                    assert(false);
                }
                Self::from_seed(&[0u8; 64], String::new())
            },
        }
    }

    /// A fresh family: 128 bits from the OS, spelled as 12 words. No key
    /// stretching — the entropy is machine-generated, and no amount of
    /// stretching improves on 128 random bits.
    pub fn generate() -> (r: Result<FamilyKey, SyncError>)
        ensures
            r matches Err(e) ==> e is Entropy,
            r matches Ok(k) ==> exists|entropy: Seq<u8>|
                entropy.len() == 16 && #[trigger] bip39_phrase(entropy) == k.phrase_text() && k.derived_from(
                    bip39_phrase(entropy),
                ),
            r matches Ok(k) ==> bip39_english_valid(k.phrase_text()) && word_count(k.phrase_text())
                == PHRASE_WORDS,
    {
        let mut entropy = [0u8; 16];
        match fill_random(&mut entropy) {
            Ok(()) => {},
            Err(e) => return Err(SyncError::Entropy(e)),
        }
        Ok(Self::from_entropy(&entropy))
    }

    /// The same family on another device: the phrase as typed or scanned.
    /// Case and runs of whitespace are forgiven — a phrase read aloud across
    /// a kitchen or pasted from a note must not fail on formatting.
    pub fn from_phrase(phrase: &str) -> (r: Result<FamilyKey, SyncError>)
        ensures
            word_count(normalized(phrase@)) != PHRASE_WORDS ==> (r matches Err(SyncError::Phrase(m))
                && m@ == "expected 12 words, got "@ + decimal(word_count(normalized(phrase@)))),
            word_count(normalized(phrase@)) == PHRASE_WORDS ==> (r is Ok <==> bip39_english_valid(
                normalized(phrase@),
            )),
            r matches Err(e) ==> e is Phrase,
            r matches Ok(k) ==> k.derived_from(normalized(phrase@)),
    {
        let normalized = normalize(phrase);
        let words = count_words(&normalized);
        if words != PHRASE_WORDS {
            let mut m: Vec<char> = Vec::new();
            push_str(&mut m, "expected 12 words, got ");
            push_decimal(&mut m, words as u64);
            return Err(SyncError::Phrase(string_of(&m)));
        }
        let text = string_of(&normalized);
        proof {
            assert(text@ == self::normalized(phrase@));
        }
        match parse_english(text.as_str()) {
            Ok(mnemonic) => Ok(Self::derive(&mnemonic)),
            Err(e) => Err(SyncError::Phrase(e)),
        }
    }

    /// `self` is the family the phrase `words` names: its key the first 32
    /// bytes of the phrase's standard seed, its id the next 16, its phrase
    /// those words.
    pub open spec fn derived_from(self, words: Seq<char>) -> bool {
        &&& self.key_bytes() == bip39_seed(words).subrange(0, 32)
        &&& self.id_bytes() == bip39_seed(words).subrange(32, 48)
        &&& self.phrase_text() == words
    }

    /// Key and id from the standard BIP39 seed, empty passphrase.
    fn derive(mnemonic: &Phrase) -> (k: FamilyKey)
        ensures
            k.derived_from(mnemonic@),
    {
        let seed = seed_of(mnemonic);
        Self::from_seed(&seed, words_of(mnemonic))
    }

    /// A family key from a standard seed and the phrase it came from: the key
    /// is the first 32 bytes of the seed, the id the next 16. PBKDF2's output
    /// blocks are computed independently, so publishing the id reveals
    /// nothing of the key.
    pub fn from_seed(seed: &[u8; 64], phrase: String) -> (k: FamilyKey)
        ensures
            k.key_bytes() == seed@.subrange(0, 32),
            k.id_bytes() == seed@.subrange(32, 48),
            k.phrase_text() == phrase@,
    {
        let mut key = [0u8; 32];
        let mut id = [0u8; 16];
        let mut i: usize = 0;
        while i < 32
            invariant
                i <= 32,
                forall|j: int| 0 <= j < i ==> key@[j] == seed@[j],
            decreases 32 - i,
        {
            key[i] = seed[i];
            i = i + 1;
        }
        let mut j: usize = 0;
        while j < 16
            invariant
                j <= 16,
                forall|m: int| 0 <= m < j ==> id@[m] == seed@[32 + m],
            decreases 16 - j,
        {
            id[j] = seed[32 + j];
            j = j + 1;
        }
        proof {
            assert(key@ =~= seed@.subrange(0, 32));
            assert(id@ =~= seed@.subrange(32, 48));
        }
        FamilyKey { key, id: FamilyId(id), phrase }
    }

    /// The phrase in canonical form — lowercase, single spaces. This is what
    /// the QR code carries and what the pairing screen displays.
    pub fn phrase(&self) -> (s: &str)
        ensures
            s@ == self.phrase_text(),
    {
        self.phrase.as_str()
    }

    pub fn id(&self) -> (id: FamilyId)
        ensures
            id.0@ == self.id_bytes(),
    {
        self.id
    }

    /// The raw key. The cipher is its one consumer: nothing else seals,
    /// opens or stores it.
    pub fn bytes(&self) -> (b: &[u8; 32])
        ensures
            b@ == self.key_bytes(),
    {
        &self.key
    }

    /// How the key shows itself in a log: by its id, the key redacted — a
    /// log line must not be a backup of the phrase.
    pub fn describe(&self) -> (s: String)
        ensures
            s@ == "FamilyKey("@ + hex_of(self.id_bytes()) + ", key redacted)"@,
    {
        let mut out: Vec<char> = Vec::new();
        push_str(&mut out, "FamilyKey(");
        let hex = self.id.to_hex();
        push_str(&mut out, hex.as_str());
        push_str(&mut out, ", key redacted)");
        string_of(&out)
    }
}

} // verus!

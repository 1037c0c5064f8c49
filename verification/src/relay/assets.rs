//! The static half: the app, served from the same origin as the sync socket.
//!
//! Three rules carry the whole module:
//!
//! - **`assets/*` is immutable, everything else revalidates.** The bundler
//!   puts a content hash in the name of everything it compiles, so those may
//!   be cached for a year; `index.html`, `sw.js`, the manifest and the icons
//!   have stable names and must not be.
//! - **No `Vary`, ever**: a reply here carries no such header at all.
//! - **An unknown path is a 404, not the page.** Which screen is open is
//!   core state and never a URL, so there is no route to fall back for.

use vstd::prelude::*;

use crate::client::id::{format_id, hex_digits};
use crate::client::platform::{fnv1a, FNV_OFFSET, FNV_PRIME};
use crate::text::{
    digit, digit_char, string_of,
    chars_of, lemma_seq_lt_irreflexive, lemma_seq_lt_total, lemma_seq_lt_transitive, seq_lt, str_lt,
    trim_chars, trimmed,
};

verus! {

/// One embedded file. `path` has no leading slash and uses `/` separators —
/// the shape a request carries, so matching is a comparison.
#[derive(Debug, Clone, Copy)]
pub struct Asset {
    pub path: &'static str,
    pub etag: &'static str,
    pub bytes: &'static [u8],
}

/// The files compiled into this build, sorted by path: none. The host reads
/// the bundle from disk at startup instead, tagging each file with
/// [`etag_of`], and hands that table to [`respond`]; without a bundle every
/// path is a 404 and the relay is a sync broker and nothing else.
pub fn embedded_assets() -> (r: Vec<Asset>)
    ensures
        r@.len() == 0,
{
    Vec::new()
}

/// How many files were embedded. The process says so at startup, because
/// "the app does not load" and "there is no app in this build" are the same
/// symptom from a phone.
pub fn embedded() -> (n: usize)
    ensures
        n == 0,
{
    embedded_assets().len()
}

/// `n` in lowercase hex, without leading zeros.
pub open spec fn short_hex(n: nat) -> Seq<char>
    decreases n,
{
    if n < 16 {
        seq![digit(n as int)]
    } else {
        short_hex(n / 16).push(digit((n % 16) as int))
    }
}

/// A file's entity tag: its length in hex and the FNV-1a hash of its bytes
/// as sixteen hex digits, quoted. It changes whenever the file does, which is
/// all a validator has to do.
pub open spec fn etag_text(bytes: Seq<u8>) -> Seq<char> {
    seq!['"'] + short_hex(bytes.len()) + seq!['-'] + hex_digits(fnv1a(bytes) as nat, 16) + seq!['"']
}

fn push_short_hex(out: &mut Vec<char>, n: u64)
    ensures
        final(out)@ == old(out)@ + short_hex(n as nat),
    decreases n,
{
    if n < 16 {
        out.push(digit_char(n as u8));
    } else {
        push_short_hex(out, n / 16);
        out.push(digit_char((n % 16) as u8));
        proof {
            assert(old(out)@ + short_hex(n as nat) =~= old(out)@ + short_hex((n / 16) as nat) + seq![
                digit((n % 16) as int),
            ]);
        }
    }
}

/// The entity tag of a file's bytes.
pub fn etag_of(bytes: &[u8]) -> (s: String)
    ensures
        s@ == etag_text(bytes@),
{
    let mut hash: u64 = FNV_OFFSET;
    let mut i: usize = 0;
    while i < bytes.len()
        invariant
            i <= bytes@.len(),
            hash == fnv1a(bytes@.take(i as int)),
        decreases bytes@.len() - i,
    {
        proof {
            assert(bytes@.take(i + 1).drop_last() =~= bytes@.take(i as int));
        }
        hash = (hash ^ (bytes[i] as u64)).wrapping_mul(FNV_PRIME);
        i = i + 1;
    }
    proof {
        assert(bytes@.take(i as int) =~= bytes@);
    }
    let mut head: Vec<char> = Vec::new();
    head.push('"');
    push_short_hex(&mut head, bytes.len() as u64);
    head.push('-');
    let prefix = string_of(&head);
    let tagged = format_id(prefix.as_str(), hash);
    let mut out = chars_of(tagged.as_str());
    out.push('"');
    proof {
        assert(out@ =~= etag_text(bytes@));
    }
    string_of(&out)
}

/// Content-hashed by the bundler, so the URL cannot outlive its contents.
pub const IMMUTABLE: &'static str = "public, max-age=31536000, immutable";

/// Cached, and checked every time. With an `ETag` the check is a 304.
pub const REVALIDATE: &'static str = "no-cache";

/// How a request is answered.
#[derive(Debug, Clone, Copy, PartialEq, Eq)]
pub enum Status {
    /// 200, with the file.
    Found,
    /// 304: the client's copy is current.
    NotModified,
    /// 404.
    NotFound,
}

/// The whole answer to a request for a static file: the status, and for a
/// file that exists its validator, caching policy and — unless the client's
/// copy is current — its type and bytes. There is no `Vary` to carry.
#[derive(Debug, Clone, Copy)]
pub struct Reply {
    pub status: Status,
    pub etag: Option<&'static str>,
    pub cache_control: Option<&'static str>,
    pub content_type: Option<&'static str>,
    pub body: &'static [u8],
}

/// Paths in strictly ascending order.
pub open spec fn sorted_paths(assets: Seq<Asset>) -> bool {
    forall|i: int, j: int| 0 <= i < j < assets.len() ==> seq_lt(#[trigger] assets[i].path@, #[trigger] assets[j].path@)
}

/// Whether the table is sorted by path, which [`respond`]'s binary search
/// relies on.
pub fn is_sorted(assets: &[Asset]) -> (b: bool)
    ensures
        b == sorted_paths(assets@),
{
    let mut i: usize = 1;
    if assets.len() < 2 {
        return true;
    }
    while i < assets.len()
        invariant
            1 <= i <= assets@.len(),
            sorted_paths(assets@.take(i as int)),
        decreases assets@.len() - i,
    {
        if !str_lt(assets[i - 1].path, assets[i].path) {
            proof {
                let a = assets@;
                assert(seq_lt(a[i - 1].path@, a[i as int].path@) == false);
            }
            return false;
        }
        proof {
            let a = assets@;
            let t = a.take(i + 1);
            assert forall|x: int, y: int| 0 <= x < y < t.len() implies seq_lt(#[trigger] t[x].path@, #[trigger] t[y].path@) by {
                if y < i {
                    assert(a.take(i as int)[x] == t[x] && a.take(i as int)[y] == t[y]);
                } else if x < i - 1 {
                    assert(a.take(i as int)[x] == t[x] && a.take(i as int)[i - 1] == t[i - 1]);
                    lemma_seq_lt_transitive(t[x].path@, t[i - 1].path@, t[y].path@);
                }
            }
        }
        i = i + 1;
    }
    proof {
        assert(assets@.take(i as int) =~= assets@);
    }
    true
}

/// `s` without its leading slashes.
pub open spec fn strip_slashes(s: Seq<char>) -> Seq<char>
    decreases s.len(),
{
    if s.len() > 0 && s[0] == '/' {
        strip_slashes(s.drop_first())
    } else {
        s
    }
}

/// The file a request path names: `/` is the page, everything else is a
/// file name as the bundler wrote it.
pub open spec fn wanted_file(path: Seq<char>) -> Seq<char> {
    if strip_slashes(path).len() == 0 {
        "index.html"@
    } else {
        strip_slashes(path)
    }
}

/// Whether `s` begins with `prefix`.
pub open spec fn starts_with(s: Seq<char>, prefix: Seq<char>) -> bool {
    prefix.len() <= s.len() && s.take(prefix.len() as int) == prefix
}

fn begins_with(s: &Vec<char>, prefix: &Vec<char>) -> (b: bool)
    ensures
        b == starts_with(s@, prefix@),
{
    if prefix.len() > s.len() {
        return false;
    }
    let mut i: usize = 0;
    while i < prefix.len()
        invariant
            i <= prefix@.len() <= s@.len(),
            forall|j: int| 0 <= j < i ==> s@[j] == prefix@[j],
        decreases prefix@.len() - i,
    {
        if s[i] != prefix[i] {
            proof {
                assert(s@.take(prefix@.len() as int)[i as int] != prefix@[i as int]);
            }
            return false;
        }
        i = i + 1;
    }
    proof {
        assert(s@.take(prefix@.len() as int) =~= prefix@);
    }
    true
}

/// The request path stripped of its leading slashes, `/` standing for the
/// page.
fn wanted(path: &str) -> (r: Vec<char>)
    ensures
        r@ == wanted_file(path@),
{
    let p = chars_of(path);
    let mut i: usize = 0;
    proof {
        assert(p@.skip(0) =~= p@);
    }
    while i < p.len() && p[i] == '/'
        invariant
            i <= p@.len(),
            p@ == path@,
            strip_slashes(p@.skip(i as int)) == strip_slashes(path@),
        decreases p@.len() - i,
    {
        proof {
            assert(p@.skip(i as int).drop_first() =~= p@.skip(i + 1));
        }
        i = i + 1;
    }
    let mut out: Vec<char> = Vec::new();
    let mut j: usize = i;
    while j < p.len()
        invariant
            i <= j <= p@.len(),
            out@ == p@.subrange(i as int, j as int),
        decreases p@.len() - j,
    {
        out.push(p[j]);
        proof {
            assert(p@.subrange(i as int, j + 1) =~= p@.subrange(i as int, j as int).push(p@[j as int]));
        }
        j = j + 1;
    }
    proof {
        assert(out@ =~= p@.skip(i as int));
        if i < p@.len() {
            assert(p@.skip(i as int)[0] == p@[i as int]);
        }
    }
    if out.len() == 0 {
        chars_of("index.html")
    } else {
        out
    }
}

/// The file of `assets` at `name`, found by binary search over the sorted
/// table.
fn find(assets: &[Asset], name: &Vec<char>) -> (r: Option<usize>)
    requires
        sorted_paths(assets@),
    ensures
        match r {
            Some(i) => i < assets@.len() && assets@[i as int].path@ == name@,
            None => forall|i: int| 0 <= i < assets@.len() ==> (#[trigger] assets@[i]).path@ != name@,
        },
{
    let target = crate::text::string_of(name);
    let mut lo: usize = 0;
    let mut hi: usize = assets.len();
    while lo < hi
        invariant
            hi <= assets@.len(),
            lo <= hi,
            target@ == name@,
            sorted_paths(assets@),
            forall|i: int| 0 <= i < lo ==> seq_lt((#[trigger] assets@[i]).path@, name@),
            forall|i: int| hi <= i < assets@.len() ==> seq_lt(name@, (#[trigger] assets@[i]).path@),
        decreases hi - lo,
    {
        let mid = lo + (hi - lo) / 2;
        let p = assets[mid].path;
        if str_lt(p, target.as_str()) {
            proof {
                assert forall|i: int| 0 <= i < mid + 1 implies seq_lt((#[trigger] assets@[i]).path@, name@) by {
                    if i < mid {
                        lemma_seq_lt_transitive(assets@[i].path@, assets@[mid as int].path@, name@);
                    }
                }
            }
            lo = mid + 1;
        } else if str_lt(target.as_str(), p) {
            proof {
                assert forall|i: int| mid <= i < assets@.len() implies seq_lt(name@, (#[trigger] assets@[i]).path@) by {
                    if i > mid {
                        lemma_seq_lt_transitive(name@, assets@[mid as int].path@, assets@[i].path@);
                    }
                }
            }
            hi = mid;
        } else {
            proof {
                lemma_seq_lt_total(p@, name@);
            }
            return Some(mid);
        }
    }
    proof {
        assert forall|i: int| 0 <= i < assets@.len() implies (#[trigger] assets@[i]).path@ != name@ by {
            lemma_seq_lt_irreflexive(name@);
        }
    }
    None
}

/// The pieces of `s` between commas, empty ones included, `cur` being the
/// piece begun so far.
pub open spec fn comma_pieces(s: Seq<char>, cur: Seq<char>) -> Seq<Seq<char>>
    decreases s.len(),
{
    if s.len() == 0 {
        seq![cur]
    } else if s[0] == ',' {
        seq![cur] + comma_pieces(s.drop_first(), seq![])
    } else {
        comma_pieces(s.drop_first(), cur.push(s[0]))
    }
}

/// `s` without every leading `W/`.
pub open spec fn strip_weak(s: Seq<char>) -> Seq<char>
    decreases s.len(),
{
    if s.len() >= 2 && s[0] == 'W' && s[1] == '/' {
        strip_weak(s.skip(2))
    } else {
        s
    }
}

/// Whether one entry of an `If-None-Match` list names `etag`: `*` matches
/// anything that exists, and a proxy may have weakened the entry to `W/"…"`.
pub open spec fn names_etag(candidate: Seq<char>, etag: Seq<char>) -> bool {
    let c = trimmed(candidate);
    c == "*"@ || strip_weak(c) == etag
}

/// Whether an `If-None-Match` header matches `etag`.
pub open spec fn spec_etag_matches(header: Seq<char>, etag: Seq<char>) -> bool {
    let ps = comma_pieces(header, seq![]);
    exists|i: int| 0 <= i < ps.len() && names_etag(#[trigger] ps[i], etag)
}

fn same_chars(a: &Vec<char>, b: &Vec<char>) -> (r: bool)
    ensures
        r == (a@ == b@),
{
    if a.len() != b.len() {
        return false;
    }
    let mut i: usize = 0;
    while i < a.len()
        invariant
            i <= a@.len() == b@.len(),
            forall|j: int| 0 <= j < i ==> a@[j] == b@[j],
        decreases a@.len() - i,
    {
        if a[i] != b[i] {
            return false;
        }
        i = i + 1;
    }
    proof {
        assert(a@ =~= b@);
    }
    true
}

fn strip_weak_of(s: &Vec<char>) -> (r: Vec<char>)
    ensures
        r@ == strip_weak(s@),
{
    let mut i: usize = 0;
    proof {
        assert(s@.skip(0) =~= s@);
    }
    while s.len() - i >= 2 && s[i] == 'W' && s[i + 1] == '/'
        invariant
            i <= s@.len(),
            strip_weak(s@.skip(i as int)) == strip_weak(s@),
        decreases s@.len() - i,
    {
        proof {
            assert(s@.skip(i as int).skip(2) =~= s@.skip(i + 2));
        }
        i = i + 2;
    }
    let mut out: Vec<char> = Vec::new();
    let mut j: usize = i;
    while j < s.len()
        invariant
            i <= j <= s@.len(),
            out@ == s@.subrange(i as int, j as int),
        decreases s@.len() - j,
    {
        out.push(s[j]);
        proof {
            assert(s@.subrange(i as int, j + 1) =~= s@.subrange(i as int, j as int).push(s@[j as int]));
        }
        j = j + 1;
    }
    proof {
        assert(out@ =~= s@.skip(i as int));
    }
    out
}

fn names_etag_of(candidate: &Vec<char>, etag: &Vec<char>) -> (r: bool)
    ensures
        r == names_etag(candidate@, etag@),
{
    let c = trim_chars(candidate);
    let star = chars_of("*");
    if same_chars(&c, &star) {
        return true;
    }
    let stripped = strip_weak_of(&c);
    same_chars(&stripped, etag)
}

/// `If-None-Match` is a list, and a proxy is entitled to weaken any of its
/// entries to `W/"…"` on the way through. `*` matches anything that exists.
pub fn etag_matches(header: &str, etag: &str) -> (r: bool)
    ensures
        r == spec_etag_matches(header@, etag@),
{
    let h = chars_of(header);
    let e = chars_of(etag);
    let ghost all = comma_pieces(h@, seq![]);
    let ghost mut seen: Seq<Seq<char>> = seq![];
    let mut cur: Vec<char> = Vec::new();
    let mut found = false;
    let mut i: usize = 0;
    proof {
        assert(h@.skip(0) =~= h@);
    }
    while i < h.len()
        invariant
            i <= h@.len(),
            h@ == header@,
            e@ == etag@,
            all == comma_pieces(header@, seq![]),
            all == seen + comma_pieces(h@.skip(i as int), cur@),
            found == exists|k: int| 0 <= k < seen.len() && names_etag(#[trigger] seen[k], etag@),
        decreases h@.len() - i,
    {
        proof {
            assert(h@.skip(i as int)[0] == h@[i as int]);
            assert(h@.skip(i as int).drop_first() =~= h@.skip(i + 1));
        }
        if h[i] == ',' {
            let hit = names_etag_of(&cur, &e);
            proof {
                let prev = seen;
                seen = seen.push(cur@);
                assert(prev + (seq![cur@] + comma_pieces(h@.skip(i + 1), seq![])) =~= seen
                    + comma_pieces(h@.skip(i + 1), seq![]));
                assert((found || hit) == exists|k: int| 0 <= k < seen.len() && names_etag(#[trigger] seen[k], etag@)) by {
                    if hit {
                        assert(names_etag(seen[prev.len() as int], etag@));
                    }
                    if exists|k: int| 0 <= k < seen.len() && names_etag(#[trigger] seen[k], etag@) {
                        let k = choose|k: int| 0 <= k < seen.len() && names_etag(#[trigger] seen[k], etag@);
                        if k < prev.len() {
                            assert(seen[k] == prev[k]);
                        }
                    }
                    if found {
                        let k = choose|k: int| 0 <= k < prev.len() && names_etag(#[trigger] prev[k], etag@);
                        assert(seen[k] == prev[k]);
                    }
                }
            }
            found = found || hit;
            cur = Vec::new();
            proof {
                assert(cur@ =~= Seq::<char>::empty());
            }
        } else {
            cur.push(h[i]);
        }
        i = i + 1;
    }
    let hit = names_etag_of(&cur, &e);
    proof {
        assert(h@.skip(i as int) =~= Seq::<char>::empty());
        let prev = seen;
        let last = seen.push(cur@);
        assert(all =~= last);
        if hit {
            assert(names_etag(all[prev.len() as int], etag@));
        }
        if exists|k: int| 0 <= k < all.len() && names_etag(#[trigger] all[k], etag@) {
            let k = choose|k: int| 0 <= k < all.len() && names_etag(#[trigger] all[k], etag@);
            if k < prev.len() {
                assert(all[k] == prev[k]);
            }
        }
        if found {
            let k = choose|k: int| 0 <= k < prev.len() && names_etag(#[trigger] prev[k], etag@);
            assert(all[k] == prev[k]);
        }
    }
    found || hit
}

/// The extension of `path`: what follows its last dot, if it has one.
pub open spec fn extension(path: Seq<char>) -> Option<Seq<char>> {
    if exists|i: int| 0 <= i < path.len() && path[i] == '.' {
        let i = choose|i: int|
            0 <= i < path.len() && path[i] == '.' && forall|j: int| i < j < path.len() ==> path[j] != '.';
        Some(path.skip(i + 1))
    } else {
        None
    }
}

/// The media type of a file, by extension, over the closed set of things
/// the bundle contains.
pub open spec fn media_type(path: Seq<char>) -> Seq<char> {
    match extension(path) {
        Some(e) => if e == "html"@ {
            "text/html; charset=utf-8"@
        } else if e == "js"@ {
            "text/javascript; charset=utf-8"@
        } else if e == "css"@ {
            "text/css; charset=utf-8"@
        } else if e == "wasm"@ {
            "application/wasm"@
        } else if e == "webmanifest"@ {
            "application/manifest+json; charset=utf-8"@
        } else if e == "json"@ || e == "map"@ {
            "application/json; charset=utf-8"@
        } else if e == "svg"@ {
            "image/svg+xml"@
        } else if e == "png"@ {
            "image/png"@
        } else if e == "ico"@ {
            "image/vnd.microsoft.icon"@
        } else if e == "woff2"@ {
            "font/woff2"@
        } else if e == "txt"@ {
            "text/plain; charset=utf-8"@
        } else {
            "application/octet-stream"@
        },
        None => "application/octet-stream"@,
    }
}

/// By extension, over the closed set of things this bundle contains.
///
/// `application/wasm` is the one that is not cosmetic: without it the
/// browser refuses to stream-compile the core.
pub fn content_type(path: &str) -> (t: &'static str)
    ensures
        t@ == media_type(path@),
{
    let p = chars_of(path);
    let mut dot: usize = p.len();
    let mut i: usize = 0;
    while i < p.len()
        invariant
            i <= p@.len(),
            p@ == path@,
            dot <= p@.len(),
            dot == p@.len() ==> forall|j: int| 0 <= j < i ==> p@[j] != '.',
            dot < p@.len() ==> dot < i && p@[dot as int] == '.' && forall|j: int| dot < j < i ==> p@[j] != '.',
        decreases p@.len() - i,
    {
        if p[i] == '.' {
            dot = i;
        }
        i = i + 1;
    }
    if dot == p.len() {
        return "application/octet-stream";
    }
    let mut ext: Vec<char> = Vec::new();
    let mut j: usize = dot + 1;
    while j < p.len()
        invariant
            dot < j <= p@.len(),
            ext@ == p@.subrange(dot + 1, j as int),
        decreases p@.len() - j,
    {
        ext.push(p[j]);
        proof {
            assert(p@.subrange(dot + 1, j + 1) =~= p@.subrange(dot + 1, j as int).push(p@[j as int]));
        }
        j = j + 1;
    }
    proof {
        assert(ext@ =~= p@.skip(dot + 1));
        let k = choose|k: int|
            0 <= k < p@.len() && p@[k] == '.' && forall|m: int| k < m < p@.len() ==> p@[m] != '.';
        assert(k == dot) by {
            if k < dot {
                assert(p@[dot as int] != '.');
            }
            if k > dot {
                assert(p@[k] != '.');
            }
        }
        assert(extension(path@) == Some(ext@));
    }
    if same_chars(&ext, &chars_of("html")) {
        "text/html; charset=utf-8"
    } else if same_chars(&ext, &chars_of("js")) {
        "text/javascript; charset=utf-8"
    } else if same_chars(&ext, &chars_of("css")) {
        "text/css; charset=utf-8"
    } else if same_chars(&ext, &chars_of("wasm")) {
        "application/wasm"
    } else if same_chars(&ext, &chars_of("webmanifest")) {
        "application/manifest+json; charset=utf-8"
    } else if same_chars(&ext, &chars_of("json")) || same_chars(&ext, &chars_of("map")) {
        "application/json; charset=utf-8"
    } else if same_chars(&ext, &chars_of("svg")) {
        "image/svg+xml"
    } else if same_chars(&ext, &chars_of("png")) {
        "image/png"
    } else if same_chars(&ext, &chars_of("ico")) {
        "image/vnd.microsoft.icon"
    } else if same_chars(&ext, &chars_of("woff2")) {
        "font/woff2"
    } else if same_chars(&ext, &chars_of("txt")) {
        "text/plain; charset=utf-8"
    } else {
        "application/octet-stream"
    }
}

/// The caching policy of a file: immutable under `assets/`, revalidated
/// everywhere else.
pub open spec fn caching_of(path: Seq<char>) -> Seq<char> {
    if starts_with(path, "assets/"@) {
        IMMUTABLE@
    } else {
        REVALIDATE@
    }
}

/// `r` answers a request for `asset` carrying `if_none_match`.
pub open spec fn answers(r: Reply, asset: Asset, if_none_match: Option<&str>) -> bool {
    let unchanged = match if_none_match {
        Some(h) => spec_etag_matches(h@, asset.etag@),
        None => false,
    };
    &&& r.etag matches Some(e) && e@ == asset.etag@
    &&& r.cache_control matches Some(c) && c@ == caching_of(asset.path@)
    &&& unchanged ==> r.status == Status::NotModified && r.content_type is None && r.body@.len() == 0
    &&& !unchanged ==> r.status == Status::Found && (r.content_type matches Some(t) && t@ == media_type(
        asset.path@,
    )) && r.body@ == asset.bytes@
}

/// The whole policy, as a function of a table and a request — which is what
/// lets it be tested without a bundle on disk. A file that exists is always
/// answered with its validator and its caching policy; its type and bytes
/// only when the client's copy is not current.
pub fn respond(assets: &[Asset], path: &str, if_none_match: Option<&str>) -> (r: Reply)
    requires
        sorted_paths(assets@),
    ensures
        (forall|i: int| 0 <= i < assets@.len() ==> (#[trigger] assets@[i]).path@ != wanted_file(path@))
            ==> r.status == Status::NotFound && r.etag is None && r.cache_control is None
            && r.content_type is None && r.body@.len() == 0,
        forall|i: int|
            0 <= i < assets@.len() && (#[trigger] assets@[i]).path@ == wanted_file(path@)
                ==> answers(r, assets@[i], if_none_match),
{
    let name = wanted(path);
    let index = match find(assets, &name) {
        Some(i) => i,
        None => {
            return Reply {
                status: Status::NotFound,
                etag: None,
                cache_control: None,
                content_type: None,
                body: &[],
            };
        },
    };
    let asset = assets[index];
    proof {
        let w = wanted_file(path@);
        assert forall|k: int| 0 <= k < assets@.len() && (#[trigger] assets@[k]).path@ == w implies assets@[k]
            == asset by {
            if k != index as int {
                lemma_seq_lt_irreflexive(w);
                if k < index {
                    assert(seq_lt(assets@[k].path@, assets@[index as int].path@));
                } else {
                    assert(seq_lt(assets@[index as int].path@, assets@[k].path@));
                }
            }
        }
    }
    let p = chars_of(asset.path);
    let caching = if begins_with(&p, &chars_of("assets/")) {
        IMMUTABLE
    } else {
        REVALIDATE
    };
    let unchanged = match if_none_match {
        Some(h) => etag_matches(h, asset.etag),
        None => false,
    };
    if unchanged {
        return Reply {
            status: Status::NotModified,
            etag: Some(asset.etag),
            cache_control: Some(caching),
            content_type: None,
            body: &[],
        };
    }
    Reply {
        status: Status::Found,
        etag: Some(asset.etag),
        cache_control: Some(caching),
        content_type: Some(content_type(asset.path)),
        body: asset.bytes,
    }
}

} // verus!

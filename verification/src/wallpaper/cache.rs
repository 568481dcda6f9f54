//! The caches' rules: which characters an id may keep, which bytes count as
//! an image, where a cached file may be, and which thumbnails go when the
//! cache is over its cap. Reading and writing the files is the caller's
//! work.

use crate::order::{sort_by, sorted_by};
use crate::text::{ascii_alnum, chars_of, is_ascii_alnum, push_str, string_of};
use vstd::prelude::*;

verus! {

/// The thumbnail cache's cap, 200 MB, stated in Settings.
pub const THUMB_CACHE_MAX_BYTES: u64 = 209715200;

pub open spec fn id_char(c: char) -> bool {
    is_ascii_alnum(c) || c == '-' || c == '_'
}

pub open spec fn safe_id_spec(id: Seq<char>) -> Seq<char> {
    id.filter(|c: char| id_char(c))
}

/// Only filename-safe characters of an id that came from an API response,
/// so a crafted id can never leave the cache directory.
pub fn safe_id(id: &str) -> (r: String)
    ensures
        r@ == safe_id_spec(id@),
{
    let v = chars_of(id);
    let mut out: Vec<char> = Vec::new();
    let mut i: usize = 0;
    assert(v@.take(0) =~= Seq::<char>::empty());
    while i < v.len()
        invariant
            v@ == id@,
            i <= v.len(),
            out@ == v@.take(i as int).filter(|c: char| id_char(c)),
        decreases v.len() - i,
    {
        let c = v[i];
        proof {
            v@.take(i as int).lemma_filter_push(c, |c: char| id_char(c));
            assert(v@.take(i + 1) =~= v@.take(i as int).push(c));
        }
        if ascii_alnum(c) || c == '-' || c == '_' {
            out.push(c);
        }
        i += 1;
    }
    assert(v@.take(v@.len() as int) =~= v@);
    string_of(out.as_slice())
}

/// A cached file's name is built from `safe_id` alone, so it names a file
/// inside the cache directory: nothing in it can separate or climb paths.
pub proof fn lemma_safe_id_stays_in_the_directory(id: Seq<char>)
    ensures
        forall|i: int|
            0 <= i < safe_id_spec(id).len() ==> {
                let c = #[trigger] safe_id_spec(id)[i];
                id_char(c) && c != '/' && c != '.' && c != '\\'
            },
{
    assert forall|i: int| 0 <= i < safe_id_spec(id).len() implies id_char(#[trigger] safe_id_spec(id)[i]) by {
        id.lemma_filter_pred(|c: char| id_char(c), i);
    }
}

pub open spec fn starts_bytes(b: Seq<u8>, p: Seq<u8>) -> bool {
    p.len() <= b.len() && b.subrange(0, p.len() as int) == p
}

pub open spec fn jpeg_magic() -> Seq<u8> {
    seq![0xFFu8, 0xD8u8, 0xFFu8]
}

pub open spec fn png_magic() -> Seq<u8> {
    seq![0x89u8, 0x50u8, 0x4Eu8, 0x47u8, 0x0Du8, 0x0Au8, 0x1Au8, 0x0Au8]
}

pub open spec fn riff() -> Seq<u8> {
    seq![0x52u8, 0x49u8, 0x46u8, 0x46u8]
}

pub open spec fn webp() -> Seq<u8> {
    seq![0x57u8, 0x45u8, 0x42u8, 0x50u8]
}

/// The file type from the bytes, never the URL: JPEG, PNG, or WebP (`RIFF`
/// then `WEBP` at offset 8); anything else is not an image.
pub open spec fn image_ext_spec(b: Seq<u8>) -> Result<Seq<char>, Seq<char>> {
    if starts_bytes(b, jpeg_magic()) {
        Ok("jpg"@)
    } else if starts_bytes(b, png_magic()) {
        Ok("png"@)
    } else if b.len() >= 12 && b.subrange(0, 4) == riff() && b.subrange(8, 12) == webp() {
        Ok("webp"@)
    } else {
        Err("bad_image"@)
    }
}

/// Downloaded bytes are named by their own signature, whatever follows it:
/// `FF D8 FF` is a JPEG, the eight-byte PNG signature a PNG, and `RIFF`,
/// four size bytes, then `WEBP` a WebP; anything shorter than every
/// signature is refused.
pub proof fn lemma_images_are_known_by_their_signature(rest: Seq<u8>, size: Seq<u8>, short: Seq<u8>)
    requires
        size.len() == 4,
        short.len() < 3,
    ensures
        image_ext_spec(seq![0xFFu8, 0xD8u8, 0xFFu8] + rest) == Ok::<Seq<char>, Seq<char>>("jpg"@),
        image_ext_spec(seq![0x89u8, 0x50u8, 0x4Eu8, 0x47u8, 0x0Du8, 0x0Au8, 0x1Au8, 0x0Au8] + rest)
            == Ok::<Seq<char>, Seq<char>>("png"@),
        image_ext_spec(seq![0x52u8, 0x49u8, 0x46u8, 0x46u8] + size + seq![0x57u8, 0x45u8, 0x42u8, 0x50u8] + rest)
            == Ok::<Seq<char>, Seq<char>>("webp"@),
        image_ext_spec(short) is Err,
{
    let j = seq![0xFFu8, 0xD8u8, 0xFFu8] + rest;
    assert(j.subrange(0, 3) =~= jpeg_magic());
    let p = seq![0x89u8, 0x50u8, 0x4Eu8, 0x47u8, 0x0Du8, 0x0Au8, 0x1Au8, 0x0Au8] + rest;
    assert(p.subrange(0, 8) =~= png_magic());
    assert(p[0] != jpeg_magic()[0]);
    assert(!starts_bytes(p, jpeg_magic())) by {
        if starts_bytes(p, jpeg_magic()) {
            assert(p.subrange(0, 3)[0] == p[0]);
        }
    }
    let w = seq![0x52u8, 0x49u8, 0x46u8, 0x46u8] + size + seq![0x57u8, 0x45u8, 0x42u8, 0x50u8] + rest;
    assert(w.subrange(0, 4) =~= riff());
    assert(w.subrange(8, 12) =~= webp());
    assert(!starts_bytes(w, jpeg_magic())) by {
        if starts_bytes(w, jpeg_magic()) {
            assert(w.subrange(0, 3)[0] == w[0]);
        }
    }
    assert(!starts_bytes(w, png_magic())) by {
        if starts_bytes(w, png_magic()) {
            assert(w.subrange(0, 8)[0] == w[0]);
        }
    }
}

fn bytes_at(b: &[u8], at: usize, p: &[u8]) -> (r: bool)
    ensures
        r == (at + p@.len() <= b@.len() && b@.subrange(at as int, at + p@.len()) == p@),
{
    if at > b.len() || p.len() > b.len() - at {
        return false;
    }
    let mut i: usize = 0;
    while i < p.len()
        invariant
            at + p.len() <= b.len(),
            i <= p.len(),
            forall|j: int| 0 <= j < i ==> b@[at + j] == p@[j],
        decreases p.len() - i,
    {
        if b[at + i] != p[i] {
            assert(b@.subrange(at as int, at + p@.len())[i as int] != p@[i as int]);
            return false;
        }
        i += 1;
    }
    assert(b@.subrange(at as int, at + p@.len()) =~= p@);
    true
}

pub open spec fn ext_view(r: Result<&'static str, String>) -> Result<Seq<char>, Seq<char>> {
    match r {
        Ok(e) => Ok(e@),
        Err(e) => Err(e@),
    }
}

pub fn image_ext(bytes: &[u8]) -> (r: Result<&'static str, String>)
    ensures
        ext_view(r) == image_ext_spec(bytes@),
{
    let jpeg: [u8; 3] = [0xFF, 0xD8, 0xFF];
    let png: [u8; 8] = [0x89, 0x50, 0x4E, 0x47, 0x0D, 0x0A, 0x1A, 0x0A];
    let riff_m: [u8; 4] = [0x52, 0x49, 0x46, 0x46];
    let webp_m: [u8; 4] = [0x57, 0x45, 0x42, 0x50];
    assert(jpeg@ =~= jpeg_magic());
    assert(png@ =~= png_magic());
    assert(riff_m@ =~= riff());
    assert(webp_m@ =~= webp());
    if bytes_at(bytes, 0, &jpeg) {
        Ok("jpg")
    } else if bytes_at(bytes, 0, &png) {
        Ok("png")
    } else if bytes.len() >= 12 && bytes_at(bytes, 0, &riff_m) && bytes_at(bytes, 8, &webp_m) {
        Ok("webp")
    } else {
        Err("bad_image".to_owned())
    }
}

pub open spec fn cached_names_spec(id: Seq<char>) -> Seq<Seq<char>> {
    seq![id + ".jpg"@, id + ".png"@, id + ".webp"@]
}

/// The names a cached file for this id may have, in the order they are
/// looked for.
pub fn cached_names(id: &str) -> (r: Vec<String>)
    ensures
        r@.map_values(|s: String| s@) == cached_names_spec(id@),
{
    let mut r: Vec<String> = Vec::new();
    let mut a = chars_of(id);
    push_str(&mut a, ".jpg");
    r.push(string_of(a.as_slice()));
    let mut b = chars_of(id);
    push_str(&mut b, ".png");
    r.push(string_of(b.as_slice()));
    let mut c = chars_of(id);
    push_str(&mut c, ".webp");
    r.push(string_of(c.as_slice()));
    assert(r@.map_values(|s: String| s@) =~= cached_names_spec(id@));
    r
}

// ---------------------------------------------------------------------------
// Evicting thumbnails
// ---------------------------------------------------------------------------

/// A cached thumbnail: its path, its size, and when it was last touched.
pub struct Cached {
    pub path: String,
    pub bytes: u64,
    pub touched: u128,
}

pub open spec fn sat_sub(a: u64, b: u64) -> u64 {
    if a >= b { (a - b) as u64 } else { 0 }
}

pub open spec fn total_of(files: Seq<Cached>) -> u64
    decreases files.len(),
{
    if files.len() == 0 {
        0
    } else {
        let s = total_of(files.drop_last());
        if s + files.last().bytes > u64::MAX { u64::MAX } else { (s + files.last().bytes) as u64 }
    }
}

/// What is left of `start` after the files of `order` whose entry in
/// `removed` is true went, one after the other; a file that could not be
/// removed still counts.
pub open spec fn drained(order: Seq<Cached>, removed: Seq<bool>, start: u64) -> u64
    decreases removed.len(),
{
    if removed.len() == 0 {
        start
    } else {
        let t = drained(order, removed.drop_last(), start);
        if removed.last() { sat_sub(t, order[removed.len() - 1].bytes) } else { t }
    }
}

/// The cache's total counts every file: none of them is larger than it.
pub proof fn lemma_total_counts_every_file(files: Seq<Cached>)
    ensures
        forall|i: int| 0 <= i < files.len() ==> (#[trigger] files[i]).bytes <= total_of(files),
    decreases files.len(),
{
    if files.len() > 0 {
        lemma_total_counts_every_file(files.drop_last());
        assert forall|i: int| 0 <= i < files.len() implies (#[trigger] files[i]).bytes <= total_of(files) by {
            if i < files.len() - 1 {
                assert(files[i] == files.drop_last()[i]);
            }
        }
    }
}

/// Evicting never makes the cache larger than it started.
pub proof fn lemma_eviction_never_grows(order: Seq<Cached>, removed: Seq<bool>, start: u64)
    ensures
        drained(order, removed, start) <= start,
    decreases removed.len(),
{
    if removed.len() > 0 {
        lemma_eviction_never_grows(order, removed.drop_last(), start);
    }
}

pub open spec fn removal_answered<R: Fn(&str) -> bool>(remove: &R, path: Seq<char>, ok: bool) -> bool {
    exists|p: &str| #[trigger] remove.ensures((p,), ok) && p@ == path
}

pub open spec fn oldest_first(a: Cached, b: Cached) -> bool {
    a.touched <= b.touched
}

/// One eviction run: `order` holds `files` oldest first, the first
/// `removed.len()` of them were handed to `remove` (with the answers in
/// `removed`), each while the cache was still over `max`, and the run
/// stopped early only once the cache was within `max`; `r` is what is left.
pub open spec fn evicted_as<R: Fn(&str) -> bool>(
    files: Seq<Cached>,
    order: Seq<Cached>,
    removed: Seq<bool>,
    max: u64,
    remove: &R,
    r: u64,
) -> bool {
    &&& order.to_multiset() == files.to_multiset()
    &&& sorted_by(order, |a: Cached, b: Cached| oldest_first(a, b))
    &&& removed.len() <= order.len()
    &&& forall|i: int| 0 <= i < removed.len() ==> removal_answered(remove, order[i].path@, #[trigger] removed[i])
    &&& forall|j: int| 0 <= j < removed.len() ==> drained(order, #[trigger] removed.take(j), total_of(files)) > max
    &&& removed.len() < order.len() ==> r <= max
    &&& r == drained(order, removed, total_of(files))
}

/// Evicts the least recently touched thumbnails until the cache is within
/// `max` bytes, and returns what it then holds. `remove` deletes one file.
pub fn prune_lru<R: Fn(&str) -> bool>(files: Vec<Cached>, max: u64, remove: &R) -> (r: u64)
    requires
        forall|p: &str| remove.requires((p,)),
    ensures
        total_of(files@) <= max ==> r == total_of(files@),
        r <= total_of(files@),
        exists|order: Seq<Cached>, removed: Seq<bool>| #[trigger] evicted_as(files@, order, removed, max, remove, r),
{
    let mut total: u64 = 0;
    let mut i: usize = 0;
    assert(files@.take(0) =~= Seq::<Cached>::empty());
    while i < files.len()
        invariant
            i <= files.len(),
            total == total_of(files@.take(i as int)),
        decreases files.len() - i,
    {
        assert(files@.take(i + 1).drop_last() =~= files@.take(i as int));
        total = match total.checked_add(files[i].bytes) {
            Some(x) => x,
            None => 18446744073709551615,
        };
        i += 1;
    }
    assert(files@.take(files@.len() as int) =~= files@);
    let ghost start = total;
    let ghost orig = files@;
    let le = |a: &Cached, b: &Cached| -> (x: bool)
        ensures
            x == oldest_first(*a, *b),
        { a.touched <= b.touched };
    let ghost leq = |a: Cached, b: Cached| oldest_first(a, b);
    let order = sort_by(files, &le, Ghost(leq));
    let ghost ov = order@;
    let ghost mut removed: Seq<bool> = Seq::empty();
    let n = order.len();
    let mut k: usize = 0;
    while k < n && total > max
        invariant
            n == ov.len(),
            order@ == ov,
            k <= n,
            removed.len() == k,
            start == total_of(orig),
            start <= max ==> k == 0,
            forall|p: &str| remove.requires((p,)),
            forall|i: int| 0 <= i < removed.len() ==> removal_answered(remove, ov[i].path@, #[trigger] removed[i]),
            forall|j: int| 0 <= j < removed.len() ==> drained(ov, #[trigger] removed.take(j), start) > max,
            total == drained(ov, removed, start),
        decreases n - k,
    {
        let ok = remove(order[k].path.as_str());
        proof {
            assert(removal_answered(remove, ov[k as int].path@, ok));
            let old_removed = removed;
            removed = removed.push(ok);
            assert(removed.drop_last() =~= old_removed);
            assert(removed.take(k as int) =~= old_removed);
            assert forall|j: int| 0 <= j < removed.len() implies drained(ov, #[trigger] removed.take(j), start) > max by {
                if j < k {
                    assert(removed.take(j) =~= old_removed.take(j));
                }
            }
        }
        if ok {
            total = total.saturating_sub(order[k].bytes);
        }
        k += 1;
    }
    assert(evicted_as(orig, ov, removed, max, remove, total));
    proof {
        lemma_eviction_never_grows(ov, removed, start);
    }
    total
}

} // verus!

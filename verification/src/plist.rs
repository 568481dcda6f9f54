//! Reading one string value out of an XML property list's text. Turning a
//! binary plist into text is the caller's work.

use crate::text::{
    chars_of, contains, find, first_occurrence, is_white, occurs_at, push_str, skip_white, slice, string_of,
    starts_with, strip_prefix, trim_start, without_prefix,
};
use vstd::prelude::*;

verus! {

pub open spec fn key_tag(key: Seq<char>) -> Seq<char> {
    "<key>"@ + key + "</key>"@
}

/// The `<string>` that follows the first `<key>` named `key`, once any
/// whitespace between them is skipped. A key followed by anything else has
/// no string value.
pub open spec fn plist_string(text: Seq<char>, key: Seq<char>) -> Option<Seq<char>> {
    match first_occurrence(text, key_tag(key)) {
        None => None,
        Some(i) => {
            let rest = trim_start(text.subrange(i + key_tag(key).len(), text.len() as int));
            match strip_prefix(rest, "<string>"@) {
                None => None,
                Some(body) => match first_occurrence(body, "</string>"@) {
                    None => None,
                    Some(j) => Some(body.subrange(0, j)),
                },
            }
        },
    }
}

pub open spec fn opt_string(o: Option<String>) -> Option<Seq<char>> {
    match o {
        Some(s) => Some(s@),
        None => None,
    }
}

/// The string value of `key` in a plist's XML text, if it has one.
pub fn extract_plist_string(text: &str, key: &str) -> (r: Option<String>)
    ensures
        opt_string(r) == plist_string(text@, key@),
{
    let t = chars_of(text);
    let mut tag = chars_of("<key>");
    push_str(&mut tag, key);
    push_str(&mut tag, "</key>");
    assert(tag@ == key_tag(key@));
    let i = match find(t.as_slice(), tag.as_slice()) {
        Some(i) => i,
        None => return None,
    };
    assert(crate::text::occurs_at(t@, tag@, i as int));
    let n = t.len();
    let m = tag.len();
    assert(i + m <= n);
    let k = skip_white(t.as_slice(), i + m);
    let rest = slice(t.as_slice(), k, t.len());
    let open = chars_of("<string>");
    let body = match without_prefix(rest.as_slice(), open.as_slice()) {
        Some(b) => b,
        None => return None,
    };
    let close = chars_of("</string>");
    match find(body.as_slice(), close.as_slice()) {
        Some(j) => Some(string_of(slice(body.as_slice(), 0, j).as_slice())),
        None => None,
    }
}

proof fn lemma_white_run_skipped(ws: Seq<char>, rest: Seq<char>)
    requires
        forall|i: int| 0 <= i < ws.len() ==> is_white(#[trigger] ws[i]),
    ensures
        trim_start(ws + rest) == trim_start(rest),
    decreases ws.len(),
{
    if ws.len() > 0 {
        assert((ws + rest)[0] == ws[0]);
        assert((ws + rest).drop_first() =~= ws.drop_first() + rest);
        assert forall|i: int| 0 <= i < ws.drop_first().len() implies is_white(#[trigger] ws.drop_first()[i]) by {
            assert(ws.drop_first()[i] == ws[i + 1]);
        }
        lemma_white_run_skipped(ws.drop_first(), rest);
    } else {
        assert(ws + rest =~= rest);
    }
}

/// The first occurrence of `p` is at `k` when it occurs there and nowhere
/// before.
pub proof fn lemma_first_at(s: Seq<char>, p: Seq<char>, k: int)
    requires
        occurs_at(s, p, k),
        forall|j: int| 0 <= j < k ==> !occurs_at(s, p, j),
    ensures
        first_occurrence(s, p) == Some(k),
{
    assert(contains(s, p));
    let c = choose|i: int| occurs_at(s, p, i) && forall|j: int| 0 <= j < i ==> !occurs_at(s, p, j);
    assert(occurs_at(s, p, c) && forall|j: int| 0 <= j < c ==> !occurs_at(s, p, j));
    if c < k {
        assert(!occurs_at(s, p, c));
    } else if c > k {
        assert(!occurs_at(s, p, k));
    }
}

/// In `pre + tag + rest`, where `tag` does not start anywhere earlier, the
/// first occurrence of `tag` is the one after `pre`.
proof fn lemma_first_tag_after(pre: Seq<char>, tag: Seq<char>, rest: Seq<char>)
    requires
        forall|j: int| 0 <= j < pre.len() ==> !occurs_at(pre + tag, tag, j),
    ensures
        first_occurrence(pre + tag + rest, tag) == Some(pre.len() as int),
        (pre + tag + rest).subrange((pre.len() + tag.len()) as int, (pre + tag + rest).len() as int) == rest,
{
    let a = pre + tag + rest;
    assert(a.subrange(pre.len() as int, (pre.len() + tag.len()) as int) =~= tag);
    assert forall|j: int| 0 <= j < pre.len() implies !occurs_at(a, tag, j) by {
        if occurs_at(a, tag, j) {
            assert((pre + tag).subrange(j, j + tag.len()) =~= a.subrange(j, j + tag.len()));
            assert(occurs_at(pre + tag, tag, j));
        }
    }
    lemma_first_at(a, tag, pre.len() as int);
    assert(a.subrange((pre.len() + tag.len()) as int, a.len() as int) =~= rest);
}

/// Whitespace between a key and its value does not change what is read:
/// spaces, tabs or newlines after `</key>` read the same as none, where the
/// key does not appear earlier in the text.
pub proof fn lemma_whitespace_after_the_key_is_skipped(
    pre: Seq<char>,
    key: Seq<char>,
    ws: Seq<char>,
    post: Seq<char>,
)
    requires
        forall|i: int| 0 <= i < ws.len() ==> is_white(#[trigger] ws[i]),
        forall|j: int| 0 <= j < pre.len() ==> !occurs_at(pre + key_tag(key), key_tag(key), j),
    ensures
        plist_string(pre + key_tag(key) + ws + post, key) == plist_string(pre + key_tag(key) + post, key),
{
    let t = key_tag(key);
    assert(pre + t + ws + post =~= pre + t + (ws + post));
    lemma_first_tag_after(pre, t, ws + post);
    lemma_first_tag_after(pre, t, post);
    lemma_white_run_skipped(ws, post);
}

/// The value read is the text between the `<string>` after the key, past
/// any whitespace, and the first `</string>` after it.
pub proof fn lemma_reads_the_string_after_the_key(
    pre: Seq<char>,
    key: Seq<char>,
    ws: Seq<char>,
    value: Seq<char>,
    post: Seq<char>,
)
    requires
        forall|i: int| 0 <= i < ws.len() ==> is_white(#[trigger] ws[i]),
        forall|j: int| 0 <= j < pre.len() ==> !occurs_at(pre + key_tag(key), key_tag(key), j),
        forall|j: int| 0 <= j < value.len() ==> !occurs_at(value + "</string>"@, "</string>"@, j),
    ensures
        plist_string(pre + key_tag(key) + ws + ("<string>"@ + value + "</string>"@ + post), key) == Some(value),
{
    reveal_strlit("<string>");
    reveal_strlit("</string>");
    let t = key_tag(key);
    let open = "<string>"@;
    let close = "</string>"@;
    let body = value + close + post;
    let after = open + body;
    assert(open + value + close + post =~= after);
    lemma_whitespace_after_the_key_is_skipped(pre, key, ws, after);
    lemma_first_tag_after(pre, t, after);
    assert(after[0] == '<');
    assert(trim_start(after) == after);
    assert(after.subrange(0, open.len() as int) =~= open);
    assert(after.subrange(open.len() as int, after.len() as int) =~= body);
    assert(strip_prefix(after, open) == Some(body));
    assert forall|j: int| 0 <= j < value.len() implies !occurs_at(body, close, j) by {
        if occurs_at(body, close, j) {
            assert((value + close).subrange(j, j + close.len()) =~= body.subrange(j, j + close.len()));
            assert(occurs_at(value + close, close, j));
        }
    }
    assert(body.subrange(value.len() as int, (value.len() + close.len()) as int) =~= close);
    lemma_first_at(body, close, value.len() as int);
    assert(body.subrange(0, value.len() as int) =~= value);
}

} // verus!

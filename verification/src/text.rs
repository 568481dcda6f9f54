//! Text as sequences of characters: the small vocabulary every parser in the
//! crate is written in. Specifications are over `Seq<char>`; the executable
//! forms work on `Vec<char>` and are proved against them.

use vstd::prelude::*;

verus! {

// ---------------------------------------------------------------------------
// Specifications
// ---------------------------------------------------------------------------

/// Unicode `White_Space`, the set `char::is_whitespace` and `str::trim` use.
pub open spec fn is_white(c: char) -> bool {
    ||| ('\u{9}' <= c && c <= '\u{d}')
    ||| c == ' '
    ||| c == '\u{85}'
    ||| c == '\u{a0}'
    ||| c == '\u{1680}'
    ||| ('\u{2000}' <= c && c <= '\u{200a}')
    ||| c == '\u{2028}'
    ||| c == '\u{2029}'
    ||| c == '\u{202f}'
    ||| c == '\u{205f}'
    ||| c == '\u{3000}'
}

pub open spec fn is_digit(c: char) -> bool {
    '0' <= c && c <= '9'
}

pub open spec fn is_ascii_lower(c: char) -> bool {
    'a' <= c && c <= 'z'
}

pub open spec fn is_ascii_upper(c: char) -> bool {
    'A' <= c && c <= 'Z'
}

pub open spec fn is_ascii_alnum(c: char) -> bool {
    is_digit(c) || is_ascii_lower(c) || is_ascii_upper(c)
}

/// ASCII case folding of one character, as `char::to_ascii_lowercase`.
pub open spec fn ascii_fold(c: char) -> char {
    if is_ascii_upper(c) { ((c as u32) + 32) as char } else { c }
}

/// `str::eq_ignore_ascii_case`.
pub open spec fn eq_ignore_ascii_case(a: Seq<char>, b: Seq<char>) -> bool {
    a.len() == b.len() && forall|i: int| 0 <= i < a.len() ==> ascii_fold(a[i]) == ascii_fold(b[i])
}

pub open spec fn starts_with(s: Seq<char>, p: Seq<char>) -> bool {
    p.len() <= s.len() && s.subrange(0, p.len() as int) == p
}

pub open spec fn ends_with(s: Seq<char>, p: Seq<char>) -> bool {
    p.len() <= s.len() && s.subrange(s.len() - p.len(), s.len() as int) == p
}

pub open spec fn occurs_at(s: Seq<char>, p: Seq<char>, i: int) -> bool {
    0 <= i && i + p.len() <= s.len() && s.subrange(i, i + p.len()) == p
}

pub open spec fn contains(s: Seq<char>, p: Seq<char>) -> bool {
    exists|i: int| occurs_at(s, p, i)
}

pub open spec fn contains_char(s: Seq<char>, c: char) -> bool {
    exists|i: int| 0 <= i < s.len() && s[i] == c
}

/// The index of the first occurrence of `p` in `s`, if any.
pub open spec fn first_occurrence(s: Seq<char>, p: Seq<char>) -> Option<int> {
    if contains(s, p) {
        Some(choose|i: int| occurs_at(s, p, i) && forall|j: int| 0 <= j < i ==> !occurs_at(s, p, j))
    } else {
        None
    }
}

pub open spec fn strip_prefix(s: Seq<char>, p: Seq<char>) -> Option<Seq<char>> {
    if starts_with(s, p) { Some(s.subrange(p.len() as int, s.len() as int)) } else { None }
}

pub open spec fn trim_start(s: Seq<char>) -> Seq<char>
    decreases s.len(),
{
    if s.len() > 0 && is_white(s[0]) { trim_start(s.drop_first()) } else { s }
}

pub open spec fn trim_end(s: Seq<char>) -> Seq<char>
    decreases s.len(),
{
    if s.len() > 0 && is_white(s.last()) { trim_end(s.drop_last()) } else { s }
}

/// `str::trim`.
pub open spec fn trim(s: Seq<char>) -> Seq<char> {
    trim_end(trim_start(s))
}

/// The pieces of `s` between occurrences of `sep`, as `str::split` with a
/// one-character pattern: always at least one piece, empty pieces kept.
pub open spec fn split_on(s: Seq<char>, sep: spec_fn(char) -> bool) -> Seq<Seq<char>>
    decreases s.len(),
{
    if s.len() == 0 {
        seq![Seq::<char>::empty()]
    } else {
        let init = split_on(s.drop_last(), sep);
        if sep(s.last()) {
            init.push(Seq::<char>::empty())
        } else {
            init.update(init.len() - 1, init.last().push(s.last()))
        }
    }
}

pub open spec fn strip_cr(p: Seq<char>) -> Seq<char> {
    if p.len() > 0 && p.last() == '\r' { p.drop_last() } else { p }
}

/// `str::lines`: pieces between `\n`, a `\r` before the `\n` removed, and no
/// empty final line for a trailing terminator.
pub open spec fn lines(s: Seq<char>) -> Seq<Seq<char>> {
    let pieces = split_on(s, |c: char| c == '\n');
    let terminated = Seq::new((pieces.len() - 1) as nat, |i: int| strip_cr(pieces[i]));
    if pieces.last().len() == 0 { terminated } else { terminated.push(pieces.last()) }
}

pub open spec fn all_digits(s: Seq<char>) -> bool {
    forall|i: int| 0 <= i < s.len() ==> is_digit(s[i])
}

pub open spec fn digit_value(c: char) -> nat {
    ((c as u32) - ('0' as u32)) as nat
}

/// The number a run of decimal digits denotes.
pub open spec fn digits_value(s: Seq<char>) -> nat
    decreases s.len(),
{
    if s.len() == 0 { 0 } else { digits_value(s.drop_last()) * 10 + digit_value(s.last()) }
}

/// `str::parse::<u64>`: an optional `+`, then one or more digits, in range.
pub open spec fn parse_unsigned(s: Seq<char>, max: nat) -> Option<nat> {
    let body = if s.len() > 0 && s[0] == '+' { s.drop_first() } else { s };
    if body.len() > 0 && all_digits(body) && digits_value(body) <= max {
        Some(digits_value(body))
    } else {
        None
    }
}

/// `str::parse::<i32>`-style signed parse, within `[-max - 1, max]`.
pub open spec fn parse_signed(s: Seq<char>, max: nat) -> Option<int> {
    if s.len() > 0 && s[0] == '-' {
        let body = s.drop_first();
        if body.len() > 0 && all_digits(body) && digits_value(body) <= max + 1 {
            Some(-(digits_value(body) as int))
        } else {
            None
        }
    } else {
        match parse_unsigned(s, max) {
            Some(n) => Some(n as int),
            None => None,
        }
    }
}

pub open spec fn digit_char(d: nat) -> char {
    (('0' as u32) + d) as char
}

/// The decimal spelling of `n`, as `Display` prints an unsigned integer.
pub open spec fn decimal(n: nat) -> Seq<char>
    decreases n,
{
    if n < 10 { seq![digit_char(n)] } else { decimal(n / 10).push(digit_char(n % 10)) }
}

pub open spec fn signed_decimal(n: int) -> Seq<char> {
    if n < 0 { seq!['-'] + decimal((-n) as nat) } else { decimal(n as nat) }
}

/// What `str::to_lowercase` returns for `s`. Unicode case mapping is
/// specified by the Unicode tables, not restated here.
pub uninterp spec fn lowercase(s: Seq<char>) -> Seq<char>;

// ---------------------------------------------------------------------------
// Conversions
// ---------------------------------------------------------------------------

pub fn chars_of(s: &str) -> (v: Vec<char>)
    ensures
        v@ == s@,
{
    let mut v: Vec<char> = Vec::new();
    for c in it: s.chars()
        invariant
            v@ == it.seq().take(it.index() as int),
    {
        v.push(c);
    }
    v
}

/// `String::from_iter` over characters.
#[verifier::external_body]
pub(crate) fn string_of(v: &[char]) -> (s: String)
    ensures
        s@ == v@,
{
    v.iter().collect()
}

/// `str::to_lowercase`.
#[verifier::external_body]
pub(crate) fn to_lower(s: &str) -> (r: String)
    ensures
        r@ == lowercase(s@),
{
    s.to_lowercase()
}

pub fn lower_chars(v: &[char]) -> (r: Vec<char>)
    ensures
        r@ == lowercase(v@),
{
    let s = string_of(v);
    let l = to_lower(s.as_str());
    chars_of(l.as_str())
}

pub fn str_eq(a: &str, b: &str) -> (r: bool)
    ensures
        r == (a@ == b@),
{
    let x = chars_of(a);
    let y = chars_of(b);
    seq_eq(&x, &y)
}

pub fn seq_eq(a: &[char], b: &[char]) -> (r: bool)
    ensures
        r == (a@ == b@),
{
    if a.len() != b.len() {
        return false;
    }
    let mut i: usize = 0;
    while i < a.len()
        invariant
            a.len() == b.len(),
            i <= a.len(),
            forall|j: int| 0 <= j < i ==> a@[j] == b@[j],
        decreases a.len() - i,
    {
        if a[i] != b[i] {
            return false;
        }
        i += 1;
    }
    assert(a@ =~= b@);
    true
}

// ---------------------------------------------------------------------------
// Character classes
// ---------------------------------------------------------------------------

pub fn white(c: char) -> (b: bool)
    ensures
        b == is_white(c),
{
    (c >= '\u{9}' && c <= '\u{d}') || c == ' ' || c == '\u{85}' || c == '\u{a0}' || c == '\u{1680}'
        || (c >= '\u{2000}' && c <= '\u{200a}') || c == '\u{2028}' || c == '\u{2029}'
        || c == '\u{202f}' || c == '\u{205f}' || c == '\u{3000}'
}

pub fn digit(c: char) -> (b: bool)
    ensures
        b == is_digit(c),
{
    c >= '0' && c <= '9'
}

pub fn ascii_lower(c: char) -> (b: bool)
    ensures
        b == is_ascii_lower(c),
{
    c >= 'a' && c <= 'z'
}

pub fn ascii_alnum(c: char) -> (b: bool)
    ensures
        b == is_ascii_alnum(c),
{
    (c >= '0' && c <= '9') || (c >= 'a' && c <= 'z') || (c >= 'A' && c <= 'Z')
}

pub fn fold(c: char) -> (r: char)
    ensures
        r == ascii_fold(c),
{
    if c >= 'A' && c <= 'Z' {
        let n: u32 = c as u32 + 32;
        proof {
            assert(0x61 <= n <= 0x7a);
        }
        char_from(n)
    } else {
        c
    }
}

/// `char::from_u32` on a value known to be a scalar value.
#[verifier::external_body]
fn char_from(n: u32) -> (c: char)
    requires
        n < 0xd800,
    ensures
        c == n as char,
{
    char::from_u32(n).unwrap()
}

pub fn eq_ignore_case(a: &[char], b: &[char]) -> (r: bool)
    ensures
        r == eq_ignore_ascii_case(a@, b@),
{
    if a.len() != b.len() {
        return false;
    }
    let mut i: usize = 0;
    while i < a.len()
        invariant
            a.len() == b.len(),
            i <= a.len(),
            forall|j: int| 0 <= j < i ==> ascii_fold(a@[j]) == ascii_fold(b@[j]),
        decreases a.len() - i,
    {
        if fold(a[i]) != fold(b[i]) {
            return false;
        }
        i += 1;
    }
    true
}

// ---------------------------------------------------------------------------
// Searching
// ---------------------------------------------------------------------------

pub fn slice(v: &[char], from: usize, to: usize) -> (r: Vec<char>)
    requires
        from <= to <= v.len(),
    ensures
        r@ == v@.subrange(from as int, to as int),
{
    let mut r: Vec<char> = Vec::new();
    let mut i = from;
    while i < to
        invariant
            from <= i <= to <= v.len(),
            r@ == v@.subrange(from as int, i as int),
        decreases to - i,
    {
        r.push(v[i]);
        i += 1;
        assert(r@ =~= v@.subrange(from as int, i as int));
    }
    r
}

pub fn has_prefix(s: &[char], p: &[char]) -> (r: bool)
    ensures
        r == starts_with(s@, p@),
{
    if p.len() > s.len() {
        return false;
    }
    matches_at(s, p, 0)
}

pub fn has_suffix(s: &[char], p: &[char]) -> (r: bool)
    ensures
        r == ends_with(s@, p@),
{
    if p.len() > s.len() {
        return false;
    }
    matches_at(s, p, s.len() - p.len())
}

pub fn matches_at(s: &[char], p: &[char], at: usize) -> (r: bool)
    ensures
        r == occurs_at(s@, p@, at as int),
{
    if at > s.len() || p.len() > s.len() - at {
        return false;
    }
    let mut j: usize = 0;
    while j < p.len()
        invariant
            at + p.len() <= s.len(),
            j <= p.len(),
            forall|k: int| 0 <= k < j ==> s@[at + k] == p@[k],
        decreases p.len() - j,
    {
        if s[at + j] != p[j] {
            assert(s@.subrange(at as int, at + p.len())[j as int] != p@[j as int]);
            return false;
        }
        j += 1;
    }
    assert(s@.subrange(at as int, at + p.len()) =~= p@);
    true
}

pub fn find(s: &[char], p: &[char]) -> (r: Option<usize>)
    ensures
        match r {
            Some(i) => first_occurrence(s@, p@) == Some(i as int) && occurs_at(s@, p@, i as int)
                && forall|j: int| 0 <= j < i ==> !occurs_at(s@, p@, j),
            None => first_occurrence(s@, p@) is None && !contains(s@, p@),
        },
{
    if p.len() > s.len() {
        assert(!contains(s@, p@));
        return None;
    }
    if p.len() == 0 {
        assert(s@.subrange(0, 0) =~= p@);
        assert(occurs_at(s@, p@, 0));
        let ghost k = choose|k: int|
            occurs_at(s@, p@, k) && forall|j: int| 0 <= j < k ==> !occurs_at(s@, p@, j);
        assert(k == 0) by {
            if k > 0 {
                assert(!occurs_at(s@, p@, 0));
            }
        }
        return Some(0);
    }
    let mut i: usize = 0;
    while i <= s.len() - p.len()
        invariant
            1 <= p.len() <= s.len(),
            forall|j: int| 0 <= j < i ==> !occurs_at(s@, p@, j),
        decreases s.len() - p.len() + 1 - i,
    {
        if matches_at(s, p, i) {
            let ghost k = choose|k: int|
                occurs_at(s@, p@, k) && forall|j: int| 0 <= j < k ==> !occurs_at(s@, p@, j);
            assert(occurs_at(s@, p@, i as int));
            assert(k == i) by {
                if k < i {
                } else if k > i {
                }
            }
            return Some(i);
        }
        i += 1;
    }
    assert(!contains(s@, p@)) by {
        assert forall|j: int| !occurs_at(s@, p@, j) by {
            if 0 <= j && j + p.len() <= s.len() {
                assert(j < i);
            }
        }
    }
    None
}

pub fn has(s: &[char], p: &[char]) -> (r: bool)
    ensures
        r == contains(s@, p@),
{
    find(s, p).is_some()
}

pub fn has_char(s: &[char], c: char) -> (r: bool)
    ensures
        r == contains_char(s@, c),
{
    let mut i: usize = 0;
    while i < s.len()
        invariant
            i <= s.len(),
            forall|j: int| 0 <= j < i ==> s@[j] != c,
        decreases s.len() - i,
    {
        if s[i] == c {
            return true;
        }
        i += 1;
    }
    false
}

pub fn without_prefix(s: &[char], p: &[char]) -> (r: Option<Vec<char>>)
    ensures
        match r {
            Some(rest) => strip_prefix(s@, p@) == Some(rest@),
            None => strip_prefix(s@, p@) is None,
        },
{
    if has_prefix(s, p) {
        Some(slice(s, p.len(), s.len()))
    } else {
        None
    }
}

// ---------------------------------------------------------------------------
// Trimming and splitting
// ---------------------------------------------------------------------------

proof fn lemma_trim_start_skip(s: Seq<char>, i: int)
    requires
        0 <= i <= s.len(),
        forall|j: int| 0 <= j < i ==> is_white(s[j]),
    ensures
        trim_start(s) == trim_start(s.subrange(i, s.len() as int)),
    decreases i,
{
    if i > 0 {
        assert(s.drop_first() =~= s.subrange(1, s.len() as int));
        assert(is_white(s[0]));
        assert forall|j: int| 0 <= j < i - 1 implies is_white(s.drop_first()[j]) by {
            assert(s.drop_first()[j] == s[j + 1]);
        }
        lemma_trim_start_skip(s.drop_first(), i - 1);
        assert(s.drop_first().subrange(i - 1, s.drop_first().len() as int) =~= s.subrange(i, s.len() as int));
    } else {
        assert(s.subrange(0, s.len() as int) =~= s);
    }
}

proof fn lemma_trim_end_skip(s: Seq<char>, i: int)
    requires
        0 <= i <= s.len(),
        forall|j: int| i <= j < s.len() ==> is_white(s[j]),
    ensures
        trim_end(s) == trim_end(s.subrange(0, i)),
    decreases s.len() - i,
{
    if i < s.len() {
        assert(s.drop_last() =~= s.subrange(0, s.len() - 1));
        lemma_trim_end_skip(s.drop_last(), i);
        assert(s.drop_last().subrange(0, i) =~= s.subrange(0, i));
    } else {
        assert(s.subrange(0, i) =~= s);
    }
}

/// The first index at or after `from` that is not white space.
pub fn skip_white(s: &[char], from: usize) -> (k: usize)
    requires
        from <= s.len(),
    ensures
        from <= k <= s.len(),
        trim_start(s@.subrange(from as int, s@.len() as int)) == s@.subrange(k as int, s@.len() as int),
{
    let mut k = from;
    while k < s.len() && white(s[k])
        invariant
            from <= k <= s.len(),
            trim_start(s@.subrange(from as int, s@.len() as int)) == trim_start(
                s@.subrange(k as int, s@.len() as int),
            ),
        decreases s.len() - k,
    {
        assert(s@.subrange(k as int, s@.len() as int).drop_first() =~= s@.subrange(
            k + 1,
            s@.len() as int,
        ));
        k += 1;
    }
    k
}

pub fn trimmed(s: &[char]) -> (r: Vec<char>)
    ensures
        r@ == trim(s@),
{
    let mut a: usize = 0;
    while a < s.len() && white(s[a])
        invariant
            a <= s.len(),
            forall|j: int| 0 <= j < a ==> is_white(s@[j]),
        decreases s.len() - a,
    {
        a += 1;
    }
    proof {
        lemma_trim_start_skip(s@, a as int);
    }
    let ghost t = s@.subrange(a as int, s.len() as int);
    assert(a == s.len() || !is_white(t[0]));
    assert(trim_start(s@) == t);
    let mut b: usize = s.len();
    while b > a && white(s[b - 1])
        invariant
            a <= b <= s.len(),
            forall|j: int| b <= j < s.len() ==> is_white(s@[j]),
        decreases b,
    {
        b -= 1;
    }
    proof {
        lemma_trim_end_skip(t, (b - a) as int);
        assert(t.subrange(0, (b - a) as int) =~= s@.subrange(a as int, b as int));
        assert forall|j: int| (b - a) <= j < t.len() implies is_white(t[j]) by {
            assert(t[j] == s@[a + j]);
        }
    }
    slice(s, a, b)
}

pub fn trimmed_str(s: &str) -> (r: Vec<char>)
    ensures
        r@ == trim(s@),
{
    let v = chars_of(s);
    trimmed(&v)
}

/// Split on every character `is_sep` accepts, keeping empty pieces.
pub fn split_where(s: &[char], newline_only: bool) -> (r: Vec<Vec<char>>)
    ensures
        newline_only ==> r@.map_values(|p: Vec<char>| p@) == split_on(s@, |c: char| c == '\n'),
        !newline_only ==> r@.map_values(|p: Vec<char>| p@) == split_on(
            s@,
            |c: char| c == '\n' || c == '\r',
        ),
{
    let ghost sep = if newline_only {
        |c: char| c == '\n'
    } else {
        |c: char| c == '\n' || c == '\r'
    };
    let mut done: Vec<Vec<char>> = Vec::new();
    let mut cur: Vec<char> = Vec::new();
    let mut i: usize = 0;
    assert(s@.subrange(0, 0) =~= Seq::<char>::empty());
    while i < s.len()
        invariant
            i <= s.len(),
            sep == (if newline_only {
                |c: char| c == '\n'
            } else {
                |c: char| c == '\n' || c == '\r'
            }),
            done@.map_values(|p: Vec<char>| p@).push(cur@) == split_on(s@.subrange(0, i as int), sep),
        decreases s.len() - i,
    {
        let c = s[i];
        let is_sep = if newline_only { c == '\n' } else { c == '\n' || c == '\r' };
        let ghost before = done@.map_values(|p: Vec<char>| p@).push(cur@);
        proof {
            assert(s@.subrange(0, i + 1).drop_last() =~= s@.subrange(0, i as int));
            assert(s@.subrange(0, i + 1).last() == c);
            assert(is_sep == sep(c));
        }
        if is_sep {
            let piece = cur;
            done.push(piece);
            cur = Vec::new();
            proof {
                assert(done@.map_values(|p: Vec<char>| p@).push(cur@) =~= before.push(
                    Seq::<char>::empty(),
                ));
            }
        } else {
            cur.push(c);
            proof {
                assert(done@.map_values(|p: Vec<char>| p@).push(cur@) =~= before.update(
                    before.len() - 1,
                    before.last().push(c),
                ));
            }
        }
        i += 1;
    }
    assert(s@.subrange(0, s.len() as int) =~= s@);
    done.push(cur);
    assert(done@.map_values(|p: Vec<char>| p@) =~= split_on(s@, sep));
    done
}

/// Split on one character, keeping empty pieces.
pub fn split_char(s: &[char], sep: char) -> (r: Vec<Vec<char>>)
    ensures
        r@.map_values(|p: Vec<char>| p@) == split_on(s@, |c: char| c == sep),
{
    let ghost f = |c: char| c == sep;
    let mut done: Vec<Vec<char>> = Vec::new();
    let mut cur: Vec<char> = Vec::new();
    let mut i: usize = 0;
    assert(s@.subrange(0, 0) =~= Seq::<char>::empty());
    while i < s.len()
        invariant
            i <= s.len(),
            f == (|c: char| c == sep),
            done@.map_values(|p: Vec<char>| p@).push(cur@) == split_on(s@.subrange(0, i as int), f),
        decreases s.len() - i,
    {
        let c = s[i];
        let ghost before = done@.map_values(|p: Vec<char>| p@).push(cur@);
        proof {
            assert(s@.subrange(0, i + 1).drop_last() =~= s@.subrange(0, i as int));
            assert(s@.subrange(0, i + 1).last() == c);
        }
        if c == sep {
            let piece = cur;
            done.push(piece);
            cur = Vec::new();
            proof {
                assert(done@.map_values(|p: Vec<char>| p@).push(cur@) =~= before.push(
                    Seq::<char>::empty(),
                ));
            }
        } else {
            cur.push(c);
            proof {
                assert(done@.map_values(|p: Vec<char>| p@).push(cur@) =~= before.update(
                    before.len() - 1,
                    before.last().push(c),
                ));
            }
        }
        i += 1;
    }
    assert(s@.subrange(0, s.len() as int) =~= s@);
    done.push(cur);
    assert(done@.map_values(|p: Vec<char>| p@) =~= split_on(s@, f));
    done
}

pub proof fn lemma_split_nonempty(s: Seq<char>, sep: spec_fn(char) -> bool)
    ensures
        split_on(s, sep).len() >= 1,
    decreases s.len(),
{
    if s.len() > 0 {
        lemma_split_nonempty(s.drop_last(), sep);
    }
}

/// Splitting text that follows a separator: the pieces before it, then
/// the pieces of what follows.
pub proof fn lemma_split_append(a: Seq<char>, b: Seq<char>, sep: spec_fn(char) -> bool)
    requires
        a.len() > 0,
        sep(a.last()),
    ensures
        split_on(a + b, sep) == split_on(a, sep).drop_last() + split_on(b, sep),
    decreases b.len(),
{
    let pa = split_on(a, sep);
    assert(a.drop_last().len() < a.len());
    assert(pa == split_on(a.drop_last(), sep).push(Seq::<char>::empty()));
    if b.len() == 0 {
        assert(a + b =~= a);
        assert(pa.drop_last() + split_on(b, sep) =~= pa);
    } else {
        let s = a + b;
        assert(s.drop_last() =~= a + b.drop_last());
        assert(s.last() == b.last());
        lemma_split_append(a, b.drop_last(), sep);
        lemma_split_nonempty(b.drop_last(), sep);
        let bp = split_on(b.drop_last(), sep);
        let init = pa.drop_last() + bp;
        if sep(b.last()) {
            assert(split_on(s, sep) == init.push(Seq::<char>::empty()));
            assert(init.push(Seq::<char>::empty()) =~= pa.drop_last() + bp.push(Seq::<char>::empty()));
        } else {
            assert(split_on(s, sep) == init.update(init.len() - 1, init.last().push(s.last())));
            assert(init.update(init.len() - 1, init.last().push(s.last())) =~= pa.drop_last() + bp.update(
                bp.len() - 1,
                bp.last().push(b.last()),
            ));
        }
    }
}

/// Lines of text that follows a line break: the lines before it, then the
/// lines of what follows.
pub proof fn lemma_lines_append(a: Seq<char>, b: Seq<char>)
    requires
        a.len() > 0,
        a.last() == '\n',
    ensures
        lines(a + b) == lines(a) + lines(b),
{
    let f = |c: char| c == '\n';
    lemma_split_append(a, b, f);
    lemma_split_nonempty(a, f);
    lemma_split_nonempty(b, f);
    let pa = split_on(a, f);
    let pb = split_on(b, f);
    let p = split_on(a + b, f);
    assert(pa == split_on(a.drop_last(), f).push(Seq::<char>::empty()));
    assert(p == pa.drop_last() + pb);
    assert(p.last() == pb.last());
    let ta = Seq::new((pa.len() - 1) as nat, |i: int| strip_cr(pa[i]));
    let tb = Seq::new((pb.len() - 1) as nat, |i: int| strip_cr(pb[i]));
    let t = Seq::new((p.len() - 1) as nat, |i: int| strip_cr(p[i]));
    assert(lines(a) == ta);
    assert(t =~= ta + tb);
    if pb.last().len() == 0 {
        assert(lines(b) == tb);
    } else {
        assert(lines(b) == tb.push(pb.last()));
        assert(t.push(p.last()) =~= ta + tb.push(pb.last()));
    }
}

/// A line with no break in it and no carriage return at its end, followed
/// by a line break, is one line.
pub proof fn lemma_one_line(x: Seq<char>)
    requires
        forall|i: int| 0 <= i < x.len() ==> x[i] != '\n',
        x.len() == 0 || x.last() != '\r',
    ensures
        lines(x + seq!['\n']) == seq![x],
{
    let f = |c: char| c == '\n';
    lemma_split_no_sep(x, f);
    let s = x + seq!['\n'];
    assert(s.drop_last() =~= x);
    assert(split_on(s, f) == seq![x].push(Seq::<char>::empty()));
    assert(Seq::new(1, |i: int| strip_cr(split_on(s, f)[i])) =~= seq![x]);
}

proof fn lemma_split_no_sep(x: Seq<char>, sep: spec_fn(char) -> bool)
    requires
        forall|i: int| 0 <= i < x.len() ==> !sep(x[i]),
    ensures
        split_on(x, sep) == seq![x],
    decreases x.len(),
{
    if x.len() > 0 {
        lemma_split_no_sep(x.drop_last(), sep);
        assert(x.drop_last().push(x.last()) =~= x);
        assert(seq![x.drop_last()].update(0, x) =~= seq![x]);
    } else {
        assert(x =~= Seq::<char>::empty());
    }
}

pub fn lines_of(s: &[char]) -> (r: Vec<Vec<char>>)
    ensures
        r@.map_values(|p: Vec<char>| p@) == lines(s@),
{
    let pieces = split_where(s, true);
    proof {
        lemma_split_nonempty(s@, |c: char| c == '\n');
    }
    let ghost pv = split_on(s@, |c: char| c == '\n');
    assert(pieces@.map_values(|p: Vec<char>| p@) == pv);
    let n = pieces.len() - 1;
    let mut out: Vec<Vec<char>> = Vec::new();
    let mut i: usize = 0;
    while i < n
        invariant
            n == pieces.len() - 1,
            pieces@.map_values(|p: Vec<char>| p@) == pv,
            i <= n,
            out@.len() == i,
            forall|j: int| 0 <= j < i ==> out@[j]@ == strip_cr(pv[j]),
        decreases n - i,
    {
        assert(pieces@[i as int]@ == pv[i as int]);
        let p = &pieces[i];
        let line = if p.len() > 0 && p[p.len() - 1] == '\r' {
            slice(p, 0, p.len() - 1)
        } else {
            slice(p, 0, p.len())
        };
        proof {
            assert(p@.subrange(0, p@.len() as int) =~= p@);
            assert(p@.subrange(0, p@.len() - 1) =~= p@.drop_last());
        }
        out.push(line);
        i += 1;
    }
    assert(pieces@[n as int]@ == pv.last());
    let last = &pieces[n];
    if last.len() > 0 {
        out.push(slice(last, 0, last.len()));
        proof {
            assert(last@.subrange(0, last@.len() as int) =~= last@);
        }
    }
    assert(out@.map_values(|p: Vec<char>| p@) =~= lines(s@));
    out
}

// ---------------------------------------------------------------------------
// Numbers
// ---------------------------------------------------------------------------

proof fn lemma_digits_value_bound(s: Seq<char>)
    requires
        all_digits(s),
    ensures
        digits_value(s) < pow10(s.len()),
    decreases s.len(),
{
    if s.len() > 0 {
        lemma_digits_value_bound(s.drop_last());
    }
}

pub open spec fn pow10(n: nat) -> nat
    decreases n,
{
    if n == 0 { 1 } else { 10 * pow10((n - 1) as nat) }
}

/// Parse a run of digits, refusing anything above `max`.
fn parse_digits(s: &[char], max: u64) -> (r: Option<u64>)
    ensures
        match r {
            Some(n) => s@.len() > 0 && all_digits(s@) && digits_value(s@) <= max && n
                == digits_value(s@),
            None => !(s@.len() > 0 && all_digits(s@) && digits_value(s@) <= max),
        },
{
    if s.len() == 0 {
        return None;
    }
    let mut acc: u128 = 0;
    let mut i: usize = 0;
    let mut too_big = false;
    while i < s.len()
        invariant
            i <= s.len(),
            all_digits(s@.subrange(0, i as int)),
            !too_big ==> acc == digits_value(s@.subrange(0, i as int)) && acc <= max,
            too_big ==> digits_value(s@.subrange(0, i as int)) > max,
        decreases s.len() - i,
    {
        let c = s[i];
        if !digit(c) {
            proof {
                assert(s@[i as int] == c);
                assert(s@.subrange(0, s.len() as int) =~= s@);
            }
            return None;
        }
        let d: u128 = (c as u32 - '0' as u32) as u128;
        proof {
            assert(s@.subrange(0, i + 1).drop_last() =~= s@.subrange(0, i as int));
            assert(digits_value(s@.subrange(0, i + 1)) == digits_value(s@.subrange(0, i as int)) * 10
                + d);
            assert forall|j: int| 0 <= j < i + 1 implies #[trigger] is_digit(s@.subrange(0, i + 1)[j]) by {
                if j < i {
                    assert(s@.subrange(0, i + 1)[j] == s@.subrange(0, i as int)[j]);
                }
            }
        }
        if !too_big {
            proof {
                assert(acc * 10 + d <= 10 * (u64::MAX as u128) + 9) by (nonlinear_arith)
                    requires
                        acc <= u64::MAX,
                        d <= 9;
            }
            let next = acc * 10 + d;
            if next > max as u128 {
                too_big = true;
            } else {
                acc = next;
            }
        } else {
            proof {
                assert(digits_value(s@.subrange(0, i as int)) * 10 + d > max) by (nonlinear_arith)
                    requires
                        digits_value(s@.subrange(0, i as int)) > max;
            }
        }
        i += 1;
    }
    assert(s@.subrange(0, s.len() as int) =~= s@);
    if too_big {
        None
    } else {
        Some(acc as u64)
    }
}

/// `str::parse::<u64>` and its narrower cousins: `max` is the type's bound.
pub fn parse_unsigned_chars(s: &[char], max: u64) -> (r: Option<u64>)
    ensures
        match r {
            Some(n) => parse_unsigned(s@, max as nat) == Some(n as nat),
            None => parse_unsigned(s@, max as nat) is None,
        },
{
    if s.len() > 0 && s[0] == '+' {
        let body = slice(s, 1, s.len());
        assert(body@ =~= s@.drop_first());
        parse_digits(&body, max)
    } else {
        parse_digits(s, max)
    }
}

/// `str::parse::<i32>`.
pub fn parse_i32_chars(s: &[char]) -> (r: Option<i32>)
    ensures
        match r {
            Some(n) => parse_signed(s@, i32::MAX as nat) == Some(n as int),
            None => parse_signed(s@, i32::MAX as nat) is None,
        },
{
    if s.len() > 0 && s[0] == '-' {
        let body = slice(s, 1, s.len());
        assert(body@ =~= s@.drop_first());
        match parse_digits(&body, 2147483648) {
            Some(n) => Some((0 - (n as i64)) as i32),
            None => None,
        }
    } else {
        match parse_unsigned_chars(s, 2147483647) {
            Some(n) => Some(n as i32),
            None => None,
        }
    }
}

proof fn lemma_decimal_len(n: nat)
    ensures
        decimal(n).len() >= 1,
    decreases n,
{
    if n >= 10 {
        lemma_decimal_len(n / 10);
    }
}

/// `u64::to_string`, as characters.
pub fn decimal_chars(n: u64) -> (r: Vec<char>)
    ensures
        r@ == decimal(n as nat),
    decreases n,
{
    if n < 10 {
        let c = char_from('0' as u32 + n as u32);
        let mut r = Vec::new();
        r.push(c);
        assert(r@ =~= decimal(n as nat));
        r
    } else {
        let mut r = decimal_chars(n / 10);
        let c = char_from('0' as u32 + (n % 10) as u32);
        r.push(c);
        r
    }
}

pub fn decimal_string(n: u64) -> (r: String)
    ensures
        r@ == decimal(n as nat),
{
    let v = decimal_chars(n);
    string_of(&v)
}

/// `i32::to_string`.
pub fn signed_decimal_string(n: i32) -> (r: String)
    ensures
        r@ == signed_decimal(n as int),
{
    if n < 0 {
        let mut v: Vec<char> = Vec::new();
        v.push('-');
        let m: u64 = (0 - (n as i64)) as u64;
        let mut d = decimal_chars(m);
        v.append(&mut d);
        assert(v@ =~= signed_decimal(n as int));
        string_of(&v)
    } else {
        decimal_string(n as u64)
    }
}

/// Append one string's characters to another.
pub fn push_str(v: &mut Vec<char>, s: &str)
    ensures
        final(v)@ == old(v)@ + s@,
{
    let mut t = chars_of(s);
    v.append(&mut t);
}

} // verus!

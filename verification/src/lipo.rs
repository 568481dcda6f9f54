//! App Lipo: strip the architectures this Mac cannot run.
//!
//! Rewriting a Mach-O invalidates its code signature; on an app signed with
//! the hardened runtime the kernel then refuses to run it. So the risk is
//! read per app and stated per app, and an unreadable signature is never
//! taken for the reassuring case. Running `lipo` and `codesign` is the
//! caller's work; what they print is read here.

use crate::associate::{apple_bundle_id, is_apple_bundle_id};
use crate::order::{lemma_lex_total, lemma_lex_trans, lex_le, sort_by, sorted_by, text_le};
use crate::plist::{extract_plist_string, plist_string};
use crate::text::{
    all_digits, chars_of, contains, contains_char, digits_value, has, has_char, is_white, lines, lines_of,
    parse_unsigned,
    parse_unsigned_chars, seq_eq, push_str, string_of, strip_prefix, trim, trimmed, trimmed_str,
    white, without_prefix,
};
use vstd::prelude::*;

verus! {

#[derive(Debug, PartialEq, Eq, Clone, Copy, Structural)]
pub enum SignatureRisk {
    /// Hardened runtime, library validation, or the `kill` flag: stripping
    /// will very probably stop the app launching.
    Hardened,
    /// Signed, without the flags that make an invalid signature fatal.
    Signed,
    /// Ad-hoc or unsigned: nothing to invalidate.
    Unsigned,
    /// `codesign` could not be read; treated as signed everywhere it matters.
    Unknown,
}

#[derive(Debug, PartialEq, Eq, Clone)]
pub struct Candidate {
    pub bundle_id: String,
    pub name: String,
    pub app_path: String,
    pub binary_path: String,
    pub archs: Vec<String>,
    pub bytes: u64,
    /// What stripping would free, measured from the slices themselves.
    pub savings: u64,
    pub signature: SignatureRisk,
    /// Stated per app, because the risk is not uniform.
    pub warning: String,
    /// Present when this app must not be stripped at all, with the reason.
    pub blocked: Option<String>,
}

#[derive(Debug, PartialEq, Eq, Clone)]
pub struct StripReport {
    pub bundle_id: String,
    pub name: String,
    pub freed: u64,
    pub failed: Option<String>,
}

// ---------------------------------------------------------------------------
// The warning
// ---------------------------------------------------------------------------

pub open spec fn hardened_warning() -> &'static str {
    "This app is signed with the hardened runtime. Stripping it breaks that signature and macOS will very likely refuse to open it afterwards. Reinstalling is the only fix."
}

pub open spec fn signed_warning() -> &'static str {
    "This app is signed. Stripping it breaks that signature, and macOS may refuse to open it afterwards."
}

pub open spec fn unsigned_warning() -> &'static str {
    "This app is not signed, so there is no signature to break. It cannot be undone."
}

pub open spec fn unknown_warning() -> &'static str {
    "Spiral Clean could not read this app's signature, so it is treated as signed: stripping it may stop it opening."
}

pub open spec fn warning_spec(risk: SignatureRisk) -> &'static str {
    match risk {
        SignatureRisk::Hardened => hardened_warning(),
        SignatureRisk::Signed => signed_warning(),
        SignatureRisk::Unsigned => unsigned_warning(),
        SignatureRisk::Unknown => unknown_warning(),
    }
}

/// The warning shown for a risk, specific to it.
pub fn warning_for(risk: SignatureRisk) -> (r: &'static str)
    ensures
        r == warning_spec(risk),
{
    match risk {
        SignatureRisk::Hardened => "This app is signed with the hardened runtime. Stripping it breaks that signature and macOS will very likely refuse to open it afterwards. Reinstalling is the only fix.",
        SignatureRisk::Signed => "This app is signed. Stripping it breaks that signature, and macOS may refuse to open it afterwards.",
        SignatureRisk::Unsigned => "This app is not signed, so there is no signature to break. It cannot be undone.",
        SignatureRisk::Unknown => "Spiral Clean could not read this app's signature, so it is treated as signed: stripping it may stop it opening.",
    }
}

// ---------------------------------------------------------------------------
// Reading `codesign -dv --verbose=4`
// ---------------------------------------------------------------------------

/// The first line that contains `p`.
pub open spec fn first_line_with(ls: Seq<Seq<char>>, p: Seq<char>) -> Option<Seq<char>>
    decreases ls.len(),
{
    if ls.len() == 0 {
        None
    } else if contains(ls[0], p) {
        Some(ls[0])
    } else {
        first_line_with(ls.drop_first(), p)
    }
}

pub open spec fn fatal_flags(flags: Seq<char>) -> bool {
    contains(flags, "kill"@) || contains(flags, "runtime"@) || contains(flags, "library-validation"@)
}

/// "Not signed at all" is unsigned; no flags line is unknown, never
/// unsigned; any of `kill`, `runtime` or `library-validation` on the flags
/// line is hardened; otherwise ad-hoc is unsigned and the rest is signed.
pub open spec fn codesign_risk(out: Seq<char>) -> SignatureRisk {
    if contains(out, "code object is not signed at all"@) {
        SignatureRisk::Unsigned
    } else {
        match first_line_with(lines(out), "flags=0x"@) {
            None => SignatureRisk::Unknown,
            Some(flags) => if fatal_flags(flags) {
                SignatureRisk::Hardened
            } else if contains(out, "adhoc"@) {
                SignatureRisk::Unsigned
            } else {
                SignatureRisk::Signed
            },
        }
    }
}

/// An unreadable or ambiguous signature is never taken for the reassuring
/// case: the risk is `Unsigned` only where codesign said the code is not
/// signed at all or is ad-hoc signed, and a flags line carrying `kill`,
/// `runtime` or `library-validation` is `Hardened` unless the code is not
/// signed at all.
pub proof fn lemma_unsigned_only_when_codesign_says_so(out: Seq<char>)
    ensures
        codesign_risk(out) == SignatureRisk::Unsigned ==> contains(out, "code object is not signed at all"@)
            || contains(out, "adhoc"@),
        !contains(out, "code object is not signed at all"@) ==> (first_line_with(lines(out), "flags=0x"@) matches Some(f)
            ==> ((contains(f, "kill"@) || contains(f, "runtime"@) || contains(f, "library-validation"@))
            ==> codesign_risk(out) == SignatureRisk::Hardened)),
        first_line_with(lines(out), "flags=0x"@) is None && !contains(out, "code object is not signed at all"@)
            ==> codesign_risk(out) == SignatureRisk::Unknown,
{
}

/// The line found for `p` is the first that holds it: one of the lines,
/// holding `p`, with no line before it holding `p`; none is found only when
/// no line holds it.
pub proof fn lemma_first_line_with(ls: Seq<Seq<char>>, p: Seq<char>)
    ensures
        first_line_with(ls, p) matches Some(l) ==> exists|i: int|
            0 <= i < ls.len() && ls[i] == l && contains(l, p) && forall|j: int|
                0 <= j < i ==> !contains(#[trigger] ls[j], p),
        first_line_with(ls, p) is None ==> forall|j: int| 0 <= j < ls.len() ==> !contains(#[trigger] ls[j], p),
    decreases ls.len(),
{
    if ls.len() > 0 {
        lemma_first_line_with(ls.drop_first(), p);
        if !contains(ls[0], p) {
            if let Some(l) = first_line_with(ls, p) {
                let i = choose|i: int|
                    0 <= i < ls.drop_first().len() && ls.drop_first()[i] == l && contains(l, p) && forall|j: int|
                        0 <= j < i ==> !contains(#[trigger] ls.drop_first()[j], p);
                assert(ls[i + 1] == l);
                assert forall|j: int| 0 <= j < i + 1 implies !contains(#[trigger] ls[j], p) by {
                    if j > 0 {
                        assert(ls[j] == ls.drop_first()[j - 1]);
                    }
                }
            } else {
                assert forall|j: int| 0 <= j < ls.len() implies !contains(#[trigger] ls[j], p) by {
                    if j > 0 {
                        assert(ls[j] == ls.drop_first()[j - 1]);
                    }
                }
            }
        } else {
            assert(ls[0] == first_line_with(ls, p)->0);
        }
    }
}

fn first_line_containing(ls: &Vec<Vec<char>>, p: &[char]) -> (r: Option<usize>)
    ensures
        match r {
            Some(i) => i < ls.len() && first_line_with(ls@.map_values(|l: Vec<char>| l@), p@) == Some(
                ls@[i as int]@,
            ),
            None => first_line_with(ls@.map_values(|l: Vec<char>| l@), p@) is None,
        },
{
    let ghost lv = ls@.map_values(|l: Vec<char>| l@);
    assert(lv.subrange(0, lv.len() as int) =~= lv);
    let mut i: usize = 0;
    while i < ls.len()
        invariant
            lv == ls@.map_values(|l: Vec<char>| l@),
            i <= ls.len(),
            first_line_with(lv, p@) == first_line_with(lv.subrange(i as int, lv.len() as int), p@),
        decreases ls.len() - i,
    {
        let ghost rest = lv.subrange(i as int, lv.len() as int);
        assert(rest.drop_first() =~= lv.subrange(i + 1, lv.len() as int));
        assert(rest[0] == ls@[i as int]@);
        if has(ls[i].as_slice(), p) {
            return Some(i);
        }
        i += 1;
    }
    None
}

/// The signature risk read from `codesign -dv --verbose=4` output.
pub fn risk_from_codesign(output: &str) -> (r: SignatureRisk)
    ensures
        r == codesign_risk(output@),
{
    let out = chars_of(output);
    if has(out.as_slice(), chars_of("code object is not signed at all").as_slice()) {
        return SignatureRisk::Unsigned;
    }
    let all = lines_of(out.as_slice());
    let i = match first_line_containing(&all, chars_of("flags=0x").as_slice()) {
        Some(i) => i,
        None => return SignatureRisk::Unknown,
    };
    let flags = &all[i];
    if has(flags.as_slice(), chars_of("kill").as_slice()) || has(flags.as_slice(), chars_of("runtime").as_slice())
        || has(flags.as_slice(), chars_of("library-validation").as_slice()) {
        SignatureRisk::Hardened
    } else if has(out.as_slice(), chars_of("adhoc").as_slice()) {
        SignatureRisk::Unsigned
    } else {
        SignatureRisk::Signed
    }
}

// ---------------------------------------------------------------------------
// Reading `lipo -archs` and `lipo -detailed_info`
// ---------------------------------------------------------------------------

/// `split_whitespace`, as finished words and the word still open.
pub open spec fn words_acc(s: Seq<char>) -> (Seq<Seq<char>>, Seq<char>)
    decreases s.len(),
{
    if s.len() == 0 {
        (Seq::empty(), Seq::empty())
    } else {
        let (done, cur) = words_acc(s.drop_last());
        if is_white(s.last()) {
            if cur.len() > 0 { (done.push(cur), Seq::empty()) } else { (done, Seq::empty()) }
        } else {
            (done, cur.push(s.last()))
        }
    }
}

/// The non-empty runs between white space, in order.
pub open spec fn words(s: Seq<char>) -> Seq<Seq<char>> {
    let (done, cur) = words_acc(s);
    if cur.len() > 0 { done.push(cur) } else { done }
}

proof fn lemma_words_acc_unbroken(s: Seq<char>)
    ensures
        forall|i: int| 0 <= i < words_acc(s).0.len() ==> unbroken(#[trigger] words_acc(s).0[i]),
        forall|i: int| 0 <= i < words_acc(s).1.len() ==> !is_white(#[trigger] words_acc(s).1[i]),
    decreases s.len(),
{
    if s.len() > 0 {
        lemma_words_acc_unbroken(s.drop_last());
        let (done, cur) = words_acc(s.drop_last());
        if !is_white(s.last()) {
            assert forall|i: int| 0 <= i < cur.push(s.last()).len() implies !is_white(#[trigger] cur.push(s.last())[i]) by {
                if i < cur.len() {
                    assert(cur.push(s.last())[i] == cur[i]);
                }
            }
        }
    }
}

/// Every architecture read from `lipo -archs` is a non-empty name with no
/// whitespace in it.
pub proof fn lemma_archs_are_single_words(s: Seq<char>)
    ensures
        forall|i: int| 0 <= i < words(s).len() ==> unbroken(#[trigger] words(s)[i]),
{
    lemma_words_acc_unbroken(s);
}

pub open spec fn strings_view(v: Seq<String>) -> Seq<Seq<char>> {
    v.map_values(|s: String| s@)
}

/// The architectures in a Mach-O, from `lipo -archs` output.
pub fn archs_from(output: &str) -> (r: Vec<String>)
    ensures
        strings_view(r@) == words(output@),
{
    let s = chars_of(output);
    let mut done: Vec<String> = Vec::new();
    let mut cur: Vec<char> = Vec::new();
    let mut i: usize = 0;
    assert(s@.take(0) =~= Seq::<char>::empty());
    while i < s.len()
        invariant
            s@ == output@,
            i <= s.len(),
            (strings_view(done@), cur@) == words_acc(s@.take(i as int)),
        decreases s.len() - i,
    {
        assert(s@.take(i + 1).drop_last() =~= s@.take(i as int));
        assert(s@.take(i + 1).last() == s@[i as int]);
        if white(s[i]) {
            if cur.len() > 0 {
                let w = string_of(cur.as_slice());
                let ghost before = done@;
                done.push(w);
                assert(strings_view(done@) =~= strings_view(before).push(w@));
                cur = Vec::new();
            } else {
                cur = Vec::new();
            }
            assert(cur@ =~= Seq::<char>::empty());
        } else {
            cur.push(s[i]);
        }
        i += 1;
    }
    assert(s@.take(s@.len() as int) =~= s@);
    if cur.len() > 0 {
        let w = string_of(cur.as_slice());
        let ghost before = done@;
        done.push(w);
        assert(strings_view(done@) =~= strings_view(before).push(w@));
    }
    done
}

pub open spec fn saturating_add(a: u64, b: u64) -> u64 {
    if a + b > u64::MAX { u64::MAX } else { (a + b) as u64 }
}

pub open spec fn size_value(s: Seq<char>) -> u64 {
    match parse_unsigned(trim(s), u64::MAX as nat) {
        Some(n) => n as u64,
        None => 0,
    }
}

/// Reading `lipo -detailed_info` line by line: the architecture the lines
/// are about, and the total of the `size` lines of every architecture other
/// than `keep`.
pub open spec fn savings_acc(ls: Seq<Seq<char>>, keep: Seq<char>) -> (Option<Seq<char>>, u64)
    decreases ls.len(),
{
    if ls.len() == 0 {
        (None, 0)
    } else {
        let (current, total) = savings_acc(ls.drop_last(), keep);
        let line = trim(ls.last());
        match strip_prefix(line, "architecture "@) {
            Some(arch) => (Some(trim(arch)), total),
            None => match strip_prefix(line, "size "@) {
                Some(size) => match current {
                    Some(a) => if a != keep {
                        (current, saturating_add(total, size_value(size)))
                    } else {
                        (current, total)
                    },
                    None => (current, total),
                },
                None => (current, total),
            },
        }
    }
}

pub open spec fn savings_of(detailed: Seq<char>, keep: Seq<char>) -> u64 {
    savings_acc(lines(detailed), keep).1
}

pub open spec fn opt_seq(o: Option<Vec<char>>) -> Option<Seq<char>> {
    match o {
        Some(v) => Some(v@),
        None => None,
    }
}

/// Text with no whitespace in it, and something there.
pub open spec fn unbroken(s: Seq<char>) -> bool {
    s.len() > 0 && forall|i: int| 0 <= i < s.len() ==> !is_white(#[trigger] s[i])
}

proof fn lemma_trim_keeps(s: Seq<char>)
    requires
        s.len() > 0,
        !is_white(s[0]),
        !is_white(s.last()),
    ensures
        trim(s) == s,
{
}

/// Reading on never lowers the savings: whatever line comes next, the
/// total so far stays counted.
pub proof fn lemma_savings_never_fall(ls: Seq<Seq<char>>, keep: Seq<char>, line: Seq<char>)
    ensures
        savings_acc(ls.push(line), keep).1 >= savings_acc(ls, keep).1,
{
    assert(ls.push(line).drop_last() =~= ls);
}

/// Each slice that would be discarded adds its size: after the lines read
/// so far, an `architecture` line for anything but `keep` followed by its
/// `size` line raises the savings by that size, held at the largest `u64`;
/// the same two lines for `keep` leave the savings unchanged.
pub proof fn lemma_each_discarded_slice_adds_its_size(
    ls: Seq<Seq<char>>,
    keep: Seq<char>,
    arch: Seq<char>,
    size: Seq<char>,
)
    requires
        unbroken(arch),
        unbroken(size),
        all_digits(size),
    ensures
        arch != keep ==> savings_acc(ls.push("architecture "@ + arch).push("size "@ + size), keep).1 as int == if digits_value(size) > u64::MAX {
            savings_acc(ls, keep).1 as int
        } else if savings_acc(ls, keep).1 + digits_value(size) > u64::MAX {
            u64::MAX as int
        } else {
            savings_acc(ls, keep).1 + digits_value(size)
        },
        arch == keep ==> savings_acc(ls.push("architecture "@ + arch).push("size "@ + size), keep).1
            == savings_acc(ls, keep).1,
{
    reveal_strlit("architecture ");
    reveal_strlit("size ");
    let l1 = "architecture "@ + arch;
    let l2 = "size "@ + size;
    let ls1 = ls.push(l1);
    let ls2 = ls1.push(l2);
    assert(ls1.drop_last() =~= ls);
    assert(ls2.drop_last() =~= ls1);
    assert(l1[0] == 'a');
    assert(l1.last() == arch.last());
    lemma_trim_keeps(l1);
    assert(l1.subrange(0, 13) =~= "architecture "@);
    assert(l1.subrange(13, l1.len() as int) =~= arch);
    lemma_trim_keeps(arch);
    assert(l2[0] == 's');
    assert(l2.last() == size.last());
    lemma_trim_keeps(l2);
    assert(l2.subrange(0, 5) =~= "size "@);
    assert(l2.subrange(5, l2.len() as int) =~= size);
    assert(!crate::text::starts_with(l2, "architecture "@)) by {
        if l2.len() >= 13 {
            assert(l2.subrange(0, 13)[0] == 's');
        }
    }
    lemma_trim_keeps(size);
    assert(size[0] != '+') by {
        assert(crate::text::is_digit(size[0]));
    }
    let t0 = savings_acc(ls, keep).1;
    assert(strip_prefix(trim(l1), "architecture "@) == Some(arch));
    assert(savings_acc(ls1, keep) == (Some(arch), t0));
    assert(strip_prefix(trim(l2), "architecture "@) is None);
    assert(strip_prefix(trim(l2), "size "@) == Some(size));
    assert(size_value(size) == if digits_value(size) > u64::MAX { 0 } else { digits_value(size) });
}

/// In `lipo -detailed_info` text, each further slice other than `keep` adds
/// its size to the savings, held at the largest `u64` (a size too large to
/// read counts nothing); a further slice for `keep` adds nothing. `text` is
/// what was read before: empty, or ending in a line break.
pub proof fn lemma_savings_add_up_over_the_text(
    text: Seq<char>,
    keep: Seq<char>,
    arch: Seq<char>,
    size: Seq<char>,
)
    requires
        unbroken(arch),
        unbroken(size),
        all_digits(size),
        text.len() == 0 || text.last() == '\n',
    ensures
        arch != keep ==> savings_of(text + ("architecture "@ + arch + "\n"@ + "size "@ + size + "\n"@), keep) as int
            == if digits_value(size) > u64::MAX {
            savings_of(text, keep) as int
        } else if savings_of(text, keep) + digits_value(size) > u64::MAX {
            u64::MAX as int
        } else {
            savings_of(text, keep) + digits_value(size)
        },
        arch == keep ==> savings_of(text + ("architecture "@ + arch + "\n"@ + "size "@ + size + "\n"@), keep)
            == savings_of(text, keep),
{
    reveal_strlit("architecture ");
    reveal_strlit("size ");
    reveal_strlit("\n");
    let l1 = "architecture "@ + arch;
    let l2 = "size "@ + size;
    let a1 = l1 + seq!['\n'];
    let a2 = l2 + seq!['\n'];
    let block = "architecture "@ + arch + "\n"@ + "size "@ + size + "\n"@;
    assert(block =~= a1 + a2);
    assert forall|i: int| 0 <= i < l1.len() implies l1[i] != '\n' by {
        if i >= 13 {
            assert(l1[i] == arch[i - 13]);
        }
    }
    assert forall|i: int| 0 <= i < l2.len() implies l2[i] != '\n' by {
        if i >= 5 {
            assert(l2[i] == size[i - 5]);
        }
    }
    assert(l1.last() == arch.last());
    assert(l2.last() == size.last());
    crate::text::lemma_one_line(l1);
    crate::text::lemma_one_line(l2);
    crate::text::lemma_lines_append(a1, a2);
    assert(lines(block) =~= seq![l1, l2]);
    if text.len() == 0 {
        assert(text + block =~= block);
        assert(crate::text::split_on(text, |c: char| c == '\n') == seq![Seq::<char>::empty()]);
        assert(lines(text) =~= Seq::<Seq<char>>::empty());
    } else {
        crate::text::lemma_lines_append(text, block);
    }
    assert(lines(text + block) =~= lines(text).push(l1).push(l2));
    lemma_each_discarded_slice_adds_its_size(lines(text), keep, arch, size);
}

/// The total size of the slices that would be discarded, from the per-slice
/// `size` lines: a size that does not parse counts nothing, never a guess.
pub fn savings_from(detailed: &str, keep: &str) -> (r: u64)
    ensures
        r == savings_of(detailed@, keep@),
{
    let text = chars_of(detailed);
    let all = lines_of(text.as_slice());
    let k = chars_of(keep);
    let arch_p = chars_of("architecture ");
    let size_p = chars_of("size ");
    let ghost ls = lines(detailed@);
    let mut total: u64 = 0;
    let mut current: Option<Vec<char>> = None;
    let mut i: usize = 0;
    assert(ls.take(0) =~= Seq::<Seq<char>>::empty());
    while i < all.len()
        invariant
            all@.map_values(|p: Vec<char>| p@) == ls,
            ls == lines(detailed@),
            k@ == keep@,
            arch_p@ == "architecture "@,
            size_p@ == "size "@,
            i <= all.len(),
            (opt_seq(current), total) == savings_acc(ls.take(i as int), keep@),
        decreases all.len() - i,
    {
        assert(all@[i as int]@ == ls[i as int]);
        assert(ls.take(i + 1).drop_last() =~= ls.take(i as int));
        assert(ls.take(i + 1).last() == ls[i as int]);
        let line = trimmed(all[i].as_slice());
        match without_prefix(line.as_slice(), arch_p.as_slice()) {
            Some(arch) => {
                current = Some(trimmed(arch.as_slice()));
            },
            None => match without_prefix(line.as_slice(), size_p.as_slice()) {
                Some(size) => {
                    let other = match &current {
                        Some(a) => !seq_eq(a.as_slice(), k.as_slice()),
                        None => false,
                    };
                    if other {
                        let t = trimmed(size.as_slice());
                        let v = match parse_unsigned_chars(t.as_slice(), 18446744073709551615) {
                            Some(n) => n,
                            None => 0,
                        };
                        total = match total.checked_add(v) {
                            Some(x) => x,
                            None => 18446744073709551615,
                        };
                    }
                },
                None => {},
            },
        }
        i += 1;
    }
    assert(ls.take(ls.len() as int) =~= ls);
    total
}

// ---------------------------------------------------------------------------
// Which apps are candidates
// ---------------------------------------------------------------------------

pub open spec fn opt_string(o: Option<String>) -> Option<Seq<char>> {
    match o {
        Some(s) => Some(s@),
        None => None,
    }
}

/// The main executable's name from the bundle's own `Info.plist`, refused
/// when it could name a file outside `Contents/MacOS`.
pub open spec fn executable_name(plist: Seq<char>) -> Option<Seq<char>> {
    match plist_string(plist, "CFBundleExecutable"@) {
        Some(n) => if contains_char(n, '/') || contains(n, ".."@) { None } else { Some(n) },
        None => None,
    }
}

/// The executable's name never leads out of `Contents/MacOS`: it holds no
/// `/` and no `..`, and it is the bundle's own `CFBundleExecutable` string.
pub proof fn lemma_executable_name_stays_inside(plist: Seq<char>)
    ensures
        executable_name(plist) matches Some(n) ==> !contains_char(n, '/') && !contains(n, ".."@) && plist_string(
            plist,
            "CFBundleExecutable"@,
        ) == Some(n),
        plist_string(plist, "CFBundleExecutable"@) matches Some(n) ==> ((!contains_char(n, '/') && !contains(n, ".."@))
            ==> executable_name(plist) == Some(n)),
{
}

pub fn executable_name_from(plist: &str) -> (r: Option<String>)
    ensures
        opt_string(r) == executable_name(plist@),
{
    let name = match extract_plist_string(plist, "CFBundleExecutable") {
        Some(n) => n,
        None => return None,
    };
    let v = chars_of(name.as_str());
    if has_char(v.as_slice(), '/') || has(v.as_slice(), chars_of("..").as_slice()) {
        None
    } else {
        Some(name)
    }
}

pub open spec fn apple_refusal() -> Seq<char> {
    "Part of macOS. Spiral Clean never modifies Apple's own software."@
}

pub open spec fn managed_refusal() -> Seq<char> {
    "This app is managed by something else, which would replace the stripped binary anyway."@
}

pub open spec fn running_refusal() -> Seq<char> {
    "This app is open. Quit it first — rewriting a running app's binary can crash it."@
}

/// Why an app must not be stripped: Apple's own, managed by something else,
/// or open right now.
pub open spec fn refusal_spec(bundle_id: Seq<char>, managed: bool, running: bool) -> Option<Seq<char>> {
    if apple_bundle_id(bundle_id) {
        Some(apple_refusal())
    } else if managed {
        Some(managed_refusal())
    } else if running {
        Some(running_refusal())
    } else {
        None
    }
}

/// An app is refused exactly when it is Apple's own, managed by something
/// else, or running; Apple's own is refused as such whatever else holds.
pub proof fn lemma_refused_exactly_when(bundle_id: Seq<char>, managed: bool, running: bool)
    ensures
        refusal_spec(bundle_id, managed, running) is Some <==> (apple_bundle_id(bundle_id) || managed || running),
        apple_bundle_id(bundle_id) ==> refusal_spec(bundle_id, managed, running) == Some(apple_refusal()),
{
}

pub fn refusal(bundle_id: &str, managed: bool, running: bool) -> (r: Option<String>)
    ensures
        opt_string(r) == refusal_spec(bundle_id@, managed, running),
{
    if is_apple_bundle_id(bundle_id) {
        return Some("Part of macOS. Spiral Clean never modifies Apple's own software.".to_owned());
    }
    if managed {
        return Some(
            "This app is managed by something else, which would replace the stripped binary anyway.".to_owned(),
        );
    }
    if running {
        return Some(
            "This app is open. Quit it first — rewriting a running app's binary can crash it.".to_owned(),
        );
    }
    None
}

/// What was learned about one installed app.
pub struct AppFacts {
    pub bundle_id: String,
    pub name: String,
    pub app_path: String,
    pub binary_path: String,
    /// The binary's length on disk.
    pub bytes: u64,
    /// Managed by a package manager or the App Store, which would replace a
    /// stripped binary.
    pub managed: bool,
    pub running: bool,
    /// `lipo -archs` output, when it ran.
    pub archs: Option<String>,
    /// `codesign -dv --verbose=4` output, when it could be read.
    pub codesign: Option<String>,
    /// `lipo -detailed_info` output, when it ran.
    pub detailed: Option<String>,
}

/// Only a real fat binary that still holds this Mac's own architecture:
/// stripping the only slice would leave an app that cannot run.
pub open spec fn strippable(archs: Seq<Seq<char>>, keep: Seq<char>) -> bool {
    archs.len() >= 2 && archs.contains(keep)
}

pub open spec fn risk_of(codesign: Option<String>) -> SignatureRisk {
    match codesign {
        Some(out) => codesign_risk(out@),
        None => SignatureRisk::Unknown,
    }
}

pub open spec fn candidate_matches(c: Candidate, f: AppFacts, keep: Seq<char>) -> bool {
    &&& f.archs matches Some(out) && strings_view(c.archs@) == words(out@)
    &&& c.bundle_id@ == f.bundle_id@
    &&& c.name@ == f.name@
    &&& c.app_path@ == f.app_path@
    &&& c.binary_path@ == f.binary_path@
    &&& c.bytes == f.bytes
    &&& c.savings == match f.detailed {
        Some(d) => savings_of(d@, keep),
        None => 0,
    }
    &&& c.signature == risk_of(f.codesign)
    &&& c.warning@ == warning_spec(c.signature)@
    &&& opt_string(c.blocked) == refusal_spec(f.bundle_id@, f.managed, f.running)
}

pub open spec fn is_candidate(f: AppFacts, keep: Seq<char>) -> bool {
    f.archs matches Some(out) && strippable(words(out@), keep)
}

fn contains_keep(archs: &Vec<String>, keep: &str) -> (r: bool)
    ensures
        r == strings_view(archs@).contains(keep@),
{
    let mut i: usize = 0;
    while i < archs.len()
        invariant
            i <= archs.len(),
            forall|j: int| 0 <= j < i ==> archs@[j]@ != keep@,
        decreases archs.len() - i,
    {
        if crate::text::str_eq(archs[i].as_str(), keep) {
            assert(strings_view(archs@)[i as int] == keep@);
            return true;
        }
        i += 1;
    }
    proof {
        if strings_view(archs@).contains(keep@) {
            let j = choose|j: int| 0 <= j < archs@.len() && strings_view(archs@)[j] == keep@;
            assert(archs@[j]@ != keep@);
        }
    }
    false
}

/// The candidate one app makes, when it makes one. `keep` is the
/// architecture this Mac runs, as `lipo` spells it.
pub fn candidate_for(f: AppFacts, keep: &str) -> (r: Option<Candidate>)
    ensures
        r is Some <==> is_candidate(f, keep@),
        r matches Some(c) ==> candidate_matches(c, f, keep@),
{
    let archs = match &f.archs {
        Some(out) => archs_from(out.as_str()),
        None => return None,
    };
    if archs.len() < 2 || !contains_keep(&archs, keep) {
        return None;
    }
    let signature = match &f.codesign {
        Some(out) => risk_from_codesign(out.as_str()),
        None => SignatureRisk::Unknown,
    };
    let savings = match &f.detailed {
        Some(d) => savings_from(d.as_str(), keep),
        None => 0,
    };
    let blocked = refusal(f.bundle_id.as_str(), f.managed, f.running);
    let warning = warning_for(signature).to_owned();
    Some(Candidate {
        bundle_id: f.bundle_id,
        name: f.name,
        app_path: f.app_path,
        binary_path: f.binary_path,
        archs,
        bytes: f.bytes,
        savings,
        signature,
        warning,
        blocked,
    })
}

/// Largest saving first, then by name.
pub open spec fn listed_before(a: Candidate, b: Candidate) -> bool {
    a.savings > b.savings || (a.savings == b.savings && lex_le(a.name@, b.name@))
}

/// The candidates, largest saving first, ties by name.
pub fn order_candidates(found: Vec<Candidate>) -> (r: Vec<Candidate>)
    ensures
        r@.to_multiset() == found@.to_multiset(),
        sorted_by(r@, |a: Candidate, b: Candidate| listed_before(a, b)),
{
    let le = |a: &Candidate, b: &Candidate| -> (r: bool)
        ensures
            r == listed_before(*a, *b),
        { a.savings > b.savings || (a.savings == b.savings && text_le(a.name.as_str(), b.name.as_str())) };
    let ghost leq = |a: Candidate, b: Candidate| listed_before(a, b);
    proof {
        assert forall|a: Candidate, b: Candidate| #[trigger] leq(a, b) || leq(b, a) by {
            lemma_lex_total(a.name@, b.name@);
        }
        assert forall|a: Candidate, b: Candidate, c: Candidate| #[trigger] leq(a, b) && #[trigger] leq(b, c)
            implies leq(a, c) by {
            if a.savings == b.savings && b.savings == c.savings {
                lemma_lex_trans(a.name@, b.name@, c.name@);
            }
        }
    }
    sort_by(found, &le, Ghost(leq))
}

// ---------------------------------------------------------------------------
// Stripping one app
// ---------------------------------------------------------------------------

pub open spec fn gone_message(bundle_id: Seq<char>) -> Seq<char> {
    bundle_id + " is no longer a universal app. Reopen Storage to see the current list."@
}

/// The candidate to strip, re-resolved from a fresh list by bundle id: the
/// first with that id. An app no longer listed, or one that is blocked, is
/// refused with the reason.
pub open spec fn strip_target_spec(found: Seq<Candidate>, bundle_id: Seq<char>) -> Result<Candidate, Seq<char>>
    decreases found.len(),
{
    if found.len() == 0 {
        Err(gone_message(bundle_id))
    } else if found[0].bundle_id@ == bundle_id {
        match found[0].blocked {
            Some(reason) => Err(reason@),
            None => Ok(found[0]),
        }
    } else {
        strip_target_spec(found.drop_first(), bundle_id)
    }
}

pub open spec fn target_view(r: Result<Candidate, String>) -> Result<Candidate, Seq<char>> {
    match r {
        Ok(c) => Ok(c),
        Err(e) => Err(e@),
    }
}

pub fn strip_target(found: Vec<Candidate>, bundle_id: &str) -> (r: Result<Candidate, String>)
    ensures
        target_view(r) == strip_target_spec(found@, bundle_id@),
{
    let n = found.len();
    let ghost all = found@;
    let mut rest = found;
    let mut k: usize = 0;
    while rest.len() > 0
        invariant
            k + rest@.len() == all.len(),
            all.len() <= usize::MAX,
            rest@ == all.subrange(k as int, all.len() as int),
            strip_target_spec(all, bundle_id@) == strip_target_spec(rest@, bundle_id@),
            all == found@,
        decreases rest.len(),
    {
        let ghost before = rest@;
        let c = rest.remove(0);
        assert(before.drop_first() =~= rest@);
        assert(before[0] == c);
        if crate::text::str_eq(c.bundle_id.as_str(), bundle_id) {
            if let Some(reason) = &c.blocked {
                return Err(reason.clone());
            }
            return Ok(c);
        }
        k += 1;
    }
    let mut m = chars_of(bundle_id);
    crate::text::push_str(&mut m, " is no longer a universal app. Reopen Storage to see the current list.");
    Err(string_of(m.as_slice()))
}

/// What stripping freed: the binary's length before less its length after
/// (the length before when it cannot be read again), never below zero. A
/// failed strip frees nothing and says why.
pub fn strip_report(c: Candidate, thinned: Result<(), String>, before: u64, after: Option<u64>) -> (r: StripReport)
    ensures
        r.bundle_id@ == c.bundle_id@,
        r.name@ == c.name@,
        match thinned {
            Ok(_) => r.failed is None && r.freed == {
                let a = match after {
                    Some(a) => a,
                    None => before,
                };
                if before > a { (before - a) as u64 } else { 0 }
            },
            Err(why) => r.failed == Some(why) && r.freed == 0,
        },
{
    match thinned {
        Ok(()) => {
            let a = match after {
                Some(a) => a,
                None => before,
            };
            StripReport {
                bundle_id: c.bundle_id,
                name: c.name,
                freed: before.saturating_sub(a),
                failed: None,
            }
        },
        Err(why) => StripReport { bundle_id: c.bundle_id, name: c.name, freed: 0, failed: Some(why) },
    }
}

/// What the user is told when `lipo` would not thin the binary: its own
/// words, trimmed, and that nothing changed (the original is replaced only
/// after `lipo` succeeds).
pub open spec fn lipo_refusal_spec(stderr: Seq<char>) -> Seq<char> {
    "lipo refused this app: "@ + trim(stderr) + ". Nothing was changed."@
}

pub fn lipo_refusal(stderr: &str) -> (r: String)
    ensures
        r@ == lipo_refusal_spec(stderr@),
{
    let mut v = chars_of("lipo refused this app: ");
    let mut d = trimmed_str(stderr);
    v.append(&mut d);
    push_str(&mut v, ". Nothing was changed.");
    string_of(&v)
}

} // verus!

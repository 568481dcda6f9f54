//! The two privileged commands with a runtime value in them. Each value is
//! checked against what it is supposed to be before it goes near the
//! escalated batch, which checks it again.

use super::table::SNAPSHOT_TARGET_BYTES;
use crate::text::{
    chars_of, decimal, decimal_string, digit, is_ascii_lower, is_digit, lines, lines_of,
    string_of, strip_prefix, trim, trimmed, without_prefix,
};
use vstd::prelude::*;

verus! {

pub open spec fn thin_snapshots_commands() -> Seq<Seq<Seq<char>>> {
    seq![
        seq![
            "tmutil"@,
            "thinlocalsnapshots"@,
            "/"@,
            decimal(SNAPSHOT_TARGET_BYTES as nat),
            "4"@,
        ],
    ]
}

/// `tmutil thinlocalsnapshots / <bytes> 4`. The one interpolated value is a
/// `u64` in decimal, nothing but ASCII digits; urgency 4 is what makes the
/// target reachable.
pub fn thin_snapshots_command() -> (r: Result<Vec<Vec<String>>, String>)
    ensures
        r matches Ok(c) && c.deep_view() == thin_snapshots_commands(),
{
    let mut c: Vec<String> = Vec::new();
    c.push("tmutil".to_owned());
    c.push("thinlocalsnapshots".to_owned());
    c.push("/".to_owned());
    c.push(decimal_string(SNAPSHOT_TARGET_BYTES));
    c.push("4".to_owned());
    assert(c.deep_view() =~= thin_snapshots_commands()[0]);
    let mut all: Vec<Vec<String>> = Vec::new();
    all.push(c);
    assert(all.deep_view() =~= thin_snapshots_commands());
    Ok(all)
}

/// The value after `interface:` on the first line that carries one, trimmed.
pub open spec fn interface_field(ls: Seq<Seq<char>>) -> Option<Seq<char>>
    decreases ls.len(),
{
    if ls.len() == 0 {
        None
    } else {
        match strip_prefix(trim(ls[0]), "interface:"@) {
            Some(rest) => Some(trim(rest)),
            None => interface_field(ls.drop_first()),
        }
    }
}

/// A BSD interface name: lower-case ASCII letters, then ASCII digits, with
/// at least one of each (`en0`, `utun4`, `bridge100`).
pub open spec fn interface_shaped(n: Seq<char>) -> bool {
    exists|p: int| #[trigger] letters_then_digits(n, p)
}

pub open spec fn letters_then_digits(n: Seq<char>, p: int) -> bool {
    &&& 0 < p < n.len()
    &&& forall|j: int| 0 <= j < p ==> is_ascii_lower(#[trigger] n[j])
    &&& forall|j: int| p <= j < n.len() ==> is_digit(#[trigger] n[j])
}

pub open spec fn default_interface_of(route: Seq<char>) -> Option<Seq<char>> {
    match interface_field(lines(route)) {
        Some(n) => if interface_shaped(n) { Some(n) } else { None },
        None => None,
    }
}

fn shaped(n: &[char]) -> (r: bool)
    ensures
        r == interface_shaped(n@),
{
    let mut p: usize = 0;
    while p < n.len() && !digit(n[p])
        invariant
            p <= n.len(),
            forall|j: int| 0 <= j < p ==> !is_digit(#[trigger] n@[j]),
        decreases n.len() - p,
    {
        p += 1;
    }
    if p == 0 || p == n.len() {
        proof {
            if interface_shaped(n@) {
                let q = choose|q: int| letters_then_digits(n@, q);
                if p == 0 {
                    assert(is_ascii_lower(n@[0]));
                    assert(is_digit(n@[q]));
                } else {
                    assert(is_digit(n@[q]));
                }
            }
        }
        return false;
    }
    let mut i: usize = 0;
    while i < p
        invariant
            p < n.len(),
            is_digit(n@[p as int]),
            forall|j: int| 0 <= j < p ==> !is_digit(#[trigger] n@[j]),
            i <= p,
            forall|j: int| 0 <= j < i ==> is_ascii_lower(#[trigger] n@[j]),
        decreases p - i,
    {
        if !('a' <= n[i] && n[i] <= 'z') {
            proof {
                if interface_shaped(n@) {
                    let q = choose|q: int| letters_then_digits(n@, q);
                    if (i as int) < q {
                        assert(is_ascii_lower(n@[i as int]));
                    } else {
                        assert(is_digit(n@[i as int]));
                    }
                }
            }
            return false;
        }
        i += 1;
    }
    let mut k: usize = p;
    while k < n.len()
        invariant
            p < n.len(),
            is_digit(n@[p as int]),
            forall|j: int| 0 <= j < p ==> !is_digit(#[trigger] n@[j]),
            forall|j: int| 0 <= j < p ==> is_ascii_lower(#[trigger] n@[j]),
            p <= k <= n.len(),
            forall|j: int| p <= j < k ==> is_digit(#[trigger] n@[j]),
        decreases n.len() - k,
    {
        if !digit(n[k]) {
            proof {
                if interface_shaped(n@) {
                    let q = choose|q: int| letters_then_digits(n@, q);
                    assert(is_digit(n@[p as int]));
                    if (k as int) < q {
                        assert(is_ascii_lower(n@[k as int]));
                    } else {
                        assert(is_digit(n@[k as int]));
                    }
                }
            }
            return false;
        }
        k += 1;
    }
    assert(letters_then_digits(n@, p as int));
    true
}

pub open spec fn opt_string(o: Option<String>) -> Option<Seq<char>> {
    match o {
        Some(s) => Some(s@),
        None => None,
    }
}

/// The interface carrying the default route, out of `route -n get default`
/// output, when its name has the shape of an interface name. Anything else
/// is refused rather than passed along on the strength of the batch's
/// charset alone.
pub fn default_interface(route_output: &str) -> (r: Option<String>)
    ensures
        opt_string(r) == default_interface_of(route_output@),
{
    let text = chars_of(route_output);
    let all = lines_of(text.as_slice());
    let prefix = chars_of("interface:");
    let ghost ls = lines(route_output@);
    assert(ls.subrange(0, ls.len() as int) =~= ls);
    let mut i: usize = 0;
    while i < all.len()
        invariant
            all@.map_values(|p: Vec<char>| p@) == ls,
            ls == lines(route_output@),
            prefix@ == "interface:"@,
            i <= all.len(),
            interface_field(ls) == interface_field(ls.subrange(i as int, ls.len() as int)),
        decreases all.len() - i,
    {
        assert(all@[i as int]@ == ls[i as int]);
        let ghost rest = ls.subrange(i as int, ls.len() as int);
        assert(rest.drop_first() =~= ls.subrange(i + 1, ls.len() as int));
        let line = trimmed(all[i].as_slice());
        if let Some(after) = without_prefix(line.as_slice(), prefix.as_slice()) {
            let name = trimmed(after.as_slice());
            if shaped(name.as_slice()) {
                return Some(string_of(name.as_slice()));
            } else {
                return None;
            }
        }
        i += 1;
    }
    None
}

pub open spec fn no_connection_message() -> Seq<char> {
    "Spiral Clean could not find your active network connection, so the lease was not renewed."@
}

pub open spec fn dhcp_commands(interface: Seq<char>) -> Seq<Seq<Seq<char>>> {
    seq![seq!["ipconfig"@, "set"@, interface, "DHCP"@]]
}

/// What the DHCP builder makes of `route -n get default`'s output (`None`
/// when `route` could not run).
pub open spec fn dhcp_renew_of(route: Option<Seq<char>>) -> Result<Seq<Seq<Seq<char>>>, Seq<char>> {
    match route {
        Some(out) => match default_interface_of(out) {
            Some(n) => Ok(dhcp_commands(n)),
            None => Err(no_connection_message()),
        },
        None => Err(no_connection_message()),
    }
}

pub open spec fn opt_str(o: Option<&str>) -> Option<Seq<char>> {
    match o {
        Some(s) => Some(s@),
        None => None,
    }
}

pub open spec fn commands_result(r: Result<Vec<Vec<String>>, String>) -> Result<Seq<Seq<Seq<char>>>, Seq<char>> {
    match r {
        Ok(c) => Ok(c.deep_view()),
        Err(e) => Err(e@),
    }
}

/// `ipconfig set <interface> DHCP` for the interface carrying the default
/// route.
pub fn dhcp_renew_command(route_output: Option<&str>) -> (r: Result<Vec<Vec<String>>, String>)
    ensures
        commands_result(r) == dhcp_renew_of(opt_str(route_output)),
{
    let interface = match route_output {
        Some(out) => default_interface(out),
        None => None,
    };
    match interface {
        Some(n) => {
            let mut c: Vec<String> = Vec::new();
            c.push("ipconfig".to_owned());
            c.push("set".to_owned());
            c.push(n);
            c.push("DHCP".to_owned());
            let ghost name = c@[2]@;
            assert(c.deep_view() =~= dhcp_commands(name)[0]);
            let mut all: Vec<Vec<String>> = Vec::new();
            all.push(c);
            assert(all.deep_view() =~= dhcp_commands(name));
            Ok(all)
        },
        None => Err(
            "Spiral Clean could not find your active network connection, so the lease was not renewed.".to_owned(),
        ),
    }
}

} // verus!

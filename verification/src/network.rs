//! The local network: the basic configuration shown to the user, and the
//! addresses probed when scanning a /24 subnet for printers on port 9100.

use vstd::prelude::*;

use crate::guards::{guard_message, guard_valid_ip};
use crate::model::{texts, NetworkConfig};
use crate::printers::{invalid_ip_error, valid_ip_text};
use crate::text::{
    chars_eq, chars_of, decimal, has_prefix, lines, push_decimal, push_str, split_lines, split_words,
    starts_with, string_of, words,
};

verus! {

/// The text before the `n`-th `sep` (the whole text if it has fewer), as
/// `s.split(sep).take(n).collect::<Vec<_>>().join(sep)` gives it.
pub open spec fn upto_nth(s: Seq<char>, sep: char, n: nat) -> Seq<char>
    decreases s.len(),
{
    if s.len() == 0 || n == 0 {
        seq![]
    } else if s[0] == sep {
        if n == 1 {
            seq![]
        } else {
            seq![sep] + upto_nth(s.drop_first(), sep, (n - 1) as nat)
        }
    } else {
        seq![s[0]] + upto_nth(s.drop_first(), sep, n)
    }
}

proof fn lemma_upto_nth_step(s: Seq<char>, sep: char, n: nat, i: int, seen: nat)
    requires
        0 <= i < s.len(),
        n > seen,
        !(s[i] == sep && seen + 1 == n),
    ensures
        upto_nth(s.skip(i), sep, (n - seen) as nat) == seq![s[i]] + upto_nth(
            s.skip(i + 1),
            sep,
            (if s[i] == sep { n - seen - 1 } else { n - seen }) as nat,
        ),
{
    let t = s.skip(i);
    assert(t[0] == s[i]);
    assert(t.drop_first() =~= s.skip(i + 1));
}

/// The first three dot-separated parts of a subnet address (`192.168.1`
/// of `192.168.1.0`).
pub fn subnet_base(subnet: &str) -> (r: String)
    ensures
        r@ == upto_nth(subnet@, '.', 3),
{
    let v = chars_of(subnet);
    let mut out: Vec<char> = Vec::new();
    let mut seen: usize = 0;
    let mut i: usize = 0;
    assert(v@.skip(0) =~= v@);
    while i < v.len()
        invariant
            i <= v@.len(),
            v@ == subnet@,
            seen < 3,
            out@ + upto_nth(v@.skip(i as int), '.', (3 - seen) as nat) == upto_nth(v@, '.', 3),
        decreases v@.len() - i,
    {
        let c = v[i];
        if c == '.' && seen + 1 == 3 {
            proof {
                let t = v@.skip(i as int);
                assert(t[0] == '.');
                assert(upto_nth(t, '.', (3 - seen) as nat) =~= seq![]);
                assert(out@ =~= upto_nth(v@, '.', 3));
            }
            return string_of(&out);
        }
        proof {
            lemma_upto_nth_step(v@, '.', 3, i as int, seen as nat);
        }
        out.push(c);
        if c == '.' {
            seen += 1;
        }
        i += 1;
    }
    proof {
        assert(v@.skip(i as int).len() == 0);
        assert(out@ =~= upto_nth(v@, '.', 3));
    }
    string_of(&out)
}

/// The address whose validity decides whether a subnet can be scanned:
/// the base followed by `.1`.
pub fn scan_probe_address(subnet: &str) -> (r: String)
    ensures
        r@ == upto_nth(subnet@, '.', 3) + ".1"@,
{
    let base = subnet_base(subnet);
    let mut v = chars_of(base.as_str());
    push_str(&mut v, ".1");
    string_of(&v)
}

/// The hosts of the subnet probed on port 9100: `base.1` to `base.254`.
pub fn scan_candidates(base: &str) -> (r: Vec<String>)
    ensures
        r@.len() == 254,
        forall|i: int| 0 <= i < 254 ==> #[trigger] r@[i]@ == base@ + "."@ + decimal((i + 1) as nat),
{
    let mut r: Vec<String> = Vec::new();
    let mut i: u64 = 1;
    while i <= 254
        invariant
            1 <= i <= 255,
            r@.len() == i - 1,
            forall|k: int| 0 <= k < i - 1 ==> #[trigger] r@[k]@ == base@ + "."@ + decimal((k + 1) as nat),
        decreases 255 - i,
    {
        let mut v = chars_of(base);
        push_str(&mut v, ".");
        push_decimal(&mut v, i);
        r.push(string_of(&v));
        i += 1;
    }
    r
}

/// The configuration shown for the active interface: its address, and the
/// mask and gateway read from the system; where one could not be read, the
/// mask of a /24 network and the usual router address stand in.
pub fn network_config(ip: String, mask: Option<String>, gateway: Option<String>) -> (c: NetworkConfig)
    ensures
        c.ip@ == ip@,
        c.mask@ == (match mask {
            Some(m) => m@,
            None => "255.255.255.0"@,
        }),
        c.gateway@ == (match gateway {
            Some(g) => g@,
            None => "192.168.1.1"@,
        }),
{
    NetworkConfig {
        ip,
        mask: match mask {
            Some(m) => m,
            None => string_of(&chars_of("255.255.255.0")),
        },
        gateway: match gateway {
            Some(g) => g,
            None => string_of(&chars_of("192.168.1.1")),
        },
    }
}

// ─── Mask and gateway from `ip -o -4 addr show` and `ip route show default` ──

/// The gateway of the first line `default via GATEWAY …`.
pub open spec fn route_gateway(ls: Seq<Seq<char>>) -> Option<Seq<char>>
    decreases ls.len(),
{
    if ls.len() == 0 {
        None
    } else {
        let w = words(ls[0]);
        if w.len() >= 3 && w[0] == "default"@ && w[1] == "via"@ {
            Some(w[2])
        } else {
            route_gateway(ls.drop_first())
        }
    }
}

/// The default gateway in the output of `ip route show default`.
pub fn default_gateway(route_out: &str) -> (r: Option<String>)
    ensures
        match route_gateway(lines(route_out@)) {
            Some(g) => r matches Some(s) && s@ == g,
            None => r is None,
        },
{
    let ls = split_lines(&chars_of(route_out));
    let ghost all = lines(route_out@);
    let default_w = chars_of("default");
    let via_w = chars_of("via");
    let mut i: usize = 0;
    assert(all.skip(0) =~= all);
    while i < ls.len()
        invariant
            i <= ls@.len(),
            ls@.len() == all.len(),
            all == lines(route_out@),
            default_w@ == "default"@,
            via_w@ == "via"@,
            forall|k: int| 0 <= k < ls@.len() ==> #[trigger] ls@[k]@ == all[k],
            route_gateway(all) == route_gateway(all.skip(i as int)),
        decreases ls@.len() - i,
    {
        let ghost t = all.skip(i as int);
        assert(t[0] == all[i as int]);
        assert(t.drop_first() =~= all.skip(i + 1));
        let w = split_words(&ls[i]);
        if w.len() >= 3 && chars_eq(&w[0], &default_w) && chars_eq(&w[1], &via_w) {
            return Some(string_of(&w[2]));
        }
        i += 1;
    }
    None
}

pub open spec fn is_digit(c: char) -> bool {
    '0' <= c <= '9'
}

pub open spec fn digit_value(c: char) -> nat {
    (c as int - '0' as int) as nat
}

/// A number of one or two decimal digits.
pub open spec fn short_number(s: Seq<char>) -> Option<nat> {
    if s.len() == 1 && is_digit(s[0]) {
        Some(digit_value(s[0]))
    } else if s.len() == 2 && is_digit(s[0]) && is_digit(s[1]) {
        Some(digit_value(s[0]) * 10 + digit_value(s[1]))
    } else {
        None
    }
}

/// The prefix length in a word `IP/LEN` for the address `ip` (at most 32).
pub open spec fn word_prefix(w: Seq<char>, ip: Seq<char>) -> Option<nat> {
    if has_prefix(w, ip + "/"@) {
        match short_number(w.skip(ip.len() as int + 1)) {
            Some(n) => if n <= 32 {
                Some(n)
            } else {
                None
            },
            None => None,
        }
    } else {
        None
    }
}

/// The first word that gives the prefix length of `ip`.
pub open spec fn prefix_in(ws: Seq<Seq<char>>, ip: Seq<char>) -> Option<nat>
    decreases ws.len(),
{
    if ws.len() == 0 {
        None
    } else {
        match word_prefix(ws[0], ip) {
            Some(n) => Some(n),
            None => prefix_in(ws.drop_first(), ip),
        }
    }
}

fn short_number_exec(s: &Vec<char>, from: usize) -> (r: Option<u32>)
    requires
        from <= s@.len(),
    ensures
        match short_number(s@.skip(from as int)) {
            Some(n) => r == Some(n as u32),
            None => r is None,
        },
{
    let n = s.len() - from;
    let ghost t = s@.skip(from as int);
    if n == 1 && '0' <= s[from] && s[from] <= '9' {
        assert(t[0] == s@[from as int]);
        Some((s[from] as u32) - ('0' as u32))
    } else if n == 2 && '0' <= s[from] && s[from] <= '9' && '0' <= s[from + 1] && s[from + 1] <= '9' {
        assert(t[0] == s@[from as int] && t[1] == s@[from + 1]);
        Some(((s[from] as u32) - ('0' as u32)) * 10 + ((s[from + 1] as u32) - ('0' as u32)))
    } else {
        proof {
            if n == 1 {
                assert(t[0] == s@[from as int]);
            }
            if n == 2 {
                assert(t[0] == s@[from as int] && t[1] == s@[from + 1]);
            }
        }
        None
    }
}

/// The prefix length of the address `ip` in the output of
/// `ip -o -4 addr show` (a word `IP/LEN`).
pub fn interface_prefix(addr_out: &str, ip: &str) -> (r: Option<u32>)
    ensures
        match prefix_in(words(addr_out@), ip@) {
            Some(n) => r == Some(n as u32),
            None => r is None,
        },
{
    let ws = split_words(&chars_of(addr_out));
    let ghost all = words(addr_out@);
    let mut head = chars_of(ip);
    push_str(&mut head, "/");
    proof {
        reveal_strlit("/");
    }
    let hl = head.len();
    let mut i: usize = 0;
    assert(all.skip(0) =~= all);
    while i < ws.len()
        invariant
            i <= ws@.len(),
            ws@.len() == all.len(),
            all == words(addr_out@),
            head@ == ip@ + "/"@,
            hl == head@.len(),
            hl == ip@.len() + 1,
            forall|k: int| 0 <= k < ws@.len() ==> #[trigger] ws@[k]@ == all[k],
            prefix_in(all, ip@) == prefix_in(all.skip(i as int), ip@),
        decreases ws@.len() - i,
    {
        let ghost t = all.skip(i as int);
        assert(t[0] == all[i as int]);
        assert(t.drop_first() =~= all.skip(i + 1));
        if starts_with(&ws[i], &head) {
            let v = short_number_exec(&ws[i], hl);
            match v {
                Some(n) => {
                    if n <= 32 {
                        return Some(n);
                    }
                },
                None => {},
            }
        }
        i += 1;
    }
    None
}

/// The number of mask bits in octet `k` (0 to 3) of a /`prefix` mask.
pub open spec fn octet_bits(prefix: nat, k: nat) -> nat {
    if prefix >= 8 * (k + 1) {
        8
    } else if prefix <= 8 * k {
        0
    } else {
        (prefix - 8 * k) as nat
    }
}

/// The value of an octet whose `bits` leading bits are set.
pub open spec fn mask_octet(bits: nat) -> nat {
    if bits == 0 {
        0
    } else if bits == 1 {
        128
    } else if bits == 2 {
        192
    } else if bits == 3 {
        224
    } else if bits == 4 {
        240
    } else if bits == 5 {
        248
    } else if bits == 6 {
        252
    } else if bits == 7 {
        254
    } else {
        255
    }
}

/// A /`prefix` mask in dotted decimal.
pub open spec fn mask_text(prefix: nat) -> Seq<char> {
    decimal(mask_octet(octet_bits(prefix, 0))) + "."@ + decimal(mask_octet(octet_bits(prefix, 1)))
        + "."@ + decimal(mask_octet(octet_bits(prefix, 2))) + "."@ + decimal(
        mask_octet(octet_bits(prefix, 3)),
    )
}

fn octet_value(prefix: u32, k: u32) -> (v: u64)
    requires
        prefix <= 32,
        k <= 3,
    ensures
        v == mask_octet(octet_bits(prefix as nat, k as nat)),
{
    let bits: u32 = if prefix >= 8 * (k + 1) {
        8
    } else if prefix <= 8 * k {
        0
    } else {
        prefix - 8 * k
    };
    if bits == 0 {
        0
    } else if bits == 1 {
        128
    } else if bits == 2 {
        192
    } else if bits == 3 {
        224
    } else if bits == 4 {
        240
    } else if bits == 5 {
        248
    } else if bits == 6 {
        252
    } else if bits == 7 {
        254
    } else {
        255
    }
}

/// The dotted-decimal mask of a /`prefix` network.
pub fn prefix_mask(prefix: u32) -> (r: String)
    requires
        prefix <= 32,
    ensures
        r@ == mask_text(prefix as nat),
{
    let mut v: Vec<char> = Vec::new();
    push_decimal(&mut v, octet_value(prefix, 0));
    push_str(&mut v, ".");
    push_decimal(&mut v, octet_value(prefix, 1));
    push_str(&mut v, ".");
    push_decimal(&mut v, octet_value(prefix, 2));
    push_str(&mut v, ".");
    push_decimal(&mut v, octet_value(prefix, 3));
    string_of(&v)
}

/// The hosts to probe when scanning the subnet of `subnet`: its first three
/// parts must form, with `.1`, an address that passes the IPv4 guard;
/// then `base.1` to `base.254`.
pub fn scan_targets(subnet: &str) -> (r: Result<Vec<String>, String>)
    ensures
        !valid_ip_text(upto_nth(subnet@, '.', 3) + ".1"@) ==> (r matches Err(e) && e@ == invalid_ip_error(
            upto_nth(subnet@, '.', 3) + ".1"@,
        )),
        valid_ip_text(upto_nth(subnet@, '.', 3) + ".1"@) ==> (r matches Ok(v) && v@.len() == 254
            && forall|i: int|
            0 <= i < 254 ==> #[trigger] v@[i]@ == upto_nth(subnet@, '.', 3) + "."@ + decimal(
                (i + 1) as nat,
            )),
{
    let probe = scan_probe_address(subnet);
    if let Err(e) = guard_valid_ip(probe.as_str()) {
        return Err(guard_message(e));
    }
    let base = subnet_base(subnet);
    Ok(scan_candidates(base.as_str()))
}

/// The candidates whose probe answered, in order.
pub open spec fn answering(candidates: Seq<Seq<char>>, answered: Seq<bool>) -> Seq<Seq<char>>
    decreases candidates.len(),
{
    if candidates.len() == 0 {
        seq![]
    } else if answered[candidates.len() - 1] {
        answering(candidates.drop_last(), answered).push(candidates.last())
    } else {
        answering(candidates.drop_last(), answered)
    }
}

/// The hosts found by a scan: the candidates whose probe answered
/// (`answered[i]` for `candidates[i]`), in the order of the candidates.
pub fn reachable_hosts(candidates: &Vec<String>, answered: &Vec<bool>) -> (r: Vec<String>)
    requires
        answered@.len() == candidates@.len(),
    ensures
        texts(r@) == answering(texts(candidates@), answered@),
{
    let ghost c = texts(candidates@);
    let mut r: Vec<String> = Vec::new();
    let mut i: usize = 0;
    while i < candidates.len()
        invariant
            i <= candidates@.len(),
            answered@.len() == candidates@.len(),
            c == texts(candidates@),
            texts(r@) == answering(c.take(i as int), answered@),
        decreases candidates@.len() - i,
    {
        assert(c.take(i + 1).drop_last() =~= c.take(i as int));
        assert(c.take(i + 1).last() == candidates@[i as int]@);
        if answered[i] {
            r.push(candidates[i].clone());
            assert(texts(r@) =~= answering(c.take(i as int), answered@).push(candidates@[i as int]@));
        }
        i += 1;
    }
    assert(c.take(candidates@.len() as int) =~= c);
    r
}

} // verus!

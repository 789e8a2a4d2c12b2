//! Serial and USB printer ports: the sorted port list, the USB device list
//! outside Windows, and the re-resolution of a saved port name against the
//! ports present now.

use vstd::prelude::*;

use crate::model::{texts, UsbDevice};
use crate::text::{
    ascii_upper, chars_eq, chars_of, has_prefix, lines, push_decimal, split_lines, starts_with, string_of,
    push_str, to_upper, trim, trim_chars, upper_seq,
};

verus! {

// ───────────────────────── ordering of port names ─────────────────────────

/// `str`'s `<`: lexicographic order of the characters (which is the order of
/// their UTF-8 bytes).
pub open spec fn text_lt(a: Seq<char>, b: Seq<char>) -> bool
    decreases a.len(),
{
    if a.len() == 0 {
        b.len() > 0
    } else if b.len() == 0 {
        false
    } else if a[0] <= b[0] && a[0] != b[0] {
        true
    } else if a[0] == b[0] {
        text_lt(a.drop_first(), b.drop_first())
    } else {
        false
    }
}

proof fn lemma_text_lt_irreflexive(a: Seq<char>)
    ensures
        !text_lt(a, a),
    decreases a.len(),
{
    if a.len() > 0 {
        lemma_text_lt_irreflexive(a.drop_first());
    }
}

proof fn lemma_text_lt_trans(a: Seq<char>, b: Seq<char>, c: Seq<char>)
    requires
        text_lt(a, b),
        text_lt(b, c),
    ensures
        text_lt(a, c),
    decreases a.len(),
{
    if a.len() > 0 && b.len() > 0 && c.len() > 0 && a[0] == b[0] && b[0] == c[0] {
        lemma_text_lt_trans(a.drop_first(), b.drop_first(), c.drop_first());
    }
}

proof fn lemma_text_lt_total(a: Seq<char>, b: Seq<char>)
    ensures
        a == b || text_lt(a, b) || text_lt(b, a),
    decreases a.len(),
{
    if a.len() > 0 && b.len() > 0 && a[0] == b[0] {
        lemma_text_lt_total(a.drop_first(), b.drop_first());
        if a.drop_first() == b.drop_first() {
            assert(a =~= seq![a[0]] + a.drop_first());
            assert(b =~= seq![b[0]] + b.drop_first());
        } else if text_lt(a.drop_first(), b.drop_first()) {
            assert(text_lt(a, b));
        } else {
            assert(text_lt(b, a));
        }
    } else if a.len() == 0 && b.len() == 0 {
        assert(a =~= b);
    }
}

pub fn text_less(a: &Vec<char>, b: &Vec<char>) -> (r: bool)
    ensures
        r == text_lt(a@, b@),
{
    let mut i: usize = 0;
    assert(a@.skip(0) =~= a@);
    assert(b@.skip(0) =~= b@);
    while i < a.len() && i < b.len() && a[i] == b[i]
        invariant
            i <= a@.len(),
            i <= b@.len(),
            forall|k: int| 0 <= k < i ==> a@[k] == b@[k],
            text_lt(a@, b@) == text_lt(a@.skip(i as int), b@.skip(i as int)),
        decreases a@.len() - i,
    {
        proof {
            let sa = a@.skip(i as int);
            let sb = b@.skip(i as int);
            assert(sa.drop_first() =~= a@.skip(i + 1));
            assert(sb.drop_first() =~= b@.skip(i + 1));
        }
        i += 1;
    }
    if i == a.len() {
        i < b.len()
    } else if i == b.len() {
        false
    } else {
        a[i] <= b[i] && a[i] != b[i]
    }
}

/// Strictly increasing: sorted, with no repeated name.
pub open spec fn strictly_sorted(s: Seq<Seq<char>>) -> bool {
    forall|i: int, j: int| 0 <= i < j < s.len() ==> text_lt(#[trigger] s[i], #[trigger] s[j])
}

proof fn lemma_insert_sorted(before: Seq<Seq<char>>, xt: Seq<char>, i: int)
    requires
        strictly_sorted(before),
        0 <= i <= before.len(),
        forall|k: int| 0 <= k < i ==> text_lt(#[trigger] before[k], xt),
        forall|k: int| i <= k < before.len() ==> text_lt(xt, #[trigger] before[k]),
    ensures
        strictly_sorted(before.insert(i, xt)),
        forall|t: Seq<char>| before.insert(i, xt).contains(t) <==> before.push(xt).contains(t),
{
    let after = before.insert(i, xt);
    assert forall|a: int, b: int| 0 <= a < b < after.len() implies text_lt(
        #[trigger] after[a],
        #[trigger] after[b],
    ) by {
        if b < i {
            assert(after[a] == before[a] && after[b] == before[b]);
        } else if b == i {
            assert(after[a] == before[a]);
        } else if a < i {
            assert(after[a] == before[a] && after[b] == before[b - 1]);
            lemma_text_lt_trans(before[a], xt, before[b - 1]);
        } else if a == i {
            assert(after[b] == before[b - 1]);
        } else {
            assert(after[a] == before[a - 1] && after[b] == before[b - 1]);
        }
    }
    assert forall|t: Seq<char>| after.contains(t) <==> before.push(xt).contains(t) by {
        lemma_insert_contains(before, xt, i, t);
    }
}

proof fn lemma_insert_contains(before: Seq<Seq<char>>, xt: Seq<char>, i: int, t: Seq<char>)
    requires
        0 <= i <= before.len(),
    ensures
        before.insert(i, xt).contains(t) <==> before.push(xt).contains(t),
{
    let after = before.insert(i, xt);
    let pushed = before.push(xt);
    if after.contains(t) {
        let k = choose|k: int| 0 <= k < after.len() && after[k] == t;
        if k < i {
            assert(pushed[k] == t);
        } else if k > i {
            assert(pushed[k - 1] == t);
        } else {
            assert(pushed[before.len() as int] == t);
        }
    }
    if pushed.contains(t) {
        let k = choose|k: int| 0 <= k < pushed.len() && pushed[k] == t;
        if k == before.len() {
            assert(after[i] == t);
        } else if k < i {
            assert(after[k] == t);
        } else {
            assert(after[k + 1] == t);
        }
    }
}

proof fn lemma_push_contains(s: Seq<Seq<char>>, x: Seq<char>, t: Seq<char>)
    ensures
        s.push(x).contains(t) <==> (s.contains(t) || t == x),
{
    if s.push(x).contains(t) {
        let k = choose|k: int| 0 <= k < s.push(x).len() && s.push(x)[k] == t;
        if k < s.len() {
            assert(s[k] == t);
        }
    }
    if s.contains(t) {
        let k = choose|k: int| 0 <= k < s.len() && s[k] == t;
        assert(s.push(x)[k] == t);
    }
    if t == x {
        assert(s.push(x)[s.len() as int] == t);
    }
}

/// The port list as the monitor shows it: the names sorted, each once
/// (`sort` then `dedup`).
pub fn sorted_unique_ports(ports: &Vec<String>) -> (r: Vec<String>)
    ensures
        strictly_sorted(texts(r@)),
        forall|t: Seq<char>| texts(r@).contains(t) <==> texts(ports@).contains(t),
{
    let mut out: Vec<String> = Vec::new();
    let mut keys: Vec<Vec<char>> = Vec::new();
    let mut n: usize = 0;
    while n < ports.len()
        invariant
            n <= ports@.len(),
            out@.len() == keys@.len(),
            forall|k: int| 0 <= k < keys@.len() ==> #[trigger] keys@[k]@ == out@[k]@,
            strictly_sorted(texts(out@)),
            forall|t: Seq<char>| texts(out@).contains(t) <==> texts(ports@.take(n as int)).contains(t),
        decreases ports@.len() - n,
    {
        let x = chars_of(ports[n].as_str());
        let ghost before = texts(out@);
        let mut i: usize = 0;
        while i < keys.len() && text_less(&keys[i], &x)
            invariant
                i <= keys@.len(),
                out@.len() == keys@.len(),
                forall|k: int| 0 <= k < keys@.len() ==> #[trigger] keys@[k]@ == out@[k]@,
                forall|k: int| 0 <= k < i ==> text_lt(#[trigger] keys@[k]@, x@),
                before == texts(out@),
            decreases keys@.len() - i,
        {
            i += 1;
        }
        let ghost xt = x@;
        assert(texts(ports@.take(n + 1)) =~= texts(ports@.take(n as int)).push(xt));
        assert forall|k: int| 0 <= k < i implies text_lt(#[trigger] before[k], xt) by {
            assert(before[k] == keys@[k]@);
        }
        if i < keys.len() && chars_eq(&keys[i], &x) {
            assert(before[i as int] == xt);
            assert forall|t: Seq<char>| before.contains(t) <==> texts(ports@.take(n + 1)).contains(t) by {
                lemma_push_contains(texts(ports@.take(n as int)), xt, t);
            }
        } else {
            proof {
                if i < keys@.len() {
                    lemma_text_lt_total(keys@[i as int]@, xt);
                }
                assert forall|k: int| i <= k < before.len() implies text_lt(xt, #[trigger] before[k]) by {
                    if k > i {
                        assert(text_lt(before[i as int], before[k]));
                        lemma_text_lt_trans(xt, before[i as int], before[k]);
                    }
                }
            }
            let s = ports[n].clone();
            out.insert(i, s);
            keys.insert(i, x);
            proof {
                let after = texts(out@);
                assert(after =~= before.insert(i as int, xt));
                lemma_insert_sorted(before, xt, i as int);
                assert forall|t: Seq<char>| after.contains(t) <==> texts(ports@.take(n + 1)).contains(t) by {
                    lemma_push_contains(texts(ports@.take(n as int)), xt, t);
                    lemma_push_contains(before, xt, t);
                }
                assert forall|k: int| 0 <= k < keys@.len() implies #[trigger] keys@[k]@ == out@[k]@ by {}
            }
        }
        n += 1;
    }
    assert(ports@.take(ports@.len() as int) =~= ports@);
    out
}

// ───────────────────────── USB devices ─────────────────────────

pub open spec fn is_com_port(p: Seq<char>) -> bool {
    has_prefix(upper_seq(p), "COM"@)
}

/// The USB devices offered outside Windows: every port that is not a `COM`
/// port (in any case), named after itself.
pub open spec fn usb_devices_spec(ports: Seq<Seq<char>>) -> Seq<Seq<char>>
    decreases ports.len(),
{
    if ports.len() == 0 {
        seq![]
    } else if is_com_port(ports.last()) {
        usb_devices_spec(ports.drop_last())
    } else {
        usb_devices_spec(ports.drop_last()).push(ports.last())
    }
}

pub fn usb_devices_from_ports(ports: &Vec<String>) -> (r: Vec<UsbDevice>)
    ensures
        r@.len() == usb_devices_spec(texts(ports@)).len(),
        forall|i: int|
            0 <= i < r@.len() ==> #[trigger] r@[i].port@ == usb_devices_spec(texts(ports@))[i]
                && r@[i].display_name@ == r@[i].port@,
{
    let com = chars_of("COM");
    let mut r: Vec<UsbDevice> = Vec::new();
    let mut i: usize = 0;
    while i < ports.len()
        invariant
            i <= ports@.len(),
            com@ == "COM"@,
            r@.len() == usb_devices_spec(texts(ports@.take(i as int))).len(),
            forall|k: int|
                0 <= k < r@.len() ==> #[trigger] r@[k].port@ == usb_devices_spec(
                    texts(ports@.take(i as int)),
                )[k] && r@[k].display_name@ == r@[k].port@,
        decreases ports@.len() - i,
    {
        let p = chars_of(ports[i].as_str());
        let up = to_upper(&p);
        let ghost prev = texts(ports@.take(i as int));
        assert(texts(ports@.take(i + 1)).drop_last() =~= prev);
        assert(texts(ports@.take(i + 1)).last() == p@);
        if !starts_with(&up, &com) {
            r.push(UsbDevice { display_name: ports[i].clone(), port: ports[i].clone() });
        }
        i += 1;
    }
    assert(ports@.take(ports@.len() as int) =~= ports@);
    r
}

// ───────────────────────── resolving a saved port ─────────────────────────

/// The first name of the list that satisfies `pred`.
pub open spec fn first_where(ports: Seq<Seq<char>>, pred: spec_fn(Seq<char>) -> bool) -> Option<
    Seq<char>,
>
    decreases ports.len(),
{
    if ports.len() == 0 {
        None
    } else if pred(ports[0]) {
        Some(ports[0])
    } else {
        first_where(ports.drop_first(), pred)
    }
}

/// Windows device-interface paths (`\\?\…`) open directly and are kept.
pub open spec fn is_device_interface_path(p: Seq<char>) -> bool {
    has_prefix(p, "\\\\?\\"@)
}

/// Which port to print on, given the saved port and the ports present now:
/// the saved one if it is a device path or still present; otherwise the
/// first present port of the same family (`USB…`, `COM…` in any case,
/// `/dev/usb/lp…`); otherwise the first present port, if any.
pub open spec fn resolved_port(saved: Seq<char>, ports: Seq<Seq<char>>) -> Option<Seq<char>> {
    if is_device_interface_path(saved) {
        Some(saved)
    } else if ports.contains(saved) {
        Some(saved)
    } else if has_prefix(saved, "USB"@) {
        first_where(ports, |p: Seq<char>| has_prefix(p, "USB"@))
    } else if is_com_port(saved) {
        first_where(ports, |p: Seq<char>| is_com_port(p))
    } else if has_prefix(saved, "/dev/usb/lp"@) {
        first_where(ports, |p: Seq<char>| has_prefix(p, "/dev/usb/lp"@))
    } else if ports.len() > 0 {
        Some(ports[0])
    } else {
        None
    }
}

pub proof fn lemma_first_where_step(ports: Seq<Seq<char>>, pred: spec_fn(Seq<char>) -> bool, i: int)
    requires
        0 <= i < ports.len(),
        forall|k: int| 0 <= k < i ==> !pred(#[trigger] ports[k]),
    ensures
        first_where(ports, pred) == first_where(ports.skip(i), pred),
    decreases i,
{
    if i > 0 {
        assert(!pred(ports[0]));
        let t = ports.drop_first();
        assert forall|k: int| 0 <= k < i - 1 implies !pred(#[trigger] t[k]) by {
            assert(t[k] == ports[k + 1]);
        }
        lemma_first_where_step(t, pred, i - 1);
        assert(t.skip(i - 1) =~= ports.skip(i));
    } else {
        assert(ports.skip(0) =~= ports);
    }
}

pub proof fn lemma_first_where_none(ports: Seq<Seq<char>>, pred: spec_fn(Seq<char>) -> bool)
    requires
        forall|k: int| 0 <= k < ports.len() ==> !pred(#[trigger] ports[k]),
    ensures
        first_where(ports, pred) == None::<Seq<char>>,
    decreases ports.len(),
{
    if ports.len() > 0 {
        let t = ports.drop_first();
        assert forall|k: int| 0 <= k < t.len() implies !pred(#[trigger] t[k]) by {
            assert(t[k] == ports[k + 1]);
        }
        lemma_first_where_none(t, pred);
    }
}

/// A port found by [`first_where`] is one of the ports and satisfies the
/// predicate.
pub proof fn lemma_first_where_found(ports: Seq<Seq<char>>, pred: spec_fn(Seq<char>) -> bool)
    ensures
        first_where(ports, pred) matches Some(p) ==> ports.contains(p) && pred(p),
    decreases ports.len(),
{
    if ports.len() > 0 && !pred(ports[0]) {
        lemma_first_where_found(ports.drop_first(), pred);
        if let Some(p) = first_where(ports.drop_first(), pred) {
            let k = choose|k: int| 0 <= k < ports.drop_first().len() && ports.drop_first()[k] == p;
            assert(ports[k + 1] == p);
        }
    } else if ports.len() > 0 {
        assert(ports[0] == ports[0]);
    }
}

/// [`first_where`] gives the earliest name of the list that satisfies the
/// predicate, and nothing exactly when no name of the list satisfies it.
pub proof fn lemma_first_where_first(ports: Seq<Seq<char>>, pred: spec_fn(Seq<char>) -> bool)
    ensures
        first_where(ports, pred) matches Some(p) ==> exists|i: int|
            #![trigger ports[i]]
            0 <= i < ports.len() && ports[i] == p && pred(p) && forall|k: int|
                0 <= k < i ==> !pred(#[trigger] ports[k]),
        first_where(ports, pred) is None <==> forall|k: int|
            0 <= k < ports.len() ==> !pred(#[trigger] ports[k]),
    decreases ports.len(),
{
    if ports.len() > 0 {
        let t = ports.drop_first();
        lemma_first_where_first(t, pred);
        if !pred(ports[0]) {
            if let Some(p) = first_where(t, pred) {
                let i = choose|i: int|
                    #![trigger t[i]]
                    0 <= i < t.len() && t[i] == p && pred(p) && forall|k: int|
                        0 <= k < i ==> !pred(#[trigger] t[k]);
                assert(ports[i + 1] == p);
                assert forall|k: int| 0 <= k < i + 1 implies !pred(#[trigger] ports[k]) by {
                    if k > 0 {
                        assert(ports[k] == t[k - 1]);
                    }
                }
            } else {
                assert forall|k: int| 0 <= k < ports.len() implies !pred(#[trigger] ports[k]) by {
                    if k > 0 {
                        assert(ports[k] == t[k - 1]);
                    }
                }
            }
        }
    }
}

/// A saved port that is still present is used as it is, and the port the
/// bytes go to is always either the saved device path or one of the ports
/// present now.
pub proof fn lemma_resolved_port_present(saved: Seq<char>, ports: Seq<Seq<char>>)
    ensures
        ports.contains(saved) ==> resolved_port(saved, ports) == Some(saved),
        resolved_port(saved, ports) matches Some(p) ==> (p == saved && is_device_interface_path(saved))
            || ports.contains(p),
        resolved_port(saved, ports) is None ==> !ports.contains(saved),
{
    lemma_first_where_found(ports, |p: Seq<char>| has_prefix(p, "USB"@));
    lemma_first_where_found(ports, |p: Seq<char>| is_com_port(p));
    lemma_first_where_found(ports, |p: Seq<char>| has_prefix(p, "/dev/usb/lp"@));
    if ports.len() > 0 {
        assert(ports.contains(ports[0]));
    }
}

/// A saved `/dev/usb/lp…` port that is no longer present resolves within
/// its family: to the first present port that starts with `/dev/usb/lp`,
/// and to nothing when no present port does.
pub proof fn lemma_resolved_port_linux_lp(saved: Seq<char>, ports: Seq<Seq<char>>)
    requires
        has_prefix(saved, "/dev/usb/lp"@),
        !ports.contains(saved),
    ensures
        resolved_port(saved, ports) matches Some(p) ==> has_prefix(p, "/dev/usb/lp"@) && exists|i: int|
            #![trigger ports[i]]
            0 <= i < ports.len() && ports[i] == p && forall|k: int|
                0 <= k < i ==> !has_prefix(#[trigger] ports[k], "/dev/usb/lp"@),
        resolved_port(saved, ports) is None <==> forall|k: int|
            0 <= k < ports.len() ==> !has_prefix(#[trigger] ports[k], "/dev/usb/lp"@),
{
    reveal_strlit("/dev/usb/lp");
    reveal_strlit("\\\\?\\");
    reveal_strlit("USB");
    reveal_strlit("COM");
    assert(saved.take(11)[0] == saved[0]);
    assert(upper_seq(saved).take(3)[0] == upper_seq(saved)[0]);
    lemma_first_where_first(ports, |p: Seq<char>| has_prefix(p, "/dev/usb/lp"@));
}

/// A saved `USB…` port that is no longer present resolves within its
/// family: to the first present port that starts with `USB`, and to
/// nothing when no present port does.
pub proof fn lemma_resolved_port_usb(saved: Seq<char>, ports: Seq<Seq<char>>)
    requires
        has_prefix(saved, "USB"@),
        !ports.contains(saved),
    ensures
        resolved_port(saved, ports) matches Some(p) ==> has_prefix(p, "USB"@) && exists|i: int|
            #![trigger ports[i]]
            0 <= i < ports.len() && ports[i] == p && forall|k: int|
                0 <= k < i ==> !has_prefix(#[trigger] ports[k], "USB"@),
        resolved_port(saved, ports) is None <==> forall|k: int|
            0 <= k < ports.len() ==> !has_prefix(#[trigger] ports[k], "USB"@),
{
    reveal_strlit("\\\\?\\");
    reveal_strlit("USB");
    assert(saved.take(3)[0] == saved[0]);
    lemma_first_where_first(ports, |p: Seq<char>| has_prefix(p, "USB"@));
}

/// A saved `COM…` port (in any case) that is no longer present resolves
/// within its family: to the first present port whose upper-case name
/// starts with `COM`, and to nothing when no present port's does.
pub proof fn lemma_resolved_port_com(saved: Seq<char>, ports: Seq<Seq<char>>)
    requires
        has_prefix(upper_seq(saved), "COM"@),
        !ports.contains(saved),
    ensures
        resolved_port(saved, ports) matches Some(p) ==> has_prefix(upper_seq(p), "COM"@) && exists|i: int|
            #![trigger ports[i]]
            0 <= i < ports.len() && ports[i] == p && forall|k: int|
                0 <= k < i ==> !has_prefix(upper_seq(#[trigger] ports[k]), "COM"@),
        resolved_port(saved, ports) is None <==> forall|k: int|
            0 <= k < ports.len() ==> !has_prefix(upper_seq(#[trigger] ports[k]), "COM"@),
{
    reveal_strlit("\\\\?\\");
    reveal_strlit("USB");
    reveal_strlit("COM");
    assert(upper_seq(saved).take(3)[0] == upper_seq(saved)[0]);
    assert(upper_seq(saved)[0] == ascii_upper(saved[0]));
    if saved.len() >= 3 {
        assert(saved.take(3)[0] == saved[0]);
    }
    lemma_first_where_first(ports, |p: Seq<char>| is_com_port(p));
}

/// A device-interface path is used as it is; a saved port that is gone and
/// belongs to none of the families `USB…`, `COM…` (any case) and
/// `/dev/usb/lp…` falls back to the first present port, if any.
pub proof fn lemma_resolved_port_other(saved: Seq<char>, ports: Seq<Seq<char>>)
    ensures
        has_prefix(saved, "\\\\?\\"@) ==> resolved_port(saved, ports) == Some(saved),
        !has_prefix(saved, "\\\\?\\"@) && !ports.contains(saved) && !has_prefix(saved, "USB"@)
            && !has_prefix(upper_seq(saved), "COM"@) && !has_prefix(saved, "/dev/usb/lp"@) ==> resolved_port(
            saved,
            ports,
        ) == (if ports.len() > 0 {
            Some(ports[0])
        } else {
            None
        }),
{
}

/// Which family a saved port name belongs to.
enum PortFamily {
    Usb,
    Com,
    LinuxLp,
}

spec fn family_pred(f: PortFamily) -> spec_fn(Seq<char>) -> bool {
    match f {
        PortFamily::Usb => |p: Seq<char>| has_prefix(p, "USB"@),
        PortFamily::Com => |p: Seq<char>| is_com_port(p),
        PortFamily::LinuxLp => |p: Seq<char>| has_prefix(p, "/dev/usb/lp"@),
    }
}

fn in_family(f: &PortFamily, p: &Vec<char>) -> (b: bool)
    ensures
        b == (family_pred(*f))(p@),
{
    match f {
        PortFamily::Usb => starts_with(p, &chars_of("USB")),
        PortFamily::Com => starts_with(&to_upper(p), &chars_of("COM")),
        PortFamily::LinuxLp => starts_with(p, &chars_of("/dev/usb/lp")),
    }
}

fn first_in_family(ports: &Vec<String>, f: PortFamily) -> (r: Option<String>)
    ensures
        match r {
            Some(s) => first_where(texts(ports@), family_pred(f)) == Some(s@),
            None => first_where(texts(ports@), family_pred(f)) is None,
        },
{
    let ghost t = texts(ports@);
    let mut i: usize = 0;
    while i < ports.len()
        invariant
            i <= ports@.len(),
            t == texts(ports@),
            forall|k: int| 0 <= k < i ==> !(family_pred(f))(#[trigger] t[k]),
        decreases ports@.len() - i,
    {
        let p = chars_of(ports[i].as_str());
        if in_family(&f, &p) {
            proof {
                lemma_first_where_step(t, family_pred(f), i as int);
                assert(t.skip(i as int)[0] == p@);
            }
            return Some(ports[i].clone());
        }
        i += 1;
    }
    proof {
        lemma_first_where_none(t, family_pred(f));
    }
    None
}

pub fn list_contains(ports: &Vec<String>, x: &Vec<char>) -> (b: bool)
    ensures
        b == texts(ports@).contains(x@),
{
    let ghost t = texts(ports@);
    let mut i: usize = 0;
    while i < ports.len()
        invariant
            i <= ports@.len(),
            t == texts(ports@),
            forall|k: int| 0 <= k < i ==> #[trigger] t[k] != x@,
        decreases ports@.len() - i,
    {
        let p = chars_of(ports[i].as_str());
        if chars_eq(&p, x) {
            assert(t[i as int] == x@);
            return true;
        }
        i += 1;
    }
    false
}

/// The port on which to reach a printer saved with port `current_or_saved`,
/// given the ports present now (see [`resolved_port`]).
pub fn resolve_usb_port(current_or_saved: &str, ports: &Vec<String>) -> (r: Option<String>)
    ensures
        match r {
            Some(s) => resolved_port(current_or_saved@, texts(ports@)) == Some(s@),
            None => resolved_port(current_or_saved@, texts(ports@)) is None,
        },
{
    let cur = chars_of(current_or_saved);
    if starts_with(&cur, &chars_of("\\\\?\\")) {
        return Some(string_of(&cur));
    }
    if list_contains(ports, &cur) {
        return Some(string_of(&cur));
    }
    if starts_with(&cur, &chars_of("USB")) {
        return first_in_family(ports, PortFamily::Usb);
    }
    if starts_with(&to_upper(&cur), &chars_of("COM")) {
        return first_in_family(ports, PortFamily::Com);
    }
    if starts_with(&cur, &chars_of("/dev/usb/lp")) {
        return first_in_family(ports, PortFamily::LinuxLp);
    }
    if ports.len() > 0 {
        Some(ports[0].clone())
    } else {
        None
    }
}

// ───────────────────────── platform port sources ─────────────────────────

/// The trimmed non-empty lines that start with `USB`.
pub open spec fn usb_port_lines(ls: Seq<Seq<char>>) -> Seq<Seq<char>>
    decreases ls.len(),
{
    if ls.len() == 0 {
        seq![]
    } else {
        let t = trim(ls.last());
        if t.len() > 0 && has_prefix(t, "USB"@) {
            usb_port_lines(ls.drop_last()).push(t)
        } else {
            usb_port_lines(ls.drop_last())
        }
    }
}

/// The print-monitor USB ports (`USB001`, …) in the output of
/// `(Get-PrinterPort | Where-Object { $_.Name -like 'USB*' }).Name`.
pub fn parse_usb_print_ports(stdout: &str) -> (r: Vec<String>)
    ensures
        texts(r@) == usb_port_lines(lines(stdout@)),
{
    let ls = split_lines(&chars_of(stdout));
    let usb = chars_of("USB");
    let mut r: Vec<String> = Vec::new();
    let mut i: usize = 0;
    while i < ls.len()
        invariant
            i <= ls@.len(),
            usb@ == "USB"@,
            ls@.len() == lines(stdout@).len(),
            forall|k: int| 0 <= k < ls@.len() ==> #[trigger] ls@[k]@ == lines(stdout@)[k],
            texts(r@) == usb_port_lines(lines(stdout@).take(i as int)),
        decreases ls@.len() - i,
    {
        let t = trim_chars(&ls[i]);
        let ghost prefix = lines(stdout@).take(i as int);
        assert(lines(stdout@).take(i + 1).drop_last() =~= prefix);
        assert(lines(stdout@).take(i + 1).last() == ls@[i as int]@);
        if t.len() > 0 && starts_with(&t, &usb) {
            r.push(string_of(&t));
            assert(texts(r@) =~= usb_port_lines(prefix).push(t@));
        }
        i += 1;
    }
    assert(lines(stdout@).take(ls@.len() as int) =~= lines(stdout@));
    r
}

/// The Linux USB printer nodes probed: `/dev/usb/lp0` to `/dev/usb/lp7`.
pub fn usb_lp_candidates() -> (r: Vec<String>)
    ensures
        r@.len() == 8,
        forall|i: int| 0 <= i < 8 ==> #[trigger] r@[i]@ == "/dev/usb/lp"@ + crate::text::decimal(i as nat),
{
    let mut r: Vec<String> = Vec::new();
    let mut i: u64 = 0;
    while i < 8
        invariant
            i <= 8,
            r@.len() == i,
            forall|k: int| 0 <= k < i ==> #[trigger] r@[k]@ == "/dev/usb/lp"@ + crate::text::decimal(k as nat),
        decreases 8 - i,
    {
        let mut v = chars_of("/dev/usb/lp");
        push_decimal(&mut v, i);
        r.push(string_of(&v));
        i += 1;
    }
    r
}

/// The JSON of the Windows USB printer listing as an array: an array as
/// is, a single object wrapped in brackets, anything else (no printer,
/// an error text) `None`; surrounding whitespace is dropped.
pub fn usb_devices_json_array(json: &str) -> (r: Option<String>)
    ensures
        has_prefix(trim(json@), "["@) ==> (r matches Some(a) && a@ == trim(json@)),
        !has_prefix(trim(json@), "["@) && has_prefix(trim(json@), "{"@) ==> (r matches Some(a)
            && a@ == "["@ + trim(json@) + "]"@),
        !has_prefix(trim(json@), "["@) && !has_prefix(trim(json@), "{"@) ==> r is None,
{
    let t = trim_chars(&chars_of(json));
    if starts_with(&t, &chars_of("[")) {
        Some(string_of(&t))
    } else if starts_with(&t, &chars_of("{")) {
        let mut v = chars_of("[");
        crate::text::push_all(&mut v, t.as_slice());
        push_str(&mut v, "]");
        Some(string_of(&v))
    } else {
        None
    }
}

} // verus!

//! Bluetooth devices from the tools of each system: `bluetoothctl devices`
//! on Linux, `Get-PnpDevice -Class Bluetooth | … | ConvertTo-Csv` on
//! Windows, and the `SPBluetoothDataType` report of `system_profiler` on
//! macOS.

use vstd::prelude::*;

use crate::json::{as_str, field_of, get_field, json_parsed, parse_json, str_of, JsonValue};
use crate::model::BluetoothDevice;
use crate::text::{
    before_sep, chars_eq, chars_of, has_substring, lines, lower_seq, split_lines, split_once,
    string_of, suffix_from, to_lower,
};

verus! {

/// `s.splitn(3, sep)` when it yields three pieces: the text before the
/// first separator, the text between the first two, and the rest.
pub open spec fn split3(s: Seq<char>, sep: char) -> Option<(Seq<char>, Seq<char>, Seq<char>)> {
    let a = before_sep(s, sep);
    if a.len() < s.len() {
        let rest = s.skip(a.len() as int + 1);
        let b = before_sep(rest, sep);
        if b.len() < rest.len() {
            Some((a, b, rest.skip(b.len() as int + 1)))
        } else {
            None
        }
    } else {
        None
    }
}

pub fn split_three(v: &Vec<char>, sep: char) -> (r: Option<(Vec<char>, Vec<char>, Vec<char>)>)
    ensures
        match split3(v@, sep) {
            Some((a, b, c)) => r matches Some((x, y, z)) && x@ == a && y@ == b && z@ == c,
            None => r is None,
        },
{
    let (a, i) = split_once(v, sep);
    if i >= v.len() {
        return None;
    }
    let rest = suffix_from(v, i + 1);
    let (b, j) = split_once(&rest, sep);
    if j >= rest.len() {
        return None;
    }
    let c = suffix_from(&rest, j + 1);
    Some((a, b, c))
}

// ───────────────────────── Linux ─────────────────────────

/// The devices of `bluetoothctl devices`: lines `Device ADDRESS NAME…`, as
/// (address, name).
pub open spec fn bluetoothctl_entries(ls: Seq<Seq<char>>) -> Seq<(Seq<char>, Seq<char>)>
    decreases ls.len(),
{
    if ls.len() == 0 {
        seq![]
    } else {
        let rest = bluetoothctl_entries(ls.drop_last());
        match split3(ls.last(), ' ') {
            Some((kind, address, name)) => if kind == "Device"@ {
                rest.push((address, name))
            } else {
                rest
            },
            None => rest,
        }
    }
}

/// A device listed by `bluetoothctl devices`.
pub struct BluetoothctlEntry {
    pub address: String,
    pub name: String,
}

pub fn parse_bluetoothctl_devices(stdout: &str) -> (r: Vec<BluetoothctlEntry>)
    ensures
        r@.len() == bluetoothctl_entries(lines(stdout@)).len(),
        forall|i: int|
            0 <= i < r@.len() ==> (#[trigger] r@[i]).address@ == bluetoothctl_entries(
                lines(stdout@),
            )[i].0 && r@[i].name@ == bluetoothctl_entries(lines(stdout@))[i].1,
{
    let ls = split_lines(&chars_of(stdout));
    let device = chars_of("Device");
    let ghost all = lines(stdout@);
    let mut r: Vec<BluetoothctlEntry> = Vec::new();
    let mut i: usize = 0;
    while i < ls.len()
        invariant
            i <= ls@.len(),
            device@ == "Device"@,
            all == lines(stdout@),
            ls@.len() == all.len(),
            forall|k: int| 0 <= k < ls@.len() ==> #[trigger] ls@[k]@ == all[k],
            r@.len() == bluetoothctl_entries(all.take(i as int)).len(),
            forall|k: int|
                0 <= k < r@.len() ==> (#[trigger] r@[k]).address@ == bluetoothctl_entries(
                    all.take(i as int),
                )[k].0 && r@[k].name@ == bluetoothctl_entries(all.take(i as int))[k].1,
        decreases ls@.len() - i,
    {
        assert(all.take(i + 1).drop_last() =~= all.take(i as int));
        assert(all.take(i + 1).last() == ls@[i as int]@);
        match split_three(&ls[i], ' ') {
            Some((kind, address, name)) => {
                if chars_eq(&kind, &device) {
                    r.push(BluetoothctlEntry { address: string_of(&address), name: string_of(&name) });
                }
            },
            None => {},
        }
        i += 1;
    }
    assert(all.take(ls@.len() as int) =~= all);
    r
}

/// `bluetoothctl info ADDRESS` reports the device as connected.
pub fn bluetoothctl_connected(info_stdout: &str) -> (b: bool)
    ensures
        b == has_substring(info_stdout@, "Connected: yes"@),
{
    crate::text::str_contains(info_stdout, "Connected: yes")
}

// ───────────────────────── Windows ─────────────────────────

/// `str::trim_matches('"')`.
pub open spec fn strip_quotes_start(s: Seq<char>) -> Seq<char>
    decreases s.len(),
{
    if s.len() > 0 && s[0] == '"' {
        strip_quotes_start(s.drop_first())
    } else {
        s
    }
}

pub open spec fn strip_quotes_end(s: Seq<char>) -> Seq<char>
    decreases s.len(),
{
    if s.len() > 0 && s.last() == '"' {
        strip_quotes_end(s.drop_last())
    } else {
        s
    }
}

pub open spec fn unquoted(s: Seq<char>) -> Seq<char> {
    strip_quotes_end(strip_quotes_start(s))
}

proof fn lemma_strip_start(s: Seq<char>, i: int)
    requires
        0 <= i <= s.len(),
        forall|k: int| 0 <= k < i ==> #[trigger] s[k] == '"',
        i == s.len() || s[i] != '"',
    ensures
        strip_quotes_start(s) == s.skip(i),
    decreases i,
{
    if i > 0 {
        let t = s.drop_first();
        assert forall|k: int| 0 <= k < i - 1 implies #[trigger] t[k] == '"' by {
            assert(t[k] == s[k + 1]);
        }
        lemma_strip_start(t, i - 1);
        assert(t.skip(i - 1) =~= s.skip(i));
    } else {
        assert(s.skip(0) =~= s);
    }
}

proof fn lemma_strip_end(s: Seq<char>, j: int)
    requires
        0 <= j <= s.len(),
        forall|k: int| j <= k < s.len() ==> #[trigger] s[k] == '"',
        j == 0 || s[j - 1] != '"',
    ensures
        strip_quotes_end(s) == s.take(j),
    decreases s.len() - j,
{
    if j < s.len() {
        let t = s.drop_last();
        assert forall|k: int| j <= k < t.len() implies #[trigger] t[k] == '"' by {
            assert(t[k] == s[k]);
        }
        lemma_strip_end(t, j);
        assert(t.take(j) =~= s.take(j));
    } else {
        assert(s.take(j) =~= s);
    }
}

pub fn trim_quotes(v: &Vec<char>) -> (r: Vec<char>)
    ensures
        r@ == unquoted(v@),
{
    let n = v.len();
    let mut i: usize = 0;
    while i < n && v[i] == '"'
        invariant
            n == v@.len(),
            i <= n,
            forall|k: int| 0 <= k < i ==> #[trigger] v@[k] == '"',
        decreases n - i,
    {
        i += 1;
    }
    let t = suffix_from(v, i);
    proof {
        lemma_strip_start(v@, i as int);
    }
    let m = t.len();
    let mut j: usize = m;
    while j > 0 && t[j - 1] == '"'
        invariant
            m == t@.len(),
            j <= m,
            forall|k: int| j <= k < m ==> #[trigger] t@[k] == '"',
        decreases j,
    {
        j -= 1;
    }
    proof {
        lemma_strip_end(t@, j as int);
    }
    let mut out: Vec<char> = Vec::new();
    let mut k: usize = 0;
    while k < j
        invariant
            k <= j <= t@.len(),
            out@ == t@.take(k as int),
        decreases j - k,
    {
        out.push(t[k]);
        assert(out@ =~= t@.take(k + 1));
        k += 1;
    }
    out
}

/// The devices of the CSV: after the header line, each line with three
/// comma-separated fields (quotes stripped) gives name, instance id and
/// status; the device is connected when the status is `OK` in any case;
/// lines with an empty name are skipped.
pub open spec fn pnp_entries(ls: Seq<Seq<char>>) -> Seq<(Seq<char>, Seq<char>, bool)>
    decreases ls.len(),
{
    if ls.len() == 0 {
        seq![]
    } else {
        let rest = pnp_entries(ls.drop_last());
        match split3(ls.last(), ',') {
            Some((a, b, c)) => if unquoted(a).len() > 0 {
                rest.push((unquoted(a), unquoted(b), lower_seq(unquoted(c)) == "ok"@))
            } else {
                rest
            },
            None => rest,
        }
    }
}

pub fn parse_pnp_bluetooth_csv(stdout: &str) -> (r: Vec<BluetoothDevice>)
    ensures
        ({
            let body = lines(stdout@).skip(if lines(stdout@).len() > 0 { 1int } else { 0int });
            &&& r@.len() == pnp_entries(body).len()
            &&& forall|i: int|
                0 <= i < r@.len() ==> (#[trigger] r@[i]).name@ == pnp_entries(body)[i].0
                    && r@[i].address@ == pnp_entries(body)[i].1 && r@[i].is_connected
                    == pnp_entries(body)[i].2
        }),
{
    let ls = split_lines(&chars_of(stdout));
    let ok = chars_of("ok");
    proof {
        reveal_strlit("ok");
    }
    let ghost all = lines(stdout@);
    let ghost body = all.skip(if all.len() > 0 { 1int } else { 0int });
    let start: usize = if ls.len() > 0 {
        1
    } else {
        0
    };
    let mut r: Vec<BluetoothDevice> = Vec::new();
    let mut i: usize = start;
    while i < ls.len()
        invariant
            start <= i <= ls@.len(),
            start == (if all.len() > 0 { 1int } else { 0int }),
            ok@ == "ok"@,
            all == lines(stdout@),
            body == all.skip(start as int),
            ls@.len() == all.len(),
            forall|k: int| 0 <= k < ls@.len() ==> #[trigger] ls@[k]@ == all[k],
            r@.len() == pnp_entries(body.take(i - start)).len(),
            forall|k: int|
                0 <= k < r@.len() ==> (#[trigger] r@[k]).name@ == pnp_entries(body.take(i - start))[k].0
                    && r@[k].address@ == pnp_entries(body.take(i - start))[k].1
                    && r@[k].is_connected == pnp_entries(body.take(i - start))[k].2,
        decreases ls@.len() - i,
    {
        assert(body.take(i - start + 1).drop_last() =~= body.take(i - start));
        assert(body.take(i - start + 1).last() == ls@[i as int]@);
        match split_three(&ls[i], ',') {
            Some((a, b, c)) => {
                let name = trim_quotes(&a);
                if name.len() > 0 {
                    let address = trim_quotes(&b);
                    let status = to_lower(&trim_quotes(&c));
                    let connected = chars_eq(&status, &ok);
                    r.push(
                        BluetoothDevice {
                            name: string_of(&name),
                            address: string_of(&address),
                            is_connected: connected,
                        },
                    );
                }
            },
            None => {},
        }
        i += 1;
    }
    assert(body.take(ls@.len() - start) =~= body);
    r
}

// ─── macOS: system_profiler SPBluetoothDataType ──────────────────────────────

/// A device of the macOS Bluetooth report: the name it is listed under and
/// its `device_address`, where that is a string.
pub struct ProfilerDevice {
    pub name: String,
    pub address: Option<String>,
}

/// A controller of the macOS Bluetooth report: the devices of its
/// `device_connected` list and those of its `device_not_connected` list, in
/// the order of the report.
pub struct ProfilerController {
    pub connected: Vec<ProfilerDevice>,
    pub not_connected: Vec<ProfilerDevice>,
}

/// The address shown for a device whose report gives none.
pub const NO_ADDRESS: &'static str = "—";

/// A device of the report as listed: name, address (`—` where the report
/// gives none), and whether it is connected.
pub open spec fn profiler_entry(d: ProfilerDevice, connected: bool) -> (Seq<char>, Seq<char>, bool) {
    (
        d.name@,
        match d.address {
            Some(a) => a@,
            None => NO_ADDRESS@,
        },
        connected,
    )
}

/// The devices of one list of a controller.
pub open spec fn profiler_list(ds: Seq<ProfilerDevice>, connected: bool) -> Seq<
    (Seq<char>, Seq<char>, bool),
> {
    ds.map_values(|d: ProfilerDevice| profiler_entry(d, connected))
}

/// The devices of the report: controller by controller, the connected ones
/// and then the others.
pub open spec fn profiler_entries(cs: Seq<ProfilerController>) -> Seq<(Seq<char>, Seq<char>, bool)>
    decreases cs.len(),
{
    if cs.len() == 0 {
        seq![]
    } else {
        profiler_entries(cs.drop_last()) + profiler_list(cs.last().connected@, true)
            + profiler_list(cs.last().not_connected@, false)
    }
}

/// Whether a list of devices holds exactly the entries `e`.
pub open spec fn lists_entries(r: Seq<BluetoothDevice>, e: Seq<(Seq<char>, Seq<char>, bool)>) -> bool {
    &&& r.len() == e.len()
    &&& forall|i: int|
        0 <= i < r.len() ==> (#[trigger] r[i]).name@ == e[i].0 && r[i].address@ == e[i].1
            && r[i].is_connected == e[i].2
}

fn push_profiler_list(out: &mut Vec<BluetoothDevice>, ds: &Vec<ProfilerDevice>, connected: bool)
    ensures
        final(out)@.len() == old(out)@.len() + ds@.len(),
        forall|i: int| 0 <= i < old(out)@.len() ==> final(out)@[i] == old(out)@[i],
        forall|i: int|
            0 <= i < ds@.len() ==> ({
                let d = #[trigger] final(out)@[old(out)@.len() + i];
                &&& d.name@ == profiler_list(ds@, connected)[i].0
                &&& d.address@ == profiler_list(ds@, connected)[i].1
                &&& d.is_connected == connected
            }),
{
    let ghost start = out@.len();
    let mut j: usize = 0;
    while j < ds.len()
        invariant
            j <= ds@.len(),
            start == old(out)@.len(),
            out@.len() == start + j,
            forall|i: int| 0 <= i < start ==> out@[i] == old(out)@[i],
            forall|i: int|
                0 <= i < j ==> ({
                    let d = #[trigger] out@[start + i];
                    &&& d.name@ == profiler_list(ds@, connected)[i].0
                    &&& d.address@ == profiler_list(ds@, connected)[i].1
                    &&& d.is_connected == connected
                }),
        decreases ds@.len() - j,
    {
        let address = match &ds[j].address {
            Some(a) => a.clone(),
            None => crate::text::owned(NO_ADDRESS),
        };
        out.push(BluetoothDevice { name: ds[j].name.clone(), address, is_connected: connected });
        j += 1;
    }
}

/// The Bluetooth devices of the macOS report.
pub fn profiler_devices(report: &Vec<ProfilerController>) -> (r: Vec<BluetoothDevice>)
    ensures
        lists_entries(r@, profiler_entries(report@)),
{
    let mut r: Vec<BluetoothDevice> = Vec::new();
    let mut i: usize = 0;
    while i < report.len()
        invariant
            i <= report@.len(),
            lists_entries(r@, profiler_entries(report@.take(i as int))),
        decreases report@.len() - i,
    {
        let ghost before = r@;
        let ghost prev = profiler_entries(report@.take(i as int));
        push_profiler_list(&mut r, &report[i].connected, true);
        let ghost mid = r@;
        push_profiler_list(&mut r, &report[i].not_connected, false);
        proof {
            let c = report@[i as int];
            assert(report@.take(i + 1).drop_last() =~= report@.take(i as int));
            assert(report@.take(i + 1).last() == c);
            let a = profiler_list(c.connected@, true);
            let b = profiler_list(c.not_connected@, false);
            let e = profiler_entries(report@.take(i + 1));
            assert(e == prev + a + b);
            assert forall|k: int| 0 <= k < r@.len() implies (#[trigger] r@[k]).name@ == e[k].0
                && r@[k].address@ == e[k].1 && r@[k].is_connected == e[k].2 by {
                if k < before.len() {
                    assert(r@[k] == mid[k] && mid[k] == before[k]);
                } else if k < mid.len() {
                    assert(r@[k] == mid[k]);
                    assert(mid[before.len() + (k - before.len())] == mid[k]);
                } else {
                    assert(r@[mid.len() + (k - mid.len())] == r@[k]);
                }
            }
        }
        i += 1;
    }
    assert(report@.take(report@.len() as int) =~= report@);
    r
}

// The report of `system_profiler SPBluetoothDataType -json`, read from its
// parsed JSON.

/// The devices of one object of a device list: each member is a device
/// named by its key, with its `device_address` where that is a string;
/// nothing for a value that is not an object.
pub open spec fn object_devices(v: JsonValue) -> Seq<ProfilerDevice> {
    match v {
        JsonValue::Object(fs) => fs@.map_values(
            |p: (String, JsonValue)|
                ProfilerDevice { name: p.0, address: as_str(field_of(p.1, "device_address"@)) },
        ),
        _ => seq![],
    }
}

/// The devices of a list of objects, in order.
pub open spec fn devices_in(items: Seq<JsonValue>) -> Seq<ProfilerDevice>
    decreases items.len(),
{
    if items.len() == 0 {
        seq![]
    } else {
        devices_in(items.drop_last()) + object_devices(items.last())
    }
}

/// The devices of the member `key` of a controller: nothing unless it is an
/// array.
pub open spec fn list_devices(controller: JsonValue, key: Seq<char>) -> Seq<ProfilerDevice> {
    match field_of(controller, key) {
        Some(JsonValue::Array(items)) => devices_in(items@),
        _ => seq![],
    }
}

/// The devices of the controllers, each controller's connected ones first.
pub open spec fn controllers_entries(es: Seq<JsonValue>) -> Seq<(Seq<char>, Seq<char>, bool)>
    decreases es.len(),
{
    if es.len() == 0 {
        seq![]
    } else {
        controllers_entries(es.drop_last()) + profiler_list(list_devices(es.last(), "device_connected"@), true)
            + profiler_list(list_devices(es.last(), "device_not_connected"@), false)
    }
}

/// The devices of a parsed report: nothing unless it is an object whose
/// `SPBluetoothDataType` member is an array of controllers.
pub open spec fn report_entries(j: Option<JsonValue>) -> Seq<(Seq<char>, Seq<char>, bool)> {
    match j {
        Some(v) => match field_of(v, "SPBluetoothDataType"@) {
            Some(JsonValue::Array(es)) => controllers_entries(es@),
            _ => seq![],
        },
        None => seq![],
    }
}

fn push_object_devices(out: &mut Vec<ProfilerDevice>, v: &JsonValue)
    ensures
        final(out)@ == old(out)@ + object_devices(*v),
{
    match v {
        JsonValue::Object(fs) => {
            let ghost start = out@;
            let mut j: usize = 0;
            while j < fs.len()
                invariant
                    j <= fs@.len(),
                    object_devices(*v) == fs@.map_values(
                        |p: (String, JsonValue)|
                            ProfilerDevice { name: p.0, address: as_str(field_of(p.1, "device_address"@)) },
                    ),
                    out@ == start + fs@.take(j as int).map_values(
                        |p: (String, JsonValue)|
                            ProfilerDevice { name: p.0, address: as_str(field_of(p.1, "device_address"@)) },
                    ),
                decreases fs@.len() - j,
            {
                let address = str_of(get_field(&fs[j].1, "device_address"));
                out.push(ProfilerDevice { name: fs[j].0.clone(), address });
                assert(out@ =~= start + fs@.take(j + 1).map_values(
                    |p: (String, JsonValue)|
                        ProfilerDevice { name: p.0, address: as_str(field_of(p.1, "device_address"@)) },
                ));
                j += 1;
            }
            assert(fs@.take(fs@.len() as int) =~= fs@);
        },
        _ => {
            assert(out@ =~= old(out)@ + object_devices(*v));
        },
    }
}

fn list_devices_of(controller: &JsonValue, key: &str) -> (r: Vec<ProfilerDevice>)
    ensures
        r@ == list_devices(*controller, key@),
{
    let mut r: Vec<ProfilerDevice> = Vec::new();
    match get_field(controller, key) {
        Some(JsonValue::Array(items)) => {
            let mut i: usize = 0;
            while i < items.len()
                invariant
                    i <= items@.len(),
                    r@ == devices_in(items@.take(i as int)),
                decreases items@.len() - i,
            {
                assert(items@.take(i + 1).drop_last() =~= items@.take(i as int));
                push_object_devices(&mut r, &items[i]);
                i += 1;
            }
            assert(items@.take(items@.len() as int) =~= items@);
        },
        _ => {},
    }
    r
}

/// The Bluetooth devices in the output of `system_profiler
/// SPBluetoothDataType -json`: none when it is not such a report.
pub fn profiler_bluetooth_devices(stdout: &str) -> (r: Vec<BluetoothDevice>)
    ensures
        lists_entries(r@, report_entries(json_parsed(stdout@))),
{
    let parsed = parse_json(stdout);
    let mut r: Vec<BluetoothDevice> = Vec::new();
    let es = match &parsed {
        Some(v) => get_field(v, "SPBluetoothDataType"),
        None => None,
    };
    match es {
        Some(JsonValue::Array(es)) => {
            let mut i: usize = 0;
            while i < es.len()
                invariant
                    i <= es@.len(),
                    lists_entries(r@, controllers_entries(es@.take(i as int))),
                decreases es@.len() - i,
            {
                let ghost before = r@;
                let ghost prev = controllers_entries(es@.take(i as int));
                let conn = list_devices_of(&es[i], "device_connected");
                let not_conn = list_devices_of(&es[i], "device_not_connected");
                push_profiler_list(&mut r, &conn, true);
                let ghost mid = r@;
                push_profiler_list(&mut r, &not_conn, false);
                proof {
                    assert(es@.take(i + 1).drop_last() =~= es@.take(i as int));
                    assert(es@.take(i + 1).last() == es@[i as int]);
                    let a = profiler_list(conn@, true);
                    let b = profiler_list(not_conn@, false);
                    let e = controllers_entries(es@.take(i + 1));
                    assert(e == prev + a + b);
                    assert forall|k: int| 0 <= k < r@.len() implies (#[trigger] r@[k]).name@ == e[k].0
                        && r@[k].address@ == e[k].1 && r@[k].is_connected == e[k].2 by {
                        if k < before.len() {
                            assert(r@[k] == mid[k] && mid[k] == before[k]);
                        } else if k < mid.len() {
                            assert(r@[k] == mid[k]);
                            assert(mid[before.len() + (k - before.len())] == mid[k]);
                        } else {
                            assert(r@[mid.len() + (k - mid.len())] == r@[k]);
                        }
                    }
                }
                i += 1;
            }
            assert(es@.take(es@.len() as int) =~= es@);
        },
        _ => {},
    }
    r
}

} // verus!

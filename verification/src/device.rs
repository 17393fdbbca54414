//! Serial devices: how ports are presented, ordered, looked up, and found
//! again after the device re-enumerates (for example in its bootloader).
use vstd::prelude::*;

use crate::error::CoreError;
use crate::text::{
    chars_le, chars_less, chars_lt, chars_of, hex4, lemma_chars_lt_irreflexive,
    lemma_chars_lt_total, lemma_chars_lt_transitive, push_hex4, push_str, string_from_chars,
};
use crate::types::SerialDevice;

verus! {

/// USB details the operating system reports for a port.
#[derive(Debug, Clone, PartialEq, Eq)]
pub struct UsbPortDetails {
    pub vid: u16,
    pub pid: u16,
    pub serial_number: Option<String>,
    pub manufacturer: Option<String>,
    pub product: Option<String>,
}

/// A port as the operating system lists it.
#[derive(Debug, Clone, PartialEq, Eq)]
pub struct PortRecord {
    pub port_name: String,
    pub usb: Option<UsbPortDetails>,
}

pub open spec fn opt_view(o: Option<String>) -> Option<Seq<char>> {
    match o {
        Some(s) => Some(s@),
        None => None,
    }
}

/// What a port is called in the list: product, else manufacturer.
pub open spec fn port_description(p: PortRecord) -> Seq<char> {
    match p.usb {
        Some(u) => match u.product {
            Some(x) => x@,
            None => match u.manufacturer {
                Some(m) => m@,
                None => "Serial device"@,
            },
        },
        None => "Serial device"@,
    }
}

/// A USB device with a serial number keeps its id across ports; any other
/// port is identified by its path.
pub open spec fn port_id(p: PortRecord) -> Seq<char> {
    match p.usb {
        Some(u) => match u.serial_number {
            Some(s) => "usb:"@ + hex4(u.vid) + ":"@ + hex4(u.pid) + ":"@ + s@,
            None => "path:"@ + p.port_name@,
        },
        None => "path:"@ + p.port_name@,
    }
}

pub open spec fn port_display_name(p: PortRecord) -> Seq<char> {
    port_description(p) + " \u{b7} "@ + p.port_name@
}

pub open spec fn device_of_port(p: PortRecord, d: SerialDevice) -> bool {
    &&& d.id@ == port_id(p)
    &&& d.display_name@ == port_display_name(p)
    &&& d.system_path == p.port_name
    &&& match p.usb {
        Some(u) => d.vid == Some(u.vid) && d.pid == Some(u.pid) && d.serial_number == u.serial_number
            && d.manufacturer == u.manufacturer && d.product == u.product,
        None => d.vid is None && d.pid is None && d.serial_number is None && d.manufacturer is None
            && d.product is None,
    }
}

fn copy_opt_string(o: &Option<String>) -> (r: Option<String>)
    ensures
        r == *o,
{
    match o {
        Some(s) => Some(s.clone()),
        None => None,
    }
}

/// An exact copy of a device record.
pub fn copy_device(d: &SerialDevice) -> (r: SerialDevice)
    ensures
        r == *d,
{
    SerialDevice {
        id: d.id.clone(),
        display_name: d.display_name.clone(),
        system_path: d.system_path.clone(),
        vid: d.vid,
        pid: d.pid,
        serial_number: copy_opt_string(&d.serial_number),
        manufacturer: copy_opt_string(&d.manufacturer),
        product: copy_opt_string(&d.product),
    }
}

/// The device record presented for a port.
pub fn device_from_port(port: &PortRecord) -> (d: SerialDevice)
    ensures
        device_of_port(*port, d),
{
    let mut desc: Vec<char> = Vec::new();
    let mut id: Vec<char> = Vec::new();
    match &port.usb {
        Some(u) => {
            match &u.product {
                Some(x) => push_str(&mut desc, x.as_str()),
                None => match &u.manufacturer {
                    Some(m) => push_str(&mut desc, m.as_str()),
                    None => push_str(&mut desc, "Serial device"),
                },
            }
            match &u.serial_number {
                Some(s) => {
                    push_str(&mut id, "usb:");
                    push_hex4(&mut id, u.vid);
                    push_str(&mut id, ":");
                    push_hex4(&mut id, u.pid);
                    push_str(&mut id, ":");
                    push_str(&mut id, s.as_str());
                },
                None => {
                    push_str(&mut id, "path:");
                    push_str(&mut id, port.port_name.as_str());
                },
            }
            push_str(&mut desc, " \u{b7} ");
            push_str(&mut desc, port.port_name.as_str());
            SerialDevice {
                id: string_from_chars(&id),
                display_name: string_from_chars(&desc),
                system_path: port.port_name.clone(),
                vid: Some(u.vid),
                pid: Some(u.pid),
                serial_number: copy_opt_string(&u.serial_number),
                manufacturer: copy_opt_string(&u.manufacturer),
                product: copy_opt_string(&u.product),
            }
        },
        None => {
            push_str(&mut desc, "Serial device");
            push_str(&mut desc, " \u{b7} ");
            push_str(&mut desc, port.port_name.as_str());
            push_str(&mut id, "path:");
            push_str(&mut id, port.port_name.as_str());
            SerialDevice {
                id: string_from_chars(&id),
                display_name: string_from_chars(&desc),
                system_path: port.port_name.clone(),
                vid: None,
                pid: None,
                serial_number: None,
                manufacturer: None,
                product: None,
            }
        },
    }
}

/// Devices ordered by display name.
pub open spec fn sorted_by_name(s: Seq<SerialDevice>) -> bool {
    forall|i: int, j: int| 0 <= i < j < s.len() ==> chars_le(s[i].display_name@, s[j].display_name@)
}

fn name_less(a: &SerialDevice, b: &SerialDevice) -> (r: bool)
    ensures
        r == chars_lt(a.display_name@, b.display_name@),
{
    let x = chars_of(a.display_name.as_str());
    let y = chars_of(b.display_name.as_str());
    chars_less(&x, &y)
}

/// Where `d` goes in `s`: before the first device whose name sorts after
/// its own, at the end when there is none.
pub open spec fn insert_pos(s: Seq<SerialDevice>, d: SerialDevice) -> int
    decreases s.len(),
{
    if s.len() == 0 {
        0
    } else if chars_lt(d.display_name@, s[0].display_name@) {
        0
    } else {
        1 + insert_pos(s.drop_first(), d)
    }
}

/// The stable order by display name: each device in turn goes after those
/// whose names do not sort after its own.
pub open spec fn stable_by_name(s: Seq<SerialDevice>) -> Seq<SerialDevice>
    decreases s.len(),
{
    if s.len() == 0 {
        s
    } else {
        let r = stable_by_name(s.drop_last());
        r.insert(insert_pos(r, s.last()), s.last())
    }
}

/// The first position whose name sorts after `d`'s is where `d` goes.
proof fn lemma_insert_pos(s: Seq<SerialDevice>, d: SerialDevice, p: int)
    requires
        0 <= p <= s.len(),
        forall|k: int| 0 <= k < p ==> !chars_lt(d.display_name@, #[trigger] s[k].display_name@),
        p < s.len() ==> chars_lt(d.display_name@, s[p].display_name@),
    ensures
        insert_pos(s, d) == p,
    decreases p,
{
    if p > 0 {
        assert(!chars_lt(d.display_name@, s[0].display_name@));
        let t = s.drop_first();
        assert forall|k: int| 0 <= k < p - 1 implies !chars_lt(d.display_name@, #[trigger] t[k].display_name@) by {
            assert(t[k] == s[k + 1]);
        }
        if p < s.len() {
            assert(t[p - 1] == s[p]);
        }
        lemma_insert_pos(t, d, p - 1);
    }
}

/// Orders devices by display name; devices with equal names keep their order.
pub fn sort_by_display_name(devices: Vec<SerialDevice>) -> (r: Vec<SerialDevice>)
    ensures
        r@ == stable_by_name(devices@),
        sorted_by_name(r@),
        r@.to_multiset() == devices@.to_multiset(),
{
    broadcast use vstd::seq_lib::group_to_multiset_ensures;

    let mut sorted: Vec<SerialDevice> = Vec::new();
    let mut i: usize = 0;
    assert(devices@.take(0) =~= Seq::<SerialDevice>::empty());
    while i < devices.len()
        invariant
            0 <= i <= devices.len(),
            sorted_by_name(sorted@),
            sorted@.to_multiset() == devices@.take(i as int).to_multiset(),
            sorted@ == stable_by_name(devices@.take(i as int)),
        decreases devices.len() - i,
    {
        let item = copy_device(&devices[i]);
        let mut p: usize = 0;
        loop
            invariant
                0 <= p <= sorted.len(),
                forall|k: int| 0 <= k < p ==> !chars_lt(item.display_name@, #[trigger] sorted@[k].display_name@),
            ensures
                0 <= p <= sorted.len(),
                forall|k: int| 0 <= k < p ==> !chars_lt(item.display_name@, #[trigger] sorted@[k].display_name@),
                p < sorted.len() ==> chars_lt(item.display_name@, sorted@[p as int].display_name@),
            decreases sorted.len() - p,
        {
            if p >= sorted.len() {
                break;
            }
            if name_less(&item, &sorted[p]) {
                break;
            }
            p = p + 1;
        }
        let ghost before = sorted@;
        proof {
            lemma_insert_pos(before, item, p as int);
            assert(devices@.take(i + 1).drop_last() =~= devices@.take(i as int));
            assert(devices@.take(i + 1).last() == item);
            assert forall|k: int| 0 <= k < p implies chars_le(before[k].display_name@, item.display_name@) by {
                lemma_chars_lt_total(before[k].display_name@, item.display_name@);
            }
            if p < before.len() {
                assert forall|k: int| p <= k < before.len() implies chars_lt(
                    item.display_name@,
                    before[k].display_name@,
                ) by {
                    if k > p {
                        assert(chars_le(before[p as int].display_name@, before[k].display_name@));
                        if chars_lt(before[p as int].display_name@, before[k].display_name@) {
                            lemma_chars_lt_transitive(
                                item.display_name@,
                                before[p as int].display_name@,
                                before[k].display_name@,
                            );
                        }
                    }
                }
            }
        }
        sorted.insert(p, item);
        proof {
            let after = sorted@;
            assert(after == before.insert(p as int, item));
            assert forall|a: int, b: int| 0 <= a < b < after.len() implies chars_le(
                after[a].display_name@,
                after[b].display_name@,
            ) by {
                if a < p && b < p {
                    assert(after[a] == before[a] && after[b] == before[b]);
                } else if a < p && b == p {
                } else if a < p && b > p {
                    assert(after[a] == before[a] && after[b] == before[b - 1]);
                    assert(chars_le(before[a].display_name@, item.display_name@));
                    assert(chars_lt(item.display_name@, before[b - 1].display_name@));
                    if chars_lt(before[a].display_name@, item.display_name@) {
                        lemma_chars_lt_transitive(
                            before[a].display_name@,
                            item.display_name@,
                            before[b - 1].display_name@,
                        );
                    }
                } else if a == p {
                    assert(after[b] == before[b - 1]);
                } else {
                    assert(after[a] == before[a - 1] && after[b] == before[b - 1]);
                }
            }
            assert(devices@.take(i + 1) =~= devices@.take(i as int).push(devices@[i as int]));
            vstd::seq_lib::to_multiset_insert(before, p as int, item);
            vstd::seq_lib::to_multiset_build(devices@.take(i as int), devices@[i as int]);
        }
        i = i + 1;
    }
    assert(devices@.take(devices.len() as int) =~= devices@);
    sorted
}

/// `m` presents each port, in order.
pub open spec fn presents(ports: Seq<PortRecord>, m: Seq<SerialDevice>) -> bool {
    &&& m.len() == ports.len()
    &&& forall|k: int| 0 <= k < m.len() ==> device_of_port(ports[k], #[trigger] m[k])
}

/// The list holds a device presented for port `p`.
pub open spec fn listed_for(p: PortRecord, ds: Seq<SerialDevice>) -> bool {
    exists|j: int| 0 <= j < ds.len() && device_of_port(p, #[trigger] ds[j])
}

/// The device list presented for the ports the operating system reports,
/// ordered by display name.
pub fn devices_from_ports(ports: &[PortRecord]) -> (r: Vec<SerialDevice>)
    ensures
        sorted_by_name(r@),
        r@.len() == ports@.len(),
        forall|d: SerialDevice| r@.contains(d) ==> exists|k: int| 0 <= k < ports@.len()
            && device_of_port(#[trigger] ports@[k], d),
        forall|k: int| 0 <= k < ports@.len() ==> #[trigger] listed_for(ports@[k], r@),
        exists|m: Seq<SerialDevice>| #[trigger] presents(ports@, m) && r@ == stable_by_name(m),
{
    broadcast use vstd::seq_lib::group_to_multiset_ensures;

    let mut devices: Vec<SerialDevice> = Vec::new();
    let mut i: usize = 0;
    while i < ports.len()
        invariant
            0 <= i <= ports.len(),
            devices@.len() == i,
            forall|j: int| 0 <= j < i ==> device_of_port(ports@[j], #[trigger] devices@[j]),
        decreases ports.len() - i,
    {
        devices.push(device_from_port(&ports[i]));
        i = i + 1;
    }
    let ghost mapped = devices@;
    let r = sort_by_display_name(devices);
    proof {
        assert(presents(ports@, mapped));
        assert(r@.len() == r@.to_multiset().len());
        assert(devices@.len() == devices@.to_multiset().len());
        assert forall|d: SerialDevice| r@.contains(d) implies exists|k: int| 0 <= k < ports@.len()
            && device_of_port(#[trigger] ports@[k], d) by {
            assert(r@.to_multiset().count(d) > 0);
            assert(devices@.to_multiset().count(d) > 0);
            assert(devices@.contains(d));
            let j = choose|j: int| 0 <= j < devices@.len() && devices@[j] == d;
            assert(device_of_port(ports@[j], devices@[j]));
        }
        assert forall|k: int| 0 <= k < ports@.len() implies #[trigger] listed_for(ports@[k], r@) by {
            let d = devices@[k];
            assert(devices@.contains(d));
            assert(devices@.to_multiset().count(d) > 0);
            assert(r@.to_multiset().count(d) > 0);
            assert(r@.contains(d));
            let j = choose|j: int| 0 <= j < r@.len() && r@[j] == d;
            assert(device_of_port(ports@[k], r@[j]));
        }
    }
    r
}

/// The devices of `ds` that satisfy `p`, in order.
pub open spec fn keep(ds: Seq<SerialDevice>, p: spec_fn(SerialDevice) -> bool) -> Seq<SerialDevice>
    decreases ds.len(),
{
    if ds.len() == 0 {
        seq![]
    } else {
        let k = keep(ds.drop_last(), p);
        if p(ds.last()) { k.push(ds.last()) } else { k }
    }
}

/// The only element, if there is exactly one.
pub open spec fn unique_of(s: Seq<SerialDevice>) -> Option<SerialDevice> {
    if s.len() == 1 { Some(s[0]) } else { None }
}

/// The first device whose `system_path` is `path`.
pub open spec fn first_at_path(ds: Seq<SerialDevice>, path: Seq<char>) -> Option<SerialDevice>
    decreases ds.len(),
{
    if ds.len() == 0 {
        None
    } else if ds[0].system_path@ == path {
        Some(ds[0])
    } else {
        first_at_path(ds.drop_first(), path)
    }
}

/// The first device whose `id` is `id`.
pub open spec fn first_with_id(ds: Seq<SerialDevice>, id: Seq<char>) -> Option<SerialDevice>
    decreases ds.len(),
{
    if ds.len() == 0 {
        None
    } else if ds[0].id@ == id {
        Some(ds[0])
    } else {
        first_with_id(ds.drop_first(), id)
    }
}

pub open spec fn same_serial(d: SerialDevice, serial: Seq<char>) -> bool {
    d.serial_number matches Some(x) && x@ == serial
}

pub open spec fn path_listed(paths: Seq<String>, p: Seq<char>) -> bool {
    exists|k: int| 0 <= k < paths.len() && #[trigger] paths[k]@ == p
}

/// A USB device at a port that was not there before.
pub open spec fn is_new_usb(d: SerialDevice, paths: Seq<String>) -> bool {
    !path_listed(paths, d.system_path@) && d.vid is Some
}

pub open spec fn same_ids(d: SerialDevice, o: SerialDevice) -> bool {
    d.vid == o.vid && d.pid == o.pid && o.vid is Some
}

pub open spec fn same_maker(d: SerialDevice, o: SerialDevice) -> bool {
    ||| o.product is Some && opt_view(d.product) == opt_view(o.product)
    ||| o.manufacturer is Some && opt_view(d.manufacturer) == opt_view(o.manufacturer)
}

/// The device `o` became, among `ds`, given the ports in use before
/// (`paths`): a unique match of its serial number; else, among the new USB
/// ports, a unique match of its vendor and product ids, else of its product
/// or manufacturer name, else the only new USB port; else the port at its
/// old path.
pub open spec fn rediscovered(o: SerialDevice, paths: Seq<String>, ds: Seq<SerialDevice>) -> Option<SerialDevice> {
    let by_serial = match o.serial_number {
        Some(s) => unique_of(keep(ds, |d: SerialDevice| same_serial(d, s@))),
        None => None,
    };
    if by_serial is Some {
        by_serial
    } else {
        let fresh = keep(ds, |d: SerialDevice| is_new_usb(d, paths));
        let by_ids = unique_of(keep(fresh, |d: SerialDevice| same_ids(d, o)));
        if by_ids is Some {
            by_ids
        } else {
            let by_maker = unique_of(keep(fresh, |d: SerialDevice| same_maker(d, o)));
            if by_maker is Some {
                by_maker
            } else if fresh.len() == 1 {
                Some(fresh[0])
            } else {
                first_at_path(ds, o.system_path@)
            }
        }
    }
}

/// A rule for picking devices out of a list.
pub enum MatchRule<'a> {
    Serial(&'a String),
    NewUsb(&'a [String]),
    SameIds(&'a SerialDevice),
    SameMaker(&'a SerialDevice),
}

pub open spec fn rule_holds(rule: MatchRule, d: SerialDevice) -> bool {
    match rule {
        MatchRule::Serial(s) => same_serial(d, s@),
        MatchRule::NewUsb(paths) => is_new_usb(d, paths@),
        MatchRule::SameIds(o) => same_ids(d, *o),
        MatchRule::SameMaker(o) => same_maker(d, *o),
    }
}

fn opt_string_eq(a: &Option<String>, b: &Option<String>) -> (r: bool)
    ensures
        r == (opt_view(*a) == opt_view(*b)),
{
    match (a, b) {
        (Some(x), Some(y)) => *x == *y,
        (None, None) => true,
        _ => false,
    }
}

fn path_in(paths: &[String], p: &String) -> (r: bool)
    ensures
        r == path_listed(paths@, p@),
{
    let mut k: usize = 0;
    while k < paths.len()
        invariant
            0 <= k <= paths.len(),
            forall|j: int| 0 <= j < k ==> paths@[j]@ != p@,
        decreases paths.len() - k,
    {
        if paths[k] == *p {
            return true;
        }
        k = k + 1;
    }
    false
}

fn rule_matches(rule: &MatchRule, d: &SerialDevice) -> (r: bool)
    ensures
        r == rule_holds(*rule, *d),
{
    match rule {
        MatchRule::Serial(s) => match &d.serial_number {
            Some(x) => *x == **s,
            None => false,
        },
        MatchRule::NewUsb(paths) => !path_in(paths, &d.system_path) && d.vid.is_some(),
        MatchRule::SameIds(o) => d.vid == o.vid && d.pid == o.pid && o.vid.is_some(),
        MatchRule::SameMaker(o) => {
            let same_product = o.product.is_some() && opt_string_eq(&d.product, &o.product);
            let same_manufacturer = o.manufacturer.is_some() && opt_string_eq(
                &d.manufacturer,
                &o.manufacturer,
            );
            same_product || same_manufacturer
        },
    }
}

/// Copies of the devices that satisfy `rule`, in order.
pub fn select_matching(ds: &[SerialDevice], rule: &MatchRule) -> (r: Vec<SerialDevice>)
    ensures
        r@ == keep(ds@, |d: SerialDevice| rule_holds(*rule, d)),
{
    let ghost p = |d: SerialDevice| rule_holds(*rule, d);
    let mut r: Vec<SerialDevice> = Vec::new();
    let mut i: usize = 0;
    assert(ds@.take(0) =~= Seq::<SerialDevice>::empty());
    while i < ds.len()
        invariant
            0 <= i <= ds.len(),
            p == (|d: SerialDevice| rule_holds(*rule, d)),
            r@ == keep(ds@.take(i as int), p),
        decreases ds.len() - i,
    {
        assert(ds@.take(i + 1).drop_last() =~= ds@.take(i as int));
        assert(ds@.take(i + 1).last() == ds@[i as int]);
        assert(p(ds@[i as int]) == rule_holds(*rule, ds@[i as int]));
        let hit = rule_matches(rule, &ds[i]);
        if hit {
            r.push(copy_device(&ds[i]));
            assert(r@ == keep(ds@.take(i as int), p).push(ds@[i as int]));
        } else {
            assert(r@ == keep(ds@.take(i as int), p));
        }
        assert(keep(ds@.take(i + 1), p) == (if p(ds@[i as int]) {
            keep(ds@.take(i as int), p).push(ds@[i as int])
        } else {
            keep(ds@.take(i as int), p)
        }));
        i = i + 1;
    }
    assert(ds@.take(ds.len() as int) =~= ds@);
    r
}

/// The one device of the list, if it holds exactly one.
pub fn select_unique(devices: &[SerialDevice]) -> (r: Option<SerialDevice>)
    ensures
        r == unique_of(devices@),
{
    if devices.len() == 1 {
        Some(copy_device(&devices[0]))
    } else {
        None
    }
}

fn find_at_path(ds: &[SerialDevice], path: &String) -> (r: Option<SerialDevice>)
    ensures
        r == first_at_path(ds@, path@),
{
    let mut i: usize = 0;
    assert(ds@.skip(0) =~= ds@);
    while i < ds.len()
        invariant
            0 <= i <= ds.len(),
            first_at_path(ds@, path@) == first_at_path(ds@.skip(i as int), path@),
        decreases ds.len() - i,
    {
        assert(ds@.skip(i as int)[0] == ds@[i as int]);
        assert(ds@.skip(i as int).drop_first() =~= ds@.skip(i + 1));
        if ds[i].system_path == *path {
            return Some(copy_device(&ds[i]));
        }
        i = i + 1;
    }
    None
}

/// Finds the device `original` became after re-enumeration; see `rediscovered`.
pub fn select_rediscovered_device(
    original: &SerialDevice,
    previous_paths: &[String],
    devices: &[SerialDevice],
) -> (r: Option<SerialDevice>)
    ensures
        r == rediscovered(*original, previous_paths@, devices@),
{
    let ghost o = *original;
    let ghost paths = previous_paths@;
    assert((|d: SerialDevice| rule_holds(MatchRule::NewUsb(previous_paths), d)) =~= (|d: SerialDevice|
        is_new_usb(d, paths)));
    assert((|d: SerialDevice| rule_holds(MatchRule::SameIds(original), d)) =~= (|d: SerialDevice|
        same_ids(d, o)));
    assert((|d: SerialDevice| rule_holds(MatchRule::SameMaker(original), d)) =~= (|d: SerialDevice|
        same_maker(d, o)));
    if let Some(serial) = &original.serial_number {
        assert((|d: SerialDevice| rule_holds(MatchRule::Serial(serial), d)) =~= (|d: SerialDevice|
            same_serial(d, serial@)));
        let same = select_matching(devices, &MatchRule::Serial(serial));
        if let Some(device) = select_unique(&same) {
            return Some(device);
        }
    }
    let fresh = select_matching(devices, &MatchRule::NewUsb(previous_paths));
    let by_ids = select_matching(&fresh, &MatchRule::SameIds(original));
    if let Some(device) = select_unique(&by_ids) {
        return Some(device);
    }
    let by_maker = select_matching(&fresh, &MatchRule::SameMaker(original));
    if let Some(device) = select_unique(&by_maker) {
        return Some(device);
    }
    if fresh.len() == 1 {
        return Some(copy_device(&fresh[0]));
    }
    assert(devices@.skip(0) =~= devices@);
    find_at_path(devices, &original.system_path)
}

/// Looks a device up by id.
pub fn find_device(devices: &[SerialDevice], id: &str) -> (r: Result<SerialDevice, CoreError>)
    ensures
        match first_with_id(devices@, id@) {
            Some(d) => r == Ok::<SerialDevice, CoreError>(d),
            None => r matches Err(CoreError::DeviceNotFound(m)) && m@ == id@,
        },
{
    let mut i: usize = 0;
    let target = String::from_str(id);
    assert(devices@.skip(0) =~= devices@);
    while i < devices.len()
        invariant
            0 <= i <= devices.len(),
            target@ == id@,
            first_with_id(devices@, id@) == first_with_id(devices@.skip(i as int), id@),
        decreases devices.len() - i,
    {
        assert(devices@.skip(i as int)[0] == devices@[i as int]);
        assert(devices@.skip(i as int).drop_first() =~= devices@.skip(i + 1));
        if devices[i].id == target {
            return Ok(copy_device(&devices[i]));
        }
        i = i + 1;
    }
    Err(CoreError::DeviceNotFound(String::from_str(id)))
}

/// Finds the device `original` became, or reports it missing by its name.
pub fn rediscover_device(
    original: &SerialDevice,
    previous_paths: &[String],
    devices: &[SerialDevice],
) -> (r: Result<SerialDevice, CoreError>)
    ensures
        match rediscovered(*original, previous_paths@, devices@) {
            Some(d) => r == Ok::<SerialDevice, CoreError>(d),
            None => r matches Err(CoreError::DeviceNotFound(m)) && m@ == original.display_name@,
        },
{
    match select_rediscovered_device(original, previous_paths, devices) {
        Some(d) => Ok(d),
        None => Err(CoreError::DeviceNotFound(original.display_name.clone())),
    }
}

/// Every kept device comes from the list, and satisfies the predicate.
pub proof fn lemma_keep_subset(ds: Seq<SerialDevice>, p: spec_fn(SerialDevice) -> bool)
    ensures
        forall|k: int| 0 <= k < keep(ds, p).len() ==> ds.contains(#[trigger] keep(ds, p)[k])
            && p(keep(ds, p)[k]),
        keep(ds, p).len() <= ds.len(),
    decreases ds.len(),
{
    if ds.len() > 0 {
        lemma_keep_subset(ds.drop_last(), p);
        let k0 = keep(ds.drop_last(), p);
        assert forall|k: int| 0 <= k < keep(ds, p).len() implies ds.contains(#[trigger] keep(ds, p)[k])
            && p(keep(ds, p)[k]) by {
            if k < k0.len() {
                assert(keep(ds, p)[k] == k0[k]);
                let w = choose|w: int| 0 <= w < ds.drop_last().len() && ds.drop_last()[w] == k0[k];
                assert(ds[w] == k0[k]);
            } else {
                assert(ds[ds.len() - 1] == ds.last());
            }
        }
    }
}

proof fn lemma_first_at_path_member(ds: Seq<SerialDevice>, path: Seq<char>)
    ensures
        first_at_path(ds, path) matches Some(d) ==> ds.contains(d) && d.system_path@ == path,
    decreases ds.len(),
{
    if ds.len() > 0 && ds[0].system_path@ != path {
        lemma_first_at_path_member(ds.drop_first(), path);
        if first_at_path(ds, path) is Some {
            let d = first_at_path(ds, path).unwrap();
            let w = choose|w: int| 0 <= w < ds.drop_first().len() && ds.drop_first()[w] == d;
            assert(ds[w + 1] == d);
        }
    }
}

/// Rediscovery only ever picks one of the listed devices.
pub proof fn lemma_rediscovered_is_listed(o: SerialDevice, paths: Seq<String>, ds: Seq<SerialDevice>)
    ensures
        rediscovered(o, paths, ds) matches Some(d) ==> ds.contains(d),
{
    let fresh_p = |d: SerialDevice| is_new_usb(d, paths);
    let fresh = keep(ds, fresh_p);
    lemma_keep_subset(ds, fresh_p);
    lemma_keep_subset(fresh, |d: SerialDevice| same_ids(d, o));
    lemma_keep_subset(fresh, |d: SerialDevice| same_maker(d, o));
    lemma_first_at_path_member(ds, o.system_path@);
    if let Some(s) = o.serial_number {
        lemma_keep_subset(ds, |d: SerialDevice| same_serial(d, s@));
    }
    if rediscovered(o, paths, ds) is Some {
        let d = rediscovered(o, paths, ds).unwrap();
        if fresh.contains(d) {
            let w = choose|w: int| 0 <= w < fresh.len() && fresh[w] == d;
            assert(ds.contains(fresh[w]));
        }
    }
}

/// A device that alone carries the original's serial number is the one found.
pub proof fn lemma_unique_serial_wins(o: SerialDevice, paths: Seq<String>, ds: Seq<SerialDevice>, d: SerialDevice)
    requires
        o.serial_number is Some,
        keep(ds, |x: SerialDevice| same_serial(x, o.serial_number.unwrap()@)) == seq![d],
    ensures
        rediscovered(o, paths, ds) == Some(d),
{
}

/// Keeping with a predicate nothing satisfies keeps nothing.
proof fn lemma_keep_none(ds: Seq<SerialDevice>, p: spec_fn(SerialDevice) -> bool)
    requires
        forall|k: int| 0 <= k < ds.len() ==> !p(#[trigger] ds[k]),
    ensures
        keep(ds, p) == Seq::<SerialDevice>::empty(),
    decreases ds.len(),
{
    if ds.len() > 0 {
        assert forall|k: int| 0 <= k < ds.drop_last().len() implies !p(#[trigger] ds.drop_last()[k]) by {
            assert(ds.drop_last()[k] == ds[k]);
        }
        lemma_keep_none(ds.drop_last(), p);
        assert(!p(ds[ds.len() - 1]));
    }
}

/// Keeping with a predicate only position `j` satisfies keeps that device.
proof fn lemma_keep_one(ds: Seq<SerialDevice>, p: spec_fn(SerialDevice) -> bool, j: int)
    requires
        0 <= j < ds.len(),
        p(ds[j]),
        forall|k: int| 0 <= k < ds.len() && k != j ==> !p(#[trigger] ds[k]),
    ensures
        keep(ds, p) == seq![ds[j]],
    decreases ds.len(),
{
    let init = ds.drop_last();
    if j == ds.len() - 1 {
        assert forall|k: int| 0 <= k < init.len() implies !p(#[trigger] init[k]) by {
            assert(init[k] == ds[k]);
        }
        lemma_keep_none(init, p);
        assert(keep(ds, p) =~= seq![ds[j]]);
    } else {
        assert forall|k: int| 0 <= k < init.len() && k != j implies !p(#[trigger] init[k]) by {
            assert(init[k] == ds[k]);
        }
        assert(init[j] == ds[j]);
        lemma_keep_one(init, p, j);
        assert(!p(ds[ds.len() - 1]));
    }
}

/// Keeping twice is keeping with both predicates.
proof fn lemma_keep_keep(ds: Seq<SerialDevice>, p: spec_fn(SerialDevice) -> bool, q: spec_fn(SerialDevice) -> bool)
    ensures
        keep(keep(ds, p), q) == keep(ds, |d: SerialDevice| p(d) && q(d)),
    decreases ds.len(),
{
    if ds.len() > 0 {
        lemma_keep_keep(ds.drop_last(), p, q);
        let k = keep(ds.drop_last(), p);
        if p(ds.last()) {
            assert(k.push(ds.last()).drop_last() =~= k);
        }
    }
}

/// When the device comes back without a serial number to find it by, and
/// no new USB port carries its vendor and product ids, the one new USB port
/// whose product name or manufacturer equals the device's (known) one is
/// the device found.
pub proof fn lemma_unique_maker_match_wins(o: SerialDevice, paths: Seq<String>, ds: Seq<SerialDevice>, j: int)
    requires
        0 <= j < ds.len(),
        o.serial_number matches Some(s) ==> forall|k: int| 0 <= k < ds.len() ==> !(#[trigger] ds[k].serial_number
            matches Some(x) && x@ == s@),
        forall|k: int| 0 <= k < ds.len() ==> (#[trigger] ds[k].vid is Some && forall|i: int| 0 <= i < paths.len()
            ==> paths[i]@ != ds[k].system_path@) ==> !(o.vid is Some && ds[k].vid == o.vid && ds[k].pid
            == o.pid),
        ds[j].vid is Some,
        forall|i: int| 0 <= i < paths.len() ==> paths[i]@ != ds[j].system_path@,
        (o.product matches Some(p) && ds[j].product matches Some(q) && q@ == p@) || (o.manufacturer matches Some(
            m,
        ) && ds[j].manufacturer matches Some(n) && n@ == m@),
        forall|k: int| 0 <= k < ds.len() && k != j && #[trigger] ds[k].vid is Some && (forall|i: int| 0 <= i
            < paths.len() ==> paths[i]@ != ds[k].system_path@) ==> !((o.product matches Some(p)
            && ds[k].product matches Some(q) && q@ == p@) || (o.manufacturer matches Some(m)
            && ds[k].manufacturer matches Some(n) && n@ == m@)),
    ensures
        rediscovered(o, paths, ds) == Some(ds[j]),
{
    let fresh_p = |d: SerialDevice| is_new_usb(d, paths);
    let ids_p = |d: SerialDevice| same_ids(d, o);
    let maker_p = |d: SerialDevice| same_maker(d, o);
    if let Some(s) = o.serial_number {
        lemma_keep_none(ds, |d: SerialDevice| same_serial(d, s@));
    }
    assert forall|k: int| 0 <= k < ds.len() implies (#[trigger] fresh_p(ds[k])) == (ds[k].vid is Some
        && forall|i: int| 0 <= i < paths.len() ==> paths[i]@ != ds[k].system_path@) by {
        if path_listed(paths, ds[k].system_path@) {
            let i = choose|i: int| 0 <= i < paths.len() && #[trigger] paths[i]@ == ds[k].system_path@;
        }
    }
    lemma_keep_keep(ds, fresh_p, ids_p);
    lemma_keep_none(ds, |d: SerialDevice| fresh_p(d) && ids_p(d));
    lemma_keep_keep(ds, fresh_p, maker_p);
    lemma_keep_one(ds, |d: SerialDevice| fresh_p(d) && maker_p(d), j);
}

/// When no device carries the original's serial number, the one new USB
/// port with the original's (known) vendor and product ids is the device
/// found.
pub proof fn lemma_unique_ids_match_wins(o: SerialDevice, paths: Seq<String>, ds: Seq<SerialDevice>, j: int)
    requires
        0 <= j < ds.len(),
        o.serial_number matches Some(s) ==> forall|k: int| 0 <= k < ds.len() ==> !(#[trigger] ds[k].serial_number
            matches Some(x) && x@ == s@),
        o.vid is Some,
        ds[j].vid == o.vid,
        ds[j].pid == o.pid,
        forall|i: int| 0 <= i < paths.len() ==> paths[i]@ != ds[j].system_path@,
        forall|k: int| 0 <= k < ds.len() && k != j && #[trigger] ds[k].vid is Some && (forall|i: int| 0 <= i
            < paths.len() ==> paths[i]@ != ds[k].system_path@) ==> !(ds[k].vid == o.vid && ds[k].pid == o.pid),
    ensures
        rediscovered(o, paths, ds) == Some(ds[j]),
{
    let fresh_p = |d: SerialDevice| is_new_usb(d, paths);
    let ids_p = |d: SerialDevice| same_ids(d, o);
    if let Some(s) = o.serial_number {
        lemma_keep_none(ds, |d: SerialDevice| same_serial(d, s@));
    }
    assert forall|k: int| 0 <= k < ds.len() implies (#[trigger] fresh_p(ds[k])) == (ds[k].vid is Some
        && forall|i: int| 0 <= i < paths.len() ==> paths[i]@ != ds[k].system_path@) by {
        if path_listed(paths, ds[k].system_path@) {
            let i = choose|i: int| 0 <= i < paths.len() && #[trigger] paths[i]@ == ds[k].system_path@;
        }
    }
    lemma_keep_keep(ds, fresh_p, ids_p);
    lemma_keep_one(ds, |d: SerialDevice| fresh_p(d) && ids_p(d), j);
}

/// When nothing else identifies it (no serial number match, no id or name
/// match among the new USB ports), the only new USB port is the device found.
pub proof fn lemma_only_new_port_wins(o: SerialDevice, paths: Seq<String>, ds: Seq<SerialDevice>, j: int)
    requires
        0 <= j < ds.len(),
        o.serial_number matches Some(s) ==> forall|k: int| 0 <= k < ds.len() ==> !(#[trigger] ds[k].serial_number
            matches Some(x) && x@ == s@),
        ds[j].vid is Some,
        forall|i: int| 0 <= i < paths.len() ==> paths[i]@ != ds[j].system_path@,
        forall|k: int| 0 <= k < ds.len() && k != j ==> #[trigger] ds[k].vid is None || exists|i: int| 0 <= i
            < paths.len() && paths[i]@ == ds[k].system_path@,
        !(o.vid is Some && ds[j].vid == o.vid && ds[j].pid == o.pid),
        !((o.product matches Some(p) && ds[j].product matches Some(q) && q@ == p@) || (o.manufacturer matches Some(
            m,
        ) && ds[j].manufacturer matches Some(n) && n@ == m@)),
    ensures
        rediscovered(o, paths, ds) == Some(ds[j]),
{
    let fresh_p = |d: SerialDevice| is_new_usb(d, paths);
    let ids_p = |d: SerialDevice| same_ids(d, o);
    let maker_p = |d: SerialDevice| same_maker(d, o);
    if let Some(s) = o.serial_number {
        lemma_keep_none(ds, |d: SerialDevice| same_serial(d, s@));
    }
    assert forall|k: int| 0 <= k < ds.len() implies (#[trigger] fresh_p(ds[k])) == (ds[k].vid is Some
        && forall|i: int| 0 <= i < paths.len() ==> paths[i]@ != ds[k].system_path@) by {
        if path_listed(paths, ds[k].system_path@) {
            let i = choose|i: int| 0 <= i < paths.len() && #[trigger] paths[i]@ == ds[k].system_path@;
        }
    }
    lemma_keep_one(ds, fresh_p, j);
    lemma_keep_keep(ds, fresh_p, ids_p);
    lemma_keep_none(ds, |d: SerialDevice| fresh_p(d) && ids_p(d));
    lemma_keep_keep(ds, fresh_p, maker_p);
    lemma_keep_none(ds, |d: SerialDevice| fresh_p(d) && maker_p(d));
}

} // verus!

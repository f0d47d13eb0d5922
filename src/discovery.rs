//! Discovery: the devices found by a scan, and the found and lost events between scans.

use vstd::prelude::*;
use vstd::string::{StringExecFns, StringSliceAdditionalSpecFns};
use vstd::utf8::{encode_utf8, is_char_boundary, valid_utf8};
use crate::controller::{ConnectionTarget, IpAddress};
use crate::pins::HardwareDetails;

verus! {

/// How a device was discovered.
#[derive(Clone, Copy, Debug, PartialEq, Eq, Structural)]
pub enum DiscoveryMethod {
    /// USB enumeration.
    USBRaw,
    /// Peer-to-peer lookup in the local swarm.
    IrohLocalSwarm,
    /// mDNS browsing for the service.
    Mdns,
}

impl DiscoveryMethod {
    pub open spec fn name_spec(self) -> Seq<char> {
        match self {
            DiscoveryMethod::USBRaw => "USB"@,
            DiscoveryMethod::IrohLocalSwarm => "Iroh network"@,
            DiscoveryMethod::Mdns => "TCP"@,
        }
    }

    /// The name shown for the method, also the second part of a device key.
    pub fn name(&self) -> (r: String)
        ensures
            r@ == self.name_spec(),
    {
        match self {
            DiscoveryMethod::USBRaw => "USB".to_string(),
            DiscoveryMethod::IrohLocalSwarm => "Iroh network".to_string(),
            DiscoveryMethod::Mdns => "TCP".to_string(),
        }
    }
}

/// The credentials of a Wi-Fi network.
#[derive(Clone, Debug)]
pub struct SsidSpec {
    pub ssid_name: String,
    pub ssid_pass: String,
    pub ssid_security: String,
}

/// What a Wi-Fi capable device reports of its network: the network it joins and, once
/// joined, the address and port it listens on.
#[derive(Clone, Debug)]
pub struct WiFiDetails {
    pub ssid_spec: Option<SsidSpec>,
    pub tcp: Option<([u8; 4], u16)>,
}

/// A device found by a scan, with the targets a controller can connect to it by.
#[derive(Clone, Debug)]
pub struct DiscoveredDevice {
    pub discovery_method: DiscoveryMethod,
    pub hardware_details: HardwareDetails,
    pub ssid_spec: Option<SsidSpec>,
    pub hardware_connections: Vec<ConnectionTarget>,
}

/// A change between two scans, for a device key.
pub enum DiscoveryEvent {
    DeviceFound(String, DiscoveredDevice),
    DeviceLost(String),
    Error(String),
}

/// The key of a device found by a method: `serial/method`.
pub open spec fn key_spec(serial: Seq<char>, method: DiscoveryMethod) -> Seq<char> {
    serial + seq!['/'] + method.name_spec()
}

/// `serial/method`.
fn join_key(serial: &str, method: &str) -> (r: String)
    ensures
        r@ == serial@ + seq!['/'] + method@,
{
    let mut r = serial.to_string();
    r.append("/");
    r.append(method);
    proof {
        reveal_strlit("/");
    }
    assert(r@ =~= serial@ + seq!['/'] + method@);
    r
}

/// The key of a device found by a method: the same board found by two methods has two keys.
pub fn device_key(serial: &str, method: DiscoveryMethod) -> (r: String)
    ensures
        r@ == key_spec(serial@, method),
{
    let name = method.name();
    join_key(serial, name.as_str())
}

/// A discovery event as a mathematical value.
pub enum DiscoveryEventView {
    Found(Seq<char>, DiscoveredDevice),
    Lost(Seq<char>),
    Error(Seq<char>),
}

impl View for DiscoveryEvent {
    type V = DiscoveryEventView;

    open spec fn view(&self) -> DiscoveryEventView {
        match self {
            DiscoveryEvent::DeviceFound(k, d) => DiscoveryEventView::Found(k@, *d),
            DiscoveryEvent::DeviceLost(k) => DiscoveryEventView::Lost(k@),
            DiscoveryEvent::Error(k) => DiscoveryEventView::Error(k@),
        }
    }
}

pub open spec fn event_views(s: Seq<DiscoveryEvent>) -> Seq<DiscoveryEventView> {
    s.map_values(|e: DiscoveryEvent| e@)
}

pub open spec fn keys_of(cur: Seq<(String, DiscoveredDevice)>) -> Seq<Seq<char>> {
    cur.map_values(|p: (String, DiscoveredDevice)| p.0@)
}

/// The `i`th key of a scan is new: not known before and not earlier in the scan.
pub open spec fn is_new(known: Seq<Seq<char>>, keys: Seq<Seq<char>>, i: int) -> bool {
    !known.contains(keys[i]) && !keys.take(i).contains(keys[i])
}

/// The found events of a scan, in scan order: one for each key not known before, on its
/// first occurrence.
pub open spec fn found_events(known: Seq<Seq<char>>, cur: Seq<(String, DiscoveredDevice)>) -> Seq<
    DiscoveryEventView,
>
    decreases cur.len(),
{
    if cur.len() == 0 {
        Seq::empty()
    } else if is_new(known, keys_of(cur), cur.len() - 1) {
        found_events(known, cur.drop_last()).push(
            DiscoveryEventView::Found(cur.last().0@, cur.last().1),
        )
    } else {
        found_events(known, cur.drop_last())
    }
}

/// The lost events of a scan: one for each known key that the scan did not see, in the
/// order they were known.
pub open spec fn lost_events(known: Seq<Seq<char>>, keys: Seq<Seq<char>>) -> Seq<DiscoveryEventView>
    decreases known.len(),
{
    if known.len() == 0 {
        Seq::empty()
    } else if !keys.contains(known.last()) {
        lost_events(known.drop_last(), keys).push(DiscoveryEventView::Lost(known.last()))
    } else {
        lost_events(known.drop_last(), keys)
    }
}

/// After a resolution of `k`, `k` is known, so a second resolution of it finds nothing.
pub proof fn lemma_resolved_twice(known: Seq<Seq<char>>, k: Seq<char>)
    ensures
        (if known.contains(k) {
            known
        } else {
            known.push(k)
        }).contains(k),
{
    if !known.contains(k) {
        assert(known.push(k)[known.len() as int] == k);
    }
}

/// The keys of `s` other than `k`, in order.
pub open spec fn without(s: Seq<Seq<char>>, k: Seq<char>) -> Seq<Seq<char>>
    decreases s.len(),
{
    if s.len() == 0 {
        Seq::empty()
    } else if s.last() == k {
        without(s.drop_last(), k)
    } else {
        without(s.drop_last(), k).push(s.last())
    }
}

/// The keys of a scan, each once, in the order first seen.
pub open spec fn distinct_keys(keys: Seq<Seq<char>>) -> Seq<Seq<char>>
    decreases keys.len(),
{
    if keys.len() == 0 {
        Seq::empty()
    } else if keys.drop_last().contains(keys.last()) {
        distinct_keys(keys.drop_last())
    } else {
        distinct_keys(keys.drop_last()).push(keys.last())
    }
}


pub open spec fn strings_view(v: Seq<String>) -> Seq<Seq<char>> {
    v.map_values(|s: String| s@)
}

proof fn lemma_push_contains(s: Seq<Seq<char>>, x: Seq<char>, k: Seq<char>)
    ensures
        s.push(x).contains(k) <==> s.contains(k) || k == x,
{
    if s.push(x).contains(k) {
        let i = choose|i: int| 0 <= i < s.push(x).len() && s.push(x)[i] == k;
        if i < s.len() {
            assert(s[i] == k);
        }
    }
    if s.contains(k) {
        let i = choose|i: int| 0 <= i < s.len() && s[i] == k;
        assert(s.push(x)[i] == k);
    }
    if k == x {
        assert(s.push(x)[s.len() as int] == k);
    }
}

pub proof fn lemma_distinct_keys_contains(keys: Seq<Seq<char>>, k: Seq<char>)
    ensures
        distinct_keys(keys).contains(k) <==> keys.contains(k),
    decreases keys.len(),
{
    if keys.len() > 0 {
        let t = keys.drop_last();
        let l = keys.last();
        lemma_distinct_keys_contains(t, k);
        assert(keys =~= t.push(l));
        lemma_push_contains(t, l, k);
        if !t.contains(l) {
            lemma_push_contains(distinct_keys(t), l, k);
        }
    } else {
        assert(!keys.contains(k));
        assert(!distinct_keys(keys).contains(k));
    }
}

proof fn lemma_found_none(known: Seq<Seq<char>>, cur: Seq<(String, DiscoveredDevice)>)
    requires
        forall|i: int| 0 <= i < cur.len() ==> known.contains(#[trigger] keys_of(cur)[i]),
    ensures
        found_events(known, cur) == Seq::<DiscoveryEventView>::empty(),
    decreases cur.len(),
{
    if cur.len() > 0 {
        let t = cur.drop_last();
        assert forall|i: int| 0 <= i < t.len() implies known.contains(#[trigger] keys_of(t)[i]) by {
            assert(keys_of(cur)[i] == keys_of(t)[i]);
        }
        lemma_found_none(known, t);
        assert(known.contains(keys_of(cur)[cur.len() - 1]));
    }
}

/// Scanning again and seeing the same devices finds nothing new: a device seen by two scans
/// in a row is found once.
pub proof fn lemma_rescan_finds_nothing(known: Seq<Seq<char>>, cur: Seq<(String, DiscoveredDevice)>)
    ensures
        found_events(distinct_keys(keys_of(cur)), cur) == Seq::<DiscoveryEventView>::empty(),
{
    let d = distinct_keys(keys_of(cur));
    assert forall|i: int| 0 <= i < cur.len() implies d.contains(#[trigger] keys_of(cur)[i]) by {
        lemma_distinct_keys_contains(keys_of(cur), keys_of(cur)[i]);
        assert(keys_of(cur).contains(keys_of(cur)[i]));
    }
    lemma_found_none(d, cur);
}

pub open spec fn found_key(e: DiscoveryEventView) -> Seq<char> {
    match e {
        DiscoveryEventView::Found(k, _) => k,
        DiscoveryEventView::Lost(k) => k,
        DiscoveryEventView::Error(k) => k,
    }
}

/// Within one scan a key is found at most once, however often the scan lists it.
pub proof fn lemma_found_once(known: Seq<Seq<char>>, cur: Seq<(String, DiscoveredDevice)>)
    ensures
        forall|i: int, j: int|
            0 <= i < j < found_events(known, cur).len() ==> found_key(
                #[trigger] found_events(known, cur)[i],
            ) != found_key(#[trigger] found_events(known, cur)[j]),
        forall|i: int|
            0 <= i < found_events(known, cur).len() ==> keys_of(cur).contains(
                found_key(#[trigger] found_events(known, cur)[i]),
            ),
    decreases cur.len(),
{
    if cur.len() > 0 {
        let t = cur.drop_last();
        lemma_found_once(known, t);
        let f = found_events(known, t);
        let n = cur.len() - 1;
        assert forall|i: int| 0 <= i < f.len() implies keys_of(cur).contains(found_key(#[trigger] f[i])) by {
            let j = choose|j: int| 0 <= j < keys_of(t).len() && keys_of(t)[j] == found_key(f[i]);
            assert(keys_of(cur)[j] == keys_of(t)[j]);
        }
        if is_new(known, keys_of(cur), n) {
            let g = f.push(DiscoveryEventView::Found(cur.last().0@, cur.last().1));
            assert(keys_of(cur)[n] == cur.last().0@);
            assert forall|i: int| 0 <= i < f.len() implies found_key(#[trigger] g[i]) != cur.last().0@ by {
                let j = choose|j: int| 0 <= j < keys_of(t).len() && keys_of(t)[j] == found_key(f[i]);
                assert(keys_of(cur).take(n)[j] == keys_of(t)[j]);
            }
            assert forall|i: int| 0 <= i < g.len() implies keys_of(cur).contains(found_key(#[trigger] g[i])) by {
                if i == f.len() {
                    assert(keys_of(cur)[n] == found_key(g[i]));
                }
            }
        }
    }
}

fn contains_string(v: &Vec<String>, k: &String) -> (r: bool)
    ensures
        r == strings_view(v@).contains(k@),
{
    let mut i: usize = 0;
    while i < v.len()
        invariant
            i <= v@.len(),
            forall|j: int| 0 <= j < i ==> v@[j]@ != k@,
        decreases v@.len() - i,
    {
        if v[i] == *k {
            assert(strings_view(v@)[i as int] == k@);
            return true;
        }
        i = i + 1;
    }
    proof {
        if strings_view(v@).contains(k@) {
            let j = choose|j: int| 0 <= j < strings_view(v@).len() && strings_view(v@)[j] == k@;
            assert(v@[j]@ == k@);
        }
    }
    false
}

/// The keys seen by the last scan.
pub struct DiscoveryTracker {
    known: Vec<String>,
}

impl View for DiscoveryTracker {
    type V = Seq<Seq<char>>;

    closed spec fn view(&self) -> Seq<Seq<char>> {
        strings_view(self.known@)
    }
}

impl DiscoveryTracker {
    /// No device seen yet.
    pub fn new() -> (r: DiscoveryTracker)
        ensures
            r@ == Seq::<Seq<char>>::empty(),
    {
        let r = DiscoveryTracker { known: Vec::new() };
        assert(r@ =~= Seq::<Seq<char>>::empty());
        r
    }

    /// A service resolution announced the device keyed `key`: found, unless it is already
    /// known, so a repeated announcement gives one found event.
    pub fn resolved(&mut self, key: String, device: DiscoveredDevice) -> (r: Option<DiscoveryEvent>)
        ensures
            old(self)@.contains(key@) ==> r is None && final(self)@ == old(self)@,
            !old(self)@.contains(key@) ==> r is Some && r->Some_0@ == DiscoveryEventView::Found(key@, device)
                && final(self)@ == old(self)@.push(key@),
    {
        if contains_string(&self.known, &key) {
            return None;
        }
        let ghost before = self@;
        let ghost kv = key@;
        self.known.push(key.clone());
        assert(self@ =~= before.push(kv));
        Some(DiscoveryEvent::DeviceFound(key, device))
    }

    /// The service of the device keyed `key` was removed: lost, if it was known.
    pub fn removed(&mut self, key: &String) -> (r: Option<DiscoveryEvent>)
        ensures
            old(self)@.contains(key@) ==> r is Some && r->Some_0@ == DiscoveryEventView::Lost(key@)
                && final(self)@ == without(old(self)@, key@),
            !old(self)@.contains(key@) ==> r is None && final(self)@ == old(self)@,
    {
        if !contains_string(&self.known, key) {
            return None;
        }
        let ghost old_known = self@;
        let mut kept: Vec<String> = Vec::new();
        let mut i: usize = 0;
        while i < self.known.len()
            invariant
                i <= old_known.len(),
                self@ == old_known,
                strings_view(kept@) == without(old_known.take(i as int), key@),
            decreases old_known.len() - i,
        {
            proof {
                assert(old_known.take(i + 1).drop_last() =~= old_known.take(i as int));
                assert(old_known.take(i + 1).last() == self.known@[i as int]@);
            }
            if self.known[i] != *key {
                let ghost before = kept@;
                kept.push(self.known[i].clone());
                assert(strings_view(kept@) =~= strings_view(before).push(self.known@[i as int]@));
            }
            i = i + 1;
        }
        assert(old_known.take(i as int) =~= old_known);
        self.known = kept;
        Some(DiscoveryEvent::DeviceLost(key.clone()))
    }

    /// Take the devices of one scan, keyed by `serial/method`: a device not seen by the last
    /// scan is found, a device of the last scan not seen now is lost.
    pub fn scan(&mut self, current: Vec<(String, DiscoveredDevice)>) -> (r: Vec<DiscoveryEvent>)
        ensures
            event_views(r@) == found_events(old(self)@, current@) + lost_events(
                old(self)@,
                keys_of(current@),
            ),
            final(self)@ == distinct_keys(keys_of(current@)),
    {
        let ghost all = current@;
        let ghost known = self@;
        let mut current = current;
        let mut seen: Vec<String> = Vec::new();
        let mut events: Vec<DiscoveryEvent> = Vec::new();
        let ghost mut i: int = 0;
        while current.len() > 0
            invariant
                0 <= i <= all.len(),
                current@ == all.skip(i),
                known == self@,
                strings_view(seen@) == distinct_keys(keys_of(all.take(i))),
                event_views(events@) == found_events(known, all.take(i)),
            decreases current@.len(),
        {
            let (k, d) = current.remove(0);
            proof {
                assert(all[i] == (k, d));
                assert(all.take(i + 1).drop_last() =~= all.take(i));
                assert(keys_of(all.take(i + 1)).drop_last() =~= keys_of(all.take(i)));
                assert(keys_of(all.take(i + 1)).take(i) =~= keys_of(all.take(i)));
                assert(keys_of(all.take(i + 1))[i] == k@);
                lemma_distinct_keys_contains(keys_of(all.take(i)), k@);
            }
            let in_known = contains_string(&self.known, &k);
            let in_seen = contains_string(&seen, &k);
            if !in_seen {
                let ghost before = seen@;
                seen.push(k.clone());
                assert(strings_view(seen@) =~= strings_view(before).push(k@));
            }
            if !in_known && !in_seen {
                let ghost before = events@;
                events.push(DiscoveryEvent::DeviceFound(k, d));
                assert(event_views(events@) =~= event_views(before).push(DiscoveryEventView::Found(all[i].0@, all[i].1)));
            }
            proof {
                i = i + 1;
                assert(current@ =~= all.skip(i));
            }
        }
        proof {
            assert(all.take(i) =~= all);
        }
        let ghost found = events@;
        let ghost keys = keys_of(all);
        let mut j: usize = 0;
        while j < self.known.len()
            invariant
                j <= self.known@.len(),
                known == self@,
                strings_view(seen@) == distinct_keys(keys),
                event_views(events@) == event_views(found) + lost_events(known.take(j as int), keys),
            decreases self.known@.len() - j,
        {
            proof {
                assert(known.take(j + 1).drop_last() =~= known.take(j as int));
                assert(known.take(j + 1).last() == self.known@[j as int]@);
                lemma_distinct_keys_contains(keys, self.known@[j as int]@);
            }
            if !contains_string(&seen, &self.known[j]) {
                let ghost before = events@;
                events.push(DiscoveryEvent::DeviceLost(self.known[j].clone()));
                assert(event_views(events@) =~= event_views(before).push(
                    DiscoveryEventView::Lost(self.known@[j as int]@),
                ));
            }
            j = j + 1;
        }
        proof {
            assert(known.take(j as int) =~= known);
        }
        self.known = seen;
        events
    }
}


/// A device announced by mDNS with the TXT properties `Serial`, `Model`, `AppName` and
/// `AppVersion`, reachable over TCP at `ip`:`port`. It is keyed `serial/TCP`.
pub fn mdns_device(
    serial: String,
    model: String,
    app_name: String,
    app_version: String,
    ip: [u8; 4],
    port: u16,
) -> (r: (String, DiscoveredDevice))
    ensures
        r.0@ == key_spec(serial@, DiscoveryMethod::Mdns),
        r.1.discovery_method == DiscoveryMethod::Mdns,
        r.1.hardware_details.serial@ == serial@,
        r.1.hardware_details.model == model,
        r.1.hardware_details.app_name == app_name,
        r.1.hardware_details.app_version == app_version,
        r.1.hardware_details.hardware@.len() == 0,
        r.1.hardware_details.revision@.len() == 0,
        r.1.hardware_details.wifi,
        r.1.ssid_spec is None,
        r.1.hardware_connections@ == seq![ConnectionTarget::Tcp(IpAddress::V4(ip), port)],
{
    let key = device_key(serial.as_str(), DiscoveryMethod::Mdns);
    let mut connections: Vec<ConnectionTarget> = Vec::new();
    connections.push(ConnectionTarget::Tcp(IpAddress::V4(ip), port));
    let details = HardwareDetails {
        hardware: String::new(),
        revision: String::new(),
        serial,
        model,
        wifi: true,
        app_name,
        app_version,
    };
    (
        key,
        DiscoveredDevice {
            discovery_method: DiscoveryMethod::Mdns,
            hardware_details: details,
            ssid_spec: None,
            hardware_connections: connections,
        },
    )
}

/// A device found on USB with `details`, and, for a Wi-Fi capable one, what it reports of
/// its network. It can be reached over USB by its serial number and, when it listens on TCP,
/// over TCP too. It is keyed `serial/USB`.
pub fn usb_device(details: HardwareDetails, wifi: Option<WiFiDetails>) -> (r: (String, DiscoveredDevice))
    ensures
        r.0@ == key_spec(details.serial@, DiscoveryMethod::USBRaw),
        r.1.discovery_method == DiscoveryMethod::USBRaw,
        r.1.hardware_details == details,
        r.1.ssid_spec == match wifi {
            Some(w) => w.ssid_spec,
            None => None,
        },
        r.1.hardware_connections@.len() >= 1,
        r.1.hardware_connections@.last() is Usb,
        r.1.hardware_connections@.last()->Usb_0@ == details.serial@,
        match wifi {
            Some(WiFiDetails { ssid_spec: _, tcp: Some((ip, port)) }) => r.1.hardware_connections@.len() == 2
                && r.1.hardware_connections@[0] == ConnectionTarget::Tcp(IpAddress::V4(ip), port),
            _ => r.1.hardware_connections@.len() == 1,
        },
{
    let key = device_key(details.serial.as_str(), DiscoveryMethod::USBRaw);
    let mut connections: Vec<ConnectionTarget> = Vec::new();
    let ssid_spec = match wifi {
        Some(w) => {
            if let Some((ip, port)) = w.tcp {
                connections.push(ConnectionTarget::Tcp(IpAddress::V4(ip), port));
            }
            w.ssid_spec
        },
        None => None,
    };
    connections.push(ConnectionTarget::Usb(details.serial.clone()));
    (
        key,
        DiscoveredDevice {
            discovery_method: DiscoveryMethod::USBRaw,
            hardware_details: details,
            ssid_spec,
            hardware_connections: connections,
        },
    )
}


/// The byte of `.`, which separates an mDNS instance name from its service type.
pub const DOT: u8 = 46;

/// `i` is the position of the first `.` of `b`.
pub open spec fn first_dot(b: Seq<u8>, i: int) -> bool {
    &&& 0 <= i < b.len()
    &&& b[i] == DOT
    &&& forall|j: int| 0 <= j < i ==> b[j] != DOT
}

/// A TCP device's mDNS service was removed: the key it was found under, from the service's
/// full name `serial.rest`. `None` when the name has no `.`.
pub fn mdns_removed_key(fullname: &str) -> (r: Option<String>)
    ensures
        match r {
            Some(k) => exists|i: int, serial: Seq<char>|
                first_dot(fullname.spec_bytes(), i) && encode_utf8(serial) == fullname.spec_bytes().take(i)
                    && k@ == key_spec(serial, DiscoveryMethod::Mdns),
            None => forall|j: int| 0 <= j < fullname.spec_bytes().len() ==> fullname.spec_bytes()[j] != DOT,
        },
{
    let bytes = fullname.as_bytes();
    let mut i: usize = 0;
    while i < bytes.len() && bytes[i] != DOT
        invariant
            i <= bytes@.len(),
            bytes@ == fullname.spec_bytes(),
            forall|j: int| 0 <= j < i ==> bytes@[j] != DOT,
        decreases bytes@.len() - i,
    {
        i = i + 1;
    }
    if i == bytes.len() {
        return None;
    }
    proof {
        broadcast use vstd::utf8::encode_utf8_valid_utf8;
        assert(valid_utf8(fullname.spec_bytes()));
        vstd::utf8::is_char_boundary_iff_is_leading_byte(fullname.spec_bytes(), i as int);
        assert(vstd::utf8::is_leading_byte_width_1(fullname.spec_bytes()[i as int]));
        assert(is_char_boundary(fullname.spec_bytes(), i as int));
    }
    let (serial, _rest) = fullname.split_at(i);
    let key = device_key(serial, DiscoveryMethod::Mdns);
    proof {
        assert(serial.spec_bytes() == encode_utf8(serial@));
        assert(first_dot(fullname.spec_bytes(), i as int));
    }
    Some(key)
}

} // verus!

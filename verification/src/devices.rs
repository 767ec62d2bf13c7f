//! The list of registered devices (one camera per classroom), as kept in
//! `devices.json`: reading the list from the file's text and writing it
//! back, adding a device, renaming and deleting it by its MAC.
use vstd::prelude::*;
use vstd::utf8::*;
use crate::json::{is_json, json_string_member, string_member};
use crate::text::{opt_text, owned};

verus! {

/// A device of `devices.json`. Each of the first four fields is `None` when
/// the entry has no such member or it is not a string. `source` is the
/// entry's own JSON text as it was read; the entry is written back as that
/// value with the string fields put over it, so that the members the
/// library does not read are kept.
#[derive(Debug, Clone)]
pub struct Device {
    /// The Firebase user id of the camera.
    pub uid: Option<String>,
    /// The classroom's name.
    pub name: Option<String>,
    /// The camera's MAC address.
    pub mac: Option<String>,
    /// The last status stored for the classroom.
    pub status: Option<String>,
    /// The entry's JSON text; `{}` for a device added by the application.
    pub source: String,
}

/// A device as plain text values.
pub struct DeviceView {
    pub uid: Option<Seq<char>>,
    pub name: Option<Seq<char>>,
    pub mac: Option<Seq<char>>,
    pub status: Option<Seq<char>>,
    pub source: Seq<char>,
}

impl View for Device {
    type V = DeviceView;

    open spec fn view(&self) -> DeviceView {
        DeviceView {
            uid: opt_text(self.uid),
            name: opt_text(self.name),
            mac: opt_text(self.mac),
            status: opt_text(self.status),
            source: self.source@,
        }
    }
}

/// The devices of a list, as plain values.
pub open spec fn device_views(ds: Seq<Device>) -> Seq<DeviceView> {
    ds.map_values(|d: Device| d@)
}

/// What `serde_json` reads from `doc` as an array: `None` when `doc` is not
/// JSON or not an array; else the text of each element, in order, as
/// `Value::to_string` writes it.
pub uninterp spec fn json_array_elements(doc: Seq<u8>) -> Option<Seq<Seq<char>>>;

/// The texts of a list of strings.
pub open spec fn texts(v: Seq<String>) -> Seq<Seq<char>> {
    v.map_values(|s: String| s@)
}

/// Parses `doc` with `serde_json::from_slice` into a `serde_json::Value`,
/// takes its elements with `Value::as_array` and writes each back to text
/// with `Value::to_string`. The contract names the result and states nothing
/// more: the JSON grammar is `serde_json`'s and is not written out here.
#[verifier::external_body]
fn array_elements(doc: &[u8]) -> (r: Option<Vec<String>>)
    ensures
        r is None <==> json_array_elements(doc@) is None,
        r matches Some(v) ==> json_array_elements(doc@) == Some(texts(v@)),
{
    match serde_json::from_slice::<serde_json::Value>(doc) {
        Ok(value) => value
            .as_array()
            .map(|items| items.iter().map(serde_json::Value::to_string).collect()),
        Err(_) => None,
    }
}

/// The string member `key` of the JSON text `e`: `None` when `e` is not
/// JSON, not an object, or has no such string member.
pub open spec fn element_member(e: Seq<char>, key: Seq<char>) -> Option<Seq<char>> {
    if is_json(encode_utf8(e)) {
        json_string_member(encode_utf8(e), key)
    } else {
        None
    }
}

/// The device that an element of `devices.json` stands for: its string
/// members `uid`, `name`, `mac` and `status`, and its own text.
pub open spec fn device_of_element(e: Seq<char>) -> DeviceView {
    DeviceView {
        uid: element_member(e, "uid"@),
        name: element_member(e, "name"@),
        mac: element_member(e, "mac"@),
        status: element_member(e, "status"@),
        source: e,
    }
}

/// The devices that the elements stand for.
pub open spec fn devices_of_elements(es: Seq<Seq<char>>) -> Seq<DeviceView> {
    es.map_values(|e: Seq<char>| device_of_element(e))
}

/// The string member `key` of the JSON text `e`.
fn member_text(e: &str, key: &str) -> (r: Option<String>)
    ensures
        opt_text(r) == element_member(e@, key@),
{
    match string_member(e.as_bytes(), key) {
        Some(m) => m,
        None => None,
    }
}

/// The device that an element of `devices.json` stands for.
pub fn device_from_element(e: &str) -> (r: Device)
    ensures
        r@ == device_of_element(e@),
{
    Device {
        uid: member_text(e, "uid"),
        name: member_text(e, "name"),
        mac: member_text(e, "mac"),
        status: member_text(e, "status"),
        source: owned(e),
    }
}

/// The devices of `devices.json`, given the file's content when it could be
/// read: none when it could not, or when the text is not a JSON array; else
/// one device for each element, in order.
pub fn devices_from_text(doc: Option<&[u8]>) -> (r: Vec<Device>)
    ensures
        doc is None ==> r.len() == 0,
        doc matches Some(d) ==> match json_array_elements(d@) {
            Some(es) => device_views(r@) == devices_of_elements(es),
            None => r.len() == 0,
        },
{
    let d = match doc {
        Some(d) => d,
        None => return Vec::new(),
    };
    let elems = match array_elements(d) {
        Some(v) => v,
        None => return Vec::new(),
    };
    let mut out: Vec<Device> = Vec::new();
    let n = elems.len();
    for i in 0..n
        invariant
            n == elems.len(),
            device_views(out@) == devices_of_elements(texts(elems@.take(i as int))),
    {
        let dev = device_from_element(elems[i].as_str());
        let ghost before = out@;
        out.push(dev);
        let ghost t = texts(elems@.take(i as int));
        assert(texts(elems@.take(i + 1)) =~= t.push(elems@[i as int]@));
        assert(device_views(out@) =~= device_views(before).push(dev@));
        assert(devices_of_elements(t.push(elems@[i as int]@)) =~= devices_of_elements(t).push(
            device_of_element(elems@[i as int]@),
        ));
    }
    assert(elems@.take(n as int) =~= elems@);
    out
}

/// What `serde_json` gives for the JSON text `doc` with its member `key` set
/// to the string `value`: `None` when `doc` is not JSON or not an object;
/// else the object, with that member set, as `Value::to_string` writes it.
pub uninterp spec fn json_with_member(doc: Seq<char>, key: Seq<char>, value: Seq<char>) -> Option<Seq<char>>;

/// Parses `doc` with `serde_json::from_str` into a `serde_json::Value`; when
/// it is an object (`Value::as_object_mut`), sets its member `key` to the
/// string `value` with `Map::insert` and writes it back with
/// `Value::to_string`. The contract names the result and states nothing
/// more: the JSON grammar is `serde_json`'s and is not written out here.
#[verifier::external_body]
fn with_member(doc: &str, key: &str, value: &str) -> (r: Option<String>)
    ensures
        opt_text(r) == json_with_member(doc@, key@, value@),
{
    match serde_json::from_str::<serde_json::Value>(doc) {
        Ok(mut v) => match v.as_object_mut() {
            Some(object) => {
                object.insert(key.to_owned(), serde_json::Value::String(value.to_owned()));
                Some(v.to_string())
            },
            None => None,
        },
        Err(_) => None,
    }
}

/// What `serde_json::to_string_pretty` writes for the array of the JSON
/// values whose texts are `elems`, each read with `serde_json::from_str`:
/// the text, or the message of the first error.
pub uninterp spec fn json_pretty_array(elems: Seq<Seq<char>>) -> Result<Seq<char>, Seq<char>>;

/// Reads each of `elems` with `serde_json::from_str` into a
/// `serde_json::Value` and writes the array of them with
/// `serde_json::to_string_pretty`; an error gives its message. The contract
/// names the result and states nothing more: `serde_json`'s grammar and
/// layout are not written out here.
#[verifier::external_body]
fn pretty_array(elems: &Vec<String>) -> (r: Result<String, String>)
    ensures
        match r {
            Ok(t) => json_pretty_array(texts(elems@)) == Ok::<Seq<char>, Seq<char>>(t@),
            Err(m) => json_pretty_array(texts(elems@)) == Err::<Seq<char>, Seq<char>>(m@),
        },
{
    let values: Result<Vec<serde_json::Value>, serde_json::Error> = elems
        .iter()
        .map(|e| serde_json::from_str(e))
        .collect();
    match values {
        Ok(vs) => serde_json::to_string_pretty(&vs).map_err(|e| e.to_string()),
        Err(e) => Err(e.to_string()),
    }
}

/// `doc` with its member `key` set to `value`, where there is a value and
/// `doc` is a JSON object; else `doc` as it is.
pub open spec fn overlay(doc: Seq<char>, key: Seq<char>, value: Option<Seq<char>>) -> Seq<char> {
    match value {
        Some(v) => match json_with_member(doc, key, v) {
            Some(t) => t,
            None => doc,
        },
        None => doc,
    }
}

/// The JSON text written for a device: its own text with its string fields
/// `uid`, `name`, `mac` and `status` set over it.
pub open spec fn entry_text(d: DeviceView) -> Seq<char> {
    overlay(
        overlay(overlay(overlay(d.source, "uid"@, d.uid), "name"@, d.name), "mac"@, d.mac),
        "status"@,
        d.status,
    )
}

/// The JSON texts written for the devices.
pub open spec fn entry_texts(ds: Seq<DeviceView>) -> Seq<Seq<char>> {
    ds.map_values(|d: DeviceView| entry_text(d))
}

/// `doc` with its member `key` set to `value`, where there is a value and
/// `doc` is a JSON object.
fn overlay_member(doc: String, key: &str, value: &Option<String>) -> (r: String)
    ensures
        r@ == overlay(doc@, key@, opt_text(*value)),
{
    match value {
        Some(v) => match with_member(doc.as_str(), key, v.as_str()) {
            Some(t) => t,
            None => doc,
        },
        None => doc,
    }
}

/// The JSON text written for a device: the entry's own text, with the
/// device's string fields set over it, so that its other members are kept.
pub fn device_to_text(d: &Device) -> (r: String)
    ensures
        r@ == entry_text(d@),
{
    let t = overlay_member(d.source.clone(), "uid", &d.uid);
    let t = overlay_member(t, "name", &d.name);
    let t = overlay_member(t, "mac", &d.mac);
    overlay_member(t, "status", &d.status)
}

/// The text of `devices.json` for the devices: the array of their entries,
/// pretty-printed, or the message of the error that stopped it.
pub fn devices_to_text(devices: &Vec<Device>) -> (r: Result<String, String>)
    ensures
        match r {
            Ok(t) => json_pretty_array(entry_texts(device_views(devices@))) == Ok::<Seq<char>, Seq<char>>(t@),
            Err(m) => json_pretty_array(entry_texts(device_views(devices@))) == Err::<Seq<char>, Seq<char>>(m@),
        },
{
    let mut entries: Vec<String> = Vec::new();
    let n = devices.len();
    for i in 0..n
        invariant
            n == devices.len(),
            texts(entries@) == entry_texts(device_views(devices@.take(i as int))),
    {
        let t = device_to_text(&devices[i]);
        let ghost before = entries@;
        entries.push(t);
        let ghost p = device_views(devices@.take(i as int));
        assert(device_views(devices@.take(i + 1)) =~= p.push(devices@[i as int]@));
        assert(entry_texts(p.push(devices@[i as int]@)) =~= entry_texts(p).push(entry_text(devices@[i as int]@)));
        assert(texts(entries@) =~= texts(before).push(t@));
    }
    assert(devices@.take(n as int) =~= devices@);
    pretty_array(&entries)
}

/// Why a change to the device list was refused.
#[derive(Debug)]
pub enum DeviceError {
    /// No device has this MAC address.
    NotFound(String),
}

impl DeviceError {
    /// The message shown for the error.
    pub open spec fn spec_message(&self) -> Seq<char> {
        match self {
            DeviceError::NotFound(mac) => "Device with MAC "@ + mac@ + " not found locally"@,
        }
    }

    /// The message shown for the error: "Device with MAC … not found locally".
    pub fn message(&self) -> (r: String)
        ensures
            r@ == self.spec_message(),
    {
        match self {
            DeviceError::NotFound(mac) => {
                "Device with MAC ".to_owned().concat(mac.as_str()).concat(" not found locally")
            },
        }
    }
}

/// The position of the first device whose MAC is `mac`, or -1.
pub open spec fn first_with_mac(ds: Seq<DeviceView>, mac: Seq<char>) -> int
    decreases ds.len(),
{
    if ds.len() == 0 {
        -1
    } else if first_with_mac(ds.drop_last(), mac) >= 0 {
        first_with_mac(ds.drop_last(), mac)
    } else if ds.last().mac == Some(mac) {
        ds.len() - 1
    } else {
        -1
    }
}

/// The device that `save_device` adds.
pub open spec fn new_device(uid: Seq<char>, name: Seq<char>, mac: Seq<char>) -> DeviceView {
    DeviceView { uid: Some(uid), name: Some(name), mac: Some(mac), status: None, source: "{}"@ }
}

/// The list after the first device with MAC `mac` was renamed to `name`.
pub open spec fn renamed(ds: Seq<DeviceView>, mac: Seq<char>, name: Seq<char>) -> Seq<DeviceView> {
    let i = first_with_mac(ds, mac);
    ds.update(i, DeviceView { name: Some(name), ..ds[i] })
}

/// The list after the first device with MAC `mac` was removed.
pub open spec fn deleted(ds: Seq<DeviceView>, mac: Seq<char>) -> Seq<DeviceView> {
    ds.remove(first_with_mac(ds, mac))
}

/// What `first_with_mac` gives: -1, or a device with that MAC and none before it.
pub proof fn lemma_first_with_mac(ds: Seq<DeviceView>, mac: Seq<char>)
    ensures
        -1 <= first_with_mac(ds, mac) < ds.len(),
        first_with_mac(ds, mac) >= 0 ==> ds[first_with_mac(ds, mac)].mac == Some(mac),
        forall|j: int|
            0 <= j < ds.len() && (first_with_mac(ds, mac) == -1 || j < first_with_mac(ds, mac))
                ==> ds[j].mac != Some(mac),
    decreases ds.len(),
{
    if ds.len() > 0 {
        let p = ds.drop_last();
        lemma_first_with_mac(p, mac);
        assert forall|j: int|
            0 <= j < ds.len() && (first_with_mac(ds, mac) == -1 || j < first_with_mac(ds, mac))
                implies ds[j].mac != Some(mac) by {
            if j < p.len() {
                assert(ds[j] == p[j]);
            }
        }
    }
}

/// Whether the device has MAC `mac`.
fn has_mac(d: &Device, mac: &String) -> (r: bool)
    ensures
        r == (d@.mac == Some(mac@)),
{
    match &d.mac {
        Some(m) => *m == *mac,
        None => false,
    }
}

/// The position of the first device whose MAC is `mac`.
pub fn find_device(devices: &Vec<Device>, mac: &str) -> (r: Option<usize>)
    ensures
        match r {
            Some(i) => i as int == first_with_mac(device_views(devices@), mac@),
            None => first_with_mac(device_views(devices@), mac@) == -1,
        },
{
    let m = owned(mac);
    let ghost ds = device_views(devices@);
    proof {
        lemma_first_with_mac(ds, mac@);
    }
    let n = devices.len();
    for i in 0..n
        invariant
            n == devices.len(),
            ds == device_views(devices@),
            m@ == mac@,
            -1 <= first_with_mac(ds, mac@) < ds.len(),
            first_with_mac(ds, mac@) >= 0 ==> ds[first_with_mac(ds, mac@)].mac == Some(mac@),
            forall|j: int|
                0 <= j < ds.len() && (first_with_mac(ds, mac@) == -1 || j < first_with_mac(
                    ds,
                    mac@,
                )) ==> ds[j].mac != Some(mac@),
            forall|j: int| 0 <= j < i ==> ds[j].mac != Some(mac@),
    {
        assert(ds[i as int] == devices@[i as int]@);
        if has_mac(&devices[i], &m) {
            return Some(i);
        }
    }
    None
}

/// Adds a device at the end of the list.
pub fn save_device(devices: &mut Vec<Device>, uid: &str, name: &str, mac: &str)
    ensures
        device_views(final(devices)@) == device_views(old(devices)@).push(
            new_device(uid@, name@, mac@),
        ),
{
    let d = Device {
        uid: Some(owned(uid)),
        name: Some(owned(name)),
        mac: Some(owned(mac)),
        status: None,
        source: "{}".to_owned(),
    };
    devices.push(d);
    assert(device_views(devices@) =~= device_views(old(devices)@).push(new_device(uid@, name@, mac@)));
}

/// Renames the first device with MAC `mac`. Refused, and the list left as it
/// was, when no device has that MAC.
pub fn rename_device(devices: &mut Vec<Device>, mac: &str, name: &str) -> (r: Result<(), DeviceError>)
    ensures
        first_with_mac(device_views(old(devices)@), mac@) == -1 <==> r is Err,
        r is Err ==> final(devices)@ == old(devices)@,
        r matches Err(e) ==> e.spec_message() == "Device with MAC "@ + mac@ + " not found locally"@,
        r is Ok ==> device_views(final(devices)@) == renamed(device_views(old(devices)@), mac@, name@),
{
    match find_device(devices, mac) {
        Some(i) => {
            let ghost before = device_views(devices@);
            proof {
                lemma_first_with_mac(before, mac@);
            }
            devices[i].name = Some(owned(name));
            assert(device_views(devices@) =~= renamed(before, mac@, name@));
            Ok(())
        },
        None => Err(DeviceError::NotFound(owned(mac))),
    }
}

/// Deletes the first device with MAC `mac`. Refused, and the list left as it
/// was, when no device has that MAC.
pub fn delete_device(devices: &mut Vec<Device>, mac: &str) -> (r: Result<(), DeviceError>)
    ensures
        first_with_mac(device_views(old(devices)@), mac@) == -1 <==> r is Err,
        r matches Err(e) ==> e.spec_message() == "Device with MAC "@ + mac@ + " not found locally"@,
        r is Err ==> final(devices)@ == old(devices)@,
        r is Ok ==> device_views(final(devices)@) == deleted(device_views(old(devices)@), mac@),
{
    match find_device(devices, mac) {
        Some(i) => {
            let ghost before = device_views(devices@);
            proof {
                lemma_first_with_mac(before, mac@);
            }
            devices.remove(i);
            assert(device_views(devices@) =~= deleted(before, mac@));
            Ok(())
        },
        None => Err(DeviceError::NotFound(owned(mac))),
    }
}

/// `first_with_mac` looks at the MACs only.
proof fn lemma_first_with_mac_macs(a: Seq<DeviceView>, b: Seq<DeviceView>, mac: Seq<char>)
    requires
        a.len() == b.len(),
        forall|j: int| 0 <= j < a.len() ==> #[trigger] a[j].mac == b[j].mac,
    ensures
        first_with_mac(a, mac) == first_with_mac(b, mac),
    decreases a.len(),
{
    if a.len() > 0 {
        assert forall|j: int| 0 <= j < a.len() - 1 implies #[trigger] a.drop_last()[j].mac
            == b.drop_last()[j].mac by {
            assert(a[j].mac == b[j].mac);
        }
        lemma_first_with_mac_macs(a.drop_last(), b.drop_last(), mac);
        assert(a[a.len() - 1].mac == b[b.len() - 1].mac);
    }
}

/// A saved device can then be found by its MAC, so renaming or deleting it
/// succeeds.
pub proof fn law_saved_is_found(ds: Seq<DeviceView>, uid: Seq<char>, name: Seq<char>, mac: Seq<char>)
    ensures
        first_with_mac(ds.push(new_device(uid, name, mac)), mac) >= 0,
{
    let e = ds.push(new_device(uid, name, mac));
    assert(e.drop_last() =~= ds);
}

/// Renaming changes the name of the device found by the MAC and nothing else:
/// every MAC is still found where it was, the renamed device has the new name
/// and keeps its other members and its JSON text, and the other devices are
/// kept as they were.
pub proof fn law_rename_then_lookup(ds: Seq<DeviceView>, mac: Seq<char>, name: Seq<char>, other: Seq<char>)
    requires
        first_with_mac(ds, mac) >= 0,
    ensures
        renamed(ds, mac, name).len() == ds.len(),
        first_with_mac(renamed(ds, mac, name), other) == first_with_mac(ds, other),
        renamed(ds, mac, name)[first_with_mac(ds, mac)] == (DeviceView {
            name: Some(name),
            ..ds[first_with_mac(ds, mac)]
        }),
        forall|j: int|
            0 <= j < ds.len() && j != first_with_mac(ds, mac) ==> #[trigger] renamed(ds, mac, name)[j]
                == ds[j],
{
    lemma_first_with_mac(ds, mac);
    let r = renamed(ds, mac, name);
    assert forall|j: int| 0 <= j < r.len() implies #[trigger] r[j].mac == ds[j].mac by {}
    lemma_first_with_mac_macs(r, ds, other);
}

/// Deleting a device that was just saved, under a MAC no other device has,
/// gives back the list as it was.
pub proof fn law_save_then_delete(ds: Seq<DeviceView>, uid: Seq<char>, name: Seq<char>, mac: Seq<char>)
    requires
        first_with_mac(ds, mac) == -1,
    ensures
        deleted(ds.push(new_device(uid, name, mac)), mac) == ds,
{
    let e = ds.push(new_device(uid, name, mac));
    assert(e.drop_last() =~= ds);
    assert(first_with_mac(e, mac) == ds.len());
    assert(e.remove(ds.len() as int) =~= ds);
}

/// Deleting removes exactly one device, the first with the MAC, and keeps the
/// order of the others.
pub proof fn law_delete_removes_one(ds: Seq<DeviceView>, mac: Seq<char>)
    requires
        first_with_mac(ds, mac) >= 0,
    ensures
        deleted(ds, mac).len() == ds.len() - 1,
        forall|j: int| 0 <= j < first_with_mac(ds, mac) ==> #[trigger] deleted(ds, mac)[j] == ds[j],
        forall|j: int|
            first_with_mac(ds, mac) <= j < ds.len() - 1 ==> #[trigger] deleted(ds, mac)[j] == ds[j + 1],
{
    lemma_first_with_mac(ds, mac);
}

/// Reading the list gives one device for each element, in order: as many
/// devices as elements, the `i`-th read from the `i`-th element, with the
/// element's string members and its own text.
pub proof fn law_one_device_per_element(es: Seq<Seq<char>>)
    ensures
        devices_of_elements(es).len() == es.len(),
        forall|i: int|
            0 <= i < es.len() ==> {
                let d = #[trigger] devices_of_elements(es)[i];
                &&& d.uid == element_member(es[i], "uid"@)
                &&& d.name == element_member(es[i], "name"@)
                &&& d.mac == element_member(es[i], "mac"@)
                &&& d.status == element_member(es[i], "status"@)
                &&& d.source == es[i]
            },
        forall|a: Seq<Seq<char>>, b: Seq<Seq<char>>|
            #[trigger] devices_of_elements(a + b) == devices_of_elements(a) + devices_of_elements(b),
{
    assert forall|a: Seq<Seq<char>>, b: Seq<Seq<char>>|
        #[trigger] devices_of_elements(a + b) == devices_of_elements(a) + devices_of_elements(b) by {
        assert(devices_of_elements(a + b) =~= devices_of_elements(a) + devices_of_elements(b));
    }
}

/// Saving a device adds it at the end with exactly the given user id, name
/// and MAC, whatever their length, and no status, and keeps the devices
/// before it.
pub proof fn law_saved_device_fields(ds: Seq<DeviceView>, uid: Seq<char>, name: Seq<char>, mac: Seq<char>)
    ensures
        ds.push(new_device(uid, name, mac)).len() == ds.len() + 1,
        ds.push(new_device(uid, name, mac)).last().uid == Some(uid),
        ds.push(new_device(uid, name, mac)).last().name == Some(name),
        ds.push(new_device(uid, name, mac)).last().mac == Some(mac),
        ds.push(new_device(uid, name, mac)).last().status is None,
        ds.push(new_device(uid, name, mac)).take(ds.len() as int) == ds,
{
    assert(ds.push(new_device(uid, name, mac)).take(ds.len() as int) =~= ds);
}

/// A member of an element is what `serde_json` reads for that key from the
/// element's UTF-8 text, and none when the text is not JSON.
pub proof fn law_element_member(e: Seq<char>, key: Seq<char>)
    ensures
        is_json(encode_utf8(e)) ==> element_member(e, key) == json_string_member(encode_utf8(e), key),
        !is_json(encode_utf8(e)) ==> element_member(e, key) is None,
{
}

/// Writing the list gives one entry for each device, in order: as many
/// entries as devices, the `i`-th written for the `i`-th device; a device
/// with none of the four string fields is written as its own text.
pub proof fn law_one_entry_per_device(ds: Seq<DeviceView>)
    ensures
        entry_texts(ds).len() == ds.len(),
        forall|i: int| 0 <= i < ds.len() ==> #[trigger] entry_texts(ds)[i] == entry_text(ds[i]),
        forall|d: DeviceView|
            d.uid is None && d.name is None && d.mac is None && d.status is None ==> #[trigger] entry_text(d)
                == d.source,
{
}

} // verus!

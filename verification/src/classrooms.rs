//! The classrooms panel: the status shown on each classroom's card, the last
//! status each camera reported, and how many cards go on a line.
use vstd::prelude::*;
use crate::devices::{Device, DeviceView};
use crate::text::{is_blank, lemma_trimmed_empty, opt_text, owned, text_or_empty, trim, trimmed};

verus! {

/// The status a classroom's card shows.
#[derive(Debug, Clone, Copy, PartialEq, Eq, Structural)]
pub enum ClassroomStatus {
    /// Status code "0".
    Available,
    /// Status code "1".
    Occupied,
    /// Any other status code, or none.
    Offline,
}

/// The status a status code stands for.
pub open spec fn status_of(code: Seq<char>) -> ClassroomStatus {
    if code == "0"@ {
        ClassroomStatus::Available
    } else if code == "1"@ {
        ClassroomStatus::Occupied
    } else {
        ClassroomStatus::Offline
    }
}

impl ClassroomStatus {
    /// The status a status code stands for: "0" available, "1" occupied,
    /// anything else offline.
    pub fn from_code(code: &str) -> (r: ClassroomStatus)
        ensures
            r == status_of(code@),
    {
        proof {
            reveal_strlit("0");
            reveal_strlit("1");
        }
        if code.unicode_len() == 1 {
            let c = code.get_char(0);
            if c == '0' {
                assert(code@ =~= "0"@);
                ClassroomStatus::Available
            } else if c == '1' {
                assert(code@ =~= "1"@);
                ClassroomStatus::Occupied
            } else {
                ClassroomStatus::Offline
            }
        } else {
            ClassroomStatus::Offline
        }
    }

    /// The style class a card with this status carries, if any.
    pub open spec fn spec_css_class(self) -> Option<Seq<char>> {
        match self {
            ClassroomStatus::Available => Some("classroom-available"@),
            ClassroomStatus::Occupied => Some("classroom-occupied"@),
            ClassroomStatus::Offline => None,
        }
    }

    /// The style class a card with this status carries: "classroom-available",
    /// "classroom-occupied", or none when offline.
    pub fn css_class(&self) -> (r: Option<String>)
        ensures
            opt_text(r) == self.spec_css_class(),
    {
        match self {
            ClassroomStatus::Available => Some("classroom-available".to_owned()),
            ClassroomStatus::Occupied => Some("classroom-occupied".to_owned()),
            ClassroomStatus::Offline => None,
        }
    }
}

/// The last value recorded for `key` among `entries`, later ones first.
pub open spec fn last_value(entries: Seq<(Seq<char>, Seq<char>)>, key: Seq<char>) -> Option<Seq<char>>
    decreases entries.len(),
{
    if entries.len() == 0 {
        None
    } else if entries.last().0 == key {
        Some(entries.last().1)
    } else {
        last_value(entries.drop_last(), key)
    }
}

/// The last status each camera reported, by MAC, so that rebuilding the panel
/// keeps what the sensors said.
pub struct StatusCache {
    entries: Vec<(String, String)>,
}

impl StatusCache {
    /// The recorded pairs, as text.
    pub closed spec fn pairs(&self) -> Seq<(Seq<char>, Seq<char>)> {
        self.entries@.map_values(|e: (String, String)| (e.0@, e.1@))
    }

    /// The recorded status of each MAC.
    pub closed spec fn spec_map(&self) -> Map<Seq<char>, Seq<char>> {
        Map::new(
            |k: Seq<char>| last_value(self.pairs(), k) is Some,
            |k: Seq<char>| last_value(self.pairs(), k)->0,
        )
    }

    /// An empty cache.
    pub fn new() -> (r: StatusCache)
        ensures
            r.spec_map() == Map::<Seq<char>, Seq<char>>::empty(),
    {
        let r = StatusCache { entries: Vec::new() };
        assert(r.spec_map() =~= Map::<Seq<char>, Seq<char>>::empty());
        r
    }

    /// The position of the last entry for `key`.
    fn last_entry(&self, key: &String) -> (r: Option<usize>)
        ensures
            match r {
                Some(i) => i < self.entries.len() && self.pairs()[i as int].0 == key@
                    && last_value(self.pairs(), key@) == Some(self.pairs()[i as int].1)
                    && forall|j: int|
                    i < j < self.entries.len() ==> #[trigger] self.pairs()[j].0 != key@,
                None => last_value(self.pairs(), key@) is None,
            },
    {
        let ghost ps = self.pairs();
        let mut i = self.entries.len();
        assert(ps.take(i as int) =~= ps);
        while i > 0
            invariant
                i <= self.entries.len(),
                ps == self.pairs(),
                last_value(ps, key@) == last_value(ps.take(i as int), key@),
                forall|j: int| i <= j < self.entries.len() ==> #[trigger] ps[j].0 != key@,
            decreases i,
        {
            assert(ps.take(i as int).drop_last() =~= ps.take(i - 1));
            assert(ps[i - 1] == (self.entries@[i - 1].0@, self.entries@[i - 1].1@));
            if self.entries[i - 1].0 == *key {
                return Some(i - 1);
            }
            i = i - 1;
        }
        None
    }

    /// The last status recorded for `mac`.
    pub fn get(&self, mac: &str) -> (r: Option<String>)
        ensures
            opt_text(r) == (if self.spec_map().contains_key(mac@) {
                Some(self.spec_map()[mac@])
            } else {
                None
            }),
    {
        let key = owned(mac);
        match self.last_entry(&key) {
            Some(i) => {
                assert(self.pairs()[i as int] == (self.entries@[i as int].0@, self.entries@[i as int].1@));
                Some(self.entries[i].1.clone())
            },
            None => None,
        }
    }

    /// Records the status that the camera `mac` reported.
    pub fn record(&mut self, mac: String, status: String)
        ensures
            final(self).spec_map() == old(self).spec_map().insert(mac@, status@),
    {
        let ghost before = self.pairs();
        match self.last_entry(&mac) {
            Some(i) => {
                self.entries.set(i, (mac, status));
                proof {
                    lemma_last_value_update(before, i as int, self.pairs());
                }
            },
            None => {
                self.entries.push((mac, status));
                proof {
                    assert(self.pairs().drop_last() =~= before);
                    assert forall|k: Seq<char>| #[trigger] last_value(self.pairs(), k) == (if k
                        == mac@ {
                        Some(status@)
                    } else {
                        last_value(before, k)
                    }) by {}
                }
            },
        }
        assert(self.spec_map() =~= old(self).spec_map().insert(mac@, status@));
    }
}

/// Replacing the last entry for a key changes that key's value only.
proof fn lemma_last_value_update(
    before: Seq<(Seq<char>, Seq<char>)>,
    i: int,
    after: Seq<(Seq<char>, Seq<char>)>,
)
    requires
        0 <= i < before.len(),
        after.len() == before.len(),
        after[i].0 == before[i].0,
        forall|j: int| 0 <= j < before.len() && j != i ==> #[trigger] after[j] == before[j],
        forall|j: int| i < j < before.len() ==> #[trigger] before[j].0 != before[i].0,
    ensures
        forall|k: Seq<char>| #[trigger] last_value(after, k) == (if k == before[i].0 {
            Some(after[i].1)
        } else {
            last_value(before, k)
        }),
    decreases before.len(),
{
    assert forall|k: Seq<char>| #[trigger] last_value(after, k) == (if k == before[i].0 {
        Some(after[i].1)
    } else {
        last_value(before, k)
    }) by {
        lemma_last_value_update_at(before, i, after, k);
    }
}

proof fn lemma_last_value_update_at(
    before: Seq<(Seq<char>, Seq<char>)>,
    i: int,
    after: Seq<(Seq<char>, Seq<char>)>,
    k: Seq<char>,
)
    requires
        0 <= i < before.len(),
        after.len() == before.len(),
        after[i].0 == before[i].0,
        forall|j: int| 0 <= j < before.len() && j != i ==> #[trigger] after[j] == before[j],
        forall|j: int| i < j < before.len() ==> #[trigger] before[j].0 != before[i].0,
    ensures
        last_value(after, k) == (if k == before[i].0 {
            Some(after[i].1)
        } else {
            last_value(before, k)
        }),
    decreases before.len(),
{
    let n = before.len();
    if i == n - 1 {
        assert(after.drop_last() =~= before.drop_last());
    } else {
        let b2 = before.drop_last();
        let a2 = after.drop_last();
        assert(after[n - 1] == before[n - 1]);
        assert forall|j: int| 0 <= j < b2.len() && j != i implies #[trigger] a2[j] == b2[j] by {
            assert(a2[j] == after[j]);
            assert(b2[j] == before[j]);
        }
        assert forall|j: int| i < j < b2.len() implies #[trigger] b2[j].0 != b2[i].0 by {
            assert(b2[j] == before[j]);
        }
        lemma_last_value_update_at(b2, i, a2, k);
    }
}

/// A card of the classrooms panel.
pub struct ClassroomCard {
    /// The classroom's name.
    pub name: String,
    /// The camera's MAC address.
    pub mac: String,
    /// The status shown.
    pub status: ClassroomStatus,
}

/// The status code a device's card starts with: the one last reported for
/// its MAC, else the one stored with the device, else none.
pub open spec fn card_code(d: DeviceView, cache: Map<Seq<char>, Seq<char>>) -> Seq<char> {
    let mac = text_or_empty(d.mac);
    if cache.contains_key(mac) {
        cache[mac]
    } else {
        text_or_empty(d.status)
    }
}

/// A card, as plain values: name, MAC and status.
pub open spec fn card_of(d: DeviceView, cache: Map<Seq<char>, Seq<char>>) -> (Seq<char>, Seq<char>, ClassroomStatus) {
    (text_or_empty(d.name), text_or_empty(d.mac), status_of(card_code(d, cache)))
}

/// What a sensor reported last stays on the card of its classroom when the
/// panel is rebuilt: the card of a device shows the status last recorded
/// for its MAC, whatever status is stored with the device.
pub proof fn law_card_shows_recorded(
    d: DeviceView,
    cache: Map<Seq<char>, Seq<char>>,
    mac: Seq<char>,
    status: Seq<char>,
)
    requires
        d.mac == Some(mac),
    ensures
        card_of(d, cache.insert(mac, status)).2 == status_of(status),
{
}

/// Recording a status for one MAC leaves the cards of the other classrooms
/// as they were.
pub proof fn law_record_keeps_others(
    d: DeviceView,
    cache: Map<Seq<char>, Seq<char>>,
    mac: Seq<char>,
    status: Seq<char>,
)
    requires
        text_or_empty(d.mac) != mac,
    ensures
        card_of(d, cache.insert(mac, status)) == card_of(d, cache),
{
}

/// The text of an optional string, or an empty string.
fn string_or_empty(o: &Option<String>) -> (r: String)
    ensures
        r@ == text_or_empty(opt_text(*o)),
{
    match o {
        Some(s) => s.clone(),
        None => String::new(),
    }
}

/// The card of one device.
pub fn classroom_card(d: &Device, cache: &StatusCache) -> (r: ClassroomCard)
    ensures
        (r.name@, r.mac@, r.status) == card_of(d@, cache.spec_map()),
{
    let name = string_or_empty(&d.name);
    let mac = string_or_empty(&d.mac);
    let code = match cache.get(mac.as_str()) {
        Some(c) => c,
        None => string_or_empty(&d.status),
    };
    let status = ClassroomStatus::from_code(code.as_str());
    ClassroomCard { name, mac, status }
}

/// The cards of the classrooms panel, one per device, in order.
pub fn classroom_cards(devices: &Vec<Device>, cache: &StatusCache) -> (r: Vec<ClassroomCard>)
    ensures
        r.len() == devices.len(),
        forall|i: int|
            0 <= i < r.len() ==> (#[trigger] r[i].name@, r[i].mac@, r[i].status) == card_of(
                devices@[i]@,
                cache.spec_map(),
            ),
{
    let mut r: Vec<ClassroomCard> = Vec::new();
    let n = devices.len();
    for i in 0..n
        invariant
            n == devices.len(),
            r.len() == i,
            forall|j: int|
                0 <= j < i ==> (#[trigger] r[j].name@, r[j].mac@, r[j].status) == card_of(
                    devices@[j]@,
                    cache.spec_map(),
                ),
    {
        let card = classroom_card(&devices[i], cache);
        r.push(card);
    }
    r
}

/// How many cards go on a line: the cards are laid out on three rows while
/// the news panel is shown, on two rows when it is not.
pub open spec fn columns_for(total: nat, news_on: bool) -> nat {
    if news_on {
        (total + 2) / 3
    } else {
        (total + 1) / 2
    }
}

/// How many cards go on a line of the panel.
pub fn grid_columns(total: usize, news_on: bool) -> (r: usize)
    ensures
        r == columns_for(total as nat, news_on),
{
    if news_on {
        total / 3 + (if total % 3 == 0 { 0 } else { 1 })
    } else {
        total / 2 + (if total % 2 == 0 { 0 } else { 1 })
    }
}

/// The lines hold every card, and one line fewer would not.
pub proof fn law_columns_fit(total: nat, news_on: bool)
    ensures
        columns_for(total, news_on) * (if news_on { 3nat } else { 2nat }) >= total,
        total > 0 ==> (columns_for(total, news_on) - 1) * (if news_on { 3int } else { 2int }) < total,
{
}

/// The name entered in the "edit classroom" dialog, trimmed; `None` when it
/// is blank, in which case the classroom keeps its name.
pub fn edited_name(text: &str) -> (r: Option<String>)
    ensures
        r is None <==> is_blank(text@),
        r matches Some(n) ==> n@ == trimmed(text@),
{
    let t = trim(text);
    proof {
        lemma_trimmed_empty(text@);
    }
    if t.as_str().is_empty() {
        None
    } else {
        Some(t)
    }
}

/// A card shows the device's name and MAC in full, whatever their length,
/// and empty texts where the device has none; its status is the one last
/// recorded for that MAC, else the one stored with the device.
pub proof fn law_card_shows_device(d: DeviceView, cache: Map<Seq<char>, Seq<char>>)
    ensures
        d.name matches Some(n) ==> card_of(d, cache).0 == n,
        d.name is None ==> card_of(d, cache).0.len() == 0,
        d.mac matches Some(m) ==> card_of(d, cache).1 == m,
        d.mac is None ==> card_of(d, cache).1.len() == 0,
        cache.contains_key(card_of(d, cache).1) ==> card_of(d, cache).2 == status_of(
            cache[card_of(d, cache).1],
        ),
        !cache.contains_key(card_of(d, cache).1) ==> (d.status matches Some(s) ==> card_of(d, cache).2
            == status_of(s)),
        !cache.contains_key(card_of(d, cache).1) && d.status is None ==> card_of(d, cache).2
            == ClassroomStatus::Offline,
        status_of("0"@) == ClassroomStatus::Available,
        status_of("1"@) == ClassroomStatus::Occupied,
{
    reveal_strlit("0");
    reveal_strlit("1");
    assert("1"@[0] != "0"@[0]);
    assert(Seq::<char>::empty().len() != "0"@.len());
    assert(Seq::<char>::empty().len() != "1"@.len());
}

} // verus!

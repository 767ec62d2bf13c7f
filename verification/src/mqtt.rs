//! Status messages that the sensors publish on the classrooms topic.
use vstd::prelude::*;
use crate::json::{is_json, json_string_member, string_member};
use crate::text::{opt_text, owned};

verus! {

/// A classroom's new status, as a sensor reported it.
#[derive(Debug, Clone)]
pub struct ClassroomUpdate {
    /// The MAC address of the reporting camera.
    pub mac: String,
    /// The status code: "0" available, "1" occupied.
    pub status: String,
}

/// The status code assumed when a message gives none: available.
pub open spec fn default_status() -> Seq<char> {
    "0"@
}

/// The update read from a message's `mac` and `status` members: a missing
/// MAC reads as `unknown_mac`, a missing status as "0".
pub open spec fn update_of(
    mac: Option<Seq<char>>,
    status: Option<Seq<char>>,
    unknown_mac: Seq<char>,
) -> (Seq<char>, Seq<char>) {
    (
        match mac {
            Some(m) => m,
            None => unknown_mac,
        },
        match status {
            Some(s) => s,
            None => default_status(),
        },
    )
}

impl ClassroomUpdate {
    /// The update for the members read from a message.
    pub fn from_fields(mac: Option<String>, status: Option<String>, unknown_mac: &str) -> (r:
        ClassroomUpdate)
        ensures
            (r.mac@, r.status@) == update_of(
                opt_text(mac),
                opt_text(status),
                unknown_mac@,
            ),
    {
        proof {
            reveal_strlit("0");
        }
        let m = match mac {
            Some(m) => m,
            None => owned(unknown_mac),
        };
        let s = match status {
            Some(s) => s,
            None => "0".to_owned(),
        };
        ClassroomUpdate { mac: m, status: s }
    }

    /// The update carried by a message, `None` when its payload is not JSON.
    /// `unknown_mac` is what stands for a MAC the message does not give.
    pub fn from_payload(payload: &[u8], unknown_mac: &str) -> (r: Option<ClassroomUpdate>)
        ensures
            r is Some <==> is_json(payload@),
            r matches Some(u) ==> (u.mac@, u.status@) == update_of(
                json_string_member(payload@, "mac"@),
                json_string_member(payload@, "status"@),
                unknown_mac@,
            ),
    {
        let mac = match string_member(payload, "mac") {
            Some(m) => m,
            None => return None,
        };
        // The payload was read as JSON above, so this read gives a value too.
        let status = string_member(payload, "status").unwrap();
        Some(ClassroomUpdate::from_fields(mac, status, unknown_mac))
    }
}

/// An update carries the message's MAC and status in full; a missing MAC
/// reads as the given stand-in, a missing status as available ("0").
pub proof fn law_update_keeps_members(
    mac: Option<Seq<char>>,
    status: Option<Seq<char>>,
    unknown_mac: Seq<char>,
)
    ensures
        mac matches Some(m) ==> update_of(mac, status, unknown_mac).0 == m,
        mac is None ==> update_of(mac, status, unknown_mac).0 == unknown_mac,
        status matches Some(t) ==> update_of(mac, status, unknown_mac).1 == t,
        status is None ==> update_of(mac, status, unknown_mac).1 == "0"@,
{
}

} // verus!

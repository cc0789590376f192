use vstd::prelude::*;

verus! {

use vstd::string::StringExecFns;
use crate::plan::PlanEntry;
use crate::plan::EntryView;
use crate::strutil::is_substring_of;
use crate::strutil::contains_substring;

/// The messenger collaborator's address and access token. The transport
/// itself lives outside the core; this only carries its settings.
pub struct Messenger {
    pub access_token: String,
    pub endpoint: String,
}

impl Messenger {
    /// Wraps the endpoint and access token for later sends.
    pub fn new(endpoint: &str, access_token: &str) -> (r: Self)
        ensures
            r.endpoint@ == endpoint@,
            r.access_token@ == access_token@,
    {
        Messenger { access_token: access_token.to_owned(), endpoint: endpoint.to_owned() }
    }
}

/// An entry announces a cancelled lesson: self-study with a note naming the
/// cancellation.
pub open spec fn is_cancellation(e: EntryView) -> bool {
    e.entry_type == "Selbststudium"@ && is_substring_of("Entfall"@, e.note)
}

/// An entry announces a room change.
pub open spec fn is_room_change(e: EntryView) -> bool {
    e.entry_type == "Raum"@
}

/// The cancellation message variant.
pub open spec fn cancellation_text(e: EntryView) -> Seq<char> {
    e.class + " entfällt! (period "@ + e.period + " with "@ + e.teacher + ")"@
}

/// The room-change message variant.
pub open spec fn room_change_text(e: EntryView) -> Seq<char> {
    "Room change in "@ + e.class + " with "@ + e.teacher + " (period "@ + e.period + "): "@
        + e.old_room + " -> "@ + e.new_room
}

/// The generic message variant: a structured dump of class, period, teacher,
/// entry type and note.
pub open spec fn generic_text(e: EntryView) -> Seq<char> {
    "New entry: class "@ + e.class + ", period "@ + e.period + ", teacher "@ + e.teacher
        + ", type "@ + e.entry_type + ", note "@ + e.note
}

/// The message an entry is announced with: the cancellation variant for a
/// cancelled self-study lesson, the room-change variant for a room change,
/// else the generic dump.
pub open spec fn message_text(e: EntryView) -> Seq<char> {
    if is_cancellation(e) {
        cancellation_text(e)
    } else if is_room_change(e) {
        room_change_text(e)
    } else {
        generic_text(e)
    }
}

/// Builds the message for one entry, selecting among the three variants.
pub fn build_text(entry: &PlanEntry) -> (r: String)
    ensures
        r@ == message_text(entry@),
{
    let selbststudium: String = "Selbststudium".to_owned();
    let raum: String = "Raum".to_owned();
    if entry.entry_type == selbststudium && contains_substring(entry.note.as_str(), "Entfall") {
        let mut s = entry.class.clone();
        s.append(" entfällt! (period ");
        s.append(entry.period.as_str());
        s.append(" with ");
        s.append(entry.teacher.as_str());
        s.append(")");
        proof {
            assert(s@ =~= cancellation_text(entry@));
        }
        s
    } else if entry.entry_type == raum {
        let mut s = "Room change in ".to_owned();
        s.append(entry.class.as_str());
        s.append(" with ");
        s.append(entry.teacher.as_str());
        s.append(" (period ");
        s.append(entry.period.as_str());
        s.append("): ");
        s.append(entry.old_room.as_str());
        s.append(" -> ");
        s.append(entry.new_room.as_str());
        proof {
            assert(s@ =~= room_change_text(entry@));
        }
        s
    } else {
        let mut s = "New entry: class ".to_owned();
        s.append(entry.class.as_str());
        s.append(", period ");
        s.append(entry.period.as_str());
        s.append(", teacher ");
        s.append(entry.teacher.as_str());
        s.append(", type ");
        s.append(entry.entry_type.as_str());
        s.append(", note ");
        s.append(entry.note.as_str());
        proof {
            assert(s@ =~= generic_text(entry@));
        }
        s
    }
}

} // verus!

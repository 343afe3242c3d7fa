//! The mathematical model of a GECOS record: what a record holds, what its
//! flat form is, and what a flat text parses to.

use vstd::prelude::*;
use crate::error::GecosError;
use crate::sanitized::{is_illegal_passwd_char, is_sanitized, leftmost_illegal};
use crate::segments::{join_commas, split_commas};

verus! {

/// What a GECOS record holds, as plain texts.
pub struct GecosView {
    pub full_name: Option<Seq<char>>,
    pub room: Option<Seq<char>>,
    pub work_phone: Option<Seq<char>>,
    pub home_phone: Option<Seq<char>>,
    pub other: Seq<Seq<char>>,
}

/// What a slot contributes to the flat form: its text, or nothing if unset.
pub open spec fn slot_text(slot: Option<Seq<char>>) -> Seq<char> {
    match slot {
        Some(text) => text,
        None => Seq::empty(),
    }
}

/// A slot that is set to the empty text reads back as unset.
pub open spec fn canonical_slot(slot: Option<Seq<char>>) -> Option<Seq<char>> {
    match slot {
        Some(text) => if text.len() > 0 {
            Some(text)
        } else {
            None
        },
        None => None,
    }
}

/// Whether a slot is unset or set to a text that is not empty.
pub open spec fn is_canonical_slot(slot: Option<Seq<char>>) -> bool {
    match slot {
        Some(text) => text.len() > 0,
        None => true,
    }
}

/// Whether every text of `texts` is free of reserved characters.
pub open spec fn all_sanitized(texts: Seq<Seq<char>>) -> bool {
    forall|k: int| 0 <= k < texts.len() ==> is_sanitized(#[trigger] texts[k])
}

impl GecosView {
    /// Whether every text of the record is free of reserved characters.
    /// The view of a [`crate::Gecos`] value is sanitized, since each of its
    /// texts is a [`crate::GecosSanitizedString`].
    pub open spec fn is_sanitized(self) -> bool {
        &&& is_sanitized(slot_text(self.full_name))
        &&& is_sanitized(slot_text(self.room))
        &&& is_sanitized(slot_text(self.work_phone))
        &&& is_sanitized(slot_text(self.home_phone))
        &&& all_sanitized(self.other)
    }

    /// The comma-separated segments of the flat form: the texts of the four
    /// fixed slots, then the list, or one empty segment if the list is empty.
    pub open spec fn segments(self) -> Seq<Seq<char>> {
        seq![
            slot_text(self.full_name),
            slot_text(self.room),
            slot_text(self.work_phone),
            slot_text(self.home_phone),
        ] + if self.other.len() == 0 {
            seq![Seq::empty()]
        } else {
            self.other
        }
    }

    /// Whether the flat form tells this record from every other: no fixed
    /// slot is set to the empty text, and the list is not empty.
    pub open spec fn is_canonical(self) -> bool {
        &&& is_canonical_slot(self.full_name)
        &&& is_canonical_slot(self.room)
        &&& is_canonical_slot(self.work_phone)
        &&& is_canonical_slot(self.home_phone)
        &&& self.other.len() > 0
    }

    /// The canonical record with the same flat form: fixed slots set to the
    /// empty text become unset, and an empty list becomes a list of one empty
    /// text.
    pub open spec fn canonical(self) -> GecosView {
        GecosView {
            full_name: canonical_slot(self.full_name),
            room: canonical_slot(self.room),
            work_phone: canonical_slot(self.work_phone),
            home_phone: canonical_slot(self.home_phone),
            other: if self.other.len() == 0 {
                seq![Seq::empty()]
            } else {
                self.other
            },
        }
    }
}

/// The flat form of a record: the four fixed slots and the joined list,
/// separated by four commas.
pub open spec fn gecos_string(v: GecosView) -> Seq<char> {
    slot_text(v.full_name) + seq![','] + slot_text(v.room) + seq![','] + slot_text(v.work_phone)
        + seq![','] + slot_text(v.home_phone) + seq![','] + join_commas(v.other)
}

/// The leftmost reserved character of the first text of `segments` that has
/// one, if any has.
pub open spec fn first_illegal_in(segments: Seq<Seq<char>>) -> Option<char>
    decreases segments.len(),
{
    if segments.len() == 0 {
        None
    } else {
        match leftmost_illegal(segments.first()) {
            Some(c) => Some(c),
            None => first_illegal_in(segments.drop_first()),
        }
    }
}

/// The leftmost character of `s` that is reserved and is not a comma, if
/// there is one.
pub open spec fn leftmost_illegal_but_comma(s: Seq<char>) -> Option<char>
    decreases s.len(),
{
    if s.len() == 0 {
        None
    } else if is_illegal_passwd_char(s.first()) && s.first() != ',' {
        Some(s.first())
    } else {
        leftmost_illegal_but_comma(s.drop_first())
    }
}

/// The fixed slot read from segment `k`: unset if there is no such segment
/// or if it is empty.
pub open spec fn slot_at(segments: Seq<Seq<char>>, k: int) -> Option<Seq<char>> {
    if 0 <= k < segments.len() && segments[k].len() > 0 {
        Some(segments[k])
    } else {
        None
    }
}

/// The segments from position `k` on; none if there are not that many.
pub open spec fn segments_from(segments: Seq<Seq<char>>, k: int) -> Seq<Seq<char>> {
    if 0 <= k < segments.len() {
        segments.skip(k)
    } else {
        Seq::empty()
    }
}

/// The record that a list of segments stands for: the first four fill the
/// fixed slots in order, all later ones form the list, empty ones included.
pub open spec fn record_of(segments: Seq<Seq<char>>) -> GecosView {
    GecosView {
        full_name: slot_at(segments, 0),
        room: slot_at(segments, 1),
        work_phone: slot_at(segments, 2),
        home_phone: slot_at(segments, 3),
        other: segments_from(segments, 4),
    }
}

/// What a flat text parses to. The text is split at its commas; if a segment
/// holds a reserved character, the first such segment decides the error, and
/// otherwise the segments are read as a record.
pub open spec fn parse_gecos(s: Seq<char>) -> Result<GecosView, GecosError> {
    let segments = split_commas(s);
    match first_illegal_in(segments) {
        Some(c) => Err(GecosError::IllegalPasswdChar(c)),
        None => Ok(record_of(segments)),
    }
}

} // verus!

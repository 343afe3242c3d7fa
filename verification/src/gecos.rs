//! The GECOS record and its flat, comma-separated form.

use vstd::prelude::*;
use vstd::string::*;
use crate::error::GecosError;
use crate::laws::{
    lemma_first_illegal_at, lemma_first_illegal_none, lemma_gecos_string_segments,
    lemma_parse_gecos_string,
};
use crate::model::{
    all_sanitized, gecos_string, parse_gecos, slot_at, slot_text, GecosView,
};
use crate::sanitized::{is_sanitized, lemma_leftmost_illegal, GecosSanitizedString};
use crate::segments::{comma_count, join_commas, split_at_commas, split_commas, texts_of};

verus! {

/// The text of a slot that may be unset.
pub open spec fn slot_view(slot: Option<GecosSanitizedString>) -> Option<Seq<char>> {
    match slot {
        Some(field) => Some(field@),
        None => None,
    }
}

/// The text of each entry of a list.
pub open spec fn list_view(list: Seq<GecosSanitizedString>) -> Seq<Seq<char>> {
    list.map_values(|field: GecosSanitizedString| field@)
}

/// The GECOS field of a passwd entry.
#[derive(Debug)]
pub struct Gecos {
    /// The user's full name, if set.
    pub full_name: Option<GecosSanitizedString>,
    /// The room number, if set.
    pub room: Option<GecosSanitizedString>,
    /// The work phone number, if set.
    pub work_phone: Option<GecosSanitizedString>,
    /// The home phone number, if set.
    pub home_phone: Option<GecosSanitizedString>,
    /// Further entries, in order.
    pub other: Vec<GecosSanitizedString>,
}

impl View for Gecos {
    type V = GecosView;

    open spec fn view(&self) -> GecosView {
        GecosView {
            full_name: slot_view(self.full_name),
            room: slot_view(self.room),
            work_phone: slot_view(self.work_phone),
            home_phone: slot_view(self.home_phone),
            other: list_view(self.other@),
        }
    }
}

/// A copy of `slot` with the same text.
fn clone_slot(slot: &Option<GecosSanitizedString>) -> (copy: Option<GecosSanitizedString>)
    ensures
        slot_view(copy) == slot_view(*slot),
{
    match slot {
        Some(field) => Some(field.clone()),
        None => None,
    }
}

impl Clone for Gecos {
    fn clone(&self) -> (copy: Self)
        ensures
            copy@ == self@,
    {
        let mut other: Vec<GecosSanitizedString> = Vec::new();
        let mut k: usize = 0;
        while k < self.other.len()
            invariant
                k <= self.other.len(),
                list_view(other@) == list_view(self.other@).take(k as int),
            decreases self.other.len() - k,
        {
            let ghost before = list_view(other@);
            other.push(self.other[k].clone());
            assert(list_view(other@) == before.push(self.other@[k as int]@));
            k = k + 1;
        }
        assert(list_view(self.other@).take(k as int) == list_view(self.other@));
        Gecos {
            full_name: clone_slot(&self.full_name),
            room: clone_slot(&self.room),
            work_phone: clone_slot(&self.work_phone),
            home_phone: clone_slot(&self.home_phone),
            other,
        }
    }
}

/// Appends the text of `slot` to `out`, and nothing if the slot is unset.
fn push_slot(out: &mut String, slot: &Option<GecosSanitizedString>)
    ensures
        final(out)@ == old(out)@ + slot_text(slot_view(*slot)),
        is_sanitized(slot_text(slot_view(*slot))),
{
    match slot {
        Some(field) => {
            out.append(field.as_str());
        },
        None => {
            assert(old(out)@ + Seq::<char>::empty() == old(out)@);
        },
    }
}

/// Appends one comma to `out`.
fn push_comma(out: &mut String)
    ensures
        final(out)@ == old(out)@ + seq![','],
{
    proof {
        reveal_strlit(",");
    }
    assert(","@ == seq![',']);
    out.append(",");
}

impl Gecos {
    /// Renders the record in its flat form: the texts of the four fixed
    /// slots, an unset slot giving the empty text, then the entries of the
    /// list, all separated by commas. The result holds four commas, and one
    /// more for each entry of the list after the first, and it parses back
    /// to the canonical form of the record.
    pub fn to_gecos_string(&self) -> (res: String)
        ensures
            res@ == gecos_string(self@),
            comma_count(res@) == if self.other.len() == 0 {
                4
            } else {
                3 + self.other.len()
            },
            parse_gecos(res@) == Ok::<GecosView, GecosError>(self@.canonical()),
    {
        let mut out = String::new();
        push_slot(&mut out, &self.full_name);
        push_comma(&mut out);
        push_slot(&mut out, &self.room);
        push_comma(&mut out);
        push_slot(&mut out, &self.work_phone);
        push_comma(&mut out);
        push_slot(&mut out, &self.home_phone);
        push_comma(&mut out);
        let ghost head = out@;
        let ghost texts = list_view(self.other@);
        assert(head == head + join_commas(texts.take(0)));
        let mut k: usize = 0;
        while k < self.other.len()
            invariant
                k <= self.other.len(),
                texts == list_view(self.other@),
                out@ == head + join_commas(texts.take(k as int)),
                all_sanitized(texts.take(k as int)),
            decreases self.other.len() - k,
        {
            if k > 0 {
                push_comma(&mut out);
            }
            out.append(self.other[k].as_str());
            proof {
                let grown = texts.take(k + 1);
                assert(grown.drop_last() == texts.take(k as int));
                assert(grown.last() == self.other@[k as int]@);
                assert forall|j: int| 0 <= j < grown.len() implies is_sanitized(
                    #[trigger] grown[j],
                ) by {
                    if j < k {
                        assert(grown[j] == texts.take(k as int)[j]);
                    }
                }
            }
            k = k + 1;
        }
        proof {
            assert(texts.take(k as int) == texts);
            lemma_gecos_string_segments(self@);
            lemma_parse_gecos_string(self@);
        }
        out
    }

    /// Parses the flat form of a record. The text is split at its commas.
    /// The first four segments fill the fixed slots in order, where a
    /// missing or empty segment leaves the slot unset; all later segments
    /// form the list, empty ones included. If a segment holds a reserved
    /// character, the leftmost such character of the first such segment is
    /// reported and no record is returned.
    pub fn from_gecos_string(input: &str) -> (res: Result<Self, GecosError>)
        ensures
            res is Ok <==> all_sanitized(split_commas(input@)),
            match res {
                Ok(gecos) => parse_gecos(input@) == Ok::<GecosView, GecosError>(gecos@),
                Err(err) => parse_gecos(input@) == Err::<GecosView, GecosError>(err),
            },
    {
        let parts = split_at_commas(input);
        let ghost segments = split_commas(input@);
        let mut full_name: Option<GecosSanitizedString> = None;
        let mut room: Option<GecosSanitizedString> = None;
        let mut work_phone: Option<GecosSanitizedString> = None;
        let mut home_phone: Option<GecosSanitizedString> = None;
        let mut other: Vec<GecosSanitizedString> = Vec::new();
        let mut k: usize = 0;
        while k < parts.len()
            invariant
                k <= parts.len(),
                texts_of(parts@) == segments,
                segments == split_commas(input@),
                all_sanitized(segments.take(k as int)),
                slot_view(full_name) == if k > 0 {
                    slot_at(segments, 0)
                } else {
                    None
                },
                slot_view(room) == if k > 1 {
                    slot_at(segments, 1)
                } else {
                    None
                },
                slot_view(work_phone) == if k > 2 {
                    slot_at(segments, 2)
                } else {
                    None
                },
                slot_view(home_phone) == if k > 3 {
                    slot_at(segments, 3)
                } else {
                    None
                },
                list_view(other@) == if k > 4 {
                    segments.subrange(4, k as int)
                } else {
                    Seq::empty()
                },
            decreases parts.len() - k,
        {
            assert(segments[k as int] == parts@[k as int]@);
            let field = match GecosSanitizedString::new(String::from_str(parts[k])) {
                Ok(field) => field,
                Err(err) => {
                    proof {
                        lemma_leftmost_illegal(segments[k as int]);
                        lemma_first_illegal_at(segments, k as int);
                    }
                    return Err(err);
                },
            };
            proof {
                let grown = segments.take(k + 1);
                assert forall|j: int| 0 <= j < grown.len() implies is_sanitized(
                    #[trigger] grown[j],
                ) by {
                    if j < k {
                        assert(grown[j] == segments.take(k as int)[j]);
                    }
                }
            }
            if k >= 4 {
                let ghost before = list_view(other@);
                other.push(field);
                assert(list_view(other@) == before.push(segments[k as int]));
                assert(segments.subrange(4, k + 1) == segments.subrange(4, k as int).push(
                    segments[k as int],
                ));
            } else {
                let slot = if field.is_empty() {
                    None
                } else {
                    Some(field)
                };
                if k == 0 {
                    full_name = slot;
                } else if k == 1 {
                    room = slot;
                } else if k == 2 {
                    work_phone = slot;
                } else {
                    home_phone = slot;
                }
            }
            k = k + 1;
        }
        proof {
            assert(segments.take(k as int) == segments);
            lemma_first_illegal_none(segments);
            if k > 4 {
                assert(segments.subrange(4, k as int) == segments.skip(4));
            }
        }
        Ok(Gecos { full_name, room, work_phone, home_phone, other })
    }
}

} // verus!

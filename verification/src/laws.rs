//! What holds between the flat form and the parsed form of a record.

use vstd::prelude::*;
use crate::error::GecosError;
use crate::model::{
    all_sanitized, first_illegal_in, gecos_string, is_canonical_slot, leftmost_illegal_but_comma,
    parse_gecos, record_of, slot_text, GecosView,
};
use crate::sanitized::{is_sanitized, leftmost_illegal, lemma_leftmost_illegal};
use crate::segments::{
    all_comma_free, comma_count, is_comma_free, join_commas, lemma_join_concat, lemma_join_split,
    lemma_split_join, lemma_split_len, lemma_split_shape, split_commas,
};

verus! {

/// A text without reserved characters holds no comma.
pub proof fn lemma_sanitized_is_comma_free(s: Seq<char>)
    requires
        is_sanitized(s),
    ensures
        is_comma_free(s),
{
}

/// No reserved character is found in a list of texts exactly if every text
/// of the list is sanitized.
pub proof fn lemma_first_illegal_none(segments: Seq<Seq<char>>)
    ensures
        first_illegal_in(segments) is None <==> all_sanitized(segments),
    decreases segments.len(),
{
    if segments.len() > 0 {
        let rest = segments.drop_first();
        lemma_leftmost_illegal(segments.first());
        lemma_first_illegal_none(rest);
        if all_sanitized(segments) {
            assert forall|k: int| 0 <= k < rest.len() implies is_sanitized(#[trigger] rest[k]) by {
                assert(rest[k] == segments[k + 1]);
            }
        }
        if is_sanitized(segments.first()) && all_sanitized(rest) {
            assert forall|k: int| 0 <= k < segments.len() implies is_sanitized(
                #[trigger] segments[k],
            ) by {
                if k > 0 {
                    assert(segments[k] == rest[k - 1]);
                }
            }
        }
    }
}

/// The first text that is not sanitized decides which reserved character is
/// found in a list of texts.
pub proof fn lemma_first_illegal_at(segments: Seq<Seq<char>>, k: int)
    requires
        0 <= k < segments.len(),
        all_sanitized(segments.take(k)),
        !is_sanitized(segments[k]),
    ensures
        first_illegal_in(segments) == leftmost_illegal(segments[k]),
        first_illegal_in(segments) is Some,
    decreases segments.len(),
{
    lemma_leftmost_illegal(segments.first());
    if k > 0 {
        let rest = segments.drop_first();
        assert(segments.take(k)[0] == segments.first());
        assert forall|j: int| 0 <= j < k - 1 implies is_sanitized(#[trigger] rest.take(k - 1)[j]) by {
            assert(rest.take(k - 1)[j] == segments.take(k)[j + 1]);
        }
        assert(rest[k - 1] == segments[k]);
        lemma_first_illegal_at(rest, k - 1);
    }
}

/// In a text without commas, the leftmost reserved character is the leftmost
/// reserved character that is not a comma.
pub proof fn lemma_leftmost_in_comma_free(s: Seq<char>)
    requires
        is_comma_free(s),
    ensures
        leftmost_illegal_but_comma(s) == leftmost_illegal(s),
    decreases s.len(),
{
    if s.len() > 0 {
        let rest = s.drop_first();
        assert(s.first() == s[0]);
        assert forall|i: int| 0 <= i < rest.len() implies #[trigger] rest[i] != ',' by {
            assert(rest[i] == s[i + 1]);
        }
        lemma_leftmost_in_comma_free(rest);
    }
}

/// The leftmost reserved character of `a + b` that is not a comma is that
/// of `a`, or that of `b` if `a` has none.
pub proof fn lemma_leftmost_but_comma_concat(a: Seq<char>, b: Seq<char>)
    ensures
        leftmost_illegal_but_comma(a + b) == match leftmost_illegal_but_comma(a) {
            Some(c) => Some(c),
            None => leftmost_illegal_but_comma(b),
        },
    decreases a.len(),
{
    if a.len() == 0 {
        assert(a + b == b);
    } else {
        assert((a + b).first() == a.first());
        assert((a + b).drop_first() == a.drop_first() + b);
        lemma_leftmost_but_comma_concat(a.drop_first(), b);
    }
}

/// The reserved character found in `a + b` is the one found in `a`, or the
/// one found in `b` if none is found in `a`.
pub proof fn lemma_first_illegal_concat(a: Seq<Seq<char>>, b: Seq<Seq<char>>)
    ensures
        first_illegal_in(a + b) == match first_illegal_in(a) {
            Some(c) => Some(c),
            None => first_illegal_in(b),
        },
    decreases a.len(),
{
    if a.len() == 0 {
        assert(a + b == b);
    } else {
        assert((a + b).first() == a.first());
        assert((a + b).drop_first() == a.drop_first() + b);
        lemma_first_illegal_concat(a.drop_first(), b);
    }
}

/// The reserved character found in texts without commas is the leftmost
/// reserved character, other than the commas between them, of the texts
/// joined.
pub proof fn lemma_first_illegal_of_joined(parts: Seq<Seq<char>>)
    requires
        all_comma_free(parts),
    ensures
        first_illegal_in(parts) == leftmost_illegal_but_comma(join_commas(parts)),
    decreases parts.len(),
{
    if parts.len() == 0 {
    } else {
        let init = parts.drop_last();
        let last = parts.last();
        let comma = seq![','];
        assert(parts == init + seq![last]);
        lemma_first_illegal_concat(init, seq![last]);
        assert(first_illegal_in(seq![last]) == leftmost_illegal(last)) by {
            assert(seq![last].first() == last);
            assert(first_illegal_in(seq![last].drop_first()) is None);
        }
        lemma_leftmost_in_comma_free(last);
        if parts.len() > 1 {
            assert(all_comma_free(init)) by {
                assert forall|k: int| 0 <= k < init.len() implies is_comma_free(
                    #[trigger] init[k],
                ) by {
                    assert(init[k] == parts[k]);
                }
            }
            lemma_first_illegal_of_joined(init);
            lemma_leftmost_but_comma_concat(join_commas(init) + comma, last);
            lemma_leftmost_but_comma_concat(join_commas(init), comma);
            assert(leftmost_illegal_but_comma(comma) is None) by {
                assert(comma.first() == ',');
                assert(leftmost_illegal_but_comma(comma.drop_first()) is None);
            }
        }
    }
}

/// Parsing fails exactly if the text holds a reserved character other than
/// the comma, and it then reports the leftmost such character of the text.
pub proof fn lemma_parse_error(s: Seq<char>)
    ensures
        match leftmost_illegal_but_comma(s) {
            Some(c) => parse_gecos(s) == Err::<GecosView, GecosError>(
                GecosError::IllegalPasswdChar(c),
            ),
            None => parse_gecos(s) is Ok,
        },
{
    lemma_split_shape(s);
    lemma_join_split(s);
    lemma_first_illegal_of_joined(split_commas(s));
}

/// The flat form of a record is its segments, joined by commas.
pub proof fn lemma_gecos_string_is_join(v: GecosView)
    ensures
        gecos_string(v) == join_commas(v.segments()),
{
    let comma = seq![','];
    let t0 = slot_text(v.full_name);
    let t1 = slot_text(v.room);
    let t2 = slot_text(v.work_phone);
    let t3 = slot_text(v.home_phone);
    let fixed = seq![t0, t1, t2, t3];
    let tail = if v.other.len() == 0 {
        seq![Seq::<char>::empty()]
    } else {
        v.other
    };
    assert(join_commas(tail) == join_commas(v.other));
    assert(fixed.drop_last() == seq![t0, t1, t2]);
    assert(seq![t0, t1, t2].drop_last() == seq![t0, t1]);
    assert(seq![t0, t1].drop_last() == seq![t0]);
    assert(join_commas(seq![t0]) == t0);
    assert(join_commas(seq![t0, t1]) == t0 + comma + t1);
    assert(join_commas(seq![t0, t1, t2]) == t0 + comma + t1 + comma + t2);
    assert(join_commas(fixed) == t0 + comma + t1 + comma + t2 + comma + t3);
    lemma_join_concat(fixed, tail);
}

/// Splitting the flat form of a record gives its segments: four for the
/// fixed slots, then one for each entry of the list, or a single empty one
/// if the list is empty. So the flat form holds four commas, and one more
/// for each entry of the list after the first.
pub proof fn lemma_gecos_string_segments(v: GecosView)
    requires
        v.is_sanitized(),
    ensures
        split_commas(gecos_string(v)) == v.segments(),
        all_sanitized(v.segments()),
        comma_count(gecos_string(v)) == if v.other.len() == 0 {
            4
        } else {
            3 + v.other.len()
        },
{
    let segments = v.segments();
    assert(all_sanitized(segments)) by {
        assert forall|k: int| 0 <= k < segments.len() implies is_sanitized(
            #[trigger] segments[k],
        ) by {
            if k >= 4 && v.other.len() > 0 {
                assert(segments[k] == v.other[k - 4]);
            }
        }
    }
    assert(all_comma_free(segments)) by {
        assert forall|k: int| 0 <= k < segments.len() implies is_comma_free(
            #[trigger] segments[k],
        ) by {
            lemma_sanitized_is_comma_free(segments[k]);
        }
    }
    lemma_gecos_string_is_join(v);
    lemma_split_join(segments);
    lemma_split_len(gecos_string(v));
}

/// The canonical form of a record is canonical and has the same flat form.
/// It keeps the texts sanitized, and it is the record itself if that is
/// canonical already.
pub proof fn lemma_canonical(v: GecosView)
    ensures
        v.canonical().is_canonical(),
        gecos_string(v.canonical()) == gecos_string(v),
        v.is_sanitized() ==> v.canonical().is_sanitized(),
        v.is_canonical() ==> v.canonical() == v,
{
    let c = v.canonical();
    let empty = Seq::<char>::empty();
    assert(slot_text(c.full_name) =~= slot_text(v.full_name));
    assert(slot_text(c.room) =~= slot_text(v.room));
    assert(slot_text(c.work_phone) =~= slot_text(v.work_phone));
    assert(slot_text(c.home_phone) =~= slot_text(v.home_phone));
    assert(join_commas(c.other) == join_commas(v.other));
    if v.is_sanitized() && v.other.len() == 0 {
        assert(is_sanitized(empty));
        assert(all_sanitized(seq![empty]));
    }
}

/// Parsing the flat form of a record succeeds and gives the canonical
/// record with that flat form.
pub proof fn lemma_parse_gecos_string(v: GecosView)
    requires
        v.is_sanitized(),
    ensures
        parse_gecos(gecos_string(v)) == Ok::<GecosView, GecosError>(v.canonical()),
{
    let segments = v.segments();
    lemma_gecos_string_segments(v);
    lemma_first_illegal_none(segments);
    let parsed = record_of(segments);
    assert(parsed.other == v.canonical().other);
}

/// Writing a canonical record and parsing the result gives the record back.
pub proof fn lemma_round_trip(v: GecosView)
    requires
        v.is_sanitized(),
        v.is_canonical(),
    ensures
        parse_gecos(gecos_string(v)) == Ok::<GecosView, GecosError>(v),
{
    lemma_parse_gecos_string(v);
    lemma_canonical(v);
}

/// A record that was parsed holds sanitized texts only, and none of its
/// fixed slots is set to the empty text.
pub proof fn lemma_parsed_is_sanitized(s: Seq<char>)
    requires
        parse_gecos(s) is Ok,
    ensures
        parse_gecos(s)->Ok_0.is_sanitized(),
        is_canonical_slot(parse_gecos(s)->Ok_0.full_name),
        is_canonical_slot(parse_gecos(s)->Ok_0.room),
        is_canonical_slot(parse_gecos(s)->Ok_0.work_phone),
        is_canonical_slot(parse_gecos(s)->Ok_0.home_phone),
{
    let segments = split_commas(s);
    lemma_first_illegal_none(segments);
    let parsed = record_of(segments);
    assert forall|k: int| 0 <= k < parsed.other.len() implies is_sanitized(
        #[trigger] parsed.other[k],
    ) by {
        assert(parsed.other[k] == segments[k + 4]);
    }
}

/// Parsing a flat text with at least four commas and writing the result
/// gives the text back.
pub proof fn lemma_gecos_string_of_parsed(s: Seq<char>)
    requires
        parse_gecos(s) is Ok,
        comma_count(s) >= 4,
    ensures
        gecos_string(parse_gecos(s)->Ok_0) == s,
{
    let segments = split_commas(s);
    lemma_split_len(s);
    lemma_join_split(s);
    let parsed = record_of(segments);
    assert(parsed.segments() =~= segments) by {
        assert(parsed.segments().len() == segments.len());
        assert forall|k: int| 0 <= k < segments.len() implies parsed.segments()[k]
            == segments[k] by {
            if k >= 4 {
                assert(parsed.other[k - 4] == segments[k]);
            }
        }
    }
    lemma_gecos_string_is_join(parsed);
}

} // verus!

//! Comma-separated segments: the flat form of a GECOS field is a list of
//! texts joined by single, unescaped commas.

use vstd::prelude::*;
use vstd::string::*;

verus! {

/// Whether `s` holds no comma.
pub open spec fn is_comma_free(s: Seq<char>) -> bool {
    forall|i: int| 0 <= i < s.len() ==> #[trigger] s[i] != ','
}

/// Whether every text of `parts` is free of commas.
pub open spec fn all_comma_free(parts: Seq<Seq<char>>) -> bool {
    forall|k: int| 0 <= k < parts.len() ==> is_comma_free(#[trigger] parts[k])
}

/// The texts of `parts` in order, with one comma between neighbours.
/// No text and one empty text both join to the empty text.
pub open spec fn join_commas(parts: Seq<Seq<char>>) -> Seq<char>
    decreases parts.len(),
{
    if parts.len() == 0 {
        Seq::empty()
    } else if parts.len() == 1 {
        parts[0]
    } else {
        join_commas(parts.drop_last()) + seq![','] + parts.last()
    }
}

/// The segments of `s` between its commas, in order, empty ones included.
/// Read from the left, a comma opens a new segment and any other character
/// extends the segment that is open.
pub open spec fn split_commas(s: Seq<char>) -> Seq<Seq<char>>
    decreases s.len(),
{
    if s.len() == 0 {
        seq![Seq::empty()]
    } else {
        let before = split_commas(s.drop_last());
        if s.last() == ',' {
            before.push(Seq::empty())
        } else {
            before.drop_last().push(before.last().push(s.last()))
        }
    }
}

/// How many commas `s` holds.
pub open spec fn comma_count(s: Seq<char>) -> nat
    decreases s.len(),
{
    if s.len() == 0 {
        0
    } else if s.last() == ',' {
        comma_count(s.drop_last()) + 1
    } else {
        comma_count(s.drop_last())
    }
}

/// A text has one segment more than it has commas.
pub proof fn lemma_split_len(s: Seq<char>)
    ensures
        split_commas(s).len() == comma_count(s) + 1,
    decreases s.len(),
{
    if s.len() > 0 {
        lemma_split_len(s.drop_last());
        lemma_split_shape(s.drop_last());
    }
}

/// Joining two lists that each hold a text puts one comma between their
/// joined forms.
pub proof fn lemma_join_concat(a: Seq<Seq<char>>, b: Seq<Seq<char>>)
    requires
        a.len() >= 1,
        b.len() >= 1,
    ensures
        join_commas(a + b) == join_commas(a) + seq![','] + join_commas(b),
    decreases b.len(),
{
    let whole = a + b;
    assert(whole.last() == b.last());
    if b.len() == 1 {
        assert(whole.drop_last() == a);
    } else {
        assert(whole.drop_last() == a + b.drop_last());
        lemma_join_concat(a, b.drop_last());
        assert(join_commas(whole) == join_commas(a) + seq![','] + (join_commas(b.drop_last())
            + seq![','] + b.last()));
    }
}

/// Splitting always yields at least one segment, and no segment holds a comma.
pub proof fn lemma_split_shape(s: Seq<char>)
    ensures
        split_commas(s).len() >= 1,
        all_comma_free(split_commas(s)),
    decreases s.len(),
{
    if s.len() > 0 {
        lemma_split_shape(s.drop_last());
    }
}

/// Joining the segments of a text gives the text back.
pub proof fn lemma_join_split(s: Seq<char>)
    ensures
        join_commas(split_commas(s)) == s,
    decreases s.len(),
{
    if s.len() > 0 {
        let before = split_commas(s.drop_last());
        lemma_split_shape(s.drop_last());
        lemma_join_split(s.drop_last());
        assert(s == s.drop_last().push(s.last()));
        if s.last() == ',' {
            let parts = before.push(Seq::empty());
            assert(parts.drop_last() == before);
        } else {
            let grown = before.last().push(s.last());
            let parts = before.drop_last().push(grown);
            assert(parts.drop_last() == before.drop_last());
            if before.len() > 1 {
                assert(join_commas(parts) == join_commas(before).push(s.last()));
            }
        }
    }
}

/// Text without a comma, put behind `a`, extends the last segment of `a`.
pub proof fn lemma_split_extend(a: Seq<char>, b: Seq<char>)
    requires
        is_comma_free(b),
    ensures
        split_commas(a + b) == split_commas(a).drop_last().push(split_commas(a).last() + b),
    decreases b.len(),
{
    lemma_split_shape(a);
    if b.len() == 0 {
        assert(a + b == a);
        assert(split_commas(a).last() + b == split_commas(a).last());
        assert(split_commas(a).drop_last().push(split_commas(a).last()) == split_commas(a));
    } else {
        let whole = a + b;
        assert(whole.drop_last() == a + b.drop_last());
        assert(whole.last() == b.last());
        lemma_split_extend(a, b.drop_last());
        let last = split_commas(a).last();
        assert((last + b.drop_last()).push(b.last()) == last + b);
    }
}

/// Splitting undoes joining, for at least one text and texts without commas.
pub proof fn lemma_split_join(parts: Seq<Seq<char>>)
    requires
        parts.len() >= 1,
        all_comma_free(parts),
    ensures
        split_commas(join_commas(parts)) == parts,
    decreases parts.len(),
{
    let empty = Seq::<char>::empty();
    if parts.len() == 1 {
        lemma_split_extend(empty, parts[0]);
        assert(empty + parts[0] == parts[0]);
        assert(split_commas(empty) == seq![empty]);
        assert(seq![empty].drop_last().push(empty + parts[0]) == parts);
    } else {
        let init = parts.drop_last();
        assert(all_comma_free(init)) by {
            assert forall|k: int| 0 <= k < init.len() implies is_comma_free(#[trigger] init[k]) by {
                assert(init[k] == parts[k]);
            }
        }
        lemma_split_join(init);
        let opened = join_commas(init) + seq![','];
        assert(opened.drop_last() == join_commas(init));
        assert(split_commas(opened) == init.push(empty));
        lemma_split_extend(opened, parts.last());
        assert(init.push(empty).drop_last() == init);
        assert(empty + parts.last() == parts.last());
        assert(init.push(parts.last()) == parts);
    }
}

/// The views of the texts in `parts`.
pub open spec fn texts_of(parts: Seq<&str>) -> Seq<Seq<char>> {
    parts.map_values(|p: &str| p@)
}

/// Splits `input` at each comma. Empty segments are kept, so the result has
/// one segment more than `input` has commas. Segments are cut by character
/// position, so each cut walks the text up to its end.
pub fn split_at_commas<'a>(input: &'a str) -> (parts: Vec<&'a str>)
    ensures
        texts_of(parts@) == split_commas(input@),
{
    // The count bounds `pos` below, so that it cannot overflow.
    let len = input.unicode_len();
    let mut parts: Vec<&'a str> = Vec::new();
    let mut start: usize = 0;
    let mut pos: usize = 0;
    assert(input@.take(0).len() == 0);
    assert(input@.subrange(0, 0) == Seq::<char>::empty());
    assert(texts_of(parts@).push(Seq::<char>::empty()) == seq![Seq::<char>::empty()]);
    for c in it: input.chars()
        invariant
            len == input@.len(),
            it.seq() == input@,
            pos == it.index(),
            start <= pos,
            texts_of(parts@).push(input@.subrange(start as int, pos as int)) == split_commas(
                input@.take(pos as int),
            ),
    {
        let ghost before = split_commas(input@.take(pos as int));
        assert(input@.take(pos + 1).drop_last() == input@.take(pos as int));
        assert(input@.take(pos + 1).last() == c);
        if c == ',' {
            let part = input.substring_char(start, pos);
            let ghost old_parts = parts@;
            parts.push(part);
            assert(texts_of(parts@) == texts_of(old_parts).push(part@));
            start = pos + 1;
            assert(input@.subrange(start as int, pos + 1) == Seq::<char>::empty());
        } else {
            assert(input@.subrange(start as int, pos + 1) == input@.subrange(
                start as int,
                pos as int,
            ).push(c));
            assert(before.drop_last() == texts_of(parts@));
        }
        pos = pos + 1;
    }
    assert(input@.take(pos as int) == input@);
    let part = input.substring_char(start, pos);
    let ghost old_parts = parts@;
    parts.push(part);
    assert(texts_of(parts@) == texts_of(old_parts).push(part@));
    parts
}

} // verus!

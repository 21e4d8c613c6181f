use vstd::prelude::*;
use vstd::std_specs::iter::IteratorSpec;

verus! {

/// `String::push` of the standard library: the text becomes longer by the character, at its end.
pub assume_specification[ String::push ](s: &mut String, ch: char)
    ensures
        final(s)@ == old(s)@.push(ch),
;

/// Whether two texts are equal, character by character.
pub(crate) fn same_text(left: &str, right: &str) -> (same: bool)
    ensures
        same == (left@ == right@),
{
    let mut left_chars = left.chars();
    let mut right_chars = right.chars();
    let ghost mut done: int = 0;
    loop
        invariant
            0 <= done <= left@.len(),
            done <= right@.len(),
            left_chars.obeys_prophetic_iter_laws(),
            right_chars.obeys_prophetic_iter_laws(),
            left_chars.remaining() == left@.skip(done),
            right_chars.remaining() == right@.skip(done),
            left@.take(done) == right@.take(done),
        decreases left@.len() - done,
    {
        match (left_chars.next(), right_chars.next()) {
            (None, None) => {
                assert(left@.take(done) == left@ && right@.take(done) == right@);
                return true;
            },
            (Some(l), Some(r)) => {
                if l != r {
                    return false;
                }
                proof {
                    assert(left@.take(done + 1) == left@.take(done).push(l));
                    assert(right@.take(done + 1) == right@.take(done).push(r));
                    done = done + 1;
                }
            },
            _ => {
                return false;
            },
        }
    }
}

/// Whether `text` starts with `prefix`.
pub(crate) fn starts_with(text: &str, prefix: &str) -> (starts: bool)
    ensures
        starts == prefix@.is_prefix_of(text@),
{
    let mut rest = text.chars();
    for c in it: prefix.chars()
        invariant
            it.seq() == prefix@,
            rest.obeys_prophetic_iter_laws(),
            it.index() <= text@.len(),
            rest.remaining() == text@.skip(it.index() as int),
            forall|i: int| 0 <= i < it.index() ==> text@[i] == prefix@[i],
    {
        match rest.next() {
            None => {
                return false;
            },
            Some(d) => {
                if c != d {
                    return false;
                }
            },
        }
    }
    true
}

/// Whether the last character of `text` is `last`.
pub(crate) fn ends_with(text: &str, last: char) -> (ends: bool)
    ensures
        ends == (text@.len() > 0 && text@.last() == last),
{
    let mut ends = false;
    for c in it: text.chars()
        invariant
            it.seq() == text@,
            ends == (it.index() > 0 && text@[it.index() - 1] == last),
    {
        ends = c == last;
    }
    ends
}

/// The character for a digit.
pub open spec fn digit(value: nat) -> char {
    ('0' as u32 + value) as char
}

/// A number in decimal notation.
pub open spec fn decimal(value: nat) -> Seq<char>
    decreases value,
{
    if value < 10 {
        seq![digit(value)]
    } else {
        decimal(value / 10).push(digit(value % 10))
    }
}

/// Appends `value` in decimal notation.
pub(crate) fn push_decimal(out: &mut String, value: u32)
    ensures
        final(out)@ == old(out)@ + decimal(value as nat),
    decreases value,
{
    if value >= 10 {
        push_decimal(out, value / 10);
    }
    let low: u8 = (value % 10) as u8;
    out.push((48 + low) as char);
}

/// The texts of a list.
pub open spec fn texts(list: Seq<String>) -> Seq<Seq<char>> {
    list.map_values(|s: String| s@)
}

/// The texts of a list of borrowed names.
pub open spec fn names(list: Seq<&str>) -> Seq<Seq<char>> {
    list.map_values(|s: &str| s@)
}

/// The parts one after the other, with `separator` between any two.
pub open spec fn join(parts: Seq<Seq<char>>, separator: Seq<char>) -> Seq<char>
    decreases parts.len(),
{
    if parts.len() == 0 {
        Seq::empty()
    } else if parts.len() == 1 {
        parts[0]
    } else {
        join(parts.drop_last(), separator) + separator + parts.last()
    }
}

/// Joins the names of a list.
pub(crate) fn join_names(list: &Vec<&str>, separator: &str) -> (joined: String)
    ensures
        joined@ == join(names(list@), separator@),
{
    let mut joined = String::new();
    for i in 0..list.len()
        invariant
            joined@ == join(names(list@).take(i as int), separator@),
    {
        if i > 0 {
            joined.append(separator);
        }
        joined.append(list[i]);
        proof {
            let parts = names(list@).take(i + 1);
            assert(parts.drop_last() == names(list@).take(i as int));
            assert(i == 0 ==> parts[0] == joined@);
        }
    }
    proof {
        assert(names(list@).take(list.len() as int) == names(list@));
    }
    joined
}

/// The parts of `text` between occurrences of `separator`; there is one more of them than there
/// are occurrences.
pub open spec fn split(text: Seq<char>, separator: char) -> Seq<Seq<char>>
    decreases text.len(),
{
    if text.len() == 0 {
        seq![Seq::empty()]
    } else {
        let parts = split(text.drop_last(), separator);
        if text.last() == separator {
            parts.push(Seq::empty())
        } else {
            parts.drop_last().push(parts.last().push(text.last()))
        }
    }
}

/// The parts of a text that is longer by one character.
pub proof fn lemma_split_push(text: Seq<char>, separator: char, c: char)
    ensures
        split(text, separator).len() >= 1,
        split(text.push(c), separator) == if c == separator {
            split(text, separator).push(Seq::empty())
        } else {
            split(text, separator).drop_last().push(split(text, separator).last().push(c))
        },
    decreases text.len(),
{
    assert(text.push(c).drop_last() == text);
    if text.len() > 0 {
        lemma_split_push(text.drop_last(), separator, text.last());
        assert(text.drop_last().push(text.last()) == text);
    }
}

/// The parts of a text that is longer by a text without separator.
proof fn lemma_split_append(text: Seq<char>, separator: char, more: Seq<char>)
    requires
        !more.contains(separator),
    ensures
        split(text + more, separator) == split(text, separator).drop_last().push(
            split(text, separator).last() + more,
        ),
    decreases more.len(),
{
    let parts = split(text, separator);
    lemma_split_push(text, separator, separator);
    if more.len() == 0 {
        assert(text + more == text);
        assert(parts.last() + more == parts.last());
        assert(parts.drop_last().push(parts.last()) == parts);
    } else {
        assert(more.last() == more[more.len() - 1]);
        assert forall|i: int| 0 <= i < more.drop_last().len() implies more.drop_last()[i]
            != separator by {
            assert(more[i] != separator);
        }
        lemma_split_append(text, separator, more.drop_last());
        lemma_split_push(text + more.drop_last(), separator, more.last());
        assert(text + more == (text + more.drop_last()).push(more.last()));
        let longer = parts.drop_last().push(parts.last() + more.drop_last());
        assert(longer.drop_last() == parts.drop_last());
        assert(parts.last() + more == (parts.last() + more.drop_last()).push(more.last()));
    }
}

/// Splitting loses nothing: the parts, joined with the separator, are the text again, and none
/// of them holds the separator.
pub proof fn law_split_then_join(text: Seq<char>, separator: char)
    ensures
        join(split(text, separator), seq![separator]) == text,
        forall|i: int|
            0 <= i < split(text, separator).len() ==> !(#[trigger] split(
                text,
                separator,
            )[i]).contains(separator),
    decreases text.len(),
{
    if text.len() > 0 {
        let before = text.drop_last();
        let parts = split(before, separator);
        let after = split(text, separator);
        law_split_then_join(before, separator);
        lemma_split_push(before, separator, text.last());
        assert(before.push(text.last()) == text);
        if text.last() == separator {
            assert(after.drop_last() == parts);
            assert(text == before + seq![separator] + Seq::<char>::empty());
        } else {
            let head = parts.drop_last();
            assert(after.drop_last() == head);
            assert(parts == head.push(parts.last()));
            assert(!parts[parts.len() - 1].contains(separator));
            assert forall|i: int| 0 <= i < after.len() implies !(
            #[trigger] after[i]).contains(separator) by {
                if i < head.len() {
                    assert(after[i] == parts[i]);
                } else {
                    let part = parts.last();
                    assert(after[i] == part.push(text.last()));
                    assert forall|k: int| 0 <= k < after[i].len() implies after[i][k]
                        != separator by {
                        if k < part.len() {
                            assert(part[k] != separator);
                        }
                    }
                }
            }
            if head.len() == 0 {
                assert(after[0] == before.push(text.last()));
            } else {
                assert(join(head, seq![separator]) + seq![separator] + parts.last().push(
                    text.last(),
                ) == (join(head, seq![separator]) + seq![separator] + parts.last()).push(
                    text.last(),
                ));
            }
        }
    }
}

/// Joining loses nothing: parts without separator, joined with it, split into these parts.
pub proof fn law_join_then_split(parts: Seq<Seq<char>>, separator: char)
    requires
        parts.len() > 0,
        forall|i: int| 0 <= i < parts.len() ==> !(#[trigger] parts[i]).contains(separator),
    ensures
        split(join(parts, seq![separator]), separator) == parts,
    decreases parts.len(),
{
    let head = parts.drop_last();
    let last = parts.last();
    assert(!parts[parts.len() - 1].contains(separator));
    if head.len() == 0 {
        lemma_split_append(Seq::empty(), separator, last);
        assert(Seq::<char>::empty() + last == last);
        assert(split(Seq::<char>::empty(), separator).drop_last() == Seq::<Seq<char>>::empty());
        assert(split(last, separator) == parts);
    } else {
        assert forall|i: int| 0 <= i < head.len() implies !(#[trigger] head[i]).contains(
            separator,
        ) by {
            assert(head[i] == parts[i]);
        }
        law_join_then_split(head, separator);
        let joined = join(head, seq![separator]);
        lemma_split_push(joined, separator, separator);
        lemma_split_append(joined.push(separator), separator, last);
        assert(joined + seq![separator] == joined.push(separator));
        assert(head.push(Seq::<char>::empty()).drop_last() == head);
        assert(Seq::<char>::empty() + last == last);
        assert(head.push(last) == parts);
    }
}

/// The parts of a text behind which a separator and a text without separator stand.
pub proof fn lemma_split_tail(parts: Seq<Seq<char>>, separator: char, tail: Seq<char>)
    requires
        parts.len() > 0,
        forall|i: int| 0 <= i < parts.len() ==> !(#[trigger] parts[i]).contains(separator),
        !tail.contains(separator),
    ensures
        split(join(parts, seq![separator]).push(separator) + tail, separator) == parts.push(tail),
{
    let longer = parts.push(tail);
    assert forall|i: int| 0 <= i < longer.len() implies !(#[trigger] longer[i]).contains(
        separator,
    ) by {
        if i < parts.len() {
            assert(longer[i] == parts[i]);
        }
    }
    law_join_then_split(longer, separator);
    assert(longer.drop_last() == parts);
    assert(join(parts, seq![separator]) + seq![separator] + tail == join(
        parts,
        seq![separator],
    ).push(separator) + tail);
}

} // verus!

use crate::builder::{distinct_names, has_target, models, same_targets};
use crate::color::{palette, ColorPicker};
use crate::target::{Target, TargetModel};
use vstd::prelude::*;
use vstd::utf8::{encode_utf8, encode_utf8_decode_utf8};

verus! {

/// The lexicographic order of byte sequences.
pub open spec fn bytes_before(left: Seq<u8>, right: Seq<u8>) -> bool
    decreases left.len(),
{
    if right.len() == 0 {
        false
    } else if left.len() == 0 {
        true
    } else if left[0] != right[0] {
        left[0] < right[0]
    } else {
        bytes_before(left.drop_first(), right.drop_first())
    }
}

/// The order of texts: the lexicographic order of their UTF-8 encodings.
pub open spec fn text_before(left: Seq<char>, right: Seq<char>) -> bool {
    bytes_before(encode_utf8(left), encode_utf8(right))
}

/// The targets stand in the order of their names.
pub open spec fn ordered_by_name(targets: Seq<(Seq<char>, TargetModel)>) -> bool {
    forall|i: int, j: int|
        0 <= i < j < targets.len() ==> text_before(
            (#[trigger] targets[i]).0,
            (#[trigger] targets[j]).0,
        )
}

/// The target called `name`, as the one at this position of all targets in the order of their
/// names: it writes its output under its name and in a colour of its position.
pub open spec fn labelled(name: Seq<char>, target: TargetModel, position: int) -> TargetModel {
    TargetModel {
        name: Some(name),
        color: Some(palette()[position % (palette().len() as int)]),
        ..target
    }
}

/// The target at position `j` of `after` is the one at position `i` of `before`, with its name
/// and colour.
pub open spec fn is_labelled(
    before: Seq<(Seq<char>, TargetModel)>,
    i: int,
    after: Seq<(Seq<char>, TargetModel)>,
    j: int,
) -> bool {
    &&& 0 <= i < before.len()
    &&& 0 <= j < after.len()
    &&& after[j] == (before[i].0, labelled(before[i].0, before[i].1, j))
}

/// The target at position `i` of `before` is one of `after`, with its name and colour.
pub open spec fn is_kept(
    before: Seq<(Seq<char>, TargetModel)>,
    i: int,
    after: Seq<(Seq<char>, TargetModel)>,
) -> bool {
    exists|j: int| is_labelled(before, i, after, j)
}

/// The target at position `j` of `after` is one of `before`, with its name and colour.
pub open spec fn is_known(
    before: Seq<(Seq<char>, TargetModel)>,
    after: Seq<(Seq<char>, TargetModel)>,
    j: int,
) -> bool {
    exists|i: int| is_labelled(before, i, after, j)
}

/// `after` holds the targets of `before` with their names and colours, and no others.
pub open spec fn are_labelled(
    before: Seq<(Seq<char>, TargetModel)>,
    after: Seq<(Seq<char>, TargetModel)>,
) -> bool {
    &&& after.len() == before.len()
    &&& forall|i: int| 0 <= i < before.len() ==> #[trigger] is_kept(before, i, after)
    &&& forall|j: int| 0 <= j < after.len() ==> #[trigger] is_known(before, after, j)
}

/// Byte sequences that differ are ordered, one way only.
proof fn lemma_bytes_total(left: Seq<u8>, right: Seq<u8>)
    ensures
        left != right ==> (bytes_before(left, right) <==> !bytes_before(right, left)),
        left == right ==> !bytes_before(left, right),
    decreases left.len(),
{
    if left.len() > 0 && right.len() > 0 && left[0] == right[0] {
        lemma_bytes_total(left.drop_first(), right.drop_first());
        if left.drop_first() == right.drop_first() {
            assert(left == seq![left[0]] + left.drop_first());
            assert(right == seq![right[0]] + right.drop_first());
        }
    } else if left.len() == 0 && right.len() == 0 {
        assert(left == right);
    }
}

/// The order of byte sequences is transitive.
proof fn lemma_bytes_transitive(first: Seq<u8>, second: Seq<u8>, third: Seq<u8>)
    requires
        bytes_before(first, second),
        bytes_before(second, third),
    ensures
        bytes_before(first, third),
    decreases first.len(),
{
    if first.len() > 0 && first[0] == second[0] && second[0] == third[0] {
        lemma_bytes_transitive(first.drop_first(), second.drop_first(), third.drop_first());
    }
}

/// Texts that differ are ordered, one way only.
pub proof fn lemma_text_order_total(left: Seq<char>, right: Seq<char>)
    ensures
        left != right ==> (text_before(left, right) <==> !text_before(right, left)),
        left == right ==> !text_before(left, right),
{
    encode_utf8_decode_utf8(left);
    encode_utf8_decode_utf8(right);
    lemma_bytes_total(encode_utf8(left), encode_utf8(right));
}

/// The order of texts is transitive.
pub proof fn lemma_text_order_transitive(first: Seq<char>, second: Seq<char>, third: Seq<char>)
    requires
        text_before(first, second),
        text_before(second, third),
    ensures
        text_before(first, third),
{
    lemma_bytes_transitive(encode_utf8(first), encode_utf8(second), encode_utf8(third));
}

/// Whether one text comes before another.
fn comes_before(left: &str, right: &str) -> (before: bool)
    ensures
        before == text_before(left@, right@),
{
    let left_bytes = left.as_bytes();
    let right_bytes = right.as_bytes();
    let mut i: usize = 0;
    assert(left_bytes@.skip(0) == left_bytes@);
    assert(right_bytes@.skip(0) == right_bytes@);
    while i < left_bytes.len() && i < right_bytes.len()
        invariant
            left_bytes@ == encode_utf8(left@),
            right_bytes@ == encode_utf8(right@),
            i <= left_bytes@.len(),
            i <= right_bytes@.len(),
            bytes_before(left_bytes@, right_bytes@) == bytes_before(
                left_bytes@.skip(i as int),
                right_bytes@.skip(i as int),
            ),
        decreases left_bytes@.len() - i,
    {
        proof {
            assert(left_bytes@.skip(i as int).drop_first() == left_bytes@.skip(i + 1));
            assert(right_bytes@.skip(i as int).drop_first() == right_bytes@.skip(i + 1));
        }
        if left_bytes[i] != right_bytes[i] {
            return left_bytes[i] < right_bytes[i];
        }
        i += 1;
    }
    i < right_bytes.len()
}

/// Puts a target into its place among targets in the order of their names.
fn insert_by_name(sorted: &mut Vec<(String, Target)>, name: String, target: Target)
    requires
        ordered_by_name(models(old(sorted)@)),
        forall|i: int| 0 <= i < old(sorted)@.len() ==> (#[trigger] old(sorted)@[i]).0@ != name@,
    ensures
        ordered_by_name(models(final(sorted)@)),
        exists|at: int|
            0 <= at <= old(sorted)@.len() && final(sorted)@ == #[trigger] old(sorted)@.insert(
                at,
                (name, target),
            ),
{
    let ghost before = sorted@;
    let mut at: usize = 0;
    while at < sorted.len() && !comes_before(name.as_str(), sorted[at].0.as_str())
        invariant
            sorted@ == before,
            at <= before.len(),
            forall|i: int|
                0 <= i < at ==> !text_before(name@, (#[trigger] before[i]).0@),
        ensures
            sorted@ == before,
            at <= before.len(),
            forall|i: int|
                0 <= i < at ==> !text_before(name@, (#[trigger] before[i]).0@),
            at < before.len() ==> text_before(name@, before[at as int].0@),
        decreases before.len() - at,
    {
        at += 1;
    }
    sorted.insert(at, (name, target));
    proof {
        let list = models(before);
        let longer = models(sorted@);
        assert(longer == list.insert(at as int, (name@, target@)));
        assert forall|i: int, j: int| 0 <= i < j < longer.len() implies text_before(
            (#[trigger] longer[i]).0,
            (#[trigger] longer[j]).0,
        ) by {
            if j == at {
                assert(longer[i] == list[i]);
                assert(before[i].0@ == list[i].0);
                lemma_text_order_total(name@, list[i].0);
            } else if i == at {
                assert(longer[j] == list[j - 1]);
                assert(list[at as int].0 == before[at as int].0@);
                if j - 1 > at {
                    assert(text_before(list[at as int].0, list[j - 1].0));
                    lemma_text_order_transitive(name@, list[at as int].0, list[j - 1].0);
                }
            } else {
                let k = if i < at { i } else { i - 1 };
                let l = if j < at { j } else { j - 1 };
                assert(longer[i] == list[k] && longer[j] == list[l]);
            }
        }
    }
}

/// Gives every target its name and its colour, and puts the targets into the order of their
/// names.
pub fn label_targets(targets: Vec<(String, Target)>) -> (labelled_targets: Vec<(String, Target)>)
    requires
        distinct_names(models(targets@)),
    ensures
        labelled_targets@.len() == targets@.len(),
        distinct_names(models(labelled_targets@)),
        ordered_by_name(models(labelled_targets@)),
        are_labelled(models(targets@), models(labelled_targets@)),
{
    let ghost all = targets@;
    let mut rest = targets;
    let mut sorted: Vec<(String, Target)> = Vec::new();
    while rest.len() > 0
        invariant
            distinct_names(models(all)),
            rest@ == all.take(rest@.len() as int),
            rest@.len() + sorted@.len() == all.len(),
            ordered_by_name(models(sorted@)),
            forall|i: int| rest@.len() <= i < all.len() ==> sorted@.contains(#[trigger] all[i]),
            forall|j: int|
                0 <= j < sorted@.len() ==> all.skip(rest@.len() as int).contains(
                    #[trigger] sorted@[j],
                ),
        decreases rest@.len(),
    {
        let ghost count = rest@.len();
        let ghost before = sorted@;
        match rest.pop() {
            Some((name, target)) => {
                proof {
                    assert((name, target) == all[count - 1]);
                    assert forall|j: int| 0 <= j < before.len() implies (
                    #[trigger] before[j]).0@ != name@ by {
                        let later = all.skip(count as int);
                        let k = later.index_of(before[j]);
                        assert(later[k] == all[count + k]);
                        assert(models(all)[count - 1].0 == name@);
                        assert(models(all)[count + k].0 == before[j].0@);
                    }
                }
                insert_by_name(&mut sorted, name, target);
                proof {
                    let at = choose|at: int|
                        0 <= at <= before.len() && sorted@ == #[trigger] before.insert(
                            at,
                            (name, target),
                        );
                    let later = all.skip(count - 1);
                    assert(later[0] == (name, target));
                    assert forall|i: int| count - 1 <= i < all.len() implies sorted@.contains(
                        #[trigger] all[i],
                    ) by {
                        if i == count - 1 {
                            assert(sorted@[at] == all[i]);
                        } else {
                            let k = before.index_of(all[i]);
                            assert(sorted@[if k < at { k } else { k + 1 }] == all[i]);
                        }
                    }
                    assert forall|j: int| 0 <= j < sorted@.len() implies later.contains(
                        #[trigger] sorted@[j],
                    ) by {
                        if j != at {
                            let k = if j < at { j } else { j - 1 };
                            assert(sorted@[j] == before[k]);
                            let l = all.skip(count as int).index_of(before[k]);
                            assert(all.skip(count as int)[l] == later[l + 1]);
                        }
                    }
                }
            },
            None => {},
        }
    }
    assert(all.skip(0) == all);
    let ghost ordered = sorted@;
    let mut picker = ColorPicker::new();
    let count = sorted.len();
    for i in 0..count
        invariant
            picker.wf(),
            count == sorted@.len(),
            sorted@.len() == ordered.len(),
            ordered_by_name(models(ordered)),
            picker@.next == (i as int) % (palette().len() as int),
            forall|name: Seq<char>| #[trigger]
                picker@.assigned.contains_key(name) ==> exists|j: int|
                    0 <= j < i && (#[trigger] ordered[j]).0@ == name,
            forall|j: int|
                0 <= j < i ==> {
                    &&& (#[trigger] sorted@[j]).0 == ordered[j].0
                    &&& sorted@[j].1@ == labelled(ordered[j].0@, ordered[j].1@, j)
                },
            forall|j: int| i <= j < sorted@.len() ==> #[trigger] sorted@[j] == ordered[j],
    {
        proof {
            assert forall|j: int| 0 <= j < i implies (#[trigger] ordered[j]).0@
                != ordered[i as int].0@ by {
                assert(models(ordered)[j].0 == ordered[j].0@);
                assert(models(ordered)[i as int].0 == ordered[i as int].0@);
                lemma_text_order_total(ordered[j].0@, ordered[i as int].0@);
            }
            assert(sorted@[i as int] == ordered[i as int]);
        }
        assert(palette().len() == 17);
        let ghost assigned = picker@.assigned;
        let entry = &mut sorted[i];
        let color = picker.get(entry.0.as_str());
        entry.1.name = Some(entry.0.clone());
        entry.1.color = Some(color);
        proof {
            assert forall|name: Seq<char>| #[trigger]
                picker@.assigned.contains_key(name) implies exists|j: int|
                0 <= j < i + 1 && (#[trigger] ordered[j]).0@ == name by {
                if assigned.contains_key(name) {
                    let j = choose|j: int| 0 <= j < i && (#[trigger] ordered[j]).0@ == name;
                    assert(0 <= j < i + 1 && ordered[j].0@ == name);
                } else {
                    assert(ordered[i as int].0@ == name);
                }
            }
        }
    }
    proof {
        let before = models(all);
        let after = models(sorted@);
        assert forall|j: int| 0 <= j < after.len() implies (#[trigger] after[j]).0 == models(
            ordered,
        )[j].0 by {
            assert(sorted@[j].0 == ordered[j].0);
        }
        assert forall|i: int, j: int| 0 <= i < j < after.len() implies (#[trigger] after[i]).0 != (
        #[trigger] after[j]).0 by {
            lemma_text_order_total(after[i].0, after[j].0);
        }
        assert forall|i: int| 0 <= i < before.len() implies #[trigger] is_kept(
            before,
            i,
            after,
        ) by {
            let j = ordered.index_of(all[i]);
            assert(sorted@[j].0 == ordered[j].0);
            assert(is_labelled(before, i, after, j));
        }
        assert forall|j: int| 0 <= j < after.len() implies #[trigger] is_known(
            before,
            after,
            j,
        ) by {
            let i = all.index_of(ordered[j]);
            assert(sorted@[j].0 == ordered[j].0);
            assert(is_labelled(before, i, after, j));
        }
    }
    sorted
}

/// Targets in the order of their names, of which all in `left` are in `right`, and the other way
/// round, have the same names in the same places.
proof fn lemma_same_order(
    left: Seq<(Seq<char>, TargetModel)>,
    right: Seq<(Seq<char>, TargetModel)>,
    i: int,
)
    requires
        ordered_by_name(left),
        ordered_by_name(right),
        forall|k: int| 0 <= k < left.len() ==> has_target(right, (#[trigger] left[k]).0),
        forall|k: int| 0 <= k < right.len() ==> has_target(left, (#[trigger] right[k]).0),
        0 <= i < left.len(),
    ensures
        i < right.len(),
        left[i].0 == right[i].0,
    decreases i,
{
    if i > 0 {
        lemma_same_order(left, right, i - 1);
    }
    assert forall|k: int| 0 <= k < i implies (#[trigger] left[k]).0 == right[k].0 by {
        lemma_same_order(left, right, k);
    }
    let a = choose|a: int| 0 <= a < right.len() && (#[trigger] right[a]).0 == left[i].0;
    if a < i {
        assert(left[a].0 == right[a].0);
        lemma_text_order_total(left[a].0, left[i].0);
    }
    let b = choose|b: int| 0 <= b < left.len() && (#[trigger] left[b]).0 == right[i].0;
    if b < i {
        assert(left[b].0 == right[b].0);
        lemma_text_order_total(right[b].0, right[i].0);
    }
    if a > i {
        assert(text_before(right[i].0, right[a].0));
        if b > i {
            assert(text_before(left[i].0, left[b].0));
        }
        lemma_text_order_total(left[i].0, right[i].0);
    }
}

/// Every target of `before` is one of `after`, by its name.
proof fn lemma_names_kept(
    before: Seq<(Seq<char>, TargetModel)>,
    others: Seq<(Seq<char>, TargetModel)>,
    after: Seq<(Seq<char>, TargetModel)>,
    other_after: Seq<(Seq<char>, TargetModel)>,
)
    requires
        same_targets(before, others),
        are_labelled(before, after),
        are_labelled(others, other_after),
    ensures
        forall|k: int| 0 <= k < after.len() ==> has_target(other_after, (#[trigger] after[k]).0),
{
    assert forall|k: int| 0 <= k < after.len() implies has_target(
        other_after,
        (#[trigger] after[k]).0,
    ) by {
        assert(is_known(before, after, k));
        let i = choose|i: int| is_labelled(before, i, after, k);
        assert(before.contains(before[i]));
        let j = others.index_of(before[i]);
        assert(is_kept(others, j, other_after));
        let l = choose|l: int| is_labelled(others, j, other_after, l);
        assert(other_after[l].0 == after[k].0);
    }
}

/// Names, colours and places of the targets do not depend on the order in which the targets come.
pub proof fn law_labels_need_no_order(
    before: Seq<(Seq<char>, TargetModel)>,
    others: Seq<(Seq<char>, TargetModel)>,
    after: Seq<(Seq<char>, TargetModel)>,
    other_after: Seq<(Seq<char>, TargetModel)>,
)
    requires
        distinct_names(before),
        same_targets(before, others),
        are_labelled(before, after),
        ordered_by_name(after),
        are_labelled(others, other_after),
        ordered_by_name(other_after),
    ensures
        after == other_after,
{
    lemma_names_kept(before, others, after, other_after);
    lemma_names_kept(others, before, other_after, after);
    if after.len() > 0 {
        lemma_same_order(after, other_after, after.len() - 1);
    }
    if other_after.len() > 0 {
        lemma_same_order(other_after, after, other_after.len() - 1);
    }
    assert forall|k: int| 0 <= k < after.len() implies after[k] == other_after[k] by {
        lemma_same_order(after, other_after, k);
        assert(is_known(before, after, k));
        assert(is_known(others, other_after, k));
        let i = choose|i: int| is_labelled(before, i, after, k);
        let j = choose|j: int| is_labelled(others, j, other_after, k);
        assert(others.contains(others[j]));
        let l = before.index_of(others[j]);
        assert(l < i ==> before[l].0 != before[i].0);
        assert(i < l ==> before[i].0 != before[l].0);
    }
    assert(after == other_after);
}

} // verus!

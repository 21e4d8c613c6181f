use crate::color::{law_new_name_gets_next_color, palette, Color, PickerModel};
use crate::command::{
    decimals, kill_command_text, run_error_text, signal_step, transfer, SignalPoll,
};
use crate::config::{bytes_before, text_before};
use crate::digest::{can_digest, concatenated, joint_digest, sha1_hex};
use crate::error::{BuildLoopError, LoopFault, RunSignal, SanityCheckError, SanityFault};
use crate::schedule::{optional_text, watcher_error_text};
use crate::target_build::outcome;
use crate::text::{
    decimal, join, law_join_then_split, lemma_split_push, names, split, texts,
};
use crate::writer::{line_prefix_of, prefixed, shown, shown_lines};
use vstd::prelude::*;
use vstd::utf8::encode_utf8;

verus! {

/// The number that a text of decimal digits stands for.
pub open spec fn number_of(text: Seq<char>) -> int
    decreases text.len(),
{
    if text.len() == 0 {
        0
    } else {
        10 * number_of(text.drop_last()) + (text.last() as int - '0' as int)
    }
}

/// The text is a number as it is usually written: of digits only, at least one of them, and
/// without a zero in front.
pub open spec fn is_number(text: Seq<char>) -> bool {
    &&& text.len() > 0
    &&& forall|i: int| 0 <= i < text.len() ==> '0' as int <= #[trigger] text[i] as int <= '9' as int
    &&& text.len() > 1 ==> text[0] != '0'
}

/// A number in decimal notation is a text of digits that reads back as the number.
pub proof fn law_decimal_reads_back(value: nat)
    ensures
        is_number(decimal(value)),
        number_of(decimal(value)) == value,
        value > 0 ==> decimal(value)[0] != '0',
    decreases value,
{
    let text = decimal(value);
    if value < 10 {
        assert(text.drop_last() == Seq::<char>::empty());
        assert(number_of(text.drop_last()) == 0);
    } else {
        let high = decimal(value / 10);
        law_decimal_reads_back(value / 10);
        assert(text.drop_last() == high);
        assert forall|i: int| 0 <= i < text.len() implies '0' as int <= #[trigger] text[i] as int
            <= '9' as int by {
            if i < high.len() {
                assert(text[i] == high[i]);
            }
        }
        assert(text[0] == high[0]);
    }
}

/// The command that kills processes is `kill`, a blank, and then one word per process, in order
/// and with one blank between any two: each reads back as the number of its process.
pub proof fn law_kill_command_names_processes(pids: Seq<u32>)
    ensures
        kill_command_text(pids).take(5) == seq!['k', 'i', 'l', 'l', ' '],
        pids.len() == 0 ==> kill_command_text(pids).len() == 5,
        pids.len() > 0 ==> split(kill_command_text(pids).skip(5), ' ').len() == pids.len(),
        forall|i: int|
            0 <= i < pids.len() ==> {
                &&& is_number(#[trigger] split(kill_command_text(pids).skip(5), ' ')[i])
                &&& number_of(split(kill_command_text(pids).skip(5), ' ')[i]) == pids[i]
            },
{
    reveal_strlit("kill ");
    reveal_strlit(" ");
    let words = decimals(pids);
    let text = kill_command_text(pids);
    assert(" "@ == seq![' ']);
    assert("kill "@ == seq!['k', 'i', 'l', 'l', ' ']);
    assert(text.take(5) == "kill "@);
    assert(text.skip(5) == join(words, seq![' ']));
    assert(words.len() == pids.len());
    assert forall|i: int| 0 <= i < words.len() implies !(#[trigger] words[i]).contains(' ') by {
        law_decimal_reads_back(pids[i] as nat);
        assert(words[i] == decimal(pids[i] as nat));
    }
    if pids.len() > 0 {
        law_join_then_split(words, ' ');
    }
    assert forall|i: int| 0 <= i < pids.len() implies {
        &&& is_number(#[trigger] split(text.skip(5), ' ')[i])
        &&& number_of(split(text.skip(5), ' ')[i]) == pids[i]
    } by {
        assert(words[i] == decimal(pids[i] as nat));
        law_decimal_reads_back(pids[i] as nat);
    }
}

/// A signal that has come kills the processes of the command, all of them and no others: one
/// command is run whose words behind `kill` read back as their numbers.
pub proof fn law_signal_kills_all_processes(pids: Seq<u32>)
    ensures
        ({
            let step = signal_step(SignalPoll::Received(RunSignal::Kill), pids);
            &&& step is RunKill
            &&& step->RunKill_0.take(5) == seq!['k', 'i', 'l', 'l', ' ']
            &&& pids.len() > 0 ==> split(step->RunKill_0.skip(5), ' ').len() == pids.len()
            &&& forall|i: int|
                0 <= i < pids.len() ==> number_of(
                    #[trigger] split(step->RunKill_0.skip(5), ' ')[i],
                ) == pids[i]
        }),
{
    law_kill_command_names_processes(pids);
}

/// The list of texts holds the text of each entry, in order.
pub proof fn law_texts_of_list(list: Seq<String>, borrowed: Seq<&str>)
    ensures
        texts(list).len() == list.len(),
        forall|i: int| 0 <= i < list.len() ==> #[trigger] texts(list)[i] == list[i]@,
        names(borrowed).len() == borrowed.len(),
        forall|i: int| 0 <= i < borrowed.len() ==> #[trigger] names(borrowed)[i] == borrowed[i]@,
{
}

/// The parts of two lists are joined by joining those of each, with the separator between the
/// two. One part is joined to itself, and none to nothing.
pub proof fn law_join_of_lists(left: Seq<Seq<char>>, right: Seq<Seq<char>>, separator: Seq<char>)
    ensures
        join(Seq::empty(), separator) == Seq::<char>::empty(),
        left.len() == 1 ==> join(left, separator) == left[0],
        left.len() > 0 && right.len() > 0 ==> join(left + right, separator) == join(
            left,
            separator,
        ) + separator + join(right, separator),
    decreases right.len(),
{
    if left.len() > 0 && right.len() > 0 {
        let head = right.drop_last();
        assert((left + right).drop_last() == left + head);
        assert((left + right).last() == right.last());
        if head.len() == 0 {
            assert(left + head == left);
            assert(right[0] == right.last());
        } else {
            law_join_of_lists(left, head, separator);
            assert(join(left, separator) + separator + join(head, separator) + separator
                + right.last() == join(left, separator) + separator + (join(head, separator)
                + separator + right.last()));
        }
    }
}

/// The length of a joined text is that of its parts and of the separators between them.
pub proof fn law_length_of_joined_text(parts: Seq<Seq<char>>, separator: Seq<char>)
    requires
        parts.len() > 0,
    ensures
        join(parts, separator).len() == parts.flatten().len() + (parts.len() - 1)
            * separator.len(),
    decreases parts.len(),
{
    parts.lemma_flatten_and_flatten_alt_are_equivalent();
    let head = parts.drop_last();
    if head.len() == 0 {
        parts.lemma_flatten_one_element();
        assert((parts.len() - 1) * separator.len() == 0) by (nonlinear_arith)
            requires
                parts.len() == 1,
        ;
    } else {
        law_length_of_joined_text(head, separator);
        head.lemma_flatten_and_flatten_alt_are_equivalent();
        assert((parts.len() - 1) * separator.len() == (head.len() - 1) * separator.len()
            + separator.len()) by (nonlinear_arith)
            requires
                parts.len() == head.len() + 1,
        ;
    }
}

/// A text has one part more than it has separators, and a text without separator is one part.
pub proof fn law_count_of_parts(text: Seq<char>, separator: char)
    ensures
        split(text, separator).len() == 1 + text.filter(|c: char| c == separator).len(),
        !text.contains(separator) ==> split(text, separator) == seq![text],
    decreases text.len(),
{
    reveal(Seq::filter);
    if text.len() > 0 {
        let head = text.drop_last();
        law_count_of_parts(head, separator);
        lemma_split_push(head, separator, text.last());
        assert(head.push(text.last()) == text);
        if !text.contains(separator) {
            assert(text[text.len() - 1] != separator);
            assert forall|i: int| 0 <= i < head.len() implies head[i] != separator by {
                assert(text[i] != separator);
            }
            assert(seq![head].drop_last().push(text) == seq![text]);
        }
    } else {
        assert(split(text, separator)[0] == text);
    }
}

/// The texts one after the other.
proof fn lemma_concatenated(parts: Seq<Seq<char>>)
    ensures
        concatenated(parts) == parts.flatten(),
    decreases parts.len(),
{
    parts.lemma_flatten_and_flatten_alt_are_equivalent();
    if parts.len() == 1 {
        parts.lemma_flatten_one_element();
    } else if parts.len() > 1 {
        lemma_concatenated(parts.drop_last());
        parts.drop_last().lemma_flatten_and_flatten_alt_are_equivalent();
        assert(concatenated(parts.drop_last()) + Seq::<char>::empty() == concatenated(
            parts.drop_last(),
        ));
    }
}

/// The checksum of a target is the digest of the bytes of all checksums of its watched paths, one
/// after the other, with nothing between them.
pub proof fn law_checksum_of_all_paths(checksums: Seq<Seq<char>>)
    ensures
        joint_digest(checksums) == sha1_hex(encode_utf8(checksums.flatten())),
        can_digest(checksums) <==> encode_utf8(checksums.flatten()).len() < 0x2000_0000_0000_0000,
{
    lemma_concatenated(checksums);
}

/// Lists of checksums that read the same, one after the other, have the same checksum.
pub proof fn law_same_contents_same_checksum(left: Seq<Seq<char>>, right: Seq<Seq<char>>)
    requires
        left.flatten() == right.flatten(),
    ensures
        joint_digest(left) == joint_digest(right),
{
    lemma_concatenated(left);
    lemma_concatenated(right);
}

/// A result keeps its value, and its error by the characters.
pub proof fn law_outcome_keeps_result<T>(value: T, error: String)
    ensures
        outcome(Ok::<T, String>(value)) == Ok::<T, Seq<char>>(value),
        outcome(Err::<T, String>(error)) == Err::<T, Seq<char>>(error@),
{
}

/// A number of bytes is kept, and an error by the characters.
pub proof fn law_transfer_keeps_result(count: usize, error: String)
    ensures
        transfer(Ok(count)) == Ok::<nat, Seq<char>>(count as nat),
        transfer(Err(error)) == Err::<nat, Seq<char>>(error@),
{
}

/// An optional text is there or not, and holds the characters.
pub proof fn law_optional_text_is_kept(text: String)
    ensures
        optional_text(Some(text)) == Some(text@),
        optional_text(None) is None,
{
}

/// What the text of a message is made of, if there is one part, or two, or more of them.
proof fn lemma_parts(a: Seq<char>, b: Seq<char>, c: Seq<char>, d: Seq<char>)
    ensures
        seq![a].flatten() == a,
        seq![a, b].flatten() == a + b,
        seq![a, b, c].flatten() == a + b + c,
        seq![a, b, c, d].flatten() == a + b + c + d,
{
    seq![a].lemma_flatten_one_element();
    seq![a].lemma_flatten_push(b);
    assert(seq![a].push(b) == seq![a, b]);
    seq![a, b].lemma_flatten_push(c);
    assert(seq![a, b].push(c) == seq![a, b, c]);
    seq![a, b, c].lemma_flatten_push(d);
    assert(seq![a, b, c].push(d) == seq![a, b, c, d]);
}

/// The message about a dependency that was not found names it between the words, and the one
/// about a circle names all targets of it in brackets.
pub proof fn law_sanity_messages(name: &str, circle: Vec<&str>)
    ensures
        SanityCheckError::DependencyNotFound(name).text() == seq![
            "Dependency "@,
            name@,
            " not found."@,
        ].flatten(),
        SanityCheckError::DependencyNotFound(name)@ == SanityFault::DependencyNotFound(name@),
        SanityCheckError::DependencyLoop(circle).text() == seq![
            "Dependency loop: ["@,
            join(names(circle@), seq![',', ' ']),
            "]"@,
        ].flatten(),
        SanityCheckError::DependencyLoop(circle)@ == SanityFault::DependencyLoop(names(circle@)),
{
    reveal_strlit(", ");
    assert(", "@ == seq![',', ' ']);
    lemma_parts("Dependency "@, name@, " not found."@, Seq::empty());
    lemma_parts(
        "Dependency loop: ["@,
        join(names(circle@), seq![',', ' ']),
        "]"@,
        Seq::empty(),
    );
}

/// The messages of the build loop are made of fixed words and of what went wrong, whole and in
/// this order. What an error holds is kept as it is.
pub proof fn law_loop_messages(name: &str, error: String)
    ensures
        BuildLoopError::BuildFailed(name).text() == seq![
            "Build failed for target "@,
            name@,
        ].flatten(),
        BuildLoopError::BuildFailed(name)@ == LoopFault::BuildFailed(name@),
        BuildLoopError::UnspecifiedChannelError.text() == "Unknown channel parllelism failure"@,
        BuildLoopError::UnspecifiedChannelError@ == LoopFault::UnspecifiedChannelError,
        BuildLoopError::SendError(RunSignal::Kill).text() == seq![
            "Failed to send run signal '"@,
            "KILL"@,
            "' to running process"@,
        ].flatten(),
        RunSignal::Kill.text() == "KILL"@,
        BuildLoopError::SendError(RunSignal::Kill)@ == LoopFault::SendError(RunSignal::Kill),
        BuildLoopError::RecvError(error).text() == seq![
            "Channel receive failure: "@,
            error@,
        ].flatten(),
        BuildLoopError::RecvError(error)@ == LoopFault::RecvError(error@),
        BuildLoopError::WatcherSetupError(error).text() == seq![
            "Watcher setup error: "@,
            error@,
        ].flatten(),
        BuildLoopError::WatcherSetupError(error)@ == LoopFault::WatcherSetupError(error@),
        BuildLoopError::WatcherPathError(name, error).text() == seq![
            "File watch error: "@,
            name@,
            ": "@,
            error@,
        ].flatten(),
        BuildLoopError::WatcherPathError(name, error)@ == LoopFault::WatcherPathError(
            name@,
            error@,
        ),
        BuildLoopError::CwdIOError(error).text() == seq![
            "IO Error while getting current directory: "@,
            error@,
        ].flatten(),
        BuildLoopError::CwdIOError(error)@ == LoopFault::CwdIOError(error@),
        BuildLoopError::CwdUtf8Error.text() == "Current directory was not valid utf-8"@,
        BuildLoopError::CwdUtf8Error@ == LoopFault::CwdUtf8Error,
{
    lemma_parts("Build failed for target "@, name@, Seq::empty(), Seq::empty());
    lemma_parts(
        "Failed to send run signal '"@,
        "KILL"@,
        "' to running process"@,
        Seq::empty(),
    );
    lemma_parts("Channel receive failure: "@, error@, Seq::empty(), Seq::empty());
    lemma_parts("Watcher setup error: "@, error@, Seq::empty(), Seq::empty());
    lemma_parts("File watch error: "@, name@, ": "@, error@);
    lemma_parts(
        "IO Error while getting current directory: "@,
        error@,
        Seq::empty(),
        Seq::empty(),
    );
}

/// Errors about different things have different messages: the message about a failed build tells
/// which target it was, and so does the one about a missing dependency.
pub proof fn law_messages_tell_names_apart(name: &str, other: &str)
    requires
        name@ != other@,
    ensures
        BuildLoopError::BuildFailed(name).text() != BuildLoopError::BuildFailed(other).text(),
        SanityCheckError::DependencyNotFound(name).text() != SanityCheckError::DependencyNotFound(
            other,
        ).text(),
{
    let before = "Build failed for target "@;
    if before + name@ == before + other@ {
        assert(name@ == (before + name@).skip(before.len() as int));
        assert(other@ == (before + other@).skip(before.len() as int));
    }
    let front = "Dependency "@;
    let back = " not found."@;
    if front + name@ + back == front + other@ + back {
        let text = front + name@ + back;
        assert(text.len() == front.len() + name@.len() + back.len());
        assert((front + other@ + back).len() == front.len() + other@.len() + back.len());
        assert(name@ == text.subrange(front.len() as int, (front.len() + name@.len()) as int));
        assert(other@ == text.subrange(front.len() as int, (front.len() + other@.len()) as int));
    }
}

/// The message about a command that could not be run names the command and then the error.
pub proof fn law_run_error_message(command: Seq<char>, error: Seq<char>)
    ensures
        run_error_text(command, error) == seq![
            "Failed to run command "@,
            command,
            ": "@,
            error,
        ].flatten(),
{
    lemma_parts("Failed to run command "@, command, ": "@, error);
}

/// The message about an error of the watcher names the path, if there is one, in quotes, and then
/// the error.
pub proof fn law_watcher_error_message(error: Seq<char>, path: Seq<char>)
    ensures
        watcher_error_text(error, None) == seq!["Watcher error "@, error].flatten(),
        watcher_error_text(error, Some(path)) == seq![
            "Watcher error at \""@,
            path,
            "\": "@,
            error,
        ].flatten(),
{
    lemma_parts("Watcher error "@, error, Seq::empty(), Seq::empty());
    lemma_parts("Watcher error at \""@, path, "\": "@, error);
}

/// The lines of a target begin with its name, a blank, a bar and a blank.
pub proof fn law_prefix_of_lines(name: Seq<char>)
    ensures
        line_prefix_of(name) == name + seq![' ', '|', ' '],
{
    reveal_strlit(" | ");
    assert(" | "@ == seq![' ', '|', ' ']);
}

/// The number of lines of a text that are shown: those that are ended, or the only one.
pub open spec fn count_shown(text: Seq<char>) -> nat {
    if text.contains('\n') {
        text.filter(|c: char| c == '\n').len()
    } else {
        1
    }
}

/// Each line that is shown is one of the text, in order and whole, behind the prefix: as many of
/// them as the text has line breaks, but one if it has none. A line break ends each of them.
pub proof fn law_lines_are_shown(prefix: Seq<char>, text: Seq<char>)
    ensures
        count_shown(text) >= 1,
        count_shown(text) <= split(text, '\n').len(),
        shown(prefix, text) == Seq::new(
            count_shown(text),
            |i: int| (prefix + split(text, '\n')[i]).push('\n'),
        ).flatten(),
{
    let lines = split(text, '\n');
    law_count_of_parts(text, '\n');
    if text.contains('\n') {
        lemma_has_break(text);
    }
    let count = count_shown(text);
    let wanted = Seq::new(count, |i: int| prefix + lines[i]);
    assert(prefixed(prefix, shown_lines(text)) == wanted);
    lemma_ended_lines(wanted);
    assert(Seq::new(count, |i: int| (prefix + lines[i]).push('\n')) == Seq::new(
        wanted.len(),
        |i: int| wanted[i].push('\n'),
    ));
}

/// A text that holds a line break has at least one.
proof fn lemma_has_break(text: Seq<char>)
    requires
        text.contains('\n'),
    ensures
        text.filter(|c: char| c == '\n').len() >= 1,
    decreases text.len(),
{
    reveal(Seq::filter);
    let i = text.index_of('\n');
    if i < text.len() - 1 {
        assert(text.drop_last()[i] == '\n');
        lemma_has_break(text.drop_last());
    }
}

/// Lines with a line break between any two and one behind the last are lines that are each ended
/// by one.
proof fn lemma_ended_lines(lines: Seq<Seq<char>>)
    requires
        lines.len() > 0,
    ensures
        join(lines, seq!['\n']).push('\n') == Seq::new(
            lines.len(),
            |i: int| lines[i].push('\n'),
        ).flatten(),
    decreases lines.len(),
{
    let ended = Seq::new(lines.len(), |i: int| lines[i].push('\n'));
    if lines.len() == 1 {
        ended.lemma_flatten_one_element();
    } else {
        let head = lines.drop_last();
        lemma_ended_lines(head);
        let before = Seq::new(head.len(), |i: int| head[i].push('\n'));
        before.lemma_flatten_push(lines.last().push('\n'));
        assert(before.push(lines.last().push('\n')) == ended);
        assert(join(lines, seq!['\n']).push('\n') == join(head, seq!['\n']).push('\n')
            + lines.last().push('\n'));
    }
}

/// Texts come in the order of their bytes: at the first place where they differ, the smaller byte
/// comes first, and a text comes before all others that begin with it.
pub proof fn law_order_of_texts(left: Seq<char>, right: Seq<char>)
    ensures
        text_before(left, right) <==> exists|k: int|
            0 <= k < encode_utf8(right).len() && k <= encode_utf8(left).len() && (
            #[trigger] encode_utf8(left).take(k)) == encode_utf8(right).take(k) && (k
                == encode_utf8(left).len() || encode_utf8(left)[k] < encode_utf8(right)[k]),
{
    lemma_order_of_bytes(encode_utf8(left), encode_utf8(right));
}

/// Byte sequences come in lexicographic order.
proof fn lemma_order_of_bytes(left: Seq<u8>, right: Seq<u8>)
    ensures
        bytes_before(left, right) <==> exists|k: int|
            0 <= k < right.len() && k <= left.len() && (#[trigger] left.take(k)) == right.take(k)
                && (k == left.len() || left[k] < right[k]),
    decreases left.len(),
{
    if right.len() > 0 && left.len() == 0 {
        assert(left.take(0) == right.take(0));
    } else if right.len() > 0 && left[0] != right[0] {
        if left[0] < right[0] {
            assert(left.take(0) == right.take(0));
        }
        assert forall|k: int|
            0 <= k < right.len() && k <= left.len() && (#[trigger] left.take(k)) == right.take(
                k,
            ) implies k == 0 by {
            if k > 0 {
                assert(left.take(k)[0] == left[0]);
                assert(right.take(k)[0] == right[0]);
            }
        }
    } else if right.len() > 0 {
        let l = left.drop_first();
        let r = right.drop_first();
        lemma_order_of_bytes(l, r);
        if bytes_before(l, r) {
            let k = choose|k: int|
                0 <= k < r.len() && k <= l.len() && (#[trigger] l.take(k)) == r.take(k) && (k
                    == l.len() || l[k] < r[k]);
            assert(left.take(k + 1) == seq![left[0]] + l.take(k));
            assert(right.take(k + 1) == seq![right[0]] + r.take(k));
            assert(left.take(k + 1) == right.take(k + 1));
        }
        if exists|k: int|
            0 <= k < right.len() && k <= left.len() && (#[trigger] left.take(k)) == right.take(k)
                && (k == left.len() || left[k] < right[k]) {
            let k = choose|k: int|
                0 <= k < right.len() && k <= left.len() && (#[trigger] left.take(k)) == right.take(
                    k,
                ) && (k == left.len() || left[k] < right[k]);
            assert(k > 0);
            assert(l.take(k - 1) == left.take(k).drop_first());
            assert(r.take(k - 1) == right.take(k).drop_first());
            assert(l.take(k - 1) == r.take(k - 1));
        }
    }
}

/// A colour as one number, by eight bits for each component.
pub open spec fn color_code(color: Color) -> int {
    color.red * 0x10000 + color.green * 0x100 + color.blue
}

/// The colours of the palette, as numbers.
pub proof fn law_codes_of_palette()
    ensures
        palette().map_values(|color: Color| color_code(color)) == seq![
            0x023fa5int,
            0x7d87b9,
            0xbb7784,
            0x8e063b,
            0x4a6fe3,
            0x8595e1,
            0xb5bbe3,
            0xe6afb9,
            0xe07b91,
            0xd33f6a,
            0x11c638,
            0x8dd593,
            0xf0b98d,
            0xef9708,
            0x0fcfc0,
            0x9cded6,
            0xf79cd4,
        ],
{
}

/// The colour that a name gets is settled by the names that were asked for before it was first:
/// its position in the palette is their number, each counted once, round the seventeen colours.
pub proof fn law_color_of_request(requests: Seq<Seq<char>>, first: int, i: int)
    requires
        0 <= first <= i < requests.len(),
        requests[first] == requests[i],
        forall|k: int| 0 <= k < first ==> #[trigger] requests[k] != requests[i],
    ensures
        palette().len() == 17,
        PickerModel::fresh().after_all(requests.take(i)).color(requests[i])
            == palette()[(requests.take(first).to_set().len() % 17) as int],
{
    let name = requests[i];
    let before = requests.take(first);
    if before.contains(name) {
        let k = before.index_of(name);
        assert(requests[k] == name);
    }
    law_new_name_gets_next_color(before, name);
    lemma_color_stays(requests, first, i);
}

/// From the first request for a name on, it keeps its colour.
proof fn lemma_color_stays(requests: Seq<Seq<char>>, first: int, i: int)
    requires
        0 <= first <= i < requests.len(),
    ensures
        PickerModel::fresh().after_all(requests.take(i)).color(requests[first])
            == PickerModel::fresh().after_all(requests.take(first)).color(requests[first]),
        PickerModel::fresh().after_all(requests.take(i)).wf(),
        i > first ==> PickerModel::fresh().after_all(requests.take(i)).assigned.contains_key(
            requests[first],
        ),
    decreases i,
{
    assert(palette().len() == 17);
    if i == 0 {
        assert(requests.take(0) == Seq::<Seq<char>>::empty());
    } else {
        let longer = requests.take(i);
        assert(longer.drop_last() == requests.take(i - 1));
        assert(longer.last() == requests[i - 1]);
        if i == first {
            lemma_color_stays(requests, i - 1, i - 1);
        } else {
            lemma_color_stays(requests, first, i - 1);
        }
    }
}

} // verus!

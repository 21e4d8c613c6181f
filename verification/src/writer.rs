use crate::color::Color;
use crate::target::Target;
use crate::text::{join, law_join_then_split, lemma_split_push, lemma_split_tail, split};
use vstd::prelude::*;
use vstd::utf8::{decode_utf8, encode_utf8, encode_utf8_decode_utf8, valid_utf8};

verus! {

/// The text of these bytes, as `core::str::from_utf8` gives it: the text whose UTF-8 encoding
/// they are, and none if they are no valid UTF-8.
#[verifier::external_body]
fn utf8_text(bytes: &[u8]) -> (text: Option<&str>)
    ensures
        text is Some <==> valid_utf8(bytes@),
        text matches Some(t) ==> encode_utf8(t@) == bytes@,
{
    core::str::from_utf8(bytes).ok()
}

/// The lines of `text` that are shown: all that are ended by a line break, or the only one.
pub open spec fn shown_lines(text: Seq<char>) -> Seq<Seq<char>> {
    let lines = split(text, '\n');
    if lines.len() > 1 {
        lines.drop_last()
    } else {
        lines
    }
}

/// The lines with `prefix` before each.
pub open spec fn prefixed(prefix: Seq<char>, lines: Seq<Seq<char>>) -> Seq<Seq<char>> {
    lines.map_values(|line: Seq<char>| prefix + line)
}

/// What is shown of `text`.
pub open spec fn shown(prefix: Seq<char>, text: Seq<char>) -> Seq<char> {
    join(prefixed(prefix, shown_lines(text)), seq!['\n']).push('\n')
}

/// What the lines of a target begin with.
pub open spec fn line_prefix_of(name: Seq<char>) -> Seq<char> {
    name + " | "@
}

/// Writes texts in a colour, with a prefix before each line.
#[derive(Debug)]
pub struct StdoutColorPrefixWriter<'a> {
    pub color: Color,
    pub line_prefix: &'a str,
}

impl<'a> StdoutColorPrefixWriter<'a> {
    /// What is shown of a text.
    fn show(&self, text: &str) -> (out: String)
        ensures
            out@ == shown(self.line_prefix@, text@),
    {
        let mut out = String::new();
        let mut line = self.line_prefix.to_owned();
        let mut ended = false;
        let ghost mut complete: Seq<Seq<char>> = Seq::empty();
        let ghost mut current: Seq<char> = Seq::empty();
        assert(split(text@.take(0), '\n') == complete.push(current));
        assert(prefixed(self.line_prefix@, complete) == Seq::<Seq<char>>::empty());
        for c in it: text.chars()
            invariant
                it.seq() == text@,
                split(text@.take(it.index() as int), '\n') == complete.push(current),
                out@ == join(prefixed(self.line_prefix@, complete), seq!['\n']),
                line@ == self.line_prefix@ + current,
                ended == (complete.len() > 0),
        {
            proof {
                assert(text@.take(it.index() + 1) == text@.take(it.index() as int).push(c));
                lemma_split_push(text@.take(it.index() as int), '\n', c);
                assert(complete.push(current).drop_last() == complete);
            }
            if c == '\n' {
                if ended {
                    out.push('\n');
                }
                out.append(line.as_str());
                line = self.line_prefix.to_owned();
                ended = true;
                proof {
                    let lines = prefixed(self.line_prefix@, complete.push(current));
                    assert(lines.drop_last() == prefixed(self.line_prefix@, complete));
                    assert(lines.last() == self.line_prefix@ + current);
                    complete = complete.push(current);
                    current = Seq::empty();
                }
            } else {
                line.push(c);
                proof {
                    current = current.push(c);
                }
            }
        }
        proof {
            assert(text@.take(text@.len() as int) == text@);
            assert(complete.push(current).drop_last() == complete);
            let lines = prefixed(self.line_prefix@, complete.push(current));
            assert(lines[complete.len() as int] == self.line_prefix@ + current);
        }
        if !ended {
            out.append(line.as_str());
        }
        out.push('\n');
        out
    }

    /// What is shown of the text of `buffer`, and how many of its bytes that takes up: all.
    pub fn write(&self, buffer: &[u8]) -> (written: (String, usize))
        requires
            valid_utf8(buffer@),
        ensures
            written.0@ == shown(self.line_prefix@, decode_utf8(buffer@)),
            written.1 == buffer@.len(),
    {
        let contents = match utf8_text(buffer) {
            Some(text) => {
                proof {
                    encode_utf8_decode_utf8(text@);
                }
                self.show(text)
            },
            None => String::new(),
        };
        (contents, buffer.len())
    }
}

impl Target {
    /// What the lines of the target begin with.
    pub fn line_prefix(&self) -> (prefix: String)
        requires
            self.name is Some,
        ensures
            prefix@ == line_prefix_of(self@.name->0),
    {
        match &self.name {
            Some(name) => name.clone().concat(" | "),
            None => String::new(),
        }
    }

    /// What is shown when the target logs `message`, and in which colour. Of an empty message
    /// nothing is shown.
    pub fn log(&self, message: &str) -> (logged: Option<(Color, String)>)
        requires
            self.name is Some,
            self.color is Some,
        ensures
            logged is None <==> message@.len() == 0,
            logged matches Some((color, text)) ==> {
                &&& Some(color) == self@.color
                &&& text@ == shown(line_prefix_of(self@.name->0), message@)
            },
    {
        let line_prefix = self.line_prefix();
        match self.color {
            Some(color) => {
                if message.is_empty() {
                    None
                } else {
                    let writer = StdoutColorPrefixWriter {
                        color,
                        line_prefix: line_prefix.as_str(),
                    };
                    Some((color, writer.show(message)))
                }
            },
            None => None,
        }
    }
}

/// Lines that are ended by a line break are all shown, each with the prefix before it. What
/// stands behind the last line break is not.
pub proof fn law_ended_lines_are_shown(
    prefix: Seq<char>,
    lines: Seq<Seq<char>>,
    rest: Seq<char>,
)
    requires
        lines.len() > 0,
        forall|i: int| 0 <= i < lines.len() ==> !(#[trigger] lines[i]).contains('\n'),
        !rest.contains('\n'),
    ensures
        shown(prefix, join(lines, seq!['\n']).push('\n') + rest) == join(
            prefixed(prefix, lines),
            seq!['\n'],
        ).push('\n'),
{
    lemma_split_tail(lines, '\n', rest);
    assert(lines.push(rest).drop_last() == lines);
}

/// A text without line break is shown as one line, with the prefix before it.
pub proof fn law_single_line_is_shown(prefix: Seq<char>, line: Seq<char>)
    requires
        !line.contains('\n'),
    ensures
        shown(prefix, line) == (prefix + line).push('\n'),
{
    let lines = seq![line];
    law_join_then_split(lines, '\n');
    assert(prefixed(prefix, lines)[0] == prefix + line);
}

} // verus!

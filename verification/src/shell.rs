//! Quoting for the shell.

use vstd::prelude::*;

use crate::text::{concat2, to_chars, to_text};

verus! {

/// What stands inside the quotes for a text: every single quote closes them, stands in
/// double quotes, and opens them again.
pub open spec fn escaped(value: Seq<char>) -> Seq<char>
    decreases value.len(),
{
    if value.len() == 0 {
        Seq::empty()
    } else if value.last() == '\'' {
        escaped(value.drop_last()) + seq!['\'', '"', '\'', '"', '\'']
    } else {
        escaped(value.drop_last()).push(value.last())
    }
}

/// A text in single quotes.
pub open spec fn quoted(value: Seq<char>) -> Seq<char> {
    seq!['\''] + escaped(value) + seq!['\'']
}

/// The three places in which a shell can be while it reads a word.
pub enum Quoting {
    Outside,
    Single,
    Double,
}

/// The literal text that a shell takes a word for, from where it stands: `None` where a
/// character would not be taken literally, or where a quote stays open.
pub open spec fn shell_reads(word: Seq<char>, place: Quoting) -> Option<Seq<char>>
    decreases word.len(),
{
    if word.len() == 0 {
        if place is Outside {
            Some(Seq::empty())
        } else {
            None
        }
    } else {
        let c = word[0];
        let rest = word.drop_first();
        match place {
            Quoting::Outside => if c == '\'' {
                shell_reads(rest, Quoting::Single)
            } else if c == '"' {
                shell_reads(rest, Quoting::Double)
            } else {
                None
            },
            Quoting::Single => if c == '\'' {
                shell_reads(rest, Quoting::Outside)
            } else {
                literally(c, shell_reads(rest, Quoting::Single))
            },
            Quoting::Double => if c == '"' {
                shell_reads(rest, Quoting::Outside)
            } else if c == '$' || c == '`' || c == '\\' || c == '!' {
                None
            } else {
                literally(c, shell_reads(rest, Quoting::Double))
            },
        }
    }
}

/// A character, and what is read after it.
pub open spec fn literally(c: char, rest: Option<Seq<char>>) -> Option<Seq<char>> {
    match rest {
        Some(text) => Some(seq![c] + text),
        None => None,
    }
}

/// A text as a single shell word that stands for exactly that text.
pub fn shell_quote(value: &str) -> (result: String)
    ensures
        result@ == quoted(value@),
{
    let chars = to_chars(value);
    let mut word: Vec<char> = Vec::new();
    word.push('\'');
    let mut i: usize = 0;
    assert(chars@.take(0) =~= Seq::empty());
    assert(word@ =~= seq!['\''] + escaped(chars@.take(0)));
    while i < chars.len()
        invariant
            0 <= i <= chars.len(),
            word@ == seq!['\''] + escaped(chars@.take(i as int)),
        decreases chars.len() - i,
    {
        proof {
            assert(chars@.take(i + 1).drop_last() =~= chars@.take(i as int));
        }
        if chars[i] == '\'' {
            word.push('\'');
            word.push('"');
            word.push('\'');
            word.push('"');
            word.push('\'');
            assert(word@ =~= seq!['\''] + (escaped(chars@.take(i as int)) + seq![
                '\'',
                '"',
                '\'',
                '"',
                '\'',
            ]));
        } else {
            word.push(chars[i]);
            assert(word@ =~= seq!['\''] + escaped(chars@.take(i as int)).push(chars@[i as int]));
        }
        i += 1;
    }
    word.push('\'');
    assert(chars@.take(chars.len() as int) =~= chars@);
    assert(word@ =~= quoted(value@));
    to_text(word.as_slice())
}

/// The command that grants the capture permission to an executable.
pub open spec fn capture_command(path: Seq<char>) -> Seq<char> {
    "sudo setcap cap_net_raw=ep "@ + quoted(path)
}

/// The command that grants the capture permission to an executable, where its path is known.
pub fn linux_capture_command(executable: Option<&str>) -> (result: Option<String>)
    ensures
        match executable {
            Some(path) => result is Some && result->0@ == "sudo setcap cap_net_raw=ep "@ + quoted(
                path@,
            ),
            None => result is None,
        },
        result matches Some(command) ==> command@ == capture_command(executable->0@),
{
    match executable {
        Some(path) => {
            let word = shell_quote(path);
            Some(concat2("sudo setcap cap_net_raw=ep ", word.as_str()))
        },
        None => None,
    }
}

/// Inside single quotes, a shell takes the escaped text literally and stays inside.
proof fn lemma_escaped_is_read(value: Seq<char>, tail: Seq<char>)
    ensures
        shell_reads(escaped(value) + tail, Quoting::Single) == match shell_reads(
            tail,
            Quoting::Single,
        ) {
            Some(text) => Some(value + text),
            None => None,
        },
    decreases value.len(),
{
    let after = shell_reads(tail, Quoting::Single);
    if value.len() == 0 {
        assert(escaped(value) + tail =~= tail);
        if let Some(text) = after {
            assert(value + text =~= text);
        }
    } else {
        let shorter = value.drop_last();
        let c = value.last();
        let piece = if c == '\'' {
            seq!['\'', '"', '\'', '"', '\'']
        } else {
            seq![c]
        };
        let longer = piece + tail;
        assert(escaped(value) + tail =~= escaped(shorter) + longer);
        lemma_escaped_is_read(shorter, longer);
        assert(shell_reads(longer, Quoting::Single) == literally(c, after)) by {
            if c == '\'' {
                let w1 = longer.drop_first();
                let w2 = w1.drop_first();
                let w3 = w2.drop_first();
                let w4 = w3.drop_first();
                let w5 = w4.drop_first();
                assert(w5 =~= tail);
                assert(longer[0] == '\'' && w1[0] == '"' && w2[0] == '\'' && w3[0] == '"' && w4[0]
                    == '\'');
                assert(shell_reads(w4, Quoting::Outside) == after);
                assert(shell_reads(w3, Quoting::Double) == after);
                assert(shell_reads(w2, Quoting::Double) == literally('\'', after));
                assert(shell_reads(w1, Quoting::Outside) == literally('\'', after));
            } else {
                assert(longer.drop_first() =~= tail);
            }
        }
        if let Some(text) = after {
            assert(shorter + (seq![c] + text) =~= value + text);
        }
    }
}

/// A shell reads a quoted text back as exactly that text, whatever characters it holds.
pub proof fn law_shell_reads_quoted_text_back(value: Seq<char>)
    ensures
        shell_reads(quoted(value), Quoting::Outside) == Some(value),
{
    let tail = seq!['\''];
    let word = quoted(value);
    assert(word.drop_first() =~= escaped(value) + tail);
    assert(tail.drop_first() =~= Seq::empty());
    assert(shell_reads(tail.drop_first(), Quoting::Outside) == Some(Seq::<char>::empty()));
    assert(shell_reads(tail, Quoting::Single) == Some(Seq::<char>::empty()));
    lemma_escaped_is_read(value, tail);
    assert(value + Seq::<char>::empty() =~= value);
}

/// A text without single quotes stands as it is between two of them.
pub proof fn law_text_without_quotes_stands_as_it_is(value: Seq<char>)
    requires
        forall|i: int| 0 <= i < value.len() ==> #[trigger] value[i] != '\'',
    ensures
        quoted(value) == seq!['\''] + value + seq!['\''],
{
    lemma_nothing_to_escape(value);
}

proof fn lemma_nothing_to_escape(value: Seq<char>)
    requires
        forall|i: int| 0 <= i < value.len() ==> #[trigger] value[i] != '\'',
    ensures
        escaped(value) == value,
    decreases value.len(),
{
    if value.len() > 0 {
        let shorter = value.drop_last();
        assert forall|i: int| 0 <= i < shorter.len() implies #[trigger] shorter[i] != '\'' by {
            assert(shorter[i] == value[i]);
        }
        lemma_nothing_to_escape(shorter);
        assert(value[value.len() - 1] != '\'');
        assert(shorter.push(value.last()) =~= value);
    } else {
        assert(escaped(value) =~= value);
    }
}

/// The command is `sudo setcap cap_net_raw=ep` and one more word, which a shell takes for the
/// path of the executable.
pub proof fn law_command_is_for_the_executable(path: Seq<char>)
    ensures
        exists|word: Seq<char>|
            capture_command(path) == #[trigger] ("sudo setcap cap_net_raw=ep "@ + word)
                && shell_reads(word, Quoting::Outside) == Some(path),
{
    law_shell_reads_quoted_text_back(path);
    assert(capture_command(path) == "sudo setcap cap_net_raw=ep "@ + quoted(path));
}

} // verus!

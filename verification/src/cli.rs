//! The command line of the terminal client: what a typed line means.
use vstd::prelude::*;

use crate::text::{
    ascii_lower, chars_of, find_space, first_space, is_first_space, is_white_space, is_word,
    law_trim_idempotent, lemma_trim_end_prefix, lowercase, split_first_space, trim, trim_end,
    trim_start, trimmed_range,
};

verus! {

/// A command typed at the prompt.
#[derive(Debug, Clone, PartialEq, Eq)]
pub enum Command {
    Help,
    Connect { address: String },
    Disconnect { username: String },
    Peers,
    Yap { message: String },
    To { username: String, message: String },
    Name { username: String },
    Quit,
    Empty,
    Unknown { command: String },
}

/// The mathematical content of a [`Command`]: its text as characters.
pub enum SpecCommand {
    Help,
    Connect { address: Seq<char> },
    Disconnect { username: Seq<char> },
    Peers,
    Yap { message: Seq<char> },
    To { username: Seq<char>, message: Seq<char> },
    Name { username: Seq<char> },
    Quit,
    Empty,
    Unknown { command: Seq<char> },
}

impl View for Command {
    type V = SpecCommand;

    open spec fn view(&self) -> SpecCommand {
        match self {
            Command::Help => SpecCommand::Help,
            Command::Connect { address } => SpecCommand::Connect { address: address@ },
            Command::Disconnect { username } => SpecCommand::Disconnect { username: username@ },
            Command::Peers => SpecCommand::Peers,
            Command::Yap { message } => SpecCommand::Yap { message: message@ },
            Command::To { username, message } => SpecCommand::To {
                username: username@,
                message: message@,
            },
            Command::Name { username } => SpecCommand::Name { username: username@ },
            Command::Quit => SpecCommand::Quit,
            Command::Empty => SpecCommand::Empty,
            Command::Unknown { command } => SpecCommand::Unknown { command: command@ },
        }
    }
}

/// What a typed line means. The line is trimmed; its first word (up to the
/// first space) names the command, compared without regard to ASCII case, and
/// the trimmed remainder is its argument. `to` splits its argument once more:
/// the first word is the recipient, the trimmed remainder the message. A word
/// that names no command is kept as typed.
pub open spec fn parse_line(line: Seq<char>) -> SpecCommand {
    let t = trim(line);
    if t.len() == 0 {
        SpecCommand::Empty
    } else {
        let (command, raw_rest) = split_first_space(t);
        let rest = trim(raw_rest);
        let w = lowercase(command);
        if w == seq!['h', 'e', 'l', 'p'] || w == seq!['?'] {
            SpecCommand::Help
        } else if w == seq!['c', 'o', 'n', 'n', 'e', 'c', 't'] {
            SpecCommand::Connect { address: rest }
        } else if w == seq!['d', 'i', 's', 'c', 'o', 'n', 'n', 'e', 'c', 't'] {
            SpecCommand::Disconnect { username: rest }
        } else if w == seq!['p', 'e', 'e', 'r', 's'] {
            SpecCommand::Peers
        } else if w == seq!['y', 'a', 'p'] {
            SpecCommand::Yap { message: rest }
        } else if w == seq!['t', 'o'] {
            let (username, raw_message) = split_first_space(rest);
            SpecCommand::To { username, message: trim(raw_message) }
        } else if w == seq!['n', 'a', 'm', 'e'] {
            SpecCommand::Name { username: rest }
        } else if w == seq!['q', 'u', 'i', 't'] || w == seq!['e', 'x', 'i', 't'] {
            SpecCommand::Quit
        } else {
            SpecCommand::Unknown { command }
        }
    }
}

/// The characters `i..j` of `line` as a new string.
fn text_between(line: &str, i: usize, j: usize) -> (s: String)
    requires
        i <= j <= line@.len(),
    ensures
        s@ == line@.subrange(i as int, j as int),
{
    line.substring_char(i, j).to_owned()
}

/// What a typed line means (see [`parse_line`]).
///
/// Command words are matched in ASCII lower case; for these words this is the
/// same as matching `to_lowercase()`, since no other character lower-cases to
/// a letter they contain.
pub fn parse(line: &str) -> (command: Command)
    ensures
        command@ == parse_line(line@),
{
    let cs = chars_of(line);
    let (a, b) = trimmed_range(&cs, 0, cs.len());
    assert(cs@.subrange(0, cs@.len() as int) =~= line@);
    if a == b {
        return Command::Empty;
    }
    let ghost t = cs@.subrange(a as int, b as int);
    let (command_end, rest_start) = match find_space(&cs, a, b) {
        Some(k) => (k, k + 1),
        None => (b, b),
    };
    proof {
        let (c, r) = split_first_space(t);
        assert(c =~= cs@.subrange(a as int, command_end as int));
        assert(r =~= cs@.subrange(rest_start as int, b as int));
    }
    let (ra, rb) = trimmed_range(&cs, rest_start, b);
    proof {
        assert(t == trim(line@));
    }
    let help: &[char] = &['h', 'e', 'l', 'p'];
    let question: &[char] = &['?'];
    let connect: &[char] = &['c', 'o', 'n', 'n', 'e', 'c', 't'];
    let disconnect: &[char] = &['d', 'i', 's', 'c', 'o', 'n', 'n', 'e', 'c', 't'];
    let peers: &[char] = &['p', 'e', 'e', 'r', 's'];
    let yap: &[char] = &['y', 'a', 'p'];
    let to: &[char] = &['t', 'o'];
    let name: &[char] = &['n', 'a', 'm', 'e'];
    let quit: &[char] = &['q', 'u', 'i', 't'];
    let exit: &[char] = &['e', 'x', 'i', 't'];
    assert(help@ =~= seq!['h', 'e', 'l', 'p']);
    assert(question@ =~= seq!['?']);
    assert(connect@ =~= seq!['c', 'o', 'n', 'n', 'e', 'c', 't']);
    assert(disconnect@ =~= seq!['d', 'i', 's', 'c', 'o', 'n', 'n', 'e', 'c', 't']);
    assert(peers@ =~= seq!['p', 'e', 'e', 'r', 's']);
    assert(yap@ =~= seq!['y', 'a', 'p']);
    assert(to@ =~= seq!['t', 'o']);
    assert(name@ =~= seq!['n', 'a', 'm', 'e']);
    assert(quit@ =~= seq!['q', 'u', 'i', 't']);
    assert(exit@ =~= seq!['e', 'x', 'i', 't']);
    if is_word(&cs, a, command_end, help) || is_word(&cs, a, command_end, question) {
        Command::Help
    } else if is_word(&cs, a, command_end, connect) {
        Command::Connect { address: text_between(line, ra, rb) }
    } else if is_word(&cs, a, command_end, disconnect) {
        Command::Disconnect { username: text_between(line, ra, rb) }
    } else if is_word(&cs, a, command_end, peers) {
        Command::Peers
    } else if is_word(&cs, a, command_end, yap) {
        Command::Yap { message: text_between(line, ra, rb) }
    } else if is_word(&cs, a, command_end, to) {
        let ghost rest = cs@.subrange(ra as int, rb as int);
        let (user_end, message_start) = match find_space(&cs, ra, rb) {
            Some(k) => (k, k + 1),
            None => (rb, rb),
        };
        proof {
            let (u, m) = split_first_space(rest);
            assert(u =~= cs@.subrange(ra as int, user_end as int));
            assert(m =~= cs@.subrange(message_start as int, rb as int));
        }
        let (ma, mb) = trimmed_range(&cs, message_start, rb);
        Command::To {
            username: text_between(line, ra, user_end),
            message: text_between(line, ma, mb),
        }
    } else if is_word(&cs, a, command_end, name) {
        Command::Name { username: text_between(line, ra, rb) }
    } else if is_word(&cs, a, command_end, quit) || is_word(&cs, a, command_end, exit) {
        Command::Quit
    } else {
        Command::Unknown { command: text_between(line, a, command_end) }
    }
}


/// White space around a line never changes what it means.
pub proof fn law_parse_ignores_surrounding_space(line: Seq<char>)
    ensures
        parse_line(trim(line)) == parse_line(line),
{
    law_trim_idempotent(line);
}

/// A line of nothing but white space is the empty command.
pub proof fn law_blank_line_is_empty(line: Seq<char>)
    requires
        forall|i: int| 0 <= i < line.len() ==> crate::text::is_white_space(#[trigger] line[i]),
    ensures
        parse_line(line) == SpecCommand::Empty,
    decreases line.len(),
{
    if line.len() > 0 {
        let rest = line.drop_first();
        assert forall|i: int| 0 <= i < rest.len() implies crate::text::is_white_space(
            #[trigger] rest[i],
        ) by {
            assert(rest[i] == line[i + 1]);
        }
        law_blank_line_is_empty(rest);
        assert(crate::text::trim_start(line) == crate::text::trim_start(rest));
    }
}


/// `w` names a command, up to ASCII case.
pub open spec fn names_command(w: Seq<char>) -> bool {
    let l = lowercase(w);
    ||| l == seq!['h', 'e', 'l', 'p']
    ||| l == seq!['?']
    ||| l == seq!['c', 'o', 'n', 'n', 'e', 'c', 't']
    ||| l == seq!['d', 'i', 's', 'c', 'o', 'n', 'n', 'e', 'c', 't']
    ||| l == seq!['p', 'e', 'e', 'r', 's']
    ||| l == seq!['y', 'a', 'p']
    ||| l == seq!['t', 'o']
    ||| l == seq!['n', 'a', 'm', 'e']
    ||| l == seq!['q', 'u', 'i', 't']
    ||| l == seq!['e', 'x', 'i', 't']
}

/// Lower-casing a character keeps whether it is white space, and lowers it
/// no further a second time.
proof fn lemma_ascii_lower(c: char)
    ensures
        is_white_space(ascii_lower(c)) == is_white_space(c),
        ascii_lower(ascii_lower(c)) == ascii_lower(c),
{
    if 'A' <= c <= 'Z' {
        let u = (c as u32) + 32;
        assert(0x61 <= u <= 0x7A);
        assert((u as char) as u32 == u);
    }
}

/// Trailing white space after a word that does not end in white space is
/// trimmed from what follows the word alone.
proof fn lemma_trim_end_after_word(p: Seq<char>, q: Seq<char>)
    requires
        p.len() > 0,
        !is_white_space(p.last()),
    ensures
        trim_end(p + q) == p + trim_end(q),
    decreases q.len(),
{
    if q.len() == 0 {
        assert(p + q =~= p);
        assert(p + trim_end(q) =~= p);
    } else {
        assert((p + q).last() == q.last());
        if is_white_space(q.last()) {
            assert((p + q).drop_last() =~= p + q.drop_last());
            lemma_trim_end_after_word(p, q.drop_last());
        }
    }
}

/// A line made of a word without white space and what follows it from a
/// space on: trimmed and split, its command word is that word, and the rest
/// depends on what follows alone.
proof fn lemma_word_line(w: Seq<char>, q: Seq<char>)
    requires
        w.len() > 0,
        forall|i: int| 0 <= i < w.len() ==> !is_white_space(#[trigger] w[i]),
        q.len() == 0 || q[0] == ' ',
    ensures
        trim(w + q) == w + trim_end(q),
        split_first_space(trim(w + q)) == (w, if trim_end(q).len() > 0 {
            trim_end(q).drop_first()
        } else {
            Seq::<char>::empty()
        }),
{
    let line = w + q;
    assert(line[0] == w[0]);
    assert(trim_start(line) == line);
    assert(!is_white_space(w[w.len() - 1]));
    lemma_trim_end_after_word(w, q);
    let e = trim_end(q);
    lemma_trim_end_prefix(q);
    let t = w + e;
    assert(trim(line) == t);
    assert forall|j: int| 0 <= j < w.len() implies t[j] != ' ' by {
        assert(t[j] == w[j]);
        assert(is_white_space(' '));
    }
    if e.len() > 0 {
        assert(e[0] == q[0]);
        let k = w.len() as int;
        assert(t[k] == ' ');
        assert(is_first_space(t, k));
        let c = choose|c: int| is_first_space(t, c);
        assert(c == k) by {
            if c < k {
                assert(t[c] != ' ');
            } else if c > k {
                assert(t[k] == ' ');
            }
        }
        assert(t.subrange(0, k) =~= w);
        assert(t.subrange(k + 1, t.len() as int) =~= e.drop_first());
    } else {
        assert(t =~= w);
        assert forall|c: int| !is_first_space(t, c) by {
            if 0 <= c < t.len() {
                assert(t[c] != ' ');
            }
        }
    }
}

/// The command word is read without regard to ASCII case: a line whose
/// first word names a command means the same as the line with that word in
/// lower case.
pub proof fn law_command_word_ignores_case(w: Seq<char>, q: Seq<char>)
    requires
        w.len() > 0,
        forall|i: int| 0 <= i < w.len() ==> !is_white_space(#[trigger] w[i]),
        q.len() == 0 || q[0] == ' ',
        names_command(w),
    ensures
        parse_line(w + q) == parse_line(lowercase(w) + q),
{
    let lw = lowercase(w);
    assert forall|i: int| 0 <= i < lw.len() implies !is_white_space(#[trigger] lw[i]) by {
        lemma_ascii_lower(w[i]);
    }
    assert(lowercase(lw) =~= lw) by {
        assert forall|i: int| 0 <= i < lw.len() implies lowercase(lw)[i] == lw[i] by {
            lemma_ascii_lower(w[i]);
        }
    }
    lemma_word_line(w, q);
    lemma_word_line(lw, q);
}

} // verus!

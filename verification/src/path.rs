//! The textual form of a path: one command on each line.
//!
//! A line holds a keyword and its arguments, separated by white space.
//! Blank lines and lines that begin with `//` say nothing. The first line
//! that cannot be read ends the reading with its complaint.

use vstd::prelude::*;
use vstd::string::StrSliceExecFns;
use vstd::slice::slice_subrange;
use crate::command::Command;
use crate::parse::{
    agrees,
    find,
    find_char,
    intake_command,
    intake_command_of,
    is_word,
    lady_brown_command,
    lady_brown_command_of,
    lemma_find_bounds,
    multiple_vec2,
    multiple_vec2_of,
    pose,
    pose_of,
    single_f64,
    single_number_of,
    single_u64,
    single_u64_of,
    single_vec2,
    single_vec2_of,
    texts,
    texts_of,
    views,
};
use crate::text::{
    is_space,
    is_whitespace,
    lemma_skip_spaces_bounds,
    lemma_trimmed_is_tight,
    lemma_skip_word_bounds,
    skip_spaces,
    skip_word,
    to_chars,
    trim_bounds,
    trimmed,
};

verus! {

/// What a keyword and its arguments say.
pub open spec fn command_of(keyword: Seq<char>, args: Seq<Seq<char>>) -> Result<
    Command<Seq<char>>,
    &'static str,
> {
    let k = trimmed(keyword);
    if k == "Coordinate"@ {
        match single_vec2_of(args) {
            Ok(p) => Ok(Command::Coordinate(p)),
            Err(e) => Err(e),
        }
    } else if k == "Bezier"@ {
        match multiple_vec2_of(args, 4) {
            Ok(p) => Ok(Command::CubicBezier(p[0], p[1], p[2], p[3])),
            Err(e) => Err(e),
        }
    } else if k == "Drive"@ {
        match single_number_of(args) {
            Ok(d) => Ok(Command::DriveBy(d)),
            Err(e) => Err(e),
        }
    } else if k == "Pose"@ {
        pose_of(args)
    } else if k == "Turn"@ {
        match single_number_of(args) {
            Ok(a) => Ok(Command::TurnTo(a)),
            Err(e) => Err(e),
        }
    } else if k == "Sleep"@ {
        match single_u64_of(args) {
            Ok(ms) => Ok(Command::Sleep(ms)),
            Err(e) => Err(e),
        }
    } else if k == "Speed"@ {
        match single_number_of(args) {
            Ok(s) => Ok(Command::Speed(s)),
            Err(e) => Err(e),
        }
    } else if k == "Intake"@ {
        match intake_command_of(args) {
            Ok(c) => Ok(Command::IntakeCommand(c)),
            Err(e) => Err(e),
        }
    } else if k == "LadyBrown"@ {
        match lady_brown_command_of(args) {
            Ok(c) => Ok(Command::LadyBrownCommand(c)),
            Err(e) => Err(e),
        }
    } else if k == "NextLBStage"@ {
        Ok(Command::NextLBStage)
    } else if k == "ToggleClamp"@ {
        Ok(Command::ToggleClamp)
    } else {
        Err("Invalid Command")
    }
}

impl Command<String> {
    /// Reads the command that a keyword and its arguments write.
    pub fn from_str(command: &str, args: &[&str]) -> (r: Result<Self, &'static str>)
        ensures
            agrees(r, command_of(command@, texts(args))),
    {
        let chars = to_chars(command);
        let (a, b) = trim_bounds(chars.as_slice());
        let k = slice_subrange(chars.as_slice(), a, b);
        assert(k@ == trimmed(command@));
        if is_word(k, "Coordinate") {
            match single_vec2(args) {
                Ok(p) => Ok(Command::Coordinate(p)),
                Err(e) => Err(e),
            }
        } else if is_word(k, "Bezier") {
            match multiple_vec2(args, 4) {
                Ok(mut p) => {
                    let ghost said = views(p@);
                    let p3 = p.pop().unwrap();
                    let p2 = p.pop().unwrap();
                    let p1 = p.pop().unwrap();
                    let p0 = p.pop().unwrap();
                    assert(said[0] == p0@ && said[1] == p1@ && said[2] == p2@ && said[3] == p3@);
                    Ok(Command::CubicBezier(p0, p1, p2, p3))
                },
                Err(e) => Err(e),
            }
        } else if is_word(k, "Drive") {
            match single_f64(args) {
                Ok(d) => Ok(Command::DriveBy(d)),
                Err(e) => Err(e),
            }
        } else if is_word(k, "Pose") {
            pose(args)
        } else if is_word(k, "Turn") {
            match single_f64(args) {
                Ok(a) => Ok(Command::TurnTo(a)),
                Err(e) => Err(e),
            }
        } else if is_word(k, "Sleep") {
            match single_u64(args) {
                Ok(ms) => Ok(Command::Sleep(ms)),
                Err(e) => Err(e),
            }
        } else if is_word(k, "Speed") {
            match single_f64(args) {
                Ok(s) => Ok(Command::Speed(s)),
                Err(e) => Err(e),
            }
        } else if is_word(k, "Intake") {
            match intake_command(args) {
                Ok(c) => Ok(Command::IntakeCommand(c)),
                Err(e) => Err(e),
            }
        } else if is_word(k, "LadyBrown") {
            match lady_brown_command(args) {
                Ok(c) => Ok(Command::LadyBrownCommand(c)),
                Err(e) => Err(e),
            }
        } else if is_word(k, "NextLBStage") {
            Ok(Command::NextLBStage)
        } else if is_word(k, "ToggleClamp") {
            Ok(Command::ToggleClamp)
        } else {
            Err("Invalid Command")
        }
    }
}

/// The words of `s` from `from` on: the longest runs without white space.
pub open spec fn words_from(s: Seq<char>, from: int) -> Seq<Seq<char>>
    decreases s.len() - from,
{
    let a = skip_spaces(s, from);
    if 0 <= from <= s.len() && a < s.len() {
        let b = skip_word(s, a);
        proof {
            lemma_skip_spaces_bounds(s, from);
            lemma_skip_word_bounds(s, a);
        }
        seq![s.subrange(a, b)] + words_from(s, b)
    } else {
        Seq::empty()
    }
}

/// The words of a line.
pub open spec fn words(s: Seq<char>) -> Seq<Seq<char>> {
    words_from(s, 0)
}

/// A text that holds a character other than white space has a word. So a
/// line that is not blank always has a keyword.
pub proof fn lemma_text_has_a_word(s: Seq<char>, at: int)
    requires
        0 <= at < s.len(),
        !is_space(s[at]),
    ensures
        words(s).len() > 0,
{
    lemma_skip_spaces_bounds(s, 0);
}

/// Whether a trimmed line is a comment.
pub open spec fn is_comment(line: Seq<char>) -> bool {
    line.len() >= 2 && line[0] == '/' && line[1] == '/'
}

/// What one line says: nothing, if it is blank or a comment; else the
/// command that its first word and the words after it write. Such a line
/// always has a first word.
pub open spec fn line_of(line: Seq<char>) -> Option<Result<Command<Seq<char>>, &'static str>> {
    let t = trimmed(line);
    if t.len() == 0 || is_comment(t) {
        None
    } else {
        let w = words(t);
        Some(command_of(w[0], w.skip(1)))
    }
}

/// What the lines of `s` from `from` on say: the commands in order, or
/// the complaint of the first line that cannot be read.
pub open spec fn commands_from(s: Seq<char>, from: int) -> Result<
    Seq<Command<Seq<char>>>,
    &'static str,
>
    decreases s.len() + 1 - from,
{
    if !(0 <= from < s.len()) {
        Ok(Seq::empty())
    } else {
        let end = find(s, '\n', from);
        proof {
            lemma_find_bounds(s, '\n', from);
        }
        let after = commands_from(s, end + 1);
        match line_of(s.subrange(from, end)) {
            None => after,
            Some(Err(e)) => Err(e),
            Some(Ok(c)) => match after {
                Err(e) => Err(e),
                Ok(rest) => Ok(seq![c] + rest),
            },
        }
    }
}

/// What a path says.
pub open spec fn commands_of(path: Seq<char>) -> Result<Seq<Command<Seq<char>>>, &'static str> {
    commands_from(path, 0)
}

/// Splits a line into its words.
pub fn split_words<'a>(line: &'a str) -> (out: Vec<&'a str>)
    ensures
        texts_of(out@) == words(line@),
{
    let chars = to_chars(line);
    let mut out: Vec<&'a str> = Vec::new();
    let mut pos: usize = 0;
    assert(texts_of(out@) =~= Seq::<Seq<char>>::empty());
    loop
        invariant
            chars@ == line@,
            pos <= chars@.len(),
            words(line@) == texts_of(out@) + words_from(line@, pos as int),
        ensures
            texts_of(out@) == words(line@),
        decreases chars@.len() - pos,
    {
        let mut a: usize = pos;
        while a < chars.len() && is_whitespace(chars[a])
            invariant
                pos <= a <= chars@.len(),
                skip_spaces(chars@, a as int) == skip_spaces(chars@, pos as int),
            decreases chars@.len() - a,
        {
            a += 1;
        }
        if a >= chars.len() {
            assert(texts_of(out@) + Seq::<Seq<char>>::empty() =~= texts_of(out@));
            break ;
        }
        let mut b: usize = a;
        while b < chars.len() && !is_whitespace(chars[b])
            invariant
                a <= b <= chars@.len(),
                skip_word(chars@, b as int) == skip_word(chars@, a as int),
            decreases chars@.len() - b,
        {
            b += 1;
        }
        let word = line.substring_char(a, b);
        let ghost before = texts_of(out@);
        out.push(word);
        proof {
            assert(texts_of(out@) =~= before.push(word@));
            assert(before + (seq![word@] + words_from(line@, b as int)) =~= before.push(word@)
                + words_from(line@, b as int));
        }
        pos = b;
    }
    out
}

/// Whether the reading of a line is what the grammar says of it.
pub open spec fn line_reads_as(
    r: Option<Result<Command<String>, &'static str>>,
    said: Option<Result<Command<Seq<char>>, &'static str>>,
) -> bool {
    match r {
        None => said is None,
        Some(reading) => said is Some && agrees(reading, said->0),
    }
}

/// Reads one line: `None` for a blank line or a comment, else the command
/// it writes or the complaint about it.
pub fn read_line(line: &str) -> (r: Option<Result<Command<String>, &'static str>>)
    ensures
        line_reads_as(r, line_of(line@)),
{
    let chars = to_chars(line);
    let (a, b) = trim_bounds(chars.as_slice());
    if a == b {
        return None;
    }
    let ghost t = trimmed(line@);
    if b - a >= 2 && chars[a] == '/' && chars[a + 1] == '/' {
        assert(t[0] == '/' && t[1] == '/');
        return None;
    }
    assert(!is_comment(t)) by {
        if t.len() >= 2 {
            assert(t[0] == chars@[a as int] && t[1] == chars@[a + 1]);
        }
    }
    let tight = line.substring_char(a, b);
    let tokens = split_words(tight);
    proof {
        lemma_trimmed_is_tight(line@);
        lemma_text_has_a_word(t, 0);
        assert(texts_of(tokens@).len() == tokens@.len());
    }
    let action = tokens[0];
    let args = slice_subrange(tokens.as_slice(), 1, tokens.len());
    assert(texts(args) =~= words(t).skip(1));
    assert(action@ == words(t)[0]);
    Some(Command::from_str(action, args))
}

/// The commands read so far, followed by what the rest of the path says.
pub open spec fn followed_by(
    read: Seq<Command<Seq<char>>>,
    rest: Result<Seq<Command<Seq<char>>>, &'static str>,
) -> Result<Seq<Command<Seq<char>>>, &'static str> {
    match rest {
        Err(e) => Err(e),
        Ok(more) => Ok(read + more),
    }
}

/// Reads a path: the commands of its lines in order. The first line that
/// cannot be read ends the reading, and its complaint is returned.
pub fn path_to_commands(path: &str) -> (r: Result<Vec<Command<String>>, &'static str>)
    ensures
        match r {
            Ok(v) => commands_of(path@) == Ok::<Seq<Command<Seq<char>>>, &'static str>(
                views(v@),
            ),
            Err(e) => commands_of(path@) == Err::<Seq<Command<Seq<char>>>, &'static str>(e),
        },
{
    let chars = to_chars(path);
    let mut commands: Vec<Command<String>> = Vec::new();
    let mut from: usize = 0;
    assert(views(commands@) =~= Seq::<Command<Seq<char>>>::empty());
    assert(followed_by(views(commands@), commands_from(path@, 0)) == commands_of(path@)) by {
        match commands_from(path@, 0) {
            Err(e) => {},
            Ok(more) => {
                assert(views(commands@) + more =~= more);
            },
        }
    }
    while from < chars.len()
        invariant
            chars@ == path@,
            from <= chars@.len(),
            commands_of(path@) == followed_by(views(commands@), commands_from(path@, from as int)),
        decreases chars@.len() - from,
    {
        let end = find_char(chars.as_slice(), '\n', from);
        let line = path.substring_char(from, end);
        let ghost before = views(commands@);
        let ghost after = commands_from(path@, end + 1);
        match read_line(line) {
            None => {},
            Some(Err(e)) => {
                return Err(e);
            },
            Some(Ok(c)) => {
                commands.push(c);
                proof {
                    assert(views(commands@) =~= before.push(c@));
                    match after {
                        Err(e) => {},
                        Ok(more) => {
                            assert(before + (seq![c@] + more) =~= before.push(c@) + more);
                        },
                    }
                }
            },
        }
        if end == chars.len() {
            from = end;
        } else {
            from = end + 1;
        }
    }
    assert(views(commands@) + Seq::<Command<Seq<char>>>::empty() =~= views(commands@));
    Ok(commands)
}

} // verus!

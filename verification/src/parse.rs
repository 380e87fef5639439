//! Reading the arguments of one line of a path.
//!
//! Each reader takes the words that follow the keyword and returns what
//! they say, or the expectation that they fail to meet. A number is
//! returned as the text that writes it.

use vstd::prelude::*;
use vstd::string::StrSliceExecFns;
use vstd::slice::slice_subrange;
use crate::command::{Command, IntakeCommand, LadyBrownCommand, Vec2};
use crate::number::{is_float_literal, is_number};
use crate::text::{parse_u64, read_u64, to_chars, trim_bounds, trim_end, trim_start, trimmed};

verus! {

/// The texts of a sequence of words.
pub open spec fn texts_of(words: Seq<&str>) -> Seq<Seq<char>> {
    Seq::new(words.len(), |i: int| words[i]@)
}

/// The words of an argument list, each as its characters.
pub open spec fn texts(args: &[&str]) -> Seq<Seq<char>> {
    texts_of(args@)
}

/// First index at or after `from` that holds `c`, or the length.
pub open spec fn find(s: Seq<char>, c: char, from: int) -> int
    decreases s.len() - from,
{
    if 0 <= from < s.len() && s[from] != c {
        find(s, c, from + 1)
    } else {
        from
    }
}

/// A search stops within the text, at the first place that holds the
/// character looked for.
pub proof fn lemma_find_bounds(s: Seq<char>, c: char, from: int)
    requires
        0 <= from <= s.len(),
    ensures
        from <= find(s, c, from) <= s.len(),
        forall|i: int| from <= i < find(s, c, from) ==> #[trigger] s[i] != c,
        find(s, c, from) < s.len() ==> s[find(s, c, from)] == c,
    decreases s.len() - from,
{
    if from < s.len() && s[from] != c {
        lemma_find_bounds(s, c, from + 1);
    }
}

/// Finds the first `c` at or after `from`.
pub fn find_char(s: &[char], c: char, from: usize) -> (at: usize)
    requires
        from <= s@.len(),
    ensures
        at == find(s@, c, from as int),
        from <= at <= s@.len(),
{
    let mut i: usize = from;
    while i < s.len() && s[i] != c
        invariant
            from <= i <= s@.len(),
            find(s@, c, i as int) == find(s@, c, from as int),
        decreases s@.len() - i,
    {
        i += 1;
    }
    i
}

/// What a bracketed pair says: `(x,y)`, with white space allowed around
/// the brackets, the comma and the two numbers.
pub open spec fn vec2_of(arg: Seq<char>) -> Result<Vec2<Seq<char>>, &'static str> {
    let t = trimmed(arg);
    if !(t.len() > 0 && t.first() == '(' && t.last() == ')') {
        Err("Invalid Vec2 format")
    } else {
        let inner = t.subrange(1, t.len() - 1);
        let comma = find(inner, ',', 0);
        if !(comma < inner.len() && find(inner, ',', comma + 1) == inner.len()) {
            Err("Vec2 must contain two values")
        } else {
            let x = trimmed(inner.take(comma));
            let y = trimmed(inner.skip(comma + 1));
            if is_float_literal(x) && is_float_literal(y) {
                Ok(Vec2 { x, y })
            } else {
                Err("Invalid float for Vec2")
            }
        }
    }
}

/// What a single number argument says.
pub open spec fn single_number_of(args: Seq<Seq<char>>) -> Result<Seq<char>, &'static str> {
    if args.len() != 1 {
        Err("Expected one float argument")
    } else if is_float_literal(args[0]) {
        Ok(args[0])
    } else {
        Err("Invalid float argument")
    }
}

/// What a single integer argument says.
pub open spec fn single_u64_of(args: Seq<Seq<char>>) -> Result<u64, &'static str> {
    if args.len() != 1 {
        Err("Expected one integer argument")
    } else {
        match parse_u64(args[0]) {
            Some(v) => Ok(v),
            None => Err("Invalid integer argument"),
        }
    }
}

/// Whether a reader's result is what the grammar says: the same value,
/// seen through its view, or the same error.
pub open spec fn agrees<T: View>(r: Result<T, &'static str>, said: Result<T::V, &'static str>) -> bool {
    match r {
        Ok(v) => said == Ok::<T::V, &'static str>(v@),
        Err(e) => said == Err::<T::V, &'static str>(e),
    }
}

/// Reads the one integer that `args` must hold.
pub fn single_u64(args: &[&str]) -> (r: Result<u64, &'static str>)
    ensures
        r == single_u64_of(texts(args)),
{
    if args.len() != 1 {
        return Err("Expected one integer argument");
    }
    let chars = to_chars(args[0]);
    match read_u64(chars.as_slice()) {
        Some(v) => Ok(v),
        None => Err("Invalid integer argument"),
    }
}

/// Reads the one number that `args` must hold, and returns its text.
pub fn single_f64(args: &[&str]) -> (r: Result<String, &'static str>)
    ensures
        agrees(r, single_number_of(texts(args))),
{
    if args.len() != 1 {
        return Err("Expected one float argument");
    }
    let chars = to_chars(args[0]);
    if is_number(chars.as_slice()) {
        Ok(args[0].to_owned())
    } else {
        Err("Invalid float argument")
    }
}

/// Tells whether `s` is exactly `word`.
pub fn is_word(s: &[char], word: &str) -> (r: bool)
    ensures
        r == (s@ == word@),
{
    let w = to_chars(word);
    if w.len() != s.len() {
        return false;
    }
    let mut i: usize = 0;
    while i < s.len()
        invariant
            w@ == word@,
            w@.len() == s@.len(),
            i <= s@.len(),
            forall|j: int| 0 <= j < i ==> s@[j] == w@[j],
        decreases s@.len() - i,
    {
        if s[i] != w[i] {
            return false;
        }
        i += 1;
    }
    assert(s@ =~= w@);
    true
}

/// Reads a bracketed pair of numbers.
pub fn vec2(arg: &str) -> (r: Result<Vec2<String>, &'static str>)
    ensures
        agrees(r, vec2_of(arg@)),
{
    let chars = to_chars(arg);
    let (a, b) = trim_bounds(chars.as_slice());
    let ghost t = trimmed(arg@);
    if !(a < b && chars[a] == '(' && chars[b - 1] == ')') {
        return Err("Invalid Vec2 format");
    }
    let inner = slice_subrange(chars.as_slice(), a + 1, b - 1);
    assert(inner@ =~= t.subrange(1, t.len() - 1));
    let comma = find_char(inner, ',', 0);
    if comma >= inner.len() {
        return Err("Vec2 must contain two values");
    }
    if find_char(inner, ',', comma + 1) != inner.len() {
        return Err("Vec2 must contain two values");
    }
    let left = slice_subrange(inner, 0, comma);
    let right = slice_subrange(inner, comma + 1, inner.len());
    assert(left@ =~= inner@.take(comma as int));
    assert(right@ =~= inner@.skip(comma + 1));
    let (xa, xb) = trim_bounds(left);
    let (ya, yb) = trim_bounds(right);
    let x_chars = slice_subrange(left, xa, xb);
    let y_chars = slice_subrange(right, ya, yb);
    if !is_number(x_chars) || !is_number(y_chars) {
        return Err("Invalid float for Vec2");
    }
    let x = arg.substring_char(a + 1 + xa, a + 1 + xb).to_owned();
    let y = arg.substring_char(a + 1 + comma + 1 + ya, a + 1 + comma + 1 + yb).to_owned();
    assert(x@ =~= x_chars@);
    assert(y@ =~= y_chars@);
    Ok(Vec2 { x, y })
}

/// What a single bracketed pair says.
pub open spec fn single_vec2_of(args: Seq<Seq<char>>) -> Result<Vec2<Seq<char>>, &'static str> {
    if args.len() != 1 {
        Err("Expected one argument for Vec2")
    } else {
        vec2_of(args[0])
    }
}

/// Reads the one bracketed pair that `args` must hold.
pub fn single_vec2(args: &[&str]) -> (r: Result<Vec2<String>, &'static str>)
    ensures
        agrees(r, single_vec2_of(texts(args))),
{
    if args.len() != 1 {
        return Err("Expected one argument for Vec2");
    }
    vec2(args[0])
}

/// What the first `n` of `args` say as bracketed pairs: all of them, in
/// order, or the complaint about the first that is none.
pub open spec fn vec2s_of(args: Seq<Seq<char>>, n: int) -> Result<
    Seq<Vec2<Seq<char>>>,
    &'static str,
>
    decreases n,
{
    if n <= 0 {
        Ok(Seq::empty())
    } else {
        match vec2s_of(args, n - 1) {
            Err(e) => Err(e),
            Ok(before) => match vec2_of(args[n - 1]) {
                Err(e) => Err(e),
                Ok(v) => Ok(before.push(v)),
            },
        }
    }
}

/// What a list of exactly `expected` bracketed pairs says.
pub open spec fn multiple_vec2_of(args: Seq<Seq<char>>, expected: int) -> Result<
    Seq<Vec2<Seq<char>>>,
    &'static str,
> {
    if args.len() != expected {
        Err("Incorrect number of Vec2 arguments")
    } else {
        vec2s_of(args, args.len() as int)
    }
}

/// The views of the items of a sequence.
pub open spec fn views<T: View>(s: Seq<T>) -> Seq<T::V> {
    Seq::new(s.len(), |i: int| s[i]@)
}

/// A complaint about an early argument stands, whatever follows it.
pub proof fn lemma_vec2s_error_stands(args: Seq<Seq<char>>, k: int, n: int)
    requires
        k <= n,
        vec2s_of(args, k) is Err,
    ensures
        vec2s_of(args, n) == vec2s_of(args, k),
    decreases n - k,
{
    if k < n {
        lemma_vec2s_error_stands(args, k, n - 1);
    }
}

/// Reads exactly `expected` bracketed pairs.
pub fn multiple_vec2(args: &[&str], expected: usize) -> (r: Result<Vec<Vec2<String>>, &'static str>)
    ensures
        match r {
            Ok(v) => multiple_vec2_of(texts(args), expected as int) == Ok::<
                Seq<Vec2<Seq<char>>>,
                &'static str,
            >(views(v@)),
            Err(e) => multiple_vec2_of(texts(args), expected as int) == Err::<
                Seq<Vec2<Seq<char>>>,
                &'static str,
            >(e),
        },
        r matches Ok(v) ==> v@.len() == expected,
{
    if args.len() != expected {
        return Err("Incorrect number of Vec2 arguments");
    }
    let mut out: Vec<Vec2<String>> = Vec::new();
    let mut i: usize = 0;
    assert(views(out@) =~= Seq::<Vec2<Seq<char>>>::empty());
    while i < args.len()
        invariant
            i <= args@.len(),
            args@.len() == expected,
            out@.len() == i,
            vec2s_of(texts(args), i as int) == Ok::<Seq<Vec2<Seq<char>>>, &'static str>(
                views(out@),
            ),
        decreases args@.len() - i,
    {
        match vec2(args[i]) {
            Err(e) => {
                proof {
                    lemma_vec2s_error_stands(texts(args), i + 1, args@.len() as int);
                }
                return Err(e);
            },
            Ok(v) => {
                let ghost before = views(out@);
                out.push(v);
                assert(views(out@) =~= before.push(v@));
            },
        }
        i += 1;
    }
    Ok(out)
}

/// What the arguments of a pose say: a bracketed pair and an angle.
pub open spec fn pose_of(args: Seq<Seq<char>>) -> Result<Command<Seq<char>>, &'static str> {
    if args.len() != 2 {
        Err("Pose requires two arguments: (x,y) and angle")
    } else {
        match vec2_of(args[0]) {
            Err(e) => Err(e),
            Ok(position) => if is_float_literal(args[1]) {
                Ok(Command::Pose(position, args[1]))
            } else {
                Err("Invalid float argument")
            },
        }
    }
}

/// Reads a position and an angle.
pub fn pose(args: &[&str]) -> (r: Result<Command<String>, &'static str>)
    ensures
        agrees(r, pose_of(texts(args))),
{
    if args.len() != 2 {
        return Err("Pose requires two arguments: (x,y) and angle");
    }
    match vec2(args[0]) {
        Err(e) => Err(e),
        Ok(position) => {
            let chars = to_chars(args[1]);
            if is_number(chars.as_slice()) {
                Ok(Command::Pose(position, args[1].to_owned()))
            } else {
                Err("Invalid float argument")
            }
        },
    }
}

/// What the argument of an intake line says: `off`, `on`, or a voltage.
pub open spec fn intake_command_of(args: Seq<Seq<char>>) -> Result<
    IntakeCommand<Seq<char>>,
    &'static str,
> {
    if args.len() != 1 {
        Err("Expected one float/toggle argument")
    } else if args[0] == "off"@ {
        Ok(IntakeCommand::Off)
    } else if args[0] == "on"@ {
        Ok(IntakeCommand::On)
    } else if is_float_literal(args[0]) {
        Ok(IntakeCommand::Voltage(args[0]))
    } else {
        Err("Invalid float argument")
    }
}

/// Reads the argument of an intake line.
pub fn intake_command(args: &[&str]) -> (r: Result<IntakeCommand<String>, &'static str>)
    ensures
        agrees(r, intake_command_of(texts(args))),
{
    if args.len() != 1 {
        return Err("Expected one float/toggle argument");
    }
    let chars = to_chars(args[0]);
    if is_word(chars.as_slice(), "off") {
        Ok(IntakeCommand::Off)
    } else if is_word(chars.as_slice(), "on") {
        Ok(IntakeCommand::On)
    } else if is_number(chars.as_slice()) {
        Ok(IntakeCommand::Voltage(args[0].to_owned()))
    } else {
        Err("Invalid float argument")
    }
}

/// What the argument of a scoring-arm line says: `next`, or an angle.
pub open spec fn lady_brown_command_of(args: Seq<Seq<char>>) -> Result<
    LadyBrownCommand<Seq<char>>,
    &'static str,
> {
    if args.len() != 1 {
        Err("Expected one voltage/next argument")
    } else if args[0] == "next"@ {
        Ok(LadyBrownCommand::Next)
    } else if is_float_literal(args[0]) {
        Ok(LadyBrownCommand::Angle(args[0]))
    } else {
        Err("Invalid float argument")
    }
}

/// Reads the argument of a scoring-arm line.
pub fn lady_brown_command(args: &[&str]) -> (r: Result<LadyBrownCommand<String>, &'static str>)
    ensures
        agrees(r, lady_brown_command_of(texts(args))),
{
    if args.len() != 1 {
        return Err("Expected one voltage/next argument");
    }
    let chars = to_chars(args[0]);
    if is_word(chars.as_slice(), "next") {
        Ok(LadyBrownCommand::Next)
    } else if is_number(chars.as_slice()) {
        Ok(LadyBrownCommand::Angle(args[0].to_owned()))
    } else {
        Err("Invalid float argument")
    }
}

} // verus!

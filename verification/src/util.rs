//! Small display helpers shared by the library and the command-line front end.
use vstd::prelude::*;
use crate::text::{chars_of, joined, join, opt_chars, push_char, push_str};

verus! {

/// The first `n` characters of `s`, or all of `s` when it has no more.
pub open spec fn prefix_text(s: Seq<char>, n: int) -> Seq<char> {
    if n < s.len() {
        s.take(n)
    } else {
        s
    }
}

/// First `n` chars of `s`, or the whole string if shorter. Never panics.
pub fn prefix(s: &str, n: usize) -> (res: String)
    ensures
        res@ == prefix_text(s@, n as int),
{
    let cs = chars_of(s);
    let end: usize = if n < cs.len() { n } else { cs.len() };
    let mut out = String::new();
    let mut i: usize = 0;
    while i < end
        invariant
            end <= cs.len(),
            cs@ == s@,
            i <= end,
            out@ == cs@.take(i as int),
        decreases end - i,
    {
        push_char(&mut out, cs[i]);
        assert(cs@.take(i + 1) == cs@.take(i as int).push(cs@[i as int]));
        i = i + 1;
    }
    assert(cs@.take(cs.len() as int) =~= cs@);
    out
}

/// `a - b` on naturals, saturating at zero.
pub open spec fn saturating_sub(a: nat, b: nat) -> nat {
    if a >= b { (a - b) as nat } else { 0 }
}

/// What `ellipsize` shows of `s` when it may use `max` characters.
pub open spec fn ellipsized(s: Seq<char>, max: nat) -> Seq<char> {
    if s.len() <= max {
        s
    } else {
        s.take(saturating_sub(max, 3) as int) + seq!['.', '.', '.']
    }
}

/// Truncate a command line for table display.
pub fn ellipsize(s: &str, max_chars: usize) -> (res: String)
    ensures
        res@ == ellipsized(s@, max_chars as nat),
{
    let cs = chars_of(s);
    if cs.len() <= max_chars {
        return s.to_owned();
    }
    let take: usize = if max_chars >= 3 { max_chars - 3 } else { 0 };
    let mut out = String::new();
    let mut i: usize = 0;
    while i < take
        invariant
            take < cs.len(),
            i <= take,
            out@ == cs@.take(i as int),
        decreases take - i,
    {
        push_char(&mut out, cs[i]);
        assert(cs@.take(i + 1) == cs@.take(i as int).push(cs@[i as int]));
        i = i + 1;
    }
    push_char(&mut out, '.');
    push_char(&mut out, '.');
    push_char(&mut out, '.');
    assert(out@ == cs@.take(take as int) + seq!['.', '.', '.']);
    out
}

/// The placeholder shown for an empty command (an em dash).
pub open spec fn no_command_text() -> Seq<char> {
    seq!['\u{2014}']
}

/// What `command_line` shows for `command`.
pub open spec fn command_line_text(command: Seq<Seq<char>>) -> Seq<char> {
    if command.len() == 0 {
        no_command_text()
    } else {
        joined(command, seq![' '])
    }
}

/// Join argv for humans. Empty gives an em dash.
pub fn command_line(command: &[String]) -> (res: String)
    ensures
        res@ == command_line_text(command.deep_view()),
{
    if command.len() == 0 {
        let mut s = String::new();
        push_char(&mut s, '\u{2014}');
        s
    } else {
        let sep = " ";
        proof {
            reveal_strlit(" ");
        }
        assert(sep@ == seq![' ']);
        join(command, sep)
    }
}


/// The first candidate that is set.
pub open spec fn first_set(candidates: Seq<Option<Seq<char>>>) -> Option<Seq<char>>
    decreases candidates.len(),
{
    if candidates.len() == 0 {
        None
    } else if candidates[0] is Some {
        candidates[0]
    } else {
        first_set(candidates.drop_first())
    }
}

/// What `best_effort` gives: the first candidate that is set, unless it is
/// empty.
pub open spec fn best_effort_value(candidates: Seq<Option<Seq<char>>>) -> Option<Seq<char>> {
    match first_set(candidates) {
        Some(s) => if s.len() == 0 {
            None
        } else {
            Some(s)
        },
        None => None,
    }
}

/// A best-effort value from sources tried in order (environment variables,
/// a file): the first one that is set, or nothing when that one is empty.
/// Used for the actor and host name, which are not authenticated.
pub fn best_effort(candidates: &[Option<String>]) -> (res: Option<String>)
    ensures
        opt_chars(res) == best_effort_value(candidates@.map_values(|o: Option<String>| opt_chars(o))),
{
    let ghost cv = candidates@.map_values(|o: Option<String>| opt_chars(o));
    let mut i: usize = 0;
    assert(cv.skip(0) =~= cv);
    while i < candidates.len()
        invariant
            i <= candidates.len(),
            cv == candidates@.map_values(|o: Option<String>| opt_chars(o)),
            first_set(cv) == first_set(cv.skip(i as int)),
        decreases candidates.len() - i,
    {
        assert(cv.skip(i as int).drop_first() =~= cv.skip(i + 1));
        match &candidates[i] {
            Some(s) => {
                assert(cv.skip(i as int)[0] == Some(s@));
                if s.as_str().is_empty() {
                    return None;
                }
                return Some(s.clone());
            },
            None => {},
        }
        i = i + 1;
    }
    assert(cv.skip(i as int).len() == 0);
    None
}

} // verus!

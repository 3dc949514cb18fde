//! Rows of the timeline index: how a document's command is stored in a row,
//! read back, and shown.
use vstd::prelude::*;
use crate::attestation::model::DeploymentAttestation;
use crate::canonical::{string_array_json, string_array_text};
use crate::text::{
    ascii_lower, ascii_lowercase, chars_of, occurs, occurs_in, opt_chars, push_char, push_str,
    string_of,
};
use crate::util::{command_line, command_line_text, ellipsize, ellipsized, prefix, prefix_text};

verus! {

/// One row of the timeline index, as queried for display.
#[derive(Debug)]
pub struct Row {
    pub timestamp: String,
    pub git_commit: Option<String>,
    pub exit_code: i32,
    pub attestation_hash: String,
    pub environment: Option<String>,
    pub command: Option<String>,
}

/// What `serde_json::from_str::<Vec<String>>` gives for a text.
pub uninterp spec fn string_array_parsed(text: Seq<char>) -> Option<Seq<Seq<char>>>;

/// `serde_json::from_str::<Vec<String>>`. Trusted: the result is a function of
/// the text; and the compact JSON text of an array of strings (as
/// `serde_json::to_string` writes it) parses back to that array.
#[verifier::external_body]
fn parse_string_array(text: &str) -> (res: Option<Vec<String>>)
    ensures
        match res {
            Some(v) => string_array_parsed(text@) == Some(v.deep_view()),
            None => string_array_parsed(text@) is None,
        },
        forall|v: Seq<Seq<char>>|
            #[trigger] string_array_text(v) == text@ ==> res is Some && res->0.deep_view() == v,
{
    match serde_json::from_str::<Vec<String>>(text) {
        Ok(v) => Some(v),
        Err(_) => None,
    }
}


/// The command a row shows: nothing for a missing or empty column, the parsed
/// JSON array when the column is one, else the column text as one argument.
pub open spec fn row_command(raw: Option<Seq<char>>) -> Seq<Seq<char>> {
    match raw {
        None => Seq::empty(),
        Some(s) => if s.len() == 0 {
            Seq::empty()
        } else {
            match string_array_parsed(s) {
                Some(v) => v,
                None => seq![s],
            }
        },
    }
}

/// Parse a command stored as a JSON array, falling back to the raw string.
pub fn command_from_row(raw: &Option<String>) -> (res: Vec<String>)
    ensures
        res.deep_view() == row_command(opt_chars(*raw)),
        forall|v: Seq<Seq<char>>|
            opt_chars(*raw) == Some(#[trigger] string_array_text(v)) ==> res.deep_view() == v,
{
    match raw {
        None => Vec::new(),
        Some(s) => {
            if s.as_str().is_empty() {
                return Vec::new();
            }
            assert forall|v: Seq<Seq<char>>| s@ == #[trigger] string_array_text(v) implies s@.len() > 0 by {
                assert(string_array_text(v)[0] == '[');
            }
            match parse_string_array(s.as_str()) {
                Some(v) => v,
                None => {
                    let mut v: Vec<String> = Vec::new();
                    v.push(s.clone());
                    assert(v.deep_view() =~= seq![s@]);
                    v
                },
            }
        },
    }
}

/// The command column of a document's row: its argv as a JSON array.
pub fn command_column(a: &DeploymentAttestation) -> (res: String)
    ensures
        res@ == string_array_text(a.command.deep_view()),
{
    string_array_json(a.command.as_slice())
}


/// The environment and commit label of a row: `[env @commit]`, `[env]`,
/// `[@commit]`, or nothing.
pub open spec fn env_label_text(environment: Option<Seq<char>>, git_commit: Option<Seq<char>>) -> Seq<
    char,
> {
    match (environment, git_commit) {
        (Some(e), Some(g)) => seq!['['] + e + seq![' ', '@'] + g + seq![']'],
        (Some(e), None) => seq!['['] + e + seq![']'],
        (None, Some(g)) => seq!['[', '@'] + g + seq![']'],
        (None, None) => Seq::empty(),
    }
}

/// The environment and commit label of a row.
pub fn env_label(environment: &Option<String>, git_commit: &Option<String>) -> (res: String)
    ensures
        res@ == env_label_text(opt_chars(*environment), opt_chars(*git_commit)),
{
    let mut out = String::new();
    match (environment, git_commit) {
        (Some(e), Some(g)) => {
            push_char(&mut out, '[');
            push_str(&mut out, e.as_str());
            push_char(&mut out, ' ');
            push_char(&mut out, '@');
            push_str(&mut out, g.as_str());
            push_char(&mut out, ']');
        },
        (Some(e), None) => {
            push_char(&mut out, '[');
            push_str(&mut out, e.as_str());
            push_char(&mut out, ']');
        },
        (None, Some(g)) => {
            push_char(&mut out, '[');
            push_char(&mut out, '@');
            push_str(&mut out, g.as_str());
            push_char(&mut out, ']');
        },
        (None, None) => {},
    }
    out
}

/// `s` padded with spaces on the right to at least `width` characters.
pub open spec fn padded(s: Seq<char>, width: nat) -> Seq<char> {
    if s.len() >= width {
        s
    } else {
        s + Seq::new((width - s.len()) as nat, |i: int| ' ')
    }
}

fn pad_right(s: &mut String, width: usize)
    ensures
        final(s)@ == padded(old(s)@, width as nat),
{
    let n = chars_of(s.as_str()).len();
    if n >= width {
        return;
    }
    let ghost start = s@;
    let mut k: usize = n;
    while k < width
        invariant
            n <= k <= width,
            n == start.len(),
            s@ == start + Seq::new((k - n) as nat, |i: int| ' '),
        decreases width - k,
    {
        push_char(s, ' ');
        assert(s@ =~= start + Seq::new((k + 1 - n) as nat, |i: int| ' '));
        k = k + 1;
    }
}

/// `s` with every `T` replaced by a space.
pub open spec fn t_to_space(s: Seq<char>) -> Seq<char> {
    s.map_values(|c: char| if c == 'T' { ' ' } else { c })
}

/// Check mark for a zero exit code, cross otherwise.
pub open spec fn exit_icon(exit_code: i32) -> Seq<char> {
    if exit_code == 0 {
        seq!['\u{2714}']
    } else {
        seq!['\u{2718}']
    }
}

/// One line of the history and timeline tables:
/// `{time:<20} {command:<28} {icon}  {hash prefix}... {label}`.
pub open spec fn display_line_text(row: Row) -> Seq<char> {
    let ts = t_to_space(prefix_text(row.timestamp@, 19));
    let cmd = ellipsized(command_line_text(row_command(opt_chars(row.command))), 26);
    padded(ts, 20) + seq![' '] + padded(cmd, 28) + seq![' '] + exit_icon(row.exit_code) + seq![
        ' ',
        ' ',
    ] + prefix_text(row.attestation_hash@, 28) + "... "@ + env_label_text(
        opt_chars(row.environment),
        opt_chars(row.git_commit),
    )
}

/// One line of the history and timeline tables.
pub fn display_line(row: &Row) -> (res: String)
    ensures
        res@ == display_line_text(*row),
{
    let ts_chars = chars_of(prefix(row.timestamp.as_str(), 19).as_str());
    let mut ts: Vec<char> = Vec::new();
    let mut i: usize = 0;
    while i < ts_chars.len()
        invariant
            i <= ts_chars.len(),
            ts@ == t_to_space(ts_chars@.take(i as int)),
        decreases ts_chars.len() - i,
    {
        let c = ts_chars[i];
        ts.push(if c == 'T' { ' ' } else { c });
        assert(ts@ =~= t_to_space(ts_chars@.take(i + 1)));
        i = i + 1;
    }
    assert(ts_chars@.take(ts_chars.len() as int) =~= ts_chars@);
    let mut out = string_of(&ts);
    pad_right(&mut out, 20);
    push_char(&mut out, ' ');
    let command = command_from_row(&row.command);
    let line = command_line(command.as_slice());
    let mut cmd = ellipsize(line.as_str(), 26);
    pad_right(&mut cmd, 28);
    push_str(&mut out, cmd.as_str());
    push_char(&mut out, ' ');
    if row.exit_code == 0 {
        push_char(&mut out, '\u{2714}');
    } else {
        push_char(&mut out, '\u{2718}');
    }
    push_char(&mut out, ' ');
    push_char(&mut out, ' ');
    push_str(&mut out, prefix(row.attestation_hash.as_str(), 28).as_str());
    push_str(&mut out, "... ");
    let label = env_label(&row.environment, &row.git_commit);
    push_str(&mut out, label.as_str());
    out
}


/// An error text of SQLite's `ALTER TABLE … ADD COLUMN` that says the column
/// is already there: it contains `duplicate`, in any ASCII letter case.
pub fn is_duplicate_column_error(message: &str) -> (res: bool)
    ensures
        res == occurs_in("duplicate"@, ascii_lower(message@)),
{
    let lower = ascii_lowercase(message);
    let hay = chars_of(lower.as_str());
    let needle = chars_of("duplicate");
    occurs(&needle, &hay)
}

} // verus!

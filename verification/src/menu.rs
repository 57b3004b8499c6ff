//! The interactive menu: reading a command from a line of input.

use vstd::prelude::*;
use vstd::string::StrSliceExecFns;

verus! {

/// Whether `c` has the Unicode property White_Space (what `char::is_whitespace`
/// and `str::trim` go by).
pub open spec fn is_white_space(c: char) -> bool {
    ||| ('\u{9}' <= c <= '\u{d}')
    ||| c == ' '
    ||| c == '\u{85}'
    ||| c == '\u{a0}'
    ||| c == '\u{1680}'
    ||| ('\u{2000}' <= c <= '\u{200a}')
    ||| c == '\u{2028}'
    ||| c == '\u{2029}'
    ||| c == '\u{202f}'
    ||| c == '\u{205f}'
    ||| c == '\u{3000}'
}

fn is_white_space_exec(c: char) -> (res: bool)
    ensures
        res == is_white_space(c),
{
    ('\u{9}' <= c && c <= '\u{d}') || c == ' ' || c == '\u{85}' || c == '\u{a0}' || c == '\u{1680}'
        || ('\u{2000}' <= c && c <= '\u{200a}') || c == '\u{2028}' || c == '\u{2029}' || c == '\u{202f}'
        || c == '\u{205f}' || c == '\u{3000}'
}

/// `s` without its leading white space.
pub open spec fn trim_start(s: Seq<char>) -> Seq<char>
    decreases s.len(),
{
    if s.len() > 0 && is_white_space(s[0]) {
        trim_start(s.drop_first())
    } else {
        s
    }
}

/// `s` without its trailing white space.
pub open spec fn trim_end(s: Seq<char>) -> Seq<char>
    decreases s.len(),
{
    if s.len() > 0 && is_white_space(s.last()) {
        trim_end(s.drop_last())
    } else {
        s
    }
}

/// `s` without leading and trailing white space (`str::trim`).
pub open spec fn trimmed(s: Seq<char>) -> Seq<char> {
    trim_end(trim_start(s))
}

/// A command of the menu.
#[derive(Clone, Copy, PartialEq, Eq, Debug)]
pub enum MenuCommand {
    /// Print the hash of a file.
    GenerateHash,
    /// Compare a file's hash with the baseline.
    CheckHash,
    /// Record a file in the baseline and add it to the monitored paths.
    AddFile,
    /// Scan the monitored paths and record their hashes.
    Baseline,
    /// Watch the baseline's files for events.
    Monitor,
    /// List the alert log.
    ShowAlerts,
    /// Delete the data files.
    ClearData,
    /// Leave the menu.
    Quit,
    /// Anything else.
    Invalid,
}

/// The character of a line that is one character long.
pub open spec fn single_char(t: Seq<char>) -> Option<char> {
    if t.len() == 1 {
        Some(t[0])
    } else {
        None
    }
}

/// The command a letter names: one of `g h a b m s c q`, in either case.
pub open spec fn command_letter(c: char) -> MenuCommand {
    if c == 'g' || c == 'G' {
        MenuCommand::GenerateHash
    } else if c == 'h' || c == 'H' {
        MenuCommand::CheckHash
    } else if c == 'a' || c == 'A' {
        MenuCommand::AddFile
    } else if c == 'b' || c == 'B' {
        MenuCommand::Baseline
    } else if c == 'm' || c == 'M' {
        MenuCommand::Monitor
    } else if c == 's' || c == 'S' {
        MenuCommand::ShowAlerts
    } else if c == 'c' || c == 'C' {
        MenuCommand::ClearData
    } else if c == 'q' || c == 'Q' {
        MenuCommand::Quit
    } else {
        MenuCommand::Invalid
    }
}

/// The command a trimmed line names in the menu: a line of one command
/// letter (see `command_letter`); anything else is invalid.
pub open spec fn command_of(t: Seq<char>) -> MenuCommand {
    match single_char(t) {
        Some(c) => command_letter(c),
        None => MenuCommand::Invalid,
    }
}

/// The command a trimmed line names in the menu of the full-scan variant:
/// `g a h m c q` as in `command_letter`, and `f` for the full scan; it has
/// no `b` and no alert listing.
pub open spec fn full_scan_command_of(t: Seq<char>) -> MenuCommand {
    match single_char(t) {
        Some(c) => if c == 'f' || c == 'F' {
            MenuCommand::Baseline
        } else if c == 'b' || c == 'B' || c == 's' || c == 'S' {
            MenuCommand::Invalid
        } else {
            command_letter(c)
        },
        None => MenuCommand::Invalid,
    }
}

/// The lower-case form of an ASCII letter; any other character as itself.
pub open spec fn ascii_lower(c: char) -> char {
    if 'A' <= c <= 'Z' {
        ((c as u32) + 32) as char
    } else {
        c
    }
}

/// Law: the case of a command letter does not matter, and each of
/// `g h a b m s c q` names its own command, the one its name starts with;
/// every other character is invalid.
pub proof fn lemma_command_letters()
    ensures
        forall|c: char| #[trigger] command_letter(c) == command_letter(ascii_lower(c)),
        forall|c: char| (#[trigger] command_letter(c) == MenuCommand::GenerateHash) <==> ascii_lower(c) == 'g',
        forall|c: char| (#[trigger] command_letter(c) == MenuCommand::CheckHash) <==> ascii_lower(c) == 'h',
        forall|c: char| (#[trigger] command_letter(c) == MenuCommand::AddFile) <==> ascii_lower(c) == 'a',
        forall|c: char| (#[trigger] command_letter(c) == MenuCommand::Baseline) <==> ascii_lower(c) == 'b',
        forall|c: char| (#[trigger] command_letter(c) == MenuCommand::Monitor) <==> ascii_lower(c) == 'm',
        forall|c: char| (#[trigger] command_letter(c) == MenuCommand::ShowAlerts) <==> ascii_lower(c) == 's',
        forall|c: char| (#[trigger] command_letter(c) == MenuCommand::ClearData) <==> ascii_lower(c) == 'c',
        forall|c: char| (#[trigger] command_letter(c) == MenuCommand::Quit) <==> ascii_lower(c) == 'q',
{
}

/// Law: a line is a command exactly when, trimmed, it is one command letter
/// in either case; in the full-scan variant `f` (either case) is the full
/// scan, `b` and `s` are invalid, and the other letters name what they name
/// in the main menu.
pub proof fn lemma_command_lines(t: Seq<char>, c: char)
    ensures
        t.len() != 1 ==> command_of(t) == MenuCommand::Invalid && full_scan_command_of(t) == MenuCommand::Invalid,
        command_of(seq![c]) == command_letter(c),
        ascii_lower(c) == 'f' ==> full_scan_command_of(seq![c]) == MenuCommand::Baseline,
        (ascii_lower(c) == 'b' || ascii_lower(c) == 's') ==> full_scan_command_of(seq![c]) == MenuCommand::Invalid,
        ascii_lower(c) != 'f' && ascii_lower(c) != 'b' && ascii_lower(c) != 's' ==> full_scan_command_of(seq![c])
            == command_letter(c),
{
    assert(seq![c].len() == 1);
    assert(seq![c][0] == c);
}

proof fn lemma_trim_start_step(s: Seq<char>, i: int)
    requires
        0 <= i < s.len(),
        is_white_space(s[i]),
    ensures
        trim_start(s.subrange(i, s.len() as int)) == trim_start(s.subrange(i + 1, s.len() as int)),
{
    let r = s.subrange(i, s.len() as int);
    assert(r.drop_first() =~= s.subrange(i + 1, s.len() as int));
}

proof fn lemma_trim_end_step(s: Seq<char>, j: int)
    requires
        0 < j <= s.len(),
        is_white_space(s[j - 1]),
    ensures
        trim_end(s.subrange(0, j)) == trim_end(s.subrange(0, j - 1)),
{
    let r = s.subrange(0, j);
    assert(r.drop_last() =~= s.subrange(0, j - 1));
}

/// The characters of `s` that remain after trimming, as the range
/// `[start, end)`.
fn trim_bounds(s: &str) -> (res: (usize, usize))
    ensures
        res.0 <= res.1 <= s@.len(),
        trimmed(s@) == s@.subrange(res.0 as int, res.1 as int),
{
    let n = s.unicode_len();
    let mut start: usize = 0;
    assert(s@.subrange(0, s@.len() as int) =~= s@);
    while start < n && is_white_space_exec(s.get_char(start))
        invariant
            n == s@.len(),
            start <= n,
            trim_start(s@) == trim_start(s@.subrange(start as int, n as int)),
        decreases n - start,
    {
        proof {
            lemma_trim_start_step(s@, start as int);
        }
        start = start + 1;
    }
    let ghost rest = s@.subrange(start as int, n as int);
    assert(trim_start(rest) == rest);
    let mut end: usize = n;
    assert(rest.subrange(0, rest.len() as int) =~= rest);
    while end > start && is_white_space_exec(s.get_char(end - 1))
        invariant
            n == s@.len(),
            start <= end <= n,
            rest == s@.subrange(start as int, n as int),
            trim_end(rest) == trim_end(rest.subrange(0, end - start)),
        decreases end - start,
    {
        proof {
            assert(rest[end - start - 1] == s@[end - 1]);
            lemma_trim_end_step(rest, end - start);
        }
        end = end - 1;
    }
    assert(rest.subrange(0, end - start) =~= s@.subrange(start as int, end as int));
    (start, end)
}

/// The single character of the trimmed line, if it has exactly one.
fn trimmed_single_char(input: &str) -> (res: Option<char>)
    ensures
        res == single_char(trimmed(input@)),
{
    let (start, end) = trim_bounds(input);
    if end - start == 1 {
        let c = input.get_char(start);
        assert(input@.subrange(start as int, end as int)[0] == c);
        Some(c)
    } else {
        None
    }
}

/// Reads a command from a line typed at the menu: the line is trimmed and
/// compared, ignoring case, with the command letters.
pub fn parse_command(input: &str) -> (res: MenuCommand)
    ensures
        res == command_of(trimmed(input@)),
{
    match trimmed_single_char(input) {
        Some(c) => letter_command(c),
        None => MenuCommand::Invalid,
    }
}

fn letter_command(c: char) -> (res: MenuCommand)
    ensures
        res == command_letter(c),
{
    if c == 'g' || c == 'G' {
        MenuCommand::GenerateHash
    } else if c == 'h' || c == 'H' {
        MenuCommand::CheckHash
    } else if c == 'a' || c == 'A' {
        MenuCommand::AddFile
    } else if c == 'b' || c == 'B' {
        MenuCommand::Baseline
    } else if c == 'm' || c == 'M' {
        MenuCommand::Monitor
    } else if c == 's' || c == 'S' {
        MenuCommand::ShowAlerts
    } else if c == 'c' || c == 'C' {
        MenuCommand::ClearData
    } else if c == 'q' || c == 'Q' {
        MenuCommand::Quit
    } else {
        MenuCommand::Invalid
    }
}

/// What the check of a file prints: whether its hash disagrees with the
/// baseline.
pub fn check_message(agrees: bool) -> (res: &'static str)
    ensures
        res@ == (if agrees {
            "No mistmatch detected or file not found in baseline \n"@
        } else {
            "Mismatch found \n"@
        }),
{
    if agrees {
        "No mistmatch detected or file not found in baseline \n"
    } else {
        "Mismatch found \n"
    }
}

/// What the check of a file prints in the full-scan variant: a line only
/// when its hash disagrees with the baseline.
pub fn full_scan_check_message(agrees: bool) -> (res: Option<&'static str>)
    ensures
        match res {
            Some(m) => !agrees && m@ == "Hash mismatch found"@,
            None => agrees,
        },
{
    if agrees {
        None
    } else {
        Some("Hash mismatch found")
    }
}

/// Reads a command from a line typed at the menu of the full-scan variant.
pub fn parse_full_scan_command(input: &str) -> (res: MenuCommand)
    ensures
        res == full_scan_command_of(trimmed(input@)),
{
    match trimmed_single_char(input) {
        Some(c) => {
            if c == 'f' || c == 'F' {
                MenuCommand::Baseline
            } else if c == 'b' || c == 'B' || c == 's' || c == 'S' {
                MenuCommand::Invalid
            } else {
                letter_command(c)
            }
        },
        None => MenuCommand::Invalid,
    }
}

} // verus!

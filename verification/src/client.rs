//! The command language of the interactive client: a line typed by the user
//! becomes a request for the server, a local action, or an error to show.

use vstd::prelude::*;
use vstd::string::StrSliceExecFns;

use crate::ids::{parse_uuid, uuid_parse};

verus! {

/// A request the client sends to the server.
#[derive(Clone, Copy, Debug, PartialEq, Eq, Structural)]
#[allow(inconsistent_fields)]
pub enum Command {
    JoinLobby { id: Option<u128> },
    DisplayLobby,
    LeaveLobby,
    SearchGame,
    CancelSearch,
    ConfirmGame { id: u128 },
    DisplayPlayer { id: Option<u128> },
    Help,
}

/// The Unicode `White_Space` characters.
pub open spec fn is_ws(c: char) -> bool {
    let n = c as u32;
    (0x9 <= n <= 0xD) || n == 0x20 || n == 0x85 || n == 0xA0 || n == 0x1680 || (0x2000 <= n <= 0x200A)
        || n == 0x2028 || n == 0x2029 || n == 0x202F || n == 0x205F || n == 0x3000
}

/// The text without its leading white space.
pub open spec fn trim_start(s: Seq<char>) -> Seq<char>
    decreases s.len(),
{
    if s.len() > 0 && is_ws(s[0]) {
        trim_start(s.drop_first())
    } else {
        s
    }
}

/// The text without its trailing white space.
pub open spec fn trim_end(s: Seq<char>) -> Seq<char>
    decreases s.len(),
{
    if s.len() > 0 && is_ws(s.last()) {
        trim_end(s.drop_last())
    } else {
        s
    }
}

/// The text without leading and trailing white space.
pub open spec fn trim(s: Seq<char>) -> Seq<char> {
    trim_end(trim_start(s))
}

/// Position of the first space at or after `i`, or the length if none.
pub open spec fn space_pos(t: Seq<char>, i: int) -> int
    decreases t.len() - i,
{
    if i >= t.len() {
        t.len() as int
    } else if t[i] == ' ' {
        i
    } else {
        space_pos(t, i + 1)
    }
}

/// The command word of a line: the trimmed text before the first space of
/// the trimmed line.
pub open spec fn command_word(line: Seq<char>) -> Seq<char> {
    let t = trim(line);
    trim(t.subrange(0, space_pos(t, 0)))
}

/// The argument of a line: the trimmed text after the first space of the
/// trimmed line, if there is a space.
pub open spec fn command_arg(line: Seq<char>) -> Option<Seq<char>> {
    let t = trim(line);
    let p = space_pos(t, 0);
    if p < t.len() {
        Some(trim(t.subrange(p + 1, t.len() as int)))
    } else {
        None
    }
}

/// An argument text paired with the UUID it parses to, if any.
pub open spec fn with_parse(arg: Option<Seq<char>>) -> Option<(Seq<char>, Option<u128>)> {
    match arg {
        None => None,
        Some(a) => Some((a, uuid_parse(a))),
    }
}

/// An optional identifier argument, given with its parse: absent, or a
/// valid UUID.
pub open spec fn optional_id(arg: Option<(Seq<char>, Option<u128>)>) -> Result<Option<u128>, Seq<char>> {
    match arg {
        None => Ok(None),
        Some((a, parsed)) => match parsed {
            Some(u) => Ok(Some(u)),
            None => Err("Invalid UUID: "@ + a),
        },
    }
}

/// What a command word means with its argument, the argument given with its
/// parse as a UUID: a request, or the text of an error (empty for an empty
/// word).
pub open spec fn command_of(cmd: Seq<char>, arg: Option<(Seq<char>, Option<u128>)>) -> Result<Command, Seq<char>> {
    if cmd == "JoinLobby"@ {
        match optional_id(arg) {
            Ok(id) => Ok(Command::JoinLobby { id }),
            Err(e) => Err(e),
        }
    } else if cmd == "DisplayLobby"@ {
        Ok(Command::DisplayLobby)
    } else if cmd == "LeaveLobby"@ {
        Ok(Command::LeaveLobby)
    } else if cmd == "SearchGame"@ {
        Ok(Command::SearchGame)
    } else if cmd == "CancelSearch"@ {
        Ok(Command::CancelSearch)
    } else if cmd == "ConfirmGame"@ {
        match arg {
            None => Err("Usage: ConfirmGame <uuid>"@),
            Some((a, parsed)) => match parsed {
                Some(u) => Ok(Command::ConfirmGame { id: u }),
                None => Err("Invalid UUID: "@ + a),
            },
        }
    } else if cmd == "DisplayPlayer"@ {
        match optional_id(arg) {
            Ok(id) => Ok(Command::DisplayPlayer { id }),
            Err(e) => Err(e),
        }
    } else if cmd == "Help"@ {
        Ok(Command::Help)
    } else if cmd.len() == 0 {
        Err(Seq::empty())
    } else {
        Err("Unknown command: "@ + cmd)
    }
}

/// What a line of the command language means: a request, or the text of an
/// error (empty for an empty line).
pub open spec fn parse_spec(line: Seq<char>) -> Result<Command, Seq<char>> {
    command_of(command_word(line), with_parse(command_arg(line)))
}

/// The result of trimming starts with no white space.
pub proof fn lemma_trim_start_result(s: Seq<char>)
    ensures
        trim_start(s).len() == 0 || !is_ws(trim_start(s)[0]),
        trim_start(s).len() <= s.len(),
    decreases s.len(),
{
    if s.len() > 0 && is_ws(s[0]) {
        lemma_trim_start_result(s.drop_first());
    }
}

/// Trimming the end keeps a prefix that ends in no white space.
pub proof fn lemma_trim_end_result(s: Seq<char>)
    ensures
        trim_end(s).len() <= s.len(),
        trim_end(s) == s.subrange(0, trim_end(s).len() as int),
        trim_end(s).len() == 0 || !is_ws(trim_end(s).last()),
    decreases s.len(),
{
    if s.len() > 0 && is_ws(s.last()) {
        lemma_trim_end_result(s.drop_last());
        assert(s.drop_last().subrange(0, trim_end(s).len() as int) =~= s.subrange(0, trim_end(s).len() as int));
    } else {
        assert(s.subrange(0, s.len() as int) =~= s);
    }
}

/// Trimming a trimmed text changes nothing.
pub proof fn lemma_trim_idempotent(s: Seq<char>)
    ensures
        trim(trim(s)) == trim(s),
{
    let u = trim_start(s);
    let t = trim_end(u);
    lemma_trim_start_result(s);
    lemma_trim_end_result(u);
    if t.len() > 0 {
        assert(t[0] == u[0]);
    }
    assert(trim_start(t) == t);
    assert(trim_end(t) == t);
}

/// A line means what its trimmed form means: white space around a command
/// is ignored.
pub proof fn law_parse_ignores_surrounding_space(line: Seq<char>)
    ensures
        parse_spec(trim(line)) == parse_spec(line),
{
    lemma_trim_idempotent(line);
}

/// What the client does with a typed line.
pub enum LineAction {
    Quit,
    ShowHelp,
    Send(Command),
    Report(String),
    Nothing,
}

/// Whether a character is white space.
pub fn is_whitespace(c: char) -> (b: bool)
    ensures
        b == is_ws(c),
{
    let n = c as u32;
    (0x9 <= n && n <= 0xD) || n == 0x20 || n == 0x85 || n == 0xA0 || n == 0x1680 || (0x2000 <= n && n <= 0x200A)
        || n == 0x2028 || n == 0x2029 || n == 0x202F || n == 0x205F || n == 0x3000
}

/// The text without leading and trailing white space.
pub fn trim_str(s: &str) -> (r: &str)
    ensures
        r@ == trim(s@),
{
    let n = s.unicode_len();
    let mut a: usize = 0;
    assert(s@.subrange(0, n as int) =~= s@);
    while a < n && is_whitespace(s.get_char(a))
        invariant
            n == s@.len(),
            0 <= a <= n,
            trim_start(s@) == trim_start(s@.subrange(a as int, n as int)),
        decreases n - a,
    {
        assert(s@.subrange(a as int, n as int).drop_first() =~= s@.subrange(a + 1, n as int));
        a = a + 1;
    }
    let ghost u = s@.subrange(a as int, n as int);
    assert(trim_start(s@) == u) by {
        if a < n {
            assert(u[0] == s@[a as int]);
        }
    }
    let mut b: usize = n;
    while b > a && is_whitespace(s.get_char(b - 1))
        invariant
            n == s@.len(),
            0 <= a <= b <= n,
            u == s@.subrange(a as int, n as int),
            trim_end(u) == trim_end(s@.subrange(a as int, b as int)),
        decreases b - a,
    {
        assert(s@.subrange(a as int, b as int).drop_last() =~= s@.subrange(a as int, b - 1));
        b = b - 1;
    }
    assert(trim_end(u) == s@.subrange(a as int, b as int)) by {
        if b > a {
            assert(s@.subrange(a as int, b as int).last() == s@[b - 1]);
        }
    }
    s.substring_char(a, b)
}

/// Whether two texts are equal.
pub fn str_equal(a: &str, b: &str) -> (r: bool)
    ensures
        r == (a@ == b@),
{
    let n = a.unicode_len();
    if n != b.unicode_len() {
        return false;
    }
    let mut i: usize = 0;
    while i < n
        invariant
            n == a@.len(),
            n == b@.len(),
            0 <= i <= n,
            forall|j: int| 0 <= j < i ==> a@[j] == b@[j],
        decreases n - i,
    {
        if a.get_char(i) != b.get_char(i) {
            return false;
        }
        i = i + 1;
    }
    assert(a@ =~= b@);
    true
}

/// Text made of a prefix and a suffix.
fn join(prefix: &str, rest: &str) -> (r: String)
    ensures
        r@ == prefix@ + rest@,
{
    let mut r = String::from_str(prefix);
    r.append(rest);
    r
}

/// The argument text with its parse as a UUID, as the view of the pair.
pub open spec fn arg_view(arg: Option<(&str, Option<u128>)>) -> Option<(Seq<char>, Option<u128>)> {
    match arg {
        None => None,
        Some((a, parsed)) => Some((a@, parsed)),
    }
}

/// The request a command word names, given its argument together with the
/// argument's parse as a UUID; an unknown word, a missing or invalid
/// identifier give the error text.
pub fn command_from_parts(cmd: &str, arg: Option<(&str, Option<u128>)>) -> (r: Result<Command, String>)
    ensures
        match (r, command_of(cmd@, arg_view(arg))) {
            (Ok(x), Ok(y)) => x == y,
            (Err(x), Err(y)) => x@ == y,
            _ => false,
        },
{
    if str_equal(cmd, "JoinLobby") {
        match arg {
            None => Ok(Command::JoinLobby { id: None }),
            Some((a, parsed)) => match parsed {
                Some(u) => Ok(Command::JoinLobby { id: Some(u) }),
                None => Err(join("Invalid UUID: ", a)),
            },
        }
    } else if str_equal(cmd, "DisplayLobby") {
        Ok(Command::DisplayLobby)
    } else if str_equal(cmd, "LeaveLobby") {
        Ok(Command::LeaveLobby)
    } else if str_equal(cmd, "SearchGame") {
        Ok(Command::SearchGame)
    } else if str_equal(cmd, "CancelSearch") {
        Ok(Command::CancelSearch)
    } else if str_equal(cmd, "ConfirmGame") {
        match arg {
            None => Err(String::from_str("Usage: ConfirmGame <uuid>")),
            Some((a, parsed)) => match parsed {
                Some(u) => Ok(Command::ConfirmGame { id: u }),
                None => Err(join("Invalid UUID: ", a)),
            },
        }
    } else if str_equal(cmd, "DisplayPlayer") {
        match arg {
            None => Ok(Command::DisplayPlayer { id: None }),
            Some((a, parsed)) => match parsed {
                Some(u) => Ok(Command::DisplayPlayer { id: Some(u) }),
                None => Err(join("Invalid UUID: ", a)),
            },
        }
    } else if str_equal(cmd, "Help") {
        Ok(Command::Help)
    } else if cmd.unicode_len() == 0 {
        Err(String::new())
    } else {
        Err(join("Unknown command: ", cmd))
    }
}

/// Parses a line of the command language.
pub fn parse_command(line: &str) -> (r: Result<Command, String>)
    ensures
        match (r, parse_spec(line@)) {
            (Ok(x), Ok(y)) => x == y,
            (Err(x), Err(y)) => x@ == y,
            _ => false,
        },
{
    let t = trim_str(line);
    let n = t.unicode_len();
    let mut p: usize = 0;
    while p < n && t.get_char(p) != ' '
        invariant
            n == t@.len(),
            0 <= p <= n,
            space_pos(t@, 0) == space_pos(t@, p as int),
        decreases n - p,
    {
        p = p + 1;
    }
    assert(space_pos(t@, 0) == p);
    let cmd = trim_str(t.substring_char(0, p));
    let arg: Option<&str> = if p < n {
        Some(trim_str(t.substring_char(p + 1, n)))
    } else {
        None
    };
    assert(cmd@ == command_word(line@));
    assert(match arg { Some(a) => Some(a@), None => None } == command_arg(line@));
    let parts: Option<(&str, Option<u128>)> = match arg {
        Some(a) => Some((a, parse_uuid(a))),
        None => None,
    };
    assert(arg_view(parts) == with_parse(command_arg(line@)));
    command_from_parts(cmd, parts)
}

/// What the client does with a typed line: "quit"/"q" quits, "help"/"h"
/// shows the local help, anything else is parsed as a command; an error is
/// reported unless its text is empty.
pub fn interpret_line(line: &str) -> (a: LineAction)
    ensures
        trim(line@) == "quit"@ || trim(line@) == "q"@ ==> a is Quit,
        !(trim(line@) == "quit"@ || trim(line@) == "q"@) && (trim(line@) == "help"@ || trim(line@) == "h"@) ==> a is ShowHelp,
        !(trim(line@) == "quit"@ || trim(line@) == "q"@ || trim(line@) == "help"@ || trim(line@) == "h"@) ==> match (
            a,
            parse_spec(trim(line@)),
        ) {
            (LineAction::Send(c), Ok(d)) => c == d,
            (LineAction::Report(e), Err(f)) => e@ == f && f.len() > 0,
            (LineAction::Nothing, Err(f)) => f.len() == 0,
            _ => false,
        },
{
    let t = trim_str(line);
    if str_equal(t, "quit") || str_equal(t, "q") {
        return LineAction::Quit;
    }
    if str_equal(t, "help") || str_equal(t, "h") {
        return LineAction::ShowHelp;
    }
    match parse_command(t) {
        Ok(c) => LineAction::Send(c),
        Err(e) => {
            if e.as_str().unicode_len() == 0 {
                LineAction::Nothing
            } else {
                LineAction::Report(e)
            }
        },
    }
}

} // verus!

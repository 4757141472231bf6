//! Parsing of reply lines, command lines and envelope addresses.

use vstd::prelude::*;
use vstd::utf8::encode_utf8;
use crate::text::{chars_of, push_str, string_of, substring, trim, trim_bounds};

verus! {

/// A reply code, banded by its class.
#[derive(Debug, Clone, Copy, PartialEq, Eq, Structural)]
pub enum STATUS {
    S200(u16),
    S300(u16),
    S400(u16),
    S500(u16),
}

/// One reply line: its status, the text after the four-character prefix,
/// and whether more lines of the same reply follow (a dash after the code).
#[derive(Debug)]
pub struct Line {
    pub status: STATUS,
    pub content: String,
    pub more: bool,
}

pub open spec fn is_digit(c: char) -> bool {
    '0' <= c && c <= '9'
}

pub open spec fn digit_value(c: char) -> int {
    c as int - '0' as int
}

/// The number written by the first three characters of `s`.
pub open spec fn code_of(s: Seq<char>) -> int {
    100 * digit_value(s[0]) + 10 * digit_value(s[1]) + digit_value(s[2])
}

/// `s` is a reply line: a code from 200 to 599 in three digits, then a space
/// (last line of a reply) or a dash (more lines follow).
pub open spec fn is_reply_line(s: Seq<char>) -> bool {
    &&& s.len() >= 4
    &&& is_digit(s[0]) && is_digit(s[1]) && is_digit(s[2])
    &&& 200 <= code_of(s) <= 599
    &&& s[3] == ' ' || s[3] == '-'
}

/// The class band of a code from 200 to 599.
pub open spec fn status_of(code: int) -> STATUS {
    if code < 300 {
        STATUS::S200(code as u16)
    } else if code < 400 {
        STATUS::S300(code as u16)
    } else if code < 500 {
        STATUS::S400(code as u16)
    } else {
        STATUS::S500(code as u16)
    }
}

/// Parses a reply line: `None` unless the line is a reply line.
pub fn get_status_line(string: String) -> (r: Option<Line>)
    ensures
        r is Some <==> is_reply_line(string@),
        r matches Some(l) ==> {
            &&& l.status == status_of(code_of(string@))
            &&& l.content@ == string@.subrange(4, string@.len() as int)
            &&& l.more == (string@[3] == '-')
        },
{
    let s = chars_of(string.as_str());
    if s.len() < 4 {
        return None;
    }
    let (a, b, c) = (s[0], s[1], s[2]);
    if !('0' <= a && a <= '9' && '0' <= b && b <= '9' && '0' <= c && c <= '9') {
        return None;
    }
    let code: u16 = 100 * (a as u32 - '0' as u32) as u16 + 10 * (b as u32 - '0' as u32) as u16
        + (c as u32 - '0' as u32) as u16;
    let sep = s[3];
    if sep != ' ' && sep != '-' {
        return None;
    }
    let status = if code < 200 {
        return None;
    } else if code < 300 {
        STATUS::S200(code)
    } else if code < 400 {
        STATUS::S300(code)
    } else if code < 500 {
        STATUS::S400(code)
    } else if code < 600 {
        STATUS::S500(code)
    } else {
        return None;
    };
    let content = substring(&s, 4, s.len());
    Some(Line { status, content, more: sep == '-' })
}

} // verus!

verus! {

/// A command keyword recognised by the server.
#[derive(Debug, Clone, Copy, PartialEq, Eq, Structural)]
pub enum Command {
    Quit,
    Data,
    Helo,
    Ehlo,
    StartTls,
    RcptTo,
    MailFrom,
}

/// A recognised command and the rest of its line, as received.
#[derive(Debug)]
pub struct CommandLine {
    pub command: Command,
    pub rest_of_line: String,
}

/// The keyword that introduces a command, in upper case.
pub open spec fn keyword(c: Command) -> Seq<char> {
    match c {
        Command::Quit => seq!['Q', 'U', 'I', 'T'],
        Command::Data => seq!['D', 'A', 'T', 'A'],
        Command::Helo => seq!['H', 'E', 'L', 'O'],
        Command::Ehlo => seq!['E', 'H', 'L', 'O'],
        Command::StartTls => seq!['S', 'T', 'A', 'R', 'T', 'T', 'L', 'S'],
        Command::RcptTo => seq!['R', 'C', 'P', 'T', ' ', 'T', 'O'],
        Command::MailFrom => seq!['M', 'A', 'I', 'L', ' ', 'F', 'R', 'O', 'M'],
    }
}

/// `c` is the upper-case keyword character `k`, or its lower-case letter.
pub open spec fn same_letter(c: char, k: char) -> bool {
    c == k || ('A' <= k && k <= 'Z' && c as u32 == k as u32 + 32)
}

/// `s` starts with the keyword `k`, ignoring the case of letters.
pub open spec fn starts_with_keyword(s: Seq<char>, k: Seq<char>) -> bool {
    k.len() <= s.len() && forall|i: int| 0 <= i < k.len() ==> same_letter(#[trigger] s[i], k[i])
}

/// The command that a line starts with, if any.
pub open spec fn command_of(s: Seq<char>) -> Option<Command> {
    if starts_with_keyword(s, keyword(Command::Quit)) {
        Some(Command::Quit)
    } else if starts_with_keyword(s, keyword(Command::Data)) {
        Some(Command::Data)
    } else if starts_with_keyword(s, keyword(Command::Helo)) {
        Some(Command::Helo)
    } else if starts_with_keyword(s, keyword(Command::Ehlo)) {
        Some(Command::Ehlo)
    } else if starts_with_keyword(s, keyword(Command::StartTls)) {
        Some(Command::StartTls)
    } else if starts_with_keyword(s, keyword(Command::RcptTo)) {
        Some(Command::RcptTo)
    } else if starts_with_keyword(s, keyword(Command::MailFrom)) {
        Some(Command::MailFrom)
    } else {
        None
    }
}

fn keyword_chars(c: Command) -> (r: Vec<char>)
    ensures
        r@ == keyword(c),
{
    let r = match c {
        Command::Quit => vec!['Q', 'U', 'I', 'T'],
        Command::Data => vec!['D', 'A', 'T', 'A'],
        Command::Helo => vec!['H', 'E', 'L', 'O'],
        Command::Ehlo => vec!['E', 'H', 'L', 'O'],
        Command::StartTls => vec!['S', 'T', 'A', 'R', 'T', 'T', 'L', 'S'],
        Command::RcptTo => vec!['R', 'C', 'P', 'T', ' ', 'T', 'O'],
        Command::MailFrom => vec!['M', 'A', 'I', 'L', ' ', 'F', 'R', 'O', 'M'],
    };
    proof {
        assert(r@ =~= keyword(c));
    }
    r
}

pub(crate) fn has_keyword(s: &Vec<char>, c: Command) -> (r: bool)
    ensures
        r == starts_with_keyword(s@, keyword(c)),
{
    let k = keyword_chars(c);
    if k.len() > s.len() {
        return false;
    }
    let mut i: usize = 0;
    while i < k.len()
        invariant
            k@ == keyword(c),
            k@.len() <= s@.len(),
            0 <= i <= k@.len(),
            forall|j: int| 0 <= j < i ==> same_letter(#[trigger] s@[j], k@[j]),
        decreases k.len() - i,
    {
        let (a, b) = (s[i], k[i]);
        if !(a == b || ('A' <= b && b <= 'Z' && a as u32 == b as u32 + 32)) {
            return false;
        }
        i = i + 1;
    }
    true
}

/// `s` and `t` differ at most in letters that are upper case in `t` and
/// lower case in `s`.
pub open spec fn folds_to(s: Seq<char>, t: Seq<char>) -> bool {
    s.len() == t.len() && forall|i: int| 0 <= i < s.len() ==> same_letter(#[trigger] s[i], t[i])
}

/// A keyword is made of upper-case letters and spaces.
pub open spec fn is_upper_word(k: Seq<char>) -> bool {
    forall|i: int| 0 <= i < k.len() ==> (#[trigger] k[i] == ' ' || ('A' <= k[i] && k[i] <= 'Z'))
}

proof fn lemma_folds_keyword(s: Seq<char>, t: Seq<char>, k: Seq<char>)
    requires
        folds_to(s, t),
        is_upper_word(k),
    ensures
        starts_with_keyword(s, k) == starts_with_keyword(t, k),
{
    if k.len() <= t.len() {
        assert forall|i: int| 0 <= i < k.len() implies same_letter(s[i], k[i]) == same_letter(
            t[i],
            k[i],
        ) by {
            assert(same_letter(s[i], t[i]));
            assert(k[i] == ' ' || ('A' <= k[i] && k[i] <= 'Z'));
        }
        if starts_with_keyword(s, k) {
            assert forall|i: int| 0 <= i < k.len() implies same_letter(#[trigger] t[i], k[i]) by {
                assert(same_letter(s[i], k[i]));
            }
        }
        if starts_with_keyword(t, k) {
            assert forall|i: int| 0 <= i < k.len() implies same_letter(#[trigger] s[i], k[i]) by {
                assert(same_letter(t[i], k[i]));
            }
        }
    }
}

/// A command is recognised whatever the case of the letters of its keyword,
/// and the rest of the line is handed back as it was.
pub proof fn lemma_command_ignores_case(c: Command, written: Seq<char>, rest: Seq<char>)
    requires
        folds_to(written, keyword(c)),
    ensures
        command_of(written + rest) == Some(c),
        (written + rest).skip(keyword(c).len() as int) == rest,
{
    let s = written + rest;
    let t = keyword(c) + rest;
    assert(folds_to(s, t)) by {
        assert forall|i: int| 0 <= i < s.len() implies same_letter(#[trigger] s[i], t[i]) by {
            if i < written.len() {
                assert(same_letter(written[i], keyword(c)[i]));
            }
        }
    }
    assert forall|d: Command| #![auto] starts_with_keyword(s, keyword(d)) == starts_with_keyword(
        t,
        keyword(d),
    ) by {
        assert(is_upper_word(keyword(d)));
        lemma_folds_keyword(s, t, keyword(d));
    }
    assert(command_of(t) == Some(c)) by {
        assert(t.take(keyword(c).len() as int) =~= keyword(c));
        assert(starts_with_keyword(t, keyword(c)));
    }
    assert(s.skip(keyword(c).len() as int) =~= rest);
}

/// Recognises the command that a line starts with, ignoring case, and hands
/// back the rest of the line after the keyword.
pub fn get_command(string: String) -> (r: Option<CommandLine>)
    ensures
        r is Some <==> command_of(string@) is Some,
        r matches Some(l) ==> {
            &&& command_of(string@) == Some(l.command)
            &&& l.rest_of_line@ == string@.skip(keyword(l.command).len() as int)
        },
{
    let s = chars_of(string.as_str());
    let command = if has_keyword(&s, Command::Quit) {
        Command::Quit
    } else if has_keyword(&s, Command::Data) {
        Command::Data
    } else if has_keyword(&s, Command::Helo) {
        Command::Helo
    } else if has_keyword(&s, Command::Ehlo) {
        Command::Ehlo
    } else if has_keyword(&s, Command::StartTls) {
        Command::StartTls
    } else if has_keyword(&s, Command::RcptTo) {
        Command::RcptTo
    } else if has_keyword(&s, Command::MailFrom) {
        Command::MailFrom
    } else {
        return None;
    };
    let k = keyword_chars(command);
    let rest = substring(&s, k.len(), s.len());
    proof {
        assert(rest@ =~= string@.skip(keyword(command).len() as int));
    }
    Some(CommandLine { command, rest_of_line: rest })
}

} // verus!

verus! {

/// The reply to an address too short to hold one.
pub open spec fn short_address_error() -> Seq<char> {
    "555 Syntax error"@
}

/// The reply to an address that does not start with a colon.
pub open spec fn colon_error(found: char) -> Seq<char> {
    "555 Syntax error, expected (:) found: ("@ + seq![found] + ")"@
}

/// The reply to an address that is not enclosed in angle brackets.
pub open spec fn bracket_error() -> Seq<char> {
    "555 Syntax error expect email to be enclosed within (< >)"@
}

/// `t` is an address enclosed in angle brackets.
pub open spec fn is_bracketed(t: Seq<char>) -> bool {
    t.len() >= 2 && t[0] == '<' && t[t.len() - 1] == '>'
}

/// What an envelope argument `:<address>` gives: the address, or the reply
/// that rejects it. An argument under five bytes of UTF-8 is too short.
pub open spec fn email_of(s: Seq<char>) -> Result<Seq<char>, Seq<char>> {
    if (encode_utf8(s).len() as usize) < 5 {
        Err(short_address_error())
    } else if s[0] != ':' {
        Err(colon_error(s[0]))
    } else {
        let t = trim(s.skip(1));
        if is_bracketed(t) {
            Ok(t.subrange(1, t.len() - 1))
        } else {
            Err(bracket_error())
        }
    }
}

/// Parses the argument of MAIL FROM or RCPT TO: a colon, then, after white
/// space is trimmed, an address within angle brackets.
pub fn parse_email(email: &str) -> (r: Result<String, String>)
    ensures
        r matches Ok(a) ==> email_of(email@) == Ok::<Seq<char>, Seq<char>>(a@),
        r matches Err(e) ==> email_of(email@) == Err::<Seq<char>, Seq<char>>(e@),
{
    if email.len() < 5 {
        return Err(string_of(chars_of("555 Syntax error").as_slice()));
    }
    let s = chars_of(email);
    if s.len() == 0 {
        proof {
            assert(encode_utf8(email@) == Seq::<u8>::empty());
        }
        return Err(string_of(chars_of("555 Syntax error").as_slice()));
    }
    if s[0] != ':' {
        let mut m = chars_of("555 Syntax error, expected (:) found: (");
        m.push(s[0]);
        push_str(&mut m, ")");
        proof {
            assert(m@ =~= colon_error(email@[0]));
        }
        return Err(string_of(m.as_slice()));
    }
    let (a, b) = trim_bounds(&s, 1);
    if b - a >= 2 && s[a] == '<' && s[b - 1] == '>' {
        let r = substring(&s, a + 1, b - 1);
        proof {
            let t = s@.subrange(a as int, b as int);
            assert(s@.subrange(1, s@.len() as int) =~= email@.skip(1));
            assert(r@ =~= t.subrange(1, t.len() - 1));
        }
        Ok(r)
    } else {
        proof {
            assert(s@.subrange(1, s@.len() as int) =~= email@.skip(1));
        }
        Err(string_of(chars_of("555 Syntax error expect email to be enclosed within (< >)").as_slice()))
    }
}

} // verus!

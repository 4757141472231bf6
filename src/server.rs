//! The receiving side: the per-connection command sequencing and the
//! collection of a message body.

use vstd::prelude::*;
use crate::error::Error;
use crate::parse::{command_of, email_of, get_command, keyword, parse_email, Command};
use crate::text::{chars_of, concat3, owned, push_str, string_of, trim, trim_bounds, views};

verus! {

/// The number of command lines one session handles before it times out.
pub const MAX_COMMANDS: usize = 1000;

/// How far one mail transaction has come.
#[derive(Debug)]
pub enum Stage {
    Connect,
    Helo,
    MailFrom(String),
    RcptTo(String, Vec<String>),
}

/// A stage, over character sequences.
pub ghost enum StageModel {
    Connect,
    Helo,
    MailFrom(Seq<char>),
    RcptTo(Seq<char>, Seq<Seq<char>>),
}

impl View for Stage {
    type V = StageModel;

    open spec fn view(&self) -> StageModel {
        match self {
            Stage::Connect => StageModel::Connect,
            Stage::Helo => StageModel::Helo,
            Stage::MailFrom(f) => StageModel::MailFrom(f@),
            Stage::RcptTo(f, r) => StageModel::RcptTo(f@, views(r@)),
        }
    }
}

/// What the connection has to do after a command line.
#[derive(Debug)]
pub enum Action {
    /// Write these lines, then read the next command.
    Reply(Vec<String>),
    /// Upgrade the transport, then run a new session over it.
    StartTls,
    /// Write the closing reply and close the connection.
    Quit,
    /// Write `reply`, then collect the body of the message from `sender`
    /// to `recipients`.
    Data { reply: String, sender: String, recipients: Vec<String> },
    /// The session handled its number of command lines without a transaction.
    Timeout,
}

/// An action, over character sequences.
pub ghost enum ActionModel {
    Reply(Seq<Seq<char>>),
    StartTls,
    Quit,
    Data(Seq<char>, Seq<Seq<char>>),
    Timeout,
}

impl View for Action {
    type V = ActionModel;

    open spec fn view(&self) -> ActionModel {
        match self {
            Action::Reply(lines) => ActionModel::Reply(views(lines@)),
            Action::StartTls => ActionModel::StartTls,
            Action::Quit => ActionModel::Quit,
            Action::Data { reply, sender, recipients } => ActionModel::Data(
                sender@,
                views(recipients@),
            ),
            Action::Timeout => ActionModel::Timeout,
        }
    }
}

pub open spec fn ok_reply() -> Seq<char> {
    "250 Ok"@
}

pub open spec fn unknown_reply() -> Seq<char> {
    "502 Unknown command"@
}

pub open spec fn bad_sequence_reply() -> Seq<char> {
    "503 Bad sequence of commands"@
}

pub open spec fn empty_helo_reply() -> Seq<char> {
    "501 Empty HELO/EHLO is not allowed"@
}

pub open spec fn data_reply() -> Seq<char> {
    "354 Ready, please finish with <CR><LF>.<CR><LF>"@
}

/// The reply lines to HELO (`extended` false) or EHLO (`extended` true).
pub open spec fn helo_reply(host: Seq<char>, extended: bool) -> Seq<Seq<char>> {
    if extended {
        seq!["250-"@ + host + " ready for mail"@, "250 STARTTLS"@]
    } else {
        seq!["250 "@ + host + " ready for mail"@]
    }
}

/// The stage after a greeting: a new session moves to `Helo`, others stay.
pub open spec fn after_helo(stage: StageModel) -> StageModel {
    match stage {
        StageModel::Connect => StageModel::Helo,
        _ => stage,
    }
}

/// The stage after MAIL FROM with argument `rest`, and the reply.
pub open spec fn after_mail_from(stage: StageModel, rest: Seq<char>) -> (StageModel, ActionModel) {
    match stage {
        StageModel::Helo => match email_of(rest) {
            Ok(a) => (StageModel::MailFrom(a), ActionModel::Reply(seq![ok_reply()])),
            Err(e) => (stage, ActionModel::Reply(seq![e])),
        },
        _ => (stage, ActionModel::Reply(seq![bad_sequence_reply()])),
    }
}

/// The stage after RCPT TO with argument `rest`, and the reply.
pub open spec fn after_rcpt_to(stage: StageModel, rest: Seq<char>) -> (StageModel, ActionModel) {
    let (sender, rcpts) = match stage {
        StageModel::MailFrom(f) => (f, Seq::<Seq<char>>::empty()),
        StageModel::RcptTo(f, r) => (f, r),
        _ => (Seq::<char>::empty(), Seq::<Seq<char>>::empty()),
    };
    if stage is MailFrom || stage is RcptTo {
        match email_of(rest) {
            Ok(a) => (StageModel::RcptTo(sender, rcpts.push(a)), ActionModel::Reply(seq![ok_reply()])),
            Err(e) => (StageModel::RcptTo(sender, rcpts), ActionModel::Reply(seq![e])),
        }
    } else {
        (stage, ActionModel::Reply(seq![bad_sequence_reply()]))
    }
}

/// The stage after one command line, and what the connection does next.
pub open spec fn step(stage: StageModel, host: Seq<char>, line: Seq<char>) -> (StageModel, ActionModel) {
    match command_of(line) {
        None => (stage, ActionModel::Reply(seq![unknown_reply()])),
        Some(c) => {
            let rest = line.skip(keyword(c).len() as int);
            match c {
                Command::Quit => (stage, ActionModel::Quit),
                Command::StartTls => (stage, ActionModel::StartTls),
                Command::Helo | Command::Ehlo => if trim(rest).len() == 0 {
                    (stage, ActionModel::Reply(seq![empty_helo_reply()]))
                } else {
                    (after_helo(stage), ActionModel::Reply(helo_reply(host, c == Command::Ehlo)))
                },
                Command::MailFrom => after_mail_from(stage, rest),
                Command::RcptTo => after_rcpt_to(stage, rest),
                Command::Data => match stage {
                    StageModel::RcptTo(f, r) => if r.len() > 0 {
                        (stage, ActionModel::Data(f, r))
                    } else {
                        (stage, ActionModel::Reply(seq![bad_sequence_reply()]))
                    },
                    _ => (stage, ActionModel::Reply(seq![bad_sequence_reply()])),
                },
            }
        },
    }
}

/// A greeting (HELO or EHLO) that the peer sent, if a greeting was accepted:
/// whether it was EHLO, and its argument. An argument that is blank after
/// trimming is refused.
pub open spec fn helo_record(line: Seq<char>) -> Option<(bool, Seq<char>)> {
    match command_of(line) {
        Some(c) => {
            let rest = line.skip(keyword(c).len() as int);
            if (c == Command::Helo || c == Command::Ehlo) && trim(rest).len() > 0 {
                Some((c == Command::Ehlo, rest))
            } else {
                None
            }
        },
        None => None,
    }
}

/// One session over one transport: the stage of its transaction, the
/// greetings it received, and the number of command lines it handled.
pub struct Session {
    stage: Stage,
    helo: Vec<(bool, String)>,
    turns: usize,
    host: String,
}

impl Session {
    /// The stage of the transaction.
    pub closed spec fn current(&self) -> StageModel {
        self.stage@
    }

    pub closed spec fn turns(&self) -> nat {
        self.turns as nat
    }

    pub closed spec fn host(&self) -> Seq<char> {
        self.host@
    }

    pub closed spec fn greetings(&self) -> Seq<(bool, Seq<char>)> {
        self.helo@.map_values(|h: (bool, String)| (h.0, h.1@))
    }

    /// A new session, at `Connect`, for a server named `host`.
    pub fn new(host: &str) -> (r: Session)
        ensures
            r.current() == StageModel::Connect,
            r.greetings().len() == 0,
            r.turns() == 0,
            r.host() == host@,
    {
        Session { stage: Stage::Connect, helo: Vec::new(), turns: 0, host: owned(host) }
    }

    /// The stage of the transaction.
    pub fn stage(&self) -> (r: &Stage)
        ensures
            r@ == self.current(),
    {
        &self.stage
    }

    /// Whether the session has handled its number of command lines.
    pub fn timed_out(&self) -> (r: bool)
        ensures
            r == (self.turns() >= MAX_COMMANDS),
    {
        self.turns >= MAX_COMMANDS
    }

    /// Handles one command line: moves the stage on and says what the
    /// connection does next.
    pub fn handle(&mut self, line: String) -> (r: Action)
        ensures
            old(self).turns() >= MAX_COMMANDS ==> {
                &&& r@ == ActionModel::Timeout
                &&& *final(self) == *old(self)
            },
            old(self).turns() < MAX_COMMANDS ==> {
                &&& (final(self).current(), r@) == step(old(self).current(), old(self).host(), line@)
                &&& final(self).turns() == old(self).turns() + 1
                &&& final(self).host() == old(self).host()
                &&& r matches Action::Data { reply, .. } ==> reply@ == data_reply()
                &&& final(self).greetings() == match helo_record(line@) {
                    Some(h) => old(self).greetings().push(h),
                    None => old(self).greetings(),
                }
            },
    {
        if self.turns >= MAX_COMMANDS {
            return Action::Timeout;
        }
        self.turns = self.turns + 1;
        let ghost l = line@;
        let cl = match get_command(line) {
            Some(cl) => cl,
            None => {
                return reply(owned("502 Unknown command"));
            },
        };
        proof {
            assert(cl.rest_of_line@ == l.skip(keyword(cl.command).len() as int));
        }
        match cl.command {
            Command::Quit => Action::Quit,
            Command::StartTls => Action::StartTls,
            Command::Helo => self.respond_helo(cl.rest_of_line, false),
            Command::Ehlo => self.respond_helo(cl.rest_of_line, true),
            Command::MailFrom => self.mail_from(cl.rest_of_line),
            Command::RcptTo => self.rcpt_to(cl.rest_of_line),
            Command::Data => self.data(),
        }
    }

    fn respond_helo(&mut self, rest: String, extended: bool) -> (r: Action)
        ensures
            trim(rest@).len() == 0 ==> {
                &&& r@ == ActionModel::Reply(seq![empty_helo_reply()])
                &&& final(self).current() == old(self).current()
                &&& final(self).greetings() == old(self).greetings()
            },
            trim(rest@).len() > 0 ==> {
                &&& r@ == ActionModel::Reply(helo_reply(old(self).host(), extended))
                &&& final(self).current() == after_helo(old(self).current())
                &&& final(self).greetings() == old(self).greetings().push((extended, rest@))
            },
            final(self).turns() == old(self).turns(),
            final(self).host() == old(self).host(),
    {
        let c = chars_of(rest.as_str());
        let (a, b) = trim_bounds(&c, 0);
        proof {
            assert(c@.subrange(0, c@.len() as int) =~= rest@);
        }
        if a == b {
            return reply(owned("501 Empty HELO/EHLO is not allowed"));
        }
        let ghost g0 = self.greetings();
        self.helo.push((extended, rest));
        proof {
            assert(self.greetings() =~= g0.push((extended, rest@)));
        }
        let lines = if extended {
            let v = vec![concat3("250-", self.host.as_str(), " ready for mail"), owned("250 STARTTLS")];
            proof {
                assert(views(v@) =~= helo_reply(self.host@, extended));
            }
            v
        } else {
            let v = vec![concat3("250 ", self.host.as_str(), " ready for mail")];
            proof {
                assert(views(v@) =~= helo_reply(self.host@, extended));
            }
            v
        };
        if let Stage::Connect = self.stage {
            self.stage = Stage::Helo;
        }
        Action::Reply(lines)
    }

    fn mail_from(&mut self, rest: String) -> (r: Action)
        ensures
            (final(self).current(), r@) == after_mail_from(old(self).current(), rest@),
            final(self).greetings() == old(self).greetings(),
            final(self).turns() == old(self).turns(),
            final(self).host() == old(self).host(),
    {
        if let Stage::Helo = self.stage {
            match parse_email(rest.as_str()) {
                Ok(a) => {
                    self.stage = Stage::MailFrom(a);
                    reply(owned("250 Ok"))
                },
                Err(e) => reply(e),
            }
        } else {
            reply(owned("503 Bad sequence of commands"))
        }
    }

    fn rcpt_to(&mut self, rest: String) -> (r: Action)
        ensures
            (final(self).current(), r@) == after_rcpt_to(old(self).current(), rest@),
            final(self).greetings() == old(self).greetings(),
            final(self).turns() == old(self).turns(),
            final(self).host() == old(self).host(),
    {
        let mut stage = Stage::Connect;
        std::mem::swap(&mut stage, &mut self.stage);
        let (sender, mut rcpts) = match stage {
            Stage::MailFrom(f) => (f, Vec::new()),
            Stage::RcptTo(f, r) => (f, r),
            other => {
                self.stage = other;
                return reply(owned("503 Bad sequence of commands"));
            },
        };
        let ghost r0 = views(rcpts@);
        proof {
            assert(r0 =~= match old(self).current() {
                StageModel::RcptTo(_, r) => r,
                _ => Seq::<Seq<char>>::empty(),
            });
        }
        let r = match parse_email(rest.as_str()) {
            Ok(a) => {
                rcpts.push(a);
                proof {
                    assert(views(rcpts@) =~= r0.push(a@));
                }
                reply(owned("250 Ok"))
            },
            Err(e) => reply(e),
        };
        self.stage = Stage::RcptTo(sender, rcpts);
        r
    }

    fn data(&mut self) -> (r: Action)
        ensures
            (final(self).current(), r@) == step(old(self).current(), old(self).host(), keyword(Command::Data)),
            r matches Action::Data { reply, .. } ==> reply@ == data_reply(),
            *final(self) == *old(self),
    {
        proof {
            assert(command_of(keyword(Command::Data)) == Some(Command::Data));
        }
        match &self.stage {
            Stage::RcptTo(f, r) => {
                if r.len() > 0 {
                    return Action::Data {
                        reply: owned("354 Ready, please finish with <CR><LF>.<CR><LF>"),
                        sender: f.clone(),
                        recipients: clone_all(r),
                    };
                }
            },
            _ => {},
        }
        reply(owned("503 Bad sequence of commands"))
    }
}

/// A reply of one line.
fn reply(line: String) -> (r: Action)
    ensures
        r@ == ActionModel::Reply(seq![line@]),
{
    let v = vec![line];
    proof {
        assert(views(v@) =~= seq![line@]);
    }
    Action::Reply(v)
}

/// A copy of each string of `v`.
fn clone_all(v: &Vec<String>) -> (r: Vec<String>)
    ensures
        r@ == v@,
{
    let mut r: Vec<String> = Vec::new();
    let mut i: usize = 0;
    while i < v.len()
        invariant
            i <= v@.len(),
            r@ == v@.subrange(0, i as int),
        decreases v.len() - i,
    {
        r.push(v[i].clone());
        i = i + 1;
        proof {
            assert(r@ =~= v@.subrange(0, i as int));
        }
    }
    proof {
        assert(r@ =~= v@);
    }
    r
}

/// Commands out of sequence are refused and QUIT always ends the session:
/// RCPT TO before MAIL FROM and DATA before RCPT TO get `503` and leave the
/// stage as it was, and QUIT ends the session from any stage, with no reply.
pub proof fn lemma_sequencing(stage: StageModel, host: Seq<char>, line: Seq<char>)
    ensures
        command_of(line) == Some(Command::RcptTo) && (stage is Connect || stage is Helo) ==> step(
            stage,
            host,
            line,
        ) == (stage, ActionModel::Reply(seq![bad_sequence_reply()])),
        command_of(line) == Some(Command::Data) && !(stage is RcptTo) ==> step(stage, host, line)
            == (stage, ActionModel::Reply(seq![bad_sequence_reply()])),
        command_of(line) == Some(Command::Quit) ==> step(stage, host, line) == (
            stage,
            ActionModel::Quit,
        ),
{
}

/// The body of a message, collected line by line up to a line that holds a
/// single dot. Each line is kept with a line feed after it; no dot is
/// unescaped.
pub struct Body {
    text: Vec<char>,
    lines: usize,
}

/// The number of lines that one body may take, its end included.
pub const MAX_BODY_LINES: usize = 100000;

/// The line that ends a body.
pub open spec fn end_of_body() -> Seq<char> {
    seq!['.']
}

/// The body that the lines `ls` complete, after `text` was collected: the
/// lines up to the first end-of-body line, each followed by a line feed;
/// `None` if no line ends the body.
pub open spec fn collect_into(text: Seq<char>, ls: Seq<Seq<char>>) -> Option<Seq<char>>
    decreases ls.len(),
{
    if ls.len() == 0 {
        None
    } else if ls[0] == end_of_body() {
        Some(text)
    } else {
        collect_into(text + ls[0] + seq!['\n'], ls.drop_first())
    }
}

/// The lines `ls`, each followed by a line feed.
pub open spec fn joined(ls: Seq<Seq<char>>) -> Seq<char>
    decreases ls.len(),
{
    if ls.len() == 0 {
        Seq::empty()
    } else {
        ls[0] + seq!['\n'] + joined(ls.drop_first())
    }
}

/// Lines of which none ends the body, followed by the end-of-body line,
/// complete the body that joins them.
pub proof fn lemma_collect_joined(text: Seq<char>, ls: Seq<Seq<char>>)
    requires
        forall|i: int| 0 <= i < ls.len() ==> ls[i] != end_of_body(),
    ensures
        collect_into(text, ls.push(end_of_body())) == Some(text + joined(ls)),
    decreases ls.len(),
{
    let all = ls.push(end_of_body());
    if ls.len() == 0 {
        assert(all[0] == end_of_body());
        assert(text + joined(ls) =~= text);
    } else {
        assert(all[0] == ls[0]);
        assert(all.drop_first() =~= ls.drop_first().push(end_of_body()));
        let t2 = text + ls[0] + seq!['\n'];
        lemma_collect_joined(t2, ls.drop_first());
        assert(t2 + joined(ls.drop_first()) =~= text + joined(ls));
    }
}

impl Body {
    /// The text collected so far.
    pub closed spec fn text(&self) -> Seq<char> {
        self.text@
    }

    /// The lines taken so far.
    pub closed spec fn lines(&self) -> nat {
        self.lines as nat
    }

    pub fn new() -> (r: Body)
        ensures
            r.text() == Seq::<char>::empty(),
            r.lines() == 0,
    {
        Body { text: Vec::new(), lines: 0 }
    }

    /// Takes one line of the body: `Ok(true)` when the line ends the body,
    /// which is not kept, and `Timeout` once the body has taken its number
    /// of lines.
    pub fn take_line(&mut self, line: &str) -> (r: Result<bool, Error>)
        ensures
            old(self).lines() >= MAX_BODY_LINES ==> (r matches Err(Error::Timeout) && *final(self)
                == *old(self)),
            old(self).lines() < MAX_BODY_LINES ==> {
                let done = line@ == end_of_body();
                &&& r == Ok::<bool, Error>(done)
                &&& final(self).lines() == old(self).lines() + 1
                &&& done ==> final(self).text() == old(self).text()
                &&& !done ==> final(self).text() == old(self).text() + line@ + seq!['\n']
                &&& forall|rest: Seq<Seq<char>>|
                    collect_into(old(self).text(), seq![line@] + rest) == if done {
                        Some(old(self).text())
                    } else {
                        collect_into(final(self).text(), rest)
                    }
            },
    {
        if self.lines >= MAX_BODY_LINES {
            return Err(Error::Timeout);
        }
        self.lines = self.lines + 1;
        let c = chars_of(line);
        let done = c.len() == 1 && c[0] == '.';
        proof {
            if line@.len() == 1 && line@[0] == '.' {
                assert(line@ =~= end_of_body());
            }
        }
        if !done {
            push_str(&mut self.text, line);
            self.text.push('\n');
        }
        proof {
            assert forall|rest: Seq<Seq<char>>|
                collect_into(old(self).text(), seq![line@] + rest) == if done {
                    Some(old(self).text())
                } else {
                    collect_into(self.text(), rest)
                } by {
                let all = seq![line@] + rest;
                assert(all[0] == line@);
                assert(all.drop_first() =~= rest);
                if !done {
                    assert(self.text() =~= old(self).text() + line@ + seq!['\n']);
                }
            }
        }
        Ok(done)
    }

    /// The collected text.
    pub fn into_text(self) -> (r: String)
        ensures
            r@ == self.text(),
    {
        string_of(self.text.as_slice())
    }
}

/// The greeting that a server named `host` sends to the peer at `peer`.
pub fn greeting(host: &str, peer: &str) -> (r: String)
    ensures
        r@ == "220 "@ + host@ + " ESMTP Hello ["@ + peer@ + "]"@,
{
    let mut v: Vec<char> = Vec::new();
    push_str(&mut v, "220 ");
    push_str(&mut v, host);
    push_str(&mut v, " ESMTP Hello [");
    push_str(&mut v, peer);
    push_str(&mut v, "]");
    string_of(v.as_slice())
}

/// The reply that ends a session after QUIT.
pub fn closing_reply() -> (r: String)
    ensures
        r@ == "221 closing connection"@,
{
    owned("221 closing connection")
}

/// The reply once a body is collected.
pub fn accepted_reply() -> (r: String)
    ensures
        r@ == "250 Sent email :)"@,
{
    owned("250 Sent email :)")
}

/// The reply to STARTTLS before the handshake.
pub fn tls_ready_reply() -> (r: String)
    ensures
        r@ == "220 Goahead"@,
{
    owned("220 Goahead")
}

/// The reply to STARTTLS when the server's credentials cannot be set up.
pub fn tls_failed_reply() -> (r: String)
    ensures
        r@ == "502 Internal Error starting tls"@,
{
    owned("502 Internal Error starting tls")
}

} // verus!

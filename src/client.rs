//! The sending side: the action list of one message, the state machine that
//! runs it over a connection, the EHLO capability record, the retry driver
//! and the order in which servers are tried.

use vstd::prelude::*;
use crate::error::Error;
use crate::parse::{code_of, get_status_line, is_reply_line, status_of, STATUS};
use crate::server::{collect_into, end_of_body, joined, lemma_collect_joined};
use crate::text::{chars_of, concat3, owned, substring, views};

verus! {

/// The body of `s` split at line feeds, as `str::split('\n')` splits it.
pub open spec fn split_parts(s: Seq<char>) -> Seq<Seq<char>>
    decreases s.len(),
{
    if s.len() == 0 {
        seq![Seq::<char>::empty()]
    } else {
        let p = split_parts(s.drop_last());
        if s.last() == '\n' {
            p.push(Seq::empty())
        } else {
            p.update(p.len() - 1, p.last().push(s.last()))
        }
    }
}

pub proof fn lemma_split_parts_nonempty(s: Seq<char>)
    ensures
        split_parts(s).len() >= 1,
    decreases s.len(),
{
    if s.len() > 0 {
        lemma_split_parts_nonempty(s.drop_last());
    }
}

/// A line without the carriage return that ends it.
pub open spec fn strip_cr(l: Seq<char>) -> Seq<char> {
    if l.len() > 0 && l.last() == '\r' {
        l.drop_last()
    } else {
        l
    }
}

/// The lines of `s`, as `str::lines` gives them: split at line feeds, a
/// carriage return before a line feed taken off, and no empty line after a
/// final line feed.
pub open spec fn lines_of(s: Seq<char>) -> Seq<Seq<char>> {
    let p = split_parts(s);
    let n = p.len() as int;
    Seq::new(
        (if p[n - 1].len() == 0 { n - 1 } else { n }) as nat,
        |i: int| if i < n - 1 { strip_cr(p[i]) } else { p[i] },
    )
}

/// The lines of a body.
pub fn body_lines(data: &str) -> (r: Vec<String>)
    ensures
        views(r@) == lines_of(data@),
{
    let s = chars_of(data);
    let mut parts: Vec<Vec<char>> = Vec::new();
    let mut cur: Vec<char> = Vec::new();
    let mut i: usize = 0;
    while i < s.len()
        invariant
            i <= s@.len(),
            s@ == data@,
            parts@.map_values(|v: Vec<char>| v@).push(cur@) == split_parts(s@.subrange(0, i as int)),
            parts@.len() + cur@.len() <= i,
        decreases s.len() - i,
    {
        let ghost before = s@.subrange(0, i as int);
        let ghost after = s@.subrange(0, i + 1);
        proof {
            assert(after.drop_last() =~= before);
            lemma_split_parts_nonempty(before);
        }
        if s[i] == '\n' {
            let mut done: Vec<char> = Vec::new();
            std::mem::swap(&mut done, &mut cur);
            parts.push(done);
            proof {
                assert(parts@.map_values(|v: Vec<char>| v@).push(cur@) =~= split_parts(after));
            }
        } else {
            let ghost p = split_parts(before);
            cur.push(s[i]);
            proof {
                assert(parts@.map_values(|v: Vec<char>| v@).push(cur@) =~= p.update(
                    p.len() - 1,
                    p.last().push(s@[i as int]),
                ));
            }
        }
        i = i + 1;
    }
    proof {
        assert(s@.subrange(0, i as int) =~= data@);
    }
    let ghost p = split_parts(data@);
    let count = if cur.len() == 0 { parts.len() } else { parts.len() + 1 };
    let mut r: Vec<String> = Vec::new();
    let mut j: usize = 0;
    while j < count
        invariant
            j <= count,
            p == parts@.map_values(|v: Vec<char>| v@).push(cur@),
            count == lines_of(data@).len(),
            p == split_parts(data@),
            views(r@) == lines_of(data@).subrange(0, j as int),
        decreases count - j,
    {
        let line = if j < parts.len() {
            let l = &parts[j];
            if l.len() > 0 && l[l.len() - 1] == '\r' {
                substring(l, 0, l.len() - 1)
            } else {
                substring(l, 0, l.len())
            }
        } else {
            substring(&cur, 0, cur.len())
        };
        proof {
            if j < parts@.len() {
                let l = parts@[j as int]@;
                assert(p[j as int] == l);
                assert(l.subrange(0, l.len() as int) =~= l);
                if l.len() > 0 {
                    assert(l.subrange(0, l.len() - 1) =~= l.drop_last());
                }
                assert(line@ == lines_of(data@)[j as int]);
            } else {
                assert(p[j as int] == cur@);
                assert(cur@.subrange(0, cur@.len() as int) =~= cur@);
                assert(line@ == lines_of(data@)[j as int]);
            }
        }
        let ghost r0 = r@;
        let ghost lv = line@;
        r.push(line);
        j = j + 1;
        proof {
            assert(views(r@) =~= views(r0).push(lv));
            assert(views(r@) =~= lines_of(data@).subrange(0, j as int));
        }
    }
    proof {
        assert(lines_of(data@).subrange(0, j as int) =~= lines_of(data@));
    }
    r
}

} // verus!

verus! {

/// One action of the list that sends a message.
#[derive(Debug)]
pub enum Step {
    MailFrom(String),
    RcptTo(String),
    Data(String),
    Quit,
}

pub ghost enum StepModel {
    MailFrom(Seq<char>),
    RcptTo(Seq<char>),
    Data(Seq<char>),
    Quit,
}

impl View for Step {
    type V = StepModel;

    open spec fn view(&self) -> StepModel {
        match self {
            Step::MailFrom(f) => StepModel::MailFrom(f@),
            Step::RcptTo(t) => StepModel::RcptTo(t@),
            Step::Data(d) => StepModel::Data(d@),
            Step::Quit => StepModel::Quit,
        }
    }
}

pub open spec fn step_views(v: Seq<Step>) -> Seq<StepModel> {
    v.map_values(|s: Step| s@)
}

/// The action list of a message, last action first: it is taken from the
/// end, so MAIL FROM runs first, then RCPT TO for each recipient in order
/// from the last pushed, then DATA, then QUIT.
pub open spec fn steps_of(from: Seq<char>, to: Seq<Seq<char>>, data: Seq<char>) -> Seq<StepModel> {
    seq![StepModel::Quit, StepModel::Data(data)] + to.map_values(|t: Seq<char>| StepModel::RcptTo(t))
        + seq![StepModel::MailFrom(from)]
}

/// Builds the action list of a message.
pub fn build_steps(from: &str, to: &Vec<String>, data: &str) -> (r: Vec<Step>)
    ensures
        step_views(r@) == steps_of(from@, views(to@), data@),
{
    let mut r: Vec<Step> = Vec::new();
    r.push(Step::Quit);
    r.push(Step::Data(owned(data)));
    let ghost head = seq![StepModel::Quit, StepModel::Data(data@)];
    proof {
        assert(step_views(r@) =~= head);
    }
    let mut i: usize = 0;
    while i < to.len()
        invariant
            i <= to@.len(),
            step_views(r@) == head + views(to@).subrange(0, i as int).map_values(
                |t: Seq<char>| StepModel::RcptTo(t),
            ),
        decreases to.len() - i,
    {
        let ghost r0 = r@;
        r.push(Step::RcptTo(to[i].clone()));
        i = i + 1;
        proof {
            assert(step_views(r@) =~= step_views(r0).push(StepModel::RcptTo(to@[i - 1]@)));
            assert(step_views(r@) =~= head + views(to@).subrange(0, i as int).map_values(
                |t: Seq<char>| StepModel::RcptTo(t),
            ));
        }
    }
    let ghost r1 = r@;
    r.push(Step::MailFrom(owned(from)));
    proof {
        assert(views(to@).subrange(0, i as int) =~= views(to@));
        assert(step_views(r@) =~= step_views(r1).push(StepModel::MailFrom(from@)));
        assert(step_views(r@) =~= steps_of(from@, views(to@), data@));
    }
    r
}

/// A copy of an action list.
pub fn copy_steps(v: &Vec<Step>) -> (r: Vec<Step>)
    ensures
        step_views(r@) == step_views(v@),
{
    let mut r: Vec<Step> = Vec::new();
    let mut i: usize = 0;
    while i < v.len()
        invariant
            i <= v@.len(),
            step_views(r@) == step_views(v@).subrange(0, i as int),
        decreases v.len() - i,
    {
        let s = match &v[i] {
            Step::MailFrom(f) => Step::MailFrom(f.clone()),
            Step::RcptTo(t) => Step::RcptTo(t.clone()),
            Step::Data(d) => Step::Data(d.clone()),
            Step::Quit => Step::Quit,
        };
        let ghost r0 = r@;
        r.push(s);
        i = i + 1;
        proof {
            assert(step_views(r@) =~= step_views(r0).push(v@[i - 1]@));
            assert(step_views(r@) =~= step_views(v@).subrange(0, i as int));
        }
    }
    proof {
        assert(step_views(v@).subrange(0, i as int) =~= step_views(v@));
    }
    r
}

/// The lines that start an action.
pub open spec fn command_lines(s: StepModel) -> Seq<Seq<char>> {
    match s {
        StepModel::MailFrom(f) => seq!["MAIL FROM:<"@ + f + ">"@],
        StepModel::RcptTo(t) => seq!["RCPT TO:<"@ + t + ">"@],
        StepModel::Data(_) => seq!["DATA"@],
        StepModel::Quit => seq!["QUIT"@],
    }
}

/// The lines that send a body: its lines, then the end-of-body line.
pub open spec fn data_lines(d: Seq<char>) -> Seq<Seq<char>> {
    lines_of(d).push(end_of_body())
}

/// `line` is a reply line of the class 2xx.
pub open spec fn is_success(line: Seq<char>) -> bool {
    is_reply_line(line) && status_of(code_of(line)) is S200
}

/// The reply `line` lets the action `s` go on; `body_sent` tells, for DATA,
/// whether the body went out already.
pub open spec fn accepts(s: StepModel, body_sent: bool, line: Seq<char>) -> bool {
    match s {
        StepModel::Data(_) => if body_sent {
            is_success(line)
        } else {
            is_reply_line(line) && code_of(line) == 354
        },
        StepModel::Quit => true,
        _ => is_success(line),
    }
}

/// What the connection has to do next for a transaction.
#[derive(Debug)]
pub enum Progress {
    /// Write these lines, then read one reply line.
    Send(Vec<String>),
    /// The message went through.
    Done,
    /// The attempt failed.
    Failed(Error),
}

pub ghost enum ProgressModel {
    Send(Seq<Seq<char>>),
    Done,
    Failed,
}

impl View for Progress {
    type V = ProgressModel;

    open spec fn view(&self) -> ProgressModel {
        match self {
            Progress::Send(lines) => ProgressModel::Send(views(lines@)),
            Progress::Done => ProgressModel::Done,
            Progress::Failed(_) => ProgressModel::Failed,
        }
    }
}

/// One run of an action list over one connection.
pub struct Transaction {
    pending: Vec<Step>,
    current: Option<Step>,
    body_sent: bool,
}

impl Transaction {
    /// The actions not yet started, the next one last.
    pub closed spec fn pending(&self) -> Seq<StepModel> {
        step_views(self.pending@)
    }

    /// The action waiting for its reply.
    pub closed spec fn current(&self) -> Option<StepModel> {
        match self.current {
            Some(s) => Some(s@),
            None => None,
        }
    }

    /// Whether the body of the current DATA went out.
    pub closed spec fn body_sent(&self) -> bool {
        self.body_sent
    }

    pub fn new(steps: Vec<Step>) -> (r: Transaction)
        ensures
            r.pending() == step_views(steps@),
            r.current() is None,
            !r.body_sent(),
    {
        Transaction { pending: steps, current: None, body_sent: false }
    }

    /// Starts the next action: the lines to write for it, or a failure when
    /// no action is left.
    pub fn start(&mut self) -> (r: Progress)
        ensures
            old(self).pending().len() == 0 ==> r@ == ProgressModel::Failed && final(self).current() is None,
            old(self).pending().len() > 0 ==> {
                &&& r@ == ProgressModel::Send(command_lines(old(self).pending().last()))
                &&& final(self).current() == Some(old(self).pending().last())
                &&& final(self).pending() == old(self).pending().drop_last()
                &&& !final(self).body_sent()
            },
    {
        let ghost p0 = self.pending@;
        match self.pending.pop() {
            None => {
                self.current = None;
                Progress::Failed(Error::String(owned("No stage in stages")))
            },
            Some(s) => {
                proof {
                    assert(step_views(self.pending@) =~= step_views(p0).drop_last());
                }
                let line = match &s {
                    Step::MailFrom(f) => concat3("MAIL FROM:<", f.as_str(), ">"),
                    Step::RcptTo(t) => concat3("RCPT TO:<", t.as_str(), ">"),
                    Step::Data(_) => owned("DATA"),
                    Step::Quit => owned("QUIT"),
                };
                self.current = Some(s);
                self.body_sent = false;
                let v = vec![line];
                proof {
                    assert(views(v@) =~= command_lines(s@));
                }
                Progress::Send(v)
            },
        }
    }

    /// Takes the reply to what was sent last, and says what to do next.
    pub fn on_reply(&mut self, line: String) -> (r: Progress)
        ensures
            old(self).current() is Some && accepts(
                old(self).current()->0,
                old(self).body_sent(),
                line@,
            ) ==> (match old(self).current()->0 {
                StepModel::Quit => r@ == ProgressModel::Done && final(self).current() is None,
                StepModel::Data(d) if !old(self).body_sent() => {
                    &&& r@ == ProgressModel::Send(data_lines(d))
                    &&& final(self).current() == old(self).current()
                    &&& final(self).body_sent()
                    &&& final(self).pending() == old(self).pending()
                },
                _ => if old(self).pending().len() == 0 {
                    r@ == ProgressModel::Failed && final(self).current() is None
                } else {
                    &&& r@ == ProgressModel::Send(command_lines(old(self).pending().last()))
                    &&& final(self).current() == Some(old(self).pending().last())
                    &&& final(self).pending() == old(self).pending().drop_last()
                    &&& !final(self).body_sent()
                },
            }),
            !(old(self).current() is Some && accepts(
                old(self).current()->0,
                old(self).body_sent(),
                line@,
            )) ==> {
                &&& r@ == ProgressModel::Failed
                &&& final(self).current() is None
            },
    {
        let l = get_status_line(line);
        let mut cur: Option<Step> = None;
        std::mem::swap(&mut cur, &mut self.current);
        let s = match cur {
            None => {
                return Progress::Failed(Error::String(owned("No command is waiting for a reply")));
            },
            Some(s) => s,
        };
        let (ok, what) = match (&s, &l) {
            (Step::Quit, _) => (true, "quit"),
            (_, None) => (false, "reply"),
            (Step::Data(_), Some(l)) => if self.body_sent {
                (matches!(l.status, STATUS::S200(_)), "data")
            } else {
                (l.status == STATUS::S300(354), "data")
            },
            (Step::MailFrom(_), Some(l)) => (matches!(l.status, STATUS::S200(_)), "mail from"),
            (Step::RcptTo(_), Some(l)) => (matches!(l.status, STATUS::S200(_)), "rcpt to"),
        };
        if !ok {
            return Progress::Failed(Error::String(concat3("Invalid response to ", what, "")));
        }
        match s {
            Step::Quit => Progress::Done,
            Step::Data(d) => {
                if self.body_sent {
                    self.start()
                } else {
                    let mut v = body_lines(d.as_str());
                    let ghost v0 = v@;
                    let dot = owned(".");
                    proof {
                        reveal_strlit(".");
                        assert(dot@ =~= end_of_body());
                    }
                    v.push(dot);
                    proof {
                        assert(views(v@) =~= views(v0).push(end_of_body()));
                        assert(views(v@) =~= data_lines(d@));
                    }
                    self.current = Some(Step::Data(d));
                    self.body_sent = true;
                    Progress::Send(v)
                }
            },
            _ => self.start(),
        }
    }
}

} // verus!

verus! {

/// A body sent through DATA comes out of the server's collection as the
/// same lines, each followed by a line feed, without the end-of-body line;
/// this holds of every body none of whose lines is a single dot.
pub proof fn lemma_body_round_trip(d: Seq<char>)
    requires
        forall|i: int| 0 <= i < lines_of(d).len() ==> lines_of(d)[i] != end_of_body(),
    ensures
        collect_into(Seq::empty(), data_lines(d)) == Some(joined(lines_of(d))),
{
    lemma_collect_joined(Seq::empty(), lines_of(d));
    assert(Seq::<char>::empty() + joined(lines_of(d)) =~= joined(lines_of(d)));
}

/// The number of lines that an EHLO reply may have.
pub const MAX_EHLO_LINES: usize = 100;

/// The first word of `s`: up to its first space.
pub open spec fn first_word(s: Seq<char>) -> Seq<char>
    decreases s.len(),
{
    if s.len() == 0 || s[0] == ' ' {
        Seq::empty()
    } else {
        seq![s[0]] + first_word(s.drop_first())
    }
}

/// `s` names the STARTTLS extension, in any case.
pub open spec fn is_starttls(s: Seq<char>) -> bool {
    s.len() == 8 && crate::parse::starts_with_keyword(s, crate::parse::keyword(crate::parse::Command::StartTls))
}

/// The capabilities that a server states in its EHLO reply: the name it
/// gives in the first line, whether a later line offers STARTTLS, and the
/// text of each line.
pub struct Helo {
    name: String,
    tls: bool,
    options: Vec<String>,
}

impl Helo {
    pub closed spec fn name(&self) -> Seq<char> {
        self.name@
    }

    pub closed spec fn tls(&self) -> bool {
        self.tls
    }

    pub closed spec fn options(&self) -> Seq<Seq<char>> {
        views(self.options@)
    }

    pub fn new() -> (r: Helo)
        ensures
            r.name() == Seq::<char>::empty(),
            !r.tls(),
            r.options() == Seq::<Seq<char>>::empty(),
    {
        let r = Helo { name: owned(""), tls: false, options: Vec::new() };
        proof {
            reveal_strlit("");
            assert(r.options() =~= Seq::<Seq<char>>::empty());
        }
        r
    }

    /// Whether the server offers STARTTLS.
    pub fn offers_tls(&self) -> (r: bool)
        ensures
            r == self.tls(),
    {
        self.tls
    }

    /// The name the server gave.
    pub fn server_name(&self) -> (r: &String)
        ensures
            r@ == self.name(),
    {
        &self.name
    }

    /// Takes one line of the EHLO reply: `Ok(true)` after its last line,
    /// `Ok(false)` while more follow.
    pub fn accept(&mut self, line: String) -> (r: Result<bool, Error>)
        ensures
            old(self).options().len() >= MAX_EHLO_LINES ==> r is Err && *final(self) == *old(self),
            old(self).options().len() < MAX_EHLO_LINES && !(is_reply_line(line@) && code_of(line@)
                == 250) ==> r is Err && *final(self) == *old(self),
            old(self).options().len() < MAX_EHLO_LINES && is_reply_line(line@) && code_of(line@)
                == 250 ==> {
                let content = line@.skip(4);
                &&& r == Ok::<bool, Error>(line@[3] == ' ')
                &&& final(self).options() == old(self).options().push(content)
                &&& final(self).name() == if old(self).options().len() == 0 {
                    first_word(content)
                } else {
                    old(self).name()
                }
                &&& final(self).tls() == (old(self).tls() || (old(self).options().len() > 0
                    && is_starttls(content)))
            },
    {
        if self.options.len() >= MAX_EHLO_LINES {
            return Err(Error::String(owned("Too many lines returned for options")));
        }
        let l = match get_status_line(line) {
            Some(l) => l,
            None => {
                return Err(Error::String(owned("error getting status message")));
            },
        };
        if l.status != STATUS::S200(250) {
            return Err(Error::String(owned("Invalid status code encountered")));
        }
        let c = chars_of(l.content.as_str());
        if self.options.len() == 0 {
            self.name = first_word_of(&c);
        } else if c.len() == 8 && crate::parse::has_keyword(&c, crate::parse::Command::StartTls) {
            self.tls = true;
        }
        let ghost o0 = self.options@;
        let ghost cv = l.content@;
        self.options.push(l.content);
        proof {
            assert(views(self.options@) =~= views(o0).push(cv));
        }
        Ok(!l.more)
    }
}

fn first_word_of(s: &Vec<char>) -> (r: String)
    ensures
        r@ == first_word(s@),
{
    let mut i: usize = 0;
    proof {
        assert(s@.skip(0) =~= s@);
        assert(s@.take(0) + first_word(s@) =~= first_word(s@));
    }
    while i < s.len() && s[i] != ' '
        invariant
            i <= s@.len(),
            first_word(s@) == s@.take(i as int) + first_word(s@.skip(i as int)),
        decreases s.len() - i,
    {
        proof {
            let t = s@.skip(i as int);
            assert(t.drop_first() =~= s@.skip(i + 1));
            assert(s@.take(i as int) + seq![s@[i as int]] =~= s@.take(i + 1));
            assert(s@.take(i as int) + first_word(t) =~= s@.take(i + 1) + first_word(s@.skip(i + 1)));
        }
        i = i + 1;
    }
    proof {
        assert(first_word(s@.skip(i as int)) == Seq::<char>::empty());
        assert(s@.take(i as int) + Seq::<char>::empty() =~= s@.take(i as int));
        assert(s@.take(i as int) =~= s@.subrange(0, i as int));
    }
    substring(s, 0, i)
}

/// Checks the server's greeting: it has to be a `220` reply.
pub fn check_greeting(line: String) -> (r: Result<(), Error>)
    ensures
        r is Ok <==> is_reply_line(line@) && code_of(line@) == 220,
{
    match get_status_line(line) {
        Some(l) => if l.status == STATUS::S200(220) {
            Ok(())
        } else {
            Err(Error::String(owned("Server did not greet with 220")))
        },
        None => Err(Error::String(owned("error getting helo message"))),
    }
}

/// Whether the reply to STARTTLS lets the handshake go ahead: a `220` reply.
pub fn starttls_accepted(line: String) -> (r: bool)
    ensures
        r <==> is_reply_line(line@) && code_of(line@) == 220,
{
    match get_status_line(line) {
        Some(l) => l.status == STATUS::S200(220),
        None => false,
    }
}

/// The EHLO command of a client named `host`.
pub fn ehlo_command(host: &str) -> (r: String)
    ensures
        r@ == "EHLO "@ + host@,
{
    let r = concat3("EHLO ", host, "");
    proof {
        reveal_strlit("");
        assert(r@ =~= "EHLO "@ + host@);
    }
    r
}

/// What stands after the last `@` of `s`; all of `s` if it holds none.
pub open spec fn after_last_at(s: Seq<char>) -> Seq<char>
    decreases s.len(),
{
    if s.len() == 0 || s.last() == '@' {
        Seq::empty()
    } else {
        after_last_at(s.drop_last()).push(s.last())
    }
}

/// The domain of an address: what stands after its last `@`.
pub fn domain_of(address: &str) -> (r: String)
    ensures
        r@ == after_last_at(address@),
{
    let s = chars_of(address);
    let mut k: usize = s.len();
    proof {
        assert(s@.take(k as int) =~= s@);
        assert(after_last_at(s@) + s@.skip(k as int) =~= after_last_at(s@));
    }
    while k > 0 && s[k - 1] != '@'
        invariant
            k <= s@.len(),
            s@ == address@,
            after_last_at(s@) == after_last_at(s@.take(k as int)) + s@.skip(k as int),
        decreases k,
    {
        proof {
            let t = s@.take(k as int);
            assert(t.drop_last() =~= s@.take(k - 1));
            assert(seq![s@[k - 1]] + s@.skip(k as int) =~= s@.skip(k - 1));
            assert(after_last_at(t) == after_last_at(s@.take(k - 1)).push(s@[k - 1]));
            assert(after_last_at(s@.take(k - 1)).push(s@[k - 1]) + s@.skip(k as int) =~= after_last_at(
                s@.take(k - 1),
            ) + s@.skip(k - 1));
        }
        k = k - 1;
    }
    proof {
        assert(after_last_at(s@.take(k as int)) == Seq::<char>::empty());
        assert(Seq::<char>::empty() + s@.skip(k as int) =~= s@.skip(k as int));
        assert(s@.skip(k as int) =~= s@.subrange(k as int, s@.len() as int));
    }
    substring(&s, k, s.len())
}

/// The servers to try for a domain, in order: the mail exchanges that the
/// lookup gave, in the order it gave them, then the domain itself.
pub open spec fn candidate_hosts(mx: Option<Seq<Seq<char>>>, domain: Seq<char>) -> Seq<Seq<char>> {
    match mx {
        Some(h) => h.push(domain),
        None => seq![domain],
    }
}

/// A lookup that failed or gave no records leaves the domain itself as the
/// only server to try; otherwise each record is tried in the order given,
/// each after the one before it fails, and the domain last.
pub proof fn lemma_connect_order(mx: Option<Seq<Seq<char>>>, domain: Seq<char>)
    ensures
        (mx is None || mx->0.len() == 0) ==> candidate_hosts(mx, domain) == seq![domain],
        mx matches Some(h) ==> candidate_hosts(mx, domain).len() == h.len() + 1 && (forall|i: int|
            0 <= i < h.len() ==> candidate_hosts(mx, domain)[i] == h[i]) && candidate_hosts(
            mx,
            domain,
        ).last() == domain,
{
    if let Some(h) = mx {
        if h.len() == 0 {
            assert(h.push(domain) =~= seq![domain]);
        }
    }
}

/// The servers to try for a domain, handed out one at a time.
pub struct Connector {
    hosts: Vec<String>,
    next: usize,
}

impl Connector {
    pub closed spec fn hosts(&self) -> Seq<Seq<char>> {
        views(self.hosts@)
    }

    pub closed spec fn tried(&self) -> nat {
        self.next as nat
    }

    /// The servers for `domain`, after a lookup that gave `mx`, or failed.
    pub fn new(mx: Option<Vec<String>>, domain: &str) -> (r: Connector)
        ensures
            r.hosts() == candidate_hosts(
                match mx {
                    Some(v) => Some(views(v@)),
                    None => None,
                },
                domain@,
            ),
            r.tried() == 0,
    {
        let mut hosts = match mx {
            Some(v) => v,
            None => Vec::new(),
        };
        let ghost h0 = hosts@;
        hosts.push(owned(domain));
        proof {
            assert(views(hosts@) =~= views(h0).push(domain@));
        }
        Connector { hosts, next: 0 }
    }

    /// The next server to try, or `None` once all were tried.
    pub fn next_host(&mut self) -> (r: Option<String>)
        ensures
            final(self).hosts() == old(self).hosts(),
            old(self).tried() < old(self).hosts().len() ==> {
                &&& r matches Some(h) && h@ == old(self).hosts()[old(self).tried() as int]
                &&& final(self).tried() == old(self).tried() + 1
            },
            old(self).tried() >= old(self).hosts().len() ==> r is None && final(self).tried()
                == old(self).tried(),
    {
        if self.next < self.hosts.len() {
            let h = self.hosts[self.next].clone();
            self.next = self.next + 1;
            Some(h)
        } else {
            None
        }
    }
}

} // verus!

verus! {

/// The number of attempts that one delivery makes.
pub const MAX_ATTEMPTS: u32 = 5;

/// What becomes of a delivery after an attempt.
#[derive(Debug)]
pub enum Verdict {
    /// The message went through.
    Sent,
    /// Try again over a new connection.
    Retry,
    /// No attempt is left.
    GiveUp(Error),
}

pub ghost enum VerdictModel {
    Sent,
    Retry,
    GiveUp,
}

impl View for Verdict {
    type V = VerdictModel;

    open spec fn view(&self) -> VerdictModel {
        match self {
            Verdict::Sent => VerdictModel::Sent,
            Verdict::Retry => VerdictModel::Retry,
            Verdict::GiveUp(_) => VerdictModel::GiveUp,
        }
    }
}

/// The verdict after attempt number `made` (from zero) ended, well or not.
pub open spec fn verdict(made: nat, ok: bool) -> VerdictModel {
    if ok {
        VerdictModel::Sent
    } else if made + 1 < MAX_ATTEMPTS {
        VerdictModel::Retry
    } else {
        VerdictModel::GiveUp
    }
}

/// The verdict of a delivery whose attempts from number `made` on end as
/// `outcomes` says, up to the first verdict that is not a retry.
pub open spec fn run(made: nat, outcomes: Seq<bool>) -> VerdictModel
    decreases outcomes.len(),
{
    if outcomes.len() == 0 {
        VerdictModel::Retry
    } else if verdict(made, outcomes[0]) is Retry {
        run(made + 1, outcomes.drop_first())
    } else {
        verdict(made, outcomes[0])
    }
}

proof fn lemma_run_rest(made: nat, outcomes: Seq<bool>)
    requires
        made + outcomes.len() == MAX_ATTEMPTS,
        outcomes.len() >= 1,
    ensures
        run(made, outcomes) == if exists|i: int| 0 <= i < outcomes.len() && outcomes[i] {
            VerdictModel::Sent
        } else {
            VerdictModel::GiveUp
        },
    decreases outcomes.len(),
{
    if outcomes[0] {
    } else if outcomes.len() == 1 {
        assert(!(exists|i: int| 0 <= i < outcomes.len() && outcomes[i]));
    } else {
        let rest = outcomes.drop_first();
        lemma_run_rest(made + 1, rest);
        if exists|i: int| 0 <= i < outcomes.len() && outcomes[i] {
            let i = choose|i: int| 0 <= i < outcomes.len() && outcomes[i];
            assert(rest[i - 1]);
        }
        if exists|i: int| 0 <= i < rest.len() && rest[i] {
            let i = choose|i: int| 0 <= i < rest.len() && rest[i];
            assert(outcomes[i + 1]);
        }
    }
}

/// A delivery of five attempts succeeds exactly when one of them goes
/// through, and fails with the aggregated error when all five fail.
pub proof fn lemma_retry(outcomes: Seq<bool>)
    requires
        outcomes.len() == MAX_ATTEMPTS,
    ensures
        run(0, outcomes) is Sent <==> exists|i: int| 0 <= i < outcomes.len() && outcomes[i],
        run(0, outcomes) is GiveUp <==> forall|i: int| 0 <= i < outcomes.len() ==> !outcomes[i],
{
    lemma_run_rest(0, outcomes);
}

/// The driver of one delivery: the action list of the message, and the
/// number of attempts made.
pub struct Delivery {
    steps: Vec<Step>,
    made: u32,
}

impl Delivery {
    pub closed spec fn steps(&self) -> Seq<StepModel> {
        step_views(self.steps@)
    }

    pub closed spec fn made(&self) -> nat {
        self.made as nat
    }

    /// A delivery of `data` from `from` to the recipients `to`.
    pub fn new(from: &str, to: &Vec<String>, data: &str) -> (r: Delivery)
        ensures
            r.steps() == steps_of(from@, views(to@), data@),
            r.made() == 0,
    {
        Delivery { steps: build_steps(from, to, data), made: 0 }
    }

    /// Whether this attempt tries STARTTLS: the first one does.
    pub fn use_starttls(&self) -> (r: bool)
        ensures
            r == (self.made() == 0),
    {
        self.made == 0
    }

    /// The transaction of a new attempt, over a fresh copy of the actions.
    pub fn begin(&self) -> (r: Transaction)
        ensures
            r.pending() == self.steps(),
            r.current() is None,
            !r.body_sent(),
    {
        Transaction::new(copy_steps(&self.steps))
    }

    /// Records how an attempt ended, and says what comes next.
    pub fn finish(&mut self, ok: bool) -> (r: Verdict)
        ensures
            final(self).steps() == old(self).steps(),
            old(self).made() < MAX_ATTEMPTS ==> {
                &&& r@ == verdict(old(self).made(), ok)
                &&& final(self).made() == old(self).made() + 1
            },
            old(self).made() >= MAX_ATTEMPTS ==> r@ == VerdictModel::GiveUp && final(self).made()
                == old(self).made(),
            r matches Verdict::GiveUp(e) ==> (e matches Error::String(m) && m@ == "Failed to send"@),
    {
        if self.made >= MAX_ATTEMPTS {
            return Verdict::GiveUp(Error::String(owned("Failed to send")));
        }
        self.made = self.made + 1;
        if ok {
            Verdict::Sent
        } else if self.made < MAX_ATTEMPTS {
            Verdict::Retry
        } else {
            Verdict::GiveUp(Error::String(owned("Failed to send")))
        }
    }
}

} // verus!

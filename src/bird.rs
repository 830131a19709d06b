//! The routing daemon's control protocol: line framing, and the decisions of
//! one session (greet, restrict, query, drain) as a state machine. The caller
//! owns the socket: it performs each action and hands back what it read.
use vstd::prelude::*;
use crate::text::{has_char, owned, push_str, text_chars, text_from_chars};

verus! {

/// The longest raw line read from the daemon; a longer one ends early.
pub const MAX_LINE_SIZE: usize = 1024;

/// An ASCII digit, `0` (48) to `9` (57).
pub open spec fn is_digit(b: u8) -> bool {
    48u8 <= b && b <= 57u8
}

/// Whether a byte is an ASCII digit.
pub fn is_numeric(b: u8) -> (r: bool)
    ensures
        r == is_digit(b),
{
    b >= 48u8 && b <= 57u8
}

/// A raw line starts with a four-digit status code.
pub open spec fn has_status(line: Seq<u8>) -> bool {
    line.len() > 4 && is_digit(line[0]) && is_digit(line[1]) && is_digit(line[2]) && is_digit(line[3])
}

/// What a raw line adds to the output: without the code and its separator
/// (five bytes) after a status code, else without its first (alignment) byte.
pub open spec fn framed_content(line: Seq<u8>) -> Seq<u8> {
    if has_status(line) {
        if line.len() > 6 {
            line.subrange(5, line.len() as int)
        } else {
            Seq::empty()
        }
    } else if line.len() > 1 {
        line.subrange(1, line.len() as int)
    } else {
        Seq::empty()
    }
}

/// Whether more lines follow a raw line: status codes starting with 0, 8 or 9 end a reply.
pub open spec fn framed_more(line: Seq<u8>) -> bool {
    if has_status(line) {
        line[0] != 48u8 && line[0] != 56u8 && line[0] != 57u8
    } else {
        true
    }
}

/// Whether a raw line being read takes another byte: it ends after a line
/// break or at `MAX_LINE_SIZE` bytes.
pub fn line_wants_more(line: &[u8]) -> (r: bool)
    ensures
        r == (line@.len() < MAX_LINE_SIZE && (line@.len() == 0 || line@.last() != 10u8)),
{
    line.len() < MAX_LINE_SIZE && (line.len() == 0 || line[line.len() - 1] != 10u8)
}

fn append_from(output: &mut Vec<u8>, line: &[u8], from: usize)
    requires
        from <= line@.len(),
    ensures
        final(output)@ == old(output)@ + line@.subrange(from as int, line@.len() as int),
{
    let mut i: usize = from;
    while i < line.len()
        invariant
            from <= i <= line@.len(),
            output@ == old(output)@ + line@.subrange(from as int, i as int),
        decreases line@.len() - i,
    {
        output.push(line[i]);
        i = i + 1;
        assert(output@ =~= old(output)@ + line@.subrange(from as int, i as int));
    }
}

/// Appends the content of a raw line to `output`; returns whether more lines follow.
pub fn bird_read_line(line: &[u8], output: &mut Vec<u8>) -> (more: bool)
    ensures
        final(output)@ == old(output)@ + framed_content(line@),
        more == framed_more(line@),
{
    if line.len() > 4 && is_numeric(line[0]) && is_numeric(line[1]) && is_numeric(line[2])
        && is_numeric(line[3]) {
        if line.len() > 6 {
            append_from(output, line, 5);
        } else {
            assert(output@ =~= old(output)@ + framed_content(line@));
        }
        line[0] != 48u8 && line[0] != 56u8 && line[0] != 57u8
    } else {
        if line.len() > 1 {
            append_from(output, line, 1);
        } else {
            assert(output@ =~= old(output)@ + framed_content(line@));
        }
        true
    }
}

/// The confirmation the daemon gives once a session is restricted: the ASCII
/// bytes of `Access restricted`.
pub open spec fn restricted_marker() -> Seq<u8> {
    seq![65u8, 99u8, 99u8, 101u8, 115u8, 115u8, 32u8, 114u8, 101u8, 115u8, 116u8, 114u8, 105u8, 99u8, 116u8, 101u8, 100u8]
}

pub open spec fn occurs_at(hay: Seq<u8>, needle: Seq<u8>, i: int) -> bool {
    0 <= i && i + needle.len() <= hay.len() && hay.subrange(i, i + needle.len()) == needle
}

pub open spec fn occurs(hay: Seq<u8>, needle: Seq<u8>) -> bool {
    exists|i: int| occurs_at(hay, needle, i)
}

fn bytes_occur(hay: &[u8], needle: &[u8]) -> (r: bool)
    ensures
        r == occurs(hay@, needle@),
{
    if needle.len() > hay.len() {
        assert(forall|i: int| !occurs_at(hay@, needle@, i));
        return false;
    }
    if needle.len() == 0 {
        assert(hay@.subrange(0, 0) =~= needle@);
        assert(occurs_at(hay@, needle@, 0));
        return true;
    }
    let last = hay.len() - needle.len();
    let mut i: usize = 0;
    while i <= last
        invariant
            needle@.len() > 0,
            hay@.len() == hay.len(),
            needle@.len() == needle.len(),
            last == hay@.len() - needle@.len(),
            i <= last + 1,
            forall|k: int| 0 <= k < i ==> !occurs_at(hay@, needle@, k),
        decreases last + 1 - i,
    {
        let mut k: usize = 0;
        let mut same = true;
        while k < needle.len()
            invariant
                i <= last,
                hay@.len() == hay.len(),
                needle@.len() == needle.len(),
                last == hay@.len() - needle@.len(),
                k <= needle@.len(),
                same == forall|m: int| 0 <= m < k ==> hay@[i + m] == needle@[m],
            decreases needle@.len() - k,
        {
            if hay[i + k] != needle[k] {
                same = false;
            }
            k = k + 1;
        }
        if same {
            assert(hay@.subrange(i as int, i + needle@.len()) =~= needle@);
            assert(occurs_at(hay@, needle@, i as int));
            return true;
        }
        proof {
            let m = choose|m: int| 0 <= m < needle@.len() && hay@[i + m] != needle@[m];
            assert(hay@.subrange(i as int, i + needle@.len())[m] != needle@[m]);
        }
        i = i + 1;
    }
    proof {
        assert forall|k: int| !occurs_at(hay@, needle@, k) by {
            if 0 <= k && k + needle@.len() <= hay@.len() {
                assert(k < i);
            }
        }
    }
    false
}

/// Whether a reply confirms that the session is restricted.
pub fn confirms_restriction(reply: &[u8]) -> (r: bool)
    ensures
        r == occurs(reply@, restricted_marker()),
{
    let marker: Vec<u8> = vec![65u8, 99u8, 99u8, 101u8, 115u8, 115u8, 32u8, 114u8, 101u8, 115u8, 116u8, 114u8, 105u8, 99u8, 116u8, 101u8, 100u8];
    assert(marker@ =~= restricted_marker());
    bytes_occur(reply, marker.as_slice())
}


/// Where a session stands.
#[derive(Debug, Clone, Copy, PartialEq, Eq, Structural)]
pub enum Phase {
    /// Waiting for the daemon's greeting.
    Greeting,
    /// `restrict` sent; waiting for its confirmation.
    Restricting,
    /// The caller's command sent; collecting the reply.
    Draining,
    /// The reply is complete.
    Done,
    /// The restriction was not confirmed: nothing more is sent.
    Failed,
}

/// What the caller read from the socket.
#[derive(Debug)]
pub enum ReadOutcome {
    /// One raw line, as `line_wants_more` delimits it.
    Line(Vec<u8>),
    /// The read failed; the text of the error.
    Error(Vec<u8>),
}

/// What the caller does next.
#[derive(Debug)]
pub enum SessionAction {
    /// Write these characters, then read the next line.
    Send(String),
    /// Read the next line.
    Read,
    /// The reply is complete: these bytes are the command's output.
    Finish(Vec<u8>),
    /// The daemon did not confirm the restriction.
    Fail,
}

pub enum EventModel {
    Line(Seq<u8>),
    Error(Seq<u8>),
}

pub enum ActionModel {
    Send(Seq<char>),
    Read,
    Finish(Seq<u8>),
    Fail,
}

pub struct SessionModel {
    pub phase: Phase,
    pub query: Seq<char>,
    pub output: Seq<u8>,
}

impl View for ReadOutcome {
    type V = EventModel;

    open spec fn view(&self) -> EventModel {
        match self {
            ReadOutcome::Line(l) => EventModel::Line(l@),
            ReadOutcome::Error(m) => EventModel::Error(m@),
        }
    }
}

impl View for SessionAction {
    type V = ActionModel;

    open spec fn view(&self) -> ActionModel {
        match self {
            SessionAction::Send(s) => ActionModel::Send(s@),
            SessionAction::Read => ActionModel::Read,
            SessionAction::Finish(o) => ActionModel::Finish(o@),
            SessionAction::Fail => ActionModel::Fail,
        }
    }
}

/// The text that a read contributes: a line's content, or an error's text.
pub open spec fn event_text(e: EventModel) -> Seq<u8> {
    match e {
        EventModel::Line(l) => framed_content(l),
        EventModel::Error(m) => m,
    }
}

/// One step of a session: the greeting is discarded and `restrict` sent; the
/// command is sent only once the reply to `restrict` holds the confirmation;
/// the command's reply is collected until a terminal status or a read error.
pub open spec fn session_next(s: SessionModel, e: EventModel) -> (SessionModel, ActionModel) {
    match s.phase {
        Phase::Greeting => (
            SessionModel { phase: Phase::Restricting, ..s },
            ActionModel::Send("restrict\n"@),
        ),
        Phase::Restricting => if occurs(event_text(e), restricted_marker()) {
            (SessionModel { phase: Phase::Draining, ..s }, ActionModel::Send(s.query + "\n"@))
        } else {
            (SessionModel { phase: Phase::Failed, ..s }, ActionModel::Fail)
        },
        Phase::Draining => {
            let out = s.output + event_text(e);
            match e {
                EventModel::Line(l) => if framed_more(l) {
                    (SessionModel { output: out, ..s }, ActionModel::Read)
                } else {
                    (SessionModel { phase: Phase::Done, output: out, ..s }, ActionModel::Finish(out))
                },
                EventModel::Error(_) => (
                    SessionModel { phase: Phase::Done, output: out, ..s },
                    ActionModel::Finish(out),
                ),
            }
        },
        Phase::Done => (s, ActionModel::Finish(s.output)),
        Phase::Failed => (s, ActionModel::Fail),
    }
}

/// The actions of a session that meets `events` in turn.
pub open spec fn session_run(s: SessionModel, events: Seq<EventModel>) -> Seq<ActionModel>
    decreases events.len(),
{
    if events.len() == 0 {
        Seq::empty()
    } else {
        seq![session_next(s, events[0]).1] + session_run(session_next(s, events[0]).0, events.drop_first())
    }
}

/// One single-use session with the daemon, carrying the caller's command.
#[derive(Debug)]
pub struct BirdSession {
    phase: Phase,
    query: String,
    output: Vec<u8>,
}

impl View for BirdSession {
    type V = SessionModel;

    closed spec fn view(&self) -> SessionModel {
        SessionModel { phase: self.phase, query: self.query@, output: self.output@ }
    }
}

impl BirdSession {
    /// A session that will run `query`; its first action is to read the greeting.
    pub fn new(query: &str) -> (r: Self)
        ensures
            r@ == (SessionModel { phase: Phase::Greeting, query: query@, output: Seq::empty() }),
    {
        BirdSession { phase: Phase::Greeting, query: owned(query), output: Vec::new() }
    }

    pub fn phase(&self) -> (r: Phase)
        ensures
            r == self@.phase,
    {
        self.phase
    }

    /// Takes what was read and says what to do next.
    pub fn step(&mut self, event: ReadOutcome) -> (r: SessionAction)
        ensures
            (final(self)@, r@) == session_next(old(self)@, event@),
    {
        match self.phase {
            Phase::Greeting => {
                self.phase = Phase::Restricting;
                SessionAction::Send(owned("restrict\n"))
            },
            Phase::Restricting => {
                let mut reply: Vec<u8> = Vec::new();
                let confirmed = match &event {
                    ReadOutcome::Line(l) => {
                        bird_read_line(l.as_slice(), &mut reply);
                        confirms_restriction(reply.as_slice())
                    },
                    ReadOutcome::Error(m) => confirms_restriction(m.as_slice()),
                };
                proof {
                    assert(event@ matches EventModel::Line(_) ==> reply@ =~= event_text(event@));
                }
                if confirmed {
                    self.phase = Phase::Draining;
                    let mut cmd: Vec<char> = Vec::new();
                    push_str(&mut cmd, self.query.as_str());
                    cmd.push('\n');
                    proof {
                        reveal_strlit("\n");
                        assert(cmd@ =~= self.query@ + "\n"@);
                    }
                    SessionAction::Send(text_from_chars(cmd.as_slice()))
                } else {
                    self.phase = Phase::Failed;
                    SessionAction::Fail
                }
            },
            Phase::Draining => {
                match event {
                    ReadOutcome::Line(l) => {
                        let more = bird_read_line(l.as_slice(), &mut self.output);
                        if more {
                            SessionAction::Read
                        } else {
                            self.phase = Phase::Done;
                            SessionAction::Finish(self.output.clone())
                        }
                    },
                    ReadOutcome::Error(m) => {
                        let mut i: usize = 0;
                        let ghost o = self.output@;
                        while i < m.len()
                            invariant
                                i <= m@.len(),
                                self.output@ == o + m@.take(i as int),
                                self.phase == Phase::Draining,
                                self.query@ == old(self)@.query,
                            decreases m@.len() - i,
                        {
                            self.output.push(m[i]);
                            i = i + 1;
                            assert(self.output@ =~= o + m@.take(i as int));
                        }
                        assert(m@.take(i as int) =~= m@);
                        self.phase = Phase::Done;
                        SessionAction::Finish(self.output.clone())
                    },
                }
            },
            Phase::Done => SessionAction::Finish(self.output.clone()),
            Phase::Failed => SessionAction::Fail,
        }
    }
}

proof fn lemma_failed_stays_failed(s: SessionModel, events: Seq<EventModel>)
    requires
        s.phase == Phase::Failed,
    ensures
        session_run(s, events).len() == events.len(),
        forall|i: int| 0 <= i < events.len() ==> session_run(s, events)[i] == ActionModel::Fail,
    decreases events.len(),
{
    if events.len() > 0 {
        lemma_failed_stays_failed(s, events.drop_first());
    }
}

/// The restriction gate: when the reply to `restrict` lacks the confirmation,
/// the session fails at once and, whatever the daemon says afterwards, never
/// sends the caller's command nor reports an output.
pub proof fn lemma_unconfirmed_restriction_fails(s: SessionModel, reply: EventModel, rest: Seq<EventModel>)
    requires
        s.phase == Phase::Restricting,
        !occurs(event_text(reply), restricted_marker()),
    ensures
        session_run(s, seq![reply] + rest).len() == rest.len() + 1,
        forall|i: int|
            0 <= i <= rest.len() ==> session_run(s, seq![reply] + rest)[i] == ActionModel::Fail,
{
    let events = seq![reply] + rest;
    assert(events[0] == reply);
    assert(events.drop_first() =~= rest);
    let s1 = session_next(s, reply).0;
    lemma_failed_stays_failed(s1, rest);
    assert forall|i: int| 0 <= i <= rest.len() implies session_run(s, events)[i] == ActionModel::Fail by {
        if i > 0 {
            assert(session_run(s, events)[i] == session_run(s1, rest)[i - 1]);
        }
    }
}


/// Where the daemon's control socket is.
#[derive(Debug)]
pub enum DaemonAddress {
    /// A Unix domain socket at this path.
    Unix(String),
    /// A TCP address, `host:port`.
    Tcp(String),
}

pub open spec fn all_ascii_digits(s: Seq<char>) -> bool {
    forall|i: int| 0 <= i < s.len() ==> '0' <= #[trigger] s[i] && s[i] <= '9'
}

/// The configured socket: a `host:port` or a bare port (on the loopback
/// address) is reached over TCP, anything else is a Unix socket path.
pub open spec fn daemon_address_of(s: Seq<char>) -> (bool, Seq<char>) {
    if has_char(s, ':') {
        (true, s)
    } else if s.len() > 0 && all_ascii_digits(s) {
        (true, "127.0.0.1:"@ + s)
    } else {
        (false, s)
    }
}

impl View for DaemonAddress {
    type V = (bool, Seq<char>);

    open spec fn view(&self) -> (bool, Seq<char>) {
        match self {
            DaemonAddress::Unix(p) => (false, p@),
            DaemonAddress::Tcp(a) => (true, a@),
        }
    }
}

/// How to reach the daemon configured as `socket`.
pub fn daemon_address(socket: &str) -> (r: DaemonAddress)
    ensures
        r@ == daemon_address_of(socket@),
{
    let s = text_chars(socket);
    if crate::text::contains_char(s.as_slice(), ':') {
        return DaemonAddress::Tcp(owned(socket));
    }
    let mut i: usize = 0;
    while i < s.len()
        invariant
            s@ == socket@,
            !has_char(socket@, ':'),
            i <= s@.len(),
            forall|k: int| 0 <= k < i ==> '0' <= #[trigger] s@[k] && s@[k] <= '9',
        decreases s@.len() - i,
    {
        if !('0' <= s[i] && s[i] <= '9') {
            assert(!('0' <= s@[i as int] && s@[i as int] <= '9'));
            assert(!all_ascii_digits(socket@));
            return DaemonAddress::Unix(owned(socket));
        }
        i = i + 1;
    }
    if s.len() == 0 {
        return DaemonAddress::Unix(owned(socket));
    }
    let mut out: Vec<char> = Vec::new();
    push_str(&mut out, "127.0.0.1:");
    crate::text::push_all(&mut out, s.as_slice());
    DaemonAddress::Tcp(text_from_chars(out.as_slice()))
}

} // verus!

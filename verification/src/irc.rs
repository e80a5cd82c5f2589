//! The IRC side: the channel's recent log, reading a server line, deciding
//! what a line calls for, and the lines the companion sends itself.
use vstd::prelude::*;
use std::collections::VecDeque;
use crate::text::{
    char_views, chars_of, concat, has_prefix, is_prefix, join_from, join_with, lemma_split_nonempty,
    owned, same_text, split_chars, split_on, string_of, string_views,
};
use crate::codec::{iso_2022_jp_decode, iso_2022_jp_decoded, iso_2022_jp_encode, iso_2022_jp_encoded};

verus! {

// ---------------------------------------------------------------------
// The channel log
// ---------------------------------------------------------------------
/// The recent state of the channel: its topic, its member list, the last
/// log lines (newest first, at most `cap` of them) and the number of lines
/// logged so far.
pub struct IrcMesg {
    topic: String,
    member: String,
    cap: usize,
    log: VecDeque<String>,
    id: u64,
}

/// What an `IrcMesg` holds, as mathematical values.
pub struct IrcMesgView {
    pub topic: Seq<char>,
    pub member: Seq<char>,
    pub cap: nat,
    pub log: Seq<Seq<char>>,
    pub id: nat,
}

impl View for IrcMesg {
    type V = IrcMesgView;

    closed spec fn view(&self) -> IrcMesgView {
        IrcMesgView {
            topic: self.topic@,
            member: self.member@,
            cap: self.cap as nat,
            log: string_views(self.log@),
            id: self.id as nat,
        }
    }
}

/// The log after `msg` is added to `log`, whose capacity is `cap`: `msg`
/// comes first, followed by the newest `cap - 1` lines that were there.
pub open spec fn logged(log: Seq<Seq<char>>, cap: nat, msg: Seq<char>) -> Seq<Seq<char>> {
    let keep: int = if log.len() < cap - 1 {
        log.len() as int
    } else {
        cap - 1
    };
    seq![msg] + log.take(keep)
}

impl IrcMesg {
    /// The log never holds more lines than its capacity.
    #[verifier::type_invariant]
    closed spec fn bounded(self) -> bool {
        self.log@.len() <= self.cap
    }

    /// An empty log with room for `size` lines.
    pub fn new(size: usize) -> (m: IrcMesg)
        ensures
            m@.topic == Seq::<char>::empty(),
            m@.member == Seq::<char>::empty(),
            m@.cap == size,
            m@.log == Seq::<Seq<char>>::empty(),
            m@.id == 0,
    {
        let m = IrcMesg {
            topic: String::new(),
            member: String::new(),
            cap: size,
            log: VecDeque::with_capacity(size),
            id: 0,
        };
        assert(string_views(m.log@) =~= Seq::<Seq<char>>::empty());
        m
    }

    /// Adds `msg` as the newest line, dropping the oldest line when the log
    /// is full, and counts it.
    pub fn append(&mut self, msg: String) -> (r: &mut Self)
        requires
            old(self)@.cap >= 1,
            old(self)@.id < u64::MAX,
        ensures
            *final(r) == *final(self),
            r@.log == logged(old(self)@.log, old(self)@.cap, msg@),
            r@.id == old(self)@.id + 1,
            r@.cap == old(self)@.cap,
            r@.log.len() <= r@.cap,
            r@.topic == old(self)@.topic,
            r@.member == old(self)@.member,
    {
        proof {
            use_type_invariant(&*self);
        }
        let ghost before = self.log@;
        let mut log: VecDeque<String> = VecDeque::new();
        std::mem::swap(&mut log, &mut self.log);
        log.truncate(self.cap - 1);
        log.push_front(msg);
        self.log = log;
        self.id = self.id + 1;
        proof {
            let keep: int = if before.len() < self.cap - 1 {
                before.len() as int
            } else {
                self.cap - 1
            };
            assert(self.log@ =~= seq![msg] + before.take(keep));
            assert(string_views(self.log@) =~= logged(string_views(before), self.cap as nat, msg@));
        }
        proof {
            use_type_invariant(&*self);
        }
        self
    }

    /// Replaces the channel topic.
    pub fn set_topic(&mut self, topic: String)
        ensures
            final(self)@ == (IrcMesgView { topic: topic@, ..old(self)@ }),
    {
        proof {
            use_type_invariant(&*self);
        }
        self.topic = topic;
    }

    /// Replaces the channel member list.
    pub fn set_member(&mut self, member: String)
        ensures
            final(self)@ == (IrcMesgView { member: member@, ..old(self)@ }),
    {
        proof {
            use_type_invariant(&*self);
        }
        self.member = member;
    }

    /// The channel topic.
    pub fn topic(&self) -> (r: String)
        ensures
            r@ == self@.topic,
    {
        self.topic.clone()
    }

    /// The channel member list.
    pub fn member(&self) -> (r: String)
        ensures
            r@ == self@.member,
    {
        self.member.clone()
    }

    /// The largest number of lines the log keeps.
    pub fn cap(&self) -> (r: usize)
        ensures
            r == self@.cap,
    {
        self.cap
    }

    /// The number of lines logged so far.
    pub fn id(&self) -> (r: u64)
        ensures
            r == self@.id,
    {
        self.id
    }

    /// The lines in the log, newest first.
    pub fn log(&self) -> (r: Vec<String>)
        ensures
            string_views(r@) == self@.log,
    {
        let mut r: Vec<String> = Vec::new();
        let mut i: usize = 0;
        while i < self.log.len()
            invariant
                i <= self.log@.len(),
                string_views(r@) == string_views(self.log@).take(i as int),
            decreases self.log@.len() - i,
        {
            let ghost old_r = r@;
            r.push(self.log[i].clone());
            i += 1;
            assert(string_views(r@) =~= string_views(old_r).push(self.log@[i - 1]@));
            assert(string_views(self.log@).take(i as int) =~= string_views(self.log@).take(
                i - 1,
            ).push(self.log@[i - 1]@));
        }
        assert(string_views(self.log@).take(i as int) =~= string_views(self.log@));
        r
    }
}

/// The line written to the log file and added to the channel log for
/// `line`, received at the clock time `clock`.
pub fn log_entry(clock: &str, line: &str) -> (r: String)
    ensures
        r@ == clock@ + line@ + "\n"@,
{
    concat(concat(owned(clock), line), "\n")
}

// ---------------------------------------------------------------------
// Reading a server line
// ---------------------------------------------------------------------
/// The parts of a line: who sent it (the nick before any `!`), the command,
/// its first parameter, and the rest of the line.
pub struct IrcLine {
    pub from: String,
    pub command: String,
    pub to: String,
    pub opt: String,
}

/// An `IrcLine` as mathematical values.
pub struct IrcLineView {
    pub from: Seq<char>,
    pub command: Seq<char>,
    pub to: Seq<char>,
    pub opt: Seq<char>,
}

impl View for IrcLine {
    type V = IrcLineView;

    open spec fn view(&self) -> IrcLineView {
        IrcLineView { from: self.from@, command: self.command@, to: self.to@, opt: self.opt@ }
    }
}

/// How a line reads.
pub enum LineParseView {
    /// Fewer than two space-separated words: the line is ignored.
    Short,
    /// A `:`-prefixed line of exactly two words: it has no parameter where
    /// one is read.
    Truncated,
    /// A line with its parts.
    Parsed(IrcLineView),
}

/// How `line` reads: its words are the pieces between single spaces; a
/// first word starting with `:` names the sender and is not counted; then
/// come the command, its first parameter, and the remaining words joined
/// with single spaces.
pub open spec fn parse_line_spec(line: Seq<char>) -> LineParseView {
    let sp = split_on(line, ' ');
    if sp.len() < 2 {
        LineParseView::Short
    } else {
        let prefixed = is_prefix(seq![':'], sp[0]);
        let start: int = if prefixed {
            1
        } else {
            0
        };
        if start + 1 >= sp.len() {
            LineParseView::Truncated
        } else {
            LineParseView::Parsed(
                IrcLineView {
                    from: if prefixed {
                        split_on(sp[0].drop_first(), '!')[0]
                    } else {
                        Seq::<char>::empty()
                    },
                    command: sp[start],
                    to: sp[start + 1],
                    opt: join_with(sp.subrange(start + 2, sp.len() as int), seq![' ']),
                },
            )
        }
    }
}

/// Whether the word `w` starts with `:`.
fn opens_with_colon(w: &Vec<char>) -> (r: bool)
    ensures
        r == is_prefix(seq![':'], w@),
{
    let r = w.len() > 0 && w[0] == ':';
    proof {
        if w@.len() > 0 {
            if w@[0] == ':' {
                assert(w@.subrange(0, 1) =~= seq![':']);
            } else {
                assert(w@.subrange(0, 1)[0] != seq![':'][0]);
            }
        }
    }
    r
}

/// Whether `line` is a `:`-prefixed line of exactly two words, which has no
/// parameter where one is read.
pub fn line_is_truncated(line: &str) -> (r: bool)
    ensures
        r == (parse_line_spec(line@) is Truncated),
{
    let cs = chars_of(line);
    let sp = split_chars(&cs, ' ');
    let ghost spv = split_on(line@, ' ');
    assert(sp@.len() == spv.len());
    if sp.len() != 2 {
        return false;
    }
    assert(sp@[0]@ == spv[0]);
    let prefixed = opens_with_colon(&sp[0]);
    prefixed
}

/// Reads a server line into its parts; `None` for a line of fewer than two
/// words.
pub fn parse_line(line: &str) -> (r: Option<IrcLine>)
    requires
        !(parse_line_spec(line@) is Truncated),
    ensures
        r is None <==> parse_line_spec(line@) is Short,
        r matches Some(l) ==> parse_line_spec(line@) == LineParseView::Parsed(l@),
{
    let cs = chars_of(line);
    let sp = split_chars(&cs, ' ');
    let ghost spv = split_on(line@, ' ');
    assert(sp@.len() == spv.len());
    if sp.len() < 2 {
        return None;
    }
    assert(sp@[0]@ == spv[0]);
    let prefixed = opens_with_colon(&sp[0]);
    let start: usize = if prefixed {
        1
    } else {
        0
    };
    if start + 1 >= sp.len() {
        assert(false);
        return None;
    }
    let from = if prefixed {
        let first = &sp[0];
        let mut rest: Vec<char> = Vec::new();
        let mut k: usize = 1;
        while k < first.len()
            invariant
                1 <= k <= first.len(),
                rest@ == first@.subrange(1, k as int),
            decreases first.len() - k,
        {
            rest.push(first[k]);
            k += 1;
            assert(first@.subrange(1, k as int) =~= first@.subrange(1, k - 1).push(first@[k - 1]));
        }
        assert(rest@ =~= spv[0].drop_first());
        let pieces = split_chars(&rest, '!');
        proof {
            lemma_split_nonempty(rest@, '!');
        }
        assert(pieces@[0]@ == split_on(rest@, '!')[0]);
        string_of(&pieces[0])
    } else {
        String::new()
    };
    let command = string_of(&sp[start]);
    let to = string_of(&sp[start + 1]);
    let opt_chars = join_from(&sp, start + 2, " ");
    proof {
        reveal_strlit(" ");
    }
    assert(" "@ =~= seq![' ']);
    assert(char_views(sp@) == spv);
    assert(command@ == spv[start as int]);
    assert(to@ == spv[start + 1]);
    assert(opt_chars@ == join_with(spv.subrange(start + 2, spv.len() as int), seq![' ']));
    let opt = string_of(&opt_chars);
    Some(IrcLine { from, command, to, opt })
}

// ---------------------------------------------------------------------
// What a line calls for
// ---------------------------------------------------------------------
/// One thing to do for a line.
pub enum IrcAction {
    /// Send this line to the server.
    Send(String),
    /// Hand the line to the party roster.
    Mesi,
    /// Write this line to the channel log.
    Log(String),
    /// The channel topic is now this.
    SetTopic(String),
    /// The channel member list is now this.
    SetMember(String),
    /// The server refused the nick: the session cannot go on.
    NickInUse,
    /// Show the raw line on the console.
    Echo,
}

/// An `IrcAction` as mathematical values.
pub enum ActionView {
    Send(Seq<char>),
    Mesi,
    Log(Seq<char>),
    SetTopic(Seq<char>),
    SetMember(Seq<char>),
    NickInUse,
    Echo,
}

impl View for IrcAction {
    type V = ActionView;

    open spec fn view(&self) -> ActionView {
        match self {
            IrcAction::Send(s) => ActionView::Send(s@),
            IrcAction::Mesi => ActionView::Mesi,
            IrcAction::Log(s) => ActionView::Log(s@),
            IrcAction::SetTopic(s) => ActionView::SetTopic(s@),
            IrcAction::SetMember(s) => ActionView::SetMember(s@),
            IrcAction::NickInUse => ActionView::NickInUse,
            IrcAction::Echo => ActionView::Echo,
        }
    }
}

/// The views of a list of actions.
pub open spec fn action_views(v: Seq<IrcAction>) -> Seq<ActionView> {
    v.map_values(|a: IrcAction| a@)
}

/// Whether a chat line's text calls the party roster.
pub open spec fn calls_roster(opt: Seq<char>) -> bool {
    is_prefix(":mesi"@, opt) || is_prefix(":meshi"@, opt)
}

/// What the parts `l` of the line `raw` call for, in order, for a companion
/// named `nick` in `channel`.
pub open spec fn reaction(
    l: IrcLineView,
    raw: Seq<char>,
    nick: Seq<char>,
    channel: Seq<char>,
    mesi_enabled: bool,
) -> Seq<ActionView> {
    let c = l.command;
    if c == "PING"@ {
        seq![ActionView::Send("PONG "@ + l.to + "\r\n"@)]
    } else if c == "PONG"@ {
        Seq::<ActionView>::empty()
    } else if c == "PRIVMSG"@ {
        let log = ActionView::Log("<"@ + l.from + ">"@ + l.opt);
        if mesi_enabled && calls_roster(l.opt) {
            seq![ActionView::Mesi, log]
        } else {
            seq![log]
        }
    } else if c == "NOTICE"@ {
        seq![ActionView::Log("="@ + l.from + "="@ + l.opt)]
    } else if c == "332"@ || c == "TOPIC"@ {
        seq![ActionView::Log("<"@ + l.from + ">/topic "@ + l.opt), ActionView::SetTopic(l.opt)]
    } else if c == "353"@ {
        seq![ActionView::SetMember(l.opt)]
    } else if c == "433"@ {
        seq![ActionView::NickInUse]
    } else if c == "JOIN"@ || c == "QUIT"@ || c == "PART"@ {
        if l.from != nick {
            seq![ActionView::Send("NAMES "@ + channel), ActionView::Log(raw)]
        } else {
            seq![ActionView::Log(raw)]
        }
    } else if c == "ERROR"@ {
        seq![ActionView::Log(raw)]
    } else {
        seq![ActionView::Echo]
    }
}

/// What the parts `l` of the line `raw` call for, in the order to do it.
pub fn react(l: &IrcLine, raw: &str, nick: &str, channel: &str, mesi_enabled: bool) -> (r: Vec<
    IrcAction,
>)
    ensures
        action_views(r@) == reaction(l@, raw@, nick@, channel@, mesi_enabled),
{
    let c = l.command.as_str();
    let mut r: Vec<IrcAction> = Vec::new();
    if same_text(c, "PING") {
        r.push(IrcAction::Send(concat(concat(owned("PONG "), l.to.as_str()), "\r\n")));
    } else if same_text(c, "PONG") {
    } else if same_text(c, "PRIVMSG") {
        if mesi_enabled && (has_prefix(l.opt.as_str(), ":mesi") || has_prefix(
            l.opt.as_str(),
            ":meshi",
        )) {
            r.push(IrcAction::Mesi);
        }
        r.push(
            IrcAction::Log(concat(concat(concat(owned("<"), l.from.as_str()), ">"), l.opt.as_str())),
        );
    } else if same_text(c, "NOTICE") {
        r.push(
            IrcAction::Log(concat(concat(concat(owned("="), l.from.as_str()), "="), l.opt.as_str())),
        );
    } else if same_text(c, "332") || same_text(c, "TOPIC") {
        r.push(
            IrcAction::Log(
                concat(concat(concat(owned("<"), l.from.as_str()), ">/topic "), l.opt.as_str()),
            ),
        );
        r.push(IrcAction::SetTopic(l.opt.clone()));
    } else if same_text(c, "353") {
        r.push(IrcAction::SetMember(l.opt.clone()));
    } else if same_text(c, "433") {
        r.push(IrcAction::NickInUse);
    } else if same_text(c, "JOIN") || same_text(c, "QUIT") || same_text(c, "PART") {
        if !same_text(l.from.as_str(), nick) {
            r.push(IrcAction::Send(concat(owned("NAMES "), channel)));
        }
        r.push(IrcAction::Log(owned(raw)));
    } else if same_text(c, "ERROR") {
        r.push(IrcAction::Log(owned(raw)));
    } else {
        r.push(IrcAction::Echo);
    }
    assert(action_views(r@) =~= reaction(l@, raw@, nick@, channel@, mesi_enabled));
    r
}

// ---------------------------------------------------------------------
// The companion's own lines
// ---------------------------------------------------------------------
/// The lines that open a session: the password, the nick, the user line
/// and the join of the channel.
pub open spec fn login_lines(password: Seq<char>, nick: Seq<char>, channel: Seq<char>) -> Seq<
    Seq<char>,
> {
    seq![
        "PASS "@ + password,
        "NICK "@ + nick,
        "USER "@ + nick + " 0 * :mesi by rust"@,
        ":"@ + nick + " JOIN "@ + channel,
    ]
}

/// The lines that open a session.
pub fn login_commands(password: &str, nick: &str, channel: &str) -> (r: Vec<String>)
    ensures
        string_views(r@) == login_lines(password@, nick@, channel@),
{
    let mut r: Vec<String> = Vec::new();
    r.push(concat(owned("PASS "), password));
    r.push(concat(owned("NICK "), nick));
    r.push(concat(concat(owned("USER "), nick), " 0 * :mesi by rust"));
    r.push(concat(concat(concat(owned(":"), nick), " JOIN "), channel));
    assert(string_views(r@) =~= login_lines(password@, nick@, channel@));
    r
}

/// Whether sending `line` ends the session.
pub fn ends_session(line: &str) -> (r: bool)
    ensures
        r == is_prefix("QUIT"@, line@),
{
    has_prefix(line, "QUIT")
}

/// The text of a received line: its bytes without the final two (the line
/// end), decoded from ISO-2022-JP.
pub fn decode_incoming(raw: &[u8]) -> (r: String)
    requires
        raw@.len() >= 2,
    ensures
        r@ == iso_2022_jp_decoded(raw@.subrange(0, raw@.len() - 2)),
{
    let n = raw.len() - 2;
    let mut body: Vec<u8> = Vec::new();
    let mut i: usize = 0;
    while i < n
        invariant
            i <= n,
            n == raw@.len() - 2,
            body@ == raw@.subrange(0, i as int),
        decreases n - i,
    {
        body.push(raw[i]);
        i += 1;
        assert(raw@.subrange(0, i as int) =~= raw@.subrange(0, i - 1).push(raw@[i - 1]));
    }
    match iso_2022_jp_decode(body.as_slice()) {
        Some(s) => s,
        None => String::new(),
    }
}

/// The bytes sent for `line`, encoded as ISO-2022-JP.
pub fn encode_outgoing(line: &str) -> (r: Vec<u8>)
    ensures
        r@ == iso_2022_jp_encoded(line@),
{
    match iso_2022_jp_encode(line) {
        Some(v) => v,
        None => Vec::new(),
    }
}

} // verus!

//! What the web front end decides: who may use it, whether the log has news
//! for a reader, what a posted message or a dice roll sends to the channel,
//! how search results are framed, how a party is shown, and in which order
//! the log files are listed.
use vstd::prelude::*;
use crate::text::{
    chars_of, concat, decimal, has_prefix, is_prefix, join_strings, join_with, owned,
    parse_bounded, parse_unsigned, same_text, signed_decimal, signed_decimal_text, decimal_text,
    string_of, string_views,
};
use crate::mesi::{member_names, Member, Party};

verus! {

// ---------------------------------------------------------------------
// Access
// ---------------------------------------------------------------------
/// The user name and password that open the web front end.
pub struct BasicAuthMiddleware {
    name: String,
    pass: String,
}

impl BasicAuthMiddleware {
    /// Credentials `name` and `pass`.
    pub fn new(name: &String, pass: &String) -> (r: BasicAuthMiddleware)
        ensures
            r.name() == name@,
            r.pass() == pass@,
    {
        BasicAuthMiddleware { name: name.clone(), pass: pass.clone() }
    }

    /// The user name.
    pub closed spec fn name(&self) -> Seq<char> {
        self.name@
    }

    /// The password.
    pub closed spec fn pass(&self) -> Seq<char> {
        self.pass@
    }

    /// Whether a request that gave `username` and `password` (each absent
    /// when the request gave none) may go on: both must be given and equal
    /// the configured ones.
    pub fn admits(&self, username: Option<&str>, password: Option<&str>) -> (r: bool)
        ensures
            r == ((username matches Some(u) && u@ == self.name()) && (password matches Some(p)
                && p@ == self.pass())),
    {
        match (username, password) {
            (Some(u), Some(p)) => same_text(u, self.name.as_str()) && same_text(
                p,
                self.pass.as_str(),
            ),
            _ => false,
        }
    }
}

// ---------------------------------------------------------------------
// Reading the log
// ---------------------------------------------------------------------
/// Whether a reader who has seen the log up to line `id_param` (or, when it
/// gave no readable `id`, up to the line before the last) gets the log: its
/// position must be before the number of lines logged, `irc_id`.
pub open spec fn has_news(irc_id: nat, id_param: Option<Seq<char>>) -> bool {
    match id_param {
        Some(t) => match parse_unsigned(t, u64::MAX as nat) {
            Some(n) => n < irc_id,
            None => irc_id >= 1,
        },
        None => irc_id >= 1,
    }
}

/// Whether the log is sent to a reader who gave `id_param` as the `id` of
/// its last seen line.  With no readable `id` the position is the line
/// before the last one, which needs a line to have been logged.
pub fn msg_has_news(irc_id: u64, id_param: Option<&str>) -> (r: bool)
    requires
        irc_id >= 1 || (id_param matches Some(t) && parse_unsigned(t@, u64::MAX as nat) is Some),
    ensures
        r == has_news(irc_id as nat, match id_param {
            Some(t) => Some(t@),
            None => None,
        }),
{
    let pos: u64 = match id_param {
        Some(t) => match parse_bounded(t, u64::MAX) {
            Some(n) => n,
            None => irc_id - 1,
        },
        None => irc_id - 1,
    };
    pos < irc_id
}

// ---------------------------------------------------------------------
// Messages to the channel
// ---------------------------------------------------------------------
/// A chat line from `nick` to `channel` saying `text`.
pub open spec fn privmsg_line(nick: Seq<char>, channel: Seq<char>, text: Seq<char>) -> Seq<char> {
    ":"@ + nick + " PRIVMSG "@ + channel + " :"@ + text
}

/// A chat line from `nick` to `channel` saying `text`.
pub fn privmsg(nick: &str, channel: &str, text: &str) -> (r: String)
    ensures
        r@ == privmsg_line(nick@, channel@, text@),
{
    concat(concat(concat(concat(concat(owned(":"), nick), " PRIVMSG "), channel), " :"), text)
}

/// What a message posted on the web sends: text starting with `/` is a raw
/// command (without the `/`); anything else is said in the channel.
pub open spec fn web_message(nick: Seq<char>, channel: Seq<char>, query: Seq<char>) -> Seq<char> {
    if is_prefix("/"@, query) {
        query.drop_first()
    } else {
        privmsg_line(nick, channel, query)
    }
}

/// The line sent for a message `query` posted on the web.
pub fn send_message(nick: &str, channel: &str, query: &str) -> (r: String)
    ensures
        r@ == web_message(nick@, channel@, query@),
{
    if has_prefix(query, "/") {
        let cs = chars_of(query);
        let mut rest: Vec<char> = Vec::new();
        let mut k: usize = 1;
        proof {
            reveal_strlit("/");
        }
        while k < cs.len()
            invariant
                1 <= k <= cs.len(),
                rest@ == cs@.subrange(1, k as int),
            decreases cs.len() - k,
        {
            rest.push(cs[k]);
            k += 1;
            assert(cs@.subrange(1, k as int) =~= cs@.subrange(1, k - 1).push(cs@[k - 1]));
        }
        assert(rest@ =~= query@.drop_first());
        string_of(&rest)
    } else {
        privmsg(nick, channel, query)
    }
}

/// The dice roll said in the channel when more than ten seconds have passed
/// since the last one; nothing otherwise.
pub fn dice_message(nick: &str, channel: &str, elapsed_secs: u64) -> (r: Option<String>)
    ensures
        elapsed_secs > 10 ==> (r matches Some(s) && s@ == privmsg_line(nick@, channel@, "2D6"@)),
        elapsed_secs <= 10 ==> r is None,
{
    if elapsed_secs > 10 {
        Some(privmsg(nick, channel, "2D6"))
    } else {
        None
    }
}

/// Whether a dice roll is due at `now` (nanoseconds on a steady clock) when
/// the last one was at `last`: more than ten whole seconds have passed; a
/// clock reading before `last` counts as no time passed.
pub open spec fn dice_due(last: nat, now: nat) -> bool {
    now >= last && (now - last) / 1_000_000_000 > 10
}

/// The time of the last dice roll, on a steady clock in nanoseconds.
pub struct DiceTimer {
    last: u64,
}

impl View for DiceTimer {
    type V = nat;

    closed spec fn view(&self) -> nat {
        self.last as nat
    }
}

impl DiceTimer {
    /// A timer whose last roll counts as made at `start`.
    pub fn new(start: u64) -> (r: DiceTimer)
        ensures
            r@ == start,
    {
        DiceTimer { last: start }
    }

    /// What a dice request at `now` says: the `2D6` roll when one is due,
    /// nothing otherwise.
    pub fn due(&self, nick: &str, channel: &str, now: u64) -> (r: Option<String>)
        ensures
            dice_due(self@, now as nat) ==> (r matches Some(s) && s@ == privmsg_line(
                nick@,
                channel@,
                "2D6"@,
            )),
            !dice_due(self@, now as nat) ==> r is None,
    {
        let elapsed_secs: u64 = if now >= self.last {
            (now - self.last) / 1_000_000_000
        } else {
            0
        };
        dice_message(nick, channel, elapsed_secs)
    }

    /// Records that the dice were rolled at `at`.
    pub fn rolled(&mut self, at: u64)
        ensures
            final(self)@ == at,
    {
        self.last = at;
    }
}

/// The time of the last roll after the dice requests `reqs`, starting from
/// `start`: each request is the clock reading it is checked at and the one
/// recorded after its roll is said.
pub open spec fn dice_last(start: nat, reqs: Seq<(nat, nat)>) -> nat
    decreases reqs.len(),
{
    if reqs.len() == 0 {
        start
    } else {
        let l = dice_last(start, reqs.drop_last());
        if dice_due(l, reqs.last().0) {
            reqs.last().1
        } else {
            l
        }
    }
}

/// Whether request `i` of `reqs` rolls the dice.
pub open spec fn dice_rolled(start: nat, reqs: Seq<(nat, nat)>, i: int) -> bool {
    dice_due(dice_last(start, reqs.take(i)), reqs[i].0)
}

// ---------------------------------------------------------------------
// Search results
// ---------------------------------------------------------------------
/// `s` with every line end replaced by a comma.
pub open spec fn commas_for_newlines(s: Seq<char>) -> Seq<char> {
    s.map_values(|c: char| if c == '\n' { ',' } else { c })
}

/// The reply to a search: the printer's JSON lines, separated by commas,
/// closed with an empty record, inside brackets.
pub fn grep_reply(result: &str) -> (r: String)
    ensures
        r@ == "["@ + commas_for_newlines(result@) + "{\"type\":\"\"}]"@,
{
    let cs = chars_of(result);
    let mut out: Vec<char> = Vec::new();
    let mut i: usize = 0;
    while i < cs.len()
        invariant
            i <= cs.len(),
            out@ == commas_for_newlines(cs@.take(i as int)),
        decreases cs.len() - i,
    {
        let c = cs[i];
        out.push(if c == '\n' { ',' } else { c });
        i += 1;
        assert(commas_for_newlines(cs@.take(i as int)) =~= commas_for_newlines(cs@.take(i - 1)).push(
            if c == '\n' { ',' } else { c },
        ));
    }
    assert(cs@.take(i as int) =~= result@);
    let body = string_of(&out);
    concat(concat(owned("["), body.as_str()), "{\"type\":\"\"}]")
}

// ---------------------------------------------------------------------
// The party table
// ---------------------------------------------------------------------
/// One row of the party table, every cell as text.
pub struct PartyRow {
    pub id: String,
    pub title: String,
    pub create: String,
    pub enable: String,
    pub member: String,
    pub number: String,
}

/// The row for `party` with its `members`: the id, title and creation time,
/// a circle when it is open and a cross when closed, the member names
/// separated by `, `, and how many there are.
pub fn party_row(party: &Party, members: &Vec<Member>) -> (r: PartyRow)
    ensures
        r.id@ == signed_decimal(party.id as int),
        r.title@ == party.title@,
        r.create@ == party.create_time@,
        r.enable@ == (if party.valid {
            "○"@
        } else {
            "×"@
        }),
        r.member@ == join_with(member_names(members@), ", "@),
        r.number@ == decimal(members@.len()),
{
    let mut names: Vec<String> = Vec::new();
    let mut i: usize = 0;
    while i < members.len()
        invariant
            i <= members.len(),
            string_views(names@) == member_names(members@).take(i as int),
        decreases members.len() - i,
    {
        let ghost before = names@;
        names.push(members[i].name.clone());
        i += 1;
        assert(string_views(names@) =~= string_views(before).push(members@[i - 1].name@));
        assert(member_names(members@).take(i as int) =~= member_names(members@).take(i - 1).push(
            members@[i - 1].name@,
        ));
    }
    assert(member_names(members@).take(i as int) =~= member_names(members@));
    PartyRow {
        id: signed_decimal_text(party.id as i64),
        title: party.title.clone(),
        create: party.create_time.clone(),
        enable: if party.valid {
            owned("○")
        } else {
            owned("×")
        },
        member: join_strings(&names, ", "),
        number: decimal_text(names.len() as u64),
    }
}

// ---------------------------------------------------------------------
// Log file order
// ---------------------------------------------------------------------
/// `a` comes before `b` in character order (the order of `String`).
pub open spec fn text_lt(a: Seq<char>, b: Seq<char>) -> bool
    decreases a.len(),
{
    if a.len() == 0 {
        b.len() > 0
    } else if b.len() == 0 {
        false
    } else if a[0] != b[0] {
        a[0] < b[0]
    } else {
        text_lt(a.drop_first(), b.drop_first())
    }
}

/// The texts run from the greatest to the smallest: no text comes before
/// one that follows it.
pub open spec fn descending(s: Seq<Seq<char>>) -> bool {
    forall|i: int, j: int| 0 <= i < j < s.len() ==> !text_lt(#[trigger] s[i], #[trigger] s[j])
}

proof fn lemma_lt_asymmetric(a: Seq<char>, b: Seq<char>)
    requires
        text_lt(a, b),
    ensures
        !text_lt(b, a),
    decreases a.len(),
{
    if a.len() > 0 && b.len() > 0 && a[0] == b[0] {
        lemma_lt_asymmetric(a.drop_first(), b.drop_first());
    }
}

proof fn lemma_lt_transitive(a: Seq<char>, b: Seq<char>, c: Seq<char>)
    requires
        text_lt(a, b),
        text_lt(b, c),
    ensures
        text_lt(a, c),
    decreases a.len(),
{
    if a.len() > 0 && b.len() > 0 && c.len() > 0 && a[0] == b[0] && b[0] == c[0] {
        lemma_lt_transitive(a.drop_first(), b.drop_first(), c.drop_first());
    }
}

proof fn lemma_lt_total(a: Seq<char>, b: Seq<char>)
    requires
        a != b,
    ensures
        text_lt(a, b) || text_lt(b, a),
    decreases a.len(),
{
    if a.len() > 0 && b.len() > 0 && a[0] == b[0] {
        if a.drop_first() == b.drop_first() {
            assert(a =~= seq![a[0]] + a.drop_first());
            assert(b =~= seq![b[0]] + b.drop_first());
        }
        lemma_lt_total(a.drop_first(), b.drop_first());
    } else if a.len() == 0 && b.len() == 0 {
        assert(a =~= b);
    }
}

/// Whether `a` comes before `b`.
fn lt_chars(a: &Vec<char>, b: &Vec<char>) -> (r: bool)
    ensures
        r == text_lt(a@, b@),
{
    let mut i: usize = 0;
    assert(a@.skip(0) =~= a@);
    assert(b@.skip(0) =~= b@);
    while i < a.len() && i < b.len()
        invariant
            i <= a.len(),
            i <= b.len(),
            text_lt(a@, b@) == text_lt(a@.skip(i as int), b@.skip(i as int)),
        decreases a.len() - i,
    {
        assert(a@.skip(i as int)[0] == a@[i as int]);
        assert(b@.skip(i as int)[0] == b@[i as int]);
        if a[i] != b[i] {
            return a[i] < b[i];
        }
        assert(a@.skip(i as int).drop_first() =~= a@.skip(i + 1));
        assert(b@.skip(i as int).drop_first() =~= b@.skip(i + 1));
        i += 1;
    }
    assert(a@.skip(i as int).len() == a.len() - i);
    assert(b@.skip(i as int).len() == b.len() - i);
    i == a.len() && i < b.len()
}

/// The log file names from the newest to the oldest: the names sorted in
/// descending character order.
pub fn order_log_files(names: Vec<String>) -> (r: Vec<String>)
    ensures
        r@.to_multiset() == names@.to_multiset(),
        descending(string_views(r@)),
{
    broadcast use vstd::seq_lib::group_to_multiset_ensures;

    let mut r: Vec<String> = Vec::new();
    let mut keys: Vec<Vec<char>> = Vec::new();
    let mut i: usize = 0;
    assert(names@.take(0) =~= r@);
    while i < names.len()
        invariant
            i <= names.len(),
            keys@.len() == r@.len(),
            forall|k: int| 0 <= k < r@.len() ==> #[trigger] keys@[k]@ == r@[k]@,
            r@.to_multiset() == names@.take(i as int).to_multiset(),
            descending(string_views(r@)),
        decreases names.len() - i,
    {
        let x = names[i].clone();
        let xk = chars_of(x.as_str());
        let mut p: usize = 0;
        while p < keys.len() && !lt_chars(&keys[p], &xk)
            invariant
                p <= keys@.len(),
                keys@.len() == r@.len(),
                xk@ == x@,
                forall|k: int| 0 <= k < r@.len() ==> #[trigger] keys@[k]@ == r@[k]@,
                forall|k: int| 0 <= k < p ==> !text_lt(#[trigger] r@[k]@, x@),
            decreases keys@.len() - p,
        {
            p += 1;
        }
        let ghost before = r@;
        let ghost before_keys = keys@;
        proof {
            let sv = string_views(before);
            assert forall|a: int, b: int| 0 <= a < b < before.len() + 1 implies !text_lt(
                #[trigger] string_views(before.insert(p as int, x))[a],
                #[trigger] string_views(before.insert(p as int, x))[b],
            ) by {
                let s2 = string_views(before.insert(p as int, x));
                if b < p {
                    assert(s2[a] == sv[a] && s2[b] == sv[b]);
                } else if b == p {
                    assert(s2[a] == before[a]@);
                    assert(s2[b] == x@);
                } else if a == p {
                    assert(s2[a] == x@);
                    assert(s2[b] == before[b - 1]@);
                    assert(p < before.len());
                    assert(text_lt(before[p as int]@, x@));
                    if b - 1 > p {
                        assert(!text_lt(sv[p as int], sv[b - 1]));
                        if before[b - 1]@ != before[p as int]@ {
                            lemma_lt_total(before[b - 1]@, before[p as int]@);
                            lemma_lt_transitive(before[b - 1]@, before[p as int]@, x@);
                        }
                    }
                    lemma_lt_asymmetric(before[b - 1]@, x@);
                } else if a < p {
                    assert(s2[a] == sv[a] && s2[b] == sv[b - 1]);
                } else {
                    assert(s2[a] == sv[a - 1] && s2[b] == sv[b - 1]);
                }
            }
            assert(names@.take(i + 1) =~= names@.take(i as int).push(names@[i as int]));
            vstd::seq_lib::to_multiset_build(names@.take(i as int), names@[i as int]);
        }
        assert(x == names@[i as int]);
        r.insert(p, x);
        keys.insert(p, xk);
        proof {
            vstd::seq_lib::to_multiset_insert(before, p as int, names@[i as int]);
            assert(r@.to_multiset() == names@.take(i + 1).to_multiset());
        }
        assert forall|k: int| 0 <= k < r@.len() implies #[trigger] keys@[k]@ == r@[k]@ by {
            if k < p {
                assert(keys@[k] == before_keys[k] && r@[k] == before[k]);
            } else if k == p {
            } else {
                assert(keys@[k] == before_keys[k - 1] && r@[k] == before[k - 1]);
            }
        }
        i += 1;
    }
    assert(names@.take(i as int) =~= names@);
    r
}

} // verus!

//! The party roster run from the channel: `:mesi [N] command [argument]`
//! picks party `N` (or stays on the current one) and lists the parties,
//! adds or removes a member, adds a party, or closes one.
use vstd::prelude::*;
use crate::text::{
    char_views, chars_of, concat, decimal, join_from, join_with, owned, parse_bounded,
    parse_unsigned, push_decimal, same_text, split_chars, split_on, string_of, string_views, trim,
    trim_chars, join_strings,
};
use crate::pattern::{regex_finds, regex_search};

verus! {

/// A party as stored: its id, title, opening and creation times (as text),
/// and whether it is still open.
pub struct Party {
    pub id: i32,
    pub title: String,
    pub open_time: Option<String>,
    pub create_time: String,
    pub valid: bool,
}

/// A member of a party as stored.
pub struct Member {
    pub id: i32,
    pub name: String,
    pub pid: i32,
    pub create_time: String,
}

/// A party to insert.
pub struct NewParty {
    pub title: String,
}

/// A member to insert: a name in party `pid`.
pub struct NewMember {
    pub name: String,
    pub pid: i32,
}

/// The roster: which party the commands without a number are about.
pub struct Mesi {
    now_project: usize,
}

impl View for Mesi {
    type V = nat;

    closed spec fn view(&self) -> nat {
        self.now_project as nat
    }
}

/// What a roster command asks of the store.
pub enum MesiRequest {
    /// Too few words: nothing to do.
    Nothing,
    /// List every open party, with its members, to `to`.
    Shows { to: String },
    /// Add this member, unless a member of that name is already in the party.
    AddMember(NewMember),
    /// Remove the member of this name from the party, if there is one.
    DelMember(NewMember),
    /// Add this party; it becomes the current one.
    AddParty(NewParty),
    /// Close the party with this id.
    DisableParty(i32),
    /// A command the roster does not know.
    Unknown { command: String, from: String, opt: String, to: String },
}

/// Why a roster command could not be read.
#[derive(PartialEq, Eq, Structural, Clone, Copy, Debug)]
pub enum MesiFault {
    /// The second word holds a digit but is not a party number.
    BadNumber,
    /// A party number is given but no command follows it.
    MissingCommand,
}

/// A `MesiRequest` as mathematical values.
pub enum RequestView {
    Nothing,
    Shows(Seq<char>),
    AddMember(Seq<char>, i32),
    DelMember(Seq<char>, i32),
    AddParty(Seq<char>),
    DisableParty(i32),
    Unknown(Seq<char>, Seq<char>, Seq<char>, Seq<char>),
}

impl View for MesiRequest {
    type V = RequestView;

    open spec fn view(&self) -> RequestView {
        match self {
            MesiRequest::Nothing => RequestView::Nothing,
            MesiRequest::Shows { to } => RequestView::Shows(to@),
            MesiRequest::AddMember(m) => RequestView::AddMember(m.name@, m.pid),
            MesiRequest::DelMember(m) => RequestView::DelMember(m.name@, m.pid),
            MesiRequest::AddParty(p) => RequestView::AddParty(p.title@),
            MesiRequest::DisableParty(id) => RequestView::DisableParty(*id),
            MesiRequest::Unknown { command, from, opt, to } => RequestView::Unknown(
                command@,
                from@,
                opt@,
                to@,
            ),
        }
    }
}

/// The outcome of a command as mathematical values.
pub open spec fn outcome_view(r: Result<MesiRequest, MesiFault>) -> Result<RequestView, MesiFault> {
    match r {
        Ok(q) => Ok(q@),
        Err(e) => Err(e),
    }
}

/// The ids of the parties, in order.
pub open spec fn party_ids(parties: Seq<Party>) -> Seq<i32> {
    parties.map_values(|p: Party| p.id)
}

/// The pattern that marks a word as a party number: a run of digits.
pub open spec fn number_pattern() -> Seq<char> {
    "\\d+"@
}

/// The party a command is about and the current party afterwards: party
/// `target` when there is one, otherwise id `-1`; a numbered command past
/// the end makes the last party current.
pub open spec fn pick_party(now: nat, ids: Seq<i32>, target: nat, numbered: bool) -> (nat, i32) {
    if ids.len() == 0 {
        (now, -1i32)
    } else if target >= ids.len() {
        (
            if numbered {
                (ids.len() - 1) as nat
            } else {
                now
            },
            -1i32,
        )
    } else {
        (target, ids[target as int])
    }
}

/// Whether the command text `opt` can be read when `numbered` says whether
/// its second word is a party number: a number must parse as a `usize` and
/// be followed by a command word.
pub open spec fn roster_readable(opt: Seq<char>, numbered: bool) -> bool {
    let sp = split_on(opt, ' ');
    sp.len() < 2 || !numbered || (parse_unsigned(sp[1], usize::MAX as nat) is Some && sp.len()
        >= 3)
}

/// What the command text `opt` from `from` to `to` does, given the current
/// party `now`, the open parties' ids, and whether its second word matched
/// the party-number pattern: the next current party and the request, or
/// the reason the command cannot be read (which leaves the current party
/// as it was).
pub open spec fn roster_step(
    now: nat,
    ids: Seq<i32>,
    from: Seq<char>,
    to: Seq<char>,
    opt: Seq<char>,
    numbered: bool,
) -> (nat, Result<RequestView, MesiFault>) {
    let sp = split_on(opt, ' ');
    if sp.len() < 2 {
        (now, Ok(RequestView::Nothing))
    } else if numbered && parse_unsigned(sp[1], usize::MAX as nat) is None {
        (now, Err(MesiFault::BadNumber))
    } else {
        let target: nat = if numbered {
            parse_unsigned(sp[1], usize::MAX as nat)->0
        } else {
            now
        };
        let start: int = if numbered {
            2
        } else {
            1
        };
        let picked = pick_party(now, ids, target, numbered);
        let now2 = picked.0;
        let pid = picked.1;
        if start >= sp.len() {
            (now, Err(MesiFault::MissingCommand))
        } else {
            let command = sp[start];
            let arg = if sp.len() <= start + 1 {
                from
            } else {
                trim(join_with(sp.subrange(start + 1, sp.len() as int), seq![' ']))
            };
            if command == "shows"@ {
                (now2, Ok(RequestView::Shows(to)))
            } else if command == "+"@ {
                (now2, Ok(RequestView::AddMember(arg, pid)))
            } else if command == "-"@ {
                (now2, Ok(RequestView::DelMember(arg, pid)))
            } else if command == "add"@ {
                (ids.len(), Ok(RequestView::AddParty(arg)))
            } else if command == "del"@ {
                (now2, Ok(RequestView::DisableParty(pid)))
            } else {
                (now2, Ok(RequestView::Unknown(command, from, arg, to)))
            }
        }
    }
}

impl Mesi {
    /// A roster on the first party.
    pub fn new() -> (m: Mesi)
        ensures
            m@ == 0,
    {
        Mesi { now_project: 0 }
    }

    /// The party the commands without a number are about.
    pub fn now_project(&self) -> (r: usize)
        ensures
            r == self@,
    {
        self.now_project
    }

    /// Reads the command text `opt` sent by `from` to `to`, against the open
    /// `parties`: whether the second word is a party number is looked up
    /// with the `\d+` pattern; a command that cannot be read is reported
    /// and leaves the current party as it was; any other is
    /// `recieve_numbered`.
    pub fn recieve(&mut self, from: &str, to: &str, opt: &str, parties: &Vec<Party>) -> (r: Result<
        MesiRequest,
        MesiFault,
    >)
        ensures
            split_on(opt@, ' ').len() < 2 ==> (r matches Ok(MesiRequest::Nothing)) && final(self)@
                == old(self)@,
            split_on(opt@, ' ').len() >= 2 ==> (final(self)@, outcome_view(r)) == roster_step(
                old(self)@,
                party_ids(parties@),
                from@,
                to@,
                opt@,
                regex_finds(number_pattern(), split_on(opt@, ' ')[1]),
            ),
    {
        let cs = chars_of(opt);
        let sp = split_chars(&cs, ' ');
        let ghost spv = split_on(opt@, ' ');
        assert(char_views(sp@) == spv);
        if sp.len() < 2 {
            return Ok(MesiRequest::Nothing);
        }
        let second = string_of(&sp[1]);
        assert(second@ == spv[1]);
        let numbered = match regex_search("\\d+", second.as_str()) {
            Ok(b) => b,
            Err(_) => {
                assert(false);
                false
            },
        };
        if numbered {
            if parse_bounded(second.as_str(), usize::MAX as u64).is_none() {
                return Err(MesiFault::BadNumber);
            }
            if sp.len() < 3 {
                return Err(MesiFault::MissingCommand);
            }
        }
        let q = self.recieve_numbered(from, to, opt, parties, numbered);
        Ok(q)
    }

    /// Reads the command text `opt` sent by `from` to `to`, against the open
    /// `parties`, where `numbered` says whether its second word is a party
    /// number.
    pub fn recieve_numbered(
        &mut self,
        from: &str,
        to: &str,
        opt: &str,
        parties: &Vec<Party>,
        numbered: bool,
    ) -> (r: MesiRequest)
        requires
            roster_readable(opt@, numbered),
        ensures
            roster_step(old(self)@, party_ids(parties@), from@, to@, opt@, numbered) == (
                final(self)@,
                Ok::<RequestView, MesiFault>(r@),
            ),
    {
        let cs = chars_of(opt);
        let sp = split_chars(&cs, ' ');
        let ghost spv = split_on(opt@, ' ');
        assert(char_views(sp@) == spv);
        if sp.len() < 2 {
            return MesiRequest::Nothing;
        }
        let mut target: usize = self.now_project;
        let mut start: usize = 1;
        if numbered {
            let second = string_of(&sp[1]);
            assert(second@ == spv[1]);
            match parse_bounded(second.as_str(), usize::MAX as u64) {
                Some(v) => {
                    target = v as usize;
                    start = 2;
                },
                None => {
                    assert(false);
                },
            }
        }
        let ghost ids = party_ids(parties@);
        let n = parties.len();
        let mut pid: i32 = -1;
        if n == 0 {
        } else if target >= n {
            if start == 2 {
                self.now_project = n - 1;
            }
        } else {
            self.now_project = target;
            pid = parties[target].id;
        }
        assert((self.now_project as nat, pid) == pick_party(old(self)@, ids, target as nat, numbered));
        let command = string_of(&sp[start]);
        assert(command@ == spv[start as int]);
        let arg: String = if sp.len() <= start + 1 {
            owned(from)
        } else {
            let joined = join_from(&sp, start + 1, " ");
            proof {
                reveal_strlit(" ");
                assert(" "@ =~= seq![' ']);
            }
            let t = trim_chars(&joined);
            string_of(&t)
        };
        let c = command.as_str();
        if same_text(c, "shows") {
            MesiRequest::Shows { to: owned(to) }
        } else if same_text(c, "+") {
            MesiRequest::AddMember(NewMember { name: arg, pid })
        } else if same_text(c, "-") {
            MesiRequest::DelMember(NewMember { name: arg, pid })
        } else if same_text(c, "add") {
            self.now_project = n;
            MesiRequest::AddParty(NewParty { title: arg })
        } else if same_text(c, "del") {
            MesiRequest::DisableParty(pid)
        } else {
            MesiRequest::Unknown { command, from: owned(from), opt: arg, to: owned(to) }
        }
    }
}

/// A change to a party's members.
pub enum MemberChange {
    /// Insert this member.
    Insert(NewMember),
    /// Delete the member with this id.
    Delete(i32),
    /// Leave the members as they are.
    Keep,
}

/// For an `AddMember` request: insert the member when no member of that
/// name is in the party yet (`existing` are the members found under it).
pub fn add_member_change(member: NewMember, existing: &Vec<Member>) -> (r: MemberChange)
    ensures
        existing@.len() == 0 ==> r == MemberChange::Insert(member),
        existing@.len() != 0 ==> r is Keep,
{
    if existing.len() == 0 {
        MemberChange::Insert(member)
    } else {
        MemberChange::Keep
    }
}

/// For a `DelMember` request: delete the first member found under that
/// name, if any.
pub fn del_member_change(existing: &Vec<Member>) -> (r: MemberChange)
    ensures
        existing@.len() != 0 ==> r == MemberChange::Delete(existing@[0].id),
        existing@.len() == 0 ==> r is Keep,
{
    if existing.len() != 0 {
        MemberChange::Delete(existing[0].id)
    } else {
        MemberChange::Keep
    }
}

/// The notice line that introduces party number `index` in a listing.
pub open spec fn party_notice_text(to: Seq<char>, index: nat, title: Seq<char>, created: Seq<
    char,
>) -> Seq<char> {
    "NOTICE "@ + to + " :"@ + decimal(index) + ", "@ + title + ", "@ + created
}

/// The names of the members, in order.
pub open spec fn member_names(members: Seq<Member>) -> Seq<Seq<char>> {
    members.map_values(|m: Member| m.name@)
}

/// The notice line that introduces party number `index` in a listing.
pub fn party_notice(to: &str, index: usize, party: &Party) -> (r: String)
    ensures
        r@ == party_notice_text(to@, index as nat, party.title@, party.create_time@),
{
    let mut s = concat(concat(owned("NOTICE "), to), " :");
    push_decimal(&mut s, index as u64);
    let s = concat(concat(concat(concat(s, ", "), party.title.as_str()), ", "), party.create_time.as_str());
    s
}

/// The notice line listing the names of a party's members, separated by
/// commas.
pub fn members_notice(to: &str, members: &Vec<Member>) -> (r: String)
    ensures
        r@ == "NOTICE "@ + to@ + " :"@ + join_with(member_names(members@), ","@),
{
    let mut names: Vec<String> = Vec::new();
    let mut i: usize = 0;
    while i < members.len()
        invariant
            i <= members.len(),
            string_views(names@) == member_names(members@).take(i as int),
        decreases members.len() - i,
    {
        let ghost before = names@;
        names.push(members[i].name.clone());
        i += 1;
        assert(string_views(names@) =~= string_views(before).push(members@[i - 1].name@));
        assert(member_names(members@).take(i as int) =~= member_names(members@).take(i - 1).push(
            members@[i - 1].name@,
        ));
    }
    assert(member_names(members@).take(i as int) =~= member_names(members@));
    concat(concat(concat(owned("NOTICE "), to), " :"), join_strings(&names, ",").as_str())
}

/// The notice line listing the member names of a party.
pub open spec fn members_notice_text(to: Seq<char>, members: Seq<Member>) -> Seq<char> {
    "NOTICE "@ + to + " :"@ + join_with(member_names(members), ","@)
}

/// The lines of a `shows` listing to `to`: for each open party in order, its
/// introduction and then its member names.
pub fn shows_listing(to: &str, parties: &Vec<Party>, members: &Vec<Vec<Member>>) -> (r: Vec<
    String,
>)
    requires
        members@.len() == parties@.len(),
    ensures
        r@.len() == 2 * parties@.len(),
        forall|i: int|
            0 <= i < parties@.len() ==> #[trigger] r@[2 * i]@ == party_notice_text(
                to@,
                i as nat,
                parties@[i].title@,
                parties@[i].create_time@,
            ),
        forall|i: int|
            0 <= i < parties@.len() ==> #[trigger] r@[2 * i + 1]@ == members_notice_text(
                to@,
                members@[i]@,
            ),
{
    let mut r: Vec<String> = Vec::new();
    let mut i: usize = 0;
    while i < parties.len()
        invariant
            i <= parties@.len(),
            members@.len() == parties@.len(),
            r@.len() == 2 * i,
            forall|k: int|
                0 <= k < i ==> #[trigger] r@[2 * k]@ == party_notice_text(
                    to@,
                    k as nat,
                    parties@[k].title@,
                    parties@[k].create_time@,
                ),
            forall|k: int|
                0 <= k < i ==> #[trigger] r@[2 * k + 1]@ == members_notice_text(to@, members@[k]@),
        decreases parties@.len() - i,
    {
        let ghost before = r@;
        let a = party_notice(to, i, &parties[i]);
        let b = members_notice(to, &members[i]);
        r.push(a);
        r.push(b);
        assert forall|k: int| 0 <= k < i + 1 implies #[trigger] r@[2 * k]@ == party_notice_text(
            to@,
            k as nat,
            parties@[k].title@,
            parties@[k].create_time@,
        ) by {
            if k < i {
                assert(r@[2 * k] == before[2 * k]);
            } else {
                assert(r@[2 * k] == a);
            }
        }
        assert forall|k: int| 0 <= k < i + 1 implies #[trigger] r@[2 * k + 1]@
            == members_notice_text(to@, members@[k]@) by {
            if k < i {
                assert(r@[2 * k + 1] == before[2 * k + 1]);
            } else {
                assert(r@[2 * k + 1] == b);
            }
        }
        i += 1;
    }
    r
}

} // verus!

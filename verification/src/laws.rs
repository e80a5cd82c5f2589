//! Properties that tie several parts of the library together.
use vstd::prelude::*;
use crate::text::{
    decimal, is_prefix, parse_unsigned, join_with, lemma_join_split, lemma_parse_decimal, lemma_split_concat,
    lemma_split_no_sep, lemma_split_nonempty, split_on,
};
use crate::irc::{reaction, parse_line_spec, ActionView, IrcLineView, LineParseView, logged};
use crate::text::trim;
use crate::webs::{dice_due, dice_last, dice_rolled, has_news, web_message};
use crate::mesi::{roster_step, MesiFault, RequestView};

verus! {

/// `c` followed by `s` has no `sep` when `s` has none and `c` is not `sep`.
proof fn lemma_no_sep_cons(c: char, s: Seq<char>, sep: char)
    requires
        c != sep,
        !s.contains(sep),
    ensures
        !(seq![c] + s).contains(sep),
{
    if (seq![c] + s).contains(sep) {
        let k = choose|k: int| 0 <= k < (seq![c] + s).len() && (seq![c] + s)[k] == sep;
        if k > 0 {
            assert(s[k - 1] == sep);
        }
    }
}

/// A message typed on the web page (not starting with `/`) by the
/// companion `nick` in `channel` is sent as a chat line that, read back as
/// the companion reads every line it sends, comes from `nick`, is a
/// `PRIVMSG` to `channel`, and ends with the log line `<nick>:text`.
pub proof fn law_web_message_is_logged(
    nick: Seq<char>,
    channel: Seq<char>,
    text: Seq<char>,
    mesi_enabled: bool,
)
    requires
        !nick.contains(' '),
        !nick.contains('!'),
        !channel.contains(' '),
        !is_prefix("/"@, text),
    ensures
        parse_line_spec(web_message(nick, channel, text)) == LineParseView::Parsed(
            IrcLineView { from: nick, command: "PRIVMSG"@, to: channel, opt: ":"@ + text },
        ),
        reaction(
            IrcLineView { from: nick, command: "PRIVMSG"@, to: channel, opt: ":"@ + text },
            web_message(nick, channel, text),
            nick,
            channel,
            mesi_enabled,
        ).last() == ActionView::Log("<"@ + nick + ">"@ + (":"@ + text)),
{
    reveal_strlit(":");
    reveal_strlit(" PRIVMSG ");
    reveal_strlit(" :");
    reveal_strlit("PRIVMSG");
    lemma_command_words();
    let line = web_message(nick, channel, text);
    let w0 = seq![':'] + nick;
    let w1 = "PRIVMSG"@;
    let rest = seq![':'] + text;
    let tail2 = channel + seq![' '] + rest;
    let tail1 = w1 + seq![' '] + tail2;
    assert(line =~= w0 + seq![' '] + tail1);
    lemma_split_concat(w0, tail1, ' ');
    lemma_split_concat(w1, tail2, ' ');
    lemma_split_concat(channel, rest, ' ');
    lemma_no_sep_cons(':', nick, ' ');
    lemma_split_no_sep(w0, ' ');
    assert(!w1.contains(' ')) by {
        if w1.contains(' ') {
            let k = choose|k: int| 0 <= k < w1.len() && w1[k] == ' ';
            assert(w1[k] != ' ');
        }
    }
    lemma_split_no_sep(w1, ' ');
    lemma_split_no_sep(channel, ' ');
    lemma_split_nonempty(rest, ' ');
    let sp = split_on(line, ' ');
    assert(sp =~= seq![w0, w1, channel] + split_on(rest, ' '));
    assert(is_prefix(seq![':'], sp[0])) by {
        assert(sp[0].subrange(0, 1) =~= seq![':']);
    }
    assert(sp[0].drop_first() =~= nick);
    lemma_split_no_sep(nick, '!');
    assert(sp.subrange(3, sp.len() as int) =~= split_on(rest, ' '));
    lemma_join_split(rest, ' ');
    assert(rest =~= ":"@ + text);
}

/// A `PING` from the server with the parameter `t` is answered with
/// `PONG t` and nothing else.
pub proof fn law_ping_is_answered(t: Seq<char>, nick: Seq<char>, channel: Seq<char>, mesi_enabled: bool)
    requires
        !t.contains(' '),
    ensures
        parse_line_spec("PING "@ + t) == LineParseView::Parsed(
            IrcLineView { from: Seq::<char>::empty(), command: "PING"@, to: t, opt: Seq::<char>::empty() },
        ),
        reaction(
            IrcLineView { from: Seq::<char>::empty(), command: "PING"@, to: t, opt: Seq::<char>::empty() },
            "PING "@ + t,
            nick,
            channel,
            mesi_enabled,
        ) == seq![ActionView::Send("PONG "@ + t + "\r\n"@)],
{
    reveal_strlit("PING ");
    reveal_strlit("PING");
    let w = "PING"@;
    assert("PING "@ + t =~= w + seq![' '] + t);
    lemma_split_concat(w, t, ' ');
    assert(!w.contains(' ')) by {
        if w.contains(' ') {
            let k = choose|k: int| 0 <= k < w.len() && w[k] == ' ';
            assert(w[k] != ' ');
        }
    }
    lemma_split_no_sep(w, ' ');
    lemma_split_no_sep(t, ' ');
    let sp = split_on("PING "@ + t, ' ');
    assert(sp =~= seq![w, t]);
    assert(!is_prefix(seq![':'], sp[0])) by {
        assert(sp[0][0] == 'P');
        if is_prefix(seq![':'], sp[0]) {
            assert(sp[0].subrange(0, 1)[0] == seq![':'][0]);
        }
    }
    assert(sp.subrange(2, 2) =~= Seq::<Seq<char>>::empty());
}

/// A reader who gives the decimal text of the number of lines it has seen
/// gets the log exactly when more lines have been logged since.
pub proof fn law_news_after_seen(seen: nat, irc_id: nat)
    requires
        seen <= u64::MAX,
    ensures
        has_news(irc_id, Some(decimal(seen))) == (seen < irc_id),
{
    lemma_parse_decimal(seen, u64::MAX as nat);
}

/// The newest line is first in the log, the log keeps at most its
/// capacity, and the earlier lines keep their order behind it.
pub proof fn law_log_keeps_newest(log: Seq<Seq<char>>, cap: nat, msg: Seq<char>)
    requires
        cap >= 1,
        log.len() <= cap,
    ensures
        logged(log, cap, msg)[0] == msg,
        logged(log, cap, msg).len() <= cap,
        logged(log, cap, msg).len() == if log.len() < cap {
            log.len() + 1int
        } else {
            cap as int
        },
        forall|i: int|
            1 <= i < logged(log, cap, msg).len() ==> #[trigger] logged(log, cap, msg)[i] == log[i
                - 1],
{
}

/// A numbered command that picks an existing party makes it current: a
/// following command without a number is about the same party.
pub proof fn law_picked_party_stays(
    now: nat,
    ids: Seq<i32>,
    from: Seq<char>,
    to: Seq<char>,
    first: Seq<char>,
    n: nat,
    second: Seq<char>,
)
    requires
        split_on(first, ' ').len() >= 3,
        parse_unsigned(split_on(first, ' ')[1], usize::MAX as nat) == Some(n),
        n < ids.len(),
        split_on(first, ' ')[2] != "add"@,
        split_on(second, ' ').len() >= 2,
        split_on(second, ' ')[1] == "del"@,
    ensures
        roster_step(now, ids, from, to, first, true).0 == n,
        roster_step(roster_step(now, ids, from, to, first, true).0, ids, from, to, second, false).1
            == Ok::<RequestView, MesiFault>(RequestView::DisableParty(ids[n as int])),
{
    lemma_command_words();
}

/// After request `i` rolled the dice, the last roll is never earlier than
/// the time recorded for request `i`.
proof fn lemma_last_after_roll(start: nat, reqs: Seq<(nat, nat)>, i: int, k: int)
    requires
        0 <= i < k <= reqs.len(),
        dice_rolled(start, reqs, i),
        forall|m: int| 0 <= m < reqs.len() ==> #[trigger] reqs[m].1 >= reqs[m].0,
    ensures
        dice_last(start, reqs.take(k)) >= reqs[i].1,
    decreases k,
{
    assert(reqs.take(k).drop_last() =~= reqs.take(k - 1));
    assert(reqs.take(k).last() == reqs[k - 1]);
    assert(reqs[k - 1].1 >= reqs[k - 1].0);
    if k > i + 1 {
        lemma_last_after_roll(start, reqs, i, k - 1);
    }
}

/// Any two dice requests that both roll are more than ten whole seconds
/// apart: the later one is checked more than ten seconds after the time
/// recorded for the earlier roll (each recorded no earlier than its check).
pub proof fn law_rolls_are_apart(start: nat, reqs: Seq<(nat, nat)>, i: int, j: int)
    requires
        0 <= i < j < reqs.len(),
        forall|m: int| 0 <= m < reqs.len() ==> #[trigger] reqs[m].1 >= reqs[m].0,
        dice_rolled(start, reqs, i),
        dice_rolled(start, reqs, j),
    ensures
        dice_due(reqs[i].1, reqs[j].0),
{
    lemma_last_after_roll(start, reqs, i, j);
    let l = dice_last(start, reqs.take(j));
    vstd::arithmetic::div_mod::lemma_div_is_ordered(
        reqs[j].0 - l,
        reqs[j].0 - reqs[i].1,
        1_000_000_000,
    );
}

/// Whether a line with this command is written to the log.
pub open spec fn logs_line(c: Seq<char>) -> bool {
    c == "PRIVMSG"@ || c == "NOTICE"@ || c == "332"@ || c == "TOPIC"@ || c == "JOIN"@ || c
        == "QUIT"@ || c == "PART"@ || c == "ERROR"@
}

/// How many log writes a list of actions holds.
pub open spec fn log_count(acts: Seq<ActionView>) -> nat
    decreases acts.len(),
{
    if acts.len() == 0 {
        0
    } else {
        log_count(acts.drop_last()) + if acts.last() is Log {
            1nat
        } else {
            0nat
        }
    }
}

/// The command words are told apart by their length and first two
/// characters.
proof fn lemma_command_words()
    ensures
        !logs_line("PING"@),
        !logs_line("PONG"@),
        !logs_line("353"@),
        !logs_line("433"@),
        "PRIVMSG"@ != "PING"@,
        "PRIVMSG"@ != "PONG"@,
        "del"@ != "shows"@,
        "del"@ != "+"@,
        "del"@ != "-"@,
        "del"@ != "add"@,
        "PING"@.len() == 4 && "PING"@[0] == 'P' && "PING"@[1] == 'I',
        "PONG"@.len() == 4 && "PONG"@[0] == 'P' && "PONG"@[1] == 'O',
        "PRIVMSG"@.len() == 7 && "PRIVMSG"@[0] == 'P' && "PRIVMSG"@[1] == 'R',
        "NOTICE"@.len() == 6 && "NOTICE"@[0] == 'N' && "NOTICE"@[1] == 'O',
        "332"@.len() == 3 && "332"@[0] == '3' && "332"@[1] == '3',
        "TOPIC"@.len() == 5 && "TOPIC"@[0] == 'T' && "TOPIC"@[1] == 'O',
        "353"@.len() == 3 && "353"@[0] == '3' && "353"@[1] == '5',
        "433"@.len() == 3 && "433"@[0] == '4' && "433"@[1] == '3',
        "JOIN"@.len() == 4 && "JOIN"@[0] == 'J' && "JOIN"@[1] == 'O',
        "QUIT"@.len() == 4 && "QUIT"@[0] == 'Q' && "QUIT"@[1] == 'U',
        "PART"@.len() == 4 && "PART"@[0] == 'P' && "PART"@[1] == 'A',
        "ERROR"@.len() == 5 && "ERROR"@[0] == 'E' && "ERROR"@[1] == 'R',
        "del"@.len() == 3 && "del"@[0] == 'd' && "del"@[1] == 'e',
        "shows"@.len() == 5 && "shows"@[0] == 's' && "shows"@[1] == 'h',
        "+"@.len() == 1 && "+"@[0] == '+',
        "-"@.len() == 1 && "-"@[0] == '-',
        "add"@.len() == 3 && "add"@[0] == 'a' && "add"@[1] == 'd',
{
    reveal_strlit("PING");
    assert("PING"@.len() == 4 && "PING"@[0] == 'P' && "PING"@[1] == 'I');
    reveal_strlit("PONG");
    assert("PONG"@.len() == 4 && "PONG"@[0] == 'P' && "PONG"@[1] == 'O');
    reveal_strlit("PRIVMSG");
    assert("PRIVMSG"@.len() == 7 && "PRIVMSG"@[0] == 'P' && "PRIVMSG"@[1] == 'R');
    reveal_strlit("NOTICE");
    assert("NOTICE"@.len() == 6 && "NOTICE"@[0] == 'N' && "NOTICE"@[1] == 'O');
    reveal_strlit("332");
    assert("332"@.len() == 3 && "332"@[0] == '3' && "332"@[1] == '3');
    reveal_strlit("TOPIC");
    assert("TOPIC"@.len() == 5 && "TOPIC"@[0] == 'T' && "TOPIC"@[1] == 'O');
    reveal_strlit("353");
    assert("353"@.len() == 3 && "353"@[0] == '3' && "353"@[1] == '5');
    reveal_strlit("433");
    assert("433"@.len() == 3 && "433"@[0] == '4' && "433"@[1] == '3');
    reveal_strlit("JOIN");
    assert("JOIN"@.len() == 4 && "JOIN"@[0] == 'J' && "JOIN"@[1] == 'O');
    reveal_strlit("QUIT");
    assert("QUIT"@.len() == 4 && "QUIT"@[0] == 'Q' && "QUIT"@[1] == 'U');
    reveal_strlit("PART");
    assert("PART"@.len() == 4 && "PART"@[0] == 'P' && "PART"@[1] == 'A');
    reveal_strlit("ERROR");
    assert("ERROR"@.len() == 5 && "ERROR"@[0] == 'E' && "ERROR"@[1] == 'R');
    reveal_strlit("del");
    assert("del"@.len() == 3 && "del"@[0] == 'd' && "del"@[1] == 'e');
    reveal_strlit("shows");
    assert("shows"@.len() == 5 && "shows"@[0] == 's' && "shows"@[1] == 'h');
    reveal_strlit("+");
    assert("+"@.len() == 1 && "+"@[0] == '+');
    reveal_strlit("-");
    assert("-"@.len() == 1 && "-"@[0] == '-');
    reveal_strlit("add");
    assert("add"@.len() == 3 && "add"@[0] == 'a' && "add"@[1] == 'd');
}

proof fn lemma_count_one(a: ActionView)
    ensures
        log_count(seq![a]) == if a is Log {
            1nat
        } else {
            0nat
        },
{
    assert(seq![a].drop_last() =~= Seq::<ActionView>::empty());
    assert(seq![a].last() == a);
    assert(log_count(Seq::<ActionView>::empty()) == 0);
}

proof fn lemma_count_two(a: ActionView, b: ActionView)
    ensures
        log_count(seq![a, b]) == (if a is Log {
            1nat
        } else {
            0nat
        }) + (if b is Log {
            1nat
        } else {
            0nat
        }),
{
    assert(seq![a, b].drop_last() =~= seq![a]);
    assert(seq![a, b].last() == b);
    lemma_count_one(a);
}

/// A line is written to the log (one log entry, so one step of the line
/// count) exactly when its command is `PRIVMSG`, `NOTICE`, `332`, `TOPIC`,
/// `JOIN`, `QUIT`, `PART` or `ERROR`; any other line writes nothing.
pub proof fn law_one_log_entry_per_line(
    l: IrcLineView,
    raw: Seq<char>,
    nick: Seq<char>,
    channel: Seq<char>,
    mesi_enabled: bool,
)
    ensures
        log_count(reaction(l, raw, nick, channel, mesi_enabled)) == if logs_line(l.command) {
            1nat
        } else {
            0nat
        },
{
    lemma_command_words();
    let c = l.command;
    if c == "PING"@ {
        lemma_count_one(ActionView::Send("PONG "@ + l.to + "\r\n"@));
    } else if c == "PONG"@ {
    } else if c == "PRIVMSG"@ {
        let log = ActionView::Log("<"@ + l.from + ">"@ + l.opt);
        lemma_count_one(log);
        lemma_count_two(ActionView::Mesi, log);
    } else if c == "NOTICE"@ {
        lemma_count_one(ActionView::Log("="@ + l.from + "="@ + l.opt));
    } else if c == "332"@ || c == "TOPIC"@ {
        lemma_count_two(
            ActionView::Log("<"@ + l.from + ">/topic "@ + l.opt),
            ActionView::SetTopic(l.opt),
        );
    } else if c == "353"@ {
        lemma_count_one(ActionView::SetMember(l.opt));
    } else if c == "433"@ {
        lemma_count_one(ActionView::NickInUse);
    } else if c == "JOIN"@ || c == "QUIT"@ || c == "PART"@ {
        lemma_count_one(ActionView::Log(raw));
        lemma_count_two(ActionView::Send("NAMES "@ + channel), ActionView::Log(raw));
    } else if c == "ERROR"@ {
        lemma_count_one(ActionView::Log(raw));
    } else {
        lemma_count_one(ActionView::Echo);
    }
}

/// The log after the lines `msgs` were added in order to an empty log of
/// capacity `cap`.
pub open spec fn log_after(msgs: Seq<Seq<char>>, cap: nat) -> Seq<Seq<char>>
    decreases msgs.len(),
{
    if msgs.len() == 0 {
        Seq::<Seq<char>>::empty()
    } else {
        logged(log_after(msgs.drop_last(), cap), cap, msgs.last())
    }
}

/// After any run of lines, the log holds the last `cap` of them (all of
/// them when there are fewer), newest first.
pub proof fn law_log_window(msgs: Seq<Seq<char>>, cap: nat)
    requires
        cap >= 1,
    ensures
        log_after(msgs, cap) == msgs.subrange(
            if msgs.len() > cap {
                msgs.len() - cap
            } else {
                0
            },
            msgs.len() as int,
        ).reverse(),
    decreases msgs.len(),
{
    let n = msgs.len() as int;
    if n > 0 {
        law_log_window(msgs.drop_last(), cap);
        let prev = msgs.drop_last();
        let lo_prev: int = if prev.len() > cap {
            prev.len() - cap
        } else {
            0
        };
        let lo: int = if n > cap {
            n - cap
        } else {
            0
        };
        let w = prev.subrange(lo_prev, n - 1).reverse();
        let keep: int = if w.len() < cap - 1 {
            w.len() as int
        } else {
            cap - 1
        };
        assert(log_after(msgs, cap) == seq![msgs.last()] + w.take(keep));
        assert(seq![msgs.last()] + w.take(keep) =~= msgs.subrange(lo, n).reverse());
    } else {
        assert(msgs.subrange(0, 0).reverse() =~= Seq::<Seq<char>>::empty());
    }
}


/// A roster command that names an existing party `n` (`:mesi n command
/// [argument]`) is about party `n`, which becomes current: members are
/// added to and removed from party `n`, `del` closes party `n`, and `shows`
/// lists to the target; `add` adds a party, which becomes current.  The
/// argument is the rest of the text, trimmed, or the sender when there is
/// none.
pub proof fn law_numbered_command_uses_picked_party(
    now: nat,
    ids: Seq<i32>,
    from: Seq<char>,
    to: Seq<char>,
    opt: Seq<char>,
    n: nat,
)
    requires
        split_on(opt, ' ').len() >= 3,
        parse_unsigned(split_on(opt, ' ')[1], usize::MAX as nat) == Some(n),
        n < ids.len(),
    ensures
        ({
            let sp = split_on(opt, ' ');
            let step = roster_step(now, ids, from, to, opt, true);
            let arg = if sp.len() == 3 {
                from
            } else {
                trim(join_with(sp.subrange(3, sp.len() as int), seq![' ']))
            };
            &&& sp[2] == "+"@ ==> step == (n, Ok::<RequestView, MesiFault>(
                RequestView::AddMember(arg, ids[n as int]),
            ))
            &&& sp[2] == "-"@ ==> step == (n, Ok::<RequestView, MesiFault>(
                RequestView::DelMember(arg, ids[n as int]),
            ))
            &&& sp[2] == "del"@ ==> step == (n, Ok::<RequestView, MesiFault>(
                RequestView::DisableParty(ids[n as int]),
            ))
            &&& sp[2] == "shows"@ ==> step == (n, Ok::<RequestView, MesiFault>(
                RequestView::Shows(to),
            ))
            &&& sp[2] == "add"@ ==> step == (ids.len(), Ok::<RequestView, MesiFault>(
                RequestView::AddParty(arg),
            ))
        }),
{
    lemma_command_words();
}

/// A roster command without a party number is about the current party
/// `now` (when it exists) and keeps it current, except `add`, which makes
/// the new party current.
pub proof fn law_unnumbered_command_uses_current_party(
    now: nat,
    ids: Seq<i32>,
    from: Seq<char>,
    to: Seq<char>,
    opt: Seq<char>,
)
    requires
        split_on(opt, ' ').len() >= 2,
        now < ids.len(),
    ensures
        ({
            let sp = split_on(opt, ' ');
            let step = roster_step(now, ids, from, to, opt, false);
            let arg = if sp.len() == 2 {
                from
            } else {
                trim(join_with(sp.subrange(2, sp.len() as int), seq![' ']))
            };
            &&& sp[1] == "+"@ ==> step == (now, Ok::<RequestView, MesiFault>(
                RequestView::AddMember(arg, ids[now as int]),
            ))
            &&& sp[1] == "-"@ ==> step == (now, Ok::<RequestView, MesiFault>(
                RequestView::DelMember(arg, ids[now as int]),
            ))
            &&& sp[1] == "del"@ ==> step == (now, Ok::<RequestView, MesiFault>(
                RequestView::DisableParty(ids[now as int]),
            ))
            &&& sp[1] == "add"@ ==> step == (ids.len(), Ok::<RequestView, MesiFault>(
                RequestView::AddParty(arg),
            ))
        }),
{
    lemma_command_words();
}

/// With the roster disabled no line is ever handed to it; with it enabled,
/// a chat line whose text starts with `:mesi` or `:meshi` is handed to it
/// first and then logged.
pub proof fn law_roster_only_when_enabled(
    l: IrcLineView,
    raw: Seq<char>,
    nick: Seq<char>,
    channel: Seq<char>,
)
    ensures
        forall|i: int|
            0 <= i < reaction(l, raw, nick, channel, false).len() ==> !(#[trigger] reaction(
                l,
                raw,
                nick,
                channel,
                false,
            )[i] is Mesi),
        l.command == "PRIVMSG"@ && (is_prefix(":mesi"@, l.opt) || is_prefix(":meshi"@, l.opt))
            ==> reaction(l, raw, nick, channel, true) == seq![
            ActionView::Mesi,
            ActionView::Log("<"@ + l.from + ">"@ + l.opt),
        ],
{
    lemma_command_words();
}

/// A `JOIN`, `QUIT` or `PART` from someone else asks the server for the
/// channel's names and logs the raw line; the companion's own is only
/// logged.  The three commands react alike.
pub proof fn law_membership_change_asks_names(
    l: IrcLineView,
    raw: Seq<char>,
    nick: Seq<char>,
    channel: Seq<char>,
    mesi_enabled: bool,
)
    requires
        l.command == "JOIN"@ || l.command == "QUIT"@ || l.command == "PART"@,
    ensures
        l.from != nick ==> reaction(l, raw, nick, channel, mesi_enabled) == seq![
            ActionView::Send("NAMES "@ + channel),
            ActionView::Log(raw),
        ],
        l.from == nick ==> reaction(l, raw, nick, channel, mesi_enabled) == seq![
            ActionView::Log(raw),
        ],
{
    lemma_command_words();
}

/// What each of the other commands calls for, stated outright.
pub proof fn law_reaction_by_command(
    l: IrcLineView,
    raw: Seq<char>,
    nick: Seq<char>,
    channel: Seq<char>,
    mesi_enabled: bool,
)
    ensures
        l.command == "PING"@ ==> reaction(l, raw, nick, channel, mesi_enabled) == seq![
            ActionView::Send("PONG "@ + l.to + "\r\n"@),
        ],
        l.command == "PONG"@ ==> reaction(l, raw, nick, channel, mesi_enabled).len() == 0,
        l.command == "PRIVMSG"@ && !(is_prefix(":mesi"@, l.opt) || is_prefix(":meshi"@, l.opt))
            ==> reaction(l, raw, nick, channel, mesi_enabled) == seq![
            ActionView::Log("<"@ + l.from + ">"@ + l.opt),
        ],
        l.command == "NOTICE"@ ==> reaction(l, raw, nick, channel, mesi_enabled) == seq![
            ActionView::Log("="@ + l.from + "="@ + l.opt),
        ],
        l.command == "332"@ || l.command == "TOPIC"@ ==> reaction(
            l,
            raw,
            nick,
            channel,
            mesi_enabled,
        ) == seq![
            ActionView::Log("<"@ + l.from + ">/topic "@ + l.opt),
            ActionView::SetTopic(l.opt),
        ],
        l.command == "353"@ ==> reaction(l, raw, nick, channel, mesi_enabled) == seq![
            ActionView::SetMember(l.opt),
        ],
        l.command == "433"@ ==> reaction(l, raw, nick, channel, mesi_enabled) == seq![
            ActionView::NickInUse,
        ],
        l.command == "ERROR"@ ==> reaction(l, raw, nick, channel, mesi_enabled) == seq![
            ActionView::Log(raw),
        ],
{
    lemma_command_words();
}

/// `c` has no space, so it is one word.
proof fn lemma_one_word(c: Seq<char>)
    requires
        !c.contains(' '),
    ensures
        split_on(c, ' ') == seq![c],
{
    lemma_split_no_sep(c, ' ');
}

/// A line without a `:` prefix, `C T rest` with `C` and `T` single words,
/// reads as command `C` to `T` with `rest` (all of it, spaces included) as
/// its remaining text, and no sender.
pub proof fn law_unprefixed_line_parts(c: Seq<char>, t: Seq<char>, rest: Seq<char>)
    requires
        !c.contains(' '),
        !t.contains(' '),
        !is_prefix(seq![':'], c),
    ensures
        parse_line_spec(c + seq![' '] + t + seq![' '] + rest) == LineParseView::Parsed(
            IrcLineView { from: Seq::<char>::empty(), command: c, to: t, opt: rest },
        ),
{
    let tail = t + seq![' '] + rest;
    assert(c + seq![' '] + t + seq![' '] + rest =~= c + seq![' '] + tail);
    lemma_split_concat(c, tail, ' ');
    lemma_split_concat(t, rest, ' ');
    lemma_one_word(c);
    lemma_one_word(t);
    lemma_split_nonempty(rest, ' ');
    let sp = split_on(c + seq![' '] + t + seq![' '] + rest, ' ');
    assert(sp =~= seq![c, t] + split_on(rest, ' '));
    assert(sp.subrange(2, sp.len() as int) =~= split_on(rest, ' '));
    lemma_join_split(rest, ' ');
}

/// A line `:nick!host C T rest` reads as sent by `nick`, command `C` to
/// `T`, with `rest` as its remaining text.
pub proof fn law_prefixed_line_parts(
    nick: Seq<char>,
    host: Seq<char>,
    c: Seq<char>,
    t: Seq<char>,
    rest: Seq<char>,
)
    requires
        !nick.contains(' '),
        !nick.contains('!'),
        !host.contains(' '),
        !c.contains(' '),
        !t.contains(' '),
    ensures
        parse_line_spec(
            seq![':'] + nick + seq!['!'] + host + seq![' '] + c + seq![' '] + t + seq![' '] + rest,
        ) == LineParseView::Parsed(IrcLineView { from: nick, command: c, to: t, opt: rest }),
{
    let w0 = seq![':'] + nick + seq!['!'] + host;
    let tail2 = t + seq![' '] + rest;
    let tail1 = c + seq![' '] + tail2;
    let line = seq![':'] + nick + seq!['!'] + host + seq![' '] + c + seq![' '] + t + seq![' ']
        + rest;
    assert(line =~= w0 + seq![' '] + tail1);
    assert(!w0.contains(' ')) by {
        if w0.contains(' ') {
            let k = choose|k: int| 0 <= k < w0.len() && w0[k] == ' ';
            if 1 <= k < 1 + nick.len() {
                assert(nick[k - 1] == ' ');
            } else if k > 1 + nick.len() {
                assert(host[k - 2 - nick.len()] == ' ');
            }
        }
    }
    lemma_split_concat(w0, tail1, ' ');
    lemma_split_concat(c, tail2, ' ');
    lemma_split_concat(t, rest, ' ');
    lemma_one_word(w0);
    lemma_one_word(c);
    lemma_one_word(t);
    lemma_split_nonempty(rest, ' ');
    let sp = split_on(line, ' ');
    assert(sp =~= seq![w0, c, t] + split_on(rest, ' '));
    assert(is_prefix(seq![':'], sp[0])) by {
        assert(sp[0].subrange(0, 1) =~= seq![':']);
    }
    assert(sp[0].drop_first() =~= nick + seq!['!'] + host);
    lemma_split_concat(nick, host, '!');
    lemma_split_no_sep(nick, '!');
    assert(sp.subrange(3, sp.len() as int) =~= split_on(rest, ' '));
    lemma_join_split(rest, ' ');
}

/// A message typed on the web starting with `/` is sent as a raw command:
/// exactly the text after the `/`.  Any other message is said in the
/// channel as `:nick PRIVMSG channel :message`.
pub proof fn law_web_message_forms(nick: Seq<char>, channel: Seq<char>, x: Seq<char>)
    ensures
        web_message(nick, channel, seq!['/'] + x) == x,
        x.len() == 0 || x[0] != '/' ==> web_message(nick, channel, x) == seq![':'] + nick
            + seq![' ', 'P', 'R', 'I', 'V', 'M', 'S', 'G', ' '] + channel + seq![' ', ':'] + x,
{
    reveal_strlit("/");
    reveal_strlit(":");
    reveal_strlit(" PRIVMSG ");
    reveal_strlit(" :");
    assert((seq!['/'] + x).subrange(0, 1) =~= "/"@);
    assert((seq!['/'] + x).drop_first() =~= x);
    if x.len() == 0 || x[0] != '/' {
        if is_prefix("/"@, x) {
            assert(x.subrange(0, 1)[0] == '/');
        }
    }
}

} // verus!

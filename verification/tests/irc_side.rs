use mesi::irc::{
    decode_incoming, encode_outgoing, ends_session, line_is_truncated, log_entry, login_commands,
    parse_line, react, IrcAction, IrcLine, IrcMesg,
};

fn parsed(line: &str) -> IrcLine {
    assert!(!line_is_truncated(line));
    parse_line(line).expect("a line with parts")
}

fn describe(actions: &[IrcAction]) -> Vec<String> {
    actions
        .iter()
        .map(|a| match a {
            IrcAction::Send(s) => format!("send {}", s),
            IrcAction::Mesi => "mesi".to_string(),
            IrcAction::Log(s) => format!("log {}", s),
            IrcAction::SetTopic(s) => format!("topic {}", s),
            IrcAction::SetMember(s) => format!("member {}", s),
            IrcAction::NickInUse => "nick in use".to_string(),
            IrcAction::Echo => "echo".to_string(),
        })
        .collect()
}

#[test]
fn log_keeps_newest_lines_first() {
    let mut m = IrcMesg::new(2);
    assert_eq!(m.id(), 0);
    assert!(m.log().is_empty());
    m.append("a".to_string());
    m.append("b".to_string());
    m.append("c".to_string()).set_topic("t".to_string());
    assert_eq!(m.log(), vec!["c".to_string(), "b".to_string()]);
    assert_eq!(m.id(), 3);
    assert_eq!(m.cap(), 2);
    assert_eq!(m.topic(), "t");
}

#[test]
fn log_of_one_line_keeps_only_the_last() {
    let mut m = IrcMesg::new(1);
    m.append("first".to_string());
    m.append("second".to_string());
    assert_eq!(m.log(), vec!["second".to_string()]);
    assert_eq!(m.id(), 2);
    m.set_member("alice bob".to_string());
    assert_eq!(m.member(), "alice bob");
    assert_eq!(m.topic(), "");
}

#[test]
fn log_entry_adds_clock_and_line_end() {
    assert_eq!(log_entry("12:34:56", "<bob>hi"), "12:34:56<bob>hi\n");
}

#[test]
fn parse_prefixed_line() {
    let l = parsed(":nick!user@host PRIVMSG #chan :hello  world");
    assert_eq!(l.from, "nick");
    assert_eq!(l.command, "PRIVMSG");
    assert_eq!(l.to, "#chan");
    assert_eq!(l.opt, ":hello  world");
}

#[test]
fn parse_line_without_prefix() {
    let l = parsed("PING :irc.example.net");
    assert_eq!(l.from, "");
    assert_eq!(l.command, "PING");
    assert_eq!(l.to, ":irc.example.net");
    assert_eq!(l.opt, "");
}

#[test]
fn parse_short_and_truncated_lines() {
    assert!(parse_line("PING").is_none());
    assert!(parse_line("").is_none());
    assert!(!line_is_truncated("PING"));
    assert!(!line_is_truncated("PING x"));
    assert!(!line_is_truncated(":server PING x"));
    assert!(line_is_truncated(":server PING"));
}

#[test]
fn ping_gets_pong() {
    let raw = "PING :irc.example.net";
    let acts = react(&parsed(raw), raw, "bot", "#c", true);
    assert_eq!(describe(&acts), vec!["send PONG :irc.example.net\r\n"]);
}

#[test]
fn pong_is_ignored() {
    let raw = ":server PONG server :x";
    let acts = react(&parsed(raw), raw, "bot", "#c", true);
    assert!(acts.is_empty());
}

#[test]
fn privmsg_is_logged_and_may_call_roster() {
    let raw = ":ann!u@h PRIVMSG #c :mesi shows";
    let acts = react(&parsed(raw), raw, "bot", "#c", true);
    assert_eq!(describe(&acts), vec!["mesi", "log <ann>:mesi shows"]);
    let acts = react(&parsed(raw), raw, "bot", "#c", false);
    assert_eq!(describe(&acts), vec!["log <ann>:mesi shows"]);
    let raw = ":ann!u@h PRIVMSG #c :meshi add lunch";
    let acts = react(&parsed(raw), raw, "bot", "#c", true);
    assert_eq!(describe(&acts), vec!["mesi", "log <ann>:meshi add lunch"]);
    let raw = ":ann!u@h PRIVMSG #c :hello";
    let acts = react(&parsed(raw), raw, "bot", "#c", true);
    assert_eq!(describe(&acts), vec!["log <ann>:hello"]);
}

#[test]
fn notice_topic_and_names() {
    let raw = ":srv NOTICE bot :welcome";
    assert_eq!(describe(&react(&parsed(raw), raw, "bot", "#c", true)), vec!["log =srv=:welcome"]);
    let raw = ":ann TOPIC #c :lunch at noon";
    assert_eq!(
        describe(&react(&parsed(raw), raw, "bot", "#c", true)),
        vec!["log <ann>/topic :lunch at noon", "topic :lunch at noon"]
    );
    let raw = ":srv 332 bot #c :old topic";
    assert_eq!(
        describe(&react(&parsed(raw), raw, "bot", "#c", true)),
        vec!["log <srv>/topic #c :old topic", "topic #c :old topic"]
    );
    let raw = ":srv 353 bot = #c :bot ann";
    assert_eq!(describe(&react(&parsed(raw), raw, "bot", "#c", true)), vec!["member = #c :bot ann"]);
}

#[test]
fn join_from_others_asks_for_names() {
    let raw = ":ann!u@h JOIN #c";
    assert_eq!(
        describe(&react(&parsed(raw), raw, "bot", "#c", true)),
        vec!["send NAMES #c", "log :ann!u@h JOIN #c"]
    );
    let raw = ":bot JOIN #c";
    assert_eq!(describe(&react(&parsed(raw), raw, "bot", "#c", true)), vec!["log :bot JOIN #c"]);
    let raw = ":ann!u@h QUIT :bye";
    assert_eq!(
        describe(&react(&parsed(raw), raw, "bot", "#c", true)),
        vec!["send NAMES #c", "log :ann!u@h QUIT :bye"]
    );
}

#[test]
fn nick_in_use_error_and_other_commands() {
    let raw = ":srv 433 * bot :Nickname is already in use";
    assert_eq!(describe(&react(&parsed(raw), raw, "bot", "#c", true)), vec!["nick in use"]);
    let raw = "ERROR :Closing link";
    assert_eq!(describe(&react(&parsed(raw), raw, "bot", "#c", true)), vec!["log ERROR :Closing link"]);
    let raw = ":srv 001 bot :Welcome";
    assert_eq!(describe(&react(&parsed(raw), raw, "bot", "#c", true)), vec!["echo"]);
}

#[test]
fn login_lines() {
    assert_eq!(
        login_commands("pw", "bot", "#c"),
        vec![
            "PASS pw".to_string(),
            "NICK bot".to_string(),
            "USER bot 0 * :mesi by rust".to_string(),
            ":bot JOIN #c".to_string(),
        ]
    );
}

#[test]
fn quit_ends_session() {
    assert!(ends_session("QUIT :bye"));
    assert!(!ends_session("PRIVMSG #c :QUIT"));
}

#[test]
fn decode_strips_line_end_and_decodes() {
    let raw: Vec<u8> = vec![0x1b, 0x24, 0x42, 0x24, 0x22, 0x1b, 0x28, 0x42, b'!', b'\r', b'\n'];
    assert_eq!(decode_incoming(&raw), "あ!");
    assert_eq!(decode_incoming(b"PING x\r\n"), "PING x");
    assert_eq!(decode_incoming(b"\r\n"), "");
}

#[test]
fn encode_to_iso_2022_jp() {
    assert_eq!(encode_outgoing("あ"), vec![0x1b, 0x24, 0x42, 0x24, 0x22]);
    assert_eq!(encode_outgoing("NICK bot"), b"NICK bot".to_vec());
}

#[test]
fn web_message_reads_back_as_chat_line() {
    let sent = mesi::webs::send_message("bot", "#c", "lunch  at noon?");
    let l = parsed(&sent);
    assert_eq!(l.from, "bot");
    assert_eq!(l.command, "PRIVMSG");
    assert_eq!(l.to, "#c");
    assert_eq!(l.opt, ":lunch  at noon?");
    let acts = react(&l, &sent, "bot", "#c", true);
    assert_eq!(describe(&acts), vec!["log <bot>:lunch  at noon?"]);
}

#[test]
fn log_window_over_a_run_of_lines() {
    let mut m = IrcMesg::new(3);
    for i in 1..=7u32 {
        m.append(format!("line {}", i));
    }
    assert_eq!(m.log(), vec!["line 7".to_string(), "line 6".to_string(), "line 5".to_string()]);
    assert_eq!(m.id(), 7);
    assert_eq!(m.topic(), "");
    assert_eq!(m.member(), "");
    assert_eq!(m.cap(), 3);
}

#[test]
fn one_log_entry_per_logged_command() {
    let lines = [
        (":a PRIVMSG #c :x", 1),
        (":a NOTICE #c :x", 1),
        (":a 332 bot #c :t", 1),
        (":a TOPIC #c :t", 1),
        (":a JOIN #c", 1),
        (":a QUIT :bye", 1),
        (":a PART #c", 1),
        ("ERROR :closing", 1),
        ("PING :x", 0),
        (":a PONG x", 0),
        (":a 353 bot = #c :a b", 0),
        (":a 433 * bot", 0),
        (":a 001 bot :hi", 0),
    ];
    for (raw, n) in lines.iter() {
        let acts = react(&parsed(raw), raw, "bot", "#c", true);
        let logs = acts.iter().filter(|a| matches!(a, IrcAction::Log(_))).count();
        assert_eq!(logs, *n, "{}", raw);
    }
}

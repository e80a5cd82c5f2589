use mesi::mesi::{
    add_member_change, del_member_change, members_notice, party_notice, shows_listing, Member,
    MemberChange, Mesi, MesiFault, MesiRequest, NewMember, Party,
};
use mesi::search::{grep_files, join_outputs, GrepQuery};
use mesi::webs::{
    dice_message, grep_reply, msg_has_news, order_log_files, party_row, send_message,
    BasicAuthMiddleware, DiceTimer,
};

fn party(id: i32, title: &str, valid: bool) -> Party {
    Party {
        id,
        title: title.to_string(),
        open_time: None,
        create_time: "2019-04-01 12:00:00".to_string(),
        valid,
    }
}

fn member(id: i32, name: &str, pid: i32) -> Member {
    Member { id, name: name.to_string(), pid, create_time: "2019-04-01 12:30:00".to_string() }
}

fn two_parties() -> Vec<Party> {
    vec![party(10, "ramen", true), party(20, "sushi", true)]
}

#[test]
fn roster_shows_lists_to_target() {
    let mut m = Mesi::new();
    match m.recieve("ann", "#c", ":mesi shows", &two_parties()) {
        Ok(MesiRequest::Shows { to }) => assert_eq!(to, "#c"),
        _ => panic!("expected shows"),
    }
    assert_eq!(m.now_project(), 0);
}

#[test]
fn roster_numbered_add_member_selects_party() {
    let mut m = Mesi::new();
    match m.recieve("ann", "#c", ":mesi 1 + taro", &two_parties()) {
        Ok(MesiRequest::AddMember(NewMember { name, pid })) => {
            assert_eq!(name, "taro");
            assert_eq!(pid, 20);
        },
        _ => panic!("expected add member"),
    }
    assert_eq!(m.now_project(), 1);
    match m.recieve("ann", "#c", ":mesi del", &two_parties()) {
        Ok(MesiRequest::DisableParty(pid)) => assert_eq!(pid, 20),
        _ => panic!("expected disable"),
    }
}

#[test]
fn roster_member_defaults_to_sender_and_is_trimmed() {
    let mut m = Mesi::new();
    match m.recieve("ann", "#c", ":mesi +", &two_parties()) {
        Ok(MesiRequest::AddMember(NewMember { name, pid })) => {
            assert_eq!(name, "ann");
            assert_eq!(pid, 10);
        },
        _ => panic!("expected add member"),
    }
    match m.recieve("ann", "#c", ":mesi - jiro  ", &two_parties()) {
        Ok(MesiRequest::DelMember(NewMember { name, pid })) => {
            assert_eq!(name, "jiro");
            assert_eq!(pid, 10);
        },
        _ => panic!("expected del member"),
    }
}

#[test]
fn roster_number_past_end_picks_last_party() {
    let mut m = Mesi::new();
    match m.recieve("ann", "#c", ":mesi 5 del", &two_parties()) {
        Ok(MesiRequest::DisableParty(pid)) => assert_eq!(pid, -1),
        _ => panic!("expected disable"),
    }
    assert_eq!(m.now_project(), 1);
}

#[test]
fn roster_without_parties_uses_no_party() {
    let mut m = Mesi::new();
    match m.recieve("ann", "#c", ":mesi 0 + taro", &Vec::new()) {
        Ok(MesiRequest::AddMember(NewMember { pid, .. })) => assert_eq!(pid, -1),
        _ => panic!("expected add member"),
    }
    assert_eq!(m.now_project(), 0);
}

#[test]
fn roster_add_party_becomes_current() {
    let mut m = Mesi::new();
    match m.recieve("ann", "#c", ":mesi add curry  night ", &two_parties()) {
        Ok(MesiRequest::AddParty(p)) => assert_eq!(p.title, "curry  night"),
        _ => panic!("expected add party"),
    }
    assert_eq!(m.now_project(), 2);
}

#[test]
fn roster_unknown_and_short_commands() {
    let mut m = Mesi::new();
    match m.recieve("ann", "#c", ":mesi dance now", &two_parties()) {
        Ok(MesiRequest::Unknown { command, from, opt, to }) => {
            assert_eq!(command, "dance");
            assert_eq!(from, "ann");
            assert_eq!(opt, "now");
            assert_eq!(to, "#c");
        },
        _ => panic!("expected unknown"),
    }
    assert!(matches!(m.recieve("ann", "#c", ":mesi", &two_parties()), Ok(MesiRequest::Nothing)));
}

#[test]
fn roster_faults() {
    let mut m = Mesi::new();
    assert_eq!(m.recieve("ann", "#c", ":mesi x1 shows", &two_parties()).err(), Some(MesiFault::BadNumber));
    assert_eq!(m.recieve("ann", "#c", ":mesi 1", &two_parties()).err(), Some(MesiFault::MissingCommand));
    // A full-width digit matches the digit pattern but is no number.
    assert_eq!(
        m.recieve("ann", "#c", ":mesi \u{ff13} shows", &two_parties()).err(),
        Some(MesiFault::BadNumber)
    );
    assert_eq!(m.now_project(), 0);
    assert!(matches!(
        m.recieve_numbered("ann", "#c", ":mesi 1 del", &two_parties(), true),
        MesiRequest::DisableParty(20)
    ));
    assert_eq!(m.now_project(), 1);
    assert!(matches!(
        m.recieve_numbered("ann", "#c", ":mesi 1 del", &two_parties(), false),
        MesiRequest::Unknown { .. }
    ));
}

#[test]
fn member_changes() {
    let nm = NewMember { name: "taro".to_string(), pid: 10 };
    assert!(matches!(add_member_change(nm, &Vec::new()), MemberChange::Insert(NewMember { pid: 10, .. })));
    let nm = NewMember { name: "taro".to_string(), pid: 10 };
    assert!(matches!(add_member_change(nm, &vec![member(3, "taro", 10)]), MemberChange::Keep));
    assert!(matches!(del_member_change(&vec![member(3, "taro", 10), member(4, "taro", 10)]), MemberChange::Delete(3)));
    assert!(matches!(del_member_change(&Vec::new()), MemberChange::Keep));
}

#[test]
fn notices_for_a_listing() {
    assert_eq!(
        party_notice("#c", 123, &party(10, "ramen", true)),
        "NOTICE #c :123, ramen, 2019-04-01 12:00:00"
    );
    assert_eq!(
        members_notice("#c", &vec![member(1, "ann", 10), member(2, "bob", 10)]),
        "NOTICE #c :ann,bob"
    );
    assert_eq!(members_notice("#c", &Vec::new()), "NOTICE #c :");
}

#[test]
fn auth_needs_both_credentials() {
    let a = BasicAuthMiddleware::new(&"user".to_string(), &"secret".to_string());
    assert!(a.admits(Some("user"), Some("secret")));
    assert!(!a.admits(Some("user"), Some("wrong")));
    assert!(!a.admits(Some("other"), Some("secret")));
    assert!(!a.admits(Some("user"), None));
    assert!(!a.admits(None, None));
}

#[test]
fn news_for_a_reader() {
    assert!(msg_has_news(3, Some("2")));
    assert!(!msg_has_news(3, Some("3")));
    assert!(!msg_has_news(3, Some("+7")));
    assert!(msg_has_news(3, Some("abc")));
    assert!(msg_has_news(3, None));
    assert!(!msg_has_news(0, Some("0")));
    assert!(msg_has_news(1, Some("0")));
}

#[test]
fn web_messages() {
    assert_eq!(send_message("bot", "#c", "/JOIN #x"), "JOIN #x");
    assert_eq!(send_message("bot", "#c", "hi there"), ":bot PRIVMSG #c :hi there");
    assert_eq!(dice_message("bot", "#c", 11), Some(":bot PRIVMSG #c :2D6".to_string()));
    assert_eq!(dice_message("bot", "#c", 10), None);
}

#[test]
fn grep_reply_frames_lines() {
    assert_eq!(grep_reply("{\"a\":1}\n{\"b\":2}\n"), "[{\"a\":1},{\"b\":2},{\"type\":\"\"}]");
    assert_eq!(grep_reply(""), "[{\"type\":\"\"}]");
}

#[test]
fn party_rows() {
    let row = party_row(&party(-5, "ramen", false), &vec![member(1, "ann", -5), member(2, "bob", -5)]);
    assert_eq!(row.id, "-5");
    assert_eq!(row.title, "ramen");
    assert_eq!(row.create, "2019-04-01 12:00:00");
    assert_eq!(row.enable, "×");
    assert_eq!(row.member, "ann, bob");
    assert_eq!(row.number, "2");
    let row = party_row(&party(i32::MIN, "x", true), &Vec::new());
    assert_eq!(row.id, "-2147483648");
    assert_eq!(row.enable, "○");
    assert_eq!(row.member, "");
    assert_eq!(row.number, "0");
}

#[test]
fn log_files_newest_first() {
    let names = vec![
        "irc20200101.txt".to_string(),
        "irc20210101.txt".to_string(),
        "irc20200501.txt".to_string(),
        "irc2020.txt".to_string(),
    ];
    assert_eq!(
        order_log_files(names),
        vec![
            "irc20210101.txt".to_string(),
            "irc20200501.txt".to_string(),
            "irc20200101.txt".to_string(),
            "irc2020.txt".to_string(),
        ]
    );
    assert!(order_log_files(Vec::new()).is_empty());
}

#[test]
fn shows_listing_two_lines_per_party() {
    let members = vec![vec![member(1, "ann", 10), member(2, "bob", 10)], vec![]];
    assert_eq!(
        shows_listing("#c", &two_parties(), &members),
        vec![
            "NOTICE #c :0, ramen, 2019-04-01 12:00:00".to_string(),
            "NOTICE #c :ann,bob".to_string(),
            "NOTICE #c :1, sushi, 2019-04-01 12:00:00".to_string(),
            "NOTICE #c :".to_string(),
        ]
    );
    assert!(shows_listing("#c", &Vec::new(), &Vec::new()).is_empty());
}

#[test]
fn dice_timer_rolls_at_most_every_ten_seconds() {
    let s = 1_000_000_000u64;
    let mut t = DiceTimer::new(0);
    assert_eq!(t.due("bot", "#c", 10 * s), None);
    assert_eq!(t.due("bot", "#c", 11 * s - 1), None);
    assert_eq!(t.due("bot", "#c", 11 * s), Some(":bot PRIVMSG #c :2D6".to_string()));
    t.rolled(11 * s + 5);
    assert_eq!(t.due("bot", "#c", 22 * s), None);
    assert_eq!(t.due("bot", "#c", 22 * s + 5), Some(":bot PRIVMSG #c :2D6".to_string()));
    assert_eq!(t.due("bot", "#c", 5 * s), None);
}

#[test]
fn grep_finds_matches_file_by_file() {
    let files = vec![
        ("irc20210101.txt".to_string(), b"12:00:00<ann>ramen?\n12:01:00<bob>no\n".to_vec()),
        ("irc20200101.txt".to_string(), b"09:00:00<ann>sushi\n".to_vec()),
    ];
    let q = GrepQuery::new("ramen").ok().expect("query compiles");
    let out = grep_files(&q, &files);
    let lines: Vec<&str> = out.lines().collect();
    assert!(lines.iter().any(|l| l.contains("\"type\":\"match\"") && l.contains("ramen?")));
    assert!(!lines.iter().any(|l| l.contains("\"type\":\"match\"") && l.contains("sushi")));
    let first_begin = lines.iter().position(|l| l.contains("\"type\":\"begin\"")).unwrap();
    assert!(lines[first_begin].contains("irc20210101.txt"));
    let q = GrepQuery::new("sushi").ok().expect("query compiles");
    let out = grep_files(&q, &files);
    let begins: Vec<&str> = out.lines().filter(|l| l.contains("\"type\":\"begin\"")).collect();
    assert_eq!(begins.len(), 1);
    assert!(begins[0].contains("irc20200101.txt"));
    assert!(GrepQuery::new("(").is_err());
    assert_eq!(grep_files(&q, &Vec::new()), String::new());
}

#[test]
fn join_outputs_needs_utf8() {
    assert_eq!(join_outputs(&vec![b"ab".to_vec(), b"c".to_vec()]), Some("abc".to_string()));
    assert_eq!(join_outputs(&vec![vec![0xe3, 0x81], vec![0x82]]), Some("あ".to_string()));
    assert_eq!(join_outputs(&vec![vec![0xff]]), None);
}

use rusty::commands::CommandKind;
use rusty::session::{greeting, is_greeting, Action, IrcBot, COOLDOWN_MS, GREETING_COUNT};

const T0: i64 = 1_700_000_000_000;

fn bot() -> IrcBot {
    IrcBot::new("irc.example.net:6697".to_string(), "rusty".to_string(), "#chan".to_string(), T0)
}

fn sends(actions: &[Action]) -> Vec<String> {
    actions
        .iter()
        .filter_map(|a| match a {
            Action::Send(l) => Some(l.clone()),
            _ => None,
        })
        .collect()
}

fn greetings() -> Vec<String> {
    (0..GREETING_COUNT).map(|i| greeting(i).to_string()).collect()
}

fn is_greeting_line(line: &str, target: &str) -> bool {
    let head = format!("PRIVMSG {} :", target);
    line.starts_with(&head) && greetings().contains(&line[head.len()..].to_string())
}

#[test]
fn greeting_word_answered_after_cooldown() {
    let mut b = bot();
    let now = T0 + COOLDOWN_MS + 1;
    let acts = b.handle_line(":alice!a@host PRIVMSG #chan :high", now);
    let out = sends(&acts);
    assert_eq!(out.len(), 1);
    assert!(is_greeting_line(&out[0], "#chan"), "{}", out[0]);
    assert_eq!(b.last_greet, now);
    assert!(matches!(&acts[0], Action::SeeIdent(p) if p.nick == "alice" && p.host == "host"));
}

#[test]
fn repost_by_another_nick_is_announced() {
    let mut b = bot();
    let first = b.handle_line(":bob!b@host PRIVMSG #chan :check out http://example.com/x", T0);
    assert!(sends(&first).is_empty());
    let second = b.handle_line(":carol!c@host PRIVMSG #chan :http://example.com/x is great", T0 + 1000);
    let out = sends(&second);
    assert_eq!(out.len(), 1);
    let line = &out[0];
    assert!(line.starts_with("PRIVMSG #chan :repost: http://example.com/x (first seen at "), "{}", line);
    assert!(line.ends_with(" by bob / repost count: 2)"), "{}", line);
    assert!(line.contains("2023"), "{}", line);
}

#[test]
fn ping_gets_exactly_one_pong() {
    let mut b = bot();
    let acts = b.handle_line("PING :abc123", T0);
    assert_eq!(acts.len(), 1);
    assert_eq!(sends(&acts), vec!["PONG :abc123".to_string()]);
}

#[test]
fn repost_by_same_nick_is_silent() {
    let mut b = bot();
    assert!(b.handle_url("#chan", "bob", "example.com/a", T0).is_none());
    assert!(b.handle_url("#chan", "bob", "example.com/a", T0 + 5).is_none());
    assert_eq!(b.seen_urls.len(), 1);
    assert_eq!(b.seen_urls[0].count, 1);
    assert_eq!(b.seen_urls[0].owner, "bob");
    let notice = b.handle_url("#chan", "carol", "example.com/a", T0 + 9).unwrap();
    assert!(notice.ends_with("by bob / repost count: 2)"));
    assert_eq!(b.seen_urls[0].count, 2);
    let again = b.handle_url("#chan", "dave", "example.com/a", T0 + 10).unwrap();
    assert!(again.ends_with("by bob / repost count: 3)"));
}

#[test]
fn scrape_urls_handles_each_link_in_order() {
    let mut b = bot();
    let links = vec!["a.com".to_string(), "b.com".to_string(), "a.com".to_string()];
    let out = b.scrape_urls("#chan", "bob", &links, T0);
    assert!(out.is_empty());
    assert_eq!(b.seen_urls.len(), 2);
    let out = b.scrape_urls("#chan", "eve", &links, T0 + 1);
    assert_eq!(out.len(), 3);
    assert!(out[2].ends_with("repost count: 3)"));
}

#[test]
fn greetings_within_cooldown_send_once() {
    let mut b = bot();
    let t1 = T0 + COOLDOWN_MS + 1;
    let a = b.handle_line(":alice!a@h PRIVMSG #chan :hello", t1);
    let c = b.handle_line(":bob!b@h PRIVMSG #chan :hi", t1 + COOLDOWN_MS - 1);
    assert_eq!(sends(&a).len() + sends(&c).len(), 1);
    assert_eq!(b.last_greet, t1);
}

#[test]
fn greetings_apart_send_twice() {
    let mut b = bot();
    let t1 = T0 + COOLDOWN_MS + 1;
    let a = b.handle_line(":alice!a@h PRIVMSG #chan :hello", t1);
    let c = b.handle_line(":bob!b@h PRIVMSG #chan :hi", t1 + COOLDOWN_MS + 1);
    assert_eq!(sends(&a).len(), 1);
    assert_eq!(sends(&c).len(), 1);
    assert_eq!(b.last_greet, t1 + COOLDOWN_MS + 1);
}

#[test]
fn greet_respects_cooldown() {
    let mut b = bot();
    assert!(b.greet("#chan", T0 + COOLDOWN_MS - 1, 0).is_none());
    assert_eq!(b.last_greet, T0);
    assert_eq!(b.greet("#chan", T0 + COOLDOWN_MS, 1), Some("PRIVMSG #chan :high".to_string()));
    assert_eq!(b.last_greet, T0 + COOLDOWN_MS);
}

#[test]
fn ignored_nick_has_no_effect() {
    let mut b = bot();
    b.set_ignore(Some(vec!["troll".to_string()]));
    let acts = b.handle_line(":troll!t@h PRIVMSG #chan :hello http://spam.example/x <3", T0 + COOLDOWN_MS + 1);
    assert!(acts.is_empty());
    assert!(b.seen_urls.is_empty());
    assert_eq!(b.last_greet, T0);
    assert!(b.is_ignored("troll"));
    assert!(!b.is_ignored("alice"));
}

#[test]
fn unknown_command_does_nothing() {
    let mut b = bot();
    let acts = b.handle_line(":alice!a@h PRIVMSG #chan :!frobnicate now", T0);
    assert_eq!(acts.len(), 1);
    assert!(matches!(&acts[0], Action::SeeIdent(_)));
}

#[test]
fn known_command_runs_with_trimmed_rest() {
    let mut b = bot();
    let acts = b.handle_line(":alice!a@h PRIVMSG #chan :!weather   boston  ", T0);
    assert_eq!(acts.len(), 2);
    match &acts[1] {
        Action::Run(k, m, rest) => {
            assert_eq!(*k, CommandKind::Weather);
            assert_eq!(rest, "boston");
            assert_eq!(m.args[0], "#chan");
            assert_eq!(m.prefix.nick, "alice");
        }
        _ => panic!("expected a command"),
    }
    let acts = b.handle_line(":alice!a@h PRIVMSG #chan :!kudos", T0);
    assert!(matches!(&acts[1], Action::Run(CommandKind::Kudos, _, rest) if rest.is_empty()));
}

#[test]
fn address_to_the_bot_is_greeted() {
    let mut b = bot();
    let acts = b.handle_line(":alice!a@h PRIVMSG #chan :rusty: how are you", T0 + COOLDOWN_MS + 1);
    let out = sends(&acts);
    assert_eq!(out.len(), 1);
    assert!(is_greeting_line(&out[0], "#chan"));
}

#[test]
fn heart_gets_a_heart() {
    let mut b = bot();
    let acts = b.handle_line(":alice!a@h PRIVMSG #chan :i <3 you", T0);
    assert_eq!(sends(&acts), vec!["PRIVMSG #chan :\u{2764}\u{fe0f}".to_string()]);
    let acts = b.handle_line(":alice!a@h PRIVMSG #chan :<3x", T0);
    assert!(sends(&acts).is_empty());
}

#[test]
fn other_channel_is_ignored() {
    let mut b = bot();
    let acts = b.handle_line(":alice!a@h PRIVMSG #other :hello", T0 + COOLDOWN_MS + 1);
    assert!(acts.is_empty());
}

#[test]
fn welcome_joins_then_greets_when_allowed() {
    let mut b = bot();
    let acts = b.handle_line(":srv 001 rusty :Welcome", T0);
    assert_eq!(sends(&acts), vec!["JOIN :#chan".to_string()]);
    let acts = b.handle_line(":srv 001 rusty :Welcome", T0 + COOLDOWN_MS + 1);
    let out = sends(&acts);
    assert_eq!(out.len(), 2);
    assert_eq!(out[0], "JOIN :#chan");
    assert!(is_greeting_line(&out[1], "#chan"));
}

#[test]
fn malformed_and_other_lines_do_nothing() {
    let mut b = bot();
    assert!(b.handle_line("", T0).is_empty());
    assert!(b.handle_line(":srv", T0).is_empty());
    assert!(b.handle_line(":srv NOTICE * :hi", T0).is_empty());
}

#[test]
fn buffer_lines_until_blank() {
    let mut b = bot();
    let acts = b.handle_message("PING :a\r\nPING :b\r\n\r\nPING :c\r\n", T0);
    assert_eq!(
        sends(&acts),
        vec!["PONG :a".to_string(), "PONG :b".to_string(), "PONG :c".to_string()]
    );
    let acts = b.handle_message("\nPING :abc123", T0);
    assert_eq!(sends(&acts), vec!["PONG :abc123".to_string()]);
    let acts = b.handle_message(":srv\r\nPRIVMSG\r\nPING :x\r\n", T0);
    assert_eq!(sends(&acts), vec!["PONG :x".to_string()]);
}

#[test]
fn greeting_at_exactly_the_cooldown() {
    let mut b = bot();
    let acts = b.handle_line(":srv 001 rusty :Welcome", T0 + COOLDOWN_MS);
    let out = sends(&acts);
    assert_eq!(out.len(), 2);
    assert!(is_greeting_line(&out[1], "#chan"));
    let mut b = bot();
    let acts = b.handle_line(":alice!a@h PRIVMSG #chan :rusty: hey", T0 + COOLDOWN_MS);
    assert_eq!(sends(&acts).len(), 1);
    assert_eq!(b.last_greet, T0 + COOLDOWN_MS);
}

#[test]
fn ignore_list_concerns_chat_lines_only() {
    let mut b = bot();
    b.set_ignore(Some(vec!["".to_string()]));
    let acts = b.handle_line("PING :abc123", T0);
    assert_eq!(sends(&acts), vec!["PONG :abc123".to_string()]);
    let acts = b.handle_line(":srv 001 rusty :Welcome", T0);
    assert_eq!(sends(&acts), vec!["JOIN :#chan".to_string()]);
}

#[test]
fn greeting_words() {
    assert!(is_greeting("high"));
    assert!(is_greeting("brothers"));
    assert!(!is_greeting("High"));
    assert_eq!(greetings().len(), 13);
}

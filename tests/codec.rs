use rusty::codec::{
    encode, encode_message, is_plain_token, frame, ident_lines, join_line, parse_message, parse_prefix, pong_line,
    quit_line, say_line, Error, IrcMessage, IrcPrefix,
};

fn prefix(host: &str, nick: &str, realname: &str) -> IrcPrefix {
    IrcPrefix { host: host.to_string(), nick: nick.to_string(), realname: realname.to_string() }
}

#[test]
fn parses_full_prefix() {
    let p = parse_prefix(&"alice!a@host.example".to_string());
    assert_eq!(p.nick, "alice");
    assert_eq!(p.realname, "a");
    assert_eq!(p.host, "host.example");
}

#[test]
fn parses_prefix_without_realname() {
    let p = parse_prefix(&"alice@host".to_string());
    assert_eq!(p.nick, "alice");
    assert_eq!(p.realname, "");
    assert_eq!(p.host, "host");
}

#[test]
fn parses_server_prefix_as_host() {
    let p = parse_prefix(&"irc.example.net".to_string());
    assert_eq!(p.nick, "");
    assert_eq!(p.realname, "");
    assert_eq!(p.host, "irc.example.net");
}

#[test]
fn parses_prefix_with_bang_but_no_at() {
    let p = parse_prefix(&"alice!a".to_string());
    assert_eq!(p.nick, "alice");
    assert_eq!(p.realname, "a");
    assert_eq!(p.host, "");
}

#[test]
fn parses_privmsg_with_trailing() {
    let m = parse_message(":alice!a@host PRIVMSG #chan :hello there  friend").unwrap();
    assert_eq!(m.prefix.nick, "alice");
    assert_eq!(m.command, "PRIVMSG");
    assert_eq!(m.args, vec!["#chan".to_string(), "hello there  friend".to_string()]);
}

#[test]
fn parses_ping_without_prefix() {
    let m = parse_message("PING :abc123").unwrap();
    assert_eq!(m.prefix.host, "");
    assert_eq!(m.command, "PING");
    assert_eq!(m.args, vec!["abc123".to_string()]);
}

#[test]
fn parses_numeric_with_middles() {
    let m = parse_message(":irc.example.net 001 rusty :Welcome to the net").unwrap();
    assert_eq!(m.prefix.host, "irc.example.net");
    assert_eq!(m.command, "001");
    assert_eq!(m.args, vec!["rusty".to_string(), "Welcome to the net".to_string()]);
}

#[test]
fn parses_middles_split_on_any_whitespace() {
    let m = parse_message("MODE\t#chan  +o   alice").unwrap();
    assert_eq!(m.command, "MODE");
    assert_eq!(m.args, vec!["#chan".to_string(), "+o".to_string(), "alice".to_string()]);
}

#[test]
fn prefix_followed_directly_by_trailing() {
    let m = parse_message(":srv :only").unwrap();
    assert_eq!(m.prefix.host, "srv");
    assert_eq!(m.command, "only");
    assert!(m.args.is_empty());
}

#[test]
fn empty_line_fails_to_parse() {
    assert!(parse_message("").is_err());
    assert!(parse_message("   ").is_err());
}

#[test]
fn empty_command_fails_to_parse() {
    assert!(parse_message(":pfx :").is_err());
    assert!(parse_message(" :").is_err());
}

#[test]
fn host_with_at_sign_round_trips() {
    let m = IrcMessage {
        prefix: prefix("a@b!c", "", ""),
        command: "NOTICE".to_string(),
        args: vec!["x".to_string()],
    };
    let line = encode_message(&m);
    assert_eq!(line, ":!@a@b!c NOTICE x");
    let back = parse_message(&line).unwrap();
    assert_eq!(back.prefix.host, "a@b!c");
    assert_eq!(back.prefix.nick, "");
    assert_eq!(back.prefix.realname, "");
    assert_eq!(back.args, m.args);
}

#[test]
fn prefix_alone_fails_to_parse() {
    let e = parse_message(":irc.example.net").unwrap_err();
    assert!(!e.message().is_empty());
}

#[test]
fn error_keeps_its_message() {
    assert_eq!(Error::new("boom").message(), "boom");
}

#[test]
fn encode_then_parse_round_trip() {
    let m = IrcMessage {
        prefix: prefix("host", "bob", "b"),
        command: "PRIVMSG".to_string(),
        args: vec!["#chan".to_string(), "a b :c".to_string()],
    };
    let line = encode_message(&m);
    assert_eq!(line, ":bob!b@host PRIVMSG #chan :a b :c");
    let back = parse_message(&line).unwrap();
    assert_eq!(back.prefix.nick, "bob");
    assert_eq!(back.prefix.realname, "b");
    assert_eq!(back.prefix.host, "host");
    assert_eq!(back.command, "PRIVMSG");
    assert_eq!(back.args, m.args);
}

#[test]
fn encode_without_prefix_or_args() {
    let m = IrcMessage { prefix: prefix("", "", ""), command: "QUIT".to_string(), args: vec![] };
    assert_eq!(encode_message(&m), "QUIT");
    let m2 = IrcMessage {
        prefix: prefix("srv", "", ""),
        command: "NOTICE".to_string(),
        args: vec!["a".to_string(), "b".to_string(), "".to_string()],
    };
    let line = encode_message(&m2);
    assert_eq!(line, ":srv NOTICE a b :");
    let back = parse_message(&line).unwrap();
    assert_eq!(back.prefix.host, "srv");
    assert_eq!(back.args, m2.args);
}

#[test]
fn frames_with_crlf() {
    assert_eq!(frame("PONG :x"), "PONG :x\r\n");
}

#[test]
fn registration_lines() {
    let (a, b) = ident_lines("rusty");
    assert_eq!(a, "NICK rusty");
    assert_eq!(b, "USER rusty 0 * :rusty");
}

#[test]
fn join_quit_pong_lines() {
    assert_eq!(join_line("#chan"), "JOIN :#chan");
    assert_eq!(quit_line("out"), "QUIT :out");
    assert_eq!(pong_line("abc123"), "PONG :abc123");
}

#[test]
fn say_collapses_newlines() {
    assert_eq!(say_line("#chan", "a\nb"), "PRIVMSG #chan :a  b");
}

#[test]
fn say_keeps_text_at_the_limit() {
    let text = "x".repeat(1000);
    assert_eq!(say_line("#c", &text), format!("PRIVMSG #c :{}", text));
}

#[test]
fn say_truncates_long_text() {
    let text = "é".repeat(1001);
    let line = say_line("#c", &text);
    assert_eq!(line, format!("PRIVMSG #c :{}...", "é".repeat(1000)));
}

#[test]
fn encode_marks_trailing_only_when_needed() {
    let args = vec!["#chan".to_string(), "hello".to_string()];
    assert_eq!(encode("PRIVMSG", &args), "PRIVMSG #chan hello\r\n");
    let args = vec!["#chan".to_string(), "hello world".to_string()];
    assert_eq!(encode("PRIVMSG", &args), "PRIVMSG #chan :hello world\r\n");
    let args = vec![":x".to_string()];
    assert_eq!(encode("PING", &args), "PING ::x\r\n");
    assert_eq!(encode("QUIT", &vec![]), "QUIT\r\n");
}

#[test]
fn plain_last_argument_round_trips() {
    let m = IrcMessage {
        prefix: prefix("", "", ""),
        command: "JOIN".to_string(),
        args: vec!["#chan".to_string()],
    };
    let line = encode_message(&m);
    assert_eq!(line, "JOIN #chan");
    assert_eq!(parse_message(&line).unwrap().args, m.args);
}

#[test]
fn plain_tokens() {
    assert!(is_plain_token("PRIVMSG"));
    assert!(!is_plain_token(""));
    assert!(!is_plain_token(":x"));
    assert!(!is_plain_token("a b"));
    assert!(!is_plain_token("a\tb"));
}

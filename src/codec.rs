use vstd::prelude::*;

use crate::text::{
    chars_of, find, find_char, lemma_find_facts, find_trailing, find_trailing_marker, is_ws, lemma_find_is,
    lemma_find_trailing_is, lemma_words_append_word, lemma_words_append_ws, marker_at, no_ws,
    copy_strings, is_whitespace, split_words, string_of, views, words,
};

verus! {

/// A failure of this library, with a message for the log.
#[derive(Debug)]
pub struct Error {
    pub msg: String,
}

impl Error {
    pub fn new(msg: &str) -> (r: Error)
        ensures
            r.msg@ == msg@,
    {
        Error { msg: String::from_str(msg) }
    }

    /// The message, as the log shows it.
    pub fn message(&self) -> (r: &str)
        ensures
            r@ == self.msg@,
    {
        self.msg.as_str()
    }
}

/// The origin of an inbound line: `nick!realname@host`.
#[derive(Debug)]
pub struct IrcPrefix {
    pub host: String,
    pub nick: String,
    pub realname: String,
}

/// One parsed protocol line.
#[derive(Debug)]
pub struct IrcMessage {
    pub prefix: IrcPrefix,
    pub command: String,
    pub args: Vec<String>,
}

/// A prefix as plain text.
pub struct PrefixView {
    pub host: Seq<char>,
    pub nick: Seq<char>,
    pub realname: Seq<char>,
}

/// A message as plain text.
pub struct MessageView {
    pub prefix: PrefixView,
    pub command: Seq<char>,
    pub args: Seq<Seq<char>>,
}

impl View for IrcPrefix {
    type V = PrefixView;

    open spec fn view(&self) -> PrefixView {
        PrefixView { host: self.host@, nick: self.nick@, realname: self.realname@ }
    }
}

impl View for IrcMessage {
    type V = MessageView;

    open spec fn view(&self) -> MessageView {
        MessageView { prefix: self.prefix@, command: self.command@, args: views(self.args@) }
    }
}

/// The prefix `s` split into its parts: `nick!realname@host`; `nick!realname` when there is
/// no `@`; the host alone when there is neither `@` nor `!`. The first `@` ends the nick part,
/// and the first `!` before it ends the nick.
pub open spec fn prefix_spec(s: Seq<char>) -> PrefixView {
    let a = find(s, '@');
    let pre = s.subrange(0, a);
    let b = find(pre, '!');
    if a < s.len() {
        PrefixView {
            host: s.subrange(a + 1, s.len() as int),
            nick: pre.subrange(0, b),
            realname: if b < a { pre.subrange(b + 1, a) } else { seq![] },
        }
    } else if b < s.len() {
        PrefixView {
            host: seq![],
            nick: s.subrange(0, b),
            realname: s.subrange(b + 1, s.len() as int),
        }
    } else {
        PrefixView { host: s, nick: seq![], realname: seq![] }
    }
}

/// The line opens with a prefix.
pub open spec fn has_prefix(s: Seq<char>) -> bool {
    s.len() > 0 && s[0] == ':'
}

/// The prefix text of a line: after the leading `:`, up to the first space.
pub open spec fn prefix_text(s: Seq<char>) -> Seq<char> {
    if has_prefix(s) {
        s.subrange(1, find(s, ' '))
    } else {
        seq![]
    }
}

/// Where the command and its arguments start.
pub open spec fn body_start(s: Seq<char>) -> int {
    if has_prefix(s) {
        if find(s, ' ') < s.len() {
            find(s, ' ') + 1
        } else {
            s.len() as int
        }
    } else {
        0
    }
}

/// The command and arguments of a line: the words before the first `" :"`, then everything
/// after it as one last token.
pub open spec fn tokens_spec(s: Seq<char>) -> Seq<Seq<char>> {
    let t = find_trailing(s);
    let b = if body_start(s) <= t {
        body_start(s)
    } else {
        t
    };
    if t < s.len() {
        words(s.subrange(b, t)).push(s.subrange(t + 2, s.len() as int))
    } else {
        words(s.subrange(body_start(s), s.len() as int))
    }
}

/// The message that a line holds, or `None` when it has no command (or an empty one).
pub open spec fn parse_spec(s: Seq<char>) -> Option<MessageView> {
    let toks = tokens_spec(s);
    if toks.len() == 0 || toks[0].len() == 0 {
        None
    } else {
        Some(
            MessageView {
                prefix: prefix_spec(prefix_text(s)),
                command: toks[0],
                args: toks.drop_first(),
            },
        )
    }
}

/// The first space of a line comes no later than its first `" :"`.
pub proof fn lemma_space_before_marker(s: Seq<char>)
    ensures
        find(s, ' ') <= find_trailing(s),
        0 <= find(s, ' ') <= s.len(),
        0 <= find_trailing(s) <= s.len(),
        find(s, ' ') < s.len() ==> s[find(s, ' ')] == ' ',
        find_trailing(s) < s.len() ==> marker_at(s, find_trailing(s)),
    decreases s.len(),
{
    if s.len() > 0 {
        lemma_space_before_marker(s.drop_first());
    }
}

/// Splits a prefix into host, nick and realname.
pub fn parse_prefix(s: &String) -> (r: IrcPrefix)
    ensures
        r@ == prefix_spec(s@),
{
    let cs = chars_of(s.as_str());
    let n = cs.len();
    let a = find_char(&cs, 0, n, '@');
    let b = find_char(&cs, 0, a, '!');
    proof {
        assert(cs@.subrange(0, n as int) =~= cs@);
        assert(cs@.subrange(0, a as int) =~= s@.subrange(0, a as int));
    }
    if a < n {
        let realname = if b < a {
            string_of(&cs, b + 1, a)
        } else {
            String::new()
        };
        let r = IrcPrefix { host: string_of(&cs, a + 1, n), nick: string_of(&cs, 0, b), realname };
        proof {
            let pre = s@.subrange(0, a as int);
            assert(r.nick@ =~= pre.subrange(0, b as int));
            if b < a {
                assert(r.realname@ =~= pre.subrange(b + 1, a as int));
            }
        }
        r
    } else if b < n {
        IrcPrefix { host: String::new(), nick: string_of(&cs, 0, b), realname: string_of(&cs, b + 1, n) }
    } else {
        let r = IrcPrefix { host: string_of(&cs, 0, n), nick: String::new(), realname: String::new() };
        proof {
            assert(r.host@ =~= s@);
        }
        r
    }
}

/// Parses one inbound line (without its line terminator).
pub fn parse_message(line: &str) -> (r: Result<IrcMessage, Error>)
    ensures
        match parse_spec(line@) {
            Some(m) => r is Ok && r->Ok_0@ == m,
            None => r is Err,
        },
{
    let cs = chars_of(line);
    let n = cs.len();
    let mut start: usize = 0;
    let mut prefix = String::new();
    proof {
        lemma_space_before_marker(cs@);
        assert(cs@.subrange(0, n as int) =~= cs@);
    }
    if n > 0 && cs[0] == ':' {
        let sp = find_char(&cs, 0, n, ' ');
        prefix = string_of(&cs, 1, sp);
        start = if sp < n {
            sp + 1
        } else {
            n
        };
    }
    let t = find_trailing_marker(&cs);
    let mut args: Vec<String>;
    if t < n {
        let lo = if start <= t {
            start
        } else {
            t
        };
        args = split_words(&cs, lo, t);
        let trailing = string_of(&cs, t + 2, n);
        let ghost before = args@;
        args.push(trailing);
        proof {
            assert(views(args@) =~= views(before).push(trailing@));
        }
    } else {
        args = split_words(&cs, start, n);
    }
    if args.len() == 0 || args[0].as_str().is_empty() {
        return Err(Error::new("malformed line: no command"));
    }
    let ghost all = args@;
    let command = args.remove(0);
    proof {
        assert(views(args@) =~= views(all).drop_first());
    }
    Ok(IrcMessage { prefix: parse_prefix(&prefix), command, args })
}

/// The prefix as it is written on the wire: the host alone when that parses back as a host,
/// else `nick!realname@host`.
pub open spec fn prefix_encoding(p: PrefixView) -> Seq<char> {
    if p.nick.len() == 0 && p.realname.len() == 0 && !p.host.contains('@') && !p.host.contains('!') {
        p.host
    } else {
        p.nick + seq!['!'] + p.realname + seq!['@'] + p.host
    }
}

/// Each argument after a space.
pub open spec fn middles(ms: Seq<Seq<char>>) -> Seq<char>
    decreases ms.len(),
{
    if ms.len() == 0 {
        seq![]
    } else {
        middles(ms.drop_last()) + seq![' '] + ms.last()
    }
}

/// The `:prefix ` that opens a line, empty where the prefix is.
pub open spec fn head_spec(p: PrefixView) -> Seq<char> {
    let t = prefix_encoding(p);
    if t.len() == 0 {
        seq![]
    } else {
        seq![':'] + t + seq![' ']
    }
}

/// A message as a line: `[:prefix ]command[ middle]*[ :last]`, the last argument after
/// the trailing marker `" :"` when `marked`.
pub open spec fn line_spec(m: MessageView, marked: bool) -> Seq<char> {
    if m.args.len() == 0 {
        head_spec(m.prefix) + m.command
    } else if marked {
        head_spec(m.prefix) + m.command + middles(m.args.drop_last()) + seq![' ', ':'] + m.args.last()
    } else {
        head_spec(m.prefix) + m.command + middles(m.args)
    }
}

/// A message as this library writes it: the last argument is marked as the trailing one
/// when it could not stand as a middle one (when it is empty, opens with `:` or holds
/// whitespace).
pub open spec fn encode_spec(m: MessageView) -> Seq<char> {
    line_spec(m, m.args.len() > 0 && !plain_token(m.args.last()))
}

/// Writes a message as one line, without its terminator.
pub fn encode_message(m: &IrcMessage) -> (r: String)
    ensures
        r@ == encode_spec(m@),
{
    let p = &m.prefix;
    let mut out = String::new();
    let hc = chars_of(p.host.as_str());
    let hn = hc.len();
    let host_at = find_char(&hc, 0, hn, '@') < hn;
    let host_bang = find_char(&hc, 0, hn, '!') < hn;
    proof {
        assert(hc@.subrange(0, hn as int) =~= p.host@);
        lemma_find_facts(p.host@, '@');
        lemma_find_facts(p.host@, '!');
    }
    let has_parts = !p.nick.as_str().is_empty() || !p.realname.as_str().is_empty() || host_at
        || host_bang;
    if has_parts || !p.host.as_str().is_empty() {
        out.push(':');
        if has_parts {
            out.append(p.nick.as_str());
            out.push('!');
            out.append(p.realname.as_str());
            out.push('@');
        }
        out.append(p.host.as_str());
        out.push(' ');
    }
    proof {
        assert(out@ =~= head_spec(m@.prefix));
    }
    out.append(m.command.as_str());
    let n = m.args.len();
    if n == 0 {
        return out;
    }
    let ghost ms = views(m.args@).drop_last();
    let mut i: usize = 0;
    while i + 1 < n
        invariant
            n == m.args@.len(),
            n > 0,
            i + 1 <= n,
            ms == views(m.args@).drop_last(),
            out@ == head_spec(m@.prefix) + m.command@ + middles(ms.subrange(0, i as int)),
        decreases n - i,
    {
        let ghost before = out@;
        out.push(' ');
        out.append(m.args[i].as_str());
        proof {
            let sub = ms.subrange(0, i + 1);
            assert(sub.drop_last() =~= ms.subrange(0, i as int));
            assert(sub.last() == m.args@[i as int]@);
            assert(out@ =~= before + seq![' '] + m.args@[i as int]@);
        }
        i = i + 1;
    }
    let last = m.args[n - 1].as_str();
    out.push(' ');
    if !is_plain_token(last) {
        out.push(':');
    }
    out.append(last);
    proof {
        assert(ms.subrange(0, i as int) =~= ms);
        let all = views(m.args@);
        assert(all.drop_last() =~= ms);
        assert(all.last() == m.args@[n - 1]@);
        assert(out@ =~= encode_spec(m@));
    }
    out
}

/// Whether `w` can stand as a command or middle argument.
pub fn is_plain_token(w: &str) -> (r: bool)
    ensures
        r == plain_token(w@),
{
    let cs = chars_of(w);
    if cs.len() == 0 || cs[0] == ':' {
        return false;
    }
    let mut i: usize = 0;
    while i < cs.len()
        invariant
            cs@ == w@,
            i <= cs@.len(),
            forall|j: int| 0 <= j < i ==> !is_ws(#[trigger] cs@[j]),
        decreases cs@.len() - i,
    {
        if is_whitespace(cs[i]) {
            return false;
        }
        i = i + 1;
    }
    true
}

/// `verb` and `args` as a line for the wire, CRLF included; the last argument is marked as
/// trailing where it needs to be.
pub fn encode(verb: &str, args: &Vec<String>) -> (r: String)
    ensures
        r@ == frame_spec(
            encode_spec(
                MessageView {
                    prefix: PrefixView { host: seq![], nick: seq![], realname: seq![] },
                    command: verb@,
                    args: views(args@),
                },
            ),
        ),
{
    let m = IrcMessage {
        prefix: IrcPrefix { host: String::new(), nick: String::new(), realname: String::new() },
        command: String::from_str(verb),
        args: copy_strings(args),
    };
    proof {
        assert(m@.prefix == PrefixView { host: seq![], nick: seq![], realname: seq![] });
    }
    let line = encode_message(&m);
    frame(line.as_str())
}

/// The longest chat text sent as it is; longer text is cut there and marked with `...`.
pub const MAX_TEXT: usize = 1000;

/// A line with its CRLF terminator.
pub open spec fn frame_spec(line: Seq<char>) -> Seq<char> {
    line + seq!['\r', '\n']
}

/// `line` ready for the wire: followed by CRLF.
pub fn frame(line: &str) -> (r: String)
    ensures
        r@ == frame_spec(line@),
{
    let mut out = String::from_str(line);
    out.push('\r');
    out.push('\n');
    out
}

/// The registration lines: `NICK <nick>`, then `USER <nick> 0 * :<nick>`.
pub fn ident_lines(nick: &str) -> (r: (String, String))
    ensures
        r.0@ == "NICK "@ + nick@,
        r.1@ == "USER "@ + nick@ + " 0 * :"@ + nick@,
{
    let mut first = String::from_str("NICK ");
    first.append(nick);
    let mut second = String::from_str("USER ");
    second.append(nick);
    second.append(" 0 * :");
    second.append(nick);
    (first, second)
}

/// `JOIN :<channel>`.
pub fn join_line(channel: &str) -> (r: String)
    ensures
        r@ == "JOIN :"@ + channel@,
{
    let mut out = String::from_str("JOIN :");
    out.append(channel);
    out
}

/// `QUIT :<reason>`.
pub fn quit_line(reason: &str) -> (r: String)
    ensures
        r@ == "QUIT :"@ + reason@,
{
    let mut out = String::from_str("QUIT :");
    out.append(reason);
    out
}

/// `PONG :<token>`, the answer to a `PING`.
pub fn pong_line(token: &str) -> (r: String)
    ensures
        r@ == "PONG :"@ + token@,
{
    let mut out = String::from_str("PONG :");
    out.append(token);
    out
}

/// `s` with each newline replaced by two spaces.
pub open spec fn collapse_newlines(s: Seq<char>) -> Seq<char>
    decreases s.len(),
{
    if s.len() == 0 {
        seq![]
    } else if s.last() == '\n' {
        collapse_newlines(s.drop_last()) + seq![' ', ' ']
    } else {
        collapse_newlines(s.drop_last()).push(s.last())
    }
}

/// The text of an outgoing chat line: newlines collapsed, cut after `MAX_TEXT` characters.
pub open spec fn chat_text(s: Seq<char>) -> Seq<char> {
    let c = collapse_newlines(s);
    if c.len() > MAX_TEXT {
        c.subrange(0, MAX_TEXT as int) + seq!['.', '.', '.']
    } else {
        c
    }
}

/// `PRIVMSG <target> :<text>`.
pub open spec fn say_spec(target: Seq<char>, what: Seq<char>) -> Seq<char> {
    "PRIVMSG "@ + target + " :"@ + chat_text(what)
}

/// The chat line that says `what` to `target`.
pub fn say_line(target: &str, what: &str) -> (r: String)
    ensures
        r@ == say_spec(target@, what@),
{
    let cs = chars_of(what);
    let mut flat: Vec<char> = Vec::new();
    let mut i: usize = 0;
    while i < cs.len()
        invariant
            i <= cs@.len(),
            cs@ == what@,
            flat@ == collapse_newlines(cs@.subrange(0, i as int)),
        decreases cs@.len() - i,
    {
        let ghost before = flat@;
        proof {
            assert(cs@.subrange(0, i + 1).drop_last() =~= cs@.subrange(0, i as int));
        }
        if cs[i] == '\n' {
            flat.push(' ');
            flat.push(' ');
            proof {
                assert(flat@ =~= before + seq![' ', ' ']);
            }
        } else {
            flat.push(cs[i]);
        }
        i = i + 1;
    }
    proof {
        assert(cs@.subrange(0, i as int) =~= what@);
    }
    let mut out = String::from_str("PRIVMSG ");
    out.append(target);
    out.append(" :");
    if flat.len() > MAX_TEXT {
        let cut = string_of(&flat, 0, MAX_TEXT);
        out.append(cut.as_str());
        out.append("...");
        proof {
            reveal_strlit("...");
            assert("..."@ =~= seq!['.', '.', '.']);
            assert(out@ =~= say_spec(target@, what@));
        }
    } else {
        let all = string_of(&flat, 0, flat.len());
        proof {
            assert(all@ =~= flat@);
        }
        out.append(all.as_str());
    }
    out
}

/// A command or middle argument: not empty, no whitespace, not opening with `:`.
pub open spec fn plain_token(w: Seq<char>) -> bool {
    w.len() > 0 && w[0] != ':' && no_ws(w)
}

/// A prefix that the wire can carry and that parses back into the same parts: no
/// whitespace, no `@` or `!` in the nick, no `@` in the realname.
pub open spec fn valid_prefix(p: PrefixView) -> bool {
    &&& no_ws(p.host) && no_ws(p.nick) && no_ws(p.realname)
    &&& !p.nick.contains('@') && !p.nick.contains('!')
    &&& !p.realname.contains('@')
}

/// A message that the wire grammar can carry: every token but the last is plain.
pub open spec fn valid_message(m: MessageView) -> bool {
    &&& valid_prefix(m.prefix)
    &&& plain_token(m.command)
    &&& forall|i: int| 0 <= i < m.args.len() - 1 ==> plain_token(#[trigger] m.args[i])
}

proof fn lemma_prefix_round_trip(p: PrefixView)
    requires
        valid_prefix(p),
    ensures
        prefix_spec(prefix_encoding(p)) == p,
        no_ws(prefix_encoding(p)),
        prefix_encoding(p).len() == 0 <==> (p.host.len() == 0 && p.nick.len() == 0
            && p.realname.len() == 0),
{
    let t = prefix_encoding(p);
    if p.nick.len() == 0 && p.realname.len() == 0 && !p.host.contains('@') && !p.host.contains('!') {
        lemma_find_is(t, '@', t.len() as int);
        assert(t.subrange(0, t.len() as int) =~= t);
        lemma_find_is(t, '!', t.len() as int);
        assert(p.nick =~= Seq::<char>::empty());
        assert(p.realname =~= Seq::<char>::empty());
    } else {
        let a = (p.nick.len() + 1 + p.realname.len()) as int;
        let pre = p.nick + seq!['!'] + p.realname;
        assert forall|j: int| 0 <= j < a implies t[j] != '@' by {
            if j < p.nick.len() {
                assert(t[j] == p.nick[j]);
            } else if j > p.nick.len() {
                assert(t[j] == p.realname[j - p.nick.len() - 1]);
            }
        }
        lemma_find_is(t, '@', a);
        assert(t.subrange(0, a) =~= pre);
        assert forall|j: int| 0 <= j < p.nick.len() implies pre[j] != '!' by {
            assert(pre[j] == p.nick[j]);
        }
        lemma_find_is(pre, '!', p.nick.len() as int);
        assert(t.subrange(a + 1, t.len() as int) =~= p.host);
        assert(pre.subrange(0, p.nick.len() as int) =~= p.nick);
        assert(pre.subrange((p.nick.len() + 1) as int, a) =~= p.realname);
        assert(no_ws(t)) by {
            assert forall|j: int| 0 <= j < t.len() implies !is_ws(#[trigger] t[j]) by {
                if j < p.nick.len() {
                    assert(t[j] == p.nick[j]);
                } else if j > p.nick.len() && j < a {
                    assert(t[j] == p.realname[j - p.nick.len() - 1]);
                } else if j > a {
                    assert(t[j] == p.host[j - a - 1]);
                }
            }
        }
    }
}

/// In the arguments after the command, a space is never followed by `:`.
proof fn lemma_middles_no_marker(ms: Seq<Seq<char>>)
    requires
        forall|i: int| 0 <= i < ms.len() ==> plain_token(#[trigger] ms[i]),
    ensures
        forall|j: int|
            0 <= j < middles(ms).len() && middles(ms)[j] == ' ' ==> j + 1 < middles(ms).len()
                && #[trigger] middles(ms)[j + 1] != ':',
    decreases ms.len(),
{
    if ms.len() > 0 {
        let m0 = ms.drop_last();
        let w = ms.last();
        assert(plain_token(ms[ms.len() - 1]));
        lemma_middles_no_marker(m0);
        let a = middles(m0);
        let s = middles(ms);
        assert(s == a + seq![' '] + w);
        assert forall|j: int| 0 <= j < s.len() && s[j] == ' ' implies j + 1 < s.len()
            && #[trigger] s[j + 1] != ':' by {
            if j < a.len() {
                assert(s[j] == a[j]);
                if j + 1 < a.len() {
                    assert(s[j + 1] == a[j + 1]);
                }
            } else if j == a.len() {
                assert(s[j + 1] == w[0]);
            } else {
                assert(s[j] == w[j - a.len() - 1]);
            }
        }
    }
}

/// The words of the command followed by the middle arguments are exactly those tokens.
proof fn lemma_words_middles(c: Seq<char>, ms: Seq<Seq<char>>)
    requires
        plain_token(c),
        forall|i: int| 0 <= i < ms.len() ==> plain_token(#[trigger] ms[i]),
    ensures
        words(c + middles(ms)) == seq![c] + ms,
    decreases ms.len(),
{
    if ms.len() == 0 {
        assert(c + middles(ms) =~= seq![] + c);
        lemma_words_append_word(seq![], c);
        assert(words(seq![]) =~= Seq::<Seq<char>>::empty());
        assert(seq![c] + ms =~= seq![c]);
    } else {
        let m0 = ms.drop_last();
        let w = ms.last();
        assert(plain_token(ms[ms.len() - 1]));
        lemma_words_middles(c, m0);
        let x = c + middles(m0);
        lemma_words_append_ws(x, ' ');
        assert(x.push(' ') =~= x + seq![' ']);
        lemma_words_append_word(x.push(' '), w);
        assert(c + middles(ms) =~= x.push(' ') + w);
        assert((seq![c] + m0).push(w) =~= seq![c] + ms);
    }
}

/// Parsing gives back any message written per the wire grammar, with or without the
/// trailing marker before its last argument (without it only where that argument is a
/// plain token), the trailing argument kept whole.
pub proof fn lemma_parse_line_round_trip(m: MessageView, marked: bool)
    requires
        valid_message(m),
        !marked && m.args.len() > 0 ==> plain_token(m.args.last()),
    ensures
        parse_spec(line_spec(m, marked)) == Some(m),
{
    let p = m.prefix;
    let c = m.command;
    let l = line_spec(m, marked);
    let h = head_spec(p);
    let t = prefix_encoding(p);
    lemma_prefix_round_trip(p);
    let trailing = m.args.len() > 0 && marked;
    let ms = if m.args.len() == 0 {
        Seq::<Seq<char>>::empty()
    } else if trailing {
        m.args.drop_last()
    } else {
        m.args
    };
    assert forall|i: int| 0 <= i < ms.len() implies plain_token(#[trigger] ms[i]) by {
        assert(ms[i] == m.args[i]);
    }
    lemma_middles_no_marker(ms);
    lemma_words_middles(c, ms);
    let mid = middles(ms);
    let body_end = (h.len() + c.len() + mid.len()) as int;
    assert(l.subrange(0, body_end) =~= h + c + mid) by {
        if m.args.len() == 0 {
            assert(mid =~= Seq::<char>::empty());
        }
    }
    assert(!trailing ==> l =~= h + c + mid) by {
        if m.args.len() == 0 {
            assert(mid =~= Seq::<char>::empty());
        }
    }
    assert(l[h.len() as int] == c[0]);
    // The prefix.
    if t.len() == 0 {
        assert(!has_prefix(l));
        assert(prefix_text(l) =~= Seq::<char>::empty());
        assert(t =~= prefix_text(l));
    } else {
        assert forall|j: int| 0 <= j < t.len() + 1 implies l[j] != ' ' by {
            if j > 0 {
                assert(l[j] == t[j - 1]);
            }
        }
        lemma_find_is(l, ' ', (t.len() + 1) as int);
        assert(prefix_text(l) =~= t);
    }
    assert(body_start(l) == h.len());
    // Where the trailing marker stands.
    assert forall|j: int| 0 <= j < body_end implies !#[trigger] marker_at(l, j) by {
        if marker_at(l, j) {
            if j < h.len() {
                if j > 0 {
                    assert(l[j] == t[j - 1]);
                }
                assert(j == t.len() + 1);
            } else if j < h.len() + c.len() {
                assert(l[j] == c[j - h.len()]);
            } else {
                let k = j - h.len() - c.len();
                assert(l[j] == mid[k]);
                assert(l[j + 1] == mid[k + 1]);
            }
        }
    }
    if !trailing {
        assert(l =~= l.subrange(0, body_end));
        lemma_find_trailing_is(l, l.len() as int);
        assert(l.subrange(h.len() as int, l.len() as int) =~= c + mid);
        assert((seq![c] + ms).drop_first() =~= m.args);
    } else {
        assert(marker_at(l, body_end));
        lemma_find_trailing_is(l, body_end);
        assert(l.subrange(h.len() as int, body_end) =~= c + mid);
        assert(l.subrange(body_end + 2, l.len() as int) =~= m.args.last());
        let toks = (seq![c] + ms).push(m.args.last());
        assert(toks.drop_first() =~= m.args);
    }
}

/// Parsing an encoded message gives the message back, the trailing argument included.
pub proof fn lemma_parse_encode_round_trip(m: MessageView)
    requires
        valid_message(m),
    ensures
        parse_spec(encode_spec(m)) == Some(m),
{
    lemma_parse_line_round_trip(m, m.args.len() > 0 && !plain_token(m.args.last()));
}

} // verus!

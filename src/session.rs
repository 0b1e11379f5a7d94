use vstd::prelude::*;

use crate::codec::{
    join_line, parse_message, parse_spec, pong_line, say_line, say_spec, IrcMessage, IrcPrefix,
    MessageView, PrefixView,
};
use crate::commands::{command_spec, lookup_command, CommandKind};
use crate::outside::{
    find_links, links_of, pattern_matches, random_below, regex_match, rfc2822, rfc2822_of,
    RFC2822_MAX_MS, RFC2822_MIN_MS,
};
use crate::text::{
    chars_of, copy_strings, decimal, find, find_char, join_from, join_spaced, lines_of, same_text, split_lines,
    starts_with, string_of, to_decimal, trim, trimmed, views,
};

verus! {

/// A URL seen in conversation: who posted it first, when, and how often it came back.
#[derive(Debug)]
pub struct SeenUrl {
    pub url: String,
    pub owner: String,
    pub count: u64,
    pub first: i64,
}

/// A seen URL as plain values.
pub struct SeenView {
    pub url: Seq<char>,
    pub owner: Seq<char>,
    pub count: nat,
    pub first: int,
}

impl View for SeenUrl {
    type V = SeenView;

    open spec fn view(&self) -> SeenView {
        SeenView { url: self.url@, owner: self.owner@, count: self.count as nat, first: self.first as int }
    }
}

/// A participant as the store keeps it.
#[derive(Debug)]
pub struct Ident {
    pub id: i64,
    pub host: String,
    pub nick: String,
    pub realname: String,
}

/// The state that lives as long as the process: who the bot is, where it talks, whom it
/// ignores, the URLs it has seen and when it last greeted.
#[derive(Debug)]
pub struct IrcBot {
    pub host: String,
    pub nick: String,
    pub channel: String,
    pub ignore: Option<Vec<String>>,
    pub seen_urls: Vec<SeenUrl>,
    pub last_greet: i64,
}

/// The session state as plain values.
pub struct BotView {
    pub host: Seq<char>,
    pub nick: Seq<char>,
    pub channel: Seq<char>,
    pub ignore: Option<Seq<Seq<char>>>,
    pub urls: Seq<SeenView>,
    pub last_greet: int,
}

/// The views of the URL records.
pub open spec fn seen_views(v: Seq<SeenUrl>) -> Seq<SeenView> {
    v.map_values(|s: SeenUrl| s@)
}

impl View for IrcBot {
    type V = BotView;

    open spec fn view(&self) -> BotView {
        BotView {
            host: self.host@,
            nick: self.nick@,
            channel: self.channel@,
            ignore: match self.ignore {
                Some(v) => Some(views(v@)),
                None => None,
            },
            urls: seen_views(self.seen_urls@),
            last_greet: self.last_greet as int,
        }
    }
}

/// An instant that the RFC 2822 form can show: within the years 0 to 9999.
pub open spec fn valid_time(t: int) -> bool {
    RFC2822_MIN_MS <= t <= RFC2822_MAX_MS
}

/// Whether `t` is an instant the state can hold.
pub fn is_valid_time(t: i64) -> (r: bool)
    ensures
        r == valid_time(t as int),
{
    RFC2822_MIN_MS <= t && t <= RFC2822_MAX_MS
}

/// Every instant the state holds can be shown, and no two records share a URL.
pub open spec fn wf_view(b: BotView) -> bool {
    &&& valid_time(b.last_greet)
    &&& forall|i: int| 0 <= i < b.urls.len() ==> valid_time(#[trigger] b.urls[i].first)
    &&& forall|i: int, j: int|
        0 <= i < b.urls.len() && 0 <= j < b.urls.len() && i != j ==> #[trigger] b.urls[i].url
            != #[trigger] b.urls[j].url
}

/// Index of the first record of `url`, or `urls.len()`.
pub open spec fn url_index(urls: Seq<SeenView>, url: Seq<char>) -> int
    decreases urls.len(),
{
    if urls.len() == 0 {
        0
    } else if urls[0].url == url {
        0
    } else {
        1 + url_index(urls.drop_first(), url)
    }
}

proof fn lemma_url_index_is(urls: Seq<SeenView>, url: Seq<char>, i: int)
    requires
        0 <= i <= urls.len(),
        i < urls.len() ==> urls[i].url == url,
        forall|j: int| 0 <= j < i ==> (#[trigger] urls[j]).url != url,
    ensures
        url_index(urls, url) == i,
    decreases urls.len(),
{
    if urls.len() > 0 && i > 0 {
        assert(urls[0].url != url);
        assert forall|j: int| 0 <= j < i - 1 implies (#[trigger] urls.drop_first()[j]).url != url by {
            assert(urls.drop_first()[j] == urls[j + 1]);
        }
        lemma_url_index_is(urls.drop_first(), url, i - 1);
    }
}

/// A repost count one higher, held at the largest count that fits.
pub open spec fn bump(count: nat) -> nat {
    if count < u64::MAX {
        count + 1
    } else {
        count
    }
}

/// `repost: <url> (first seen at <date> by <owner> / repost count: <count>)`.
pub open spec fn repost_text(url: Seq<char>, first: int, owner: Seq<char>, count: nat) -> Seq<char> {
    "repost: "@ + url + " (first seen at "@ + rfc2822_of(first) + " by "@ + owner
        + " / repost count: "@ + decimal(count) + ")"@
}

/// What one sighting of `url` posted by `nick` does to the URL memory, and the notice it
/// sends to `target`: a first sighting is remembered; a sighting by another nick counts a
/// repost and is announced; one by the first poster changes nothing.
pub open spec fn url_step(
    urls: Seq<SeenView>,
    target: Seq<char>,
    nick: Seq<char>,
    url: Seq<char>,
    now: int,
) -> (Seq<SeenView>, Seq<Seq<char>>) {
    let i = url_index(urls, url);
    if i < urls.len() {
        let s = urls[i];
        if nick != s.owner {
            let c = bump(s.count);
            (
                urls.update(i, SeenView { count: c, ..s }),
                seq![say_spec(target, repost_text(url, s.first, s.owner, c))],
            )
        } else {
            (urls, seq![])
        }
    } else {
        (urls.push(SeenView { url, owner: nick, count: 1, first: now }), seq![])
    }
}

/// `url_step` for each link in turn; the notices in order.
pub open spec fn urls_step(
    urls: Seq<SeenView>,
    target: Seq<char>,
    nick: Seq<char>,
    links: Seq<Seq<char>>,
    now: int,
) -> (Seq<SeenView>, Seq<Seq<char>>)
    decreases links.len(),
{
    if links.len() == 0 {
        (urls, seq![])
    } else {
        let (u0, l0) = urls_step(urls, target, nick, links.drop_last(), now);
        let (u1, l1) = url_step(u0, target, nick, links.last(), now);
        (u1, l0 + l1)
    }
}

/// A URL posted twice: by the same nick, the second posting sends no notice and the count
/// stays at 1; by another nick, it sends exactly one notice and the count becomes 2.
pub proof fn lemma_repost_detection(
    urls: Seq<SeenView>,
    target: Seq<char>,
    first_nick: Seq<char>,
    second_nick: Seq<char>,
    url: Seq<char>,
    t1: int,
    t2: int,
)
    requires
        url_index(urls, url) == urls.len(),
    ensures
        ({
            let (u1, l1) = url_step(urls, target, first_nick, url, t1);
            let (u2, l2) = url_step(u1, target, second_nick, url, t2);
            &&& l1.len() == 0
            &&& url_index(u2, url) == urls.len()
            &&& second_nick == first_nick ==> l2.len() == 0 && u2[urls.len() as int].count == 1
            &&& second_nick != first_nick ==> l2.len() == 1 && u2[urls.len() as int].count == 2
        }),
{
    let u1 = url_step(urls, target, first_nick, url, t1).0;
    assert forall|j: int| 0 <= j < urls.len() implies (#[trigger] u1[j]).url != url by {
        assert(urls[j] == u1[j]);
        lemma_first_url(urls, url, j);
    }
    lemma_url_index_is(u1, url, urls.len() as int);
    let u2 = url_step(u1, target, second_nick, url, t2).0;
    assert forall|j: int| 0 <= j < urls.len() implies (#[trigger] u2[j]).url != url by {
        assert(u2[j] == u1[j]);
    }
    lemma_url_index_is(u2, url, urls.len() as int);
}

/// A sighting of a URL already seen: by its first poster it changes nothing and sends no
/// notice; by anyone else it sends exactly one notice and counts one more repost.
pub proof fn lemma_known_url(
    urls: Seq<SeenView>,
    target: Seq<char>,
    nick: Seq<char>,
    url: Seq<char>,
    now: int,
)
    requires
        0 <= url_index(urls, url) < urls.len(),
    ensures
        ({
            let i = url_index(urls, url);
            let (u, l) = url_step(urls, target, nick, url, now);
            &&& nick == urls[i].owner ==> u == urls && l.len() == 0
            &&& nick != urls[i].owner ==> l.len() == 1 && u.len() == urls.len()
                && u[i].count == bump(urls[i].count) && u[i].owner == urls[i].owner
        }),
{
}

/// No record before `url_index` holds the URL.
proof fn lemma_first_url(urls: Seq<SeenView>, url: Seq<char>, j: int)
    requires
        0 <= j < url_index(urls, url),
        url_index(urls, url) <= urls.len(),
    ensures
        urls[j].url != url,
    decreases urls.len(),
{
    if j > 0 {
        assert(urls[0].url != url);
        lemma_url_index_bounds(urls.drop_first(), url);
        lemma_first_url(urls.drop_first(), url, j - 1);
    }
}

proof fn lemma_url_index_bounds(urls: Seq<SeenView>, url: Seq<char>)
    ensures
        0 <= url_index(urls, url) <= urls.len(),
        url_index(urls, url) < urls.len() ==> urls[url_index(urls, url)].url == url,
    decreases urls.len(),
{
    if urls.len() > 0 {
        lemma_url_index_bounds(urls.drop_first(), url);
    }
}

/// The greetings the bot answers to and picks its own from.
pub open spec fn greetings() -> Seq<Seq<char>> {
    seq![
        "hi"@,
        "high"@,
        "hello"@,
        "sirs"@,
        "pals"@,
        "buddies"@,
        "friends"@,
        "amigos"@,
        "compadres"@,
        "mates"@,
        "chums"@,
        "confidants"@,
        "brothers"@,
    ]
}

/// How many greetings there are.
pub const GREETING_COUNT: usize = 13;

/// The greeting at `i`.
pub fn greeting(i: usize) -> (r: &'static str)
    requires
        i < GREETING_COUNT,
    ensures
        r@ == greetings()[i as int],
{
    match i {
        0 => "hi",
        1 => "high",
        2 => "hello",
        3 => "sirs",
        4 => "pals",
        5 => "buddies",
        6 => "friends",
        7 => "amigos",
        8 => "compadres",
        9 => "mates",
        10 => "chums",
        11 => "confidants",
        _ => "brothers",
    }
}

/// Whether `w` is one of the greetings.
pub fn is_greeting(w: &str) -> (r: bool)
    ensures
        r == greetings().contains(w@),
{
    let mut i: usize = 0;
    while i < GREETING_COUNT
        invariant
            i <= GREETING_COUNT,
            forall|j: int| 0 <= j < i ==> greetings()[j] != w@,
        decreases GREETING_COUNT - i,
    {
        if same_text(greeting(i), w) {
            return true;
        }
        i = i + 1;
    }
    false
}

/// Milliseconds that must pass after an automatic greeting before the next one.
pub const COOLDOWN_MS: i64 = 300000;

/// At least the cooldown has passed since `last`.
pub open spec fn cooldown_over(last: int, now: int) -> bool {
    last + COOLDOWN_MS <= now
}

/// An automatic greeting at `now`: whether it is sent, and the last greeting time after it.
pub open spec fn greet_step(last: int, now: int) -> (int, bool) {
    if cooldown_over(last, now) {
        (now, true)
    } else {
        (last, false)
    }
}

/// Two greeting events, the first after the cooldown: less than the cooldown apart they send
/// exactly one greeting and the last greeting stays at the first; at least the cooldown apart
/// (so also when more than the cooldown apart) they send two.
pub proof fn lemma_greeting_cooldown(b: BotView, target: Seq<char>, t1: int, t2: int, p1: int, p2: int)
    requires
        cooldown_over(b.last_greet, t1),
        t1 <= t2,
    ensures
        ({
            let (b1, l1) = greet_spec(b, target, t1, p1);
            let (b2, l2) = greet_spec(b1, target, t2, p2);
            &&& l1.len() == 1 && b1.last_greet == t1
            &&& t2 - t1 < COOLDOWN_MS ==> l2.len() == 0 && b2.last_greet == t1
            &&& t2 - t1 >= COOLDOWN_MS ==> l2.len() == 1 && b2.last_greet == t2
        }),
{
}

/// The greeting sent to `target`, picked at `pick`, when the cooldown allows one.
pub open spec fn greet_spec(b: BotView, target: Seq<char>, now: int, pick: int) -> (BotView, Seq<Seq<char>>) {
    let (last, sent) = greet_step(b.last_greet, now);
    if sent {
        (BotView { last_greet: last, ..b }, seq![say_spec(target, greetings()[pick])])
    } else {
        (b, seq![])
    }
}

/// The pattern of the affection token: `<3` at the end of a word.
pub const HEART_PATTERN: &'static str = "<3\\b";

/// The answer to the affection token.
pub const HEART_REPLY: &'static str = "\u{2764}\u{fe0f}";

/// What the bot does, for the caller to carry out in order.
#[derive(Debug)]
pub enum Action {
    /// Write this line, followed by CRLF.
    Send(String),
    /// Record that this participant was seen: create it in the store, or refresh it.
    SeeIdent(IrcPrefix),
    /// Run a command for this message with the rest of its text.
    Run(CommandKind, IrcMessage, String),
}

/// An action as plain values.
pub enum ActionView {
    Send(Seq<char>),
    SeeIdent(PrefixView),
    Run(CommandKind, MessageView, Seq<char>),
}

impl View for Action {
    type V = ActionView;

    open spec fn view(&self) -> ActionView {
        match self {
            Action::Send(l) => ActionView::Send(l@),
            Action::SeeIdent(p) => ActionView::SeeIdent(p@),
            Action::Run(k, m, rest) => ActionView::Run(*k, m@, rest@),
        }
    }
}

/// The views of a list of actions.
pub open spec fn action_views(v: Seq<Action>) -> Seq<ActionView> {
    v.map_values(|a: Action| a@)
}

/// Each line as a `Send`.
pub open spec fn sends(lines: Seq<Seq<char>>) -> Seq<ActionView> {
    lines.map_values(|l: Seq<char>| ActionView::Send(l))
}

/// The text of a chat line: its arguments after the target, joined with spaces.
pub open spec fn chat_of(m: MessageView) -> Seq<char> {
    join_spaced(m.args.drop_first())
}

/// Passive observation of a chat line to `m.args[0]`: the URLs among `links`, a greeting
/// answered when the line is a greeting alone, and a reply to the affection token.
pub open spec fn see_spec(
    b: BotView,
    m: MessageView,
    now: int,
    pick: int,
    links: Seq<Seq<char>>,
    heart: bool,
) -> (BotView, Seq<Seq<char>>) {
    let target = m.args[0];
    let (urls, l_urls) = urls_step(b.urls, target, m.prefix.nick, links, now);
    let b1 = BotView { urls, ..b };
    let (b2, l_greet) = if m.args.len() == 2 && greetings().contains(m.args[1]) {
        greet_spec(b1, target, now, pick)
    } else {
        (b1, seq![])
    };
    let l_heart = if heart {
        seq![say_spec(target, HEART_REPLY@)]
    } else {
        seq![]
    };
    (b2, l_urls + l_greet + l_heart)
}

/// The command name of a `!`-line: after the `!`, up to the first space.
pub open spec fn command_name(text: Seq<char>) -> Seq<char> {
    text.subrange(1, find(text, ' '))
}

/// The command that a `!`-line invokes: the name runs to the first space, the trimmed rest
/// is its argument; a name the registry lacks invokes nothing.
pub open spec fn command_actions(m: MessageView) -> Seq<ActionView> {
    let text = m.args[1];
    let end = find(text, ' ');
    let name = command_name(text);
    let rest = if text.len() > end + 1 {
        trim(text.subrange(end + 1, text.len() as int))
    } else {
        seq![]
    };
    match command_spec(name) {
        Some(k) => seq![ActionView::Run(k, m, rest)],
        None => seq![],
    }
}

/// The opening that addresses the bot: its nick and `": "`.
pub open spec fn address_of(nick: Seq<char>) -> Seq<char> {
    nick + seq![':', ' ']
}

/// `text` opens with `p`.
pub open spec fn opens_with(text: Seq<char>, p: Seq<char>) -> bool {
    p.len() <= text.len() && text.subrange(0, p.len() as int) == p
}

/// A chat line: only in the bot's channel; the sender is recorded, then the line is an
/// address to the bot (answered with a greeting), a command, or observed.
pub open spec fn privmsg_spec(
    b: BotView,
    m: MessageView,
    now: int,
    pick: int,
    links: Seq<Seq<char>>,
    heart: bool,
) -> (BotView, Seq<ActionView>) {
    if m.args.len() < 2 || m.args[0] != b.channel {
        (b, seq![])
    } else {
        let seen = seq![ActionView::SeeIdent(m.prefix)];
        let text = m.args[1];
        if opens_with(text, address_of(b.nick)) {
            let (b1, l) = greet_spec(b, b.channel, now, pick);
            (b1, seen + sends(l))
        } else if text.len() > 0 && text[0] == '!' {
            (b, seen + command_actions(m))
        } else {
            let (b1, l) = see_spec(b, m, now, pick, links, heart);
            (b1, seen + sends(l))
        }
    }
}

/// The welcome reply: join the channel, then greet it when the cooldown allows.
pub open spec fn welcome_spec(b: BotView, now: int, pick: int) -> (BotView, Seq<ActionView>) {
    let (b1, l) = greet_spec(b, b.channel, now, pick);
    (b1, seq![ActionView::Send(join_line_spec(b.channel))] + sends(l))
}

/// `JOIN :<channel>`.
pub open spec fn join_line_spec(channel: Seq<char>) -> Seq<char> {
    "JOIN :"@ + channel
}

/// `nick` is on the ignore list.
pub open spec fn ignored(b: BotView, nick: Seq<char>) -> bool {
    b.ignore matches Some(list) && list.contains(nick)
}

/// What one parsed message does: a chat line as above (nothing when its nick is ignored),
/// the welcome, a `PING`; nothing for any other command.
pub open spec fn react_spec(
    b: BotView,
    m: MessageView,
    now: int,
    pick: int,
    links: Seq<Seq<char>>,
    heart: bool,
) -> (BotView, Seq<ActionView>) {
    if m.command == "PRIVMSG"@ {
        if ignored(b, m.prefix.nick) {
            (b, seq![])
        } else {
            privmsg_spec(b, m, now, pick, links, heart)
        }
    } else if m.command == "001"@ {
        welcome_spec(b, now, pick)
    } else if m.command == "PING"@ && m.args.len() >= 1 {
        (b, seq![ActionView::Send("PONG :"@ + m.args[0])])
    } else {
        (b, seq![])
    }
}

/// One possible outcome of a line: the message's own reaction for some greeting pick, with the
/// links and the affection match that the outside libraries reported for a chat line.
pub open spec fn line_outcome(
    b: BotView,
    line: Seq<char>,
    now: int,
    after: BotView,
    acts: Seq<ActionView>,
    pick: int,
    links: Seq<Seq<char>>,
    heart: bool,
) -> bool {
    match parse_spec(line) {
        None => after == b && acts.len() == 0,
        Some(m) => {
            &&& 0 <= pick < GREETING_COUNT
            &&& (m.command == "PRIVMSG"@ && m.args.len() >= 1) ==> (links == links_of(chat_of(m))
                && heart == regex_match(HEART_PATTERN@, chat_of(m)))
            &&& (after, acts) == react_spec(b, m, now, pick, links, heart)
        },
    }
}

/// What `handle_line` may do to `b` with `line`: some outcome that `line_outcome` allows.
pub open spec fn line_step(b: BotView, line: Seq<char>, now: int, after: BotView, acts: Seq<ActionView>) -> bool {
    exists|pick: int, links: Seq<Seq<char>>, heart: bool|
        #[trigger] line_outcome(b, line, now, after, acts, pick, links, heart)
}

/// The actions of each step, in order.
pub open spec fn flatten(chunks: Seq<Seq<ActionView>>) -> Seq<ActionView>
    decreases chunks.len(),
{
    if chunks.len() == 0 {
        seq![]
    } else {
        flatten(chunks.drop_last()) + chunks.last()
    }
}

/// `lines` handled in order from `b`: `states[i]` before line `i`, `chunks[i]` its actions.
pub open spec fn run_of(
    b: BotView,
    lines: Seq<Seq<char>>,
    now: int,
    states: Seq<BotView>,
    chunks: Seq<Seq<ActionView>>,
) -> bool {
    &&& states.len() == lines.len() + 1
    &&& chunks.len() == lines.len()
    &&& states[0] == b
    &&& forall|i: int|
        0 <= i < lines.len() ==> #[trigger] line_step(states[i], lines[i], now, states[i + 1], chunks[i])
}

/// The line of an optional reply, as a list.
pub open spec fn opt_lines(r: Option<String>) -> Seq<Seq<char>> {
    match r {
        Some(l) => seq![l@],
        None => seq![],
    }
}

/// A copy of a prefix.
pub fn copy_prefix(p: &IrcPrefix) -> (r: IrcPrefix)
    ensures
        r@ == p@,
{
    IrcPrefix { host: p.host.clone(), nick: p.nick.clone(), realname: p.realname.clone() }
}

/// A copy of a message.
pub fn copy_message(m: &IrcMessage) -> (r: IrcMessage)
    ensures
        r@ == m@,
{
    IrcMessage { prefix: copy_prefix(&m.prefix), command: m.command.clone(), args: copy_strings(&m.args) }
}

/// A chat line whose text opens with `!`.
pub open spec fn is_bang_line(m: MessageView) -> bool {
    m.args.len() >= 2 && m.args[1].len() > 0 && m.args[1][0] == '!'
}

/// The command action of a `!`-line, if its name is registered; nothing for other lines.
pub fn on_command(msg: &IrcMessage) -> (r: Vec<Action>)
    ensures
        is_bang_line(msg@) ==> action_views(r@) == command_actions(msg@),
        is_bang_line(msg@) && command_spec(command_name(msg@.args[1])) is None ==> r@.len() == 0,
        !is_bang_line(msg@) ==> r@.len() == 0,
{
    if msg.args.len() < 2 {
        return Vec::new();
    }
    let cs = chars_of(msg.args[1].as_str());
    let n = cs.len();
    if n == 0 || cs[0] != '!' {
        return Vec::new();
    }
    let end = find_char(&cs, 0, n, ' ');
    proof {
        assert(cs@.subrange(0, n as int) =~= cs@);
        crate::codec::lemma_space_before_marker(cs@.drop_first());
    }
    let name = string_of(&cs, 1, end);
    let rest = if n - end > 1 {
        trimmed(&cs, end + 1, n)
    } else {
        String::new()
    };
    let mut out: Vec<Action> = Vec::new();
    match lookup_command(name.as_str()) {
        Some(k) => {
            out.push(Action::Run(k, copy_message(msg), rest));
            proof {
                assert(action_views(out@) =~= command_actions(msg@));
            }
        },
        None => {
            proof {
                assert(action_views(out@) =~= command_actions(msg@));
            }
        },
    }
    out
}

/// The answer to a `PING`: `PONG` with its token.
pub fn on_ping(msg: &IrcMessage) -> (r: Vec<Action>)
    ensures
        msg@.args.len() >= 1 ==> action_views(r@) == seq![ActionView::Send("PONG :"@ + msg@.args[0])],
        msg@.args.len() == 0 ==> r@.len() == 0,
{
    let mut out: Vec<Action> = Vec::new();
    if msg.args.len() >= 1 {
        out.push(Action::Send(pong_line(msg.args[0].as_str())));
        proof {
            assert(action_views(out@) =~= seq![ActionView::Send("PONG :"@ + msg@.args[0])]);
        }
    }
    out
}

/// Whether chat text holds the affection token.
pub fn check_emote(text: &str) -> (r: bool)
    ensures
        r == regex_match(HEART_PATTERN@, text@),
{
    match pattern_matches(HEART_PATTERN, text) {
        Some(b) => b,
        None => false,
    }
}

/// Appends `line` to `out` as a `Send`.
fn push_send(out: &mut Vec<Action>, line: String)
    ensures
        action_views(final(out)@) == action_views(old(out)@) + sends(seq![line@]),
{
    out.push(Action::Send(line));
    proof {
        assert(action_views(final(out)@) =~= action_views(old(out)@) + sends(seq![line@]));
    }
}

impl IrcBot {
    pub open spec fn wf(&self) -> bool {
        wf_view(self@)
    }

    /// A fresh state: nobody ignored, no URL seen, and `now` as the last greeting.
    pub fn new(host: String, nick: String, channel: String, now: i64) -> (r: IrcBot)
        requires
            valid_time(now as int),
        ensures
            r.wf(),
            r@.host == host@,
            r@.nick == nick@,
            r@.channel == channel@,
            r@.ignore is None,
            r@.urls.len() == 0,
            r@.last_greet == now,
    {
        let r = IrcBot { host, nick, channel, ignore: None, seen_urls: Vec::new(), last_greet: now };
        proof {
            assert(r@.urls =~= Seq::<SeenView>::empty());
        }
        r
    }

    /// Sets the nicks whose lines are dropped.
    pub fn set_ignore(&mut self, ignore: Option<Vec<String>>)
        requires
            old(self).wf(),
        ensures
            final(self).wf(),
            final(self)@ == (BotView {
                ignore: match ignore {
                    Some(v) => Some(views(v@)),
                    None => None,
                },
                ..old(self)@
            }),
    {
        self.ignore = ignore;
    }

    /// Index of the record of `url`, or the number of records.
    fn find_url(&self, url: &str) -> (r: usize)
        ensures
            r == url_index(self@.urls, url@),
    {
        let mut i: usize = 0;
        while i < self.seen_urls.len()
            invariant
                i <= self.seen_urls@.len(),
                forall|j: int| 0 <= j < i ==> (#[trigger] self@.urls[j]).url != url@,
            decreases self.seen_urls@.len() - i,
        {
            if same_text(self.seen_urls[i].url.as_str(), url) {
                proof {
                    lemma_url_index_is(self@.urls, url@, i as int);
                }
                return i;
            }
            i = i + 1;
        }
        proof {
            lemma_url_index_is(self@.urls, url@, i as int);
        }
        i
    }

    /// One sighting of `url`, posted by `nick` to `target` at `now`; the repost notice, if any.
    pub fn handle_url(&mut self, target: &str, nick: &str, url: &str, now: i64) -> (r: Option<String>)
        requires
            old(self).wf(),
            valid_time(now as int),
        ensures
            final(self).wf(),
            final(self)@ == (BotView { urls: url_step(old(self)@.urls, target@, nick@, url@, now as int).0, ..old(self)@ }),
            match r {
                Some(line) => url_step(old(self)@.urls, target@, nick@, url@, now as int).1 == seq![line@],
                None => url_step(old(self)@.urls, target@, nick@, url@, now as int).1.len() == 0,
            },
    {
        let i = self.find_url(url);
        let ghost urls0 = self@.urls;
        if i < self.seen_urls.len() {
            if !same_text(nick, self.seen_urls[i].owner.as_str()) {
                let count = if self.seen_urls[i].count < u64::MAX {
                    self.seen_urls[i].count + 1
                } else {
                    self.seen_urls[i].count
                };
                self.seen_urls[i].count = count;
                let s = &self.seen_urls[i];
                assert(valid_time(urls0[i as int].first));
                let mut text = String::from_str("repost: ");
                text.append(url);
                text.append(" (first seen at ");
                text.append(rfc2822(s.first).as_str());
                text.append(" by ");
                text.append(s.owner.as_str());
                text.append(" / repost count: ");
                text.append(to_decimal(count).as_str());
                text.append(")");
                proof {
                    assert(seen_views(self.seen_urls@) =~= urls0.update(i as int, SeenView { count: count as nat, ..urls0[i as int] }));
                    assert(forall|j: int| 0 <= j < self@.urls.len() ==> #[trigger] self@.urls[j].first == urls0[j].first);
                    assert(forall|j: int| 0 <= j < self@.urls.len() ==> #[trigger] self@.urls[j].url == urls0[j].url);
                }
                return Some(say_line(target, text.as_str()));
            }
            None
        } else {
            let ghost before = self.seen_urls@;
            self.seen_urls.push(SeenUrl { url: String::from_str(url), owner: String::from_str(nick), count: 1, first: now });
            proof {
                assert(seen_views(self.seen_urls@) =~= seen_views(before).push(SeenView { url: url@, owner: nick@, count: 1, first: now as int }));
                assert(forall|j: int| 0 <= j < self@.urls.len() - 1 ==> #[trigger] self@.urls[j].first == urls0[j].first);
                assert forall|j: int| 0 <= j < urls0.len() implies (#[trigger] self@.urls[j]).url != url@ by {
                    lemma_url_index_bounds(urls0, url@);
                    lemma_first_url(urls0, url@, j);
                    assert(self@.urls[j] == urls0[j]);
                }
                assert(self@.urls[urls0.len() as int].url == url@);
            }
            None
        }
    }

    /// Each link that `nick` posted to `target`, in turn; the repost notices in order.
    pub fn scrape_urls(&mut self, target: &str, nick: &str, links: &Vec<String>, now: i64) -> (r: Vec<String>)
        requires
            old(self).wf(),
            valid_time(now as int),
        ensures
            final(self).wf(),
            final(self)@ == (BotView { urls: urls_step(old(self)@.urls, target@, nick@, views(links@), now as int).0, ..old(self)@ }),
            views(r@) == urls_step(old(self)@.urls, target@, nick@, views(links@), now as int).1,
    {
        let mut out: Vec<String> = Vec::new();
        let mut i: usize = 0;
        let ghost start = self@;
        while i < links.len()
            invariant
                i <= links@.len(),
                self.wf(),
                valid_time(now as int),
                self@ == (BotView { urls: urls_step(start.urls, target@, nick@, views(links@).subrange(0, i as int), now as int).0, ..start }),
                views(out@) == urls_step(start.urls, target@, nick@, views(links@).subrange(0, i as int), now as int).1,
            decreases links@.len() - i,
        {
            let ghost out0 = out@;
            let notice = self.handle_url(target, nick, links[i].as_str(), now);
            proof {
                let sub = views(links@).subrange(0, i + 1);
                assert(sub.drop_last() =~= views(links@).subrange(0, i as int));
                assert(sub.last() == links@[i as int]@);
            }
            match notice {
                Some(line) => {
                    out.push(line);
                    proof {
                        assert(views(out@) =~= views(out0) + seq![out@[out@.len() - 1]@]);
                    }
                },
                None => {
                    proof {
                        assert(views(out@) =~= views(out0) + Seq::<Seq<char>>::empty());
                    }
                },
            }
            i = i + 1;
        }
        proof {
            assert(views(links@).subrange(0, i as int) =~= views(links@));
        }
        out
    }

    /// An automatic greeting to `target`, picked at `pick`, unless the cooldown holds it back.
    pub fn greet(&mut self, target: &str, now: i64, pick: usize) -> (r: Option<String>)
        requires
            old(self).wf(),
            valid_time(now as int),
            pick < GREETING_COUNT,
        ensures
            final(self).wf(),
            final(self)@ == greet_spec(old(self)@, target@, now as int, pick as int).0,
            opt_lines(r) == greet_spec(old(self)@, target@, now as int, pick as int).1,
    {
        if self.last_greet + COOLDOWN_MS <= now {
            self.last_greet = now;
            let line = say_line(target, greeting(pick));
            proof {
                assert(opt_lines(Some(line)) =~= greet_spec(old(self)@, target@, now as int, pick as int).1);
            }
            Some(line)
        } else {
            proof {
                assert(opt_lines(None) =~= greet_spec(old(self)@, target@, now as int, pick as int).1);
            }
            None
        }
    }

    /// Passive observation of a chat line, given the links found in its text and whether the
    /// affection token matched.
    pub fn see(&mut self, msg: &IrcMessage, now: i64, pick: usize, links: &Vec<String>, heart: bool) -> (r: Vec<String>)
        requires
            old(self).wf(),
            valid_time(now as int),
            pick < GREETING_COUNT,
            msg.args@.len() >= 1,
        ensures
            final(self).wf(),
            final(self)@ == see_spec(old(self)@, msg@, now as int, pick as int, views(links@), heart).0,
            views(r@) == see_spec(old(self)@, msg@, now as int, pick as int, views(links@), heart).1,
    {
        let target = msg.args[0].as_str();
        let mut out = self.scrape_urls(target, msg.prefix.nick.as_str(), links, now);
        let ghost after_urls = out@;
        if msg.args.len() == 2 && is_greeting(msg.args[1].as_str()) {
            match self.greet(target, now, pick) {
                Some(line) => {
                    out.push(line);
                    proof {
                        assert(views(out@) =~= views(after_urls) + opt_lines(Some(out@[out@.len() - 1])));
                    }
                },
                None => {
                    proof {
                        assert(views(out@) =~= views(after_urls) + Seq::<Seq<char>>::empty());
                    }
                },
            }
        } else {
            proof {
                assert(views(out@) =~= views(after_urls) + Seq::<Seq<char>>::empty());
            }
        }
        let ghost after_greet = out@;
        if heart {
            out.push(say_line(target, HEART_REPLY));
            proof {
                assert(views(out@) =~= views(after_greet) + seq![say_spec(target@, HEART_REPLY@)]);
            }
        } else {
            proof {
                assert(views(out@) =~= views(after_greet) + Seq::<Seq<char>>::empty());
            }
        }
        out
    }

    /// Whether lines from `nick` are dropped.
    pub fn is_ignored(&self, nick: &str) -> (r: bool)
        ensures
            r == ignored(self@, nick@),
    {
        match &self.ignore {
            None => false,
            Some(list) => {
                let mut i: usize = 0;
                while i < list.len()
                    invariant
                        i <= list@.len(),
                        self@.ignore == Some(views(list@)),
                        forall|j: int| 0 <= j < i ==> views(list@)[j] != nick@,
                    decreases list@.len() - i,
                {
                    if same_text(list[i].as_str(), nick) {
                        proof {
                            assert(views(list@)[i as int] == nick@);
                            assert(views(list@).contains(nick@));

                        }
                        return true;
                    }
                    i = i + 1;
                }
                false
            },
        }
    }

    /// The welcome reply: join the channel, then greet it when the cooldown allows.
    pub fn on_welcome(&mut self, now: i64, pick: usize) -> (r: Vec<Action>)
        requires
            old(self).wf(),
            valid_time(now as int),
            pick < GREETING_COUNT,
        ensures
            final(self).wf(),
            final(self)@ == welcome_spec(old(self)@, now as int, pick as int).0,
            action_views(r@) == welcome_spec(old(self)@, now as int, pick as int).1,
    {
        let mut out: Vec<Action> = Vec::new();
        let channel = self.channel.clone();
        push_send(&mut out, join_line(channel.as_str()));
        let ghost first = out@;
        match self.greet(channel.as_str(), now, pick) {
            Some(line) => push_send(&mut out, line),
            None => {},
        }
        proof {
            assert(action_views(out@) =~= welcome_spec(old(self)@, now as int, pick as int).1);
        }
        out
    }

    /// A chat line: only in the bot's channel, where the sender is recorded first.
    pub fn on_privmsg(&mut self, msg: &IrcMessage, now: i64, pick: usize, links: &Vec<String>, heart: bool) -> (r: Vec<Action>)
        requires
            old(self).wf(),
            valid_time(now as int),
            pick < GREETING_COUNT,
        ensures
            final(self).wf(),
            final(self)@ == privmsg_spec(old(self)@, msg@, now as int, pick as int, views(links@), heart).0,
            action_views(r@) == privmsg_spec(old(self)@, msg@, now as int, pick as int, views(links@), heart).1,
    {
        let mut out: Vec<Action> = Vec::new();
        if msg.args.len() < 2 || !same_text(msg.args[0].as_str(), self.channel.as_str()) {
            proof {
                assert(action_views(out@) =~= Seq::<ActionView>::empty());
            }
            return out;
        }
        out.push(Action::SeeIdent(copy_prefix(&msg.prefix)));
        let ghost seen = out@;
        proof {
            assert(action_views(seen) =~= seq![ActionView::SeeIdent(msg@.prefix)]);
        }
        let text = msg.args[1].as_str();
        let mut address = self.nick.clone();
        address.push(':');
        address.push(' ');
        proof {
            assert(address@ =~= address_of(self@.nick));
        }
        let cs = chars_of(text);
        if starts_with(text, address.as_str()) {
            let channel = self.channel.clone();
            match self.greet(channel.as_str(), now, pick) {
                Some(line) => push_send(&mut out, line),
                None => {
                    proof {
                        assert(action_views(out@) =~= action_views(seen) + sends(Seq::<Seq<char>>::empty()));
                    }
                },
            }
        } else if cs.len() > 0 && cs[0] == '!' {
            let more = on_command(msg);
            let ghost before = out@;
            let mut more = more;
            out.append(&mut more);
            proof {
                assert(action_views(out@) =~= action_views(before) + command_actions(msg@));
            }
        } else {
            let lines = self.see(msg, now, pick, links, heart);
            let mut i: usize = 0;
            while i < lines.len()
                invariant
                    i <= lines@.len(),
                    action_views(out@) == action_views(seen) + sends(views(lines@).subrange(0, i as int)),
                decreases lines@.len() - i,
            {
                let ghost before = out@;
                out.push(Action::Send(lines[i].clone()));
                proof {
                    let sub0 = views(lines@).subrange(0, i as int);
                    let sub1 = views(lines@).subrange(0, i + 1);
                    assert(sub1 =~= sub0.push(lines@[i as int]@));
                    assert(sends(sub1) =~= sends(sub0).push(ActionView::Send(lines@[i as int]@)));
                    assert(action_views(out@) =~= action_views(before).push(ActionView::Send(lines@[i as int]@)));
                    assert(action_views(out@) =~= action_views(seen) + sends(sub1));
                }
                i = i + 1;
            }
            proof {
                assert(views(lines@).subrange(0, i as int) =~= views(lines@));
            }
        }
        out
    }

    /// What one inbound line does. A line that does not parse does nothing, and so does a
    /// chat line from an ignored nick.
    pub fn handle_line(&mut self, line: &str, now: i64) -> (r: Vec<Action>)
        requires
            old(self).wf(),
            valid_time(now as int),
        ensures
            final(self).wf(),
            line_step(old(self)@, line@, now as int, final(self)@, action_views(r@)),
            parse_spec(line@) matches Some(m) && m.command == "PRIVMSG"@ && ignored(old(self)@, m.prefix.nick)
                ==> r@.len() == 0 && final(self)@ == old(self)@,
    {
        match parse_message(line) {
            Err(_) => {
                let out: Vec<Action> = Vec::new();
                proof {
                    assert(line_outcome(old(self)@, line@, now as int, self@, action_views(out@), 0, seq![], false));
                }
                out
            },
            Ok(msg) => {
                let pick = random_below(GREETING_COUNT);
                let mut links: Vec<String> = Vec::new();
                let mut heart = false;
                if msg.args.len() >= 1 && same_text(msg.command.as_str(), "PRIVMSG") {
                    let text = join_from(&msg.args, 1);
                    proof {
                        assert(views(msg.args@).subrange(1, msg.args@.len() as int) =~= msg@.args.drop_first());
                    }
                    links = find_links(text.as_str());
                    heart = check_emote(text.as_str());
                    assert(text@ == chat_of(msg@));
                }
                let ghost before = self@;
                let out = self.react(&msg, now, pick, &links, heart);
                proof {
                    assert(line_outcome(before, line@, now as int, self@, action_views(out@), pick as int, views(links@), heart));
                    if msg@.command == "PRIVMSG"@ && ignored(before, msg@.prefix.nick) {
                        assert(action_views(out@).len() == 0);
                        assert(out@.len() == action_views(out@).len());
                    }
                }
                out
            },
        }
    }

    /// What a buffer read from the server does: each of its lines in order; a line that does
    /// not parse (an empty one too) is dropped and the next one handled.
    pub fn handle_message(&mut self, data: &str, now: i64) -> (r: Vec<Action>)
        requires
            old(self).wf(),
            valid_time(now as int),
        ensures
            final(self).wf(),
            exists|states: Seq<BotView>, chunks: Seq<Seq<ActionView>>|
                #[trigger] run_of(old(self)@, lines_of(data@), now as int, states, chunks)
                    && final(self)@ == states.last() && action_views(r@) == flatten(chunks),
    {
        let lines = split_lines(data);
        let ghost ls = views(lines@);
        let ghost start = self@;
        let ghost mut states: Seq<BotView> = seq![self@];
        let ghost mut chunks: Seq<Seq<ActionView>> = seq![];
        let mut out: Vec<Action> = Vec::new();
        let mut i: usize = 0;
        proof {
            assert(action_views(out@) =~= Seq::<ActionView>::empty());
        }
        while i < lines.len()
            invariant
                i <= lines@.len(),
                ls == views(lines@),
                ls == lines_of(data@),
                self.wf(),
                valid_time(now as int),
                run_of(start, ls.subrange(0, i as int), now as int, states, chunks),
                self@ == states.last(),
                action_views(out@) == flatten(chunks),
            decreases lines@.len() - i,
        {
            let ghost a0 = action_views(out@);
            let more = self.handle_line(lines[i].as_str(), now);
            let ghost a1 = action_views(more@);
            let mut more = more;
            out.append(&mut more);
            proof {
                let old_states = states;
                let old_chunks = chunks;
                states = states.push(self@);
                chunks = chunks.push(a1);
                assert(chunks.drop_last() =~= old_chunks);
                assert(action_views(out@) =~= flatten(chunks));
                let sub = ls.subrange(0, i + 1);
                assert forall|j: int| 0 <= j < sub.len() implies #[trigger] line_step(states[j], sub[j], now as int, states[j + 1], chunks[j]) by {
                    if j < i {
                        assert(states[j] == old_states[j] && states[j + 1] == old_states[j + 1]);
                        assert(chunks[j] == old_chunks[j]);
                        assert(sub[j] == ls.subrange(0, i as int)[j]);
                    } else {
                        assert(sub[j] == lines@[i as int]@);
                    }
                }
            }
            i = i + 1;
        }
        proof {
            assert(ls.subrange(0, i as int) =~= ls);
            assert(run_of(start, lines_of(data@), now as int, states, chunks));
        }
        out
    }

    /// What one parsed message does, given the links found in its chat text and whether the
    /// affection token matched there.
    pub fn react(&mut self, msg: &IrcMessage, now: i64, pick: usize, links: &Vec<String>, heart: bool) -> (r: Vec<Action>)
        requires
            old(self).wf(),
            valid_time(now as int),
            pick < GREETING_COUNT,
        ensures
            final(self).wf(),
            final(self)@ == react_spec(old(self)@, msg@, now as int, pick as int, views(links@), heart).0,
            action_views(r@) == react_spec(old(self)@, msg@, now as int, pick as int, views(links@), heart).1,
    {
        if same_text(msg.command.as_str(), "PRIVMSG") {
            if self.is_ignored(msg.prefix.nick.as_str()) {
                let out: Vec<Action> = Vec::new();
                proof {
                    assert(action_views(out@) =~= Seq::<ActionView>::empty());
                }
                out
            } else {
                self.on_privmsg(msg, now, pick, links, heart)
            }
        } else if same_text(msg.command.as_str(), "001") {
            self.on_welcome(now, pick)
        } else if same_text(msg.command.as_str(), "PING") {
            let out = on_ping(msg);
            proof {
                if msg@.args.len() == 0 {
                    assert(action_views(out@) =~= Seq::<ActionView>::empty());
                }
            }
            out
        } else {
            let out: Vec<Action> = Vec::new();
            proof {
                assert(action_views(out@) =~= Seq::<ActionView>::empty());
            }
            out
        }
    }
}

} // verus!

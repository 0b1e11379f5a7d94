use vstd::prelude::*;

use crate::outside::{tagged_elements, tagged_elements_of};
use crate::text::{chars_of, find, find_char, same_text, split_words, string_of, views, words};

verus! {

/// The commands that a chat line can invoke with `!<name>`.
#[derive(Debug, Clone, Copy, PartialEq, Eq, Structural)]
pub enum CommandKind {
    Weather,
    Ud,
    Strain,
    Nega,
    Kudos,
}

/// The registry: which command a name invokes, if any.
pub open spec fn command_spec(name: Seq<char>) -> Option<CommandKind> {
    if name == "weather"@ {
        Some(CommandKind::Weather)
    } else if name == "ud"@ {
        Some(CommandKind::Ud)
    } else if name == "strain"@ {
        Some(CommandKind::Strain)
    } else if name == "nega"@ {
        Some(CommandKind::Nega)
    } else if name == "kudos"@ {
        Some(CommandKind::Kudos)
    } else {
        None
    }
}

/// Looks a command name up in the registry.
pub fn lookup_command(name: &str) -> (r: Option<CommandKind>)
    ensures
        r == command_spec(name@),
{
    if same_text(name, "weather") {
        Some(CommandKind::Weather)
    } else if same_text(name, "ud") {
        Some(CommandKind::Ud)
    } else if same_text(name, "strain") {
        Some(CommandKind::Strain)
    } else if same_text(name, "nega") {
        Some(CommandKind::Nega)
    } else if same_text(name, "kudos") {
        Some(CommandKind::Kudos)
    } else {
        None
    }
}

/// The words of a command's argument text.
pub fn command_terms(rest: &str) -> (r: Vec<String>)
    ensures
        views(r@) == words(rest@),
{
    let cs = chars_of(rest);
    proof {
        assert(cs@.subrange(0, cs@.len() as int) =~= rest@);
    }
    split_words(&cs, 0, cs.len())
}

/// The strings joined with `sep` between each two.
pub open spec fn join_with(ws: Seq<Seq<char>>, sep: char) -> Seq<char>
    decreases ws.len(),
{
    if ws.len() == 0 {
        seq![]
    } else if ws.len() == 1 {
        ws[0]
    } else {
        join_with(ws.drop_last(), sep).push(sep) + ws.last()
    }
}

/// `parts` joined with `sep`.
pub fn join_terms(parts: &Vec<String>, sep: char) -> (r: String)
    ensures
        r@ == join_with(views(parts@), sep),
{
    let mut out = String::new();
    let mut i: usize = 0;
    while i < parts.len()
        invariant
            i <= parts@.len(),
            out@ == join_with(views(parts@).subrange(0, i as int), sep),
        decreases parts@.len() - i,
    {
        let ghost before = out@;
        if i > 0 {
            out.push(sep);
        }
        out.append(parts[i].as_str());
        proof {
            let sub = views(parts@).subrange(0, i + 1);
            assert(sub.drop_last() =~= views(parts@).subrange(0, i as int));
            if i == 0 {
                assert(out@ =~= sub[0]);
            } else {
                assert(out@ =~= before.push(sep) + sub.last());
            }
        }
        i = i + 1;
    }
    proof {
        assert(views(parts@).subrange(0, i as int) =~= views(parts@));
    }
    out
}

/// The dictionary request for the argument's words, joined with `+`; none without words.
pub fn ud_url(rest: &str) -> (r: Option<String>)
    ensures
        words(rest@).len() == 0 ==> r is None,
        words(rest@).len() > 0 ==> (r matches Some(u) && u@ == "https://api.urbandictionary.com/v0/define?term="@
            + join_with(words(rest@), '+')),
{
    let parts = command_terms(rest);
    if parts.len() == 0 {
        return None;
    }
    let mut url = String::from_str("https://api.urbandictionary.com/v0/define?term=");
    url.append(join_terms(&parts, '+').as_str());
    Some(url)
}

/// The strain page for the argument's words, joined with `-`; none without words.
pub fn strain_url(rest: &str) -> (r: Option<String>)
    ensures
        words(rest@).len() == 0 ==> r is None,
        words(rest@).len() > 0 ==> (r matches Some(u) && u@ == "https://www.leafly.com/strains/"@
            + join_with(words(rest@), '-')),
{
    let parts = command_terms(rest);
    if parts.len() == 0 {
        return None;
    }
    let mut url = String::from_str("https://www.leafly.com/strains/");
    url.append(join_terms(&parts, '-').as_str());
    Some(url)
}

/// The weather request for the argument's first word; none without words.
pub fn weather_url(rest: &str, key: &str) -> (r: Option<String>)
    ensures
        words(rest@).len() == 0 ==> r is None,
        words(rest@).len() > 0 ==> (r matches Some(u) && u@ == "https://api.openweathermap.org/data/2.5/weather?q="@
            + words(rest@)[0] + ",us&APPID="@ + key@),
{
    let parts = command_terms(rest);
    if parts.len() == 0 {
        return None;
    }
    let mut url = String::from_str("https://api.openweathermap.org/data/2.5/weather?q=");
    url.append(parts[0].as_str());
    url.append(",us&APPID=");
    url.append(key);
    Some(url)
}

/// The argument of a vote: the nick it is about, up to the first space, and the reason after
/// it. Without a space (or without any text) there is no vote.
pub open spec fn vote_spec(rest: Seq<char>) -> Option<(Seq<char>, Seq<char>)> {
    let i = find(rest, ' ');
    if i < rest.len() {
        Some((rest.subrange(0, i), rest.subrange(i + 1, rest.len() as int)))
    } else {
        None
    }
}

/// Splits a vote's argument into the nick and the reason.
pub fn parse_vote(rest: &str) -> (r: Option<(String, String)>)
    ensures
        match vote_spec(rest@) {
            Some((nick, reason)) => r matches Some((n, why)) && n@ == nick && why@ == reason,
            None => r is None,
        },
{
    let cs = chars_of(rest);
    let n = cs.len();
    let i = find_char(&cs, 0, n, ' ');
    proof {
        assert(cs@.subrange(0, n as int) =~= rest@);
    }
    if i < n {
        Some((string_of(&cs, 0, i), string_of(&cs, i + 1, n)))
    } else {
        None
    }
}

/// `needle` occurs in `hay`.
pub open spec fn occurs_in(needle: Seq<char>, hay: Seq<char>) -> bool {
    exists|i: int| 0 <= i && i + needle.len() <= hay.len() && #[trigger] hay.subrange(i, i + needle.len()) == needle
}

/// Whether `needle` occurs in `hay`.
pub fn contains_text(hay: &str, needle: &str) -> (r: bool)
    ensures
        r == occurs_in(needle@, hay@),
{
    let h = chars_of(hay);
    let nd = chars_of(needle);
    if nd.len() > h.len() {
        return false;
    }
    let last = h.len() - nd.len();
    let mut i: usize = 0;
    while i <= last
        invariant
            h@ == hay@,
            nd@ == needle@,
            last == h@.len() - nd@.len(),
            forall|k: int| 0 <= k < i ==> #[trigger] hay@.subrange(k, k + needle@.len()) != needle@,
        decreases last + 1 - i,
    {
        let mut j: usize = 0;
        while j < nd.len()
            invariant
                i <= last,
                i + nd@.len() <= h@.len(),
                h@ == hay@,
                nd@ == needle@,
                last == h@.len() - nd@.len(),
                j <= nd@.len(),
                forall|k: int| 0 <= k < j ==> h@[i + k] == nd@[k],
            ensures
                j <= nd@.len(),
                forall|k: int| 0 <= k < j ==> h@[i + k] == nd@[k],
                j < nd@.len() ==> h@[i + j] != nd@[j as int],
            decreases nd@.len() - j,
        {
            assert(h@.len() == h.len());
            if h[i + j] != nd[j] {
                break;
            }
            j = j + 1;
        }
        if j == nd.len() {
            proof {
                assert(hay@.subrange(i as int, i + needle@.len()) =~= needle@);
            }
            return true;
        }
        proof {
            assert(hay@.subrange(i as int, i + needle@.len())[j as int] != needle@[j as int]);
        }
        if i == last {
            proof {
                assert forall|k: int| 0 <= k && k + needle@.len() <= hay@.len() implies #[trigger] hay@.subrange(k, k + needle@.len()) != needle@ by {
                    if k < i {
                    } else {
                        assert(k == i);
                    }
                }
            }
            return false;
        }
        i = i + 1;
    }
    false
}

/// The text of the first element whose class mentions the strain description, among the
/// `div` elements of a page.
pub open spec fn strain_spec(divs: Seq<(Option<Seq<char>>, Seq<char>)>) -> Option<Seq<char>>
    decreases divs.len(),
{
    if divs.len() == 0 {
        None
    } else if divs[0].0 matches Some(c) && occurs_in("strain__description"@, c) {
        Some(divs[0].1)
    } else {
        strain_spec(divs.drop_first())
    }
}

/// The elements as plain values.
pub open spec fn element_views(v: Seq<(Option<String>, String)>) -> Seq<(Option<Seq<char>>, Seq<char>)> {
    v.map_values(|e: (Option<String>, String)| (match e.0 {
        Some(c) => Some(c@),
        None => None,
    }, e.1@))
}

/// The strain description among `divs`: each `div`'s class, if any, and its text.
pub fn pick_strain(divs: &Vec<(Option<String>, String)>) -> (r: Option<String>)
    ensures
        match strain_spec(element_views(divs@)) {
            Some(t) => r matches Some(s) && s@ == t,
            None => r is None,
        },
{
    let ghost all = element_views(divs@);
    let mut i: usize = 0;
    proof {
        assert(all.subrange(0, all.len() as int) =~= all);
    }
    while i < divs.len()
        invariant
            i <= divs@.len(),
            all == element_views(divs@),
            strain_spec(all) == strain_spec(all.subrange(i as int, all.len() as int)),
        decreases divs@.len() - i,
    {
        let ghost rest = all.subrange(i as int, all.len() as int);
        proof {
            assert(rest.drop_first() =~= all.subrange(i + 1, all.len() as int));
            assert(rest[0] == all[i as int]);
        }
        match &divs[i].0 {
            Some(class) => {
                if contains_text(class.as_str(), "strain__description") {
                    return Some(divs[i].1.clone());
                }
            },
            None => {},
        }
        i = i + 1;
    }
    None
}

/// The description on a strain page: the text of its first `div` whose class mentions
/// `strain__description`.
pub fn parse_strain(html: &str) -> (r: Option<String>)
    ensures
        match strain_spec(tagged_elements(html@, "div"@, "class"@)) {
            Some(t) => r matches Some(s) && s@ == t,
            None => r is None,
        },
{
    let divs = tagged_elements_of(html, "div", "class");
    pick_strain(&divs)
}

} // verus!

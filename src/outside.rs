use vstd::prelude::*;

use crate::session::HEART_PATTERN;
use crate::text::views;

verus! {

/// The URLs that linkify finds in a text (scheme optional, e-mail addresses left out), in order.
pub uninterp spec fn links_of(text: Seq<char>) -> Seq<Seq<char>>;

/// Whether the regular expression `pattern` matches somewhere in `text`.
pub uninterp spec fn regex_match(pattern: Seq<char>, text: Seq<char>) -> bool;

/// The RFC 2822 form of a UTC instant, given in milliseconds since the Unix epoch.
pub uninterp spec fn rfc2822_of(millis: int) -> Seq<char>;

/// The elements named `tag` of an HTML document, in document order, each with its attribute
/// `attr` (if present) and its text, as soup parses the document.
pub uninterp spec fn tagged_elements(html: Seq<char>, tag: Seq<char>, attr: Seq<char>) -> Seq<(Option<Seq<char>>, Seq<char>)>;

/// First millisecond of the year 0, UTC.
pub const RFC2822_MIN_MS: i64 = -62167219200000;

/// Last millisecond of the year 9999, UTC.
pub const RFC2822_MAX_MS: i64 = 253402300799999;

/// linkify only starts a URL at a `:` or a `.`.
pub open spec fn has_link_trigger(text: Seq<char>) -> bool {
    text.contains(':') || text.contains('.')
}

/// Relies on linkify's `LinkFinder::links` (URLs only, `url_must_have_scheme(false)`): the
/// links in `text`, in order; with neither `:` nor `.` in the text its scanner never starts.
#[verifier::external_body]
pub(crate) fn find_links(text: &str) -> (r: Vec<String>)
    ensures
        views(r@) == links_of(text@),
        !has_link_trigger(text@) ==> r@.len() == 0,
{
    let mut finder = linkify::LinkFinder::new();
    finder.url_must_have_scheme(false);
    finder.kinds(&[linkify::LinkKind::Url]);
    finder.links(text).map(|link| link.as_str().to_string()).collect()
}

/// Relies on regex's `Regex::new` and `Regex::is_match`: `None` when the pattern does not
/// compile, else whether it matches somewhere in `text`. The affection pattern `<3\b` is
/// valid regex syntax, so it compiles.
#[verifier::external_body]
pub(crate) fn pattern_matches(pattern: &str, text: &str) -> (r: Option<bool>)
    ensures
        r matches Some(b) ==> b == regex_match(pattern@, text@),
        pattern@ == HEART_PATTERN@ ==> r is Some,
{
    match regex::Regex::new(pattern) {
        Ok(re) => Some(re.is_match(text)),
        Err(_) => None,
    }
}

/// Relies on chrono's `DateTime::<Utc>::from_timestamp_millis` and `DateTime::to_rfc2822`,
/// which panics outside the years 0 to 9999.
#[verifier::external_body]
pub(crate) fn rfc2822(millis: i64) -> (r: String)
    requires
        RFC2822_MIN_MS <= millis <= RFC2822_MAX_MS,
    ensures
        r@ == rfc2822_of(millis as int),
{
    chrono::DateTime::<chrono::Utc>::from_timestamp_millis(millis).unwrap().to_rfc2822()
}

/// Relies on soup's `Soup::new`, `QueryBuilder::tag(..).find_all()` and `NodeExt::get` /
/// `NodeExt::text`: the elements named `tag`, with their attribute `attr` and their text.
#[verifier::external_body]
pub(crate) fn tagged_elements_of(html: &str, tag: &str, attr: &str) -> (r: Vec<(Option<String>, String)>)
    ensures
        crate::commands::element_views(r@) == tagged_elements(html@, tag@, attr@),
{
    let doc = soup::Soup::new(html);
    let mut out = Vec::new();
    for node in soup::QueryBuilderExt::tag(&doc, tag).find_all() {
        out.push((soup::NodeExt::get(&node, attr), soup::NodeExt::text(&node)));
    }
    out
}

/// Relies on rand's `Rng::gen_range` on `thread_rng`: a number below `n`; it panics when
/// `n` is 0.
#[verifier::external_body]
pub(crate) fn random_below(n: usize) -> (r: usize)
    requires
        n > 0,
    ensures
        r < n,
{
    rand::Rng::gen_range(&mut rand::thread_rng(), 0..n)
}

} // verus!

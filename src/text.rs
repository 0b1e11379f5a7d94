use vstd::prelude::*;

verus! {

/// Relies on std's `String::push`: it appends one character.
pub assume_specification[ String::push ](s: &mut String, ch: char)
    ensures
        final(s)@ == old(s)@.push(ch),
;

/// The characters of `s`, in order.
pub fn chars_of(s: &str) -> (r: Vec<char>)
    ensures
        r@ == s@,
{
    let mut r: Vec<char> = Vec::new();
    for c in it: s.chars()
        invariant
            r@ == it.seq().subrange(0, it.index() as int),
    {
        r.push(c);
    }
    r
}

/// A copy of `v`.
pub fn copy_strings(v: &Vec<String>) -> (r: Vec<String>)
    ensures
        views(r@) == views(v@),
{
    let mut r: Vec<String> = Vec::new();
    let mut i: usize = 0;
    while i < v.len()
        invariant
            i <= v@.len(),
            views(r@) == views(v@).subrange(0, i as int),
        decreases v@.len() - i,
    {
        let ghost before = r@;
        r.push(v[i].clone());
        proof {
            assert(views(r@) =~= views(before).push(v@[i as int]@));
            assert(views(v@).subrange(0, i + 1) =~= views(v@).subrange(0, i as int).push(v@[i as int]@));
        }
        i = i + 1;
    }
    proof {
        assert(views(v@).subrange(0, i as int) =~= views(v@));
    }
    r
}

/// The string made of `cs[lo..hi]`.
pub fn string_of(cs: &Vec<char>, lo: usize, hi: usize) -> (r: String)
    requires
        lo <= hi <= cs@.len(),
    ensures
        r@ == cs@.subrange(lo as int, hi as int),
{
    let mut r = String::new();
    let mut i = lo;
    while i < hi
        invariant
            lo <= i <= hi <= cs@.len(),
            r@ == cs@.subrange(lo as int, i as int),
        decreases hi - i,
    {
        r.push(cs[i]);
        i = i + 1;
    }
    r
}

/// The characters that `char::is_whitespace` accepts: the Unicode `White_Space` property.
pub open spec fn is_ws(c: char) -> bool {
    ||| '\u{9}' <= c <= '\u{d}'
    ||| c == ' '
    ||| c == '\u{85}'
    ||| c == '\u{a0}'
    ||| c == '\u{1680}'
    ||| '\u{2000}' <= c <= '\u{200a}'
    ||| c == '\u{2028}'
    ||| c == '\u{2029}'
    ||| c == '\u{202f}'
    ||| c == '\u{205f}'
    ||| c == '\u{3000}'
}

/// Whether `c` is whitespace, as `char::is_whitespace` says.
pub fn is_whitespace(c: char) -> (r: bool)
    ensures
        r == is_ws(c),
{
    ('\u{9}' <= c && c <= '\u{d}') || c == ' ' || c == '\u{85}' || c == '\u{a0}' || c == '\u{1680}'
        || ('\u{2000}' <= c && c <= '\u{200a}') || c == '\u{2028}' || c == '\u{2029}'
        || c == '\u{202f}' || c == '\u{205f}' || c == '\u{3000}'
}

/// Index of the first `c` in `s`, or `s.len()` when there is none.
pub open spec fn find(s: Seq<char>, c: char) -> int
    decreases s.len(),
{
    if s.len() == 0 {
        0
    } else if s[0] == c {
        0
    } else {
        1 + find(s.drop_first(), c)
    }
}

/// `s` holds the trailing marker `" :"` at `j`.
pub open spec fn marker_at(s: Seq<char>, j: int) -> bool {
    0 <= j && j + 1 < s.len() && s[j] == ' ' && s[j + 1] == ':'
}

/// What `find` gives: the first `c`, or the length when `c` is absent.
pub proof fn lemma_find_facts(s: Seq<char>, c: char)
    ensures
        0 <= find(s, c) <= s.len(),
        find(s, c) < s.len() ==> s[find(s, c)] == c,
        forall|j: int| 0 <= j < find(s, c) ==> s[j] != c,
        find(s, c) < s.len() <==> s.contains(c),
    decreases s.len(),
{
    if s.len() > 0 && s[0] != c {
        lemma_find_facts(s.drop_first(), c);
        assert forall|j: int| 0 <= j < find(s, c) implies s[j] != c by {
            if j > 0 {
                assert(s[j] == s.drop_first()[j - 1]);
            }
        }
        if s.contains(c) {
            let i = choose|i: int| 0 <= i < s.len() && s[i] == c;
            assert(s.drop_first()[i - 1] == c);
        }
        if find(s, c) < s.len() {
            assert(s[find(s, c)] == s.drop_first()[find(s, c) - 1]);
        }
    }
}

/// Index of the first `" :"` in `s`, or `s.len()` when there is none.
pub open spec fn find_trailing(s: Seq<char>) -> int
    decreases s.len(),
{
    if s.len() < 2 {
        s.len() as int
    } else if s[0] == ' ' && s[1] == ':' {
        0
    } else {
        1 + find_trailing(s.drop_first())
    }
}

/// An index `i` is the first `c` in `s` exactly when no earlier character is `c`.
pub proof fn lemma_find_is(s: Seq<char>, c: char, i: int)
    requires
        0 <= i <= s.len(),
        i < s.len() ==> s[i] == c,
        forall|j: int| 0 <= j < i ==> s[j] != c,
    ensures
        find(s, c) == i,
    decreases s.len(),
{
    if s.len() > 0 && i > 0 {
        assert(s[0] != c);
        lemma_find_is(s.drop_first(), c, i - 1);
    }
}

pub proof fn lemma_find_trailing_is(s: Seq<char>, i: int)
    requires
        0 <= i <= s.len(),
        i == s.len() || marker_at(s, i),
        forall|j: int| 0 <= j < i ==> !#[trigger] marker_at(s, j),
    ensures
        find_trailing(s) == i,
    decreases s.len(),
{
    if s.len() >= 2 && i > 0 {
        assert(!marker_at(s, 0));
        let t = s.drop_first();
        assert forall|j: int| 0 <= j < i - 1 implies !#[trigger] marker_at(t, j) by {
            assert(!marker_at(s, j + 1));
        }
        lemma_find_trailing_is(t, i - 1);
    } else if s.len() < 2 && i < s.len() {
        assert(false);
    }
}

/// First index in `[lo, hi)` holding `c`, or `hi`.
pub fn find_char(cs: &Vec<char>, lo: usize, hi: usize, c: char) -> (r: usize)
    requires
        lo <= hi <= cs@.len(),
    ensures
        lo <= r <= hi,
        r - lo == find(cs@.subrange(lo as int, hi as int), c),
{
    let mut i = lo;
    while i < hi && cs[i] != c
        invariant
            lo <= i <= hi <= cs@.len(),
            forall|j: int| lo <= j < i ==> cs@[j] != c,
        decreases hi - i,
    {
        i = i + 1;
    }
    proof {
        let s = cs@.subrange(lo as int, hi as int);
        assert forall|j: int| 0 <= j < i - lo implies s[j] != c by {
            assert(s[j] == cs@[lo + j]);
        }
        lemma_find_is(s, c, i - lo);
    }
    i
}

/// First index of `" :"` in `cs`, or its length.
pub fn find_trailing_marker(cs: &Vec<char>) -> (r: usize)
    ensures
        r == find_trailing(cs@),
{
    let n = cs.len();
    if n < 2 {
        proof { lemma_find_trailing_is(cs@, n as int); }
        return n;
    }
    let mut i: usize = 0;
    while i + 1 < n && !(cs[i] == ' ' && cs[i + 1] == ':')
        invariant
            n == cs@.len(),
            n >= 2,
            i + 1 <= n,
            forall|j: int| 0 <= j < i ==> !#[trigger] marker_at(cs@, j),
        decreases n - i,
    {
        i = i + 1;
    }
    if i + 1 >= n {
        i = n;
    }
    proof { lemma_find_trailing_is(cs@, i as int); }
    i
}

/// The views of a vector of strings.
pub open spec fn views(v: Seq<String>) -> Seq<Seq<char>> {
    v.map_values(|x: String| x@)
}

/// The maximal runs of non-whitespace characters of `s`, in order (what `split_whitespace` yields).
pub open spec fn words(s: Seq<char>) -> Seq<Seq<char>>
    decreases s.len(),
{
    if s.len() == 0 {
        seq![]
    } else {
        let w = words(s.drop_last());
        let c = s.last();
        if is_ws(c) {
            w
        } else if s.len() >= 2 && !is_ws(s[s.len() - 2]) {
            w.drop_last().push(w.last().push(c))
        } else {
            w.push(seq![c])
        }
    }
}

/// The decimal digits of `n`.
pub open spec fn decimal(n: nat) -> Seq<char>
    decreases n,
{
    if n < 10 {
        seq![digit(n)]
    } else {
        decimal(n / 10).push(digit(n % 10))
    }
}

/// The character of the decimal digit `d`.
pub open spec fn digit(d: nat) -> char {
    (('0' as u8) + d) as char
}

/// `n` written in decimal, as `Display` writes it.
pub fn to_decimal(n: u64) -> (r: String)
    ensures
        r@ == decimal(n as nat),
    decreases n,
{
    let d = (n % 10) as u8;
    let c = (('0' as u8) + d) as char;
    if n < 10 {
        let mut r = String::new();
        r.push(c);
        proof {
            assert(r@ =~= seq![digit(n as nat)]);
        }
        r
    } else {
        let mut r = to_decimal(n / 10);
        r.push(c);
        r
    }
}

/// `a` and `b` hold the same characters.
pub fn same_text(a: &str, b: &str) -> (r: bool)
    ensures
        r == (a@ == b@),
{
    let x = chars_of(a);
    let y = chars_of(b);
    if x.len() != y.len() {
        return false;
    }
    let mut i: usize = 0;
    while i < x.len()
        invariant
            x@ == a@,
            y@ == b@,
            x@.len() == y@.len(),
            i <= x@.len(),
            forall|j: int| 0 <= j < i ==> x@[j] == y@[j],
        decreases x@.len() - i,
    {
        if x[i] != y[i] {
            return false;
        }
        i = i + 1;
    }
    proof {
        assert(x@ =~= y@);
    }
    true
}

/// `text` opens with `p`.
pub fn starts_with(text: &str, p: &str) -> (r: bool)
    ensures
        r == (p@.len() <= text@.len() && text@.subrange(0, p@.len() as int) == p@),
{
    let x = chars_of(text);
    let y = chars_of(p);
    if y.len() > x.len() {
        return false;
    }
    let mut i: usize = 0;
    while i < y.len()
        invariant
            x@ == text@,
            y@ == p@,
            y@.len() <= x@.len(),
            i <= y@.len(),
            forall|j: int| 0 <= j < i ==> x@[j] == y@[j],
        decreases y@.len() - i,
    {
        if x[i] != y[i] {
            proof {
                assert(text@.subrange(0, p@.len() as int)[i as int] != p@[i as int]);
            }
            return false;
        }
        i = i + 1;
    }
    proof {
        assert(text@.subrange(0, p@.len() as int) =~= p@);
    }
    true
}

/// `s` without its leading whitespace.
pub open spec fn trim_start(s: Seq<char>) -> Seq<char>
    decreases s.len(),
{
    if s.len() == 0 || !is_ws(s[0]) {
        s
    } else {
        trim_start(s.drop_first())
    }
}

/// `s` without its trailing whitespace.
pub open spec fn trim_end(s: Seq<char>) -> Seq<char>
    decreases s.len(),
{
    if s.len() == 0 || !is_ws(s.last()) {
        s
    } else {
        trim_end(s.drop_last())
    }
}

/// `s` without whitespace at either end, as `str::trim` gives it.
pub open spec fn trim(s: Seq<char>) -> Seq<char> {
    trim_end(trim_start(s))
}

/// `cs[lo..hi]` trimmed.
pub fn trimmed(cs: &Vec<char>, lo: usize, hi: usize) -> (r: String)
    requires
        lo <= hi <= cs@.len(),
    ensures
        r@ == trim(cs@.subrange(lo as int, hi as int)),
{
    let mut i = lo;
    while i < hi && is_whitespace(cs[i])
        invariant
            lo <= i <= hi <= cs@.len(),
            trim_start(cs@.subrange(lo as int, hi as int)) == trim_start(cs@.subrange(i as int, hi as int)),
        decreases hi - i,
    {
        proof {
            assert(cs@.subrange(i as int, hi as int).drop_first() =~= cs@.subrange(i + 1, hi as int));
        }
        i = i + 1;
    }
    let mut j = hi;
    while j > i && is_whitespace(cs[j - 1])
        invariant
            lo <= i <= j <= hi <= cs@.len(),
            trim_end(cs@.subrange(i as int, hi as int)) == trim_end(cs@.subrange(i as int, j as int)),
        decreases j - i,
    {
        proof {
            assert(cs@.subrange(i as int, j as int).drop_last() =~= cs@.subrange(i as int, j - 1));
        }
        j = j - 1;
    }
    string_of(cs, i, j)
}

/// The strings joined with one space between each two.
pub open spec fn join_spaced(ws: Seq<Seq<char>>) -> Seq<char>
    decreases ws.len(),
{
    if ws.len() == 0 {
        seq![]
    } else if ws.len() == 1 {
        ws[0]
    } else {
        join_spaced(ws.drop_last()) + seq![' '] + ws.last()
    }
}

/// `ws[from..]` joined with spaces.
pub fn join_from(ws: &Vec<String>, from: usize) -> (r: String)
    requires
        from <= ws@.len(),
    ensures
        r@ == join_spaced(views(ws@).subrange(from as int, ws@.len() as int)),
{
    let mut out = String::new();
    let mut i = from;
    while i < ws.len()
        invariant
            from <= i <= ws@.len(),
            out@ == join_spaced(views(ws@).subrange(from as int, i as int)),
        decreases ws@.len() - i,
    {
        let ghost before = out@;
        if i > from {
            out.push(' ');
        }
        out.append(ws[i].as_str());
        proof {
            let sub = views(ws@).subrange(from as int, i + 1);
            assert(sub.drop_last() =~= views(ws@).subrange(from as int, i as int));
            if i == from {
                assert(out@ =~= sub[0]);
            } else {
                assert(out@ =~= before + seq![' '] + sub.last());
            }
        }
        i = i + 1;
    }
    out
}

/// The pieces of `s` between newlines: one more than it has newlines.
pub open spec fn pieces(s: Seq<char>) -> Seq<Seq<char>>
    decreases s.len(),
{
    if s.len() == 0 {
        seq![seq![]]
    } else {
        let p = pieces(s.drop_last());
        if s.last() == '\n' {
            p.push(seq![])
        } else {
            p.drop_last().push(p.last().push(s.last()))
        }
    }
}

/// A line ended by CRLF loses its CR.
pub open spec fn strip_cr(l: Seq<char>) -> Seq<char> {
    if l.len() > 0 && l.last() == '\r' {
        l.drop_last()
    } else {
        l
    }
}

/// The lines of `s` as `str::lines` yields them: split at `\n`, a `\r` before it dropped, and
/// no empty line after a final newline.
pub open spec fn lines_of(s: Seq<char>) -> Seq<Seq<char>> {
    let p = pieces(s);
    let body = p.drop_last().map_values(|l: Seq<char>| strip_cr(l));
    if p.last().len() == 0 {
        body
    } else {
        body.push(p.last())
    }
}

/// The lines of `s`.
pub fn split_lines(s: &str) -> (r: Vec<String>)
    ensures
        views(r@) == lines_of(s@),
{
    let cs = chars_of(s);
    let mut done: Vec<String> = Vec::new();
    let mut cur: Vec<char> = Vec::new();
    let ghost mut raw: Seq<Seq<char>> = seq![];
    let mut i: usize = 0;
    while i < cs.len()
        invariant
            i <= cs@.len(),
            cs@ == s@,
            pieces(cs@.subrange(0, i as int)) == raw.push(cur@),
            views(done@) == raw.map_values(|l: Seq<char>| strip_cr(l)),
        decreases cs@.len() - i,
    {
        let c = cs[i];
        proof {
            assert(cs@.subrange(0, i + 1).drop_last() =~= cs@.subrange(0, i as int));
            assert(cs@.subrange(0, i + 1).last() == c);
        }
        if c == '\n' {
            let n = cur.len();
            let line = if n > 0 && cur[n - 1] == '\r' {
                string_of(&cur, 0, n - 1)
            } else {
                string_of(&cur, 0, n)
            };
            proof {
                assert(cur@.subrange(0, n as int) =~= cur@);
                assert(cur@.subrange(0, n - 1) =~= cur@.drop_last());
            }
            let ghost before = done@;
            done.push(line);
            proof {
                assert(views(done@) =~= views(before).push(strip_cr(cur@)));
                assert(raw.push(cur@).map_values(|l: Seq<char>| strip_cr(l)) =~= raw.map_values(|l: Seq<char>| strip_cr(l)).push(strip_cr(cur@)));
                raw = raw.push(cur@);
            }
            cur = Vec::new();
            proof {
                assert(pieces(cs@.subrange(0, i + 1)) =~= raw.push(cur@));
            }
        } else {
            cur.push(c);
            proof {
                let p = raw.push(cur@.drop_last());
                assert(p.drop_last() =~= raw);
                assert(pieces(cs@.subrange(0, i + 1)) =~= raw.push(cur@));
            }
        }
        i = i + 1;
    }
    proof {
        assert(cs@.subrange(0, i as int) =~= s@);
        let p = raw.push(cur@);
        assert(p.drop_last() =~= raw);
    }
    if cur.len() > 0 {
        let n = cur.len();
        let ghost before = done@;
        done.push(string_of(&cur, 0, n));
        proof {
            assert(cur@.subrange(0, n as int) =~= cur@);
            assert(views(done@) =~= views(before).push(cur@));
        }
    }
    done
}

/// No character of `w` is whitespace.
pub open spec fn no_ws(w: Seq<char>) -> bool {
    forall|i: int| 0 <= i < w.len() ==> !is_ws(#[trigger] w[i])
}

/// Appending a whitespace character adds no word.
pub proof fn lemma_words_append_ws(y: Seq<char>, c: char)
    requires
        is_ws(c),
    ensures
        words(y.push(c)) == words(y),
{
    assert(y.push(c).drop_last() =~= y);
}

/// Appending a word after whitespace (or at the start) adds exactly that word.
pub proof fn lemma_words_append_word(y: Seq<char>, w: Seq<char>)
    requires
        y.len() == 0 || is_ws(y.last()),
        w.len() > 0,
        no_ws(w),
    ensures
        words(y + w) == words(y).push(w),
    decreases w.len(),
{
    let s = y + w;
    assert(s.last() == w.last());
    assert(!is_ws(w[w.len() - 1]));
    if w.len() == 1 {
        assert(s.drop_last() =~= y);
        if s.len() >= 2 {
            assert(s[s.len() - 2] == y.last());
        }
        assert(seq![w[0]] =~= w);
    } else {
        let w1 = w.drop_last();
        assert(no_ws(w1)) by {
            assert forall|i: int| 0 <= i < w1.len() implies !is_ws(#[trigger] w1[i]) by {
                assert(w1[i] == w[i]);
            }
        }
        lemma_words_append_word(y, w1);
        assert(s.drop_last() =~= y + w1);
        assert(s[s.len() - 2] == w[w.len() - 2]);
        let big = words(y).push(w1);
        assert(big.drop_last() =~= words(y));
        assert(big.last() == w1);
        assert(w1.push(w.last()) =~= w);
    }
}

/// The words of `cs[lo..hi]`.
pub fn split_words(cs: &Vec<char>, lo: usize, hi: usize) -> (r: Vec<String>)
    requires
        lo <= hi <= cs@.len(),
    ensures
        views(r@) == words(cs@.subrange(lo as int, hi as int)),
{
    let mut out: Vec<String> = Vec::new();
    let mut cur = String::new();
    let mut in_word = false;
    let mut i = lo;
    while i < hi
        invariant
            lo <= i <= hi <= cs@.len(),
            in_word == (i > lo && !is_ws(cs@[i - 1])),
            in_word ==> views(out@).push(cur@) == words(cs@.subrange(lo as int, i as int)),
            !in_word ==> views(out@) == words(cs@.subrange(lo as int, i as int)),
        decreases hi - i,
    {
        let c = cs[i];
        let ghost s = cs@.subrange(lo as int, i + 1);
        proof {
            assert(s.drop_last() =~= cs@.subrange(lo as int, i as int));
            assert(s.last() == c);
            if i > lo {
                assert(s[s.len() - 2] == cs@[i - 1]);
            }
        }
        if is_whitespace(c) {
            if in_word {
                let ghost before = out@;
                out.push(cur);
                proof {
                    assert(views(out@) =~= views(before).push(cur@));
                }
                cur = String::new();
            }
            in_word = false;
        } else {
            if in_word {
                let ghost w = views(out@).push(cur@);
                cur.push(c);
                proof {
                    assert(w.drop_last() =~= views(out@));
                }
            } else {
                cur = String::new();
                cur.push(c);
                proof {
                    assert(cur@ =~= seq![c]);
                }
            }
            in_word = true;
        }
        i = i + 1;
    }
    if in_word {
        let ghost before = out@;
        out.push(cur);
        proof {
            assert(views(out@) =~= views(before).push(cur@));
        }
    }
    out
}

} // verus!

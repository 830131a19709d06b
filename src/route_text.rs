//! Reading the routing daemon's route dumps: splitting a dump into route
//! entries and pulling out the protocol name, the next hop and the AS path.
use vstd::prelude::*;
use crate::text::{copy_range, split_words, text_chars, trim, trim_chars, words};

verus! {

/// The index of the line break that ends the line holding `i`, or the length.
pub open spec fn line_end(s: Seq<char>, i: int) -> int
    decreases s.len() - i,
{
    if i < 0 {
        0
    } else if i >= s.len() {
        s.len() as int
    } else if s[i] == '\n' {
        i
    } else {
        line_end(s, i + 1)
    }
}

pub open spec fn at_line_start(s: Seq<char>, i: int) -> bool {
    i == 0 || (0 < i <= s.len() && s[i - 1] == '\n')
}

pub open spec fn has_prefix_at(s: Seq<char>, i: int, p: Seq<char>) -> bool {
    0 <= i && i + p.len() <= s.len() && s.subrange(i, i + p.len()) == p
}

/// The first index from `i` on where a line starts with `p`.
pub open spec fn find_line(s: Seq<char>, p: Seq<char>, i: int) -> Option<int>
    decreases s.len() - i,
{
    if i < 0 || i >= s.len() {
        None
    } else if at_line_start(s, i) && has_prefix_at(s, i, p) {
        Some(i)
    } else {
        find_line(s, p, i + 1)
    }
}

/// Whether a `]` follows index `j` on its line.
pub open spec fn close_on_line(s: Seq<char>, j: int) -> bool
    decreases s.len() - j,
{
    if j < 0 || j >= s.len() || s[j] == '\n' {
        false
    } else if s[j] == ']' {
        true
    } else {
        close_on_line(s, j + 1)
    }
}

/// The first index from `j` on that holds a space or a line break, or the length.
pub open spec fn token_stop(s: Seq<char>, j: int) -> int
    decreases s.len() - j,
{
    if j < 0 {
        0
    } else if j >= s.len() {
        s.len() as int
    } else if s[j] == ' ' || s[j] == '\n' {
        j
    } else {
        token_stop(s, j + 1)
    }
}

/// A bracketed protocol annotation `[name ...]` opens at `p`: the name runs to
/// the first space, and a `]` closes the annotation later on the same line.
pub open spec fn bracket_at(s: Seq<char>, p: int) -> bool {
    0 <= p < s.len() && s[p] == '[' && token_stop(s, p + 1) < s.len() && s[token_stop(s, p + 1)]
        == ' ' && close_on_line(s, token_stop(s, p + 1) + 1)
}

pub open spec fn find_bracket(s: Seq<char>, p: int) -> Option<int>
    decreases s.len() - p,
{
    if p < 0 || p >= s.len() {
        None
    } else if bracket_at(s, p) {
        Some(p)
    } else {
        find_bracket(s, p + 1)
    }
}

/// The protocol name of a route entry, untrimmed, if it has one.
pub open spec fn protocol_capture(s: Seq<char>) -> Option<Seq<char>> {
    match find_bracket(s, 0) {
        Some(p) => Some(s.subrange(p + 1, token_stop(s, p + 1))),
        None => None,
    }
}

/// The next-hop line `\tvia ...` of a route entry, without the tab and trimmed.
pub open spec fn via_text(s: Seq<char>) -> Seq<char> {
    match find_line(s, "\tvia "@, 0) {
        Some(i) => trim(s.subrange(i + 1, line_end(s, i + 1))),
        None => Seq::empty(),
    }
}

/// What follows `\tBGP.as_path: ` on its line, if a line starts so.
pub open spec fn as_path_field(s: Seq<char>) -> Option<Seq<char>> {
    match find_line(s, "\tBGP.as_path: "@, 0) {
        Some(i) => Some(s.subrange(i + 14, line_end(s, i + 14))),
        None => None,
    }
}

/// `t` without its leading `(`s.
pub open spec fn strip_open(t: Seq<char>) -> Seq<char>
    decreases t.len(),
{
    if t.len() > 0 && t[0] == '(' {
        strip_open(t.drop_first())
    } else {
        t
    }
}

/// `t` without its trailing `)`s.
pub open spec fn strip_close(t: Seq<char>) -> Seq<char>
    decreases t.len(),
{
    if t.len() > 0 && t.last() == ')' {
        strip_close(t.drop_last())
    } else {
        t
    }
}

/// An AS path element with the parentheses of a confederation segment removed.
pub open spec fn path_element(t: Seq<char>) -> Seq<char> {
    strip_close(strip_open(t))
}

/// The AS path of a route entry, first hop first.
pub open spec fn as_path(s: Seq<char>) -> Seq<Seq<char>> {
    match as_path_field(s) {
        Some(f) => words(f).map_values(|t: Seq<char>| path_element(t)),
        None => Seq::empty(),
    }
}

/// The length of the route-type keyword that starts at `i`, or 0.
pub open spec fn keyword_len(s: Seq<char>, i: int) -> int {
    if has_prefix_at(s, i, "unicast"@) {
        7
    } else if has_prefix_at(s, i, "blackhole"@) {
        9
    } else if has_prefix_at(s, i, "unreachable"@) {
        11
    } else if has_prefix_at(s, i, "prohibited"@) {
        10
    } else {
        0
    }
}

/// The pieces of `s` between route-type keywords, scanning from `i`, where the
/// current piece began at `start`.
pub open spec fn pieces_from(s: Seq<char>, i: int, start: int) -> Seq<Seq<char>>
    decreases s.len() - i,
{
    if i < 0 || start < 0 || start > i || i >= s.len() {
        seq![s.subrange(start, s.len() as int)]
    } else if keyword_len(s, i) > 0 && i + keyword_len(s, i) <= s.len() {
        seq![s.subrange(start, i)] + pieces_from(s, i + keyword_len(s, i), i + keyword_len(s, i))
    } else {
        pieces_from(s, i + 1, start)
    }
}

pub proof fn lemma_pieces_nonempty(s: Seq<char>, i: int, start: int)
    ensures
        pieces_from(s, i, start).len() >= 1,
    decreases s.len() - i,
{
    if !(i < 0 || start < 0 || start > i || i >= s.len()) {
        if !(keyword_len(s, i) > 0 && i + keyword_len(s, i) <= s.len()) {
            lemma_pieces_nonempty(s, i + 1, start);
        }
    }
}

/// A dump split at its route-type keywords; the first piece is the table header.
pub open spec fn route_pieces(s: Seq<char>) -> Seq<Seq<char>> {
    pieces_from(s, 0, 0)
}

/// Whether `p` occurs in `s` at `i`.
pub fn matches_at(s: &[char], i: usize, p: &[char]) -> (r: bool)
    ensures
        r == has_prefix_at(s@, i as int, p@),
{
    if i > s.len() || p.len() > s.len() - i {
        return false;
    }
    let mut k: usize = 0;
    while k < p.len()
        invariant
            i + p@.len() <= s@.len(),
            p@.len() == p.len(),
            s@.len() == s.len(),
            k <= p@.len(),
            forall|m: int| 0 <= m < k ==> s@[i + m] == p@[m],
        decreases p@.len() - k,
    {
        if s[i + k] != p[k] {
            assert(s@.subrange(i as int, i + p@.len())[k as int] != p@[k as int]);
            return false;
        }
        k = k + 1;
    }
    assert(s@.subrange(i as int, i + p@.len()) =~= p@);
    true
}

pub fn find_line_end(s: &[char], i: usize) -> (r: usize)
    requires
        i <= s@.len(),
    ensures
        r == line_end(s@, i as int),
        i <= r <= s@.len(),
{
    let mut j: usize = i;
    while j < s.len() && s[j] != '\n'
        invariant
            i <= j <= s@.len(),
            line_end(s@, j as int) == line_end(s@, i as int),
        decreases s@.len() - j,
    {
        j = j + 1;
    }
    j
}

/// The first index where a line of `s` starts with `p`.
pub fn find_line_start(s: &[char], p: &[char]) -> (r: Option<usize>)
    ensures
        r matches Some(i) ==> find_line(s@, p@, 0) == Some(i as int) && i < s.len() && i + p.len()
            <= s.len() && has_prefix_at(s@, i as int, p@),
        r is None ==> find_line(s@, p@, 0) is None,
{
    let mut i: usize = 0;
    while i < s.len()
        invariant
            i <= s@.len(),
            find_line(s@, p@, i as int) == find_line(s@, p@, 0),
        decreases s@.len() - i,
    {
        if (i == 0 || s[i - 1] == '\n') && matches_at(s, i, p) {
            return Some(i);
        }
        i = i + 1;
    }
    None
}


fn find_token_stop(s: &[char], j: usize) -> (r: usize)
    requires
        j <= s@.len(),
    ensures
        r == token_stop(s@, j as int),
        j <= r <= s@.len(),
{
    let mut k: usize = j;
    while k < s.len() && s[k] != ' ' && s[k] != '\n'
        invariant
            j <= k <= s@.len(),
            token_stop(s@, k as int) == token_stop(s@, j as int),
        decreases s@.len() - k,
    {
        k = k + 1;
    }
    k
}

fn has_close_on_line(s: &[char], j: usize) -> (r: bool)
    requires
        j <= s@.len(),
    ensures
        r == close_on_line(s@, j as int),
{
    let mut k: usize = j;
    while k < s.len() && s[k] != '\n'
        invariant
            j <= k <= s@.len(),
            close_on_line(s@, k as int) == close_on_line(s@, j as int),
        decreases s@.len() - k,
    {
        if s[k] == ']' {
            return true;
        }
        k = k + 1;
    }
    false
}

/// The protocol name of a route entry, untrimmed, if it has one.
pub fn extract_protocol(s: &[char]) -> (r: Option<Vec<char>>)
    ensures
        r.is_some() == protocol_capture(s@).is_some(),
        r matches Some(v) ==> protocol_capture(s@) == Some(v@),
{
    let mut p: usize = 0;
    while p < s.len()
        invariant
            p <= s@.len(),
            find_bracket(s@, p as int) == find_bracket(s@, 0),
        decreases s@.len() - p,
    {
        if s[p] == '[' {
            let q = find_token_stop(s, p + 1);
            if q < s.len() && s[q] == ' ' && has_close_on_line(s, q + 1) {
                return Some(copy_range(s, p + 1, q));
            }
        }
        p = p + 1;
    }
    None
}

/// The next hop of a route entry, as `via_text` states it.
pub fn extract_via(s: &[char]) -> (r: Vec<char>)
    ensures
        r@ == via_text(s@),
{
    let pat = text_chars("\tvia ");
    match find_line_start(s, pat.as_slice()) {
        Some(i) => {
            let e = find_line_end(s, i + 1);
            let line = copy_range(s, i + 1, e);
            trim_chars(line.as_slice())
        },
        None => Vec::new(),
    }
}

fn strip_element(t: &[char]) -> (r: Vec<char>)
    ensures
        r@ == path_element(t@),
{
    let n = t.len();
    let mut i: usize = 0;
    assert(t@.subrange(0, n as int) =~= t@);
    while i < n && t[i] == '('
        invariant
            i <= n == t@.len(),
            strip_open(t@.subrange(i as int, n as int)) == strip_open(t@),
        decreases n - i,
    {
        assert(t@.subrange(i as int, n as int).drop_first() =~= t@.subrange(i + 1, n as int));
        i = i + 1;
    }
    let mut j: usize = n;
    while j > i && t[j - 1] == ')'
        invariant
            i <= j <= n == t@.len(),
            strip_close(t@.subrange(i as int, j as int)) == strip_close(t@.subrange(i as int, n as int)),
        decreases j,
    {
        assert(t@.subrange(i as int, j as int).drop_last() =~= t@.subrange(i as int, j - 1));
        j = j - 1;
    }
    copy_range(t, i, j)
}

/// The AS path of a route entry, as `as_path` states it.
pub fn extract_as_path(s: &[char]) -> (r: Vec<Vec<char>>)
    ensures
        r@.map_values(|w: Vec<char>| w@) == as_path(s@),
{
    let pat = text_chars("\tBGP.as_path: ");
    match find_line_start(s, pat.as_slice()) {
        Some(i) => {
            proof {
                reveal_strlit("\tBGP.as_path: ");
            }
            let e = find_line_end(s, i + 14);
            let field = copy_range(s, i + 14, e);
            let toks = split_words(field.as_slice());
            let mut r: Vec<Vec<char>> = Vec::new();
            let mut k: usize = 0;
            while k < toks.len()
                invariant
                    k <= toks@.len(),
                    toks@.map_values(|w: Vec<char>| w@) == words(field@),
                    r@.map_values(|w: Vec<char>| w@) =~= words(field@).take(k as int).map_values(
                        |t: Seq<char>| path_element(t),
                    ),
                decreases toks@.len() - k,
            {
                let el = strip_element(toks[k].as_slice());
                assert(toks@.map_values(|w: Vec<char>| w@)[k as int] == toks@[k as int]@);
                let ghost before = r@.map_values(|w: Vec<char>| w@);
                r.push(el);
                assert(r@.map_values(|w: Vec<char>| w@) =~= before.push(el@));
                assert(words(field@).take(k + 1 as int) =~= words(field@).take(k as int).push(
                    words(field@)[k as int],
                ));
                k = k + 1;
                assert(r@.map_values(|w: Vec<char>| w@) =~= words(field@).take(k as int).map_values(
                    |t: Seq<char>| path_element(t),
                ));
            }
            assert(words(field@).take(k as int) =~= words(field@));
            r
        },
        None => Vec::new(),
    }
}

pub fn keyword_at(s: &[char], i: usize) -> (r: usize)
    ensures
        r as int == keyword_len(s@, i as int),
{
    if matches_at(s, i, text_chars("unicast").as_slice()) {
        7
    } else if matches_at(s, i, text_chars("blackhole").as_slice()) {
        9
    } else if matches_at(s, i, text_chars("unreachable").as_slice()) {
        11
    } else if matches_at(s, i, text_chars("prohibited").as_slice()) {
        10
    } else {
        0
    }
}

/// A dump split at its route-type keywords, as `route_pieces` states it.
pub fn split_routes(s: &[char]) -> (r: Vec<Vec<char>>)
    ensures
        r@.map_values(|w: Vec<char>| w@) == route_pieces(s@),
{
    let n = s.len();
    let mut r: Vec<Vec<char>> = Vec::new();
    let mut i: usize = 0;
    let mut start: usize = 0;
    while i < n
        invariant
            start <= i <= n == s@.len(),
            r@.map_values(|w: Vec<char>| w@) + pieces_from(s@, i as int, start as int) == route_pieces(
                s@,
            ),
        decreases n - i,
    {
        let k = keyword_at(s, i);
        if k > 0 && k <= n - i {
            let piece = copy_range(s, start, i);
            let ghost before = r@.map_values(|w: Vec<char>| w@);
            r.push(piece);
            assert(r@.map_values(|w: Vec<char>| w@) =~= before.push(s@.subrange(start as int, i as int)));
            i = i + k;
            start = i;
        } else {
            i = i + 1;
        }
    }
    let piece = copy_range(s, start, n);
    let ghost before = r@.map_values(|w: Vec<char>| w@);
    r.push(piece);
    assert(r@.map_values(|w: Vec<char>| w@) =~= before.push(s@.subrange(start as int, n as int)));
    r
}

} // verus!

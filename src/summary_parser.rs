//! Reading the daemon's protocol summary (`show protocols`) into table rows.
//!
//! A row is: name, protocol and state as words, the table as a word that may
//! hold `-`, then the time since the last change (digits, `-`, `.`, `:` and
//! spaces) and free text. Words are ASCII letters, digits and `_`.
use vstd::prelude::*;
use crate::handlers::{get_state_map, state_class};
use crate::route_text::{has_prefix_at, matches_at};
use crate::templates::{SummaryContext, SummaryRowData};
use crate::text::{
    copy_range, is_whitespace_char, is_ws, owned, push_str, split_on, split_char, split_words, text_chars,
    text_from_chars, texts_of, trim, trim_chars, words,
};

verus! {

pub open spec fn is_word_char(c: char) -> bool {
    ('a' <= c && c <= 'z') || ('A' <= c && c <= 'Z') || ('0' <= c && c <= '9') || c == '_'
}

pub open spec fn is_table_char(c: char) -> bool {
    is_word_char(c) || c == '-'
}

pub open spec fn is_since_char(c: char) -> bool {
    ('0' <= c && c <= '9') || c == '-' || c == '.' || c == ' ' || c == ':'
}

/// The end of the run from `i` of characters that `kind` names:
/// 0 word, 1 table, 2 whitespace, 3 time.
pub open spec fn in_class(kind: int, c: char) -> bool {
    if kind == 0 {
        is_word_char(c)
    } else if kind == 1 {
        is_table_char(c)
    } else if kind == 2 {
        is_ws(c)
    } else {
        is_since_char(c)
    }
}

pub open spec fn run_to(s: Seq<char>, kind: int, i: int) -> int
    decreases s.len() - i,
{
    if i < 0 {
        0
    } else if i >= s.len() || !in_class(kind, s[i]) {
        if i >= s.len() { s.len() as int } else { i }
    } else {
        run_to(s, kind, i + 1)
    }
}

/// Where the time field starts after the whitespace `[a, b)` that follows the
/// state: at `b` when a time character is there, else at the last space of
/// that whitespace (a space is a time character too). -1 when neither.
pub open spec fn since_start(s: Seq<char>, a: int, k: int) -> int
    decreases k - a,
{
    if k <= a {
        -1
    } else if 0 <= k < s.len() && is_since_char(s[k]) {
        k
    } else {
        since_start(s, a, k - 1)
    }
}

/// The fields of a row that starts at `p`: the six field boundaries.
pub open spec fn row_at(s: Seq<char>, p: int) -> Option<Seq<int>> {
    let e1 = run_to(s, 0, p);
    let w1 = run_to(s, 2, e1);
    let e2 = run_to(s, 0, w1);
    let w2 = run_to(s, 2, e2);
    let e3 = run_to(s, 1, w2);
    let w3 = run_to(s, 2, e3);
    let e4 = run_to(s, 0, w3);
    let w4 = run_to(s, 2, e4);
    let k = since_start(s, e4, w4);
    if p < e1 && e1 < w1 && w1 < e2 && e2 < w2 && w2 < e3 && e3 < w3 && w3 < e4 && e4 < w4 && k >= 0 {
        Some(seq![p, e1, w1, e2, w2, e3, w3, e4, k, run_to(s, 3, k)])
    } else {
        None
    }
}

/// The first position from `q` on where a row starts.
pub open spec fn find_row(s: Seq<char>, q: int) -> Option<Seq<int>>
    decreases s.len() - q,
{
    if q < 0 || q >= s.len() {
        None
    } else if is_word_char(s[q]) && row_at(s, q) is Some {
        row_at(s, q)
    } else {
        find_row(s, q + 1)
    }
}

/// A parsed row as (name, proto, table, state, since, info).
pub struct RowModel {
    pub name: Seq<char>,
    pub proto: Seq<char>,
    pub table: Seq<char>,
    pub state: Seq<char>,
    pub since: Seq<char>,
    pub info: Seq<char>,
}

pub open spec fn has_text(s: Seq<char>, t: Seq<char>) -> bool {
    exists|i: int| #[trigger] has_prefix_at(s, i, t)
}

/// The row a line holds, if any.
pub open spec fn parse_row(line: Seq<char>) -> Option<RowModel> {
    match find_row(line, 0) {
        Some(b) => Some(
            RowModel {
                name: line.subrange(b[0], b[1]),
                proto: line.subrange(b[2], b[3]),
                table: line.subrange(b[4], b[5]),
                state: line.subrange(b[6], b[7]),
                since: trim(line.subrange(b[8], b[9])),
                info: trim(line.subrange(b[9], line.len() as int)),
            },
        ),
        None => None,
    }
}

/// A row's badge: `info` for passive sessions, else by state.
pub open spec fn mapped_state(r: RowModel) -> Seq<char> {
    if has_text(r.info, "Passive"@) {
        "info"@
    } else {
        state_class(r.state)
    }
}

/// The rows of the data lines, in order, skipping blank and unreadable ones.
pub open spec fn rows_of(lines: Seq<Seq<char>>) -> Seq<RowModel>
    decreases lines.len(),
{
    if lines.len() == 0 {
        Seq::empty()
    } else {
        let rest = rows_of(lines.drop_last());
        let l = trim(lines.last());
        if l.len() == 0 {
            rest
        } else {
            match parse_row(l) {
                Some(r) => rest.push(r),
                None => rest,
            }
        }
    }
}

/// Lexicographic order of names, comparing from index `i` on.
pub open spec fn name_le_from(a: Seq<char>, b: Seq<char>, i: int) -> bool
    decreases a.len() - i,
{
    if i < 0 || i >= a.len() {
        true
    } else if i >= b.len() {
        false
    } else if a[i] != b[i] {
        a[i] < b[i]
    } else {
        name_le_from(a, b, i + 1)
    }
}

/// Lexicographic order of names.
pub open spec fn name_le(a: Seq<char>, b: Seq<char>) -> bool {
    name_le_from(a, b, 0)
}

/// How many leading rows of a sorted list come before `r`: those whose
/// names are not greater.
pub open spec fn insert_pos(sorted: Seq<RowModel>, r: RowModel) -> int
    decreases sorted.len(),
{
    if sorted.len() == 0 {
        0
    } else if name_le(sorted.last().name, r.name) {
        sorted.len() as int
    } else {
        insert_pos(sorted.drop_last(), r)
    }
}

/// The rows sorted by name, stably: each is inserted after every row not greater.
pub open spec fn sort_rows(rows: Seq<RowModel>) -> Seq<RowModel>
    decreases rows.len(),
{
    if rows.len() == 0 {
        Seq::empty()
    } else {
        let s = sort_rows(rows.drop_last());
        s.insert(insert_pos(s, rows.last()), rows.last())
    }
}

impl View for SummaryRowData {
    type V = RowModel;

    open spec fn view(&self) -> RowModel {
        RowModel {
            name: self.name@,
            proto: self.proto@,
            table: self.table@,
            state: self.state@,
            since: self.since@,
            info: self.info@,
        }
    }
}


proof fn lemma_run_to_bounds(s: Seq<char>, kind: int, i: int)
    requires
        0 <= i <= s.len(),
    ensures
        i <= run_to(s, kind, i) <= s.len(),
    decreases s.len() - i,
{
    if i < s.len() && in_class(kind, s[i]) {
        lemma_run_to_bounds(s, kind, i + 1);
    }
}

proof fn lemma_since_start_bounds(s: Seq<char>, a: int, k: int)
    ensures
        since_start(s, a, k) == -1 || (a < since_start(s, a, k) <= k),
    decreases k - a,
{
    if k > a && !(0 <= k < s.len() && is_since_char(s[k])) {
        lemma_since_start_bounds(s, a, k - 1);
    }
}

/// The ordered field boundaries of a row found from `q`.
pub open spec fn bounds_ok(s: Seq<char>, b: Seq<int>) -> bool {
    b.len() == 10 && 0 <= b[0] && b[0] < b[1] && b[1] < b[2] && b[2] < b[3] && b[3] < b[4] && b[4]
        < b[5] && b[5] < b[6] && b[6] < b[7] && b[7] < b[8] && b[8] <= b[9] && b[9] <= s.len()
}

proof fn lemma_find_row_bounds(s: Seq<char>, q: int)
    requires
        0 <= q,
    ensures
        find_row(s, q) matches Some(b) ==> bounds_ok(s, b),
    decreases s.len() - q,
{
    if q < s.len() {
        if is_word_char(s[q]) && row_at(s, q) is Some {
            let e1 = run_to(s, 0, q);
            lemma_run_to_bounds(s, 0, q);
            let w1 = run_to(s, 2, e1);
            lemma_run_to_bounds(s, 2, e1);
            let e2 = run_to(s, 0, w1);
            lemma_run_to_bounds(s, 0, w1);
            let w2 = run_to(s, 2, e2);
            lemma_run_to_bounds(s, 2, e2);
            let e3 = run_to(s, 1, w2);
            lemma_run_to_bounds(s, 1, w2);
            let w3 = run_to(s, 2, e3);
            lemma_run_to_bounds(s, 2, e3);
            let e4 = run_to(s, 0, w3);
            lemma_run_to_bounds(s, 0, w3);
            let w4 = run_to(s, 2, e4);
            lemma_run_to_bounds(s, 2, e4);
            let k = since_start(s, e4, w4);
            lemma_since_start_bounds(s, e4, w4);
            lemma_run_to_bounds(s, 3, k);
        } else {
            lemma_find_row_bounds(s, q + 1);
        }
    }
}

fn in_class_exec(kind: usize, c: char) -> (r: bool)
    ensures
        r == in_class(kind as int, c),
{
    if kind == 0 {
        ('a' <= c && c <= 'z') || ('A' <= c && c <= 'Z') || ('0' <= c && c <= '9') || c == '_'
    } else if kind == 1 {
        ('a' <= c && c <= 'z') || ('A' <= c && c <= 'Z') || ('0' <= c && c <= '9') || c == '_' || c == '-'
    } else if kind == 2 {
        is_whitespace_char(c)
    } else {
        ('0' <= c && c <= '9') || c == '-' || c == '.' || c == ' ' || c == ':'
    }
}

fn run_end_of(s: &[char], kind: usize, i: usize) -> (r: usize)
    requires
        i <= s@.len(),
    ensures
        r as int == run_to(s@, kind as int, i as int),
        i <= r <= s@.len(),
{
    let mut j = i;
    while j < s.len() && in_class_exec(kind, s[j])
        invariant
            i <= j <= s@.len(),
            run_to(s@, kind as int, j as int) == run_to(s@, kind as int, i as int),
        decreases s@.len() - j,
    {
        j = j + 1;
    }
    j
}

fn since_start_of(s: &[char], a: usize, b: usize) -> (r: Option<usize>)
    requires
        a <= b <= s@.len(),
    ensures
        r is None ==> since_start(s@, a as int, b as int) == -1,
        r matches Some(k) ==> since_start(s@, a as int, b as int) == k as int && a < k <= b,
{
    let mut k = b;
    while k > a
        invariant
            a <= k <= b <= s@.len(),
            since_start(s@, a as int, k as int) == since_start(s@, a as int, b as int),
        decreases k,
    {
        if k < s.len() && in_class_exec(3, s[k]) {
            return Some(k);
        }
        k = k - 1;
    }
    None
}

fn row_fields(s: &[char], p: usize) -> (r: Option<Vec<usize>>)
    requires
        p <= s@.len(),
    ensures
        r is None <==> row_at(s@, p as int) is None,
        r matches Some(v) ==> row_at(s@, p as int) matches Some(b) && v@.len() == 10 && b.len() == 10
            && (forall|i: int| 0 <= i < 10 ==> #[trigger] v@[i] as int == b[i]),
{
    let e1 = run_end_of(s, 0, p);
    let w1 = run_end_of(s, 2, e1);
    let e2 = run_end_of(s, 0, w1);
    let w2 = run_end_of(s, 2, e2);
    let e3 = run_end_of(s, 1, w2);
    let w3 = run_end_of(s, 2, e3);
    let e4 = run_end_of(s, 0, w3);
    let w4 = run_end_of(s, 2, e4);
    if p < e1 && e1 < w1 && w1 < e2 && e2 < w2 && w2 < e3 && e3 < w3 && w3 < e4 && e4 < w4 {
        match since_start_of(s, e4, w4) {
            Some(k) => {
                let e5 = run_end_of(s, 3, k);
                let v: Vec<usize> = vec![p, e1, w1, e2, w2, e3, w3, e4, k, e5];
                assert(v@ =~= seq![p, e1, w1, e2, w2, e3, w3, e4, k, e5]);
                Some(v)
            },
            None => None,
        }
    } else {
        None
    }
}

fn find_row_exec(s: &[char]) -> (r: Option<Vec<usize>>)
    ensures
        r is None <==> find_row(s@, 0) is None,
        r matches Some(v) ==> find_row(s@, 0) matches Some(b) && v@.len() == 10 && b.len() == 10
            && (forall|i: int| 0 <= i < 10 ==> #[trigger] v@[i] as int == b[i]),
{
    let mut q: usize = 0;
    while q < s.len()
        invariant
            q <= s@.len(),
            find_row(s@, q as int) == find_row(s@, 0),
        decreases s@.len() - q,
    {
        if in_class_exec(0, s[q]) {
            match row_fields(s, q) {
                Some(v) => {
                    return Some(v);
                },
                None => {},
            }
        }
        q = q + 1;
    }
    None
}

fn text_has(s: &[char], t: &[char]) -> (r: bool)
    ensures
        r == has_text(s@, t@),
{
    let mut i: usize = 0;
    while i < s.len()
        invariant
            i <= s@.len(),
            forall|k: int| 0 <= k < i ==> !has_prefix_at(s@, k, t@),
        decreases s@.len() - i,
    {
        if matches_at(s, i, t) {
            return true;
        }
        i = i + 1;
    }
    if matches_at(s, i, t) {
        return true;
    }
    assert forall|k: int| !has_prefix_at(s@, k, t@) by {
        if 0 <= k && k <= i {
        }
    }
    false
}

/// The row a line holds, if any.
pub fn parse_row_text(line: &[char]) -> (r: Option<SummaryRowData>)
    ensures
        r is None <==> parse_row(line@) is None,
        r matches Some(row) ==> parse_row(line@) == Some(row@),
        r matches Some(row) ==> row.mapped_state@ == mapped_state(row@),
{
    match find_row_exec(line) {
        Some(b) => {
            proof {
                lemma_find_row_bounds(line@, 0);
            }
            let ghost bs = find_row(line@, 0)->0;
            assert(bounds_ok(line@, bs));
            assert(forall|i: int| 0 <= i < 10 ==> #[trigger] b@[i] as int == bs[i]);
            assert(b@[0] as int == bs[0] && b@[1] as int == bs[1] && b@[2] as int == bs[2]);
            assert(b@[3] as int == bs[3] && b@[4] as int == bs[4] && b@[5] as int == bs[5]);
            assert(b@[6] as int == bs[6] && b@[7] as int == bs[7] && b@[8] as int == bs[8]);
            assert(b@[9] as int == bs[9]);
            let name = copy_range(line, b[0], b[1]);
            let proto = copy_range(line, b[2], b[3]);
            let table = copy_range(line, b[4], b[5]);
            let state = copy_range(line, b[6], b[7]);
            let since = copy_range(line, b[8], b[9]);
            let info = copy_range(line, b[9], line.len());
            let since = trim_chars(since.as_slice());
            let info = trim_chars(info.as_slice());
            let state_text = text_from_chars(state.as_slice());
            let mapped = if text_has(info.as_slice(), text_chars("Passive").as_slice()) {
                owned("info")
            } else {
                get_state_map(state_text.as_str())
            };
            Some(SummaryRowData {
                name: text_from_chars(name.as_slice()),
                proto: text_from_chars(proto.as_slice()),
                table: text_from_chars(table.as_slice()),
                state: state_text,
                mapped_state: mapped,
                since: text_from_chars(since.as_slice()),
                info: text_from_chars(info.as_slice()),
            })
        },
        None => None,
    }
}


fn names_le(a: &str, b: &str) -> (r: bool)
    ensures
        r == name_le(a@, b@),
{
    let x = text_chars(a);
    let y = text_chars(b);
    let mut i: usize = 0;
    while i < x.len()
        invariant
            x@ == a@,
            y@ == b@,
            i <= x@.len(),
            name_le_from(a@, b@, i as int) == name_le(a@, b@),
        decreases x@.len() - i,
    {
        if i >= y.len() {
            return false;
        }
        if x[i] != y[i] {
            return x[i] < y[i];
        }
        i = i + 1;
    }
    true
}

pub open spec fn rows_view(v: Seq<SummaryRowData>) -> Seq<RowModel> {
    v.map_values(|r: SummaryRowData| r@)
}

/// Every row's badge agrees with its state and info.
pub open spec fn badges_ok(v: Seq<SummaryRowData>) -> bool {
    forall|i: int| 0 <= i < v.len() ==> #[trigger] v[i].mapped_state@ == mapped_state(v[i]@)
}

fn insert_sorted(sorted: &mut Vec<SummaryRowData>, row: SummaryRowData)
    requires
        badges_ok(old(sorted)@),
        row.mapped_state@ == mapped_state(row@),
    ensures
        badges_ok(final(sorted)@),
        rows_view(final(sorted)@) == rows_view(old(sorted)@).insert(
            insert_pos(rows_view(old(sorted)@), row@),
            row@,
        ),
{
    let ghost sv = rows_view(sorted@);
    let mut j: usize = sorted.len();
    assert(sv.take(j as int) =~= sv);
    while j > 0 && !names_le(sorted[j - 1].name.as_str(), row.name.as_str())
        invariant
            j <= sorted@.len(),
            sv == rows_view(sorted@),
            insert_pos(sv.take(j as int), row@) == insert_pos(sv, row@),
        decreases j,
    {
        assert(sv.take(j as int).last() == sorted@[j - 1]@);
        assert(sv.take(j as int).drop_last() =~= sv.take(j - 1));
        j = j - 1;
    }
    proof {
        if j > 0 {
            assert(sv.take(j as int).last() == sorted@[j - 1]@);
        }
    }
    assert(insert_pos(sv.take(j as int), row@) == j);
    let ghost rv = row@;
    let ghost old_rows = sorted@;
    sorted.insert(j, row);
    assert(rows_view(sorted@) =~= sv.insert(j as int, rv));
    assert forall|i: int| 0 <= i < sorted@.len() implies #[trigger] sorted@[i].mapped_state@ == mapped_state(sorted@[i]@) by {
        if i < j {
            assert(sorted@[i] == old_rows[i]);
        } else if i > j {
            assert(sorted@[i] == old_rows[i - 1]);
        }
    }
}

/// The protocol summary of one server: the header line's words, and the rows
/// of the following lines sorted by name. Data of a single line is refused.
pub fn parse_summary(data: &str, server_name: String) -> (r: Result<SummaryContext, String>)
    ensures
        split_char(trim(data@), '\n').len() <= 1 <==> r is Err,
        r matches Err(e) ==> e@ == "Invalid summary data: "@ + trim(data@),
        r matches Ok(ctx) ==> {
            let lines = split_char(trim(data@), '\n');
            &&& ctx.server_name@ == server_name@
            &&& texts_of(ctx.headers@) == words(lines[0])
            &&& rows_view(ctx.rows@) == sort_rows(rows_of(lines.drop_first()))
            &&& badges_ok(ctx.rows@)
        },
{
    let chars = text_chars(data);
    let trimmed = trim_chars(chars.as_slice());
    let lines = split_on(trimmed.as_slice(), '\n');
    let ghost ls = split_char(trim(data@), '\n');
    assert(lines@.map_values(|w: Vec<char>| w@) == ls);
    if lines.len() <= 1 {
        let mut msg: Vec<char> = Vec::new();
        push_str(&mut msg, "Invalid summary data: ");
        crate::text::push_all(&mut msg, trimmed.as_slice());
        return Err(text_from_chars(msg.as_slice()));
    }
    assert(ls[0] == lines@[0]@);
    let header_words = split_words(lines[0].as_slice());
    let mut headers: Vec<String> = Vec::new();
    let mut h: usize = 0;
    while h < header_words.len()
        invariant
            h <= header_words@.len(),
            header_words@.map_values(|w: Vec<char>| w@) == words(ls[0]),
            texts_of(headers@) =~= words(ls[0]).take(h as int),
        decreases header_words@.len() - h,
    {
        let ghost before = texts_of(headers@);
        assert(header_words@.map_values(|w: Vec<char>| w@)[h as int] == header_words@[h as int]@);
        headers.push(text_from_chars(header_words[h].as_slice()));
        assert(texts_of(headers@) =~= before.push(header_words@[h as int]@));
        h = h + 1;
        assert(texts_of(headers@) =~= words(ls[0]).take(h as int));
    }
    assert(words(ls[0]).take(h as int) =~= words(ls[0]));
    let ghost data_lines = ls.drop_first();
    let mut rows: Vec<SummaryRowData> = Vec::new();
    let mut i: usize = 1;
    assert(data_lines.take(0) =~= Seq::<Seq<char>>::empty());
    while i < lines.len()
        invariant
            1 <= i <= lines@.len(),
            lines@.map_values(|w: Vec<char>| w@) == ls,
            data_lines == ls.drop_first(),
            badges_ok(rows@),
            rows_view(rows@) == sort_rows(rows_of(data_lines.take(i - 1))),
        decreases lines@.len() - i,
    {
        assert(data_lines[i - 1] == lines@[i as int]@);
        assert(data_lines.take(i as int).drop_last() =~= data_lines.take(i - 1));
        assert(data_lines.take(i as int).last() == lines@[i as int]@);
        let line = trim_chars(lines[i].as_slice());
        if line.len() > 0 {
            match parse_row_text(line.as_slice()) {
                Some(row) => {
                    let ghost before = rows_of(data_lines.take(i - 1));
                    assert(rows_of(data_lines.take(i as int)) =~= before.push(row@));
                    assert(before.push(row@).drop_last() =~= before);
                    insert_sorted(&mut rows, row);
                },
                None => {},
            }
        }
        i = i + 1;
    }
    assert(data_lines.take(i - 1) =~= data_lines);
    Ok(SummaryContext { server_name, headers, rows })
}

} // verus!

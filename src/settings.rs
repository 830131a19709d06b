//! The frontend's configuration: the table of servers, each with the name
//! shown to callers and the host actually queried.
use vstd::prelude::*;
use crate::route_text::has_prefix_at;
use crate::text::{
    contains_char, copy_range, has_char, join_strings, join_with, owned, push_str, same_text,
    split_char, split_on, text_chars, text_from_chars, texts_of,
};

verus! {

/// The frontend's settings.
#[derive(Debug)]
pub struct Settings {
    /// The hosts queried, one per configured server.
    pub servers: Vec<String>,
    /// The names shown for them, at the same indices.
    pub servers_display: Vec<String>,
    pub domain: String,
    pub proxy_port: u16,
    pub whois_server: String,
    pub listen: String,
    pub dns_interface: String,
    pub net_specific_mode: String,
    pub title_brand: String,
    pub navbar_brand: String,
    pub navbar_brand_url: String,
    pub navbar_all_server: String,
    pub navbar_all_url: String,
    pub bgpmap_info: String,
    pub telegram_bot_name: String,
    pub protocol_filter: Vec<String>,
    pub name_filter: String,
    pub timeout: u64,
}

/// The index of the first `<` in `s`, if any.
pub open spec fn angle_index(s: Seq<char>, i: int) -> Option<int>
    decreases s.len() - i,
{
    if i < 0 || i >= s.len() {
        None
    } else if s[i] == '<' {
        Some(i)
    } else {
        angle_index(s, i + 1)
    }
}

/// A server entry `Display<actual>` or `plain`, as (display name, host).
/// The closing `>` is dropped when present.
pub open spec fn split_server_spec(s: Seq<char>) -> (Seq<char>, Seq<char>) {
    match angle_index(s, 0) {
        Some(p) => {
            let end = if s.len() > p + 1 && s.last() == '>' {
                s.len() - 1
            } else {
                s.len() as int
            };
            (s.subrange(0, p), s.subrange(p + 1, end))
        },
        None => (s, s),
    }
}

/// `s` ends with `.` and the domain.
pub open spec fn in_domain(s: Seq<char>, domain: Seq<char>) -> bool {
    domain.len() > 0 && s.len() > domain.len() + 1 && has_prefix_at(
        s,
        s.len() - domain.len() - 1,
        seq!['.'] + domain,
    )
}

pub open spec fn is_hex_digit(c: char) -> bool {
    ('0' <= c && c <= '9') || ('a' <= c && c <= 'f') || ('A' <= c && c <= 'F')
}

/// The end of the run of hexadecimal digits that starts at `i`.
pub open spec fn hex_end(s: Seq<char>, i: int) -> int
    decreases s.len() - i,
{
    if i < 0 {
        0
    } else if i >= s.len() || !is_hex_digit(s[i]) {
        if i >= s.len() { s.len() as int } else { i }
    } else {
        hex_end(s, i + 1)
    }
}

/// How many groups of one to four hexadecimal digits, separated by single
/// colons, make up `s` from index `i` to its end; `None` when it is not so.
pub open spec fn groups_from(s: Seq<char>, i: int) -> Option<nat>
    decreases s.len() - i,
{
    let j = hex_end(s, i);
    if i < 0 || i >= s.len() || j <= i || j - i > 4 || j > s.len() {
        None
    } else if j == s.len() {
        Some(1)
    } else if s[j] == ':' {
        match groups_from(s, j + 1) {
            Some(n) => Some(n + 1),
            None => None,
        }
    } else {
        None
    }
}

/// The number of colon-separated hexadecimal groups of `s` (none for the empty text).
pub open spec fn hex_groups(s: Seq<char>) -> Option<nat> {
    if s.len() == 0 {
        Some(0)
    } else {
        groups_from(s, 0)
    }
}

/// `s` holds `::` at `i`, with at most seven groups around it.
pub open spec fn compressed_at(s: Seq<char>, i: int) -> bool {
    0 <= i && i + 2 <= s.len() && s[i] == ':' && s[i + 1] == ':' && match (
        hex_groups(s.subrange(0, i)),
        hex_groups(s.subrange(i + 2, s.len() as int)),
    ) {
        (Some(h), Some(t)) => h + t <= 7,
        _ => false,
    }
}

/// An IPv6 address in colon-hexadecimal form, as `Ipv6Addr`'s parser reads
/// it: eight groups, or fewer with one `::` standing for the rest. Among
/// texts without a dot these are exactly the IP literals: IPv4 forms, and
/// IPv6 forms ending in an IPv4 address, hold dots.
pub open spec fn is_ipv6_text(s: Seq<char>) -> bool {
    hex_groups(s) == Some(8nat) || exists|i: int| compressed_at(s, i)
}

/// The host queried for an entry: a bare host name (no dot, and not an IP
/// literal) gets the domain appended.
pub open spec fn qualified_host(actual: Seq<char>, domain: Seq<char>) -> Seq<char> {
    if domain.len() > 0 && !has_char(actual, '.') && !is_ipv6_text(actual) {
        actual + seq!['.'] + domain
    } else {
        actual
    }
}

/// The name shown for an entry: the given display name, or for a plain entry
/// its text without the `.domain` suffix.
pub open spec fn display_of(spec: Seq<char>, domain: Seq<char>) -> Seq<char> {
    if angle_index(spec, 0) is None && in_domain(spec, domain) {
        spec.subrange(0, spec.len() - domain.len() - 1)
    } else {
        split_server_spec(spec).0
    }
}

pub open spec fn host_of(spec: Seq<char>, domain: Seq<char>) -> Seq<char> {
    qualified_host(split_server_spec(spec).1, domain)
}

fn hex_end_of(s: &[char], i: usize) -> (r: usize)
    requires
        i <= s@.len(),
    ensures
        r as int == hex_end(s@, i as int),
        i <= r <= s@.len(),
{
    let mut j = i;
    while j < s.len() && (('0' <= s[j] && s[j] <= '9') || ('a' <= s[j] && s[j] <= 'f') || ('A' <= s[j]
        && s[j] <= 'F'))
        invariant
            i <= j <= s@.len(),
            hex_end(s@, j as int) == hex_end(s@, i as int),
        decreases s@.len() - j,
    {
        j = j + 1;
    }
    j
}

pub open spec fn plus_groups(o: Option<nat>, c: nat) -> Option<nat> {
    match o {
        Some(n) => Some(n + c),
        None => None,
    }
}

fn hex_groups_of(s: &[char]) -> (r: Option<usize>)
    ensures
        r matches Some(n) ==> hex_groups(s@) == Some(n as nat),
        r is None ==> hex_groups(s@) is None,
{
    if s.len() == 0 {
        return Some(0);
    }
    let mut i: usize = 0;
    let mut count: usize = 0;
    loop
        invariant
            i < s@.len(),
            count <= i,
            groups_from(s@, 0) == plus_groups(groups_from(s@, i as int), count as nat),
        decreases s@.len() - i,
    {
        let j = hex_end_of(s, i);
        if j == i || j - i > 4 {
            return None;
        }
        if j == s.len() {
            return Some(count + 1);
        }
        if s[j] != ':' {
            return None;
        }
        if j + 1 >= s.len() {
            assert(groups_from(s@, j + 1) is None);
            return None;
        }
        count = count + 1;
        i = j + 1;
    }
}

fn is_ipv6_literal(s: &[char]) -> (r: bool)
    ensures
        r == is_ipv6_text(s@),
{
    match hex_groups_of(s) {
        Some(n) => {
            if n == 8 {
                return true;
            }
        },
        None => {},
    }
    let mut i: usize = 0;
    while i < s.len() && s.len() - i > 1
        invariant
            i <= s@.len(),
            forall|k: int| 0 <= k < i ==> !compressed_at(s@, k),
            hex_groups(s@) != Some(8nat),
        decreases s@.len() - i,
    {
        if s[i] == ':' && s[i + 1] == ':' {
            let head = copy_range(s, 0, i);
            let tail = copy_range(s, i + 2, s.len());
            match (hex_groups_of(head.as_slice()), hex_groups_of(tail.as_slice())) {
                (Some(h), Some(t)) => {
                    if h <= 7 && t <= 7 - h {
                        assert(compressed_at(s@, i as int));
                        return true;
                    }
                },
                _ => {},
            }
        }
        i = i + 1;
    }
    assert forall|k: int| !compressed_at(s@, k) by {
        if 0 <= k && k < i {
        }
    }
    false
}

fn find_angle(s: &[char]) -> (r: Option<usize>)
    ensures
        r matches Some(p) ==> angle_index(s@, 0) == Some(p as int) && p < s@.len(),
        r is None ==> angle_index(s@, 0) is None,
{
    let mut i: usize = 0;
    while i < s.len()
        invariant
            i <= s@.len(),
            angle_index(s@, i as int) == angle_index(s@, 0),
        decreases s@.len() - i,
    {
        if s[i] == '<' {
            return Some(i);
        }
        i = i + 1;
    }
    None
}

fn ends_in_domain(s: &[char], domain: &[char]) -> (r: bool)
    ensures
        r == in_domain(s@, domain@),
{
    if domain.len() == 0 || s.len() <= domain.len() || s.len() - domain.len() <= 1 {
        return false;
    }
    let start = s.len() - domain.len() - 1;
    if s[start] != '.' {
        assert(s@.subrange(start as int, start + domain@.len() + 1)[0] != (seq!['.'] + domain@)[0]);
        return false;
    }
    let mut k: usize = 0;
    while k < domain.len()
        invariant
            start + 1 + domain@.len() == s@.len(),
            s@.len() == s.len(),
            domain@.len() == domain.len(),
            s@[start as int] == '.',
            k <= domain@.len(),
            forall|m: int| 0 <= m < k ==> s@[start + 1 + m] == domain@[m],
        decreases domain@.len() - k,
    {
        if s[start + 1 + k] != domain[k] {
            assert(s@.subrange(start as int, start + domain@.len() + 1)[k + 1] != (seq!['.'] + domain@)[k + 1]);
            return false;
        }
        k = k + 1;
    }
    assert(s@.subrange(start as int, start + domain@.len() + 1) =~= seq!['.'] + domain@);
    true
}

/// The display name and the queried host of one server entry.
pub fn parse_server_spec(spec: &str, domain: &str) -> (r: (String, String))
    ensures
        r.0@ == display_of(spec@, domain@),
        r.1@ == host_of(spec@, domain@),
{
    let s = text_chars(spec);
    let d = text_chars(domain);
    let (display, actual) = match find_angle(s.as_slice()) {
        Some(p) => {
            let end = if s.len() > p + 1 && s[s.len() - 1] == '>' {
                s.len() - 1
            } else {
                s.len()
            };
            (copy_range(s.as_slice(), 0, p), copy_range(s.as_slice(), p + 1, end))
        },
        None => {
            if ends_in_domain(s.as_slice(), d.as_slice()) {
                (copy_range(s.as_slice(), 0, s.len() - d.len() - 1), copy_range(s.as_slice(), 0, s.len()))
            } else {
                (copy_range(s.as_slice(), 0, s.len()), copy_range(s.as_slice(), 0, s.len()))
            }
        },
    };
    assert(s@.subrange(0, s@.len() as int) =~= s@);
    let mut host = actual;
    if d.len() > 0 && !contains_char(host.as_slice(), '.') && !is_ipv6_literal(host.as_slice()) {
        host.push('.');
        push_str(&mut host, domain);
    }
    (text_from_chars(display.as_slice()), text_from_chars(host.as_slice()))
}

/// The display names and hosts of the configured entries, index by index.
pub fn parse_servers(specs: &[String], domain: &str) -> (r: (Vec<String>, Vec<String>))
    ensures
        r.0@.len() == specs@.len(),
        r.1@.len() == specs@.len(),
        forall|i: int| 0 <= i < specs@.len() ==> #[trigger] r.0@[i]@ == display_of(specs@[i]@, domain@),
        forall|i: int| 0 <= i < specs@.len() ==> #[trigger] r.1@[i]@ == host_of(specs@[i]@, domain@),
{
    let mut display: Vec<String> = Vec::new();
    let mut hosts: Vec<String> = Vec::new();
    let mut i: usize = 0;
    while i < specs.len()
        invariant
            i <= specs@.len(),
            display@.len() == i,
            hosts@.len() == i,
            forall|k: int| 0 <= k < i ==> #[trigger] display@[k]@ == display_of(specs@[k]@, domain@),
            forall|k: int| 0 <= k < i ==> #[trigger] hosts@[k]@ == host_of(specs@[k]@, domain@),
        decreases specs@.len() - i,
    {
        let (d, h) = parse_server_spec(specs[i].as_str(), domain);
        display.push(d);
        hosts.push(h);
        i = i + 1;
    }
    (display, hosts)
}

/// The host shown under display name `name`: the first match.
pub open spec fn host_for_display(servers: Seq<Seq<char>>, displays: Seq<Seq<char>>, name: Seq<char>, i: int) -> Option<Seq<char>>
    decreases displays.len() - i,
{
    if i < 0 || i >= displays.len() || i >= servers.len() {
        None
    } else if displays[i] == name {
        Some(servers[i])
    } else {
        host_for_display(servers, displays, name, i + 1)
    }
}

/// The display name of host `server`: the first match, else the host itself.
pub open spec fn display_for_host(servers: Seq<Seq<char>>, displays: Seq<Seq<char>>, server: Seq<char>, i: int) -> Seq<char>
    decreases servers.len() - i,
{
    if i < 0 || i >= servers.len() || i >= displays.len() {
        server
    } else if servers[i] == server {
        displays[i]
    } else {
        display_for_host(servers, displays, server, i + 1)
    }
}

/// A requested token resolves by display name first, else when it is itself
/// a configured host.
pub open spec fn resolve_token(servers: Seq<Seq<char>>, displays: Seq<Seq<char>>, t: Seq<char>) -> Option<Seq<char>> {
    match host_for_display(servers, displays, t, 0) {
        Some(h) => Some(h),
        None => if servers.contains(t) {
            Some(t)
        } else {
            None
        },
    }
}

/// The resolved tokens in order; unresolvable ones are dropped.
pub open spec fn resolve_tokens(servers: Seq<Seq<char>>, displays: Seq<Seq<char>>, ts: Seq<Seq<char>>) -> Seq<Seq<char>>
    decreases ts.len(),
{
    if ts.len() == 0 {
        Seq::empty()
    } else {
        let rest = resolve_tokens(servers, displays, ts.drop_last());
        match resolve_token(servers, displays, ts.last()) {
            Some(h) => rest.push(h),
            None => rest,
        }
    }
}

impl Settings {
    pub open spec fn servers_view(&self) -> Seq<Seq<char>> {
        texts_of(self.servers@)
    }

    pub open spec fn displays_view(&self) -> Seq<Seq<char>> {
        texts_of(self.servers_display@)
    }

    /// The name shown for host `server`, or `server` itself when unknown.
    pub fn get_server_display_name(&self, server: &str) -> (r: String)
        ensures
            r@ == display_for_host(self.servers_view(), self.displays_view(), server@, 0),
    {
        let mut i: usize = 0;
        while i < self.servers.len() && i < self.servers_display.len()
            invariant
                display_for_host(self.servers_view(), self.displays_view(), server@, i as int)
                    == display_for_host(self.servers_view(), self.displays_view(), server@, 0),
            decreases self.servers@.len() - i,
        {
            assert(self.servers_view()[i as int] == self.servers@[i as int]@);
            if same_text(self.servers[i].as_str(), server) {
                assert(self.displays_view()[i as int] == self.servers_display@[i as int]@);
                return self.servers_display[i].clone();
            }
            i = i + 1;
        }
        owned(server)
    }

    /// All hosts joined by `+`.
    pub fn all_servers_string(&self) -> (r: String)
        ensures
            r@ == join_with(self.servers_view(), '+'),
    {
        join_strings(self.servers.as_slice(), '+')
    }

    /// All display names joined by `+`.
    pub fn all_servers_display_string(&self) -> (r: String)
        ensures
            r@ == join_with(self.displays_view(), '+'),
    {
        join_strings(self.servers_display.as_slice(), '+')
    }

    /// The host shown as `display_name`, if any.
    pub fn get_server_from_display_name(&self, display_name: &str) -> (r: Option<String>)
        ensures
            r matches Some(h) ==> host_for_display(self.servers_view(), self.displays_view(), display_name@, 0) == Some(h@),
            r is None ==> host_for_display(self.servers_view(), self.displays_view(), display_name@, 0) is None,
    {
        let mut i: usize = 0;
        while i < self.servers.len() && i < self.servers_display.len()
            invariant
                host_for_display(self.servers_view(), self.displays_view(), display_name@, i as int)
                    == host_for_display(self.servers_view(), self.displays_view(), display_name@, 0),
            decreases self.servers@.len() - i,
        {
            assert(self.displays_view()[i as int] == self.servers_display@[i as int]@);
            if same_text(self.servers_display[i].as_str(), display_name) {
                assert(self.servers_view()[i as int] == self.servers@[i as int]@);
                return Some(self.servers[i].clone());
            }
            i = i + 1;
        }
        None
    }

    fn is_server(&self, name: &str) -> (r: bool)
        ensures
            r == self.servers_view().contains(name@),
    {
        let mut i: usize = 0;
        while i < self.servers.len()
            invariant
                i <= self.servers@.len(),
                forall|k: int| 0 <= k < i ==> self.servers_view()[k] != name@,
            decreases self.servers@.len() - i,
        {
            if same_text(self.servers[i].as_str(), name) {
                assert(self.servers_view()[i as int] == name@);
                return true;
            }
            i = i + 1;
        }
        false
    }

    /// The hosts named in a `+`-separated list of display names (or hosts),
    /// in order; names that resolve to nothing are dropped.
    pub fn resolve_servers_from_display_names(&self, display_names: &str) -> (r: Vec<String>)
        ensures
            texts_of(r@) == resolve_tokens(
                self.servers_view(),
                self.displays_view(),
                split_char(display_names@, '+'),
            ),
    {
        let chars = text_chars(display_names);
        let tokens = split_on(chars.as_slice(), '+');
        let ghost ts = split_char(display_names@, '+');
        let mut r: Vec<String> = Vec::new();
        let mut i: usize = 0;
        while i < tokens.len()
            invariant
                i <= tokens@.len(),
                tokens@.map_values(|w: Vec<char>| w@) == ts,
                texts_of(r@) == resolve_tokens(self.servers_view(), self.displays_view(), ts.take(i as int)),
            decreases tokens@.len() - i,
        {
            let name = text_from_chars(tokens[i].as_slice());
            assert(ts[i as int] == name@);
            assert(ts.take(i + 1).drop_last() =~= ts.take(i as int));
            assert(ts.take(i + 1).last() == name@);
            let ghost before = texts_of(r@);
            match self.get_server_from_display_name(name.as_str()) {
                Some(h) => {
                    r.push(h);
                    assert(texts_of(r@) =~= before.push(r@.last()@));
                },
                None => {
                    if self.is_server(name.as_str()) {
                        let ghost nv = name@;
                        r.push(name);
                        assert(texts_of(r@) =~= before.push(nv));
                    }
                },
            }
            i = i + 1;
        }
        assert(ts.take(i as int) =~= ts);
        r
    }
}

} // verus!

//! The frontend's request logic: the daemon command behind each page, the page
//! around the results, and merging the answers of several servers.
use vstd::prelude::*;
use crate::bgpmap::{bird_route_to_graphviz, graph_text, route_graph};
use crate::encoding::{base64_text, encode_document};
use crate::settings::Settings;
use crate::templates::PageContext;
use crate::text::{
    decimal, decimal_chars, has_char, contains_char, join_with, owned, push_all, push_str,
    same_text, text_chars, text_from_chars, texts_of,
};

verus! {

/// The daemon command behind each page, for the page's argument.
pub open spec fn command_for(option: Seq<char>, arg: Seq<char>) -> Option<Seq<char>> {
    if option == "summary"@ {
        Some("show protocols"@)
    } else if option == "detail"@ {
        Some("show protocols all "@ + arg)
    } else if option == "route"@ {
        Some("show route for "@ + arg)
    } else if option == "route_all"@ || option == "route_bgpmap"@ {
        Some("show route for "@ + arg + " all"@)
    } else if option == "route_where"@ {
        Some("show route where net ~ [ "@ + arg + " ]"@)
    } else if option == "route_where_all"@ || option == "route_where_bgpmap"@ {
        Some("show route where net ~ [ "@ + arg + " ] all"@)
    } else if option == "route_from_protocol"@ {
        Some("show route protocol "@ + arg)
    } else if option == "route_from_protocol_all"@ {
        Some("show route protocol "@ + arg + " all"@)
    } else if option == "route_filtered_from_protocol"@ {
        Some("show route filtered protocol "@ + arg)
    } else if option == "route_filtered_from_protocol_all"@ {
        Some("show route filtered protocol "@ + arg + " all"@)
    } else if option == "route_from_origin"@ {
        Some("show route where bgp_path.last = "@ + arg)
    } else if option == "route_from_origin_all"@ {
        Some("show route where bgp_path.last = "@ + arg + " all"@)
    } else if option == "generic"@ {
        Some("show "@ + arg)
    } else {
        None
    }
}

fn framed(head: &str, arg: &str, tail: &str) -> (r: String)
    ensures
        r@ == head@ + arg@ + tail@,
{
    let mut out: Vec<char> = Vec::new();
    push_str(&mut out, head);
    push_str(&mut out, arg);
    push_str(&mut out, tail);
    text_from_chars(out.as_slice())
}

/// The daemon command for page `option` with argument `arg`, if the page is known.
pub fn bird_command(option: &str, arg: &str) -> (r: Option<String>)
    ensures
        r is None <==> command_for(option@, arg@) is None,
        r matches Some(c) ==> command_for(option@, arg@) == Some(c@),
{
    proof {
        reveal_strlit("");
        assert(arg@ + ""@ =~= arg@);
        assert(""@ + arg@ =~= arg@);
    }
    if same_text(option, "summary") {
        Some(owned("show protocols"))
    } else if same_text(option, "detail") {
        Some(framed("show protocols all ", arg, ""))
    } else if same_text(option, "route") {
        Some(framed("show route for ", arg, ""))
    } else if same_text(option, "route_all") || same_text(option, "route_bgpmap") {
        Some(framed("show route for ", arg, " all"))
    } else if same_text(option, "route_where") {
        Some(framed("show route where net ~ [ ", arg, " ]"))
    } else if same_text(option, "route_where_all") || same_text(option, "route_where_bgpmap") {
        Some(framed("show route where net ~ [ ", arg, " ] all"))
    } else if same_text(option, "route_from_protocol") {
        Some(framed("show route protocol ", arg, ""))
    } else if same_text(option, "route_from_protocol_all") {
        Some(framed("show route protocol ", arg, " all"))
    } else if same_text(option, "route_filtered_from_protocol") {
        Some(framed("show route filtered protocol ", arg, ""))
    } else if same_text(option, "route_filtered_from_protocol_all") {
        Some(framed("show route filtered protocol ", arg, " all"))
    } else if same_text(option, "route_from_origin") {
        Some(framed("show route where bgp_path.last = ", arg, ""))
    } else if same_text(option, "route_from_origin_all") {
        Some(framed("show route where bgp_path.last = ", arg, " all"))
    } else if same_text(option, "generic") {
        Some(framed("show ", arg, ""))
    } else {
        None
    }
}

/// The pages offered in the navigation, as (path, title).
pub open spec fn option_list() -> Seq<(Seq<char>, Seq<char>)> {
    seq![
        ("summary"@, "Summary"@),
        ("detail"@, "Detail"@),
        ("route"@, "Route"@),
        ("route_all"@, "Route (all)"@),
        ("route_where"@, "Route where"@),
        ("route_where_all"@, "Route where (all)"@),
        ("route_bgpmap"@, "Route BGP map"@),
        ("route_where_bgpmap"@, "Route where BGP map"@),
        ("traceroute"@, "Traceroute"@),
        ("whois"@, "Whois"@),
        ("generic"@, "Generic"@),
    ]
}

pub open spec fn pairs_view(v: Seq<(String, String)>) -> Seq<(Seq<char>, Seq<char>)> {
    v.map_values(|p: (String, String)| (p.0@, p.1@))
}

fn push_option(v: &mut Vec<(String, String)>, path: &str, title: &str)
    ensures
        pairs_view(final(v)@) == pairs_view(old(v)@).push((path@, title@)),
{
    v.push((owned(path), owned(title)));
    assert(pairs_view(v@) =~= pairs_view(old(v)@).push((path@, title@)));
}

/// The pages offered in the navigation.
pub fn get_options() -> (r: Vec<(String, String)>)
    ensures
        pairs_view(r@) == option_list(),
{
    let mut v: Vec<(String, String)> = Vec::new();
    push_option(&mut v, "summary", "Summary");
    push_option(&mut v, "detail", "Detail");
    push_option(&mut v, "route", "Route");
    push_option(&mut v, "route_all", "Route (all)");
    push_option(&mut v, "route_where", "Route where");
    push_option(&mut v, "route_where_all", "Route where (all)");
    push_option(&mut v, "route_bgpmap", "Route BGP map");
    push_option(&mut v, "route_where_bgpmap", "Route where BGP map");
    push_option(&mut v, "traceroute", "Traceroute");
    push_option(&mut v, "whois", "Whois");
    push_option(&mut v, "generic", "Generic");
    assert(pairs_view(v@) =~= option_list());
    v
}

fn copy_strings(v: &Vec<String>) -> (r: Vec<String>)
    ensures
        texts_of(r@) == texts_of(v@),
{
    let mut r: Vec<String> = Vec::new();
    let mut i: usize = 0;
    while i < v.len()
        invariant
            i <= v@.len(),
            texts_of(r@) =~= texts_of(v@).take(i as int),
        decreases v@.len() - i,
    {
        let ghost before = texts_of(r@);
        r.push(v[i].clone());
        assert(texts_of(r@) =~= before.push(v@[i as int]@));
        i = i + 1;
        assert(texts_of(r@) =~= texts_of(v@).take(i as int));
    }
    assert(texts_of(v@).take(i as int) =~= texts_of(v@));
    r
}

/// The parts of a page that come from the settings, whatever the page.
pub open spec fn page_frame(s: &Settings, p: &PageContext) -> bool {
    &&& p.brand@ == s.navbar_brand@
    &&& p.brand_url@ == s.navbar_brand_url@
    &&& p.all_server_title@ == s.navbar_all_server@
    &&& p.all_servers_url@ == join_with(s.servers_view(), '+')
    &&& texts_of(p.servers@) == s.servers_view()
    &&& texts_of(p.servers_display@) == s.displays_view()
    &&& pairs_view(p.options@) == option_list()
}

/// The page around the results of `command` on `servers`, reached as `option`.
pub fn build_page_context(
    settings: &Settings,
    option: &str,
    servers: &str,
    command: &str,
    content: &str,
) -> (r: PageContext)
    ensures
        page_frame(settings, &r),
        r.title@ == settings.title_brand@ + " - "@ + option@ + " "@ + command@,
        r.all_servers_link_active == (servers@ == join_with(settings.servers_view(), '+')),
        r.url_option@ == option@,
        r.url_server@ == servers@,
        r.url_command@ == command@,
        r.content@ == content@,
{
    let mut title: Vec<char> = Vec::new();
    push_str(&mut title, settings.title_brand.as_str());
    push_str(&mut title, " - ");
    push_str(&mut title, option);
    push_str(&mut title, " ");
    push_str(&mut title, command);
    let all = settings.all_servers_string();
    let active = same_text(servers, all.as_str());
    PageContext {
        title: text_from_chars(title.as_slice()),
        brand: settings.navbar_brand.clone(),
        brand_url: settings.navbar_brand_url.clone(),
        all_server_title: settings.navbar_all_server.clone(),
        all_servers_url: all,
        all_servers_link_active: active,
        servers: copy_strings(&settings.servers),
        servers_display: copy_strings(&settings.servers_display),
        url_option: owned(option),
        url_server: owned(servers),
        url_command: owned(command),
        options: get_options(),
        content: owned(content),
    }
}

/// The page around a whois answer for `target`.
pub fn build_whois_page_context(settings: &Settings, target: &str, content: &str) -> (r: PageContext)
    ensures
        page_frame(settings, &r),
        r.title@ == settings.title_brand@ + " - whois "@ + target@,
        !r.all_servers_link_active,
        r.url_option@ == "whois"@,
        r.url_server@ == join_with(settings.servers_view(), '+'),
        r.url_command@ == target@,
        r.content@ == content@,
{
    let mut title: Vec<char> = Vec::new();
    push_str(&mut title, settings.title_brand.as_str());
    push_str(&mut title, " - whois ");
    push_str(&mut title, target);
    PageContext {
        title: text_from_chars(title.as_slice()),
        brand: settings.navbar_brand.clone(),
        brand_url: settings.navbar_brand_url.clone(),
        all_server_title: settings.navbar_all_server.clone(),
        all_servers_url: settings.all_servers_string(),
        all_servers_link_active: false,
        servers: copy_strings(&settings.servers),
        servers_display: copy_strings(&settings.servers_display),
        url_option: owned("whois"),
        url_server: settings.all_servers_string(),
        url_command: owned(target),
        options: get_options(),
        content: owned(content),
    }
}

/// One server's entry in a merged answer: its output or its error.
#[derive(Debug)]
pub struct ServerResult {
    pub server: String,
    pub result: Option<String>,
    pub error: Option<String>,
}

/// The answers of the servers merged in the servers' order: a failure is
/// that server's error and does not affect the others.
pub fn aggregate_results(servers: &Vec<String>, outcomes: &Vec<Result<String, String>>) -> (r: Vec<ServerResult>)
    requires
        servers@.len() == outcomes@.len(),
    ensures
        r@.len() == servers@.len(),
        forall|i: int| 0 <= i < r@.len() ==> #[trigger] r@[i].server@ == servers@[i]@,
        forall|i: int| 0 <= i < r@.len() ==> match #[trigger] outcomes@[i] {
            Ok(v) => r@[i].result == Some(v) && r@[i].error is None,
            Err(e) => r@[i].result is None && r@[i].error == Some(e),
        },
{
    let mut r: Vec<ServerResult> = Vec::new();
    let mut i: usize = 0;
    while i < servers.len()
        invariant
            i <= servers@.len() == outcomes@.len(),
            r@.len() == i,
            forall|k: int| 0 <= k < i ==> #[trigger] r@[k].server@ == servers@[k]@,
            forall|k: int| 0 <= k < i ==> match #[trigger] outcomes@[k] {
                Ok(v) => r@[k].result == Some(v) && r@[k].error is None,
                Err(e) => r@[k].result is None && r@[k].error == Some(e),
            },
        decreases servers@.len() - i,
    {
        let entry = match &outcomes[i] {
            Ok(v) => ServerResult { server: servers[i].clone(), result: Some(v.clone()), error: None },
            Err(e) => ServerResult { server: servers[i].clone(), result: None, error: Some(e.clone()) },
        };
        r.push(entry);
        i = i + 1;
    }
    r
}

/// What the graph page draws for each server: its answer, or a line naming
/// its error (which holds no route entry).
pub fn bgpmap_responses(servers: &Vec<String>, outcomes: &Vec<Result<String, String>>) -> (r: Vec<String>)
    requires
        servers@.len() == outcomes@.len(),
    ensures
        r@.len() == servers@.len(),
        forall|i: int| 0 <= i < r@.len() ==> #[trigger] r@[i]@ == match outcomes@[i] {
            Ok(v) => v@,
            Err(e) => "Error from "@ + servers@[i]@ + ": "@ + e@,
        },
{
    let mut r: Vec<String> = Vec::new();
    let mut i: usize = 0;
    while i < servers.len()
        invariant
            i <= servers@.len() == outcomes@.len(),
            r@.len() == i,
            forall|k: int| 0 <= k < i ==> #[trigger] r@[k]@ == match outcomes@[k] {
                Ok(v) => v@,
                Err(e) => "Error from "@ + servers@[k]@ + ": "@ + e@,
            },
        decreases servers@.len() - i,
    {
        let line = match &outcomes[i] {
            Ok(v) => v.clone(),
            Err(e) => {
                let mut out: Vec<char> = Vec::new();
                push_str(&mut out, "Error from ");
                push_str(&mut out, servers[i].as_str());
                push_str(&mut out, ": ");
                push_str(&mut out, e.as_str());
                text_from_chars(out.as_slice())
            },
        };
        r.push(line);
        i = i + 1;
    }
    r
}

/// The route graph of the servers' answers as a base64 DOT document, for
/// embedding in a page.
pub fn bgpmap_document(servers: &[String], responses: &[String], target: &str) -> (r: String)
    ensures
        r@ == base64_text(
            graph_text(
                route_graph(
                    servers@.map_values(|s: String| s@),
                    responses@.map_values(|s: String| s@),
                    target@,
                ),
            ),
        ),
{
    let dot = bird_route_to_graphviz(servers, responses, target);
    encode_document(dot.as_str())
}

/// The address of a proxy endpoint on `server`.
pub fn proxy_url(server: &str, port: u16, endpoint: &str) -> (r: String)
    ensures
        r@ == "http://"@ + server@ + ":"@ + decimal(port as nat) + "/"@ + endpoint@,
{
    let mut out: Vec<char> = Vec::new();
    push_str(&mut out, "http://");
    push_str(&mut out, server);
    push_str(&mut out, ":");
    let digits = decimal_chars(port as u64);
    push_all(&mut out, digits.as_slice());
    push_str(&mut out, "/");
    push_str(&mut out, endpoint);
    text_from_chars(out.as_slice())
}

/// The whois server's address: port 43 unless one is given.
pub fn whois_address(server: &str) -> (r: String)
    ensures
        has_char(server@, ':') ==> r@ == server@,
        !has_char(server@, ':') ==> r@ == server@ + ":43"@,
{
    let s = text_chars(server);
    if contains_char(s.as_slice(), ':') {
        owned(server)
    } else {
        let mut out = s;
        push_str(&mut out, ":43");
        text_from_chars(out.as_slice())
    }
}

/// The longest whois answer kept, in characters.
pub const WHOIS_LIMIT: usize = 100000;

/// Adds one line of a whois answer; returns whether reading should stop
/// because the answer has grown past the limit (a note then ends it).
pub fn append_whois_line(result: &mut Vec<char>, line: &str) -> (stop: bool)
    ensures
        stop == (old(result)@.len() + line@.len() + 1 > WHOIS_LIMIT),
        !stop ==> final(result)@ == old(result)@ + line@ + seq!['\n'],
        stop ==> final(result)@ == old(result)@ + line@ + seq!['\n'] + "\n[Response truncated - too large]\n"@,
{
    push_str(result, line);
    result.push('\n');
    if result.len() > WHOIS_LIMIT {
        push_str(result, "\n[Response truncated - too large]\n");
        true
    } else {
        false
    }
}

/// The badge class of a protocol state in a summary table.
pub open spec fn state_class(state: Seq<char>) -> Seq<char> {
    if state == "up"@ {
        "success"@
    } else if state == "down"@ {
        "secondary"@
    } else if state == "start"@ {
        "danger"@
    } else if state == "passive"@ {
        "info"@
    } else {
        "secondary"@
    }
}

/// The badge class of a protocol state: `up`, `down`, `start` and `passive`
/// have their own, anything else is shown like `down`.
pub fn get_state_map(state: &str) -> (r: String)
    ensures
        r@ == state_class(state@),
{
    if same_text(state, "up") {
        owned("success")
    } else if same_text(state, "down") {
        owned("secondary")
    } else if same_text(state, "start") {
        owned("danger")
    } else if same_text(state, "passive") {
        owned("info")
    } else {
        owned("secondary")
    }
}

} // verus!

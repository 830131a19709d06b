use bird_lg::bgpmap::{RouteAttrs, RouteGraph};
use bird_lg::encoding::{decode_document, encode_document, format_result_block};
use bird_lg::handlers::{
    aggregate_results, append_whois_line, bgpmap_document, bgpmap_responses, bird_command, build_page_context,
    build_whois_page_context, get_options, get_state_map, proxy_url, whois_address,
};
use bird_lg::settings::{parse_server_spec, parse_servers, Settings};

fn frontend_settings(specs: &[&str], domain: &str) -> Settings {
    let specs: Vec<String> = specs.iter().map(|s| s.to_string()).collect();
    let (display, hosts) = parse_servers(&specs, domain);
    Settings {
        servers: hosts,
        servers_display: display,
        domain: domain.to_string(),
        proxy_port: 8000,
        whois_server: "whois.example.org".to_string(),
        listen: "5000".to_string(),
        dns_interface: "asn.cymru.com".to_string(),
        net_specific_mode: String::new(),
        title_brand: "LG".to_string(),
        navbar_brand: "Brand".to_string(),
        navbar_brand_url: "/".to_string(),
        navbar_all_server: "ALL Servers".to_string(),
        navbar_all_url: "all".to_string(),
        bgpmap_info: "asn".to_string(),
        telegram_bot_name: String::new(),
        protocol_filter: Vec::new(),
        name_filter: String::new(),
        timeout: 120,
    }
}

#[test]
fn server_spec_with_display_name() {
    let (d, h) = parse_server_spec("East<fra1>", "example.net");
    assert_eq!(d, "East");
    assert_eq!(h, "fra1.example.net");
}

#[test]
fn server_spec_plain_and_qualified() {
    assert_eq!(parse_server_spec("fra1", "example.net"), ("fra1".to_string(), "fra1.example.net".to_string()));
    assert_eq!(
        parse_server_spec("fra1.example.net", "example.net"),
        ("fra1".to_string(), "fra1.example.net".to_string())
    );
    assert_eq!(parse_server_spec("10.0.0.1", "example.net"), ("10.0.0.1".to_string(), "10.0.0.1".to_string()));
    assert_eq!(parse_server_spec("fd00::1", "example.net"), ("fd00::1".to_string(), "fd00::1".to_string()));
    assert_eq!(parse_server_spec("fra1", ""), ("fra1".to_string(), "fra1".to_string()));
    assert_eq!(parse_server_spec("West<ams1.other.org>", "example.net"), ("West".to_string(), "ams1.other.org".to_string()));
}

#[test]
fn resolve_drops_unknown_names() {
    let s = frontend_settings(&["East<fra1>", "West<ams1>"], "example.net");
    assert_eq!(s.resolve_servers_from_display_names("East+missing"), vec!["fra1.example.net".to_string()]);
    assert_eq!(
        s.resolve_servers_from_display_names("West+fra1.example.net"),
        vec!["ams1.example.net".to_string(), "fra1.example.net".to_string()]
    );
    assert!(s.resolve_servers_from_display_names("").is_empty());
}

#[test]
fn display_names_and_joins() {
    let s = frontend_settings(&["East<fra1>", "ams1"], "example.net");
    assert_eq!(s.get_server_display_name("fra1.example.net"), "East");
    assert_eq!(s.get_server_display_name("other"), "other");
    assert_eq!(s.get_server_from_display_name("ams1"), Some("ams1.example.net".to_string()));
    assert_eq!(s.get_server_from_display_name("nope"), None);
    assert_eq!(s.all_servers_string(), "fra1.example.net+ams1.example.net");
    assert_eq!(s.all_servers_display_string(), "East+ams1");
}

#[test]
fn commands_for_pages() {
    assert_eq!(bird_command("summary", "x"), Some("show protocols".to_string()));
    assert_eq!(bird_command("detail", "bgp1"), Some("show protocols all bgp1".to_string()));
    assert_eq!(bird_command("route_all", "1.1.1.0/24"), Some("show route for 1.1.1.0/24 all".to_string()));
    assert_eq!(bird_command("route_where", "10.0.0.0/8+"), Some("show route where net ~ [ 10.0.0.0/8+ ]".to_string()));
    assert_eq!(bird_command("route_from_origin", "4242"), Some("show route where bgp_path.last = 4242".to_string()));
    assert_eq!(bird_command("generic", "status"), Some("show status".to_string()));
    assert_eq!(bird_command("route_where_bgpmap", "p"), Some("show route where net ~ [ p ] all".to_string()));
    assert_eq!(bird_command("nonsense", "x"), None);
}

#[test]
fn page_context_fields() {
    let s = frontend_settings(&["East<fra1>"], "example.net");
    let p = build_page_context(&s, "route", "fra1.example.net", "show route for 1.1.1.1", "<p>x</p>");
    assert_eq!(p.title, "LG - route show route for 1.1.1.1");
    assert!(p.all_servers_link_active);
    assert_eq!(p.url_server, "fra1.example.net");
    assert_eq!(p.options.len(), 11);
    assert_eq!(p.options[3], ("route_all".to_string(), "Route (all)".to_string()));
    assert_eq!(p.servers_display, vec!["East".to_string()]);
    let w = build_whois_page_context(&s, "AS4242", "c");
    assert_eq!(w.title, "LG - whois AS4242");
    assert!(!w.all_servers_link_active);
    assert_eq!(w.url_option, "whois");
    assert_eq!(get_options()[10], ("generic".to_string(), "Generic".to_string()));
}

#[test]
fn aggregate_keeps_order_and_errors() {
    let servers = vec!["a".to_string(), "b".to_string(), "c".to_string()];
    let outcomes = vec![Ok("one".to_string()), Err("down".to_string()), Ok("three".to_string())];
    let r = aggregate_results(&servers, &outcomes);
    assert_eq!(r.len(), 3);
    assert_eq!(r[0].server, "a");
    assert_eq!(r[0].result, Some("one".to_string()));
    assert_eq!(r[1].result, None);
    assert_eq!(r[1].error, Some("down".to_string()));
    assert_eq!(r[2].result, Some("three".to_string()));
    let lines = bgpmap_responses(&servers, &outcomes);
    assert_eq!(lines[1], "Error from b: down");
}

#[test]
fn base64_round_trip_of_graph() {
    let doc = bird_lg::bgpmap::bird_route_to_graphviz(&["n".to_string()], &["x unicast [p 1] *".to_string()], "t");
    let encoded = bgpmap_document(&["n".to_string()], &["x unicast [p 1] *".to_string()], "t");
    assert_eq!(encoded, encode_document(&doc));
    assert_ne!(encoded, doc);
    assert_eq!(decode_document(&encoded), Some(doc));
    assert_eq!(encode_document("hi"), "aGk=");
    assert_eq!(decode_document("aGk="), Some("hi".to_string()));
    assert_eq!(decode_document("!!"), None);
}

#[test]
fn html_block_escapes_markup() {
    assert_eq!(format_result_block("a<b> & c"), "<pre>a&lt;b&gt; &amp; c</pre>");
}

#[test]
fn proxy_addresses() {
    assert_eq!(proxy_url("fra1.example.net", 8000, "bird"), "http://fra1.example.net:8000/bird");
    assert_eq!(proxy_url("h", 0, "traceroute"), "http://h:0/traceroute");
    assert_eq!(whois_address("whois.example.org"), "whois.example.org:43");
    assert_eq!(whois_address("whois.example.org:4343"), "whois.example.org:4343");
}

#[test]
fn whois_answer_is_capped() {
    let mut r: Vec<char> = Vec::new();
    assert!(!append_whois_line(&mut r, "line"));
    assert_eq!(r.iter().collect::<String>(), "line\n");
    let long = "x".repeat(100000);
    assert!(append_whois_line(&mut r, &long));
    assert!(r.iter().collect::<String>().ends_with("\n[Response truncated - too large]\n"));
}

#[test]
fn state_classes() {
    assert_eq!(get_state_map("up"), "success");
    assert_eq!(get_state_map("down"), "secondary");
    assert_eq!(get_state_map("start"), "danger");
    assert_eq!(get_state_map("passive"), "info");
    assert_eq!(get_state_map("other"), "secondary");
}

fn attrs(pairs: &[(&str, &str)]) -> RouteAttrs {
    let mut a = RouteAttrs::new();
    for (k, v) in pairs {
        a.insert(k.to_string(), v.to_string());
    }
    a
}

#[test]
fn attributes_last_writer_wins() {
    let a = attrs(&[("color", "red"), ("shape", "box"), ("color", "blue")]);
    assert_eq!(a.len(), 2);
    assert_eq!(a.get("color"), Some(&"blue".to_string()));
    assert_eq!(a.get("size"), None);
    assert!(!a.is_empty());
    assert!(RouteAttrs::new().is_empty());
    assert_eq!(a.iter()[0].0, "color");
}

#[test]
fn points_and_edges_merge() {
    let mut g = RouteGraph::new();
    g.add_point("a".to_string(), false, attrs(&[("color", "red")]));
    g.add_point("a".to_string(), true, attrs(&[("shape", "box")]));
    let p = g.get_point("a").unwrap();
    assert!(p.perform_lookup);
    assert_eq!(p.attrs.len(), 2);
    g.add_edge("a".to_string(), "b".to_string(), "one".to_string(), RouteAttrs::new());
    g.add_edge("a".to_string(), "b".to_string(), String::new(), RouteAttrs::new());
    g.add_edge("a".to_string(), "b".to_string(), "two".to_string(), attrs(&[("color", "red")]));
    let e = g.get_edge("a", "b").unwrap();
    assert_eq!(e.label, vec!["one".to_string(), "two".to_string()]);
    assert!(g.get_edge("b", "a").is_none());
}

#[test]
fn exact_document_of_small_graph() {
    let mut g = RouteGraph::new();
    g.add_point("t".to_string(), false, attrs(&[("shape", "diamond")]));
    g.add_point("42".to_string(), true, RouteAttrs::new());
    g.add_edge("42".to_string(), "t".to_string(), "l1".to_string(), RouteAttrs::new());
    g.add_edge("42".to_string(), "t".to_string(), "l2".to_string(), RouteAttrs::new());
    assert_eq!(
        g.to_graphviz(),
        "digraph {\n  rankdir=LR;\n  node [shape=box];\n  \"42\" [\"label\"=\"AS42\"];\n  \"t\" [\"label\"=\"t\",\"shape\"=\"diamond\"];\n  \"42\" -> \"t\" [\"label\"=\"l1\\nl2\"];\n}\n"
    );
}

#[test]
fn escaping_of_tokens() {
    let g = RouteGraph::new();
    assert_eq!(g.escape("a\"b\\c\nd\re\tf"), "\"a\\\"b\\\\c\\nd\\re\\tf\"");
    assert_eq!(g.attrs_to_string(&RouteAttrs::new()), "");
    assert_eq!(g.attrs_to_string(&attrs(&[("k", "v\"")])), "[\"k\"=\"v\\\"\"]");
}

#[test]
fn direct_route_without_path() {
    let dump = "Table master4:\n10.0.0.0/8 unicast [static1 2024-01-01] * (200)\n\tvia 10.1.1.1 on eth0\n";
    let doc = bird_lg::bgpmap::bird_route_to_graphviz(&["s".to_string()], &[dump.to_string()], "10.0.0.1");
    assert!(doc.contains("  \"s\" -> \"10.0.0.1\" [\"color\"=\"red\",\"fontsize\"=\"12.0\",\"label\"=\"static1*\\nvia 10.1.1.1 on eth0\"];\n"));
}

#[test]
fn empty_response_adds_nothing_for_server() {
    let g = bird_lg::bgpmap::bird_route_to_graph(&["s".to_string(), "u".to_string()], &[String::new()], "t");
    assert!(g.get_point("t").is_some());
    assert!(g.get_point("s").is_none());
    assert!(g.get_point("u").is_none());
}

#[test]
fn summary_rows_are_parsed_and_sorted() {
    let data = "Name       Proto      Table      State  Since         Info\n\
zeta       BGP        ---        up     2024-01-01 10:00:00  Established\n\
device1    Device     ---        up     2024-01-01\n\
\n\
static1    Static     master4    start  2024-01-01    Passive\n\
alpha      BGP        master6    down   12:00:01  Connect\n";
    let ctx = bird_lg::summary_parser::parse_summary(data, "East".to_string()).unwrap();
    assert_eq!(ctx.server_name, "East");
    assert_eq!(ctx.headers, vec!["Name", "Proto", "Table", "State", "Since", "Info"]);
    let names: Vec<&str> = ctx.rows.iter().map(|r| r.name.as_str()).collect();
    assert_eq!(names, vec!["alpha", "device1", "static1", "zeta"]);
    let zeta = &ctx.rows[3];
    assert_eq!(zeta.proto, "BGP");
    assert_eq!(zeta.table, "---");
    assert_eq!(zeta.state, "up");
    assert_eq!(zeta.since, "2024-01-01 10:00:00");
    assert_eq!(zeta.info, "Established");
    assert_eq!(zeta.mapped_state, "success");
    assert_eq!(ctx.rows[0].mapped_state, "secondary");
    assert_eq!(ctx.rows[1].info, "");
    assert_eq!(ctx.rows[2].mapped_state, "info");
}

#[test]
fn summary_needs_more_than_one_line() {
    let err = bird_lg::summary_parser::parse_summary("  only a header  ", "x".to_string()).err();
    assert_eq!(err, Some("Invalid summary data: only a header".to_string()));
}

#[test]
fn document_ignores_insertion_order() {
    let mut g1 = RouteGraph::new();
    g1.add_point("a".to_string(), false, attrs(&[("shape", "box"), ("color", "red")]));
    g1.add_point("b".to_string(), true, RouteAttrs::new());
    g1.add_edge("b".to_string(), "a".to_string(), "x".to_string(), RouteAttrs::new());
    g1.add_edge("a".to_string(), "b".to_string(), String::new(), attrs(&[("color", "red")]));
    let mut g2 = RouteGraph::new();
    g2.add_edge("a".to_string(), "b".to_string(), String::new(), attrs(&[("color", "red")]));
    g2.add_point("b".to_string(), true, RouteAttrs::new());
    g2.add_edge("b".to_string(), "a".to_string(), "x".to_string(), RouteAttrs::new());
    g2.add_point("a".to_string(), false, attrs(&[("color", "red"), ("shape", "box")]));
    assert_eq!(g1.to_graphviz(), g2.to_graphviz());
    assert_eq!(g1.to_graphviz(), g1.to_graphviz());
}

#[test]
fn only_ip_literals_keep_bare_names() {
    let host = |s: &str| parse_server_spec(s, "example.net").1;
    assert_eq!(host("x:y"), "x:y.example.net");
    assert_eq!(host("::"), "::");
    assert_eq!(host("::ffff"), "::ffff");
    assert_eq!(host("1:2:3:4:5:6:7:8"), "1:2:3:4:5:6:7:8");
    assert_eq!(host("1:2:3:4:5:6:7::"), "1:2:3:4:5:6:7::");
    assert_eq!(host("1:2:3:4:5:6:7"), "1:2:3:4:5:6:7.example.net");
    assert_eq!(host("1::2::3"), "1::2::3.example.net");
    assert_eq!(host("12345::1"), "12345::1.example.net");
    assert_eq!(host("g::1"), "g::1.example.net");
    assert_eq!(host("1::2:3:4:5:6:7:8"), "1::2:3:4:5:6:7:8.example.net");
}

use bird_lg::bgpmap::{bird_route_to_graph, bird_route_to_graphviz};
use bird_lg::encoding::{decode_document, encode_document};

#[test]
fn test_bird_route_to_graph_xss() {
    let fake_result = r#"<script>alert("evil!")</script>"#;
    let result = bird_route_to_graphviz(
        &[String::from("alpha")],
        &[fake_result.to_string()],
        fake_result,
    );
    let encoded = encode_document(&result);

    // Decode the base64 result to check for XSS
    let decoded = decode_document(&encoded).unwrap();
    assert!(!decoded.contains(fake_result), "XSS injection succeeded: {}", decoded);
}

#[test]
fn test_bird_route_to_graph() {
    let input = r#"Table master4:
172.20.0.53/32       unicast [ibgp_sjc2 2023-04-29 from fd86:bad:11b7:22::1] * (100/38) [AS4242423914i]
	via 169.254.108.122 on igp-sjc2
	Type: BGP univ
	BGP.origin: IGP
	BGP.as_path: 4242423914
	BGP.next_hop: 172.20.229.122
	BGP.med: 50
	BGP.local_pref: 100
	BGP.community: (64511,1) (64511,24) (64511,34)
	BGP.large_community: (4242421080, 101, 44) (4242421080, 103, 122) (4242421080, 104, 1)
                     unicast [miaotony_2688 2023-04-29 from fe80::2688] (100) [AS4242423914i]
                     
	via 172.23.6.6 on dn42las-miaoton
	Type: BGP univ
	BGP.origin: IGP
	BGP.as_path: 4242422688 4242423914
	BGP.next_hop: 172.23.6.6
	BGP.med: 50
	BGP.local_pref: 100
	BGP.community: (64511,3) (64511,24) (64511,34)
	BGP.large_community: (4242421080, 104, 1) (4242421080, 101, 44) (4242421080, 103, 126)"#;

    let result = bird_route_to_graph(&[String::from("node")], &[input.to_string()], "target");

    // Source node must exist
    assert!(result.get_point("node").is_some(), "Result doesn't contain point node");
    
    // Last hop must exist
    assert!(result.get_point("4242423914").is_some(), "Result doesn't contain point 4242423914");
    
    // Destination must exist
    assert!(result.get_point("target").is_some(), "Result doesn't contain point target");

    // Verify that a few paths exist
    assert!(result.get_edge("node", "4242423914").is_some(), "Result doesn't contain edge from node to 4242423914");
    assert!(result.get_edge("node", "4242422688").is_some(), "Result doesn't contain edge from node to 4242422688");
    assert!(result.get_edge("4242422688", "4242423914").is_some(), "Result doesn't contain edge from 4242422688 to 4242423914");
    assert!(result.get_edge("4242423914", "target").is_some(), "Result doesn't contain edge from 4242423914 to target");
}

#[test]
fn test_bird_route_to_graphviz() {
    let input = r#"Table master4:
172.20.0.53/32       unicast [ibgp_sjc2 2023-04-29 from fd86:bad:11b7:22::1] * (100/38) [AS4242423914i]
	via 169.254.108.122 on igp-sjc2
	Type: BGP univ
	BGP.origin: IGP
	BGP.as_path: 4242423914
	BGP.next_hop: 172.20.229.122"#;

    let dot_result = bird_route_to_graphviz(&[String::from("node")], &[input.to_string()], "target");
    let base64_result = encode_document(&dot_result);
    
    // Decode the base64 result
    let decoded = decode_document(&base64_result).unwrap();
    assert!(decoded.contains("digraph {"), "Response is not Graphviz data");
    assert_eq!(decoded, dot_result, "Round-trip encoding/decoding should match");
}

#[test]
fn test_graphviz_syntax_completeness() {
    let input = r#"Table master4:
172.20.0.53/32       unicast [ibgp_sjc2 2023-04-29 from fd86:bad:11b7:22::1] * (100/38) [AS4242423914i]
	via 169.254.108.122 on igp-sjc2
	Type: BGP univ
	BGP.origin: IGP
	BGP.as_path: 4242423914
	BGP.next_hop: 172.20.229.122"#;

    let dot_result = bird_route_to_graphviz(&[String::from("node")], &[input.to_string()], "target");
    let base64_result = encode_document(&dot_result);
    
    // Decode the base64 result
    let decoded = decode_document(&base64_result).unwrap();
    println!("Generated DOT:\n{}", decoded);
    
    // Check that it starts and ends properly
    assert!(decoded.starts_with("digraph {"), "DOT should start with 'digraph {{'");
    assert!(decoded.ends_with("}\n"), "DOT should end with '}}'");
    
    // Check that it contains required elements
    assert!(decoded.contains("rankdir=LR"), "Should contain rankdir directive");
    assert!(decoded.contains("node [shape=box]"), "Should contain node shape directive");
    assert!(decoded.contains("target"), "Should contain target node");
    assert!(decoded.contains("node"), "Should contain server node");
    
    // Check that edges are properly formatted (should contain -> and end with ;)
    let lines: Vec<&str> = decoded.lines().collect();
    for line in &lines {
        if line.contains("->") {
            assert!(line.trim().ends_with(';'), "Edge line should end with semicolon: {}", line);
        }
        if line.contains('[') && !line.contains("node [") {
            assert!(line.trim().ends_with(';'), "Attribute line should end with semicolon: {}", line);
        }
    }
}

#[test]
fn hostile_text_adds_no_lines() {
    let hostile = "x\"];\n  \"evil\" -> \"y\\";
    let dump = format!("Table:\n1.0.0.0/8 unicast [{} 1] *\n\tvia {}\n\tBGP.as_path: 64512 a\\\n", hostile, hostile);
    let graph = bird_route_to_graph(&[hostile.to_string()], &[dump.clone()], hostile);
    let doc = bird_route_to_graphviz(&[hostile.to_string()], &[dump], hostile);
    // Server and target share one name. The points are that name, 64512 and
    // the token `a\`; the edges go from the name to 64512, on to `a\`, and back.
    assert!(graph.get_point("64512").is_some());
    assert!(graph.get_point("a\\").is_some());
    assert!(graph.get_edge("a\\", hostile).is_some());
    assert_eq!(doc.lines().count(), 4 + 3 + 3);
    assert!(doc.ends_with("}\n"));
}

//! The values that the frontend's page templates are filled with.
use vstd::prelude::*;

verus! {

/// The whole page around one query's results.
#[derive(Debug)]
pub struct PageContext {
    pub title: String,
    pub brand: String,
    pub brand_url: String,
    pub all_server_title: String,
    pub all_servers_url: String,
    pub all_servers_link_active: bool,
    pub servers: Vec<String>,
    pub servers_display: Vec<String>,
    pub url_option: String,
    pub url_server: String,
    pub url_command: String,
    pub options: Vec<(String, String)>,
    pub content: String,
}

/// One server's answer to a daemon or traceroute query.
#[derive(Debug)]
pub struct BirdContext {
    pub server_name: String,
    pub target: String,
    pub result: String,
}

/// A whois answer.
#[derive(Debug)]
pub struct WhoisContext {
    pub target: String,
    pub result: String,
}

/// A route graph, base64-encoded for embedding.
#[derive(Debug)]
pub struct BgpmapContext {
    pub target: String,
    pub result: String,
}

/// A protocol summary table.
#[derive(Debug)]
pub struct SummaryContext {
    pub server_name: String,
    pub headers: Vec<String>,
    pub rows: Vec<SummaryRowData>,
}

/// One protocol of a summary table.
#[derive(Debug)]
pub struct SummaryRowData {
    pub name: String,
    pub proto: String,
    pub table: String,
    pub state: String,
    pub mapped_state: String,
    pub since: String,
    pub info: String,
}

} // verus!

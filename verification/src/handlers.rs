//! What a web server in front of the relay decides: which requests become connections, where
//! they come from, and what the others are answered.

use crate::config::ScopeConfig;
use crate::subdomain::{extract_subdomain, subdomain_of};
use crate::text::{
    concat2, decimal, has_substring, law_substring_stands_between, lemma_split_prepend,
    lemma_split_single, occurs_at, split_on, split_string, str_eq, trim, trimmed, u64_text, views,
};
use vstd::prelude::*;

verus! {

/// The number of open connections, where it is counted.
#[derive(Debug, Clone, Copy, PartialEq, Eq, Structural)]
pub struct ConnectionCounter {
    pub counter: Option<usize>,
}

impl ConnectionCounter {
    /// The count after one more connection was opened.
    pub fn new(counter: Option<usize>) -> (r: ConnectionCounter)
        requires
            counter matches Some(n) ==> n < usize::MAX,
        ensures
            r.counter == match counter {
                Some(n) => Some((n + 1) as usize),
                None => None,
            },
    {
        match counter {
            Some(n) => ConnectionCounter { counter: Some(n + 1) },
            None => ConnectionCounter { counter: None },
        }
    }

    /// The count after a connection was closed.
    pub fn closed(counter: Option<usize>) -> (r: ConnectionCounter)
        requires
            counter matches Some(n) ==> n > 0,
        ensures
            r.counter == match counter {
                Some(n) => Some((n - 1) as usize),
                None => None,
            },
    {
        match counter {
            Some(n) => ConnectionCounter { counter: Some(n - 1) },
            None => ConnectionCounter { counter: None },
        }
    }
}

/// The address of a client: what the first entry of the forwarding header names, or the address
/// of the socket where there is no such header, and the port of the socket.
pub open spec fn real_ip(
    forwarded_for: Option<Seq<char>>,
    socket_ip: Seq<char>,
    port: u16,
) -> Seq<char> {
    (match forwarded_for {
        Some(list) => trimmed(split_on(list, ',')[0]),
        None => socket_ip,
    }) + ":"@ + decimal(port as nat)
}

/// The address of a client. The port of the socket makes it unique.
pub fn get_real_ip(forwarded_for: Option<&str>, socket_ip: &str, port: u16) -> (r: String)
    ensures
        r@ == real_ip(
            match forwarded_for {
                Some(list) => Some(list@),
                None => None,
            },
            socket_ip@,
            port,
        ),
{
    let mut ip = match forwarded_for {
        Some(list) => {
            let entries = split_string(list, ',');
            proof {
                assert(views(entries@)[0] == entries@[0]@);
            }
            trim(entries[0].as_str())
        },
        None => socket_ip.to_owned(),
    };
    ip.append(":");
    ip.append(u64_text(port as u64).as_str());
    ip
}

/// What a relay says of itself.
#[derive(Debug)]
pub struct RelayInfo {
    pub name: String,
    pub description: String,
    pub pubkey: String,
    pub contact: String,
    pub supported_nips: Vec<u16>,
    pub software: String,
    pub version: String,
    pub icon: Option<String>,
}

/// The page up to the title.
pub const PAGE_TOP: &'static str = r#"<!DOCTYPE html>
<html lang="en">
<head>
    <meta charset="UTF-8">
    <meta name="viewport" content="width=device-width, initial-scale=1.0">
    <title>"#;

/// The page from the title to the icon.
pub const PAGE_STYLE: &'static str = r#" - Nostr Relay</title>
    <style>
        body {
            font-family: -apple-system, BlinkMacSystemFont, 'Segoe UI', Roboto, Oxygen, Ubuntu, sans-serif;
            max-width: 800px;
            margin: 0 auto;
            padding: 20px;
            background-color: #f5f5f5;
            color: #333;
        }
        .container {
            background-color: white;
            padding: 30px;
            border-radius: 10px;
            box-shadow: 0 2px 4px rgba(0,0,0,0.1);
        }
        h1 {
            color: #6200ea;
            margin-bottom: 10px;
        }
        .description {
            font-size: 1.1em;
            color: #666;
            margin-bottom: 30px;
        }
        .info-section {
            margin: 20px 0;
        }
        .info-section h2 {
            color: #444;
            font-size: 1.2em;
            margin-bottom: 10px;
        }
        .info-item {
            display: flex;
            padding: 8px 0;
            border-bottom: 1px solid #eee;
        }
        .info-label {
            font-weight: 600;
            width: 150px;
            color: #555;
        }
        .info-value {
            flex: 1;
            color: #666;
            word-break: break-all;
        }
        .nip-list {
            display: flex;
            flex-wrap: wrap;
            gap: 8px;
            margin-top: 5px;
        }
        .nip-badge {
            background-color: #6200ea;
            color: white;
            padding: 4px 8px;
            border-radius: 4px;
            font-size: 0.85em;
        }
        .endpoint {
            background-color: #f5f5f5;
            padding: 10px;
            border-radius: 4px;
            font-family: monospace;
            margin: 10px 0;
        }
        .icon {
            width: 64px;
            height: 64px;
            border-radius: 8px;
            margin-bottom: 20px;
        }
        a {
            color: #6200ea;
            text-decoration: none;
        }
        a:hover {
            text-decoration: underline;
        }
    </style>
</head>
<body>
    <div class="container">
        "#;

/// The page from the icon to the heading.
pub const PAGE_HEADING: &'static str = r#"
        <h1>"#;

/// The page from the heading to the description.
pub const PAGE_DESCRIPTION: &'static str = r#"</h1>
        <p class="description">"#;

/// The page from the description to the public key.
pub const PAGE_KEY: &'static str = r#"</p>

        <div class="info-section">
            <h2>Connection Info</h2>
            <div class="endpoint">
                WebSocket Endpoint: <strong id="websocket-url"></strong>
            </div>
        </div>

        <div class="info-section">
            <h2>Relay Details</h2>
            <div class="info-item">
                <span class="info-label">Public Key:</span>
                <span class="info-value">"#;

/// The page from the public key to the contact.
pub const PAGE_CONTACT: &'static str = r#"</span>
            </div>
            <div class="info-item">
                <span class="info-label">Contact:</span>
                <span class="info-value">"#;

/// The page from the contact to the software.
pub const PAGE_SOFTWARE: &'static str = r#"</span>
            </div>
            <div class="info-item">
                <span class="info-label">Software:</span>
                <span class="info-value">"#;

/// The page from the software to its version.
pub const PAGE_VERSION: &'static str = r#" v"#;

/// The page from the version to the list of protocols.
pub const PAGE_NIPS: &'static str = r#"</span>
            </div>
        </div>

        <div class="info-section">
            <h2>Supported NIPs</h2>
            <div class="nip-list">
                "#;

/// The page after the list of protocols.
pub const PAGE_END: &'static str = r#"
            </div>
        </div>

        <div class="info-section">
            <h2>Usage</h2>
            <p>Connect to this relay using any Nostr client that supports the WebSocket protocol.</p>
            <p>For relay information in JSON format, send a request with <code>Accept: application/nostr+json</code></p>
        </div>
    </div>

    <script>
        // Dynamically set the WebSocket URL based on current protocol and hostname
        document.addEventListener('DOMContentLoaded', function() {
            const protocol = window.location.protocol === 'https:' ? 'wss:' : 'ws:';
            const host = window.location.host; // includes hostname and port if present
            const websocketUrl = protocol + '//' + host;
            document.getElementById('websocket-url').textContent = websocketUrl;
        });
    </script>
</body>
</html>"#;

/// The image of the relay, where it has one.
pub open spec fn icon_html(info: RelayInfo) -> Seq<char> {
    match info.icon {
        Some(url) => "<img src=\""@ + url@ + "\" alt=\""@ + info.name@ + " icon\" class=\"icon\">"@,
        None => Seq::empty(),
    }
}

/// The badges of the protocols that the relay supports.
pub open spec fn nips_html(nips: Seq<u16>) -> Seq<char>
    decreases nips.len(),
{
    if nips.len() == 0 {
        Seq::empty()
    } else {
        nips_html(nips.drop_last()) + "<span class=\"nip-badge\">NIP-"@ + decimal(
            nips.last() as nat,
        ) + "</span>"@
    }
}

/// The page that shows what a relay says of itself.
pub open spec fn relay_html(info: RelayInfo) -> Seq<char> {
    PAGE_TOP@ + info.name@ + PAGE_STYLE@ + icon_html(info) + PAGE_HEADING@ + info.name@ + PAGE_DESCRIPTION@ + info.description@ + PAGE_KEY@ + info.pubkey@ + PAGE_CONTACT@ + info.contact@ + PAGE_SOFTWARE@ + info.software@ + PAGE_VERSION@ + info.version@ + PAGE_NIPS@ + nips_html(info.supported_nips@) + PAGE_END@
}

fn make_icon(info: &RelayInfo) -> (r: String)
    ensures
        r@ == icon_html(*info),
{
    match &info.icon {
        Some(url) => {
            let mut html = String::from_str("<img src=\"");
            html.append(url.as_str());
            html.append("\" alt=\"");
            html.append(info.name.as_str());
            html.append(" icon\" class=\"icon\">");
            html
        },
        None => String::new(),
    }
}

fn make_nips(nips: &Vec<u16>) -> (r: String)
    ensures
        r@ == nips_html(nips@),
{
    let mut html = String::new();
    let mut i: usize = 0;
    proof {
        assert(nips@.take(0) =~= Seq::empty());
    }
    while i < nips.len()
        invariant
            i <= nips@.len(),
            html@ == nips_html(nips@.take(i as int)),
        decreases nips@.len() - i,
    {
        proof {
            assert(nips@.take(i + 1).drop_last() =~= nips@.take(i as int));
        }
        html.append("<span class=\"nip-badge\">NIP-");
        html.append(u64_text(nips[i] as u64).as_str());
        html.append("</span>");
        i = i + 1;
    }
    proof {
        assert(nips@.take(nips@.len() as int) =~= nips@);
    }
    html
}

/// The page that shows what a relay says of itself.
pub fn default_relay_html(relay_info: &RelayInfo) -> (r: String)
    ensures
        r@ == relay_html(*relay_info),
{
    let icon = make_icon(relay_info);
    let nips = make_nips(&relay_info.supported_nips);
    let mut page = PAGE_TOP.to_owned();
    page.append(relay_info.name.as_str());
    page.append(PAGE_STYLE);
    page.append(icon.as_str());
    page.append(PAGE_HEADING);
    page.append(relay_info.name.as_str());
    page.append(PAGE_DESCRIPTION);
    page.append(relay_info.description.as_str());
    page.append(PAGE_KEY);
    page.append(relay_info.pubkey.as_str());
    page.append(PAGE_CONTACT);
    page.append(relay_info.contact.as_str());
    page.append(PAGE_SOFTWARE);
    page.append(relay_info.software.as_str());
    page.append(PAGE_VERSION);
    page.append(relay_info.version.as_str());
    page.append(PAGE_NIPS);
    page.append(nips.as_str());
    page.append(PAGE_END);
    page
}

/// What a request to the root of the server is answered.
#[derive(Debug, Clone, Copy, PartialEq, Eq, Structural)]
pub enum RootResponse {
    /// It becomes a connection.
    Upgrade,
    /// What the relay says of itself, as JSON.
    RelayInfo,
    NotFound,
}

/// What the web server knows of the relay.
pub struct RelayHandlers {
    /// What the relay says of itself.
    pub relay_info: RelayInfo,
    /// The number of open connections, where it is counted.
    pub connection_counter: ConnectionCounter,
    /// How scopes are found.
    pub scope_config: ScopeConfig,
}

impl RelayHandlers {
    pub fn new(relay_info: RelayInfo, counter: Option<usize>, scope_config: ScopeConfig) -> (r:
        RelayHandlers)
        ensures
            r.relay_info == relay_info,
            r.connection_counter.counter == counter,
            r.scope_config == scope_config,
    {
        RelayHandlers { relay_info, connection_counter: ConnectionCounter { counter }, scope_config }
    }

    /// Whether a request asks for what the relay says of itself.
    pub fn wants_nostr_json(accept_header: &str) -> (r: bool)
        ensures
            r == (accept_header@ == "application/nostr+json"@),
    {
        str_eq(accept_header, "application/nostr+json")
    }

    /// What the relay says of itself.
    pub fn relay_info(&self) -> (r: &RelayInfo)
        ensures
            *r == self.relay_info,
    {
        &self.relay_info
    }

    /// The number of open connections, where it is counted.
    pub fn connection_count(&self) -> (r: Option<usize>)
        ensures
            r == self.connection_counter.counter,
    {
        self.connection_counter.counter
    }

    /// The subdomain that a request was made to, where subdomains name scopes.
    pub fn request_subdomain(&self, host: Option<&str>) -> (r: Option<String>)
        ensures
            match (self.scope_config, host) {
                (ScopeConfig::Subdomain { base_domain_parts }, Some(h)) => match r {
                    Some(s) => subdomain_of(h@, base_domain_parts as nat) == Some(s@),
                    None => subdomain_of(h@, base_domain_parts as nat) is None,
                },
                _ => r is None,
            },
    {
        match (&self.scope_config, host) {
            (ScopeConfig::Subdomain { base_domain_parts }, Some(h)) => extract_subdomain(
                h,
                *base_domain_parts,
            ),
            _ => None,
        }
    }

    /// How a subdomain is shown behind an address.
    pub fn display_info(subdomain: &Option<String>) -> (r: String)
        ensures
            r@ == match *subdomain {
                Some(s) => if s@.len() > 0 {
                    " @"@ + s@
                } else {
                    Seq::empty()
                },
                None => Seq::empty(),
            },
    {
        match subdomain {
            Some(s) => {
                if s.as_str().is_empty() {
                    String::new()
                } else {
                    concat2(" @", s.as_str())
                }
            },
            None => String::new(),
        }
    }

    /// What a request to the root of the server is answered: a request for a connection gets
    /// one, whatever else it asks for.
    pub fn root_response(wants_upgrade: bool, accept_header: Option<&str>) -> (r: RootResponse)
        ensures
            r == if wants_upgrade {
                RootResponse::Upgrade
            } else if accept_header matches Some(value) && value@ == "application/nostr+json"@ {
                RootResponse::RelayInfo
            } else {
                RootResponse::NotFound
            },
    {
        if wants_upgrade {
            return RootResponse::Upgrade;
        }
        if let Some(value) = accept_header {
            if RelayHandlers::wants_nostr_json(value) {
                return RootResponse::RelayInfo;
            }
        }
        RootResponse::NotFound
    }
}

/// The address of a client is the first entry of the forwarding header, without the white space
/// around it and whatever entries follow, or the address of the socket where there is no such
/// header; behind it stands the port of the socket.
pub proof fn law_first_forwarded_address_counts(
    first: Seq<char>,
    rest: Seq<char>,
    socket_ip: Seq<char>,
    port: u16,
)
    requires
        !first.contains(','),
    ensures
        real_ip(Some(first), socket_ip, port) == trimmed(first) + ":"@ + decimal(port as nat),
        real_ip(Some(first.push(',') + rest), socket_ip, port) == trimmed(first) + ":"@ + decimal(
            port as nat,
        ),
        real_ip(None, socket_ip, port) == socket_ip + ":"@ + decimal(port as nat),
{
    lemma_split_single(first, ',');
    lemma_split_prepend(first, ',', rest);
    assert((seq![first] + split_on(rest, ','))[0] == first);
}

/// The page of a relay shows what the relay says of itself, and a badge for each protocol document
/// that it supports.
pub proof fn law_page_shows_the_relay(info: RelayInfo, i: int)
    ensures
        has_substring(relay_html(info), info.name@),
        has_substring(relay_html(info), info.description@),
        has_substring(relay_html(info), info.pubkey@),
        has_substring(relay_html(info), info.contact@),
        has_substring(relay_html(info), info.software@),
        has_substring(relay_html(info), info.version@),
        info.icon matches Some(url) ==> has_substring(relay_html(info), "<img src=\""@ + url@),
        0 <= i < info.supported_nips@.len() ==> has_substring(
            relay_html(info),
            "NIP-"@ + decimal(info.supported_nips@[i] as nat) + "</span>"@,
        ),
{
    let icon = icon_html(info);
    let nips = nips_html(info.supported_nips@);
    let a = PAGE_TOP@ + info.name@ + PAGE_STYLE@;
    let b = a + icon + PAGE_HEADING@;
    let c = b + info.name@ + PAGE_DESCRIPTION@;
    let d = c + info.description@ + PAGE_KEY@;
    let e = d + info.pubkey@ + PAGE_CONTACT@;
    let f = e + info.contact@ + PAGE_SOFTWARE@;
    let g = f + info.software@ + PAGE_VERSION@;
    let h = g + info.version@ + PAGE_NIPS@;
    let page = h + nips + PAGE_END@;
    assert(page == relay_html(info));
    if let Some(url) = info.icon {
        let start = "<img src=\""@ + url@;
        let rest = "\" alt=\""@ + info.name@ + " icon\" class=\"icon\">"@;
        assert(icon =~= start + rest);
        lemma_part_of(icon, Seq::empty(), start, rest);
        lemma_part_stays(a, icon, PAGE_HEADING@, start);
        lemma_part_remains(b, info.name@, PAGE_DESCRIPTION@, start);
        lemma_part_remains(c, info.description@, PAGE_KEY@, start);
        lemma_part_remains(d, info.pubkey@, PAGE_CONTACT@, start);
        lemma_part_remains(e, info.contact@, PAGE_SOFTWARE@, start);
        lemma_part_remains(f, info.software@, PAGE_VERSION@, start);
        lemma_part_remains(g, info.version@, PAGE_NIPS@, start);
        lemma_part_remains(h, nips, PAGE_END@, start);
    }
    lemma_part_of(info.name@, Seq::empty(), info.name@, Seq::empty());
    lemma_part_stays(b, info.name@, PAGE_DESCRIPTION@, info.name@);
    lemma_part_remains(c, info.description@, PAGE_KEY@, info.name@);
    lemma_part_remains(d, info.pubkey@, PAGE_CONTACT@, info.name@);
    lemma_part_remains(e, info.contact@, PAGE_SOFTWARE@, info.name@);
    lemma_part_remains(f, info.software@, PAGE_VERSION@, info.name@);
    lemma_part_remains(g, info.version@, PAGE_NIPS@, info.name@);
    lemma_part_remains(h, nips, PAGE_END@, info.name@);
    lemma_part_of(info.description@, Seq::empty(), info.description@, Seq::empty());
    lemma_part_stays(c, info.description@, PAGE_KEY@, info.description@);
    lemma_part_remains(d, info.pubkey@, PAGE_CONTACT@, info.description@);
    lemma_part_remains(e, info.contact@, PAGE_SOFTWARE@, info.description@);
    lemma_part_remains(f, info.software@, PAGE_VERSION@, info.description@);
    lemma_part_remains(g, info.version@, PAGE_NIPS@, info.description@);
    lemma_part_remains(h, nips, PAGE_END@, info.description@);
    lemma_part_of(info.pubkey@, Seq::empty(), info.pubkey@, Seq::empty());
    lemma_part_stays(d, info.pubkey@, PAGE_CONTACT@, info.pubkey@);
    lemma_part_remains(e, info.contact@, PAGE_SOFTWARE@, info.pubkey@);
    lemma_part_remains(f, info.software@, PAGE_VERSION@, info.pubkey@);
    lemma_part_remains(g, info.version@, PAGE_NIPS@, info.pubkey@);
    lemma_part_remains(h, nips, PAGE_END@, info.pubkey@);
    lemma_part_of(info.contact@, Seq::empty(), info.contact@, Seq::empty());
    lemma_part_stays(e, info.contact@, PAGE_SOFTWARE@, info.contact@);
    lemma_part_remains(f, info.software@, PAGE_VERSION@, info.contact@);
    lemma_part_remains(g, info.version@, PAGE_NIPS@, info.contact@);
    lemma_part_remains(h, nips, PAGE_END@, info.contact@);
    lemma_part_of(info.software@, Seq::empty(), info.software@, Seq::empty());
    lemma_part_stays(f, info.software@, PAGE_VERSION@, info.software@);
    lemma_part_remains(g, info.version@, PAGE_NIPS@, info.software@);
    lemma_part_remains(h, nips, PAGE_END@, info.software@);
    lemma_part_of(info.version@, Seq::empty(), info.version@, Seq::empty());
    lemma_part_stays(g, info.version@, PAGE_NIPS@, info.version@);
    lemma_part_remains(h, nips, PAGE_END@, info.version@);
    if 0 <= i < info.supported_nips@.len() {
        lemma_badge(info.supported_nips@, i);
        let badge = "NIP-"@ + decimal(info.supported_nips@[i] as nat) + "</span>"@;
        lemma_part_stays(h, nips, PAGE_END@, badge);
    }
}

/// What stands in a text stands in it also where texts are put before and behind it.
proof fn lemma_part_stays(before: Seq<char>, s: Seq<char>, after: Seq<char>, part: Seq<char>)
    requires
        has_substring(s, part),
    ensures
        has_substring(before + s + after, part),
{
    let i = choose|i: int| occurs_at(s, part, i);
    let whole = before + s + after;
    let k = before.len() + i;
    assert(whole.subrange(k, k + part.len()) =~= s.subrange(i, i + part.len()));
    assert(occurs_at(whole, part, k));
}

/// What stands in a text stands in it also where two texts are put behind it.
proof fn lemma_part_remains(s: Seq<char>, next: Seq<char>, after: Seq<char>, part: Seq<char>)
    requires
        has_substring(s, part),
    ensures
        has_substring(s + next + after, part),
{
    let i = choose|i: int| occurs_at(s, part, i);
    let whole = s + next + after;
    assert(whole.subrange(i, i + part.len()) =~= s.subrange(i, i + part.len()));
    assert(occurs_at(whole, part, i));
}

proof fn lemma_part_of(s: Seq<char>, before: Seq<char>, part: Seq<char>, after: Seq<char>)
    requires
        s =~= before + part + after,
    ensures
        has_substring(s, part),
{
    law_substring_stands_between(s, part);
    assert(s == before + part + after);
}

proof fn lemma_badge(nips: Seq<u16>, i: int)
    requires
        0 <= i < nips.len(),
    ensures
        has_substring(nips_html(nips), "NIP-"@ + decimal(nips[i] as nat) + "</span>"@),
    decreases nips.len(),
{
    let badge = "NIP-"@ + decimal(nips[i] as nat) + "</span>"@;
    let init = nips_html(nips.drop_last());
    let open = "<span class=\"nip-badge\">NIP-"@;
    let last = open + decimal(nips.last() as nat) + "</span>"@;
    assert(nips_html(nips) =~= init + last);
    if i < nips.len() - 1 {
        lemma_badge(nips.drop_last(), i);
        law_substring_stands_between(init, badge);
        let (before, after) = choose|before: Seq<char>, after: Seq<char>|
            init == #[trigger] (before + badge + after);
        lemma_part_of(nips_html(nips), before, badge, after + last);
    } else {
        reveal_strlit("<span class=\"nip-badge\">NIP-");
        reveal_strlit("<span class=\"nip-badge\">");
        reveal_strlit("NIP-");
        let front = "<span class=\"nip-badge\">"@;
        assert(open =~= front + "NIP-"@);
        lemma_part_of(nips_html(nips), init + front, badge, Seq::empty());
    }
}

/// A request for a connection gets one; one for what the relay says of itself, by the type
/// `application/nostr+json`, gets that; and any other gets nothing.
pub proof fn law_root_answers(upgrade: bool, accept: Option<&str>, r: RootResponse)
    requires
        call_ensures(RelayHandlers::root_response, (upgrade, accept), r),
    ensures
        r is Upgrade <==> upgrade,
        r is RelayInfo <==> !upgrade && (accept matches Some(value) && value@
            == "application/nostr+json"@),
        r is NotFound <==> !(r is Upgrade) && !(r is RelayInfo),
{
}

/// A connection that is opened and closed again leaves the count as it was; a count that is not kept
/// stays so.
pub proof fn law_connections_are_counted(
    count: Option<usize>,
    opened: ConnectionCounter,
    closed: ConnectionCounter,
)
    requires
        count matches Some(n) ==> n < usize::MAX,
        call_ensures(ConnectionCounter::new, (count,), opened),
        call_ensures(ConnectionCounter::closed, (opened.counter,), closed),
    ensures
        closed.counter == count,
        count matches Some(n) ==> opened.counter == Some((n + 1) as usize),
        count is None ==> opened.counter is None,
{
}

} // verus!

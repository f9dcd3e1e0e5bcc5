//! A proxy that serves part of an API from a local node and the rest from the official one.
use crate::json::{byte_string_at, quote, string_at};
use crate::text::{chars_of, push_text, str_eq, text_of};
use vstd::prelude::*;

verus! {

// ── HTTP ─────────────────────────────────────────────────────────────────

/// Whether a path is that of the information requests.
pub open spec fn is_info_path(path: Seq<char>) -> bool {
    path == "/info"@ || path == "/info/"@
}

/// Whether a kind of information is served by the local node.
pub open spec fn is_local_info(t: Seq<char>) -> bool {
    t == "meta"@
        || t == "spotMeta"@
        || t == "clearinghouseState"@
        || t == "spotClearinghouseState"@
        || t == "openOrders"@
        || t == "exchangeStatus"@
        || t == "frontendOpenOrders"@
        || t == "liquidatable"@
        || t == "activeAssetData"@
        || t == "maxMarketOrderNtls"@
        || t == "vaultSummaries"@
        || t == "userVaultEquities"@
        || t == "leadingVaults"@
        || t == "extraAgents"@
        || t == "subAccounts"@
        || t == "userFees"@
        || t == "userRateLimit"@
        || t == "spotDeployState"@
        || t == "perpDeployAuctionStatus"@
        || t == "delegations"@
        || t == "delegatorSummary"@
        || t == "maxBuilderFee"@
        || t == "userToMultiSigSigners"@
        || t == "userRole"@
        || t == "perpsAtOpenInterestCap"@
        || t == "validatorL1Votes"@
        || t == "marginTable"@
        || t == "perpDexs"@
}

/// Whether a body asks for information that the local node serves.
pub open spec fn is_local_body(body: Seq<u8>) -> bool {
    match crate::json::byte_string_found(body, "/type"@) {
        Some(t) => is_local_info(t),
        None => false,
    }
}

/// Whether a header is about one connection only, and is not passed on.
pub open spec fn is_hop_header(name: Seq<char>) -> bool {
    name == "connection"@
        || name == "host"@
        || name == "keep-alive"@
        || name == "proxy-authenticate"@
        || name == "proxy-authorization"@
        || name == "te"@
        || name == "trailer"@
        || name == "transfer-encoding"@
        || name == "upgrade"@
        || name == "content-length"@
}

/// The text without the slashes that it ends with.
pub open spec fn without_slashes(s: Seq<char>) -> Seq<char>
    decreases s.len(),
{
    if s.len() > 0 && s.last() == '/' {
        without_slashes(s.drop_last())
    } else {
        s
    }
}

/// Whether a path is that of the information requests.
pub fn routes_to_info(path: &str) -> (r: bool)
    ensures
        r == is_info_path(path@),
{
    str_eq(path, "/info") || str_eq(path, "/info/")
}

/// Whether a kind of information is served by the local node.
pub fn local_info_method(info_type: &str) -> (r: bool)
    ensures
        r == is_local_info(info_type@),
{
    str_eq(info_type, "meta")
        || str_eq(info_type, "spotMeta")
        || str_eq(info_type, "clearinghouseState")
        || str_eq(info_type, "spotClearinghouseState")
        || str_eq(info_type, "openOrders")
        || str_eq(info_type, "exchangeStatus")
        || str_eq(info_type, "frontendOpenOrders")
        || str_eq(info_type, "liquidatable")
        || str_eq(info_type, "activeAssetData")
        || str_eq(info_type, "maxMarketOrderNtls")
        || str_eq(info_type, "vaultSummaries")
        || str_eq(info_type, "userVaultEquities")
        || str_eq(info_type, "leadingVaults")
        || str_eq(info_type, "extraAgents")
        || str_eq(info_type, "subAccounts")
        || str_eq(info_type, "userFees")
        || str_eq(info_type, "userRateLimit")
        || str_eq(info_type, "spotDeployState")
        || str_eq(info_type, "perpDeployAuctionStatus")
        || str_eq(info_type, "delegations")
        || str_eq(info_type, "delegatorSummary")
        || str_eq(info_type, "maxBuilderFee")
        || str_eq(info_type, "userToMultiSigSigners")
        || str_eq(info_type, "userRole")
        || str_eq(info_type, "perpsAtOpenInterestCap")
        || str_eq(info_type, "validatorL1Votes")
        || str_eq(info_type, "marginTable")
        || str_eq(info_type, "perpDexs")
}

/// Whether a body asks for information that the local node serves.
pub fn info_body_routes_to_local(body: &[u8]) -> (r: bool)
    ensures
        r == is_local_body(body@),
{
    match byte_string_at(body, "/type") {
        Some(t) => local_info_method(t.as_str()),
        None => false,
    }
}

/// Whether a header is about one connection only, by its name in small letters.
pub fn is_hop_by_hop_header(name: &str) -> (r: bool)
    ensures
        r == is_hop_header(name@),
{
    str_eq(name, "connection")
        || str_eq(name, "host")
        || str_eq(name, "keep-alive")
        || str_eq(name, "proxy-authenticate")
        || str_eq(name, "proxy-authorization")
        || str_eq(name, "te")
        || str_eq(name, "trailer")
        || str_eq(name, "transfer-encoding")
        || str_eq(name, "upgrade")
        || str_eq(name, "content-length")
}

/// Which headers are passed on, by their names in small letters.
pub fn filtered_headers(names: &Vec<String>) -> (r: Vec<bool>)
    ensures
        r@.len() == names@.len(),
        forall|i: int| 0 <= i < r@.len() ==> (#[trigger] r@[i]) == !is_hop_header(names@[i]@),
{
    let mut r: Vec<bool> = Vec::new();
    let mut i: usize = 0;
    while i < names.len()
        invariant
            i <= names@.len(),
            r@.len() == i,
            forall|j: int| 0 <= j < i ==> (#[trigger] r@[j]) == !is_hop_header(names@[j]@),
        decreases names@.len() - i,
    {
        r.push(!is_hop_by_hop_header(names[i].as_str()));
        i = i + 1;
    }
    r
}

/// The text without the slashes that it ends with.
pub fn trim_trailing_slash(value: &str) -> (r: String)
    ensures
        r@ == without_slashes(value@),
{
    let cs = chars_of(value);
    let mut to: usize = cs.len();
    assert(cs@.subrange(0, to as int) =~= value@);
    while to > 0 && cs[to - 1] == '/'
        invariant
            to <= cs@.len(),
            without_slashes(cs@.subrange(0, to as int)) == without_slashes(value@),
        decreases to,
    {
        assert(cs@.subrange(0, to as int).drop_last() =~= cs@.subrange(0, to - 1));
        to = to - 1;
    }
    text_of(&cs, 0, to)
}

/// The address that a request goes on to: the base without the slashes at its end, and the path with
/// the query.
pub fn build_target_url(base: &str, path_and_query: &str) -> (r: String)
    ensures
        r@ == without_slashes(base@) + path_and_query@,
{
    let mut r = trim_trailing_slash(base);
    push_text(&mut r, path_and_query);
    r
}

/// Where requests go to.
pub struct Upstreams {
    pub official_api_base: String,
    pub official_ws_url: String,
    pub local_ws_url: String,
    pub local_api_base: String,
}

/// The base that a request goes to. Only a posted information request of a kind that the local node
/// serves goes there.
pub fn select_http_upstream<'a>(state: &'a Upstreams, is_post: bool, path: &str, body: &[u8]) -> (r:
    &'a str)
    ensures
        r@ == if is_info_path(path@) && is_post && is_local_body(body@) {
            state.local_api_base@
        } else {
            state.official_api_base@
        },
{
    if routes_to_info(path) && is_post && info_body_routes_to_local(body) {
        state.local_api_base.as_str()
    } else {
        state.official_api_base.as_str()
    }
}

/// The report on the health of the proxy.
pub fn health_body(state: &Upstreams) -> (r: String)
    ensures
        r@ == "{\"local_api_base\":"@ + crate::json::quoted(state.local_api_base@)
            + ",\"local_ws_url\":"@ + crate::json::quoted(state.local_ws_url@)
            + ",\"official_api_base\":"@ + crate::json::quoted(state.official_api_base@)
            + ",\"official_ws_url\":"@ + crate::json::quoted(state.official_ws_url@)
            + ",\"status\":\"ok\"}"@,
{
    let mut r = "{\"local_api_base\":".to_owned();
    let a = quote(state.local_api_base.as_str());
    push_text(&mut r, a.as_str());
    push_text(&mut r, ",\"local_ws_url\":");
    let b = quote(state.local_ws_url.as_str());
    push_text(&mut r, b.as_str());
    push_text(&mut r, ",\"official_api_base\":");
    let c = quote(state.official_api_base.as_str());
    push_text(&mut r, c.as_str());
    push_text(&mut r, ",\"official_ws_url\":");
    let d = quote(state.official_ws_url.as_str());
    push_text(&mut r, d.as_str());
    push_text(&mut r, ",\"status\":\"ok\"}");
    r
}

// ── WebSocket ────────────────────────────────────────────────────────────

/// Where a text message of a client goes.
#[derive(Debug, Clone, Copy, PartialEq, Eq, Structural)]
pub enum WsRoute {
    /// It is answered by the proxy.
    DirectPong,
    Local,
    Official,
}

/// Whether the local server serves a subscription.
pub open spec fn is_local_subscription(t: Seq<char>) -> bool {
    t == "bbo"@ || t == "l2Book"@ || t == "l4Book"@ || t == "trades"@ || t == "orderUpdates"@
}

/// Where a text message of a client goes.
pub open spec fn route_of(text: Seq<char>) -> WsRoute {
    match crate::json::string_found(text, "/method"@) {
        Some(m) => if m == "ping"@ {
            WsRoute::DirectPong
        } else if m == "subscribe"@ || m == "unsubscribe"@ {
            match crate::json::string_found(text, "/subscription/type"@) {
                Some(t) => if is_local_subscription(t) {
                    WsRoute::Local
                } else {
                    WsRoute::Official
                },
                None => WsRoute::Official,
            }
        } else {
            WsRoute::Official
        },
        None => WsRoute::Official,
    }
}

/// Where a text message of a client goes, by its method and the type of its subscription.
pub fn route(method: Option<String>, subscription_type: Option<String>) -> (r: WsRoute)
    ensures
        r == match crate::json::text_opt(method) {
            Some(m) => if m == "ping"@ {
                WsRoute::DirectPong
            } else if (m == "subscribe"@ || m == "unsubscribe"@) && crate::json::text_opt(
                subscription_type,
            ) is Some && is_local_subscription(crate::json::text_opt(subscription_type)->Some_0) {
                WsRoute::Local
            } else {
                WsRoute::Official
            },
            None => WsRoute::Official,
        },
{
    let m = match method {
        Some(m) => m,
        None => {
            return WsRoute::Official;
        },
    };
    if str_eq(m.as_str(), "ping") {
        return WsRoute::DirectPong;
    }
    if !str_eq(m.as_str(), "subscribe") && !str_eq(m.as_str(), "unsubscribe") {
        return WsRoute::Official;
    }
    match subscription_type {
        Some(t) => {
            let t = t.as_str();
            if str_eq(t, "bbo") || str_eq(t, "l2Book") || str_eq(t, "l4Book") || str_eq(t, "trades")
                || str_eq(t, "orderUpdates") {
                WsRoute::Local
            } else {
                WsRoute::Official
            }
        },
        None => WsRoute::Official,
    }
}

/// Where a text message of a client goes.
pub fn classify_ws_text(text: &str) -> (r: WsRoute)
    ensures
        r == route_of(text@),
{
    route(string_at(text, "/method"), string_at(text, "/subscription/type"))
}

/// A message of a client.
pub enum ClientFrame<'a> {
    Text(&'a str),
    /// A binary message, a ping or a pong: it goes to both servers.
    Shared,
    Close,
}

/// What is done with a message at one server.
#[derive(Debug, Clone, Copy, PartialEq, Eq, Structural)]
pub enum Delivery {
    /// The message is not for this server.
    Skip,
    /// The message is sent on.
    Send,
    /// The client is told that the server cannot be reached.
    Unavailable,
    /// The connection is closed.
    Close,
}

/// What is done with a message: first at the official server, then at the local one.
#[derive(Debug, Clone, Copy, PartialEq, Eq, Structural)]
pub struct Plan {
    /// The client is answered with a pong.
    pub pong: bool,
    pub official: Delivery,
    pub local: Delivery,
    /// The session ends.
    pub end: bool,
}

/// Which servers are connected.
#[derive(Debug, Clone, Copy, PartialEq, Eq, Structural)]
pub struct Links {
    pub official: bool,
    pub local: bool,
}

/// What is done at a server that the message is for.
pub open spec fn deliver(up: bool) -> Delivery {
    if up {
        Delivery::Send
    } else {
        Delivery::Unavailable
    }
}

/// What is done at a server when the client closes.
pub open spec fn hang_up(up: bool) -> Delivery {
    if up {
        Delivery::Close
    } else {
        Delivery::Skip
    }
}

/// What is done with a message.
pub open spec fn planned(l: Links, m: ClientFrame) -> Plan {
    match m {
        ClientFrame::Text(text) => match route_of(text@) {
            WsRoute::DirectPong => Plan {
                pong: true,
                official: Delivery::Skip,
                local: Delivery::Skip,
                end: false,
            },
            WsRoute::Local => Plan {
                pong: false,
                official: Delivery::Skip,
                local: deliver(l.local),
                end: false,
            },
            WsRoute::Official => Plan {
                pong: false,
                official: deliver(l.official),
                local: Delivery::Skip,
                end: false,
            },
        },
        ClientFrame::Shared => Plan {
            pong: false,
            official: deliver(l.official),
            local: deliver(l.local),
            end: false,
        },
        ClientFrame::Close => Plan {
            pong: false,
            official: hang_up(l.official),
            local: hang_up(l.local),
            end: true,
        },
    }
}

fn delivery(up: bool) -> (r: Delivery)
    ensures
        r == deliver(up),
{
    if up {
        Delivery::Send
    } else {
        Delivery::Unavailable
    }
}

fn closing(up: bool) -> (r: Delivery)
    ensures
        r == hang_up(up),
{
    if up {
        Delivery::Close
    } else {
        Delivery::Skip
    }
}

impl Links {
    /// What is done with a message of the client.
    pub fn plan(&self, m: &ClientFrame) -> (r: Plan)
        ensures
            r == planned(*self, *m),
    {
        match m {
            ClientFrame::Text(text) => match classify_ws_text(text) {
                WsRoute::DirectPong => Plan {
                    pong: true,
                    official: Delivery::Skip,
                    local: Delivery::Skip,
                    end: false,
                },
                WsRoute::Local => Plan {
                    pong: false,
                    official: Delivery::Skip,
                    local: delivery(self.local),
                    end: false,
                },
                WsRoute::Official => Plan {
                    pong: false,
                    official: delivery(self.official),
                    local: Delivery::Skip,
                    end: false,
                },
            },
            ClientFrame::Shared => Plan {
                pong: false,
                official: delivery(self.official),
                local: delivery(self.local),
                end: false,
            },
            ClientFrame::Close => Plan {
                pong: false,
                official: closing(self.official),
                local: closing(self.local),
                end: true,
            },
        }
    }

    /// Notes which servers failed to take a message: they are not used again.
    pub fn failed(&mut self, official: bool, local: bool)
        ensures
            final(self).official == (old(self).official && !official),
            final(self).local == (old(self).local && !local),
    {
        if official {
            self.official = false;
        }
        if local {
            self.local = false;
        }
    }
}

/// What the client is told of an error.
pub fn ws_error_message(message: &str) -> (r: String)
    ensures
        r@ == "{\"channel\":\"error\",\"data\":"@ + crate::json::quoted(message@) + "}"@,
{
    let mut r = "{\"channel\":\"error\",\"data\":".to_owned();
    let q = quote(message);
    push_text(&mut r, q.as_str());
    push_text(&mut r, "}");
    r
}

/// What the client is told of a server that cannot be reached.
pub fn unavailable(label: &str) -> (r: String)
    ensures
        r@ == label@ + " websocket upstream unavailable"@,
{
    let mut r = label.to_owned();
    push_text(&mut r, " websocket upstream unavailable");
    r
}

/// What the client is told of a server that failed to take a message.
pub fn send_failed(label: &str, err: &str) -> (r: String)
    ensures
        r@ == "failed to send to "@ + label@ + " websocket upstream: "@ + err@,
{
    let mut r = "failed to send to ".to_owned();
    push_text(&mut r, label);
    push_text(&mut r, " websocket upstream: ");
    push_text(&mut r, err);
    r
}

/// What the client is told of a server whose messages cannot be read.
pub fn read_failed(label: &str, err: &str) -> (r: String)
    ensures
        r@ == label@ + " websocket upstream error: "@ + err@,
{
    let mut r = label.to_owned();
    push_text(&mut r, " websocket upstream error: ");
    push_text(&mut r, err);
    r
}

// ── Laws ─────────────────────────────────────────────────────────────────

/// A text message goes to one place only.
pub proof fn law_text_goes_one_way(l: Links, text: &str)
    ensures
        ({
            let p = planned(l, ClientFrame::Text(text));
            &&& !p.end
            &&& p.pong ==> p.official == Delivery::Skip && p.local == Delivery::Skip
            &&& !p.pong ==> (p.official == Delivery::Skip) != (p.local == Delivery::Skip)
        }),
{
}

/// The address of a request does not depend on whether its base ends in slashes.
pub proof fn law_slashes_do_not_matter(base: Seq<char>)
    ensures
        without_slashes(base.push('/')) == without_slashes(base),
        without_slashes(base).len() > 0 ==> without_slashes(base).last() != '/',
    decreases base.len(),
{
    assert(base.push('/').drop_last() =~= base);
    if base.len() > 0 && base.last() == '/' {
        law_slashes_do_not_matter(base.drop_last());
    }
}

} // verus!

//! Where requests and messages go, whatever they are.
use crate::json::{byte_string_found, string_found};
use crate::proxy::{
    is_hop_header,
    is_info_path,
    is_local_body,
    is_local_info,
    planned,
    without_slashes,
    ClientFrame,
    Delivery,
    Links,
    Plan,
};
use vstd::prelude::*;

verus! {

/// Whether a server is connected, what is meant for it is sent; else the client is told so.
pub open spec fn sent_if(up: bool, d: Delivery) -> bool {
    d == (if up {
        Delivery::Send
    } else {
        Delivery::Unavailable
    })
}

/// A text message goes by its method: a ping is answered; what starts or ends a subscription to best
/// prices, books, trades or order updates goes to the local server, and any other to the official one.
pub proof fn law_text_messages_go_by_their_method(l: Links, text: &str)
    ensures
        ({
            let p = planned(l, ClientFrame::Text(text));
            let m = string_found(text@, "/method"@);
            let t = string_found(text@, "/subscription/type"@);
            let sub = m == Some("subscribe"@) || m == Some("unsubscribe"@);
            let here = t == Some("bbo"@) || t == Some("l2Book"@) || t == Some("l4Book"@) || t == Some(
                "trades"@,
            ) || t == Some("orderUpdates"@);
            &&& p.pong <==> m == Some("ping"@)
            &&& m == Some("ping"@) ==> p.official is Skip && p.local is Skip
            &&& sub && here ==> p.official is Skip && sent_if(l.local, p.local)
            &&& m != Some("ping"@) && !(sub && here) ==> p.local is Skip && sent_if(
                l.official,
                p.official,
            )
            &&& !p.end
        }),
{
    reveal_strlit("ping");
    reveal_strlit("subscribe");
    reveal_strlit("unsubscribe");
    assert("ping"@.len() == 4 && "subscribe"@.len() == 9 && "unsubscribe"@.len() == 11);
}

/// A message that is no text goes to both servers, and the end of the connection to those that are
/// connected; it ends the session.
pub proof fn law_other_messages_go_to_both(l: Links)
    ensures
        ({
            let p = planned(l, ClientFrame::Shared);
            sent_if(l.official, p.official) && sent_if(l.local, p.local) && !p.pong && !p.end
        }),
        ({
            let p = planned(l, ClientFrame::Close);
            &&& p.end && !p.pong
            &&& l.official ==> p.official is Close
            &&& !l.official ==> p.official is Skip
            &&& l.local ==> p.local is Close
            &&& !l.local ==> p.local is Skip
        }),
{
}

/// The kinds of information that the local node serves.
pub open spec fn kinds_served() -> Seq<Seq<char>> {
    seq![
        "meta"@,
        "spotMeta"@,
        "clearinghouseState"@,
        "spotClearinghouseState"@,
        "openOrders"@,
        "exchangeStatus"@,
        "frontendOpenOrders"@,
        "liquidatable"@,
        "activeAssetData"@,
        "maxMarketOrderNtls"@,
        "vaultSummaries"@,
        "userVaultEquities"@,
        "leadingVaults"@,
        "extraAgents"@,
        "subAccounts"@,
        "userFees"@,
        "userRateLimit"@,
        "spotDeployState"@,
        "perpDeployAuctionStatus"@,
        "delegations"@,
        "delegatorSummary"@,
        "maxBuilderFee"@,
        "userToMultiSigSigners"@,
        "userRole"@,
        "perpsAtOpenInterestCap"@,
        "validatorL1Votes"@,
        "marginTable"@,
        "perpDexs"@,
    ]
}

/// A body is for the local node exactly where its type is one of the kinds that it serves.
pub proof fn law_local_information(body: Seq<u8>, t: Seq<char>, i: int)
    ensures
        byte_string_found(body, "/type"@) is None ==> !is_local_body(body),
        byte_string_found(body, "/type"@) == Some(t) ==> is_local_body(body) == is_local_info(t),
        0 <= i < kinds_served().len() ==> is_local_info(kinds_served()[i]),
        is_local_info(t) ==> kinds_served().contains(t),
{
    let ks = kinds_served();
    if is_local_info(t) {
        assert(ks[0] == "meta"@ && ks[1] == "spotMeta"@ && ks[2] == "clearinghouseState"@);
        assert(ks[3] == "spotClearinghouseState"@ && ks[4] == "openOrders"@ && ks[5]
            == "exchangeStatus"@);
        assert(ks[6] == "frontendOpenOrders"@ && ks[7] == "liquidatable"@ && ks[8]
            == "activeAssetData"@);
        assert(ks[9] == "maxMarketOrderNtls"@ && ks[10] == "vaultSummaries"@ && ks[11]
            == "userVaultEquities"@);
        assert(ks[12] == "leadingVaults"@ && ks[13] == "extraAgents"@ && ks[14] == "subAccounts"@);
        assert(ks[15] == "userFees"@ && ks[16] == "userRateLimit"@ && ks[17] == "spotDeployState"@);
        assert(ks[18] == "perpDeployAuctionStatus"@ && ks[19] == "delegations"@ && ks[20]
            == "delegatorSummary"@);
        assert(ks[21] == "maxBuilderFee"@ && ks[22] == "userToMultiSigSigners"@ && ks[23]
            == "userRole"@);
        assert(ks[24] == "perpsAtOpenInterestCap"@ && ks[25] == "validatorL1Votes"@ && ks[26]
            == "marginTable"@ && ks[27] == "perpDexs"@);
    }
}

/// The headers that are about one connection only.
pub open spec fn own_headers() -> Seq<Seq<char>> {
    seq![
        "connection"@,
        "host"@,
        "keep-alive"@,
        "proxy-authenticate"@,
        "proxy-authorization"@,
        "te"@,
        "trailer"@,
        "transfer-encoding"@,
        "upgrade"@,
        "content-length"@,
    ]
}

/// A header is kept back exactly where it is about one connection only.
pub proof fn law_headers_kept_back(name: Seq<char>, i: int)
    ensures
        0 <= i < own_headers().len() ==> is_hop_header(own_headers()[i]),
        is_hop_header(name) ==> own_headers().contains(name),
{
    let hs = own_headers();
    if is_hop_header(name) {
        assert(hs[0] == "connection"@ && hs[1] == "host"@ && hs[2] == "keep-alive"@);
        assert(hs[3] == "proxy-authenticate"@ && hs[4] == "proxy-authorization"@ && hs[5] == "te"@);
        assert(hs[6] == "trailer"@ && hs[7] == "transfer-encoding"@ && hs[8] == "upgrade"@ && hs[9]
            == "content-length"@);
    }
}

/// Information is asked for under one path, with or without a slash at its end.
pub proof fn law_the_information_path(path: Seq<char>)
    ensures
        is_info_path(path) ==> without_slashes(path) == "/info"@,
        is_info_path("/info"@),
        is_info_path("/info"@.push('/')),
{
    reveal_strlit("/info");
    reveal_strlit("/info/");
    assert("/info"@.push('/') =~= "/info/"@);
    assert("/info/"@.drop_last() =~= "/info"@);
    assert("/info"@.last() == 'o');
    reveal_with_fuel(without_slashes, 3);
}

/// Taking the slashes off the end takes off nothing else.
pub proof fn law_only_slashes_are_taken_off(s: Seq<char>)
    ensures
        without_slashes(s).is_prefix_of(s),
        forall|i: int| without_slashes(s).len() <= i < s.len() ==> #[trigger] s[i] == '/',
        s.len() > 0 && s.last() != '/' ==> without_slashes(s) == s,
    decreases s.len(),
{
    if s.len() > 0 && s.last() == '/' {
        law_only_slashes_are_taken_off(s.drop_last());
        assert forall|i: int| without_slashes(s).len() <= i < s.len() implies #[trigger] s[i] == '/' by {
            if i < s.len() - 1 {
                assert(s.drop_last()[i] == '/');
            }
        }
    }
}

} // verus!

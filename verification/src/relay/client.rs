//! A client of the relay: what its requests do.
use crate::json::{members_at, string_at, value_at};
use crate::relay::upstream::{GroupId, Groups, GroupsModel};
use crate::strmap::StrMap;
use crate::text::{push_text, str_eq, text_before, trim};
use vstd::prelude::*;

verus! {

/// What a client is told whose message is no JSON.
pub const INVALID_JSON: &'static str = "{\"channel\":\"error\",\"data\":\"invalid JSON\"}";

/// What a ping is answered.
pub const PONG: &'static str = "{\"channel\":\"pong\"}";

// ── Requests ─────────────────────────────────────────────────────────────

/// A request of a client. A subscription is known by its JSON text.
pub enum Request {
    NotJson,
    Ping,
    Subscribe { key: String, channel: String },
    Unsubscribe { key: String },
    Other,
}

/// What a request is.
#[verifier::ext_equal]
pub enum RequestModel {
    NotJson,
    Ping,
    Subscribe { key: Seq<char>, channel: Seq<char> },
    Unsubscribe { key: Seq<char> },
    Other,
}

impl View for Request {
    type V = RequestModel;

    open spec fn view(&self) -> RequestModel {
        match *self {
            Request::NotJson => RequestModel::NotJson,
            Request::Ping => RequestModel::Ping,
            Request::Subscribe { key, channel } => RequestModel::Subscribe {
                key: key@,
                channel: channel@,
            },
            Request::Unsubscribe { key } => RequestModel::Unsubscribe { key: key@ },
            Request::Other => RequestModel::Other,
        }
    }
}

/// The subscription that a message names: an object, by its JSON text.
pub open spec fn named_subscription(doc: Seq<char>) -> Option<Seq<char>> {
    if crate::json::members_found(doc, "/subscription"@) is Some {
        crate::json::value_found(doc, "/subscription"@)
    } else {
        None
    }
}

/// The request that a message makes.
pub open spec fn request_in(doc: Seq<char>) -> RequestModel {
    if crate::json::value_found(doc, ""@) is None {
        RequestModel::NotJson
    } else {
        match crate::json::string_found(doc, "/method"@) {
            Some(m) => if m == "ping"@ {
                RequestModel::Ping
            } else if m == "subscribe"@ {
                match (
                    named_subscription(doc),
                    crate::json::string_found(doc, "/subscription/type"@),
                ) {
                    (Some(key), Some(channel)) => RequestModel::Subscribe { key, channel },
                    _ => RequestModel::Other,
                }
            } else if m == "unsubscribe"@ {
                match named_subscription(doc) {
                    Some(key) => RequestModel::Unsubscribe { key },
                    None => RequestModel::Other,
                }
            } else {
                RequestModel::Other
            },
            None => RequestModel::Other,
        }
    }
}

fn subscription_at(doc: &str) -> (r: Option<String>)
    ensures
        crate::json::text_opt(r) == named_subscription(doc@),
{
    if members_at(doc, "/subscription").is_some() {
        value_at(doc, "/subscription")
    } else {
        None
    }
}

/// The request that a message makes.
pub fn read_request(doc: &str) -> (r: Request)
    ensures
        r@ == request_in(doc@),
{
    if value_at(doc, "").is_none() {
        return Request::NotJson;
    }
    let method = match string_at(doc, "/method") {
        Some(m) => m,
        None => {
            return Request::Other;
        },
    };
    if str_eq(method.as_str(), "ping") {
        Request::Ping
    } else if str_eq(method.as_str(), "subscribe") {
        match (subscription_at(doc), string_at(doc, "/subscription/type")) {
            (Some(key), Some(channel)) => Request::Subscribe { key, channel },
            _ => Request::Other,
        }
    } else if str_eq(method.as_str(), "unsubscribe") {
        match subscription_at(doc) {
            Some(key) => Request::Unsubscribe { key },
            None => Request::Other,
        }
    } else {
        Request::Other
    }
}

/// The confirmation of a request: the request itself is given back.
pub open spec fn confirmation(doc: Seq<char>) -> Seq<char> {
    "{\"channel\":\"subscriptionResponse\",\"data\":"@ + (match crate::json::value_found(doc, ""@) {
        Some(v) => v,
        None => Seq::empty(),
    }) + "}"@
}

/// The confirmation of a request.
pub fn confirm(doc: &str) -> (r: String)
    ensures
        r@ == confirmation(doc@),
{
    let mut r = "{\"channel\":\"subscriptionResponse\",\"data\":".to_owned();
    match value_at(doc, "") {
        Some(v) => {
            push_text(&mut r, v.as_str());
        },
        None => {
            proof {
                assert(r@ + Seq::<char>::empty() =~= r@);
            }
        },
    }
    push_text(&mut r, "}");
    r
}

// ── Subscriptions ────────────────────────────────────────────────────────

/// What the relay has to do for a request.
#[derive(Debug, Clone, Copy, PartialEq, Eq, Structural)]
pub enum Action {
    /// Nothing.
    Nothing,
    /// Say that the message is no JSON.
    SayInvalid,
    /// Answer a ping.
    SayPong,
    /// Confirm, and hand the messages of the group on to the client. A fresh group has to be connected.
    Join { group: u64, fresh: bool },
    /// Stop handing messages on, and confirm. A group that nobody is left in is to be looked at again
    /// after a while.
    Leave { group: u64, last: bool },
}

/// What a request does: to the client's subscriptions, to the groups, and what is to be done.
pub open spec fn client_step(
    keys: Map<Seq<char>, u64>,
    groups: GroupsModel,
    request: RequestModel,
) -> (Map<Seq<char>, u64>, GroupsModel, Action) {
    match request {
        RequestModel::NotJson => (keys, groups, Action::SayInvalid),
        RequestModel::Ping => (keys, groups, Action::SayPong),
        RequestModel::Subscribe { key, .. } => if keys.contains_key(key) {
            (keys, groups, Action::Nothing)
        } else {
            let (after, group, fresh) = crate::relay::upstream::joined(groups, key);
            (keys.insert(key, group), after, Action::Join { group, fresh })
        },
        RequestModel::Unsubscribe { key } => if keys.contains_key(key) {
            let (after, last) = crate::relay::upstream::left(groups, keys[key]);
            (keys.remove(key), after, Action::Leave { group: keys[key], last })
        } else {
            (keys, groups, Action::Nothing)
        },
        RequestModel::Other => (keys, groups, Action::Nothing),
    }
}

/// A client: the group of each of its subscriptions.
pub struct Client {
    keys: StrMap<GroupId>,
}

impl View for Client {
    type V = Map<Seq<char>, u64>;

    closed spec fn view(&self) -> Map<Seq<char>, u64> {
        self.keys@
    }
}

/// The groups after the client has left those of its first `n` subscriptions.
pub open spec fn all_left(
    ks: Seq<Seq<char>>,
    keys: Map<Seq<char>, u64>,
    groups: GroupsModel,
    n: int,
) -> GroupsModel
    decreases n,
{
    if n <= 0 {
        groups
    } else {
        crate::relay::upstream::left(all_left(ks, keys, groups, n - 1), keys[ks[n - 1]]).0
    }
}

/// Those of the first `n` subscriptions, with their groups, whose groups have nobody left when the
/// client leaves them one after the other.
pub open spec fn emptied(
    ks: Seq<Seq<char>>,
    keys: Map<Seq<char>, u64>,
    groups: GroupsModel,
    n: int,
) -> Seq<(Seq<char>, u64)>
    decreases n,
{
    if n <= 0 {
        Seq::empty()
    } else {
        let before = emptied(ks, keys, groups, n - 1);
        let g = keys[ks[n - 1]];
        if crate::relay::upstream::left(all_left(ks, keys, groups, n - 1), g).1 {
            before.push((ks[n - 1], g))
        } else {
            before
        }
    }
}

/// Subscriptions that are each listed once are each given back once at most.
proof fn lemma_emptied_once(
    ks: Seq<Seq<char>>,
    keys: Map<Seq<char>, u64>,
    groups: GroupsModel,
    n: int,
)
    requires
        ks.no_duplicates(),
        0 <= n <= ks.len(),
    ensures
        emptied(ks, keys, groups, n).no_duplicates(),
        forall|i: int|
            0 <= i < emptied(ks, keys, groups, n).len() ==> ks.take(n).contains(
                (#[trigger] emptied(ks, keys, groups, n)[i]).0,
            ),
    decreases n,
{
    if n > 0 {
        lemma_emptied_once(ks, keys, groups, n - 1);
        crate::strmap::lemma_take_one(ks, n - 1);
        let before = emptied(ks, keys, groups, n - 1);
        let now = emptied(ks, keys, groups, n);
        assert(ks.take(n - 1 + 1) == ks.take(n));
        assert forall|i: int| 0 <= i < now.len() implies ks.take(n).contains((#[trigger] now[i]).0) by {
            if i < before.len() {
                assert(now[i] == before[i]);
            }
            assert(ks.take(n - 1 + 1).contains(now[i].0));
        }
    }
}

impl Client {
    pub fn new() -> (r: Client)
        ensures
            r@ == Map::<Seq<char>, u64>::empty(),
    {
        Client { keys: StrMap::new() }
    }

    /// Takes in a request.
    pub fn receive(&mut self, groups: &mut Groups, request: &Request) -> (r: Action)
        ensures
            (final(self)@, final(groups)@, r) == client_step(old(self)@, old(groups)@, request@),
    {
        match request {
            Request::NotJson => Action::SayInvalid,
            Request::Ping => Action::SayPong,
            Request::Subscribe { key, .. } => {
                if self.keys.contains_key(key.as_str()) {
                    Action::Nothing
                } else {
                    let (group, fresh) = groups.subscribe(key.as_str());
                    self.keys.insert(key.clone(), GroupId { n: group });
                    Action::Join { group, fresh }
                }
            },
            Request::Unsubscribe { key } => {
                let ghost before = self@;
                match self.keys.remove(key.as_str()) {
                    Some(g) => {
                        let last = groups.leave(g.n);
                        Action::Leave { group: g.n, last }
                    },
                    None => {
                        assert(self@ =~= before);
                        Action::Nothing
                    },
                }
            },
            Request::Other => Action::Nothing,
        }
    }

    /// Leaves all groups when the connection has ended. Gives back the subscriptions whose groups have
    /// nobody left, with the groups, to be looked at again after a while.
    pub fn leave_all(&mut self, groups: &mut Groups) -> (r: Vec<(String, u64)>)
        ensures
            final(self)@ == Map::<Seq<char>, u64>::empty(),
            crate::json::pair_ids(r@).no_duplicates(),
            exists|ks: Seq<Seq<char>>|
                {
                    &&& ks.no_duplicates()
                    &&& ks.to_set() == old(self)@.dom()
                    &&& final(groups)@ == #[trigger] all_left(
                        ks,
                        old(self)@,
                        old(groups)@,
                        ks.len() as int,
                    )
                    &&& crate::json::pair_ids(r@) == emptied(
                        ks,
                        old(self)@,
                        old(groups)@,
                        ks.len() as int,
                    )
                },
    {
        let ghost ks = self.keys.keys();
        let ghost keys = self@;
        let ghost start = groups@;
        let mut r: Vec<(String, u64)> = Vec::new();
        let n: usize = self.keys.len();
        let mut i: usize = 0;
        while i < n
            invariant
                i <= n,
                n == ks.len(),
                ks == self.keys.keys(),
                keys == self@,
                groups@ == all_left(ks, keys, start, i as int),
                crate::json::pair_ids(r@) == emptied(ks, keys, start, i as int),
            decreases n - i,
        {
            let k = self.keys.key_at(i);
            let g: u64 = self.keys.val_at(i).n;
            let last = groups.leave(g);
            let ghost was = r@;
            if last {
                r.push((k.clone(), g));
                assert(crate::json::pair_ids(r@) =~= crate::json::pair_ids(was).push((k@, g)));
            }
            i = i + 1;
        }
        proof {
            lemma_emptied_once(ks, keys, start, n as int);
        }
        self.keys.clear();
        r
    }
}

/// Whether a client that joins has to be given a snapshot that is fetched for it: the relay has none,
/// and the channel is one that starts with one.
pub fn needs_fetch(has_snapshot: bool, channel: &str) -> (r: bool)
    ensures
        r == (!has_snapshot && (channel@ == "l4Book"@ || channel@ == "l4TriggerBook"@)),
{
    !has_snapshot && (str_eq(channel, "l4Book") || str_eq(channel, "l4TriggerBook"))
}

// ── Where a client comes from ────────────────────────────────────────────

/// The first address of a list that proxies add to: that of the client.
pub open spec fn first_address(header: Seq<char>) -> Option<Seq<char>> {
    let ip = crate::text::trimmed(crate::text::before_first(header, ','));
    if ip.len() == 0 {
        None
    } else {
        Some(ip)
    }
}

/// The address of the client in an `X-Forwarded-For` header: the first of the list, without white
/// space around it.
pub fn forwarded_for(header: &str) -> (r: Option<String>)
    ensures
        crate::json::text_opt(r) == first_address(header@),
{
    let first = text_before(header, ',');
    let ip = trim(first.as_str());
    proof {
        reveal_strlit("");
        if ip@.len() == 0 {
            assert(ip@ =~= ""@);
        }
    }
    if str_eq(ip.as_str(), "") {
        None
    } else {
        Some(ip)
    }
}

// ── Laws ─────────────────────────────────────────────────────────────────

/// Subscribing and unsubscribing again leaves the client's subscriptions as they were.
pub proof fn law_unsubscribing_undoes_subscribing(
    keys: Map<Seq<char>, u64>,
    groups: GroupsModel,
    key: Seq<char>,
    channel: Seq<char>,
)
    requires
        !keys.contains_key(key),
    ensures
        ({
            let (k, g, _) = client_step(keys, groups, RequestModel::Subscribe { key, channel });
            client_step(k, g, RequestModel::Unsubscribe { key }).0 == keys
        }),
{
    let (k, g, _) = client_step(keys, groups, RequestModel::Subscribe { key, channel });
    assert(client_step(k, g, RequestModel::Unsubscribe { key }).0 =~= keys);
}

/// A client that asks for the same subscription twice is counted once.
pub proof fn law_subscribing_twice_counts_once(
    keys: Map<Seq<char>, u64>,
    groups: GroupsModel,
    key: Seq<char>,
    channel: Seq<char>,
)
    ensures
        ({
            let (k, g, _) = client_step(keys, groups, RequestModel::Subscribe { key, channel });
            client_step(k, g, RequestModel::Subscribe { key, channel }) == (k, g, Action::Nothing)
        }),
{
}

} // verus!

//! The groups of clients that share an upstream subscription.
use crate::json::string_at;
use crate::strmap::StrMap;
use crate::text::{push_text, str_eq};
use std::collections::HashMap;
use vstd::prelude::*;

verus! {

/// The first wait before connecting again, in milliseconds.
pub const FIRST_BACKOFF: u64 = 250;

/// The longest wait before connecting again, in milliseconds.
pub const LONGEST_BACKOFF: u64 = 10_000;

/// The wait after the next failure: twice as long, up to the longest.
pub fn next_backoff(ms: u64) -> (r: u64)
    ensures
        r == if 2 * ms < LONGEST_BACKOFF {
            2 * ms
        } else {
            LONGEST_BACKOFF as int
        },
{
    if ms < LONGEST_BACKOFF / 2 {
        ms * 2
    } else {
        LONGEST_BACKOFF
    }
}

/// Whether a message on a channel is for the clients, and not about the connection.
pub open spec fn is_data_channel(channel: Seq<char>) -> bool {
    channel.len() > 0 && channel != "subscriptionResponse"@ && channel != "pong"@ && channel
        != "error"@
}

/// The channel of a message that is for the clients.
pub open spec fn data_channel(frame: Seq<char>) -> Option<Seq<char>> {
    match crate::json::string_found(frame, "/channel"@) {
        Some(c) => if is_data_channel(c) {
            Some(c)
        } else {
            None
        },
        None => None,
    }
}

/// Whether a message on a channel is for the clients.
pub fn forwards(channel: &str) -> (r: bool)
    ensures
        r == is_data_channel(channel@),
{
    proof {
        reveal_strlit("");
        assert(""@ =~= Seq::<char>::empty());
        if channel@.len() == 0 {
            assert(channel@ =~= ""@);
        }
    }
    !str_eq(channel, "") && !str_eq(channel, "subscriptionResponse") && !str_eq(channel, "pong")
        && !str_eq(channel, "error")
}

/// The channel of a message, where the message is for the clients.
pub fn frame_channel(frame: &str) -> (r: Option<String>)
    ensures
        crate::json::text_opt(r) == data_channel(frame@),
{
    match string_at(frame, "/channel") {
        Some(c) => if forwards(c.as_str()) {
            Some(c)
        } else {
            None
        },
        None => None,
    }
}

/// The request that subscribes upstream; `sub` is the JSON text of the subscription.
pub fn subscribe_msg(sub: &str) -> (r: String)
    ensures
        r@ == "{\"method\":\"subscribe\",\"subscription\":"@ + sub@ + "}"@,
{
    let mut r = "{\"method\":\"subscribe\",\"subscription\":".to_owned();
    push_text(&mut r, sub);
    push_text(&mut r, "}");
    r
}

/// A number under which a group is known.
pub struct GroupId {
    pub n: u64,
}

impl View for GroupId {
    type V = u64;

    open spec fn view(&self) -> u64 {
        self.n
    }
}

/// The groups: the group of each subscription, and how many clients each group has.
#[verifier::ext_equal]
pub struct GroupsModel {
    pub groups: Map<Seq<char>, u64>,
    pub members: Map<u64, usize>,
    pub next: u64,
}

pub struct Groups {
    groups: StrMap<GroupId>,
    members: HashMap<u64, usize>,
    next: u64,
}

impl View for Groups {
    type V = GroupsModel;

    closed spec fn view(&self) -> GroupsModel {
        GroupsModel { groups: self.groups@, members: self.members@, next: self.next }
    }
}

/// The number of clients of a group.
pub open spec fn members_of(m: GroupsModel, id: u64) -> usize {
    if m.members.contains_key(id) {
        m.members[id]
    } else {
        0
    }
}

/// The number after this one; the largest is followed by zero.
pub open spec fn after_wrap(n: int, max: int) -> int {
    if n == max {
        0
    } else {
        n + 1
    }
}

/// The number before this one; zero follows the largest.
pub open spec fn before_wrap(n: int, max: int) -> int {
    if n == 0 {
        max
    } else {
        n - 1
    }
}

/// A client joins the group of a subscription; the group is made where there is none. Gives the group
/// and whether it is new.
pub open spec fn joined(m: GroupsModel, key: Seq<char>) -> (GroupsModel, u64, bool) {
    if m.groups.contains_key(key) {
        let id = m.groups[key];
        (
            GroupsModel {
                members: m.members.insert(
                    id,
                    after_wrap(members_of(m, id) as int, usize::MAX as int) as usize,
                ),
                ..m
            },
            id,
            false,
        )
    } else {
        (
            GroupsModel {
                groups: m.groups.insert(key, m.next),
                members: m.members.insert(m.next, 1),
                next: after_wrap(m.next as int, u64::MAX as int) as u64,
            },
            m.next,
            true,
        )
    }
}

/// A client leaves a group. Gives whether it was the last one.
pub open spec fn left(m: GroupsModel, id: u64) -> (GroupsModel, bool) {
    (
        GroupsModel {
            members: m.members.insert(
                id,
                before_wrap(members_of(m, id) as int, usize::MAX as int) as usize,
            ),
            ..m
        },
        members_of(m, id) == 1,
    )
}

/// A group has been without clients for a while: it is given up unless a client has come. Gives whether
/// its connection is to be closed.
pub open spec fn idled(m: GroupsModel, id: u64, key: Seq<char>) -> (GroupsModel, bool) {
    if members_of(m, id) == 0 {
        (
            GroupsModel { groups: m.groups.remove(key), members: m.members.remove(id), ..m },
            true,
        )
    } else {
        (m, false)
    }
}

impl Groups {
    pub fn new() -> (r: Groups)
        ensures
            r@ == (GroupsModel { groups: Map::empty(), members: Map::empty(), next: 0 }),
    {
        broadcast use vstd::std_specs::hash::group_hash_axioms;

        Groups { groups: StrMap::new(), members: HashMap::new(), next: 0 }
    }

    /// The number of groups.
    pub fn group_count(&self) -> (r: usize)
        ensures
            r == self@.groups.len(),
    {
        self.groups.len()
    }

    fn count(&self, id: u64) -> (r: usize)
        ensures
            r == members_of(self@, id),
    {
        broadcast use vstd::std_specs::hash::group_hash_axioms;

        match self.members.get(&id) {
            Some(n) => *n,
            None => 0,
        }
    }

    /// Whether a group has clients, so that its connection is to be kept.
    pub fn running(&self, id: u64) -> (r: bool)
        ensures
            r == (members_of(self@, id) != 0),
    {
        self.count(id) != 0
    }

    /// Joins the group of a subscription, which is made where there is none. Gives back the group, and
    /// whether it is new, so that it has to be connected.
    pub fn subscribe(&mut self, key: &str) -> (r: (u64, bool))
        ensures
            (final(self)@, r.0, r.1) == joined(old(self)@, key@),
    {
        broadcast use vstd::std_specs::hash::group_hash_axioms;

        let found: Option<u64> = match self.groups.get(key) {
            Some(g) => Some(g.n),
            None => None,
        };
        match found {
            Some(id) => {
                let n: usize = self.count(id);
                let more: usize = if n == usize::MAX {
                    0
                } else {
                    n + 1
                };
                self.members.insert(id, more);
                (id, false)
            },
            None => {
                let id: u64 = self.next;
                self.next =
                if id == u64::MAX {
                    0
                } else {
                    id + 1
                };
                self.groups.insert(key.to_owned(), GroupId { n: id });
                self.members.insert(id, 1);
                (id, true)
            },
        }
    }

    /// Leaves a group. Gives back whether nobody is left, so that the group is to be looked at again
    /// after a while.
    pub fn leave(&mut self, id: u64) -> (r: bool)
        ensures
            (final(self)@, r) == left(old(self)@, id),
    {
        broadcast use vstd::std_specs::hash::group_hash_axioms;

        let n: usize = self.count(id);
        let fewer: usize = if n == 0 {
            usize::MAX
        } else {
            n - 1
        };
        self.members.insert(id, fewer);
        n == 1
    }

    /// Looks at a group that was left by its last client a while ago. Gives back whether it was given
    /// up, so that its connection is to be closed.
    pub fn idle(&mut self, id: u64, key: &str) -> (r: bool)
        ensures
            (final(self)@, r) == idled(old(self)@, id, key@),
    {
        broadcast use vstd::std_specs::hash::group_hash_axioms;

        if self.count(id) != 0 {
            return false;
        }
        let ghost before = self@;
        self.groups.remove(key);
        self.members.remove(&id);
        assert(self@.members =~= before.members.remove(id));
        true
    }
}

/// All clients that want a subscription share one group: the second joins the group of the first, and
/// only the first has a connection made.
pub proof fn law_one_group_for_all(m: GroupsModel, key: Seq<char>)
    ensures
        ({
            let (a, first, _) = joined(m, key);
            let (b, second, fresh) = joined(a, key);
            second == first && !fresh && b.groups == a.groups
        }),
{
}

/// A client that joins and leaves leaves as many behind as there were.
pub proof fn law_leaving_undoes_joining(m: GroupsModel, key: Seq<char>)
    requires
        m.groups.contains_key(key),
        m.members.contains_key(m.groups[key]),
    ensures
        ({
            let (a, id, _) = joined(m, key);
            left(a, id).0 == m
        }),
{
    let (a, id, _) = joined(m, key);
    assert(left(a, id).0.members =~= m.members);
}

/// A group is given up only while it has no clients.
pub proof fn law_groups_with_clients_stay(m: GroupsModel, id: u64, key: Seq<char>)
    requires
        members_of(m, id) > 0,
    ensures
        idled(m, id, key) == (m, false),
{
}

} // verus!

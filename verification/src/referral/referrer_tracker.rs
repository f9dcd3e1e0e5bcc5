//! The users under a referral code, and those who approved our builder's fees.
//!
//! Both sets start from a snapshot and grow with the actions of replica blocks.
use crate::clearing_house::rmp_streaming::referrals::{
    extract_builder_approval_users, extract_referrer_users_by_code,
};
use crate::clearing_house::rmp_streaming::root::SnapshotError;
use crate::strmap::StrMap;
use crate::text::{
    chars_of, contains_text, eq_ignore_ascii_case, str_eq, to_ascii_lowercase, to_ascii_uppercase,
};
use vstd::prelude::*;

verus! {

pub struct ReferrerTracker {
    /// In upper case.
    tracked_code: String,
    /// Users under the referral code, in lower case.
    users: StrMap<()>,
    /// In lower case.
    builder_address: String,
    /// Users who approved our builder's fees, in lower case.
    builder_users: StrMap<()>,
}

/// What is tracked.
#[verifier::ext_equal]
pub struct TrackerModel {
    pub code: Seq<char>,
    pub users: Set<Seq<char>>,
    pub builder: Seq<char>,
    pub builder_users: Set<Seq<char>>,
}

impl View for ReferrerTracker {
    type V = TrackerModel;

    closed spec fn view(&self) -> TrackerModel {
        TrackerModel {
            code: self.tracked_code@,
            users: self.users@.dom(),
            builder: self.builder_address@,
            builder_users: self.builder_users@.dom(),
        }
    }
}

impl TrackerModel {
    /// A tracker that knows no users yet.
    pub open spec fn blank(code: Seq<char>, builder: Seq<char>) -> TrackerModel {
        TrackerModel {
            code: crate::text::ascii_upper(code),
            users: Set::empty(),
            builder: crate::text::ascii_lower(builder),
            builder_users: Set::empty(),
        }
    }
}

impl ReferrerTracker {
    /// A tracker with the users that a snapshot knows. Where the approvals cannot be read, it starts
    /// without them; where the referrals cannot, there is no tracker.
    pub fn from_snapshot(data: &[u8], code: &str, builder_address: &str) -> (r: Result<
        ReferrerTracker,
        SnapshotError,
    >)
        ensures
            match crate::clearing_house::rmp_streaming::referrals::referral_by_code(data@, code@) {
                Some(v) => r is Ok && r->Ok_0@ == (TrackerModel {
                    users: v.users.dom(),
                    builder_users: match crate::clearing_house::rmp_streaming::referrals::approvers_of(
                        data@,
                        crate::text::ascii_lower(builder_address@),
                    ) {
                        Some(m) => m.dom(),
                        None => Set::empty(),
                    },
                    ..TrackerModel::blank(code@, builder_address@)
                }),
                None => r == Err::<ReferrerTracker, SnapshotError>(SnapshotError),
            },
    {
        let (_, users) = match extract_referrer_users_by_code(data, code) {
            Ok(found) => found,
            Err(e) => {
                return Err(e);
            },
        };
        let builder = to_ascii_lowercase(builder_address);
        let builder_users = match extract_builder_approval_users(data, builder.as_str()) {
            Ok(found) => found,
            Err(_) => {
                let none: StrMap<()> = StrMap::new();
                assert(none@.dom() =~= Set::<Seq<char>>::empty());
                none
            },
        };
        Ok(
            ReferrerTracker {
                tracked_code: to_ascii_uppercase(code),
                users,
                builder_address: builder,
                builder_users,
            },
        )
    }

    /// A tracker that knows no users yet.
    pub fn empty(code: &str, builder_address: &str) -> (r: ReferrerTracker)
        ensures
            r@ == TrackerModel::blank(code@, builder_address@),
    {
        let r = ReferrerTracker {
            tracked_code: to_ascii_uppercase(code),
            users: StrMap::new(),
            builder_address: to_ascii_lowercase(builder_address),
            builder_users: StrMap::new(),
        };
        assert(r@ =~= TrackerModel::blank(code@, builder_address@));
        r
    }

    pub fn tracked_code(&self) -> (r: &str)
        ensures
            r@ == self@.code,
    {
        self.tracked_code.as_str()
    }

    pub fn builder_address(&self) -> (r: &str)
        ensures
            r@ == self@.builder,
    {
        self.builder_address.as_str()
    }

    pub fn is_tracked(&self, user_lower: &str) -> (r: bool)
        ensures
            r == self@.users.contains(user_lower@),
    {
        self.users.contains_key(user_lower)
    }

    pub fn insert(&mut self, user_lower: String)
        ensures
            final(self)@ == (TrackerModel {
                users: old(self)@.users.insert(user_lower@),
                ..old(self)@
            }),
    {
        let ghost before = self@;
        self.users.insert(user_lower, ());
        assert(self@ =~= (TrackerModel { users: before.users.insert(user_lower@), ..before }));
    }

    /// The number of users under the referral code.
    pub fn len(&self) -> (n: usize)
        ensures
            n == self@.users.len(),
            self@.users.finite(),
    {
        self.users.len()
    }

    pub fn builder_is_tracked(&self, user_lower: &str) -> (r: bool)
        ensures
            r == self@.builder_users.contains(user_lower@),
    {
        self.builder_users.contains_key(user_lower)
    }

    pub fn builder_insert(&mut self, user_lower: String)
        ensures
            final(self)@ == (TrackerModel {
                builder_users: old(self)@.builder_users.insert(user_lower@),
                ..old(self)@
            }),
    {
        let ghost before = self@;
        self.builder_users.insert(user_lower, ());
        assert(self@ =~= (TrackerModel {
            builder_users: before.builder_users.insert(user_lower@),
            ..before
        }));
    }

    /// The number of users who approved our builder's fees.
    pub fn builder_len(&self) -> (n: usize)
        ensures
            n == self@.builder_users.len(),
            self@.builder_users.finite(),
    {
        self.builder_users.len()
    }
}

// ── Actions of replica blocks ────────────────────────────────────────────

/// An action, with the fields that matter.
pub struct RefAction {
    pub vault_address: Option<String>,
    pub action_type: Option<String>,
    pub code: Option<String>,
    pub builder: Option<String>,
    pub max_fee_rate: Option<String>,
}

/// How an action was answered. No status where there was no result.
pub struct RefResp {
    pub user: Option<String>,
    pub status: Option<String>,
}

/// A block: its bundles of actions, and the answers to them.
pub struct RefBlock {
    pub bundles: Vec<Vec<RefAction>>,
    pub resps: Option<Vec<Vec<RefResp>>>,
}

/// Whether the action went through: no result is given, or the result is "ok".
pub open spec fn succeeded(r: RefResp) -> bool {
    match r.status {
        Some(s) => s@ == "ok"@,
        None => true,
    }
}

/// The answer to an action, where there is one.
pub open spec fn answer_to(b: RefBlock, bi: int, ai: int) -> Option<RefResp> {
    match b.resps {
        Some(v) => if bi < v@.len() && ai < v@[bi]@.len() {
            Some(v@[bi]@[ai])
        } else {
            None
        },
        None => None,
    }
}

/// Who acted: the vault, or else the user whom the answer names, in lower case.
pub open spec fn actor(a: RefAction, resp: Option<RefResp>) -> Option<Seq<char>> {
    match a.vault_address {
        Some(v) => Some(crate::text::ascii_lower(v@)),
        None => match resp {
            Some(r) => match r.user {
                Some(u) => Some(crate::text::ascii_lower(u@)),
                None => None,
            },
            None => None,
        },
    }
}

/// Whether a fee rate says that an approval is taken back: nothing but zeros, points and percent
/// signs, such as "0%".
pub open spec fn is_revoke(rate: Seq<char>) -> bool {
    rate.len() > 0 && forall|i: int|
        0 <= i < rate.len() ==> (#[trigger] rate[i] == '0' || rate[i] == '.' || rate[i] == '%')
}

/// What an action does to what is tracked: a user sets our referral code, or approves our builder.
pub open spec fn action_effect(t: TrackerModel, a: RefAction, resp: Option<RefResp>) -> TrackerModel {
    if resp is Some && !succeeded(resp->Some_0) {
        t
    } else {
        match (a.action_type, actor(a, resp)) {
            (Some(k), Some(u)) => if k@ == "setReferrer"@ {
                match a.code {
                    Some(c) if crate::text::ascii_lower(c@) == crate::text::ascii_lower(t.code) => (
                    TrackerModel { users: t.users.insert(u), ..t }),
                    _ => t,
                }
            } else if k@ == "approveBuilderFee"@ {
                match a.builder {
                    Some(b) if crate::text::ascii_lower(b@) == crate::text::ascii_lower(t.builder)
                        && !(a.max_fee_rate is Some && is_revoke(a.max_fee_rate->Some_0@)) => (
                    TrackerModel { builder_users: t.builder_users.insert(u), ..t }),
                    _ => t,
                }
            } else {
                t
            },
            _ => t,
        }
    }
}

/// What is tracked after the first `n` actions of a bundle.
pub open spec fn bundle_effect(t: TrackerModel, b: RefBlock, bi: int, n: int) -> TrackerModel
    decreases n,
{
    if n <= 0 {
        t
    } else {
        action_effect(
            bundle_effect(t, b, bi, n - 1),
            b.bundles@[bi]@[n - 1],
            answer_to(b, bi, n - 1),
        )
    }
}

/// What is tracked after the first `n` bundles of a block.
pub open spec fn block_effect(t: TrackerModel, b: RefBlock, n: int) -> TrackerModel
    decreases n,
{
    if n <= 0 {
        t
    } else {
        bundle_effect(block_effect(t, b, n - 1), b, n - 1, b.bundles@[n - 1]@.len() as int)
    }
}

/// Whether a line may hold an action that matters, found without parsing it.
pub fn line_counts(line: &str) -> (r: bool)
    ensures
        r == (crate::text::occurs(line@, "\"setReferrer\""@) || crate::text::occurs(
            line@,
            "\"approveBuilderFee\""@,
        )),
{
    contains_text(line, "\"setReferrer\"") || contains_text(line, "\"approveBuilderFee\"")
}

/// Whether a fee rate says that an approval is taken back.
pub fn revokes(rate: &str) -> (r: bool)
    ensures
        r == is_revoke(rate@),
{
    let v = chars_of(rate);
    if v.len() == 0 {
        return false;
    }
    let mut i: usize = 0;
    while i < v.len()
        invariant
            i <= v@.len(),
            v@ == rate@,
            forall|j: int|
                0 <= j < i ==> (#[trigger] v@[j] == '0' || v@[j] == '.' || v@[j] == '%'),
        decreases v@.len() - i,
    {
        if !(v[i] == '0' || v[i] == '.' || v[i] == '%') {
            return false;
        }
        i = i + 1;
    }
    true
}

fn apply_action(tracker: &mut ReferrerTracker, a: &RefAction, resp: Option<&RefResp>)
    ensures
        final(tracker)@ == action_effect(
            old(tracker)@,
            *a,
            match resp {
                Some(r) => Some(*r),
                None => None,
            },
        ),
{
    if let Some(r) = resp {
        if let Some(s) = &r.status {
            if !str_eq(s.as_str(), "ok") {
                return ;
            }
        }
    }
    let kind = match &a.action_type {
        Some(k) => k.as_str(),
        None => {
            return ;
        },
    };
    let is_referrer = str_eq(kind, "setReferrer");
    let is_builder = str_eq(kind, "approveBuilderFee");
    if !is_referrer && !is_builder {
        return ;
    }
    let user = match &a.vault_address {
        Some(v) => to_ascii_lowercase(v.as_str()),
        None => match resp {
            Some(r) => match &r.user {
                Some(u) => to_ascii_lowercase(u.as_str()),
                None => {
                    return ;
                },
            },
            None => {
                return ;
            },
        },
    };
    if is_referrer {
        if let Some(c) = &a.code {
            if eq_ignore_ascii_case(c.as_str(), tracker.tracked_code()) {
                tracker.insert(user);
            }
        }
    } else {
        if let Some(b) = &a.builder {
            if eq_ignore_ascii_case(b.as_str(), tracker.builder_address()) {
                let revoked = match &a.max_fee_rate {
                    Some(rate) => revokes(rate.as_str()),
                    None => false,
                };
                if !revoked {
                    tracker.builder_insert(user);
                }
            }
        }
    }
}

/// Applies the actions of a block.
pub fn apply_actions(tracker: &mut ReferrerTracker, block: &RefBlock)
    ensures
        final(tracker)@ == block_effect(old(tracker)@, *block, block.bundles@.len() as int),
{
    let ghost start = tracker@;
    let mut i: usize = 0;
    while i < block.bundles.len()
        invariant
            i <= block.bundles@.len(),
            tracker@ == block_effect(start, *block, i as int),
        decreases block.bundles@.len() - i,
    {
        let ghost before = tracker@;
        let mut k: usize = 0;
        while k < block.bundles[i].len()
            invariant
                i < block.bundles@.len(),
                k <= block.bundles@[i as int]@.len(),
                tracker@ == bundle_effect(before, *block, i as int, k as int),
            decreases block.bundles@[i as int]@.len() - k,
        {
            let resp: Option<&RefResp> = match &block.resps {
                Some(v) => if i < v.len() && k < v[i].len() {
                    Some(&v[i][k])
                } else {
                    None
                },
                None => None,
            };
            apply_action(tracker, &block.bundles[i][k], resp);
            k = k + 1;
        }
        i = i + 1;
    }
}

/// Users are never dropped, and what is tracked stays the same.
pub proof fn law_tracked_users_stay(t: TrackerModel, b: RefBlock, n: int)
    requires
        0 <= n <= b.bundles@.len(),
    ensures
        t.users.subset_of(block_effect(t, b, n).users),
        t.builder_users.subset_of(block_effect(t, b, n).builder_users),
        block_effect(t, b, n).code == t.code,
        block_effect(t, b, n).builder == t.builder,
    decreases n,
{
    if n > 0 {
        law_tracked_users_stay(t, b, n - 1);
        lemma_bundle_keeps(
            block_effect(t, b, n - 1),
            b,
            n - 1,
            b.bundles@[n - 1]@.len() as int,
        );
    }
}

proof fn lemma_bundle_keeps(t: TrackerModel, b: RefBlock, bi: int, n: int)
    ensures
        t.users.subset_of(bundle_effect(t, b, bi, n).users),
        t.builder_users.subset_of(bundle_effect(t, b, bi, n).builder_users),
        bundle_effect(t, b, bi, n).code == t.code,
        bundle_effect(t, b, bi, n).builder == t.builder,
    decreases n,
{
    if n > 0 {
        lemma_bundle_keeps(t, b, bi, n - 1);
    }
}

/// The number of the first file that is read: the last four of them are.
pub fn first_file_read(files: usize) -> (r: usize)
    ensures
        r == if files >= 4 {
            files - 4
        } else {
            0
        },
{
    files.saturating_sub(4)
}

/// Where reading goes on in a file of `size` bytes that has been read up to `from`, after lines of so
/// many bytes, each with the newline behind it. The last line may still lack its newline.
pub fn next_offset(from: u64, read: u64, size: u64) -> (r: u64)
    ensures
        r == (if from.wrapping_add(read) < size {
            from.wrapping_add(read)
        } else {
            size
        }),
{
    let at: u64 = from.wrapping_add(read);
    if at < size {
        at
    } else {
        size
    }
}

} // verus!

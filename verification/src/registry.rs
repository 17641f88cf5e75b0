//! The session registry: reconciliation of a desired account set against the
//! live sessions, and the aggregated read views over them.

use vstd::prelude::*;
use vstd::string::StringExecFns;
use crate::account::descs_view;
use crate::account::desired_has_key;
use crate::account::AccountDescriptor;
use crate::account::AccountDescriptorV;
use crate::account::AccountKey;
use crate::account::KeyV;
use crate::session::fresh_session;
use crate::session::lemma_step_preserves_wf;
use crate::session::status_description_text;
use crate::session::status_text;
use crate::session::step_outcome;
use crate::session::step_state;
use crate::session::Event;
use crate::session::OrderSnapshot;
use crate::session::OrderSnapshotV;
use crate::session::Session;
use crate::session::SessionV;
use crate::session::StepOutcome;
use crate::session::StepOutcomeV;

verus! {

/// The model of a sequence of sessions.
pub open spec fn sessions_view(ss: Seq<Session>) -> Seq<SessionV> {
    Seq::new(ss.len(), |i: int| ss[i]@)
}

/// The model of a sequence of account keys.
pub open spec fn keys_view(ks: Seq<AccountKey>) -> Seq<KeyV> {
    Seq::new(ks.len(), |i: int| ks[i]@)
}

/// Whether a live session exists for the key.
pub open spec fn has_session(ss: Seq<SessionV>, k: KeyV) -> bool {
    exists|i: int| 0 <= i < ss.len() && ss[i].key() == k
}

/// The index of the live session for the key (meaningful when one exists and
/// keys are unique).
pub open spec fn session_index(ss: Seq<SessionV>, k: KeyV) -> int {
    choose|i: int| 0 <= i < ss.len() && ss[i].key() == k
}

/// What one desired descriptor does to the live set: a valid descriptor whose
/// key has no live session gains a fresh one; everything else changes nothing.
pub open spec fn create_step(ss: Seq<SessionV>, d: AccountDescriptorV) -> Seq<SessionV> {
    if d.valid() && !has_session(ss, d.key()) {
        ss.push(fresh_session(d))
    } else {
        ss
    }
}

/// The live set after walking the whole desired set, in order.
pub open spec fn create_all(ss: Seq<SessionV>, ds: Seq<AccountDescriptorV>) -> Seq<SessionV>
    decreases ds.len(),
{
    if ds.len() == 0 {
        ss
    } else {
        create_all(create_step(ss, ds[0]), ds.skip(1))
    }
}

/// The keys for which the walk creates a session, in desired-set order.
pub open spec fn created_keys(ss: Seq<SessionV>, ds: Seq<AccountDescriptorV>) -> Seq<KeyV>
    decreases ds.len(),
{
    if ds.len() == 0 {
        Seq::empty()
    } else {
        let head: Seq<KeyV> = if ds[0].valid() && !has_session(ss, ds[0].key()) {
            seq![ds[0].key()]
        } else {
            Seq::empty()
        };
        head + created_keys(create_step(ss, ds[0]), ds.skip(1))
    }
}

/// How many desired descriptors fail validation (each is logged and skipped;
/// reconciliation itself never fails on them).
pub open spec fn invalid_count(ds: Seq<AccountDescriptorV>) -> int
    decreases ds.len(),
{
    if ds.len() == 0 {
        0
    } else {
        (if ds[0].valid() {
            0int
        } else {
            1int
        }) + invalid_count(ds.skip(1))
    }
}

/// The live sessions whose key is still desired, in their existing order.
pub open spec fn keep_live(ss: Seq<SessionV>, ds: Seq<AccountDescriptorV>) -> Seq<SessionV>
    decreases ss.len(),
{
    if ss.len() == 0 {
        Seq::empty()
    } else if desired_has_key(ds, ss[0].key()) {
        seq![ss[0]] + keep_live(ss.skip(1), ds)
    } else {
        keep_live(ss.skip(1), ds)
    }
}

/// The keys of the live sessions that are no longer desired: each gets one
/// teardown signal, in live-set order.
pub open spec fn stale_keys(ss: Seq<SessionV>, ds: Seq<AccountDescriptorV>) -> Seq<KeyV>
    decreases ss.len(),
{
    if ss.len() == 0 {
        Seq::empty()
    } else if desired_has_key(ds, ss[0].key()) {
        stale_keys(ss.skip(1), ds)
    } else {
        seq![ss[0].key()] + stale_keys(ss.skip(1), ds)
    }
}

/// Reconciliation: create a session for every valid desired key that lacks
/// one, then tear down every live session whose key is no longer desired.
/// Sessions whose key stays desired are never touched.
pub open spec fn spec_reconcile(ss: Seq<SessionV>, ds: Seq<AccountDescriptorV>) -> Seq<SessionV> {
    keep_live(create_all(ss, ds), ds)
}

/// Registry well-formedness: every session is well-formed and at most one
/// live session exists per identity key.
pub open spec fn registry_wf(ss: Seq<SessionV>) -> bool {
    &&& forall|i: int| 0 <= i < ss.len() ==> (#[trigger] ss[i]).wf()
    &&& forall|i: int, j: int| 0 <= i < j < ss.len() ==> ss[i].key() != ss[j].key()
}

/// What a reconciliation pass did: the keys it created sessions for, the keys
/// it signalled teardown for, and how many desired descriptors it skipped as
/// invalid.
pub struct ReconcileReport {
    pub created: Vec<AccountKey>,
    pub removed: Vec<AccountKey>,
    pub invalid: usize,
}

/// Mathematical model of a [`ReconcileReport`].
pub struct ReconcileReportV {
    pub created: Seq<KeyV>,
    pub removed: Seq<KeyV>,
    pub invalid: int,
}

impl View for ReconcileReport {
    type V = ReconcileReportV;

    open spec fn view(&self) -> ReconcileReportV {
        ReconcileReportV {
            created: keys_view(self.created@),
            removed: keys_view(self.removed@),
            invalid: self.invalid as int,
        }
    }
}

/// The registry: owner of all live sessions, keyed by account identity.
pub struct Registry {
    pub sessions: Vec<Session>,
}

impl View for Registry {
    type V = Seq<SessionV>;

    open spec fn view(&self) -> Seq<SessionV> {
        sessions_view(self.sessions@)
    }
}

impl Registry {
    /// Registry well-formedness, at the model level.
    pub open spec fn wf(self) -> bool {
        registry_wf(self@)
    }

    /// An empty registry: no live sessions.
    pub fn new() -> (r: Registry)
        ensures
            r@ == Seq::<SessionV>::empty(),
            r.wf(),
    {
        let r = Registry { sessions: Vec::new() };
        proof {
            assert(sessions_view(r.sessions@) =~= Seq::<SessionV>::empty());
        }
        r
    }

    /// Whether a live session exists for the descriptor's key.
    fn has_session_for(&self, d: &AccountDescriptor) -> (r: bool)
        ensures
            r == has_session(self@, d@.key()),
    {
        let mut j: usize = 0;
        while j < self.sessions.len()
            invariant
                j <= self.sessions.len(),
                forall|t: int| 0 <= t < j ==> self@[t].key() != d@.key(),
            decreases self.sessions.len() - j,
        {
            if self.sessions[j].descriptor.same_key(d) {
                assert(self@[j as int].key() == d@.key());
                return true;
            }
            j = j + 1;
        }
        false
    }

    /// Make the live session set match the desired account set: create a
    /// session (starting in `Connecting`) for every valid desired key that
    /// has none, skip invalid descriptors with a validation error, and tear
    /// down every live session whose key is no longer desired.  Sessions
    /// whose key stays desired are left untouched.  The report lists the
    /// created keys, the torn-down keys (one teardown signal each, to be
    /// delivered by the caller), and the count of invalid descriptors.
    pub fn reconcile(&mut self, desired: &Vec<AccountDescriptor>) -> (r: ReconcileReport)
        requires
            old(self).wf(),
        ensures
            final(self)@ == spec_reconcile(old(self)@, descs_view(desired@)),
            final(self).wf(),
            r@.created == created_keys(old(self)@, descs_view(desired@)),
            r@.removed == stale_keys(
                create_all(old(self)@, descs_view(desired@)),
                descs_view(desired@),
            ),
            r@.invalid == invalid_count(descs_view(desired@)),
    {
        let ghost ds = descs_view(desired@);
        let ghost ss0 = self@;
        let mut created: Vec<AccountKey> = Vec::new();
        let mut invalid: usize = 0;
        let mut i: usize = 0;
        proof {
            assert(keys_view(created@) =~= Seq::<KeyV>::empty());
            assert(ds.skip(0) =~= ds);
            assert(Seq::<KeyV>::empty() + created_keys(ss0, ds) =~= created_keys(ss0, ds));
        }
        while i < desired.len()
            invariant
                i <= desired.len(),
                ds == descs_view(desired@),
                create_all(ss0, ds) == create_all(self@, ds.skip(i as int)),
                created_keys(ss0, ds) == keys_view(created@) + created_keys(
                    self@,
                    ds.skip(i as int),
                ),
                invalid_count(ds) == invalid as int + invalid_count(ds.skip(i as int)),
                invalid <= i,
                registry_wf(self@),
                ss0.len() <= self@.len(),
            decreases desired.len() - i,
        {
            let ghost pre = self@;
            let ghost created_pre = keys_view(created@);
            let d = &desired[i];
            proof {
                assert(ds.skip(i as int)[0] == ds[i as int]);
                assert(ds[i as int] == d@);
                assert(ds.skip(i as int).skip(1) =~= ds.skip(i as int + 1));
            }
            if d.is_valid() {
                if !self.has_session_for(d) {
                    let k = d.key();
                    created.push(k);
                    let s = Session::new(d.duplicate());
                    self.sessions.push(s);
                    proof {
                        assert(sessions_view(self.sessions@) =~= pre.push(fresh_session(d@)));
                        assert(self@ == create_step(pre, d@));
                        assert(keys_view(created@) =~= created_pre.push(d@.key()));
                        assert(keys_view(created@) =~= created_pre + seq![d@.key()]);
                        assert forall|a: int, b: int| 0 <= a < b < self@.len() implies self@[
                            a
                        ].key() != self@[b].key() by {
                            if b == self@.len() - 1 {
                                assert(!has_session(pre, d@.key()));
                                assert(self@[a] == pre[a]);
                            }
                        }
                        assert(registry_wf(self@));
                        assert(created_keys(pre, ds.skip(i as int)) == seq![d@.key()]
                            + created_keys(self@, ds.skip(i as int + 1)));
                        assert(created_keys(ss0, ds) == keys_view(created@) + created_keys(
                            self@,
                            ds.skip(i as int + 1),
                        ));
                    }
                } else {
                    proof {
                        assert(self@ == create_step(pre, d@));
                        assert(created_keys(pre, ds.skip(i as int)) == Seq::<KeyV>::empty()
                            + created_keys(self@, ds.skip(i as int + 1)));
                        assert(Seq::<KeyV>::empty() + created_keys(self@, ds.skip(i as int + 1))
                            =~= created_keys(self@, ds.skip(i as int + 1)));
                    }
                }
            } else {
                invalid = invalid + 1;
                proof {
                    assert(self@ == create_step(pre, d@));
                    assert(created_keys(pre, ds.skip(i as int)) == Seq::<KeyV>::empty()
                        + created_keys(self@, ds.skip(i as int + 1)));
                    assert(Seq::<KeyV>::empty() + created_keys(self@, ds.skip(i as int + 1)) =~=
                    created_keys(self@, ds.skip(i as int + 1)));
                }
            }
            i = i + 1;
        }
        proof {
            assert(ds.skip(desired.len() as int) =~= Seq::<AccountDescriptorV>::empty());
            assert(create_all(ss0, ds) == self@);
            assert(created_keys(ss0, ds) == keys_view(created@) + Seq::<KeyV>::empty());
            assert(keys_view(created@) + Seq::<KeyV>::empty() =~= keys_view(created@));
            assert(invalid_count(ds) == invalid as int);
        }
        let ghost ss1 = self@;
        let mut live: Vec<Session> = Vec::new();
        core::mem::swap(&mut live, &mut self.sessions);
        let mut removed: Vec<AccountKey> = Vec::new();
        proof {
            assert(sessions_view(self.sessions@) =~= Seq::<SessionV>::empty());
            assert(sessions_view(live@) == ss1);
            assert(keys_view(removed@) =~= Seq::<KeyV>::empty());
            assert(Seq::<SessionV>::empty() + keep_live(ss1, ds) =~= keep_live(ss1, ds));
            assert(Seq::<KeyV>::empty() + stale_keys(ss1, ds) =~= stale_keys(ss1, ds));
        }
        while live.len() > 0
            invariant
                ds == descs_view(desired@),
                sessions_view(self.sessions@) + keep_live(sessions_view(live@), ds) == keep_live(
                    ss1,
                    ds,
                ),
                keys_view(removed@) + stale_keys(sessions_view(live@), ds) == stale_keys(ss1, ds),
            decreases live.len(),
        {
            let ghost rest_pre = sessions_view(live@);
            let ghost kept_pre = sessions_view(self.sessions@);
            let ghost removed_pre = keys_view(removed@);
            let s = live.remove(0);
            proof {
                assert(sessions_view(live@) =~= rest_pre.skip(1));
                assert(s@ == rest_pre[0]);
            }
            if desired_contains_key(desired, &s.descriptor) {
                proof {
                    assert(keep_live(rest_pre, ds) == seq![rest_pre[0]] + keep_live(
                        rest_pre.skip(1),
                        ds,
                    ));
                }
                self.sessions.push(s);
                proof {
                    assert(sessions_view(self.sessions@) =~= kept_pre.push(rest_pre[0]));
                    assert(kept_pre.push(rest_pre[0]) + keep_live(rest_pre.skip(1), ds) =~=
                    kept_pre + keep_live(rest_pre, ds));
                }
            } else {
                let k = s.descriptor.key();
                removed.push(k);
                proof {
                    assert(stale_keys(rest_pre, ds) == seq![rest_pre[0].key()] + stale_keys(
                        rest_pre.skip(1),
                        ds,
                    ));
                    assert(keys_view(removed@) =~= removed_pre.push(rest_pre[0].key()));
                    assert(removed_pre.push(rest_pre[0].key()) + stale_keys(rest_pre.skip(1), ds)
                        =~= removed_pre + stale_keys(rest_pre, ds));
                }
            }
        }
        proof {
            assert(sessions_view(live@) =~= Seq::<SessionV>::empty());
            assert(keep_live(Seq::<SessionV>::empty(), ds) == Seq::<SessionV>::empty());
            assert(sessions_view(self.sessions@) + Seq::<SessionV>::empty() =~= sessions_view(
                self.sessions@,
            ));
            assert(keys_view(removed@) + Seq::<KeyV>::empty() =~= keys_view(removed@));
            assert(self@ == keep_live(ss1, ds));
            lemma_keep_live_wf(ss1, ds);
        }
        ReconcileReport { created, removed, invalid }
    }
}

/// Whether some descriptor in the desired set has the same key as `d`.
fn desired_contains_key(desired: &Vec<AccountDescriptor>, d: &AccountDescriptor) -> (r: bool)
    ensures
        r == desired_has_key(descs_view(desired@), d@.key()),
{
    let mut i: usize = 0;
    while i < desired.len()
        invariant
            i <= desired.len(),
            forall|t: int| 0 <= t < i ==> descs_view(desired@)[t].key() != d@.key(),
        decreases desired.len() - i,
    {
        if desired[i].same_key(d) {
            assert(descs_view(desired@)[i as int].key() == d@.key());
            return true;
        }
        i = i + 1;
    }
    false
}

/// Keeping only still-desired sessions preserves registry well-formedness.
pub proof fn lemma_keep_live_wf(ss: Seq<SessionV>, ds: Seq<AccountDescriptorV>)
    requires
        registry_wf(ss),
    ensures
        registry_wf(keep_live(ss, ds)),
    decreases ss.len(),
{
    if ss.len() == 0 {
    } else {
        assert(registry_wf(ss.skip(1)));
        lemma_keep_live_wf(ss.skip(1), ds);
        lemma_keep_live_membership(ss.skip(1), ds);
        if desired_has_key(ds, ss[0].key()) {
            let r = keep_live(ss, ds);
            assert forall|a: int, b: int| 0 <= a < b < r.len() implies r[a].key() != r[b].key() by {
                if a == 0 {
                    let inner = keep_live(ss.skip(1), ds);
                    assert(r[b] == inner[b - 1]);
                    let w = choose|w: int|
                        0 <= w < ss.skip(1).len() && ss.skip(1)[w] == inner[b - 1];
                    assert(ss[w + 1] == inner[b - 1]);
                }
            }
            assert forall|a: int| 0 <= a < r.len() implies (#[trigger] r[a]).wf() by {
                if a == 0 {
                } else {
                    let inner = keep_live(ss.skip(1), ds);
                    assert(r[a] == inner[a - 1]);
                }
            }
        }
    }
}

/// One row of the account status listing: identity plus where the account's
/// session stands.  An account without a live session has empty status
/// fields.
pub struct AccountStatusSnapshot {
    pub broker_id: String,
    pub account: String,
    pub status: String,
    pub status_description: String,
}

/// Mathematical model of an [`AccountStatusSnapshot`].
pub struct AccountStatusSnapshotV {
    pub broker_id: Seq<char>,
    pub account: Seq<char>,
    pub status: Seq<char>,
    pub status_description: Seq<char>,
}

impl View for AccountStatusSnapshot {
    type V = AccountStatusSnapshotV;

    open spec fn view(&self) -> AccountStatusSnapshotV {
        AccountStatusSnapshotV {
            broker_id: self.broker_id@,
            account: self.account@,
            status: self.status@,
            status_description: self.status_description@,
        }
    }
}

/// The model of a sequence of status rows.
pub open spec fn rows_view(rs: Seq<AccountStatusSnapshot>) -> Seq<AccountStatusSnapshotV> {
    Seq::new(rs.len(), |i: int| rs[i]@)
}

/// The status row for one desired account: its identity, and the status of
/// its live session if it has one.
pub open spec fn account_row(ss: Seq<SessionV>, d: AccountDescriptorV) -> AccountStatusSnapshotV {
    if has_session(ss, d.key()) {
        let s = ss[session_index(ss, d.key())];
        AccountStatusSnapshotV {
            broker_id: d.broker_id,
            account: d.account,
            status: status_text(s.phase),
            status_description: status_description_text(s.phase),
        }
    } else {
        AccountStatusSnapshotV {
            broker_id: d.broker_id,
            account: d.account,
            status: Seq::empty(),
            status_description: Seq::empty(),
        }
    }
}

/// The whole account status listing, one row per desired account.
pub open spec fn account_rows(ss: Seq<SessionV>, ds: Seq<AccountDescriptorV>) -> Seq<
    AccountStatusSnapshotV,
> {
    Seq::new(ds.len(), |i: int| account_row(ss, ds[i]))
}

/// All live sessions' order snapshots, in session order.
pub open spec fn all_orders(ss: Seq<SessionV>) -> Seq<OrderSnapshotV>
    decreases ss.len(),
{
    if ss.len() == 0 {
        Seq::empty()
    } else {
        ss[0].orders + all_orders(ss.skip(1))
    }
}

/// The first order with the given key in a snapshot sequence.
pub open spec fn order_in(os: Seq<OrderSnapshotV>, key: Seq<char>) -> Option<OrderSnapshotV>
    decreases os.len(),
{
    if os.len() == 0 {
        None
    } else if os[0].key == key {
        Some(os[0])
    } else {
        order_in(os.skip(1), key)
    }
}

/// The order with the given key held by the session with the given identity
/// key, if both exist.
pub open spec fn lookup_order(ss: Seq<SessionV>, k: KeyV, key: Seq<char>) -> Option<
    OrderSnapshotV,
> {
    if has_session(ss, k) {
        order_in(ss[session_index(ss, k)].orders, key)
    } else {
        None
    }
}

/// The model of an optional order snapshot.
pub open spec fn opt_order_view(r: Option<OrderSnapshot>) -> Option<OrderSnapshotV> {
    match r {
        Some(o) => Some(o@),
        None => None,
    }
}

/// The model of an optional step outcome.
pub open spec fn opt_outcome_view(r: Option<StepOutcome>) -> Option<StepOutcomeV> {
    match r {
        Some(o) => Some(o@),
        None => None,
    }
}

/// Under registry well-formedness, the session index for a key is the only
/// index whose session carries it.
pub proof fn lemma_session_index_unique(ss: Seq<SessionV>, k: KeyV, j: int)
    requires
        registry_wf(ss),
        0 <= j < ss.len(),
        ss[j].key() == k,
    ensures
        has_session(ss, k),
        session_index(ss, k) == j,
{
    assert(has_session(ss, k));
    let idx = session_index(ss, k);
    assert(0 <= idx < ss.len() && ss[idx].key() == k);
    if idx < j {
        assert(ss[idx].key() != ss[j].key());
    } else if idx > j {
        assert(ss[j].key() != ss[idx].key());
    }
}

proof fn lemma_order_in_at(os: Seq<OrderSnapshotV>, key: Seq<char>, t: int)
    requires
        0 <= t < os.len(),
        os[t].key == key,
        forall|j: int| 0 <= j < t ==> os[j].key != key,
    ensures
        order_in(os, key) == Some(os[t]),
    decreases t,
{
    if t > 0 {
        lemma_order_in_at(os.skip(1), key, t - 1);
    }
}

proof fn lemma_order_in_absent(os: Seq<OrderSnapshotV>, key: Seq<char>)
    requires
        forall|j: int| 0 <= j < os.len() ==> os[j].key != key,
    ensures
        order_in(os, key) is None,
    decreases os.len(),
{
    if os.len() > 0 {
        lemma_order_in_absent(os.skip(1), key);
    }
}

impl Registry {
    /// The status row for one desired account, from its live session if any.
    fn status_row_for(&self, d: &AccountDescriptor) -> (row: AccountStatusSnapshot)
        requires
            self.wf(),
        ensures
            row@ == account_row(self@, d@),
    {
        let mut j: usize = 0;
        while j < self.sessions.len()
            invariant
                j <= self.sessions.len(),
                self.wf(),
                forall|t: int| 0 <= t < j ==> self@[t].key() != d@.key(),
            decreases self.sessions.len() - j,
        {
            if self.sessions[j].descriptor.same_key(d) {
                proof {
                    assert(self@[j as int].key() == d@.key());
                    lemma_session_index_unique(self@, d@.key(), j as int);
                }
                let st = self.sessions[j].status();
                let sd = self.sessions[j].status_description();
                return AccountStatusSnapshot {
                    broker_id: d.broker_id.clone(),
                    account: d.account.clone(),
                    status: String::from_str(st),
                    status_description: String::from_str(sd),
                };
            }
            j = j + 1;
        }
        proof {
            if has_session(self@, d@.key()) {
                let idx = session_index(self@, d@.key());
                assert(0 <= idx < self@.len() && self@[idx].key() == d@.key());
                assert(false);
            }
        }
        AccountStatusSnapshot {
            broker_id: d.broker_id.clone(),
            account: d.account.clone(),
            status: String::new(),
            status_description: String::new(),
        }
    }

    /// The account status listing: one row per desired account, with status
    /// drawn from the account's live session where one exists.  Each row is
    /// consistent in itself; the listing is not a cross-session snapshot.
    pub fn list_accounts(&self, accounts: &Vec<AccountDescriptor>) -> (rows: Vec<
        AccountStatusSnapshot,
    >)
        requires
            self.wf(),
        ensures
            rows_view(rows@) == account_rows(self@, descs_view(accounts@)),
    {
        let mut rows: Vec<AccountStatusSnapshot> = Vec::new();
        let mut i: usize = 0;
        while i < accounts.len()
            invariant
                i <= accounts.len(),
                self.wf(),
                rows@.len() == i,
                forall|t: int|
                    0 <= t < i ==> rows_view(rows@)[t] == account_rows(
                        self@,
                        descs_view(accounts@),
                    )[t],
            decreases accounts.len() - i,
        {
            let ghost rpre = rows@;
            let row = self.status_row_for(&accounts[i]);
            rows.push(row);
            proof {
                assert(descs_view(accounts@)[i as int] == accounts@[i as int]@);
                assert forall|t: int|
                    0 <= t < i + 1 implies rows_view(rows@)[t] == account_rows(
                    self@,
                    descs_view(accounts@),
                )[t] by {
                    if t < i {
                        assert(rows@[t] == rpre[t]);
                        assert(rows_view(rpre)[t] == account_rows(self@, descs_view(accounts@))[t]);
                    } else {
                        assert(rows@[t] == row);
                    }
                }
            }
            i = i + 1;
        }
        proof {
            assert(rows_view(rows@) =~= account_rows(self@, descs_view(accounts@)));
        }
        rows
    }

    /// Every live session's orders, concatenated in session order.  Each
    /// session's block is consistent in itself; the aggregate is not a
    /// cross-session snapshot.
    pub fn list_orders(&self) -> (v: Vec<OrderSnapshot>)
        ensures
            crate::session::orders_view(v@) == all_orders(self@),
    {
        let mut v: Vec<OrderSnapshot> = Vec::new();
        let mut i: usize = 0;
        proof {
            assert(crate::session::orders_view(v@) =~= Seq::<OrderSnapshotV>::empty());
            assert(self@.skip(0) =~= self@);
            assert(Seq::<OrderSnapshotV>::empty() + all_orders(self@) =~= all_orders(self@));
        }
        while i < self.sessions.len()
            invariant
                i <= self.sessions.len(),
                crate::session::orders_view(v@) + all_orders(self@.skip(i as int)) == all_orders(
                    self@,
                ),
            decreases self.sessions.len() - i,
        {
            let ghost before = crate::session::orders_view(v@);
            let ghost cur = self@[i as int].orders;
            proof {
                assert(self@.skip(i as int)[0] == self@[i as int]);
                assert(self@.skip(i as int).skip(1) =~= self@.skip(i as int + 1));
                assert(all_orders(self@.skip(i as int)) == cur + all_orders(
                    self@.skip(i as int + 1),
                ));
            }
            let n = self.sessions[i].orders.len();
            let mut t: usize = 0;
            proof {
                assert(cur.take(0) =~= Seq::<OrderSnapshotV>::empty());
                assert(before + Seq::<OrderSnapshotV>::empty() =~= before);
            }
            while t < n
                invariant
                    t <= n,
                    n == self.sessions@[i as int].orders@.len(),
                    i < self.sessions.len(),
                    cur == self@[i as int].orders,
                    crate::session::orders_view(v@) == before + cur.take(t as int),
                decreases n - t,
            {
                let ghost vpre = crate::session::orders_view(v@);
                let o = self.sessions[i].orders[t].duplicate();
                v.push(o);
                proof {
                    assert(crate::session::orders_view(v@) =~= vpre.push(cur[t as int]));
                    assert(cur.take(t as int + 1) =~= cur.take(t as int).push(cur[t as int]));
                    assert((before + cur.take(t as int)).push(cur[t as int]) =~= before + cur.take(
                        t as int + 1,
                    ));
                }
                t = t + 1;
            }
            proof {
                assert(cur.take(n as int) =~= cur);
                assert((before + cur) + all_orders(self@.skip(i as int + 1)) =~= before + (cur
                    + all_orders(self@.skip(i as int + 1))));
            }
            i = i + 1;
        }
        proof {
            assert(self@.skip(self.sessions.len() as int) =~= Seq::<SessionV>::empty());
            assert(crate::session::orders_view(v@) + Seq::<OrderSnapshotV>::empty() =~=
            crate::session::orders_view(v@));
        }
        v
    }

    /// Look one order up by account identity and order key.
    pub fn get_order(&self, broker_id: &String, account: &String, key: &String) -> (r: Option<
        OrderSnapshot,
    >)
        requires
            self.wf(),
        ensures
            opt_order_view(r) == lookup_order(
                self@,
                KeyV { broker_id: broker_id@, account: account@ },
                key@,
            ),
    {
        let ghost k = KeyV { broker_id: broker_id@, account: account@ };
        let ak = AccountKey { broker_id: broker_id.clone(), account: account.clone() };
        let mut j: usize = 0;
        while j < self.sessions.len()
            invariant
                j <= self.sessions.len(),
                self.wf(),
                ak@ == k,
                k == (KeyV { broker_id: broker_id@, account: account@ }),
                forall|t: int| 0 <= t < j ==> self@[t].key() != k,
            decreases self.sessions.len() - j,
        {
            if self.sessions[j].descriptor.has_key(&ak) {
                proof {
                    assert(self@[j as int].key() == k);
                    assert(has_session(self@, k));
                    lemma_session_index_unique(self@, k, j as int);
                }
                let ghost os = self@[j as int].orders;
                let n = self.sessions[j].orders.len();
                let mut t: usize = 0;
                while t < n
                    invariant
                        t <= n,
                        j < self.sessions.len(),
                        n == self.sessions@[j as int].orders@.len(),
                        os == self@[j as int].orders,
                        self.wf(),
                        k == (KeyV { broker_id: broker_id@, account: account@ }),
                        self@[j as int].key() == k,
                        session_index(self@, k) == j as int,
                        has_session(self@, k),
                        forall|w: int| 0 <= w < t ==> os[w].key != key@,
                    decreases n - t,
                {
                    if self.sessions[j].orders[t].key == *key {
                        proof {
                            assert(os[t as int] == self.sessions@[j as int].orders@[t as int]@);
                            lemma_order_in_at(os, key@, t as int);
                        }
                        return Some(self.sessions[j].orders[t].duplicate());
                    }
                    t = t + 1;
                }
                proof {
                    lemma_order_in_absent(os, key@);
                }
                return None;
            }
            j = j + 1;
        }
        proof {
            if has_session(self@, k) {
                let idx = session_index(self@, k);
                assert(0 <= idx < self@.len() && self@[idx].key() == k);
                assert(false);
            }
        }
        None
    }

    /// Route one inbound connector event to the session that owns the
    /// account, stepping its state machine.  Returns what the step produced,
    /// or nothing when no live session has the key.
    pub fn handle_event(&mut self, broker_id: &String, account: &String, e: Event) -> (r: Option<
        StepOutcome,
    >)
        requires
            old(self).wf(),
            forall|t: int|
                0 <= t < old(self)@.len() ==> (#[trigger] old(self)@[t]).request_id
                    < i32::MAX as int,
        ensures
            ({
                let k = KeyV { broker_id: broker_id@, account: account@ };
                &&& (!has_session(old(self)@, k) ==> r is None && final(self)@ == old(self)@)
                &&& (has_session(old(self)@, k) ==> ({
                    let j = session_index(old(self)@, k);
                    &&& final(self)@ == old(self)@.update(j, step_state(old(self)@[j], e@))
                    &&& opt_outcome_view(r) == Some(step_outcome(old(self)@[j], e@))
                }))
                &&& final(self).wf()
            }),
    {
        let ghost k = KeyV { broker_id: broker_id@, account: account@ };
        let ak = AccountKey { broker_id: broker_id.clone(), account: account.clone() };
        let mut j: usize = 0;
        while j < self.sessions.len()
            invariant
                j <= self.sessions.len(),
                self@ == old(self)@,
                old(self).wf(),
                ak@ == k,
                k == (KeyV { broker_id: broker_id@, account: account@ }),
                forall|t: int|
                    0 <= t < old(self)@.len() ==> (#[trigger] old(self)@[t]).request_id
                        < i32::MAX as int,
                forall|t: int| 0 <= t < j ==> self@[t].key() != k,
            decreases self.sessions.len() - j,
        {
            if self.sessions[j].descriptor.has_key(&ak) {
                proof {
                    assert(self@[j as int].key() == k);
                    lemma_session_index_unique(old(self)@, k, j as int);
                }
                let ghost pre = self@;
                let mut s = self.sessions.remove(j);
                assert(s@ == pre[j as int]);
                let out = s.step(e);
                self.sessions.insert(j, s);
                proof {
                    let stepped = step_state(pre[j as int], e@);
                    assert(sessions_view(self.sessions@) =~= pre.update(j as int, stepped));
                    lemma_step_preserves_wf(pre[j as int], e@);
                    assert forall|a: int, b: int|
                        0 <= a < b < self@.len() implies self@[a].key() != self@[b].key() by {
                        assert(self@[a].descriptor == pre[a].descriptor);
                        assert(self@[b].descriptor == pre[b].descriptor);
                    }
                    assert forall|a: int| 0 <= a < self@.len() implies (#[trigger] self@[a]).wf()
                    by {
                        if a != j as int {
                            assert(self@[a] == pre[a]);
                        }
                    }
                }
                return Some(out);
            }
            j = j + 1;
        }
        proof {
            if has_session(old(self)@, k) {
                let idx = session_index(old(self)@, k);
                assert(0 <= idx < old(self)@.len() && old(self)@[idx].key() == k);
                assert(false);
            }
        }
        None
    }
}

/// Every element kept by `keep_live` came from the input sequence.
pub proof fn lemma_keep_live_membership(ss: Seq<SessionV>, ds: Seq<AccountDescriptorV>)
    ensures
        forall|i: int|
            0 <= i < keep_live(ss, ds).len() ==> exists|k: int|
                0 <= k < ss.len() && ss[k] == #[trigger] keep_live(ss, ds)[i],
    decreases ss.len(),
{
    if ss.len() == 0 {
    } else {
        lemma_keep_live_membership(ss.skip(1), ds);
        let r = keep_live(ss, ds);
        let inner = keep_live(ss.skip(1), ds);
        assert forall|i: int| 0 <= i < r.len() implies exists|k: int|
            0 <= k < ss.len() && #[trigger] ss[k] == #[trigger] r[i] by {
            if desired_has_key(ds, ss[0].key()) {
                if i == 0 {
                    assert(ss[0] == r[0]);
                } else {
                    assert(r[i] == inner[i - 1]);
                    let k = choose|k: int| 0 <= k < ss.skip(1).len() && ss.skip(1)[k] == inner[i
                        - 1];
                    assert(ss[k + 1] == r[i]);
                }
            } else {
                assert(r[i] == inner[i]);
                let k = choose|k: int| 0 <= k < ss.skip(1).len() && ss.skip(1)[k] == inner[i];
                assert(ss[k + 1] == r[i]);
            }
        }
    }
}

} // verus!

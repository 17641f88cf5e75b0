//! The library's laws: properties of reconciliation and of the session
//! pipeline, proved once and for all inputs.

use vstd::prelude::*;
use crate::account::desired_has_key;
use crate::account::AccountDescriptorV;
use crate::account::KeyV;
use crate::registry::create_all;
use crate::registry::create_step;
use crate::registry::created_keys;
use crate::registry::has_session;
use crate::registry::keep_live;
use crate::registry::lemma_keep_live_wf;
use crate::registry::registry_wf;
use crate::registry::session_index;
use crate::registry::spec_reconcile;
use crate::registry::stale_keys;
use crate::session::fresh_session;
use crate::session::outbound;
use crate::session::step_state;
use crate::session::EventV;
use crate::session::OutboundRequestV;
use crate::session::Phase;
use crate::session::SessionV;

verus! {

proof fn lemma_has_session_push(ss: Seq<SessionV>, x: SessionV, k: KeyV)
    ensures
        has_session(ss.push(x), k) == (has_session(ss, k) || x.key() == k),
{
    if has_session(ss, k) {
        let i = choose|i: int| 0 <= i < ss.len() && ss[i].key() == k;
        assert(ss.push(x)[i] == ss[i]);
        assert(has_session(ss.push(x), k));
    }
    if x.key() == k {
        assert(ss.push(x)[ss.len() as int] == x);
        assert(has_session(ss.push(x), k));
    }
    if has_session(ss.push(x), k) {
        let i = choose|i: int| 0 <= i < ss.push(x).len() && ss.push(x)[i].key() == k;
        if i < ss.len() {
            assert(ss[i].key() == k);
            assert(has_session(ss, k));
        } else {
            assert(ss.push(x)[i] == x);
        }
    }
}

/// A key has a session after the creation walk exactly when it had one
/// before or some valid desired descriptor carries it.
proof fn lemma_create_all_has_key(ss: Seq<SessionV>, ds: Seq<AccountDescriptorV>, k: KeyV)
    ensures
        has_session(create_all(ss, ds), k) == (has_session(ss, k) || exists|i: int|
            0 <= i < ds.len() && (#[trigger] ds[i]).valid() && ds[i].key() == k),
    decreases ds.len(),
{
    if ds.len() == 0 {
    } else {
        let d0 = ds[0];
        let cs = create_step(ss, d0);
        lemma_create_all_has_key(cs, ds.skip(1), k);
        if d0.valid() && !has_session(ss, d0.key()) {
            lemma_has_session_push(ss, fresh_session(d0), k);
        }
        assert(has_session(cs, k) == (has_session(ss, k) || (d0.valid() && d0.key() == k)));
        if exists|i: int| 0 <= i < ds.len() && (#[trigger] ds[i]).valid() && ds[i].key() == k {
            let i = choose|i: int|
                0 <= i < ds.len() && (#[trigger] ds[i]).valid() && ds[i].key() == k;
            if i > 0 {
                assert(ds.skip(1)[i - 1] == ds[i]);
                assert(exists|t: int|
                    0 <= t < ds.skip(1).len() && (#[trigger] ds.skip(1)[t]).valid() && ds.skip(
                        1,
                    )[t].key() == k);
            }
        }
        if exists|t: int|
            0 <= t < ds.skip(1).len() && (#[trigger] ds.skip(1)[t]).valid() && ds.skip(1)[t].key()
                == k {
            let t = choose|t: int|
                0 <= t < ds.skip(1).len() && (#[trigger] ds.skip(1)[t]).valid() && ds.skip(
                    1,
                )[t].key() == k;
            assert(ds[t + 1] == ds.skip(1)[t]);
            assert(exists|i: int|
                0 <= i < ds.len() && (#[trigger] ds[i]).valid() && ds[i].key() == k);
        }
    }
}

/// When every valid desired key already has a session, the creation walk
/// changes nothing and creates nothing.
proof fn lemma_create_all_noop(ss: Seq<SessionV>, ds: Seq<AccountDescriptorV>)
    requires
        forall|i: int|
            0 <= i < ds.len() ==> ((#[trigger] ds[i]).valid() ==> has_session(ss, ds[i].key())),
    ensures
        create_all(ss, ds) == ss,
        created_keys(ss, ds) == Seq::<KeyV>::empty(),
    decreases ds.len(),
{
    if ds.len() == 0 {
    } else {
        assert(ds[0] == ds[0]);
        assert(create_step(ss, ds[0]) == ss);
        assert forall|i: int|
            0 <= i < ds.skip(1).len() implies ((#[trigger] ds.skip(1)[i]).valid() ==> has_session(
            ss,
            ds.skip(1)[i].key(),
        )) by {
            assert(ds.skip(1)[i] == ds[i + 1]);
        }
        lemma_create_all_noop(ss, ds.skip(1));
        assert(created_keys(ss, ds) == Seq::<KeyV>::empty() + created_keys(ss, ds.skip(1)));
        assert(Seq::<KeyV>::empty() + Seq::<KeyV>::empty() =~= Seq::<KeyV>::empty());
    }
}

/// When every live key is still desired, the teardown walk keeps everything
/// and signals nothing.
proof fn lemma_keep_live_noop(ss: Seq<SessionV>, ds: Seq<AccountDescriptorV>)
    requires
        forall|i: int| 0 <= i < ss.len() ==> desired_has_key(ds, (#[trigger] ss[i]).key()),
    ensures
        keep_live(ss, ds) == ss,
        stale_keys(ss, ds) == Seq::<KeyV>::empty(),
    decreases ss.len(),
{
    if ss.len() == 0 {
        assert(keep_live(ss, ds) =~= ss);
    } else {
        assert(desired_has_key(ds, ss[0].key()));
        assert forall|i: int|
            0 <= i < ss.skip(1).len() implies desired_has_key(
            ds,
            (#[trigger] ss.skip(1)[i]).key(),
        ) by {
            assert(ss.skip(1)[i] == ss[i + 1]);
        }
        lemma_keep_live_noop(ss.skip(1), ds);
        assert(keep_live(ss, ds) == seq![ss[0]] + ss.skip(1));
        assert(seq![ss[0]] + ss.skip(1) =~= ss);
    }
}

/// Every session the teardown walk keeps has a desired key.
proof fn lemma_keep_live_keys_desired(ss: Seq<SessionV>, ds: Seq<AccountDescriptorV>)
    ensures
        forall|i: int|
            0 <= i < keep_live(ss, ds).len() ==> desired_has_key(
                ds,
                (#[trigger] keep_live(ss, ds)[i]).key(),
            ),
    decreases ss.len(),
{
    if ss.len() == 0 {
    } else {
        lemma_keep_live_keys_desired(ss.skip(1), ds);
        let r = keep_live(ss, ds);
        let inner = keep_live(ss.skip(1), ds);
        assert forall|i: int| 0 <= i < r.len() implies desired_has_key(
            ds,
            (#[trigger] r[i]).key(),
        ) by {
            if desired_has_key(ds, ss[0].key()) {
                if i == 0 {
                    assert(r[0] == ss[0]);
                } else {
                    assert(r[i] == inner[i - 1]);
                }
            } else {
                assert(r[i] == inner[i]);
            }
        }
    }
}

/// A still-desired key keeps its session through the teardown walk.
proof fn lemma_keep_live_has_key(ss: Seq<SessionV>, ds: Seq<AccountDescriptorV>, k: KeyV)
    requires
        has_session(ss, k),
        desired_has_key(ds, k),
    ensures
        has_session(keep_live(ss, ds), k),
    decreases ss.len(),
{
    let i = choose|i: int| 0 <= i < ss.len() && ss[i].key() == k;
    let r = keep_live(ss, ds);
    let inner = keep_live(ss.skip(1), ds);
    if i == 0 {
        assert(desired_has_key(ds, ss[0].key()));
        assert(r[0] == ss[0]);
        assert(has_session(r, k));
    } else {
        assert(ss.skip(1)[i - 1] == ss[i]);
        assert(has_session(ss.skip(1), k));
        lemma_keep_live_has_key(ss.skip(1), ds, k);
        let w = choose|w: int| 0 <= w < inner.len() && inner[w].key() == k;
        if desired_has_key(ds, ss[0].key()) {
            assert(r[w + 1] == inner[w]);
            assert(has_session(r, k));
        } else {
            assert(r[w] == inner[w]);
            assert(has_session(r, k));
        }
    }
}

/// The creation walk preserves registry well-formedness.
proof fn lemma_create_all_wf(ss: Seq<SessionV>, ds: Seq<AccountDescriptorV>)
    requires
        registry_wf(ss),
    ensures
        registry_wf(create_all(ss, ds)),
    decreases ds.len(),
{
    if ds.len() == 0 {
    } else {
        let d0 = ds[0];
        let cs = create_step(ss, d0);
        if d0.valid() && !has_session(ss, d0.key()) {
            let f = fresh_session(d0);
            assert(f.wf());
            assert forall|a: int, b: int| 0 <= a < b < cs.len() implies cs[a].key() != cs[b].key()
            by {
                if b == ss.len() as int {
                    assert(cs[a] == ss[a]);
                    assert(cs[b] == f);
                    if ss[a].key() == d0.key() {
                        assert(has_session(ss, d0.key()));
                    }
                } else {
                    assert(cs[a] == ss[a] && cs[b] == ss[b]);
                }
            }
            assert forall|a: int| 0 <= a < cs.len() implies (#[trigger] cs[a]).wf() by {
                if a < ss.len() {
                    assert(cs[a] == ss[a]);
                } else {
                    assert(cs[a] == f);
                }
            }
        }
        lemma_create_all_wf(cs, ds.skip(1));
    }
}

/// Reconciliation preserves registry well-formedness.
pub proof fn lemma_reconcile_wf(ss: Seq<SessionV>, ds: Seq<AccountDescriptorV>)
    requires
        registry_wf(ss),
    ensures
        registry_wf(spec_reconcile(ss, ds)),
{
    lemma_create_all_wf(ss, ds);
    lemma_keep_live_wf(create_all(ss, ds), ds);
}

/// After one reconciliation pass, every valid desired key has a live session.
proof fn lemma_reconcile_covers(ss: Seq<SessionV>, ds: Seq<AccountDescriptorV>)
    ensures
        forall|i: int|
            0 <= i < ds.len() ==> ((#[trigger] ds[i]).valid() ==> has_session(
                spec_reconcile(ss, ds),
                ds[i].key(),
            )),
{
    let c = create_all(ss, ds);
    assert forall|i: int|
        0 <= i < ds.len() && (#[trigger] ds[i]).valid() implies has_session(
        spec_reconcile(ss, ds),
        ds[i].key(),
    ) by {
        lemma_create_all_has_key(ss, ds, ds[i].key());
        assert(has_session(c, ds[i].key()));
        assert(desired_has_key(ds, ds[i].key()));
        lemma_keep_live_has_key(c, ds, ds[i].key());
    }
}

/// Law: reconciliation is idempotent.  Running a second pass over the same
/// desired set creates no session, signals no teardown, and leaves the live
/// session sequence — every session's phase and correlation counter included
/// — exactly as the first pass left it.
pub proof fn lemma_reconcile_idempotent(ss: Seq<SessionV>, ds: Seq<AccountDescriptorV>)
    ensures
        ({
            let s1 = spec_reconcile(ss, ds);
            &&& spec_reconcile(s1, ds) == s1
            &&& created_keys(s1, ds) == Seq::<KeyV>::empty()
            &&& stale_keys(create_all(s1, ds), ds) == Seq::<KeyV>::empty()
        }),
{
    let c = create_all(ss, ds);
    let s1 = spec_reconcile(ss, ds);
    lemma_reconcile_covers(ss, ds);
    lemma_create_all_noop(s1, ds);
    lemma_keep_live_keys_desired(c, ds);
    lemma_keep_live_noop(s1, ds);
}

/// The desired-key predicate is unchanged by pushing a descriptor, except
/// for the new descriptor's own key.
proof fn lemma_desired_has_key_push(ds: Seq<AccountDescriptorV>, d: AccountDescriptorV, k: KeyV)
    ensures
        desired_has_key(ds.push(d), k) == (desired_has_key(ds, k) || d.key() == k),
{
    if desired_has_key(ds, k) {
        let i = choose|i: int| 0 <= i < ds.len() && ds[i].key() == k;
        assert(ds.push(d)[i] == ds[i]);
        assert(desired_has_key(ds.push(d), k));
    }
    if d.key() == k {
        assert(ds.push(d)[ds.len() as int] == d);
        assert(desired_has_key(ds.push(d), k));
    }
    if desired_has_key(ds.push(d), k) {
        let i = choose|i: int| 0 <= i < ds.push(d).len() && ds.push(d)[i].key() == k;
        if i < ds.len() {
            assert(ds[i].key() == k);
        } else {
            assert(ds.push(d)[i] == d);
        }
    }
}

/// Law: adding exactly one valid account with a fresh key to the desired set
/// makes the next reconciliation create exactly one session for it — fresh,
/// in `Connecting`, with the counter at its seed — and send zero teardown
/// signals; every existing session is untouched.
pub proof fn lemma_reconcile_one_added(
    ss: Seq<SessionV>,
    ds: Seq<AccountDescriptorV>,
    d: AccountDescriptorV,
)
    requires
        d.valid(),
        !desired_has_key(ds, d.key()),
    ensures
        ({
            let s1 = spec_reconcile(ss, ds);
            let ds2 = ds.push(d);
            &&& spec_reconcile(s1, ds2) == s1.push(fresh_session(d))
            &&& created_keys(s1, ds2) == seq![d.key()]
            &&& stale_keys(create_all(s1, ds2), ds2) == Seq::<KeyV>::empty()
        }),
{
    let c = create_all(ss, ds);
    let s1 = spec_reconcile(ss, ds);
    let ds2 = ds.push(d);
    let f = fresh_session(d);
    lemma_reconcile_covers(ss, ds);
    lemma_keep_live_keys_desired(c, ds);
    // the new key has no live session yet
    if has_session(s1, d.key()) {
        let i = choose|i: int| 0 <= i < s1.len() && s1[i].key() == d.key();
        assert(desired_has_key(ds, s1[i].key()));
    }
    assert(!has_session(s1, d.key()));
    // walking ds2 first walks ds (creating nothing), then d (creating one)
    lemma_create_all_extend_one(s1, ds, d);
    // nothing newly live is stale
    assert forall|i: int|
        0 <= i < s1.push(f).len() implies desired_has_key(
        ds2,
        (#[trigger] s1.push(f)[i]).key(),
    ) by {
        if i < s1.len() {
            assert(s1.push(f)[i] == s1[i]);
            lemma_desired_has_key_push(ds, d, s1[i].key());
        } else {
            assert(s1.push(f)[i] == f);
            lemma_desired_has_key_push(ds, d, f.key());
        }
    }
    lemma_keep_live_noop(s1.push(f), ds2);
}

/// Walking `ds.push(d)` over a set that already covers `ds` creates exactly
/// the session for `d`.
proof fn lemma_create_all_extend_one(
    s1: Seq<SessionV>,
    ds: Seq<AccountDescriptorV>,
    d: AccountDescriptorV,
)
    requires
        d.valid(),
        !has_session(s1, d.key()),
        forall|i: int|
            0 <= i < ds.len() ==> ((#[trigger] ds[i]).valid() ==> has_session(s1, ds[i].key())),
    ensures
        create_all(s1, ds.push(d)) == s1.push(fresh_session(d)),
        created_keys(s1, ds.push(d)) == seq![d.key()],
    decreases ds.len(),
{
    if ds.len() == 0 {
        let one = ds.push(d);
        assert(one[0] == d);
        assert(one.skip(1) =~= Seq::<AccountDescriptorV>::empty());
        assert(create_all(create_step(s1, d), Seq::<AccountDescriptorV>::empty()) == create_step(
            s1,
            d,
        ));
        assert(created_keys(create_step(s1, d), Seq::<AccountDescriptorV>::empty())
            == Seq::<KeyV>::empty());
        assert(create_all(s1, one) == create_step(s1, d));
        assert(created_keys(s1, one) == seq![d.key()] + Seq::<KeyV>::empty());
        assert(seq![d.key()] + Seq::<KeyV>::empty() =~= seq![d.key()]);
    } else {
        let one = ds.push(d);
        assert(one[0] == ds[0]);
        assert(create_step(s1, ds[0]) == s1);
        assert(one.skip(1) =~= ds.skip(1).push(d));
        assert forall|i: int|
            0 <= i < ds.skip(1).len() implies ((#[trigger] ds.skip(1)[i]).valid() ==> has_session(
            s1,
            ds.skip(1)[i].key(),
        )) by {
            assert(ds.skip(1)[i] == ds[i + 1]);
        }
        lemma_create_all_extend_one(s1, ds.skip(1), d);
        assert(created_keys(s1, one) == Seq::<KeyV>::empty() + created_keys(
            s1,
            ds.skip(1).push(d),
        ));
        assert(Seq::<KeyV>::empty() + seq![d.key()] =~= seq![d.key()]);
    }
}

/// The teardown walk over a set with exactly one no-longer-desired session
/// removes exactly that session and signals exactly its key.
proof fn lemma_keep_live_drop_one(ss: Seq<SessionV>, ds: Seq<AccountDescriptorV>, j: int)
    requires
        0 <= j < ss.len(),
        !desired_has_key(ds, ss[j].key()),
        forall|i: int|
            0 <= i < ss.len() && i != j ==> desired_has_key(ds, (#[trigger] ss[i]).key()),
    ensures
        keep_live(ss, ds) == ss.remove(j),
        stale_keys(ss, ds) == seq![ss[j].key()],
    decreases ss.len(),
{
    if j == 0 {
        assert forall|i: int|
            0 <= i < ss.skip(1).len() implies desired_has_key(
            ds,
            (#[trigger] ss.skip(1)[i]).key(),
        ) by {
            assert(ss.skip(1)[i] == ss[i + 1]);
        }
        lemma_keep_live_noop(ss.skip(1), ds);
        assert(ss.remove(0) =~= ss.skip(1));
        assert(seq![ss[0].key()] + Seq::<KeyV>::empty() =~= seq![ss[0].key()]);
    } else {
        assert(desired_has_key(ds, ss[0].key()));
        assert(ss.skip(1)[j - 1] == ss[j]);
        assert forall|i: int|
            0 <= i < ss.skip(1).len() && i != j - 1 implies desired_has_key(
            ds,
            (#[trigger] ss.skip(1)[i]).key(),
        ) by {
            assert(ss.skip(1)[i] == ss[i + 1]);
        }
        lemma_keep_live_drop_one(ss.skip(1), ds, j - 1);
        assert(keep_live(ss, ds) == seq![ss[0]] + ss.skip(1).remove(j - 1));
        assert(seq![ss[0]] + ss.skip(1).remove(j - 1) =~= ss.remove(j));
    }
}

/// Law: removing exactly one account — valid, and the only desired holder of
/// its key — makes the next reconciliation remove exactly that account's
/// session, send exactly one teardown signal (for its key), and create
/// nothing; every other session is untouched.
pub proof fn lemma_reconcile_one_removed(
    ss: Seq<SessionV>,
    ds: Seq<AccountDescriptorV>,
    at: int,
)
    requires
        registry_wf(ss),
        0 <= at < ds.len(),
        ds[at].valid(),
        forall|i: int|
            0 <= i < ds.len() && i != at ==> (#[trigger] ds[i]).key() != ds[at].key(),
    ensures
        ({
            let s1 = spec_reconcile(ss, ds);
            let ds2 = ds.remove(at);
            let k = ds[at].key();
            &&& has_session(s1, k)
            &&& create_all(s1, ds2) == s1
            &&& created_keys(s1, ds2) == Seq::<KeyV>::empty()
            &&& spec_reconcile(s1, ds2) == s1.remove(session_index(s1, k))
            &&& stale_keys(create_all(s1, ds2), ds2) == seq![k]
        }),
{
    let c = create_all(ss, ds);
    let s1 = spec_reconcile(ss, ds);
    let ds2 = ds.remove(at);
    let k = ds[at].key();
    lemma_reconcile_covers(ss, ds);
    assert(has_session(s1, k));
    lemma_keep_live_keys_desired(c, ds);
    lemma_reconcile_wf(ss, ds);
    // the removed key is no longer desired
    if desired_has_key(ds2, k) {
        let w = choose|w: int| 0 <= w < ds2.len() && ds2[w].key() == k;
        if w < at {
            assert(ds2[w] == ds[w]);
        } else {
            assert(ds2[w] == ds[w + 1]);
        }
        assert(false);
    }
    // every other live key is still desired
    assert forall|i: int|
        0 <= i < s1.len() && s1[i].key() != k implies desired_has_key(
        ds2,
        (#[trigger] s1[i]).key(),
    ) by {
        assert(desired_has_key(ds, s1[i].key()));
        let w = choose|w: int| 0 <= w < ds.len() && ds[w].key() == s1[i].key();
        assert(w != at);
        if w < at {
            assert(ds2[w] == ds[w]);
            assert(desired_has_key(ds2, s1[i].key()));
        } else {
            assert(ds2[w - 1] == ds[w]);
            assert(desired_has_key(ds2, s1[i].key()));
        }
    }
    // no session is created by the second pass
    assert forall|i: int|
        0 <= i < ds2.len() implies ((#[trigger] ds2[i]).valid() ==> has_session(s1, ds2[i].key()))
    by {
        if i < at {
            assert(ds2[i] == ds[i]);
        } else {
            assert(ds2[i] == ds[i + 1]);
        }
    }
    lemma_create_all_noop(s1, ds2);
    // exactly one live session holds the removed key
    let j = session_index(s1, k);
    assert(0 <= j < s1.len() && s1[j].key() == k);
    assert forall|i: int|
        0 <= i < s1.len() && i != j implies desired_has_key(ds2, (#[trigger] s1[i]).key()) by {
        if s1[i].key() == k {
            if i < j {
                assert(s1[i].key() != s1[j].key());
            } else {
                assert(s1[j].key() != s1[i].key());
            }
        }
    }
    lemma_keep_live_drop_one(s1, ds2, j);
}

/// The session state after a sequence of events, applied in order.
pub open spec fn run_state(s: SessionV, es: Seq<EventV>) -> SessionV
    decreases es.len(),
{
    if es.len() == 0 {
        s
    } else {
        run_state(step_state(s, es[0]), es.skip(1))
    }
}

/// The outbound requests a sequence of events causes, in order of issue.
pub open spec fn run_requests(s: SessionV, es: Seq<EventV>) -> Seq<OutboundRequestV>
    decreases es.len(),
{
    if es.len() == 0 {
        Seq::empty()
    } else {
        let head: Seq<OutboundRequestV> = match outbound(s.descriptor, s.request_id, s.phase, es[0]) {
            Some(o) => seq![o],
            None => Seq::empty(),
        };
        head + run_requests(step_state(s, es[0]), es.skip(1))
    }
}

/// A well-formed pipeline run: connected, authentication accepted, login
/// answered, settlement confirmed, then the seven query responses, each with
/// its last-in-batch flag set.
pub open spec fn pipeline_events(es: Seq<EventV>) -> bool {
    &&& es.len() == 11
    &&& es[0] is FrontConnected
    &&& (es[1] matches EventV::AuthenticateResponse { error_id } && error_id == 0)
    &&& es[2] is LoginResponse
    &&& es[3] is SettlementConfirmResponse
    &&& (es[4] matches EventV::TradingAccountResponse { is_last, .. } && is_last)
    &&& (es[5] matches EventV::PositionDetailResponse { is_last } && is_last)
    &&& (es[6] matches EventV::PositionResponse { is_last } && is_last)
    &&& (es[7] matches EventV::InstrumentResponse { is_last } && is_last)
    &&& (es[8] matches EventV::MarketDataResponse { is_last } && is_last)
    &&& (es[9] matches EventV::OrderResponse { is_last, .. } && is_last)
    &&& (es[10] matches EventV::TradeResponse { is_last } && is_last)
}

/// Law: a connecting session fed one well-formed pipeline run reaches
/// `Ready` after issuing exactly ten outbound requests — authenticate,
/// login, settlement confirmation, then the seven queries, in the pipeline's
/// order — under strictly increasing correlation ids.
pub proof fn lemma_pipeline_reaches_ready(s: SessionV, es: Seq<EventV>)
    requires
        s.phase is Connecting,
        pipeline_events(es),
    ensures
        run_state(s, es).phase is Ready,
        run_requests(s, es).len() == 10,
        forall|i: int|
            0 <= i < 10 ==> (#[trigger] run_requests(s, es)[i]).request_id == s.request_id + 1 + i,
        forall|i: int, j: int|
            0 <= i < j < 10 ==> run_requests(s, es)[i].request_id < run_requests(
                s,
                es,
            )[j].request_id,
        run_requests(s, es)[0].request is Authenticate,
        run_requests(s, es)[1].request is Login,
        run_requests(s, es)[2].request is SettlementInfoConfirm,
        run_requests(s, es)[3].request is QueryTradingAccount,
        run_requests(s, es)[4].request is QueryPositionDetail,
        run_requests(s, es)[5].request is QueryPosition,
        run_requests(s, es)[6].request is QueryInstrument,
        run_requests(s, es)[7].request is QueryMarketData,
        run_requests(s, es)[8].request is QueryOrders,
        run_requests(s, es)[9].request is QueryTrades,
{
    let s0 = s;
    let s1 = step_state(s0, es[0]);
    let s2 = step_state(s1, es[1]);
    let s3 = step_state(s2, es[2]);
    let s4 = step_state(s3, es[3]);
    let s5 = step_state(s4, es[4]);
    let s6 = step_state(s5, es[5]);
    let s7 = step_state(s6, es[6]);
    let s8 = step_state(s7, es[7]);
    let s9 = step_state(s8, es[8]);
    let s10 = step_state(s9, es[9]);
    let s11 = step_state(s10, es[10]);
    assert(s1.phase is Authenticating && s1.request_id == s0.request_id + 1);
    assert(s2.phase is LoggingIn && s2.request_id == s0.request_id + 2);
    assert(s3.phase is ConfirmingSettlement && s3.request_id == s0.request_id + 3);
    assert(s4.phase is QueryingAccount && s4.request_id == s0.request_id + 4);
    assert(s5.phase is QueryingPositionDetail && s5.request_id == s0.request_id + 5);
    assert(s6.phase is QueryingPosition && s6.request_id == s0.request_id + 6);
    assert(s7.phase is QueryingInstrument && s7.request_id == s0.request_id + 7);
    assert(s8.phase is QueryingMarketData && s8.request_id == s0.request_id + 8);
    assert(s9.phase is QueryingOrders && s9.request_id == s0.request_id + 9);
    assert(s10.phase is QueryingTrades && s10.request_id == s0.request_id + 10);
    assert(s11.phase is Ready && s11.request_id == s0.request_id + 10);
    assert(es.skip(1)[0] == es[1]);
    assert(es.skip(2)[0] == es[2]);
    assert(es.skip(3)[0] == es[3]);
    assert(es.skip(4)[0] == es[4]);
    assert(es.skip(5)[0] == es[5]);
    assert(es.skip(6)[0] == es[6]);
    assert(es.skip(7)[0] == es[7]);
    assert(es.skip(8)[0] == es[8]);
    assert(es.skip(9)[0] == es[9]);
    assert(es.skip(10)[0] == es[10]);
    assert(es.skip(1).skip(1) =~= es.skip(2));
    assert(es.skip(2).skip(1) =~= es.skip(3));
    assert(es.skip(3).skip(1) =~= es.skip(4));
    assert(es.skip(4).skip(1) =~= es.skip(5));
    assert(es.skip(5).skip(1) =~= es.skip(6));
    assert(es.skip(6).skip(1) =~= es.skip(7));
    assert(es.skip(7).skip(1) =~= es.skip(8));
    assert(es.skip(8).skip(1) =~= es.skip(9));
    assert(es.skip(9).skip(1) =~= es.skip(10));
    assert(es.skip(10).skip(1) =~= es.skip(11));
    lemma_run_unfold(s0, es, s1);
    lemma_run_unfold(s1, es.skip(1), s2);
    lemma_run_unfold(s2, es.skip(2), s3);
    lemma_run_unfold(s3, es.skip(3), s4);
    lemma_run_unfold(s4, es.skip(4), s5);
    lemma_run_unfold(s5, es.skip(5), s6);
    lemma_run_unfold(s6, es.skip(6), s7);
    lemma_run_unfold(s7, es.skip(7), s8);
    lemma_run_unfold(s8, es.skip(8), s9);
    lemma_run_unfold(s9, es.skip(9), s10);
    lemma_run_unfold(s10, es.skip(10), s11);
    assert(es.skip(11) =~= Seq::<EventV>::empty());
    assert(run_state(s11, es.skip(11)) == s11);
    assert(run_state(s, es) == s11);
    let o1 = outbound(s0.descriptor, s0.request_id, s0.phase, es[0]).unwrap();
    let o2 = outbound(s1.descriptor, s1.request_id, s1.phase, es[1]).unwrap();
    let o3 = outbound(s2.descriptor, s2.request_id, s2.phase, es[2]).unwrap();
    let o4 = outbound(s3.descriptor, s3.request_id, s3.phase, es[3]).unwrap();
    let o5 = outbound(s4.descriptor, s4.request_id, s4.phase, es[4]).unwrap();
    let o6 = outbound(s5.descriptor, s5.request_id, s5.phase, es[5]).unwrap();
    let o7 = outbound(s6.descriptor, s6.request_id, s6.phase, es[6]).unwrap();
    let o8 = outbound(s7.descriptor, s7.request_id, s7.phase, es[7]).unwrap();
    let o9 = outbound(s8.descriptor, s8.request_id, s8.phase, es[8]).unwrap();
    let o10 = outbound(s9.descriptor, s9.request_id, s9.phase, es[9]).unwrap();
    assert(run_requests(s10, es.skip(10)) == Seq::<OutboundRequestV>::empty() + run_requests(
        s11,
        es.skip(10).skip(1),
    ));
    assert(es.skip(10).skip(1) =~= Seq::<EventV>::empty());
    assert(run_requests(s11, Seq::<EventV>::empty()) == Seq::<OutboundRequestV>::empty());
    assert(run_requests(s10, es.skip(10)) =~= Seq::<OutboundRequestV>::empty());
    let reqs = run_requests(s, es);
    assert(reqs =~= seq![o1, o2, o3, o4, o5, o6, o7, o8, o9, o10]) by {
        assert(run_requests(s0, es) == seq![o1] + run_requests(s1, es.skip(1)));
        assert(run_requests(s1, es.skip(1)) == seq![o2] + run_requests(s2, es.skip(2)));
        assert(run_requests(s2, es.skip(2)) == seq![o3] + run_requests(s3, es.skip(3)));
        assert(run_requests(s3, es.skip(3)) == seq![o4] + run_requests(s4, es.skip(4)));
        assert(run_requests(s4, es.skip(4)) == seq![o5] + run_requests(s5, es.skip(5)));
        assert(run_requests(s5, es.skip(5)) == seq![o6] + run_requests(s6, es.skip(6)));
        assert(run_requests(s6, es.skip(6)) == seq![o7] + run_requests(s7, es.skip(7)));
        assert(run_requests(s7, es.skip(7)) == seq![o8] + run_requests(s8, es.skip(8)));
        assert(run_requests(s8, es.skip(8)) == seq![o9] + run_requests(s9, es.skip(9)));
        assert(run_requests(s9, es.skip(9)) == seq![o10] + run_requests(s10, es.skip(10)));
    }
    assert forall|i: int| 0 <= i < 10 implies (#[trigger] reqs[i]).request_id == s.request_id + 1
        + i by {
        assert(reqs == seq![o1, o2, o3, o4, o5, o6, o7, o8, o9, o10]);
    }
}

/// One unfolding of a run: the requests of a non-empty run are the head
/// step's request followed by the rest, and the state threads through.
proof fn lemma_run_unfold(s: SessionV, es: Seq<EventV>, s_next: SessionV)
    requires
        es.len() > 0,
        s_next == step_state(s, es[0]),
    ensures
        run_state(s, es) == run_state(s_next, es.skip(1)),
        run_requests(s, es) == (match outbound(s.descriptor, s.request_id, s.phase, es[0]) {
            Some(o) => seq![o],
            None => Seq::<OutboundRequestV>::empty(),
        }) + run_requests(s_next, es.skip(1)),
{
}

} // verus!

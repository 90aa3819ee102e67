//! Circuit breaker isolating failing plugin subprocesses.
//!
//! The breaker counts consecutive failures per plugin.  The failure that
//! brings the count to `FAILURE_THRESHOLD` moves the plugin into the bypass
//! (quarantine) set and drops its counter; a success drops the counter; a
//! manual reset drops both.  Persisting quarantine is the registry's business
//! and happens outside this type.

use vstd::prelude::*;
use crate::text::str_eq;

verus! {

/// Number of consecutive failures before a plugin is quarantined.
pub const FAILURE_THRESHOLD: u32 = 3;

/// The breaker as mathematical values: the running failure count of each
/// plugin that has one, and the set of quarantined plugins.
pub struct BreakerView {
    pub failures: Map<Seq<char>, nat>,
    pub quarantined: Set<Seq<char>>,
    pub workspace_key: Seq<char>,
}

/// The failure count of `id` (0 when it has none).
pub open spec fn count_of(v: BreakerView, id: Seq<char>) -> nat {
    if v.failures.contains_key(id) {
        v.failures[id]
    } else {
        0
    }
}

/// Every recorded count lies strictly between 0 and the threshold.
pub open spec fn view_wf(v: BreakerView) -> bool {
    forall|k: Seq<char>|
        #[trigger] v.failures.contains_key(k) ==> 1 <= v.failures[k] < FAILURE_THRESHOLD
}

/// The state after one failure of `id`.
pub open spec fn fail_step(v: BreakerView, id: Seq<char>) -> BreakerView {
    let c = count_of(v, id) + 1;
    if c >= FAILURE_THRESHOLD {
        BreakerView {
            failures: v.failures.remove(id),
            quarantined: v.quarantined.insert(id),
            workspace_key: v.workspace_key,
        }
    } else {
        BreakerView {
            failures: v.failures.insert(id, c),
            quarantined: v.quarantined,
            workspace_key: v.workspace_key,
        }
    }
}

/// The state after one success of `id`.
pub open spec fn success_step(v: BreakerView, id: Seq<char>) -> BreakerView {
    BreakerView {
        failures: v.failures.remove(id),
        quarantined: v.quarantined,
        workspace_key: v.workspace_key,
    }
}

/// The state after a manual reset of `id`.
pub open spec fn clear_step(v: BreakerView, id: Seq<char>) -> BreakerView {
    BreakerView {
        failures: v.failures.remove(id),
        quarantined: v.quarantined.remove(id),
        workspace_key: v.workspace_key,
    }
}

/// The state after quarantining each of `ids`.
pub open spec fn seed_step(v: BreakerView, ids: Seq<Seq<char>>) -> BreakerView {
    BreakerView {
        failures: v.failures,
        quarantined: v.quarantined.union(ids.to_set()),
        workspace_key: v.workspace_key,
    }
}

/// In-process circuit breaker tracking consecutive failures per plugin.
pub struct CircuitBreaker {
    failures: Vec<(String, u32)>,
    quarantined: Vec<String>,
    workspace_key: String,
}

/// Some entry of `fs` is keyed by `k`.
pub open spec fn has_key(fs: Seq<(String, u32)>, k: Seq<char>) -> bool {
    exists|i: int| 0 <= i < fs.len() && (#[trigger] fs[i]).0@ == k
}

/// The count stored under `k` in `fs`.
pub open spec fn count_in(fs: Seq<(String, u32)>, k: Seq<char>) -> nat {
    fs[choose|i: int| 0 <= i < fs.len() && (#[trigger] fs[i]).0@ == k].1 as nat
}

/// Some element of `qs` is `k`.
pub open spec fn has_name(qs: Seq<String>, k: Seq<char>) -> bool {
    exists|i: int| 0 <= i < qs.len() && (#[trigger] qs[i])@ == k
}

impl View for CircuitBreaker {
    type V = BreakerView;

    closed spec fn view(&self) -> BreakerView {
        BreakerView {
            failures: Map::new(
                |k: Seq<char>| has_key(self.failures@, k),
                |k: Seq<char>| count_in(self.failures@, k),
            ),
            quarantined: Set::new(|k: Seq<char>| has_name(self.quarantined@, k)),
            workspace_key: self.workspace_key@,
        }
    }
}

impl CircuitBreaker {
    /// The failure entries are keyed by distinct plugins, each with a count
    /// strictly between 0 and the threshold.
    pub closed spec fn wf(&self) -> bool {
        let fs = self.failures@;
        &&& forall|i: int, j: int|
            0 <= i < j < fs.len() ==> (#[trigger] fs[i]).0@ != (#[trigger] fs[j]).0@
        &&& forall|i: int| 0 <= i < fs.len() ==> 1 <= (#[trigger] fs[i]).1 < FAILURE_THRESHOLD
    }

    proof fn lemma_wf_view(&self)
        requires
            self.wf(),
        ensures
            view_wf(self@),
    {
        assert forall|k: Seq<char>| #[trigger] self@.failures.contains_key(k) implies 1
            <= self@.failures[k] < FAILURE_THRESHOLD by {
            let fs = self.failures@;
            let i = choose|i: int| 0 <= i < fs.len() && (#[trigger] fs[i]).0@ == k;
            assert(0 <= i < fs.len() && fs[i].0@ == k);
        }
    }

    /// A breaker with no failures and no quarantined plugin.
    pub fn new(workspace_key: &str) -> (b: Self)
        ensures
            b.wf(),
            b@.failures == Map::<Seq<char>, nat>::empty(),
            b@.quarantined == Set::<Seq<char>>::empty(),
            b@.workspace_key == workspace_key@,
    {
        let b = CircuitBreaker {
            failures: Vec::new(),
            quarantined: Vec::new(),
            workspace_key: String::from_str(workspace_key),
        };
        assert(b@.failures =~= Map::<Seq<char>, nat>::empty());
        assert(b@.quarantined =~= Set::<Seq<char>>::empty());
        b
    }

    fn find_failure(&self, id: &str) -> (r: Option<usize>)
        ensures
            match r {
                Some(i) => i < self.failures@.len() && self.failures@[i as int].0@ == id@,
                None => !has_key(self.failures@, id@),
            },
    {
        let mut i: usize = 0;
        while i < self.failures.len()
            invariant
                i <= self.failures@.len(),
                forall|j: int| 0 <= j < i ==> (#[trigger] self.failures@[j]).0@ != id@,
            decreases self.failures@.len() - i,
        {
            if str_eq(self.failures[i].0.as_str(), id) {
                return Some(i);
            }
            i = i + 1;
        }
        None
    }

    fn find_quarantined(&self, id: &str) -> (r: Option<usize>)
        ensures
            match r {
                Some(i) => i < self.quarantined@.len() && self.quarantined@[i as int]@ == id@,
                None => !has_name(self.quarantined@, id@),
            },
    {
        let mut i: usize = 0;
        while i < self.quarantined.len()
            invariant
                i <= self.quarantined@.len(),
                forall|j: int| 0 <= j < i ==> (#[trigger] self.quarantined@[j])@ != id@,
            decreases self.quarantined@.len() - i,
        {
            if str_eq(self.quarantined[i].as_str(), id) {
                return Some(i);
            }
            i = i + 1;
        }
        None
    }

    /// Whether the plugin is currently bypassed (quarantined).
    pub fn is_bypassed(&self, plugin_id: &str) -> (r: bool)
        ensures
            r == self@.quarantined.contains(plugin_id@),
    {
        self.find_quarantined(plugin_id).is_some()
    }

    /// Adds `id` to the quarantine set.
    fn quarantine(&mut self, id: &str)
        ensures
            final(self).failures == old(self).failures,
            final(self).workspace_key == old(self).workspace_key,
            final(self)@.quarantined == old(self)@.quarantined.insert(id@),
    {
        if self.find_quarantined(id).is_none() {
            self.quarantined.push(String::from_str(id));
            let ghost qs = self.quarantined@;
            assert(self@.quarantined =~= old(self)@.quarantined.insert(id@)) by {
                assert forall|k: Seq<char>| #[trigger] self@.quarantined.contains(k) ==
                    old(self)@.quarantined.insert(id@).contains(k) by {
                    if has_name(qs, k) {
                        let i = choose|i: int| 0 <= i < qs.len() && (#[trigger] qs[i])@ == k;
                        if i < qs.len() - 1 {
                            assert(old(self).quarantined@[i]@ == k);
                        }
                    }
                    if has_name(old(self).quarantined@, k) {
                        let i = choose|i: int|
                            0 <= i < old(self).quarantined@.len() && (#[trigger] old(
                                self,
                            ).quarantined@[i])@ == k;
                        assert(qs[i]@ == k);
                    }
                    if k == id@ {
                        assert(qs[qs.len() - 1]@ == k);
                    }
                }
            }
        } else {
            assert(self@.quarantined =~= old(self)@.quarantined.insert(id@));
        }
    }

    /// Removes the failure entry of `id`, if any.
    fn drop_failures(&mut self, id: &str)
        requires
            old(self).wf(),
        ensures
            final(self).wf(),
            final(self).quarantined == old(self).quarantined,
            final(self).workspace_key == old(self).workspace_key,
            final(self)@.failures == old(self)@.failures.remove(id@),
    {
        match self.find_failure(id) {
            None => {
                assert(self@.failures =~= old(self)@.failures.remove(id@));
            },
            Some(i) => {
                let ghost fs0 = self.failures@;
                self.failures.remove(i);
                let ghost fs = self.failures@;
                assert(fs =~= fs0.remove(i as int));
                assert forall|a: int, b: int| 0 <= a < b < fs.len() implies (#[trigger] fs[a]).0@
                    != (#[trigger] fs[b]).0@ by {
                    let a0 = if a < i { a } else { a + 1 };
                    let b0 = if b < i { b } else { b + 1 };
                    assert(fs[a] == fs0[a0] && fs[b] == fs0[b0]);
                }
                assert forall|a: int| 0 <= a < fs.len() implies 1 <= (#[trigger] fs[a]).1
                    < FAILURE_THRESHOLD by {
                    let a0 = if a < i { a } else { a + 1 };
                    assert(fs[a] == fs0[a0]);
                }
                assert forall|k: Seq<char>| #[trigger] has_key(fs, k) == (has_key(fs0, k) && k
                    != id@) by {
                    if has_key(fs, k) {
                        let a = choose|a: int| 0 <= a < fs.len() && (#[trigger] fs[a]).0@ == k;
                        let a0 = if a < i { a } else { a + 1 };
                        assert(fs[a] == fs0[a0]);
                    }
                    if has_key(fs0, k) && k != id@ {
                        let a0 = choose|a: int| 0 <= a < fs0.len() && (#[trigger] fs0[a]).0@ == k;
                        let a = if a0 < i { a0 } else { a0 - 1 };
                        assert(fs[a] == fs0[a0]);
                    }
                }
                assert forall|k: Seq<char>| #[trigger] has_key(fs, k) implies count_in(fs, k)
                    == count_in(fs0, k) by {
                    let a = choose|a: int| 0 <= a < fs.len() && (#[trigger] fs[a]).0@ == k;
                    let a0 = choose|a: int| 0 <= a < fs0.len() && (#[trigger] fs0[a]).0@ == k;
                    let a1 = if a < i { a } else { a + 1 };
                    assert(fs[a] == fs0[a1]);
                    assert(a1 == a0);
                }
                assert(self@.failures =~= old(self)@.failures.remove(id@));
            },
        }
    }

    /// Records a failure.  The failure that brings the count to
    /// `FAILURE_THRESHOLD` quarantines the plugin and drops its counter.
    pub fn record_failure(&mut self, plugin_id: &str)
        requires
            old(self).wf(),
        ensures
            final(self).wf(),
            final(self)@ == fail_step(old(self)@, plugin_id@),
    {
        let ghost v0 = self@;
        match self.find_failure(plugin_id) {
            None => {
                let c: u32 = 1;
                if c >= FAILURE_THRESHOLD {
                    self.quarantine(plugin_id);
                } else {
                    let ghost fs0 = self.failures@;
                    self.failures.push((String::from_str(plugin_id), c));
                    let ghost fs = self.failures@;
                    assert forall|k: Seq<char>| #[trigger] has_key(fs, k) == (has_key(fs0, k)
                        || k == plugin_id@) by {
                        if has_key(fs, k) {
                            let a = choose|a: int| 0 <= a < fs.len() && (#[trigger] fs[a]).0@ == k;
                            if a < fs0.len() {
                                assert(fs0[a] == fs[a]);
                            }
                        }
                        if has_key(fs0, k) {
                            let a = choose|a: int|
                                0 <= a < fs0.len() && (#[trigger] fs0[a]).0@ == k;
                            assert(fs[a] == fs0[a]);
                        }
                        if k == plugin_id@ {
                            assert(fs[fs.len() - 1].0@ == k);
                        }
                    }
                    assert forall|k: Seq<char>| #[trigger] has_key(fs, k) implies count_in(fs, k)
                        == (if k == plugin_id@ {
                        1
                    } else {
                        count_in(fs0, k)
                    }) by {
                        let a = choose|a: int| 0 <= a < fs.len() && (#[trigger] fs[a]).0@ == k;
                        if k == plugin_id@ {
                            assert(a == fs.len() - 1);
                        } else {
                            let a0 = choose|a: int|
                                0 <= a < fs0.len() && (#[trigger] fs0[a]).0@ == k;
                            assert(fs[a0] == fs0[a0]);
                            assert(a < fs0.len());
                            assert(fs[a] == fs0[a]);
                        }
                    }
                    assert(self@.failures =~= v0.failures.insert(plugin_id@, 1));
                    assert(self@.quarantined =~= v0.quarantined);
                }
            },
            Some(i) => {
                proof {
                    self.lemma_wf_view();
                    assert(v0.failures.contains_key(plugin_id@));
                }
                let c = self.failures[i].1 + 1;
                assert(c == count_of(v0, plugin_id@) + 1) by {
                    let fs = self.failures@;
                    let a = choose|a: int| 0 <= a < fs.len() && (#[trigger] fs[a]).0@ == plugin_id@;
                    assert(a == i);
                }
                if c >= FAILURE_THRESHOLD {
                    self.drop_failures(plugin_id);
                    self.quarantine(plugin_id);
                } else {
                    let ghost fs0 = self.failures@;
                    self.failures.set(i, (String::from_str(plugin_id), c));
                    let ghost fs = self.failures@;
                    assert(fs0[i as int].0@ == plugin_id@ && fs[i as int].0@ == plugin_id@);
                    assert forall|k: Seq<char>| #[trigger] has_key(fs, k) == has_key(fs0, k) by {
                        if has_key(fs, k) {
                            let a = choose|a: int| 0 <= a < fs.len() && (#[trigger] fs[a]).0@ == k;
                            if a != i {
                                assert(fs0[a] == fs[a]);
                            }
                        }
                        if has_key(fs0, k) {
                            let a = choose|a: int|
                                0 <= a < fs0.len() && (#[trigger] fs0[a]).0@ == k;
                            if a != i {
                                assert(fs[a] == fs0[a]);
                            }
                        }
                    }
                    assert forall|k: Seq<char>| #[trigger] has_key(fs, k) implies count_in(fs, k)
                        == (if k == plugin_id@ {
                        c as nat
                    } else {
                        count_in(fs0, k)
                    }) by {
                        let a = choose|a: int| 0 <= a < fs.len() && (#[trigger] fs[a]).0@ == k;
                        let a0 = choose|a: int| 0 <= a < fs0.len() && (#[trigger] fs0[a]).0@ == k;
                        if k == plugin_id@ {
                            assert(a == i);
                        } else {
                            assert(a != i);
                            assert(fs[a] == fs0[a]);
                        }
                    }
                    assert(self@.failures =~= v0.failures.insert(plugin_id@, c as nat));
                    assert(self@.quarantined =~= v0.quarantined);
                }
            },
        }
    }

    /// Drops the failure counter of the plugin after a successful call.
    pub fn record_success(&mut self, plugin_id: &str)
        requires
            old(self).wf(),
        ensures
            final(self).wf(),
            final(self)@ == success_step(old(self)@, plugin_id@),
    {
        self.drop_failures(plugin_id);
        assert(self@.quarantined =~= old(self)@.quarantined);
    }

    /// Clears the quarantine and the failure counter of the plugin (the
    /// manual reset path).
    pub fn clear_quarantine(&mut self, plugin_id: &str)
        requires
            old(self).wf(),
        ensures
            final(self).wf(),
            final(self)@ == clear_step(old(self)@, plugin_id@),
    {
        let ghost v0 = self@;
        let mut kept: Vec<String> = Vec::new();
        let mut i: usize = 0;
        while i < self.quarantined.len()
            invariant
                i <= self.quarantined@.len(),
                self.quarantined@ == old(self).quarantined@,
                forall|k: Seq<char>| #[trigger] has_name(kept@, k) == (k != plugin_id@ && exists|
                    j: int,
                | 0 <= j < i && (#[trigger] self.quarantined@[j])@ == k),
            decreases self.quarantined@.len() - i,
        {
            let ghost k0 = kept@;
            if !str_eq(self.quarantined[i].as_str(), plugin_id) {
                kept.push(self.quarantined[i].clone());
            }
            proof {
                assert forall|k: Seq<char>| #[trigger] has_name(kept@, k) == (k != plugin_id@
                    && exists|j: int| 0 <= j < i + 1 && (#[trigger] self.quarantined@[j])@ == k) by {
                    if has_name(kept@, k) {
                        let a = choose|a: int| 0 <= a < kept@.len() && (#[trigger] kept@[a])@ == k;
                        if a < k0.len() {
                            assert(k0[a] == kept@[a]);
                            assert(has_name(k0, k));
                        } else {
                            assert(self.quarantined@[i as int]@ == k);
                        }
                    }
                    if k != plugin_id@ && exists|j: int|
                        0 <= j < i + 1 && (#[trigger] self.quarantined@[j])@ == k {
                        let j = choose|j: int|
                            0 <= j < i + 1 && (#[trigger] self.quarantined@[j])@ == k;
                        if j < i {
                            assert(has_name(k0, k));
                            let a = choose|a: int| 0 <= a < k0.len() && (#[trigger] k0[a])@ == k;
                            assert(kept@[a] == k0[a]);
                        } else {
                            assert(kept@[kept@.len() - 1]@ == k);
                        }
                    }
                }
            }
            i = i + 1;
        }
        self.quarantined = kept;
        assert(self@.quarantined =~= v0.quarantined.remove(plugin_id@));
        self.drop_failures(plugin_id);
        assert(self@.quarantined =~= v0.quarantined.remove(plugin_id@));
    }

    /// Quarantines every plugin of `quarantined_ids` (the plugins whose
    /// registry status is quarantined, on startup).
    pub fn seed_quarantined(&mut self, quarantined_ids: &[String])
        requires
            old(self).wf(),
        ensures
            final(self).wf(),
            final(self)@ == seed_step(
                old(self)@,
                quarantined_ids@.map_values(|s: String| s@),
            ),
    {
        let ghost v0 = self@;
        let ghost ids = quarantined_ids@.map_values(|s: String| s@);
        let mut i: usize = 0;
        while i < quarantined_ids.len()
            invariant
                i <= quarantined_ids@.len(),
                ids == quarantined_ids@.map_values(|s: String| s@),
                self.wf(),
                self.failures == old(self).failures,
                self.workspace_key == old(self).workspace_key,
                self@.quarantined == v0.quarantined.union(ids.subrange(0, i as int).to_set()),
            decreases quarantined_ids@.len() - i,
        {
            self.quarantine(quarantined_ids[i].as_str());
            assert(ids.subrange(0, i + 1).to_set() =~= ids.subrange(0, i as int).to_set().insert(
                ids[i as int],
            )) by {
                assert(ids.subrange(0, i + 1) =~= ids.subrange(0, i as int).push(ids[i as int]));
                ids.subrange(0, i as int).lemma_push_to_set_commute(ids[i as int]);
            }
            assert(self@.quarantined =~= v0.quarantined.union(
                ids.subrange(0, i + 1).to_set(),
            ));
            i = i + 1;
        }
        assert(ids.subrange(0, ids.len() as int) =~= ids);
        assert(self@.failures == v0.failures);
    }
}

// ---------------------------------------------------------------------------
// Laws
// ---------------------------------------------------------------------------

/// Every step keeps the counts strictly between 0 and the threshold.
pub proof fn lemma_steps_keep_wf(v: BreakerView, id: Seq<char>, ids: Seq<Seq<char>>)
    requires
        view_wf(v),
    ensures
        view_wf(fail_step(v, id)),
        view_wf(success_step(v, id)),
        view_wf(clear_step(v, id)),
        view_wf(seed_step(v, ids)),
{
}

/// Three consecutive failures of a plugin always leave it quarantined, from
/// any state.
pub proof fn lemma_third_failure_quarantines(v: BreakerView, id: Seq<char>)
    ensures
        fail_step(fail_step(fail_step(v, id), id), id).quarantined.contains(id),
{
}

/// After a success, a plugin that is not quarantined stays unquarantined
/// through two further failures and is quarantined by the third.
pub proof fn lemma_success_resets_counter(v: BreakerView, id: Seq<char>)
    requires
        !v.quarantined.contains(id),
    ensures
        count_of(success_step(v, id), id) == 0,
        !fail_step(fail_step(success_step(v, id), id), id).quarantined.contains(id),
        fail_step(fail_step(fail_step(success_step(v, id), id), id), id).quarantined.contains(id),
{
}

/// A manual reset lifts the quarantine and restarts the count: the plugin
/// is then quarantined again only by a third consecutive failure.
pub proof fn lemma_clear_quarantine_restarts(v: BreakerView, id: Seq<char>)
    ensures
        !clear_step(v, id).quarantined.contains(id),
        count_of(clear_step(v, id), id) == 0,
        !fail_step(fail_step(clear_step(v, id), id), id).quarantined.contains(id),
        fail_step(fail_step(fail_step(clear_step(v, id), id), id), id).quarantined.contains(id),
{
}

/// A step on one plugin leaves every other plugin's count and quarantine
/// status unchanged.
pub proof fn lemma_steps_isolate_plugins(v: BreakerView, id: Seq<char>, other: Seq<char>)
    requires
        other != id,
    ensures
        count_of(fail_step(v, id), other) == count_of(v, other),
        fail_step(v, id).quarantined.contains(other) == v.quarantined.contains(other),
        count_of(success_step(v, id), other) == count_of(v, other),
        success_step(v, id).quarantined.contains(other) == v.quarantined.contains(other),
        count_of(clear_step(v, id), other) == count_of(v, other),
        clear_step(v, id).quarantined.contains(other) == v.quarantined.contains(other),
{
}

/// A failure never lifts a quarantine.
pub proof fn lemma_failure_keeps_quarantine(v: BreakerView, id: Seq<char>, q: Seq<char>)
    requires
        v.quarantined.contains(q),
    ensures
        fail_step(v, id).quarantined.contains(q),
        success_step(v, id).quarantined.contains(q),
{
}

/// What a breaker call does: a failure, a success, or a manual reset.
pub enum CallKind {
    Failure,
    Success,
    Clear,
}

/// One call on a breaker: its kind and the plugin it names.
pub struct BreakerCall {
    pub kind: CallKind,
    pub plugin: Seq<char>,
}

/// The state after one call.
pub open spec fn call_step(v: BreakerView, c: BreakerCall) -> BreakerView {
    match c.kind {
        CallKind::Failure => fail_step(v, c.plugin),
        CallKind::Success => success_step(v, c.plugin),
        CallKind::Clear => clear_step(v, c.plugin),
    }
}

/// The state after a sequence of calls, in order.
pub open spec fn run_calls(v: BreakerView, calls: Seq<BreakerCall>) -> BreakerView
    decreases calls.len(),
{
    if calls.len() == 0 {
        v
    } else {
        call_step(run_calls(v, calls.drop_last()), calls.last())
    }
}

/// The state of a new breaker (`CircuitBreaker::new`).
pub open spec fn fresh_view(workspace_key: Seq<char>) -> BreakerView {
    BreakerView { failures: Map::empty(), quarantined: Set::empty(), workspace_key }
}

/// The kinds of the calls that name plugin `p`, in order.
pub open spec fn calls_on(calls: Seq<BreakerCall>, p: Seq<char>) -> Seq<CallKind>
    decreases calls.len(),
{
    if calls.len() == 0 {
        Seq::empty()
    } else if calls.last().plugin == p {
        calls_on(calls.drop_last(), p).push(calls.last().kind)
    } else {
        calls_on(calls.drop_last(), p)
    }
}

/// Three failures follow one another from position `i` of `ks`, with no
/// other call between them and no reset after them.
pub open spec fn strike_at(ks: Seq<CallKind>, i: int) -> bool {
    &&& 0 <= i && i + 2 < ks.len()
    &&& ks[i] is Failure && ks[i + 1] is Failure && ks[i + 2] is Failure
    &&& forall|m: int| i + 2 < m < ks.len() ==> !(#[trigger] ks[m] is Clear)
}

/// Three failures follow one another with no other call between them, and
/// no reset comes after them.
pub open spec fn three_failures_since_clear(ks: Seq<CallKind>) -> bool {
    exists|i: int| #[trigger] strike_at(ks, i)
}

/// The number of failures at the end of `ks` with no other call after them.
pub open spec fn trailing_failures(ks: Seq<CallKind>) -> nat
    decreases ks.len(),
{
    if ks.len() > 0 && ks.last() is Failure {
        trailing_failures(ks.drop_last()) + 1
    } else {
        0
    }
}

proof fn lemma_trailing_failures_at(ks: Seq<CallKind>, j: int)
    requires
        0 <= j < trailing_failures(ks),
    ensures
        j < ks.len(),
        ks[ks.len() - 1 - j] is Failure,
    decreases ks.len(),
{
    if j > 0 {
        lemma_trailing_failures_at(ks.drop_last(), j - 1);
    }
}

proof fn lemma_trailing_three(ks: Seq<CallKind>)
    requires
        trailing_failures(ks) >= 3,
    ensures
        three_failures_since_clear(ks),
{
    let n = ks.len() as int;
    lemma_trailing_failures_at(ks, 0);
    lemma_trailing_failures_at(ks, 1);
    lemma_trailing_failures_at(ks, 2);
    assert(strike_at(ks, n - 3));
}

proof fn lemma_strikes_clear(ks: Seq<CallKind>)
    ensures
        !three_failures_since_clear(ks.push(CallKind::Clear)),
{
    let ks2 = ks.push(CallKind::Clear);
    let n = ks.len() as int;
    if three_failures_since_clear(ks2) {
        let i = choose|i: int| strike_at(ks2, i);
        assert(ks2[n] is Clear);
    }
}

proof fn lemma_strikes_grow(ks: Seq<CallKind>, k: CallKind)
    requires
        !(k is Clear),
        three_failures_since_clear(ks),
    ensures
        three_failures_since_clear(ks.push(k)),
{
    let ks2 = ks.push(k);
    let n = ks.len() as int;
    let i = choose|i: int| strike_at(ks, i);
    assert(ks2[i] == ks[i] && ks2[i + 1] == ks[i + 1] && ks2[i + 2] == ks[i + 2]);
    assert forall|m: int| i + 2 < m < ks2.len() implies !(#[trigger] ks2[m] is Clear) by {
        if m < n {
            assert(ks2[m] == ks[m]);
        }
    }
    assert(strike_at(ks2, i));
}

proof fn lemma_strikes_shrink(ks: Seq<CallKind>, k: CallKind)
    requires
        !(k is Clear),
        three_failures_since_clear(ks.push(k)),
    ensures
        three_failures_since_clear(ks) || (k is Failure && trailing_failures(ks) >= 2),
{
    let ks2 = ks.push(k);
    let n = ks.len() as int;
    let i = choose|i: int| strike_at(ks2, i);
    if i + 2 < n {
        assert(ks[i] == ks2[i] && ks[i + 1] == ks2[i + 1] && ks[i + 2] == ks2[i + 2]);
        assert forall|m: int| i + 2 < m < n implies !(#[trigger] ks[m] is Clear) by {
            assert(ks2[m] == ks[m]);
        }
        assert(strike_at(ks, i));
    } else {
        assert(ks2[n] == k);
        assert(ks[n - 1] == ks2[n - 1] && ks[n - 2] == ks2[n - 2]);
        assert(ks.drop_last().last() == ks[n - 2]);
        assert(trailing_failures(ks.drop_last()) >= 1);
    }
}

proof fn lemma_strikes_failure(ks: Seq<CallKind>)
    requires
        trailing_failures(ks) >= 2,
    ensures
        three_failures_since_clear(ks.push(CallKind::Failure)),
{
    let ks2 = ks.push(CallKind::Failure);
    let n = ks.len() as int;
    lemma_trailing_failures_at(ks, 0);
    lemma_trailing_failures_at(ks, 1);
    assert(ks2[n - 2] == ks[n - 2] && ks2[n - 1] == ks[n - 1] && ks2[n] is Failure);
    assert forall|m: int| n < m < ks2.len() implies !(#[trigger] ks2[m] is Clear) by {}
    assert(strike_at(ks2, n - 2));
}

/// One call on `p`, from a state that agrees with the calls on `p` so far.
proof fn lemma_call_on_plugin(v: BreakerView, ks: Seq<CallKind>, k: CallKind, p: Seq<char>)
    requires
        v.quarantined.contains(p) == three_failures_since_clear(ks),
        count_of(v, p) == trailing_failures(ks) % (FAILURE_THRESHOLD as nat),
    ensures
        call_step(v, BreakerCall { kind: k, plugin: p }).quarantined.contains(p)
            == three_failures_since_clear(ks.push(k)),
        count_of(call_step(v, BreakerCall { kind: k, plugin: p }), p) == trailing_failures(
            ks.push(k),
        ) % (FAILURE_THRESHOLD as nat),
{
    let t = trailing_failures(ks);
    assert(ks.push(k).drop_last() =~= ks);
    match k {
        CallKind::Failure => {
            assert(trailing_failures(ks.push(k)) == t + 1);
            if three_failures_since_clear(ks) {
                lemma_strikes_grow(ks, k);
            }
            if three_failures_since_clear(ks.push(k)) {
                lemma_strikes_shrink(ks, k);
            }
            if t % 3 == 2 {
                assert((t + 1) % 3 == 0) by (nonlinear_arith)
                    requires
                        t % 3 == 2,
                ;
                lemma_strikes_failure(ks);
            } else {
                assert((t + 1) % 3 == t % 3 + 1) by (nonlinear_arith)
                    requires
                        t % 3 != 2,
                ;
                if t >= 2 {
                    lemma_trailing_three(ks);
                    lemma_strikes_grow(ks, k);
                }
            }
        },
        CallKind::Success => {
            if three_failures_since_clear(ks) {
                lemma_strikes_grow(ks, k);
            }
            if three_failures_since_clear(ks.push(k)) {
                lemma_strikes_shrink(ks, k);
            }
        },
        CallKind::Clear => {
            lemma_strikes_clear(ks);
        },
    }
}

/// The breaker law over any sequence of calls on a new breaker: a plugin is
/// quarantined exactly when, among the calls that name it, three failures
/// follow one another with no success between them and no reset after them;
/// its running count is the number of failures since its last other call,
/// modulo the threshold.  Calls that name other plugins play no part: both
/// sides depend on the calls that name it alone.
pub proof fn lemma_quarantine_follows_calls(
    workspace_key: Seq<char>,
    calls: Seq<BreakerCall>,
    p: Seq<char>,
)
    ensures
        run_calls(fresh_view(workspace_key), calls).quarantined.contains(p)
            == three_failures_since_clear(calls_on(calls, p)),
        count_of(run_calls(fresh_view(workspace_key), calls), p) == trailing_failures(
            calls_on(calls, p),
        ) % (FAILURE_THRESHOLD as nat),
    decreases calls.len(),
{
    if calls.len() > 0 {
        let prev = calls.drop_last();
        let c = calls.last();
        lemma_quarantine_follows_calls(workspace_key, prev, p);
        let v = run_calls(fresh_view(workspace_key), prev);
        let ks = calls_on(prev, p);
        assert(run_calls(fresh_view(workspace_key), calls) == call_step(v, c));
        if c.plugin == p {
            assert(calls_on(calls, p) == ks.push(c.kind));
            lemma_call_on_plugin(v, ks, c.kind, p);
            assert(c == BreakerCall { kind: c.kind, plugin: p });
        } else {
            assert(calls_on(calls, p) == ks);
            lemma_steps_isolate_plugins(v, c.plugin, p);
        }
    } else {
        assert(calls_on(calls, p) =~= Seq::<CallKind>::empty());
    }
}

} // verus!

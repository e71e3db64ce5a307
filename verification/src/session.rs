//! A set of held assertions and the "how long to hold" policies.
//!
//! Times are nanoseconds on a monotonic clock whose origin the caller picks;
//! the caller reads the clock and sleeps, and the session decides what to
//! release and how long to sleep next.

use vstd::prelude::*;
use crate::{AssertionKind, AssertionRequest};
use crate::backend::BackendError;

verus! {

/// What a held assertion is, apart from the operating system object behind it.
pub struct HandleView {
    pub kind: AssertionKind,
    pub release_at: Option<u64>,
}

impl HandleView {
    /// The assertion has a release time and `now` has reached it.
    pub open spec fn expired_at(self, now: u64) -> bool {
        match self.release_at {
            Some(t) => now >= t,
            None => false,
        }
    }
}

/// How long from `now` until time `t`, or 0 when `t` has passed.
pub open spec fn time_until(t: u64, now: u64) -> u64 {
    if t > now {
        (t - now) as u64
    } else {
        0
    }
}

/// How long from `now` until the release time of `h`, if it has one.
pub open spec fn release_wait(h: HandleView, now: u64) -> Option<u64> {
    match h.release_at {
        Some(t) => Some(time_until(t, now)),
        None => None,
    }
}

/// The shortest wait from `now` until the release time of some handle in
/// `hs`, or `None` when no handle has a release time.
pub open spec fn soonest_wait(hs: Seq<HandleView>, now: u64) -> Option<u64>
    decreases hs.len(),
{
    if hs.len() == 0 {
        None
    } else {
        let rest = soonest_wait(hs.drop_last(), now);
        match hs.last().release_at {
            None => rest,
            Some(t) => {
                let w = time_until(t, now);
                match rest {
                    None => Some(w),
                    Some(r) => Some(if w < r { w } else { r }),
                }
            },
        }
    }
}

/// How long to wait before the next release is due, or `fallback` when no
/// handle has a release time.
pub open spec fn wake_after(hs: Seq<HandleView>, now: u64, fallback: u64) -> u64 {
    match soonest_wait(hs, now) {
        Some(w) => w,
        None => fallback,
    }
}

/// The smaller of two durations.
pub open spec fn min_u64(a: u64, b: u64) -> u64 {
    if a < b {
        a
    } else {
        b
    }
}

/// The handles of `hs` that are still held at `now`, in their order.
pub open spec fn live_at<A>(hs: Seq<Handle<A>>, now: u64) -> Seq<Handle<A>> {
    hs.filter(|h: Handle<A>| !h@.expired_at(now))
}

/// The views of `hs`.
pub open spec fn views_of<A>(hs: Seq<Handle<A>>) -> Seq<HandleView> {
    hs.map_values(|h: Handle<A>| h@)
}

/// The operating system objects behind `hs`.
pub open spec fn backends_of<A>(hs: Seq<Handle<A>>) -> Seq<A> {
    hs.map_values(|h: Handle<A>| h.backend())
}

/// The handles that a session created from `requests` starts with.
pub open spec fn fresh_handles(requests: Seq<AssertionRequest>) -> Seq<HandleView> {
    requests.map_values(|q: AssertionRequest| HandleView { kind: q.kind, release_at: None })
}

/// `hs` with the release time of every handle of `kind` set to `at`.
pub open spec fn with_release_at(hs: Seq<HandleView>, kind: AssertionKind, at: u64) -> Seq<HandleView> {
    hs.map_values(
        |h: HandleView|
            if h.kind == kind {
                HandleView { kind: h.kind, release_at: Some(at) }
            } else {
                h
            },
    )
}

/// Releasing what has expired twice at the same time releases nothing more
/// the second time.
pub proof fn law_drop_expired_idempotent<A>(hs: Seq<Handle<A>>, now: u64)
    ensures
        live_at(live_at(hs, now), now) == live_at(hs, now),
    decreases hs.len(),
{
    let p = |h: Handle<A>| !h@.expired_at(now);
    if hs.len() > 0 {
        let init = hs.drop_last();
        let last = hs.last();
        law_drop_expired_idempotent(init, now);
        assert(init.push(last) =~= hs);
        init.lemma_filter_push(last, p);
        live_at(init, now).lemma_filter_push(last, p);
    } else {
        reveal(Seq::filter);
    }
}

/// Releasing what has expired at `now` keeps exactly the handles that have
/// not expired at `now`, in their order.
pub proof fn law_drop_expired_keeps_exactly_the_live<A>(hs: Seq<Handle<A>>, now: u64)
    ensures
        forall|i: int|
            0 <= i < live_at(hs, now).len() ==> !(#[trigger] live_at(hs, now)[i])@.expired_at(now),
        forall|h: Handle<A>|
            #[trigger] live_at(hs, now).contains(h) <==> (hs.contains(h) && !h@.expired_at(now)),
    decreases hs.len(),
{
    broadcast use vstd::seq_lib::group_filter_ensures;

    let p = |h: Handle<A>| !h@.expired_at(now);
    if hs.len() > 0 {
        let init = hs.drop_last();
        let last = hs.last();
        law_drop_expired_keeps_exactly_the_live(init, now);
        assert(init.push(last) =~= hs);
        init.lemma_filter_push(last, p);
        assert forall|h: Handle<A>| #[trigger] live_at(hs, now).contains(h) implies hs.contains(h) by {
            if live_at(init, now).contains(h) {
                let k = choose|k: int| 0 <= k < init.len() && init[k] == h;
                assert(hs[k] == h);
            } else {
                assert(h == last);
                assert(hs[hs.len() - 1] == h);
            }
        }
        assert forall|h: Handle<A>| hs.contains(h) && !h@.expired_at(now) implies #[trigger] live_at(hs, now).contains(h) by {
            let k = choose|k: int| 0 <= k < hs.len() && hs[k] == h;
            assert(p(hs[k]));
        }
    } else {
        reveal(Seq::filter);
    }
}

/// The soonest wait is the smallest wait until any release time in `hs`,
/// and there is one exactly when some handle has a release time.
pub proof fn law_soonest_wait_is_minimum(hs: Seq<HandleView>, now: u64)
    ensures
        soonest_wait(hs, now) is None <==> forall|i: int|
            0 <= i < hs.len() ==> (#[trigger] hs[i]).release_at is None,
        soonest_wait(hs, now) matches Some(w) ==> {
            &&& exists|i: int|
                0 <= i < hs.len() && release_wait(#[trigger] hs[i], now) == Some(w)
            &&& forall|i: int|
                0 <= i < hs.len() && release_wait(#[trigger] hs[i], now) is Some ==> w
                    <= release_wait(hs[i], now)->0
        },
    decreases hs.len(),
{
    if hs.len() > 0 {
        let init = hs.drop_last();
        law_soonest_wait_is_minimum(init, now);
        assert forall|i: int| 0 <= i < init.len() implies #[trigger] init[i] == hs[i] by {}
        let n = hs.len() - 1;
        assert(hs[n] == hs.last());
        match soonest_wait(hs, now) {
            Some(w) => {
                if release_wait(hs.last(), now) == Some(w) {
                    assert(release_wait(hs[n], now) == Some(w));
                } else {
                    let i = choose|i: int|
                        0 <= i < init.len() && release_wait(#[trigger] init[i], now) == Some(w);
                    assert(release_wait(hs[i], now) == Some(w));
                }
                assert forall|i: int|
                    0 <= i < hs.len() && release_wait(#[trigger] hs[i], now) is Some implies w
                        <= release_wait(hs[i], now)->0 by {
                    if i < n {
                        assert(init[i] == hs[i]);
                    }
                }
            },
            None => {
                assert forall|i: int| 0 <= i < hs.len() implies (#[trigger] hs[i]).release_at is None by {
                    if i < n {
                        assert(init[i] == hs[i]);
                    }
                }
            },
        }
    }
}

/// Once what has expired at `now` is released, the next wake-up is not
/// `now` itself: the hold loops never spin without sleeping.
pub proof fn law_no_busy_wait<A>(hs: Seq<Handle<A>>, now: u64, fallback: u64)
    requires
        fallback > 0,
    ensures
        wake_after(views_of(live_at(hs, now)), now, fallback) > 0,
{
    let live = live_at(hs, now);
    let vs = views_of(live);
    law_drop_expired_keeps_exactly_the_live(hs, now);
    law_soonest_wait_is_minimum(vs, now);
    if let Some(w) = soonest_wait(vs, now) {
        let i = choose|i: int| 0 <= i < vs.len() && release_wait(#[trigger] vs[i], now) == Some(w);
        assert(vs[i] == live[i]@);
        assert(!live[i]@.expired_at(now));
    }
}

/// Once every held assertion has a release time that `now` has reached,
/// releasing what has expired leaves nothing held, so the hold that waits
/// for every release ends.
pub proof fn law_all_released_ends_hold<A>(hs: Seq<Handle<A>>, now: u64)
    requires
        forall|i: int| 0 <= i < hs.len() ==> (#[trigger] hs[i])@.expired_at(now),
    ensures
        live_at(hs, now).len() == 0,
{
    law_drop_expired_keeps_exactly_the_live(hs, now);
    if live_at(hs, now).len() > 0 {
        let h = live_at(hs, now)[0];
        assert(live_at(hs, now).contains(h));
        let k = choose|k: int| 0 <= k < hs.len() && hs[k] == h;
        assert(hs[k]@.expired_at(now));
    }
}

/// After the release time of `kind` is set to `at`, releasing what has
/// expired at any `now` from `at` on leaves no assertion of `kind` held.
pub proof fn law_release_time_releases_kind<A>(
    before: Seq<HandleView>,
    after: Seq<Handle<A>>,
    kind: AssertionKind,
    at: u64,
    now: u64,
)
    requires
        views_of(after) == with_release_at(before, kind, at),
        now >= at,
    ensures
        forall|i: int|
            0 <= i < live_at(after, now).len() ==> (#[trigger] live_at(after, now)[i])@.kind != kind,
{
    law_drop_expired_keeps_exactly_the_live(after, now);
    assert forall|i: int| 0 <= i < live_at(after, now).len() implies (#[trigger] live_at(
        after,
        now,
    )[i])@.kind != kind by {
        let h = live_at(after, now)[i];
        assert(live_at(after, now).contains(h));
        let k = choose|k: int| 0 <= k < after.len() && after[k] == h;
        assert(views_of(after)[k] == h@);
        assert(views_of(after).len() == before.len());
        assert(with_release_at(before, kind, at)[k] == h@);
        assert(!h@.expired_at(now));
    }
}

/// When every held assertion is of `kind` and the release time of `kind`
/// has been set to `at` (as `-u` alone does), the hold that waits for every
/// release ends at any `now` from `at` on.
pub proof fn law_single_kind_hold_ends_at_release<A>(
    before: Seq<HandleView>,
    after: Seq<Handle<A>>,
    kind: AssertionKind,
    at: u64,
    now: u64,
)
    requires
        forall|i: int| 0 <= i < before.len() ==> (#[trigger] before[i]).kind == kind,
        views_of(after) == with_release_at(before, kind, at),
        now >= at,
    ensures
        live_at(after, now).len() == 0,
{
    assert forall|i: int| 0 <= i < after.len() implies (#[trigger] after[i])@.expired_at(now) by {
        assert(views_of(after)[i] == after[i]@);
        assert(views_of(after).len() == before.len());
        assert(before[i].kind == kind);
        assert(with_release_at(before, kind, at)[i] == after[i]@);
    }
    law_all_released_ends_hold(after, now);
}

/// Setting a release time for `kind` gives every handle of `kind` exactly
/// that release time, whatever it had before, and leaves every other handle
/// as it was; nothing is added, removed or reordered.
pub proof fn law_set_release_at_overrides(hs: Seq<HandleView>, kind: AssertionKind, at: u64)
    ensures
        with_release_at(hs, kind, at).len() == hs.len(),
        forall|i: int|
            0 <= i < hs.len() && hs[i].kind == kind ==> (#[trigger] with_release_at(hs, kind, at)[i])
                == (HandleView { kind, release_at: Some(at) }),
        forall|i: int|
            0 <= i < hs.len() && hs[i].kind != kind ==> #[trigger] with_release_at(hs, kind, at)[i]
                == hs[i],
{
}

/// Of two release times set for the same kind, the later call wins: the
/// first one leaves no trace.
pub proof fn law_last_release_time_wins(hs: Seq<HandleView>, kind: AssertionKind, first: u64, second: u64)
    ensures
        with_release_at(with_release_at(hs, kind, first), kind, second) == with_release_at(
            hs,
            kind,
            second,
        ),
{
    let once = with_release_at(hs, kind, first);
    law_set_release_at_overrides(hs, kind, first);
    law_set_release_at_overrides(once, kind, second);
    law_set_release_at_overrides(hs, kind, second);
    assert(with_release_at(once, kind, second) =~= with_release_at(hs, kind, second));
}

/// A fresh session holds one assertion per request, of the request's kind,
/// in the order of the requests, none of them with a release time.
pub proof fn law_fresh_handles_follow_requests(requests: Seq<AssertionRequest>)
    ensures
        fresh_handles(requests).len() == requests.len(),
        forall|i: int|
            0 <= i < requests.len() ==> (#[trigger] fresh_handles(requests)[i]).kind == requests[i].kind
                && fresh_handles(requests)[i].release_at is None,
{
}

/// Releasing at `now` drops exactly the handles whose release time is at or
/// before `now`: every handle kept has no release time or a later one, and
/// every such handle is kept.
pub proof fn law_drop_expired_releases_due_handles<A>(hs: Seq<Handle<A>>, now: u64)
    ensures
        forall|i: int|
            0 <= i < live_at(hs, now).len() ==> {
                let t = (#[trigger] live_at(hs, now)[i])@.release_at;
                t is None || t->0 > now
            },
        forall|h: Handle<A>|
            hs.contains(h) && (h@.release_at is None || h@.release_at->0 > now) ==> #[trigger] live_at(
                hs,
                now,
            ).contains(h),
        forall|h: Handle<A>|
            #[trigger] live_at(hs, now).contains(h) ==> hs.contains(h),
{
    law_drop_expired_keeps_exactly_the_live(hs, now);
}

/// The sleep a hold step asks for never passes `bound` (the poll interval,
/// or the time left until the deadline) nor any release time still to come,
/// is 0 when a release time has already passed, and is one of these waits.
pub proof fn law_step_sleep_is_bounded(hs: Seq<HandleView>, now: u64, bound: u64)
    ensures
        ({
            let sleep = min_u64(wake_after(hs, now, bound), bound);
            &&& sleep <= bound
            &&& forall|i: int|
                0 <= i < hs.len() && (#[trigger] hs[i]).release_at is Some ==> {
                    let t = hs[i].release_at->0;
                    &&& t > now ==> sleep <= t - now
                    &&& t <= now ==> sleep == 0
                }
            &&& sleep == bound || exists|i: int|
                0 <= i < hs.len() && (#[trigger] hs[i]).release_at is Some && sleep == (if hs[i].release_at->0 > now {
                    hs[i].release_at->0 - now
                } else {
                    0
                })
        }),
        wake_after(hs, now, bound) <= bound || exists|i: int|
            0 <= i < hs.len() && (#[trigger] hs[i]).release_at is Some,
{
    law_soonest_wait_is_minimum(hs, now);
    let sleep = min_u64(wake_after(hs, now, bound), bound);
    assert forall|i: int| 0 <= i < hs.len() && (#[trigger] hs[i]).release_at is Some implies {
        let t = hs[i].release_at->0;
        &&& t > now ==> sleep <= t - now
        &&& t <= now ==> sleep == 0
    } by {
        assert(release_wait(hs[i], now) is Some);
    }
    if let Some(w) = soonest_wait(hs, now) {
        if w < bound {
            let i = choose|i: int| 0 <= i < hs.len() && release_wait(#[trigger] hs[i], now) == Some(w);
            assert(hs[i].release_at is Some);
        }
    }
}

/// `create_one` may succeed on `request`.
pub open spec fn may_create<A, F: Fn(&AssertionRequest) -> Result<A, BackendError>>(
    create_one: F,
    request: AssertionRequest,
) -> bool {
    exists|a: A| #[trigger] create_one.ensures((&request,), Ok::<A, BackendError>(a))
}

/// One held assertion: its kind, the backend object whose drop releases it,
/// and an optional time at which the session releases it.
pub struct Handle<A> {
    kind: AssertionKind,
    backend: A,
    release_at: Option<u64>,
}

impl<A> View for Handle<A> {
    type V = HandleView;

    closed spec fn view(&self) -> HandleView {
        HandleView { kind: self.kind, release_at: self.release_at }
    }
}

impl<A> Handle<A> {
    /// The backend object behind this handle.
    pub closed spec fn backend(self) -> A {
        self.backend
    }

    /// The kind of assertion held.
    pub fn kind(&self) -> (k: AssertionKind)
        ensures
            k == self@.kind,
    {
        self.kind
    }

    /// When the session will release this assertion, if ever.
    pub fn release_at(&self) -> (t: Option<u64>)
        ensures
            t == self@.release_at,
    {
        self.release_at
    }
}

/// A set of currently held assertions, in the order they were created.
pub struct Session<A> {
    held: Vec<Handle<A>>,
}

impl<A> View for Session<A> {
    type V = Seq<HandleView>;

    open spec fn view(&self) -> Seq<HandleView> {
        views_of(self.handles())
    }
}

impl<A> Default for Session<A> {
    /// A session that holds nothing.
    fn default() -> (s: Session<A>)
        ensures
            s.handles().len() == 0,
    {
        Session::new()
    }
}

impl<A> Session<A> {
    /// The held handles, in order.
    pub closed spec fn handles(self) -> Seq<Handle<A>> {
        self.held@
    }

    /// A session that holds nothing.
    pub fn new() -> (s: Session<A>)
        ensures
            s.handles().len() == 0,
    {
        Session { held: Vec::new() }
    }

    /// Create every requested assertion in order, through `create_one`.
    ///
    /// On the first failure the assertions already created by this call are
    /// dropped (which releases them) and that failure is returned.
    pub fn create<F>(requests: &Vec<AssertionRequest>, create_one: F) -> (r: Result<
        Session<A>,
        BackendError,
    >) where F: Fn(&AssertionRequest) -> Result<A, BackendError>
        requires
            forall|i: int| 0 <= i < requests@.len() ==> create_one.requires((&requests@[i],)),
        ensures
            r matches Ok(s) ==> {
                &&& s@ == fresh_handles(requests@)
                &&& forall|i: int|
                    0 <= i < requests@.len() ==> create_one.ensures(
                        (&requests@[i],),
                        Ok::<A, BackendError>(#[trigger] s.handles()[i].backend()),
                    )
            },
            r matches Err(e) ==> exists|i: int|
                0 <= i < requests@.len() && (forall|j: int|
                    0 <= j < i ==> may_create(create_one, #[trigger] requests@[j]))
                    && create_one.ensures((&requests@[i],), Err::<A, BackendError>(e)),
    {
        let n = requests.len();
        let mut held: Vec<Handle<A>> = Vec::with_capacity(n);
        let mut i: usize = 0;
        while i < n
            invariant
                n == requests@.len(),
                i <= n,
                held@.len() == i,
                forall|k: int| 0 <= k < requests@.len() ==> create_one.requires((&requests@[k],)),
                forall|j: int|
                    0 <= j < i ==> (#[trigger] held@[j])@ == (HandleView {
                        kind: requests@[j].kind,
                        release_at: None,
                    }),
                forall|j: int|
                    0 <= j < i ==> create_one.ensures(
                        (&requests@[j],),
                        Ok::<A, BackendError>((#[trigger] held@[j]).backend),
                    ),
            decreases n - i,
        {
            let request = &requests[i];
            match create_one(request) {
                Ok(a) => {
                    held.push(Handle { kind: request.kind, backend: a, release_at: None });
                },
                Err(e) => {
                    assert forall|j: int| 0 <= j < i implies may_create(create_one, #[trigger] requests@[j]) by {
                        assert(create_one.ensures(
                            (&requests@[j],),
                            Ok::<A, BackendError>(held@[j].backend),
                        ));
                    }
                    assert(create_one.ensures((&requests@[i as int],), Err::<A, BackendError>(e)));
                    return Err(e);
                },
            }
            i = i + 1;
        }
        let s = Session { held };
        assert(s@ =~= fresh_handles(requests@));
        Ok(s)
    }

    /// Set an absolute release time for every held assertion of `kind`.
    pub fn set_release_at(&mut self, kind: AssertionKind, at: u64)
        ensures
            final(self)@ == with_release_at(old(self)@, kind, at),
            backends_of(final(self).handles()) == backends_of(old(self).handles()),
    {
        let n = self.held.len();
        let mut i: usize = 0;
        while i < n
            invariant
                n == old(self).handles().len(),
                i <= n,
                self.held@.len() == n,
                forall|j: int|
                    0 <= j < n ==> (#[trigger] self.held@[j]).backend == old(self).handles()[j].backend,
                forall|j: int|
                    0 <= j < i ==> (#[trigger] self.held@[j])@ == with_release_at(old(self)@, kind, at)[j],
                forall|j: int| i <= j < n ==> #[trigger] self.held@[j] == old(self).handles()[j],
            decreases n - i,
        {
            if self.held[i].kind == kind {
                self.held[i].release_at = Some(at);
            }
            i = i + 1;
        }
        assert(self@ =~= with_release_at(old(self)@, kind, at));
        assert(backends_of(self.handles()) =~= backends_of(old(self).handles()));
    }

    /// Release (by dropping) every held assertion whose release time has come.
    pub fn drop_expired(&mut self, now: u64)
        ensures
            final(self).handles() == live_at(old(self).handles(), now),
    {
        let mut old_held: Vec<Handle<A>> = Vec::new();
        std::mem::swap(&mut old_held, &mut self.held);
        let ghost all = old_held@;
        while old_held.len() > 0
            invariant
                all == old(self).handles(),
                old_held@.len() <= all.len(),
                old_held@ == all.skip(all.len() - old_held@.len()),
                self.held@ == live_at(all.take(all.len() - old_held@.len()), now),
            decreases old_held@.len(),
        {
            let ghost done = all.len() - old_held@.len();
            let h = old_held.remove(0);
            assert(h == all[done]);
            assert(all.take(done + 1) =~= all.take(done).push(h));
            assert(old_held@ =~= all.skip(all.len() - old_held@.len()));
            proof {
                all.take(done).lemma_filter_push(h, |h: Handle<A>| !h@.expired_at(now));
            }
            let expired = match h.release_at {
                Some(t) => now >= t,
                None => false,
            };
            if !expired {
                self.held.push(h);
            }
        }
        assert(all.take(all.len() as int) =~= all);
    }

    /// How long to wait before the next held assertion is due for release,
    /// or `fallback` when none has a release time.
    pub fn next_wake(&self, now: u64, fallback: u64) -> (w: u64)
        ensures
            w == wake_after(self@, now, fallback),
    {
        let n = self.held.len();
        let mut best: Option<u64> = None;
        let mut i: usize = 0;
        while i < n
            invariant
                n == self@.len(),
                i <= n,
                best == soonest_wait(self@.take(i as int), now),
            decreases n - i,
        {
            assert(self@.take(i + 1).drop_last() =~= self@.take(i as int));
            if let Some(t) = self.held[i].release_at {
                let wait = if t > now { t - now } else { 0 };
                best = match best {
                    None => Some(wait),
                    Some(b) => Some(if wait < b { wait } else { b }),
                };
            }
            i = i + 1;
        }
        assert(self@.take(n as int) =~= self@);
        match best {
            Some(b) => b,
            None => fallback,
        }
    }

    /// One round of holding until process `pid` exits: `pid_alive` is what
    /// the caller just observed of the process, at time `now`.
    ///
    /// Returns `None` once the process is gone (the caller then stops and
    /// drops the session); otherwise releases what has expired and returns
    /// how long to sleep, never longer than `poll_interval`. The hold goes on
    /// while the process lives, even when every assertion has expired.
    pub fn wait_for_pid_step(&mut self, pid_alive: bool, now: u64, poll_interval: u64) -> (sleep:
        Option<u64>)
        ensures
            !pid_alive ==> sleep is None && final(self).handles() == old(self).handles(),
            pid_alive ==> {
                &&& final(self).handles() == live_at(old(self).handles(), now)
                &&& sleep == Some(
                    min_u64(wake_after(final(self)@, now, poll_interval), poll_interval),
                )
            },
    {
        if !pid_alive {
            return None;
        }
        self.drop_expired(now);
        let wake = self.next_wake(now, poll_interval);
        Some(if wake < poll_interval { wake } else { poll_interval })
    }

    /// One round of holding until `deadline`, at time `now`.
    ///
    /// Returns `None` once the deadline has come; otherwise releases what has
    /// expired and returns how long to sleep, never past the deadline.
    pub fn hold_for_step(&mut self, now: u64, deadline: u64) -> (sleep: Option<u64>)
        ensures
            now >= deadline ==> sleep is None && final(self).handles() == old(self).handles(),
            now < deadline ==> {
                &&& final(self).handles() == live_at(old(self).handles(), now)
                &&& sleep == Some(
                    min_u64(
                        wake_after(final(self)@, now, (deadline - now) as u64),
                        (deadline - now) as u64,
                    ),
                )
            },
    {
        if now >= deadline {
            return None;
        }
        self.drop_expired(now);
        let until_deadline = deadline - now;
        let wake = self.next_wake(now, until_deadline);
        Some(if wake < until_deadline { wake } else { until_deadline })
    }

    /// One round of holding until every assertion has expired, at time `now`.
    ///
    /// Returns `None` when nothing is held any more (after releasing what has
    /// expired); otherwise returns how long to sleep until the next release,
    /// or `backstop` when no held assertion has a release time.
    pub fn hold_until_released_step(&mut self, now: u64, backstop: u64) -> (sleep: Option<u64>)
        ensures
            old(self)@.len() == 0 ==> sleep is None && final(self).handles() == old(self).handles(),
            old(self)@.len() > 0 ==> {
                &&& final(self).handles() == live_at(old(self).handles(), now)
                &&& (sleep is None <==> final(self)@.len() == 0)
                &&& sleep is Some ==> sleep == Some(wake_after(final(self)@, now, backstop))
            },
    {
        if self.held.len() == 0 {
            return None;
        }
        self.drop_expired(now);
        if self.held.len() == 0 {
            return None;
        }
        Some(self.next_wake(now, backstop))
    }

    /// The held assertions, in the order they were created.
    pub fn held(&self) -> (r: &Vec<Handle<A>>)
        ensures
            r@ == self.handles(),
    {
        &self.held
    }

    /// True if no assertions are currently held (for example, all have expired).
    pub fn is_empty(&self) -> (r: bool)
        ensures
            r == (self@.len() == 0),
    {
        self.held.len() == 0
    }

    /// The number of assertions currently held.
    pub fn len(&self) -> (r: usize)
        ensures
            r == self@.len(),
    {
        self.held.len()
    }
}

} // verus!

//! The lifecycle of notifications: each waits, fades in, is shown for its
//! duration and fades out; a notification with a highlight colour lights up
//! the edges of the window when it appears, and while that light is on the
//! next notifications wait. Times are nanoseconds on a monotonic clock.
use vstd::prelude::*;

verus! {

/// How long fading in and fading out take.
pub const FADE_NANOS: u64 = 250_000_000;

/// How long the light of a highlighted notification stays on.
pub const LIGHT_NANOS: u64 = 500_000_000;

/// Where a notification is in its life, and since when.
#[derive(Debug, Clone, Copy, PartialEq, Eq)]
pub enum NotifPhase {
    Pending,
    FadingIn(u64),
    Displayed(u64),
    FadingOut(u64),
}

/// A notification: its phase, how long it is shown, and the colour it
/// lights the window's edges with when it appears, if any.
#[derive(Debug, Clone, Copy, PartialEq, Eq)]
pub struct NotifInfo<C> {
    pub phase: NotifPhase,
    pub duration: u64,
    pub color: Option<C>,
}

impl<C> NotifInfo<C> {
    /// A notification shown for `duration`, not yet on screen.
    pub fn new(duration: u64) -> (r: NotifInfo<C>)
        ensures
            r == (NotifInfo::<C> { phase: NotifPhase::Pending, duration, color: None }),
    {
        NotifInfo { phase: NotifPhase::Pending, duration, color: None }
    }

    /// The same notification, lighting the window's edges in `color`.
    pub fn with_highlight(self, color: C) -> (r: NotifInfo<C>)
        ensures
            r == (NotifInfo { color: Some(color), ..self }),
    {
        NotifInfo { phase: self.phase, duration: self.duration, color: Some(color) }
    }
}

/// The time since `since` (none where the clock has not got there yet, as
/// `Instant::elapsed` saturates).
pub open spec fn elapsed(since: u64, now: u64) -> int {
    if now >= since { now - since } else { 0 }
}

/// Whether a span of `span` has passed since `since`: the elapsed time over
/// the span is at least one (so not for no time at all over no span, 0/0).
pub open spec fn passed(since: u64, now: u64, span: u64) -> bool {
    elapsed(since, now) >= span && elapsed(since, now) > 0
}

/// One notification at `now`, with the light as it is: the notification
/// after (none once it has faded out), the light after, and whether the
/// notifications must be laid out again.
pub open spec fn step<C>(n: NotifInfo<C>, light: Option<(u64, C)>, now: u64) -> (Option<NotifInfo<C>>, Option<(u64, C)>, bool) {
    match n.phase {
        NotifPhase::Pending => if light is None {
            (
                Some(NotifInfo { phase: NotifPhase::FadingIn(now), ..n }),
                match n.color {
                    Some(c) => Some((now, c)),
                    None => None,
                },
                true,
            )
        } else {
            (Some(n), light, false)
        },
        NotifPhase::FadingIn(since) => if passed(since, now, FADE_NANOS) {
            (Some(NotifInfo { phase: NotifPhase::Displayed(now), ..n }), light, true)
        } else {
            (Some(n), light, true)
        },
        NotifPhase::Displayed(since) => if passed(since, now, n.duration) {
            (Some(NotifInfo { phase: NotifPhase::FadingOut(now), ..n }), light, false)
        } else {
            (Some(n), light, false)
        },
        NotifPhase::FadingOut(since) => if passed(since, now, FADE_NANOS) {
            (None, light, true)
        } else {
            (Some(n), light, true)
        },
    }
}

/// All notifications at `now`, in order, the light passed from one to the
/// next: what becomes of each, the light after, and whether to lay out.
pub open spec fn checked<C>(ns: Seq<NotifInfo<C>>, light: Option<(u64, C)>, now: u64) -> (
    Seq<Option<NotifInfo<C>>>,
    Option<(u64, C)>,
    bool,
)
    decreases ns.len(),
{
    if ns.len() == 0 {
        (Seq::empty(), light, false)
    } else {
        let before = checked(ns.drop_last(), light, now);
        let last = step(ns.last(), before.1, now);
        (before.0.push(last.0), last.1, before.2 || last.2)
    }
}

/// The order of the phases: pending, fading in, shown, fading out, gone.
pub open spec fn phase_rank<C>(n: Option<NotifInfo<C>>) -> nat {
    match n {
        None => 4,
        Some(m) => match m.phase {
            NotifPhase::Pending => 0,
            NotifPhase::FadingIn(_) => 1,
            NotifPhase::Displayed(_) => 2,
            NotifPhase::FadingOut(_) => 3,
        },
    }
}

/// A notification only ever moves on, one phase at a time: pending, fading
/// in, shown, fading out, gone.
pub proof fn lemma_phases_move_on<C>(n: NotifInfo<C>, light: Option<(u64, C)>, now: u64)
    ensures
        phase_rank(Some(n)) <= phase_rank(step(n, light, now).0) <= phase_rank(Some(n)) + 1,
{
}

/// While the light of a highlighted notification is on, the pending
/// notifications keep waiting, and the light stays as it is.
pub proof fn lemma_light_holds_back<C>(ns: Seq<NotifInfo<C>>, light: Option<(u64, C)>, now: u64)
    requires
        light is Some,
    ensures
        checked(ns, light, now).1 == light,
        checked(ns, light, now).0.len() == ns.len(),
        forall|i: int| 0 <= i < ns.len() && ns[i].phase == NotifPhase::Pending ==> #[trigger] checked(ns, light, now).0[i] == Some(ns[i]),
    decreases ns.len(),
{
    if ns.len() > 0 {
        lemma_light_holds_back(ns.drop_last(), light, now);
        let c = checked(ns, light, now);
        let b = checked(ns.drop_last(), light, now);
        assert forall|i: int| 0 <= i < ns.len() && ns[i].phase == NotifPhase::Pending implies #[trigger] c.0[i] == Some(ns[i]) by {
            if i < ns.len() - 1 {
                assert(c.0[i] == b.0[i]);
                assert(ns.drop_last()[i] == ns[i]);
            }
        }
    }
}

/// The notifications that remain, in order.
pub open spec fn remaining<C>(s: Seq<Option<NotifInfo<C>>>) -> Seq<NotifInfo<C>>
    decreases s.len(),
{
    if s.len() == 0 {
        Seq::empty()
    } else {
        match s.last() {
            Some(n) => remaining(s.drop_last()).push(n),
            None => remaining(s.drop_last()),
        }
    }
}

/// The positions of the notifications that are gone, in increasing order.
pub open spec fn gone<C>(s: Seq<Option<NotifInfo<C>>>) -> Seq<usize>
    decreases s.len(),
{
    if s.len() == 0 {
        Seq::empty()
    } else {
        match s.last() {
            Some(_) => gone(s.drop_last()),
            None => gone(s.drop_last()).push((s.len() - 1) as usize),
        }
    }
}

/// The notifications on screen and the light.
pub struct Notifications<C> {
    pub notifs: Vec<NotifInfo<C>>,
    pub light: Option<(u64, C)>,
}

fn passed_exec(since: u64, now: u64, span: u64) -> (r: bool)
    ensures
        r == passed(since, now, span),
{
    let e: u64 = if now >= since { now - since } else { 0 };
    e >= span && e > 0
}

impl<C: Copy> Notifications<C> {
    pub fn new() -> (r: Notifications<C>)
        ensures
            r.notifs@ == Seq::<NotifInfo<C>>::empty(),
            r.light is None,
    {
        Notifications { notifs: Vec::new(), light: None }
    }

    /// Queues a notification.
    pub fn push(&mut self, n: NotifInfo<C>)
        ensures
            final(self).notifs@ == old(self).notifs@.push(n),
            final(self).light == old(self).light,
    {
        self.notifs.push(n);
    }

    /// Moves every notification on at `now` (see `checked`): the ones that
    /// faded out go, and their former positions are returned with whether
    /// the notifications must be laid out again.
    pub fn check(&mut self, now: u64) -> (r: (bool, Vec<usize>))
        ensures
            ({
                let c = checked(old(self).notifs@, old(self).light, now);
                &&& final(self).notifs@ == remaining(c.0)
                &&& final(self).light == c.1
                &&& r.0 == c.2
                &&& r.1@ == gone(c.0)
            }),
    {
        let ghost start = self.notifs@;
        let ghost light0 = self.light;
        let mut kept: Vec<NotifInfo<C>> = Vec::new();
        let mut removed: Vec<usize> = Vec::new();
        let mut adjust = false;
        let mut light = self.light;
        let mut i: usize = 0;
        while i < self.notifs.len()
            invariant
                i <= start.len(),
                self.notifs@ == start,
                ({
                    let c = checked(start.take(i as int), light0, now);
                    &&& kept@ == remaining(c.0)
                    &&& removed@ == gone(c.0)
                    &&& light == c.1
                    &&& adjust == c.2
                    &&& c.0.len() == i
                }),
            decreases self.notifs.len() - i,
        {
            let n = self.notifs[i];
            let ghost prev = checked(start.take(i as int), light0, now);
            let (next, lit, again): (Option<NotifInfo<C>>, Option<(u64, C)>, bool) = match n.phase {
                NotifPhase::Pending => {
                    if light.is_none() {
                        let lit = match n.color {
                            Some(c) => Some((now, c)),
                            None => None,
                        };
                        (Some(NotifInfo { phase: NotifPhase::FadingIn(now), duration: n.duration, color: n.color }), lit, true)
                    } else {
                        (Some(n), light, false)
                    }
                },
                NotifPhase::FadingIn(since) => {
                    if passed_exec(since, now, FADE_NANOS) {
                        (Some(NotifInfo { phase: NotifPhase::Displayed(now), duration: n.duration, color: n.color }), light, true)
                    } else {
                        (Some(n), light, true)
                    }
                },
                NotifPhase::Displayed(since) => {
                    if passed_exec(since, now, n.duration) {
                        (Some(NotifInfo { phase: NotifPhase::FadingOut(now), duration: n.duration, color: n.color }), light, false)
                    } else {
                        (Some(n), light, false)
                    }
                },
                NotifPhase::FadingOut(since) => {
                    if passed_exec(since, now, FADE_NANOS) {
                        (None, light, true)
                    } else {
                        (Some(n), light, true)
                    }
                },
            };
            assert((next, lit, again) == step(start[i as int], prev.1, now));
            assert(start.take(i + 1).drop_last() =~= start.take(i as int));
            assert(start.take(i + 1).last() == start[i as int]);
            let ghost s1 = prev.0.push(next);
            assert(s1.drop_last() =~= prev.0);
            assert(checked(start.take(i + 1), light0, now) == (s1, lit, prev.2 || again));
            match next {
                Some(m) => kept.push(m),
                None => removed.push(i),
            }
            light = lit;
            adjust = adjust || again;
            i = i + 1;
        }
        assert(start.take(start.len() as int) =~= start);
        self.notifs = kept;
        self.light = light;
        (adjust, removed)
    }

    /// Turns the light off once it has been on for its time.
    pub fn light_check(&mut self, now: u64)
        ensures
            final(self).notifs@ == old(self).notifs@,
            final(self).light == (match old(self).light {
                Some((since, c)) => if passed(since, now, LIGHT_NANOS) {
                    None
                } else {
                    Some((since, c))
                },
                None => None,
            }),
    {
        if let Some((since, _)) = self.light {
            if passed_exec(since, now, LIGHT_NANOS) {
                self.light = None;
            }
        }
    }
}

} // verus!

//! The decay timer: how long a transient entity stays in the scene.

use vstd::prelude::*;

verus! {

/// The number of fixed steps that an attack volume lasts.
pub const ATTACK_DECAY: usize = 32;

/// A countdown attached to a transient entity. A counter that stands at `n`
/// lets its entity live through `n - 1` more steps; the step after those
/// destroys it. The counter is never stored as zero.
#[derive(Clone, Copy, Debug, PartialEq, Eq, Structural)]
pub struct Decay {
    pub counter: usize,
}

/// The countdown of one entity.
#[derive(Clone, Copy, Debug, PartialEq, Eq, Structural)]
pub struct Timer {
    pub entity: u64,
    pub decay: Decay,
}

/// What one step does to the countdowns of a scene.
pub struct DecayPass {
    /// The countdowns that go on, each one lower than before, in their old
    /// order.
    pub running: Vec<Timer>,
    /// The entities whose countdown has run out, in their old order: they are
    /// to be destroyed.
    pub expired: Vec<u64>,
}

impl Decay {
    /// The countdown runs out at the next step. One that stands at zero, which
    /// no timer should, has run out too.
    pub open spec fn expires(self) -> bool {
        self.counter <= 1
    }

    /// The countdown after one step; none where the step destroys the entity.
    pub open spec fn spec_tick(self) -> Option<Decay> {
        if self.expires() {
            None
        } else {
            Some(Decay { counter: (self.counter - 1) as usize })
        }
    }

    /// The countdown after `steps` steps; none once the entity is destroyed.
    pub open spec fn after(self, steps: nat) -> Option<Decay>
        decreases steps,
    {
        if steps == 0 {
            Some(self)
        } else {
            match self.spec_tick() {
                Some(next) => next.after((steps - 1) as nat),
                None => None,
            }
        }
    }

    /// One step of the countdown: the counter goes down by one, and the step
    /// that would bring it to zero destroys the entity instead.
    #[verifier::when_used_as_spec(spec_tick)]
    pub fn tick(self) -> (next: Option<Decay>)
        ensures
            next == self.spec_tick(),
            next is Some <==> self.counter > 1,
            next matches Some(d) ==> d.counter == self.counter - 1 && d.counter > 0,
    {
        if self.counter <= 1 {
            None
        } else {
            Some(Decay { counter: self.counter - 1 })
        }
    }
}

/// The timers that go on after a step.
pub open spec fn goes_on() -> spec_fn(Timer) -> bool {
    |t: Timer| !t.decay.expires()
}

/// The timers that run out at a step.
pub open spec fn runs_out() -> spec_fn(Timer) -> bool {
    |t: Timer| t.decay.expires()
}

/// A timer one step later.
pub open spec fn wound_down() -> spec_fn(Timer) -> Timer {
    |t: Timer| Timer { entity: t.entity, decay: Decay { counter: (t.decay.counter - 1) as usize } }
}

/// The entity of a timer.
pub open spec fn entity_of() -> spec_fn(Timer) -> u64 {
    |t: Timer| t.entity
}

/// The countdowns that go on after a step, each one lower.
pub open spec fn still_running(timers: Seq<Timer>) -> Seq<Timer> {
    timers.filter(goes_on()).map_values(wound_down())
}

/// The entities whose countdown runs out at a step.
pub open spec fn expired(timers: Seq<Timer>) -> Seq<u64> {
    timers.filter(runs_out()).map_values(entity_of())
}

/// One step of every countdown: each timer above one goes down by one and
/// stays; each other timer's entity is listed for destruction and its timer is
/// dropped, so that no counter is ever stored as zero.
pub fn decay_system(timers: &Vec<Timer>) -> (pass: DecayPass)
    ensures
        pass.running@ == still_running(timers@),
        pass.expired@ == expired(timers@),
        pass.running@.len() + pass.expired@.len() == timers@.len(),
        forall|i: int| 0 <= i < pass.running@.len() ==> (#[trigger] pass.running@[i]).decay.counter > 0,
{
    let mut running: Vec<Timer> = Vec::new();
    let mut gone: Vec<u64> = Vec::new();
    let mut i: usize = 0;
    proof {
        assert(timers@.take(0) =~= Seq::<Timer>::empty());
        reveal(Seq::filter);
        assert(still_running(timers@.take(0)) =~= Seq::<Timer>::empty());
        assert(expired(timers@.take(0)) =~= Seq::<u64>::empty());
    }
    while i < timers.len()
        invariant
            i <= timers.len(),
            running@ == still_running(timers@.take(i as int)),
            gone@ == expired(timers@.take(i as int)),
            running@.len() + gone@.len() == i,
            forall|k: int| 0 <= k < running@.len() ==> (#[trigger] running@[k]).decay.counter > 0,
        decreases timers.len() - i,
    {
        let timer = timers[i];
        proof {
            let seen = timers@.take(i as int);
            assert(timers@.take(i + 1) =~= seen.push(timer));
            seen.lemma_filter_push(timer, goes_on());
            seen.lemma_filter_push(timer, runs_out());
            if goes_on()(timer) {
                assert(still_running(seen.push(timer)) =~= still_running(seen).push(
                    wound_down()(timer),
                ));
            } else {
                assert(expired(seen.push(timer)) =~= expired(seen).push(timer.entity));
            }
        }
        match timer.decay.tick() {
            Some(decay) => {
                running.push(Timer { entity: timer.entity, decay });
            },
            None => {
                gone.push(timer.entity);
            },
        }
        i = i + 1;
    }
    proof {
        assert(timers@.take(i as int) =~= timers@);
    }
    DecayPass { running, expired: gone }
}

/// A countdown that starts at `n`, at least one, is still there after each of
/// the first `n - 1` steps, lower by one each time, and is gone from step `n`
/// on.
pub proof fn lemma_decay_lifetime(start: Decay, steps: nat)
    requires
        start.counter >= 1,
    ensures
        steps < start.counter ==> start.after(steps) == Some(
            Decay { counter: (start.counter - steps) as usize },
        ),
        steps >= start.counter ==> start.after(steps) is None,
    decreases steps,
{
    if steps > 0 {
        match start.spec_tick() {
            Some(next) => {
                lemma_decay_lifetime(next, (steps - 1) as nat);
            },
            None => {},
        }
    }
}

/// `later` is one of `timers`, above one before the step and one lower after
/// it.
pub open spec fn wound_from(timers: Seq<Timer>, later: Timer) -> bool {
    exists|i: int|
        0 <= i < timers.len() && !(#[trigger] timers[i]).decay.expires() && later == wound_down()(
            timers[i],
        )
}

/// The entity `e` has, among `timers`, one that runs out at the step.
pub open spec fn runs_out_among(timers: Seq<Timer>, e: u64) -> bool {
    exists|i: int|
        0 <= i < timers.len() && (#[trigger] timers[i]).decay.expires() && timers[i].entity == e
}

/// A pass, timer by timer: every countdown that goes on comes from a timer
/// above one and is that timer one lower; every timer above one goes on; and
/// the entities listed for destruction are exactly those of the other timers.
pub proof fn lemma_pass_timer_by_timer(timers: Seq<Timer>)
    ensures
        forall|k: int|
            0 <= k < still_running(timers).len() ==> wound_from(
                timers,
                #[trigger] still_running(timers)[k],
            ),
        forall|i: int|
            0 <= i < timers.len() && !(#[trigger] timers[i]).decay.expires() ==> still_running(
                timers,
            ).contains(wound_down()(timers[i])),
        forall|e: u64| #[trigger] expired(timers).contains(e) <==> runs_out_among(timers, e),
{
    let kept = timers.filter(goes_on());
    let dropped = timers.filter(runs_out());
    assert forall|k: int| 0 <= k < still_running(timers).len() implies wound_from(
        timers,
        #[trigger] still_running(timers)[k],
    ) by {
        timers.lemma_filter_pred(goes_on(), k);
        assert(kept.contains(kept[k]));
        timers.lemma_filter_contains_rev(goes_on(), kept[k]);
        let i = choose|i: int| 0 <= i < timers.len() && timers[i] == kept[k];
        assert(!timers[i].decay.expires() && still_running(timers)[k] == wound_down()(timers[i]));
    }
    assert forall|i: int|
        0 <= i < timers.len() && !(#[trigger] timers[i]).decay.expires() implies still_running(
        timers,
    ).contains(wound_down()(timers[i])) by {
        timers.lemma_filter_contains(goes_on(), i);
        let k = choose|k: int| 0 <= k < kept.len() && kept[k] == timers[i];
        assert(still_running(timers)[k] == wound_down()(timers[i]));
    }
    assert forall|e: u64| #[trigger]
        expired(timers).contains(e) <==> runs_out_among(timers, e) by {
        if expired(timers).contains(e) {
            let k = choose|k: int| 0 <= k < expired(timers).len() && expired(timers)[k] == e;
            timers.lemma_filter_pred(runs_out(), k);
            assert(dropped.contains(dropped[k]));
            timers.lemma_filter_contains_rev(runs_out(), dropped[k]);
            let i = choose|i: int| 0 <= i < timers.len() && timers[i] == dropped[k];
            assert(timers[i].decay.expires() && timers[i].entity == e);
        }
        if runs_out_among(timers, e) {
            let i = choose|i: int|
                0 <= i < timers.len() && (#[trigger] timers[i]).decay.expires() && timers[i].entity
                    == e;
            timers.lemma_filter_contains(runs_out(), i);
            let k = choose|k: int| 0 <= k < dropped.len() && dropped[k] == timers[i];
            assert(expired(timers)[k] == e);
        }
    }
}

} // verus!

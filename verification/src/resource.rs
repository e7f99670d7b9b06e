use vstd::prelude::*;
use crate::errors::APIErr;
use crate::trigger::TriggerCell;

verus! {

/// The fetch lifecycle of one remote resource: not yet requested, in flight
/// for a generation, or terminally resolved for a generation.
#[derive(Debug, PartialEq, Eq)]
pub enum ResourceState<T> {
    NotTriggered,
    Pending(u64),
    Resolved(u64, Result<T, APIErr>),
}

/// A gated value: either the payload, or the reason no payload was produced.
#[derive(Debug, PartialEq, Eq)]
pub enum LazyLoad<T> {
    Present(T),
    Absent(String),
}

/// One renderable view of a resource. A state maps to exactly one of these.
#[derive(Clone, Copy, Debug, PartialEq, Eq, Structural)]
pub enum ViewKind {
    Neutral,
    Loading,
    Success,
    Failure,
}

/// What can happen to a resource: the trigger is armed, or a fetch for some
/// generation delivers its result.
pub enum RemoteEvent<T> {
    Arm,
    Deliver(u64, Result<T, APIErr>),
}

/// Orchestrates one fetch-and-decode cycle per trigger generation. The cell's
/// generation at arrival time decides whether a delivered resolution is
/// applied or dropped, so an overlapping stale fetch can never overwrite a
/// newer one. An in-flight fetch for a superseded generation is not aborted
/// at the transport; its resolution is ignored on arrival, latest wins.
pub struct RemoteResource<T> {
    pub trigger: TriggerCell,
    pub state: ResourceState<T>,
}

/// Well-formedness: any generation the state shows is the cell's current one.
pub open spec fn resource_wf<T>(r: RemoteResource<T>) -> bool {
    match r.state {
        ResourceState::NotTriggered => true,
        ResourceState::Pending(g) => g == r.trigger.generation,
        ResourceState::Resolved(g, _) => g == r.trigger.generation,
    }
}

/// The one step of the lifecycle: arming starts a new pending generation;
/// a delivery is applied only when its generation is still the current one,
/// and is dropped with no effect otherwise.
pub open spec fn apply_event<T>(r: RemoteResource<T>, e: RemoteEvent<T>) -> RemoteResource<T> {
    match e {
        RemoteEvent::Arm => {
            if r.trigger.generation < u64::MAX {
                RemoteResource {
                    trigger: TriggerCell {
                        armed: true,
                        generation: (r.trigger.generation + 1) as u64,
                    },
                    state: ResourceState::Pending((r.trigger.generation + 1) as u64),
                }
            } else {
                r
            }
        },
        RemoteEvent::Deliver(g, res) => {
            if g == r.trigger.generation {
                RemoteResource { trigger: r.trigger, state: ResourceState::Resolved(g, res) }
            } else {
                r
            }
        },
    }
}

/// The lifecycle folded over a whole sequence of events, in arrival order.
pub open spec fn apply_events<T>(r: RemoteResource<T>, evs: Seq<RemoteEvent<T>>) -> (rr:
    RemoteResource<T>)
    decreases evs.len(),
{
    if evs.len() == 0 {
        r
    } else {
        apply_events(apply_event(r, evs[0]), evs.skip(1))
    }
}

impl<T> RemoteResource<T> {
    /// A fresh resource: nothing has been armed, nothing fetched.
    pub fn new() -> (r: RemoteResource<T>)
        ensures
            (r.trigger == TriggerCell { armed: false, generation: 0u64 }),
            r.state is NotTriggered,
            resource_wf(r),
    {
        RemoteResource { trigger: TriggerCell::new(), state: ResourceState::NotTriggered }
    }

    /// Arms the trigger and puts the new generation's fetch in flight.
    pub fn arm(&mut self)
        requires
            old(self).trigger.generation < u64::MAX,
        ensures
            *final(self) == apply_event(*old(self), RemoteEvent::<T>::Arm),
            final(self).trigger.generation == old(self).trigger.generation + 1,
            final(self).state == ResourceState::<T>::Pending(final(self).trigger.generation),
            resource_wf(*final(self)),
    {
        self.trigger.arm();
        self.state = ResourceState::Pending(self.trigger.generation);
    }

    /// Applies the resolution a fetch delivered for `generation`: stored when
    /// that generation is still current, dropped with no effect when it has
    /// been superseded.
    pub fn resolve(&mut self, generation: u64, result: Result<T, APIErr>)
        ensures
            *final(self) == apply_event(
                *old(self),
                RemoteEvent::Deliver(generation, result),
            ),
            final(self).trigger == old(self).trigger,
            generation == old(self).trigger.generation ==> final(self).state
                == ResourceState::Resolved(generation, result),
            generation != old(self).trigger.generation ==> *final(self) == *old(self),
            resource_wf(*old(self)) ==> resource_wf(*final(self)),
    {
        if generation == self.trigger.generation {
            self.state = ResourceState::Resolved(generation, result);
        }
    }

    /// Disarms the trigger without starting a new generation; the held state
    /// is not touched.
    pub fn reset(&mut self)
        ensures
            final(self).trigger.armed == false,
            final(self).trigger.generation == old(self).trigger.generation,
            final(self).state == old(self).state,
            resource_wf(*old(self)) ==> resource_wf(*final(self)),
    {
        self.trigger.reset();
    }

    /// The current state, for the presentation layer to render from.
    pub fn current(&self) -> (r: &ResourceState<T>)
        ensures
            *r == self.state,
    {
        &self.state
    }
}

/// Maps a resource state to the single view the consumer renders: neutral
/// before any trigger, loading while in flight, then success or failure.
pub fn view_kind<T>(state: &ResourceState<T>) -> (r: ViewKind)
    ensures
        (r == ViewKind::Neutral) <==> state is NotTriggered,
        (r == ViewKind::Loading) <==> state is Pending,
        (r == ViewKind::Success) <==> (state matches ResourceState::Resolved(_, res) && res is Ok),
        (r == ViewKind::Failure) <==> (state matches ResourceState::Resolved(_, res) && res is Err),
{
    match state {
        ResourceState::NotTriggered => ViewKind::Neutral,
        ResourceState::Pending(_) => ViewKind::Loading,
        ResourceState::Resolved(_, Result::Ok(_)) => ViewKind::Success,
        ResourceState::Resolved(_, Result::Err(_)) => ViewKind::Failure,
    }
}

/// Gates a payload on the armed flag, as the fetch orchestration does before
/// it issues any request: the payload when armed, the reason otherwise.
pub fn gate<T>(armed: bool, value: T, reason: String) -> (r: LazyLoad<T>)
    ensures
        armed ==> r == LazyLoad::Present(value),
        !armed ==> r == LazyLoad::<T>::Absent(reason),
{
    if armed {
        LazyLoad::Present(value)
    } else {
        LazyLoad::Absent(reason)
    }
}

/// The payload of the last delivery for generation `g` in `evs`, if any.
pub open spec fn last_delivery_for<T>(evs: Seq<RemoteEvent<T>>, g: u64) -> Option<
    Result<T, APIErr>,
>
    decreases evs.len(),
{
    if evs.len() == 0 {
        Option::None
    } else {
        let rest = last_delivery_for(evs.skip(1), g);
        if rest is Some {
            rest
        } else {
            match evs[0] {
                RemoteEvent::Deliver(gg, res) => if gg == g {
                    Option::Some(res)
                } else {
                    Option::None
                },
                RemoteEvent::Arm => Option::None,
            }
        }
    }
}

/// Once the user stops re-arming, the fetches settle: whatever order the
/// remaining deliveries arrive in, the state ends at the last delivery made
/// for the current — that is, highest armed — generation, and at the prior
/// state if none arrives for it.
pub proof fn lemma_settles_to_last_current_delivery<T>(
    r: RemoteResource<T>,
    evs: Seq<RemoteEvent<T>>,
)
    requires
        resource_wf(r),
        forall|j: int| 0 <= j < evs.len() ==> !(#[trigger] evs[j] is Arm),
    ensures
        apply_events(r, evs).trigger == r.trigger,
        (match last_delivery_for(evs, r.trigger.generation) {
            Option::Some(res) => apply_events(r, evs).state == ResourceState::Resolved(
                r.trigger.generation,
                res,
            ),
            Option::None => apply_events(r, evs).state == r.state,
        }),
    decreases evs.len(),
{
    if evs.len() > 0 {
        let r1 = apply_event(r, evs[0]);
        assert(!(evs[0] is Arm));
        assert(r1.trigger == r.trigger);
        assert(resource_wf(r1));
        assert(forall|j: int| 0 <= j < evs.skip(1).len() ==> !(#[trigger] evs.skip(1)[j] is Arm));
        lemma_settles_to_last_current_delivery(r1, evs.skip(1));
    }
}

/// A resolution for a superseded generation is dropped with no side effect.
pub proof fn lemma_stale_resolution_dropped<T>(
    r: RemoteResource<T>,
    g: u64,
    res: Result<T, APIErr>,
)
    requires
        g != r.trigger.generation,
    ensures
        apply_event(r, RemoteEvent::Deliver(g, res)) == r,
{
}

/// Latest wins: however the arms and deliveries of a whole run interleave,
/// the state left behind is well formed, its generation never moved
/// backwards, and any resolution it shows belongs to the current (highest)
/// generation and was actually delivered — never to an earlier generation.
pub proof fn lemma_latest_wins<T>(r: RemoteResource<T>, evs: Seq<RemoteEvent<T>>)
    requires
        resource_wf(r),
    ensures
        resource_wf(apply_events(r, evs)),
        apply_events(r, evs).trigger.generation >= r.trigger.generation,
        apply_events(r, evs).state matches ResourceState::Resolved(g, _) ==> g == apply_events(
            r,
            evs,
        ).trigger.generation,
        forall|g: u64, res: Result<T, APIErr>|
            (apply_events(r, evs).state == ResourceState::<T>::Resolved(g, res) && r.state
                != ResourceState::<T>::Resolved(g, res)) ==> exists|i: int|
                0 <= i < evs.len() && evs[i] == RemoteEvent::Deliver(g, res),
    decreases evs.len(),
{
    if evs.len() == 0 {
    } else {
        let r1 = apply_event(r, evs[0]);
        assert(resource_wf(r1));
        lemma_latest_wins(r1, evs.skip(1));
        let rf = apply_events(r, evs);
        assert(rf == apply_events(r1, evs.skip(1)));
        match rf.state {
            ResourceState::Resolved(g, res) => {
                if !(r.state == ResourceState::<T>::Resolved(g, res)) {
                    if r1.state == ResourceState::<T>::Resolved(g, res) {
                        assert(evs[0] == RemoteEvent::Deliver(g, res));
                    } else {
                        let i = choose|i: int|
                            0 <= i < evs.skip(1).len() && evs.skip(1)[i] == RemoteEvent::Deliver(
                                g,
                                res,
                            );
                        assert(evs[i + 1] == RemoteEvent::Deliver(g, res));
                    }
                }
            },
            _ => {},
        }
    }
}

} // verus!

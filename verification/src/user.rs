use vstd::prelude::*;

use crate::request::{ComputeRequest, StepCompute, StepView};

verus! {

/// A user as a compute node holds it: the last step it was computed to, its
/// position and velocity (of type `V`), and its money.
#[derive(Debug, Clone, Copy)]
pub struct ComputeUser<V> {
    pub step: usize,
    pub position: V,
    pub velocity: V,
    pub money: u64,
}

/// A user as its user node holds it: besides the computed state, the
/// requests gathered for the next step and the log of all steps so far.
#[derive(Debug)]
pub struct User<V, R> {
    pub step: usize,
    pub next_step: StepCompute<V, R>,
    pub steps: Vec<StepCompute<V, R>>,
    pub position: V,
    pub velocity: V,
    pub money: u64,
}

/// The log of steps of a user, each step by its model.
pub open spec fn steps_view<V, R>(steps: Seq<StepCompute<V, R>>) -> Seq<StepView<V, R>> {
    steps.map_values(|s: StepCompute<V, R>| s@)
}

/// The log of steps once the pending step is closed: the pending step is
/// appended unless it holds no request.
pub open spec fn closed_steps<V, R>(steps: Seq<StepView<V, R>>, pending: StepView<V, R>) -> Seq<
    StepView<V, R>,
> {
    if pending.is_empty() {
        steps
    } else {
        steps.push(pending)
    }
}

impl<V, R> User<V, R> {
    /// A user at `position`, moving at `velocity`, with no money, no step
    /// and no request.
    pub fn new(position: V, velocity: V) -> (res: Self)
        ensures
            res.step == 0,
            res.next_step@ == StepView::<V, R>::empty(),
            res.steps@.len() == 0,
            res.position == position,
            res.velocity == velocity,
            res.money == 0,
    {
        User {
            step: 0,
            next_step: StepCompute::default(),
            steps: Vec::new(),
            position,
            velocity,
            money: 0,
        }
    }

    /// Takes the state that a compute node computed for the user; the
    /// requests and the log of steps stay.
    pub fn update(&mut self, new: ComputeUser<V>)
        ensures
            final(self).step == new.step,
            final(self).position == new.position,
            final(self).velocity == new.velocity,
            final(self).money == new.money,
            final(self).next_step == old(self).next_step,
            final(self).steps == old(self).steps,
    {
        let ComputeUser { step, position, velocity, money } = new;
        self.step = step;
        self.position = position;
        self.velocity = velocity;
        self.money = money;
    }

    /// Adds a request to the step being gathered.
    pub fn add_compute_request(&mut self, request: ComputeRequest<V, R>)
        ensures
            final(self).next_step@ == old(self).next_step@.added(request),
            final(self).steps == old(self).steps,
            final(self).step == old(self).step,
            final(self).position == old(self).position,
            final(self).velocity == old(self).velocity,
            final(self).money == old(self).money,
    {
        self.next_step.add(request)
    }
}

impl<V: Copy, R: Copy> User<V, R> {
    /// Closes the step being gathered, appending it to the log unless it is
    /// empty, and answers a compute node that has computed the first
    /// `old_step` steps: the number of steps in the log and copies of those
    /// it has not computed yet.
    pub fn compute_next(&mut self, old_step: usize) -> (res: (usize, Vec<StepCompute<V, R>>))
        requires
            old_step <= closed_steps(steps_view(old(self).steps@), old(self).next_step@).len(),
        ensures
            steps_view(final(self).steps@) == closed_steps(
                steps_view(old(self).steps@),
                old(self).next_step@,
            ),
            final(self).next_step@ == StepView::<V, R>::empty(),
            res.0 == final(self).steps@.len(),
            steps_view(res.1@) == steps_view(final(self).steps@).skip(old_step as int),
            final(self).step == old(self).step,
            final(self).position == old(self).position,
            final(self).velocity == old(self).velocity,
            final(self).money == old(self).money,
    {
        let ghost before = steps_view(self.steps@);
        let ghost pending = self.next_step@;
        if let Some(step) = self.next_step.clear() {
            self.steps.push(step);
            assert(steps_view(self.steps@) =~= before.push(pending));
        }
        assert(self.next_step@ == StepView::<V, R>::empty()) by {
            if pending.is_empty() {
                assert(pending.aoe =~= Seq::<(u64, R, u64)>::empty());
            }
        }
        let len = self.steps.len();
        let mut tail: Vec<StepCompute<V, R>> = Vec::new();
        let mut i: usize = old_step;
        while i < len
            invariant
                old_step <= i <= len,
                len == self.steps@.len(),
                steps_view(tail@) == steps_view(self.steps@).subrange(old_step as int, i as int),
            decreases len - i,
        {
            let copy = self.steps[i].clone();
            assert(copy@ == self.steps@[i as int]@);
            let ghost prev = tail@;
            tail.push(copy);
            assert(steps_view(tail@) =~= steps_view(prev).push(copy@));
            assert(steps_view(tail@) =~= steps_view(self.steps@).subrange(
                old_step as int,
                i + 1,
            ));
            i += 1;
        }
        assert(steps_view(self.steps@).skip(old_step as int) =~= steps_view(self.steps@).subrange(
            old_step as int,
            len as int,
        ));
        (len, tail)
    }
}

/// The log of steps only grows: closing a step keeps every earlier step in
/// place.
pub proof fn law_steps_append_only<V, R>(steps: Seq<StepView<V, R>>, pending: StepView<V, R>)
    ensures
        closed_steps(steps, pending).len() >= steps.len(),
        closed_steps(steps, pending).take(steps.len() as int) == steps,
{
    assert(closed_steps(steps, pending).take(steps.len() as int) =~= steps);
}

/// Closing again with no new request changes nothing: the count answered
/// stays the same.
pub proof fn law_close_idempotent<V, R>(steps: Seq<StepView<V, R>>, pending: StepView<V, R>)
    ensures
        closed_steps(closed_steps(steps, pending), StepView::<V, R>::empty()) == closed_steps(
            steps,
            pending,
        ),
{
}

/// A compute node that has computed every step gets no step back.
pub proof fn law_caught_up_gets_nothing<V, R>(steps: Seq<StepView<V, R>>)
    ensures
        steps.skip(steps.len() as int).len() == 0,
{
}

/// A request added before a step is closed ends up in the last step of the
/// log, which grows by exactly that step.
pub proof fn law_request_reaches_log<V, R>(
    steps: Seq<StepView<V, R>>,
    pending: StepView<V, R>,
    request: ComputeRequest<V, R>,
)
    ensures
        closed_steps(steps, pending.added(request)) == steps.push(pending.added(request)),
{
}

} // verus!

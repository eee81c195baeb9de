use vstd::prelude::*;

verus! {

/// The requests of one user gathered for one step of the world: a logout, a
/// new velocity, and area attacks. The velocity is of type `V` and the radius
/// of an attack of type `R`; the library only stores and forwards them.
#[derive(Debug, PartialEq)]
pub struct StepCompute<V, R> {
    /// Uid of a user that logs out.
    pub logout: Option<u64>,
    /// Uid of a user and its new velocity.
    pub set_velocity: Option<(u64, V)>,
    /// Area attacks: uid of the attacker, radius, money.
    pub aoe: Vec<(u64, R, u64)>,
}

/// Mathematical model of a [`StepCompute`].
pub struct StepView<V, R> {
    pub logout: Option<u64>,
    pub set_velocity: Option<(u64, V)>,
    pub aoe: Seq<(u64, R, u64)>,
}

impl<V, R> View for StepCompute<V, R> {
    type V = StepView<V, R>;

    open spec fn view(&self) -> StepView<V, R> {
        StepView { logout: self.logout, set_velocity: self.set_velocity, aoe: self.aoe@ }
    }
}

impl<V, R> StepView<V, R> {
    /// A step with no request in it.
    pub open spec fn empty() -> Self {
        StepView { logout: None, set_velocity: None, aoe: Seq::empty() }
    }

    /// Whether the step holds no request.
    pub open spec fn is_empty(self) -> bool {
        &&& self.logout is None
        &&& self.set_velocity is None
        &&& self.aoe.len() == 0
    }

    /// The step once `request` is added to it: a logout or a velocity replaces
    /// the one before, an attack is appended.
    pub open spec fn added(self, request: ComputeRequest<V, R>) -> Self {
        match request {
            ComputeRequest::Logout(uid) => StepView { logout: Some(uid), ..self },
            ComputeRequest::SetVelocity(SetVelocity { uid, velocity }) => StepView {
                set_velocity: Some((uid, velocity)),
                ..self
            },
            ComputeRequest::Aoe(Aoe { uid, radius, money }) => StepView {
                aoe: self.aoe.push((uid, radius, money)),
                ..self
            },
        }
    }
}

impl<V, R> Default for StepCompute<V, R> {
    fn default() -> (res: Self)
        ensures
            res@ == StepView::<V, R>::empty(),
    {
        let res = StepCompute { logout: None, set_velocity: None, aoe: Vec::new() };
        assert(res@.aoe =~= Seq::<(u64, R, u64)>::empty());
        res
    }
}

impl<V: Copy, R: Copy> Clone for StepCompute<V, R> {
    fn clone(&self) -> (res: Self)
        ensures
            res@ == self@,
    {
        let mut aoe: Vec<(u64, R, u64)> = Vec::new();
        let mut i: usize = 0;
        while i < self.aoe.len()
            invariant
                i <= self.aoe@.len(),
                aoe@ == self.aoe@.take(i as int),
            decreases self.aoe@.len() - i,
        {
            let item: (u64, R, u64) = self.aoe[i];
            aoe.push(item);
            assert(self.aoe@.take(i + 1) =~= self.aoe@.take(i as int).push(item));
            i += 1;
        }
        assert(self.aoe@.take(self.aoe@.len() as int) =~= self.aoe@);
        StepCompute { logout: self.logout, set_velocity: self.set_velocity, aoe }
    }
}

impl<V, R> StepCompute<V, R> {
    /// Whether the step holds no request.
    pub fn is_empty(&self) -> (res: bool)
        ensures
            res == self@.is_empty(),
    {
        self.aoe.len() == 0 && self.logout.is_none() && self.set_velocity.is_none()
    }

    /// Adds a request to the step.
    pub fn add(&mut self, request: ComputeRequest<V, R>)
        ensures
            final(self)@ == old(self)@.added(request),
    {
        match request {
            ComputeRequest::Logout(uid) => self.logout = Some(uid),
            ComputeRequest::SetVelocity(SetVelocity { uid, velocity }) => {
                self.set_velocity = Some((uid, velocity))
            },
            ComputeRequest::Aoe(Aoe { uid, radius, money }) => self.aoe.push((uid, radius, money)),
        }
    }
}

impl<V: Copy, R: Copy> StepCompute<V, R> {
    /// Takes the requests out of the step: `None` when it holds none,
    /// otherwise a copy of the step, which is left empty.
    pub fn clear(&mut self) -> (res: Option<Self>)
        ensures
            old(self)@.is_empty() ==> res is None && final(self)@ == old(self)@,
            !old(self)@.is_empty() ==> res is Some && res->Some_0@ == old(self)@
                && final(self)@ == StepView::<V, R>::empty(),
    {
        if self.is_empty() {
            return None;
        }
        let step = self.clone();
        self.aoe.clear();
        self.logout = None;
        self.set_velocity = None;
        assert(self@.aoe =~= Seq::<(u64, R, u64)>::empty());
        Some(step)
    }
}

/// A request of a user for the next step.
#[derive(Debug)]
pub enum ComputeRequest<V, R> {
    Logout(u64),
    SetVelocity(SetVelocity<V>),
    Aoe(Aoe<R>),
}

/// A request that names a user.
#[derive(Debug, Clone, Copy)]
pub struct Uid {
    pub uid: u64,
}

/// A user's new velocity.
#[derive(Debug, Clone, Copy)]
pub struct SetVelocity<V> {
    pub uid: u64,
    pub velocity: V,
}

/// An area attack of a user: everyone else within `radius` receives `money`.
#[derive(Debug, Clone, Copy)]
pub struct Aoe<R> {
    pub uid: u64,
    pub radius: R,
    pub money: u64,
}

/// A query for the users in the rectangle from `min` to `max`.
#[derive(Debug, Clone, Copy)]
pub struct Query<V> {
    pub min: V,
    pub max: V,
}

/// A step with a request added to it is never empty, so closing it always
/// yields a step.
pub proof fn law_added_step_not_empty<V, R>(step: StepView<V, R>, request: ComputeRequest<V, R>)
    ensures
        !step.added(request).is_empty(),
{
}

/// Clearing a step leaves it empty, so a second clear right after the first
/// yields nothing.
pub proof fn law_clear_leaves_empty<V, R>(step: StepView<V, R>)
    ensures
        (if step.is_empty() {
            step
        } else {
            StepView::<V, R>::empty()
        }).is_empty(),
{
}

/// A logout or a velocity replaces the previous one; attacks accumulate in
/// the order they are added.
pub proof fn law_requests_accumulate<V, R>(step: StepView<V, R>, a: Aoe<R>, b: Aoe<R>)
    ensures
        step.added(ComputeRequest::Aoe(a)).added(ComputeRequest::Aoe(b)).aoe == step.aoe.push(
            (a.uid, a.radius, a.money),
        ).push((b.uid, b.radius, b.money)),
{
}

/// The last logout or velocity added is the one the step keeps.
pub proof fn law_last_request_wins<V, R>(step: StepView<V, R>, x: u64, y: u64, u: SetVelocity<V>, w: SetVelocity<V>)
    ensures
        step.added(ComputeRequest::Logout(x)).added(ComputeRequest::Logout(y)).logout == Some(y),
        step.added(ComputeRequest::SetVelocity(u)).added(ComputeRequest::SetVelocity(w)).set_velocity
            == Some((w.uid, w.velocity)),
{
}

/// Each request touches only its own part of the step: a logout keeps the
/// velocity and the attacks, a velocity keeps the logout and the attacks,
/// and an attack keeps the logout and the velocity and is appended after
/// the attacks already gathered.
pub proof fn law_request_touches_only_its_part<V, R>(
    step: StepView<V, R>,
    uid: u64,
    v: SetVelocity<V>,
    a: Aoe<R>,
)
    ensures
        step.added(ComputeRequest::Logout(uid)).logout == Some(uid),
        step.added(ComputeRequest::Logout(uid)).set_velocity == step.set_velocity,
        step.added(ComputeRequest::Logout(uid)).aoe == step.aoe,
        step.added(ComputeRequest::SetVelocity(v)).set_velocity == Some((v.uid, v.velocity)),
        step.added(ComputeRequest::SetVelocity(v)).logout == step.logout,
        step.added(ComputeRequest::SetVelocity(v)).aoe == step.aoe,
        step.added(ComputeRequest::Aoe(a)).logout == step.logout,
        step.added(ComputeRequest::Aoe(a)).set_velocity == step.set_velocity,
        step.added(ComputeRequest::Aoe(a)).aoe.len() == step.aoe.len() + 1,
        step.added(ComputeRequest::Aoe(a)).aoe.take(step.aoe.len() as int) == step.aoe,
        step.added(ComputeRequest::Aoe(a)).aoe.last() == (a.uid, a.radius, a.money),
{
    assert(step.added(ComputeRequest::Aoe(a)).aoe.take(step.aoe.len() as int) =~= step.aoe);
}

/// The empty step holds no request, and a step holding nothing is the empty
/// step.
pub proof fn law_empty_step<V, R>(step: StepView<V, R>)
    ensures
        StepView::<V, R>::empty().is_empty(),
        StepView::<V, R>::empty().logout is None,
        StepView::<V, R>::empty().set_velocity is None,
        StepView::<V, R>::empty().aoe.len() == 0,
        step.is_empty() <==> (step.logout is None && step.set_velocity is None && step.aoe.len()
            == 0),
{
}

} // verus!

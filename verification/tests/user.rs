use game_world::request::{Aoe, ComputeRequest, SetVelocity, StepCompute};
use game_world::user::{ComputeUser, User};
use rand::Rng;

#[derive(Debug, Default, Clone, Copy, PartialEq)]
struct Vector2 {
    x: f32,
    y: f32,
}

fn random_user() -> User<Vector2, f32> {
    let mut rng = rand::thread_rng();
    User::new(
        Vector2 {
            x: rng.gen_range(-100000.0..=100000.0),
            y: rng.gen_range(-100000.0..=100000.0),
        },
        Vector2::default(),
    )
}

#[test]
fn next_step() {
    let mut user = random_user();
    user.add_compute_request(ComputeRequest::SetVelocity(SetVelocity {
        uid: 0,
        velocity: Vector2 { x: 0.0, y: 0.0 },
    }));
    user.add_compute_request(ComputeRequest::Aoe(Aoe {
        uid: 0,
        radius: 5.0,
        money: 100,
    }));
    user.add_compute_request(ComputeRequest::Aoe(Aoe {
        uid: 0,
        radius: 6.0,
        money: 100,
    }));

    let (a_step_num, a_step) = user.compute_next(0);
    let step = StepCompute {
        logout: None,
        set_velocity: Some((0, Vector2 { x: 0.0, y: 0.0 })),
        aoe: vec![(0, 5.0, 100), (0, 6.0, 100)],
    };
    let step = vec![step.clone()];

    assert_eq!(a_step_num, 1);
    assert_eq!(a_step, step);

    user.add_compute_request(ComputeRequest::SetVelocity(SetVelocity {
        uid: 0,
        velocity: Vector2 { x: 0.0, y: 0.0 },
    }));
    user.add_compute_request(ComputeRequest::Aoe(Aoe {
        uid: 0,
        radius: 5.0,
        money: 100,
    }));
    user.add_compute_request(ComputeRequest::Aoe(Aoe {
        uid: 0,
        radius: 6.0,
        money: 100,
    }));

    let (b_step_num, b_step) = user.compute_next(0);
    let step = StepCompute {
        logout: None,
        set_velocity: Some((0, Vector2 { x: 0.0, y: 0.0 })),
        aoe: vec![(0, 5.0, 100), (0, 6.0, 100)],
    };
    let step = vec![step.clone(), step];

    assert_eq!(b_step_num, 2);
    assert_eq!(b_step, step);

    let (c_step_num, c_step) = user.compute_next(2);
    assert_eq!(c_step_num, 2);
    assert_eq!(c_step.len(), 0);
}

#[test]
fn empty_step_is_not_logged() {
    let mut user = random_user();
    let (n, steps) = user.compute_next(0);
    assert_eq!(0, n);
    assert!(steps.is_empty());
    user.add_compute_request(ComputeRequest::Logout(7));
    let (n, steps) = user.compute_next(0);
    assert_eq!(1, n);
    assert_eq!(Some(7), steps[0].logout);
    let (n, steps) = user.compute_next(1);
    assert_eq!(1, n);
    assert!(steps.is_empty());
    // a compute node behind gets the steps it misses, again
    let (n, steps) = user.compute_next(0);
    assert_eq!(1, n);
    assert_eq!(1, steps.len());
}

#[test]
fn later_requests_replace_earlier_ones() {
    let mut step: StepCompute<Vector2, f32> = StepCompute::default();
    assert!(step.is_empty());
    assert!(step.clear().is_none());
    step.add(ComputeRequest::Logout(1));
    step.add(ComputeRequest::Logout(2));
    step.add(ComputeRequest::SetVelocity(SetVelocity { uid: 1, velocity: Vector2 { x: 1.0, y: 0.0 } }));
    step.add(ComputeRequest::SetVelocity(SetVelocity { uid: 2, velocity: Vector2 { x: 2.0, y: 0.0 } }));
    let taken = step.clear().unwrap();
    assert_eq!(Some(2), taken.logout);
    assert_eq!(Some((2, Vector2 { x: 2.0, y: 0.0 })), taken.set_velocity);
    assert!(step.is_empty());
    assert!(step.clear().is_none());
}

#[test]
fn update_keeps_requests() {
    let mut user = random_user();
    user.add_compute_request(ComputeRequest::Logout(3));
    user.update(ComputeUser {
        step: 4,
        position: Vector2 { x: 1.0, y: 2.0 },
        velocity: Vector2 { x: 3.0, y: 4.0 },
        money: 50,
    });
    assert_eq!(4, user.step);
    assert_eq!(Vector2 { x: 1.0, y: 2.0 }, user.position);
    assert_eq!(Vector2 { x: 3.0, y: 4.0 }, user.velocity);
    assert_eq!(50, user.money);
    assert_eq!(Some(3), user.next_step.logout);
    assert!(user.steps.is_empty());
}

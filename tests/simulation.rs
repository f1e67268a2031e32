use nbody::body::Body;
use nbody::cycle::{find_repeat, Outcome};
use nbody::system::System;
use nbody::vec3::{sign_of_difference, Position, Vec3};


fn example1_positions() -> Vec<Position> {
    vec![
        Position { x: -1, y: 0, z: 2 },
        Position {
            x: 2,
            y: -10,
            z: -7,
        },
        Position { x: 4, y: -8, z: 8 },
        Position { x: 3, y: 5, z: -1 },
    ]
}

#[test]
fn example1() {
    let positions = vec![
        Position { x: -1, y: 0, z: 2 },
        Position {
            x: 2,
            y: -10,
            z: -7,
        },
        Position { x: 4, y: -8, z: 8 },
        Position { x: 3, y: 5, z: -1 },
    ];
    let mut system = System::new(positions);

    for _ in 0..10 {
        system.step()
    }
    assert_eq!(system.total_energy(), 179);
}

#[test]
fn example2() {
    let positions = vec![
        Position {
            x: -8,
            y: -10,
            z: 0,
        },
        Position { x: 5, y: 5, z: 10 },
        Position { x: 2, y: -7, z: 3 },
        Position { x: 9, y: -8, z: -3 },
    ];
    let mut system = System::new(positions);

    for _ in 0..100 {
        system.step()
    }
    assert_eq!(system.total_energy(), 1940);
}

#[test]
fn new_system_is_at_rest() {
    let system = System::new(example1_positions());
    assert_eq!(
        system.state(),
        vec![-1, 0, 2, 0, 0, 0, 2, -10, -7, 0, 0, 0, 4, -8, 8, 0, 0, 0, 3, 5, -1, 0, 0, 0]
    );
    assert_eq!(system.total_energy(), 0);
}

#[test]
fn one_step_of_example1() {
    let mut system = System::new(example1_positions());
    system.step();
    assert_eq!(
        system.state(),
        vec![2, -1, 1, 3, -1, -1, 3, -7, -4, 1, 3, 3, 1, -7, 5, -3, 1, -3, 2, 2, 0, -1, -3, 1]
    );
}

#[test]
fn energy_is_not_monotonic() {
    let mut system = System::new(example1_positions());
    let mut energies = Vec::new();
    for _ in 0..100 {
        system.step();
        energies.push(system.total_energy());
    }
    assert!(energies.windows(2).any(|w| w[1] < w[0]));
    assert!(energies.windows(2).any(|w| w[1] > w[0]));
}

#[test]
fn runs_are_reproducible() {
    let mut a = System::new(example1_positions());
    let mut b = System::new(example1_positions());
    for _ in 0..57 {
        a.step();
        b.step();
    }
    assert_eq!(a.state(), b.state());
    assert_eq!(a.total_energy(), b.total_energy());
}

#[test]
fn pair_update_is_symmetric() {
    let p = Position { x: 1, y: 5, z: -2 };
    let q = Position { x: 3, y: 5, z: -9 };
    let (mut a1, mut b1) = (Body::new(p), Body::new(q));
    a1.calc_gravity(&mut b1);
    let (mut a2, mut b2) = (Body::new(p), Body::new(q));
    b2.calc_gravity(&mut a2);
    assert_eq!(a1, a2);
    assert_eq!(b1, b2);
    assert_eq!(a1.velocity, Vec3 { x: 1, y: 0, z: -1 });
    assert_eq!(b1.velocity, Vec3 { x: -1, y: 0, z: 1 });
}

#[test]
fn velocity_sums_are_conserved() {
    let mut system = System::new(example1_positions());
    for _ in 0..200 {
        system.step();
        let st = system.state();
        for axis in 0..3 {
            let sum: i64 = (0..4).map(|b| st[6 * b + 3 + axis]).sum();
            assert_eq!(sum, 0);
        }
    }
}

#[test]
fn cap_is_reached_before_any_repeat() {
    let system = System::new(example1_positions());
    let mut reference = System::new(example1_positions());
    for _ in 0..1000 {
        reference.step();
    }
    assert_eq!(
        find_repeat(system, 1000),
        Outcome::EnergyAtCap(reference.total_energy())
    );
}

#[test]
fn cycle_of_two_bodies_is_found() {
    let system = System::new(vec![
        Position { x: 0, y: 0, z: 0 },
        Position { x: 1, y: 0, z: 0 },
    ]);
    assert_eq!(find_repeat(system, 1000), Outcome::CycleFound(5));
}

#[test]
fn bodies_at_one_point_repeat_at_once() {
    let system = System::new(vec![
        Position { x: 7, y: -3, z: 2 },
        Position { x: 7, y: -3, z: 2 },
    ]);
    assert_eq!(find_repeat(system, 1000), Outcome::CycleFound(2));
}

#[test]
fn example1_cycle_is_found() {
    let system = System::new(example1_positions());
    assert_eq!(find_repeat(system, 3000), Outcome::CycleFound(2773));
}

#[test]
fn cap_of_one_reports_energy_after_one_step() {
    let system = System::new(example1_positions());
    let mut reference = System::new(example1_positions());
    reference.step();
    assert_eq!(
        find_repeat(system, 1),
        Outcome::EnergyAtCap(reference.total_energy())
    );
}

#[test]
fn step_out_of_range_is_reported() {
    let system = System::new(vec![
        Position {
            x: i64::MAX - 1,
            y: 0,
            z: 0,
        },
        Position { x: 0, y: 0, z: 0 },
    ]);
    assert!(!system.can_step());
    assert_eq!(find_repeat(system, 10), Outcome::Overflow(0));
}

#[test]
fn energy_out_of_range_is_reported() {
    let mut system = System::new(vec![
        Position {
            x: 1 << 40,
            y: 0,
            z: 0,
        },
        Position {
            x: -(1 << 40),
            y: 0,
            z: 0,
        },
    ]);
    system.bodies[0].velocity = Vec3 { x: 1 << 30, y: 0, z: 0 };
    assert_eq!(system.checked_total_energy(), None);
    let start = System::new(vec![
        Position {
            x: 1 << 40,
            y: 0,
            z: 0,
        },
        Position { x: 0, y: 0, z: 0 },
    ]);
    assert_eq!(find_repeat(start, 1), Outcome::EnergyAtCap(1 << 40));
}

#[test]
fn body_energies() {
    let b = Body {
        position: Vec3 { x: 2, y: 1, z: -3 },
        velocity: Vec3 { x: -3, y: -2, z: 1 },
    };
    assert_eq!(b.potential_energy(), 6);
    assert_eq!(b.kinetic_energy(), 6);
    assert_eq!(b.total_energy(), 36);
    assert_eq!(b.checked_total_energy(), Some(36));
    let big = Body {
        position: Vec3 { x: i64::MIN, y: i64::MIN, z: i64::MIN },
        velocity: Vec3 { x: 2, y: 0, z: 0 },
    };
    assert_eq!(big.potential_energy(), 3u128 << 63);
    assert_eq!(big.checked_total_energy(), None);
}

#[test]
fn update_pos_moves_by_velocity() {
    let mut b = Body {
        position: Vec3 { x: 2, y: 1, z: -3 },
        velocity: Vec3 { x: -3, y: -2, z: 1 },
    };
    b.update_pos();
    assert_eq!(b.position, Vec3 { x: -1, y: -1, z: -2 });
    assert_eq!(b.velocity, Vec3 { x: -3, y: -2, z: 1 });
}

#[test]
fn vector_basics() {
    let mut v = Vec3::new();
    assert_eq!(v, Vec3 { x: 0, y: 0, z: 0 });
    v.add_assign(Vec3 { x: 4, y: -5, z: 6 });
    v.add_assign(Vec3 { x: 1, y: 1, z: -6 });
    assert_eq!(v, Vec3 { x: 5, y: -4, z: 0 });
    assert_eq!(sign_of_difference(3, -7), 1);
    assert_eq!(sign_of_difference(-7, 3), -1);
    assert_eq!(sign_of_difference(i64::MIN, i64::MAX), -1);
    assert_eq!(sign_of_difference(4, 4), 0);
}

#[test]
fn reverse_pair_order_gives_the_same_step() {
    let mut system = System::new(example1_positions());
    for _ in 0..3 {
        system.step();
    }
    let mut bodies = system.bodies.clone();
    let n = bodies.len();
    for i in (0..n).rev() {
        for j in (0..i).rev() {
            let (mut a, mut b) = (bodies[i], bodies[j]);
            a.calc_gravity(&mut b);
            bodies[i] = a;
            bodies[j] = b;
        }
    }
    for b in bodies.iter_mut() {
        b.update_pos();
    }
    system.step();
    assert_eq!(system.bodies, bodies);
}

#[test]
fn single_body_never_moves() {
    let mut system = System::new(vec![Position { x: 3, y: -4, z: 5 }]);
    system.step();
    assert_eq!(system.state(), vec![3, -4, 5, 0, 0, 0]);
    assert_eq!(system.total_energy(), 0);
    assert_eq!(find_repeat(system, 1000), Outcome::CycleFound(2));
}

#[test]
fn empty_system() {
    let mut system = System::new(Vec::new());
    system.step();
    assert_eq!(system.state(), Vec::<i64>::new());
    assert_eq!(system.total_energy(), 0);
    assert_eq!(find_repeat(system, 1), Outcome::EnergyAtCap(0));
}

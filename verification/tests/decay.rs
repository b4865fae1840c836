use skirmish::decay::{decay_system, Decay, Timer, ATTACK_DECAY};

#[test]
fn counter_of_one_is_destroyed_on_the_next_step() {
    assert_eq!(Decay { counter: 1 }.tick(), None);
    let pass = decay_system(&vec![Timer { entity: 5, decay: Decay { counter: 1 } }]);
    assert_eq!(pass.expired, vec![5]);
    assert!(pass.running.is_empty());
}

#[test]
fn tick_lowers_the_counter_by_one() {
    assert_eq!(Decay { counter: 2 }.tick(), Some(Decay { counter: 1 }));
    assert_eq!(Decay { counter: 32 }.tick(), Some(Decay { counter: 31 }));
    assert_eq!(Decay { counter: usize::MAX }.tick(), Some(Decay { counter: usize::MAX - 1 }));
}

#[test]
fn counter_of_zero_is_guarded() {
    assert_eq!(Decay { counter: 0 }.tick(), None);
    let pass = decay_system(&vec![Timer { entity: 8, decay: Decay { counter: 0 } }]);
    assert_eq!(pass.expired, vec![8]);
    assert!(pass.running.is_empty());
}

#[test]
fn entity_lives_through_n_minus_one_steps() {
    for n in 1..=40usize {
        let mut timers = vec![Timer { entity: 1, decay: Decay { counter: n } }];
        for step in 1..=n + 3 {
            let pass = decay_system(&timers);
            if step < n {
                assert_eq!(
                    pass.running,
                    vec![Timer { entity: 1, decay: Decay { counter: n - step } }]
                );
                assert!(pass.expired.is_empty());
            } else if step == n {
                assert!(pass.running.is_empty());
                assert_eq!(pass.expired, vec![1]);
            } else {
                assert!(pass.running.is_empty());
                assert!(pass.expired.is_empty());
            }
            timers = pass.running;
        }
    }
}

#[test]
fn attack_lasts_thirty_two_steps() {
    assert_eq!(ATTACK_DECAY, 32);
    let mut decay = Some(Decay { counter: ATTACK_DECAY });
    let mut steps = 0;
    while let Some(d) = decay {
        assert!(d.counter > 0);
        decay = d.tick();
        steps += 1;
    }
    assert_eq!(steps, 32);
}

#[test]
fn pass_keeps_the_order_and_counts_every_timer() {
    let timers = vec![
        Timer { entity: 10, decay: Decay { counter: 3 } },
        Timer { entity: 11, decay: Decay { counter: 1 } },
        Timer { entity: 12, decay: Decay { counter: 2 } },
        Timer { entity: 13, decay: Decay { counter: 1 } },
        Timer { entity: 14, decay: Decay { counter: 7 } },
    ];
    let pass = decay_system(&timers);
    assert_eq!(
        pass.running,
        vec![
            Timer { entity: 10, decay: Decay { counter: 2 } },
            Timer { entity: 12, decay: Decay { counter: 1 } },
            Timer { entity: 14, decay: Decay { counter: 6 } },
        ]
    );
    assert_eq!(pass.expired, vec![11, 13]);
    assert_eq!(pass.running.len() + pass.expired.len(), timers.len());
    assert!(pass.running.iter().all(|t| t.decay.counter > 0));
}

#[test]
fn empty_pass() {
    let pass = decay_system(&vec![]);
    assert!(pass.running.is_empty());
    assert!(pass.expired.is_empty());
}

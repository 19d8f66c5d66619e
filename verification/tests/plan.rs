use kerbx::flightplan::{
    diagnose, gen_alt_trigger, gen_flightplan_from_steps, gen_other_step, gen_pos_trigger,
    gen_reorient_step, gen_throttle_step, gen_time_trigger, validate, Action, ActionType, FlightPlan,
    PlanFault, Step, Trigger, UNIT,
};
use kerbx::trigger::{check, in_window, Reading, WINDOW};
use protobuf::RepeatedField;

fn reading_at(time: u64, lat: i64, lon: i64, alt: i64) -> Reading {
    Reading { time, lat, lon, alt, yaw: 0, pitch: 0, roll: 0, velocity: 0 }
}

fn ignite_at_zero() -> Step {
    gen_other_step(1, ActionType::Ignite, gen_time_trigger(0))
}

#[test]
fn it_works() {
    assert_eq!(2 + 2, 4);
}

#[test]
fn minimal_plan_is_valid() {
    let plan = FlightPlan {
        step_count: 1,
        steps: RepeatedField::from_vec(vec![Step {
            count: 0,
            action: Action::Ignite,
            trigger: Some(Trigger::Time { seconds_since_epoch: 0 }),
        }]),
    };
    assert!(validate(&plan));
    assert_eq!(diagnose(&plan), Ok(()));
}

#[test]
fn empty_plan_is_rejected() {
    let plan = FlightPlan { step_count: 0, steps: RepeatedField::new() };
    assert!(!validate(&plan));
    assert_eq!(diagnose(&plan), Err(PlanFault::NoSteps));
    let built = gen_flightplan_from_steps(vec![]);
    assert_eq!(built.step_count, 0);
    assert!(!validate(&built));
}

#[test]
fn plan_with_wrong_count_is_rejected() {
    let plan = FlightPlan { step_count: 2, steps: RepeatedField::from_vec(vec![ignite_at_zero()]) };
    assert!(!validate(&plan));
    assert_eq!(diagnose(&plan), Err(PlanFault::CountMismatch));
    let none_held = FlightPlan { step_count: 1, steps: RepeatedField::new() };
    assert_eq!(diagnose(&none_held), Err(PlanFault::CountMismatch));
}

#[test]
fn first_step_must_ignite() {
    let plan = gen_flightplan_from_steps(vec![gen_other_step(
        1,
        ActionType::Coast,
        gen_time_trigger(0),
    )]);
    assert!(!validate(&plan));
    assert_eq!(diagnose(&plan), Err(PlanFault::FirstNotIgnite));
    let throttle_first =
        gen_flightplan_from_steps(vec![gen_throttle_step(1, UNIT, gen_time_trigger(0))]);
    assert_eq!(diagnose(&throttle_first), Err(PlanFault::FirstNotIgnite));
}

#[test]
fn first_trigger_must_be_time_zero() {
    let late = gen_flightplan_from_steps(vec![gen_other_step(
        1,
        ActionType::Ignite,
        gen_time_trigger(5),
    )]);
    assert!(!validate(&late));
    assert_eq!(diagnose(&late), Err(PlanFault::FirstTriggerNotZero));
    let by_altitude = gen_flightplan_from_steps(vec![gen_other_step(
        1,
        ActionType::Ignite,
        gen_alt_trigger(0),
    )]);
    assert!(!validate(&by_altitude));
    assert_eq!(diagnose(&by_altitude), Err(PlanFault::FirstTriggerNotTime));
    let by_position = gen_flightplan_from_steps(vec![gen_other_step(
        1,
        ActionType::Ignite,
        gen_pos_trigger(0, 0),
    )]);
    assert_eq!(diagnose(&by_position), Err(PlanFault::FirstTriggerNotTime));
}

#[test]
fn every_step_needs_a_trigger() {
    let first_bare = FlightPlan {
        step_count: 1,
        steps: RepeatedField::from_vec(vec![Step { count: 1, action: Action::Ignite, trigger: None }]),
    };
    assert!(!validate(&first_bare));
    assert_eq!(diagnose(&first_bare), Err(PlanFault::MissingTrigger { step: 0 }));
    let third_bare = gen_flightplan_from_steps(vec![
        ignite_at_zero(),
        gen_other_step(1, ActionType::Coast, gen_alt_trigger(70_000 * UNIT)),
        Step { count: 1, action: Action::NextStage, trigger: None },
        Step { count: 1, action: Action::Coast, trigger: None },
    ]);
    assert!(!validate(&third_bare));
    assert_eq!(diagnose(&third_bare), Err(PlanFault::MissingTrigger { step: 2 }));
}

#[test]
fn longer_plan_is_valid() {
    let plan = gen_flightplan_from_steps(vec![
        ignite_at_zero(),
        gen_throttle_step(1, UNIT / 2, gen_alt_trigger(10_000 * UNIT)),
        gen_reorient_step(1, 0, 45 * UNIT, 90 * UNIT, gen_pos_trigger(UNIT, -74 * UNIT)),
        gen_other_step(1, ActionType::NextStage, gen_time_trigger(1_700_000_000)),
    ]);
    assert_eq!(plan.step_count, 4);
    assert_eq!(plan.steps.len(), 4);
    assert_eq!(plan.steps().len(), 4);
    assert_eq!(plan.steps()[1], gen_throttle_step(1, UNIT / 2, gen_alt_trigger(10_000 * UNIT)));
    assert_eq!(plan.clone(), plan);
    assert!(validate(&plan));
}

#[test]
fn first_broken_rule_is_named() {
    let plan = FlightPlan {
        step_count: 2,
        steps: RepeatedField::from_vec(vec![
            Step { count: 1, action: Action::Coast, trigger: Some(gen_alt_trigger(1)) },
            Step { count: 1, action: Action::Coast, trigger: None },
        ]),
    };
    assert_eq!(diagnose(&plan), Err(PlanFault::FirstNotIgnite));
}

#[test]
fn time_trigger_fires_at_its_second() {
    let trigger = Trigger::Time { seconds_since_epoch: 10 };
    assert!(!check(&trigger, &reading_at(9, 0, 0, 0)));
    assert!(check(&trigger, &reading_at(10, 0, 0, 0)));
    assert!(check(&trigger, &reading_at(11, 0, 0, 0)));
    assert!(check(&gen_time_trigger(0), &reading_at(0, 0, 0, 0)));
    assert!(!check(&gen_time_trigger(u64::MAX), &reading_at(u64::MAX - 1, 0, 0, 0)));
}

#[test]
fn position_trigger_uses_a_rectangle() {
    let trigger = Trigger::Position { lat: 0, lon: 0 };
    assert!(check(&trigger, &reading_at(0, 9 * UNIT, 9 * UNIT, 0)));
    assert!(!check(&trigger, &reading_at(0, 11 * UNIT, 0, 0)));
    assert!(!check(&trigger, &reading_at(0, 0, 11 * UNIT, 0)));
    assert!(check(&trigger, &reading_at(0, 10 * UNIT, -10 * UNIT, 0)));
    assert!(!check(&trigger, &reading_at(0, 10 * UNIT + 1, 0, 0)));
    assert!(!check(&trigger, &reading_at(0, 0, -10 * UNIT - 1, 0)));
    assert!(check(&gen_pos_trigger(45 * UNIT, -120 * UNIT), &reading_at(0, 50 * UNIT, -115 * UNIT, 0)));
}

#[test]
fn altitude_trigger_uses_a_window() {
    let trigger = gen_alt_trigger(70_000 * UNIT);
    assert!(check(&trigger, &reading_at(0, 0, 0, 70_000 * UNIT)));
    assert!(check(&trigger, &reading_at(0, 0, 0, 69_990 * UNIT)));
    assert!(check(&trigger, &reading_at(0, 0, 0, 70_010 * UNIT)));
    assert!(!check(&trigger, &reading_at(0, 0, 0, 69_990 * UNIT - 1)));
    assert!(!check(&trigger, &reading_at(0, 0, 0, 70_010 * UNIT + 1)));
    assert!(!check(&trigger, &reading_at(0, 200 * UNIT, 200 * UNIT, 0)));
}

#[test]
fn window_holds_at_the_ends_of_the_range() {
    assert_eq!(WINDOW, 10 * UNIT);
    assert!(!in_window(i64::MAX, i64::MIN));
    assert!(!in_window(i64::MIN, i64::MAX));
    assert!(in_window(i64::MAX, i64::MAX - WINDOW));
    assert!(!in_window(i64::MAX, i64::MAX - WINDOW - 1));
    assert!(in_window(i64::MIN, i64::MIN + WINDOW));
}

#[test]
fn throttle_is_clamped_when_authored() {
    let trigger = gen_time_trigger(3);
    let expect = |throttle: i64| Step {
        count: 7,
        action: Action::ThrottleLevel { throttle },
        trigger: Some(Trigger::Time { seconds_since_epoch: 3 }),
    };
    assert_eq!(gen_throttle_step(7, 0, trigger), expect(0));
    assert_eq!(gen_throttle_step(7, UNIT, trigger), expect(UNIT));
    assert_eq!(gen_throttle_step(7, UNIT + 1, trigger), expect(UNIT));
    assert_eq!(gen_throttle_step(7, -1, trigger), expect(0));
    assert_eq!(gen_throttle_step(7, 250_000, trigger), expect(250_000));
    assert_eq!(gen_throttle_step(7, i64::MIN, trigger), expect(0));
    assert_eq!(gen_throttle_step(7, i64::MAX, trigger), expect(UNIT));
}

#[test]
fn builders_keep_their_arguments() {
    let trigger = gen_alt_trigger(-5);
    assert_eq!(trigger, Trigger::Altitude { value: -5 });
    assert_eq!(gen_pos_trigger(1, 2), Trigger::Position { lat: 1, lon: 2 });
    assert_eq!(gen_time_trigger(99), Trigger::Time { seconds_since_epoch: 99 });
    let step = gen_reorient_step(3, 10, 20, 30, trigger);
    assert_eq!(
        step,
        Step {
            count: 3,
            action: Action::Reorient { pitch: 20, roll: 10, yaw: 30 },
            trigger: Some(trigger),
        }
    );
    assert_eq!(step.action_type(), ActionType::Reorient);
    for kind in [ActionType::Ignite, ActionType::Coast, ActionType::NextStage] {
        let bare = gen_other_step(2, kind, trigger);
        assert_eq!(bare.count, 2);
        assert_eq!(bare.trigger, Some(trigger));
        assert_eq!(bare.action_type(), kind);
    }
    assert_eq!(gen_other_step(2, ActionType::NextStage, trigger).action, Action::NextStage);
}

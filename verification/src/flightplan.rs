//! The flight plan: an ordered sequence of steps, each an action gated by a
//! trigger, together with the builders that author steps and the validator
//! that decides whether a plan may be activated.

use vstd::prelude::*;
use protobuf::RepeatedField;

verus! {

#[verifier::external_type_specification]
#[verifier::external_body]
#[verifier::reject_recursive_types(T)]
pub struct ExRepeatedField<T>(RepeatedField<T>);

/// One whole unit (a degree, a metre, full throttle) in fixed-point millionths.
pub const UNIT: i64 = 1_000_000;

/// The kind of action a step performs.
#[derive(Clone, Copy, Debug, PartialEq, Eq, Structural)]
pub enum ActionType {
    Ignite,
    Reorient,
    ThrottleLevel,
    Coast,
    NextStage,
}

/// An action together with its payload, if it has one.
#[derive(Clone, Copy, Debug, PartialEq, Eq)]
pub enum Action {
    Ignite,
    /// Target attitude, each angle in millionths of a degree.
    Reorient { pitch: i64, roll: i64, yaw: i64 },
    /// Throttle setting in millionths of full throttle.
    ThrottleLevel { throttle: i64 },
    Coast,
    NextStage,
}

/// The condition that must hold before a step runs.
#[derive(Clone, Copy, Debug, PartialEq, Eq)]
pub enum Trigger {
    /// Met once the clock reaches or passes this many seconds after the epoch.
    Time { seconds_since_epoch: u64 },
    /// Met inside a rectangular window around the target, in millionths of a degree.
    Position { lat: i64, lon: i64 },
    /// Met inside a window around the target altitude, in millionths of a metre.
    Altitude { value: i64 },
}

/// One action and the trigger that gates it.
#[derive(Clone, Copy, Debug, PartialEq, Eq)]
pub struct Step {
    /// Repeat count; carried along, never interpreted.
    pub count: u32,
    pub action: Action,
    pub trigger: Option<Trigger>,
}

/// An ordered sequence of steps and the number of them.
#[derive(Debug, PartialEq, Eq)]
pub struct FlightPlan {
    pub step_count: u32,
    pub steps: RepeatedField<Step>,
}

/// The steps that a repeated field holds, first to last.
pub uninterp spec fn held_steps(field: RepeatedField<Step>) -> Seq<Step>;

/// `RepeatedField::from_vec`: the field that holds the elements of the given
/// vector, in the vector's order.
#[verifier::external_body]
pub(crate) fn steps_from_vec(steps: Vec<Step>) -> (field: RepeatedField<Step>)
    ensures
        held_steps(field) == steps@,
{
    RepeatedField::from_vec(steps)
}

/// `RepeatedField::as_slice`: the elements that the field holds, as a slice
/// in the field's order.
#[verifier::external_body]
pub(crate) fn steps_as_slice(field: &RepeatedField<Step>) -> (steps: &[Step])
    ensures
        steps@ == held_steps(*field),
{
    field.as_slice()
}

/// The mathematical content of a [`FlightPlan`].
pub struct PlanModel {
    pub step_count: u32,
    pub steps: Seq<Step>,
}

impl View for FlightPlan {
    type V = PlanModel;

    open spec fn view(&self) -> PlanModel {
        PlanModel { step_count: self.step_count, steps: held_steps(self.steps) }
    }
}

/// The first rule that a rejected plan breaks.
#[derive(Clone, Copy, Debug, PartialEq, Eq)]
pub enum PlanFault {
    /// The plan announces no steps.
    NoSteps,
    /// The announced step count differs from the number of steps held.
    CountMismatch,
    /// The first step is not an `Ignite`.
    FirstNotIgnite,
    /// The first step's trigger is not a `Time` trigger.
    FirstTriggerNotTime,
    /// The first step's `Time` trigger is not at second 0.
    FirstTriggerNotZero,
    /// The step at this index carries no trigger; no earlier step lacks one.
    MissingTrigger { step: usize },
}

impl Action {
    /// The kind of this action, without its payload.
    pub open spec fn kind(self) -> ActionType {
        match self {
            Action::Ignite => ActionType::Ignite,
            Action::Reorient { .. } => ActionType::Reorient,
            Action::ThrottleLevel { .. } => ActionType::ThrottleLevel,
            Action::Coast => ActionType::Coast,
            Action::NextStage => ActionType::NextStage,
        }
    }

    /// The kind of this action, without its payload.
    pub fn action_type(&self) -> (kind: ActionType)
        ensures
            kind == self.kind(),
    {
        match self {
            Action::Ignite => ActionType::Ignite,
            Action::Reorient { .. } => ActionType::Reorient,
            Action::ThrottleLevel { .. } => ActionType::ThrottleLevel,
            Action::Coast => ActionType::Coast,
            Action::NextStage => ActionType::NextStage,
        }
    }
}

impl Clone for FlightPlan {
    /// A plan with the same count and the same steps.
    fn clone(&self) -> (copy: FlightPlan)
        ensures
            copy@ == self@,
    {
        let steps = vstd::slice::slice_to_vec(self.steps());
        FlightPlan { step_count: self.step_count, steps: steps_from_vec(steps) }
    }
}

impl FlightPlan {
    /// The steps of the plan, in order.
    pub fn steps(&self) -> (steps: &[Step])
        ensures
            steps@ == self@.steps,
    {
        steps_as_slice(&self.steps)
    }
}

impl Step {
    /// The kind of action this step performs.
    pub fn action_type(&self) -> (kind: ActionType)
        ensures
            kind == self.action.kind(),
    {
        self.action.action_type()
    }
}

/// The announced count matches the steps held.
pub open spec fn well_formed(plan: PlanModel) -> bool {
    plan.steps.len() == plan.step_count
}

/// Every step before index `upto` carries a trigger.
pub open spec fn triggered_before(steps: Seq<Step>, upto: int) -> bool {
    forall|i: int| 0 <= i < upto && i < steps.len() ==> (#[trigger] steps[i]).trigger is Some
}

/// A plan may be activated: it is non-empty and well formed, opens with an
/// `Ignite` that fires at second 0, and every step carries a trigger.
pub open spec fn is_valid(plan: PlanModel) -> bool {
    &&& plan.step_count > 0
    &&& well_formed(plan)
    &&& plan.steps[0].action is Ignite
    &&& plan.steps[0].trigger == Some(Trigger::Time { seconds_since_epoch: 0 })
    &&& triggered_before(plan.steps, plan.steps.len() as int)
}

/// `fault` names the first rule, in checking order, that `plan` breaks.
pub open spec fn explains(plan: PlanModel, fault: PlanFault) -> bool {
    match fault {
        PlanFault::NoSteps => plan.step_count == 0,
        PlanFault::CountMismatch => plan.step_count > 0 && !well_formed(plan),
        PlanFault::FirstNotIgnite => {
            &&& plan.step_count > 0
            &&& well_formed(plan)
            &&& !(plan.steps[0].action is Ignite)
        },
        PlanFault::FirstTriggerNotTime => {
            &&& plan.step_count > 0
            &&& well_formed(plan)
            &&& plan.steps[0].action is Ignite
            &&& plan.steps[0].trigger is Some
            &&& !(plan.steps[0].trigger->Some_0 is Time)
        },
        PlanFault::FirstTriggerNotZero => {
            &&& plan.step_count > 0
            &&& well_formed(plan)
            &&& plan.steps[0].action is Ignite
            &&& plan.steps[0].trigger matches Some(Trigger::Time { seconds_since_epoch })
            &&& seconds_since_epoch != 0
        },
        PlanFault::MissingTrigger { step } => {
            &&& plan.step_count > 0
            &&& well_formed(plan)
            &&& plan.steps[0].action is Ignite
            &&& (step == 0 || plan.steps[0].trigger == Some(
                Trigger::Time { seconds_since_epoch: 0 },
            ))
            &&& step < plan.steps.len()
            &&& plan.steps[step as int].trigger is None
            &&& triggered_before(plan.steps, step as int)
        },
    }
}

/// Checks a plan against the activation rules and names the first one broken.
///
/// Feasibility of the actions on a given vehicle (an `Ignite` that maps to an
/// actual engine, say) is not examined.
pub fn diagnose(plan: &FlightPlan) -> (verdict: Result<(), PlanFault>)
    ensures
        match verdict {
            Ok(()) => is_valid(plan@),
            Err(fault) => explains(plan@, fault),
        },
{
    if plan.step_count == 0 {
        return Err(PlanFault::NoSteps);
    }
    let steps = plan.steps();
    if steps.len() != plan.step_count as usize {
        return Err(PlanFault::CountMismatch);
    }
    let first = &steps[0];
    match first.action {
        Action::Ignite => {},
        _ => {
            return Err(PlanFault::FirstNotIgnite);
        },
    }
    match first.trigger {
        None => {
            return Err(PlanFault::MissingTrigger { step: 0 });
        },
        Some(Trigger::Time { seconds_since_epoch }) => {
            if seconds_since_epoch != 0 {
                return Err(PlanFault::FirstTriggerNotZero);
            }
        },
        Some(_) => {
            return Err(PlanFault::FirstTriggerNotTime);
        },
    }
    let mut i: usize = 1;
    while i < steps.len()
        invariant
            1 <= i <= steps.len(),
            steps@ == plan@.steps,
            plan.step_count > 0,
            well_formed(plan@),
            steps[0].action is Ignite,
            steps[0].trigger == Some(Trigger::Time { seconds_since_epoch: 0 }),
            triggered_before(steps@, i as int),
        decreases steps.len() - i,
    {
        if steps[i].trigger.is_none() {
            return Err(PlanFault::MissingTrigger { step: i });
        }
        i += 1;
    }
    Ok(())
}

/// Whether a plan may be activated.
pub fn validate(plan: &FlightPlan) -> (ok: bool)
    ensures
        ok == is_valid(plan@),
{
    let verdict = diagnose(plan);
    proof {
        if let Err(fault) = verdict {
            lemma_fault_excludes_validity(plan@, fault);
        }
    }
    verdict.is_ok()
}

/// A plan that breaks a rule is not valid.
pub proof fn lemma_fault_excludes_validity(plan: PlanModel, fault: PlanFault)
    requires
        explains(plan, fault),
    ensures
        !is_valid(plan),
{
}

/// A plan is valid exactly when no rule is broken, and a rejected plan has
/// one diagnosis only.
pub proof fn lemma_diagnosis_unique(plan: PlanModel, first: PlanFault, second: PlanFault)
    requires
        explains(plan, first),
        explains(plan, second),
    ensures
        first == second,
{
    if let PlanFault::MissingTrigger { step: a } = first {
        if let PlanFault::MissingTrigger { step: b } = second {
            if a < b {
                assert(plan.steps[a as int].trigger is Some);
            }
            if b < a {
                assert(plan.steps[b as int].trigger is Some);
            }
        }
    }
}

/// A step that sets the throttle. A level below 0 is held at 0, one above
/// full throttle at full throttle.
pub fn gen_throttle_step(count: u32, throttle_level: i64, trigger: Trigger) -> (step: Step)
    ensures
        step.count == count,
        step.trigger == Some(trigger),
        step.action == (Action::ThrottleLevel { throttle: clamp_throttle(throttle_level) }),
{
    let throttle: i64 = if throttle_level > UNIT {
        UNIT
    } else if throttle_level < 0 {
        0
    } else {
        throttle_level
    };
    Step { count, action: Action::ThrottleLevel { throttle }, trigger: Some(trigger) }
}

/// A throttle level brought into the range from 0 to full throttle.
pub open spec fn clamp_throttle(level: i64) -> i64 {
    if level > UNIT {
        UNIT
    } else if level < 0 {
        0
    } else {
        level
    }
}

/// A step that reorients the vehicle to the given roll, pitch and yaw.
pub fn gen_reorient_step(count: u32, roll: i64, pitch: i64, yaw: i64, trigger: Trigger) -> (step:
    Step)
    ensures
        step == (Step { count, action: Action::Reorient { pitch, roll, yaw }, trigger: Some(trigger) }),
{
    Step { count, action: Action::Reorient { pitch, roll, yaw }, trigger: Some(trigger) }
}

/// The action of the given kind, for the kinds that carry no payload.
pub open spec fn bare_action(kind: ActionType) -> Action {
    match kind {
        ActionType::Coast => Action::Coast,
        ActionType::NextStage => Action::NextStage,
        _ => Action::Ignite,
    }
}

/// A step of one of the kinds that carry no payload: `Ignite`, `Coast` or
/// `NextStage`.
pub fn gen_other_step(count: u32, actiontype: ActionType, trigger: Trigger) -> (step: Step)
    requires
        actiontype != ActionType::Reorient,
        actiontype != ActionType::ThrottleLevel,
    ensures
        step == (Step { count, action: bare_action(actiontype), trigger: Some(trigger) }),
        step.action.kind() == actiontype,
{
    let action = match actiontype {
        ActionType::Coast => Action::Coast,
        ActionType::NextStage => Action::NextStage,
        _ => Action::Ignite,
    };
    Step { count, action, trigger: Some(trigger) }
}

/// A trigger met once the clock reaches the given second after the epoch; one
/// in the past is met at once.
pub fn gen_time_trigger(seconds_after_epoch: u64) -> (trigger: Trigger)
    ensures
        trigger == (Trigger::Time { seconds_since_epoch: seconds_after_epoch }),
{
    Trigger::Time { seconds_since_epoch: seconds_after_epoch }
}

/// A trigger met around the given altitude.
pub fn gen_alt_trigger(altitude: i64) -> (trigger: Trigger)
    ensures
        trigger == (Trigger::Altitude { value: altitude }),
{
    Trigger::Altitude { value: altitude }
}

/// A trigger met around the given latitude and longitude.
pub fn gen_pos_trigger(lat: i64, lon: i64) -> (trigger: Trigger)
    ensures
        trigger == (Trigger::Position { lat, lon }),
{
    Trigger::Position { lat, lon }
}

/// The plan that holds exactly the given steps, in order.
pub fn gen_flightplan_from_steps(steps: Vec<Step>) -> (plan: FlightPlan)
    requires
        steps.len() <= u32::MAX,
    ensures
        plan@.steps == steps@,
        well_formed(plan@),
{
    let step_count = steps.len() as u32;
    FlightPlan { step_count, steps: steps_from_vec(steps) }
}

} // verus!

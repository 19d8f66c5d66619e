//! The avionics unit: its lifecycle, the flight plan it holds, and the
//! executor that walks the plan one poll at a time.
//!
//! The unit decides; it performs no input or output. Each poll takes a
//! reading of the vehicle and returns the commands to carry out and the
//! reports to send.

use vstd::prelude::*;
use crate::envelope::{encode, spec_encode, Envelope, Message, WatchdogStatus};
use crate::flightplan::{diagnose, explains, is_valid, Action, FlightPlan, PlanFault, PlanModel, Step, Trigger, UNIT};
use crate::trigger::{check, trigger_met, Reading};

verus! {

/// The lifecycle of the unit. The states from `Off` to `Landed` are passed
/// in this order, each entered from the one before it only; `Error` is
/// entered from any state and never left.
#[derive(Clone, Copy, Debug, PartialEq, Eq, Structural)]
pub enum AvionicsState {
    Off,
    Post,
    Idle,
    Ready,
    Countdown,
    InFlight,
    Landed,
    Error,
}

/// A command to the vehicle's actuators.
#[derive(Clone, Copy, Debug, PartialEq, Eq)]
pub enum Command {
    /// Advance to the next propulsion stage.
    AdvanceStage,
    /// Set the throttle, in millionths of full throttle.
    SetThrottle { level: i64 },
    /// Engage or disengage the auto-pilot.
    SetAutopilot { engaged: bool },
    /// Point the auto-pilot, in millionths of a degree.
    SetAutopilotTarget { pitch: i64, heading: i64 },
    /// Switch attitude hold on or off.
    SetAttitudeHold { enabled: bool },
    /// Switch reaction control on or off.
    SetReactionControl { enabled: bool },
}

/// Why a flight plan was not taken.
#[derive(Clone, Copy, Debug, PartialEq, Eq)]
pub enum LoadError {
    /// The unit has left `Idle` behind: its plan can no longer change.
    Locked,
    /// The plan breaks an activation rule.
    Rejected { fault: PlanFault },
}

/// A transition that is not legal from the state the unit holds.
#[derive(Clone, Copy, Debug, PartialEq, Eq)]
pub struct IllegalTransition {
    pub from: AvionicsState,
    pub to: AvionicsState,
}

/// What one poll of the executor asks of its caller.
#[derive(Clone, Debug, PartialEq, Eq)]
pub struct Tick {
    /// Commands to carry out, in order; empty when no step fired.
    pub commands: Vec<Command>,
    /// The keep-alive to send.
    pub watchdog: Envelope,
    /// The telemetry to send after the keep-alive.
    pub telemetry: Envelope,
}

/// The vehicle's control unit.
#[derive(Debug)]
pub struct Avionics {
    state: AvionicsState,
    current_step: u32,
    error_message: String,
    flightplan: Option<FlightPlan>,
}

/// The mathematical content of an [`Avionics`].
pub struct AvionicsModel {
    pub state: AvionicsState,
    /// The cursor into the plan: the number of steps dispatched so far.
    pub current_step: nat,
    /// The last fault described; empty if none.
    pub error_message: Seq<char>,
    pub flightplan: Option<PlanModel>,
}

impl View for Avionics {
    type V = AvionicsModel;

    closed spec fn view(&self) -> AvionicsModel {
        AvionicsModel {
            state: self.state,
            current_step: self.current_step as nat,
            error_message: self.error_message@,
            flightplan: match self.flightplan {
                Some(plan) => Some(plan@),
                None => None,
            },
        }
    }
}

impl AvionicsState {
    /// The state can only be held with a flight plan on board.
    pub open spec fn needs_plan(self) -> bool {
        self is Ready || self is Countdown || self is InFlight || self is Landed
    }

    /// The one state from which this state is entered; none for `Off`, which
    /// is never entered, and for `Error`, which is entered from anywhere.
    pub open spec fn predecessor(self) -> Option<AvionicsState> {
        match self {
            AvionicsState::Off => None,
            AvionicsState::Post => Some(AvionicsState::Off),
            AvionicsState::Idle => Some(AvionicsState::Post),
            AvionicsState::Ready => Some(AvionicsState::Idle),
            AvionicsState::Countdown => Some(AvionicsState::Ready),
            AvionicsState::InFlight => Some(AvionicsState::Countdown),
            AvionicsState::Landed => Some(AvionicsState::InFlight),
            AvionicsState::Error => None,
        }
    }

    /// A flight plan may still be loaded in this state.
    pub open spec fn accepts_plan(self) -> bool {
        self is Off || self is Post || self is Idle
    }
}

impl AvionicsModel {
    /// The plan on board, if any, is valid and the cursor lies within it;
    /// without a plan the cursor is 0 and no state that needs one is held.
    pub open spec fn wf(self) -> bool {
        match self.flightplan {
            None => self.current_step == 0 && !self.state.needs_plan(),
            Some(plan) => is_valid(plan) && self.current_step <= plan.step_count,
        }
    }

    /// The transition into `target` is legal: `Error` always; any other state
    /// from its predecessor only, and `Ready` only with a plan on board.
    pub open spec fn may_enter(self, target: AvionicsState) -> bool {
        target is Error || (target.predecessor() == Some(self.state) && (target is Ready
            ==> self.flightplan is Some))
    }

    /// The unit after the transition into `target`.
    pub open spec fn entered(self, target: AvionicsState) -> AvionicsModel {
        AvionicsModel { state: target, ..self }
    }

    /// The step under the cursor; none without a plan or past its end.
    pub open spec fn pending(self) -> Option<Step> {
        match self.flightplan {
            Some(plan) => if self.current_step < plan.steps.len() {
                Some(plan.steps[self.current_step as int])
            } else {
                None
            },
            None => None,
        }
    }

    /// A step is pending and its trigger holds of the reading.
    pub open spec fn fires(self, reading: Reading) -> bool {
        match self.pending() {
            Some(step) => match step.trigger {
                Some(trigger) => trigger_met(trigger, reading),
                None => false,
            },
            None => false,
        }
    }

    /// The unit after one poll: the cursor has moved on by one if the pending
    /// step fired, and nothing else has changed.
    pub open spec fn polled(self, reading: Reading) -> AvionicsModel {
        if self.fires(reading) {
            AvionicsModel { current_step: self.current_step + 1, ..self }
        } else {
            self
        }
    }

    /// The commands that one poll dispatches: those of the pending step if it
    /// fired, none otherwise.
    pub open spec fn dispatched(self, reading: Reading) -> Seq<Command> {
        if self.fires(reading) {
            commands_for(self.pending()->Some_0.action)
        } else {
            Seq::empty()
        }
    }

    /// The unit after one poll for each reading, in order.
    pub open spec fn run(self, readings: Seq<Reading>) -> AvionicsModel
        decreases readings.len(),
    {
        if readings.len() == 0 {
            self
        } else {
            self.run(readings.drop_last()).polled(readings.last())
        }
    }

    /// The number of polls, one for each reading in order, in which a step
    /// fired.
    pub open spec fn dispatches(self, readings: Seq<Reading>) -> nat
        decreases readings.len(),
    {
        if readings.len() == 0 {
            0
        } else {
            let earlier = self.dispatches(readings.drop_last());
            if self.run(readings.drop_last()).fires(readings.last()) {
                earlier + 1
            } else {
                earlier
            }
        }
    }
}

/// The commands that carry out an action: `Ignite` and `NextStage` advance
/// the stage, `Reorient` engages the auto-pilot and points it at the step's
/// pitch and yaw, `ThrottleLevel` sets the throttle to the step's level, and
/// `Coast` disengages the auto-pilot.
pub open spec fn commands_for(action: Action) -> Seq<Command> {
    match action {
        Action::Ignite => seq![Command::AdvanceStage],
        Action::NextStage => seq![Command::AdvanceStage],
        Action::Reorient { pitch, roll, yaw } => seq![
            Command::SetAutopilot { engaged: true },
            Command::SetAutopilotTarget { pitch, heading: yaw },
        ],
        Action::ThrottleLevel { throttle } => seq![Command::SetThrottle { level: throttle }],
        Action::Coast => seq![Command::SetAutopilot { engaged: false }],
    }
}

/// The commands that prepare the vehicle for launch: attitude hold and
/// reaction control off, throttle full.
pub open spec fn launch_preparation() -> Seq<Command> {
    seq![
        Command::SetAttitudeHold { enabled: false },
        Command::SetReactionControl { enabled: false },
        Command::SetThrottle { level: UNIT },
    ]
}

/// The keep-alive message sent at the given second.
pub open spec fn alive_message(now: u64) -> Message {
    Message::Watchdog { status: WatchdogStatus::AckAlive, time: now }
}

impl Avionics {
    /// A unit that is switched off, with no plan and no fault.
    pub fn new() -> (unit: Avionics)
        ensures
            unit@ == (AvionicsModel {
                state: AvionicsState::Off,
                current_step: 0,
                error_message: Seq::empty(),
                flightplan: None,
            }),
            unit@.wf(),
    {
        Avionics {
            state: AvionicsState::Off,
            current_step: 0,
            error_message: String::new(),
            flightplan: None,
        }
    }

    /// The current lifecycle state.
    pub fn get_state(&self) -> (state: &AvionicsState)
        ensures
            *state == self@.state,
    {
        &self.state
    }

    /// The cursor into the plan.
    pub fn get_current_step(&self) -> (cursor: u32)
        ensures
            cursor == self@.current_step,
    {
        self.current_step
    }

    /// The last fault described; empty if none.
    pub fn get_error_message(&self) -> (message: &String)
        ensures
            message@ == self@.error_message,
    {
        &self.error_message
    }

    /// The flight plan on board, if any.
    pub fn get_flightplan(&self) -> (plan: &Option<FlightPlan>)
        ensures
            match (*plan, self@.flightplan) {
                (Some(held), Some(model)) => held@ == model,
                (None, None) => true,
                _ => false,
            },
    {
        &self.flightplan
    }

    /// Whether a flight plan is on board.
    pub fn has_flightplan(&self) -> (present: bool)
        ensures
            present == self@.flightplan is Some,
    {
        self.flightplan.is_some()
    }

    /// Whether the transition into `target` is legal now.
    pub fn can_enter(&self, target: AvionicsState) -> (legal: bool)
        ensures
            legal == self@.may_enter(target),
    {
        match target {
            AvionicsState::Off => false,
            AvionicsState::Post => self.state == AvionicsState::Off,
            AvionicsState::Idle => self.state == AvionicsState::Post,
            AvionicsState::Ready => self.state == AvionicsState::Idle && self.flightplan.is_some(),
            AvionicsState::Countdown => self.state == AvionicsState::Ready,
            AvionicsState::InFlight => self.state == AvionicsState::Countdown,
            AvionicsState::Landed => self.state == AvionicsState::InFlight,
            AvionicsState::Error => true,
        }
    }

    /// Makes the transition into `target` if it is legal now, and refuses it
    /// otherwise: an illegal transition never changes the unit.
    pub fn try_enter(&mut self, target: AvionicsState) -> (outcome: Result<(), IllegalTransition>)
        requires
            old(self)@.wf(),
        ensures
            final(self)@.wf(),
            match outcome {
                Ok(()) => {
                    &&& old(self)@.may_enter(target)
                    &&& final(self)@ == old(self)@.entered(target)
                },
                Err(refusal) => {
                    &&& !old(self)@.may_enter(target)
                    &&& refusal == (IllegalTransition { from: old(self)@.state, to: target })
                    &&& final(self)@ == old(self)@
                },
            },
    {
        if self.can_enter(target) {
            self.state = target;
            Ok(())
        } else {
            Err(IllegalTransition { from: self.state, to: target })
        }
    }

    /// Takes a flight plan on board, with the cursor at its first step. A plan
    /// is taken only while the unit has not passed `Idle`, and only if it is
    /// valid; otherwise the unit stays as it was.
    pub fn load_flightplan(&mut self, plan: FlightPlan) -> (outcome: Result<(), LoadError>)
        requires
            old(self)@.wf(),
        ensures
            final(self)@.wf(),
            match outcome {
                Ok(()) => {
                    &&& old(self)@.state.accepts_plan()
                    &&& is_valid(plan@)
                    &&& final(self)@ == (AvionicsModel {
                        flightplan: Some(plan@),
                        current_step: 0,
                        ..old(self)@
                    })
                },
                Err(LoadError::Locked) => {
                    &&& !old(self)@.state.accepts_plan()
                    &&& final(self)@ == old(self)@
                },
                Err(LoadError::Rejected { fault }) => {
                    &&& old(self)@.state.accepts_plan()
                    &&& explains(plan@, fault)
                    &&& final(self)@ == old(self)@
                },
            },
    {
        match self.state {
            AvionicsState::Off | AvionicsState::Post | AvionicsState::Idle => {},
            _ => {
                return Err(LoadError::Locked);
            },
        }
        match diagnose(&plan) {
            Err(fault) => Err(LoadError::Rejected { fault }),
            Ok(()) => {
                self.flightplan = Some(plan);
                self.current_step = 0;
                Ok(())
            },
        }
    }

    /// Whether the plan on board may be activated.
    pub fn validate_flightplan(&self) -> (ok: bool)
        requires
            self@.flightplan is Some,
        ensures
            ok == is_valid(self@.flightplan->Some_0),
    {
        match &self.flightplan {
            Some(plan) => crate::flightplan::validate(plan),
            None => false,
        }
    }

    /// The step under the cursor, or none once the plan is exhausted. The
    /// cursor stays where it is.
    pub fn flightplan_pop_step(&self) -> (step: Option<Step>)
        requires
            self@.wf(),
            self@.flightplan is Some,
        ensures
            step == self@.pending(),
    {
        match &self.flightplan {
            Some(plan) => {
                let steps = plan.steps();
                if (self.current_step as usize) < steps.len() {
                    Some(steps[self.current_step as usize])
                } else {
                    None
                }
            },
            None => None,
        }
    }

    /// The commands that carry out a step's action.
    pub fn flightplan_exe_single_action(&self, step: &Step) -> (commands: Vec<Command>)
        ensures
            commands@ == commands_for(step.action),
    {
        let mut commands: Vec<Command> = Vec::new();
        match step.action {
            Action::Ignite => {
                commands.push(Command::AdvanceStage);
            },
            Action::NextStage => {
                commands.push(Command::AdvanceStage);
            },
            Action::Reorient { pitch, roll, yaw } => {
                commands.push(Command::SetAutopilot { engaged: true });
                commands.push(Command::SetAutopilotTarget { pitch, heading: yaw });
            },
            Action::ThrottleLevel { throttle } => {
                commands.push(Command::SetThrottle { level: throttle });
            },
            Action::Coast => {
                commands.push(Command::SetAutopilot { engaged: false });
            },
        }
        assert(commands@ =~= commands_for(step.action));
        commands
    }

    /// Whether a trigger's condition holds of a reading.
    pub fn flightplan_check_trigger(&self, trigger: &Trigger, reading: &Reading) -> (met: bool)
        ensures
            met == trigger_met(*trigger, *reading),
    {
        check(trigger, reading)
    }

    /// One poll of the executor in flight. If the pending step's trigger holds
    /// of the reading, the step's commands are dispatched and the cursor moves
    /// on by one. Fired or not, a keep-alive and the telemetry of the reading
    /// are to be sent.
    pub fn poll(&mut self, reading: &Reading) -> (tick: Tick)
        requires
            old(self)@.wf(),
            old(self)@.state is InFlight,
        ensures
            final(self)@ == old(self)@.polled(*reading),
            final(self)@.wf(),
            tick.commands@ == old(self)@.dispatched(*reading),
            tick.watchdog@ == alive_message(reading.time),
            tick.telemetry@ == (Message::Telemetry { reading: *reading }),
    {
        let mut commands: Vec<Command> = Vec::new();
        if let Some(step) = self.flightplan_pop_step() {
            if let Some(trigger) = step.trigger {
                if check(&trigger, reading) {
                    commands = self.flightplan_exe_single_action(&step);
                    self.inc_stage();
                }
            }
        }
        Tick {
            commands,
            watchdog: Envelope::Watchdog { status: WatchdogStatus::AckAlive, time: reading.time },
            telemetry: Envelope::Telemetry { reading: *reading },
        }
    }

    /// Records a fault description; the state stays as it is.
    pub fn set_error(&mut self, message: &str)
        ensures
            final(self)@ == (AvionicsModel { error_message: message@, ..old(self)@ }),
    {
        self.error_message = message.to_owned();
    }

    /// Moves the cursor on by one step.
    pub fn inc_stage(&mut self)
        requires
            old(self)@.wf(),
            old(self)@.flightplan is Some,
            old(self)@.current_step < old(self)@.flightplan->Some_0.step_count,
        ensures
            final(self)@ == (AvionicsModel {
                current_step: old(self)@.current_step + 1,
                ..old(self)@
            }),
            final(self)@.wf(),
    {
        self.current_step += 1;
    }

    /// Enters `Post`; legal from `Off` only.
    pub fn to_post(&mut self)
        requires
            old(self)@.wf(),
            old(self)@.may_enter(AvionicsState::Post),
        ensures
            final(self)@ == old(self)@.entered(AvionicsState::Post),
            final(self)@.wf(),
    {
        self.state = AvionicsState::Post;
    }

    /// Enters `Idle`; legal from `Post` only.
    pub fn to_idle(&mut self)
        requires
            old(self)@.wf(),
            old(self)@.may_enter(AvionicsState::Idle),
        ensures
            final(self)@ == old(self)@.entered(AvionicsState::Idle),
            final(self)@.wf(),
    {
        self.state = AvionicsState::Idle;
    }

    /// Enters `Ready`; legal from `Idle` only, and only with a plan on board.
    pub fn to_ready(&mut self)
        requires
            old(self)@.wf(),
            old(self)@.may_enter(AvionicsState::Ready),
        ensures
            final(self)@ == old(self)@.entered(AvionicsState::Ready),
            final(self)@.wf(),
    {
        self.state = AvionicsState::Ready;
    }

    /// Enters `Countdown`; legal from `Ready` only.
    pub fn to_countdown(&mut self)
        requires
            old(self)@.wf(),
            old(self)@.may_enter(AvionicsState::Countdown),
        ensures
            final(self)@ == old(self)@.entered(AvionicsState::Countdown),
            final(self)@.wf(),
    {
        self.state = AvionicsState::Countdown;
    }

    /// Enters `InFlight`; legal from `Countdown` only.
    pub fn to_inflight(&mut self)
        requires
            old(self)@.wf(),
            old(self)@.may_enter(AvionicsState::InFlight),
        ensures
            final(self)@ == old(self)@.entered(AvionicsState::InFlight),
            final(self)@.wf(),
    {
        self.state = AvionicsState::InFlight;
    }

    /// Enters `Landed`; legal from `InFlight` only.
    pub fn to_landed(&mut self)
        requires
            old(self)@.wf(),
            old(self)@.may_enter(AvionicsState::Landed),
        ensures
            final(self)@ == old(self)@.entered(AvionicsState::Landed),
            final(self)@.wf(),
    {
        self.state = AvionicsState::Landed;
    }

    /// Enters `Error` from whatever state and records the fault description.
    pub fn to_error(&mut self, message: &str)
        requires
            old(self)@.wf(),
        ensures
            final(self)@ == (AvionicsModel {
                state: AvionicsState::Error,
                error_message: message@,
                ..old(self)@
            }),
            final(self)@.wf(),
    {
        self.state = AvionicsState::Error;
        self.error_message = message.to_owned();
    }

    /// The frame of a keep-alive sent at the given second, for the ground link.
    pub fn send_alive(&self, now: u64) -> (frame: Vec<u8>)
        ensures
            frame@ == spec_encode(alive_message(now)),
    {
        encode(&Envelope::Watchdog { status: WatchdogStatus::AckAlive, time: now })
    }

    /// The commands that prepare the vehicle for launch.
    pub fn ready_for_launch(&self) -> (commands: Vec<Command>)
        requires
            self@.state is Ready,
        ensures
            commands@ == launch_preparation(),
    {
        let mut commands: Vec<Command> = Vec::new();
        commands.push(Command::SetAttitudeHold { enabled: false });
        commands.push(Command::SetReactionControl { enabled: false });
        commands.push(Command::SetThrottle { level: UNIT });
        assert(commands@ =~= launch_preparation());
        commands
    }

    /// The frame of the telemetry of a reading, for the ground link.
    pub fn send_telemetry(&self, reading: &Reading) -> (frame: Vec<u8>)
        ensures
            frame@ == spec_encode(Message::Telemetry { reading: *reading }),
    {
        encode(&Envelope::Telemetry { reading: *reading })
    }
}

/// A guarded transition is legal from one state only: from every other state
/// it is illegal, whatever else holds of the unit.
pub proof fn lemma_single_predecessor(unit: AvionicsModel, target: AvionicsState)
    requires
        !(target is Error),
    ensures
        unit.may_enter(target) ==> target.predecessor() == Some(unit.state),
        target.predecessor() != Some(unit.state) ==> !unit.may_enter(target),
{
}

/// Without a flight plan `Ready` cannot be entered, whatever the state.
pub proof fn lemma_ready_needs_plan(unit: AvionicsModel)
    requires
        unit.flightplan is None,
    ensures
        !unit.may_enter(AvionicsState::Ready),
{
}

/// A unit that holds a state past `Idle`, other than `Error`, holds a plan.
pub proof fn lemma_plan_on_board(unit: AvionicsModel)
    requires
        unit.wf(),
        unit.state.needs_plan(),
    ensures
        unit.flightplan is Some,
        is_valid(unit.flightplan->Some_0),
{
}

/// Polling keeps the unit well formed and changes the cursor only: after any
/// number of polls the cursor has advanced by exactly the number of polls in
/// which a step fired, and it does not exceed the plan's step count.
pub proof fn lemma_cursor_counts_dispatches(unit: AvionicsModel, readings: Seq<Reading>)
    requires
        unit.wf(),
    ensures
        unit.run(readings).wf(),
        unit.run(readings) == (AvionicsModel {
            current_step: unit.current_step + unit.dispatches(readings),
            ..unit
        }),
        unit.dispatches(readings) <= readings.len(),
        unit.flightplan is Some ==> unit.run(readings).current_step
            <= unit.flightplan->Some_0.step_count,
    decreases readings.len(),
{
    if readings.len() > 0 {
        lemma_cursor_counts_dispatches(unit, readings.drop_last());
    }
}

/// The cursor never moves back: after more polls it is no smaller.
pub proof fn lemma_cursor_monotone(unit: AvionicsModel, readings: Seq<Reading>, earlier: int)
    requires
        unit.wf(),
        0 <= earlier <= readings.len(),
    ensures
        unit.run(readings.take(earlier)).current_step <= unit.run(readings).current_step,
    decreases readings.len(),
{
    if earlier == readings.len() {
        assert(readings.take(earlier) =~= readings);
    } else {
        lemma_cursor_monotone(unit, readings.drop_last(), earlier);
        assert(readings.drop_last().take(earlier) =~= readings.take(earlier));
    }
}

} // verus!

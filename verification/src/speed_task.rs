//! When the background task that shows the speed in the tray starts, goes on and stops.
//!
//! The task itself, the tray and the core belong to the caller. A task is known here by a handle
//! of the caller's own type.
use crate::speed;
use crate::speed::{Connection, ProxyConnectionSpeed, ProxyConnectionSpeedSampler};
use vstd::prelude::*;

verus! {

/// Seconds between two samples.
pub const TRAY_SPEED_SAMPLE_INTERVAL_SECS: u64 = 1;

/// What the caller sees when the speed task is switched.
#[derive(Debug, Clone, Copy, PartialEq, Eq, Structural)]
pub struct TraySpeedSituation {
    /// The application is about to exit.
    pub is_exiting: bool,
    /// The main tray icon exists.
    pub has_main_tray: bool,
    /// The task that was started last has come to its end.
    pub is_finished: bool,
}

/// What the caller has to do.
#[derive(Debug, Clone, Copy, PartialEq, Eq)]
pub enum TraySpeedAction<H> {
    /// Nothing.
    Keep,
    /// Report that there is no tray to show a speed in.
    ReportNoTray,
    /// Start a task, and hand in its handle.
    Spawn,
    /// Abort the task, if there is one, and clear the shown speed.
    Stop(Option<H>),
}

/// Controller of the speed task.
pub struct TraySpeedController<H> {
    speed_task: Option<H>,
}

/// What switching the speed on leads to, given whether a task was started.
pub open spec fn start_action<H>(situation: TraySpeedSituation, has_task: bool) -> TraySpeedAction<
    H,
> {
    if situation.is_exiting {
        TraySpeedAction::Keep
    } else if !situation.has_main_tray {
        TraySpeedAction::ReportNoTray
    } else if has_task && !situation.is_finished {
        TraySpeedAction::Keep
    } else {
        TraySpeedAction::Spawn
    }
}

impl<H> View for TraySpeedController<H> {
    type V = Option<H>;

    closed spec fn view(&self) -> Option<H> {
        self.speed_task
    }
}

impl<H> Default for TraySpeedController<H> {
    /// No task.
    fn default() -> (controller: Self)
        ensures
            controller@ is None,
    {
        TraySpeedController { speed_task: None }
    }
}

impl<H> TraySpeedController<H> {
    /// A controller without a task.
    pub fn new() -> (controller: Self)
        ensures
            controller@ is None,
    {
        Self::default()
    }

    /// Switches the speed on or off.
    pub fn update_task(
        &mut self,
        enable_tray_speed: bool,
        situation: TraySpeedSituation,
    ) -> (action: TraySpeedAction<H>)
        ensures
            enable_tray_speed ==> action == start_action::<H>(situation, old(self)@ is Some)
                && final(self)@ == old(self)@,
            !enable_tray_speed ==> action == TraySpeedAction::Stop(old(self)@) && final(self)@ is None,
    {
        if enable_tray_speed {
            self.start_task(situation)
        } else {
            TraySpeedAction::Stop(self.stop_task())
        }
    }

    /// Whether a task has to be started. None is while the application exits, without a tray, or
    /// beside a task that still runs.
    pub fn start_task(&self, situation: TraySpeedSituation) -> (action: TraySpeedAction<H>)
        ensures
            action == start_action::<H>(situation, self@ is Some),
    {
        if situation.is_exiting {
            return TraySpeedAction::Keep;
        }
        if !situation.has_main_tray {
            return TraySpeedAction::ReportNoTray;
        }
        if self.speed_task.is_some() && !situation.is_finished {
            return TraySpeedAction::Keep;
        }
        TraySpeedAction::Spawn
    }

    /// Keeps the handle of a task that was started.
    pub fn task_started(&mut self, task: H)
        ensures
            final(self)@ == Some(task),
    {
        self.speed_task = Some(task);
    }

    /// Gives up the task and hands out its handle.
    pub fn stop_task(&mut self) -> (task: Option<H>)
        ensures
            task == old(self)@,
            final(self)@ is None,
    {
        self.speed_task.take()
    }

    /// The handle of the task that was started last.
    pub fn task(&self) -> (task: Option<&H>)
        ensures
            match task {
                Some(task) => self@ == Some(*task),
                None => self@ is None,
            },
    {
        self.speed_task.as_ref()
    }
}

/// How a round of the speed task begins.
#[derive(Debug, Clone, Copy, PartialEq, Eq, Structural)]
pub enum TraySpeedRound {
    /// End the task: the application is about to exit.
    Exit,
    /// End the task, and report that the tray is gone.
    TrayGone,
    /// Ask the core for its connections.
    Fetch,
}

/// What the core answered.
#[derive(Debug, Clone, PartialEq, Eq)]
pub enum TraySpeedReading {
    /// The current connections, or none at all.
    Connections(Option<Vec<Connection>>),
    /// No answer.
    Failed,
}

/// The connections of an answer.
pub open spec fn frame_of(connections: Option<Vec<Connection>>) -> Seq<Connection> {
    match connections {
        Some(connections) => connections@,
        None => seq![],
    }
}

/// The rounds of one speed task.
pub struct TraySpeedLoop {
    sampler: ProxyConnectionSpeedSampler,
}

impl View for TraySpeedLoop {
    type V = Map<Seq<char>, speed::ConnectionTrafficSnapshot>;

    closed spec fn view(&self) -> Map<Seq<char>, speed::ConnectionTrafficSnapshot> {
        self.sampler@
    }
}

impl TraySpeedLoop {
    /// A task that has seen no connections.
    pub fn new() -> (rounds: Self)
        ensures
            rounds@ == Map::<Seq<char>, speed::ConnectionTrafficSnapshot>::empty(),
    {
        TraySpeedLoop { sampler: ProxyConnectionSpeedSampler::new() }
    }

    /// Begins a round.
    pub fn begin_round(is_exiting: bool, has_main_tray: bool) -> (round: TraySpeedRound)
        ensures
            round is Exit <==> is_exiting,
            round is TrayGone <==> !is_exiting && !has_main_tray,
            round is Fetch <==> !is_exiting && has_main_tray,
    {
        if is_exiting {
            TraySpeedRound::Exit
        } else if !has_main_tray {
            TraySpeedRound::TrayGone
        } else {
            TraySpeedRound::Fetch
        }
    }

    /// The speed to show for an answer of the core. Without an answer it is zero, and what is known
    /// stays. There is none exactly where a total of the current connections does not fit.
    pub fn read(&mut self, reading: TraySpeedReading) -> (speed: Option<ProxyConnectionSpeed>)
        ensures
            match reading {
                TraySpeedReading::Connections(connections) => {
                    let frame = frame_of(connections);
                    &&& speed is Some <==> speed::fits(old(self)@, frame)
                    &&& speed matches Some(speed) ==> {
                        &&& speed.up == speed::total_sent(old(self)@, frame)
                        &&& speed.down == speed::total_received(old(self)@, frame)
                    }
                    &&& final(self)@ == speed::frame_counters(frame)
                },
                TraySpeedReading::Failed => {
                    &&& speed == Some(ProxyConnectionSpeed { up: 0, down: 0 })
                    &&& final(self)@ == old(self)@
                },
            },
    {
        match reading {
            TraySpeedReading::Connections(connections) => {
                let connections = match connections {
                    Some(connections) => connections,
                    None => Vec::new(),
                };
                self.sampler.checked_sample(connections.as_slice())
            },
            TraySpeedReading::Failed => Some(ProxyConnectionSpeed { up: 0, down: 0 }),
        }
    }
}

/// While a started task runs, switching the speed on again starts no second one.
pub proof fn no_second_task<H>(situation: TraySpeedSituation)
    requires
        !situation.is_finished,
    ensures
        start_action::<H>(situation, true) != TraySpeedAction::<H>::Spawn,
{
}

/// A task is started exactly where the application goes on, there is a tray, and no earlier task
/// still runs.
pub proof fn task_is_started_when_missing<H>(situation: TraySpeedSituation, has_task: bool)
    ensures
        start_action::<H>(situation, has_task) == TraySpeedAction::<H>::Spawn <==> {
            &&& !situation.is_exiting
            &&& situation.has_main_tray
            &&& !has_task || situation.is_finished
        },
{
}

/// What switching the speed on leads to, case by case: nothing while the application exits, a report
/// without a tray, nothing beside a task that runs, and a new task otherwise.
pub proof fn start_actions_case_by_case<H>(situation: TraySpeedSituation, has_task: bool)
    ensures
        situation.is_exiting ==> start_action::<H>(situation, has_task)
            == TraySpeedAction::<H>::Keep,
        !situation.is_exiting && !situation.has_main_tray ==> start_action::<H>(situation, has_task)
            == TraySpeedAction::<H>::ReportNoTray,
        !situation.is_exiting && situation.has_main_tray && has_task && !situation.is_finished
            ==> start_action::<H>(situation, has_task) == TraySpeedAction::<H>::Keep,
        !situation.is_exiting && situation.has_main_tray && (!has_task || situation.is_finished)
            ==> start_action::<H>(situation, has_task) == TraySpeedAction::<H>::Spawn,
{
}

/// The frame of an answer holds the reported connections, all of them in their order, and none where
/// the core reports none.
pub proof fn frames_hold_the_reported_connections(connections: Vec<Connection>)
    ensures
        frame_of(Some(connections)) == connections@,
        frame_of(None).len() == 0,
{
}

/// The speed is sampled every second, so a speed counts bytes per second.
pub proof fn speed_is_sampled_every_second()
    ensures
        TRAY_SPEED_SAMPLE_INTERVAL_SECS == 1,
{
}

} // verus!

//! The shared application state and the policy evaluator: blocking
//! is active when the blocking flag is on, no bypass deadline lies in
//! the future, and the schedule (when enabled) says so.

use vstd::prelude::*;

use crate::clock::{local_clock, wall_clock_seconds};
use crate::config::Config;
use crate::domain::DomainBlocker;
use crate::quiz::QuizEngine;
use crate::schedule::{spec_is_blocking_time, ScheduleEngine, WeekdayWrapper};
use crate::text::{clone_string_vec, sat_add_i64};
use crate::timeofday::NaiveTimeWrapper;

verus! {

/// Runtime statistics.
pub struct Stats {
    /// DNS queries answered with a synthetic blocked response.
    pub queries_blocked: u64,
    /// DNS queries forwarded upstream.
    pub queries_forwarded: u64,
}

impl Default for Stats {
    /// Both counters start at zero.
    fn default() -> (r: Stats)
        ensures
            r.queries_blocked == 0,
            r.queries_forwarded == 0,
    {
        Stats { queries_blocked: 0, queries_forwarded: 0 }
    }
}

/// Shared application state.
pub struct AppState {
    /// The configuration in force.
    pub config: Config,
    /// The schedule engine.
    pub schedule: ScheduleEngine,
    /// The quiz engine.
    pub quiz: QuizEngine,
    /// The domain blocker.
    pub blocker: DomainBlocker,
    /// Query counters.
    pub stats: Stats,
    /// Unix timestamp until which blocking is bypassed, if any.
    pub bypass_until: Option<i64>,
}

/// The policy: blocking is active at a wall-clock instant and a local
/// calendar instant when the blocking flag is on, no bypass deadline
/// lies strictly in the future, and either the schedule section is
/// disabled or the schedule engine schedules blocking.
pub open spec fn spec_blocking_active(
    s: AppState,
    now: int,
    day: WeekdayWrapper,
    t: int,
) -> bool {
    if !s.config.blocking.enabled {
        false
    } else if match s.bypass_until {
        Some(b) => now < b,
        None => false,
    } {
        false
    } else if s.config.schedule.enabled {
        spec_is_blocking_time(s.schedule.schedule, day, t)
    } else {
        true
    }
}

/// The bypass deadline for a reading of the wall clock: the duration
/// in minutes, added to it and capped at the top of the timestamp
/// range.
pub fn deadline_after(now: i64, duration_minutes: u32) -> (r: i64)
    ensures
        r as int == sat_add_i64(now as int, duration_minutes as int * 60),
{
    let add = (duration_minutes as i64) * 60;
    if now > i64::MAX - add {
        i64::MAX
    } else {
        now + add
    }
}

/// A bypass deadline exactly equal to the current instant no longer
/// suppresses blocking: the comparison is strict, so blocking
/// re-engages.
pub proof fn lemma_bypass_boundary(s: AppState, now: i64, day: WeekdayWrapper, t: int)
    requires
        s.config.blocking.enabled,
        s.bypass_until == Some(now),
        !s.config.schedule.enabled,
    ensures
        spec_blocking_active(s, now as int, day, t),
{
}

impl AppState {
    /// The cross-component invariants: distinct pending quiz ids and
    /// well-formed schedule windows.
    pub open spec fn wf(&self) -> bool {
        &&& self.quiz.wf()
        &&& self.schedule.wf()
    }

    /// Builds the state from a configuration: the schedule engine,
    /// quiz engine and blocker are seeded from their sections, the
    /// counters start at zero, and no bypass is active.
    pub fn new(config: Config) -> (r: AppState)
        requires
            crate::schedule::schedule_wf(config.schedule),
        ensures
            r.wf(),
            r.config == config,
            r.schedule.schedule.enabled == config.schedule.enabled,
            crate::schedule::rules_model(r.schedule.schedule.rules@) == crate::schedule::rules_model(
                config.schedule.rules@,
            ),
            r.quiz.spec_config() == config.quiz,
            r.quiz@.len() == 0,
            r.blocker@.len() == config.blocking.domains@.len(),
            forall|i: int|
                0 <= i < config.blocking.domains@.len() ==> r.blocker@[i]
                    == crate::domain::normalize_spec(config.blocking.domains@[i]@),
            r.stats.queries_blocked == 0,
            r.stats.queries_forwarded == 0,
            r.bypass_until is None,
    {
        let schedule_copy = crate::schedule::clone_schedule(&config.schedule);
        let quiz = QuizEngine::new(config.quiz);
        let domains = clone_string_vec(&config.blocking.domains);
        let blocker = DomainBlocker::new(domains);
        proof {
            assert forall|i: int|
                0 <= i < config.blocking.domains@.len() implies blocker@[i]
                == crate::domain::normalize_spec(config.blocking.domains@[i]@) by {
            }
        }
        AppState {
            config,
            schedule: ScheduleEngine::new(schedule_copy),
            quiz,
            blocker,
            stats: Stats::default(),
            bypass_until: None,
        }
    }

    /// Check if blocking is currently active, by the wall clock and
    /// the local calendar clock.
    pub fn is_blocking_active(&self) -> (r: bool)
        requires
            self.schedule.wf(),
        ensures
            exists|now: i64, day: WeekdayWrapper, time: NaiveTimeWrapper|
                time.wf() && r == spec_blocking_active(*self, now as int, day, time.spec_minutes()),
    {
        let now = wall_clock_seconds();
        let (day, hour, minute) = local_clock();
        let time = NaiveTimeWrapper { hour, minute };
        let r = self.is_blocking_active_at(now, day, time);
        proof {
            assert(time.wf() && r == spec_blocking_active(
                *self,
                now as int,
                day,
                time.spec_minutes(),
            ));
        }
        r
    }

    /// Check if blocking is active at the given instants.
    pub fn is_blocking_active_at(
        &self,
        now: i64,
        day: WeekdayWrapper,
        time: NaiveTimeWrapper,
    ) -> (r: bool)
        requires
            self.schedule.wf(),
            time.wf(),
        ensures
            r == spec_blocking_active(*self, now as int, day, time.spec_minutes()),
    {
        if !self.config.blocking.enabled {
            return false;
        }
        match self.bypass_until {
            Some(b) => {
                if now < b {
                    return false;
                }
            },
            None => {},
        }
        if self.config.schedule.enabled {
            return self.schedule.is_blocking_time_at(day, time);
        }
        true
    }

    /// Activate a bypass for the given number of minutes from now;
    /// the deadline saturates at the end of the timestamp range.
    pub fn activate_bypass(&mut self, duration_minutes: u32)
        ensures
            exists|now: i64|
                final(self).bypass_until == Some::<i64>(
                    (#[trigger] sat_add_i64(now as int, duration_minutes as int * 60)) as i64,
                ),
            final(self).config == old(self).config,
            final(self).schedule == old(self).schedule,
            final(self).quiz == old(self).quiz,
            final(self).blocker == old(self).blocker,
            final(self).stats == old(self).stats,
    {
        let now = wall_clock_seconds();
        let deadline = deadline_after(now, duration_minutes);
        self.bypass_until = Some(deadline);
    }

    /// Cancel any active bypass.
    pub fn cancel_bypass(&mut self)
        ensures
            final(self).bypass_until is None,
            final(self).config == old(self).config,
            final(self).schedule == old(self).schedule,
            final(self).quiz == old(self).quiz,
            final(self).blocker == old(self).blocker,
            final(self).stats == old(self).stats,
    {
        self.bypass_until = None;
    }
}

} // verus!

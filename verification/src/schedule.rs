//! Schedule rules and their evaluation.
//!
//! A rule names a set of weekdays and a window of the day.  A window
//! with `start <= end` covers `[start, end)`; a window with
//! `start > end` is overnight and covers `[start, 24:00) + [00:00, end)`.

use vstd::prelude::*;

use crate::clock::local_clock;
use crate::timeofday::NaiveTimeWrapper;

verus! {

/// A day of the week.
#[derive(Debug, Clone, Copy, PartialEq, Eq, Structural)]
pub enum WeekdayWrapper {
    Mon,
    Tue,
    Wed,
    Thu,
    Fri,
    Sat,
    Sun,
}

/// A single schedule rule.
pub struct ScheduleRule {
    /// Human-readable name for this rule.
    pub name: String,
    /// Days of the week this rule applies.
    pub days: Vec<WeekdayWrapper>,
    /// Start time (blocking begins).
    pub start_time: NaiveTimeWrapper,
    /// End time (blocking ends).
    pub end_time: NaiveTimeWrapper,
}

/// Schedule configuration.
pub struct Schedule {
    /// Whether scheduling is enabled.
    pub enabled: bool,
    /// List of schedule rules.
    pub rules: Vec<ScheduleRule>,
}

/// Membership of a minute of the day in a rule window.  A window with
/// `start <= end` covers `[start, end)`; one with `start > end` wraps
/// around midnight and covers `t >= start || t < end`.
pub open spec fn in_window(start: int, end: int, t: int) -> bool {
    if start <= end {
        start <= t < end
    } else {
        t >= start || t < end
    }
}

/// A rule matches an instant when the weekday is listed and the
/// minute of the day falls in the rule's window.
pub open spec fn spec_rule_matches(r: ScheduleRule, day: WeekdayWrapper, t: int) -> bool {
    r.days@.contains(day) && in_window(
        r.start_time.spec_minutes(),
        r.end_time.spec_minutes(),
        t,
    )
}

/// The index of the first rule that matches the instant, in list
/// order.
pub open spec fn first_match(rules: Seq<ScheduleRule>, day: WeekdayWrapper, t: int) -> Option<
    int,
>
    decreases rules.len(),
{
    if rules.len() == 0 {
        None
    } else if spec_rule_matches(rules[0], day, t) {
        Some(0)
    } else {
        match first_match(rules.drop_first(), day, t) {
            Some(i) => Some(i + 1),
            None => None,
        }
    }
}

/// Blocking is scheduled at an instant when the schedule is disabled
/// (the schedule then does not gate blocking), or when it is enabled,
/// non-empty, and some rule matches.
pub open spec fn spec_is_blocking_time(s: Schedule, day: WeekdayWrapper, t: int) -> bool {
    if !s.enabled {
        true
    } else if s.rules@.len() == 0 {
        false
    } else {
        exists|i: int| 0 <= i < s.rules@.len() && spec_rule_matches(s.rules@[i], day, t)
    }
}

/// The name of the first matching rule, or nothing when the schedule
/// is disabled, empty, or no rule matches.
pub open spec fn spec_active_rule_name(s: Schedule, day: WeekdayWrapper, t: int) -> Option<
    Seq<char>,
> {
    if !s.enabled || s.rules@.len() == 0 {
        None
    } else {
        match first_match(s.rules@, day, t) {
            Some(i) => Some(s.rules@[i].name@),
            None => None,
        }
    }
}

/// The first matching index is a match, is the earliest one, and
/// exists exactly when some rule matches.
pub proof fn lemma_first_match_props(rules: Seq<ScheduleRule>, day: WeekdayWrapper, t: int)
    ensures
        first_match(rules, day, t) is Some <==> exists|i: int|
            0 <= i < rules.len() && spec_rule_matches(rules[i], day, t),
        first_match(rules, day, t) matches Some(i) ==> 0 <= i < rules.len() && spec_rule_matches(
            rules[i],
            day,
            t,
        ) && forall|j: int| 0 <= j < i ==> !spec_rule_matches(rules[j], day, t),
    decreases rules.len(),
{
    if rules.len() == 0 {
    } else if spec_rule_matches(rules[0], day, t) {
    } else {
        lemma_first_match_props(rules.drop_first(), day, t);
        if first_match(rules.drop_first(), day, t) is None {
            assert forall|i: int|
                0 <= i < rules.len() implies !spec_rule_matches(rules[i], day, t) by {
                if i > 0 {
                    assert(rules.drop_first()[i - 1] == rules[i]);
                }
            }
        } else {
            let i = first_match(rules.drop_first(), day, t)->0;
            assert(rules.drop_first()[i] == rules[i + 1]);
            assert forall|j: int| 0 <= j < i + 1 implies !spec_rule_matches(
                rules[j],
                day,
                t,
            ) by {
                if j > 0 {
                    assert(rules.drop_first()[j - 1] == rules[j]);
                }
            }
        }
    }
}

/// There is an active rule name exactly when blocking is scheduled,
/// whenever the schedule is enabled and has at least one rule.
pub proof fn lemma_active_rule_iff_blocking(s: Schedule, day: WeekdayWrapper, t: int)
    requires
        s.enabled,
        s.rules@.len() > 0,
    ensures
        spec_active_rule_name(s, day, t) is Some <==> spec_is_blocking_time(s, day, t),
{
    lemma_first_match_props(s.rules@, day, t);
}

/// The window law: for `start <= end` the window is `[start, end)`;
/// for `start > end` membership is `t >= start || t < end`.
pub proof fn lemma_window_semantics(start: int, end: int, t: int)
    ensures
        start <= end ==> (in_window(start, end, t) <==> start <= t && t < end),
        start > end ==> (in_window(start, end, t) <==> t >= start || t < end),
{
}

/// An enabled schedule with no rules never schedules blocking.
pub proof fn lemma_enabled_empty_schedule_off(s: Schedule, day: WeekdayWrapper, t: int)
    requires
        s.enabled,
        s.rules@.len() == 0,
    ensures
        !spec_is_blocking_time(s, day, t),
{
}

/// The plain view of a rule: its name, days and window.
pub struct RuleModel {
    pub name: Seq<char>,
    pub days: Seq<WeekdayWrapper>,
    pub start: NaiveTimeWrapper,
    pub end: NaiveTimeWrapper,
}

/// The plain view of one rule.
pub open spec fn rule_model(r: ScheduleRule) -> RuleModel {
    RuleModel { name: r.name@, days: r.days@, start: r.start_time, end: r.end_time }
}

/// The plain view of a rule list.
pub open spec fn rules_model(s: Seq<ScheduleRule>) -> Seq<RuleModel> {
    Seq::new(s.len(), |i: int| rule_model(s[i]))
}

/// Every rule window of the schedule carries well-formed times.
pub open spec fn schedule_wf(s: Schedule) -> bool {
    forall|i: int| 0 <= i < s.rules@.len() ==> (#[trigger] s.rules@[i].start_time).wf()
        && s.rules@[i].end_time.wf()
}

/// Copies one rule.
pub fn clone_rule(r: &ScheduleRule) -> (c: ScheduleRule)
    ensures
        rule_model(c) == rule_model(*r),
{
    let mut days: Vec<WeekdayWrapper> = Vec::new();
    let mut i: usize = 0;
    while i < r.days.len()
        invariant
            i <= r.days@.len(),
            days@ =~= r.days@.take(i as int),
        decreases r.days@.len() - i,
    {
        days.push(r.days[i]);
        i = i + 1;
    }
    proof {
        assert(days@ =~= r.days@);
    }
    ScheduleRule {
        name: r.name.clone(),
        days,
        start_time: r.start_time,
        end_time: r.end_time,
    }
}

/// Copies a schedule.
pub fn clone_schedule(s: &Schedule) -> (c: Schedule)
    ensures
        c.enabled == s.enabled,
        rules_model(c.rules@) == rules_model(s.rules@),
        schedule_wf(*s) ==> schedule_wf(c),
{
    let mut rules: Vec<ScheduleRule> = Vec::new();
    let mut i: usize = 0;
    while i < s.rules.len()
        invariant
            i <= s.rules@.len(),
            rules@.len() == i,
            forall|j: int| 0 <= j < i ==> rule_model(rules@[j]) == rule_model(s.rules@[j]),
        decreases s.rules@.len() - i,
    {
        rules.push(clone_rule(&s.rules[i]));
        i = i + 1;
    }
    let c = Schedule { enabled: s.enabled, rules };
    proof {
        assert(rules_model(c.rules@) =~= rules_model(s.rules@));
        if schedule_wf(*s) {
            assert forall|i: int| 0 <= i < c.rules@.len() implies (
            #[trigger] c.rules@[i].start_time).wf() && c.rules@[i].end_time.wf() by {
                assert(rule_model(c.rules@[i]) == rule_model(s.rules@[i]));
            }
        }
    }
    c
}

/// Engine for evaluating schedule rules.
pub struct ScheduleEngine {
    /// The schedule under evaluation.
    pub schedule: Schedule,
}

impl ScheduleEngine {
    /// Create a new schedule engine.
    pub fn new(schedule: Schedule) -> (r: ScheduleEngine)
        ensures
            r.schedule == schedule,
    {
        ScheduleEngine { schedule }
    }

    /// Replace the schedule configuration.
    pub fn update(&mut self, schedule: Schedule)
        ensures
            final(self).schedule == schedule,
    {
        self.schedule = schedule;
    }

    /// Check if a specific rule matches the given day and time.
    pub fn rule_matches(
        &self,
        rule: &ScheduleRule,
        current_day: WeekdayWrapper,
        current_time: NaiveTimeWrapper,
    ) -> (r: bool)
        requires
            rule.start_time.wf(),
            rule.end_time.wf(),
            current_time.wf(),
        ensures
            r == spec_rule_matches(*rule, current_day, current_time.spec_minutes()),
    {
        let mut day_matches = false;
        let n = rule.days.len();
        let mut i: usize = 0;
        while i < n
            invariant
                n == rule.days@.len(),
                i <= n,
                day_matches == exists|j: int| 0 <= j < i && rule.days@[j] == current_day,
            decreases n - i,
        {
            if rule.days[i] == current_day {
                day_matches = true;
            }
            i = i + 1;
        }
        if !day_matches {
            proof {
                assert(!rule.days@.contains(current_day));
            }
            return false;
        }
        let start = rule.start_time.minutes();
        let end = rule.end_time.minutes();
        let t = current_time.minutes();
        if start <= end {
            t >= start && t < end
        } else {
            t >= start || t < end
        }
    }

    /// Check if blocking is scheduled at the given day and minute of
    /// the day.
    pub fn is_blocking_time_at(&self, day: WeekdayWrapper, time: NaiveTimeWrapper) -> (r: bool)
        requires
            self.wf(),
            time.wf(),
        ensures
            r == spec_is_blocking_time(self.schedule, day, time.spec_minutes()),
    {
        if !self.schedule.enabled {
            return true;
        }
        let n = self.schedule.rules.len();
        if n == 0 {
            return false;
        }
        let mut i: usize = 0;
        while i < n
            invariant
                self.wf(),
                time.wf(),
                n == self.schedule.rules@.len(),
                i <= n,
                forall|j: int| 0 <= j < i ==> !spec_rule_matches(
                    self.schedule.rules@[j],
                    day,
                    time.spec_minutes(),
                ),
            decreases n - i,
        {
            proof {
                assert(self.schedule.rules@[i as int].start_time.wf());
            }
            if self.rule_matches(&self.schedule.rules[i], day, time) {
                return true;
            }
            i = i + 1;
        }
        false
    }

    /// The name of the first rule active at the given day and minute
    /// of the day, if any.
    pub fn active_rule_name_at(&self, day: WeekdayWrapper, time: NaiveTimeWrapper) -> (r: Option<
        String,
    >)
        requires
            self.wf(),
            time.wf(),
        ensures
            r is Some <==> spec_active_rule_name(self.schedule, day, time.spec_minutes())
                is Some,
            r matches Some(name) ==> spec_active_rule_name(
                self.schedule,
                day,
                time.spec_minutes(),
            ) == Some(name@),
    {
        proof {
            lemma_first_match_props(self.schedule.rules@, day, time.spec_minutes());
        }
        if !self.schedule.enabled {
            return None;
        }
        let n = self.schedule.rules.len();
        if n == 0 {
            return None;
        }
        let mut i: usize = 0;
        while i < n
            invariant
                self.wf(),
                time.wf(),
                self.schedule.enabled,
                n == self.schedule.rules@.len(),
                i <= n,
                forall|j: int| 0 <= j < i ==> !spec_rule_matches(
                    self.schedule.rules@[j],
                    day,
                    time.spec_minutes(),
                ),
            decreases n - i,
        {
            proof {
                assert(self.schedule.rules@[i as int].start_time.wf());
            }
            if self.rule_matches(&self.schedule.rules[i], day, time) {
                proof {
                    lemma_first_match_props(self.schedule.rules@, day, time.spec_minutes());
                    let rules = self.schedule.rules@;
                    let t = time.spec_minutes();
                    assert(spec_rule_matches(rules[i as int], day, t));
                    assert(first_match(rules, day, t) is Some);
                    let k = first_match(rules, day, t)->0;
                    if k < i as int {
                        assert(!spec_rule_matches(rules[k], day, t));
                        assert(false);
                    }
                    if k > i as int {
                        assert(!spec_rule_matches(rules[i as int], day, t));
                        assert(false);
                    }
                    assert(first_match(rules, day, t) == Some(i as int));
                    assert(self.schedule.enabled);
                    assert(self.schedule.rules@.len() > 0);
                    assert(first_match(self.schedule.rules@, day, t) == Some(i as int));
                    assert(spec_active_rule_name(self.schedule, day, t) == Some(
                        self.schedule.rules@[i as int].name@,
                    ));
                }
                let name = self.schedule.rules[i].name.clone();
                proof {
                    assert(name@ == self.schedule.rules@[i as int].name@);
                }
                return Some(name);
            }
            i = i + 1;
        }
        None
    }

    /// All rule windows carry well-formed times.
    pub open spec fn wf(&self) -> bool {
        forall|i: int| 0 <= i < self.schedule.rules@.len() ==> (
        #[trigger] self.schedule.rules@[i].start_time).wf()
            && self.schedule.rules@[i].end_time.wf()
    }

    /// Check if blocking is scheduled right now, by the local clock.
    pub fn is_blocking_time(&self) -> (r: bool)
        requires
            self.wf(),
        ensures
            exists|day: WeekdayWrapper, time: NaiveTimeWrapper|
                time.wf() && r == spec_is_blocking_time(
                    self.schedule,
                    day,
                    time.spec_minutes(),
                ),
    {
        let (day, hour, minute) = local_clock();
        let time = NaiveTimeWrapper { hour, minute };
        let r = self.is_blocking_time_at(day, time);
        proof {
            assert(time.wf() && r == spec_is_blocking_time(
                self.schedule,
                day,
                time.spec_minutes(),
            ));
        }
        r
    }

    /// The name of the rule active right now, by the local clock, if
    /// any.
    pub fn active_rule_name(&self) -> (r: Option<String>)
        requires
            self.wf(),
        ensures
            exists|day: WeekdayWrapper, time: NaiveTimeWrapper|
                time.wf() && (r is Some <==> spec_active_rule_name(
                    self.schedule,
                    day,
                    time.spec_minutes(),
                ) is Some),
    {
        let (day, hour, minute) = local_clock();
        let time = NaiveTimeWrapper { hour, minute };
        let r = self.active_rule_name_at(day, time);
        proof {
            assert(time.wf() && (r is Some <==> spec_active_rule_name(
                self.schedule,
                day,
                time.spec_minutes(),
            ) is Some));
        }
        r
    }
}

} // verus!

//! The IPC command set and the command handler: every command reads
//! or mutates the shared state and yields exactly one response.

use vstd::prelude::*;

use crate::clock::{local_clock, wall_clock_seconds};
use crate::domain::{normalize_domain, normalize_spec};
use crate::quiz::{
    find_pending, has_id, lemma_find_pending_props, question_consistent, spec_evaluate,
    QuizChallenge, QuizError,
};
use crate::schedule::{
    clone_schedule, rules_model, schedule_wf, spec_active_rule_name, Schedule,
};
use crate::state::{spec_blocking_active, AppState};
use crate::text::sat_add_i64;
use crate::text::{clone_string_vec, str_eq};
use crate::timeofday::NaiveTimeWrapper;

verus! {

/// IPC commands sent from the UI to the daemon.
pub enum Command {
    /// Get current daemon status.
    GetStatus,
    /// Get the current blocklist.
    GetBlocklist,
    /// Add a domain to the blocklist.
    AddDomain { domain: String },
    /// Remove a domain from the blocklist.
    RemoveDomain { domain: String },
    /// Get the current schedule configuration.
    GetSchedule,
    /// Update the schedule configuration.
    UpdateSchedule { schedule: Schedule },
    /// Request a bypass (triggers quiz challenge).
    RequestBypass { duration_minutes: u32 },
    /// Submit quiz answers to complete a bypass request.
    SubmitQuizAnswers { challenge_id: String, answers: Vec<i32> },
    /// Cancel an active bypass early.
    CancelBypass,
    /// Ping to check if the daemon is alive.
    Ping,
}

/// Error codes for IPC responses.
#[derive(Debug, Clone, Copy, PartialEq, Eq, Structural)]
pub enum ErrorCode {
    /// Invalid command format.
    InvalidCommand,
    /// Domain is invalid or missing from the blocklist.
    InvalidDomain,
    /// Quiz challenge not found.
    QuizNotFound,
    /// Quiz challenge has expired.
    QuizExpired,
    /// Wrong quiz answers.
    QuizFailed,
    /// Quiz solved too quickly (anti-automation).
    QuizTooFast,
    /// Cannot bypass during a strict schedule.
    BypassNotAllowed,
    /// Configuration error.
    ConfigError,
    /// Internal daemon error.
    InternalError,
}

/// Current daemon status.
pub struct Status {
    /// Whether blocking is currently active.
    pub blocking_active: bool,
    /// Number of domains in the blocklist.
    pub blocked_domains_count: usize,
    /// Number of DNS queries blocked since daemon start.
    pub queries_blocked: u64,
    /// Number of DNS queries forwarded since daemon start.
    pub queries_forwarded: u64,
    /// Unix timestamp when the bypass expires, if one is active.
    pub bypass_until: Option<i64>,
    /// Name of the currently active schedule rule, if any.
    pub active_schedule_rule: Option<String>,
    /// Whether the schedule is enabled.
    pub schedule_enabled: bool,
}

/// IPC responses sent from the daemon to the UI.
pub enum Response {
    /// Current daemon status.
    Status(Status),
    /// Current blocklist.
    Blocklist { domains: Vec<String> },
    /// Current schedule configuration.
    Schedule(Schedule),
    /// Quiz challenge for a bypass request.
    QuizChallenge(QuizChallenge),
    /// Operation completed successfully.
    Success,
    /// Pong response to ping.
    Pong,
    /// Error response.
    Error { code: ErrorCode, message: String },
}

/// Status information shaped for a control surface.
pub struct StatusInfo {
    pub blocking_active: bool,
    pub schedule_enabled: bool,
    pub schedule_active: bool,
    pub bypass_active: bool,
    pub bypass_remaining_seconds: Option<i64>,
    pub blocked_count: u64,
    pub daemon_connected: bool,
}

/// Quiz information shaped for a control surface.
pub struct QuizInfo {
    pub challenge_id: String,
    pub questions: Vec<String>,
    pub expires_at: i64,
}

/// The outcome of a quiz submission, shaped for a control surface.
pub struct QuizResult {
    pub success: bool,
    pub message: String,
}

impl StatusInfo {
    /// The status shown when the daemon cannot be reached: nothing
    /// active, nothing counted.
    pub fn disconnected() -> (r: StatusInfo)
        ensures
            !r.blocking_active,
            !r.schedule_enabled,
            !r.schedule_active,
            !r.bypass_active,
            r.bypass_remaining_seconds is None,
            r.blocked_count == 0,
            !r.daemon_connected,
    {
        StatusInfo {
            blocking_active: false,
            schedule_enabled: false,
            schedule_active: false,
            bypass_active: false,
            bypass_remaining_seconds: None,
            blocked_count: 0,
            daemon_connected: false,
        }
    }

    /// Reshapes a daemon status at a wall-clock instant: the bypass
    /// is active while its deadline lies strictly in the future, and
    /// the remaining seconds never go below zero.
    pub fn from_status(status: &Status, now: i64) -> (r: StatusInfo)
        ensures
            r.blocking_active == status.blocking_active,
            r.schedule_enabled == status.schedule_enabled,
            r.schedule_active == status.active_schedule_rule is Some,
            r.bypass_active == (match status.bypass_until {
                Some(u) => u > now,
                None => false,
            }),
            r.bypass_remaining_seconds matches Some(rem) ==> status.bypass_until is Some
                && rem == (if status.bypass_until->0 as int - now as int > 0 {
                if status.bypass_until->0 as int - now as int > i64::MAX as int {
                    i64::MAX as int
                } else {
                    status.bypass_until->0 as int - now as int
                }
            } else {
                0
            }),
            r.bypass_remaining_seconds is Some <==> status.bypass_until is Some,
            r.blocked_count == status.queries_blocked,
            r.daemon_connected,
    {
        let bypass_remaining_seconds: Option<i64> = match status.bypass_until {
            None => None,
            Some(u) => {
                if u <= now {
                    Some(0)
                } else if now >= 0 || u <= i64::MAX + now {
                    Some(u - now)
                } else {
                    Some(i64::MAX)
                }
            },
        };
        let bypass_active = match status.bypass_until {
            Some(u) => u > now,
            None => false,
        };
        StatusInfo {
            blocking_active: status.blocking_active,
            schedule_enabled: status.schedule_enabled,
            schedule_active: status.active_schedule_rule.is_some(),
            bypass_active,
            bypass_remaining_seconds,
            blocked_count: status.queries_blocked,
            daemon_connected: true,
        }
    }
}

/// The error code that reports each quiz verdict.
pub open spec fn quiz_error_code(e: QuizError) -> ErrorCode {
    match e {
        QuizError::NotFound => ErrorCode::QuizNotFound,
        QuizError::Expired => ErrorCode::QuizExpired,
        QuizError::TooFast => ErrorCode::QuizTooFast,
        QuizError::WrongAnswerCount => ErrorCode::QuizFailed,
        QuizError::WrongAnswer => ErrorCode::QuizFailed,
    }
}

/// The first position of a normalized name in a domain list.
pub open spec fn find_domain(ds: Seq<Seq<char>>, d: Seq<char>) -> Option<int>
    decreases ds.len(),
{
    if ds.len() == 0 {
        None
    } else if ds[0] == d {
        Some(0)
    } else {
        match find_domain(ds.drop_first(), d) {
            Some(i) => Some(i + 1),
            None => None,
        }
    }
}

/// The found position carries the name, is the first one, and exists
/// exactly when the list holds the name.
pub proof fn lemma_find_domain_props(ds: Seq<Seq<char>>, d: Seq<char>)
    ensures
        find_domain(ds, d) is Some <==> exists|i: int| 0 <= i < ds.len() && ds[i] == d,
        find_domain(ds, d) matches Some(i) ==> 0 <= i < ds.len() && ds[i] == d && forall|j: int|
            0 <= j < i ==> ds[j] != d,
    decreases ds.len(),
{
    if ds.len() == 0 {
    } else if ds[0] == d {
    } else {
        lemma_find_domain_props(ds.drop_first(), d);
        if find_domain(ds.drop_first(), d) is None {
            assert forall|i: int| 0 <= i < ds.len() implies ds[i] != d by {
                if i > 0 {
                    assert(ds.drop_first()[i - 1] == ds[i]);
                }
            }
        } else {
            let i = find_domain(ds.drop_first(), d)->0;
            assert(ds.drop_first()[i] == ds[i + 1]);
            assert forall|j: int| 0 <= j < i + 1 implies ds[j] != d by {
                if j > 0 {
                    assert(ds.drop_first()[j - 1] == ds[j]);
                }
            }
        }
    }
}

/// After a domain is added and the blocker refreshed, every query
/// matching the normalized name is blocked: the normalized name
/// stands among the raw domains, the blocker holds their normalized
/// forms, and the name survives re-normalization.
pub proof fn lemma_add_then_blocked(
    d: Seq<char>,
    q: Seq<char>,
    domains: Seq<Seq<char>>,
    entries: Seq<Seq<char>>,
)
    requires
        domains.contains(normalize_spec(d)),
        entries.len() == domains.len(),
        forall|i: int| 0 <= i < domains.len() ==> entries[i] == normalize_spec(domains[i]),
        normalize_spec(normalize_spec(d)) == normalize_spec(d),
        crate::domain::domain_matches(normalize_spec(q), normalize_spec(d)),
    ensures
        crate::domain::blocked_by(entries, q),
{
    let i = choose|i: int| 0 <= i < domains.len() && domains[i] == normalize_spec(d);
    assert(entries[i] == normalize_spec(d));
    assert(crate::domain::domain_matches(normalize_spec(q), entries[i]));
}

/// Handles one IPC command against the shared state and returns the
/// response together with a flag that says whether the configuration
/// changed and must be persisted.
///
/// Reads leave the state untouched.  `AddDomain` and `RemoveDomain`
/// normalize the name, edit the blocklist and refresh the blocker
/// before returning.  `UpdateSchedule` reconfigures the engine and
/// the stored configuration.  `RequestBypass` issues a quiz
/// challenge (the requested duration is not recorded; a fixed
/// fifteen-minute bypass applies on success).  `SubmitQuizAnswers`
/// consumes the challenge on every outcome and activates the bypass
/// only on a correct, timely submission.
pub fn handle_command(state: &mut AppState, cmd: Command) -> (r: (Response, bool))
    requires
        old(state).wf(),
        cmd is RequestBypass ==> old(state).quiz.spec_config().operands_wf(),
        cmd matches Command::UpdateSchedule { schedule } ==> schedule_wf(schedule),
    ensures
        final(state).wf(),
        cmd is Ping ==> r.0 is Pong && *final(state) == *old(state) && !r.1,
        cmd is CancelBypass ==> r.0 is Success && !r.1 && final(state).bypass_until is None
            && final(state).config == old(state).config && final(state).quiz == old(state).quiz
            && final(state).blocker == old(state).blocker && final(state).schedule == old(state).schedule && final(state).stats == old(state).stats,
        cmd is GetStatus ==> *final(state) == *old(state) && !r.1 && (r.0 matches Response::Status(
            st,
        ) && {
            &&& st.blocked_domains_count == old(state).config.blocking.domains@.len()
            &&& st.queries_blocked == old(state).stats.queries_blocked
            &&& st.queries_forwarded == old(state).stats.queries_forwarded
            &&& st.bypass_until == old(state).bypass_until
            &&& st.schedule_enabled == old(state).config.schedule.enabled
            &&& exists|now: i64, day: crate::schedule::WeekdayWrapper, time: NaiveTimeWrapper|
                time.wf() && st.blocking_active == spec_blocking_active(
                    *old(state),
                    now as int,
                    day,
                    time.spec_minutes(),
                )
            &&& exists|day: crate::schedule::WeekdayWrapper, time: NaiveTimeWrapper|
                time.wf() && (st.active_schedule_rule is Some <==> spec_active_rule_name(
                    old(state).schedule.schedule,
                    day,
                    time.spec_minutes(),
                ) is Some)
        }),
        cmd is GetBlocklist ==> *final(state) == *old(state) && !r.1 && (
        r.0 matches Response::Blocklist { domains } && domains.deep_view() == old(state).config.blocking.domains.deep_view()),
        cmd is GetSchedule ==> *final(state) == *old(state) && !r.1 && (
        r.0 matches Response::Schedule(s) && s.enabled == old(state).config.schedule.enabled
            && rules_model(s.rules@) == rules_model(old(state).config.schedule.rules@)),
        cmd matches Command::AddDomain { domain } ==> r.0 is Success && r.1 && {
            let ds_old = old(state).config.blocking.domains.deep_view();
            let ds_new = final(state).config.blocking.domains.deep_view();
            let nd = normalize_spec(domain@);
            &&& (ds_old.contains(nd) ==> ds_new == ds_old)
            &&& (!ds_old.contains(nd) ==> ds_new == ds_old.push(nd))
            &&& ds_new.contains(nd)
            &&& final(state).blocker@.len() == ds_new.len()
            &&& forall|i: int|
                0 <= i < ds_new.len() ==> final(state).blocker@[i] == normalize_spec(ds_new[i])
            &&& final(state).quiz == old(state).quiz
            &&& final(state).schedule == old(state).schedule
            &&& final(state).stats == old(state).stats
            &&& final(state).bypass_until == old(state).bypass_until
            &&& final(state).config.blocking.enabled == old(state).config.blocking.enabled
            &&& final(state).config.schedule == old(state).config.schedule
            &&& final(state).config.quiz == old(state).config.quiz
            &&& final(state).config.dns == old(state).config.dns
        },
        cmd matches Command::RemoveDomain { domain } ==> r.1 && {
            let ds_old = old(state).config.blocking.domains.deep_view();
            let ds_new = final(state).config.blocking.domains.deep_view();
            let nd = normalize_spec(domain@);
            &&& (find_domain(ds_old, nd) is None ==> *final(state) == *old(state) && (
            r.0 matches Response::Error { code, message } && code == ErrorCode::InvalidDomain
                && message@ == "Domain not found in blocklist"@))
            &&& (find_domain(ds_old, nd) matches Some(i) ==> r.0 is Success && ds_new == ds_old.remove(
                i,
            ) && final(state).blocker@.len() == ds_new.len() && (forall|k: int|
                0 <= k < ds_new.len() ==> final(state).blocker@[k] == normalize_spec(ds_new[k]))
                && final(state).quiz == old(state).quiz && final(state).schedule == old(state).schedule && final(state).stats == old(state).stats && final(state).bypass_until
                == old(state).bypass_until && final(state).config.blocking.enabled == old(state).config.blocking.enabled && final(state).config.schedule == old(state).config.schedule && final(state).config.quiz == old(state).config.quiz && final(state).config.dns == old(state).config.dns)
        },
        cmd matches Command::UpdateSchedule { schedule } ==> r.0 is Success && r.1 && {
            &&& final(state).schedule.schedule.enabled == schedule.enabled
            &&& rules_model(final(state).schedule.schedule.rules@) == rules_model(schedule.rules@)
            &&& final(state).config.schedule.enabled == schedule.enabled
            &&& rules_model(final(state).config.schedule.rules@) == rules_model(schedule.rules@)
            &&& final(state).quiz == old(state).quiz
            &&& final(state).blocker == old(state).blocker
            &&& final(state).stats == old(state).stats
            &&& final(state).bypass_until == old(state).bypass_until
            &&& final(state).config.blocking == old(state).config.blocking
            &&& final(state).config.quiz == old(state).config.quiz
            &&& final(state).config.dns == old(state).config.dns
        },
        cmd is RequestBypass ==> !r.1 && (r.0 matches Response::QuizChallenge(ch) && {
            &&& ch.questions@.len() == old(state).quiz.spec_config().num_questions
            &&& ch.challenge_id@.len() == 36
            &&& exists|now: i64|
                ch.expires_at as int == (#[trigger] sat_add_i64(
                    now as int,
                    old(state).quiz.spec_config().timeout_seconds as int,
                )) && exists|entry: crate::quiz::PendingInfo|
                    {
                        &&& entry.id == ch.challenge_id@
                        &&& entry.expires_at == ch.expires_at
                        &&& entry.answers.len() == ch.questions@.len()
                        &&& (forall|q: int|
                            0 <= q < ch.questions@.len() ==> question_consistent(
                                old(state).quiz.spec_config(),
                                ch.questions@[q]@,
                                entry.answers[q] as int,
                            ))
                        &&& final(state).quiz@ == #[trigger] crate::quiz::insert_model(
                            crate::quiz::purge_expired(old(state).quiz@, now as int),
                            entry,
                        )
                    }
            &&& has_id(final(state).quiz@, ch.challenge_id@)
            &&& forall|k: int|
                0 <= k < final(state).quiz@.len() && final(state).quiz@[k].id
                    == ch.challenge_id@ ==> {
                    &&& final(state).quiz@[k].expires_at == ch.expires_at
                    &&& final(state).quiz@[k].answers.len() == ch.questions@.len()
                    &&& forall|q: int|
                        0 <= q < ch.questions@.len() ==> question_consistent(
                            old(state).quiz.spec_config(),
                            ch.questions@[q]@,
                            final(state).quiz@[k].answers[q] as int,
                        )
                }
            &&& final(state).quiz.spec_config() == old(state).quiz.spec_config()
            &&& final(state).config == old(state).config
            &&& final(state).blocker == old(state).blocker
            &&& final(state).schedule == old(state).schedule
            &&& final(state).stats == old(state).stats
            &&& final(state).bypass_until == old(state).bypass_until
        }),
        cmd matches Command::SubmitQuizAnswers { challenge_id, answers } ==> !r.1 && final(state).config == old(state).config && final(state).blocker == old(state).blocker && final(state).schedule == old(state).schedule && final(state).stats == old(state).stats && {
            let f = find_pending(old(state).quiz@, challenge_id@);
            &&& (f is None ==> (r.0 matches Response::Error { code, .. } && code
                == ErrorCode::QuizNotFound) && final(state).quiz@ == old(state).quiz@ && final(state).bypass_until == old(state).bypass_until)
            &&& (f matches Some(i) ==> final(state).quiz@ == old(state).quiz@.remove(i) && exists|
                now: i64,
                elapsed: u64,
            |
                {
                    let v = #[trigger] spec_evaluate(
                        old(state).quiz@[i].answers,
                        answers@,
                        old(state).quiz@[i].expires_at,
                        old(state).quiz.spec_config().min_solve_seconds,
                        now,
                        elapsed,
                    );
                    &&& (v is Ok ==> r.0 is Success && exists|now2: i64|
                        final(state).bypass_until == Some::<i64>(
                            (#[trigger] sat_add_i64(now2 as int, 900)) as i64,
                        ))
                    &&& (v matches Err(e) ==> (r.0 matches Response::Error { code, message }
                        && code == quiz_error_code(e) && message@
                        == crate::quiz::quiz_error_text(e)) && final(state).bypass_until
                        == old(state).bypass_until)
                })
        },
{
    match cmd {
        Command::Ping => (Response::Pong, false),
        Command::GetStatus => {
            let now = wall_clock_seconds();
            let (day, hour, minute) = local_clock();
            let time = NaiveTimeWrapper { hour, minute };
            let blocking_active = state.is_blocking_active_at(now, day, time);
            let active_rule = state.schedule.active_rule_name_at(day, time);
            let st = Status {
                blocking_active,
                blocked_domains_count: state.config.blocking.domains.len(),
                queries_blocked: state.stats.queries_blocked,
                queries_forwarded: state.stats.queries_forwarded,
                bypass_until: state.bypass_until,
                active_schedule_rule: active_rule,
                schedule_enabled: state.config.schedule.enabled,
            };
            proof {
                assert(time.wf() && st.blocking_active == spec_blocking_active(
                    *old(state),
                    now as int,
                    day,
                    time.spec_minutes(),
                ));
                assert(time.wf() && (st.active_schedule_rule is Some
                    <==> spec_active_rule_name(
                    old(state).schedule.schedule,
                    day,
                    time.spec_minutes(),
                ) is Some));
            }
            (Response::Status(st), false)
        },
        Command::GetBlocklist => {
            let domains = clone_string_vec(&state.config.blocking.domains);
            (Response::Blocklist { domains }, false)
        },
        Command::AddDomain { domain } => {
            let nd = normalize_domain(domain.as_str());
            let n = state.config.blocking.domains.len();
            let mut found = false;
            let mut i: usize = 0;
            while i < n
                invariant
                    n == state.config.blocking.domains@.len(),
                    i <= n,
                    nd@ == normalize_spec(domain@),
                    found == exists|j: int|
                        0 <= j < i && state.config.blocking.domains@[j]@ == nd@,
                decreases n - i,
            {
                if str_eq(state.config.blocking.domains[i].as_str(), nd.as_str()) {
                    found = true;
                    proof {
                        assert(state.config.blocking.domains@[i as int]@ == nd@);
                    }
                }
                i = i + 1;
            }
            let ghost ds_old = state.config.blocking.domains.deep_view();
            proof {
                assert forall|j: int| 0 <= j < ds_old.len() implies ds_old[j]
                    == state.config.blocking.domains@[j]@ by {}
                if found {
                    let j = choose|j: int|
                        0 <= j < n && state.config.blocking.domains@[j]@ == nd@;
                    assert(ds_old[j] == nd@);
                    assert(ds_old.contains(nd@));
                } else if ds_old.contains(nd@) {
                    let j = choose|j: int| 0 <= j < ds_old.len() && ds_old[j] == nd@;
                    assert(state.config.blocking.domains@[j]@ == nd@);
                    assert(false);
                }
                assert(found == ds_old.contains(nd@));
            }
            if !found {
                state.config.blocking.domains.push(nd);
                proof {
                    assert(state.config.blocking.domains.deep_view() =~= ds_old.push(
                        normalize_spec(domain@),
                    ));
                }
            } else {
                proof {
                    assert(state.config.blocking.domains.deep_view() =~= ds_old);
                }
            }
            let domains_copy = clone_string_vec(&state.config.blocking.domains);
            state.blocker.update_domains(domains_copy);
            proof {
                let ds_new = state.config.blocking.domains.deep_view();
                assert(ds_new.contains(normalize_spec(domain@))) by {
                    if found {
                        let j = choose|j: int| 0 <= j < ds_old.len() && ds_old[j]
                            == normalize_spec(domain@);
                        assert(ds_new[j] == normalize_spec(domain@));
                    } else {
                        assert(ds_new[ds_new.len() - 1] == normalize_spec(domain@));
                    }
                }
                assert forall|k: int| 0 <= k < ds_new.len() implies state.blocker@[k]
                    == normalize_spec(ds_new[k]) by {
                    assert(ds_new[k] == state.config.blocking.domains@[k]@);
                }
            }
            (Response::Success, true)
        },
        Command::RemoveDomain { domain } => {
            let nd = normalize_domain(domain.as_str());
            proof {
                lemma_find_domain_props(
                    state.config.blocking.domains.deep_view(),
                    normalize_spec(domain@),
                );
            }
            let n = state.config.blocking.domains.len();
            let mut found: Option<usize> = None;
            let mut i: usize = 0;
            while i < n && found.is_none()
                invariant
                    n == state.config.blocking.domains@.len(),
                    i <= n,
                    nd@ == normalize_spec(domain@),
                    found is None ==> forall|j: int|
                        0 <= j < i ==> state.config.blocking.domains@[j]@ != nd@,
                    found matches Some(k) ==> k < i <= n && state.config.blocking.domains@[
                        k as int
                    ]@ == nd@ && forall|j: int|
                        0 <= j < k ==> state.config.blocking.domains@[j]@ != nd@,
                decreases n - i,
            {
                if str_eq(state.config.blocking.domains[i].as_str(), nd.as_str()) {
                    found = Some(i);
                }
                i = i + 1;
            }
            let ghost ds_old = state.config.blocking.domains.deep_view();
            proof {
                assert forall|j: int| 0 <= j < ds_old.len() implies ds_old[j]
                    == state.config.blocking.domains@[j]@ by {}
            }
            match found {
                None => {
                    proof {
                        lemma_find_domain_props(ds_old, normalize_spec(domain@));
                        assert(find_domain(ds_old, normalize_spec(domain@)) is None);
                    }
                    (
                        Response::Error {
                            code: ErrorCode::InvalidDomain,
                            message: String::from_str("Domain not found in blocklist"),
                        },
                        true,
                    )
                },
                Some(idx) => {
                    proof {
                        lemma_find_domain_props(ds_old, normalize_spec(domain@));
                        assert(ds_old[idx as int] == normalize_spec(domain@));
                        assert(exists|j: int|
                            0 <= j < ds_old.len() && ds_old[j] == normalize_spec(domain@));
                        let k = find_domain(ds_old, normalize_spec(domain@));
                        assert(k is Some);
                        let ki = k->0;
                        if ki < idx as int {
                            assert(ds_old[ki] != normalize_spec(domain@));
                            assert(false);
                        }
                        if ki > idx as int {
                            assert(ds_old[idx as int] != normalize_spec(domain@));
                            assert(false);
                        }
                        assert(find_domain(ds_old, normalize_spec(domain@)) == Some(
                            idx as int,
                        ));
                    }
                    let _ = state.config.blocking.domains.remove(idx);
                    proof {
                        assert(state.config.blocking.domains.deep_view() =~= ds_old.remove(
                            idx as int,
                        ));
                    }
                    let domains_copy = clone_string_vec(&state.config.blocking.domains);
                    state.blocker.update_domains(domains_copy);
                    proof {
                        let ds_new = state.config.blocking.domains.deep_view();
                        assert forall|k: int| 0 <= k < ds_new.len() implies state.blocker@[k]
                            == normalize_spec(ds_new[k]) by {
                            assert(ds_new[k] == state.config.blocking.domains@[k]@);
                        }
                    }
                    (Response::Success, true)
                },
            }
        },
        Command::GetSchedule => {
            let s = clone_schedule(&state.config.schedule);
            (Response::Schedule(s), false)
        },
        Command::UpdateSchedule { schedule } => {
            let copy = clone_schedule(&schedule);
            state.schedule.update(copy);
            state.config.schedule = schedule;
            proof {
                assert(state.schedule.wf());
            }
            (Response::Success, true)
        },
        Command::RequestBypass { duration_minutes: _ } => {
            let ch = state.quiz.generate_challenge();
            (Response::QuizChallenge(ch), false)
        },
        Command::SubmitQuizAnswers { challenge_id, answers } => {
            let res = state.quiz.validate_answers(challenge_id.as_str(), answers.as_slice());
            match res {
                Ok(()) => {
                    proof {
                        let f = find_pending(old(state).quiz@, challenge_id@);
                        assert(f is Some) by {
                            if f is None {
                                assert(res == Err::<(), QuizError>(QuizError::NotFound));
                            }
                        }
                    }
                    state.activate_bypass(15);
                    (Response::Success, false)
                },
                Err(e) => {
                    let code = match e {
                        QuizError::NotFound => ErrorCode::QuizNotFound,
                        QuizError::Expired => ErrorCode::QuizExpired,
                        QuizError::TooFast => ErrorCode::QuizTooFast,
                        QuizError::WrongAnswerCount => ErrorCode::QuizFailed,
                        QuizError::WrongAnswer => ErrorCode::QuizFailed,
                    };
                    let message = e.message();
                    (Response::Error { code, message }, false)
                },
            }
        },
        Command::CancelBypass => {
            state.cancel_bypass();
            (Response::Success, false)
        },
    }
}

} // verus!

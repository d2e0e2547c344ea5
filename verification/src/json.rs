//! The line-JSON wire codec for IPC: commands and responses as
//! `{"type":"<Name>","payload":...}` objects, one per line.
//!
//! The serializer emits the canonical compact form; the parser reads
//! exactly that form back: members in the emitted order, no
//! insignificant whitespace.  A client must send the canonical
//! rendering (the command serializer here produces it); any other
//! rendering is reported as an invalid command.  Strings are escaped
//! with `\u00XX` on emission; the parser also accepts the common
//! two-character escapes.

use vstd::prelude::*;

use crate::ipc::{Command, ErrorCode, Response, Status};
use crate::schedule::{rule_model, rules_model, schedule_wf, RuleModel, Schedule, ScheduleRule, WeekdayWrapper};
use crate::text::{dec_digits, digit_char, digit_val, is_digit, push_char, str_eq};
use crate::timeofday::NaiveTimeWrapper;

verus! {

/// A character that may stand unescaped inside a JSON string.
pub open spec fn json_plain_char(c: char) -> bool {
    c != '"' && c != '\\' && c as int >= 32
}

/// The lower-case hexadecimal digit for a value below sixteen.
pub open spec fn hex_digit_char(d: int) -> char {
    if d < 10 {
        (48 + d) as char
    } else {
        (87 + d) as char
    }
}

/// A lower-case hexadecimal digit character.
pub open spec fn is_hex_digit(c: char) -> bool {
    ('0' <= c && c <= '9') || ('a' <= c && c <= 'f')
}

/// The value of a lower-case hexadecimal digit character.
pub open spec fn hex_val(c: char) -> int {
    if '0' <= c && c <= '9' {
        c as int - 48
    } else {
        c as int - 87
    }
}

/// How one character is written inside a JSON string: plain
/// characters stand as themselves, the rest (the quote, the
/// backslash and the control characters) as `\u00XX`.
pub open spec fn escape_char(c: char) -> Seq<char> {
    if json_plain_char(c) {
        seq![c]
    } else {
        seq![
            '\\',
            'u',
            '0',
            '0',
            hex_digit_char(c as int / 16),
            hex_digit_char(c as int % 16),
        ]
    }
}

/// The escaped body of a JSON string.
pub open spec fn escape_string(s: Seq<char>) -> Seq<char>
    decreases s.len(),
{
    if s.len() == 0 {
        Seq::empty()
    } else {
        escape_char(s[0]) + escape_string(s.drop_first())
    }
}

/// A JSON string literal: the escaped body between quotes.
pub open spec fn json_str(s: Seq<char>) -> Seq<char> {
    seq!['"'] + escape_string(s) + seq!['"']
}

/// Appends one escaped character.
fn emit_escaped_char(out: &mut String, c: char)
    ensures
        final(out)@ == old(out)@ + escape_char(c),
{
    if c != '"' && c != '\\' && c >= ' ' {
        push_char(out, c);
    } else {
        let v = c as u32;
        proof {
            assert(v < 93);
        }
        push_char(out, '\\');
        push_char(out, 'u');
        push_char(out, '0');
        push_char(out, '0');
        let hi = v / 16;
        let lo = v % 16;
        let hc: char = if hi < 10 {
            ((48 + hi) as u8) as char
        } else {
            ((87 + hi) as u8) as char
        };
        let lc: char = if lo < 10 {
            ((48 + lo) as u8) as char
        } else {
            ((87 + lo) as u8) as char
        };
        push_char(out, hc);
        push_char(out, lc);
        proof {
            assert(final(out)@ =~= old(out)@ + escape_char(c));
        }
    }
}

/// Appends a JSON string literal.
pub fn emit_json_string(out: &mut String, s: &str)
    ensures
        final(out)@ == old(out)@ + json_str(s@),
{
    push_char(out, '"');
    let n = s.unicode_len();
    let mut i: usize = 0;
    proof {
        assert(s@.skip(0) =~= s@);
    }
    while i < n
        invariant
            n == s@.len(),
            i <= n,
            old(out)@ + seq!['"'] + escape_string(s@) == out@ + escape_string(s@.skip(i as int)),
        decreases n - i,
    {
        let c = s.get_char(i);
        proof {
            assert(s@.skip(i as int)[0] == c);
            assert(s@.skip(i as int).drop_first() =~= s@.skip(i + 1));
            assert(escape_string(s@.skip(i as int)) == escape_char(c) + escape_string(
                s@.skip(i + 1),
            ));
        }
        let ghost before = out@;
        emit_escaped_char(out, c);
        proof {
            assert(out@ + escape_string(s@.skip(i + 1)) =~= before + escape_string(
                s@.skip(i as int),
            ));
        }
        i = i + 1;
    }
    proof {
        assert(s@.skip(n as int).len() == 0);
        assert(out@ =~= old(out)@ + seq!['"'] + escape_string(s@));
    }
    push_char(out, '"');
    proof {
        assert(out@ =~= old(out)@ + json_str(s@));
    }
}

/// Appends a string literal's characters unchanged (used for fixed
/// pieces of the grammar).
pub fn emit_lit(out: &mut String, s: &str)
    ensures
        final(out)@ == old(out)@ + s@,
{
    let n = s.unicode_len();
    let mut i: usize = 0;
    while i < n
        invariant
            n == s@.len(),
            i <= n,
            out@ == old(out)@ + s@.take(i as int),
        decreases n - i,
    {
        proof {
            assert(old(out)@ + s@.take(i + 1) == (old(out)@ + s@.take(i as int)).push(
                s@[i as int],
            ));
        }
        push_char(out, s.get_char(i));
        i = i + 1;
    }
    proof {
        assert(s@.take(n as int) =~= s@);
    }
}

/// The wire name of a weekday.
pub open spec fn day_name(d: WeekdayWrapper) -> Seq<char> {
    match d {
        WeekdayWrapper::Mon => seq!['m', 'o', 'n'],
        WeekdayWrapper::Tue => seq!['t', 'u', 'e'],
        WeekdayWrapper::Wed => seq!['w', 'e', 'd'],
        WeekdayWrapper::Thu => seq!['t', 'h', 'u'],
        WeekdayWrapper::Fri => seq!['f', 'r', 'i'],
        WeekdayWrapper::Sat => seq!['s', 'a', 't'],
        WeekdayWrapper::Sun => seq!['s', 'u', 'n'],
    }
}

/// The wire form of a weekday list: quoted names between brackets.
pub open spec fn days_json(days: Seq<WeekdayWrapper>) -> Seq<char>
    decreases days.len(),
{
    if days.len() == 0 {
        Seq::empty()
    } else if days.len() == 1 {
        seq!['"'] + day_name(days[0]) + seq!['"']
    } else {
        seq!['"'] + day_name(days[0]) + seq!['"', ','] + days_json(days.drop_first())
    }
}

/// The wire form of a time of day: the quoted "HH:MM" rendering.
pub open spec fn time_json(t: NaiveTimeWrapper) -> Seq<char> {
    seq!['"'] + crate::timeofday::time_string(t.hour as int, t.minute as int) + seq!['"']
}

/// The wire form of one schedule rule.
pub open spec fn rule_json(r: RuleModel) -> Seq<char> {
    "{\"name\":"@ + json_str(r.name) + ",\"days\":["@ + days_json(r.days) + seq![']']
        + ",\"start_time\":"@ + time_json(r.start) + ",\"end_time\":"@ + time_json(r.end)
        + seq!['}']
}

/// The wire form of a rule list body.
pub open spec fn rules_json(rs: Seq<RuleModel>) -> Seq<char>
    decreases rs.len(),
{
    if rs.len() == 0 {
        Seq::empty()
    } else if rs.len() == 1 {
        rule_json(rs[0])
    } else {
        rule_json(rs[0]) + seq![','] + rules_json(rs.drop_first())
    }
}

/// The wire form of a schedule.
pub open spec fn schedule_json(enabled: bool, rs: Seq<RuleModel>) -> Seq<char> {
    "{\"enabled\":"@ + bool_json(enabled) + ",\"rules\":["@ + rules_json(rs) + seq![']', '}']
}

/// The wire form of a boolean.
pub open spec fn bool_json(b: bool) -> Seq<char> {
    if b {
        "true"@
    } else {
        "false"@
    }
}

/// The wire form of an answers list body.
pub open spec fn answers_json(xs: Seq<i32>) -> Seq<char>
    decreases xs.len(),
{
    if xs.len() == 0 {
        Seq::empty()
    } else if xs.len() == 1 {
        crate::text::int_string(xs[0] as int)
    } else {
        crate::text::int_string(xs[0] as int) + seq![','] + answers_json(xs.drop_first())
    }
}

/// The plain-value model of a command.
pub enum CommandModel {
    GetStatus,
    GetBlocklist,
    AddDomain { domain: Seq<char> },
    RemoveDomain { domain: Seq<char> },
    GetSchedule,
    UpdateSchedule { enabled: bool, rules: Seq<RuleModel> },
    RequestBypass { duration_minutes: int },
    SubmitQuizAnswers { challenge_id: Seq<char>, answers: Seq<i32> },
    CancelBypass,
    Ping,
}

/// The model of an executable command.
pub open spec fn cmd_model(c: Command) -> CommandModel {
    match c {
        Command::GetStatus => CommandModel::GetStatus,
        Command::GetBlocklist => CommandModel::GetBlocklist,
        Command::AddDomain { domain } => CommandModel::AddDomain { domain: domain@ },
        Command::RemoveDomain { domain } => CommandModel::RemoveDomain { domain: domain@ },
        Command::GetSchedule => CommandModel::GetSchedule,
        Command::UpdateSchedule { schedule } => CommandModel::UpdateSchedule {
            enabled: schedule.enabled,
            rules: rules_model(schedule.rules@),
        },
        Command::RequestBypass { duration_minutes } => CommandModel::RequestBypass {
            duration_minutes: duration_minutes as int,
        },
        Command::SubmitQuizAnswers { challenge_id, answers } => CommandModel::SubmitQuizAnswers {
            challenge_id: challenge_id@,
            answers: answers@,
        },
        Command::CancelBypass => CommandModel::CancelBypass,
        Command::Ping => CommandModel::Ping,
    }
}

/// The wire name of a command variant.
pub open spec fn command_name(m: CommandModel) -> Seq<char> {
    match m {
        CommandModel::GetStatus => "GetStatus"@,
        CommandModel::GetBlocklist => "GetBlocklist"@,
        CommandModel::GetSchedule => "GetSchedule"@,
        CommandModel::CancelBypass => "CancelBypass"@,
        CommandModel::Ping => "Ping"@,
        CommandModel::AddDomain { .. } => "AddDomain"@,
        CommandModel::RemoveDomain { .. } => "RemoveDomain"@,
        CommandModel::UpdateSchedule { .. } => "UpdateSchedule"@,
        CommandModel::RequestBypass { .. } => "RequestBypass"@,
        CommandModel::SubmitQuizAnswers { .. } => "SubmitQuizAnswers"@,
    }
}

/// The wire form of a command's payload, with the closing brace of
/// the whole object: nothing and a brace for the unit commands, or
/// the `payload` member.
pub open spec fn command_payload_json(m: CommandModel) -> Seq<char> {
    match m {
        CommandModel::GetStatus => seq!['}'],
        CommandModel::GetBlocklist => seq!['}'],
        CommandModel::GetSchedule => seq!['}'],
        CommandModel::CancelBypass => seq!['}'],
        CommandModel::Ping => seq!['}'],
        CommandModel::AddDomain { domain } => ",\"payload\":{\"domain\":"@ + json_str(domain)
            + seq!['}', '}'],
        CommandModel::RemoveDomain { domain } => ",\"payload\":{\"domain\":"@ + json_str(
            domain,
        ) + seq!['}', '}'],
        CommandModel::UpdateSchedule { enabled, rules } => ",\"payload\":{\"schedule\":"@
            + schedule_json(enabled, rules) + seq!['}', '}'],
        CommandModel::RequestBypass { duration_minutes } =>
            ",\"payload\":{\"duration_minutes\":"@ + dec_digits(duration_minutes as nat) + seq![
            '}',
            '}',
        ],
        CommandModel::SubmitQuizAnswers { challenge_id, answers } =>
            ",\"payload\":{\"challenge_id\":"@ + json_str(challenge_id) + ",\"answers\":["@
            + answers_json(answers) + seq![']', '}', '}'],
    }
}

/// The wire form of a command: the adjacently tagged object
/// `{"type":"<Name>"}` or `{"type":"<Name>","payload":...}`.
pub open spec fn command_json(m: CommandModel) -> Seq<char> {
    "{\"type\":"@ + seq!['"'] + command_name(m) + seq!['"'] + command_payload_json(m)
}

/// Renders a command in its wire form.
pub fn serialize_command(c: &Command) -> (r: String)
    requires
        c matches Command::UpdateSchedule { schedule } ==> schedule_wf(*schedule),
    ensures
        r@ == command_json(cmd_model(*c)),
{
    let mut out = String::new();
    emit_lit(&mut out, "{\"type\":");
    push_char(&mut out, '"');
    match c {
        Command::GetStatus => {
            emit_lit(&mut out, "GetStatus");
            push_char(&mut out, '"');
            push_char(&mut out, '}');
        },
        Command::GetBlocklist => {
            emit_lit(&mut out, "GetBlocklist");
            push_char(&mut out, '"');
            push_char(&mut out, '}');
        },
        Command::GetSchedule => {
            emit_lit(&mut out, "GetSchedule");
            push_char(&mut out, '"');
            push_char(&mut out, '}');
        },
        Command::CancelBypass => {
            emit_lit(&mut out, "CancelBypass");
            push_char(&mut out, '"');
            push_char(&mut out, '}');
        },
        Command::Ping => {
            emit_lit(&mut out, "Ping");
            push_char(&mut out, '"');
            push_char(&mut out, '}');
        },
        Command::AddDomain { domain } => {
            emit_lit(&mut out, "AddDomain");
            push_char(&mut out, '"');
            emit_lit(&mut out, ",\"payload\":{\"domain\":");
            emit_json_string(&mut out, domain.as_str());
            push_char(&mut out, '}');
            push_char(&mut out, '}');
        },
        Command::RemoveDomain { domain } => {
            emit_lit(&mut out, "RemoveDomain");
            push_char(&mut out, '"');
            emit_lit(&mut out, ",\"payload\":{\"domain\":");
            emit_json_string(&mut out, domain.as_str());
            push_char(&mut out, '}');
            push_char(&mut out, '}');
        },
        Command::UpdateSchedule { schedule } => {
            emit_lit(&mut out, "UpdateSchedule");
            push_char(&mut out, '"');
            emit_lit(&mut out, ",\"payload\":{\"schedule\":");
            emit_schedule(&mut out, schedule);
            push_char(&mut out, '}');
            push_char(&mut out, '}');
        },
        Command::RequestBypass { duration_minutes } => {
            emit_lit(&mut out, "RequestBypass");
            push_char(&mut out, '"');
            emit_lit(&mut out, ",\"payload\":{\"duration_minutes\":");
            let num = crate::text::fmt_u64(*duration_minutes as u64);
            out.append(num.as_str());
            push_char(&mut out, '}');
            push_char(&mut out, '}');
        },
        Command::SubmitQuizAnswers { challenge_id, answers } => {
            emit_lit(&mut out, "SubmitQuizAnswers");
            push_char(&mut out, '"');
            emit_lit(&mut out, ",\"payload\":{\"challenge_id\":");
            emit_json_string(&mut out, challenge_id.as_str());
            emit_lit(&mut out, ",\"answers\":[");
            emit_answers(&mut out, answers);
            push_char(&mut out, ']');
            push_char(&mut out, '}');
            push_char(&mut out, '}');
        },
    }
    proof {
        assert(out@ =~= command_json(cmd_model(*c)));
    }
    out
}

/// Appends the wire form of an answers list body.
fn emit_answers(out: &mut String, xs: &Vec<i32>)
    ensures
        final(out)@ == old(out)@ + answers_json(xs@),
{
    let n = xs.len();
    let mut i: usize = 0;
    proof {
        assert(xs@.skip(0) =~= xs@);
    }
    while i < n
        invariant
            n == xs@.len(),
            i <= n,
            old(out)@ + answers_json(xs@) == out@ + (if i < n {
                answers_json(xs@.skip(i as int))
            } else {
                Seq::<char>::empty()
            }),
        decreases n - i,
    {
        proof {
            assert(xs@.skip(i as int)[0] == xs@[i as int]);
            assert(xs@.skip(i as int).drop_first() =~= xs@.skip(i + 1));
        }
        let ghost before = out@;
        let num = crate::text::fmt_i64(xs[i] as i64);
        out.append(num.as_str());
        if i + 1 < n {
            push_char(out, ',');
            proof {
                assert(xs@.skip(i as int).len() > 1);
                assert(answers_json(xs@.skip(i as int)) == crate::text::int_string(
                    xs@[i as int] as int,
                ) + seq![','] + answers_json(xs@.skip(i + 1)));
                assert(out@ + answers_json(xs@.skip(i + 1)) =~= before + answers_json(
                    xs@.skip(i as int),
                ));
            }
        } else {
            proof {
                assert(xs@.skip(i as int).len() == 1);
                assert(answers_json(xs@.skip(i as int)) == crate::text::int_string(
                    xs@[i as int] as int,
                ));
                assert(out@ =~= before + answers_json(xs@.skip(i as int)));
            }
        }
        i = i + 1;
    }
    proof {
        if n == 0 {
            assert(answers_json(xs@).len() == 0);
        }
        assert(final(out)@ =~= old(out)@ + answers_json(xs@));
    }
}

/// Appends the wire form of a weekday list body.
fn emit_days(out: &mut String, days: &Vec<WeekdayWrapper>)
    ensures
        final(out)@ == old(out)@ + days_json(days@),
{
    let n = days.len();
    let mut i: usize = 0;
    proof {
        assert(days@.skip(0) =~= days@);
    }
    while i < n
        invariant
            n == days@.len(),
            i <= n,
            old(out)@ + days_json(days@) == out@ + (if i < n {
                days_json(days@.skip(i as int))
            } else {
                Seq::<char>::empty()
            }),
        decreases n - i,
    {
        proof {
            assert(days@.skip(i as int)[0] == days@[i as int]);
            assert(days@.skip(i as int).drop_first() =~= days@.skip(i + 1));
        }
        let ghost before = out@;
        push_char(out, '"');
        let name: &str = match days[i] {
            WeekdayWrapper::Mon => "mon",
            WeekdayWrapper::Tue => "tue",
            WeekdayWrapper::Wed => "wed",
            WeekdayWrapper::Thu => "thu",
            WeekdayWrapper::Fri => "fri",
            WeekdayWrapper::Sat => "sat",
            WeekdayWrapper::Sun => "sun",
        };
        emit_lit(out, name);
        proof {
            reveal_strlit("mon");
            reveal_strlit("tue");
            reveal_strlit("wed");
            reveal_strlit("thu");
            reveal_strlit("fri");
            reveal_strlit("sat");
            reveal_strlit("sun");
            assert(name@ == day_name(days@[i as int]));
        }
        push_char(out, '"');
        if i + 1 < n {
            push_char(out, ',');
            proof {
                assert(out@ + days_json(days@.skip(i + 1)) =~= before + days_json(
                    days@.skip(i as int),
                ));
            }
        } else {
            proof {
                assert(out@ =~= before + days_json(days@.skip(i as int)));
            }
        }
        i = i + 1;
    }
    proof {
        if n == 0 {
            assert(days_json(days@).len() == 0);
        }
        assert(final(out)@ =~= old(out)@ + days_json(days@));
    }
}

/// Appends the wire form of one rule.
fn emit_rule(out: &mut String, r: &ScheduleRule)
    requires
        r.start_time.wf(),
        r.end_time.wf(),
    ensures
        final(out)@ == old(out)@ + rule_json(rule_model(*r)),
{
    emit_lit(out, "{\"name\":");
    emit_json_string(out, r.name.as_str());
    emit_lit(out, ",\"days\":[");
    emit_days(out, &r.days);
    push_char(out, ']');
    emit_lit(out, ",\"start_time\":");
    push_char(out, '"');
    let st = r.start_time.format();
    out.append(st.as_str());
    push_char(out, '"');
    emit_lit(out, ",\"end_time\":");
    push_char(out, '"');
    let et = r.end_time.format();
    out.append(et.as_str());
    push_char(out, '"');
    push_char(out, '}');
    proof {
        assert(final(out)@ =~= old(out)@ + rule_json(rule_model(*r)));
    }
}

/// Appends the wire form of a schedule.
pub fn emit_schedule(out: &mut String, s: &Schedule)
    requires
        schedule_wf(*s),
    ensures
        final(out)@ == old(out)@ + schedule_json(s.enabled, rules_model(s.rules@)),
{
    emit_lit(out, "{\"enabled\":");
    if s.enabled {
        emit_lit(out, "true");
    } else {
        emit_lit(out, "false");
    }
    emit_lit(out, ",\"rules\":[");
    let n = s.rules.len();
    let mut i: usize = 0;
    let ghost rm = rules_model(s.rules@);
    proof {
        assert(rm.skip(0) =~= rm);
    }
    while i < n
        invariant
            schedule_wf(*s),
            n == s.rules@.len(),
            rm == rules_model(s.rules@),
            rm.len() == n,
            i <= n,
            old(out)@ + "{\"enabled\":"@ + bool_json(s.enabled) + ",\"rules\":["@ + rules_json(
                rm,
            ) == out@ + (if i < n {
                rules_json(rm.skip(i as int))
            } else {
                Seq::<char>::empty()
            }),
        decreases n - i,
    {
        proof {
            assert(rm.skip(i as int)[0] == rm[i as int]);
            assert(rm[i as int] == rule_model(s.rules@[i as int]));
            assert(rm.skip(i as int).drop_first() =~= rm.skip(i + 1));
            assert(s.rules@[i as int].start_time.wf());
        }
        let ghost before = out@;
        emit_rule(out, &s.rules[i]);
        if i + 1 < n {
            push_char(out, ',');
            proof {
                assert(rm.skip(i as int).len() > 1);
                assert(rules_json(rm.skip(i as int)) == rule_json(rm[i as int]) + seq![',']
                    + rules_json(rm.skip(i + 1)));
                assert(out@ + rules_json(rm.skip(i + 1)) =~= before + rules_json(
                    rm.skip(i as int),
                ));
            }
        } else {
            proof {
                assert(rm.skip(i as int).len() == 1);
                assert(rules_json(rm.skip(i as int)) == rule_json(rm[i as int]));
                assert(out@ =~= before + rules_json(rm.skip(i as int)));
            }
        }
        i = i + 1;
    }
    push_char(out, ']');
    push_char(out, '}');
    proof {
        if n == 0 {
            assert(rules_json(rm).len() == 0);
        }
        assert(final(out)@ =~= old(out)@ + schedule_json(s.enabled, rules_model(s.rules@)));
    }
}

/// The wire name of an error code, in snake case.
pub open spec fn error_code_json(c: ErrorCode) -> Seq<char> {
    match c {
        ErrorCode::InvalidCommand => "invalid_command"@,
        ErrorCode::InvalidDomain => "invalid_domain"@,
        ErrorCode::QuizNotFound => "quiz_not_found"@,
        ErrorCode::QuizExpired => "quiz_expired"@,
        ErrorCode::QuizFailed => "quiz_failed"@,
        ErrorCode::QuizTooFast => "quiz_too_fast"@,
        ErrorCode::BypassNotAllowed => "bypass_not_allowed"@,
        ErrorCode::ConfigError => "config_error"@,
        ErrorCode::InternalError => "internal_error"@,
    }
}

/// The wire form of a string list body.
pub open spec fn strings_json(xs: Seq<Seq<char>>) -> Seq<char>
    decreases xs.len(),
{
    if xs.len() == 0 {
        Seq::empty()
    } else if xs.len() == 1 {
        json_str(xs[0])
    } else {
        json_str(xs[0]) + seq![','] + strings_json(xs.drop_first())
    }
}

/// The wire form of an optional timestamp: `null` or the number.
pub open spec fn opt_i64_json(v: Option<i64>) -> Seq<char> {
    match v {
        None => "null"@,
        Some(x) => crate::text::int_string(x as int),
    }
}

/// The wire form of an optional string: `null` or the literal.
pub open spec fn opt_string_json(v: Option<Seq<char>>) -> Seq<char> {
    match v {
        None => "null"@,
        Some(x) => json_str(x),
    }
}

/// The wire form of a status payload, fields in declaration order.
pub open spec fn status_json(
    blocking_active: bool,
    blocked_domains_count: int,
    queries_blocked: int,
    queries_forwarded: int,
    bypass_until: Option<i64>,
    active_schedule_rule: Option<Seq<char>>,
    schedule_enabled: bool,
) -> Seq<char> {
    "{\"blocking_active\":"@ + bool_json(blocking_active) + ",\"blocked_domains_count\":"@
        + dec_digits(blocked_domains_count as nat) + ",\"queries_blocked\":"@ + dec_digits(
        queries_blocked as nat,
    ) + ",\"queries_forwarded\":"@ + dec_digits(queries_forwarded as nat) + ",\"bypass_until\":"@
        + opt_i64_json(bypass_until) + ",\"active_schedule_rule\":"@ + opt_string_json(
        active_schedule_rule,
    ) + ",\"schedule_enabled\":"@ + bool_json(schedule_enabled) + "}"@
}

/// The model of the string of an optional string value.
pub open spec fn opt_string_model(v: Option<String>) -> Option<Seq<char>> {
    match v {
        None => None,
        Some(s) => Some(s@),
    }
}

/// The wire form of a response.
pub open spec fn response_json(r: Response) -> Seq<char> {
    match r {
        Response::Success => "{\"type\":\"Success\"}"@,
        Response::Pong => "{\"type\":\"Pong\"}"@,
        Response::Status(st) => "{\"type\":\"Status\",\"payload\":"@ + status_json(
            st.blocking_active,
            st.blocked_domains_count as int,
            st.queries_blocked as int,
            st.queries_forwarded as int,
            st.bypass_until,
            opt_string_model(st.active_schedule_rule),
            st.schedule_enabled,
        ) + "}"@,
        Response::Blocklist { domains } => "{\"type\":\"Blocklist\",\"payload\":{\"domains\":["@
            + strings_json(domains.deep_view()) + "]}}"@,
        Response::Schedule(s) => "{\"type\":\"Schedule\",\"payload\":"@ + schedule_json(
            s.enabled,
            rules_model(s.rules@),
        ) + "}"@,
        Response::QuizChallenge(ch) =>
            "{\"type\":\"QuizChallenge\",\"payload\":{\"challenge_id\":"@ + json_str(
            ch.challenge_id@,
        ) + ",\"questions\":["@ + strings_json(ch.questions.deep_view()) + "],\"expires_at\":"@
            + crate::text::int_string(ch.expires_at as int) + "}}"@,
        Response::Error { code, message } => "{\"type\":\"Error\",\"payload\":{\"code\":\""@
            + error_code_json(code) + "\",\"message\":"@ + json_str(message@) + "}}"@,
    }
}

/// Appends the wire form of a string list body.
fn emit_strings(out: &mut String, xs: &Vec<String>)
    ensures
        final(out)@ == old(out)@ + strings_json(xs.deep_view()),
{
    let n = xs.len();
    let mut i: usize = 0;
    let ghost xd = xs.deep_view();
    proof {
        assert(xd.skip(0) =~= xd);
        assert(xd.len() == n);
    }
    while i < n
        invariant
            n == xs@.len(),
            xd == xs.deep_view(),
            xd.len() == n,
            i <= n,
            old(out)@ + strings_json(xd) == out@ + (if i < n {
                strings_json(xd.skip(i as int))
            } else {
                Seq::<char>::empty()
            }),
        decreases n - i,
    {
        proof {
            assert(xd.skip(i as int)[0] == xd[i as int]);
            assert(xd[i as int] == xs@[i as int]@);
            assert(xd.skip(i as int).drop_first() =~= xd.skip(i + 1));
        }
        let ghost before = out@;
        emit_json_string(out, xs[i].as_str());
        if i + 1 < n {
            push_char(out, ',');
            proof {
                assert(strings_json(xd.skip(i as int)) == json_str(xd[i as int]) + seq![',']
                    + strings_json(xd.skip(i + 1)));
                assert(out@ + strings_json(xd.skip(i + 1)) =~= before + strings_json(
                    xd.skip(i as int),
                ));
            }
        } else {
            proof {
                assert(strings_json(xd.skip(i as int)) == json_str(xd[i as int]));
                assert(out@ =~= before + strings_json(xd.skip(i as int)));
            }
        }
        i = i + 1;
    }
    proof {
        if n == 0 {
            assert(strings_json(xd).len() == 0);
        }
        assert(final(out)@ =~= old(out)@ + strings_json(xs.deep_view()));
    }
}

/// Appends the wire form of a status payload.
#[verifier::rlimit(100)]
#[verifier::spinoff_prover]
fn emit_status(out: &mut String, st: &Status)
    ensures
        final(out)@ == old(out)@ + status_json(
            st.blocking_active,
            st.blocked_domains_count as int,
            st.queries_blocked as int,
            st.queries_forwarded as int,
            st.bypass_until,
            opt_string_model(st.active_schedule_rule),
            st.schedule_enabled,
        ),
{
    let ghost base = old(out)@;
    let ghost e1 = base + "{\"blocking_active\":"@ + bool_json(st.blocking_active);
    let ghost e2 = e1 + ",\"blocked_domains_count\":"@ + dec_digits(
        st.blocked_domains_count as nat,
    );
    let ghost e3 = e2 + ",\"queries_blocked\":"@ + dec_digits(st.queries_blocked as nat);
    let ghost e4 = e3 + ",\"queries_forwarded\":"@ + dec_digits(st.queries_forwarded as nat);
    let ghost e5 = e4 + ",\"bypass_until\":"@ + opt_i64_json(st.bypass_until);
    let ghost e6 = e5 + ",\"active_schedule_rule\":"@ + opt_string_json(
        opt_string_model(st.active_schedule_rule),
    );
    let ghost e7 = e6 + ",\"schedule_enabled\":"@ + bool_json(st.schedule_enabled) + "}"@;
    emit_lit(out, "{\"blocking_active\":");
    if st.blocking_active {
        emit_lit(out, "true");
    } else {
        emit_lit(out, "false");
    }
    proof {
        assert(out@ =~= e1);
    }
    emit_lit(out, ",\"blocked_domains_count\":");
    let c1 = crate::text::fmt_u64(st.blocked_domains_count as u64);
    out.append(c1.as_str());
    proof {
        assert(out@ =~= e2);
    }
    emit_lit(out, ",\"queries_blocked\":");
    let c2 = crate::text::fmt_u64(st.queries_blocked);
    out.append(c2.as_str());
    proof {
        assert(out@ =~= e3);
    }
    emit_lit(out, ",\"queries_forwarded\":");
    let c3 = crate::text::fmt_u64(st.queries_forwarded);
    out.append(c3.as_str());
    proof {
        assert(out@ =~= e4);
    }
    emit_status_tail(out, st, Ghost(e4));
    proof {
        assert(final(out)@ =~= e7);
        assert(e7 =~= base + status_json(
            st.blocking_active,
            st.blocked_domains_count as int,
            st.queries_blocked as int,
            st.queries_forwarded as int,
            st.bypass_until,
            opt_string_model(st.active_schedule_rule),
            st.schedule_enabled,
        ));
    }
}

/// Appends the last three fields of a status payload and the closing
/// brace.
#[verifier::rlimit(100)]
#[verifier::spinoff_prover]
fn emit_status_tail(out: &mut String, st: &Status, base4: Ghost<Seq<char>>)
    requires
        old(out)@ == base4@,
    ensures
        final(out)@ == base4@ + ",\"bypass_until\":"@ + opt_i64_json(st.bypass_until)
            + ",\"active_schedule_rule\":"@ + opt_string_json(
            opt_string_model(st.active_schedule_rule),
        ) + ",\"schedule_enabled\":"@ + bool_json(st.schedule_enabled) + "}"@,
{
    let ghost f5 = base4@ + ",\"bypass_until\":"@ + opt_i64_json(st.bypass_until);
    let ghost f6 = f5 + ",\"active_schedule_rule\":"@ + opt_string_json(
        opt_string_model(st.active_schedule_rule),
    );
    emit_lit(out, ",\"bypass_until\":");
    match st.bypass_until {
        None => {
            emit_lit(out, "null");
        },
        Some(b) => {
            let c4 = crate::text::fmt_i64(b);
            out.append(c4.as_str());
        },
    }
    proof {
        assert(out@ =~= f5);
    }
    emit_lit(out, ",\"active_schedule_rule\":");
    match &st.active_schedule_rule {
        None => {
            emit_lit(out, "null");
        },
        Some(name) => {
            emit_json_string(out, name.as_str());
        },
    }
    proof {
        assert(out@ =~= f6);
    }
    emit_lit(out, ",\"schedule_enabled\":");
    if st.schedule_enabled {
        emit_lit(out, "true");
    } else {
        emit_lit(out, "false");
    }
    emit_lit(out, "}");
    proof {
        assert(final(out)@ =~= f6 + ",\"schedule_enabled\":"@ + bool_json(
            st.schedule_enabled,
        ) + "}"@);
    }
}

/// Renders a response in its wire form, one line of JSON.
#[verifier::rlimit(100)]
pub fn serialize_response(r: &Response) -> (out: String)
    requires
        r matches Response::Schedule(s) ==> schedule_wf(*s),
    ensures
        out@ == response_json(*r),
{
    let mut out = String::new();
    match r {
        Response::Success => {
            emit_lit(&mut out, "{\"type\":\"Success\"}");
            proof {
                assert(out@ =~= response_json(*r));
            }
        },
        Response::Pong => {
            emit_lit(&mut out, "{\"type\":\"Pong\"}");
            proof {
                assert(out@ =~= response_json(*r));
            }
        },
        Response::Status(st) => {
            emit_lit(&mut out, "{\"type\":\"Status\",\"payload\":");
            emit_status(&mut out, st);
            emit_lit(&mut out, "}");
            proof {
                assert(out@ =~= response_json(*r));
            }
        },
        Response::Blocklist { domains } => {
            emit_lit(&mut out, "{\"type\":\"Blocklist\",\"payload\":{\"domains\":[");
            emit_strings(&mut out, domains);
            emit_lit(&mut out, "]}}");
            proof {
                assert(out@ =~= response_json(*r));
            }
        },
        Response::Schedule(s) => {
            emit_lit(&mut out, "{\"type\":\"Schedule\",\"payload\":");
            emit_schedule(&mut out, s);
            emit_lit(&mut out, "}");
            proof {
                assert(out@ =~= response_json(*r));
            }
        },
        Response::QuizChallenge(ch) => {
            emit_lit(&mut out, "{\"type\":\"QuizChallenge\",\"payload\":{\"challenge_id\":");
            emit_json_string(&mut out, ch.challenge_id.as_str());
            emit_lit(&mut out, ",\"questions\":[");
            emit_strings(&mut out, &ch.questions);
            emit_lit(&mut out, "],\"expires_at\":");
            let c5 = crate::text::fmt_i64(ch.expires_at);
            out.append(c5.as_str());
            emit_lit(&mut out, "}}");
            proof {
                assert(out@ =~= response_json(*r));
            }
        },
        Response::Error { code, message } => {
            emit_lit(&mut out, "{\"type\":\"Error\",\"payload\":{\"code\":\"");
            let name: &str = match code {
                ErrorCode::InvalidCommand => "invalid_command",
                ErrorCode::InvalidDomain => "invalid_domain",
                ErrorCode::QuizNotFound => "quiz_not_found",
                ErrorCode::QuizExpired => "quiz_expired",
                ErrorCode::QuizFailed => "quiz_failed",
                ErrorCode::QuizTooFast => "quiz_too_fast",
                ErrorCode::BypassNotAllowed => "bypass_not_allowed",
                ErrorCode::ConfigError => "config_error",
                ErrorCode::InternalError => "internal_error",
            };
            emit_lit(&mut out, name);
            emit_lit(&mut out, "\",\"message\":");
            emit_json_string(&mut out, message.as_str());
            emit_lit(&mut out, "}}");
            proof {
                assert(out@ =~= response_json(*r));
            }
        },
    }
    out
}

/// The literal `t` stands at position `i` of `s`.
pub open spec fn lit_at(s: Seq<char>, i: int, t: Seq<char>) -> bool {
    0 <= i && i + t.len() <= s.len() && s.subrange(i, i + t.len()) == t
}

/// Splitting a concatenation found at a position of `s`.
pub proof fn lemma_split(s: Seq<char>, i: int, a: Seq<char>, b: Seq<char>)
    requires
        lit_at(s, i, a + b),
    ensures
        lit_at(s, i, a),
        lit_at(s, i + a.len(), b),
{
    assert(s.subrange(i, i + a.len()) =~= a) by {
        assert forall|k: int| 0 <= k < a.len() implies s.subrange(i, i + a.len())[k]
            == a[k] by {
            assert(s.subrange(i, i + (a + b).len())[k] == (a + b)[k]);
        }
    }
    assert(s.subrange(i + a.len(), i + a.len() + b.len()) =~= b) by {
        assert forall|k: int| 0 <= k < b.len() implies s.subrange(
            i + a.len(),
            i + a.len() + b.len(),
        )[k] == b[k] by {
            assert(s.subrange(i, i + (a + b).len())[a.len() + k] == (a + b)[a.len() + k]);
        }
    }
}

/// The characters of a literal found at a position of `s`.
pub proof fn lemma_lit_chars(s: Seq<char>, i: int, t: Seq<char>)
    requires
        lit_at(s, i, t),
    ensures
        forall|k: int| 0 <= k < t.len() ==> #[trigger] s[i + k] == t[k],
        forall|j: int| i <= j < i + t.len() ==> #[trigger] s[j] == t[j - i],
{
    assert forall|k: int| 0 <= k < t.len() implies #[trigger] s[i + k] == t[k] by {
        assert(s.subrange(i, i + t.len())[k] == t[k]);
    }
    assert forall|j: int| i <= j < i + t.len() implies #[trigger] s[j] == t[j - i] by {
        assert(s.subrange(i, i + t.len())[j - i] == t[j - i]);
    }
}

/// Every character carries a code point in the Unicode range (true
/// of the view of every executable string).
pub open spec fn valid_char_seq(s: Seq<char>) -> bool {
    forall|k: int| 0 <= k < s.len() ==> 0 <= (#[trigger] s[k]) as int <= 0x10FFFF
}

/// The body of a JSON string from position `i` up to its closing
/// quote: the decoded characters and the position after the quote.
pub open spec fn spec_parse_string_body(s: Seq<char>, i: int) -> Option<(Seq<char>, int)>
    decreases s.len() - i,
        when 0 <= i <= s.len()
{
    if i >= s.len() {
        None
    } else if s[i] == '"' {
        Some((Seq::empty(), i + 1))
    } else if s[i] == '\\' {
        if i + 1 >= s.len() {
            None
        } else if s[i + 1] == 'u' {
            if i + 6 <= s.len() && s[i + 2] == '0' && s[i + 3] == '0' && is_hex_digit(s[i + 4])
                && is_hex_digit(s[i + 5]) {
                match spec_parse_string_body(s, i + 6) {
                    Some((rest, end)) => Some(
                        (
                            seq![((hex_val(s[i + 4]) * 16 + hex_val(s[i + 5])) as char)] + rest,
                            end,
                        ),
                    ),
                    None => None,
                }
            } else {
                None
            }
        } else {
            match short_escape(s[i + 1]) {
                Some(c) => match spec_parse_string_body(s, i + 2) {
                    Some((rest, end)) => Some((seq![c] + rest, end)),
                    None => None,
                },
                None => None,
            }
        }
    } else {
        match spec_parse_string_body(s, i + 1) {
            Some((rest, end)) => Some((seq![s[i]] + rest, end)),
            None => None,
        }
    }
}

/// The two-character escapes the parser accepts.
pub open spec fn short_escape(e: char) -> Option<char> {
    if e == '"' {
        Some('"')
    } else if e == '\\' {
        Some('\\')
    } else if e == '/' {
        Some('/')
    } else if e == 'n' {
        Some('\n')
    } else if e == 't' {
        Some('\t')
    } else if e == 'r' {
        Some('\r')
    } else if e == 'b' {
        Some('\u{8}')
    } else if e == 'f' {
        Some('\u{c}')
    } else {
        None
    }
}

/// A JSON string literal from position `i`: an opening quote, then
/// the body.
pub open spec fn spec_parse_string(s: Seq<char>, i: int) -> Option<(Seq<char>, int)> {
    if 0 <= i < s.len() && s[i] == '"' {
        spec_parse_string_body(s, i + 1)
    } else {
        None
    }
}

/// The string body parser consumes exactly what the escaper wrote
/// and returns the original characters.
pub proof fn lemma_parse_string_body_rt(s: Seq<char>, i: int, v: Seq<char>)
    requires
        valid_char_seq(v),
        lit_at(s, i, escape_string(v) + seq!['"']),
    ensures
        spec_parse_string_body(s, i) == Some((v, i + escape_string(v).len() + 1)),
    decreases v.len(),
{
    if v.len() == 0 {
        assert(escape_string(v) + seq!['"'] =~= seq!['"']);
        lemma_lit_chars(s, i, seq!['"']);
        assert(s[i + 0] == '"');
    } else {
        let c = v[0];
        let e = escape_char(c);
        assert(escape_string(v) == e + escape_string(v.drop_first()));
        assert((e + escape_string(v.drop_first())) + seq!['"'] =~= e + (escape_string(
            v.drop_first(),
        ) + seq!['"']));
        lemma_split(s, i, e, escape_string(v.drop_first()) + seq!['"']);
        lemma_lit_chars(s, i, e);
        assert(valid_char_seq(v.drop_first())) by {
            assert forall|k: int| 0 <= k < v.drop_first().len() implies 0 <= (
            #[trigger] v.drop_first()[k]) as int <= 0x10FFFF by {
                assert(v.drop_first()[k] == v[k + 1]);
            }
        }
        lemma_parse_string_body_rt(s, i + e.len(), v.drop_first());
        if json_plain_char(c) {
            assert(e == seq![c]);
            assert(s[i + 0] == e[0]);
            assert(s[i] == c);
            assert(s[i] != '"' && s[i] != '\\');
            assert(spec_parse_string_body(s, i) == Some(
                (seq![c] + v.drop_first(), i + escape_string(v).len() + 1),
            ));
            assert(seq![c] + v.drop_first() =~= v);
        } else {
            assert(s[i + 0] == e[0]);
            assert(s[i + 1] == e[1]);
            assert(s[i + 2] == e[2]);
            assert(s[i + 3] == e[3]);
            assert(s[i + 4] == e[4]);
            assert(s[i + 5] == e[5]);
            assert(s[i] == '\\');
            assert(s[i + 1] == 'u');
            let cv = c as int;
            assert(0 <= v[0] as int);
            assert(cv >= 0);
            assert(c == '"' || c == '\\' || cv < 32);
            assert('"' as int == 34);
            assert('\\' as int == 92);
            assert(0 <= cv < 93);
            assert(s[i + 4] == hex_digit_char(cv / 16));
            assert(s[i + 5] == hex_digit_char(cv % 16));
            assert(is_hex_digit(hex_digit_char(cv / 16)) && hex_val(hex_digit_char(cv / 16))
                == cv / 16) by {
                if cv / 16 < 10 {
                    assert(hex_digit_char(cv / 16) as int == 48 + cv / 16);
                } else {
                    assert(hex_digit_char(cv / 16) as int == 87 + cv / 16);
                }
            }
            assert(is_hex_digit(hex_digit_char(cv % 16)) && hex_val(hex_digit_char(cv % 16))
                == cv % 16) by {
                if cv % 16 < 10 {
                    assert(hex_digit_char(cv % 16) as int == 48 + cv % 16);
                } else {
                    assert(hex_digit_char(cv % 16) as int == 87 + cv % 16);
                }
            }
            assert(hex_val(s[i + 4]) * 16 + hex_val(s[i + 5]) == cv);
            assert((cv as char) == c);
            assert(spec_parse_string_body(s, i) == Some(
                (seq![c] + v.drop_first(), i + escape_string(v).len() + 1),
            ));
            assert(seq![c] + v.drop_first() =~= v);
        }
    }
}

/// The string parser reads back exactly what the serializer wrote.
pub proof fn lemma_parse_string_rt(s: Seq<char>, i: int, v: Seq<char>)
    requires
        valid_char_seq(v),
        lit_at(s, i, json_str(v)),
    ensures
        spec_parse_string(s, i) == Some((v, i + json_str(v).len())),
{
    assert(json_str(v) =~= seq!['"'] + (escape_string(v) + seq!['"']));
    lemma_split(s, i, seq!['"'], escape_string(v) + seq!['"']);
    lemma_lit_chars(s, i, seq!['"']);
    lemma_parse_string_body_rt(s, i + 1, v);
}

/// The first position at or after `i` that does not hold a digit.
pub open spec fn digits_end(s: Seq<char>, i: int) -> int
    decreases s.len() - i,
        when 0 <= i <= s.len()
{
    if i < s.len() && is_digit(s[i]) {
        digits_end(s, i + 1)
    } else {
        i
    }
}

/// The value of the digits between `i` and `end`.
pub open spec fn digits_value(s: Seq<char>, i: int, end: int) -> int
    decreases end - i,
{
    if end <= i {
        0
    } else {
        digits_value(s, i, end - 1) * 10 + digit_val(s[end - 1])
    }
}

/// A JSON number without sign: a single zero, or a non-zero digit
/// run read greedily.
pub open spec fn spec_parse_nat(s: Seq<char>, i: int) -> Option<(int, int)> {
    if 0 <= i < s.len() && is_digit(s[i]) {
        if s[i] == '0' {
            Some((0, i + 1))
        } else {
            Some((digits_value(s, i, digits_end(s, i)), digits_end(s, i)))
        }
    } else {
        None
    }
}

/// A JSON integer: an optional minus sign, then a number.
pub open spec fn spec_parse_int(s: Seq<char>, i: int) -> Option<(int, int)> {
    if 0 <= i < s.len() && s[i] == '-' {
        match spec_parse_nat(s, i + 1) {
            Some((v, end)) => Some((-v, end)),
            None => None,
        }
    } else {
        spec_parse_nat(s, i)
    }
}

/// Everything between `i` and the digit run's end is a digit, and
/// its value and sign behave as expected.
pub proof fn lemma_digits_end_range(s: Seq<char>, i: int, end: int)
    requires
        0 <= i <= end <= s.len(),
        forall|k: int| i <= k < end ==> is_digit(s[k]),
        end == s.len() || !is_digit(s[end]),
    ensures
        digits_end(s, i) == end,
    decreases end - i,
{
    if i < end {
        lemma_digits_end_range(s, i + 1, end);
    }
}

/// Every character of a decimal rendering is a digit, and the first
/// is zero only for the number zero.
pub proof fn lemma_dec_digits_shape(n: nat)
    ensures
        forall|k: int| 0 <= k < dec_digits(n).len() ==> is_digit(dec_digits(n)[k]),
        dec_digits(n)[0] == '0' <==> n == 0,
        dec_digits(n).len() >= 1,
    decreases n,
{
    if n < 10 {
        assert(digit_char(n as int) as int == 48 + n);
    } else {
        lemma_dec_digits_shape(n / 10);
        assert(digit_char((n % 10) as int) as int == 48 + n % 10);
        assert forall|k: int| 0 <= k < dec_digits(n).len() implies is_digit(
            dec_digits(n)[k],
        ) by {
            if k < dec_digits(n / 10).len() {
                assert(dec_digits(n)[k] == dec_digits(n / 10)[k]);
            }
        }
    }
}

/// The digits of a rendered number evaluate back to the number.
pub proof fn lemma_digits_value_of_dec(s: Seq<char>, i: int, n: nat)
    requires
        lit_at(s, i, dec_digits(n)),
    ensures
        digits_value(s, i, i + dec_digits(n).len()) == n,
    decreases n,
{
    lemma_lit_chars(s, i, dec_digits(n));
    if n < 10 {
        assert(s[i + 0] == dec_digits(n)[0]);
        assert(digit_char(n as int) as int == 48 + n);
        assert(digit_val(digit_char(n as int)) == n);
        assert(digits_value(s, i, i + 1) == digits_value(s, i, i) * 10 + digit_val(s[i]));
    } else {
        assert(dec_digits(n) == dec_digits(n / 10).push(digit_char((n % 10) as int)));
        assert(dec_digits(n / 10) + seq![digit_char((n % 10) as int)] =~= dec_digits(n));
        lemma_split(s, i, dec_digits(n / 10), seq![digit_char((n % 10) as int)]);
        lemma_digits_value_of_dec(s, i, n / 10);
        let l = dec_digits(n).len();
        assert(s[i + (l - 1)] == dec_digits(n)[l - 1]);
        assert(s[i + l - 1] == digit_char((n % 10) as int));
        assert(digit_val(digit_char((n % 10) as int)) == n % 10);
        assert(digits_value(s, i, i + l) == digits_value(s, i, i + l - 1) * 10 + (n % 10));
    }
}

/// The number parser reads back exactly what the renderer wrote,
/// when a non-digit (or the end) follows.
pub proof fn lemma_parse_nat_rt(s: Seq<char>, i: int, n: nat)
    requires
        lit_at(s, i, dec_digits(n)),
        i + dec_digits(n).len() == s.len() || !is_digit(s[i + dec_digits(n).len()]),
    ensures
        spec_parse_nat(s, i) == Some((n as int, i + dec_digits(n).len())),
{
    lemma_lit_chars(s, i, dec_digits(n));
    lemma_dec_digits_shape(n);
    assert(s[i + 0] == dec_digits(n)[0]);
    if n == 0 {
        assert(s[i] == '0');
    } else {
        assert(s[i] != '0');
        assert forall|k: int| i <= k < i + dec_digits(n).len() implies is_digit(
            #[trigger] s[k],
        ) by {
            assert(s[k] == dec_digits(n)[k - i]);
        }
        lemma_digits_end_range(s, i, i + dec_digits(n).len());
        lemma_digits_value_of_dec(s, i, n);
    }
}

/// The integer parser reads back exactly what the renderer wrote.
pub proof fn lemma_parse_int_rt(s: Seq<char>, i: int, n: int)
    requires
        lit_at(s, i, crate::text::int_string(n)),
        i + crate::text::int_string(n).len() == s.len() || !is_digit(
            s[i + crate::text::int_string(n).len()],
        ),
    ensures
        spec_parse_int(s, i) == Some((n, i + crate::text::int_string(n).len())),
{
    if n < 0 {
        assert(crate::text::int_string(n) =~= seq!['-'] + dec_digits((-n) as nat));
        lemma_split(s, i, seq!['-'], dec_digits((-n) as nat));
        lemma_lit_chars(s, i, seq!['-']);
        assert(s[i + 0] == '-');
        lemma_parse_nat_rt(s, i + 1, (-n) as nat);
    } else {
        lemma_lit_chars(s, i, dec_digits(n as nat));
        lemma_dec_digits_shape(n as nat);
        assert(s[i + 0] == dec_digits(n as nat)[0]);
        assert(is_digit(s[i]));
        assert(s[i] != '-');
        lemma_parse_nat_rt(s, i, n as nat);
    }
}

/// A boolean at position `i`.
pub open spec fn spec_parse_bool(s: Seq<char>, i: int) -> Option<(bool, int)> {
    if lit_at(s, i, "true"@) {
        Some((true, i + "true"@.len()))
    } else if lit_at(s, i, "false"@) {
        Some((false, i + "false"@.len()))
    } else {
        None
    }
}

/// A quoted weekday name at position `i`.
pub open spec fn spec_parse_day(s: Seq<char>, i: int) -> Option<(WeekdayWrapper, int)> {
    match spec_parse_string(s, i) {
        Some((name, e)) => if name == "mon"@ {
            Some((WeekdayWrapper::Mon, e))
        } else if name == "tue"@ {
            Some((WeekdayWrapper::Tue, e))
        } else if name == "wed"@ {
            Some((WeekdayWrapper::Wed, e))
        } else if name == "thu"@ {
            Some((WeekdayWrapper::Thu, e))
        } else if name == "fri"@ {
            Some((WeekdayWrapper::Fri, e))
        } else if name == "sat"@ {
            Some((WeekdayWrapper::Sat, e))
        } else if name == "sun"@ {
            Some((WeekdayWrapper::Sun, e))
        } else {
            None
        },
        None => None,
    }
}

/// A weekday list from after its opening bracket up to and including
/// the closing bracket.
pub open spec fn spec_parse_days(s: Seq<char>, i: int) -> Option<(Seq<WeekdayWrapper>, int)>
    decreases s.len() - i,
        when 0 <= i <= s.len()
{
    if i >= s.len() {
        None
    } else if s[i] == ']' {
        Some((Seq::empty(), i + 1))
    } else {
        match spec_parse_day(s, i) {
            Some((d, j)) => if j <= i || j >= s.len() {
                None
            } else if s[j] == ',' {
                match spec_parse_days(s, j + 1) {
                    Some((rest, e)) => Some((seq![d] + rest, e)),
                    None => None,
                }
            } else if s[j] == ']' {
                Some((seq![d], j + 1))
            } else {
                None
            },
            None => None,
        }
    }
}

/// A quoted "HH:MM" time at position `i`.
pub open spec fn spec_parse_time(s: Seq<char>, i: int) -> Option<(NaiveTimeWrapper, int)> {
    match spec_parse_string(s, i) {
        Some((txt, e)) => if crate::timeofday::valid_time_str(txt) {
            Some(
                (
                    NaiveTimeWrapper {
                        hour: crate::timeofday::hour_of_str(txt) as u8,
                        minute: crate::timeofday::minute_of_str(txt) as u8,
                    },
                    e,
                ),
            )
        } else {
            None
        },
        None => None,
    }
}

/// One rule object at position `i`.
pub open spec fn spec_parse_rule(s: Seq<char>, i: int) -> Option<(RuleModel, int)> {
    if !lit_at(s, i, "{\"name\":"@) {
        None
    } else {
        let i1 = i + "{\"name\":"@.len();
        match spec_parse_string(s, i1) {
            Some((name, j1)) => if !lit_at(s, j1, ",\"days\":["@) {
                None
            } else {
                let i2 = j1 + ",\"days\":["@.len();
                match spec_parse_days(s, i2) {
                    Some((days, j2)) => if !lit_at(s, j2, ",\"start_time\":"@) {
                        None
                    } else {
                        let i3 = j2 + ",\"start_time\":"@.len();
                        match spec_parse_time(s, i3) {
                            Some((start, j3)) => if !lit_at(s, j3, ",\"end_time\":"@) {
                                None
                            } else {
                                let i4 = j3 + ",\"end_time\":"@.len();
                                match spec_parse_time(s, i4) {
                                    Some((end, j4)) => if j4 < s.len() && s[j4] == '}' {
                                        Some(
                                            (
                                                RuleModel { name, days, start, end },
                                                j4 + 1,
                                            ),
                                        )
                                    } else {
                                        None
                                    },
                                    None => None,
                                }
                            },
                            None => None,
                        }
                    },
                    None => None,
                }
            },
            None => None,
        }
    }
}

/// A rule list from after its opening bracket up to and including
/// the closing bracket.
pub open spec fn spec_parse_rules(s: Seq<char>, i: int) -> Option<(Seq<RuleModel>, int)>
    decreases s.len() - i,
        when 0 <= i <= s.len()
{
    if i >= s.len() {
        None
    } else if s[i] == ']' {
        Some((Seq::empty(), i + 1))
    } else {
        match spec_parse_rule(s, i) {
            Some((r, j)) => if j <= i || j >= s.len() {
                None
            } else if s[j] == ',' {
                match spec_parse_rules(s, j + 1) {
                    Some((rest, e)) => Some((seq![r] + rest, e)),
                    None => None,
                }
            } else if s[j] == ']' {
                Some((seq![r], j + 1))
            } else {
                None
            },
            None => None,
        }
    }
}

/// A schedule object at position `i`.
pub open spec fn spec_parse_schedule(s: Seq<char>, i: int) -> Option<
    ((bool, Seq<RuleModel>), int),
> {
    if !lit_at(s, i, "{\"enabled\":"@) {
        None
    } else {
        let i1 = i + "{\"enabled\":"@.len();
        match spec_parse_bool(s, i1) {
            Some((enabled, j1)) => if !lit_at(s, j1, ",\"rules\":["@) {
                None
            } else {
                let i2 = j1 + ",\"rules\":["@.len();
                match spec_parse_rules(s, i2) {
                    Some((rules, j2)) => if j2 < s.len() && s[j2] == '}' {
                        Some(((enabled, rules), j2 + 1))
                    } else {
                        None
                    },
                    None => None,
                }
            },
            None => None,
        }
    }
}

/// An answers list from after its opening bracket up to and
/// including the closing bracket; every value must fit a 32-bit
/// signed integer.
pub open spec fn spec_parse_answers(s: Seq<char>, i: int) -> Option<(Seq<i32>, int)>
    decreases s.len() - i,
        when 0 <= i <= s.len()
{
    if i >= s.len() {
        None
    } else if s[i] == ']' {
        Some((Seq::empty(), i + 1))
    } else {
        match spec_parse_int(s, i) {
            Some((v, j)) => if v < -0x80000000 || v > 0x7fffffff {
                None
            } else if j <= i || j >= s.len() {
                None
            } else if s[j] == ',' {
                match spec_parse_answers(s, j + 1) {
                    Some((rest, e)) => Some((seq![v as i32] + rest, e)),
                    None => None,
                }
            } else if s[j] == ']' {
                Some((seq![v as i32], j + 1))
            } else {
                None
            },
            None => None,
        }
    }
}

/// A whole command line: the tagged object, consumed in full.
pub open spec fn spec_parse_command(s: Seq<char>) -> Option<CommandModel> {
    if !lit_at(s, 0, "{\"type\":"@) {
        None
    } else {
        let i0 = "{\"type\":"@.len() as int;
        match spec_parse_string(s, i0) {
            Some((name, j0)) => if name == "Ping"@ {
                spec_unit_end(s, j0, CommandModel::Ping)
            } else if name == "GetStatus"@ {
                spec_unit_end(s, j0, CommandModel::GetStatus)
            } else if name == "GetBlocklist"@ {
                spec_unit_end(s, j0, CommandModel::GetBlocklist)
            } else if name == "GetSchedule"@ {
                spec_unit_end(s, j0, CommandModel::GetSchedule)
            } else if name == "CancelBypass"@ {
                spec_unit_end(s, j0, CommandModel::CancelBypass)
            } else if name == "AddDomain"@ {
                match spec_domain_payload(s, j0) {
                    Some(domain) => Some(CommandModel::AddDomain { domain }),
                    None => None,
                }
            } else if name == "RemoveDomain"@ {
                match spec_domain_payload(s, j0) {
                    Some(domain) => Some(CommandModel::RemoveDomain { domain }),
                    None => None,
                }
            } else if name == "UpdateSchedule"@ {
                if !lit_at(s, j0, ",\"payload\":{\"schedule\":"@) {
                    None
                } else {
                    let i1 = j0 + ",\"payload\":{\"schedule\":"@.len();
                    match spec_parse_schedule(s, i1) {
                        Some(((enabled, rules), j1)) => if spec_obj_end2(s, j1) {
                            Some(CommandModel::UpdateSchedule { enabled, rules })
                        } else {
                            None
                        },
                        None => None,
                    }
                }
            } else if name == "RequestBypass"@ {
                if !lit_at(s, j0, ",\"payload\":{\"duration_minutes\":"@) {
                    None
                } else {
                    let i1 = j0 + ",\"payload\":{\"duration_minutes\":"@.len();
                    match spec_parse_nat(s, i1) {
                        Some((v, j1)) => if v > 0xffffffff {
                            None
                        } else if spec_obj_end2(s, j1) {
                            Some(CommandModel::RequestBypass { duration_minutes: v })
                        } else {
                            None
                        },
                        None => None,
                    }
                }
            } else if name == "SubmitQuizAnswers"@ {
                if !lit_at(s, j0, ",\"payload\":{\"challenge_id\":"@) {
                    None
                } else {
                    let i1 = j0 + ",\"payload\":{\"challenge_id\":"@.len();
                    match spec_parse_string(s, i1) {
                        Some((challenge_id, j1)) => if !lit_at(s, j1, ",\"answers\":["@) {
                            None
                        } else {
                            let i2 = j1 + ",\"answers\":["@.len();
                            match spec_parse_answers(s, i2) {
                                Some((answers, j2)) => if spec_obj_end2(s, j2) {
                                    Some(
                                        CommandModel::SubmitQuizAnswers {
                                            challenge_id,
                                            answers,
                                        },
                                    )
                                } else {
                                    None
                                },
                                None => None,
                            }
                        },
                        None => None,
                    }
                }
            } else {
                None
            },
            None => None,
        }
    }
}

/// The line ends with one closing brace right here.
pub open spec fn spec_unit_end(s: Seq<char>, i: int, m: CommandModel) -> Option<CommandModel> {
    if i + 1 == s.len() && s[i] == '}' {
        Some(m)
    } else {
        None
    }
}

/// The line ends with two closing braces right here.
pub open spec fn spec_obj_end2(s: Seq<char>, i: int) -> bool {
    i + 2 == s.len() && 0 <= i && s[i] == '}' && s[i + 1] == '}'
}

/// A domain payload: the member, the string, and the line's two
/// closing braces.
pub open spec fn spec_domain_payload(s: Seq<char>, i: int) -> Option<Seq<char>> {
    if !lit_at(s, i, ",\"payload\":{\"domain\":"@) {
        None
    } else {
        let i1 = i + ",\"payload\":{\"domain\":"@.len();
        match spec_parse_string(s, i1) {
            Some((domain, j1)) => if spec_obj_end2(s, j1) {
                Some(domain)
            } else {
                None
            },
            None => None,
        }
    }
}

/// Checks for a fixed literal at a position.
pub(crate) fn expect_lit(chars: &Vec<char>, pos: usize, lit: &str) -> (r: Option<usize>)
    ensures
        r is Some <==> lit_at(chars@, pos as int, lit@),
        r matches Some(e) ==> e == pos + lit@.len(),
{
    let n = lit.unicode_len();
    if pos > chars.len() || n > chars.len() - pos {
        proof {
            assert(!lit_at(chars@, pos as int, lit@));
        }
        return None;
    }
    let mut k: usize = 0;
    while k < n
        invariant
            n == lit@.len(),
            chars@.len() <= usize::MAX,
            pos + n <= chars@.len(),
            k <= n,
            forall|j: int| 0 <= j < k ==> chars@[pos + j] == lit@[j],
        decreases n - k,
    {
        if chars[pos + k] != lit.get_char(k) {
            proof {
                assert(chars@.subrange(pos as int, pos + n)[k as int] != lit@[k as int]);
            }
            return None;
        }
        k = k + 1;
    }
    proof {
        assert(chars@.subrange(pos as int, pos + n) =~= lit@);
    }
    Some(pos + n)
}

/// Prefixing the decoded characters of a string body.
pub open spec fn str_combine(prefix: Seq<char>, r: Option<(Seq<char>, int)>) -> Option<
    (Seq<char>, int),
> {
    match r {
        Some((rest, e)) => Some((prefix + rest, e)),
        None => None,
    }
}

/// Reads a JSON string literal.
pub(crate) fn parse_string_exec(chars: &Vec<char>, pos: usize) -> (r: Option<(String, usize)>)
    ensures
        r is Some <==> spec_parse_string(chars@, pos as int) is Some,
        r matches Some(p) ==> spec_parse_string(chars@, pos as int) == Some(
            (p.0@, p.1 as int),
        ) && pos < p.1 <= chars@.len(),
{
    let n = chars.len();
    if pos >= n || chars[pos] != '"' {
        return None;
    }
    let mut acc = String::new();
    let mut cur: usize = pos + 1;
    proof {
        assert(str_combine(acc@, spec_parse_string_body(chars@, cur as int))
            == spec_parse_string_body(chars@, cur as int)) by {
            if spec_parse_string_body(chars@, cur as int) is Some {
                let pr = spec_parse_string_body(chars@, cur as int)->0;
                assert(acc@ + pr.0 =~= pr.0);
            }
        }
    }
    while cur < n
        invariant
            n == chars@.len(),
            pos < cur <= n,
            spec_parse_string(chars@, pos as int) == str_combine(
                acc@,
                spec_parse_string_body(chars@, cur as int),
            ),
        decreases n - cur,
    {
        let ghost b = chars@;
        let ghost acc0 = acc@;
        let c = chars[cur];
        if c == '"' {
            proof {
                assert(spec_parse_string_body(b, cur as int) == Some(
                    (Seq::<char>::empty(), cur + 1),
                ));
                assert(acc0 + Seq::<char>::empty() =~= acc0);
            }
            return Some((acc, cur + 1));
        } else if c == '\\' {
            if cur + 1 >= n {
                proof {
                    assert(spec_parse_string_body(b, cur as int) is None);
                }
                return None;
            }
            let e = chars[cur + 1];
            if e == 'u' {
                if n - cur < 6 {
                    proof {
                        assert(spec_parse_string_body(b, cur as int) is None);
                    }
                    return None;
                }
                let h2 = chars[cur + 2];
                let h3 = chars[cur + 3];
                let h4 = chars[cur + 4];
                let h5 = chars[cur + 5];
                let hex4 = (h4 >= '0' && h4 <= '9') || (h4 >= 'a' && h4 <= 'f');
                let hex5 = (h5 >= '0' && h5 <= '9') || (h5 >= 'a' && h5 <= 'f');
                if h2 != '0' || h3 != '0' || !hex4 || !hex5 {
                    proof {
                        assert(spec_parse_string_body(b, cur as int) is None);
                    }
                    return None;
                }
                let v4: u8 = if h4 <= '9' {
                    (h4 as u8) - 48
                } else {
                    (h4 as u8) - 87
                };
                let v5: u8 = if h5 <= '9' {
                    (h5 as u8) - 48
                } else {
                    (h5 as u8) - 87
                };
                proof {
                    assert(48 <= h4 as u32 <= 102);
                    assert(48 <= h5 as u32 <= 102);
                    assert(v4 as int == hex_val(h4));
                    assert(v5 as int == hex_val(h5));
                }
                let code: u8 = v4 * 16 + v5;
                let dc = code as char;
                proof {
                    assert(code as int == hex_val(h4) * 16 + hex_val(h5));
                    assert(dc as int == code as int);
                    assert(dc == ((hex_val(b[cur + 4]) * 16 + hex_val(b[cur + 5])) as char));
                    if spec_parse_string_body(b, cur + 6) is Some {
                        let pr = spec_parse_string_body(b, cur + 6)->0;
                        assert(acc0 + (seq![dc] + pr.0) =~= acc0.push(dc) + pr.0);
                    }
                }
                push_char(&mut acc, dc);
                cur = cur + 6;
            } else {
                let dc: char = if e == '"' {
                    '"'
                } else if e == '\\' {
                    '\\'
                } else if e == '/' {
                    '/'
                } else if e == 'n' {
                    '\n'
                } else if e == 't' {
                    '\t'
                } else if e == 'r' {
                    '\r'
                } else if e == 'b' {
                    '\u{8}'
                } else if e == 'f' {
                    '\u{c}'
                } else {
                    proof {
                        assert(short_escape(e) is None);
                        assert(spec_parse_string_body(b, cur as int) is None);
                    }
                    return None;
                };
                proof {
                    assert(short_escape(e) == Some(dc));
                    if spec_parse_string_body(b, cur + 2) is Some {
                        let pr = spec_parse_string_body(b, cur + 2)->0;
                        assert(acc0 + (seq![dc] + pr.0) =~= acc0.push(dc) + pr.0);
                    }
                }
                push_char(&mut acc, dc);
                cur = cur + 2;
            }
        } else {
            proof {
                if spec_parse_string_body(b, cur + 1) is Some {
                    let pr = spec_parse_string_body(b, cur + 1)->0;
                    assert(acc0 + (seq![c] + pr.0) =~= acc0.push(c) + pr.0);
                }
            }
            push_char(&mut acc, c);
            cur = cur + 1;
        }
    }
    proof {
        assert(spec_parse_string_body(chars@, cur as int) is None);
    }
    None
}

/// Everything up to a digit run's end is a digit, and a non-digit or
/// the end follows.
proof fn lemma_digits_end_all(s: Seq<char>, i: int)
    requires
        0 <= i <= s.len(),
    ensures
        i <= digits_end(s, i) <= s.len(),
        forall|k: int| i <= k < digits_end(s, i) ==> is_digit(#[trigger] s[k]),
        digits_end(s, i) == s.len() || !is_digit(s[digits_end(s, i)]),
    decreases s.len() - i,
{
    if i < s.len() && is_digit(s[i]) {
        lemma_digits_end_all(s, i + 1);
    }
}

/// A digit run's value is non-negative and grows with its length.
proof fn lemma_digits_value_mono(s: Seq<char>, base: int, j: int, end: int)
    requires
        base <= j <= end,
        forall|k: int| base <= k < end ==> is_digit(#[trigger] s[k]),
    ensures
        0 <= digits_value(s, base, j) <= digits_value(s, base, end),
    decreases end - j,
{
    if j == end {
        lemma_digits_value_nonneg(s, base, j);
    } else {
        lemma_digits_value_mono(s, base, j, end - 1);
    }
}

/// A digit run's value is non-negative.
proof fn lemma_digits_value_nonneg(s: Seq<char>, base: int, j: int)
    requires
        forall|k: int| base <= k < j ==> is_digit(#[trigger] s[k]),
    ensures
        digits_value(s, base, j) >= 0,
    decreases j - base,
{
    if j > base {
        lemma_digits_value_nonneg(s, base, j - 1);
    }
}

/// Reads an unsigned number no larger than `limit`.
pub(crate) fn parse_nat_limited(chars: &Vec<char>, pos: usize, limit: u64) -> (r: Option<(u64, usize)>)
    requires
        10 <= limit <= 0xffffffff00000000,
    ensures
        r is Some <==> (spec_parse_nat(chars@, pos as int) matches Some(p) && p.0
            <= limit as int),
        r matches Some(q) ==> spec_parse_nat(chars@, pos as int) == Some(
            (q.0 as int, q.1 as int),
        ) && q.0 <= limit && pos < q.1 <= chars@.len(),
{
    let n = chars.len();
    if pos >= n {
        return None;
    }
    let c0 = chars[pos];
    if !(c0 >= '0' && c0 <= '9') {
        return None;
    }
    if c0 == '0' {
        return Some((0, pos + 1));
    }
    proof {
        lemma_digits_end_all(chars@, pos as int);
    }
    let ghost b = chars@;
    let ghost gend = digits_end(b, pos as int);
    let mut acc: u64 = 0;
    let mut i: usize = pos;
    while i < n && chars[i] >= '0' && chars[i] <= '9'
        invariant
            limit >= 10,
            n == b.len(),
            b == chars@,
            is_digit(b[pos as int]),
            b[pos as int] != '0',
            pos <= i <= n,
            gend == digits_end(b, pos as int),
            pos as int <= gend <= n,
            forall|k: int| pos as int <= k < gend ==> is_digit(#[trigger] b[k]),
            gend == n || !is_digit(b[gend]),
            i <= gend,
            forall|k: int| pos as int <= k < i ==> is_digit(#[trigger] b[k]),
            acc == digits_value(b, pos as int, i as int),
            acc <= limit,
        decreases n - i,
    {
        proof {
            assert(is_digit(b[i as int]));
            assert(i < gend) by {
                if i as int == gend {
                    assert(!is_digit(b[gend]));
                }
            }
        }
        let d: u8 = (chars[i] as u8) - 48;
        proof {
            assert(48 <= b[i as int] as u32 <= 57);
            assert(d as int == digit_val(b[i as int]));
            assert(d < 10);
        }
        if acc > (limit - (d as u64)) / 10 {
            proof {
                let f = (limit - (d as u64)) as int / 10;
                assert(acc as int >= f + 1);
                assert((limit - (d as u64)) as int == 10 * f + ((limit - (d as u64)) as int
                    % 10));
                assert(acc as int * 10 >= (f + 1) * 10) by (nonlinear_arith)
                    requires
                        acc as int >= f + 1,
                ;
                assert(acc as int * 10 + d as int > limit as int);
                assert(digits_value(b, pos as int, i + 1) == acc as int * 10 + d as int);
                lemma_digits_value_mono(b, pos as int, i + 1, gend);
                assert(digits_value(b, pos as int, gend) > limit as int);
            }
            return None;
        }
        proof {
            assert(acc <= (limit - (d as u64)) / 10);
            assert(acc as int * 10 + d as int <= limit as int) by (nonlinear_arith)
                requires
                    acc as int <= (limit as int - d as int) / 10,
                    0 <= d as int <= 9,
                    limit as int >= d as int || true,
                    0 <= acc as int,
                    0 <= limit as int,
                    d as int <= limit as int || true,
            ;
        }
        acc = acc * 10 + (d as u64);
        i = i + 1;
    }
    proof {
        assert(i as int == gend) by {
            if (i as int) < gend {
                assert(is_digit(b[i as int]));
                assert(48 <= b[i as int] as int <= 57);
            }
        }
        assert(gend > pos) by {
            assert(is_digit(b[pos as int]));
        }
    }
    Some((acc, i))
}

/// Reads a signed number that fits a 32-bit integer.
pub(crate) fn parse_i32_exec(chars: &Vec<char>, pos: usize) -> (r: Option<(i32, usize)>)
    ensures
        r is Some <==> (spec_parse_int(chars@, pos as int) matches Some(p) && -0x80000000
            <= p.0 <= 0x7fffffff),
        r matches Some(q) ==> spec_parse_int(chars@, pos as int) == Some(
            (q.0 as int, q.1 as int),
        ) && pos < q.1 <= chars@.len(),
{
    let n = chars.len();
    if pos < n && chars[pos] == '-' {
        match parse_nat_limited(chars, pos + 1, 0x80000000) {
            Some((mag, end)) => {
                let v: i32 = (-(mag as i64)) as i32;
                proof {
                    assert(-0x80000000 <= -(mag as int) <= 0);
                    assert(v as int == -(mag as int));
                }
                Some((v, end))
            },
            None => None,
        }
    } else {
        match parse_nat_limited(chars, pos, 0x7fffffff) {
            Some((mag, end)) => Some((mag as i32, end)),
            None => None,
        }
    }
}

/// Reads a boolean.
pub(crate) fn parse_bool_exec(chars: &Vec<char>, pos: usize) -> (r: Option<(bool, usize)>)
    ensures
        r is Some <==> spec_parse_bool(chars@, pos as int) is Some,
        r matches Some(p) ==> spec_parse_bool(chars@, pos as int) == Some((p.0, p.1 as int)),
{
    match expect_lit(chars, pos, "true") {
        Some(e) => Some((true, e)),
        None => match expect_lit(chars, pos, "false") {
            Some(e) => Some((false, e)),
            None => None,
        },
    }
}

/// Reads a quoted weekday name.
pub(crate) fn parse_day_exec(chars: &Vec<char>, pos: usize) -> (r: Option<(WeekdayWrapper, usize)>)
    ensures
        r is Some <==> spec_parse_day(chars@, pos as int) is Some,
        r matches Some(p) ==> spec_parse_day(chars@, pos as int) == Some((p.0, p.1 as int))
            && pos < p.1 <= chars@.len(),
{
    match parse_string_exec(chars, pos) {
        None => None,
        Some((name, e)) => {
            if str_eq(name.as_str(), "mon") {
                Some((WeekdayWrapper::Mon, e))
            } else if str_eq(name.as_str(), "tue") {
                Some((WeekdayWrapper::Tue, e))
            } else if str_eq(name.as_str(), "wed") {
                Some((WeekdayWrapper::Wed, e))
            } else if str_eq(name.as_str(), "thu") {
                Some((WeekdayWrapper::Thu, e))
            } else if str_eq(name.as_str(), "fri") {
                Some((WeekdayWrapper::Fri, e))
            } else if str_eq(name.as_str(), "sat") {
                Some((WeekdayWrapper::Sat, e))
            } else if str_eq(name.as_str(), "sun") {
                Some((WeekdayWrapper::Sun, e))
            } else {
                None
            }
        },
    }
}

/// Reads a quoted "HH:MM" time of day.
pub(crate) fn parse_time_exec(chars: &Vec<char>, pos: usize) -> (r: Option<(NaiveTimeWrapper, usize)>)
    ensures
        r is Some <==> spec_parse_time(chars@, pos as int) is Some,
        r matches Some(p) ==> spec_parse_time(chars@, pos as int) == Some(
            (p.0, p.1 as int),
        ) && p.0.wf() && pos < p.1 <= chars@.len(),
{
    match parse_string_exec(chars, pos) {
        None => None,
        Some((txt, e)) => match NaiveTimeWrapper::parse(txt.as_str()) {
            Some(t) => Some((t, e)),
            None => None,
        },
    }
}

/// Prefixing the parsed elements of a weekday list.
pub open spec fn days_combine(
    prefix: Seq<WeekdayWrapper>,
    r: Option<(Seq<WeekdayWrapper>, int)>,
) -> Option<(Seq<WeekdayWrapper>, int)> {
    match r {
        Some((rest, e)) => Some((prefix + rest, e)),
        None => None,
    }
}

/// Reads a weekday list up to and including its closing bracket.
pub(crate) fn parse_days_exec(chars: &Vec<char>, pos: usize) -> (r: Option<(Vec<WeekdayWrapper>, usize)>)
    requires
        pos <= chars@.len(),
    ensures
        r is Some <==> spec_parse_days(chars@, pos as int) is Some,
        r matches Some(p) ==> spec_parse_days(chars@, pos as int) == Some(
            (p.0@, p.1 as int),
        ) && pos < p.1 <= chars@.len(),
{
    let n = chars.len();
    let mut acc: Vec<WeekdayWrapper> = Vec::new();
    let mut cur: usize = pos;
    proof {
        assert(days_combine(acc@, spec_parse_days(chars@, cur as int)) == spec_parse_days(
            chars@,
            cur as int,
        )) by {
            if spec_parse_days(chars@, cur as int) is Some {
                let pr = spec_parse_days(chars@, cur as int)->0;
                assert(acc@ + pr.0 =~= pr.0);
            }
        }
    }
    while cur < n
        invariant
            n == chars@.len(),
            pos <= cur <= n,
            spec_parse_days(chars@, pos as int) == days_combine(
                acc@,
                spec_parse_days(chars@, cur as int),
            ),
        decreases n - cur,
    {
        let ghost b = chars@;
        let ghost acc0 = acc@;
        if chars[cur] == ']' {
            proof {
                assert(spec_parse_days(b, cur as int) == Some(
                    (Seq::<WeekdayWrapper>::empty(), cur + 1),
                ));
                assert(acc0 + Seq::<WeekdayWrapper>::empty() =~= acc0);
            }
            return Some((acc, cur + 1));
        }
        match parse_day_exec(chars, cur) {
            None => {
                return None;
            },
            Some((d, j)) => {
                if j >= n {
                    proof {
                        assert(spec_parse_days(b, cur as int) is None);
                    }
                    return None;
                }
                if chars[j] == ',' {
                    proof {
                        if spec_parse_days(b, j + 1) is Some {
                            let pr = spec_parse_days(b, j + 1)->0;
                            assert(acc0 + (seq![d] + pr.0) =~= acc0.push(d) + pr.0);
                        }
                    }
                    acc.push(d);
                    cur = j + 1;
                } else if chars[j] == ']' {
                    proof {
                        assert(spec_parse_days(b, cur as int) == Some((seq![d], j + 1)));
                        assert(acc0 + seq![d] =~= acc0.push(d));
                    }
                    acc.push(d);
                    return Some((acc, j + 1));
                } else {
                    return None;
                }
            },
        }
    }
    proof {
        assert(spec_parse_days(chars@, cur as int) is None);
    }
    None
}

/// Reads one rule object.
fn parse_rule_exec(chars: &Vec<char>, pos: usize) -> (r: Option<(ScheduleRule, usize)>)
    ensures
        r is Some <==> spec_parse_rule(chars@, pos as int) is Some,
        r matches Some(p) ==> spec_parse_rule(chars@, pos as int) == Some(
            (rule_model(p.0), p.1 as int),
        ) && pos < p.1 <= chars@.len() && p.0.start_time.wf() && p.0.end_time.wf(),
{
    let i1 = match expect_lit(chars, pos, "{\"name\":") {
        Some(e) => e,
        None => {
            return None;
        },
    };
    let (name, j1) = match parse_string_exec(chars, i1) {
        Some(p) => p,
        None => {
            return None;
        },
    };
    let i2 = match expect_lit(chars, j1, ",\"days\":[") {
        Some(e) => e,
        None => {
            return None;
        },
    };
    let (days, j2) = match parse_days_exec(chars, i2) {
        Some(p) => p,
        None => {
            return None;
        },
    };
    let i3 = match expect_lit(chars, j2, ",\"start_time\":") {
        Some(e) => e,
        None => {
            return None;
        },
    };
    let (start_time, j3) = match parse_time_exec(chars, i3) {
        Some(p) => p,
        None => {
            return None;
        },
    };
    let i4 = match expect_lit(chars, j3, ",\"end_time\":") {
        Some(e) => e,
        None => {
            return None;
        },
    };
    let (end_time, j4) = match parse_time_exec(chars, i4) {
        Some(p) => p,
        None => {
            return None;
        },
    };
    if j4 >= chars.len() || chars[j4] != '}' {
        return None;
    }
    let rule = ScheduleRule { name, days, start_time, end_time };
    proof {
        assert(rule_model(rule) == (spec_parse_rule(chars@, pos as int)->0).0);
    }
    Some((rule, j4 + 1))
}

/// Prefixing the parsed elements of a rule list.
pub open spec fn rules_combine(
    prefix: Seq<RuleModel>,
    r: Option<(Seq<RuleModel>, int)>,
) -> Option<(Seq<RuleModel>, int)> {
    match r {
        Some((rest, e)) => Some((prefix + rest, e)),
        None => None,
    }
}

/// Every rule window in the list carries well-formed times.
pub open spec fn rules_wf(rs: Seq<ScheduleRule>) -> bool {
    forall|k: int| 0 <= k < rs.len() ==> (#[trigger] rs[k].start_time).wf()
        && rs[k].end_time.wf()
}

/// Reads a rule list up to and including its closing bracket.
#[verifier::rlimit(100)]
#[verifier::spinoff_prover]
fn parse_rules_exec(chars: &Vec<char>, pos: usize) -> (r: Option<(Vec<ScheduleRule>, usize)>)
    requires
        pos <= chars@.len(),
    ensures
        r is Some <==> spec_parse_rules(chars@, pos as int) is Some,
        r matches Some(p) ==> spec_parse_rules(chars@, pos as int) == Some(
            (rules_model(p.0@), p.1 as int),
        ),
        r matches Some(p) ==> pos < p.1 <= chars@.len(),
        r matches Some(p) ==> rules_wf(p.0@),
{
    let n = chars.len();
    let mut acc: Vec<ScheduleRule> = Vec::new();
    let mut cur: usize = pos;
    proof {
        assert(rules_model(acc@) =~= Seq::<RuleModel>::empty());
        assert(rules_combine(rules_model(acc@), spec_parse_rules(chars@, cur as int))
            == spec_parse_rules(chars@, cur as int)) by {
            if spec_parse_rules(chars@, cur as int) is Some {
                let pr = spec_parse_rules(chars@, cur as int)->0;
                assert(rules_model(acc@) + pr.0 =~= pr.0);
            }
        }
    }
    while cur < n
        invariant
            n == chars@.len(),
            pos <= cur <= n,
            spec_parse_rules(chars@, pos as int) == rules_combine(
                rules_model(acc@),
                spec_parse_rules(chars@, cur as int),
            ),
            rules_wf(acc@),
        decreases n - cur,
    {
        let ghost b = chars@;
        let ghost acc0 = rules_model(acc@);
        if chars[cur] == ']' {
            proof {
                assert(spec_parse_rules(b, cur as int) == Some(
                    (Seq::<RuleModel>::empty(), cur + 1),
                ));
                assert(acc0 + Seq::<RuleModel>::empty() =~= acc0);
                assert(spec_parse_rules(b, pos as int) == Some(
                    (rules_model(acc@), cur + 1 as int),
                ));
            }
            return Some((acc, cur + 1));
        }
        match parse_rule_exec(chars, cur) {
            None => {
                return None;
            },
            Some((rule, j)) => {
                if j >= n {
                    proof {
                        assert(spec_parse_rules(b, cur as int) is None);
                    }
                    return None;
                }
                let ghost rm = rule_model(rule);
                if chars[j] == ',' {
                    proof {
                        assert(rules_model(acc@.push(rule)) =~= acc0.push(rm));
                        if spec_parse_rules(b, j + 1) is Some {
                            let pr = spec_parse_rules(b, j + 1)->0;
                            assert(acc0 + (seq![rm] + pr.0) =~= acc0.push(rm) + pr.0);
                        }
                    }
                    let ghost acc_old = acc@;
                    acc.push(rule);
                    proof {
                        assert(rules_wf(acc@)) by {
                            assert forall|k: int|
                                0 <= k < acc@.len() implies (
                            #[trigger] acc@[k].start_time).wf() && acc@[k].end_time.wf() by {
                                if k < acc_old.len() {
                                    assert(acc@[k] == acc_old[k]);
                                } else {
                                    assert(acc@[k] == rule);
                                }
                            }
                        }
                    }
                    cur = j + 1;
                } else if chars[j] == ']' {
                    proof {
                        assert(spec_parse_rules(b, cur as int) == Some((seq![rm], j + 1)));
                        assert(rules_model(acc@.push(rule)) =~= acc0.push(rm));
                        assert(acc0 + seq![rm] =~= acc0.push(rm));
                    }
                    acc.push(rule);
                    proof {
                        assert(rules_model(acc@) =~= acc0.push(rm));
                        assert(spec_parse_rules(b, pos as int) == Some(
                            (rules_model(acc@), j + 1 as int),
                        ));
                        assert(rules_wf(acc@)) by {
                            assert forall|k: int|
                                0 <= k < acc@.len() implies (
                            #[trigger] acc@[k].start_time).wf() && acc@[k].end_time.wf() by {
                                if k < acc@.len() - 1 {
                                } else {
                                    assert(acc@[k] == rule);
                                }
                            }
                        }
                    }
                    return Some((acc, j + 1));
                } else {
                    return None;
                }
            },
        }
    }
    proof {
        assert(spec_parse_rules(chars@, cur as int) is None);
    }
    None
}

/// Reads a schedule object.
#[verifier::rlimit(100)]
#[verifier::spinoff_prover]
fn parse_schedule_exec(chars: &Vec<char>, pos: usize) -> (r: Option<(Schedule, usize)>)
    ensures
        r is Some <==> spec_parse_schedule(chars@, pos as int) is Some,
        r matches Some(p) ==> spec_parse_schedule(chars@, pos as int) == Some(
            ((p.0.enabled, rules_model(p.0.rules@)), p.1 as int),
        ) && pos < p.1 <= chars@.len() && schedule_wf(p.0),
{
    let i1 = match expect_lit(chars, pos, "{\"enabled\":") {
        Some(e) => e,
        None => {
            return None;
        },
    };
    let (enabled, j1) = match parse_bool_exec(chars, i1) {
        Some(p) => p,
        None => {
            return None;
        },
    };
    let i2 = match expect_lit(chars, j1, ",\"rules\":[") {
        Some(e) => e,
        None => {
            return None;
        },
    };
    let (rules, j2) = match parse_rules_exec(chars, i2) {
        Some(p) => p,
        None => {
            return None;
        },
    };
    if j2 >= chars.len() || chars[j2] != '}' {
        return None;
    }
    let sched = Schedule { enabled, rules };
    proof {
        assert(schedule_wf(sched)) by {
            assert(rules_wf(sched.rules@));
            assert forall|i: int|
                0 <= i < sched.rules@.len() implies (
            #[trigger] sched.rules@[i].start_time).wf() && sched.rules@[i].end_time.wf() by {
                assert(sched.rules@[i].start_time.wf() && sched.rules@[i].end_time.wf());
            }
        }
    }
    Some((sched, j2 + 1))
}

/// Prefixing the parsed elements of an answers list.
pub open spec fn answers_combine(prefix: Seq<i32>, r: Option<(Seq<i32>, int)>) -> Option<
    (Seq<i32>, int),
> {
    match r {
        Some((rest, e)) => Some((prefix + rest, e)),
        None => None,
    }
}

/// Reads an answers list up to and including its closing bracket.
fn parse_answers_exec(chars: &Vec<char>, pos: usize) -> (r: Option<(Vec<i32>, usize)>)
    requires
        pos <= chars@.len(),
    ensures
        r is Some <==> spec_parse_answers(chars@, pos as int) is Some,
        r matches Some(p) ==> spec_parse_answers(chars@, pos as int) == Some(
            (p.0@, p.1 as int),
        ) && pos < p.1 <= chars@.len(),
{
    let n = chars.len();
    let mut acc: Vec<i32> = Vec::new();
    let mut cur: usize = pos;
    proof {
        assert(answers_combine(acc@, spec_parse_answers(chars@, cur as int))
            == spec_parse_answers(chars@, cur as int)) by {
            if spec_parse_answers(chars@, cur as int) is Some {
                let pr = spec_parse_answers(chars@, cur as int)->0;
                assert(acc@ + pr.0 =~= pr.0);
            }
        }
    }
    while cur < n
        invariant
            n == chars@.len(),
            pos <= cur <= n,
            spec_parse_answers(chars@, pos as int) == answers_combine(
                acc@,
                spec_parse_answers(chars@, cur as int),
            ),
        decreases n - cur,
    {
        let ghost b = chars@;
        let ghost acc0 = acc@;
        if chars[cur] == ']' {
            proof {
                assert(spec_parse_answers(b, cur as int) == Some(
                    (Seq::<i32>::empty(), cur + 1),
                ));
                assert(acc0 + Seq::<i32>::empty() =~= acc0);
            }
            return Some((acc, cur + 1));
        }
        match parse_i32_exec(chars, cur) {
            None => {
                proof {
                    assert(spec_parse_answers(b, cur as int) is None);
                }
                return None;
            },
            Some((v, j)) => {
                if j >= n {
                    proof {
                        assert(spec_parse_answers(b, cur as int) is None);
                    }
                    return None;
                }
                if chars[j] == ',' {
                    proof {
                        if spec_parse_answers(b, j + 1) is Some {
                            let pr = spec_parse_answers(b, j + 1)->0;
                            assert(acc0 + (seq![v] + pr.0) =~= acc0.push(v) + pr.0);
                        }
                    }
                    acc.push(v);
                    cur = j + 1;
                } else if chars[j] == ']' {
                    proof {
                        assert(spec_parse_answers(b, cur as int) == Some((seq![v], j + 1)));
                        assert(acc0 + seq![v] =~= acc0.push(v));
                    }
                    acc.push(v);
                    return Some((acc, j + 1));
                } else {
                    return None;
                }
            },
        }
    }
    proof {
        assert(spec_parse_answers(chars@, cur as int) is None);
    }
    None
}

/// Parses one command line; returns the command exactly when the
/// line is a well-formed command object in the canonical compact
/// rendering (members in the emitted order, no insignificant
/// whitespace), consumed in full.
pub fn parse_command(line: &str) -> (r: Option<Command>)
    ensures
        r is Some <==> spec_parse_command(line@) is Some,
        r matches Some(c) ==> spec_parse_command(line@) == Some(cmd_model(c)) && (
        c matches Command::UpdateSchedule { schedule } ==> schedule_wf(schedule)),
{
    let chars = crate::text::str_chars(line);
    let n = chars.len();
    let i0 = match expect_lit(&chars, 0, "{\"type\":") {
        Some(e) => e,
        None => {
            return None;
        },
    };
    let (name, j0) = match parse_string_exec(&chars, i0) {
        Some(p) => p,
        None => {
            return None;
        },
    };
    if str_eq(name.as_str(), "Ping") {
        if n >= 1 && j0 == n - 1 && chars[j0] == '}' {
            Some(Command::Ping)
        } else {
            None
        }
    } else if str_eq(name.as_str(), "GetStatus") {
        if n >= 1 && j0 == n - 1 && chars[j0] == '}' {
            Some(Command::GetStatus)
        } else {
            None
        }
    } else if str_eq(name.as_str(), "GetBlocklist") {
        if n >= 1 && j0 == n - 1 && chars[j0] == '}' {
            Some(Command::GetBlocklist)
        } else {
            None
        }
    } else if str_eq(name.as_str(), "GetSchedule") {
        if n >= 1 && j0 == n - 1 && chars[j0] == '}' {
            Some(Command::GetSchedule)
        } else {
            None
        }
    } else if str_eq(name.as_str(), "CancelBypass") {
        if n >= 1 && j0 == n - 1 && chars[j0] == '}' {
            Some(Command::CancelBypass)
        } else {
            None
        }
    } else if str_eq(name.as_str(), "AddDomain") {
        match parse_domain_payload(&chars, j0) {
            Some(domain) => Some(Command::AddDomain { domain }),
            None => None,
        }
    } else if str_eq(name.as_str(), "RemoveDomain") {
        match parse_domain_payload(&chars, j0) {
            Some(domain) => Some(Command::RemoveDomain { domain }),
            None => None,
        }
    } else if str_eq(name.as_str(), "UpdateSchedule") {
        let i1 = match expect_lit(&chars, j0, ",\"payload\":{\"schedule\":") {
            Some(e) => e,
            None => {
                return None;
            },
        };
        match parse_schedule_exec(&chars, i1) {
            Some((schedule, j1)) => {
                if n >= 2 && j1 == n - 2 && chars[j1] == '}' && chars[j1 + 1] == '}' {
                    Some(Command::UpdateSchedule { schedule })
                } else {
                    None
                }
            },
            None => None,
        }
    } else if str_eq(name.as_str(), "RequestBypass") {
        let i1 = match expect_lit(&chars, j0, ",\"payload\":{\"duration_minutes\":") {
            Some(e) => e,
            None => {
                return None;
            },
        };
        match parse_nat_limited(&chars, i1, 0xffffffff) {
            Some((v, j1)) => {
                if n >= 2 && j1 == n - 2 && chars[j1] == '}' && chars[j1 + 1] == '}' {
                    Some(Command::RequestBypass { duration_minutes: v as u32 })
                } else {
                    None
                }
            },
            None => None,
        }
    } else if str_eq(name.as_str(), "SubmitQuizAnswers") {
        let i1 = match expect_lit(&chars, j0, ",\"payload\":{\"challenge_id\":") {
            Some(e) => e,
            None => {
                return None;
            },
        };
        let (challenge_id, j1) = match parse_string_exec(&chars, i1) {
            Some(p) => p,
            None => {
                return None;
            },
        };
        let i2 = match expect_lit(&chars, j1, ",\"answers\":[") {
            Some(e) => e,
            None => {
                return None;
            },
        };
        match parse_answers_exec(&chars, i2) {
            Some((answers, j2)) => {
                if n >= 2 && j2 == n - 2 && chars[j2] == '}' && chars[j2 + 1] == '}' {
                    Some(Command::SubmitQuizAnswers { challenge_id, answers })
                } else {
                    None
                }
            },
            None => None,
        }
    } else {
        None
    }
}

/// Reads a domain payload and the line's two closing braces.
fn parse_domain_payload(chars: &Vec<char>, pos: usize) -> (r: Option<String>)
    ensures
        r is Some <==> spec_domain_payload(chars@, pos as int) is Some,
        r matches Some(d) ==> spec_domain_payload(chars@, pos as int) == Some(d@),
{
    let i1 = match expect_lit(chars, pos, ",\"payload\":{\"domain\":") {
        Some(e) => e,
        None => {
            return None;
        },
    };
    let (domain, j1) = match parse_string_exec(chars, i1) {
        Some(p) => p,
        None => {
            return None;
        },
    };
    if chars.len() >= 2 && j1 == chars.len() - 2 && chars[j1] == '}' && chars[j1 + 1] == '}' {
        Some(domain)
    } else {
        None
    }
}

/// The boolean parser reads back exactly what the serializer wrote.
pub proof fn lemma_parse_bool_rt(s: Seq<char>, i: int, v: bool)
    requires
        lit_at(s, i, bool_json(v)),
    ensures
        spec_parse_bool(s, i) == Some((v, i + bool_json(v).len())),
{
    reveal_strlit("true");
    reveal_strlit("false");
    if v {
    } else {
        if lit_at(s, i, "true"@) {
            lemma_lit_chars(s, i, "true"@);
            lemma_lit_chars(s, i, "false"@);
            assert(s[i + 0] == 't' && s[i + 0] == 'f');
            assert(false);
        }
    }
}

/// Every character of a weekday name is plain, and the names are the
/// seven day strings.
pub proof fn lemma_day_name_shape(d: WeekdayWrapper)
    ensures
        forall|k: int| 0 <= k < day_name(d).len() ==> json_plain_char(
            #[trigger] day_name(d)[k],
        ),
        day_name(d).len() == 3,
{
}

/// The weekday parser reads back exactly what the serializer wrote.
pub proof fn lemma_parse_day_rt(s: Seq<char>, i: int, d: WeekdayWrapper)
    requires
        lit_at(s, i, seq!['"'] + day_name(d) + seq!['"']),
    ensures
        spec_parse_day(s, i) == Some((d, i + day_name(d).len() + 2)),
{
    lemma_day_name_shape(d);
    lemma_escape_plain(day_name(d));
    assert(json_str(day_name(d)) =~= seq!['"'] + day_name(d) + seq!['"']);
    assert(valid_char_seq(day_name(d)));
    lemma_parse_string_rt(s, i, day_name(d));
    reveal_strlit("mon");
    reveal_strlit("tue");
    reveal_strlit("wed");
    reveal_strlit("thu");
    reveal_strlit("fri");
    reveal_strlit("sat");
    reveal_strlit("sun");
    assert("mon"@ =~= seq!['m', 'o', 'n']);
    assert("tue"@ =~= seq!['t', 'u', 'e']);
    assert("wed"@ =~= seq!['w', 'e', 'd']);
    assert("thu"@ =~= seq!['t', 'h', 'u']);
    assert("fri"@ =~= seq!['f', 'r', 'i']);
    assert("sat"@ =~= seq!['s', 'a', 't']);
    assert("sun"@ =~= seq!['s', 'u', 'n']);
}

/// The time parser reads back exactly what the serializer wrote.
pub proof fn lemma_parse_time_rt(s: Seq<char>, i: int, t: NaiveTimeWrapper)
    requires
        t.wf(),
        lit_at(s, i, time_json(t)),
    ensures
        spec_parse_time(s, i) == Some((t, i + time_json(t).len())),
{
    let body = crate::timeofday::time_string(t.hour as int, t.minute as int);
    crate::timeofday::lemma_time_round_trip(t);
    assert(forall|k: int| 0 <= k < body.len() ==> json_plain_char(#[trigger] body[k])) by {
        assert(crate::timeofday::valid_time_str(body));
        assert forall|k: int| 0 <= k < body.len() implies json_plain_char(
            #[trigger] body[k],
        ) by {
            if k == 2 {
            } else {
                assert(crate::text::is_digit(body[k]));
            }
        }
    }
    lemma_escape_plain(body);
    assert(json_str(body) =~= time_json(t));
    assert(valid_char_seq(body)) by {
        assert forall|k: int| 0 <= k < body.len() implies 0 <= (#[trigger] body[k]) as int
            <= 0x10FFFF by {
            if k == 2 {
            } else {
                assert(crate::text::is_digit(body[k]));
            }
        }
    }
    lemma_parse_string_rt(s, i, body);
}

/// The weekday list parser reads back exactly what the serializer
/// wrote, up to the closing bracket.
pub proof fn lemma_parse_days_rt(s: Seq<char>, i: int, days: Seq<WeekdayWrapper>)
    requires
        lit_at(s, i, days_json(days) + seq![']']),
    ensures
        spec_parse_days(s, i) == Some((days, i + days_json(days).len() + 1)),
    decreases days.len(),
{
    if days.len() == 0 {
        assert(days_json(days) + seq![']'] =~= seq![']']);
        lemma_lit_chars(s, i, seq![']']);
        assert(s[i + 0] == ']');
        assert(days =~= Seq::<WeekdayWrapper>::empty());
    } else {
        let d = days[0];
        let head = seq!['"'] + day_name(d) + seq!['"'];
        lemma_day_name_shape(d);
        if days.len() == 1 {
            assert(days_json(days) + seq![']'] =~= head + seq![']']);
            lemma_split(s, i, head, seq![']']);
            lemma_lit_chars(s, i, head);
            lemma_parse_day_rt(s, i, d);
            let j = i + day_name(d).len() + 2;
            lemma_lit_chars(s, j, seq![']']);
            assert(s[j + 0] == ']');
            assert(s[i + 0] == '"');
            assert(days =~= seq![d]);
        } else {
            let rest = days.drop_first();
            assert(days_json(days) == head + seq![','] + days_json(rest)) by {
                assert(days_json(days) == seq!['"'] + day_name(days[0]) + seq!['"', ',']
                    + days_json(rest));
                assert(seq!['"'] + day_name(days[0]) + seq!['"', ','] + days_json(rest) =~= head
                    + seq![','] + days_json(rest));
            }
            assert(days_json(days) + seq![']'] =~= head + (seq![','] + (days_json(rest)
                + seq![']'])));
            lemma_split(s, i, head, seq![','] + (days_json(rest) + seq![']']));
            lemma_parse_day_rt(s, i, d);
            let j = i + head.len();
            lemma_split(s, j, seq![','], days_json(rest) + seq![']']);
            lemma_lit_chars(s, j, seq![',']);
            assert(s[j + 0] == ',');
            lemma_parse_days_rt(s, j + 1, rest);
            lemma_lit_chars(s, i, head);
            assert(s[i + 0] == '"');
            assert(seq![d] + rest =~= days);
            assert(days_json(days).len() == head.len() + 1 + days_json(rest).len()) by {
                assert(days_json(days) == seq!['"'] + day_name(days[0]) + seq!['"', ',']
                    + days_json(rest));
            }
        }
    }
}

/// The answers list parser reads back exactly what the serializer
/// wrote, up to the closing bracket.
pub proof fn lemma_parse_answers_rt(s: Seq<char>, i: int, xs: Seq<i32>)
    requires
        lit_at(s, i, answers_json(xs) + seq![']']),
    ensures
        spec_parse_answers(s, i) == Some((xs, i + answers_json(xs).len() + 1)),
    decreases xs.len(),
{
    if xs.len() == 0 {
        assert(answers_json(xs) + seq![']'] =~= seq![']']);
        lemma_lit_chars(s, i, seq![']']);
        assert(s[i + 0] == ']');
        assert(xs =~= Seq::<i32>::empty());
    } else {
        let v = xs[0];
        let head = crate::text::int_string(v as int);
        assert(head.len() >= 1) by {
            if v >= 0 {
                lemma_dec_digits_shape(v as nat);
            }
        }
        if xs.len() == 1 {
            assert(answers_json(xs) + seq![']'] =~= head + seq![']']);
            lemma_split(s, i, head, seq![']']);
            let j = i + head.len();
            lemma_lit_chars(s, j, seq![']']);
            assert(s[j + 0] == ']');
            lemma_parse_int_rt(s, i, v as int);
            proof_answers_head(s, i, v);
            assert(xs =~= seq![v]);
        } else {
            let rest = xs.drop_first();
            assert(answers_json(xs) == head + seq![','] + answers_json(rest));
            assert(answers_json(xs) + seq![']'] =~= head + (seq![','] + (answers_json(rest)
                + seq![']'])));
            lemma_split(s, i, head, seq![','] + (answers_json(rest) + seq![']']));
            let j = i + head.len();
            lemma_split(s, j, seq![','], answers_json(rest) + seq![']']);
            lemma_lit_chars(s, j, seq![',']);
            assert(s[j + 0] == ',');
            lemma_parse_int_rt(s, i, v as int);
            proof_answers_head(s, i, v);
            lemma_parse_answers_rt(s, j + 1, rest);
            assert(seq![v] + rest =~= xs);
        }
    }
}

/// The first character of a rendered integer is not a closing
/// bracket, and the list element head is in range.
proof fn proof_answers_head(s: Seq<char>, i: int, v: i32)
    requires
        lit_at(s, i, crate::text::int_string(v as int)),
    ensures
        s[i] != ']',
        (-0x80000000) <= (v as int) && (v as int) <= 0x7fffffff,
{
    lemma_lit_chars(s, i, crate::text::int_string(v as int));
    if (v as int) < 0 {
        assert(s[i + 0] == '-');
    } else {
        lemma_dec_digits_shape(v as nat);
        assert(s[i + 0] == dec_digits(v as nat)[0]);
        assert(crate::text::is_digit(s[i]));
    }
}

/// A rule model whose strings and times a round trip can carry.
pub open spec fn rule_model_wf(r: RuleModel) -> bool {
    valid_char_seq(r.name) && r.start.wf() && r.end.wf()
}

/// The rule parser reads back exactly what the serializer wrote.
#[verifier::rlimit(100)]
#[verifier::spinoff_prover]
pub proof fn lemma_parse_rule_rt(s: Seq<char>, i: int, r: RuleModel)
    requires
        rule_model_wf(r),
        lit_at(s, i, rule_json(r)),
    ensures
        spec_parse_rule(s, i) == Some((r, i + rule_json(r).len())),
{
    let l1 = "{\"name\":"@;
    let l2 = ",\"days\":["@;
    let l3 = ",\"start_time\":"@;
    let l4 = ",\"end_time\":"@;
    let t1 = json_str(r.name);
    let t2 = days_json(r.days) + seq![']'];
    let t3 = time_json(r.start);
    let t4 = time_json(r.end);
    assert(rule_json(r) =~= l1 + (t1 + (l2 + (t2 + (l3 + (t3 + (l4 + (t4 + seq!['}']))))))));
    lemma_split(s, i, l1, t1 + (l2 + (t2 + (l3 + (t3 + (l4 + (t4 + seq!['}'])))))));
    let i1 = i + l1.len();
    lemma_split(s, i1, t1, l2 + (t2 + (l3 + (t3 + (l4 + (t4 + seq!['}']))))));
    lemma_parse_string_rt(s, i1, r.name);
    let j1 = i1 + t1.len();
    lemma_split(s, j1, l2, t2 + (l3 + (t3 + (l4 + (t4 + seq!['}'])))));
    let i2 = j1 + l2.len();
    lemma_split(s, i2, t2, l3 + (t3 + (l4 + (t4 + seq!['}']))));
    lemma_parse_days_rt(s, i2, r.days);
    let j2 = i2 + t2.len();
    lemma_split(s, j2, l3, t3 + (l4 + (t4 + seq!['}'])));
    let i3 = j2 + l3.len();
    lemma_split(s, i3, t3, l4 + (t4 + seq!['}']));
    lemma_parse_time_rt(s, i3, r.start);
    let j3 = i3 + t3.len();
    lemma_split(s, j3, l4, t4 + seq!['}']);
    let i4 = j3 + l4.len();
    lemma_split(s, i4, t4, seq!['}']);
    lemma_parse_time_rt(s, i4, r.end);
    let j4 = i4 + t4.len();
    lemma_lit_chars(s, j4, seq!['}']);
    assert(s[j4 + 0] == '}');
    assert((spec_parse_rule(s, i)->0).0 == r) by {
        assert(RuleModel { name: r.name, days: r.days, start: r.start, end: r.end } == r);
    }
}

/// The rule list parser reads back exactly what the serializer
/// wrote, up to the closing bracket.
#[verifier::rlimit(100)]
#[verifier::spinoff_prover]
pub proof fn lemma_parse_rules_rt(s: Seq<char>, i: int, rs: Seq<RuleModel>)
    requires
        forall|k: int| 0 <= k < rs.len() ==> rule_model_wf(#[trigger] rs[k]),
        lit_at(s, i, rules_json(rs) + seq![']']),
    ensures
        spec_parse_rules(s, i) == Some((rs, i + rules_json(rs).len() + 1)),
    decreases rs.len(),
{
    if rs.len() == 0 {
        assert(rules_json(rs) + seq![']'] =~= seq![']']);
        lemma_lit_chars(s, i, seq![']']);
        assert(s[i + 0] == ']');
        assert(rs =~= Seq::<RuleModel>::empty());
    } else {
        let r0 = rs[0];
        let head = rule_json(r0);
        assert(head.len() > 0) by {
            assert(head =~= "{\"name\":"@ + json_str(r0.name) + ",\"days\":["@ + days_json(
                r0.days,
            ) + seq![']'] + ",\"start_time\":"@ + time_json(r0.start) + ",\"end_time\":"@
                + time_json(r0.end) + seq!['}']);
        }
        if rs.len() == 1 {
            assert(rules_json(rs) + seq![']'] =~= head + seq![']']);
            lemma_split(s, i, head, seq![']']);
            lemma_parse_rule_rt(s, i, r0);
            let j = i + head.len();
            lemma_lit_chars(s, j, seq![']']);
            assert(s[j + 0] == ']');
            lemma_lit_chars(s, i, head);
            assert(s[i + 0] == head[0]);
            assert(head[0] == '{') by {
                reveal_strlit("{\"name\":");
                assert(head[0] == "{\"name\":"@[0]);
            }
            assert(rs =~= seq![r0]);
        } else {
            let rest = rs.drop_first();
            assert(rules_json(rs) == rule_json(rs[0]) + seq![','] + rules_json(rest));
            assert(rules_json(rs) + seq![']'] =~= head + (seq![','] + (rules_json(rest)
                + seq![']'])));
            lemma_split(s, i, head, seq![','] + (rules_json(rest) + seq![']']));
            lemma_parse_rule_rt(s, i, r0);
            let j = i + head.len();
            lemma_split(s, j, seq![','], rules_json(rest) + seq![']']);
            lemma_lit_chars(s, j, seq![',']);
            assert(s[j + 0] == ',');
            assert(forall|k: int| 0 <= k < rest.len() ==> rule_model_wf(#[trigger] rest[k]))
                by {
                assert forall|k: int| 0 <= k < rest.len() implies rule_model_wf(
                    #[trigger] rest[k],
                ) by {
                    assert(rest[k] == rs[k + 1]);
                }
            }
            lemma_parse_rules_rt(s, j + 1, rest);
            lemma_lit_chars(s, i, head);
            assert(s[i + 0] == head[0]);
            assert(head[0] == '{') by {
                reveal_strlit("{\"name\":");
                assert(head[0] == "{\"name\":"@[0]);
            }
            assert(seq![r0] + rest =~= rs);
        }
    }
}

/// The schedule parser reads back exactly what the serializer
/// wrote.
#[verifier::rlimit(100)]
#[verifier::spinoff_prover]
pub proof fn lemma_parse_schedule_rt(s: Seq<char>, i: int, enabled: bool, rs: Seq<RuleModel>)
    requires
        forall|k: int| 0 <= k < rs.len() ==> rule_model_wf(#[trigger] rs[k]),
        lit_at(s, i, schedule_json(enabled, rs)),
    ensures
        spec_parse_schedule(s, i) == Some(((enabled, rs), i + schedule_json(enabled, rs).len())),
{
    let l1 = "{\"enabled\":"@;
    let l2 = ",\"rules\":["@;
    let t1 = bool_json(enabled);
    let t2 = rules_json(rs) + seq![']'];
    assert(schedule_json(enabled, rs) =~= l1 + (t1 + (l2 + (t2 + seq!['}']))));
    lemma_split(s, i, l1, t1 + (l2 + (t2 + seq!['}'])));
    let i1 = i + l1.len();
    lemma_split(s, i1, t1, l2 + (t2 + seq!['}']));
    lemma_parse_bool_rt(s, i1, enabled);
    let j1 = i1 + t1.len();
    lemma_split(s, j1, l2, t2 + seq!['}']);
    let i2 = j1 + l2.len();
    lemma_split(s, i2, t2, seq!['}']);
    lemma_parse_rules_rt(s, i2, rs);
    let j2 = i2 + t2.len();
    lemma_lit_chars(s, j2, seq!['}']);
    assert(s[j2 + 0] == '}');
}

/// A command model whose strings, times and numbers a round trip
/// can carry: the view of every executable command satisfies it.
pub open spec fn command_model_wf(m: CommandModel) -> bool {
    match m {
        CommandModel::AddDomain { domain } => valid_char_seq(domain),
        CommandModel::RemoveDomain { domain } => valid_char_seq(domain),
        CommandModel::UpdateSchedule { enabled, rules } => forall|k: int|
            0 <= k < rules.len() ==> rule_model_wf(#[trigger] rules[k]),
        CommandModel::RequestBypass { duration_minutes } => 0 <= duration_minutes
            <= 0xffffffff,
        CommandModel::SubmitQuizAnswers { challenge_id, answers } => valid_char_seq(
            challenge_id,
        ),
        _ => true,
    }
}

/// Every character of a sequence may stand unescaped in a JSON string.
pub open spec fn plain_seq(s: Seq<char>) -> bool {
    forall|k: int| 0 <= k < s.len() ==> json_plain_char(#[trigger] s[k])
}

/// The command names are plain printable ASCII, with their lengths
/// and first characters.
pub proof fn lemma_command_names()
    ensures
        valid_char_seq("Ping"@),
        plain_seq("Ping"@),
        "Ping"@.len() == 4,
        "Ping"@[0] == 'P',
        valid_char_seq("GetStatus"@),
        plain_seq("GetStatus"@),
        "GetStatus"@.len() == 9,
        "GetStatus"@[0] == 'G',
        valid_char_seq("GetBlocklist"@),
        plain_seq("GetBlocklist"@),
        "GetBlocklist"@.len() == 12,
        "GetBlocklist"@[0] == 'G',
        valid_char_seq("GetSchedule"@),
        plain_seq("GetSchedule"@),
        "GetSchedule"@.len() == 11,
        "GetSchedule"@[0] == 'G',
        valid_char_seq("CancelBypass"@),
        plain_seq("CancelBypass"@),
        "CancelBypass"@.len() == 12,
        "CancelBypass"@[0] == 'C',
        valid_char_seq("AddDomain"@),
        plain_seq("AddDomain"@),
        "AddDomain"@.len() == 9,
        "AddDomain"@[0] == 'A',
        valid_char_seq("RemoveDomain"@),
        plain_seq("RemoveDomain"@),
        "RemoveDomain"@.len() == 12,
        "RemoveDomain"@[0] == 'R',
        valid_char_seq("UpdateSchedule"@),
        plain_seq("UpdateSchedule"@),
        "UpdateSchedule"@.len() == 14,
        "UpdateSchedule"@[0] == 'U',
        valid_char_seq("RequestBypass"@),
        plain_seq("RequestBypass"@),
        "RequestBypass"@.len() == 13,
        "RequestBypass"@[0] == 'R',
        valid_char_seq("SubmitQuizAnswers"@),
        plain_seq("SubmitQuizAnswers"@),
        "SubmitQuizAnswers"@.len() == 17,
        "SubmitQuizAnswers"@[0] == 'S',
{
    reveal_strlit("Ping");
    reveal_strlit("GetStatus");
    reveal_strlit("GetBlocklist");
    reveal_strlit("GetSchedule");
    reveal_strlit("CancelBypass");
    reveal_strlit("AddDomain");
    reveal_strlit("RemoveDomain");
    reveal_strlit("UpdateSchedule");
    reveal_strlit("RequestBypass");
    reveal_strlit("SubmitQuizAnswers");
    assert forall|k: int| 0 <= k < "Ping"@.len() implies 0 <= (#[trigger] "Ping"@[k]) as int <= 0x10FFFF && json_plain_char("Ping"@[k]) by {
        if k == 0 { assert("Ping"@[0] == 'P'); }
        if k == 1 { assert("Ping"@[1] == 'i'); }
        if k == 2 { assert("Ping"@[2] == 'n'); }
        if k == 3 { assert("Ping"@[3] == 'g'); }
    }
    assert forall|k: int| 0 <= k < "GetStatus"@.len() implies 0 <= (#[trigger] "GetStatus"@[k]) as int <= 0x10FFFF && json_plain_char("GetStatus"@[k]) by {
        if k == 0 { assert("GetStatus"@[0] == 'G'); }
        if k == 1 { assert("GetStatus"@[1] == 'e'); }
        if k == 2 { assert("GetStatus"@[2] == 't'); }
        if k == 3 { assert("GetStatus"@[3] == 'S'); }
        if k == 4 { assert("GetStatus"@[4] == 't'); }
        if k == 5 { assert("GetStatus"@[5] == 'a'); }
        if k == 6 { assert("GetStatus"@[6] == 't'); }
        if k == 7 { assert("GetStatus"@[7] == 'u'); }
        if k == 8 { assert("GetStatus"@[8] == 's'); }
    }
    assert forall|k: int| 0 <= k < "GetBlocklist"@.len() implies 0 <= (#[trigger] "GetBlocklist"@[k]) as int <= 0x10FFFF && json_plain_char("GetBlocklist"@[k]) by {
        if k == 0 { assert("GetBlocklist"@[0] == 'G'); }
        if k == 1 { assert("GetBlocklist"@[1] == 'e'); }
        if k == 2 { assert("GetBlocklist"@[2] == 't'); }
        if k == 3 { assert("GetBlocklist"@[3] == 'B'); }
        if k == 4 { assert("GetBlocklist"@[4] == 'l'); }
        if k == 5 { assert("GetBlocklist"@[5] == 'o'); }
        if k == 6 { assert("GetBlocklist"@[6] == 'c'); }
        if k == 7 { assert("GetBlocklist"@[7] == 'k'); }
        if k == 8 { assert("GetBlocklist"@[8] == 'l'); }
        if k == 9 { assert("GetBlocklist"@[9] == 'i'); }
        if k == 10 { assert("GetBlocklist"@[10] == 's'); }
        if k == 11 { assert("GetBlocklist"@[11] == 't'); }
    }
    assert forall|k: int| 0 <= k < "GetSchedule"@.len() implies 0 <= (#[trigger] "GetSchedule"@[k]) as int <= 0x10FFFF && json_plain_char("GetSchedule"@[k]) by {
        if k == 0 { assert("GetSchedule"@[0] == 'G'); }
        if k == 1 { assert("GetSchedule"@[1] == 'e'); }
        if k == 2 { assert("GetSchedule"@[2] == 't'); }
        if k == 3 { assert("GetSchedule"@[3] == 'S'); }
        if k == 4 { assert("GetSchedule"@[4] == 'c'); }
        if k == 5 { assert("GetSchedule"@[5] == 'h'); }
        if k == 6 { assert("GetSchedule"@[6] == 'e'); }
        if k == 7 { assert("GetSchedule"@[7] == 'd'); }
        if k == 8 { assert("GetSchedule"@[8] == 'u'); }
        if k == 9 { assert("GetSchedule"@[9] == 'l'); }
        if k == 10 { assert("GetSchedule"@[10] == 'e'); }
    }
    assert forall|k: int| 0 <= k < "CancelBypass"@.len() implies 0 <= (#[trigger] "CancelBypass"@[k]) as int <= 0x10FFFF && json_plain_char("CancelBypass"@[k]) by {
        if k == 0 { assert("CancelBypass"@[0] == 'C'); }
        if k == 1 { assert("CancelBypass"@[1] == 'a'); }
        if k == 2 { assert("CancelBypass"@[2] == 'n'); }
        if k == 3 { assert("CancelBypass"@[3] == 'c'); }
        if k == 4 { assert("CancelBypass"@[4] == 'e'); }
        if k == 5 { assert("CancelBypass"@[5] == 'l'); }
        if k == 6 { assert("CancelBypass"@[6] == 'B'); }
        if k == 7 { assert("CancelBypass"@[7] == 'y'); }
        if k == 8 { assert("CancelBypass"@[8] == 'p'); }
        if k == 9 { assert("CancelBypass"@[9] == 'a'); }
        if k == 10 { assert("CancelBypass"@[10] == 's'); }
        if k == 11 { assert("CancelBypass"@[11] == 's'); }
    }
    assert forall|k: int| 0 <= k < "AddDomain"@.len() implies 0 <= (#[trigger] "AddDomain"@[k]) as int <= 0x10FFFF && json_plain_char("AddDomain"@[k]) by {
        if k == 0 { assert("AddDomain"@[0] == 'A'); }
        if k == 1 { assert("AddDomain"@[1] == 'd'); }
        if k == 2 { assert("AddDomain"@[2] == 'd'); }
        if k == 3 { assert("AddDomain"@[3] == 'D'); }
        if k == 4 { assert("AddDomain"@[4] == 'o'); }
        if k == 5 { assert("AddDomain"@[5] == 'm'); }
        if k == 6 { assert("AddDomain"@[6] == 'a'); }
        if k == 7 { assert("AddDomain"@[7] == 'i'); }
        if k == 8 { assert("AddDomain"@[8] == 'n'); }
    }
    assert forall|k: int| 0 <= k < "RemoveDomain"@.len() implies 0 <= (#[trigger] "RemoveDomain"@[k]) as int <= 0x10FFFF && json_plain_char("RemoveDomain"@[k]) by {
        if k == 0 { assert("RemoveDomain"@[0] == 'R'); }
        if k == 1 { assert("RemoveDomain"@[1] == 'e'); }
        if k == 2 { assert("RemoveDomain"@[2] == 'm'); }
        if k == 3 { assert("RemoveDomain"@[3] == 'o'); }
        if k == 4 { assert("RemoveDomain"@[4] == 'v'); }
        if k == 5 { assert("RemoveDomain"@[5] == 'e'); }
        if k == 6 { assert("RemoveDomain"@[6] == 'D'); }
        if k == 7 { assert("RemoveDomain"@[7] == 'o'); }
        if k == 8 { assert("RemoveDomain"@[8] == 'm'); }
        if k == 9 { assert("RemoveDomain"@[9] == 'a'); }
        if k == 10 { assert("RemoveDomain"@[10] == 'i'); }
        if k == 11 { assert("RemoveDomain"@[11] == 'n'); }
    }
    assert forall|k: int| 0 <= k < "UpdateSchedule"@.len() implies 0 <= (#[trigger] "UpdateSchedule"@[k]) as int <= 0x10FFFF && json_plain_char("UpdateSchedule"@[k]) by {
        if k == 0 { assert("UpdateSchedule"@[0] == 'U'); }
        if k == 1 { assert("UpdateSchedule"@[1] == 'p'); }
        if k == 2 { assert("UpdateSchedule"@[2] == 'd'); }
        if k == 3 { assert("UpdateSchedule"@[3] == 'a'); }
        if k == 4 { assert("UpdateSchedule"@[4] == 't'); }
        if k == 5 { assert("UpdateSchedule"@[5] == 'e'); }
        if k == 6 { assert("UpdateSchedule"@[6] == 'S'); }
        if k == 7 { assert("UpdateSchedule"@[7] == 'c'); }
        if k == 8 { assert("UpdateSchedule"@[8] == 'h'); }
        if k == 9 { assert("UpdateSchedule"@[9] == 'e'); }
        if k == 10 { assert("UpdateSchedule"@[10] == 'd'); }
        if k == 11 { assert("UpdateSchedule"@[11] == 'u'); }
        if k == 12 { assert("UpdateSchedule"@[12] == 'l'); }
        if k == 13 { assert("UpdateSchedule"@[13] == 'e'); }
    }
    assert forall|k: int| 0 <= k < "RequestBypass"@.len() implies 0 <= (#[trigger] "RequestBypass"@[k]) as int <= 0x10FFFF && json_plain_char("RequestBypass"@[k]) by {
        if k == 0 { assert("RequestBypass"@[0] == 'R'); }
        if k == 1 { assert("RequestBypass"@[1] == 'e'); }
        if k == 2 { assert("RequestBypass"@[2] == 'q'); }
        if k == 3 { assert("RequestBypass"@[3] == 'u'); }
        if k == 4 { assert("RequestBypass"@[4] == 'e'); }
        if k == 5 { assert("RequestBypass"@[5] == 's'); }
        if k == 6 { assert("RequestBypass"@[6] == 't'); }
        if k == 7 { assert("RequestBypass"@[7] == 'B'); }
        if k == 8 { assert("RequestBypass"@[8] == 'y'); }
        if k == 9 { assert("RequestBypass"@[9] == 'p'); }
        if k == 10 { assert("RequestBypass"@[10] == 'a'); }
        if k == 11 { assert("RequestBypass"@[11] == 's'); }
        if k == 12 { assert("RequestBypass"@[12] == 's'); }
    }
    assert forall|k: int| 0 <= k < "SubmitQuizAnswers"@.len() implies 0 <= (#[trigger] "SubmitQuizAnswers"@[k]) as int <= 0x10FFFF && json_plain_char("SubmitQuizAnswers"@[k]) by {
        if k == 0 { assert("SubmitQuizAnswers"@[0] == 'S'); }
        if k == 1 { assert("SubmitQuizAnswers"@[1] == 'u'); }
        if k == 2 { assert("SubmitQuizAnswers"@[2] == 'b'); }
        if k == 3 { assert("SubmitQuizAnswers"@[3] == 'm'); }
        if k == 4 { assert("SubmitQuizAnswers"@[4] == 'i'); }
        if k == 5 { assert("SubmitQuizAnswers"@[5] == 't'); }
        if k == 6 { assert("SubmitQuizAnswers"@[6] == 'Q'); }
        if k == 7 { assert("SubmitQuizAnswers"@[7] == 'u'); }
        if k == 8 { assert("SubmitQuizAnswers"@[8] == 'i'); }
        if k == 9 { assert("SubmitQuizAnswers"@[9] == 'z'); }
        if k == 10 { assert("SubmitQuizAnswers"@[10] == 'A'); }
        if k == 11 { assert("SubmitQuizAnswers"@[11] == 'n'); }
        if k == 12 { assert("SubmitQuizAnswers"@[12] == 's'); }
        if k == 13 { assert("SubmitQuizAnswers"@[13] == 'w'); }
        if k == 14 { assert("SubmitQuizAnswers"@[14] == 'e'); }
        if k == 15 { assert("SubmitQuizAnswers"@[15] == 'r'); }
        if k == 16 { assert("SubmitQuizAnswers"@[16] == 's'); }
    }
}

/// A domain payload round-trips.
proof fn lemma_domain_payload_rt(s: Seq<char>, j0: int, domain: Seq<char>)
    requires
        valid_char_seq(domain),
        lit_at(s, j0, ",\"payload\":{\"domain\":"@ + (json_str(domain) + seq!['}', '}'])),
        j0 + (",\"payload\":{\"domain\":"@ + (json_str(domain) + seq!['}', '}'])).len()
            == s.len(),
    ensures
        spec_domain_payload(s, j0) == Some(domain),
{
    let l = ",\"payload\":{\"domain\":"@;
    lemma_split(s, j0, l, json_str(domain) + seq!['}', '}']);
    let i1: int = j0 + l.len();
    lemma_split(s, i1, json_str(domain), seq!['}', '}']);
    lemma_parse_string_rt(s, i1, domain);
    let j1: int = i1 + json_str(domain).len();
    lemma_lit_chars(s, j1, seq!['}', '}']);
    assert(s[j1 + 0] == '}');
    assert(s[j1 + 1] == '}');
    assert(spec_obj_end2(s, j1));
}

/// The shared head of every command line: the type member parses to
/// the command name, and the payload follows, ending the line.
proof fn lemma_command_prefix(m: CommandModel)
    ensures
        lit_at(command_json(m), 0, "{\"type\":"@),
        spec_parse_string(command_json(m), "{\"type\":"@.len() as int) == Some(
            (
                command_name(m),
                "{\"type\":"@.len() as int + command_name(m).len() as int + 2,
            ),
        ),
        lit_at(
            command_json(m),
            "{\"type\":"@.len() as int + command_name(m).len() as int + 2,
            command_payload_json(m),
        ),
        "{\"type\":"@.len() as int + command_name(m).len() as int + 2
            + command_payload_json(m).len() == command_json(m).len(),
{
    let s = command_json(m);
    let h = "{\"type\":"@;
    let name = command_name(m);
    let pay = command_payload_json(m);
    lemma_command_names();
    assert(valid_char_seq(name) && plain_seq(name)) by {
        match m {
            CommandModel::GetStatus => {},
            CommandModel::GetBlocklist => {},
            CommandModel::GetSchedule => {},
            CommandModel::CancelBypass => {},
            CommandModel::Ping => {},
            CommandModel::AddDomain { .. } => {},
            CommandModel::RemoveDomain { .. } => {},
            CommandModel::UpdateSchedule { .. } => {},
            CommandModel::RequestBypass { .. } => {},
            CommandModel::SubmitQuizAnswers { .. } => {},
        }
    }
    lemma_escape_plain(name);
    assert(json_str(name) =~= seq!['"'] + name + seq!['"']);
    assert(s =~= h + (json_str(name) + pay));
    assert(lit_at(s, 0, h + (json_str(name) + pay))) by {
        assert(s.subrange(0, s.len() as int) =~= s);
    }
    lemma_split(s, 0, h, json_str(name) + pay);
    lemma_split(s, h.len() as int, json_str(name), pay);
    lemma_parse_string_rt(s, h.len() as int, name);
}

/// A unit command line parses back to its model.
proof fn lemma_rt_unit(m: CommandModel)
    requires
        m is Ping || m is GetStatus || m is GetBlocklist || m is GetSchedule
            || m is CancelBypass,
    ensures
        spec_parse_command(command_json(m)) == Some(m),
{
    let s = command_json(m);
    lemma_command_prefix(m);
    lemma_command_names();
    let j0: int = "{\"type\":"@.len() as int + command_name(m).len() as int + 2;
    lemma_lit_chars(s, j0, seq!['}']);
    assert(s[j0 + 0] == '}');
}

/// A domain-carrying command line parses back to its model.
proof fn lemma_rt_domain(m: CommandModel)
    requires
        command_model_wf(m),
        m is AddDomain || m is RemoveDomain,
    ensures
        spec_parse_command(command_json(m)) == Some(m),
{
    let s = command_json(m);
    lemma_command_prefix(m);
    lemma_command_names();
    let j0: int = "{\"type\":"@.len() as int + command_name(m).len() as int + 2;
    match m {
        CommandModel::AddDomain { domain } => {
            assert(command_payload_json(m) =~= ",\"payload\":{\"domain\":"@ + (json_str(
                domain,
            ) + seq!['}', '}']));
            lemma_domain_payload_rt(s, j0, domain);
        },
        CommandModel::RemoveDomain { domain } => {
            assert(command_payload_json(m) =~= ",\"payload\":{\"domain\":"@ + (json_str(
                domain,
            ) + seq!['}', '}']));
            lemma_domain_payload_rt(s, j0, domain);
        },
        _ => {},
    }
}

/// An UpdateSchedule line parses back to its model.
#[verifier::rlimit(100)]
#[verifier::spinoff_prover]
proof fn lemma_rt_update_schedule(m: CommandModel)
    requires
        command_model_wf(m),
        m is UpdateSchedule,
    ensures
        spec_parse_command(command_json(m)) == Some(m),
{
    let s = command_json(m);
    lemma_command_prefix(m);
    lemma_command_names();
    let j0: int = "{\"type\":"@.len() as int + command_name(m).len() as int + 2;
    let enabled = m->UpdateSchedule_enabled;
    let rules = m->UpdateSchedule_rules;
    let l = ",\"payload\":{\"schedule\":"@;
    assert(command_payload_json(m) =~= l + (schedule_json(enabled, rules) + seq!['}', '}']));
    lemma_split(s, j0, l, schedule_json(enabled, rules) + seq!['}', '}']);
    let i1: int = j0 + l.len();
    lemma_split(s, i1, schedule_json(enabled, rules), seq!['}', '}']);
    lemma_parse_schedule_rt(s, i1, enabled, rules);
    let j1: int = i1 + schedule_json(enabled, rules).len();
    lemma_lit_chars(s, j1, seq!['}', '}']);
    assert(s[j1 + 0] == '}');
    assert(s[j1 + 1] == '}');
    assert(spec_obj_end2(s, j1));
}

/// A RequestBypass line parses back to its model.
proof fn lemma_rt_request_bypass(m: CommandModel)
    requires
        command_model_wf(m),
        m is RequestBypass,
    ensures
        spec_parse_command(command_json(m)) == Some(m),
{
    let s = command_json(m);
    lemma_command_prefix(m);
    lemma_command_names();
    let j0: int = "{\"type\":"@.len() as int + command_name(m).len() as int + 2;
    let duration_minutes = m->RequestBypass_duration_minutes;
    let l = ",\"payload\":{\"duration_minutes\":"@;
    let num = dec_digits(duration_minutes as nat);
    assert(command_payload_json(m) =~= l + (num + seq!['}', '}']));
    lemma_split(s, j0, l, num + seq!['}', '}']);
    let i1: int = j0 + l.len();
    lemma_split(s, i1, num, seq!['}', '}']);
    let j1: int = i1 + num.len();
    lemma_lit_chars(s, j1, seq!['}', '}']);
    assert(s[j1 + 0] == '}');
    assert(s[j1 + 1] == '}');
    assert(!is_digit(s[j1]));
    lemma_parse_nat_rt(s, i1, duration_minutes as nat);
    assert(spec_obj_end2(s, j1));
}

/// A SubmitQuizAnswers line parses back to its model.
#[verifier::rlimit(100)]
#[verifier::spinoff_prover]
proof fn lemma_rt_submit(m: CommandModel)
    requires
        command_model_wf(m),
        m is SubmitQuizAnswers,
    ensures
        spec_parse_command(command_json(m)) == Some(m),
{
    let s = command_json(m);
    lemma_command_prefix(m);
    lemma_command_names();
    let j0: int = "{\"type\":"@.len() as int + command_name(m).len() as int + 2;
    let challenge_id = m->SubmitQuizAnswers_challenge_id;
    let answers = m->SubmitQuizAnswers_answers;
    let l1 = ",\"payload\":{\"challenge_id\":"@;
    let l2 = ",\"answers\":["@;
    let t2 = answers_json(answers) + seq![']'];
    assert(command_payload_json(m) =~= l1 + (json_str(challenge_id) + (l2 + (t2 + seq![
        '}',
        '}',
    ]))));
    lemma_split(s, j0, l1, json_str(challenge_id) + (l2 + (t2 + seq!['}', '}'])));
    let i1: int = j0 + l1.len();
    lemma_split(s, i1, json_str(challenge_id), l2 + (t2 + seq!['}', '}']));
    lemma_parse_string_rt(s, i1, challenge_id);
    let j1: int = i1 + json_str(challenge_id).len();
    lemma_split(s, j1, l2, t2 + seq!['}', '}']);
    let i2: int = j1 + l2.len();
    lemma_split(s, i2, t2, seq!['}', '}']);
    lemma_parse_answers_rt(s, i2, answers);
    let j2: int = i2 + t2.len();
    lemma_lit_chars(s, j2, seq!['}', '}']);
    assert(s[j2 + 0] == '}');
    assert(s[j2 + 1] == '}');
    assert(spec_obj_end2(s, j2));
}

/// IPC JSON round trip: parsing the serialization of any command
/// gives back exactly that command.
pub proof fn lemma_command_round_trip(m: CommandModel)
    requires
        command_model_wf(m),
    ensures
        spec_parse_command(command_json(m)) == Some(m),
{
    match m {
        CommandModel::Ping => lemma_rt_unit(m),
        CommandModel::GetStatus => lemma_rt_unit(m),
        CommandModel::GetBlocklist => lemma_rt_unit(m),
        CommandModel::GetSchedule => lemma_rt_unit(m),
        CommandModel::CancelBypass => lemma_rt_unit(m),
        CommandModel::AddDomain { .. } => lemma_rt_domain(m),
        CommandModel::RemoveDomain { .. } => lemma_rt_domain(m),
        CommandModel::UpdateSchedule { .. } => lemma_rt_update_schedule(m),
        CommandModel::RequestBypass { .. } => lemma_rt_request_bypass(m),
        CommandModel::SubmitQuizAnswers { .. } => lemma_rt_submit(m),
    }
}

/// Escaping a sequence of plain characters leaves it unchanged.
pub proof fn lemma_escape_plain(v: Seq<char>)
    requires
        forall|k: int| 0 <= k < v.len() ==> json_plain_char(v[k]),
    ensures
        escape_string(v) == v,
    decreases v.len(),
{
    if v.len() > 0 {
        lemma_escape_plain(v.drop_first());
        assert(escape_string(v) =~= v);
    }
}

} // verus!

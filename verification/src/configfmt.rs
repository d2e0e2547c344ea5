//! The canonical TOML rendering of the configuration file, and its
//! parser.  The emitter writes one fixed shape — the four sections
//! in order, one `[[schedule.rules]]` block per rule, basic strings
//! with the same escapes the IPC codec uses — and the parser reads
//! exactly that shape back.

use vstd::prelude::*;

use crate::config::{BlockingConfig, Config, DnsConfig, QuizConfig};
use crate::json::{
    bool_json, days_json, json_str, strings_json, time_json, lit_at, emit_lit, emit_json_string,
    spec_parse_bool, spec_parse_int, spec_parse_nat, spec_parse_string, spec_parse_days,
};
use crate::schedule::{rule_model, rules_model, schedule_wf, RuleModel, Schedule, ScheduleRule};
use crate::text::{dec_digits, int_string, push_char};

verus! {

/// The plain values of a configuration file.
pub struct ConfigModel {
    pub upstream: Seq<Seq<char>>,
    pub listen_address: Seq<char>,
    pub listen_port: int,
    pub blocking_enabled: bool,
    pub domains: Seq<Seq<char>>,
    pub schedule_enabled: bool,
    pub rules: Seq<RuleModel>,
    pub num_questions: int,
    pub min_operand: int,
    pub max_operand: int,
    pub timeout_seconds: int,
    pub min_solve_seconds: int,
}

/// The plain values of a configuration.
pub open spec fn config_model(c: Config) -> ConfigModel {
    ConfigModel {
        upstream: c.dns.upstream.deep_view(),
        listen_address: c.dns.listen_address@,
        listen_port: c.dns.listen_port as int,
        blocking_enabled: c.blocking.enabled,
        domains: c.blocking.domains.deep_view(),
        schedule_enabled: c.schedule.enabled,
        rules: rules_model(c.schedule.rules@),
        num_questions: c.quiz.num_questions as int,
        min_operand: c.quiz.min_operand as int,
        max_operand: c.quiz.max_operand as int,
        timeout_seconds: c.quiz.timeout_seconds as int,
        min_solve_seconds: c.quiz.min_solve_seconds as int,
    }
}

/// One rule block.
pub open spec fn rule_toml(r: RuleModel) -> Seq<char> {
    "\n[[schedule.rules]]\nname = "@ + json_str(r.name) + "\ndays = ["@ + days_json(r.days)
        + seq![']'] + "\nstart_time = "@ + time_json(r.start) + "\nend_time = "@ + time_json(
        r.end,
    ) + seq!['\n']
}

/// The rule blocks, in order.
pub open spec fn rules_toml(rs: Seq<RuleModel>) -> Seq<char>
    decreases rs.len(),
{
    if rs.len() == 0 {
        Seq::empty()
    } else {
        rule_toml(rs[0]) + rules_toml(rs.drop_first())
    }
}

/// The whole configuration file, sections in order.
pub open spec fn config_toml(m: ConfigModel) -> Seq<char> {
    "[dns]\nupstream = ["@ + strings_json(m.upstream) + "]\nlisten_address = "@ + json_str(
        m.listen_address,
    ) + "\nlisten_port = "@ + dec_digits(m.listen_port as nat)
        + "\n\n[blocking]\nenabled = "@ + bool_json(m.blocking_enabled) + "\ndomains = ["@
        + strings_json(m.domains) + "]\n\n[schedule]\nenabled = "@ + bool_json(
        m.schedule_enabled,
    ) + seq!['\n'] + rules_toml(m.rules) + "\n[quiz]\nnum_questions = "@ + dec_digits(
        m.num_questions as nat,
    ) + "\nmin_operand = "@ + int_string(m.min_operand) + "\nmax_operand = "@ + int_string(
        m.max_operand,
    ) + "\ntimeout_seconds = "@ + dec_digits(m.timeout_seconds as nat)
        + "\nmin_solve_seconds = "@ + dec_digits(m.min_solve_seconds as nat) + seq!['\n']
}

/// A quoted string list from after its opening bracket up to and
/// including the closing bracket.
pub open spec fn spec_parse_strlist(s: Seq<char>, i: int) -> Option<(Seq<Seq<char>>, int)>
    decreases s.len() - i,
        when 0 <= i <= s.len()
{
    if i >= s.len() {
        None
    } else if s[i] == ']' {
        Some((Seq::empty(), i + 1))
    } else {
        match spec_parse_string(s, i) {
            Some((v, j)) => if j <= i || j >= s.len() {
                None
            } else if s[j] == ',' {
                match spec_parse_strlist(s, j + 1) {
                    Some((rest, e)) => Some((seq![v] + rest, e)),
                    None => None,
                }
            } else if s[j] == ']' {
                Some((seq![v], j + 1))
            } else {
                None
            },
            None => None,
        }
    }
}

/// One rule block at position `i`.
pub open spec fn spec_parse_rule_toml(s: Seq<char>, i: int) -> Option<(RuleModel, int)> {
    if !lit_at(s, i, "\n[[schedule.rules]]\nname = "@) {
        None
    } else {
        let i1 = i + "\n[[schedule.rules]]\nname = "@.len();
        match spec_parse_string(s, i1) {
            Some((name, j1)) => if !lit_at(s, j1, "\ndays = ["@) {
                None
            } else {
                let i2 = j1 + "\ndays = ["@.len();
                match spec_parse_days(s, i2) {
                    Some((days, j2)) => if !lit_at(s, j2, "\nstart_time = "@) {
                        None
                    } else {
                        let i3 = j2 + "\nstart_time = "@.len();
                        match crate::json::spec_parse_time(s, i3) {
                            Some((start, j3)) => if !lit_at(s, j3, "\nend_time = "@) {
                                None
                            } else {
                                let i4 = j3 + "\nend_time = "@.len();
                                match crate::json::spec_parse_time(s, i4) {
                                    Some((end, j4)) => if j4 < s.len() && s[j4] == '\n' {
                                        Some(
                                            (
                                                RuleModel { name, days, start, end },
                                                j4 + 1,
                                            ),
                                        )
                                    } else {
                                        None
                                    },
                                    None => None,
                                }
                            },
                            None => None,
                        }
                    },
                    None => None,
                }
            },
            None => None,
        }
    }
}

/// As many rule blocks as stand at position `i`.
pub open spec fn spec_parse_rules_toml(s: Seq<char>, i: int) -> Option<(Seq<RuleModel>, int)>
    decreases s.len() - i,
        when 0 <= i <= s.len()
{
    match spec_parse_rule_toml(s, i) {
        Some((r, j)) => if j <= i || j > s.len() {
            None
        } else {
            match spec_parse_rules_toml(s, j) {
                Some((rest, e)) => Some((seq![r] + rest, e)),
                None => None,
            }
        },
        None => Some((Seq::empty(), i)),
    }
}

/// The whole configuration file at position zero, consumed in full.
pub open spec fn spec_parse_config(s: Seq<char>) -> Option<ConfigModel> {
    if !lit_at(s, 0, "[dns]\nupstream = ["@) {
        None
    } else {
        let i1 = "[dns]\nupstream = ["@.len() as int;
        match spec_parse_strlist(s, i1) {
            Some((upstream, j1)) => if !lit_at(s, j1, "\nlisten_address = "@) {
                None
            } else {
                let i2 = j1 + "\nlisten_address = "@.len();
                match spec_parse_string(s, i2) {
                    Some((listen_address, j2)) => if !lit_at(s, j2, "\nlisten_port = "@) {
                        None
                    } else {
                        let i3 = j2 + "\nlisten_port = "@.len();
                        match spec_parse_nat(s, i3) {
                            Some((listen_port, j3)) => if listen_port > 65535 || !lit_at(
                                s,
                                j3,
                                "\n\n[blocking]\nenabled = "@,
                            ) {
                                None
                            } else {
                                spec_parse_config_rest(
                                    s,
                                    j3 + "\n\n[blocking]\nenabled = "@.len(),
                                    upstream,
                                    listen_address,
                                    listen_port,
                                )
                            },
                            None => None,
                        }
                    },
                    None => None,
                }
            },
            None => None,
        }
    }
}

/// The file from the blocking flag on.
pub open spec fn spec_parse_config_rest(
    s: Seq<char>,
    i: int,
    upstream: Seq<Seq<char>>,
    listen_address: Seq<char>,
    listen_port: int,
) -> Option<ConfigModel> {
    match spec_parse_bool(s, i) {
        Some((blocking_enabled, j4)) => if !lit_at(s, j4, "\ndomains = ["@) {
            None
        } else {
            let i5 = j4 + "\ndomains = ["@.len();
            match spec_parse_strlist(s, i5) {
                Some((domains, j5)) => if !lit_at(s, j5, "\n\n[schedule]\nenabled = "@) {
                    None
                } else {
                    let i6 = j5 + "\n\n[schedule]\nenabled = "@.len();
                    match spec_parse_bool(s, i6) {
                        Some((schedule_enabled, j6)) => if !(j6 < s.len() && s[j6] == '\n') {
                            None
                        } else {
                            match spec_parse_rules_toml(s, j6 + 1) {
                                Some((rules, j7)) => spec_parse_quiz(
                                    s,
                                    j7,
                                    ConfigModel {
                                        upstream,
                                        listen_address,
                                        listen_port,
                                        blocking_enabled,
                                        domains,
                                        schedule_enabled,
                                        rules,
                                        num_questions: 0,
                                        min_operand: 0,
                                        max_operand: 0,
                                        timeout_seconds: 0,
                                        min_solve_seconds: 0,
                                    },
                                ),
                                None => None,
                            }
                        },
                        None => None,
                    }
                },
                None => None,
            }
        },
        None => None,
    }
}

/// The quiz section and the end of the file.
pub open spec fn spec_parse_quiz(s: Seq<char>, i: int, base: ConfigModel) -> Option<
    ConfigModel,
> {
    if !lit_at(s, i, "\n[quiz]\nnum_questions = "@) {
        None
    } else {
        let i1 = i + "\n[quiz]\nnum_questions = "@.len();
        match spec_parse_nat(s, i1) {
            Some((num_questions, j1)) => if num_questions > 0xffffffff || !lit_at(
                s,
                j1,
                "\nmin_operand = "@,
            ) {
                None
            } else {
                let i2 = j1 + "\nmin_operand = "@.len();
                match spec_parse_int(s, i2) {
                    Some((min_operand, j2)) => if min_operand < -0x80000000 || min_operand
                        > 0x7fffffff || !lit_at(s, j2, "\nmax_operand = "@) {
                        None
                    } else {
                        let i3 = j2 + "\nmax_operand = "@.len();
                        match spec_parse_int(s, i3) {
                            Some((max_operand, j3)) => if max_operand < -0x80000000
                                || max_operand > 0x7fffffff || !lit_at(
                                s,
                                j3,
                                "\ntimeout_seconds = "@,
                            ) {
                                None
                            } else {
                                let i4 = j3 + "\ntimeout_seconds = "@.len();
                                match spec_parse_nat(s, i4) {
                                    Some((timeout_seconds, j4)) => if timeout_seconds
                                        > 0xffffffff || !lit_at(
                                        s,
                                        j4,
                                        "\nmin_solve_seconds = "@,
                                    ) {
                                        None
                                    } else {
                                        let i5 = j4 + "\nmin_solve_seconds = "@.len();
                                        match spec_parse_nat(s, i5) {
                                            Some((min_solve_seconds, j5)) => if j5 + 1
                                                == s.len() && s[j5] == '\n'
                                                && min_solve_seconds <= 0xffffffff {
                                                Some(
                                                    ConfigModel {
                                                        num_questions,
                                                        min_operand,
                                                        max_operand,
                                                        timeout_seconds,
                                                        min_solve_seconds,
                                                        ..base
                                                    },
                                                )
                                            } else {
                                                None
                                            },
                                            None => None,
                                        }
                                    },
                                    None => None,
                                }
                            },
                            None => None,
                        }
                    },
                    None => None,
                }
            },
            None => None,
        }
    }
}

/// The string list parser reads back exactly what the serializer
/// wrote, up to the closing bracket.
pub proof fn lemma_parse_strlist_rt(s: Seq<char>, i: int, xs: Seq<Seq<char>>)
    requires
        forall|k: int| 0 <= k < xs.len() ==> crate::json::valid_char_seq(#[trigger] xs[k]),
        lit_at(s, i, strings_json(xs) + seq![']']),
    ensures
        spec_parse_strlist(s, i) == Some((xs, i + strings_json(xs).len() + 1)),
    decreases xs.len(),
{
    if xs.len() == 0 {
        assert(strings_json(xs) + seq![']'] =~= seq![']']);
        crate::json::lemma_lit_chars(s, i, seq![']']);
        assert(s[i + 0] == ']');
        assert(xs =~= Seq::<Seq<char>>::empty());
    } else {
        let v = xs[0];
        let head = json_str(v);
        if xs.len() == 1 {
            assert(strings_json(xs) + seq![']'] =~= head + seq![']']);
            crate::json::lemma_split(s, i, head, seq![']']);
            crate::json::lemma_parse_string_rt(s, i, v);
            let j = i + head.len();
            crate::json::lemma_lit_chars(s, j, seq![']']);
            assert(s[j + 0] == ']');
            crate::json::lemma_lit_chars(s, i, head);
            assert(s[i + 0] == '"');
            assert(xs =~= seq![v]);
        } else {
            let rest = xs.drop_first();
            assert(strings_json(xs) == head + seq![','] + strings_json(rest));
            assert(strings_json(xs) + seq![']'] =~= head + (seq![','] + (strings_json(rest)
                + seq![']'])));
            crate::json::lemma_split(s, i, head, seq![','] + (strings_json(rest) + seq![']']));
            crate::json::lemma_parse_string_rt(s, i, v);
            let j = i + head.len();
            crate::json::lemma_split(s, j, seq![','], strings_json(rest) + seq![']']);
            crate::json::lemma_lit_chars(s, j, seq![',']);
            assert(s[j + 0] == ',');
            assert(forall|k: int|
                0 <= k < rest.len() ==> crate::json::valid_char_seq(#[trigger] rest[k]))
                by {
                assert forall|k: int|
                    0 <= k < rest.len() implies crate::json::valid_char_seq(
                    #[trigger] rest[k],
                ) by {
                    assert(rest[k] == xs[k + 1]);
                }
            }
            lemma_parse_strlist_rt(s, j + 1, rest);
            crate::json::lemma_lit_chars(s, i, head);
            assert(s[i + 0] == '"');
            assert(seq![v] + rest =~= xs);
        }
    }
}

/// The rule block parser reads back exactly what the emitter wrote.
#[verifier::rlimit(100)]
#[verifier::spinoff_prover]
pub proof fn lemma_parse_rule_toml_rt(s: Seq<char>, i: int, r: RuleModel)
    requires
        crate::json::rule_model_wf(r),
        lit_at(s, i, rule_toml(r)),
    ensures
        spec_parse_rule_toml(s, i) == Some((r, i + rule_toml(r).len())),
{
    let l1 = "\n[[schedule.rules]]\nname = "@;
    let l2 = "\ndays = ["@;
    let l3 = "\nstart_time = "@;
    let l4 = "\nend_time = "@;
    let t1 = json_str(r.name);
    let t2 = days_json(r.days) + seq![']'];
    let t3 = time_json(r.start);
    let t4 = time_json(r.end);
    assert(rule_toml(r) =~= l1 + (t1 + (l2 + (t2 + (l3 + (t3 + (l4 + (t4 + seq!['\n']))))))));
    crate::json::lemma_split(s, i, l1, t1 + (l2 + (t2 + (l3 + (t3 + (l4 + (t4 + seq![
        '\n',
    ])))))));
    let i1: int = i + l1.len();
    crate::json::lemma_split(s, i1, t1, l2 + (t2 + (l3 + (t3 + (l4 + (t4 + seq!['\n']))))));
    crate::json::lemma_parse_string_rt(s, i1, r.name);
    let j1: int = i1 + t1.len();
    crate::json::lemma_split(s, j1, l2, t2 + (l3 + (t3 + (l4 + (t4 + seq!['\n'])))));
    let i2: int = j1 + l2.len();
    crate::json::lemma_split(s, i2, t2, l3 + (t3 + (l4 + (t4 + seq!['\n']))));
    crate::json::lemma_parse_days_rt(s, i2, r.days);
    let j2: int = i2 + t2.len();
    crate::json::lemma_split(s, j2, l3, t3 + (l4 + (t4 + seq!['\n'])));
    let i3: int = j2 + l3.len();
    crate::json::lemma_split(s, i3, t3, l4 + (t4 + seq!['\n']));
    crate::json::lemma_parse_time_rt(s, i3, r.start);
    let j3: int = i3 + t3.len();
    crate::json::lemma_split(s, j3, l4, t4 + seq!['\n']);
    let i4: int = j3 + l4.len();
    crate::json::lemma_split(s, i4, t4, seq!['\n']);
    crate::json::lemma_parse_time_rt(s, i4, r.end);
    let j4: int = i4 + t4.len();
    crate::json::lemma_lit_chars(s, j4, seq!['\n']);
    assert(s[j4 + 0] == '\n');
    assert((spec_parse_rule_toml(s, i)->0).0 == r) by {
        assert(RuleModel { name: r.name, days: r.days, start: r.start, end: r.end } == r);
    }
}

/// The rule block list parser reads back exactly the emitted blocks
/// and stops at the quiz section.
pub proof fn lemma_parse_rules_toml_rt(s: Seq<char>, i: int, rs: Seq<RuleModel>)
    requires
        forall|k: int| 0 <= k < rs.len() ==> crate::json::rule_model_wf(#[trigger] rs[k]),
        lit_at(s, i, rules_toml(rs)),
        0 <= i,
        i + rules_toml(rs).len() + 3 <= s.len(),
        s[i + rules_toml(rs).len()] == '\n',
        s[i + rules_toml(rs).len() + 1] == '[',
        s[i + rules_toml(rs).len() + 2] == 'q',
    ensures
        spec_parse_rules_toml(s, i) == Some((rs, i + rules_toml(rs).len())),
    decreases rs.len(),
{
    reveal_strlit("\n[[schedule.rules]]\nname = ");
    if rs.len() == 0 {
        assert(spec_parse_rule_toml(s, i) is None) by {
            if lit_at(s, i, "\n[[schedule.rules]]\nname = "@) {
                crate::json::lemma_lit_chars(s, i, "\n[[schedule.rules]]\nname = "@);
                assert(s[i + 2] == '[');
                assert(s[i + 2] == 'q');
                assert(false);
            }
        }
        assert(rs =~= Seq::<RuleModel>::empty());
    } else {
        let r0 = rs[0];
        let head = rule_toml(r0);
        let rest = rs.drop_first();
        assert(rules_toml(rs) == head + rules_toml(rest));
        assert(rules_toml(rs) =~= head + rules_toml(rest));
        crate::json::lemma_split(s, i, head, rules_toml(rest));
        lemma_parse_rule_toml_rt(s, i, r0);
        let j = i + head.len();
        assert(forall|k: int|
            0 <= k < rest.len() ==> crate::json::rule_model_wf(#[trigger] rest[k])) by {
            assert forall|k: int|
                0 <= k < rest.len() implies crate::json::rule_model_wf(#[trigger] rest[k]) by {
                assert(rest[k] == rs[k + 1]);
            }
        }
        lemma_parse_rules_toml_rt(s, j, rest);
        assert(head.len() > 0) by {
            assert(head =~= "\n[[schedule.rules]]\nname = "@ + json_str(r0.name)
                + "\ndays = ["@ + days_json(r0.days) + seq![']'] + "\nstart_time = "@
                + time_json(r0.start) + "\nend_time = "@ + time_json(r0.end) + seq!['\n']);
        }
        assert(seq![r0] + rest =~= rs);
    }
}

/// A configuration model whose strings, numbers and times a round
/// trip can carry: the model of every executable configuration with
/// well-formed rule times satisfies it.
pub open spec fn config_model_wf(m: ConfigModel) -> bool {
    &&& forall|k: int|
        0 <= k < m.upstream.len() ==> crate::json::valid_char_seq(#[trigger] m.upstream[k])
    &&& crate::json::valid_char_seq(m.listen_address)
    &&& 0 <= m.listen_port <= 65535
    &&& forall|k: int|
        0 <= k < m.domains.len() ==> crate::json::valid_char_seq(#[trigger] m.domains[k])
    &&& forall|k: int| 0 <= k < m.rules.len() ==> crate::json::rule_model_wf(#[trigger] m.rules[k])
    &&& 0 <= m.num_questions <= 0xffffffff
    &&& -0x80000000 <= m.min_operand <= 0x7fffffff
    &&& -0x80000000 <= m.max_operand <= 0x7fffffff
    &&& 0 <= m.timeout_seconds <= 0xffffffff
    &&& 0 <= m.min_solve_seconds <= 0xffffffff
}

/// Joining two literals found back to back.
pub proof fn lemma_join(s: Seq<char>, i: int, a: Seq<char>, b: Seq<char>)
    requires
        lit_at(s, i, a),
        lit_at(s, i + a.len(), b),
    ensures
        lit_at(s, i, a + b),
{
    crate::json::lemma_lit_chars(s, i, a);
    crate::json::lemma_lit_chars(s, i + a.len(), b);
    assert(s.subrange(i, i + (a + b).len()) =~= a + b) by {
        assert forall|k: int| 0 <= k < (a + b).len() implies s.subrange(
            i,
            i + (a + b).len(),
        )[k] == (a + b)[k] by {
            if k < a.len() {
                assert(s[i + k] == a[k]);
            } else {
                assert(s[i + a.len() + (k - a.len())] == b[k - a.len()]);
            }
        }
    }
}

/// Configuration file round trip: parsing the rendering of any
/// well-formed configuration gives back exactly its values.
#[verifier::rlimit(100)]
#[verifier::spinoff_prover]
pub proof fn lemma_config_round_trip(m: ConfigModel)
    requires
        config_model_wf(m),
    ensures
        spec_parse_config(config_toml(m)) == Some(m),
{
    let s = config_toml(m);
    assert(lit_at(s, 0, config_toml(m))) by {
        assert(s.subrange(0, s.len() as int) =~= s);
    }
    assert(s.len() == config_toml(m).len());
    lemma_config_tail_splits(s, m);
    lemma_config_head_splits(s, m);
    lemma_config_parts_rt(s, m);
}

/// Splits the rendered file into its head and its trailing pieces.
#[verifier::rlimit(100)]
#[verifier::spinoff_prover]
proof fn lemma_config_tail_splits(s: Seq<char>, m: ConfigModel)
    requires
        lit_at(s, 0, config_toml(m)),
        s.len() == config_toml(m).len(),
    ensures
        lit_at(
            s,
            0,
            "[dns]\nupstream = ["@ + strings_json(m.upstream) + "]\nlisten_address = "@
                + json_str(m.listen_address) + "\nlisten_port = "@ + dec_digits(
                m.listen_port as nat,
            ) + "\n\n[blocking]\nenabled = "@ + bool_json(m.blocking_enabled)
                + "\ndomains = ["@ + strings_json(m.domains) + "]\n\n[schedule]\nenabled = "@
                + bool_json(m.schedule_enabled),
        ),
        lit_at(s, head_offset(m, 12), seq!['\n']),
        lit_at(s, head_offset(m, 13), rules_toml(m.rules)),
        lit_at(s, head_offset(m, 14), "\n[quiz]\nnum_questions = "@),
        lit_at(
            s,
            head_offset(m, 14) + "\n[quiz]\nnum_questions = "@.len(),
            dec_digits(m.num_questions as nat),
        ),
        lit_at(
            s,
            head_offset(m, 14) + "\n[quiz]\nnum_questions = "@.len() + dec_digits(
                m.num_questions as nat,
            ).len(),
            "\nmin_operand = "@ + int_string(m.min_operand) + "\nmax_operand = "@ + int_string(
                m.max_operand,
            ) + "\ntimeout_seconds = "@ + dec_digits(m.timeout_seconds as nat)
                + "\nmin_solve_seconds = "@ + dec_digits(m.min_solve_seconds as nat) + seq![
                '\n',
            ],
        ),
        s.len() == head_offset(m, 14) + "\n[quiz]\nnum_questions = "@.len() + dec_digits(
            m.num_questions as nat,
        ).len() + ("\nmin_operand = "@ + int_string(m.min_operand) + "\nmax_operand = "@
            + int_string(m.max_operand) + "\ntimeout_seconds = "@ + dec_digits(
            m.timeout_seconds as nat,
        ) + "\nmin_solve_seconds = "@ + dec_digits(m.min_solve_seconds as nat) + seq![
            '\n',
        ]).len(),
{
    let head = "[dns]\nupstream = ["@ + strings_json(m.upstream) + "]\nlisten_address = "@
        + json_str(m.listen_address) + "\nlisten_port = "@ + dec_digits(m.listen_port as nat)
        + "\n\n[blocking]\nenabled = "@ + bool_json(m.blocking_enabled) + "\ndomains = ["@
        + strings_json(m.domains) + "]\n\n[schedule]\nenabled = "@ + bool_json(
        m.schedule_enabled,
    );
    let a13 = seq!['\n'];
    let a14 = rules_toml(m.rules);
    let a15 = "\n[quiz]\nnum_questions = "@;
    let a16 = dec_digits(m.num_questions as nat);
    let rest = "\nmin_operand = "@ + int_string(m.min_operand) + "\nmax_operand = "@
        + int_string(m.max_operand) + "\ntimeout_seconds = "@ + dec_digits(
        m.timeout_seconds as nat,
    ) + "\nmin_solve_seconds = "@ + dec_digits(m.min_solve_seconds as nat) + seq!['\n'];
    let q1 = head;
    let q2 = q1 + a13;
    let q3 = q2 + a14;
    let q4 = q3 + a15;
    let q5 = q4 + a16;
    assert(config_toml(m) == q5 + rest) by {
        assert(config_toml(m) =~= q5 + rest);
    }
    crate::json::lemma_split(s, 0, q5, rest);
    crate::json::lemma_split(s, 0, q4, a16);
    crate::json::lemma_split(s, 0, q3, a15);
    crate::json::lemma_split(s, 0, q2, a14);
    crate::json::lemma_split(s, 0, q1, a13);
}

/// The cumulative offsets of the head pieces of the rendered file.
pub open spec fn head_offset(m: ConfigModel, k: int) -> int {
    let s1 = "[dns]\nupstream = ["@.len() as int;
    let s2 = s1 + strings_json(m.upstream).len();
    let s3 = s2 + "]\nlisten_address = "@.len();
    let s4 = s3 + json_str(m.listen_address).len();
    let s5 = s4 + "\nlisten_port = "@.len();
    let s6 = s5 + dec_digits(m.listen_port as nat).len();
    let s7 = s6 + "\n\n[blocking]\nenabled = "@.len();
    let s8 = s7 + bool_json(m.blocking_enabled).len();
    let s9 = s8 + "\ndomains = ["@.len();
    let s10 = s9 + strings_json(m.domains).len();
    let s11 = s10 + "]\n\n[schedule]\nenabled = "@.len();
    let s12 = s11 + bool_json(m.schedule_enabled).len();
    let s13 = s12 + 1;
    let s14 = s13 + rules_toml(m.rules).len();
    if k <= 1 {
        s1
    } else if k == 2 {
        s2
    } else if k == 3 {
        s3
    } else if k == 4 {
        s4
    } else if k == 5 {
        s5
    } else if k == 6 {
        s6
    } else if k == 7 {
        s7
    } else if k == 8 {
        s8
    } else if k == 9 {
        s9
    } else if k == 10 {
        s10
    } else if k == 11 {
        s11
    } else if k == 12 {
        s12
    } else if k == 13 {
        s13
    } else {
        s14
    }
}

/// Splits the head of the rendered file into its pieces.
#[verifier::rlimit(100)]
#[verifier::spinoff_prover]
proof fn lemma_config_head_splits(s: Seq<char>, m: ConfigModel)
    requires
        lit_at(
            s,
            0,
            "[dns]\nupstream = ["@ + strings_json(m.upstream) + "]\nlisten_address = "@
                + json_str(m.listen_address) + "\nlisten_port = "@ + dec_digits(
                m.listen_port as nat,
            ) + "\n\n[blocking]\nenabled = "@ + bool_json(m.blocking_enabled)
                + "\ndomains = ["@ + strings_json(m.domains) + "]\n\n[schedule]\nenabled = "@
                + bool_json(m.schedule_enabled),
        ),
    ensures
        lit_at(s, 0, "[dns]\nupstream = ["@),
        lit_at(s, head_offset(m, 1), strings_json(m.upstream)),
        lit_at(s, head_offset(m, 2), "]\nlisten_address = "@),
        lit_at(s, head_offset(m, 3), json_str(m.listen_address)),
        lit_at(s, head_offset(m, 4), "\nlisten_port = "@),
        lit_at(s, head_offset(m, 5), dec_digits(m.listen_port as nat)),
        lit_at(s, head_offset(m, 6), "\n\n[blocking]\nenabled = "@),
        lit_at(s, head_offset(m, 7), bool_json(m.blocking_enabled)),
        lit_at(s, head_offset(m, 8), "\ndomains = ["@),
        lit_at(s, head_offset(m, 9), strings_json(m.domains)),
        lit_at(s, head_offset(m, 10), "]\n\n[schedule]\nenabled = "@),
        lit_at(s, head_offset(m, 11), bool_json(m.schedule_enabled)),
{
    let a1 = "[dns]\nupstream = ["@;
    let a2 = strings_json(m.upstream);
    let a3 = "]\nlisten_address = "@;
    let a4 = json_str(m.listen_address);
    let a5 = "\nlisten_port = "@;
    let a6 = dec_digits(m.listen_port as nat);
    let a7 = "\n\n[blocking]\nenabled = "@;
    let a8 = bool_json(m.blocking_enabled);
    let a9 = "\ndomains = ["@;
    let a10 = strings_json(m.domains);
    let a11 = "]\n\n[schedule]\nenabled = "@;
    let a12 = bool_json(m.schedule_enabled);
    let p1 = a1;
    let p2 = p1 + a2;
    let p3 = p2 + a3;
    let p4 = p3 + a4;
    let p5 = p4 + a5;
    let p6 = p5 + a6;
    let p7 = p6 + a7;
    let p8 = p7 + a8;
    let p9 = p8 + a9;
    let p10 = p9 + a10;
    let p11 = p10 + a11;
    crate::json::lemma_split(s, 0, p11, a12);
    crate::json::lemma_split(s, 0, p10, a11);
    crate::json::lemma_split(s, 0, p9, a10);
    crate::json::lemma_split(s, 0, p8, a9);
    crate::json::lemma_split(s, 0, p7, a8);
    crate::json::lemma_split(s, 0, p6, a7);
    crate::json::lemma_split(s, 0, p5, a6);
    crate::json::lemma_split(s, 0, p4, a5);
    crate::json::lemma_split(s, 0, p3, a4);
    crate::json::lemma_split(s, 0, p2, a3);
    crate::json::lemma_split(s, 0, p1, a2);
}

/// The body of the round trip, over the piece positions.
#[verifier::rlimit(100)]
#[verifier::spinoff_prover]
proof fn lemma_config_parts_rt(s: Seq<char>, m: ConfigModel)
    requires
        config_model_wf(m),
        lit_at(s, 0, "[dns]\nupstream = ["@),
        lit_at(s, head_offset(m, 1), strings_json(m.upstream)),
        lit_at(s, head_offset(m, 2), "]\nlisten_address = "@),
        lit_at(s, head_offset(m, 3), json_str(m.listen_address)),
        lit_at(s, head_offset(m, 4), "\nlisten_port = "@),
        lit_at(s, head_offset(m, 5), dec_digits(m.listen_port as nat)),
        lit_at(s, head_offset(m, 6), "\n\n[blocking]\nenabled = "@),
        lit_at(s, head_offset(m, 7), bool_json(m.blocking_enabled)),
        lit_at(s, head_offset(m, 8), "\ndomains = ["@),
        lit_at(s, head_offset(m, 9), strings_json(m.domains)),
        lit_at(s, head_offset(m, 10), "]\n\n[schedule]\nenabled = "@),
        lit_at(s, head_offset(m, 11), bool_json(m.schedule_enabled)),
        lit_at(s, head_offset(m, 12), seq!['\n']),
        lit_at(s, head_offset(m, 13), rules_toml(m.rules)),
        lit_at(s, head_offset(m, 14), "\n[quiz]\nnum_questions = "@),
        lit_at(
            s,
            head_offset(m, 14) + "\n[quiz]\nnum_questions = "@.len(),
            dec_digits(m.num_questions as nat),
        ),
        lit_at(
            s,
            head_offset(m, 14) + "\n[quiz]\nnum_questions = "@.len() + dec_digits(
                m.num_questions as nat,
            ).len(),
            "\nmin_operand = "@ + int_string(m.min_operand) + "\nmax_operand = "@ + int_string(
                m.max_operand,
            ) + "\ntimeout_seconds = "@ + dec_digits(m.timeout_seconds as nat)
                + "\nmin_solve_seconds = "@ + dec_digits(m.min_solve_seconds as nat) + seq![
                '\n',
            ],
        ),
        s.len() == head_offset(m, 14) + "\n[quiz]\nnum_questions = "@.len() + dec_digits(
            m.num_questions as nat,
        ).len() + ("\nmin_operand = "@ + int_string(m.min_operand) + "\nmax_operand = "@
            + int_string(m.max_operand) + "\ntimeout_seconds = "@ + dec_digits(
            m.timeout_seconds as nat,
        ) + "\nmin_solve_seconds = "@ + dec_digits(m.min_solve_seconds as nat) + seq![
            '\n',
        ]).len(),
    ensures
        spec_parse_config(s) == Some(m),
{
    reveal_strlit("]\nlisten_address = ");
    reveal_strlit("\nlisten_address = ");
    reveal_strlit("]\n\n[schedule]\nenabled = ");
    reveal_strlit("\n\n[schedule]\nenabled = ");
    reveal_strlit("\n\n[blocking]\nenabled = ");
    reveal_strlit("\n[quiz]\nnum_questions = ");
    let i1 = "[dns]\nupstream = ["@.len() as int;
    assert("]\nlisten_address = "@ =~= seq![']'] + "\nlisten_address = "@);
    crate::json::lemma_split(s, head_offset(m, 2), seq![']'], "\nlisten_address = "@);
    lemma_join(s, i1, strings_json(m.upstream), seq![']']);
    lemma_parse_strlist_rt(s, i1, m.upstream);
    let j1 = head_offset(m, 2) + 1;
    let i2 = j1 + "\nlisten_address = "@.len();
    assert(i2 == head_offset(m, 3));
    crate::json::lemma_parse_string_rt(s, i2, m.listen_address);
    let i3 = head_offset(m, 4) + "\nlisten_port = "@.len();
    assert(i3 == head_offset(m, 5));
    proof_not_digit_after(s, head_offset(m, 6), "\n\n[blocking]\nenabled = "@);
    crate::json::lemma_parse_nat_rt(s, i3, m.listen_port as nat);
    let i4 = head_offset(m, 6) + "\n\n[blocking]\nenabled = "@.len();
    assert(i4 == head_offset(m, 7));
    crate::json::lemma_parse_bool_rt(s, i4, m.blocking_enabled);
    let i5 = head_offset(m, 8) + "\ndomains = ["@.len();
    assert(i5 == head_offset(m, 9));
    assert("]\n\n[schedule]\nenabled = "@ =~= seq![']'] + "\n\n[schedule]\nenabled = "@);
    crate::json::lemma_split(s, head_offset(m, 10), seq![']'], "\n\n[schedule]\nenabled = "@);
    lemma_join(s, i5, strings_json(m.domains), seq![']']);
    lemma_parse_strlist_rt(s, i5, m.domains);
    let j5 = head_offset(m, 10) + 1;
    let i6 = j5 + "\n\n[schedule]\nenabled = "@.len();
    assert(i6 == head_offset(m, 11));
    crate::json::lemma_parse_bool_rt(s, i6, m.schedule_enabled);
    let j6 = head_offset(m, 12);
    crate::json::lemma_lit_chars(s, j6, seq!['\n']);
    assert(s[j6 + 0] == '\n');
    let i7 = j6 + 1;
    assert(i7 == head_offset(m, 13));
    crate::json::lemma_lit_chars(s, head_offset(m, 14), "\n[quiz]\nnum_questions = "@);
    assert(s[head_offset(m, 14) + 0] == '\n');
    assert(s[head_offset(m, 14) + 1] == '[');
    assert(s[head_offset(m, 14) + 2] == 'q');
    lemma_parse_rules_toml_rt(s, i7, m.rules);
    lemma_config_tail_rt(s, head_offset(m, 14), m);
    assert(spec_parse_config(s) == Some(m));
}

/// The first character after a rendered number here is never a
/// digit: each following literal begins with a line break.
proof fn proof_not_digit_after(s: Seq<char>, j: int, l: Seq<char>)
    requires
        lit_at(s, j, l),
        l.len() > 0,
        l[0] == '\n',
    ensures
        j < s.len(),
        !crate::text::is_digit(s[j]),
{
    crate::json::lemma_lit_chars(s, j, l);
    assert(s[j + 0] == '\n');
}

/// The quiz section round-trips.
#[verifier::rlimit(100)]
#[verifier::spinoff_prover]
proof fn lemma_config_tail_rt(s: Seq<char>, i: int, m: ConfigModel)
    requires
        config_model_wf(m),
        0 <= i,
        lit_at(s, i, "\n[quiz]\nnum_questions = "@),
        lit_at(s, i + "\n[quiz]\nnum_questions = "@.len(), dec_digits(m.num_questions as nat)),
        lit_at(
            s,
            i + "\n[quiz]\nnum_questions = "@.len() + dec_digits(m.num_questions as nat).len(),
            "\nmin_operand = "@ + int_string(m.min_operand) + "\nmax_operand = "@ + int_string(
                m.max_operand,
            ) + "\ntimeout_seconds = "@ + dec_digits(m.timeout_seconds as nat)
                + "\nmin_solve_seconds = "@ + dec_digits(m.min_solve_seconds as nat) + seq![
                '\n',
            ],
        ),
        s.len() == i + "\n[quiz]\nnum_questions = "@.len() + dec_digits(
            m.num_questions as nat,
        ).len() + ("\nmin_operand = "@ + int_string(m.min_operand) + "\nmax_operand = "@
            + int_string(m.max_operand) + "\ntimeout_seconds = "@ + dec_digits(
            m.timeout_seconds as nat,
        ) + "\nmin_solve_seconds = "@ + dec_digits(m.min_solve_seconds as nat) + seq![
            '\n',
        ]).len(),
    ensures
        spec_parse_quiz(
            s,
            i,
            ConfigModel {
                num_questions: 0,
                min_operand: 0,
                max_operand: 0,
                timeout_seconds: 0,
                min_solve_seconds: 0,
                ..m
            },
        ) == Some(m),
{
    reveal_strlit("\nmin_operand = ");
    reveal_strlit("\nmax_operand = ");
    reveal_strlit("\ntimeout_seconds = ");
    reveal_strlit("\nmin_solve_seconds = ");
    let l9 = "\nmin_operand = "@;
    let t9 = int_string(m.min_operand);
    let l10 = "\nmax_operand = "@;
    let t10 = int_string(m.max_operand);
    let l11 = "\ntimeout_seconds = "@;
    let t11 = dec_digits(m.timeout_seconds as nat);
    let l12 = "\nmin_solve_seconds = "@;
    let t12 = dec_digits(m.min_solve_seconds as nat);
    let b1 = l9;
    let b2 = b1 + t9;
    let b3 = b2 + l10;
    let b4 = b3 + t10;
    let b5 = b4 + l11;
    let b6 = b5 + t11;
    let b7 = b6 + l12;
    let b8 = b7 + t12;
    let j8 = i + "\n[quiz]\nnum_questions = "@.len() + dec_digits(m.num_questions as nat).len();
    assert(lit_at(s, j8, b8 + seq!['\n']));
    crate::json::lemma_split(s, j8, b8, seq!['\n']);
    crate::json::lemma_split(s, j8, b7, t12);
    crate::json::lemma_split(s, j8, b6, l12);
    crate::json::lemma_split(s, j8, b5, t11);
    crate::json::lemma_split(s, j8, b4, l11);
    crate::json::lemma_split(s, j8, b3, t10);
    crate::json::lemma_split(s, j8, b2, l10);
    crate::json::lemma_split(s, j8, b1, t9);
    let i8 = i + "\n[quiz]\nnum_questions = "@.len();
    proof_not_digit_after(s, j8, l9);
    crate::json::lemma_parse_nat_rt(s, i8, m.num_questions as nat);
    let i9 = j8 + l9.len();
    let j9 = j8 + b2.len();
    proof_not_digit_after(s, j9, l10);
    crate::json::lemma_parse_int_rt(s, i9, m.min_operand);
    let i10 = j8 + b3.len();
    let j10 = j8 + b4.len();
    proof_not_digit_after(s, j10, l11);
    crate::json::lemma_parse_int_rt(s, i10, m.max_operand);
    let i11 = j8 + b5.len();
    let j11 = j8 + b6.len();
    proof_not_digit_after(s, j11, l12);
    crate::json::lemma_parse_nat_rt(s, i11, m.timeout_seconds as nat);
    let i12 = j8 + b7.len();
    let j12 = j8 + b8.len();
    crate::json::lemma_lit_chars(s, j12, seq!['\n']);
    assert(s[j12 + 0] == '\n');
    assert(!crate::text::is_digit(s[j12]));
    crate::json::lemma_parse_nat_rt(s, i12, m.min_solve_seconds as nat);
    assert(j12 + 1 == s.len());
    let base = ConfigModel {
        num_questions: 0,
        min_operand: 0,
        max_operand: 0,
        timeout_seconds: 0,
        min_solve_seconds: 0,
        ..m
    };
    assert(spec_parse_quiz(s, i, base) == Some(m)) by {
        assert(ConfigModel {
            num_questions: m.num_questions,
            min_operand: m.min_operand,
            max_operand: m.max_operand,
            timeout_seconds: m.timeout_seconds,
            min_solve_seconds: m.min_solve_seconds,
            ..base
        } == m);
    }
}

/// Appends a quoted string list body.
fn emit_string_list(out: &mut String, xs: &Vec<String>)
    ensures
        final(out)@ == old(out)@ + strings_json(xs.deep_view()),
{
    let n = xs.len();
    let mut i: usize = 0;
    let ghost xd = xs.deep_view();
    proof {
        assert(xd.skip(0) =~= xd);
        assert(xd.len() == n);
    }
    while i < n
        invariant
            n == xs@.len(),
            xd == xs.deep_view(),
            xd.len() == n,
            i <= n,
            old(out)@ + strings_json(xd) == out@ + (if i < n {
                strings_json(xd.skip(i as int))
            } else {
                Seq::<char>::empty()
            }),
        decreases n - i,
    {
        proof {
            assert(xd.skip(i as int)[0] == xd[i as int]);
            assert(xd[i as int] == xs@[i as int]@);
            assert(xd.skip(i as int).drop_first() =~= xd.skip(i + 1));
        }
        let ghost before = out@;
        emit_json_string(out, xs[i].as_str());
        if i + 1 < n {
            push_char(out, ',');
            proof {
                assert(strings_json(xd.skip(i as int)) == json_str(xd[i as int]) + seq![',']
                    + strings_json(xd.skip(i + 1)));
                assert(out@ + strings_json(xd.skip(i + 1)) =~= before + strings_json(
                    xd.skip(i as int),
                ));
            }
        } else {
            proof {
                assert(strings_json(xd.skip(i as int)) == json_str(xd[i as int]));
                assert(out@ =~= before + strings_json(xd.skip(i as int)));
            }
        }
        i = i + 1;
    }
    proof {
        if n == 0 {
            assert(strings_json(xd).len() == 0);
        }
        assert(final(out)@ =~= old(out)@ + strings_json(xs.deep_view()));
    }
}

/// Appends a weekday list body.
fn emit_day_list(out: &mut String, days: &Vec<crate::schedule::WeekdayWrapper>)
    ensures
        final(out)@ == old(out)@ + days_json(days@),
{
    let n = days.len();
    let mut i: usize = 0;
    proof {
        assert(days@.skip(0) =~= days@);
    }
    while i < n
        invariant
            n == days@.len(),
            i <= n,
            old(out)@ + days_json(days@) == out@ + (if i < n {
                days_json(days@.skip(i as int))
            } else {
                Seq::<char>::empty()
            }),
        decreases n - i,
    {
        proof {
            assert(days@.skip(i as int)[0] == days@[i as int]);
            assert(days@.skip(i as int).drop_first() =~= days@.skip(i + 1));
        }
        let ghost before = out@;
        push_char(out, '"');
        let name: &str = match days[i] {
            crate::schedule::WeekdayWrapper::Mon => "mon",
            crate::schedule::WeekdayWrapper::Tue => "tue",
            crate::schedule::WeekdayWrapper::Wed => "wed",
            crate::schedule::WeekdayWrapper::Thu => "thu",
            crate::schedule::WeekdayWrapper::Fri => "fri",
            crate::schedule::WeekdayWrapper::Sat => "sat",
            crate::schedule::WeekdayWrapper::Sun => "sun",
        };
        emit_lit(out, name);
        proof {
            reveal_strlit("mon");
            reveal_strlit("tue");
            reveal_strlit("wed");
            reveal_strlit("thu");
            reveal_strlit("fri");
            reveal_strlit("sat");
            reveal_strlit("sun");
            assert(name@ == crate::json::day_name(days@[i as int]));
        }
        push_char(out, '"');
        if i + 1 < n {
            push_char(out, ',');
            proof {
                assert(out@ + days_json(days@.skip(i + 1)) =~= before + days_json(
                    days@.skip(i as int),
                ));
            }
        } else {
            proof {
                assert(out@ =~= before + days_json(days@.skip(i as int)));
            }
        }
        i = i + 1;
    }
    proof {
        if n == 0 {
            assert(days_json(days@).len() == 0);
        }
        assert(final(out)@ =~= old(out)@ + days_json(days@));
    }
}

/// Appends one rule block.
#[verifier::rlimit(100)]
#[verifier::spinoff_prover]
fn emit_rule_toml(out: &mut String, r: &ScheduleRule)
    requires
        r.start_time.wf(),
        r.end_time.wf(),
    ensures
        final(out)@ == old(out)@ + rule_toml(rule_model(*r)),
{
    emit_lit(out, "\n[[schedule.rules]]\nname = ");
    emit_json_string(out, r.name.as_str());
    emit_lit(out, "\ndays = [");
    emit_day_list(out, &r.days);
    push_char(out, ']');
    emit_lit(out, "\nstart_time = ");
    push_char(out, '"');
    let st = r.start_time.format();
    out.append(st.as_str());
    push_char(out, '"');
    emit_lit(out, "\nend_time = ");
    push_char(out, '"');
    let et = r.end_time.format();
    out.append(et.as_str());
    push_char(out, '"');
    push_char(out, '\n');
    proof {
        assert(final(out)@ =~= old(out)@ + rule_toml(rule_model(*r)));
    }
}

/// Renders the configuration in its canonical file form.
#[verifier::rlimit(100)]
#[verifier::spinoff_prover]
pub fn serialize_config(c: &Config) -> (out: String)
    requires
        schedule_wf(c.schedule),
    ensures
        out@ == config_toml(config_model(*c)),
{
    let ghost m = config_model(*c);
    let mut out = String::new();
    emit_lit(&mut out, "[dns]\nupstream = [");
    emit_string_list(&mut out, &c.dns.upstream);
    emit_lit(&mut out, "]\nlisten_address = ");
    emit_json_string(&mut out, c.dns.listen_address.as_str());
    emit_lit(&mut out, "\nlisten_port = ");
    let p = crate::text::fmt_u64(c.dns.listen_port as u64);
    out.append(p.as_str());
    proof {
        assert(out@ =~= "[dns]\nupstream = ["@ + strings_json(m.upstream)
            + "]\nlisten_address = "@ + json_str(m.listen_address) + "\nlisten_port = "@
            + dec_digits(m.listen_port as nat));
    }
    let ghost mid1 = out@;
    emit_lit(&mut out, "\n\n[blocking]\nenabled = ");
    if c.blocking.enabled {
        emit_lit(&mut out, "true");
    } else {
        emit_lit(&mut out, "false");
    }
    emit_lit(&mut out, "\ndomains = [");
    emit_string_list(&mut out, &c.blocking.domains);
    emit_lit(&mut out, "]\n\n[schedule]\nenabled = ");
    if c.schedule.enabled {
        emit_lit(&mut out, "true");
    } else {
        emit_lit(&mut out, "false");
    }
    push_char(&mut out, '\n');
    proof {
        assert(out@ =~= mid1 + "\n\n[blocking]\nenabled = "@ + bool_json(m.blocking_enabled)
            + "\ndomains = ["@ + strings_json(m.domains) + "]\n\n[schedule]\nenabled = "@
            + bool_json(m.schedule_enabled) + seq!['\n']);
    }
    let ghost mid2 = out@;
    let n = c.schedule.rules.len();
    let mut i: usize = 0;
    let ghost rm = rules_model(c.schedule.rules@);
    proof {
        assert(rm.skip(0) =~= rm);
    }
    while i < n
        invariant
            schedule_wf(c.schedule),
            n == c.schedule.rules@.len(),
            rm == rules_model(c.schedule.rules@),
            rm.len() == n,
            i <= n,
            mid2 + rules_toml(rm) == out@ + (if i < n {
                rules_toml(rm.skip(i as int))
            } else {
                Seq::<char>::empty()
            }),
        decreases n - i,
    {
        proof {
            assert(rm.skip(i as int)[0] == rm[i as int]);
            assert(rm[i as int] == rule_model(c.schedule.rules@[i as int]));
            assert(rm.skip(i as int).drop_first() =~= rm.skip(i + 1));
            assert(c.schedule.rules@[i as int].start_time.wf());
        }
        let ghost before = out@;
        emit_rule_toml(&mut out, &c.schedule.rules[i]);
        proof {
            assert(rules_toml(rm.skip(i as int)) == rule_toml(rm[i as int]) + rules_toml(
                rm.skip(i + 1),
            ));
            assert(out@ + rules_toml(rm.skip(i + 1)) =~= before + rules_toml(
                rm.skip(i as int),
            ));
        }
        i = i + 1;
    }
    proof {
        if n == 0 {
            assert(rules_toml(rm).len() == 0);
        }
        assert(out@ =~= mid2 + rules_toml(rm));
    }
    let ghost mid3 = out@;
    emit_lit(&mut out, "\n[quiz]\nnum_questions = ");
    let q1 = crate::text::fmt_u64(c.quiz.num_questions as u64);
    out.append(q1.as_str());
    emit_lit(&mut out, "\nmin_operand = ");
    let q2 = crate::text::fmt_i64(c.quiz.min_operand as i64);
    out.append(q2.as_str());
    emit_lit(&mut out, "\nmax_operand = ");
    let q3 = crate::text::fmt_i64(c.quiz.max_operand as i64);
    out.append(q3.as_str());
    emit_lit(&mut out, "\ntimeout_seconds = ");
    let q4 = crate::text::fmt_u64(c.quiz.timeout_seconds as u64);
    out.append(q4.as_str());
    emit_lit(&mut out, "\nmin_solve_seconds = ");
    let q5 = crate::text::fmt_u64(c.quiz.min_solve_seconds as u64);
    out.append(q5.as_str());
    push_char(&mut out, '\n');
    proof {
        assert(out@ =~= mid3 + "\n[quiz]\nnum_questions = "@ + dec_digits(
            m.num_questions as nat,
        ) + "\nmin_operand = "@ + int_string(m.min_operand) + "\nmax_operand = "@ + int_string(
            m.max_operand,
        ) + "\ntimeout_seconds = "@ + dec_digits(m.timeout_seconds as nat)
            + "\nmin_solve_seconds = "@ + dec_digits(m.min_solve_seconds as nat) + seq!['\n']);
        assert(out@ =~= config_toml(m));
    }
    out
}

/// Prefixing the parsed elements of a string list.
pub open spec fn strlist_combine(
    prefix: Seq<Seq<char>>,
    r: Option<(Seq<Seq<char>>, int)>,
) -> Option<(Seq<Seq<char>>, int)> {
    match r {
        Some((rest, e)) => Some((prefix + rest, e)),
        None => None,
    }
}

/// Reads a quoted string list up to and including its closing
/// bracket.
fn parse_strlist_exec(chars: &Vec<char>, pos: usize) -> (r: Option<(Vec<String>, usize)>)
    requires
        pos <= chars@.len(),
    ensures
        r is Some <==> spec_parse_strlist(chars@, pos as int) is Some,
        r matches Some(p) ==> spec_parse_strlist(chars@, pos as int) == Some(
            (p.0.deep_view(), p.1 as int),
        ) && pos < p.1 <= chars@.len(),
{
    let n = chars.len();
    let mut acc: Vec<String> = Vec::new();
    let mut cur: usize = pos;
    proof {
        assert(acc.deep_view() =~= Seq::<Seq<char>>::empty());
        assert(strlist_combine(acc.deep_view(), spec_parse_strlist(chars@, cur as int))
            == spec_parse_strlist(chars@, cur as int)) by {
            if spec_parse_strlist(chars@, cur as int) is Some {
                let pr = spec_parse_strlist(chars@, cur as int)->0;
                assert(acc.deep_view() + pr.0 =~= pr.0);
            }
        }
    }
    while cur < n
        invariant
            n == chars@.len(),
            pos <= cur <= n,
            spec_parse_strlist(chars@, pos as int) == strlist_combine(
                acc.deep_view(),
                spec_parse_strlist(chars@, cur as int),
            ),
        decreases n - cur,
    {
        let ghost b = chars@;
        let ghost acc0 = acc.deep_view();
        if chars[cur] == ']' {
            proof {
                assert(spec_parse_strlist(b, cur as int) == Some(
                    (Seq::<Seq<char>>::empty(), cur + 1),
                ));
                assert(acc0 + Seq::<Seq<char>>::empty() =~= acc0);
            }
            return Some((acc, cur + 1));
        }
        match crate::json::parse_string_exec(chars, cur) {
            None => {
                return None;
            },
            Some((v, j)) => {
                if j >= n {
                    proof {
                        assert(spec_parse_strlist(b, cur as int) is None);
                    }
                    return None;
                }
                let ghost vm = v@;
                if chars[j] == ',' {
                    proof {
                        assert(acc0.push(vm) =~= acc.deep_view().push(v@));
                    }
                    acc.push(v);
                    proof {
                        assert(acc.deep_view() =~= acc0.push(vm));
                        if spec_parse_strlist(b, j + 1) is Some {
                            let pr = spec_parse_strlist(b, j + 1)->0;
                            assert(acc0 + (seq![vm] + pr.0) =~= acc0.push(vm) + pr.0);
                        }
                    }
                    cur = j + 1;
                } else if chars[j] == ']' {
                    proof {
                        assert(spec_parse_strlist(b, cur as int) == Some((seq![vm], j + 1)));
                    }
                    acc.push(v);
                    proof {
                        assert(acc.deep_view() =~= acc0.push(vm));
                        assert(acc0 + seq![vm] =~= acc0.push(vm));
                    }
                    return Some((acc, j + 1));
                } else {
                    return None;
                }
            },
        }
    }
    proof {
        assert(spec_parse_strlist(chars@, cur as int) is None);
    }
    None
}

/// Reads one rule block.
#[verifier::rlimit(100)]
#[verifier::spinoff_prover]
fn parse_rule_toml_exec(chars: &Vec<char>, pos: usize) -> (r: Option<(ScheduleRule, usize)>)
    ensures
        r is Some <==> spec_parse_rule_toml(chars@, pos as int) is Some,
        r matches Some(p) ==> spec_parse_rule_toml(chars@, pos as int) == Some(
            (rule_model(p.0), p.1 as int),
        ) && pos < p.1 <= chars@.len() && p.0.start_time.wf() && p.0.end_time.wf(),
{
    let i1 = match crate::json::expect_lit(chars, pos, "\n[[schedule.rules]]\nname = ") {
        Some(e) => e,
        None => {
            return None;
        },
    };
    let (name, j1) = match crate::json::parse_string_exec(chars, i1) {
        Some(p) => p,
        None => {
            return None;
        },
    };
    let i2 = match crate::json::expect_lit(chars, j1, "\ndays = [") {
        Some(e) => e,
        None => {
            return None;
        },
    };
    let (days, j2) = match crate::json::parse_days_exec(chars, i2) {
        Some(p) => p,
        None => {
            return None;
        },
    };
    let i3 = match crate::json::expect_lit(chars, j2, "\nstart_time = ") {
        Some(e) => e,
        None => {
            return None;
        },
    };
    let (start_time, j3) = match crate::json::parse_time_exec(chars, i3) {
        Some(p) => p,
        None => {
            return None;
        },
    };
    let i4 = match crate::json::expect_lit(chars, j3, "\nend_time = ") {
        Some(e) => e,
        None => {
            return None;
        },
    };
    let (end_time, j4) = match crate::json::parse_time_exec(chars, i4) {
        Some(p) => p,
        None => {
            return None;
        },
    };
    if j4 >= chars.len() || chars[j4] != '\n' {
        return None;
    }
    let rule = ScheduleRule { name, days, start_time, end_time };
    proof {
        assert(rule_model(rule) == (spec_parse_rule_toml(chars@, pos as int)->0).0);
    }
    Some((rule, j4 + 1))
}

/// Reads as many rule blocks as stand at the position.
fn parse_rules_toml_exec(chars: &Vec<char>, pos: usize) -> (r: Option<(Vec<ScheduleRule>, usize)>)
    requires
        pos <= chars@.len(),
    ensures
        r is Some <==> spec_parse_rules_toml(chars@, pos as int) is Some,
        r matches Some(p) ==> spec_parse_rules_toml(chars@, pos as int) == Some(
            (rules_model(p.0@), p.1 as int),
        ) && pos <= p.1 <= chars@.len() && crate::json::rules_wf(p.0@),
{
    let n = chars.len();
    let mut acc: Vec<ScheduleRule> = Vec::new();
    let mut cur: usize = pos;
    let mut done = false;
    proof {
        assert(rules_model(acc@) =~= Seq::<RuleModel>::empty());
        assert(crate::json::rules_combine(
            rules_model(acc@),
            spec_parse_rules_toml(chars@, cur as int),
        ) == spec_parse_rules_toml(chars@, cur as int)) by {
            if spec_parse_rules_toml(chars@, cur as int) is Some {
                let pr = spec_parse_rules_toml(chars@, cur as int)->0;
                assert(rules_model(acc@) + pr.0 =~= pr.0);
            }
        }
    }
    while !done
        invariant
            n == chars@.len(),
            pos <= cur <= n,
            spec_parse_rules_toml(chars@, pos as int) == crate::json::rules_combine(
                rules_model(acc@),
                spec_parse_rules_toml(chars@, cur as int),
            ),
            crate::json::rules_wf(acc@),
            done ==> spec_parse_rule_toml(chars@, cur as int) is None,
        decreases n - cur + (if done {
            0int
        } else {
            1int
        }),
    {
        let ghost b = chars@;
        let ghost acc0 = rules_model(acc@);
        match parse_rule_toml_exec(chars, cur) {
            None => {
                done = true;
            },
            Some((rule, j)) => {
                let ghost rm = rule_model(rule);
                let ghost acc_old = acc@;
                proof {
                    assert(rules_model(acc@.push(rule)) =~= acc0.push(rm));
                    if spec_parse_rules_toml(b, j as int) is Some {
                        let pr = spec_parse_rules_toml(b, j as int)->0;
                        assert(acc0 + (seq![rm] + pr.0) =~= acc0.push(rm) + pr.0);
                    }
                }
                acc.push(rule);
                proof {
                    assert(crate::json::rules_wf(acc@)) by {
                        assert forall|k: int|
                            0 <= k < acc@.len() implies (
                        #[trigger] acc@[k].start_time).wf() && acc@[k].end_time.wf() by {
                            if k < acc_old.len() {
                                assert(acc@[k] == acc_old[k]);
                            } else {
                                assert(acc@[k] == rule);
                            }
                        }
                    }
                }
                cur = j;
            },
        }
    }
    proof {
        assert(spec_parse_rules_toml(chars@, cur as int) == Some(
            (Seq::<RuleModel>::empty(), cur as int),
        ));
        assert(rules_model(acc@) + Seq::<RuleModel>::empty() =~= rules_model(acc@));
    }
    Some((acc, cur))
}

/// Parses the canonical configuration file; returns the
/// configuration exactly when the text is one.
#[verifier::rlimit(100)]
#[verifier::spinoff_prover]
pub fn parse_config(text: &str) -> (r: Option<Config>)
    ensures
        r is Some <==> spec_parse_config(text@) is Some,
        r matches Some(c) ==> spec_parse_config(text@) == Some(config_model(c))
            && schedule_wf(c.schedule),
{
    let chars = crate::text::str_chars(text);
    let i1 = match crate::json::expect_lit(&chars, 0, "[dns]\nupstream = [") {
        Some(e) => e,
        None => {
            return None;
        },
    };
    let (upstream, j1) = match parse_strlist_exec(&chars, i1) {
        Some(p) => p,
        None => {
            return None;
        },
    };
    let i2 = match crate::json::expect_lit(&chars, j1, "\nlisten_address = ") {
        Some(e) => e,
        None => {
            return None;
        },
    };
    let (listen_address, j2) = match crate::json::parse_string_exec(&chars, i2) {
        Some(p) => p,
        None => {
            return None;
        },
    };
    let i3 = match crate::json::expect_lit(&chars, j2, "\nlisten_port = ") {
        Some(e) => e,
        None => {
            return None;
        },
    };
    let (listen_port, j3) = match crate::json::parse_nat_limited(&chars, i3, 65535) {
        Some(p) => p,
        None => {
            proof {
                if spec_parse_nat(chars@, i3 as int) is Some {
                    assert((spec_parse_nat(chars@, i3 as int)->0).0 > 65535);
                }
            }
            return None;
        },
    };
    let i4 = match crate::json::expect_lit(&chars, j3, "\n\n[blocking]\nenabled = ") {
        Some(e) => e,
        None => {
            return None;
        },
    };
    let (blocking_enabled, j4) = match crate::json::parse_bool_exec(&chars, i4) {
        Some(p) => p,
        None => {
            return None;
        },
    };
    let i5 = match crate::json::expect_lit(&chars, j4, "\ndomains = [") {
        Some(e) => e,
        None => {
            return None;
        },
    };
    let (domains, j5) = match parse_strlist_exec(&chars, i5) {
        Some(p) => p,
        None => {
            return None;
        },
    };
    let i6 = match crate::json::expect_lit(&chars, j5, "\n\n[schedule]\nenabled = ") {
        Some(e) => e,
        None => {
            return None;
        },
    };
    let (schedule_enabled, j6) = match crate::json::parse_bool_exec(&chars, i6) {
        Some(p) => p,
        None => {
            return None;
        },
    };
    if j6 >= chars.len() || chars[j6] != '\n' {
        return None;
    }
    let (rules, j7) = match parse_rules_toml_exec(&chars, j6 + 1) {
        Some(p) => p,
        None => {
            return None;
        },
    };
    let iq = match crate::json::expect_lit(&chars, j7, "\n[quiz]\nnum_questions = ") {
        Some(e) => e,
        None => {
            return None;
        },
    };
    let (num_questions, jq1) = match crate::json::parse_nat_limited(&chars, iq, 0xffffffff) {
        Some(p) => p,
        None => {
            proof {
                if spec_parse_nat(chars@, iq as int) is Some {
                    assert((spec_parse_nat(chars@, iq as int)->0).0 > 0xffffffff);
                }
            }
            return None;
        },
    };
    let iq2 = match crate::json::expect_lit(&chars, jq1, "\nmin_operand = ") {
        Some(e) => e,
        None => {
            return None;
        },
    };
    let (min_operand, jq2) = match crate::json::parse_i32_exec(&chars, iq2) {
        Some(p) => p,
        None => {
            return None;
        },
    };
    let iq3 = match crate::json::expect_lit(&chars, jq2, "\nmax_operand = ") {
        Some(e) => e,
        None => {
            return None;
        },
    };
    let (max_operand, jq3) = match crate::json::parse_i32_exec(&chars, iq3) {
        Some(p) => p,
        None => {
            return None;
        },
    };
    let iq4 = match crate::json::expect_lit(&chars, jq3, "\ntimeout_seconds = ") {
        Some(e) => e,
        None => {
            return None;
        },
    };
    let (timeout_seconds, jq4) = match crate::json::parse_nat_limited(&chars, iq4, 0xffffffff) {
        Some(p) => p,
        None => {
            proof {
                if spec_parse_nat(chars@, iq4 as int) is Some {
                    assert((spec_parse_nat(chars@, iq4 as int)->0).0 > 0xffffffff);
                }
            }
            return None;
        },
    };
    let iq5 = match crate::json::expect_lit(&chars, jq4, "\nmin_solve_seconds = ") {
        Some(e) => e,
        None => {
            return None;
        },
    };
    let (min_solve_seconds, jq5) = match crate::json::parse_nat_limited(&chars, iq5, 0xffffffff) {
        Some(p) => p,
        None => {
            proof {
                if spec_parse_nat(chars@, iq5 as int) is Some {
                    assert((spec_parse_nat(chars@, iq5 as int)->0).0 > 0xffffffff);
                }
            }
            return None;
        },
    };
    if !(chars.len() >= 1 && jq5 == chars.len() - 1 && chars[jq5] == '\n') {
        return None;
    }
    let c = Config {
        dns: DnsConfig {
            upstream,
            listen_address,
            listen_port: listen_port as u16,
        },
        blocking: BlockingConfig { enabled: blocking_enabled, domains },
        schedule: Schedule { enabled: schedule_enabled, rules },
        quiz: QuizConfig {
            num_questions: num_questions as u32,
            min_operand,
            max_operand,
            timeout_seconds: timeout_seconds as u32,
            min_solve_seconds: min_solve_seconds as u32,
        },
    };
    proof {
        assert(schedule_wf(c.schedule)) by {
            assert(crate::json::rules_wf(c.schedule.rules@));
            assert forall|i: int|
                0 <= i < c.schedule.rules@.len() implies (
            #[trigger] c.schedule.rules@[i].start_time).wf()
                && c.schedule.rules@[i].end_time.wf() by {
                assert(c.schedule.rules@[i].start_time.wf()
                    && c.schedule.rules@[i].end_time.wf());
            }
        }
        assert(spec_parse_config(chars@) == Some(config_model(c)));
    }
    Some(c)
}

} // verus!

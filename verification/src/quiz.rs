//! Quiz generation and validation engine.
//!
//! A challenge is a list of arithmetic questions; its expected
//! answers wait in a pending table keyed by an opaque challenge id.
//! Validation is destructive: the entry is consumed on every
//! outcome, so a failed attempt invalidates the challenge.

use vstd::prelude::*;

use crate::clock::wall_clock_seconds;
use crate::config::QuizConfig;
use crate::text::{int_string, push_char, str_eq};

verus! {

/// Quiz challenge for bypass requests.
pub struct QuizChallenge {
    /// Unique challenge ID.
    pub challenge_id: String,
    /// Questions to display (e.g., "23 + 45 = ?").
    pub questions: Vec<String>,
    /// Unix timestamp when this challenge expires.
    pub expires_at: i64,
}

/// Quiz validation errors.
#[derive(Debug, Clone, Copy, PartialEq, Eq, Structural)]
pub enum QuizError {
    /// Challenge not found.
    NotFound,
    /// Challenge has expired.
    Expired,
    /// Quiz was solved too quickly (possible automation).
    TooFast,
    /// Wrong number of answers provided.
    WrongAnswerCount,
    /// One or more answers are incorrect.
    WrongAnswer,
}

/// The message text reported for each quiz verdict.
pub open spec fn quiz_error_text(e: QuizError) -> Seq<char> {
    match e {
        QuizError::NotFound => "Quiz challenge not found"@,
        QuizError::Expired => "Quiz challenge has expired"@,
        QuizError::TooFast => "Quiz was solved too quickly"@,
        QuizError::WrongAnswerCount => "Wrong number of answers"@,
        QuizError::WrongAnswer => "One or more answers are incorrect"@,
    }
}

impl QuizError {
    /// A short message naming the error.
    pub fn message(&self) -> (r: String)
        ensures
            r@ == quiz_error_text(*self),
    {
        match self {
            QuizError::NotFound => String::from_str("Quiz challenge not found"),
            QuizError::Expired => String::from_str("Quiz challenge has expired"),
            QuizError::TooFast => String::from_str("Quiz was solved too quickly"),
            QuizError::WrongAnswerCount => String::from_str("Wrong number of answers"),
            QuizError::WrongAnswer => String::from_str("One or more answers are incorrect"),
        }
    }
}

/// The arithmetic operation of a question.
#[derive(Debug, Clone, Copy, PartialEq, Eq, Structural)]
pub enum QuizOp {
    Add,
    Sub,
    Mul,
}

/// The operator sign shown in a question.
pub open spec fn op_char(op: QuizOp) -> char {
    match op {
        QuizOp::Add => '+',
        QuizOp::Sub => '-',
        QuizOp::Mul => '\u{d7}',
    }
}

/// What a question looks like: "a <op> b = ?".
pub open spec fn question_display(op: QuizOp, a: int, b: int) -> Seq<char> {
    int_string(a) + seq![' ', op_char(op), ' '] + int_string(b) + seq![' ', '=', ' ', '?']
}

/// The answer to a question.
pub open spec fn question_answer(op: QuizOp, a: int, b: int) -> int {
    match op {
        QuizOp::Add => a + b,
        QuizOp::Sub => a - b,
        QuizOp::Mul => a * b,
    }
}

/// `r` is the integer square root of `n`.
pub open spec fn is_isqrt(n: int, r: int) -> bool {
    r >= 0 && r * r <= n && (r + 1) * (r + 1) > n
}

/// The number whose square root bounds multiplication operands: the
/// maximum operand, or zero when that is negative.
pub open spec fn mul_source(cfg: QuizConfig) -> int {
    if cfg.max_operand >= 0 {
        cfg.max_operand as int
    } else {
        0
    }
}

/// `bound` is the multiplication operand bound for the configuration:
/// the integer square root of the maximum operand (zero when that is
/// negative), raised to at least 12.
pub open spec fn valid_mul_bound(cfg: QuizConfig, bound: int) -> bool {
    exists|r: int|
        #[trigger] is_isqrt(mul_source(cfg), r) && bound == (if r > 12 {
            r
        } else {
            12
        })
}

/// The operand ranges each operation draws from: addition and
/// subtraction between the configured bounds (subtraction keeps the
/// result non-negative), multiplication over small operands.
pub open spec fn valid_draw(cfg: QuizConfig, op: QuizOp, a: int, b: int) -> bool {
    match op {
        QuizOp::Add => cfg.min_operand <= a <= cfg.max_operand && cfg.min_operand <= b
            <= cfg.max_operand,
        QuizOp::Sub => cfg.min_operand <= a <= cfg.max_operand && cfg.min_operand <= b <= a,
        QuizOp::Mul => exists|bound: int|
            valid_mul_bound(cfg, bound) && 2 <= a <= bound && 2 <= b <= bound,
    }
}

/// A displayed question together with its stored answer: some
/// in-range draw produces exactly this display, and the stored answer
/// is the true result of the displayed arithmetic.
pub open spec fn question_consistent(cfg: QuizConfig, display: Seq<char>, answer: int) -> bool {
    exists|op: QuizOp, a: int, b: int|
        valid_draw(cfg, op, a, b) && display == question_display(op, a, b) && answer
            == question_answer(op, a, b)
}

/// What the daemon remembers about one in-flight challenge.
pub struct PendingInfo {
    /// The challenge id.
    pub id: Seq<char>,
    /// The expected answers, in question order.
    pub answers: Seq<i32>,
    /// The wall-clock expiry shared with the issued challenge.
    pub expires_at: i64,
}

/// The verdict on a submission, given the expected answers, the
/// stored expiry, the minimum solve time, the wall clock and the
/// elapsed monotonic seconds: expiry is checked first, then the
/// anti-automation floor, then the answer count, then the answers.
pub open spec fn spec_evaluate(
    expected: Seq<i32>,
    given: Seq<i32>,
    expires_at: i64,
    min_solve: u32,
    now: i64,
    elapsed: u64,
) -> Result<(), QuizError> {
    if now > expires_at {
        Err(QuizError::Expired)
    } else if (elapsed as int) < (min_solve as int) {
        Err(QuizError::TooFast)
    } else if given.len() != expected.len() {
        Err(QuizError::WrongAnswerCount)
    } else if exists|i: int| 0 <= i < expected.len() && expected[i] != given[i] {
        Err(QuizError::WrongAnswer)
    } else {
        Ok(())
    }
}

/// Judges a submission against the expected answers and the recorded
/// times.
pub fn evaluate_submission(
    expected: &Vec<i32>,
    given: &[i32],
    expires_at: i64,
    min_solve: u32,
    now: i64,
    elapsed: u64,
) -> (r: Result<(), QuizError>)
    ensures
        r == spec_evaluate(expected@, given@, expires_at, min_solve, now, elapsed),
{
    if now > expires_at {
        return Err(QuizError::Expired);
    }
    if elapsed < min_solve as u64 {
        return Err(QuizError::TooFast);
    }
    if given.len() != expected.len() {
        return Err(QuizError::WrongAnswerCount);
    }
    let n = expected.len();
    let mut i: usize = 0;
    while i < n
        invariant
            n == expected@.len(),
            given@.len() == n,
            i <= n,
            now <= expires_at,
            elapsed >= min_solve as u64,
            forall|j: int| 0 <= j < i ==> expected@[j] == given@[j],
        decreases n - i,
    {
        if expected[i] != given[i] {
            return Err(QuizError::WrongAnswer);
        }
        i = i + 1;
    }
    Ok(())
}

/// A correct submission below the anti-automation floor is rejected
/// as too fast, whatever the answers are.
pub proof fn lemma_too_fast_wins(
    expected: Seq<i32>,
    given: Seq<i32>,
    expires_at: i64,
    min_solve: u32,
    now: i64,
    elapsed: u64,
)
    requires
        now <= expires_at,
        (elapsed as int) < (min_solve as int),
    ensures
        spec_evaluate(expected, given, expires_at, min_solve, now, elapsed) == Err::<
            (),
            QuizError,
        >(QuizError::TooFast),
{
}

/// The index of the pending entry with the given id.
pub open spec fn find_pending(s: Seq<PendingInfo>, id: Seq<char>) -> Option<int>
    decreases s.len(),
{
    if s.len() == 0 {
        None
    } else if s[0].id == id {
        Some(0)
    } else {
        match find_pending(s.drop_first(), id) {
            Some(i) => Some(i + 1),
            None => None,
        }
    }
}

/// Some entry carries the given id.
pub open spec fn has_id(s: Seq<PendingInfo>, id: Seq<char>) -> bool {
    exists|i: int| 0 <= i < s.len() && s[i].id == id
}

/// The found index is the first one carrying the searched id, and an
/// index is found exactly when some entry carries the id.
pub proof fn lemma_find_pending_props(s: Seq<PendingInfo>, id: Seq<char>)
    ensures
        find_pending(s, id) is Some <==> has_id(s, id),
        find_pending(s, id) matches Some(i) ==> 0 <= i < s.len() && s[i].id == id && forall|
            j: int,
        | 0 <= j < i ==> s[j].id != id,
    decreases s.len(),
{
    if s.len() == 0 {
    } else if s[0].id == id {
    } else {
        lemma_find_pending_props(s.drop_first(), id);
        if find_pending(s.drop_first(), id) is None {
            assert forall|i: int| 0 <= i < s.len() implies s[i].id != id by {
                if i > 0 {
                    assert(s.drop_first()[i - 1] == s[i]);
                }
            }
        } else {
            let i = find_pending(s.drop_first(), id)->0;
            assert(s.drop_first()[i] == s[i + 1]);
            assert forall|j: int| 0 <= j < i + 1 implies s[j].id != id by {
                if j > 0 {
                    assert(s.drop_first()[j - 1] == s[j]);
                }
            }
        }
    }
}

/// Insertion into the pending table: any entry carrying the same id
/// leaves, and the new entry goes to the back.
pub open spec fn insert_model(s: Seq<PendingInfo>, e: PendingInfo) -> Seq<PendingInfo> {
    match find_pending(s, e.id) {
        Some(i) => s.remove(i).push(e),
        None => s.push(e),
    }
}

/// No two pending entries share an id.
pub open spec fn distinct_ids(s: Seq<PendingInfo>) -> bool {
    forall|i: int, j: int| 0 <= i < j < s.len() ==> s[i].id != s[j].id
}

/// Consuming a found entry removes the id from the table: a second
/// lookup of the same id finds nothing.
pub proof fn lemma_validation_consumes(s: Seq<PendingInfo>, id: Seq<char>, i: int)
    requires
        distinct_ids(s),
        0 <= i < s.len(),
        s[i].id == id,
    ensures
        find_pending(s.remove(i), id) is None,
{
    lemma_find_pending_props(s.remove(i), id);
    assert forall|j: int| 0 <= j < s.remove(i).len() implies s.remove(i)[j].id != id by {
        if j < i {
            assert(s.remove(i)[j] == s[j]);
        } else {
            assert(s.remove(i)[j] == s[j + 1]);
        }
    }
}

/// Removing an entry keeps the ids distinct.
pub proof fn lemma_distinct_remove(s: Seq<PendingInfo>, i: int)
    requires
        distinct_ids(s),
        0 <= i < s.len(),
    ensures
        distinct_ids(s.remove(i)),
{
    assert forall|a: int, b: int| 0 <= a < b < s.remove(i).len() implies s.remove(i)[a].id
        != s.remove(i)[b].id by {
        let a0: int = if a < i {
            a
        } else {
            a + 1
        };
        let b0: int = if b < i {
            b
        } else {
            b + 1
        };
        assert(s.remove(i)[a] == s[a0]);
        assert(s.remove(i)[b] == s[b0]);
    }
}

/// The pending entries that survive a sweep at the given instant:
/// those whose expiry is still in the future, in order.
pub open spec fn purge_expired(s: Seq<PendingInfo>, now: int) -> Seq<PendingInfo>
    decreases s.len(),
{
    if s.len() == 0 {
        s
    } else if s[0].expires_at > now {
        seq![s[0]] + purge_expired(s.drop_first(), now)
    } else {
        purge_expired(s.drop_first(), now)
    }
}

/// A sweep keeps ids distinct and introduces no id.
pub proof fn lemma_purge_props(s: Seq<PendingInfo>, now: int)
    ensures
        forall|id: Seq<char>| #[trigger] has_id(purge_expired(s, now), id) ==> has_id(s, id),
        distinct_ids(s) ==> distinct_ids(purge_expired(s, now)),
    decreases s.len(),
{
    if s.len() == 0 {
        return ;
    }
    let rest = s.drop_first();
    lemma_purge_props(rest, now);
    assert forall|id: Seq<char>| #[trigger] has_id(purge_expired(s, now), id) implies has_id(
        s,
        id,
    ) by {
        let p = purge_expired(s, now);
        let k = choose|k: int| 0 <= k < p.len() && p[k].id == id;
        if s[0].expires_at > now {
            if k == 0 {
                assert(s[0].id == id);
            } else {
                assert(p[k] == purge_expired(rest, now)[k - 1]);
                assert(has_id(purge_expired(rest, now), id));
                let m = choose|m: int|
                    0 <= m < rest.len() && rest[m].id == id;
                assert(s[m + 1].id == id);
            }
        } else {
            assert(p[k] == purge_expired(rest, now)[k]);
            assert(has_id(purge_expired(rest, now), id));
            let m = choose|m: int| 0 <= m < rest.len() && rest[m].id == id;
            assert(s[m + 1].id == id);
        }
    }
    if distinct_ids(s) {
        assert(distinct_ids(rest)) by {
            assert forall|a: int, b: int| 0 <= a < b < rest.len() implies rest[a].id
                != rest[b].id by {
                assert(rest[a] == s[a + 1]);
                assert(rest[b] == s[b + 1]);
            }
        }
        let p = purge_expired(s, now);
        if s[0].expires_at > now {
            let pr = purge_expired(rest, now);
            assert forall|a: int, b: int| 0 <= a < b < p.len() implies p[a].id != p[b].id by {
                if a == 0 {
                    assert(p[b] == pr[b - 1]);
                    if p[0].id == p[b].id {
                        assert(has_id(pr, s[0].id));
                        let m = choose|m: int| 0 <= m < rest.len() && rest[m].id == s[0].id;
                        assert(s[m + 1].id == s[0].id);
                        assert(false);
                    }
                } else {
                    assert(p[a] == pr[a - 1]);
                    assert(p[b] == pr[b - 1]);
                }
            }
        }
    }
}

/// Relies on `rand::thread_rng` and `Rng::gen_range` over the
/// inclusive range `lo..=hi`: the sample lies in the range.  The
/// precondition keeps the range non-empty; `gen_range` panics on an
/// empty one.
#[verifier::external_body]
fn rand_i32_inclusive(lo: i32, hi: i32) -> (r: i32)
    requires
        lo <= hi,
    ensures
        lo <= r <= hi,
{
    rand::Rng::gen_range(&mut rand::thread_rng(), lo..=hi)
}

/// Relies on `uuid::Uuid::new_v4` and its hyphenated rendering
/// through `Display`: 36 characters; the value is random.
#[verifier::external_body]
fn fresh_challenge_id() -> (r: String)
    ensures
        r@.len() == 36,
{
    uuid::Uuid::new_v4().to_string()
}

/// The integer square root.
fn isqrt(n: i32) -> (r: i32)
    requires
        n >= 0,
    ensures
        is_isqrt(n as int, r as int),
        0 <= r <= 46340,
{
    let n64 = n as i64;
    let mut r: i64 = 0;
    let mut next_sq: i64 = 1;
    while next_sq <= n64
        invariant
            0 <= r <= 46340,
            n64 == n as i64,
            n >= 0,
            r * r <= n64,
            next_sq == (r + 1) * (r + 1),
        decreases n64 - r,
    {
        r = r + 1;
        proof {
            assert(r <= 46340) by (nonlinear_arith)
                requires
                    (r as int) * (r as int) <= n64 as int,
                    n64 <= 0x7fffffff,
                    r >= 1,
            ;
            assert(((r + 1) as int) * ((r + 1) as int) == (r as int) * (r as int) + 2 * (
            r as int) + 1) by (nonlinear_arith);
            assert(r <= n64) by (nonlinear_arith)
                requires
                    (r as int) * (r as int) <= n64 as int,
                    r >= 1,
            ;
        }
        next_sq = next_sq + 2 * r + 1;
    }
    r as i32
}

/// Renders "a <op> b = ?".
fn build_display(a: i32, b: i32, opc: char) -> (r: String)
    ensures
        r@ == int_string(a as int) + seq![' ', opc, ' '] + int_string(b as int) + seq![
            ' ',
            '=',
            ' ',
            '?',
        ],
{
    let mut s = crate::text::fmt_i64(a as i64);
    push_char(&mut s, ' ');
    push_char(&mut s, opc);
    push_char(&mut s, ' ');
    let bs = crate::text::fmt_i64(b as i64);
    s.append(bs.as_str());
    push_char(&mut s, ' ');
    push_char(&mut s, '=');
    push_char(&mut s, ' ');
    push_char(&mut s, '?');
    proof {
        assert(s@ =~= int_string(a as int) + seq![' ', opc, ' '] + int_string(b as int) + seq![
            ' ',
            '=',
            ' ',
            '?',
        ]);
    }
    s
}

/// Draws one arithmetic question: a uniform choice among addition,
/// subtraction and multiplication, with operands in the configured
/// ranges; returns the display string and its true answer.
fn generate_question(cfg: &QuizConfig) -> (r: (String, i32))
    requires
        cfg.operands_wf(),
    ensures
        question_consistent(*cfg, r.0@, r.1 as int),
{
    let sel = rand_i32_inclusive(0, 2);
    if sel == 0 {
        let a = rand_i32_inclusive(cfg.min_operand, cfg.max_operand);
        let b = rand_i32_inclusive(cfg.min_operand, cfg.max_operand);
        let ans = a + b;
        let s = build_display(a, b, '+');
        proof {
            assert(valid_draw(*cfg, QuizOp::Add, a as int, b as int));
            assert(s@ == question_display(QuizOp::Add, a as int, b as int));
            assert(question_consistent(*cfg, s@, ans as int));
        }
        (s, ans)
    } else if sel == 1 {
        let a = rand_i32_inclusive(cfg.min_operand, cfg.max_operand);
        let b = rand_i32_inclusive(cfg.min_operand, a);
        let ans = a - b;
        let s = build_display(a, b, '-');
        proof {
            assert(valid_draw(*cfg, QuizOp::Sub, a as int, b as int));
            assert(s@ == question_display(QuizOp::Sub, a as int, b as int));
            assert(question_consistent(*cfg, s@, ans as int));
        }
        (s, ans)
    } else {
        let base = if cfg.max_operand >= 0 {
            cfg.max_operand
        } else {
            0
        };
        let s0 = isqrt(base);
        let bound = if s0 > 12 {
            s0
        } else {
            12
        };
        proof {
            assert(is_isqrt(mul_source(*cfg), s0 as int));
            assert(valid_mul_bound(*cfg, bound as int));
        }
        let a = rand_i32_inclusive(2, bound);
        let b = rand_i32_inclusive(2, bound);
        proof {
            assert((a as int) * (b as int) <= (bound as int) * (bound as int))
                by (nonlinear_arith)
                requires
                    2 <= a as int <= bound as int,
                    2 <= b as int <= bound as int,
            ;
            assert((bound as int) * (bound as int) <= 46340 * 46340) by (nonlinear_arith)
                requires
                    0 <= bound as int <= 46340,
            ;
            assert((a as int) * (b as int) >= 0) by (nonlinear_arith)
                requires
                    a as int >= 2,
                    b as int >= 2,
            ;
        }
        let ans = a * b;
        let s = build_display(a, b, '\u{d7}');
        proof {
            assert(valid_draw(*cfg, QuizOp::Mul, a as int, b as int));
            assert(s@ == question_display(QuizOp::Mul, a as int, b as int));
            assert(question_consistent(*cfg, s@, ans as int));
        }
        (s, ans)
    }
}

/// Pending quiz challenge waiting for answers.
struct PendingChallenge {
    id: String,
    answers: Vec<i32>,
    created_at: std::time::Instant,
    expires_at: i64,
}

impl PendingChallenge {
    /// What the entry records, as plain values.
    spec fn model(&self) -> PendingInfo {
        PendingInfo { id: self.id@, answers: self.answers@, expires_at: self.expires_at }
    }
}

/// The plain-value model of a pending table.
spec fn pending_model(s: Seq<PendingChallenge>) -> Seq<PendingInfo> {
    Seq::new(s.len(), |i: int| s[i].model())
}

/// Quiz engine for generating and validating arithmetic challenges.
pub struct QuizEngine {
    config: QuizConfig,
    pending: Vec<PendingChallenge>,
}

impl View for QuizEngine {
    type V = Seq<PendingInfo>;

    closed spec fn view(&self) -> Seq<PendingInfo> {
        pending_model(self.pending@)
    }
}

impl QuizEngine {
    /// The configuration in force.
    pub closed spec fn spec_config(&self) -> QuizConfig {
        self.config
    }

    /// No two in-flight challenges share an id.
    pub open spec fn wf(&self) -> bool {
        distinct_ids(self@)
    }

    /// Create a new quiz engine.
    pub fn new(config: QuizConfig) -> (r: QuizEngine)
        ensures
            r.spec_config() == config,
            r@.len() == 0,
            r.wf(),
    {
        QuizEngine { config, pending: Vec::new() }
    }

    /// Update the quiz configuration.
    pub fn update_config(&mut self, config: QuizConfig)
        ensures
            final(self).spec_config() == config,
            final(self)@ == old(self)@,
    {
        self.config = config;
        proof {
            assert(self@ =~= old(self)@);
        }
    }

    /// The configuration in force.
    pub fn config(&self) -> (r: QuizConfig)
        ensures
            r == self.spec_config(),
    {
        self.config
    }

    /// The index of the pending entry carrying the id, if any.
    fn find_index(&self, challenge_id: &str) -> (r: Option<usize>)
        ensures
            r is Some <==> find_pending(self@, challenge_id@) is Some,
            r matches Some(i) ==> find_pending(self@, challenge_id@) == Some(i as int),
    {
        proof {
            lemma_find_pending_props(self@, challenge_id@);
        }
        let n = self.pending.len();
        let mut i: usize = 0;
        while i < n
            invariant
                n == self.pending@.len(),
                i <= n,
                forall|j: int| 0 <= j < i ==> self@[j].id != challenge_id@,
            decreases n - i,
        {
            proof {
                assert(self@[i as int].id == self.pending@[i as int].id@);
            }
            if str_eq(self.pending[i].id.as_str(), challenge_id) {
                proof {
                    lemma_find_pending_props(self@, challenge_id@);
                    assert(self@[i as int].id == challenge_id@);
                    let k = find_pending(self@, challenge_id@)->0;
                    if k < i as int {
                        assert(self@[k].id != challenge_id@);
                        assert(false);
                    }
                    if k > i as int {
                        assert(self@[i as int].id != challenge_id@);
                        assert(false);
                    }
                }
                return Some(i);
            }
            i = i + 1;
        }
        proof {
            lemma_find_pending_props(self@, challenge_id@);
        }
        None
    }

    /// Validate quiz answers.  The pending entry is consumed on every
    /// outcome; an absent id reports `NotFound`; otherwise the
    /// submission is judged against the stored answers, the stored
    /// expiry under the wall clock, and the minimum solve time under
    /// the monotonic clock.
    pub fn validate_answers(&mut self, challenge_id: &str, answers: &[i32]) -> (r: Result<
        (),
        QuizError,
    >)
        requires
            old(self).wf(),
        ensures
            final(self).wf(),
            final(self).spec_config() == old(self).spec_config(),
            find_pending(old(self)@, challenge_id@) is None ==> r == Err::<(), QuizError>(
                QuizError::NotFound,
            ) && final(self)@ == old(self)@,
            find_pending(old(self)@, challenge_id@) matches Some(i) ==> final(self)@
                == old(self)@.remove(i) && exists|now: i64, elapsed: u64|
                r == spec_evaluate(
                    old(self)@[i].answers,
                    answers@,
                    old(self)@[i].expires_at,
                    old(self).spec_config().min_solve_seconds,
                    now,
                    elapsed,
                ),
    {
        let found = self.find_index(challenge_id);
        match found {
            None => Err(QuizError::NotFound),
            Some(i) => {
                proof {
                    lemma_find_pending_props(self@, challenge_id@);
                    lemma_distinct_remove(self@, i as int);
                }
                let entry = self.pending.remove(i);
                proof {
                    assert(self@ =~= old(self)@.remove(i as int));
                    assert(entry.model() == old(self)@[i as int]);
                }
                let now = wall_clock_seconds();
                let elapsed = entry.created_at.elapsed().as_secs();
                let r = evaluate_submission(
                    &entry.answers,
                    answers,
                    entry.expires_at,
                    self.config.min_solve_seconds,
                    now,
                    elapsed,
                );
                proof {
                    assert(r == spec_evaluate(
                        old(self)@[i as int].answers,
                        answers@,
                        old(self)@[i as int].expires_at,
                        old(self).spec_config().min_solve_seconds,
                        now,
                        elapsed,
                    ));
                }
                r
            },
        }
    }

    /// Drops every pending entry whose expiry is past.
    fn cleanup_expired(&mut self, now: i64)
        requires
            old(self).wf(),
        ensures
            final(self).wf(),
            final(self).spec_config() == old(self).spec_config(),
            final(self)@ == purge_expired(old(self)@, now as int),
    {
        let ghost orig: Seq<PendingInfo> = self@;
        let mut kept: Vec<PendingChallenge> = Vec::new();
        proof {
            assert(orig.skip(0) =~= orig);
        }
        while self.pending.len() > 0
            invariant
                pending_model(kept@) + purge_expired(self@, now as int) == purge_expired(
                    orig,
                    now as int,
                ),
                self.config == old(self).config,
            decreases self.pending@.len(),
        {
            let ghost before: Seq<PendingInfo> = self@;
            let e = self.pending.remove(0);
            proof {
                assert(e.model() == before[0]);
                assert(self@ =~= before.drop_first());
            }
            if e.expires_at > now {
                let ghost kept_before = pending_model(kept@);
                kept.push(e);
                proof {
                    assert(pending_model(kept@) =~= kept_before.push(before[0]));
                    assert(seq![before[0]] + purge_expired(self@, now as int)
                        == purge_expired(before, now as int));
                    assert(pending_model(kept@) + purge_expired(self@, now as int)
                        =~= kept_before + purge_expired(before, now as int));
                }
            } else {
                proof {
                    assert(purge_expired(self@, now as int) == purge_expired(
                        before,
                        now as int,
                    ));
                }
            }
        }
        self.pending = kept;
        proof {
            assert(purge_expired(Seq::<PendingInfo>::empty(), now as int).len() == 0);
            assert(pending_model(kept@) + purge_expired(
                Seq::<PendingInfo>::empty(),
                now as int,
            ) =~= pending_model(kept@));
            assert(self@ == purge_expired(orig, now as int));
            lemma_purge_props(orig, now as int);
        }
    }

    /// Stores an entry, replacing any entry that carries the same id.
    fn insert_pending(&mut self, entry: PendingChallenge)
        requires
            old(self).wf(),
        ensures
            final(self).wf(),
            final(self).spec_config() == old(self).spec_config(),
            final(self)@ == insert_model(old(self)@, entry.model()),
            has_id(final(self)@, entry.id@),
            forall|k: int|
                0 <= k < final(self)@.len() && final(self)@[k].id == entry.id@
                    ==> final(self)@[k] == entry.model(),
    {
        let found = self.find_index(entry.id.as_str());
        match found {
            Some(i) => {
                proof {
                    lemma_find_pending_props(self@, entry.id@);
                    lemma_distinct_remove(self@, i as int);
                    lemma_validation_consumes(self@, entry.id@, i as int);
                }
                let _ = self.pending.remove(i);
                proof {
                    assert(self@ =~= old(self)@.remove(i as int));
                }
            },
            None => {},
        }
        proof {
            lemma_find_pending_props(self@, entry.id@);
            assert(!has_id(self@, entry.id@));
        }
        let ghost before: Seq<PendingInfo> = self@;
        let ghost m = entry.model();
        self.pending.push(entry);
        proof {
            assert(self@ =~= before.push(m));
            assert forall|k: int|
                0 <= k < self@.len() && self@[k].id == m.id implies self@[k] == m by {
                if k < before.len() {
                    assert(self@[k] == before[k]);
                    assert(!has_id(before, m.id));
                    assert(false);
                }
            }
            assert forall|a: int, b: int| 0 <= a < b < self@.len() implies self@[a].id
                != self@[b].id by {
                if b < before.len() {
                    assert(self@[a] == before[a]);
                    assert(self@[b] == before[b]);
                } else {
                    assert(self@[b] == m);
                    assert(self@[a] == before[a]);
                    if before[a].id == m.id {
                        assert(has_id(before, m.id));
                        assert(false);
                    }
                }
            }
            assert(has_id(self@, m.id)) by {
                assert(self@[before.len() as int].id == m.id);
            }
            assert(self@ == insert_model(old(self)@, m));
        }
    }

    /// Generate a new quiz challenge: sweep expired entries, draw the
    /// configured number of questions, and remember the expected
    /// answers under a fresh id together with the expiry and the
    /// monotonic issue instant.
    pub fn generate_challenge(&mut self) -> (r: QuizChallenge)
        requires
            old(self).wf(),
            old(self).spec_config().operands_wf(),
        ensures
            final(self).wf(),
            final(self).spec_config() == old(self).spec_config(),
            r.questions@.len() == old(self).spec_config().num_questions,
            r.challenge_id@.len() == 36,
            has_id(final(self)@, r.challenge_id@),
            forall|k: int|
                0 <= k < final(self)@.len() && final(self)@[k].id == r.challenge_id@ ==> {
                    &&& final(self)@[k].expires_at == r.expires_at
                    &&& final(self)@[k].answers.len() == r.questions@.len()
                    &&& forall|q: int|
                        0 <= q < r.questions@.len() ==> question_consistent(
                            old(self).spec_config(),
                            r.questions@[q]@,
                            final(self)@[k].answers[q] as int,
                        )
                },
            exists|now: i64|
                r.expires_at as int == (#[trigger] crate::text::sat_add_i64(
                    now as int,
                    old(self).spec_config().timeout_seconds as int,
                )) && exists|entry: PendingInfo|
                    {
                        &&& entry.id == r.challenge_id@
                        &&& entry.expires_at == r.expires_at
                        &&& entry.answers.len() == r.questions@.len()
                        &&& (forall|q: int|
                            0 <= q < r.questions@.len() ==> question_consistent(
                                old(self).spec_config(),
                                r.questions@[q]@,
                                entry.answers[q] as int,
                            ))
                        &&& final(self)@ == #[trigger] insert_model(
                            purge_expired(old(self)@, now as int),
                            entry,
                        )
                    },
    {
        let now = wall_clock_seconds();
        self.cleanup_expired(now);
        let nq = self.config.num_questions;
        let mut questions: Vec<String> = Vec::new();
        let mut answers: Vec<i32> = Vec::new();
        let mut i: u32 = 0;
        while i < nq
            invariant
                i <= nq,
                nq == self.spec_config().num_questions,
                self.spec_config() == old(self).spec_config(),
                self.wf(),
                self@ == purge_expired(old(self)@, now as int),
                self.spec_config().operands_wf(),
                questions@.len() == i,
                answers@.len() == i,
                forall|q: int|
                    0 <= q < i ==> question_consistent(
                        self.spec_config(),
                        questions@[q]@,
                        answers@[q] as int,
                    ),
            decreases nq - i,
        {
            let (q, a) = generate_question(&self.config);
            questions.push(q);
            answers.push(a);
            i = i + 1;
        }
        let challenge_id = fresh_challenge_id();
        let t = self.config.timeout_seconds as i64;
        let expires_at = if now > i64::MAX - t {
            i64::MAX
        } else {
            now + t
        };
        let created_at = std::time::Instant::now();
        let id_for_entry = challenge_id.clone();
        let ghost answers_model: Seq<i32> = answers@;
        let entry = PendingChallenge { id: id_for_entry, answers, created_at, expires_at };
        proof {
            assert(entry.model().id == challenge_id@);
            assert(entry.model().answers == answers_model);
            assert(entry.model().expires_at == expires_at);
        }
        self.insert_pending(entry);
        let result = QuizChallenge { challenge_id, questions, expires_at };
        proof {
            assert(result.expires_at as int == crate::text::sat_add_i64(
                now as int,
                old(self).spec_config().timeout_seconds as int,
            ));
            let m = PendingInfo {
                id: result.challenge_id@,
                answers: answers_model,
                expires_at: result.expires_at,
            };
            assert(self@ == insert_model(purge_expired(old(self)@, now as int), m));
        }
        result
    }

    /// The expected answers of an in-flight challenge, for the
    /// control surface.
    pub fn expected_answers(&self, challenge_id: &str) -> (r: Option<Vec<i32>>)
        ensures
            r is Some <==> find_pending(self@, challenge_id@) is Some,
            r is Some ==> (find_pending(self@, challenge_id@) matches Some(i) && (r->0)@
                == self@[i].answers),
    {
        let found = self.find_index(challenge_id);
        match found {
            None => None,
            Some(i) => {
                proof {
                    lemma_find_pending_props(self@, challenge_id@);
                    assert(self@.len() == self.pending@.len());
                }
                let src = &self.pending[i].answers;
                let mut out: Vec<i32> = Vec::new();
                let mut k: usize = 0;
                while k < src.len()
                    invariant
                        k <= src@.len(),
                        out@ =~= src@.take(k as int),
                    decreases src@.len() - k,
                {
                    out.push(src[k]);
                    k = k + 1;
                }
                proof {
                    assert(out@ =~= src@);
                    assert(self@[i as int].answers == self.pending@[i as int].answers@);
                }
                Some(out)
            },
        }
    }
}

} // verus!

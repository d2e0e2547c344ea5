//! Configuration data: DNS listener settings, the blocking list, the
//! schedule and the quiz settings.

use vstd::prelude::*;

use crate::schedule::Schedule;

verus! {

/// DNS server configuration.
pub struct DnsConfig {
    /// Upstream DNS servers (advisory; the resolver uses its fixed
    /// upstream).
    pub upstream: Vec<String>,
    /// Address to listen on.
    pub listen_address: String,
    /// Port to listen on.
    pub listen_port: u16,
}

/// Blocking configuration.
pub struct BlockingConfig {
    /// Whether blocking is enabled.
    pub enabled: bool,
    /// List of blocked domains.
    pub domains: Vec<String>,
}

/// Quiz configuration.
#[derive(Debug, Clone, Copy, PartialEq, Eq, Structural)]
pub struct QuizConfig {
    /// Number of questions per quiz.
    pub num_questions: u32,
    /// Minimum operand value.
    pub min_operand: i32,
    /// Maximum operand value.
    pub max_operand: i32,
    /// Quiz timeout in seconds.
    pub timeout_seconds: u32,
    /// Minimum time to solve (anti-automation).
    pub min_solve_seconds: u32,
}

/// Configuration file structure.
pub struct Config {
    pub dns: DnsConfig,
    pub blocking: BlockingConfig,
    pub schedule: Schedule,
    pub quiz: QuizConfig,
}

impl QuizConfig {
    /// Operand bounds under which every question's arithmetic fits in
    /// its type: an ordered range kept to half the machine range.
    pub open spec fn operands_wf(&self) -> bool {
        &&& self.min_operand <= self.max_operand
        &&& -1073741824 <= self.min_operand
        &&& self.max_operand <= 1073741823
    }

    /// Executable check of [`QuizConfig::operands_wf`].
    pub fn check_operands(&self) -> (r: bool)
        ensures
            r == self.operands_wf(),
    {
        self.min_operand <= self.max_operand && self.min_operand >= -1073741824
            && self.max_operand <= 1073741823
    }
}

impl Default for QuizConfig {
    /// Three questions over two-digit operands, a minute to answer,
    /// at least three seconds of thinking.
    fn default() -> (r: QuizConfig)
        ensures
            r.num_questions == 3,
            r.min_operand == 10,
            r.max_operand == 99,
            r.timeout_seconds == 60,
            r.min_solve_seconds == 3,
            r.operands_wf(),
    {
        QuizConfig {
            num_questions: 3,
            min_operand: 10,
            max_operand: 99,
            timeout_seconds: 60,
            min_solve_seconds: 3,
        }
    }
}

impl Default for DnsConfig {
    /// The loopback listener on the DNS port, with two well-known
    /// public resolvers listed upstream.
    fn default() -> (r: DnsConfig)
        ensures
            r.upstream@.len() == 2,
            r.upstream@[0]@ == "1.1.1.1"@,
            r.upstream@[1]@ == "8.8.8.8"@,
            r.listen_address@ == "127.0.0.1"@,
            r.listen_port == 53,
    {
        let mut upstream: Vec<String> = Vec::new();
        upstream.push(String::from_str("1.1.1.1"));
        upstream.push(String::from_str("8.8.8.8"));
        DnsConfig { upstream, listen_address: String::from_str("127.0.0.1"), listen_port: 53 }
    }
}

impl Default for BlockingConfig {
    /// Blocking on, with a starter list of distracting sites.
    fn default() -> (r: BlockingConfig)
        ensures
            r.enabled,
            r.domains@.len() == 5,
            r.domains@[0]@ == "facebook.com"@,
            r.domains@[1]@ == "twitter.com"@,
            r.domains@[2]@ == "instagram.com"@,
            r.domains@[3]@ == "reddit.com"@,
            r.domains@[4]@ == "tiktok.com"@,
    {
        let mut domains: Vec<String> = Vec::new();
        domains.push(String::from_str("facebook.com"));
        domains.push(String::from_str("twitter.com"));
        domains.push(String::from_str("instagram.com"));
        domains.push(String::from_str("reddit.com"));
        domains.push(String::from_str("tiktok.com"));
        BlockingConfig { enabled: true, domains }
    }
}

impl Default for Schedule {
    /// Scheduling off, no rules.
    fn default() -> (r: Schedule)
        ensures
            !r.enabled,
            r.rules@.len() == 0,
    {
        Schedule { enabled: false, rules: Vec::new() }
    }
}

impl Default for Config {
    /// The default of every section.
    fn default() -> (r: Config)
        ensures
            r.quiz.num_questions == 3,
            r.quiz.min_operand == 10,
            r.quiz.max_operand == 99,
            r.quiz.timeout_seconds == 60,
            r.quiz.min_solve_seconds == 3,
            !r.schedule.enabled,
            r.schedule.rules@.len() == 0,
            r.blocking.enabled,
            r.blocking.domains@.len() == 5,
            r.dns.listen_port == 53,
    {
        Config {
            dns: DnsConfig::default(),
            blocking: BlockingConfig::default(),
            schedule: Schedule::default(),
            quiz: QuizConfig::default(),
        }
    }
}

} // verus!

//! Domain normalization and blocklist matching.
//!
//! A domain entering the blocklist or the matcher is normalized:
//! lower-cased, surrounding whitespace trimmed, trailing dots
//! stripped.  A query `q` is blocked by an entry `b` when the
//! normalized query equals `b` or ends with `"." + b`.

use vstd::prelude::*;

use crate::text::{
    char_at, is_space, str_eq, is_space_char, lemma_lower_char_shape, lemma_strip_dots_take,
    lemma_trim_leading_skip, lemma_trim_trailing_take, lower_char, lower_chars, push_char,
    strip_trailing_dots, trim_trailing, trim_leading,
};

verus! {

/// What normalization means: lower-case, then trim surrounding
/// whitespace, then strip trailing dots.
pub open spec fn normalize_spec(s: Seq<char>) -> Seq<char> {
    strip_trailing_dots(trim_trailing(trim_leading(lower_chars(s))))
}

/// `q` ends with the string `"." + b`.
pub open spec fn is_dot_suffix(q: Seq<char>, b: Seq<char>) -> bool {
    q.len() > b.len() && q.skip(q.len() - b.len() - 1) == seq!['.'] + b
}

/// An already-normalized query matches an entry exactly or as a
/// subdomain.
pub open spec fn domain_matches(q: Seq<char>, b: Seq<char>) -> bool {
    q == b || is_dot_suffix(q, b)
}

/// A query is blocked by a list of entries when some entry matches
/// its normalized form.
pub open spec fn blocked_by(entries: Seq<Seq<char>>, q: Seq<char>) -> bool {
    exists|i: int| 0 <= i < entries.len() && domain_matches(normalize_spec(q), entries[i])
}

/// Normalization is idempotent for every name whose normalized form
/// does not end in whitespace.  (Stripping trailing dots can expose
/// whitespace that the trim already passed over, as in "a ."; such
/// names are the only exception.)
pub proof fn lemma_normalize_idempotent(s: Seq<char>)
    requires
        normalize_spec(s).len() > 0 ==> !is_space(normalize_spec(s).last()),
    ensures
        normalize_spec(normalize_spec(s)) == normalize_spec(s),
{
    let t = lower_chars(s);
    let t1 = trim_leading(t);
    let t2 = trim_trailing(t1);
    let r = strip_trailing_dots(t2);
    crate::text::lemma_lower_chars_fixed(s);
    crate::text::lemma_trim_leading_shape(t);
    crate::text::lemma_trim_trailing_shape(t1);
    crate::text::lemma_strip_dots_shape(t2);
    assert(crate::text::is_lowered(t2)) by {
        assert(forall|i: int| 0 <= i < t2.len() ==> t2[i] == t1[i]);
    }
    assert(crate::text::is_lowered(r)) by {
        assert(forall|i: int| 0 <= i < r.len() ==> r[i] == t2[i]);
    }
    crate::text::lemma_lower_chars_fixed(r);
    assert(lower_chars(r) == r);
    assert(trim_leading(r) == r) by {
        if r.len() > 0 {
            assert(r[0] == t2[0]);
            assert(t2[0] == t1[0]);
            assert(!is_space(r[0]));
        }
    }
    assert(trim_trailing(r) == r);
    assert(strip_trailing_dots(r) == r);
}

/// An empty blocklist blocks no query.
pub proof fn lemma_empty_blocklist_blocks_nothing(entries: Seq<Seq<char>>, q: Seq<char>)
    requires
        entries.len() == 0,
    ensures
        !blocked_by(entries, q),
{
}

/// For every raw blocklist and query: a blocker whose entries are the
/// normalized raw names blocks the query exactly when some raw name,
/// after normalization of both sides, equals the normalized query or
/// is a parent domain of it.
pub proof fn lemma_matcher_semantics(
    domains: Seq<Seq<char>>,
    entries: Seq<Seq<char>>,
    q: Seq<char>,
)
    requires
        entries.len() == domains.len(),
        forall|i: int| 0 <= i < domains.len() ==> entries[i] == normalize_spec(domains[i]),
    ensures
        blocked_by(entries, q) <==> exists|i: int|
            0 <= i < domains.len() && domain_matches(
                normalize_spec(q),
                normalize_spec(domains[i]),
            ),
{
    if blocked_by(entries, q) {
        let i = choose|i: int| 0 <= i < entries.len() && domain_matches(
            normalize_spec(q),
            entries[i],
        );
        assert(domain_matches(normalize_spec(q), normalize_spec(domains[i])));
    }
    if exists|i: int|
        0 <= i < domains.len() && domain_matches(normalize_spec(q), normalize_spec(domains[i])) {
        let i = choose|i: int|
            0 <= i < domains.len() && domain_matches(
                normalize_spec(q),
                normalize_spec(domains[i]),
            );
        assert(domain_matches(normalize_spec(q), entries[i]));
    }
}

/// Normalize a domain name for comparison: lower-case it, trim
/// surrounding whitespace, and strip trailing dots.
pub fn normalize_domain(domain: &str) -> (r: String)
    ensures
        r@ == normalize_spec(domain@),
{
    let ghost t: Seq<char> = lower_chars(domain@);
    let n = domain.unicode_len();
    let mut start: usize = 0;
    while start < n && is_space_char(char_at(domain, start))
        invariant
            n == domain@.len(),
            start <= n,
            forall|j: int| 0 <= j < start ==> is_space(domain@[j]),
        decreases n - start,
    {
        start = start + 1;
    }
    let mut end1: usize = n;
    while end1 > start && is_space_char(char_at(domain, end1 - 1))
        invariant
            n == domain@.len(),
            start <= end1 <= n,
            forall|j: int| end1 <= j < n ==> is_space(domain@[j]),
        decreases end1,
    {
        end1 = end1 - 1;
    }
    let mut end: usize = end1;
    while end > start && char_at(domain, end - 1) == '.'
        invariant
            n == domain@.len(),
            start <= end <= end1 <= n,
            forall|j: int| end <= j < end1 ==> domain@[j] == '.',
        decreases end,
    {
        end = end - 1;
    }
    let mut out = String::new();
    let mut i: usize = start;
    while i < end
        invariant
            n == domain@.len(),
            start <= i <= end <= n,
            t == lower_chars(domain@),
            out@ == t.subrange(start as int, i as int),
        decreases end - i,
    {
        let c = char_at(domain, i);
        let lc: char = if c >= 'A' && c <= 'Z' {
            proof {
                assert(65 <= c as u32 <= 90);
            }
            (((c as u32) + 32) as u8) as char
        } else {
            c
        };
        proof {
            assert(lc == lower_char(c));
            assert(t.subrange(start as int, i + 1) == t.subrange(start as int, i as int).push(
                lc,
            ));
        }
        push_char(&mut out, lc);
        i = i + 1;
    }
    proof {
        assert forall|j: int| 0 <= j < n implies #[trigger] is_space(t[j]) == is_space(
            domain@[j],
        ) && (t[j] == '.') == (domain@[j] == '.') by {
            lemma_lower_char_shape(domain@[j]);
        }
        lemma_trim_leading_skip(t, start as int);
        let u = t.skip(start as int);
        lemma_trim_trailing_take(u, end1 - start);
        let v = u.take(end1 - start);
        lemma_strip_dots_take(v, end - start);
        assert(v.take(end - start) =~= t.subrange(start as int, end as int));
        assert(out@ == normalize_spec(domain@));
    }
    out
}

/// Decides whether an already-normalized query matches one entry,
/// exactly or as a subdomain.
pub fn matches_entry(q: &str, b: &str) -> (r: bool)
    ensures
        r == domain_matches(q@, b@),
{
    let nq = q.unicode_len();
    let nb = b.unicode_len();
    if nq == nb {
        let r = str_eq(q, b);
        proof {
            if !r {
                assert(!is_dot_suffix(q@, b@));
            }
        }
        r
    } else if nq > nb {
        proof {
            assert(q@ != b@);
        }
        let dot_pos = nq - nb - 1;
        if char_at(q, dot_pos) != '.' {
            proof {
                assert(q@.skip(nq - nb - 1)[0] != (seq!['.'] + b@)[0]);
            }
            return false;
        }
        let mut i: usize = 0;
        while i < nb
            invariant
                nq == q@.len(),
                nb == b@.len(),
                nq > nb,
                i <= nb,
                forall|j: int| 0 <= j < i ==> q@[nq - nb + j] == b@[j],
            decreases nb - i,
        {
            if char_at(q, nq - nb + i) != char_at(b, i) {
                proof {
                    assert(q@.skip(nq - nb - 1)[i + 1] != (seq!['.'] + b@)[i + 1]);
                }
                return false;
            }
            i = i + 1;
        }
        proof {
            assert(q@.skip(nq - nb - 1) =~= seq!['.'] + b@);
        }
        true
    } else {
        proof {
            assert(q@ != b@);
            assert(!is_dot_suffix(q@, b@));
        }
        false
    }
}

/// Domain blocker with exact and subdomain matching.
pub struct DomainBlocker {
    blocked_domains: Vec<String>,
}

impl View for DomainBlocker {
    type V = Seq<Seq<char>>;

    closed spec fn view(&self) -> Seq<Seq<char>> {
        self.blocked_domains.deep_view()
    }
}

impl DomainBlocker {
    /// Every stored entry is in normalized form.
    pub closed spec fn wf(&self) -> bool {
        forall|i: int| 0 <= i < self@.len() ==> self@[i] == normalize_spec(self@[i])
    }

    /// Create a new blocker with the given domain list; every entry
    /// is normalized at ingress.
    pub fn new(domains: Vec<String>) -> (r: DomainBlocker)
        ensures
            r@.len() == domains@.len(),
            forall|i: int| 0 <= i < domains@.len() ==> r@[i] == normalize_spec(domains@[i]@),
    {
        let mut blocked_domains: Vec<String> = Vec::new();
        let mut i: usize = 0;
        while i < domains.len()
            invariant
                i <= domains@.len(),
                blocked_domains@.len() == i,
                forall|j: int| 0 <= j < i ==> blocked_domains@[j]@ == normalize_spec(
                    domains@[j]@,
                ),
            decreases domains@.len() - i,
        {
            let d = normalize_domain(domains[i].as_str());
            blocked_domains.push(d);
            i = i + 1;
        }
        let r = DomainBlocker { blocked_domains };
        proof {
            assert forall|j: int| 0 <= j < domains@.len() implies r@[j] == normalize_spec(
                domains@[j]@,
            ) by {
                assert(r@[j] == r.blocked_domains@[j]@);
            }
        }
        r
    }

    /// Replace the blocked domains list; the new entries are
    /// normalized at ingress.
    pub fn update_domains(&mut self, domains: Vec<String>)
        ensures
            final(self)@.len() == domains@.len(),
            forall|i: int| 0 <= i < domains@.len() ==> final(self)@[i] == normalize_spec(
                domains@[i]@,
            ),
    {
        let fresh = DomainBlocker::new(domains);
        self.blocked_domains = fresh.blocked_domains;
    }

    /// Check if a domain should be blocked: its normalized form is
    /// compared against every entry, exactly and as a subdomain.
    pub fn should_block(&self, query_domain: &str) -> (r: bool)
        ensures
            r == blocked_by(self@, query_domain@),
    {
        let normalized = normalize_domain(query_domain);
        let n = self.blocked_domains.len();
        let mut i: usize = 0;
        while i < n
            invariant
                n == self@.len(),
                i <= n,
                normalized@ == normalize_spec(query_domain@),
                forall|j: int| 0 <= j < i ==> !domain_matches(normalize_spec(query_domain@), self@[j]),
        decreases n - i,
        {
            proof {
                assert(self@[i as int] == self.blocked_domains@[i as int]@);
            }
            if matches_entry(normalized.as_str(), self.blocked_domains[i].as_str()) {
                proof {
                    assert(domain_matches(normalize_spec(query_domain@), self@[i as int]));
                }
                return true;
            }
            i = i + 1;
        }
        false
    }

    /// The number of blocked domains.
    pub fn blocked_count(&self) -> (r: usize)
        ensures
            r == self@.len(),
    {
        self.blocked_domains.len()
    }

    /// The stored entries, in order.
    pub fn entries(&self) -> (r: Vec<String>)
        ensures
            r.deep_view() == self@,
    {
        let mut out: Vec<String> = Vec::new();
        let mut i: usize = 0;
        while i < self.blocked_domains.len()
            invariant
                i <= self.blocked_domains@.len(),
                out@.len() == i,
                forall|j: int| 0 <= j < i ==> out@[j]@ == self.blocked_domains@[j]@,
            decreases self.blocked_domains@.len() - i,
        {
            out.push(self.blocked_domains[i].clone());
            i = i + 1;
        }
        proof {
            assert forall|j: int| 0 <= j < out@.len() implies out.deep_view()[j] == self@[j] by {
                assert(out.deep_view()[j] == out@[j]@);
                assert(self@[j] == self.blocked_domains@[j]@);
            }
            assert(out.deep_view() =~= self@);
        }
        out
    }
}

} // verus!

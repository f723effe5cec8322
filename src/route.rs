//! Route rules and the ordered route table.
use vstd::prelude::*;
use vstd::utf8::encode_utf8;
use crate::bytes_util::{bytes_eq, bytes_start_with, has_prefix};

verus! {

/// The byte `*`, the wildcard that a rule's match host may hold.
pub const WILDCARD: u8 = 42;

/// What a request must look like for a rule to apply.
#[derive(Clone, Debug)]
pub struct Match {
    /// `host:port` of the SOCKS target, or `*` for any target.
    pub host: String,
    /// Path prefix that a request must start with.
    pub prefix: String,
}

/// Where and how a matched request is sent.
#[derive(Clone, Debug)]
pub struct Forward {
    /// `host:port` of the alternate upstream.
    pub host: String,
    /// Prefix that replaces the match prefix in the request path.
    pub prefix: String,
    /// Whether the path prefix is rewritten at all.
    pub rewrite: bool,
    /// Relay to the original target when the alternate upstream cannot be reached.
    pub connect_fail_use_original_host: bool,
}

/// A runtime route rule: a matcher and a forwarding target.
#[derive(Clone, Debug)]
pub struct RouteRule {
    pub match_: Match,
    pub forward: Forward,
}

/// UTF-8 bytes of a string view; `str` comparisons in Rust are byte-wise.
pub open spec fn utf8(s: Seq<char>) -> Seq<u8> {
    encode_utf8(s)
}

/// A match host admits `host` when they are equal or the match host is `*`.
pub open spec fn host_admits(match_host: Seq<char>, host: Seq<char>) -> bool {
    utf8(host) == utf8(match_host) || utf8(match_host) == seq![WILDCARD]
}

impl RouteRule {
    pub open spec fn spec_match_host(&self, host: Seq<char>) -> bool {
        host_admits(self.match_.host@, host)
    }

    pub open spec fn spec_matches(&self, host: Seq<char>, path: Seq<char>) -> bool {
        has_prefix(utf8(path), utf8(self.match_.prefix@)) && self.spec_match_host(host)
    }

    /// A rule from its four strings, with rewriting on and no fallback to the
    /// original host.
    pub fn new(
        match_host: &str,
        match_path_prefix: &str,
        forward_host: &str,
        forward_path_prefix: &str,
    ) -> (r: Self)
        ensures
            r.match_.host@ == match_host@,
            r.match_.prefix@ == match_path_prefix@,
            r.forward.host@ == forward_host@,
            r.forward.prefix@ == forward_path_prefix@,
            r.forward.rewrite,
            !r.forward.connect_fail_use_original_host,
    {
        RouteRule {
            match_: Match { host: match_host.to_owned(), prefix: match_path_prefix.to_owned() },
            forward: Forward {
                host: forward_host.to_owned(),
                prefix: forward_path_prefix.to_owned(),
                rewrite: true,
                connect_fail_use_original_host: false,
            },
        }
    }

    /// An owned copy of the rule, equal to it in every field.
    pub fn snapshot(&self) -> (r: Self)
        ensures
            r == *self,
    {
        RouteRule {
            match_: Match { host: self.match_.host.clone(), prefix: self.match_.prefix.clone() },
            forward: Forward {
                host: self.forward.host.clone(),
                prefix: self.forward.prefix.clone(),
                rewrite: self.forward.rewrite,
                connect_fail_use_original_host: self.forward.connect_fail_use_original_host,
            },
        }
    }

    /// The request path starts with the match prefix and the host is admitted.
    pub fn matches(&self, host: &str, prefix: &str) -> (r: bool)
        ensures
            r == self.spec_matches(host@, prefix@),
    {
        bytes_start_with(prefix.as_bytes(), self.match_.prefix.as_str().as_bytes())
            && self.match_host(host)
    }

    /// The host equals the match host, or the match host is `*`.
    pub fn match_host(&self, host: &str) -> (r: bool)
        ensures
            r == self.spec_match_host(host@),
    {
        let mh = self.match_.host.as_str().as_bytes();
        let star: [u8; 1] = [WILDCARD];
        let r = bytes_eq(host.as_bytes(), mh) || bytes_eq(mh, star.as_slice());
        proof {
            assert(star@ =~= seq![WILDCARD]);
        }
        r
    }
}

/// The first rule of `rules` that admits `host`.
pub open spec fn first_by_host(rules: Seq<RouteRule>, host: Seq<char>) -> Option<RouteRule>
    decreases rules.len(),
{
    if rules.len() == 0 {
        None
    } else if rules[0].spec_match_host(host) {
        Some(rules[0])
    } else {
        first_by_host(rules.drop_first(), host)
    }
}

/// The first rule of `rules` that matches `host` and `path`.
pub open spec fn first_by_host_path(rules: Seq<RouteRule>, host: Seq<char>, path: Seq<char>) -> Option<RouteRule>
    decreases rules.len(),
{
    if rules.len() == 0 {
        None
    } else if rules[0].spec_matches(host, path) {
        Some(rules[0])
    } else {
        first_by_host_path(rules.drop_first(), host, path)
    }
}

/// Resolution by host is the first rule of the table, in table order, whose
/// match host admits the host; it is none exactly when no rule admits it.
pub proof fn lemma_first_by_host_is_first_admitting(rules: Seq<RouteRule>, host: Seq<char>)
    ensures
        match first_by_host(rules, host) {
            Some(r) => exists|i: int|
                0 <= i < rules.len() && rules[i] == r && rules[i].spec_match_host(host)
                    && forall|j: int| 0 <= j < i ==> !#[trigger] rules[j].spec_match_host(host),
            None => forall|j: int| 0 <= j < rules.len() ==> !#[trigger] rules[j].spec_match_host(host),
        },
    decreases rules.len(),
{
    if rules.len() > 0 && !rules[0].spec_match_host(host) {
        let rest = rules.drop_first();
        lemma_first_by_host_is_first_admitting(rest, host);
        match first_by_host(rest, host) {
            Some(r) => {
                let k = choose|k: int|
                    0 <= k < rest.len() && rest[k] == r && rest[k].spec_match_host(host)
                        && forall|j: int| 0 <= j < k ==> !#[trigger] rest[j].spec_match_host(host);
                assert(rules[k + 1] == r);
                assert forall|j: int| 0 <= j < k + 1 implies !#[trigger] rules[j].spec_match_host(host) by {
                    if j > 0 {
                        assert(rules[j] == rest[j - 1]);
                    }
                }
            },
            None => {
                assert forall|j: int| 0 <= j < rules.len() implies !#[trigger] rules[j].spec_match_host(host) by {
                    if j > 0 {
                        assert(rules[j] == rest[j - 1]);
                    }
                }
            },
        }
    } else if rules.len() > 0 {
        assert(rules[0].spec_match_host(host));
    }
}

/// The ordered route table; the first matching rule wins.
pub struct RouteEngine {
    pub rules: Vec<RouteRule>,
}

impl RouteEngine {
    /// The first rule that matches both the host and the request path.
    pub fn resolve_target(&self, host: &str, path: &str) -> (r: Option<RouteRule>)
        ensures
            r == first_by_host_path(self.rules@, host@, path@),
    {
        let mut i: usize = 0;
        assert(self.rules@.skip(0) =~= self.rules@);
        while i < self.rules.len()
            invariant
                i <= self.rules@.len(),
                first_by_host_path(self.rules@, host@, path@)
                    == first_by_host_path(self.rules@.skip(i as int), host@, path@),
            decreases self.rules@.len() - i,
        {
            assert(self.rules@.skip(i as int).drop_first() =~= self.rules@.skip(i + 1));
            if self.rules[i].matches(host, path) {
                return Some(self.rules[i].snapshot());
            }
            i = i + 1;
        }
        assert(self.rules@.skip(i as int).len() == 0);
        None
    }

    /// The first rule that admits the host, whatever the path.
    pub fn resolve_target_by_host(&self, host: &str) -> (r: Option<RouteRule>)
        ensures
            r == first_by_host(self.rules@, host@),
    {
        let mut i: usize = 0;
        assert(self.rules@.skip(0) =~= self.rules@);
        while i < self.rules.len()
            invariant
                i <= self.rules@.len(),
                first_by_host(self.rules@, host@) == first_by_host(self.rules@.skip(i as int), host@),
            decreases self.rules@.len() - i,
        {
            assert(self.rules@.skip(i as int).drop_first() =~= self.rules@.skip(i + 1));
            if self.rules[i].match_host(host) {
                return Some(self.rules[i].snapshot());
            }
            i = i + 1;
        }
        assert(self.rules@.skip(i as int).len() == 0);
        None
    }

    /// Replaces the whole table.
    pub fn update_rules(&mut self, new_rules: Vec<RouteRule>)
        ensures
            final(self).rules@ == new_rules@,
    {
        self.rules = new_rules;
    }
}

} // verus!

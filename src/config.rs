//! The application configuration and the route rules it yields.
use vstd::prelude::*;
use crate::route::RouteRule;

verus! {

/// An address with a path prefix.
#[derive(Debug, Clone)]
pub struct Host {
    /// `host:port`.
    pub addr: String,
    /// Path prefix.
    pub path_prefix: String,
}

/// A configured rule: what to match and where to forward.
#[derive(Debug, Clone)]
pub struct Rule {
    pub matcher: Host,
    pub forward: Host,
}

/// Listen address and route rules.
#[derive(Debug, Clone)]
pub struct AppConfig {
    pub rules: Vec<Rule>,
    pub listen_addr: String,
}

impl Default for AppConfig {
    /// Listens on `127.0.0.1:1080` with one example rule.
    fn default() -> (r: Self)
        ensures
            r.listen_addr@ == "127.0.0.1:1080"@,
            r.rules@.len() == 1,
            r.rules@[0].matcher.addr@ == "192.168.120.177:81"@,
            r.rules@[0].matcher.path_prefix@ == "/api"@,
            r.rules@[0].forward.addr@ == "127.0.0.1:8686"@,
            r.rules@[0].forward.path_prefix@ == ""@,
    {
        let mut rules: Vec<Rule> = Vec::new();
        rules.push(Rule {
            matcher: Host {
                addr: String::from_str("192.168.120.177:81"),
                path_prefix: String::from_str("/api"),
            },
            forward: Host { addr: String::from_str("127.0.0.1:8686"), path_prefix: String::new() },
        });
        proof {
            reveal_strlit("");
        }
        AppConfig { rules, listen_addr: String::from_str("127.0.0.1:1080") }
    }
}

/// The runtime rule built from a configured rule.
pub open spec fn built_from(r: RouteRule, c: Rule) -> bool {
    r.match_.host@ == c.matcher.addr@ && r.match_.prefix@ == c.matcher.path_prefix@
        && r.forward.host@ == c.forward.addr@ && r.forward.prefix@ == c.forward.path_prefix@
        && r.forward.rewrite && !r.forward.connect_fail_use_original_host
}

impl AppConfig {
    /// The route table's rules, one per configured rule and in the same order.
    pub fn route_rules(&self) -> (r: Vec<RouteRule>)
        ensures
            r@.len() == self.rules@.len(),
            forall|i: int| 0 <= i < r@.len() ==> built_from(#[trigger] r@[i], self.rules@[i]),
    {
        let mut out: Vec<RouteRule> = Vec::new();
        let mut i: usize = 0;
        while i < self.rules.len()
            invariant
                i <= self.rules@.len(),
                out@.len() == i,
                forall|k: int| 0 <= k < i ==> built_from(#[trigger] out@[k], self.rules@[k]),
            decreases self.rules@.len() - i,
        {
            let c = &self.rules[i];
            out.push(RouteRule::new(
                c.matcher.addr.as_str(),
                c.matcher.path_prefix.as_str(),
                c.forward.addr.as_str(),
                c.forward.path_prefix.as_str(),
            ));
            i = i + 1;
        }
        out
    }
}

} // verus!

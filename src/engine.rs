//! Decisions of the per-connection forwarding engine. The runtime performs the
//! I/O; these functions say where each piece of traffic goes.
use vstd::prelude::*;
use vstd::utf8::valid_utf8;
use crate::bytes_util::{bytes_start_with, has_prefix, push_range};
use crate::http::{
    host_and_path, modify_http_data, parse_path, request_host_path, request_line_path,
    rewrite_of, service_unavailable, service_unavailable_bytes,
};
use crate::route::{first_by_host, utf8, RouteEngine, RouteRule};

verus! {

/// The half-stream a chunk from the client is written to.
#[derive(Debug, Clone, Copy, PartialEq, Eq, Structural)]
pub enum Destination {
    /// The SOCKS target.
    Server,
    /// The alternate upstream of the rule.
    Forward,
    /// Back to the client, as the `503` response; the direction then stops.
    Client,
}

/// What to do with one chunk read from the client.
pub struct ChunkAction {
    pub dest: Destination,
    pub bytes: Vec<u8>,
}

/// What the rewriter makes of a chunk; non-HTTP streams are never rewritten.
pub open spec fn chunk_rewrite(chunk: Seq<u8>, http: bool, rule: RouteRule) -> Option<Seq<u8>> {
    if http { rewrite_of(chunk, rule) } else { None }
}

/// Where a chunk goes.
pub open spec fn chunk_destination(chunk: Seq<u8>, http: bool, rule: RouteRule, has_forward: bool) -> Destination {
    match chunk_rewrite(chunk, http, rule) {
        None => Destination::Server,
        Some(_) => if has_forward { Destination::Forward } else { Destination::Client },
    }
}

/// The bytes written for a chunk.
pub open spec fn chunk_payload(chunk: Seq<u8>, http: bool, rule: RouteRule, has_forward: bool) -> Seq<u8> {
    match chunk_rewrite(chunk, http, rule) {
        None => chunk,
        Some(d) => if has_forward { d } else { service_unavailable_bytes() },
    }
}

/// Routes one chunk of the client-to-server direction.
pub fn client_chunk_action(chunk: &[u8], http: bool, rule: &RouteRule, has_forward: bool) -> (r: ChunkAction)
    ensures
        r.dest == chunk_destination(chunk@, http, *rule, has_forward),
        r.bytes@ == chunk_payload(chunk@, http, *rule, has_forward),
{
    let rewritten = if http { modify_http_data(chunk, rule) } else { None };
    match rewritten {
        None => {
            let mut bytes: Vec<u8> = Vec::new();
            push_range(&mut bytes, chunk, 0, chunk.len());
            assert(chunk@.subrange(0, chunk@.len() as int) =~= chunk@);
            ChunkAction { dest: Destination::Server, bytes }
        },
        Some(d) => {
            if has_forward {
                ChunkAction { dest: Destination::Forward, bytes: d }
            } else {
                ChunkAction { dest: Destination::Client, bytes: service_unavailable() }
            }
        },
    }
}

/// How a connection goes on when the alternate upstream cannot be reached.
#[derive(Debug, Clone, Copy, PartialEq, Eq, Structural)]
pub enum FallbackPlan {
    /// Relay client and SOCKS target verbatim.
    RelayOriginal,
    /// Answer `503`, close both writers and fail the connection.
    Refuse,
    /// Go on with the SOCKS target as the only destination.
    ServerOnly,
}

/// The plan when the alternate upstream of `rule` is unreachable, given the
/// first bytes the client sent.
pub open spec fn spec_fallback(rule: RouteRule, peek: Seq<u8>) -> FallbackPlan {
    if rule.forward.connect_fail_use_original_host {
        FallbackPlan::RelayOriginal
    } else {
        match request_line_path(peek) {
            Some(p) => if valid_utf8(p) && has_prefix(p, utf8(rule.match_.prefix@)) {
                FallbackPlan::Refuse
            } else {
                FallbackPlan::ServerOnly
            },
            None => FallbackPlan::ServerOnly,
        }
    }
}

/// Chooses how to go on without the alternate upstream.
pub fn plan_without_forward(rule: &RouteRule, peek: &[u8]) -> (r: FallbackPlan)
    ensures
        r == spec_fallback(*rule, peek@),
{
    if rule.forward.connect_fail_use_original_host {
        return FallbackPlan::RelayOriginal;
    }
    match parse_path(peek) {
        Some(p) => {
            if bytes_start_with(p.as_bytes(), rule.match_.prefix.as_str().as_bytes()) {
                FallbackPlan::Refuse
            } else {
                FallbackPlan::ServerOnly
            }
        },
        None => FallbackPlan::ServerOnly,
    }
}

/// The rule that the first bytes of a connection select: the first rule that
/// admits the request's Host header.
pub open spec fn spec_select_route(rules: Seq<RouteRule>, peek: Seq<u8>) -> Option<RouteRule> {
    match host_and_path(peek) {
        Some(hp) => first_by_host(rules, hp.0),
        None => None,
    }
}

/// Picks the rule for a connection from the bytes peeked off the client; none
/// means plain relay.
pub fn select_route(engine: &RouteEngine, peek: &[u8]) -> (r: Option<RouteRule>)
    ensures
        r == spec_select_route(engine.rules@, peek@),
{
    match request_host_path(peek) {
        Some(hp) => engine.resolve_target_by_host(hp.0.as_str()),
        None => None,
    }
}

/// A chunk reaches exactly one destination: the alternate upstream when the
/// rewriter produced a new buffer and the upstream is connected, the client
/// (as the `503` response) when it produced one and the upstream is absent,
/// and the SOCKS target in every other case.
pub proof fn lemma_single_destination(chunk: Seq<u8>, http: bool, rule: RouteRule, has_forward: bool)
    ensures
        (chunk_destination(chunk, http, rule, has_forward) == Destination::Forward)
            == (chunk_rewrite(chunk, http, rule) is Some && has_forward),
        (chunk_destination(chunk, http, rule, has_forward) == Destination::Client)
            == (chunk_rewrite(chunk, http, rule) is Some && !has_forward),
        (chunk_destination(chunk, http, rule, has_forward) == Destination::Server)
            == (chunk_rewrite(chunk, http, rule) is None),
{
}

/// A chunk is written unmodified unless the rewriter produced a new buffer
/// for it; a non-HTTP stream is always written unmodified to the SOCKS target.
pub proof fn lemma_unmodified_unless_rewritten(chunk: Seq<u8>, http: bool, rule: RouteRule, has_forward: bool)
    ensures
        chunk_rewrite(chunk, http, rule) is None ==> chunk_payload(chunk, http, rule, has_forward) == chunk,
        !http ==> chunk_destination(chunk, http, rule, has_forward) == Destination::Server
            && chunk_payload(chunk, http, rule, has_forward) == chunk,
{
}

/// Bytes that a run of client chunks sends to `dest`, in read order; the run
/// stops after a chunk answered with the `503` response.
pub open spec fn sent_to(
    chunks: Seq<Seq<u8>>,
    http: bool,
    rule: RouteRule,
    has_forward: bool,
    dest: Destination,
) -> Seq<u8>
    decreases chunks.len(),
{
    if chunks.len() == 0 {
        Seq::empty()
    } else {
        let c = chunks[0];
        let here = if chunk_destination(c, http, rule, has_forward) == dest {
            chunk_payload(c, http, rule, has_forward)
        } else {
            Seq::empty()
        };
        if chunk_destination(c, http, rule, has_forward) == Destination::Client {
            here
        } else {
            here + sent_to(chunks.drop_first(), http, rule, has_forward, dest)
        }
    }
}

/// All chunks joined in read order.
pub open spec fn joined(chunks: Seq<Seq<u8>>) -> Seq<u8>
    decreases chunks.len(),
{
    if chunks.len() == 0 {
        Seq::empty()
    } else {
        chunks[0] + joined(chunks.drop_first())
    }
}

/// The chunks that the rewriter leaves alone, joined in read order.
pub open spec fn passed_through(chunks: Seq<Seq<u8>>, http: bool, rule: RouteRule) -> Seq<u8>
    decreases chunks.len(),
{
    if chunks.len() == 0 {
        Seq::empty()
    } else {
        let rest = passed_through(chunks.drop_first(), http, rule);
        match chunk_rewrite(chunks[0], http, rule) {
            None => chunks[0] + rest,
            Some(_) => rest,
        }
    }
}

/// The rewriter's outputs for the chunks it rewrites, joined in read order.
pub open spec fn diverted(chunks: Seq<Seq<u8>>, http: bool, rule: RouteRule) -> Seq<u8>
    decreases chunks.len(),
{
    if chunks.len() == 0 {
        Seq::empty()
    } else {
        let rest = diverted(chunks.drop_first(), http, rule);
        match chunk_rewrite(chunks[0], http, rule) {
            None => rest,
            Some(d) => d + rest,
        }
    }
}

/// With the alternate upstream connected, the SOCKS target receives exactly
/// the chunks that are not rewritten, unmodified and in read order, and the
/// alternate upstream receives exactly the rewritten buffers, in read order;
/// the client is sent nothing.
pub proof fn lemma_stream_split(chunks: Seq<Seq<u8>>, http: bool, rule: RouteRule)
    ensures
        sent_to(chunks, http, rule, true, Destination::Server) == passed_through(chunks, http, rule),
        sent_to(chunks, http, rule, true, Destination::Forward) == diverted(chunks, http, rule),
        sent_to(chunks, http, rule, true, Destination::Client) == Seq::<u8>::empty(),
    decreases chunks.len(),
{
    if chunks.len() > 0 {
        lemma_stream_split(chunks.drop_first(), http, rule);
        let rest_s = sent_to(chunks.drop_first(), http, rule, true, Destination::Server);
        let rest_f = sent_to(chunks.drop_first(), http, rule, true, Destination::Forward);
        let rest_c = sent_to(chunks.drop_first(), http, rule, true, Destination::Client);
        assert(Seq::<u8>::empty() + rest_s =~= rest_s);
        assert(Seq::<u8>::empty() + rest_f =~= rest_f);
        assert(Seq::<u8>::empty() + rest_c =~= rest_c);
    }
}

/// A stream that the rewriter never touches (every non-HTTP stream among
/// them) reaches the SOCKS target whole, unmodified and in read order, and
/// nothing else is sent, whether or not an alternate upstream is connected.
pub proof fn lemma_untouched_stream_relayed(chunks: Seq<Seq<u8>>, http: bool, rule: RouteRule, has_forward: bool)
    requires
        forall|i: int| 0 <= i < chunks.len() ==> (#[trigger] chunk_rewrite(chunks[i], http, rule)) is None,
    ensures
        sent_to(chunks, http, rule, has_forward, Destination::Server) == passed_through(chunks, http, rule),
        passed_through(chunks, http, rule) == joined(chunks),
        sent_to(chunks, http, rule, has_forward, Destination::Forward) == Seq::<u8>::empty(),
        sent_to(chunks, http, rule, has_forward, Destination::Client) == Seq::<u8>::empty(),
    decreases chunks.len(),
{
    if chunks.len() > 0 {
        let rest = chunks.drop_first();
        assert forall|i: int| 0 <= i < rest.len() implies (#[trigger] chunk_rewrite(rest[i], http, rule)) is None by {
            assert(rest[i] == chunks[i + 1]);
            assert(chunk_rewrite(chunks[i + 1], http, rule) is None);
        }
        assert(chunk_rewrite(chunks[0], http, rule) is None);
        lemma_untouched_stream_relayed(rest, http, rule, has_forward);
        assert(Seq::<u8>::empty() + sent_to(rest, http, rule, has_forward, Destination::Forward) =~= Seq::<u8>::empty());
        assert(Seq::<u8>::empty() + sent_to(rest, http, rule, has_forward, Destination::Client) =~= Seq::<u8>::empty());
    }
}

} // verus!

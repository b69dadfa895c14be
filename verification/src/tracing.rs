//! The two call-boundary helpers: starting the client span of an outgoing call
//! and the server span of an incoming one, each with its trace headers.
//!
//! Spans, contexts and the header format belong to the tracer and the
//! propagator that the process has installed. This module decides what they
//! are asked for and in which order; what they answer passes through it as
//! opaque values, and the headers they write arrive in a metadata bag.
use vstd::prelude::*;
use crate::bag::{MetadataBag, Text};
use crate::carrier::{
    lemma_written_on_empty_is_single_valued, single_valued, written, MetadataExtractor,
    MetadataInjector,
};
use crate::wire::{
    distinct_pair_keys, from_wire, lemma_encoded_keys_distinct, pairs, to_wire, KeyValue,
};
use opentelemetry::global::{BoxedSpan, BoxedTracer};
use opentelemetry::trace::{TraceContextExt, Tracer};
use opentelemetry::{Context, ContextGuard};

verus! {

/// A trace context of the tracer: the active span with its ancestry.
#[verifier::external_type_specification]
#[verifier::external_body]
pub struct ExContext(opentelemetry::Context);

/// The guard of an attached context: while it lives, the context is the
/// ambient one of the thread; dropping it restores the one before.
#[verifier::external_type_specification]
#[verifier::external_body]
pub struct ExContextGuard(opentelemetry::ContextGuard);

/// The tracer that the process-wide provider hands out.
#[verifier::external_type_specification]
#[verifier::external_body]
pub struct ExBoxedTracer(opentelemetry::global::BoxedTracer);

/// A span of the process-wide tracer.
#[verifier::external_type_specification]
#[verifier::external_body]
pub struct ExBoxedSpan(opentelemetry::global::BoxedSpan);

/// Whether a context holds a span: what `TraceContextExt::has_active_span`
/// gives for it. A context that was made with a span holds one also where no
/// tracer is installed; the span then records nothing.
pub uninterp spec fn holds_span(cx: Context) -> bool;

/// One attribute of a span: a key and a string value.
#[derive(Clone, Debug, PartialEq, Eq)]
pub struct SpanAttribute {
    pub key: String,
    pub value: String,
}

/// The attributes of a list by their characters, in the list's order.
pub open spec fn attribute_pairs(attributes: Seq<SpanAttribute>) -> Seq<(Text, Text)> {
    attributes.map_values(|a: SpanAttribute| (a.key@, a.value@))
}

/// The standard attributes of a call's span: the protocol system, which is
/// always `ttrpc`, the service and the method.
pub open spec fn standard_attributes(service: Text, method: Text) -> Seq<(Text, Text)> {
    seq![("rpc.system"@, "ttrpc"@), ("rpc.service"@, service), ("rpc.method"@, method)]
}

/// The three standard attributes that every span of a call is tagged with.
pub fn rpc_attributes(service: &str, method: &str) -> (attributes: Vec<SpanAttribute>)
    ensures
        attribute_pairs(attributes@) == standard_attributes(service@, method@),
{
    let mut attributes: Vec<SpanAttribute> = Vec::new();
    attributes.push(SpanAttribute { key: "rpc.system".to_owned(), value: "ttrpc".to_owned() });
    attributes.push(SpanAttribute { key: "rpc.service".to_owned(), value: service.to_owned() });
    attributes.push(SpanAttribute { key: "rpc.method".to_owned(), value: method.to_owned() });
    proof {
        assert(attribute_pairs(attributes@) =~= standard_attributes(service@, method@));
    }
    attributes
}

/// Calls `opentelemetry::global::tracer`: the tracer named `name` of the
/// provider that the process has installed. Nothing is claimed of it.
#[verifier::external_body]
fn global_tracer(name: &'static str) -> BoxedTracer {
    opentelemetry::global::tracer(name)
}

/// Calls `Tracer::start`: a new span named `name` under the context that is
/// ambient on this thread. Nothing is claimed of the span.
#[verifier::external_body]
fn start_span(tracer: &BoxedTracer, name: &str) -> BoxedSpan {
    tracer.start(name.to_string())
}

/// Calls `Tracer::start_with_context`: a new span named `name` under the
/// context `parent`. Nothing is claimed of the span.
#[verifier::external_body]
fn start_span_under(tracer: &BoxedTracer, name: &str, parent: &Context) -> BoxedSpan {
    tracer.start_with_context(name.to_string(), parent)
}

/// Calls `TraceContextExt::current_with_span`: the ambient context with `span`
/// as its active span. The contract claims that the context holds a span,
/// whatever tracer made it; nothing is claimed of the span itself.
#[verifier::external_body]
fn context_with_span(span: BoxedSpan) -> (cx: Context)
    ensures
        holds_span(cx),
{
    Context::current_with_span(span)
}

/// Calls `TraceContextExt::has_active_span`: whether the context holds a span,
/// which is what `holds_span` names.
#[verifier::external_body]
fn context_has_span(cx: &Context) -> (held: bool)
    ensures
        held == holds_span(*cx),
{
    cx.has_active_span()
}

/// Whether the context holds a span.
pub fn has_span(cx: &Context) -> (held: bool)
    ensures
        held == holds_span(*cx),
{
    context_has_span(cx)
}

/// Calls `SpanRef::set_attributes` on the span of `cx`, which it gets from
/// `TraceContextExt::span`, with each attribute of `attributes` as a key and a
/// string value. It returns nothing, and nothing is claimed of the span.
#[verifier::external_body]
fn set_span_attributes(cx: &Context, attributes: Vec<SpanAttribute>) {
    cx.span().set_attributes(
        attributes.into_iter().map(|a| opentelemetry::KeyValue::new(a.key, a.value)),
    );
}

/// Calls `Context::attach` on a clone of `cx`: the context becomes the ambient
/// one of this thread until the guard is dropped. Nothing is claimed of the
/// guard. The call panics while the thread's ambient context is borrowed, that
/// is inside a closure that `Context::map_current` or `get_active_span` runs.
#[verifier::external_body]
fn attach(cx: &Context) -> ContextGuard {
    cx.clone().attach()
}

/// Calls `TextMapPropagator::inject_context` of the propagator that
/// `opentelemetry::global::get_text_map_propagator` lends, with the bag as a
/// `MetadataInjector`.
///
/// Which headers the propagator writes is its own affair. It reaches the bag
/// only through the injector's `set`, so the contract claims that the bag
/// afterwards is the bag before with some writes applied.
#[verifier::external_body]
fn inject_context(cx: &Context, metadata: &mut MetadataBag)
    ensures
        exists|writes: Seq<(Text, Text)>|
            final(metadata)@ == #[trigger] written(old(metadata)@, writes),
{
    let mut injector = MetadataInjector(metadata);
    opentelemetry::global::get_text_map_propagator(
        |propagator| { propagator.inject_context(cx, &mut injector) },
    );
}

/// Calls `Context::new`: a context that holds no span and no value. Nothing
/// is claimed of it.
#[verifier::external_body]
fn empty_context() -> Context {
    Context::new()
}

/// Calls `TextMapPropagator::extract_with_context` of the propagator that
/// `opentelemetry::global::get_text_map_propagator` lends, with `base` as the
/// context to build on and the bag as a `MetadataExtractor`. Nothing is
/// claimed of the context: it is the propagator's to say what it reads from
/// the headers, and what it gives when they are absent or invalid.
#[verifier::external_body]
fn extract_context(base: &Context, metadata: &MetadataBag) -> Context {
    let extractor = MetadataExtractor(metadata);
    opentelemetry::global::get_text_map_propagator(
        |propagator| propagator.extract_with_context(base, &extractor),
    )
}

/// Starts the client span of an outgoing call and returns its context with
/// the wire record to send along.
///
/// In this order: a span named `name` is asked of the tracer named `ttrpc`,
/// under the context that is ambient at the call; the span is handed the
/// standard attributes of `service` and `method`; its context is attached as
/// the ambient one until the function returns; the propagator is handed that
/// context and a fresh bag to write to; the bag is encoded.
///
/// What is proved of the result is that the context holds a span and that no
/// key stands twice in the record. The span and the headers are the tracer's
/// and the propagator's: with none installed the span records nothing and the
/// record is empty.
///
/// Attaching panics while the thread's ambient context is borrowed: do not
/// call this from inside a closure that `Context::map_current` or
/// `get_active_span` runs.
pub fn start_client_trace(name: &str, service: &str, method: &str) -> (out: (
    Context,
    Vec<KeyValue>,
))
    ensures
        holds_span(out.0),
        distinct_pair_keys(pairs(out.1@)),
{
    let tracer = global_tracer("ttrpc");
    let cx = context_with_span(start_span(&tracer, name));
    set_span_attributes(&cx, rpc_attributes(service, method));
    let _guard = attach(&cx);
    let mut metadata = MetadataBag::new();
    inject_context(&cx, &mut metadata);
    proof {
        use_type_invariant(&metadata);
        lemma_encoded_keys_distinct(metadata.entries());
    }
    (cx, to_wire(&metadata))
}

/// Starts the server span of an incoming call and returns its context with a
/// bag of the headers of that context.
///
/// In this order: `metadata` is decoded; the propagator is handed the decoded
/// bag to read, and an empty context to build the parent on, so that a
/// propagator that builds on the context it is given never takes a span that
/// happens to be ambient on the thread for the caller's; a span named `name` is asked of the tracer named `ttrpc` under that parent;
/// the span is handed the standard attributes of `service` and `method`; its
/// context is attached as the ambient one until the function returns; the
/// propagator is handed that context and a fresh bag to write to, which is
/// returned as it is, not encoded.
///
/// There is no error: every record is taken. What is proved of the result is
/// that the context holds a span and that every key of the bag has exactly
/// one value. The span, its parent and the headers are the tracer's and the
/// propagator's. The propagator of the SDK gives the empty context back where
/// the trace header is absent or invalid, and the span is then a root. Where
/// no propagator is installed, the stand-in ignores both the headers and the
/// empty context and gives the ambient context, and the bag stays empty.
///
/// Attaching panics while the thread's ambient context is borrowed: do not
/// call this from inside a closure that `Context::map_current` or
/// `get_active_span` runs.
pub fn start_server_trace(
    name: &str,
    service: &str,
    method: &str,
    metadata: &Vec<KeyValue>,
) -> (out: (Context, MetadataBag))
    ensures
        holds_span(out.0),
        single_valued(out.1@),
{
    let incoming = from_wire(metadata);
    let base = empty_context();
    let parent = extract_context(&base, &incoming);
    let tracer = global_tracer("ttrpc");
    let cx = context_with_span(start_span_under(&tracer, name, &parent));
    set_span_attributes(&cx, rpc_attributes(service, method));
    let _guard = attach(&cx);
    let mut outgoing = MetadataBag::new();
    inject_context(&cx, &mut outgoing);
    proof {
        let writes = choose|writes: Seq<(Text, Text)>|
            outgoing@ == #[trigger] written(Map::<Text, Seq<Text>>::empty(), writes);
        lemma_written_on_empty_is_single_valued(writes);
    }
    (cx, outgoing)
}

} // verus!

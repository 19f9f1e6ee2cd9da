//! The lazy resolver: a binding that is resolved at most once.
//!
//! A binding decides; its caller acts. [`Binding::access`] says whether the
//! caller is to query the store, to wait for the query that is under way, or
//! to read the outcome. [`Binding::complete`] takes the store's reply. Callers
//! that share a binding take turns at it, so what many of them see is what a
//! sequence of [`Event`]s gives.

use crate::bundle::{
    outcome_view, parse_outcome, parse_payload, Bundle, EntryView, FetchError, FetchErrorView,
};
use crate::payload::payload_members;
use crate::schema::{
    declaration_fault, field_views, DeclarationError, Field, Schema, SchemaView,
};
use vstd::prelude::*;

verus! {

/// What the store answered when asked for one key.
#[derive(Clone, Debug, PartialEq, Eq)]
pub enum StoreReply {
    /// The entry's raw payload.
    Payload(Vec<u8>),
    NotFound,
    TransportError,
    AuthError,
}

/// A store reply as contracts see it.
pub enum StoreReplyView {
    Payload(Seq<u8>),
    NotFound,
    TransportError,
    AuthError,
}

impl View for StoreReply {
    type V = StoreReplyView;

    open spec fn view(&self) -> StoreReplyView {
        match self {
            StoreReply::Payload(raw) => StoreReplyView::Payload(raw@),
            StoreReply::NotFound => StoreReplyView::NotFound,
            StoreReply::TransportError => StoreReplyView::TransportError,
            StoreReply::AuthError => StoreReplyView::AuthError,
        }
    }
}

/// What a store reply resolves to for `schema`: a payload is parsed, a
/// failure of the store is passed on.
pub open spec fn resolve_outcome(schema: SchemaView, reply: StoreReplyView) -> Result<
    Seq<EntryView>,
    FetchErrorView,
> {
    match reply {
        StoreReplyView::Payload(raw) => parse_outcome(schema.fields, payload_members(raw)),
        StoreReplyView::NotFound => Err(FetchErrorView::NotFound),
        StoreReplyView::TransportError => Err(FetchErrorView::TransportError),
        StoreReplyView::AuthError => Err(FetchErrorView::AuthError),
    }
}

/// Turns the store's reply into the outcome of the resolution.
pub fn resolve(schema: &Schema, reply: &StoreReply) -> (outcome: Result<Bundle, FetchError>)
    ensures
        outcome_view(outcome) == resolve_outcome(schema@, reply@),
{
    match reply {
        StoreReply::Payload(raw) => parse_payload(schema, raw.as_slice()),
        StoreReply::NotFound => Err(FetchError::NotFound),
        StoreReply::TransportError => Err(FetchError::TransportError),
        StoreReply::AuthError => Err(FetchError::AuthError),
    }
}

/// Where a binding stands in its life. It only moves forward: from
/// `Unstarted` to `InProgress` to `Done`.
#[derive(Debug, PartialEq, Eq)]
pub enum Phase {
    /// Nobody has asked for the bundle yet.
    Unstarted,
    /// One caller is querying the store; the others wait.
    InProgress,
    /// Resolution has ended, well or badly, for good.
    Done(Result<Bundle, FetchError>),
}

/// A phase as contracts see it.
pub enum PhaseView {
    Unstarted,
    InProgress,
    Done(Result<Seq<EntryView>, FetchErrorView>),
}

impl View for Phase {
    type V = PhaseView;

    open spec fn view(&self) -> PhaseView {
        match self {
            Phase::Unstarted => PhaseView::Unstarted,
            Phase::InProgress => PhaseView::InProgress,
            Phase::Done(outcome) => PhaseView::Done(outcome_view(*outcome)),
        }
    }
}

/// What a caller is to do after an access.
#[derive(Clone, Debug, PartialEq, Eq)]
pub enum Step {
    /// Query the store for `key` and hand the reply to [`Binding::complete`].
    Fetch { key: String },
    /// Another caller is querying the store: wait, then access again.
    Wait,
    /// The outcome is there to be read.
    Ready,
}

/// A step as contracts see it.
pub enum StepView {
    Fetch { key: Seq<char> },
    Wait,
    Ready,
}

impl View for Step {
    type V = StepView;

    open spec fn view(&self) -> StepView {
        match self {
            Step::Fetch { key } => StepView::Fetch { key: key@ },
            Step::Wait => StepView::Wait,
            Step::Ready => StepView::Ready,
        }
    }
}

/// What happens to a binding: a caller accesses it, or the store's reply
/// comes in.
pub enum Event {
    Access,
    Reply(StoreReplyView),
}

/// What an access in `phase` tells the caller. Only the first access is told
/// to fetch, and it is given the schema's name as the key.
pub open spec fn access_step(schema: SchemaView, phase: PhaseView) -> StepView {
    match phase {
        PhaseView::Unstarted => StepView::Fetch { key: schema.name },
        PhaseView::InProgress => StepView::Wait,
        PhaseView::Done(_) => StepView::Ready,
    }
}

/// The phase after an access in `phase`.
pub open spec fn after_access(phase: PhaseView) -> PhaseView {
    match phase {
        PhaseView::Unstarted => PhaseView::InProgress,
        _ => phase,
    }
}

/// The phase after the store's reply comes in during `phase`. A reply counts
/// only while a query is under way.
pub open spec fn after_reply(schema: SchemaView, phase: PhaseView, reply: StoreReplyView) -> PhaseView {
    match phase {
        PhaseView::InProgress => PhaseView::Done(resolve_outcome(schema, reply)),
        _ => phase,
    }
}

/// The phase after `event` happens in `phase`.
pub open spec fn after_event(schema: SchemaView, phase: PhaseView, event: Event) -> PhaseView {
    match event {
        Event::Access => after_access(phase),
        Event::Reply(reply) => after_reply(schema, phase, reply),
    }
}

/// The phase of a binding that began in `start`, after the first `n` of
/// `events`.
pub open spec fn phase_after(schema: SchemaView, start: PhaseView, events: Seq<Event>, n: int) -> PhaseView
    decreases n,
{
    if n <= 0 || n > events.len() {
        start
    } else {
        after_event(schema, phase_after(schema, start, events, n - 1), events[n - 1])
    }
}

/// Event `i` of `events` is an access that is told to query the store.
pub open spec fn fetches_at(schema: SchemaView, start: PhaseView, events: Seq<Event>, i: int) -> bool {
    &&& 0 <= i < events.len()
    &&& events[i] is Access
    &&& phase_after(schema, start, events, i) is Unstarted
}

/// How many of the first `n` events are accesses that are told to query the
/// store.
pub open spec fn fetch_count(schema: SchemaView, start: PhaseView, events: Seq<Event>, n: int) -> nat
    decreases n,
{
    if n <= 0 || n > events.len() {
        0
    } else {
        fetch_count(schema, start, events, n - 1) + if fetches_at(schema, start, events, n - 1) {
            1nat
        } else {
            0nat
        }
    }
}

/// How far along a phase is.
pub open spec fn progress(phase: PhaseView) -> nat {
    match phase {
        PhaseView::Unstarted => 0,
        PhaseView::InProgress => 1,
        PhaseView::Done(_) => 2,
    }
}

/// One of the first `n` events is an access.
pub open spec fn accessed(events: Seq<Event>, n: int) -> bool {
    exists|i: int| 0 <= i < n && #[trigger] events[i] is Access
}

/// A binding never goes back: whatever happens to it, it is as far along
/// afterwards as it was before, or further.
pub proof fn lemma_phase_moves_forward(
    schema: SchemaView,
    start: PhaseView,
    events: Seq<Event>,
    m: int,
    n: int,
)
    requires
        0 <= m <= n <= events.len(),
    ensures
        progress(phase_after(schema, start, events, m)) <= progress(
            phase_after(schema, start, events, n),
        ),
    decreases n - m,
{
    if m < n {
        lemma_phase_moves_forward(schema, start, events, m, n - 1);
    }
}

/// Once resolution has ended, its outcome stands: nothing that happens later
/// changes the phase, so every caller that reads the outcome, however many
/// and in whatever order, reads the same bundle or the same error.
pub proof fn lemma_outcome_is_final(
    schema: SchemaView,
    start: PhaseView,
    events: Seq<Event>,
    m: int,
    n: int,
)
    requires
        0 <= m <= n <= events.len(),
        phase_after(schema, start, events, m) is Done,
    ensures
        phase_after(schema, start, events, n) == phase_after(schema, start, events, m),
    decreases n - m,
{
    if m < n {
        lemma_outcome_is_final(schema, start, events, m, n - 1);
    }
}

/// All who read an outcome read the same one: at whatever two moments a
/// binding is found resolved, it holds the same bundle or the same error.
pub proof fn lemma_readers_agree(
    schema: SchemaView,
    start: PhaseView,
    events: Seq<Event>,
    i: int,
    j: int,
)
    requires
        0 <= i <= events.len(),
        0 <= j <= events.len(),
        phase_after(schema, start, events, i) is Done,
        phase_after(schema, start, events, j) is Done,
    ensures
        phase_after(schema, start, events, i) == phase_after(schema, start, events, j),
{
    if i <= j {
        lemma_outcome_is_final(schema, start, events, i, j);
    } else {
        lemma_outcome_is_final(schema, start, events, j, i);
    }
}

/// A fresh binding stays unstarted exactly until its first access.
pub proof fn lemma_unstarted_until_accessed(schema: SchemaView, events: Seq<Event>, n: int)
    requires
        0 <= n <= events.len(),
    ensures
        phase_after(schema, PhaseView::Unstarted, events, n) is Unstarted <==> !accessed(events, n),
    decreases n,
{
    if n > 0 {
        lemma_unstarted_until_accessed(schema, events, n - 1);
        if accessed(events, n - 1) {
            let i = choose|i: int| 0 <= i < n - 1 && #[trigger] events[i] is Access;
            assert(0 <= i < n && events[i] is Access);
        } else if events[n - 1] is Access {
            assert(accessed(events, n));
        } else {
            if accessed(events, n) {
                let i = choose|i: int| 0 <= i < n && #[trigger] events[i] is Access;
                assert(i < n - 1);
                assert(accessed(events, n - 1));
            }
        }
    }
}

/// The store is queried at most once. Of all the accesses to a binding,
/// however many there are and however they fall among the replies, only the
/// first to a fresh binding is told to fetch: a fresh binding that has been
/// accessed has asked for exactly one query, and a binding that was already
/// under way or resolved asks for none.
pub proof fn lemma_single_fetch(schema: SchemaView, start: PhaseView, events: Seq<Event>, n: int)
    requires
        0 <= n <= events.len(),
    ensures
        fetch_count(schema, start, events, n) <= 1,
        !(start is Unstarted) ==> fetch_count(schema, start, events, n) == 0,
        start is Unstarted ==> (fetch_count(schema, start, events, n) == 1 <==> accessed(events, n)),
    decreases n,
{
    if n > 0 {
        lemma_single_fetch(schema, start, events, n - 1);
        lemma_phase_moves_forward(schema, start, events, 0, n - 1);
        if start is Unstarted {
            lemma_unstarted_until_accessed(schema, events, n - 1);
            lemma_unstarted_until_accessed(schema, events, n);
            if events[n - 1] is Access {
                assert(accessed(events, n));
            }
        }
    }
}

/// After resolution no access queries the store again: each is told that the
/// outcome is ready, and the number of queries asked for stays what it was.
pub proof fn lemma_no_fetch_once_resolved(
    schema: SchemaView,
    start: PhaseView,
    events: Seq<Event>,
    m: int,
    n: int,
)
    requires
        0 <= m <= n <= events.len(),
        phase_after(schema, start, events, m) is Done,
    ensures
        fetch_count(schema, start, events, n) == fetch_count(schema, start, events, m),
        forall|i: int|
            m <= i < n ==> access_step(schema, #[trigger] phase_after(schema, start, events, i))
                is Ready,
    decreases n - m,
{
    if m < n {
        lemma_no_fetch_once_resolved(schema, start, events, m, n - 1);
        lemma_outcome_is_final(schema, start, events, m, n - 1);
    }
}

/// A recorded outcome is what one reply of the store resolved to: the reply
/// that came in while the query was under way.
pub proof fn lemma_outcome_comes_from_reply(
    schema: SchemaView,
    start: PhaseView,
    events: Seq<Event>,
    n: int,
)
    requires
        0 <= n <= events.len(),
        !(start is Done),
        phase_after(schema, start, events, n) is Done,
    ensures
        exists|k: int|
            0 <= k < n && phase_after(schema, start, events, k) is InProgress
                && #[trigger] events[k] is Reply && phase_after(schema, start, events, n)
                == PhaseView::Done(resolve_outcome(schema, events[k]->Reply_0)),
    decreases n,
{
    if phase_after(schema, start, events, n - 1) is Done {
        lemma_outcome_comes_from_reply(schema, start, events, n - 1);
        let k = choose|k: int|
            0 <= k < n - 1 && phase_after(schema, start, events, k) is InProgress
                && #[trigger] events[k] is Reply && phase_after(schema, start, events, n - 1)
                == PhaseView::Done(resolve_outcome(schema, events[k]->Reply_0));
        assert(events[k] is Reply);
    } else {
        assert(events[n - 1] is Reply);
    }
}

/// A binding as contracts see it.
pub struct BindingView {
    pub schema: SchemaView,
    pub phase: PhaseView,
}

/// The handle of one schema: the schema and where its resolution stands.
#[derive(Debug, PartialEq, Eq)]
pub struct Binding {
    schema: Schema,
    phase: Phase,
}

impl View for Binding {
    type V = BindingView;

    closed spec fn view(&self) -> BindingView {
        BindingView { schema: self.schema@, phase: self.phase@ }
    }
}

impl Binding {
    /// Binds a declared schema. Nothing is fetched until the first access.
    pub fn new(schema: Schema) -> (binding: Binding)
        ensures
            binding@ == (BindingView { schema: schema@, phase: PhaseView::Unstarted }),
    {
        Binding { schema, phase: Phase::Unstarted }
    }

    /// Declares a schema and binds it. A declaration that is turned down
    /// gives no binding, so no store is ever asked for it.
    pub fn declare(name: &str, fields: Vec<Field>) -> (declared: Result<Binding, DeclarationError>)
        ensures
            match declared {
                Ok(binding) => {
                    &&& declaration_fault(name@, field_views(fields@)) is None
                    &&& binding@ == (BindingView {
                        schema: SchemaView { name: name@, fields: field_views(fields@) },
                        phase: PhaseView::Unstarted,
                    })
                    &&& binding@.schema.well_formed()
                },
                Err(error) => declaration_fault(name@, field_views(fields@)) == Some(error@),
            },
    {
        match Schema::declare(name, fields) {
            Ok(schema) => Ok(Binding::new(schema)),
            Err(error) => Err(error),
        }
    }

    /// One access. The first one starts the resolution and is told to query
    /// the store under the schema's name; those that come while the query is
    /// under way are told to wait; those that come after it are told that
    /// the outcome is ready, and change nothing.
    pub fn access(&mut self) -> (step: Step)
        ensures
            step@ == access_step(old(self)@.schema, old(self)@.phase),
            final(self)@.schema == old(self)@.schema,
            final(self)@.phase == after_access(old(self)@.phase),
    {
        match &self.phase {
            Phase::Unstarted => {
                self.phase = Phase::InProgress;
                Step::Fetch { key: self.schema.store_key() }
            },
            Phase::InProgress => Step::Wait,
            Phase::Done(_) => Step::Ready,
        }
    }

    /// Takes the store's reply. While a query is under way the reply is
    /// resolved and the outcome recorded for good; at any other time the
    /// reply is dropped and `false` returned.
    pub fn complete(&mut self, reply: &StoreReply) -> (accepted: bool)
        ensures
            accepted == (old(self)@.phase is InProgress),
            final(self)@.schema == old(self)@.schema,
            final(self)@.phase == after_reply(old(self)@.schema, old(self)@.phase, reply@),
    {
        match &self.phase {
            Phase::InProgress => {
                let outcome = resolve(&self.schema, reply);
                self.phase = Phase::Done(outcome);
                true
            },
            _ => false,
        }
    }

    /// The recorded outcome, once resolution has ended.
    pub fn outcome(&self) -> (outcome: Option<&Result<Bundle, FetchError>>)
        ensures
            match outcome {
                Some(recorded) => self@.phase == PhaseView::Done(outcome_view(*recorded)),
                None => !(self@.phase is Done),
            },
    {
        match &self.phase {
            Phase::Done(recorded) => Some(recorded),
            _ => None,
        }
    }

    /// The bundle, once resolution has ended well.
    pub fn bundle(&self) -> (bundle: Option<&Bundle>)
        ensures
            match bundle {
                Some(resolved) => self@.phase == PhaseView::Done(Ok(resolved@)),
                None => !(self@.phase matches PhaseView::Done(Ok(_))),
            },
    {
        match &self.phase {
            Phase::Done(Ok(resolved)) => Some(resolved),
            _ => None,
        }
    }

    /// Where the resolution stands.
    pub fn phase(&self) -> (phase: &Phase)
        ensures
            phase@ == self@.phase,
    {
        &self.phase
    }

    /// The bound schema.
    pub fn schema(&self) -> (schema: &Schema)
        ensures
            schema@ == self@.schema,
    {
        &self.schema
    }

    /// The key the store is asked for.
    pub fn store_key(&self) -> (key: String)
        ensures
            key@ == self@.schema.name,
    {
        self.schema.store_key()
    }
}

} // verus!

//! The translation client: what it asks of the generation service, how it
//! reads a reply, and when it tries again.
//!
//! The client itself neither sends nor sleeps. It is a state machine: its
//! state names the action that is due, and the caller reports what came of
//! the action.

use crate::json::{json_document, json_member, json_string, member_of, parse_document, string_of};
use vstd::prelude::*;
use vstd::string::*;

verus! {

/// The number of attempts that a segment gets.
pub const MAX_ATTEMPTS: u32 = 5;

/// The seconds to wait between a failed attempt and the next one.
pub const RETRY_DELAY_SECONDS: u64 = 5;

/// The seconds after which a single attempt is given up.
pub const REQUEST_TIMEOUT_SECONDS: u64 = 600;

/// The size of the context window asked of the service.
pub const CONTEXT_WINDOW: u32 = 8192;

/// The sampling temperature asked of the service, in hundredths.
pub const TEMPERATURE_PERCENT: u32 = 30;

/// Where the generation service listens.
pub const ENDPOINT: &'static str = "http://localhost:11434/api/generate";

/// The member of a reply that carries the generated text.
pub const RESPONSE_MEMBER: &'static str = "response";

/// What stands in the output for a segment whose attempts all failed.
pub const FAILURE_MARKER: &'static str = "[FAILED CHUNK: Server overloaded]";

/// The instruction sent for the segment `text`: it names `lang`, and no
/// other language, as the language to translate into.
pub open spec fn prompt_text(text: Seq<char>, lang: Seq<char>) -> Seq<char> {
    "Translate the following text into "@ + lang + ". Provide ONLY the translation. Text:\n"@
        + text
}

/// Builds the instruction for the segment `text` and the target language
/// `lang`.
pub fn build_prompt(text: &str, lang: &str) -> (prompt: String)
    ensures
        prompt@ == prompt_text(text@, lang@),
{
    let mut prompt = String::from_str("Translate the following text into ");
    prompt.append(lang);
    prompt.append(". Provide ONLY the translation. Text:\n");
    prompt.append(text);
    prompt
}

/// One request to the generation service: a single complete reply is asked
/// for, not a stream.
#[derive(Debug, Clone, PartialEq, Eq)]
pub struct GenerationRequest {
    pub model: String,
    pub prompt: String,
    pub stream: bool,
    pub context_window: u32,
    pub temperature_percent: u32,
}

/// The request that asks `model` to translate the segment `text`.
pub fn build_request(text: &str, lang: &str, model: &str) -> (request: GenerationRequest)
    ensures
        request.model@ == model@,
        request.prompt@ == prompt_text(text@, lang@),
        !request.stream,
        request.context_window == CONTEXT_WINDOW,
        request.temperature_percent == TEMPERATURE_PERCENT,
{
    GenerationRequest {
        model: String::from_str(model),
        prompt: build_prompt(text, lang),
        stream: false,
        context_window: CONTEXT_WINDOW,
        temperature_percent: TEMPERATURE_PERCENT,
    }
}

/// What a reply holds under the member `RESPONSE_MEMBER`.
#[derive(Debug, Clone, PartialEq, Eq)]
pub enum ReplyField {
    /// The reply is not a JSON text, or a JSON value without such a member.
    Missing,
    /// The member is there and is not a string.
    NotText,
    /// The member is this string.
    Text(String),
}

/// The view of a `ReplyField`.
pub enum ReplyFieldView {
    Missing,
    NotText,
    Text(Seq<char>),
}

impl View for ReplyField {
    type V = ReplyFieldView;

    open spec fn view(&self) -> ReplyFieldView {
        match self {
            ReplyField::Missing => ReplyFieldView::Missing,
            ReplyField::NotText => ReplyFieldView::NotText,
            ReplyField::Text(text) => ReplyFieldView::Text(text@),
        }
    }
}

/// How one attempt ended.
#[derive(Debug, Clone, PartialEq, Eq)]
pub enum AttemptOutcome {
    /// The service replied with this text.
    Succeeded(String),
    /// The attempt failed: no connection, no reply in time, a reply that
    /// could not be read, or one without the member that carries the text.
    Failed,
}

/// The view of an `AttemptOutcome`.
pub enum AttemptOutcomeView {
    Succeeded(Seq<char>),
    Failed,
}

impl View for AttemptOutcome {
    type V = AttemptOutcomeView;

    open spec fn view(&self) -> AttemptOutcomeView {
        match self {
            AttemptOutcome::Succeeded(text) => AttemptOutcomeView::Succeeded(text@),
            AttemptOutcome::Failed => AttemptOutcomeView::Failed,
        }
    }
}

/// What the reply `body` holds under the member `RESPONSE_MEMBER`.
pub open spec fn reply_field(body: Seq<char>) -> ReplyFieldView {
    match json_document(body) {
        None => ReplyFieldView::Missing,
        Some(document) => match json_member(document, RESPONSE_MEMBER@) {
            None => ReplyFieldView::Missing,
            Some(member) => match json_string(member) {
                None => ReplyFieldView::NotText,
                Some(text) => ReplyFieldView::Text(text),
            },
        },
    }
}

/// The outcome of an attempt whose reply holds `field`: a reply without the
/// member is a failure, a member that is not a string counts as the empty
/// text.
pub open spec fn outcome_of_field(field: ReplyFieldView) -> AttemptOutcomeView {
    match field {
        ReplyFieldView::Missing => AttemptOutcomeView::Failed,
        ReplyFieldView::NotText => AttemptOutcomeView::Succeeded(Seq::empty()),
        ReplyFieldView::Text(text) => AttemptOutcomeView::Succeeded(text),
    }
}

/// The outcome of an attempt that got `reply`: `None` stands for an attempt
/// that the transport failed, `Some` holds the body of the reply.
pub open spec fn outcome_of_reply(reply: Option<Seq<char>>) -> AttemptOutcomeView {
    match reply {
        None => AttemptOutcomeView::Failed,
        Some(body) => outcome_of_field(reply_field(body)),
    }
}

/// Reads the reply `body` as JSON and looks up the member that carries the
/// generated text.
pub fn read_reply(body: &str) -> (field: ReplyField)
    ensures
        field@ == reply_field(body@),
{
    match parse_document(body) {
        Err(_) => ReplyField::Missing,
        Ok(document) => match member_of(&document, RESPONSE_MEMBER) {
            None => ReplyField::Missing,
            Some(member) => match string_of(member) {
                None => ReplyField::NotText,
                Some(text) => ReplyField::Text(String::from_str(text)),
            },
        },
    }
}

/// Tells how an attempt ended whose reply holds `field`.
pub fn field_outcome(field: ReplyField) -> (outcome: AttemptOutcome)
    ensures
        outcome@ == outcome_of_field(field@),
{
    match field {
        ReplyField::Missing => AttemptOutcome::Failed,
        ReplyField::NotText => AttemptOutcome::Succeeded(String::new()),
        ReplyField::Text(text) => AttemptOutcome::Succeeded(text),
    }
}

/// Tells how an attempt ended that got `reply`: `None` where the transport
/// failed, else the body of the reply.
pub fn attempt_outcome(reply: Option<&str>) -> (outcome: AttemptOutcome)
    ensures
        outcome@ == outcome_of_reply(reply.deep_view()),
{
    match reply {
        None => AttemptOutcome::Failed,
        Some(body) => field_outcome(read_reply(body)),
    }
}

/// Where the client stands with one segment.
#[derive(Debug, Clone, PartialEq, Eq)]
pub enum ClientState {
    /// The request is to be sent for the `attempt`-th time.
    Attempting { attempt: u32 },
    /// The `attempt`-th attempt failed and was not the last: the delay
    /// before the next attempt is to be waited.
    Waiting { attempt: u32 },
    /// An attempt got this text.
    Succeeded { text: String },
    /// Every attempt failed.
    Exhausted,
}

/// The view of a `ClientState`.
pub enum ClientStateView {
    Attempting { attempt: nat },
    Waiting { attempt: nat },
    Succeeded { text: Seq<char> },
    Exhausted,
}

impl View for ClientState {
    type V = ClientStateView;

    open spec fn view(&self) -> ClientStateView {
        match self {
            ClientState::Attempting { attempt } => ClientStateView::Attempting {
                attempt: *attempt as nat,
            },
            ClientState::Waiting { attempt } => ClientStateView::Waiting {
                attempt: *attempt as nat,
            },
            ClientState::Succeeded { text } => ClientStateView::Succeeded { text: text@ },
            ClientState::Exhausted => ClientStateView::Exhausted,
        }
    }
}

/// What the caller reports to the client.
#[derive(Debug, Clone, PartialEq, Eq)]
pub enum ClientEvent {
    /// The request was sent, and the attempt ended so.
    Attempted(AttemptOutcome),
    /// The delay was waited.
    Waited,
}

/// The view of a `ClientEvent`.
pub enum ClientEventView {
    Attempted(AttemptOutcomeView),
    Waited,
}

impl View for ClientEvent {
    type V = ClientEventView;

    open spec fn view(&self) -> ClientEventView {
        match self {
            ClientEvent::Attempted(outcome) => ClientEventView::Attempted(outcome@),
            ClientEvent::Waited => ClientEventView::Waited,
        }
    }
}

/// What the client asks of the caller.
#[derive(Debug, Clone, PartialEq, Eq)]
pub enum ClientAction {
    /// Send the request and report how the attempt ended.
    Send,
    /// Wait `seconds` after the failure of the `attempt`-th attempt, before
    /// the next one, and report that.
    Wait { seconds: u64, attempt: u32 },
    /// Nothing more: `text` is the client's result for the segment.
    Finish { text: String },
}

/// The view of a `ClientAction`.
pub enum ClientActionView {
    Send,
    Wait { seconds: nat, attempt: nat },
    Finish { text: Seq<char> },
}

impl View for ClientAction {
    type V = ClientActionView;

    open spec fn view(&self) -> ClientActionView {
        match self {
            ClientAction::Send => ClientActionView::Send,
            ClientAction::Wait { seconds, attempt } => ClientActionView::Wait {
                seconds: *seconds as nat,
                attempt: *attempt as nat,
            },
            ClientAction::Finish { text } => ClientActionView::Finish { text: text@ },
        }
    }
}

/// The state in which the client takes up a segment: the first attempt is
/// due.
pub open spec fn start_state() -> ClientStateView {
    ClientStateView::Attempting { attempt: 1 }
}

/// The action that is due in `state`. A client that succeeded finishes with
/// the text it got, one whose attempts all failed with `FAILURE_MARKER`.
pub open spec fn action_of(state: ClientStateView) -> ClientActionView {
    match state {
        ClientStateView::Attempting { .. } => ClientActionView::Send,
        ClientStateView::Waiting { attempt } => ClientActionView::Wait {
            seconds: RETRY_DELAY_SECONDS as nat,
            attempt,
        },
        ClientStateView::Succeeded { text } => ClientActionView::Finish { text },
        ClientStateView::Exhausted => ClientActionView::Finish { text: FAILURE_MARKER@ },
    }
}

/// The state that follows `state` when the caller reports `event`. A
/// successful attempt ends the work on the segment. A failed one is followed
/// by the delay, and the delay by the next attempt. The failure of the last
/// of `MAX_ATTEMPTS` attempts ends the work at once: no delay follows it.
/// An event that does not answer the action due in `state` changes nothing.
pub open spec fn next_state(state: ClientStateView, event: ClientEventView) -> ClientStateView {
    match (state, event) {
        (
            ClientStateView::Attempting { .. },
            ClientEventView::Attempted(AttemptOutcomeView::Succeeded(text)),
        ) => ClientStateView::Succeeded { text },
        (
            ClientStateView::Attempting { attempt },
            ClientEventView::Attempted(AttemptOutcomeView::Failed),
        ) => {
            if attempt < MAX_ATTEMPTS {
                ClientStateView::Waiting { attempt }
            } else {
                ClientStateView::Exhausted
            }
        },
        (ClientStateView::Waiting { attempt }, ClientEventView::Waited) => {
            if attempt < MAX_ATTEMPTS {
                ClientStateView::Attempting { attempt: attempt + 1 }
            } else {
                ClientStateView::Exhausted
            }
        },
        _ => state,
    }
}

impl ClientState {
    /// The state in which the client takes up a segment.
    pub fn start() -> (state: ClientState)
        ensures
            state@ == start_state(),
    {
        ClientState::Attempting { attempt: 1 }
    }

    /// The action that is due.
    pub fn action(&self) -> (action: ClientAction)
        ensures
            action@ == action_of(self@),
    {
        match self {
            ClientState::Attempting { .. } => ClientAction::Send,
            ClientState::Waiting { attempt } => ClientAction::Wait {
                seconds: RETRY_DELAY_SECONDS,
                attempt: *attempt,
            },
            ClientState::Succeeded { text } => ClientAction::Finish { text: text.clone() },
            ClientState::Exhausted => ClientAction::Finish {
                text: String::from_str(FAILURE_MARKER),
            },
        }
    }

    /// Takes the report `event` and moves on.
    pub fn step(self, event: ClientEvent) -> (next: ClientState)
        ensures
            next@ == next_state(self@, event@),
    {
        match (self, event) {
            (
                ClientState::Attempting { .. },
                ClientEvent::Attempted(AttemptOutcome::Succeeded(text)),
            ) => ClientState::Succeeded { text },
            (ClientState::Attempting { attempt }, ClientEvent::Attempted(AttemptOutcome::Failed)) => {
                if attempt < MAX_ATTEMPTS {
                    ClientState::Waiting { attempt }
                } else {
                    ClientState::Exhausted
                }
            },
            (ClientState::Waiting { attempt }, ClientEvent::Waited) => {
                if attempt < MAX_ATTEMPTS {
                    ClientState::Attempting { attempt: attempt + 1 }
                } else {
                    ClientState::Exhausted
                }
            },
            (state, _) => state,
        }
    }

    /// Takes the reply to the request that was sent: `None` where the
    /// transport failed, else the body of the reply.
    pub fn on_reply(self, reply: Option<&str>) -> (next: ClientState)
        ensures
            next@ == next_state(
                self@,
                ClientEventView::Attempted(outcome_of_reply(reply.deep_view())),
            ),
    {
        self.step(ClientEvent::Attempted(attempt_outcome(reply)))
    }
}

/// What comes of the work on one segment: the text that the client
/// finished with, if it came to finish, the number of requests it had sent
/// and the number of delays it had waited.
pub struct ClientRun {
    pub returned: Option<Seq<char>>,
    pub attempts: nat,
    pub waits: nat,
}

/// What comes of a client in `state` whose attempts from now on end as
/// `outcomes` say, one after the other, and whose caller does what the
/// client asks until the client finishes or `outcomes` are used up.
pub open spec fn run_client(state: ClientStateView, outcomes: Seq<AttemptOutcomeView>) -> ClientRun
    decreases outcomes.len(), (if state is Waiting { 1nat } else { 0nat }),
{
    match action_of(state) {
        ClientActionView::Finish { text } => ClientRun {
            returned: Some(text),
            attempts: 0,
            waits: 0,
        },
        ClientActionView::Send => {
            if outcomes.len() == 0 {
                ClientRun { returned: None, attempts: 0, waits: 0 }
            } else {
                let rest = run_client(
                    next_state(state, ClientEventView::Attempted(outcomes[0])),
                    outcomes.skip(1),
                );
                ClientRun {
                    returned: rest.returned,
                    attempts: rest.attempts + 1,
                    waits: rest.waits,
                }
            }
        },
        ClientActionView::Wait { .. } => {
            let rest = run_client(next_state(state, ClientEventView::Waited), outcomes);
            ClientRun { returned: rest.returned, attempts: rest.attempts, waits: rest.waits + 1 }
        },
    }
}

/// `count` failed attempts.
pub open spec fn failures(count: nat) -> Seq<AttemptOutcomeView> {
    Seq::new(count, |i: int| AttemptOutcomeView::Failed)
}

/// A client whose `attempt`-th attempt is due, and that has fewer failures
/// ahead than attempts left, gets the text of the first attempt that
/// succeeds, after one delay for each of the `failed` failures.
proof fn lemma_retry_from(attempt: nat, failed: nat, text: Seq<char>, later: Seq<AttemptOutcomeView>)
    requires
        1 <= attempt,
        attempt + failed <= MAX_ATTEMPTS,
    ensures
        run_client(
            ClientStateView::Attempting { attempt },
            failures(failed) + seq![AttemptOutcomeView::Succeeded(text)] + later,
        ) == (ClientRun { returned: Some(text), attempts: failed + 1, waits: failed }),
    decreases failed,
{
    let outcomes = failures(failed) + seq![AttemptOutcomeView::Succeeded(text)] + later;
    if failed == 0 {
        let done = ClientStateView::Succeeded { text };
        assert(run_client(done, outcomes.skip(1)) == (ClientRun {
            returned: Some(text),
            attempts: 0,
            waits: 0,
        }));
    } else {
        let waiting = ClientStateView::Waiting { attempt };
        assert(outcomes.skip(1) =~= failures((failed - 1) as nat) + seq![
            AttemptOutcomeView::Succeeded(text),
        ] + later);
        lemma_retry_from(attempt + 1, (failed - 1) as nat, text, later);
        assert(run_client(waiting, outcomes.skip(1)) == (ClientRun {
            returned: Some(text),
            attempts: failed,
            waits: failed,
        }));
    }
}

/// A service that fails fewer than `MAX_ATTEMPTS` times and then replies
/// with `text` has the client finish with `text`: it has then sent one
/// request for each failure and one more, and waited one delay for each
/// failure. What the service would do later does not matter.
pub proof fn lemma_client_retries_until_success(
    failed: nat,
    text: Seq<char>,
    later: Seq<AttemptOutcomeView>,
)
    requires
        failed < MAX_ATTEMPTS,
    ensures
        run_client(
            start_state(),
            failures(failed) + seq![AttemptOutcomeView::Succeeded(text)] + later,
        ) == (ClientRun { returned: Some(text), attempts: failed + 1, waits: failed }),
{
    lemma_retry_from(1, failed, text, later);
}

/// A client whose `attempt`-th attempt is due sends no more requests than
/// it has attempts left and waits fewer delays than that. If these attempts
/// all fail it finishes with `FAILURE_MARKER`, having waited between them
/// and not after the last.
proof fn lemma_attempts_from(attempt: nat, outcomes: Seq<AttemptOutcomeView>)
    requires
        1 <= attempt <= MAX_ATTEMPTS,
    ensures
        run_client(ClientStateView::Attempting { attempt }, outcomes).attempts <= MAX_ATTEMPTS
            - attempt + 1,
        run_client(ClientStateView::Attempting { attempt }, outcomes).waits <= MAX_ATTEMPTS
            - attempt,
        outcomes.len() >= MAX_ATTEMPTS - attempt + 1 && (forall|i: int|
            0 <= i <= MAX_ATTEMPTS - attempt ==> outcomes[i] is Failed) ==> run_client(
            ClientStateView::Attempting { attempt },
            outcomes,
        ) == (ClientRun {
            returned: Some(FAILURE_MARKER@),
            attempts: (MAX_ATTEMPTS - attempt + 1) as nat,
            waits: (MAX_ATTEMPTS - attempt) as nat,
        }),
    decreases MAX_ATTEMPTS - attempt,
{
    if outcomes.len() > 0 {
        let rest = outcomes.skip(1);
        match outcomes[0] {
            AttemptOutcomeView::Succeeded(text) => {
                let done = ClientStateView::Succeeded { text };
                assert(run_client(done, rest) == (ClientRun {
                    returned: Some(text),
                    attempts: 0,
                    waits: 0,
                }));
            },
            AttemptOutcomeView::Failed => {
                if attempt < MAX_ATTEMPTS {
                    let waiting = ClientStateView::Waiting { attempt };
                    let again = ClientStateView::Attempting { attempt: attempt + 1 };
                    assert(next_state(waiting, ClientEventView::Waited) == again);
                    lemma_attempts_from(attempt + 1, rest);
                    let tail = run_client(again, rest);
                    assert(run_client(waiting, rest) == (ClientRun {
                        returned: tail.returned,
                        attempts: tail.attempts,
                        waits: tail.waits + 1,
                    }));
                    if outcomes.len() >= MAX_ATTEMPTS - attempt + 1 && (forall|i: int|
                        0 <= i <= MAX_ATTEMPTS - attempt ==> outcomes[i] is Failed) {
                        assert forall|i: int|
                            0 <= i <= MAX_ATTEMPTS - (attempt + 1) implies rest[i] is Failed by {
                            assert(rest[i] == outcomes[i + 1]);
                        }
                    }
                } else {
                    assert(run_client(ClientStateView::Exhausted, rest) == (ClientRun {
                        returned: Some(FAILURE_MARKER@),
                        attempts: 0,
                        waits: 0,
                    }));
                }
            },
        }
    }
}

/// A service that fails `MAX_ATTEMPTS` times has the client finish with
/// `FAILURE_MARKER`, after exactly `MAX_ATTEMPTS` requests with a delay
/// between one and the next, and none after the last.
pub proof fn lemma_client_gives_up(outcomes: Seq<AttemptOutcomeView>)
    requires
        outcomes.len() >= MAX_ATTEMPTS,
        forall|i: int| 0 <= i < MAX_ATTEMPTS ==> outcomes[i] is Failed,
    ensures
        run_client(start_state(), outcomes) == (ClientRun {
            returned: Some(FAILURE_MARKER@),
            attempts: MAX_ATTEMPTS as nat,
            waits: (MAX_ATTEMPTS - 1) as nat,
        }),
{
    lemma_attempts_from(1, outcomes);
}

/// Whatever the service does, the client sends at most `MAX_ATTEMPTS`
/// requests for a segment, and waits fewer delays than that.
pub proof fn lemma_client_attempts_bounded(outcomes: Seq<AttemptOutcomeView>)
    ensures
        run_client(start_state(), outcomes).attempts <= MAX_ATTEMPTS,
        run_client(start_state(), outcomes).waits < MAX_ATTEMPTS,
{
    lemma_attempts_from(1, outcomes);
}

} // verus!

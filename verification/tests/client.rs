use translate_pipeline::client::{
    attempt_outcome, build_prompt, build_request, field_outcome, read_reply, AttemptOutcome,
    ClientAction, ClientEvent, ClientState, ReplyField, CONTEXT_WINDOW, ENDPOINT, FAILURE_MARKER,
    MAX_ATTEMPTS, REQUEST_TIMEOUT_SECONDS, RESPONSE_MEMBER, RETRY_DELAY_SECONDS,
    TEMPERATURE_PERCENT,
};

/// What a run of the client against a service came to.
struct Run {
    text: String,
    sent: u32,
    waited: Vec<u64>,
}

/// Does what the client asks, with a service whose `n`-th reply, counted
/// from one, is `service(n)`.
fn run_client(service: impl Fn(u32) -> Option<String>) -> Run {
    let mut state = ClientState::start();
    let mut sent = 0;
    let mut waited = Vec::new();
    loop {
        match state.action() {
            ClientAction::Send => {
                sent += 1;
                assert!(sent <= 100, "the client does not stop sending");
                let reply = service(sent);
                state = state.on_reply(reply.as_deref());
            }
            ClientAction::Wait { seconds, attempt } => {
                assert_eq!(attempt, sent);
                waited.push(seconds);
                state = state.step(ClientEvent::Waited);
            }
            ClientAction::Finish { text } => return Run { text, sent, waited },
        }
    }
}

#[test]
fn constants_have_their_values() {
    assert_eq!(MAX_ATTEMPTS, 5);
    assert_eq!(RETRY_DELAY_SECONDS, 5);
    assert_eq!(REQUEST_TIMEOUT_SECONDS, 600);
    assert_eq!(CONTEXT_WINDOW, 8192);
    assert_eq!(TEMPERATURE_PERCENT, 30);
    assert_eq!(ENDPOINT, "http://localhost:11434/api/generate");
    assert_eq!(RESPONSE_MEMBER, "response");
    assert_eq!(FAILURE_MARKER, "[FAILED CHUNK: Server overloaded]");
}

#[test]
fn prompt_embeds_language_and_text() {
    assert_eq!(
        build_prompt("Hello world", "ar"),
        "Translate the following text into ar. Provide ONLY the translation. Text:\nHello world"
    );
    assert_eq!(
        build_prompt("Guten Tag", "French"),
        "Translate the following text into French. Provide ONLY the translation. Text:\nGuten Tag"
    );
    assert_eq!(
        build_prompt("", ""),
        "Translate the following text into . Provide ONLY the translation. Text:\n"
    );
}

#[test]
fn request_asks_for_one_complete_reply() {
    let request = build_request("Hello", "ar", "aya:8b");
    assert_eq!(request.model, "aya:8b");
    assert_eq!(request.prompt, build_prompt("Hello", "ar"));
    assert!(!request.stream);
    assert_eq!(request.context_window, 8192);
    assert_eq!(request.temperature_percent, 30);
}

#[test]
fn reply_with_text_is_read() {
    assert_eq!(
        read_reply("{\"model\":\"aya:8b\",\"response\":\"مرحبا\",\"done\":true}"),
        ReplyField::Text("مرحبا".to_string())
    );
    assert_eq!(read_reply("{\"response\":\"\"}"), ReplyField::Text(String::new()));
    assert_eq!(
        read_reply(" { \"response\" : \"a\\nb \\u00e9\" } "),
        ReplyField::Text("a\nb é".to_string())
    );
}

#[test]
fn reply_member_that_is_no_string_is_told_apart() {
    assert_eq!(read_reply("{\"response\":5}"), ReplyField::NotText);
    assert_eq!(read_reply("{\"response\":null}"), ReplyField::NotText);
    assert_eq!(read_reply("{\"response\":[\"a\"]}"), ReplyField::NotText);
    assert_eq!(read_reply("{\"response\":{\"response\":\"a\"}}"), ReplyField::NotText);
}

#[test]
fn reply_without_the_member_is_missing() {
    assert_eq!(read_reply("{\"error\":\"model not found\"}"), ReplyField::Missing);
    assert_eq!(read_reply("{}"), ReplyField::Missing);
    assert_eq!(read_reply("{\"Response\":\"a\"}"), ReplyField::Missing);
    assert_eq!(read_reply("{\"inner\":{\"response\":\"a\"}}"), ReplyField::Missing);
}

#[test]
fn reply_that_is_no_object_is_missing() {
    assert_eq!(read_reply("[\"response\"]"), ReplyField::Missing);
    assert_eq!(read_reply("\"response\""), ReplyField::Missing);
    assert_eq!(read_reply("17"), ReplyField::Missing);
    assert_eq!(read_reply("null"), ReplyField::Missing);
}

#[test]
fn reply_that_is_no_json_is_missing() {
    assert_eq!(read_reply(""), ReplyField::Missing);
    assert_eq!(read_reply("<html>502 Bad Gateway</html>"), ReplyField::Missing);
    assert_eq!(read_reply("{\"response\":\"cut"), ReplyField::Missing);
    assert_eq!(read_reply("{\"response\":\"a\"} trailing"), ReplyField::Missing);
}

#[test]
fn field_decides_the_outcome() {
    assert_eq!(field_outcome(ReplyField::Missing), AttemptOutcome::Failed);
    assert_eq!(field_outcome(ReplyField::NotText), AttemptOutcome::Succeeded(String::new()));
    assert_eq!(
        field_outcome(ReplyField::Text("bonjour".to_string())),
        AttemptOutcome::Succeeded("bonjour".to_string())
    );
}

#[test]
fn attempt_outcome_covers_transport_and_reply() {
    assert_eq!(attempt_outcome(None), AttemptOutcome::Failed);
    assert_eq!(attempt_outcome(Some("no json")), AttemptOutcome::Failed);
    assert_eq!(attempt_outcome(Some("{\"done\":true}")), AttemptOutcome::Failed);
    assert_eq!(
        attempt_outcome(Some("{\"response\":7}")),
        AttemptOutcome::Succeeded(String::new())
    );
    assert_eq!(
        attempt_outcome(Some("{\"response\":\"text\"}")),
        AttemptOutcome::Succeeded("text".to_string())
    );
}

#[test]
fn client_starts_with_the_first_attempt() {
    assert_eq!(ClientState::start(), ClientState::Attempting { attempt: 1 });
    assert_eq!(ClientState::start().action(), ClientAction::Send);
}

#[test]
fn success_at_once_needs_one_attempt() {
    let run = run_client(|_| Some("{\"response\":\"done\"}".to_string()));
    assert_eq!(run.text, "done");
    assert_eq!(run.sent, 1);
    assert_eq!(run.waited, Vec::<u64>::new());
}

#[test]
fn fifth_attempt_succeeds_after_four_failures() {
    let run = run_client(|n| {
        if n < 5 {
            None
        } else {
            Some("{\"response\":\"translated\"}".to_string())
        }
    });
    assert_eq!(run.text, "translated");
    assert_eq!(run.sent, 5);
    assert_eq!(run.waited, vec![5, 5, 5, 5]);
}

#[test]
fn every_kind_of_failure_is_retried_alike() {
    let run = run_client(|n| match n {
        1 => None,
        2 => Some("not json".to_string()),
        3 => Some("{\"error\":\"busy\"}".to_string()),
        _ => Some("{\"response\":\"ok\"}".to_string()),
    });
    assert_eq!(run.text, "ok");
    assert_eq!(run.sent, 4);
    assert_eq!(run.waited, vec![5, 5, 5]);
}

#[test]
fn client_gives_up_after_five_failures() {
    let run = run_client(|_| None);
    assert_eq!(run.text, "[FAILED CHUNK: Server overloaded]");
    assert_eq!(run.sent, 5);
    assert_eq!(run.waited, vec![5, 5, 5, 5]);
}

#[test]
fn steps_follow_the_attempt_count() {
    let failed = ClientEvent::Attempted(AttemptOutcome::Failed);
    let state = ClientState::Attempting { attempt: 3 }.step(failed.clone());
    assert_eq!(state, ClientState::Waiting { attempt: 3 });
    assert_eq!(state.action(), ClientAction::Wait { seconds: 5, attempt: 3 });
    assert_eq!(state.step(ClientEvent::Waited), ClientState::Attempting { attempt: 4 });
    let fourth = ClientState::Attempting { attempt: 4 }.step(failed.clone());
    assert_eq!(fourth, ClientState::Waiting { attempt: 4 });
    assert_eq!(fourth.step(ClientEvent::Waited), ClientState::Attempting { attempt: 5 });
    let last = ClientState::Attempting { attempt: 5 }.step(failed);
    assert_eq!(last, ClientState::Exhausted);
    assert_eq!(
        ClientState::Exhausted.action(),
        ClientAction::Finish { text: FAILURE_MARKER.to_string() }
    );
}

#[test]
fn no_delay_follows_the_last_failure() {
    let state = ClientState::Attempting { attempt: 5 }.on_reply(None);
    assert_eq!(state.action(), ClientAction::Finish { text: FAILURE_MARKER.to_string() });
    let state = ClientState::Attempting { attempt: 5 }.on_reply(Some("{\"error\":\"busy\"}"));
    assert_eq!(state, ClientState::Exhausted);
}

#[test]
fn event_that_answers_nothing_changes_nothing() {
    let text = ClientEvent::Attempted(AttemptOutcome::Succeeded("late".to_string()));
    assert_eq!(
        ClientState::Attempting { attempt: 2 }.step(ClientEvent::Waited),
        ClientState::Attempting { attempt: 2 }
    );
    assert_eq!(
        ClientState::Waiting { attempt: 2 }.step(text.clone()),
        ClientState::Waiting { attempt: 2 }
    );
    assert_eq!(ClientState::Exhausted.step(text.clone()), ClientState::Exhausted);
    assert_eq!(ClientState::Exhausted.step(ClientEvent::Waited), ClientState::Exhausted);
    let done = ClientState::Succeeded { text: "first".to_string() };
    assert_eq!(done.clone().step(text), done);
    assert_eq!(done.clone().on_reply(None), done);
    assert_eq!(done.action(), ClientAction::Finish { text: "first".to_string() });
}

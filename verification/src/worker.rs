//! The worker loop's decision core. The surrounding process blocks on the
//! bus and hands each event in; this module decides — from the event, the
//! executor's outcome and a fresh identifier — whether to publish a
//! response, drop the message, or terminate, and proves the decisions
//! consistent.

use vstd::prelude::*;
use crate::codec::{decode_command, push_char, spec_decode_command};
use crate::schema::{EventResponse, EventResponseView};

verus! {

/// The result of performing one unit of work. The executor must capture any
/// internal error of its own into `Failure`.
pub enum Outcome {
    Success(String),
    Failure(String),
}

/// The mathematical content of an `Outcome`.
pub enum OutcomeView {
    Success(Seq<char>),
    Failure(Seq<char>),
}

impl View for Outcome {
    type V = OutcomeView;

    open spec fn view(&self) -> OutcomeView {
        match self {
            Outcome::Success(c) => OutcomeView::Success(c@),
            Outcome::Failure(c) => OutcomeView::Failure(c@),
        }
    }
}

/// The external capability that performs the unit of work a command names.
/// The core depends only on this signature: any outcome is handled.
pub trait Executor {
    fn execute(&mut self, job_reference: &str) -> Outcome;
}

/// What the bus hands the loop: one raw payload, or the loss of the
/// receiving connection.
pub enum BusEvent {
    Payload(String),
    ConnectionLost,
}

/// The loop's decision for one event.
pub enum Step {
    Respond(EventResponse),
    Skip,
    Stop,
}

/// The status label of a successful outcome.
pub open spec fn success_status() -> Seq<char> {
    seq!['s', 'u', 'c', 'c', 'e', 's', 's']
}

/// The status label of a failed outcome.
pub open spec fn failure_status() -> Seq<char> {
    seq!['f', 'a', 'i', 'l', 'u', 'r', 'e']
}

/// The response owed for an outcome, under a given response identifier:
/// `status` and `is_error` are derived together from the one outcome, and
/// the content is the outcome's own.
pub open spec fn spec_response_of(o: OutcomeView, id: Seq<char>) -> EventResponseView {
    match o {
        OutcomeView::Success(c) => EventResponseView {
            id: id,
            status: success_status(),
            content: c,
            is_error: false,
        },
        OutcomeView::Failure(c) => EventResponseView {
            id: id,
            status: failure_status(),
            content: c,
            is_error: true,
        },
    }
}

/// What one payload becomes under a given outcome and response identifier:
/// exactly one response when it decodes, none when it is malformed.
pub open spec fn spec_step_of(payload: Seq<char>, o: OutcomeView, id: Seq<char>) -> Option<
    EventResponseView,
> {
    match spec_decode_command(payload) {
        Some(_) => Some(spec_response_of(o, id)),
        None => None,
    }
}

/// `status` and `is_error` can never contradict each other: the response of
/// any outcome carries `success` exactly when `is_error` is false, and
/// `failure` exactly when it is true.
pub proof fn lemma_status_error_consistent(o: OutcomeView, id: Seq<char>)
    ensures
        (spec_response_of(o, id).status == success_status()) <==> !spec_response_of(o, id).is_error,
        (spec_response_of(o, id).status == failure_status()) <==> spec_response_of(o, id).is_error,
{
    assert(success_status()[0] == 's');
    assert(failure_status()[0] == 'f');
    assert(success_status() != failure_status());
}

/// A sequence of decodable commands yields exactly one response each, and
/// distinct response identifiers give the responses distinct identifiers.
pub proof fn lemma_one_response_per_command(
    payloads: Seq<Seq<char>>,
    outcomes: Seq<OutcomeView>,
    ids: Seq<Seq<char>>,
)
    requires
        outcomes.len() == payloads.len(),
        ids.len() == payloads.len(),
        forall|i: int|
            0 <= i < payloads.len() ==> (#[trigger] spec_decode_command(payloads[i])) is Some,
        forall|i: int, j: int| 0 <= i < j < ids.len() ==> ids[i] != ids[j],
    ensures
        forall|i: int|
            0 <= i < payloads.len() ==> #[trigger] spec_step_of(payloads[i], outcomes[i], ids[i])
                == Some(spec_response_of(outcomes[i], ids[i])),
        forall|i: int|
            0 <= i < payloads.len() ==> (#[trigger] spec_response_of(outcomes[i], ids[i])).id
                == ids[i],
        forall|i: int, j: int|
            #![trigger spec_response_of(outcomes[i], ids[i]), spec_response_of(outcomes[j], ids[j])]
            0 <= i < j < payloads.len() ==> spec_response_of(outcomes[i], ids[i]).id
                != spec_response_of(outcomes[j], ids[j]).id,
{
}

/// A failing executor is message-local: the command still gets exactly one
/// response, marked `failure`, and the loop's step is a response, never a
/// termination.
pub proof fn lemma_executor_failure_is_message_local(
    payload: Seq<char>,
    message: Seq<char>,
    id: Seq<char>,
)
    requires
        spec_decode_command(payload) is Some,
    ensures
        spec_step_of(payload, OutcomeView::Failure(message), id) == Some(
            spec_response_of(OutcomeView::Failure(message), id),
        ),
        spec_response_of(OutcomeView::Failure(message), id).is_error,
        spec_response_of(OutcomeView::Failure(message), id).status == failure_status(),
{
}

/// Relies on uuid::Uuid::new_v4 and its `Display` form: a fresh random
/// version-4 identifier, written hyphenated as 36 characters. Nothing more
/// is assumed of the value: it is random.
#[verifier::external_body]
fn fresh_response_id() -> (r: String)
    ensures
        r@.len() == 36,
{
    uuid::Uuid::new_v4().to_string()
}

fn success_string() -> (s: String)
    ensures
        s@ == success_status(),
{
    let mut s = String::new();
    push_char(&mut s, 's');
    push_char(&mut s, 'u');
    push_char(&mut s, 'c');
    push_char(&mut s, 'c');
    push_char(&mut s, 'e');
    push_char(&mut s, 's');
    push_char(&mut s, 's');
    proof {
        assert(s@ =~= success_status());
    }
    s
}

fn failure_string() -> (s: String)
    ensures
        s@ == failure_status(),
{
    let mut s = String::new();
    push_char(&mut s, 'f');
    push_char(&mut s, 'a');
    push_char(&mut s, 'i');
    push_char(&mut s, 'l');
    push_char(&mut s, 'u');
    push_char(&mut s, 'r');
    push_char(&mut s, 'e');
    proof {
        assert(s@ =~= failure_status());
    }
    s
}

/// Build the response owed for one outcome, under the given identifier:
/// exactly `spec_response_of`, so `status` and `is_error` cannot disagree.
pub fn build_response(outcome: Outcome, response_id: String) -> (r: EventResponse)
    ensures
        r@ == spec_response_of(outcome@, response_id@),
{
    match outcome {
        Outcome::Success(content) => EventResponse {
            id: response_id,
            status: success_string(),
            content: content,
            is_error: false,
        },
        Outcome::Failure(content) => EventResponse {
            id: response_id,
            status: failure_string(),
            content: content,
            is_error: true,
        },
    }
}

/// Decide one event. A lost connection is the only stop; a payload is never
/// one: it is answered exactly when it decodes, under a fresh identifier,
/// and dropped without a response exactly when it is malformed.
pub fn handle_event<E: Executor>(executor: &mut E, event: &BusEvent) -> (s: Step)
    ensures
        match event {
            BusEvent::ConnectionLost => s is Stop,
            BusEvent::Payload(p) => {
                &&& !(s is Stop)
                &&& (s is Skip <==> spec_decode_command(p@) is None)
                &&& (s is Respond <==> spec_decode_command(p@) is Some)
                &&& match s {
                    Step::Respond(resp) => exists|o: OutcomeView, id: Seq<char>|
                        #[trigger] spec_step_of(p@, o, id) == Some(resp@) && id.len() == 36,
                    _ => true,
                }
            },
        },
{
    match event {
        BusEvent::ConnectionLost => Step::Stop,
        BusEvent::Payload(p) => {
            match decode_command(p.as_str()) {
                Err(_) => Step::Skip,
                Ok(cmd) => {
                    let outcome = executor.execute(cmd.jar_path.as_str());
                    let rid = fresh_response_id();
                    let ghost o = outcome@;
                    let ghost idv = rid@;
                    let resp = build_response(outcome, rid);
                    proof {
                        assert(spec_step_of(p@, o, idv) == Some(resp@));
                    }
                    Step::Respond(resp)
                },
            }
        },
    }
}

/// The process exit policy: zero exactly on a clean shutdown; any fatal
/// connection failure exits non-zero.
pub fn exit_code(clean_shutdown: bool) -> (c: i32)
    ensures
        (c == 0) <==> clean_shutdown,
{
    if clean_shutdown {
        0
    } else {
        1
    }
}

} // verus!

//! The two message shapes of the protocol: an inbound command and an
//! outbound response, together with their mathematical views.

use vstd::prelude::*;

verus! {

/// An inbound job request, decoded from the command channel.
/// `id` is an opaque producer-assigned identifier; `jar_path` locates the
/// unit of work and is meaningful only to the executor.
#[derive(Debug)]
pub struct EventData {
    pub id: String,
    pub jar_path: String,
}

/// The mathematical content of an `EventData`: its fields as character
/// sequences.
pub struct EventDataView {
    pub id: Seq<char>,
    pub jar_path: Seq<char>,
}

impl View for EventData {
    type V = EventDataView;

    open spec fn view(&self) -> EventDataView {
        EventDataView { id: self.id@, jar_path: self.jar_path@ }
    }
}

/// An outbound result for one processed command, published on the
/// response channel.
#[derive(Debug)]
pub struct EventResponse {
    pub id: String,
    pub status: String,
    pub content: String,
    pub is_error: bool,
}

/// The mathematical content of an `EventResponse`.
pub struct EventResponseView {
    pub id: Seq<char>,
    pub status: Seq<char>,
    pub content: Seq<char>,
    pub is_error: bool,
}

impl View for EventResponse {
    type V = EventResponseView;

    open spec fn view(&self) -> EventResponseView {
        EventResponseView {
            id: self.id@,
            status: self.status@,
            content: self.content@,
            is_error: self.is_error,
        }
    }
}

} // verus!

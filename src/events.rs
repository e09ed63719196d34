use vstd::prelude::*;
use crate::json::{Json, JsonModel};

verus! {

/// The kind of user action that an event records.
#[derive(Clone, Copy, Debug, PartialEq, Eq, Structural)]
pub enum EventType {
    Search,
    SearchResult,
}

impl EventType {
    /// The name under which the event type is published.
    pub fn name(&self) -> (r: &'static str) {
        match self {
            EventType::Search => "search",
            EventType::SearchResult => "search_result",
        }
    }
}

/// The queue to which user-action events are sent.
#[derive(Debug, PartialEq)]
pub struct EventTopic {
    pub queue_url: String,
}

impl EventTopic {
    pub fn duplicate(&self) -> (r: EventTopic)
        ensures
            r.queue_url@ == self.queue_url@,
    {
        EventTopic { queue_url: self.queue_url.clone() }
    }
}

/// Where events go to be published. Publishing itself happens outside
/// the evaluator, which only records what is to be sent.
#[derive(Debug)]
pub struct EventClient {}

impl EventClient {
    pub fn new() -> EventClient {
        EventClient {  }
    }
}

/// Why an event could not be handed over.
#[derive(Debug, PartialEq, Eq, Structural)]
pub enum EventEmissionError {
    ClientError(),
}

/// An event recorded by a transform, to be published.
#[derive(Debug)]
pub struct Event {
    pub topic: EventTopic,
    pub owner_id: Option<String>,
    pub event_type: EventType,
    pub context_id: u128,
    pub payload: Json,
    pub page_context: Json,
}

pub struct EventModel {
    pub topic: Seq<char>,
    pub owner_id: Option<Seq<char>>,
    pub event_type: EventType,
    pub context_id: u128,
    pub payload: JsonModel,
    pub page_context: JsonModel,
}

pub open spec fn opt_str(o: Option<String>) -> Option<Seq<char>> {
    match o {
        Some(s) => Some(s@),
        None => None,
    }
}

impl View for Event {
    type V = EventModel;

    open spec fn view(&self) -> EventModel {
        EventModel {
            topic: self.topic.queue_url@,
            owner_id: opt_str(self.owner_id),
            event_type: self.event_type,
            context_id: self.context_id,
            payload: self.payload@,
            page_context: self.page_context@,
        }
    }
}

} // verus!

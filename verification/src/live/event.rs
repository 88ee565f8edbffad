//! The events a client sends, and the checks made on them.

use vstd::prelude::*;
use crate::text::string_from;
use crate::live::error::LiveError;
use crate::forms::json::{jentries, jm, json_copy, JModel, JsonValue};

verus! {

/// A client-side event (a click, an input) aimed at an action handler.
#[derive(Debug)]
pub struct ClientEvent {
    pub session: String,
    pub component: String,
    pub event: String,
    pub handler: String,
    pub payload: Vec<(String, JsonValue)>,
    pub seq: u64,
}

/// A submitted form aimed at a handler.
#[derive(Debug)]
pub struct FormSubmitEvent {
    pub session: String,
    pub component: String,
    pub handler: String,
    pub form: Vec<(String, JsonValue)>,
    pub seq: u64,
}

/// An event must name its session and its handler: `InvalidEvent("empty
/// session")`, else `InvalidEvent("empty handler")`, else `Ok`. Clicks and
/// form submissions are checked alike.
pub fn validate_event(session: &str, handler: &str) -> (r: Result<(), LiveError>)
    ensures
        session@.len() == 0 ==> (r matches Err(LiveError::InvalidEvent(m)) && m@ == "empty session"@),
        session@.len() > 0 && handler@.len() == 0 ==> (r matches Err(LiveError::InvalidEvent(m)) && m@
            == "empty handler"@),
        session@.len() > 0 && handler@.len() > 0 ==> r is Ok,
{
    if session.unicode_len() == 0 {
        return Err(LiveError::InvalidEvent(string_from("empty session")));
    }
    if handler.unicode_len() == 0 {
        return Err(LiveError::InvalidEvent(string_from("empty handler")));
    }
    Ok(())
}

/// A client event must name its session and its handler (see
/// `validate_event`); the component may be empty.
pub fn validate_client_event(event: &ClientEvent) -> (r: Result<(), LiveError>)
    ensures
        event.session@.len() == 0 ==> (r matches Err(LiveError::InvalidEvent(m)) && m@ == "empty session"@),
        event.session@.len() > 0 && event.handler@.len() == 0 ==> (r matches Err(LiveError::InvalidEvent(m)) && m@
            == "empty handler"@),
        event.session@.len() > 0 && event.handler@.len() > 0 ==> r is Ok,
{
    validate_event(event.session.as_str(), event.handler.as_str())
}

/// A form submission must name its session and its handler (see
/// `validate_event`); the component may be empty.
pub fn validate_form_event(event: &FormSubmitEvent) -> (r: Result<(), LiveError>)
    ensures
        event.session@.len() == 0 ==> (r matches Err(LiveError::InvalidEvent(m)) && m@ == "empty session"@),
        event.session@.len() > 0 && event.handler@.len() == 0 ==> (r matches Err(LiveError::InvalidEvent(m)) && m@
            == "empty handler"@),
        event.session@.len() > 0 && event.handler@.len() > 0 ==> r is Ok,
{
    validate_event(event.session.as_str(), event.handler.as_str())
}

/// The arguments an action gets from an event: its payload as one object.
pub fn extract_action_args(event: &ClientEvent) -> (r: JsonValue)
    ensures
        jm(r) == JModel::Object(jentries(event.payload@)),
{
    json_copy(&JsonValue::Object(copy_entries(&event.payload)))
}

fn copy_entries(es: &Vec<(String, JsonValue)>) -> (r: Vec<(String, JsonValue)>)
    ensures
        jentries(r@) == jentries(es@),
{
    let mut r: Vec<(String, JsonValue)> = Vec::new();
    let mut i: usize = 0;
    while i < es.len()
        invariant
            i <= es@.len(),
            r@.len() == i,
            forall|j: int| 0 <= j < i ==> (#[trigger] r@[j]).0@ == es@[j].0@ && jm(r@[j].1) == jm(es@[j].1),
        decreases es@.len() - i,
    {
        r.push((es[i].0.clone(), json_copy(&es[i].1)));
        i += 1;
    }
    proof {
        crate::forms::json::lemma_jentries_len(r@);
        crate::forms::json::lemma_jentries_len(es@);
        assert(jentries(r@) =~= jentries(es@));
    }
    r
}

} // verus!

//! Agent-to-agent messages: their kinds and how each is made.

use vstd::prelude::*;
use serde_json::Value;
use crate::prompt::few_shot::now_rfc3339;
use crate::prompt::response_parser::{json_object, json_object_value, json_string, json_string_value};
use crate::reviewer::new_uuid_string;
use crate::text::string_views;

verus! {

/// Message kinds for agent communication.
#[derive(Debug, Clone)]
pub enum MessageType {
    /// A task is complete, so a dependency on it is satisfied.
    DependencyResolved { task_id: String },
    /// Issues found in another agent's output.
    ReviewRequest { entity_uri: String, issues: Vec<String> },
    /// A proposed symbol name awaiting confirmation.
    SymbolProposal { sdef_uri: String, proposed_name: String },
    /// More information needed about an entity.
    ClarificationRequest { entity_uri: String, question: String },
    /// The information asked for.
    ClarificationResponse { entity_uri: String, answer: String },
}

/// A direct agent-to-agent message.
#[derive(Debug)]
pub struct AgentMessage {
    pub message_id: String,
    pub from: String,
    pub to: String,
    pub message_type: MessageType,
    pub payload: Value,
    pub timestamp: String,
    pub read: bool,
}

/// The JSON array of the values, in order (serde_json `Value::Array`).
pub uninterp spec fn json_array_value(items: Seq<Value>) -> Value;

/// A JSON array of the values, in order (serde_json `Value::Array`).
#[verifier::external_body]
fn json_array(items: Vec<Value>) -> (r: Value)
    ensures
        r == json_array_value(items@),
{
    Value::Array(items)
}

/// The JSON string values of texts, in order.
pub open spec fn json_strings(items: Seq<String>) -> Seq<Value> {
    items.map_values(|s: String| json_string_value(s@))
}

/// A JSON array of strings: the array of the string values of the items,
/// in order.
fn json_string_array(items: &Vec<String>) -> (r: Value)
    ensures
        r == json_array_value(json_strings(items@)),
{
    let mut values: Vec<Value> = Vec::new();
    let mut i: usize = 0;
    while i < items.len()
        invariant
            i <= items@.len(),
            values@ == json_strings(items@.take(i as int)),
        decreases items@.len() - i,
    {
        let ghost before = values@;
        values.push(json_string(items[i].as_str()));
        proof {
            assert(json_strings(items@.take(i + 1)) =~= json_strings(items@.take(i as int)).push(
                json_string_value(items@[i as int]@),
            ));
        }
        i += 1;
    }
    proof {
        assert(items@.take(items@.len() as int) == items@);
    }
    json_array(values)
}

/// A JSON object of two string members: the object built from `k1` with
/// the string `v1`, then `k2` with the string `v2`.
fn string_pair_object(k1: &str, v1: &str, k2: &str, v2: &str) -> (r: Value)
    ensures
        r == json_object_value(seq![(k1@, json_string_value(v1@)), (k2@, json_string_value(v2@))]),
{
    let mut members: Vec<(String, Value)> = Vec::new();
    members.push((k1.to_owned(), json_string(v1)));
    members.push((k2.to_owned(), json_string(v2)));
    proof {
        assert(crate::prompt::response_parser::member_views(members@) =~= seq![
            (k1@, json_string_value(v1@)),
            (k2@, json_string_value(v2@)),
        ]);
    }
    json_object(members)
}

fn clone_strings(v: &Vec<String>) -> (r: Vec<String>)
    ensures
        string_views(r@) == string_views(v@),
{
    let mut r: Vec<String> = Vec::new();
    let mut i: usize = 0;
    while i < v.len()
        invariant
            i <= v@.len(),
            string_views(r@) == string_views(v@.take(i as int)),
        decreases v@.len() - i,
    {
        let ghost before = r@;
        r.push(v[i].clone());
        proof {
            assert(string_views(r@) =~= string_views(before).push(v@[i as int]@));
            assert(string_views(v@.take(i + 1)) =~= string_views(v@.take(i as int)).push(v@[i as int]@));
        }
        i += 1;
    }
    assert(v@.take(v@.len() as int) == v@);
    r
}

/// The parts of a new message that its maker fixes: a fresh 36-character
/// id, the sender and recipient, the kind, and unread.
pub open spec fn new_message(m: AgentMessage, from: Seq<char>, to: Seq<char>) -> bool {
    &&& m.message_id@.len() == 36
    &&& m.from@ == from
    &&& m.to@ == to
    &&& !m.read
}

impl AgentMessage {
    /// A notification that a task is done, so a dependency on it is
    /// satisfied; its payload is an empty object.
    pub fn dependency_resolved(from: &str, to: &str, task_id: &str) -> (m: Self)
        ensures
            new_message(m, from@, to@),
            m.message_type matches MessageType::DependencyResolved { task_id: t } && t@ == task_id@,
    {
        AgentMessage {
            message_id: new_uuid_string(),
            from: from.to_owned(),
            to: to.to_owned(),
            message_type: MessageType::DependencyResolved { task_id: task_id.to_owned() },
            payload: json_object(Vec::new()),
            timestamp: now_rfc3339(),
            read: false,
        }
    }

    /// A review request listing issues; its payload holds the issues under
    /// `issues`.
    pub fn review_request(from: &str, to: &str, entity_uri: &str, issues: Vec<String>) -> (m: Self)
        ensures
            new_message(m, from@, to@),
            m.message_type matches MessageType::ReviewRequest { entity_uri: e, issues: i } && e@ == entity_uri@
                && string_views(i@) == string_views(issues@),
    {
        let mut members: Vec<(String, Value)> = Vec::new();
        members.push(("issues".to_owned(), json_string_array(&issues)));
        let payload = json_object(members);
        AgentMessage {
            message_id: new_uuid_string(),
            from: from.to_owned(),
            to: to.to_owned(),
            message_type: MessageType::ReviewRequest { entity_uri: entity_uri.to_owned(), issues: clone_strings(&issues) },
            payload,
            timestamp: now_rfc3339(),
            read: false,
        }
    }

    /// A symbol name proposal; its payload holds `sdef_uri` and
    /// `proposed_name`.
    pub fn symbol_proposal(from: &str, to: &str, sdef_uri: &str, proposed_name: &str) -> (m: Self)
        ensures
            new_message(m, from@, to@),
            m.message_type matches MessageType::SymbolProposal { sdef_uri: u, proposed_name: p } && u@ == sdef_uri@
                && p@ == proposed_name@,
    {
        AgentMessage {
            message_id: new_uuid_string(),
            from: from.to_owned(),
            to: to.to_owned(),
            message_type: MessageType::SymbolProposal {
                sdef_uri: sdef_uri.to_owned(),
                proposed_name: proposed_name.to_owned(),
            },
            payload: string_pair_object("sdef_uri", sdef_uri, "proposed_name", proposed_name),
            timestamp: now_rfc3339(),
            read: false,
        }
    }

    /// A request for more information; its payload holds `entity_uri` and
    /// `question`.
    pub fn clarification_request(from: &str, to: &str, entity_uri: &str, question: &str) -> (m: Self)
        ensures
            new_message(m, from@, to@),
            m.message_type matches MessageType::ClarificationRequest { entity_uri: e, question: q } && e@
                == entity_uri@ && q@ == question@,
    {
        AgentMessage {
            message_id: new_uuid_string(),
            from: from.to_owned(),
            to: to.to_owned(),
            message_type: MessageType::ClarificationRequest {
                entity_uri: entity_uri.to_owned(),
                question: question.to_owned(),
            },
            payload: string_pair_object("entity_uri", entity_uri, "question", question),
            timestamp: now_rfc3339(),
            read: false,
        }
    }

    /// The information asked for; its payload holds `entity_uri` and
    /// `answer`.
    pub fn clarification_response(from: &str, to: &str, entity_uri: &str, answer: &str) -> (m: Self)
        ensures
            new_message(m, from@, to@),
            m.message_type matches MessageType::ClarificationResponse { entity_uri: e, answer: a } && e@
                == entity_uri@ && a@ == answer@,
    {
        AgentMessage {
            message_id: new_uuid_string(),
            from: from.to_owned(),
            to: to.to_owned(),
            message_type: MessageType::ClarificationResponse {
                entity_uri: entity_uri.to_owned(),
                answer: answer.to_owned(),
            },
            payload: string_pair_object("entity_uri", entity_uri, "answer", answer),
            timestamp: now_rfc3339(),
            read: false,
        }
    }

    /// A message to every agent (`to` is `broadcast`).
    pub fn broadcast(from: &str, message_type: MessageType, payload: Value) -> (m: Self)
        ensures
            new_message(m, from@, "broadcast"@),
            m.message_type == message_type,
            m.payload == payload,
    {
        AgentMessage {
            message_id: new_uuid_string(),
            from: from.to_owned(),
            to: "broadcast".to_owned(),
            message_type,
            payload,
            timestamp: now_rfc3339(),
            read: false,
        }
    }
}

} // verus!

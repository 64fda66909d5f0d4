//! Rules as they are submitted, stored, listed and handed to the workers.
use vstd::prelude::*;

verus! {

/// What an update message asks a service worker to do.
#[derive(Clone, Copy, Debug, PartialEq, Eq, Structural)]
pub enum RuleAction {
    AddRule,
    RemoveRule,
}

/// An update message sent from the control plane to one service worker.
#[derive(Debug)]
pub struct ParsedRule {
    pub id: usize,
    pub service_name: Option<String>,
    pub rule: Option<Vec<u8>>,
    pub action: RuleAction,
}

/// How the text of a submitted rule encodes its pattern.
#[derive(Clone, Copy, Debug, PartialEq, Eq, Structural)]
pub enum RuleTypeDTO {
    Ascii,
    Hex,
    Base64,
}

/// A rule as submitted to the control API.
#[derive(Debug)]
pub struct RuleDTO {
    pub service_name: String,
    pub rule_text: String,
    pub rule_type: RuleTypeDTO,
}

/// A stored rule, in the form the control API returns it: the pattern is kept
/// as its standard base64 text.
#[derive(Debug)]
pub struct Rule {
    pub id: i64,
    pub b64_rule: String,
    pub service_name: String,
}

impl ParsedRule {
    /// The message that installs `pattern` under `id` on the worker of `service_name`.
    pub fn add(id: usize, service_name: String, pattern: Vec<u8>) -> (r: ParsedRule)
        ensures
            r.id == id,
            r.service_name == Some(service_name),
            r.rule == Some(pattern),
            r.action == RuleAction::AddRule,
    {
        ParsedRule { id, service_name: Some(service_name), rule: Some(pattern), action: RuleAction::AddRule }
    }

    /// The message that withdraws the rule `id` from a worker.
    pub fn remove(id: usize) -> (r: ParsedRule)
        ensures
            r.id == id,
            r.service_name.is_none(),
            r.rule.is_none(),
            r.action == RuleAction::RemoveRule,
    {
        ParsedRule { id, service_name: None, rule: None, action: RuleAction::RemoveRule }
    }
}

impl Rule {
    /// A field-for-field copy.
    pub fn duplicate(&self) -> (r: Rule)
        ensures
            r == *self,
    {
        Rule { id: self.id, b64_rule: self.b64_rule.clone(), service_name: self.service_name.clone() }
    }
}

} // verus!

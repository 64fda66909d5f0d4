//! The rule table of the control plane and the requests made of it.
use vstd::prelude::*;

use crate::codec::{base64_decoded, base64_encode, base64_encoded, decode_rule_text, decoded_pattern, DecodeFailure};
use crate::service::{names_view, sorted_unique, strictly_sorted};
use crate::rule::{ParsedRule, Rule, RuleAction, RuleDTO, RuleTypeDTO};

verus! {

/// Why a request on the rule table was refused.
#[derive(Clone, Copy, Debug, PartialEq, Eq, Structural)]
pub enum RuleError {
    InvalidHex,
    InvalidBase64,
    EmptyPattern,
    UnknownService,
    NotFound,
    StoreFull,
}

impl RuleError {
    /// The HTTP status that answers the request.
    pub fn status_code(&self) -> (r: u16)
        ensures
            r == match *self {
                RuleError::InvalidHex | RuleError::InvalidBase64 | RuleError::EmptyPattern => 400u16,
                RuleError::UnknownService | RuleError::NotFound => 404u16,
                RuleError::StoreFull => 500u16,
            },
    {
        match self {
            RuleError::InvalidHex | RuleError::InvalidBase64 | RuleError::EmptyPattern => 400,
            RuleError::UnknownService | RuleError::NotFound => 404,
            RuleError::StoreFull => 500,
        }
    }
}

/// The error for a rule text that does not decode under `kind`.
pub open spec fn decode_error(kind: RuleTypeDTO) -> RuleError {
    match kind {
        RuleTypeDTO::Hex => RuleError::InvalidHex,
        _ => RuleError::InvalidBase64,
    }
}

/// Some row of `rows` has the id `id`.
pub open spec fn has_rule(rows: Seq<Rule>, id: int) -> bool {
    exists|k: int| 0 <= k < rows.len() && rows[k].id == id
}

/// The rows of `rows` that belong to the service `name`, in their order.
pub open spec fn rules_of_service(rows: Seq<Rule>, name: Seq<char>) -> Seq<Rule>
    decreases rows.len(),
{
    if rows.len() == 0 {
        Seq::empty()
    } else {
        let before = rules_of_service(rows.drop_last(), name);
        if rows.last().service_name@ == name {
            before.push(rows.last())
        } else {
            before
        }
    }
}

/// Ids are at least 1, below `next_id`, and strictly increasing along `rows`
/// (so no two rows share an id).
pub open spec fn ids_in_order(rows: Seq<Rule>, next_id: int) -> bool {
    &&& forall|i: int| 0 <= i < rows.len() ==> 1 <= #[trigger] rows[i].id < next_id
    &&& forall|i: int, j: int| 0 <= i < j < rows.len() ==> rows[i].id < rows[j].id
}

/// A row added under the next id, with the base64 text of pattern `p`, is the
/// only row with its id, whatever encoding `p` was submitted in; the ids stay in
/// order.
pub proof fn lemma_added_rule_listed_once(rows: Seq<Rule>, next_id: int, row: Rule, p: Seq<u8>)
    requires
        ids_in_order(rows, next_id),
        next_id >= 1,
        row.id == next_id,
        row.b64_rule@ == base64_encoded(p),
    ensures
        ids_in_order(rows.push(row), next_id + 1),
        rows.push(row)[rows.len() as int] == row,
        rows.push(row)[rows.len() as int].b64_rule@ == base64_encoded(p),
        forall|k: int| 0 <= k < rows.push(row).len() && #[trigger] rows.push(row)[k].id == row.id ==> k == rows.len(),
{
    assert forall|k: int| 0 <= k < rows.push(row).len() && #[trigger] rows.push(row)[k].id == row.id implies k
        == rows.len() by {
        if k < rows.len() {
            assert(rows.push(row)[k] == rows[k]);
        }
    }
    let pushed = rows.push(row);
    assert forall|i: int, j: int| 0 <= i < j < pushed.len() implies pushed[i].id < pushed[j].id by {
        if j < rows.len() {
            assert(pushed[i] == rows[i] && pushed[j] == rows[j]);
        } else {
            assert(pushed[i] == rows[i]);
        }
    }
    assert forall|i: int| 0 <= i < pushed.len() implies 1 <= #[trigger] pushed[i].id < next_id + 1 by {
        if i < rows.len() {
            assert(pushed[i] == rows[i]);
        }
    }
}

/// Deleting one rule keeps every other stored row, unchanged and in the listing.
pub proof fn lemma_delete_keeps_other_rows(rows: Seq<Rule>, k: int, j: int)
    requires
        0 <= k < rows.len(),
        0 <= j < rows.len(),
        rows[k].id != rows[j].id,
    ensures
        rows.remove(j).contains(rows[k]),
{
    let i = if k < j { k } else { k - 1 };
    assert(rows.remove(j)[i] == rows[k]);
}

/// The rule table: rows ordered by id, ids handed out in increasing order, and
/// the fixed set of services that rules may name.
pub struct RuleStore {
    rows: Vec<Rule>,
    next_id: i64,
    services: Vec<String>,
}

impl RuleStore {
    /// The stored rows, in increasing order of id.
    pub closed spec fn rows_view(&self) -> Seq<Rule> {
        self.rows@
    }

    /// The id that the next stored rule receives.
    pub closed spec fn next_id(&self) -> int {
        self.next_id as int
    }

    /// The names of the configured services.
    pub closed spec fn service_names(&self) -> Seq<Seq<char>> {
        self.services@.map_values(|s: String| s@)
    }

    /// Ids are positive, below the next id, and strictly increasing along the rows.
    pub closed spec fn wf(&self) -> bool {
        &&& 1 <= self.next_id
        &&& forall|i: int| 0 <= i < self.rows@.len() ==> 1 <= #[trigger] self.rows@[i].id < self.next_id
        &&& forall|i: int, j: int| 0 <= i < j < self.rows@.len() ==> self.rows@[i].id < self.rows@[j].id
    }

    /// The stored ids are ordered, unique, and all below the next id.
    pub proof fn lemma_ids_ordered(&self)
        requires
            self.wf(),
        ensures
            ids_in_order(self.rows_view(), self.next_id()),
            self.next_id() >= 1,
    {
    }

    /// An empty table for the given services.
    pub fn new(services: Vec<String>) -> (r: RuleStore)
        ensures
            r.wf(),
            r.rows_view() == Seq::<Rule>::empty(),
            r.next_id() == 1,
            r.service_names() == services@.map_values(|s: String| s@),
    {
        RuleStore { rows: Vec::new(), next_id: 1, services }
    }

    /// Whether `name` is a configured service.
    pub fn has_service(&self, name: &String) -> (r: bool)
        ensures
            r == self.service_names().contains(name@),
    {
        let mut i: usize = 0;
        while i < self.services.len()
            invariant
                i <= self.services@.len(),
                forall|k: int| 0 <= k < i ==> self.services@[k]@ != name@,
            decreases self.services@.len() - i,
        {
            if self.services[i] == *name {
                assert(self.service_names()[i as int] == name@);
                return true;
            }
            i = i + 1;
        }
        assert forall|k: int| 0 <= k < self.service_names().len() implies self.service_names()[k] != name@ by {}
        false
    }

    /// Decodes and stores a submitted rule. On success returns the stored row and
    /// the message that installs the pattern on the service's worker. A text that
    /// does not decode, an empty pattern, an unknown service or an exhausted id
    /// space leave the table as it was. A pattern longer than one read chunk is
    /// accepted, though no single chunk can hold it.
    pub fn add_rule(&mut self, payload: RuleDTO) -> (r: Result<(Rule, ParsedRule), RuleError>)
        requires
            old(self).wf(),
        ensures
            final(self).wf(),
            ids_in_order(final(self).rows_view(), final(self).next_id()),
            match decoded_pattern(payload.rule_text@, payload.rule_type) {
                None => r == Err::<(Rule, ParsedRule), RuleError>(decode_error(payload.rule_type))
                    && *final(self) == *old(self),
                Some(p) => if p.len() == 0 {
                    r == Err::<(Rule, ParsedRule), RuleError>(RuleError::EmptyPattern) && *final(self) == *old(self)
                } else if !old(self).service_names().contains(payload.service_name@) {
                    r == Err::<(Rule, ParsedRule), RuleError>(RuleError::UnknownService) && *final(self) == *old(self)
                } else if old(self).next_id() == i64::MAX {
                    r == Err::<(Rule, ParsedRule), RuleError>(RuleError::StoreFull) && *final(self) == *old(self)
                } else {
                    &&& r is Ok
                    &&& r->Ok_0.0.id == old(self).next_id()
                    &&& !has_rule(old(self).rows_view(), old(self).next_id())
                    &&& r->Ok_0.0.b64_rule@ == base64_encoded(p)
                    &&& base64_decoded(r->Ok_0.0.b64_rule@) == Some(p)
                    &&& r->Ok_0.0.service_name@ == payload.service_name@
                    &&& final(self).rows_view() == old(self).rows_view().push(r->Ok_0.0)
                    &&& final(self).next_id() == old(self).next_id() + 1
                    &&& final(self).service_names() == old(self).service_names()
                    &&& r->Ok_0.1.id == r->Ok_0.0.id as usize
                    &&& r->Ok_0.1.action == RuleAction::AddRule
                    &&& r->Ok_0.1.service_name matches Some(s) && s@ == payload.service_name@
                    &&& r->Ok_0.1.rule matches Some(v) && v@ == p
                }
            },
    {
        proof {
            self.lemma_ids_ordered();
        }
        let bytes = match decode_rule_text(&payload.rule_text, payload.rule_type) {
            Ok(b) => b,
            Err(DecodeFailure::InvalidHex) => return Err(RuleError::InvalidHex),
            Err(DecodeFailure::InvalidBase64) => return Err(RuleError::InvalidBase64),
        };
        if bytes.len() == 0 {
            return Err(RuleError::EmptyPattern);
        }
        if !self.has_service(&payload.service_name) {
            return Err(RuleError::UnknownService);
        }
        if self.next_id == i64::MAX {
            return Err(RuleError::StoreFull);
        }
        let id = self.next_id;
        let b64_rule = base64_encode(bytes.as_slice());
        let row = Rule { id, b64_rule, service_name: payload.service_name.clone() };
        let message = ParsedRule::add(id as usize, payload.service_name, bytes);
        let stored = row.duplicate();
        self.rows.push(stored);
        self.next_id = id + 1;
        Ok((row, message))
    }

    /// Deletes the rule `rule_id`. On success returns the name of the service it
    /// belonged to and the message that withdraws it from that service's worker;
    /// an id that is not stored is `NotFound`, with nothing changed.
    pub fn delete_rule(&mut self, rule_id: usize) -> (r: Result<(String, ParsedRule), RuleError>)
        requires
            old(self).wf(),
        ensures
            final(self).wf(),
            ids_in_order(final(self).rows_view(), final(self).next_id()),
            final(self).next_id() == old(self).next_id(),
            final(self).service_names() == old(self).service_names(),
            match r {
                Ok((service_name, message)) => exists|k: int|
                    0 <= k < old(self).rows_view().len()
                        && old(self).rows_view()[k].id == rule_id
                        && service_name == old(self).rows_view()[k].service_name
                        && final(self).rows_view() == old(self).rows_view().remove(k)
                        && message.id == rule_id
                        && message.action == RuleAction::RemoveRule
                        && message.rule is None
                        && message.service_name is None,
                Err(e) => e == RuleError::NotFound && !has_rule(old(self).rows_view(), rule_id as int)
                    && *final(self) == *old(self),
            },
    {
        let mut k: usize = 0;
        while k < self.rows.len()
            invariant
                *self == *old(self),
                self.wf(),
                k <= self.rows@.len(),
                forall|j: int| 0 <= j < k ==> self.rows@[j].id != rule_id as int,
            decreases self.rows@.len() - k,
        {
            if self.rows[k].id as i128 == rule_id as i128 {
                let ghost before = self.rows@;
                let removed = self.rows.remove(k);
                assert(self.rows@ == before.remove(k as int));
                assert forall|i: int, j: int| 0 <= i < j < self.rows@.len() implies self.rows@[i].id < self.rows@[j].id by {
                    let bi = if i < k { i } else { i + 1 };
                    let bj = if j < k { j } else { j + 1 };
                    assert(self.rows@[i] == before[bi]);
                    assert(self.rows@[j] == before[bj]);
                }
                assert forall|i: int| 0 <= i < self.rows@.len() implies 1 <= #[trigger] self.rows@[i].id < self.next_id by {
                    let bi = if i < k { i } else { i + 1 };
                    assert(self.rows@[i] == before[bi]);
                }
                assert(removed == before[k as int]);
                assert(before[k as int].id == rule_id as int);
                let message = ParsedRule::remove(rule_id);
                assert(0 <= k < old(self).rows_view().len() && old(self).rows_view()[k as int].id == rule_id
                    && removed.service_name == old(self).rows_view()[k as int].service_name
                    && self.rows_view() == old(self).rows_view().remove(k as int));
                return Ok((removed.service_name, message));
            }
            k = k + 1;
        }
        Err(RuleError::NotFound)
    }

    /// Every stored rule, in increasing order of id.
    pub fn get_all_rules(&self) -> (r: Vec<Rule>)
        requires
            self.wf(),
        ensures
            r@ == self.rows_view(),
            ids_in_order(r@, self.next_id()),
    {
        let mut out: Vec<Rule> = Vec::new();
        let mut i: usize = 0;
        while i < self.rows.len()
            invariant
                i <= self.rows@.len(),
                out@ == self.rows@.take(i as int),
            decreases self.rows@.len() - i,
        {
            out.push(self.rows[i].duplicate());
            assert(self.rows@.take(i + 1) == self.rows@.take(i as int).push(self.rows@[i as int]));
            i = i + 1;
        }
        assert(self.rows@.take(i as int) == self.rows@);
        out
    }

    /// The stored rules of the service `service_name`, in increasing order of id.
    pub fn get_rules_by_service_name(&self, service_name: &String) -> (r: Vec<Rule>)
        requires
            self.wf(),
        ensures
            r@ == rules_of_service(self.rows_view(), service_name@),
    {
        let mut out: Vec<Rule> = Vec::new();
        let mut i: usize = 0;
        while i < self.rows.len()
            invariant
                i <= self.rows@.len(),
                out@ == rules_of_service(self.rows@.take(i as int), service_name@),
            decreases self.rows@.len() - i,
        {
            assert(self.rows@.take(i + 1).drop_last() == self.rows@.take(i as int));
            if self.rows[i].service_name == *service_name {
                out.push(self.rows[i].duplicate());
            }
            i = i + 1;
        }
        assert(self.rows@.take(i as int) == self.rows@);
        out
    }

    /// The distinct names of the configured services, in increasing order.
    pub fn get_services_names(&self) -> (r: Vec<String>)
        ensures
            strictly_sorted(names_view(r@)),
            names_view(r@).to_set() == self.service_names().to_set(),
    {
        sorted_unique(&self.services)
    }
}

} // verus!

//! The policy over the use of capabilities, and the ledger of consent to
//! single actions.
//!
//! Holding a capability is authority; the policy adds a check at the moment of
//! use, where a risky action may be refused or made to wait for the consent of
//! the control side.

use crate::order;
use crate::order::sort;
use crate::table::Table;
use crate::text;
use crate::text::{dec_string, str_eq};
use vstd::prelude::*;

verus! {

/// How the error text begins where an action waits for consent.
pub const CONSENT_REQUIRED: &'static str = "__CONSENT__";

/// What the policy says of an action.
#[derive(Clone, Copy, PartialEq, Eq, Debug, Structural)]
pub enum Decision {
    Allow,
    Deny,
    Prompt,
}

/// Which risky actions are refused or wait for consent.
#[derive(Clone, Copy, PartialEq, Eq, Debug, Structural)]
pub struct PolicyEngine {
    /// Running commands is refused.
    pub deny_exec: bool,
    /// Running a command waits for consent.
    pub prompt_exec: bool,
    /// A request to the network waits for consent.
    pub prompt_http: bool,
    /// Posting a message waits for consent.
    pub prompt_post: bool,
}

/// The decision on an action; a refusal goes before a prompt.
pub open spec fn decided(p: PolicyEngine, verb: Seq<char>) -> Decision {
    if verb == "exec"@ {
        if p.deny_exec {
            Decision::Deny
        } else if p.prompt_exec {
            Decision::Prompt
        } else {
            Decision::Allow
        }
    } else if verb == "http_get"@ && p.prompt_http {
        Decision::Prompt
    } else if (verb == "post"@ || verb == "post_from"@) && p.prompt_post {
        Decision::Prompt
    } else {
        Decision::Allow
    }
}

impl PolicyEngine {
    /// The policy that lets every action pass.
    pub fn allow_all() -> (r: PolicyEngine)
        ensures
            r == (PolicyEngine {
                deny_exec: false,
                prompt_exec: false,
                prompt_http: false,
                prompt_post: false,
            }),
    {
        PolicyEngine { deny_exec: false, prompt_exec: false, prompt_http: false, prompt_post: false }
    }

    /// Decides on an action by its name.
    pub fn decide(&self, verb: &str) -> (r: Decision)
        ensures
            r == decided(*self, verb@),
    {
        proof {
            reveal_strlit("exec");
            reveal_strlit("http_get");
            reveal_strlit("post");
            reveal_strlit("post_from");
        }
        if str_eq(verb, "exec") {
            if self.deny_exec {
                Decision::Deny
            } else if self.prompt_exec {
                Decision::Prompt
            } else {
                Decision::Allow
            }
        } else if str_eq(verb, "http_get") && self.prompt_http {
            Decision::Prompt
        } else if (str_eq(verb, "post") || str_eq(verb, "post_from")) && self.prompt_post {
            Decision::Prompt
        } else {
            Decision::Allow
        }
    }
}

impl Default for PolicyEngine {
    fn default() -> (r: PolicyEngine)
        ensures
            r == (PolicyEngine {
                deny_exec: false,
                prompt_exec: false,
                prompt_http: false,
                prompt_post: false,
            }),
    {
        PolicyEngine::allow_all()
    }
}

/// Where a request for consent stands.
#[derive(Clone, Copy, PartialEq, Eq, Debug, Structural)]
pub enum Status {
    Pending,
    Approved,
    Denied,
}

/// A request for consent to one action of one session.
pub struct Req {
    sig: String,
    session: String,
    summary: String,
    status: Status,
}

/// A request, as contracts speak of it: the signature of the action, the
/// session that asked, what the control side is shown, and where it stands.
#[verifier::ext_equal]
pub struct ReqV {
    pub sig: Seq<char>,
    pub session: Seq<char>,
    pub summary: Seq<char>,
    pub status: Status,
}

impl View for Req {
    type V = ReqV;

    closed spec fn view(&self) -> ReqV {
        ReqV { sig: self.sig@, session: self.session@, summary: self.summary@, status: self.status }
    }
}

/// The ledger, as contracts speak of it: the requests under their ids, and how
/// many ids were ever issued.
#[verifier::ext_equal]
pub struct LedgerV {
    pub reqs: Map<Seq<char>, ReqV>,
    pub issued: nat,
}

/// The id of the `n`th request.
pub open spec fn consent_id(n: nat) -> Seq<char> {
    "consent_"@ + text::dec(n)
}

/// What asking the ledger comes to.
pub enum ConsentOutcome {
    /// The action was approved; the approval is used up.
    Approved,
    /// The action waits for consent under this id.
    Pending(String),
    /// The action was refused.
    Denied,
}

/// What asking the ledger comes to, as contracts speak of it.
#[verifier::ext_equal]
pub enum OutcomeV {
    Approved,
    Pending(Seq<char>),
    Denied,
}

impl View for ConsentOutcome {
    type V = OutcomeV;

    open spec fn view(&self) -> OutcomeV {
        match self {
            ConsentOutcome::Approved => OutcomeV::Approved,
            ConsentOutcome::Pending(id) => OutcomeV::Pending(id@),
            ConsentOutcome::Denied => OutcomeV::Denied,
        }
    }
}

impl LedgerV {
    /// Whether the request under an id is for this action of this session.
    pub open spec fn is_for(self, id: Seq<char>, sig: Seq<char>, session: Seq<char>) -> bool {
        self.reqs.contains_key(id) && self.reqs[id].sig == sig && self.reqs[id].session == session
    }

    /// Whether there is a request for this action of this session.
    pub open spec fn asked(self, sig: Seq<char>, session: Seq<char>) -> bool {
        exists|id: Seq<char>| self.is_for(id, sig, session)
    }

    /// The id of the request for this action of this session.
    pub open spec fn id_for(self, sig: Seq<char>, session: Seq<char>) -> Seq<char> {
        choose|id: Seq<char>| self.is_for(id, sig, session)
    }

    /// Every id was issued, and each action of a session has at most one
    /// request.
    pub open spec fn inv(self) -> bool {
        &&& forall|id: Seq<char>| #[trigger]
            self.reqs.contains_key(id) ==> exists|n: nat| 1 <= n <= self.issued && id == #[trigger] consent_id(n)
        &&& forall|a: Seq<char>, b: Seq<char>|
            #![trigger self.reqs.contains_key(a), self.reqs.contains_key(b)]
            self.reqs.contains_key(a) && self.reqs.contains_key(b) && self.reqs[a].sig == self.reqs[b].sig
                && self.reqs[a].session == self.reqs[b].session ==> a == b
    }

    /// What asking for an action comes to: an approval is used up, a refusal
    /// stands, a request that waits goes on waiting under its id, and an action
    /// that was not asked for before is entered under the next id.
    pub open spec fn consult(
        self,
        sig: Seq<char>,
        session: Seq<char>,
        summary: Seq<char>,
    ) -> (LedgerV, OutcomeV) {
        if self.asked(sig, session) {
            let id = self.id_for(sig, session);
            match self.reqs[id].status {
                Status::Approved => (
                    LedgerV { reqs: self.reqs.remove(id), ..self },
                    OutcomeV::Approved,
                ),
                Status::Denied => (self, OutcomeV::Denied),
                Status::Pending => (self, OutcomeV::Pending(id)),
            }
        } else {
            let id = consent_id(self.issued + 1);
            let req = ReqV { sig, session, summary, status: Status::Pending };
            (
                LedgerV { reqs: self.reqs.insert(id, req), issued: self.issued + 1 },
                OutcomeV::Pending(id),
            )
        }
    }

    /// The ledger after the control side settled a request.
    pub open spec fn settled(self, id: Seq<char>, status: Status) -> LedgerV {
        LedgerV { reqs: self.reqs.insert(id, ReqV { status, ..self.reqs[id] }), ..self }
    }

    /// Whether a request waits.
    pub open spec fn waits(self, id: Seq<char>) -> bool {
        self.reqs.contains_key(id) && self.reqs[id].status == Status::Pending
    }

    /// What approving or refusing a request comes to: the summary that was
    /// shown, or why it cannot be.
    pub open spec fn settle_result(self, id: Seq<char>) -> Result<Seq<char>, Seq<char>> {
        if self.waits(id) {
            Ok(self.reqs[id].summary)
        } else if self.reqs.contains_key(id) {
            Err("consent "@ + id + " 非待决状态"@)
        } else {
            Err("consent "@ + id + " 不存在"@)
        }
    }

    /// The ids of the requests that wait.
    pub open spec fn waiting(self) -> Set<Seq<char>> {
        self.reqs.dom().filter(|id: Seq<char>| self.waits(id))
    }

    /// The requests that wait, each with its session and summary, by id.
    pub open spec fn waiting_list(self) -> Seq<(Seq<char>, Seq<char>, Seq<char>)> {
        order::in_order(self.waiting().to_seq()).map_values(
            |id: Seq<char>| (id, self.reqs[id].session, self.reqs[id].summary),
        )
    }
}

/// The ledger of consent: a session that wants a risky action enters a request,
/// the control side approves or refuses it, and the session asks again. The
/// ledger is shared by all sessions of a service.
pub struct ConsentLedger {
    reqs: Table<Req>,
    seq: u64,
}

impl View for ConsentLedger {
    type V = LedgerV;

    closed spec fn view(&self) -> LedgerV {
        LedgerV { reqs: self.reqs@, issued: self.seq as nat }
    }
}

impl ConsentLedger {
    /// Every id was issued by this ledger, and each action of a session has at
    /// most one request.
    pub closed spec fn wf(&self) -> bool {
        self.reqs.wf() && self@.inv()
    }

    /// What holds of every ledger holds of a well-formed one.
    pub proof fn lemma_wf(&self)
        requires
            self.wf(),
        ensures
            self@.inv(),
    {
    }

    /// An empty ledger.
    pub fn new() -> (r: ConsentLedger)
        ensures
            r.wf(),
            r@ == (LedgerV { reqs: Map::empty(), issued: 0 }),
    {
        ConsentLedger { reqs: Table::new(), seq: 0 }
    }

    /// Tells whether a further id can be issued.
    pub fn has_room(&self) -> (r: bool)
        ensures
            r == (self@.issued < u64::MAX),
    {
        self.seq < u64::MAX
    }

    /// The id of the request for this action of this session.
    fn find(&self, sig: &str, session: &str) -> (r: Option<String>)
        requires
            self.wf(),
        ensures
            match r {
                Some(id) => self@.is_for(id@, sig@, session@) && self@.asked(sig@, session@) && self@.id_for(
                    sig@,
                    session@,
                ) == id@,
                None => !self@.asked(sig@, session@),
            },
    {
        let mut i: usize = 0;
        while i < self.reqs.len()
            invariant
                self.wf(),
                i <= self.reqs.order().len(),
                forall|j: int|
                    0 <= j < i ==> !self@.is_for(#[trigger] self.reqs.order()[j], sig@, session@),
            decreases self.reqs.order().len() - i,
        {
            let q = self.reqs.value_at(i);
            let id = self.reqs.key_at(i);
            if str_eq(q.sig.as_str(), sig) && str_eq(q.session.as_str(), session) {
                assert(self@.is_for(id@, sig@, session@));
                return Some(id.clone());
            }
            i += 1;
        }
        proof {
            self.reqs.lemma_order();
            assert forall|id: Seq<char>| !self@.is_for(id, sig@, session@) by {
                if self@.reqs.contains_key(id) {
                    assert(self.reqs.order().contains(id));
                    let j = self.reqs.order().index_of(id);
                    assert(self.reqs.order()[j] == id);
                }
            }
        }
        None
    }

    /// Asks for an action of a session. An approval is used up by this; a
    /// request that waits goes on waiting; an action not yet asked for is
    /// entered with `summary` for the control side to see.
    pub fn request_or_check(&mut self, sig: &str, session: &str, summary: &str) -> (r: ConsentOutcome)
        requires
            old(self).wf(),
            old(self)@.issued < u64::MAX,
        ensures
            final(self).wf(),
            (final(self)@, r@) == old(self)@.consult(sig@, session@, summary@),
    {
        let ghost before = self@;
        match self.find(sig, session) {
            Some(id) => {
                let status = match self.reqs.get(id.as_str()) {
                    Some(q) => q.status,
                    None => Status::Denied,
                };
                match status {
                    Status::Approved => {
                        let _ = self.reqs.remove(id.as_str());
                        assert(self@ =~= LedgerV { reqs: before.reqs.remove(id@), ..before });
                        ConsentOutcome::Approved
                    },
                    Status::Denied => ConsentOutcome::Denied,
                    Status::Pending => ConsentOutcome::Pending(id),
                }
            },
            None => {
                self.seq = self.seq + 1;
                let id = "consent_".to_string().concat(dec_string(self.seq).as_str());
                let req = Req {
                    sig: sig.to_string(),
                    session: session.to_string(),
                    summary: summary.to_string(),
                    status: Status::Pending,
                };
                self.reqs.insert(id.clone(), req);
                proof {
                    let n = before.issued + 1;
                    let new = consent_id(n);
                    assert(id@ == new);
                    assert(self@ =~= before.consult(sig@, session@, summary@).0);
                    assert forall|k: Seq<char>| #[trigger] self@.reqs.contains_key(k) implies exists|m: nat|
                        1 <= m <= self@.issued && k == #[trigger] consent_id(m) by {
                        if before.reqs.contains_key(k) {
                            let m = choose|m: nat| 1 <= m <= before.issued && k == #[trigger] consent_id(m);
                            assert(k == consent_id(m));
                        }
                    }
                    assert forall|a: Seq<char>, b: Seq<char>|
                        #![trigger self@.reqs.contains_key(a), self@.reqs.contains_key(b)]
                        self@.reqs.contains_key(a) && self@.reqs.contains_key(b) && self@.reqs[a].sig
                            == self@.reqs[b].sig && self@.reqs[a].session
                            == self@.reqs[b].session implies a == b by {
                        if a != b {
                            if a == new {
                                assert(before.is_for(b, sig@, session@));
                            } else if b == new {
                                assert(before.is_for(a, sig@, session@));
                            } else {
                                assert(before.reqs.contains_key(a) && before.reqs.contains_key(b));
                            }
                        }
                    }
                }
                ConsentOutcome::Pending(id)
            },
        }
    }

    /// Settles a request that waits.
    fn settle(&mut self, id: &str, status: Status) -> (r: Result<String, String>)
        requires
            old(self).wf(),
        ensures
            final(self).wf(),
            text::result_view(r) == old(self)@.settle_result(id@),
            final(self)@ == (if old(self)@.waits(id@) {
                old(self)@.settled(id@, status)
            } else {
                old(self)@
            }),
    {
        let ghost before = self@;
        let waits = match self.reqs.get(id) {
            Some(q) => q.status == Status::Pending,
            None => {
                return Err("consent ".to_string().concat(id).concat(" 不存在"));
            },
        };
        if !waits {
            return Err("consent ".to_string().concat(id).concat(" 非待决状态"));
        }
        match self.reqs.remove(id) {
            Some(q) => {
                let summary = q.summary.clone();
                self.reqs.insert(
                    id.to_string(),
                    Req { sig: q.sig, session: q.session, summary: q.summary, status },
                );
                proof {
                    assert(self@.reqs =~= before.settled(id@, status).reqs);
                    let after = self@.reqs;
                    assert forall|k: Seq<char>| #[trigger] after.contains_key(k) implies exists|m: nat|
                        1 <= m <= self@.issued && k == #[trigger] consent_id(m) by {
                        assert(before.reqs.contains_key(k));
                    }
                    assert forall|a: Seq<char>, b: Seq<char>|
                        #![trigger after.contains_key(a), after.contains_key(b)]
                        after.contains_key(a) && after.contains_key(b) && after[a].sig == after[b].sig
                            && after[a].session == after[b].session implies a == b by {
                        assert(before.reqs.contains_key(a) && before.reqs.contains_key(b));
                    }
                }
                Ok(summary)
            },
            None => Err("consent ".to_string().concat(id).concat(" 不存在")),
        }
    }

    /// Approves a request that waits, and gives back its summary.
    pub fn approve(&mut self, id: &str) -> (r: Result<String, String>)
        requires
            old(self).wf(),
        ensures
            final(self).wf(),
            text::result_view(r) == old(self)@.settle_result(id@),
            final(self)@ == (if old(self)@.waits(id@) {
                old(self)@.settled(id@, Status::Approved)
            } else {
                old(self)@
            }),
    {
        self.settle(id, Status::Approved)
    }

    /// Refuses a request that waits, and gives back its summary.
    pub fn deny(&mut self, id: &str) -> (r: Result<String, String>)
        requires
            old(self).wf(),
        ensures
            final(self).wf(),
            text::result_view(r) == old(self)@.settle_result(id@),
            final(self)@ == (if old(self)@.waits(id@) {
                old(self)@.settled(id@, Status::Denied)
            } else {
                old(self)@
            }),
    {
        self.settle(id, Status::Denied)
    }

    /// The summary of a request, which may hold what only the control side may
    /// see.
    pub fn describe(&self, id: &str) -> (r: Option<String>)
        requires
            self.wf(),
        ensures
            r is Some <==> self@.reqs.contains_key(id@),
            r is Some ==> r->0@ == self@.reqs[id@].summary,
    {
        match self.reqs.get(id) {
            Some(q) => Some(q.summary.clone()),
            None => None,
        }
    }

    /// The ids of the requests that wait.
    fn waiting_ids(&self) -> (r: Vec<String>)
        requires
            self.wf(),
        ensures
            text::views(r@).no_duplicates(),
            text::views(r@).to_set() == self@.waiting(),
            self@.waiting().finite(),
    {
        let mut out: Vec<String> = Vec::new();
        let mut i: usize = 0;
        let ghost all = self.reqs.order();
        proof {
            self.reqs.lemma_order();
        }
        while i < self.reqs.len()
            invariant
                self.wf(),
                all == self.reqs.order(),
                all.no_duplicates(),
                i <= all.len(),
                text::views(out@).no_duplicates(),
                forall|id: Seq<char>|
                    text::views(out@).contains(id) <==> (#[trigger] all.take(i as int).contains(id)
                        && self@.waits(id)),
            decreases all.len() - i,
        {
            let ghost had = text::views(out@);
            let id = self.reqs.key_at(i);
            assert(all.take(i + 1) =~= all.take(i as int).push(all[i as int]));
            assert(!all.take(i as int).contains(id@)) by {
                if all.take(i as int).contains(id@) {
                    let j = all.take(i as int).index_of(id@);
                    assert(all[j] == all[i as int]);
                }
            }
            assert forall|x: Seq<char>| #[trigger] all.take(i + 1).contains(x) <==> (all.take(
                i as int,
            ).contains(x) || x == id@) by {
                let a = all.take(i as int);
                assert(a.push(id@).last() == id@);
                if a.contains(x) {
                    assert(a.push(id@)[a.index_of(x)] == x);
                }
            }
            if self.reqs.value_at(i).status == Status::Pending {
                out.push(id.clone());
                let ghost now = text::views(out@);
                assert(now =~= had.push(id@));
                assert(!had.contains(id@));
                assert forall|x: Seq<char>| now.contains(x) <==> (had.contains(x) || x == id@) by {
                    assert(now.last() == id@);
                    if had.contains(x) {
                        assert(now[had.index_of(x)] == x);
                    }
                }
            }
            i += 1;
        }
        assert(all.take(all.len() as int) =~= all);
        proof {
            assert(text::views(out@).to_set() =~= self@.waiting());
            vstd::seq_lib::seq_to_set_is_finite(text::views(out@));
        }
        out
    }

    /// How many requests wait.
    pub fn pending_count(&self) -> (r: usize)
        requires
            self.wf(),
        ensures
            r == self@.waiting().len(),
    {
        let ids = self.waiting_ids();
        proof {
            order::lemma_set_in_order(self@.waiting(), text::views(ids@));
        }
        ids.len()
    }

    /// The requests that wait, by id, each with the session that asked and its
    /// summary. Only the control side may see them.
    pub fn list_pending(&self) -> (r: Vec<(String, String, String)>)
        requires
            self.wf(),
        ensures
            triple_views(r@) == self@.waiting_list(),
    {
        let ids = self.waiting_ids();
        let sorted = sort(ids.as_slice());
        let ghost names = text::views(sorted@);
        proof {
            order::lemma_set_in_order(self@.waiting(), text::views(ids@));
            order::lemma_dictionary();
            self@.waiting().lemma_to_seq_to_set_id();
            let plain = self@.waiting().to_seq();
            plain.lemma_sort_by_ensures(order::dictionary());
            assert forall|x: Seq<char>| #[trigger] names.contains(x) implies self@.reqs.contains_key(x) by {
                assert(plain.contains(x));
                assert(plain.to_set().contains(x));
            }
        }
        let mut out: Vec<(String, String, String)> = Vec::new();
        let mut i: usize = 0;
        let ghost entry = |id: Seq<char>| (id, self@.reqs[id].session, self@.reqs[id].summary);
        while i < sorted.len()
            invariant
                self.wf(),
                i <= sorted@.len(),
                names == text::views(sorted@),
                names == order::in_order(self@.waiting().to_seq()),
                entry == (|id: Seq<char>| (id, self@.reqs[id].session, self@.reqs[id].summary)),
                forall|x: Seq<char>| #[trigger] names.contains(x) ==> self@.reqs.contains_key(x),
                triple_views(out@) == names.map_values(entry).take(i as int),
            decreases sorted@.len() - i,
        {
            let ghost had = triple_views(out@);
            assert(names[i as int] == sorted@[i as int]@);
            assert(names.contains(sorted@[i as int]@));
            match self.reqs.get(sorted[i].as_str()) {
                Some(q) => {
                    out.push((sorted[i].clone(), q.session.clone(), q.summary.clone()));
                },
                None => {},
            }
            assert(triple_views(out@) =~= had.push(entry(names[i as int])));
            assert(names.map_values(entry).take(i + 1) =~= names.map_values(entry).take(i as int).push(
                entry(names[i as int]),
            ));
            i += 1;
        }
        assert(names.map_values(entry).take(names.len() as int) =~= names.map_values(entry));
        out
    }
}

/// Triples of strings, as triples of texts.
pub open spec fn triple_views(v: Seq<(String, String, String)>) -> Seq<(Seq<char>, Seq<char>, Seq<char>)> {
    v.map_values(|t: (String, String, String)| (t.0@, t.1@, t.2@))
}

impl Default for ConsentLedger {
    fn default() -> (r: ConsentLedger)
        ensures
            r.wf(),
            r@ == (LedgerV { reqs: Map::empty(), issued: 0 }),
    {
        ConsentLedger::new()
    }
}

/// The request for an action of a session is found by it.
pub proof fn lemma_id_for(l: LedgerV, id: Seq<char>, sig: Seq<char>, session: Seq<char>)
    requires
        l.inv(),
        l.is_for(id, sig, session),
    ensures
        l.asked(sig, session),
        l.id_for(sig, session) == id,
{
    let other = l.id_for(sig, session);
    assert(l.is_for(other, sig, session));
    assert(l.reqs.contains_key(id) && l.reqs.contains_key(other));
}

/// The next id is a new one: entering a request never touches another.
pub proof fn law_next_id_is_new(l: LedgerV)
    requires
        l.inv(),
    ensures
        !l.reqs.contains_key(consent_id(l.issued + 1)),
{
    let id = consent_id(l.issued + 1);
    if l.reqs.contains_key(id) {
        let n = choose|n: nat| 1 <= n <= l.issued && id == #[trigger] consent_id(n);
        let k = "consent_"@.len() as int;
        assert(id.skip(k) =~= text::dec(l.issued + 1));
        assert(consent_id(n).skip(k) =~= text::dec(n));
        text::lemma_dec_injective(n, l.issued + 1);
    }
}

/// Consulting and settling keep the ledger's invariant.
pub proof fn law_ledger_inv_kept(
    l: LedgerV,
    sig: Seq<char>,
    session: Seq<char>,
    summary: Seq<char>,
    id: Seq<char>,
    status: Status,
)
    requires
        l.inv(),
    ensures
        l.consult(sig, session, summary).0.inv(),
        l.waits(id) ==> l.settled(id, status).inv(),
{
    let after = l.consult(sig, session, summary).0;
    assert forall|k: Seq<char>| #[trigger] after.reqs.contains_key(k) implies exists|m: nat|
        1 <= m <= after.issued && k == #[trigger] consent_id(m) by {
        if l.reqs.contains_key(k) {
            let m = choose|m: nat| 1 <= m <= l.issued && k == #[trigger] consent_id(m);
            assert(k == consent_id(m));
        }
    }
    assert forall|a: Seq<char>, b: Seq<char>|
        #![trigger after.reqs.contains_key(a), after.reqs.contains_key(b)]
        after.reqs.contains_key(a) && after.reqs.contains_key(b) && after.reqs[a].sig == after.reqs[b].sig
            && after.reqs[a].session == after.reqs[b].session implies a == b by {
        if a != b {
            if !l.reqs.contains_key(a) || (!l.asked(sig, session) && a == consent_id(l.issued + 1)) {
                assert(l.is_for(b, sig, session));
            } else if !l.reqs.contains_key(b) || (!l.asked(sig, session) && b == consent_id(l.issued + 1)) {
                assert(l.is_for(a, sig, session));
            }
        }
    }
    if l.waits(id) {
        let done = l.settled(id, status);
        assert forall|k: Seq<char>| #[trigger] done.reqs.contains_key(k) implies exists|m: nat|
            1 <= m <= done.issued && k == #[trigger] consent_id(m) by {
            assert(l.reqs.contains_key(k));
        }
        assert forall|a: Seq<char>, b: Seq<char>|
            #![trigger done.reqs.contains_key(a), done.reqs.contains_key(b)]
            done.reqs.contains_key(a) && done.reqs.contains_key(b) && done.reqs[a].sig == done.reqs[b].sig
                && done.reqs[a].session == done.reqs[b].session implies a == b by {
            assert(l.reqs.contains_key(a) && l.reqs.contains_key(b));
        }
    }
}

/// Asking again before the control side has decided changes nothing and gives
/// the same id.
pub proof fn law_asking_again_is_idempotent(
    l: LedgerV,
    sig: Seq<char>,
    session: Seq<char>,
    first: Seq<char>,
    second: Seq<char>,
)
    requires
        l.inv(),
        l.consult(sig, session, first).1 is Pending,
    ensures
        ({
            let (l1, o1) = l.consult(sig, session, first);
            l1.consult(sig, session, second) == (l1, o1)
        }),
{
    let (l1, o1) = l.consult(sig, session, first);
    let id = o1->Pending_0;
    law_ledger_inv_kept(l, sig, session, first, id, Status::Pending);
    assert(l1.is_for(id, sig, session));
    lemma_id_for(l1, id, sig, session);
}

/// An approval lets the action pass once: after it is used the action is not on
/// the ledger, and asking once more enters a new request.
pub proof fn law_approval_is_used_once(
    l: LedgerV,
    sig: Seq<char>,
    session: Seq<char>,
    summary: Seq<char>,
)
    requires
        l.inv(),
        l.consult(sig, session, summary).1 is Pending,
    ensures
        ({
            let (l1, o1) = l.consult(sig, session, summary);
            let id = o1->Pending_0;
            let l2 = l1.settled(id, Status::Approved);
            let (l3, o3) = l2.consult(sig, session, summary);
            let (_, o4) = l3.consult(sig, session, summary);
            &&& l1.waits(id)
            &&& o3 is Approved
            &&& !l3.asked(sig, session)
            &&& o4 == OutcomeV::Pending(consent_id(l3.issued + 1))
        }),
{
    let (l1, o1) = l.consult(sig, session, summary);
    let id = o1->Pending_0;
    law_ledger_inv_kept(l, sig, session, summary, id, Status::Pending);
    assert(l1.is_for(id, sig, session));
    law_ledger_inv_kept(l1, sig, session, summary, id, Status::Approved);
    let l2 = l1.settled(id, Status::Approved);
    assert(l2.is_for(id, sig, session));
    lemma_id_for(l2, id, sig, session);
    let (l3, o3) = l2.consult(sig, session, summary);
    assert forall|k: Seq<char>| !l3.is_for(k, sig, session) by {
        if l3.is_for(k, sig, session) {
            assert(l2.reqs.contains_key(k) && l2.reqs.contains_key(id));
        }
    }
}

/// A refusal stands: asking again is refused again, and nothing changes.
pub proof fn law_refusal_stands(
    l: LedgerV,
    sig: Seq<char>,
    session: Seq<char>,
    summary: Seq<char>,
    again: Seq<char>,
)
    requires
        l.inv(),
        l.consult(sig, session, summary).1 is Pending,
    ensures
        ({
            let (l1, o1) = l.consult(sig, session, summary);
            let l2 = l1.settled(o1->Pending_0, Status::Denied);
            l2.consult(sig, session, again) == (l2, OutcomeV::Denied)
        }),
{
    let (l1, o1) = l.consult(sig, session, summary);
    let id = o1->Pending_0;
    law_ledger_inv_kept(l, sig, session, summary, id, Status::Pending);
    assert(l1.is_for(id, sig, session));
    law_ledger_inv_kept(l1, sig, session, summary, id, Status::Denied);
    let l2 = l1.settled(id, Status::Denied);
    assert(l2.is_for(id, sig, session));
    lemma_id_for(l2, id, sig, session);
}

/// A decision is for the action and the session that asked, and for no other:
/// settling a request leaves what another action or session is told as it was.
pub proof fn law_decision_is_scoped(
    l: LedgerV,
    id: Seq<char>,
    status: Status,
    sig: Seq<char>,
    session: Seq<char>,
    summary: Seq<char>,
)
    requires
        l.inv(),
        l.waits(id),
        l.reqs[id].sig != sig || l.reqs[id].session != session,
    ensures
        l.settled(id, status).consult(sig, session, summary).1 == l.consult(sig, session, summary).1,
{
    let after = l.settled(id, status);
    law_ledger_inv_kept(l, sig, session, summary, id, status);
    if l.asked(sig, session) {
        let k = l.id_for(sig, session);
        assert(l.is_for(k, sig, session));
        assert(after.is_for(k, sig, session));
        lemma_id_for(after, k, sig, session);
    } else {
        assert forall|k: Seq<char>| !after.is_for(k, sig, session) by {
            if after.is_for(k, sig, session) {
                assert(l.is_for(k, sig, session));
            }
        }
    }
}

} // verus!

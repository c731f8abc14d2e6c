//! The escrow lifecycle state machine and its dispute resolution rules.
//!
//! An `EscrowContract` owns the records and the two participation indices;
//! value moves through a [`crate::ledger::ValueLedger`] handed to each
//! operation that locks or disburses funds. Authorization is modeled by an
//! explicit `caller` argument: the principal that authorized the call; time
//! by an explicit `now` argument. Every operation either fully applies its
//! effect or returns an error naming the first violated precondition, with
//! all state unchanged.

use vstd::prelude::*;

use crate::ledger::ValueLedger;
use crate::ledger::can_disburse;
use crate::ledger::can_transfer;
use crate::ledger::disburse_delta;
use crate::ledger::transfer_delta;

verus! {

/// The lifecycle state of one escrow record. `Locked` is the initial state;
/// `Released` and `Cancelled` are terminal; `Disputed` exits only through
/// dispute resolution.
#[derive(Clone, Copy, Debug, PartialEq, Eq, Structural)]
pub enum EscrowStatus {
    Locked,
    Released,
    Cancelled,
    Disputed,
}

/// How an administrator settles a disputed escrow: refund the employer,
/// pay the freelancer, or split the amount, the named share going to the
/// employer and the rest to the freelancer.
#[derive(Clone, Copy, Debug, PartialEq, Eq, Structural)]
pub enum DisputeResolution {
    FavorEmployer,
    FavorFreelancer,
    Split(i128),
}

/// Why an escrow operation was refused. Every refusal names its reason;
/// a refused operation leaves all state unchanged.
#[derive(Clone, Copy, Debug, PartialEq, Eq, Structural)]
pub enum EscrowError {
    EscrowAlreadyExists,
    EscrowNotFound,
    InvalidAmount,
    InvalidStatus,
    FreelancerNotAssigned,
    CannotCancel,
    Unauthorized,
    InsufficientBalance,
}

/// One escrow record: the sole mutable entity, keyed by `job_id`.
#[derive(Clone, Debug)]
pub struct EscrowData {
    pub job_id: String,
    pub employer: u64,
    pub freelancer: Option<u64>,
    pub amount: i128,
    pub token: u64,
    pub status: EscrowStatus,
    pub created_at: u64,
    pub deadline: Option<u64>,
}

/// A terminal status permits no further mutation.
pub open spec fn is_terminal(s: EscrowStatus) -> bool {
    s is Released || s is Cancelled
}

/// The transition graph of the lifecycle: status never moves backward, and
/// `Locked` is never re-entered.
pub open spec fn status_step_ok(pre: EscrowStatus, post: EscrowStatus) -> bool {
    ||| pre == post
    ||| (pre is Locked && (post is Released || post is Cancelled || post is Disputed))
    ||| (pre is Disputed && (post is Released || post is Cancelled))
}

/// Once terminal, terminal forever: no legal step of the transition graph
/// leaves `Released` or `Cancelled`. Together with each operation's
/// guarantee that every record's status moves along `status_step_ok`, a
/// record that reaches a terminal status keeps it under every sequence of
/// operations.
pub proof fn lemma_terminal_is_forever(pre: EscrowStatus, post: EscrowStatus)
    requires
        is_terminal(pre),
        status_step_ok(pre, post),
    ensures
        post == pre,
        is_terminal(post),
{
}

/// No two records share a job identifier.
pub open spec fn escrow_ids_distinct(s: Seq<EscrowData>) -> bool {
    forall|i: int, j: int|
        0 <= i < j < s.len() ==> (#[trigger] s[i]).job_id@ != (#[trigger] s[j]).job_id@
}

/// Some record of `s` carries the given job identifier.
pub open spec fn seq_has_escrow(s: Seq<EscrowData>, id: Seq<char>) -> bool {
    exists|i: int| 0 <= i < s.len() && (#[trigger] s[i]).job_id@ == id
}

/// The index of the record with the given job identifier.
pub open spec fn escrow_index_of(s: Seq<EscrowData>, id: Seq<char>) -> int {
    choose|i: int| 0 <= i < s.len() && (#[trigger] s[i]).job_id@ == id
}

/// The record with the given job identifier.
pub open spec fn escrow_at(s: Seq<EscrowData>, id: Seq<char>) -> EscrowData {
    s[escrow_index_of(s, id)]
}

/// The record at a valid index is the one its own identifier looks up.
pub proof fn lemma_escrow_at(s: Seq<EscrowData>, i: int)
    requires
        escrow_ids_distinct(s),
        0 <= i < s.len(),
    ensures
        seq_has_escrow(s, s[i].job_id@),
        escrow_index_of(s, s[i].job_id@) == i,
        escrow_at(s, s[i].job_id@) == s[i],
{
    assert(seq_has_escrow(s, s[i].job_id@));
    let j = escrow_index_of(s, s[i].job_id@);
    assert(0 <= j < s.len() && s[j].job_id@ == s[i].job_id@);
}

/// Replacing the record at `i` by one with the same identifier changes
/// exactly what that identifier looks up.
pub proof fn lemma_escrow_update(s: Seq<EscrowData>, i: int, r: EscrowData)
    requires
        escrow_ids_distinct(s),
        0 <= i < s.len(),
        r.job_id@ == s[i].job_id@,
    ensures
        escrow_ids_distinct(s.update(i, r)),
        forall|id: Seq<char>| #[trigger]
            seq_has_escrow(s.update(i, r), id) == seq_has_escrow(s, id),
        forall|id: Seq<char>|
            seq_has_escrow(s, id) ==> #[trigger] escrow_at(s.update(i, r), id) == (if id
                == r.job_id@ {
                r
            } else {
                escrow_at(s, id)
            }),
{
    let t = s.update(i, r);
    assert forall|p: int, q: int| 0 <= p < q < t.len() implies (#[trigger] t[p]).job_id@ != (
    #[trigger] t[q]).job_id@ by {
        assert(s[p].job_id@ != s[q].job_id@);
    }
    assert forall|id: Seq<char>| #[trigger] seq_has_escrow(t, id) == seq_has_escrow(s, id) by {
        if seq_has_escrow(t, id) {
            let j = escrow_index_of(t, id);
            assert(0 <= j < t.len() && t[j].job_id@ == id);
            if j == i {
                assert(s[i].job_id@ == id);
            } else {
                assert(s[j].job_id@ == id);
            }
        }
        if seq_has_escrow(s, id) {
            let j = escrow_index_of(s, id);
            assert(0 <= j < s.len() && s[j].job_id@ == id);
            if j == i {
                assert(t[i].job_id@ == id);
            } else {
                assert(t[j].job_id@ == id);
            }
        }
    }
    assert forall|id: Seq<char>| seq_has_escrow(s, id) implies #[trigger] escrow_at(t, id) == (if id
        == r.job_id@ {
        r
    } else {
        escrow_at(s, id)
    }) by {
        if id == r.job_id@ {
            lemma_escrow_at(t, i);
        } else {
            let j = escrow_index_of(s, id);
            assert(0 <= j < s.len() && s[j].job_id@ == id);
            assert(j != i);
            lemma_escrow_at(s, j);
            lemma_escrow_at(t, j);
        }
    }
}

/// Appending a record with a fresh identifier adds it and keeps the rest.
pub proof fn lemma_escrow_push(s: Seq<EscrowData>, r: EscrowData)
    requires
        escrow_ids_distinct(s),
        !seq_has_escrow(s, r.job_id@),
    ensures
        escrow_ids_distinct(s.push(r)),
        forall|id: Seq<char>| #[trigger]
            seq_has_escrow(s.push(r), id) == (seq_has_escrow(s, id) || id == r.job_id@),
        escrow_at(s.push(r), r.job_id@) == r,
        forall|id: Seq<char>|
            seq_has_escrow(s, id) && id != r.job_id@ ==> #[trigger] escrow_at(s.push(r), id)
                == escrow_at(s, id),
{
    let t = s.push(r);
    assert forall|p: int, q: int| 0 <= p < q < t.len() implies (#[trigger] t[p]).job_id@ != (
    #[trigger] t[q]).job_id@ by {
        if q == s.len() {
            assert(t[p] == s[p]);
            if s[p].job_id@ == r.job_id@ {
                assert(seq_has_escrow(s, r.job_id@));
            }
        } else {
            assert(s[p].job_id@ != s[q].job_id@);
        }
    }
    lemma_escrow_at(t, s.len() as int);
    assert forall|id: Seq<char>| #[trigger] seq_has_escrow(t, id) == (seq_has_escrow(s, id) || id
        == r.job_id@) by {
        if seq_has_escrow(t, id) && id != r.job_id@ {
            let j = escrow_index_of(t, id);
            assert(0 <= j < t.len() && t[j].job_id@ == id);
            assert(j != s.len());
            assert(s[j].job_id@ == id);
        }
        if seq_has_escrow(s, id) {
            let j = escrow_index_of(s, id);
            assert(0 <= j < s.len() && s[j].job_id@ == id);
            assert(t[j].job_id@ == id);
        }
    }
    assert forall|id: Seq<char>| seq_has_escrow(s, id) && id != r.job_id@ implies #[trigger]
        escrow_at(t, id) == escrow_at(s, id) by {
        let j = escrow_index_of(s, id);
        assert(0 <= j < s.len() && s[j].job_id@ == id);
        lemma_escrow_at(s, j);
        lemma_escrow_at(t, j);
    }
}

/// One participation index entry: the jobs recorded for one principal, in
/// the order their role was established.
pub struct JobList {
    pub owner: u64,
    pub jobs: Vec<String>,
}

/// No two entries describe the same principal.
pub open spec fn owners_distinct(s: Seq<JobList>) -> bool {
    forall|i: int, j: int|
        0 <= i < j < s.len() ==> (#[trigger] s[i]).owner != (#[trigger] s[j]).owner
}

/// Some entry of `s` belongs to principal `p`.
pub open spec fn seq_has_owner(s: Seq<JobList>, p: u64) -> bool {
    exists|i: int| 0 <= i < s.len() && (#[trigger] s[i]).owner == p
}

/// The index of the entry belonging to `p`.
pub open spec fn owner_index_of(s: Seq<JobList>, p: u64) -> int {
    choose|i: int| 0 <= i < s.len() && (#[trigger] s[i]).owner == p
}

/// The job identifiers recorded for `p`, empty when none were.
pub open spec fn jobs_of(s: Seq<JobList>, p: u64) -> Seq<Seq<char>> {
    if seq_has_owner(s, p) {
        s[owner_index_of(s, p)].jobs@.map_values(|j: String| j@)
    } else {
        Seq::empty()
    }
}

/// The entry at a valid index is the one its own principal looks up.
pub proof fn lemma_owner_at(s: Seq<JobList>, i: int)
    requires
        owners_distinct(s),
        0 <= i < s.len(),
    ensures
        seq_has_owner(s, s[i].owner),
        owner_index_of(s, s[i].owner) == i,
        jobs_of(s, s[i].owner) == s[i].jobs@.map_values(|j: String| j@),
{
    assert(seq_has_owner(s, s[i].owner));
    let j = owner_index_of(s, s[i].owner);
    assert(0 <= j < s.len() && s[j].owner == s[i].owner);
}

/// Replacing the entry at `i` by one for the same principal changes exactly
/// what that principal's lookup yields.
pub proof fn lemma_jobs_update(s: Seq<JobList>, i: int, e: JobList)
    requires
        owners_distinct(s),
        0 <= i < s.len(),
        e.owner == s[i].owner,
    ensures
        owners_distinct(s.update(i, e)),
        forall|p: u64| #[trigger]
            jobs_of(s.update(i, e), p) == (if p == e.owner {
                e.jobs@.map_values(|j: String| j@)
            } else {
                jobs_of(s, p)
            }),
{
    let t = s.update(i, e);
    assert forall|p: int, q: int| 0 <= p < q < t.len() implies (#[trigger] t[p]).owner != (
    #[trigger] t[q]).owner by {
        assert(s[p].owner != s[q].owner);
    }
    assert forall|p: u64| #[trigger] jobs_of(t, p) == (if p == e.owner {
        e.jobs@.map_values(|j: String| j@)
    } else {
        jobs_of(s, p)
    }) by {
        if p == e.owner {
            lemma_owner_at(t, i);
        } else {
            if seq_has_owner(t, p) {
                let j = owner_index_of(t, p);
                assert(0 <= j < t.len() && t[j].owner == p);
                assert(j != i);
                lemma_owner_at(t, j);
                lemma_owner_at(s, j);
            }
            if seq_has_owner(s, p) {
                let j = owner_index_of(s, p);
                assert(0 <= j < s.len() && s[j].owner == p);
                assert(j != i);
                lemma_owner_at(s, j);
                lemma_owner_at(t, j);
            }
        }
    }
}

/// Appending an entry for a fresh principal adds it and keeps the rest.
pub proof fn lemma_jobs_push(s: Seq<JobList>, e: JobList)
    requires
        owners_distinct(s),
        !seq_has_owner(s, e.owner),
    ensures
        owners_distinct(s.push(e)),
        forall|p: u64| #[trigger]
            jobs_of(s.push(e), p) == (if p == e.owner {
                e.jobs@.map_values(|j: String| j@)
            } else {
                jobs_of(s, p)
            }),
{
    let t = s.push(e);
    assert forall|p: int, q: int| 0 <= p < q < t.len() implies (#[trigger] t[p]).owner != (
    #[trigger] t[q]).owner by {
        if q == s.len() {
            assert(t[p] == s[p]);
            if s[p].owner == e.owner {
                assert(seq_has_owner(s, e.owner));
            }
        } else {
            assert(s[p].owner != s[q].owner);
        }
    }
    assert forall|p: u64| #[trigger] jobs_of(t, p) == (if p == e.owner {
        e.jobs@.map_values(|j: String| j@)
    } else {
        jobs_of(s, p)
    }) by {
        if p == e.owner {
            lemma_owner_at(t, s.len() as int);
        } else {
            if seq_has_owner(t, p) {
                let j = owner_index_of(t, p);
                assert(0 <= j < t.len() && t[j].owner == p);
                assert(j != s.len());
                assert(t[j] == s[j]);
                lemma_owner_at(t, j);
                lemma_owner_at(s, j);
            }
            if seq_has_owner(s, p) {
                let j = owner_index_of(s, p);
                assert(0 <= j < s.len() && s[j].owner == p);
                assert(t[j] == s[j]);
                lemma_owner_at(s, j);
                lemma_owner_at(t, j);
            }
        }
    }
}

/// The index of the entry for `owner`, if one exists.
fn find_owner(list: &Vec<JobList>, owner: u64) -> (r: Option<usize>)
    ensures
        match r {
            Some(i) => i < list@.len() && list@[i as int].owner == owner,
            None => !seq_has_owner(list@, owner),
        },
{
    let mut i: usize = 0;
    while i < list.len()
        invariant
            i <= list.len(),
            forall|j: int| 0 <= j < i ==> (#[trigger] list@[j]).owner != owner,
        decreases list.len() - i,
    {
        if list[i].owner == owner {
            return Some(i);
        }
        i = i + 1;
    }
    None
}

/// Records `job_id` for `owner`: appended to the existing entry, or opening
/// a fresh one. Every other principal's list is untouched.
fn append_job(list: &mut Vec<JobList>, owner: u64, job_id: String)
    requires
        owners_distinct(old(list)@),
    ensures
        owners_distinct(final(list)@),
        forall|p: u64| #[trigger]
            jobs_of(final(list)@, p) == (if p == owner {
                jobs_of(old(list)@, owner).push(job_id@)
            } else {
                jobs_of(old(list)@, p)
            }),
{
    match find_owner(list, owner) {
        Some(i) => {
            proof {
                lemma_owner_at(list@, i as int);
            }
            let mut entry = list.remove(i);
            entry.jobs.push(job_id);
            proof {
                let ghost prev = old(list)@;
                assert(prev.remove(i as int).insert(i as int, entry) =~= prev.update(
                    i as int,
                    entry,
                ));
                lemma_jobs_update(prev, i as int, entry);
                assert(entry.jobs@.map_values(|j: String| j@) =~= jobs_of(prev, owner).push(
                    job_id@,
                ));
            }
            list.insert(i, entry);
        },
        None => {
            let mut jobs: Vec<String> = Vec::new();
            jobs.push(job_id);
            let entry = JobList { owner, jobs };
            proof {
                lemma_jobs_push(list@, entry);
                assert(entry.jobs@.map_values(|j: String| j@) =~= Seq::<Seq<char>>::empty().push(
                    job_id@,
                ));
                assert(jobs_of(old(list)@, owner) == Seq::<Seq<char>>::empty());
            }
            list.push(entry);
        },
    }
}

/// The escrow engine: every record, both participation indices, the
/// administrator once set, and the engine's own holding account.
pub struct EscrowContract {
    address: u64,
    admin: Option<u64>,
    records: Vec<EscrowData>,
    employer_index: Vec<JobList>,
    freelancer_index: Vec<JobList>,
}

impl EscrowContract {
    /// The records, in creation order.
    pub closed spec fn recs(self) -> Seq<EscrowData> {
        self.records@
    }

    /// The holding account that custodies locked value.
    pub closed spec fn spec_address(self) -> u64 {
        self.address
    }

    /// The administrator principal, once initialized.
    pub closed spec fn spec_admin(self) -> Option<u64> {
        self.admin
    }

    /// The entries of the employer participation index.
    pub closed spec fn employer_entries(self) -> Seq<JobList> {
        self.employer_index@
    }

    /// The entries of the freelancer participation index.
    pub closed spec fn freelancer_entries(self) -> Seq<JobList> {
        self.freelancer_index@
    }

    /// Well-formedness, established at construction and preserved by every
    /// operation: job identifiers are unique, every amount is strictly
    /// positive, a disputed record always names a freelancer, and each
    /// index holds at most one entry per principal.
    pub open spec fn wf(self) -> bool {
        &&& escrow_ids_distinct(self.recs())
        &&& forall|i: int| 0 <= i < self.recs().len() ==> (#[trigger] self.recs()[i]).amount > 0
        &&& forall|i: int|
            0 <= i < self.recs().len() ==> ((#[trigger] self.recs()[i]).status is Disputed
                ==> self.recs()[i].freelancer is Some)
        &&& owners_distinct(self.employer_entries())
        &&& owners_distinct(self.freelancer_entries())
        &&& employer_index_sound(self)
        &&& freelancer_index_sound(self)
        &&& employer_jobs_unique(self)
        &&& freelancer_jobs_unique(self)
    }

    /// Whether a record exists for the given job identifier.
    pub open spec fn has_escrow(self, id: Seq<char>) -> bool {
        seq_has_escrow(self.recs(), id)
    }

    /// The record stored under the given job identifier.
    pub open spec fn spec_escrow(self, id: Seq<char>) -> EscrowData {
        escrow_at(self.recs(), id)
    }

    /// The jobs created by the given employer, in creation order.
    pub open spec fn employer_jobs(self, p: u64) -> Seq<Seq<char>> {
        jobs_of(self.employer_entries(), p)
    }

    /// The jobs assigned to the given freelancer, in assignment order.
    pub open spec fn freelancer_jobs(self, p: u64) -> Seq<Seq<char>> {
        jobs_of(self.freelancer_entries(), p)
    }

    /// An engine with no records, custodying value in `address`.
    pub fn new(address: u64) -> (c: EscrowContract)
        ensures
            c.wf(),
            c.spec_address() == address,
            c.spec_admin() is None,
            c.recs() == Seq::<EscrowData>::empty(),
            forall|id: Seq<char>| !(#[trigger] c.has_escrow(id)),
            forall|p: u64| #[trigger] c.employer_jobs(p) == Seq::<Seq<char>>::empty(),
            forall|p: u64| #[trigger] c.freelancer_jobs(p) == Seq::<Seq<char>>::empty(),
    {
        EscrowContract {
            address,
            admin: None,
            records: Vec::new(),
            employer_index: Vec::new(),
            freelancer_index: Vec::new(),
        }
    }

    /// Names the administrator. Set exactly once; the dispute-resolution
    /// path reads it and nothing reassigns it.
    pub fn initialize(&mut self, admin: u64)
        requires
            old(self).wf(),
            old(self).spec_admin() is None,
        ensures
            final(self).wf(),
            final(self).spec_admin() == Some(admin),
            final(self).spec_address() == old(self).spec_address(),
            final(self).recs() == old(self).recs(),
            forall|id: Seq<char>| #[trigger] final(self).has_escrow(id) == old(self).has_escrow(id),
            forall|id: Seq<char>|
                old(self).has_escrow(id) ==> #[trigger] final(self).spec_escrow(id) == old(
                    self,
                ).spec_escrow(id),
            forall|p: u64| #[trigger] final(self).employer_jobs(p) == old(self).employer_jobs(p),
            forall|p: u64| #[trigger] final(self).freelancer_jobs(p) == old(self).freelancer_jobs(p),
    {
        self.admin = Some(admin);
        proof {
            lemma_index_sound_preserved(*old(self), *self);
        }
    }

    /// The index of the record for `job_id`, if one exists.
    fn lookup(&self, job_id: &String) -> (r: Option<usize>)
        ensures
            match r {
                Some(i) => i < self.recs().len() && self.recs()[i as int].job_id@ == job_id@,
                None => !self.has_escrow(job_id@),
            },
    {
        let mut i: usize = 0;
        while i < self.records.len()
            invariant
                i <= self.records.len(),
                forall|j: int| 0 <= j < i ==> (#[trigger] self.records@[j]).job_id@ != job_id@,
            decreases self.records.len() - i,
        {
            if self.records[i].job_id == *job_id {
                return Some(i);
            }
            i = i + 1;
        }
        None
    }

    /// Replaces the record at `i`.
    fn set_record(&mut self, i: usize, r: EscrowData)
        requires
            i < old(self).recs().len(),
        ensures
            final(self).recs() == old(self).recs().update(i as int, r),
            final(self).spec_address() == old(self).spec_address(),
            final(self).spec_admin() == old(self).spec_admin(),
            final(self).employer_entries() == old(self).employer_entries(),
            final(self).freelancer_entries() == old(self).freelancer_entries(),
    {
        self.records.remove(i);
        self.records.insert(i, r);
        proof {
            assert(self.records@ =~= old(self).recs().update(i as int, r));
        }
    }

    /// The record stored for `job_id`, or `None`. Read-only; never fails.
    pub fn get_escrow(&self, job_id: String) -> (r: Option<EscrowData>)
        requires
            self.wf(),
        ensures
            match r {
                Some(e) => self.has_escrow(job_id@) && e == self.spec_escrow(job_id@),
                None => !self.has_escrow(job_id@),
            },
    {
        match self.lookup(&job_id) {
            Some(i) => {
                proof {
                    lemma_escrow_at(self.recs(), i as int);
                }
                Some(clone_escrow(&self.records[i]))
            },
            None => None,
        }
    }

    /// Every job the given employer created, in creation order; empty when
    /// none were recorded. Read-only; never fails.
    pub fn get_employer_escrows(&self, employer: u64) -> (r: Vec<String>)
        requires
            self.wf(),
        ensures
            r@.map_values(|j: String| j@) == self.employer_jobs(employer),
    {
        match find_owner(&self.employer_index, employer) {
            Some(i) => {
                proof {
                    lemma_owner_at(self.employer_entries(), i as int);
                }
                let r = clone_jobs(&self.employer_index[i].jobs);
                proof {
                    assert(r@.map_values(|j: String| j@) =~= self.employer_jobs(employer));
                }
                r
            },
            None => {
                let r: Vec<String> = Vec::new();
                proof {
                    assert(r@.map_values(|j: String| j@) =~= Seq::<Seq<char>>::empty());
                }
                r
            },
        }
    }

    /// Every job assigned to the given freelancer, in assignment order;
    /// empty when none were recorded. Read-only; never fails.
    pub fn get_freelancer_escrows(&self, freelancer: u64) -> (r: Vec<String>)
        requires
            self.wf(),
        ensures
            r@.map_values(|j: String| j@) == self.freelancer_jobs(freelancer),
    {
        match find_owner(&self.freelancer_index, freelancer) {
            Some(i) => {
                proof {
                    lemma_owner_at(self.freelancer_entries(), i as int);
                }
                let r = clone_jobs(&self.freelancer_index[i].jobs);
                proof {
                    assert(r@.map_values(|j: String| j@) =~= self.freelancer_jobs(freelancer));
                }
                r
            },
            None => {
                let r: Vec<String> = Vec::new();
                proof {
                    assert(r@.map_values(|j: String| j@) =~= Seq::<Seq<char>>::empty());
                }
                r
            },
        }
    }
}

/// Every job listed in the employer index belongs to an existing record
/// created by exactly that employer.
pub open spec fn employer_index_sound(c: EscrowContract) -> bool {
    forall|p: u64, j: int|
        0 <= j < c.employer_jobs(p).len() ==> c.has_escrow(#[trigger] c.employer_jobs(p)[j])
            && c.spec_escrow(c.employer_jobs(p)[j]).employer == p
}

/// Every job listed in the freelancer index belongs to an existing record
/// assigned to exactly that freelancer.
pub open spec fn freelancer_index_sound(c: EscrowContract) -> bool {
    forall|p: u64, j: int|
        0 <= j < c.freelancer_jobs(p).len() ==> c.has_escrow(#[trigger] c.freelancer_jobs(p)[j])
            && c.spec_escrow(c.freelancer_jobs(p)[j]).freelancer == Some(p)
}

/// No job identifier appears twice in one employer's list: each job is
/// appended exactly once, when it is created.
pub open spec fn employer_jobs_unique(c: EscrowContract) -> bool {
    forall|p: u64, i: int, j: int|
        0 <= i < j < c.employer_jobs(p).len() ==> (#[trigger] c.employer_jobs(p)[i]) != (
        #[trigger] c.employer_jobs(p)[j])
}

/// No job identifier appears twice in one freelancer's list: each job is
/// appended exactly once, when its freelancer is assigned.
pub open spec fn freelancer_jobs_unique(c: EscrowContract) -> bool {
    forall|p: u64, i: int, j: int|
        0 <= i < j < c.freelancer_jobs(p).len() ==> (#[trigger] c.freelancer_jobs(p)[i]) != (
        #[trigger] c.freelancer_jobs(p)[j])
}

/// The index invariants carry over to any state with the same lookups and
/// the same employer and freelancer on every record.
proof fn lemma_index_sound_preserved(pre: EscrowContract, post: EscrowContract)
    requires
        employer_index_sound(pre),
        freelancer_index_sound(pre),
        employer_jobs_unique(pre),
        freelancer_jobs_unique(pre),
        forall|p: u64| #[trigger] post.employer_jobs(p) == pre.employer_jobs(p),
        forall|p: u64| #[trigger] post.freelancer_jobs(p) == pre.freelancer_jobs(p),
        forall|id: Seq<char>| #[trigger] post.has_escrow(id) == pre.has_escrow(id),
        forall|id: Seq<char>|
            pre.has_escrow(id) ==> (#[trigger] post.spec_escrow(id)).employer == pre.spec_escrow(
                id,
            ).employer && post.spec_escrow(id).freelancer == pre.spec_escrow(id).freelancer,
    ensures
        employer_index_sound(post),
        freelancer_index_sound(post),
        employer_jobs_unique(post),
        freelancer_jobs_unique(post),
{
    assert forall|p: u64, j: int| 0 <= j < post.employer_jobs(p).len() implies post.has_escrow(
        #[trigger] post.employer_jobs(p)[j],
    ) && post.spec_escrow(post.employer_jobs(p)[j]).employer == p by {
        assert(pre.has_escrow(pre.employer_jobs(p)[j]));
    }
    assert forall|p: u64, j: int| 0 <= j < post.freelancer_jobs(p).len() implies post.has_escrow(
        #[trigger] post.freelancer_jobs(p)[j],
    ) && post.spec_escrow(post.freelancer_jobs(p)[j]).freelancer == Some(p) by {
        assert(pre.has_escrow(pre.freelancer_jobs(p)[j]));
    }
}

/// When a creation succeeds: the caller authorized as the employer, the job
/// identifier is fresh, the amount strictly positive, and the employer can
/// fund the lock.
pub open spec fn create_ok(
    c: EscrowContract,
    l: ValueLedger,
    caller: u64,
    job_id: Seq<char>,
    employer: u64,
    amount: i128,
    token: u64,
) -> bool {
    &&& caller == employer
    &&& !c.has_escrow(job_id)
    &&& amount > 0
    &&& can_transfer(l, token, employer, c.spec_address(), amount as int)
}

/// The error a refused creation reports: the first violated precondition,
/// in the order the checks run.
pub open spec fn create_err(
    c: EscrowContract,
    l: ValueLedger,
    caller: u64,
    job_id: Seq<char>,
    employer: u64,
    amount: i128,
    token: u64,
) -> EscrowError {
    if caller != employer {
        EscrowError::Unauthorized
    } else if c.has_escrow(job_id) {
        EscrowError::EscrowAlreadyExists
    } else if amount <= 0 {
        EscrowError::InvalidAmount
    } else {
        EscrowError::InsufficientBalance
    }
}

impl EscrowContract {
    /// Locks `amount` of `token`, moved from `employer` into the holding
    /// account, under a fresh record with `status == Locked` and no
    /// freelancer, and appends the job to the employer's index. A second
    /// creation under the same `job_id` always fails with
    /// `EscrowAlreadyExists`, whatever its payload.
    pub fn create_escrow(
        &mut self,
        ledger: &mut ValueLedger,
        caller: u64,
        job_id: String,
        employer: u64,
        amount: i128,
        token: u64,
        deadline: Option<u64>,
        now: u64,
    ) -> (r: Result<(), EscrowError>)
        requires
            old(self).wf(),
            old(ledger).wf(),
        ensures
            final(self).wf(),
            final(ledger).wf(),
            r is Ok <==> create_ok(*old(self), *old(ledger), caller, job_id@, employer, amount, token),
            r is Err ==> r == Err::<(), EscrowError>(
                create_err(*old(self), *old(ledger), caller, job_id@, employer, amount, token),
            ) && *final(self) == *old(self) && *final(ledger) == *old(ledger),
            r is Ok ==> final(self).has_escrow(job_id@) && final(self).spec_escrow(job_id@) == (
            EscrowData {
                job_id: job_id,
                employer: employer,
                freelancer: None,
                amount: amount,
                token: token,
                status: EscrowStatus::Locked,
                created_at: now,
                deadline: deadline,
            }),
            r is Ok ==> forall|id: Seq<char>| #[trigger]
                final(self).has_escrow(id) == (old(self).has_escrow(id) || id == job_id@),
            r is Ok ==> forall|id: Seq<char>|
                old(self).has_escrow(id) && id != job_id@ ==> #[trigger] final(self).spec_escrow(id)
                    == old(self).spec_escrow(id),
            r is Ok ==> forall|p: u64| #[trigger]
                final(self).employer_jobs(p) == (if p == employer {
                    old(self).employer_jobs(employer).push(job_id@)
                } else {
                    old(self).employer_jobs(p)
                }),
            r is Ok ==> forall|p: u64| #[trigger]
                final(self).freelancer_jobs(p) == old(self).freelancer_jobs(p),
            r is Ok ==> forall|qa: u64, qo: u64| #[trigger]
                final(ledger).bal(qa, qo) == old(ledger).bal(qa, qo) + transfer_delta(
                    token,
                    employer,
                    old(self).spec_address(),
                    amount as int,
                    qa,
                    qo,
                ),
            forall|id: Seq<char>|
                old(self).has_escrow(id) ==> status_step_ok(
                    (#[trigger] old(self).spec_escrow(id)).status,
                    final(self).spec_escrow(id).status,
                ),
            forall|id: Seq<char>|
                old(self).has_escrow(id) && (#[trigger] old(self).spec_escrow(id)).freelancer
                    is Some ==> final(self).spec_escrow(id).freelancer == old(self).spec_escrow(
                    id,
                ).freelancer,
            final(self).spec_address() == old(self).spec_address(),
            final(self).spec_admin() == old(self).spec_admin(),
            forall|qa: u64| #[trigger] final(ledger).total(qa) == old(ledger).total(qa),
    {
        if caller != employer {
            return Err(EscrowError::Unauthorized);
        }
        match self.lookup(&job_id) {
            Some(i) => {
                proof {
                    lemma_escrow_at(self.recs(), i as int);
                }
                return Err(EscrowError::EscrowAlreadyExists);
            },
            None => {},
        }
        if amount <= 0 {
            return Err(EscrowError::InvalidAmount);
        }
        if !ledger.transfer(token, employer, self.address, amount) {
            return Err(EscrowError::InsufficientBalance);
        }
        let rec = EscrowData {
            job_id: job_id.clone(),
            employer,
            freelancer: None,
            amount,
            token,
            status: EscrowStatus::Locked,
            created_at: now,
            deadline,
        };
        proof {
            lemma_escrow_push(self.recs(), rec);
        }
        self.records.push(rec);
        append_job(&mut self.employer_index, employer, job_id);
        proof {
            let pre = *old(self);
            let post = *self;
            assert forall|p: u64, j: int| 0 <= j < post.employer_jobs(p).len() implies
                post.has_escrow(#[trigger] post.employer_jobs(p)[j]) && post.spec_escrow(
                post.employer_jobs(p)[j],
            ).employer == p by {
                if p == employer && j == post.employer_jobs(p).len() - 1 {
                    assert(post.employer_jobs(p)[j] == job_id@);
                } else {
                    let id = pre.employer_jobs(p)[j];
                    assert(pre.has_escrow(id));
                    assert(id != job_id@);
                }
            }
            assert forall|p: u64, i2: int, j2: int| 0 <= i2 < j2 < post.employer_jobs(p).len()
                implies (#[trigger] post.employer_jobs(p)[i2]) != (#[trigger] post.employer_jobs(
                p,
            )[j2]) by {
                if p == employer && j2 == post.employer_jobs(p).len() - 1 {
                    let id = pre.employer_jobs(p)[i2];
                    assert(pre.has_escrow(id));
                    assert(id != job_id@);
                } else {
                    assert(pre.employer_jobs(p)[i2] != pre.employer_jobs(p)[j2]);
                }
            }
            assert forall|p: u64, j: int| 0 <= j < post.freelancer_jobs(p).len() implies
                post.has_escrow(#[trigger] post.freelancer_jobs(p)[j]) && post.spec_escrow(
                post.freelancer_jobs(p)[j],
            ).freelancer == Some(p) by {
                let id = pre.freelancer_jobs(p)[j];
                assert(pre.has_escrow(id));
                assert(id != job_id@);
            }
            assert forall|p: u64, i2: int, j2: int| 0 <= i2 < j2 < post.freelancer_jobs(p).len()
                implies (#[trigger] post.freelancer_jobs(p)[i2]) != (
            #[trigger] post.freelancer_jobs(p)[j2]) by {
                assert(pre.freelancer_jobs(p)[i2] != pre.freelancer_jobs(p)[j2]);
            }
        }
        Ok(())
    }
}

/// When an assignment succeeds: the record exists, the caller authorized as
/// its employer, it is still `Locked`, and no freelancer was assigned yet —
/// the freelancer is set at most once, never overwritten.
pub open spec fn assign_ok(c: EscrowContract, caller: u64, job_id: Seq<char>) -> bool {
    &&& c.has_escrow(job_id)
    &&& caller == c.spec_escrow(job_id).employer
    &&& c.spec_escrow(job_id).status is Locked
    &&& c.spec_escrow(job_id).freelancer is None
}

/// The error a refused assignment reports. A repeated assignment is
/// rejected as `InvalidStatus`: the record is no longer assignable.
pub open spec fn assign_err(c: EscrowContract, caller: u64, job_id: Seq<char>) -> EscrowError {
    if !c.has_escrow(job_id) {
        EscrowError::EscrowNotFound
    } else if caller != c.spec_escrow(job_id).employer {
        EscrowError::Unauthorized
    } else {
        EscrowError::InvalidStatus
    }
}

/// When a dispute may be opened: the record exists, is still `Locked`, has
/// a freelancer, and the caller is exactly one of the two parties.
pub open spec fn dispute_ok(c: EscrowContract, caller: u64, job_id: Seq<char>) -> bool {
    &&& c.has_escrow(job_id)
    &&& c.spec_escrow(job_id).status is Locked
    &&& c.spec_escrow(job_id).freelancer is Some
    &&& (caller == c.spec_escrow(job_id).employer || Some(caller) == c.spec_escrow(
        job_id,
    ).freelancer)
}

/// The error a refused dispute initiation reports.
pub open spec fn dispute_err(c: EscrowContract, caller: u64, job_id: Seq<char>) -> EscrowError {
    if !c.has_escrow(job_id) {
        EscrowError::EscrowNotFound
    } else if !(c.spec_escrow(job_id).status is Locked) {
        EscrowError::InvalidStatus
    } else if c.spec_escrow(job_id).freelancer is None {
        EscrowError::FreelancerNotAssigned
    } else {
        EscrowError::Unauthorized
    }
}

impl EscrowContract {
    /// Assigns the freelancer to a `Locked` record and appends the job to
    /// the freelancer's index. Assigning twice is rejected, not a no-op:
    /// once set, the freelancer never changes.
    pub fn assign_freelancer(&mut self, caller: u64, job_id: String, freelancer: u64) -> (r:
        Result<(), EscrowError>)
        requires
            old(self).wf(),
        ensures
            final(self).wf(),
            r is Ok <==> assign_ok(*old(self), caller, job_id@),
            r is Err ==> r == Err::<(), EscrowError>(assign_err(*old(self), caller, job_id@))
                && *final(self) == *old(self),
            r is Ok ==> final(self).spec_escrow(job_id@) == (EscrowData {
                freelancer: Some(freelancer),
                ..old(self).spec_escrow(job_id@)
            }),
            forall|id: Seq<char>| #[trigger] final(self).has_escrow(id) == old(self).has_escrow(id),
            forall|id: Seq<char>|
                old(self).has_escrow(id) && id != job_id@ ==> #[trigger] final(self).spec_escrow(id)
                    == old(self).spec_escrow(id),
            r is Ok ==> forall|p: u64| #[trigger]
                final(self).freelancer_jobs(p) == (if p == freelancer {
                    old(self).freelancer_jobs(freelancer).push(job_id@)
                } else {
                    old(self).freelancer_jobs(p)
                }),
            forall|p: u64| #[trigger] final(self).employer_jobs(p) == old(self).employer_jobs(p),
            r is Err ==> forall|p: u64| #[trigger]
                final(self).freelancer_jobs(p) == old(self).freelancer_jobs(p),
            old(self).has_escrow(job_id@) && is_terminal(old(self).spec_escrow(job_id@).status)
                && caller == old(self).spec_escrow(job_id@).employer ==> r == Err::<
                (),
                EscrowError,
            >(EscrowError::InvalidStatus),
            forall|id: Seq<char>|
                old(self).has_escrow(id) ==> status_step_ok(
                    (#[trigger] old(self).spec_escrow(id)).status,
                    final(self).spec_escrow(id).status,
                ),
            forall|id: Seq<char>|
                old(self).has_escrow(id) && (#[trigger] old(self).spec_escrow(id)).freelancer
                    is Some ==> final(self).spec_escrow(id).freelancer == old(self).spec_escrow(
                    id,
                ).freelancer,
            final(self).spec_address() == old(self).spec_address(),
            final(self).spec_admin() == old(self).spec_admin(),
    {
        let i = match self.lookup(&job_id) {
            Some(i) => i,
            None => {
                return Err(EscrowError::EscrowNotFound);
            },
        };
        proof {
            lemma_escrow_at(self.recs(), i as int);
        }
        if self.records[i].employer != caller {
            return Err(EscrowError::Unauthorized);
        }
        match self.records[i].status {
            EscrowStatus::Locked => {},
            _ => {
                return Err(EscrowError::InvalidStatus);
            },
        }
        if self.records[i].freelancer.is_some() {
            return Err(EscrowError::InvalidStatus);
        }
        let updated = EscrowData { freelancer: Some(freelancer), ..clone_escrow(&self.records[i]) };
        proof {
            lemma_escrow_update(self.recs(), i as int, updated);
        }
        self.set_record(i, updated);
        append_job(&mut self.freelancer_index, freelancer, job_id);
        proof {
            let pre = *old(self);
            let post = *self;
            assert forall|p: u64, j: int| 0 <= j < post.employer_jobs(p).len() implies
                post.has_escrow(#[trigger] post.employer_jobs(p)[j]) && post.spec_escrow(
                post.employer_jobs(p)[j],
            ).employer == p by {
                let id = pre.employer_jobs(p)[j];
                assert(pre.has_escrow(id));
                if id == job_id@ {
                    assert(post.spec_escrow(id) == updated);
                }
            }
            assert forall|p: u64, i2: int, j2: int| 0 <= i2 < j2 < post.employer_jobs(p).len()
                implies (#[trigger] post.employer_jobs(p)[i2]) != (#[trigger] post.employer_jobs(
                p,
            )[j2]) by {
                assert(pre.employer_jobs(p)[i2] != pre.employer_jobs(p)[j2]);
            }
            assert forall|p: u64, j: int| 0 <= j < post.freelancer_jobs(p).len() implies
                post.has_escrow(#[trigger] post.freelancer_jobs(p)[j]) && post.spec_escrow(
                post.freelancer_jobs(p)[j],
            ).freelancer == Some(p) by {
                if p == freelancer && j == post.freelancer_jobs(p).len() - 1 {
                    assert(post.freelancer_jobs(p)[j] == job_id@);
                    assert(post.spec_escrow(job_id@) == updated);
                } else {
                    let id = pre.freelancer_jobs(p)[j];
                    assert(pre.has_escrow(id));
                    assert(pre.spec_escrow(id).freelancer == Some(p));
                    assert(id != job_id@);
                }
            }
            assert forall|p: u64, i2: int, j2: int| 0 <= i2 < j2 < post.freelancer_jobs(p).len()
                implies (#[trigger] post.freelancer_jobs(p)[i2]) != (
            #[trigger] post.freelancer_jobs(p)[j2]) by {
                if p == freelancer && j2 == post.freelancer_jobs(p).len() - 1 {
                    let id = pre.freelancer_jobs(p)[i2];
                    assert(pre.spec_escrow(id).freelancer == Some(p));
                    assert(id != job_id@);
                } else {
                    assert(pre.freelancer_jobs(p)[i2] != pre.freelancer_jobs(p)[j2]);
                }
            }
        }
        Ok(())
    }

    /// Opens a dispute on a `Locked` record with a freelancer assigned.
    /// Exactly the two parties — employer and freelancer — may do so, and
    /// no value moves here.
    pub fn initiate_dispute(&mut self, caller: u64, job_id: String) -> (r: Result<(), EscrowError>)
        requires
            old(self).wf(),
        ensures
            final(self).wf(),
            r is Ok <==> dispute_ok(*old(self), caller, job_id@),
            r is Err ==> r == Err::<(), EscrowError>(dispute_err(*old(self), caller, job_id@))
                && *final(self) == *old(self),
            r is Ok ==> final(self).spec_escrow(job_id@) == (EscrowData {
                status: EscrowStatus::Disputed,
                ..old(self).spec_escrow(job_id@)
            }),
            forall|id: Seq<char>| #[trigger] final(self).has_escrow(id) == old(self).has_escrow(id),
            forall|id: Seq<char>|
                old(self).has_escrow(id) && id != job_id@ ==> #[trigger] final(self).spec_escrow(id)
                    == old(self).spec_escrow(id),
            forall|p: u64| #[trigger] final(self).employer_jobs(p) == old(self).employer_jobs(p),
            forall|p: u64| #[trigger] final(self).freelancer_jobs(p) == old(self).freelancer_jobs(p),
            old(self).has_escrow(job_id@) && is_terminal(old(self).spec_escrow(job_id@).status)
                ==> r == Err::<(), EscrowError>(EscrowError::InvalidStatus),
            forall|id: Seq<char>|
                old(self).has_escrow(id) ==> status_step_ok(
                    (#[trigger] old(self).spec_escrow(id)).status,
                    final(self).spec_escrow(id).status,
                ),
            forall|id: Seq<char>|
                old(self).has_escrow(id) && (#[trigger] old(self).spec_escrow(id)).freelancer
                    is Some ==> final(self).spec_escrow(id).freelancer == old(self).spec_escrow(
                    id,
                ).freelancer,
            final(self).spec_address() == old(self).spec_address(),
            final(self).spec_admin() == old(self).spec_admin(),
    {
        let i = match self.lookup(&job_id) {
            Some(i) => i,
            None => {
                return Err(EscrowError::EscrowNotFound);
            },
        };
        proof {
            lemma_escrow_at(self.recs(), i as int);
        }
        match self.records[i].status {
            EscrowStatus::Locked => {},
            _ => {
                return Err(EscrowError::InvalidStatus);
            },
        }
        let assigned = match self.records[i].freelancer {
            Some(f) => f,
            None => {
                return Err(EscrowError::FreelancerNotAssigned);
            },
        };
        if caller != self.records[i].employer && caller != assigned {
            return Err(EscrowError::Unauthorized);
        }
        let updated = EscrowData { status: EscrowStatus::Disputed, ..clone_escrow(&self.records[i]) };
        proof {
            lemma_escrow_update(self.recs(), i as int, updated);
        }
        self.set_record(i, updated);
        proof {
            let pre = *old(self);
            assert forall|id: Seq<char>| pre.has_escrow(id) implies (#[trigger] self.spec_escrow(
                id,
            )).employer == pre.spec_escrow(id).employer && self.spec_escrow(id).freelancer
                == pre.spec_escrow(id).freelancer by {}
            lemma_index_sound_preserved(pre, *self);
        }
        Ok(())
    }
}

/// When a release succeeds: the record exists, the caller authorized as its
/// employer, it is still `Locked`, a freelancer is assigned, and the
/// holding account can pay them the full amount.
pub open spec fn release_ok(
    c: EscrowContract,
    l: ValueLedger,
    caller: u64,
    job_id: Seq<char>,
) -> bool {
    &&& c.has_escrow(job_id)
    &&& caller == c.spec_escrow(job_id).employer
    &&& c.spec_escrow(job_id).status is Locked
    &&& c.spec_escrow(job_id).freelancer is Some
    &&& can_transfer(
        l,
        c.spec_escrow(job_id).token,
        c.spec_address(),
        c.spec_escrow(job_id).freelancer->0,
        c.spec_escrow(job_id).amount as int,
    )
}

/// The error a refused release reports.
pub open spec fn release_err(
    c: EscrowContract,
    l: ValueLedger,
    caller: u64,
    job_id: Seq<char>,
) -> EscrowError {
    if !c.has_escrow(job_id) {
        EscrowError::EscrowNotFound
    } else if caller != c.spec_escrow(job_id).employer {
        EscrowError::Unauthorized
    } else if !(c.spec_escrow(job_id).status is Locked) {
        EscrowError::InvalidStatus
    } else if c.spec_escrow(job_id).freelancer is None {
        EscrowError::FreelancerNotAssigned
    } else {
        EscrowError::InsufficientBalance
    }
}

/// Whether a `Locked` record may be cancelled at time `now`: freely while
/// no freelancer is assigned; after assignment only once a set deadline has
/// passed, and never when no deadline was set.
pub open spec fn cancel_allowed(e: EscrowData, now: u64) -> bool {
    e.freelancer is None || (e.deadline is Some && now >= e.deadline->0)
}

/// When a cancellation succeeds.
pub open spec fn cancel_ok(
    c: EscrowContract,
    l: ValueLedger,
    caller: u64,
    job_id: Seq<char>,
    now: u64,
) -> bool {
    &&& c.has_escrow(job_id)
    &&& caller == c.spec_escrow(job_id).employer
    &&& c.spec_escrow(job_id).status is Locked
    &&& cancel_allowed(c.spec_escrow(job_id), now)
    &&& can_transfer(
        l,
        c.spec_escrow(job_id).token,
        c.spec_address(),
        c.spec_escrow(job_id).employer,
        c.spec_escrow(job_id).amount as int,
    )
}

/// The error a refused cancellation reports.
pub open spec fn cancel_err(
    c: EscrowContract,
    l: ValueLedger,
    caller: u64,
    job_id: Seq<char>,
    now: u64,
) -> EscrowError {
    if !c.has_escrow(job_id) {
        EscrowError::EscrowNotFound
    } else if caller != c.spec_escrow(job_id).employer {
        EscrowError::Unauthorized
    } else if !(c.spec_escrow(job_id).status is Locked) {
        EscrowError::InvalidStatus
    } else if !cancel_allowed(c.spec_escrow(job_id), now) {
        EscrowError::CannotCancel
    } else {
        EscrowError::InsufficientBalance
    }
}

impl EscrowContract {
    /// Pays the full locked amount from the holding account to the
    /// assigned freelancer and marks the record `Released`. The transfer
    /// runs before the status write: a ledger failure aborts the whole
    /// operation with nothing changed.
    pub fn release_escrow(&mut self, ledger: &mut ValueLedger, caller: u64, job_id: String) -> (r:
        Result<(), EscrowError>)
        requires
            old(self).wf(),
            old(ledger).wf(),
        ensures
            final(self).wf(),
            final(ledger).wf(),
            r is Ok <==> release_ok(*old(self), *old(ledger), caller, job_id@),
            r is Err ==> r == Err::<(), EscrowError>(
                release_err(*old(self), *old(ledger), caller, job_id@),
            ) && *final(self) == *old(self) && *final(ledger) == *old(ledger),
            r is Ok ==> final(self).spec_escrow(job_id@) == (EscrowData {
                status: EscrowStatus::Released,
                ..old(self).spec_escrow(job_id@)
            }),
            r is Ok ==> forall|qa: u64, qo: u64| #[trigger]
                final(ledger).bal(qa, qo) == old(ledger).bal(qa, qo) + transfer_delta(
                    old(self).spec_escrow(job_id@).token,
                    old(self).spec_address(),
                    old(self).spec_escrow(job_id@).freelancer->0,
                    old(self).spec_escrow(job_id@).amount as int,
                    qa,
                    qo,
                ),
            forall|id: Seq<char>| #[trigger] final(self).has_escrow(id) == old(self).has_escrow(id),
            forall|id: Seq<char>|
                old(self).has_escrow(id) && id != job_id@ ==> #[trigger] final(self).spec_escrow(id)
                    == old(self).spec_escrow(id),
            forall|p: u64| #[trigger] final(self).employer_jobs(p) == old(self).employer_jobs(p),
            forall|p: u64| #[trigger] final(self).freelancer_jobs(p) == old(self).freelancer_jobs(p),
            old(self).has_escrow(job_id@) && is_terminal(old(self).spec_escrow(job_id@).status)
                && caller == old(self).spec_escrow(job_id@).employer ==> r == Err::<
                (),
                EscrowError,
            >(EscrowError::InvalidStatus),
            forall|id: Seq<char>|
                old(self).has_escrow(id) ==> status_step_ok(
                    (#[trigger] old(self).spec_escrow(id)).status,
                    final(self).spec_escrow(id).status,
                ),
            forall|id: Seq<char>|
                old(self).has_escrow(id) && (#[trigger] old(self).spec_escrow(id)).freelancer
                    is Some ==> final(self).spec_escrow(id).freelancer == old(self).spec_escrow(
                    id,
                ).freelancer,
            final(self).spec_address() == old(self).spec_address(),
            final(self).spec_admin() == old(self).spec_admin(),
            forall|qa: u64| #[trigger] final(ledger).total(qa) == old(ledger).total(qa),
    {
        let i = match self.lookup(&job_id) {
            Some(i) => i,
            None => {
                return Err(EscrowError::EscrowNotFound);
            },
        };
        proof {
            lemma_escrow_at(self.recs(), i as int);
        }
        if self.records[i].employer != caller {
            return Err(EscrowError::Unauthorized);
        }
        match self.records[i].status {
            EscrowStatus::Locked => {},
            _ => {
                return Err(EscrowError::InvalidStatus);
            },
        }
        let assigned = match self.records[i].freelancer {
            Some(f) => f,
            None => {
                return Err(EscrowError::FreelancerNotAssigned);
            },
        };
        if !ledger.transfer(self.records[i].token, self.address, assigned, self.records[i].amount) {
            return Err(EscrowError::InsufficientBalance);
        }
        let updated = EscrowData { status: EscrowStatus::Released, ..clone_escrow(&self.records[i]) };
        proof {
            lemma_escrow_update(self.recs(), i as int, updated);
        }
        self.set_record(i, updated);
        proof {
            let pre = *old(self);
            assert forall|id: Seq<char>| pre.has_escrow(id) implies (#[trigger] self.spec_escrow(
                id,
            )).employer == pre.spec_escrow(id).employer && self.spec_escrow(id).freelancer
                == pre.spec_escrow(id).freelancer by {}
            lemma_index_sound_preserved(pre, *self);
        }
        Ok(())
    }

    /// Refunds the full locked amount from the holding account to the
    /// employer and marks the record `Cancelled`: freely while no
    /// freelancer is assigned, after assignment only once a set deadline
    /// has passed. The refund runs before the status write.
    pub fn cancel_escrow(
        &mut self,
        ledger: &mut ValueLedger,
        caller: u64,
        job_id: String,
        now: u64,
    ) -> (r: Result<(), EscrowError>)
        requires
            old(self).wf(),
            old(ledger).wf(),
        ensures
            final(self).wf(),
            final(ledger).wf(),
            r is Ok <==> cancel_ok(*old(self), *old(ledger), caller, job_id@, now),
            r is Err ==> r == Err::<(), EscrowError>(
                cancel_err(*old(self), *old(ledger), caller, job_id@, now),
            ) && *final(self) == *old(self) && *final(ledger) == *old(ledger),
            r is Ok ==> final(self).spec_escrow(job_id@) == (EscrowData {
                status: EscrowStatus::Cancelled,
                ..old(self).spec_escrow(job_id@)
            }),
            r is Ok ==> forall|qa: u64, qo: u64| #[trigger]
                final(ledger).bal(qa, qo) == old(ledger).bal(qa, qo) + transfer_delta(
                    old(self).spec_escrow(job_id@).token,
                    old(self).spec_address(),
                    old(self).spec_escrow(job_id@).employer,
                    old(self).spec_escrow(job_id@).amount as int,
                    qa,
                    qo,
                ),
            forall|id: Seq<char>| #[trigger] final(self).has_escrow(id) == old(self).has_escrow(id),
            forall|id: Seq<char>|
                old(self).has_escrow(id) && id != job_id@ ==> #[trigger] final(self).spec_escrow(id)
                    == old(self).spec_escrow(id),
            forall|p: u64| #[trigger] final(self).employer_jobs(p) == old(self).employer_jobs(p),
            forall|p: u64| #[trigger] final(self).freelancer_jobs(p) == old(self).freelancer_jobs(p),
            old(self).has_escrow(job_id@) && is_terminal(old(self).spec_escrow(job_id@).status)
                && caller == old(self).spec_escrow(job_id@).employer ==> r == Err::<
                (),
                EscrowError,
            >(EscrowError::InvalidStatus),
            forall|id: Seq<char>|
                old(self).has_escrow(id) ==> status_step_ok(
                    (#[trigger] old(self).spec_escrow(id)).status,
                    final(self).spec_escrow(id).status,
                ),
            forall|id: Seq<char>|
                old(self).has_escrow(id) && (#[trigger] old(self).spec_escrow(id)).freelancer
                    is Some ==> final(self).spec_escrow(id).freelancer == old(self).spec_escrow(
                    id,
                ).freelancer,
            final(self).spec_address() == old(self).spec_address(),
            final(self).spec_admin() == old(self).spec_admin(),
            forall|qa: u64| #[trigger] final(ledger).total(qa) == old(ledger).total(qa),
    {
        let i = match self.lookup(&job_id) {
            Some(i) => i,
            None => {
                return Err(EscrowError::EscrowNotFound);
            },
        };
        proof {
            lemma_escrow_at(self.recs(), i as int);
        }
        if self.records[i].employer != caller {
            return Err(EscrowError::Unauthorized);
        }
        match self.records[i].status {
            EscrowStatus::Locked => {},
            _ => {
                return Err(EscrowError::InvalidStatus);
            },
        }
        if self.records[i].freelancer.is_some() {
            match self.records[i].deadline {
                Some(d) => {
                    if now < d {
                        return Err(EscrowError::CannotCancel);
                    }
                },
                None => {
                    return Err(EscrowError::CannotCancel);
                },
            }
        }
        if !ledger.transfer(
            self.records[i].token,
            self.address,
            self.records[i].employer,
            self.records[i].amount,
        ) {
            return Err(EscrowError::InsufficientBalance);
        }
        let updated = EscrowData {
            status: EscrowStatus::Cancelled,
            ..clone_escrow(&self.records[i])
        };
        proof {
            lemma_escrow_update(self.recs(), i as int, updated);
        }
        self.set_record(i, updated);
        proof {
            let pre = *old(self);
            assert forall|id: Seq<char>| pre.has_escrow(id) implies (#[trigger] self.spec_escrow(
                id,
            )).employer == pre.spec_escrow(id).employer && self.spec_escrow(id).freelancer
                == pre.spec_escrow(id).freelancer by {}
            lemma_index_sound_preserved(pre, *self);
        }
        Ok(())
    }
}

/// The share of the locked amount a resolution pays back to the employer.
pub open spec fn resolution_employer_share(res: DisputeResolution, amount: i128) -> int {
    match res {
        DisputeResolution::FavorEmployer => amount as int,
        DisputeResolution::FavorFreelancer => 0,
        DisputeResolution::Split(s) => s as int,
    }
}

/// The share a resolution pays to the freelancer: the rest of the amount,
/// so the two shares always sum to the amount exactly.
pub open spec fn resolution_freelancer_share(res: DisputeResolution, amount: i128) -> int {
    amount as int - resolution_employer_share(res, amount)
}

/// The terminal status a resolution leaves behind: `Cancelled` only when
/// the whole amount returns to the employer.
pub open spec fn resolution_status(res: DisputeResolution) -> EscrowStatus {
    match res {
        DisputeResolution::FavorEmployer => EscrowStatus::Cancelled,
        DisputeResolution::FavorFreelancer => EscrowStatus::Released,
        DisputeResolution::Split(_) => EscrowStatus::Released,
    }
}

/// A split must name an employer share between zero and the locked amount.
pub open spec fn split_in_bounds(res: DisputeResolution, amount: i128) -> bool {
    match res {
        DisputeResolution::Split(s) => 0 <= s <= amount,
        _ => true,
    }
}

/// When a resolution succeeds: the caller authorized as the administrator,
/// the record exists and is `Disputed`, any split is within bounds, and the
/// holding account can pay both shares.
pub open spec fn resolve_ok(
    c: EscrowContract,
    l: ValueLedger,
    caller: u64,
    job_id: Seq<char>,
    res: DisputeResolution,
) -> bool {
    &&& caller == c.spec_admin()->0
    &&& c.has_escrow(job_id)
    &&& c.spec_escrow(job_id).status is Disputed
    &&& split_in_bounds(res, c.spec_escrow(job_id).amount)
    &&& can_disburse(
        l,
        c.spec_escrow(job_id).token,
        c.spec_address(),
        c.spec_escrow(job_id).employer,
        resolution_employer_share(res, c.spec_escrow(job_id).amount),
        c.spec_escrow(job_id).freelancer->0,
        resolution_freelancer_share(res, c.spec_escrow(job_id).amount),
    )
}

/// The error a refused resolution reports.
pub open spec fn resolve_err(
    c: EscrowContract,
    l: ValueLedger,
    caller: u64,
    job_id: Seq<char>,
    res: DisputeResolution,
) -> EscrowError {
    if caller != c.spec_admin()->0 {
        EscrowError::Unauthorized
    } else if !c.has_escrow(job_id) {
        EscrowError::EscrowNotFound
    } else if !(c.spec_escrow(job_id).status is Disputed) {
        EscrowError::InvalidStatus
    } else if !split_in_bounds(res, c.spec_escrow(job_id).amount) {
        EscrowError::InvalidAmount
    } else {
        EscrowError::InsufficientBalance
    }
}

impl EscrowContract {
    /// Settles a `Disputed` record: pays the employer's share back to the
    /// employer and the rest to the freelancer in one all-or-nothing
    /// settlement, then marks the record with the resolution's terminal
    /// status. Only the administrator may resolve; the shares always sum
    /// to the locked amount exactly, and neither share is negative.
    pub fn resolve_dispute(
        &mut self,
        ledger: &mut ValueLedger,
        caller: u64,
        job_id: String,
        resolution: DisputeResolution,
    ) -> (r: Result<(), EscrowError>)
        requires
            old(self).wf(),
            old(ledger).wf(),
            old(self).spec_admin() is Some,
        ensures
            final(self).wf(),
            final(ledger).wf(),
            r is Ok <==> resolve_ok(*old(self), *old(ledger), caller, job_id@, resolution),
            r is Err ==> r == Err::<(), EscrowError>(
                resolve_err(*old(self), *old(ledger), caller, job_id@, resolution),
            ) && *final(self) == *old(self) && *final(ledger) == *old(ledger),
            r is Ok ==> final(self).spec_escrow(job_id@) == (EscrowData {
                status: resolution_status(resolution),
                ..old(self).spec_escrow(job_id@)
            }),
            r is Ok ==> is_terminal(final(self).spec_escrow(job_id@).status),
            r is Ok ==> forall|qa: u64, qo: u64| #[trigger]
                final(ledger).bal(qa, qo) == old(ledger).bal(qa, qo) + disburse_delta(
                    old(self).spec_escrow(job_id@).token,
                    old(self).spec_address(),
                    old(self).spec_escrow(job_id@).employer,
                    resolution_employer_share(resolution, old(self).spec_escrow(job_id@).amount),
                    old(self).spec_escrow(job_id@).freelancer->0,
                    resolution_freelancer_share(resolution, old(self).spec_escrow(job_id@).amount),
                    qa,
                    qo,
                ),
            r is Ok ==> resolution_employer_share(resolution, old(self).spec_escrow(job_id@).amount)
                + resolution_freelancer_share(resolution, old(self).spec_escrow(job_id@).amount)
                == old(self).spec_escrow(job_id@).amount as int && resolution_employer_share(
                resolution,
                old(self).spec_escrow(job_id@).amount,
            ) >= 0 && resolution_freelancer_share(
                resolution,
                old(self).spec_escrow(job_id@).amount,
            ) >= 0,
            forall|id: Seq<char>| #[trigger] final(self).has_escrow(id) == old(self).has_escrow(id),
            forall|id: Seq<char>|
                old(self).has_escrow(id) && id != job_id@ ==> #[trigger] final(self).spec_escrow(id)
                    == old(self).spec_escrow(id),
            forall|p: u64| #[trigger] final(self).employer_jobs(p) == old(self).employer_jobs(p),
            forall|p: u64| #[trigger] final(self).freelancer_jobs(p) == old(self).freelancer_jobs(p),
            old(self).has_escrow(job_id@) && is_terminal(old(self).spec_escrow(job_id@).status)
                && caller == old(self).spec_admin()->0 ==> r == Err::<(), EscrowError>(
                EscrowError::InvalidStatus,
            ),
            forall|id: Seq<char>|
                old(self).has_escrow(id) ==> status_step_ok(
                    (#[trigger] old(self).spec_escrow(id)).status,
                    final(self).spec_escrow(id).status,
                ),
            forall|id: Seq<char>|
                old(self).has_escrow(id) && (#[trigger] old(self).spec_escrow(id)).freelancer
                    is Some ==> final(self).spec_escrow(id).freelancer == old(self).spec_escrow(
                    id,
                ).freelancer,
            final(self).spec_address() == old(self).spec_address(),
            final(self).spec_admin() == old(self).spec_admin(),
            forall|qa: u64| #[trigger] final(ledger).total(qa) == old(ledger).total(qa),
    {
        let admin = self.admin.unwrap();
        if caller != admin {
            return Err(EscrowError::Unauthorized);
        }
        let i = match self.lookup(&job_id) {
            Some(i) => i,
            None => {
                return Err(EscrowError::EscrowNotFound);
            },
        };
        proof {
            lemma_escrow_at(self.recs(), i as int);
        }
        match self.records[i].status {
            EscrowStatus::Disputed => {},
            _ => {
                return Err(EscrowError::InvalidStatus);
            },
        }
        let assigned = match self.records[i].freelancer {
            Some(f) => f,
            None => {
                // Unreachable while well-formed: a disputed record always
                // names a freelancer. Checked defensively all the same.
                return Err(EscrowError::FreelancerNotAssigned);
            },
        };
        let amount = self.records[i].amount;
        let token = self.records[i].token;
        let employer = self.records[i].employer;
        let employer_share: i128 = match resolution {
            DisputeResolution::FavorEmployer => amount,
            DisputeResolution::FavorFreelancer => 0,
            DisputeResolution::Split(s) => {
                if s < 0 || s > amount {
                    return Err(EscrowError::InvalidAmount);
                }
                s
            },
        };
        let freelancer_share: i128 = amount - employer_share;
        if !ledger.disburse(token, self.address, employer, employer_share, assigned, freelancer_share) {
            return Err(EscrowError::InsufficientBalance);
        }
        let new_status = match resolution {
            DisputeResolution::FavorEmployer => EscrowStatus::Cancelled,
            DisputeResolution::FavorFreelancer => EscrowStatus::Released,
            DisputeResolution::Split(_) => EscrowStatus::Released,
        };
        let updated = EscrowData { status: new_status, ..clone_escrow(&self.records[i]) };
        proof {
            lemma_escrow_update(self.recs(), i as int, updated);
        }
        self.set_record(i, updated);
        proof {
            let pre = *old(self);
            assert forall|id: Seq<char>| pre.has_escrow(id) implies (#[trigger] self.spec_escrow(
                id,
            )).employer == pre.spec_escrow(id).employer && self.spec_escrow(id).freelancer
                == pre.spec_escrow(id).freelancer by {}
            lemma_index_sound_preserved(pre, *self);
        }
        Ok(())
    }
}

/// A field-for-field copy of a record.
fn clone_escrow(e: &EscrowData) -> (r: EscrowData)
    ensures
        r == *e,
{
    EscrowData {
        job_id: e.job_id.clone(),
        employer: e.employer,
        freelancer: e.freelancer,
        amount: e.amount,
        token: e.token,
        status: e.status,
        created_at: e.created_at,
        deadline: e.deadline,
    }
}

/// An element-for-element copy of a job list.
fn clone_jobs(v: &Vec<String>) -> (r: Vec<String>)
    ensures
        r@ == v@,
{
    let mut r: Vec<String> = Vec::new();
    let mut i: usize = 0;
    while i < v.len()
        invariant
            i <= v.len(),
            r@ == v@.subrange(0, i as int),
        decreases v.len() - i,
    {
        r.push(v[i].clone());
        proof {
            assert(r@ =~= v@.subrange(0, i as int + 1));
        }
        i = i + 1;
    }
    proof {
        assert(v@.subrange(0, v.len() as int) =~= v@);
    }
    r
}

} // verus!

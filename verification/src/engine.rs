//! The bounded-concurrency dispatch engine.
//!
//! The engine holds the run's whole state — which candidates have been
//! admitted, which probes are still in flight, and which outcomes have
//! been recorded — and makes every decision: [`Engine::dispatch_next`] hands out
//! the next candidate together with its resolved request URL whenever a
//! concurrency slot is free, and [`Engine::complete`] records the probe
//! response that came back for an admitted candidate.  The caller owns
//! the actual probing: it performs one HTTP request per admission and
//! feeds the classified response back, in whatever order requests
//! happen to finish.

use vstd::prelude::*;
use crate::model::Candidate;
use crate::model::Config;
use crate::model::Outcome;
use crate::model::ProbeResponse;
use crate::model::SetupError;
use crate::model::Target;
use crate::model::candidate_ok;
use crate::model::normalized;
use crate::model::spec_classified;
use crate::resolve::resolve;
use crate::resolve::spec_resolve;

verus! {

/// One run of the discovery probe: candidates in, outcomes out, at most
/// `concurrency` probes in flight at any instant.
pub struct Engine {
    target: Target,
    candidates: Vec<Candidate>,
    limit: usize,
    next: usize,
    in_flight: Vec<usize>,
    completed: Vec<usize>,
    outcomes: Vec<Outcome>,
    responses: Ghost<Seq<ProbeResponse>>,
    cancelled: bool,
    config: Config,
}

impl Engine {
    /// The candidate texts, in submission order.
    pub closed spec fn candidates_view(&self) -> Seq<Seq<char>> {
        self.candidates@.map_values(|c: Candidate| c@)
    }

    /// The normalized base URL.
    pub closed spec fn target_view(&self) -> Seq<char> {
        self.target@
    }

    /// How many candidates this run will process at most.
    pub closed spec fn spec_limit(&self) -> usize {
        self.limit
    }

    /// How many candidates have been admitted so far.
    pub closed spec fn num_dispatched(&self) -> usize {
        self.next
    }

    /// The indices of the candidates admitted but not yet completed.
    pub closed spec fn in_flight_seq(&self) -> Seq<usize> {
        self.in_flight@
    }

    /// The indices of the completed candidates, in completion order.
    pub closed spec fn completed_seq(&self) -> Seq<usize> {
        self.completed@
    }

    /// The recorded outcomes, in completion order.
    pub closed spec fn outcomes_seq(&self) -> Seq<Outcome> {
        self.outcomes@
    }

    /// The probe responses handed back so far, in completion order.
    pub closed spec fn responses_seq(&self) -> Seq<ProbeResponse> {
        self.responses@
    }

    /// Whether cancellation has been requested.
    pub closed spec fn spec_cancelled(&self) -> bool {
        self.cancelled
    }

    /// The concurrency limit of this run.
    pub closed spec fn spec_concurrency(&self) -> usize {
        self.config.concurrency
    }

    /// The configured cap on processed candidates, when present.
    pub closed spec fn spec_max_candidates(&self) -> Option<usize> {
        self.config.max_candidates
    }

    /// The engine invariant: admission control and bookkeeping.
    pub open spec fn wf(&self) -> bool {
        &&& self.spec_concurrency() >= 1
        &&& normalized(self.target_view())
        &&& forall|i: int|
            0 <= i < self.candidates_view().len() ==> candidate_ok(#[trigger] self.candidates_view()[i])
        &&& self.spec_limit() <= self.candidates_view().len()
        &&& match self.spec_max_candidates() {
            Some(m) => self.spec_limit() == if m <= self.candidates_view().len() {
                m as int
            } else {
                self.candidates_view().len() as int
            },
            None => self.spec_limit() == self.candidates_view().len(),
        }
        &&& self.num_dispatched() <= self.spec_limit()
        &&& self.in_flight_seq().len() <= self.spec_concurrency()
        &&& self.in_flight_seq().no_duplicates()
        &&& forall|i: int|
            0 <= i < self.in_flight_seq().len() ==> #[trigger] self.in_flight_seq()[i]
                < self.num_dispatched()
        &&& self.completed_seq().no_duplicates()
        &&& forall|i: int|
            0 <= i < self.completed_seq().len() ==> #[trigger] self.completed_seq()[i]
                < self.num_dispatched()
        &&& self.in_flight_seq().disjoint(self.completed_seq())
        &&& self.in_flight_seq().len() + self.completed_seq().len() == self.num_dispatched()
        &&& self.outcomes_seq().len() == self.completed_seq().len()
        &&& self.responses_seq().len() == self.completed_seq().len()
        &&& forall|i: int|
            0 <= i < self.completed_seq().len() ==> spec_classified(
                self.candidates_view()[#[trigger] self.completed_seq()[i] as int],
                self.responses_seq()[i],
                self.outcomes_seq()[i],
            )
        &&& (self.spec_concurrency() == 1 ==> self.completed_seq() == Seq::new(
            self.completed_seq().len(),
            |i: int| i as usize,
        ))
    }

    /// A fresh candidate may be admitted: not cancelled, candidates
    /// remain under the cap, and a concurrency slot is free.
    pub open spec fn spec_can_dispatch(&self) -> bool {
        &&& !self.spec_cancelled()
        &&& self.num_dispatched() < self.spec_limit()
        &&& self.in_flight_seq().len() < self.spec_concurrency()
    }

    /// The run is over: nothing is in flight and nothing more will be
    /// admitted, either because the cap was reached or because the run
    /// was cancelled.
    pub open spec fn spec_is_done(&self) -> bool {
        &&& self.in_flight_seq().len() == 0
        &&& (self.spec_cancelled() || self.num_dispatched() == self.spec_limit())
    }

    /// Builds the engine for one run.  Fails exactly when the
    /// configuration is invalid, that is, when the concurrency limit is
    /// zero; a setup failure produces no outcomes at all.
    pub fn new(target: Target, candidates: Vec<Candidate>, config: Config) -> (r: Result<
        Engine,
        SetupError,
    >)
        requires
            target.wf(),
            forall|i: int| 0 <= i < candidates@.len() ==> (#[trigger] candidates@[i]).wf(),
        ensures
            r is Ok <==> config.concurrency >= 1,
            r matches Err(e) ==> e == SetupError::ZeroConcurrency,
            r matches Ok(e) ==> {
                &&& e.wf()
                &&& e.target_view() == target@
                &&& e.candidates_view() == candidates@.map_values(|c: Candidate| c@)
                &&& e.num_dispatched() == 0
                &&& e.in_flight_seq().len() == 0
                &&& e.outcomes_seq().len() == 0
                &&& !e.spec_cancelled()
                &&& e.spec_concurrency() == config.concurrency
                &&& e.spec_max_candidates() == config.max_candidates
            },
    {
        if config.concurrency == 0 {
            return Err(SetupError::ZeroConcurrency);
        }
        let n = candidates.len();
        let limit = match config.max_candidates {
            Some(m) => if m <= n {
                m
            } else {
                n
            },
            None => n,
        };
        let engine = Engine {
            target,
            candidates,
            limit,
            next: 0,
            in_flight: Vec::new(),
            completed: Vec::new(),
            outcomes: Vec::new(),
            responses: Ghost(Seq::empty()),
            cancelled: false,
            config,
        };
        proof {
            assert(engine.completed_seq() =~= Seq::new(0, |i: int| i as usize));
        }
        Ok(engine)
    }

    /// Whether the engine would admit another candidate right now.
    pub fn can_dispatch(&self) -> (b: bool)
        ensures
            b == self.spec_can_dispatch(),
    {
        !self.cancelled && self.next < self.limit && self.in_flight.len() < self.config.concurrency
    }

    /// Admits the next pending candidate when a slot is free, handing
    /// back its submission index and its resolved request URL; the index
    /// is what the caller later feeds to [`Engine::complete`].  When
    /// nothing can be admitted — the run is cancelled, the cap is
    /// reached, or every slot is taken — the engine is left unchanged.
    pub fn dispatch_next(&mut self) -> (r: Option<(usize, String)>)
        requires
            old(self).wf(),
        ensures
            final(self).wf(),
            r is Some <==> old(self).spec_can_dispatch(),
            !old(self).spec_can_dispatch() ==> *final(self) == *old(self),
            old(self).spec_can_dispatch() ==> (r matches Some(p) && {
                &&& p.0 == old(self).num_dispatched()
                &&& p.1@ == spec_resolve(
                    old(self).target_view(),
                    old(self).candidates_view()[p.0 as int],
                )
                &&& final(self).num_dispatched() == old(self).num_dispatched() + 1
                &&& final(self).in_flight_seq() == old(self).in_flight_seq().push(p.0)
                &&& final(self).completed_seq() == old(self).completed_seq()
                &&& final(self).outcomes_seq() == old(self).outcomes_seq()
                &&& final(self).responses_seq() == old(self).responses_seq()
                &&& final(self).candidates_view() == old(self).candidates_view()
                &&& final(self).target_view() == old(self).target_view()
                &&& final(self).spec_cancelled() == old(self).spec_cancelled()
                &&& final(self).spec_concurrency() == old(self).spec_concurrency()
                &&& final(self).spec_limit() == old(self).spec_limit()
                &&& final(self).spec_max_candidates() == old(self).spec_max_candidates()
            }),
    {
        if !self.can_dispatch() {
            return None;
        }
        let idx = self.next;
        let url = resolve(&self.target, &self.candidates[idx]);
        self.in_flight.push(idx);
        self.next = idx + 1;
        Some((idx, url))
    }

    /// Records the probe response for the admitted candidate at
    /// submission index `index`, freeing its slot and appending the
    /// classified outcome.  Returns whether the index was in flight; an
    /// unknown index leaves the engine unchanged.  A transport failure
    /// is recorded like any other response: it never aborts the run.
    pub fn complete(&mut self, index: usize, response: ProbeResponse) -> (accepted: bool)
        requires
            old(self).wf(),
        ensures
            final(self).wf(),
            accepted == old(self).in_flight_seq().contains(index),
            !accepted ==> *final(self) == *old(self),
            accepted ==> {
                &&& final(self).in_flight_seq() == old(self).in_flight_seq().remove_value(index)
                &&& final(self).in_flight_seq().len() == old(self).in_flight_seq().len() - 1
                &&& final(self).completed_seq() == old(self).completed_seq().push(index)
                &&& final(self).outcomes_seq().len() == old(self).outcomes_seq().len() + 1
                &&& final(self).outcomes_seq() == old(self).outcomes_seq().push(
                    final(self).outcomes_seq().last(),
                )
                &&& spec_classified(
                    old(self).candidates_view()[index as int],
                    response,
                    final(self).outcomes_seq().last(),
                )
                &&& final(self).responses_seq() == old(self).responses_seq().push(response)
                &&& final(self).num_dispatched() == old(self).num_dispatched()
                &&& final(self).candidates_view() == old(self).candidates_view()
                &&& final(self).target_view() == old(self).target_view()
                &&& final(self).spec_cancelled() == old(self).spec_cancelled()
                &&& final(self).spec_concurrency() == old(self).spec_concurrency()
                &&& final(self).spec_limit() == old(self).spec_limit()
                &&& final(self).spec_max_candidates() == old(self).spec_max_candidates()
            },
    {
        let n = self.in_flight.len();
        let mut pos: usize = 0;
        while pos < n && self.in_flight[pos] != index
            invariant
                n == self.in_flight@.len(),
                0 <= pos <= n,
                forall|j: int| 0 <= j < pos ==> self.in_flight@[j] != index,
            decreases n - pos,
        {
            pos += 1;
        }
        if pos == n {
            assert(!self.in_flight@.contains(index));
            return false;
        }
        assert(self.in_flight@.contains(index));
        proof {
            self.in_flight@.index_of_first_ensures(index);
            assert(self.in_flight@.index_of_first(index) == Some(pos as int));
            self.in_flight@.remove_ensures(pos as int);
        }
        let ghost prev = *self;
        let ghost resp = response;
        self.in_flight.remove(pos);
        let outcome = classify_at(&self.candidates, index, response);
        self.outcomes.push(outcome);
        self.completed.push(index);
        proof {
            self.responses@ = self.responses@.push(resp);
        }
        proof {
            lemma_remove_at_no_dup(prev.in_flight_seq(), pos as int);
            assert forall|i: int, j: int|
                0 <= i < self.in_flight_seq().len() && 0 <= j < self.completed_seq().len() implies
                self.in_flight_seq()[i] != self.completed_seq()[j] by {
                assert(prev.in_flight_seq().contains(self.in_flight_seq()[i]));
            }
            if self.config.concurrency == 1 {
                let k = prev.completed_seq().len() as int;
                assert(prev.completed_seq() == Seq::new(k as nat, |i: int| i as usize));
                if index < k {
                    assert(prev.completed_seq()[index as int] == index);
                    assert(prev.completed_seq().contains(index));
                    assert(prev.in_flight_seq()[pos as int] == index);
                    assert(false);
                }
                assert(index == k);
                assert(self.completed_seq() =~= Seq::new(
                    (k + 1) as nat,
                    |i: int| i as usize,
                ));
            }
        }
        true
    }

    /// Requests cancellation: no further candidate will be admitted,
    /// while responses for probes already in flight are still recorded.
    pub fn cancel(&mut self)
        requires
            old(self).wf(),
        ensures
            final(self).wf(),
            final(self).spec_cancelled(),
            final(self).num_dispatched() == old(self).num_dispatched(),
            final(self).in_flight_seq() == old(self).in_flight_seq(),
            final(self).completed_seq() == old(self).completed_seq(),
            final(self).outcomes_seq() == old(self).outcomes_seq(),
            final(self).responses_seq() == old(self).responses_seq(),
            final(self).candidates_view() == old(self).candidates_view(),
            final(self).target_view() == old(self).target_view(),
            final(self).spec_concurrency() == old(self).spec_concurrency(),
            final(self).spec_limit() == old(self).spec_limit(),
            final(self).spec_max_candidates() == old(self).spec_max_candidates(),
    {
        self.cancelled = true;
    }

    /// Whether the run is over: nothing in flight and nothing left to
    /// admit.
    pub fn is_done(&self) -> (b: bool)
        ensures
            b == self.spec_is_done(),
    {
        self.in_flight.len() == 0 && (self.cancelled || self.next == self.limit)
    }

    /// How many candidates have produced an outcome so far.
    pub fn processed(&self) -> (n: usize)
        ensures
            n == self.outcomes_seq().len(),
    {
        self.outcomes.len()
    }

    /// The outcomes recorded so far, in completion order.
    pub fn outcomes(&self) -> (v: &Vec<Outcome>)
        ensures
            v@ == self.outcomes_seq(),
    {
        &self.outcomes
    }

    /// Consumes the engine and hands the recorded outcomes over.
    pub fn into_outcomes(self) -> (v: Vec<Outcome>)
        ensures
            v@ == self.outcomes_seq(),
    {
        self.outcomes
    }

    /// The target this run probes.
    pub fn target(&self) -> (t: &Target)
        ensures
            t@ == self.target_view(),
    {
        &self.target
    }

    /// The configured User-Agent header value.
    pub fn user_agent(&self) -> &str {
        self.config.user_agent.as_str()
    }

    /// The configured per-request timeout in milliseconds.
    pub fn timeout_ms(&self) -> u64 {
        self.config.timeout_ms
    }

    /// The configured concurrency limit.
    pub fn concurrency(&self) -> (n: usize)
        ensures
            n == self.spec_concurrency(),
    {
        self.config.concurrency
    }
}

/// Classifies `response` for the candidate at `index`.
fn classify_at(candidates: &Vec<Candidate>, index: usize, response: ProbeResponse) -> (o: Outcome)
    requires
        index < candidates@.len(),
    ensures
        spec_classified(candidates@.map_values(|c: Candidate| c@)[index as int], response, o),
{
    crate::model::classify(&candidates[index], response)
}

/// A duplicate-free sequence of indices below `n` has at most `n`
/// elements.
proof fn lemma_bounded_no_dup_len(s: Seq<usize>, n: nat)
    requires
        s.no_duplicates(),
        forall|k: int| 0 <= k < s.len() ==> (#[trigger] s[k]) < n,
        n <= usize::MAX,
    ensures
        s.len() <= n,
    decreases n,
{
    if s.len() > 0 {
        assert(s[0] < n);
        let v: usize = (n - 1) as usize;
        if s.contains(v) {
            let i = choose|i: int| 0 <= i < s.len() && s[i] == v;
            lemma_remove_at_no_dup(s, i);
            let r = s.remove(i);
            assert forall|k: int| 0 <= k < r.len() implies (#[trigger] r[k]) < n - 1 by {
                assert(r.contains(r[k]));
                assert(r[k] != v);
            }
            lemma_bounded_no_dup_len(r, (n - 1) as nat);
        } else {
            assert forall|k: int| 0 <= k < s.len() implies (#[trigger] s[k]) < n - 1 by {
                assert(s.contains(s[k]));
            }
            lemma_bounded_no_dup_len(s, (n - 1) as nat);
        }
    }
}

/// A duplicate-free sequence of indices below `n` that misses some
/// index below `n` has fewer than `n` elements.
proof fn lemma_bounded_no_dup_missing(s: Seq<usize>, n: nat, missing: usize)
    requires
        s.no_duplicates(),
        forall|k: int| 0 <= k < s.len() ==> (#[trigger] s[k]) < n,
        n <= usize::MAX,
        missing < n,
        !s.contains(missing),
    ensures
        s.len() < n,
    decreases n,
{
    let v: usize = (n - 1) as usize;
    if missing == v {
        assert forall|k: int| 0 <= k < s.len() implies (#[trigger] s[k]) < n - 1 by {
            assert(s.contains(s[k]));
        }
        lemma_bounded_no_dup_len(s, (n - 1) as nat);
    } else if s.contains(v) {
        let i = choose|i: int| 0 <= i < s.len() && s[i] == v;
        lemma_remove_at_no_dup(s, i);
        let r = s.remove(i);
        assert forall|k: int| 0 <= k < r.len() implies (#[trigger] r[k]) < n - 1 by {
            assert(r.contains(r[k]));
            assert(r[k] != v);
        }
        lemma_bounded_no_dup_missing(r, (n - 1) as nat, missing);
    } else {
        assert forall|k: int| 0 <= k < s.len() implies (#[trigger] s[k]) < n - 1 by {
            assert(s.contains(s[k]));
        }
        lemma_bounded_no_dup_missing(s, (n - 1) as nat, missing);
    }
}

/// The candidate texts the recorded outcomes carry, in completion
/// order.
pub open spec fn outcome_texts(e: Engine) -> Seq<Seq<char>> {
    e.outcomes_seq().map_values(|o: Outcome| o.candidate_view())
}

/// Some recorded outcome carries the candidate text `c`.
pub open spec fn output_has_candidate(e: Engine, c: Seq<char>) -> bool {
    exists|i: int|
        0 <= i < e.outcomes_seq().len() && (#[trigger] e.outcomes_seq()[i]).candidate_view() == c
}

/// Some input candidate has the text `c`.
pub open spec fn input_has_candidate(e: Engine, c: Seq<char>) -> bool {
    exists|j: int|
        0 <= j < e.candidates_view().len() && #[trigger] e.candidates_view()[j] == c
}

/// A run that processed every candidate and drained its slots emits
/// exactly one outcome per input candidate: the completion order is a
/// permutation of the submission indices, each outcome carries the text
/// of its candidate, and the set of candidate texts in the output equals
/// the set of candidate texts in the input.
pub proof fn lemma_full_run_round_trip(e: Engine)
    requires
        e.wf(),
        e.spec_is_done(),
        !e.spec_cancelled(),
        e.spec_limit() == e.candidates_view().len(),
    ensures
        e.outcomes_seq().len() == e.candidates_view().len(),
        e.completed_seq().no_duplicates(),
        forall|j: int|
            0 <= j < e.candidates_view().len() ==> e.completed_seq().contains(#[trigger] (j
                as usize)),
        forall|i: int|
            0 <= i < e.outcomes_seq().len() ==> #[trigger] e.outcomes_seq()[i].candidate_view()
                == e.candidates_view()[e.completed_seq()[i] as int],
        forall|j: int|
            0 <= j < e.candidates_view().len() ==> output_has_candidate(
                e,
                #[trigger] e.candidates_view()[j],
            ),
        forall|i: int|
            0 <= i < e.outcomes_seq().len() ==> input_has_candidate(
                e,
                (#[trigger] e.outcomes_seq()[i]).candidate_view(),
            ),
        outcome_texts(e).to_set() == e.candidates_view().to_set(),
{
    let n = e.candidates_view().len();
    assert(e.completed_seq().len() == n);
    assert forall|j: int| 0 <= j < n implies e.completed_seq().contains(#[trigger] (j as usize)) by {
        if !e.completed_seq().contains(j as usize) {
            lemma_bounded_no_dup_missing(e.completed_seq(), n, j as usize);
        }
    }
    assert forall|j: int|
        0 <= j < n implies output_has_candidate(e, #[trigger] e.candidates_view()[j]) by {
        let i = choose|i: int|
            0 <= i < e.completed_seq().len() && e.completed_seq()[i] == j as usize;
        assert(e.outcomes_seq()[i].candidate_view() == e.candidates_view()[j]);
    }
    assert forall|i: int|
        0 <= i < e.outcomes_seq().len() implies input_has_candidate(
        e,
        (#[trigger] e.outcomes_seq()[i]).candidate_view(),
    ) by {
        let j = e.completed_seq()[i] as int;
        assert(0 <= j < n);
        assert(e.candidates_view()[j] == e.outcomes_seq()[i].candidate_view());
    }
    assert(outcome_texts(e).to_set() =~= e.candidates_view().to_set()) by {
        assert forall|x: Seq<char>| outcome_texts(e).to_set().contains(x) implies e.candidates_view().to_set().contains(x) by {
            let i = choose|i: int|
                0 <= i < outcome_texts(e).len() && outcome_texts(e)[i] == x;
            assert(input_has_candidate(e, (#[trigger] e.outcomes_seq()[i]).candidate_view()));
            let j = choose|j: int|
                0 <= j < e.candidates_view().len() && #[trigger] e.candidates_view()[j] == x;
            assert(e.candidates_view().contains(x));
        }
        assert forall|x: Seq<char>| e.candidates_view().to_set().contains(x) implies outcome_texts(e).to_set().contains(x) by {
            let j = choose|j: int|
                0 <= j < e.candidates_view().len() && e.candidates_view()[j] == x;
            assert(output_has_candidate(e, #[trigger] e.candidates_view()[j]));
            let i = choose|i: int|
                0 <= i < e.outcomes_seq().len() && (#[trigger] e.outcomes_seq()[i]).candidate_view() == x;
            assert(outcome_texts(e)[i] == x);
            assert(outcome_texts(e).contains(x));
        }
    }
}

/// With a concurrency limit of one the engine degenerates to sequential
/// dispatch: at every point of the run the outcomes stand in exact
/// submission order.
pub proof fn lemma_sequential_order(e: Engine)
    requires
        e.wf(),
        e.spec_concurrency() == 1,
    ensures
        forall|i: int|
            0 <= i < e.outcomes_seq().len() ==> (#[trigger] e.outcomes_seq()[i]).candidate_view()
                == e.candidates_view()[i],
{
    assert forall|i: int|
        0 <= i < e.outcomes_seq().len() implies (#[trigger] e.outcomes_seq()[i]).candidate_view()
        == e.candidates_view()[i] by {
        assert(e.completed_seq()[i] == i as usize);
    }
}

/// Failure isolation, first half: each recorded outcome is the
/// classification of the response handed back for its own candidate, so
/// a transport failure for one candidate cannot touch any other
/// candidate's outcome.  In particular every probe that reached an HTTP
/// response — whatever its status class — stands as a success, however
/// many other probes failed.
pub proof fn lemma_failure_isolation(e: Engine)
    requires
        e.wf(),
    ensures
        forall|i: int|
            0 <= i < e.outcomes_seq().len() ==> match e.responses_seq()[i] {
                ProbeResponse::Status(s) => (#[trigger] e.outcomes_seq()[i]).is_success()
                    && e.outcomes_seq()[i].spec_status() == s,
                ProbeResponse::Transport(k, m) => !e.outcomes_seq()[i].is_success()
                    && e.outcomes_seq()[i].spec_kind() == k && e.outcomes_seq()[i].message_view()
                    == m@,
            },
{
    assert forall|i: int|
        0 <= i < e.outcomes_seq().len() implies match e.responses_seq()[i] {
        ProbeResponse::Status(s) => (#[trigger] e.outcomes_seq()[i]).is_success()
            && e.outcomes_seq()[i].spec_status() == s,
        ProbeResponse::Transport(k, m) => !e.outcomes_seq()[i].is_success()
            && e.outcomes_seq()[i].spec_kind() == k && e.outcomes_seq()[i].message_view() == m@,
    } by {
        assert(spec_classified(
            e.candidates_view()[e.completed_seq()[i] as int],
            e.responses_seq()[i],
            e.outcomes_seq()[i],
        ));
    }
}

/// Failure isolation, second half: what the engine will still do never
/// depends on what the recorded outcomes contain.  Two runs that agree
/// on their dispatch bookkeeping agree on whether another candidate can
/// be dispatched and on whether they are over, whatever outcomes and
/// responses each has recorded, so no outcome — a failure included —
/// can stop or redirect the rest of the run.
pub proof fn lemma_progress_ignores_outcomes(e1: Engine, e2: Engine)
    requires
        e1.spec_cancelled() == e2.spec_cancelled(),
        e1.num_dispatched() == e2.num_dispatched(),
        e1.in_flight_seq() == e2.in_flight_seq(),
        e1.spec_limit() == e2.spec_limit(),
        e1.spec_concurrency() == e2.spec_concurrency(),
    ensures
        e1.spec_can_dispatch() == e2.spec_can_dispatch(),
        e1.spec_is_done() == e2.spec_is_done(),
{
}

/// An empty candidate sequence makes the run over immediately, with no
/// outcome at all: the engine never blocks on an empty input.
pub proof fn lemma_empty_input_immediate(e: Engine)
    requires
        e.wf(),
        e.candidates_view().len() == 0,
    ensures
        e.spec_is_done(),
        e.outcomes_seq().len() == 0,
{
}

/// After cancellation no further candidate is ever dispatched, the run
/// emits at most as many outcomes as candidates were dispatched before
/// the cancellation, and it is over as soon as the probes still in
/// flight have been drained.
pub proof fn lemma_cancellation_bound(e: Engine)
    requires
        e.wf(),
        e.spec_cancelled(),
    ensures
        !e.spec_can_dispatch(),
        e.outcomes_seq().len() <= e.num_dispatched(),
        e.spec_is_done() <==> e.in_flight_seq().len() == 0,
{
}

/// Removing one position from a duplicate-free sequence keeps it
/// duplicate-free, drops exactly the removed element, and keeps every
/// other element.
proof fn lemma_remove_at_no_dup(s: Seq<usize>, i: int)
    requires
        s.no_duplicates(),
        0 <= i < s.len(),
    ensures
        s.remove(i).len() == s.len() - 1,
        s.remove(i).no_duplicates(),
        !s.remove(i).contains(s[i]),
        forall|x: usize| #[trigger] s.remove(i).contains(x) ==> s.contains(x),
        forall|x: usize| x != s[i] && s.contains(x) ==> #[trigger] s.remove(i).contains(x),
{
    s.remove_ensures(i);
    let r = s.remove(i);
    assert forall|k1: int, k2: int|
        0 <= k1 < r.len() && 0 <= k2 < r.len() && k1 != k2 implies r[k1] != r[k2] by {
        let m1 = if k1 < i { k1 } else { k1 + 1 };
        let m2 = if k2 < i { k2 } else { k2 + 1 };
        assert(r[k1] == s[m1]);
        assert(r[k2] == s[m2]);
    }
    assert forall|k: int| 0 <= k < r.len() implies r[k] != s[i] by {
        let m = if k < i { k } else { k + 1 };
        assert(r[k] == s[m]);
    }
    assert forall|x: usize| x != s[i] && s.contains(x) implies #[trigger] r.contains(x) by {
        let m = choose|m: int| 0 <= m < s.len() && s[m] == x;
        if m < i {
            assert(r[m] == x);
        } else {
            assert(r[m - 1] == x);
        }
    }
    assert forall|x: usize| #[trigger] r.contains(x) implies s.contains(x) by {
        let k = choose|k: int| 0 <= k < r.len() && r[k] == x;
        let m = if k < i { k } else { k + 1 };
        assert(s[m] == x);
    }
}

} // verus!

//! One round of queries: the request goes to every model of the comparison
//! set, and the outcomes are ranked in the order in which they arrive.
//!
//! The round itself sends nothing. It says which requests are to be sent, takes
//! each outcome when it has arrived, and keeps the batch of ranked responses.

use vstd::prelude::*;
use vstd::set_lib::{lemma_int_range, lemma_len_subset, lemma_subset_equality, set_int_range};
use crate::config::Config;
use crate::error::VsError;
use crate::model::{
    bound_to, inputs_view, outcome_view, prepare_input_with_model, responses_view, Failure, Input,
    InputView, ModelView, VsResponse, VsResponseView,
};

verus! {

/// The requests of a round: for each model of the comparison set, in its order,
/// the request `input` bound to that model.
pub open spec fn requests_for(input: InputView, models: Seq<ModelView>) -> Seq<InputView> {
    models.map_values(|model: ModelView| bound_to(input, model))
}

/// Whether the ranks of a batch count its responses from 1, without a gap and
/// without a repeat.
pub open spec fn well_ranked(batch: Seq<VsResponseView>) -> bool {
    forall|k: int| 0 <= k < batch.len() ==> (#[trigger] batch[k]).rank == k + 1
}

/// The response that the outcome of a request becomes when it arrives as the
/// `rank`-th of its round.
pub open spec fn labelled(
    rank: nat,
    request: InputView,
    outcome: Result<String, Failure>,
) -> VsResponseView {
    VsResponseView { rank, model_id: request.model.id, outcome: outcome_view(outcome) }
}

/// Numbers below `n` without a repeat are at most `n` many, and `n` many only if
/// every number below `n` is among them.
pub proof fn lemma_distinct_below(order: Seq<int>, n: int)
    requires
        0 <= n,
        order.no_duplicates(),
        forall|k: int| 0 <= k < order.len() ==> 0 <= #[trigger] order[k] < n,
    ensures
        order.len() <= n,
        order.len() == n <==> (forall|i: int| 0 <= i < n ==> order.contains(i)),
{
    let seen = order.to_set();
    let all = set_int_range(0, n);
    order.unique_seq_to_set();
    lemma_int_range(0, n);
    assert(seen.subset_of(all));
    lemma_len_subset(seen, all);
    if order.len() == n {
        lemma_subset_equality(seen, all);
        assert forall|i: int| 0 <= i < n implies order.contains(i) by {
            assert(all.contains(i));
        }
    }
    if forall|i: int| 0 <= i < n ==> order.contains(i) {
        assert(seen =~= all);
    }
}

/// A round in progress.
#[derive(Debug)]
pub struct Round {
    requests: Vec<Input>,
    arrived: Vec<usize>,
    responses: Vec<VsResponse>,
}

impl Round {
    /// The requests of the round, one for each model, in the order of the
    /// comparison set.
    pub closed spec fn requests_view(&self) -> Seq<InputView> {
        inputs_view(self.requests@)
    }

    /// The places, in the comparison set, of the models whose outcome has
    /// arrived, in the order of arrival.
    pub closed spec fn arrivals(&self) -> Seq<int> {
        self.arrived@.map_values(|index: usize| index as int)
    }

    /// The batch: the responses so far, in the order of arrival.
    pub closed spec fn batch(&self) -> Seq<VsResponseView> {
        responses_view(self.responses@)
    }

    /// Whether the outcome of the model at `index` is still awaited.
    pub open spec fn pending(&self, index: int) -> bool {
        0 <= index < self.requests_view().len() && !self.arrivals().contains(index)
    }

    /// Whether the outcome of every model has arrived.
    pub open spec fn complete(&self) -> bool {
        forall|index: int| 0 <= index < self.requests_view().len() ==> !self.pending(index)
    }

    /// What holds of every round: each arrival is the place of a model, no model
    /// has arrived twice, and the batch holds one response for each arrival, in
    /// that order, ranked from 1 and labelled with the name of its model.
    pub closed spec fn wf(&self) -> bool {
        &&& self.arrivals().no_duplicates()
        &&& self.batch().len() == self.arrivals().len()
        &&& forall|k: int|
            0 <= k < self.arrivals().len() ==> 0 <= #[trigger] self.arrivals()[k]
                < self.requests_view().len()
        &&& forall|k: int|
            0 <= k < self.batch().len() ==> {
                &&& (#[trigger] self.batch()[k]).rank == k + 1
                &&& self.batch()[k].model_id == self.requests_view()[self.arrivals()[k]].model.id
            }
    }

    /// Starts a round for `input` on the comparison set of `config`.
    ///
    /// An empty request starts nothing, whether or not the mode is active. A
    /// request without an active comparison set is refused. Otherwise the round
    /// holds one request for each model of the comparison set, and its batch is
    /// empty.
    pub fn start(config: &Config, input: &Input) -> (started: Result<Option<Round>, VsError>)
        ensures
            input.is_empty() ==> started == Ok::<Option<Round>, VsError>(None),
            !input.is_empty() && config@.vs_mode is None ==> started == Err::<
                Option<Round>,
                VsError,
            >(VsError::ModeInactive),
            !input.is_empty() && config@.vs_mode is Some ==> {
                &&& started matches Ok(Some(round))
                &&& round.wf()
                &&& round.requests_view() == requests_for(input@, config@.vs_mode->0)
                &&& round.batch() == Seq::<VsResponseView>::empty()
                &&& round.arrivals() == Seq::<int>::empty()
            },
    {
        if input.is_empty() {
            return Ok(None);
        }
        match &config.vs_mode {
            None => Err(VsError::ModeInactive),
            Some(mode) => {
                let ghost models = config@.vs_mode->0;
                let mut requests: Vec<Input> = Vec::new();
                let mut at: usize = 0;
                while at < mode.models.len()
                    invariant
                        at <= mode.models.len(),
                        models == mode@,
                        inputs_view(requests@) == requests_for(input@, models.take(at as int)),
                    decreases mode.models.len() - at,
                {
                    let request: Input = prepare_input_with_model(input, &mode.models[at]);
                    proof {
                        assert(models[at as int] == mode.models@[at as int]@);
                        assert(inputs_view(requests@.push(request)) =~= inputs_view(requests@).push(
                            request@,
                        ));
                        assert(requests_for(input@, models.take(at + 1)) =~= requests_for(
                            input@,
                            models.take(at as int),
                        ).push(bound_to(input@, models[at as int])));
                    }
                    requests.push(request);
                    at = at + 1;
                }
                proof {
                    assert(models.take(at as int) =~= models);
                }
                let round: Round = Round { requests, arrived: Vec::new(), responses: Vec::new() };
                proof {
                    assert(round.arrivals() =~= Seq::<int>::empty());
                    assert(round.batch() =~= Seq::<VsResponseView>::empty());
                }
                Ok(Some(round))
            },
        }
    }

    /// Tells whether the outcome of the model at `index` is still awaited.
    pub fn is_pending(&self, index: usize) -> (pending: bool)
        ensures
            pending == self.pending(index as int),
    {
        if index >= self.requests.len() {
            return false;
        }
        let mut at: usize = 0;
        while at < self.arrived.len()
            invariant
                at <= self.arrived.len(),
                forall|k: int| 0 <= k < at ==> self.arrived@[k] != index,
            decreases self.arrived.len() - at,
        {
            if self.arrived[at] == index {
                assert(self.arrivals()[at as int] == index);
                return false;
            }
            at = at + 1;
        }
        assert forall|k: int| 0 <= k < self.arrivals().len() implies self.arrivals()[k]
            != index by {
            assert(self.arrived@[k] != index);
        }
        true
    }

    /// Takes the outcome of the model at `index`, which has just arrived.
    ///
    /// Where that outcome was still awaited, it joins the batch with the next
    /// rank, which is returned. The outcome of a model that is not awaited, or of
    /// no model at all, is dropped: the round stays as it was, and `None` is
    /// returned.
    pub fn record(&mut self, index: usize, outcome: Result<String, Failure>) -> (rank: Option<
        usize,
    >)
        requires
            old(self).wf(),
        ensures
            final(self).wf(),
            final(self).requests_view() == old(self).requests_view(),
            old(self).pending(index as int) ==> {
                &&& rank == Some((old(self).batch().len() + 1) as usize)
                &&& final(self).arrivals() == old(self).arrivals().push(index as int)
                &&& final(self).batch() == old(self).batch().push(
                    labelled(
                        old(self).batch().len() + 1,
                        old(self).requests_view()[index as int],
                        outcome,
                    ),
                )
            },
            !old(self).pending(index as int) ==> {
                &&& rank is None
                &&& final(self).arrivals() == old(self).arrivals()
                &&& final(self).batch() == old(self).batch()
            },
    {
        if !self.is_pending(index) {
            return None;
        }
        let total: usize = self.requests.len();
        proof {
            lemma_distinct_below(self.arrivals(), self.requests_view().len() as int);
            assert(self.arrivals().len() < self.requests_view().len());
            assert(self.batch().len() == self.responses@.len());
            assert(self.requests_view().len() == total);
            assert(self.responses@.len() < total);
        }
        let rank: usize = self.responses.len() + 1;
        let response: VsResponse = VsResponse {
            rank,
            model_id: self.requests[index].model.id.clone(),
            outcome,
        };
        proof {
            assert(responses_view(self.responses@.push(response)) =~= responses_view(
                self.responses@,
            ).push(response@));
            assert(self.arrived@.push(index).map_values(|index: usize| index as int)
                =~= self.arrivals().push(index as int));
            assert(self.requests_view()[index as int] == self.requests@[index as int]@);
        }
        self.arrived.push(index);
        self.responses.push(response);
        proof {
            assert(self.arrivals().no_duplicates());
        }
        Some(rank)
    }

    /// Tells whether the outcome of every model has arrived.
    pub fn is_complete(&self) -> (complete: bool)
        requires
            self.wf(),
        ensures
            complete == self.complete(),
            complete == (self.batch().len() == self.requests_view().len()),
    {
        proof {
            let n = self.requests_view().len() as int;
            lemma_distinct_below(self.arrivals(), n);
            assert(self.batch().len() == self.responses@.len());
            assert(n == self.requests@.len());
            if self.arrivals().len() == n {
                assert forall|index: int| 0 <= index < n implies !self.pending(index) by {
                    assert(self.arrivals().contains(index));
                }
            }
            if self.complete() {
                assert forall|index: int| 0 <= index < n implies self.arrivals().contains(
                    index,
                ) by {
                    assert(!self.pending(index));
                }
            }
        }
        self.responses.len() == self.requests.len()
    }

    /// The requests of the round, one for each model, in the order of the
    /// comparison set.
    pub fn requests(&self) -> (requests: &Vec<Input>)
        ensures
            inputs_view(requests@) == self.requests_view(),
    {
        &self.requests
    }

    /// The batch: the responses so far, in the order of arrival.
    pub fn responses(&self) -> (responses: &Vec<VsResponse>)
        ensures
            responses_view(responses@) == self.batch(),
    {
        &self.responses
    }

    /// Ends the round and hands out its batch.
    pub fn into_responses(self) -> (responses: Vec<VsResponse>)
        ensures
            responses_view(responses@) == self.batch(),
    {
        self.responses
    }
}

/// The ranks of a round count its arrivals: the response that arrived as the
/// `k`-th has the rank `k`, so the ranks run from 1 to the length of the batch
/// without a gap and without a repeat, and each response bears the name of the
/// model whose outcome it holds.
pub proof fn law_ranks_count_arrivals(round: Round)
    requires
        round.wf(),
    ensures
        well_ranked(round.batch()),
        round.batch().len() == round.arrivals().len(),
        round.batch().len() <= usize::MAX,
        round.arrivals().no_duplicates(),
        forall|k: int|
            0 <= k < round.batch().len() ==> {
                &&& 0 <= #[trigger] round.arrivals()[k] < round.requests_view().len()
                &&& round.batch()[k].model_id == round.requests_view()[round.arrivals()[k]].model.id
            },
{
    assert(round.batch().len() == round.responses.len());
}

/// The batch of a round never holds more responses than the round has models,
/// and it holds exactly as many once the outcome of every model has arrived,
/// whatever the outcomes are.
pub proof fn law_batch_fills_with_the_round(round: Round)
    requires
        round.wf(),
    ensures
        round.batch().len() <= round.requests_view().len(),
        round.complete() <==> round.batch().len() == round.requests_view().len(),
{
    let n = round.requests_view().len() as int;
    lemma_distinct_below(round.arrivals(), n);
    if round.arrivals().len() == n {
        assert forall|index: int| 0 <= index < n implies !round.pending(index) by {
            assert(round.arrivals().contains(index));
        }
    }
    if round.complete() {
        assert forall|index: int| 0 <= index < n implies round.arrivals().contains(index) by {
            assert(!round.pending(index));
        }
    }
}

/// A round has one request for each model of the comparison set, each bound to
/// its own model and holding the message of the request that was asked.
pub proof fn law_one_request_for_each_model(input: InputView, models: Seq<ModelView>)
    ensures
        requests_for(input, models).len() == models.len(),
        forall|i: int|
            0 <= i < models.len() ==> {
                &&& (#[trigger] requests_for(input, models)[i]).model == models[i]
                &&& requests_for(input, models)[i].text == input.text
            },
{
}

} // verus!

//! The values that travel through a round of queries: the models that are
//! asked, the request they are asked, and what each of them answers.

use vstd::prelude::*;

verus! {

/// A chat model: the name it is known by, and the client through which it is
/// reached.
#[derive(Debug, PartialEq, Eq)]
pub struct Model {
    pub id: String,
    pub client: String,
}

/// What a [`Model`] holds.
pub struct ModelView {
    pub id: Seq<char>,
    pub client: Seq<char>,
}

impl View for Model {
    type V = ModelView;

    open spec fn view(&self) -> ModelView {
        ModelView { id: self.id@, client: self.client@ }
    }
}

impl Clone for Model {
    fn clone(&self) -> (copy: Self)
        ensures
            copy == *self,
    {
        Model { id: self.id.clone(), client: self.client.clone() }
    }
}

/// What each of the models holds, in the same order.
pub open spec fn models_view(models: Seq<Model>) -> Seq<ModelView> {
    models.map_values(|model: Model| model@)
}

/// A request: the operator's message, and the model that is to answer it.
#[derive(Debug, PartialEq, Eq)]
pub struct Input {
    pub text: String,
    pub model: Model,
}

/// What an [`Input`] holds.
pub struct InputView {
    pub text: Seq<char>,
    pub model: ModelView,
}

impl View for Input {
    type V = InputView;

    open spec fn view(&self) -> InputView {
        InputView { text: self.text@, model: self.model@ }
    }
}

impl Clone for Input {
    fn clone(&self) -> (copy: Self)
        ensures
            copy == *self,
    {
        Input { text: self.text.clone(), model: self.model.clone() }
    }
}

impl Input {
    /// Whether the request holds no message.
    pub open spec fn is_empty_spec(&self) -> bool {
        self.text@.len() == 0
    }

    /// Tells whether the request holds no message.
    #[verifier::when_used_as_spec(is_empty_spec)]
    pub fn is_empty(&self) -> (empty: bool)
        ensures
            empty == self.is_empty_spec(),
    {
        self.text.as_str().is_empty()
    }
}

/// What each of the requests holds, in the same order.
pub open spec fn inputs_view(inputs: Seq<Input>) -> Seq<InputView> {
    inputs.map_values(|input: Input| input@)
}

/// Why a model gave no answer: the message of the failure, then the messages
/// of what caused it, the immediate cause first.
#[derive(Debug, PartialEq, Eq)]
pub struct Failure {
    pub message: String,
    pub causes: Vec<String>,
}

/// What a [`Failure`] holds.
pub struct FailureView {
    pub message: Seq<char>,
    pub causes: Seq<Seq<char>>,
}

impl View for Failure {
    type V = FailureView;

    open spec fn view(&self) -> FailureView {
        FailureView { message: self.message@, causes: crate::text::texts(self.causes@) }
    }
}

impl Clone for Failure {
    fn clone(&self) -> (copy: Self)
        ensures
            copy@ == self@,
    {
        let mut causes: Vec<String> = Vec::new();
        let mut at: usize = 0;
        while at < self.causes.len()
            invariant
                at <= self.causes.len(),
                causes@ == self.causes@.take(at as int),
            decreases self.causes.len() - at,
        {
            causes.push(self.causes[at].clone());
            assert(causes@ =~= self.causes@.take(at + 1));
            at = at + 1;
        }
        assert(causes@ =~= self.causes@);
        Failure { message: self.message.clone(), causes }
    }
}

/// What a model's outcome holds: the text of its answer, or its failure.
pub open spec fn outcome_view(outcome: Result<String, Failure>) -> Result<Seq<char>, FailureView> {
    match outcome {
        Ok(text) => Ok(text@),
        Err(failure) => Err(failure@),
    }
}

/// One model's outcome, labelled with the model's name and with its rank: the
/// place, counted from 1, at which it arrived.
#[derive(Debug, PartialEq, Eq)]
pub struct VsResponse {
    pub rank: usize,
    pub model_id: String,
    pub outcome: Result<String, Failure>,
}

/// What a [`VsResponse`] holds.
pub struct VsResponseView {
    pub rank: nat,
    pub model_id: Seq<char>,
    pub outcome: Result<Seq<char>, FailureView>,
}

impl View for VsResponse {
    type V = VsResponseView;

    open spec fn view(&self) -> VsResponseView {
        VsResponseView {
            rank: self.rank as nat,
            model_id: self.model_id@,
            outcome: outcome_view(self.outcome),
        }
    }
}

impl Clone for VsResponse {
    fn clone(&self) -> (copy: Self)
        ensures
            copy@ == self@,
    {
        let outcome: Result<String, Failure> = match &self.outcome {
            Ok(text) => Ok(text.clone()),
            Err(failure) => Err(failure.clone()),
        };
        VsResponse { rank: self.rank, model_id: self.model_id.clone(), outcome }
    }
}

/// What each of the responses holds, in the same order.
pub open spec fn responses_view(responses: Seq<VsResponse>) -> Seq<VsResponseView> {
    responses.map_values(|response: VsResponse| response@)
}

/// The request `input` as `model` is to receive it: the same message, bound to
/// `model`.
pub open spec fn bound_to(input: InputView, model: ModelView) -> InputView {
    InputView { text: input.text, model }
}

/// Makes the request that `model` is to receive: a copy of `input` that is bound
/// to `model`. `input` itself is left as it is.
pub fn prepare_input_with_model(input: &Input, model: &Model) -> (prepared: Input)
    ensures
        prepared@ == bound_to(input@, model@),
{
    let mut model_input: Input = input.clone();
    model_input.model = model.clone();
    model_input
}

} // verus!

//! The state that the mode lives in: the catalog of models, the comparison set,
//! the session and the conversation record.

use vstd::prelude::*;
use crate::error::VsError;
use crate::model::{models_view, Input, InputView, Model, ModelView};
use crate::text::{decimal, decimal_string, identifiers, split_identifiers, texts};

verus! {

/// A comparison set: the models that are asked side by side, in the order in
/// which they were named.
#[derive(Debug, PartialEq, Eq)]
pub struct VsMode {
    pub models: Vec<Model>,
}

impl View for VsMode {
    type V = Seq<ModelView>;

    open spec fn view(&self) -> Seq<ModelView> {
        models_view(self.models@)
    }
}

impl Clone for VsMode {
    fn clone(&self) -> (copy: Self)
        ensures
            copy@ == self@,
    {
        let mut models: Vec<Model> = Vec::new();
        let mut at: usize = 0;
        while at < self.models.len()
            invariant
                at <= self.models.len(),
                models@ == self.models@.take(at as int),
            decreases self.models.len() - at,
        {
            models.push(self.models[at].clone());
            assert(models@ =~= self.models@.take(at + 1));
            at = at + 1;
        }
        assert(models@ =~= self.models@);
        VsMode { models }
    }
}

impl VsMode {
    /// A comparison set holds at least two models.
    pub open spec fn wf(&self) -> bool {
        self@.len() >= 2
    }
}

/// One turn of the conversation: a request and the answer that was kept for it.
#[derive(Debug, PartialEq, Eq)]
pub struct Turn {
    pub request: Input,
    pub response: String,
}

/// What a [`Turn`] holds.
pub struct TurnView {
    pub request: InputView,
    pub response: Seq<char>,
}

impl View for Turn {
    type V = TurnView;

    open spec fn view(&self) -> TurnView {
        TurnView { request: self.request@, response: self.response@ }
    }
}

/// What each of the turns holds, in the same order.
pub open spec fn turns_view(turns: Seq<Turn>) -> Seq<TurnView> {
    turns.map_values(|turn: Turn| turn@)
}

/// The running session: the model that answers in it.
#[derive(Debug, PartialEq, Eq)]
pub struct Session {
    pub model: Model,
}

impl View for Session {
    type V = ModelView;

    open spec fn view(&self) -> ModelView {
        self.model@
    }
}

/// The configuration that the mode works on.
#[derive(Debug, PartialEq, Eq)]
pub struct Config {
    /// The chat models that a name can stand for.
    pub catalog: Vec<Model>,
    /// The model that answers when no other is bound.
    pub model: Model,
    /// The comparison set, while the mode is active.
    pub vs_mode: Option<VsMode>,
    /// The running session, if there is one.
    pub session: Option<Session>,
    /// The conversation record: the turns that were kept, oldest first.
    pub turns: Vec<Turn>,
}

/// What a [`Config`] holds.
pub struct ConfigView {
    pub catalog: Seq<ModelView>,
    pub model: ModelView,
    pub vs_mode: Option<Seq<ModelView>>,
    pub session: Option<ModelView>,
    pub turns: Seq<TurnView>,
}

impl ConfigView {
    /// The comparison set, where there is one, holds at least two models.
    pub open spec fn wf(self) -> bool {
        self.vs_mode matches Some(models) ==> models.len() >= 2
    }
}

impl View for Config {
    type V = ConfigView;

    open spec fn view(&self) -> ConfigView {
        ConfigView {
            catalog: models_view(self.catalog@),
            model: self.model@,
            vs_mode: match self.vs_mode {
                Some(mode) => Some(mode@),
                None => None,
            },
            session: match self.session {
                Some(session) => Some(session@),
                None => None,
            },
            turns: turns_view(self.turns@),
        }
    }
}

/// The configuration after the mode is left: without a comparison set, and
/// otherwise as it was.
pub open spec fn left(config: ConfigView) -> ConfigView {
    ConfigView { vs_mode: None, ..config }
}

/// The first model of `catalog` with the name `id`.
pub open spec fn resolve(catalog: Seq<ModelView>, id: Seq<char>) -> Option<ModelView>
    decreases catalog.len(),
{
    if catalog.len() == 0 {
        None
    } else if catalog.first().id == id {
        Some(catalog.first())
    } else {
        resolve(catalog.drop_first(), id)
    }
}

/// The models that `names` stand for, in the same order.
pub open spec fn resolved(catalog: Seq<ModelView>, names: Seq<Seq<char>>) -> Seq<ModelView> {
    names.map_values(|name: Seq<char>| resolve(catalog, name)->0)
}

/// What entering the mode with `names` leads to: the error that refuses it, or
/// the configuration with the new comparison set.
pub open spec fn entering(config: ConfigView, names: Seq<Seq<char>>) -> Result<ConfigView, VsError> {
    if names.len() < 2 {
        Err(VsError::InvalidArity)
    } else if exists|k: int| 0 <= k < names.len() && resolve(config.catalog, #[trigger] names[k])
        is None {
        Err(VsError::UnknownResponder)
    } else {
        Ok(ConfigView { vs_mode: Some(resolved(config.catalog, names)), ..config })
    }
}

/// What is kept of a round: the answer that was selected, and the model that
/// the session is bound to from then on.
#[derive(Debug, PartialEq, Eq)]
pub struct Commitment {
    pub response: String,
    pub model: Model,
}

/// What a [`Commitment`] holds.
pub struct CommitmentView {
    pub response: Seq<char>,
    pub model: ModelView,
}

impl View for Commitment {
    type V = CommitmentView;

    open spec fn view(&self) -> CommitmentView {
        CommitmentView { response: self.response@, model: self.model@ }
    }
}

/// The configuration after `request` and the selected answer have been kept:
/// the conversation record is one turn longer, and the session, if there is
/// one, is bound to the model of the commitment.
pub open spec fn committed(
    config: ConfigView,
    request: InputView,
    commitment: CommitmentView,
) -> ConfigView {
    ConfigView {
        turns: config.turns.push(TurnView { request, response: commitment.response }),
        session: match config.session {
            Some(_) => Some(commitment.model),
            None => None,
        },
        ..config
    }
}

impl Config {
    /// Keeps `request` and the selected answer: appends them to the conversation
    /// record as one turn, then binds the session, if there is one, to the model
    /// of the commitment.
    pub fn commit(&mut self, request: &Input, commitment: &Commitment)
        ensures
            final(self)@ == committed(old(self)@, request@, commitment@),
            old(self).wf() ==> final(self).wf(),
    {
        let turn: Turn = Turn { request: request.clone(), response: commitment.response.clone() };
        proof {
            assert(turns_view(self.turns@.push(turn)) =~= turns_view(self.turns@).push(turn@));
        }
        self.turns.push(turn);
        if self.session.is_some() {
            self.session = Some(Session { model: commitment.model.clone() });
        }
    }

    /// The comparison set, where there is one, holds at least two models.
    pub open spec fn wf(&self) -> bool {
        self@.wf()
    }

    /// Looks `id` up in the catalog.
    pub fn retrieve_model(&self, id: &str) -> (found: Option<Model>)
        ensures
            match found {
                Some(model) => resolve(self@.catalog, id@) == Some(model@),
                None => resolve(self@.catalog, id@) is None,
            },
    {
        let ghost catalog = self@.catalog;
        let wanted: String = String::from_str(id);
        let mut at: usize = 0;
        proof {
            assert(catalog.subrange(0, catalog.len() as int) =~= catalog);
        }
        while at < self.catalog.len()
            invariant
                at <= self.catalog.len(),
                catalog == models_view(self.catalog@),
                wanted@ == id@,
                resolve(catalog, id@) == resolve(
                    catalog.subrange(at as int, catalog.len() as int),
                    id@,
                ),
            decreases self.catalog.len() - at,
        {
            let ghost rest = catalog.subrange(at as int, catalog.len() as int);
            proof {
                assert(rest.first() == self.catalog@[at as int]@);
                assert(rest.drop_first() =~= catalog.subrange(at + 1, catalog.len() as int));
            }
            if self.catalog[at].id == wanted {
                return Some(self.catalog[at].clone());
            }
            at = at + 1;
        }
        None
    }

    /// Enters the mode with the models that `identifiers` name, in that order.
    ///
    /// Fewer than two names are refused, and so is a name that stands for no
    /// model of the catalog; the configuration then stays as it was. Otherwise the
    /// models become the comparison set, in place of any earlier one, and their
    /// number is returned.
    pub fn enter_vs_mode(&mut self, identifiers: &Vec<String>) -> (entered: Result<usize, VsError>)
        ensures
            match entering(old(self)@, texts(identifiers@)) {
                Ok(after) => entered == Ok::<usize, VsError>(identifiers.len()) && final(self)@
                    == after,
                Err(error) => entered == Err::<usize, VsError>(error) && final(self)@ == old(
                    self,
                )@,
            },
            entered is Ok ==> final(self).wf(),
            old(self).wf() ==> final(self).wf(),
    {
        let ghost names = texts(identifiers@);
        let ghost catalog = self@.catalog;
        if identifiers.len() < 2 {
            return Err(VsError::InvalidArity);
        }
        let mut models: Vec<Model> = Vec::new();
        let mut at: usize = 0;
        proof {
            assert(models_view(models@) =~= resolved(catalog, names.take(0)));
        }
        while at < identifiers.len()
            invariant
                2 <= identifiers.len(),
                at <= identifiers.len(),
                names == texts(identifiers@),
                catalog == self@.catalog,
                *self == *old(self),
                forall|k: int| 0 <= k < at ==> resolve(catalog, #[trigger] names[k]) is Some,
                models_view(models@) == resolved(catalog, names.take(at as int)),
            decreases identifiers.len() - at,
        {
            proof {
                assert(names[at as int] == identifiers@[at as int]@);
            }
            match self.retrieve_model(identifiers[at].as_str()) {
                None => {
                    assert(0 <= at < names.len() && resolve(catalog, names[at as int]) is None);
                    return Err(VsError::UnknownResponder);
                },
                Some(model) => {
                    proof {
                        assert(models_view(models@.push(model)) =~= models_view(models@).push(
                            model@,
                        ));
                        assert(resolved(catalog, names.take(at + 1)) =~= resolved(
                            catalog,
                            names.take(at as int),
                        ).push(resolve(catalog, names[at as int])->0));
                    }
                    models.push(model);
                },
            }
            at = at + 1;
        }
        proof {
            assert(names.take(at as int) =~= names);
        }
        self.vs_mode = Some(VsMode { models });
        Ok(identifiers.len())
    }

    /// Leaves the mode: the comparison set is cleared, whether or not there was
    /// one, and nothing else changes.
    pub fn exit_vs_mode(&mut self) -> (done: Result<(), VsError>)
        ensures
            done is Ok,
            final(self)@ == left(old(self)@),
            final(self).wf(),
    {
        self.vs_mode = None;
        Ok(())
    }
}

/// Enters the mode with the models that the comma-separated list `models_str`
/// names: see [`Config::enter_vs_mode`]. The white space around a name does not
/// count.
pub fn vs_mode_init(config: &mut Config, models_str: &str) -> (entered: Result<usize, VsError>)
    ensures
        match entering(old(config)@, identifiers(models_str@)) {
            Ok(after) => entered == Ok::<usize, VsError>(identifiers(models_str@).len() as usize)
                && final(config)@ == after,
            Err(error) => entered == Err::<usize, VsError>(error) && final(config)@ == old(
                config,
            )@,
        },
        entered is Ok ==> final(config).wf(),
        old(config).wf() ==> final(config).wf(),
{
    let models_list: Vec<String> = split_identifiers(models_str);
    assert(texts(models_list@).len() == models_list.len());
    config.enter_vs_mode(&models_list)
}

/// Entering the mode goes by the number of names: fewer than two are refused
/// for their number, and two or more that all stand for a model are accepted,
/// with a comparison set that holds one model for each name and leaves the rest
/// of the configuration alone.
pub proof fn law_entering_goes_by_arity(config: ConfigView, names: Seq<Seq<char>>)
    ensures
        names.len() < 2 ==> entering(config, names) == Err::<ConfigView, VsError>(
            VsError::InvalidArity,
        ),
        names.len() >= 2 && (forall|k: int|
            0 <= k < names.len() ==> resolve(config.catalog, #[trigger] names[k]) is Some) ==> {
            &&& entering(config, names) matches Ok(after)
            &&& after.vs_mode matches Some(models)
            &&& models.len() == names.len()
            &&& forall|k: int|
                0 <= k < names.len() ==> Some(#[trigger] models[k]) == resolve(
                    config.catalog,
                    names[k],
                )
            &&& after.wf()
            &&& after == (ConfigView { vs_mode: after.vs_mode, ..config })
        },
{
}

/// Leaving the mode twice is the same as leaving it once.
pub proof fn law_leaving_is_idempotent(config: ConfigView)
    ensures
        left(left(config)) == left(config),
        left(config).vs_mode is None,
        left(config).wf(),
{
}

/// What the operator is told once the mode is entered with `count` models.
pub open spec fn init_report_spec(count: nat) -> Seq<char> {
    "VS mode initialized with "@ + decimal(count) + " models"@
}

/// Writes what the operator is told once the mode is entered with `count`
/// models.
pub fn init_report(count: usize) -> (report: String)
    ensures
        report@ == init_report_spec(count as nat),
{
    let mut report: String = String::from_str("VS mode initialized with ");
    report.append(decimal_string(count).as_str());
    report.append(" models");
    report
}

} // verus!

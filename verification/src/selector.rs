//! Selecting one answer of a round: the menu of the answers that can be
//! selected, the operator's choice, and what is kept of it.

use vstd::prelude::*;
use crate::config::{committed, Commitment, CommitmentView, Config, ConfigView, TurnView};
use crate::error::VsError;
use crate::model::{
    responses_view, Input, InputView, Model, ModelView, VsResponse, VsResponseView,
};
use crate::round::{law_ranks_count_arrivals, requests_for, well_ranked, Round};
use crate::text::{
    ascii_lower, bounded_number, chars_of, decimal, decimal_string, eq_ignoring_ascii_case,
    equals_ignoring_ascii_case, lemma_decimal_reads_back, parse_number, read_number, trim_bounds,
    trimmed,
};

verus! {

/// Whether a response holds an answer.
pub open spec fn succeeded() -> spec_fn(VsResponseView) -> bool {
    |response: VsResponseView| response.outcome is Ok
}

/// The responses that can be selected: those that hold an answer, in the order
/// of the batch.
pub open spec fn selectable(batch: Seq<VsResponseView>) -> Seq<VsResponseView> {
    batch.filter(succeeded())
}

/// A line of the menu: the rank and the model of a response that can be
/// selected.
#[derive(Debug, PartialEq, Eq)]
pub struct MenuEntry {
    pub rank: usize,
    pub model_id: String,
}

/// What a [`MenuEntry`] holds.
pub struct MenuEntryView {
    pub rank: nat,
    pub model_id: Seq<char>,
}

impl View for MenuEntry {
    type V = MenuEntryView;

    open spec fn view(&self) -> MenuEntryView {
        MenuEntryView { rank: self.rank as nat, model_id: self.model_id@ }
    }
}

/// What each of the entries holds, in the same order.
pub open spec fn entries_view(entries: Seq<MenuEntry>) -> Seq<MenuEntryView> {
    entries.map_values(|entry: MenuEntry| entry@)
}

/// The menu entry of a response.
pub open spec fn entry_of(response: VsResponseView) -> MenuEntryView {
    MenuEntryView { rank: response.rank, model_id: response.model_id }
}

/// The menu of a batch: one entry for each response that can be selected, in
/// the order of the batch. The operator chooses among them by position, the first
/// entry being number 1.
pub open spec fn menu(batch: Seq<VsResponseView>) -> Seq<MenuEntryView> {
    selectable(batch).map_values(|response: VsResponseView| entry_of(response))
}

/// Lists the entries of the menu of `results`.
pub fn display_order(results: &Vec<VsResponse>) -> (entries: Vec<MenuEntry>)
    ensures
        entries_view(entries@) == menu(responses_view(results@)),
{
    let ghost batch = responses_view(results@);
    let mut entries: Vec<MenuEntry> = Vec::new();
    let mut at: usize = 0;
    proof {
        reveal(Seq::filter);
        assert(batch.take(0) =~= Seq::<VsResponseView>::empty());
        assert(entries_view(entries@) =~= menu(batch.take(0)));
    }
    while at < results.len()
        invariant
            at <= results.len(),
            batch == responses_view(results@),
            entries_view(entries@) == menu(batch.take(at as int)),
        decreases results.len() - at,
    {
        let ghost before = batch.take(at as int);
        proof {
            assert(batch.take(at + 1) =~= before.push(results@[at as int]@));
            before.lemma_filter_push(results@[at as int]@, succeeded());
        }
        if results[at].outcome.is_ok() {
            let entry: MenuEntry = MenuEntry {
                rank: results[at].rank,
                model_id: results[at].model_id.clone(),
            };
            proof {
                assert(entries_view(entries@.push(entry)) =~= entries_view(entries@).push(entry@));
                assert(menu(batch.take(at + 1)) =~= menu(before).push(entry@));
            }
            entries.push(entry);
        }
        at = at + 1;
    }
    proof {
        assert(batch.take(at as int) =~= batch);
    }
    entries
}

/// The menu that is shown after a round, or `NoSelectableResults` when every
/// model failed.
pub fn selection_menu(results: &Vec<VsResponse>) -> (shown: Result<Vec<MenuEntry>, VsError>)
    ensures
        match shown {
            Ok(entries) => entries.len() > 0 && entries_view(entries@) == menu(
                responses_view(results@),
            ),
            Err(error) => error == VsError::NoSelectableResults && menu(
                responses_view(results@),
            ).len() == 0,
        },
{
    let entries: Vec<MenuEntry> = display_order(results);
    assert(entries_view(entries@).len() == entries.len());
    if entries.len() == 0 {
        Err(VsError::NoSelectableResults)
    } else {
        Ok(entries)
    }
}

/// The line of the menu that shows `entry`.
pub open spec fn menu_line_spec(entry: MenuEntryView) -> Seq<char> {
    "  ["@ + decimal(entry.rank) + "] "@ + entry.model_id
}

/// Writes the line of the menu that shows `entry`.
pub fn menu_line(entry: &MenuEntry) -> (line: String)
    ensures
        line@ == menu_line_spec(entry@),
{
    let mut line: String = String::from_str("  [");
    line.append(decimal_string(entry.rank).as_str());
    line.append("] ");
    line.append(entry.model_id.as_str());
    line
}

/// What the operator is asked when the menu holds `count` entries.
pub open spec fn selection_prompt_spec(count: nat) -> Seq<char> {
    "Select response [1-"@ + decimal(count) + "] (or 'exit' to quit): "@
}

/// Writes what the operator is asked when the menu holds `count` entries.
pub fn selection_prompt(count: usize) -> (prompt: String)
    ensures
        prompt@ == selection_prompt_spec(count as nat),
{
    let mut prompt: String = String::from_str("Select response [1-");
    prompt.append(decimal_string(count).as_str());
    prompt.append("] (or 'exit' to quit): ");
    prompt
}

/// What the operator chose.
#[derive(Clone, Copy, Debug, PartialEq, Eq, Structural)]
pub enum Choice {
    /// To leave without selecting anything.
    Quit,
    /// The entry of the menu with this number, the first being number 1.
    Pick(usize),
}

/// Whether `word` asks to leave: it is `exit` or `quit`, in any case.
pub open spec fn asks_to_quit(word: Seq<char>) -> bool {
    eq_ignoring_ascii_case(word, "exit"@) || eq_ignoring_ascii_case(word, "quit"@)
}

/// What a line of input chooses from a menu of `max` entries. The white space
/// around the input does not count. `exit` and `quit` leave; a number from 1 to
/// `max` picks an entry; anything else is no selection.
pub open spec fn selection_of(input: Seq<char>, max: nat) -> Result<Choice, VsError> {
    let word = trimmed(input);
    if asks_to_quit(word) {
        Ok(Choice::Quit)
    } else {
        match bounded_number(word, max) {
            Some(number) => if number >= 1 {
                Ok(Choice::Pick(number as usize))
            } else {
                Err(VsError::InvalidSelection)
            },
            None => Err(VsError::InvalidSelection),
        }
    }
}

/// Reads the operator's choice from a line of input, for a menu of `max_value`
/// entries.
pub fn parse_selection(input: &str, max_value: usize) -> (choice: Result<Choice, VsError>)
    ensures
        choice == selection_of(input@, max_value as nat),
{
    let chars: Vec<char> = chars_of(input);
    let bounds: (usize, usize) = trim_bounds(&chars, 0, chars.len());
    proof {
        assert(chars@.subrange(0, chars.len() as int) =~= chars@);
    }
    if equals_ignoring_ascii_case(&chars, bounds.0, bounds.1, "exit") || equals_ignoring_ascii_case(
        &chars,
        bounds.0,
        bounds.1,
        "quit",
    ) {
        return Ok(Choice::Quit);
    }
    match read_number(&chars, bounds.0, bounds.1, max_value) {
        Some(selection) => if selection < 1 {
            Err(VsError::InvalidSelection)
        } else {
            Ok(Choice::Pick(selection))
        },
        None => Err(VsError::InvalidSelection),
    }
}

/// The place in `batch` of the first response with the rank `rank`; the length of
/// `batch` when no response has that rank.
pub open spec fn first_ranked(batch: Seq<VsResponseView>, rank: nat) -> int
    decreases batch.len(),
{
    if batch.len() == 0 {
        0
    } else if batch.first().rank == rank {
        0
    } else {
        1 + first_ranked(batch.drop_first(), rank)
    }
}

/// `first_ranked` finds the first response with the rank, where there is one.
pub proof fn lemma_first_ranked(batch: Seq<VsResponseView>, rank: nat)
    ensures
        0 <= first_ranked(batch, rank) <= batch.len(),
        first_ranked(batch, rank) < batch.len() ==> batch[first_ranked(batch, rank)].rank == rank,
        forall|i: int| 0 <= i < first_ranked(batch, rank) ==> (#[trigger] batch[i]).rank != rank,
    decreases batch.len(),
{
    if batch.len() > 0 && batch.first().rank != rank {
        let rest = batch.drop_first();
        lemma_first_ranked(rest, rank);
        assert forall|i: int| 0 <= i < first_ranked(batch, rank) implies (#[trigger] batch[i]).rank
            != rank by {
            if i > 0 {
                assert(batch[i] == rest[i - 1]);
            }
        }
    }
}

/// Finds the first of `results` with the rank `rank`.
fn find_rank(results: &Vec<VsResponse>, rank: usize) -> (position: usize)
    ensures
        position == first_ranked(responses_view(results@), rank as nat),
{
    let ghost batch = responses_view(results@);
    let mut at: usize = 0;
    proof {
        assert(batch.subrange(0, batch.len() as int) =~= batch);
    }
    while at < results.len()
        invariant
            at <= results.len(),
            batch == responses_view(results@),
            first_ranked(batch, rank as nat) == at + first_ranked(
                batch.subrange(at as int, batch.len() as int),
                rank as nat,
            ),
        decreases results.len() - at,
    {
        let ghost rest = batch.subrange(at as int, batch.len() as int);
        proof {
            assert(rest.first() == results@[at as int]@);
            assert(rest.drop_first() =~= batch.subrange(at + 1, batch.len() as int));
        }
        if results[at].rank == rank {
            return at;
        }
        at = at + 1;
    }
    at
}

/// What a selection leads to.
#[derive(Debug, PartialEq, Eq)]
pub enum Decision {
    /// The operator asked to leave: nothing is kept.
    Quit,
    /// An answer was selected and kept.
    Commit(Commitment),
    /// The response that the choice led to holds no answer: nothing is kept.
    Nothing,
}

/// What a [`Decision`] holds.
pub enum DecisionView {
    Quit,
    Commit(CommitmentView),
    Nothing,
}

impl View for Decision {
    type V = DecisionView;

    open spec fn view(&self) -> DecisionView {
        match self {
            Decision::Quit => DecisionView::Quit,
            Decision::Commit(commitment) => DecisionView::Commit(commitment@),
            Decision::Nothing => DecisionView::Nothing,
        }
    }
}

/// What the outcome of a selection holds.
pub open spec fn decided_view(decided: Result<Decision, VsError>) -> Result<DecisionView, VsError> {
    match decided {
        Ok(decision) => Ok(decision@),
        Err(error) => Err(error),
    }
}

/// What is kept when the response at `position` of the batch is selected and
/// the comparison set is `models`: the answer of that response, and the model at
/// the same position of the comparison set, or `fallback` where the comparison
/// set has no such position.
pub open spec fn commitment_at(
    models: Seq<ModelView>,
    fallback: ModelView,
    batch: Seq<VsResponseView>,
    position: int,
) -> CommitmentView {
    CommitmentView {
        response: batch[position].outcome->Ok_0,
        model: if position < models.len() {
            models[position]
        } else {
            fallback
        },
    }
}

/// What the line `input` decides after a round that ended with `batch`.
///
/// The choice is made among the responses that can be selected, by position. The
/// rank of the chosen entry is then looked up in the whole batch, and the place
/// where it is first found there is the place from which the answer and the
/// model are taken.
pub open spec fn decision_of(config: ConfigView, batch: Seq<VsResponseView>, input: Seq<char>)
    -> Result<DecisionView, VsError> {
    let entries = selectable(batch);
    if entries.len() == 0 {
        Err(VsError::NoSelectableResults)
    } else {
        match selection_of(input, entries.len()) {
            Err(error) => Err(error),
            Ok(Choice::Quit) => Ok(DecisionView::Quit),
            Ok(Choice::Pick(number)) => {
                let position = first_ranked(batch, entries[number - 1].rank);
                if batch[position].outcome is Err {
                    Ok(DecisionView::Nothing)
                } else {
                    match config.vs_mode {
                        None => Err(VsError::ModeInactive),
                        Some(models) => Ok(
                            DecisionView::Commit(
                                commitment_at(models, config.model, batch, position),
                            ),
                        ),
                    }
                }
            },
        }
    }
}

/// The configuration after a selection: with the commitment kept, where the
/// selection led to one, and as it was otherwise.
pub open spec fn after_decision(
    config: ConfigView,
    request: InputView,
    decided: Result<DecisionView, VsError>,
) -> ConfigView {
    match decided {
        Ok(DecisionView::Commit(commitment)) => committed(config, request, commitment),
        _ => config,
    }
}

/// Every response that can be selected stands in the batch.
pub proof fn lemma_selectable_in_batch(batch: Seq<VsResponseView>, k: int)
    requires
        0 <= k < selectable(batch).len(),
    ensures
        batch.contains(selectable(batch)[k]),
        selectable(batch)[k].outcome is Ok,
{
    let chosen = selectable(batch)[k];
    assert(selectable(batch).contains(chosen));
    batch.lemma_filter_contains_rev(succeeded(), chosen);
    batch.lemma_filter_pred(succeeded(), k);
}

/// Carries out the operator's selection after a round: reads the choice from
/// `selection`, looks up the chosen response in `results`, and keeps its answer
/// together with `user_input` in `config`.
pub fn select_response_without_display(
    config: &mut Config,
    user_input: &Input,
    results: &Vec<VsResponse>,
    selection: &str,
) -> (decided: Result<Decision, VsError>)
    ensures
        decided_view(decided) == decision_of(old(config)@, responses_view(results@), selection@),
        final(config)@ == after_decision(old(config)@, user_input@, decided_view(decided)),
        old(config).wf() ==> final(config).wf(),
{
    let ghost batch = responses_view(results@);
    let entries: Vec<MenuEntry> = display_order(results);
    assert(entries_view(entries@).len() == entries.len());
    if entries.len() == 0 {
        return Err(VsError::NoSelectableResults);
    }
    match parse_selection(selection, entries.len()) {
        Err(error) => Err(error),
        Ok(Choice::Quit) => Ok(Decision::Quit),
        Ok(Choice::Pick(number)) => {
            let rank: usize = entries[number - 1].rank;
            let position: usize = find_rank(results, rank);
            proof {
                assert(entries_view(entries@)[number - 1] == entries@[number - 1]@);
                assert(rank as nat == selectable(batch)[number - 1].rank);
                lemma_selectable_in_batch(batch, number - 1);
                let found = choose|i: int|
                    0 <= i < batch.len() && batch[i] == selectable(batch)[number - 1];
                lemma_first_ranked(batch, rank as nat);
                assert(batch[found].rank == rank);
                assert(position <= found);
                assert(batch[position as int] == results@[position as int]@);
            }
            match &results[position].outcome {
                Err(_) => Ok(Decision::Nothing),
                Ok(text) => {
                    let model: Model = match &config.vs_mode {
                        None => {
                            return Err(VsError::ModeInactive);
                        },
                        Some(mode) => {
                            if position < mode.models.len() {
                                mode.models[position].clone()
                            } else {
                                config.model.clone()
                            }
                        },
                    };
                    let commitment: Commitment = Commitment { response: text.clone(), model };
                    config.commit(user_input, &commitment);
                    Ok(Decision::Commit(commitment))
                },
            }
        },
    }
}

/// Asking to leave keeps nothing: where there is something to select and the
/// input is `exit` or `quit`, in any case and with any white space around it,
/// the decision is to quit, and the configuration stays as it was.
pub proof fn law_quitting_keeps_nothing(
    config: ConfigView,
    request: InputView,
    batch: Seq<VsResponseView>,
    input: Seq<char>,
)
    requires
        selectable(batch).len() > 0,
        asks_to_quit(trimmed(input)),
    ensures
        decision_of(config, batch, input) == Ok::<DecisionView, VsError>(DecisionView::Quit),
        after_decision(config, request, decision_of(config, batch, input)) == config,
{
}

/// An input that is neither a request to leave nor a number of the menu is no
/// selection: it is refused as such, and the configuration stays as it was.
pub proof fn law_invalid_selection_keeps_nothing(
    config: ConfigView,
    request: InputView,
    batch: Seq<VsResponseView>,
    input: Seq<char>,
)
    requires
        selectable(batch).len() > 0,
        !asks_to_quit(trimmed(input)),
        !(parse_number(trimmed(input)) matches Some(number) && 1 <= number <= selectable(
            batch,
        ).len()),
    ensures
        decision_of(config, batch, input) == Err::<DecisionView, VsError>(
            VsError::InvalidSelection,
        ),
        after_decision(config, request, decision_of(config, batch, input)) == config,
{
}

/// Nothing can be selected from a batch in which every model failed, whatever
/// the input is, and the configuration stays as it was.
pub proof fn law_nothing_to_select(
    config: ConfigView,
    request: InputView,
    batch: Seq<VsResponseView>,
    input: Seq<char>,
)
    requires
        forall|i: int| 0 <= i < batch.len() ==> (#[trigger] batch[i]).outcome is Err,
    ensures
        selectable(batch).len() == 0,
        decision_of(config, batch, input) == Err::<DecisionView, VsError>(
            VsError::NoSelectableResults,
        ),
        after_decision(config, request, decision_of(config, batch, input)) == config,
{
    if selectable(batch).len() > 0 {
        lemma_selectable_in_batch(batch, 0);
    }
}

/// A choice is a number of the menu: it picks an entry that is there.
pub proof fn law_choice_is_in_the_menu(input: Seq<char>, max: nat, number: usize)
    requires
        max <= usize::MAX,
        selection_of(input, max) == Ok::<Choice, VsError>(Choice::Pick(number)),
    ensures
        1 <= number <= max,
        parse_number(trimmed(input)) == Some(number as nat),
{
}

/// Every number of the menu picks its entry: written in decimal, a number from
/// 1 to the length of the menu is the choice of the entry with that number.
pub proof fn law_every_number_picks(max: nat, number: usize)
    requires
        1 <= number <= max,
    ensures
        selection_of(decimal(number as nat), max) == Ok::<Choice, VsError>(Choice::Pick(number)),
{
    let word = decimal(number as nat);
    lemma_decimal_reads_back(number as nat);
    reveal_strlit("exit");
    reveal_strlit("quit");
    if eq_ignoring_ascii_case(word, "exit"@) {
        assert(ascii_lower(word[0]) == ascii_lower("exit"@[0]));
    }
    if eq_ignoring_ascii_case(word, "quit"@) {
        assert(ascii_lower(word[0]) == ascii_lower("quit"@[0]));
    }
}

/// The menu follows the order of arrival: in a batch whose ranks count its
/// responses from 1, the ranks that the menu shows grow from each entry to the
/// next, and none exceeds the length of the batch.
pub proof fn law_menu_follows_arrival(batch: Seq<VsResponseView>)
    requires
        well_ranked(batch),
    ensures
        forall|k: int|
            0 <= k < menu(batch).len() ==> 1 <= (#[trigger] menu(batch)[k]).rank <= batch.len(),
        forall|j: int, k: int|
            0 <= j < k < menu(batch).len() ==> (#[trigger] menu(batch)[j]).rank < (#[trigger] menu(
                batch,
            )[k]).rank,
    decreases batch.len(),
{
    if batch.len() == 0 {
        batch.lemma_filter_len(succeeded());
    } else {
        let before = batch.drop_last();
        assert(well_ranked(before)) by {
            assert forall|k: int| 0 <= k < before.len() implies (#[trigger] before[k]).rank == k
                + 1 by {
                assert(before[k] == batch[k]);
            }
        }
        law_menu_follows_arrival(before);
        assert(batch =~= before.push(batch.last()));
        before.lemma_filter_push(batch.last(), succeeded());
        if batch.last().outcome is Ok {
            assert(menu(batch) =~= menu(before).push(entry_of(batch.last())));
        } else {
            assert(menu(batch) =~= menu(before));
        }
    }
}

/// In a batch whose ranks count its responses from 1, the rank of a response
/// that can be selected leads back to that response, at the place before its
/// rank.
pub proof fn lemma_rank_leads_back(batch: Seq<VsResponseView>, k: int)
    requires
        well_ranked(batch),
        0 <= k < selectable(batch).len(),
    ensures
        first_ranked(batch, selectable(batch)[k].rank) == selectable(batch)[k].rank - 1,
        0 <= first_ranked(batch, selectable(batch)[k].rank) < batch.len(),
        batch[first_ranked(batch, selectable(batch)[k].rank)] == selectable(batch)[k],
{
    let chosen = selectable(batch)[k];
    lemma_selectable_in_batch(batch, k);
    let found = choose|i: int| 0 <= i < batch.len() && batch[i] == chosen;
    lemma_first_ranked(batch, chosen.rank);
    let first = first_ranked(batch, chosen.rank);
    assert(batch[found].rank == chosen.rank);
    assert(first <= found);
    assert(batch[first].rank == first + 1);
}

/// A selection keeps exactly one turn: after a round whose ranks count its
/// responses from 1, and with the mode active, picking the `number`-th entry of
/// the menu keeps the answer of that entry. The conversation record grows by the
/// one turn that holds the request and that answer; the session, if there is
/// one, is bound to the model that stands in the comparison set at the place
/// before the rank of the entry, or to the default model where the comparison
/// set has no such place; nothing else changes.
pub proof fn law_selection_keeps_one_turn(
    config: ConfigView,
    request: InputView,
    batch: Seq<VsResponseView>,
    input: Seq<char>,
    number: usize,
)
    requires
        batch.len() <= usize::MAX,
        well_ranked(batch),
        config.vs_mode is Some,
        selection_of(input, selectable(batch).len()) == Ok::<Choice, VsError>(
            Choice::Pick(number),
        ),
    ensures
        1 <= number <= selectable(batch).len(),
        selectable(batch)[number - 1].outcome is Ok,
        ({
            let chosen = selectable(batch)[number - 1];
            let kept = CommitmentView {
                response: chosen.outcome->Ok_0,
                model: if chosen.rank - 1 < config.vs_mode->0.len() {
                    config.vs_mode->0[chosen.rank - 1]
                } else {
                    config.model
                },
            };
            let after = after_decision(config, request, decision_of(config, batch, input));
            &&& decision_of(config, batch, input) == Ok::<DecisionView, VsError>(
                DecisionView::Commit(kept),
            )
            &&& after.turns == config.turns.push(
                TurnView { request, response: chosen.outcome->Ok_0 },
            )
            &&& after.session == match config.session {
                Some(_) => Some(kept.model),
                None => None,
            }
            &&& after == (ConfigView { turns: after.turns, session: after.session, ..config })
        }),
{
    batch.lemma_filter_len(succeeded());
    lemma_selectable_in_batch(batch, number - 1);
    lemma_rank_leads_back(batch, number - 1);
}

/// The session is bound by place, not by name. After a round on the comparison
/// set of the configuration, a selection keeps the answer of the chosen response
/// and binds the model that stands in the comparison set at the place at which
/// that response arrived, whereas the answer came from the model at the place
/// that the round noted for that arrival. The model that is bound is therefore
/// the one that answered where the response arrived at its own place, and may be
/// another one where it did not.
pub proof fn law_the_session_is_bound_by_place(
    round: Round,
    config: ConfigView,
    request: InputView,
    input: Seq<char>,
    number: usize,
)
    requires
        round.wf(),
        config.vs_mode is Some,
        round.requests_view() == requests_for(request, config.vs_mode->0),
        selection_of(input, selectable(round.batch()).len()) == Ok::<Choice, VsError>(
            Choice::Pick(number),
        ),
    ensures
        ({
            let models = config.vs_mode->0;
            let chosen = selectable(round.batch())[number - 1];
            let place = chosen.rank - 1;
            &&& 1 <= number <= selectable(round.batch()).len()
            &&& 0 <= place < round.batch().len() <= models.len()
            &&& 0 <= round.arrivals()[place] < models.len()
            &&& decision_of(config, round.batch(), input) == Ok::<DecisionView, VsError>(
                DecisionView::Commit(
                    CommitmentView { response: chosen.outcome->Ok_0, model: models[place] },
                ),
            )
            &&& chosen.model_id == models[round.arrivals()[place]].id
            &&& round.arrivals()[place] == place ==> models[place].id == chosen.model_id
        }),
{
    let batch = round.batch();
    law_ranks_count_arrivals(round);
    crate::round::law_batch_fills_with_the_round(round);
    law_selection_keeps_one_turn(config, request, batch, input, number);
    lemma_rank_leads_back(batch, number - 1);
}

/// The menu holds the responses that hold an answer, and only those: it has
/// one entry for each response that can be selected; each of these stands in the
/// batch and holds an answer; and each response of the batch that holds an answer
/// can be selected.
pub proof fn law_menu_shows_the_answers(batch: Seq<VsResponseView>)
    ensures
        menu(batch).len() == selectable(batch).len(),
        menu(batch).len() <= batch.len(),
        forall|k: int|
            0 <= k < menu(batch).len() ==> #[trigger] menu(batch)[k] == entry_of(
                selectable(batch)[k],
            ),
        forall|k: int|
            0 <= k < selectable(batch).len() ==> (#[trigger] selectable(batch)[k]).outcome is Ok
                && batch.contains(selectable(batch)[k]),
        forall|i: int|
            0 <= i < batch.len() && (#[trigger] batch[i]).outcome is Ok ==> selectable(
                batch,
            ).contains(batch[i]),
{
    batch.lemma_filter_len(succeeded());
    assert forall|k: int| 0 <= k < selectable(batch).len() implies (#[trigger] selectable(
        batch,
    )[k]).outcome is Ok && batch.contains(selectable(batch)[k]) by {
        lemma_selectable_in_batch(batch, k);
    }
    assert forall|i: int| 0 <= i < batch.len() && (#[trigger] batch[i]).outcome is Ok implies selectable(
        batch,
    ).contains(batch[i]) by {
        batch.lemma_filter_contains(succeeded(), i);
    }
}

} // verus!

use vs_mode::config::{Commitment, Config, Session, Turn, VsMode};
use vs_mode::error::VsError;
use vs_mode::model::{Failure, Input, Model, VsResponse};
use vs_mode::round::Round;
use vs_mode::selector::{
    display_order, menu_line, parse_selection, select_response_without_display, selection_menu,
    selection_prompt, Choice, Decision, MenuEntry,
};

fn model(id: &str) -> Model {
    Model { id: id.to_string(), client: format!("client-of-{}", id) }
}

fn config(models: &[&str]) -> Config {
    Config {
        catalog: models.iter().map(|id| model(id)).collect(),
        model: model("default"),
        vs_mode: Some(VsMode { models: models.iter().map(|id| model(id)).collect() }),
        session: Some(Session { model: model("default") }),
        turns: Vec::new(),
    }
}

fn input(text: &str) -> Input {
    Input { text: text.to_string(), model: model("default") }
}

fn failure(message: &str, causes: &[&str]) -> Failure {
    Failure {
        message: message.to_string(),
        causes: causes.iter().map(|cause| cause.to_string()).collect(),
    }
}

fn answer(rank: usize, id: &str, text: &str) -> VsResponse {
    VsResponse { rank, model_id: id.to_string(), outcome: Ok(text.to_string()) }
}

fn failed(rank: usize, id: &str) -> VsResponse {
    VsResponse { rank, model_id: id.to_string(), outcome: Err(failure("request failed", &["timeout"])) }
}

fn entry(rank: usize, id: &str) -> MenuEntry {
    MenuEntry { rank, model_id: id.to_string() }
}

fn scenario() -> Vec<VsResponse> {
    let cfg = config(&["Alpha", "Beta", "Gamma"]);
    let mut round = Round::start(&cfg, &input("hello")).unwrap().unwrap();
    round.record(2, Ok("g-text".to_string()));
    round.record(0, Err(failure("request failed", &["timeout"])));
    round.record(1, Ok("b-text".to_string()));
    round.into_responses()
}

#[test]
fn the_menu_shows_the_answers_in_the_order_of_arrival() {
    let batch = scenario();
    assert_eq!(display_order(&batch), vec![entry(1, "Gamma"), entry(3, "Beta")]);
    assert_eq!(selection_menu(&batch), Ok(vec![entry(1, "Gamma"), entry(3, "Beta")]));
    let lines: Vec<String> = display_order(&batch).iter().map(menu_line).collect();
    assert_eq!(lines, vec!["  [1] Gamma", "  [3] Beta"]);
}

#[test]
fn the_menu_of_an_empty_batch_is_empty() {
    assert_eq!(display_order(&Vec::new()), Vec::<MenuEntry>::new());
    assert_eq!(selection_menu(&Vec::new()), Err(VsError::NoSelectableResults));
}

#[test]
fn there_is_no_menu_when_every_model_failed() {
    let batch = vec![failed(1, "Alpha"), failed(2, "Beta")];
    assert_eq!(display_order(&batch), Vec::<MenuEntry>::new());
    assert_eq!(selection_menu(&batch), Err(VsError::NoSelectableResults));
}

#[test]
fn the_menu_of_a_batch_of_answers_shows_them_all() {
    let batch = vec![answer(1, "Beta", "b"), answer(2, "Alpha", "a")];
    assert_eq!(display_order(&batch), vec![entry(1, "Beta"), entry(2, "Alpha")]);
}

#[test]
fn menu_lines_and_prompt() {
    assert_eq!(menu_line(&entry(1, "Gamma")), "  [1] Gamma");
    assert_eq!(menu_line(&entry(10, "acme:large-v2")), "  [10] acme:large-v2");
    assert_eq!(selection_prompt(2), "Select response [1-2] (or 'exit' to quit): ");
    assert_eq!(selection_prompt(11), "Select response [1-11] (or 'exit' to quit): ");
}

#[test]
fn a_number_of_the_menu_is_a_pick() {
    assert_eq!(parse_selection("1", 2), Ok(Choice::Pick(1)));
    assert_eq!(parse_selection("2", 2), Ok(Choice::Pick(2)));
    assert_eq!(parse_selection("2\n", 2), Ok(Choice::Pick(2)));
    assert_eq!(parse_selection("  1\r\n", 2), Ok(Choice::Pick(1)));
    assert_eq!(parse_selection("+2", 2), Ok(Choice::Pick(2)));
    assert_eq!(parse_selection("002", 2), Ok(Choice::Pick(2)));
    assert_eq!(parse_selection("17", 17), Ok(Choice::Pick(17)));
}

#[test]
fn exit_and_quit_leave_in_any_case() {
    for word in ["exit", "quit", "EXIT", "Quit", "eXiT", " exit\n", "\tQUIT  ", "exit\r\n"] {
        assert_eq!(parse_selection(word, 2), Ok(Choice::Quit), "{:?}", word);
        assert_eq!(parse_selection(word, 0), Ok(Choice::Quit), "{:?}", word);
    }
}

#[test]
fn anything_else_is_no_selection() {
    for word in [
        "", " ", "\n", "0", "3", "-1", "1.0", "one", "1 2", "ex it", "exits", "q", "quit!", "１",
        "99999999999999999999999999", "+", "0x1",
    ] {
        assert_eq!(parse_selection(word, 2), Err(VsError::InvalidSelection), "{:?}", word);
    }
    assert_eq!(parse_selection("1", 0), Err(VsError::InvalidSelection));
}

#[test]
fn selecting_keeps_the_request_and_the_answer() {
    let batch = scenario();
    let mut cfg = config(&["Alpha", "Beta", "Gamma"]);
    let decided = select_response_without_display(&mut cfg, &input("hello"), &batch, "1\n");
    assert_eq!(
        decided,
        Ok(Decision::Commit(Commitment { response: "g-text".to_string(), model: model("Alpha") }))
    );
    assert_eq!(cfg.turns, vec![Turn { request: input("hello"), response: "g-text".to_string() }]);
    assert_eq!(cfg.session, Some(Session { model: model("Alpha") }));
    let mut expected = config(&["Alpha", "Beta", "Gamma"]);
    expected.turns = vec![Turn { request: input("hello"), response: "g-text".to_string() }];
    expected.session = Some(Session { model: model("Alpha") });
    assert_eq!(cfg, expected);
}

#[test]
fn the_choice_counts_the_entries_of_the_menu() {
    let batch = scenario();
    let mut cfg = config(&["Alpha", "Beta", "Gamma"]);
    let decided = select_response_without_display(&mut cfg, &input("hello"), &batch, "2");
    assert_eq!(
        decided,
        Ok(Decision::Commit(Commitment { response: "b-text".to_string(), model: model("Gamma") }))
    );
    assert_eq!(cfg.turns.len(), 1);
    assert_eq!(cfg.turns[0].response, "b-text");
    assert_eq!(cfg.session, Some(Session { model: model("Gamma") }));
    let mut cfg = config(&["Alpha", "Beta", "Gamma"]);
    let decided = select_response_without_display(&mut cfg, &input("hello"), &batch, "3");
    assert_eq!(decided, Err(VsError::InvalidSelection));
    assert_eq!(cfg, config(&["Alpha", "Beta", "Gamma"]));
}

#[test]
fn selecting_appends_to_the_turns_that_are_there() {
    let batch = scenario();
    let mut cfg = config(&["Alpha", "Beta", "Gamma"]);
    cfg.turns.push(Turn { request: input("earlier"), response: "kept".to_string() });
    let decided = select_response_without_display(&mut cfg, &input("hello"), &batch, "1");
    assert!(matches!(decided, Ok(Decision::Commit(_))));
    assert_eq!(cfg.turns, vec![
        Turn { request: input("earlier"), response: "kept".to_string() },
        Turn { request: input("hello"), response: "g-text".to_string() },
    ]);
}

#[test]
fn selecting_without_a_session_keeps_the_turn_only() {
    let batch = scenario();
    let mut cfg = config(&["Alpha", "Beta", "Gamma"]);
    cfg.session = None;
    let decided = select_response_without_display(&mut cfg, &input("hello"), &batch, "1");
    assert!(matches!(decided, Ok(Decision::Commit(_))));
    assert_eq!(cfg.session, None);
    assert_eq!(cfg.turns.len(), 1);
}

#[test]
fn the_default_model_stands_in_where_the_comparison_set_is_too_short() {
    let batch = scenario();
    let mut cfg = config(&["Alpha", "Beta"]);
    let decided = select_response_without_display(&mut cfg, &input("hello"), &batch, "2");
    assert_eq!(
        decided,
        Ok(Decision::Commit(Commitment { response: "b-text".to_string(), model: model("default") }))
    );
    assert_eq!(cfg.session, Some(Session { model: model("default") }));
}

#[test]
fn quitting_keeps_nothing() {
    let batch = scenario();
    for word in ["exit", "QUIT", " Exit \n"] {
        let mut cfg = config(&["Alpha", "Beta", "Gamma"]);
        let decided = select_response_without_display(&mut cfg, &input("hello"), &batch, word);
        assert_eq!(decided, Ok(Decision::Quit));
        assert_eq!(cfg, config(&["Alpha", "Beta", "Gamma"]));
    }
}

#[test]
fn an_invalid_selection_keeps_nothing() {
    let batch = scenario();
    for word in ["0", "3", "abc", "", "-1", "2.0"] {
        let mut cfg = config(&["Alpha", "Beta", "Gamma"]);
        let decided = select_response_without_display(&mut cfg, &input("hello"), &batch, word);
        assert_eq!(decided, Err(VsError::InvalidSelection), "{:?}", word);
        assert_eq!(cfg, config(&["Alpha", "Beta", "Gamma"]));
    }
}

#[test]
fn nothing_can_be_selected_when_every_model_failed() {
    let batch = vec![failed(1, "Beta"), failed(2, "Alpha")];
    for word in ["1", "exit", "abc"] {
        let mut cfg = config(&["Alpha", "Beta"]);
        let decided = select_response_without_display(&mut cfg, &input("hello"), &batch, word);
        assert_eq!(decided, Err(VsError::NoSelectableResults), "{:?}", word);
        assert_eq!(cfg, config(&["Alpha", "Beta"]));
    }
}

#[test]
fn selecting_without_a_comparison_set_is_refused() {
    let batch = scenario();
    let mut cfg = config(&["Alpha", "Beta", "Gamma"]);
    cfg.vs_mode = None;
    let decided = select_response_without_display(&mut cfg, &input("hello"), &batch, "1");
    assert_eq!(decided, Err(VsError::ModeInactive));
    assert!(cfg.turns.is_empty());
    assert_eq!(cfg.session, Some(Session { model: model("default") }));
    let decided = select_response_without_display(&mut cfg, &input("hello"), &batch, "exit");
    assert_eq!(decided, Ok(Decision::Quit));
    let decided = select_response_without_display(&mut cfg, &input("hello"), &batch, "7");
    assert_eq!(decided, Err(VsError::InvalidSelection));
}

#[test]
fn a_rank_that_leads_to_a_failure_keeps_nothing() {
    let batch = vec![failed(1, "Alpha"), answer(1, "Beta", "b-text")];
    let mut cfg = config(&["Alpha", "Beta"]);
    assert_eq!(display_order(&batch), vec![entry(1, "Beta")]);
    let decided = select_response_without_display(&mut cfg, &input("hello"), &batch, "1");
    assert_eq!(decided, Ok(Decision::Nothing));
    assert_eq!(cfg, config(&["Alpha", "Beta"]));
}

#[test]
fn a_repeated_rank_leads_to_the_first_response_that_bears_it() {
    let batch = vec![answer(5, "Alpha", "first"), answer(5, "Beta", "second")];
    let mut cfg = config(&["Alpha", "Beta"]);
    let decided = select_response_without_display(&mut cfg, &input("hello"), &batch, "2");
    assert_eq!(
        decided,
        Ok(Decision::Commit(Commitment { response: "first".to_string(), model: model("Alpha") }))
    );
}

#[test]
fn committing_appends_one_turn_and_binds_the_session() {
    let mut cfg = config(&["Alpha", "Beta"]);
    let kept = Commitment { response: "text".to_string(), model: model("Beta") };
    cfg.commit(&input("hello"), &kept);
    assert_eq!(cfg.turns, vec![Turn { request: input("hello"), response: "text".to_string() }]);
    assert_eq!(cfg.session, Some(Session { model: model("Beta") }));
    assert_eq!(cfg.vs_mode, config(&["Alpha", "Beta"]).vs_mode);
    assert_eq!(cfg.model, model("default"));
}

use launcher::program::Program;
use launcher::session::{command_for, Command, Key, Step};
use launcher::state::{Dir, State};

fn program(name: &str, cmd: &str) -> Program {
    Program { name: name.to_string(), cmd: vec![cmd.to_string()] }
}

fn three() -> Vec<Program> {
    vec![program("Spotify", "spotify"), program("Discord", "discord"), program("Steam", "steam")]
}

fn session(programs: Vec<Program>) -> State {
    let mut state = State::new();
    state.load_progams(vec![programs]);
    state
}

fn type_str(state: &mut State, s: &str) {
    for c in s.chars() {
        state.enter_char(c);
    }
}

fn view_names(state: &State) -> Vec<String> {
    state.filtered.iter().map(|&i| state.programs[i].name.clone()).collect()
}

#[test]
fn new_state_is_empty() {
    let state = State::new();
    assert_eq!(state.input, "");
    assert!(state.programs.is_empty());
    assert!(state.filtered.is_empty());
    assert_eq!(state.selected, None);
    assert!(state.current_selection().is_none());
}

#[test]
fn empty_query_keeps_every_program_in_order() {
    let state = session(three());
    assert_eq!(view_names(&state), vec!["Spotify", "Discord", "Steam"]);
    assert_eq!(state.selected, Some(0));
}

#[test]
fn load_joins_sources_in_order() {
    let mut state = State::new();
    state.load_progams(vec![
        vec![program("Spotify", "spotify"), program("Discord", "discord")],
        vec![],
        vec![program("Steam", "steam"), program("Spotify", "spotify")],
    ]);
    assert_eq!(view_names(&state), vec!["Spotify", "Discord", "Steam", "Spotify"]);
}

#[test]
fn query_sp_keeps_spotify_and_confirm_launches_it() {
    let mut state = session(three());
    type_str(&mut state, "sp");
    assert_eq!(view_names(&state), vec!["Spotify"]);
    assert_eq!(state.current_selection().map(|p| p.name.as_str()), Some("Spotify"));
    assert_eq!(state.handle_key(Key::Enter), Step::Launch(0));
}

#[test]
fn query_s_keeps_discovery_order_and_cycles() {
    let mut state = session(three());
    type_str(&mut state, "s");
    // "Discord" holds an s too, so all three stay, in their original order.
    assert_eq!(view_names(&state), vec!["Spotify", "Discord", "Steam"]);
    assert_eq!(state.selected, Some(0));
    state.move_index(Dir::Down);
    assert_eq!(state.selected, Some(1));
    state.move_index(Dir::Down);
    assert_eq!(state.selected, Some(2));
    state.move_index(Dir::Down);
    assert_eq!(state.selected, Some(0));
}

#[test]
fn query_st_keeps_spotify_and_steam_and_wraps() {
    let mut state = session(three());
    type_str(&mut state, "st");
    assert_eq!(view_names(&state), vec!["Spotify", "Steam"]);
    assert_eq!(state.selected, Some(0));
    state.move_index(Dir::Down);
    assert_eq!(state.selected, Some(1));
    assert_eq!(state.current_selection().map(|p| p.name.as_str()), Some("Steam"));
    state.move_index(Dir::Down);
    assert_eq!(state.selected, Some(0));
}

#[test]
fn filtered_view_is_subset_matching_names() {
    let mut state = session(three());
    type_str(&mut state, "ord");
    assert_eq!(view_names(&state), vec!["Discord"]);
    assert_eq!(state.filtered, vec![1]);
    for &i in &state.filtered {
        assert!(i < state.programs.len());
    }
}

#[test]
fn query_matching_nothing_empties_view() {
    let mut state = session(three());
    type_str(&mut state, "xyz");
    assert!(state.filtered.is_empty());
    assert_eq!(state.selected, None);
    assert!(state.current_selection().is_none());
    assert_eq!(state.handle_key(Key::Enter), Step::Continue);
    state.move_index(Dir::Down);
    assert_eq!(state.selected, None);
}

#[test]
fn moving_down_len_times_returns_to_start() {
    let mut state = session(three());
    state.move_index(Dir::Down);
    let start = state.selected;
    for _ in 0..state.filtered.len() {
        state.move_index(Dir::Down);
    }
    assert_eq!(state.selected, start);
}

#[test]
fn moving_up_from_top_wraps_to_last() {
    let mut state = session(three());
    state.move_index(Dir::Up);
    assert_eq!(state.selected, Some(2));
    state.move_index(Dir::Up);
    assert_eq!(state.selected, Some(1));
}

#[test]
fn single_entry_view_keeps_selection() {
    let mut state = session(vec![program("Steam", "steam")]);
    state.move_index(Dir::Down);
    assert_eq!(state.selected, Some(0));
    state.move_index(Dir::Up);
    assert_eq!(state.selected, Some(0));
}

#[test]
fn narrowing_clamps_selection_to_last_position() {
    let mut state = session(three());
    state.move_index(Dir::Up);
    assert_eq!(state.selected, Some(2));
    type_str(&mut state, "sp");
    assert_eq!(state.filtered.len(), 1);
    assert_eq!(state.selected, Some(0));
    state.delete_char();
    state.delete_char();
    assert_eq!(state.filtered.len(), 3);
    assert_eq!(state.selected, Some(0));
}

#[test]
fn widening_keeps_selected_position() {
    let mut state = session(three());
    type_str(&mut state, "st");
    state.move_index(Dir::Down);
    assert_eq!(state.selected, Some(1));
    state.delete_char();
    assert_eq!(state.input, "s");
    assert_eq!(state.selected, Some(1));
    assert_eq!(view_names(&state)[1], "Discord");
}

#[test]
fn delete_word_examples() {
    let mut state = session(three());
    type_str(&mut state, "disc ord");
    state.delete_word();
    assert_eq!(state.input, "disc");
    state.delete_word();
    assert_eq!(state.input, "");
    state.delete_word();
    assert_eq!(state.input, "");
}

#[test]
fn delete_word_keeps_inner_spacing_and_drops_trailing_space() {
    let mut state = session(three());
    type_str(&mut state, "a  b c ");
    state.delete_word();
    assert_eq!(state.input, "a  b");
    let mut other = session(three());
    type_str(&mut other, "  disc");
    other.delete_word();
    assert_eq!(other.input, "");
}

#[test]
fn delete_word_refilters() {
    let mut state = session(three());
    type_str(&mut state, "st x");
    assert!(state.filtered.is_empty());
    state.delete_word();
    assert_eq!(view_names(&state), vec!["Spotify", "Steam"]);
    assert_eq!(state.selected, Some(0));
}

#[test]
fn delete_char_on_empty_query_is_noop() {
    let mut state = session(three());
    state.move_index(Dir::Down);
    state.delete_char();
    assert_eq!(state.input, "");
    assert_eq!(state.filtered, vec![0, 1, 2]);
    assert_eq!(state.selected, Some(1));
}

#[test]
fn delete_char_removes_last_character() {
    let mut state = session(three());
    type_str(&mut state, "spé");
    state.delete_char();
    assert_eq!(state.input, "sp");
    assert_eq!(view_names(&state), vec!["Spotify"]);
}

#[test]
fn key_bindings() {
    assert_eq!(command_for(Key::Ctrl('j')), Command::Move(Dir::Down));
    assert_eq!(command_for(Key::Ctrl('k')), Command::Move(Dir::Up));
    assert_eq!(command_for(Key::Ctrl('w')), Command::DeleteWord);
    assert_eq!(command_for(Key::Ctrl('a')), Command::Insert('a'));
    assert_eq!(command_for(Key::Char('j')), Command::Insert('j'));
    assert_eq!(command_for(Key::Up), Command::Move(Dir::Up));
    assert_eq!(command_for(Key::Down), Command::Move(Dir::Down));
    assert_eq!(command_for(Key::Backspace), Command::DeleteChar);
    assert_eq!(command_for(Key::Enter), Command::Confirm);
    assert_eq!(command_for(Key::Esc), Command::Cancel);
    assert_eq!(command_for(Key::Other), Command::Ignore);
}

#[test]
fn handle_key_runs_a_session() {
    let mut state = session(three());
    assert_eq!(state.handle_key(Key::Char('s')), Step::Continue);
    assert_eq!(state.handle_key(Key::Char('t')), Step::Continue);
    assert_eq!(state.handle_key(Key::Ctrl('j')), Step::Continue);
    assert_eq!(state.handle_key(Key::Enter), Step::Launch(2));
    assert_eq!(state.handle_key(Key::Ctrl('w')), Step::Continue);
    assert_eq!(state.input, "");
    assert_eq!(state.handle_key(Key::Other), Step::Continue);
    assert_eq!(state.handle_key(Key::Esc), Step::Quit);
}

#[test]
fn matching_ignores_case() {
    let mut state = session(three());
    type_str(&mut state, "SP");
    assert_eq!(view_names(&state), vec!["Spotify"]);
    let mut other = session(three());
    type_str(&mut other, "D");
    assert_eq!(view_names(&other), vec!["Discord"]);
}

#[test]
fn matching_is_by_subsequence_in_order() {
    let mut state = session(three());
    type_str(&mut state, "sfy");
    assert_eq!(view_names(&state), vec!["Spotify"]);
    let mut other = session(three());
    type_str(&mut other, "ts");
    assert!(other.filtered.is_empty());
}

#[test]
fn names_without_letters_stay_under_empty_query() {
    let state = session(vec![program("", "a"), program("42", "b")]);
    assert_eq!(state.filtered, vec![0, 1]);
}

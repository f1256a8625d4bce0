use hired::buffer::Buffer;
use hired::cmd::{apply_read, apply_write, run, Action, State};
use hired::error::EdError;

fn state_with(lines: &[&str]) -> State {
    let mut state = State::new();
    let mut data: Vec<String> = lines.iter().map(|l| l.to_string()).collect();
    state.buffer.insert(&mut data, 0).unwrap();
    state.buffer.set_saved();
    state.selection = None;
    state
}

fn lines_of(state: &State) -> Vec<String> {
    state.buffer.get_selection((0, state.buffer.len())).unwrap().to_vec()
}

#[test]
fn run_selects_without_command() {
    let mut state = state_with(&["1\n", "2\n", "3\n"]);
    let out = run(&mut state, "2\n", Vec::new()).unwrap();
    assert_eq!(state.selection, Some((1, 2)));
    assert!(out.view_changed);
}

#[test]
fn run_append_inserts_after_selection() {
    let mut state = state_with(&["1\n", "2\n", "3\n"]);
    state.selection = Some((0, 1));
    let input = vec!["x\n".to_string(), "y\n".to_string()];
    run(&mut state, "a\n", input).unwrap();
    assert_eq!(lines_of(&state), vec!["1\n", "x\n", "y\n", "2\n", "3\n"]);
    assert_eq!(state.selection, Some((1, 3)));
    assert!(!state.buffer.saved());
}

#[test]
fn run_append_cancelled_keeps_selection() {
    let mut state = state_with(&["1\n", "2\n"]);
    state.selection = Some((0, 1));
    run(&mut state, "a\n", Vec::new()).unwrap();
    assert_eq!(lines_of(&state), vec!["1\n", "2\n"]);
    assert_eq!(state.selection, Some((0, 1)));
}

#[test]
fn run_insert_places_before_selection() {
    let mut state = state_with(&["1\n", "2\n"]);
    state.selection = Some((1, 2));
    run(&mut state, "i\n", vec!["x\n".to_string()]).unwrap();
    assert_eq!(lines_of(&state), vec!["1\n", "x\n", "2\n"]);
    assert_eq!(state.selection, Some((1, 2)));
}

#[test]
fn run_change_empty_input_acts_as_delete() {
    let mut state = state_with(&["1\n", "2\n", "3\n"]);
    run(&mut state, "2c\n", Vec::new()).unwrap();
    assert_eq!(lines_of(&state), vec!["1\n", "3\n"]);
    assert_eq!(state.selection, Some((0, 1)));
}

#[test]
fn run_delete_updates_selection() {
    let mut state = state_with(&["1\n", "2\n", "3\n"]);
    run(&mut state, "1,2d\n", Vec::new()).unwrap();
    assert_eq!(lines_of(&state), vec!["3\n"]);
    assert_eq!(state.selection, Some((0, 1)));
    // Deleting everything leaves no selection.
    let mut state = state_with(&["1\n"]);
    run(&mut state, "1d\n", Vec::new()).unwrap();
    assert_eq!(state.buffer.len(), 0);
    assert_eq!(state.selection, None);
}

#[test]
fn run_move_and_copy_select_destination() {
    let mut state = state_with(&["1\n", "2\n", "3\n", "4\n", "5\n", "6\n"]);
    run(&mut state, "1,3m5\n", Vec::new()).unwrap();
    assert_eq!(lines_of(&state), vec!["4\n", "5\n", "1\n", "2\n", "3\n", "6\n"]);
    assert_eq!(state.selection, Some((5, 8)));

    let mut state = state_with(&["1\n", "2\n"]);
    run(&mut state, "1t2\n", Vec::new()).unwrap();
    assert_eq!(lines_of(&state), vec!["1\n", "2\n", "1\n"]);
    assert_eq!(state.selection, Some((2, 3)));
}

#[test]
fn run_move_into_self_is_rejected() {
    let mut state = state_with(&["1\n", "2\n", "3\n", "4\n", "5\n", "6\n"]);
    assert_eq!(run(&mut state, "2,5m3\n", Vec::new()).unwrap_err(), EdError::MoveIntoSelf);
    assert_eq!(lines_of(&state), vec!["1\n", "2\n", "3\n", "4\n", "5\n", "6\n"]);
}

#[test]
fn run_join_selects_joined_line() {
    let mut state = state_with(&["1\n", "2\n", "3\n"]);
    run(&mut state, "1,3j\n", Vec::new()).unwrap();
    assert_eq!(lines_of(&state), vec!["123\n"]);
    assert_eq!(state.selection, Some((0, 1)));
}

#[test]
fn run_substitute_updates_selection() {
    let mut state = state_with(&["test line\n", "also a test line\n"]);
    run(&mut state, ",s/test/best/\n", Vec::new()).unwrap();
    assert_eq!(lines_of(&state), vec!["best line\n", "also a test line\n"]);
    assert_eq!(state.selection, Some((0, 1)));

    let mut state = state_with(&["test line\n", "also a test line\n"]);
    run(&mut state, ",s/test/best/g\n", Vec::new()).unwrap();
    assert_eq!(lines_of(&state), vec!["best line\n", "also a best line\n"]);
    assert_eq!(state.selection, Some((0, 2)));
}

#[test]
fn run_substitute_needs_closed_expression() {
    let mut state = state_with(&["a\n"]);
    assert_eq!(
        run(&mut state, ",s/a\n", Vec::new()).unwrap_err(),
        EdError::ExpressionTooShort
    );
}

#[test]
fn run_quit_honours_saved_flag() {
    let mut state = state_with(&["1\n"]);
    run(&mut state, "q\n", Vec::new()).unwrap();
    assert!(state.done);

    let mut state = state_with(&["1\n"]);
    run(&mut state, "1d\n", Vec::new()).unwrap();
    assert_eq!(run(&mut state, "q\n", Vec::new()).unwrap_err(), EdError::UnsavedChanges);
    assert!(!state.done);
    run(&mut state, "Q\n", Vec::new()).unwrap();
    assert!(state.done);
}

#[test]
fn run_rejects_selection_on_plain_commands() {
    let mut state = state_with(&["1\n"]);
    assert_eq!(run(&mut state, "1q\n", Vec::new()).unwrap_err(), EdError::SelectionForbidden);
    assert_eq!(run(&mut state, "1,1h\n", Vec::new()).unwrap_err(), EdError::SelectionForbidden);
}

#[test]
fn run_rejects_unknown_commands_and_flags() {
    let mut state = state_with(&["1\n"]);
    assert_eq!(run(&mut state, "z\n", Vec::new()).unwrap_err(), EdError::UndefinedCommand);
    assert_eq!(run(&mut state, "1px\n", Vec::new()).unwrap_err(), EdError::UndefinedFlag);
    assert_eq!(run(&mut state, "1pp\n", Vec::new()).unwrap_err(), EdError::DuplicateFlag);
    let mut empty = State::new();
    assert_eq!(run(&mut empty, "\n", Vec::new()).unwrap_err(), EdError::SelectionEmpty);
}

#[test]
fn run_print_sets_flags_and_selection() {
    let mut state = state_with(&["1\n", "2\n", "3\n"]);
    let out = run(&mut state, "1,2n\n", Vec::new()).unwrap();
    assert_eq!(state.selection, Some((0, 2)));
    assert!(out.n && !out.p && !out.l);
    let out = run(&mut state, "p\n", Vec::new()).unwrap();
    assert_eq!(state.selection, Some((0, 2)));
    assert!(out.p && !out.n);
}

#[test]
fn run_file_commands_hand_back_actions() {
    let mut state = state_with(&["1\n", "2\n"]);
    state.file = "old.txt".to_string();
    let out = run(&mut state, "e new.txt\n", Vec::new()).unwrap();
    match out.action {
        Action::ReadFile { path, index, replace, must_exist } => {
            assert_eq!(path, "new.txt");
            assert_eq!(index, 0);
            assert!(replace);
            assert!(!must_exist);
        },
        _ => panic!("expected a read action"),
    }
    // 'r' without an address appends at the end of the buffer and must
    // find the file.
    state.selection = Some((0, 1));
    let out = run(&mut state, "r\n", Vec::new()).unwrap();
    match out.action {
        Action::ReadFile { path, index, replace, must_exist } => {
            assert_eq!(path, "old.txt");
            assert_eq!(index, 2);
            assert!(!replace);
            assert!(must_exist);
        },
        _ => panic!("expected a read action"),
    }
    // 'w' writes the whole buffer by default.
    let out = run(&mut state, "w\n", Vec::new()).unwrap();
    match out.action {
        Action::WriteFile { path, selection, append } => {
            assert_eq!(path, "old.txt");
            assert_eq!(selection, (0, 2));
            assert!(!append);
        },
        _ => panic!("expected a write action"),
    }
    // 'e' refuses to drop unsaved changes; 'E' does not.
    let mut state = state_with(&["1\n"]);
    run(&mut state, "1d\n", Vec::new()).unwrap();
    assert_eq!(
        run(&mut state, "e x.txt\n", Vec::new()).unwrap_err(),
        EdError::UnsavedChanges
    );
    assert!(run(&mut state, "E x.txt\n", Vec::new()).is_ok());
}

#[test]
fn apply_read_replaces_or_splices() {
    let mut state = state_with(&["1\n", "2\n"]);
    let data = vec!["x\n".to_string(), "y\n".to_string()];
    apply_read(&mut state, "new.txt", 0, true, data).unwrap();
    assert_eq!(lines_of(&state), vec!["x\n", "y\n"]);
    assert_eq!(state.file, "new.txt");
    assert_eq!(state.selection, Some((0, 2)));
    assert!(state.buffer.saved());

    let mut state = state_with(&["1\n", "2\n"]);
    let data = vec!["x\n".to_string()];
    apply_read(&mut state, "r.txt", 1, false, data).unwrap();
    assert_eq!(lines_of(&state), vec!["1\n", "x\n", "2\n"]);
    assert_eq!(state.selection, Some((1, 2)));
}

#[test]
fn apply_write_marks_whole_buffer_saved() {
    let mut state = state_with(&["1\n", "2\n"]);
    run(&mut state, "1d\n", Vec::new()).unwrap();
    assert!(!state.buffer.saved());
    apply_write(&mut state, "out.txt", (0, 1));
    assert!(state.buffer.saved());
    assert_eq!(state.file, "out.txt");

    let mut state = state_with(&["1\n", "2\n"]);
    run(&mut state, "2d\n", Vec::new()).unwrap();
    apply_write(&mut state, "out.txt", (0, 1));
    // A partial... the remaining single line is the whole buffer here, so
    // craft a real partial write instead.
    let mut state = state_with(&["1\n", "2\n", "3\n"]);
    run(&mut state, "3d\n", Vec::new()).unwrap();
    apply_write(&mut state, "part.txt", (0, 1));
    assert!(!state.buffer.saved());
    assert_eq!(state.selection, Some((0, 1)));
    assert_ne!(state.file, "part.txt");
}

#[test]
fn run_toggles_error_printing_and_shows_help() {
    let mut state = state_with(&["1\n"]);
    assert!(!state.print_errors);
    let out = run(&mut state, "H\n", Vec::new()).unwrap();
    assert!(state.print_errors);
    assert!(matches!(out.action, Action::Nothing));
    let out = run(&mut state, "?\n", Vec::new()).unwrap();
    assert!(matches!(out.action, Action::ShowHelp));
    let out = run(&mut state, "h\n", Vec::new()).unwrap();
    assert!(matches!(out.action, Action::ShowError));
}

#[test]
fn run_filename_query_and_set() {
    let mut state = state_with(&["1\n"]);
    let out = run(&mut state, "f\n", Vec::new()).unwrap();
    assert!(matches!(out.action, Action::ShowFilename));
    let out = run(&mut state, "f notes.txt\n", Vec::new()).unwrap();
    assert!(matches!(out.action, Action::Nothing));
    assert_eq!(state.file, "notes.txt");
}

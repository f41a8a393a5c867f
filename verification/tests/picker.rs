use freespace::picker::{InstallSelectState, KeyResult};
use freespace::session::Key;

fn make_state(n: usize) -> InstallSelectState {
    let candidates: Vec<(String, String)> = (0..n).map(|i| (format!("mod-{}", i), format!("dir-{}", i))).collect();
    let count = candidates.len();
    InstallSelectState { candidates, selected: vec![true; count], cursor: 0 }
}

#[test]
fn install_select_navigate_down_wraps() {
    let mut s = make_state(3);
    s.handle_key(Key::Char('j'), false);
    assert_eq!(s.cursor, 1);
    s.handle_key(Key::Char('j'), false);
    assert_eq!(s.cursor, 2);
    s.handle_key(Key::Char('j'), false);
    assert_eq!(s.cursor, 0); // wraps
}

#[test]
fn install_select_navigate_up_wraps() {
    let mut s = make_state(3);
    s.handle_key(Key::Char('k'), false);
    assert_eq!(s.cursor, 2); // wraps to the end
    s.handle_key(Key::Char('k'), false);
    assert_eq!(s.cursor, 1);
}

#[test]
fn toggle_selection() {
    let mut s = make_state(3);
    assert!(s.selected[0]);
    s.handle_key(Key::Char(' '), false);
    assert!(!s.selected[0]);
    s.handle_key(Key::Char(' '), false);
    assert!(s.selected[0]);
}

#[test]
fn select_all() {
    let mut s = make_state(3);
    s.selected = vec![false; 3];
    s.handle_key(Key::Char('a'), false);
    assert!(s.selected.iter().all(|&v| v));
}

#[test]
fn select_none() {
    let mut s = make_state(3);
    s.handle_key(Key::Char('n'), false);
    assert!(s.selected.iter().all(|&v| !v));
}

#[test]
fn confirm_returns_selected() {
    let mut s = make_state(3);
    s.selected = vec![true, false, true];
    match s.handle_key(Key::Enter, false) {
        KeyResult::Confirm => {
            assert_eq!(s.selected_indices(), vec![0, 2]);
        }
        _ => panic!("expected Confirm"),
    }
}

#[test]
fn cancel_on_esc() {
    let mut s = make_state(3);
    match s.handle_key(Key::Esc, false) {
        KeyResult::Cancel => {}
        _ => panic!("expected Cancel"),
    }
}

#[test]
fn cancel_on_q() {
    let mut s = make_state(3);
    match s.handle_key(Key::Char('q'), false) {
        KeyResult::Cancel => {}
        _ => panic!("expected Cancel"),
    }
}

#[test]
fn cancel_on_ctrl_c() {
    let mut s = make_state(3);
    match s.handle_key(Key::Char('c'), true) {
        KeyResult::Cancel => {}
        _ => panic!("expected Cancel"),
    }
}

#[test]
fn install_select_ctrl_n_moves_down() {
    let mut s = make_state(3);
    s.handle_key(Key::Char('n'), true);
    assert_eq!(s.cursor, 1);
    // Ctrl+N moves; it does not untick
    assert!(s.selected.iter().all(|&v| v));
}

#[test]
fn install_select_ctrl_p_moves_up() {
    let mut s = make_state(3);
    s.handle_key(Key::Char('j'), false); // move to 1
    s.handle_key(Key::Char('p'), true);
    assert_eq!(s.cursor, 0);
}

#[test]
fn empty_candidates_no_panic() {
    let mut s = make_state(0);
    s.handle_key(Key::Char('j'), false);
    s.handle_key(Key::Char('k'), false);
    s.handle_key(Key::Char(' '), false);
    assert_eq!(s.selected_indices(), Vec::<usize>::new());
}

use raycaster::game::{frame_action, initial_views, toggle_views, FrameAction, ViewState};
use raycaster::maze::parse_maze;

fn chars(s: &str) -> Vec<char> {
    s.chars().collect()
}

fn rows(v: &[&str]) -> Vec<Vec<char>> {
    v.iter().map(|r| r.chars().collect()).collect()
}

#[test]
fn maze_lines_split_at_newlines() {
    assert_eq!(parse_maze(&chars("+--+\n|  E\n+--+\n")), rows(&["+--+", "|  E", "+--+"]));
}

#[test]
fn maze_last_line_without_newline_counts() {
    assert_eq!(parse_maze(&chars("ab\ncd")), rows(&["ab", "cd"]));
}

#[test]
fn maze_windows_line_endings() {
    assert_eq!(parse_maze(&chars("ab\r\ncd\r\n")), rows(&["ab", "cd"]));
    // a carriage return not followed by a newline stays
    assert_eq!(parse_maze(&chars("ab\r")), rows(&["ab\r"]));
}

#[test]
fn maze_empty_and_blank_lines() {
    assert_eq!(parse_maze(&chars("")), rows(&[]));
    assert_eq!(parse_maze(&chars("\n")), rows(&[""]));
    assert_eq!(parse_maze(&chars("a\n\nb\n")), rows(&["a", "", "b"]));
}

#[test]
fn maze_parse_matches_str_lines() {
    for text in ["+-+\n| E\n", "x\r\ny", "\r\n\r\n", " E \n\n", "a\rb\n"] {
        let expected: Vec<Vec<char>> = text.lines().map(|l| l.chars().collect()).collect();
        assert_eq!(parse_maze(&chars(text)), expected, "{:?}", text);
    }
}

#[test]
fn maze_rows_written_back_give_the_text() {
    let text = "+-+\n|E|\n+-+\n";
    let mut back = String::new();
    for row in parse_maze(&chars(text)) {
        back.extend(row);
        back.push('\n');
    }
    assert_eq!(back, text);
}

#[test]
fn game_starts_in_3d_without_minimap() {
    assert_eq!(initial_views(), ViewState { view_3d: true, show_minimap: false });
    assert_eq!(frame_action(initial_views(), false), FrameAction::Render3d { minimap: false });
}

#[test]
fn success_screen_comes_first() {
    let v = ViewState { view_3d: false, show_minimap: true };
    assert_eq!(frame_action(v, true), FrameAction::ShowSuccess);
    assert_eq!(frame_action(v, false), FrameAction::Render2d);
    let v = ViewState { view_3d: true, show_minimap: true };
    assert_eq!(frame_action(v, false), FrameAction::Render3d { minimap: true });
}

#[test]
fn view_keys_toggle_and_pause() {
    let v = initial_views();
    assert_eq!(toggle_views(v, false, false), (v, 0));
    assert_eq!(toggle_views(v, true, false), (ViewState { view_3d: false, show_minimap: false }, 200));
    assert_eq!(toggle_views(v, false, true), (ViewState { view_3d: true, show_minimap: true }, 200));
    let (both, pause) = toggle_views(v, true, true);
    assert_eq!((both, pause), (ViewState { view_3d: false, show_minimap: true }, 400));
    assert_eq!(toggle_views(both, true, true).0, v);
}

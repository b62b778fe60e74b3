use rpi::input::{Input, InputEvent, Key, Modifiers};
use rpi::kill_ring::KillRing;
use rpi::search_bar::{SearchBar, Style};
use rpi::terminal::{char_columns, slice_by_column, strip_ansi, visible_width, CURSOR_MARKER};
use rpi::word_navigation::{find_word_backward, find_word_forward};

fn key(input: &mut Input, key: Key) {
    input.handle_key(key, Modifiers::Other);
}

#[test]
fn test_input_value() {
    let mut input = Input::new();
    input.set_value("hello");
    assert_eq!(input.get_value(), "hello");
}

#[test]
fn test_input_clear() {
    let mut input = Input::new();
    input.set_value("hello");
    input.clear();
    assert_eq!(input.get_value(), "");
}

#[test]
fn test_input_render() {
    let mut input = Input::new();
    input.set_value("hello");
    let lines = input.render(20);
    assert_eq!(lines.len(), 1);
    assert!(lines[0].contains("hello"));
}

#[test]
fn test_input_placeholder() {
    let input = Input::with_placeholder("Enter text...");
    let lines = input.render(20);
    assert!(lines[0].contains("Enter text..."));
}

#[test]
fn deletion_keys_do_not_deadlock() {
    let press = |code: Key, modifiers: Modifiers| {
        let mut input = Input::new();
        input.set_value("hello world");
        input.handle_key(code, modifiers);
        input.get_value()
    };

    assert_eq!(press(Key::Backspace, Modifiers::Other), "hello worl");
    assert_eq!(press(Key::Delete, Modifiers::Other), "hello world");
    assert_eq!(press(Key::Backspace, Modifiers::Control), "hello ");
    assert_eq!(press(Key::Char('k'), Modifiers::Control), "hello world");
    assert_eq!(press(Key::Char('u'), Modifiers::Control), "");
}

#[test]
fn cursor_marker_sits_at_the_caret() {
    let mut input = Input::new();
    input.set_focused(true);
    input.set_value("hello world");
    let line = input.render(40).remove(0);
    let marker_at = line.find(CURSOR_MARKER).expect("marker present");
    assert_eq!(
        visible_width(&line[..marker_at]),
        visible_width("> hello world"),
        "caret not at end: {line:?}"
    );
}

#[test]
fn cursor_marker_tracks_scrolled_multibyte_text() {
    let mut input = Input::new();
    input.set_focused(true);

    let long: String = "0123456789".repeat(6);
    input.set_value(&long);
    let line = input.render(20).remove(0);
    let marker_at = line.find(CURSOR_MARKER).expect("marker present");
    let caret_col = visible_width(&line[..marker_at]);
    let plain = strip_ansi(&line.replace(CURSOR_MARKER, ""));
    assert!(
        caret_col > visible_width("> "),
        "caret stuck at the prompt: col={caret_col}"
    );
    assert!(plain.contains("89"), "window lost the tail: {plain:?}");

    input.set_value("\u{4e2d}\u{6587}\u{6d4b}\u{8bd5}");
    let line = input.render(40).remove(0);
    let marker_at = line.find(CURSOR_MARKER).expect("marker present");
    assert_eq!(
        visible_width(&line[..marker_at]),
        visible_width("> \u{4e2d}\u{6587}\u{6d4b}\u{8bd5}")
    );
    assert!(strip_ansi(&line).contains("\u{4e2d}\u{6587}\u{6d4b}\u{8bd5}"));
}

#[test]
fn deletions_are_char_aware() {
    let mut input = Input::new();

    input.set_value("ab\u{4e2d}");
    key(&mut input, Key::Backspace);
    assert_eq!(input.get_value(), "ab");
    key(&mut input, Key::Backspace);
    assert_eq!(input.get_value(), "a");

    input.set_value("\u{4e2d}b");
    key(&mut input, Key::Left);
    key(&mut input, Key::Delete);
    assert_eq!(input.get_value(), "\u{4e2d}");
    key(&mut input, Key::Left);
    key(&mut input, Key::Delete);
    assert_eq!(input.get_value(), "");

    input.set_value("\u{4e2d}\u{6587}");
    key(&mut input, Key::Char('X'));
    assert_eq!(input.get_value(), "\u{4e2d}\u{6587}X");

    input.set_value("a\u{4e2d}b");
    key(&mut input, Key::Left);
    key(&mut input, Key::Char('X'));
    assert_eq!(input.get_value(), "a\u{4e2d}Xb");
    key(&mut input, Key::Backspace);
    assert_eq!(input.get_value(), "a\u{4e2d}b");
    key(&mut input, Key::Backspace);
    assert_eq!(input.get_value(), "ab");
}

#[test]
fn typed_words_are_undone_together() {
    let mut input = Input::default();
    for c in ['a', 'b', ' ', 'c'] {
        key(&mut input, Key::Char(c));
    }
    assert_eq!(input.get_value(), "ab c");
    input.handle_key(Key::Char('_'), Modifiers::Control);
    assert_eq!(input.get_value(), "ab");
    input.handle_key(Key::Char('/'), Modifiers::Control);
    assert_eq!(input.get_value(), "");
    input.undo();
    assert_eq!(input.get_value(), "");
}

#[test]
fn killed_text_comes_back() {
    let mut input = Input::new();
    input.set_value("hello brave world");
    input.handle_key(Key::Left, Modifiers::Control);
    input.handle_key(Key::Char('k'), Modifiers::Control);
    assert_eq!(input.get_value(), "hello brave ");
    input.handle_key(Key::Char('u'), Modifiers::Control);
    assert_eq!(input.get_value(), "");
    input.handle_key(Key::Char('y'), Modifiers::Control);
    assert_eq!(input.get_value(), "hello brave world");
    input.handle_key(Key::Home, Modifiers::Other);
    input.handle_key(Key::Char('d'), Modifiers::Alt);
    assert_eq!(input.get_value(), " brave world");
    input.handle_key(Key::Char('y'), Modifiers::Control);
    assert_eq!(input.get_value(), "hello brave world");
    input.yank_pop();
    assert_eq!(input.get_value(), "hello brave world brave world");
}

#[test]
fn keys_move_and_listeners_are_told() {
    let mut input = Input::with_prompt("$ ");
    input.on_change(1);
    input.on_submit(2);
    input.on_escape(3);
    assert!(matches!(
        input.handle_key(Key::Char('x'), Modifiers::Other),
        Some(InputEvent::Changed { listener: 1, value }) if value == "x"
    ));
    assert!(matches!(
        input.handle_key(Key::Enter, Modifiers::Other),
        Some(InputEvent::Submitted { listener: 2, value }) if value == "x"
    ));
    assert!(matches!(
        input.handle_key(Key::Escape, Modifiers::Other),
        Some(InputEvent::Escaped { listener: 3 })
    ));
    assert!(input.handle_key(Key::Home, Modifiers::Other).is_none());
    assert!(input.handle_key(Key::Backspace, Modifiers::Other).is_none());
    assert!(input.handle_key(Key::Other, Modifiers::Other).is_none());
    assert_eq!(input.state.cursor, 0);
    key(&mut input, Key::Right);
    assert_eq!(input.state.cursor, 1);
    input.handle_key(Key::Char('b'), Modifiers::Control);
    assert_eq!(input.state.cursor, 0);
    input.handle_key(Key::Char('f'), Modifiers::Alt);
    assert_eq!(input.state.cursor, 1);
    input.handle_key(Key::Char('a'), Modifiers::Control);
    assert_eq!(input.state.cursor, 0);
    input.handle_key(Key::Char('e'), Modifiers::Control);
    assert_eq!(input.state.cursor, 1);
    assert_eq!(input.render(1), vec!["$ ".to_string()]);
    assert_eq!(input.render(10), vec!["$ x \u{1b}[0m".to_string()]);
    input.set_focused(true);
    assert!(input.is_focused());
    assert_eq!(
        input.render(10),
        vec![format!("$ x{CURSOR_MARKER}\u{1b}[7m \u{1b}[27m\u{1b}[0m")]
    );
}

#[test]
fn pasted_text_stays_on_one_line() {
    let mut input = Input::new();
    input.handle_paste("a\r\nb\rc\nd\te");
    assert_eq!(input.get_value(), "abcd    e");
    assert!(input.handle_paste("\n").is_none());
}

#[test]
fn the_window_follows_the_caret() {
    let mut input = Input::new();
    input.set_value("0123456789");
    input.handle_key(Key::Home, Modifiers::Other);
    assert_eq!(input.render(7), vec!["> 01234\u{1b}[0m".to_string()]);
    input.handle_key(Key::End, Modifiers::Other);
    assert_eq!(input.render(7), vec!["> 6789 \u{1b}[0m".to_string()]);
    assert_eq!(input.render(3), vec![">  \u{1b}[0m".to_string()]);
}

#[test]
fn columns_count_wide_characters_twice() {
    assert_eq!(char_columns('a'), 1);
    assert_eq!(char_columns('\u{4e2d}'), 2);
    assert_eq!(char_columns('\u{301}'), 0);
    assert_eq!(visible_width("a\u{4e2d}"), 3);
    assert_eq!(visible_width("\u{1b}[31mred\u{1b}[0m"), 3);
    assert_eq!(visible_width(CURSOR_MARKER), 0);
    assert_eq!(slice_by_column("a\u{4e2d}b", 1, 2, true), "\u{4e2d}");
    assert_eq!(slice_by_column("a\u{4e2d}b", 0, 2, true), "a");
    assert_eq!(slice_by_column("a\u{4e2d}b", 0, 2, false), "a\u{4e2d}");
    assert_eq!(strip_ansi("a\u{1b}]0;t\u{1b}\\b"), "ab");
    assert_eq!(strip_ansi("x\u{1b}"), "x");
}

#[test]
fn words_are_found_both_ways() {
    assert_eq!(find_word_backward("hello world", 11), 6);
    assert_eq!(find_word_backward("hello world  ", 13), 6);
    assert_eq!(find_word_backward("a.b", 2), 1);
    assert_eq!(find_word_backward("", 0), 0);
    assert_eq!(find_word_forward("hello world", 0), 5);
    assert_eq!(find_word_forward("hello world", 5), 11);
    assert_eq!(find_word_forward("hello", 5), 5);
}

#[test]
fn the_kill_ring_accumulates_and_rotates() {
    let mut ring = KillRing::new();
    assert_eq!(ring.peek(), None);
    ring.push("b", false, false);
    ring.push("c", false, true);
    ring.push("a", true, true);
    assert_eq!(ring.peek(), Some("abc"));
    ring.push("", false, false);
    assert_eq!(ring.len(), 1);
    ring.push("z", false, false);
    assert_eq!(ring.peek(), Some("z"));
    ring.rotate();
    assert_eq!(ring.peek(), Some("abc"));
    assert_eq!(ring.len(), 2);
}

#[test]
fn test_search_bar_hidden() {
    let bar = SearchBar::new();
    assert_eq!(bar.render(80).len(), 0);
}

#[test]
fn test_search_bar_visible() {
    let mut bar = SearchBar::new();
    bar.set_visible(true);
    bar.set_query("test");
    bar.set_match_info(0, 5);
    let lines = bar.render(80);
    assert_eq!(lines.len(), 1);
    assert!(lines[0].contains("test"));
    assert!(lines[0].contains("1/5"));
}

#[test]
fn the_search_bar_fills_its_width() {
    let mut bar = SearchBar::default();
    assert!(!bar.is_visible());
    bar.set_visible(true);
    bar.set_query("x");
    let line = bar.render(40).remove(0);
    assert_eq!(line.chars().count(), 40);
    assert!(line.contains("No matches"));
    bar.set_query("");
    assert_eq!(bar.render(5), vec!["🔍 Search:    ".to_string()]);
    bar.set_styles(
        Style { open: "<".to_string(), close: ">".to_string() },
        Style { open: "[".to_string(), close: "]".to_string() },
    );
    bar.set_match_info(2, 3);
    assert_eq!(bar.render(5), vec!["<🔍 Search: > [3/3]  ".to_string()]);
}

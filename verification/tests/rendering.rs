use rolling_lines::mode::Mode;
use rolling_lines::multi_line::MultiLine;
use rolling_lines::policy::ResetPolicy;
use rolling_lines::renderer::Renderer;
use rolling_lines::single_line::SingleLine;
use rolling_lines::terminal::{encode_ops, TermOp};
use rolling_lines::window::Window;

/// A terminal of character cells that understands what the renderer writes.
struct Screen {
    rows: Vec<Vec<char>>,
    row: usize,
    col: usize,
}

fn blank_screen() -> Screen {
    Screen { rows: Vec::new(), row: 0, col: 0 }
}

fn feed(screen: &mut Screen, written: &str) {
    let chars: Vec<char> = written.chars().collect();
    let mut i = 0;
    while i < chars.len() {
        let c = chars[i];
        if c == '\r' {
            screen.col = 0;
        } else if c == '\n' {
            screen.row += 1;
            screen.col = 0;
        } else if c == '\u{1b}' {
            assert_eq!(chars[i + 1], '[');
            let mut j = i + 2;
            let mut n = 0usize;
            while chars[j].is_ascii_digit() {
                n = n * 10 + chars[j].to_digit(10).unwrap() as usize;
                j += 1;
            }
            assert_eq!(chars[j], 'A');
            let by = if n == 0 { 1 } else { n };
            screen.row = screen.row.saturating_sub(by);
            i = j;
        } else {
            while screen.rows.len() <= screen.row {
                screen.rows.push(Vec::new());
            }
            let cells = &mut screen.rows[screen.row];
            while cells.len() <= screen.col {
                cells.push(' ');
            }
            cells[screen.col] = c;
            screen.col += 1;
        }
        i += 1;
    }
}

fn visible(screen: &Screen) -> Vec<String> {
    screen
        .rows
        .iter()
        .map(|cells| cells.iter().collect::<String>().trim_end_matches(' ').to_string())
        .collect()
}

fn run(renderer: &mut Renderer, lines: &[&str]) -> Screen {
    let mut screen = blank_screen();
    for line in lines {
        let ops = renderer.consume(line);
        feed(&mut screen, &encode_ops(&ops));
    }
    screen
}

fn text(s: &str) -> TermOp {
    TermOp::Text(String::from(s))
}

#[test]
fn renderer_mode_follows_stream_and_window() {
    assert_eq!(Renderer::new(false, 3, ResetPolicy::Never).mode(), Mode::Passthrough);
    assert_eq!(Renderer::new(true, 0, ResetPolicy::Never).mode(), Mode::Passthrough);
    assert_eq!(Renderer::new(true, 1, ResetPolicy::Never).mode(), Mode::SingleLine);
    assert_eq!(Renderer::new(true, 2, ResetPolicy::Never).mode(), Mode::MultiLine);
}

#[test]
fn renderer_for_stdout_passes_through_a_window_of_no_lines() {
    assert_eq!(Renderer::for_stdout(0, ResetPolicy::Never).mode(), Mode::Passthrough);
}

#[test]
fn renderer_for_stdout_is_one_of_the_two_renderers_for_the_window() {
    let single = Renderer::for_stdout(1, ResetPolicy::Never).mode();
    assert!(single == Mode::Passthrough || single == Mode::SingleLine);
    let multi = Renderer::for_stdout(4, ResetPolicy::Never).mode();
    assert!(multi == Mode::Passthrough || multi == Mode::MultiLine);
}

#[test]
fn passthrough_echoes_every_line() {
    let mut renderer = Renderer::new(false, 3, ResetPolicy::resolve(Some("SKIP"), false));
    assert_eq!(renderer.consume("hello"), vec![text("hello"), TermOp::Newline]);
    assert_eq!(renderer.consume("SKIP"), vec![text("SKIP"), TermOp::Newline]);
    assert_eq!(renderer.consume(""), vec![text(""), TermOp::Newline]);
    assert_eq!(renderer.mode(), Mode::Passthrough);
}

#[test]
fn passthrough_output_is_the_input() {
    let mut renderer = Renderer::new(true, 0, ResetPolicy::Never);
    let lines = vec![String::from("one"), String::from("two")];
    let ops = renderer.consume_all(&lines);
    assert_eq!(encode_ops(&ops), "one\ntwo\n");
}

#[test]
fn single_line_pads_exactly_the_difference() {
    let mut renderer = Renderer::new(true, 1, ResetPolicy::Never);
    assert_eq!(
        renderer.consume("aaaaaa"),
        vec![TermOp::CarriageReturn, text("aaaaaa"), TermOp::CarriageReturn, TermOp::Flush]
    );
    assert_eq!(
        renderer.consume("bbb"),
        vec![
            TermOp::CarriageReturn,
            text("bbb"),
            TermOp::Spaces(3),
            TermOp::CarriageReturn,
            TermOp::Flush
        ]
    );
    assert_eq!(
        renderer.consume("cccccccc"),
        vec![TermOp::CarriageReturn, text("cccccccc"), TermOp::CarriageReturn, TermOp::Flush]
    );
    assert_eq!(
        renderer.consume("ddd"),
        vec![
            TermOp::CarriageReturn,
            text("ddd"),
            TermOp::Spaces(5),
            TermOp::CarriageReturn,
            TermOp::Flush
        ]
    );
}

#[test]
fn single_line_written_characters() {
    let mut renderer = Renderer::new(true, 1, ResetPolicy::Never);
    let lines: Vec<String> =
        ["aaaaaa", "bbb", "cccccccc", "ddd"].iter().map(|s| s.to_string()).collect();
    let ops = renderer.consume_all(&lines);
    assert_eq!(encode_ops(&ops), "\raaaaaa\r\rbbb   \r\rcccccccc\r\rddd     \r");
}

#[test]
fn single_line_screen_converges_to_the_last_line() {
    let mut renderer = Renderer::new(true, 1, ResetPolicy::Never);
    let screen = run(&mut renderer, &["aaaaaa", "bbb", "cccccccc", "ddd"]);
    assert_eq!(visible(&screen), vec!["ddd"]);
    assert_eq!((screen.row, screen.col), (0, 0));
}

#[test]
fn single_line_same_width_needs_no_padding() {
    let mut renderer = Renderer::new(true, 1, ResetPolicy::Never);
    renderer.consume("abc");
    assert_eq!(
        renderer.consume("xyz"),
        vec![TermOp::CarriageReturn, text("xyz"), TermOp::CarriageReturn, TermOp::Flush]
    );
}

#[test]
fn single_line_width_is_counted_in_characters() {
    let mut renderer = Renderer::new(true, 1, ResetPolicy::Never);
    renderer.consume("\u{e9}\u{e9}\u{e9}\u{e9}");
    assert_eq!(
        renderer.consume("ab"),
        vec![
            TermOp::CarriageReturn,
            text("ab"),
            TermOp::Spaces(2),
            TermOp::CarriageReturn,
            TermOp::Flush
        ]
    );
}

#[test]
fn single_line_reset_ends_the_row_and_forgets_its_width() {
    let mut renderer = Renderer::new(true, 1, ResetPolicy::resolve(Some("MARK"), false));
    renderer.consume("first");
    renderer.consume("second");
    assert_eq!(renderer.consume("MARK"), vec![TermOp::Newline, TermOp::Flush]);
    assert_eq!(
        renderer.consume("x"),
        vec![TermOp::CarriageReturn, text("x"), TermOp::CarriageReturn, TermOp::Flush]
    );
}

#[test]
fn single_line_screen_keeps_what_a_reset_ended() {
    let mut renderer = Renderer::new(true, 1, ResetPolicy::resolve(Some("MARK"), false));
    let screen = run(&mut renderer, &["first", "second", "MARK", "third", "fourth"]);
    assert_eq!(visible(&screen), vec!["second", "fourth"]);
}

#[test]
fn single_line_state_directly() {
    let mut state = SingleLine::new();
    assert_eq!(state.prev_width(), 0);
    state.consume("hello", false);
    assert_eq!(state.prev_width(), 5);
    let ops = state.consume("hi", false);
    assert_eq!(
        ops,
        vec![
            TermOp::CarriageReturn,
            text("hi"),
            TermOp::Spaces(3),
            TermOp::CarriageReturn,
            TermOp::Flush
        ]
    );
    assert_eq!(state.prev_width(), 2);
    assert_eq!(state.consume("ignored", true), vec![TermOp::Newline, TermOp::Flush]);
    assert_eq!(state.prev_width(), 0);
}

#[test]
fn multi_line_fills_then_slides() {
    let mut renderer = Renderer::new(true, 2, ResetPolicy::Never);
    assert_eq!(renderer.consume("L1"), vec![text("L1"), TermOp::Newline, TermOp::Flush]);
    assert_eq!(
        renderer.consume("L2"),
        vec![
            TermOp::CursorUp(1),
            text("L1"),
            TermOp::Newline,
            text("L2"),
            TermOp::Newline,
            TermOp::Flush
        ]
    );
    assert_eq!(
        renderer.consume("L3"),
        vec![
            TermOp::CursorUp(2),
            text("L2"),
            TermOp::Newline,
            text("L3"),
            TermOp::Newline,
            TermOp::Flush
        ]
    );
}

#[test]
fn multi_line_written_characters() {
    let mut renderer = Renderer::new(true, 2, ResetPolicy::Never);
    let lines: Vec<String> = ["abc", "de", "f"].iter().map(|s| s.to_string()).collect();
    let ops = renderer.consume_all(&lines);
    assert_eq!(encode_ops(&ops), "abc\n\u{1b}[1Aabc\nde\n\u{1b}[2Ade \nf \n");
}

#[test]
fn multi_line_pads_each_row_by_its_own_difference() {
    let mut renderer = Renderer::new(true, 3, ResetPolicy::Never);
    renderer.consume("a long line");
    renderer.consume("mid");
    renderer.consume("the longest line of all");
    assert_eq!(
        renderer.consume("z"),
        vec![
            TermOp::CursorUp(3),
            text("mid"),
            TermOp::Spaces(8),
            TermOp::Newline,
            text("the longest line of all"),
            TermOp::Newline,
            text("z"),
            TermOp::Spaces(22),
            TermOp::Newline,
            TermOp::Flush
        ]
    );
}

#[test]
fn multi_line_screen_shows_the_last_lines() {
    let mut renderer = Renderer::new(true, 3, ResetPolicy::Never);
    let screen = run(&mut renderer, &["L1", "L2", "L3", "L4", "L5"]);
    assert_eq!(visible(&screen), vec!["L3", "L4", "L5"]);
    assert_eq!((screen.row, screen.col), (3, 0));
}

#[test]
fn multi_line_screen_leaves_no_stale_characters() {
    let mut renderer = Renderer::new(true, 2, ResetPolicy::Never);
    let screen = run(
        &mut renderer,
        &["a very long first line", "a long second line", "short", "s", "", "x"],
    );
    assert_eq!(visible(&screen), vec!["", "x"]);
}

#[test]
fn multi_line_screen_while_the_window_fills() {
    let mut renderer = Renderer::new(true, 5, ResetPolicy::Never);
    let screen = run(&mut renderer, &["one", "two"]);
    assert_eq!(visible(&screen), vec!["one", "two"]);
    assert_eq!((screen.row, screen.col), (2, 0));
}

#[test]
fn multi_line_reset_blanks_the_block() {
    let mut renderer = Renderer::new(true, 3, ResetPolicy::resolve(Some("SKIP"), false));
    renderer.consume("A1");
    renderer.consume("A22");
    assert_eq!(
        renderer.consume("SKIP"),
        vec![
            TermOp::CursorUp(2),
            TermOp::Spaces(2),
            TermOp::Newline,
            TermOp::Spaces(3),
            TermOp::Newline,
            TermOp::Flush
        ]
    );
    assert_eq!(renderer.consume("B1"), vec![text("B1"), TermOp::Newline, TermOp::Flush]);
}

#[test]
fn multi_line_reset_with_nothing_drawn_writes_nothing() {
    let mut renderer = Renderer::new(true, 3, ResetPolicy::resolve(Some("SKIP"), false));
    assert_eq!(renderer.consume("SKIP"), Vec::<TermOp>::new());
    renderer.consume("A1");
    renderer.consume("SKIP");
    assert_eq!(renderer.consume("SKIP again"), Vec::<TermOp>::new());
}

#[test]
fn multi_line_screen_after_resets() {
    let mut renderer = Renderer::new(true, 2, ResetPolicy::resolve(Some("SKIP"), false));
    let screen = run(
        &mut renderer,
        &["X1", "X2", "SKIP", "Y1", "Y2", "Y3", "Y4", "SKIP", "Z1"],
    );
    assert_eq!(visible(&screen), vec!["", "", "", "", "Z1"]);
    assert_eq!((screen.row, screen.col), (5, 0));
}

#[test]
fn multi_line_never_draws_a_reset_line() {
    let mut renderer = Renderer::new(true, 2, ResetPolicy::resolve(Some("SKIP"), false));
    let lines: Vec<String> =
        ["a", "SKIP 1", "b", "c", "2 SKIP", "d"].iter().map(|s| s.to_string()).collect();
    let ops = renderer.consume_all(&lines);
    for op in &ops {
        if let TermOp::Text(t) = op {
            assert!(!t.contains("SKIP"));
        }
    }
    assert!(!encode_ops(&ops).contains("SKIP"));
}

#[test]
fn blank_line_policy_resets_the_block() {
    let mut renderer = Renderer::new(true, 2, ResetPolicy::BlankLine);
    renderer.consume("one");
    assert_eq!(
        renderer.consume("   "),
        vec![TermOp::CursorUp(1), TermOp::Spaces(3), TermOp::Newline, TermOp::Flush]
    );
    assert_eq!(renderer.consume("two"), vec![text("two"), TermOp::Newline, TermOp::Flush]);
}

#[test]
fn multi_line_state_directly() {
    let mut state = MultiLine::new(2);
    assert_eq!(state.printed_count(), 0);
    assert_eq!(state.window().len(), 0);
    state.consume("one", false);
    assert_eq!(state.printed_count(), 1);
    state.consume("two", false);
    state.consume("three", false);
    assert_eq!(state.printed_count(), 2);
    assert_eq!(state.window().len(), 2);
    assert_eq!(state.window().line(0), "two");
    assert_eq!(state.window().line(1), "three");
    state.consume("whatever", true);
    assert_eq!(state.printed_count(), 0);
    assert!(state.window().is_empty());
}

#[test]
fn consume_all_is_consume_line_by_line() {
    let lines: Vec<String> =
        ["a", "bb", "SKIP", "ccc", "d", "ee"].iter().map(|s| s.to_string()).collect();
    let mut whole = Renderer::new(true, 2, ResetPolicy::resolve(Some("SKIP"), false));
    let mut stepwise = Renderer::new(true, 2, ResetPolicy::resolve(Some("SKIP"), false));
    let all = whole.consume_all(&lines);
    let mut pieces: Vec<TermOp> = Vec::new();
    for line in &lines {
        pieces.extend(stepwise.consume(line));
    }
    assert_eq!(all, pieces);
}

#[test]
fn operations_are_written_as_their_control_sequences() {
    assert_eq!(text("plain").encode(), "plain");
    assert_eq!(TermOp::Spaces(0).encode(), "");
    assert_eq!(TermOp::Spaces(4).encode(), "    ");
    assert_eq!(TermOp::CursorUp(1).encode(), "\u{1b}[1A");
    assert_eq!(TermOp::CursorUp(12).encode(), "\u{1b}[12A");
    assert_eq!(TermOp::CursorUp(305).encode(), "\u{1b}[305A");
    assert_eq!(TermOp::CarriageReturn.encode(), "\r");
    assert_eq!(TermOp::Newline.encode(), "\n");
    assert_eq!(TermOp::Flush.encode(), "");
    assert_eq!(encode_ops(&Vec::new()), "");
}

#[test]
fn window_keeps_the_most_recent_lines() {
    let mut window = Window::new(3);
    assert_eq!(window.capacity(), 3);
    assert!(window.is_empty());
    for line in ["L1", "L2", "L3", "L4", "L5"] {
        window.push(String::from(line));
        assert!(window.len() <= 3);
    }
    assert_eq!(window.len(), 3);
    assert_eq!(window.line(0), "L3");
    assert_eq!(window.line(1), "L4");
    assert_eq!(window.line(2), "L5");
}

#[test]
fn window_widths_count_characters() {
    let mut window = Window::new(4);
    window.push(String::from(""));
    window.push(String::from("abc"));
    window.push(String::from("\u{e9}\u{e9}"));
    assert_eq!(window.widths(), vec![0, 3, 2]);
}

#[test]
fn window_of_no_lines_stays_empty() {
    let mut window = Window::new(0);
    window.push(String::from("a"));
    assert!(window.is_empty());
    assert_eq!(window.len(), 0);
}

#[test]
fn window_drains_oldest_first() {
    let mut window = Window::new(2);
    window.push(String::from("a"));
    window.push(String::from("b"));
    window.push(String::from("c"));
    let mut out = vec![String::from("before")];
    window.drain_into(&mut out);
    assert_eq!(out, vec!["before", "b", "c"]);
    assert!(window.is_empty());
    assert_eq!(window.capacity(), 2);
    window.clear();
    assert!(window.is_empty());
}

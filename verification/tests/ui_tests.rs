use snaglord::app::App;
use snaglord::block::CommandBlock;
use snaglord::styled::{Color, Line, Style};
use snaglord::ui::{command_list_lines, match_highlight, output_content, output_title, PaneContent};

fn block(cmd: &str) -> CommandBlock {
    CommandBlock {
        command: cmd.to_string(),
        clean_command: cmd.to_string(),
        command_text: cmd.to_string(),
        output: String::new(),
    }
}

fn text(line: &Line) -> String {
    line.spans.iter().map(|s| s.content.as_str()).collect()
}

/// The characters of the row drawn in the highlight style.
fn highlighted(line: &Line) -> String {
    line.spans
        .iter()
        .filter(|s| s.style == match_highlight())
        .map(|s| s.content.as_str())
        .collect()
}

fn row(cmd: &str) -> String {
    let app = App::new(vec![block(cmd)]);
    text(&command_list_lines(&app)[0])
}

#[test]
fn highlight_style_is_yellow() {
    assert_eq!(match_highlight(), Style { fg: Some(Color::Yellow) });
}

#[test]
fn short_commands_are_shown_whole() {
    assert_eq!(row("ls"), "  1 ls");
    let blocks: Vec<CommandBlock> = (0..1000).map(|i| block(&format!("c{}", i))).collect();
    let app = App::new(blocks);
    let lines = command_list_lines(&app);
    assert_eq!(text(&lines[41]), " 42 c41");
    assert_eq!(text(&lines[999]), "1000 c999");
}

#[test]
fn forty_bytes_are_still_shown_whole() {
    let cmd = "a".repeat(40);
    assert_eq!(row(&cmd), format!("  1 {}", cmd));
}

#[test]
fn long_commands_are_cut_after_39_bytes() {
    let cmd = "b".repeat(41);
    assert_eq!(row(&cmd), format!("  1 {}\u{2026}", "b".repeat(39)));
}

#[test]
fn cut_counts_bytes_not_characters() {
    // 19 two-byte characters make 38 bytes; the 39th byte is the plain 'z'.
    let cmd = format!("{}z{}", "é".repeat(19), "y".repeat(5));
    assert_eq!(row(&cmd), format!("  1 {}z\u{2026}", "é".repeat(19)));
}

#[test]
fn nothing_is_highlighted_without_a_query() {
    let app = App::new(vec![block("git status")]);
    let lines = command_list_lines(&app);
    assert_eq!(highlighted(&lines[0]), "");
    assert!(lines[0].spans.iter().all(|s| s.style == Style { fg: None }));
}

#[test]
fn matched_characters_are_highlighted() {
    let mut app = App::new(vec![block("git status"), block("cargo build")]);
    for c in "gst".chars() {
        app.on_search_input(c);
    }
    assert_eq!(app.filtered_indices, vec![0]);
    let lines = command_list_lines(&app);
    assert_eq!(lines.len(), 1);
    assert_eq!(text(&lines[0]), "  1 git status");
    assert_eq!(highlighted(&lines[0]), "gst");
    for s in &lines[0].spans {
        assert!(s.style == match_highlight() || s.style == Style { fg: None });
    }
}

#[test]
fn output_matches_highlight_nothing_in_the_command() {
    let mut app = App::new(vec![CommandBlock {
        command: "ls".to_string(),
        clean_command: "ls".to_string(),
        command_text: "ls".to_string(),
        output: "zebra".to_string(),
    }]);
    for c in "zeb".chars() {
        app.on_search_input(c);
    }
    assert_eq!(app.filtered_indices, vec![0]);
    let lines = command_list_lines(&app);
    assert_eq!(highlighted(&lines[0]), "");
}

#[test]
fn title_names_the_selected_block() {
    let app = App::new(vec![block("a"), block("b")]);
    assert_eq!(output_title(&app), " Output (1/2) [y: copy] ");
}

#[test]
fn title_follows_the_filter() {
    let mut app = App::new(vec![block("alpha"), block("beta")]);
    app.on_search_input('b');
    assert_eq!(output_title(&app), " Output (2/2) [y: copy] ");
}

#[test]
fn title_without_selection() {
    let app = App::new(Vec::new());
    assert_eq!(output_title(&app), " Output ");
}

#[test]
fn content_follows_the_selected_block() {
    let mut app = App::new(vec![block("a"), block("b")]);
    assert_eq!(output_content(&app), PaneContent::Output(0));
    app.next();
    assert_eq!(output_content(&app), PaneContent::Output(1));
    app.selected = Some(5);
    assert_eq!(output_content(&app), PaneContent::NoSelection);
    assert_eq!(output_title(&app), " Output ");
    app.selected = None;
    assert_eq!(output_content(&app), PaneContent::Hint);
}

#[test]
fn content_shows_the_filtered_block() {
    let mut app = App::new(vec![block("alpha"), block("beta")]);
    app.on_search_input('b');
    assert_eq!(app.filtered_indices, vec![1]);
    assert_eq!(app.selected, Some(0));
    assert_eq!(output_content(&app), PaneContent::Output(1));
}

#[test]
fn list_rows_follow_the_filter() {
    let mut app = App::new(vec![block("alpha"), block("beta"), block("gamma")]);
    let all: Vec<String> = command_list_lines(&app).iter().map(text).collect();
    assert_eq!(all, vec!["  1 alpha", "  2 beta", "  3 gamma"]);
    app.on_search_input('m');
    assert_eq!(app.filtered_indices, vec![2]);
    let rows: Vec<String> = command_list_lines(&app).iter().map(text).collect();
    assert_eq!(rows, vec!["  3 gamma"]);
}

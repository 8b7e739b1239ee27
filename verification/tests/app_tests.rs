use snaglord::app::App;
use snaglord::block::CommandBlock;

fn block(command: &str, output: &str) -> CommandBlock {
    CommandBlock {
        command: format!("$ {}", command),
        clean_command: command.to_string(),
        command_text: command.to_string(),
        output: output.to_string(),
    }
}

fn sample() -> App {
    App::new(vec![
        block("git status", "On branch main\nnothing to commit"),
        block("ls -la", "total 0\n\x1b[34mdrwxr-xr-x\x1b[0m ."),
        block("cargo build", "Compiling snaglord\nFinished"),
    ])
}

#[test]
fn new_selects_first_and_lists_all() {
    let app = sample();
    assert_eq!(app.selected, Some(0));
    assert_eq!(app.filtered_indices, vec![0, 1, 2]);
    assert_eq!(app.scroll_offset, 0);
    assert!(app.search_query.is_empty());
    assert!(!app.is_searching);
}

#[test]
fn new_without_blocks_selects_nothing() {
    let app = App::new(Vec::new());
    assert_eq!(app.selected, None);
    assert!(app.filtered_indices.is_empty());
    assert_eq!(app.get_selected_output(), None);
    assert!(app.get_selected_block().is_none());
}

#[test]
fn next_wraps_to_first() {
    let mut app = sample();
    app.next();
    assert_eq!(app.selected, Some(1));
    app.next();
    assert_eq!(app.selected, Some(2));
    app.next();
    assert_eq!(app.selected, Some(0));
}

#[test]
fn previous_wraps_to_last() {
    let mut app = sample();
    app.previous();
    assert_eq!(app.selected, Some(2));
    app.previous();
    assert_eq!(app.selected, Some(1));
}

#[test]
fn previous_undoes_next() {
    let mut app = sample();
    for start in 0..3 {
        app.selected = Some(start);
        app.next();
        app.previous();
        assert_eq!(app.selected, Some(start));
    }
}

#[test]
fn moving_resets_scroll() {
    let mut app = sample();
    app.scroll_down();
    app.scroll_down();
    assert_eq!(app.scroll_offset, 2);
    app.next();
    assert_eq!(app.scroll_offset, 0);
}

#[test]
fn moving_in_empty_list_changes_nothing() {
    let mut app = App::new(Vec::new());
    app.scroll_offset = 3;
    app.next();
    app.previous();
    assert_eq!(app.selected, None);
    assert_eq!(app.scroll_offset, 3);
}

#[test]
fn scrolling_saturates() {
    let mut app = sample();
    app.scroll_up();
    assert_eq!(app.scroll_offset, 0);
    app.scroll_offset = u16::MAX;
    app.scroll_down();
    assert_eq!(app.scroll_offset, u16::MAX);
    app.scroll_up();
    assert_eq!(app.scroll_offset, u16::MAX - 1);
}

#[test]
fn scroll_up_undoes_scroll_down() {
    let mut app = sample();
    app.scroll_offset = 41;
    app.scroll_down();
    app.scroll_up();
    assert_eq!(app.scroll_offset, 41);
}

#[test]
fn search_filters_by_command() {
    let mut app = sample();
    app.is_searching = true;
    for c in "git".chars() {
        app.on_search_input(c);
    }
    assert_eq!(app.search_query, "git");
    assert_eq!(app.filtered_indices, vec![0]);
    assert_eq!(app.selected, Some(0));
    assert!(app.is_searching);
}

#[test]
fn search_matches_stripped_output() {
    let mut app = sample();
    for c in "drwx".chars() {
        app.on_search_input(c);
    }
    assert_eq!(app.filtered_indices, vec![1]);
    assert_eq!(app.get_selected_command(), Some("ls -la".to_string()));
}

#[test]
fn search_without_match_selects_nothing() {
    let mut app = sample();
    for c in "zzzz".chars() {
        app.on_search_input(c);
    }
    assert!(app.filtered_indices.is_empty());
    assert_eq!(app.selected, None);
    assert_eq!(app.get_selected_full(), None);
}

#[test]
fn search_ties_keep_block_order() {
    let mut app = App::new(vec![block("echo x", ""), block("echo x", ""), block("echo x", "")]);
    app.on_search_input('x');
    assert_eq!(app.filtered_indices, vec![0, 1, 2]);
}

#[test]
fn search_orders_by_score() {
    let mut app = App::new(vec![
        block("xaxbxc", ""),
        block("abc", ""),
    ]);
    for c in "abc".chars() {
        app.on_search_input(c);
    }
    // The contiguous match scores higher and comes first.
    assert_eq!(app.filtered_indices, vec![1, 0]);
}

#[test]
fn backspace_undoes_input() {
    let mut app = sample();
    app.on_search_input('c');
    let before = app.filtered_indices.clone();
    app.on_search_input('q');
    assert!(app.filtered_indices.is_empty());
    app.on_search_backspace();
    assert_eq!(app.search_query, "c");
    assert_eq!(app.filtered_indices, before);
}

#[test]
fn backspace_on_empty_query_lists_all() {
    let mut app = sample();
    app.on_search_backspace();
    assert_eq!(app.search_query, "");
    assert_eq!(app.filtered_indices, vec![0, 1, 2]);
}

#[test]
fn clear_search_restores_full_list() {
    let mut app = sample();
    app.is_searching = true;
    app.on_search_input('l');
    app.on_search_input('s');
    app.next();
    app.clear_search();
    assert_eq!(app.search_query, "");
    assert!(!app.is_searching);
    assert_eq!(app.filtered_indices, vec![0, 1, 2]);
    assert_eq!(app.selected, Some(0));
    assert_eq!(app.scroll_offset, 0);
}

#[test]
fn update_search_results_resets_selection() {
    let mut app = sample();
    app.selected = Some(2);
    app.scroll_offset = 9;
    app.update_search_results();
    assert_eq!(app.selected, Some(0));
    assert_eq!(app.scroll_offset, 0);
}

#[test]
fn selected_output_is_stripped() {
    let mut app = sample();
    app.next();
    assert_eq!(app.get_selected_output(), Some("total 0\ndrwxr-xr-x .".to_string()));
}

#[test]
fn selected_command_is_command_text() {
    let app = sample();
    assert_eq!(app.get_selected_command(), Some("git status".to_string()));
}

#[test]
fn selected_full_joins_command_and_output() {
    let mut app = sample();
    app.next();
    assert_eq!(
        app.get_selected_full(),
        Some("$ ls -la\ntotal 0\ndrwxr-xr-x .".to_string())
    );
}

#[test]
fn selected_block_follows_filter() {
    let mut app = sample();
    for c in "cargo".chars() {
        app.on_search_input(c);
    }
    let b = app.get_selected_block().expect("a block is selected");
    assert_eq!(b.clean_command, "cargo build");
}

#[test]
fn selection_out_of_range_gives_nothing() {
    let mut app = sample();
    app.selected = Some(7);
    assert_eq!(app.get_selected_command(), None);
    app.filtered_indices = vec![9];
    app.selected = Some(0);
    assert_eq!(app.get_selected_output(), None);
}

#[test]
fn debug_view_numbers_and_escapes_lines() {
    let app = App::new(vec![CommandBlock {
        command: "\x1b[1m$\x1b[0m ls\r\nsecond".to_string(),
        clean_command: "$ ls\nsecond".to_string(),
        command_text: "ls".to_string(),
        output: "a\tb\n".to_string(),
    }]);
    let expected = "=== COMMAND (raw) ===\n  1| \\e[1m$\\e[0m ls\n  2| second\n\n=== COMMAND (clean) ===\n  1| $ ls\n  2| second\n\n=== OUTPUT (raw) ===\n  1| a\\tb\n";
    assert_eq!(app.get_selected_debug(), Some(expected.to_string()));
}

#[test]
fn debug_view_of_empty_output() {
    let app = App::new(vec![CommandBlock {
        command: "x".to_string(),
        clean_command: "x".to_string(),
        command_text: "x".to_string(),
        output: String::new(),
    }]);
    let expected = "=== COMMAND (raw) ===\n  1| x\n\n=== COMMAND (clean) ===\n  1| x\n\n=== OUTPUT (raw) ===\n(empty)\n";
    assert_eq!(app.get_selected_debug(), Some(expected.to_string()));
}

#[test]
fn debug_view_keeps_lone_carriage_return_and_blank_lines() {
    let app = App::new(vec![CommandBlock {
        command: "a\n\nb\r".to_string(),
        clean_command: String::new(),
        command_text: String::new(),
        output: "o".to_string(),
    }]);
    let expected = "=== COMMAND (raw) ===\n  1| a\n  2| \n  3| b\\r\n\n=== COMMAND (clean) ===\n\n=== OUTPUT (raw) ===\n  1| o\n";
    assert_eq!(app.get_selected_debug(), Some(expected.to_string()));
}

#[test]
fn debug_view_pads_numbers_to_three_columns() {
    let output: String = (1..=1000).map(|i| format!("l{}\n", i)).collect();
    let app = App::new(vec![CommandBlock {
        command: String::new(),
        clean_command: String::new(),
        command_text: String::new(),
        output,
    }]);
    let debug = app.get_selected_debug().unwrap();
    assert!(debug.contains("\n  9| l9\n"));
    assert!(debug.contains("\n 10| l10\n"));
    assert!(debug.contains("\n100| l100\n"));
    assert!(debug.ends_with("\n1000| l1000\n"));
}

#[test]
fn same_query_gives_same_results() {
    let mut a = sample();
    let mut b = sample();
    for c in "o".chars() {
        a.on_search_input(c);
        b.on_search_input(c);
    }
    a.update_search_results();
    assert_eq!(a.filtered_indices, b.filtered_indices);
}

#[test]
fn empty_query_lists_every_block_in_order() {
    let mut app = sample();
    app.filtered_indices = vec![2];
    app.update_search_results();
    assert_eq!(app.filtered_indices, vec![0, 1, 2]);
}

#[test]
fn typing_narrows_results() {
    let mut app = sample();
    let mut previous = app.filtered_indices.clone();
    for c in "nis".chars() {
        app.on_search_input(c);
        for d in &app.filtered_indices {
            assert!(previous.contains(d));
        }
        previous = app.filtered_indices.clone();
    }
    assert_eq!(app.search_query, "nis");
}

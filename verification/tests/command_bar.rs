use qust::command_bar::{
    apply_selected_completion, completion_list_height, completion_row, entry_action,
    format_terminal_output, hex_byte, hex_digit, mode_uses_block_cursor, mode_uses_entry,
    readable_percent_encoding, select_next_completion, select_previous_completion,
    should_open_unique_tab, shows_command_completions, tab_search_query, tab_search_row,
    terminal_command, terminal_start_failure, url_label, visible_suggestion_count, EntryAction,
    TerminalOutput, UrlLabel,
};
use qust::commands::command_suggestions;
use qust::modes::Mode;

#[test]
fn unique_tab_opens_only_after_query_input() {
    assert!(!should_open_unique_tab("", 1));
    assert!(!should_open_unique_tab("vik", 2));
    assert!(should_open_unique_tab("v", 1));
}

#[test]
fn terminal_command_removes_prompt_and_whitespace() {
    assert_eq!(terminal_command("  ! printf hello  "), "printf hello");
    assert_eq!(terminal_command("pwd"), "pwd");
}

#[test]
fn terminal_output_contains_status_and_both_streams() {
    let output = TerminalOutput {
        command: "test command".to_string(),
        status: Some(2),
        stdout: "output\n".to_string(),
        stderr: "error\n".to_string(),
    };

    let formatted = format_terminal_output(&output);
    assert!(formatted.contains("$ test command"));
    assert!(formatted.contains("exit: 2"));
    assert!(formatted.contains("stdout:\noutput"));
    assert!(formatted.contains("stderr:\nerror"));
}

#[test]
fn url_display_decodes_unicode_but_keeps_ascii_escapes() {
    assert_eq!(
        readable_percent_encoding("?q=%D1%84%D0%B8%D1%87%D0%B0%20one"),
        "?q=фича one"
    );
    assert_eq!(readable_percent_encoding("/one%2Ftwo"), "/one%2Ftwo");
}

#[test]
fn broken_escapes_stay_as_written() {
    assert_eq!(readable_percent_encoding("100%"), "100%");
    assert_eq!(readable_percent_encoding("%zz%4"), "%zz%4");
    assert_eq!(readable_percent_encoding("%D1"), "%D1");
    assert_eq!(readable_percent_encoding("%e2%82%ac!"), "€!");
}

#[test]
fn terminal_report_for_a_signal_and_empty_streams() {
    let output = TerminalOutput {
        command: "sleep 9".to_string(),
        status: None,
        stdout: String::new(),
        stderr: String::new(),
    };
    assert_eq!(format_terminal_output(&output), "$ sleep 9\n\nexit: signal");
    let output = TerminalOutput { command: "x".to_string(), status: Some(-1), stdout: "o".to_string(), stderr: String::new() };
    assert_eq!(format_terminal_output(&output), "$ x\n\nexit: -1\n\nstdout:\no");
    assert_eq!(terminal_start_failure("no shell"), "Failed to start command:\nno shell");
}

#[test]
fn url_label_splits_origin_from_the_rest() {
    match url_label("https://docs.example.com/path?q=one&x=two") {
        UrlLabel::Split { origin, detail } => {
            assert_eq!(origin, "docs.example.com");
            assert_eq!(detail, "/path?q=one&x=two");
        }
        other => panic!("unexpected {:?}", other),
    }
    match url_label("http://a.test#top") {
        UrlLabel::Split { origin, detail } => {
            assert_eq!(origin, "http://a.test");
            assert_eq!(detail, "#top");
        }
        other => panic!("unexpected {:?}", other),
    }
    assert!(matches!(url_label(""), UrlLabel::Empty));
    assert!(matches!(url_label("about:blank"), UrlLabel::Plain(p) if p == "about:blank"));
}

#[test]
fn completion_selection_wraps() {
    assert_eq!(select_next_completion(7, 8), Some(0));
    assert_eq!(select_next_completion(2, 8), Some(3));
    assert_eq!(select_previous_completion(0, 3), Some(2));
    assert_eq!(select_next_completion(0, 0), None);
    assert_eq!(select_previous_completion(0, 0), None);
    assert_eq!(visible_suggestion_count(12), 8);
    assert_eq!(completion_list_height(3), 78);
    assert_eq!(completion_list_height(20), 188);
}

#[test]
fn chosen_completion_gets_a_space_for_arguments() {
    let suggestions = command_suggestions(":op");
    assert_eq!(apply_selected_completion(&suggestions, 0), Some(":open ".to_string()));
    let suggestions = command_suggestions(":clo");
    assert_eq!(apply_selected_completion(&suggestions, 9), Some(":close".to_string()));
    assert_eq!(apply_selected_completion(&Vec::new(), 0), None);
}

#[test]
fn completion_rows_show_aliases_and_usage() {
    let suggestions = command_suggestions(":tabo");
    let (command, description) = completion_row(&suggestions[0], true);
    assert_eq!(command, "> :tabopen [tabnew, to]");
    assert_eq!(description, ":tabopen [URL] - Open a new tab");
    let suggestions = command_suggestions(":back");
    let (command, _) = completion_row(&suggestions[0], false);
    assert_eq!(command, "  :back");
    assert_eq!(tab_search_row("Inbox", true), "▶ Inbox");
}

#[test]
fn bar_input_kinds() {
    assert!(shows_command_completions("  :gr"));
    assert!(!shows_command_completions("gr:"));
    assert_eq!(tab_search_query("/vik"), "vik");
    assert_eq!(tab_search_query("vik"), "vik");
    assert!(mode_uses_entry(Mode::Command));
    assert!(!mode_uses_entry(Mode::Hint));
    assert!(mode_uses_block_cursor(Mode::UrlNormal));
    assert!(!mode_uses_block_cursor(Mode::UrlInsert));
}

#[test]
fn enter_acts_by_mode() {
    assert!(matches!(entry_action(Mode::Command, ":q", false), EntryAction::RunCommand(t) if t == ":q"));
    assert!(matches!(entry_action(Mode::Terminal, "!ls", true), EntryAction::RunTerminal(t) if t == "!ls"));
    assert!(matches!(entry_action(Mode::UrlInsert, "a.test", true), EntryAction::Open { input, new_tab: true } if input == "a.test"));
}

#[test]
fn hex_digits_read_both_cases() {
    assert_eq!(hex_digit('7'), Some(7));
    assert_eq!(hex_digit('b'), Some(11));
    assert_eq!(hex_digit('F'), Some(15));
    assert_eq!(hex_digit('g'), None);
    assert_eq!(hex_byte('D', '1'), Some(0xD1));
    assert_eq!(hex_byte('x', '1'), None);
}

use sleepview::clock::split_millis;
use sleepview::display::{file_line, format_time, terminal_commands, Rendered, TermCommand};

#[test]
fn split_whole_units() {
    assert_eq!(split_millis(0), [0, 0, 0, 0, 0]);
    assert_eq!(split_millis(999), [999, 0, 0, 0, 0]);
    assert_eq!(split_millis(1000), [0, 1, 0, 0, 0]);
    assert_eq!(split_millis(60_000), [0, 0, 1, 0, 0]);
    assert_eq!(split_millis(3_600_000), [0, 0, 0, 1, 0]);
    assert_eq!(split_millis(86_400_000), [0, 0, 0, 0, 1]);
}

#[test]
fn split_mixed_amount() {
    // 2 days, 3 hours, 4 minutes, 5 seconds and 6 milliseconds.
    let m: i128 = 2 * 86_400_000 + 3 * 3_600_000 + 4 * 60_000 + 5 * 1000 + 6;
    assert_eq!(split_millis(m), [6, 5, 4, 3, 2]);
}

#[test]
fn split_negative_is_all_milliseconds() {
    assert_eq!(split_millis(-5000), [-5000, 0, 0, 0, 0]);
}

#[test]
fn split_recomposes() {
    for m in [0i128, 1, 999, 1000, 59_999, 60_001, 3_599_999, 86_399_999, 123_456_789_012] {
        let f = split_millis(m);
        assert_eq!(f[0] + 1000 * f[1] + 60_000 * f[2] + 3_600_000 * f[3] + 86_400_000 * f[4], m);
        assert!(f[0] < 1000 && f[1] < 60 && f[2] < 60 && f[3] < 24);
    }
}

#[test]
fn file_line_formats() {
    let v = split_millis(2 * 86_400_000 + 3 * 3_600_000 + 4 * 60_000 + 5 * 1000 + 6);
    assert_eq!(file_line(&v, 5, 0), "[02:]03:04:05.006");
    assert_eq!(file_line(&v, 4, 0), "03:04:05.006");
    assert_eq!(file_line(&v, 3, 0), "04:05.006");
    assert_eq!(file_line(&v, 2, 0), "05.006");
    assert_eq!(file_line(&v, 5, 1), "[02:]03:04:05");
    assert_eq!(file_line(&v, 3, 2), "04:");
    assert_eq!(file_line(&v, 3, 3), "");
}

#[test]
fn file_line_wide_values_are_not_cut() {
    let v = split_millis(123 * 86_400_000);
    assert_eq!(file_line(&v, 5, 4), "[123:]");
}

fn print(s: &str) -> TermCommand {
    TermCommand::Print(s.to_string())
}

#[test]
fn terminal_first_draw() {
    let v = split_millis(3 * 60_000 + 7 * 1000 + 45);
    let p = split_millis(0);
    assert_eq!(
        terminal_commands(&v, &p, 3, 0, true),
        vec![
            TermCommand::ResetColor,
            print("03"),
            print(":"),
            print("07"),
            TermCommand::GreyColor,
            print(".045"),
        ]
    );
}

#[test]
fn terminal_redraw_skips_unchanged_fields() {
    let v = split_millis(3 * 60_000 + 7 * 1000 + 45);
    let p = split_millis(3 * 60_000 + 8 * 1000 + 45);
    assert_eq!(
        terminal_commands(&v, &p, 3, 0, false),
        vec![TermCommand::ResetColor, TermCommand::MoveRight(3), print("07")]
    );
}

#[test]
fn terminal_days_and_move_widths() {
    let v = split_millis(86_400_000 + 1000);
    assert_eq!(
        terminal_commands(&v, &v, 5, 0, false),
        vec![
            TermCommand::ResetColor,
            TermCommand::MoveRight(5),
            TermCommand::MoveRight(3),
            TermCommand::MoveRight(3),
            TermCommand::MoveRight(2),
        ]
    );
    assert_eq!(
        terminal_commands(&v, &split_millis(0), 5, 3, true),
        vec![TermCommand::ResetColor, print("[01"), print(":"), print("]"), print("00")]
    );
}

#[test]
fn format_time_dispatches() {
    let m: i128 = 65_250;
    assert_eq!(
        format_time(m, 0, 3, 0, true, false, false),
        Rendered::Text("{ \"minutes\": \"1\", \"seconds\": \"5\", \"milliseconds\": \"250\" }".to_string())
    );
    assert_eq!(
        format_time(m, 0, 3, 0, false, true, false),
        Rendered::Text("01:05.250".to_string())
    );
    assert_eq!(
        format_time(m, m, 3, 1, false, false, false),
        Rendered::Terminal(vec![
            TermCommand::ResetColor,
            TermCommand::MoveRight(3),
            TermCommand::MoveRight(2),
        ])
    );
}

#[test]
fn first_draw_prints_the_file_line() {
    let v = split_millis(2 * 86_400_000 + 3 * 3_600_000 + 4 * 60_000 + 5 * 1000 + 6);
    for res in 0..2usize {
        let text: String = terminal_commands(&v, &v, 5, res, true)
            .into_iter()
            .filter_map(|c| match c {
                TermCommand::Print(s) => Some(s),
                _ => None,
            })
            .collect();
        assert_eq!(text, file_line(&v, 5, res));
    }
}

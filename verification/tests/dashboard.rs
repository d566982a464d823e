use tftp_rs::server::{ServerEvent, TransferInfo, TransferKind};
use tftp_rs::ui::{
    event_log_line, format_timestamp, track_transfers, tree_prefix, Controls, FocusedPanel, Key,
    Panels,
};

fn info(id: u64, kind: TransferKind) -> TransferInfo {
    TransferInfo {
        id,
        peer: "10.0.0.7:4242".to_string(),
        filename: format!("file{}.bin", id),
        kind,
        total_bytes: 1000,
        transferred: 0,
        started: 5,
        size_known: kind == TransferKind::Download,
    }
}

#[test]
fn focus_cycles_through_the_panels() {
    assert_eq!(FocusedPanel::Files.next(), FocusedPanel::Transfers);
    assert_eq!(FocusedPanel::Transfers.next(), FocusedPanel::Logs);
    assert_eq!(FocusedPanel::Logs.next(), FocusedPanel::Files);
    let mut panels = Panels::new();
    assert_eq!(panels.focused_panel, FocusedPanel::Logs);
    panels.cycle_focus();
    assert_eq!(panels.focused_panel, FocusedPanel::Files);
    panels.cycle_focus();
    panels.cycle_focus();
    assert_eq!(panels, Panels::new());
}

#[test]
fn scrolling_moves_the_panel_in_focus() {
    let mut panels = Panels::new();
    panels.scroll_up();
    assert_eq!(panels, Panels::new());
    panels.focused_panel = FocusedPanel::Files;
    panels.scroll_down(0);
    panels.scroll_down(0);
    assert_eq!(panels.files_scroll, 2);
    assert_eq!(panels.transfers_scroll, 0);
    panels.scroll_up();
    assert_eq!(panels.files_scroll, 1);
    panels.focused_panel = FocusedPanel::Transfers;
    panels.transfers_scroll = u16::MAX;
    panels.scroll_down(0);
    assert_eq!(panels.transfers_scroll, u16::MAX);
    panels.scroll_up();
    assert_eq!(panels.transfers_scroll, u16::MAX - 1);
    assert_eq!(panels.files_scroll, 1);
    assert_eq!(panels.log_scroll, 0);
}

#[test]
fn log_scroll_stops_at_the_last_line() {
    let mut panels = Panels::new();
    panels.scroll_down(0);
    assert_eq!(panels.log_scroll, 0);
    panels.scroll_down(1);
    assert_eq!(panels.log_scroll, 0);
    panels.scroll_down(3);
    panels.scroll_down(3);
    panels.scroll_down(3);
    assert_eq!(panels.log_scroll, 2);
    panels.scroll_up();
    assert_eq!(panels.log_scroll, 1);
}

#[test]
fn log_follows_its_end() {
    let mut panels = Panels::new();
    panels.follow_log(4);
    assert_eq!(panels.log_scroll, 0);
    panels.follow_log(10);
    assert_eq!(panels.log_scroll, 0);
    panels.follow_log(11);
    assert_eq!(panels.log_scroll, 1);
    panels.follow_log(250);
    assert_eq!(panels.log_scroll, 240);
    // The count of lines is taken as a 16-bit number.
    panels.follow_log(65536 + 25);
    assert_eq!(panels.log_scroll, 15);
}

#[test]
fn timestamps_show_the_time_of_day() {
    assert_eq!(format_timestamp(0), "[00:00:00]");
    assert_eq!(format_timestamp(59), "[00:00:59]");
    assert_eq!(format_timestamp(60), "[00:01:00]");
    assert_eq!(format_timestamp(3661), "[01:01:01]");
    assert_eq!(format_timestamp(86399), "[23:59:59]");
    assert_eq!(format_timestamp(86400), "[00:00:00]");
    assert_eq!(format_timestamp(1_700_000_000), "[22:13:20]");
    assert_eq!(format_timestamp(u64::MAX), "[07:00:15]");
}

#[test]
fn events_become_log_lines() {
    assert_eq!(
        event_log_line(&ServerEvent::Log("Listening on 0.0.0.0:69".to_string())),
        Some("Listening on 0.0.0.0:69".to_string())
    );
    assert_eq!(
        event_log_line(&ServerEvent::TransferStarted(info(12, TransferKind::Download))),
        Some("Transfer #12 started: DL file12.bin (10.0.0.7:4242)".to_string())
    );
    assert_eq!(
        event_log_line(&ServerEvent::TransferStarted(info(3, TransferKind::Upload))),
        Some("Transfer #3 started: UL file3.bin (10.0.0.7:4242)".to_string())
    );
    assert_eq!(
        event_log_line(&ServerEvent::TransferProgress { id: 1, transferred: 5, total_bytes: 9 }),
        None
    );
    assert_eq!(
        event_log_line(&ServerEvent::TransferComplete(40)),
        Some("Transfer #40 complete".to_string())
    );
    assert_eq!(
        event_log_line(&ServerEvent::TransferFailed { id: 7, error: "timeout after 10 retries".to_string() }),
        Some("Transfer #7 failed: timeout after 10 retries".to_string())
    );
}

#[test]
fn transfers_are_listed_while_they_run() {
    let mut list = Vec::new();
    list = track_transfers(list, ServerEvent::TransferStarted(info(1, TransferKind::Download)));
    list = track_transfers(list, ServerEvent::TransferStarted(info(2, TransferKind::Upload)));
    list = track_transfers(list, ServerEvent::Log("noise".to_string()));
    assert_eq!(list, vec![info(1, TransferKind::Download), info(2, TransferKind::Upload)]);

    list = track_transfers(
        list,
        ServerEvent::TransferProgress { id: 2, transferred: 512, total_bytes: 512 },
    );
    let mut second = info(2, TransferKind::Upload);
    second.transferred = 512;
    second.total_bytes = 512;
    assert_eq!(list, vec![info(1, TransferKind::Download), second.clone()]);

    // Progress of a transfer that is not listed changes nothing.
    list = track_transfers(
        list,
        ServerEvent::TransferProgress { id: 9, transferred: 1, total_bytes: 1 },
    );
    assert_eq!(list.len(), 2);

    list = track_transfers(list, ServerEvent::TransferComplete(1));
    assert_eq!(list, vec![second]);
    list = track_transfers(list, ServerEvent::TransferFailed { id: 2, error: "x".to_string() });
    assert!(list.is_empty());
    list = track_transfers(list, ServerEvent::TransferComplete(2));
    assert!(list.is_empty());
}

#[test]
fn progress_reaches_the_first_transfer_of_an_id() {
    let list = vec![
        info(5, TransferKind::Download),
        info(6, TransferKind::Download),
        info(5, TransferKind::Download),
    ];
    let list = track_transfers(
        list,
        ServerEvent::TransferProgress { id: 5, transferred: 100, total_bytes: 1000 },
    );
    assert_eq!(list[0].transferred, 100);
    assert_eq!(list[1].transferred, 0);
    assert_eq!(list[2].transferred, 0);
    // The end of a transfer takes every entry of its id away.
    let list = track_transfers(list, ServerEvent::TransferComplete(5));
    assert_eq!(list, vec![info(6, TransferKind::Download)]);
}

#[test]
fn tree_prefix_draws_the_branches() {
    assert_eq!(tree_prefix(&vec![], 0, false), "");
    assert_eq!(tree_prefix(&vec![], 0, true), "");
    assert_eq!(tree_prefix(&vec![], 1, false), " \u{251c}\u{2500}\u{2500} ");
    assert_eq!(tree_prefix(&vec![true], 1, true), "     \u{2514}\u{2500}\u{2500} ");
    assert_eq!(
        tree_prefix(&vec![false, true, false], 3, false),
        " \u{2502}       \u{2502}   \u{251c}\u{2500}\u{2500} "
    );
    assert_eq!(tree_prefix(&vec![false], 0, true), " \u{2502}   \u{2514}\u{2500}\u{2500} ");
}

#[test]
fn keys_drive_the_quit_dialog() {
    let mut controls = Controls::new();
    assert!(!controls.show_quit_dialog);
    assert!(!controls.on_key(Key::Char('x'), 0));
    assert_eq!(controls, Controls::new());
    // `q` and Esc open the dialog with "No" selected.
    assert!(!controls.on_key(Key::Char('q'), 0));
    assert!(controls.show_quit_dialog);
    assert!(!controls.quit_selection);
    // Enter on "No" closes it.
    assert!(!controls.on_key(Key::Enter, 0));
    assert!(!controls.show_quit_dialog);
    assert!(!controls.on_key(Key::Esc, 0));
    assert!(controls.show_quit_dialog);
    // The arrows and Tab move the selection.
    assert!(!controls.on_key(Key::Left, 0));
    assert!(controls.quit_selection);
    assert!(!controls.on_key(Key::Right, 0));
    assert!(!controls.quit_selection);
    assert!(!controls.on_key(Key::Tab, 0));
    assert!(controls.quit_selection);
    // Up and Down do nothing while the dialog is open.
    let open = controls;
    assert!(!controls.on_key(Key::Down, 50));
    assert!(!controls.on_key(Key::Up, 50));
    assert!(!controls.on_key(Key::Other, 50));
    assert_eq!(controls, open);
    // Enter on "Yes" quits, and so does `y`.
    assert!(controls.on_key(Key::Enter, 0));
    assert!(controls.on_key(Key::Char('y'), 0));
    assert!(controls.on_key(Key::Char('Y'), 0));
    assert!(!controls.on_key(Key::Char('N'), 0));
    assert!(!controls.show_quit_dialog);
    // Opening the dialog again selects "No" again.
    assert!(!controls.on_key(Key::Char('q'), 0));
    assert!(!controls.quit_selection);
    assert!(!controls.on_key(Key::Char('n'), 0));
    assert!(!controls.show_quit_dialog);
}

#[test]
fn keys_move_focus_and_scroll() {
    let mut controls = Controls::new();
    assert!(!controls.on_key(Key::Down, 5));
    assert!(!controls.on_key(Key::Down, 5));
    assert_eq!(controls.panels.log_scroll, 2);
    assert!(!controls.on_key(Key::Up, 5));
    assert_eq!(controls.panels.log_scroll, 1);
    assert!(!controls.on_key(Key::Tab, 5));
    assert_eq!(controls.panels.focused_panel, FocusedPanel::Files);
    assert!(!controls.on_key(Key::Down, 5));
    assert_eq!(controls.panels.files_scroll, 1);
    assert_eq!(controls.panels.log_scroll, 1);
    // A capital Q is no key of the dashboard.
    assert!(!controls.on_key(Key::Char('Q'), 5));
    assert!(!controls.show_quit_dialog);
}

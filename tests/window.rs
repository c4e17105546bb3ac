use windowcaster_client::connection::{Connection, ConnectionError};
use windowcaster_client::filter::{text_contains, title_passes};
use windowcaster_client::handle::{format_window_handle, parse_window_handle};
use windowcaster_client::interactive::InteractiveMode;
use windowcaster_client::ui::{WindowInfo as PickerEntry, WindowList};
use windowcaster_client::window::{WindowInfo, WindowManager};

fn window(handle: u64, title: &str, class_name: &str) -> WindowInfo {
    WindowInfo { handle, title: title.to_string(), class_name: class_name.to_string() }
}

#[test]
fn handles_parse_from_hex() {
    assert_eq!(parse_window_handle("0x1000"), Some(4096));
    assert_eq!(parse_window_handle("0X1a2B"), Some(0x1a2b));
    assert_eq!(parse_window_handle("ff"), Some(255));
    assert_eq!(parse_window_handle("0xFFFFFFFFFFFFFFFF"), Some(u64::MAX));
    assert_eq!(parse_window_handle("0x10000000000000000"), None);
    assert_eq!(parse_window_handle("0x"), None);
    assert_eq!(parse_window_handle(""), None);
    assert_eq!(parse_window_handle("0xg1"), None);
    assert_eq!(parse_window_handle("0"), Some(0));
}

#[test]
fn handles_format_as_upper_hex() {
    assert_eq!(format_window_handle(0), "0x0");
    assert_eq!(format_window_handle(4096), "0x1000");
    assert_eq!(format_window_handle(0xdead_beef), "0xDEADBEEF");
    assert_eq!(format_window_handle(u64::MAX), "0xFFFFFFFFFFFFFFFF");
}

#[test]
fn window_text_forms() {
    let w = window(0x1A2B, "Notepad", "Edit");
    assert_eq!(w.display(), "0x1A2B [Edit] - Notepad");
    assert_eq!(w.display_verbose(), "Window Handle: 0x1A2B\nTitle: Notepad\nClass: Edit\n");
}

#[test]
fn filters_ignore_case() {
    assert!(text_contains("hello world", "o w"));
    assert!(text_contains("abc", ""));
    assert!(!text_contains("abc", "abcd"));
    assert!(!text_contains("abc", "ac"));
    assert!(title_passes("My Document - Editor", Some("document")));
    assert!(title_passes("anything", None));
    assert!(!title_passes("Calculator", Some("note")));
}

#[test]
fn manager_lists_and_finds() {
    let mut m = WindowManager::new();
    assert!(m.windows().is_empty());
    assert_eq!(m.matching_windows(None), Vec::<usize>::new());
    m.update_windows(vec![
        window(1, "Notepad", "Edit"),
        window(2, "Calculator", "Calc"),
        window(3, "notes.txt - NOTEPAD", "Edit"),
    ]);
    assert_eq!(m.windows().len(), 3);
    assert_eq!(m.matching_windows(None), vec![0, 1, 2]);
    assert_eq!(m.matching_windows(Some("notepad")), vec![0, 2]);
    assert_eq!(m.matching_windows(Some("CALC")), vec![1]);
    assert_eq!(m.matching_windows(Some("browser")), Vec::<usize>::new());
    assert_eq!(m.find_window(2), Some(1));
    assert_eq!(m.find_window(9), None);
    let mode = InteractiveMode::new(m);
    assert_eq!(mode.window_manager.find_window(3), Some(2));
}

#[test]
fn picker_selection_resets_on_update() {
    let mut list = WindowList::new();
    assert!(list.selected_window.is_none());
    list.update_windows(vec![PickerEntry { id: 5, title: "A".to_string(), class_name: "B".to_string() }]);
    list.select(0);
    assert_eq!(list.selected_window, Some(0));
    list.update_windows(Vec::new());
    assert!(list.selected_window.is_none());
    assert!(list.windows.is_empty());
}

#[test]
fn connection_requires_connect() {
    let mut c = Connection::new();
    assert_eq!(c.frame_outgoing(&[1]), Err(ConnectionError::NotConnected));
    assert_eq!(c.incoming_length(&[1, 0, 0, 0]), Err(ConnectionError::NotConnected));
    c.mark_connected();
    assert_eq!(c.frame_outgoing(&[1]), Ok(vec![1, 0, 0, 0, 1]));
    assert_eq!(c.incoming_length(&[2, 1, 0, 0]), Ok(258));
    c.disconnect();
    c.disconnect();
    assert_eq!(c.frame_outgoing(&[]), Err(ConnectionError::NotConnected));
}

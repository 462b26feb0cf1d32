use vbar::clock::clock_text;
use vbar::window::{title_from_reply, window_label};

const ACTIVE_WINDOW: &str = "Window 55d1c2a0 -> vbar - nvim:\n\tmapped: 1\n\thidden: 0\n\tat: 10,10\n\
\tclass: kitty\n\ttitle: vbar - nvim\n\tinitialClass: kitty\n\tinitialTitle: kitty\n\tpid: 1234\n\n";

#[test]
fn title_is_the_title_property() {
    assert_eq!(title_from_reply(ACTIVE_WINDOW).as_deref(), Some("vbar - nvim"));
}

#[test]
fn nothing_focused_has_no_title() {
    assert_eq!(title_from_reply("Invalid\n"), None);
    assert_eq!(title_from_reply(""), None);
}

#[test]
fn initial_title_is_not_the_title() {
    assert_eq!(title_from_reply("\tinitialTitle: kitty\n"), None);
}

#[test]
fn empty_title_is_skipped() {
    assert_eq!(title_from_reply("\ttitle:   \n\ttitle: second\n"), Some("second".to_string()));
    assert_eq!(title_from_reply("\ttitle:\r\n"), None);
    assert_eq!(title_from_reply("title:x"), Some("x".to_string()));
}

#[test]
fn label_names_the_window_like_a_buffer() {
    assert_eq!(window_label(Some("vbar - nvim")), "win/vbar - nvim.win");
    assert_eq!(window_label(None), "");
}

#[test]
fn clock_placeholder() {
    assert_eq!(clock_text(Some("Mon 01 Jan 09:30 AM")), "Mon 01 Jan 09:30 AM");
    assert_eq!(clock_text(None), "--:--");
}

use vbar::command::{
    after_reset, on_hypr_event, on_key, reset_dispatcher, steps, KeyboardMode, Reaction, Step,
    Surface, ESCAPE_KEYVAL, SUBMAP,
};

fn run(s: &mut Surface, r: Reaction) {
    for step in steps(r) {
        s.apply(step);
        // GTK's focus is never on the entry without the keyboard behind it.
        assert!(!s.entry_focused || s.keyboard == KeyboardMode::Exclusive);
    }
}

#[test]
fn submap_events_open_and_close() {
    assert_eq!(SUBMAP, "vbar");
    assert_eq!(on_hypr_event("submap>>vbar"), Reaction::Focus);
    assert_eq!(on_hypr_event("submap>>"), Reaction::Release);
    assert_eq!(on_hypr_event("submap>>resize"), Reaction::Release);
    assert_eq!(on_hypr_event("submap>>vbar2"), Reaction::Release);
    assert_eq!(on_hypr_event("workspace>>3"), Reaction::Ignore);
    assert_eq!(on_hypr_event("activewindow>>submap>>vbar"), Reaction::Ignore);
    assert_eq!(on_hypr_event(""), Reaction::Ignore);
}

#[test]
fn escape_stands_down() {
    assert_eq!(ESCAPE_KEYVAL, 0xff1b);
    assert_eq!(on_key(0xff1b), Reaction::StandDown);
    assert_eq!(on_key(0x61), Reaction::Ignore);
    assert_eq!(on_key(0xff0d), Reaction::Ignore);
}

#[test]
fn refused_reset_closes_the_command_line() {
    assert_eq!(reset_dispatcher(), "hl.dsp.submap(\"reset\")");
    assert_eq!(after_reset(Some("ok")), Reaction::Ignore);
    assert_eq!(after_reset(Some("ok\n")), Reaction::Ignore);
    assert_eq!(after_reset(Some("error")), Reaction::Release);
    assert_eq!(after_reset(None), Reaction::Release);
}

#[test]
fn step_orders() {
    assert_eq!(
        steps(Reaction::Focus),
        vec![Step::SetKeyboard(KeyboardMode::Exclusive), Step::GrabEntryFocus, Step::ShowPrompt]
    );
    assert_eq!(
        steps(Reaction::Release),
        vec![Step::ClearEntry, Step::HidePrompt, Step::ClearFocus, Step::SetKeyboard(KeyboardMode::Inert)]
    );
    assert!(steps(Reaction::StandDown).is_empty());
    assert!(steps(Reaction::Ignore).is_empty());
}

#[test]
fn open_then_close() {
    let mut s = Surface::initial();
    assert_eq!(s.keyboard, KeyboardMode::Inert);
    run(&mut s, Reaction::Focus);
    assert_eq!(s, Surface { keyboard: KeyboardMode::Exclusive, entry_focused: true, prompt_visible: true, entry_empty: true });
    s.entry_empty = false;
    run(&mut s, Reaction::Release);
    assert_eq!(s, Surface::initial());
}

#[test]
fn keyboard_only_while_open() {
    let mut s = Surface::initial();
    for r in [Reaction::Release, Reaction::Focus, Reaction::Focus, Reaction::StandDown, Reaction::Release, Reaction::Ignore, Reaction::Focus] {
        run(&mut s, r);
        assert_eq!(s.keyboard == KeyboardMode::Exclusive, s.prompt_visible);
        assert_eq!(s.entry_focused, s.prompt_visible);
    }
}

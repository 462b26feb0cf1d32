use vbar::bar::{layout, slot_class, slot_expands, Bar, ModuleKind, Section};

#[test]
fn push_appends_to_one_slot() {
    let mut bar = Bar::new();
    bar.push(Section::Left, ModuleKind::Workspaces);
    bar.push(Section::Left, ModuleKind::CommandLine);
    bar.push(Section::Right, ModuleKind::WindowTitle);
    assert_eq!(bar.modules(Section::Left), vec![ModuleKind::Workspaces, ModuleKind::CommandLine]);
    assert_eq!(bar.modules(Section::Center), vec![]);
    assert_eq!(bar.modules(Section::Right), vec![ModuleKind::WindowTitle]);
}

#[test]
fn full_layout() {
    let bar = layout(true, true);
    assert_eq!(bar.modules(Section::Left), vec![ModuleKind::Workspaces, ModuleKind::CommandLine]);
    assert_eq!(bar.modules(Section::Center), vec![ModuleKind::Clock]);
    assert_eq!(bar.modules(Section::Right), vec![ModuleKind::WindowTitle]);
}

#[test]
fn without_hyprland_modules() {
    let bar = layout(false, false);
    assert_eq!(bar.modules(Section::Left), vec![ModuleKind::CommandLine]);
    assert_eq!(bar.modules(Section::Center), vec![ModuleKind::Clock]);
    assert_eq!(bar.modules(Section::Right), vec![]);
}

#[test]
fn slots() {
    assert_eq!(slot_class(Section::Left), "left");
    assert_eq!(slot_class(Section::Center), "center");
    assert_eq!(slot_class(Section::Right), "right");
    assert!(slot_expands(Section::Center));
    assert!(!slot_expands(Section::Left) && !slot_expands(Section::Right));
}

//! The bar's layout: three slots along the bottom edge and which module sits
//! in which, left to right.

use vstd::prelude::*;

verus! {

/// Where along the bar a module is placed.
#[derive(Clone, Copy, Debug, PartialEq, Eq, Structural)]
pub enum Section {
    Left,
    /// The expanding slot: it soaks up whatever width the other two leave.
    Center,
    Right,
}

/// The modules the bar is made of.
#[derive(Clone, Copy, Debug, PartialEq, Eq, Structural)]
pub enum ModuleKind {
    /// A cell per workspace, click to switch.
    Workspaces,
    /// The `:` prompt and the line typed into it.
    CommandLine,
    /// The time.
    Clock,
    /// The focused window, named like a buffer.
    WindowTitle,
}

/// The bar's three slots and the modules in each, left to right.
pub struct Bar {
    left: Vec<ModuleKind>,
    center: Vec<ModuleKind>,
    right: Vec<ModuleKind>,
}

impl Bar {
    /// The modules in `section`, left to right.
    pub closed spec fn slot(&self, section: Section) -> Seq<ModuleKind> {
        match section {
            Section::Left => self.left@,
            Section::Center => self.center@,
            Section::Right => self.right@,
        }
    }

    /// A bar with three empty slots.
    pub fn new() -> (bar: Bar)
        ensures
            bar.slot(Section::Left) == Seq::<ModuleKind>::empty(),
            bar.slot(Section::Center) == Seq::<ModuleKind>::empty(),
            bar.slot(Section::Right) == Seq::<ModuleKind>::empty(),
    {
        Bar { left: Vec::new(), center: Vec::new(), right: Vec::new() }
    }

    /// Appends `module` to `section`; the other slots stay as they are.
    pub fn push(&mut self, section: Section, module: ModuleKind)
        ensures
            final(self).slot(section) == old(self).slot(section).push(module),
            forall|other: Section|
                other != section ==> final(self).slot(other) == old(self).slot(other),
    {
        match section {
            Section::Left => self.left.push(module),
            Section::Center => self.center.push(module),
            Section::Right => self.right.push(module),
        }
    }

    /// The modules in `section`, left to right.
    pub fn modules(&self, section: Section) -> (m: Vec<ModuleKind>)
        ensures
            m@ == self.slot(section),
    {
        match section {
            Section::Left => self.left.clone(),
            Section::Center => self.center.clone(),
            Section::Right => self.right.clone(),
        }
    }
}

/// The style class of `section`'s slot.
pub fn slot_class(section: Section) -> (class: &'static str)
    ensures
        class@ == match section {
            Section::Left => "left"@,
            Section::Center => "center"@,
            Section::Right => "right"@,
        },
{
    match section {
        Section::Left => "left",
        Section::Center => "center",
        Section::Right => "right",
    }
}

/// Whether `section`'s slot takes the width the others leave.
pub fn slot_expands(section: Section) -> (expands: bool)
    ensures
        expands == (section == Section::Center),
{
    match section {
        Section::Center => true,
        _ => false,
    }
}

/// The bar's layout: workspaces and the command line on the left, the clock
/// in the middle, the focused window on the right. The two modules that need
/// Hyprland are left out when they could not be set up: not being under
/// Hyprland costs a module, not the bar.
pub fn layout(window_title: bool, workspaces: bool) -> (bar: Bar)
    ensures
        bar.slot(Section::Center) == seq![ModuleKind::Clock],
        bar.slot(Section::Right) == (if window_title {
            seq![ModuleKind::WindowTitle]
        } else {
            Seq::<ModuleKind>::empty()
        }),
        bar.slot(Section::Left) == (if workspaces {
            seq![ModuleKind::Workspaces, ModuleKind::CommandLine]
        } else {
            seq![ModuleKind::CommandLine]
        }),
{
    let mut bar = Bar::new();
    bar.push(Section::Center, ModuleKind::Clock);
    if window_title {
        bar.push(Section::Right, ModuleKind::WindowTitle);
    }
    if workspaces {
        bar.push(Section::Left, ModuleKind::Workspaces);
    }
    bar.push(Section::Left, ModuleKind::CommandLine);
    bar
}

} // verus!

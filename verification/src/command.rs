//! The command line's logic: when it opens and closes, and the order in which
//! the keyboard and GTK's focus change hands.
//!
//! Opening it is the compositor's business: a layer surface receives no key
//! events until it asks for them, so `SUPER+;` arrives as a change to the
//! `vbar` submap, and leaving the submap closes it again. The bar follows the
//! mode that Hyprland owns.

use vstd::prelude::*;

use crate::hypr::DispatchError;
use crate::text::{chars_of, equals_at, has_prefix_at, push_str, string_of, strip_prefix};

verus! {

/// The Hyprland submap that the command line is the visible half of.
pub const SUBMAP: &'static str = "vbar";

/// GDK's key value for Escape.
pub const ESCAPE_KEYVAL: u32 = 0xff1b;

/// What the layer surface asks of the compositor's keyboard.
#[derive(Clone, Copy, Debug, PartialEq, Eq, Structural)]
pub enum KeyboardMode {
    /// No key events at all.
    Inert,
    /// Every key event, while the command line is open.
    Exclusive,
}

/// One change to the bar's surface and the command line's widgets.
#[derive(Clone, Copy, Debug, PartialEq, Eq, Structural)]
pub enum Step {
    /// Ask the compositor for this keyboard mode.
    SetKeyboard(KeyboardMode),
    /// Move GTK's focus onto the entry.
    GrabEntryFocus,
    /// Show the `:` prompt.
    ShowPrompt,
    /// Abandon the half-typed line.
    ClearEntry,
    /// Hide the `:` prompt.
    HidePrompt,
    /// Take GTK's focus off the surface.
    ClearFocus,
}

/// What the command line does in answer to something that happened.
#[derive(Clone, Copy, Debug, PartialEq, Eq, Structural)]
pub enum Reaction {
    /// Open: take the keyboard and focus the entry.
    Focus,
    /// Close: hand the keyboard back.
    Release,
    /// Ask Hyprland to leave the submap; its answer closes the command line.
    StandDown,
    /// Nothing.
    Ignore,
}

/// The state of the surface and the command line's widgets, as the steps
/// change it.
#[derive(Clone, Copy, Debug, PartialEq, Eq, Structural)]
pub struct Surface {
    /// The keyboard mode the surface has asked for.
    pub keyboard: KeyboardMode,
    /// Whether GTK's focus is on the entry.
    pub entry_focused: bool,
    /// Whether the `:` prompt shows.
    pub prompt_visible: bool,
    /// Whether the entry is empty.
    pub entry_empty: bool,
}

/// The surface after `step`.
pub open spec fn after_step(s: Surface, step: Step) -> Surface {
    match step {
        Step::SetKeyboard(mode) => Surface { keyboard: mode, ..s },
        Step::GrabEntryFocus => Surface { entry_focused: true, ..s },
        Step::ShowPrompt => Surface { prompt_visible: true, ..s },
        Step::ClearEntry => Surface { entry_empty: true, ..s },
        Step::HidePrompt => Surface { prompt_visible: false, ..s },
        Step::ClearFocus => Surface { entry_focused: false, ..s },
    }
}

/// The surface after `steps`, taken in order.
pub open spec fn after_steps(s: Surface, steps: Seq<Step>) -> Surface
    decreases steps.len(),
{
    if steps.len() == 0 {
        s
    } else {
        after_step(after_steps(s, steps.drop_last()), steps.last())
    }
}

/// The steps that give the command line the keyboard.
///
/// The order is the whole point: the keyboard mode changes first, since the
/// `Exclusive` request is what makes Hyprland send keys to the surface, and
/// only a surface that can hold keyboard focus makes a GTK grab mean anything.
pub open spec fn focus_steps() -> Seq<Step> {
    seq![Step::SetKeyboard(KeyboardMode::Exclusive), Step::GrabEntryFocus, Step::ShowPrompt]
}

/// The steps that hand the keyboard back: the mirror of `focus_steps`, and
/// reversed for the same reason. GTK's focus goes while the surface still
/// holds the keyboard, and only then is the keyboard given up.
pub open spec fn release_steps() -> Seq<Step> {
    seq![
        Step::ClearEntry,
        Step::HidePrompt,
        Step::ClearFocus,
        Step::SetKeyboard(KeyboardMode::Inert),
    ]
}

/// The steps that carry out `reaction` on the surface.
pub open spec fn reaction_steps(reaction: Reaction) -> Seq<Step> {
    match reaction {
        Reaction::Focus => focus_steps(),
        Reaction::Release => release_steps(),
        _ => seq![],
    }
}

/// The steps that carry out `reaction`, in the order they are to be taken.
pub fn steps(reaction: Reaction) -> (r: Vec<Step>)
    ensures
        r@ == reaction_steps(reaction),
{
    match reaction {
        Reaction::Focus => {
            let r = vec![Step::SetKeyboard(KeyboardMode::Exclusive), Step::GrabEntryFocus, Step::ShowPrompt];
            assert(r@ =~= focus_steps());
            r
        },
        Reaction::Release => {
            let r = vec![
                Step::ClearEntry,
                Step::HidePrompt,
                Step::ClearFocus,
                Step::SetKeyboard(KeyboardMode::Inert),
            ];
            assert(r@ =~= release_steps());
            r
        },
        _ => {
            let r: Vec<Step> = Vec::new();
            assert(r@ =~= Seq::<Step>::empty());
            r
        },
    }
}

impl Surface {
    /// The surface as the bar starts it: inert, with the prompt hidden and
    /// nothing focused or typed.
    pub fn initial() -> (s: Surface)
        ensures
            s == initial_surface(),
    {
        Surface {
            keyboard: KeyboardMode::Inert,
            entry_focused: false,
            prompt_visible: false,
            entry_empty: true,
        }
    }

    /// Takes `step`.
    pub fn apply(&mut self, step: Step)
        ensures
            *final(self) == after_step(*old(self), step),
    {
        match step {
            Step::SetKeyboard(mode) => self.keyboard = mode,
            Step::GrabEntryFocus => self.entry_focused = true,
            Step::ShowPrompt => self.prompt_visible = true,
            Step::ClearEntry => self.entry_empty = true,
            Step::HidePrompt => self.prompt_visible = false,
            Step::ClearFocus => self.entry_focused = false,
        }
    }
}

/// The surface as the bar starts it.
pub open spec fn initial_surface() -> Surface {
    Surface {
        keyboard: KeyboardMode::Inert,
        entry_focused: false,
        prompt_visible: false,
        entry_empty: true,
    }
}


/// What a Hyprland event means for the command line. `submap>>NAME` reports a
/// change of submap, with an empty name for the default map: entering the
/// `vbar` submap opens the command line and any other change closes it.
pub open spec fn event_reaction(event: Seq<char>) -> Reaction {
    match strip_prefix(event, "submap>>"@) {
        Some(name) => if name == SUBMAP@ {
            Reaction::Focus
        } else {
            Reaction::Release
        },
        None => Reaction::Ignore,
    }
}

/// The command line's answer to one `event>>payload` line from Hyprland.
pub fn on_hypr_event(event: &str) -> (r: Reaction)
    ensures
        r == event_reaction(event@),
{
    let v = chars_of(event);
    let prefix = chars_of("submap>>");
    assert(v@.subrange(0, v.len() as int) =~= v@);
    if !has_prefix_at(&v, 0, v.len(), &prefix) {
        return Reaction::Ignore;
    }
    let name = chars_of(SUBMAP);
    assert(v@.skip(prefix.len() as int) =~= v@.subrange(prefix.len() as int, v.len() as int));
    if equals_at(&v, prefix.len(), v.len(), &name) {
        Reaction::Focus
    } else {
        Reaction::Release
    }
}

/// The command line's answer to a key press in the entry: Escape leaves the
/// submap, the way `:`-Escape does in neovim, and the key goes no further;
/// any other key is the entry's.
pub fn on_key(keyval: u32) -> (r: Reaction)
    ensures
        r == (if keyval == ESCAPE_KEYVAL {
            Reaction::StandDown
        } else {
            Reaction::Ignore
        }),
{
    if keyval == ESCAPE_KEYVAL {
        Reaction::StandDown
    } else {
        Reaction::Ignore
    }
}

/// The dispatcher that leaves the submap.
pub fn reset_dispatcher() -> (lua: String)
    ensures
        lua@ == "hl.dsp.submap(\"reset\")"@,
{
    let mut out: Vec<char> = Vec::new();
    push_str(&mut out, "hl.dsp.submap(\"reset\")");
    string_of(&out)
}

/// What to do once Hyprland has been asked to leave the submap: `reply` is
/// its answer, or `None` when the request itself failed. The `submap>>`
/// event that comes back is what closes the command line in the ordinary
/// case; but a bar left holding the keyboard would make the rest of the
/// desktop untypeable, so if the compositor will not close the mode, the
/// command line closes itself.
pub fn after_reset(reply: Option<&str>) -> (r: Reaction)
    ensures
        r == match reply {
            Some(text) => if crate::text::trim(text@) == "ok"@ {
                Reaction::Ignore
            } else {
                Reaction::Release
            },
            None => Reaction::Release,
        },
{
    match reply {
        Some(text) => {
            let lua = reset_dispatcher();
            match crate::hypr::check_dispatch_reply(lua.as_str(), text) {
                Ok(()) => Reaction::Ignore,
                Err(_) => Reaction::Release,
            }
        },
        None => Reaction::Release,
    }
}

/// GTK's focus is on the entry only while the surface holds the keyboard;
/// otherwise the entry would look focused while every key went elsewhere.
pub open spec fn focus_backed_by_keyboard(s: Surface) -> bool {
    s.entry_focused ==> s.keyboard == KeyboardMode::Exclusive
}

/// The prompt shows, the entry is focused and the surface holds the keyboard
/// all together, or none of them.
pub open spec fn consistent(s: Surface) -> bool {
    &&& s.prompt_visible == s.entry_focused
    &&& s.entry_focused == (s.keyboard == KeyboardMode::Exclusive)
}

/// The surface after `reactions`, taken in order.
pub open spec fn after_reactions(s: Surface, reactions: Seq<Reaction>) -> Surface
    decreases reactions.len(),
{
    if reactions.len() == 0 {
        s
    } else {
        after_steps(after_reactions(s, reactions.drop_last()), reaction_steps(reactions.last()))
    }
}

proof fn lemma_after_steps_push(s: Surface, steps: Seq<Step>, step: Step)
    ensures
        after_steps(s, steps.push(step)) == after_step(after_steps(s, steps), step),
{
    assert(steps.push(step).drop_last() =~= steps);
}

/// Opening the command line never leaves GTK's focus on the entry without
/// the keyboard behind it, at any point of the way; and once open, the
/// surface holds the keyboard, the entry is focused and the prompt shows.
pub proof fn law_focus_order(s: Surface)
    requires
        focus_backed_by_keyboard(s),
    ensures
        forall|k: int|
            0 <= k <= focus_steps().len() ==> focus_backed_by_keyboard(
                #[trigger] after_steps(s, focus_steps().take(k)),
            ),
        after_steps(s, focus_steps()).keyboard == KeyboardMode::Exclusive,
        after_steps(s, focus_steps()).entry_focused,
        after_steps(s, focus_steps()).prompt_visible,
{
    let f = focus_steps();
    assert(f.take(0) =~= Seq::<Step>::empty());
    lemma_after_steps_push(s, f.take(0), f[0]);
    assert(f.take(1) =~= f.take(0).push(f[0]));
    lemma_after_steps_push(s, f.take(1), f[1]);
    assert(f.take(2) =~= f.take(1).push(f[1]));
    lemma_after_steps_push(s, f.take(2), f[2]);
    assert(f.take(3) =~= f.take(2).push(f[2]));
    assert(f.take(3) =~= f);
}

/// Closing the command line never leaves GTK's focus on the entry without
/// the keyboard behind it, at any point of the way; and once closed, the
/// surface is inert, nothing is focused, the prompt is hidden and the
/// half-typed line is gone.
pub proof fn law_release_order(s: Surface)
    requires
        focus_backed_by_keyboard(s),
    ensures
        forall|k: int|
            0 <= k <= release_steps().len() ==> focus_backed_by_keyboard(
                #[trigger] after_steps(s, release_steps().take(k)),
            ),
        after_steps(s, release_steps()).keyboard == KeyboardMode::Inert,
        !after_steps(s, release_steps()).entry_focused,
        !after_steps(s, release_steps()).prompt_visible,
        after_steps(s, release_steps()).entry_empty,
{
    let f = release_steps();
    assert(f.take(0) =~= Seq::<Step>::empty());
    lemma_after_steps_push(s, f.take(0), f[0]);
    assert(f.take(1) =~= f.take(0).push(f[0]));
    lemma_after_steps_push(s, f.take(1), f[1]);
    assert(f.take(2) =~= f.take(1).push(f[1]));
    lemma_after_steps_push(s, f.take(2), f[2]);
    assert(f.take(3) =~= f.take(2).push(f[2]));
    lemma_after_steps_push(s, f.take(3), f[3]);
    assert(f.take(4) =~= f.take(3).push(f[3]));
    assert(f.take(4) =~= f);
}

/// Whatever happens, starting from the bar's initial surface: the surface
/// holds the keyboard exactly while the command line is open, that is while
/// its prompt shows and its entry has GTK's focus.
pub proof fn law_keyboard_only_while_open(reactions: Seq<Reaction>)
    ensures
        consistent(after_reactions(initial_surface(), reactions)),
    decreases reactions.len(),
{
    if reactions.len() > 0 {
        law_keyboard_only_while_open(reactions.drop_last());
        let s = after_reactions(initial_surface(), reactions.drop_last());
        law_focus_order(s);
        law_release_order(s);
        assert(reaction_steps(reactions.last()).len() == 0 ==> reaction_steps(reactions.last())
            =~= Seq::<Step>::empty());
    }
}


/// Submap events open or close the command line: `submap>>vbar` opens it,
/// and `submap>>` followed by any other name, the empty name of the default
/// map included, closes it; an event of any other kind leaves it alone.
pub proof fn law_submap_events_open_and_close(name: Seq<char>, other: Seq<char>)
    requires
        !crate::text::has_prefix(other, "submap>>"@),
    ensures
        event_reaction("submap>>"@ + name) == (if name == "vbar"@ {
            Reaction::Focus
        } else {
            Reaction::Release
        }),
        event_reaction(other) == Reaction::Ignore,
{
    let p = "submap>>"@;
    assert((p + name).take(p.len() as int) =~= p);
    assert((p + name).skip(p.len() as int) =~= name);
}

} // verus!

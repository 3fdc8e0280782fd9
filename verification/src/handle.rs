//! The keymap and the keyberon layout of the half that talks USB: build the
//! layout from the keymap, feed it events or tick it and hand out the
//! keyboard report; then the report goes to the host as `send_step`
//! decides.
//!
//! The keyberon release this crate builds on (0.1.1) has no custom actions: no layout event can ask
//! for a restart, so `restart_for` states what such a press would ask for,
//! and nothing in the firmware reaches it.

use vstd::prelude::*;
use keyberon::action::Action;
use keyberon::key_code::{KbHidReport, KeyCode};
use keyberon::layout::Layout;
use crate::keys::KeyEvent;

verus! {

#[verifier::external_type_specification]
#[verifier::external_body]
pub struct ExLayout(Layout);

#[verifier::external_type_specification]
#[verifier::external_body]
pub struct ExKbHidReport(KbHidReport);

#[verifier::external_type_specification]
#[verifier::external_body]
pub struct ExKeyCode(KeyCode);

#[verifier::external_type_specification]
#[verifier::external_body]
pub struct ExAction(Action);

/// The keyboard's own actions, beside key codes.
#[derive(Debug, Clone, Copy, PartialEq, Eq, Structural)]
pub enum CustomActions {
    /// Restart into the USB mass-storage bootloader, to flash a UF2 image.
    Uf2,
    /// Restart the microcontroller.
    Reset,
}

/// How the microcontroller restarts.
#[derive(Debug, Clone, Copy, PartialEq, Eq, Structural)]
pub enum Restart {
    /// Into the boot ROM's USB bootloader.
    UsbBoot,
    /// A system reset.
    System,
}

/// The restart that pressing a custom action asks for.
pub fn restart_for(action: CustomActions) -> (r: Restart)
    ensures
        (action == CustomActions::Uf2) == (r == Restart::UsbBoot),
        (action == CustomActions::Reset) == (r == Restart::System),
{
    match action {
        CustomActions::Uf2 => Restart::UsbBoot,
        CustomActions::Reset => Restart::System,
    }
}

/// An action of the keymap that does not start a hold-tap.
pub enum SimpleAction {
    /// Nothing.
    NoOp,
    /// The action of the default layer.
    Trans,
    /// One key code.
    Key(KeyCode),
    /// Several key codes at once, as a shifted key or a shortcut.
    Keys(Vec<KeyCode>),
    /// While held, add this number to the current layer.
    Layer(u8),
    /// Make this layer the default one.
    DefaultLayer(u8),
}

/// An action of the keymap: a simple action, or a hold-tap whose hold and
/// tap are simple actions. Hold-taps do not nest and there are no lists of
/// actions, so keyberon never finds a hold-tap waiting where it starts an
/// action.
pub enum KeyAction {
    Simple(SimpleAction),
    HoldTap { timeout: u16, hold: SimpleAction, tap: SimpleAction },
}

/// The keyberon action made from a simple action.
pub uninterp spec fn simple_action_of(a: SimpleAction) -> Action;

/// The keyberon hold-tap made from a timeout, a hold and a tap action.
pub uninterp spec fn hold_tap_of(timeout: u16, hold: Action, tap: Action) -> Action;

/// The fresh layout that `Layout::new` makes over the given layers: no key
/// held, nothing queued, no hold-tap waiting, default layer 0.
pub uninterp spec fn fresh_layout(layers: Seq<Seq<Seq<Action>>>) -> Layout;

/// The layers that a keyberon layout was made with.
pub uninterp spec fn layout_layers(l: Layout) -> Seq<Seq<Seq<Action>>>;

/// The layout after `Layout::event` with `e`.
pub uninterp spec fn layout_after_event(l: Layout, e: KeyEvent) -> Layout;

/// The layout after `Layout::tick`.
pub uninterp spec fn layout_after_tick(l: Layout) -> Layout;

/// The keyboard report of the key codes that the layout holds.
pub uninterp spec fn layout_report(l: Layout) -> KbHidReport;

/// The keyberon action of a keymap action.
pub open spec fn action_of(a: KeyAction) -> Action {
    match a {
        KeyAction::Simple(s) => simple_action_of(s),
        KeyAction::HoldTap { timeout, hold, tap } => hold_tap_of(
            timeout,
            simple_action_of(hold),
            simple_action_of(tap),
        ),
    }
}

/// The keyberon layers of a keymap, `layers[layer][row][column]`.
pub open spec fn layers_of(keymap: Seq<Vec<Vec<KeyAction>>>) -> Seq<Seq<Seq<Action>>> {
    Seq::new(
        keymap.len(),
        |i: int|
            Seq::new(
                keymap[i]@.len(),
                |j: int| Seq::new(keymap[i]@[j]@.len(), |k: int| action_of(keymap[i]@[j]@[k])),
            ),
    )
}

/// Layers that come from a keymap: every action is the keyberon action of
/// some keymap action.
pub open spec fn from_keymap(layers: Seq<Seq<Seq<Action>>>) -> bool {
    forall|i: int, j: int, k: int|
        0 <= i < layers.len() && 0 <= j < layers[i].len() && 0 <= k < layers[i][j].len()
            ==> is_keymap_action(#[trigger] layers[i][j][k])
}

/// An action that is the keyberon action of some keymap action.
pub open spec fn is_keymap_action(x: Action) -> bool {
    exists|a: KeyAction| #[trigger] action_of(a) == x
}

/// Builds the `keyberon::action::Action` of a simple action, one variant
/// for each; the key codes of `Keys` are leaked into a `'static` slice, as
/// keyberon keeps them for the life of the firmware.
#[verifier::external_body]
fn keyberon_simple_action(a: &SimpleAction) -> (r: Action)
    ensures
        r == simple_action_of(*a),
{
    match a {
        SimpleAction::NoOp => Action::NoOp,
        SimpleAction::Trans => Action::Trans,
        SimpleAction::Key(k) => Action::KeyCode(*k),
        SimpleAction::Keys(v) => Action::MultipleKeyCodes(Box::leak(v.clone().into_boxed_slice())),
        SimpleAction::Layer(l) => Action::Layer(*l as usize),
        SimpleAction::DefaultLayer(l) => Action::DefaultLayer(*l as usize),
    }
}

/// Builds `keyberon::action::Action::HoldTap`; the hold and tap actions are
/// leaked to `'static`, as keyberon keeps them for the life of the firmware.
#[verifier::external_body]
fn keyberon_hold_tap(timeout: u16, hold: Action, tap: Action) -> (r: Action)
    ensures
        r == hold_tap_of(timeout, hold, tap),
{
    Action::HoldTap { timeout, hold: Box::leak(Box::new(hold)), tap: Box::leak(Box::new(tap)) }
}

/// Calls `keyberon::layout::Layout::new` with the layers leaked into
/// `'static` slices; the layout keeps them as its layers.
#[verifier::external_body]
fn keyberon_layout_new(layers: Vec<Vec<Vec<Action>>>) -> (l: Layout)
    ensures
        l == fresh_layout(
            Seq::new(layers@.len(), |i: int| Seq::new(layers@[i]@.len(), |j: int| layers@[i]@[j]@)),
        ),
        layout_layers(l) == Seq::new(
            layers@.len(),
            |i: int| Seq::new(layers@[i]@.len(), |j: int| layers@[i]@[j]@),
        ),
{
    let rows: Vec<&'static [&'static [Action]]> = layers.into_iter().map(|layer| {
        let cols: Vec<&'static [Action]> = layer.into_iter().map(|r| &*Box::leak(r.into_boxed_slice())).collect();
        &*Box::leak(cols.into_boxed_slice())
    }).collect();
    Layout::new(Box::leak(rows.into_boxed_slice()))
}

/// Calls `keyberon::layout::Layout::event` with the event; the key codes it
/// hands back are not used. The layers stay. keyberon asserts, in
/// `do_action`, that no hold-tap is waiting when it starts an action; with
/// layers from a keymap that cannot happen: a hold-tap only waits after it
/// was started as the whole action of a key, and its hold and tap start
/// nothing that waits. Layer numbers below 256 keep the sum of held layers
/// far from overflow.
#[verifier::external_body]
fn keyberon_layout_event(layout: &mut Layout, e: KeyEvent)
    requires
        from_keymap(layout_layers(*old(layout))),
    ensures
        *final(layout) == layout_after_event(*old(layout), e),
        layout_layers(*final(layout)) == layout_layers(*old(layout)),
{
    let ev = match e {
        KeyEvent::Press(i, j) => keyberon::layout::Event::Press(i, j),
        KeyEvent::Release(i, j) => keyberon::layout::Event::Release(i, j),
    };
    let _ = layout.event(ev);
}

/// Calls `keyberon::layout::Layout::tick`, one unit of time for hold-tap
/// timeouts and queued events; the key codes it hands back are not used.
/// The layers stay; it cannot panic for the reasons given at
/// `keyberon_layout_event`.
#[verifier::external_body]
fn keyberon_layout_tick(layout: &mut Layout)
    requires
        from_keymap(layout_layers(*old(layout))),
    ensures
        *final(layout) == layout_after_tick(*old(layout)),
        layout_layers(*final(layout)) == layout_layers(*old(layout)),
{
    let _ = layout.tick();
}

/// Collects `keyberon::layout::Layout::keycodes` into a
/// `keyberon::key_code::KbHidReport`.
#[verifier::external_body]
fn keyberon_layout_report(layout: &Layout) -> (r: KbHidReport)
    ensures
        r == layout_report(*layout),
{
    layout.keycodes().collect()
}

/// The keyberon action of one keymap action.
fn to_keyberon(a: &KeyAction) -> (r: Action)
    ensures
        r == action_of(*a),
        match *a {
            KeyAction::Simple(s) => r == simple_action_of(s),
            KeyAction::HoldTap { timeout, hold, tap } => r == hold_tap_of(
                timeout,
                simple_action_of(hold),
                simple_action_of(tap),
            ),
        },
{
    match a {
        KeyAction::Simple(s) => keyberon_simple_action(s),
        KeyAction::HoldTap { timeout, hold, tap } => {
            let h = keyberon_simple_action(hold);
            let t = keyberon_simple_action(tap);
            keyberon_hold_tap(*timeout, h, t)
        },
    }
}

/// The keyberon action of a keymap hold-tap is the keyberon hold-tap with
/// the keymap's own timeout, its hold built as the hold and its tap built
/// as the tap; a simple action is built as itself.
pub proof fn lemma_action_of_parts(a: KeyAction)
    ensures
        a matches KeyAction::HoldTap { timeout, hold, tap } ==> action_of(a) == hold_tap_of(
            timeout,
            simple_action_of(hold),
            simple_action_of(tap),
        ),
        a matches KeyAction::Simple(s) ==> action_of(a) == simple_action_of(s),
{
}

/// The layers of a keymap come from a keymap.
pub proof fn lemma_layers_of_from_keymap(keymap: Seq<Vec<Vec<KeyAction>>>)
    ensures
        from_keymap(layers_of(keymap)),
{
    let layers = layers_of(keymap);
    assert forall|i: int, j: int, k: int|
        0 <= i < layers.len() && 0 <= j < layers[i].len() && 0 <= k < layers[i][j].len()
            implies is_keymap_action(#[trigger] layers[i][j][k]) by {
        let a = keymap[i]@[j]@[k];
        assert(layers[i][j][k] == action_of(a));
    }
}

/// Builds the keyberon layout of a keymap, `keymap[layer][row][column]`.
pub fn new_layout(keymap: &Vec<Vec<Vec<KeyAction>>>) -> (l: Layout)
    ensures
        l == fresh_layout(layers_of(keymap@)),
        layout_layers(l).len() == keymap@.len(),
        forall|i: int|
            0 <= i < keymap@.len() ==> #[trigger] layout_layers(l)[i].len() == keymap@[i]@.len(),
        forall|i: int, j: int|
            0 <= i < keymap@.len() && 0 <= j < keymap@[i]@.len() ==> #[trigger] layout_layers(
                l,
            )[i][j].len() == keymap@[i]@[j]@.len(),
        forall|i: int, j: int, k: int|
            0 <= i < keymap@.len() && 0 <= j < keymap@[i]@.len() && 0 <= k < keymap@[i]@[j]@.len()
                ==> match #[trigger] keymap@[i]@[j]@[k] {
                KeyAction::Simple(s) => layout_layers(l)[i][j][k] == simple_action_of(s),
                KeyAction::HoldTap { timeout, hold, tap } => layout_layers(l)[i][j][k]
                    == hold_tap_of(timeout, simple_action_of(hold), simple_action_of(tap)),
            },
        layout_layers(l) == layers_of(keymap@),
        from_keymap(layout_layers(l)),
{
    let mut layers: Vec<Vec<Vec<Action>>> = Vec::new();
    for i in 0..keymap.len()
        invariant
            layers@.len() == i,
            forall|p: int| 0 <= p < i ==> (#[trigger] layers@[p])@.len() == keymap@[p]@.len(),
            forall|p: int, q: int|
                0 <= p < i && 0 <= q < keymap@[p]@.len() ==> (#[trigger] layers@[p]@[q])@
                    == layers_of(keymap@)[p][q],
    {
        let mut rows: Vec<Vec<Action>> = Vec::new();
        let n_rows = keymap[i].len();
        for j in 0..n_rows
            invariant
                i < keymap@.len(),
                n_rows == keymap@[i as int]@.len(),
                rows@.len() == j,
                forall|q: int| 0 <= q < j ==> (#[trigger] rows@[q])@ == layers_of(keymap@)[i as int][q],
        {
            let mut row: Vec<Action> = Vec::new();
            let n_cols = keymap[i][j].len();
            for k in 0..n_cols
                invariant
                    i < keymap@.len(),
                    j < keymap@[i as int]@.len(),
                    n_cols == keymap@[i as int]@[j as int]@.len(),
                    row@.len() == k,
                    forall|m: int| 0 <= m < k ==> #[trigger] row@[m] == action_of(
                        keymap@[i as int]@[j as int]@[m],
                    ),
            {
                row.push(to_keyberon(&keymap[i][j][k]));
            }
            assert(row@ =~= layers_of(keymap@)[i as int][j as int]);
            rows.push(row);
        }
        layers.push(rows);
    }
    let ghost built = layers@;
    let l = keyberon_layout_new(layers);
    assert(layout_layers(l) =~= layers_of(keymap@)) by {
        assert forall|p: int| 0 <= p < keymap@.len() implies layout_layers(l)[p] =~= layers_of(
            keymap@,
        )[p] by {
            assert(layout_layers(l)[p] == Seq::new(built[p]@.len(), |j: int| built[p]@[j]@));
            assert forall|q: int| 0 <= q < built[p]@.len() implies layout_layers(l)[p][q]
                == layers_of(keymap@)[p][q] by {
                assert(built[p]@[q]@ == layers_of(keymap@)[p][q]);
            }
        }
    }
    proof {
        lemma_layers_of_from_keymap(keymap@);
    }
    l
}

/// What handling an event gives.
pub enum Handled {
    /// A matrix event went into the layout; nothing is sent now.
    Queued,
    /// The layout ticked; this is its keyboard report.
    Report(KbHidReport),
}

/// Handles one event of the USB half: a matrix event (`Some`) goes into the
/// layout unchanged and ends the handling; a tick (`None`) advances the
/// layout and yields its keyboard report, to send to the host. No handling
/// ever asks for a restart: the keymap has no custom actions to press.
pub fn handle_event(layout: &mut Layout, event: Option<KeyEvent>) -> (r: Handled)
    requires
        from_keymap(layout_layers(*old(layout))),
    ensures
        layout_layers(*final(layout)) == layout_layers(*old(layout)),
        event matches Some(e) ==> *final(layout) == layout_after_event(*old(layout), e) && r is Queued,
        event is None ==> *final(layout) == layout_after_tick(*old(layout)) && r == Handled::Report(
            layout_report(layout_after_tick(*old(layout))),
        ),
{
    match event {
        Some(e) => {
            keyberon_layout_event(layout, e);
            Handled::Queued
        },
        None => {
            keyberon_layout_tick(layout);
            Handled::Report(keyberon_layout_report(layout))
        },
    }
}

} // verus!

//! Key actions, and the read-only table that maps each layer and switch to one.
use crate::keycode::{A, B, BSLASH, BSPACE, C, CAPSLOCK, COMMA, D, DOT, DOWN, E, ENTER, EQUAL, ESCAPE, F, F1, F10, F11, F12, F2, F3, F4, F5, F6, F7, F8, F9, G, GRAVE, H, I, J, K, KB0, KB1, KB2, KB3, KB4, KB5, KB6, KB7, KB8, KB9, L, LALT, LBRACKET, LCTRL, LEFT, LGUI, LSHIFT, M, MEDIA_PLAY_PAUSE, MINUS, MUTE, N, O, P, Q, QUOTE, R, RALT, RBRACKET, RGUI, RIGHT, S, SCOLON, SLASH, SPACE, T, TAB, U, UP, V, VOL_DOWN, VOL_UP, W, X, Y, Z};
use crate::matrix::{cell_of, valid_coord, NUM_KEYS};
use vstd::prelude::*;

verus! {

/// Number of layers of a keymap; layer `0` is the base layer.
pub const NUM_LAYERS: usize = 2;

/// The base layer, active at all times.
pub const BASE_LAYER: usize = 0;

/// Number of entries of a keymap: one per layer and switch.
pub const TABLE_LEN: usize = 168;

/// What a switch does when pressed.
#[derive(Clone, Copy, Debug, PartialEq, Eq, Structural)]
pub enum KeyAction {
    /// Reports a keyboard usage code while held.
    Code(u8),
    /// Defers to the next lower active layer.
    Transparent,
    /// Does nothing.
    NoOp,
    /// Activates the given layer while held.
    LayerHold(usize),
    /// Reports a media usage code while held.
    MediaKey(u8),
}

/// Whether every entry of `t` can be acted on: one entry per layer and
/// switch, and every layer-hold names an existing layer.
pub open spec fn valid_table(t: Seq<KeyAction>) -> bool {
    &&& t.len() == TABLE_LEN
    &&& forall|i: int|
        0 <= i < t.len() ==> match #[trigger] t[i] {
            KeyAction::LayerHold(l) => l < NUM_LAYERS,
            _ => true,
        }
}

/// Position of the entry of `layer` for the switch at `cell`.
pub open spec fn entry_index(layer: int, cell: int) -> int {
    layer * NUM_KEYS + cell
}

/// A layered keymap: for each layer and switch, one action.
pub struct Keymap {
    actions: [KeyAction; TABLE_LEN],
}

impl View for Keymap {
    type V = Seq<KeyAction>;

    closed spec fn view(&self) -> Seq<KeyAction> {
        self.actions@
    }
}

impl Keymap {
    pub open spec fn wf(&self) -> bool {
        valid_table(self@)
    }

    /// Entry of `layer` for the switch at `cell`.
    pub open spec fn entry(&self, layer: int, cell: int) -> KeyAction {
        self@[entry_index(layer, cell)]
    }

    /// A keymap over `actions`, laid out layer by layer, each layer row by row;
    /// `None` when a layer-hold names a layer that does not exist.
    pub fn new(actions: [KeyAction; TABLE_LEN]) -> (r: Option<Keymap>)
        ensures
            r.is_some() == valid_table(actions@),
            r.is_some() ==> r.unwrap()@ == actions@,
    {
        let mut i: usize = 0;
        while i < TABLE_LEN
            invariant
                i <= TABLE_LEN,
                actions@.len() == TABLE_LEN,
                forall|j: int|
                    0 <= j < i ==> match #[trigger] actions@[j] {
                        KeyAction::LayerHold(l) => l < NUM_LAYERS,
                        _ => true,
                    },
            decreases TABLE_LEN - i,
        {
            match actions[i] {
                KeyAction::LayerHold(l) => {
                    if l >= NUM_LAYERS {
                        return None;
                    }
                },
                _ => {},
            }
            i = i + 1;
        }
        Some(Keymap { actions })
    }

    /// The action of `layer` at switch `cell`.
    pub fn action(&self, layer: usize, cell: usize) -> (r: KeyAction)
        requires
            self.wf(),
            layer < NUM_LAYERS,
            cell < NUM_KEYS,
        ensures
            r == self.entry(layer as int, cell as int),
    {
        assert(0 <= entry_index(layer as int, cell as int) < TABLE_LEN) by (nonlinear_arith)
            requires
                layer < 2,
                cell < 84,
        ;
        self.actions[layer * NUM_KEYS + cell]
    }
}

/// The board's keymap. The base layer is a 6 by 14 US layout whose key at
/// row 5, column 10 holds layer 1; layer 1 puts volume down, volume up, mute
/// and play/pause on row 0, columns 2 to 5, and is transparent elsewhere
/// (bar one no-op under the base layer's space bar).
pub fn default_keymap() -> (r: Keymap)
    ensures
        r.wf(),
        r.entry(0, cell_of(3, 1)) == KeyAction::Code(A),
        r.entry(0, cell_of(0, 0)) == KeyAction::Code(ESCAPE),
        r.entry(0, cell_of(4, 0)) == KeyAction::Code(LSHIFT),
        r.entry(0, cell_of(5, 10)) == KeyAction::LayerHold(1),
        r.entry(0, cell_of(0, 2)) == KeyAction::Code(F2),
        r.entry(1, cell_of(0, 2)) == KeyAction::MediaKey(VOL_DOWN),
        r.entry(1, cell_of(0, 3)) == KeyAction::MediaKey(VOL_UP),
        r.entry(1, cell_of(0, 4)) == KeyAction::MediaKey(MUTE),
        r.entry(1, cell_of(0, 5)) == KeyAction::MediaKey(MEDIA_PLAY_PAUSE),
        r.entry(1, cell_of(5, 10)) == KeyAction::Transparent,
        r.entry(1, cell_of(3, 1)) == KeyAction::Transparent,
{
    let actions: [KeyAction; TABLE_LEN] = [
        // layer 0, row 0
        KeyAction::Code(ESCAPE),
        KeyAction::Code(F1),
        KeyAction::Code(F2),
        KeyAction::Code(F3),
        KeyAction::Code(F4),
        KeyAction::Code(F5),
        KeyAction::NoOp,
        KeyAction::Code(F6),
        KeyAction::Code(F7),
        KeyAction::Code(F8),
        KeyAction::Code(F9),
        KeyAction::Code(F10),
        KeyAction::Code(F11),
        KeyAction::Code(F12),
        // layer 0, row 1
        KeyAction::Code(GRAVE),
        KeyAction::Code(KB1),
        KeyAction::Code(KB2),
        KeyAction::Code(KB3),
        KeyAction::Code(KB4),
        KeyAction::Code(KB5),
        KeyAction::Code(KB6),
        KeyAction::Code(KB7),
        KeyAction::Code(KB8),
        KeyAction::Code(KB9),
        KeyAction::Code(KB0),
        KeyAction::Code(MINUS),
        KeyAction::Code(EQUAL),
        KeyAction::Code(BSPACE),
        // layer 0, row 2
        KeyAction::Code(TAB),
        KeyAction::Code(Q),
        KeyAction::Code(W),
        KeyAction::Code(E),
        KeyAction::Code(R),
        KeyAction::Code(T),
        KeyAction::Code(Y),
        KeyAction::Code(U),
        KeyAction::Code(I),
        KeyAction::Code(O),
        KeyAction::Code(P),
        KeyAction::Code(LBRACKET),
        KeyAction::Code(RBRACKET),
        KeyAction::Code(BSLASH),
        // layer 0, row 3
        KeyAction::Code(CAPSLOCK),
        KeyAction::Code(A),
        KeyAction::Code(S),
        KeyAction::Code(D),
        KeyAction::Code(F),
        KeyAction::Code(G),
        KeyAction::Code(H),
        KeyAction::Code(J),
        KeyAction::Code(K),
        KeyAction::Code(L),
        KeyAction::Code(SCOLON),
        KeyAction::Code(QUOTE),
        KeyAction::Code(ENTER),
        KeyAction::NoOp,
        // layer 0, row 4
        KeyAction::Code(LSHIFT),
        KeyAction::NoOp,
        KeyAction::Code(Z),
        KeyAction::Code(X),
        KeyAction::Code(C),
        KeyAction::Code(V),
        KeyAction::Code(B),
        KeyAction::Code(N),
        KeyAction::Code(M),
        KeyAction::Code(COMMA),
        KeyAction::Code(DOT),
        KeyAction::Code(SLASH),
        KeyAction::Code(UP),
        KeyAction::NoOp,
        // layer 0, row 5
        KeyAction::Code(LCTRL),
        KeyAction::Code(LGUI),
        KeyAction::Code(LALT),
        KeyAction::NoOp,
        KeyAction::NoOp,
        KeyAction::Code(SPACE),
        KeyAction::NoOp,
        KeyAction::NoOp,
        KeyAction::Code(RALT),
        KeyAction::Code(RGUI),
        KeyAction::LayerHold(1),
        KeyAction::Code(LEFT),
        KeyAction::Code(DOWN),
        KeyAction::Code(RIGHT),
        // layer 1, row 0
        KeyAction::Transparent,
        KeyAction::Transparent,
        KeyAction::MediaKey(VOL_DOWN),
        KeyAction::MediaKey(VOL_UP),
        KeyAction::MediaKey(MUTE),
        KeyAction::MediaKey(MEDIA_PLAY_PAUSE),
        KeyAction::Transparent,
        KeyAction::Transparent,
        KeyAction::Transparent,
        KeyAction::Transparent,
        KeyAction::Transparent,
        KeyAction::Transparent,
        KeyAction::Transparent,
        KeyAction::Transparent,
        // layer 1, row 1
        KeyAction::Transparent,
        KeyAction::Transparent,
        KeyAction::Transparent,
        KeyAction::Transparent,
        KeyAction::Transparent,
        KeyAction::Transparent,
        KeyAction::Transparent,
        KeyAction::Transparent,
        KeyAction::Transparent,
        KeyAction::Transparent,
        KeyAction::Transparent,
        KeyAction::Transparent,
        KeyAction::Transparent,
        KeyAction::Transparent,
        // layer 1, row 2
        KeyAction::Transparent,
        KeyAction::Transparent,
        KeyAction::Transparent,
        KeyAction::Transparent,
        KeyAction::Transparent,
        KeyAction::Transparent,
        KeyAction::Transparent,
        KeyAction::Transparent,
        KeyAction::Transparent,
        KeyAction::Transparent,
        KeyAction::Transparent,
        KeyAction::Transparent,
        KeyAction::Transparent,
        KeyAction::Transparent,
        // layer 1, row 3
        KeyAction::Transparent,
        KeyAction::Transparent,
        KeyAction::Transparent,
        KeyAction::Transparent,
        KeyAction::Transparent,
        KeyAction::Transparent,
        KeyAction::Transparent,
        KeyAction::Transparent,
        KeyAction::Transparent,
        KeyAction::Transparent,
        KeyAction::Transparent,
        KeyAction::Transparent,
        KeyAction::Transparent,
        KeyAction::Transparent,
        // layer 1, row 4
        KeyAction::Transparent,
        KeyAction::Transparent,
        KeyAction::Transparent,
        KeyAction::Transparent,
        KeyAction::Transparent,
        KeyAction::Transparent,
        KeyAction::Transparent,
        KeyAction::Transparent,
        KeyAction::Transparent,
        KeyAction::Transparent,
        KeyAction::Transparent,
        KeyAction::Transparent,
        KeyAction::Transparent,
        KeyAction::Transparent,
        // layer 1, row 5
        KeyAction::Transparent,
        KeyAction::Transparent,
        KeyAction::Transparent,
        KeyAction::Transparent,
        KeyAction::NoOp,
        KeyAction::Transparent,
        KeyAction::Transparent,
        KeyAction::Transparent,
        KeyAction::Transparent,
        KeyAction::Transparent,
        KeyAction::Transparent,
        KeyAction::Transparent,
        KeyAction::Transparent,
        KeyAction::Transparent,
    ];
    Keymap { actions }
}

} // verus!

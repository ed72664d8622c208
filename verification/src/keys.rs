//! The d-pad input contract of a mode screen: arrows, Enter and Esc move
//! the focus, edit the frequency, drive the preset and open-in pickers
//! and operate the controls. The screen keeps a `ModeUiState`; each frame
//! `key_step` gives the next state and the actions the screen carries out.

use vstd::prelude::*;
use crate::freq::{digit_at, lemma_pow10_pos, pow10, spec_down, spec_type_digit, spec_up, FreqInput, MAX_HZ};
use crate::modes::{mode_def, spec_mode_def, spec_modes, ModeId};
use crate::ui::{controls_for, has_list, openin_candidates, spec_controls, spec_has_list, spec_openin, Ctl, PresetItem};

verus! {

/// The keys pressed in one frame.
#[derive(Clone, Copy, PartialEq, Eq, Debug, Structural)]
pub struct Keys {
    pub esc: bool,
    pub enter: bool,
    pub up: bool,
    pub down: bool,
    pub left: bool,
    pub right: bool,
}

/// What a mode screen remembers between frames for key handling.
#[derive(Clone, Copy, Debug)]
pub struct ModeUiState {
    pub freq: FreqInput,
    /// 0 = frequency tuner, 1..=n = the n controls, n+1 = the list
    pub focus: usize,
    pub editing_freq: bool,
    pub list_mode: bool,
    pub preset_open: bool,
    pub preset_sel: usize,
    pub openin_open: bool,
    pub openin_sel: usize,
}

/// What the screen does after a key step.
#[derive(Clone, Copy, PartialEq, Eq, Debug, Structural)]
pub enum KeyAction {
    /// retune to the editor's frequency (after a short settle)
    Retune,
    /// hand this frequency off to another mode
    OpenIn(ModeId, u64),
    /// remove the saved memory at this index (and save)
    DeleteMemory(usize),
    /// Enter on a control
    Activate(Ctl),
    /// Left (-1) or Right (+1) on a control
    Adjust(Ctl, i8),
    /// the keys go to the focused list
    ListKeys,
    /// leave to the menu, keeping this mode's state
    Back,
}

impl ModeUiState {
    /// A fresh screen tuned to `hz`.
    pub fn new(hz: u64) -> (s: Self)
        ensures
            s.freq.hz == (if hz <= MAX_HZ { hz } else { MAX_HZ }),
            s.freq.cursor == 3,
            s.focus == 0,
            !s.editing_freq && !s.list_mode && !s.preset_open && !s.openin_open,
            s.preset_sel == 0 && s.openin_sel == 0,
    {
        ModeUiState {
            freq: FreqInput::new(hz),
            focus: 0,
            editing_freq: false,
            list_mode: false,
            preset_open: false,
            preset_sel: 0,
            openin_open: false,
            openin_sel: 0,
        }
    }
}

/// Cursor one digit to the left (towards GHz).
pub open spec fn cursor_left(f: FreqInput) -> FreqInput {
    FreqInput { hz: f.hz, cursor: if f.cursor < 9 { (f.cursor + 1) as u32 } else { f.cursor } }
}

/// Cursor one digit to the right (towards Hz).
pub open spec fn cursor_right(f: FreqInput) -> FreqInput {
    FreqInput { hz: f.hz, cursor: if f.cursor > 0 { (f.cursor - 1) as u32 } else { f.cursor } }
}

pub open spec fn dec1(x: usize) -> usize {
    if x > 0 { (x - 1) as usize } else { 0 }
}

/// A selection moved by Up, then Down, within `n` rows.
pub open spec fn move_sel(sel: usize, up: bool, down: bool, n: nat) -> usize {
    let a = if up { dec1(sel) } else { sel };
    let cap: int = if n > 0 { n - 1 } else { 0 };
    if down {
        if a >= cap { cap as usize } else { (a + 1) as usize }
    } else {
        a
    }
}

pub open spec fn when_act(c: bool, a: KeyAction) -> Seq<KeyAction> {
    if c { seq![a] } else { seq![] }
}

/// Open-in picker: Up/Down select, Enter hands off, Esc closes.
pub open spec fn openin_keys(st: ModeUiState, cands: Seq<ModeId>, k: Keys) -> (ModeUiState, Seq<KeyAction>) {
    let sel = move_sel(st.openin_sel, k.up, k.down, cands.len());
    (
        ModeUiState { openin_sel: sel, openin_open: !(k.esc || k.enter), ..st },
        if k.enter && sel < cands.len() { seq![KeyAction::OpenIn(cands[sel as int], st.freq.hz)] } else { seq![] },
    )
}

/// Preset picker: Up/Down select, Enter tunes to the row, Right deletes a
/// memory row, Esc closes.
pub open spec fn preset_keys(st: ModeUiState, items: Seq<PresetItem>, k: Keys) -> (ModeUiState, Seq<KeyAction>) {
    let sel = move_sel(st.preset_sel, k.up, k.down, items.len());
    let picked = k.enter && sel < items.len();
    let del = k.right && sel < items.len() && items[sel as int].mem_idx is Some;
    (
        ModeUiState {
            freq: if picked { FreqInput { hz: items[sel as int].hz, cursor: st.freq.cursor } } else { st.freq },
            preset_open: !k.esc && !picked,
            preset_sel: if del { dec1(sel) } else { sel },
            ..st
        },
        when_act(picked, KeyAction::Retune) + when_act(
            del,
            KeyAction::DeleteMemory(items[sel as int].mem_idx->0),
        ),
    )
}

/// Up/Down move the focus over `n_focus` places; Esc leaves the screen.
pub open spec fn focus_keys(st: ModeUiState, acts: Seq<KeyAction>, n_focus: nat, k: Keys) -> (ModeUiState, Seq<KeyAction>) {
    (ModeUiState { focus: move_sel(st.focus, k.up, k.down, n_focus), ..st }, acts + when_act(k.esc, KeyAction::Back))
}

pub open spec fn typed(f: FreqInput, digit: Option<u8>) -> FreqInput {
    match digit {
        Some(d) => spec_type_digit(f, d),
        None => f,
    }
}

/// The frequency tuner has the focus: a typed digit replaces the digit
/// under the cursor; while editing, Left/Right move the cursor and Up/Down
/// step the digit until Enter or Esc; otherwise Enter starts editing and
/// Left/Right step the frequency down/up.
pub open spec fn tuner_keys(st: ModeUiState, digit: Option<u8>, n_focus: nat, k: Keys) -> (ModeUiState, Seq<KeyAction>) {
    let f1 = typed(st.freq, digit);
    let a1 = when_act(digit is Some, KeyAction::Retune);
    if st.editing_freq {
        let f2 = if k.left { cursor_left(f1) } else { f1 };
        let f3 = if k.right { cursor_right(f2) } else { f2 };
        let f4 = if k.up { spec_up(f3) } else { f3 };
        let f5 = if k.down { spec_down(f4) } else { f4 };
        (
            ModeUiState { freq: f5, editing_freq: !(k.enter || k.esc), ..st },
            a1 + when_act(k.up || k.down, KeyAction::Retune),
        )
    } else if k.enter {
        (ModeUiState { freq: f1, editing_freq: true, ..st }, a1)
    } else {
        let f2 = if k.left { spec_down(f1) } else if k.right { spec_up(f1) } else { f1 };
        focus_keys(
            ModeUiState { freq: f2, ..st },
            a1 + when_act(k.left || k.right, KeyAction::Retune),
            n_focus,
            k,
        )
    }
}

/// A control has the focus: Enter activates it, Left/Right adjust it.
pub open spec fn control_keys(c: Ctl, k: Keys) -> Seq<KeyAction> {
    when_act(k.enter, KeyAction::Activate(c)) + when_act(k.left, KeyAction::Adjust(c, -1i8))
        + when_act(k.right, KeyAction::Adjust(c, 1i8))
}

/// One frame of keys on the screen of `mode`: the open-in picker, then the
/// preset picker take the keys when open; otherwise the focused place
/// does, and the focus moves.
pub open spec fn spec_key_step(
    st: ModeUiState,
    mode: ModeId,
    items: Seq<PresetItem>,
    digit: Option<u8>,
    k: Keys,
) -> (ModeUiState, Seq<KeyAction>) {
    let ctls = spec_controls(mode);
    let n_focus: nat = 1 + ctls.len() + if spec_has_list(spec_mode_def(mode).view) { 1nat } else { 0nat };
    if st.openin_open {
        openin_keys(st, spec_openin(spec_modes()), k)
    } else if st.preset_open {
        preset_keys(st, items, k)
    } else if st.focus == 0 {
        tuner_keys(st, digit, n_focus, k)
    } else if st.focus <= ctls.len() {
        focus_keys(st, control_keys(ctls[st.focus - 1], k), n_focus, k)
    } else if !st.list_mode && k.enter {
        (ModeUiState { list_mode: true, ..st }, seq![])
    } else if st.list_mode {
        (st, seq![KeyAction::ListKeys])
    } else {
        focus_keys(st, seq![], n_focus, k)
    }
}

/// The number of focus places on the screen of `mode`: the tuner, each
/// control, and the list where the view has one.
pub open spec fn focus_places(mode: ModeId) -> nat {
    1 + spec_controls(mode).len() + if spec_has_list(spec_mode_def(mode).view) { 1nat } else { 0nat }
}

/// The d-pad alone operates a screen: with no picker open, Down moves the
/// focus to the next place (stopping at the last), Up to the previous one
/// (stopping at the tuner), and Esc leaves the screen; on a control, Enter
/// activates it and Left/Right adjust it, whatever the digit keys do.
pub proof fn lemma_dpad_operates(st: ModeUiState, mode: ModeId, items: Seq<PresetItem>, digit: Option<u8>)
    requires
        !st.openin_open,
        !st.preset_open,
        !st.editing_freq,
        !st.list_mode,
        st.focus < focus_places(mode),
    ensures
        ({
            let down = Keys { esc: false, enter: false, up: false, down: true, left: false, right: false };
            let r = spec_key_step(st, mode, items, None, down);
            &&& r.0.focus == (if st.focus + 1 < focus_places(mode) { st.focus + 1 } else { st.focus as int })
            &&& r.1 == Seq::<KeyAction>::empty()
        }),
        ({
            let up = Keys { esc: false, enter: false, up: true, down: false, left: false, right: false };
            let r = spec_key_step(st, mode, items, None, up);
            &&& r.0.focus == (if st.focus > 0 { st.focus - 1 } else { 0int })
            &&& r.1 == Seq::<KeyAction>::empty()
        }),
        ({
            let esc = Keys { esc: true, enter: false, up: false, down: false, left: false, right: false };
            spec_key_step(st, mode, items, None, esc).1 == seq![KeyAction::Back]
        }),
        0 < st.focus <= spec_controls(mode).len() ==> ({
            let c = spec_controls(mode)[st.focus - 1];
            let enter = Keys { esc: false, enter: true, up: false, down: false, left: false, right: false };
            let left = Keys { esc: false, enter: false, up: false, down: false, left: true, right: false };
            let right = Keys { esc: false, enter: false, up: false, down: false, left: false, right: true };
            &&& spec_key_step(st, mode, items, digit, enter).1 == seq![KeyAction::Activate(c)]
            &&& spec_key_step(st, mode, items, digit, left).1 == seq![KeyAction::Adjust(c, -1i8)]
            &&& spec_key_step(st, mode, items, digit, right).1 == seq![KeyAction::Adjust(c, 1i8)]
        }),
{
    let e = Seq::<KeyAction>::empty();
    assert(e + e == e);
    assert(e + seq![KeyAction::Back] == seq![KeyAction::Back]);
    assert(seq![KeyAction::Activate(spec_controls(mode)[st.focus - 1])] + e + e == seq![KeyAction::Activate(spec_controls(mode)[st.focus - 1])]);
    assert(e + seq![KeyAction::Adjust(spec_controls(mode)[st.focus - 1], -1i8)] + e == seq![KeyAction::Adjust(spec_controls(mode)[st.focus - 1], -1i8)]);
    assert(e + e + seq![KeyAction::Adjust(spec_controls(mode)[st.focus - 1], 1i8)] == seq![KeyAction::Adjust(spec_controls(mode)[st.focus - 1], 1i8)]);
    assert(e + e + e == e);
}

fn move_sel_of(sel: usize, up: bool, down: bool, n: usize) -> (r: usize)
    ensures
        r == move_sel(sel, up, down, n as nat),
{
    let a = if up { sel.saturating_sub(1) } else { sel };
    let cap = n.saturating_sub(1);
    if down {
        if a >= cap { cap } else { a + 1 }
    } else {
        a
    }
}

fn push_when(v: &mut Vec<KeyAction>, c: bool, a: KeyAction)
    ensures
        final(v)@ == old(v)@ + when_act(c, a),
{
    if c {
        v.push(a);
    }
    proof {
        if c {
            assert(old(v)@.push(a) == old(v)@ + seq![a]);
        } else {
            assert(old(v)@ + Seq::<KeyAction>::empty() == old(v)@);
        }
    }
}

proof fn lemma_weight(c: u32)
    requires
        c <= 9,
    ensures
        1 <= pow10(c as nat) <= 1_000_000_000,
{
    reveal_with_fuel(pow10, 10);
    lemma_pow10_pos(c as nat);
    if c == 0 {} else if c == 1 {} else if c == 2 {} else if c == 3 {} else if c == 4 {}
    else if c == 5 {} else if c == 6 {} else if c == 7 {} else if c == 8 {} else {}
}

/// Headroom that keeps every frequency step free of overflow.
pub open spec fn freq_room(f: FreqInput) -> bool {
    f.cursor <= 9 && f.hz <= u64::MAX - 1_000_000_000_000
}

/// The tuner's key handling, on a frequency with headroom.
fn tuner_step(st: &ModeUiState, digit: Option<u8>, n_focus: usize, k: Keys) -> (r: (ModeUiState, Vec<KeyAction>))
    requires
        st.focus == 0,
        freq_room(st.freq),
        n_focus >= 1,
    ensures
        (r.0, r.1@) == tuner_keys(*st, digit, n_focus as nat, k),
{
    let mut s = *st;
    let mut acts: Vec<KeyAction> = Vec::new();
    proof {
        lemma_weight(s.freq.cursor);
    }
    match digit {
        Some(d) => {
            proof {
                let w = pow10(s.freq.cursor as nat);
                assert(d * w <= 255 * 1_000_000_000) by (nonlinear_arith)
                    requires
                        d <= 255,
                        w <= 1_000_000_000,
                        w >= 1,
                ;
                let h = s.freq.hz as nat;
                assert(0 <= digit_at(h, s.freq.cursor as nat) * w <= h) by (nonlinear_arith)
                    requires
                        w >= 1,
                        digit_at(h, s.freq.cursor as nat) == (h / w) % 10,
                {
                    assert((h / w) % 10 <= h / w);
                    assert((h / w) * w <= h);
                }
            }
            let ghost h0 = s.freq.hz;
            s.freq.type_digit(d);
            proof {
                let w = pow10(st.freq.cursor as nat);
                let v: int = h0 - digit_at(h0 as nat, st.freq.cursor as nat) * w + d * w;
                assert(0 <= v <= u64::MAX - 1_000_000_000_000 + 255_000_000_000);
                assert(s.freq.hz == v);
            }
            acts.push(KeyAction::Retune);
            proof {
                assert(acts@ == seq![KeyAction::Retune]);
            }
        },
        None => {},
    }
    let ghost a1 = acts@;
    assert(a1 == when_act(digit is Some, KeyAction::Retune));
    assert(s.freq == typed(st.freq, digit));
    // the typed digit added at most 255 * 10^9: room for one more step
    assert(s.freq.hz <= u64::MAX - 1_000_000_000_000 + 255_000_000_000);
    assert(s.freq.cursor <= 9);
    if s.editing_freq {
        if k.left {
            s.freq.left();
        }
        if k.right {
            s.freq.right();
        }
        proof {
            lemma_weight(s.freq.cursor);
        }
        if k.up {
            s.freq.up();
        }
        proof {
            lemma_weight(s.freq.cursor);
        }
        if k.down {
            s.freq.down();
        }
        push_when(&mut acts, k.up || k.down, KeyAction::Retune);
        if k.enter || k.esc {
            s.editing_freq = false;
        }
        return (s, acts);
    }
    if k.enter {
        s.editing_freq = true;
        return (s, acts);
    }
    if k.left {
        s.freq.down();
    } else if k.right {
        s.freq.up();
    }
    push_when(&mut acts, k.left || k.right, KeyAction::Retune);
    s.focus = move_sel_of(s.focus, k.up, k.down, n_focus);
    push_when(&mut acts, k.esc, KeyAction::Back);
    (s, acts)
}

/// One frame of keys on the screen of `mode`, with the preset picker's
/// rows `items`, and `digit` the digit key typed, if any.
pub fn key_step(st: &ModeUiState, mode: ModeId, items: &Vec<PresetItem>, digit: Option<u8>, k: Keys) -> (r: (
    ModeUiState,
    Vec<KeyAction>,
))
    requires
        freq_room(st.freq),
    ensures
        (r.0, r.1@) == spec_key_step(*st, mode, items@, digit, k),
{
    let view = mode_def(mode).view;
    let ctls = controls_for(mode);
    let extra: usize = if has_list(view) { 1 } else { 0 };
    assert(ctls@.len() <= 20);
    let n_focus: usize = 1 + ctls.len() + extra;
    let mut s = *st;
    let mut acts: Vec<KeyAction> = Vec::new();
    if s.openin_open {
        let cands = openin_candidates();
        let sel = move_sel_of(s.openin_sel, k.up, k.down, cands.len());
        s.openin_sel = sel;
        s.openin_open = !(k.esc || k.enter);
        if k.enter && sel < cands.len() {
            acts.push(KeyAction::OpenIn(cands[sel], st.freq.hz));
        }
        return (s, acts);
    }
    if s.preset_open {
        let sel = move_sel_of(s.preset_sel, k.up, k.down, items.len());
        let picked = k.enter && sel < items.len();
        if picked {
            s.freq.hz = items[sel].hz;
        }
        s.preset_open = !k.esc && !picked;
        push_when(&mut acts, picked, KeyAction::Retune);
        s.preset_sel = sel;
        if k.right && sel < items.len() {
            match items[sel].mem_idx {
                Some(mi) => {
                    acts.push(KeyAction::DeleteMemory(mi));
                    s.preset_sel = sel.saturating_sub(1);
                },
                None => {},
            }
        }
        return (s, acts);
    }
    if s.focus == 0 {
        let r = tuner_step(&s, digit, n_focus, k);
        return r;
    }
    if s.focus <= ctls.len() {
        let c = ctls[s.focus - 1];
        push_when(&mut acts, k.enter, KeyAction::Activate(c));
        push_when(&mut acts, k.left, KeyAction::Adjust(c, -1));
        push_when(&mut acts, k.right, KeyAction::Adjust(c, 1));
    } else if !s.list_mode && k.enter {
        s.list_mode = true;
        return (s, acts);
    } else if s.list_mode {
        acts.push(KeyAction::ListKeys);
        return (s, acts);
    }
    s.focus = move_sel_of(s.focus, k.up, k.down, n_focus);
    push_when(&mut acts, k.esc, KeyAction::Back);
    (s, acts)
}

} // verus!

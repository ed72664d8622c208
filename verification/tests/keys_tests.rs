use deck::keys::{key_step, KeyAction, Keys, ModeUiState};
use deck::modes::ModeId;
use deck::ui::{controls_for, openin_candidates, Ctl, PresetItem};

fn k() -> Keys {
    Keys { esc: false, enter: false, up: false, down: false, left: false, right: false }
}

#[test]
fn dpad_walks_the_focus_and_leaves() {
    let st = ModeUiState::new(145_500_000);
    let n = controls_for(ModeId::Nfm).len();
    let mut s = st;
    for i in 1..=n + 3 {
        let (t, a) = key_step(&s, ModeId::Nfm, &vec![], None, Keys { down: true, ..k() });
        assert!(a.is_empty());
        // NFM has no list: the last place is the last control
        assert_eq!(t.focus, i.min(n));
        s = t;
    }
    let (t, a) = key_step(&s, ModeId::Nfm, &vec![], None, Keys { up: true, ..k() });
    assert_eq!(t.focus, n - 1);
    assert!(a.is_empty());
    let (_, a) = key_step(&s, ModeId::Nfm, &vec![], None, Keys { esc: true, ..k() });
    assert_eq!(a, vec![KeyAction::Back]);
}

#[test]
fn controls_take_enter_and_left_right() {
    let mut st = ModeUiState::new(145_500_000);
    st.focus = 1;
    let c = controls_for(ModeId::Nfm)[0];
    assert_eq!(c, Ctl::Rx);
    let (_, a) = key_step(&st, ModeId::Nfm, &vec![], None, Keys { enter: true, left: true, ..k() });
    assert_eq!(a, vec![KeyAction::Activate(Ctl::Rx), KeyAction::Adjust(Ctl::Rx, -1)]);
}

#[test]
fn tuner_edits_and_steps() {
    let st = ModeUiState::new(145_500_000);
    // not editing: Right steps up one kHz and retunes
    let (t, a) = key_step(&st, ModeId::Nfm, &vec![], None, Keys { right: true, ..k() });
    assert_eq!(t.freq.hz, 145_501_000);
    assert_eq!(a, vec![KeyAction::Retune]);
    // Enter starts editing; Left moves the cursor, Up steps 10 kHz
    let (t, a) = key_step(&st, ModeId::Nfm, &vec![], None, Keys { enter: true, ..k() });
    assert!(t.editing_freq && a.is_empty());
    let (t, _) = key_step(&t, ModeId::Nfm, &vec![], None, Keys { left: true, ..k() });
    assert_eq!(t.freq.cursor, 4);
    let (t, a) = key_step(&t, ModeId::Nfm, &vec![], None, Keys { up: true, ..k() });
    assert_eq!(t.freq.hz, 145_510_000);
    assert_eq!(a, vec![KeyAction::Retune]);
    let (t, _) = key_step(&t, ModeId::Nfm, &vec![], None, Keys { esc: true, ..k() });
    assert!(!t.editing_freq && t.focus == 0);
    // a typed digit replaces the digit under the cursor
    let (t, a) = key_step(&t, ModeId::Nfm, &vec![], Some(7), k());
    assert_eq!(t.freq.hz, 145_570_000);
    assert_eq!(t.freq.cursor, 3);
    assert_eq!(a, vec![KeyAction::Retune]);
}

#[test]
fn preset_picker_tunes_and_deletes_memories() {
    let items = vec![
        PresetItem { label: "a".into(), hz: 145_000_000, mem_idx: None },
        PresetItem { label: "* m".into(), hz: 433_500_000, mem_idx: Some(4) },
    ];
    let mut st = ModeUiState::new(145_500_000);
    st.preset_open = true;
    let (t, a) = key_step(&st, ModeId::Nfm, &items, None, Keys { down: true, ..k() });
    assert_eq!(t.preset_sel, 1);
    assert!(t.preset_open && a.is_empty());
    let (t2, a) = key_step(&t, ModeId::Nfm, &items, None, Keys { right: true, ..k() });
    assert_eq!(a, vec![KeyAction::DeleteMemory(4)]);
    assert_eq!(t2.preset_sel, 0);
    let (t3, a) = key_step(&t, ModeId::Nfm, &items, None, Keys { enter: true, ..k() });
    assert_eq!(t3.freq.hz, 433_500_000);
    assert!(!t3.preset_open);
    assert_eq!(a, vec![KeyAction::Retune]);
    let (t4, a) = key_step(&t, ModeId::Nfm, &items, None, Keys { esc: true, ..k() });
    assert!(!t4.preset_open && a.is_empty());
}

#[test]
fn open_in_hands_off_the_frequency() {
    let mut st = ModeUiState::new(162_025_000);
    st.openin_open = true;
    let (t, a) = key_step(&st, ModeId::Waterfall, &vec![], None, Keys { down: true, enter: true, ..k() });
    assert!(!t.openin_open);
    assert_eq!(a, vec![KeyAction::OpenIn(openin_candidates()[1], 162_025_000)]);
}

#[test]
fn list_focus_enters_list_mode() {
    let mut st = ModeUiState::new(466_075_000);
    st.focus = controls_for(ModeId::Pocsag).len() + 1;
    let (t, a) = key_step(&st, ModeId::Pocsag, &vec![], None, Keys { enter: true, ..k() });
    assert!(t.list_mode && a.is_empty());
    let (_, a) = key_step(&t, ModeId::Pocsag, &vec![], None, Keys { down: true, ..k() });
    assert_eq!(a, vec![KeyAction::ListKeys]);
}

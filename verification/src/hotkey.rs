//! What the helper does with each event of its keyboard event tap, and how
//! it starts `drag-into-djay`.  The event tap itself, the child process and
//! the thread that waits for it belong to the caller.
use vstd::prelude::*;

use crate::config::{cg_flags, HotkeyDef, MODIFIER_MASK};
use crate::text::{decimal, push_decimal, string_of};

verus! {

/// `kCGEventKeyDown`.
pub const EVENT_KEY_DOWN: u32 = 10;

/// `kCGEventTapDisabledByTimeout`.
pub const EVENT_TAP_DISABLED_BY_TIMEOUT: u32 = 0xFFFF_FFFE;

/// `kCGEventTapDisabledByUserInput`.
pub const EVENT_TAP_DISABLED_BY_USER_INPUT: u32 = 0xFFFF_FFFF;

/// The answer to one event of the tap.
#[derive(PartialEq, Eq, Structural, Clone, Copy, Debug)]
pub enum TapAction {
    /// The tap was disabled: enable it again and pass the event on.
    Reenable,
    /// Not a hotkey: pass the event on.
    PassThrough,
    /// A hotkey while `drag-into-djay` is still running: swallow the event
    /// and start nothing.
    Busy,
    /// A hotkey: swallow the event, mark a load as running and start
    /// `drag-into-djay` for this deck.
    Launch { deck: u8 },
}

/// Whether a hotkey matches a key press: same key code, and the same
/// modifier bits once the other flag bits are masked off.
pub open spec fn hotkey_matches(hk: HotkeyDef, keycode: u16, flags: u64) -> bool {
    hk.keycode == keycode && cg_flags(hk.modifiers) == flags & MODIFIER_MASK
}

/// The first of `hks` that matches a key press.
pub open spec fn first_match(hks: Seq<HotkeyDef>, keycode: u16, flags: u64) -> Option<HotkeyDef>
    decreases hks.len(),
{
    if hks.len() == 0 {
        None
    } else if hotkey_matches(hks[0], keycode, flags) {
        Some(hks[0])
    } else {
        first_match(hks.drop_first(), keycode, flags)
    }
}

/// The answer to an event of type `event_type` with key code `keycode` and
/// flags `flags`, given the hotkeys and whether a load is running.
pub open spec fn tap_answer(
    event_type: u32,
    keycode: u16,
    flags: u64,
    hks: Seq<HotkeyDef>,
    running: bool,
) -> TapAction {
    if event_type == EVENT_TAP_DISABLED_BY_TIMEOUT || event_type
        == EVENT_TAP_DISABLED_BY_USER_INPUT {
        TapAction::Reenable
    } else if event_type != EVENT_KEY_DOWN {
        TapAction::PassThrough
    } else {
        match first_match(hks, keycode, flags) {
            None => TapAction::PassThrough,
            Some(hk) => if running {
                TapAction::Busy
            } else {
                TapAction::Launch { deck: hk.deck }
            },
        }
    }
}

fn matches_exec(hk: &HotkeyDef, keycode: u16, flags: u64) -> (b: bool)
    ensures
        b == hotkey_matches(*hk, keycode, flags),
{
    hk.keycode == keycode && hk.modifiers.as_cg_flags() == flags & MODIFIER_MASK
}

/// Decides what to do with one event of the keyboard tap.
pub fn tap_action(
    event_type: u32,
    keycode: u16,
    flags: u64,
    hotkeys: &Vec<HotkeyDef>,
    running: bool,
) -> (a: TapAction)
    ensures
        a == tap_answer(event_type, keycode, flags, hotkeys@, running),
{
    if event_type == EVENT_TAP_DISABLED_BY_TIMEOUT || event_type
        == EVENT_TAP_DISABLED_BY_USER_INPUT {
        return TapAction::Reenable;
    }
    if event_type != EVENT_KEY_DOWN {
        return TapAction::PassThrough;
    }
    let n = hotkeys.len();
    assert(hotkeys@.skip(0) =~= hotkeys@);
    for i in 0..n
        invariant
            n == hotkeys@.len(),
            event_type == EVENT_KEY_DOWN,
            first_match(hotkeys@, keycode, flags) == first_match(
                hotkeys@.skip(i as int),
                keycode,
                flags,
            ),
    {
        proof {
            assert(hotkeys@.skip(i as int)[0] == hotkeys@[i as int]);
            assert(hotkeys@.skip(i as int).drop_first() =~= hotkeys@.skip(i + 1));
        }
        if matches_exec(&hotkeys[i], keycode, flags) {
            if running {
                return TapAction::Busy;
            } else {
                return TapAction::Launch { deck: hotkeys[i].deck };
            }
        }
    }
    assert(hotkeys@.skip(n as int) =~= Seq::<HotkeyDef>::empty());
    TapAction::PassThrough
}

/// Whether a load (a run of `drag-into-djay`) is in progress: a hotkey
/// launches a load only when none runs, and the flag stays set until the
/// launched load has finished.
pub struct LoadGuard {
    pub running: bool,
}

/// The running flag after one event of the tap: set when the event
/// launches a load, unchanged otherwise.
pub open spec fn running_after_tap(
    running: bool,
    event_type: u32,
    keycode: u16,
    flags: u64,
    hks: Seq<HotkeyDef>,
) -> bool {
    running || tap_answer(event_type, keycode, flags, hks, running) is Launch
}

impl LoadGuard {
    /// No load is running when the helper starts.
    pub fn new() -> (g: LoadGuard)
        ensures
            !g.running,
    {
        LoadGuard { running: false }
    }

    /// Answers one event of the tap and records a launched load.
    pub fn on_tap(
        &mut self,
        event_type: u32,
        keycode: u16,
        flags: u64,
        hotkeys: &Vec<HotkeyDef>,
    ) -> (a: TapAction)
        ensures
            a == tap_answer(event_type, keycode, flags, hotkeys@, old(self).running),
            final(self).running == running_after_tap(
                old(self).running,
                event_type,
                keycode,
                flags,
                hotkeys@,
            ),
    {
        let a = tap_action(event_type, keycode, flags, hotkeys, self.running);
        match a {
            TapAction::Launch { .. } => {
                self.running = true;
            },
            _ => {},
        }
        a
    }

    /// The launched load has finished: the next hotkey may launch again.
    pub fn on_load_finished(&mut self)
        ensures
            !final(self).running,
    {
        self.running = false;
    }
}

/// What happens to the helper: an event of the keyboard tap, or the end of
/// the load it launched.
pub enum HelperEvent {
    Tap { event_type: u32, keycode: u16, flags: u64 },
    LoadFinished,
}

/// The running flag and the number of loads in progress after one event.
pub open spec fn helper_step(s: (bool, nat), e: HelperEvent, hks: Seq<HotkeyDef>) -> (bool, nat) {
    match e {
        HelperEvent::Tap { event_type, keycode, flags } => (
            running_after_tap(s.0, event_type, keycode, flags, hks),
            if tap_answer(event_type, keycode, flags, hks, s.0) is Launch {
                s.1 + 1
            } else {
                s.1
            },
        ),
        HelperEvent::LoadFinished => (false, if s.1 > 0 {
            (s.1 - 1) as nat
        } else {
            0
        }),
    }
}

/// The running flag and the number of loads in progress after a sequence
/// of events, from the start of the helper.
pub open spec fn helper_state(es: Seq<HelperEvent>, hks: Seq<HotkeyDef>) -> (bool, nat)
    decreases es.len(),
{
    if es.len() == 0 {
        (false, 0)
    } else {
        helper_step(helper_state(es.drop_last(), hks), es.last(), hks)
    }
}

/// A sequence of events in which a load only finishes after it started.
pub open spec fn finishes_follow_launches(es: Seq<HelperEvent>, hks: Seq<HotkeyDef>) -> bool {
    forall|i: int|
        0 <= i < es.len() && #[trigger] es[i] is LoadFinished ==> helper_state(es.take(i), hks).1
            > 0
}

/// At most one load is in progress at any moment: the running flag is set
/// exactly while one is, and a hotkey that arrives while it runs launches
/// nothing (it is answered `Busy` and swallowed).
pub proof fn lemma_one_load_at_a_time(es: Seq<HelperEvent>, hks: Seq<HotkeyDef>)
    requires
        finishes_follow_launches(es, hks),
    ensures
        helper_state(es, hks).1 <= 1,
        helper_state(es, hks).0 == (helper_state(es, hks).1 == 1),
        forall|event_type: u32, keycode: u16, flags: u64|
            helper_state(es, hks).1 == 1 ==> !(tap_answer(
                event_type,
                keycode,
                flags,
                hks,
                #[trigger] helper_state(es, hks).0,
            ) is Launch),
    decreases es.len(),
{
    if es.len() > 0 {
        let prev = es.drop_last();
        assert forall|i: int|
            0 <= i < prev.len() && #[trigger] prev[i] is LoadFinished implies helper_state(
            prev.take(i),
            hks,
        ).1 > 0 by {
            assert(es[i] == prev[i]);
            assert(prev.take(i) =~= es.take(i));
        }
        lemma_one_load_at_a_time(prev, hks);
        let n = es.len() - 1;
        assert(es.take(n) =~= prev);
        if es.last() is LoadFinished {
            assert(es[n] is LoadFinished);
        }
    }
}

/// A hotkey matches only a press of its own key with exactly its own
/// modifiers: a press that holds any further modifier key (Option, Command,
/// ...) or lacks one of them is not that hotkey, and when no hotkey has the
/// pressed set of modifiers the event is passed on untouched.
pub proof fn lemma_exact_modifiers(
    hk: HotkeyDef,
    keycode: u16,
    flags: u64,
    hks: Seq<HotkeyDef>,
    running: bool,
)
    ensures
        hotkey_matches(hk, keycode, flags) ==> keycode == hk.keycode && flags & MODIFIER_MASK
            == cg_flags(hk.modifiers),
        flags & MODIFIER_MASK & !cg_flags(hk.modifiers) != 0 ==> !hotkey_matches(hk, keycode, flags),
        cg_flags(hk.modifiers) & !(flags & MODIFIER_MASK) != 0 ==> !hotkey_matches(
            hk,
            keycode,
            flags,
        ),
        (forall|i: int|
            0 <= i < hks.len() ==> cg_flags(#[trigger] hks[i].modifiers) != flags & MODIFIER_MASK)
            ==> tap_answer(EVENT_KEY_DOWN, keycode, flags, hks, running) == TapAction::PassThrough,
{
    let f = flags & MODIFIER_MASK;
    let c = cg_flags(hk.modifiers);
    assert(f == c ==> f & !c == 0) by (bit_vector);
    assert(f == c ==> c & !f == 0) by (bit_vector);
    if forall|i: int|
        0 <= i < hks.len() ==> cg_flags(#[trigger] hks[i].modifiers) != flags & MODIFIER_MASK {
        lemma_no_match(hks, keycode, flags);
    }
}

proof fn lemma_no_match(hks: Seq<HotkeyDef>, keycode: u16, flags: u64)
    requires
        forall|i: int|
            0 <= i < hks.len() ==> cg_flags(#[trigger] hks[i].modifiers) != flags & MODIFIER_MASK,
    ensures
        first_match(hks, keycode, flags) is None,
    decreases hks.len(),
{
    if hks.len() > 0 {
        assert(cg_flags(hks[0].modifiers) != flags & MODIFIER_MASK);
        assert forall|i: int| 0 <= i < hks.drop_first().len() implies cg_flags(
            #[trigger] hks.drop_first()[i].modifiers,
        ) != flags & MODIFIER_MASK by {
            assert(hks.drop_first()[i] == hks[i + 1]);
        }
        lemma_no_match(hks.drop_first(), keycode, flags);
    }
}

/// A hotkey fires on a key press of its key code with its modifiers, whatever
/// other (non-modifier) flag bits the event carries.
pub proof fn lemma_hotkey_fires(hk: HotkeyDef, extra: u64)
    requires
        extra & MODIFIER_MASK == 0,
    ensures
        hotkey_matches(hk, hk.keycode, cg_flags(hk.modifiers) | extra),
{
    crate::config::lemma_cg_flags(hk.modifiers, hk.modifiers);
    let f = cg_flags(hk.modifiers);
    assert(f & (0x0002_0000u64 | 0x0004_0000u64 | 0x0008_0000u64 | 0x0010_0000u64) == f && extra & (
    0x0002_0000u64 | 0x0004_0000u64 | 0x0008_0000u64 | 0x0010_0000u64) == 0 ==> (f | extra) & (
    0x0002_0000u64 | 0x0004_0000u64 | 0x0008_0000u64 | 0x0010_0000u64) == f) by (bit_vector);
}

/// The arguments `drag-into-djay` is started with: the deck and the drop
/// delay, then `--no-activate` when activation is off, then the session
/// log file when there is one.
pub open spec fn drag_arg_texts(
    deck: u8,
    drop_delay: u64,
    no_activate: bool,
    session_file: Option<Seq<char>>,
) -> Seq<Seq<char>> {
    seq!["--deck"@, decimal(deck as nat), "--drop-delay"@, decimal(drop_delay as nat)] + (if no_activate {
        seq!["--no-activate"@]
    } else {
        seq![]
    }) + match session_file {
        Some(f) => seq!["--session-file"@, f],
        None => seq![],
    }
}

/// The arguments for `drag-into-djay`.
pub fn drag_args(deck: u8, drop_delay: u64, no_activate: bool, session_file: &Option<String>) -> (args:
    Vec<String>)
    ensures
        args@.map_values(|a: String| a@) == drag_arg_texts(
            deck,
            drop_delay,
            no_activate,
            match session_file {
                Some(f) => Some(f@),
                None => None,
            },
        ),
{
    let mut d: Vec<char> = Vec::new();
    push_decimal(&mut d, deck as u64);
    let mut t: Vec<char> = Vec::new();
    push_decimal(&mut t, drop_delay);
    let mut args: Vec<String> = Vec::new();
    args.push(String::from_str("--deck"));
    args.push(string_of(&d));
    args.push(String::from_str("--drop-delay"));
    args.push(string_of(&t));
    if no_activate {
        args.push(String::from_str("--no-activate"));
    }
    match session_file {
        Some(f) => {
            args.push(String::from_str("--session-file"));
            args.push(f.clone());
        },
        None => {},
    }
    assert(args@.map_values(|a: String| a@) =~= drag_arg_texts(
        deck,
        drop_delay,
        no_activate,
        match session_file {
            Some(f) => Some(f@),
            None => None,
        },
    ));
    args
}

/// The `drag-into-djay` to run: the configured path, else the one beside
/// the helper's own executable when it exists (`sibling`), else the bare
/// name, looked up on `PATH`.
pub fn resolve_drag_binary(override_path: &Option<String>, sibling: &Option<String>) -> (p: String)
    ensures
        p@ == match override_path {
            Some(o) => o@,
            None => match sibling {
                Some(s) => s@,
                None => "drag-into-djay"@,
            },
        },
{
    match override_path {
        Some(o) => o.clone(),
        None => match sibling {
            Some(s) => s.clone(),
            None => String::from_str("drag-into-djay"),
        },
    }
}

} // verus!

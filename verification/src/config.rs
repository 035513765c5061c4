//! Hotkey settings of the helper daemon and the options that adjust them.
use vstd::prelude::*;

verus! {

/// The Shift bit of `CGEventFlags` (`kCGEventFlagMaskShift`).
pub const FLAG_SHIFT: u64 = 0x0002_0000;

/// The Control bit of `CGEventFlags` (`kCGEventFlagMaskControl`).
pub const FLAG_CONTROL: u64 = 0x0004_0000;

/// The Option bit of `CGEventFlags` (`kCGEventFlagMaskAlternate`).
pub const FLAG_OPTION: u64 = 0x0008_0000;

/// The Command bit of `CGEventFlags` (`kCGEventFlagMaskCommand`).
pub const FLAG_COMMAND: u64 = 0x0010_0000;

/// The four modifier bits together.
pub const MODIFIER_MASK: u64 = 0x0002_0000 | 0x0004_0000 | 0x0008_0000 | 0x0010_0000;

/// Modifier keys (the subset of `CGEventFlags` that hotkeys use).
#[derive(PartialEq, Eq, Structural, Clone, Copy, Debug)]
pub struct Modifiers {
    pub shift: bool,
    pub control: bool,
    pub option: bool,
    pub command: bool,
}

/// The `CGEventFlags` bits of a set of modifiers.
pub open spec fn cg_flags(m: Modifiers) -> u64 {
    (if m.shift {
        FLAG_SHIFT
    } else {
        0u64
    }) | (if m.control {
        FLAG_CONTROL
    } else {
        0u64
    }) | (if m.option {
        FLAG_OPTION
    } else {
        0u64
    }) | (if m.command {
        FLAG_COMMAND
    } else {
        0u64
    })
}

impl Modifiers {
    /// The `CGEventFlags` bits of these modifiers.
    pub fn as_cg_flags(&self) -> (flags: u64)
        ensures
            flags == cg_flags(*self),
    {
        let shift: u64 = if self.shift {
            FLAG_SHIFT
        } else {
            0
        };
        let control: u64 = if self.control {
            FLAG_CONTROL
        } else {
            0
        };
        let option: u64 = if self.option {
            FLAG_OPTION
        } else {
            0
        };
        let command: u64 = if self.command {
            FLAG_COMMAND
        } else {
            0
        };
        let flags = shift | control | option | command;
        flags
    }
}

/// The flags of a set of modifiers lie within the modifier mask, and
/// different sets of modifiers have different flags.
pub proof fn lemma_cg_flags(a: Modifiers, b: Modifiers)
    ensures
        cg_flags(a) & MODIFIER_MASK == cg_flags(a),
        cg_flags(a) == cg_flags(b) ==> a == b,
{
    let (s, c, o, k) = (a.shift, a.control, a.option, a.command);
    let (s2, c2, o2, k2) = (b.shift, b.control, b.option, b.command);
    assert(((if s { 0x0002_0000u64 } else { 0u64 }) | (if c { 0x0004_0000u64 } else { 0u64 }) | (
    if o { 0x0008_0000u64 } else { 0u64 }) | (if k { 0x0010_0000u64 } else { 0u64 })) & (0x0002_0000u64
        | 0x0004_0000u64 | 0x0008_0000u64 | 0x0010_0000u64) == ((if s { 0x0002_0000u64 } else { 0u64 })
        | (if c { 0x0004_0000u64 } else { 0u64 }) | (if o { 0x0008_0000u64 } else { 0u64 }) | (if k {
        0x0010_0000u64
    } else { 0u64 }))) by (bit_vector);
    assert(((if s { 0x0002_0000u64 } else { 0u64 }) | (if c { 0x0004_0000u64 } else { 0u64 }) | (
    if o { 0x0008_0000u64 } else { 0u64 }) | (if k { 0x0010_0000u64 } else { 0u64 })) == ((if s2 {
        0x0002_0000u64
    } else { 0u64 }) | (if c2 { 0x0004_0000u64 } else { 0u64 }) | (if o2 { 0x0008_0000u64 } else {
        0u64
    }) | (if k2 { 0x0010_0000u64 } else { 0u64 })) ==> (s == s2 && c == c2 && o == o2 && k == k2))
        by (bit_vector);
}

/// A hotkey: a macOS virtual key code with modifiers, and the deck it loads.
#[derive(PartialEq, Eq, Structural, Clone, Copy, Debug)]
pub struct HotkeyDef {
    /// macOS virtual key code (`kVK_*`).
    pub keycode: u16,
    pub modifiers: Modifiers,
    /// The deck to load into.
    pub deck: u8,
}

/// Settings of the Now DJ Playing publisher.
#[derive(Clone, Debug)]
pub struct NdpConfig {
    /// Full path of the `ndp-publish` binary.
    pub publisher_binary: String,
    /// Base output directory (`--out`).
    pub out_dir: String,
    /// DJ id (`--id`); `ndp-publish` uses `dj-000` when none is given.
    pub dj_id: Option<String>,
    /// DJ name (`--dj-name`).
    pub dj_name: Option<String>,
}

/// Settings of the helper daemon.
#[derive(Debug)]
pub struct Config {
    pub hotkey_deck1: HotkeyDef,
    pub hotkey_deck2: HotkeyDef,
    /// The hotkey that runs `ndp-publish`.
    pub hotkey_ndp_publish: HotkeyDef,
    /// Path of the `drag-into-djay` binary (`None`: look beside this one).
    pub drag_binary: Option<String>,
    /// The value passed as `--drop-delay`, in milliseconds.
    pub drop_delay: u64,
    /// Whether `--no-activate` is passed to `drag-into-djay`.
    pub no_activate: bool,
    /// Path of the session log file (`None`: no session log).
    pub session_file: Option<String>,
    /// Publisher settings (`None`: publishing disabled).
    pub ndp: Option<NdpConfig>,
}

/// Control and Shift, the modifiers of every default hotkey.
pub open spec fn ctrl_shift() -> Modifiers {
    Modifiers { shift: true, control: true, option: false, command: false }
}

impl Config {
    /// The built-in settings: Ctrl+Shift+1 loads deck 1 (key code 18),
    /// Ctrl+Shift+0 loads deck 2 (key code 29), Ctrl+Shift+5 runs the
    /// publisher (key code 23, no deck); a drop delay of 250 ms, without
    /// activating the apps; no session log and no publisher.
    pub fn load() -> (c: Config)
        ensures
            c.hotkey_deck1 == (HotkeyDef { keycode: 18, modifiers: ctrl_shift(), deck: 1 }),
            c.hotkey_deck2 == (HotkeyDef { keycode: 29, modifiers: ctrl_shift(), deck: 2 }),
            c.hotkey_ndp_publish == (HotkeyDef { keycode: 23, modifiers: ctrl_shift(), deck: 0 }),
            c.drag_binary is None,
            c.drop_delay == 250,
            c.no_activate,
            c.session_file is None,
            c.ndp is None,
    {
        let mods = Modifiers { shift: true, control: true, option: false, command: false };
        Config {
            hotkey_deck1: HotkeyDef { keycode: 18, modifiers: mods, deck: 1 },
            hotkey_deck2: HotkeyDef { keycode: 29, modifiers: mods, deck: 2 },
            hotkey_ndp_publish: HotkeyDef { keycode: 23, modifiers: mods, deck: 0 },
            drag_binary: None,
            drop_delay: 250,
            no_activate: true,
            session_file: None,
            ndp: None,
        }
    }
}

/// The helper's command-line options.
pub struct HelperArgs {
    /// Skip activating the apps (passes `--no-activate` on).
    pub no_activate: bool,
    /// Base directory under which a session directory named after the
    /// start time is created.
    pub session_basedir: Option<String>,
    /// Session directory given directly (appended to when it exists).
    pub session_dir: Option<String>,
    /// Full path of `ndp-publish` (publishing is disabled without it).
    pub ndp_publish: Option<String>,
    /// Output base directory of `ndp-publish` (required with `ndp_publish`).
    pub ndp_out: Option<String>,
    /// DJ id for `ndp-publish`.
    pub ndp_dj_id: Option<String>,
    /// DJ name (text or logo image path) for `ndp-publish`.
    pub ndp_dj_name: Option<String>,
}

#[derive(PartialEq, Eq, Structural, Clone, Copy, Debug)]
pub enum HelperError {
    /// `--ndp-publish` was given without `--ndp-out`.
    NdpOutMissing,
}

/// The same optional text, copied.
pub fn copy_text(t: &Option<String>) -> (r: Option<String>)
    ensures
        r == *t,
{
    match t {
        Some(s) => Some(s.clone()),
        None => None,
    }
}

/// Applies the helper's options to the settings: `--no-activate` turns
/// activation off, and `--ndp-publish` enables the publisher with the
/// output directory, DJ id and DJ name given; `--ndp-publish` without
/// `--ndp-out` is an error.  The session log options are not applied here.
pub fn apply_helper_args(config: Config, args: &HelperArgs) -> (r: Result<Config, HelperError>)
    ensures
        (args.ndp_publish is Some && args.ndp_out is None) <==> r is Err,
        r matches Err(e) ==> e == HelperError::NdpOutMissing,
        r matches Ok(c) ==> {
            &&& c.hotkey_deck1 == config.hotkey_deck1
            &&& c.hotkey_deck2 == config.hotkey_deck2
            &&& c.hotkey_ndp_publish == config.hotkey_ndp_publish
            &&& c.drag_binary == config.drag_binary
            &&& c.drop_delay == config.drop_delay
            &&& c.no_activate == (config.no_activate || args.no_activate)
            &&& c.session_file == config.session_file
            &&& match args.ndp_publish {
                Some(p) => c.ndp matches Some(n) && n.publisher_binary == p && Some(n.out_dir)
                    == args.ndp_out && n.dj_id == args.ndp_dj_id && n.dj_name == args.ndp_dj_name,
                None => c.ndp == config.ndp,
            }
        },
{
    let mut config = config;
    if args.no_activate {
        config.no_activate = true;
    }
    match &args.ndp_publish {
        Some(publisher_binary) => {
            let out_dir = match &args.ndp_out {
                Some(o) => o.clone(),
                None => {
                    return Err(HelperError::NdpOutMissing);
                },
            };
            config.ndp = Some(
                NdpConfig {
                    publisher_binary: publisher_binary.clone(),
                    out_dir,
                    dj_id: copy_text(&args.ndp_dj_id),
                    dj_name: copy_text(&args.ndp_dj_name),
                },
            );
        },
        None => {},
    }
    Ok(config)
}

/// Where the session log goes.
#[derive(PartialEq, Eq, Structural, Clone, Copy, Debug)]
pub enum SessionSource {
    /// `--session-dir`: this directory holds the log.
    Directory,
    /// `--session-basedir`: a new directory under this one holds the log.
    BaseDirectory,
    /// No session log.
    Disabled,
}

/// Which session option decides: `--session-dir` before
/// `--session-basedir`.
pub fn session_source(args: &HelperArgs) -> (s: SessionSource)
    ensures
        s == (if args.session_dir is Some {
            SessionSource::Directory
        } else if args.session_basedir is Some {
            SessionSource::BaseDirectory
        } else {
            SessionSource::Disabled
        }),
{
    if args.session_dir.is_some() {
        SessionSource::Directory
    } else if args.session_basedir.is_some() {
        SessionSource::BaseDirectory
    } else {
        SessionSource::Disabled
    }
}

} // verus!

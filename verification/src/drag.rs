//! Loading into djay Pro: which deck's waveform is the drop target, djay
//! Pro's process id as `System Events` reports it, and the plan of the drag
//! and drop: which scripts run, which mouse events are posted and how long
//! to wait between them.  Posting the events, the window position and the
//! screen coordinates (floating point) stay with the caller, which carries
//! out the plan step by step.
use vstd::prelude::*;

use crate::text::{chars_of, push_str, same_chars, string_of, trim, trimmed};
use crate::track::{parse_i32, parsed_i32};

verus! {

/// The index of a deck among djay Pro's two decks: deck 1 is 0, deck 2 is 1,
/// and any other number is no deck.
pub fn deck_slot(deck: u8) -> (slot: Option<usize>)
    ensures
        slot == (if deck == 1 {
            Some(0usize)
        } else if deck == 2 {
            Some(1usize)
        } else {
            None::<usize>
        }),
{
    match deck {
        1 => Some(0),
        2 => Some(1),
        _ => None,
    }
}

/// Why djay Pro's process id could not be found.
#[derive(Debug)]
pub enum PidError {
    /// `System Events` printed nothing: djay Pro is not running.
    NotRunning,
    /// The printed text is not a process id.
    Unparsable(String),
}

/// djay Pro's process id from what the `System Events` script printed: the
/// trimmed text read as an `i32`.
pub fn pid_from_output(out: &str) -> (r: Result<i32, PidError>)
    ensures
        trim(out@).len() == 0 ==> r matches Err(PidError::NotRunning),
        trim(out@).len() > 0 ==> match parsed_i32(trim(out@)) {
            Some(p) => r == Ok::<i32, PidError>(p),
            None => r matches Err(PidError::Unparsable(s)) && s@ == trim(out@),
        },
{
    let cs = chars_of(out);
    let t = trimmed(cs.as_slice());
    if t.len() == 0 {
        return Err(PidError::NotRunning);
    }
    match parse_i32(t.as_slice()) {
        Some(p) => Ok(p),
        None => Err(PidError::Unparsable(string_of(&t))),
    }
}

/// The bundle identifier of djay Pro.
pub const DJAY_BUNDLE_ID: &'static str = "com.algoriddim.djay-iphone-free";

/// The bundle identifier of the player a track was read from, by its
/// source name; `None` for an unknown source.
pub open spec fn source_bundle(source: Seq<char>) -> Option<Seq<char>> {
    if source == "Swinsian"@ {
        Some("com.swinsian.Swinsian"@)
    } else if source == "iTunes"@ {
        Some("com.apple.Music"@)
    } else {
        None
    }
}

/// The AppleScript that brings the process with this bundle identifier to
/// the front.
pub open spec fn activation_text(bundle_id: Seq<char>) -> Seq<char> {
    "tell application \"System Events\" to set frontmost of (first process whose bundle identifier is \""@
        + bundle_id + "\") to true"@
}

fn activation_for(bundle_id: &str) -> (s: String)
    ensures
        s@ == activation_text(bundle_id@),
{
    let mut out: Vec<char> = Vec::new();
    push_str(
        &mut out,
        "tell application \"System Events\" to set frontmost of (first process whose bundle identifier is \"",
    );
    push_str(&mut out, bundle_id);
    push_str(&mut out, "\") to true");
    string_of(&out)
}

/// The AppleScript that activates the player a track came from; `None`
/// for an unknown source, which is then left alone.
pub fn source_activation_script(source: &str) -> (s: Option<String>)
    ensures
        match source_bundle(source@) {
            Some(b) => s matches Some(t) && t@ == activation_text(b),
            None => s is None,
        },
{
    let cs = chars_of(source);
    let sw = chars_of("Swinsian");
    let it = chars_of("iTunes");
    if same_chars(cs.as_slice(), sw.as_slice()) {
        Some(activation_for("com.swinsian.Swinsian"))
    } else if same_chars(cs.as_slice(), it.as_slice()) {
        Some(activation_for("com.apple.Music"))
    } else {
        None
    }
}

/// The AppleScript that activates djay Pro.
pub fn djay_activation_script() -> (s: String)
    ensures
        s@ == activation_text(DJAY_BUNDLE_ID@),
{
    activation_for(DJAY_BUNDLE_ID)
}

/// One step of a drag and drop.
#[derive(Debug)]
pub enum DragStep {
    /// Run this AppleScript with `osascript`.
    RunScript(String),
    /// Wait this many milliseconds.
    Sleep { ms: u64 },
    /// Press the left button over the selected row.
    MouseDown,
    /// Move the pressed mouse to the point `step / of` of the way from the
    /// row to the waveform.
    Drag { step: u32, of: u32 },
    /// Release the button over the waveform.
    MouseUp,
}

/// A drag step as the contracts see it: the script as its text.
pub enum StepView {
    RunScript(Seq<char>),
    Sleep { ms: u64 },
    MouseDown,
    Drag { step: u32, of: u32 },
    MouseUp,
}

impl View for DragStep {
    type V = StepView;

    open spec fn view(&self) -> StepView {
        match self {
            DragStep::RunScript(s) => StepView::RunScript(s@),
            DragStep::Sleep { ms } => StepView::Sleep { ms: *ms },
            DragStep::MouseDown => StepView::MouseDown,
            DragStep::Drag { step, of } => StepView::Drag { step: *step, of: *of },
            DragStep::MouseUp => StepView::MouseUp,
        }
    }
}

/// The number of intermediate points of a drag.
pub const DRAG_STEPS: u32 = 10;

/// The drag moves in `n` steps, each followed by a 10 ms wait.
pub open spec fn drag_moves(n: u32) -> Seq<StepView> {
    Seq::new(
        2 * n as nat,
        |k: int|
            if k % 2 == 0 {
                StepView::Drag { step: (k / 2 + 1) as u32, of: n }
            } else {
                StepView::Sleep { ms: 10 }
            },
    )
}

/// The plan of a drag and drop from the player a track came from (by its
/// source name) to djay Pro: unless activation is skipped, bring the player
/// to the front (when its source is known) and wait 200 ms; press the
/// button and wait 50 ms; bring djay Pro to the front and wait 100 ms
/// (200 ms when the player was activated); move in ten steps, each followed
/// by 10 ms; hover over the target for `drop_delay_ms`; release.
pub open spec fn drag_plan_spec(source: Seq<char>, no_activate: bool, drop_delay_ms: u64) -> Seq<
    StepView,
> {
    let lead = if no_activate {
        Seq::<StepView>::empty()
    } else {
        let script = match source_bundle(source) {
            Some(b) => seq![StepView::RunScript(activation_text(b))],
            None => Seq::<StepView>::empty(),
        };
        script + seq![StepView::Sleep { ms: 200 }]
    };
    lead + seq![
        StepView::MouseDown,
        StepView::Sleep { ms: 50 },
        StepView::RunScript(activation_text(DJAY_BUNDLE_ID@)),
        StepView::Sleep { ms: if no_activate { 100 } else { 200 } },
    ] + drag_moves(DRAG_STEPS) + seq![StepView::Sleep { ms: drop_delay_ms }, StepView::MouseUp]
}

/// Every drag and drop presses the button before anything else touches the
/// mouse, then moves in ten steps towards the target (each followed by a
/// 10 ms wait), hovers for the drop delay, and ends by releasing the button;
/// only scripts and waits come before the press.
pub proof fn lemma_drag_plan_order(source: Seq<char>, no_activate: bool, drop_delay_ms: u64)
    ensures
        ({
            let p = drag_plan_spec(source, no_activate, drop_delay_ms);
            let n = p.len() as int;
            &&& n >= 26
            &&& p[n - 1] == StepView::MouseUp
            &&& p[n - 2] == StepView::Sleep { ms: drop_delay_ms }
            &&& p.subrange(n - 22, n - 2) == drag_moves(DRAG_STEPS)
            &&& p[n - 26] == StepView::MouseDown
            &&& forall|k: int|
                0 <= k < n - 26 ==> (#[trigger] p[k] is RunScript || p[k] is Sleep)
        }),
{
    let p = drag_plan_spec(source, no_activate, drop_delay_ms);
    let n = p.len() as int;
    let moves = drag_moves(DRAG_STEPS);
    assert(moves.len() == 20);
    assert(p.subrange(n - 22, n - 2) =~= moves);
}

/// Which player is activated before the press: with activation on, a
/// track from Swinsian brings Swinsian to the front and one from Music.app
/// brings Music.app, in the very first step, followed by a 200 ms wait and
/// then the press; a source the plan does not know gets the wait alone;
/// with activation off the plan starts with the press.  The plan has 28,
/// 27 or 26 steps accordingly.
pub proof fn lemma_plan_activates_source(source: Seq<char>, no_activate: bool, drop_delay_ms: u64)
    ensures
        ({
            let p = drag_plan_spec(source, no_activate, drop_delay_ms);
            &&& (!no_activate && source == "Swinsian"@) ==> p.len() == 28 && p[0]
                == StepView::RunScript(activation_text("com.swinsian.Swinsian"@)) && p[1]
                == StepView::Sleep { ms: 200 } && p[2] == StepView::MouseDown
            &&& (!no_activate && source == "iTunes"@) ==> p.len() == 28 && p[0]
                == StepView::RunScript(activation_text("com.apple.Music"@)) && p[1]
                == StepView::Sleep { ms: 200 } && p[2] == StepView::MouseDown
            &&& (!no_activate && source != "Swinsian"@ && source != "iTunes"@) ==> p.len() == 27
                && p[0] == StepView::Sleep { ms: 200 } && p[1] == StepView::MouseDown
            &&& no_activate ==> p.len() == 26 && p[0] == StepView::MouseDown
        }),
{
    reveal_strlit("Swinsian");
    reveal_strlit("iTunes");
    assert("Swinsian"@[0] != "iTunes"@[0]);
    let moves = drag_moves(DRAG_STEPS);
    assert(moves.len() == 20);
}

/// The views of a list of steps.
pub open spec fn step_views(v: Seq<DragStep>) -> Seq<StepView> {
    v.map_values(|s: DragStep| s@)
}

proof fn lemma_views_push(v: Seq<DragStep>, x: DragStep)
    ensures
        step_views(v.push(x)) == step_views(v).push(x@),
{
    assert(step_views(v.push(x)) =~= step_views(v).push(x@));
}

fn push_step(plan: &mut Vec<DragStep>, x: DragStep)
    ensures
        step_views(final(plan)@) == step_views(old(plan)@).push(x@),
{
    let ghost before = plan@;
    plan.push(x);
    proof {
        lemma_views_push(before, x);
    }
}

/// The steps of a drag and drop of a track read from `source`.
pub fn drag_plan(source: &str, no_activate: bool, drop_delay_ms: u64) -> (plan: Vec<DragStep>)
    ensures
        step_views(plan@) == drag_plan_spec(source@, no_activate, drop_delay_ms),
{
    let mut plan: Vec<DragStep> = Vec::new();
    assert(step_views(plan@) =~= Seq::<StepView>::empty());
    if !no_activate {
        match source_activation_script(source) {
            Some(script) => push_step(&mut plan, DragStep::RunScript(script)),
            None => {},
        }
        push_step(&mut plan, DragStep::Sleep { ms: 200 });
    }
    push_step(&mut plan, DragStep::MouseDown);
    push_step(&mut plan, DragStep::Sleep { ms: 50 });
    push_step(&mut plan, DragStep::RunScript(djay_activation_script()));
    push_step(&mut plan, DragStep::Sleep { ms: if no_activate { 100 } else { 200 } });
    let ghost head = step_views(plan@);
    let ghost moves = drag_moves(DRAG_STEPS);
    proof {
        let lead = if no_activate {
            Seq::<StepView>::empty()
        } else {
            let script = match source_bundle(source@) {
                Some(b) => seq![StepView::RunScript(activation_text(b))],
                None => Seq::<StepView>::empty(),
            };
            script + seq![StepView::Sleep { ms: 200 }]
        };
        assert(head =~= lead + seq![
            StepView::MouseDown,
            StepView::Sleep { ms: 50 },
            StepView::RunScript(activation_text(DJAY_BUNDLE_ID@)),
            StepView::Sleep { ms: if no_activate { 100 } else { 200 } },
        ]);
        assert(moves.take(0) =~= Seq::<StepView>::empty());
        assert(head + moves.take(0) =~= head);
    }
    let mut i: u32 = 1;
    while i <= DRAG_STEPS
        invariant
            1 <= i <= DRAG_STEPS + 1,
            moves == drag_moves(DRAG_STEPS),
            step_views(plan@) == head + moves.take(2 * (i - 1)),
        decreases DRAG_STEPS + 1 - i,
    {
        push_step(&mut plan, DragStep::Drag { step: i, of: DRAG_STEPS });
        push_step(&mut plan, DragStep::Sleep { ms: 10 });
        proof {
            let k = 2 * (i - 1);
            assert(moves[k] == StepView::Drag { step: i, of: DRAG_STEPS });
            assert(moves[k + 1] == StepView::Sleep { ms: 10 });
            assert(moves.take(k + 2) =~= moves.take(k).push(
                StepView::Drag { step: i, of: DRAG_STEPS },
            ).push(StepView::Sleep { ms: 10 }));
            assert(step_views(plan@) =~= head + moves.take(k + 2));
        }
        i = i + 1;
    }
    assert(moves.take(20) =~= moves);
    push_step(&mut plan, DragStep::Sleep { ms: drop_delay_ms });
    push_step(&mut plan, DragStep::MouseUp);
    assert(step_views(plan@) =~= drag_plan_spec(source@, no_activate, drop_delay_ms));
    plan
}

} // verus!

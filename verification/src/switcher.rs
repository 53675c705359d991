//! The window switcher: what it has to offer, and what it does about it.
//!
//! Picks a window from a live overlay and **focuses** it. Bound to a held modifier it is a
//! true Alt-Tab: hold the modifier, `Tab`/`Shift+Tab` cycle, release to switch. The calls on
//! the compositor and the overlay are made by the caller; [`switch_start`] and
//! [`switch_next`] say which, and with which exit code it all ends.

use vstd::prelude::*;

use crate::keys::{CycleKeys, Key};
use crate::lists::{lemma_filter_all, lemma_filter_nothing, lemma_filter_one};

verus! {

/// Presentation of the switcher, as asked for.
#[derive(Clone, Copy, Debug, PartialEq, Eq, Structural)]
pub enum LayoutArg {
    /// macOS-style single row of tiles (default).
    Strip,
    /// Full-screen mission-control expose grid.
    Grid,
    /// Centred rofi-like card with tabs and search.
    Card,
}

impl Default for LayoutArg {
    fn default() -> (layout: Self)
        ensures
            layout == LayoutArg::Strip,
    {
        LayoutArg::Strip
    }
}

/// Presentation of the overlay.
#[derive(Clone, Copy, Debug, PartialEq, Eq, Structural)]
pub enum Layout {
    /// A row of tiles.
    Strip,
    /// A full-screen grid.
    Grid,
    /// A centred card.
    Card,
}

/// Which tiles show a live preview, as asked for.
#[derive(Clone, Copy, Debug, PartialEq, Eq, Structural)]
pub enum LiveArg {
    /// Icons only.
    Off,
    /// Only the highlighted window.
    Current,
    /// Every window.
    All,
}

/// Which tiles show a live preview.
#[derive(Clone, Copy, Debug, PartialEq, Eq, Structural)]
pub enum Live {
    /// Icons only.
    Off,
    /// Only the highlighted window.
    Current,
    /// Every window.
    All,
}

impl From<LiveArg> for Live {
    fn from(v: LiveArg) -> (live: Self) {
        match v {
            LiveArg::Off => Live::Off,
            LiveArg::Current => Live::Current,
            LiveArg::All => Live::All,
        }
    }
}

impl vstd::std_specs::convert::FromSpecImpl<LiveArg> for Live {
    open spec fn obeys_from_spec() -> bool {
        true
    }

    open spec fn from_spec(v: LiveArg) -> Live {
        match v {
            LiveArg::Off => Live::Off,
            LiveArg::Current => Live::Current,
            LiveArg::All => Live::All,
        }
    }
}

/// What the overlay lists.
#[derive(Clone, Copy, Debug, PartialEq, Eq, Structural)]
pub enum Mode {
    /// Windows.
    Windows,
    /// Outputs.
    Outputs,
}

/// What the switcher was asked for.
#[derive(Debug)]
pub struct Args {
    /// Capture through shared memory instead of the zero-copy dma-buf path.
    pub no_gpu: bool,
    /// The presentation.
    pub layout: LayoutArg,
    /// The live previews.
    pub live: LiveArg,
    /// Confirm and close the moment the held launch modifier is released.
    pub hold: bool,
    /// Stay open after the modifier is released.
    pub no_hold: bool,
    /// Key that moves the highlight to the next window.
    pub cycle_next: Key,
    /// Key that moves it back.
    pub cycle_prev: Key,
    /// Include windows with no app-id.
    pub include_system: bool,
    /// Switch only between the windows in sway's scratchpad.
    pub scratchpad: bool,
    /// Report which capture protocols the compositor supports, and exit.
    pub doctor: bool,
}

/// How the overlay is raised.
#[derive(Debug)]
pub struct Options {
    /// What it lists.
    pub mode: Mode,
    /// Whether windows with no app-id are listed.
    pub show_system: bool,
    /// The presentation.
    pub layout: Layout,
    /// Whether releasing the held modifier confirms.
    pub hold: bool,
    /// The live previews.
    pub live: Live,
    /// Whether only windows in the scratchpad are listed.
    pub scratchpad: bool,
    /// The cycle keys.
    pub cycle: CycleKeys,
}

/// The presentation that was asked for.
pub open spec fn layout_of(layout: LayoutArg) -> Layout {
    match layout {
        LayoutArg::Strip => Layout::Strip,
        LayoutArg::Grid => Layout::Grid,
        LayoutArg::Card => Layout::Card,
    }
}

/// Whether hold-to-switch is on: as forced; else on for the strip (a true Alt-Tab) and off for
/// the grid and the card.
pub open spec fn holds(hold: bool, no_hold: bool, layout: LayoutArg) -> bool {
    hold || (!no_hold && layout == LayoutArg::Strip)
}

/// How the overlay is to be raised.
pub fn overlay_options(args: &Args) -> (options: Options)
    ensures
        options.mode == Mode::Windows,
        options.show_system == args.include_system,
        options.layout == layout_of(args.layout),
        args.layout == LayoutArg::Strip <==> options.layout == Layout::Strip,
        args.layout == LayoutArg::Grid <==> options.layout == Layout::Grid,
        args.layout == LayoutArg::Card <==> options.layout == Layout::Card,
        args.live == LiveArg::Off <==> options.live == Live::Off,
        args.live == LiveArg::Current <==> options.live == Live::Current,
        args.live == LiveArg::All <==> options.live == Live::All,
        options.hold == holds(args.hold, args.no_hold, args.layout),
        options.live == <Live as vstd::std_specs::convert::FromSpec<LiveArg>>::from_spec(
            args.live,
        ),
        options.scratchpad == args.scratchpad,
        options.cycle.next.name@ == args.cycle_next.name@,
        options.cycle.prev.name@ == args.cycle_prev.name@,
{
    let layout = match args.layout {
        LayoutArg::Strip => Layout::Strip,
        LayoutArg::Grid => Layout::Grid,
        LayoutArg::Card => Layout::Card,
    };
    let hold = if args.hold {
        true
    } else if args.no_hold {
        false
    } else {
        match args.layout {
            LayoutArg::Strip => true,
            _ => false,
        }
    };
    Options {
        mode: Mode::Windows,
        show_system: args.include_system,
        layout,
        hold,
        live: Live::from(args.live),
        scratchpad: args.scratchpad,
        cycle: CycleKeys {
            next: Key { name: args.cycle_next.name.clone() },
            prev: Key { name: args.cycle_prev.name.clone() },
        },
    }
}

/// A window, as the compositor lists it.
#[derive(Debug)]
pub struct Toplevel {
    /// The name by which it is found again.
    pub identifier: String,
    /// The application id.
    pub app_id: String,
    /// The title.
    pub title: String,
}

/// What was picked.
#[derive(Debug)]
pub struct Selection {
    /// What a picker prints.
    pub token: String,
    /// Whether it is a window, as opposed to an output.
    pub is_window: bool,
    /// The name by which it is found again.
    pub identifier: String,
    /// The application id.
    pub app_id: String,
    /// The title.
    pub title: String,
    /// Its place among windows that look the same.
    pub dup_index: usize,
}

/// The windows that there are to switch between, each with its place among those that look the
/// same.
#[derive(Debug)]
pub enum Listing {
    /// All windows, in focus order.
    Ordered(Vec<(Toplevel, usize)>),
    /// Those in sway's scratchpad; `None` where sway's IPC did not answer.
    Scratchpad(Option<Vec<(Toplevel, usize)>>),
}

/// What the switcher has to offer, resolved before the overlay is raised.
#[derive(Debug)]
pub enum Candidates {
    /// The scratchpad was asked for but sway's IPC didn't answer, so the filter can't be
    /// evaluated at all.
    Unavailable,
    /// No windows to switch between: do nothing rather than raise an overlay with no tiles in
    /// it.
    Empty,
    /// Exactly one window, nothing to choose *between*, so focus it directly.
    Sole(Box<Selection>),
    /// Several windows: raise the overlay as usual.
    Choose,
}

/// The mathematical value of a listed window.
pub struct Window {
    /// The name by which it is found again.
    pub identifier: Seq<char>,
    /// The application id.
    pub app_id: Seq<char>,
    /// The title.
    pub title: Seq<char>,
    /// Its place among windows that look the same.
    pub dup_index: usize,
}

/// A listed window.
pub open spec fn window_of(listed: (Toplevel, usize)) -> Window {
    Window {
        identifier: listed.0.identifier@,
        app_id: listed.0.app_id@,
        title: listed.0.title@,
        dup_index: listed.1,
    }
}

/// The windows of a list.
pub open spec fn windows_of(listed: Seq<(Toplevel, usize)>) -> Seq<Window> {
    Seq::new(listed.len(), |i: int| window_of(listed[i]))
}

/// The windows of a listing, where it could be had.
pub open spec fn listed_windows(listing: Listing) -> Option<Seq<Window>> {
    match listing {
        Listing::Ordered(windows) => Some(windows_of(windows@)),
        Listing::Scratchpad(Some(windows)) => Some(windows_of(windows@)),
        Listing::Scratchpad(None) => None,
    }
}

/// The test for a window that is shown: one with an app-id, or any where system windows are.
pub open spec fn shown_test(show_system: bool) -> spec_fn(Window) -> bool {
    |w: Window| show_system || w.app_id.len() > 0
}

/// The tiles that the overlay would show.
pub open spec fn tiles(windows: Seq<Window>, show_system: bool) -> Seq<Window> {
    windows.filter(shown_test(show_system))
}

/// Whether a selection is what picking the window would have given.
pub open spec fn selects(selection: Selection, window: Window) -> bool {
    &&& selection.token@ == "Window: "@ + window.identifier
    &&& selection.is_window
    &&& selection.identifier@ == window.identifier
    &&& selection.app_id@ == window.app_id
    &&& selection.title@ == window.title
    &&& selection.dup_index == window.dup_index
}

/// The places of the windows that are shown.
fn shown_places(windows: &Vec<(Toplevel, usize)>, show_system: bool) -> (places: Vec<usize>)
    ensures
        places@.len() == tiles(windows_of(windows@), show_system).len(),
        forall|k: int|
            0 <= k < places@.len() ==> (#[trigger] places@[k]) < windows@.len() && tiles(
                windows_of(windows@),
                show_system,
            )[k] == window_of(windows@[places@[k] as int]),
{
    let ghost all = windows_of(windows@);
    let ghost test = shown_test(show_system);
    let mut places: Vec<usize> = Vec::new();
    let mut i: usize = 0;
    proof {
        reveal(Seq::filter);
        assert(all.take(0).len() == 0);
    }
    while i < windows.len()
        invariant
            i <= windows@.len(),
            all == windows_of(windows@),
            test == shown_test(show_system),
            places@.len() == all.take(i as int).filter(test).len(),
            forall|k: int|
                0 <= k < places@.len() ==> (#[trigger] places@[k]) < windows@.len() && all.take(
                    i as int,
                ).filter(test)[k] == window_of(windows@[places@[k] as int]),
        decreases windows@.len() - i,
    {
        proof {
            reveal(Seq::filter);
            assert(all.take(i + 1).drop_last() =~= all.take(i as int));
            assert(all.take(i + 1).last() == window_of(windows@[i as int]));
        }
        if show_system || !windows[i].0.app_id.as_str().is_empty() {
            places.push(i);
        }
        i += 1;
    }
    assert(all.take(all.len() as int) =~= all);
    places
}

/// Resolves what the switcher would actually put on screen. Independent of *why* the list came
/// out the size it did: the listing decides what goes in, this decides whether an overlay is
/// worth raising over what came out. The count matches the tiles that the user would have
/// seen: app-id-less "system" windows stay hidden unless `show_system`.
pub fn resolve_candidates(listing: &Listing, show_system: bool) -> (candidates: Candidates)
    ensures
        match listed_windows(*listing) {
            None => candidates is Unavailable,
            Some(windows) => {
                let shown = tiles(windows, show_system);
                if shown.len() == 0 {
                    candidates is Empty
                } else if shown.len() == 1 {
                    candidates matches Candidates::Sole(selection) && selects(
                        *selection,
                        shown[0],
                    )
                } else {
                    candidates is Choose
                }
            },
        },
{
    let windows = match listing {
        Listing::Ordered(windows) => windows,
        Listing::Scratchpad(found) => match found {
            Some(windows) => windows,
            None => return Candidates::Unavailable,
        },
    };
    let places = shown_places(windows, show_system);
    if places.len() == 0 {
        return Candidates::Empty;
    }
    if places.len() > 1 {
        return Candidates::Choose;
    }
    let place: usize = places[0];
    let w = &windows[place].0;
    let dup_index: usize = windows[place].1;
    Candidates::Sole(
        Box::new(
            Selection {
                token: "Window: ".to_owned().concat(w.identifier.as_str()),
                is_window: true,
                identifier: w.identifier.clone(),
                app_id: w.app_id.clone(),
                title: w.title.clone(),
                dup_index,
            },
        ),
    )
}

/// What is printed when the switcher ends.
#[derive(Clone, Copy, Debug, PartialEq, Eq, Structural)]
pub enum Note {
    /// Nothing.
    Silent,
    /// Why the report failed.
    ReportError,
    /// Why the last call failed.
    CallError,
    /// That this compositor lets no windows be captured.
    NoWindowCapture,
    /// That the scratchpad filter needs sway's IPC.
    NoSwayIpc,
}

/// One step of the switcher: what to do next.
#[derive(Debug)]
pub enum SwitchStep {
    /// Report which capture protocols there are.
    Report,
    /// Take the single-instance lock.
    Lock,
    /// Connect to the compositor.
    Connect,
    /// List the windows; only those in the scratchpad where the flag says so.
    List(bool),
    /// Focus this window.
    Activate(Selection),
    /// Raise the overlay.
    Overlay,
    /// End with this exit code and note.
    Exit(i32, Note),
}

/// How a step ended.
#[derive(Debug)]
pub enum SwitchEvent {
    /// It was done; of the overlay, that nothing was picked.
    Done,
    /// It failed; of the lock, that another instance has it.
    Failed,
    /// The compositor is connected; whether it lets windows be captured.
    Connected(bool),
    /// These are the windows.
    Listed(Listing),
    /// This was picked in the overlay.
    Picked(Selection),
}

/// Whether a step can end so.
pub open spec fn switch_can_end(step: SwitchStep, event: SwitchEvent) -> bool {
    match step {
        SwitchStep::Report | SwitchStep::Lock | SwitchStep::Activate(_) => {
            event is Done || event is Failed
        },
        SwitchStep::Connect => event is Connected || event is Failed,
        SwitchStep::List(scratchpad) => match event {
            SwitchEvent::Listed(Listing::Ordered(_)) => !scratchpad,
            SwitchEvent::Listed(Listing::Scratchpad(_)) => scratchpad,
            _ => false,
        },
        SwitchStep::Overlay => event is Picked || event is Done || event is Failed,
        SwitchStep::Exit(_, _) => false,
    }
}

/// The first step of the switcher.
pub fn switch_start(args: &Args) -> (step: SwitchStep)
    ensures
        step == (if args.doctor {
            SwitchStep::Report
        } else {
            SwitchStep::Lock
        }),
{
    if args.doctor {
        SwitchStep::Report
    } else {
        SwitchStep::Lock
    }
}

/// Whether a step, and how it ended, lead to another.
pub open spec fn switch_leads(
    step: SwitchStep,
    event: SwitchEvent,
    args: Args,
    next: SwitchStep,
) -> bool {
    match (step, event) {
        (SwitchStep::Report, SwitchEvent::Done) => next == SwitchStep::Exit(0, Note::Silent),
        (SwitchStep::Report, _) => next == SwitchStep::Exit(1, Note::ReportError),
        (SwitchStep::Lock, SwitchEvent::Done) => next == SwitchStep::Connect,
        (SwitchStep::Lock, _) => next == SwitchStep::Exit(0, Note::Silent),
        (SwitchStep::Connect, SwitchEvent::Connected(true)) => {
            next == SwitchStep::List(args.scratchpad)
        },
        (SwitchStep::Connect, SwitchEvent::Connected(false)) => {
            next == SwitchStep::Exit(2, Note::NoWindowCapture)
        },
        (SwitchStep::Connect, _) => next == SwitchStep::Exit(2, Note::CallError),
        (SwitchStep::List(_), SwitchEvent::Listed(listing)) => match listed_windows(listing) {
            None => next == SwitchStep::Exit(2, Note::NoSwayIpc),
            Some(windows) => {
                let shown = tiles(windows, args.include_system);
                if shown.len() == 0 {
                    next == SwitchStep::Exit(0, Note::Silent)
                } else if shown.len() == 1 {
                    next matches SwitchStep::Activate(selection) && selects(
                        selection,
                        shown[0],
                    )
                } else {
                    next is Overlay
                }
            },
        },
        (SwitchStep::Activate(_), SwitchEvent::Done) => {
            next == SwitchStep::Exit(0, Note::Silent)
        },
        (SwitchStep::Activate(_), _) => next == SwitchStep::Exit(2, Note::CallError),
        (SwitchStep::Overlay, SwitchEvent::Picked(selection)) => if selection.is_window {
            next == SwitchStep::Activate(selection)
        } else {
            next == SwitchStep::Exit(0, Note::Silent)
        },
        (SwitchStep::Overlay, SwitchEvent::Done) => next == SwitchStep::Exit(1, Note::Silent),
        (SwitchStep::Overlay, _) => next == SwitchStep::Exit(2, Note::CallError),
        _ => true,
    }
}

/// The step that follows the end of another. Re-pressing the keybind while the switcher is up
/// is a no-op rather than a stacked overlay. A compositor that lets no windows be captured is
/// reported, instead of showing an empty overlay. No window at all is a no-op; one window is
/// focused without an overlay. Of what the overlay gives back, only windows are focused.
pub fn switch_next(step: SwitchStep, event: SwitchEvent, args: &Args) -> (next: SwitchStep)
    requires
        switch_can_end(step, event),
    ensures
        match (step, event) {
            (SwitchStep::Report, SwitchEvent::Done) => next == SwitchStep::Exit(0, Note::Silent),
            (SwitchStep::Report, _) => next == SwitchStep::Exit(1, Note::ReportError),
            (SwitchStep::Lock, SwitchEvent::Done) => next == SwitchStep::Connect,
            (SwitchStep::Lock, _) => next == SwitchStep::Exit(0, Note::Silent),
            (SwitchStep::Connect, SwitchEvent::Connected(true)) => {
                next == SwitchStep::List(args.scratchpad)
            },
            (SwitchStep::Connect, SwitchEvent::Connected(false)) => {
                next == SwitchStep::Exit(2, Note::NoWindowCapture)
            },
            (SwitchStep::Connect, _) => next == SwitchStep::Exit(2, Note::CallError),
            (SwitchStep::List(_), SwitchEvent::Listed(listing)) => match listed_windows(listing) {
                None => next == SwitchStep::Exit(2, Note::NoSwayIpc),
                Some(windows) => {
                    let shown = tiles(windows, args.include_system);
                    if shown.len() == 0 {
                        next == SwitchStep::Exit(0, Note::Silent)
                    } else if shown.len() == 1 {
                        next matches SwitchStep::Activate(selection) && selects(
                            selection,
                            shown[0],
                        )
                    } else {
                        next is Overlay
                    }
                },
            },
            (SwitchStep::Activate(_), SwitchEvent::Done) => {
                next == SwitchStep::Exit(0, Note::Silent)
            },
            (SwitchStep::Activate(_), _) => next == SwitchStep::Exit(2, Note::CallError),
            (SwitchStep::Overlay, SwitchEvent::Picked(selection)) => if selection.is_window {
                next == SwitchStep::Activate(selection)
            } else {
                next == SwitchStep::Exit(0, Note::Silent)
            },
            (SwitchStep::Overlay, SwitchEvent::Done) => next == SwitchStep::Exit(1, Note::Silent),
            (SwitchStep::Overlay, _) => next == SwitchStep::Exit(2, Note::CallError),
            _ => true,
        },
        switch_leads(step, event, *args, next),
        next matches SwitchStep::Exit(code, note) ==> 0 <= code <= 2 && (code == 0 ==> note
            == Note::Silent),
        next !is Report && next !is Lock,
        switch_steps_left(next) < switch_steps_left(step),
{
    match step {
        SwitchStep::Report => match event {
            SwitchEvent::Done => SwitchStep::Exit(0, Note::Silent),
            _ => SwitchStep::Exit(1, Note::ReportError),
        },
        SwitchStep::Lock => match event {
            SwitchEvent::Done => SwitchStep::Connect,
            _ => SwitchStep::Exit(0, Note::Silent),
        },
        SwitchStep::Connect => match event {
            SwitchEvent::Connected(can_capture) => if can_capture {
                SwitchStep::List(args.scratchpad)
            } else {
                SwitchStep::Exit(2, Note::NoWindowCapture)
            },
            _ => SwitchStep::Exit(2, Note::CallError),
        },
        SwitchStep::List(_) => match event {
            SwitchEvent::Listed(listing) => match resolve_candidates(
                &listing,
                args.include_system,
            ) {
                Candidates::Unavailable => SwitchStep::Exit(2, Note::NoSwayIpc),
                Candidates::Empty => SwitchStep::Exit(0, Note::Silent),
                Candidates::Sole(selection) => SwitchStep::Activate(*selection),
                Candidates::Choose => SwitchStep::Overlay,
            },
            _ => SwitchStep::Exit(2, Note::CallError),
        },
        SwitchStep::Activate(_) => match event {
            SwitchEvent::Done => SwitchStep::Exit(0, Note::Silent),
            _ => SwitchStep::Exit(2, Note::CallError),
        },
        SwitchStep::Overlay => match event {
            SwitchEvent::Picked(selection) => if selection.is_window {
                SwitchStep::Activate(selection)
            } else {
                SwitchStep::Exit(0, Note::Silent)
            },
            SwitchEvent::Done => SwitchStep::Exit(1, Note::Silent),
            _ => SwitchStep::Exit(2, Note::CallError),
        },
        SwitchStep::Exit(code, note) => SwitchStep::Exit(code, note),
    }
}

/// How many steps may still follow.
pub open spec fn switch_steps_left(step: SwitchStep) -> nat {
    match step {
        SwitchStep::Report => 1,
        SwitchStep::Lock => 5,
        SwitchStep::Connect => 4,
        SwitchStep::List(_) => 3,
        SwitchStep::Overlay => 2,
        SwitchStep::Activate(_) => 1,
        SwitchStep::Exit(_, _) => 0,
    }
}

/// Hold-to-switch is on by default for the strip alone, and either flag overrides that.
pub proof fn law_hold_defaults(layout: LayoutArg)
    ensures
        holds(false, false, layout) == (layout == LayoutArg::Strip),
        holds(true, false, layout),
        !holds(false, true, layout),
{
}

/// Why a list came out as it did does not matter: the same windows, in the scratchpad or not,
/// are listed alike.
pub proof fn law_candidates_independent_of_origin(windows: Vec<(Toplevel, usize)>)
    ensures
        listed_windows(Listing::Ordered(windows)) == listed_windows(
            Listing::Scratchpad(Some(windows)),
        ),
{
}

/// With system windows included every window has a tile; without them exactly those with an
/// app-id have one.
pub proof fn law_tiles(windows: Seq<Window>, w: Window)
    requires
        windows.contains(w),
    ensures
        tiles(windows, true) == windows,
        tiles(windows, false).contains(w) <==> w.app_id.len() > 0,
{
    lemma_filter_all(windows, shown_test(true));
    let k = choose|k: int| 0 <= k < windows.len() && windows[k] == w;
    if w.app_id.len() > 0 {
        windows.lemma_filter_contains(shown_test(false), k);
    }
    if tiles(windows, false).contains(w) {
        let j = choose|j: int|
            0 <= j < tiles(windows, false).len() && tiles(windows, false)[j] == w;
        windows.lemma_filter_pred(shown_test(false), j);
    }
}

/// The layout that is asked for is the one that is raised, by name.
pub proof fn law_layout_is_as_asked(layout: LayoutArg)
    ensures
        layout == LayoutArg::Strip <==> layout_of(layout) == Layout::Strip,
        layout == LayoutArg::Grid <==> layout_of(layout) == Layout::Grid,
        layout == LayoutArg::Card <==> layout_of(layout) == Layout::Card,
{
}

/// The previews that are asked for are those that are shown, by name.
pub proof fn law_live_is_as_asked(live: LiveArg)
    ensures
        live == LiveArg::Off <==> <Live as vstd::std_specs::convert::FromSpec<LiveArg>>::from_spec(
            live,
        ) == Live::Off,
        live == LiveArg::Current <==> <Live as vstd::std_specs::convert::FromSpec<
            LiveArg,
        >>::from_spec(live) == Live::Current,
        live == LiveArg::All <==> <Live as vstd::std_specs::convert::FromSpec<LiveArg>>::from_spec(
            live,
        ) == Live::All,
{
}

/// Asking for hold-to-switch turns it on whatever else is asked for; asking for it to be off
/// turns it off where it is not also asked for; asking for neither leaves it to the layout.
pub proof fn law_hold_is_as_asked(hold: bool, no_hold: bool, layout: LayoutArg)
    ensures
        hold ==> holds(hold, no_hold, layout),
        !hold && no_hold ==> !holds(hold, no_hold, layout),
        !hold && !no_hold ==> (holds(hold, no_hold, layout) <==> layout == LayoutArg::Strip),
{
}

/// A listed window is the one that the compositor lists: its own identifier, application id,
/// title and place.
pub proof fn law_listed_windows_are_the_toplevels(listed: Seq<(Toplevel, usize)>, i: int)
    requires
        0 <= i < listed.len(),
    ensures
        windows_of(listed).len() == listed.len(),
        windows_of(listed)[i].identifier == listed[i].0.identifier@,
        windows_of(listed)[i].app_id == listed[i].0.app_id@,
        windows_of(listed)[i].title == listed[i].0.title@,
        windows_of(listed)[i].dup_index == listed[i].1,
{
}

/// A listing is the windows that it holds, all of them; only one that sway did not answer holds
/// none at all.
pub proof fn law_listings_hold_their_windows(windows: Vec<(Toplevel, usize)>)
    ensures
        listed_windows(Listing::Ordered(windows)) == Some(windows_of(windows@)),
        listed_windows(Listing::Scratchpad(Some(windows))) == Some(windows_of(windows@)),
        listed_windows(Listing::Scratchpad(None)) is None,
{
}

/// One window has a tile exactly where it has an application id or system windows are shown.
pub proof fn law_one_window_has_a_tile_or_not(w: Window, show_system: bool)
    ensures
        tiles(seq![w], show_system) == (if show_system || w.app_id.len() > 0 {
            seq![w]
        } else {
            Seq::empty()
        }),
        tiles(Seq::empty(), show_system).len() == 0,
{
    lemma_filter_one(w, shown_test(show_system));
    lemma_filter_nothing(Seq::<Window>::empty(), shown_test(show_system));
}

/// The tiles of two lists in a row are those of the one, then those of the other: which window
/// has a tile, and where, does not depend on the others.
pub proof fn law_tiles_add_up(a: Seq<Window>, b: Seq<Window>, show_system: bool)
    ensures
        tiles(a + b, show_system) == tiles(a, show_system) + tiles(b, show_system),
{
    Seq::filter_distributes_over_add(a, b, shown_test(show_system));
}

/// A selection of a window carries all that the window is found again by, and is printed by its
/// identifier.
pub proof fn law_selection_is_the_window(selection: Selection, w: Window)
    ensures
        selects(selection, w) <==> selection.is_window && selection.identifier@ == w.identifier
            && selection.app_id@ == w.app_id && selection.title@ == w.title && selection.dup_index
            == w.dup_index && selection.token@ == "Window: "@ + w.identifier,
{
}

/// A report that was made, a lock that another instance has, no window at all, a window that was
/// focused and an output that was picked all end the switcher with exit code 0 and no word.
pub proof fn law_nothing_to_say_is_success(
    args: Args,
    windows: Vec<(Toplevel, usize)>,
    selection: Selection,
    output: Selection,
    next: SwitchStep,
)
    requires
        !output.is_window,
        tiles(windows_of(windows@), args.include_system).len() == 0,
    ensures
        switch_leads(SwitchStep::Report, SwitchEvent::Done, args, next) ==> next
            == SwitchStep::Exit(0, Note::Silent),
        switch_leads(SwitchStep::Lock, SwitchEvent::Failed, args, next) ==> next
            == SwitchStep::Exit(0, Note::Silent),
        switch_leads(
            SwitchStep::List(false),
            SwitchEvent::Listed(Listing::Ordered(windows)),
            args,
            next,
        ) ==> next == SwitchStep::Exit(0, Note::Silent),
        switch_leads(
            SwitchStep::List(true),
            SwitchEvent::Listed(Listing::Scratchpad(Some(windows))),
            args,
            next,
        ) ==> next == SwitchStep::Exit(0, Note::Silent),
        switch_leads(SwitchStep::Activate(selection), SwitchEvent::Done, args, next) ==> next
            == SwitchStep::Exit(0, Note::Silent),
        switch_leads(SwitchStep::Overlay, SwitchEvent::Picked(output), args, next) ==> next
            == SwitchStep::Exit(0, Note::Silent),
{
}

/// A cancelled overlay and a failed report end the switcher with exit code 1, the first without a
/// word; all other failures with exit code 2 and a word on what failed.
pub proof fn law_failures_have_their_exit_codes(args: Args, selection: Selection, next: SwitchStep)
    ensures
        switch_leads(SwitchStep::Overlay, SwitchEvent::Done, args, next) ==> next
            == SwitchStep::Exit(1, Note::Silent),
        switch_leads(SwitchStep::Report, SwitchEvent::Failed, args, next) ==> next
            == SwitchStep::Exit(1, Note::ReportError),
        switch_leads(SwitchStep::Connect, SwitchEvent::Failed, args, next) ==> next
            == SwitchStep::Exit(2, Note::CallError),
        switch_leads(SwitchStep::Connect, SwitchEvent::Connected(false), args, next) ==> next
            == SwitchStep::Exit(2, Note::NoWindowCapture),
        switch_leads(
            SwitchStep::List(true),
            SwitchEvent::Listed(Listing::Scratchpad(None)),
            args,
            next,
        ) ==> next == SwitchStep::Exit(2, Note::NoSwayIpc),
        switch_leads(SwitchStep::Activate(selection), SwitchEvent::Failed, args, next) ==> next
            == SwitchStep::Exit(2, Note::CallError),
        switch_leads(SwitchStep::Overlay, SwitchEvent::Failed, args, next) ==> next
            == SwitchStep::Exit(2, Note::CallError),
{
}

/// The switcher locks, connects, lists as asked, and then focuses the sole window or raises the
/// overlay over several; what is picked in it is focused, unchanged.
pub proof fn law_switcher_goes_on(
    args: Args,
    windows: Vec<(Toplevel, usize)>,
    picked: Selection,
    next: SwitchStep,
)
    requires
        picked.is_window,
    ensures
        switch_leads(SwitchStep::Lock, SwitchEvent::Done, args, next) ==> next
            == SwitchStep::Connect,
        switch_leads(SwitchStep::Connect, SwitchEvent::Connected(true), args, next) ==> next
            == SwitchStep::List(args.scratchpad),
        tiles(windows_of(windows@), args.include_system).len() > 1 && switch_leads(
            SwitchStep::List(false),
            SwitchEvent::Listed(Listing::Ordered(windows)),
            args,
            next,
        ) ==> next == SwitchStep::Overlay,
        tiles(windows_of(windows@), args.include_system).len() == 1 && switch_leads(
            SwitchStep::List(false),
            SwitchEvent::Listed(Listing::Ordered(windows)),
            args,
            next,
        ) ==> (next matches SwitchStep::Activate(sole) && selects(
            sole,
            tiles(windows_of(windows@), args.include_system)[0],
        )),
        switch_leads(SwitchStep::Overlay, SwitchEvent::Picked(picked), args, next) ==> next
            == SwitchStep::Activate(picked),
{
}

/// Windows of the scratchpad are gone on with as all windows are.
pub proof fn law_scratchpad_goes_on_alike(
    args: Args,
    windows: Vec<(Toplevel, usize)>,
    next: SwitchStep,
)
    ensures
        switch_leads(
            SwitchStep::List(true),
            SwitchEvent::Listed(Listing::Scratchpad(Some(windows))),
            args,
            next,
        ) <==> switch_leads(
            SwitchStep::List(false),
            SwitchEvent::Listed(Listing::Ordered(windows)),
            args,
            next,
        ),
{
}

/// Every step of the switcher can end in each way that its call can.
pub proof fn law_switcher_steps_can_end_in_every_way(
    selection: Selection,
    picked: Selection,
    windows: Vec<(Toplevel, usize)>,
    found: Option<Vec<(Toplevel, usize)>>,
    can_capture: bool,
)
    ensures
        switch_can_end(SwitchStep::Report, SwitchEvent::Done),
        switch_can_end(SwitchStep::Report, SwitchEvent::Failed),
        switch_can_end(SwitchStep::Lock, SwitchEvent::Done),
        switch_can_end(SwitchStep::Lock, SwitchEvent::Failed),
        switch_can_end(SwitchStep::Connect, SwitchEvent::Connected(can_capture)),
        switch_can_end(SwitchStep::Connect, SwitchEvent::Failed),
        switch_can_end(SwitchStep::List(false), SwitchEvent::Listed(Listing::Ordered(windows))),
        switch_can_end(SwitchStep::List(true), SwitchEvent::Listed(Listing::Scratchpad(found))),
        switch_can_end(SwitchStep::Activate(selection), SwitchEvent::Done),
        switch_can_end(SwitchStep::Activate(selection), SwitchEvent::Failed),
        switch_can_end(SwitchStep::Overlay, SwitchEvent::Picked(picked)),
        switch_can_end(SwitchStep::Overlay, SwitchEvent::Done),
        switch_can_end(SwitchStep::Overlay, SwitchEvent::Failed),
{
}

} // verus!

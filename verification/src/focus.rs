//! Focus-aware capture helpers: "the active window" and "the current output".
//!
//! Wayland deliberately gives a regular client no way to query the global pointer position or
//! which surface or output has the focus, so this relies on the compositor's own IPC: Sway
//! (`swaymsg`), Hyprland (`hyprctl`) and niri (`niri msg`). A backend says which command to
//! run and reads what the command printed; running it is the caller's part.

use vstd::prelude::*;

use crate::geometry::{
    law_low_bits_are_congruent, low_i32, low_u32, signed_low, unsigned_low_of_signed, Region,
};
use crate::json::{parse, text_tree, views, Json, Tree};
use crate::sway::{
    first_focused, sway_active_window_rect, sway_focus_order_of, sway_focused_output,
    sway_scratchpad_identifiers, sway_window_at, texts, FocusOrder, Identifiers,
    WindowRef,
};
use crate::sway_laws::{flagged, law_focused_output_is_the_first_flagged};
use crate::sway_model::{
    active_rect, focus_order, focused_name, focused_window, scratchpad, window_under, WindowInfo,
};

verus! {

/// A command to run.
#[derive(Debug)]
pub struct Request {
    /// The program.
    pub program: String,
    /// Its arguments.
    pub args: Vec<String>,
}

/// The mathematical value of a [`Request`].
pub struct Command {
    /// The program.
    pub program: Seq<char>,
    /// Its arguments.
    pub args: Seq<Seq<char>>,
}

impl View for Request {
    type V = Command;

    open spec fn view(&self) -> Command {
        Command { program: self.program@, args: texts(self.args@) }
    }
}

/// What a command that ran left behind.
#[derive(Debug)]
pub struct Reply {
    /// Whether it reported success.
    pub success: bool,
    /// What it printed.
    pub stdout: Vec<u8>,
}

/// The answer in a reply: none where the command did not run, failed, or printed no JSON.
pub open spec fn answer(reply: Option<Reply>) -> Option<Tree> {
    match reply {
        Some(r) => if r.success {
            text_tree(r.stdout@)
        } else {
            None
        },
        None => None,
    }
}

/// Reads a reply; `None` stands for a command that could not be run.
pub fn read_reply(reply: &Option<Reply>) -> (json: Option<Json>)
    ensures
        json is Some <==> answer(*reply) is Some,
        json is Some ==> (json->0)@ == answer(*reply)->0,
{
    match reply {
        Some(r) => if r.success {
            parse(r.stdout.as_slice())
        } else {
            None
        },
        None => None,
    }
}

/// What a backend can be asked.
#[derive(Clone, Copy, Debug, PartialEq, Eq, Structural)]
pub enum Query {
    /// Which output has the focus.
    FocusedOutput,
    /// Where the active window is.
    ActiveWindow,
    /// Which window is under a point.
    WindowAt,
}

/// A compositor-specific source of focus information.
pub trait FocusBackend {
    /// The command that answers a query, where there is one.
    spec fn command(&self, query: Query) -> Option<Command>;

    /// The focused output that an answer names.
    spec fn output_in(&self, answer: Tree) -> Option<Seq<char>>;

    /// The active window's rectangle in an answer.
    spec fn window_in(&self, answer: Tree) -> Option<Region>;

    /// The window under a point in an answer.
    spec fn under(&self, answer: Tree, x: i32, y: i32) -> Option<WindowInfo>;

    /// The backend's name.
    spec fn label(&self) -> Seq<char>;

    /// The command to run for a query; `None` where the compositor cannot answer it.
    fn request(&self, query: Query) -> (request: Option<Request>)
        ensures
            request is Some <==> self.command(query) is Some,
            request is Some ==> (request->0)@ == self.command(query)->0,
    ;

    /// Name of the focused output, if any, out of the reply to [`Query::FocusedOutput`].
    fn focused_output(&self, reply: &Option<Reply>) -> (name: Option<String>)
        ensures
            name is Some <==> answer(*reply) is Some && self.output_in(answer(*reply)->0) is Some,
            name is Some ==> (name->0)@ == self.output_in(answer(*reply)->0)->0,
    ;

    /// Logical rectangle of the active (focused) window, if any, out of the reply to
    /// [`Query::ActiveWindow`].
    fn active_window_rect(&self, reply: &Option<Reply>) -> (region: Option<Region>)
        ensures
            region == match answer(*reply) {
                Some(tree) => self.window_in(tree),
                None => None,
            },
    ;

    /// The window under the given global logical point, if any, out of the reply to
    /// [`Query::WindowAt`]. Used to make a region mirror follow the window beneath it.
    /// Only Sway's answers tell.
    fn window_at(&self, reply: &Option<Reply>, x: i32, y: i32) -> (window: Option<WindowRef>)
        ensures
            window is Some <==> answer(*reply) is Some && self.under(answer(*reply)->0, x, y)
                is Some,
            window is Some ==> (window->0)@ == self.under(answer(*reply)->0, x, y)->0,
    ;

    /// Human-readable backend name, for error messages.
    fn name(&self) -> (name: &'static str)
        ensures
            name@ == self.label(),
    ;
}

/// Sway / wlroots `swaymsg` backend.
pub struct Sway;

/// Hyprland `hyprctl -j` backend.
pub struct Hyprland;

/// niri `niri msg --json` backend.
pub struct Niri;

impl Sway {
    /// Asks sway for `kind`.
    pub fn query(kind: &str) -> (request: Request)
        ensures
            request@ == (Command { program: "swaymsg"@, args: seq!["-t"@, kind@, "-r"@] }),
    {
        let args = vec!["-t".to_owned(), kind.to_owned(), "-r".to_owned()];
        assert(texts(args@) =~= seq!["-t"@, kind@, "-r"@]);
        Request { program: "swaymsg".to_owned(), args }
    }
}

impl Hyprland {
    /// Asks Hyprland for `cmd`.
    pub fn query(cmd: &str) -> (request: Request)
        ensures
            request@ == (Command { program: "hyprctl"@, args: seq!["-j"@, cmd@] }),
    {
        let args = vec!["-j".to_owned(), cmd.to_owned()];
        assert(texts(args@) =~= seq!["-j"@, cmd@]);
        Request { program: "hyprctl".to_owned(), args }
    }
}

impl Niri {
    /// Asks niri for `action`.
    pub fn query(action: &str) -> (request: Request)
        ensures
            request@ == (Command { program: "niri"@, args: seq!["msg"@, "--json"@, action@] }),
    {
        let args = vec!["msg".to_owned(), "--json".to_owned(), action.to_owned()];
        assert(texts(args@) =~= seq!["msg"@, "--json"@, action@]);
        Request { program: "niri".to_owned(), args }
    }
}

impl FocusBackend for Sway {
    open spec fn command(&self, query: Query) -> Option<Command> {
        Some(
            Command {
                program: "swaymsg"@,
                args: match query {
                    Query::FocusedOutput => seq!["-t"@, "get_outputs"@, "-r"@],
                    _ => seq!["-t"@, "get_tree"@, "-r"@],
                },
            },
        )
    }

    open spec fn output_in(&self, answer: Tree) -> Option<Seq<char>> {
        focused_name(answer)
    }

    open spec fn window_in(&self, answer: Tree) -> Option<Region> {
        active_rect(answer)
    }

    open spec fn under(&self, answer: Tree, x: i32, y: i32) -> Option<WindowInfo> {
        window_under(answer, x, y)
    }

    open spec fn label(&self) -> Seq<char> {
        "sway"@
    }

    fn request(&self, query: Query) -> (request: Option<Request>) {
        match query {
            Query::FocusedOutput => Some(Sway::query("get_outputs")),
            _ => Some(Sway::query("get_tree")),
        }
    }

    fn focused_output(&self, reply: &Option<Reply>) -> (name: Option<String>) {
        sway_focused_output(&read_reply(reply)?)
    }

    fn active_window_rect(&self, reply: &Option<Reply>) -> (region: Option<Region>) {
        sway_active_window_rect(&read_reply(reply)?)
    }

    fn window_at(&self, reply: &Option<Reply>, x: i32, y: i32) -> (window: Option<WindowRef>) {
        sway_window_at(&read_reply(reply)?, x, y)
    }

    fn name(&self) -> (name: &'static str) {
        "sway"
    }
}

/// The number at a place of an array, where there is one.
pub open spec fn number_at(items: Seq<Tree>, i: int) -> Option<i64> {
    if i < items.len() {
        items[i].signed()
    } else {
        None
    }
}

/// The rectangle in a `hyprctl -j activewindow` answer: `at: [x, y]` and `size: [w, h]`.
pub open spec fn hypr_rect(answer: Tree) -> Option<Region> {
    match (answer.field("at"@), answer.field("size"@)) {
        (Some(Tree::Array(at)), Some(Tree::Array(size))) => match (
            number_at(at, 0),
            number_at(at, 1),
            number_at(size, 0),
            number_at(size, 1),
        ) {
            (Some(x), Some(y), Some(w), Some(h)) => Some(
                Region {
                    x: low_i32(x as int),
                    y: low_i32(y as int),
                    w: low_u32(w as int),
                    h: low_u32(h as int),
                },
            ),
            _ => None,
        },
        _ => None,
    }
}

impl FocusBackend for Hyprland {
    open spec fn command(&self, query: Query) -> Option<Command> {
        match query {
            Query::FocusedOutput => Some(
                Command { program: "hyprctl"@, args: seq!["-j"@, "monitors"@] },
            ),
            Query::ActiveWindow => Some(
                Command { program: "hyprctl"@, args: seq!["-j"@, "activewindow"@] },
            ),
            Query::WindowAt => None,
        }
    }

    open spec fn output_in(&self, answer: Tree) -> Option<Seq<char>> {
        focused_name(answer)
    }

    open spec fn window_in(&self, answer: Tree) -> Option<Region> {
        hypr_rect(answer)
    }

    open spec fn under(&self, answer: Tree, x: i32, y: i32) -> Option<WindowInfo> {
        None
    }

    open spec fn label(&self) -> Seq<char> {
        "Hyprland"@
    }

    fn request(&self, query: Query) -> (request: Option<Request>) {
        match query {
            Query::FocusedOutput => Some(Hyprland::query("monitors")),
            Query::ActiveWindow => Some(Hyprland::query("activewindow")),
            Query::WindowAt => None,
        }
    }

    fn focused_output(&self, reply: &Option<Reply>) -> (name: Option<String>) {
        hypr_focused_output(&read_reply(reply)?)
    }

    fn active_window_rect(&self, reply: &Option<Reply>) -> (region: Option<Region>) {
        hypr_active_window_rect(&read_reply(reply)?)
    }

    fn window_at(&self, reply: &Option<Reply>, x: i32, y: i32) -> (window: Option<WindowRef>) {
        None
    }

    fn name(&self) -> (name: &'static str) {
        "Hyprland"
    }
}

/// Picks the focused monitor's name from `hyprctl -j monitors` (an array of monitors, one with
/// `"focused": true`).
pub fn hypr_focused_output(monitors: &Json) -> (name: Option<String>)
    ensures
        name is Some <==> focused_name(monitors@) is Some,
        name is Some ==> (name->0)@ == focused_name(monitors@)->0,
{
    match first_focused(monitors)?.text_field("name") {
        Some(name) => Some(name.to_owned()),
        None => None,
    }
}

/// The number at a place of an array, where there is one.
fn item_number(items: &Vec<Json>, i: usize) -> (number: Option<i64>)
    ensures
        number == number_at(views(items@), i as int),
{
    if i < items.len() {
        items[i].as_i64()
    } else {
        None
    }
}

/// Reads the active window's rectangle from `hyprctl -j activewindow`: `at: [x, y]` and
/// `size: [w, h]` in global logical coordinates. An empty object (`{}`), nothing focused,
/// yields `None`.
pub fn hypr_active_window_rect(w: &Json) -> (region: Option<Region>)
    ensures
        region == hypr_rect(w@),
{
    let at = w.get("at")?.as_array()?;
    let size = w.get("size")?.as_array()?;
    let x: i64 = item_number(at, 0)?;
    let y: i64 = item_number(at, 1)?;
    let width: i64 = item_number(size, 0)?;
    let height: i64 = item_number(size, 1)?;
    Some(
        Region {
            x: signed_low(x),
            y: signed_low(y),
            w: unsigned_low_of_signed(width),
            h: unsigned_low_of_signed(height),
        },
    )
}

impl FocusBackend for Niri {
    open spec fn command(&self, query: Query) -> Option<Command> {
        match query {
            Query::FocusedOutput => Some(
                Command { program: "niri"@, args: seq!["msg"@, "--json"@, "focused-output"@] },
            ),
            _ => None,
        }
    }

    open spec fn output_in(&self, answer: Tree) -> Option<Seq<char>> {
        answer.text_field("name"@)
    }

    open spec fn window_in(&self, answer: Tree) -> Option<Region> {
        None
    }

    open spec fn under(&self, answer: Tree, x: i32, y: i32) -> Option<WindowInfo> {
        None
    }

    open spec fn label(&self) -> Seq<char> {
        "niri"@
    }

    // niri's IPC does not expose a window's rectangle in global logical coordinates
    // (scrollable tiling lets windows extend off-screen).
    fn request(&self, query: Query) -> (request: Option<Request>) {
        match query {
            Query::FocusedOutput => Some(Niri::query("focused-output")),
            _ => None,
        }
    }

    fn focused_output(&self, reply: &Option<Reply>) -> (name: Option<String>) {
        niri_focused_output(&read_reply(reply)?)
    }

    fn active_window_rect(&self, reply: &Option<Reply>) -> (region: Option<Region>) {
        None
    }

    fn window_at(&self, reply: &Option<Reply>, x: i32, y: i32) -> (window: Option<WindowRef>) {
        None
    }

    fn name(&self) -> (name: &'static str) {
        "niri"
    }
}

/// Picks the focused output's name from `niri msg --json focused-output` (the output object,
/// or `null` when there is none).
pub fn niri_focused_output(o: &Json) -> (name: Option<String>)
    ensures
        name is Some <==> o@.text_field("name"@) is Some,
        name is Some ==> (name->0)@ == o@.text_field("name"@)->0,
{
    match o.text_field("name") {
        Some(name) => Some(name.to_owned()),
        None => None,
    }
}

/// Which compositors' sockets the environment names.
#[derive(Clone, Copy, Debug, PartialEq, Eq, Structural)]
pub struct Environment {
    /// Whether `SWAYSOCK` is set.
    pub swaysock: bool,
    /// Whether `HYPRLAND_INSTANCE_SIGNATURE` is set.
    pub hyprland_instance_signature: bool,
    /// Whether `NIRI_SOCKET` is set.
    pub niri_socket: bool,
}

/// A supported compositor.
#[derive(Clone, Copy, Debug, PartialEq, Eq, Structural)]
pub enum Backend {
    /// [`Sway`].
    Sway,
    /// [`Hyprland`].
    Hyprland,
    /// [`Niri`].
    Niri,
}

impl FocusBackend for Backend {
    open spec fn command(&self, query: Query) -> Option<Command> {
        match *self {
            Backend::Sway => Sway.command(query),
            Backend::Hyprland => Hyprland.command(query),
            Backend::Niri => Niri.command(query),
        }
    }

    open spec fn output_in(&self, answer: Tree) -> Option<Seq<char>> {
        match *self {
            Backend::Sway => Sway.output_in(answer),
            Backend::Hyprland => Hyprland.output_in(answer),
            Backend::Niri => Niri.output_in(answer),
        }
    }

    open spec fn window_in(&self, answer: Tree) -> Option<Region> {
        match *self {
            Backend::Sway => Sway.window_in(answer),
            Backend::Hyprland => Hyprland.window_in(answer),
            Backend::Niri => Niri.window_in(answer),
        }
    }

    open spec fn under(&self, answer: Tree, x: i32, y: i32) -> Option<WindowInfo> {
        match *self {
            Backend::Sway => Sway.under(answer, x, y),
            Backend::Hyprland => Hyprland.under(answer, x, y),
            Backend::Niri => Niri.under(answer, x, y),
        }
    }

    open spec fn label(&self) -> Seq<char> {
        match *self {
            Backend::Sway => Sway.label(),
            Backend::Hyprland => Hyprland.label(),
            Backend::Niri => Niri.label(),
        }
    }

    fn request(&self, query: Query) -> (request: Option<Request>) {
        match self {
            Backend::Sway => Sway.request(query),
            Backend::Hyprland => Hyprland.request(query),
            Backend::Niri => Niri.request(query),
        }
    }

    fn focused_output(&self, reply: &Option<Reply>) -> (name: Option<String>) {
        match self {
            Backend::Sway => Sway.focused_output(reply),
            Backend::Hyprland => Hyprland.focused_output(reply),
            Backend::Niri => Niri.focused_output(reply),
        }
    }

    fn active_window_rect(&self, reply: &Option<Reply>) -> (region: Option<Region>) {
        match self {
            Backend::Sway => Sway.active_window_rect(reply),
            Backend::Hyprland => Hyprland.active_window_rect(reply),
            Backend::Niri => Niri.active_window_rect(reply),
        }
    }

    fn window_at(&self, reply: &Option<Reply>, x: i32, y: i32) -> (window: Option<WindowRef>) {
        match self {
            Backend::Sway => Sway.window_at(reply, x, y),
            Backend::Hyprland => Hyprland.window_at(reply, x, y),
            Backend::Niri => Niri.window_at(reply, x, y),
        }
    }

    fn name(&self) -> (name: &'static str) {
        match self {
            Backend::Sway => Sway.name(),
            Backend::Hyprland => Hyprland.name(),
            Backend::Niri => Niri.name(),
        }
    }
}

/// The backend that an environment names, sway before Hyprland before niri.
pub open spec fn detected(env: Environment) -> Option<Backend> {
    if env.swaysock {
        Some(Backend::Sway)
    } else if env.hyprland_instance_signature {
        Some(Backend::Hyprland)
    } else if env.niri_socket {
        Some(Backend::Niri)
    } else {
        None
    }
}

/// Picks a focus backend from the environment: the first of sway, Hyprland and niri whose
/// socket is named. `None` if no supported compositor IPC is present.
pub fn detect(env: Environment) -> (backend: Option<Backend>)
    ensures
        backend == Some(Backend::Sway) <==> env.swaysock,
        backend == Some(Backend::Hyprland) <==> !env.swaysock && env.hyprland_instance_signature,
        backend == Some(Backend::Niri) <==> !env.swaysock && !env.hyprland_instance_signature
            && env.niri_socket,
        backend is None <==> !env.swaysock && !env.hyprland_instance_signature
            && !env.niri_socket,
        backend == detected(env),
{
    if env.swaysock {
        return Some(Backend::Sway);
    }
    if env.hyprland_instance_signature {
        return Some(Backend::Hyprland);
    }
    if env.niri_socket {
        return Some(Backend::Niri);
    }
    None
}

/// The windows in sway's scratchpad, as `ext-foreign-toplevel-list-v1` identifiers, out of
/// the reply to `get_tree`.
///
/// Scratchpad membership, not visibility: a window *shown* from the scratchpad keeps a
/// non-`none` `scratchpad_state` until it is moved back to a workspace, so it is included.
/// Membership is inherited: sending a whole container to the scratchpad puts every window
/// under it in here. `None` if the query failed or the reply is no JSON.
pub fn sway_scratchpad_ids(reply: &Option<Reply>) -> (ids: Option<Identifiers>)
    ensures
        ids is Some <==> answer(*reply) is Some,
        ids is Some ==> (ids->0)@ == scratchpad(answer(*reply)->0, false).to_set(),
{
    Some(sway_scratchpad_identifiers(&read_reply(reply)?))
}

/// Reads sway's focus order out of the reply to `get_tree`.
///
/// Sway hangs a `focus` array on every container, its children's ids, most recently focused
/// first, so that descending the tree along those arrays enumerates the windows in focus
/// order. A one-shot snapshot, not a subscription. `None` if the query failed or the reply is
/// no JSON.
pub fn sway_focus_order(reply: &Option<Reply>) -> (focus: Option<FocusOrder>)
    ensures
        focus is Some <==> answer(*reply) is Some,
        focus is Some ==> texts((focus->0).order@) == focus_order(answer(*reply)->0),
        focus is Some ==> ((focus->0).focused is Some <==> focused_window(answer(*reply)->0)
            is Some),
        focus is Some && (focus->0).focused is Some ==> ((focus->0).focused->0)@
            == focused_window(answer(*reply)->0)->0,
{
    Some(sway_focus_order_of(&read_reply(reply)?))
}

/// A reply is answered with what it printed where the command reported success, and with nothing
/// where it did not run or failed, whatever it printed.
pub proof fn law_only_success_is_answered(reply: Reply)
    ensures
        reply.success ==> answer(Some(reply)) == text_tree(reply.stdout@),
        !reply.success ==> answer(Some(reply)) is None,
        answer(None) is None,
{
}

/// Sway is asked with `swaymsg -t`, raw: for the outputs where they are wanted, and for the tree
/// for all else.
pub proof fn law_sway_is_asked_with_swaymsg(query: Query)
    ensures
        Sway.command(query) matches Some(c) && {
            &&& c.program == "swaymsg"@
            &&& c.args.len() == 3
            &&& c.args[0] == "-t"@
            &&& c.args[2] == "-r"@
            &&& query == Query::FocusedOutput ==> c.args[1] == "get_outputs"@
            &&& query != Query::FocusedOutput ==> c.args[1] == "get_tree"@
        },
        Sway.label() == "sway"@,
{
}

/// Hyprland is asked with `hyprctl -j`, for the monitors or for the active window, and cannot be
/// asked for what is under a point.
pub proof fn law_hyprland_is_asked_with_hyprctl(query: Query)
    ensures
        Hyprland.command(query) is None <==> query == Query::WindowAt,
        Hyprland.command(query) matches Some(c) ==> {
            &&& c.program == "hyprctl"@
            &&& c.args.len() == 2
            &&& c.args[0] == "-j"@
            &&& query == Query::FocusedOutput ==> c.args[1] == "monitors"@
            &&& query == Query::ActiveWindow ==> c.args[1] == "activewindow"@
        },
        Hyprland.label() == "Hyprland"@,
{
}

/// niri is asked with `niri msg --json`, and for the focused output alone.
pub proof fn law_niri_is_asked_for_the_output(query: Query)
    ensures
        Niri.command(query) is Some <==> query == Query::FocusedOutput,
        Niri.command(query) matches Some(c) ==> {
            &&& c.program == "niri"@
            &&& c.args.len() == 3
            &&& c.args[0] == "msg"@
            &&& c.args[1] == "--json"@
            &&& c.args[2] == "focused-output"@
        },
        Niri.label() == "niri"@,
{
}

/// Sway and Hyprland list their outputs alike: the focused one is the `name` of the first that
/// says `"focused": true`.
pub proof fn law_outputs_are_read_alike(outputs: Seq<Tree>, i: int, s: Seq<char>)
    requires
        0 <= i < outputs.len(),
        outputs[i].field("focused"@) == Some(Tree::Bool(true)),
        forall|j: int|
            0 <= j < i ==> (#[trigger] outputs[j]).field("focused"@) != Some(Tree::Bool(true)),
    ensures
        Sway.output_in(Tree::Array(outputs)) == Some(s) <==> outputs[i].field("name"@) == Some(
            Tree::Text(s),
        ),
        Hyprland.output_in(Tree::Array(outputs)) == Some(s) <==> outputs[i].field("name"@) == Some(
            Tree::Text(s),
        ),
{
    assert(flagged(outputs[i]));
    assert forall|j: int| 0 <= j < i implies !flagged(#[trigger] outputs[j]) by {}
    law_focused_output_is_the_first_flagged(outputs, i, s);
}

/// niri's focused output is the `name` of its answer.
pub proof fn law_niri_names_the_output(answer: Tree, s: Seq<char>)
    ensures
        Niri.output_in(answer) == Some(s) <==> answer.field("name"@) == Some(Tree::Text(s)),
        Niri.window_in(answer) is None,
{
}

/// Sway's active window is that of its tree, and what it finds under a point is what the tree
/// has there; neither Hyprland nor niri finds anything under a point.
pub proof fn law_only_sway_finds_windows(answer: Tree, x: i32, y: i32)
    ensures
        Sway.window_in(answer) == active_rect(answer),
        Sway.under(answer, x, y) == window_under(answer, x, y),
        Hyprland.under(answer, x, y) is None,
        Niri.under(answer, x, y) is None,
{
}

/// Hyprland's active window is at the two whole numbers of `at`, as large as the two of `size`,
/// the horizontal one first in each; more numbers than two do not matter.
pub proof fn law_hypr_rect_is_at_and_size(
    answer: Tree,
    at: Seq<Tree>,
    size: Seq<Tree>,
    x: i64,
    y: i64,
    w: i64,
    h: i64,
)
    requires
        answer.field("at"@) == Some(Tree::Array(at)),
        answer.field("size"@) == Some(Tree::Array(size)),
        at.len() >= 2,
        size.len() >= 2,
        at[0] == Tree::Integer(x as int),
        at[1] == Tree::Integer(y as int),
        size[0] == Tree::Integer(w as int),
        size[1] == Tree::Integer(h as int),
    ensures
        hypr_rect(answer) matches Some(r) && {
            &&& (r.x - x) % 0x1_0000_0000 == 0
            &&& (r.y - y) % 0x1_0000_0000 == 0
            &&& (r.w - w) % 0x1_0000_0000 == 0
            &&& (r.h - h) % 0x1_0000_0000 == 0
        },
        Hyprland.window_in(answer) == hypr_rect(answer),
{
    law_low_bits_are_congruent(x as int);
    law_low_bits_are_congruent(y as int);
    law_low_bits_are_congruent(w as int);
    law_low_bits_are_congruent(h as int);
}

/// Without two whole numbers in each of `at` and `size` Hyprland has no active window.
pub proof fn law_no_hypr_rect_without_its_numbers(answer: Tree)
    ensures
        hypr_rect(answer) is Some ==> {
            &&& answer.items_field("at"@).len() >= 2
            &&& answer.items_field("size"@).len() >= 2
            &&& answer.items_field("at"@)[0] is Integer
            &&& answer.items_field("at"@)[1] is Integer
            &&& answer.items_field("size"@)[0] is Integer
            &&& answer.items_field("size"@)[1] is Integer
        },
        Hyprland.window_in(answer) == hypr_rect(answer),
{
}

/// A detected backend asks and reads as its compositor does.
pub proof fn law_backends_are_their_compositors(query: Query, answer: Tree, x: i32, y: i32)
    ensures
        Backend::Sway.command(query) == Sway.command(query),
        Backend::Sway.output_in(answer) == Sway.output_in(answer),
        Backend::Sway.window_in(answer) == Sway.window_in(answer),
        Backend::Sway.under(answer, x, y) == Sway.under(answer, x, y),
        Backend::Sway.label() == Sway.label(),
        Backend::Hyprland.command(query) == Hyprland.command(query),
        Backend::Hyprland.output_in(answer) == Hyprland.output_in(answer),
        Backend::Hyprland.window_in(answer) == Hyprland.window_in(answer),
        Backend::Hyprland.under(answer, x, y) == Hyprland.under(answer, x, y),
        Backend::Hyprland.label() == Hyprland.label(),
        Backend::Niri.command(query) == Niri.command(query),
        Backend::Niri.output_in(answer) == Niri.output_in(answer),
        Backend::Niri.window_in(answer) == Niri.window_in(answer),
        Backend::Niri.under(answer, x, y) == Niri.under(answer, x, y),
        Backend::Niri.label() == Niri.label(),
{
}

/// A backend is detected exactly where a socket is named, and only one whose socket is; sway goes
/// before the others, and Hyprland before niri.
pub proof fn law_named_sockets_are_detected(env: Environment)
    ensures
        detected(env) is Some <==> env.swaysock || env.hyprland_instance_signature
            || env.niri_socket,
        env.swaysock ==> detected(env) == Some(Backend::Sway),
        detected(env) == Some(Backend::Sway) ==> env.swaysock,
        detected(env) == Some(Backend::Hyprland) ==> env.hyprland_instance_signature,
        detected(env) == Some(Backend::Niri) ==> env.niri_socket
            && !env.hyprland_instance_signature,
{
}

} // verus!

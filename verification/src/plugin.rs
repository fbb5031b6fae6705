//! The compositor plugin: the expectations that a restore registers, and what
//! happens to a window that maps while they are active.
//!
//! Coordinates arrive as text and are handed to the compositor as
//! double-precision numbers. Here each of them is the bit pattern of such a
//! number, so a value is compared with zero through its bits.

use std::collections::HashMap;
use vstd::prelude::*;
use vstd::string::StringExecFns;

use crate::text::{
    self, bool_text_of, decimal_of, holds_char, replace_char_in, split_once, str_eq, strip_prefix,
    trim_start_of, words_of,
};

verus! {

broadcast use {vstd::string::group_string_axioms, vstd::std_specs::hash::group_hash_axioms};

/// The saved state of one window that is expected to map.
pub struct Expectation {
    pub workspace: String,
    pub monitor: String,
    pub floating: bool,
    pub fullscreen: bool,
    pub x: u64,
    pub y: u64,
    pub w: u64,
    pub h: u64,
}

/// The contents of an `Expectation`.
pub struct ExpectationView {
    pub workspace: Seq<char>,
    pub monitor: Seq<char>,
    pub floating: bool,
    pub fullscreen: bool,
    pub x: u64,
    pub y: u64,
    pub w: u64,
    pub h: u64,
}

impl View for Expectation {
    type V = ExpectationView;

    open spec fn view(&self) -> ExpectationView {
        ExpectationView {
            workspace: self.workspace@,
            monitor: self.monitor@,
            floating: self.floating,
            fullscreen: self.fullscreen,
            x: self.x,
            y: self.y,
            w: self.w,
            h: self.h,
        }
    }
}

/// The geometry that a floating window gets once it is open.
#[derive(Debug, Clone, Copy, PartialEq, Eq, Structural)]
pub struct PendingGeo {
    pub x: u64,
    pub y: u64,
    pub w: u64,
    pub h: u64,
}

/// The expectations registered for one application, oldest first.
pub struct Queue {
    pub app_id: String,
    pub entries: Vec<Expectation>,
}

/// The contents of a `Queue`.
pub struct QueueView {
    pub app_id: Seq<char>,
    pub entries: Seq<ExpectationView>,
}

impl View for Queue {
    type V = QueueView;

    open spec fn view(&self) -> QueueView {
        QueueView {
            app_id: self.app_id@,
            entries: self.entries@.map_values(|e: Expectation| e@),
        }
    }
}

/// All that the plugin remembers between two calls.
pub struct State {
    pub queues: Vec<Queue>,
    pub pending_geo: HashMap<usize, PendingGeo>,
    pub active: bool,
}

/// The contents of a `State`.
#[verifier::ext_equal]
pub struct StateView {
    pub queues: Seq<QueueView>,
    pub pending_geo: Map<usize, PendingGeo>,
    pub active: bool,
}

impl View for State {
    type V = StateView;

    open spec fn view(&self) -> StateView {
        StateView {
            queues: self.queues@.map_values(|q: Queue| q@),
            pending_geo: self.pending_geo@,
            active: self.active,
        }
    }
}

/// What the compositor is told to do with a window that is about to map.
pub struct Placement {
    pub workspace: Option<String>,
    pub monitor: Option<String>,
    pub floating: bool,
    pub fullscreen: bool,
}

/// The contents of a `Placement`.
pub struct PlacementView {
    pub workspace: Option<Seq<char>>,
    pub monitor: Option<Seq<char>>,
    pub floating: bool,
    pub fullscreen: bool,
}

impl View for Placement {
    type V = PlacementView;

    open spec fn view(&self) -> PlacementView {
        PlacementView {
            workspace: text::opt_view(self.workspace),
            monitor: text::opt_view(self.monitor),
            floating: self.floating,
            fullscreen: self.fullscreen,
        }
    }
}

/// The bit patterns of the four coordinates of an `expect` request. A
/// coordinate that is no number is `None`.
#[derive(Debug, Clone, Copy)]
pub struct ParsedGeometry {
    pub x: Option<u64>,
    pub y: Option<u64>,
    pub w: Option<u64>,
    pub h: Option<u64>,
}

/// The coordinates of an `expect` request as they stand in it.
pub struct GeometryText {
    pub x: String,
    pub y: String,
    pub w: String,
    pub h: String,
}

// ---------------------------------------------------------------------------
// Models
// ---------------------------------------------------------------------------

/// Whether the double-precision number with these bits is greater than zero.
/// The patterns of the positive numbers, infinity among them, are the integers
/// from 1 to that of infinity.
pub open spec fn is_positive(bits: u64) -> bool {
    0 < bits <= 0x7ff0_0000_0000_0000
}

/// A text that can be handed to the compositor: not empty, and without the
/// character that would end it early.
pub open spec fn c_text(s: Seq<char>) -> Option<Seq<char>> {
    if s.len() > 0 && !s.contains('\0') {
        Some(s)
    } else {
        None
    }
}

/// The position of the queue of `app_id`, or the number of queues if it has none.
pub open spec fn queue_index(queues: Seq<QueueView>, app_id: Seq<char>) -> nat
    decreases queues.len(),
{
    if queues.len() == 0 || queues[0].app_id == app_id {
        0
    } else {
        1 + queue_index(queues.drop_first(), app_id)
    }
}

/// The expectations of `app_id`, oldest first.
pub open spec fn entries_of(queues: Seq<QueueView>, app_id: Seq<char>) -> Seq<ExpectationView> {
    let i = queue_index(queues, app_id) as int;
    if i < queues.len() {
        queues[i].entries
    } else {
        Seq::empty()
    }
}

/// `queues` with `e` behind the expectations of `app_id`.
pub open spec fn with_expectation(
    queues: Seq<QueueView>,
    app_id: Seq<char>,
    e: ExpectationView,
) -> Seq<QueueView> {
    let i = queue_index(queues, app_id) as int;
    if i < queues.len() {
        queues.update(i, QueueView { app_id: queues[i].app_id, entries: queues[i].entries.push(e) })
    } else {
        queues.push(QueueView { app_id, entries: seq![e] })
    }
}

/// `queues` once a window of the queue at `i` has taken its oldest expectation.
/// The last one stays, for applications that open their window again.
pub open spec fn without_oldest(queues: Seq<QueueView>, i: int) -> Seq<QueueView> {
    if queues[i].entries.len() > 1 {
        queues.update(
            i,
            QueueView { app_id: queues[i].app_id, entries: queues[i].entries.drop_first() },
        )
    } else {
        queues
    }
}

/// The state outside a restore.
pub open spec fn idle() -> StateView {
    StateView { queues: Seq::empty(), pending_geo: Map::empty(), active: false }
}

/// The state in which a restore begins.
pub open spec fn begun() -> StateView {
    StateView { queues: Seq::empty(), pending_geo: Map::empty(), active: true }
}

/// Each application has one queue, and no queue is empty.
pub open spec fn well_formed(queues: Seq<QueueView>) -> bool {
    &&& forall|i: int, j: int|
        0 <= i < j < queues.len() ==> #[trigger] queues[i].app_id != #[trigger] queues[j].app_id
    &&& forall|i: int| 0 <= i < queues.len() ==> #[trigger] queues[i].entries.len() > 0
}

/// The placement that an expectation asks for.
pub open spec fn placement_of(e: ExpectationView) -> PlacementView {
    PlacementView {
        workspace: c_text(e.workspace),
        monitor: c_text(e.monitor),
        floating: e.floating,
        fullscreen: e.fullscreen,
    }
}

/// What a mapping window of class `class` does to the state, and where it goes.
pub open spec fn pre_mapped(st: StateView, window: usize, class: Seq<char>) -> (
    StateView,
    Option<PlacementView>,
) {
    let i = queue_index(st.queues, class) as int;
    if !st.active || i >= st.queues.len() || st.queues[i].entries.len() == 0 {
        (st, None)
    } else {
        let e = st.queues[i].entries[0];
        let pending_geo = if e.floating && is_positive(e.w) && is_positive(e.h) {
            st.pending_geo.insert(window, PendingGeo { x: e.x, y: e.y, w: e.w, h: e.h })
        } else {
            st.pending_geo
        };
        (
            StateView { queues: without_oldest(st.queues, i), pending_geo, active: st.active },
            Some(placement_of(e)),
        )
    }
}

/// What an open window does to the state, and the geometry that it gets.
pub open spec fn opened(st: StateView, window: usize) -> (StateView, Option<PendingGeo>) {
    if st.pending_geo.contains_key(window) {
        (
            StateView { pending_geo: st.pending_geo.remove(window), ..st },
            Some(st.pending_geo[window]),
        )
    } else {
        (st, None)
    }
}

/// `s` with every backslash and every quotation mark behind a backslash.
pub open spec fn json_escaped(s: Seq<char>) -> Seq<char> {
    text::replace_char(text::replace_char(s, '\\', "\\\\"@), '"', "\\\""@)
}

/// The reply to a request that was carried out.
pub open spec fn ok_text(json: bool) -> Seq<char> {
    if json {
        "{\"ok\": true}"@
    } else {
        "ok"@
    }
}

/// The reply to a request that was refused.
pub open spec fn err_text(msg: Seq<char>, json: bool) -> Seq<char> {
    if json {
        "{\"ok\": false, \"error\": \""@ + json_escaped(msg) + "\"}"@
    } else {
        "error: "@ + msg
    }
}

/// The subcommand of a request and what stands behind it.
pub open spec fn command_of(args: Seq<char>) -> (Seq<char>, Seq<char>) {
    let a = text::trim_start(
        if text::has_prefix(args, "sessionctl"@) {
            args.skip("sessionctl"@.len() as int)
        } else {
            args
        },
    );
    let i = text::first_index(a, ' ') as int;
    if i < a.len() {
        (a.take(i), a.skip(i + 1))
    } else {
        (a, Seq::empty())
    }
}

/// A coordinate, with zero for one that is no number.
pub open spec fn or_zero(bits: Option<u64>) -> u64 {
    match bits {
        Some(b) => b,
        None => 0,
    }
}

/// The expectation that the words of an `expect` request describe.
pub open spec fn expectation_of(p: Seq<Seq<char>>, geo: ParsedGeometry) -> ExpectationView {
    ExpectationView {
        workspace: p[1],
        monitor: p[2],
        floating: p[3] != "0"@,
        fullscreen: p[4] != "0"@,
        x: or_zero(geo.x),
        y: or_zero(geo.y),
        w: or_zero(geo.w),
        h: or_zero(geo.h),
    }
}

/// How many expectations there are in all.
pub open spec fn total_of(queues: Seq<QueueView>) -> nat
    decreases queues.len(),
{
    if queues.len() == 0 {
        0
    } else {
        total_of(queues.drop_last()) + queues.last().entries.len()
    }
}

/// The number of expectations of each application, as members of a JSON object.
pub open spec fn json_counts(queues: Seq<QueueView>) -> Seq<char>
    decreases queues.len(),
{
    if queues.len() == 0 {
        Seq::empty()
    } else {
        json_counts(queues.drop_last()) + (if queues.len() > 1 {
            ","@
        } else {
            Seq::empty()
        }) + "\""@ + json_escaped(queues.last().app_id) + "\":"@ + text::decimal(
            queues.last().entries.len(),
        )
    }
}

/// The number of expectations of each application, one line each.
pub open spec fn plain_counts(queues: Seq<QueueView>) -> Seq<char>
    decreases queues.len(),
{
    if queues.len() == 0 {
        Seq::empty()
    } else {
        plain_counts(queues.drop_last()) + "  "@ + queues.last().app_id + ": "@
            + text::decimal(queues.last().entries.len()) + " remaining\n"@
    }
}

/// The reply to a `status` request.
pub open spec fn status_text(st: StateView, json: bool) -> Seq<char> {
    if json {
        "{\"active\":"@ + text::bool_text(st.active) + ",\"pending\":"@
            + text::decimal(total_of(st.queues)) + ",\"expectations\":{"@ + json_counts(
            st.queues,
        ) + "}}"@
    } else {
        "active: "@ + text::bool_text(st.active) + "\npending: "@ + text::decimal(
            total_of(st.queues),
        ) + "\n"@ + plain_counts(st.queues)
    }
}

/// What a request does to the state, and its reply.
pub open spec fn dispatched(
    st: StateView,
    args: Seq<char>,
    json: bool,
    geo: ParsedGeometry,
) -> (StateView, Seq<char>) {
    let (cmd, rest) = command_of(args);
    let p = text::words(rest);
    if cmd == "begin"@ {
        (begun(), ok_text(json))
    } else if cmd == "expect"@ {
        if !st.active {
            (st, err_text("no active restore session (call begin first)"@, json))
        } else if p.len() < 10 {
            (
                st,
                err_text(
                    "usage: sessionctl expect <app> <ws> <mon> <float> <fs> <max> <x> <y> <w> <h>"@,
                    json,
                ),
            )
        } else {
            (
                StateView {
                    queues: with_expectation(st.queues, p[0], expectation_of(p, geo)),
                    ..st
                },
                ok_text(json),
            )
        }
    } else if cmd == "end"@ {
        if st.active {
            (st, ok_text(json))
        } else {
            (st, err_text("no active restore session"@, json))
        }
    } else if cmd == "finish"@ {
        if st.active {
            (idle(), ok_text(json))
        } else {
            (st, err_text("no active restore session"@, json))
        }
    } else if cmd == "status"@ {
        (st, status_text(st, json))
    } else {
        (
            st,
            err_text(
                "unknown subcommand. usage: sessionctl <begin|expect|end|finish|status>"@,
                json,
            ),
        )
    }
}

// ---------------------------------------------------------------------------
// Replies
// ---------------------------------------------------------------------------

/// `s` as it may stand inside a JSON string.
pub fn json_escape(s: &str) -> (r: String)
    ensures
        r@ == json_escaped(s@),
{
    let slashes = replace_char_in(s, '\\', "\\\\");
    replace_char_in(slashes.as_str(), '"', "\\\"")
}

/// The reply to a request that was carried out.
pub fn ok(json: bool) -> (r: String)
    ensures
        r@ == ok_text(json),
{
    if json {
        "{\"ok\": true}".to_owned()
    } else {
        "ok".to_owned()
    }
}

/// The reply to a request that was refused.
pub fn err(msg: &str, json: bool) -> (r: String)
    ensures
        r@ == err_text(msg@, json),
{
    if json {
        let mut r = "{\"ok\": false, \"error\": \"".to_owned();
        r.append(json_escape(msg).as_str());
        r.append("\"}");
        r
    } else {
        let mut r = "error: ".to_owned();
        r.append(msg);
        r
    }
}

// ---------------------------------------------------------------------------
// Windows
// ---------------------------------------------------------------------------

/// `s` if it can be handed to the compositor.
fn c_string(s: &String) -> (r: Option<String>)
    ensures
        text::opt_view(r) == c_text(s@),
{
    if !s.as_str().is_empty() && !holds_char(s.as_str(), '\0') {
        Some(s.clone())
    } else {
        None
    }
}

/// The position of the queue of `app_id`, or the number of queues.
fn find_queue(queues: &Vec<Queue>, app_id: &str) -> (r: usize)
    ensures
        r == queue_index(queues@.map_values(|q: Queue| q@), app_id@),
        r <= queues@.len(),
        r < queues@.len() ==> queues@[r as int].app_id@ == app_id@,
{
    let ghost all = queues@.map_values(|q: Queue| q@);
    let mut i: usize = 0;
    assert(all.skip(0) =~= all);
    while i < queues.len()
        invariant
            i <= queues@.len(),
            all == queues@.map_values(|q: Queue| q@),
            queue_index(all, app_id@) == i + queue_index(all.skip(i as int), app_id@),
        decreases queues@.len() - i,
    {
        if str_eq(queues[i].app_id.as_str(), app_id) {
            return i;
        }
        assert(all.skip(i as int).drop_first() =~= all.skip(i + 1));
        i += 1;
    }
    i
}

/// Whether the double-precision number with these bits is greater than zero.
pub fn bits_positive(bits: u64) -> (r: bool)
    ensures
        r == is_positive(bits),
{
    0 < bits && bits <= 0x7ff0_0000_0000_0000
}

impl State {
    /// The state outside a restore.
    pub fn new() -> (r: State)
        ensures
            r@ == idle(),
    {
        let r = State { queues: Vec::new(), pending_geo: HashMap::new(), active: false };
        assert(r@ =~= idle());
        r
    }

    /// Forgets all expectations and all pending geometry.
    fn reset(&mut self, active: bool)
        ensures
            final(self)@ == (StateView { active, ..idle() }),
    {
        self.queues.clear();
        self.pending_geo.clear();
        self.active = active;
        assert(self@ =~= (StateView { active, ..idle() }));
    }
}

/// Called before the window `window` of class `class` is mapped: takes the
/// oldest expectation of the class, remembers its geometry if the window is to
/// float, and says where the window goes.
pub fn on_pre_map(st: &mut State, window: usize, class: &str) -> (r: Option<Placement>)
    ensures
        final(st)@ == pre_mapped(old(st)@, window, class@).0,
        r matches Some(p) ==> Some(p@) == pre_mapped(old(st)@, window, class@).1,
        r is None ==> pre_mapped(old(st)@, window, class@).1 is None,
{
    if !st.active {
        return None;
    }
    let i: usize = find_queue(&st.queues, class);
    if i >= st.queues.len() || st.queues[i].entries.len() == 0 {
        return None;
    }
    let ghost before = st@;
    let e = &st.queues[i].entries[0];
    assert(e@ == before.queues[i as int].entries[0]);
    let placement = Placement {
        workspace: c_string(&e.workspace),
        monitor: c_string(&e.monitor),
        floating: e.floating,
        fullscreen: e.fullscreen,
    };
    let geo = PendingGeo { x: e.x, y: e.y, w: e.w, h: e.h };
    if st.queues[i].entries.len() > 1 {
        st.queues[i].entries.remove(0);
        assert(st@.queues[i as int].entries =~= before.queues[i as int].entries.drop_first());
    }
    assert(st@.queues =~= without_oldest(before.queues, i as int));
    if placement.floating && bits_positive(geo.w) && bits_positive(geo.h) {
        st.pending_geo.insert(window, geo);
    }
    Some(placement)
}

/// Called once the window `window` is open: the geometry that it waits for.
pub fn on_open(st: &mut State, window: usize) -> (r: Option<PendingGeo>)
    ensures
        final(st)@ == opened(old(st)@, window).0,
        r == opened(old(st)@, window).1,
{
    let ghost before = st@;
    let r = st.pending_geo.remove(&window);
    assert(st@ =~= opened(before, window).0);
    r
}

/// Called when the compositor unloads the plugin.
pub fn rust_plugin_exit(st: &mut State)
    ensures
        final(st)@ == idle(),
{
    st.reset(false);
}

// ---------------------------------------------------------------------------
// Requests
// ---------------------------------------------------------------------------

/// The text of a status line for each queue, for people or for programs.
fn counts_of(queues: &Vec<Queue>, json: bool) -> (r: String)
    ensures
        r@ == if json {
            json_counts(queues@.map_values(|q: Queue| q@))
        } else {
            plain_counts(queues@.map_values(|q: Queue| q@))
        },
{
    let ghost all = queues@.map_values(|q: Queue| q@);
    let mut r = String::new();
    let mut i: usize = 0;
    assert(all.take(0) =~= Seq::<QueueView>::empty());
    while i < queues.len()
        invariant
            i <= queues@.len(),
            all == queues@.map_values(|q: Queue| q@),
            r@ == if json {
                json_counts(all.take(i as int))
            } else {
                plain_counts(all.take(i as int))
            },
        decreases queues@.len() - i,
    {
        let q = &queues[i];
        let n: usize = q.entries.len();
        assert(all.take(i + 1).drop_last() =~= all.take(i as int));
        assert(all.take(i + 1).last() == q@);
        if json {
            if i > 0 {
                r.append(",");
            }
            r.append("\"");
            r.append(json_escape(q.app_id.as_str()).as_str());
            r.append("\":");
            r.append(decimal_of(n as u128).as_str());
            assert(r@ =~= json_counts(all.take(i + 1)));
        } else {
            r.append("  ");
            r.append(q.app_id.as_str());
            r.append(": ");
            r.append(decimal_of(n as u128).as_str());
            r.append(" remaining\n");
            assert(r@ =~= plain_counts(all.take(i + 1)));
        }
        i += 1;
    }
    assert(all.take(i as int) =~= all);
    r
}

/// How many expectations there are in all.
fn total(queues: &Vec<Queue>) -> (r: u128)
    ensures
        r == total_of(queues@.map_values(|q: Queue| q@)),
{
    let ghost all = queues@.map_values(|q: Queue| q@);
    let mut r: u128 = 0;
    let mut i: usize = 0;
    assert(all.take(0) =~= Seq::<QueueView>::empty());
    while i < queues.len()
        invariant
            i <= queues@.len(),
            all == queues@.map_values(|q: Queue| q@),
            r == total_of(all.take(i as int)),
            r <= i * usize::MAX,
        decreases queues@.len() - i,
    {
        let n: usize = queues[i].entries.len();
        assert(all.take(i + 1).drop_last() =~= all.take(i as int));
        assert(all.take(i + 1).last() == queues[i as int]@);
        assert(i * usize::MAX + usize::MAX == (i + 1) * usize::MAX) by (nonlinear_arith);
        assert((i + 1) * usize::MAX <= u128::MAX) by (nonlinear_arith)
            requires
                i + 1 <= usize::MAX,
                usize::MAX <= 0xffff_ffff_ffff_ffff,
        ;
        r = r + n as u128;
        i += 1;
    }
    assert(all.take(i as int) =~= all);
    r
}

/// The subcommand of a request and what stands behind it.
fn split_command(args: &str) -> (r: (&str, &str))
    ensures
        (r.0@, r.1@) == command_of(args@),
{
    let a = trim_start_of(
        match strip_prefix(args, "sessionctl") {
            Some(rest) => rest,
            None => args,
        },
    );
    match split_once(a, ' ') {
        Some(sides) => sides,
        None => {
            proof {
                reveal_strlit("");
            }
            assert(""@ =~= Seq::<char>::empty());
            (a, "")
        },
    }
}

/// The coordinates of an `expect` request, if `args` is one that has them all.
pub fn geometry_fields(args: &str) -> (r: Option<GeometryText>)
    ensures
        r is Some <==> command_of(args@).0 == "expect"@ && text::words(
            command_of(args@).1,
        ).len() >= 10,
        r matches Some(g) ==> ({
            let p = text::words(command_of(args@).1);
            g.x@ == p[6] && g.y@ == p[7] && g.w@ == p[8] && g.h@ == p[9]
        }),
{
    let (cmd, rest) = split_command(args);
    if !str_eq(cmd, "expect") {
        return None;
    }
    let p = words_of(rest);
    assert(text::views(p@).len() == p@.len());
    if p.len() < 10 {
        return None;
    }
    assert(text::views(p@)[6] == p@[6]@ && text::views(p@)[7] == p@[7]@
        && text::views(p@)[8] == p@[8]@ && text::views(p@)[9] == p@[9]@);
    Some(GeometryText { x: p[6].clone(), y: p[7].clone(), w: p[8].clone(), h: p[9].clone() })
}

/// A coordinate, with zero for one that is no number.
fn zero_if_none(bits: Option<u64>) -> (r: u64)
    ensures
        r == or_zero(bits),
{
    match bits {
        Some(b) => b,
        None => 0,
    }
}

impl State {
    /// Registers the expectation that the words `p` of a request describe.
    fn expect(&mut self, p: &Vec<String>, geo: ParsedGeometry)
        requires
            p@.len() >= 10,
        ensures
            final(self)@ == (StateView {
                queues: with_expectation(
                    old(self)@.queues,
                    p@[0]@,
                    expectation_of(text::views(p@), geo),
                ),
                ..old(self)@
            }),
    {
        let ghost before = self@;
        let e = Expectation {
            workspace: p[1].clone(),
            monitor: p[2].clone(),
            floating: !str_eq(p[3].as_str(), "0"),
            fullscreen: !str_eq(p[4].as_str(), "0"),
            x: zero_if_none(geo.x),
            y: zero_if_none(geo.y),
            w: zero_if_none(geo.w),
            h: zero_if_none(geo.h),
        };
        let ghost model = e@;
        assert(model == expectation_of(text::views(p@), geo));
        let i: usize = find_queue(&self.queues, p[0].as_str());
        if i < self.queues.len() {
            self.queues[i].entries.push(e);
            assert(self@.queues[i as int].entries =~= before.queues[i as int].entries.push(model));
        } else {
            let mut entries: Vec<Expectation> = Vec::new();
            entries.push(e);
            self.queues.push(Queue { app_id: p[0].clone(), entries });
            assert(self@.queues.last().entries =~= seq![model]);
        }
        assert(self@.queues =~= with_expectation(before.queues, p@[0]@, model));
    }
}

/// Carries out the request `args` of the `sessionctl` protocol and returns the
/// reply, as JSON if `json` is set. `geo` holds the coordinates that
/// `geometry_fields` finds in the request; for any other request it is unused.
pub fn ipc_dispatch(st: &mut State, args: &str, json: bool, geo: ParsedGeometry) -> (r: String)
    ensures
        final(st)@ == dispatched(old(st)@, args@, json, geo).0,
        r@ == dispatched(old(st)@, args@, json, geo).1,
{
    let (cmd, rest) = split_command(args);
    if str_eq(cmd, "begin") {
        st.reset(true);
        ok(json)
    } else if str_eq(cmd, "expect") {
        if !st.active {
            return err("no active restore session (call begin first)", json);
        }
        let p = words_of(rest);
        assert(text::views(p@).len() == p@.len());
        if p.len() < 10 {
            return err(
                "usage: sessionctl expect <app> <ws> <mon> <float> <fs> <max> <x> <y> <w> <h>",
                json,
            );
        }
        assert(text::views(p@)[0] == p@[0]@);
        st.expect(&p, geo);
        ok(json)
    } else if str_eq(cmd, "end") {
        if st.active {
            ok(json)
        } else {
            err("no active restore session", json)
        }
    } else if str_eq(cmd, "finish") {
        if !st.active {
            return err("no active restore session", json);
        }
        st.reset(false);
        ok(json)
    } else if str_eq(cmd, "status") {
        st.status(json)
    } else {
        err("unknown subcommand. usage: sessionctl <begin|expect|end|finish|status>", json)
    }
}

impl State {
    /// The reply to a `status` request.
    fn status(&self, json: bool) -> (r: String)
        ensures
            r@ == status_text(self@, json),
    {
        let active = bool_text_of(self.active);
        let pending = decimal_of(total(&self.queues));
        let counts = counts_of(&self.queues, json);
        let mut r = if json {
            "{\"active\":".to_owned()
        } else {
            "active: ".to_owned()
        };
        r.append(active.as_str());
        if json {
            r.append(",\"pending\":");
            r.append(pending.as_str());
            r.append(",\"expectations\":{");
            r.append(counts.as_str());
            r.append("}}");
        } else {
            r.append("\npending: ");
            r.append(pending.as_str());
            r.append("\n");
            r.append(counts.as_str());
        }
        r
    }
}

// ---------------------------------------------------------------------------
// Laws
// ---------------------------------------------------------------------------

/// The queue of an application, if it has one, is the first with its name.
proof fn queue_found(queues: Seq<QueueView>, app_id: Seq<char>)
    ensures
        queue_index(queues, app_id) <= queues.len(),
        queue_index(queues, app_id) < queues.len() ==> queues[queue_index(
            queues,
            app_id,
        ) as int].app_id == app_id,
        forall|k: int|
            0 <= k < queue_index(queues, app_id) ==> (#[trigger] queues[k]).app_id != app_id,
    decreases queues.len(),
{
    if queues.len() > 0 && queues[0].app_id != app_id {
        let tail = queues.drop_first();
        queue_found(tail, app_id);
        let i = queue_index(tail, app_id) as int;
        if i < tail.len() {
            assert(queues[i + 1] == tail[i]);
        }
        assert forall|k: int| 0 <= k < i + 1 implies (#[trigger] queues[k]).app_id != app_id by {
            if k > 0 {
                assert(queues[k] == tail[k - 1]);
            }
        }
    }
}

/// The position of a queue is found by its name alone.
proof fn queue_at(queues: Seq<QueueView>, app_id: Seq<char>, i: int)
    requires
        0 <= i <= queues.len(),
        i < queues.len() ==> queues[i].app_id == app_id,
        forall|k: int| 0 <= k < i ==> (#[trigger] queues[k]).app_id != app_id,
    ensures
        queue_index(queues, app_id) == i,
{
    queue_found(queues, app_id);
    let j = queue_index(queues, app_id) as int;
    if j < i {
        assert(queues[j].app_id != app_id);
    } else if i < j {
        assert(queues[i].app_id != app_id);
    }
}

/// Changing the entries of one queue changes those of its application alone.
proof fn entries_updated(queues: Seq<QueueView>, i: int, entries: Seq<ExpectationView>)
    requires
        0 <= i < queues.len(),
        i == queue_index(queues, queues[i].app_id),
    ensures
        ({
            let after = queues.update(i, QueueView { app_id: queues[i].app_id, entries });
            &&& entries_of(after, queues[i].app_id) == entries
            &&& forall|other: Seq<char>|
                other != queues[i].app_id ==> #[trigger] entries_of(after, other) == entries_of(
                    queues,
                    other,
                )
        }),
{
    let after = queues.update(i, QueueView { app_id: queues[i].app_id, entries });
    let own = queues[i].app_id;
    queue_found(queues, own);
    assert forall|k: int| 0 <= k < i implies (#[trigger] after[k]).app_id != own by {
        assert(after[k] == queues[k]);
    }
    queue_at(after, own, i);
    assert forall|other: Seq<char>| other != own implies #[trigger] entries_of(after, other)
        == entries_of(queues, other) by {
        queue_found(queues, other);
        let j = queue_index(queues, other) as int;
        assert forall|k: int| 0 <= k < j implies (#[trigger] after[k]).app_id != other by {
            assert(k != i ==> after[k] == queues[k]);
            assert(queues[k].app_id != other);
        }
        queue_at(after, other, j);
    }
}

/// A new expectation is the last of its application, and those of all others
/// stay as they are.
pub proof fn expectation_comes_last(queues: Seq<QueueView>, app_id: Seq<char>, e: ExpectationView)
    ensures
        entries_of(with_expectation(queues, app_id, e), app_id) == entries_of(queues, app_id).push(
            e,
        ),
        forall|other: Seq<char>|
            other != app_id ==> #[trigger] entries_of(
                with_expectation(queues, app_id, e),
                other,
            ) == entries_of(queues, other),
{
    let i = queue_index(queues, app_id) as int;
    let after = with_expectation(queues, app_id, e);
    queue_found(queues, app_id);
    if i < queues.len() {
        entries_updated(queues, i, queues[i].entries.push(e));
    } else {
        assert forall|k: int| 0 <= k < i implies (#[trigger] after[k]).app_id != app_id by {
            assert(after[k] == queues[k]);
        }
        queue_at(after, app_id, i);
        assert(seq![e] =~= Seq::<ExpectationView>::empty().push(e));
        assert forall|other: Seq<char>| other != app_id implies #[trigger] entries_of(after, other)
            == entries_of(queues, other) by {
            queue_found(queues, other);
            let j = queue_index(queues, other) as int;
            assert forall|k: int| 0 <= k < j implies (#[trigger] after[k]).app_id != other by {
                assert(after[k] == queues[k]);
            }
            if j < queues.len() {
                assert(after[j] == queues[j]);
                queue_at(after, other, j);
            } else {
                assert(after[j].app_id == app_id);
                queue_at(after, other, j + 1);
            }
        }
    }
}

/// Changing the entries of one queue changes the total by as much.
proof fn total_updated(queues: Seq<QueueView>, i: int, queue: QueueView)
    requires
        0 <= i < queues.len(),
    ensures
        total_of(queues.update(i, queue)) + queues[i].entries.len() == total_of(queues)
            + queue.entries.len(),
    decreases queues.len(),
{
    let head = queues.drop_last();
    let after = queues.update(i, queue);
    if i == queues.len() - 1 {
        assert(after.drop_last() =~= head);
    } else {
        total_updated(head, i, queue);
        assert(after.drop_last() =~= head.update(i, queue));
        assert(after.last() == queues.last());
    }
}

/// A new expectation counts as one.
pub proof fn expectation_counts(queues: Seq<QueueView>, app_id: Seq<char>, e: ExpectationView)
    ensures
        total_of(with_expectation(queues, app_id, e)) == total_of(queues) + 1,
{
    let i = queue_index(queues, app_id) as int;
    let after = with_expectation(queues, app_id, e);
    queue_found(queues, app_id);
    if i < queues.len() {
        total_updated(queues, i, after[i]);
    } else {
        assert(after.drop_last() =~= queues);
    }
}

/// A window that maps during a restore takes the oldest expectation of its class.
/// The expectation is gone afterwards unless it is the last, which stays; those
/// of all other classes stay as they are. A window of a class that nothing is
/// expected of goes where it likes.
pub proof fn window_takes_oldest(st: StateView, window: usize, class: Seq<char>)
    requires
        st.active,
    ensures
        ({
            let expected = entries_of(st.queues, class);
            let (next, placement) = pre_mapped(st, window, class);
            &&& placement == (if expected.len() > 0 {
                Some(placement_of(expected[0]))
            } else {
                None
            })
            &&& entries_of(next.queues, class) == (if expected.len() > 1 {
                expected.drop_first()
            } else {
                expected
            })
            &&& forall|other: Seq<char>|
                other != class ==> #[trigger] entries_of(next.queues, other) == entries_of(
                    st.queues,
                    other,
                )
            &&& next.active
        }),
{
    let i = queue_index(st.queues, class) as int;
    queue_found(st.queues, class);
    if i < st.queues.len() && st.queues[i].entries.len() > 1 {
        entries_updated(st.queues, i, st.queues[i].entries.drop_first());
    }
}

/// What the compositor reports of windows.
pub enum Seen {
    /// The window is about to map, with its class.
    Mapping(usize, Seq<char>),
    /// The window is open.
    Open(usize),
}

/// The state after all that the compositor has reported.
pub open spec fn after_seen(st: StateView, seen: Seq<Seen>) -> StateView
    decreases seen.len(),
{
    if seen.len() == 0 {
        st
    } else {
        let before = after_seen(st, seen.drop_last());
        match seen.last() {
            Seen::Mapping(window, class) => pre_mapped(before, window, class).0,
            Seen::Open(window) => opened(before, window).0,
        }
    }
}

/// How many windows of the class have mapped.
pub open spec fn mapped_of(seen: Seq<Seen>, class: Seq<char>) -> nat
    decreases seen.len(),
{
    if seen.len() == 0 {
        0
    } else {
        mapped_of(seen.drop_last(), class) + (if seen.last() matches Seen::Mapping(_, c) && c
            == class {
            1nat
        } else {
            0nat
        })
    }
}

/// The position of the expectation that is due after `mapped` windows have
/// taken theirs: the last one stays due.
pub open spec fn turn_of(mapped: nat, expected: nat) -> int {
    if mapped < expected {
        mapped as int
    } else {
        expected - 1
    }
}

/// The windows of a class take its expectations in the order in which they were
/// registered, whatever windows of other classes do in between; once only the
/// last is left, every further window takes that one.
pub proof fn windows_take_turns(
    st: StateView,
    seen: Seq<Seen>,
    window: usize,
    class: Seq<char>,
)
    requires
        st.active,
        entries_of(st.queues, class).len() > 0,
    ensures
        ({
            let expected = entries_of(st.queues, class);
            let turn = turn_of(mapped_of(seen, class), expected.len());
            let now = after_seen(st, seen);
            &&& now.active
            &&& entries_of(now.queues, class) == expected.skip(turn)
            &&& pre_mapped(now, window, class).1 == Some(placement_of(expected[turn]))
        }),
    decreases seen.len(),
{
    let expected = entries_of(st.queues, class);
    let now = after_seen(st, seen);
    if seen.len() == 0 {
        assert(expected.skip(0) =~= expected);
    } else {
        let head = seen.drop_last();
        let before = after_seen(st, head);
        windows_take_turns(st, head, window, class);
        let turn = turn_of(mapped_of(head, class), expected.len());
        if let Seen::Mapping(w, c) = seen.last() {
            window_takes_oldest(before, w, c);
            if c == class && turn + 1 < expected.len() {
                assert(expected.skip(turn).drop_first() =~= expected.skip(turn + 1));
            }
        }
    }
    window_takes_oldest(now, window, class);
}

/// Outside a restore nothing is remembered, and each application has one queue
/// that is not empty.
pub open spec fn sound(st: StateView) -> bool {
    well_formed(st.queues) && (!st.active ==> st == idle())
}

/// The plugin starts in a sound state, and every call leads from one to one.
pub proof fn calls_keep_sound(
    st: StateView,
    args: Seq<char>,
    json: bool,
    geo: ParsedGeometry,
    window: usize,
    class: Seq<char>,
)
    requires
        sound(st),
    ensures
        sound(idle()),
        sound(dispatched(st, args, json, geo).0),
        sound(pre_mapped(st, window, class).0),
        sound(opened(st, window).0),
{
    let i = queue_index(st.queues, class) as int;
    queue_found(st.queues, class);
    if st.active && i < st.queues.len() {
        let after = without_oldest(st.queues, i);
        assert forall|j: int, k: int| 0 <= j < k < after.len() implies #[trigger] after[j].app_id
            != #[trigger] after[k].app_id by {
            assert(st.queues[j].app_id != st.queues[k].app_id);
        }
    }
    let p = text::words(command_of(args).1);
    if st.active && p.len() >= 10 {
        let own = p[0];
        queue_found(st.queues, own);
        let after = with_expectation(st.queues, own, expectation_of(p, geo));
        assert forall|j: int, k: int| 0 <= j < k < after.len() implies #[trigger] after[j].app_id
            != #[trigger] after[k].app_id by {
            if k < st.queues.len() {
                assert(st.queues[j].app_id != st.queues[k].app_id);
            } else {
                assert(st.queues[j].app_id != own);
            }
        }
    }
}

/// A request that is not carried out changes nothing.
pub proof fn refusal_changes_nothing(
    st: StateView,
    args: Seq<char>,
    json: bool,
    geo: ParsedGeometry,
)
    ensures
        dispatched(st, args, json, geo).1 != ok_text(json) ==> dispatched(st, args, json, geo).0
            == st,
{
}

/// Once a restore is finished, and also when a new one has only begun, no window
/// is placed and none gets a geometry.
pub proof fn nothing_placed_unless_expected(
    st: StateView,
    args: Seq<char>,
    json: bool,
    geo: ParsedGeometry,
    window: usize,
    class: Seq<char>,
)
    requires
        sound(st),
        command_of(args).0 == "finish"@ || command_of(args).0 == "begin"@,
    ensures
        ({
            let next = dispatched(st, args, json, geo).0;
            &&& pre_mapped(next, window, class) == (next, None::<PlacementView>)
            &&& opened(next, window) == (next, None::<PendingGeo>)
        }),
{
    distinct_commands();
}

/// The subcommands have different names.
pub proof fn distinct_commands()
    ensures
        "begin"@ != "expect"@,
        "begin"@ != "end"@,
        "begin"@ != "finish"@,
        "begin"@ != "status"@,
        "expect"@ != "end"@,
        "expect"@ != "finish"@,
        "expect"@ != "status"@,
        "end"@ != "finish"@,
        "end"@ != "status"@,
        "finish"@ != "status"@,
{
    reveal_strlit("begin");
    reveal_strlit("expect");
    reveal_strlit("end");
    reveal_strlit("finish");
    reveal_strlit("status");
    assert("begin"@[0] == 'b' && "expect"@[0] == 'e' && "end"@[0] == 'e' && "finish"@[0] == 'f'
        && "status"@[0] == 's');
    assert("expect"@.len() == 6 && "end"@.len() == 3);
}

/// The geometry of a floating window is handed over once, when it opens; no other
/// window gets it.
pub proof fn geometry_handed_over_once(
    st: StateView,
    window: usize,
    class: Seq<char>,
    other: usize,
)
    requires
        st.active,
        entries_of(st.queues, class).len() > 0,
        other != window,
    ensures
        ({
            let e = entries_of(st.queues, class)[0];
            let mapped = pre_mapped(st, window, class).0;
            let (open, geo) = opened(mapped, window);
            &&& e.floating && is_positive(e.w) && is_positive(e.h) ==> geo == Some(
                PendingGeo { x: e.x, y: e.y, w: e.w, h: e.h },
            )
            &&& !(e.floating && is_positive(e.w) && is_positive(e.h)) ==> geo == opened(
                st,
                window,
            ).1
            &&& opened(open, window).1 is None
            &&& opened(mapped, other).1 == opened(st, other).1
        }),
{
}

/// The value of the inside of a JSON string in which only backslashes and
/// quotation marks are escaped: a backslash makes the next character stand for
/// itself, and a quotation mark would end the string.
pub open spec fn json_value(s: Seq<char>) -> Option<Seq<char>>
    decreases s.len(),
{
    if s.len() == 0 {
        Some(Seq::empty())
    } else if s[0] == '"' || (s[0] == '\\' && s.len() == 1) {
        None
    } else if s[0] == '\\' {
        match json_value(s.skip(2)) {
            Some(rest) => Some(seq![s[1]] + rest),
            None => None,
        }
    } else {
        match json_value(s.drop_first()) {
            Some(rest) => Some(seq![s[0]] + rest),
            None => None,
        }
    }
}

/// A backslash and a quotation mark are written behind a backslash, and every other
/// character is written as it is.
pub proof fn json_escaped_push(s: Seq<char>, c: char)
    ensures
        json_escaped(s.push(c)) == json_escaped(s) + (if c == '\\' {
            seq!['\\', '\\']
        } else if c == '"' {
            seq!['\\', '"']
        } else {
            seq![c]
        }),
{
    reveal_strlit("\\\\");
    reveal_strlit("\\\"");
    let quoted = "\\\""@;
    let a = text::replace_char(s, '\\', "\\\\"@);
    assert(s.push(c).drop_last() =~= s);
    if c == '\\' {
        assert(text::replace_char(s.push(c), '\\', "\\\\"@) =~= a.push('\\').push('\\'));
        assert(a.push('\\').push('\\').drop_last() =~= a.push('\\'));
        assert(a.push('\\').drop_last() =~= a);
        assert(text::replace_char(a.push('\\'), '"', quoted) =~= text::replace_char(
            a,
            '"',
            quoted,
        ).push('\\'));
    } else {
        assert(text::replace_char(s.push(c), '\\', "\\\\"@) =~= a.push(c));
        assert(a.push(c).drop_last() =~= a);
    }
    assert(json_escaped(s.push(c)) =~= json_escaped(s) + (if c == '\\' {
        seq!['\\', '\\']
    } else if c == '"' {
        seq!['\\', '"']
    } else {
        seq![c]
    }));
}

/// What is escaped reads as itself, up to `tail`.
proof fn json_escaped_reads(s: Seq<char>, tail: Seq<char>)
    ensures
        json_value(json_escaped(s) + tail) == (match json_value(tail) {
            Some(rest) => Some(s + rest),
            None => None,
        }),
    decreases s.len(),
{
    if s.len() == 0 {
        assert(json_escaped(s) + tail =~= tail);
        if json_value(tail) is Some {
            assert(s + json_value(tail)->0 =~= json_value(tail)->0);
        }
    } else {
        let head = s.drop_last();
        let c = s.last();
        assert(s =~= head.push(c));
        json_escaped_push(head, c);
        let part = if c == '\\' {
            seq!['\\', '\\']
        } else if c == '"' {
            seq!['\\', '"']
        } else {
            seq![c]
        };
        let t = part + tail;
        json_escaped_reads(head, t);
        assert(json_escaped(s) + tail =~= json_escaped(head) + t);
        if c == '\\' || c == '"' {
            assert(t.skip(2) =~= tail);
            assert(t[0] == '\\' && t[1] == c);
        } else {
            assert(t.drop_first() =~= tail);
            assert(t[0] == c);
        }
        assert(json_value(t) == (match json_value(tail) {
            Some(rest) => Some(seq![c] + rest),
            None => None,
        }));
        if json_value(tail) is Some {
            let rest = json_value(tail)->0;
            assert(head + (seq![c] + rest) =~= s + rest);
        }
    }
}

/// An escaped text stands for the text itself, whatever is in it.
pub proof fn json_reads_escaped(s: Seq<char>)
    ensures
        json_value(json_escaped(s)) == Some(s),
{
    let none = Seq::<char>::empty();
    json_escaped_reads(s, none);
    assert(json_escaped(s) + none =~= json_escaped(s));
    assert(s + none =~= s);
    assert(json_value(none) == Some(none));
}

} // verus!

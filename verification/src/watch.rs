//! Events of the compositor, and the watch for windows that are late.

use vstd::prelude::*;

use crate::models::HyprEvent;
use crate::text::{self, split_once, str_eq, strip_prefix, trim_of};

verus! {

broadcast use vstd::string::group_string_axioms;

/// How many seconds slow applications are watched for once a restore is over.
pub const LATE_WINDOW_GRACE_PERIOD: u64 = 60;

/// The contents of a `HyprEvent`.
pub enum EventView {
    OpenWindow { address: Seq<char>, workspace: Seq<char>, class: Seq<char>, title: Seq<char> },
    Other,
}

impl View for HyprEvent {
    type V = EventView;

    open spec fn view(&self) -> EventView {
        match self {
            HyprEvent::OpenWindow { address, workspace, class, title } => EventView::OpenWindow {
                address: address@,
                workspace: workspace@,
                class: class@,
                title: title@,
            },
            HyprEvent::Other => EventView::Other,
        }
    }
}

/// What a late-window watch learns.
pub enum WatchNews<'a> {
    /// A line of the event socket.
    Line(&'a str),
    /// The event socket was closed, or could not be read.
    Ended,
    /// The grace period is over.
    DeadlinePassed,
}

/// What a late-window watch does next.
#[derive(Debug, Clone, Copy, PartialEq, Eq, Structural)]
pub enum WatchAction {
    /// Wait for more news.
    Listen,
    /// Tell the compositor that the restore is over.
    Finish,
}

/// A watch for windows that did not appear while their session was restored.
pub struct LateWatch {
    /// The applications that are still missing.
    pub pending: Vec<String>,
}

// ---------------------------------------------------------------------------
// Models
// ---------------------------------------------------------------------------

/// The event in a line of the event socket. Of the window that has opened the
/// line gives address, workspace, class and title, with commas between them;
/// only the title may hold further commas.
pub open spec fn event_of(line: Seq<char>) -> EventView {
    let a = line.skip("openwindow>>"@.len() as int);
    let i = text::first_index(a, ',') as int;
    let b = a.skip(i + 1);
    let j = text::first_index(b, ',') as int;
    let c = b.skip(j + 1);
    let k = text::first_index(c, ',') as int;
    if text::has_prefix(line, "openwindow>>"@) && i < a.len() && j < b.len() && k < c.len() {
        EventView::OpenWindow {
            address: a.take(i),
            workspace: b.take(j),
            class: c.take(k),
            title: c.skip(k + 1),
        }
    } else {
        EventView::Other
    }
}

/// `names` without the first that is `name`.
pub open spec fn without_first(names: Seq<Seq<char>>, name: Seq<char>) -> Seq<Seq<char>>
    decreases names.len(),
{
    if names.len() == 0 {
        names
    } else if names[0] == name {
        names.drop_first()
    } else {
        seq![names[0]] + without_first(names.drop_first(), name)
    }
}

/// What is missing once a line was read, and whether the watch goes on: it ends
/// with the last window that was missing.
pub open spec fn watched(pending: Seq<Seq<char>>, line: Seq<char>) -> (Seq<Seq<char>>, WatchAction) {
    match event_of(text::trim(line)) {
        EventView::OpenWindow { class, .. } => if pending.contains(class) {
            let left = without_first(pending, class);
            (
                left,
                if left.len() == 0 {
                    WatchAction::Finish
                } else {
                    WatchAction::Listen
                },
            )
        } else {
            (pending, WatchAction::Listen)
        },
        EventView::Other => (pending, WatchAction::Listen),
    }
}

// ---------------------------------------------------------------------------
// Functions
// ---------------------------------------------------------------------------

/// The event in a line of the event socket.
pub fn parse_event(line: &str) -> (r: HyprEvent)
    ensures
        r@ == event_of(line@),
{
    if let Some(a) = strip_prefix(line, "openwindow>>") {
        if let Some((address, b)) = split_once(a, ',') {
            if let Some((workspace, c)) = split_once(b, ',') {
                if let Some((class, title)) = split_once(c, ',') {
                    return HyprEvent::OpenWindow {
                        address: address.to_owned(),
                        workspace: workspace.to_owned(),
                        class: class.to_owned(),
                        title: title.to_owned(),
                    };
                }
            }
        }
    }
    HyprEvent::Other
}

/// The position of the first of `names` that is `name`, if there is one.
fn position(names: &Vec<String>, name: &str) -> (r: Option<usize>)
    ensures
        r is Some <==> text::views(names@).contains(name@),
        r matches Some(i) ==> i < names@.len() && text::views(names@.remove(i as int))
            == without_first(text::views(names@), name@),
{
    let ghost all = text::views(names@);
    let mut i: usize = 0;
    assert(all.skip(0) =~= all);
    assert(all.take(0) + without_first(all.skip(0), name@) =~= without_first(all, name@));
    while i < names.len()
        invariant
            i <= names@.len(),
            all == text::views(names@),
            forall|j: int| 0 <= j < i ==> all[j] != name@,
            without_first(all, name@) == all.take(i as int) + without_first(
                all.skip(i as int),
                name@,
            ),
        decreases names@.len() - i,
    {
        if str_eq(names[i].as_str(), name) {
            assert(all[i as int] == name@);
            assert(text::views(names@.remove(i as int)) =~= all.take(i as int) + all.skip(
                i as int,
            ).drop_first());
            return Some(i);
        }
        assert(all.skip(i as int).drop_first() =~= all.skip(i + 1));
        assert(all.take(i as int) + without_first(all.skip(i as int), name@) =~= all.take(i + 1)
            + without_first(all.skip(i + 1), name@));
        i += 1;
    }
    None
}

impl LateWatch {
    /// A watch for windows of the applications `pending`.
    pub fn new(pending: Vec<String>) -> (r: Self)
        ensures
            r.pending == pending,
    {
        LateWatch { pending }
    }

    /// Takes news. The compositor still holds the expectations of late windows
    /// and places them by itself; the watch only keeps count of them.
    pub fn watch_late_windows(&mut self, news: WatchNews<'_>) -> (r: WatchAction)
        ensures
            news matches WatchNews::Line(line) ==> (text::views(final(self).pending@), r)
                == watched(text::views(old(self).pending@), line@),
            !(news is Line) ==> final(self).pending@ == old(self).pending@ && r
                == WatchAction::Finish,
    {
        match news {
            WatchNews::Line(line) => {
                if let HyprEvent::OpenWindow { class, .. } = parse_event(trim_of(line)) {
                    if let Some(i) = position(&self.pending, class.as_str()) {
                        self.pending.remove(i);
                        assert(text::views(self.pending@).len() == self.pending@.len());
                        if self.pending.len() == 0 {
                            return WatchAction::Finish;
                        }
                    }
                }
                WatchAction::Listen
            },
            WatchNews::Ended | WatchNews::DeadlinePassed => WatchAction::Finish,
        }
    }
}

// ---------------------------------------------------------------------------
// Laws
// ---------------------------------------------------------------------------

/// The classes of the windows that open in `lines`, in order.
pub open spec fn opened(lines: Seq<Seq<char>>) -> Seq<Seq<char>>
    decreases lines.len(),
{
    if lines.len() == 0 {
        Seq::empty()
    } else {
        match event_of(text::trim(lines.last())) {
            EventView::OpenWindow { class, .. } => opened(lines.drop_last()).push(class),
            EventView::Other => opened(lines.drop_last()),
        }
    }
}

/// What is missing once all of `lines` were read.
pub open spec fn missing_after(pending: Seq<Seq<char>>, lines: Seq<Seq<char>>) -> Seq<Seq<char>>
    decreases lines.len(),
{
    if lines.len() == 0 {
        pending
    } else {
        watched(missing_after(pending, lines.drop_last()), lines.last()).0
    }
}

/// Each window that opens stands for one missing window of its class: what is
/// missing in the end is what was missing at first, less what has opened.
pub proof fn each_window_counts_once(pending: Seq<Seq<char>>, lines: Seq<Seq<char>>)
    ensures
        missing_after(pending, lines).to_multiset() =~= pending.to_multiset().sub(
            opened(lines).to_multiset(),
        ),
    decreases lines.len(),
{
    broadcast use {vstd::seq_lib::group_to_multiset_ensures, vstd::multiset::group_multiset_axioms};

    if lines.len() > 0 {
        let before = lines.drop_last();
        each_window_counts_once(pending, before);
        let left = missing_after(pending, before);
        if let EventView::OpenWindow { class, .. } = event_of(text::trim(lines.last())) {
            if left.contains(class) {
                without_first_removes(left, class);
            } else {
                assert(left.to_multiset().count(class) == 0);
            }
        }
    }
}

/// The watch goes on until the last missing window has opened, and ends with it.
pub proof fn ends_with_last_window(pending: Seq<Seq<char>>, line: Seq<char>)
    requires
        pending.len() > 0,
    ensures
        watched(pending, line).1 == WatchAction::Finish <==> watched(pending, line).0.len() == 0,
{
}

/// Taking out the first of several equal names takes out one.
proof fn without_first_removes(names: Seq<Seq<char>>, name: Seq<char>)
    requires
        names.contains(name),
    ensures
        without_first(names, name).to_multiset() =~= names.to_multiset().remove(name),
    decreases names.len(),
{
    broadcast use {vstd::seq_lib::group_to_multiset_ensures, vstd::multiset::group_multiset_axioms};

    let tail = names.drop_first();
    assert(names =~= seq![names[0]] + tail);
    vstd::seq_lib::lemma_multiset_commutative(seq![names[0]], tail);
    if names[0] != name {
        let k = choose|k: int| 0 <= k < names.len() && names[k] == name;
        assert(tail[k - 1] == name);
        without_first_removes(tail, name);
        vstd::seq_lib::lemma_multiset_commutative(seq![names[0]], without_first(tail, name));
        assert(tail.to_multiset().count(name) > 0);
    }
    assert(seq![names[0]].to_multiset() =~= vstd::multiset::Multiset::singleton(names[0])) by {
        assert(seq![names[0]] =~= Seq::<Seq<char>>::empty().push(names[0]));
    }
}

/// The text of the event that a window has opened.
pub open spec fn open_line(
    address: Seq<char>,
    workspace: Seq<char>,
    class: Seq<char>,
    title: Seq<char>,
) -> Seq<char> {
    "openwindow>>"@ + address + ","@ + workspace + ","@ + class + ","@ + title
}

/// Of an open window its address, workspace, class and title are read as they stand
/// in the line, whatever the title holds.
pub proof fn open_window_read(
    line: &str,
    address: Seq<char>,
    workspace: Seq<char>,
    class: Seq<char>,
    title: Seq<char>,
    event: HyprEvent,
)
    requires
        line@ == open_line(address, workspace, class, title),
        !address.contains(','),
        !workspace.contains(','),
        !class.contains(','),
        call_ensures(parse_event, (line,), event),
    ensures
        event matches HyprEvent::OpenWindow { address: a, workspace: w, class: c, title: t } && a@
            == address && w@ == workspace && c@ == class && t@ == title,
        event@ == (EventView::OpenWindow { address, workspace, class, title }),
{
    reveal_strlit("openwindow>>");
    reveal_strlit(",");
    let s = line@;
    let a = s.skip(12);
    let b = workspace + ","@ + class + ","@ + title;
    let c = class + ","@ + title;
    assert(s.take(12) =~= "openwindow>>"@);
    assert(a =~= address + ","@ + b);
    field_ends(address, b);
    assert(b =~= workspace + ","@ + c);
    field_ends(workspace, c);
    field_ends(class, title);
}

/// A field ends with the first comma.
proof fn field_ends(field: Seq<char>, rest: Seq<char>)
    requires
        !field.contains(','),
    ensures
        text::first_index(field + ","@ + rest, ',') == field.len(),
        (field + ","@ + rest).take(field.len() as int) == field,
        (field + ","@ + rest).skip(field.len() as int + 1) == rest,
    decreases field.len(),
{
    reveal_strlit(",");
    let s = field + ","@ + rest;
    assert(s.take(field.len() as int) =~= field);
    assert(s.skip(field.len() as int + 1) =~= rest);
    if field.len() > 0 {
        assert(field.contains(field[0]));
        let tail = field.drop_first();
        assert forall|i: int| 0 <= i < tail.len() implies tail[i] != ',' by {
            assert(field.contains(field[i + 1]));
        }
        field_ends(tail, rest);
        assert(s.drop_first() =~= tail + ","@ + rest);
    }
}

/// Whatever is read as an open window stands in the line so; no other line is.
pub proof fn only_open_windows_read(line: &str, event: HyprEvent)
    requires
        call_ensures(parse_event, (line,), event),
    ensures
        event matches HyprEvent::OpenWindow { address, workspace, class, title } ==> line@
            == open_line(address@, workspace@, class@, title@) && !address@.contains(',')
            && !workspace@.contains(',') && !class@.contains(','),
{
    reveal_strlit("openwindow>>");
    reveal_strlit(",");
    if let EventView::OpenWindow { address, workspace, class, title } = event@ {
        let s = line@;
        let a = s.skip(12);
        let i = text::first_index(a, ',') as int;
        let b = a.skip(i + 1);
        let j = text::first_index(b, ',') as int;
        let c = b.skip(j + 1);
        let k = text::first_index(c, ',') as int;
        comma_first(a);
        comma_first(b);
        comma_first(c);
        assert(s =~= "openwindow>>"@ + a);
        assert(a =~= address + ","@ + b);
        assert(b =~= workspace + ","@ + c);
        assert(c =~= class + ","@ + title);
        assert(s =~= open_line(address, workspace, class, title));
    }
}

/// The first comma of a text is one, and none stands before it.
proof fn comma_first(s: Seq<char>)
    ensures
        text::first_index(s, ',') <= s.len(),
        text::first_index(s, ',') < s.len() ==> s[text::first_index(s, ',') as int] == ',',
        !s.take(text::first_index(s, ',') as int).contains(','),
    decreases s.len(),
{
    if s.len() > 0 && s[0] != ',' {
        let tail = s.drop_first();
        comma_first(tail);
        let i = text::first_index(tail, ',') as int;
        let head = s.take(i + 1);
        assert forall|k: int| 0 <= k < head.len() implies head[k] != ',' by {
            if k > 0 {
                assert(tail.take(i).contains(tail.take(i)[k - 1]));
            }
        }
    }
}

/// A window that opens takes the first missing one of its class from the list, and
/// the watch ends if that was the last. Any other line changes nothing.
pub proof fn late_window_counted(pending: Seq<Seq<char>>, line: Seq<char>, class: Seq<char>, i: int)
    requires
        event_of(text::trim(line)) matches EventView::OpenWindow { class: c, .. } && c == class,
        0 <= i < pending.len(),
        pending[i] == class,
        forall|j: int| 0 <= j < i ==> #[trigger] pending[j] != class,
    ensures
        watched(pending, line).0 == pending.remove(i),
        watched(pending, line).1 == if pending.len() == 1 {
            WatchAction::Finish
        } else {
            WatchAction::Listen
        },
{
    first_taken(pending, class, i);
}

/// What is taken out is the first of the name.
proof fn first_taken(names: Seq<Seq<char>>, name: Seq<char>, i: int)
    requires
        0 <= i < names.len(),
        names[i] == name,
        forall|j: int| 0 <= j < i ==> #[trigger] names[j] != name,
    ensures
        without_first(names, name) == names.remove(i),
    decreases names.len(),
{
    if i == 0 {
        assert(names.remove(0) =~= names.drop_first());
    } else {
        let tail = names.drop_first();
        assert forall|j: int| 0 <= j < i - 1 implies #[trigger] tail[j] != name by {
            assert(names[j + 1] != name);
        }
        first_taken(tail, name, i - 1);
        assert(seq![names[0]] + tail.remove(i - 1) =~= names.remove(i));
    }
}

/// A line that tells of no window that is missing changes nothing, and the watch
/// goes on.
pub proof fn other_lines_ignored(pending: Seq<Seq<char>>, line: Seq<char>)
    requires
        event_of(text::trim(line)) matches EventView::OpenWindow { class, .. }
            ==> !pending.contains(class),
    ensures
        watched(pending, line).0 == pending,
        watched(pending, line).1 == WatchAction::Listen,
{
}

/// A watch begins with what it is given; a line does to it what was said above; and
/// it ends, with what is missing still missing, when time is up, after a minute, or no
/// more lines come.
pub proof fn watch_kept(given: Vec<String>, first: LateWatch, line: &str)
    requires
        call_ensures(LateWatch::new, (given,), first),
    ensures
        text::views(first.pending@) == text::views(given@),
        LATE_WINDOW_GRACE_PERIOD == 60,
        forall|w: &mut LateWatch, r: WatchAction| #[trigger]
            call_ensures(LateWatch::watch_late_windows, (w, WatchNews::Line(line)), r) ==> (
                text::views(final(w).pending@),
                r,
            ) == watched(text::views(w.pending@), line@),
        forall|w: &mut LateWatch, r: WatchAction| #[trigger]
            call_ensures(LateWatch::watch_late_windows, (w, WatchNews::Ended), r) ==> r
                == WatchAction::Finish && final(w).pending@ == w.pending@,
        forall|w: &mut LateWatch, r: WatchAction| #[trigger]
            call_ensures(LateWatch::watch_late_windows, (w, WatchNews::DeadlinePassed), r) ==> r
                == WatchAction::Finish && final(w).pending@ == w.pending@,
{
}

} // verus!

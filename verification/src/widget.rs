//! The widget window: the corner it sits in and where that puts it on a monitor, the corner a
//! drag ends nearest, the rules that keep background refreshes from fighting a drag or a snap,
//! and the decisions of the state migration, the file watcher and the tray menu.
use vstd::prelude::*;
use crate::calendar::trunc_div;
use crate::providers::{opt_text, ProviderId};
use crate::text::{chars_eq_str, chars_of, string_of_vec, trim_chars, trimmed};

verus! {

/// A monitor's area, in physical pixels.
#[derive(Clone, Copy, Debug)]
pub struct Area {
    pub x: i32,
    pub y: i32,
    pub width: i32,
    pub height: i32,
}

/// The margins kept from the screen's edges, in physical pixels.
#[derive(Clone, Copy, Debug)]
pub struct Margins {
    pub side: i32,
    pub top: i32,
    pub bottom: i32,
}

/// One of the four corners the widget can sit in.
pub open spec fn is_corner(c: Seq<char>) -> bool {
    c == "tl"@ || c == "tr"@ || c == "bl"@ || c == "br"@
}

/// The saved corner: the file's text without surrounding whitespace when it names a corner,
/// else top right.
pub open spec fn saved_corner(text: Option<Seq<char>>) -> Seq<char> {
    match text {
        Some(t) => if is_corner(trimmed(t)) {
            trimmed(t)
        } else {
            "tr"@
        },
        None => "tr"@,
    }
}

/// The corner saved in the corner file's text (`None` when it cannot be read).
pub fn corner_from_text(text: &Option<String>) -> (r: String)
    ensures
        r@ == saved_corner(opt_text(*text)),
{
    match text {
        Some(t) => {
            let c = trim_chars(&chars_of(t.as_str()));
            if chars_eq_str(&c, "tl") || chars_eq_str(&c, "tr") || chars_eq_str(&c, "bl")
                || chars_eq_str(&c, "br") {
                string_of_vec(&c)
            } else {
                "tr".to_owned()
            }
        },
        None => "tr".to_owned(),
    }
}

/// A value that `i32` holds.
pub open spec fn fits(v: int) -> bool {
    i32::MIN <= v <= i32::MAX
}

/// The corner is on the left: its name ends with `l`.
pub open spec fn on_left(corner: Seq<char>) -> bool {
    corner.len() > 0 && corner.last() == 'l'
}

/// The corner is at the top: its name starts with `t`.
pub open spec fn on_top(corner: Seq<char>) -> bool {
    corner.len() > 0 && corner[0] == 't'
}

/// The top-left position of a `w` by `h` window in `corner` of the area: the margins from the
/// corner's edges, never left of or above the area.
pub open spec fn corner_point(corner: Seq<char>, a: Area, m: Margins, w: int, h: int) -> (int, int) {
    (
        if on_left(corner) {
            a.x + m.side
        } else if a.x + a.width - w - m.side > a.x {
            a.x + a.width - w - m.side
        } else {
            a.x as int
        },
        if on_top(corner) {
            a.y + m.top
        } else if a.y + a.height - h - m.bottom > a.y {
            a.y + a.height - h - m.bottom
        } else {
            a.y as int
        },
    )
}

/// The arithmetic of `corner_point` stays within `i32` at every step.
pub open spec fn corner_point_fits(corner: Seq<char>, a: Area, m: Margins, w: int, h: int) -> bool {
    &&& on_left(corner) ==> fits(a.x + m.side)
    &&& !on_left(corner) ==> fits(a.x + a.width) && fits(a.x + a.width - w) && fits(
        a.x + a.width - w - m.side,
    )
    &&& on_top(corner) ==> fits(a.y + m.top)
    &&& !on_top(corner) ==> fits(a.y + a.height) && fits(a.y + a.height - h) && fits(
        a.y + a.height - h - m.bottom,
    )
}

/// Whether a value computed in `i64` is one that `i32` holds.
fn fits_i32(v: i64) -> (r: bool)
    ensures
        r == fits(v as int),
{
    -2147483648 <= v && v <= 2147483647
}

/// Whether placing a `w` by `h` window in `corner` keeps every step within `i32`: where it
/// does not, the placement's arithmetic overflows.
pub fn corner_point_in_range(corner: &str, a: Area, m: Margins, w: i32, h: i32) -> (r: bool)
    ensures
        r == corner_point_fits(corner@, a, m, w as int, h as int),
{
    let c = chars_of(corner);
    let left = c.len() > 0 && c[c.len() - 1] == 'l';
    let top = c.len() > 0 && c[0] == 't';
    let x_ok = if left {
        fits_i32(a.x as i64 + m.side as i64)
    } else {
        let edge = a.x as i64 + a.width as i64;
        fits_i32(edge) && fits_i32(edge - w as i64) && fits_i32(edge - w as i64 - m.side as i64)
    };
    let y_ok = if top {
        fits_i32(a.y as i64 + m.top as i64)
    } else {
        let edge = a.y as i64 + a.height as i64;
        fits_i32(edge) && fits_i32(edge - h as i64) && fits_i32(edge - h as i64 - m.bottom as i64)
    };
    x_ok && y_ok
}

/// Where a `w` by `h` window goes in `corner` of the area. The size is taken as given rather
/// than read from the window, so a bottom corner can be anchored for a height the window has
/// not applied yet.
pub fn corner_xy(corner: &str, a: Area, m: Margins, w: i32, h: i32) -> (r: (i32, i32))
    requires
        corner_point_fits(corner@, a, m, w as int, h as int),
    ensures
        (r.0 as int, r.1 as int) == corner_point(corner@, a, m, w as int, h as int),
{
    let c = chars_of(corner);
    let x = if c.len() > 0 && c[c.len() - 1] == 'l' {
        a.x + m.side
    } else {
        let v = a.x + a.width - w - m.side;
        if v > a.x {
            v
        } else {
            a.x
        }
    };
    let y = if c.len() > 0 && c[0] == 't' {
        a.y + m.top
    } else {
        let v = a.y + a.height - h - m.bottom;
        if v > a.y {
            v
        } else {
            a.y
        }
    };
    (x, y)
}

/// The corner nearest a window: top when its centre is above the area's centre, left when it
/// is left of it.
pub open spec fn nearest(a: Area, x: int, y: int, w: int, h: int) -> Seq<char> {
    let cx = a.x + trunc_div(a.width as int, 2);
    let cy = a.y + trunc_div(a.height as int, 2);
    let wcx = x + trunc_div(w, 2);
    let wcy = y + trunc_div(h, 2);
    seq![if wcy < cy { 't' } else { 'b' }, if wcx < cx { 'l' } else { 'r' }]
}

/// A drag snaps to the corner on the side of the area's centre where the window's centre
/// lies: a left corner exactly when the window's horizontal centre `x + w/2` is left of the
/// area's, a top corner exactly when its vertical centre `y + h/2` is above the area's.
pub proof fn law_snap_follows_the_window_centre(a: Area, x: int, y: int, w: int, h: int)
    ensures
        nearest(a, x, y, w, h).len() == 2,
        on_left(nearest(a, x, y, w, h)) <==> x + trunc_div(w, 2) < a.x + trunc_div(a.width as int, 2),
        on_top(nearest(a, x, y, w, h)) <==> y + trunc_div(h, 2) < a.y + trunc_div(a.height as int, 2),
{
}

/// The centres are within `i32`.
pub open spec fn centres_fit(a: Area, x: int, y: int, w: int, h: int) -> bool {
    &&& fits(a.x + trunc_div(a.width as int, 2))
    &&& fits(a.y + trunc_div(a.height as int, 2))
    &&& fits(x + trunc_div(w, 2))
    &&& fits(y + trunc_div(h, 2))
}

/// Whether the centres of the area and of a window at `(x, y)` of size `w` by `h` are
/// within `i32`: where they are not, finding the nearest corner overflows.
pub fn centres_in_range(a: Area, x: i32, y: i32, w: i32, h: i32) -> (r: bool)
    ensures
        r == centres_fit(a, x as int, y as int, w as int, h as int),
{
    fits_i32(a.x as i64 + a.width as i64 / 2) && fits_i32(a.y as i64 + a.height as i64 / 2)
        && fits_i32(x as i64 + w as i64 / 2) && fits_i32(y as i64 + h as i64 / 2)
}

/// The corner nearest a window at `(x, y)` of size `w` by `h`.
pub fn nearest_corner(a: Area, x: i32, y: i32, w: i32, h: i32) -> (r: String)
    requires
        centres_fit(a, x as int, y as int, w as int, h as int),
    ensures
        r@ == nearest(a, x as int, y as int, w as int, h as int),
{
    let cx = a.x + a.width / 2;
    let cy = a.y + a.height / 2;
    let wcx = x + w / 2;
    let wcy = y + h / 2;
    let mut out: Vec<char> = Vec::new();
    out.push(if wcy < cy { 't' } else { 'b' });
    out.push(if wcx < cx { 'l' } else { 'r' });
    proof {
        assert(out@ =~= nearest(a, x as int, y as int, w as int, h as int));
    }
    string_of_vec(&out)
}

/// Where a drag that ends with the window at `(x, y)` snaps to: the nearest corner and its
/// position for the window's size.
pub fn snap_target(a: Area, m: Margins, x: i32, y: i32, w: i32, h: i32) -> (r: (String, i32, i32))
    requires
        centres_fit(a, x as int, y as int, w as int, h as int),
        corner_point_fits(nearest(a, x as int, y as int, w as int, h as int), a, m, w as int, h as int),
    ensures
        r.0@ == nearest(a, x as int, y as int, w as int, h as int),
        (r.1 as int, r.2 as int) == corner_point(r.0@, a, m, w as int, h as int),
{
    let corner = nearest_corner(a, x, y, w, h);
    let (tx, ty) = corner_xy(corner.as_str(), a, m, w, h);
    (corner, tx, ty)
}

/// What the window is doing.
#[derive(Clone, Copy, Debug, PartialEq, Eq, Structural)]
pub struct Motion {
    /// The user holds and drags the window.
    pub dragging: bool,
    /// The snap to a corner is running.
    pub animating: bool,
    /// A watcher waits for the mouse button's release.
    pub watching: bool,
}

/// At rest.
pub open spec fn at_rest() -> Motion {
    Motion { dragging: false, animating: false, watching: false }
}

/// A drag begins; a watcher is started only when none is running.
pub open spec fn drag_begun(s: Motion) -> (Motion, bool) {
    (Motion { dragging: true, watching: true, ..s }, !s.watching)
}

/// The mouse button was released: the drag and its watcher end, and the snap follows.
pub open spec fn drag_released(s: Motion) -> Motion {
    Motion { dragging: false, watching: false, ..s }
}

/// Background refreshes may move the window only when it is neither dragged nor snapping.
pub open spec fn repositioning_allowed(s: Motion) -> bool {
    !s.dragging && !s.animating
}

impl Motion {
    /// At rest.
    pub fn new() -> (r: Motion)
        ensures
            r == at_rest(),
    {
        Motion { dragging: false, animating: false, watching: false }
    }

    /// A drag begins; returns whether to start the watcher of the mouse button.
    pub fn begin_drag(&mut self) -> (start_watcher: bool)
        ensures
            (*final(self), start_watcher) == drag_begun(*old(self)),
    {
        self.dragging = true;
        if self.watching {
            return false;
        }
        self.watching = true;
        true
    }

    /// The mouse button was released.
    pub fn release(&mut self)
        ensures
            *final(self) == drag_released(*old(self)),
    {
        self.dragging = false;
        self.watching = false;
    }

    /// Whether a background refresh may move the window.
    pub fn may_reposition(&self) -> (r: bool)
        ensures
            r == repositioning_allowed(*self),
    {
        !self.dragging && !self.animating
    }

    /// The snap starts.
    pub fn start_snap(&mut self)
        ensures
            *final(self) == (Motion { animating: true, ..*old(self) }),
    {
        self.animating = true;
    }

    /// Whether the snap must stop: the user grabbed the window again.
    pub fn snap_interrupted(&self) -> (r: bool)
        ensures
            r == self.dragging,
    {
        self.dragging
    }

    /// The snap ends; returns whether to put the window exactly on its target, which is only
    /// when no new drag took over.
    pub fn finish_snap(&mut self) -> (place: bool)
        ensures
            *final(self) == (Motion { animating: false, ..*old(self) }),
            place == !old(self).dragging,
    {
        self.animating = false;
        !self.dragging
    }
}

/// However often a drag is begun before the button is released, one watcher is started.
pub proof fn law_one_release_watcher(s: Motion)
    ensures
        drag_begun(drag_begun(s).0).1 == false,
        drag_begun(drag_begun(s).0).0 == drag_begun(s).0,
{
}

/// While the window is dragged or snapping, no background refresh moves it; once released and
/// settled it may be moved again.
pub proof fn law_refresh_never_fights_motion(s: Motion)
    ensures
        !repositioning_allowed(drag_begun(s).0),
        !repositioning_allowed(Motion { animating: true, ..s }),
        repositioning_allowed(Motion { animating: false, ..drag_released(s) }),
{
}

/// What a height change does.
#[derive(Clone, Copy, Debug, PartialEq, Eq, Structural)]
pub enum HeightStep {
    /// A zero height is ignored.
    Ignore,
    /// Resize, but leave the position to the drag or snap under way.
    ResizeOnly,
    /// Resize and re-anchor in the saved corner.
    ResizeAndPlace,
}

/// What setting the window's height to `h` does in motion state `s`.
pub fn height_step(h: u32, s: &Motion) -> (r: HeightStep)
    ensures
        r == (if h == 0 {
            HeightStep::Ignore
        } else if repositioning_allowed(*s) {
            HeightStep::ResizeAndPlace
        } else {
            HeightStep::ResizeOnly
        }),
{
    if h == 0 {
        HeightStep::Ignore
    } else if s.may_reposition() {
        HeightStep::ResizeAndPlace
    } else {
        HeightStep::ResizeOnly
    }
}

/// What the migration does with one entry of the old state directory.
#[derive(Clone, Copy, Debug, PartialEq, Eq, Structural)]
pub enum CopyStep {
    /// Leave it behind.
    Skip,
    /// Copy the directory's entries in turn.
    Descend,
    /// Copy the file.
    Copy,
}

/// The migration copies only what the new state lacks: it descends into directories, copies a
/// file only where none exists yet, and never carries over the login marker when told not to
/// (so the new build registers itself as a login item again).
pub open spec fn copy_step_of(
    name: Option<Seq<char>>,
    is_dir: bool,
    destination_exists: bool,
    skip_login_marker: bool,
) -> CopyStep {
    if skip_login_marker && name == Some(".login-registered"@) {
        CopyStep::Skip
    } else if is_dir {
        CopyStep::Descend
    } else if !destination_exists {
        CopyStep::Copy
    } else {
        CopyStep::Skip
    }
}

/// What to do with an entry named `name` (`None` when the name is not UTF-8).
pub fn copy_step(name: &Option<String>, is_dir: bool, destination_exists: bool, skip_login_marker: bool) -> (r:
    CopyStep)
    ensures
        r == copy_step_of(opt_text(*name), is_dir, destination_exists, skip_login_marker),
{
    let marker = match name {
        Some(n) => chars_eq_str(&chars_of(n.as_str()), ".login-registered"),
        None => false,
    };
    if skip_login_marker && marker {
        CopyStep::Skip
    } else if is_dir {
        CopyStep::Descend
    } else if !destination_exists {
        CopyStep::Copy
    } else {
        CopyStep::Skip
    }
}

/// The migration never overwrites a file of the new state and never copies the login marker
/// when it skips it.
pub proof fn law_migration_keeps_new_state(
    name: Option<Seq<char>>,
    is_dir: bool,
    skip_login_marker: bool,
)
    ensures
        copy_step_of(name, is_dir, true, skip_login_marker) != CopyStep::Copy,
        copy_step_of(Some(".login-registered"@), is_dir, false, true) == CopyStep::Skip,
{
}

/// What the file watcher learned of one changed path.
#[derive(Clone, Copy, Debug)]
pub struct PathFacts {
    /// The path's extension is `jsonl`.
    pub jsonl: bool,
    /// It lies under Codex's session directory.
    pub in_codex: bool,
    /// It lies under the CLI's projects directory.
    pub in_claude: bool,
}

/// The provider whose data a file event touched: none unless some path is a `jsonl` file; then
/// Codex when some path lies under its sessions, else the other provider when some path lies
/// under its projects.
pub open spec fn provider_of(paths: Seq<PathFacts>) -> Option<ProviderId> {
    if !(exists|i: int| 0 <= i < paths.len() && (#[trigger] paths[i]).jsonl) {
        None
    } else if exists|i: int| 0 <= i < paths.len() && (#[trigger] paths[i]).in_codex {
        Some(ProviderId::Codex)
    } else if exists|i: int| 0 <= i < paths.len() && (#[trigger] paths[i]).in_claude {
        Some(ProviderId::Claude)
    } else {
        None
    }
}

/// The provider whose data a file event touched.
pub fn watched_provider(paths: &Vec<PathFacts>) -> (r: Option<ProviderId>)
    ensures
        r == provider_of(paths@),
{
    let mut jsonl = false;
    let mut codex = false;
    let mut claude = false;
    let mut i: usize = 0;
    while i < paths.len()
        invariant
            0 <= i <= paths.len(),
            jsonl == exists|j: int| 0 <= j < i && (#[trigger] paths@[j]).jsonl,
            codex == exists|j: int| 0 <= j < i && (#[trigger] paths@[j]).in_codex,
            claude == exists|j: int| 0 <= j < i && (#[trigger] paths@[j]).in_claude,
        decreases paths.len() - i,
    {
        let p = paths[i];
        jsonl = jsonl || p.jsonl;
        codex = codex || p.in_codex;
        claude = claude || p.in_claude;
        i = i + 1;
    }
    if !jsonl {
        None
    } else if codex {
        Some(ProviderId::Codex)
    } else if claude {
        Some(ProviderId::Claude)
    } else {
        None
    }
}

/// How long a provider's files must stay quiet before its update is announced, in
/// milliseconds.
pub const QUIET_MS: u64 = 1500;

/// Providers whose files changed, with the time of the latest change (milliseconds).
#[derive(Debug)]
pub struct Debounce {
    pub pending: Vec<(ProviderId, u64)>,
}

/// A provider is due when its files have been quiet long enough.
pub open spec fn due(changed_at: u64, now: u64) -> bool {
    changed_at <= now && now - changed_at >= QUIET_MS
}

/// The providers of the entries that are due, in order.
pub open spec fn due_of(pending: Seq<(ProviderId, u64)>, now: u64) -> Seq<ProviderId>
    decreases pending.len(),
{
    if pending.len() == 0 {
        Seq::empty()
    } else if due(pending.last().1, now) {
        due_of(pending.drop_last(), now).push(pending.last().0)
    } else {
        due_of(pending.drop_last(), now)
    }
}

/// The entries that are not due, in order.
pub open spec fn waiting_of(pending: Seq<(ProviderId, u64)>, now: u64) -> Seq<(ProviderId, u64)>
    decreases pending.len(),
{
    if pending.len() == 0 {
        Seq::empty()
    } else if due(pending.last().1, now) {
        waiting_of(pending.drop_last(), now)
    } else {
        waiting_of(pending.drop_last(), now).push(pending.last())
    }
}

/// The entries with the time of `p` set to `now`.
pub open spec fn renewed(pending: Seq<(ProviderId, u64)>, p: ProviderId, now: u64) -> Seq<(ProviderId, u64)>
    decreases pending.len(),
{
    if pending.len() == 0 {
        Seq::empty()
    } else {
        renewed(pending.drop_last(), p, now).push(
            if pending.last().0 == p {
                (p, now)
            } else {
                pending.last()
            },
        )
    }
}

/// `pending` after a change of `p` at `now`: its time is replaced, or it is added.
pub open spec fn noted(pending: Seq<(ProviderId, u64)>, p: ProviderId, now: u64) -> Seq<(ProviderId, u64)> {
    if exists|i: int| 0 <= i < pending.len() && (#[trigger] pending[i]).0 == p {
        renewed(pending, p, now)
    } else {
        pending.push((p, now))
    }
}

impl Debounce {
    /// Nothing pending.
    pub fn new() -> (r: Debounce)
        ensures
            r.pending@.len() == 0,
    {
        Debounce { pending: Vec::new() }
    }

    /// A file of `p` changed at `now`.
    pub fn note(&mut self, p: ProviderId, now: u64)
        ensures
            final(self).pending@ == noted(old(self).pending@, p, now),
    {
        let ghost before = self.pending@;
        let mut i: usize = 0;
        while i < self.pending.len()
            invariant
                0 <= i <= self.pending.len(),
                self.pending@ == before,
                before == old(self).pending@,
                forall|j: int| 0 <= j < i ==> (#[trigger] before[j]).0 != p,
            decreases self.pending.len() - i,
        {
            if self.pending[i].0 == p {
                let mut updated: Vec<(ProviderId, u64)> = Vec::new();
                let mut k: usize = 0;
                proof {
                    assert(before.take(0) =~= Seq::<(ProviderId, u64)>::empty());
                }
                while k < self.pending.len()
                    invariant
                        0 <= k <= self.pending.len(),
                        self.pending@ == before,
                        0 <= i < before.len(),
                        before == old(self).pending@,
                        before[i as int].0 == p,
                        updated@ == renewed(before.take(k as int), p, now),
                    decreases self.pending.len() - k,
                {
                    let e = self.pending[k];
                    updated.push(if e.0 == p { (p, now) } else { e });
                    proof {
                        assert(before.take(k + 1).drop_last() == before.take(k as int));
                        assert(before.take(k + 1).last() == before[k as int]);
                    }
                    k = k + 1;
                }
                proof {
                    assert(before.take(before.len() as int) == before);
                    assert(before[i as int].0 == p);
                    assert(updated@ == noted(before, p, now));
                }
                self.pending = updated;
                return;
            }
            i = i + 1;
        }
        self.pending.push((p, now));
    }

    /// The providers due at `now`, which stop being pending.
    pub fn take_due(&mut self, now: u64) -> (r: Vec<ProviderId>)
        ensures
            r@ == due_of(old(self).pending@, now),
            final(self).pending@ == waiting_of(old(self).pending@, now),
    {
        let ghost before = self.pending@;
        let mut ready: Vec<ProviderId> = Vec::new();
        let mut rest: Vec<(ProviderId, u64)> = Vec::new();
        let mut i: usize = 0;
        proof {
            assert(before.take(0) =~= Seq::<(ProviderId, u64)>::empty());
        }
        while i < self.pending.len()
            invariant
                0 <= i <= self.pending.len(),
                self.pending@ == before,
                ready@ == due_of(before.take(i as int), now),
                rest@ == waiting_of(before.take(i as int), now),
            decreases self.pending.len() - i,
        {
            proof {
                assert(before.take(i + 1).drop_last() == before.take(i as int));
                assert(before.take(i + 1).last() == before[i as int]);
            }
            let e = self.pending[i];
            if e.1 <= now && now - e.1 >= QUIET_MS {
                ready.push(e.0);
            } else {
                rest.push(e);
            }
            i = i + 1;
        }
        proof {
            assert(before.take(before.len() as int) == before);
        }
        self.pending = rest;
        ready
    }
}

/// What a tray menu item does.
#[derive(Clone, Copy, Debug, PartialEq, Eq, Structural)]
pub enum MenuAction {
    Quit,
    ToggleWindow,
    ToggleLogin,
    Nothing,
}

/// The action of the menu item with id `id`.
pub fn menu_action(id: &str) -> (r: MenuAction)
    ensures
        r == (if id@ == "quit"@ {
            MenuAction::Quit
        } else if id@ == "toggle"@ {
            MenuAction::ToggleWindow
        } else if id@ == "login"@ {
            MenuAction::ToggleLogin
        } else {
            MenuAction::Nothing
        }),
{
    let c = chars_of(id);
    if chars_eq_str(&c, "quit") {
        MenuAction::Quit
    } else if chars_eq_str(&c, "toggle") {
        MenuAction::ToggleWindow
    } else if chars_eq_str(&c, "login") {
        MenuAction::ToggleLogin
    } else {
        MenuAction::Nothing
    }
}

} // verus!

//! Containers: focus-cycling stacks of windows treated as one tile.
//!
//! A container owns a ring of windows and a stable string identifier
//! generated at creation. Hide and restore sequencing lives here: hiding
//! walks the stack in reverse insertion order, and loading the focused
//! window hides every other member before restoring exactly one.

use vstd::prelude::*;

use crate::ring::Ring;
use crate::window::HidingBehaviour;
use crate::window::OsAction;
use crate::window::Window;
use crate::window::WindowState;
use crate::window::pushed_if_absent;
use crate::window::without_first;

verus! {

/// Milliseconds waited for a native minimize animation to settle before a
/// restore is issued.
pub const MINIMIZE_SETTLE_DELAY: u64 = 200;

/// Relies on nanoid::format with the default URL-safe alphabet: the result
/// is a freshly drawn random identifier of exactly 21 ASCII symbols.
#[verifier::external_body]
fn fresh_container_id() -> (r: String)
    ensures
        r@.len() == 21,
{
    nanoid::format(nanoid::rngs::default, &nanoid::alphabet::SAFE, 21)
}

/// Whether some window in `s` has handle `h`.
pub open spec fn windows_contain(s: Seq<Window>, h: isize) -> bool {
    exists|i: int| 0 <= i < s.len() && s[i].hwnd == h
}

/// `i` is the position of the last window in `s` with handle `h`.
pub open spec fn last_window_occurrence(s: Seq<Window>, h: isize, i: int) -> bool {
    &&& 0 <= i < s.len()
    &&& s[i].hwnd == h
    &&& forall|j: int| i < j < s.len() ==> s[j].hwnd != h
}

/// No two windows in `s` share a handle.
pub open spec fn windows_distinct(s: Seq<Window>) -> bool {
    forall|i: int, j: int| 0 <= i < j < s.len() ==> s[i].hwnd != s[j].hwnd
}

/// No handle occurs in both `a` and `b`.
pub open spec fn windows_disjoint(a: Seq<Window>, b: Seq<Window>) -> bool {
    forall|h: isize| !(#[trigger] windows_contain(a, h) && #[trigger] windows_contain(b, h))
}

/// Membership in a sequence with one window removed implies membership
/// in the original.
pub broadcast proof fn lemma_contain_remove(s: Seq<Window>, i: int, h: isize)
    requires
        0 <= i < s.len(),
    ensures
        #[trigger] windows_contain(s.remove(i), h) ==> windows_contain(s, h),
{
    if windows_contain(s.remove(i), h) {
        let j = choose|j: int| 0 <= j < s.remove(i).len() && s.remove(i)[j].hwnd == h;
        if j < i {
            assert(s[j].hwnd == h);
        } else {
            assert(s[j + 1].hwnd == h);
        }
    }
}

/// Membership after a push is membership before, or the pushed handle.
pub broadcast proof fn lemma_contain_push(s: Seq<Window>, w: Window, h: isize)
    ensures
        #[trigger] windows_contain(s.push(w), h) == (windows_contain(s, h) || w.hwnd == h),
{
    if windows_contain(s, h) {
        let j = choose|j: int| 0 <= j < s.len() && s[j].hwnd == h;
        assert(s.push(w)[j].hwnd == h);
    }
    if w.hwnd == h {
        assert(s.push(w)[s.len() as int].hwnd == h);
    }
    if windows_contain(s.push(w), h) {
        let j = choose|j: int| 0 <= j < s.push(w).len() && s.push(w)[j].hwnd == h;
        if j < s.len() {
            assert(s[j].hwnd == h);
        }
    }
}

/// Membership after an insert is membership before, or the inserted
/// handle.
pub broadcast proof fn lemma_contain_insert(s: Seq<Window>, i: int, w: Window, h: isize)
    requires
        0 <= i <= s.len(),
    ensures
        #[trigger] windows_contain(s.insert(i, w), h) == (windows_contain(s, h) || w.hwnd == h),
{
    let t = s.insert(i, w);
    s.insert_ensures(i, w);
    if windows_contain(s, h) {
        let j = choose|j: int| 0 <= j < s.len() && s[j].hwnd == h;
        if j < i {
            assert(t[j].hwnd == h);
        } else {
            assert(t[j + 1].hwnd == h);
        }
    }
    if w.hwnd == h {
        assert(t[i].hwnd == h);
    }
    if windows_contain(t, h) {
        let j = choose|j: int| 0 <= j < t.len() && t[j].hwnd == h;
        if j < i {
            assert(s[j].hwnd == h);
        } else if j > i {
            assert(s[j - 1].hwnd == h);
        }
    }
}

/// Distinctness survives removing a window.
pub broadcast proof fn lemma_distinct_remove(s: Seq<Window>, i: int)
    requires
        0 <= i < s.len(),
        windows_distinct(s),
    ensures
        #[trigger] windows_distinct(s.remove(i)),
{
    let t = s.remove(i);
    assert forall|a: int, b: int| 0 <= a < b < t.len() implies t[a].hwnd != t[b].hwnd by {
        let sa = if a < i {
            a
        } else {
            a + 1
        };
        let sb = if b < i {
            b
        } else {
            b + 1
        };
        assert(t[a] == s[sa]);
        assert(t[b] == s[sb]);
    }
}

/// Distinctness survives pushing a fresh handle.
pub broadcast proof fn lemma_distinct_push(s: Seq<Window>, w: Window)
    requires
        windows_distinct(s),
        !windows_contain(s, w.hwnd),
    ensures
        #[trigger] windows_distinct(s.push(w)),
{
    let t = s.push(w);
    assert forall|a: int, b: int| 0 <= a < b < t.len() implies t[a].hwnd != t[b].hwnd by {
        if b == s.len() {
            assert(t[a] == s[a]);
            assert(!(exists|j: int| 0 <= j < s.len() && s[j].hwnd == w.hwnd));
        } else {
            assert(t[a] == s[a]);
            assert(t[b] == s[b]);
        }
    }
}

/// A removed window's handle is gone when the sequence was distinct.
pub broadcast proof fn lemma_distinct_remove_gone(s: Seq<Window>, i: int)
    requires
        0 <= i < s.len(),
        windows_distinct(s),
    ensures
        !windows_contain(#[trigger] s.remove(i), s[i].hwnd),
{
    let t = s.remove(i);
    assert forall|j: int| 0 <= j < t.len() implies t[j].hwnd != s[i].hwnd by {
        if j < i {
            assert(t[j] == s[j]);
        } else {
            assert(t[j] == s[j + 1]);
        }
    }
}

/// Disjointness survives removing a window on the left side.
pub broadcast proof fn lemma_disjoint_remove_left(a: Seq<Window>, i: int, b: Seq<Window>)
    requires
        0 <= i < a.len(),
        windows_disjoint(a, b),
    ensures
        #[trigger] windows_disjoint(a.remove(i), b),
{
    assert forall|h: isize| !(#[trigger] windows_contain(a.remove(i), h) && windows_contain(b, h))
        by {
        lemma_contain_remove(a, i, h);
    }
}

/// Disjointness survives pushing a handle absent from the other side.
pub broadcast proof fn lemma_disjoint_push_left(a: Seq<Window>, w: Window, b: Seq<Window>)
    requires
        windows_disjoint(a, b),
        !windows_contain(b, w.hwnd),
    ensures
        #[trigger] windows_disjoint(a.push(w), b),
{
    assert forall|h: isize| !(#[trigger] windows_contain(a.push(w), h) && windows_contain(b, h))
        by {
        lemma_contain_push(a, w, h);
    }
}

/// The handle of the first window at or after `i` whose executable, as
/// recorded in the table, equals `exe`.
pub open spec fn spec_first_hwnd_with_exe(
    ws: Seq<Window>,
    exe: Seq<char>,
    exes: Seq<(isize, String)>,
    i: int,
) -> Option<isize>
    decreases ws.len() - i,
{
    if i < 0 || i >= ws.len() {
        None
    } else if crate::window::spec_exe_for(exes, ws[i].hwnd) == Some(exe) {
        Some(ws[i].hwnd)
    } else {
        spec_first_hwnd_with_exe(ws, exe, exes, i + 1)
    }
}

/// The hidden-handle record after one window is hidden, unless that
/// window is the omitted one.
pub open spec fn spec_hide_step(hidden: Seq<isize>, w: Window, omit: Option<isize>) -> Seq<isize> {
    if omit == Some(w.hwnd) {
        hidden
    } else {
        pushed_if_absent(hidden, w.hwnd)
    }
}

/// The hide requests for a stack, in reverse insertion order, skipping
/// the omitted handle.
pub open spec fn spec_hide_actions(
    windows: Seq<Window>,
    behaviour: HidingBehaviour,
    omit: Option<isize>,
) -> Seq<OsAction>
    decreases windows.len(),
{
    if windows.len() == 0 {
        Seq::empty()
    } else {
        let w = windows.last();
        let head: Seq<OsAction> = if omit == Some(w.hwnd) {
            Seq::empty()
        } else {
            seq![w.spec_hide_action(behaviour)]
        };
        head + spec_hide_actions(windows.drop_last(), behaviour, omit)
    }
}

/// The hidden-handle record after a whole stack is hidden in reverse
/// insertion order.
pub open spec fn spec_hidden_after(
    hidden: Seq<isize>,
    windows: Seq<Window>,
    omit: Option<isize>,
) -> Seq<isize>
    decreases windows.len(),
{
    if windows.len() == 0 {
        hidden
    } else {
        spec_hidden_after(spec_hide_step(hidden, windows.last(), omit), windows.drop_last(), omit)
    }
}

/// The hide requests for every stack member except the one at `k`, in
/// insertion order, starting from index `i`.
pub open spec fn spec_hide_all_but(
    windows: Seq<Window>,
    behaviour: HidingBehaviour,
    k: int,
    i: int,
) -> Seq<OsAction>
    decreases windows.len() - i,
{
    if i < 0 || i >= windows.len() {
        Seq::empty()
    } else if i == k {
        spec_hide_all_but(windows, behaviour, k, i + 1)
    } else {
        seq![windows[i].spec_hide_action(behaviour)] + spec_hide_all_but(
            windows,
            behaviour,
            k,
            i + 1,
        )
    }
}

/// The hidden-handle record after hiding every stack member except the
/// one at `k`, in insertion order, starting from index `i`.
pub open spec fn spec_hidden_all_but(
    hidden: Seq<isize>,
    windows: Seq<Window>,
    k: int,
    i: int,
) -> Seq<isize>
    decreases windows.len() - i,
{
    if i < 0 || i >= windows.len() {
        hidden
    } else if i == k {
        spec_hidden_all_but(hidden, windows, k, i + 1)
    } else {
        spec_hidden_all_but(
            pushed_if_absent(hidden, windows[i].hwnd),
            windows,
            k,
            i + 1,
        )
    }
}

/// Whether `v` holds a window with handle `h`.
pub fn vec_windows_contain(v: &Vec<Window>, h: isize) -> (r: bool)
    ensures
        r == windows_contain(v@, h),
{
    let n = v.len();
    let mut i: usize = 0;
    while i < n
        invariant
            n == v@.len(),
            i <= n,
            forall|j: int| 0 <= j < i ==> v@[j].hwnd != h,
        decreases n - i,
    {
        if v[i].hwnd == h {
            return true;
        }
        i = i + 1;
    }
    false
}

/// The full request sequence of loading the focused member `k` of the
/// stack `ws`: hide every other member in insertion order, optionally
/// wait out the native minimize animation, then restore member `k`.
pub open spec fn spec_load_actions_at(
    ws: Seq<Window>,
    k: int,
    wait_for_minimization: bool,
    behaviour: HidingBehaviour,
) -> Seq<OsAction> {
    let delay: Seq<OsAction> = if behaviour == HidingBehaviour::Minimize
        && wait_for_minimization {
        seq![OsAction::Delay(MINIMIZE_SETTLE_DELAY)]
    } else {
        Seq::empty()
    };
    let restore: Seq<OsAction> = if k < ws.len() {
        seq![ws[k].spec_restore_action(behaviour)]
    } else {
        Seq::empty()
    };
    spec_hide_all_but(ws, behaviour, k, 0) + delay + restore
}

/// The hidden-handle record after loading the focused member `k` of the
/// stack `ws`.
pub open spec fn spec_load_hidden_at(hidden: Seq<isize>, ws: Seq<Window>, k: int) -> Seq<isize> {
    let mid = spec_hidden_all_but(hidden, ws, k, 0);
    if k < ws.len() {
        without_first(mid, ws[k].hwnd)
    } else {
        mid
    }
}

/// The full request sequence of loading a stack's focused window.
pub open spec fn spec_load_actions(c: Container, behaviour: HidingBehaviour) -> Seq<OsAction> {
    spec_load_actions_at(
        c.windows.elements@,
        c.windows.focused as int,
        c.wait_for_minimization,
        behaviour,
    )
}

/// The hidden-handle record after loading a stack's focused window.
pub open spec fn spec_load_hidden(hidden: Seq<isize>, c: Container) -> Seq<isize> {
    spec_load_hidden_at(hidden, c.windows.elements@, c.windows.focused as int)
}

/// An ordered stack of windows with its own focus cursor.
pub struct Container {
    /// A unique identifier generated at creation, stable for the
    /// container's lifetime.
    pub id: String,
    /// The stacked windows and the focus cursor.
    pub windows: Ring<Window>,
    /// Whether hide and restore must wait for the native minimize
    /// animation before restoring.
    pub wait_for_minimization: bool,
    /// The application categories stacked in this container, used for
    /// category stacking.
    pub categories: Vec<String>,
}

impl PartialEq for Container {
    /// Containers are compared by identifier alone.
    fn eq(&self, other: &Self) -> (r: bool) {
        self.id.eq(&other.id)
    }
}

impl vstd::std_specs::cmp::PartialEqSpecImpl for Container {
    open spec fn obeys_eq_spec() -> bool {
        true
    }

    open spec fn eq_spec(&self, other: &Self) -> bool {
        self.id@ == other.id@
    }
}

impl Container {
    /// A new, empty container with a fresh identifier.
    pub fn new(wait_for_minimization: bool) -> (r: Self)
        ensures
            r.windows.elements@ == Seq::<Window>::empty(),
            r.windows.focused == 0,
            r.wait_for_minimization == wait_for_minimization,
            r.categories@ == Seq::<String>::empty(),
            r.id@.len() == 21,
    {
        Container {
            id: fresh_container_id(),
            windows: Ring::new(),
            wait_for_minimization,
            categories: Vec::new(),
        }
    }

    /// The container's identifier.
    pub fn id(&self) -> (r: &String)
        ensures
            r == &self.id,
    {
        &self.id
    }

    /// The stacked windows, in insertion order.
    pub fn windows(&self) -> (r: &Vec<Window>)
        ensures
            r == &self.windows.elements,
    {
        &self.windows.elements
    }

    /// The categories stacked in this container.
    pub fn categories(&self) -> (r: &Vec<String>)
        ensures
            r == &self.categories,
    {
        &self.categories
    }

    /// The index of the focused window.
    pub fn focused_window_idx(&self) -> (r: usize)
        ensures
            r == self.windows.focused,
    {
        self.windows.focused_idx()
    }

    /// The focused window, or `None` when the stack is empty or the cursor
    /// is out of range.
    pub fn focused_window(&self) -> (r: Option<&Window>)
        ensures
            match r {
                Some(w) => self.windows.focused < self.windows.elements@.len() && *w
                    == self.windows.elements@[self.windows.focused as int],
                None => self.windows.focused >= self.windows.elements@.len(),
            },
    {
        self.windows.focused_element()
    }

    /// A mutable borrow of the focused window, or `None` when the stack
    /// is empty or the cursor is out of range.
    pub fn focused_window_mut(&mut self) -> (r: Option<&mut Window>)
        ensures
            match r {
                Some(w) => {
                    &&& old(self).windows.focused < old(self).windows.elements@.len()
                    &&& *w == old(self).windows.elements@[old(self).windows.focused as int]
                    &&& final(self).windows.elements@ == old(self).windows.elements@.update(
                        old(self).windows.focused as int,
                        *final(w),
                    )
                    &&& final(self).windows.focused == old(self).windows.focused
                    &&& *final(self) == (Container { windows: final(self).windows, ..*old(self) })
                },
                None => {
                    &&& old(self).windows.focused >= old(self).windows.elements@.len()
                    &&& *final(self) == *old(self)
                },
            },
    {
        self.windows.focused_element_mut()
    }

    /// Whether the stack holds a window with handle `hwnd`.
    pub fn contains_window(&self, hwnd: isize) -> (r: bool)
        ensures
            r == windows_contain(self.windows.elements@, hwnd),
    {
        let n = self.windows.len();
        let mut i: usize = 0;
        while i < n
            invariant
                n == self.windows.elements@.len(),
                i <= n,
                forall|j: int| 0 <= j < i ==> self.windows.elements@[j].hwnd != hwnd,
            decreases n - i,
        {
            if self.windows.elements[i].hwnd == hwnd {
                return true;
            }
            i = i + 1;
        }
        false
    }

    /// The index of the last window in the stack with handle `hwnd`.
    pub fn idx_for_window(&self, hwnd: isize) -> (r: Option<usize>)
        ensures
            match r {
                Some(i) => last_window_occurrence(self.windows.elements@, hwnd, i as int),
                None => !windows_contain(self.windows.elements@, hwnd),
            },
    {
        let n = self.windows.len();
        let mut idx: Option<usize> = None;
        let mut i: usize = 0;
        while i < n
            invariant
                n == self.windows.elements@.len(),
                i <= n,
                match idx {
                    Some(k) => k < i && self.windows.elements@[k as int].hwnd == hwnd && forall|
                        j: int,
                    | k < j < i ==> self.windows.elements@[j].hwnd != hwnd,
                    None => forall|j: int| 0 <= j < i ==> self.windows.elements@[j].hwnd != hwnd,
                },
            decreases n - i,
        {
            if self.windows.elements[i].hwnd == hwnd {
                idx = Some(i);
            }
            i = i + 1;
        }
        idx
    }

    /// The handle of the first window whose executable, as recorded in
    /// `exes` (a handle-to-executable table supplied by the caller),
    /// equals `exe`, scanning the stack in insertion order.
    pub fn hwnd_from_exe(&self, exe: &str, exes: &Vec<(isize, String)>) -> (r: Option<isize>)
        ensures
            r == spec_first_hwnd_with_exe(self.windows.elements@, exe@, exes@, 0),
    {
        let n = self.windows.len();
        let mut i: usize = 0;
        while i < n
            invariant
                n == self.windows.elements@.len(),
                i <= n,
                spec_first_hwnd_with_exe(self.windows.elements@, exe@, exes@, 0)
                    == spec_first_hwnd_with_exe(self.windows.elements@, exe@, exes@, i as int),
            decreases n - i,
        {
            let h = self.windows.elements[i].hwnd;
            match crate::window::exe_for(exes, h) {
                Some(window_exe) => {
                    if crate::text::str_eq(exe, window_exe.as_str()) {
                        return Some(h);
                    }
                },
                None => {},
            }
            i = i + 1;
        }
        None
    }

        /// Removes the window at `idx`, if any. When the removed index was not
    /// the first, focus falls back to `idx - 1`; removing index zero
    /// leaves the cursor where it was.
    pub fn remove_window_by_idx(&mut self, idx: usize) -> (r: Option<Window>)
        ensures
            final(self).id == old(self).id,
            final(self).wait_for_minimization == old(self).wait_for_minimization,
            final(self).categories == old(self).categories,
            match r {
                Some(w) => {
                    &&& idx < old(self).windows.elements@.len()
                    &&& w == old(self).windows.elements@[idx as int]
                    &&& final(self).windows.elements@ == old(self).windows.elements@.remove(
                        idx as int,
                    )
                },
                None => {
                    &&& idx >= old(self).windows.elements@.len()
                    &&& final(self).windows.elements@ == old(self).windows.elements@
                },
            },
            final(self).windows.focused == if idx != 0 {
                (idx - 1) as usize
            } else {
                old(self).windows.focused
            },
    {
        let window = self.windows.remove(idx);
        if idx != 0 {
            self.windows.focus(idx - 1);
        }
        window
    }

    /// Removes whatever window is currently focused, if any.
    pub fn remove_focused_window(&mut self) -> (r: Option<Window>)
        ensures
            final(self).id == old(self).id,
            final(self).wait_for_minimization == old(self).wait_for_minimization,
            final(self).categories == old(self).categories,
            match r {
                Some(w) => {
                    &&& old(self).windows.focused < old(self).windows.elements@.len()
                    &&& w == old(self).windows.elements@[old(self).windows.focused as int]
                    &&& final(self).windows.elements@ == old(self).windows.elements@.remove(
                        old(self).windows.focused as int,
                    )
                },
                None => {
                    &&& old(self).windows.focused >= old(self).windows.elements@.len()
                    &&& final(self).windows.elements@ == old(self).windows.elements@
                },
            },
            final(self).windows.focused == if old(self).windows.focused != 0 {
                (old(self).windows.focused - 1) as usize
            } else {
                old(self).windows.focused
            },
    {
        let focused_idx = self.focused_window_idx();
        self.remove_window_by_idx(focused_idx)
    }

    /// Appends a window to the stack and focuses it.
    pub fn add_window(&mut self, window: Window)
        ensures
            final(self).id == old(self).id,
            final(self).wait_for_minimization == old(self).wait_for_minimization,
            final(self).categories == old(self).categories,
            final(self).windows.elements@ == old(self).windows.elements@.push(window),
            final(self).windows.focused == old(self).windows.elements@.len(),
    {
        self.windows.push_back(window);
        let last = self.windows.len() - 1;
        self.windows.focus(last);
    }

    /// Records a category as stacked in this container.
    pub fn add_category(&mut self, category: String)
        ensures
            final(self).id == old(self).id,
            final(self).wait_for_minimization == old(self).wait_for_minimization,
            final(self).windows == old(self).windows,
            final(self).categories@ == old(self).categories@.push(category),
    {
        self.categories.push(category);
    }

    /// Hides every window in the stack in reverse insertion order except
    /// an optionally omitted handle, to minimize visible flicker when one
    /// of them is about to become foreground.
    pub fn hide_windows(
        &self,
        state: &mut WindowState,
        behaviour: HidingBehaviour,
        omit: Option<isize>,
    ) -> (r: Vec<OsAction>)
        ensures
            final(state).hidden@ == spec_hidden_after(
                old(state).hidden@,
                self.windows.elements@,
                omit,
            ),
            final(state).maximized@ == old(state).maximized@,
            r@ == spec_hide_actions(self.windows.elements@, behaviour, omit),
    {
        let ws = &self.windows.elements;
        let n = ws.len();
        let ghost full = self.windows.elements@;
        let mut actions: Vec<OsAction> = Vec::new();
        let mut i: usize = n;
        proof {
            assert(full.take(n as int) =~= full);
        }
        while i > 0
            invariant
                n == full.len(),
                i <= n,
                self.windows.elements@ == full,
                ws == &self.windows.elements,
                state.maximized@ == old(state).maximized@,
                actions@ + spec_hide_actions(full.take(i as int), behaviour, omit)
                    =~= spec_hide_actions(full, behaviour, omit),
                spec_hidden_after(state.hidden@, full.take(i as int), omit) == spec_hidden_after(
                    old(state).hidden@,
                    full,
                    omit,
                ),
            decreases i,
        {
            i = i - 1;
            let w = ws[i];
            proof {
                assert(full.take(i + 1).last() == full[i as int]);
                assert(full.take(i + 1).drop_last() =~= full.take(i as int));
            }
            let omitted = match omit {
                Some(o) => o == w.hwnd,
                None => false,
            };
            if !omitted {
                let act = w.hide_window(state, behaviour);
                actions.push(act);
                proof {
                    assert(actions@ + spec_hide_actions(full.take(i as int), behaviour, omit)
                        =~= spec_hide_actions(full, behaviour, omit));
                }
            }
        }
        proof {
            assert(full.take(0) =~= Seq::<Window>::empty());
            assert(actions@ =~= spec_hide_actions(full, behaviour, omit));
        }
        actions
    }

    /// Restores the focused window, if any; the rest of the stack stays
    /// hidden.
    pub fn restore(&self, state: &mut WindowState, behaviour: HidingBehaviour) -> (r: Vec<
        OsAction,
    >)
        ensures
            final(state).maximized@ == old(state).maximized@,
            ({
                let ws = self.windows.elements@;
                let k = self.windows.focused as int;
                if k < ws.len() {
                    &&& r@ == seq![ws[k].spec_restore_action(behaviour)]
                    &&& final(state).hidden@ == without_first(old(state).hidden@, ws[k].hwnd)
                } else {
                    &&& r@ == Seq::<OsAction>::empty()
                    &&& final(state).hidden@ == old(state).hidden@
                }
            }),
    {
        let mut actions: Vec<OsAction> = Vec::new();
        if let Some(window) = self.windows.focused_element() {
            let w = *window;
            let act = w.restore(state, behaviour);
            actions.push(act);
            proof {
                assert(actions@ =~= seq![
                    self.windows.elements@[self.windows.focused as int].spec_restore_action(
                        behaviour,
                    ),
                ]);
            }
        }
        actions
    }

    /// Hides every window except the focused one, optionally waits for the
    /// native minimize animation to settle, then restores the focused
    /// window. The ordering is required because some operating systems
    /// process minimize and restore asynchronously, and a too-fast restore
    /// can race the hide.
    pub fn load_focused_window(&self, state: &mut WindowState, behaviour: HidingBehaviour) -> (r:
        Vec<OsAction>)
        ensures
            final(state).maximized@ == old(state).maximized@,
            r@ == spec_load_actions(*self, behaviour),
            final(state).hidden@ == spec_load_hidden(old(state).hidden@, *self),
    {
        let ws = &self.windows.elements;
        let n = ws.len();
        let ghost full = self.windows.elements@;
        let focused_idx = self.windows.focused_idx();
        let ghost k = self.windows.focused as int;
        let ghost orig_hidden = state.hidden@;
        let mut actions: Vec<OsAction> = Vec::new();
        let mut i: usize = 0;
        while i < n
            invariant
                n == full.len(),
                i <= n,
                self.windows.elements@ == full,
                ws == &self.windows.elements,
                k == focused_idx as int,
                state.maximized@ == old(state).maximized@,
                orig_hidden == old(state).hidden@,
                actions@ + spec_hide_all_but(full, behaviour, k, i as int) =~= spec_hide_all_but(
                    full,
                    behaviour,
                    k,
                    0,
                ),
                spec_hidden_all_but(state.hidden@, full, k, i as int) == spec_hidden_all_but(
                    orig_hidden,
                    full,
                    k,
                    0,
                ),
            decreases n - i,
        {
            if i != focused_idx {
                let w = ws[i];
                let act = w.hide_window(state, behaviour);
                actions.push(act);
                proof {
                    assert(actions@ + spec_hide_all_but(full, behaviour, k, i + 1)
                        =~= spec_hide_all_but(full, behaviour, k, 0));
                }
            }
            i = i + 1;
        }
        if behaviour == HidingBehaviour::Minimize && self.wait_for_minimization {
            actions.push(OsAction::Delay(MINIMIZE_SETTLE_DELAY));
        }
        if let Some(window) = self.windows.focused_element() {
            let w = *window;
            let act = w.restore(state, behaviour);
            actions.push(act);
        }
        proof {
            let delay: Seq<OsAction> = if behaviour == HidingBehaviour::Minimize
                && self.wait_for_minimization {
                seq![OsAction::Delay(MINIMIZE_SETTLE_DELAY)]
            } else {
                Seq::empty()
            };
            let hide_acts = spec_hide_all_but(full, behaviour, k, 0);
            if k < full.len() {
                assert(actions@ =~= hide_acts + delay + seq![
                    full[k].spec_restore_action(behaviour),
                ]);
            } else {
                assert(actions@ =~= hide_acts + delay);
            }
        }
        actions
    }

    /// Sets the focus cursor of the stack.
    pub fn focus_window(&mut self, idx: usize)
        ensures
            final(self).id == old(self).id,
            final(self).wait_for_minimization == old(self).wait_for_minimization,
            final(self).categories == old(self).categories,
            final(self).windows.elements@ == old(self).windows.elements@,
            final(self).windows.focused == idx,
    {
        self.windows.focus(idx);
    }
}

} // verus!

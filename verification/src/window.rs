//! Windows, OS actions, and the process-wide window bookkeeping.
//!
//! A `Window` is a value type wrapping an opaque OS window handle; equality
//! is handle equality. Everything the OS must be asked to do is returned to
//! the caller as an [`OsAction`] value instead of being performed here, and
//! everything the logic must know about the OS (titles, liveness, the
//! foreground window) is taken as an argument.

use vstd::prelude::*;

use crate::rect::Rect;

verus! {

/// How windows are taken off screen when a stack hides them.
#[derive(Debug, Clone, Copy, PartialEq, Eq, Structural)]
pub enum HidingBehaviour {
    /// Remove the window from the screen entirely.
    Hide,
    /// Minimize the window, letting the native animation play.
    Minimize,
    /// Cloak the window, keeping it alive but invisible.
    Cloak,
}

/// One request to the OS window service. Mutating operations return these
/// in the order they must be performed.
#[derive(Debug, Clone, Copy, PartialEq, Eq, Structural)]
pub enum OsAction {
    /// Remove the window from the screen.
    Hide(isize),
    /// Minimize the window; the performer skips windows that are already
    /// minimized and then waits out the native animation.
    Minimize(isize),
    /// Cloak the window.
    Cloak(isize),
    /// Uncloak the window.
    Uncloak(isize),
    /// Restore the window; the performer waits out the native animation
    /// when the window was minimized.
    Restore(isize),
    /// Maximize the window.
    Maximize(isize),
    /// Undo an OS maximization.
    Unmaximize(isize),
    /// Raise the window to the top of the non-topmost band.
    RaiseNoTopmost(isize),
    /// Block for the given number of milliseconds before the next action,
    /// letting a native animation settle.
    Delay(u64),
    /// Move the window to `rect`, adjusted by the invisible border insets,
    /// optionally raising it to the top.
    SetPosition { hwnd: isize, rect: Rect, invisible_borders: Rect, top: bool },
    /// Bring the window to the foreground, optionally warping the cursor
    /// into it.
    Focus { hwnd: isize, mouse_follows_focus: bool },
}

/// A managed OS window. The handle is all that is owned; every attribute
/// is fetched on demand by the caller.
#[derive(Debug, Clone, Copy, PartialEq, Eq, Hash, Structural)]
pub struct Window {
    /// The OS window handle.
    pub hwnd: isize,
}

/// The attributes of a window that classification reads, fetched from the
/// OS by the caller.
#[derive(Debug)]
pub struct WindowInfo {
    /// The window title.
    pub title: String,
    /// The executable name of the owning process.
    pub exe: String,
    /// The window class name.
    pub class: String,
    /// The full path of the owning process image.
    pub path: String,
}

/// The subset of window attributes exported for status queries.
#[derive(Debug)]
pub struct WindowDetails {
    /// The window title.
    pub title: String,
    /// The executable name of the owning process.
    pub exe: String,
    /// The window class name.
    pub class: String,
}

impl Clone for WindowInfo {
    /// An exact copy.
    fn clone(&self) -> (r: Self)
        ensures
            r == *self,
    {
        WindowInfo {
            title: self.title.clone(),
            exe: self.exe.clone(),
            class: self.class.clone(),
            path: self.path.clone(),
        }
    }
}

impl Clone for WindowDetails {
    /// An exact copy.
    fn clone(&self) -> (r: Self)
        ensures
            r == *self,
    {
        WindowDetails { title: self.title.clone(), exe: self.exe.clone(), class: self.class.clone() }
    }
}

/// The details recorded for handle `h` in an attribute table, taking the
/// first entry when a handle occurs twice.
pub open spec fn spec_details_for(table: Seq<(isize, WindowDetails)>, h: isize) -> Option<
    WindowDetails,
>
    decreases table.len(),
{
    if table.len() == 0 {
        None
    } else if table[0].0 == h {
        Some(table[0].1)
    } else {
        spec_details_for(table.drop_first(), h)
    }
}

/// Looks up the details recorded for `h` in `table`.
pub fn details_for<'a>(table: &'a Vec<(isize, WindowDetails)>, h: isize) -> (r: Option<
    &'a WindowDetails,
>)
    ensures
        match r {
            Some(d) => spec_details_for(table@, h) == Some(*d),
            None => spec_details_for(table@, h) is None,
        },
{
    let n = table.len();
    let mut i: usize = 0;
    proof {
        assert(table@.skip(0) =~= table@);
    }
    while i < n
        invariant
            n == table@.len(),
            i <= n,
            spec_details_for(table@, h) == spec_details_for(table@.skip(i as int), h),
        decreases n - i,
    {
        if table[i].0 == h {
            proof {
                assert(table@.skip(i as int)[0] == table@[i as int]);
            }
            return Some(&table[i].1);
        }
        proof {
            assert(table@.skip(i as int)[0] == table@[i as int]);
            assert(table@.skip(i as int).drop_first() =~= table@.skip(i + 1));
        }
        i = i + 1;
    }
    proof {
        assert(table@.skip(n as int).len() == 0);
    }
    None
}

/// Process-wide bookkeeping of which handles this manager has hidden or
/// maximized programmatically, mirroring what was asked of the OS.
pub struct WindowState {
    /// Handles hidden by the manager, in the order they were hidden.
    pub hidden: Vec<isize>,
    /// Handles maximized by the manager, in the order they were maximized.
    pub maximized: Vec<isize>,
}

/// `i` is the position of the first occurrence of `h` in `s`.
pub open spec fn first_occurrence(s: Seq<isize>, h: isize, i: int) -> bool {
    &&& 0 <= i < s.len()
    &&& s[i] == h
    &&& forall|j: int| 0 <= j < i ==> s[j] != h
}

/// `s` with its first occurrence of `h` removed, or `s` itself when `h`
/// does not occur.
pub open spec fn without_first(s: Seq<isize>, h: isize) -> Seq<isize> {
    if s.contains(h) {
        s.remove(choose|i: int| first_occurrence(s, h, i))
    } else {
        s
    }
}

/// Appends `h` unless it is already present.
pub open spec fn pushed_if_absent(s: Seq<isize>, h: isize) -> Seq<isize> {
    if s.contains(h) {
        s
    } else {
        s.push(h)
    }
}

impl WindowState {
    /// Empty bookkeeping: nothing hidden, nothing maximized.
    pub fn new() -> (r: Self)
        ensures
            r.hidden@ == Seq::<isize>::empty(),
            r.maximized@ == Seq::<isize>::empty(),
    {
        WindowState { hidden: Vec::new(), maximized: Vec::new() }
    }
}

/// Whether `v` holds `h`.
pub fn contains_hwnd(v: &Vec<isize>, h: isize) -> (r: bool)
    ensures
        r == v@.contains(h),
{
    let mut i: usize = 0;
    while i < v.len()
        invariant
            i <= v@.len(),
            forall|j: int| 0 <= j < i ==> v@[j] != h,
        decreases v@.len() - i,
    {
        if v[i] == h {
            return true;
        }
        i = i + 1;
    }
    false
}

/// Removes the first occurrence of `h` from `v`, if any.
fn remove_first_hwnd(v: &mut Vec<isize>, h: isize)
    ensures
        final(v)@ == without_first(old(v)@, h),
{
    let mut i: usize = 0;
    while i < v.len()
        invariant
            i <= v@.len(),
            v@ == old(v)@,
            forall|j: int| 0 <= j < i ==> v@[j] != h,
        decreases v@.len() - i,
    {
        if v[i] == h {
            v.remove(i);
            proof {
                assert(first_occurrence(old(v)@, h, i as int));
                assert(old(v)@.contains(h)) by {
                    assert(old(v)@[i as int] == h);
                }
                let k = choose|k: int| first_occurrence(old(v)@, h, k);
                assert(k == i as int);
            }
            return ;
        }
        i = i + 1;
    }
    proof {
        assert(!old(v)@.contains(h));
    }
}

/// The executable recorded for handle `h` in an attribute table, taking
/// the first entry when a handle occurs twice.
pub open spec fn spec_exe_for(table: Seq<(isize, String)>, h: isize) -> Option<Seq<char>>
    decreases table.len(),
{
    if table.len() == 0 {
        None
    } else if table[0].0 == h {
        Some(table[0].1@)
    } else {
        spec_exe_for(table.drop_first(), h)
    }
}

/// Looks up the executable recorded for `h` in `table`.
pub fn exe_for<'a>(table: &'a Vec<(isize, String)>, h: isize) -> (r: Option<&'a String>)
    ensures
        match r {
            Some(s) => spec_exe_for(table@, h) == Some(s@),
            None => spec_exe_for(table@, h) is None,
        },
{
    let n = table.len();
    let mut i: usize = 0;
    proof {
        assert(table@.skip(0) =~= table@);
    }
    while i < n
        invariant
            n == table@.len(),
            i <= n,
            spec_exe_for(table@, h) == spec_exe_for(table@.skip(i as int), h),
        decreases n - i,
    {
        if table[i].0 == h {
            proof {
                assert(table@.skip(i as int)[0] == table@[i as int]);
            }
            return Some(&table[i].1);
        }
        proof {
            assert(table@.skip(i as int)[0] == table@[i as int]);
            assert(table@.skip(i as int).drop_first() =~= table@.skip(i + 1));
        }
        i = i + 1;
    }
    proof {
        assert(table@.skip(n as int).len() == 0);
    }
    None
}

impl Window {
    /// The raw handle.
    pub fn hwnd(self) -> (r: isize)
        ensures
            r == self.hwnd,
    {
        self.hwnd
    }

    /// The action that takes a window off screen under `behaviour`.
    pub open spec fn spec_hide_action(self, behaviour: HidingBehaviour) -> OsAction {
        match behaviour {
            HidingBehaviour::Hide => OsAction::Hide(self.hwnd),
            HidingBehaviour::Minimize => OsAction::Minimize(self.hwnd),
            HidingBehaviour::Cloak => OsAction::Cloak(self.hwnd),
        }
    }

    /// The action that brings a window back under `behaviour`.
    pub open spec fn spec_restore_action(self, behaviour: HidingBehaviour) -> OsAction {
        match behaviour {
            HidingBehaviour::Cloak => OsAction::Uncloak(self.hwnd),
            _ => OsAction::Restore(self.hwnd),
        }
    }

    /// Records the window as hidden and decides how to take it off screen.
    pub fn hide_window(self, state: &mut WindowState, behaviour: HidingBehaviour) -> (r: OsAction)
        ensures
            final(state).hidden@ == pushed_if_absent(old(state).hidden@, self.hwnd),
            final(state).maximized@ == old(state).maximized@,
            r == self.spec_hide_action(behaviour),
    {
        if !contains_hwnd(&state.hidden, self.hwnd) {
            state.hidden.push(self.hwnd);
        }
        match behaviour {
            HidingBehaviour::Hide => OsAction::Hide(self.hwnd),
            HidingBehaviour::Minimize => OsAction::Minimize(self.hwnd),
            HidingBehaviour::Cloak => OsAction::Cloak(self.hwnd),
        }
    }

    /// Forgets that the window was hidden programmatically.
    pub fn remove_from_hidden_hwnds(self, state: &mut WindowState)
        ensures
            final(state).hidden@ == without_first(old(state).hidden@, self.hwnd),
            final(state).maximized@ == old(state).maximized@,
    {
        remove_first_hwnd(&mut state.hidden, self.hwnd);
    }

    /// Forgets that the window was maximized programmatically.
    pub fn remove_from_maximized_hwnds(self, state: &mut WindowState)
        ensures
            final(state).maximized@ == without_first(old(state).maximized@, self.hwnd),
            final(state).hidden@ == old(state).hidden@,
    {
        remove_first_hwnd(&mut state.maximized, self.hwnd);
    }

    /// Clears the hidden record and decides how to bring the window back.
    pub fn restore(self, state: &mut WindowState, behaviour: HidingBehaviour) -> (r: OsAction)
        ensures
            final(state).hidden@ == without_first(old(state).hidden@, self.hwnd),
            final(state).maximized@ == old(state).maximized@,
            r == self.spec_restore_action(behaviour),
    {
        self.remove_from_hidden_hwnds(state);
        match behaviour {
            HidingBehaviour::Cloak => OsAction::Uncloak(self.hwnd),
            _ => OsAction::Restore(self.hwnd),
        }
    }

    /// The minimize request for this window.
    pub fn minimize(self) -> (r: OsAction)
        ensures
            r == OsAction::Minimize(self.hwnd),
    {
        OsAction::Minimize(self.hwnd)
    }

    /// Whether this manager maximized the window itself, as opposed to the
    /// user or the OS doing so.
    pub fn is_programmatically_maximized(self, state: &WindowState) -> (r: bool)
        ensures
            r == state.maximized@.contains(self.hwnd),
    {
        contains_hwnd(&state.maximized, self.hwnd)
    }

    /// Records the window as maximized and emits the maximize requests:
    /// the OS maximization followed by a raise into the non-topmost band.
    pub fn maximize(self, state: &mut WindowState) -> (r: Vec<OsAction>)
        ensures
            final(state).maximized@ == pushed_if_absent(old(state).maximized@, self.hwnd),
            final(state).hidden@ == without_first(old(state).hidden@, self.hwnd),
            r@ == seq![OsAction::Maximize(self.hwnd), OsAction::RaiseNoTopmost(self.hwnd)],
    {
        if !contains_hwnd(&state.maximized, self.hwnd) {
            state.maximized.push(self.hwnd);
        }
        remove_first_hwnd(&mut state.hidden, self.hwnd);
        let mut actions: Vec<OsAction> = Vec::new();
        actions.push(OsAction::Maximize(self.hwnd));
        actions.push(OsAction::RaiseNoTopmost(self.hwnd));
        proof {
            assert(actions@ =~= seq![
                OsAction::Maximize(self.hwnd),
                OsAction::RaiseNoTopmost(self.hwnd),
            ]);
        }
        actions
    }

    /// Clears both records and emits the unmaximize request, followed by a
    /// short wait for the OS to settle.
    pub fn unmaximize(self, state: &mut WindowState) -> (r: Vec<OsAction>)
        ensures
            final(state).maximized@ == without_first(old(state).maximized@, self.hwnd),
            final(state).hidden@ == without_first(old(state).hidden@, self.hwnd),
            r@ == seq![OsAction::Unmaximize(self.hwnd), OsAction::Delay(35)],
    {
        remove_first_hwnd(&mut state.maximized, self.hwnd);
        remove_first_hwnd(&mut state.hidden, self.hwnd);
        let mut actions: Vec<OsAction> = Vec::new();
        actions.push(OsAction::Unmaximize(self.hwnd));
        actions.push(OsAction::Delay(35));
        proof {
            assert(actions@ =~= seq![OsAction::Unmaximize(self.hwnd), OsAction::Delay(35)]);
        }
        actions
    }
}

} // verus!

//! Workspaces: the tiled containers, floating windows, and monocle state
//! of one virtual desktop, plus the layout and resize model.
//!
//! Two invariants hold in every reachable state and are carried by every
//! mutating operation: the resize-override list is index-aligned with the
//! container ring, and a window handle lives in at most one place among
//! the tiled containers, the monocle container, and the floating list.

use vstd::prelude::*;
use vstd::pervasive::VecAdditionalExecFns;

use crate::container::Container;
use crate::container::windows_contain;
use crate::container::windows_distinct;
use crate::container::windows_disjoint;
use crate::container::lemma_contain_remove;
use crate::container::lemma_contain_push;
use crate::container::lemma_contain_insert;
use crate::container::lemma_distinct_remove;
use crate::container::lemma_distinct_push;
use crate::container::lemma_distinct_remove_gone;
use crate::container::lemma_disjoint_remove_left;
use crate::container::lemma_disjoint_push_left;
use crate::container::spec_first_hwnd_with_exe;
use crate::container::last_window_occurrence;
use crate::layout::CycleDirection;
use crate::layout::DefaultLayout;
use crate::layout::Layout;
use crate::layout::Axis;
use crate::rect::Rect;
use crate::ring::Ring;
use crate::window::HidingBehaviour;
use crate::window::OsAction;
use crate::window::Window;
use crate::window::WindowState;
use crate::window::without_first;
use crate::window::pushed_if_absent;
use crate::WmError;
use crate::DEFAULT_CONTAINER_PADDING;
use crate::DEFAULT_WORKSPACE_PADDING;

verus! {

/// No handle occurs in two different containers of `cs`.
pub open spec fn containers_disjoint(cs: Seq<Container>) -> bool {
    forall|k1: int, k2: int|
        0 <= k1 < k2 < cs.len() ==> windows_disjoint(
            #[trigger] cs[k1].windows.elements@,
            #[trigger] cs[k2].windows.elements@,
        )
}

/// Whether some container in `cs` holds a window with handle `h`.
pub open spec fn cs_contain(cs: Seq<Container>, h: isize) -> bool {
    exists|k: int|
        0 <= k < cs.len() && windows_contain(#[trigger] cs[k].windows.elements@, h)
}

/// Every container in `cs` has pairwise-distinct handles.
pub open spec fn cs_distinct(cs: Seq<Container>) -> bool {
    forall|k: int| 0 <= k < cs.len() ==> windows_distinct(#[trigger] cs[k].windows.elements@)
}

/// No container in `cs` shares a handle with `b`.
pub open spec fn cs_disjoint_from(cs: Seq<Container>, b: Seq<Window>) -> bool {
    forall|k: int|
        0 <= k < cs.len() ==> windows_disjoint(#[trigger] cs[k].windows.elements@, b)
}

/// The workspace of one virtual desktop.
pub struct Workspace {
    /// The workspace's display name, if any.
    pub name: Option<String>,
    /// The tiled containers and the container focus cursor.
    pub containers: Ring<Container>,
    /// The container temporarily shown exclusively full-area, if any.
    pub monocle_container: Option<Container>,
    /// Where the monocle container is reinserted on reintegration.
    pub monocle_container_restore_idx: Option<usize>,
    /// The resize override the monocle container carried when it left the
    /// tiled set, restored with it so it returns to its prior size.
    pub monocle_resize_dimension: Option<Rect>,
    /// Windows floating above the tiled layout.
    pub floating_windows: Vec<Window>,
    /// The selected layout.
    pub layout: Layout,
    /// Thresholds mapping a container count to a layout selection.
    pub layout_rules: Vec<(usize, Layout)>,
    /// An axis flip applied on top of the selected layout, if any.
    pub layout_flip: Option<Axis>,
    /// Padding between the work area edge and the tiled region.
    pub workspace_padding: Option<i32>,
    /// Padding between neighbouring containers.
    pub container_padding: Option<i32>,
    /// The rectangles of the last layout pass, index-aligned with the
    /// containers, used for point-to-container hit testing.
    pub latest_layout: Vec<Rect>,
    /// Per-container resize overrides, index-aligned with the containers.
    pub resize_dimensions: Vec<Option<Rect>>,
    /// Whether tiling is enabled; false means windows keep their ad hoc
    /// positions.
    pub tile: bool,
}

impl Workspace {
    /// Whether a handle lives in some tiled container.
    pub open spec fn tiled_contains(self, h: isize) -> bool {
        cs_contain(self.containers.elements@, h)
    }

    /// Whether a handle lives in the monocle container.
    pub open spec fn monocle_contains(self, h: isize) -> bool {
        match self.monocle_container {
            Some(c) => windows_contain(c.windows.elements@, h),
            None => false,
        }
    }

    /// Whether a handle lives in the floating list.
    pub open spec fn floating_contains(self, h: isize) -> bool {
        windows_contain(self.floating_windows@, h)
    }

    /// Whether a handle lives anywhere in the workspace.
    pub open spec fn spec_contains(self, h: isize) -> bool {
        self.tiled_contains(h) || self.monocle_contains(h) || self.floating_contains(h)
    }

    /// The two reachable-state invariants: the resize-override list is
    /// index-aligned with the containers, and every handle lives in at
    /// most one place. The monocle container and its restore index are
    /// recorded together or not at all.
    pub open spec fn inv(self) -> bool {
        let cs = self.containers.elements@;
        &&& self.resize_dimensions@.len() == cs.len()
        &&& (self.monocle_container is Some <==> self.monocle_container_restore_idx is Some)
        &&& cs_distinct(cs)
        &&& containers_disjoint(cs)
        &&& windows_distinct(self.floating_windows@)
        &&& cs_disjoint_from(cs, self.floating_windows@)
        &&& match self.monocle_container {
            Some(m) => {
                &&& windows_distinct(m.windows.elements@)
                &&& windows_disjoint(m.windows.elements@, self.floating_windows@)
                &&& cs_disjoint_from(cs, m.windows.elements@)
            },
            None => true,
        }
    }

    /// An empty, tiling workspace with the default space-partitioning
    /// layout and the default paddings.
    pub fn new() -> (r: Self)
        ensures
            r.name is None,
            r.containers.elements@ == Seq::<Container>::empty(),
            r.containers.focused == 0,
            r.monocle_container is None,
            r.monocle_container_restore_idx is None,
            r.monocle_resize_dimension is None,
            r.floating_windows@ == Seq::<Window>::empty(),
            r.layout == Layout::Default(DefaultLayout::BSP),
            r.layout_rules@ == Seq::<(usize, Layout)>::empty(),
            r.layout_flip is None,
            r.workspace_padding == Some(DEFAULT_WORKSPACE_PADDING),
            r.container_padding == Some(DEFAULT_CONTAINER_PADDING),
            r.latest_layout@ == Seq::<Rect>::empty(),
            r.resize_dimensions@ == Seq::<Option<Rect>>::empty(),
            r.tile,
            r.inv(),
    {
        Workspace {
            name: None,
            containers: Ring::new(),
            monocle_container: None,
            monocle_container_restore_idx: None,
            monocle_resize_dimension: None,
            floating_windows: Vec::new(),
            layout: Layout::Default(DefaultLayout::BSP),
            layout_rules: Vec::new(),
            layout_flip: None,
            workspace_padding: Some(DEFAULT_WORKSPACE_PADDING),
            container_padding: Some(DEFAULT_CONTAINER_PADDING),
            latest_layout: Vec::new(),
            resize_dimensions: Vec::new(),
            tile: true,
        }
    }
}

impl Default for Workspace {
    /// Same as [`Workspace::new`].
    fn default() -> (r: Self)
        ensures
            r.containers.elements@ == Seq::<Container>::empty(),
            r.monocle_container is None,
            r.floating_windows@ == Seq::<Window>::empty(),
            r.layout == Layout::Default(DefaultLayout::BSP),
            r.resize_dimensions@ == Seq::<Option<Rect>>::empty(),
            r.tile,
            r.inv(),
    {
        Workspace::new()
    }
}

impl Workspace {
    /// The tiled containers, in ring order.
    pub fn containers(&self) -> (r: &Vec<Container>)
        ensures
            r == &self.containers.elements,
    {
        &self.containers.elements
    }

    /// The index of the focused container.
    pub fn focused_container_idx(&self) -> (r: usize)
        ensures
            r == self.containers.focused,
    {
        self.containers.focused_idx()
    }

    /// The focused container, or `None` when the ring is empty or the
    /// cursor is out of range.
    pub fn focused_container(&self) -> (r: Option<&Container>)
        ensures
            match r {
                Some(c) => self.containers.focused < self.containers.elements@.len() && *c
                    == self.containers.elements@[self.containers.focused as int],
                None => self.containers.focused >= self.containers.elements@.len(),
            },
    {
        self.containers.focused_element()
    }

    /// A mutable borrow of the focused container, or `None` when the
    /// ring is empty or the cursor is out of range.
    pub fn focused_container_mut(&mut self) -> (r: Option<&mut Container>)
        ensures
            match r {
                Some(c) => {
                    &&& old(self).containers.focused < old(self).containers.elements@.len()
                    &&& *c == old(self).containers.elements@[old(self).containers.focused as int]
                    &&& final(self).containers.elements@ == old(self).containers.elements@.update(
                        old(self).containers.focused as int,
                        *final(c),
                    )
                    &&& final(self).containers.focused == old(self).containers.focused
                    &&& *final(self) == (Workspace {
                        containers: final(self).containers,
                        ..*old(self)
                    })
                },
                None => {
                    &&& old(self).containers.focused >= old(self).containers.elements@.len()
                    &&& *final(self) == *old(self)
                },
            },
    {
        self.containers.focused_element_mut()
    }

    /// The workspace's display name, if any.
    pub fn name(&self) -> (r: &Option<String>)
        ensures
            r == &self.name,
    {
        &self.name
    }

    /// Sets the workspace's display name.
    pub fn set_name(&mut self, name: Option<String>)
        ensures
            *final(self) == (Workspace { name, ..*old(self) }),
    {
        self.name = name;
    }

    /// The monocle container, if any.
    pub fn monocle_container(&self) -> (r: &Option<Container>)
        ensures
            r == &self.monocle_container,
    {
        &self.monocle_container
    }

    /// Where the monocle container is reinserted on reintegration.
    pub fn monocle_container_restore_idx(&self) -> (r: Option<usize>)
        ensures
            r == self.monocle_container_restore_idx,
    {
        self.monocle_container_restore_idx
    }

    /// Windows floating above the tiled layout.
    pub fn floating_windows(&self) -> (r: &Vec<Window>)
        ensures
            r == &self.floating_windows,
    {
        &self.floating_windows
    }

    /// The selected layout.
    pub fn layout(&self) -> (r: &Layout)
        ensures
            r == &self.layout,
    {
        &self.layout
    }

    /// Selects a layout.
    pub fn set_layout(&mut self, layout: Layout)
        ensures
            *final(self) == (Workspace { layout, ..*old(self) }),
    {
        self.layout = layout;
    }

    /// Thresholds mapping a container count to a layout selection.
    pub fn layout_rules(&self) -> (r: &Vec<(usize, Layout)>)
        ensures
            r == &self.layout_rules,
    {
        &self.layout_rules
    }

    /// Replaces the layout rules.
    pub fn set_layout_rules(&mut self, rules: Vec<(usize, Layout)>)
        ensures
            *final(self) == (Workspace { layout_rules: rules, ..*old(self) }),
    {
        self.layout_rules = rules;
    }

    /// The axis flip applied on top of the selected layout, if any.
    pub fn layout_flip(&self) -> (r: Option<Axis>)
        ensures
            r == self.layout_flip,
    {
        self.layout_flip
    }

    /// Sets or clears the axis flip.
    pub fn set_layout_flip(&mut self, flip: Option<Axis>)
        ensures
            *final(self) == (Workspace { layout_flip: flip, ..*old(self) }),
    {
        self.layout_flip = flip;
    }

    /// Padding between the work area edge and the tiled region.
    pub fn workspace_padding(&self) -> (r: Option<i32>)
        ensures
            r == self.workspace_padding,
    {
        self.workspace_padding
    }

    /// Sets the workspace padding.
    pub fn set_workspace_padding(&mut self, padding: Option<i32>)
        ensures
            *final(self) == (Workspace { workspace_padding: padding, ..*old(self) }),
    {
        self.workspace_padding = padding;
    }

    /// Padding between neighbouring containers.
    pub fn container_padding(&self) -> (r: Option<i32>)
        ensures
            r == self.container_padding,
    {
        self.container_padding
    }

    /// Sets the container padding.
    pub fn set_container_padding(&mut self, padding: Option<i32>)
        ensures
            *final(self) == (Workspace { container_padding: padding, ..*old(self) }),
    {
        self.container_padding = padding;
    }

    /// The rectangles of the last layout pass.
    pub fn latest_layout(&self) -> (r: &Vec<Rect>)
        ensures
            r == &self.latest_layout,
    {
        &self.latest_layout
    }

    /// Per-container resize overrides.
    pub fn resize_dimensions(&self) -> (r: &Vec<Option<Rect>>)
        ensures
            r == &self.resize_dimensions,
    {
        &self.resize_dimensions
    }

    /// Whether tiling is enabled.
    pub fn tile(&self) -> (r: bool)
        ensures
            r == self.tile,
    {
        self.tile
    }

    /// Enables or disables tiling.
    pub fn set_tile(&mut self, tile: bool)
        ensures
            *final(self) == (Workspace { tile, ..*old(self) }),
    {
        self.tile = tile;
    }
}

broadcast use lemma_contain_remove, lemma_contain_push, lemma_contain_insert, lemma_distinct_remove, lemma_distinct_push, lemma_distinct_remove_gone, lemma_disjoint_remove_left, lemma_disjoint_push_left;

/// Removing a container keeps distinctness, pairwise disjointness, any
/// disjointness from another window list, and introduces no handles.
proof fn lemma_cs_remove(cs: Seq<Container>, i: int)
    requires
        0 <= i < cs.len(),
        cs_distinct(cs),
        containers_disjoint(cs),
    ensures
        cs_distinct(cs.remove(i)),
        containers_disjoint(cs.remove(i)),
        forall|h: isize| #[trigger] cs_contain(cs.remove(i), h) ==> cs_contain(cs, h),
        forall|b: Seq<Window>|
            cs_disjoint_from(cs, b) ==> #[trigger] cs_disjoint_from(cs.remove(i), b),
{
    let t = cs.remove(i);
    assert forall|k: int| 0 <= k < t.len() implies windows_distinct(#[trigger] t[k].windows.elements@)
        by {
        let sk = if k < i {
            k
        } else {
            k + 1
        };
        assert(t[k] == cs[sk]);
    }
    assert forall|k1: int, k2: int| 0 <= k1 < k2 < t.len() implies windows_disjoint(
        #[trigger] t[k1].windows.elements@,
        #[trigger] t[k2].windows.elements@,
    ) by {
        let s1 = if k1 < i {
            k1
        } else {
            k1 + 1
        };
        let s2 = if k2 < i {
            k2
        } else {
            k2 + 1
        };
        assert(t[k1] == cs[s1]);
        assert(t[k2] == cs[s2]);
    }
    assert forall|h: isize| #[trigger] cs_contain(t, h) implies cs_contain(cs, h) by {
        let k = choose|k: int| 0 <= k < t.len() && windows_contain(t[k].windows.elements@, h);
        let sk = if k < i {
            k
        } else {
            k + 1
        };
        assert(t[k] == cs[sk]);
        assert(windows_contain(cs[sk].windows.elements@, h));
    }
    assert forall|b: Seq<Window>| cs_disjoint_from(cs, b) implies #[trigger] cs_disjoint_from(
        t,
        b,
    ) by {
        assert forall|k: int| 0 <= k < t.len() implies windows_disjoint(
            #[trigger] t[k].windows.elements@,
            b,
        ) by {
            let sk = if k < i {
                k
            } else {
                k + 1
            };
            assert(t[k] == cs[sk]);
        }
    }
}

/// Inserting a container whose handles are fresh keeps distinctness and
/// disjointness; membership afterwards is membership before or in the
/// inserted container.
proof fn lemma_cs_insert(cs: Seq<Container>, i: int, c: Container)
    requires
        0 <= i <= cs.len(),
        cs_distinct(cs),
        containers_disjoint(cs),
        windows_distinct(c.windows.elements@),
        forall|h: isize| #[trigger] windows_contain(c.windows.elements@, h) ==> !cs_contain(cs, h),
    ensures
        cs_distinct(cs.insert(i, c)),
        containers_disjoint(cs.insert(i, c)),
        forall|h: isize|
            #[trigger] cs_contain(cs.insert(i, c), h) == (cs_contain(cs, h) || windows_contain(
                c.windows.elements@,
                h,
            )),
        forall|b: Seq<Window>|
            cs_disjoint_from(cs, b) && windows_disjoint(c.windows.elements@, b)
                ==> #[trigger] cs_disjoint_from(cs.insert(i, c), b),
{
    let t = cs.insert(i, c);
    cs.insert_ensures(i, c);
    assert forall|k: int| 0 <= k < t.len() implies windows_distinct(#[trigger] t[k].windows.elements@)
        by {
        if k < i {
            assert(t[k] == cs[k]);
        } else if k == i {
            assert(t[k] == c);
        } else {
            assert(t[k] == cs[k - 1]);
        }
    }
    assert forall|k1: int, k2: int| 0 <= k1 < k2 < t.len() implies windows_disjoint(
        #[trigger] t[k1].windows.elements@,
        #[trigger] t[k2].windows.elements@,
    ) by {
        if k1 == i || k2 == i {
            let other = if k1 == i {
                k2
            } else {
                k1
            };
            let so = if other < i {
                other
            } else {
                other - 1
            };
            assert(t[other] == cs[so]);
            assert forall|h: isize| !(#[trigger] windows_contain(t[k1].windows.elements@, h)
                && #[trigger] windows_contain(t[k2].windows.elements@, h)) by {
                if windows_contain(c.windows.elements@, h) {
                    assert(!cs_contain(cs, h));
                    assert(!windows_contain(cs[so].windows.elements@, h));
                }
            }
        } else {
            let s1 = if k1 < i {
                k1
            } else {
                k1 - 1
            };
            let s2 = if k2 < i {
                k2
            } else {
                k2 - 1
            };
            assert(t[k1] == cs[s1]);
            assert(t[k2] == cs[s2]);
        }
    }
    assert forall|h: isize| #[trigger] cs_contain(t, h) == (cs_contain(cs, h) || windows_contain(
        c.windows.elements@,
        h,
    )) by {
        if cs_contain(t, h) {
            let k = choose|k: int| 0 <= k < t.len() && windows_contain(t[k].windows.elements@, h);
            if k < i {
                assert(t[k] == cs[k]);
                assert(windows_contain(cs[k].windows.elements@, h));
            } else if k == i {
                assert(t[k] == c);
            } else {
                assert(t[k] == cs[k - 1]);
                assert(windows_contain(cs[k - 1].windows.elements@, h));
            }
        }
        if cs_contain(cs, h) {
            let k = choose|k: int| 0 <= k < cs.len() && windows_contain(cs[k].windows.elements@, h);
            let tk = if k < i {
                k
            } else {
                k + 1
            };
            assert(t[tk] == cs[k]);
            assert(windows_contain(t[tk].windows.elements@, h));
        }
        if windows_contain(c.windows.elements@, h) {
            assert(t[i] == c);
            assert(windows_contain(t[i].windows.elements@, h));
        }
    }
    assert forall|b: Seq<Window>|
        cs_disjoint_from(cs, b) && windows_disjoint(c.windows.elements@, b) implies #[trigger] cs_disjoint_from(
        t,
        b,
    ) by {
        assert forall|k: int| 0 <= k < t.len() implies windows_disjoint(
            #[trigger] t[k].windows.elements@,
            b,
        ) by {
            if k < i {
                assert(t[k] == cs[k]);
            } else if k == i {
                assert(t[k] == c);
            } else {
                assert(t[k] == cs[k - 1]);
            }
        }
    }
}

/// Replacing the container at `i` by one whose handles are a subset of
/// the old one's, possibly extended by one globally fresh handle, keeps
/// distinctness and disjointness.
proof fn lemma_cs_update(cs: Seq<Container>, i: int, c: Container, fresh: Option<isize>)
    requires
        0 <= i < cs.len(),
        cs_distinct(cs),
        containers_disjoint(cs),
        windows_distinct(c.windows.elements@),
        forall|h: isize|
            #[trigger] windows_contain(c.windows.elements@, h) ==> windows_contain(
                cs[i].windows.elements@,
                h,
            ) || fresh == Some(h),
        match fresh {
            Some(f) => !cs_contain(cs, f),
            None => true,
        },
    ensures
        cs_distinct(cs.update(i, c)),
        containers_disjoint(cs.update(i, c)),
        forall|h: isize|
            #[trigger] cs_contain(cs.update(i, c), h) ==> cs_contain(cs, h) || fresh == Some(h),
        forall|b: Seq<Window>|
            cs_disjoint_from(cs, b) && (match fresh {
                Some(f) => !windows_contain(b, f),
                None => true,
            }) ==> #[trigger] cs_disjoint_from(cs.update(i, c), b),
{
    let t = cs.update(i, c);
    assert forall|k: int| 0 <= k < t.len() implies windows_distinct(#[trigger] t[k].windows.elements@)
        by {
        if k != i {
            assert(t[k] == cs[k]);
        }
    }
    assert forall|k1: int, k2: int| 0 <= k1 < k2 < t.len() implies windows_disjoint(
        #[trigger] t[k1].windows.elements@,
        #[trigger] t[k2].windows.elements@,
    ) by {
        if k1 == i || k2 == i {
            let other = if k1 == i {
                k2
            } else {
                k1
            };
            assert(t[other] == cs[other]);
            assert forall|h: isize| !(#[trigger] windows_contain(t[k1].windows.elements@, h)
                && #[trigger] windows_contain(t[k2].windows.elements@, h)) by {
                if windows_contain(c.windows.elements@, h) {
                    if fresh == Some(h) {
                        assert(!cs_contain(cs, h));
                        assert(!windows_contain(cs[other].windows.elements@, h));
                    } else {
                        assert(windows_contain(cs[i].windows.elements@, h));
                    }
                }
            }
        } else {
            assert(t[k1] == cs[k1]);
            assert(t[k2] == cs[k2]);
        }
    }
    assert forall|h: isize| #[trigger] cs_contain(t, h) implies cs_contain(cs, h) || fresh == Some(
        h,
    ) by {
        let k = choose|k: int| 0 <= k < t.len() && windows_contain(t[k].windows.elements@, h);
        if k != i {
            assert(t[k] == cs[k]);
            assert(windows_contain(cs[k].windows.elements@, h));
        } else {
            if fresh != Some(h) {
                assert(windows_contain(cs[i].windows.elements@, h));
            }
        }
    }
    assert forall|b: Seq<Window>|
        cs_disjoint_from(cs, b) && (match fresh {
            Some(f) => !windows_contain(b, f),
            None => true,
        }) implies #[trigger] cs_disjoint_from(t, b) by {
        assert forall|k: int| 0 <= k < t.len() implies windows_disjoint(
            #[trigger] t[k].windows.elements@,
            b,
        ) by {
            if k != i {
                assert(t[k] == cs[k]);
            } else {
                assert forall|h: isize| !(#[trigger] windows_contain(t[i].windows.elements@, h)
                    && #[trigger] windows_contain(b, h)) by {
                    if windows_contain(c.windows.elements@, h) && windows_contain(b, h) {
                        if fresh == Some(h) {
                        } else {
                            assert(windows_contain(cs[i].windows.elements@, h));
                        }
                    }
                }
            }
        }
    }
}

/// `k` is the position of the last container in `cs` holding a window
/// with handle `h`.
pub open spec fn last_container_occurrence(cs: Seq<Container>, h: isize, k: int) -> bool {
    &&& 0 <= k < cs.len()
    &&& windows_contain(cs[k].windows.elements@, h)
    &&& forall|j: int| k < j < cs.len() ==> !windows_contain(#[trigger] cs[j].windows.elements@, h)
}

impl Workspace {
    /// The index of the last tiled container holding `hwnd`, or `None`
    /// when no tiled container holds it.
    fn container_idx_for_window(&self, hwnd: isize) -> (r: Option<usize>)
        ensures
            match r {
                Some(k) => last_container_occurrence(self.containers.elements@, hwnd, k as int),
                None => !self.tiled_contains(hwnd),
            },
    {
        let cs = &self.containers.elements;
        let n = cs.len();
        let mut idx: Option<usize> = None;
        let mut i: usize = 0;
        while i < n
            invariant
                n == cs@.len(),
                i <= n,
                cs == &self.containers.elements,
                match idx {
                    Some(k) => k < i && windows_contain(cs@[k as int].windows.elements@, hwnd)
                        && forall|j: int|
                        k < j < i ==> !windows_contain(#[trigger] cs@[j].windows.elements@, hwnd),
                    None => forall|j: int|
                        0 <= j < i ==> !windows_contain(#[trigger] cs@[j].windows.elements@, hwnd),
                },
            decreases n - i,
        {
            if cs[i].contains_window(hwnd) {
                idx = Some(i);
            }
            i = i + 1;
        }
        idx
    }

    /// The last tiled container holding `hwnd`, if any.
    pub fn container_for_window(&self, hwnd: isize) -> (r: Option<&Container>)
        ensures
            match r {
                Some(c) => exists|k: int|
                    last_container_occurrence(self.containers.elements@, hwnd, k) && *c
                        == self.containers.elements@[k],
                None => !self.tiled_contains(hwnd),
            },
    {
        match self.container_idx_for_window(hwnd) {
            Some(idx) => self.containers.get(idx),
            None => None,
        }
    }

    /// Whether a tiled container or the monocle container holds `hwnd`.
    /// Floating windows are not managed.
    pub fn contains_managed_window(&self, hwnd: isize) -> (r: bool)
        ensures
            r == (self.tiled_contains(hwnd) || self.monocle_contains(hwnd)),
    {
        if self.container_idx_for_window(hwnd).is_some() {
            return true;
        }
        if let Some(monocle) = &self.monocle_container {
            if monocle.contains_window(hwnd) {
                return true;
            }
        }
        false
    }

    /// Whether the window holding the foreground lives in the monocle
    /// container. The OS-maximized half of the original question is
    /// answered by the caller's own query; the core decides only the
    /// monocle membership.
    pub fn is_focused_window_monocle_or_maximized(&self, foreground: isize) -> (r: bool)
        ensures
            r == self.monocle_contains(foreground),
    {
        if let Some(monocle) = &self.monocle_container {
            monocle.contains_window(foreground)
        } else {
            false
        }
    }

    /// Whether the workspace holds `hwnd` anywhere: tiled, monocle, or
    /// floating.
    pub fn contains_window(&self, hwnd: isize) -> (r: bool)
        ensures
            r == self.spec_contains(hwnd),
    {
        if self.container_idx_for_window(hwnd).is_some() {
            return true;
        }
        if let Some(monocle) = &self.monocle_container {
            if monocle.contains_window(hwnd) {
                return true;
            }
        }
        crate::container::vec_windows_contain(&self.floating_windows, hwnd)
    }

    /// The index of the last container whose last computed rectangle
    /// contains `point`; used to find the stack under the cursor.
    pub fn container_idx_from_current_point(&self, point: (i32, i32)) -> (r: Option<usize>)
        requires
            forall|i: int|
                0 <= i < self.latest_layout@.len() ==> (#[trigger] self.latest_layout@[i]).bounded_by(
                    crate::rect::RECT_COORD_LIMIT as int,
                ),
        ensures
            match r {
                Some(k) => {
                    &&& k < self.containers.elements@.len()
                    &&& (k as int) < self.latest_layout@.len()
                    &&& self.latest_layout@[k as int].spec_contains_point(point)
                    &&& forall|j: int|
                        k < j < self.containers.elements@.len() && j < self.latest_layout@.len()
                            ==> !(#[trigger] self.latest_layout@[j]).spec_contains_point(point)
                },
                None => forall|j: int|
                    0 <= j < self.containers.elements@.len() && j < self.latest_layout@.len()
                        ==> !(#[trigger] self.latest_layout@[j]).spec_contains_point(point),
            },
    {
        let n = self.containers.elements.len();
        let mut idx: Option<usize> = None;
        let mut i: usize = 0;
        while i < n
            invariant
                n == self.containers.elements@.len(),
                i <= n,
                forall|j: int|
                    0 <= j < self.latest_layout@.len() ==> (
                    #[trigger] self.latest_layout@[j]).bounded_by(
                        crate::rect::RECT_COORD_LIMIT as int,
                    ),
                match idx {
                    Some(k) => {
                        &&& k < i
                        &&& (k as int) < self.latest_layout@.len()
                        &&& self.latest_layout@[k as int].spec_contains_point(point)
                        &&& forall|j: int|
                            k < j < i && j < self.latest_layout@.len() ==> !(
                            #[trigger] self.latest_layout@[j]).spec_contains_point(point)
                    },
                    None => forall|j: int|
                        0 <= j < i && j < self.latest_layout@.len() ==> !(
                        #[trigger] self.latest_layout@[j]).spec_contains_point(point),
                },
            decreases n - i,
        {
            if i < self.latest_layout.len() {
                let rect = self.latest_layout[i];
                if rect.contains_point(point) {
                    idx = Some(i);
                }
            }
            i = i + 1;
        }
        idx
    }

    /// The handle of the first managed or floating window whose
    /// executable, as recorded in `exes`, equals `exe`: tiled containers
    /// in ring order first (each scanned in insertion order), then the
    /// monocle container, then the floating windows.
    pub fn hwnd_from_exe(&self, exe: &str, exes: &Vec<(isize, String)>) -> (r: Option<isize>)
        ensures
            r == spec_workspace_hwnd_from_exe(*self, exe@, exes@),
    {
        let cs = &self.containers.elements;
        let n = cs.len();
        let mut i: usize = 0;
        while i < n
            invariant
                n == cs@.len(),
                cs == &self.containers.elements,
                i <= n,
                spec_first_hwnd_with_exe_cs(cs@, exe@, exes@, 0) == spec_first_hwnd_with_exe_cs(
                    cs@,
                    exe@,
                    exes@,
                    i as int,
                ),
            decreases n - i,
        {
            if let Some(hwnd) = cs[i].hwnd_from_exe(exe, exes) {
                return Some(hwnd);
            }
            i = i + 1;
        }
        if let Some(monocle) = &self.monocle_container {
            if let Some(hwnd) = monocle.hwnd_from_exe(exe, exes) {
                return Some(hwnd);
            }
        }
        let m = self.floating_windows.len();
        let mut j: usize = 0;
        while j < m
            invariant
                m == self.floating_windows@.len(),
                j <= m,
                spec_first_hwnd_with_exe_cs(self.containers.elements@, exe@, exes@, 0) is None,
                match self.monocle_container {
                    Some(mc) => spec_first_hwnd_with_exe(
                        mc.windows.elements@,
                        exe@,
                        exes@,
                        0,
                    ) is None,
                    None => true,
                },
                spec_first_hwnd_with_exe(self.floating_windows@, exe@, exes@, 0)
                    == spec_first_hwnd_with_exe(self.floating_windows@, exe@, exes@, j as int),
            decreases m - j,
        {
            let h = self.floating_windows[j].hwnd;
            match crate::window::exe_for(exes, h) {
                Some(window_exe) => {
                    if crate::text::str_eq(exe, window_exe.as_str()) {
                        return Some(h);
                    }
                },
                None => {},
            }
            j = j + 1;
        }
        None
    }

        /// The focused windows of the tiled containers, in ring order; an
    /// entry is `None` where a container's cursor is out of range.
    pub fn visible_windows(&self) -> (r: Vec<Option<Window>>)
        ensures
            r@.len() == self.containers.elements@.len(),
            forall|k: int|
                0 <= k < r@.len() ==> r@[k] == {
                    let c = #[trigger] self.containers.elements@[k];
                    if c.windows.focused < c.windows.elements@.len() {
                        Some(c.windows.elements@[c.windows.focused as int])
                    } else {
                        None
                    }
                },
    {
        let cs = &self.containers.elements;
        let n = cs.len();
        let mut result: Vec<Option<Window>> = Vec::new();
        let mut i: usize = 0;
        while i < n
            invariant
                n == cs@.len(),
                cs == &self.containers.elements,
                i <= n,
                result@.len() == i,
                forall|k: int|
                    0 <= k < i ==> result@[k] == {
                        let c = #[trigger] cs@[k];
                        if c.windows.focused < c.windows.elements@.len() {
                            Some(c.windows.elements@[c.windows.focused as int])
                        } else {
                            None
                        }
                    },
            decreases n - i,
        {
            match cs[i].focused_window() {
                Some(w) => result.push(Some(*w)),
                None => result.push(None),
            }
            i = i + 1;
        }
        result
    }

    /// The recorded details of the visible (focused-per-container)
    /// windows, in ring order, skipping windows without an entry in
    /// `details`.
    pub fn visible_window_details(&self, details: &Vec<(isize, crate::window::WindowDetails)>) -> (r:
        Vec<crate::window::WindowDetails>)
        ensures
            r@ == spec_visible_details(self.containers.elements@, details@, 0),
    {
        let cs = &self.containers.elements;
        let n = cs.len();
        let mut result: Vec<crate::window::WindowDetails> = Vec::new();
        let mut i: usize = 0;
        while i < n
            invariant
                n == cs@.len(),
                cs == &self.containers.elements,
                i <= n,
                result@ + spec_visible_details(cs@, details@, i as int) =~= spec_visible_details(
                    cs@,
                    details@,
                    0,
                ),
            decreases n - i,
        {
            if let Some(w) = cs[i].focused_window() {
                let h = w.hwnd;
                if let Some(d) = crate::window::details_for(details, h) {
                    result.push(d.clone());
                }
            }
            proof {
                assert(result@ + spec_visible_details(cs@, details@, i + 1)
                    =~= spec_visible_details(cs@, details@, 0));
            }
            i = i + 1;
        }
        proof {
            assert(result@ =~= spec_visible_details(cs@, details@, 0));
        }
        result
    }

    /// The index of the last floating window whose handle is the
    /// foreground handle, if any.
    pub fn focused_floating_window_idx(&self, foreground: Option<isize>) -> (r: Option<usize>)
        ensures
            match r {
                Some(i) => foreground matches Some(h) && last_window_occurrence(
                    self.floating_windows@,
                    h,
                    i as int,
                ),
                None => match foreground {
                    Some(h) => !self.floating_contains(h),
                    None => true,
                },
            },
    {
        let h = match foreground {
            Some(h) => h,
            None => {
                return None;
            },
        };
        let n = self.floating_windows.len();
        let mut idx: Option<usize> = None;
        let mut i: usize = 0;
        while i < n
            invariant
                n == self.floating_windows@.len(),
                i <= n,
                match idx {
                    Some(k) => k < i && self.floating_windows@[k as int].hwnd == h && forall|j: int|
                        k < j < i ==> self.floating_windows@[j].hwnd != h,
                    None => forall|j: int| 0 <= j < i ==> self.floating_windows@[j].hwnd != h,
                },
            decreases n - i,
        {
            if self.floating_windows[i].hwnd == h {
                idx = Some(i);
            }
            i = i + 1;
        }
        idx
    }

    /// The floating window that currently holds the foreground, if any.
    pub fn focused_floating_window(&self, foreground: Option<isize>) -> (r: Option<&Window>)
        ensures
            match r {
                Some(w) => foreground matches Some(h) && exists|i: int|
                    last_window_occurrence(self.floating_windows@, h, i) && *w
                        == self.floating_windows@[i],
                None => match foreground {
                    Some(h) => !self.floating_contains(h),
                    None => true,
                },
            },
    {
        match self.focused_floating_window_idx(foreground) {
            None => None,
            Some(idx) => Some(&self.floating_windows[idx]),
        }
    }

    /// Removes and returns the floating window that currently holds the
    /// foreground, if any.
    pub fn remove_focused_floating_window(&mut self, foreground: Option<isize>) -> (r: Option<
        Window,
    >)
        ensures
            match r {
                Some(w) => {
                    &&& foreground matches Some(h)
                    &&& exists|i: int|
                        {
                            &&& last_window_occurrence(old(self).floating_windows@, h, i)
                            &&& w == old(self).floating_windows@[i]
                            &&& final(self).floating_windows@ == old(self).floating_windows@.remove(i)
                        }
                },
                None => {
                    &&& *final(self) == *old(self)
                    &&& match foreground {
                        Some(h) => !old(self).floating_contains(h),
                        None => true,
                    }
                },
            },
            *final(self) == (Workspace { floating_windows: final(self).floating_windows, ..*old(self) }),
    {
        match self.focused_floating_window_idx(foreground) {
            None => None,
            Some(idx) => {
                let w = self.floating_windows.remove(idx);
                Some(w)
            },
        }
    }

    /// The index reached by cycling one step from the focused container,
    /// or `None` when there are no containers.
    pub fn new_idx_for_cycle_direction(&self, direction: CycleDirection) -> (r: Option<usize>)
        ensures
            match r {
                Some(i) => self.containers.elements@.len() > 0,
                None => self.containers.elements@.len() == 0,
            },
            self.containers.elements@.len() > 0 ==> (r matches Some(i) && ({
                let cur = self.containers.focused as int % self.containers.elements@.len() as int;
                match direction {
                    CycleDirection::Previous => i == if cur == 0 {
                        self.containers.elements@.len() - 1
                    } else {
                        cur - 1
                    },
                    CycleDirection::Next => i == if cur + 1 == self.containers.elements@.len() {
                        0int
                    } else {
                        cur + 1
                    },
                }
            })),
    {
        let len = self.containers.len();
        if len == 0 {
            return None;
        }
        Some(direction.next_idx(self.containers.focused_idx(), len))
    }
}

/// The position of the first container at or after `i` whose recorded
/// categories include `cat`.
pub open spec fn spec_first_category_match(cs: Seq<Container>, cat: Seq<char>, i: int) -> Option<
    int,
>
    decreases cs.len() - i,
{
    if i < 0 || i >= cs.len() {
        None
    } else if crate::classification::strings_contain(cs[i].categories@, cat) {
        Some(i)
    } else {
        spec_first_category_match(cs, cat, i + 1)
    }
}

impl Workspace {
    /// None of the handles in `ws` lives anywhere in this workspace.
    pub open spec fn windows_absent(self, ws: Seq<Window>) -> bool {
        forall|h: isize| #[trigger] windows_contain(ws, h) ==> !self.spec_contains(h)
    }

    /// Sets the container focus cursor. As with [`crate::ring::Ring::focus`],
    /// the index is stored unchecked.
    pub fn focus_container(&mut self, idx: usize)
        ensures
            final(self).containers.elements@ == old(self).containers.elements@,
            final(self).containers.focused == idx,
            *final(self) == (Workspace { containers: final(self).containers, ..*old(self) }),
    {
        self.containers.focus(idx);
    }

    /// Moves the cursor to the previous container, unless it is already
    /// at the front.
    fn focus_previous_container(&mut self)
        ensures
            final(self).containers.elements@ == old(self).containers.elements@,
            final(self).containers.focused == if old(self).containers.focused != 0 {
                (old(self).containers.focused - 1) as usize
            } else {
                0usize
            },
            *final(self) == (Workspace { containers: final(self).containers, ..*old(self) }),
    {
        let focused_idx = self.focused_container_idx();
        if focused_idx != 0 {
            self.focus_container(focused_idx - 1);
        }
    }

    /// Moves the cursor to the last container.
    fn focus_last_container(&mut self)
        requires
            old(self).containers.elements@.len() > 0,
        ensures
            final(self).containers.elements@ == old(self).containers.elements@,
            final(self).containers.focused == old(self).containers.elements@.len() - 1,
            *final(self) == (Workspace { containers: final(self).containers, ..*old(self) }),
    {
        let last = self.containers.len() - 1;
        self.focus_container(last);
    }

    /// Appends a container at the back of the ring together with an
    /// empty resize slot, and focuses it.
    pub fn add_container(&mut self, container: Container)
        requires
            old(self).inv(),
            windows_distinct(container.windows.elements@),
            old(self).windows_absent(container.windows.elements@),
        ensures
            final(self).containers.elements@ == old(self).containers.elements@.push(container),
            final(self).containers.focused == old(self).containers.elements@.len(),
            final(self).resize_dimensions@ == old(self).resize_dimensions@.push(None),
            *final(self) == (Workspace {
                containers: final(self).containers,
                resize_dimensions: final(self).resize_dimensions,
                ..*old(self)
            }),
            final(self).inv(),
    {
        self.containers.push_back(container);
        self.resize_dimensions.push(None);
        self.focus_last_container();
        proof {
            let n = old(self).containers.elements@.len() as int;
            assert(self.containers.elements@ =~= old(self).containers.elements@.insert(
                n,
                container,
            ));
            self.lemma_inserted_container_inv(*old(self), container, n);
        }
    }

    /// Inserts a container at `idx` together with an empty resize slot,
    /// shifting later containers right. The cursor is left untouched.
    pub fn insert_container_at_idx(&mut self, idx: usize, container: Container)
        requires
            old(self).inv(),
            idx <= old(self).containers.elements@.len(),
            windows_distinct(container.windows.elements@),
            old(self).windows_absent(container.windows.elements@),
        ensures
            final(self).containers.elements@ == old(self).containers.elements@.insert(
                idx as int,
                container,
            ),
            final(self).containers.focused == old(self).containers.focused,
            final(self).resize_dimensions@ == old(self).resize_dimensions@.insert(idx as int, None),
            *final(self) == (Workspace {
                containers: final(self).containers,
                resize_dimensions: final(self).resize_dimensions,
                ..*old(self)
            }),
            final(self).inv(),
    {
        self.containers.insert(idx, container);
        self.resize_dimensions.insert(idx, None);
        proof {
            self.lemma_inserted_container_inv(*old(self), container, idx as int);
        }
    }

    /// The invariant survives inserting a fresh-handled container at `i`
    /// with an empty resize slot beside it.
    proof fn lemma_inserted_container_inv(&self, prev: Workspace, container: Container, i: int)
        requires
            prev.inv(),
            windows_distinct(container.windows.elements@),
            prev.windows_absent(container.windows.elements@),
            0 <= i <= prev.containers.elements@.len(),
            self.containers.elements@ == prev.containers.elements@.insert(i, container),
            self.resize_dimensions@.len() == prev.resize_dimensions@.len() + 1,
            self.monocle_container == prev.monocle_container,
            self.monocle_container_restore_idx == prev.monocle_container_restore_idx,
            self.floating_windows@ == prev.floating_windows@,
        ensures
            self.inv(),
    {
        let cs = prev.containers.elements@;
        assert forall|h: isize| #[trigger] windows_contain(container.windows.elements@, h)
            implies !cs_contain(cs, h) by {
            assert(!prev.spec_contains(h));
        }
        lemma_cs_insert(cs, i, container);
        assert forall|h: isize| !(#[trigger] windows_contain(container.windows.elements@, h)
            && #[trigger] windows_contain(prev.floating_windows@, h)) by {
            if windows_contain(container.windows.elements@, h) {
                assert(!prev.spec_contains(h));
            }
        }
        if let Some(m) = prev.monocle_container {
            assert forall|h: isize| !(#[trigger] windows_contain(container.windows.elements@, h)
                && #[trigger] windows_contain(m.windows.elements@, h)) by {
                if windows_contain(container.windows.elements@, h) {
                    assert(!prev.spec_contains(h));
                }
            }
        }
    }

    /// Removes the container at `idx` and its resize slot, if any. The
    /// cursor is left untouched.
    pub fn remove_container_by_idx(&mut self, idx: usize) -> (r: Option<Container>)
        requires
            old(self).inv(),
        ensures
            final(self).inv(),
            final(self).containers.focused == old(self).containers.focused,
            *final(self) == (Workspace {
                containers: final(self).containers,
                resize_dimensions: final(self).resize_dimensions,
                ..*old(self)
            }),
            match r {
                Some(c) => {
                    &&& idx < old(self).containers.elements@.len()
                    &&& c == old(self).containers.elements@[idx as int]
                    &&& final(self).containers.elements@ == old(self).containers.elements@.remove(
                        idx as int,
                    )
                    &&& final(self).resize_dimensions@ == old(self).resize_dimensions@.remove(
                        idx as int,
                    )
                },
                None => {
                    &&& idx >= old(self).containers.elements@.len()
                    &&& final(self).containers.elements@ == old(self).containers.elements@
                    &&& final(self).resize_dimensions@ == old(self).resize_dimensions@
                },
            },
    {
        if idx < self.resize_dimensions.len() {
            self.resize_dimensions.remove(idx);
        }
        let removed = self.containers.remove(idx);
        proof {
            if idx < old(self).containers.elements@.len() {
                lemma_cs_remove(old(self).containers.elements@, idx as int);
            }
        }
        removed
    }

    /// Removes the focused container and its resize slot, then moves the
    /// cursor to the previous container.
    pub fn remove_focused_container(&mut self) -> (r: Option<Container>)
        requires
            old(self).inv(),
        ensures
            final(self).inv(),
            final(self).containers.focused == if old(self).containers.focused != 0 {
                (old(self).containers.focused - 1) as usize
            } else {
                0usize
            },
            *final(self) == (Workspace {
                containers: final(self).containers,
                resize_dimensions: final(self).resize_dimensions,
                ..*old(self)
            }),
            match r {
                Some(c) => {
                    &&& old(self).containers.focused < old(self).containers.elements@.len()
                    &&& c == old(self).containers.elements@[old(self).containers.focused as int]
                    &&& final(self).containers.elements@ == old(self).containers.elements@.remove(
                        old(self).containers.focused as int,
                    )
                    &&& final(self).resize_dimensions@ == old(self).resize_dimensions@.remove(
                        old(self).containers.focused as int,
                    )
                },
                None => {
                    &&& old(self).containers.focused >= old(self).containers.elements@.len()
                    &&& final(self).containers.elements@ == old(self).containers.elements@
                    &&& final(self).resize_dimensions@ == old(self).resize_dimensions@
                },
            },
    {
        let focused_idx = self.focused_container_idx();
        let container = self.remove_container_by_idx(focused_idx);
        self.focus_previous_container();
        container
    }

    /// Removes the container at `idx` and its resize slot, then moves
    /// the cursor to the previous container.
    pub fn remove_container(&mut self, idx: usize) -> (r: Option<Container>)
        requires
            old(self).inv(),
        ensures
            final(self).inv(),
            final(self).containers.focused == if old(self).containers.focused != 0 {
                (old(self).containers.focused - 1) as usize
            } else {
                0usize
            },
            *final(self) == (Workspace {
                containers: final(self).containers,
                resize_dimensions: final(self).resize_dimensions,
                ..*old(self)
            }),
            match r {
                Some(c) => {
                    &&& idx < old(self).containers.elements@.len()
                    &&& c == old(self).containers.elements@[idx as int]
                    &&& final(self).containers.elements@ == old(self).containers.elements@.remove(
                        idx as int,
                    )
                    &&& final(self).resize_dimensions@ == old(self).resize_dimensions@.remove(
                        idx as int,
                    )
                },
                None => {
                    &&& idx >= old(self).containers.elements@.len()
                    &&& final(self).containers.elements@ == old(self).containers.elements@
                    &&& final(self).resize_dimensions@ == old(self).resize_dimensions@
                },
            },
    {
        let container = self.remove_container_by_idx(idx);
        self.focus_previous_container();
        container
    }

    /// Swaps the containers at `i` and `j` and focuses `j`. The resize
    /// slots stay where they are.
    pub fn swap_containers(&mut self, i: usize, j: usize)
        requires
            old(self).inv(),
            i < old(self).containers.elements@.len(),
            j < old(self).containers.elements@.len(),
        ensures
            final(self).inv(),
            final(self).containers.elements@ == old(self).containers.elements@.update(
                i as int,
                old(self).containers.elements@[j as int],
            ).update(j as int, old(self).containers.elements@[i as int]),
            final(self).containers.focused == j,
            *final(self) == (Workspace { containers: final(self).containers, ..*old(self) }),
    {
        self.containers.swap(i, j);
        proof {
            let cs = old(self).containers.elements@;
            let t = self.containers.elements@;
            assert forall|k: int| 0 <= k < t.len() implies windows_distinct(
                #[trigger] t[k].windows.elements@,
            ) by {
                assert(t[k] == cs[k] || t[k] == cs[i as int] || t[k] == cs[j as int]);
            }
            assert forall|k1: int, k2: int| 0 <= k1 < k2 < t.len() implies windows_disjoint(
                #[trigger] t[k1].windows.elements@,
                #[trigger] t[k2].windows.elements@,
            ) by {
                let s1: int = if k1 == i {
                    j as int
                } else if k1 == j {
                    i as int
                } else {
                    k1
                };
                let s2: int = if k2 == i {
                    j as int
                } else if k2 == j {
                    i as int
                } else {
                    k2
                };
                assert(t[k1] == cs[s1]);
                assert(t[k2] == cs[s2]);
                if s1 < s2 {
                } else if s2 < s1 {
                    assert(windows_disjoint(cs[s2].windows.elements@, cs[s1].windows.elements@));
                    assert forall|h: isize| !(#[trigger] windows_contain(t[k1].windows.elements@, h)
                        && #[trigger] windows_contain(t[k2].windows.elements@, h)) by {}
                } else {
                }
            }
            assert forall|k: int| 0 <= k < t.len() implies windows_disjoint(
                #[trigger] t[k].windows.elements@,
                self.floating_windows@,
            ) by {
                assert(t[k] == cs[k] || t[k] == cs[i as int] || t[k] == cs[j as int]);
            }
            if self.monocle_container is Some {
                let ghost m = self.monocle_container->0;
                assert forall|k: int| 0 <= k < t.len() implies windows_disjoint(
                    #[trigger] t[k].windows.elements@,
                    m.windows.elements@,
                ) by {
                    assert(t[k] == cs[k] || t[k] == cs[i as int] || t[k] == cs[j as int]);
                }
            }
        }
    }
}

/// The transition of taking the focused window out of the focused
/// container of `prev`, yielding `mid`: the removed window is `w`, the
/// emitted requests are `acts`, and the hidden-handle record moves from
/// `h0` to `h1`. A container emptied by the removal is pruned together
/// with its resize slot; otherwise it reloads its newly focused window.
pub open spec fn spec_took_focused(
    prev: Workspace,
    mid: Workspace,
    w: Window,
    acts: Seq<OsAction>,
    h0: Seq<isize>,
    h1: Seq<isize>,
    behaviour: HidingBehaviour,
) -> bool {
    let cs = prev.containers.elements@;
    let f = prev.containers.focused as int;
    let wf = cs[f].windows.focused as int;
    &&& f < cs.len()
    &&& wf < cs[f].windows.elements@.len()
    &&& w == cs[f].windows.elements@[wf]
    &&& !mid.spec_contains(w.hwnd)
    &&& mid.containers.focused == prev.containers.focused
    &&& mid == (Workspace {
        containers: mid.containers,
        resize_dimensions: mid.resize_dimensions,
        ..prev
    })
    &&& if cs[f].windows.elements@.len() == 1 {
        &&& mid.containers.elements@ == cs.remove(f)
        &&& mid.resize_dimensions@ == prev.resize_dimensions@.remove(f)
        &&& acts == Seq::<OsAction>::empty()
        &&& h1 == h0
    } else {
        let c2 = mid.containers.elements@[f];
        &&& mid.containers.elements@ == cs.update(f, c2)
        &&& c2.windows.elements@ == cs[f].windows.elements@.remove(wf)
        &&& c2.windows.focused == (if wf != 0 {
            wf - 1
        } else {
            cs[f].windows.focused as int
        })
        &&& c2.id == cs[f].id
        &&& c2.wait_for_minimization == cs[f].wait_for_minimization
        &&& c2.categories == cs[f].categories
        &&& mid.resize_dimensions@ == prev.resize_dimensions@
        &&& acts == crate::container::spec_load_actions(c2, behaviour)
        &&& h1 == crate::container::spec_load_hidden(h0, c2)
    }
}

impl Workspace {
    /// Removes the focused window of the focused container, as described
    /// by [`spec_took_focused`]. A container emptied by the removal is
    /// pruned together with its resize slot (the cursor is left for the
    /// caller to repair); otherwise the container reloads its newly
    /// focused window. The removed window ends up nowhere in the
    /// workspace.
    fn take_focused_window(&mut self, state: &mut WindowState, behaviour: HidingBehaviour) -> (r:
        Result<(Window, Vec<OsAction>), WmError>)
        requires
            old(self).inv(),
        ensures
            final(self).inv(),
            final(state).maximized@ == old(state).maximized@,
            ({
                let cs = old(self).containers.elements@;
                let f = old(self).containers.focused as int;
                match r {
                    Ok((w, actions)) => spec_took_focused(
                        *old(self),
                        *final(self),
                        w,
                        actions@,
                        old(state).hidden@,
                        final(state).hidden@,
                        behaviour,
                    ),
                    Err(e) => {
                        &&& (e == WmError::NoContainer || e == WmError::NoWindow)
                        &&& (e == WmError::NoContainer <==> f >= cs.len())
                        &&& (e == WmError::NoWindow ==> f < cs.len() && cs[f].windows.focused
                            >= cs[f].windows.elements@.len())
                        &&& *final(self) == *old(self)
                        &&& *final(state) == *old(state)
                    },
                }
            }),
    {
        let f = self.focused_container_idx();
        let cs_len = self.containers.len();
        if f >= cs_len {
            return Err(WmError::NoContainer);
        }
        let ghost cs = self.containers.elements@;
        let will_empty = match self.containers.get(f) {
            Some(c) => {
                if c.focused_window_idx() >= c.windows().len() {
                    return Err(WmError::NoWindow);
                }
                c.windows().len() == 1
            },
            None => {
                return Err(WmError::NoContainer);
            },
        };
        if will_empty {
            let removed = self.remove_container_by_idx(f);
            match removed {
                Some(container) => {
                    proof {
                        lemma_cs_remove(cs, f as int);
                        let w = container.windows.elements@[container.windows.focused as int];
                        assert(windows_contain(cs[f as int].windows.elements@, w.hwnd));
                        assert forall|k: int|
                            0 <= k < final(self).containers.elements@.len() implies !windows_contain(
                            #[trigger] final(self).containers.elements@[k].windows.elements@,
                            w.hwnd,
                        ) by {
                            let sk = if k < f as int {
                                k
                            } else {
                                k + 1
                            };
                            assert(final(self).containers.elements@[k] == cs[sk]);
                            if sk != f as int {
                                assert(windows_disjoint(
                                    cs[if sk < f as int {
                                        sk
                                    } else {
                                        f as int
                                    }].windows.elements@,
                                    cs[if sk < f as int {
                                        f as int
                                    } else {
                                        sk
                                    }].windows.elements@,
                                ));
                            }
                        }
                    }
                    let window = match container.focused_window() {
                        Some(w) => *w,
                        None => {
                            return Err(WmError::NoWindow);
                        },
                    };
                    Ok((window, Vec::new()))
                },
                None => Err(WmError::NoContainer),
            }
        } else {
            let mut window: Option<Window> = None;
            let mut actions: Vec<OsAction> = Vec::new();
            match self.containers.get_mut(f) {
                Some(c) => {
                    window = c.remove_focused_window();
                    proof {
                        let c2 = *final(c);
                        let wf = cs[f as int].windows.focused as int;
                        assert forall|h: isize|
                            #[trigger] windows_contain(c2.windows.elements@, h) implies windows_contain(
                            cs[f as int].windows.elements@,
                            h,
                        ) by {
                            lemma_contain_remove(cs[f as int].windows.elements@, wf, h);
                        }
                        lemma_cs_update(cs, f as int, *final(c), None);
                    }
                },
                None => {},
            }
            let window = match window {
                Some(w) => w,
                None => {
                    return Err(WmError::NoWindow);
                },
            };
            proof {
                let wf = cs[f as int].windows.focused as int;
                let c2 = self.containers.elements@[f as int];
                assert(self.containers.elements@ =~= cs.update(f as int, c2));
                assert(!windows_contain(c2.windows.elements@, window.hwnd));
                assert forall|k: int|
                    0 <= k < self.containers.elements@.len() && k != f as int implies !windows_contain(
                    #[trigger] self.containers.elements@[k].windows.elements@,
                    window.hwnd,
                ) by {
                    assert(self.containers.elements@[k] == cs[k]);
                    assert(windows_contain(cs[f as int].windows.elements@, window.hwnd));
                    assert(windows_disjoint(
                        cs[if k < f as int {
                            k
                        } else {
                            f as int
                        }].windows.elements@,
                        cs[if k < f as int {
                            f as int
                        } else {
                            k
                        }].windows.elements@,
                    ));
                }
                assert(cs[f as int].windows.elements@[wf] == window);
                assert(windows_contain(cs[f as int].windows.elements@, window.hwnd));
                if self.monocle_container is Some {
                    let m = self.monocle_container->0;
                    assert(windows_disjoint(cs[f as int].windows.elements@, m.windows.elements@));
                    assert(!windows_contain(m.windows.elements@, window.hwnd));
                }
                assert(windows_disjoint(cs[f as int].windows.elements@, self.floating_windows@));
                assert(!windows_contain(self.floating_windows@, window.hwnd));
            }
            match self.containers.get(f) {
                Some(c) => {
                    actions = c.load_focused_window(state, behaviour);
                },
                None => {},
            }
            Ok((window, actions))
        }
    }
}

/// The transition of taking the focused window out of the monocle
/// container of `prev`, yielding `mid`: the monocle container is
/// dissolved when it empties, together with its restore index and saved
/// resize override; otherwise it reloads its newly focused window.
pub open spec fn spec_took_monocle_focused(
    prev: Workspace,
    mid: Workspace,
    w: Window,
    acts: Seq<OsAction>,
    h0: Seq<isize>,
    h1: Seq<isize>,
    behaviour: HidingBehaviour,
) -> bool {
    let m = prev.monocle_container->0;
    let wf = m.windows.focused as int;
    &&& prev.monocle_container is Some
    &&& wf < m.windows.elements@.len()
    &&& w == m.windows.elements@[wf]
    &&& !mid.spec_contains(w.hwnd)
    &&& mid == (Workspace {
        monocle_container: mid.monocle_container,
        monocle_container_restore_idx: mid.monocle_container_restore_idx,
        monocle_resize_dimension: mid.monocle_resize_dimension,
        ..prev
    })
    &&& if m.windows.elements@.len() == 1 {
        &&& mid.monocle_container is None
        &&& mid.monocle_container_restore_idx is None
        &&& mid.monocle_resize_dimension is None
        &&& acts == Seq::<OsAction>::empty()
        &&& h1 == h0
    } else {
        let m2 = mid.monocle_container->0;
        &&& mid.monocle_container is Some
        &&& mid.monocle_container_restore_idx == prev.monocle_container_restore_idx
        &&& mid.monocle_resize_dimension == prev.monocle_resize_dimension
        &&& m2.windows.elements@ == m.windows.elements@.remove(wf)
        &&& m2.windows.focused == (if wf != 0 {
            wf - 1
        } else {
            m.windows.focused as int
        })
        &&& m2.id == m.id
        &&& m2.wait_for_minimization == m.wait_for_minimization
        &&& m2.categories == m.categories
        &&& acts == crate::container::spec_load_actions(m2, behaviour)
        &&& h1 == crate::container::spec_load_hidden(h0, m2)
    }
}

impl Workspace {
    /// Moves the focused window out of the monocle container (when one
    /// exists) or out of the focused container, and appends it to the
    /// floating list.
    pub fn float_focused_window(&mut self, state: &mut WindowState, behaviour: HidingBehaviour)
        -> (r: Result<Vec<OsAction>, WmError>)
        requires
            old(self).inv(),
        ensures
            final(self).inv(),
            final(state).maximized@ == old(state).maximized@,
            match r {
                Ok(actions) => ({
                    let mid = (Workspace {
                        floating_windows: old(self).floating_windows,
                        ..*final(self)
                    });
                    if old(self).monocle_container is Some {
                        let m = old(self).monocle_container->0;
                        let w = m.windows.elements@[m.windows.focused as int];
                        &&& spec_took_monocle_focused(
                            *old(self),
                            mid,
                            w,
                            actions@,
                            old(state).hidden@,
                            final(state).hidden@,
                            behaviour,
                        )
                        &&& final(self).floating_windows@ == old(self).floating_windows@.push(w)
                    } else {
                        let cs = old(self).containers.elements@;
                        let f = old(self).containers.focused as int;
                        let w = cs[f].windows.elements@[cs[f].windows.focused as int];
                        &&& spec_took_focused(
                            *old(self),
                            mid,
                            w,
                            actions@,
                            old(state).hidden@,
                            final(state).hidden@,
                            behaviour,
                        )
                        &&& final(self).floating_windows@ == old(self).floating_windows@.push(w)
                    }
                }),
                Err(e) => {
                    &&& (e == WmError::NoContainer || e == WmError::NoWindow)
                    &&& *final(self) == *old(self)
                    &&& *final(state) == *old(state)
                    &&& match old(self).monocle_container {
                        Some(m) => e == WmError::NoWindow && m.windows.focused
                            >= m.windows.elements@.len(),
                        None => {
                            let cs = old(self).containers.elements@;
                            let f = old(self).containers.focused as int;
                            &&& (e == WmError::NoContainer <==> f >= cs.len())
                            &&& (e == WmError::NoWindow ==> f < cs.len() && cs[f].windows.focused
                                >= cs[f].windows.elements@.len())
                        },
                    }
                },
            },
    {
        if self.monocle_container.is_some() {
            let mono = self.monocle_container.take();
            let mut m = match mono {
                Some(m) => m,
                None => {
                    return Err(WmError::NoWindow);
                },
            };
            let ghost m0 = m;
            if m.focused_window_idx() >= m.windows().len() {
                self.monocle_container = Some(m);
                return Err(WmError::NoWindow);
            }
            let window = match m.remove_focused_window() {
                Some(w) => w,
                None => {
                    self.monocle_container = Some(m);
                    return Err(WmError::NoWindow);
                },
            };
            let mut actions: Vec<OsAction> = Vec::new();
            if m.windows().len() == 0 {
                self.monocle_container_restore_idx = None;
                self.monocle_resize_dimension = None;
            } else {
                actions = m.load_focused_window(state, behaviour);
                self.monocle_container = Some(m);
            }
            proof {
                let ghost mid = *self;
                let wf = m0.windows.focused as int;
                assert(m0.windows.elements@[wf] == window);
                assert(windows_contain(m0.windows.elements@, window.hwnd));
                assert(!cs_contain(self.containers.elements@, window.hwnd)) by {
                    if cs_contain(self.containers.elements@, window.hwnd) {
                        let k = choose|k: int|
                            0 <= k < self.containers.elements@.len() && windows_contain(
                                self.containers.elements@[k].windows.elements@,
                                window.hwnd,
                            );
                        assert(windows_disjoint(
                            self.containers.elements@[k].windows.elements@,
                            m0.windows.elements@,
                        ));
                    }
                }
                assert(!windows_contain(self.floating_windows@, window.hwnd)) by {
                    assert(windows_disjoint(m0.windows.elements@, self.floating_windows@));
                }
                if self.monocle_container is Some {
                    let m2 = self.monocle_container->0;
                    assert(m2.windows.elements@ == m0.windows.elements@.remove(wf));
                    assert(!windows_contain(m2.windows.elements@, window.hwnd));
                    assert forall|h: isize|
                        #[trigger] windows_contain(m2.windows.elements@, h) implies windows_contain(
                        m0.windows.elements@,
                        h,
                    ) by {
                        lemma_contain_remove(m0.windows.elements@, wf, h);
                    }
                    assert forall|k: int|
                        0 <= k < self.containers.elements@.len() implies windows_disjoint(
                        #[trigger] self.containers.elements@[k].windows.elements@,
                        m2.windows.elements@,
                    ) by {
                        assert(windows_disjoint(
                            self.containers.elements@[k].windows.elements@,
                            m0.windows.elements@,
                        ));
                    }
                    assert(windows_disjoint(m2.windows.elements@, self.floating_windows@)) by {
                        assert(windows_disjoint(m0.windows.elements@, self.floating_windows@));
                    }
                }
                assert(spec_took_monocle_focused(
                    *old(self),
                    mid,
                    window,
                    actions@,
                    old(state).hidden@,
                    state.hidden@,
                    behaviour,
                ));
            }
            let ghost mid = *self;
            self.floating_windows.push(window);
            proof {
                assert forall|k: int|
                    0 <= k < self.containers.elements@.len() implies windows_disjoint(
                    #[trigger] self.containers.elements@[k].windows.elements@,
                    self.floating_windows@,
                ) by {
                    lemma_disjoint_push_left(
                        mid.floating_windows@,
                        window,
                        self.containers.elements@[k].windows.elements@,
                    );
                    assert forall|h: isize|
                        !(#[trigger] windows_contain(
                            self.containers.elements@[k].windows.elements@,
                            h,
                        ) && #[trigger] windows_contain(self.floating_windows@, h)) by {
                        lemma_contain_push(mid.floating_windows@, window, h);
                        if h == window.hwnd {
                            assert(!cs_contain(mid.containers.elements@, h));
                        }
                    }
                }
                if self.monocle_container is Some {
                    let m2 = self.monocle_container->0;
                    assert forall|h: isize|
                        !(#[trigger] windows_contain(m2.windows.elements@, h)
                            && #[trigger] windows_contain(self.floating_windows@, h)) by {
                        lemma_contain_push(mid.floating_windows@, window, h);
                    }
                }
                assert(windows_distinct(self.floating_windows@)) by {
                    lemma_distinct_push(mid.floating_windows@, window);
                }
            }
            proof {
                let w = m0.windows.elements@[m0.windows.focused as int];
                assert(w == window);
                assert(spec_took_monocle_focused(
                    *old(self),
                    mid,
                    w,
                    actions@,
                    old(state).hidden@,
                    final(state).hidden@,
                    behaviour,
                ));
                assert(*final(self) == (Workspace {
                    floating_windows: final(self).floating_windows,
                    ..mid
                }));
                assert(final(self).floating_windows@ == mid.floating_windows@.push(w));
            }
            return Ok(actions);
        }
        let taken = self.take_focused_window(state, behaviour);
        match taken {
            Ok((window, actions)) => {
                let ghost mid = *self;
                self.floating_windows.push(window);
                proof {
                    assert forall|k: int|
                        0 <= k < self.containers.elements@.len() implies windows_disjoint(
                        #[trigger] self.containers.elements@[k].windows.elements@,
                        self.floating_windows@,
                    ) by {
                        assert forall|h: isize|
                            !(#[trigger] windows_contain(
                                self.containers.elements@[k].windows.elements@,
                                h,
                            ) && #[trigger] windows_contain(self.floating_windows@, h)) by {
                            lemma_contain_push(mid.floating_windows@, window, h);
                            if h == window.hwnd {
                                assert(!cs_contain(mid.containers.elements@, h));
                            }
                        }
                    }
                    if self.monocle_container is Some {
                        let m2 = self.monocle_container->0;
                        assert forall|h: isize|
                            !(#[trigger] windows_contain(m2.windows.elements@, h)
                                && #[trigger] windows_contain(self.floating_windows@, h)) by {
                            lemma_contain_push(mid.floating_windows@, window, h);
                        }
                    }
                    assert(windows_distinct(self.floating_windows@)) by {
                        lemma_distinct_push(mid.floating_windows@, window);
                    }
                    let cs = old(self).containers.elements@;
                    let f = old(self).containers.focused as int;
                    let w = cs[f].windows.elements@[cs[f].windows.focused as int];
                    assert(w == window);
                    assert(spec_took_focused(
                        *old(self),
                        mid,
                        w,
                        actions@,
                        old(state).hidden@,
                        final(state).hidden@,
                        behaviour,
                    ));
                    assert((Workspace {
                        floating_windows: old(self).floating_windows,
                        ..*final(self)
                    }) == mid);
                    assert(final(self).floating_windows@ == mid.floating_windows@.push(w));
                    assert(mid.floating_windows@ == old(self).floating_windows@);
                }
                Ok(actions)
            },
            Err(e) => Err(e),
        }
    }
}

/// The transition of placing window `w` into the workspace: appended to
/// the first container stacking its category when category stacking
/// applies, otherwise in a fresh container inserted after the focused
/// one (at the front of an empty ring, or at the back when the cursor is
/// out of range) with an empty resize slot, which is then focused.
pub open spec fn spec_placed_window(
    prev: Workspace,
    fin: Workspace,
    w: Window,
    stack_by_category: bool,
    category: Option<String>,
    wait_for_minimization: bool,
) -> bool {
    let cs = prev.containers.elements@;
    let stacked = stack_by_category && category is Some && spec_first_category_match(
        cs,
        category->0@,
        0,
    ) is Some;
    &&& fin == (Workspace {
        containers: fin.containers,
        resize_dimensions: fin.resize_dimensions,
        ..prev
    })
    &&& if stacked {
        let k = spec_first_category_match(cs, category->0@, 0)->0;
        let c2 = fin.containers.elements@[k];
        &&& fin.containers.elements@ == cs.update(k, c2)
        &&& c2.windows.elements@ == cs[k].windows.elements@.push(w)
        &&& c2.windows.focused == cs[k].windows.elements@.len()
        &&& c2.id == cs[k].id
        &&& c2.categories == cs[k].categories
        &&& c2.wait_for_minimization == cs[k].wait_for_minimization
        &&& fin.resize_dimensions@ == prev.resize_dimensions@
        &&& fin.containers.focused == prev.containers.focused
    } else {
        let next = if cs.len() == 0 {
            0int
        } else if prev.containers.focused >= cs.len() {
            cs.len() as int
        } else {
            prev.containers.focused + 1
        };
        let c = fin.containers.elements@[next];
        &&& fin.containers.elements@ == cs.insert(next, c)
        &&& c.windows.elements@ == seq![w]
        &&& c.windows.focused == 0
        &&& c.categories@ == (match category {
            Some(cat) => seq![cat],
            None => Seq::<String>::empty(),
        })
        &&& c.wait_for_minimization == wait_for_minimization
        &&& fin.resize_dimensions@ == prev.resize_dimensions@.insert(next, None)
        &&& fin.containers.focused == next
    }
}

impl Workspace {
    /// The index of the first container whose recorded categories
    /// include `category`.
    fn container_idx_by_category(&self, category: &str) -> (r: Option<usize>)
        ensures
            match r {
                Some(k) => k < self.containers.elements@.len() && spec_first_category_match(
                    self.containers.elements@,
                    category@,
                    0,
                ) == Some(k as int),
                None => spec_first_category_match(self.containers.elements@, category@, 0) is None,
            },
    {
        let cs = &self.containers.elements;
        let n = cs.len();
        let mut i: usize = 0;
        while i < n
            invariant
                n == cs@.len(),
                cs == &self.containers.elements,
                i <= n,
                spec_first_category_match(cs@, category@, 0) == spec_first_category_match(
                    cs@,
                    category@,
                    i as int,
                ),
            decreases n - i,
        {
            if crate::classification::contains_str(&cs[i].categories, category) {
                return Some(i);
            }
            i = i + 1;
        }
        None
    }

    /// The first container stacking the given category, borrowed for
    /// mutation, or `None` when no container records it.
    pub fn get_container_by_category(&mut self, category: &str) -> (r: Option<&mut Container>)
        ensures
            match r {
                Some(c) => ({
                    let m = spec_first_category_match(
                        old(self).containers.elements@,
                        category@,
                        0,
                    );
                    &&& m is Some
                    &&& *c == old(self).containers.elements@[m->0]
                    &&& final(self).containers.elements@ == old(self).containers.elements@.update(m->0, *final(c))
                    &&& final(self).containers.focused == old(self).containers.focused
                    &&& *final(self) == (Workspace {
                        containers: final(self).containers,
                        ..*old(self)
                    })
                }),
                None => {
                    &&& spec_first_category_match(
                        old(self).containers.elements@,
                        category@,
                        0,
                    ) is None
                    &&& *final(self) == *old(self)
                },
            },
    {
        match self.container_idx_by_category(category) {
            Some(k) => self.containers.get_mut(k),
            None => None,
        }
    }

    /// Places a new window. With category stacking enabled and a
    /// container already stacking the window's category, the window is
    /// appended there. Otherwise a fresh container is created for it,
    /// inserted immediately after the focused container (at the front of
    /// an empty ring, or at the back when the cursor is out of range),
    /// with an empty resize slot beside it, and focused.
    pub fn new_container_for_window(
        &mut self,
        window: Window,
        stack_by_category: bool,
        category: Option<String>,
        wait_for_minimization: bool,
    )
        requires
            old(self).inv(),
            !old(self).spec_contains(window.hwnd),
        ensures
            final(self).inv(),
            spec_placed_window(
                *old(self),
                *final(self),
                window,
                stack_by_category,
                category,
                wait_for_minimization,
            ),
    {
        let ghost cs = self.containers.elements@;
        if stack_by_category {
            let mut found: Option<usize> = None;
            if let Some(cat) = &category {
                found = self.container_idx_by_category(cat.as_str());
            }
            if let Some(k) = found {
                match self.containers.get_mut(k) {
                    Some(c) => {
                        c.add_window(window);
                        proof {
                            let c2 = *final(c);
                            assert forall|h: isize|
                                #[trigger] windows_contain(c2.windows.elements@, h) implies windows_contain(
                                cs[k as int].windows.elements@,
                                h,
                            ) || Some(h) == Some(window.hwnd) by {
                                lemma_contain_push(cs[k as int].windows.elements@, window, h);
                            }
                            assert(windows_distinct(c2.windows.elements@)) by {
                                lemma_distinct_push(cs[k as int].windows.elements@, window);
                            }
                            lemma_cs_update(cs, k as int, c2, Some(window.hwnd));
                            assert forall|h: isize|
                                !(#[trigger] windows_contain(
                                    self.containers.elements@[k as int].windows.elements@,
                                    h,
                                ) && #[trigger] windows_contain(self.floating_windows@, h)) by {
                                lemma_contain_push(cs[k as int].windows.elements@, window, h);
                                assert(windows_disjoint(
                                    cs[k as int].windows.elements@,
                                    self.floating_windows@,
                                ));
                            }
                            assert(cs_disjoint_from(
                                self.containers.elements@,
                                self.floating_windows@,
                            )) by {
                                assert forall|k2: int|
                                    0 <= k2 < self.containers.elements@.len() implies windows_disjoint(
                                    #[trigger] self.containers.elements@[k2].windows.elements@,
                                    self.floating_windows@,
                                ) by {
                                    if k2 != k as int {
                                        assert(self.containers.elements@[k2] == cs[k2]);
                                    }
                                }
                            }
                            if self.monocle_container is Some {
                                let m = self.monocle_container->0;
                                assert forall|k2: int|
                                    0 <= k2 < self.containers.elements@.len() implies windows_disjoint(
                                    #[trigger] self.containers.elements@[k2].windows.elements@,
                                    m.windows.elements@,
                                ) by {
                                    if k2 != k as int {
                                        assert(self.containers.elements@[k2] == cs[k2]);
                                    } else {
                                        assert forall|h: isize|
                                            !(#[trigger] windows_contain(
                                                self.containers.elements@[k2].windows.elements@,
                                                h,
                                            ) && #[trigger] windows_contain(
                                                m.windows.elements@,
                                                h,
                                            )) by {
                                            lemma_contain_push(
                                                cs[k as int].windows.elements@,
                                                window,
                                                h,
                                            );
                                            assert(windows_disjoint(
                                                cs[k as int].windows.elements@,
                                                m.windows.elements@,
                                            ));
                                        }
                                    }
                                }
                            }
                        }
                        return ;
                    },
                    None => {},
                }
            }
        }
        let next_idx = if self.containers.is_empty() {
            0
        } else {
            let f = self.containers.focused_idx();
            let len = self.containers.len();
            if f >= len {
                len
            } else {
                f + 1
            }
        };
        let mut container = Container::new(wait_for_minimization);
        container.add_window(window);
        if let Some(cat) = category {
            container.add_category(cat);
        }
        proof {
            assert(container.windows.elements@ =~= seq![window]);
            assert forall|h: isize|
                #[trigger] windows_contain(container.windows.elements@, h) implies !self.spec_contains(
                h,
            ) by {
                assert(h == window.hwnd);
            }
        }
        self.insert_container_at_idx(next_idx, container);
        self.focus_container(next_idx);
    }

    /// Moves the floating window holding the foreground back into the
    /// tiled set: into a container stacking its category when category
    /// stacking is enabled, otherwise into a fresh container inserted at
    /// the focused position (or at the back when the cursor is out of
    /// range). The cursor is left untouched.
    pub fn unfloat_focused_window(
        &mut self,
        foreground: Option<isize>,
        stack_by_category: bool,
        category: Option<String>,
        wait_for_minimization: bool,
    ) -> (r: Result<(), WmError>)
        requires
            old(self).inv(),
        ensures
            final(self).inv(),
            match r {
                Ok(()) => ({
                    let fl = old(self).floating_windows@;
                    let cs = old(self).containers.elements@;
                    &&& foreground is Some
                    &&& exists|i: int|
                        {
                            &&& last_window_occurrence(fl, foreground->0, i)
                            &&& final(self).floating_windows@ == fl.remove(i)
                            &&& ({
                                let w = fl[i];
                                let stacked = stack_by_category && category is Some
                                    && spec_first_category_match(cs, category->0@, 0) is Some;
                                &&& *final(self) == (Workspace {
                                    containers: final(self).containers,
                                    resize_dimensions: final(self).resize_dimensions,
                                    floating_windows: final(self).floating_windows,
                                    ..*old(self)
                                })
                                &&& final(self).containers.focused == old(self).containers.focused
                                &&& if stacked {
                                    let k = spec_first_category_match(cs, category->0@, 0)->0;
                                    let c2 = final(self).containers.elements@[k];
                                    &&& final(self).containers.elements@ == cs.update(k, c2)
                                    &&& c2.windows.elements@ == cs[k].windows.elements@.push(w)
                                    &&& c2.windows.focused == cs[k].windows.elements@.len()
                                    &&& c2.id == cs[k].id
                                    &&& final(self).resize_dimensions@ == old(self).resize_dimensions@
                                } else {
                                    let next = if old(self).containers.focused > cs.len() {
                                        cs.len() as int
                                    } else {
                                        old(self).containers.focused as int
                                    };
                                    let c = final(self).containers.elements@[next];
                                    &&& final(self).containers.elements@ == cs.insert(next, c)
                                    &&& c.windows.elements@ == seq![w]
                                    &&& c.windows.focused == 0
                                    &&& c.wait_for_minimization == wait_for_minimization
                                    &&& final(self).resize_dimensions@ == old(self).resize_dimensions@.insert(next, None)
                                }
                            })
                        }
                }),
                Err(e) => {
                    &&& e == WmError::NoFloatingWindow
                    &&& *final(self) == *old(self)
                    &&& match foreground {
                        Some(h) => !old(self).floating_contains(h),
                        None => true,
                    }
                },
            },
    {
        let ghost cs = self.containers.elements@;
        let ghost fl0 = self.floating_windows@;
        let window = match self.remove_focused_floating_window(foreground) {
            Some(w) => w,
            None => {
                return Err(WmError::NoFloatingWindow);
            },
        };
        proof {
            let i = choose|i: int|
                last_window_occurrence(fl0, foreground->0, i) && window == fl0[i]
                    && self.floating_windows@ == fl0.remove(i);
            assert(windows_contain(fl0, window.hwnd)) by {
                assert(fl0[i].hwnd == window.hwnd);
            }
            assert(!windows_contain(self.floating_windows@, window.hwnd)) by {
                lemma_distinct_remove_gone(fl0, i);
            }
            assert(windows_distinct(self.floating_windows@)) by {
                lemma_distinct_remove(fl0, i);
            }
            assert(cs_disjoint_from(cs, self.floating_windows@)) by {
                assert forall|k: int| 0 <= k < cs.len() implies windows_disjoint(
                    #[trigger] cs[k].windows.elements@,
                    self.floating_windows@,
                ) by {
                    assert forall|h: isize|
                        !(#[trigger] windows_contain(cs[k].windows.elements@, h)
                            && #[trigger] windows_contain(self.floating_windows@, h)) by {
                        lemma_contain_remove(fl0, i, h);
                        assert(windows_disjoint(cs[k].windows.elements@, fl0));
                    }
                }
            }
            if self.monocle_container is Some {
                let m = self.monocle_container->0;
                assert(windows_disjoint(m.windows.elements@, self.floating_windows@)) by {
                    assert forall|h: isize|
                        !(#[trigger] windows_contain(m.windows.elements@, h)
                            && #[trigger] windows_contain(self.floating_windows@, h)) by {
                        lemma_contain_remove(fl0, i, h);
                        assert(windows_disjoint(m.windows.elements@, fl0));
                    }
                }
            }
            assert(!self.spec_contains(window.hwnd)) by {
                assert(!cs_contain(cs, window.hwnd)) by {
                    if cs_contain(cs, window.hwnd) {
                        let k = choose|k: int|
                            0 <= k < cs.len() && windows_contain(
                                cs[k].windows.elements@,
                                window.hwnd,
                            );
                        assert(windows_disjoint(cs[k].windows.elements@, fl0));
                    }
                }
                if self.monocle_container is Some {
                    let m = self.monocle_container->0;
                    assert(windows_disjoint(m.windows.elements@, fl0));
                }
            }
        }
        if stack_by_category {
            let mut found: Option<usize> = None;
            if let Some(cat) = &category {
                found = self.container_idx_by_category(cat.as_str());
            }
            if let Some(k) = found {
                let ghost pre = *self;
                match self.containers.get_mut(k) {
                    Some(c) => {
                        c.add_window(window);
                        proof {
                            let c2 = *final(c);
                            assert forall|h: isize|
                                #[trigger] windows_contain(c2.windows.elements@, h) implies windows_contain(
                                cs[k as int].windows.elements@,
                                h,
                            ) || Some(h) == Some(window.hwnd) by {
                                lemma_contain_push(cs[k as int].windows.elements@, window, h);
                            }
                            assert(windows_distinct(c2.windows.elements@)) by {
                                lemma_distinct_push(cs[k as int].windows.elements@, window);
                            }
                            lemma_cs_update(cs, k as int, c2, Some(window.hwnd));
                            assert(cs_disjoint_from(
                                self.containers.elements@,
                                self.floating_windows@,
                            )) by {
                                assert forall|k2: int|
                                    0 <= k2 < self.containers.elements@.len() implies windows_disjoint(
                                    #[trigger] self.containers.elements@[k2].windows.elements@,
                                    self.floating_windows@,
                                ) by {
                                    if k2 != k as int {
                                        assert(self.containers.elements@[k2] == cs[k2]);
                                        assert(windows_disjoint(
                                            cs[k2].windows.elements@,
                                            pre.floating_windows@,
                                        ));
                                    } else {
                                        assert forall|h: isize|
                                            !(#[trigger] windows_contain(
                                                self.containers.elements@[k2].windows.elements@,
                                                h,
                                            ) && #[trigger] windows_contain(
                                                self.floating_windows@,
                                                h,
                                            )) by {
                                            lemma_contain_push(
                                                cs[k as int].windows.elements@,
                                                window,
                                                h,
                                            );
                                            assert(windows_disjoint(
                                                cs[k as int].windows.elements@,
                                                pre.floating_windows@,
                                            ));
                                        }
                                    }
                                }
                            }
                            if self.monocle_container is Some {
                                let m = self.monocle_container->0;
                                assert forall|k2: int|
                                    0 <= k2 < self.containers.elements@.len() implies windows_disjoint(
                                    #[trigger] self.containers.elements@[k2].windows.elements@,
                                    m.windows.elements@,
                                ) by {
                                    if k2 != k as int {
                                        assert(self.containers.elements@[k2] == cs[k2]);
                                        assert(windows_disjoint(
                                            cs[k2].windows.elements@,
                                            m.windows.elements@,
                                        ));
                                    } else {
                                        assert forall|h: isize|
                                            !(#[trigger] windows_contain(
                                                self.containers.elements@[k2].windows.elements@,
                                                h,
                                            ) && #[trigger] windows_contain(
                                                m.windows.elements@,
                                                h,
                                            )) by {
                                            lemma_contain_push(
                                                cs[k as int].windows.elements@,
                                                window,
                                                h,
                                            );
                                            assert(windows_disjoint(
                                                cs[k as int].windows.elements@,
                                                m.windows.elements@,
                                            ));
                                        }
                                    }
                                }
                            }
                        }
                        return Ok(());
                    },
                    None => {},
                }
            }
        }
        let f = self.focused_container_idx();
        let len = self.containers.len();
        let next_idx = if f > len {
            len
        } else {
            f
        };
        let mut container = Container::new(wait_for_minimization);
        container.add_window(window);
        if let Some(cat) = category {
            container.add_category(cat);
        }
        proof {
            assert(container.windows.elements@ =~= seq![window]);
            assert forall|h: isize|
                #[trigger] windows_contain(container.windows.elements@, h) implies !self.spec_contains(
                h,
            ) by {
                assert(h == window.hwnd);
            }
        }
        self.insert_container_at_idx(next_idx, container);
        Ok(())
    }
}

impl Workspace {
    /// Removes the focused window from the focused container and places
    /// it anew, as a stacked or fresh container. The container count
    /// shrinks only when the source container emptied.
    pub fn new_container_for_focused_window(
        &mut self,
        state: &mut WindowState,
        behaviour: HidingBehaviour,
        stack_by_category: bool,
        category: Option<String>,
        wait_for_minimization: bool,
    ) -> (r: Result<Vec<OsAction>, WmError>)
        requires
            old(self).inv(),
        ensures
            final(self).inv(),
            final(state).maximized@ == old(state).maximized@,
            match r {
                Ok(actions) => ({
                    let cs = old(self).containers.elements@;
                    let f = old(self).containers.focused as int;
                    let w = cs[f].windows.elements@[cs[f].windows.focused as int];
                    exists|mid: Workspace, acts1: Seq<OsAction>|
                        {
                            &&& #[trigger] spec_took_focused(
                                *old(self),
                                mid,
                                w,
                                acts1,
                                old(state).hidden@,
                                final(state).hidden@,
                                behaviour,
                            )
                            &&& spec_placed_window(
                                mid,
                                *final(self),
                                w,
                                stack_by_category,
                                category,
                                wait_for_minimization,
                            )
                            &&& actions@ == acts1
                        }
                }),
                Err(e) => {
                    &&& (e == WmError::NoContainer || e == WmError::NoWindow)
                    &&& ({
                        let cs = old(self).containers.elements@;
                        let f = old(self).containers.focused as int;
                        &&& (e == WmError::NoContainer <==> f >= cs.len())
                        &&& (e == WmError::NoWindow ==> f < cs.len() && cs[f].windows.focused
                            >= cs[f].windows.elements@.len())
                    })
                    &&& *final(self) == *old(self)
                    &&& *final(state) == *old(state)
                },
            },
    {
        let taken = self.take_focused_window(state, behaviour);
        match taken {
            Ok((window, actions)) => {
                let ghost mid = *self;
                self.new_container_for_window(
                    window,
                    stack_by_category,
                    category,
                    wait_for_minimization,
                );
                proof {
                    let cs = old(self).containers.elements@;
                    let f = old(self).containers.focused as int;
                    let w = cs[f].windows.elements@[cs[f].windows.focused as int];
                    assert(w == window);
                    assert(spec_took_focused(
                        *old(self),
                        mid,
                        w,
                        actions@,
                        old(state).hidden@,
                        final(state).hidden@,
                        behaviour,
                    ));
                }
                Ok(actions)
            },
            Err(e) => Err(e),
        }
    }

    /// Moves the focused window to the container at `target_container_idx`.
    /// A source container emptied by the removal is pruned, and the
    /// target index is decremented when the pruned position preceded it;
    /// the window is appended to the target container, which becomes
    /// focused and reloads.
    pub fn move_window_to_container(
        &mut self,
        target_container_idx: usize,
        state: &mut WindowState,
        behaviour: HidingBehaviour,
    ) -> (r: Result<Vec<OsAction>, WmError>)
        requires
            old(self).inv(),
        ensures
            final(self).inv(),
            final(state).maximized@ == old(state).maximized@,
            ({
                let cs = old(self).containers.elements@;
                let f = old(self).containers.focused as int;
                let n = cs.len() as int;
                let fvalid = f < n;
                let wfvalid = fvalid && cs[f].windows.focused < cs[f].windows.elements@.len();
                let pruned = wfvalid && cs[f].windows.elements@.len() == 1;
                let adjusted = if pruned && f < target_container_idx {
                    target_container_idx - 1
                } else {
                    target_container_idx as int
                };
                let newlen = if pruned {
                    n - 1
                } else {
                    n
                };
                match r {
                    Ok(actions) => ({
                        let w = cs[f].windows.elements@[cs[f].windows.focused as int];
                        &&& wfvalid
                        &&& adjusted < newlen
                        &&& exists|mid: Workspace, acts1: Seq<OsAction>, h1: Seq<isize>|
                            {
                                &&& #[trigger] spec_took_focused(
                                    *old(self),
                                    mid,
                                    w,
                                    acts1,
                                    old(state).hidden@,
                                    h1,
                                    behaviour,
                                )
                                &&& ({
                                    let tgt = final(self).containers.elements@[adjusted];
                                    &&& final(self).containers.elements@
                                        == mid.containers.elements@.update(adjusted, tgt)
                                    &&& tgt.windows.elements@
                                        == mid.containers.elements@[adjusted].windows.elements@.push(
                                        w,
                                    )
                                    &&& tgt.windows.focused
                                        == mid.containers.elements@[adjusted].windows.elements@.len()
                                    &&& tgt.id == mid.containers.elements@[adjusted].id
                                    &&& tgt.categories
                                        == mid.containers.elements@[adjusted].categories
                                    &&& tgt.wait_for_minimization
                                        == mid.containers.elements@[adjusted].wait_for_minimization
                                    &&& final(self).containers.focused == adjusted
                                    &&& *final(self) == (Workspace {
                                        containers: final(self).containers,
                                        ..mid
                                    })
                                    &&& actions@ == acts1 + crate::container::spec_load_actions(
                                        tgt,
                                        behaviour,
                                    )
                                    &&& final(state).hidden@
                                        == crate::container::spec_load_hidden(h1, tgt)
                                })
                            }
                    }),
                    Err(e) => {
                        &&& (e == WmError::NoContainer <==> (!fvalid || (wfvalid && adjusted
                            >= newlen)))
                        &&& (e == WmError::NoWindow <==> (fvalid && !wfvalid))
                        &&& *final(self) == *old(self)
                        &&& *final(state) == *old(state)
                    },
                }
            }),
            r is Err <==> ({
                let cs = old(self).containers.elements@;
                let f = old(self).containers.focused as int;
                let n = cs.len() as int;
                let fvalid = f < n;
                let wfvalid = fvalid && cs[f].windows.focused < cs[f].windows.elements@.len();
                let pruned = wfvalid && cs[f].windows.elements@.len() == 1;
                let adjusted = if pruned && f < target_container_idx {
                    target_container_idx - 1
                } else {
                    target_container_idx as int
                };
                let newlen = if pruned {
                    n - 1
                } else {
                    n
                };
                !wfvalid || adjusted >= newlen
            }),
    {
        let f = self.focused_container_idx();
        let n = self.containers.len();
        if f >= n {
            return Err(WmError::NoContainer);
        }
        let (wf_ok, pruned) = match self.containers.get(f) {
            Some(c) => (
                c.focused_window_idx() < c.windows().len(),
                c.focused_window_idx() < c.windows().len() && c.windows().len() == 1,
            ),
            None => (false, false),
        };
        if !wf_ok {
            return Err(WmError::NoWindow);
        }
        let adjusted = if pruned && f < target_container_idx {
            target_container_idx - 1
        } else {
            target_container_idx
        };
        let newlen = if pruned {
            n - 1
        } else {
            n
        };
        if adjusted >= newlen {
            return Err(WmError::NoContainer);
        }
        let taken = self.take_focused_window(state, behaviour);
        let (window, acts1) = match taken {
            Ok(pair) => pair,
            Err(e) => {
                return Err(e);
            },
        };
        let ghost mid = *self;
        let ghost h1 = state.hidden@;
        let mut actions = acts1;
        match self.containers.get_mut(adjusted) {
            Some(c) => {
                c.add_window(window);
                proof {
                    let c2 = *final(c);
                    let cs1 = mid.containers.elements@;
                    assert forall|h: isize|
                        #[trigger] windows_contain(c2.windows.elements@, h) implies windows_contain(
                        cs1[adjusted as int].windows.elements@,
                        h,
                    ) || Some(h) == Some(window.hwnd) by {
                        lemma_contain_push(cs1[adjusted as int].windows.elements@, window, h);
                    }
                    assert(windows_distinct(c2.windows.elements@)) by {
                        lemma_distinct_push(cs1[adjusted as int].windows.elements@, window);
                    }
                    lemma_cs_update(cs1, adjusted as int, c2, Some(window.hwnd));
                    assert(cs_disjoint_from(self.containers.elements@, self.floating_windows@))
                        by {
                        assert forall|k2: int|
                            0 <= k2 < self.containers.elements@.len() implies windows_disjoint(
                            #[trigger] self.containers.elements@[k2].windows.elements@,
                            self.floating_windows@,
                        ) by {
                            if k2 != adjusted as int {
                                assert(self.containers.elements@[k2] == cs1[k2]);
                            } else {
                                assert forall|h: isize|
                                    !(#[trigger] windows_contain(
                                        self.containers.elements@[k2].windows.elements@,
                                        h,
                                    ) && #[trigger] windows_contain(self.floating_windows@, h))
                                    by {
                                    lemma_contain_push(
                                        cs1[adjusted as int].windows.elements@,
                                        window,
                                        h,
                                    );
                                    assert(windows_disjoint(
                                        cs1[adjusted as int].windows.elements@,
                                        self.floating_windows@,
                                    ));
                                }
                            }
                        }
                    }
                    if self.monocle_container is Some {
                        let m = self.monocle_container->0;
                        assert forall|k2: int|
                            0 <= k2 < self.containers.elements@.len() implies windows_disjoint(
                            #[trigger] self.containers.elements@[k2].windows.elements@,
                            m.windows.elements@,
                        ) by {
                            if k2 != adjusted as int {
                                assert(self.containers.elements@[k2] == cs1[k2]);
                            } else {
                                assert forall|h: isize|
                                    !(#[trigger] windows_contain(
                                        self.containers.elements@[k2].windows.elements@,
                                        h,
                                    ) && #[trigger] windows_contain(m.windows.elements@, h)) by {
                                    lemma_contain_push(
                                        cs1[adjusted as int].windows.elements@,
                                        window,
                                        h,
                                    );
                                    assert(windows_disjoint(
                                        cs1[adjusted as int].windows.elements@,
                                        m.windows.elements@,
                                    ));
                                }
                            }
                        }
                    }
                }
            },
            None => {},
        }
        self.focus_container(adjusted);
        let mut acts2: Vec<OsAction> = Vec::new();
        match self.containers.get(adjusted) {
            Some(c) => {
                acts2 = c.load_focused_window(state, behaviour);
            },
            None => {},
        }
        actions.append(&mut acts2);
        proof {
            let cs = old(self).containers.elements@;
            let fi = old(self).containers.focused as int;
            let w = cs[fi].windows.elements@[cs[fi].windows.focused as int];
            assert(w == window);
            assert(spec_took_focused(
                *old(self),
                mid,
                w,
                acts1@,
                old(state).hidden@,
                h1,
                behaviour,
            ));
        }
        Ok(actions)
    }
}

impl Workspace {
    /// Moves the focused container, with its resize override, to the
    /// layout's designated primary position: index zero for the built-in
    /// layouts, the designated container index for custom layouts.
    pub fn promote_container(&mut self) -> (r: Result<(), WmError>)
        requires
            old(self).inv(),
            match old(self).layout {
                Layout::Custom(cl) => match cl.primary_container_idx {
                    Some(p) => old(self).containers.elements@.len() == 0 || p < old(self).containers.elements@.len(),
                    None => true,
                },
                _ => true,
            },
        ensures
            final(self).inv(),
            match r {
                Ok(()) => ({
                    let cs = old(self).containers.elements@;
                    let f = old(self).containers.focused as int;
                    let primary = match old(self).layout {
                        Layout::Custom(cl) => cl.primary_container_idx->0 as int,
                        _ => 0int,
                    };
                    &&& f < cs.len()
                    &&& final(self).containers.elements@ == cs.remove(f).insert(primary, cs[f])
                    &&& final(self).resize_dimensions@ == old(self).resize_dimensions@.remove(
                        f,
                    ).insert(primary, old(self).resize_dimensions@[f])
                    &&& final(self).containers.focused == primary
                    &&& *final(self) == (Workspace {
                        containers: final(self).containers,
                        resize_dimensions: final(self).resize_dimensions,
                        ..*old(self)
                    })
                }),
                Err(e) => {
                    &&& ({
                        let cs = old(self).containers.elements@;
                        let f = old(self).containers.focused as int;
                        &&& (e == WmError::NoContainer <==> f >= cs.len())
                        &&& (e == WmError::NoPrimaryColumn <==> f < cs.len() && (old(self).layout matches Layout::Custom(cl)
                            && cl.primary_container_idx is None))
                    })
                    &&& *final(self) == *old(self)
                },
            },
    {
        let f = self.focused_container_idx();
        let n = self.containers.len();
        if f >= n {
            return Err(WmError::NoContainer);
        }
        let primary = match &self.layout {
            Layout::Default(_) => 0,
            Layout::Custom(cl) => match cl.primary_container_idx {
                Some(p) => p,
                None => {
                    return Err(WmError::NoPrimaryColumn);
                },
            },
        };
        let ghost cs = self.containers.elements@;
        let resize = self.resize_dimensions.remove(f);
        let container = match self.containers.remove(f) {
            Some(c) => c,
            None => {
                return Err(WmError::NoContainer);
            },
        };
        proof {
            lemma_cs_remove(cs, f as int);
            assert forall|h: isize|
                #[trigger] windows_contain(container.windows.elements@, h) implies !cs_contain(
                self.containers.elements@,
                h,
            ) by {
                if cs_contain(self.containers.elements@, h) {
                    let k = choose|k: int|
                        0 <= k < self.containers.elements@.len() && windows_contain(
                            self.containers.elements@[k].windows.elements@,
                            h,
                        );
                    let sk = if k < f as int {
                        k
                    } else {
                        k + 1
                    };
                    assert(self.containers.elements@[k] == cs[sk]);
                    assert(windows_disjoint(
                        cs[if sk < f as int {
                            sk
                        } else {
                            f as int
                        }].windows.elements@,
                        cs[if sk < f as int {
                            f as int
                        } else {
                            sk
                        }].windows.elements@,
                    ));
                }
            }
            lemma_cs_insert(self.containers.elements@, primary as int, container);
        }
        self.containers.insert(primary, container);
        self.resize_dimensions.insert(primary, resize);
        self.focus_container(primary);
        proof {
            let fin_cs = self.containers.elements@;
            assert forall|k: int| 0 <= k < fin_cs.len() implies windows_disjoint(
                #[trigger] fin_cs[k].windows.elements@,
                self.floating_windows@,
            ) by {
                assert(fin_cs == cs.remove(f as int).insert(primary as int, cs[f as int]));
                assert forall|h: isize| !(#[trigger] windows_contain(fin_cs[k].windows.elements@, h)
                    && #[trigger] windows_contain(self.floating_windows@, h)) by {
                    if windows_contain(fin_cs[k].windows.elements@, h) {
                        assert(cs_contain(fin_cs, h)) by {
                            assert(windows_contain(fin_cs[k].windows.elements@, h));
                        }
                        assert(cs_contain(cs, h)) by {
                            if windows_contain(cs[f as int].windows.elements@, h) {
                            } else {
                                let k2 = choose|k2: int|
                                    0 <= k2 < fin_cs.len() && windows_contain(
                                        fin_cs[k2].windows.elements@,
                                        h,
                                    );
                            }
                        }
                        let k3 = choose|k3: int|
                            0 <= k3 < cs.len() && windows_contain(cs[k3].windows.elements@, h);
                        assert(windows_disjoint(cs[k3].windows.elements@, self.floating_windows@));
                    }
                }
            }
            if self.monocle_container is Some {
                let m = self.monocle_container->0;
                assert forall|k: int| 0 <= k < fin_cs.len() implies windows_disjoint(
                    #[trigger] fin_cs[k].windows.elements@,
                    m.windows.elements@,
                ) by {
                    assert forall|h: isize|
                        !(#[trigger] windows_contain(fin_cs[k].windows.elements@, h)
                            && #[trigger] windows_contain(m.windows.elements@, h)) by {
                        if windows_contain(fin_cs[k].windows.elements@, h) {
                            assert(cs_contain(fin_cs, h)) by {
                                assert(windows_contain(fin_cs[k].windows.elements@, h));
                            }
                            let k3 = choose|k3: int|
                                0 <= k3 < cs.len() && windows_contain(cs[k3].windows.elements@, h);
                            assert(windows_disjoint(cs[k3].windows.elements@, m.windows.elements@));
                        }
                    }
                }
            }
        }
        Ok(())
    }
}

impl Workspace {
    /// Removes the window with handle `hwnd`, looking in the floating
    /// list, the monocle container, and the tiled containers, in that
    /// priority order. An emptied tiled container is pruned with its
    /// resize slot and focus falls back to the previous container; an
    /// emptied monocle container is dissolved; a surviving tiled
    /// container reloads its focused window.
    pub fn remove_window(&mut self, hwnd: isize, state: &mut WindowState, behaviour: HidingBehaviour)
        -> (r: Result<Vec<OsAction>, WmError>)
        requires
            old(self).inv(),
        ensures
            final(self).inv(),
            final(state).maximized@ == old(state).maximized@,
            forall|g: isize|
                g != hwnd ==> {
                    &&& #[trigger] final(self).tiled_contains(g) == old(self).tiled_contains(g)
                    &&& final(self).monocle_contains(g) == old(self).monocle_contains(g)
                    &&& final(self).floating_contains(g) == old(self).floating_contains(g)
                },
            match r {
                Ok(actions) => {
                    &&& old(self).spec_contains(hwnd)
                    &&& !final(self).spec_contains(hwnd)
                    &&& if old(self).floating_contains(hwnd) {
                        &&& exists|i: int|
                            0 <= i < old(self).floating_windows@.len() && old(self).floating_windows@[i].hwnd == hwnd && final(self).floating_windows@
                                == old(self).floating_windows@.remove(i)
                        &&& *final(self) == (Workspace {
                            floating_windows: final(self).floating_windows,
                            ..*old(self)
                        })
                        &&& actions@ == Seq::<OsAction>::empty()
                        &&& *final(state) == *old(state)
                    } else if old(self).monocle_contains(hwnd) {
                        let m = old(self).monocle_container->0;
                        &&& *final(self) == (Workspace {
                            monocle_container: final(self).monocle_container,
                            monocle_container_restore_idx: final(self).monocle_container_restore_idx,
                            monocle_resize_dimension: final(self).monocle_resize_dimension,
                            ..*old(self)
                        })
                        &&& if m.windows.elements@.len() == 1 {
                            &&& final(self).monocle_container is None
                            &&& final(self).monocle_container_restore_idx is None
                            &&& final(self).monocle_resize_dimension is None
                        } else {
                            let m2 = final(self).monocle_container->0;
                            &&& final(self).monocle_container is Some
                            &&& final(self).monocle_container_restore_idx == old(self).monocle_container_restore_idx
                            &&& final(self).monocle_resize_dimension == old(self).monocle_resize_dimension
                            &&& exists|wi: int|
                                0 <= wi < m.windows.elements@.len() && m.windows.elements@[wi].hwnd
                                    == hwnd && m2.windows.elements@ == m.windows.elements@.remove(
                                    wi,
                                ) && m2.windows.focused == (if wi != 0 {
                                    wi - 1
                                } else {
                                    m.windows.focused as int
                                })
                            &&& m2.id == m.id
                        }
                        &&& actions@ == Seq::<OsAction>::empty()
                        &&& *final(state) == *old(state)
                    } else {
                        let cs = old(self).containers.elements@;
                        exists|k: int|
                            {
                                &&& #[trigger] last_container_occurrence(cs, hwnd, k)
                                &&& *final(self) == (Workspace {
                                    containers: final(self).containers,
                                    resize_dimensions: final(self).resize_dimensions,
                                    ..*old(self)
                                })
                                &&& if cs[k].windows.elements@.len() == 1 {
                                    &&& final(self).containers.elements@ == cs.remove(k)
                                    &&& final(self).resize_dimensions@ == old(self).resize_dimensions@.remove(k)
                                    &&& final(self).containers.focused == (if old(self).containers.focused != 0 {
                                        (old(self).containers.focused - 1) as usize
                                    } else {
                                        0usize
                                    })
                                    &&& actions@ == Seq::<OsAction>::empty()
                                    &&& *final(state) == *old(state)
                                } else {
                                    let c2 = final(self).containers.elements@[k];
                                    &&& final(self).containers.elements@ == cs.update(k, c2)
                                    &&& final(self).resize_dimensions@ == old(self).resize_dimensions@
                                    &&& final(self).containers.focused == old(self).containers.focused
                                    &&& exists|wi: int|
                                        0 <= wi < cs[k].windows.elements@.len()
                                            && cs[k].windows.elements@[wi].hwnd == hwnd
                                            && c2.windows.elements@
                                            == cs[k].windows.elements@.remove(wi)
                                            && c2.windows.focused == (if wi != 0 {
                                            wi - 1
                                        } else {
                                            cs[k].windows.focused as int
                                        })
                                    &&& c2.id == cs[k].id
                                    &&& actions@ == crate::container::spec_load_actions(
                                        c2,
                                        behaviour,
                                    )
                                    &&& final(state).hidden@
                                        == crate::container::spec_load_hidden(
                                        old(state).hidden@,
                                        c2,
                                    )
                                }
                            }
                    }
                },
                Err(e) => {
                    &&& e == WmError::NoWindow
                    &&& !old(self).spec_contains(hwnd)
                    &&& *final(self) == *old(self)
                    &&& *final(state) == *old(state)
                },
            },
    {
        let ghost fl0 = self.floating_windows@;
        // Floating windows first.
        let n_float = self.floating_windows.len();
        let mut i: usize = 0;
        while i < n_float
            invariant
                n_float == self.floating_windows@.len(),
                i <= n_float,
                self == old(self),
                old(self).inv(),
                fl0 == self.floating_windows@,
                forall|j: int| 0 <= j < i ==> self.floating_windows@[j].hwnd != hwnd,
            decreases n_float - i,
        {
            if self.floating_windows[i].hwnd == hwnd {
                self.floating_windows.remove(i);
                proof {
                    assert(windows_contain(fl0, hwnd)) by {
                        assert(fl0[i as int].hwnd == hwnd);
                    }
                    lemma_distinct_remove_gone(fl0, i as int);
                    lemma_distinct_remove(fl0, i as int);
                    assert forall|k: int|
                        0 <= k < self.containers.elements@.len() implies windows_disjoint(
                        #[trigger] self.containers.elements@[k].windows.elements@,
                        self.floating_windows@,
                    ) by {
                        assert forall|h: isize|
                            !(#[trigger] windows_contain(
                                self.containers.elements@[k].windows.elements@,
                                h,
                            ) && #[trigger] windows_contain(self.floating_windows@, h)) by {
                            lemma_contain_remove(fl0, i as int, h);
                            assert(windows_disjoint(
                                self.containers.elements@[k].windows.elements@,
                                fl0,
                            ));
                        }
                    }
                    if self.monocle_container is Some {
                        let m = self.monocle_container->0;
                        assert forall|h: isize|
                            !(#[trigger] windows_contain(m.windows.elements@, h)
                                && #[trigger] windows_contain(self.floating_windows@, h)) by {
                            lemma_contain_remove(fl0, i as int, h);
                            assert(windows_disjoint(m.windows.elements@, fl0));
                        }
                    }
                    assert forall|g: isize| g != hwnd implies #[trigger] windows_contain(
                        self.floating_windows@,
                        g,
                    ) == windows_contain(fl0, g) by {
                        lemma_contain_remove(fl0, i as int, g);
                        if windows_contain(fl0, g) {
                            let j = choose|j: int| 0 <= j < fl0.len() && fl0[j].hwnd == g;
                            if j < i as int {
                                assert(self.floating_windows@[j].hwnd == g);
                            } else {
                                assert(self.floating_windows@[j - 1].hwnd == g);
                            }
                        }
                    }
                }
                return Ok(Vec::new());
            }
            i = i + 1;
        }
        proof {
            assert(!windows_contain(fl0, hwnd));
        }
        // The monocle container next.
        if self.monocle_container.is_some() {
            let mono = self.monocle_container.take();
            let mut m = match mono {
                Some(m) => m,
                None => {
                    return Err(WmError::NoWindow);
                },
            };
            let ghost m0 = m;
            if m.contains_window(hwnd) {
                let widx = match m.idx_for_window(hwnd) {
                    Some(w) => w,
                    None => {
                        self.monocle_container = Some(m);
                        return Err(WmError::NoWindow);
                    },
                };
                m.remove_window_by_idx(widx);
                proof {
                    lemma_distinct_remove_gone(m0.windows.elements@, widx as int);
                    lemma_distinct_remove(m0.windows.elements@, widx as int);
                }
                if m.windows().len() == 0 {
                    self.monocle_container_restore_idx = None;
                    self.monocle_resize_dimension = None;
                } else {
                    self.monocle_container = Some(m);
                    proof {
                        let m2 = self.monocle_container->0;
                        assert forall|k: int|
                            0 <= k < self.containers.elements@.len() implies windows_disjoint(
                            #[trigger] self.containers.elements@[k].windows.elements@,
                            m2.windows.elements@,
                        ) by {
                            assert forall|h: isize|
                                !(#[trigger] windows_contain(
                                    self.containers.elements@[k].windows.elements@,
                                    h,
                                ) && #[trigger] windows_contain(m2.windows.elements@, h)) by {
                                lemma_contain_remove(m0.windows.elements@, widx as int, h);
                                assert(windows_disjoint(
                                    self.containers.elements@[k].windows.elements@,
                                    m0.windows.elements@,
                                ));
                            }
                        }
                        assert forall|h: isize|
                            !(#[trigger] windows_contain(m2.windows.elements@, h)
                                && #[trigger] windows_contain(self.floating_windows@, h)) by {
                            lemma_contain_remove(m0.windows.elements@, widx as int, h);
                            assert(windows_disjoint(m0.windows.elements@, self.floating_windows@));
                        }
                        assert forall|g: isize| g != hwnd implies #[trigger] windows_contain(
                            m2.windows.elements@,
                            g,
                        ) == windows_contain(m0.windows.elements@, g) by {
                            lemma_contain_remove(m0.windows.elements@, widx as int, g);
                            if windows_contain(m0.windows.elements@, g) {
                                let j = choose|j: int|
                                    0 <= j < m0.windows.elements@.len()
                                        && m0.windows.elements@[j].hwnd == g;
                                if j < widx as int {
                                    assert(m2.windows.elements@[j].hwnd == g);
                                } else {
                                    assert(m2.windows.elements@[j - 1].hwnd == g);
                                }
                            }
                        }
                    }
                }
                return Ok(Vec::new());
            }
            self.monocle_container = Some(m);
        }
        // Finally the tiled containers.
        let container_idx = match self.container_idx_for_window(hwnd) {
            Some(k) => k,
            None => {
                return Err(WmError::NoWindow);
            },
        };
        let ghost cs = self.containers.elements@;
        let is_single = match self.containers.get(container_idx) {
            Some(c) => c.windows().len() == 1,
            None => false,
        };
        if is_single {
            let removed = self.remove_container_by_idx(container_idx);
            self.focus_previous_container();
            proof {
                lemma_cs_remove(cs, container_idx as int);
                assert(!cs_contain(self.containers.elements@, hwnd)) by {
                    if cs_contain(self.containers.elements@, hwnd) {
                        let k = choose|k: int|
                            0 <= k < self.containers.elements@.len() && windows_contain(
                                self.containers.elements@[k].windows.elements@,
                                hwnd,
                            );
                        let sk = if k < container_idx as int {
                            k
                        } else {
                            k + 1
                        };
                        assert(self.containers.elements@[k] == cs[sk]);
                        assert(last_container_occurrence(cs, hwnd, container_idx as int));
                        if sk > container_idx as int {
                        } else {
                            assert(cs[container_idx as int].windows.elements@.len() == 1);
                            assert(cs[container_idx as int].windows.elements@[0].hwnd == hwnd);
                            assert(windows_disjoint(
                                cs[sk].windows.elements@,
                                cs[container_idx as int].windows.elements@,
                            ));
                        }
                    }
                }
                assert forall|g: isize| g != hwnd implies #[trigger] cs_contain(
                    self.containers.elements@,
                    g,
                ) == cs_contain(cs, g) by {
                    if cs_contain(cs, g) {
                        let k = choose|k: int|
                            0 <= k < cs.len() && windows_contain(cs[k].windows.elements@, g);
                        if k == container_idx as int {
                            assert(cs[k].windows.elements@.len() == 1);
                            assert(cs[k].windows.elements@[0].hwnd == hwnd);
                            let j = choose|j: int|
                                0 <= j < cs[k].windows.elements@.len()
                                    && cs[k].windows.elements@[j].hwnd == g;
                            assert(false);
                        } else {
                            let nk = if k < container_idx as int {
                                k
                            } else {
                                k - 1
                            };
                            assert(self.containers.elements@[nk] == cs[k]);
                            assert(windows_contain(
                                self.containers.elements@[nk].windows.elements@,
                                g,
                            ));
                        }
                    }
                }
            }
            return Ok(Vec::new());
        }
        let mut actions: Vec<OsAction> = Vec::new();
        let mut removed_ok = false;
        match self.containers.get_mut(container_idx) {
            Some(c) => {
                let widx = match c.idx_for_window(hwnd) {
                    Some(w) => w,
                    None => {
                        return Err(WmError::NoWindow);
                    },
                };
                c.remove_window_by_idx(widx);
                removed_ok = true;
                proof {
                    let c2 = *final(c);
                    let cw = cs[container_idx as int].windows.elements@;
                    lemma_distinct_remove_gone(cw, widx as int);
                    lemma_distinct_remove(cw, widx as int);
                    assert forall|h: isize|
                        #[trigger] windows_contain(c2.windows.elements@, h) implies windows_contain(
                        cw,
                        h,
                    ) by {
                        lemma_contain_remove(cw, widx as int, h);
                    }
                    lemma_cs_update(cs, container_idx as int, c2, None);
                }
            },
            None => {},
        }
        if !removed_ok {
            return Err(WmError::NoWindow);
        }
        proof {
            let c2 = self.containers.elements@[container_idx as int];
            let cw = cs[container_idx as int].windows.elements@;
            let widx = choose|wi: int|
                0 <= wi < cw.len() && cw[wi].hwnd == hwnd && c2.windows.elements@ == cw.remove(wi);
            assert(!cs_contain(self.containers.elements@, hwnd)) by {
                if cs_contain(self.containers.elements@, hwnd) {
                    let k = choose|k: int|
                        0 <= k < self.containers.elements@.len() && windows_contain(
                            self.containers.elements@[k].windows.elements@,
                            hwnd,
                        );
                    if k == container_idx as int {
                    } else {
                        assert(self.containers.elements@[k] == cs[k]);
                        assert(last_container_occurrence(cs, hwnd, container_idx as int));
                        if k > container_idx as int {
                        } else {
                            assert(windows_contain(cw, hwnd));
                            assert(windows_disjoint(
                                cs[k].windows.elements@,
                                cs[container_idx as int].windows.elements@,
                            ));
                        }
                    }
                }
            }
            assert forall|g: isize| g != hwnd implies #[trigger] cs_contain(
                self.containers.elements@,
                g,
            ) == cs_contain(cs, g) by {
                if cs_contain(cs, g) {
                    let k = choose|k: int|
                        0 <= k < cs.len() && windows_contain(cs[k].windows.elements@, g);
                    if k == container_idx as int {
                        let j = choose|j: int| 0 <= j < cw.len() && cw[j].hwnd == g;
                        if j < widx {
                            assert(self.containers.elements@[k].windows.elements@[j].hwnd == g);
                        } else {
                            assert(self.containers.elements@[k].windows.elements@[j - 1].hwnd
                                == g);
                        }
                        assert(windows_contain(self.containers.elements@[k].windows.elements@, g));
                    } else {
                        assert(self.containers.elements@[k] == cs[k]);
                        assert(windows_contain(self.containers.elements@[k].windows.elements@, g));
                    }
                }
                if cs_contain(self.containers.elements@, g) {
                    let k = choose|k: int|
                        0 <= k < self.containers.elements@.len() && windows_contain(
                            self.containers.elements@[k].windows.elements@,
                            g,
                        );
                    if k == container_idx as int {
                        lemma_contain_remove(cw, widx, g);
                        assert(windows_contain(cs[k].windows.elements@, g));
                    } else {
                        assert(self.containers.elements@[k] == cs[k]);
                    }
                }
            }
        }
        match self.containers.get(container_idx) {
            Some(c) => {
                actions = c.load_focused_window(state, behaviour);
            },
            None => {},
        }
        Ok(actions)
    }
}

impl Workspace {
    /// Moves the focused container out of the tiled set to become the
    /// monocle container, remembering its position and carrying its
    /// resize override so reintegration restores its prior size. Focus
    /// falls back to the previous container, and the monocle container
    /// loads its focused window.
    pub fn new_monocle_container(&mut self, state: &mut WindowState, behaviour: HidingBehaviour)
        -> (r: Result<Vec<OsAction>, WmError>)
        requires
            old(self).inv(),
        ensures
            final(self).inv(),
            final(state).maximized@ == old(state).maximized@,
            match r {
                Ok(actions) => ({
                    let cs = old(self).containers.elements@;
                    let f = old(self).containers.focused as int;
                    &&& f < cs.len()
                    &&& final(self).containers.elements@ == cs.remove(f)
                    &&& final(self).resize_dimensions@ == old(self).resize_dimensions@.remove(f)
                    &&& final(self).monocle_container == Some(cs[f])
                    &&& final(self).monocle_container_restore_idx == Some(f as usize)
                    &&& final(self).monocle_resize_dimension == old(self).resize_dimensions@[f]
                    &&& final(self).containers.focused == (if f != 0 {
                        f - 1
                    } else {
                        0int
                    })
                    &&& *final(self) == (Workspace {
                        containers: final(self).containers,
                        resize_dimensions: final(self).resize_dimensions,
                        monocle_container: final(self).monocle_container,
                        monocle_container_restore_idx: final(self).monocle_container_restore_idx,
                        monocle_resize_dimension: final(self).monocle_resize_dimension,
                        ..*old(self)
                    })
                    &&& actions@ == crate::container::spec_load_actions(cs[f], behaviour)
                    &&& final(state).hidden@ == crate::container::spec_load_hidden(
                        old(state).hidden@,
                        cs[f],
                    )
                }),
                Err(e) => {
                    &&& e == WmError::NoContainer
                    &&& old(self).containers.focused >= old(self).containers.elements@.len()
                    &&& *final(self) == *old(self)
                    &&& *final(state) == *old(state)
                },
            },
    {
        let f = self.focused_container_idx();
        let n = self.containers.len();
        if f >= n {
            return Err(WmError::NoContainer);
        }
        let ghost cs = self.containers.elements@;
        let saved = self.resize_dimensions.remove(f);
        let container = match self.containers.remove(f) {
            Some(c) => c,
            None => {
                return Err(WmError::NoContainer);
            },
        };
        proof {
            lemma_cs_remove(cs, f as int);
            assert forall|k: int|
                0 <= k < self.containers.elements@.len() implies windows_disjoint(
                #[trigger] self.containers.elements@[k].windows.elements@,
                container.windows.elements@,
            ) by {
                let sk = if k < f as int {
                    k
                } else {
                    k + 1
                };
                assert(self.containers.elements@[k] == cs[sk]);
                assert forall|h: isize|
                    !(#[trigger] windows_contain(self.containers.elements@[k].windows.elements@, h)
                        && #[trigger] windows_contain(container.windows.elements@, h)) by {
                    assert(windows_disjoint(
                        cs[if sk < f as int {
                            sk
                        } else {
                            f as int
                        }].windows.elements@,
                        cs[if sk < f as int {
                            f as int
                        } else {
                            sk
                        }].windows.elements@,
                    ));
                }
            }
        }
        let actions = container.load_focused_window(state, behaviour);
        self.monocle_container = Some(container);
        self.monocle_container_restore_idx = Some(f);
        self.monocle_resize_dimension = saved;
        self.focus_previous_container();
        Ok(actions)
    }

    /// Reinserts the monocle container at its remembered position,
    /// padding the ring (and the resize overrides) with fresh empty
    /// containers when it has shrunk below that index, restores its
    /// resize override, focuses it, and loads its focused window.
    pub fn reintegrate_monocle_container(
        &mut self,
        state: &mut WindowState,
        behaviour: HidingBehaviour,
    ) -> (r: Result<Vec<OsAction>, WmError>)
        requires
            old(self).inv(),
        ensures
            final(self).inv(),
            final(state).maximized@ == old(state).maximized@,
            match r {
                Ok(actions) => ({
                    let cs = old(self).containers.elements@;
                    let n = cs.len() as int;
                    let m = old(self).monocle_container->0;
                    let ri = old(self).monocle_container_restore_idx->0 as int;
                    &&& old(self).monocle_container is Some
                    &&& final(self).monocle_container is None
                    &&& final(self).monocle_container_restore_idx is None
                    &&& final(self).monocle_resize_dimension is None
                    &&& final(self).containers.focused == ri
                    &&& *final(self) == (Workspace {
                        containers: final(self).containers,
                        resize_dimensions: final(self).resize_dimensions,
                        monocle_container: final(self).monocle_container,
                        monocle_container_restore_idx: final(self).monocle_container_restore_idx,
                        monocle_resize_dimension: final(self).monocle_resize_dimension,
                        ..*old(self)
                    })
                    &&& if ri <= n {
                        &&& final(self).containers.elements@ == cs.insert(ri, m)
                        &&& final(self).resize_dimensions@ == old(self).resize_dimensions@.insert(
                            ri,
                            old(self).monocle_resize_dimension,
                        )
                    } else {
                        &&& final(self).containers.elements@.len() == ri + 1
                        &&& final(self).resize_dimensions@.len() == ri + 1
                        &&& forall|k: int|
                            0 <= k < n ==> final(self).containers.elements@[k] == cs[k]
                        &&& forall|k: int|
                            n <= k < ri ==> (#[trigger] final(self).containers.elements@[k]).windows.elements@.len() == 0
                        &&& final(self).containers.elements@[ri] == m
                        &&& forall|k: int|
                            0 <= k < n ==> final(self).resize_dimensions@[k] == old(self).resize_dimensions@[k]
                        &&& forall|k: int|
                            n <= k < ri ==> final(self).resize_dimensions@[k] is None
                        &&& final(self).resize_dimensions@[ri] == old(self).monocle_resize_dimension
                    }
                    &&& actions@ == crate::container::spec_load_actions(m, behaviour)
                    &&& final(state).hidden@ == crate::container::spec_load_hidden(
                        old(state).hidden@,
                        m,
                    )
                }),
                Err(e) => {
                    &&& e == WmError::NoMonocleRestoreIndex
                    &&& old(self).monocle_container is None
                    &&& *final(self) == *old(self)
                    &&& *final(state) == *old(state)
                },
            },
    {
        let restore_idx = match self.monocle_container_restore_idx {
            Some(ri) => ri,
            None => {
                return Err(WmError::NoMonocleRestoreIndex);
            },
        };
        let mono = self.monocle_container.take();
        let container = match mono {
            Some(m) => m,
            None => {
                self.monocle_container_restore_idx = Some(restore_idx);
                return Err(WmError::NoMonocleRestoreIndex);
            },
        };
        let ghost cs = self.containers.elements@;
        let ghost n0 = self.containers.elements@.len();
        // Pad the ring with fresh empty containers when it has shrunk
        // below the restore index.
        while self.containers.len() < restore_idx
            invariant
                old(self).inv(),
                self.containers.elements@.len() >= n0,
                self.containers.elements@.len() <= restore_idx || self.containers.elements@.len()
                    == n0,
                self.resize_dimensions@.len() == self.containers.elements@.len(),
                forall|k: int| 0 <= k < n0 ==> self.containers.elements@[k] == cs[k],
                forall|k: int|
                    n0 <= k < self.containers.elements@.len() ==> (#[trigger] self.containers.elements@[k]).windows.elements@.len() == 0,
                forall|k: int|
                    0 <= k < n0 ==> self.resize_dimensions@[k] == old(self).resize_dimensions@[k],
                forall|k: int|
                    n0 <= k < self.resize_dimensions@.len() ==> self.resize_dimensions@[k] is None,
                cs_distinct(self.containers.elements@),
                containers_disjoint(self.containers.elements@),
                cs_disjoint_from(self.containers.elements@, self.floating_windows@),
                forall|b: Seq<Window>|
                    cs_disjoint_from(cs, b) ==> #[trigger] cs_disjoint_from(
                        self.containers.elements@,
                        b,
                    ),
                cs == old(self).containers.elements@,
                n0 == cs.len(),
                self.containers.focused == old(self).containers.focused,
                self.floating_windows == old(self).floating_windows,
                self.monocle_container is None,
                self.monocle_container_restore_idx == old(self).monocle_container_restore_idx,
                self.monocle_resize_dimension == old(self).monocle_resize_dimension,
                *self == (Workspace {
                    containers: self.containers,
                    resize_dimensions: self.resize_dimensions,
                    monocle_container: None,
                    ..*old(self)
                }),
            decreases restore_idx - self.containers.elements@.len(),
        {
            let filler = Container::new(container.wait_for_minimization);
            let ghost pre = self.containers.elements@;
            self.containers.push_back(filler);
            self.resize_dimensions.push(None);
            proof {
                assert forall|k1: int, k2: int|
                    0 <= k1 < k2 < self.containers.elements@.len() implies windows_disjoint(
                    #[trigger] self.containers.elements@[k1].windows.elements@,
                    #[trigger] self.containers.elements@[k2].windows.elements@,
                ) by {
                    if k2 < pre.len() {
                        assert(self.containers.elements@[k1] == pre[k1]);
                        assert(self.containers.elements@[k2] == pre[k2]);
                    } else {
                        assert(self.containers.elements@[k2] == filler);
                    }
                }
                assert forall|k: int|
                    0 <= k < self.containers.elements@.len() implies windows_distinct(
                    #[trigger] self.containers.elements@[k].windows.elements@,
                ) by {
                    if k < pre.len() {
                        assert(self.containers.elements@[k] == pre[k]);
                    } else {
                        assert(self.containers.elements@[k] == filler);
                    }
                }
                assert forall|b: Seq<Window>|
                    cs_disjoint_from(cs, b) implies #[trigger] cs_disjoint_from(
                    self.containers.elements@,
                    b,
                ) by {
                    assert(cs_disjoint_from(pre, b));
                    assert forall|k: int|
                        0 <= k < self.containers.elements@.len() implies windows_disjoint(
                        #[trigger] self.containers.elements@[k].windows.elements@,
                        b,
                    ) by {
                        if k < pre.len() {
                            assert(self.containers.elements@[k] == pre[k]);
                        } else {
                            assert(self.containers.elements@[k] == filler);
                        }
                    }
                }
            }
        }
        proof {
            assert(cs_disjoint_from(cs, self.floating_windows@));
            assert forall|h: isize|
                #[trigger] windows_contain(container.windows.elements@, h) implies !cs_contain(
                self.containers.elements@,
                h,
            ) by {
                if cs_contain(self.containers.elements@, h) {
                    let k = choose|k: int|
                        0 <= k < self.containers.elements@.len() && windows_contain(
                            self.containers.elements@[k].windows.elements@,
                            h,
                        );
                    if k < n0 as int {
                        assert(self.containers.elements@[k] == cs[k]);
                        assert(windows_disjoint(cs[k].windows.elements@, container.windows.elements@));
                    }
                }
            }
            lemma_cs_insert(self.containers.elements@, restore_idx as int, container);
            assert(windows_disjoint(container.windows.elements@, self.floating_windows@));
        }
        let saved = self.monocle_resize_dimension;
        let ghost padded = self.containers.elements@;
        self.containers.insert(restore_idx, container);
        self.resize_dimensions.insert(restore_idx, saved);
        self.monocle_container_restore_idx = None;
        self.monocle_resize_dimension = None;
        self.focus_container(restore_idx);
        let mut actions: Vec<OsAction> = Vec::new();
        match self.containers.get(restore_idx) {
            Some(c) => {
                actions = c.load_focused_window(state, behaviour);
            },
            None => {},
        }
        proof {
            let ri = restore_idx as int;
            let n = cs.len() as int;
            if ri <= n {
                assert(padded == cs);
                assert(self.containers.elements@ == cs.insert(ri, container));
            } else {
                padded.insert_ensures(ri, container);
                assert forall|k: int| 0 <= k < n implies self.containers.elements@[k] == cs[k] by {
                    assert(self.containers.elements@[k] == padded[k]);
                }
                assert forall|k: int| n <= k < ri implies (#[trigger] self.containers.elements@[k]).windows.elements@.len()
                    == 0 by {
                    assert(self.containers.elements@[k] == padded[k]);
                }
                assert(self.containers.elements@[ri] == container);
            }
        }
        Ok(actions)
    }
}

/// The resize override at `i` under space-partitioning constraints:
/// even positions cannot resize along the bottom edge, odd ones along the
/// right edge; the first container also loses top and left, the last
/// also bottom and right, since edges on the work-area boundary are not
/// draggable.
pub open spec fn spec_bsp_entry(dims: Seq<Option<Rect>>, i: int) -> Option<Rect> {
    match dims[i] {
        None => None,
        Some(r0) => {
            let r1 = if i % 2 == 0 {
                Rect { bottom: 0, ..r0 }
            } else {
                Rect { right: 0, ..r0 }
            };
            let r2 = if i == 0 {
                Rect { top: 0, left: 0, ..r1 }
            } else {
                r1
            };
            let r3 = if i == dims.len() - 1 {
                Rect { bottom: 0, right: 0, ..r2 }
            } else {
                r2
            };
            Some(r3)
        },
    }
}

/// The resize override at `i` under ultrawide constraints: with zero or
/// one container nothing is resizable; with exactly two only the
/// interior edge is; with three or more, container zero is the center
/// pane, container one the left pane, and the rest form a vertical stack
/// on the right.
pub open spec fn spec_ultrawide_entry(dims: Seq<Option<Rect>>, i: int) -> Option<Rect> {
    match dims[i] {
        None => None,
        Some(r0) => Some(
            if dims.len() <= 1 {
                Rect { left: 0, top: 0, right: 0, bottom: 0 }
            } else if dims.len() == 2 {
                if i == 0 {
                    Rect { top: 0, bottom: 0, right: 0, ..r0 }
                } else {
                    Rect { top: 0, bottom: 0, left: 0, ..r0 }
                }
            } else {
                if i == 0 {
                    Rect { top: 0, bottom: 0, ..r0 }
                } else if i == 1 {
                    Rect { top: 0, bottom: 0, left: 0, ..r0 }
                } else {
                    let r1 = Rect { right: 0, ..r0 };
                    let r2 = if i == 2 {
                        Rect { top: 0, ..r1 }
                    } else {
                        r1
                    };
                    if i == dims.len() - 1 {
                        Rect { bottom: 0, ..r2 }
                    } else {
                        r2
                    }
                }
            },
        ),
    }
}

/// The resize override at `i` when the layout permits no manual
/// resizing: present overrides are zeroed.
pub open spec fn spec_no_resize_entry(dims: Seq<Option<Rect>>, i: int) -> Option<Rect> {
    match dims[i] {
        None => None,
        Some(_) => Some(Rect { left: 0, top: 0, right: 0, bottom: 0 }),
    }
}

/// The resize override at `i` after constraint enforcement for `layout`.
pub open spec fn spec_enforced_entry(dims: Seq<Option<Rect>>, layout: Layout, i: int) -> Option<
    Rect,
> {
    match layout {
        Layout::Default(DefaultLayout::BSP) => spec_bsp_entry(dims, i),
        Layout::Default(DefaultLayout::UltrawideVerticalStack) => spec_ultrawide_entry(dims, i),
        _ => spec_no_resize_entry(dims, i),
    }
}

/// The resize overrides after constraint enforcement for `layout`.
pub open spec fn spec_enforced(dims: Seq<Option<Rect>>, layout: Layout) -> Seq<Option<Rect>> {
    Seq::new(dims.len(), |i: int| spec_enforced_entry(dims, layout, i))
}

impl Workspace {
    /// Applies the space-partitioning resize constraints.
    fn enforce_resize_constraints_for_bsp(&mut self)
        ensures
            final(self).resize_dimensions@ == Seq::new(
                old(self).resize_dimensions@.len(),
                |i: int| spec_bsp_entry(old(self).resize_dimensions@, i),
            ),
            *final(self) == (Workspace {
                resize_dimensions: final(self).resize_dimensions,
                ..*old(self)
            }),
    {
        let n = self.resize_dimensions.len();
        let ghost dims = self.resize_dimensions@;
        let mut i: usize = 0;
        while i < n
            invariant
                n == self.resize_dimensions@.len(),
                n == dims.len(),
                i <= n,
                *self == (Workspace {
                    resize_dimensions: self.resize_dimensions,
                    ..*old(self)
                }),
                forall|j: int|
                    i <= j < n ==> self.resize_dimensions@[j] == dims[j],
                forall|j: int|
                    0 <= j < i ==> self.resize_dimensions@[j] == spec_bsp_entry(dims, j),
            decreases n - i,
        {
            match self.resize_dimensions[i] {
                Some(r0) => {
                    let r1 = if i % 2 == 0 {
                        Rect { bottom: 0, ..r0 }
                    } else {
                        Rect { right: 0, ..r0 }
                    };
                    let r2 = if i == 0 {
                        Rect { top: 0, left: 0, ..r1 }
                    } else {
                        r1
                    };
                    let r3 = if i == n - 1 {
                        Rect { bottom: 0, right: 0, ..r2 }
                    } else {
                        r2
                    };
                    self.resize_dimensions.set(i, Some(r3));
                },
                None => {},
            }
            i = i + 1;
        }
        proof {
            assert(self.resize_dimensions@ =~= Seq::new(
                dims.len(),
                |j: int| spec_bsp_entry(dims, j),
            ));
        }
    }

    /// Applies the ultrawide vertical-stack resize constraints.
    fn enforce_resize_for_ultrawide(&mut self)
        ensures
            final(self).resize_dimensions@ == Seq::new(
                old(self).resize_dimensions@.len(),
                |i: int| spec_ultrawide_entry(old(self).resize_dimensions@, i),
            ),
            *final(self) == (Workspace {
                resize_dimensions: final(self).resize_dimensions,
                ..*old(self)
            }),
    {
        let n = self.resize_dimensions.len();
        let ghost dims = self.resize_dimensions@;
        if n <= 1 {
            self.enforce_no_resize();
            proof {
                assert(self.resize_dimensions@ =~= Seq::new(
                    dims.len(),
                    |j: int| spec_ultrawide_entry(dims, j),
                ));
            }
            return ;
        }
        let mut i: usize = 0;
        while i < n
            invariant
                n == self.resize_dimensions@.len(),
                n == dims.len(),
                n >= 2,
                i <= n,
                *self == (Workspace {
                    resize_dimensions: self.resize_dimensions,
                    ..*old(self)
                }),
                forall|j: int|
                    i <= j < n ==> self.resize_dimensions@[j] == dims[j],
                forall|j: int|
                    0 <= j < i ==> self.resize_dimensions@[j] == spec_ultrawide_entry(dims, j),
            decreases n - i,
        {
            match self.resize_dimensions[i] {
                Some(r0) => {
                    let r: Rect = if n == 2 {
                        if i == 0 {
                            Rect { top: 0, bottom: 0, right: 0, ..r0 }
                        } else {
                            Rect { top: 0, bottom: 0, left: 0, ..r0 }
                        }
                    } else {
                        if i == 0 {
                            Rect { top: 0, bottom: 0, ..r0 }
                        } else if i == 1 {
                            Rect { top: 0, bottom: 0, left: 0, ..r0 }
                        } else {
                            let r1 = Rect { right: 0, ..r0 };
                            let r2 = if i == 2 {
                                Rect { top: 0, ..r1 }
                            } else {
                                r1
                            };
                            if i == n - 1 {
                                Rect { bottom: 0, ..r2 }
                            } else {
                                r2
                            }
                        }
                    };
                    self.resize_dimensions.set(i, Some(r));
                },
                None => {},
            }
            i = i + 1;
        }
        proof {
            assert(self.resize_dimensions@ =~= Seq::new(
                dims.len(),
                |j: int| spec_ultrawide_entry(dims, j),
            ));
        }
    }

    /// Zeroes every present resize override: the layout permits no
    /// manual resizing.
    fn enforce_no_resize(&mut self)
        ensures
            final(self).resize_dimensions@ == Seq::new(
                old(self).resize_dimensions@.len(),
                |i: int| spec_no_resize_entry(old(self).resize_dimensions@, i),
            ),
            *final(self) == (Workspace {
                resize_dimensions: final(self).resize_dimensions,
                ..*old(self)
            }),
    {
        let n = self.resize_dimensions.len();
        let ghost dims = self.resize_dimensions@;
        let mut i: usize = 0;
        while i < n
            invariant
                n == self.resize_dimensions@.len(),
                n == dims.len(),
                i <= n,
                *self == (Workspace {
                    resize_dimensions: self.resize_dimensions,
                    ..*old(self)
                }),
                forall|j: int|
                    i <= j < n ==> self.resize_dimensions@[j] == dims[j],
                forall|j: int|
                    0 <= j < i ==> self.resize_dimensions@[j] == spec_no_resize_entry(dims, j),
            decreases n - i,
        {
            match self.resize_dimensions[i] {
                Some(_) => {
                    self.resize_dimensions.set(
                        i,
                        Some(Rect { left: 0, top: 0, right: 0, bottom: 0 }),
                    );
                },
                None => {},
            }
            i = i + 1;
        }
        proof {
            assert(self.resize_dimensions@ =~= Seq::new(
                dims.len(),
                |j: int| spec_no_resize_entry(dims, j),
            ));
        }
    }

    /// Re-derives the resize constraints for the current layout kind.
    fn enforce_resize_constraints(&mut self)
        ensures
            final(self).resize_dimensions@ == spec_enforced(
                old(self).resize_dimensions@,
                old(self).layout,
            ),
            *final(self) == (Workspace {
                resize_dimensions: final(self).resize_dimensions,
                ..*old(self)
            }),
    {
        match self.layout {
            Layout::Default(DefaultLayout::BSP) => {
                self.enforce_resize_constraints_for_bsp();
            },
            Layout::Default(DefaultLayout::UltrawideVerticalStack) => {
                self.enforce_resize_for_ultrawide();
            },
            _ => {
                self.enforce_no_resize();
            },
        }
        proof {
            assert(self.resize_dimensions@ =~= spec_enforced(
                old(self).resize_dimensions@,
                old(self).layout,
            ));
        }
    }
}

/// The layout rule that applies to `count` containers: among the rules
/// whose threshold is satisfied, the one with the highest threshold; a
/// later rule wins a tie.
pub open spec fn spec_selected_rule(rules: Seq<(usize, Layout)>, count: int) -> Option<
    (usize, Layout),
>
    decreases rules.len(),
{
    if rules.len() == 0 {
        None
    } else {
        let rest = spec_selected_rule(rules.drop_last(), count);
        let last = rules.last();
        if count >= last.0 && (match rest {
            Some(r) => r.0 <= last.0,
            None => true,
        }) {
            Some(last)
        } else {
            rest
        }
    }
}

/// The layout and axis flip after rule selection: a selected rule
/// replaces the layout, clearing the flip unless the new layout is the
/// default space-partitioning one; with no applicable rule both stay.
pub open spec fn spec_rule_layout(
    rules: Seq<(usize, Layout)>,
    count: int,
    layout: Layout,
    flip: Option<Axis>,
) -> (Layout, Option<Axis>) {
    match spec_selected_rule(rules, count) {
        Some(rule) => (
            rule.1,
            if rule.1 == Layout::Default(DefaultLayout::BSP) {
                flip
            } else {
                None
            },
        ),
        None => (layout, flip),
    }
}

/// The work area after the optional offset and the workspace padding.
pub open spec fn spec_adjusted_area(
    work_area: Rect,
    offset: Option<Rect>,
    workspace_padding: Option<i32>,
) -> Rect {
    let base = match offset {
        Some(o) => Rect {
            left: (work_area.left + o.left) as i32,
            top: (work_area.top + o.top) as i32,
            right: (work_area.right - o.right) as i32,
            bottom: (work_area.bottom - o.bottom) as i32,
        },
        None => work_area,
    };
    match workspace_padding {
        Some(p) => base.spec_padded(p as int),
        None => base,
    }
}

/// The position requests of one layout pass: one request per container
/// from index `i` on, pairing the container's focused window with its
/// computed rectangle and skipping containers without a focused window,
/// without a rectangle, or whose focused window is OS-maximized.
pub open spec fn spec_arrange_actions(
    cs: Seq<Container>,
    layouts: Seq<Rect>,
    maximized: Seq<isize>,
    invisible_borders: Rect,
    i: int,
) -> Seq<OsAction>
    decreases cs.len() - i,
{
    if i < 0 || i >= cs.len() {
        Seq::empty()
    } else {
        let c = cs[i];
        let head: Seq<OsAction> = if c.windows.focused < c.windows.elements@.len() && i
            < layouts.len() {
            let w = c.windows.elements@[c.windows.focused as int];
            if !maximized.contains(w.hwnd) {
                seq![
                    OsAction::SetPosition {
                        hwnd: w.hwnd,
                        rect: layouts[i],
                        invisible_borders,
                        top: false,
                    },
                ]
            } else {
                Seq::empty()
            }
        } else {
            Seq::empty()
        };
        head + spec_arrange_actions(cs, layouts, maximized, invisible_borders, i + 1)
    }
}

/// The layout-reconciliation transition: with configuration loaded, the
/// resize constraints are re-derived for the current layout, the layout
/// rules are applied, and, when tiling, either the monocle container's
/// focused window is given the whole padded area or one position request
/// is emitted per tiled container from the provider's rectangles, which
/// are recorded as the latest layout.
pub open spec fn spec_updated(
    prev: Workspace,
    fin: Workspace,
    work_area: Rect,
    offset: Option<Rect>,
    invisible_borders: Rect,
    configuration_loaded: bool,
    maximized: Seq<isize>,
    layouts: Seq<Rect>,
    actions: Seq<OsAction>,
) -> bool {
    if !configuration_loaded {
        fin == prev && actions == Seq::<OsAction>::empty()
    } else {
        let dims1 = spec_enforced(prev.resize_dimensions@, prev.layout);
        let sel = spec_rule_layout(
            prev.layout_rules@,
            prev.containers.elements@.len() as int,
            prev.layout,
            prev.layout_flip,
        );
        let area = spec_adjusted_area(work_area, offset, prev.workspace_padding);
        &&& fin.layout == sel.0
        &&& fin.layout_flip == sel.1
        &&& fin.resize_dimensions@ == dims1
        &&& fin == (Workspace {
            layout: fin.layout,
            layout_flip: fin.layout_flip,
            resize_dimensions: fin.resize_dimensions,
            latest_layout: fin.latest_layout,
            ..prev
        })
        &&& if prev.tile {
            match prev.monocle_container {
                Some(m) => {
                    &&& fin.latest_layout == prev.latest_layout
                    &&& if m.windows.focused < m.windows.elements@.len() {
                        let w = m.windows.elements@[m.windows.focused as int];
                        let area2 = match prev.container_padding {
                            Some(p) => area.spec_padded(p as int),
                            None => area,
                        };
                        if !maximized.contains(w.hwnd) {
                            actions == seq![
                                OsAction::SetPosition {
                                    hwnd: w.hwnd,
                                    rect: area2,
                                    invisible_borders,
                                    top: true,
                                },
                            ]
                        } else {
                            actions == Seq::<OsAction>::empty()
                        }
                    } else {
                        actions == Seq::<OsAction>::empty()
                    }
                },
                None => {
                    if prev.containers.elements@.len() > 0 {
                        &&& fin.latest_layout@ == layouts
                        &&& actions == spec_arrange_actions(
                            prev.containers.elements@,
                            layouts,
                            maximized,
                            invisible_borders,
                            0,
                        )
                    } else {
                        &&& fin.latest_layout == prev.latest_layout
                        &&& actions == Seq::<OsAction>::empty()
                    }
                },
            }
        } else {
            &&& fin.latest_layout == prev.latest_layout
            &&& actions == Seq::<OsAction>::empty()
        }
    }
}

/// What a layout provider is asked for: one rectangle per container
/// within the padded area, under the selected layout, axis flip, and
/// constrained resize overrides.
pub struct LayoutRequest {
    /// The work area after offset and workspace padding.
    pub area: Rect,
    /// The number of tiled containers.
    pub container_count: usize,
    /// The padding between neighbouring containers.
    pub container_padding: Option<i32>,
    /// The layout the rules select for this container count.
    pub layout: Layout,
    /// The axis flip that survives rule selection.
    pub layout_flip: Option<Axis>,
    /// The resize overrides after constraint enforcement.
    pub resize_dimensions: Vec<Option<Rect>>,
}

/// What [`Workspace::layout_request`] computes, as one spec-level tuple:
/// area, container count, container padding, layout, flip, and the
/// constrained resize overrides.
pub open spec fn spec_layout_request(
    w: Workspace,
    work_area: Rect,
    offset: Option<Rect>,
    configuration_loaded: bool,
) -> Option<(Rect, int, Option<i32>, Layout, Option<Axis>, Seq<Option<Rect>>)> {
    if !configuration_loaded || !w.tile || w.monocle_container is Some
        || w.containers.elements@.len() == 0 {
        None
    } else {
        let n = w.containers.elements@.len() as int;
        let dims1 = spec_enforced(w.resize_dimensions@, w.layout);
        let sel = spec_rule_layout(w.layout_rules@, n, w.layout, w.layout_flip);
        let area = spec_adjusted_area(work_area, offset, w.workspace_padding);
        Some((area, n, w.container_padding, sel.0, sel.1, dims1))
    }
}

/// The rule that applies to `count` containers, if any.
fn select_rule(rules: &Vec<(usize, Layout)>, count: usize) -> (r: Option<(usize, Layout)>)
    ensures
        r == spec_selected_rule(rules@, count as int),
{
    let n = rules.len();
    let mut best: Option<(usize, Layout)> = None;
    let mut i: usize = 0;
    proof {
        assert(rules@.take(0) =~= Seq::<(usize, Layout)>::empty());
    }
    while i < n
        invariant
            n == rules@.len(),
            i <= n,
            best == spec_selected_rule(rules@.take(i as int), count as int),
        decreases n - i,
    {
        let rule = rules[i];
        proof {
            assert(rules@.take(i + 1).last() == rules@[i as int]);
            assert(rules@.take(i + 1).drop_last() =~= rules@.take(i as int));
        }
        let take = match &best {
            Some(b) => count >= rule.0 && b.0 <= rule.0,
            None => count >= rule.0,
        };
        if take {
            best = Some(rule);
        }
        i = i + 1;
    }
    proof {
        assert(rules@.take(n as int) =~= rules@);
    }
    best
}

/// The resize overrides after constraint enforcement for `layout`,
/// computed without touching the originals.
fn enforced_dims(dims: &Vec<Option<Rect>>, layout: &Layout) -> (r: Vec<Option<Rect>>)
    ensures
        r@ == spec_enforced(dims@, *layout),
{
    let n = dims.len();
    let mut result: Vec<Option<Rect>> = Vec::new();
    let mut i: usize = 0;
    while i < n
        invariant
            n == dims@.len(),
            i <= n,
            result@.len() == i,
            forall|j: int| 0 <= j < i ==> result@[j] == spec_enforced_entry(dims@, *layout, j),
        decreases n - i,
    {
        let entry: Option<Rect> = match dims[i] {
            None => None,
            Some(r0) => {
                match layout {
                    Layout::Default(DefaultLayout::BSP) => {
                        let r1 = if i % 2 == 0 {
                            Rect { bottom: 0, ..r0 }
                        } else {
                            Rect { right: 0, ..r0 }
                        };
                        let r2 = if i == 0 {
                            Rect { top: 0, left: 0, ..r1 }
                        } else {
                            r1
                        };
                        let r3 = if i == n - 1 {
                            Rect { bottom: 0, right: 0, ..r2 }
                        } else {
                            r2
                        };
                        Some(r3)
                    },
                    Layout::Default(DefaultLayout::UltrawideVerticalStack) => {
                        if n <= 1 {
                            Some(Rect { left: 0, top: 0, right: 0, bottom: 0 })
                        } else if n == 2 {
                            if i == 0 {
                                Some(Rect { top: 0, bottom: 0, right: 0, ..r0 })
                            } else {
                                Some(Rect { top: 0, bottom: 0, left: 0, ..r0 })
                            }
                        } else {
                            if i == 0 {
                                Some(Rect { top: 0, bottom: 0, ..r0 })
                            } else if i == 1 {
                                Some(Rect { top: 0, bottom: 0, left: 0, ..r0 })
                            } else {
                                let r1 = Rect { right: 0, ..r0 };
                                let r2 = if i == 2 {
                                    Rect { top: 0, ..r1 }
                                } else {
                                    r1
                                };
                                if i == n - 1 {
                                    Some(Rect { bottom: 0, ..r2 })
                                } else {
                                    Some(r2)
                                }
                            }
                        }
                    },
                    _ => Some(Rect { left: 0, top: 0, right: 0, bottom: 0 }),
                }
            },
        };
        result.push(entry);
        i = i + 1;
    }
    proof {
        assert(result@ =~= spec_enforced(dims@, *layout));
    }
    result
}

impl Workspace {
    /// Whether the padding fields carry values the layout arithmetic can
    /// take without overflow.
    pub open spec fn paddings_bounded(self) -> bool {
        &&& match self.workspace_padding {
            Some(p) => -crate::rect::RECT_COORD_LIMIT <= p <= crate::rect::RECT_COORD_LIMIT,
            None => true,
        }
        &&& match self.container_padding {
            Some(p) => -crate::rect::RECT_COORD_LIMIT <= p <= crate::rect::RECT_COORD_LIMIT,
            None => true,
        }
    }

    /// What to ask the layout provider before applying [`Workspace::update`]
    /// with its answer: `None` when no layout pass would consult the
    /// provider (configuration not loaded, tiling disabled, a monocle
    /// showing, or no containers).
    pub fn layout_request(
        &self,
        work_area: &Rect,
        offset: Option<Rect>,
        configuration_loaded: bool,
    ) -> (r: Option<LayoutRequest>)
        requires
            work_area.bounded_by(crate::rect::RECT_COORD_LIMIT as int),
            match offset {
                Some(o) => o.bounded_by(crate::rect::RECT_COORD_LIMIT as int),
                None => true,
            },
            self.paddings_bounded(),
        ensures
            match r {
                Some(req) => match spec_layout_request(
                    *self,
                    *work_area,
                    offset,
                    configuration_loaded,
                ) {
                    Some(t) => ({
                        let (area, count, padding, layout, flip, dims) = t;
                        &&& req.area == area
                        &&& req.container_count as int == count
                        &&& req.container_padding == padding
                        &&& req.layout == layout
                        &&& req.layout_flip == flip
                        &&& req.resize_dimensions@ == dims
                    }),
                    None => false,
                },
                None => spec_layout_request(*self, *work_area, offset, configuration_loaded)
                    is None,
            },
    {
        if !configuration_loaded || !self.tile || self.monocle_container.is_some()
            || self.containers.is_empty() {
            return None;
        }
        let mut area = match offset {
            Some(o) => Rect {
                left: work_area.left + o.left,
                top: work_area.top + o.top,
                right: work_area.right - o.right,
                bottom: work_area.bottom - o.bottom,
            },
            None => *work_area,
        };
        area.add_padding(self.workspace_padding);
        let dims1 = enforced_dims(&self.resize_dimensions, &self.layout);
        let count = self.containers.len();
        let (layout2, flip2) = match select_rule(&self.layout_rules, count) {
            Some(rule) => (
                rule.1,
                if rule.1 == Layout::Default(DefaultLayout::BSP) {
                    self.layout_flip
                } else {
                    None
                },
            ),
            None => (self.layout, self.layout_flip),
        };
        Some(
            LayoutRequest {
                area,
                container_count: count,
                container_padding: self.container_padding,
                layout: layout2,
                layout_flip: flip2,
                resize_dimensions: dims1,
            },
        )
    }

    /// One layout-reconciliation pass, as described by [`spec_updated`].
    /// `layouts` is the layout provider's answer to [`Workspace::layout_request`]
    /// (and is consulted only on the tiled path), `maximized_hwnds` the
    /// OS's answer to which windows are currently maximized, and
    /// `configuration_loaded` gates the whole pass.
    pub fn update(
        &mut self,
        work_area: &Rect,
        offset: Option<Rect>,
        invisible_borders: &Rect,
        configuration_loaded: bool,
        maximized_hwnds: &Vec<isize>,
        layouts: &Vec<Rect>,
    ) -> (r: Vec<OsAction>)
        requires
            old(self).inv(),
            work_area.bounded_by(crate::rect::RECT_COORD_LIMIT as int),
            match offset {
                Some(o) => o.bounded_by(crate::rect::RECT_COORD_LIMIT as int),
                None => true,
            },
            old(self).paddings_bounded(),
        ensures
            final(self).inv(),
            spec_updated(
                *old(self),
                *final(self),
                *work_area,
                offset,
                *invisible_borders,
                configuration_loaded,
                maximized_hwnds@,
                layouts@,
                r@,
            ),
    {
        if !configuration_loaded {
            return Vec::new();
        }
        let container_padding = self.container_padding;
        let mut adjusted_work_area = match offset {
            Some(o) => Rect {
                left: work_area.left + o.left,
                top: work_area.top + o.top,
                right: work_area.right - o.right,
                bottom: work_area.bottom - o.bottom,
            },
            None => *work_area,
        };
        adjusted_work_area.add_padding(self.workspace_padding);

        self.enforce_resize_constraints();

        if self.layout_rules.len() > 0 {
            match select_rule(&self.layout_rules, self.containers.len()) {
                Some(rule) => {
                    if !(rule.1 == Layout::Default(DefaultLayout::BSP)) {
                        self.layout_flip = None;
                    }
                    self.layout = rule.1;
                },
                None => {},
            }
        }

        let mut actions: Vec<OsAction> = Vec::new();
        if self.tile {
            if self.monocle_container.is_some() {
                let focused_window: Option<Window> = match &self.monocle_container {
                    Some(m) => match m.focused_window() {
                        Some(w) => Some(*w),
                        None => None,
                    },
                    None => None,
                };
                if let Some(w) = focused_window {
                    adjusted_work_area.add_padding(container_padding);
                    if !crate::window::contains_hwnd(maximized_hwnds, w.hwnd) {
                        actions.push(
                            OsAction::SetPosition {
                                hwnd: w.hwnd,
                                rect: adjusted_work_area,
                                invisible_borders: *invisible_borders,
                                top: true,
                            },
                        );
                        proof {
                            let m = old(self).monocle_container->0;
                            let ww = m.windows.elements@[m.windows.focused as int];
                            let area = spec_adjusted_area(
                                *work_area,
                                offset,
                                old(self).workspace_padding,
                            );
                            let area2 = match old(self).container_padding {
                                Some(p) => area.spec_padded(p as int),
                                None => area,
                            };
                            assert(actions@ =~= seq![
                                OsAction::SetPosition {
                                    hwnd: ww.hwnd,
                                    rect: area2,
                                    invisible_borders: *invisible_borders,
                                    top: true,
                                },
                            ]);
                        }
                    }
                }
            } else if !self.containers.is_empty() {
                let cs = &self.containers.elements;
                let n = cs.len();
                let mut i: usize = 0;
                while i < n
                    invariant
                        n == cs@.len(),
                        cs == &self.containers.elements,
                        i <= n,
                        actions@ + spec_arrange_actions(
                            cs@,
                            layouts@,
                            maximized_hwnds@,
                            *invisible_borders,
                            i as int,
                        ) =~= spec_arrange_actions(
                            cs@,
                            layouts@,
                            maximized_hwnds@,
                            *invisible_borders,
                            0,
                        ),
                    decreases n - i,
                {
                    match cs[i].focused_window() {
                        Some(w) => {
                            if i < layouts.len() {
                                let rect = layouts[i];
                                if !crate::window::contains_hwnd(maximized_hwnds, w.hwnd) {
                                    let act = OsAction::SetPosition {
                                        hwnd: w.hwnd,
                                        rect,
                                        invisible_borders: *invisible_borders,
                                        top: false,
                                    };
                                    actions.push(act);
                                }
                            }
                        },
                        None => {},
                    }
                    proof {
                        assert(actions@ + spec_arrange_actions(
                            cs@,
                            layouts@,
                            maximized_hwnds@,
                            *invisible_borders,
                            i + 1,
                        ) =~= spec_arrange_actions(
                            cs@,
                            layouts@,
                            maximized_hwnds@,
                            *invisible_borders,
                            0,
                        ));
                    }
                    i = i + 1;
                }
                let mut new_latest: Vec<Rect> = Vec::new();
                let m = layouts.len();
                let mut j: usize = 0;
                while j < m
                    invariant
                        m == layouts@.len(),
                        j <= m,
                        new_latest@ == layouts@.take(j as int),
                    decreases m - j,
                {
                    new_latest.push(layouts[j]);
                    proof {
                        assert(new_latest@ =~= layouts@.take(j + 1));
                    }
                    j = j + 1;
                }
                proof {
                    assert(new_latest@ =~= layouts@);
                }
                self.latest_layout = new_latest;
            }
        }
        actions
    }
}

/// Constraint enforcement is idempotent: clamping already-clamped
/// overrides changes nothing.
pub proof fn lemma_enforced_idempotent(dims: Seq<Option<Rect>>, layout: Layout)
    ensures
        spec_enforced(spec_enforced(dims, layout), layout) == spec_enforced(dims, layout),
{
    let e1 = spec_enforced(dims, layout);
    let e2 = spec_enforced(e1, layout);
    assert forall|i: int| 0 <= i < e2.len() implies e2[i] == e1[i] by {
        assert(e1[i] == spec_enforced_entry(dims, layout, i));
        assert(e2[i] == spec_enforced_entry(e1, layout, i));
    }
    assert(e2 =~= e1);
}

/// Calling `update` twice with identical inputs and no intervening
/// mutation is idempotent: the second pass leaves the workspace exactly
/// as the first pass left it — in particular the recorded latest layout
/// is identical — and poses the very same request to the layout
/// provider, so the provider's answer, and with it `layouts`, is the
/// same in both passes. The one proviso is that the layout rules do not
/// switch the layout away from the current one at this container count;
/// a switching rule changes which constraints the second pass enforces.
pub proof fn lemma_update_idempotent(
    w0: Workspace,
    w1: Workspace,
    w2: Workspace,
    work_area: Rect,
    offset: Option<Rect>,
    invisible_borders: Rect,
    maximized: Seq<isize>,
    layouts: Seq<Rect>,
    acts1: Seq<OsAction>,
    acts2: Seq<OsAction>,
)
    requires
        w0.inv(),
        spec_rule_layout(
            w0.layout_rules@,
            w0.containers.elements@.len() as int,
            w0.layout,
            w0.layout_flip,
        ).0 == w0.layout,
        spec_updated(
            w0,
            w1,
            work_area,
            offset,
            invisible_borders,
            true,
            maximized,
            layouts,
            acts1,
        ),
        spec_updated(
            w1,
            w2,
            work_area,
            offset,
            invisible_borders,
            true,
            maximized,
            layouts,
            acts2,
        ),
    ensures
        w2.layout == w1.layout,
        w2.layout_flip == w1.layout_flip,
        w2.resize_dimensions@ == w1.resize_dimensions@,
        w2.latest_layout@ == w1.latest_layout@,
        w2 == (Workspace {
            layout: w2.layout,
            layout_flip: w2.layout_flip,
            resize_dimensions: w2.resize_dimensions,
            latest_layout: w2.latest_layout,
            ..w1
        }),
        acts2 == acts1,
        spec_layout_request(w1, work_area, offset, true) == spec_layout_request(
            w0,
            work_area,
            offset,
            true,
        ),
{
    let n = w0.containers.elements@.len() as int;
    let sel0 = spec_rule_layout(w0.layout_rules@, n, w0.layout, w0.layout_flip);
    lemma_enforced_idempotent(w0.resize_dimensions@, w0.layout);
    assert(w1.containers == w0.containers);
    assert(w1.layout_rules == w0.layout_rules);
    assert(w1.layout == w0.layout);
    let sel1 = spec_rule_layout(w1.layout_rules@, n, w1.layout, w1.layout_flip);
    assert(sel1.0 == w1.layout && sel1.1 == w1.layout_flip) by {
        match spec_selected_rule(w0.layout_rules@, n) {
            Some(rule) => {
                assert(rule.1 == w0.layout);
            },
            None => {},
        }
    }
    assert(w2.resize_dimensions@ == w1.resize_dimensions@) by {
        assert(w2.resize_dimensions@ == spec_enforced(w1.resize_dimensions@, w1.layout));
        assert(w1.resize_dimensions@ == spec_enforced(w0.resize_dimensions@, w0.layout));
    }
    if w0.tile {
        match w0.monocle_container {
            Some(m) => {
                assert(w2.latest_layout == w1.latest_layout);
            },
            None => {
                if n > 0 {
                    assert(w2.latest_layout@ == layouts && w1.latest_layout@ == layouts);
                    assert(acts2 == spec_arrange_actions(
                        w1.containers.elements@,
                        layouts,
                        maximized,
                        invisible_borders,
                        0,
                    ));
                } else {
                    assert(w2.latest_layout == w1.latest_layout);
                }
            },
        }
    } else {
        assert(w2.latest_layout == w1.latest_layout);
    }
    let r0 = spec_layout_request(w0, work_area, offset, true);
    let r1 = spec_layout_request(w1, work_area, offset, true);
    assert(r1 == r0) by {
        if w0.tile && w0.monocle_container is None && n > 0 {
            assert(r0 is Some && r1 is Some);
            let t0 = r0->0;
            let t1 = r1->0;
            assert(t1.0 == t0.0);
            assert(t1.1 == t0.1);
            assert(t1.2 == t0.2);
            assert(t1.3 == t0.3);
            assert(t1.4 == t0.4);
            assert(t1.5 == t0.5);
            assert(t1 == t0);
        }
    }
}

/// The first window at or after `i` that this manager maximized itself.
pub open spec fn spec_first_maximized(ws: Seq<Window>, maximized: Seq<isize>, i: int) -> Option<
    Window,
>
    decreases ws.len() - i,
{
    if i < 0 || i >= ws.len() {
        None
    } else if maximized.contains(ws[i].hwnd) {
        Some(ws[i])
    } else {
        spec_first_maximized(ws, maximized, i + 1)
    }
}

/// The first window in the containers at or after `k` that this manager
/// maximized itself, scanning each stack in insertion order.
pub open spec fn spec_first_maximized_cs(
    cs: Seq<Container>,
    maximized: Seq<isize>,
    k: int,
) -> Option<Window>
    decreases cs.len() - k,
{
    if k < 0 || k >= cs.len() {
        None
    } else {
        match spec_first_maximized(cs[k].windows.elements@, maximized, 0) {
            Some(w) => Some(w),
            None => spec_first_maximized_cs(cs, maximized, k + 1),
        }
    }
}

/// The window the workspace would re-maximize on restore: the first
/// programmatically maximized window, looking in the monocle container,
/// then the floating list, then the tiled containers.
pub open spec fn spec_window_to_be_maximized(w: Workspace, maximized: Seq<isize>) -> Option<
    Window,
> {
    let mono = match w.monocle_container {
        Some(m) => spec_first_maximized(m.windows.elements@, maximized, 0),
        None => None,
    };
    match mono {
        Some(found) => Some(found),
        None => match spec_first_maximized(w.floating_windows@, maximized, 0) {
            Some(found) => Some(found),
            None => spec_first_maximized_cs(w.containers.elements@, maximized, 0),
        },
    }
}

/// The restore requests for the windows of `ws` from `i` on, in order,
/// skipping an optionally omitted handle.
pub open spec fn spec_restore_each_actions(
    ws: Seq<Window>,
    omit: Option<isize>,
    behaviour: HidingBehaviour,
    i: int,
) -> Seq<OsAction>
    decreases ws.len() - i,
{
    if i < 0 || i >= ws.len() {
        Seq::empty()
    } else {
        let head: Seq<OsAction> = if omit == Some(ws[i].hwnd) {
            Seq::empty()
        } else {
            seq![ws[i].spec_restore_action(behaviour)]
        };
        head + spec_restore_each_actions(ws, omit, behaviour, i + 1)
    }
}

/// The hidden-handle record after restoring the windows of `ws` from `i`
/// on, skipping an optionally omitted handle.
pub open spec fn spec_restore_each_hidden(
    hidden: Seq<isize>,
    ws: Seq<Window>,
    omit: Option<isize>,
    i: int,
) -> Seq<isize>
    decreases ws.len() - i,
{
    if i < 0 || i >= ws.len() {
        hidden
    } else if omit == Some(ws[i].hwnd) {
        spec_restore_each_hidden(hidden, ws, omit, i + 1)
    } else {
        spec_restore_each_hidden(without_first(hidden, ws[i].hwnd), ws, omit, i + 1)
    }
}

/// The restore requests of the tiled containers from `k` on: each
/// container restores its focused window, if it has one.
pub open spec fn spec_restore_cs_actions(
    cs: Seq<Container>,
    behaviour: HidingBehaviour,
    k: int,
) -> Seq<OsAction>
    decreases cs.len() - k,
{
    if k < 0 || k >= cs.len() {
        Seq::empty()
    } else {
        let c = cs[k];
        let head: Seq<OsAction> = if c.windows.focused < c.windows.elements@.len() {
            seq![c.windows.elements@[c.windows.focused as int].spec_restore_action(behaviour)]
        } else {
            Seq::empty()
        };
        head + spec_restore_cs_actions(cs, behaviour, k + 1)
    }
}

/// The hidden-handle record after the tiled containers from `k` on each
/// restored their focused window.
pub open spec fn spec_restore_cs_hidden(hidden: Seq<isize>, cs: Seq<Container>, k: int) -> Seq<
    isize,
>
    decreases cs.len() - k,
{
    if k < 0 || k >= cs.len() {
        hidden
    } else {
        let c = cs[k];
        let h1 = if c.windows.focused < c.windows.elements@.len() {
            without_first(hidden, c.windows.elements@[c.windows.focused as int].hwnd)
        } else {
            hidden
        };
        spec_restore_cs_hidden(h1, cs, k + 1)
    }
}

/// The hide requests of the tiled containers in reverse ring order; each
/// container hides its stack in reverse insertion order.
pub open spec fn spec_cs_hide_actions(
    cs: Seq<Container>,
    behaviour: HidingBehaviour,
    omit: Option<isize>,
) -> Seq<OsAction>
    decreases cs.len(),
{
    if cs.len() == 0 {
        Seq::empty()
    } else {
        crate::container::spec_hide_actions(cs.last().windows.elements@, behaviour, omit)
            + spec_cs_hide_actions(cs.drop_last(), behaviour, omit)
    }
}

/// The hidden-handle record after the tiled containers hid their stacks
/// in reverse ring order.
pub open spec fn spec_cs_hidden(
    hidden: Seq<isize>,
    cs: Seq<Container>,
    omit: Option<isize>,
) -> Seq<isize>
    decreases cs.len(),
{
    if cs.len() == 0 {
        hidden
    } else {
        spec_cs_hidden(
            crate::container::spec_hidden_after(hidden, cs.last().windows.elements@, omit),
            cs.drop_last(),
            omit,
        )
    }
}

impl Workspace {
    /// The window the workspace would re-maximize on restore, if any.
    pub fn get_window_to_be_maximized(&self, state: &WindowState) -> (r: Option<&Window>)
        ensures
            match r {
                Some(w) => Some(*w) == spec_window_to_be_maximized(*self, state.maximized@),
                None => spec_window_to_be_maximized(*self, state.maximized@) is None,
            },
    {
        if let Some(monocle) = &self.monocle_container {
            let ws = monocle.windows();
            let n = ws.len();
            let mut i: usize = 0;
            while i < n
                invariant
                    n == ws@.len(),
                    ws == &monocle.windows.elements,
                    monocle == &self.monocle_container->0,
                    self.monocle_container is Some,
                    i <= n,
                    spec_first_maximized(ws@, state.maximized@, 0) == spec_first_maximized(
                        ws@,
                        state.maximized@,
                        i as int,
                    ),
                decreases n - i,
            {
                if crate::window::contains_hwnd(&state.maximized, ws[i].hwnd) {
                    return Some(&ws[i]);
                }
                i = i + 1;
            }
        }
        let n = self.floating_windows.len();
        let mut i: usize = 0;
        while i < n
            invariant
                n == self.floating_windows@.len(),
                i <= n,
                self.monocle_container is Some ==> spec_first_maximized(
                    self.monocle_container->0.windows.elements@,
                    state.maximized@,
                    0,
                ) is None,
                spec_first_maximized(self.floating_windows@, state.maximized@, 0)
                    == spec_first_maximized(self.floating_windows@, state.maximized@, i as int),
            decreases n - i,
        {
            if crate::window::contains_hwnd(&state.maximized, self.floating_windows[i].hwnd) {
                return Some(&self.floating_windows[i]);
            }
            i = i + 1;
        }
        let cs = &self.containers.elements;
        let ncs = cs.len();
        let mut k: usize = 0;
        while k < ncs
            invariant
                ncs == cs@.len(),
                cs == &self.containers.elements,
                k <= ncs,
                self.monocle_container is Some ==> spec_first_maximized(
                    self.monocle_container->0.windows.elements@,
                    state.maximized@,
                    0,
                ) is None,
                spec_first_maximized(self.floating_windows@, state.maximized@, 0) is None,
                spec_first_maximized_cs(cs@, state.maximized@, 0) == spec_first_maximized_cs(
                    cs@,
                    state.maximized@,
                    k as int,
                ),
            decreases ncs - k,
        {
            let ws = cs[k].windows();
            let nw = ws.len();
            let mut i: usize = 0;
            while i < nw
                invariant
                    nw == ws@.len(),
                    ws == &cs@[k as int].windows.elements,
                    k < ncs,
                    ncs == cs@.len(),
                    cs == &self.containers.elements,
                    i <= nw,
                    self.monocle_container is Some ==> spec_first_maximized(
                        self.monocle_container->0.windows.elements@,
                        state.maximized@,
                        0,
                    ) is None,
                    spec_first_maximized(self.floating_windows@, state.maximized@, 0) is None,
                    spec_first_maximized_cs(cs@, state.maximized@, 0) == spec_first_maximized_cs(
                        cs@,
                        state.maximized@,
                        k as int,
                    ),
                    spec_first_maximized(ws@, state.maximized@, 0) == spec_first_maximized(
                        ws@,
                        state.maximized@,
                        i as int,
                    ),
                decreases nw - i,
            {
                if crate::window::contains_hwnd(&state.maximized, ws[i].hwnd) {
                    return Some(&ws[i]);
                }
                i = i + 1;
            }
            k = k + 1;
        }
        None
    }

    /// The focused window of the workspace: the floating window holding
    /// the foreground if any, else the monocle container's focused
    /// window if a monocle is showing, else the focused container's
    /// focused window.
    pub fn focused_window(&self, foreground: Option<isize>) -> (r: Option<&Window>)
        ensures
            match r {
                Some(w) => Some(*w) == spec_focused_window(*self, foreground),
                None => spec_focused_window(*self, foreground) is None,
            },
    {
        let floating = self.focused_floating_window(foreground);
        if floating.is_some() {
            return floating;
        }
        if let Some(monocle) = &self.monocle_container {
            return monocle.focused_window();
        }
        match self.focused_container() {
            Some(c) => c.focused_window(),
            None => None,
        }
    }

    /// Hides every window of the workspace except an optionally omitted
    /// handle: the floating windows in reverse order, then each tiled
    /// container in reverse ring order, then the monocle container.
    pub fn hide_windows(
        &self,
        state: &mut WindowState,
        behaviour: HidingBehaviour,
        omit: Option<isize>,
    ) -> (r: Vec<OsAction>)
        ensures
            final(state).maximized@ == old(state).maximized@,
            r@ == spec_workspace_hide_actions(*self, behaviour, omit),
            final(state).hidden@ == spec_workspace_hidden(old(state).hidden@, *self, omit),
    {
        let ghost fl = self.floating_windows@;
        let ghost h0 = old(state).hidden@;
        let mut actions: Vec<OsAction> = Vec::new();
        let n = self.floating_windows.len();
        let mut i: usize = n;
        proof {
            assert(fl.take(n as int) =~= fl);
        }
        while i > 0
            invariant
                n == fl.len(),
                i <= n,
                fl == self.floating_windows@,
                state.maximized@ == old(state).maximized@,
                actions@ + crate::container::spec_hide_actions(fl.take(i as int), behaviour, omit)
                    =~= crate::container::spec_hide_actions(fl, behaviour, omit),
                crate::container::spec_hidden_after(state.hidden@, fl.take(i as int), omit)
                    == crate::container::spec_hidden_after(h0, fl, omit),
            decreases i,
        {
            i = i - 1;
            let w = self.floating_windows[i];
            proof {
                assert(fl.take(i + 1).last() == fl[i as int]);
                assert(fl.take(i + 1).drop_last() =~= fl.take(i as int));
            }
            let omitted = match omit {
                Some(o) => o == w.hwnd,
                None => false,
            };
            if !omitted {
                let act = w.hide_window(state, behaviour);
                actions.push(act);
                proof {
                    assert(actions@ + crate::container::spec_hide_actions(
                        fl.take(i as int),
                        behaviour,
                        omit,
                    ) =~= crate::container::spec_hide_actions(fl, behaviour, omit));
                }
            }
        }
        proof {
            assert(fl.take(0) =~= Seq::<Window>::empty());
        }
        let ghost h1 = state.hidden@;
        let ghost fl_acts_len = actions@.len();
        let ghost cs = self.containers.elements@;
        let ncs = self.containers.elements.len();
        let mut k: usize = ncs;
        proof {
            assert(cs.take(ncs as int) =~= cs);
        }
        while k > 0
            invariant
                ncs == cs.len(),
                k <= ncs,
                cs == self.containers.elements@,
                state.maximized@ == old(state).maximized@,
                actions@.skip(fl_acts_len as int) + spec_cs_hide_actions(
                    cs.take(k as int),
                    behaviour,
                    omit,
                ) =~= spec_cs_hide_actions(cs, behaviour, omit),
                fl_acts_len <= actions@.len(),
                actions@.take(fl_acts_len as int) =~= crate::container::spec_hide_actions(
                    fl,
                    behaviour,
                    omit,
                ),
                spec_cs_hidden(state.hidden@, cs.take(k as int), omit) == spec_cs_hidden(
                    h1,
                    cs,
                    omit,
                ),
                h1 == crate::container::spec_hidden_after(h0, fl, omit),
                fl == self.floating_windows@,
                h0 == old(state).hidden@,
            decreases k,
        {
            k = k - 1;
            proof {
                assert(cs.take(k + 1).last() == cs[k as int]);
                assert(cs.take(k + 1).drop_last() =~= cs.take(k as int));
            }
            let mut acts = self.containers.elements[k].hide_windows(state, behaviour, omit);
            actions.append(&mut acts);
            proof {
                assert(actions@.skip(fl_acts_len as int) + spec_cs_hide_actions(
                    cs.take(k as int),
                    behaviour,
                    omit,
                ) =~= spec_cs_hide_actions(cs, behaviour, omit));
                assert(actions@.take(fl_acts_len as int) =~= crate::container::spec_hide_actions(
                    fl,
                    behaviour,
                    omit,
                ));
            }
        }
        proof {
            assert(cs.take(0) =~= Seq::<Container>::empty());
        }
        if let Some(monocle) = &self.monocle_container {
            let mut acts = monocle.hide_windows(state, behaviour, omit);
            actions.append(&mut acts);
        }
        proof {
            let fl_acts = crate::container::spec_hide_actions(fl, behaviour, omit);
            let cs_acts = spec_cs_hide_actions(cs, behaviour, omit);
            match &self.monocle_container {
                Some(m) => {
                    assert(actions@ =~= fl_acts + cs_acts + crate::container::spec_hide_actions(
                        m.windows.elements@,
                        behaviour,
                        omit,
                    ));
                },
                None => {
                    assert(actions@ =~= fl_acts + cs_acts);
                },
            }
        }
        actions
    }
}

/// The focused window of a workspace, given the foreground handle: a
/// floating window holding the foreground wins, else the monocle
/// container's focused window when a monocle is showing, else the
/// focused container's focused window.
pub open spec fn spec_focused_window(w: Workspace, foreground: Option<isize>) -> Option<Window> {
    let managed: Option<Window> = match w.monocle_container {
        Some(m) => if m.windows.focused < m.windows.elements@.len() {
            Some(m.windows.elements@[m.windows.focused as int])
        } else {
            None
        },
        None => {
            let cs = w.containers.elements@;
            let f = w.containers.focused as int;
            if f < cs.len() && cs[f].windows.focused < cs[f].windows.elements@.len() {
                Some(cs[f].windows.elements@[cs[f].windows.focused as int])
            } else {
                None
            }
        },
    };
    match foreground {
        Some(h) => if w.floating_contains(h) {
            Some(Window { hwnd: h })
        } else {
            managed
        },
        None => managed,
    }
}

/// The hide requests of a whole workspace: floating windows in reverse
/// order, tiled containers in reverse ring order, then the monocle
/// container.
pub open spec fn spec_workspace_hide_actions(
    w: Workspace,
    behaviour: HidingBehaviour,
    omit: Option<isize>,
) -> Seq<OsAction> {
    let fl_acts = crate::container::spec_hide_actions(w.floating_windows@, behaviour, omit);
    let cs_acts = spec_cs_hide_actions(w.containers.elements@, behaviour, omit);
    let mono_acts: Seq<OsAction> = match w.monocle_container {
        Some(m) => crate::container::spec_hide_actions(m.windows.elements@, behaviour, omit),
        None => Seq::empty(),
    };
    fl_acts + cs_acts + mono_acts
}

/// The hidden-handle record after a whole workspace hides.
pub open spec fn spec_workspace_hidden(
    h0: Seq<isize>,
    w: Workspace,
    omit: Option<isize>,
) -> Seq<isize> {
    let h1 = crate::container::spec_hidden_after(h0, w.floating_windows@, omit);
    let h2 = spec_cs_hidden(h1, w.containers.elements@, omit);
    match w.monocle_container {
        Some(m) => crate::container::spec_hidden_after(h2, m.windows.elements@, omit),
        None => h2,
    }
}

/// The requests a workspace restore emits, given the maximized-handle
/// record at its start.
pub open spec fn spec_restore_actions(
    w: Workspace,
    maximized: Seq<isize>,
    behaviour: HidingBehaviour,
    mouse_follows_focus: bool,
) -> Seq<OsAction> {
    match spec_window_to_be_maximized(w, maximized) {
        Some(win) => seq![
            OsAction::Maximize(win.hwnd),
            OsAction::RaiseNoTopmost(win.hwnd),
            OsAction::Focus { hwnd: win.hwnd, mouse_follows_focus },
        ] + spec_restore_each_actions(w.floating_windows@, Some(win.hwnd), behaviour, 0),
        None => {
            let cs_acts = spec_restore_cs_actions(w.containers.elements@, behaviour, 0);
            let mono_acts: Seq<OsAction> = match w.monocle_container {
                Some(m) => if m.windows.focused < m.windows.elements@.len() {
                    seq![
                        m.windows.elements@[m.windows.focused as int].spec_restore_action(
                            behaviour,
                        ),
                    ]
                } else {
                    Seq::empty()
                },
                None => Seq::empty(),
            };
            cs_acts + mono_acts + spec_restore_each_actions(
                w.floating_windows@,
                None,
                behaviour,
                0,
            )
        },
    }
}

/// The hidden-handle record after a workspace restore.
pub open spec fn spec_restore_hidden(
    w: Workspace,
    h0: Seq<isize>,
    maximized: Seq<isize>,
) -> Seq<isize> {
    match spec_window_to_be_maximized(w, maximized) {
        Some(win) => spec_restore_each_hidden(
            without_first(h0, win.hwnd),
            w.floating_windows@,
            Some(win.hwnd),
            0,
        ),
        None => {
            let h1 = spec_restore_cs_hidden(h0, w.containers.elements@, 0);
            let h2 = match w.monocle_container {
                Some(m) => if m.windows.focused < m.windows.elements@.len() {
                    without_first(h1, m.windows.elements@[m.windows.focused as int].hwnd)
                } else {
                    h1
                },
                None => h1,
            };
            spec_restore_each_hidden(h2, w.floating_windows@, None, 0)
        },
    }
}

/// The maximized-handle record after a workspace restore.
pub open spec fn spec_restore_maximized(w: Workspace, maximized: Seq<isize>) -> Seq<isize> {
    match spec_window_to_be_maximized(w, maximized) {
        Some(win) => pushed_if_absent(maximized, win.hwnd),
        None => maximized,
    }
}

impl Workspace {
    /// Brings the workspace back on screen. When a window was maximized
    /// programmatically it is re-maximized, focused, and every other
    /// floating window is restored; otherwise every tiled container and
    /// the monocle container restore their focused windows and the
    /// floating windows are restored.
    pub fn restore(
        &self,
        state: &mut WindowState,
        behaviour: HidingBehaviour,
        mouse_follows_focus: bool,
    ) -> (r: Vec<OsAction>)
        ensures
            final(state).maximized@ == spec_restore_maximized(*self, old(state).maximized@),
            final(state).hidden@ == spec_restore_hidden(
                *self,
                old(state).hidden@,
                old(state).maximized@,
            ),
            r@ == spec_restore_actions(
                *self,
                old(state).maximized@,
                behaviour,
                mouse_follows_focus,
            ),
    {
        let mut actions: Vec<OsAction> = Vec::new();
        let maximized_window: Option<Window> = match self.get_window_to_be_maximized(state) {
            Some(w) => Some(*w),
            None => None,
        };
        if let Some(w) = maximized_window {
            let mut acts = w.maximize(state);
            actions.append(&mut acts);
            actions.push(OsAction::Focus { hwnd: w.hwnd, mouse_follows_focus });
            let ghost pre_restore = actions@;
            let n = self.floating_windows.len();
            let ghost fl = self.floating_windows@;
            let ghost h1 = state.hidden@;
            let mut i: usize = 0;
            while i < n
                invariant
                    n == fl.len(),
                    fl == self.floating_windows@,
                    i <= n,
                    state.maximized@ == pushed_if_absent(old(state).maximized@, w.hwnd),
                    actions@.take(pre_restore.len() as int) == pre_restore,
                    pre_restore.len() <= actions@.len(),
                    actions@.skip(pre_restore.len() as int) + spec_restore_each_actions(
                        fl,
                        Some(w.hwnd),
                        behaviour,
                        i as int,
                    ) =~= spec_restore_each_actions(fl, Some(w.hwnd), behaviour, 0),
                    spec_restore_each_hidden(state.hidden@, fl, Some(w.hwnd), i as int)
                        == spec_restore_each_hidden(h1, fl, Some(w.hwnd), 0),
                decreases n - i,
            {
                let fw = self.floating_windows[i];
                if fw.hwnd != w.hwnd {
                    let act = fw.restore(state, behaviour);
                    actions.push(act);
                }
                proof {
                    assert(actions@.skip(pre_restore.len() as int) + spec_restore_each_actions(
                        fl,
                        Some(w.hwnd),
                        behaviour,
                        i + 1,
                    ) =~= spec_restore_each_actions(fl, Some(w.hwnd), behaviour, 0));
                    assert(actions@.take(pre_restore.len() as int) =~= pre_restore);
                }
                i = i + 1;
            }
            proof {
                assert(actions@ =~= pre_restore + spec_restore_each_actions(
                    fl,
                    Some(w.hwnd),
                    behaviour,
                    0,
                ));
                assert(pre_restore =~= seq![
                    OsAction::Maximize(w.hwnd),
                    OsAction::RaiseNoTopmost(w.hwnd),
                    OsAction::Focus { hwnd: w.hwnd, mouse_follows_focus },
                ]);
            }
            return actions;
        }
        let cs = &self.containers.elements;
        let ncs = cs.len();
        let ghost csv = self.containers.elements@;
        let ghost h0 = state.hidden@;
        let mut k: usize = 0;
        while k < ncs
            invariant
                ncs == csv.len(),
                cs == &self.containers.elements,
                csv == self.containers.elements@,
                k <= ncs,
                state.maximized@ == old(state).maximized@,
                h0 == old(state).hidden@,
                actions@ + spec_restore_cs_actions(csv, behaviour, k as int)
                    =~= spec_restore_cs_actions(csv, behaviour, 0),
                spec_restore_cs_hidden(state.hidden@, csv, k as int) == spec_restore_cs_hidden(
                    h0,
                    csv,
                    0,
                ),
            decreases ncs - k,
        {
            let mut acts = cs[k].restore(state, behaviour);
            actions.append(&mut acts);
            proof {
                assert(actions@ + spec_restore_cs_actions(csv, behaviour, k + 1)
                    =~= spec_restore_cs_actions(csv, behaviour, 0));
            }
            k = k + 1;
        }
        if let Some(monocle) = &self.monocle_container {
            let mut acts = monocle.restore(state, behaviour);
            actions.append(&mut acts);
        }
        let ghost pre_float = actions@;
        let ghost h2 = state.hidden@;
        let n = self.floating_windows.len();
        let ghost fl = self.floating_windows@;
        let mut i: usize = 0;
        while i < n
            invariant
                n == fl.len(),
                fl == self.floating_windows@,
                i <= n,
                state.maximized@ == old(state).maximized@,
                actions@.take(pre_float.len() as int) == pre_float,
                pre_float.len() <= actions@.len(),
                actions@.skip(pre_float.len() as int) + spec_restore_each_actions(
                    fl,
                    None,
                    behaviour,
                    i as int,
                ) =~= spec_restore_each_actions(fl, None, behaviour, 0),
                spec_restore_each_hidden(state.hidden@, fl, None, i as int)
                    == spec_restore_each_hidden(h2, fl, None, 0),
            decreases n - i,
        {
            let fw = self.floating_windows[i];
            let act = fw.restore(state, behaviour);
            actions.push(act);
            proof {
                assert(actions@.skip(pre_float.len() as int) + spec_restore_each_actions(
                    fl,
                    None,
                    behaviour,
                    i + 1,
                ) =~= spec_restore_each_actions(fl, None, behaviour, 0));
                assert(actions@.take(pre_float.len() as int) =~= pre_float);
            }
            i = i + 1;
        }
        proof {
            let cs_acts = spec_restore_cs_actions(csv, behaviour, 0);
            let mono_acts: Seq<OsAction> = match &self.monocle_container {
                Some(m) => if m.windows.focused < m.windows.elements@.len() {
                    seq![
                        m.windows.elements@[m.windows.focused as int].spec_restore_action(
                            behaviour,
                        ),
                    ]
                } else {
                    Seq::empty()
                },
                None => Seq::empty(),
            };
            assert(pre_float =~= cs_acts + mono_acts);
            assert(actions@ =~= cs_acts + mono_acts + spec_restore_each_actions(
                fl,
                None,
                behaviour,
                0,
            ));
        }
        actions
    }

    /// Re-maximizes the focused window and hides everything else.
    pub fn maximize_focused_window(
        &self,
        state: &mut WindowState,
        behaviour: HidingBehaviour,
        foreground: Option<isize>,
    ) -> (r: Result<Vec<OsAction>, WmError>)
        ensures
            match r {
                Ok(actions) => ({
                    let w = spec_focused_window(*self, foreground)->0;
                    &&& spec_focused_window(*self, foreground) is Some
                    &&& final(state).maximized@ == pushed_if_absent(
                        old(state).maximized@,
                        w.hwnd,
                    )
                    &&& final(state).hidden@ == spec_workspace_hidden(
                        without_first(old(state).hidden@, w.hwnd),
                        *self,
                        Some(w.hwnd),
                    )
                    &&& actions@ == seq![
                        OsAction::Maximize(w.hwnd),
                        OsAction::RaiseNoTopmost(w.hwnd),
                    ] + spec_workspace_hide_actions(*self, behaviour, Some(w.hwnd))
                }),
                Err(e) => {
                    &&& e == WmError::NoWindow
                    &&& spec_focused_window(*self, foreground) is None
                    &&& *final(state) == *old(state)
                },
            },
    {
        let window = match self.focused_window(foreground) {
            Some(w) => *w,
            None => {
                return Err(WmError::NoWindow);
            },
        };
        let mut actions = window.maximize(state);
        let mut hide_acts = self.hide_windows(state, behaviour, Some(window.hwnd));
        actions.append(&mut hide_acts);
        proof {
            let w = spec_focused_window(*self, foreground)->0;
            assert(actions@ =~= seq![
                OsAction::Maximize(w.hwnd),
                OsAction::RaiseNoTopmost(w.hwnd),
            ] + spec_workspace_hide_actions(*self, behaviour, Some(w.hwnd)));
        }
        Ok(actions)
    }

    /// Undoes the focused window's maximization and restores the
    /// workspace.
    pub fn unmaximize_focused_window(
        &self,
        state: &mut WindowState,
        behaviour: HidingBehaviour,
        foreground: Option<isize>,
        mouse_follows_focus: bool,
    ) -> (r: Result<Vec<OsAction>, WmError>)
        ensures
            match r {
                Ok(actions) => ({
                    let w = spec_focused_window(*self, foreground)->0;
                    let max1 = without_first(old(state).maximized@, w.hwnd);
                    let h1 = without_first(old(state).hidden@, w.hwnd);
                    &&& spec_focused_window(*self, foreground) is Some
                    &&& final(state).maximized@ == spec_restore_maximized(*self, max1)
                    &&& final(state).hidden@ == spec_restore_hidden(*self, h1, max1)
                    &&& actions@ == seq![
                        OsAction::Unmaximize(w.hwnd),
                        OsAction::Delay(35),
                    ] + spec_restore_actions(*self, max1, behaviour, mouse_follows_focus)
                }),
                Err(e) => {
                    &&& e == WmError::NoWindow
                    &&& spec_focused_window(*self, foreground) is None
                    &&& *final(state) == *old(state)
                },
            },
    {
        let window = match self.focused_window(foreground) {
            Some(w) => *w,
            None => {
                return Err(WmError::NoWindow);
            },
        };
        let mut actions = window.unmaximize(state);
        let mut rest = self.restore(state, behaviour, mouse_follows_focus);
        actions.append(&mut rest);
        proof {
            let w = spec_focused_window(*self, foreground)->0;
            let max1 = without_first(old(state).maximized@, w.hwnd);
            assert(actions@ =~= seq![OsAction::Unmaximize(w.hwnd), OsAction::Delay(35)]
                + spec_restore_actions(*self, max1, behaviour, mouse_follows_focus));
        }
        Ok(actions)
    }

    /// Toggles the focused window between maximized and restored, given
    /// the OS's answer to whether it is currently maximized.
    pub fn toggle_maximize_focused_window(
        &self,
        state: &mut WindowState,
        behaviour: HidingBehaviour,
        foreground: Option<isize>,
        mouse_follows_focus: bool,
        focused_is_maximized: bool,
    ) -> (r: Result<Vec<OsAction>, WmError>)
        ensures
            r is Err <==> spec_focused_window(*self, foreground) is None,
            r is Err ==> r->Err_0 == WmError::NoWindow && *final(state) == *old(state),
            r matches Ok(actions) ==> ({
                let w = spec_focused_window(*self, foreground)->0;
                if focused_is_maximized {
                    let max1 = without_first(old(state).maximized@, w.hwnd);
                    let h1 = without_first(old(state).hidden@, w.hwnd);
                    &&& final(state).maximized@ == spec_restore_maximized(*self, max1)
                    &&& final(state).hidden@ == spec_restore_hidden(*self, h1, max1)
                    &&& actions@ == seq![
                        OsAction::Unmaximize(w.hwnd),
                        OsAction::Delay(35),
                    ] + spec_restore_actions(*self, max1, behaviour, mouse_follows_focus)
                } else {
                    &&& final(state).maximized@ == pushed_if_absent(
                        old(state).maximized@,
                        w.hwnd,
                    )
                    &&& final(state).hidden@ == spec_workspace_hidden(
                        without_first(old(state).hidden@, w.hwnd),
                        *self,
                        Some(w.hwnd),
                    )
                    &&& actions@ == seq![
                        OsAction::Maximize(w.hwnd),
                        OsAction::RaiseNoTopmost(w.hwnd),
                    ] + spec_workspace_hide_actions(*self, behaviour, Some(w.hwnd))
                }
            }),
    {
        if self.focused_window(foreground).is_none() {
            return Err(WmError::NoWindow);
        }
        if focused_is_maximized {
            self.unmaximize_focused_window(state, behaviour, foreground, mouse_follows_focus)
        } else {
            self.maximize_focused_window(state, behaviour, foreground)
        }
    }
}

/// The per-workspace configuration, already loaded from disk by the
/// caller: custom layout definitions arrive resolved to what the core
/// reads of them.
pub struct WorkspaceConfig {
    /// The workspace name.
    pub name: String,
    /// The built-in layout to select, if any.
    pub layout: Option<DefaultLayout>,
    /// The custom layout to select, if any; it wins over `layout`.
    pub custom_layout: Option<crate::layout::CustomLayout>,
    /// Thresholds mapping container counts to built-in layouts.
    pub layout_rules: Option<Vec<(usize, DefaultLayout)>>,
    /// Thresholds mapping container counts to custom layouts, appended
    /// after the built-in rules.
    pub custom_layout_rules: Option<Vec<(usize, crate::layout::CustomLayout)>>,
    /// Container padding override.
    pub container_padding: Option<i32>,
    /// Workspace padding override.
    pub workspace_padding: Option<i32>,
}

/// The layout rules a configuration yields: the built-in rules in order,
/// then the custom rules.
pub open spec fn spec_config_rules(config: WorkspaceConfig) -> Seq<(usize, Layout)> {
    let base: Seq<(usize, Layout)> = match config.layout_rules {
        Some(rules) => Seq::new(
            rules@.len(),
            |i: int| (rules@[i].0, Layout::Default(rules@[i].1)),
        ),
        None => Seq::empty(),
    };
    match config.custom_layout_rules {
        Some(rules) => base + Seq::new(
            rules@.len(),
            |i: int| (rules@[i].0, Layout::Custom(rules@[i].1)),
        ),
        None => base,
    }
}

impl Workspace {
    /// Applies a configuration: name and paddings are taken over, the
    /// layout is selected (a custom layout wins; neither configured
    /// disables tiling), and the layout rules are rebuilt: configured
    /// built-in rules replace the old ones, configured custom rules are
    /// appended.
    pub fn load_static_config(&mut self, config: &WorkspaceConfig)
        ensures
            final(self).name == Some(config.name),
            final(self).container_padding == (match config.container_padding {
                Some(p) => Some(p),
                None => old(self).container_padding,
            }),
            final(self).workspace_padding == (match config.workspace_padding {
                Some(p) => Some(p),
                None => old(self).workspace_padding,
            }),
            final(self).layout == (match (config.custom_layout, config.layout) {
                (Some(custom), _) => Layout::Custom(custom),
                (None, Some(default)) => Layout::Default(default),
                (None, None) => old(self).layout,
            }),
            final(self).tile == (config.custom_layout is Some || config.layout is Some),
            final(self).layout_rules@ == (if config.layout_rules is Some {
                spec_config_rules(*config)
            } else {
                old(self).layout_rules@ + (match config.custom_layout_rules {
                    Some(_) => spec_config_rules(*config),
                    None => Seq::<(usize, Layout)>::empty(),
                })
            }),
            *final(self) == (Workspace {
                name: final(self).name,
                layout: final(self).layout,
                layout_rules: final(self).layout_rules,
                workspace_padding: final(self).workspace_padding,
                container_padding: final(self).container_padding,
                tile: final(self).tile,
                ..*old(self)
            }),
    {
        self.name = Some(config.name.clone());
        if config.container_padding.is_some() {
            self.container_padding = config.container_padding;
        }
        if config.workspace_padding.is_some() {
            self.workspace_padding = config.workspace_padding;
        }
        if let Some(layout) = config.layout {
            self.layout = Layout::Default(layout);
            self.tile = true;
        }
        if let Some(custom) = config.custom_layout {
            self.layout = Layout::Custom(custom);
            self.tile = true;
        }
        if config.custom_layout.is_none() && config.layout.is_none() {
            self.tile = false;
        }
        if let Some(rules) = &config.layout_rules {
            let mut all_rules: Vec<(usize, Layout)> = Vec::new();
            let n = rules.len();
            let mut i: usize = 0;
            while i < n
                invariant
                    n == rules@.len(),
                    i <= n,
                    all_rules@.len() == i,
                    forall|j: int|
                        0 <= j < i ==> all_rules@[j] == (rules@[j].0, Layout::Default(rules@[j].1)),
                decreases n - i,
            {
                let rule = rules[i];
                all_rules.push((rule.0, Layout::Default(rule.1)));
                i = i + 1;
            }
            self.layout_rules = all_rules;
        }
        let ghost base = self.layout_rules@;
        let ghost pre_loop = *self;
        if let Some(rules) = &config.custom_layout_rules {
            let n = rules.len();
            let mut i: usize = 0;
            while i < n
                invariant
                    n == rules@.len(),
                    i <= n,
                    config.custom_layout_rules matches Some(r2) && rules == &r2,
                    self.layout_rules@.len() == base.len() + i,
                    forall|j: int| 0 <= j < base.len() ==> self.layout_rules@[j] == base[j],
                    forall|j: int|
                        0 <= j < i ==> self.layout_rules@[base.len() + j] == (
                            rules@[j].0,
                            Layout::Custom(rules@[j].1),
                        ),
                    *self == (Workspace { layout_rules: self.layout_rules, ..pre_loop }),
                decreases n - i,
            {
                let rule = rules[i];
                self.layout_rules.push((rule.0, Layout::Custom(rule.1)));
                i = i + 1;
            }
        }
        proof {
            let built: Seq<(usize, Layout)> = match &config.layout_rules {
                Some(rules) => Seq::new(
                    rules@.len(),
                    |i: int| (rules@[i].0, Layout::Default(rules@[i].1)),
                ),
                None => Seq::empty(),
            };
            let custom: Seq<(usize, Layout)> = match &config.custom_layout_rules {
                Some(rules) => Seq::new(
                    rules@.len(),
                    |i: int| (rules@[i].0, Layout::Custom(rules@[i].1)),
                ),
                None => Seq::empty(),
            };
            assert(spec_config_rules(*config) =~= built + custom);
            assert(base =~= (if config.layout_rules is Some {
                built
            } else {
                old(self).layout_rules@
            }));
            assert(self.layout_rules@ =~= base + custom);
            assert(self.layout_rules@ =~= (if config.layout_rules is Some {
                spec_config_rules(*config)
            } else {
                old(self).layout_rules@ + (match config.custom_layout_rules {
                    Some(_) => spec_config_rules(*config),
                    None => Seq::<(usize, Layout)>::empty(),
                })
            }));
        }
    }

    /// Focuses the container holding `hwnd` and the window itself inside
    /// it; the container reloads when the window was not already its
    /// focused one.
    pub fn focus_container_by_window(
        &mut self,
        hwnd: isize,
        state: &mut WindowState,
        behaviour: HidingBehaviour,
    ) -> (r: Result<Vec<OsAction>, WmError>)
        requires
            old(self).inv(),
        ensures
            final(self).inv(),
            final(state).maximized@ == old(state).maximized@,
            match r {
                Ok(actions) => ({
                    let cs = old(self).containers.elements@;
                    exists|k: int, wi: int|
                        {
                            &&& #[trigger] last_container_occurrence(cs, hwnd, k)
                            &&& #[trigger] last_window_occurrence(cs[k].windows.elements@, hwnd, wi)
                            &&& ({
                                let c2 = final(self).containers.elements@[k];
                                &&& final(self).containers.elements@ == cs.update(k, c2)
                                &&& c2.windows.elements@ == cs[k].windows.elements@
                                &&& c2.windows.focused == wi
                                &&& c2.id == cs[k].id
                                &&& c2.categories == cs[k].categories
                                &&& c2.wait_for_minimization == cs[k].wait_for_minimization
                                &&& final(self).containers.focused == k
                                &&& *final(self) == (Workspace {
                                    containers: final(self).containers,
                                    ..*old(self)
                                })
                                &&& if cs[k].windows.focused != wi {
                                    &&& actions@ == crate::container::spec_load_actions(
                                        c2,
                                        behaviour,
                                    )
                                    &&& final(state).hidden@
                                        == crate::container::spec_load_hidden(
                                        old(state).hidden@,
                                        c2,
                                    )
                                } else {
                                    &&& actions@ == Seq::<OsAction>::empty()
                                    &&& final(state).hidden@ == old(state).hidden@
                                }
                            })
                        }
                }),
                Err(e) => {
                    &&& e == WmError::NoWindow
                    &&& !old(self).tiled_contains(hwnd)
                    &&& *final(self) == *old(self)
                    &&& *final(state) == *old(state)
                },
            },
    {
        let container_idx = match self.container_idx_for_window(hwnd) {
            Some(k) => k,
            None => {
                return Err(WmError::NoWindow);
            },
        };
        let ghost cs = self.containers.elements@;
        let mut actions: Vec<OsAction> = Vec::new();
        let mut focused_ok = false;
        let mut should_load = false;
        match self.containers.get_mut(container_idx) {
            Some(c) => {
                let window_idx = match c.idx_for_window(hwnd) {
                    Some(wi) => wi,
                    None => {
                        return Err(WmError::NoWindow);
                    },
                };
                should_load = c.focused_window_idx() != window_idx;
                c.focus_window(window_idx);
                focused_ok = true;
                proof {
                    let c2 = *final(c);
                    lemma_cs_update(cs, container_idx as int, c2, None);
                }
            },
            None => {},
        }
        if !focused_ok {
            return Err(WmError::NoWindow);
        }
        if should_load {
            match self.containers.get(container_idx) {
                Some(c) => {
                    actions = c.load_focused_window(state, behaviour);
                },
                None => {},
            }
        }
        self.focus_container(container_idx);
        Ok(actions)
    }
}

/// Whether a container's focused (visible) window is an orphan: its
/// handle no longer refers to a live OS window.
pub open spec fn spec_visible_dead(c: Container, dead: Seq<isize>) -> bool {
    c.windows.focused < c.windows.elements@.len() && dead.contains(
        c.windows.elements@[c.windows.focused as int].hwnd,
    )
}

/// Whether the monocle container's focused (visible) window is an
/// orphan.
pub open spec fn spec_monocle_visible_dead(w: Workspace, dead: Seq<isize>) -> bool {
    match w.monocle_container {
        Some(m) => spec_visible_dead(m, dead),
        None => false,
    }
}

/// The relation between the containers (and their resize slots) before
/// and after every visible orphan is reaped: a container emptied by the
/// removal disappears together with its slot; a surviving one keeps its
/// remaining windows with focus fallen back; the rest are untouched.
pub open spec fn spec_reaped(
    cs: Seq<Container>,
    rd: Seq<Option<Rect>>,
    dead: Seq<isize>,
    out_cs: Seq<Container>,
    out_rd: Seq<Option<Rect>>,
) -> bool
    decreases cs.len(),
{
    if cs.len() == 0 {
        out_cs == Seq::<Container>::empty() && out_rd == rd
    } else if rd.len() != cs.len() {
        false
    } else {
        let c = cs.last();
        if spec_visible_dead(c, dead) {
            if c.windows.elements@.len() == 1 {
                spec_reaped(cs.drop_last(), rd.drop_last(), dead, out_cs, out_rd)
            } else {
                let wf = c.windows.focused as int;
                &&& out_cs.len() > 0
                &&& out_rd.len() > 0
                &&& ({
                    let c2 = out_cs.last();
                    &&& c2.windows.elements@ == c.windows.elements@.remove(wf)
                    &&& c2.windows.focused == (if wf != 0 {
                        wf - 1
                    } else {
                        wf
                    })
                    &&& c2.id == c.id
                    &&& c2.categories == c.categories
                    &&& c2.wait_for_minimization == c.wait_for_minimization
                })
                &&& out_rd.last() == rd.last()
                &&& spec_reaped(
                    cs.drop_last(),
                    rd.drop_last(),
                    dead,
                    out_cs.drop_last(),
                    out_rd.drop_last(),
                )
            }
        } else {
            &&& out_cs.len() > 0
            &&& out_rd.len() > 0
            &&& out_cs.last() == c
            &&& out_rd.last() == rd.last()
            &&& spec_reaped(
                cs.drop_last(),
                rd.drop_last(),
                dead,
                out_cs.drop_last(),
                out_rd.drop_last(),
            )
        }
    }
}

/// The requests emitted while reaping visible orphans, in container
/// order: each surviving container reloads its newly focused window.
pub open spec fn spec_reap_actions(
    cs: Seq<Container>,
    dead: Seq<isize>,
    behaviour: HidingBehaviour,
) -> Seq<OsAction>
    decreases cs.len(),
{
    if cs.len() == 0 {
        Seq::empty()
    } else {
        let rest = spec_reap_actions(cs.drop_last(), dead, behaviour);
        let c = cs.last();
        if spec_visible_dead(c, dead) && c.windows.elements@.len() > 1 {
            let wf = c.windows.focused as int;
            rest + crate::container::spec_load_actions_at(
                c.windows.elements@.remove(wf),
                if wf != 0 {
                    wf - 1
                } else {
                    wf
                },
                c.wait_for_minimization,
                behaviour,
            )
        } else {
            rest
        }
    }
}

/// The hidden-handle record after reaping visible orphans.
pub open spec fn spec_reap_hidden(h0: Seq<isize>, cs: Seq<Container>, dead: Seq<isize>) -> Seq<
    isize,
>
    decreases cs.len(),
{
    if cs.len() == 0 {
        h0
    } else {
        let h1 = spec_reap_hidden(h0, cs.drop_last(), dead);
        let c = cs.last();
        if spec_visible_dead(c, dead) && c.windows.elements@.len() > 1 {
            let wf = c.windows.focused as int;
            crate::container::spec_load_hidden_at(
                h1,
                c.windows.elements@.remove(wf),
                if wf != 0 {
                    wf - 1
                } else {
                    wf
                },
            )
        } else {
            h1
        }
    }
}

/// The number of containers that disappear while reaping: the visible
/// orphans whose container held only them.
pub open spec fn spec_count_reap_pruned(cs: Seq<Container>, dead: Seq<isize>) -> int
    decreases cs.len(),
{
    if cs.len() == 0 {
        0
    } else {
        spec_count_reap_pruned(cs.drop_last(), dead) + if spec_visible_dead(cs.last(), dead)
            && cs.last().windows.elements@.len() == 1 {
            1int
        } else {
            0int
        }
    }
}

/// The number of visible orphans among the containers.
pub open spec fn spec_count_dead_visible(cs: Seq<Container>, dead: Seq<isize>) -> int
    decreases cs.len(),
{
    if cs.len() == 0 {
        0
    } else {
        spec_count_dead_visible(cs.drop_last(), dead) + if spec_visible_dead(cs.last(), dead) {
            1int
        } else {
            0int
        }
    }
}

/// The floating windows that survive reaping: those whose handle is
/// still alive.
pub open spec fn spec_fl_kept(fl: Seq<Window>, dead: Seq<isize>) -> Seq<Window>
    decreases fl.len(),
{
    if fl.len() == 0 {
        Seq::empty()
    } else {
        let rest = spec_fl_kept(fl.drop_last(), dead);
        if dead.contains(fl.last().hwnd) {
            rest
        } else {
            rest + seq![fl.last()]
        }
    }
}

/// The containers that survive the final pruning pass: the non-empty
/// ones, in order.
pub open spec fn spec_prune_empty(cs: Seq<Container>) -> Seq<Container>
    decreases cs.len(),
{
    if cs.len() == 0 {
        Seq::empty()
    } else {
        let rest = spec_prune_empty(cs.drop_last());
        if cs.last().windows.elements@.len() == 0 {
            rest
        } else {
            rest + seq![cs.last()]
        }
    }
}

/// The resize overrides that survive the final pruning pass, paired with
/// their containers.
pub open spec fn spec_prune_resize(cs: Seq<Container>, rd: Seq<Option<Rect>>) -> Seq<Option<Rect>>
    decreases cs.len(),
{
    if cs.len() == 0 || rd.len() != cs.len() {
        rd
    } else {
        let rest = spec_prune_resize(cs.drop_last(), rd.drop_last());
        if cs.last().windows.elements@.len() == 0 {
            rest
        } else {
            rest + seq![rd.last()]
        }
    }
}

impl Workspace {
    /// Reaps orphans: every visible (focused-per-container) window whose
    /// handle is in `dead` is removed, the monocle container's focused
    /// window is removed likewise (dissolving the monocle, with its
    /// restore index and saved override, when it empties), dead floating
    /// windows are dropped, and containers left empty are pruned with
    /// their resize slots. Returns how many windows and containers were
    /// removed, with the reload requests of the surviving containers.
    pub fn reap_orphans(
        &mut self,
        dead: &Vec<isize>,
        state: &mut WindowState,
        behaviour: HidingBehaviour,
    ) -> (r: ((usize, usize), Vec<OsAction>))
        requires
            old(self).inv(),
            old(self).containers.elements@.len() + old(self).floating_windows@.len()
                < usize::MAX,
        ensures
            final(self).inv(),
            final(state).maximized@ == old(state).maximized@,
            *final(self) == (Workspace {
                containers: final(self).containers,
                resize_dimensions: final(self).resize_dimensions,
                floating_windows: final(self).floating_windows,
                monocle_container: final(self).monocle_container,
                monocle_container_restore_idx: final(self).monocle_container_restore_idx,
                monocle_resize_dimension: final(self).monocle_resize_dimension,
                ..*old(self)
            }),
            if spec_monocle_visible_dead(*old(self), dead@) {
                let m = old(self).monocle_container->0;
                let wf = m.windows.focused as int;
                if m.windows.elements@.len() == 1 {
                    &&& final(self).monocle_container is None
                    &&& final(self).monocle_container_restore_idx is None
                    &&& final(self).monocle_resize_dimension is None
                } else {
                    let m2 = final(self).monocle_container->0;
                    &&& final(self).monocle_container is Some
                    &&& final(self).monocle_container_restore_idx == old(
                        self,
                    ).monocle_container_restore_idx
                    &&& final(self).monocle_resize_dimension == old(
                        self,
                    ).monocle_resize_dimension
                    &&& m2.windows.elements@ == m.windows.elements@.remove(wf)
                    &&& m2.windows.focused == (if wf != 0 {
                        wf - 1
                    } else {
                        m.windows.focused as int
                    })
                    &&& m2.id == m.id
                    &&& m2.categories == m.categories
                    &&& m2.wait_for_minimization == m.wait_for_minimization
                }
            } else {
                &&& final(self).monocle_container == old(self).monocle_container
                &&& final(self).monocle_container_restore_idx == old(
                    self,
                ).monocle_container_restore_idx
                &&& final(self).monocle_resize_dimension == old(self).monocle_resize_dimension
            },
            final(self).floating_windows@ == spec_fl_kept(old(self).floating_windows@, dead@),
            r.1@ == spec_reap_actions(old(self).containers.elements@, dead@, behaviour),
            final(state).hidden@ == spec_reap_hidden(
                old(state).hidden@,
                old(self).containers.elements@,
                dead@,
            ),
            r.0.0 as int == spec_count_dead_visible(old(self).containers.elements@, dead@) + (if spec_monocle_visible_dead(
                *old(self),
                dead@,
            ) {
                1int
            } else {
                0int
            }) + (old(self).floating_windows@.len() - spec_fl_kept(
                old(self).floating_windows@,
                dead@,
            ).len()),
            exists|mid_cs: Seq<Container>, mid_rd: Seq<Option<Rect>>|
                {
                    &&& #[trigger] spec_reaped(
                        old(self).containers.elements@,
                        old(self).resize_dimensions@,
                        dead@,
                        mid_cs,
                        mid_rd,
                    )
                    &&& final(self).containers.elements@ == spec_prune_empty(mid_cs)
                    &&& final(self).resize_dimensions@ == spec_prune_resize(mid_cs, mid_rd)
                    &&& r.0.1 as int == mid_cs.len() - spec_prune_empty(mid_cs).len()
                    &&& ({
                        let p = old(self).containers.elements@.len() - mid_cs.len();
                        final(self).containers.focused == (if old(self).containers.focused >= p {
                            old(self).containers.focused - p
                        } else {
                            0int
                        })
                    })
                },
    {
        let ghost orig_cs = self.containers.elements@;
        let ghost orig_rd = self.resize_dimensions@;
        let ghost h0 = state.hidden@;
        let mut actions: Vec<OsAction> = Vec::new();
        let mut removed_windows: usize = 0;
        let mut k: usize = 0;
        let ghost mut j: int = 0;
        proof {
            assert(orig_cs.take(0) =~= Seq::<Container>::empty());
            assert(orig_rd.take(0) =~= Seq::<Option<Rect>>::empty());
            assert(orig_cs.skip(0) =~= orig_cs);
            assert(orig_rd.skip(0) =~= orig_rd);
        }
        while k < self.containers.elements.len()
            invariant
                self.inv(),
                old(self).inv(),
                0 <= j <= orig_cs.len(),
                k as int <= j,
                k as int <= self.containers.elements@.len(),
                k as int <= self.resize_dimensions@.len(),
                orig_cs.len() == orig_rd.len(),
                self.containers.elements@.len() - k == orig_cs.len() - j,
                self.containers.elements@.skip(k as int) =~= orig_cs.skip(j),
                self.resize_dimensions@.skip(k as int) =~= orig_rd.skip(j),
                spec_reaped(
                    orig_cs.take(j),
                    orig_rd.take(j),
                    dead@,
                    self.containers.elements@.take(k as int),
                    self.resize_dimensions@.take(k as int),
                ),
                actions@ == spec_reap_actions(orig_cs.take(j), dead@, behaviour),
                state.hidden@ == spec_reap_hidden(h0, orig_cs.take(j), dead@),
                state.maximized@ == old(state).maximized@,
                removed_windows as int == spec_count_dead_visible(orig_cs.take(j), dead@),
                removed_windows as int <= j,
                orig_cs.len() < usize::MAX,
                j - k == spec_count_reap_pruned(orig_cs.take(j), dead@),
                self.containers.focused == (if old(self).containers.focused >= j - k {
                    old(self).containers.focused - (j - k)
                } else {
                    0int
                }),
                orig_cs == old(self).containers.elements@,
                orig_rd == old(self).resize_dimensions@,
                h0 == old(state).hidden@,
                *self == (Workspace {
                    containers: self.containers,
                    resize_dimensions: self.resize_dimensions,
                    ..*old(self)
                }),
            decreases orig_cs.len() - j,
        {
            let ghost pre = *self;
            proof {
                assert(self.containers.elements@.skip(k as int)[0] == orig_cs.skip(j)[0]);
                assert(self.containers.elements@[k as int] == orig_cs[j]);
                assert(self.resize_dimensions@.skip(k as int)[0] == orig_rd.skip(j)[0]);
                assert(self.resize_dimensions@[k as int] == orig_rd[j]);
                assert(orig_cs.take(j + 1).drop_last() =~= orig_cs.take(j));
                assert(orig_rd.take(j + 1).drop_last() =~= orig_rd.take(j));
                assert(orig_cs.take(j + 1).last() == orig_cs[j]);
                assert(orig_rd.take(j + 1).last() == orig_rd[j]);
            }
            let (is_dead, is_single) = {
                let c = &self.containers.elements[k];
                let wf = c.windows.focused_idx();
                let nw = c.windows.elements.len();
                if wf < nw {
                    let h = c.windows.elements[wf].hwnd;
                    (crate::window::contains_hwnd(dead, h), nw == 1)
                } else {
                    (false, false)
                }
            };
            if is_dead && is_single {
                let _removed = self.remove_container_by_idx(k);
                self.focus_previous_container();
                removed_windows = removed_windows + 1;
                proof {
                    j = j + 1;
                    assert(self.containers.elements@.take(k as int) =~= pre.containers.elements@.take(
                        k as int,
                    ));
                    assert(self.resize_dimensions@.take(k as int)
                        =~= pre.resize_dimensions@.take(k as int));
                    assert(pre.containers.elements@.skip(k as int).drop_first()
                        =~= pre.containers.elements@.skip(k + 1));
                    assert(orig_cs.skip(j - 1).drop_first() =~= orig_cs.skip(j));
                    assert(pre.resize_dimensions@.skip(k as int).drop_first()
                        =~= pre.resize_dimensions@.skip(k + 1));
                    assert(orig_rd.skip(j - 1).drop_first() =~= orig_rd.skip(j));
                    assert(self.containers.elements@.skip(k as int)
                        =~= pre.containers.elements@.skip(k + 1));
                    assert(self.resize_dimensions@.skip(k as int)
                        =~= pre.resize_dimensions@.skip(k + 1));
                    assert(self.containers.elements@.skip(k as int) =~= orig_cs.skip(j));
                    assert(self.resize_dimensions@.skip(k as int) =~= orig_rd.skip(j));
                    assert(spec_visible_dead(orig_cs[j - 1], dead@));
                }
            } else if is_dead {
                let mut load_acts: Vec<OsAction> = Vec::new();
                match self.containers.get_mut(k) {
                    Some(c) => {
                        let _w = c.remove_focused_window();
                        proof {
                            let c2 = *final(c);
                            let cw = pre.containers.elements@[k as int].windows.elements@;
                            let wf = pre.containers.elements@[k as int].windows.focused as int;
                            assert forall|h: isize|
                                #[trigger] windows_contain(c2.windows.elements@, h) implies windows_contain(
                                cw,
                                h,
                            ) by {
                                lemma_contain_remove(cw, wf, h);
                            }
                            lemma_cs_update(pre.containers.elements@, k as int, c2, None);
                        }
                    },
                    None => {},
                }
                match self.containers.get(k) {
                    Some(c) => {
                        load_acts = c.load_focused_window(state, behaviour);
                    },
                    None => {},
                }
                actions.append(&mut load_acts);
                removed_windows = removed_windows + 1;
                proof {
                    j = j + 1;
                    assert(self.containers.elements@.take(k + 1).drop_last()
                        =~= pre.containers.elements@.take(k as int));
                    assert(self.resize_dimensions@.take(k + 1).drop_last()
                        =~= pre.resize_dimensions@.take(k as int));
                    assert(pre.containers.elements@.skip(k as int).drop_first()
                        =~= pre.containers.elements@.skip(k + 1));
                    assert(orig_cs.skip(j - 1).drop_first() =~= orig_cs.skip(j));
                    assert(pre.resize_dimensions@.skip(k as int).drop_first()
                        =~= pre.resize_dimensions@.skip(k + 1));
                    assert(orig_rd.skip(j - 1).drop_first() =~= orig_rd.skip(j));
                    assert(self.containers.elements@.skip(k + 1)
                        =~= pre.containers.elements@.skip(k + 1));
                    assert(self.containers.elements@.skip(k + 1) =~= orig_cs.skip(j));
                    assert(self.resize_dimensions@.skip(k + 1) =~= orig_rd.skip(j));
                    assert(spec_visible_dead(orig_cs[j - 1], dead@));
                    assert(orig_cs[j - 1].windows.elements@.len() > 1);
                }
                k = k + 1;
            } else {
                proof {
                    j = j + 1;
                    assert(self.containers.elements@.take(k + 1).drop_last()
                        =~= self.containers.elements@.take(k as int));
                    assert(self.resize_dimensions@.take(k + 1).drop_last()
                        =~= self.resize_dimensions@.take(k as int));
                    assert(self.containers.elements@.take(k + 1).last()
                        == self.containers.elements@[k as int]);
                    assert(self.containers.elements@.skip(k as int).drop_first()
                        =~= self.containers.elements@.skip(k + 1));
                    assert(orig_cs.skip(j - 1).drop_first() =~= orig_cs.skip(j));
                    assert(self.resize_dimensions@.skip(k as int).drop_first()
                        =~= self.resize_dimensions@.skip(k + 1));
                    assert(orig_rd.skip(j - 1).drop_first() =~= orig_rd.skip(j));
                    assert(self.containers.elements@.skip(k + 1) =~= orig_cs.skip(j));
                    assert(self.resize_dimensions@.skip(k + 1) =~= orig_rd.skip(j));
                    assert(!spec_visible_dead(orig_cs[j - 1], dead@));
                }
                k = k + 1;
            }
        }
        proof {
            assert(orig_cs.take(j) =~= orig_cs);
            assert(orig_rd.take(j) =~= orig_rd);
            assert(self.containers.elements@.take(k as int) =~= self.containers.elements@);
            assert(self.resize_dimensions@.take(k as int) =~= self.resize_dimensions@);
        }
        let ghost mid_cs = self.containers.elements@;
        let ghost mid_rd = self.resize_dimensions@;
        let ghost mid_cursor = self.containers.focused;

        // The monocle container's visible window.
        let mut monocle_removed: usize = 0;
        if self.monocle_container.is_some() {
            let mono = self.monocle_container.take();
            if let Some(mut m) = mono {
                let ghost m0 = m;
                let wf = m.focused_window_idx();
                let nw = m.windows().len();
                let focused_dead = if wf < nw {
                    crate::window::contains_hwnd(dead, m.windows().as_slice()[wf].hwnd)
                } else {
                    false
                };
                if focused_dead {
                    m.remove_window_by_idx(wf);
                    monocle_removed = 1;
                    proof {
                        lemma_distinct_remove(m0.windows.elements@, wf as int);
                    }
                    if m.windows().len() == 0 {
                        self.monocle_container_restore_idx = None;
                        self.monocle_resize_dimension = None;
                    } else {
                        self.monocle_container = Some(m);
                        proof {
                            let m2 = self.monocle_container->0;
                            assert forall|kk: int|
                                0 <= kk < self.containers.elements@.len() implies windows_disjoint(
                                #[trigger] self.containers.elements@[kk].windows.elements@,
                                m2.windows.elements@,
                            ) by {
                                assert forall|g: isize|
                                    !(#[trigger] windows_contain(
                                        self.containers.elements@[kk].windows.elements@,
                                        g,
                                    ) && #[trigger] windows_contain(m2.windows.elements@, g)) by {
                                    lemma_contain_remove(m0.windows.elements@, wf as int, g);
                                    assert(windows_disjoint(
                                        self.containers.elements@[kk].windows.elements@,
                                        m0.windows.elements@,
                                    ));
                                }
                            }
                            assert forall|g: isize|
                                !(#[trigger] windows_contain(m2.windows.elements@, g)
                                    && #[trigger] windows_contain(self.floating_windows@, g)) by {
                                lemma_contain_remove(m0.windows.elements@, wf as int, g);
                                assert(windows_disjoint(
                                    m0.windows.elements@,
                                    self.floating_windows@,
                                ));
                            }
                        }
                    }
                } else {
                    self.monocle_container = Some(m);
                }
            }
        }
        let ghost mid_mono = self.monocle_container;
        let ghost mid_mono_ri = self.monocle_container_restore_idx;
        let ghost mid_mono_rd = self.monocle_resize_dimension;

        // Dead floating windows.
        let ghost orig_fl = self.floating_windows@;
        let mut removed_floating: usize = 0;
        let mut i: usize = 0;
        let ghost mut jf: int = 0;
        proof {
            assert(orig_fl.take(0) =~= Seq::<Window>::empty());
            assert(orig_fl.skip(0) =~= orig_fl);
        }
        while i < self.floating_windows.len()
            invariant
                self.inv(),
                0 <= jf <= orig_fl.len(),
                i as int <= jf,
                i as int <= self.floating_windows@.len(),
                self.floating_windows@.len() - i == orig_fl.len() - jf,
                self.floating_windows@.skip(i as int) =~= orig_fl.skip(jf),
                self.floating_windows@.take(i as int) =~= spec_fl_kept(orig_fl.take(jf), dead@),
                removed_floating as int == jf - i,
                removed_floating as int <= jf,
                orig_fl.len() < usize::MAX,
                orig_fl == old(self).floating_windows@,
                self.containers.elements@ == mid_cs,
                self.resize_dimensions@ == mid_rd,
                self.containers.focused == mid_cursor,
                self.monocle_container == mid_mono,
                self.monocle_container_restore_idx == mid_mono_ri,
                self.monocle_resize_dimension == mid_mono_rd,
                self.name == old(self).name,
                self.layout == old(self).layout,
                self.layout_rules == old(self).layout_rules,
                self.layout_flip == old(self).layout_flip,
                self.workspace_padding == old(self).workspace_padding,
                self.container_padding == old(self).container_padding,
                self.latest_layout == old(self).latest_layout,
                self.tile == old(self).tile,
            decreases orig_fl.len() - jf,
        {
            let ghost pre_fl = self.floating_windows@;
            proof {
                assert(self.floating_windows@.skip(i as int)[0] == orig_fl.skip(jf)[0]);
                assert(self.floating_windows@[i as int] == orig_fl[jf]);
                assert(orig_fl.take(jf + 1).drop_last() =~= orig_fl.take(jf));
                assert(orig_fl.take(jf + 1).last() == orig_fl[jf]);
            }
            let h = self.floating_windows[i].hwnd;
            if crate::window::contains_hwnd(dead, h) {
                self.floating_windows.remove(i);
                removed_floating = removed_floating + 1;
                proof {
                    jf = jf + 1;
                    assert(self.floating_windows@.take(i as int) =~= pre_fl.take(i as int));
                    assert(pre_fl.skip(i as int).drop_first() =~= pre_fl.skip(i + 1));
                    assert(orig_fl.skip(jf - 1).drop_first() =~= orig_fl.skip(jf));
                    assert(self.floating_windows@.skip(i as int) =~= pre_fl.skip(i + 1));
                    assert(self.floating_windows@.skip(i as int) =~= orig_fl.skip(jf));
                    lemma_distinct_remove(pre_fl, i as int);
                    assert forall|kk: int|
                        0 <= kk < self.containers.elements@.len() implies windows_disjoint(
                        #[trigger] self.containers.elements@[kk].windows.elements@,
                        self.floating_windows@,
                    ) by {
                        assert forall|g: isize|
                            !(#[trigger] windows_contain(
                                self.containers.elements@[kk].windows.elements@,
                                g,
                            ) && #[trigger] windows_contain(self.floating_windows@, g)) by {
                            lemma_contain_remove(pre_fl, i as int, g);
                            assert(windows_disjoint(
                                self.containers.elements@[kk].windows.elements@,
                                pre_fl,
                            ));
                        }
                    }
                    if self.monocle_container is Some {
                        let m = self.monocle_container->0;
                        assert forall|g: isize|
                            !(#[trigger] windows_contain(m.windows.elements@, g)
                                && #[trigger] windows_contain(self.floating_windows@, g)) by {
                            lemma_contain_remove(pre_fl, i as int, g);
                            assert(windows_disjoint(m.windows.elements@, pre_fl));
                        }
                    }
                }
            } else {
                proof {
                    jf = jf + 1;
                    assert(self.floating_windows@.take(i + 1).drop_last()
                        =~= self.floating_windows@.take(i as int));
                    assert(self.floating_windows@.take(i + 1).last()
                        == self.floating_windows@[i as int]);
                    assert(self.floating_windows@.take(i + 1) =~= spec_fl_kept(
                        orig_fl.take(jf),
                        dead@,
                    ));
                    assert(self.floating_windows@.skip(i as int).drop_first()
                        =~= self.floating_windows@.skip(i + 1));
                    assert(orig_fl.skip(jf - 1).drop_first() =~= orig_fl.skip(jf));
                    assert(self.floating_windows@.skip(i + 1) =~= orig_fl.skip(jf));
                }
                i = i + 1;
            }
        }
        proof {
            assert(orig_fl.take(jf) =~= orig_fl);
            assert(self.floating_windows@.take(i as int) =~= self.floating_windows@);
        }

        // Prune containers left empty.
        let ghost cs3 = self.containers.elements@;
        let ghost rd3 = self.resize_dimensions@;
        let mut removed_containers: usize = 0;
        let mut k2: usize = 0;
        let ghost mut j2: int = 0;
        proof {
            assert(cs3.take(0) =~= Seq::<Container>::empty());
            assert(rd3.take(0) =~= Seq::<Option<Rect>>::empty());
            assert(cs3.skip(0) =~= cs3);
            assert(rd3.skip(0) =~= rd3);
        }
        while k2 < self.containers.elements.len()
            invariant
                self.inv(),
                0 <= j2 <= cs3.len(),
                k2 as int <= j2,
                k2 as int <= self.containers.elements@.len(),
                cs3.len() == rd3.len(),
                self.containers.elements@.len() - k2 == cs3.len() - j2,
                self.containers.elements@.skip(k2 as int) =~= cs3.skip(j2),
                self.resize_dimensions@.skip(k2 as int) =~= rd3.skip(j2),
                self.containers.elements@.take(k2 as int) =~= spec_prune_empty(cs3.take(j2)),
                self.resize_dimensions@.take(k2 as int) =~= spec_prune_resize(
                    cs3.take(j2),
                    rd3.take(j2),
                ),
                removed_containers as int == j2 - k2,
                removed_containers as int <= j2,
                cs3.len() < usize::MAX,
                self.containers.focused == mid_cursor,
                cs3 == mid_cs,
                rd3 == mid_rd,
                self.floating_windows@ == spec_fl_kept(old(self).floating_windows@, dead@),
                self.monocle_container == mid_mono,
                self.monocle_container_restore_idx == mid_mono_ri,
                self.monocle_resize_dimension == mid_mono_rd,
                self.name == old(self).name,
                self.layout == old(self).layout,
                self.layout_rules == old(self).layout_rules,
                self.layout_flip == old(self).layout_flip,
                self.workspace_padding == old(self).workspace_padding,
                self.container_padding == old(self).container_padding,
                self.latest_layout == old(self).latest_layout,
                self.tile == old(self).tile,
            decreases cs3.len() - j2,
        {
            proof {
                assert(self.containers.elements@.skip(k2 as int)[0] == cs3.skip(j2)[0]);
                assert(self.containers.elements@[k2 as int] == cs3[j2]);
                assert(self.resize_dimensions@.skip(k2 as int)[0] == rd3.skip(j2)[0]);
                assert(self.resize_dimensions@[k2 as int] == rd3[j2]);
                assert(cs3.take(j2 + 1).drop_last() =~= cs3.take(j2));
                assert(rd3.take(j2 + 1).drop_last() =~= rd3.take(j2));
                assert(cs3.take(j2 + 1).last() == cs3[j2]);
                assert(rd3.take(j2 + 1).last() == rd3[j2]);
            }
            let ghost pre2 = *self;
            let is_empty = self.containers.elements[k2].windows.elements.len() == 0;
            if is_empty {
                let _removed = self.remove_container_by_idx(k2);
                removed_containers = removed_containers + 1;
                proof {
                    j2 = j2 + 1;
                    assert(self.containers.elements@.take(k2 as int)
                        =~= pre2.containers.elements@.take(k2 as int));
                    assert(self.resize_dimensions@.take(k2 as int)
                        =~= pre2.resize_dimensions@.take(k2 as int));
                    assert(pre2.containers.elements@.skip(k2 as int).drop_first()
                        =~= pre2.containers.elements@.skip(k2 + 1));
                    assert(cs3.skip(j2 - 1).drop_first() =~= cs3.skip(j2));
                    assert(pre2.resize_dimensions@.skip(k2 as int).drop_first()
                        =~= pre2.resize_dimensions@.skip(k2 + 1));
                    assert(rd3.skip(j2 - 1).drop_first() =~= rd3.skip(j2));
                    assert(self.containers.elements@.skip(k2 as int)
                        =~= pre2.containers.elements@.skip(k2 + 1));
                    assert(self.resize_dimensions@.skip(k2 as int)
                        =~= pre2.resize_dimensions@.skip(k2 + 1));
                    assert(self.containers.elements@.skip(k2 as int) =~= cs3.skip(j2));
                    assert(self.resize_dimensions@.skip(k2 as int) =~= rd3.skip(j2));
                }
            } else {
                proof {
                    j2 = j2 + 1;
                    assert(self.containers.elements@.take(k2 + 1).drop_last()
                        =~= self.containers.elements@.take(k2 as int));
                    assert(self.resize_dimensions@.take(k2 + 1).drop_last()
                        =~= self.resize_dimensions@.take(k2 as int));
                    assert(self.containers.elements@.take(k2 + 1).last()
                        == self.containers.elements@[k2 as int]);
                    assert(self.resize_dimensions@.take(k2 + 1).last()
                        == self.resize_dimensions@[k2 as int]);
                    assert(self.containers.elements@.skip(k2 as int).drop_first()
                        =~= self.containers.elements@.skip(k2 + 1));
                    assert(cs3.skip(j2 - 1).drop_first() =~= cs3.skip(j2));
                    assert(self.resize_dimensions@.skip(k2 as int).drop_first()
                        =~= self.resize_dimensions@.skip(k2 + 1));
                    assert(rd3.skip(j2 - 1).drop_first() =~= rd3.skip(j2));
                    assert(self.containers.elements@.skip(k2 + 1) =~= cs3.skip(j2));
                    assert(self.resize_dimensions@.skip(k2 + 1) =~= rd3.skip(j2));
                }
                k2 = k2 + 1;
            }
        }
        proof {
            assert(cs3.take(j2) =~= cs3);
            assert(rd3.take(j2) =~= rd3);
            assert(self.containers.elements@.take(k2 as int) =~= self.containers.elements@);
            assert(self.resize_dimensions@.take(k2 as int) =~= self.resize_dimensions@);
            assert(spec_reaped(orig_cs, orig_rd, dead@, mid_cs, mid_rd));
        }
        let removed = removed_windows + monocle_removed + removed_floating;
        ((removed, removed_containers), actions)
    }
}

/// In every reachable workspace state, the resize-override list is
/// index-aligned with the container ring: one override slot per tiled
/// container.
pub proof fn lemma_resize_dimensions_aligned(w: Workspace)
    requires
        w.inv(),
    ensures
        w.resize_dimensions@.len() == w.containers.elements@.len(),
{
}

/// In every reachable workspace state, a window handle lives in at most
/// one of the tiled containers, the monocle container, and the floating
/// list.
pub proof fn lemma_window_membership_exclusive(w: Workspace, h: isize)
    requires
        w.inv(),
    ensures
        !(w.tiled_contains(h) && w.monocle_contains(h)),
        !(w.tiled_contains(h) && w.floating_contains(h)),
        !(w.monocle_contains(h) && w.floating_contains(h)),
{
    let cs = w.containers.elements@;
    if w.tiled_contains(h) {
        let k = choose|k: int| 0 <= k < cs.len() && windows_contain(cs[k].windows.elements@, h);
        assert(windows_disjoint(cs[k].windows.elements@, w.floating_windows@));
        if w.monocle_container is Some {
            assert(windows_disjoint(
                cs[k].windows.elements@,
                w.monocle_container->0.windows.elements@,
            ));
        }
    }
    if w.monocle_container is Some {
        assert(windows_disjoint(
            w.monocle_container->0.windows.elements@,
            w.floating_windows@,
        ));
    }
}

/// Space-partitioning resize law, for any container count and position:
/// after constraint enforcement, an even position cannot resize along
/// the bottom edge and an odd one along the right edge; the first
/// container also loses top and left, the last also bottom and right;
/// an absent override stays absent.
pub proof fn lemma_bsp_constraints(dims: Seq<Option<Rect>>, i: int)
    requires
        0 <= i < dims.len(),
    ensures
        ({
            let e = spec_enforced(dims, Layout::Default(DefaultLayout::BSP));
            &&& e.len() == dims.len()
            &&& (e[i] is None <==> dims[i] is None)
            &&& (e[i] matches Some(r) ==> {
                &&& (i % 2 == 0 ==> r.bottom == 0)
                &&& (i % 2 == 1 ==> r.right == 0)
                &&& (i == 0 ==> r.top == 0 && r.left == 0)
                &&& (i == dims.len() - 1 ==> r.bottom == 0 && r.right == 0)
            })
        }),
{
    let e = spec_enforced(dims, Layout::Default(DefaultLayout::BSP));
    assert(e[i] == spec_bsp_entry(dims, i));
}

/// Space-partitioning resize law for four containers: after constraint
/// enforcement, the even positions cannot resize along the bottom edge
/// and the odd ones along the right edge; the first container also
/// loses top and left, the last also bottom and right.
pub proof fn lemma_bsp_constraints_of_four(dims: Seq<Option<Rect>>)
    requires
        dims.len() == 4,
    ensures
        ({
            let e = spec_enforced(dims, Layout::Default(DefaultLayout::BSP));
            &&& e.len() == 4
            &&& (e[0] matches Some(r) ==> r.bottom == 0 && r.top == 0 && r.left == 0)
            &&& (e[1] matches Some(r) ==> r.right == 0)
            &&& (e[2] matches Some(r) ==> r.bottom == 0)
            &&& (e[3] matches Some(r) ==> r.right == 0 && r.bottom == 0)
        }),
{
    let e = spec_enforced(dims, Layout::Default(DefaultLayout::BSP));
    assert(e[0] == spec_bsp_entry(dims, 0));
    assert(e[1] == spec_bsp_entry(dims, 1));
    assert(e[2] == spec_bsp_entry(dims, 2));
    assert(e[3] == spec_bsp_entry(dims, 3));
}

/// Monocle round trip: entering monocle mode on a workspace of three
/// containers with focus on index one, then reintegrating, restores a
/// container with the same identifier at index one and leaves the
/// container count unchanged. The hypotheses restate what
/// [`Workspace::new_monocle_container`] and
/// [`Workspace::reintegrate_monocle_container`] ensure on success.
pub proof fn lemma_monocle_round_trip(w0: Workspace, w1: Workspace, w2: Workspace)
    requires
        w0.inv(),
        w0.containers.elements@.len() == 3,
        w0.containers.focused == 1,
        w1.containers.elements@ == w0.containers.elements@.remove(1),
        w1.monocle_container == Some(w0.containers.elements@[1]),
        w1.monocle_container_restore_idx == Some(1usize),
        w2.containers.elements@ == w1.containers.elements@.insert(
            1,
            w1.monocle_container->0,
        ),
        w2.containers.focused == 1,
        w2.monocle_container is None,
    ensures
        w2.containers.elements@.len() == 3,
        w2.containers.elements@[1].id == w0.containers.elements@[1].id,
        w2.containers.focused == w0.containers.focused,
{
    w1.containers.elements@.insert_ensures(1, w1.monocle_container->0);
}

/// The handle of the first window in the containers at or after `k`
/// whose executable, as recorded in the table, equals `exe`, scanning
/// each stack in insertion order.
pub open spec fn spec_first_hwnd_with_exe_cs(
    cs: Seq<Container>,
    exe: Seq<char>,
    exes: Seq<(isize, String)>,
    k: int,
) -> Option<isize>
    decreases cs.len() - k,
{
    if k < 0 || k >= cs.len() {
        None
    } else {
        match crate::container::spec_first_hwnd_with_exe(cs[k].windows.elements@, exe, exes, 0) {
            Some(h) => Some(h),
            None => spec_first_hwnd_with_exe_cs(cs, exe, exes, k + 1),
        }
    }
}

/// The handle `Workspace::hwnd_from_exe` returns: the first window with
/// the given executable, searching the tiled containers in ring order,
/// then the monocle container, then the floating windows.
pub open spec fn spec_workspace_hwnd_from_exe(
    w: Workspace,
    exe: Seq<char>,
    exes: Seq<(isize, String)>,
) -> Option<isize> {
    match spec_first_hwnd_with_exe_cs(w.containers.elements@, exe, exes, 0) {
        Some(h) => Some(h),
        None => {
            let mono = match w.monocle_container {
                Some(m) => crate::container::spec_first_hwnd_with_exe(
                    m.windows.elements@,
                    exe,
                    exes,
                    0,
                ),
                None => None,
            };
            match mono {
                Some(h) => Some(h),
                None => crate::container::spec_first_hwnd_with_exe(
                    w.floating_windows@,
                    exe,
                    exes,
                    0,
                ),
            }
        },
    }
}

/// The recorded details of the focused windows of `cs` from index `i`
/// on, in order, skipping containers without a focused window and
/// windows without an entry in the table.
pub open spec fn spec_visible_details(
    cs: Seq<Container>,
    details: Seq<(isize, crate::window::WindowDetails)>,
    i: int,
) -> Seq<crate::window::WindowDetails>
    decreases cs.len() - i,
{
    if i < 0 || i >= cs.len() {
        Seq::empty()
    } else {
        let c = cs[i];
        let head: Seq<crate::window::WindowDetails> = if c.windows.focused
            < c.windows.elements@.len() {
            match crate::window::spec_details_for(
                details,
                c.windows.elements@[c.windows.focused as int].hwnd,
            ) {
                Some(d) => seq![d],
                None => Seq::empty(),
            }
        } else {
            Seq::empty()
        };
        head + spec_visible_details(cs, details, i + 1)
    }
}

} // verus!

//! The bookkeeping of a game's scenes: which are waiting for their window and
//! render scene, which are shown (ordered by depth), and which are suspended.
//!
//! The engine around it creates windows and render scenes and draws; the
//! decisions of what to request, what to move and what to drop are made here.
use vstd::prelude::*;
use crate::event::{Event, EventV};
use crate::names::{str_equal, SceneName};

verus! {

/// A scene: its name, the render scene and window it is drawn in, its depth
/// (`z_index`, drawn from low to high), and what it holds.
pub struct SceneEntry<T> {
    pub name: SceneName,
    pub render_scene: String,
    pub target_window: String,
    pub z_index: i32,
    pub content: T,
}

/// A render scene to create for a scene in a window that exists.
pub struct RenderRequest {
    pub window: String,
    pub render_scene: String,
    pub scene: SceneName,
}

/// What a request says: window, render scene, scene.
pub open spec fn request_view(r: RenderRequest) -> (Seq<char>, Seq<char>, Seq<char>) {
    (r.window@, r.render_scene@, r.scene@)
}

/// The render scenes to request and the windows to open for pending scenes.
pub struct ActivationPlan {
    pub requests: Vec<RenderRequest>,
    pub needed_windows: Vec<String>,
}

/// `i` is the first index of a scene named `name`.
pub open spec fn first_named<T>(s: Seq<SceneEntry<T>>, name: Seq<char>, i: int) -> bool {
    &&& 0 <= i < s.len()
    &&& s[i].name@ == name
    &&& forall|j: int| 0 <= j < i ==> (#[trigger] s[j]).name@ != name
}

/// Some scene of `s` is named `name`.
pub open spec fn has_named<T>(s: Seq<SceneEntry<T>>, name: Seq<char>) -> bool {
    exists|i: int| 0 <= i < s.len() && (#[trigger] s[i]).name@ == name
}

/// `i` is the first index of a scene drawn in render scene `rs`.
pub open spec fn first_rendered<T>(s: Seq<SceneEntry<T>>, rs: Seq<char>, i: int) -> bool {
    &&& 0 <= i < s.len()
    &&& s[i].render_scene@ == rs
    &&& forall|j: int| 0 <= j < i ==> (#[trigger] s[j]).render_scene@ != rs
}

/// Some scene of `s` is drawn in render scene `rs`.
pub open spec fn has_rendered<T>(s: Seq<SceneEntry<T>>, rs: Seq<char>) -> bool {
    exists|i: int| 0 <= i < s.len() && (#[trigger] s[i]).render_scene@ == rs
}

/// The scenes are ordered by depth.
pub open spec fn sorted_by_z<T>(s: Seq<SceneEntry<T>>) -> bool {
    forall|i: int, j: int| 0 <= i < j < s.len() ==> (#[trigger] s[i]).z_index <= (#[trigger] s[j]).z_index
}

/// Where a scene of depth `z` goes among the first `m` scenes of `s`: after
/// every scene that is not deeper than it.
pub open spec fn z_pos<T>(s: Seq<SceneEntry<T>>, z: i32, m: nat) -> nat
    decreases m,
{
    if m == 0 {
        0
    } else if s[m - 1].z_index > z {
        z_pos(s, z, (m - 1) as nat)
    } else {
        m
    }
}

/// `s` with `e` put in by depth, after the scenes of the same depth.
pub open spec fn insert_by_z<T>(s: Seq<SceneEntry<T>>, e: SceneEntry<T>) -> Seq<SceneEntry<T>> {
    s.insert(z_pos(s, e.z_index, s.len()) as int, e)
}

/// Some window of `ws` is named `w`.
pub open spec fn window_known(ws: Seq<String>, w: Seq<char>) -> bool {
    exists|i: int| 0 <= i < ws.len() && (#[trigger] ws[i])@ == w
}

/// The pending scenes that stay pending: those not named like a shown scene.
pub open spec fn kept_pending<T>(p: Seq<SceneEntry<T>>, a: Seq<SceneEntry<T>>) -> Seq<
    SceneEntry<T>,
>
    decreases p.len(),
{
    if p.len() == 0 {
        p
    } else if has_named(a, p.last().name@) {
        kept_pending(p.drop_last(), a)
    } else {
        kept_pending(p.drop_last(), a).push(p.last())
    }
}

/// The render scenes to request: for each pending scene that is not named like
/// a shown scene and whose window exists, in order.
pub open spec fn requests_for<T>(p: Seq<SceneEntry<T>>, a: Seq<SceneEntry<T>>, ws: Seq<String>) -> Seq<
    (Seq<char>, Seq<char>, Seq<char>),
>
    decreases p.len(),
{
    if p.len() == 0 {
        Seq::empty()
    } else {
        let r = requests_for(p.drop_last(), a, ws);
        let e = p.last();
        if !has_named(a, e.name@) && window_known(ws, e.target_window@) {
            r.push((e.target_window@, e.render_scene@, e.name@))
        } else {
            r
        }
    }
}

/// The windows to open: those of pending scenes not named like a shown scene
/// whose window does not exist, each once, in order of first need.
pub open spec fn windows_needed<T>(p: Seq<SceneEntry<T>>, a: Seq<SceneEntry<T>>, ws: Seq<String>) -> Seq<
    Seq<char>,
>
    decreases p.len(),
{
    if p.len() == 0 {
        Seq::empty()
    } else {
        let r = windows_needed(p.drop_last(), a, ws);
        let e = p.last();
        if !has_named(a, e.name@) && !window_known(ws, e.target_window@) && !r.contains(
            e.target_window@,
        ) {
            r.push(e.target_window@)
        } else {
            r
        }
    }
}

/// The render scenes to request for the pending scenes of window `w`, in order.
pub open spec fn requests_in_window<T>(p: Seq<SceneEntry<T>>, w: Seq<char>) -> Seq<
    (Seq<char>, Seq<char>, Seq<char>),
>
    decreases p.len(),
{
    if p.len() == 0 {
        Seq::empty()
    } else {
        let r = requests_in_window(p.drop_last(), w);
        let e = p.last();
        if e.target_window@ == w {
            r.push((w, e.render_scene@, e.name@))
        } else {
            r
        }
    }
}

proof fn lemma_z_pos<T>(s: Seq<SceneEntry<T>>, z: i32, m: nat)
    requires
        sorted_by_z(s),
        m <= s.len(),
    ensures
        z_pos(s, z, m) <= m,
        forall|k: int| 0 <= k < z_pos(s, z, m) ==> (#[trigger] s[k]).z_index <= z,
        forall|k: int| z_pos(s, z, m) <= k < m ==> (#[trigger] s[k]).z_index > z,
    decreases m,
{
    if m > 0 {
        lemma_z_pos(s, z, (m - 1) as nat);
        if s[m - 1].z_index <= z {
            assert forall|k: int| 0 <= k < m implies (#[trigger] s[k]).z_index <= z by {
                if k < m - 1 {
                    assert(s[k].z_index <= s[m - 1].z_index);
                }
            }
        }
    }
}

/// Putting a scene in by depth keeps the scenes ordered.
pub proof fn lemma_insert_by_z_sorted<T>(s: Seq<SceneEntry<T>>, e: SceneEntry<T>)
    requires
        sorted_by_z(s),
    ensures
        sorted_by_z(insert_by_z(s, e)),
        insert_by_z(s, e).len() == s.len() + 1,
{
    let p = z_pos(s, e.z_index, s.len());
    lemma_z_pos(s, e.z_index, s.len());
    s.insert_ensures(p as int, e);
    let t = insert_by_z(s, e);
    assert forall|i: int, j: int| 0 <= i < j < t.len() implies (#[trigger] t[i]).z_index <= (
    #[trigger] t[j]).z_index by {
        if j < p {
            assert(t[i] == s[i] && t[j] == s[j]);
        } else if j == p {
            assert(t[i] == s[i]);
        } else if i < p {
            assert(t[i] == s[i] && t[j] == s[j - 1]);
        } else if i == p {
            assert(t[j] == s[j - 1]);
        } else {
            assert(t[i] == s[i - 1] && t[j] == s[j - 1]);
        }
    }
}

/// Taking a scene out keeps the others ordered.
pub proof fn lemma_remove_sorted<T>(s: Seq<SceneEntry<T>>, i: int)
    requires
        sorted_by_z(s),
        0 <= i < s.len(),
    ensures
        sorted_by_z(s.remove(i)),
{
    s.remove_ensures(i);
    let t = s.remove(i);
    assert forall|a: int, b: int| 0 <= a < b < t.len() implies (#[trigger] t[a]).z_index <= (
    #[trigger] t[b]).z_index by {
        if b < i {
            assert(t[a] == s[a] && t[b] == s[b]);
        } else if a < i {
            assert(t[a] == s[a] && t[b] == s[b + 1]);
        } else {
            assert(t[a] == s[a + 1] && t[b] == s[b + 1]);
        }
    }
}

/// Suspending the first shown scene named `n` and then showing it again gives back
/// the same suspended scenes and the same shown scenes in depth order; where no
/// later shown scene has its depth, the shown scenes come back exactly as they were.
/// (The states are those that `suspend` and then `activate_suspended` state.)
pub proof fn law_suspend_then_activate<T>(
    a: Seq<SceneEntry<T>>,
    s: Seq<SceneEntry<T>>,
    n: Seq<char>,
    i: int,
)
    requires
        sorted_by_z(a),
        first_named(a, n, i),
        !has_named(s, n),
    ensures
        ({
            let a1 = a.remove(i);
            let s1 = s.push(a[i]);
            let a2 = insert_by_z(a1, s1[s.len() as int]);
            &&& first_named(s1, n, s.len() as int)
            &&& s1.remove(s.len() as int) == s
            &&& a2.to_multiset() == a.to_multiset()
            &&& sorted_by_z(a2)
            &&& (forall|k: int| i < k < a.len() ==> (#[trigger] a[k]).z_index > a[i].z_index)
                ==> a2 == a
        }),
{
    let e = a[i];
    let a1 = a.remove(i);
    let s1 = s.push(e);
    assert(s1[s.len() as int] == e);
    assert forall|j: int| 0 <= j < s.len() implies (#[trigger] s1[j]).name@ != n by {
        assert(s1[j] == s[j]);
    }
    assert(s1.remove(s.len() as int) =~= s);
    lemma_remove_sorted(a, i);
    lemma_insert_by_z_sorted(a1, e);
    let p = z_pos(a1, e.z_index, a1.len());
    lemma_z_pos(a1, e.z_index, a1.len());
    vstd::seq_lib::to_multiset_remove(a, i);
    vstd::seq_lib::to_multiset_insert(a1, p as int, e);
    assert(a.to_multiset().remove(e).insert(e) =~= a.to_multiset()) by {
        broadcast use vstd::multiset::group_multiset_axioms;

        assert(a.to_multiset().count(e) > 0) by {
            vstd::seq_lib::to_multiset_contains(a, e);
            assert(a.contains(e));
        }
    }
    if forall|k: int| i < k < a.len() ==> (#[trigger] a[k]).z_index > a[i].z_index {
        if p < i {
            assert(a1[p as int] == a[p as int]);
            assert(a[p as int].z_index <= e.z_index);
        }
        if p > i {
            assert(a1[i] == a[i + 1]);
        }
        assert(p == i);
        assert(a1.insert(i, e) =~= a);
    }
}

/// The first scene of `s` named `name`, if any.
fn find_named<T>(s: &Vec<SceneEntry<T>>, name: &str) -> (r: Option<usize>)
    ensures
        match r {
            Some(i) => first_named(s@, name@, i as int),
            None => !has_named(s@, name@),
        },
{
    let mut k: usize = 0;
    while k < s.len()
        invariant
            k <= s@.len(),
            forall|j: int| 0 <= j < k ==> (#[trigger] s@[j]).name@ != name@,
        decreases s@.len() - k,
    {
        if str_equal(s[k].name.as_str(), name) {
            return Some(k);
        }
        k = k + 1;
    }
    None
}

/// The first scene of `s` drawn in render scene `rs`, if any.
fn find_rendered<T>(s: &Vec<SceneEntry<T>>, rs: &str) -> (r: Option<usize>)
    ensures
        match r {
            Some(i) => first_rendered(s@, rs@, i as int),
            None => !has_rendered(s@, rs@),
        },
{
    let mut k: usize = 0;
    while k < s.len()
        invariant
            k <= s@.len(),
            forall|j: int| 0 <= j < k ==> (#[trigger] s@[j]).render_scene@ != rs@,
        decreases s@.len() - k,
    {
        if str_equal(s[k].render_scene.as_str(), rs) {
            return Some(k);
        }
        k = k + 1;
    }
    None
}

/// Whether `ws` holds a window named `w`.
fn knows_window(ws: &Vec<String>, w: &str) -> (r: bool)
    ensures
        r == window_known(ws@, w@),
{
    let mut k: usize = 0;
    while k < ws.len()
        invariant
            k <= ws@.len(),
            forall|j: int| 0 <= j < k ==> (#[trigger] ws@[j])@ != w@,
        decreases ws@.len() - k,
    {
        if str_equal(ws[k].as_str(), w) {
            return true;
        }
        k = k + 1;
    }
    false
}

/// Whether `ws` holds the string `w`.
fn holds_string(ws: &Vec<String>, w: &str) -> (r: bool)
    ensures
        r == ws@.map_values(|s: String| s@).contains(w@),
{
    let ghost views = ws@.map_values(|s: String| s@);
    let mut k: usize = 0;
    while k < ws.len()
        invariant
            k <= ws@.len(),
            views == ws@.map_values(|s: String| s@),
            forall|j: int| 0 <= j < k ==> (#[trigger] ws@[j])@ != w@,
        decreases ws@.len() - k,
    {
        if str_equal(ws[k].as_str(), w) {
            assert(views[k as int] == w@);
            return true;
        }
        k = k + 1;
    }
    assert forall|j: int| 0 <= j < views.len() implies views[j] != w@ by {
        assert(views[j] == ws@[j]@);
    }
    false
}

/// Puts `e` into `v` by depth (see `insert_by_z`).
fn insert_scene<T>(v: &mut Vec<SceneEntry<T>>, e: SceneEntry<T>)
    requires
        sorted_by_z(old(v)@),
    ensures
        final(v)@ == insert_by_z(old(v)@, e),
        sorted_by_z(final(v)@),
{
    let ghost z = e.z_index;
    let mut p: usize = v.len();
    while p > 0 && v[p - 1].z_index > e.z_index
        invariant
            p <= v@.len(),
            v@ == old(v)@,
            z == e.z_index,
            z_pos(v@, z, v@.len()) == z_pos(v@, z, p as nat),
        decreases p,
    {
        p = p - 1;
    }
    proof {
        lemma_insert_by_z_sorted(old(v)@, e);
    }
    v.insert(p, e);
}

/// The scenes of a game: waiting for their window and render scene, shown
/// (ordered by depth), and suspended.
pub struct SceneBook<T> {
    pending: Vec<SceneEntry<T>>,
    active: Vec<SceneEntry<T>>,
    suspended: Vec<SceneEntry<T>>,
}

impl<T> SceneBook<T> {
    pub closed spec fn spec_pending(&self) -> Seq<SceneEntry<T>> {
        self.pending@
    }

    pub closed spec fn spec_active(&self) -> Seq<SceneEntry<T>> {
        self.active@
    }

    pub closed spec fn spec_suspended(&self) -> Seq<SceneEntry<T>> {
        self.suspended@
    }

    /// The shown scenes are ordered by depth.
    pub open spec fn well_formed(&self) -> bool {
        sorted_by_z(self.spec_active())
    }

    /// A book whose scenes all wait to be shown.
    pub fn new(initial_scenes: Vec<SceneEntry<T>>) -> (r: SceneBook<T>)
        ensures
            r.well_formed(),
            r.spec_pending() == initial_scenes@,
            r.spec_active().len() == 0,
            r.spec_suspended().len() == 0,
    {
        SceneBook { pending: initial_scenes, active: Vec::new(), suspended: Vec::new() }
    }

    /// Adds scenes to those waiting, after them.
    pub fn add_pending(&mut self, scenes: Vec<SceneEntry<T>>)
        requires
            old(self).well_formed(),
        ensures
            final(self).well_formed(),
            final(self).spec_pending() == old(self).spec_pending() + scenes@,
            final(self).spec_active() == old(self).spec_active(),
            final(self).spec_suspended() == old(self).spec_suspended(),
    {
        let mut scenes = scenes;
        self.pending.append(&mut scenes);
    }

    /// Looks at the waiting scenes: one named like a shown scene is dropped; for
    /// one whose window exists its render scene is requested; otherwise its window
    /// is asked for (each window once). Only the dropped scenes leave the waiting list.
    pub fn activate_pending(&mut self, known_windows: &Vec<String>) -> (r: ActivationPlan)
        requires
            old(self).well_formed(),
        ensures
            final(self).well_formed(),
            final(self).spec_pending() == kept_pending(
                old(self).spec_pending(),
                old(self).spec_active(),
            ),
            final(self).spec_active() == old(self).spec_active(),
            final(self).spec_suspended() == old(self).spec_suspended(),
            r.requests@.map_values(|q: RenderRequest| request_view(q)) == requests_for(
                old(self).spec_pending(),
                old(self).spec_active(),
                known_windows@,
            ),
            r.needed_windows@.map_values(|s: String| s@) == windows_needed(
                old(self).spec_pending(),
                old(self).spec_active(),
                known_windows@,
            ),
    {
        let ghost p = self.pending@;
        let ghost a = self.active@;
        let mut requests: Vec<RenderRequest> = Vec::new();
        let mut needed: Vec<String> = Vec::new();
        let mut kept: Vec<SceneEntry<T>> = Vec::new();
        let total = self.pending.len();
        let mut old_pending: Vec<SceneEntry<T>> = Vec::new();
        std::mem::swap(&mut old_pending, &mut self.pending);
        let mut k: usize = 0;
        assert(p.subrange(0, 0) =~= Seq::<SceneEntry<T>>::empty());
        while old_pending.len() > 0
            invariant
                self.active@ == a,
                self.suspended@ == old(self).suspended@,
                sorted_by_z(a),
                p == old(self).pending@,
                a == old(self).active@,
                k + old_pending@.len() == p.len(),
                total == p.len(),
                old_pending@ == p.subrange(k as int, p.len() as int),
                kept@ == kept_pending(p.subrange(0, k as int), a),
                requests@.map_values(|q: RenderRequest| request_view(q)) == requests_for(
                    p.subrange(0, k as int),
                    a,
                    known_windows@,
                ),
                needed@.map_values(|s: String| s@) == windows_needed(
                    p.subrange(0, k as int),
                    a,
                    known_windows@,
                ),
            decreases old_pending@.len(),
        {
            let scene = old_pending.remove(0);
            assert(scene == p[k as int]);
            let ghost prefix = p.subrange(0, k as int);
            let ghost next = p.subrange(0, k + 1);
            assert(next.drop_last() =~= prefix);
            assert(next.last() == scene);
            let shown = find_named(&self.active, scene.name.as_str()).is_some();
            if !shown {
                if knows_window(known_windows, scene.target_window.as_str()) {
                    requests.push(
                        RenderRequest {
                            window: scene.target_window.clone(),
                            render_scene: scene.render_scene.clone(),
                            scene: scene.name.clone_name(),
                        },
                    );
                } else if !holds_string(&needed, scene.target_window.as_str()) {
                    needed.push(scene.target_window.clone());
                }
                kept.push(scene);
            }
            k = k + 1;
            assert(old_pending@ =~= p.subrange(k as int, p.len() as int));
        }
        assert(p.subrange(0, p.len() as int) =~= p);
        self.pending = kept;
        ActivationPlan { requests, needed_windows: needed }
    }

    /// The render scenes to request for the waiting scenes of a window that was
    /// just opened, in order.
    pub fn requests_for_window(&self, window: &str) -> (r: Vec<RenderRequest>)
        ensures
            r@.map_values(|q: RenderRequest| request_view(q)) == requests_in_window(
                self.spec_pending(),
                window@,
            ),
    {
        let mut requests: Vec<RenderRequest> = Vec::new();
        let mut k: usize = 0;
        assert(self.pending@.subrange(0, 0) =~= Seq::<SceneEntry<T>>::empty());
        while k < self.pending.len()
            invariant
                k <= self.pending@.len(),
                requests@.map_values(|q: RenderRequest| request_view(q)) == requests_in_window(
                    self.pending@.subrange(0, k as int),
                    window@,
                ),
            decreases self.pending@.len() - k,
        {
            let scene = &self.pending[k];
            assert(self.pending@.subrange(0, k + 1).drop_last() =~= self.pending@.subrange(
                0,
                k as int,
            ));
            if str_equal(scene.target_window.as_str(), window) {
                requests.push(
                    RenderRequest {
                        window: scene.target_window.clone(),
                        render_scene: scene.render_scene.clone(),
                        scene: scene.name.clone_name(),
                    },
                );
            }
            k = k + 1;
        }
        assert(self.pending@.subrange(0, self.pending@.len() as int) =~= self.pending@);
        requests
    }

    /// The render scene `render_scene` exists now: the first waiting scene drawn
    /// in it is shown, put in by depth, and its name returned. `None`, and nothing
    /// changes, where no waiting scene is drawn in it.
    pub fn scene_ready(&mut self, render_scene: &str) -> (r: Option<SceneName>)
        requires
            old(self).well_formed(),
        ensures
            final(self).well_formed(),
            final(self).spec_suspended() == old(self).spec_suspended(),
            r is None <==> !has_rendered(old(self).spec_pending(), render_scene@),
            r is None ==> final(self).spec_pending() == old(self).spec_pending()
                && final(self).spec_active() == old(self).spec_active(),
            forall|i: int|
                first_rendered(old(self).spec_pending(), render_scene@, i) ==> (r matches Some(n)
                    && n@ == old(self).spec_pending()[i].name@) && final(self).spec_pending()
                    == old(self).spec_pending().remove(i) && final(self).spec_active()
                    == insert_by_z(old(self).spec_active(), old(self).spec_pending()[i]),
    {
        match find_rendered(&self.pending, render_scene) {
            Some(i) => {
                let scene = self.pending.remove(i);
                let name = scene.name.clone_name();
                insert_scene(&mut self.active, scene);
                Some(name)
            },
            None => None,
        }
    }

    /// Suspends the first shown scene named `name`: it leaves the shown scenes and
    /// joins the suspended ones at the end. Returns whether one was found; where
    /// none is, nothing changes.
    pub fn suspend(&mut self, name: &str) -> (r: bool)
        requires
            old(self).well_formed(),
        ensures
            final(self).well_formed(),
            final(self).spec_pending() == old(self).spec_pending(),
            r == has_named(old(self).spec_active(), name@),
            !r ==> final(self).spec_active() == old(self).spec_active()
                && final(self).spec_suspended() == old(self).spec_suspended(),
            forall|i: int|
                first_named(old(self).spec_active(), name@, i) ==> final(self).spec_active()
                    == old(self).spec_active().remove(i) && final(self).spec_suspended()
                    == old(self).spec_suspended().push(old(self).spec_active()[i]),
    {
        match find_named(&self.active, name) {
            Some(i) => {
                proof {
                    lemma_remove_sorted(self.active@, i as int);
                }
                let scene = self.active.remove(i);
                self.suspended.push(scene);
                true
            },
            None => false,
        }
    }

    /// Shows again the first suspended scene named `name`, put in by depth.
    /// Returns whether one was found; where none is, nothing changes.
    pub fn activate_suspended(&mut self, name: &str) -> (r: bool)
        requires
            old(self).well_formed(),
        ensures
            final(self).well_formed(),
            final(self).spec_pending() == old(self).spec_pending(),
            r == has_named(old(self).spec_suspended(), name@),
            !r ==> final(self).spec_active() == old(self).spec_active()
                && final(self).spec_suspended() == old(self).spec_suspended(),
            forall|i: int|
                first_named(old(self).spec_suspended(), name@, i) ==> final(self).spec_suspended()
                    == old(self).spec_suspended().remove(i) && final(self).spec_active()
                    == insert_by_z(old(self).spec_active(), old(self).spec_suspended()[i]),
    {
        match find_named(&self.suspended, name) {
            Some(i) => {
                let scene = self.suspended.remove(i);
                insert_scene(&mut self.active, scene);
                true
            },
            None => false,
        }
    }

    /// Deletes the first shown scene named `name`, or else the first suspended
    /// one, and returns it; `None`, and nothing changes, where there is neither.
    pub fn delete(&mut self, name: &str) -> (r: Option<SceneEntry<T>>)
        requires
            old(self).well_formed(),
        ensures
            final(self).well_formed(),
            final(self).spec_pending() == old(self).spec_pending(),
            r is None <==> !has_named(old(self).spec_active(), name@) && !has_named(
                old(self).spec_suspended(),
                name@,
            ),
            r is None ==> final(self).spec_active() == old(self).spec_active()
                && final(self).spec_suspended() == old(self).spec_suspended(),
            forall|i: int|
                #[trigger] first_named(old(self).spec_active(), name@, i) ==> holds_entry(r, old(self).spec_active()[i]) && final(self).spec_active() == old(self).spec_active().remove(i)
                    && final(self).spec_suspended() == old(self).spec_suspended(),
            forall|i: int|
                !has_named(old(self).spec_active(), name@) && #[trigger] first_named(
                    old(self).spec_suspended(),
                    name@,
                    i,
                ) ==> holds_entry(r, old(self).spec_suspended()[i]) && final(self).spec_suspended()
                    == old(self).spec_suspended().remove(i) && final(self).spec_active()
                    == old(self).spec_active(),
    {
        match find_named(&self.active, name) {
            Some(i) => {
                proof {
                    lemma_remove_sorted(self.active@, i as int);
                }
                Some(self.active.remove(i))
            },
            None => match find_named(&self.suspended, name) {
                Some(i) => Some(self.suspended.remove(i)),
                None => None,
            },
        }
    }

    pub fn pending(&self) -> (r: &Vec<SceneEntry<T>>)
        ensures
            r@ == self.spec_pending(),
    {
        &self.pending
    }

    pub fn active(&self) -> (r: &Vec<SceneEntry<T>>)
        ensures
            r@ == self.spec_active(),
    {
        &self.active
    }

    pub fn suspended(&self) -> (r: &Vec<SceneEntry<T>>)
        ensures
            r@ == self.spec_suspended(),
    {
        &self.suspended
    }

    /// What the shown scene `i` holds, to change it; nothing else of the book changes.
    pub fn active_content_mut(&mut self, i: usize) -> (r: &mut T)
        requires
            i < old(self).spec_active().len(),
        ensures
            *r == old(self).spec_active()[i as int].content,
            final(self).spec_pending() == old(self).spec_pending(),
            final(self).spec_suspended() == old(self).spec_suspended(),
            final(self).spec_active() == old(self).spec_active().update(
                i as int,
                SceneEntry { content: *final(r), ..old(self).spec_active()[i as int] },
            ),
    {
        &mut self.active[i].content
    }
}

/// The game behind the scenes: it answers each event with the events it causes.
pub trait State<E> {
    /// Whether the state can take `event` in the state it is in.
    spec fn takes(&self, event: E) -> bool;

    /// Answers `event`, changing the state, with the events it causes.
    fn handle_event(&mut self, event: E) -> Vec<E>
        requires
            old(self).takes(event),
    ;
}

/// `r` holds the scene `e`.
pub open spec fn holds_entry<T>(r: Option<SceneEntry<T>>, e: SceneEntry<T>) -> bool {
    r == Some(e)
}

/// What a request of the game did to the scenes.
pub enum SceneOutcome<T> {
    /// A suspension request: whether a shown scene of that name was suspended.
    Suspended(bool),
    /// A request to show a suspended scene again: whether one was found.
    Activated(bool),
    /// A deletion request: the deleted scene, if one was found.
    Deleted(Option<SceneEntry<T>>),
    /// A request to delete an entity: where the scene it lives in is, shown
    /// (`true`) or suspended, and at which index; `None` where neither holds it.
    EntityScene(Option<(bool, usize)>),
    /// The game asks to end.
    EndGame,
    /// Nothing for the scenes to do.
    Other,
}

/// Where the scene named `name` is: among the shown scenes first, else among
/// the suspended ones.
pub open spec fn entity_scene<T>(a: Seq<SceneEntry<T>>, s: Seq<SceneEntry<T>>, name: Seq<char>, r: Option<(bool, usize)>) -> bool {
    match r {
        Some((true, i)) => first_named(a, name, i as int),
        Some((false, i)) => !has_named(a, name) && first_named(s, name, i as int),
        None => !has_named(a, name) && !has_named(s, name),
    }
}

impl<T> SceneBook<T> {
    /// The shown scenes drawn in `window`, by index, in drawing order.
    pub fn active_in_window(&self, window: &str) -> (r: Vec<usize>)
        ensures
            forall|k: int| 0 <= k < r@.len() ==> #[trigger] r@[k] < self.spec_active().len() && self.spec_active()[r@[k] as int].target_window@ == window@,
            forall|k: int, l: int| 0 <= k < l < r@.len() ==> r@[k] < r@[l],
            forall|i: int| 0 <= i < self.spec_active().len() && (#[trigger] self.spec_active()[i]).target_window@ == window@ ==> r@.contains(i as usize),
    {
        let mut r: Vec<usize> = Vec::new();
        let mut k: usize = 0;
        while k < self.active.len()
            invariant
                k <= self.active@.len(),
                forall|j: int| 0 <= j < r@.len() ==> #[trigger] r@[j] < k && self.active@[r@[j] as int].target_window@ == window@,
                forall|j: int, l: int| 0 <= j < l < r@.len() ==> r@[j] < r@[l],
                forall|i: int| 0 <= i < k && (#[trigger] self.active@[i]).target_window@ == window@ ==> r@.contains(i as usize),
            decreases self.active@.len() - k,
        {
            if str_equal(self.active[k].target_window.as_str(), window) {
                let ghost before = r@;
                r.push(k);
                assert forall|j: int| 0 <= j < r@.len() implies #[trigger] r@[j] < k + 1 && self.active@[r@[j] as int].target_window@ == window@ by {
                    if j < before.len() {
                        assert(r@[j] == before[j]);
                    } else {
                        assert(r@[j] == k);
                    }
                }
                assert forall|j: int, l: int| 0 <= j < l < r@.len() implies r@[j] < r@[l] by {
                    if l < before.len() {
                        assert(r@[j] == before[j] && r@[l] == before[l]);
                    } else {
                        assert(r@[j] == before[j]);
                    }
                }
                assert forall|i: int| 0 <= i < k + 1 && (#[trigger] self.active@[i]).target_window@ == window@ implies r@.contains(i as usize) by {
                    if i < k {
                        let j = choose|j: int| 0 <= j < before.len() && before[j] == i as usize;
                        assert(r@[j] == i as usize);
                    } else {
                        assert(r@[r@.len() - 1] == k);
                    }
                }
            }
            k = k + 1;
        }
        r
    }

    /// Carries out what a request of the game asks of the scenes: suspending,
    /// showing again or deleting a scene, finding the scene of an entity to delete,
    /// or ending the game; other events leave the scenes alone.
    pub fn handle_request(&mut self, event: &Event) -> (r: SceneOutcome<T>)
        requires
            old(self).well_formed(),
        ensures
            final(self).well_formed(),
            final(self).spec_pending() == old(self).spec_pending(),
            event@ is SuspendScene ==> {
                let n = event@->SuspendScene_0;
                &&& r matches SceneOutcome::Suspended(found) && found == has_named(old(self).spec_active(), n)
                &&& !has_named(old(self).spec_active(), n) ==> final(self).spec_active() == old(self).spec_active() && final(self).spec_suspended() == old(self).spec_suspended()
                &&& forall|i: int| first_named(old(self).spec_active(), n, i) ==> final(self).spec_active() == old(self).spec_active().remove(i) && final(self).spec_suspended() == old(self).spec_suspended().push(old(self).spec_active()[i])
            },
            event@ is ActivateSuspendedScene ==> {
                let n = event@->ActivateSuspendedScene_0;
                &&& r matches SceneOutcome::Activated(found) && found == has_named(old(self).spec_suspended(), n)
                &&& !has_named(old(self).spec_suspended(), n) ==> final(self).spec_active() == old(self).spec_active() && final(self).spec_suspended() == old(self).spec_suspended()
                &&& forall|i: int| first_named(old(self).spec_suspended(), n, i) ==> final(self).spec_suspended() == old(self).spec_suspended().remove(i) && final(self).spec_active() == insert_by_z(old(self).spec_active(), old(self).spec_suspended()[i])
            },
            event@ is DeleteScene ==> {
                let n = event@->DeleteScene_0;
                &&& r is Deleted
                &&& (r->Deleted_0 is None <==> !has_named(old(self).spec_active(), n) && !has_named(old(self).spec_suspended(), n))
                &&& r->Deleted_0 is None ==> final(self).spec_active() == old(self).spec_active() && final(self).spec_suspended() == old(self).spec_suspended()
                &&& forall|i: int| #[trigger] first_named(old(self).spec_active(), n, i) ==> holds_entry(r->Deleted_0, old(self).spec_active()[i]) && final(self).spec_active() == old(self).spec_active().remove(i) && final(self).spec_suspended() == old(self).spec_suspended()
                &&& forall|i: int| !has_named(old(self).spec_active(), n) && #[trigger] first_named(old(self).spec_suspended(), n, i) ==> holds_entry(r->Deleted_0, old(self).spec_suspended()[i]) && final(self).spec_suspended() == old(self).spec_suspended().remove(i) && final(self).spec_active() == old(self).spec_active()
            },
            event@ is DeleteEntity ==> {
                &&& r is EntityScene
                &&& entity_scene(old(self).spec_active(), old(self).spec_suspended(), event@->DeleteEntity_1, r->EntityScene_0)
                &&& final(self).spec_active() == old(self).spec_active()
                &&& final(self).spec_suspended() == old(self).spec_suspended()
            },
            event@ is EndGame ==> r is EndGame && final(self).spec_active() == old(self).spec_active() && final(self).spec_suspended() == old(self).spec_suspended(),
            !(event@ is SuspendScene || event@ is ActivateSuspendedScene || event@ is DeleteScene || event@ is DeleteEntity || event@ is EndGame) ==> r is Other && final(self).spec_active() == old(self).spec_active() && final(self).spec_suspended() == old(self).spec_suspended(),
    {
        match event {
            Event::RequestSuspendScene(name) => SceneOutcome::Suspended(self.suspend(name.as_str())),
            Event::RequestActivateSuspendedScene(name) => SceneOutcome::Activated(
                self.activate_suspended(name.as_str()),
            ),
            Event::RequestDeleteScene(name) => {
                let ghost before = *self;
                let s = name.as_str();
                let deleted = self.delete(s);
                assert forall|i: int| #[trigger] first_named(before.spec_active(), s@, i) implies holds_entry(deleted, before.spec_active()[i]) by {}
                assert forall|i: int| !has_named(before.spec_active(), s@) && #[trigger] first_named(before.spec_suspended(), s@, i) implies holds_entry(deleted, before.spec_suspended()[i]) by {}
                SceneOutcome::Deleted(deleted)
            },
            Event::RequestDeleteEntity(_, scene) => {
                match find_named(&self.active, scene.as_str()) {
                    Some(i) => SceneOutcome::EntityScene(Some((true, i))),
                    None => match find_named(&self.suspended, scene.as_str()) {
                        Some(i) => SceneOutcome::EntityScene(Some((false, i))),
                        None => SceneOutcome::EntityScene(None),
                    },
                }
            },
            Event::EndGame => SceneOutcome::EndGame,
            _ => SceneOutcome::Other,
        }
    }
}

/// A request the engine makes when a scene has its render scene.
pub enum ReadyRequest {
    /// Load the sprite sheet of this name.
    SpriteSheet(String),
    /// Tell the game that this scene is now shown.
    NewScene(SceneName),
}

/// A ready request as plain values.
pub enum ReadyRequestV {
    SpriteSheet(Seq<char>),
    NewScene(Seq<char>),
}

/// The view of a ready request.
pub open spec fn ready_view(r: ReadyRequest) -> ReadyRequestV {
    match r {
        ReadyRequest::SpriteSheet(s) => ReadyRequestV::SpriteSheet(s@),
        ReadyRequest::NewScene(n) => ReadyRequestV::NewScene(n@),
    }
}

/// Ready requests as plain values.
pub open spec fn requests_view(v: Seq<ReadyRequest>) -> Seq<ReadyRequestV> {
    v.map_values(|q: ReadyRequest| ready_view(q))
}

/// The requests for a scene called `name` whose entities use the sprite sheets
/// `sheets`: each sprite sheet in order, then the new-scene message.
pub open spec fn ready_requests(sheets: Seq<String>, name: Seq<char>) -> Seq<ReadyRequestV> {
    sheet_requests(sheets).push(ReadyRequestV::NewScene(name))
}

/// A request for each sprite sheet of `sheets`, in order.
pub open spec fn sheet_requests(sheets: Seq<String>) -> Seq<ReadyRequestV> {
    sheets.map_values(|s: String| ReadyRequestV::SpriteSheet(s@))
}

impl<T> SceneBook<T> {
    /// A render scene was created: the first pending scene drawn in it is shown
    /// (see `scene_ready`), and the requests that follow are returned: one for
    /// each sprite sheet its entities use, as `sheets` lists them for its content,
    /// in order, then the new-scene message. `None`, and nothing changes, where
    /// no pending scene is drawn in that render scene.
    pub fn scene_ready_requests<F: Fn(&T) -> Vec<String>>(&mut self, render_scene: &str, sheets: F) -> (r:
        Option<Vec<ReadyRequest>>)
        requires
            old(self).well_formed(),
            forall|c: &T| #[trigger] sheets.requires((c,)),
        ensures
            final(self).well_formed(),
            final(self).spec_suspended() == old(self).spec_suspended(),
            r is None <==> !has_rendered(old(self).spec_pending(), render_scene@),
            r is None ==> final(self).spec_pending() == old(self).spec_pending()
                && final(self).spec_active() == old(self).spec_active(),
            forall|i: int|
                first_rendered(old(self).spec_pending(), render_scene@, i) ==> (r matches Some(v)
                    && exists|listed: Vec<String>|
                    #[trigger] sheets.ensures((&old(self).spec_pending()[i].content,), listed)
                        && requests_view(v@) == ready_requests(
                        listed@,
                        old(self).spec_pending()[i].name@,
                    )) && final(self).spec_pending() == old(self).spec_pending().remove(i)
                    && final(self).spec_active() == insert_by_z(
                    old(self).spec_active(),
                    old(self).spec_pending()[i],
                ),
    {
        match find_rendered(&self.pending, render_scene) {
            Some(i) => {
                let listed = sheets(&self.pending[i].content);
                let mut out: Vec<ReadyRequest> = Vec::new();
                let mut k: usize = 0;
                while k < listed.len()
                    invariant
                        k <= listed@.len(),
                        requests_view(out@) == sheet_requests(listed@.take(k as int)),
                    decreases listed@.len() - k,
                {
                    let ghost before = out@;
                    out.push(ReadyRequest::SpriteSheet(listed[k].clone()));
                    proof {
                        let x = ReadyRequestV::SpriteSheet(listed@[k as int]@);
                        assert(out@ =~= before.push(ReadyRequest::SpriteSheet(listed@[k as int])));
                        assert(requests_view(out@) =~= requests_view(before).push(x));
                        assert(listed@.take(k + 1) =~= listed@.take(k as int).push(listed@[k as int]));
                        assert(sheet_requests(listed@.take(k + 1)) =~= sheet_requests(
                            listed@.take(k as int),
                        ).push(x));
                    }
                    k = k + 1;
                }
                assert(listed@.take(listed@.len() as int) =~= listed@);
                let ghost p0 = self.pending@[i as int];
                let scene = self.pending.remove(i);
                let ghost before = out@;
                out.push(ReadyRequest::NewScene(scene.name.clone_name()));
                assert(out@ =~= before.push(out@.last()));
                assert(requests_view(out@) =~= requests_view(before).push(ready_view(out@.last())));
                insert_scene(&mut self.active, scene);
                assert(requests_view(out@) =~= ready_requests(listed@, p0.name@));
                Some(out)
            },
            None => None,
        }
    }
}

/// Records a loaded sprite sheet under its label, unless one is recorded under
/// that label already (the first one stays).
pub fn register_sprite_sheet(sheets: &mut Vec<(String, u32)>, label: String, id: u32)
    ensures
        (exists|k: int| 0 <= k < old(sheets)@.len() && (#[trigger] old(sheets)@[k]).0@ == label@)
            ==> final(sheets)@ == old(sheets)@,
        !(exists|k: int| 0 <= k < old(sheets)@.len() && (#[trigger] old(sheets)@[k]).0@ == label@)
            ==> final(sheets)@ == old(sheets)@.push((label, id)),
{
    let mut k: usize = 0;
    while k < sheets.len()
        invariant
            k <= sheets@.len(),
            sheets@ == old(sheets)@,
            forall|j: int| 0 <= j < k ==> (#[trigger] sheets@[j]).0@ != label@,
        decreases sheets@.len() - k,
    {
        if str_equal(sheets[k].0.as_str(), label.as_str()) {
            assert(sheets@[k as int].0@ == label@);
            return;
        }
        k = k + 1;
    }
    sheets.push((label, id));
}

/// Records the size of window `id`: the first entry of that window is updated in
/// place, or a new entry is appended where there is none.
pub fn record_window_size(sizes: &mut Vec<(u64, (u32, u32))>, id: u64, size: (u32, u32))
    ensures
        forall|k: int|
            0 <= k < old(sizes)@.len() && old(sizes)@[k].0 == id && (forall|j: int|
                0 <= j < k ==> (#[trigger] old(sizes)@[j]).0 != id) ==> final(sizes)@ == old(
                sizes,
            )@.update(k, (id, size)),
        (forall|k: int| 0 <= k < old(sizes)@.len() ==> (#[trigger] old(sizes)@[k]).0 != id)
            ==> final(sizes)@ == old(sizes)@.push((id, size)),
{
    let mut k: usize = 0;
    while k < sizes.len()
        invariant
            k <= sizes@.len(),
            sizes@ == old(sizes)@,
            forall|j: int| 0 <= j < k ==> (#[trigger] sizes@[j]).0 != id,
        decreases sizes@.len() - k,
    {
        if sizes[k].0 == id {
            sizes.set(k, (id, size));
            return;
        }
        k = k + 1;
    }
    sizes.push((id, size));
}

} // verus!

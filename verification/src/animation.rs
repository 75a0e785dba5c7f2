//! Keyframe animations. Times are counted in nanoseconds.
use vstd::prelude::*;

verus! {

/// Where the frame loop settles: starting in frame `cur` with `t` nanoseconds
/// elapsed in it, frames are skipped while the elapsed time reaches the current
/// frame's duration. Moving on to the next frame (wrapping around) subtracts
/// that next frame's duration. A one-shot animation that wraps around stops in
/// its last frame. The result is (frame, elapsed time, whether it stopped), or
/// `None` when `fuel` steps do not suffice or the time to subtract exceeds the
/// elapsed time.
pub open spec fn settle(d: Seq<u64>, once: bool, cur: int, t: int, fuel: nat) -> Option<
    (int, int, bool),
>
    decreases fuel,
{
    if t < d[cur] {
        Some((cur, t, false))
    } else if fuel == 0 {
        None
    } else {
        let next = (cur + 1) % (d.len() as int);
        if once && next == 0 {
            Some((d.len() - 1, t, true))
        } else if t < d[next] {
            None
        } else {
            settle(d, once, next, t - d[next], (fuel - 1) as nat)
        }
    }
}

/// Whether the frame loop settles from this state at all.
pub open spec fn settles(d: Seq<u64>, once: bool, cur: int, t: int) -> bool {
    exists|f: nat| #[trigger] settle(d, once, cur, t, f) is Some
}

/// The state in which the frame loop settles.
pub open spec fn settled(d: Seq<u64>, once: bool, cur: int, t: int) -> (int, int, bool) {
    settle(d, once, cur, t, choose|f: nat| #[trigger] settle(d, once, cur, t, f) is Some).unwrap()
}

/// A sequence of keyframes, each shown for its duration in nanoseconds. A
/// looping animation starts over after its last frame; a one-shot animation
/// stops there.
pub struct Animation<T> {
    keyframes: Vec<(u64, T)>,
    current_keyframe: usize,
    time_since_frame_start: u64,
    once: bool,
    running: bool,
}

impl<T> Animation<T> {
    #[verifier::type_invariant]
    spec fn frame_in_range(self) -> bool {
        self.keyframes.len() == 0 || self.current_keyframe < self.keyframes.len()
    }

    /// The durations of the keyframes.
    pub open spec fn durations(&self) -> Seq<u64> {
        self.frames().map_values(|k: (u64, T)| k.0)
    }

    pub closed spec fn frames(&self) -> Seq<(u64, T)> {
        self.keyframes@
    }

    pub closed spec fn current(&self) -> usize {
        self.current_keyframe
    }

    pub closed spec fn elapsed(&self) -> u64 {
        self.time_since_frame_start
    }

    pub closed spec fn is_once(&self) -> bool {
        self.once
    }

    pub closed spec fn is_running(&self) -> bool {
        self.running
    }

    /// Whether `update(delta_t)` runs to its end on this animation: the clock
    /// does not overflow and the frame loop settles.
    pub open spec fn can_update(&self, delta_t: u64) -> bool {
        self.is_running() && !(self.is_once() && self.frames().len() == 0) ==> {
            &&& self.frames().len() > 0
            &&& self.elapsed() + delta_t <= u64::MAX
            &&& settles(
                self.durations(),
                self.is_once(),
                self.current() as int,
                self.elapsed() + delta_t,
            )
        }
    }

    /// A running animation at the start of its first keyframe.
    pub fn new(keyframes: Vec<(u64, T)>, once: bool) -> (r: Animation<T>)
        ensures
            r.frames() == keyframes@,
            r.current() == 0,
            r.elapsed() == 0,
            r.is_once() == once,
            r.is_running(),
    {
        Animation {
            keyframes,
            current_keyframe: 0,
            time_since_frame_start: 0,
            once,
            running: true,
        }
    }

    /// A running animation through `frames`, the values interpolated in
    /// `animation_steps` steps: each frame lasts an equal share of
    /// `animation_time` nanoseconds, rounded down.
    pub fn lerp(frames: Vec<T>, animation_steps: u16, animation_time: u64, once: bool) -> (r:
        Animation<T>)
        requires
            animation_steps > 0,
        ensures
            r.frames().len() == frames@.len(),
            forall|i: int|
                0 <= i < frames@.len() ==> #[trigger] r.frames()[i] == (
                    animation_time / animation_steps as u64,
                    frames@[i],
                ),
            r.current() == 0,
            r.elapsed() == 0,
            r.is_once() == once,
            r.is_running(),
    {
        let frame_time = animation_time / (animation_steps as u64);
        let mut keyframes: Vec<(u64, T)> = Vec::new();
        let mut rest = frames;
        let ghost all = rest@;
        let ghost mut i: int = 0;
        while rest.len() > 0
            invariant
                0 <= i <= all.len(),
                rest@ == all.skip(i),
                keyframes@.len() == i,
                forall|j: int| 0 <= j < i ==> #[trigger] keyframes@[j] == (frame_time, all[j]),
            decreases rest@.len(),
        {
            let v = rest.remove(0);
            keyframes.push((frame_time, v));
            proof {
                assert(all.skip(i + 1) =~= all.skip(i).drop_first());
                i = i + 1;
            }
        }
        Animation::new(keyframes, once)
    }

    /// Advances the animation by `delta_t` nanoseconds. Returns true exactly when
    /// the animation just ended.
    pub fn update(&mut self, delta_t: u64) -> (ended: bool)
        requires
            old(self).can_update(delta_t),
        ensures
            final(self).frames() == old(self).frames(),
            final(self).is_once() == old(self).is_once(),
            !old(self).is_running() ==> *final(self) == *old(self) && !ended,
            old(self).is_running() && old(self).is_once() && old(self).frames().len() == 0 ==> {
                &&& ended
                &&& !final(self).is_running()
                &&& final(self).current() == old(self).current()
                &&& final(self).elapsed() == old(self).elapsed()
            },
            old(self).is_running() && !(old(self).is_once() && old(self).frames().len() == 0) ==> {
                let s = settled(
                    old(self).durations(),
                    old(self).is_once(),
                    old(self).current() as int,
                    old(self).elapsed() + delta_t,
                );
                &&& final(self).current() == s.0
                &&& final(self).elapsed() == s.1
                &&& ended == s.2
                &&& final(self).is_running() == !s.2
            },
            final(self).frames().len() > 0 ==> final(self).current() < final(self).frames().len(),
            old(self).is_running() && !ended && final(self).frames().len() > 0 ==> final(self).elapsed()
                < final(self).durations()[final(self).current() as int],
    {
        proof {
            use_type_invariant(&*self);
        }
        if !self.running {
            return false;
        }
        if self.once && self.keyframes.len() == 0 {
            self.running = false;
            return true;
        }
        let ghost d = self.durations();
        let ghost t0 = self.time_since_frame_start + delta_t;
        let ghost fuel0 = choose|f: nat| #[trigger] settle(d, self.once, self.current_keyframe as int, t0, f) is Some;
        proof {
            lemma_settle_rests(d, self.once, self.current_keyframe as int, t0 as int, fuel0);
        }
        let ghost target = settle(d, self.once, self.current_keyframe as int, t0, fuel0);
        let ghost mut fuel: nat = fuel0;
        let n = self.keyframes.len();
        let once = self.once;
        let mut cur = self.current_keyframe;
        let mut t = self.time_since_frame_start + delta_t;
        assert(d.len() == n);
        while t >= self.keyframes[cur].0
            invariant
                n == self.keyframes.len(),
                self.keyframes@ == old(self).keyframes@,
                self.once == old(self).once,
                self.running == old(self).running,
                old(self).running,
                t0 == old(self).time_since_frame_start + delta_t,
                target == settle(d, once, old(self).current_keyframe as int, t0, fuel0),
                fuel0 == choose|f: nat| #[trigger] settle(d, once, old(self).current_keyframe as int, t0, f) is Some,
                self.current_keyframe == old(self).current_keyframe,
                self.time_since_frame_start == old(self).time_since_frame_start,
                n > 0,
                cur < n,
                once == self.once,
                d == self.durations(),
                d.len() == n,
                target is Some,
                settle(d, once, cur as int, t as int, fuel) == target,
            decreases fuel,
        {
            assert(d[cur as int] == self.keyframes@[cur as int].0);
            let next = (cur + 1) % n;
            if once && next == 0 {
                self.current_keyframe = n - 1;
                self.time_since_frame_start = t;
                self.running = false;
                return true;
            }
            assert(d[next as int] == self.keyframes@[next as int].0);
            t = t - self.keyframes[next].0;
            cur = next;
            proof {
                fuel = (fuel - 1) as nat;
            }
        }
        assert(d[cur as int] == self.keyframes@[cur as int].0);
        self.current_keyframe = cur;
        self.time_since_frame_start = t;
        false
    }

    /// The keyframe currently shown.
    pub fn keyframe(&self) -> (r: &T)
        requires
            self.frames().len() > 0,
        ensures
            self.current() < self.frames().len(),
            *r == self.frames()[self.current() as int].1,
    {
        proof {
            use_type_invariant(self);
        }
        &self.keyframes[self.current_keyframe].1
    }

    /// The number of keyframes.
    pub fn frame_count(&self) -> (r: usize)
        ensures
            r == self.frames().len(),
    {
        self.keyframes.len()
    }

    pub fn current_keyframe(&self) -> (r: usize)
        ensures
            r == self.current(),
    {
        self.current_keyframe
    }

    pub fn is_running_now(&self) -> (r: bool)
        ensures
            r == self.is_running(),
    {
        self.running
    }
}

proof fn lemma_settle_more_fuel(d: Seq<u64>, once: bool, cur: int, t: int, f: nat, g: nat)
    requires
        settle(d, once, cur, t, f) is Some,
        f <= g,
    ensures
        settle(d, once, cur, t, g) == settle(d, once, cur, t, f),
    decreases f,
{
    if t >= d[cur] && f > 0 {
        let next = (cur + 1) % (d.len() as int);
        if !(once && next == 0) && t >= d[next] {
            lemma_settle_more_fuel(d, once, next, t - d[next], (f - 1) as nat, (g - 1) as nat);
        }
    }
}

/// Where the frame loop settles with some fuel, it settles, and where it settles
/// does not depend on the fuel.
pub proof fn lemma_settled(d: Seq<u64>, once: bool, cur: int, t: int, f: nat)
    requires
        settle(d, once, cur, t, f) is Some,
    ensures
        settles(d, once, cur, t),
        settled(d, once, cur, t) == settle(d, once, cur, t, f).unwrap(),
{
    let g = choose|g: nat| #[trigger] settle(d, once, cur, t, g) is Some;
    if f <= g {
        lemma_settle_more_fuel(d, once, cur, t, f, g);
    } else {
        lemma_settle_more_fuel(d, once, cur, t, g, f);
    }
}

/// Where the frame loop settles without stopping, it rests in a frame whose
/// duration the elapsed time has not reached; where it stops, in the last frame.
proof fn lemma_settle_rests(d: Seq<u64>, once: bool, cur: int, t: int, fuel: nat)
    requires
        0 <= cur < d.len(),
    ensures
        settle(d, once, cur, t, fuel) matches Some(r) ==> 0 <= r.0 < d.len() && (!r.2 ==> r.1
            < d[r.0]),
    decreases fuel,
{
    if t >= d[cur] && fuel > 0 {
        let next = (cur + 1) % (d.len() as int);
        lemma_settle_rests(d, once, next, t - d[next], (fuel - 1) as nat);
    }
}

/// One pass of the frame loop that neither stops nor underflows keeps whether the
/// loop settles.
proof fn lemma_settles_step(d: Seq<u64>, once: bool, cur: int, t: int)
    requires
        0 <= cur < d.len(),
        t >= d[cur],
        !(once && (cur + 1) % (d.len() as int) == 0),
        t >= d[(cur + 1) % (d.len() as int)],
    ensures
        settles(d, once, cur, t) == settles(
            d,
            once,
            (cur + 1) % (d.len() as int),
            t - d[(cur + 1) % (d.len() as int)],
        ),
{
    let next = (cur + 1) % (d.len() as int);
    let t1 = t - d[next];
    if settles(d, once, cur, t) {
        let f = choose|f: nat| #[trigger] settle(d, once, cur, t, f) is Some;
        assert(settle(d, once, next, t1, (f - 1) as nat) is Some);
    }
    if settles(d, once, next, t1) {
        let f = choose|f: nat| #[trigger] settle(d, once, next, t1, f) is Some;
        assert(settle(d, once, cur, t, f + 1) is Some);
    }
}

/// Where the next frame lasts longer than the time left, the loop never settles.
proof fn lemma_settles_underflow(d: Seq<u64>, once: bool, cur: int, t: int)
    requires
        0 <= cur < d.len(),
        t >= d[cur],
        !(once && (cur + 1) % (d.len() as int) == 0),
        t < d[(cur + 1) % (d.len() as int)],
    ensures
        !settles(d, once, cur, t),
{
    assert forall|f: nat| !(#[trigger] settle(d, once, cur, t, f) is Some) by {}
}

/// A looping animation whose frames all last zero never settles.
proof fn lemma_all_zero_loops(d: Seq<u64>, cur: int, t: int, f: nat)
    requires
        d.len() > 0,
        0 <= cur < d.len(),
        t >= 0,
        forall|i: int| 0 <= i < d.len() ==> d[i] == 0,
    ensures
        settle(d, false, cur, t, f) is None,
    decreases f,
{
    if f > 0 {
        let next = (cur + 1) % (d.len() as int);
        lemma_all_zero_loops(d, next, t - d[next], (f - 1) as nat);
    }
}

proof fn lemma_next_frame(p: int, n: int)
    requires
        n > 0,
        p >= 0,
    ensures
        ((p % n) + 1) % n == (p + 1) % n,
{
    vstd::arithmetic::div_mod::lemma_fundamental_div_mod(p, n);
    let q = p / n;
    let c = p % n;
    assert(0 <= c < n) by {
        vstd::arithmetic::div_mod::lemma_mod_bound(p, n);
    }
    if c + 1 < n {
        assert(p + 1 == q * n + (c + 1)) by (nonlinear_arith)
            requires
                p == n * q + c,
        ;
        vstd::arithmetic::div_mod::lemma_fundamental_div_mod_converse_mod(p + 1, n, q, c + 1);
        vstd::arithmetic::div_mod::lemma_fundamental_div_mod_converse_mod(c + 1, n, 0, c + 1);
    } else {
        assert(p + 1 == (q + 1) * n + 0) by (nonlinear_arith)
            requires
                p == n * q + c,
                c + 1 == n,
        ;
        vstd::arithmetic::div_mod::lemma_fundamental_div_mod_converse_mod(p + 1, n, q + 1, 0);
        vstd::arithmetic::div_mod::lemma_fundamental_div_mod_converse_mod(c + 1, n, 1, 0);
    }
}

/// `n` consecutive positions ending at `p` meet every residue modulo `n`.
proof fn lemma_window_covers(p: int, n: int, i: int) -> (q: int)
    requires
        n > 0,
        0 <= i < n,
    ensures
        p - n < q <= p,
        q % n == i,
{
    vstd::arithmetic::div_mod::lemma_fundamental_div_mod(p - i, n);
    vstd::arithmetic::div_mod::lemma_mod_bound(p - i, n);
    let k = (p - i) / n;
    let q = p - (p - i) % n;
    assert(q == k * n + i) by (nonlinear_arith)
        requires
            p - i == n * k + (p - i) % n,
            q == p - (p - i) % n,
    ;
    vstd::arithmetic::div_mod::lemma_fundamental_div_mod_converse_mod(q, n, k, i);
    q
}

impl<T> Animation<T> {
    /// Whether `update(delta_t)` would run to its end, found by running the frame
    /// loop on copies.
    pub fn can_update_check(&self, delta_t: u64) -> (r: bool)
        ensures
            r == self.can_update(delta_t),
    {
        proof {
            use_type_invariant(self);
        }
        if !self.running || (self.once && self.keyframes.len() == 0) {
            return true;
        }
        let n = self.keyframes.len();
        if n == 0 {
            return false;
        }
        let t0 = match self.time_since_frame_start.checked_add(delta_t) {
            Some(t) => t,
            None => return false,
        };
        let ghost d = self.durations();
        let once = self.once;
        let ghost cur0 = self.current_keyframe as int;
        let mut cur = self.current_keyframe;
        let mut t = t0;
        let mut idle: usize = 0;
        let ghost mut p: int = cur0;
        assert(cur0 % (n as int) == cur0) by {
            vstd::arithmetic::div_mod::lemma_fundamental_div_mod_converse_mod(cur0, n as int, 0, cur0);
        }
        loop
            invariant
                n == self.keyframes@.len(),
                d == self.durations(),
                d.len() == n,
                n > 0,
                once == self.once,
                self.running,
                t0 == self.time_since_frame_start + delta_t,
                cur0 == self.current_keyframe,
                cur < n,
                p >= cur0 >= 0,
                cur as int == p % (n as int),
                idle < n,
                once ==> idle as int <= p - cur0 && p < n,
                forall|q: int| p - idle < q <= p ==> #[trigger] d[q % (n as int)] == 0,
                settles(d, once, cur0, t0 as int) == settles(d, once, cur as int, t as int),
            decreases t, n - idle,
        {
            assert(d[cur as int] == self.keyframes@[cur as int].0);
            if t < self.keyframes[cur].0 {
                assert(settle(d, once, cur as int, t as int, 0) is Some);
                return true;
            }
            let next = (cur + 1) % n;
            if once && next == 0 {
                assert(settle(d, once, cur as int, t as int, 1) is Some);
                return true;
            }
            assert(d[next as int] == self.keyframes@[next as int].0);
            let dn = self.keyframes[next].0;
            if t < dn {
                proof {
                    lemma_settles_underflow(d, once, cur as int, t as int);
                }
                return false;
            }
            proof {
                lemma_settles_step(d, once, cur as int, t as int);
                lemma_next_frame(p, n as int);
                if once {
                    vstd::arithmetic::div_mod::lemma_fundamental_div_mod_converse_mod(p, n as int, 0, p);
                    if cur + 1 == n {
                        vstd::arithmetic::div_mod::lemma_fundamental_div_mod_converse_mod(
                            n as int,
                            n as int,
                            1,
                            0,
                        );
                    }
                    assert(p + 1 < n);
                }
                p = p + 1;
            }
            if dn == 0 {
                if idle + 1 == n {
                    proof {
                        assert forall|i: int| 0 <= i < d.len() implies d[i] == 0 by {
                            let q = lemma_window_covers(p, n as int, i);
                            if q < p {
                                assert(d[q % (n as int)] == 0);
                            }
                        }
                        assert(!once);
                        assert forall|f: nat| !(#[trigger] settle(d, false, next as int, (t - dn) as int, f) is Some) by {
                            lemma_all_zero_loops(d, next as int, (t - dn) as int, f);
                        }
                    }
                    return false;
                }
                idle = idle + 1;
            } else {
                idle = 0;
            }
            t = t - dn;
            cur = next;
        }
    }
}

proof fn lemma_loop_never_stops(d: Seq<u64>, cur: int, t: int, fuel: nat)
    ensures
        settle(d, false, cur, t, fuel) matches Some(r) ==> !r.2,
    decreases fuel,
{
    if fuel > 0 {
        let next = (cur + 1) % (d.len() as int);
        lemma_loop_never_stops(d, next, t - d[next], (fuel - 1) as nat);
    }
}

/// A looping animation never ends: wherever its frame loop settles, it is still running.
pub proof fn law_looping_animation_never_ends(d: Seq<u64>, cur: int, t: int)
    requires
        settles(d, false, cur, t),
    ensures
        !settled(d, false, cur, t).2,
{
    let f = choose|f: nat| #[trigger] settle(d, false, cur, t, f) is Some;
    lemma_loop_never_stops(d, cur, t, f);
}

/// A one-shot animation that wraps around stops in its last frame.
pub proof fn law_one_shot_stops_in_last_frame(d: Seq<u64>, cur: int, t: int)
    requires
        settles(d, true, cur, t),
        d.len() > 0,
    ensures
        settled(d, true, cur, t).2 ==> settled(d, true, cur, t).0 == d.len() - 1,
{
    let f = choose|f: nat| #[trigger] settle(d, true, cur, t, f) is Some;
    lemma_one_shot_last(d, cur, t, f);
}

proof fn lemma_one_shot_last(d: Seq<u64>, cur: int, t: int, fuel: nat)
    ensures
        settle(d, true, cur, t, fuel) matches Some(r) ==> (r.2 ==> r.0 == d.len() - 1),
    decreases fuel,
{
    if fuel > 0 {
        let next = (cur + 1) % (d.len() as int);
        lemma_one_shot_last(d, next, t - d[next], (fuel - 1) as nat);
    }
}

} // verus!

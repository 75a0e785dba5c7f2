//! Planned battle actions and the time-ordered queue that holds them.
use vstd::prelude::*;

use crate::character::{skill_result, Character, SkilledCharacter};

verus! {

broadcast use vstd::seq_lib::group_seq_properties;

/// An action as plain values: (time, acting character, skill, target character).
pub type ActionView = (u64, usize, usize, usize);

/// One planned use of a skill.
pub struct BattleAction {
    time: u64,
    character_index: usize,
    skill_index: usize,
    target_character_index: usize,
}

impl View for BattleAction {
    type V = ActionView;

    closed spec fn view(&self) -> ActionView {
        (self.time, self.character_index, self.skill_index, self.target_character_index)
    }
}

impl BattleAction {
    pub fn new(time: u64, character_index: usize, skill_index: usize, target_character_index: usize) -> (r:
        BattleAction)
        ensures
            r@ == (time, character_index, skill_index, target_character_index),
    {
        BattleAction { time, character_index, skill_index, target_character_index }
    }

    pub fn time(&self) -> (r: u64)
        ensures
            r == self@.0,
    {
        self.time
    }

    pub fn character_index(&self) -> (r: usize)
        ensures
            r == self@.1,
    {
        self.character_index
    }

    pub fn skill_index(&self) -> (r: usize)
        ensures
            r == self@.2,
    {
        self.skill_index
    }

    pub fn target_index(&self) -> (r: usize)
        ensures
            r == self@.3,
    {
        self.target_character_index
    }

    pub fn copy_action(&self) -> (r: BattleAction)
        ensures
            r@ == self@,
    {
        BattleAction {
            time: self.time,
            character_index: self.character_index,
            skill_index: self.skill_index,
            target_character_index: self.target_character_index,
        }
    }

    /// Lets the acting character use its skill on the target, or on itself when
    /// it targets itself. Only the target's health changes.
    pub fn act_out(&self, characters: &mut Vec<SkilledCharacter>)
        requires
            self@.1 < old(characters).len(),
            self@.3 < old(characters).len(),
            self@.2 < old(characters)@[self@.1 as int].spec_skills().len(),
        ensures
            final(characters)@ == acted_out(old(characters)@, self@),
    {
        let source = *characters[self.character_index].character();
        let skill = characters[self.character_index].get_skills()[self.skill_index];
        let t = self.target_character_index;
        let mut target = characters.remove(t);
        target.receive_skill(skill, &source);
        characters.insert(t, target);
        assert(final(characters)@ =~= acted_out(old(characters)@, self@)) by {
            let o = old(characters)@;
            let f = final(characters)@;
            assert forall|i: int| 0 <= i < o.len() implies #[trigger] f[i] == acted_out(o, self@)[i] by {
                if i == t {
                }
            }
        }
    }
}

/// The combatants after action `a` took place: the target's character has the
/// health that the skill leaves it with; nothing else changes.
pub open spec fn acted_out(cs: Seq<SkilledCharacter>, a: ActionView) -> Seq<SkilledCharacter> {
    let source = cs[a.1 as int];
    let target = cs[a.3 as int];
    let skill = source.spec_skills()[a.2 as int];
    let hit = target.spec_character().with_health(
        skill_result(skill, target.spec_character(), source.spec_character()),
    );
    cs.update(a.3 as int, target.with_character(hit))
}

/// Whether the actions are in order of time.
pub open spec fn sorted_by_time(q: Seq<ActionView>) -> bool {
    forall|i: int, j: int| 0 <= i < j < q.len() ==> q[i].0 <= q[j].0
}

/// How many actions take place no later than `t`.
pub open spec fn count_not_later(q: Seq<ActionView>, t: u64) -> nat
    decreases q.len(),
{
    if q.len() == 0 {
        0
    } else {
        count_not_later(q.drop_last(), t) + if q.last().0 <= t {
            1nat
        } else {
            0nat
        }
    }
}

/// The queue after `a` joined it: behind every action that is not later than it
/// and before every later one.
pub open spec fn insert_sorted(q: Seq<ActionView>, a: ActionView) -> Seq<ActionView> {
    let k = count_not_later(q, a.0) as int;
    q.take(k) + seq![a] + q.skip(k)
}

proof fn lemma_count_split(q: Seq<ActionView>, t: u64, k: int)
    requires
        0 <= k <= q.len(),
        forall|i: int| 0 <= i < k ==> q[i].0 <= t,
        forall|i: int| k <= i < q.len() ==> q[i].0 > t,
    ensures
        count_not_later(q, t) == k,
    decreases q.len(),
{
    if q.len() > 0 {
        let d = q.drop_last();
        if k == q.len() {
            lemma_count_split(d, t, k - 1);
        } else {
            lemma_count_split(d, t, k);
        }
    }
}

/// Inserting into a time-ordered queue keeps it ordered.
pub proof fn lemma_insert_keeps_order(q: Seq<ActionView>, a: ActionView)
    requires
        sorted_by_time(q),
    ensures
        sorted_by_time(insert_sorted(q, a)),
        insert_sorted(q, a).len() == q.len() + 1,
{
    lemma_first_later(q, a.0);
    let k = first_later(q, a.0);
    lemma_count_split(q, a.0, k);
    let r = insert_sorted(q, a);
    assert forall|i: int, j: int| 0 <= i < j < r.len() implies r[i].0 <= r[j].0 by {
        if j < k {
            assert(r[i] == q[i] && r[j] == q[j]);
        } else if j == k {
            assert(r[i] == q[i]);
        } else if i < k {
            assert(r[i] == q[i] && r[j] == q[j - 1]);
        } else if i == k {
            assert(r[j] == q[j - 1]);
        } else {
            assert(r[i] == q[i - 1] && r[j] == q[j - 1]);
        }
    }
}

/// The position of the first action later than `t` in an ordered queue.
spec fn first_later(q: Seq<ActionView>, t: u64) -> int
    decreases q.len(),
{
    if q.len() == 0 {
        0
    } else if q.last().0 <= t {
        q.len() as int
    } else {
        first_later(q.drop_last(), t)
    }
}

proof fn lemma_first_later(q: Seq<ActionView>, t: u64)
    requires
        sorted_by_time(q),
    ensures
        0 <= first_later(q, t) <= q.len(),
        forall|i: int| 0 <= i < first_later(q, t) ==> q[i].0 <= t,
        forall|i: int| first_later(q, t) <= i < q.len() ==> q[i].0 > t,
    decreases q.len(),
{
    if q.len() > 0 {
        let d = q.drop_last();
        assert(sorted_by_time(d)) by {
            assert forall|i: int, j: int| 0 <= i < j < d.len() implies d[i].0 <= d[j].0 by {
                assert(d[i] == q[i] && d[j] == q[j]);
            }
        }
        lemma_first_later(d, t);
        if q.last().0 <= t {
            assert forall|i: int| 0 <= i < q.len() implies q[i].0 <= t by {
                if i < q.len() - 1 {
                    assert(q[i].0 <= q[q.len() - 1].0);
                }
            }
        } else {
            assert forall|i: int| 0 <= i < first_later(q, t) implies q[i].0 <= t by {
                assert(q[i] == d[i]);
            }
            assert forall|i: int| first_later(q, t) <= i < q.len() implies q[i].0 > t by {
                if i < q.len() - 1 {
                    assert(q[i] == d[i]);
                }
            }
        }
    }
}

proof fn lemma_count_bound(q: Seq<ActionView>, t: u64)
    ensures
        count_not_later(q, t) <= q.len(),
    decreases q.len(),
{
    if q.len() > 0 {
        lemma_count_bound(q.drop_last(), t);
    }
}

/// A queued action joins the queue and nothing else changes in it: the queue
/// afterwards holds exactly the actions it held before and the new one, so the
/// character of the new action has an action in it.
pub proof fn law_queue_holds_action(q: Seq<ActionView>, a: ActionView)
    ensures
        insert_sorted(q, a).contains(a),
        exists|i: int| 0 <= i < insert_sorted(q, a).len() && (#[trigger] insert_sorted(q, a)[i]).1 == a.1,
        forall|x: ActionView| #[trigger] insert_sorted(q, a).contains(x) <==> q.contains(x) || x == a,
{
    lemma_count_bound(q, a.0);
    let k = count_not_later(q, a.0) as int;
    let r = insert_sorted(q, a);
    assert(r[k] == a);
    assert forall|x: ActionView| #[trigger] r.contains(x) <==> q.contains(x) || x == a by {
        if r.contains(x) {
            let i = choose|i: int| 0 <= i < r.len() && r[i] == x;
            if i < k {
                assert(q[i] == x);
            } else if i > k {
                assert(q[i - 1] == x);
            }
        }
        if q.contains(x) {
            let j = choose|j: int| 0 <= j < q.len() && q[j] == x;
            if j < k {
                assert(r[j] == x);
            } else {
                assert(r[j + 1] == x);
            }
        }
    }
}

/// Removing a character's actions leaves none of its actions in the queue and
/// keeps every action of the other characters.
pub proof fn law_removed_character_has_no_action(q: Seq<ActionView>, c: usize)
    ensures
        forall|i: int|
            0 <= i < without_character(q, c).len() ==> (#[trigger] without_character(q, c)[i]).1
                != c,
        forall|i: int| 0 <= i < q.len() && (#[trigger] q[i]).1 != c ==> without_character(q, c).contains(q[i]),
{
    #[allow(deprecated)]
    q.filter_lemma(performed_by_other(c));
}

/// Whether an action is performed by someone other than `c`.
pub open spec fn performed_by_other(c: usize) -> spec_fn(ActionView) -> bool {
    |a: ActionView| a.1 != c
}

/// The actions of a queue that are not performed by `c`, in their order.
pub open spec fn without_character(q: Seq<ActionView>, c: usize) -> Seq<ActionView> {
    q.filter(performed_by_other(c))
}

proof fn lemma_filter_keeps_order(q: Seq<ActionView>, c: usize)
    requires
        sorted_by_time(q),
    ensures
        sorted_by_time(without_character(q, c)),
    decreases q.len(),
{
    reveal(Seq::filter);
    if q.len() > 0 {
        let d = q.drop_last();
        assert(sorted_by_time(d)) by {
            assert forall|i: int, j: int| 0 <= i < j < d.len() implies d[i].0 <= d[j].0 by {
                assert(d[i] == q[i] && d[j] == q[j]);
            }
        }
        lemma_filter_keeps_order(d, c);
        let fd = without_character(d, c);
        assert forall|i: int| 0 <= i < fd.len() implies fd[i].0 <= q.last().0 by {
            assert(fd.contains(fd[i]));
            d.lemma_filter_contains_rev(performed_by_other(c), fd[i]);
            let j = choose|j: int| 0 <= j < d.len() && d[j] == fd[i];
            assert(q[j] == d[j]);
        }
        let fq = without_character(q, c);
        assert forall|i: int, j: int| 0 <= i < j < fq.len() implies fq[i].0 <= fq[j].0 by {
            if performed_by_other(c)(q.last()) {
                assert(fq =~= fd.push(q.last()));
                if j < fd.len() {
                    assert(fq[i] == fd[i] && fq[j] == fd[j]);
                } else {
                    assert(fq[i] == fd[i]);
                }
            } else {
                assert(fq =~= fd);
            }
        }
    }
}

/// The queue of planned actions, ordered by time. Actions of equal time stay in
/// the order in which they were queued.
pub struct BattleActionManager {
    actions: Vec<BattleAction>,
}

impl View for BattleActionManager {
    type V = Seq<ActionView>;

    closed spec fn view(&self) -> Seq<ActionView> {
        self.actions@.map_values(|a: BattleAction| a@)
    }
}

impl BattleActionManager {
    #[verifier::type_invariant]
    spec fn ordered(self) -> bool {
        sorted_by_time(self@)
    }

    /// The queue after queueing `a`.
    pub open spec fn queued(self, a: ActionView) -> Seq<ActionView> {
        insert_sorted(self@, a)
    }

    pub fn new() -> (r: BattleActionManager)
        ensures
            r@ == Seq::<ActionView>::empty(),
    {
        let r = BattleActionManager { actions: Vec::new() };
        assert(r@ =~= Seq::<ActionView>::empty());
        r
    }

    /// Queues `action` behind every action that takes place no later than it.
    pub fn queue_action(&mut self, action: BattleAction)
        ensures
            final(self)@ == old(self).queued(action@),
            sorted_by_time(final(self)@),
    {
        proof {
            use_type_invariant(&*self);
            lemma_first_later(self@, action@.0);
        }
        let t = action.time;
        let mut k: usize = 0;
        while k < self.actions.len() && self.actions[k].time <= t
            invariant
                k <= self.actions.len(),
                self@ == old(self)@,
                sorted_by_time(self@),
                forall|i: int| 0 <= i < k ==> self@[i].0 <= t,
            decreases self.actions.len() - k,
        {
            assert(self@[k as int] == self.actions@[k as int]@);
            k = k + 1;
        }
        proof {
            let q = self@;
            if k < q.len() {
                assert(q[k as int] == self.actions@[k as int]@);
            }
            assert forall|i: int| k <= i < q.len() implies q[i].0 > t by {
                assert(q[k as int].0 <= q[i].0);
            }
            lemma_count_split(q, t, k as int);
            lemma_insert_keeps_order(q, action@);
        }
        let ghost before = self@;
        let mut actions = Vec::new();
        std::mem::swap(&mut actions, &mut self.actions);
        actions.insert(k, action);
        assert(actions@.map_values(|a: BattleAction| a@) =~= insert_sorted(before, action@));
        self.actions = actions;
    }

    pub fn get_actions(&self) -> (r: &[BattleAction])
        ensures
            r@.map_values(|a: BattleAction| a@) == self@,
            sorted_by_time(self@),
    {
        proof {
            use_type_invariant(self);
        }
        self.actions.as_slice()
    }

    /// A queue that holds the same actions.
    pub fn duplicate(&self) -> (r: BattleActionManager)
        ensures
            r@ == self@,
    {
        proof {
            use_type_invariant(self);
        }
        let mut v: Vec<BattleAction> = Vec::new();
        let mut i: usize = 0;
        while i < self.actions.len()
            invariant
                i <= self.actions@.len(),
                v@.len() == i,
                forall|j: int| 0 <= j < i ==> (#[trigger] v@[j])@ == self.actions@[j]@,
            decreases self.actions@.len() - i,
        {
            v.push(self.actions[i].copy_action());
            i = i + 1;
        }
        assert(v@.map_values(|a: BattleAction| a@) =~= self@);
        BattleActionManager { actions: v }
    }

    pub fn len(&self) -> (r: usize)
        ensures
            r == self@.len(),
    {
        self.actions.len()
    }

    /// Whether some action is performed by `character_index`.
    pub fn contains_character(&self, character_index: usize) -> (r: bool)
        ensures
            r == exists|i: int| 0 <= i < self@.len() && self@[i].1 == character_index,
    {
        let mut i: usize = 0;
        while i < self.actions.len()
            invariant
                i <= self.actions.len(),
                forall|j: int| 0 <= j < i ==> self@[j].1 != character_index,
            decreases self.actions.len() - i,
        {
            if self.actions[i].character_index == character_index {
                assert(self@[i as int].1 == character_index);
                return true;
            }
            i = i + 1;
        }
        false
    }

    /// Drops every action performed by `character_index`, keeping the order of the rest.
    pub fn remove_character(&mut self, character_index: usize)
        ensures
            final(self)@ == without_character(old(self)@, character_index),
            sorted_by_time(final(self)@),
    {
        proof {
            use_type_invariant(&*self);
            lemma_filter_keeps_order(self@, character_index);
        }
        let ghost q = self@;
        let ghost pred = performed_by_other(character_index);
        let mut old_actions = Vec::new();
        std::mem::swap(&mut old_actions, &mut self.actions);
        let mut kept: Vec<BattleAction> = Vec::new();
        let mut i: usize = 0;
        while i < old_actions.len()
            invariant
                i <= old_actions.len(),
                pred == performed_by_other(character_index),
                q == old_actions@.map_values(|a: BattleAction| a@),
                kept@.map_values(|a: BattleAction| a@) == q.take(i as int).filter(pred),
            decreases old_actions.len() - i,
        {
            let ghost before = kept@.map_values(|a: BattleAction| a@);
            proof {
                reveal_with_fuel(Seq::filter, 1);
                assert(q.take(i + 1).drop_last() =~= q.take(i as int));
                assert(q.take(i + 1).last() == q[i as int]);
                assert(q[i as int] == old_actions@[i as int]@);
            }
            let a = &old_actions[i];
            if a.character_index != character_index {
                kept.push(a.copy_action());
                assert(pred(q[i as int]));
                assert(kept@.map_values(|a: BattleAction| a@) =~= before.push(q[i as int]));
            } else {
                assert(!pred(q[i as int]));
            }
            i = i + 1;
        }
        assert(q.take(q.len() as int) =~= q);
        self.actions = kept;
    }

    /// Takes the earliest action off the queue.
    pub fn pop(&mut self) -> (r: BattleAction)
        requires
            old(self)@.len() > 0,
        ensures
            r@ == old(self)@[0],
            final(self)@ == old(self)@.drop_first(),
            sorted_by_time(final(self)@),
            forall|i: int| 0 <= i < old(self)@.len() ==> r@.0 <= #[trigger] old(self)@[i].0,
    {
        proof {
            use_type_invariant(&*self);
        }
        let ghost q = self@;
        let mut actions = Vec::new();
        std::mem::swap(&mut actions, &mut self.actions);
        let r = actions.remove(0);
        assert(actions@.map_values(|a: BattleAction| a@) =~= q.drop_first());
        self.actions = actions;
        r
    }
}

} // verus!

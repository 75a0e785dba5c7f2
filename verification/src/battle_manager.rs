//! The battle screen's controller: one line of character interfaces for the
//! enemies and one for the friends, which of them are highlighted and focused,
//! and the bar animations that must end before the battle goes on.
use vstd::prelude::*;

use crate::character::{CharacterAlignment, SkilledCharacter};
use crate::event::{entity_names_view, events_view, BattleEvent, Event, EventV};
use crate::game_logic::{alignment_of, name_of};
use crate::names::{str_equal, EntityName};

verus! {

/// One line of character interfaces: their names, whether each is highlighted,
/// and which one has the focus.
pub struct GuiLine {
    pub names: Vec<EntityName>,
    pub highlighted: Vec<bool>,
    pub focus: Option<usize>,
}

/// A line holds one highlight flag per interface and focuses one of them, if any.
pub open spec fn line_ok(l: GuiLine) -> bool {
    &&& l.highlighted@.len() == l.names@.len()
    &&& l.focus matches Some(f) ==> f < l.names@.len()
}

/// The names of the first `n` characters on side `a`, in order.
pub open spec fn side_names(cs: Seq<SkilledCharacter>, a: CharacterAlignment, n: int) -> Seq<
    Seq<char>,
>
    decreases n,
{
    if n <= 0 {
        seq![]
    } else {
        side_names(cs, a, n - 1) + if alignment_of(cs[n - 1]) == a {
            seq![name_of(cs[n - 1])]
        } else {
            seq![]
        }
    }
}

/// `k` is the first interface of `names` whose name is among `ts`.
pub open spec fn first_target(names: Seq<EntityName>, ts: Seq<Seq<char>>, k: int) -> bool {
    &&& 0 <= k < names.len()
    &&& ts.contains(names[k]@)
    &&& forall|j: int| 0 <= j < k ==> !ts.contains(#[trigger] names[j]@)
}

/// Some interface of `names` is named among `ts`.
pub open spec fn has_target(names: Seq<EntityName>, ts: Seq<Seq<char>>) -> bool {
    exists|k: int| 0 <= k < names.len() && ts.contains(#[trigger] names[k]@)
}

/// The focus of a line after its interface `k` became the first target: it stays
/// where it is if that interface is a target too, and moves to `k` otherwise.
pub open spec fn refocused(l: GuiLine, ts: Seq<Seq<char>>, k: int) -> Option<usize> {
    if l.focus matches Some(f) && ts.contains(l.names@[f as int]@) {
        l.focus
    } else {
        Some(k as usize)
    }
}

/// After highlighting, line `l` keeps its names and highlights exactly the targets.
pub open spec fn highlighted_as(old_line: GuiLine, new_line: GuiLine, ts: Seq<Seq<char>>) -> bool {
    &&& entity_names_view(new_line.names@) == entity_names_view(old_line.names@)
    &&& new_line.highlighted@.len() == old_line.names@.len()
    &&& forall|k: int|
        0 <= k < old_line.names@.len() ==> #[trigger] new_line.highlighted@[k] == ts.contains(
            old_line.names@[k]@,
        )
}

/// Whether `events` tell that the animation `n` ended.
pub open spec fn ended_in(events: Seq<EventV>, n: Seq<char>) -> bool {
    exists|i: int| 0 <= i < events.len() && events[i] == EventV::AnimationEnded(n)
}

/// The controller of the battle screen.
pub struct BattleManager {
    /// The enemies' interfaces (line 0).
    pub enemies: GuiLine,
    /// The friends' interfaces (line 1).
    pub friends: GuiLine,
    /// The line that has the focus.
    pub focused_line: Option<usize>,
    /// The bar animations that have started and not ended yet.
    pub pending_animations: Vec<EntityName>,
}

/// The names of the characters of `cs` on side `a`, in order.
fn side_line(cs: &Vec<SkilledCharacter>, a: CharacterAlignment) -> (r: GuiLine)
    ensures
        entity_names_view(r.names@) == side_names(cs@, a, cs@.len() as int),
        line_ok(r),
        forall|k: int| 0 <= k < r.highlighted@.len() ==> !#[trigger] r.highlighted@[k],
        r.focus is None,
{
    let mut names: Vec<EntityName> = Vec::new();
    let mut highlighted: Vec<bool> = Vec::new();
    let mut i: usize = 0;
    while i < cs.len()
        invariant
            i <= cs@.len(),
            entity_names_view(names@) == side_names(cs@, a, i as int),
            highlighted@.len() == names@.len(),
            forall|k: int| 0 <= k < highlighted@.len() ==> !#[trigger] highlighted@[k],
        decreases cs@.len() - i,
    {
        let ghost before = entity_names_view(names@);
        if *cs[i].character().alignment() == a {
            names.push(EntityName::from_str(cs[i].character().name()));
            highlighted.push(false);
            assert(entity_names_view(names@) =~= before.push(name_of(cs@[i as int])));
        }
        assert(entity_names_view(names@) =~= side_names(cs@, a, i + 1));
        i = i + 1;
    }
    GuiLine { names, highlighted, focus: None }
}

/// Whether some name of `ts` is `n`.
fn among(ts: &Vec<EntityName>, n: &EntityName) -> (r: bool)
    ensures
        r == entity_names_view(ts@).contains(n@),
{
    let mut i: usize = 0;
    while i < ts.len()
        invariant
            i <= ts@.len(),
            forall|j: int| 0 <= j < i ==> ts@[j]@ != n@,
        decreases ts@.len() - i,
    {
        if str_equal(ts[i].as_str(), n.as_str()) {
            assert(entity_names_view(ts@)[i as int] == n@);
            return true;
        }
        i = i + 1;
    }
    assert forall|j: int| 0 <= j < entity_names_view(ts@).len() implies entity_names_view(ts@)[j]
        != n@ by {
        assert(entity_names_view(ts@)[j] == ts@[j]@);
    }
    false
}

/// Highlights exactly the targets of one line and returns the first of them.
fn highlight_line(line: &mut GuiLine, ts: &Vec<EntityName>) -> (r: Option<usize>)
    requires
        line_ok(*old(line)),
    ensures
        line_ok(*final(line)),
        highlighted_as(*old(line), *final(line), entity_names_view(ts@)),
        final(line).focus == old(line).focus,
        final(line).names@ == old(line).names@,
        match r {
            Some(k) => first_target(old(line).names@, entity_names_view(ts@), k as int),
            None => !has_target(old(line).names@, entity_names_view(ts@)),
        },
{
    let ghost tv = entity_names_view(ts@);
    let ghost names0 = line.names@;
    let mut first: Option<usize> = None;
    let mut k: usize = 0;
    while k < line.names.len()
        invariant
            line.names@ == names0,
            line_ok(*line),
            line.focus == old(line).focus,
            names0 == old(line).names@,
            tv == entity_names_view(ts@),
            k <= names0.len(),
            forall|j: int| 0 <= j < k ==> #[trigger] line.highlighted@[j] == tv.contains(names0[j]@),
            match first {
                Some(c) => first_target(names0, tv, c as int) && c < k,
                None => forall|j: int| 0 <= j < k ==> !tv.contains(#[trigger] names0[j]@),
            },
        decreases names0.len() - k,
    {
        let hit = among(ts, &line.names[k]);
        line.highlighted.set(k, hit);
        if hit && first.is_none() {
            first = Some(k);
        }
        k = k + 1;
    }
    assert(entity_names_view(line.names@) =~= entity_names_view(old(line).names@));
    first
}


/// `k` is the first interface of `names` called `n`.
pub open spec fn first_called(names: Seq<EntityName>, n: Seq<char>, k: int) -> bool {
    &&& 0 <= k < names.len()
    &&& names[k]@ == n
    &&& forall|j: int| 0 <= j < k ==> (#[trigger] names[j])@ != n
}

/// Some interface of `names` is called `n`.
pub open spec fn has_called(names: Seq<EntityName>, n: Seq<char>) -> bool {
    exists|k: int| 0 <= k < names.len() && (#[trigger] names[k])@ == n
}

/// The focus after interface `k` left the line: gone with it, moved down by one
/// behind it, kept in front of it.
pub open spec fn focus_after_removal(focus: Option<usize>, k: int) -> Option<usize> {
    match focus {
        Some(f) => if f == k {
            None
        } else if f > k {
            Some((f - 1) as usize)
        } else {
            Some(f)
        },
        None => None,
    }
}

/// `new_line` is `old_line` without its interface `k`.
pub open spec fn removed_from(old_line: GuiLine, new_line: GuiLine, k: int) -> bool {
    &&& new_line.names@ == old_line.names@.remove(k)
    &&& new_line.highlighted@ == old_line.highlighted@.remove(k)
    &&& new_line.focus == focus_after_removal(old_line.focus, k)
}

/// Removes the first interface called `n` from a line; returns whether there was one.
fn remove_called(line: &mut GuiLine, n: &EntityName) -> (r: bool)
    requires
        line_ok(*old(line)),
    ensures
        line_ok(*final(line)),
        r == has_called(old(line).names@, n@),
        !r ==> *final(line) == *old(line),
        forall|k: int| #[trigger] first_called(old(line).names@, n@, k) ==> removed_from(*old(line), *final(line), k),
{
    let mut k: usize = 0;
    while k < line.names.len()
        invariant
            k <= line.names@.len(),
            forall|j: int| 0 <= j < k ==> (#[trigger] line.names@[j])@ != n@,
            *line == *old(line),
            line_ok(*line),
        decreases line.names@.len() - k,
    {
        if str_equal(line.names[k].as_str(), n.as_str()) {
            let ghost l0 = *line;
            line.names.remove(k);
            line.highlighted.remove(k);
            line.focus = match line.focus {
                Some(f) => if f == k {
                    None
                } else if f > k {
                    Some(f - 1)
                } else {
                    Some(f)
                },
                None => None,
            };
            proof {
                assert forall|j: int| #[trigger] first_called(l0.names@, n@, j) implies j == k by {
                    if j < k {
                        assert(l0.names@[j]@ != n@);
                    } else if j > k {
                        assert(l0.names@[k as int]@ == n@);
                    }
                }
            }
            return true;
        }
        k = k + 1;
    }
    false
}

impl BattleManager {
    /// The controller of a battle among `cs`: the enemies' interfaces in one line
    /// and the friends' in another, in the order of `cs`, none highlighted, no
    /// focus, no animation pending.
    pub fn new(cs: &Vec<SkilledCharacter>) -> (r: BattleManager)
        ensures
            entity_names_view(r.enemies.names@) == side_names(
                cs@,
                CharacterAlignment::Enemy,
                cs@.len() as int,
            ),
            entity_names_view(r.friends.names@) == side_names(
                cs@,
                CharacterAlignment::Friendly,
                cs@.len() as int,
            ),
            line_ok(r.enemies),
            line_ok(r.friends),
            forall|k: int| 0 <= k < r.enemies.highlighted@.len() ==> !#[trigger] r.enemies.highlighted@[k],
            forall|k: int| 0 <= k < r.friends.highlighted@.len() ==> !#[trigger] r.friends.highlighted@[k],
            r.enemies.focus is None,
            r.friends.focus is None,
            r.focused_line is None,
            r.pending_animations@.len() == 0,
    {
        BattleManager {
            enemies: side_line(cs, CharacterAlignment::Enemy),
            friends: side_line(cs, CharacterAlignment::Friendly),
            focused_line: None,
            pending_animations: Vec::new(),
        }
    }

    /// Highlights exactly the interfaces named in `targets`. The line of the first
    /// target (enemies before friends) takes the focus, and within it the focus
    /// moves to that target unless the focused interface is a target too.
    pub fn highlight(&mut self, targets: &Vec<EntityName>)
        requires
            line_ok(old(self).enemies),
            line_ok(old(self).friends),
        ensures
            ({
                let ts = entity_names_view(targets@);
                let (oe, of) = (old(self).enemies, old(self).friends);
                let (ne, nf) = (final(self).enemies, final(self).friends);
                &&& line_ok(ne) && line_ok(nf)
                &&& ne.names@ == oe.names@ && nf.names@ == of.names@
                &&& highlighted_as(oe, ne, ts) && highlighted_as(of, nf, ts)
                &&& final(self).pending_animations@ == old(self).pending_animations@
                &&& forall|k: int|
                    #[trigger] first_target(oe.names@, ts, k) ==> final(self).focused_line == Some(
                        0usize,
                    ) && ne.focus == refocused(oe, ts, k) && nf.focus == of.focus
                &&& forall|k: int|
                    !has_target(oe.names@, ts) && #[trigger] first_target(of.names@, ts, k)
                        ==> final(self).focused_line == Some(1usize) && nf.focus == refocused(
                        of,
                        ts,
                        k,
                    ) && ne.focus == oe.focus
                &&& !has_target(oe.names@, ts) && !has_target(of.names@, ts)
                    ==> final(self).focused_line == old(self).focused_line && ne.focus == oe.focus
                    && nf.focus == of.focus
            }),
    {
        let ghost ts = entity_names_view(targets@);
        let ghost oe = self.enemies;
        let ghost of = self.friends;
        let fe = highlight_line(&mut self.enemies, targets);
        let ff = highlight_line(&mut self.friends, targets);
        let hit = match fe {
            Some(k) => Some((0usize, k)),
            None => match ff {
                Some(k) => Some((1usize, k)),
                None => None,
            },
        };
        match hit {
            Some((l, k)) => {
                self.focused_line = Some(l);
                if l == 0 {
                    let keep = match self.enemies.focus {
                        Some(f) => among(targets, &self.enemies.names[f]),
                        None => false,
                    };
                    if !keep {
                        self.enemies.focus = Some(k);
                    }
                    proof {
                        assert forall|j: int| #[trigger] first_target(oe.names@, ts, j) implies j == k by {
                            if j < k {
                                assert(!ts.contains(oe.names@[j]@));
                            } else if j > k {
                                assert(!ts.contains(oe.names@[k as int]@));
                            }
                        }
                    }
                } else {
                    let keep = match self.friends.focus {
                        Some(f) => among(targets, &self.friends.names[f]),
                        None => false,
                    };
                    if !keep {
                        self.friends.focus = Some(k);
                    }
                    proof {
                        assert forall|j: int| #[trigger] first_target(of.names@, ts, j) implies j == k by {
                            if j < k {
                                assert(!ts.contains(of.names@[j]@));
                            } else if j > k {
                                assert(!ts.contains(of.names@[k as int]@));
                            }
                        }
                    }
                }
            },
            None => {},
        }
    }

    /// A character died: its interface leaves the enemies' line, or else the
    /// friends' line, where the first one of that name stands.
    pub fn character_died(&mut self, name: &EntityName)
        requires
            line_ok(old(self).enemies),
            line_ok(old(self).friends),
        ensures
            line_ok(final(self).enemies),
            line_ok(final(self).friends),
            final(self).focused_line == old(self).focused_line,
            final(self).pending_animations@ == old(self).pending_animations@,
            forall|k: int|
                #[trigger] first_called(old(self).enemies.names@, name@, k) ==> removed_from(
                    old(self).enemies,
                    final(self).enemies,
                    k,
                ) && final(self).friends == old(self).friends,
            forall|k: int|
                !has_called(old(self).enemies.names@, name@) && #[trigger] first_called(
                    old(self).friends.names@,
                    name@,
                    k,
                ) ==> removed_from(old(self).friends, final(self).friends, k) && final(self).enemies
                    == old(self).enemies,
            !has_called(old(self).enemies.names@, name@) && !has_called(
                old(self).friends.names@,
                name@,
            ) ==> final(self).enemies == old(self).enemies && final(self).friends == old(self).friends,
    {
        if !remove_called(&mut self.enemies, name) {
            remove_called(&mut self.friends, name);
        }
    }

    /// Adds the bar animations that an action started. When none is pending, the
    /// consequences of the action are due at once.
    pub fn animate(&mut self, started: Vec<EntityName>) -> (r: Vec<Event>)
        ensures
            final(self).pending_animations@ == old(self).pending_animations@ + started@,
            final(self).enemies == old(self).enemies,
            final(self).friends == old(self).friends,
            final(self).focused_line == old(self).focused_line,
            events_view(r@) == if final(self).pending_animations@.len() == 0 {
                seq![EventV::Battle(BattleEvent::ActionConsequences)]
            } else {
                seq![]
            },
    {
        let mut started = started;
        self.pending_animations.append(&mut started);
        let mut r: Vec<Event> = Vec::new();
        if self.pending_animations.len() == 0 {
            r.push(Event::BattleEvent(BattleEvent::ActionConsequences));
        }
        assert(events_view(r@) =~= if self.pending_animations@.len() == 0 {
            seq![EventV::Battle(BattleEvent::ActionConsequences)]
        } else {
            seq![]
        });
        r
    }

    /// Takes the events of one update of the interfaces. While animations are
    /// pending, those that the events say ended are dropped; when the last one
    /// ends, the consequences of the action are due and follow the events.
    pub fn after_update(&mut self, events: Vec<Event>) -> (r: Vec<Event>)
        ensures
            final(self).enemies == old(self).enemies,
            final(self).friends == old(self).friends,
            final(self).focused_line == old(self).focused_line,
            old(self).pending_animations@.len() == 0 ==> final(self).pending_animations@
                == old(self).pending_animations@ && r@ == events@,
            old(self).pending_animations@.len() > 0 ==> {
                let left = entity_names_view(old(self).pending_animations@).filter(
                    |n: Seq<char>| !ended_in(events_view(events@), n),
                );
                &&& entity_names_view(final(self).pending_animations@) == left
                &&& events_view(r@) == events_view(events@) + if left.len() == 0 {
                    seq![EventV::Battle(BattleEvent::ActionConsequences)]
                } else {
                    seq![]
                }
            },
    {
        if self.pending_animations.len() == 0 {
            return events;
        }
        let ghost evs = events_view(events@);
        let ghost pred = |n: Seq<char>| !ended_in(evs, n);
        let ghost all = entity_names_view(self.pending_animations@);
        let mut rest: Vec<EntityName> = Vec::new();
        std::mem::swap(&mut rest, &mut self.pending_animations);
        let ghost orig = rest@;
        let ghost mut i: int = 0;
        while rest.len() > 0
            invariant
                pred == (|n: Seq<char>| !ended_in(evs, n)),
                evs == events_view(events@),
                self.enemies == old(self).enemies,
                self.friends == old(self).friends,
                self.focused_line == old(self).focused_line,
                all == entity_names_view(orig),
                0 <= i <= orig.len(),
                rest@ == orig.skip(i),
                entity_names_view(self.pending_animations@) == all.take(i).filter(pred),
            decreases rest@.len(),
        {
            let n = rest.remove(0);
            proof {
                assert(all.take(i + 1) =~= all.take(i).push(all[i]));
                all.take(i).lemma_filter_push(all[i], pred);
                assert(orig.skip(i + 1) =~= orig.skip(i).drop_first());
                assert(all[i] == n@);
            }
            let gone = ended(&events, &n);
            let ghost before = entity_names_view(self.pending_animations@);
            if !gone {
                self.pending_animations.push(n);
                assert(entity_names_view(self.pending_animations@) =~= before.push(all[i]));
            }
            proof {
                i = i + 1;
            }
        }
        assert(all.take(all.len() as int) =~= all);
        let mut r = events;
        let ghost r0 = events_view(r@);
        if self.pending_animations.len() == 0 {
            r.push(Event::BattleEvent(BattleEvent::ActionConsequences));
            assert(events_view(r@) =~= r0.push(EventV::Battle(BattleEvent::ActionConsequences)));
        }
        assert(events_view(r@) =~= evs + if self.pending_animations@.len() == 0 {
            seq![EventV::Battle(BattleEvent::ActionConsequences)]
        } else {
            seq![]
        });
        r
    }
}

/// Whether `events` tell that the animation `n` ended.
fn ended(events: &Vec<Event>, n: &EntityName) -> (r: bool)
    ensures
        r == ended_in(events_view(events@), n@),
{
    let ghost evs = events_view(events@);
    let mut i: usize = 0;
    while i < events.len()
        invariant
            i <= events@.len(),
            evs == events_view(events@),
            forall|j: int| 0 <= j < i ==> evs[j] != EventV::AnimationEnded(n@),
        decreases events@.len() - i,
    {
        match &events[i] {
            Event::AnimationEnded(e) => {
                if str_equal(e.as_str(), n.as_str()) {
                    assert(evs[i as int] == EventV::AnimationEnded(n@));
                    return true;
                }
            },
            _ => {},
        }
        assert(evs[i as int] == events@[i as int]@);
        i = i + 1;
    }
    false
}

} // verus!

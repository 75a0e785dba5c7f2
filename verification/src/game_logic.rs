//! The rules of the game: how the game state answers each event.
//!
//! A battle runs in rounds. Enemies plan their actions on their own; the player
//! picks a character, one of its skills and a target. Planned actions wait in a
//! queue ordered by time and are carried out one by one; after each one the dead
//! leave the battle and everyone without a plan gets to plan again.
use vstd::prelude::*;

use crate::battle_action::{
    insert_sorted, without_character, acted_out, ActionView, BattleAction, BattleActionManager,
};
use crate::character::{
    action_time, find_first_friendly, first_friendly, in_target_group, is_in_target_group,
    ki_can_plan, ki_plan, skill_name, skill_target_groups, Character, CharacterAlignment,
    KIBehavior, Skill, SkilledCharacter, TargetGroup,
};
use crate::event::{
    entity_names_view, events_view, skill_names_view, BattleEvent, EntityEvent, EntityEventV,
    Event, EventV, KeyCode, UiRequest, UiRequestV, Visibility,
};
use crate::game_state::{
    matches_roster_entry, opening_roster, BattleState, BattleView, GameState, UIState,
};
use crate::names::{str_equal, EntityName, SceneName, SkillName};
use crate::scenes::State;

verus! {

broadcast use vstd::seq_lib::group_seq_properties;

pub const BATTLE_MANAGER: &'static str = "Battle Manager";

pub const BATTLE_SCENE: &'static str = "BattleScene";

/// The scene of the main menu.
pub const MAIN_MENU_SCENE: &'static str = "MainMenuScene";

/// The window the game is drawn in.
pub const MAIN_WINDOW: &'static str = "MainWindow";

pub const BATTLE_DETAIL_OVERLAY_SCENE: &'static str = "BattleDetailOverlayScene";

pub const BATTLE_DETAIL_OVERLAY: &'static str = "BattleDetailOverlay";

pub const BATTLE_ACTION_SELECTION_OVERLAY_SCENE: &'static str = "BattleActionSelectionOverlayScene";

pub const END_GAME_BUTTON: &'static str = "EndGameButton";

pub const START_GAME_BUTTON: &'static str = "StartGameButton";

/// The line of skill buttons shown while a skill is chosen.
pub const ACTION_SELECTION_LINE: &'static str = "ActionSelectionLine";

/// The line that shows the details of one character.
pub const CHARACTER_DETAIL_LINE: &'static str = "CharacterDetailLine";

// ---------------------------------------------------------------------------
// Plain-value descriptions of the rules
// ---------------------------------------------------------------------------

pub open spec fn name_of(s: SkilledCharacter) -> Seq<char> {
    s.spec_character().spec_name()@
}

pub open spec fn alignment_of(s: SkilledCharacter) -> CharacterAlignment {
    s.spec_character().spec_alignment()
}

/// Whether some planned action is performed by the character at index `i`.
pub open spec fn has_actor(q: Seq<ActionView>, i: int) -> bool {
    exists|j: int| 0 <= j < q.len() && q[j].1 == i
}

/// The smallest index below `n` that satisfies `p`.
pub open spec fn first_index(p: spec_fn(int) -> bool, n: int) -> Option<int>
    decreases n,
{
    if n <= 0 {
        None
    } else {
        match first_index(p, n - 1) {
            Some(i) => Some(i),
            None => if p(n - 1) {
                Some(n - 1)
            } else {
                None
            },
        }
    }
}

/// The index of the first character called `name`.
pub open spec fn position_named(cs: Seq<SkilledCharacter>, name: Seq<char>) -> Option<int> {
    first_index(|i: int| name_of(cs[i]) == name, cs.len() as int)
}

/// The index of the first skill called `name`.
pub open spec fn skill_named(skills: Seq<Skill>, name: Seq<char>) -> Option<int> {
    first_index(|i: int| skill_name(skills[i]) == name, skills.len() as int)
}

/// The names of the first `n` characters that have nothing planned, in order.
pub open spec fn free_names(cs: Seq<SkilledCharacter>, q: Seq<ActionView>, n: int) -> Seq<Seq<char>>
    decreases n,
{
    if n <= 0 {
        seq![]
    } else {
        free_names(cs, q, n - 1) + if !has_actor(q, n - 1) {
            seq![name_of(cs[n - 1])]
        } else {
            seq![]
        }
    }
}

/// The names of the first `n` friendly characters that have nothing planned.
pub open spec fn free_friendly_names(cs: Seq<SkilledCharacter>, q: Seq<ActionView>, n: int) -> Seq<
    Seq<char>,
>
    decreases n,
{
    if n <= 0 {
        seq![]
    } else {
        free_friendly_names(cs, q, n - 1) + if !has_actor(q, n - 1) && alignment_of(cs[n - 1])
            == CharacterAlignment::Friendly {
            seq![name_of(cs[n - 1])]
        } else {
            seq![]
        }
    }
}

/// The combatants other than the one at index `i`, in order.
pub open spec fn others_of(cs: Seq<SkilledCharacter>, i: int) -> Seq<Character> {
    cs.remove(i).map_values(|s: SkilledCharacter| s.spec_character())
}

/// The queue after the enemies among the first `n` characters have planned;
/// `free` says which of them may plan at all.
pub open spec fn enemy_plans(
    cs: Seq<SkilledCharacter>,
    free: spec_fn(int) -> bool,
    q: Seq<ActionView>,
    t: u64,
    n: int,
) -> Seq<ActionView>
    decreases n,
{
    if n <= 0 {
        q
    } else {
        let q1 = enemy_plans(cs, free, q, t, n - 1);
        if alignment_of(cs[n - 1]) == CharacterAlignment::Enemy && free(n - 1) {
            ki_plan(cs[n - 1], (n - 1) as usize, others_of(cs, n - 1), t, q1)
        } else {
            q1
        }
    }
}

/// Whether every enemy that may plan is able to.
pub open spec fn enemies_can_plan(cs: Seq<SkilledCharacter>, free: spec_fn(int) -> bool, t: u64) -> bool {
    forall|i: int|
        0 <= i < cs.len() && alignment_of(cs[i]) == CharacterAlignment::Enemy && free(i)
            ==> ki_can_plan(#[trigger] cs[i], others_of(cs, i), t)
}

pub open spec fn everyone(i: int) -> bool {
    true
}

pub open spec fn without_plan(q: Seq<ActionView>) -> spec_fn(int) -> bool {
    |i: int| !has_actor(q, i)
}

/// Whether `a` names existing characters and an existing skill of its actor.
pub open spec fn valid_action(cs: Seq<SkilledCharacter>, a: ActionView) -> bool {
    &&& a.1 < cs.len()
    &&& a.3 < cs.len()
    &&& a.2 < cs[a.1 as int].spec_skills().len()
}

/// The first `n` characters that act in or are hit by `a`.
pub open spec fn involved(cs: Seq<SkilledCharacter>, a: ActionView, n: int) -> Seq<Character>
    decreases n,
{
    if n <= 0 {
        seq![]
    } else {
        involved(cs, a, n - 1) + if n - 1 == a.1 || n - 1 == a.3 {
            seq![cs[n - 1].spec_character()]
        } else {
            seq![]
        }
    }
}

pub open spec fn is_alive(s: SkilledCharacter) -> bool {
    s.spec_character().spec_health() != 0
}

/// The indices of the dead among the first `n` characters.
pub open spec fn dead_indices(cs: Seq<SkilledCharacter>, n: int) -> Seq<usize>
    decreases n,
{
    if n <= 0 {
        seq![]
    } else {
        dead_indices(cs, n - 1) + if !is_alive(cs[n - 1]) {
            seq![(n - 1) as usize]
        } else {
            seq![]
        }
    }
}

/// The queue after the actions of each character in `ds` were dropped.
pub open spec fn without_all(q: Seq<ActionView>, ds: Seq<usize>) -> Seq<ActionView>
    decreases ds.len(),
{
    if ds.len() == 0 {
        q
    } else {
        without_character(without_all(q, ds.drop_last()), ds.last())
    }
}

/// The living characters, in order.
pub open spec fn survivors(cs: Seq<SkilledCharacter>) -> Seq<SkilledCharacter> {
    cs.filter(|s: SkilledCharacter| is_alive(s))
}

pub open spec fn highlight(names: Seq<Seq<char>>) -> EventV {
    EventV::Entity(BATTLE_MANAGER@, EntityEventV::Highlight(names))
}

/// The names of the first `n` characters in `group` as seen from `source`.
pub open spec fn group_members(
    cs: Seq<SkilledCharacter>,
    source: Character,
    group: TargetGroup,
    n: int,
) -> Seq<Seq<char>>
    decreases n,
{
    if n <= 0 {
        seq![]
    } else {
        group_members(cs, source, group, n - 1) + if in_target_group(
            group,
            source,
            cs[n - 1].spec_character(),
        ) {
            seq![name_of(cs[n - 1])]
        } else {
            seq![]
        }
    }
}

/// The names of the valid targets for the first `k` target groups: group by group,
/// each group's members in order.
pub open spec fn skill_targets(
    cs: Seq<SkilledCharacter>,
    source: Character,
    groups: Seq<TargetGroup>,
    k: int,
) -> Seq<Seq<char>>
    decreases k,
{
    if k <= 0 {
        seq![]
    } else {
        skill_targets(cs, source, groups, k - 1) + group_members(
            cs,
            source,
            groups[k - 1],
            cs.len() as int,
        )
    }
}

/// Whether `target` belongs to one of the groups.
pub open spec fn valid_target(groups: Seq<TargetGroup>, source: Character, target: Character) -> bool {
    exists|g: int| 0 <= g < groups.len() && in_target_group(groups[g], source, target)
}

/// The keys bound to each command.
pub struct KeyBindingsView {
    pub accept: Seq<KeyCode>,
    pub cancel: Seq<KeyCode>,
    pub check: Seq<KeyCode>,
}

/// The outcome of one event in a battle.
pub struct BattleOutcome {
    pub characters: Seq<SkilledCharacter>,
    pub current_time: u64,
    pub actions: Seq<ActionView>,
    pub ui: UIState,
    pub events: Seq<EventV>,
}

pub open spec fn unchanged(b: BattleView, ui: UIState, events: Seq<EventV>) -> BattleOutcome {
    BattleOutcome {
        characters: b.characters,
        current_time: b.current_time,
        actions: b.actions,
        ui,
        events,
    }
}

pub open spec fn with_ui_actions(
    b: BattleView,
    ui: UIState,
    actions: Seq<ActionView>,
    events: Seq<EventV>,
) -> BattleOutcome {
    BattleOutcome {
        characters: b.characters,
        current_time: b.current_time,
        actions,
        ui,
        events,
    }
}

/// The battle scene was opened: the enemies plan, then the characters that
/// still have nothing planned are highlighted.
pub open spec fn battle_scene_opened(b: BattleView, ui: UIState) -> BattleOutcome {
    let q = enemy_plans(b.characters, |i: int| everyone(i), b.actions, b.current_time, b.characters.len() as int);
    with_ui_actions(b, ui, q, seq![highlight(free_names(b.characters, q, b.characters.len() as int))])
}

/// The earliest planned action is carried out; the battle clock jumps to its time
/// and the characters involved are animated.
pub open spec fn next_action(b: BattleView, ui: UIState) -> BattleOutcome {
    let a = b.actions[0];
    let cs = acted_out(b.characters, a);
    BattleOutcome {
        characters: cs,
        current_time: a.0,
        actions: b.actions.drop_first(),
        ui,
        events: seq![
            EventV::Entity(BATTLE_MANAGER@, EntityEventV::Animate(involved(cs, a, cs.len() as int))),
        ],
    }
}

/// After an action: the dead leave the battle together with their plans, the
/// enemies without a plan plan again, and then either the friendly characters
/// without a plan are highlighted or the next action is due.
pub open spec fn action_consequences(b: BattleView, ui: UIState) -> BattleOutcome {
    let ds = dead_indices(b.characters, b.characters.len() as int);
    let q1 = without_all(b.actions, ds);
    let deaths = ds.map_values(
        |d: usize| EventV::Entity(BATTLE_MANAGER@, EntityEventV::Death(name_of(b.characters[d as int]))),
    );
    let cs = survivors(b.characters);
    let ff = free_friendly_names(cs, q1, cs.len() as int);
    let q2 = enemy_plans(cs, without_plan(q1), q1, b.current_time, cs.len() as int);
    BattleOutcome {
        characters: cs,
        current_time: b.current_time,
        actions: q2,
        ui,
        events: deaths + if ff.len() > 0 {
            seq![highlight(ff)]
        } else {
            seq![EventV::Battle(BattleEvent::NextAction)]
        },
    }
}

/// Whether `cs` holds a character of alignment `a`.
pub open spec fn has_side(cs: Seq<SkilledCharacter>, a: CharacterAlignment) -> bool {
    exists|i: int| 0 <= i < cs.len() && alignment_of(cs[i]) == a
}

/// What a button press does during a battle.
pub open spec fn button_pressed(
    b: BattleView,
    ui: UIState,
    kb: KeyBindingsView,
    button: Seq<char>,
    key: KeyCode,
) -> BattleOutcome {
    let cs = b.characters;
    let q = b.actions;
    let accept = kb.accept.contains(key);
    let cancel = kb.cancel.contains(key);
    let check = kb.check.contains(key);
    let ao = BATTLE_ACTION_SELECTION_OVERLAY_SCENE@;
    let bs = BATTLE_SCENE@;
    let ds = BATTLE_DETAIL_OVERLAY_SCENE@;
    if accept && button == END_GAME_BUTTON@ {
        unchanged(b, ui, seq![EventV::EndGame])
    } else if ui is CharacterSelection && accept && position_named(cs, button) is Some && !has_actor(
        q,
        position_named(cs, button).unwrap(),
    ) {
        let i = position_named(cs, button).unwrap();
        unchanged(
            b,
            UIState::ActionSelection(i as usize),
            seq![
                EventV::SuspendScene(bs),
                EventV::ActivateSuspendedScene(ao),
                EventV::AddEntities(
                    UiRequestV::SkillButtons(
                        cs[i].spec_skills().map_values(|s: Skill| skill_name(s)),
                    ),
                    ao,
                ),
                EventV::SetVisibilityScene(ao, Visibility::Visible),
            ],
        )
    } else if ui is ActionSelection && accept {
        let ci = ui->ActionSelection_0;
        let source = cs[ci as int];
        let si = skill_named(source.spec_skills(), button).unwrap();
        let groups = skill_target_groups(source.spec_skills()[si]);
        unchanged(
            b,
            UIState::TargetSelection(ci, si as usize),
            seq![
                EventV::SuspendScene(ao),
                EventV::ActivateSuspendedScene(bs),
                highlight(
                    skill_targets(cs, source.spec_character(), groups, groups.len() as int),
                ),
            ],
        )
    } else if ui is TargetSelection && accept {
        let ci = ui->TargetSelection_0;
        let si = ui->TargetSelection_1;
        let source = cs[ci as int];
        let ti = position_named(cs, button).unwrap();
        let groups = skill_target_groups(source.spec_skills()[si as int]);
        if !valid_target(groups, source.spec_character(), cs[ti].spec_character()) {
            unchanged(b, ui, seq![])
        } else {
            let a = (
                action_time(b.current_time, source.spec_character().spec_speed()) as u64,
                ci,
                si,
                ti as usize,
            );
            let q2 = insert_sorted(q, a);
            let free = free_names(cs, q2, cs.len() as int);
            with_ui_actions(
                b,
                UIState::CharacterSelection,
                q2,
                seq![
                    EventV::SetVisibilityScene(ao, Visibility::Hidden),
                    EventV::SuspendScene(ao),
                    EventV::DeleteEntity(ACTION_SELECTION_LINE@, ao),
                ] + if free.len() == 0 {
                    seq![EventV::Battle(BattleEvent::NextAction)]
                } else {
                    seq![highlight(free)]
                },
            )
        }
    } else if ui is TargetSelection && cancel {
        unchanged(
            b,
            UIState::ActionSelection(ui->TargetSelection_0),
            seq![
                highlight(seq![]),
                EventV::RenderScene(bs),
                EventV::ActivateSuspendedScene(ao),
                EventV::SuspendScene(bs),
            ],
        )
    } else if ui is ActionSelection && cancel {
        unchanged(
            b,
            UIState::CharacterSelection,
            seq![
                EventV::SuspendScene(ao),
                EventV::SetVisibilityScene(ao, Visibility::Hidden),
                EventV::SetVisibilityScene(bs, Visibility::Visible),
                EventV::ActivateSuspendedScene(bs),
                EventV::DeleteEntity(ACTION_SELECTION_LINE@, ao),
            ],
        )
    } else if cancel && button == BATTLE_DETAIL_OVERLAY@ && ui is CharacterDetail {
        let src = *ui->CharacterDetail_0;
        unchanged(
            b,
            src,
            if src is TargetSelection {
                seq![EventV::SetVisibilityScene(ao, Visibility::Visible)]
            } else {
                seq![]
            } + seq![
                EventV::SuspendScene(ds),
                EventV::SetVisibilityScene(ds, Visibility::Hidden),
                EventV::SetVisibilityScene(bs, Visibility::Visible),
                EventV::ActivateSuspendedScene(bs),
                EventV::DeleteEntity(CHARACTER_DETAIL_LINE@, ds),
            ],
        )
    } else if check && (ui is CharacterSelection || ui is TargetSelection) && position_named(
        cs,
        button,
    ) is Some {
        let i = position_named(cs, button).unwrap();
        unchanged(
            b,
            UIState::CharacterDetail(Box::new(ui)),
            if ui is TargetSelection {
                seq![
                    EventV::SuspendScene(ao),
                    EventV::SetVisibilityScene(ao, Visibility::Hidden),
                ]
            } else {
                seq![]
            } + seq![
                EventV::SuspendScene(bs),
                EventV::SetVisibilityScene(bs, Visibility::Hidden),
                EventV::SetVisibilityScene(ds, Visibility::Visible),
                EventV::ActivateSuspendedScene(ds),
                EventV::AddEntities(UiRequestV::CharacterDetail(cs[i].spec_character()), ds),
            ],
        )
    } else {
        unchanged(b, ui, seq![])
    }
}

/// The inputs on which a button press is handled without failing: a chosen
/// character exists, a chosen skill exists, a chosen target exists, and the
/// planned action's time is representable.
pub open spec fn button_press_ok(
    b: BattleView,
    ui: UIState,
    kb: KeyBindingsView,
    button: Seq<char>,
    key: KeyCode,
) -> bool {
    let cs = b.characters;
    let accept = kb.accept.contains(key);
    if accept && button == END_GAME_BUTTON@ {
        true
    } else if ui is CharacterSelection {
        true
    } else if ui is ActionSelection && accept {
        let ci = ui->ActionSelection_0;
        &&& ci < cs.len()
        &&& skill_named(cs[ci as int].spec_skills(), button) is Some
    } else if ui is TargetSelection && accept {
        let ci = ui->TargetSelection_0;
        let si = ui->TargetSelection_1;
        &&& ci < cs.len()
        &&& si < cs[ci as int].spec_skills().len()
        &&& position_named(cs, button) is Some
        &&& action_time(b.current_time, cs[ci as int].spec_character().spec_speed()) <= u64::MAX
    } else {
        true
    }
}

/// What an event does during a battle.
pub open spec fn battle_outcome(b: BattleView, ui: UIState, kb: KeyBindingsView, e: EventV) -> BattleOutcome {
    match e {
        EventV::NewScene(s) => if s == BATTLE_SCENE@ {
            battle_scene_opened(b, ui)
        } else {
            unchanged(b, ui, seq![])
        },
        EventV::Battle(BattleEvent::NextAction) => next_action(b, ui),
        EventV::Battle(BattleEvent::ActionConsequences) => action_consequences(b, ui),
        EventV::ButtonPressed(button, key) => button_pressed(b, ui, kb, button, key),
        _ => unchanged(b, ui, seq![]),
    }
}

/// The inputs on which a battle event is handled without failing. Opening the
/// battle scene needs every enemy able to plan; the next action needs a planned
/// action that names existing characters and skills; the consequences of an
/// action need both sides to survive it and the free enemies able to plan.
pub open spec fn battle_event_ok(b: BattleView, ui: UIState, kb: KeyBindingsView, e: EventV) -> bool {
    match e {
        EventV::NewScene(s) => s == BATTLE_SCENE@ ==> enemies_can_plan(
            b.characters,
            |i: int| everyone(i),
            b.current_time,
        ),
        EventV::Battle(BattleEvent::NextAction) => b.actions.len() > 0 && valid_action(
            b.characters,
            b.actions[0],
        ),
        EventV::Battle(BattleEvent::ActionConsequences) => {
            let ds = dead_indices(b.characters, b.characters.len() as int);
            let q1 = without_all(b.actions, ds);
            let cs = survivors(b.characters);
            &&& has_side(cs, CharacterAlignment::Friendly)
            &&& has_side(cs, CharacterAlignment::Enemy)
            &&& enemies_can_plan(cs, without_plan(q1), b.current_time)
        },
        EventV::ButtonPressed(button, key) => button_press_ok(b, ui, kb, button, key),
        _ => true,
    }
}

/// What an event does in the main menu: pressing enter or space on the end-game
/// button ends the game; nothing else happens.
pub open spec fn main_menu_outcome(e: EventV) -> Seq<EventV> {
    match e {
        EventV::ButtonPressed(button, key) => if (key == KeyCode::Enter || key == KeyCode::Space)
            && button == END_GAME_BUTTON@ {
            seq![EventV::EndGame]
        } else {
            seq![]
        },
        _ => seq![],
    }
}

/// Starting a new game from the menu is not available: the start button must not be pressed.
pub open spec fn main_menu_event_ok(e: EventV) -> bool {
    match e {
        EventV::ButtonPressed(button, key) => !((key == KeyCode::Enter || key == KeyCode::Space)
            && button == START_GAME_BUTTON@ && button != END_GAME_BUTTON@),
        _ => true,
    }
}

// ---------------------------------------------------------------------------
// Searches
// ---------------------------------------------------------------------------

proof fn lemma_first_index_stable(p: spec_fn(int) -> bool, m: int, n: int)
    requires
        0 <= m <= n,
        first_index(p, m) is Some,
    ensures
        first_index(p, n) == first_index(p, m),
    decreases n - m,
{
    if n > m {
        lemma_first_index_stable(p, m, n - 1);
    }
}

proof fn lemma_first_index_found(p: spec_fn(int) -> bool, i: int, n: int)
    requires
        0 <= i < n,
        first_index(p, i) is None,
        p(i),
    ensures
        first_index(p, n) == Some(i),
{
    lemma_first_index_stable(p, i + 1, n);
}

proof fn lemma_first_index_props(p: spec_fn(int) -> bool, n: int)
    ensures
        first_index(p, n) matches Some(i) ==> 0 <= i < n && p(i),
    decreases n,
{
    if n > 0 {
        lemma_first_index_props(p, n - 1);
    }
}

/// The index of the first character called `name`.
pub fn find_character(cs: &Vec<SkilledCharacter>, name: &str) -> (r: Option<usize>)
    ensures
        r matches Some(i) ==> position_named(cs@, name@) == Some(i as int),
        r is None ==> position_named(cs@, name@) is None,
{
    let ghost p = |i: int| name_of(cs@[i]) == name@;
    let mut i: usize = 0;
    while i < cs.len()
        invariant
            i <= cs.len(),
            p == (|i: int| name_of(cs@[i]) == name@),
            first_index(p, i as int) is None,
        decreases cs.len() - i,
    {
        if str_equal(cs[i].character().name(), name) {
            proof {
                lemma_first_index_found(p, i as int, cs@.len() as int);
            }
            return Some(i);
        }
        i = i + 1;
    }
    None
}

/// The index of the first skill called `name`.
pub fn find_skill(skills: &Vec<Skill>, name: &str) -> (r: Option<usize>)
    ensures
        r matches Some(i) ==> skill_named(skills@, name@) == Some(i as int),
        r is None ==> skill_named(skills@, name@) is None,
{
    let ghost p = |i: int| skill_name(skills@[i]) == name@;
    let mut i: usize = 0;
    while i < skills.len()
        invariant
            i <= skills.len(),
            p == (|i: int| skill_name(skills@[i]) == name@),
            first_index(p, i as int) is None,
        decreases skills.len() - i,
    {
        let n = skills[i].name();
        if str_equal(n.as_str(), name) {
            proof {
                lemma_first_index_found(p, i as int, skills@.len() as int);
            }
            return Some(i);
        }
        i = i + 1;
    }
    None
}

/// The names of all characters that have nothing planned.
fn free_character_names(cs: &Vec<SkilledCharacter>, actions: &BattleActionManager) -> (r: Vec<EntityName>)
    ensures
        entity_names_view(r@) == free_names(cs@, actions@, cs@.len() as int),
{
    let mut r: Vec<EntityName> = Vec::new();
    let mut i: usize = 0;
    while i < cs.len()
        invariant
            i <= cs.len(),
            entity_names_view(r@) == free_names(cs@, actions@, i as int),
        decreases cs.len() - i,
    {
        let ghost before = entity_names_view(r@);
        if !actions.contains_character(i) {
            r.push(EntityName::from_str(cs[i].character().name()));
            assert(entity_names_view(r@) =~= before.push(name_of(cs@[i as int])));
        }
        assert(entity_names_view(r@) =~= free_names(cs@, actions@, i + 1));
        i = i + 1;
    }
    r
}

/// The names of the friendly characters that have nothing planned.
fn free_friendly_character_names(cs: &Vec<SkilledCharacter>, actions: &BattleActionManager) -> (r: Vec<
    EntityName,
>)
    ensures
        entity_names_view(r@) == free_friendly_names(cs@, actions@, cs@.len() as int),
{
    let mut r: Vec<EntityName> = Vec::new();
    let mut i: usize = 0;
    while i < cs.len()
        invariant
            i <= cs.len(),
            entity_names_view(r@) == free_friendly_names(cs@, actions@, i as int),
        decreases cs.len() - i,
    {
        let ghost before = entity_names_view(r@);
        if !actions.contains_character(i) && *cs[i].character().alignment()
            == CharacterAlignment::Friendly {
            r.push(EntityName::from_str(cs[i].character().name()));
            assert(entity_names_view(r@) =~= before.push(name_of(cs@[i as int])));
        }
        assert(entity_names_view(r@) =~= free_friendly_names(cs@, actions@, i + 1));
        i = i + 1;
    }
    r
}

/// The combatants other than the one at index `i`.
fn others(cs: &Vec<SkilledCharacter>, i: usize) -> (r: Vec<Character>)
    requires
        i < cs.len(),
    ensures
        r@ == others_of(cs@, i as int),
{
    let mut r: Vec<Character> = Vec::new();
    let mut j: usize = 0;
    while j < cs.len()
        invariant
            j <= cs.len(),
            i < cs.len(),
            r@.len() == if j <= i {
                j as int
            } else {
                j - 1
            },
            forall|k: int|
                0 <= k < r@.len() ==> #[trigger] r@[k] == others_of(cs@, i as int)[k],
        decreases cs.len() - j,
    {
        if j != i {
            r.push(*cs[j].character());
        }
        j = j + 1;
    }
    assert(r@ =~= others_of(cs@, i as int));
    r
}

/// Lets the enemies plan, each free one in turn.
fn plan_enemies(
    cs: &Vec<SkilledCharacter>,
    free: &Vec<bool>,
    actions: &mut BattleActionManager,
    current_time: u64,
    Ghost(freep): Ghost<spec_fn(int) -> bool>,
)
    requires
        free@.len() == cs@.len(),
        forall|i: int| 0 <= i < cs@.len() ==> free@[i] == freep(i),
        enemies_can_plan(cs@, freep, current_time),
    ensures
        final(actions)@ == enemy_plans(cs@, freep, old(actions)@, current_time, cs@.len() as int),
{
    let ghost q0 = actions@;
    let mut i: usize = 0;
    while i < cs.len()
        invariant
            i <= cs.len(),
            free@.len() == cs@.len(),
            forall|i: int| 0 <= i < cs@.len() ==> free@[i] == freep(i),
            enemies_can_plan(cs@, freep, current_time),
            actions@ == enemy_plans(cs@, freep, q0, current_time, i as int),
        decreases cs.len() - i,
    {
        if *cs[i].character().alignment() == CharacterAlignment::Enemy && free[i] {
            let o = others(cs, i);
            assert(ki_can_plan(cs@[i as int], others_of(cs@, i as int), current_time));
            cs[i].ki(i, &o, actions, current_time);
        }
        i = i + 1;
    }
}

/// Names of the members of `group` as seen from `source`.
fn members_of_group(cs: &Vec<SkilledCharacter>, source: &Character, group: &TargetGroup) -> (r: Vec<
    EntityName,
>)
    ensures
        entity_names_view(r@) == group_members(cs@, *source, *group, cs@.len() as int),
{
    let mut r: Vec<EntityName> = Vec::new();
    let mut i: usize = 0;
    while i < cs.len()
        invariant
            i <= cs.len(),
            entity_names_view(r@) == group_members(cs@, *source, *group, i as int),
        decreases cs.len() - i,
    {
        let ghost before = entity_names_view(r@);
        if is_in_target_group(group, source, cs[i].character()) {
            r.push(EntityName::from_str(cs[i].character().name()));
            assert(entity_names_view(r@) =~= before.push(name_of(cs@[i as int])));
        }
        assert(entity_names_view(r@) =~= group_members(cs@, *source, *group, i + 1));
        i = i + 1;
    }
    r
}

/// The names of all valid targets of a skill, group by group.
fn targets_of_skill(cs: &Vec<SkilledCharacter>, source: &Character, groups: &Vec<TargetGroup>) -> (r:
    Vec<EntityName>)
    ensures
        entity_names_view(r@) == skill_targets(cs@, *source, groups@, groups@.len() as int),
{
    let mut r: Vec<EntityName> = Vec::new();
    let mut k: usize = 0;
    while k < groups.len()
        invariant
            k <= groups.len(),
            entity_names_view(r@) == skill_targets(cs@, *source, groups@, k as int),
        decreases groups.len() - k,
    {
        let mut m = members_of_group(cs, source, &groups[k]);
        let ghost before = entity_names_view(r@);
        let ghost added = entity_names_view(m@);
        r.append(&mut m);
        assert(entity_names_view(r@) =~= before + added);
        k = k + 1;
    }
    r
}

/// Whether `target` belongs to one of the groups.
fn is_valid_target(groups: &Vec<TargetGroup>, source: &Character, target: &Character) -> (r: bool)
    ensures
        r == valid_target(groups@, *source, *target),
{
    let mut k: usize = 0;
    while k < groups.len()
        invariant
            k <= groups.len(),
            forall|g: int| 0 <= g < k ==> !in_target_group(groups@[g], *source, *target),
        decreases groups.len() - k,
    {
        if is_in_target_group(&groups[k], source, target) {
            return true;
        }
        k = k + 1;
    }
    false
}

/// Whether `k` is one of `keys`.
fn key_in(keys: &Vec<KeyCode>, k: KeyCode) -> (r: bool)
    ensures
        r == keys@.contains(k),
{
    let mut i: usize = 0;
    while i < keys.len()
        invariant
            i <= keys.len(),
            forall|j: int| 0 <= j < i ==> keys@[j] != k,
        decreases keys.len() - i,
    {
        if keys[i] == k {
            assert(keys@[i as int] == k);
            return true;
        }
        i = i + 1;
    }
    false
}

// ---------------------------------------------------------------------------
// Key bindings and the game logic
// ---------------------------------------------------------------------------

/// Which keys accept, cancel and check.
pub struct KeyBindings {
    pub accept: Vec<KeyCode>,
    pub cancel: Vec<KeyCode>,
    pub check: Vec<KeyCode>,
}

impl View for KeyBindings {
    type V = KeyBindingsView;

    open spec fn view(&self) -> KeyBindingsView {
        KeyBindingsView { accept: self.accept@, cancel: self.cancel@, check: self.check@ }
    }
}

impl KeyBindings {
    /// Enter and space accept, X cancels, C checks.
    pub fn default_bindings() -> (r: KeyBindings)
        ensures
            r@.accept == seq![KeyCode::Enter, KeyCode::Space],
            r@.cancel == seq![KeyCode::KeyX],
            r@.check == seq![KeyCode::KeyC],
    {
        KeyBindings {
            accept: vec![KeyCode::Enter, KeyCode::Space],
            cancel: vec![KeyCode::KeyX],
            check: vec![KeyCode::KeyC],
        }
    }
}

fn scene(s: &str) -> (r: SceneName)
    ensures
        r@ == s@,
{
    SceneName::from_str(s)
}

fn entity(s: &str) -> (r: EntityName)
    ensures
        r@ == s@,
{
    EntityName::from_str(s)
}

fn highlight_event(names: Vec<EntityName>) -> (r: Event)
    ensures
        r@ == highlight(entity_names_view(names@)),
{
    Event::EntityEvent(entity(BATTLE_MANAGER), EntityEvent::BattleHighlightValidSkillTargets(names))
}

/// The battle scene was opened.
fn open_battle_scene(bs: &mut BattleState, ui: &UIState) -> (r: Vec<Event>)
    requires
        enemies_can_plan(old(bs)@.characters, |i: int| everyone(i), old(bs)@.current_time),
    ensures
        ({
            let o = battle_scene_opened(old(bs)@, *ui);
            &&& final(bs)@.characters == o.characters
            &&& final(bs)@.current_time == o.current_time
            &&& final(bs)@.actions == o.actions
            &&& events_view(r@) == o.events
        }),
{
    let mut free: Vec<bool> = Vec::new();
    let mut i: usize = 0;
    while i < bs.characters.len()
        invariant
            i <= bs.characters.len(),
            free@.len() == i,
            forall|j: int| 0 <= j < i ==> free@[j] == everyone(j),
        decreases bs.characters.len() - i,
    {
        free.push(true);
        i = i + 1;
    }
    plan_enemies(&bs.characters, &free, &mut bs.actions, bs.current_time, Ghost(|i: int| everyone(i)));
    let names = free_character_names(&bs.characters, &bs.actions);
    let e = highlight_event(names);
    let r = vec![e];
    assert(events_view(r@) =~= battle_scene_opened(old(bs)@, *ui).events);
    r
}

/// The characters that act in or are hit by `a`.
fn involved_characters(cs: &Vec<SkilledCharacter>, a: &BattleAction) -> (r: Vec<Character>)
    ensures
        r@ == involved(cs@, a@, cs@.len() as int),
{
    let mut r: Vec<Character> = Vec::new();
    let mut i: usize = 0;
    while i < cs.len()
        invariant
            i <= cs.len(),
            r@ == involved(cs@, a@, i as int),
        decreases cs.len() - i,
    {
        if i == a.character_index() || i == a.target_index() {
            r.push(*cs[i].character());
        }
        assert(r@ =~= involved(cs@, a@, i + 1));
        i = i + 1;
    }
    r
}

/// The earliest action takes place.
fn run_next_action(bs: &mut BattleState, ui: &UIState) -> (r: Vec<Event>)
    requires
        old(bs)@.actions.len() > 0,
        valid_action(old(bs)@.characters, old(bs)@.actions[0]),
    ensures
        ({
            let o = next_action(old(bs)@, *ui);
            &&& final(bs)@.characters == o.characters
            &&& final(bs)@.current_time == o.current_time
            &&& final(bs)@.actions == o.actions
            &&& events_view(r@) == o.events
        }),
{
    let action = bs.actions.pop();
    bs.current_time = action.time();
    action.act_out(&mut bs.characters);
    let characters = involved_characters(&bs.characters, &action);
    let r = vec![
        Event::EntityEvent(entity(BATTLE_MANAGER), EntityEvent::AnimateAction(characters)),
    ];
    assert(events_view(r@) =~= next_action(old(bs)@, *ui).events);
    r
}

/// The indices of the dead.
fn find_dead(cs: &Vec<SkilledCharacter>) -> (r: Vec<usize>)
    ensures
        r@ == dead_indices(cs@, cs@.len() as int),
{
    let mut r: Vec<usize> = Vec::new();
    let mut i: usize = 0;
    while i < cs.len()
        invariant
            i <= cs.len(),
            r@ == dead_indices(cs@, i as int),
        decreases cs.len() - i,
    {
        if cs[i].character().is_dead() {
            r.push(i);
        }
        assert(r@ =~= dead_indices(cs@, i + 1));
        i = i + 1;
    }
    r
}

/// Keeps the living characters.
fn keep_survivors(cs: &mut Vec<SkilledCharacter>)
    ensures
        final(cs)@ == survivors(old(cs)@),
{
    let ghost s = cs@;
    let ghost pred = |c: SkilledCharacter| is_alive(c);
    let mut rest: Vec<SkilledCharacter> = Vec::new();
    std::mem::swap(&mut rest, cs);
    let ghost mut i: int = 0;
    while rest.len() > 0
        invariant
            pred == (|c: SkilledCharacter| is_alive(c)),
            0 <= i <= s.len(),
            rest@ == s.skip(i),
            cs@ == s.take(i).filter(pred),
        decreases rest.len(),
    {
        let c = rest.remove(0);
        proof {
            reveal_with_fuel(Seq::filter, 1);
            assert(s.take(i + 1).drop_last() =~= s.take(i));
            assert(s.take(i + 1).last() == s[i]);
            assert(s.skip(i + 1) =~= s.skip(i).drop_first());
        }
        let ghost before = cs@;
        if !c.character().is_dead() {
            cs.push(c);
            assert(cs@ =~= before.push(s[i]));
        }
        proof {
            i = i + 1;
        }
    }
    assert(s.take(s.len() as int) =~= s);
}

proof fn lemma_dead_indices_bound(cs: Seq<SkilledCharacter>, n: int)
    requires
        n <= usize::MAX,
    ensures
        forall|k: int| 0 <= k < dead_indices(cs, n).len() ==> #[trigger] dead_indices(cs, n)[k] < n,
    decreases n,
{
    if n > 0 {
        lemma_dead_indices_bound(cs, n - 1);
        let d = dead_indices(cs, n);
        let e = dead_indices(cs, n - 1);
        assert forall|k: int| 0 <= k < d.len() implies #[trigger] d[k] < n by {
            if k < e.len() {
                assert(d[k] == e[k]);
            }
        }
    }
}

/// The death notices for the characters at the indices in `dead`.
fn death_events(cs: &Vec<SkilledCharacter>, dead: &Vec<usize>) -> (r: Vec<Event>)
    requires
        forall|k: int| 0 <= k < dead@.len() ==> #[trigger] dead@[k] < cs@.len(),
    ensures
        events_view(r@) == dead@.map_values(
            |d: usize| EventV::Entity(BATTLE_MANAGER@, EntityEventV::Death(name_of(cs@[d as int]))),
        ),
{
    let ghost f = |d: usize| EventV::Entity(BATTLE_MANAGER@, EntityEventV::Death(name_of(cs@[d as int])));
    let mut events: Vec<Event> = Vec::new();
    let mut j: usize = 0;
    while j < dead.len()
        invariant
            j <= dead.len(),
            f == (|d: usize|
                EventV::Entity(BATTLE_MANAGER@, EntityEventV::Death(name_of(cs@[d as int])))),
            forall|k: int| 0 <= k < dead@.len() ==> #[trigger] dead@[k] < cs@.len(),
            events_view(events@) == dead@.take(j as int).map_values(f),
        decreases dead.len() - j,
    {
        let d = dead[j];
        let ghost before = events_view(events@);
        events.push(
            Event::EntityEvent(
                entity(BATTLE_MANAGER),
                EntityEvent::CharacterDeath(EntityName::from_str(cs[d].character().name())),
            ),
        );
        assert(events_view(events@) =~= before.push(f(d)));
        assert(dead@.take(j + 1).map_values(f) =~= dead@.take(j as int).map_values(f).push(f(d)));
        j = j + 1;
    }
    assert(dead@.take(dead@.len() as int) =~= dead@);
    events
}

/// What follows an action.
fn run_action_consequences(bs: &mut BattleState, ui: &UIState) -> (r: Vec<Event>)
    requires
        ({
            let b = old(bs)@;
            let ds = dead_indices(b.characters, b.characters.len() as int);
            let q1 = without_all(b.actions, ds);
            let cs = survivors(b.characters);
            &&& has_side(cs, CharacterAlignment::Friendly)
            &&& has_side(cs, CharacterAlignment::Enemy)
            &&& enemies_can_plan(cs, without_plan(q1), b.current_time)
        }),
    ensures
        ({
            let o = action_consequences(old(bs)@, *ui);
            &&& final(bs)@.characters == o.characters
            &&& final(bs)@.current_time == o.current_time
            &&& final(bs)@.actions == o.actions
            &&& events_view(r@) == o.events
        }),
{
    let ghost b = bs@;
    let dead = find_dead(&bs.characters);
    let n = bs.characters.len();
    proof {
        lemma_dead_indices_bound(b.characters, b.characters.len() as int);
    }
    let mut i: usize = 0;
    while i < dead.len()
        invariant
            i <= dead.len(),
            dead@ == dead_indices(b.characters, b.characters.len() as int),
            bs@.characters == b.characters,
            bs@.current_time == b.current_time,
            bs@.actions == without_all(b.actions, dead@.take(i as int)),
        decreases dead.len() - i,
    {
        bs.actions.remove_character(dead[i]);
        assert(dead@.take(i + 1).drop_last() =~= dead@.take(i as int));
        i = i + 1;
    }
    assert(dead@.take(dead@.len() as int) =~= dead@);
    let ghost q1 = bs@.actions;
    let mut events = death_events(&bs.characters, &dead);
    let ghost deaths = events_view(events@);
    keep_survivors(&mut bs.characters);
    let free_friendly = free_friendly_character_names(&bs.characters, &bs.actions);
    let mut free: Vec<bool> = Vec::new();
    let mut k: usize = 0;
    while k < bs.characters.len()
        invariant
            k <= bs.characters.len(),
            free@.len() == k,
            forall|m: int| 0 <= m < k ==> free@[m] == without_plan(q1)(m),
            bs@.actions == q1,
        decreases bs.characters.len() - k,
    {
        let f = !bs.actions.contains_character(k);
        free.push(f);
        k = k + 1;
    }
    plan_enemies(&bs.characters, &free, &mut bs.actions, bs.current_time, Ghost(without_plan(q1)));
    if free_friendly.len() > 0 {
        events.push(highlight_event(free_friendly));
    } else {
        events.push(Event::BattleEvent(BattleEvent::NextAction));
    }
    assert(events_view(events@) =~= action_consequences(b, *ui).events);
    events
}

/// The names of the skills, in order.
fn skill_names_of(skills: &Vec<Skill>) -> (r: Vec<SkillName>)
    ensures
        skill_names_view(r@) == skills@.map_values(|s: Skill| skill_name(s)),
{
    let mut r: Vec<SkillName> = Vec::new();
    let mut i: usize = 0;
    while i < skills.len()
        invariant
            i <= skills.len(),
            skill_names_view(r@) == skills@.take(i as int).map_values(|s: Skill| skill_name(s)),
        decreases skills.len() - i,
    {
        let ghost before = skill_names_view(r@);
        r.push(skills[i].name());
        assert(skill_names_view(r@) =~= before.push(skill_name(skills@[i as int])));
        assert(skills@.take(i + 1).map_values(|s: Skill| skill_name(s)) =~= skills@.take(
            i as int,
        ).map_values(|s: Skill| skill_name(s)).push(skill_name(skills@[i as int])));
        i = i + 1;
    }
    assert(skills@.take(skills@.len() as int) =~= skills@);
    r
}

/// A button was pressed during a battle.
fn press_button(
    bs: &mut BattleState,
    ui: &mut UIState,
    kb: &KeyBindings,
    button: &EntityName,
    key: KeyCode,
) -> (r: Vec<Event>)
    requires
        button_press_ok(old(bs)@, *old(ui), kb@, button@, key),
    ensures
        ({
            let o = button_pressed(old(bs)@, *old(ui), kb@, button@, key);
            &&& final(bs)@.characters == o.characters
            &&& final(bs)@.current_time == o.current_time
            &&& final(bs)@.actions == o.actions
            &&& *final(ui) == o.ui
            &&& events_view(r@) == o.events
        }),
{
    let ghost b = bs@;
    let ghost u = *ui;
    let ghost o = button_pressed(b, u, kb@, button@, key);
    let accept = key_in(&kb.accept, key);
    let cancel = key_in(&kb.cancel, key);
    let check = key_in(&kb.check, key);
    let name = button.as_str();
    let ao = BATTLE_ACTION_SELECTION_OVERLAY_SCENE;
    let bsc = BATTLE_SCENE;
    let ds = BATTLE_DETAIL_OVERLAY_SCENE;
    if accept && str_equal(name, END_GAME_BUTTON) {
        let r = vec![Event::EndGame];
        assert(events_view(r@) =~= o.events);
        return r;
    }
    let (is_selection, is_action, is_target, is_detail, ci, si) = match &*ui {
        UIState::CharacterSelection => (true, false, false, false, 0usize, 0usize),
        UIState::ActionSelection(c) => (false, true, false, false, *c, 0usize),
        UIState::TargetSelection(c, s) => (false, false, true, false, *c, *s),
        UIState::CharacterDetail(_) => (false, false, false, true, 0usize, 0usize),
    };
    if is_selection && accept {
        match find_character(&bs.characters, name) {
            Some(i) => {
                proof {
                    lemma_first_index_props(
                        |i: int| name_of(bs.characters@[i]) == button@,
                        bs.characters@.len() as int,
                    );
                }
                if !bs.actions.contains_character(i) {
                    let skill_names = skill_names_of(bs.characters[i].get_skills());
                    *ui = UIState::ActionSelection(i);
                    let r = vec![
                        Event::RequestSuspendScene(scene(bsc)),
                        Event::RequestActivateSuspendedScene(scene(ao)),
                        Event::RequestAddEntities(UiRequest::SkillButtons(skill_names), scene(ao)),
                        Event::RequestSetVisibilityScene(scene(ao), Visibility::Visible),
                    ];
                    assert(events_view(r@) =~= o.events);
                    return r;
                }
            },
            None => {},
        }
    }
    if is_action && accept {
        let skills = bs.characters[ci].get_skills();
        let si = match find_skill(skills, name) {
            Some(s) => s,
            None => {
                return Vec::new();
            },
        };
        proof {
            lemma_first_index_props(
                |i: int| skill_name(skills@[i]) == button@,
                skills@.len() as int,
            );
        }
        let groups = skills[si].target_groups();
        let source = *bs.characters[ci].character();
        let targets = targets_of_skill(&bs.characters, &source, &groups);
        *ui = UIState::TargetSelection(ci, si);
        let r = vec![
            Event::RequestSuspendScene(scene(ao)),
            Event::RequestActivateSuspendedScene(scene(bsc)),
            highlight_event(targets),
        ];
        assert(events_view(r@) =~= o.events);
        return r;
    }
    if is_target && accept {
        let ti = match find_character(&bs.characters, name) {
            Some(t) => t,
            None => {
                return Vec::new();
            },
        };
        proof {
            lemma_first_index_props(
                |i: int| name_of(bs.characters@[i]) == button@,
                bs.characters@.len() as int,
            );
        }
        let source = *bs.characters[ci].character();
        let skill = bs.characters[ci].get_skills()[si];
        let groups = skill.target_groups();
        if !is_valid_target(&groups, &source, bs.characters[ti].character()) {
            let r: Vec<Event> = Vec::new();
            assert(events_view(r@) =~= o.events);
            return r;
        }
        let time = skill.get_time(Some(bs.characters[ti].character()), &source, bs.current_time);
        let action = BattleAction::new(time, ci, si, ti);
        bs.actions.queue_action(action);
        let actionless = free_character_names(&bs.characters, &bs.actions);
        *ui = UIState::CharacterSelection;
        let mut r = vec![
            Event::RequestSetVisibilityScene(scene(ao), Visibility::Hidden),
            Event::RequestSuspendScene(scene(ao)),
            Event::RequestDeleteEntity(entity(ACTION_SELECTION_LINE), scene(ao)),
        ];
        if actionless.len() == 0 {
            r.push(Event::BattleEvent(BattleEvent::NextAction));
        } else {
            r.push(highlight_event(actionless));
        }
        assert(events_view(r@) =~= o.events);
        return r;
    }
    if is_target && cancel {
        *ui = UIState::ActionSelection(ci);
        let none: Vec<EntityName> = Vec::new();
        assert(entity_names_view(none@) =~= seq![]);
        let r = vec![
            highlight_event(none),
            Event::RequestRenderScene(scene(bsc)),
            Event::RequestActivateSuspendedScene(scene(ao)),
            Event::RequestSuspendScene(scene(bsc)),
        ];
        assert(events_view(r@) =~= o.events);
        return r;
    }
    if is_action && cancel {
        *ui = UIState::CharacterSelection;
        let r = vec![
            Event::RequestSuspendScene(scene(ao)),
            Event::RequestSetVisibilityScene(scene(ao), Visibility::Hidden),
            Event::RequestSetVisibilityScene(scene(bsc), Visibility::Visible),
            Event::RequestActivateSuspendedScene(scene(bsc)),
            Event::RequestDeleteEntity(entity(ACTION_SELECTION_LINE), scene(ao)),
        ];
        assert(events_view(r@) =~= o.events);
        return r;
    }
    if cancel && str_equal(name, BATTLE_DETAIL_OVERLAY) && is_detail {
        let mut current = UIState::CharacterSelection;
        std::mem::swap(&mut current, ui);
        let mut r: Vec<Event> = Vec::new();
        match current {
            UIState::CharacterDetail(src) => {
                let inner = *src;
                if let UIState::TargetSelection(_, _) = inner {
                    r.push(Event::RequestSetVisibilityScene(scene(ao), Visibility::Visible));
                }
                *ui = inner;
            },
            other => {
                *ui = other;
            },
        }
        r.push(Event::RequestSuspendScene(scene(ds)));
        r.push(Event::RequestSetVisibilityScene(scene(ds), Visibility::Hidden));
        r.push(Event::RequestSetVisibilityScene(scene(bsc), Visibility::Visible));
        r.push(Event::RequestActivateSuspendedScene(scene(bsc)));
        r.push(Event::RequestDeleteEntity(entity(CHARACTER_DETAIL_LINE), scene(ds)));
        assert(events_view(r@) =~= o.events);
        return r;
    }
    if check && (is_selection || is_target) {
        match find_character(&bs.characters, name) {
            Some(i) => {
                proof {
                    lemma_first_index_props(
                        |i: int| name_of(bs.characters@[i]) == button@,
                        bs.characters@.len() as int,
                    );
                }
                let mut r: Vec<Event> = Vec::new();
                if is_target {
                    r.push(Event::RequestSuspendScene(scene(ao)));
                    r.push(Event::RequestSetVisibilityScene(scene(ao), Visibility::Hidden));
                }
                let previous = ui.duplicate();
                *ui = UIState::CharacterDetail(Box::new(previous));
                r.push(Event::RequestSuspendScene(scene(bsc)));
                r.push(Event::RequestSetVisibilityScene(scene(bsc), Visibility::Hidden));
                r.push(Event::RequestSetVisibilityScene(scene(ds), Visibility::Visible));
                r.push(Event::RequestActivateSuspendedScene(scene(ds)));
                r.push(
                    Event::RequestAddEntities(
                        UiRequest::CharacterDetail(*bs.characters[i].character()),
                        scene(ds),
                    ),
                );
                assert(events_view(r@) =~= o.events);
                return r;
            },
            None => {},
        }
    }
    let r: Vec<Event> = Vec::new();
    assert(events_view(r@) =~= o.events);
    r
}

/// An event during a battle.
fn battle_event(bs: &mut BattleState, ui: &mut UIState, kb: &KeyBindings, event: Event) -> (r: Vec<
    Event,
>)
    requires
        battle_event_ok(old(bs)@, *old(ui), kb@, event@),
    ensures
        ({
            let o = battle_outcome(old(bs)@, *old(ui), kb@, event@);
            &&& final(bs)@.characters == o.characters
            &&& final(bs)@.current_time == o.current_time
            &&& final(bs)@.actions == o.actions
            &&& *final(ui) == o.ui
            &&& events_view(r@) == o.events
        }),
{
    match event {
        Event::NewScene(s) => {
            if str_equal(s.as_str(), BATTLE_SCENE) {
                open_battle_scene(bs, ui)
            } else {
                let r: Vec<Event> = Vec::new();
                assert(events_view(r@) =~= seq![]);
                r
            }
        },
        Event::BattleEvent(BattleEvent::NextAction) => run_next_action(bs, ui),
        Event::BattleEvent(BattleEvent::ActionConsequences) => run_action_consequences(bs, ui),
        Event::ButtonPressed(button, key) => press_button(bs, ui, kb, &button, key),
        _ => {
            let r: Vec<Event> = Vec::new();
            assert(events_view(r@) =~= seq![]);
            r
        },
    }
}

/// An event in the main menu.
fn main_menu_event(event: Event) -> (r: Vec<Event>)
    requires
        main_menu_event_ok(event@),
    ensures
        events_view(r@) == main_menu_outcome(event@),
{
    let r: Vec<Event> = match event {
        Event::ButtonPressed(entity_name, key_code) => {
            if key_code == KeyCode::Enter || key_code == KeyCode::Space {
                if str_equal(entity_name.as_str(), END_GAME_BUTTON) {
                    vec![Event::EndGame]
                } else {
                    Vec::new()
                }
            } else {
                Vec::new()
            }
        },
        _ => Vec::new(),
    };
    assert(events_view(r@) =~= main_menu_outcome(event@));
    r
}

/// How a game state and its successor relate after `event`, which answered `events`.
pub open spec fn handled(
    before: GameState,
    after: GameState,
    kb: KeyBindingsView,
    event: EventV,
    events: Seq<EventV>,
) -> bool {
    match before {
        GameState::MainMenu => after is MainMenu && events == main_menu_outcome(event),
        GameState::Battle(b, ui) => {
            let o = battle_outcome(b@, ui, kb, event);
            &&& after matches GameState::Battle(b2, ui2) && {
                &&& b2@.characters == o.characters
                &&& b2@.current_time == o.current_time
                &&& b2@.actions == o.actions
                &&& ui2 == o.ui
            }
            &&& events == o.events
        },
    }
}

/// Whether `event` is handled without failing in `state`.
pub open spec fn event_ok(state: GameState, kb: KeyBindingsView, event: EventV) -> bool {
    match state {
        GameState::MainMenu => main_menu_event_ok(event),
        GameState::Battle(b, ui) => battle_event_ok(b@, ui, kb, event),
    }
}

// ---------------------------------------------------------------------------
// Which events the rules can take
// ---------------------------------------------------------------------------

/// Whether `c` can plan among `others` at time `t`.
fn can_plan(c: &SkilledCharacter, others: &Vec<Character>, t: u64) -> (r: bool)
    ensures
        r == ki_can_plan(*c, others@, t),
{
    match c.get_ki() {
        KIBehavior::Passive(_) => true,
        KIBehavior::Simple(_) => {
            let friend = find_first_friendly(others);
            let fits = t.checked_add(c.character().speed() as u64);
            friend.is_some() && c.get_skills().len() > 0 && fits.is_some()
        },
    }
}

/// Whether every enemy that `free` lets plan is able to plan at time `t`.
fn enemies_ready(
    cs: &Vec<SkilledCharacter>,
    free: &Vec<bool>,
    t: u64,
    Ghost(freep): Ghost<spec_fn(int) -> bool>,
) -> (r: bool)
    requires
        free@.len() == cs@.len(),
        forall|i: int| 0 <= i < cs@.len() ==> free@[i] == freep(i),
    ensures
        r == enemies_can_plan(cs@, freep, t),
{
    let mut i: usize = 0;
    while i < cs.len()
        invariant
            i <= cs@.len(),
            free@.len() == cs@.len(),
            forall|i: int| 0 <= i < cs@.len() ==> free@[i] == freep(i),
            forall|j: int|
                0 <= j < i && alignment_of(cs@[j]) == CharacterAlignment::Enemy && freep(j)
                    ==> ki_can_plan(#[trigger] cs@[j], others_of(cs@, j), t),
        decreases cs@.len() - i,
    {
        if *cs[i].character().alignment() == CharacterAlignment::Enemy && free[i] {
            let o = others(cs, i);
            if !can_plan(&cs[i], &o, t) {
                return false;
            }
        }
        i = i + 1;
    }
    true
}

/// Whether an enemy `c` can plan at time `t` where `friend` says whether there is
/// a friendly character to aim at.
pub open spec fn can_plan_with(c: SkilledCharacter, friend: bool, t: u64) -> bool {
    match c.spec_ki() {
        KIBehavior::Passive(_) => true,
        KIBehavior::Simple(_) => {
            &&& friend
            &&& c.spec_skills().len() > 0
            &&& action_time(t, c.spec_character().spec_speed()) <= u64::MAX
        },
    }
}

/// Whether some character of `o` is friendly.
pub open spec fn has_friend(o: Seq<Character>) -> bool {
    exists|i: int| 0 <= i < o.len() && #[trigger] o[i].spec_alignment() == CharacterAlignment::Friendly
}

proof fn lemma_first_friendly_some(o: Seq<Character>)
    ensures
        (first_friendly(o) is Some) == has_friend(o),
{
}

/// The others of an enemy at index `m` hold a friendly character exactly when
/// the whole line-up does.
proof fn lemma_friend_among_others(cs: Seq<SkilledCharacter>, m: int)
    requires
        0 <= m < cs.len(),
        alignment_of(cs[m]) == CharacterAlignment::Enemy,
    ensures
        (first_friendly(others_of(cs, m)) is Some) == has_side(cs, CharacterAlignment::Friendly),
{
    lemma_first_friendly_some(others_of(cs, m));
    lemma_others_friend(cs, m);
}

proof fn lemma_others_friend(cs: Seq<SkilledCharacter>, m: int)
    requires
        0 <= m < cs.len(),
        alignment_of(cs[m]) == CharacterAlignment::Enemy,
    ensures
        has_friend(others_of(cs, m)) == has_side(cs, CharacterAlignment::Friendly),
{
    let r = cs.remove(m);
    let o = others_of(cs, m);
    assert(o.len() == r.len());
    if has_side(cs, CharacterAlignment::Friendly) {
        let j = choose|j: int| 0 <= j < cs.len() && alignment_of(cs[j]) == CharacterAlignment::Friendly;
        let k = if j < m {
            j
        } else {
            j - 1
        };
        assert(r[k] == cs[j]);
        assert(o[k] == r[k].spec_character());
        assert(o[k].spec_alignment() == CharacterAlignment::Friendly);
    }
    if has_friend(o) {
        let k = choose|i: int| 0 <= i < o.len() && #[trigger] o[i].spec_alignment() == CharacterAlignment::Friendly;
        let j = if k < m {
            k
        } else {
            k + 1
        };
        assert(r[k] == cs[j]);
        assert(o[k] == r[k].spec_character());
        assert(alignment_of(cs[j]) == CharacterAlignment::Friendly);
    }
}

/// Whether an enemy `c` can plan at time `t`, given that a friendly character is left.
fn can_plan_now(c: &SkilledCharacter, t: u64) -> (r: bool)
    ensures
        r == can_plan_with(*c, true, t),
{
    match c.get_ki() {
        KIBehavior::Passive(_) => true,
        KIBehavior::Simple(_) => {
            let fits = t.checked_add(c.character().speed() as u64);
            c.get_skills().len() > 0 && fits.is_some()
        },
    }
}

proof fn lemma_survivors_step(cs: Seq<SkilledCharacter>, i: int)
    requires
        0 <= i < cs.len(),
    ensures
        survivors(cs.take(i + 1)) == if is_alive(cs[i]) {
            survivors(cs.take(i)).push(cs[i])
        } else {
            survivors(cs.take(i))
        },
{
    assert(cs.take(i + 1) =~= cs.take(i).push(cs[i]));
    cs.take(i).lemma_filter_push(cs[i], |s: SkilledCharacter| is_alive(s));
}

/// Whether every enemy among `p` without a plan in `q` can plan at time `t`,
/// given that a friendly character is left.
pub open spec fn all_ready(p: Seq<SkilledCharacter>, q: Seq<ActionView>, t: u64) -> bool {
    forall|k: int|
        0 <= k < p.len() && alignment_of(#[trigger] p[k]) == CharacterAlignment::Enemy
            && without_plan(q)(k) ==> can_plan_with(p[k], true, t)
}

proof fn lemma_all_ready_push(p: Seq<SkilledCharacter>, c: SkilledCharacter, q: Seq<ActionView>, t: u64)
    ensures
        all_ready(p.push(c), q, t) == (all_ready(p, q, t) && (alignment_of(c)
            == CharacterAlignment::Enemy && without_plan(q)(p.len() as int) ==> can_plan_with(
            c,
            true,
            t,
        ))),
{
    let p1 = p.push(c);
    assert forall|k: int| 0 <= k < p.len() implies #[trigger] p1[k] == p[k] by {}
    assert(p1[p.len() as int] == c);
    if all_ready(p1, q, t) {
        assert forall|k: int|
            0 <= k < p.len() && alignment_of(#[trigger] p[k]) == CharacterAlignment::Enemy
                && without_plan(q)(k) implies can_plan_with(p[k], true, t) by {
            assert(p1[k] == p[k]);
        }
    }
}

proof fn lemma_has_side_push(p: Seq<SkilledCharacter>, c: SkilledCharacter, a: CharacterAlignment)
    ensures
        has_side(p.push(c), a) == (has_side(p, a) || alignment_of(c) == a),
{
    let p1 = p.push(c);
    assert(p1[p.len() as int] == c);
    if has_side(p, a) {
        let j = choose|j: int| 0 <= j < p.len() && alignment_of(p[j]) == a;
        assert(p1[j] == p[j]);
    }
    if has_side(p1, a) && !has_side(p, a) {
        let j = choose|j: int| 0 <= j < p1.len() && alignment_of(p1[j]) == a;
        if j < p.len() {
            assert(p1[j] == p[j]);
        }
    }
}

/// The queue without the actions of the dead.
fn queue_without_dead(bs: &BattleState) -> (r: BattleActionManager)
    ensures
        r@ == without_all(bs@.actions, dead_indices(bs@.characters, bs@.characters.len() as int)),
{
    let ghost b = bs@;
    let dead = find_dead(&bs.characters);
    let mut q = bs.actions.duplicate();
    let mut i: usize = 0;
    while i < dead.len()
        invariant
            i <= dead@.len(),
            dead@ == dead_indices(b.characters, b.characters.len() as int),
            q@ == without_all(b.actions, dead@.take(i as int)),
        decreases dead@.len() - i,
    {
        q.remove_character(dead[i]);
        assert(dead@.take(i + 1).drop_last() =~= dead@.take(i as int));
        i = i + 1;
    }
    assert(dead@.take(dead@.len() as int) =~= dead@);
    q
}

/// Whether the survivors hold a friendly and an enemy character.
fn surviving_sides(cs: &Vec<SkilledCharacter>) -> (r: (bool, bool))
    ensures
        r.0 == has_side(survivors(cs@), CharacterAlignment::Friendly),
        r.1 == has_side(survivors(cs@), CharacterAlignment::Enemy),
{
    let mut friend = false;
    let mut enemy = false;
    let mut i: usize = 0;
    while i < cs.len()
        invariant
            i <= cs@.len(),
            friend == has_side(survivors(cs@.take(i as int)), CharacterAlignment::Friendly),
            enemy == has_side(survivors(cs@.take(i as int)), CharacterAlignment::Enemy),
        decreases cs@.len() - i,
    {
        proof {
            lemma_survivors_step(cs@, i as int);
            lemma_has_side_push(survivors(cs@.take(i as int)), cs@[i as int], CharacterAlignment::Friendly);
            lemma_has_side_push(survivors(cs@.take(i as int)), cs@[i as int], CharacterAlignment::Enemy);
        }
        let c = cs[i].character();
        if !c.is_dead() {
            if *c.alignment() == CharacterAlignment::Friendly {
                friend = true;
            }
            if *c.alignment() == CharacterAlignment::Enemy {
                enemy = true;
            }
        }
        i = i + 1;
    }
    assert(cs@.take(cs@.len() as int) =~= cs@);
    (friend, enemy)
}

/// Whether every surviving enemy without a plan in `q` can plan at time `t`,
/// given that a friendly character is left.
fn survivors_ready(cs: &Vec<SkilledCharacter>, q: &BattleActionManager, t: u64) -> (r: bool)
    ensures
        r == all_ready(survivors(cs@), q@, t),
{
    let mut ok = true;
    let mut m: usize = 0;
    let mut i: usize = 0;
    while i < cs.len()
        invariant
            i <= cs@.len(),
            m <= i,
            m as int == survivors(cs@.take(i as int)).len(),
            ok == all_ready(survivors(cs@.take(i as int)), q@, t),
        decreases cs@.len() - i,
    {
        proof {
            lemma_survivors_step(cs@, i as int);
            lemma_all_ready_push(survivors(cs@.take(i as int)), cs@[i as int], q@, t);
        }
        let c = &cs[i];
        if !c.character().is_dead() {
            let mut here = true;
            if *c.character().alignment() == CharacterAlignment::Enemy && !q.contains_character(m) {
                here = can_plan_now(c, t);
            }
            ok = ok && here;
            m = m + 1;
        }
        i = i + 1;
    }
    assert(cs@.take(cs@.len() as int) =~= cs@);
    ok
}

/// With a friendly character left, every enemy that may plan can plan exactly
/// when each such enemy can plan against some friendly character.
proof fn lemma_ready_means_can_plan(s: Seq<SkilledCharacter>, q: Seq<ActionView>, t: u64)
    requires
        has_side(s, CharacterAlignment::Friendly),
    ensures
        all_ready(s, q, t) == enemies_can_plan(s, without_plan(q), t),
{
    if all_ready(s, q, t) {
        assert forall|k: int|
            0 <= k < s.len() && alignment_of(s[k]) == CharacterAlignment::Enemy && without_plan(q)(k)
                implies ki_can_plan(#[trigger] s[k], others_of(s, k), t) by {
            lemma_friend_among_others(s, k);
        }
    } else {
        let k = choose|k: int|
            0 <= k < s.len() && alignment_of(#[trigger] s[k]) == CharacterAlignment::Enemy
                && without_plan(q)(k) && !can_plan_with(s[k], true, t);
        lemma_friend_among_others(s, k);
        assert(!ki_can_plan(s[k], others_of(s, k), t));
    }
}

/// Whether a battle can take the consequences of the last action: both sides keep
/// someone alive, and every surviving enemy without a plan can make one.
fn consequences_ok(bs: &BattleState) -> (r: bool)
    ensures
        r == ({
            let b = bs@;
            let ds = dead_indices(b.characters, b.characters.len() as int);
            let q1 = without_all(b.actions, ds);
            let cs = survivors(b.characters);
            &&& has_side(cs, CharacterAlignment::Friendly)
            &&& has_side(cs, CharacterAlignment::Enemy)
            &&& enemies_can_plan(cs, without_plan(q1), b.current_time)
        }),
{
    let q = queue_without_dead(bs);
    let (friend, enemy) = surviving_sides(&bs.characters);
    if !(friend && enemy) {
        return false;
    }
    let ok = survivors_ready(&bs.characters, &q, bs.current_time);
    proof {
        lemma_ready_means_can_plan(survivors(bs@.characters), q@, bs.current_time);
    }
    ok
}

/// Whether a battle can take a press of `button` with `key`.
fn button_ok(bs: &BattleState, ui: &UIState, kb: &KeyBindings, button: &EntityName, key: KeyCode) -> (r:
    bool)
    ensures
        r == button_press_ok(bs@, *ui, kb@, button@, key),
{
    let accept = key_in(&kb.accept, key);
    let b = button.as_str();
    if accept && str_equal(b, END_GAME_BUTTON) {
        return true;
    }
    match ui {
        UIState::ActionSelection(ci) => {
            if !accept {
                return true;
            }
            *ci < bs.characters.len() && find_skill(bs.characters[*ci].get_skills(), b).is_some()
        },
        UIState::TargetSelection(ci, si) => {
            if !accept {
                return true;
            }
            if *ci >= bs.characters.len() {
                return false;
            }
            let c = &bs.characters[*ci];
            let fits = bs.current_time.checked_add(c.character().speed() as u64);
            *si < c.get_skills().len() && find_character(&bs.characters, b).is_some() && fits.is_some()
        },
        _ => true,
    }
}

/// Whether a battle can carry out its next action: there is one, and it names
/// existing characters and an existing skill.
fn next_action_ok(bs: &BattleState) -> (r: bool)
    ensures
        r == (bs@.actions.len() > 0 && valid_action(bs@.characters, bs@.actions[0])),
{
    let acts = bs.actions.get_actions();
    proof {
        assert(acts@.map_values(|a: BattleAction| a@).len() == acts@.len());
    }
    if acts.len() == 0 {
        return false;
    }
    proof {
        assert(acts@.map_values(|a: BattleAction| a@)[0] == acts@[0]@);
    }
    let c = acts[0].character_index();
    let k = acts[0].skill_index();
    let t = acts[0].target_index();
    c < bs.characters.len() && t < bs.characters.len() && k < bs.characters[c].get_skills().len()
}

/// Whether a battle can take `event`.
fn battle_ok(bs: &BattleState, ui: &UIState, kb: &KeyBindings, event: &Event) -> (r: bool)
    ensures
        r == battle_event_ok(bs@, *ui, kb@, event@),
{
    match event {
        Event::NewScene(s) => {
            if !str_equal(s.as_str(), BATTLE_SCENE) {
                return true;
            }
            let mut free: Vec<bool> = Vec::new();
            let mut i: usize = 0;
            while i < bs.characters.len()
                invariant
                    i <= bs.characters@.len(),
                    free@.len() == i,
                    forall|j: int| 0 <= j < i ==> free@[j],
                decreases bs.characters@.len() - i,
            {
                free.push(true);
                i = i + 1;
            }
            enemies_ready(&bs.characters, &free, bs.current_time, Ghost(|i: int| everyone(i)))
        },
        Event::BattleEvent(BattleEvent::NextAction) => next_action_ok(bs),
        Event::BattleEvent(BattleEvent::ActionConsequences) => consequences_ok(bs),
        Event::ButtonPressed(button, key) => button_ok(bs, ui, kb, button, *key),
        _ => true,
    }
}

/// Whether the main menu can take `event`.
fn menu_ok(event: &Event) -> (r: bool)
    ensures
        r == main_menu_event_ok(event@),
{
    match event {
        Event::ButtonPressed(button, key) => {
            let b = button.as_str();
            !((*key == KeyCode::Enter || *key == KeyCode::Space) && str_equal(b, START_GAME_BUTTON)
                && !str_equal(b, END_GAME_BUTTON))
        },
        _ => true,
    }
}

/// The game: its state and the player's key bindings.
pub struct GameLogic {
    game_state: GameState,
    key_bindings: KeyBindings,
}

impl GameLogic {
    pub closed spec fn state(&self) -> GameState {
        self.game_state
    }

    pub closed spec fn bindings(&self) -> KeyBindingsView {
        self.key_bindings@
    }

    /// A new game starts in the opening battle with the default key bindings.
    pub fn new() -> (r: GameLogic)
        ensures
            r.state() matches GameState::Battle(b, ui) && {
                &&& ui == UIState::CharacterSelection
                &&& b@.current_time == 0
                &&& b@.actions == Seq::<ActionView>::empty()
                &&& b@.characters.len() == opening_roster().len()
                &&& forall|i: int|
                    0 <= i < opening_roster().len() ==> #[trigger] matches_roster_entry(
                        b@.characters[i],
                        opening_roster()[i],
                    )
            },
            r.bindings().accept == seq![KeyCode::Enter, KeyCode::Space],
            r.bindings().cancel == seq![KeyCode::KeyX],
            r.bindings().check == seq![KeyCode::KeyC],
    {
        GameLogic {
            game_state: GameState::default_state(),
            key_bindings: KeyBindings::default_bindings(),
        }
    }

    /// Whether the rules can take `event` in the current state; where they cannot,
    /// the game has no answer to it.
    pub fn can_take(&self, event: &Event) -> (r: bool)
        ensures
            r == self.takes(*event),
    {
        match &self.game_state {
            GameState::MainMenu => menu_ok(event),
            GameState::Battle(bs, ui) => battle_ok(bs, ui, &self.key_bindings, event),
        }
    }

    pub fn game_state(&self) -> (r: &GameState)
        ensures
            *r == self.state(),
    {
        &self.game_state
    }
}

impl State<Event> for GameLogic {
    /// The events the rules answer in the current state.
    open spec fn takes(&self, event: Event) -> bool {
        event_ok(self.state(), self.bindings(), event@)
    }

    /// Answers one event, changing the game state as the rules say.
    fn handle_event(&mut self, event: Event) -> (r: Vec<Event>)
        ensures
            handled(old(self).state(), final(self).state(), old(self).bindings(), event@, events_view(r@)),
            final(self).bindings() == old(self).bindings(),
    {
        let mut state = GameState::MainMenu;
        std::mem::swap(&mut state, &mut self.game_state);
        match state {
            GameState::MainMenu => {
                let r = main_menu_event(event);
                self.game_state = GameState::MainMenu;
                r
            },
            GameState::Battle(mut bs, mut ui) => {
                let r = battle_event(&mut bs, &mut ui, &self.key_bindings, event);
                self.game_state = GameState::Battle(bs, ui);
                r
            },
        }
    }
}

/// Every action of `q` takes place at `t` or later.
pub open spec fn not_before(q: Seq<ActionView>, t: u64) -> bool {
    forall|i: int| 0 <= i < q.len() ==> (#[trigger] q[i]).0 >= t
}

proof fn lemma_insert_not_before(q: Seq<ActionView>, a: ActionView, t: u64)
    requires
        not_before(q, t),
        a.0 >= t,
    ensures
        not_before(insert_sorted(q, a), t),
{
    crate::battle_action::law_queue_holds_action(q, a);
    let r = insert_sorted(q, a);
    assert forall|i: int| 0 <= i < r.len() implies (#[trigger] r[i]).0 >= t by {
        assert(r.contains(r[i]));
        if r[i] != a {
            assert(q.contains(r[i]));
            let j = choose|j: int| 0 <= j < q.len() && q[j] == r[i];
        }
    }
}

proof fn lemma_enemy_plans_not_before(
    cs: Seq<SkilledCharacter>,
    free: spec_fn(int) -> bool,
    q: Seq<ActionView>,
    t: u64,
    n: int,
)
    requires
        not_before(q, t),
        enemies_can_plan(cs, free, t),
        n <= cs.len(),
    ensures
        not_before(enemy_plans(cs, free, q, t, n), t),
    decreases n,
{
    if n > 0 {
        lemma_enemy_plans_not_before(cs, free, q, t, n - 1);
        let q1 = enemy_plans(cs, free, q, t, n - 1);
        if alignment_of(cs[n - 1]) == CharacterAlignment::Enemy && free(n - 1) {
            assert(ki_can_plan(cs[n - 1], others_of(cs, n - 1), t));
            match cs[n - 1].spec_ki() {
                crate::character::KIBehavior::Passive(_) => {},
                crate::character::KIBehavior::Simple(_) => {
                    let a = crate::character::simple_ki_action(
                        (n - 1) as usize,
                        cs[n - 1].spec_character(),
                        others_of(cs, n - 1),
                        t,
                    );
                    lemma_insert_not_before(q1, a, t);
                },
            }
        }
    }
}

proof fn lemma_without_all_not_before(q: Seq<ActionView>, ds: Seq<usize>, t: u64)
    requires
        not_before(q, t),
    ensures
        not_before(without_all(q, ds), t),
    decreases ds.len(),
{
    if ds.len() > 0 {
        lemma_without_all_not_before(q, ds.drop_last(), t);
        let q1 = without_all(q, ds.drop_last());
        let q2 = without_character(q1, ds.last());
        assert forall|i: int| 0 <= i < q2.len() implies (#[trigger] q2[i]).0 >= t by {
            #[allow(deprecated)]
            q1.filter_lemma(crate::battle_action::performed_by_other(ds.last()));
            assert(q2.contains(q2[i]));
            q1.lemma_filter_contains_rev(crate::battle_action::performed_by_other(ds.last()), q2[i]);
            let j = choose|j: int| 0 <= j < q1.len() && q1[j] == q2[i];
        }
    }
}

/// The battle clock never runs backwards, and nothing is ever planned for a
/// time that has passed: when every planned action lies at the current time or
/// later, the same holds after any event the battle handles, at a current time
/// that is not earlier.
pub proof fn law_battle_clock(b: BattleView, ui: UIState, kb: KeyBindingsView, e: EventV)
    requires
        battle_event_ok(b, ui, kb, e),
        crate::battle_action::sorted_by_time(b.actions),
        not_before(b.actions, b.current_time),
    ensures
        battle_outcome(b, ui, kb, e).current_time >= b.current_time,
        not_before(battle_outcome(b, ui, kb, e).actions, battle_outcome(b, ui, kb, e).current_time),
{
    let t = b.current_time;
    match e {
        EventV::NewScene(s) => {
            if s == BATTLE_SCENE@ {
                lemma_enemy_plans_not_before(
                    b.characters,
                    |i: int| everyone(i),
                    b.actions,
                    t,
                    b.characters.len() as int,
                );
            }
        },
        EventV::Battle(BattleEvent::NextAction) => {
            let q = b.actions;
            assert forall|i: int| 0 <= i < q.drop_first().len() implies (
            #[trigger] q.drop_first()[i]).0 >= q[0].0 by {
                assert(q.drop_first()[i] == q[i + 1]);
            }
        },
        EventV::Battle(BattleEvent::ActionConsequences) => {
            let ds = dead_indices(b.characters, b.characters.len() as int);
            let q1 = without_all(b.actions, ds);
            let cs = survivors(b.characters);
            lemma_without_all_not_before(b.actions, ds, t);
            lemma_enemy_plans_not_before(cs, without_plan(q1), q1, t, cs.len() as int);
        },
        EventV::ButtonPressed(button, key) => {
            let o = button_pressed(b, ui, kb, button, key);
            if o.actions != b.actions {
                let ci = ui->TargetSelection_0;
                let si = ui->TargetSelection_1;
                let source = b.characters[ci as int];
                let ti = position_named(b.characters, button).unwrap();
                let a = (
                    action_time(t, source.spec_character().spec_speed()) as u64,
                    ci,
                    si,
                    ti as usize,
                );
                lemma_insert_not_before(b.actions, a, t);
            }
        },
        _ => {},
    }
}

/// Character `k` of `cs` is friendly and has no action in `q`.
pub open spec fn free_friend_at(cs: Seq<SkilledCharacter>, q: Seq<ActionView>, k: int) -> bool {
    &&& 0 <= k < cs.len()
    &&& alignment_of(cs[k]) == CharacterAlignment::Friendly
    &&& !has_actor(q, k)
}

/// `name` is the name of a friendly character among the first `n` of `cs` that has
/// no action in `q`.
pub open spec fn names_free_friend(cs: Seq<SkilledCharacter>, q: Seq<ActionView>, n: int, name: Seq<char>) -> bool {
    exists|k: int| 0 <= k < n && #[trigger] free_friend_at(cs, q, k) && name_of(cs[k]) == name
}

proof fn lemma_free_friendly_names(cs: Seq<SkilledCharacter>, q: Seq<ActionView>, n: int)
    requires
        0 <= n <= cs.len(),
    ensures
        forall|m: int|
            0 <= m < free_friendly_names(cs, q, n).len() ==> names_free_friend(
                cs,
                q,
                n,
                #[trigger] free_friendly_names(cs, q, n)[m],
            ),
        forall|k: int|
            0 <= k < n && #[trigger] free_friend_at(cs, q, k) ==> free_friendly_names(cs, q, n).contains(
                name_of(cs[k]),
            ),
    decreases n,
{
    if n > 0 {
        lemma_free_friendly_names(cs, q, n - 1);
        let a = free_friendly_names(cs, q, n - 1);
        let r = free_friendly_names(cs, q, n);
        let pushed = !has_actor(q, n - 1) && alignment_of(cs[n - 1]) == CharacterAlignment::Friendly;
        if pushed {
            assert(r =~= a.push(name_of(cs[n - 1])));
        } else {
            assert(r =~= a);
        }
        assert forall|m: int| 0 <= m < r.len() implies names_free_friend(cs, q, n, #[trigger] r[m]) by {
            if m < a.len() {
                assert(r[m] == a[m]);
                assert(names_free_friend(cs, q, n - 1, a[m]));
                let k = choose|k: int|
                    0 <= k < n - 1 && #[trigger] free_friend_at(cs, q, k) && name_of(cs[k]) == a[m];
                assert(0 <= k < n && free_friend_at(cs, q, k) && name_of(cs[k]) == r[m]);
            } else {
                assert(pushed);
                assert(r[m] == name_of(cs[n - 1]));
                assert(free_friend_at(cs, q, n - 1));
            }
        }
        assert forall|k: int| 0 <= k < n && #[trigger] free_friend_at(cs, q, k) implies r.contains(
            name_of(cs[k]),
        ) by {
            if k < n - 1 {
                assert(a.contains(name_of(cs[k])));
                let m = choose|m: int| 0 <= m < a.len() && a[m] == name_of(cs[k]);
                assert(r[m] == a[m]);
            } else {
                assert(r[a.len() as int] == name_of(cs[k]));
            }
        }
    }
}

proof fn lemma_enemy_plans_actors(
    cs: Seq<SkilledCharacter>,
    free: spec_fn(int) -> bool,
    q: Seq<ActionView>,
    t: u64,
    n: int,
)
    requires
        0 <= n <= cs.len(),
        cs.len() <= usize::MAX,
    ensures
        forall|x: ActionView| q.contains(x) ==> #[trigger] enemy_plans(cs, free, q, t, n).contains(x),
        forall|x: ActionView|
            #[trigger] enemy_plans(cs, free, q, t, n).contains(x) ==> q.contains(x) || (x.1 < n
                && alignment_of(cs[x.1 as int]) == CharacterAlignment::Enemy),
    decreases n,
{
    if n > 0 {
        lemma_enemy_plans_actors(cs, free, q, t, n - 1);
        let q1 = enemy_plans(cs, free, q, t, n - 1);
        if alignment_of(cs[n - 1]) == CharacterAlignment::Enemy && free(n - 1) {
            match cs[n - 1].spec_ki() {
                KIBehavior::Passive(_) => {},
                KIBehavior::Simple(_) => {
                    let a = crate::character::simple_ki_action(
                        (n - 1) as usize,
                        cs[n - 1].spec_character(),
                        others_of(cs, n - 1),
                        t,
                    );
                    crate::battle_action::law_queue_holds_action(q1, a);
                },
            }
        }
    }
}

/// After an action's consequences, the characters offered to the player are
/// exactly the friendly survivors with no planned action: each highlighted name
/// is the name of such a character (so never an enemy's), and each such
/// character is highlighted. Where there is none, the next action is due.
pub proof fn law_consequences_highlight_free_friends(b: BattleView, ui: UIState)
    requires
        b.characters.len() <= usize::MAX,
    ensures
        ({
            let o = action_consequences(b, ui);
            &&& o.events.len() > 0
            &&& (exists|k: int| #[trigger] free_friend_at(o.characters, o.actions, k)) ==> (o.events.last() matches EventV::Entity(
                target,
                EntityEventV::Highlight(names),
            ) && target == BATTLE_MANAGER@ && (forall|m: int|
                0 <= m < names.len() ==> names_free_friend(
                    o.characters,
                    o.actions,
                    o.characters.len() as int,
                    #[trigger] names[m],
                )) && (forall|k: int|
                #[trigger] free_friend_at(o.characters, o.actions, k) ==> names.contains(
                    name_of(o.characters[k]),
                )))
            &&& !(exists|k: int| #[trigger] free_friend_at(o.characters, o.actions, k))
                ==> o.events.last() == EventV::Battle(BattleEvent::NextAction)
        }),
{
    let ds = dead_indices(b.characters, b.characters.len() as int);
    let q1 = without_all(b.actions, ds);
    let cs = survivors(b.characters);
    let o = action_consequences(b, ui);
    assert(cs.len() <= b.characters.len()) by {
        b.characters.lemma_filter_len(|s: SkilledCharacter| is_alive(s));
    }
    lemma_enemy_plans_actors(cs, without_plan(q1), q1, b.current_time, cs.len() as int);
    lemma_free_friendly_names(cs, q1, cs.len() as int);
    let ff = free_friendly_names(cs, q1, cs.len() as int);
    assert forall|k: int| free_friend_at(cs, o.actions, k) == free_friend_at(cs, q1, k) by {
        if 0 <= k < cs.len() && alignment_of(cs[k]) == CharacterAlignment::Friendly {
            if has_actor(q1, k) {
                let j = choose|j: int| 0 <= j < q1.len() && q1[j].1 == k;
                assert(q1.contains(q1[j]));
                assert(o.actions.contains(q1[j]));
                let j2 = choose|j2: int| 0 <= j2 < o.actions.len() && o.actions[j2] == q1[j];
                assert(o.actions[j2].1 == k);
            }
            if has_actor(o.actions, k) {
                let j = choose|j: int| 0 <= j < o.actions.len() && o.actions[j].1 == k;
                assert(o.actions.contains(o.actions[j]));
                assert(q1.contains(o.actions[j]));
                let j2 = choose|j2: int| 0 <= j2 < q1.len() && q1[j2] == o.actions[j];
                assert(q1[j2].1 == k);
            }
        }
    }
    let deaths = ds.map_values(
        |d: usize| EventV::Entity(BATTLE_MANAGER@, EntityEventV::Death(name_of(b.characters[d as int]))),
    );
    let last = if ff.len() > 0 {
        highlight(ff)
    } else {
        EventV::Battle(BattleEvent::NextAction)
    };
    assert(o.events =~= deaths + seq![last]);
    assert(o.events.last() == last);
    assert(o.characters == cs);
    if exists|k: int| #[trigger] free_friend_at(o.characters, o.actions, k) {
        let k = choose|k: int| #[trigger] free_friend_at(o.characters, o.actions, k);
        assert(free_friend_at(cs, q1, k));
        assert(ff.contains(name_of(cs[k])));
        assert(ff.len() > 0);
    } else {
        if ff.len() > 0 {
            assert(names_free_friend(cs, q1, cs.len() as int, ff[0]));
            let k = choose|k: int|
                0 <= k < cs.len() && #[trigger] free_friend_at(cs, q1, k) && name_of(cs[k]) == ff[0];
            assert(free_friend_at(o.characters, o.actions, k));
        }
    }
    assert forall|k: int| #[trigger] free_friend_at(o.characters, o.actions, k) implies ff.contains(
        name_of(o.characters[k]),
    ) by {
        assert(free_friend_at(cs, q1, k));
        assert(0 <= k < cs.len());
    }
    assert forall|m: int| 0 <= m < ff.len() implies names_free_friend(
        o.characters,
        o.actions,
        o.characters.len() as int,
        #[trigger] ff[m],
    ) by {
        assert(names_free_friend(cs, q1, cs.len() as int, ff[m]));
        let k = choose|k: int|
            0 <= k < cs.len() && #[trigger] free_friend_at(cs, q1, k) && name_of(cs[k]) == ff[m];
        assert(free_friend_at(o.characters, o.actions, k));
    }
}

/// A press that picks a target queues one action of the character and skill
/// being chosen, aimed at the first character named by the pressed button.
pub proof fn law_target_press_aims_at_named(
    b: BattleView,
    ui: UIState,
    kb: KeyBindingsView,
    button: Seq<char>,
    key: KeyCode,
)
    requires
        ui is TargetSelection,
        button_press_ok(b, ui, kb, button, key),
        b.characters.len() <= usize::MAX,
    ensures
        ({
            let o = button_pressed(b, ui, kb, button, key);
            forall|a: ActionView|
                #[trigger] o.actions.contains(a) && !b.actions.contains(a) ==> {
                    &&& a.1 == ui->TargetSelection_0
                    &&& a.2 == ui->TargetSelection_1
                    &&& 0 <= a.3 < b.characters.len()
                    &&& name_of(b.characters[a.3 as int]) == button
                    &&& forall|j: int| 0 <= j < a.3 ==> name_of(#[trigger] b.characters[j]) != button
                }
        }),
{
    let cs = b.characters;
    let p = |i: int| name_of(cs[i]) == button;
    lemma_first_index_props(p, cs.len() as int);
    lemma_first_index_first(p, cs.len() as int);
    let o = button_pressed(b, ui, kb, button, key);
    let accept = kb.accept.contains(key);
    let ci = ui->TargetSelection_0;
    let si = ui->TargetSelection_1;
    if !(accept && button == END_GAME_BUTTON@) && accept {
        let ti = position_named(cs, button).unwrap();
        let source = cs[ci as int];
        let groups = skill_target_groups(source.spec_skills()[si as int]);
        if valid_target(groups, source.spec_character(), cs[ti].spec_character()) {
            let a = (
                action_time(b.current_time, source.spec_character().spec_speed()) as u64,
                ci,
                si,
                ti as usize,
            );
            assert(o.actions == insert_sorted(b.actions, a));
            crate::battle_action::law_queue_holds_action(b.actions, a);
            assert(0 <= ti < cs.len() && p(ti));
            assert forall|j: int| 0 <= j < ti implies name_of(#[trigger] cs[j]) != button by {
                assert(!p(j));
            }
            assert forall|x: ActionView| #[trigger] o.actions.contains(x) && !b.actions.contains(x) implies x == a by {}
        } else {
            assert(o.actions == b.actions);
        }
    } else {
        assert(o.actions == b.actions);
    }
}

proof fn lemma_first_index_first(p: spec_fn(int) -> bool, n: int)
    ensures
        first_index(p, n) matches Some(i) ==> forall|j: int| 0 <= j < i ==> !#[trigger] p(j),
        first_index(p, n) is None ==> forall|j: int| 0 <= j < n ==> !#[trigger] p(j),
    decreases n,
{
    if n > 0 {
        lemma_first_index_first(p, n - 1);
    }
}

} // verus!

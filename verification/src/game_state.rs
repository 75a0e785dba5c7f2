//! The state of a game: the main menu, or a battle and what the player is doing in it.
use vstd::prelude::*;

use crate::battle_action::{ActionView, BattleActionManager};
use crate::battle_manager::{line_ok, side_names, BattleManager};
use crate::event::entity_names_view;
use crate::game_logic::{
    BATTLE_ACTION_SELECTION_OVERLAY_SCENE, BATTLE_DETAIL_OVERLAY_SCENE, BATTLE_SCENE, MAIN_MENU_SCENE,
    MAIN_WINDOW,
};
use crate::names::SceneName;
use crate::scenes::SceneEntry;
use crate::character::{
    AttackSkill, Character, CharacterAlignment, HealSkill, KIBehavior, NoKI, SimpleKI, Skill,
    SkilledCharacter,
};

verus! {

/// What the player is doing in a battle.
pub enum UIState {
    CharacterSelection,
    /// Looking at a character, coming from the state inside.
    CharacterDetail(Box<UIState>),
    /// Choosing a skill for the character at this index.
    ActionSelection(usize),
    /// Choosing a target for the character at the first index and its skill at the second.
    TargetSelection(usize, usize),
}

impl UIState {
    /// A copy of this state.
    pub fn duplicate(&self) -> (r: UIState)
        ensures
            r == *self,
        decreases self,
    {
        match self {
            UIState::CharacterSelection => UIState::CharacterSelection,
            UIState::CharacterDetail(inner) => UIState::CharacterDetail(
                Box::new((**inner).duplicate()),
            ),
            UIState::ActionSelection(i) => UIState::ActionSelection(*i),
            UIState::TargetSelection(i, j) => UIState::TargetSelection(*i, *j),
        }
    }
}

/// The combatants, the current battle time and the planned actions.
pub struct BattleState {
    pub characters: Vec<SkilledCharacter>,
    pub current_time: u64,
    pub actions: BattleActionManager,
}

/// A battle state as plain values.
pub struct BattleView {
    pub characters: Seq<SkilledCharacter>,
    pub current_time: u64,
    pub actions: Seq<ActionView>,
}

impl View for BattleState {
    type V = BattleView;

    open spec fn view(&self) -> BattleView {
        BattleView {
            characters: self.characters@,
            current_time: self.current_time,
            actions: self.actions@,
        }
    }
}

/// Where the game is.
pub enum GameState {
    MainMenu,
    Battle(BattleState, UIState),
}

/// The opening battle: three friendly characters against two enemies.
pub open spec fn opening_roster() -> Seq<(Seq<char>, CharacterAlignment, u16, u16, u16, u16, u16, bool, bool)> {
    seq![
        ("Player"@, CharacterAlignment::Friendly, 100u16, 10u16, 100u16, 10u16, 11u16, true, false),
        ("Player Two"@, CharacterAlignment::Friendly, 50u16, 20u16, 150u16, 20u16, 8u16, false, false),
        ("Player Three"@, CharacterAlignment::Friendly, 300u16, 2u16, 300u16, 2u16, 4u16, false, false),
        ("Enemy"@, CharacterAlignment::Enemy, 100u16, 5u16, 10u16, 5u16, 10u16, false, true),
        ("Enemy Two"@, CharacterAlignment::Enemy, 20u16, 0u16, 0u16, 12u16, 15u16, false, true),
    ]
}

/// Whether `s` is the fresh combatant described by roster entry `e`: name,
/// alignment, maximum health, maximum stamina, exhaustion threshold, speed and
/// attack; an attack skill, followed by a heal when the entry says so; and a
/// simple behaviour exactly when the entry says so.
pub open spec fn matches_roster_entry(
    s: SkilledCharacter,
    e: (Seq<char>, CharacterAlignment, u16, u16, u16, u16, u16, bool, bool),
) -> bool {
    let c = s.spec_character();
    &&& c.spec_name()@ == e.0
    &&& c.spec_alignment() == e.1
    &&& c.spec_max_health() == e.2 && c.spec_health() == e.2
    &&& c.spec_max_stamina() == e.3 && c.spec_stamina() == e.3
    &&& c.spec_exhaustion_threshold() == e.4 && c.spec_exhaustion() == 0
    &&& c.spec_speed() == e.5 && c.spec_attack() == e.6
    &&& s.spec_skills().len() == if e.7 {
        2int
    } else {
        1int
    }
    &&& s.spec_skills()[0] is Attack
    &&& e.7 ==> s.spec_skills()[1] is Heal
    &&& (s.spec_ki() is Simple) == e.8
}

fn roster_character(
    name: &'static str,
    alignment: CharacterAlignment,
    max_health: u16,
    max_stamina: u16,
    exhaustion_threshold: u16,
    speed: u16,
    attack: u16,
    heals: bool,
    simple: bool,
) -> (r: SkilledCharacter)
    ensures
        matches_roster_entry(
            r,
            (
                name@,
                alignment,
                max_health,
                max_stamina,
                exhaustion_threshold,
                speed,
                attack,
                heals,
                simple,
            ),
        ),
{
    let mut skills: Vec<Skill> = Vec::new();
    skills.push(Skill::Attack(AttackSkill {  }));
    if heals {
        skills.push(Skill::Heal(HealSkill {  }));
    }
    let ki = if simple {
        KIBehavior::Simple(SimpleKI)
    } else {
        KIBehavior::Passive(NoKI)
    };
    SkilledCharacter::new(
        Character::new(name, alignment, max_health, max_stamina, exhaustion_threshold, speed, attack),
        skills,
        ki,
    )
}

impl GameState {
    /// The game starts in a battle: the opening roster at time zero, nothing
    /// planned, and the player choosing a character.
    pub fn default_state() -> (r: GameState)
        ensures
            r matches GameState::Battle(b, ui) && {
                &&& ui == UIState::CharacterSelection
                &&& b.current_time == 0
                &&& b@.actions == Seq::<ActionView>::empty()
                &&& b@.characters.len() == opening_roster().len()
                &&& forall|i: int|
                    0 <= i < opening_roster().len() ==> #[trigger] matches_roster_entry(
                        b@.characters[i],
                        opening_roster()[i],
                    )
            },
    {
        let player = roster_character(
            "Player",
            CharacterAlignment::Friendly,
            100,
            10,
            100,
            10,
            11,
            true,
            false,
        );
        let player_two = roster_character(
            "Player Two",
            CharacterAlignment::Friendly,
            50,
            20,
            150,
            20,
            8,
            false,
            false,
        );
        let player_three = roster_character(
            "Player Three",
            CharacterAlignment::Friendly,
            300,
            2,
            300,
            2,
            4,
            false,
            false,
        );
        let enemy = roster_character(
            "Enemy",
            CharacterAlignment::Enemy,
            100,
            5,
            10,
            5,
            10,
            false,
            true,
        );
        let enemy_two = roster_character(
            "Enemy Two",
            CharacterAlignment::Enemy,
            20,
            0,
            0,
            12,
            15,
            false,
            true,
        );
        let mut characters: Vec<SkilledCharacter> = Vec::new();
        characters.push(player);
        characters.push(player_two);
        characters.push(player_three);
        characters.push(enemy);
        characters.push(enemy_two);
        proof {
            reveal_strlit("Player");
            reveal_strlit("Player Two");
            reveal_strlit("Player Three");
            reveal_strlit("Enemy");
            reveal_strlit("Enemy Two");
        }
        let battle_state = BattleState {
            characters,
            current_time: 0,
            actions: BattleActionManager::new(),
        };
        GameState::Battle(battle_state, UIState::CharacterSelection)
    }
}

/// What a starting scene holds.
pub enum SceneContent {
    /// Nothing yet.
    Nothing,
    /// The title and the buttons to start and to end a game.
    MainMenu,
    /// The controller of the battle screen.
    Battle(BattleManager),
}

/// A scene of the main window.
fn main_window_scene(name: &str, z_index: i32, content: SceneContent) -> (r: SceneEntry<SceneContent>)
    ensures
        r.name@ == name@,
        r.render_scene@ == name@,
        r.target_window@ == MAIN_WINDOW@,
        r.z_index == z_index,
        r.content == content,
{
    SceneEntry {
        name: SceneName::from_str(name),
        render_scene: String::from_str(name),
        target_window: String::from_str(MAIN_WINDOW),
        z_index,
        content,
    }
}

impl GameState {
    /// The scenes the game starts with, all drawn in the main window and each in a
    /// render scene of its own name. The main menu is one scene. A battle in which
    /// the player is choosing a character has the detail overlay and the battle
    /// scene at depth 0, the latter holding the battle screen's controller, and
    /// the action selection overlay at depth 1.
    pub fn get_start_scenes(&self) -> (r: Vec<SceneEntry<SceneContent>>)
        requires
            self matches GameState::Battle(_, ui) ==> ui is CharacterSelection,
        ensures
            forall|i: int| 0 <= i < r@.len() ==> (#[trigger] r@[i]).target_window@ == MAIN_WINDOW@
                && r@[i].render_scene@ == r@[i].name@,
            self is MainMenu ==> {
                &&& r@.len() == 1
                &&& r@[0].name@ == MAIN_MENU_SCENE@
                &&& r@[0].z_index == 1
                &&& r@[0].content is MainMenu
            },
            self matches GameState::Battle(b, _) ==> {
                &&& r@.len() == 3
                &&& r@[0].name@ == BATTLE_DETAIL_OVERLAY_SCENE@
                &&& r@[0].z_index == 0
                &&& r@[0].content is Nothing
                &&& r@[1].name@ == BATTLE_SCENE@
                &&& r@[1].z_index == 0
                &&& r@[1].content matches SceneContent::Battle(m) && {
                    &&& entity_names_view(m.enemies.names@) == side_names(
                        b@.characters,
                        CharacterAlignment::Enemy,
                        b@.characters.len() as int,
                    )
                    &&& entity_names_view(m.friends.names@) == side_names(
                        b@.characters,
                        CharacterAlignment::Friendly,
                        b@.characters.len() as int,
                    )
                    &&& line_ok(m.enemies) && line_ok(m.friends)
                    &&& forall|k: int| 0 <= k < m.enemies.highlighted@.len() ==> !#[trigger] m.enemies.highlighted@[k]
                    &&& forall|k: int| 0 <= k < m.friends.highlighted@.len() ==> !#[trigger] m.friends.highlighted@[k]
                    &&& m.enemies.focus is None && m.friends.focus is None
                    &&& m.focused_line is None
                    &&& m.pending_animations@.len() == 0
                }
                &&& r@[2].name@ == BATTLE_ACTION_SELECTION_OVERLAY_SCENE@
                &&& r@[2].z_index == 1
                &&& r@[2].content is Nothing
            },
    {
        match self {
            GameState::MainMenu => vec![main_window_scene(MAIN_MENU_SCENE, 1, SceneContent::MainMenu)],
            GameState::Battle(b, _) => {
                let manager = BattleManager::new(&b.characters);
                vec![
                    main_window_scene(BATTLE_DETAIL_OVERLAY_SCENE, 0, SceneContent::Nothing),
                    main_window_scene(BATTLE_SCENE, 0, SceneContent::Battle(manager)),
                    main_window_scene(BATTLE_ACTION_SELECTION_OVERLAY_SCENE, 1, SceneContent::Nothing),
                ]
            },
        }
    }
}

} // verus!

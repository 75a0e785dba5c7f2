use ferride::battle_action::{BattleAction, BattleActionManager};
use ferride::character::{
    AttackSkill, BiaKarui, Character, CharacterAlignment, HealSkill, KIBehavior, NoKI, Skill,
    SkilledCharacter, TargetGroup, EXHAUSTION_THRESHOLD, MAX_HEALTH, MAX_STAMINA,
};
use ferride::event::{BattleEvent, EntityEvent, Event, KeyCode};
use ferride::game_logic::{GameLogic, BATTLE_MANAGER, BATTLE_SCENE};
use ferride::game_state::{GameState, UIState};
use ferride::names::{EntityName, SceneName};
use ferride::scenes::State;

fn times(m: &BattleActionManager) -> Vec<(u64, usize)> {
    m.get_actions().iter().map(|a| (a.time(), a.character_index())).collect()
}

#[test]
fn actions_are_kept_by_time_and_ties_keep_their_order() {
    let mut m = BattleActionManager::new();
    m.queue_action(BattleAction::new(5, 0, 0, 1));
    m.queue_action(BattleAction::new(3, 1, 0, 0));
    m.queue_action(BattleAction::new(7, 2, 0, 0));
    m.queue_action(BattleAction::new(3, 3, 0, 0));
    assert_eq!(times(&m), vec![(3, 1), (3, 3), (5, 0), (7, 2)]);
    assert_eq!(m.len(), 4);
    let first = m.pop();
    assert_eq!((first.time(), first.character_index()), (3, 1));
    assert_eq!(times(&m), vec![(3, 3), (5, 0), (7, 2)]);
}

#[test]
fn removing_a_character_drops_its_actions() {
    let mut m = BattleActionManager::new();
    m.queue_action(BattleAction::new(5, 0, 0, 1));
    m.queue_action(BattleAction::new(6, 1, 0, 0));
    m.queue_action(BattleAction::new(9, 0, 0, 1));
    assert!(m.contains_character(0));
    m.remove_character(0);
    assert!(!m.contains_character(0));
    assert!(m.contains_character(1));
    assert_eq!(times(&m), vec![(6, 1)]);
}

fn fighter(name: &'static str, alignment: CharacterAlignment, health: u16, attack: u16) -> Character {
    Character::new(name, alignment, health, 10, 10, 5, attack)
}

#[test]
fn attack_takes_health_and_never_below_zero() {
    let source = fighter("a", CharacterAlignment::Friendly, 100, 30);
    let mut target = fighter("b", CharacterAlignment::Enemy, 50, 1);
    AttackSkill {}.evaluate(&mut target, &source);
    assert_eq!(target.health(), 20);
    AttackSkill {}.evaluate(&mut target, &source);
    assert_eq!(target.health(), 0);
    assert!(target.is_dead());
    assert_eq!(target.max_health(), 50);
}

#[test]
fn heal_restores_ten_up_to_the_maximum() {
    let source = fighter("a", CharacterAlignment::Friendly, 100, 95);
    let mut target = fighter("b", CharacterAlignment::Friendly, 100, 1);
    AttackSkill {}.evaluate(&mut target, &source);
    assert_eq!(target.health(), 5);
    HealSkill {}.evaluate(&mut target, &source);
    assert_eq!(target.health(), 15);
    let mut full = fighter("c", CharacterAlignment::Friendly, 100, 1);
    HealSkill {}.evaluate(&mut full, &source);
    assert_eq!(full.health(), 100);
}

#[test]
fn skill_timing_and_targets() {
    let source = fighter("a", CharacterAlignment::Friendly, 100, 3);
    assert_eq!(AttackSkill {}.get_time(None, &source, 20), 25);
    assert_eq!(AttackSkill {}.target_groups(), vec![TargetGroup::Enemies]);
    assert_eq!(AttackSkill {}.name().as_str(), "Attack");
    assert_eq!(HealSkill {}.name().as_str(), "Heal");
}

#[test]
fn bia_karui_is_built_with_her_stats_and_skills() {
    let bia: SkilledCharacter = BiaKarui::default().build();
    let c = bia.character();
    assert_eq!(c.name(), "Bia Karui");
    assert_eq!(*c.alignment(), CharacterAlignment::Friendly);
    assert_eq!((c.health(), c.max_health()), (MAX_HEALTH, MAX_HEALTH));
    assert_eq!((c.stamina(), c.max_stamina()), (MAX_STAMINA, MAX_STAMINA));
    assert_eq!((c.exhaustion(), c.exhaustion_threshold()), (EXHAUSTION_THRESHOLD, EXHAUSTION_THRESHOLD));
    assert_eq!((c.speed(), c.attack()), (10, 10));
    assert!(matches!(bia.get_skills()[..], [Skill::Attack(_), Skill::Heal(_)]));
    assert!(matches!(bia.get_ki(), KIBehavior::Passive(NoKI)));
}

#[test]
fn new_game_starts_in_the_opening_battle() {
    let logic = GameLogic::new();
    match logic.game_state() {
        GameState::Battle(b, ui) => {
            assert!(matches!(ui, UIState::CharacterSelection));
            assert_eq!(b.current_time, 0);
            let names: Vec<_> = b.characters.iter().map(|c| c.character().name()).collect();
            assert_eq!(names, vec!["Player", "Player Two", "Player Three", "Enemy", "Enemy Two"]);
        }
        GameState::MainMenu => panic!("a new game starts in battle"),
    }
}

#[test]
fn opening_the_battle_plans_the_enemies_and_highlights_the_free_characters() {
    let mut logic = GameLogic::new();
    let events = logic.handle_event(Event::NewScene(SceneName::from_str(BATTLE_SCENE)));
    assert_eq!(events.len(), 1);
    match &events[0] {
        Event::EntityEvent(target, EntityEvent::BattleHighlightValidSkillTargets(names)) => {
            assert_eq!(target.as_str(), BATTLE_MANAGER);
            let names: Vec<_> = names.iter().map(|n| n.as_str().to_string()).collect();
            assert_eq!(names, vec!["Player", "Player Two", "Player Three"]);
        }
        _ => panic!("expected the free characters to be highlighted"),
    }
    match logic.game_state() {
        GameState::Battle(b, _) => {
            // Both enemies attack the first friendly character with their first skill,
            // each at the current time plus its speed.
            let planned: Vec<_> = b
                .actions
                .get_actions()
                .iter()
                .map(|a| (a.time(), a.character_index(), a.skill_index(), a.target_index()))
                .collect();
            assert_eq!(planned, vec![(5, 3, 0, 0), (12, 4, 0, 0)]);
        }
        GameState::MainMenu => panic!("still in battle"),
    }
}

#[test]
fn the_next_action_is_carried_out() {
    let mut logic = GameLogic::new();
    logic.handle_event(Event::NewScene(SceneName::from_str(BATTLE_SCENE)));
    let events = logic.handle_event(Event::BattleEvent(ferride::event::BattleEvent::NextAction));
    assert_eq!(events.len(), 1);
    match logic.game_state() {
        GameState::Battle(b, _) => {
            assert_eq!(b.current_time, 5);
            // The first enemy (attack 10) hit the player (health 100).
            assert_eq!(b.characters[0].character().health(), 90);
            assert_eq!(b.actions.len(), 1);
        }
        GameState::MainMenu => panic!("still in battle"),
    }
}

#[test]
fn other_scenes_change_nothing() {
    let mut logic = GameLogic::new();
    let events = logic.handle_event(Event::NewScene(SceneName::from_str("SomewhereElse")));
    assert!(events.is_empty());
    let events = logic.handle_event(Event::EndGame);
    assert!(events.is_empty());
}

#[test]
fn the_game_says_which_events_it_can_take() {
    let mut logic = GameLogic::new();
    // Nothing is planned yet, so there is no next action to carry out.
    assert!(!logic.can_take(&Event::BattleEvent(BattleEvent::NextAction)));
    assert!(logic.can_take(&Event::NewScene(SceneName::from_str(BATTLE_SCENE))));
    assert!(logic.can_take(&Event::EndGame));
    logic.handle_event(Event::NewScene(SceneName::from_str(BATTLE_SCENE)));
    assert!(logic.can_take(&Event::BattleEvent(BattleEvent::NextAction)));
    // Everyone is alive and the enemies have planned: the battle can go on.
    assert!(logic.can_take(&Event::BattleEvent(BattleEvent::ActionConsequences)));
    // In character selection every button press is taken.
    assert!(logic.can_take(&Event::ButtonPressed(EntityName::from_str("Nobody"), KeyCode::Enter)));
    logic.handle_event(Event::ButtonPressed(EntityName::from_str("Player"), KeyCode::Enter));
    // Choosing a skill the character does not have has no answer.
    assert!(!logic.can_take(&Event::ButtonPressed(EntityName::from_str("Dance"), KeyCode::Enter)));
    assert!(logic.can_take(&Event::ButtonPressed(EntityName::from_str("Attack"), KeyCode::Enter)));
    assert!(logic.can_take(&Event::ButtonPressed(EntityName::from_str("Dance"), KeyCode::Other)));
}

#[test]
fn heal_targets_the_friends_and_attack_refuses_them() {
    let mut logic = GameLogic::new();
    logic.handle_event(Event::ButtonPressed(EntityName::from_str("Player"), KeyCode::Enter));
    let events = logic.handle_event(Event::ButtonPressed(EntityName::from_str("Heal"), KeyCode::Enter));
    assert_eq!(events.len(), 3);
    match &events[2] {
        Event::EntityEvent(_, EntityEvent::BattleHighlightValidSkillTargets(names)) => {
            let names: Vec<_> = names.iter().map(|n| n.as_str().to_string()).collect();
            assert_eq!(names, vec!["Player Two", "Player Three", "Player"]);
        }
        _ => panic!("expected the heal's targets to be highlighted"),
    }
    assert!(matches!(logic.game_state(), GameState::Battle(_, UIState::TargetSelection(0, 1))));

    let mut logic = GameLogic::new();
    logic.handle_event(Event::ButtonPressed(EntityName::from_str("Player"), KeyCode::Enter));
    logic.handle_event(Event::ButtonPressed(EntityName::from_str("Attack"), KeyCode::Enter));
    let events = logic.handle_event(Event::ButtonPressed(EntityName::from_str("Player Two"), KeyCode::Enter));
    assert!(events.is_empty());
    match logic.game_state() {
        GameState::Battle(b, ui) => {
            assert!(matches!(ui, UIState::TargetSelection(0, 0)));
            assert_eq!(b.actions.len(), 0);
        }
        GameState::MainMenu => panic!("still in battle"),
    }
}

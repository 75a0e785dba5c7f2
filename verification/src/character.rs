//! Characters, their skills and their battle behaviour.
use vstd::prelude::*;

use crate::battle_action::{ActionView, BattleAction, BattleActionManager};
use crate::game_logic::BATTLE_DETAIL_OVERLAY;
use crate::names::{str_equal, SkillName, SpriteSheetName};

verus! {

/// Which side of a battle a character fights on.
#[derive(PartialEq, Eq, Structural, Clone, Copy, Debug)]
pub enum CharacterAlignment {
    Friendly,
    Enemy,
}

/// The stats of one combatant. Health never exceeds maximum health.
#[derive(Clone, Copy)]
pub struct Character {
    name: &'static str,
    alignment: CharacterAlignment,
    max_health: u16,
    health: u16,
    max_stamina: u16,
    stamina: u16,
    exhaustion_threshold: u16,
    exhaustion: u16,
    speed: u16,
    attack: u16,
}

/// Health after taking `attack` damage: damage never takes health below zero.
pub open spec fn attacked_health(health: u16, attack: u16) -> u16 {
    if attack <= health {
        (health - attack) as u16
    } else {
        0
    }
}

/// Health after a heal of 10: healing never takes health above the maximum.
pub open spec fn healed_health(health: u16, max_health: u16) -> u16 {
    if max_health - health <= HEAL_AMOUNT {
        max_health
    } else {
        (health + HEAL_AMOUNT) as u16
    }
}

/// `b` has every stat of `a` but, perhaps, its health.
pub open spec fn same_but_health(a: Character, b: Character) -> bool {
    &&& b.spec_name() == a.spec_name()
    &&& b.spec_alignment() == a.spec_alignment()
    &&& b.spec_max_health() == a.spec_max_health()
    &&& b.spec_max_stamina() == a.spec_max_stamina()
    &&& b.spec_stamina() == a.spec_stamina()
    &&& b.spec_exhaustion_threshold() == a.spec_exhaustion_threshold()
    &&& b.spec_exhaustion() == a.spec_exhaustion()
    &&& b.spec_speed() == a.spec_speed()
    &&& b.spec_attack() == a.spec_attack()
}

/// A heal restores ten health but never goes past the maximum: from any health
/// within the maximum it gives `min(health + 10, max_health)`, so a character
/// below its maximum always gains health.
pub proof fn law_heal_restores_up_to_ten(health: u16, max_health: u16)
    requires
        health <= max_health,
    ensures
        healed_health(health, max_health) == if health + 10 <= max_health {
            health + 10
        } else {
            max_health as int
        },
        health < max_health ==> healed_health(health, max_health) > health,
        healed_health(health, max_health) <= max_health,
{
}

/// Damage takes the attack off the health, but never below zero.
pub proof fn law_attack_takes_attack_off(health: u16, attack: u16)
    ensures
        attacked_health(health, attack) == if attack <= health {
            health - attack
        } else {
            0
        },
        attacked_health(health, attack) <= health,
{
}

/// The amount a heal restores.
pub const HEAL_AMOUNT: u16 = 10;

impl Character {
    #[verifier::type_invariant]
    spec fn health_in_range(self) -> bool {
        self.health <= self.max_health
    }

    pub closed spec fn spec_name(self) -> &'static str {
        self.name
    }

    pub closed spec fn spec_alignment(self) -> CharacterAlignment {
        self.alignment
    }

    pub closed spec fn spec_max_health(self) -> u16 {
        self.max_health
    }

    pub closed spec fn spec_health(self) -> u16 {
        self.health
    }

    pub closed spec fn spec_max_stamina(self) -> u16 {
        self.max_stamina
    }

    pub closed spec fn spec_stamina(self) -> u16 {
        self.stamina
    }

    pub closed spec fn spec_exhaustion_threshold(self) -> u16 {
        self.exhaustion_threshold
    }

    pub closed spec fn spec_exhaustion(self) -> u16 {
        self.exhaustion
    }

    pub closed spec fn spec_speed(self) -> u16 {
        self.speed
    }

    pub closed spec fn spec_attack(self) -> u16 {
        self.attack
    }

    /// This character with its health replaced and every other stat kept.
    pub closed spec fn with_health(self, health: u16) -> Character {
        Character { health, ..self }
    }

    /// What `with_health` gives: the new health, every other stat as it was.
    pub proof fn lemma_with_health(self, health: u16)
        ensures
            self.with_health(health).spec_health() == health,
            same_but_health(self, self.with_health(health)),
    {
    }

    /// A fresh character starts at full health and stamina and without exhaustion.
    pub fn new(
        name: &'static str,
        alignment: CharacterAlignment,
        max_health: u16,
        max_stamina: u16,
        exhaustion_threshold: u16,
        speed: u16,
        attack: u16,
    ) -> (c: Character)
        ensures
            c.spec_name() == name,
            c.spec_alignment() == alignment,
            c.spec_max_health() == max_health,
            c.spec_health() == max_health,
            c.spec_max_stamina() == max_stamina,
            c.spec_stamina() == max_stamina,
            c.spec_exhaustion_threshold() == exhaustion_threshold,
            c.spec_exhaustion() == 0,
            c.spec_speed() == speed,
            c.spec_attack() == attack,
    {
        Character {
            name,
            alignment,
            max_health,
            health: max_health,
            max_stamina,
            stamina: max_stamina,
            exhaustion_threshold,
            exhaustion: 0,
            speed,
            attack,
        }
    }

    pub fn name(&self) -> (r: &'static str)
        ensures
            r == self.spec_name(),
    {
        self.name
    }

    pub fn alignment(&self) -> (r: &CharacterAlignment)
        ensures
            *r == self.spec_alignment(),
    {
        &self.alignment
    }

    /// A character is dead once its health is zero.
    pub fn is_dead(&self) -> (r: bool)
        ensures
            r == (self.spec_health() == 0),
    {
        self.health <= 0
    }

    /// The current health, which never exceeds the maximum health.
    pub fn health(&self) -> (r: u16)
        ensures
            r == self.spec_health(),
            r <= self.spec_max_health(),
    {
        proof {
            use_type_invariant(self);
        }
        self.health
    }

    pub fn max_health(&self) -> (r: u16)
        ensures
            r == self.spec_max_health(),
    {
        self.max_health
    }

    pub fn stamina(&self) -> (r: u16)
        ensures
            r == self.spec_stamina(),
    {
        self.stamina
    }

    pub fn max_stamina(&self) -> (r: u16)
        ensures
            r == self.spec_max_stamina(),
    {
        self.max_stamina
    }

    pub fn exhaustion(&self) -> (r: u16)
        ensures
            r == self.spec_exhaustion(),
    {
        self.exhaustion
    }

    pub fn exhaustion_threshold(&self) -> (r: u16)
        ensures
            r == self.spec_exhaustion_threshold(),
    {
        self.exhaustion_threshold
    }

    pub fn speed(&self) -> (r: u16)
        ensures
            r == self.spec_speed(),
    {
        self.speed
    }

    pub fn attack(&self) -> (r: u16)
        ensures
            r == self.spec_attack(),
    {
        self.attack
    }

    fn set_health(&mut self, health: u16)
        requires
            health <= old(self).spec_max_health(),
        ensures
            *final(self) == old(self).with_health(health),
    {
        self.health = health;
    }
}

/// Whom a skill may be aimed at, relative to its user.
#[derive(PartialEq, Eq, Structural, Clone, Copy, Debug)]
pub enum TargetGroup {
    Ownself,
    Friends,
    Enemies,
}

/// Whether `target` belongs to `group` as seen from `source`: friends share the
/// alignment but not the name, enemies differ in alignment and name, and the user
/// itself is recognised by its name.
pub open spec fn in_target_group(group: TargetGroup, source: Character, target: Character) -> bool {
    match group {
        TargetGroup::Friends => target.spec_alignment() == source.spec_alignment()
            && target.spec_name()@ != source.spec_name()@,
        TargetGroup::Enemies => target.spec_alignment() != source.spec_alignment()
            && target.spec_name()@ != source.spec_name()@,
        TargetGroup::Ownself => target.spec_name()@ == source.spec_name()@,
    }
}

/// Decides `in_target_group`.
pub fn is_in_target_group(group: &TargetGroup, source: &Character, target: &Character) -> (r: bool)
    ensures
        r == in_target_group(*group, *source, *target),
{
    match group {
        TargetGroup::Friends => *target.alignment() == *source.alignment() && !str_equal(
            target.name(),
            source.name(),
        ),
        TargetGroup::Enemies => *target.alignment() != *source.alignment() && !str_equal(
            target.name(),
            source.name(),
        ),
        TargetGroup::Ownself => str_equal(target.name(), source.name()),
    }
}

/// A plain attack: the target loses as much health as the user's attack value.
#[derive(Clone, Copy)]
pub struct AttackSkill {}

/// A heal of 10 health, capped at the target's maximum health.
#[derive(Clone, Copy)]
pub struct HealSkill {}

/// The time at which an action started at `current_time` by a character of
/// speed `speed` takes place.
pub open spec fn action_time(current_time: u64, speed: u16) -> int {
    current_time + speed
}

impl AttackSkill {
    pub fn target_groups(&self) -> (r: Vec<TargetGroup>)
        ensures
            r@ == seq![TargetGroup::Enemies],
    {
        vec![TargetGroup::Enemies]
    }

    pub fn name(&self) -> (r: SkillName)
        ensures
            r@ == "Attack"@,
    {
        SkillName::from_str("Attack")
    }

    /// The target loses `min(attack, health)` health; only the target changes.
    pub fn evaluate(&self, target: &mut Character, source: &Character)
        ensures
            *final(target) == old(target).with_health(
                attacked_health(old(target).spec_health(), source.spec_attack()),
            ),
            final(target).spec_health() == attacked_health(old(target).spec_health(), source.spec_attack()),
            same_but_health(*old(target), *final(target)),
    {
        proof {
            old(target).lemma_with_health(attacked_health(old(target).spec_health(), source.spec_attack()));
        }
        let attack = source.attack;
        let h = target.health;
        proof {
            use_type_invariant(&*target);
        }
        let damage = if attack < h {
            attack
        } else {
            h
        };
        target.set_health(h - damage);
    }

    /// Used without a target, the attack hits its own user.
    pub fn evaluate_on_self(&self, source: &mut Character)
        ensures
            *final(source) == old(source).with_health(
                attacked_health(old(source).spec_health(), old(source).spec_attack()),
            ),
            final(source).spec_health() == attacked_health(old(source).spec_health(), old(source).spec_attack()),
            same_but_health(*old(source), *final(source)),
    {
        proof {
            old(source).lemma_with_health(attacked_health(old(source).spec_health(), old(source).spec_attack()));
        }
        let attack = source.attack;
        let h = source.health;
        proof {
            use_type_invariant(&*source);
        }
        let damage = if attack < h {
            attack
        } else {
            h
        };
        source.set_health(h - damage);
    }

    pub fn get_time(&self, target: Option<&Character>, source: &Character, current_time: u64) -> (r:
        u64)
        requires
            action_time(current_time, source.spec_speed()) <= u64::MAX,
        ensures
            r == action_time(current_time, source.spec_speed()),
    {
        current_time + source.speed as u64
    }
}

impl HealSkill {
    pub fn target_groups(&self) -> (r: Vec<TargetGroup>)
        ensures
            r@ == seq![TargetGroup::Friends, TargetGroup::Ownself],
    {
        vec![TargetGroup::Friends, TargetGroup::Ownself]
    }

    pub fn name(&self) -> (r: SkillName)
        ensures
            r@ == "Heal"@,
    {
        SkillName::from_str("Heal")
    }

    /// The target regains `min(10, max_health - health)`; only the target changes.
    pub fn evaluate(&self, target: &mut Character, source: &Character)
        ensures
            *final(target) == old(target).with_health(
                healed_health(old(target).spec_health(), old(target).spec_max_health()),
            ),
            final(target).spec_health() == healed_health(old(target).spec_health(), old(target).spec_max_health()),
            same_but_health(*old(target), *final(target)),
            final(target).spec_health() == if old(target).spec_health() + 10 <= old(target).spec_max_health() {
                old(target).spec_health() + 10
            } else {
                old(target).spec_max_health() as int
            },
    {
        proof {
            use_type_invariant(&*target);
            old(target).lemma_with_health(healed_health(old(target).spec_health(), old(target).spec_max_health()));
            law_heal_restores_up_to_ten(old(target).spec_health(), old(target).spec_max_health());
        }
        Self::heal(target);
    }

    /// Used without a target, the heal restores its own user.
    pub fn evaluate_on_self(&self, source: &mut Character)
        ensures
            *final(source) == old(source).with_health(
                healed_health(old(source).spec_health(), old(source).spec_max_health()),
            ),
            final(source).spec_health() == healed_health(old(source).spec_health(), old(source).spec_max_health()),
            same_but_health(*old(source), *final(source)),
    {
        proof {
            old(source).lemma_with_health(healed_health(old(source).spec_health(), old(source).spec_max_health()));
        }
        Self::heal(source);
    }

    fn heal(c: &mut Character)
        ensures
            *final(c) == old(c).with_health(
                healed_health(old(c).spec_health(), old(c).spec_max_health()),
            ),
    {
        proof {
            use_type_invariant(&*c);
        }
        let heal: u16 = HEAL_AMOUNT;
        let missing = c.max_health - c.health;
        let amount = if heal < missing {
            heal
        } else {
            missing
        };
        let h = c.health + amount;
        c.set_health(h);
    }

    pub fn get_time(&self, target: Option<&Character>, source: &Character, current_time: u64) -> (r:
        u64)
        requires
            action_time(current_time, source.spec_speed()) <= u64::MAX,
        ensures
            r == action_time(current_time, source.spec_speed()),
    {
        current_time + source.speed as u64
    }
}

/// The skills a character can use.
#[derive(Clone, Copy)]
pub enum Skill {
    Attack(AttackSkill),
    Heal(HealSkill),
}

/// The name under which a skill is offered.
pub open spec fn skill_name(s: Skill) -> Seq<char> {
    match s {
        Skill::Attack(_) => "Attack"@,
        Skill::Heal(_) => "Heal"@,
    }
}

/// The groups a skill may target.
pub open spec fn skill_target_groups(s: Skill) -> Seq<TargetGroup> {
    match s {
        Skill::Attack(_) => seq![TargetGroup::Enemies],
        Skill::Heal(_) => seq![TargetGroup::Friends, TargetGroup::Ownself],
    }
}

/// The health of a character hit by skill `s` whose user is `source`.
pub open spec fn skill_result(s: Skill, target: Character, source: Character) -> u16 {
    match s {
        Skill::Attack(_) => attacked_health(target.spec_health(), source.spec_attack()),
        Skill::Heal(_) => healed_health(target.spec_health(), target.spec_max_health()),
    }
}

impl Skill {
    pub fn name(&self) -> (r: SkillName)
        ensures
            r@ == skill_name(*self),
    {
        match self {
            Skill::Attack(a) => a.name(),
            Skill::Heal(h) => h.name(),
        }
    }

    pub fn target_groups(&self) -> (r: Vec<TargetGroup>)
        ensures
            r@ == skill_target_groups(*self),
    {
        match self {
            Skill::Attack(a) => a.target_groups(),
            Skill::Heal(h) => h.target_groups(),
        }
    }

    pub fn evaluate(&self, target: &mut Character, source: &Character)
        ensures
            *final(target) == old(target).with_health(skill_result(*self, *old(target), *source)),
            final(target).spec_health() == skill_result(*self, *old(target), *source),
            same_but_health(*old(target), *final(target)),
    {
        match self {
            Skill::Attack(a) => a.evaluate(target, source),
            Skill::Heal(h) => h.evaluate(target, source),
        }
    }

    pub fn evaluate_on_self(&self, source: &mut Character)
        ensures
            *final(source) == old(source).with_health(
                skill_result(*self, *old(source), *old(source)),
            ),
            final(source).spec_health() == skill_result(*self, *old(source), *old(source)),
            same_but_health(*old(source), *final(source)),
    {
        match self {
            Skill::Attack(a) => a.evaluate_on_self(source),
            Skill::Heal(h) => h.evaluate_on_self(source),
        }
    }

    pub fn get_time(&self, target: Option<&Character>, source: &Character, current_time: u64) -> (r:
        u64)
        requires
            action_time(current_time, source.spec_speed()) <= u64::MAX,
        ensures
            r == action_time(current_time, source.spec_speed()),
    {
        match self {
            Skill::Attack(a) => a.get_time(target, source, current_time),
            Skill::Heal(h) => h.get_time(target, source, current_time),
        }
    }
}

/// A behaviour that never plans anything.
#[derive(Clone, Copy)]
pub struct NoKI;

/// A behaviour that attacks the first friendly character with its first skill.
#[derive(Clone, Copy)]
pub struct SimpleKI;

/// The index of the first friendly character in `cs`, if any.
pub open spec fn first_friendly(cs: Seq<Character>) -> Option<int> {
    if exists|i: int| 0 <= i < cs.len() && cs[i].spec_alignment() == CharacterAlignment::Friendly {
        Some(
            choose|i: int|
                0 <= i < cs.len() && cs[i].spec_alignment() == CharacterAlignment::Friendly && forall|
                    j: int,
                |
                    0 <= j < i ==> cs[j].spec_alignment() != CharacterAlignment::Friendly,
        )
    } else {
        None
    }
}

/// Finds the first friendly character.
pub fn find_first_friendly(cs: &Vec<Character>) -> (r: Option<usize>)
    ensures
        match r {
            Some(i) => i < cs.len() && cs@[i as int].spec_alignment() == CharacterAlignment::Friendly
                && forall|j: int|
                0 <= j < i ==> cs@[j].spec_alignment() != CharacterAlignment::Friendly,
            None => forall|j: int|
                0 <= j < cs.len() ==> cs@[j].spec_alignment() != CharacterAlignment::Friendly,
        },
        r matches Some(i) ==> first_friendly(cs@) == Some(i as int),
        r is None <==> first_friendly(cs@) is None,
{
    let mut i: usize = 0;
    while i < cs.len()
        invariant
            i <= cs.len(),
            forall|j: int| 0 <= j < i ==> cs@[j].spec_alignment() != CharacterAlignment::Friendly,
        decreases cs.len() - i,
    {
        if *cs[i].alignment() == CharacterAlignment::Friendly {
            proof {
                let k = choose|k: int|
                    0 <= k < cs@.len() && cs@[k].spec_alignment() == CharacterAlignment::Friendly
                        && forall|j: int|
                        0 <= j < k ==> cs@[j].spec_alignment() != CharacterAlignment::Friendly;
                assert(0 <= i < cs@.len() && cs@[i as int].spec_alignment()
                    == CharacterAlignment::Friendly && forall|j: int|
                    0 <= j < i ==> cs@[j].spec_alignment() != CharacterAlignment::Friendly);
                if k < i {
                } else if k > i {
                    assert(cs@[i as int].spec_alignment() != CharacterAlignment::Friendly);
                }
            }
            return Some(i);
        }
        i = i + 1;
    }
    None
}

/// The action a simple behaviour plans for the character at `character_index`,
/// given the other combatants `others`: its first skill aimed at the first
/// friendly one among them, at the time that skill takes.
pub open spec fn simple_ki_action(
    character_index: usize,
    character: Character,
    others: Seq<Character>,
    current_time: u64,
) -> (u64, usize, usize, usize) {
    (
        action_time(current_time, character.spec_speed()) as u64,
        character_index,
        0usize,
        first_friendly(others).unwrap() as usize,
    )
}

impl NoKI {
    /// Plans nothing.
    pub fn ki(
        &self,
        character_index: usize,
        character: &Character,
        skills: &Vec<Skill>,
        action_manager: &mut BattleActionManager,
        characters: &Vec<Character>,
        current_time: u64,
    )
        ensures
            *final(action_manager) == *old(action_manager),
    {
    }
}

impl SimpleKI {
    /// Queues the first skill against the first friendly character among `characters`.
    pub fn ki(
        &self,
        character_index: usize,
        character: &Character,
        skills: &Vec<Skill>,
        action_manager: &mut BattleActionManager,
        characters: &Vec<Character>,
        current_time: u64,
    )
        requires
            first_friendly(characters@) is Some,
            skills.len() > 0,
            action_time(current_time, character.spec_speed()) <= u64::MAX,
        ensures
            final(action_manager)@ == old(action_manager).queued(
                simple_ki_action(character_index, *character, characters@, current_time),
            ),
    {
        let target_index = match find_first_friendly(characters) {
            Some(i) => i,
            None => {
                return ;
            },
        };
        let skill_index: usize = 0;
        let skill = &skills[skill_index];
        let action = BattleAction::new(
            skill.get_time(Some(&characters[target_index]), character, current_time),
            character_index,
            skill_index,
            target_index,
        );
        action_manager.queue_action(action);
    }
}

/// How a character chooses its actions.
#[derive(Clone, Copy)]
pub enum KIBehavior {
    Passive(NoKI),
    Simple(SimpleKI),
}

/// A character together with its skills and its battle behaviour.
pub struct SkilledCharacter {
    character: Character,
    skills: Vec<Skill>,
    ki: KIBehavior,
}

impl SkilledCharacter {
    pub closed spec fn spec_skills(&self) -> Seq<Skill> {
        self.skills@
    }

    pub closed spec fn spec_ki(&self) -> KIBehavior {
        self.ki
    }

    pub closed spec fn spec_character(&self) -> Character {
        self.character
    }

    /// This character with its stats replaced and its skills and behaviour kept.
    pub closed spec fn with_character(self, c: Character) -> SkilledCharacter {
        SkilledCharacter { character: c, ..self }
    }

    /// What `with_character` gives: the new stats, the same skills and behaviour.
    pub proof fn lemma_with_character(self, c: Character)
        ensures
            self.with_character(c).spec_character() == c,
            self.with_character(c).spec_skills() == self.spec_skills(),
            self.with_character(c).spec_ki() == self.spec_ki(),
    {
    }

    pub fn character(&self) -> (r: &Character)
        ensures
            *r == self.spec_character(),
    {
        &self.character
    }

    pub fn new(character: Character, skills: Vec<Skill>, ki: KIBehavior) -> (r: SkilledCharacter)
        ensures
            r.spec_character() == character,
            r.spec_skills() == skills@,
            r.spec_ki() == ki,
    {
        SkilledCharacter { character, skills, ki }
    }

    pub fn get_skills(&self) -> (r: &Vec<Skill>)
        ensures
            r@ == self.spec_skills(),
    {
        &self.skills
    }

    pub fn get_ki(&self) -> (r: KIBehavior)
        ensures
            r == self.spec_ki(),
    {
        self.ki
    }

    /// Uses skill `skill_index` on `target`: only the target's health changes.
    pub fn activate_skill(&self, skill_index: usize, target: &mut SkilledCharacter)
        requires
            skill_index < self.spec_skills().len(),
        ensures
            *final(target) == old(target).with_character(
                old(target).spec_character().with_health(
                    skill_result(
                        self.spec_skills()[skill_index as int],
                        old(target).spec_character(),
                        self.spec_character(),
                    ),
                ),
            ),
            final(target).spec_character().spec_health() == skill_result(self.spec_skills()[skill_index as int], old(target).spec_character(), self.spec_character()),
            same_but_health(old(target).spec_character(), final(target).spec_character()),
            final(target).spec_skills() == old(target).spec_skills(),
            final(target).spec_ki() == old(target).spec_ki(),
    {
        proof {
            let h = skill_result(self.spec_skills()[skill_index as int], old(target).spec_character(), self.spec_character());
            old(target).spec_character().lemma_with_health(h);
            old(target).lemma_with_character(old(target).spec_character().with_health(h));
        }
        let skill = self.skills[skill_index];
        target.receive_skill(skill, &self.character);
    }

    /// Uses skill `skill_index` on this character itself.
    pub fn activate_skill_on_self(&mut self, skill_index: usize)
        requires
            skill_index < old(self).spec_skills().len(),
        ensures
            *final(self) == old(self).with_character(
                old(self).spec_character().with_health(
                    skill_result(
                        old(self).spec_skills()[skill_index as int],
                        old(self).spec_character(),
                        old(self).spec_character(),
                    ),
                ),
            ),
            final(self).spec_character().spec_health() == skill_result(old(self).spec_skills()[skill_index as int], old(self).spec_character(), old(self).spec_character()),
            same_but_health(old(self).spec_character(), final(self).spec_character()),
            final(self).spec_skills() == old(self).spec_skills(),
            final(self).spec_ki() == old(self).spec_ki(),
    {
        proof {
            let h = skill_result(old(self).spec_skills()[skill_index as int], old(self).spec_character(), old(self).spec_character());
            old(self).spec_character().lemma_with_health(h);
            old(self).lemma_with_character(old(self).spec_character().with_health(h));
        }
        let skill = self.skills[skill_index];
        skill.evaluate_on_self(&mut self.character);
    }

    /// Takes the effect of `skill` used by `source`.
    pub fn receive_skill(&mut self, skill: Skill, source: &Character)
        ensures
            *final(self) == old(self).with_character(
                old(self).spec_character().with_health(
                    skill_result(skill, old(self).spec_character(), *source),
                ),
            ),
            final(self).spec_character().spec_health() == skill_result(skill, old(self).spec_character(), *source),
            same_but_health(old(self).spec_character(), final(self).spec_character()),
            final(self).spec_skills() == old(self).spec_skills(),
            final(self).spec_ki() == old(self).spec_ki(),
    {
        proof {
            let h = skill_result(skill, old(self).spec_character(), *source);
            old(self).spec_character().lemma_with_health(h);
            old(self).lemma_with_character(old(self).spec_character().with_health(h));
        }
        skill.evaluate(&mut self.character, source);
    }

    /// Lets this character's behaviour plan its next action.
    pub fn ki(
        &self,
        source_index: usize,
        characters: &Vec<Character>,
        actions: &mut BattleActionManager,
        current_time: u64,
    )
        requires
            ki_can_plan(*self, characters@, current_time),
        ensures
            final(actions)@ == ki_plan(*self, source_index, characters@, current_time, old(actions)@),
    {
        match self.ki {
            KIBehavior::Passive(k) => k.ki(
                source_index,
                &self.character,
                &self.skills,
                actions,
                characters,
                current_time,
            ),
            KIBehavior::Simple(k) => k.ki(
                source_index,
                &self.character,
                &self.skills,
                actions,
                characters,
                current_time,
            ),
        }
    }
}

/// Whether the behaviour of `c` can plan among `others` without failing.
pub open spec fn ki_can_plan(c: SkilledCharacter, others: Seq<Character>, current_time: u64) -> bool {
    match c.spec_ki() {
        KIBehavior::Passive(_) => true,
        KIBehavior::Simple(_) => {
            &&& first_friendly(others) is Some
            &&& c.spec_skills().len() > 0
            &&& action_time(current_time, c.spec_character().spec_speed()) <= u64::MAX
        },
    }
}

/// The action queue after `c`, at `index`, has planned among `others`.
pub open spec fn ki_plan(
    c: SkilledCharacter,
    index: usize,
    others: Seq<Character>,
    current_time: u64,
    queue: Seq<ActionView>,
) -> Seq<ActionView> {
    match c.spec_ki() {
        KIBehavior::Passive(_) => queue,
        KIBehavior::Simple(_) => crate::battle_action::insert_sorted(
            queue,
            simple_ki_action(index, c.spec_character(), others, current_time),
        ),
    }
}

/// Bia Karui's maximum health.
pub const MAX_HEALTH: u16 = 100;

/// Bia Karui's maximum stamina.
pub const MAX_STAMINA: u16 = 100;

/// Bia Karui's exhaustion threshold.
pub const EXHAUSTION_THRESHOLD: u16 = 100;

/// The protagonist, Bia Karui (from Bianca, latin = white, Akarui, japanese = bright).
#[derive(Debug)]
pub struct BiaKarui {
    health: u16,
    stamina: u16,
    exhaustion: u16,
}

impl BiaKarui {
    #[verifier::type_invariant]
    spec fn health_in_range(self) -> bool {
        self.health <= MAX_HEALTH
    }

    pub closed spec fn spec_stats(&self) -> (u16, u16, u16) {
        (self.health, self.stamina, self.exhaustion)
    }

    /// Bia Karui as a friendly fighter: speed 10, attack 10, the attack and the
    /// heal skill, no battle behaviour of her own.
    pub fn build(self) -> (r: SkilledCharacter)
        ensures
            r.spec_character().spec_name() == "Bia Karui",
            r.spec_character().spec_alignment() == CharacterAlignment::Friendly,
            r.spec_character().spec_max_health() == MAX_HEALTH,
            r.spec_character().spec_health() == self.spec_stats().0,
            r.spec_character().spec_max_stamina() == MAX_STAMINA,
            r.spec_character().spec_stamina() == self.spec_stats().1,
            r.spec_character().spec_exhaustion_threshold() == EXHAUSTION_THRESHOLD,
            r.spec_character().spec_exhaustion() == self.spec_stats().2,
            r.spec_character().spec_speed() == 10,
            r.spec_character().spec_attack() == 10,
            r.spec_skills() == seq![Skill::Attack(AttackSkill {}), Skill::Heal(HealSkill {})],
            r.spec_ki() == KIBehavior::Passive(NoKI),
    {
        proof {
            use_type_invariant(&self);
        }
        let mut skills: Vec<Skill> = Vec::new();
        skills.push(Skill::Attack(AttackSkill {}));
        skills.push(Skill::Heal(HealSkill {}));
        let character = Character {
            name: "Bia Karui",
            alignment: CharacterAlignment::Friendly,
            max_health: MAX_HEALTH,
            health: self.health,
            max_stamina: MAX_STAMINA,
            stamina: self.stamina,
            exhaustion_threshold: EXHAUSTION_THRESHOLD,
            exhaustion: self.exhaustion,
            speed: 10,
            attack: 10,
        };
        assert(skills@ =~= seq![Skill::Attack(AttackSkill {}), Skill::Heal(HealSkill {})]);
        SkilledCharacter::new(character, skills, KIBehavior::Passive(NoKI))
    }
}

impl Default for BiaKarui {
    /// Full health and stamina, exhaustion at its threshold.
    fn default() -> (r: BiaKarui)
        ensures
            r.spec_stats() == (MAX_HEALTH, MAX_STAMINA, EXHAUSTION_THRESHOLD),
    {
        BiaKarui { health: MAX_HEALTH, stamina: MAX_STAMINA, exhaustion: EXHAUSTION_THRESHOLD }
    }
}

/// How a character's button looks: the default style or a picture from a sprite sheet.
pub enum ButtonStyle {
    Default,
    BackgroundImage(SpriteSheetName),
}

/// A bar showing one stat of a character against its maximum.
#[derive(Clone, Copy, Debug)]
pub struct ProgressBar {
    pub name: &'static str,
    pub value: u16,
    pub max: u16,
}

/// What the interface shows of a character: a button named after it, in a
/// style, that may be focused and highlighted, and its stat bars.
pub struct CharacterGui {
    button_name: &'static str,
    style: ButtonStyle,
    focused: bool,
    highlighted: bool,
    bars: Vec<ProgressBar>,
}

/// The health, stamina and exhaustion bars of a character, in that order.
pub open spec fn stat_bars(c: Character) -> Seq<ProgressBar> {
    seq![
        ProgressBar { name: "health", value: c.spec_health(), max: c.spec_max_health() },
        ProgressBar { name: "stamina", value: c.spec_stamina(), max: c.spec_max_stamina() },
        ProgressBar {
            name: "exhaustion",
            value: c.spec_exhaustion(),
            max: c.spec_exhaustion_threshold(),
        },
    ]
}

fn character_bars(character: &Character) -> (r: Vec<ProgressBar>)
    ensures
        r@ == stat_bars(*character),
{
    let mut bars: Vec<ProgressBar> = Vec::new();
    bars.push(ProgressBar { name: "health", value: character.health(), max: character.max_health() });
    bars.push(
        ProgressBar { name: "stamina", value: character.stamina(), max: character.max_stamina() },
    );
    bars.push(
        ProgressBar {
            name: "exhaustion",
            value: character.exhaustion(),
            max: character.exhaustion_threshold(),
        },
    );
    assert(bars@ =~= stat_bars(*character));
    bars
}

impl CharacterGui {
    pub closed spec fn spec_button_name(&self) -> &'static str {
        self.button_name
    }

    pub closed spec fn spec_focused(&self) -> bool {
        self.focused
    }

    pub closed spec fn spec_highlighted(&self) -> bool {
        self.highlighted
    }

    pub closed spec fn spec_bars(&self) -> Seq<ProgressBar> {
        self.bars@
    }

    pub closed spec fn spec_style_sheet(&self) -> Option<Seq<char>> {
        match self.style {
            ButtonStyle::Default => None,
            ButtonStyle::BackgroundImage(s) => Some(s@),
        }
    }

    /// A gui with a button of the given style named after the character and its stat bars.
    pub fn with_button_style_and_character(style: ButtonStyle, character: &Character) -> (r:
        CharacterGui)
        ensures
            r.spec_button_name() == character.spec_name(),
            r.spec_style_sheet() == (match style {
                ButtonStyle::Default => None,
                ButtonStyle::BackgroundImage(s) => Some(s@),
            }),
            !r.spec_focused(),
            !r.spec_highlighted(),
            r.spec_bars() == stat_bars(*character),
    {
        CharacterGui {
            button_name: character.name(),
            style,
            focused: false,
            highlighted: false,
            bars: character_bars(character),
        }
    }

    /// Highlights the button or takes the highlight off; nothing else changes.
    pub fn set_highlighted(&mut self, highlighted: bool)
        ensures
            final(self).spec_highlighted() == highlighted,
            final(self).spec_button_name() == old(self).spec_button_name(),
            final(self).spec_focused() == old(self).spec_focused(),
            final(self).spec_bars() == old(self).spec_bars(),
            final(self).spec_style_sheet() == old(self).spec_style_sheet(),
    {
        self.highlighted = highlighted;
    }

    pub fn is_highlighted(&self) -> (r: bool)
        ensures
            r == self.spec_highlighted(),
    {
        self.highlighted
    }

    pub fn bars(&self) -> (r: &Vec<ProgressBar>)
        ensures
            r@ == self.spec_bars(),
    {
        &self.bars
    }

    pub fn button_name(&self) -> (r: &'static str)
        ensures
            r == self.spec_button_name(),
    {
        self.button_name
    }
}

/// The detail view of a character: a focused button on the detail overlay with
/// the character's stat bars.
fn detail_gui(style: ButtonStyle, character: &SkilledCharacter) -> (r: CharacterGui)
    ensures
        r.spec_button_name() == BATTLE_DETAIL_OVERLAY,
        r.spec_style_sheet() == (match style {
            ButtonStyle::Default => None,
            ButtonStyle::BackgroundImage(s) => Some(s@),
        }),
        r.spec_focused(),
        !r.spec_highlighted(),
        r.spec_bars() == stat_bars(character.spec_character()),
{
    CharacterGui {
        button_name: BATTLE_DETAIL_OVERLAY,
        style,
        focused: true,
        highlighted: false,
        bars: character_bars(character.character()),
    }
}

/// The interface of characters without a picture of their own.
pub struct DefaultGui {}

impl DefaultGui {
    /// The character's gui in the default style.
    pub fn create_gui(&self, character: &SkilledCharacter) -> (r: CharacterGui)
        ensures
            r.spec_button_name() == character.spec_character().spec_name(),
            r.spec_style_sheet() == None::<Seq<char>>,
            !r.spec_focused(),
            !r.spec_highlighted(),
            r.spec_bars() == stat_bars(character.spec_character()),
    {
        CharacterGui::with_button_style_and_character(ButtonStyle::Default, character.character())
    }

    /// The character's detail view in the default style.
    pub fn create_detail_gui(&self, character: &SkilledCharacter) -> (r: CharacterGui)
        ensures
            r.spec_button_name() == BATTLE_DETAIL_OVERLAY,
            r.spec_style_sheet() == None::<Seq<char>>,
            r.spec_focused(),
            r.spec_bars() == stat_bars(character.spec_character()),
    {
        detail_gui(ButtonStyle::Default, character)
    }
}

/// The sprite sheet of Bia Karui's picture.
pub const BIA_KARUI_SHEET: &'static str = "characters\\bia_karui";

/// Bia Karui's interface: her picture on the button.
pub struct BiaKaruiGui;

impl BiaKaruiGui {
    /// Her gui, with her picture.
    pub fn create_gui(&self, character: &SkilledCharacter) -> (r: CharacterGui)
        ensures
            r.spec_button_name() == character.spec_character().spec_name(),
            r.spec_style_sheet() == Some(BIA_KARUI_SHEET@),
            !r.spec_focused(),
            !r.spec_highlighted(),
            r.spec_bars() == stat_bars(character.spec_character()),
    {
        let style = ButtonStyle::BackgroundImage(SpriteSheetName::from_str(BIA_KARUI_SHEET));
        CharacterGui::with_button_style_and_character(style, character.character())
    }

    /// Her detail view, with her picture.
    pub fn create_detail_gui(&self, character: &SkilledCharacter) -> (r: CharacterGui)
        ensures
            r.spec_button_name() == BATTLE_DETAIL_OVERLAY,
            r.spec_style_sheet() == Some(BIA_KARUI_SHEET@),
            r.spec_focused(),
            r.spec_bars() == stat_bars(character.spec_character()),
    {
        let style = ButtonStyle::BackgroundImage(SpriteSheetName::from_str(BIA_KARUI_SHEET));
        detail_gui(style, character)
    }
}

} // verus!

//! The events the game logic receives and the requests it answers with.
use vstd::prelude::*;

use crate::character::Character;
use crate::names::{EntityName, SceneName, SkillName};

verus! {

/// The keys the game reacts to.
#[derive(PartialEq, Eq, Structural, Clone, Copy, Debug)]
pub enum KeyCode {
    Enter,
    Space,
    KeyX,
    KeyC,
    Other,
}

/// Whether a scene is drawn.
#[derive(PartialEq, Eq, Structural, Clone, Copy, Debug)]
pub enum Visibility {
    Visible,
    Hidden,
}

/// Steps of a battle round.
#[derive(PartialEq, Eq, Structural, Clone, Copy, Debug)]
pub enum BattleEvent {
    NextAction,
    ActionConsequences,
}

/// Messages for a single entity.
pub enum EntityEvent {
    BattleHighlightValidSkillTargets(Vec<EntityName>),
    AnimateAction(Vec<Character>),
    CharacterDeath(EntityName),
}

/// Interface elements the game asks to be added to a scene.
pub enum UiRequest {
    /// A line of buttons, one per skill name, named `ACTION_SELECTION_LINE`.
    SkillButtons(Vec<SkillName>),
    /// A detail view of one character, named `CHARACTER_DETAIL_LINE`.
    CharacterDetail(Character),
}

/// Everything that travels between the game logic and the engine.
pub enum Event {
    EndGame,
    NewScene(SceneName),
    AnimationEnded(EntityName),
    RequestSuspendScene(SceneName),
    RequestActivateSuspendedScene(SceneName),
    RequestDeleteScene(SceneName),
    RequestDeleteEntity(EntityName, SceneName),
    RequestSetVisibilityScene(SceneName, Visibility),
    ButtonPressed(EntityName, KeyCode),
    BattleEvent(BattleEvent),
    RequestAddEntities(UiRequest, SceneName),
    EntityEvent(EntityName, EntityEvent),
    RequestRenderScene(SceneName),
}

/// An entity event as plain values.
pub enum EntityEventV {
    Highlight(Seq<Seq<char>>),
    Animate(Seq<Character>),
    Death(Seq<char>),
}

/// A user-interface request as plain values.
pub enum UiRequestV {
    SkillButtons(Seq<Seq<char>>),
    CharacterDetail(Character),
}

/// An event as plain values.
pub enum EventV {
    EndGame,
    NewScene(Seq<char>),
    AnimationEnded(Seq<char>),
    SuspendScene(Seq<char>),
    ActivateSuspendedScene(Seq<char>),
    DeleteScene(Seq<char>),
    DeleteEntity(Seq<char>, Seq<char>),
    SetVisibilityScene(Seq<char>, Visibility),
    ButtonPressed(Seq<char>, KeyCode),
    Battle(BattleEvent),
    AddEntities(UiRequestV, Seq<char>),
    Entity(Seq<char>, EntityEventV),
    RenderScene(Seq<char>),
}

pub open spec fn entity_names_view(v: Seq<EntityName>) -> Seq<Seq<char>> {
    v.map_values(|n: EntityName| n@)
}

pub open spec fn skill_names_view(v: Seq<SkillName>) -> Seq<Seq<char>> {
    v.map_values(|n: SkillName| n@)
}

impl View for EntityEvent {
    type V = EntityEventV;

    open spec fn view(&self) -> EntityEventV {
        match self {
            EntityEvent::BattleHighlightValidSkillTargets(v) => EntityEventV::Highlight(
                entity_names_view(v@),
            ),
            EntityEvent::AnimateAction(v) => EntityEventV::Animate(v@),
            EntityEvent::CharacterDeath(n) => EntityEventV::Death(n@),
        }
    }
}

impl View for UiRequest {
    type V = UiRequestV;

    open spec fn view(&self) -> UiRequestV {
        match self {
            UiRequest::SkillButtons(v) => UiRequestV::SkillButtons(skill_names_view(v@)),
            UiRequest::CharacterDetail(c) => UiRequestV::CharacterDetail(*c),
        }
    }
}

impl View for Event {
    type V = EventV;

    open spec fn view(&self) -> EventV {
        match self {
            Event::EndGame => EventV::EndGame,
            Event::NewScene(s) => EventV::NewScene(s@),
            Event::AnimationEnded(e) => EventV::AnimationEnded(e@),
            Event::RequestSuspendScene(s) => EventV::SuspendScene(s@),
            Event::RequestActivateSuspendedScene(s) => EventV::ActivateSuspendedScene(s@),
            Event::RequestDeleteScene(s) => EventV::DeleteScene(s@),
            Event::RequestDeleteEntity(e, s) => EventV::DeleteEntity(e@, s@),
            Event::RequestSetVisibilityScene(s, v) => EventV::SetVisibilityScene(s@, *v),
            Event::ButtonPressed(e, k) => EventV::ButtonPressed(e@, *k),
            Event::BattleEvent(b) => EventV::Battle(*b),
            Event::RequestAddEntities(r, s) => EventV::AddEntities(r@, s@),
            Event::EntityEvent(e, ev) => EventV::Entity(e@, ev@),
            Event::RequestRenderScene(s) => EventV::RenderScene(s@),
        }
    }
}

/// A list of events as plain values.
pub open spec fn events_view(v: Seq<Event>) -> Seq<EventV> {
    v.map_values(|e: Event| e@)
}

impl Event {
    /// The scene to draw, for a render request.
    pub fn is_request_render_scene(&self) -> (r: Option<&SceneName>)
        ensures
            match self@ {
                EventV::RenderScene(s) => r matches Some(n) && n@ == s,
                _ => r is None,
            },
    {
        match self {
            Event::RequestRenderScene(scene) => Some(scene),
            _ => None,
        }
    }

    /// The scene and its new visibility, for a visibility request.
    pub fn is_request_set_visibility_scene(&self) -> (r: Option<(&SceneName, &Visibility)>)
        ensures
            match self@ {
                EventV::SetVisibilityScene(s, v) => r matches Some(p) && p.0@ == s && *p.1 == v,
                _ => r is None,
            },
    {
        match self {
            Event::RequestSetVisibilityScene(scene, visibility) => Some((scene, visibility)),
            _ => None,
        }
    }

    /// The scene to suspend, for a suspension request.
    pub fn is_request_suspend_scene(&self) -> (r: Option<&SceneName>)
        ensures
            match self@ {
                EventV::SuspendScene(s) => r matches Some(n) && n@ == s,
                _ => r is None,
            },
    {
        match self {
            Event::RequestSuspendScene(scene) => Some(scene),
            _ => None,
        }
    }

    /// The scene to show again, for such a request.
    pub fn is_request_activate_suspended_scene(&self) -> (r: Option<&SceneName>)
        ensures
            match self@ {
                EventV::ActivateSuspendedScene(s) => r matches Some(n) && n@ == s,
                _ => r is None,
            },
    {
        match self {
            Event::RequestActivateSuspendedScene(scene) => Some(scene),
            _ => None,
        }
    }

    /// The scene to delete, for a deletion request.
    pub fn is_request_delete_scene(&self) -> (r: Option<&SceneName>)
        ensures
            match self@ {
                EventV::DeleteScene(s) => r matches Some(n) && n@ == s,
                _ => r is None,
            },
    {
        match self {
            Event::RequestDeleteScene(scene) => Some(scene),
            _ => None,
        }
    }

    /// The event announcing that `scene` is shown.
    pub fn new_scene(scene: &SceneName) -> (r: Event)
        ensures
            r@ == EventV::NewScene(scene@),
    {
        Event::NewScene(scene.clone_name())
    }

    /// The entity and the scene it leaves, for an entity deletion request.
    pub fn is_delete_entity(&self) -> (r: Option<(&EntityName, &SceneName)>)
        ensures
            match self@ {
                EventV::DeleteEntity(e, s) => r matches Some(p) && p.0@ == e && p.1@ == s,
                _ => r is None,
            },
    {
        match self {
            Event::RequestDeleteEntity(entity, scene) => Some((entity, scene)),
            _ => None,
        }
    }

    pub fn is_add_entities(&self) -> (r: bool)
        ensures
            r == (self@ is AddEntities),
    {
        match self {
            Event::RequestAddEntities(_, _) => true,
            _ => false,
        }
    }

    /// What to add and where, for a request to add interface elements.
    pub fn consume_add_entities_request(self) -> (r: Option<(UiRequest, SceneName)>)
        ensures
            match self@ {
                EventV::AddEntities(u, s) => r matches Some(p) && p.0@ == u && p.1@ == s,
                _ => r is None,
            },
    {
        match self {
            Event::RequestAddEntities(request, scene) => Some((request, scene)),
            _ => None,
        }
    }

    pub fn is_end_game(&self) -> (r: bool)
        ensures
            r == (self@ is EndGame),
    {
        match self {
            Event::EndGame => true,
            _ => false,
        }
    }

    pub fn is_entity_event(&self) -> (r: bool)
        ensures
            r == (self@ is Entity),
    {
        match self {
            Event::EntityEvent(_, _) => true,
            _ => false,
        }
    }

    /// The addressee and the message, for an entity event.
    pub fn consume_entity_event(self) -> (r: Option<(EntityName, EntityEvent)>)
        ensures
            match self@ {
                EventV::Entity(n, e) => r matches Some(p) && p.0@ == n && p.1@ == e,
                _ => r is None,
            },
    {
        match self {
            Event::EntityEvent(entity, event) => Some((entity, event)),
            _ => None,
        }
    }
}

} // verus!

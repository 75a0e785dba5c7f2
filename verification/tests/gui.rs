use ferride::character::{BiaKarui, BiaKaruiGui, ButtonStyle, CharacterGui, DefaultGui};
use ferride::game_logic::BATTLE_DETAIL_OVERLAY;

#[test]
fn character_gui_shows_the_stats() {
    let bia = BiaKarui::default().build();
    let gui = DefaultGui {}.create_gui(&bia);
    assert_eq!(gui.button_name(), "Bia Karui");
    let bars: Vec<_> = gui.bars().iter().map(|b| (b.name, b.value, b.max)).collect();
    assert_eq!(bars, vec![("health", 100, 100), ("stamina", 100, 100), ("exhaustion", 100, 100)]);
    assert!(!gui.is_highlighted());
}

#[test]
fn highlight_can_be_set_and_taken_off() {
    let bia = BiaKarui::default().build();
    let mut gui: CharacterGui = CharacterGui::with_button_style_and_character(ButtonStyle::Default, bia.character());
    gui.set_highlighted(true);
    assert!(gui.is_highlighted());
    gui.set_highlighted(false);
    assert!(!gui.is_highlighted());
    assert_eq!(gui.bars().len(), 3);
}

#[test]
fn detail_views_sit_on_the_detail_overlay() {
    let bia = BiaKarui::default().build();
    let gui = BiaKaruiGui.create_detail_gui(&bia);
    assert_eq!(gui.button_name(), BATTLE_DETAIL_OVERLAY);
    let gui = BiaKaruiGui.create_gui(&bia);
    assert_eq!(gui.button_name(), "Bia Karui");
}

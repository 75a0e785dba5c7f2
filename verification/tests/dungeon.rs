use ferride::dungeon::{
    Direction, DungeonLayout, DungeonLayoutBuilder, DungeonLayoutBuilderErr, Edge, Malformation,
    Tile, Trap, Wall,
};

fn wall() -> Option<Edge> {
    Some(Edge::Wall(Wall))
}

fn trap() -> Option<Edge> {
    Some(Edge::Trap(Trap))
}

fn tile(
    left: Option<Edge>,
    up: Option<Edge>,
    right: Option<Edge>,
    down: Option<Edge>,
    trapped: bool,
) -> Tile {
    Tile {
        left,
        up,
        right,
        down,
        occupier: if trapped { Some(ferride::dungeon::Center::Trap(Trap)) } else { None },
    }
}

#[test]
fn build() {
    let example = DungeonLayout::new(
        vec![
            tile(wall(), wall(), None, None, false),
            tile(wall(), wall(), wall(), trap(), true),
            tile(None, wall(), wall(), None, false),
            tile(None, None, wall(), wall(), true),
        ],
        2,
    );
    let example_string = example.render();
    println!("{}", example_string);
    assert!(
        example_string
            == "\
|--|-|
|  |T|
|  |T|
--|  |
  | T|
  |--|"
    );
    let reverse: DungeonLayout = DungeonLayoutBuilder::default().build(&example_string).unwrap();
    assert!(reverse.render() == example_string);
}

#[test]
fn single_tile_round_trip() {
    let layout = DungeonLayout::new(vec![tile(wall(), trap(), wall(), None, true)], 1);
    let text = layout.render();
    assert_eq!(text, "|T|\n|T|\n| |");
    let back = DungeonLayoutBuilder::default().build(&text).unwrap();
    assert_eq!(back.width, 1);
    assert!(back.tiles == layout.tiles);
}

#[test]
fn empty_text_is_an_empty_dungeon() {
    let r = DungeonLayoutBuilder::default().build("");
    assert!(matches!(r, Err(DungeonLayoutBuilderErr::EmptyDungeon)));
}

#[test]
fn unknown_symbol_is_refused() {
    let r = DungeonLayoutBuilder::default().build("|x|\n| |\n| |");
    assert!(matches!(r, Err(DungeonLayoutBuilderErr::UnhandledSymbol('x'))));
}

#[test]
fn wall_symbol_on_wrong_side_is_refused() {
    let r = DungeonLayoutBuilder::default().build("|||\n| |\n| |");
    assert!(matches!(r, Err(DungeonLayoutBuilderErr::UnhandledSymbol('|'))));
}

#[test]
fn first_line_width_must_be_whole_tiles() {
    let r = DungeonLayoutBuilder::default().build("|-\n| |\n| |");
    assert!(matches!(
        r,
        Err(DungeonLayoutBuilderErr::MalformedLayout(Malformation::TileWidth { width: 2 }))
    ));
}

#[test]
fn leftover_lines_are_refused() {
    let r = DungeonLayoutBuilder::default().build("|-|\n| |\n|-|\n| |");
    match r {
        Err(DungeonLayoutBuilderErr::MalformedLayout(Malformation::TileHeight { leftover })) => {
            assert_eq!(leftover, vec!["| |".to_string()]);
        }
        _ => panic!("expected leftover lines"),
    }
}

#[test]
fn uneven_tile_lines_are_refused() {
    let r = DungeonLayoutBuilder::default().build("|-|\n| |  \n|-|");
    assert!(matches!(
        r,
        Err(DungeonLayoutBuilderErr::MalformedLayout(Malformation::UnevenTileLines {
            tile_line: 0
        }))
    ));
}

#[test]
fn rows_must_be_equally_wide() {
    let r = DungeonLayoutBuilder::default().build("|-||-|\n|  | |\n|-||-|\n|-|\n| |\n|-|");
    assert!(matches!(
        r,
        Err(DungeonLayoutBuilderErr::MalformedLayout(Malformation::TileLineWidth {
            expected: 6,
            found: 3,
            tile_line: 1
        }))
    ));
}

#[test]
fn default_factories_read_symbols() {
    let builder = DungeonLayoutBuilder::default();
    assert!(matches!(builder.default_edge_factory(' ', Direction::Up), Ok(None)));
    assert!(matches!(builder.default_edge_factory('T', Direction::Left), Ok(Some(Edge::Trap(_)))));
    assert!(matches!(builder.default_edge_factory('-', Direction::Down), Ok(Some(Edge::Wall(_)))));
    assert!(matches!(builder.default_edge_factory('|', Direction::Right), Ok(Some(Edge::Wall(_)))));
    assert!(matches!(
        builder.default_edge_factory('-', Direction::Left),
        Err(DungeonLayoutBuilderErr::UnhandledSymbol('-'))
    ));
    assert!(matches!(builder.default_center_factory(' '), Ok(None)));
    assert!(matches!(builder.default_center_factory('T'), Ok(Some(_))));
    assert!(matches!(
        builder.default_center_factory('#'),
        Err(DungeonLayoutBuilderErr::UnhandledSymbol('#'))
    ));
}

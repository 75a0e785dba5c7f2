//! Dungeon layouts drawn as text and read back from text.
//!
//! Every tile is drawn as three lines of three characters: the top line shows
//! the upper edge, the middle line the left edge, the occupier and the right
//! edge, the bottom line the lower edge. Rows of tiles are drawn one below the
//! other.
use vstd::prelude::*;

use crate::names::push_char;

verus! {

broadcast use vstd::seq_lib::group_seq_properties;

/// The side of a tile.
#[derive(PartialEq, Eq, Structural, Clone, Copy, Debug)]
pub enum Direction {
    Left,
    Up,
    Right,
    Down,
}

/// A wall, drawn as `|` on the left and right and as `-` above and below.
#[derive(PartialEq, Eq, Structural, Clone, Copy, Debug)]
pub struct Wall;

/// A trap, drawn as `T` wherever it is.
#[derive(PartialEq, Eq, Structural, Clone, Copy, Debug)]
pub struct Trap;

/// What can stand on the edge of a tile.
#[derive(PartialEq, Eq, Structural, Clone, Copy, Debug)]
pub enum Edge {
    Wall(Wall),
    Trap(Trap),
}

/// What can occupy the center of a tile.
#[derive(PartialEq, Eq, Structural, Clone, Copy, Debug)]
pub enum Center {
    Trap(Trap),
}

pub open spec fn edge_char(e: Edge, d: Direction) -> char {
    match e {
        Edge::Wall(_) => match d {
            Direction::Left | Direction::Right => '|',
            Direction::Up | Direction::Down => '-',
        },
        Edge::Trap(_) => 'T',
    }
}

pub open spec fn center_char(c: Center) -> char {
    match c {
        Center::Trap(_) => 'T',
    }
}

impl Edge {
    pub fn as_char(&self, direction: Direction) -> (r: char)
        ensures
            r == edge_char(*self, direction),
    {
        match self {
            Edge::Wall(_) => match direction {
                Direction::Left | Direction::Right => '|',
                Direction::Up | Direction::Down => '-',
            },
            Edge::Trap(_) => 'T',
        }
    }
}

impl Center {
    pub fn as_char(&self) -> (r: char)
        ensures
            r == center_char(*self),
    {
        match self {
            Center::Trap(_) => 'T',
        }
    }
}

/// One field of the dungeon with what stands on its four edges and in its center.
#[derive(PartialEq, Eq, Structural, Clone, Copy, Debug)]
pub struct Tile {
    pub left: Option<Edge>,
    pub up: Option<Edge>,
    pub right: Option<Edge>,
    pub down: Option<Edge>,
    pub occupier: Option<Center>,
}

/// The edge symbol of an optional edge, a blank for none.
pub open spec fn opt_edge_char(e: Option<Edge>, d: Direction) -> char {
    match e {
        Some(e) => edge_char(e, d),
        None => ' ',
    }
}

/// The three lines that draw a tile. The upper and lower lines repeat their edge
/// symbol across the tile where no left or right edge stands.
pub open spec fn tile_top(t: Tile) -> Seq<char> {
    let u = opt_edge_char(t.up, Direction::Up);
    let corner_left = match t.left {
        Some(l) => seq![edge_char(l, Direction::Left)],
        None => seq![u],
    };
    let corner_right = match t.right {
        Some(r) => edge_char(r, Direction::Right),
        None => u,
    };
    corner_left + seq![u, corner_right]
}

pub open spec fn tile_middle(t: Tile) -> Seq<char> {
    seq![
        opt_edge_char(t.left, Direction::Left),
        match t.occupier {
            Some(c) => center_char(c),
            None => ' ',
        },
        opt_edge_char(t.right, Direction::Right),
    ]
}

pub open spec fn tile_bottom(t: Tile) -> Seq<char> {
    let d = opt_edge_char(t.down, Direction::Down);
    let corner_left = match t.left {
        Some(l) => seq![edge_char(l, Direction::Left)],
        None => seq![d],
    };
    let corner_right = match t.right {
        Some(r) => edge_char(r, Direction::Right),
        None => d,
    };
    corner_left + seq![d, corner_right]
}

impl Tile {
    /// A tile with nothing on it.
    pub fn empty() -> (r: Tile)
        ensures
            r.left is None && r.up is None && r.right is None && r.down is None
                && r.occupier is None,
    {
        Tile { left: None, up: None, right: None, down: None, occupier: None }
    }

    /// Draws the tile as three lines of three characters.
    pub fn lines(&self) -> (r: (Vec<char>, Vec<char>, Vec<char>))
        ensures
            r.0@ == tile_top(*self),
            r.1@ == tile_middle(*self),
            r.2@ == tile_bottom(*self),
    {
        let mut up: Vec<char> = Vec::new();
        let mut middle: Vec<char> = Vec::new();
        let mut down: Vec<char> = Vec::new();
        let left_edge = match &self.left {
            Some(left) => {
                let l = left.as_char(Direction::Left);
                up.push(l);
                middle.push(l);
                down.push(l);
                true
            },
            None => {
                middle.push(' ');
                false
            },
        };
        let up_edge = match &self.up {
            Some(upstacle) => {
                let c = upstacle.as_char(Direction::Up);
                up.push(c);
                if !left_edge {
                    up.push(c);
                }
                c
            },
            None => {
                up.push(' ');
                if !left_edge {
                    up.push(' ');
                }
                ' '
            },
        };
        let down_edge = match &self.down {
            Some(downstacle) => {
                let c = downstacle.as_char(Direction::Down);
                down.push(c);
                if !left_edge {
                    down.push(c);
                }
                c
            },
            None => {
                down.push(' ');
                if !left_edge {
                    down.push(' ');
                }
                ' '
            },
        };
        match &self.occupier {
            Some(occupier) => middle.push(occupier.as_char()),
            None => middle.push(' '),
        }
        match &self.right {
            Some(right) => {
                let r = right.as_char(Direction::Right);
                up.push(r);
                middle.push(r);
                down.push(r);
            },
            None => {
                up.push(up_edge);
                middle.push(' ');
                down.push(down_edge);
            },
        }
        assert(up@ =~= tile_top(*self));
        assert(middle@ =~= tile_middle(*self));
        assert(down@ =~= tile_bottom(*self));
        (up, middle, down)
    }
}

/// The drawing of the first `n` tiles, as the accumulated (top, middle, bottom,
/// tiles in the current row). A new row starts once `width` tiles stand in the
/// current one: the finished rows move into the top text, each line followed by
/// a line break.
pub open spec fn render_state(tiles: Seq<Tile>, width: u8, n: int) -> (Seq<char>, Seq<char>, Seq<char>, int)
    decreases n,
{
    if n <= 0 {
        (seq![], seq![], seq![], 0)
    } else {
        let (u, m, d, x) = render_state(tiles, width, n - 1);
        let t = tiles[n - 1];
        if x >= width {
            (u + seq!['\n'] + m + seq!['\n'] + d + seq!['\n'] + tile_top(t), tile_middle(t), tile_bottom(t), 1)
        } else {
            (u + tile_top(t), m + tile_middle(t), d + tile_bottom(t), x + 1)
        }
    }
}

/// The drawing of a layout: the accumulated lines joined by line breaks.
pub open spec fn render_layout(tiles: Seq<Tile>, width: u8) -> Seq<char> {
    let (u, m, d, x) = render_state(tiles, width, tiles.len() as int);
    u + seq!['\n'] + m + seq!['\n'] + d
}

/// A dungeon: its tiles row by row, `width` tiles per row.
pub struct DungeonLayout {
    pub tiles: Vec<Tile>,
    pub width: u8,
}

impl DungeonLayout {
    pub fn new(tiles: Vec<Tile>, width: u8) -> (r: DungeonLayout)
        ensures
            r.tiles@ == tiles@,
            r.width == width,
    {
        DungeonLayout { tiles, width }
    }

    /// Draws the layout as text.
    pub fn render(&self) -> (r: String)
        requires
            self.width <= 85,
        ensures
            r@ == render_layout(self.tiles@, self.width),
    {
        let mut up: Vec<char> = Vec::new();
        let mut middle: Vec<char> = Vec::new();
        let mut down: Vec<char> = Vec::new();
        let mut x: u8 = 0;
        let mut i: usize = 0;
        while i < self.tiles.len()
            invariant
                i <= self.tiles.len(),
                self.width <= 85,
                x <= self.width || x == 1 || i == 0,
                render_state(self.tiles@, self.width, i as int) == (up@, middle@, down@, x as int),
            decreases self.tiles.len() - i,
        {
            let (tu, tm, td) = self.tiles[i].lines();
            if x >= self.width {
                x = 0;
                up.push('\n');
                append_chars(&mut up, &middle);
                up.push('\n');
                append_chars(&mut up, &down);
                up.push('\n');
                middle = Vec::new();
                down = Vec::new();
            }
            append_chars(&mut up, &tu);
            append_chars(&mut middle, &tm);
            append_chars(&mut down, &td);
            x = x + 1;
            i = i + 1;
        }
        up.push('\n');
        append_chars(&mut up, &middle);
        up.push('\n');
        append_chars(&mut up, &down);
        chars_to_string(&up)
    }
}

/// Appends the characters of `b` to `a`.
pub fn append_chars(a: &mut Vec<char>, b: &Vec<char>)
    ensures
        final(a)@ == old(a)@ + b@,
{
    let mut i: usize = 0;
    while i < b.len()
        invariant
            i <= b.len(),
            a@ == old(a)@ + b@.take(i as int),
        decreases b.len() - i,
    {
        a.push(b[i]);
        assert(b@.take(i + 1) =~= b@.take(i as int).push(b@[i as int]));
        i = i + 1;
    }
    assert(b@.take(b@.len() as int) =~= b@);
}

/// A string holding the given characters.
pub fn chars_to_string(cs: &Vec<char>) -> (r: String)
    ensures
        r@ == cs@,
{
    let mut s = String::new();
    let mut i: usize = 0;
    while i < cs.len()
        invariant
            i <= cs.len(),
            s@ == cs@.take(i as int),
        decreases cs.len() - i,
    {
        push_char(&mut s, cs[i]);
        assert(cs@.take(i + 1) =~= cs@.take(i as int).push(cs@[i as int]));
        i = i + 1;
    }
    assert(cs@.take(cs@.len() as int) =~= cs@);
    s
}

/// The characters of a string.
pub fn string_chars(s: &str) -> (r: Vec<char>)
    ensures
        r@ == s@,
{
    let n = s.unicode_len();
    let mut r: Vec<char> = Vec::new();
    let mut i: usize = 0;
    while i < n
        invariant
            n == s@.len(),
            i <= n,
            r@ == s@.take(i as int),
        decreases n - i,
    {
        r.push(s.get_char(i));
        assert(s@.take(i + 1) =~= s@.take(i as int).push(s@[i as int]));
        i = i + 1;
    }
    assert(s@.take(n as int) =~= s@);
    r
}

// ---------------------------------------------------------------------------
// Reading a layout back
// ---------------------------------------------------------------------------

/// The lines of a text as `str::lines` yields them: split at each `\n`, a `\r`
/// right before the `\n` dropped, no empty line after a final `\n`.
pub open spec fn split_lines(s: Seq<char>) -> Seq<Seq<char>> {
    split_from(s, seq![])
}

/// The lines of `s`, the first of which starts with `cur`.
pub open spec fn split_from(s: Seq<char>, cur: Seq<char>) -> Seq<Seq<char>>
    decreases s.len(),
{
    if s.len() == 0 {
        if cur.len() == 0 {
            seq![]
        } else {
            seq![cur]
        }
    } else if s[0] == '\n' {
        seq![strip_cr(cur)] + split_from(s.drop_first(), seq![])
    } else {
        split_from(s.drop_first(), cur.push(s[0]))
    }
}

pub open spec fn strip_cr(l: Seq<char>) -> Seq<char> {
    if l.len() > 0 && l.last() == '\r' {
        l.drop_last()
    } else {
        l
    }
}

/// The number of bytes that encode `c` in UTF-8.
pub open spec fn utf8_width(c: char) -> int {
    if (c as u32) < 0x80 {
        1
    } else if (c as u32) < 0x800 {
        2
    } else if (c as u32) < 0x10000 {
        3
    } else {
        4
    }
}

/// The number of bytes that encode `s` in UTF-8.
pub open spec fn utf8_len(s: Seq<char>) -> int
    decreases s.len(),
{
    if s.len() == 0 {
        0
    } else {
        utf8_len(s.drop_last()) + utf8_width(s.last())
    }
}

/// How many positions `o`, `o + 3`, `o + 6`, ... lie below `len`.
pub open spec fn stride_count(len: int, o: int) -> int {
    if len > o {
        (len - o + 2) / 3
    } else {
        0
    }
}

/// Why a text does not describe a layout.
#[derive(Debug)]
pub enum Malformation {
    /// The first line's length in bytes is no multiple of three.
    TileWidth { width: usize },
    /// The number of lines is no multiple of three; these lines are left over.
    TileHeight { leftover: Vec<String> },
    /// The three lines of a row of tiles differ in length.
    UnevenTileLines { tile_line: usize },
    /// A row of tiles is not as wide as the first one.
    TileLineWidth { expected: usize, found: usize, tile_line: usize },
}

/// What goes wrong when reading a layout.
#[derive(Debug)]
pub enum DungeonLayoutBuilderErr {
    UnhandledSymbol(char),
    MalformedLayout(Malformation),
    EmptyDungeon,
}

/// A reading error as plain values.
pub enum BuildErrorV {
    UnhandledSymbol(char),
    TileWidth(usize),
    TileHeight(Seq<Seq<char>>),
    UnevenTileLines(usize),
    TileLineWidth(usize, usize, usize),
    EmptyDungeon,
}

impl View for DungeonLayoutBuilderErr {
    type V = BuildErrorV;

    open spec fn view(&self) -> BuildErrorV {
        match self {
            DungeonLayoutBuilderErr::UnhandledSymbol(c) => BuildErrorV::UnhandledSymbol(*c),
            DungeonLayoutBuilderErr::MalformedLayout(m) => match m {
                Malformation::TileWidth { width } => BuildErrorV::TileWidth(*width),
                Malformation::TileHeight { leftover } => BuildErrorV::TileHeight(
                    leftover@.map_values(|l: String| l@),
                ),
                Malformation::UnevenTileLines { tile_line } => BuildErrorV::UnevenTileLines(
                    *tile_line,
                ),
                Malformation::TileLineWidth { expected, found, tile_line } =>
                    BuildErrorV::TileLineWidth(*expected, *found, *tile_line),
            },
            DungeonLayoutBuilderErr::EmptyDungeon => BuildErrorV::EmptyDungeon,
        }
    }
}

/// Symbols read as edges: the first rule that names a symbol and a side decides.
pub struct EdgeFactory {
    pub rules: Vec<(char, Direction, Option<Edge>)>,
}

/// Symbols read as occupiers: the first rule that names a symbol decides.
pub struct CenterFactory {
    pub rules: Vec<(char, Option<Center>)>,
}

/// The built-in reading of edge symbols: blanks are empty edges, `T` is a trap,
/// `|` on the left or right and `-` above or below is a wall.
pub open spec fn default_edge(c: char, d: Direction) -> Result<Option<Edge>, BuildErrorV> {
    if c == ' ' {
        Ok(None)
    } else if c == 'T' {
        Ok(Some(Edge::Trap(Trap)))
    } else if c == '|' && (d == Direction::Left || d == Direction::Right) {
        Ok(Some(Edge::Wall(Wall)))
    } else if c == '-' && (d == Direction::Up || d == Direction::Down) {
        Ok(Some(Edge::Wall(Wall)))
    } else {
        Err(BuildErrorV::UnhandledSymbol(c))
    }
}

/// The built-in reading of occupier symbols: blanks are empty, `T` is a trap.
pub open spec fn default_center(c: char) -> Result<Option<Center>, BuildErrorV> {
    if c == ' ' {
        Ok(None)
    } else if c == 'T' {
        Ok(Some(Center::Trap(Trap)))
    } else {
        Err(BuildErrorV::UnhandledSymbol(c))
    }
}

/// The first rule for (`c`, `d`) among the first `n` rules.
pub open spec fn edge_rule(rules: Seq<(char, Direction, Option<Edge>)>, c: char, d: Direction, n: int) -> Option<
    Option<Edge>,
>
    decreases n,
{
    if n <= 0 {
        None
    } else {
        match edge_rule(rules, c, d, n - 1) {
            Some(e) => Some(e),
            None => if rules[n - 1].0 == c && rules[n - 1].1 == d {
                Some(rules[n - 1].2)
            } else {
                None
            },
        }
    }
}

/// The first rule for `c` among the first `n` rules.
pub open spec fn center_rule(rules: Seq<(char, Option<Center>)>, c: char, n: int) -> Option<Option<Center>>
    decreases n,
{
    if n <= 0 {
        None
    } else {
        match center_rule(rules, c, n - 1) {
            Some(e) => Some(e),
            None => if rules[n - 1].0 == c {
                Some(rules[n - 1].1)
            } else {
                None
            },
        }
    }
}

/// The rules a builder reads symbols with, beyond the built-in ones.
pub struct Readers {
    pub edges: Option<Seq<(char, Direction, Option<Edge>)>>,
    pub centers: Option<Seq<(char, Option<Center>)>>,
}

/// How a symbol on side `d` is read: by the custom rules where one applies,
/// otherwise by the built-in reading.
pub open spec fn read_edge(r: Readers, c: char, d: Direction) -> Result<Option<Edge>, BuildErrorV> {
    match r.edges {
        Some(rules) => match edge_rule(rules, c, d, rules.len() as int) {
            Some(e) => Ok(e),
            None => default_edge(c, d),
        },
        None => default_edge(c, d),
    }
}

pub open spec fn read_center(r: Readers, c: char) -> Result<Option<Center>, BuildErrorV> {
    match r.centers {
        Some(rules) => match center_rule(rules, c, rules.len() as int) {
            Some(e) => Ok(e),
            None => default_center(c),
        },
        None => default_center(c),
    }
}

/// Tile `k` of a row: the symbols at position `3k + 1` of the top line, `3k`,
/// `3k + 1` and `3k + 2` of the middle line and `3k + 1` of the bottom line, read
/// in the order top, left, right, bottom, center; the first failure decides.
pub open spec fn tile_at(r: Readers, up: Seq<char>, mid: Seq<char>, down: Seq<char>, k: int) -> Result<
    Tile,
    BuildErrorV,
> {
    match read_edge(r, up[3 * k + 1], Direction::Up) {
        Err(e) => Err(e),
        Ok(u) => match read_edge(r, mid[3 * k], Direction::Left) {
            Err(e) => Err(e),
            Ok(l) => match read_edge(r, mid[3 * k + 2], Direction::Right) {
                Err(e) => Err(e),
                Ok(rt) => match read_edge(r, down[3 * k + 1], Direction::Down) {
                    Err(e) => Err(e),
                    Ok(dn) => match read_center(r, mid[3 * k + 1]) {
                        Err(e) => Err(e),
                        Ok(c) => Ok(Tile { left: l, up: u, right: rt, down: dn, occupier: c }),
                    },
                },
            },
        },
    }
}

/// The first `k` tiles of a row.
pub open spec fn row_tiles(r: Readers, up: Seq<char>, mid: Seq<char>, down: Seq<char>, k: int) -> Result<
    Seq<Tile>,
    BuildErrorV,
>
    decreases k,
{
    if k <= 0 {
        Ok(seq![])
    } else {
        match row_tiles(r, up, mid, down, k - 1) {
            Err(e) => Err(e),
            Ok(ts) => match tile_at(r, up, mid, down, k - 1) {
                Err(e) => Err(e),
                Ok(t) => Ok(ts.push(t)),
            },
        }
    }
}

/// The number of tiles in a row: as many as every line has symbol positions for.
pub open spec fn row_count(up: Seq<char>, mid: Seq<char>, down: Seq<char>) -> int {
    let a = stride_count(up.len() as int, 1);
    let b = stride_count(mid.len() as int, 0);
    let c = stride_count(mid.len() as int, 1);
    let d = stride_count(mid.len() as int, 2);
    let e = stride_count(down.len() as int, 1);
    min(a, min(b, min(c, min(d, e))))
}

pub open spec fn min(a: int, b: int) -> int {
    if a <= b {
        a
    } else {
        b
    }
}

/// Row `y` of tiles, made of lines `3y`, `3y + 1` and `3y + 2`: its three lines
/// must be equally long, and as long as the first line of the text.
pub open spec fn parse_row(r: Readers, lines: Seq<Seq<char>>, width: int, y: int) -> Result<
    Seq<Tile>,
    BuildErrorV,
> {
    let up = lines[3 * y];
    let mid = lines[3 * y + 1];
    let down = lines[3 * y + 2];
    if utf8_len(up) != utf8_len(mid) || utf8_len(up) != utf8_len(down) {
        Err(BuildErrorV::UnevenTileLines(y as usize))
    } else if utf8_len(up) != width {
        Err(BuildErrorV::TileLineWidth(width as usize, utf8_len(up) as usize, y as usize))
    } else {
        row_tiles(r, up, mid, down, row_count(up, mid, down))
    }
}

/// The tiles of the first `n` rows.
pub open spec fn parse_rows(r: Readers, lines: Seq<Seq<char>>, width: int, n: int) -> Result<
    Seq<Tile>,
    BuildErrorV,
>
    decreases n,
{
    if n <= 0 {
        Ok(seq![])
    } else {
        match parse_rows(r, lines, width, n - 1) {
            Err(e) => Err(e),
            Ok(ts) => match parse_row(r, lines, width, n - 1) {
                Err(e) => Err(e),
                Ok(row) => Ok(ts + row),
            },
        }
    }
}

/// What reading `text` yields: the tiles and the number of tiles per row, or the
/// first problem found. An empty text holds no dungeon; the first line's byte
/// length must be a multiple of three and so must the number of lines.
pub open spec fn build_result(r: Readers, text: Seq<char>) -> Result<(Seq<Tile>, u8), BuildErrorV> {
    let lines = split_lines(text);
    if lines.len() == 0 {
        Err(BuildErrorV::EmptyDungeon)
    } else if utf8_len(lines[0]) % 3 != 0 {
        Err(BuildErrorV::TileWidth(utf8_len(lines[0]) as usize))
    } else if lines.len() % 3 != 0 {
        Err(BuildErrorV::TileHeight(lines.skip(lines.len() - lines.len() % 3)))
    } else {
        match parse_rows(r, lines, utf8_len(lines[0]), (lines.len() / 3) as int) {
            Err(e) => Err(e),
            Ok(ts) => Ok((ts, (utf8_len(lines[0]) / 3) as u8)),
        }
    }
}

/// Reads dungeon layouts from text. Custom rules for symbols come first; a
/// symbol that no custom rule names is read the built-in way.
pub struct DungeonLayoutBuilder {
    edge_factory: Option<EdgeFactory>,
    center_factory: Option<CenterFactory>,
}

impl DungeonLayoutBuilder {
    /// The rules this builder reads with.
    pub closed spec fn readers(&self) -> Readers {
        Readers {
            edges: match self.edge_factory {
                Some(f) => Some(f.rules@),
                None => None,
            },
            centers: match self.center_factory {
                Some(f) => Some(f.rules@),
                None => None,
            },
        }
    }

    /// A builder with only the built-in readings.
    pub fn new() -> (r: DungeonLayoutBuilder)
        ensures
            r.readers().edges is None,
            r.readers().centers is None,
    {
        DungeonLayoutBuilder { edge_factory: None, center_factory: None }
    }

    pub fn with_edge_factory(self, factory: EdgeFactory) -> (r: DungeonLayoutBuilder)
        ensures
            r.readers().edges == Some(factory.rules@),
            r.readers().centers == self.readers().centers,
    {
        DungeonLayoutBuilder { edge_factory: Some(factory), center_factory: self.center_factory }
    }

    pub fn with_center_factory(self, factory: CenterFactory) -> (r: DungeonLayoutBuilder)
        ensures
            r.readers().centers == Some(factory.rules@),
            r.readers().edges == self.readers().edges,
    {
        DungeonLayoutBuilder { edge_factory: self.edge_factory, center_factory: Some(factory) }
    }

    /// The built-in reading of an edge symbol.
    pub fn default_edge_factory(&self, symbol: char, direction: Direction) -> (r: Result<
        Option<Edge>,
        DungeonLayoutBuilderErr,
    >)
        ensures
            match r {
                Ok(e) => default_edge(symbol, direction) == Ok::<Option<Edge>, BuildErrorV>(e),
                Err(e) => default_edge(symbol, direction) == Err::<Option<Edge>, BuildErrorV>(e@),
            },
    {
        if symbol == ' ' {
            Ok(None)
        } else if symbol == 'T' {
            Ok(Some(Edge::Trap(Trap)))
        } else if symbol == '|' && (direction == Direction::Left || direction == Direction::Right) {
            Ok(Some(Edge::Wall(Wall)))
        } else if symbol == '-' && (direction == Direction::Up || direction == Direction::Down) {
            Ok(Some(Edge::Wall(Wall)))
        } else {
            Err(DungeonLayoutBuilderErr::UnhandledSymbol(symbol))
        }
    }

    /// The built-in reading of an occupier symbol.
    pub fn default_center_factory(&self, symbol: char) -> (r: Result<
        Option<Center>,
        DungeonLayoutBuilderErr,
    >)
        ensures
            match r {
                Ok(c) => default_center(symbol) == Ok::<Option<Center>, BuildErrorV>(c),
                Err(e) => default_center(symbol) == Err::<Option<Center>, BuildErrorV>(e@),
            },
    {
        if symbol == ' ' {
            Ok(None)
        } else if symbol == 'T' {
            Ok(Some(Center::Trap(Trap)))
        } else {
            Err(DungeonLayoutBuilderErr::UnhandledSymbol(symbol))
        }
    }

    /// Reads an edge symbol with the custom rules, then the built-in ones.
    fn edge(&self, symbol: char, direction: Direction) -> (r: Result<Option<Edge>, DungeonLayoutBuilderErr>)
        ensures
            match r {
                Ok(e) => read_edge(self.readers(), symbol, direction) == Ok::<
                    Option<Edge>,
                    BuildErrorV,
                >(e),
                Err(e) => read_edge(self.readers(), symbol, direction) == Err::<
                    Option<Edge>,
                    BuildErrorV,
                >(e@),
            },
    {
        match &self.edge_factory {
            Some(f) => {
                let ghost rules = f.rules@;
                let mut i: usize = 0;
                while i < f.rules.len()
                    invariant
                        i <= f.rules.len(),
                        rules == f.rules@,
                        self.readers().edges == Some(rules),
                        edge_rule(rules, symbol, direction, i as int) is None,
                    decreases f.rules.len() - i,
                {
                    let (c, d, e) = f.rules[i];
                    if c == symbol && d == direction {
                        proof {
                            assert(rules[i as int] == (c, d, e));
                            assert(edge_rule(rules, symbol, direction, i + 1) == Some(e));
                            lemma_edge_rule_stable(rules, symbol, direction, i + 1, rules.len() as int);
                        }
                        return Ok(e);
                    }
                    i = i + 1;
                }
                self.default_edge_factory(symbol, direction)
            },
            None => self.default_edge_factory(symbol, direction),
        }
    }

    /// Reads an occupier symbol with the custom rules, then the built-in ones.
    fn center(&self, symbol: char) -> (r: Result<Option<Center>, DungeonLayoutBuilderErr>)
        ensures
            match r {
                Ok(c) => read_center(self.readers(), symbol) == Ok::<Option<Center>, BuildErrorV>(
                    c,
                ),
                Err(e) => read_center(self.readers(), symbol) == Err::<
                    Option<Center>,
                    BuildErrorV,
                >(e@),
            },
    {
        match &self.center_factory {
            Some(f) => {
                let ghost rules = f.rules@;
                let mut i: usize = 0;
                while i < f.rules.len()
                    invariant
                        i <= f.rules.len(),
                        rules == f.rules@,
                        self.readers().centers == Some(rules),
                        center_rule(rules, symbol, i as int) is None,
                    decreases f.rules.len() - i,
                {
                    let (c, e) = f.rules[i];
                    if c == symbol {
                        proof {
                            assert(rules[i as int] == (c, e));
                            assert(center_rule(rules, symbol, i + 1) == Some(e));
                            lemma_center_rule_stable(rules, symbol, i + 1, rules.len() as int);
                        }
                        return Ok(e);
                    }
                    i = i + 1;
                }
                self.default_center_factory(symbol)
            },
            None => self.default_center_factory(symbol),
        }
    }
}

proof fn lemma_edge_rule_stable(
    rules: Seq<(char, Direction, Option<Edge>)>,
    c: char,
    d: Direction,
    m: int,
    n: int,
)
    requires
        0 <= m <= n,
        edge_rule(rules, c, d, m) is Some,
    ensures
        edge_rule(rules, c, d, n) == edge_rule(rules, c, d, m),
    decreases n - m,
{
    if n > m {
        lemma_edge_rule_stable(rules, c, d, m, n - 1);
    }
}

proof fn lemma_center_rule_stable(rules: Seq<(char, Option<Center>)>, c: char, m: int, n: int)
    requires
        0 <= m <= n,
        center_rule(rules, c, m) is Some,
    ensures
        center_rule(rules, c, n) == center_rule(rules, c, m),
    decreases n - m,
{
    if n > m {
        lemma_center_rule_stable(rules, c, m, n - 1);
    }
}

pub open spec fn lines_view(v: Seq<Vec<char>>) -> Seq<Seq<char>> {
    v.map_values(|l: Vec<char>| l@)
}

/// Splits characters into lines as `str::lines` does.
fn split_text_lines(cs: &Vec<char>) -> (r: Vec<Vec<char>>)
    ensures
        lines_view(r@) == split_lines(cs@),
{
    let ghost s = cs@;
    let mut lines: Vec<Vec<char>> = Vec::new();
    let mut cur: Vec<char> = Vec::new();
    let mut i: usize = 0;
    while i < cs.len()
        invariant
            s == cs@,
            i <= cs.len(),
            lines_view(lines@) + split_from(s.skip(i as int), cur@) == split_lines(s),
        decreases cs.len() - i,
    {
        let c = cs[i];
        assert(s.skip(i + 1) =~= s.skip(i as int).drop_first());
        if c == '\n' {
            let ghost before = lines_view(lines@);
            let ghost cv = cur@;
            let mut line: Vec<char> = Vec::new();
            std::mem::swap(&mut line, &mut cur);
            let n = line.len();
            if n > 0 && line[n - 1] == '\r' {
                line.pop();
            }
            assert(line@ =~= strip_cr(cv));
            lines.push(line);
            assert(lines_view(lines@) =~= before.push(lines@[lines@.len() - 1]@));
        } else {
            cur.push(c);
        }
        i = i + 1;
    }
    assert(s.skip(i as int) =~= Seq::<char>::empty());
    if cur.len() > 0 {
        let ghost before = lines_view(lines@);
        lines.push(cur);
        assert(lines_view(lines@) =~= before.push(lines@[lines@.len() - 1]@));
    }
    lines
}

fn char_width(c: char) -> (r: u128)
    ensures
        r == utf8_width(c),
{
    let v = c as u32;
    if v < 0x80 {
        1
    } else if v < 0x800 {
        2
    } else if v < 0x10000 {
        3
    } else {
        4
    }
}

/// The UTF-8 length of the characters, in bytes.
fn utf8_length(v: &Vec<char>) -> (r: u128)
    ensures
        r == utf8_len(v@),
{
    let mut acc: u128 = 0;
    let mut i: usize = 0;
    while i < v.len()
        invariant
            i <= v.len(),
            acc == utf8_len(v@.take(i as int)),
            acc <= 4 * i,
        decreases v.len() - i,
    {
        assert(v@.take(i + 1).drop_last() =~= v@.take(i as int));
        acc = acc + char_width(v[i]);
        i = i + 1;
    }
    assert(v@.take(v@.len() as int) =~= v@);
    acc
}

/// `stride_count` for lengths of vectors.
fn strides(len: usize, o: usize) -> (r: usize)
    ensures
        r == stride_count(len as int, o as int),
{
    if len > o {
        (len - o - 1) / 3 + 1
    } else {
        0
    }
}

proof fn lemma_row_tiles_err(r: Readers, up: Seq<char>, mid: Seq<char>, down: Seq<char>, k: int, n: int)
    requires
        0 <= k <= n,
        row_tiles(r, up, mid, down, k) is Err,
    ensures
        row_tiles(r, up, mid, down, n) == row_tiles(r, up, mid, down, k),
    decreases n - k,
{
    if n > k {
        lemma_row_tiles_err(r, up, mid, down, k, n - 1);
    }
}

proof fn lemma_parse_rows_err(r: Readers, lines: Seq<Seq<char>>, width: int, k: int, n: int)
    requires
        0 <= k <= n,
        parse_rows(r, lines, width, k) is Err,
    ensures
        parse_rows(r, lines, width, n) == parse_rows(r, lines, width, k),
    decreases n - k,
{
    if n > k {
        lemma_parse_rows_err(r, lines, width, k, n - 1);
    }
}

proof fn lemma_subrange_push<A>(s: Seq<A>, a: int, j: int)
    requires
        0 <= a <= j < s.len(),
    ensures
        s.subrange(a, j + 1) == s.subrange(a, j).push(s[j]),
{
    assert(s.subrange(a, j + 1) =~= s.subrange(a, j).push(s[j]));
}

proof fn lemma_take_skip<A>(s: Seq<A>, n: int)
    requires
        0 <= n <= s.len(),
    ensures
        s == s.take(n) + s.skip(n),
{
    assert(s =~= s.take(n) + s.skip(n));
}

proof fn lemma_stride_index(len: int, o: int, k: int)
    requires
        0 <= o < 3,
        0 <= k < stride_count(len, o),
    ensures
        3 * k + o < len,
{
    assert(3 * k + o < len) by (nonlinear_arith)
        requires
            len > o,
            0 <= k < (len - o + 2) / 3,
    ;
}

impl DungeonLayoutBuilder {
    /// Reads one tile.
    fn read_tile(&self, up: &Vec<char>, mid: &Vec<char>, down: &Vec<char>, k: usize) -> (r: Result<
        Tile,
        DungeonLayoutBuilderErr,
    >)
        requires
            3 * k + 1 < up.len(),
            3 * k + 2 < mid.len(),
            3 * k + 1 < down.len(),
        ensures
            match r {
                Ok(t) => tile_at(self.readers(), up@, mid@, down@, k as int) == Ok::<
                    Tile,
                    BuildErrorV,
                >(t),
                Err(e) => tile_at(self.readers(), up@, mid@, down@, k as int) == Err::<
                    Tile,
                    BuildErrorV,
                >(e@),
            },
    {
        let u = match self.edge(up[3 * k + 1], Direction::Up) {
            Ok(x) => x,
            Err(e) => {
                return Err(e);
            },
        };
        let l = match self.edge(mid[3 * k], Direction::Left) {
            Ok(x) => x,
            Err(e) => {
                return Err(e);
            },
        };
        let rt = match self.edge(mid[3 * k + 2], Direction::Right) {
            Ok(x) => x,
            Err(e) => {
                return Err(e);
            },
        };
        let dn = match self.edge(down[3 * k + 1], Direction::Down) {
            Ok(x) => x,
            Err(e) => {
                return Err(e);
            },
        };
        let c = match self.center(mid[3 * k + 1]) {
            Ok(x) => x,
            Err(e) => {
                return Err(e);
            },
        };
        Ok(Tile { left: l, up: u, right: rt, down: dn, occupier: c })
    }

    /// Reads a row of tiles and appends it to `tiles`.
    fn read_row(
        &self,
        up: &Vec<char>,
        mid: &Vec<char>,
        down: &Vec<char>,
        tiles: &mut Vec<Tile>,
    ) -> (r: Result<(), DungeonLayoutBuilderErr>)
        ensures
            match r {
                Ok(_) => row_tiles(self.readers(), up@, mid@, down@, row_count(up@, mid@, down@))
                    == Ok::<Seq<Tile>, BuildErrorV>(final(tiles)@.skip(old(tiles)@.len() as int))
                    && final(tiles)@.take(old(tiles)@.len() as int) == old(tiles)@
                    && final(tiles)@.len() >= old(tiles)@.len(),
                Err(e) => row_tiles(self.readers(), up@, mid@, down@, row_count(up@, mid@, down@))
                    == Err::<Seq<Tile>, BuildErrorV>(e@),
            },
    {
        let a = strides(up.len(), 1);
        let b = strides(mid.len(), 0);
        let c = strides(mid.len(), 1);
        let d = strides(mid.len(), 2);
        let e = strides(down.len(), 1);
        let mut count = a;
        if b < count {
            count = b;
        }
        if c < count {
            count = c;
        }
        if d < count {
            count = d;
        }
        if e < count {
            count = e;
        }
        assert(count == row_count(up@, mid@, down@));
        let ghost start = tiles@;
        assert(tiles@.skip(start.len() as int) =~= Seq::<Tile>::empty());
        assert(tiles@.take(start.len() as int) =~= start);
        let mut k: usize = 0;
        while k < count
            invariant
                k <= count,
                count == row_count(up@, mid@, down@),
                count <= stride_count(up@.len() as int, 1),
                count <= stride_count(mid@.len() as int, 2),
                count <= stride_count(down@.len() as int, 1),
                tiles@.take(start.len() as int) == start,
                tiles@.len() >= start.len(),
                row_tiles(self.readers(), up@, mid@, down@, k as int) == Ok::<Seq<Tile>, BuildErrorV>(
                    tiles@.skip(start.len() as int),
                ),
            decreases count - k,
        {
            proof {
                lemma_stride_index(up@.len() as int, 1, k as int);
                lemma_stride_index(mid@.len() as int, 2, k as int);
                lemma_stride_index(down@.len() as int, 1, k as int);
            }
            match self.read_tile(up, mid, down, k) {
                Ok(t) => {
                    let ghost before = tiles@;
                    tiles.push(t);
                    assert(tiles@.skip(start.len() as int) =~= before.skip(start.len() as int).push(t));
                    assert(tiles@.take(start.len() as int) =~= before.take(start.len() as int));
                },
                Err(err) => {
                    proof {
                        lemma_row_tiles_err(self.readers(), up@, mid@, down@, k + 1, count as int);
                    }
                    return Err(err);
                },
            }
            k = k + 1;
        }
        Ok(())
    }

    /// Reads a layout from its drawing.
    pub fn build(&self, text: &str) -> (r: Result<DungeonLayout, DungeonLayoutBuilderErr>)
        ensures
            match r {
                Ok(l) => build_result(self.readers(), text@) == Ok::<(Seq<Tile>, u8), BuildErrorV>(
                    (l.tiles@, l.width),
                ),
                Err(e) => build_result(self.readers(), text@) == Err::<(Seq<Tile>, u8), BuildErrorV>(
                    e@,
                ),
            },
    {
        let chars = string_chars(text);
        let lines = split_text_lines(&chars);
        let ghost lv = lines_view(lines@);
        if lines.len() == 0 {
            return Err(DungeonLayoutBuilderErr::EmptyDungeon);
        }
        let width = utf8_length(&lines[0]);
        assert(lv[0] == lines@[0]@);
        assert(lv.len() == lines@.len());
        if width % 3 != 0 {
            return Err(
                DungeonLayoutBuilderErr::MalformedLayout(
                    Malformation::TileWidth { width: width as usize },
                ),
            );
        }
        let rem = lines.len() % 3;
        if rem != 0 {
            let mut leftover: Vec<String> = Vec::new();
            let mut j = lines.len() - rem;
            while j < lines.len()
                invariant
                    lines.len() - rem <= j <= lines.len(),
                    lv == lines_view(lines@),
                    lv.len() == lines@.len(),
                    rem == lines.len() % 3,
                    leftover@.map_values(|l: String| l@) == lv.subrange(
                        lines.len() - rem,
                        j as int,
                    ),
                decreases lines.len() - j,
            {
                let ghost before = leftover@.map_values(|l: String| l@);
                leftover.push(chars_to_string(&lines[j]));
                assert(leftover@.map_values(|l: String| l@) =~= before.push(lv[j as int]));
                let ghost a = (lines.len() - rem) as int;
                assert(a <= j);
                assert(j + 1 <= lv.len());
                proof {
                    lemma_subrange_push(lv, a, j as int);
                }
                j = j + 1;
            }
            assert(lv.subrange(lines.len() - rem, lines.len() as int) =~= lv.skip(
                lv.len() - lv.len() % 3,
            ));
            return Err(
                DungeonLayoutBuilderErr::MalformedLayout(Malformation::TileHeight { leftover }),
            );
        }
        let rows = lines.len() / 3;
        let mut tiles: Vec<Tile> = Vec::new();
        let mut y: usize = 0;
        while y < rows
            invariant
                y <= rows,
                rows == lines.len() / 3,
                lv == lines_view(lines@),
                lv == split_lines(text@),
                lv.len() == lines@.len(),
                lv.len() % 3 == 0,
                lv.len() > 0,
                utf8_len(lv[0]) % 3 == 0,
                width == utf8_len(lv[0]),
                parse_rows(self.readers(), lv, width as int, y as int) == Ok::<
                    Seq<Tile>,
                    BuildErrorV,
                >(tiles@),
            decreases rows - y,
        {
            let up = &lines[3 * y];
            let mid = &lines[3 * y + 1];
            let down = &lines[3 * y + 2];
            let lu = utf8_length(up);
            let lm = utf8_length(mid);
            let ld = utf8_length(down);
            assert(lv[3 * y as int] == up@);
            assert(lv[3 * y + 1] == mid@);
            assert(lv[3 * y + 2] == down@);
            if lu != lm || lu != ld {
                proof {
                    lemma_parse_rows_err(self.readers(), lv, width as int, y + 1, rows as int);
                }
                return Err(
                    DungeonLayoutBuilderErr::MalformedLayout(
                        Malformation::UnevenTileLines { tile_line: y },
                    ),
                );
            }
            if lu != width {
                proof {
                    lemma_parse_rows_err(self.readers(), lv, width as int, y + 1, rows as int);
                }
                return Err(
                    DungeonLayoutBuilderErr::MalformedLayout(
                        Malformation::TileLineWidth {
                            expected: width as usize,
                            found: lu as usize,
                            tile_line: y,
                        },
                    ),
                );
            }
            let ghost before = tiles@;
            match self.read_row(up, mid, down, &mut tiles) {
                Ok(_) => {
                    proof {
                        lemma_take_skip(tiles@, before.len() as int);
                    }
                },
                Err(e) => {
                    proof {
                        lemma_parse_rows_err(self.readers(), lv, width as int, y + 1, rows as int);
                    }
                    return Err(e);
                },
            }
            y = y + 1;
        }
        Ok(DungeonLayout { tiles, width: (width / 3) as u8 })
    }
}

impl Default for DungeonLayoutBuilder {
    fn default() -> (r: DungeonLayoutBuilder)
        ensures
            r.readers().edges is None,
            r.readers().centers is None,
    {
        DungeonLayoutBuilder::new()
    }
}

// ---------------------------------------------------------------------------
// Reading back what was drawn
// ---------------------------------------------------------------------------

/// The lines joined by line breaks, without a final one.
pub open spec fn join_lines(ls: Seq<Seq<char>>) -> Seq<char>
    decreases ls.len(),
{
    if ls.len() == 0 {
        seq![]
    } else if ls.len() == 1 {
        ls[0]
    } else {
        ls[0] + seq!['\n'] + join_lines(ls.drop_first())
    }
}

/// A symbol a drawing is made of.
pub open spec fn drawable(c: char) -> bool {
    c == '|' || c == '-' || c == 'T' || c == ' '
}

pub open spec fn all_drawable(s: Seq<char>) -> bool {
    forall|i: int| 0 <= i < s.len() ==> drawable(#[trigger] s[i])
}

/// Line `p` (top, middle, bottom) of a tile.
pub open spec fn tile_part(t: Tile, p: int) -> Seq<char> {
    if p == 0 {
        tile_top(t)
    } else if p == 1 {
        tile_middle(t)
    } else {
        tile_bottom(t)
    }
}

/// Line `p` of a row of tiles: the tiles' lines side by side.
pub open spec fn row_part(ts: Seq<Tile>, p: int) -> Seq<char>
    decreases ts.len(),
{
    if ts.len() == 0 {
        seq![]
    } else {
        row_part(ts.drop_last(), p) + tile_part(ts.last(), p)
    }
}

/// Row `r` of a layout `w` tiles wide.
pub open spec fn row_of(ts: Seq<Tile>, w: int, r: int) -> Seq<Tile> {
    ts.subrange(r * w, r * w + w)
}

/// The lines of the first `r` rows: top, middle and bottom of each.
pub open spec fn layout_lines(ts: Seq<Tile>, w: int, r: nat) -> Seq<Seq<char>>
    decreases r,
{
    if r == 0 {
        seq![]
    } else {
        let row = row_of(ts, w, r - 1);
        layout_lines(ts, w, (r - 1) as nat) + seq![row_part(row, 0), row_part(row, 1), row_part(row, 2)]
    }
}

proof fn lemma_join_push(ls: Seq<Seq<char>>, x: Seq<char>)
    requires
        ls.len() >= 1,
    ensures
        join_lines(ls.push(x)) == join_lines(ls) + seq!['\n'] + x,
    decreases ls.len(),
{
    if ls.len() == 1 {
        assert(ls.push(x).drop_first() =~= seq![x]);
        assert(ls.push(x)[0] == ls[0]);
        assert(join_lines(seq![x]) == x);
        assert(join_lines(ls.push(x)) =~= join_lines(ls) + seq!['\n'] + x);
    } else {
        assert(ls.push(x).drop_first() =~= ls.drop_first().push(x));
        lemma_join_push(ls.drop_first(), x);
        assert(join_lines(ls.push(x)) =~= join_lines(ls) + seq!['\n'] + x);
    }
}

proof fn lemma_split_prefix(a: Seq<char>, rest: Seq<char>, cur: Seq<char>)
    requires
        forall|i: int| 0 <= i < a.len() ==> a[i] != '\n',
    ensures
        split_from(a + rest, cur) == split_from(rest, cur + a),
    decreases a.len(),
{
    if a.len() > 0 {
        assert((a + rest).drop_first() =~= a.drop_first() + rest);
        assert((a + rest)[0] == a[0]);
        lemma_split_prefix(a.drop_first(), rest, cur.push(a[0]));
        assert(cur.push(a[0]) + a.drop_first() =~= cur + a);
    } else {
        assert(a + rest =~= rest);
        assert(cur + a =~= cur);
    }
}

/// Splitting joined lines gives them back, where no line holds a line break or
/// ends in a carriage return and the last line is not empty.
proof fn lemma_split_join(ls: Seq<Seq<char>>)
    requires
        ls.len() >= 1,
        forall|k: int| 0 <= k < ls.len() ==> all_drawable(#[trigger] ls[k]),
        ls.last().len() > 0,
    ensures
        split_lines(join_lines(ls)) == ls,
    decreases ls.len(),
{
    let l0 = ls[0];
    assert(all_drawable(ls[0]));
    assert(forall|i: int| 0 <= i < l0.len() ==> l0[i] != '\n') by {
        assert forall|i: int| 0 <= i < l0.len() implies l0[i] != '\n' by {
            assert(drawable(l0[i]));
        }
    }
    if ls.len() == 1 {
        lemma_split_prefix(l0, seq![], seq![]);
        assert(l0 + seq![] =~= l0);
        assert(seq![] + l0 =~= l0);
        assert(split_from(seq![], l0) == seq![l0]);
        assert(split_lines(join_lines(ls)) =~= ls);
    } else {
        let tail = ls.drop_first();
        assert forall|k: int| 0 <= k < tail.len() implies all_drawable(#[trigger] tail[k]) by {
            assert(tail[k] == ls[k + 1]);
        }
        lemma_split_join(tail);
        let rest = seq!['\n'] + join_lines(tail);
        assert(join_lines(ls) =~= l0 + rest);
        lemma_split_prefix(l0, rest, seq![]);
        assert(seq![] + l0 =~= l0);
        assert(rest[0] == '\n');
        assert(rest.drop_first() =~= join_lines(tail));
        if l0.len() > 0 {
            assert(drawable(l0[l0.len() - 1]));
        }
        assert(strip_cr(l0) == l0);
        assert(split_from(rest, l0) == seq![l0] + split_from(join_lines(tail), seq![]));
        assert(split_lines(join_lines(ls)) =~= ls);
    }
}

/// What stands before the current row in the top text: the lines of the `r`
/// finished rows, each followed by a line break.
pub open spec fn rows_before(ts: Seq<Tile>, w: int, r: nat) -> Seq<char> {
    if r == 0 {
        seq![]
    } else {
        join_lines(layout_lines(ts, w, r)) + seq!['\n']
    }
}

proof fn lemma_join_row(ts: Seq<Tile>, w: int, r: nat)
    ensures
        rows_before(ts, w, r) + row_part(row_of(ts, w, r as int), 0) + seq!['\n'] + row_part(
            row_of(ts, w, r as int),
            1,
        ) + seq!['\n'] + row_part(row_of(ts, w, r as int), 2) == join_lines(
            layout_lines(ts, w, r + 1),
        ),
{
    let row = row_of(ts, w, r as int);
    let a = row_part(row, 0);
    let b = row_part(row, 1);
    let c = row_part(row, 2);
    let l = layout_lines(ts, w, r);
    assert(layout_lines(ts, w, r + 1) =~= l + seq![a, b, c]);
    if r == 0 {
        assert(l =~= Seq::<Seq<char>>::empty());
        assert(seq![a, b, c] =~= seq![a].push(b).push(c));
        lemma_join_push(seq![a], b);
        lemma_join_push(seq![a].push(b), c);
        assert(join_lines(seq![a]) == a);
        assert(rows_before(ts, w, r) + a + seq!['\n'] + b + seq!['\n'] + c =~= join_lines(
            layout_lines(ts, w, r + 1),
        ));
    } else {
        assert(l.len() >= 1);
        assert(l + seq![a, b, c] =~= l.push(a).push(b).push(c));
        lemma_join_push(l, a);
        lemma_join_push(l.push(a), b);
        lemma_join_push(l.push(a).push(b), c);
        assert(rows_before(ts, w, r) + a + seq!['\n'] + b + seq!['\n'] + c =~= join_lines(
            layout_lines(ts, w, r + 1),
        ));
    }
}

/// Drawing one more tile: inside the current row it is appended to the three
/// lines; once the row is full, the lines move into the top text and the tile
/// starts the next row.
proof fn lemma_render_step(ts: Seq<Tile>, w: u8, n: int)
    requires
        1 <= n <= ts.len(),
    ensures
        ({
            let st = render_state(ts, w, n - 1);
            let t = ts[n - 1];
            render_state(ts, w, n) == if st.3 >= w {
                (
                    st.0 + seq!['\n'] + st.1 + seq!['\n'] + st.2 + seq!['\n'] + tile_top(t),
                    tile_middle(t),
                    tile_bottom(t),
                    1int,
                )
            } else {
                (st.0 + tile_top(t), st.1 + tile_middle(t), st.2 + tile_bottom(t), st.3 + 1)
            }
        }),
{
}

proof fn lemma_row_part_push(sub: Seq<Tile>, p: int)
    requires
        sub.len() >= 1,
    ensures
        row_part(sub, p) == row_part(sub.drop_last(), p) + tile_part(sub.last(), p),
{
}

/// After the first `r * w + c` tiles are drawn (`c` of them in the current row),
/// the top text holds the finished rows and the current row's top line so far.
proof fn lemma_render_state(ts: Seq<Tile>, w: u8, r: nat, c: nat)
    requires
        w >= 1,
        1 <= c <= w,
        r * w + c <= ts.len(),
    ensures
        render_state(ts, w, r * w + c) == (
            rows_before(ts, w as int, r) + row_part(ts.subrange(r * w, r * w + c), 0),
            row_part(ts.subrange(r * w, r * w + c), 1),
            row_part(ts.subrange(r * w, r * w + c), 2),
            c as int,
        ),
    decreases r, c,
{
    let n = r * w + c;
    let sub = ts.subrange(r * w, r * w + c);
    let t = ts[n - 1];
    assert(sub.last() == t);
    lemma_render_step(ts, w, n);
    lemma_row_part_push(sub, 0);
    lemma_row_part_push(sub, 1);
    lemma_row_part_push(sub, 2);
    if c > 1 {
        lemma_render_state(ts, w, r, (c - 1) as nat);
        assert(r * w + (c - 1) == n - 1);
        let prev = ts.subrange(r * w, r * w + (c - 1));
        assert(sub.drop_last() =~= prev);
        let st = render_state(ts, w, n - 1);
        assert(st.3 == c - 1);
        assert(st.0 + tile_top(t) =~= rows_before(ts, w as int, r) + row_part(sub, 0));
        assert(st.1 + tile_middle(t) =~= row_part(sub, 1));
        assert(st.2 + tile_bottom(t) =~= row_part(sub, 2));
    } else if r > 0 {
        assert((r - 1) * w + w == r * w) by (nonlinear_arith);
        lemma_render_state(ts, w, (r - 1) as nat, w as nat);
        lemma_join_row(ts, w as int, (r - 1) as nat);
        assert(((r - 1) as nat + 1) as nat == r);
        assert(sub.drop_last() =~= Seq::<Tile>::empty());
        let st = render_state(ts, w, n - 1);
        assert(st.3 == w);
        let u = rows_before(ts, w as int, (r - 1) as nat) + row_part(row_of(ts, w as int, r - 1), 0);
        let m = row_part(row_of(ts, w as int, r - 1), 1);
        let d = row_part(row_of(ts, w as int, r - 1), 2);
        assert(st == (u, m, d, w as int));
        assert(u + seq!['\n'] + m + seq!['\n'] + d + seq!['\n'] + tile_top(t) =~= rows_before(
            ts,
            w as int,
            r,
        ) + row_part(sub, 0));
        assert(row_part(sub, 1) =~= tile_middle(t));
        assert(row_part(sub, 2) =~= tile_bottom(t));
    } else {
        assert(n == 1);
        assert(sub.drop_last() =~= Seq::<Tile>::empty());
        let st = render_state(ts, w, 0);
        assert(st == (Seq::<char>::empty(), Seq::<char>::empty(), Seq::<char>::empty(), 0int));
        assert(row_part(sub, 0) =~= tile_top(t));
        assert(row_part(sub, 1) =~= tile_middle(t));
        assert(row_part(sub, 2) =~= tile_bottom(t));
        assert(Seq::<char>::empty() + tile_top(t) =~= rows_before(ts, w as int, r) + row_part(sub, 0));
    }
}

/// A layout of `r` full rows is drawn as its lines joined by line breaks.
proof fn lemma_render_layout_lines(ts: Seq<Tile>, w: u8, r: nat)
    requires
        w >= 1,
        r >= 1,
        ts.len() == r * w,
    ensures
        render_layout(ts, w) == join_lines(layout_lines(ts, w as int, r)),
{
    assert((r - 1) * w + w == r * w) by (nonlinear_arith);
    lemma_render_state(ts, w, (r - 1) as nat, w as nat);
    lemma_join_row(ts, w as int, (r - 1) as nat);
    assert(((r - 1) as nat + 1) as nat == r);
}

proof fn lemma_tile_part(t: Tile, p: int)
    ensures
        tile_part(t, p).len() == 3,
        all_drawable(tile_part(t, p)),
{
    let s = tile_part(t, p);
    assert forall|i: int| 0 <= i < s.len() implies drawable(#[trigger] s[i]) by {
        match t.left {
            Some(e) => match e {
                Edge::Wall(_) => {},
                Edge::Trap(_) => {},
            },
            None => {},
        }
    }
}

/// A row's lines are its tiles' lines side by side.
proof fn lemma_row_part(s: Seq<Tile>, p: int)
    ensures
        row_part(s, p).len() == 3 * s.len(),
        all_drawable(row_part(s, p)),
        forall|j: int, o: int|
            0 <= j < s.len() && 0 <= o < 3 ==> row_part(s, p)[3 * j + o] == #[trigger] tile_part(
                s[j],
                p,
            )[o],
    decreases s.len(),
{
    if s.len() > 0 {
        let d = s.drop_last();
        lemma_row_part(d, p);
        lemma_tile_part(s.last(), p);
        let a = row_part(d, p);
        let b = tile_part(s.last(), p);
        let r = row_part(s, p);
        assert(r == a + b);
        assert forall|i: int| 0 <= i < r.len() implies drawable(#[trigger] r[i]) by {
            if i < a.len() {
                assert(r[i] == a[i]);
            } else {
                assert(r[i] == b[i - a.len()]);
            }
        }
        assert forall|j: int, o: int| 0 <= j < s.len() && 0 <= o < 3 implies r[3 * j + o]
            == #[trigger] tile_part(s[j], p)[o] by {
            if j < d.len() {
                assert(d[j] == s[j]);
                assert(r[3 * j + o] == a[3 * j + o]);
            } else {
                assert(r[3 * j + o] == b[o]);
            }
        }
    }
}

proof fn lemma_layout_lines(ts: Seq<Tile>, w: int, r: nat)
    ensures
        layout_lines(ts, w, r).len() == 3 * r,
        forall|y: int, p: int|
            0 <= y < r && 0 <= p < 3 ==> #[trigger] layout_lines(ts, w, r)[3 * y + p] == row_part(
                row_of(ts, w, y),
                p,
            ),
    decreases r,
{
    if r > 0 {
        lemma_layout_lines(ts, w, (r - 1) as nat);
        let l = layout_lines(ts, w, (r - 1) as nat);
        let row = row_of(ts, w, r - 1);
        let n = layout_lines(ts, w, r);
        assert(n == l + seq![row_part(row, 0), row_part(row, 1), row_part(row, 2)]);
        assert forall|y: int, p: int| 0 <= y < r && 0 <= p < 3 implies #[trigger] n[3 * y + p]
            == row_part(row_of(ts, w, y), p) by {
            if y < r - 1 {
                assert(n[3 * y + p] == l[3 * y + p]);
            } else {
                assert(n[3 * y + p] == seq![row_part(row, 0), row_part(row, 1), row_part(row, 2)][p]);
            }
        }
    }
}

proof fn lemma_utf8_drawable(s: Seq<char>)
    requires
        all_drawable(s),
    ensures
        utf8_len(s) == s.len(),
    decreases s.len(),
{
    if s.len() > 0 {
        assert(drawable(s[s.len() - 1]));
        assert(all_drawable(s.drop_last())) by {
            assert forall|i: int| 0 <= i < s.drop_last().len() implies drawable(
                #[trigger] s.drop_last()[i],
            ) by {
                assert(s.drop_last()[i] == s[i]);
            }
        }
        lemma_utf8_drawable(s.drop_last());
    }
}

proof fn lemma_read_edge(e: Option<Edge>, d: Direction)
    ensures
        default_edge(opt_edge_char(e, d), d) == Ok::<Option<Edge>, BuildErrorV>(e),
{
    match e {
        Some(x) => match x {
            Edge::Wall(_) => {},
            Edge::Trap(_) => {},
        },
        None => {},
    }
}

proof fn lemma_read_center(c: Option<Center>)
    ensures
        default_center(
            match c {
                Some(x) => center_char(x),
                None => ' ',
            },
        ) == Ok::<Option<Center>, BuildErrorV>(c),
{
    match c {
        Some(x) => match x {
            Center::Trap(_) => {},
        },
        None => {},
    }
}

/// Reading the symbols a tile was drawn with gives the tile back.
proof fn lemma_tile_at(t: Tile, rd: Readers, up: Seq<char>, mid: Seq<char>, down: Seq<char>, j: int)
    requires
        rd.edges is None,
        rd.centers is None,
        up[3 * j + 1] == tile_part(t, 0)[1],
        mid[3 * j] == tile_part(t, 1)[0],
        mid[3 * j + 1] == tile_part(t, 1)[1],
        mid[3 * j + 2] == tile_part(t, 1)[2],
        down[3 * j + 1] == tile_part(t, 2)[1],
    ensures
        tile_at(rd, up, mid, down, j) == Ok::<Tile, BuildErrorV>(t),
{
    lemma_read_edge(t.up, Direction::Up);
    lemma_read_edge(t.left, Direction::Left);
    lemma_read_edge(t.right, Direction::Right);
    lemma_read_edge(t.down, Direction::Down);
    lemma_read_center(t.occupier);
    assert(tile_part(t, 0)[1] == opt_edge_char(t.up, Direction::Up));
    assert(tile_part(t, 2)[1] == opt_edge_char(t.down, Direction::Down));
}

/// Reading a drawn row gives its tiles back.
proof fn lemma_row_tiles(s: Seq<Tile>, rd: Readers, k: int)
    requires
        rd.edges is None,
        rd.centers is None,
        0 <= k <= s.len(),
    ensures
        row_tiles(rd, row_part(s, 0), row_part(s, 1), row_part(s, 2), k) == Ok::<
            Seq<Tile>,
            BuildErrorV,
        >(s.subrange(0, k)),
    decreases k,
{
    if k > 0 {
        lemma_row_tiles(s, rd, k - 1);
        lemma_row_part(s, 0);
        lemma_row_part(s, 1);
        lemma_row_part(s, 2);
        let t = s[k - 1];
        let j = k - 1;
        assert(row_part(s, 0)[3 * j + 1] == tile_part(t, 0)[1]);
        assert(row_part(s, 1)[3 * j + 0] == tile_part(t, 1)[0]);
        assert(row_part(s, 1)[3 * j + 1] == tile_part(t, 1)[1]);
        assert(row_part(s, 1)[3 * j + 2] == tile_part(t, 1)[2]);
        assert(row_part(s, 2)[3 * j + 1] == tile_part(t, 2)[1]);
        lemma_tile_at(t, rd, row_part(s, 0), row_part(s, 1), row_part(s, 2), j);
        assert(s.subrange(0, k - 1).push(t) =~= s.subrange(0, k));
    } else {
        assert(s.subrange(0, 0) =~= Seq::<Tile>::empty());
    }
}

/// Reading the first `n` drawn rows gives their tiles back.
proof fn lemma_parse_rows(ts: Seq<Tile>, w: int, r: nat, rd: Readers, n: nat)
    requires
        rd.edges is None,
        rd.centers is None,
        w >= 1,
        n <= r,
        ts.len() == r * w,
    ensures
        parse_rows(rd, layout_lines(ts, w, r), 3 * w, n as int) == Ok::<Seq<Tile>, BuildErrorV>(
            ts.subrange(0, n * w),
        ),
    decreases n,
{
    if n > 0 {
        lemma_parse_rows(ts, w, r, rd, (n - 1) as nat);
        lemma_layout_lines(ts, w, r);
        let y = n - 1;
        assert(y * w + w == n * w) by (nonlinear_arith)
            requires
                y == n - 1,
        ;
        assert(n * w <= r * w) by (nonlinear_arith)
            requires
                n <= r,
                w >= 1,
        ;
        assert(0 <= y * w) by (nonlinear_arith)
            requires
                y >= 0,
                w >= 1,
        ;
        let row = row_of(ts, w, y);
        assert(row.len() == w);
        let lines = layout_lines(ts, w, r);
        assert(lines[3 * y + 0] == row_part(row, 0));
        assert(lines[3 * y + 1] == row_part(row, 1));
        assert(lines[3 * y + 2] == row_part(row, 2));
        lemma_row_part(row, 0);
        lemma_row_part(row, 1);
        lemma_row_part(row, 2);
        lemma_utf8_drawable(row_part(row, 0));
        lemma_utf8_drawable(row_part(row, 1));
        lemma_utf8_drawable(row_part(row, 2));
        assert(row_count(row_part(row, 0), row_part(row, 1), row_part(row, 2)) == w);
        lemma_row_tiles(row, rd, w);
        assert(row.subrange(0, w) =~= row);
        assert(ts.subrange(0, y * w) + row =~= ts.subrange(0, n * w));
    } else {
        assert(ts.subrange(0, 0) =~= Seq::<Tile>::empty());
    }
}

/// `s` with every line feed preceded by a carriage return: the same text saved
/// with Windows line endings.
pub open spec fn crlf(s: Seq<char>) -> Seq<char>
    decreases s.len(),
{
    if s.len() == 0 {
        s
    } else if s[0] == '\n' {
        seq!['\r', '\n'] + crlf(s.drop_first())
    } else {
        seq![s[0]] + crlf(s.drop_first())
    }
}

/// No carriage return in `s`.
pub open spec fn no_cr(s: Seq<char>) -> bool {
    forall|i: int| 0 <= i < s.len() ==> s[i] != '\r'
}

proof fn lemma_split_from_crlf(s: Seq<char>, cur: Seq<char>)
    requires
        no_cr(s),
        no_cr(cur),
    ensures
        split_from(crlf(s), cur) == split_from(s, cur),
    decreases s.len(),
{
    if s.len() > 0 {
        let rest = s.drop_first();
        assert(no_cr(rest)) by {
            assert forall|i: int| 0 <= i < rest.len() implies rest[i] != '\r' by {
                assert(rest[i] == s[i + 1]);
            }
        }
        let t = crlf(s);
        if s[0] == '\n' {
            lemma_split_from_crlf(rest, seq![]);
            assert(t[0] == '\r');
            assert(t.drop_first()[0] == '\n');
            assert(t.drop_first().drop_first() =~= crlf(rest));
            let c1 = cur.push('\r');
            assert(split_from(t, cur) == split_from(t.drop_first(), c1));
            assert(split_from(t.drop_first(), c1) == seq![strip_cr(c1)] + split_from(
                t.drop_first().drop_first(),
                seq![],
            ));
            assert(strip_cr(c1) =~= cur);
            if cur.len() > 0 {
                assert(cur.last() != '\r');
            }
            assert(strip_cr(cur) == cur);
        } else {
            assert(t.drop_first() =~= crlf(rest));
            let c1 = cur.push(s[0]);
            assert(no_cr(c1)) by {
                assert forall|i: int| 0 <= i < c1.len() implies c1[i] != '\r' by {
                    if i < cur.len() {
                        assert(c1[i] == cur[i]);
                    }
                }
            }
            lemma_split_from_crlf(rest, c1);
        }
    }
}

/// Reading a layout does not depend on the line-ending style: a text without
/// carriage returns reads the same, tile for tile or error for error, as that
/// text saved with Windows line endings; its lines are the same.
pub proof fn law_build_ignores_line_endings(readers: Readers, text: Seq<char>)
    requires
        no_cr(text),
    ensures
        split_lines(crlf(text)) == split_lines(text),
        build_result(readers, crlf(text)) == build_result(readers, text),
{
    lemma_split_from_crlf(text, seq![]);
}

/// Drawing a layout and reading the drawing back with the built-in readings gives
/// the layout again: the same tiles, and as many per row, for a layout of whole
/// rows with at least one tile.
pub proof fn law_render_then_build(ts: Seq<Tile>, w: u8, readers: Readers)
    requires
        w >= 1,
        ts.len() >= 1,
        (ts.len() as int) % (w as int) == 0,
        readers.edges is None,
        readers.centers is None,
    ensures
        build_result(readers, render_layout(ts, w)) == Ok::<(Seq<Tile>, u8), BuildErrorV>((ts, w)),
{
    let wi = w as int;
    let len = ts.len() as int;
    let r = (len / wi) as nat;
    vstd::arithmetic::div_mod::lemma_fundamental_div_mod(len, wi);
    assert(len == r * wi) by (nonlinear_arith)
        requires
            len == wi * (len / wi) + len % wi,
            len % wi == 0,
            r == len / wi,
    ;
    assert(r >= 1) by (nonlinear_arith)
        requires
            len == r * wi,
            len >= 1,
            wi >= 1,
    ;
    lemma_render_layout_lines(ts, w, r);
    let lines = layout_lines(ts, wi, r);
    lemma_layout_lines(ts, wi, r);
    assert forall|k: int| 0 <= k < lines.len() implies all_drawable(#[trigger] lines[k]) by {
        let y = k / 3;
        let p = k % 3;
        assert(k == 3 * y + p);
        lemma_row_part(row_of(ts, wi, y), p);
    }
    let last_row = row_of(ts, wi, r - 1);
    assert((r - 1) * wi + wi == r * wi) by (nonlinear_arith);
    assert(0 <= (r - 1) * wi) by (nonlinear_arith)
        requires
            r >= 1,
            wi >= 1,
    ;
    assert(last_row.len() == wi);
    lemma_row_part(last_row, 2);
    assert(lines[3 * (r - 1) + 2] == row_part(last_row, 2));
    assert(lines.last() == lines[3 * (r - 1) + 2]);
    lemma_split_join(lines);
    let first_row = row_of(ts, wi, 0);
    assert(first_row.len() == wi);
    assert(lines[3 * 0int + 0int] == row_part(first_row, 0));
    lemma_row_part(first_row, 0);
    lemma_utf8_drawable(row_part(first_row, 0));
    lemma_parse_rows(ts, wi, r, readers, r);
    assert(ts.subrange(0, r * wi) =~= ts);
    assert((3 * r) / 3 == r);
    assert((3 * wi) / 3 == wi);
}

} // verus!

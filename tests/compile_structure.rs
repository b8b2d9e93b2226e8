use ribosome::config::{Config, Mode};
use ribosome::structure::{Block, BlockState, CompileError, Palette, Structure};
use ribosome::tag::Tag;

fn entry(name: &str) -> Palette {
    Palette { name: name.to_string(), properties: None }
}

fn block(state: usize, pos: [i32; 3]) -> Block {
    Block { state, pos, nbt: None }
}

fn structure(size: [i32; 3], palette: Vec<Palette>, blocks: Vec<Block>) -> Structure {
    Structure { data_version: 2586, size, palette, blocks }
}

const HEAD: &str = "execute if score #structure.pass ffi.ribosome matches 1 unless block ";
const TAIL: &str = " run scoreboard players set #structure.pass ffi.ribosome 0";
const INIT: &str = "scoreboard players set #structure.pass ffi.ribosome 1";

#[test]
fn empty_structure_gives_init_line() {
    let s = structure([1, 1, 1], vec![], vec![]);
    assert_eq!(s.compile(&Config::default()), Ok(INIT.to_string()));
}

#[test]
fn corner_keeps_raw_positions() {
    let s = structure([4, 4, 4], vec![entry("minecraft:stone")], vec![block(0, [1, 2, 3])]);
    let out = s.compile(&Config::default()).unwrap();
    assert_eq!(out, format!("{}\n{}~1 ~2 ~3 minecraft:stone{}", INIT, HEAD, TAIL));
}

#[test]
fn center_offsets_by_half_size() {
    let s = structure([4, 4, 4], vec![entry("minecraft:stone")], vec![block(0, [2, 2, 2])]);
    let mut config = Config::default();
    config.set_mode("center");
    let out = s.compile(&config).unwrap();
    assert_eq!(out, format!("{}\n{}~0 ~0 ~0 minecraft:stone{}", INIT, HEAD, TAIL));
}

#[test]
fn center_top_and_bottom_offsets() {
    let s = structure([5, 3, 7], vec![entry("minecraft:stone")], vec![block(0, [0, 0, 0])]);
    let mut config = Config::default();
    config.mode = Mode::CenterTop;
    assert_eq!(s.calculate_pos([0, 0, 0], &config), [-2, -3, -3]);
    config.mode = Mode::CenterBottom;
    assert_eq!(s.calculate_pos([0, 0, 0], &config), [-2, 0, -3]);
    config.mode = Mode::Center;
    assert_eq!(s.calculate_pos([0, 0, 0], &config), [-2, -1, -3]);
}

#[test]
fn center_rounds_toward_zero_for_negative_size() {
    let s = structure([-3, -5, -1], vec![], vec![]);
    let mut config = Config::default();
    config.mode = Mode::Center;
    assert_eq!(s.calculate_pos([0, 0, 0], &config), [1, 2, 0]);
}

#[test]
fn positions_do_not_overflow() {
    let s = structure([i32::MIN, i32::MIN, i32::MIN], vec![], vec![]);
    let mut config = Config::default();
    config.mode = Mode::CenterTop;
    assert_eq!(
        s.calculate_pos([i32::MAX, i32::MAX, i32::MAX], &config),
        [3221225471, 4294967295, 3221225471]
    );
}

#[test]
fn void_skips_air_only_when_set() {
    let s = structure(
        [2, 1, 1],
        vec![entry("minecraft:air"), entry("minecraft:stone")],
        vec![block(0, [0, 0, 0]), block(1, [1, 0, 0])],
    );
    let mut config = Config::default();
    config.void = true;
    let out = s.compile(&config).unwrap();
    assert_eq!(out, format!("{}\n{}~1 ~0 ~0 minecraft:stone{}", INIT, HEAD, TAIL));
    config.void = false;
    let out = s.compile(&config).unwrap();
    assert_eq!(
        out,
        format!(
            "{}\n{}~0 ~0 ~0 minecraft:air{}\n{}~1 ~0 ~0 minecraft:stone{}",
            INIT, HEAD, TAIL, HEAD, TAIL
        )
    );
}

#[test]
fn line_count_follows_kept_blocks() {
    let s = structure(
        [3, 1, 1],
        vec![entry("minecraft:air"), entry("minecraft:dirt")],
        vec![block(0, [0, 0, 0]), block(1, [1, 0, 0]), block(1, [2, 0, 0])],
    );
    let mut config = Config::default();
    config.void = true;
    assert_eq!(s.compile(&config).unwrap().lines().count(), 3);
    config.void = false;
    assert_eq!(s.compile(&config).unwrap().lines().count(), 4);
}

fn rich_structure() -> Structure {
    let palette = vec![Palette {
        name: "minecraft:chest".to_string(),
        properties: Some(BlockState::Compound(vec![
            ("facing".to_string(), "north".to_string()),
            ("waterlogged".to_string(), "false".to_string()),
        ])),
    }];
    let nbt = Tag::Compound(vec![("Lock".to_string(), Tag::String("key".to_string()))]);
    let blocks = vec![Block { state: 0, pos: [0, 1, 0], nbt: Some(nbt) }];
    structure([1, 2, 1], palette, blocks)
}

#[test]
fn state_and_nbt_fragments() {
    let out = rich_structure().compile(&Config::default()).unwrap();
    assert_eq!(
        out,
        format!(
            "{}\n{}~0 ~1 ~0 minecraft:chest[facing=north, waterlogged=false]{{Lock: \"key\"}}{}",
            INIT, HEAD, TAIL
        )
    );
}

#[test]
fn ignore_flags_drop_fragments() {
    let s = rich_structure();
    let mut config = Config::default();
    config.ignore_block_state = true;
    let out = s.compile(&config).unwrap();
    assert_eq!(
        out,
        format!("{}\n{}~0 ~1 ~0 minecraft:chest{{Lock: \"key\"}}{}", INIT, HEAD, TAIL)
    );
    config.ignore_block_state = false;
    config.ignore_nbt = true;
    let out = s.compile(&config).unwrap();
    assert_eq!(
        out,
        format!(
            "{}\n{}~0 ~1 ~0 minecraft:chest[facing=north, waterlogged=false]{}",
            INIT, HEAD, TAIL
        )
    );
}

#[test]
fn non_compound_state_is_empty() {
    let s = structure([1, 1, 1], vec![], vec![]);
    assert_eq!(s.compile_block_state(&BlockState::Other), "");
    assert_eq!(s.compile_block_state(&BlockState::Compound(vec![])), "[]");
    let palette = vec![Palette {
        name: "minecraft:glass".to_string(),
        properties: Some(BlockState::Other),
    }];
    let s = structure([1, 1, 1], palette, vec![block(0, [0, 0, 0])]);
    let out = s.compile(&Config::default()).unwrap();
    assert_eq!(out, format!("{}\n{}~0 ~0 ~0 minecraft:glass{}", INIT, HEAD, TAIL));
}

#[test]
fn custom_score_names() {
    let s = structure([1, 1, 1], vec![entry("minecraft:stone")], vec![block(0, [-1, 0, 7])]);
    let mut config = Config::default();
    config.set_scoreboard("@p");
    config.set_objective("obj");
    assert_eq!(
        s.compile(&config).unwrap(),
        "scoreboard players set @p obj 1\nexecute if score @p obj matches 1 unless block ~-1 ~0 ~7 minecraft:stone run scoreboard players set @p obj 0"
    );
}

#[test]
fn bad_state_index_fails() {
    let s = structure(
        [2, 1, 1],
        vec![entry("minecraft:stone")],
        vec![block(0, [0, 0, 0]), block(5, [1, 0, 0]), block(3, [1, 0, 0])],
    );
    assert_eq!(
        s.compile(&Config::default()),
        Err(CompileError::StateOutOfRange { block: 1, state: 5 })
    );
}

#[test]
fn bad_state_index_fails_even_when_skipping() {
    let s = structure([1, 1, 1], vec![entry("minecraft:air")], vec![block(1, [0, 0, 0])]);
    let mut config = Config::default();
    config.void = true;
    assert_eq!(
        s.compile(&config),
        Err(CompileError::StateOutOfRange { block: 0, state: 1 })
    );
}

#[test]
fn compile_twice_is_identical() {
    let s = rich_structure();
    let config = Config::default();
    assert_eq!(s.compile(&config), s.compile(&config));
}

//! The structure document and its compilation into test commands.
use vstd::prelude::*;
use vstd::string::StringExecFns;
use crate::config::{Config, Mode};
use crate::tag::{encode, encode_spec, lemma_encode_unbroken, tag_unbroken, Tag};
use crate::text::{
    int_text, join, lemma_int_text_unbroken, lemma_join_line_breaks, lemma_join_push,
    lemma_join_take, lemma_join_unbroken, lemma_unbroken_add, line_breaks, push_int, unbroken,
};

verus! {

/// The state properties of a palette entry: `key=value` pairs, each value as its
/// plain display text, or a value that is no compound and so gives no state.
#[derive(Debug)]
pub enum BlockState {
    Compound(Vec<(String, String)>),
    Other,
}

/// A block type: its identifier and, optionally, its state properties.
#[derive(Debug)]
pub struct Palette {
    pub name: String,
    pub properties: Option<BlockState>,
}

/// One placed block: an index into the palette, its grid position and,
/// optionally, its auxiliary data.
#[derive(Debug)]
pub struct Block {
    pub state: usize,
    pub pos: [i32; 3],
    pub nbt: Option<Tag>,
}

/// A decoded structure document.
#[derive(Debug)]
pub struct Structure {
    pub data_version: i32,
    pub size: [i32; 3],
    pub palette: Vec<Palette>,
    pub blocks: Vec<Block>,
}

/// Why a structure could not be compiled.
#[derive(Debug, PartialEq, Eq, Structural)]
pub enum CompileError {
    /// The block at index `block` refers to palette entry `state`, which does not exist.
    StateOutOfRange { block: usize, state: usize },
}

/// Half of `d`, rounded toward zero.
pub open spec fn half(d: int) -> int {
    if d >= 0 {
        d / 2
    } else {
        -((-d) / 2)
    }
}

/// The grid point that becomes the origin of the relative coordinates.
pub open spec fn offset_spec(size: [i32; 3], mode: Mode) -> (int, int, int) {
    match mode {
        Mode::Corner => (0, 0, 0),
        Mode::Center => (half(size[0] as int), half(size[1] as int), half(size[2] as int)),
        Mode::CenterTop => (half(size[0] as int), size[1] as int, half(size[2] as int)),
        Mode::CenterBottom => (half(size[0] as int), 0, half(size[2] as int)),
    }
}

/// The identifier of the empty block.
pub open spec fn air_id() -> Seq<char> {
    "minecraft:air"@
}

/// `[k1=v1, k2=v2, ...]` for compound properties; nothing otherwise.
pub open spec fn state_fragment(states: BlockState) -> Seq<char> {
    match states {
        BlockState::Compound(v) => "["@ + join(
            v@.map_values(|e: (String, String)| e.0@ + "="@ + e.1@),
            ", "@,
        ) + "]"@,
        BlockState::Other => Seq::empty(),
    }
}

/// The state part of a block's command.
pub open spec fn state_part(properties: Option<BlockState>, config: Config) -> Seq<char> {
    match properties {
        Some(states) => if config.ignore_block_state {
            Seq::empty()
        } else {
            state_fragment(states)
        },
        None => Seq::empty(),
    }
}

/// The auxiliary-data part of a block's command.
pub open spec fn nbt_part(nbt: Option<Tag>, config: Config) -> Seq<char> {
    match nbt {
        Some(t) => if config.ignore_nbt {
            Seq::empty()
        } else {
            encode_spec(t)
        },
        None => Seq::empty(),
    }
}

/// The score holder and objective, as they stand in a command.
pub open spec fn score_text(config: Config) -> Seq<char> {
    config.scoreboard@ + " "@ + config.objective@
}

/// Relative coordinates, `~x ~y ~z`.
pub open spec fn coords_text(p: (int, int, int)) -> Seq<char> {
    "~"@ + int_text(p.0) + " ~"@ + int_text(p.1) + " ~"@ + int_text(p.2)
}

/// The first line of the output, which arms the score.
pub open spec fn init_line(config: Config) -> Seq<char> {
    "scoreboard players set "@ + score_text(config) + " 1"@
}

/// No text of the palette entry holds a line break.
pub open spec fn palette_unbroken(entry: Palette) -> bool {
    unbroken(entry.name@) && match entry.properties {
        Some(BlockState::Compound(v)) => forall|j: int|
            0 <= j < v@.len() ==> unbroken(#[trigger] v@[j].0@) && unbroken(v@[j].1@),
        _ => true,
    }
}

/// No text of the block's auxiliary data holds a line break.
pub open spec fn block_unbroken(block: Block) -> bool {
    match block.nbt {
        Some(t) => tag_unbroken(t),
        None => true,
    }
}

impl Structure {
    /// Every one of the first `n` blocks refers to an existing palette entry.
    pub open spec fn states_valid(self, n: int) -> bool {
        forall|i: int| 0 <= i < n ==> #[trigger] self.blocks@[i].state < self.palette@.len()
    }

    /// The block's coordinates relative to the origin that `mode` picks.
    pub open spec fn position_spec(self, pos: [i32; 3], mode: Mode) -> (int, int, int) {
        let o = offset_spec(self.size, mode);
        (pos[0] - o.0, pos[1] - o.1, pos[2] - o.2)
    }

    /// The block is left out: empty blocks are skipped and this is one.
    pub open spec fn skipped(self, config: Config, block: Block) -> bool {
        config.void && self.palette@[block.state as int].name@ == air_id()
    }

    /// What follows the coordinates in a block's command: identifier, state,
    /// auxiliary data and the action that clears the score.
    pub open spec fn line_tail(self, config: Config, block: Block) -> Seq<char> {
        let entry = self.palette@[block.state as int];
        " "@ + entry.name@ + state_part(entry.properties, config) + nbt_part(block.nbt, config)
            + " run scoreboard players set "@ + score_text(config) + " 0"@
    }

    /// The command that tests one block.
    pub open spec fn line_spec(self, config: Config, block: Block) -> Seq<char> {
        "execute if score "@ + score_text(config) + " matches 1 unless block "@ + coords_text(
            self.position_spec(block.pos, config.mode),
        ) + self.line_tail(config, block)
    }

    /// Whether a block gets a line.
    pub open spec fn kept(self, config: Config) -> spec_fn(Block) -> bool {
        |b: Block| !self.skipped(config, b)
    }

    /// The commands for the blocks that are not skipped, in order.
    pub open spec fn block_lines(self, config: Config, blocks: Seq<Block>) -> Seq<Seq<char>>
        decreases blocks.len(),
    {
        if blocks.len() == 0 {
            Seq::empty()
        } else {
            let prev = self.block_lines(config, blocks.drop_last());
            if self.skipped(config, blocks.last()) {
                prev
            } else {
                prev.push(self.line_spec(config, blocks.last()))
            }
        }
    }

    /// All output lines: the first line, then one per block that is not skipped.
    pub open spec fn lines_spec(self, config: Config) -> Seq<Seq<char>> {
        seq![init_line(config)] + self.block_lines(config, self.blocks@)
    }

    /// The output text: the lines joined by line breaks.
    pub open spec fn compile_spec(self, config: Config) -> Seq<char> {
        join(self.lines_spec(config), "\n"@)
    }

    /// No text that goes into the output holds a line break.
    pub open spec fn inputs_unbroken(self, config: Config) -> bool {
        &&& unbroken(config.scoreboard@)
        &&& unbroken(config.objective@)
        &&& forall|i: int| 0 <= i < self.palette@.len() ==> palette_unbroken(#[trigger] self.palette@[i])
        &&& forall|i: int| 0 <= i < self.blocks@.len() ==> block_unbroken(#[trigger] self.blocks@[i])
    }

    /// `e` names the first block whose palette index is out of range.
    pub open spec fn first_violation(self, e: CompileError) -> bool {
        match e {
            CompileError::StateOutOfRange { block, state } => block < self.blocks@.len()
                && state == self.blocks@[block as int].state && state >= self.palette@.len()
                && self.states_valid(block as int),
        }
    }
}

fn push_score(out: &mut String, config: &Config)
    ensures
        final(out)@ == old(out)@ + score_text(*config),
{
    let ghost start = out@;
    out.append(config.scoreboard.as_str());
    out.append(" ");
    out.append(config.objective.as_str());
    assert(out@ =~= start + score_text(*config));
}

fn push_coords(out: &mut String, p: [i64; 3])
    ensures
        final(out)@ == old(out)@ + coords_text((p[0] as int, p[1] as int, p[2] as int)),
{
    let ghost start = out@;
    out.append("~");
    push_int(out, p[0]);
    out.append(" ~");
    push_int(out, p[1]);
    out.append(" ~");
    push_int(out, p[2]);
    assert(out@ =~= start + coords_text((p[0] as int, p[1] as int, p[2] as int)));
}

/// The auxiliary-data part of a block's command.
fn nbt_string(nbt: &Option<Tag>, config: &Config) -> (r: String)
    ensures
        r@ == nbt_part(*nbt, *config),
{
    match nbt {
        Some(t) => {
            if config.ignore_nbt {
                String::new()
            } else {
                encode(t)
            }
        },
        None => String::new(),
    }
}

fn half_of(d: i32) -> (r: i64)
    ensures
        r == half(d as int),
{
    let w = d as i64;
    if w >= 0 {
        w / 2
    } else {
        -((-w) / 2)
    }
}

impl Structure {
    /// The point that `config.mode` makes the origin of the emitted coordinates.
    fn offset(&self, config: &Config) -> (r: [i64; 3])
        ensures
            r[0] == offset_spec(self.size, config.mode).0,
            r[1] == offset_spec(self.size, config.mode).1,
            r[2] == offset_spec(self.size, config.mode).2,
    {
        match config.mode {
            Mode::Corner => [0, 0, 0],
            Mode::Center => [half_of(self.size[0]), half_of(self.size[1]), half_of(self.size[2])],
            Mode::CenterTop => [half_of(self.size[0]), self.size[1] as i64, half_of(self.size[2])],
            Mode::CenterBottom => [half_of(self.size[0]), 0, half_of(self.size[2])],
        }
    }

    /// A grid position relative to the origin that `config.mode` picks.
    pub fn calculate_pos(&self, pos: [i32; 3], config: &Config) -> (r: [i64; 3])
        ensures
            r[0] == self.position_spec(pos, config.mode).0,
            r[1] == self.position_spec(pos, config.mode).1,
            r[2] == self.position_spec(pos, config.mode).2,
    {
        let o = self.offset(config);
        [pos[0] as i64 - o[0], pos[1] as i64 - o[1], pos[2] as i64 - o[2]]
    }

    /// The state fragment of compound properties, `[k1=v1, ...]`; empty otherwise.
    pub fn compile_block_state(&self, states: &BlockState) -> (r: String)
        ensures
            r@ == state_fragment(*states),
    {
        let mut out = String::new();
        match states {
            BlockState::Compound(v) => {
                let ghost parts = v@.map_values(|e: (String, String)| e.0@ + "="@ + e.1@);
                out.append("[");
                let mut i: usize = 0;
                while i < v.len()
                    invariant
                        i <= v.len(),
                        parts == v@.map_values(|e: (String, String)| e.0@ + "="@ + e.1@),
                        out@ == "["@ + join(parts.take(i as int), ", "@),
                    decreases v.len() - i,
                {
                    proof {
                        lemma_join_take(parts, ", "@, i as int);
                    }
                    if i > 0 {
                        out.append(", ");
                    }
                    out.append(v[i].0.as_str());
                    out.append("=");
                    out.append(v[i].1.as_str());
                    i += 1;
                }
                assert(parts.take(v.len() as int) =~= parts);
                out.append("]");
            },
            BlockState::Other => {},
        }
        out
    }

    /// The state part of the command for a block of type `entry`.
    fn state_string(&self, entry: &Palette, config: &Config) -> (r: String)
        ensures
            r@ == state_part(entry.properties, *config),
    {
        match &entry.properties {
            Some(states) => {
                if config.ignore_block_state {
                    String::new()
                } else {
                    self.compile_block_state(states)
                }
            },
            None => String::new(),
        }
    }

    /// Appends the command that tests `block`.
    fn push_line(&self, config: &Config, block: &Block, out: &mut String)
        requires
            block.state < self.palette@.len(),
        ensures
            final(out)@ == old(out)@ + self.line_spec(*config, *block),
    {
        let ghost start = out@;
        let entry = &self.palette[block.state];
        let p = self.calculate_pos(block.pos, config);
        let state = self.state_string(entry, config);
        let nbt = nbt_string(&block.nbt, config);
        out.append("execute if score ");
        push_score(out, config);
        out.append(" matches 1 unless block ");
        push_coords(out, p);
        let ghost mid = out@;
        assert(mid =~= start + "execute if score "@ + score_text(*config)
            + " matches 1 unless block "@ + coords_text(self.position_spec(block.pos, config.mode)));
        out.append(" ");
        out.append(entry.name.as_str());
        out.append(state.as_str());
        out.append(nbt.as_str());
        out.append(" run scoreboard players set ");
        push_score(out, config);
        out.append(" 0");
        assert(out@ =~= start + self.line_spec(*config, *block));
    }

    /// The commands for the whole structure, one line each: first the line that
    /// arms the score, then one per block that is not skipped. Fails on the first
    /// block whose palette index is out of range.
    pub fn compile(&self, config: &Config) -> (r: Result<String, CompileError>)
        ensures
            r is Ok <==> self.states_valid(self.blocks@.len() as int),
            r is Ok ==> r->Ok_0@ == self.compile_spec(*config),
            r is Err ==> self.first_violation(r->Err_0),
    {
        let mut out = String::new();
        out.append("scoreboard players set ");
        push_score(&mut out, config);
        out.append(" 1");
        let air = String::from_str("minecraft:air");
        assert(self.blocks@.take(0) =~= Seq::<Block>::empty());
        assert(seq![init_line(*config)] + Seq::<Seq<char>>::empty() =~= seq![init_line(*config)]);
        assert(out@ =~= join(seq![init_line(*config)], "\n"@));
        let mut i: usize = 0;
        while i < self.blocks.len()
            invariant
                i <= self.blocks@.len(),
                air@ == air_id(),
                self.states_valid(i as int),
                out@ == join(
                    seq![init_line(*config)] + self.block_lines(*config, self.blocks@.take(i as int)),
                    "\n"@,
                ),
            decreases self.blocks@.len() - i,
        {
            let block = &self.blocks[i];
            if block.state >= self.palette.len() {
                return Err(CompileError::StateOutOfRange { block: i, state: block.state });
            }
            let ghost prefix = seq![init_line(*config)] + self.block_lines(
                *config,
                self.blocks@.take(i as int),
            );
            assert(self.blocks@.take(i + 1).drop_last() =~= self.blocks@.take(i as int));
            assert(self.blocks@.take(i + 1).last() == self.blocks@[i as int]);
            if !(config.void && self.palette[block.state].name == air) {
                proof {
                    lemma_join_push(prefix, "\n"@, self.line_spec(*config, *block));
                    assert(prefix.push(self.line_spec(*config, *block)) =~= seq![init_line(*config)]
                        + self.block_lines(*config, self.blocks@.take(i + 1)));
                }
                out.append("\n");
                self.push_line(config, block, &mut out);
            }
            i += 1;
        }
        assert(self.blocks@.take(self.blocks@.len() as int) =~= self.blocks@);
        Ok(out)
    }
}

/// Compiling is deterministic: any two results that meet the contract of
/// `compile` on the same structure and options are the same text, or the same error.
pub proof fn lemma_compile_deterministic(
    s: Structure,
    config: Config,
    r1: Result<String, CompileError>,
    r2: Result<String, CompileError>,
)
    requires
        r1 is Ok <==> s.states_valid(s.blocks@.len() as int),
        r1 is Ok ==> r1->Ok_0@ == s.compile_spec(config),
        r1 is Err ==> s.first_violation(r1->Err_0),
        r2 is Ok <==> s.states_valid(s.blocks@.len() as int),
        r2 is Ok ==> r2->Ok_0@ == s.compile_spec(config),
        r2 is Err ==> s.first_violation(r2->Err_0),
    ensures
        r1 is Ok <==> r2 is Ok,
        r1 is Ok ==> r1->Ok_0@ == r2->Ok_0@,
        r1 is Err ==> r1->Err_0 == r2->Err_0,
{
    if r1 is Err {
        let CompileError::StateOutOfRange { block: b1, state: _ } = r1->Err_0;
        let CompileError::StateOutOfRange { block: b2, state: _ } = r2->Err_0;
        if b1 < b2 {
            assert(s.blocks@[b1 as int].state < s.palette@.len());
        } else if b2 < b1 {
            assert(s.blocks@[b2 as int].state < s.palette@.len());
        }
    }
}

/// The block lines are the lines of the kept blocks, in their order.
pub proof fn lemma_block_lines_kept(s: Structure, config: Config, blocks: Seq<Block>)
    ensures
        s.block_lines(config, blocks) == blocks.filter(s.kept(config)).map_values(
            |b: Block| s.line_spec(config, b),
        ),
    decreases blocks.len(),
{
    reveal(Seq::filter);
    if blocks.len() > 0 {
        lemma_block_lines_kept(s, config, blocks.drop_last());
        let prev = blocks.drop_last().filter(s.kept(config));
        assert(prev.push(blocks.last()).map_values(|b: Block| s.line_spec(config, b))
            =~= prev.map_values(|b: Block| s.line_spec(config, b)).push(
            s.line_spec(config, blocks.last()),
        ));
    } else {
        assert(blocks.filter(s.kept(config)).map_values(|b: Block| s.line_spec(config, b))
            =~= Seq::<Seq<char>>::empty());
    }
}

/// The output has one line more than there are blocks that are not skipped.
pub proof fn lemma_line_count(s: Structure, config: Config)
    ensures
        s.lines_spec(config).len() == 1 + s.blocks@.filter(s.kept(config)).len(),
{
    lemma_block_lines_kept(s, config, s.blocks@);
}

/// In corner mode a block's command carries its grid position unchanged.
pub proof fn lemma_corner_keeps_position(s: Structure, config: Config, block: Block)
    requires
        config.mode == Mode::Corner,
    ensures
        s.position_spec(block.pos, config.mode) == (
        block.pos[0] as int,
        block.pos[1] as int,
        block.pos[2] as int,
        ),
        s.line_spec(config, block) == "execute if score "@ + score_text(config)
            + " matches 1 unless block "@ + coords_text(
            (block.pos[0] as int, block.pos[1] as int, block.pos[2] as int),
        ) + s.line_tail(config, block),
{
}

/// A block of the empty type gets no line when empty blocks are skipped, and a
/// line otherwise.
pub proof fn lemma_void_filtering(s: Structure, config: Config, blocks: Seq<Block>, block: Block)
    requires
        block.state < s.palette@.len(),
        s.palette@[block.state as int].name@ == air_id(),
    ensures
        config.void ==> s.block_lines(config, blocks.push(block)) == s.block_lines(config, blocks),
        !config.void ==> s.block_lines(config, blocks.push(block)) == s.block_lines(
            config,
            blocks,
        ).push(s.line_spec(config, block)),
{
    assert(blocks.push(block).drop_last() =~= blocks);
}

/// With the ignore options set, the state part and the auxiliary-data part are empty,
/// whatever the block has.
pub proof fn lemma_ignore_flags(properties: Option<BlockState>, nbt: Option<Tag>, config: Config)
    ensures
        config.ignore_block_state ==> state_part(properties, config) == Seq::<char>::empty(),
        config.ignore_nbt ==> nbt_part(nbt, config) == Seq::<char>::empty(),
{
}

proof fn lemma_line_unbroken(s: Structure, config: Config, block: Block)
    requires
        block.state < s.palette@.len(),
        s.inputs_unbroken(config),
        block_unbroken(block),
    ensures
        unbroken(s.line_spec(config, block)),
{
    broadcast use lemma_unbroken_add;

    reveal_strlit("execute if score ");
    reveal_strlit(" matches 1 unless block ");
    reveal_strlit("~");
    reveal_strlit(" ~");
    reveal_strlit(" ");
    reveal_strlit(" run scoreboard players set ");
    reveal_strlit(" 0");
    reveal_strlit("[");
    reveal_strlit("]");
    reveal_strlit("=");
    reveal_strlit(", ");
    let entry = s.palette@[block.state as int];
    assert(palette_unbroken(entry));
    let p = s.position_spec(block.pos, config.mode);
    lemma_int_text_unbroken(p.0);
    lemma_int_text_unbroken(p.1);
    lemma_int_text_unbroken(p.2);
    match entry.properties {
        Some(BlockState::Compound(v)) => {
            let parts = v@.map_values(|e: (String, String)| e.0@ + "="@ + e.1@);
            assert forall|j: int| 0 <= j < parts.len() implies unbroken(#[trigger] parts[j]) by {
                assert(unbroken(v@[j].0@) && unbroken(v@[j].1@));
            }
            lemma_join_unbroken(parts, ", "@);
        },
        _ => {},
    }
    match block.nbt {
        Some(t) => lemma_encode_unbroken(t),
        None => {},
    }
}

proof fn lemma_block_lines_unbroken(s: Structure, config: Config, n: int)
    requires
        0 <= n <= s.blocks@.len(),
        s.states_valid(n),
        s.inputs_unbroken(config),
    ensures
        forall|i: int|
            0 <= i < s.block_lines(config, s.blocks@.take(n)).len() ==> unbroken(
                #[trigger] s.block_lines(config, s.blocks@.take(n))[i],
            ),
    decreases n,
{
    if n > 0 {
        lemma_block_lines_unbroken(s, config, n - 1);
        assert(s.blocks@.take(n).drop_last() =~= s.blocks@.take(n - 1));
        assert(s.blocks@.take(n).last() == s.blocks@[n - 1]);
        assert(s.blocks@[n - 1].state < s.palette@.len());
        assert(block_unbroken(s.blocks@[n - 1]));
        lemma_line_unbroken(s, config, s.blocks@[n - 1]);
        let prev = s.block_lines(config, s.blocks@.take(n - 1));
        let cur = s.block_lines(config, s.blocks@.take(n));
        assert forall|i: int| 0 <= i < cur.len() implies unbroken(#[trigger] cur[i]) by {
            if i < prev.len() {
                assert(cur[i] == prev[i]);
            }
        }
    }
}

/// When no text that goes into it holds a line break, the compiled text has
/// exactly one line break per block that is not skipped, and so one line more
/// than there are such blocks.
pub proof fn lemma_output_line_breaks(s: Structure, config: Config)
    requires
        s.states_valid(s.blocks@.len() as int),
        s.inputs_unbroken(config),
    ensures
        line_breaks(s.compile_spec(config)) == s.blocks@.filter(s.kept(config)).len(),
{
    broadcast use lemma_unbroken_add;

    reveal_strlit("scoreboard players set ");
    reveal_strlit(" 1");
    reveal_strlit(" ");
    lemma_block_lines_unbroken(s, config, s.blocks@.len() as int);
    assert(s.blocks@.take(s.blocks@.len() as int) =~= s.blocks@);
    let lines = s.lines_spec(config);
    assert forall|i: int| 0 <= i < lines.len() implies unbroken(#[trigger] lines[i]) by {
        if i > 0 {
            assert(lines[i] == s.block_lines(config, s.blocks@)[i - 1]);
        }
    }
    lemma_join_line_breaks(lines);
    lemma_line_count(s, config);
}

} // verus!

//! Output options of a compile.
use vstd::prelude::*;
use vstd::string::StringExecFns;

verus! {

/// Where the origin of the emitted relative coordinates lies within the structure.
#[derive(Debug, Clone, Copy, PartialEq, Eq, Structural)]
pub enum Mode {
    Corner,
    Center,
    CenterTop,
    CenterBottom,
}

impl Default for Mode {
    fn default() -> (r: Self)
        ensures
            r == Mode::Corner,
    {
        Mode::Corner
    }
}

/// The mode a name selects; any other name selects the default, `Corner`.
pub open spec fn mode_of(name: Seq<char>) -> Mode {
    if name == "corner"@ {
        Mode::Corner
    } else if name == "center"@ {
        Mode::Center
    } else if name == "center_top"@ {
        Mode::CenterTop
    } else if name == "center_bottom"@ {
        Mode::CenterBottom
    } else {
        Mode::Corner
    }
}

/// Options of a compile. `scoreboard` is the score holder (at most 40 characters),
/// `objective` the score objective (at most 16); keeping to those limits is the
/// caller's concern.
#[derive(Debug)]
pub struct Config {
    /// Skip blocks whose identifier is the empty block.
    pub void: bool,
    pub scoreboard: String,
    pub objective: String,
    pub mode: Mode,
    /// Leave out each block's auxiliary data.
    pub ignore_nbt: bool,
    /// Leave out each block's state properties.
    pub ignore_block_state: bool,
}

impl PartialEq for Config {
    fn eq(&self, o: &Config) -> (r: bool) {
        self.void == o.void && self.scoreboard == o.scoreboard && self.objective == o.objective
            && self.mode == o.mode && self.ignore_nbt == o.ignore_nbt && self.ignore_block_state
            == o.ignore_block_state
    }
}

impl vstd::std_specs::cmp::PartialEqSpecImpl for Config {
    open spec fn obeys_eq_spec() -> bool {
        true
    }

    open spec fn eq_spec(&self, o: &Config) -> bool {
        self.void == o.void && self.scoreboard@ == o.scoreboard@ && self.objective@
            == o.objective@ && self.mode == o.mode && self.ignore_nbt == o.ignore_nbt
            && self.ignore_block_state == o.ignore_block_state
    }
}

impl Eq for Config {

}

impl Default for Config {
    fn default() -> (r: Self)
        ensures
            !r.void,
            r.scoreboard@ == "#structure.pass"@,
            r.objective@ == "ffi.ribosome"@,
            r.mode == Mode::Corner,
            !r.ignore_nbt,
            !r.ignore_block_state,
    {
        Config {
            void: false,
            scoreboard: String::from_str("#structure.pass"),
            objective: String::from_str("ffi.ribosome"),
            mode: Mode::default(),
            ignore_nbt: false,
            ignore_block_state: false,
        }
    }
}

impl Config {
    /// Sets the score holder; the other options stay.
    pub fn set_scoreboard(&mut self, input: &str)
        ensures
            final(self).scoreboard@ == input@,
            final(self).void == old(self).void,
            final(self).objective@ == old(self).objective@,
            final(self).mode == old(self).mode,
            final(self).ignore_nbt == old(self).ignore_nbt,
            final(self).ignore_block_state == old(self).ignore_block_state,
    {
        self.scoreboard = input.to_owned();
    }

    /// Sets the score objective; the other options stay.
    pub fn set_objective(&mut self, input: &str)
        ensures
            final(self).objective@ == input@,
            final(self).void == old(self).void,
            final(self).scoreboard@ == old(self).scoreboard@,
            final(self).mode == old(self).mode,
            final(self).ignore_nbt == old(self).ignore_nbt,
            final(self).ignore_block_state == old(self).ignore_block_state,
    {
        self.objective = input.to_owned();
    }

    /// Sets the placement mode by its name; the other options stay.
    pub fn set_mode(&mut self, input: &str)
        ensures
            final(self).mode == mode_of(input@),
            final(self).void == old(self).void,
            final(self).scoreboard@ == old(self).scoreboard@,
            final(self).objective@ == old(self).objective@,
            final(self).ignore_nbt == old(self).ignore_nbt,
            final(self).ignore_block_state == old(self).ignore_block_state,
    {
        self.mode = Config::get_mode(input);
    }

    /// The mode named `corner`, `center`, `center_top` or `center_bottom`;
    /// `Corner` for any other name.
    pub fn get_mode(input: &str) -> (r: Mode)
        ensures
            r == mode_of(input@),
    {
        let name = input.to_owned();
        if name == String::from_str("corner") {
            Mode::Corner
        } else if name == String::from_str("center") {
            Mode::Center
        } else if name == String::from_str("center_top") {
            Mode::CenterTop
        } else if name == String::from_str("center_bottom") {
            Mode::CenterBottom
        } else {
            Mode::default()
        }
    }
}

} // verus!

//! Which demo simulation a headless run drives, as the command line names it.

use vstd::prelude::*;

use crate::text::same_text;

verus! {

/// The simulations the runner knows how to build.
#[derive(Debug, Clone, Copy, PartialEq, Eq, Structural)]
pub enum Mode {
    /// Integer movement plus one fractional value. The default.
    Motion,
    /// Seeded randomness and events.
    Chance,
    /// Driven only by the input stream.
    Input,
    /// A field of sprites and a camera that follows a wandering target.
    Scene,
    /// A world constituted from a scene file.
    SceneFile,
    /// Rigid bodies falling onto a ground.
    Physics,
}

/// Sprites in the measured scene unless `--sprites` says otherwise.
pub const MEASURED_SPRITES: usize = 50_000;

/// The name a mode goes by on the command line and in a recording.
pub open spec fn mode_name(mode: Mode) -> Seq<char> {
    match mode {
        Mode::Motion => "motion"@,
        Mode::Chance => "chance"@,
        Mode::Input => "input"@,
        Mode::Scene => "scene"@,
        Mode::SceneFile => "scene-file"@,
        Mode::Physics => "physics"@,
    }
}

/// The mode a name stands for, if it stands for one.
pub open spec fn mode_named(text: Seq<char>) -> Option<Mode> {
    if text == "motion"@ {
        Some(Mode::Motion)
    } else if text == "chance"@ {
        Some(Mode::Chance)
    } else if text == "input"@ {
        Some(Mode::Input)
    } else if text == "scene"@ {
        Some(Mode::Scene)
    } else if text == "scene-file"@ {
        Some(Mode::SceneFile)
    } else if text == "physics"@ {
        Some(Mode::Physics)
    } else {
        None
    }
}

impl Mode {
    /// Every mode, in the order the usage text lists them.
    pub const ALL: [Mode; 6] = [
        Mode::Motion,
        Mode::Chance,
        Mode::Input,
        Mode::Scene,
        Mode::SceneFile,
        Mode::Physics,
    ];

    /// The mode's name.
    pub fn name(self) -> (name: &'static str)
        ensures
            name@ == mode_name(self),
    {
        match self {
            Mode::Motion => "motion",
            Mode::Chance => "chance",
            Mode::Input => "input",
            Mode::Scene => "scene",
            Mode::SceneFile => "scene-file",
            Mode::Physics => "physics",
        }
    }

    /// The mode called `text`, if there is one.
    pub fn parse(text: &str) -> (mode: Option<Mode>)
        ensures
            mode == mode_named(text@),
    {
        if same_text(text, "motion") {
            Some(Mode::Motion)
        } else if same_text(text, "chance") {
            Some(Mode::Chance)
        } else if same_text(text, "input") {
            Some(Mode::Input)
        } else if same_text(text, "scene") {
            Some(Mode::Scene)
        } else if same_text(text, "scene-file") {
            Some(Mode::SceneFile)
        } else if same_text(text, "physics") {
            Some(Mode::Physics)
        } else {
            None
        }
    }
}

impl Default for Mode {
    /// The motion mode, which is what a run that names none drives.
    fn default() -> (mode: Mode)
        ensures
            mode == Mode::Motion,
    {
        Mode::Motion
    }
}

/// Every name parses back to the mode it names.
pub proof fn lemma_name_parses_back(mode: Mode)
    ensures
        mode_named(mode_name(mode)) == Some(mode),
{
    reveal_strlit("motion");
    reveal_strlit("chance");
    reveal_strlit("input");
    reveal_strlit("scene");
    reveal_strlit("scene-file");
    reveal_strlit("physics");
    // Distinct names differ in their length or in their first character.
    assert("motion"@[0] == 'm' && "chance"@[0] == 'c' && "input"@[0] == 'i');
    assert("scene"@[0] == 's' && "scene-file"@[0] == 's' && "physics"@[0] == 'p');
    assert("scene"@.len() == 5 && "scene-file"@.len() == 10);
}

} // verus!

//! G-code command words and their text.
use vstd::prelude::*;

use crate::text::text_eq;

verus! {

/// A G-code command word.
#[derive(Debug, Clone, Copy, PartialEq, Eq, Structural)]
pub enum C {
    /// move
    G1,
    /// clockwise arc
    G2,
    /// counter-clockwise arc
    G3,
    /// pause
    G4,
    /// units in millimetres
    G21,
    /// home the axes
    G28,
    /// probe
    G30,
    /// absolute coordinates
    G90,
    /// relative coordinates
    G91,
    /// set extruder temperature
    M104,
    /// report current temperature
    M105,
    /// fan speed
    M106,
    /// wait for extruder temperature
    M109,
    /// report current position
    M114,
    /// absolute extruder moves
    M82,
    /// relative extruder moves
    M83,
    /// disable steppers
    M84,
    /// show a message on the display
    M117,
    /// a word that names no known command
    Invalid,
    /// no command at all
    Null,
}

/// The text of a command word; both non-commands print as `Err`.
pub open spec fn code_text(c: C) -> Seq<char> {
    match c {
        C::G1 => "G1"@,
        C::G2 => "G2"@,
        C::G3 => "G3"@,
        C::G4 => "G4"@,
        C::G21 => "G21"@,
        C::G28 => "G28"@,
        C::G30 => "G30"@,
        C::G90 => "G90"@,
        C::G91 => "G91"@,
        C::M104 => "M104"@,
        C::M105 => "M105"@,
        C::M106 => "M106"@,
        C::M109 => "M109"@,
        C::M114 => "M114"@,
        C::M82 => "M82"@,
        C::M83 => "M83"@,
        C::M84 => "M84"@,
        C::M117 => "M117"@,
        C::Invalid => "Err"@,
        C::Null => "Err"@,
    }
}

/// The command word that a text names, `Invalid` when it names none.
pub open spec fn code_named(s: Seq<char>) -> C {
    if s == "G1"@ {
        C::G1
    } else if s == "G2"@ {
        C::G2
    } else if s == "G3"@ {
        C::G3
    } else if s == "G4"@ {
        C::G4
    } else if s == "G21"@ {
        C::G21
    } else if s == "G28"@ {
        C::G28
    } else if s == "G30"@ {
        C::G30
    } else if s == "G90"@ {
        C::G90
    } else if s == "G91"@ {
        C::G91
    } else if s == "M104"@ {
        C::M104
    } else if s == "M105"@ {
        C::M105
    } else if s == "M106"@ {
        C::M106
    } else if s == "M109"@ {
        C::M109
    } else if s == "M114"@ {
        C::M114
    } else if s == "M82"@ {
        C::M82
    } else if s == "M83"@ {
        C::M83
    } else if s == "M84"@ {
        C::M84
    } else if s == "M117"@ {
        C::M117
    } else {
        C::Invalid
    }
}

/// The text of a command word.
pub fn gcode_to_str(input: C) -> (r: String)
    ensures
        r@ == code_text(input),
{
    String::from_str(
        match input {
            C::G1 => "G1",
            C::G2 => "G2",
            C::G3 => "G3",
            C::G4 => "G4",
            C::G21 => "G21",
            C::G28 => "G28",
            C::G30 => "G30",
            C::G90 => "G90",
            C::G91 => "G91",
            C::M104 => "M104",
            C::M105 => "M105",
            C::M106 => "M106",
            C::M109 => "M109",
            C::M114 => "M114",
            C::M82 => "M82",
            C::M83 => "M83",
            C::M84 => "M84",
            C::M117 => "M117",
            C::Invalid => "Err",
            C::Null => "Err",
        },
    )
}

/// The command word named by a text (exact, case-sensitive match).
pub fn into_gcode_internal(input: &str) -> (r: C)
    ensures
        r == code_named(input@),
{
    if text_eq(input, "G1") {
        C::G1
    } else if text_eq(input, "G2") {
        C::G2
    } else if text_eq(input, "G3") {
        C::G3
    } else if text_eq(input, "G4") {
        C::G4
    } else if text_eq(input, "G21") {
        C::G21
    } else if text_eq(input, "G28") {
        C::G28
    } else if text_eq(input, "G30") {
        C::G30
    } else if text_eq(input, "G90") {
        C::G90
    } else if text_eq(input, "G91") {
        C::G91
    } else if text_eq(input, "M104") {
        C::M104
    } else if text_eq(input, "M105") {
        C::M105
    } else if text_eq(input, "M106") {
        C::M106
    } else if text_eq(input, "M109") {
        C::M109
    } else if text_eq(input, "M114") {
        C::M114
    } else if text_eq(input, "M82") {
        C::M82
    } else if text_eq(input, "M83") {
        C::M83
    } else if text_eq(input, "M84") {
        C::M84
    } else if text_eq(input, "M117") {
        C::M117
    } else {
        C::Invalid
    }
}

/// The length and characters of each command word's text.
proof fn lemma_code_literals()
    ensures
        "G1"@.len() == 2,
        "G1"@[0] == 'G',
        "G1"@[1] == '1',
        "G2"@.len() == 2,
        "G2"@[0] == 'G',
        "G2"@[1] == '2',
        "G3"@.len() == 2,
        "G3"@[0] == 'G',
        "G3"@[1] == '3',
        "G4"@.len() == 2,
        "G4"@[0] == 'G',
        "G4"@[1] == '4',
        "G21"@.len() == 3,
        "G21"@[0] == 'G',
        "G21"@[1] == '2',
        "G21"@[2] == '1',
        "G28"@.len() == 3,
        "G28"@[0] == 'G',
        "G28"@[1] == '2',
        "G28"@[2] == '8',
        "G30"@.len() == 3,
        "G30"@[0] == 'G',
        "G30"@[1] == '3',
        "G30"@[2] == '0',
        "G90"@.len() == 3,
        "G90"@[0] == 'G',
        "G90"@[1] == '9',
        "G90"@[2] == '0',
        "G91"@.len() == 3,
        "G91"@[0] == 'G',
        "G91"@[1] == '9',
        "G91"@[2] == '1',
        "M104"@.len() == 4,
        "M104"@[0] == 'M',
        "M104"@[1] == '1',
        "M104"@[2] == '0',
        "M104"@[3] == '4',
        "M105"@.len() == 4,
        "M105"@[0] == 'M',
        "M105"@[1] == '1',
        "M105"@[2] == '0',
        "M105"@[3] == '5',
        "M106"@.len() == 4,
        "M106"@[0] == 'M',
        "M106"@[1] == '1',
        "M106"@[2] == '0',
        "M106"@[3] == '6',
        "M109"@.len() == 4,
        "M109"@[0] == 'M',
        "M109"@[1] == '1',
        "M109"@[2] == '0',
        "M109"@[3] == '9',
        "M114"@.len() == 4,
        "M114"@[0] == 'M',
        "M114"@[1] == '1',
        "M114"@[2] == '1',
        "M114"@[3] == '4',
        "M82"@.len() == 3,
        "M82"@[0] == 'M',
        "M82"@[1] == '8',
        "M82"@[2] == '2',
        "M83"@.len() == 3,
        "M83"@[0] == 'M',
        "M83"@[1] == '8',
        "M83"@[2] == '3',
        "M84"@.len() == 3,
        "M84"@[0] == 'M',
        "M84"@[1] == '8',
        "M84"@[2] == '4',
        "M117"@.len() == 4,
        "M117"@[0] == 'M',
        "M117"@[1] == '1',
        "M117"@[2] == '1',
        "M117"@[3] == '7',
{
    reveal_strlit("G1");
    reveal_strlit("G2");
    reveal_strlit("G3");
    reveal_strlit("G4");
    reveal_strlit("G21");
    reveal_strlit("G28");
    reveal_strlit("G30");
    reveal_strlit("G90");
    reveal_strlit("G91");
    reveal_strlit("M104");
    reveal_strlit("M105");
    reveal_strlit("M106");
    reveal_strlit("M109");
    reveal_strlit("M114");
    reveal_strlit("M82");
    reveal_strlit("M83");
    reveal_strlit("M84");
    reveal_strlit("M117");
}

/// Every command word other than `Invalid` and `Null` is read back from its own text.
pub proof fn lemma_code_text_round_trip(c: C)
    requires
        c != C::Invalid,
        c != C::Null,
    ensures
        code_named(code_text(c)) == c,
{
    lemma_code_literals();
}

/// A text that names a command word is exactly the text of that word.
pub proof fn lemma_code_named_text(s: Seq<char>)
    requires
        code_named(s) != C::Invalid,
    ensures
        code_text(code_named(s)) == s,
{
}

/// A thing that can stand for a G-code command word.
pub trait Code {
    /// The command word; by default, no command.
    fn into_gcode(&self) -> (r: C)
        default_ensures
            r == C::Null,
    {
        C::Null
    }
}

} // verus!

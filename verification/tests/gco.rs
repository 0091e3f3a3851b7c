use gscript::gco::{gcode_to_str, into_gcode_internal, Code, C};

const ALL: [(C, &str); 18] = [
    (C::G1, "G1"),
    (C::G2, "G2"),
    (C::G3, "G3"),
    (C::G4, "G4"),
    (C::G21, "G21"),
    (C::G28, "G28"),
    (C::G30, "G30"),
    (C::G90, "G90"),
    (C::G91, "G91"),
    (C::M104, "M104"),
    (C::M105, "M105"),
    (C::M106, "M106"),
    (C::M109, "M109"),
    (C::M114, "M114"),
    (C::M82, "M82"),
    (C::M83, "M83"),
    (C::M84, "M84"),
    (C::M117, "M117"),
];

#[test]
fn each_code_prints_its_word() {
    for (c, word) in ALL {
        assert_eq!(gcode_to_str(c), word);
    }
}

#[test]
fn non_codes_print_err() {
    assert_eq!(gcode_to_str(C::Invalid), "Err");
    assert_eq!(gcode_to_str(C::Null), "Err");
}

#[test]
fn each_word_reads_as_its_code() {
    for (c, word) in ALL {
        assert_eq!(into_gcode_internal(word), c);
    }
}

#[test]
fn unknown_words_are_invalid() {
    assert_eq!(into_gcode_internal("g1"), C::Invalid);
    assert_eq!(into_gcode_internal("G1 "), C::Invalid);
    assert_eq!(into_gcode_internal(""), C::Invalid);
    assert_eq!(into_gcode_internal("Err"), C::Invalid);
    assert_eq!(into_gcode_internal("G11"), C::Invalid);
}

#[test]
fn code_text_round_trip() {
    for (c, _) in ALL {
        assert_eq!(into_gcode_internal(&gcode_to_str(c)), c);
    }
}

struct Nothing;
impl Code for Nothing {}

#[test]
fn default_code_is_null() {
    assert_eq!(Nothing.into_gcode(), C::Null);
}

use gscript::gscript_lib::{command_int, get_commands_int, to_syntax, try_commands, Script, Scripting, Syntax};

#[test]
fn probe_with_one_more_word() {
    assert!(matches!(to_syntax("probe a"), Syntax::Probe(None)));
}

#[test]
fn probe_with_two_more_words_keeps_the_last() {
    assert!(matches!(to_syntax("probe a b"), Syntax::Probe(Some("b"))));
}

#[test]
fn probe_alone_is_a_probe() {
    assert!(matches!(to_syntax("probe"), Syntax::Probe(None)));
    assert!(matches!(to_syntax("Probe"), Syntax::Probe(None)));
}

#[test]
fn probe_with_three_more_words_is_an_error() {
    assert!(matches!(to_syntax("probe a b c"), Syntax::Error()));
}

#[test]
fn keywords() {
    assert!(matches!(to_syntax("move"), Syntax::Travel(None)));
    assert!(matches!(to_syntax("travel x"), Syntax::Travel(None)));
    assert!(matches!(to_syntax("circle"), Syntax::Circle(None)));
    assert!(matches!(to_syntax("ce"), Syntax::Circle(Some("E"))));
    assert!(matches!(to_syntax("ce|"), Syntax::Circle(Some("FE"))));
    assert!(matches!(to_syntax("rect"), Syntax::Rectangle(None)));
    assert!(matches!(to_syntax("rectangle"), Syntax::Rectangle(None)));
    assert!(matches!(to_syntax("rectange"), Syntax::Rectangle(None)));
    assert!(matches!(to_syntax("recte"), Syntax::Rectangle(Some("E"))));
    assert!(matches!(to_syntax("recte|"), Syntax::Rectangle(Some("FE"))));
    assert!(matches!(to_syntax("extrude"), Syntax::Extrude(None)));
    assert!(matches!(to_syntax("ext"), Syntax::Extrude(None)));
    assert!(matches!(to_syntax("settings"), Syntax::Settings(None)));
}

#[test]
fn documented_command_names() {
    assert!(matches!(to_syntax("Settings"), Syntax::Settings(None)));
    assert!(matches!(to_syntax("Probe"), Syntax::Probe(None)));
    assert!(matches!(to_syntax("Travel"), Syntax::Travel(None)));
    assert!(matches!(to_syntax("Circle"), Syntax::Circle(None)));
    assert!(matches!(to_syntax("Rectangle"), Syntax::Rectangle(None)));
}

#[test]
fn command_names_in_any_case() {
    assert!(matches!(to_syntax("SETTINGS"), Syntax::Settings(None)));
    assert!(matches!(to_syntax("pRoBe"), Syntax::Probe(None)));
    assert!(matches!(to_syntax("TRAVEL"), Syntax::Travel(None)));
    assert!(matches!(to_syntax("CIRCLE"), Syntax::Circle(None)));
    assert!(matches!(to_syntax("rectangle"), Syntax::Rectangle(None)));
    assert!(matches!(to_syntax("rectangles"), Syntax::Error()));
    assert!(matches!(to_syntax("travels"), Syntax::Error()));
}

#[test]
fn other_keywords_only_in_lower_case() {
    assert!(matches!(to_syntax("MOVE"), Syntax::Error()));
    assert!(matches!(to_syntax("RECTE"), Syntax::Error()));
    assert!(matches!(to_syntax("Ce|"), Syntax::Error()));
    assert!(matches!(to_syntax("CE"), Syntax::Error()));
    assert!(matches!(to_syntax("Ext"), Syntax::Error()));
    assert!(matches!(to_syntax("Rect"), Syntax::Error()));
}

#[test]
fn surrounding_whitespace_is_ignored() {
    assert!(matches!(to_syntax(" \t circle \n"), Syntax::Circle(None)));
    assert!(matches!(to_syntax("probe\n\ta \r b"), Syntax::Probe(Some("b"))));
}

#[test]
fn new_and_from_string() {
    let s = Script::new();
    assert!(s.data.is_none() && s.commands.is_none());
    let s = Script::from_string(String::from("x"));
    assert_eq!(s.data.as_deref(), Some("x"));
    assert!(s.commands.is_none());
}

#[test]
fn commands_are_closed_and_the_end_marker_dropped() {
    let mut s = Script::from_string(String::from("a(){1,2;}b(){3,4;}ENDOFFILE"));
    let cmds = get_commands_int(&mut s);
    assert_eq!(cmds, vec!["a(){1,2;}", "b(){3,4;}"]);
    assert_eq!(s.data.as_deref(), Some("a(){1,2;}b(){3,4;}ENDOFFILE"));
}

#[test]
fn end_marker_followed_by_a_newline() {
    let cmds = try_commands(&String::from("a(){1,2;}\nENDOFFILE\n")).unwrap();
    assert_eq!(cmds, vec!["a(){1,2;}"]);
}

#[test]
fn text_without_end_marker_keeps_every_piece() {
    let cmds = try_commands(&String::from("a(){1;}b")).unwrap();
    assert_eq!(cmds, vec!["a(){1;}", "b}"]);
}

#[test]
fn removal_goes_by_original_position() {
    // The second marked piece is looked up at its original position,
    // which is past the end once the first one is gone.
    assert!(try_commands(&String::from("a}ENDOFFILE}ENDOFFILE")).is_none());
    // Here the shift removes an unmarked piece instead.
    let cmds = try_commands(&String::from("ENDOFFILE}x}ENDOFFILE}y")).unwrap();
    assert_eq!(cmds, vec!["x}", "ENDOFFILE"]);
}

#[test]
fn process_reads_commands_and_drops_text() {
    let mut s = Script::from_string(String::from("a(){1,2;}ENDOFFILE"));
    assert!(s.is_readable());
    s.process();
    assert!(s.data.is_none());
    assert_eq!(s.commands, Some(vec![String::from("a(){1,2;}")]));
}

#[test]
fn a_script_without_text_is_not_readable() {
    assert!(!Script::new().is_readable());
}

#[test]
fn command_int_takes_a_trimmed_byte_range() {
    assert_eq!(command_int(&0, &5, &String::from("  ab  x")), "ab");
    assert_eq!(command_int(&0, &2, &String::from("\u{e9} x")), "\u{e9}");
    assert_eq!(command_int(&2, &4, &String::from("\u{e9} x")), "x");
    assert_eq!(command_int(&1, &1, &String::from("abc")), "");
    assert_eq!(command_int(&0, &6, &String::from("\u{3000}a\u{a0}")), "a");
}

#[test]
fn commands_without_marker_join_back_to_the_text() {
    let data = String::from("a(){1;}b(){2;}");
    let cmds = try_commands(&data).unwrap();
    assert_eq!(cmds.concat(), data.clone() + "}");
}

#[test]
fn commands_before_the_end_marker_join_back_to_the_text() {
    let data = String::from("Settings(){n:0.4;}\nTravel(const:Z.2,f400;){0,0;1,1;}ENDOFFILE");
    let cmds = try_commands(&data).unwrap();
    assert_eq!(cmds.len(), 2);
    assert_eq!(cmds.concat() + "ENDOFFILE", data);
}

#[test]
fn a_single_marked_piece_is_dropped_wherever_it_stands() {
    let cmds = try_commands(&String::from("a(){1;}ENDOFFILE}b(){2;}")).unwrap();
    assert_eq!(cmds, vec!["a(){1;}", "b(){2;}", "}"]);
    let cmds = try_commands(&String::from("x\nENDOFFILE\n}a(){1;}")).unwrap();
    assert_eq!(cmds, vec!["a(){1;}", "}"]);
}

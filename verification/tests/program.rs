use gscript::commands::{CircleEntry, Corners, Setting, SettingKey};
use gscript::program::{
    clean_command, path_mode, plan_command, program_end, program_start, Action, CommandPlan,
    PathMode, PlanError,
};

fn s(t: &str) -> String {
    String::from(t)
}

#[test]
fn cleaning_removes_ascii_whitespace() {
    assert_eq!(clean_command(" a b\n\tc \r\n"), "abc");
    assert_eq!(clean_command("Travel (const:Z.2,f400;){\n  0,0;\n}"), "Travel(const:Z.2,f400;){0,0;}");
    assert_eq!(clean_command(" \t\n"), "");
}

#[test]
fn path_modes() {
    assert_eq!(path_mode(None), PathMode::Travel);
    assert_eq!(path_mode(Some("E")), PathMode::Extrude);
    assert_eq!(path_mode(Some("FE")), PathMode::FillExtrude);
}

#[test]
fn constants_line_then_unknown_keyword() {
    let p = plan_command(&s("Move2(const:Z.2,f400;){0,0;1,1;}")).unwrap();
    assert_eq!(p, CommandPlan { const_line: Some(s("G1 Z.2f400\n")), action: Action::Nothing });
}

#[test]
fn travel_emits_moves() {
    let p = plan_command(&s("travel(){0,0;1,1;}")).unwrap();
    assert_eq!(p, CommandPlan { const_line: None, action: Action::Emit(s("G1 X0 Y0\nG1 X1 Y1\n")) });
}

#[test]
fn probe_emits_moves_and_probes() {
    let p = plan_command(&s("Probe(){1,2;3,4;}")).unwrap();
    assert_eq!(p.action, Action::Emit(s("G1 X1 Y2\nG30\nG1 X3 Y4\nG30\n")));
}

#[test]
fn probe_is_travel_then_g30() {
    let t = plan_command(&s("Travel(){0,0;20,3.5;}")).unwrap().action;
    let p = plan_command(&s("Probe(){0,0;20,3.5;}")).unwrap().action;
    assert_eq!(t, Action::Emit(s("G1 X0 Y0\nG1 X20 Y3.5\n")));
    assert_eq!(p, Action::Emit(s("G1 X0 Y0\nG30\nG1 X20 Y3.5\nG30\n")));
}

#[test]
fn readme_example_commands() {
    let cmds = [
        "Settings(){n:0.4;w:.4;h:0.2;m:1;}",
        "Travel(const:Z.2,f400;){0,0;1,1;20,3.5;50,50;}",
        "Probe(){0,0;1,1;20,3.5;50,50;}",
        "Rectangle(){0,0:70,20;}",
        "recte(){0,0:70,20;}",
        "ce(){10,5:25;}",
    ];
    let plans: Vec<CommandPlan> = cmds.iter().map(|c| plan_command(&s(c)).unwrap()).collect();
    assert_eq!(
        plans[0].action,
        Action::Settings(vec![
            Setting { key: SettingKey::Nozzle, value: s("0.4") },
            Setting { key: SettingKey::LayerWidth, value: s(".4") },
            Setting { key: SettingKey::LayerHeight, value: s("0.2") },
            Setting { key: SettingKey::ExtrusionMult, value: s("1") },
        ])
    );
    assert_eq!(plans[1].const_line, Some(s("G1 Z.2f400\n")));
    assert_eq!(plans[1].action, Action::Emit(s("G1 X0 Y0\nG1 X1 Y1\nG1 X20 Y3.5\nG1 X50 Y50\n")));
    assert!(matches!(plans[2].action, Action::Emit(_)));
    assert!(matches!(plans[3].action, Action::Rectangle(PathMode::Travel, _)));
    assert!(matches!(plans[4].action, Action::Rectangle(PathMode::Extrude, _)));
    assert!(matches!(plans[5].action, Action::Circle(PathMode::Extrude, _)));
}

#[test]
fn settings_plan() {
    let p = plan_command(&s("settings(){w:.4;}")).unwrap();
    assert_eq!(
        p.action,
        Action::Settings(vec![Setting { key: SettingKey::LayerWidth, value: s(".4") }])
    );
}

#[test]
fn circle_and_rectangle_plans() {
    let p = plan_command(&s("ce(){10,5:25;}")).unwrap();
    assert_eq!(
        p.action,
        Action::Circle(PathMode::Extrude, vec![CircleEntry::CenterRadius(s("10"), s("5"), s("25"))])
    );
    let p = plan_command(&s("recte|(){0,0:1,1;}")).unwrap();
    assert_eq!(
        p.action,
        Action::Rectangle(
            PathMode::FillExtrude,
            vec![Corners { x1: s("0"), y1: s("0"), x2: s("1"), y2: s("1") }]
        )
    );
    let p = plan_command(&s("rect(const:z5;){0,0:1,1;}")).unwrap();
    assert_eq!(p.const_line, Some(s("G1 z5\n")));
    assert!(matches!(p.action, Action::Rectangle(PathMode::Travel, _)));
}

#[test]
fn keywords_that_do_nothing() {
    assert_eq!(plan_command(&s("ext(){}")).unwrap().action, Action::Nothing);
    assert_eq!(plan_command(&s("Extrude(){w:1;}")).unwrap().action, Action::Nothing);
    assert_eq!(plan_command(&s("Triangle(){0,0;}")).unwrap().action, Action::Nothing);
}

#[test]
fn plan_errors() {
    assert_eq!(plan_command(&s("x")), Err(PlanError::BadCommand));
    assert_eq!(plan_command(&s("(){}")), Err(PlanError::BadCommand));
    assert_eq!(plan_command(&s("travel(){5;}")), Err(PlanError::BadCommand));
    assert_eq!(plan_command(&s("travel(const:;){0,0;}")), Err(PlanError::BadConsts));
    assert_eq!(plan_command(&s("x(const:;)")), Err(PlanError::BadConsts));
}

#[test]
fn program_frame() {
    assert_eq!(program_start(), "G28;home\nG90;abs axis\nG83;rel e\n");
    assert_eq!(program_end(), "G28");
}

#[test]
fn cleaning_twice_changes_nothing() {
    let once = clean_command(" Travel (const:Z.2, f400;) {\r\n 0,0;\n}\t");
    assert_eq!(clean_command(&once), once);
    assert!(!once.chars().any(|c| c.is_ascii_whitespace()));
}

#[test]
fn both_circle_forms_set_the_same_circle() {
    let a = plan_command(&s("ce(){o:10,5;r:25;}")).unwrap();
    let b = plan_command(&s("ce(){10,5:25;}")).unwrap();
    assert_eq!(
        a.action,
        Action::Circle(
            PathMode::Extrude,
            vec![CircleEntry::Center(s("10"), s("5")), CircleEntry::Radius(s("25"))]
        )
    );
    assert_eq!(
        b.action,
        Action::Circle(PathMode::Extrude, vec![CircleEntry::CenterRadius(s("10"), s("5"), s("25"))])
    );
}

#[test]
fn upper_case_move_does_nothing() {
    assert_eq!(plan_command(&s("MOVE(){0,0;}")).unwrap().action, Action::Nothing);
    assert_eq!(
        plan_command(&s("move(){0,0;}")).unwrap().action,
        Action::Emit(s("G1 X0 Y0\n"))
    );
}

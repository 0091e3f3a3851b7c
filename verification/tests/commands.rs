use gscript::commands::{
    circle_entries, circle_setup, outline, CircleSetup, consts, points, prange, rectangle_entries, run_probe, run_travel,
    settings_entries, try_circle, try_consts, try_moves, try_points, try_prange, try_rectangles,
    try_settings, CircleEntry, Consts, Corners, Setting, SettingKey,
};

fn s(t: &str) -> String {
    String::from(t)
}

#[test]
fn prange_takes_the_text_between() {
    assert_eq!(prange("(", ")", &s("Travel(const:Z.2,f400;){0,0;}")), "const:Z.2,f400;");
    assert_eq!(prange("", "(", &s("Travel(x)")), "Travel");
    assert_eq!(prange("{", ";}", &s("a(){1,2;3,4;}")), "1,2;3,4");
}

#[test]
fn prange_end_is_searched_after_start() {
    assert_eq!(prange("b", "a", &s("xaybza")), "z");
}

#[test]
fn prange_missing_delimiters() {
    assert_eq!(try_prange("{", "}", &s("abc")), None);
    assert_eq!(try_prange("a", "q", &s("abc")), None);
    assert_eq!(try_prange("c", "a", &s("abc")), None);
}

#[test]
fn points_of_a_probe() {
    assert_eq!(
        points(&s("Probe(){0,0;1,1;20,3.5;50,50;}")),
        vec!["0,0", "1,1", "20,3.5", "50,50"]
    );
    assert_eq!(try_points(&s("Probe(){0,0}")), None);
}

#[test]
fn constants_z_and_f() {
    let c = consts(&s("Travel(const:Z.2,f400;){0,0;}"));
    assert_eq!(c, Consts { z: Some(s("Z.2")), f: Some(s("f400")) });
    assert_eq!(c.unwrap_const(), "Z.2f400");
}

#[test]
fn a_single_constant() {
    let c = consts(&s("Travel(const:F1500;)"));
    assert_eq!(c, Consts { z: None, f: Some(s("F1500")) });
    assert_eq!(c.unwrap_const(), "F1500");
}

#[test]
fn later_constants_win_and_others_are_ignored() {
    let c = consts(&s("t(const:z1,x3,z2;)"));
    assert_eq!(c, Consts { z: Some(s("z2")), f: None });
    assert_eq!(c.unwrap_const(), "z2");
}

#[test]
fn constants_that_cannot_be_read() {
    assert_eq!(try_consts(&s("t(x)")), None);
    assert_eq!(try_consts(&s("t(const:,z1;)")), None);
    assert_eq!(try_consts(&s("t(const:\u{e9}1;)")), None);
    assert_eq!(try_consts(&s("t{const:z1;}")), None);
}

#[test]
fn probe_lines() {
    let mut out = s("start\n");
    run_probe(&s("probe(){0,0;1,1;}"), &mut out);
    assert_eq!(out, "start\nG1 X0 Y0\nG30\nG1 X1 Y1\nG30\n");
}

#[test]
fn travel_lines() {
    let mut out = String::new();
    run_travel(&s("travel(){0,0;20,3.5;}"), &mut out);
    assert_eq!(out, "G1 X0 Y0\nG1 X20 Y3.5\n");
}

#[test]
fn travel_uses_the_first_two_parts() {
    assert_eq!(try_moves(&s("travel(){1,2,3;}"), false), Some(s("G1 X1 Y2\n")));
}

#[test]
fn moves_need_two_coordinates() {
    assert_eq!(try_moves(&s("travel(){5;}"), false), None);
    assert_eq!(try_moves(&s("travel(){1,1;5;}"), true), None);
}

#[test]
fn settings_in_order() {
    let v = settings_entries(&s("settings(){n:0.4;w:.4;h:0.2;m:1;}"));
    assert_eq!(
        v,
        vec![
            Setting { key: SettingKey::Nozzle, value: s("0.4") },
            Setting { key: SettingKey::LayerWidth, value: s(".4") },
            Setting { key: SettingKey::LayerHeight, value: s("0.2") },
            Setting { key: SettingKey::ExtrusionMult, value: s("1") },
        ]
    );
}

#[test]
fn setting_keys_in_upper_case() {
    let v = settings_entries(&s("settings(){W:2;}"));
    assert_eq!(v, vec![Setting { key: SettingKey::LayerWidth, value: s("2") }]);
}

#[test]
fn settings_that_cannot_be_read() {
    assert_eq!(try_settings(&s("settings(){x:1;}")), None);
    assert_eq!(try_settings(&s("settings(){w;}")), None);
    assert_eq!(try_settings(&s("settings(){ww:1;}")), None);
}

#[test]
fn circle_with_centre_and_radius_lines() {
    assert_eq!(
        circle_entries(&s("circle(){o:10,5;r:25;}")),
        vec![CircleEntry::Center(s("10"), s("5")), CircleEntry::Radius(s("25"))]
    );
}

#[test]
fn circle_with_point_and_radius() {
    assert_eq!(
        circle_entries(&s("ce(){10,5:25;}")),
        vec![CircleEntry::CenterRadius(s("10"), s("5"), s("25"))]
    );
}

#[test]
fn circle_entries_that_set_nothing() {
    assert_eq!(circle_entries(&s("circle(){abc;1:2:3;}")), vec![]);
}

#[test]
fn circle_entries_that_cannot_be_read() {
    assert_eq!(try_circle(&s("circle(){o:10;}")), None);
    assert_eq!(try_circle(&s("circle(){10:25;}")), None);
}

#[test]
fn rectangle_corners() {
    assert_eq!(
        rectangle_entries(&s("recte(){0,0:70,20;1,2:3,4;}")),
        vec![
            Corners { x1: s("0"), y1: s("0"), x2: s("70"), y2: s("20") },
            Corners { x1: s("1"), y1: s("2"), x2: s("3"), y2: s("4") },
        ]
    );
}

#[test]
fn rectangles_that_cannot_be_read() {
    assert_eq!(try_rectangles(&s("rect(){0,0;}")), None);
    assert_eq!(try_rectangles(&s("rect(){0:1,1;}")), None);
}

#[test]
fn prange_result_is_framed_and_free_of_the_end() {
    let focus = s("xaybzaqa");
    let r = prange("b", "a", &focus);
    assert_eq!(r, "z");
    assert!(focus.contains(&format!("b{}a", r)));
    assert!(!r.contains('a'));
}

#[test]
fn rectangle_outline_order() {
    let c = Corners { x1: 0, y1: 0, x2: 70, y2: 20 };
    assert_eq!(outline(&c), vec![(0, 0), (0, 20), (70, 20), (70, 0), (0, 0)]);
}

#[test]
fn circle_setup_takes_the_last_centre_and_radius() {
    let a = circle_setup(&vec![CircleEntry::Center(10, 5), CircleEntry::Radius(25)]);
    let b = circle_setup(&vec![CircleEntry::CenterRadius(10, 5, 25)]);
    assert_eq!(a, CircleSetup { center: Some((10, 5)), radius: Some(25) });
    assert_eq!(a, b);
    let c = circle_setup(&vec![
        CircleEntry::CenterRadius(1, 2, 3),
        CircleEntry::Radius(4),
        CircleEntry::Center(5, 6),
    ]);
    assert_eq!(c, CircleSetup { center: Some((5, 6)), radius: Some(4) });
    let none: Vec<CircleEntry<i32>> = vec![];
    assert_eq!(circle_setup(&none), CircleSetup { center: None, radius: None });
}

#[test]
fn both_circle_point_forms_set_the_same_circle() {
    let numbers = |es: Vec<CircleEntry<String>>| -> Vec<CircleEntry<u32>> {
        es.iter()
            .map(|e| match e {
                CircleEntry::Center(x, y) => CircleEntry::Center(x.parse().unwrap(), y.parse().unwrap()),
                CircleEntry::Radius(r) => CircleEntry::Radius(r.parse().unwrap()),
                CircleEntry::CenterRadius(x, y, r) => {
                    CircleEntry::CenterRadius(x.parse().unwrap(), y.parse().unwrap(), r.parse().unwrap())
                }
            })
            .collect()
    };
    let a = circle_setup(&numbers(circle_entries(&s("circle(){o:10,5;r:25;}"))));
    let b = circle_setup(&numbers(circle_entries(&s("circle(){10,5:25;}"))));
    assert_eq!(a, b);
    assert_eq!(a, CircleSetup { center: Some((10, 5)), radius: Some(25) });
}

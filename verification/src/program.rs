//! What the G-code generator does with each command of a script: the text it
//! appends, and the work it leaves to the numeric side (settings, circles,
//! rectangles), decided from the command's text alone.
use vstd::prelude::*;

use crate::commands::{
    between, circle_of, const_entries, const_line_text, corners_of, consts_ok, last_keyed,
    lemma_rectangles_each, moves_of, points_of, rectangles_of, settings_of, text_or_empty,
    try_circle, try_consts, try_moves, try_prange, try_rectangles, try_settings, CircleEntry,
    Corners, Setting,
};
use crate::gscript_lib::{option_view, syntax_of_words, to_syntax, Syntax};
use crate::text::{
    ascii_lower, concat_all, contains, contains_exec, is_ascii_ws, lower_text, lemma_remove_ascii_ws_clean,
    lemma_remove_ascii_ws_none, lemma_words_concat, remove_ascii_ws, slice_texts, text_eq, words,
    words_of,
};

verus! {

/// How the outline of a shape is followed.
#[derive(Debug, Clone, Copy, PartialEq, Eq, Structural)]
pub enum PathMode {
    /// plain moves (no argument)
    Travel,
    /// moves that extrude (argument `E`)
    Extrude,
    /// filled extrusion (any other argument); nothing is emitted for it
    FillExtrude,
}

/// The path mode that a command's argument selects.
pub open spec fn mode_of(val: Option<Seq<char>>) -> PathMode {
    match val {
        None => PathMode::Travel,
        Some(v) => if v == "E"@ {
            PathMode::Extrude
        } else {
            PathMode::FillExtrude
        },
    }
}

/// The path mode that a command's argument selects.
pub fn path_mode(val: Option<&str>) -> (r: PathMode)
    ensures
        r == mode_of(option_view(val)),
{
    match val {
        None => PathMode::Travel,
        Some(v) => if text_eq(v, "E") {
            PathMode::Extrude
        } else {
            PathMode::FillExtrude
        },
    }
}

/// What a command does after its constants.
#[derive(Debug, PartialEq, Eq)]
pub enum Action {
    /// append this G-code text
    Emit(String),
    /// assign these settings, in order
    Settings(Vec<Setting<String>>),
    /// follow a circle set up by these entries
    Circle(PathMode, Vec<CircleEntry<String>>),
    /// follow the outline of each of these rectangles
    Rectangle(PathMode, Vec<Corners<String>>),
    /// nothing
    Nothing,
}

/// What a command does after its constants, over texts.
pub enum ActionView {
    Emit(Seq<char>),
    Settings(Seq<Setting<Seq<char>>>),
    Circle(PathMode, Seq<CircleEntry<Seq<char>>>),
    Rectangle(PathMode, Seq<Corners<Seq<char>>>),
    Nothing,
}

impl View for Action {
    type V = ActionView;

    open spec fn view(&self) -> ActionView {
        match self {
            Action::Emit(t) => ActionView::Emit(t@),
            Action::Settings(v) => ActionView::Settings(v@.map_values(|e: Setting<String>| e@)),
            Action::Circle(m, v) => ActionView::Circle(
                *m,
                v@.map_values(|e: CircleEntry<String>| e@),
            ),
            Action::Rectangle(m, v) => ActionView::Rectangle(
                *m,
                v@.map_values(|e: Corners<String>| e@),
            ),
            Action::Nothing => ActionView::Nothing,
        }
    }
}

/// Why a command cannot be carried out.
#[derive(Debug, Clone, Copy, PartialEq, Eq, Structural)]
pub enum PlanError {
    /// it names constants that cannot be read
    BadConsts,
    /// its keyword, or one of its points, cannot be read
    BadCommand,
}

/// What one command does: the constants line it emits (if any), then its action.
#[derive(Debug, PartialEq, Eq)]
pub struct CommandPlan {
    pub const_line: Option<String>,
    pub action: Action,
}

/// The constants line of a command: `G1 ` and its constants, when it has any.
pub open spec fn const_line_of(cmd: Seq<char>) -> Option<Seq<char>> {
    if contains(cmd, "const:"@) {
        Some(const_line_text(cmd))
    } else {
        None
    }
}

/// The action of a command, from the keyword before its first `(`;
/// `None` when the keyword or the points cannot be read.
pub open spec fn action_of(cmd: Seq<char>) -> Option<ActionView> {
    match between(cmd, ""@, "("@) {
        None => None,
        Some(head) => {
            let ws = words(head);
            if ws.len() == 0 {
                None
            } else {
                match syntax_of_words(ws) {
                    Syntax::Settings(_) => match settings_of(cmd) {
                        Some(v) => Some(ActionView::Settings(v)),
                        None => None,
                    },
                    Syntax::Probe(_) => match moves_of(cmd, true) {
                        Some(t) => Some(ActionView::Emit(t)),
                        None => None,
                    },
                    Syntax::Travel(_) => match moves_of(cmd, false) {
                        Some(t) => Some(ActionView::Emit(t)),
                        None => None,
                    },
                    Syntax::Circle(val) => match circle_of(cmd) {
                        Some(v) => Some(ActionView::Circle(mode_of(val), v)),
                        None => None,
                    },
                    Syntax::Rectangle(val) => match rectangles_of(cmd) {
                        Some(v) => Some(ActionView::Rectangle(mode_of(val), v)),
                        None => None,
                    },
                    _ => Some(ActionView::Nothing),
                }
            }
        },
    }
}

/// What a (whitespace-free) command does, or why it cannot be carried out.
pub open spec fn plan_of(cmd: Seq<char>) -> Result<(Option<Seq<char>>, ActionView), PlanError> {
    if contains(cmd, "const:"@) && !consts_ok(cmd) {
        Err(PlanError::BadConsts)
    } else {
        match action_of(cmd) {
            None => Err(PlanError::BadCommand),
            Some(a) => Ok((const_line_of(cmd), a)),
        }
    }
}

/// The length and characters of the keywords.
proof fn lemma_keyword_literals()
    ensures
        "probe"@.len() == 5,
        "probe"@[0] == 'p',
        "probe"@[1] == 'r',
        "probe"@[2] == 'o',
        "probe"@[3] == 'b',
        "probe"@[4] == 'e',
        "move"@.len() == 4,
        "move"@[0] == 'm',
        "move"@[1] == 'o',
        "move"@[2] == 'v',
        "move"@[3] == 'e',
        "travel"@.len() == 6,
        "travel"@[0] == 't',
        "travel"@[1] == 'r',
        "travel"@[2] == 'a',
        "travel"@[3] == 'v',
        "travel"@[4] == 'e',
        "travel"@[5] == 'l',
        "circle"@.len() == 6,
        "circle"@[0] == 'c',
        "circle"@[1] == 'i',
        "circle"@[2] == 'r',
        "circle"@[3] == 'c',
        "circle"@[4] == 'l',
        "circle"@[5] == 'e',
        "ce"@.len() == 2,
        "ce"@[0] == 'c',
        "ce"@[1] == 'e',
        "ce|"@.len() == 3,
        "ce|"@[0] == 'c',
        "ce|"@[1] == 'e',
        "ce|"@[2] == '|',
        "rect"@.len() == 4,
        "rect"@[0] == 'r',
        "rect"@[1] == 'e',
        "rect"@[2] == 'c',
        "rect"@[3] == 't',
        "rectangle"@.len() == 9,
        "rectangle"@[0] == 'r',
        "rectangle"@[1] == 'e',
        "rectangle"@[2] == 'c',
        "rectangle"@[3] == 't',
        "rectangle"@[4] == 'a',
        "rectangle"@[5] == 'n',
        "rectangle"@[6] == 'g',
        "rectangle"@[7] == 'l',
        "rectangle"@[8] == 'e',
        "rectange"@.len() == 8,
        "rectange"@[0] == 'r',
        "rectange"@[1] == 'e',
        "rectange"@[2] == 'c',
        "rectange"@[3] == 't',
        "rectange"@[4] == 'a',
        "rectange"@[5] == 'n',
        "rectange"@[6] == 'g',
        "rectange"@[7] == 'e',
        "recte"@.len() == 5,
        "recte"@[0] == 'r',
        "recte"@[1] == 'e',
        "recte"@[2] == 'c',
        "recte"@[3] == 't',
        "recte"@[4] == 'e',
        "recte|"@.len() == 6,
        "recte|"@[0] == 'r',
        "recte|"@[1] == 'e',
        "recte|"@[2] == 'c',
        "recte|"@[3] == 't',
        "recte|"@[4] == 'e',
        "recte|"@[5] == '|',
        "extrude"@.len() == 7,
        "extrude"@[0] == 'e',
        "extrude"@[1] == 'x',
        "extrude"@[2] == 't',
        "extrude"@[3] == 'r',
        "extrude"@[4] == 'u',
        "extrude"@[5] == 'd',
        "extrude"@[6] == 'e',
        "ext"@.len() == 3,
        "ext"@[0] == 'e',
        "ext"@[1] == 'x',
        "ext"@[2] == 't',
        "settings"@.len() == 8,
        "settings"@[0] == 's',
        "settings"@[1] == 'e',
        "settings"@[2] == 't',
        "settings"@[3] == 't',
        "settings"@[4] == 'i',
        "settings"@[5] == 'n',
        "settings"@[6] == 'g',
        "settings"@[7] == 's',
        "E"@.len() == 1,
        "E"@[0] == 'E',
        "FE"@.len() == 2,
        "FE"@[0] == 'F',
        "FE"@[1] == 'E',
        "const:"@.len() == 6,
        "const:"@[0] == 'c',
        "const:"@[1] == 'o',
        "const:"@[2] == 'n',
        "const:"@[3] == 's',
        "const:"@[4] == 't',
        "const:"@[5] == ':',
{
    reveal_strlit("probe");
    reveal_strlit("move");
    reveal_strlit("travel");
    reveal_strlit("circle");
    reveal_strlit("ce");
    reveal_strlit("ce|");
    reveal_strlit("rect");
    reveal_strlit("rectangle");
    reveal_strlit("rectange");
    reveal_strlit("recte");
    reveal_strlit("recte|");
    reveal_strlit("extrude");
    reveal_strlit("ext");
    reveal_strlit("settings");
    reveal_strlit("E");
    reveal_strlit("FE");
    reveal_strlit("const:");
}

/// Law: the keyword of a circle or rectangle command decides how its outline
/// is followed, and the command carries every circle entry or rectangle its
/// points give.  `circle` (any case) and `rect`, `rectangle` (any case),
/// `rectange` travel; `ce` and `recte` extrude; `ce|` and `recte|` plan a
/// filled extrusion.  A rectangle command carries one rectangle per point.
pub proof fn lemma_plan_shapes(cmd: Seq<char>)
    requires
        !contains(cmd, "const:"@) || consts_ok(cmd),
        between(cmd, ""@, "("@) is Some,
        words(between(cmd, ""@, "("@).unwrap()).len() > 0,
    ensures
        ({
            let kw = words(between(cmd, ""@, "("@).unwrap())[0];
            let line = const_line_of(cmd);
            &&& (lower_text(kw) == "circle"@ && circle_of(cmd) is Some) ==> plan_of(cmd) == Ok::<(Option<Seq<char>>, ActionView), PlanError>(
                (line, ActionView::Circle(PathMode::Travel, circle_of(cmd).unwrap())),
            )
            &&& (kw == "ce"@ && circle_of(cmd) is Some) ==> plan_of(cmd) == Ok::<(Option<Seq<char>>, ActionView), PlanError>(
                (line, ActionView::Circle(PathMode::Extrude, circle_of(cmd).unwrap())),
            )
            &&& (kw == "ce|"@ && circle_of(cmd) is Some) ==> plan_of(cmd) == Ok::<(Option<Seq<char>>, ActionView), PlanError>(
                (line, ActionView::Circle(PathMode::FillExtrude, circle_of(cmd).unwrap())),
            )
            &&& ((kw == "rect"@ || lower_text(kw) == "rectangle"@ || kw == "rectange"@)
                && rectangles_of(cmd) is Some) ==> plan_of(cmd) == Ok::<(Option<Seq<char>>, ActionView), PlanError>(
                (line, ActionView::Rectangle(PathMode::Travel, rectangles_of(cmd).unwrap())),
            )
            &&& (kw == "recte"@ && rectangles_of(cmd) is Some) ==> plan_of(cmd) == Ok::<(Option<Seq<char>>, ActionView), PlanError>(
                (line, ActionView::Rectangle(PathMode::Extrude, rectangles_of(cmd).unwrap())),
            )
            &&& (kw == "recte|"@ && rectangles_of(cmd) is Some) ==> plan_of(cmd) == Ok::<(Option<Seq<char>>, ActionView), PlanError>(
                (line, ActionView::Rectangle(PathMode::FillExtrude, rectangles_of(cmd).unwrap())),
            )
            &&& plan_of(cmd) matches Ok((_, ActionView::Rectangle(_, v))) ==> (v.len()
                == points_of(cmd).unwrap().len() && (forall|i: int|
                0 <= i < v.len() ==> corners_of(points_of(cmd).unwrap()[i]) == Some(
                    #[trigger] v[i],
                )))
        }),
{
    lemma_keyword_literals();
    lemma_rectangles_each(cmd);
    let kw = words(between(cmd, ""@, "("@).unwrap())[0];
    assert(lower_text(kw).len() == kw.len());
    if kw.len() > 0 {
        assert(lower_text(kw)[0] == ascii_lower(kw[0]));
    }
}

/// Law: the keyword of a command decides its action: `travel` (any case) and
/// `move` emit the travel lines, `probe` (any case, as a command keyword) emits
/// the probe lines, `settings` (any case) assigns its settings, and
/// `extrude`/`ext` do nothing.
pub proof fn lemma_plan_keywords(cmd: Seq<char>)
    requires
        !contains(cmd, "const:"@) || consts_ok(cmd),
        between(cmd, ""@, "("@) is Some,
        words(between(cmd, ""@, "("@).unwrap()).len() > 0,
    ensures
        ({
            let ws = words(between(cmd, ""@, "("@).unwrap());
            let kw = ws[0];
            let line = const_line_of(cmd);
            &&& ((kw == "move"@ || lower_text(kw) == "travel"@) && moves_of(cmd, false) is Some)
                ==> plan_of(cmd) == Ok::<(Option<Seq<char>>, ActionView), PlanError>(
                (line, ActionView::Emit(moves_of(cmd, false).unwrap())),
            )
            &&& (lower_text(kw) == "probe"@ && ws.len() <= 3 && moves_of(cmd, true) is Some)
                ==> plan_of(cmd) == Ok::<(Option<Seq<char>>, ActionView), PlanError>(
                (line, ActionView::Emit(moves_of(cmd, true).unwrap())),
            )
            &&& (lower_text(kw) == "settings"@ && settings_of(cmd) is Some) ==> plan_of(cmd)
                == Ok::<(Option<Seq<char>>, ActionView), PlanError>(
                (line, ActionView::Settings(settings_of(cmd).unwrap())),
            )
            &&& (kw == "extrude"@ || kw == "ext"@) ==> plan_of(cmd) == Ok::<
                (Option<Seq<char>>, ActionView),
                PlanError,
            >((line, ActionView::Nothing))
        }),
{
    lemma_keyword_literals();
    let kw = words(between(cmd, ""@, "("@).unwrap())[0];
    assert(lower_text(kw).len() == kw.len());
    if kw.len() > 0 {
        assert(lower_text(kw)[0] == ascii_lower(kw[0]));
    }
}

/// Law: a command that names constants which can be read emits the line
/// `G1 `, then its last `z`/`Z` constant (if any), then its last `f`/`F`
/// constant (if any), then a line break; in particular a command whose only
/// constant is a speed `F..` emits `G1 F..`.
pub proof fn lemma_plan_const_line(cmd: Seq<char>)
    requires
        contains(cmd, "const:"@),
        consts_ok(cmd),
        action_of(cmd) is Some,
    ensures
        ({
            let cs = const_entries(cmd).unwrap();
            &&& plan_of(cmd) matches Ok((Some(line), _))
            &&& plan_of(cmd)->Ok_0.0 == Some(
                "G1 "@ + text_or_empty(last_keyed(cs, 'z')) + text_or_empty(last_keyed(cs, 'f'))
                    + "\n"@,
            )
            &&& (cs.len() == 1 && ascii_lower(cs[0][0]) == 'f') ==> plan_of(cmd)->Ok_0.0 == Some(
                "G1 "@ + cs[0] + "\n"@,
            )
        }),
{
    let cs = const_entries(cmd).unwrap();
    if cs.len() == 1 && ascii_lower(cs[0][0]) == 'f' {
        assert(cs.drop_last() =~= Seq::<Seq<char>>::empty());
        assert(last_keyed(cs, 'z') == last_keyed(Seq::<Seq<char>>::empty(), 'z'));
        assert(last_keyed(cs, 'f') == Some(cs[0]));
        assert("G1 "@ + text_or_empty(None) + cs[0] + "\n"@ =~= "G1 "@ + cs[0] + "\n"@);
    }
}

/// A command with all ASCII whitespace taken out (its words, joined).
pub fn clean_command(raw: &str) -> (r: String)
    ensures
        r@ == concat_all(words(raw@)),
{
    let ws = words_of(raw);
    let ghost all = slice_texts(ws@);
    let mut out = String::new();
    let mut k: usize = 0;
    while k < ws.len()
        invariant
            all == slice_texts(ws@),
            k <= ws.len(),
            out@ == concat_all(all.take(k as int)),
        decreases ws.len() - k,
    {
        assert(all.take(k + 1).drop_last() =~= all.take(k as int));
        assert(all.take(k + 1).last() == ws@[k as int]@);
        out.append(ws[k]);
        k = k + 1;
    }
    assert(all.take(ws.len() as int) =~= all);
    out
}

/// Law: cleaning a command takes out exactly its ASCII whitespace, leaves none
/// behind, and cleaning again changes nothing.
pub proof fn lemma_clean_command(raw: Seq<char>)
    ensures
        concat_all(words(raw)) == remove_ascii_ws(raw),
        forall|i: int|
            0 <= i < concat_all(words(raw)).len() ==> !is_ascii_ws(
                #[trigger] concat_all(words(raw))[i],
            ),
        concat_all(words(concat_all(words(raw)))) == concat_all(words(raw)),
{
    lemma_words_concat(raw);
    lemma_remove_ascii_ws_clean(raw);
    let t = remove_ascii_ws(raw);
    lemma_words_concat(t);
    lemma_remove_ascii_ws_none(t);
}

/// What a (whitespace-free) command does: the constants line, when the command
/// names constants (`BadConsts` when they cannot be read), then the action
/// chosen by its keyword (`BadCommand` when the keyword or a point cannot be read).
pub fn plan_command(command: &String) -> (r: Result<CommandPlan, PlanError>)
    ensures
        match (r, plan_of(command@)) {
            (Ok(p), Ok((line, a))) => option_view(p.const_line) == line && p.action@ == a,
            (Err(e), Err(e2)) => e == e2,
            _ => false,
        },
{
    let const_line = if contains_exec(command.as_str(), "const:") {
        match try_consts(command) {
            Some(c) => {
                let mut line = String::from_str("G1 ");
                let joined = c.unwrap_const();
                line.append(joined.as_str());
                line.append("\n");
                assert(line@ == const_line_text(command@));
                Some(line)
            },
            None => return Err(PlanError::BadConsts),
        }
    } else {
        None
    };
    let head = match try_prange("", "(", command) {
        Some(h) => h,
        None => return Err(PlanError::BadCommand),
    };
    let ws = words_of(head.as_str());
    if ws.len() == 0 {
        return Err(PlanError::BadCommand);
    }
    let action = match to_syntax(head.as_str()) {
        Syntax::Settings(_) => match try_settings(command) {
            Some(v) => Action::Settings(v),
            None => return Err(PlanError::BadCommand),
        },
        Syntax::Probe(_) => match try_moves(command, true) {
            Some(t) => Action::Emit(t),
            None => return Err(PlanError::BadCommand),
        },
        Syntax::Travel(_) => match try_moves(command, false) {
            Some(t) => Action::Emit(t),
            None => return Err(PlanError::BadCommand),
        },
        Syntax::Circle(val) => match try_circle(command) {
            Some(v) => Action::Circle(path_mode(val), v),
            None => return Err(PlanError::BadCommand),
        },
        Syntax::Rectangle(val) => match try_rectangles(command) {
            Some(v) => Action::Rectangle(path_mode(val), v),
            None => return Err(PlanError::BadCommand),
        },
        _ => Action::Nothing,
    };
    Ok(CommandPlan { const_line, action })
}

/// The G-code that opens every program: home, absolute axes, relative extruder.
pub fn program_start() -> (r: String)
    ensures
        r@ == "G28;home\nG90;abs axis\nG83;rel e\n"@,
{
    String::from_str("G28;home\nG90;abs axis\nG83;rel e\n")
}

/// The G-code that closes every program: home.
pub fn program_end() -> (r: String)
    ensures
        r@ == "G28"@,
{
    String::from_str("G28")
}

} // verus!

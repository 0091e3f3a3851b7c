//! The script: its text, its division into commands, and the keyword that
//! opens each command.
use vstd::prelude::*;

use crate::text::{
    char_pos, char_pos_exec, chars_of, concat_all, contains, contains_exec, each_followed_by,
    lemma_char_pos_range, lemma_split_join, lower_eq, lower_text, split, split_text, text_eq, texts,
    trim, trimmed_slice, words, words_of,
};

verus! {

/// The kind of a script command, with an optional argument.
#[derive(Debug, Clone, Copy)]
pub enum Syntax<T> {
    /// `settings` (any case)
    Settings(Option<T>),
    /// `probe` (any case), with the second word after it, if there is one
    Probe(Option<T>),
    /// `move`, or `travel` (any case)
    Travel(Option<T>),
    /// `extrude` or `ext`
    Extrude(Option<T>),
    /// `circle` (any case), `ce` (`E`) or `ce|` (`FE`)
    Circle(Option<T>),
    /// `rect`, `rectange`, or `rectangle` (any case); `recte` (`E`) or `recte|` (`FE`)
    Rectangle(Option<T>),
    /// a keyword that names no command
    Error(),
    /// no command
    Null,
}

/// An optional value, taken by its view.
pub open spec fn option_view<T: View>(o: Option<T>) -> Option<T::V> {
    match o {
        Some(t) => Some(t@),
        None => None,
    }
}

impl<T: View> View for Syntax<T> {
    type V = Syntax<T::V>;

    open spec fn view(&self) -> Syntax<T::V> {
        match *self {
            Syntax::Settings(o) => Syntax::Settings(option_view(o)),
            Syntax::Probe(o) => Syntax::Probe(option_view(o)),
            Syntax::Travel(o) => Syntax::Travel(option_view(o)),
            Syntax::Extrude(o) => Syntax::Extrude(option_view(o)),
            Syntax::Circle(o) => Syntax::Circle(option_view(o)),
            Syntax::Rectangle(o) => Syntax::Rectangle(option_view(o)),
            Syntax::Error() => Syntax::Error(),
            Syntax::Null => Syntax::Null,
        }
    }
}

/// Kinds of extrusion.
#[derive(Debug, Clone, Copy, PartialEq, Eq, Structural)]
pub enum Extr {
    PlaneExtr,
    PerimeterExtr,
    InfilExtr,
}

/// The kind of command that a list of words (at least one) opens.  The first
/// word names the kind.  The command names `settings`, `probe`, `travel`,
/// `circle` and `rectangle` are matched in either case (`Settings`, `Probe`,
/// ...); the other keywords (`move`, `ce`, `ce|`, `rect`, `rectange`, `recte`,
/// `recte|`, `extrude`, `ext`) only as written here.  `probe` alone or with
/// one more word is `Probe(None)`, and with two more it carries the last of them.
pub open spec fn syntax_of_words(ws: Seq<Seq<char>>) -> Syntax<Seq<char>>
    recommends
        ws.len() >= 1,
{
    let w = ws[0];
    let l = lower_text(w);
    if l == "probe"@ {
        if ws.len() <= 2 {
            Syntax::Probe(None)
        } else if ws.len() == 3 {
            Syntax::Probe(Some(ws[2]))
        } else {
            Syntax::Error()
        }
    } else if w == "move"@ || l == "travel"@ {
        Syntax::Travel(None)
    } else if l == "circle"@ {
        Syntax::Circle(None)
    } else if w == "ce"@ {
        Syntax::Circle(Some("E"@))
    } else if w == "ce|"@ {
        Syntax::Circle(Some("FE"@))
    } else if w == "rect"@ || l == "rectangle"@ || w == "rectange"@ {
        Syntax::Rectangle(None)
    } else if w == "recte"@ {
        Syntax::Rectangle(Some("E"@))
    } else if w == "recte|"@ {
        Syntax::Rectangle(Some("FE"@))
    } else if w == "extrude"@ || w == "ext"@ {
        Syntax::Extrude(None)
    } else if l == "settings"@ {
        Syntax::Settings(None)
    } else {
        Syntax::Error()
    }
}

/// The kind of command that a text opens: its first whitespace-separated word
/// names the kind.  The command names `Settings`, `Probe`, `Travel`, `Circle`
/// and `Rectangle` are accepted in any case; every other keyword only in lower
/// case, as listed at `syntax_of_words`.
pub fn to_syntax(command: &str) -> (r: Syntax<&str>)
    requires
        words(command@).len() >= 1,
    ensures
        r@ == syntax_of_words(words(command@)),
{
    let ws = words_of(command);
    assert(ws@[0]@ == words(command@)[0]);
    let w = ws[0];
    if lower_eq(w, "probe") {
        if ws.len() <= 2 {
            Syntax::Probe(None)
        } else if ws.len() == 3 {
            assert(ws@[2]@ == words(command@)[2]);
            Syntax::Probe(Some(ws[2]))
        } else {
            Syntax::Error()
        }
    } else if text_eq(w, "move") || lower_eq(w, "travel") {
        Syntax::Travel(None)
    } else if lower_eq(w, "circle") {
        Syntax::Circle(None)
    } else if text_eq(w, "ce") {
        Syntax::Circle(Some("E"))
    } else if text_eq(w, "ce|") {
        Syntax::Circle(Some("FE"))
    } else if text_eq(w, "rect") || lower_eq(w, "rectangle") || text_eq(w, "rectange") {
        Syntax::Rectangle(None)
    } else if text_eq(w, "recte") {
        Syntax::Rectangle(Some("E"))
    } else if text_eq(w, "recte|") {
        Syntax::Rectangle(Some("FE"))
    } else if text_eq(w, "extrude") || text_eq(w, "ext") {
        Syntax::Extrude(None)
    } else if lower_eq(w, "settings") {
        Syntax::Settings(None)
    } else {
        Syntax::Error()
    }
}

/// The marker that ends a script.
pub open spec fn end_marker() -> Seq<char> {
    "ENDOFFILE"@
}

/// The pieces of a script text between its `}`s, each with its `}` put back
/// (a piece that is exactly the end marker stays as it is).
pub open spec fn closed_pieces(data: Seq<char>) -> Seq<Seq<char>> {
    split(data, "}"@).map_values(
        |p: Seq<char>|
            if p == end_marker() {
                p
            } else {
                p + "}"@
            },
    )
}

/// Walks `marks` from position `i` on; for each piece that contains the end
/// marker, removes the entry at that same position of `out` (positions are those
/// of `marks`, not of what is left of `out`).  `None` when such a position is
/// past the end of what is left.
pub open spec fn drop_marked(out: Seq<Seq<char>>, marks: Seq<Seq<char>>, i: int) -> Option<
    Seq<Seq<char>>,
>
    decreases marks.len() - i,
{
    if i < 0 || i >= marks.len() {
        Some(out)
    } else if contains(marks[i], end_marker()) {
        if i < out.len() {
            drop_marked(out.remove(i), marks, i + 1)
        } else {
            None
        }
    } else {
        drop_marked(out, marks, i + 1)
    }
}

/// The commands of a script text; `None` when the removal of end-marker pieces
/// runs past the end of the list.
pub open spec fn script_commands(data: Seq<char>) -> Option<Seq<Seq<char>>> {
    drop_marked(closed_pieces(data), closed_pieces(data), 0)
}

/// Walking past pieces that do not contain the end marker removes nothing.
proof fn lemma_drop_unmarked(out: Seq<Seq<char>>, marks: Seq<Seq<char>>, i: int, j: int)
    requires
        0 <= i <= j <= marks.len(),
        forall|k: int| i <= k < j ==> !contains(#[trigger] marks[k], end_marker()),
    ensures
        drop_marked(out, marks, i) == drop_marked(out, marks, j),
    decreases j - i,
{
    if i < j {
        lemma_drop_unmarked(out, marks, i + 1, j);
    }
}

/// A text that starts with the end marker contains it.
proof fn lemma_starts_with_marker(t: Seq<char>)
    requires
        end_marker().len() <= t.len(),
        t.subrange(0, end_marker().len() as int) == end_marker(),
    ensures
        contains(t, end_marker()),
{
    crate::text::lemma_find_from(t, end_marker(), 0);
    assert(crate::text::matches_at(t, end_marker(), 0));
}

/// Law: when no command contains the end marker, the commands are the pieces
/// between the `}`s, each closed by its `}`, and joined they give back the
/// text followed by one `}`.
pub proof fn lemma_commands_without_marker(data: Seq<char>)
    requires
        forall|i: int|
            0 <= i < closed_pieces(data).len() ==> !contains(
                #[trigger] closed_pieces(data)[i],
                end_marker(),
            ),
    ensures
        script_commands(data) == Some(each_followed_by(split(data, "}"@), "}"@)),
        concat_all(script_commands(data).unwrap()) == data + "}"@,
{
    let ps = split(data, "}"@);
    let cl = closed_pieces(data);
    lemma_drop_unmarked(cl, cl, 0, cl.len() as int);
    assert forall|i: int| 0 <= i < ps.len() implies #[trigger] cl[i] == ps[i] + "}"@ by {
        if ps[i] == end_marker() {
            assert(cl[i].subrange(0, end_marker().len() as int) =~= end_marker());
            lemma_starts_with_marker(cl[i]);
        }
    }
    assert(cl =~= each_followed_by(ps, "}"@));
    reveal_strlit("}");
    lemma_split_join(data, "}"@);
}

/// Law: when the text ends with `}` and the end marker, and no command before
/// it contains the marker, the commands are the pieces before the marker,
/// each closed by its `}`, and joined and followed by the marker they give
/// back the text.
pub proof fn lemma_commands_with_end_marker(data: Seq<char>)
    requires
        split(data, "}"@).len() >= 2,
        split(data, "}"@).last() == end_marker(),
        forall|i: int|
            0 <= i < split(data, "}"@).len() - 1 ==> !contains(
                #[trigger] split(data, "}"@)[i] + "}"@,
                end_marker(),
            ),
    ensures
        script_commands(data) == Some(each_followed_by(split(data, "}"@).drop_last(), "}"@)),
        concat_all(script_commands(data).unwrap()) + end_marker() == data,
{
    let ps = split(data, "}"@);
    let cl = closed_pieces(data);
    let n = ps.len() as int;
    let body = ps.drop_last();
    assert forall|i: int| 0 <= i < n - 1 implies #[trigger] cl[i] == ps[i] + "}"@ by {
        if ps[i] == end_marker() {
            assert((ps[i] + "}"@).subrange(0, end_marker().len() as int) =~= end_marker());
            lemma_starts_with_marker(ps[i] + "}"@);
        }
    }
    assert forall|k: int| 0 <= k < n - 1 implies !contains(#[trigger] cl[k], end_marker()) by {
        assert(cl[k] == ps[k] + "}"@);
    }
    lemma_drop_unmarked(cl, cl, 0, n - 1);
    assert(cl[n - 1] == end_marker());
    assert(cl[n - 1].subrange(0, end_marker().len() as int) =~= end_marker());
    lemma_starts_with_marker(cl[n - 1]);
    assert(cl.remove(n - 1) =~= each_followed_by(body, "}"@));
    assert(drop_marked(cl.remove(n - 1), cl, n) == Some(cl.remove(n - 1)));
    reveal_strlit("}");
    lemma_split_join(data, "}"@);
    let all = each_followed_by(ps, "}"@);
    assert(all.drop_last() =~= each_followed_by(body, "}"@));
    assert(all.last() == end_marker() + "}"@);
    assert(concat_all(all) == concat_all(each_followed_by(body, "}"@)) + (end_marker() + "}"@));
    assert(concat_all(each_followed_by(body, "}"@)) + end_marker() + "}"@ == data + "}"@);
    assert(concat_all(each_followed_by(body, "}"@)) + end_marker() =~= (concat_all(
        each_followed_by(body, "}"@),
    ) + end_marker() + "}"@).drop_last());
    assert((data + "}"@).drop_last() =~= data);
}

/// The pieces that do not contain the end marker, in order.
pub open spec fn unmarked(ps: Seq<Seq<char>>) -> Seq<Seq<char>>
    decreases ps.len(),
{
    if ps.len() == 0 {
        seq![]
    } else if contains(ps.last(), end_marker()) {
        unmarked(ps.drop_last())
    } else {
        unmarked(ps.drop_last()).push(ps.last())
    }
}

/// Keeping the unmarked pieces of a list with at most one marked piece, at
/// `m` if any, removes just that piece.
proof fn lemma_unmarked_one(ps: Seq<Seq<char>>, m: int)
    requires
        forall|i: int| 0 <= i < ps.len() && i != m ==> !contains(#[trigger] ps[i], end_marker()),
    ensures
        0 <= m < ps.len() && contains(ps[m], end_marker()) ==> unmarked(ps) == ps.remove(m),
        !(0 <= m < ps.len() && contains(ps[m], end_marker())) ==> unmarked(ps) == ps,
    decreases ps.len(),
{
    if ps.len() > 0 {
        let init = ps.drop_last();
        assert forall|i: int| 0 <= i < init.len() && i != m implies !contains(
            #[trigger] init[i],
            end_marker(),
        ) by {
            assert(init[i] == ps[i]);
        }
        lemma_unmarked_one(init, m);
        if 0 <= m < ps.len() - 1 {
            assert(init[m] == ps[m]);
            if contains(ps[m], end_marker()) {
                assert(init.remove(m).push(ps.last()) =~= ps.remove(m));
            }
        } else if m == ps.len() - 1 && contains(ps[m], end_marker()) {
            assert(init =~= ps.remove(m));
            lemma_unmarked_one(init, -1);
        } else {
            assert(init.push(ps.last()) =~= ps);
        }
    }
}

/// Law: when at most one piece of a script text contains the end marker, its
/// commands are the pieces between the `}`s, each closed by its `}`, without
/// the piece that contains the marker.
pub proof fn lemma_commands_one_marker(data: Seq<char>, m: int)
    requires
        forall|i: int|
            0 <= i < closed_pieces(data).len() && i != m ==> !contains(
                #[trigger] closed_pieces(data)[i],
                end_marker(),
            ),
    ensures
        script_commands(data) == Some(unmarked(closed_pieces(data))),
{
    let cl = closed_pieces(data);
    let n = cl.len() as int;
    lemma_unmarked_one(cl, m);
    if 0 <= m < n && contains(cl[m], end_marker()) {
        lemma_drop_unmarked(cl, cl, 0, m);
        let out = cl.remove(m);
        lemma_drop_unmarked(out, cl, m + 1, n);
    } else {
        assert forall|k: int| 0 <= k < n implies !contains(#[trigger] cl[k], end_marker()) by {}
        lemma_drop_unmarked(cl, cl, 0, n);
    }
}

/// A script: its text, and the commands read from it.
#[derive(Debug, Clone)]
pub struct Script {
    pub data: Option<String>,
    pub commands: Option<Vec<String>>,
}

/// The commands of a script text, or `None` where reading them would fail.
pub fn try_commands(data: &String) -> (r: Option<Vec<String>>)
    ensures
        r is Some <==> script_commands(data@) is Some,
        r matches Some(v) ==> texts(v@) == script_commands(data@).unwrap(),
{
    proof {
        reveal_strlit("}");
    }
    let pieces = split_text(data.as_str(), "}");
    let mut closed: Vec<String> = Vec::new();
    let mut out: Vec<String> = Vec::new();
    let mut i: usize = 0;
    while i < pieces.len()
        invariant
            texts(pieces@) == split(data@, "}"@),
            i <= pieces.len(),
            closed.len() == i,
            out.len() == i,
            forall|j: int|
                0 <= j < i ==> (#[trigger] closed@[j])@ == closed_pieces(data@)[j] && out@[j]@
                    == closed_pieces(data@)[j],
        decreases pieces.len() - i,
    {
        assert(pieces@[i as int]@ == split(data@, "}"@)[i as int]);
        let mut p = pieces[i].clone();
        if !text_eq(pieces[i].as_str(), "ENDOFFILE") {
            p.append("}");
        }
        out.push(p.clone());
        closed.push(p);
        i = i + 1;
    }
    let ghost marks = closed_pieces(data@);
    assert(texts(closed@) =~= marks);
    assert(texts(out@) =~= marks);
    let mut k: usize = 0;
    while k < closed.len()
        invariant
            texts(closed@) == marks,
            k <= closed.len(),
            script_commands(data@) == drop_marked(texts(out@), marks, k as int),
        decreases closed.len() - k,
    {
        assert(closed@[k as int]@ == marks[k as int]);
        if contains_exec(closed[k].as_str(), "ENDOFFILE") {
            if k < out.len() {
                let ghost before = out@;
                out.remove(k);
                assert(texts(out@) =~= texts(before).remove(k as int));
            } else {
                return None;
            }
        }
        k = k + 1;
    }
    Some(out)
}

/// The commands of the script's text.
pub fn get_commands_int(input: &mut Script) -> (r: Vec<String>)
    requires
        old(input).data is Some,
        script_commands(old(input).data.unwrap()@) is Some,
    ensures
        *final(input) == *old(input),
        texts(r@) == script_commands(old(input).data.unwrap()@).unwrap(),
{
    let data = input.data.as_ref().unwrap();
    try_commands(data).unwrap()
}

/// The text between bytes `start` and `end` of `focus`, trimmed of whitespace.
pub fn command_int(start: &usize, end: &usize, focus: &String) -> (r: String)
    requires
        char_pos(focus@, *start as int) matches Some(a) && char_pos(focus@, *end as int) matches Some(
            b,
        ) && a <= b,
    ensures
        r@ == trim(
            focus@.subrange(
                char_pos(focus@, *start as int).unwrap(),
                char_pos(focus@, *end as int).unwrap(),
            ),
        ),
{
    let v = chars_of(focus.as_str());
    proof {
        lemma_char_pos_range(focus@, *start as int);
        lemma_char_pos_range(focus@, *end as int);
    }
    let a = char_pos_exec(&v, *start).unwrap();
    let b = char_pos_exec(&v, *end).unwrap();
    trimmed_slice(focus.as_str(), a, b)
}

/// Building and reading scripts.
pub trait Scripting: Sized {
    /// The script can be read into commands.
    spec fn readable(&self) -> bool;

    /// An empty script.
    fn new() -> (s: Script)
        ensures
            s.data is None,
            s.commands is None,
    {
        Script { data: None, commands: None }
    }

    /// A script with the given text and no commands read yet.
    fn from_string(input: String) -> (s: Script)
        ensures
            s.data == Some(input),
            s.commands is None,
    {
        Script { data: Some(input), commands: None }
    }

    /// Reads the commands from the text; by default, nothing changes.
    fn init_commands(&mut self)
        requires
            old(self).readable(),
        default_ensures
            *final(self) == *old(self),
    {
    }

    /// Reads the commands and lets go of the text; by default, nothing changes.
    fn process(&mut self)
        requires
            old(self).readable(),
        default_ensures
            *final(self) == *old(self),
    {
    }
}

impl Script {
    /// Whether the script's text can be read into commands.
    pub fn is_readable(&self) -> (r: bool)
        ensures
            r == (self.data is Some && script_commands(self.data.unwrap()@) is Some),
    {
        match &self.data {
            Some(d) => try_commands(d).is_some(),
            None => false,
        }
    }
}

impl Scripting for Script {
    open spec fn readable(&self) -> bool {
        self.data is Some && script_commands(self.data.unwrap()@) is Some
    }

    fn init_commands(&mut self)
        ensures
            final(self).data == old(self).data,
            final(self).commands matches Some(c) && texts(c@) == script_commands(
                old(self).data.unwrap()@,
            ).unwrap(),
    {
        let c = get_commands_int(self);
        self.commands = Some(c);
    }

    fn process(&mut self)
        ensures
            final(self).data is None,
            final(self).commands matches Some(c) && texts(c@) == script_commands(
                old(self).data.unwrap()@,
            ).unwrap(),
    {
        self.init_commands();
        self.data = None;
    }
}

} // verus!

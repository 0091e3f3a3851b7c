//! Reading the body of one script command: the text between delimiters,
//! its constants, its points, and the G-code lines that travel and probe
//! commands produce.
use vstd::prelude::*;

use crate::text::{
    ascii_lower, chars_of, concat_all, contains, contains_exec, count_char, each_followed_by, find,
    find_from_exec, free_of, lemma_find_from, lemma_split_two, lower_char, lower_text, matches_at,
    slice_owned, split, split_once, split_text, texts,
};

verus! {

// ---------------------------------------------------------------------
// Delimited text
// ---------------------------------------------------------------------

/// The text after the first `start` and before the first `end` that follows it.
pub open spec fn between(focus: Seq<char>, start: Seq<char>, end: Seq<char>) -> Option<Seq<char>> {
    match split_once(focus, start) {
        Some((_, rest)) => match split_once(rest, end) {
            Some((inner, _)) => Some(inner),
            None => None,
        },
        None => None,
    }
}

/// The text after the first `start` and before the first `end` that follows
/// it, or `None` when either is missing.
pub fn try_prange(start: &str, end: &str, focus: &String) -> (r: Option<String>)
    ensures
        r is Some <==> between(focus@, start@, end@) is Some,
        r matches Some(t) ==> t@ == between(focus@, start@, end@).unwrap(),
{
    let x = chars_of(focus.as_str());
    let ps = chars_of(start);
    match find_from_exec(&x, &ps, 0) {
        None => None,
        Some(i) => {
            proof {
                crate::text::lemma_find_from(x@, ps@, 0);
            }
            let plen = ps.len();
            assert(i + plen <= x.len());
            let rest = slice_owned(focus.as_str(), i + plen, x.len());
            assert(rest@ =~= focus@.skip(i + start@.len()));
            let y = chars_of(rest.as_str());
            let pe = chars_of(end);
            match find_from_exec(&y, &pe, 0) {
                None => None,
                Some(j) => {
                    proof {
                        crate::text::lemma_find_from(y@, pe@, 0);
                    }
                    let inner = slice_owned(rest.as_str(), 0, j);
                    assert(inner@ =~= rest@.take(j as int));
                    Some(inner)
                },
            }
        },
    }
}

/// Law: the text that `prange` takes out is framed in `focus` by `start` and
/// `end`, and holds no occurrence of `end`.
pub proof fn lemma_between(focus: Seq<char>, start: Seq<char>, end: Seq<char>)
    requires
        between(focus, start, end) is Some,
        end.len() > 0,
    ensures
        contains(focus, start + between(focus, start, end).unwrap() + end),
        !contains(between(focus, start, end).unwrap(), end),
{
    let i = find(focus, start).unwrap();
    lemma_find_from(focus, start, 0);
    let rest = focus.skip(i + start.len());
    let j = find(rest, end).unwrap();
    lemma_find_from(rest, end, 0);
    let r = rest.take(j);
    assert(between(focus, start, end).unwrap() == r);
    let whole = start + r + end;
    assert(focus.subrange(i, i + whole.len()) =~= whole) by {
        assert forall|k: int| 0 <= k < whole.len() implies focus.subrange(i, i + whole.len())[k]
            == whole[k] by {
            if k < start.len() {
                assert(focus.subrange(i, i + start.len())[k] == start[k]);
            } else if k < start.len() + j {
                assert(rest[k - start.len()] == focus[i + k]);
            } else {
                assert(rest.subrange(j, j + end.len())[k - start.len() - j] == end[k - start.len()
                    - j]);
                assert(rest[k - start.len()] == focus[i + k]);
            }
        }
    }
    assert(matches_at(focus, whole, i));
    lemma_find_from(focus, whole, 0);
    lemma_find_from(r, end, 0);
    if contains(r, end) {
        let m = find(r, end).unwrap();
        assert(r.subrange(m, m + end.len()) =~= rest.subrange(m, m + end.len()));
        assert(matches_at(rest, end, m));
    }
}

/// The text after the first `start` and before the first `end` that follows it.
pub fn prange(start: &str, end: &str, focus: &String) -> (r: String)
    requires
        between(focus@, start@, end@) is Some,
    ensures
        r@ == between(focus@, start@, end@).unwrap(),
{
    try_prange(start, end, focus).unwrap()
}

// ---------------------------------------------------------------------
// Reading every point
// ---------------------------------------------------------------------

/// Reads each entry with `f`, in order; `None` as soon as one cannot be read.
pub open spec fn collect<A>(xs: Seq<Seq<char>>, f: spec_fn(Seq<char>) -> Option<A>) -> Option<Seq<A>>
    decreases xs.len(),
{
    if xs.len() == 0 {
        Some(seq![])
    } else {
        match collect(xs.drop_last(), f) {
            Some(a) => match f(xs.last()) {
                Some(b) => Some(a.push(b)),
                None => None,
            },
            None => None,
        }
    }
}

/// One entry that cannot be read makes the whole reading fail.
pub proof fn lemma_collect_fails<A>(xs: Seq<Seq<char>>, f: spec_fn(Seq<char>) -> Option<A>, i: int)
    requires
        0 <= i < xs.len(),
        f(xs[i]) is None,
    ensures
        collect(xs, f) is None,
    decreases xs.len(),
{
    if i < xs.len() - 1 {
        assert(xs.drop_last()[i] == xs[i]);
        lemma_collect_fails(xs.drop_last(), f, i);
    }
}

/// Reading one more entry extends the reading of the entries before it.
pub proof fn lemma_collect_step<A>(xs: Seq<Seq<char>>, f: spec_fn(Seq<char>) -> Option<A>, i: int)
    requires
        0 <= i < xs.len(),
    ensures
        collect(xs.take(i + 1), f) == match collect(xs.take(i), f) {
            Some(a) => match f(xs[i]) {
                Some(b) => Some(a.push(b)),
                None => None,
            },
            None => None,
        },
{
    assert(xs.take(i + 1).drop_last() =~= xs.take(i));
}

/// The values present in a sequence of optional values, in order.
pub open spec fn somes<A>(xs: Seq<Option<A>>) -> Seq<A>
    decreases xs.len(),
{
    if xs.len() == 0 {
        seq![]
    } else {
        match xs.last() {
            Some(a) => somes(xs.drop_last()).push(a),
            None => somes(xs.drop_last()),
        }
    }
}

// ---------------------------------------------------------------------
// Points
// ---------------------------------------------------------------------

/// The points of a command: the `;`-separated entries between `{` and `;}`.
pub open spec fn points_of(input: Seq<char>) -> Option<Seq<Seq<char>>> {
    match between(input, "{"@, ";}"@) {
        Some(body) => Some(split(body, ";"@)),
        None => None,
    }
}

/// The points of a command, or `None` when it has no `{ ... ;}` body.
pub fn try_points(input: &String) -> (r: Option<Vec<String>>)
    ensures
        r is Some <==> points_of(input@) is Some,
        r matches Some(v) ==> texts(v@) == points_of(input@).unwrap(),
{
    match try_prange("{", ";}", input) {
        None => None,
        Some(body) => {
            proof {
                reveal_strlit(";");
            }
            Some(split_text(body.as_str(), ";"))
        },
    }
}

/// The points of a command: the `;`-separated entries between `{` and `;}`.
pub fn points(input: &String) -> (r: Vec<String>)
    requires
        points_of(input@) is Some,
    ensures
        texts(r@) == points_of(input@).unwrap(),
{
    try_points(input).unwrap()
}

// ---------------------------------------------------------------------
// Constants
// ---------------------------------------------------------------------

/// The constants `z` and `f` of a command, as written.
#[derive(Debug, PartialEq, Eq)]
pub struct Consts<T> {
    pub z: Option<T>,
    pub f: Option<T>,
}

/// The constant entries of a command: in the text between `(` and `)`, after
/// the first `const:`, up to the first `;`, separated by `,`.
pub open spec fn const_entries(input: Seq<char>) -> Option<Seq<Seq<char>>> {
    match between(input, "("@, ")"@) {
        Some(o) => {
            let parts = split(o, "const:"@);
            if parts.len() >= 2 {
                let after = parts[1];
                let head = split(after, ";"@)[0];
                Some(
                    if contains(after, ","@) {
                        split(head, ","@)
                    } else {
                        seq![head]
                    },
                )
            } else {
                None
            }
        },
        None => None,
    }
}

/// Every entry starts with an ASCII character (its one-byte prefix exists).
pub open spec fn entries_readable(cs: Seq<Seq<char>>) -> bool {
    forall|i: int| 0 <= i < cs.len() ==> (#[trigger] cs[i]).len() > 0 && (cs[i][0] as u32) < 128
}

/// The constants of a command can be read.
pub open spec fn consts_ok(input: Seq<char>) -> bool {
    const_entries(input) matches Some(cs) && entries_readable(cs)
}

/// The last entry whose first character is `k` in either case.
pub open spec fn last_keyed(cs: Seq<Seq<char>>, k: char) -> Option<Seq<char>>
    decreases cs.len(),
{
    if cs.len() == 0 {
        None
    } else if ascii_lower(cs.last()[0]) == k {
        Some(cs.last())
    } else {
        last_keyed(cs.drop_last(), k)
    }
}

/// The constants of a command.
pub open spec fn consts_of(input: Seq<char>) -> Consts<Seq<char>> {
    let cs = const_entries(input).unwrap();
    Consts { z: last_keyed(cs, 'z'), f: last_keyed(cs, 'f') }
}

impl<T: View> View for Consts<T> {
    type V = Consts<T::V>;

    open spec fn view(&self) -> Consts<T::V> {
        Consts {
            z: match self.z {
                Some(t) => Some(t@),
                None => None,
            },
            f: match self.f {
                Some(t) => Some(t@),
                None => None,
            },
        }
    }
}

/// The first character of `s`, lower-cased, when `s` starts with an ASCII
/// character.
fn first_key(s: &String) -> (r: Option<char>)
    ensures
        r matches Some(c) ==> s@.len() > 0 && (s@[0] as u32) < 128 && c == ascii_lower(s@[0]),
        r is None ==> !(s@.len() > 0 && (s@[0] as u32) < 128),
{
    let v = chars_of(s.as_str());
    if v.len() == 0 {
        return None;
    }
    let c = v[0];
    if (c as u32) < 128 {
        Some(lower_char(c))
    } else {
        None
    }
}

/// The constants of a command, or `None` when they cannot be read.
pub fn try_consts(input: &String) -> (r: Option<Consts<String>>)
    ensures
        r is Some <==> consts_ok(input@),
        r matches Some(c) ==> c@ == consts_of(input@),
{
    proof {
        reveal_strlit(";");
        reveal_strlit(",");
        reveal_strlit("const:");
    }
    let o = match try_prange("(", ")", input) {
        Some(o) => o,
        None => return None,
    };
    let parts = split_text(o.as_str(), "const:");
    proof {
        crate::text::lemma_split_nonempty(o@, "const:"@);
    }
    if parts.len() < 2 {
        return None;
    }
    assert(parts@[1]@ == split(o@, "const:"@)[1]);
    let after = &parts[1];
    let heads = split_text(after.as_str(), ";");
    proof {
        crate::text::lemma_split_nonempty(after@, ";"@);
    }
    assert(heads@[0]@ == split(after@, ";"@)[0]);
    let entries: Vec<String> = if contains_exec(after.as_str(), ",") {
        split_text(heads[0].as_str(), ",")
    } else {
        let mut v = Vec::new();
        v.push(heads[0].clone());
        assert(texts(v@) =~= seq![heads@[0]@]);
        v
    };
    let ghost cs = const_entries(input@).unwrap();
    assert(const_entries(input@) is Some);
    assert(texts(entries@) == cs);
    let mut z: Option<String> = None;
    let mut f: Option<String> = None;
    let mut i: usize = 0;
    while i < entries.len()
        invariant
            const_entries(input@) == Some(cs),
            texts(entries@) == cs,
            i <= entries.len(),
            entries_readable(cs.take(i as int)),
            (Consts { z, f })@ == (Consts {
                z: last_keyed(cs.take(i as int), 'z'),
                f: last_keyed(cs.take(i as int), 'f'),
            }),
        decreases entries.len() - i,
    {
        let ghost pre = cs.take(i as int);
        let ghost post = cs.take(i + 1);
        assert(post.drop_last() =~= pre);
        assert(post.last() == entries@[i as int]@);
        match first_key(&entries[i]) {
            None => {
                assert(!consts_ok(input@)) by {
                    assert(cs[i as int] == entries@[i as int]@);
                    assert(!entries_readable(cs));
                }
                return None;
            },
            Some(k) => {
                if k == 'z' {
                    z = Some(entries[i].clone());
                } else if k == 'f' {
                    f = Some(entries[i].clone());
                }
            },
        }
        assert(entries_readable(post)) by {
            assert forall|j: int| 0 <= j < post.len() implies (#[trigger] post[j]).len() > 0 && (
            post[j][0] as u32) < 128 by {
                if j < i {
                    assert(post[j] == pre[j]);
                }
            }
        }
        i = i + 1;
    }
    assert(cs.take(entries.len() as int) =~= cs);
    Some(Consts { z, f })
}

/// The constants of a command.
pub fn consts(input: &String) -> (r: Consts<String>)
    requires
        consts_ok(input@),
    ensures
        r@ == consts_of(input@),
{
    try_consts(input).unwrap()
}

/// The text of an optional value, empty when there is none.
pub open spec fn text_or_empty(o: Option<Seq<char>>) -> Seq<char> {
    match o {
        Some(t) => t,
        None => seq![],
    }
}

/// The line that sets a command's constants: `G1 `, the `z` constant, the `f`
/// constant, and a line break.
pub open spec fn const_line_text(cmd: Seq<char>) -> Seq<char> {
    "G1 "@ + text_or_empty(consts_of(cmd).z) + text_or_empty(consts_of(cmd).f) + "\n"@
}

impl Consts<String> {
    /// The `z` constant followed by the `f` constant, as written.
    pub fn unwrap_const(&self) -> (r: String)
        ensures
            r@ == text_or_empty(self@.z) + text_or_empty(self@.f),
    {
        let mut s = match &self.z {
            Some(t) => t.clone(),
            None => String::new(),
        };
        match &self.f {
            Some(t) => s.append(t.as_str()),
            None => {},
        }
        assert(s@ =~= text_or_empty(self@.z) + text_or_empty(self@.f));
        s
    }
}

// ---------------------------------------------------------------------
// Travel and probe moves
// ---------------------------------------------------------------------

/// The first two `,`-separated parts of a point.
pub open spec fn point_xy(p: Seq<char>) -> Option<(Seq<char>, Seq<char>)> {
    let parts = split(p, ","@);
    if parts.len() >= 2 {
        Some((parts[0], parts[1]))
    } else {
        None
    }
}

/// The G-code line for a move to a point (followed by a probe when asked).
pub open spec fn move_line(p: Seq<char>, probe: bool) -> Option<Seq<char>> {
    match point_xy(p) {
        Some((x, y)) => Some(
            "G1 X"@ + x + " Y"@ + y + if probe {
                "\nG30\n"@
            } else {
                "\n"@
            },
        ),
        None => None,
    }
}

/// The move lines of each point.
pub open spec fn move_steps(pts: Seq<Seq<char>>, probe: bool) -> Option<Seq<Seq<char>>> {
    collect(pts, |p: Seq<char>| move_line(p, probe))
}

/// The G-code text of a travel (or probe) command: one line per point.
pub open spec fn moves_of(command: Seq<char>, probe: bool) -> Option<Seq<char>> {
    match points_of(command) {
        Some(pts) => match move_steps(pts, probe) {
            Some(lines) => Some(concat_all(lines)),
            None => None,
        },
        None => None,
    }
}

/// The G-code text of a travel (or probe) command, or `None` when a point
/// cannot be read.
pub fn try_moves(command: &String, probe: bool) -> (r: Option<String>)
    ensures
        r is Some <==> moves_of(command@, probe) is Some,
        r matches Some(t) ==> t@ == moves_of(command@, probe).unwrap(),
{
    let pts = match try_points(command) {
        Some(p) => p,
        None => return None,
    };
    let ghost ps = texts(pts@);
    let mut out = String::new();
    let ghost mut lines: Seq<Seq<char>> = seq![];
    let mut i: usize = 0;
    while i < pts.len()
        invariant
            ps == texts(pts@),
            ps == points_of(command@).unwrap(),
            i <= pts.len(),
            move_steps(ps.take(i as int), probe) == Some(lines),
            out@ == concat_all(lines),
        decreases pts.len() - i,
    {
        proof {
            lemma_collect_step(ps, |p: Seq<char>| move_line(p, probe), i as int);
            reveal_strlit(",");
        }
        assert(ps[i as int] == pts@[i as int]@);
        let parts = split_text(pts[i].as_str(), ",");
        if parts.len() < 2 {
            proof {
                lemma_collect_fails(ps, |p: Seq<char>| move_line(p, probe), i as int);
            }
            return None;
        }
        assert(parts@[0]@ == split(ps[i as int], ","@)[0]);
        assert(parts@[1]@ == split(ps[i as int], ","@)[1]);
        let ghost before = out@;
        out.append("G1 X");
        out.append(parts[0].as_str());
        out.append(" Y");
        out.append(parts[1].as_str());
        if probe {
            out.append("\nG30\n");
        } else {
            out.append("\n");
        }
        proof {
            let line = move_line(ps[i as int], probe).unwrap();
            assert(out@ =~= before + line);
            let more = lines.push(line);
            assert(more.drop_last() =~= lines);
            lines = more;
        }
        i = i + 1;
    }
    assert(ps.take(pts.len() as int) =~= ps);
    Some(out)
}

/// The travel lines of a command: one `G1 X.. Y..` line per point.
pub open spec fn travel_lines(command: Seq<char>) -> Seq<Seq<char>> {
    move_steps(points_of(command).unwrap(), false).unwrap()
}

/// A probe line is the travel line followed by a `G30` line.
proof fn lemma_probe_line(p: Seq<char>)
    ensures
        move_line(p, true) == match move_line(p, false) {
            Some(l) => Some(l + "G30\n"@),
            None => None,
        },
{
    reveal_strlit("\nG30\n");
    reveal_strlit("\n");
    reveal_strlit("G30\n");
    if let Some((x, y)) = point_xy(p) {
        assert("\nG30\n"@ =~= "\n"@ + "G30\n"@);
        assert("G1 X"@ + x + " Y"@ + y + "\nG30\n"@ =~= ("G1 X"@ + x + " Y"@ + y + "\n"@)
            + "G30\n"@);
    }
}

/// The probe lines of a list of points are its travel lines, each followed by
/// a `G30` line.
proof fn lemma_probe_steps(pts: Seq<Seq<char>>)
    ensures
        move_steps(pts, true) == match move_steps(pts, false) {
            Some(ls) => Some(each_followed_by(ls, "G30\n"@)),
            None => None,
        },
    decreases pts.len(),
{
    if pts.len() > 0 {
        lemma_probe_steps(pts.drop_last());
        lemma_probe_line(pts.last());
        if let Some(ls) = move_steps(pts.drop_last(), false) {
            if let Some(l) = move_line(pts.last(), false) {
                assert(each_followed_by(ls.push(l), "G30\n"@) =~= each_followed_by(ls, "G30\n"@).push(
                    l + "G30\n"@,
                ));
            }
        }
    }
}

/// Law: a probe command can be read exactly when the same travel command can,
/// and it emits, for each point, the travel command's line followed by a
/// `G30` line.
pub proof fn lemma_probe_is_travel_then_probe(command: Seq<char>)
    ensures
        moves_of(command, true) is Some <==> moves_of(command, false) is Some,
        moves_of(command, false) is Some ==> moves_of(command, false).unwrap() == concat_all(
            travel_lines(command),
        ) && moves_of(command, true).unwrap() == concat_all(
            each_followed_by(travel_lines(command), "G30\n"@),
        ),
{
    if let Some(pts) = points_of(command) {
        lemma_probe_steps(pts);
    }
}

/// Appends one `G1 X.. Y..` move and a `G30` probe for each point.
pub fn run_probe(command: &String, output: &mut String)
    requires
        moves_of(command@, true) is Some,
    ensures
        final(output)@ == old(output)@ + moves_of(command@, true).unwrap(),
{
    let t = try_moves(command, true).unwrap();
    output.append(t.as_str());
}

/// Appends one `G1 X.. Y..` move for each point.
pub fn run_travel(command: &String, output: &mut String)
    requires
        moves_of(command@, false) is Some,
    ensures
        final(output)@ == old(output)@ + moves_of(command@, false).unwrap(),
{
    let t = try_moves(command, false).unwrap();
    output.append(t.as_str());
}

// ---------------------------------------------------------------------
// Settings
// ---------------------------------------------------------------------

/// Which setting an entry of a settings command assigns.
#[derive(Debug, Clone, Copy, PartialEq, Eq, Structural)]
pub enum SettingKey {
    /// `w`: line width
    LayerWidth,
    /// `h`: layer height
    LayerHeight,
    /// `n`: nozzle diameter
    Nozzle,
    /// `m`: extrusion multiplier
    ExtrusionMult,
}

/// One entry of a settings command: the setting and the number as written.
#[derive(Debug, PartialEq, Eq)]
pub struct Setting<T> {
    pub key: SettingKey,
    pub value: T,
}

impl<T: View> View for Setting<T> {
    type V = Setting<T::V>;

    open spec fn view(&self) -> Setting<T::V> {
        Setting { key: self.key, value: self.value@ }
    }
}

/// The setting that a key names, in either case.
pub open spec fn setting_key(k: Seq<char>) -> Option<SettingKey> {
    let l = lower_text(k);
    if l == "w"@ {
        Some(SettingKey::LayerWidth)
    } else if l == "h"@ {
        Some(SettingKey::LayerHeight)
    } else if l == "n"@ {
        Some(SettingKey::Nozzle)
    } else if l == "m"@ {
        Some(SettingKey::ExtrusionMult)
    } else {
        None
    }
}

/// Lower-casing twice is lower-casing once.
pub proof fn lemma_lower_text_idempotent(k: Seq<char>)
    ensures
        lower_text(lower_text(k)) == lower_text(k),
{
    assert forall|i: int| 0 <= i < k.len() implies ascii_lower(ascii_lower(k[i])) == ascii_lower(
        k[i],
    ) by {
        let c = k[i];
        if 'A' <= c && c <= 'Z' {
            let d = ((c as u32) + 32) as char;
            assert(d as u32 == (c as u32) + 32);
            assert(!('A' <= d && d <= 'Z'));
        }
    }
    assert(lower_text(lower_text(k)) =~= lower_text(k));
}

/// Law: a settings key is read the same in either case: a key names the same
/// setting as its lower-cased form, and each of `W`, `H`, `N`, `M` names the
/// same setting as `w`, `h`, `n`, `m` (line width, layer height, nozzle,
/// extrusion multiplier).
pub proof fn lemma_setting_key_any_case(k: Seq<char>)
    ensures
        setting_key(k) == setting_key(lower_text(k)),
        setting_key(seq!['w']) == Some(SettingKey::LayerWidth),
        setting_key(seq!['W']) == Some(SettingKey::LayerWidth),
        setting_key(seq!['h']) == Some(SettingKey::LayerHeight),
        setting_key(seq!['H']) == Some(SettingKey::LayerHeight),
        setting_key(seq!['n']) == Some(SettingKey::Nozzle),
        setting_key(seq!['N']) == Some(SettingKey::Nozzle),
        setting_key(seq!['m']) == Some(SettingKey::ExtrusionMult),
        setting_key(seq!['M']) == Some(SettingKey::ExtrusionMult),
{
    lemma_lower_text_idempotent(k);
    reveal_strlit("w");
    reveal_strlit("h");
    reveal_strlit("n");
    reveal_strlit("m");
    assert("w"@ =~= seq!['w']);
    assert("h"@ =~= seq!['h']);
    assert("n"@ =~= seq!['n']);
    assert("m"@ =~= seq!['m']);
    assert(lower_text(seq!['w']) =~= seq!['w']);
    assert(lower_text(seq!['W']) =~= seq!['w']);
    assert(lower_text(seq!['h']) =~= seq!['h']);
    assert(lower_text(seq!['H']) =~= seq!['h']);
    assert(lower_text(seq!['n']) =~= seq!['n']);
    assert(lower_text(seq!['N']) =~= seq!['n']);
    assert(lower_text(seq!['m']) =~= seq!['m']);
    assert(lower_text(seq!['M']) =~= seq!['m']);
    assert(seq!['h'] != seq!['w']) by {
        assert(seq!['h'][0] != seq!['w'][0]);
    }
    assert(seq!['n'] != seq!['w'] && seq!['n'] != seq!['h']) by {
        assert(seq!['n'][0] != seq!['w'][0]);
        assert(seq!['n'][0] != seq!['h'][0]);
    }
    assert(seq!['m'] != seq!['w'] && seq!['m'] != seq!['h'] && seq!['m'] != seq!['n']) by {
        assert(seq!['m'][0] != seq!['w'][0]);
        assert(seq!['m'][0] != seq!['h'][0]);
        assert(seq!['m'][0] != seq!['n'][0]);
    }
}

/// An entry `key:value`; `None` for an unknown key or a missing value.
pub open spec fn setting_of(p: Seq<char>) -> Option<Setting<Seq<char>>> {
    let parts = split(p, ":"@);
    match setting_key(parts[0]) {
        Some(k) => if parts.len() >= 2 {
            Some(Setting { key: k, value: parts[1] })
        } else {
            None
        },
        None => None,
    }
}

/// The entries of a settings command.
pub open spec fn settings_of(command: Seq<char>) -> Option<Seq<Setting<Seq<char>>>> {
    match points_of(command) {
        Some(pts) => collect(pts, |p: Seq<char>| setting_of(p)),
        None => None,
    }
}

/// Law: a travel or probe command can be read exactly when each point has
/// two `,`-separated parts, and its travel lines are then one line
/// `G1 X<first part> Y<second part>` per point, in order.
pub proof fn lemma_travel_lines_each(command: Seq<char>)
    ensures
        moves_of(command, false) is Some <==> (points_of(command) matches Some(pts) && forall|i: int|
            0 <= i < pts.len() ==> (#[trigger] split(pts[i], ","@)).len() >= 2),
        moves_of(command, false) is Some ==> ({
            let pts = points_of(command).unwrap();
            &&& travel_lines(command).len() == pts.len()
            &&& forall|i: int|
                0 <= i < pts.len() ==> #[trigger] travel_lines(command)[i] == "G1 X"@ + split(
                    pts[i],
                    ","@,
                )[0] + " Y"@ + split(pts[i], ","@)[1] + "\n"@
        }),
{
    if let Some(pts) = points_of(command) {
        let f = |p: Seq<char>| move_line(p, false);
        lemma_collect_each(pts, f);
        assert(forall|i: int| 0 <= i < pts.len() ==> #[trigger] f(pts[i]) == move_line(pts[i], false));
        if collect(pts, f) is Some {
            assert forall|i: int| 0 <= i < pts.len() implies (#[trigger] split(pts[i], ","@)).len() >= 2 by {
                assert(f(pts[i]) is Some);
            }
        } else {
            if forall|i: int| 0 <= i < pts.len() ==> (#[trigger] split(pts[i], ","@)).len() >= 2 {
                assert forall|i: int| 0 <= i < pts.len() implies (#[trigger] f(pts[i])) is Some by {
                    assert(split(pts[i], ","@).len() >= 2);
                }
            }
        }
    }
}

/// Law: a settings command can be read exactly when each point is a known key
/// (`w`, `h`, `n`, `m`, in either case) followed by `:` and a value; it then
/// carries one setting per point, in order, with the text after the first `:`
/// up to the next `:` as its value.
pub proof fn lemma_settings_each(command: Seq<char>)
    ensures
        settings_of(command) is Some <==> (points_of(command) matches Some(pts) && forall|i: int|
            0 <= i < pts.len() ==> (#[trigger] setting_key(split(pts[i], ":"@)[0])) is Some
                && split(pts[i], ":"@).len() >= 2),
        settings_of(command) matches Some(v) ==> ({
            let pts = points_of(command).unwrap();
            &&& v.len() == pts.len()
            &&& forall|i: int|
                0 <= i < pts.len() ==> Some(#[trigger] v[i].key) == setting_key(
                    split(pts[i], ":"@)[0],
                ) && v[i].value == split(pts[i], ":"@)[1]
        }),
{
    if let Some(pts) = points_of(command) {
        let f = |p: Seq<char>| setting_of(p);
        lemma_collect_each(pts, f);
        assert(forall|i: int| 0 <= i < pts.len() ==> #[trigger] f(pts[i]) == setting_of(pts[i]));
        if collect(pts, f) is Some {
            let v = collect(pts, f).unwrap();
            assert forall|i: int| 0 <= i < pts.len() implies (#[trigger] setting_key(
                split(pts[i], ":"@)[0],
            )) is Some && split(pts[i], ":"@).len() >= 2 by {
                assert(f(pts[i]) is Some);
            }
            assert forall|i: int| 0 <= i < pts.len() implies Some(#[trigger] v[i].key) == setting_key(
                split(pts[i], ":"@)[0],
            ) && v[i].value == split(pts[i], ":"@)[1] by {
                assert(f(pts[i]) == Some(v[i]));
            }
        } else {
            if forall|i: int|
                0 <= i < pts.len() ==> (#[trigger] setting_key(split(pts[i], ":"@)[0])) is Some
                    && split(pts[i], ":"@).len() >= 2 {
                assert forall|i: int| 0 <= i < pts.len() implies (#[trigger] f(pts[i])) is Some by {
                    assert(setting_key(split(pts[i], ":"@)[0]) is Some);
                }
            }
        }
    }
}

/// The setting that a key names, in either case.
fn key_of(k: &String) -> (r: Option<SettingKey>)
    ensures
        r == setting_key(k@),
{
    proof {
        reveal_strlit("w");
        reveal_strlit("h");
        reveal_strlit("n");
        reveal_strlit("m");
    }
    let v = chars_of(k.as_str());
    if v.len() != 1 {
        assert(lower_text(k@).len() != 1);
        return None;
    }
    let c = lower_char(v[0]);
    let ghost l = lower_text(k@);
    assert(l =~= seq![c]);
    assert("w"@ =~= seq!['w']);
    assert("h"@ =~= seq!['h']);
    assert("n"@ =~= seq!['n']);
    assert("m"@ =~= seq!['m']);
    assert(l == "w"@ <==> c == 'w') by {
        if l == "w"@ {
            assert(l[0] == "w"@[0]);
        }
    }
    assert(l == "h"@ <==> c == 'h') by {
        if l == "h"@ {
            assert(l[0] == "h"@[0]);
        }
    }
    assert(l == "n"@ <==> c == 'n') by {
        if l == "n"@ {
            assert(l[0] == "n"@[0]);
        }
    }
    assert(l == "m"@ <==> c == 'm') by {
        if l == "m"@ {
            assert(l[0] == "m"@[0]);
        }
    }
    if c == 'w' {
        Some(SettingKey::LayerWidth)
    } else if c == 'h' {
        Some(SettingKey::LayerHeight)
    } else if c == 'n' {
        Some(SettingKey::Nozzle)
    } else if c == 'm' {
        Some(SettingKey::ExtrusionMult)
    } else {
        None
    }
}

/// The entries of a settings command, or `None` when one cannot be read.
pub fn try_settings(command: &String) -> (r: Option<Vec<Setting<String>>>)
    ensures
        r is Some <==> settings_of(command@) is Some,
        r matches Some(v) ==> v@.map_values(|e: Setting<String>| e@) == settings_of(
            command@,
        ).unwrap(),
{
    let pts = match try_points(command) {
        Some(p) => p,
        None => return None,
    };
    let ghost ps = texts(pts@);
    let mut out: Vec<Setting<String>> = Vec::new();
    let mut i: usize = 0;
    while i < pts.len()
        invariant
            ps == texts(pts@),
            ps == points_of(command@).unwrap(),
            i <= pts.len(),
            collect(ps.take(i as int), |p: Seq<char>| setting_of(p)) == Some(
                out@.map_values(|e: Setting<String>| e@),
            ),
        decreases pts.len() - i,
    {
        proof {
            lemma_collect_step(ps, |p: Seq<char>| setting_of(p), i as int);
            reveal_strlit(":");
            crate::text::lemma_split_nonempty(ps[i as int], ":"@);
        }
        assert(ps[i as int] == pts@[i as int]@);
        let parts = split_text(pts[i].as_str(), ":");
        assert(parts@[0]@ == split(ps[i as int], ":"@)[0]);
        let key = match key_of(&parts[0]) {
            Some(k) => k,
            None => {
                proof {
                    lemma_collect_fails(ps, |p: Seq<char>| setting_of(p), i as int);
                }
                return None;
            },
        };
        if parts.len() < 2 {
            proof {
                lemma_collect_fails(ps, |p: Seq<char>| setting_of(p), i as int);
            }
            return None;
        }
        assert(parts@[1]@ == split(ps[i as int], ":"@)[1]);
        let ghost before = out@.map_values(|e: Setting<String>| e@);
        out.push(Setting { key, value: parts[1].clone() });
        assert(out@.map_values(|e: Setting<String>| e@) =~= before.push(
            setting_of(ps[i as int]).unwrap(),
        ));
        i = i + 1;
    }
    assert(ps.take(pts.len() as int) =~= ps);
    Some(out)
}

/// The entries of a settings command, in order.
pub fn settings_entries(command: &String) -> (r: Vec<Setting<String>>)
    requires
        settings_of(command@) is Some,
    ensures
        r@.map_values(|e: Setting<String>| e@) == settings_of(command@).unwrap(),
{
    try_settings(command).unwrap()
}

// ---------------------------------------------------------------------
// Circles
// ---------------------------------------------------------------------

/// One entry of a circle command, with its numbers as written.
#[derive(Debug, PartialEq, Eq)]
pub enum CircleEntry<T> {
    /// `o:x,y` sets the centre
    Center(T, T),
    /// `r:radius` sets the radius
    Radius(T),
    /// `x,y:radius` sets both
    CenterRadius(T, T, T),
}

impl<T: View> View for CircleEntry<T> {
    type V = CircleEntry<T::V>;

    open spec fn view(&self) -> CircleEntry<T::V> {
        match self {
            CircleEntry::Center(x, y) => CircleEntry::Center(x@, y@),
            CircleEntry::Radius(r) => CircleEntry::Radius(r@),
            CircleEntry::CenterRadius(x, y, r) => CircleEntry::CenterRadius(x@, y@, r@),
        }
    }
}

/// What one point of a circle command sets: `Some(None)` when it sets nothing,
/// `None` when it cannot be read.
pub open spec fn circle_step(p: Seq<char>) -> Option<Option<CircleEntry<Seq<char>>>> {
    let parts = split(p, ":"@);
    if contains(p, "o:"@) {
        let xy = split(parts[1], ","@);
        if xy.len() >= 2 {
            Some(Some(CircleEntry::Center(xy[0], xy[1])))
        } else {
            None
        }
    } else if contains(p, "r:"@) {
        Some(Some(CircleEntry::Radius(parts[1])))
    } else if count_char(p, ':') == 1 {
        let xy = split(parts[0], ","@);
        if xy.len() >= 2 {
            Some(Some(CircleEntry::CenterRadius(xy[0], xy[1], parts[1])))
        } else {
            None
        }
    } else {
        Some(None)
    }
}

/// A text that contains `a` followed by `:` splits at `:` into at least two pieces.
proof fn lemma_pair_splits(p: Seq<char>, a: char)
    requires
        contains(p, seq![a, ':']),
    ensures
        split(p, seq![':']).len() >= 2,
{
    lemma_find_from(p, seq![a, ':'], 0);
    let j = find(p, seq![a, ':']).unwrap();
    assert(p.subrange(j, j + 2)[1] == ':');
    crate::text::lemma_split_found(p, ':', j + 1);
}

/// The entries of a circle command, in order.
pub open spec fn circle_of(command: Seq<char>) -> Option<Seq<CircleEntry<Seq<char>>>> {
    match points_of(command) {
        Some(pts) => match collect(pts, |p: Seq<char>| circle_step(p)) {
            Some(steps) => Some(somes(steps)),
            None => None,
        },
        None => None,
    }
}

/// Law: a circle command can be read exactly when each of its points can; a
/// point names a centre when it contains `o:`, else a radius when it contains
/// `r:`, else both when it holds a single `:`, and otherwise sets nothing.
pub proof fn lemma_circle_each(command: Seq<char>)
    ensures
        circle_of(command) is Some <==> (points_of(command) matches Some(pts) && forall|i: int|
            0 <= i < pts.len() ==> (#[trigger] circle_step(pts[i])) is Some),
{
    if let Some(pts) = points_of(command) {
        let f = |p: Seq<char>| circle_step(p);
        lemma_collect_each(pts, f);
        assert(forall|i: int| 0 <= i < pts.len() ==> #[trigger] f(pts[i]) == circle_step(pts[i]));
        if collect(pts, f) is Some {
            assert forall|i: int| 0 <= i < pts.len() implies (#[trigger] circle_step(pts[i])) is Some by {
                assert(f(pts[i]) is Some);
            }
        } else {
            if forall|i: int| 0 <= i < pts.len() ==> (#[trigger] circle_step(pts[i])) is Some {
                assert forall|i: int| 0 <= i < pts.len() implies (#[trigger] f(pts[i])) is Some by {
                    assert(circle_step(pts[i]) is Some);
                }
            }
        }
    }
}

/// How many times `c` occurs in `s`.
pub fn count_char_exec(s: &String, c: char) -> (r: usize)
    ensures
        r == count_char(s@, c),
{
    let v = chars_of(s.as_str());
    let mut n: usize = 0;
    let mut i: usize = 0;
    while i < v.len()
        invariant
            v@ == s@,
            i <= v.len(),
            n == count_char(s@.take(i as int), c),
            n <= i,
        decreases v.len() - i,
    {
        assert(s@.take(i + 1).drop_last() =~= s@.take(i as int));
        if v[i] == c {
            n = n + 1;
        }
        i = i + 1;
    }
    assert(s@.take(v.len() as int) =~= s@);
    n
}

/// The `,`-separated first two parts of `t`, when it has them.
fn pair_of(t: &String) -> (r: Option<(String, String)>)
    ensures
        r is Some <==> split(t@, ","@).len() >= 2,
        r matches Some((x, y)) ==> x@ == split(t@, ","@)[0] && y@ == split(t@, ","@)[1],
{
    proof {
        reveal_strlit(",");
    }
    let parts = split_text(t.as_str(), ",");
    if parts.len() >= 2 {
        assert(parts@[0]@ == split(t@, ","@)[0]);
        assert(parts@[1]@ == split(t@, ","@)[1]);
        Some((parts[0].clone(), parts[1].clone()))
    } else {
        None
    }
}

/// What one point of a circle command sets.
fn circle_entry(p: &String) -> (r: Option<Option<CircleEntry<String>>>)
    ensures
        r is Some <==> circle_step(p@) is Some,
        r matches Some(e) ==> match (e, circle_step(p@).unwrap()) {
            (Some(a), Some(b)) => a@ == b,
            (None, None) => true,
            _ => false,
        },
{
    proof {
        reveal_strlit(":");
    }
    let parts = split_text(p.as_str(), ":");
    proof {
        crate::text::lemma_split_nonempty(p@, ":"@);
    }
    assert(parts@[0]@ == split(p@, ":"@)[0]);
    assert(":"@ =~= seq![':']);
    if contains_exec(p.as_str(), "o:") {
        proof {
            reveal_strlit("o:");
            assert("o:"@ =~= seq!['o', ':']);
            lemma_pair_splits(p@, 'o');
        }
        assert(parts@[1]@ == split(p@, ":"@)[1]);
        match pair_of(&parts[1]) {
            Some((x, y)) => Some(Some(CircleEntry::Center(x, y))),
            None => None,
        }
    } else if contains_exec(p.as_str(), "r:") {
        proof {
            reveal_strlit("r:");
            assert("r:"@ =~= seq!['r', ':']);
            lemma_pair_splits(p@, 'r');
        }
        assert(parts@[1]@ == split(p@, ":"@)[1]);
        Some(Some(CircleEntry::Radius(parts[1].clone())))
    } else if count_char_exec(p, ':') == 1 {
        proof {
            let k = crate::text::lemma_count_found(p@, ':');
            crate::text::lemma_split_found(p@, ':', k);
        }
        assert(parts@[1]@ == split(p@, ":"@)[1]);
        match pair_of(&parts[0]) {
            Some((x, y)) => Some(Some(CircleEntry::CenterRadius(x, y, parts[1].clone()))),
            None => None,
        }
    } else {
        Some(None)
    }
}

/// The entries of a circle command, or `None` when a point cannot be read.
pub fn try_circle(command: &String) -> (r: Option<Vec<CircleEntry<String>>>)
    ensures
        r is Some <==> circle_of(command@) is Some,
        r matches Some(v) ==> v@.map_values(|e: CircleEntry<String>| e@) == circle_of(
            command@,
        ).unwrap(),
{
    let pts = match try_points(command) {
        Some(p) => p,
        None => return None,
    };
    let ghost ps = texts(pts@);
    let ghost mut steps: Seq<Option<CircleEntry<Seq<char>>>> = seq![];
    let mut out: Vec<CircleEntry<String>> = Vec::new();
    let mut i: usize = 0;
    while i < pts.len()
        invariant
            ps == texts(pts@),
            ps == points_of(command@).unwrap(),
            i <= pts.len(),
            collect(ps.take(i as int), |p: Seq<char>| circle_step(p)) == Some(steps),
            out@.map_values(|e: CircleEntry<String>| e@) == somes(steps),
        decreases pts.len() - i,
    {
        proof {
            lemma_collect_step(ps, |p: Seq<char>| circle_step(p), i as int);
        }
        assert(ps[i as int] == pts@[i as int]@);
        let ghost before = out@.map_values(|e: CircleEntry<String>| e@);
        match circle_entry(&pts[i]) {
            None => {
                proof {
                    lemma_collect_fails(ps, |p: Seq<char>| circle_step(p), i as int);
                }
                return None;
            },
            Some(None) => {
                proof {
                    let more = steps.push(None);
                    assert(more.drop_last() =~= steps);
                    steps = more;
                }
            },
            Some(Some(e)) => {
                proof {
                    let more = steps.push(Some(e@));
                    assert(more.drop_last() =~= steps);
                    steps = more;
                }
                out.push(e);
                assert(out@.map_values(|e: CircleEntry<String>| e@) =~= before.push(e@));
            },
        }
        i = i + 1;
    }
    assert(ps.take(pts.len() as int) =~= ps);
    Some(out)
}

/// The entries of a circle command, in order.
pub fn circle_entries(command: &String) -> (r: Vec<CircleEntry<String>>)
    requires
        circle_of(command@) is Some,
    ensures
        r@.map_values(|e: CircleEntry<String>| e@) == circle_of(command@).unwrap(),
{
    try_circle(command).unwrap()
}

/// `a` followed by `:` does not occur in `s` when its only `:` stands at `q`
/// and is not preceded by `a`.
proof fn lemma_no_pair_before_colon(s: Seq<char>, q: int, a: char)
    requires
        0 <= q < s.len(),
        s[q] == ':',
        forall|k: int| 0 <= k < s.len() && k != q ==> s[k] != ':',
        q == 0 || s[q - 1] != a,
    ensures
        !contains(s, seq![a, ':']),
{
    lemma_find_from(s, seq![a, ':'], 0);
    if contains(s, seq![a, ':']) {
        let j = find(s, seq![a, ':']).unwrap();
        assert(s.subrange(j, j + 2)[0] == a);
        assert(s.subrange(j, j + 2)[1] == ':');
        assert(s[j + 1] == ':');
    }
}

/// Law: a centre and a radius can be given as `o:x,y` and `r:radius`, or
/// together as `x,y:radius`; either way the same texts are set.
pub proof fn lemma_circle_forms(x: Seq<char>, y: Seq<char>, r: Seq<char>)
    requires
        free_of(x, ':'),
        free_of(x, ','),
        free_of(y, ':'),
        free_of(y, ','),
        free_of(r, ':'),
        y.len() == 0 || (y.last() != 'o' && y.last() != 'r'),
    ensures
        circle_step("o:"@ + x + ","@ + y) == Some(Some(CircleEntry::Center(x, y))),
        circle_step("r:"@ + r) == Some(Some(CircleEntry::Radius(r))),
        circle_step(x + ","@ + y + ":"@ + r) == Some(Some(CircleEntry::CenterRadius(x, y, r))),
{
    reveal_strlit("o:");
    reveal_strlit("r:");
    reveal_strlit(",");
    reveal_strlit(":");
    assert("o:"@ =~= seq!['o', ':']);
    assert("r:"@ =~= seq!['r', ':']);
    assert(","@ =~= seq![',']);
    assert(":"@ =~= seq![':']);
    let xy = x + seq![','] + y;
    assert(free_of(xy, ':'));
    lemma_split_two(x, y, ',');

    // o:x,y
    let p1 = "o:"@ + x + ","@ + y;
    assert(p1 =~= seq!['o'] + seq![':'] + xy);
    assert(p1.subrange(0, 2) =~= seq!['o', ':']);
    lemma_find_from(p1, "o:"@, 0);
    assert(matches_at(p1, "o:"@, 0));
    lemma_split_two(seq!['o'], xy, ':');

    // r:radius
    let p2 = "r:"@ + r;
    assert(p2 =~= seq!['r'] + seq![':'] + r);
    lemma_no_pair_before_colon(p2, 1, 'o');
    assert(p2.subrange(0, 2) =~= seq!['r', ':']);
    lemma_find_from(p2, "r:"@, 0);
    assert(matches_at(p2, "r:"@, 0));
    lemma_split_two(seq!['r'], r, ':');

    // x,y:radius
    let p3 = x + ","@ + y + ":"@ + r;
    let q = xy.len() as int;
    assert(p3 =~= xy + seq![':'] + r);
    assert forall|k: int| 0 <= k < p3.len() && k != q implies p3[k] != ':' by {
        if k < q {
            assert(p3[k] == xy[k]);
        } else {
            assert(p3[k] == r[k - q - 1]);
        }
    }
    if y.len() > 0 {
        assert(p3[q - 1] == y.last());
    } else {
        assert(p3[q - 1] == ',');
    }
    lemma_no_pair_before_colon(p3, q, 'o');
    lemma_no_pair_before_colon(p3, q, 'r');
    crate::text::lemma_count_free(xy, ':');
    crate::text::lemma_count_free(r, ':');
    crate::text::lemma_count_concat(xy, seq![':'], ':');
    crate::text::lemma_count_concat(xy + seq![':'], r, ':');
    assert(count_char(seq![':'], ':') == 1) by {
        let one = seq![':'];
        assert(one.drop_last() =~= Seq::<char>::empty());
        assert(count_char(Seq::<char>::empty(), ':') == 0);
        assert(one.last() == ':');
        assert(count_char(one, ':') == count_char(one.drop_last(), ':') + 1);
    }
    lemma_split_two(xy, r, ':');
}

/// The circle that a list of entries sets up: the last centre and the last
/// radius given (each entry sets what it names, later entries win).
#[derive(Debug, PartialEq, Eq)]
pub struct CircleSetup<T> {
    pub center: Option<(T, T)>,
    pub radius: Option<T>,
}

/// The circle that a list of entries sets up.
pub open spec fn setup_of<T>(es: Seq<CircleEntry<T>>) -> CircleSetup<T>
    decreases es.len(),
{
    if es.len() == 0 {
        CircleSetup { center: None, radius: None }
    } else {
        let before = setup_of(es.drop_last());
        match es.last() {
            CircleEntry::Center(x, y) => CircleSetup { center: Some((x, y)), radius: before.radius },
            CircleEntry::Radius(r) => CircleSetup { center: before.center, radius: Some(r) },
            CircleEntry::CenterRadius(x, y, r) => CircleSetup {
                center: Some((x, y)),
                radius: Some(r),
            },
        }
    }
}

/// Law: a radius entry sets the radius whatever came before it, and a centre
/// entry leaves the radius alone; likewise a centre entry sets the centre and a
/// radius entry leaves it alone.  So a centre and a radius given in either
/// order set up the same circle.
pub proof fn lemma_setup_entries<T>(es: Seq<CircleEntry<T>>, x: T, y: T, r: T)
    ensures
        setup_of(es.push(CircleEntry::Radius(r))).radius == Some(r),
        setup_of(es.push(CircleEntry::Radius(r))).center == setup_of(es).center,
        setup_of(es.push(CircleEntry::Center(x, y))).center == Some((x, y)),
        setup_of(es.push(CircleEntry::Center(x, y))).radius == setup_of(es).radius,
        setup_of(es.push(CircleEntry::CenterRadius(x, y, r))) == (CircleSetup {
            center: Some((x, y)),
            radius: Some(r),
        }),
        setup_of(seq![CircleEntry::Radius(r), CircleEntry::Center(x, y)]) == setup_of(
            seq![CircleEntry::Center(x, y), CircleEntry::Radius(r)],
        ),
        setup_of(seq![CircleEntry::Radius(r), CircleEntry::Center(x, y)]) == (CircleSetup {
            center: Some((x, y)),
            radius: Some(r),
        }),
{
    assert(es.push(CircleEntry::Radius(r)).drop_last() =~= es);
    assert(es.push(CircleEntry::Center(x, y)).drop_last() =~= es);
    assert(es.push(CircleEntry::CenterRadius(x, y, r)).drop_last() =~= es);
    let e: Seq<CircleEntry<T>> = seq![];
    let a = seq![CircleEntry::Radius(r), CircleEntry::Center(x, y)];
    let b = seq![CircleEntry::Center(x, y), CircleEntry::Radius(r)];
    assert(a.drop_last() =~= e.push(CircleEntry::Radius(r)));
    assert(b.drop_last() =~= e.push(CircleEntry::Center(x, y)));
    assert(e.push(CircleEntry::Radius(r)).drop_last() =~= e);
    assert(e.push(CircleEntry::Center(x, y)).drop_last() =~= e);
    assert(setup_of(e) == (CircleSetup::<T> { center: None, radius: None }));
    let er = e.push(CircleEntry::Radius(r));
    let ec = e.push(CircleEntry::Center(x, y));
    assert(setup_of(er) == (CircleSetup::<T> { center: None, radius: Some(r) }));
    assert(setup_of(ec) == (CircleSetup::<T> { center: Some((x, y)), radius: None }));
    assert(a =~= er.push(CircleEntry::Center(x, y)));
    assert(b =~= ec.push(CircleEntry::Radius(r)));
    assert(er.push(CircleEntry::Center(x, y)).drop_last() =~= er);
    assert(ec.push(CircleEntry::Radius(r)).drop_last() =~= ec);
    assert(setup_of(a) == (CircleSetup { center: Some((x, y)), radius: Some(r) }));
    assert(setup_of(b) == (CircleSetup { center: Some((x, y)), radius: Some(r) }));
}

/// The circle that a list of entries sets up: the last centre and the last
/// radius given.
pub fn circle_setup<T: Copy>(entries: &Vec<CircleEntry<T>>) -> (r: CircleSetup<T>)
    ensures
        r == setup_of(entries@),
{
    let mut center: Option<(T, T)> = None;
    let mut radius: Option<T> = None;
    let mut i: usize = 0;
    while i < entries.len()
        invariant
            i <= entries.len(),
            setup_of(entries@.take(i as int)) == (CircleSetup { center, radius }),
        decreases entries.len() - i,
    {
        assert(entries@.take(i + 1).drop_last() =~= entries@.take(i as int));
        match &entries[i] {
            CircleEntry::Center(x, y) => {
                center = Some((*x, *y));
            },
            CircleEntry::Radius(r) => {
                radius = Some(*r);
            },
            CircleEntry::CenterRadius(x, y, r) => {
                center = Some((*x, *y));
                radius = Some(*r);
            },
        }
        i = i + 1;
    }
    assert(entries@.take(entries.len() as int) =~= entries@);
    CircleSetup { center, radius }
}

/// Law: the points `o:x,y` and `r:radius`, and the single point
/// `x,y:radius`, can both be read and set up the same circle.
pub proof fn lemma_circle_points(x: Seq<char>, y: Seq<char>, r: Seq<char>)
    requires
        free_of(x, ':'),
        free_of(x, ','),
        free_of(y, ':'),
        free_of(y, ','),
        free_of(r, ':'),
        y.len() == 0 || (y.last() != 'o' && y.last() != 'r'),
    ensures
        ({
            let two = collect(seq!["o:"@ + x + ","@ + y, "r:"@ + r], |p: Seq<char>| circle_step(p));
            let one = collect(seq![x + ","@ + y + ":"@ + r], |p: Seq<char>| circle_step(p));
            &&& two is Some
            &&& one is Some
            &&& setup_of(somes(two.unwrap())) == setup_of(somes(one.unwrap()))
            &&& setup_of(somes(one.unwrap())) == (CircleSetup { center: Some((x, y)), radius: Some(r) })
        }),
{
    lemma_circle_forms(x, y, r);
    let p1 = "o:"@ + x + ","@ + y;
    let p2 = "r:"@ + r;
    let p3 = x + ","@ + y + ":"@ + r;
    let c = CircleEntry::Center(x, y);
    let d = CircleEntry::Radius(r);
    let e = CircleEntry::CenterRadius(x, y, r);
    lemma_collect_single(p1, |p: Seq<char>| circle_step(p));
    lemma_collect_single(p3, |p: Seq<char>| circle_step(p));
    assert(seq![p1, p2].drop_last() =~= seq![p1]);
    let s1: Seq<Option<CircleEntry<Seq<char>>>> = seq![Some(c)];
    let s2 = s1.push(Some(d));
    let s3: Seq<Option<CircleEntry<Seq<char>>>> = seq![Some(e)];
    assert(s2.drop_last() =~= s1);
    lemma_somes_single(Some(c));
    lemma_somes_single(Some(e));
    let two = collect(seq![p1, p2], |p: Seq<char>| circle_step(p));
    let one = collect(seq![p3], |p: Seq<char>| circle_step(p));
    assert(one == Some(s3));
    assert(two == Some(s2));
    assert(somes(s3) == seq![e]);
    assert(somes(s2) == seq![c].push(d));
    let none: CircleSetup<Seq<char>> = CircleSetup { center: None, radius: None };
    assert(setup_of(Seq::<CircleEntry<Seq<char>>>::empty()) == none);
    assert(seq![c].push(d).drop_last() =~= seq![c]);
    assert(seq![c].drop_last() =~= Seq::<CircleEntry<Seq<char>>>::empty());
    assert(seq![e].drop_last() =~= Seq::<CircleEntry<Seq<char>>>::empty());
    assert(setup_of(seq![c]) == (CircleSetup { center: Some((x, y)), radius: None }));
    assert(setup_of(seq![c].push(d)) == (CircleSetup { center: Some((x, y)), radius: Some(r) }));
    assert(setup_of(seq![e]) == (CircleSetup { center: Some((x, y)), radius: Some(r) }));
}

/// Reading a single entry.
proof fn lemma_collect_single<A>(p: Seq<char>, f: spec_fn(Seq<char>) -> Option<A>)
    ensures
        collect(seq![p], f) == match f(p) {
            Some(b) => Some(seq![b]),
            None => None,
        },
{
    assert(seq![p].drop_last() =~= Seq::<Seq<char>>::empty());
    assert(collect(Seq::<Seq<char>>::empty(), f) == Some(Seq::<A>::empty()));
    if let Some(b) = f(p) {
        assert(Seq::<A>::empty().push(b) =~= seq![b]);
    }
}

/// The values present in a single optional value.
proof fn lemma_somes_single<A>(o: Option<A>)
    ensures
        somes(seq![o]) == match o {
            Some(a) => seq![a],
            None => Seq::<A>::empty(),
        },
{
    assert(seq![o].drop_last() =~= Seq::<Option<A>>::empty());
    assert(somes(Seq::<Option<A>>::empty()) == Seq::<A>::empty());
    if let Some(a) = o {
        assert(Seq::<A>::empty().push(a) =~= seq![a]);
    }
}

/// The body of a command `head{body;}` whose head holds no `{` and whose
/// body holds no `}` is read as `body`.
pub proof fn lemma_between_braces(head: Seq<char>, body: Seq<char>)
    requires
        free_of(head, '{'),
        free_of(body, '}'),
    ensures
        between(head + "{"@ + body + ";}"@, "{"@, ";}"@) == Some(body),
{
    reveal_strlit("{");
    reveal_strlit(";}");
    assert("{"@ =~= seq!['{']);
    assert(";}"@ =~= seq![';', '}']);
    let c = head + "{"@ + body + ";}"@;
    let h = head.len() as int;
    // the first `{` is the one after the head
    crate::text::lemma_matches_single(c, '{', h);
    lemma_find_from(c, "{"@, 0);
    let i = find(c, "{"@).unwrap();
    crate::text::lemma_matches_single(c, '{', i);
    if i < h {
        assert(c[i] == head[i]);
    }
    assert(i == h);
    let rest = c.skip(h + 1);
    assert(rest =~= body + ";}"@);
    // the first `;}` after it is the one that closes the body
    let b = body.len() as int;
    assert(rest.subrange(b, b + 2) =~= ";}"@);
    assert(matches_at(rest, ";}"@, b));
    lemma_find_from(rest, ";}"@, 0);
    let j = find(rest, ";}"@).unwrap();
    assert(matches_at(rest, ";}"@, j));
    if j < b {
        assert(rest.subrange(j, j + 2) == seq![';', '}']);
        assert(rest[j + 1] == rest.subrange(j, j + 2)[1]);
        assert(rest[j + 1] == '}');
        assert(rest[j + 1] == (body + ";}"@)[j + 1]);
        if j + 1 < b {
            assert((body + ";}"@)[j + 1] == body[j + 1]);
        } else {
            assert((body + ";}"@)[j + 1] == ";}"@[0]);
        }
    }
    assert(j == b);
    assert(rest.take(j) =~= body);
}

/// Law: the commands `head{x,y:radius;}` and `head{o:x,y;r:radius;}` can
/// both be read and set up the same circle, centred at `x,y` with radius
/// `radius`.
pub proof fn lemma_circle_commands(head: Seq<char>, x: Seq<char>, y: Seq<char>, r: Seq<char>)
    requires
        free_of(head, '{'),
        free_of(x, ':'),
        free_of(x, ','),
        free_of(x, ';'),
        free_of(x, '}'),
        free_of(y, ':'),
        free_of(y, ','),
        free_of(y, ';'),
        free_of(y, '}'),
        free_of(r, ':'),
        free_of(r, ';'),
        free_of(r, '}'),
        y.len() == 0 || (y.last() != 'o' && y.last() != 'r'),
    ensures
        ({
            let one = head + "{"@ + (x + ","@ + y + ":"@ + r) + ";}"@;
            let two = head + "{"@ + ("o:"@ + x + ","@ + y + ";"@ + "r:"@ + r) + ";}"@;
            &&& circle_of(one) is Some
            &&& circle_of(two) is Some
            &&& setup_of(circle_of(one).unwrap()) == setup_of(circle_of(two).unwrap())
            &&& setup_of(circle_of(one).unwrap()) == (CircleSetup {
                center: Some((x, y)),
                radius: Some(r),
            })
        }),
{
    reveal_strlit("o:");
    reveal_strlit("r:");
    reveal_strlit(",");
    reveal_strlit(":");
    reveal_strlit(";");
    assert("o:"@ =~= seq!['o', ':']);
    assert("r:"@ =~= seq!['r', ':']);
    assert(","@ =~= seq![',']);
    assert(":"@ =~= seq![':']);
    assert(";"@ =~= seq![';']);
    let p1 = "o:"@ + x + ","@ + y;
    let p2 = "r:"@ + r;
    let p3 = x + ","@ + y + ":"@ + r;
    let body1 = p3;
    let body2 = p1 + ";"@ + p2;
    assert(body2 =~= "o:"@ + x + ","@ + y + ";"@ + "r:"@ + r);
    assert(free_of(p1, ';')) by {
        assert forall|i: int| 0 <= i < p1.len() implies p1[i] != ';' by {
            if 2 <= i < 2 + x.len() {
                assert(p1[i] == x[i - 2]);
            } else if i > 2 + x.len() {
                assert(p1[i] == y[i - 3 - x.len()]);
            }
        }
    }
    assert(free_of(p2, ';')) by {
        assert forall|i: int| 0 <= i < p2.len() implies p2[i] != ';' by {
            if i >= 2 {
                assert(p2[i] == r[i - 2]);
            }
        }
    }
    assert(free_of(p3, ';')) by {
        assert forall|i: int| 0 <= i < p3.len() implies p3[i] != ';' by {
            if i < x.len() {
                assert(p3[i] == x[i]);
            } else if x.len() < i < x.len() + 1 + y.len() {
                assert(p3[i] == y[i - x.len() - 1]);
            } else if i > x.len() + 1 + y.len() {
                assert(p3[i] == r[i - x.len() - 2 - y.len()]);
            }
        }
    }
    assert(free_of(body1, '}')) by {
        assert forall|i: int| 0 <= i < body1.len() implies body1[i] != '}' by {
            if i < x.len() {
                assert(body1[i] == x[i]);
            } else if x.len() < i < x.len() + 1 + y.len() {
                assert(body1[i] == y[i - x.len() - 1]);
            } else if i > x.len() + 1 + y.len() {
                assert(body1[i] == r[i - x.len() - 2 - y.len()]);
            }
        }
    }
    assert(free_of(body2, '}')) by {
        assert forall|i: int| 0 <= i < body2.len() implies body2[i] != '}' by {
            if 2 <= i < 2 + x.len() {
                assert(body2[i] == x[i - 2]);
            } else if 2 + x.len() < i < 3 + x.len() + y.len() {
                assert(body2[i] == y[i - 3 - x.len()]);
            } else if i >= 6 + x.len() + y.len() {
                assert(body2[i] == r[i - 6 - x.len() - y.len()]);
            }
        }
    }
    lemma_between_braces(head, body1);
    lemma_between_braces(head, body2);
    crate::text::lemma_split_free(body1, ';');
    assert(body2 =~= p1 + seq![';'] + p2);
    lemma_split_two(p1, p2, ';');
    lemma_circle_points(x, y, r);
}

// ---------------------------------------------------------------------
// Rectangles
// ---------------------------------------------------------------------

/// Two opposite corners `x1,y1:x2,y2` of a rectangle, as written.
#[derive(Debug, PartialEq, Eq)]
pub struct Corners<T> {
    pub x1: T,
    pub y1: T,
    pub x2: T,
    pub y2: T,
}

impl<T: View> View for Corners<T> {
    type V = Corners<T::V>;

    open spec fn view(&self) -> Corners<T::V> {
        Corners { x1: self.x1@, y1: self.y1@, x2: self.x2@, y2: self.y2@ }
    }
}

/// The corners that a point of a rectangle command gives.
pub open spec fn corners_of(p: Seq<char>) -> Option<Corners<Seq<char>>> {
    let parts = split(p, ":"@);
    if parts.len() >= 2 && split(parts[0], ","@).len() >= 2 && split(parts[1], ","@).len() >= 2 {
        let a = split(parts[0], ","@);
        let b = split(parts[1], ","@);
        Some(Corners { x1: a[0], y1: a[1], x2: b[0], y2: b[1] })
    } else {
        None
    }
}

/// The rectangles of a rectangle command, in order.
pub open spec fn rectangles_of(command: Seq<char>) -> Option<Seq<Corners<Seq<char>>>> {
    match points_of(command) {
        Some(pts) => collect(pts, |p: Seq<char>| corners_of(p)),
        None => None,
    }
}

/// Reading a list entry by entry succeeds exactly when every entry can be
/// read, and then gives one value per entry, in order.
pub proof fn lemma_collect_each<A>(xs: Seq<Seq<char>>, f: spec_fn(Seq<char>) -> Option<A>)
    ensures
        collect(xs, f) is Some <==> (forall|i: int| 0 <= i < xs.len() ==> (#[trigger] f(xs[i])) is Some),
        collect(xs, f) matches Some(ys) ==> ys.len() == xs.len() && (forall|i: int|
            0 <= i < xs.len() ==> f(xs[i]) == Some(#[trigger] ys[i])),
    decreases xs.len(),
{
    if xs.len() > 0 {
        let init = xs.drop_last();
        lemma_collect_each(init, f);
        assert forall|i: int| 0 <= i < init.len() implies init[i] == xs[i] by {}
        if collect(xs, f) is None {
            if collect(init, f) is Some {
                assert(f(xs[xs.len() - 1]) is None);
            } else {
                let i = choose|i: int| 0 <= i < init.len() && (#[trigger] f(init[i])) is None;
                assert(f(xs[i]) is None);
            }
        } else {
            let ys = collect(xs, f).unwrap();
            let zs = collect(init, f).unwrap();
            assert(ys == zs.push(f(xs.last()).unwrap()));
            assert forall|i: int| 0 <= i < xs.len() implies f(xs[i]) == Some(#[trigger] ys[i]) by {
                if i < init.len() {
                    assert(f(init[i]) == Some(zs[i]));
                }
            }
        }
    }
}

/// Law: a rectangle command can be read exactly when each of its points gives
/// two corners, and it then carries one rectangle per point, in order.
pub proof fn lemma_rectangles_each(command: Seq<char>)
    ensures
        rectangles_of(command) is Some <==> (points_of(command) matches Some(pts) && forall|i: int|
            0 <= i < pts.len() ==> (#[trigger] corners_of(pts[i])) is Some),
        rectangles_of(command) matches Some(v) ==> v.len() == points_of(command).unwrap().len() && (
        forall|i: int|
            0 <= i < v.len() ==> corners_of(points_of(command).unwrap()[i]) == Some(#[trigger] v[i])),
{
    if let Some(pts) = points_of(command) {
        let f = |p: Seq<char>| corners_of(p);
        lemma_collect_each(pts, f);
        assert(forall|i: int| 0 <= i < pts.len() ==> #[trigger] corners_of(pts[i]) == f(pts[i]));
        if collect(pts, f) is Some {
            assert forall|i: int| 0 <= i < pts.len() implies (#[trigger] corners_of(pts[i])) is Some by {
                assert(f(pts[i]) is Some);
            }
        } else {
            if forall|i: int| 0 <= i < pts.len() ==> (#[trigger] corners_of(pts[i])) is Some {
                assert forall|i: int| 0 <= i < pts.len() implies (#[trigger] f(pts[i])) is Some by {
                    assert(corners_of(pts[i]) is Some);
                }
            }
        }
    }
}

/// The corners that a point of a rectangle command gives.
fn corners_entry(p: &String) -> (r: Option<Corners<String>>)
    ensures
        r is Some <==> corners_of(p@) is Some,
        r matches Some(c) ==> c@ == corners_of(p@).unwrap(),
{
    proof {
        reveal_strlit(":");
    }
    let parts = split_text(p.as_str(), ":");
    if parts.len() < 2 {
        return None;
    }
    assert(parts@[0]@ == split(p@, ":"@)[0]);
    assert(parts@[1]@ == split(p@, ":"@)[1]);
    match (pair_of(&parts[0]), pair_of(&parts[1])) {
        (Some((x1, y1)), Some((x2, y2))) => Some(Corners { x1, y1, x2, y2 }),
        _ => None,
    }
}

/// The rectangles of a rectangle command, or `None` when a point cannot be read.
pub fn try_rectangles(command: &String) -> (r: Option<Vec<Corners<String>>>)
    ensures
        r is Some <==> rectangles_of(command@) is Some,
        r matches Some(v) ==> v@.map_values(|e: Corners<String>| e@) == rectangles_of(
            command@,
        ).unwrap(),
{
    let pts = match try_points(command) {
        Some(p) => p,
        None => return None,
    };
    let ghost ps = texts(pts@);
    let mut out: Vec<Corners<String>> = Vec::new();
    let mut i: usize = 0;
    while i < pts.len()
        invariant
            ps == texts(pts@),
            ps == points_of(command@).unwrap(),
            i <= pts.len(),
            collect(ps.take(i as int), |p: Seq<char>| corners_of(p)) == Some(
                out@.map_values(|e: Corners<String>| e@),
            ),
        decreases pts.len() - i,
    {
        proof {
            lemma_collect_step(ps, |p: Seq<char>| corners_of(p), i as int);
        }
        assert(ps[i as int] == pts@[i as int]@);
        let ghost before = out@.map_values(|e: Corners<String>| e@);
        match corners_entry(&pts[i]) {
            None => {
                proof {
                    lemma_collect_fails(ps, |p: Seq<char>| corners_of(p), i as int);
                }
                return None;
            },
            Some(c) => {
                out.push(c);
                assert(out@.map_values(|e: Corners<String>| e@) =~= before.push(
                    corners_of(ps[i as int]).unwrap(),
                ));
            },
        }
        i = i + 1;
    }
    assert(ps.take(pts.len() as int) =~= ps);
    Some(out)
}

/// The closed outline of a rectangle given by two opposite corners: the first
/// corner, the corner below or above it, the opposite corner, the fourth
/// corner, and back to the first.
pub fn outline<T: Copy>(c: &Corners<T>) -> (r: Vec<(T, T)>)
    ensures
        r@ == seq![(c.x1, c.y1), (c.x1, c.y2), (c.x2, c.y2), (c.x2, c.y1), (c.x1, c.y1)],
{
    let mut v: Vec<(T, T)> = Vec::new();
    v.push((c.x1, c.y1));
    v.push((c.x1, c.y2));
    v.push((c.x2, c.y2));
    v.push((c.x2, c.y1));
    v.push((c.x1, c.y1));
    assert(v@ =~= seq![(c.x1, c.y1), (c.x1, c.y2), (c.x2, c.y2), (c.x2, c.y1), (c.x1, c.y1)]);
    v
}

/// The rectangles of a rectangle command, in order.
pub fn rectangle_entries(command: &String) -> (r: Vec<Corners<String>>)
    requires
        rectangles_of(command@) is Some,
    ensures
        r@.map_values(|e: Corners<String>| e@) == rectangles_of(command@).unwrap(),
{
    try_rectangles(command).unwrap()
}

} // verus!

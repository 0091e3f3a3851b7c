//! Text primitives: what the script reader means by "find", "split",
//! "words" and so on, stated over `Seq<char>`, with executable versions
//! proved against those statements.
use vstd::prelude::*;

verus! {

// ---------------------------------------------------------------------
// Specifications
// ---------------------------------------------------------------------

/// `p` occurs in `s` starting at position `i`.
pub open spec fn matches_at(s: Seq<char>, p: Seq<char>, i: int) -> bool {
    &&& 0 <= i
    &&& i + p.len() <= s.len()
    &&& s.subrange(i, i + p.len()) == p
}

/// The leftmost occurrence of `p` in `s` at or after position `i`.
pub open spec fn find_from(s: Seq<char>, p: Seq<char>, i: int) -> Option<int>
    decreases s.len() - i,
{
    if i < 0 || i + p.len() > s.len() {
        None
    } else if matches_at(s, p, i) {
        Some(i)
    } else if i >= s.len() {
        None
    } else {
        find_from(s, p, i + 1)
    }
}

/// The leftmost occurrence of `p` in `s`.
pub open spec fn find(s: Seq<char>, p: Seq<char>) -> Option<int> {
    find_from(s, p, 0)
}

/// `s` contains `p` (every text contains the empty pattern).
pub open spec fn contains(s: Seq<char>, p: Seq<char>) -> bool {
    find(s, p) is Some
}

/// The pieces of `s[start..]` between the non-overlapping occurrences of the
/// non-empty separator `p`, taken from left to right (what `str::split` yields).
pub open spec fn split_from(s: Seq<char>, p: Seq<char>, start: int) -> Seq<Seq<char>>
    recommends
        p.len() > 0,
        0 <= start <= s.len(),
    decreases s.len() - start,
{
    if p.len() == 0 || start < 0 || start > s.len() {
        seq![s.subrange(start, s.len() as int)]
    } else {
        match find_from(s, p, start) {
            Some(i) => if start <= i && i + p.len() <= s.len() {
                seq![s.subrange(start, i)] + split_from(s, p, i + p.len())
            } else {
                seq![s.subrange(start, s.len() as int)]
            },
            None => seq![s.subrange(start, s.len() as int)],
        }
    }
}

/// The pieces of `s` between the occurrences of the non-empty separator `p`.
pub open spec fn split(s: Seq<char>, p: Seq<char>) -> Seq<Seq<char>> {
    split_from(s, p, 0)
}

/// The text before and after the first occurrence of `p` (what `str::split_once` gives).
pub open spec fn split_once(s: Seq<char>, p: Seq<char>) -> Option<(Seq<char>, Seq<char>)> {
    match find(s, p) {
        Some(i) => Some((s.take(i), s.skip(i + p.len()))),
        None => None,
    }
}

/// The characters that `char::is_ascii_whitespace` accepts.
pub open spec fn is_ascii_ws(c: char) -> bool {
    c == ' ' || c == '\t' || c == '\n' || c == '\x0C' || c == '\r'
}

/// The maximal runs of characters that are not ASCII whitespace, in order
/// (what `str::split_ascii_whitespace` yields).
pub open spec fn words(s: Seq<char>) -> Seq<Seq<char>>
    decreases s.len(),
{
    if s.len() == 0 {
        seq![]
    } else {
        let w = words(s.drop_last());
        let c = s.last();
        if is_ascii_ws(c) {
            w
        } else if s.len() >= 2 && !is_ascii_ws(s[s.len() - 2]) && w.len() > 0 {
            w.update(w.len() - 1, w.last().push(c))
        } else {
            w.push(seq![c])
        }
    }
}

/// The concatenation of a sequence of texts.
pub open spec fn concat_all(ws: Seq<Seq<char>>) -> Seq<char>
    decreases ws.len(),
{
    if ws.len() == 0 {
        seq![]
    } else {
        concat_all(ws.drop_last()) + ws.last()
    }
}

/// `s` with every ASCII whitespace character removed.
pub open spec fn remove_ascii_ws(s: Seq<char>) -> Seq<char>
    decreases s.len(),
{
    if s.len() == 0 {
        seq![]
    } else if is_ascii_ws(s.last()) {
        remove_ascii_ws(s.drop_last())
    } else {
        remove_ascii_ws(s.drop_last()).push(s.last())
    }
}

/// How many times the character `c` occurs in `s`.
pub open spec fn count_char(s: Seq<char>, c: char) -> nat
    decreases s.len(),
{
    if s.len() == 0 {
        0
    } else {
        count_char(s.drop_last(), c) + if s.last() == c { 1nat } else { 0nat }
    }
}

/// ASCII lower-casing of one character (`char::to_ascii_lowercase`).
pub open spec fn ascii_lower(c: char) -> char {
    if 'A' <= c && c <= 'Z' {
        ((c as u32) + 32) as char
    } else {
        c
    }
}

/// ASCII lower-casing of a text (`str::to_ascii_lowercase`).
pub open spec fn lower_text(s: Seq<char>) -> Seq<char> {
    s.map_values(|c: char| ascii_lower(c))
}

/// The texts of a sequence of `String`s.
pub open spec fn texts(v: Seq<String>) -> Seq<Seq<char>> {
    v.map_values(|x: String| x@)
}

/// The texts of a sequence of string slices.
pub open spec fn slice_texts(v: Seq<&str>) -> Seq<Seq<char>> {
    v.map_values(|x: &str| x@)
}

/// The number of bytes that UTF-8 takes for `c`.
pub open spec fn utf8_width(c: char) -> nat {
    if (c as u32) < 0x80 {
        1
    } else if (c as u32) < 0x800 {
        2
    } else if (c as u32) < 0x10000 {
        3
    } else {
        4
    }
}

/// The number of bytes that UTF-8 takes for `s`.
pub open spec fn utf8_len(s: Seq<char>) -> nat
    decreases s.len(),
{
    if s.len() == 0 {
        0
    } else {
        utf8_len(s.drop_last()) + utf8_width(s.last())
    }
}

/// The character position, at or after `k`, at which the first `b` bytes of
/// `s` end; `None` when byte `b` falls inside a character or past the end.
pub open spec fn char_pos_from(s: Seq<char>, b: int, k: int) -> Option<int>
    decreases s.len() + 1 - k,
{
    if k < 0 || k > s.len() || utf8_len(s.take(k)) > b {
        None
    } else if utf8_len(s.take(k)) == b {
        Some(k)
    } else {
        char_pos_from(s, b, k + 1)
    }
}

/// The character position at which the first `b` bytes of `s` end.
pub open spec fn char_pos(s: Seq<char>, b: int) -> Option<int> {
    char_pos_from(s, b, 0)
}

/// The characters that `char::is_whitespace` accepts (Unicode `White_Space`).
pub open spec fn is_unicode_ws(c: char) -> bool {
    let v = c as u32;
    (0x9 <= v && v <= 0xd) || v == 0x20 || v == 0x85 || v == 0xa0 || v == 0x1680 || (0x2000 <= v
        && v <= 0x200a) || v == 0x2028 || v == 0x2029 || v == 0x202f || v == 0x205f || v == 0x3000
}

/// `s` without its leading whitespace.
pub open spec fn trim_start(s: Seq<char>) -> Seq<char>
    decreases s.len(),
{
    if s.len() > 0 && is_unicode_ws(s[0]) {
        trim_start(s.drop_first())
    } else {
        s
    }
}

/// `s` without its trailing whitespace.
pub open spec fn trim_end(s: Seq<char>) -> Seq<char>
    decreases s.len(),
{
    if s.len() > 0 && is_unicode_ws(s.last()) {
        trim_end(s.drop_last())
    } else {
        s
    }
}

/// `s` without leading and trailing whitespace (what `str::trim` gives).
pub open spec fn trim(s: Seq<char>) -> Seq<char> {
    trim_end(trim_start(s))
}

// ---------------------------------------------------------------------
// Lemmas
// ---------------------------------------------------------------------

/// What `find_from` returns: the least matching position at or after `i`.
pub proof fn lemma_find_from(s: Seq<char>, p: Seq<char>, i: int)
    requires
        0 <= i,
    ensures
        find_from(s, p, i) matches Some(j) ==> i <= j && matches_at(s, p, j) && (forall|k: int|
            i <= k < j ==> !#[trigger] matches_at(s, p, k)),
        find_from(s, p, i) is None ==> forall|k: int| i <= k ==> !#[trigger] matches_at(s, p, k),
    decreases s.len() - i,
{
    if i + p.len() > s.len() {
    } else if matches_at(s, p, i) {
    } else if i >= s.len() {
        assert forall|k: int| i <= k implies !#[trigger] matches_at(s, p, k) by {
            if k == i {
            } else {
                assert(k + p.len() > s.len()) by {
                    if p.len() == 0 {
                        assert(s.subrange(i, i + p.len()) =~= p);
                    }
                }
            }
        }
    } else {
        lemma_find_from(s, p, i + 1);
    }
}

/// A character position found for a byte offset lies within the text.
pub proof fn lemma_char_pos_range(s: Seq<char>, b: int)
    ensures
        char_pos(s, b) matches Some(k) ==> 0 <= k <= s.len(),
{
    lemma_char_pos_from_range(s, b, 0);
}

proof fn lemma_char_pos_from_range(s: Seq<char>, b: int, k: int)
    ensures
        char_pos_from(s, b, k) matches Some(j) ==> 0 <= j <= s.len(),
    decreases s.len() + 1 - k,
{
    if !(k < 0 || k > s.len() || utf8_len(s.take(k)) > b) && utf8_len(s.take(k)) != b {
        lemma_char_pos_from_range(s, b, k + 1);
    }
}

/// Splitting always yields at least one piece.
pub proof fn lemma_split_nonempty(s: Seq<char>, p: Seq<char>)
    ensures
        split(s, p).len() >= 1,
{
    reveal_with_fuel(split_from, 1);
}

/// Splitting from any position yields at least one piece.
pub proof fn lemma_split_from_nonempty(s: Seq<char>, p: Seq<char>, start: int)
    ensures
        split_from(s, p, start).len() >= 1,
{
    reveal_with_fuel(split_from, 1);
}

/// A text in which `c` occurs splits at `c` into at least two pieces.
pub proof fn lemma_split_found(s: Seq<char>, c: char, k: int)
    requires
        0 <= k < s.len(),
        s[k] == c,
    ensures
        split(s, seq![c]).len() >= 2,
{
    lemma_matches_single(s, c, k);
    lemma_find_from(s, seq![c], 0);
    let j = find_from(s, seq![c], 0).unwrap();
    lemma_split_from_nonempty(s, seq![c], j + 1);
}

/// A text that counts `c` holds `c` somewhere.
pub proof fn lemma_count_found(s: Seq<char>, c: char) -> (k: int)
    requires
        count_char(s, c) > 0,
    ensures
        0 <= k < s.len(),
        s[k] == c,
    decreases s.len(),
{
    if s.last() == c {
        (s.len() - 1) as int
    } else {
        let k = lemma_count_found(s.drop_last(), c);
        assert(s[k] == s.drop_last()[k]);
        k
    }
}

/// `words(s)` is empty exactly when `s` holds nothing but ASCII whitespace,
/// and a word ends at the end of `s` when its last character is not whitespace.
pub proof fn lemma_words_nonempty(s: Seq<char>)
    ensures
        s.len() > 0 && !is_ascii_ws(s.last()) ==> words(s).len() > 0,
        words(s).len() == 0 <==> (forall|i: int| 0 <= i < s.len() ==> is_ascii_ws(#[trigger] s[i])),
    decreases s.len(),
{
    if s.len() > 0 {
        lemma_words_nonempty(s.drop_last());
        if words(s).len() == 0 {
            assert forall|i: int| 0 <= i < s.len() implies is_ascii_ws(#[trigger] s[i]) by {
                if i < s.len() - 1 {
                    assert(s.drop_last()[i] == s[i]);
                }
            }
        } else if is_ascii_ws(s.last()) {
            let k = choose|i: int| 0 <= i < s.drop_last().len() && !is_ascii_ws(#[trigger] s.drop_last()[i]);
            assert(!is_ascii_ws(s[k]));
        }
    }
}

// ---------------------------------------------------------------------
// Laws of the text primitives
// ---------------------------------------------------------------------

/// Each text of `v` followed by `p`.
pub open spec fn each_followed_by(v: Seq<Seq<char>>, p: Seq<char>) -> Seq<Seq<char>> {
    v.map_values(|x: Seq<char>| x + p)
}

/// Concatenating a text in front of a list of texts.
pub proof fn lemma_concat_all_front(a: Seq<char>, rest: Seq<Seq<char>>)
    ensures
        concat_all(seq![a] + rest) == a + concat_all(rest),
    decreases rest.len(),
{
    let all = seq![a] + rest;
    if rest.len() == 0 {
        assert(all =~= seq![a]);
        assert(all.drop_last() =~= Seq::<Seq<char>>::empty());
        assert(concat_all(all) == concat_all(all.drop_last()) + all.last());
        assert(concat_all(all) =~= a);
        assert(a + concat_all(rest) =~= a);
    } else {
        assert(all.drop_last() =~= seq![a] + rest.drop_last());
        assert(all.last() == rest.last());
        lemma_concat_all_front(a, rest.drop_last());
        assert(concat_all(all) == a + concat_all(rest.drop_last()) + rest.last());
        assert(concat_all(rest) == concat_all(rest.drop_last()) + rest.last());
        assert(a + concat_all(rest.drop_last()) + rest.last() =~= a + (concat_all(
            rest.drop_last(),
        ) + rest.last()));
    }
}

/// Splitting from `start` and putting the separator back after every piece
/// gives the rest of the text followed by one separator.
proof fn lemma_split_from_join(s: Seq<char>, p: Seq<char>, start: int)
    requires
        p.len() > 0,
        0 <= start <= s.len(),
    ensures
        concat_all(each_followed_by(split_from(s, p, start), p)) == s.subrange(start, s.len() as int)
            + p,
    decreases s.len() - start,
{
    lemma_find_from(s, p, start);
    match find_from(s, p, start) {
        Some(i) => {
            let rest = split_from(s, p, i + p.len());
            lemma_split_from_join(s, p, i + p.len());
            assert(split_from(s, p, start) == seq![s.subrange(start, i)] + rest);
            assert(each_followed_by(seq![s.subrange(start, i)] + rest, p) =~= seq![
                s.subrange(start, i) + p,
            ] + each_followed_by(rest, p));
            lemma_concat_all_front(s.subrange(start, i) + p, each_followed_by(rest, p));
            assert(s.subrange(i, i + p.len()) == p);
            assert(s.subrange(start, i) + p + (s.subrange(i + p.len(), s.len() as int) + p)
                =~= s.subrange(start, s.len() as int) + p);
        },
        None => {
            let piece = s.subrange(start, s.len() as int);
            assert(each_followed_by(seq![piece], p) =~= seq![piece + p]);
            lemma_concat_all_front(piece + p, seq![]);
            assert(seq![piece + p] + Seq::<Seq<char>>::empty() =~= seq![piece + p]);
            assert(piece + p + concat_all(Seq::<Seq<char>>::empty()) =~= piece + p);
        },
    }
}

/// Law: splitting at a non-empty separator and putting the separator back
/// after every piece gives the text followed by one separator.
pub proof fn lemma_split_join(s: Seq<char>, p: Seq<char>)
    requires
        p.len() > 0,
    ensures
        concat_all(each_followed_by(split(s, p), p)) == s + p,
{
    lemma_split_from_join(s, p, 0);
    assert(s.subrange(0, s.len() as int) =~= s);
}

/// `c` does not occur in `s`.
pub open spec fn free_of(s: Seq<char>, c: char) -> bool {
    forall|i: int| 0 <= i < s.len() ==> s[i] != c
}

/// A one-character pattern matches exactly where that character stands.
pub proof fn lemma_matches_single(s: Seq<char>, c: char, k: int)
    ensures
        matches_at(s, seq![c], k) <==> (0 <= k < s.len() && s[k] == c),
{
    if 0 <= k < s.len() && s[k] == c {
        assert(s.subrange(k, k + 1) =~= seq![c]);
    }
    if matches_at(s, seq![c], k) {
        assert(s.subrange(k, k + 1)[0] == s[k]);
    }
}

/// A text free of `c` is one piece when split at `c`.
pub proof fn lemma_split_free(s: Seq<char>, c: char)
    requires
        free_of(s, c),
    ensures
        split(s, seq![c]) == seq![s],
{
    lemma_find_from(s, seq![c], 0);
    if find_from(s, seq![c], 0) is Some {
        let j = find_from(s, seq![c], 0).unwrap();
        lemma_matches_single(s, c, j);
    }
    assert(s.subrange(0, s.len() as int) =~= s);
}

/// Two texts free of `c`, joined by `c`, split back into the two.
pub proof fn lemma_split_two(x: Seq<char>, y: Seq<char>, c: char)
    requires
        free_of(x, c),
        free_of(y, c),
    ensures
        split(x + seq![c] + y, seq![c]) == seq![x, y],
{
    let s = x + seq![c] + y;
    let p = seq![c];
    lemma_find_from(s, p, 0);
    lemma_matches_single(s, c, x.len() as int);
    assert(s[x.len() as int] == c);
    let j = find_from(s, p, 0).unwrap();
    lemma_matches_single(s, c, j);
    if j < x.len() {
        assert(s[j] == x[j]);
    }
    assert(j == x.len());
    let k: int = x.len() as int + 1;
    lemma_find_from(s, p, k);
    if find_from(s, p, k) is Some {
        let m = find_from(s, p, k).unwrap();
        lemma_matches_single(s, c, m);
        assert(s[m] == y[m - k]);
    }
    assert(split_from(s, p, k) == seq![s.subrange(k, s.len() as int)]);
    assert(s.subrange(0, j) =~= x);
    assert(s.subrange(k, s.len() as int) =~= y);
    assert(seq![x] + seq![y] =~= seq![x, y]);
}

/// How often `c` occurs in a concatenation.
pub proof fn lemma_count_concat(a: Seq<char>, b: Seq<char>, c: char)
    ensures
        count_char(a + b, c) == count_char(a, c) + count_char(b, c),
    decreases b.len(),
{
    if b.len() == 0 {
        assert(a + b =~= a);
    } else {
        assert((a + b).drop_last() =~= a + b.drop_last());
        lemma_count_concat(a, b.drop_last(), c);
    }
}

/// A text free of `c` counts no `c`.
pub proof fn lemma_count_free(s: Seq<char>, c: char)
    requires
        free_of(s, c),
    ensures
        count_char(s, c) == 0,
    decreases s.len(),
{
    if s.len() > 0 {
        lemma_count_free(s.drop_last(), c);
    }
}

/// Joining the words of a text is the text without its ASCII whitespace.
pub proof fn lemma_words_concat(s: Seq<char>)
    ensures
        concat_all(words(s)) == remove_ascii_ws(s),
    decreases s.len(),
{
    if s.len() > 0 {
        lemma_words_concat(s.drop_last());
        lemma_words_nonempty(s.drop_last());
        let w = words(s.drop_last());
        let c = s.last();
        if is_ascii_ws(c) {
        } else if s.len() >= 2 && !is_ascii_ws(s[s.len() - 2]) && w.len() > 0 {
            let u = w.update(w.len() - 1, w.last().push(c));
            assert(u.drop_last() =~= w.drop_last());
            assert(concat_all(u) =~= concat_all(w).push(c));
        } else {
            let u = w.push(seq![c]);
            assert(u.drop_last() =~= w);
            assert(concat_all(u) =~= concat_all(w).push(c));
        }
    }
}

/// No ASCII whitespace is left after removing it.
pub proof fn lemma_remove_ascii_ws_clean(s: Seq<char>)
    ensures
        forall|i: int| 0 <= i < remove_ascii_ws(s).len() ==> !is_ascii_ws(#[trigger] remove_ascii_ws(s)[i]),
    decreases s.len(),
{
    if s.len() > 0 {
        lemma_remove_ascii_ws_clean(s.drop_last());
        let r = remove_ascii_ws(s.drop_last());
        if !is_ascii_ws(s.last()) {
            assert forall|i: int| 0 <= i < r.push(s.last()).len() implies !is_ascii_ws(
                #[trigger] r.push(s.last())[i],
            ) by {
                if i < r.len() {
                    assert(r.push(s.last())[i] == r[i]);
                }
            }
        }
    }
}

/// A text without ASCII whitespace is left as it is.
pub proof fn lemma_remove_ascii_ws_none(s: Seq<char>)
    requires
        forall|i: int| 0 <= i < s.len() ==> !is_ascii_ws(#[trigger] s[i]),
    ensures
        remove_ascii_ws(s) == s,
    decreases s.len(),
{
    if s.len() > 0 {
        lemma_remove_ascii_ws_none(s.drop_last());
        assert(s.drop_last().push(s.last()) =~= s);
    }
}

// ---------------------------------------------------------------------
// Executable operations
// ---------------------------------------------------------------------

/// The characters of `s`, in order.
pub fn chars_of(s: &str) -> (v: Vec<char>)
    ensures
        v@ == s@,
{
    broadcast use vstd::string::group_string_axioms;

    let mut v: Vec<char> = Vec::new();
    for c in it: s.chars()
        invariant
            v@ == it.seq().take(it.index() as int),
            it.seq() == s@,
    {
        v.push(c);
    }
    v
}

/// Whether the two texts are equal.
pub fn text_eq(a: &str, b: &str) -> (r: bool)
    ensures
        r == (a@ == b@),
{
    let x = chars_of(a);
    let y = chars_of(b);
    if x.len() != y.len() {
        return false;
    }
    let mut i: usize = 0;
    while i < x.len()
        invariant
            x@ == a@,
            y@ == b@,
            x.len() == y.len(),
            i <= x.len(),
            forall|j: int| 0 <= j < i ==> x@[j] == y@[j],
        decreases x.len() - i,
    {
        if x[i] != y[i] {
            return false;
        }
        i = i + 1;
    }
    assert(x@ =~= y@);
    true
}

/// ASCII lower-casing of one character.
pub fn lower_char(c: char) -> (r: char)
    ensures
        r == ascii_lower(c),
{
    if 'A' <= c && c <= 'Z' {
        let lower = ((c as u8) + 32) as char;
        lower
    } else {
        c
    }
}

/// Whether `a`, lower-cased in ASCII, equals `b`.
pub fn lower_eq(a: &str, b: &str) -> (r: bool)
    ensures
        r == (lower_text(a@) == b@),
{
    let x = chars_of(a);
    let y = chars_of(b);
    if x.len() != y.len() {
        assert(lower_text(a@).len() != b@.len());
        return false;
    }
    let mut i: usize = 0;
    while i < x.len()
        invariant
            x@ == a@,
            y@ == b@,
            x.len() == y.len(),
            i <= x.len(),
            forall|j: int| 0 <= j < i ==> ascii_lower(x@[j]) == y@[j],
        decreases x.len() - i,
    {
        if lower_char(x[i]) != y[i] {
            assert(lower_text(a@)[i as int] != b@[i as int]);
            return false;
        }
        i = i + 1;
    }
    assert(lower_text(a@) =~= b@);
    true
}

/// Whether `p` occurs in `s` at position `i`.
pub fn matches_at_exec(s: &Vec<char>, p: &Vec<char>, i: usize) -> (r: bool)
    ensures
        r == matches_at(s@, p@, i as int),
{
    if i > s.len() || p.len() > s.len() - i {
        return false;
    }
    let mut k: usize = 0;
    while k < p.len()
        invariant
            i + p.len() <= s.len(),
            k <= p.len(),
            forall|j: int| 0 <= j < k ==> s@[i + j] == p@[j],
        decreases p.len() - k,
    {
        if s[i + k] != p[k] {
            assert(s@.subrange(i as int, i + p.len())[k as int] != p@[k as int]);
            return false;
        }
        k = k + 1;
    }
    assert(s@.subrange(i as int, i + p.len()) =~= p@);
    true
}

/// The leftmost occurrence of `p` in `s` at or after `start`.
pub fn find_from_exec(s: &Vec<char>, p: &Vec<char>, start: usize) -> (r: Option<usize>)
    ensures
        r matches Some(j) ==> find_from(s@, p@, start as int) == Some(j as int),
        r is None ==> find_from(s@, p@, start as int) is None,
{
    if start > s.len() || p.len() > s.len() - start {
        return None;
    }
    let mut i = start;
    while i <= s.len() - p.len()
        invariant
            p.len() <= s.len(),
            start <= i,
            find_from(s@, p@, start as int) == find_from(s@, p@, i as int),
        decreases s.len() - i,
    {
        if matches_at_exec(s, p, i) {
            return Some(i);
        }
        if i >= s.len() {
            return None;
        }
        i = i + 1;
    }
    None
}

/// Whether `p` occurs in `s`.
pub fn contains_exec(s: &str, p: &str) -> (r: bool)
    ensures
        r == contains(s@, p@),
{
    let x = chars_of(s);
    let y = chars_of(p);
    find_from_exec(&x, &y, 0).is_some()
}

/// The text of `s` from character `a` to character `b`, as a `String`.
pub fn slice_owned(s: &str, a: usize, b: usize) -> (r: String)
    requires
        a <= b <= s@.len(),
    ensures
        r@ == s@.subrange(a as int, b as int),
{
    String::from_str(s.substring_char(a, b))
}

/// The pieces of `s` between the occurrences of the non-empty separator `p`.
pub fn split_text(s: &str, p: &str) -> (r: Vec<String>)
    requires
        p@.len() > 0,
    ensures
        texts(r@) == split(s@, p@),
{
    let x = chars_of(s);
    let y = chars_of(p);
    let mut out: Vec<String> = Vec::new();
    let mut start: usize = 0;
    loop
        invariant
            x@ == s@,
            y@ == p@,
            y@.len() > 0,
            start <= x.len(),
            split(s@, p@) == texts(out@) + split_from(s@, p@, start as int),
        decreases x.len() - start,
    {
        let found = find_from_exec(&x, &y, start);
        proof {
            lemma_find_from(x@, y@, start as int);
        }
        match found {
            Some(i) => {
                let piece = slice_owned(s, start, i);
                let ghost old_out = out@;
                out.push(piece);
                assert(texts(out@) =~= texts(old_out) + seq![piece@]);
                assert(split_from(s@, p@, start as int) == seq![piece@] + split_from(
                    s@,
                    p@,
                    i + p@.len(),
                ));
                start = i + y.len();
            },
            None => {
                let piece = slice_owned(s, start, x.len());
                let ghost old_out = out@;
                out.push(piece);
                assert(texts(out@) =~= texts(old_out) + seq![piece@]);
                return out;
            },
        }
    }
}

/// The non-whitespace words of `s`, as slices of `s`.
pub fn words_of<'a>(s: &'a str) -> (r: Vec<&'a str>)
    ensures
        slice_texts(r@) == words(s@),
{
    let x = chars_of(s);
    let mut r: Vec<&'a str> = Vec::new();
    let mut start: usize = 0;
    let mut in_word = false;
    let mut i: usize = 0;
    while i < x.len()
        invariant
            x@ == s@,
            i <= x.len(),
            start <= i,
            in_word <==> (i > 0 && !is_ascii_ws(s@[i - 1])),
            words(s@.take(i as int)) == slice_texts(r@) + if in_word {
                seq![s@.subrange(start as int, i as int)]
            } else {
                seq![]
            },
        decreases x.len() - i,
    {
        let c = x[i];
        let ghost pre = s@.take(i as int);
        let ghost post = s@.take(i + 1);
        let ghost done = slice_texts(r@);
        assert(post.drop_last() =~= pre);
        assert(post.last() == c);
        if i > 0 {
            assert(post[post.len() - 2] == s@[i - 1]);
        }
        if c == ' ' || c == '\t' || c == '\n' || c == '\x0C' || c == '\r' {
            if in_word {
                r.push(s.substring_char(start, i));
                assert(slice_texts(r@) =~= done + seq![s@.subrange(start as int, i as int)]);
            } else {
                assert(done + seq![] =~= done);
            }
            in_word = false;
        } else if in_word {
            assert(s@.subrange(start as int, i + 1) =~= s@.subrange(start as int, i as int).push(c));
            assert((done + seq![s@.subrange(start as int, i as int)]).update(
                done.len() as int,
                s@.subrange(start as int, i + 1),
            ) =~= done + seq![s@.subrange(start as int, i + 1)]);
        } else {
            assert(done + seq![] =~= done);
            assert(s@.subrange(i as int, i + 1) =~= seq![c]);
            start = i;
            in_word = true;
        }
        i = i + 1;
    }
    assert(s@.take(x.len() as int) =~= s@);
    if in_word {
        let ghost done = slice_texts(r@);
        r.push(s.substring_char(start, x.len()));
        assert(slice_texts(r@) =~= done + seq![s@.subrange(start as int, x.len() as int)]);
    } else {
        assert(slice_texts(r@) + seq![] =~= slice_texts(r@));
    }
    r
}

/// Whether `c` is Unicode whitespace.
pub fn is_unicode_ws_exec(c: char) -> (r: bool)
    ensures
        r == is_unicode_ws(c),
{
    let v = c as u32;
    (0x9 <= v && v <= 0xd) || v == 0x20 || v == 0x85 || v == 0xa0 || v == 0x1680 || (0x2000 <= v
        && v <= 0x200a) || v == 0x2028 || v == 0x2029 || v == 0x202f || v == 0x205f || v == 0x3000
}

/// The number of bytes that UTF-8 takes for `c`.
pub fn utf8_width_exec(c: char) -> (r: usize)
    ensures
        r == utf8_width(c),
{
    let v = c as u32;
    if v < 0x80 {
        1
    } else if v < 0x800 {
        2
    } else if v < 0x10000 {
        3
    } else {
        4
    }
}

/// The character position at which the first `b` bytes of `s` end, or `None`
/// when byte `b` falls inside a character or past the end.
pub fn char_pos_exec(s: &Vec<char>, b: usize) -> (r: Option<usize>)
    ensures
        r matches Some(k) ==> char_pos(s@, b as int) == Some(k as int),
        r is None ==> char_pos(s@, b as int) is None,
{
    let mut k: usize = 0;
    let mut bytes: usize = 0;
    while k <= s.len()
        invariant
            k <= s.len() + 1,
            k <= s.len() ==> bytes == utf8_len(s@.take(k as int)),
            k <= s.len() ==> bytes <= b,
            char_pos(s@, b as int) == char_pos_from(s@, b as int, k as int),
        decreases s.len() + 1 - k,
    {
        if bytes == b {
            return Some(k);
        }
        if k == s.len() {
            assert(char_pos_from(s@, b as int, k + 1) is None);
            return None;
        }
        assert(s@.take(k + 1).drop_last() =~= s@.take(k as int));
        let w = utf8_width_exec(s[k]);
        if w > b - bytes {
            assert(char_pos_from(s@, b as int, k + 1) is None);
            return None;
        }
        bytes = bytes + w;
        k = k + 1;
    }
    None
}

/// `s[a..b]` without leading and trailing whitespace, as a `String`.
pub fn trimmed_slice(s: &str, a: usize, b: usize) -> (r: String)
    requires
        a <= b <= s@.len(),
    ensures
        r@ == trim(s@.subrange(a as int, b as int)),
{
    let v = chars_of(s);
    let ghost t = s@.subrange(a as int, b as int);
    let mut i = a;
    while i < b && is_unicode_ws_exec(v[i])
        invariant
            v@ == s@,
            a <= i <= b <= v.len(),
            trim_start(t) == trim_start(s@.subrange(i as int, b as int)),
        decreases b - i,
    {
        assert(s@.subrange(i + 1, b as int) =~= s@.subrange(i as int, b as int).drop_first());
        i = i + 1;
    }
    let ghost st = s@.subrange(i as int, b as int);
    assert(trim_start(t) == st);
    let mut j = b;
    while j > i && is_unicode_ws_exec(v[j - 1])
        invariant
            v@ == s@,
            a <= i <= j <= b <= v.len(),
            trim_end(st) == trim_end(s@.subrange(i as int, j as int)),
        decreases j - i,
    {
        assert(s@.subrange(i as int, j - 1) =~= s@.subrange(i as int, j as int).drop_last());
        j = j - 1;
    }
    slice_owned(s, i, j)
}

} // verus!

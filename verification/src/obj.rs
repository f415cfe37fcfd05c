//! Reading a triangle mesh from its text form.
//!
//! The text is a sequence of lines. A line that starts with the word `v`
//! and has at least three more words is a vertex; a line that starts with
//! the word `f` is a face, each further word naming a vertex by its number,
//! counted from one, optionally followed by `/` and more that is ignored.
//! All other lines are passed over. The three coordinate words of a vertex
//! are kept as written.

use vstd::prelude::*;

verus! {

/// What a scan looks for.
#[derive(Clone, Copy, Debug)]
pub enum CharClass {
    /// White space.
    Space,
    /// Anything but white space.
    Ink,
    /// The line feed.
    Newline,
    /// The slash.
    Slash,
}

/// Whether `c` is white space: one of the characters with the Unicode
/// property `White_Space`.
pub open spec fn is_space(c: char) -> bool {
    let u = c as u32;
    ||| 9 <= u <= 13
    ||| u == 0x20
    ||| u == 0x85
    ||| u == 0xA0
    ||| u == 0x1680
    ||| 0x2000 <= u <= 0x200A
    ||| u == 0x2028
    ||| u == 0x2029
    ||| u == 0x202F
    ||| u == 0x205F
    ||| u == 0x3000
}

/// Whether `c` belongs to the class.
pub open spec fn in_class(class: CharClass, c: char) -> bool {
    match class {
        CharClass::Space => is_space(c),
        CharClass::Ink => !is_space(c),
        CharClass::Newline => c == '\n',
        CharClass::Slash => c == '/',
    }
}

/// Place of the first character of the class at or after `from`, or the
/// length of `s` where there is none.
pub open spec fn find(s: Seq<char>, from: int, class: CharClass) -> int
    decreases s.len() - from,
{
    if from < 0 || from >= s.len() {
        s.len() as int
    } else if in_class(class, s[from]) {
        from
    } else {
        find(s, from + 1, class)
    }
}

/// `find` gives the first place of the class: it lies at or after `from`,
/// and no character before it, from `from` on, belongs to the class.
pub proof fn lemma_find(s: Seq<char>, from: int, class: CharClass)
    requires
        0 <= from <= s.len(),
    ensures
        from <= find(s, from, class) <= s.len(),
        find(s, from, class) < s.len() ==> in_class(class, s[find(s, from, class)]),
        forall|j: int| from <= j < find(s, from, class) ==> !in_class(class, #[trigger] s[j]),
    decreases s.len() - from,
{
    if from < s.len() && !in_class(class, s[from]) {
        lemma_find(s, from + 1, class);
    }
}

/// The words of `s` from `from` on: the longest runs of characters that
/// are not white space, in order.
pub open spec fn words_from(s: Seq<char>, from: int) -> Seq<Seq<char>>
    decreases s.len() - from,
{
    let a = find(s, from, CharClass::Ink);
    if from < 0 || a >= s.len() {
        Seq::empty()
    } else {
        let b = find(s, a, CharClass::Space);
        proof {
            lemma_find(s, from, CharClass::Ink);
            lemma_find(s, a, CharClass::Space);
        }
        seq![s.subrange(a, b)] + words_from(s, b)
    }
}

/// The words of a line.
pub open spec fn words(line: Seq<char>) -> Seq<Seq<char>> {
    words_from(line, 0)
}

/// The lines of `s` from `from` on. A line ends before a line feed or at
/// the end of the text; no line follows a final line feed.
pub open spec fn lines_from(s: Seq<char>, from: int) -> Seq<Seq<char>>
    decreases s.len() - from,
{
    if from < 0 || from >= s.len() {
        Seq::empty()
    } else {
        let e = find(s, from, CharClass::Newline);
        proof {
            lemma_find(s, from, CharClass::Newline);
        }
        if e >= s.len() {
            seq![s.subrange(from, e)]
        } else {
            seq![s.subrange(from, e)] + lines_from(s, e + 1)
        }
    }
}

/// The lines of a text.
pub open spec fn lines(text: Seq<char>) -> Seq<Seq<char>> {
    lines_from(text, 0)
}

/// Whether `c` is one of the digits `0` to `9`.
pub open spec fn is_digit(c: char) -> bool {
    48 <= c as u32 <= 57
}

/// The number that a run of digits writes in decimal; zero for no digits.
pub open spec fn digits_value(s: Seq<char>) -> nat
    decreases s.len(),
{
    if s.len() == 0 {
        0
    } else {
        (digits_value(s.drop_last()) * 10 + (s.last() as u32 - 48)) as nat
    }
}

/// Whether every character of `s` is a digit.
pub open spec fn all_digits(s: Seq<char>) -> bool {
    forall|i: int| 0 <= i < s.len() ==> is_digit(#[trigger] s[i])
}

/// The word without a leading `+`.
pub open spec fn unsigned_part(s: Seq<char>) -> Seq<char> {
    if s.len() > 0 && s[0] == '+' {
        s.subrange(1, s.len() as int)
    } else {
        s
    }
}

/// The number that a word writes, if it writes one that fits the machine:
/// an optional `+`, then one or more digits.
pub open spec fn parse_index(s: Seq<char>) -> Option<nat> {
    let d = unsigned_part(s);
    if d.len() > 0 && all_digits(d) && digits_value(d) <= usize::MAX {
        Some(digits_value(d))
    } else {
        None
    }
}

/// The vertex number that a word of a face names: what the word writes
/// before its first slash.
pub open spec fn face_entry(word: Seq<char>) -> Option<nat> {
    parse_index(word.subrange(0, find(word, 0, CharClass::Slash)))
}

/// The vertex indices, counted from zero, that the words `1 .. n` of a
/// face line name. A word that names no number is passed over.
pub open spec fn face_indices(w: Seq<Seq<char>>, n: int) -> Seq<usize>
    decreases n,
{
    if n <= 1 {
        Seq::empty()
    } else {
        let before = face_indices(w, n - 1);
        match face_entry(w[n - 1]) {
            Some(v) => if v >= 1 {
                before.push((v - 1) as usize)
            } else {
                before
            },
            None => before,
        }
    }
}

/// Whether a word of a face line names the vertex number zero, which no
/// vertex has.
pub open spec fn names_zero(w: Seq<Seq<char>>) -> bool {
    exists|j: int| 1 <= j < w.len() && face_entry(#[trigger] w[j]) == Some(0nat)
}

/// What a line of the text says.
pub enum Record {
    /// A vertex, with its three coordinate words.
    Vertex { x: Seq<char>, y: Seq<char>, z: Seq<char> },
    /// A face, with its vertex indices counted from zero.
    Face { indices: Seq<usize> },
    /// A face that names the vertex number zero.
    ZeroIndex,
    /// Nothing that is kept.
    Skip,
}

/// What the line says.
pub open spec fn record(line: Seq<char>) -> Record {
    let w = words(line);
    if w.len() == 0 {
        Record::Skip
    } else if w[0] == seq!['v'] {
        if w.len() >= 4 {
            Record::Vertex { x: w[1], y: w[2], z: w[3] }
        } else {
            Record::Skip
        }
    } else if w[0] == seq!['f'] {
        if names_zero(w) {
            Record::ZeroIndex
        } else if face_indices(w, w.len() as int).len() > 0 {
            Record::Face { indices: face_indices(w, w.len() as int) }
        } else {
            Record::Skip
        }
    } else {
        Record::Skip
    }
}

/// The vertices among the first `n` lines, in order.
pub open spec fn vertices_in(l: Seq<Seq<char>>, n: int) -> Seq<(Seq<char>, Seq<char>, Seq<char>)>
    decreases n,
{
    if n <= 0 {
        Seq::empty()
    } else {
        let before = vertices_in(l, n - 1);
        match record(l[n - 1]) {
            Record::Vertex { x, y, z } => before.push((x, y, z)),
            _ => before,
        }
    }
}

/// The faces among the first `n` lines, in order.
pub open spec fn faces_in(l: Seq<Seq<char>>, n: int) -> Seq<Seq<usize>>
    decreases n,
{
    if n <= 0 {
        Seq::empty()
    } else {
        let before = faces_in(l, n - 1);
        match record(l[n - 1]) {
            Record::Face { indices } => before.push(indices),
            _ => before,
        }
    }
}

/// A face: the indices of its corners among the vertices, counted from
/// zero.
#[derive(Debug)]
pub struct Face {
    pub vertex_indices: Vec<usize>,
}

/// A vertex as the text gives it: its three coordinate words.
#[derive(Debug)]
pub struct VertexText {
    pub x: Vec<char>,
    pub y: Vec<char>,
    pub z: Vec<char>,
}

/// A mesh: vertices and faces in the order of the text.
#[derive(Debug)]
pub struct Model {
    pub vertices: Vec<VertexText>,
    pub faces: Vec<Face>,
}

/// The text names the vertex number zero.
#[derive(Debug)]
pub struct ParseError {
    /// Number of the offending line, counted from one.
    pub line: usize,
}

impl Model {
    /// The coordinate words of the vertices.
    pub open spec fn vertex_words(&self) -> Seq<(Seq<char>, Seq<char>, Seq<char>)> {
        Seq::new(
            self.vertices@.len(),
            |i: int| (self.vertices@[i].x@, self.vertices@[i].y@, self.vertices@[i].z@),
        )
    }

    /// The index lists of the faces.
    pub open spec fn face_lists(&self) -> Seq<Seq<usize>> {
        Seq::new(self.faces@.len(), |i: int| self.faces@[i].vertex_indices@)
    }

    /// A mesh without vertices or faces.
    pub fn new() -> (m: Model)
        ensures
            m.vertices@.len() == 0,
            m.faces@.len() == 0,
    {
        Model { vertices: Vec::new(), faces: Vec::new() }
    }
}

/// The texts of a list of words.
pub open spec fn texts(v: Seq<Vec<char>>) -> Seq<Seq<char>> {
    Seq::new(v.len(), |i: int| v[i]@)
}

fn member(class: CharClass, c: char) -> (b: bool)
    ensures
        b == in_class(class, c),
{
    let u: u32 = c as u32;
    match class {
        CharClass::Space => is_white(u),
        CharClass::Ink => !is_white(u),
        CharClass::Newline => u == 10,
        CharClass::Slash => u == 47,
    }
}

fn is_white(u: u32) -> (b: bool)
    ensures
        b == (9 <= u <= 13 || u == 0x20 || u == 0x85 || u == 0xA0 || u == 0x1680 || 0x2000 <= u
            <= 0x200A || u == 0x2028 || u == 0x2029 || u == 0x202F || u == 0x205F || u == 0x3000),
{
    (9 <= u && u <= 13) || u == 0x20 || u == 0x85 || u == 0xA0 || u == 0x1680 || (0x2000 <= u && u
        <= 0x200A) || u == 0x2028 || u == 0x2029 || u == 0x202F || u == 0x205F || u == 0x3000
}

/// Place of the first character of the class at or after `from`.
fn scan(s: &Vec<char>, from: usize, class: CharClass) -> (end: usize)
    requires
        from <= s@.len(),
    ensures
        end == find(s@, from as int, class),
        from <= end <= s@.len(),
{
    let mut i: usize = from;
    while i < s.len() && !member(class, s[i])
        invariant
            from <= i <= s@.len(),
            find(s@, from as int, class) == find(s@, i as int, class),
        decreases s@.len() - i,
    {
        i = i + 1;
    }
    proof {
        lemma_find(s@, i as int, class);
    }
    i
}

/// A copy of the characters from `a` up to `b`.
fn slice(s: &Vec<char>, a: usize, b: usize) -> (r: Vec<char>)
    requires
        a <= b <= s@.len(),
    ensures
        r@ == s@.subrange(a as int, b as int),
{
    let mut r: Vec<char> = Vec::new();
    let mut i: usize = a;
    while i < b
        invariant
            a <= i <= b <= s@.len(),
            r@ == s@.subrange(a as int, i as int),
        decreases b - i,
    {
        r.push(s[i]);
        assert(r@ =~= s@.subrange(a as int, i + 1));
        i = i + 1;
    }
    r
}

/// The characters of a text.
fn characters(text: &str) -> (v: Vec<char>)
    ensures
        v@ == text@,
{
    let mut v: Vec<char> = Vec::new();
    for c in it: text.chars()
        invariant
            v@ == text@.subrange(0, it.index() as int),
            it.seq() == text@,
    {
        v.push(c);
        assert(v@ =~= text@.subrange(0, it.index() + 1));
    }
    assert(v@ =~= text@);
    v
}

/// Splits a line into its words.
fn split_whitespace(line: &Vec<char>) -> (w: Vec<Vec<char>>)
    ensures
        texts(w@) == words(line@),
{
    let mut w: Vec<Vec<char>> = Vec::new();
    let mut i: usize = 0;
    assert(texts(w@) + words_from(line@, 0) =~= words(line@));
    loop
        invariant_except_break
            i <= line@.len(),
            texts(w@) + words_from(line@, i as int) == words(line@),
        ensures
            texts(w@) == words(line@),
        decreases line@.len() - i,
    {
        let a: usize = scan(line, i, CharClass::Ink);
        if a >= line.len() {
            assert(texts(w@) + Seq::<Seq<char>>::empty() =~= texts(w@));
            break;
        }
        let b: usize = scan(line, a, CharClass::Space);
        proof {
            lemma_find(line@, a as int, CharClass::Space);
        }
        let ghost before = texts(w@);
        let word = slice(line, a, b);
        w.push(word);
        assert(texts(w@) =~= before + seq![line@.subrange(a as int, b as int)]);
        assert(texts(w@) + words_from(line@, b as int) =~= before + (seq![
            line@.subrange(a as int, b as int),
        ] + words_from(line@, b as int)));
        i = b;
    }
    w
}

/// Splits a text into its lines.
fn split_lines(text: &Vec<char>) -> (l: Vec<Vec<char>>)
    ensures
        texts(l@) == lines(text@),
{
    let mut l: Vec<Vec<char>> = Vec::new();
    let mut i: usize = 0;
    assert(texts(l@) + lines_from(text@, 0) =~= lines(text@));
    loop
        invariant_except_break
            i <= text@.len(),
            texts(l@) + lines_from(text@, i as int) == lines(text@),
        ensures
            texts(l@) == lines(text@),
        decreases text@.len() - i,
    {
        if i >= text.len() {
            assert(texts(l@) + Seq::<Seq<char>>::empty() =~= texts(l@));
            break;
        }
        let e: usize = scan(text, i, CharClass::Newline);
        let ghost before = texts(l@);
        let one = slice(text, i, e);
        l.push(one);
        assert(texts(l@) =~= before + seq![text@.subrange(i as int, e as int)]);
        if e >= text.len() {
            break;
        }
        assert(texts(l@) + lines_from(text@, e + 1) =~= before + (seq![
            text@.subrange(i as int, e as int),
        ] + lines_from(text@, e + 1)));
        i = e + 1;
    }
    l
}

/// A longer run of digits writes no smaller a number than its beginning.
proof fn lemma_digits_prefix(d: Seq<char>, j: int)
    requires
        0 <= j <= d.len(),
        all_digits(d),
    ensures
        digits_value(d.subrange(0, j)) <= digits_value(d),
    decreases d.len(),
{
    if j == d.len() {
        assert(d.subrange(0, j) =~= d);
    } else {
        lemma_digits_prefix(d.drop_last(), j);
        assert(d.drop_last().subrange(0, j) =~= d.subrange(0, j));
    }
}

/// Reads the vertex number that a word of a face names.
fn read_entry(word: &Vec<char>) -> (r: Option<usize>)
    ensures
        match face_entry(word@) {
            Some(v) => r == Some(v as usize),
            None => r is None,
        },
{
    let end: usize = scan(word, 0, CharClass::Slash);
    let start: usize = if end > 0 && word[0] == '+' {
        1
    } else {
        0
    };
    let ghost part = word@.subrange(0, end as int);
    let ghost d = part.subrange(start as int, end as int);
    assert(d =~= unsigned_part(part));
    if start >= end {
        return None;
    }
    let mut value: usize = 0;
    let mut i: usize = start;
    assert(d.subrange(0, 0) =~= Seq::<char>::empty());
    while i < end
        invariant
            start <= i <= end <= word@.len(),
            d == word@.subrange(start as int, end as int),
            end == find(word@, 0, CharClass::Slash),
            part == word@.subrange(0, end as int),
            d == unsigned_part(part),
            value == digits_value(d.subrange(0, i - start)),
            forall|j: int| 0 <= j < i - start ==> is_digit(#[trigger] d[j]),
        decreases end - i,
    {
        let u: u32 = word[i] as u32;
        if u < 48 || u > 57 {
            assert(!is_digit(d[i - start]));
            return None;
        }
        let digit: usize = (u - 48) as usize;
        proof {
            let longer = d.subrange(0, i - start + 1);
            assert(longer.drop_last() =~= d.subrange(0, i - start));
            assert(longer.last() == word@[i as int]);
            assert(digits_value(longer) == value * 10 + digit);
            if all_digits(d) {
                lemma_digits_prefix(d, i - start + 1);
            }
        }
        let tens = match value.checked_mul(10) {
            Some(t) => t,
            None => {
                return None;
            },
        };
        value = match tens.checked_add(digit) {
            Some(t) => t,
            None => {
                return None;
            },
        };
        i = i + 1;
    }
    assert(d.subrange(0, end - start) =~= d);
    Some(value)
}

/// Whether the word is the single character `c`.
fn is_word(word: &Vec<char>, c: char) -> (b: bool)
    ensures
        b == (word@ == seq![c]),
{
    if word.len() == 1 && word[0] == c {
        assert(word@ =~= seq![c]);
        true
    } else {
        proof {
            if word@ == seq![c] {
                assert(seq![c].len() == 1 && seq![c][0] == c);
            }
        }
        false
    }
}

/// What a face line says: its vertex indices, or `None` where a word
/// names the vertex number zero.
fn read_face(w: &Vec<Vec<char>>) -> (r: Option<Vec<usize>>)
    ensures
        match r {
            Some(indices) => !names_zero(texts(w@)) && indices@ == face_indices(
                texts(w@),
                w@.len() as int,
            ),
            None => names_zero(texts(w@)),
        },
{
    let mut indices: Vec<usize> = Vec::new();
    let mut j: usize = 1;
    if w.len() <= 1 {
        return Some(indices);
    }
    while j < w.len()
        invariant
            1 <= j <= w@.len(),
            indices@ == face_indices(texts(w@), j as int),
            forall|k: int| 1 <= k < j ==> face_entry(#[trigger] texts(w@)[k]) != Some(0nat),
        decreases w@.len() - j,
    {
        assert(texts(w@)[j as int] == w@[j as int]@);
        match read_entry(&w[j]) {
            Some(v) => {
                if v == 0 {
                    return None;
                }
                indices.push(v - 1);
            },
            None => {},
        }
        j = j + 1;
    }
    Some(indices)
}

impl Model {
    /// Reads a mesh from its text. The result holds the vertices and the
    /// faces of the lines, in order. The text is refused where a face
    /// names the vertex number zero; the error gives the first such line.
    pub fn parse(text: &str) -> (r: Result<Model, ParseError>)
        ensures
            match r {
                Ok(m) => {
                    &&& forall|i: int|
                        0 <= i < lines(text@).len() ==> !(record(#[trigger] lines(text@)[i])
                            is ZeroIndex)
                    &&& m.vertex_words() == vertices_in(lines(text@), lines(text@).len() as int)
                    &&& m.face_lists() == faces_in(lines(text@), lines(text@).len() as int)
                },
                Err(e) => {
                    &&& 1 <= e.line <= lines(text@).len()
                    &&& record(lines(text@)[e.line - 1]) is ZeroIndex
                    &&& forall|i: int|
                        0 <= i < e.line - 1 ==> !(record(#[trigger] lines(text@)[i]) is ZeroIndex)
                },
            },
    {
        let chars = characters(text);
        let l = split_lines(&chars);
        let mut model = Model::new();
        let mut i: usize = 0;
        assert(model.vertex_words() =~= vertices_in(lines(text@), 0));
        assert(model.face_lists() =~= faces_in(lines(text@), 0));
        while i < l.len()
            invariant
                i <= l@.len(),
                texts(l@) == lines(text@),
                forall|k: int| 0 <= k < i ==> !(record(#[trigger] lines(text@)[k]) is ZeroIndex),
                model.vertex_words() == vertices_in(lines(text@), i as int),
                model.face_lists() == faces_in(lines(text@), i as int),
            decreases l@.len() - i,
        {
            assert(texts(l@)[i as int] == l@[i as int]@);
            let ghost line = lines(text@)[i as int];
            let ghost old_vertices = model.vertex_words();
            let ghost old_faces = model.face_lists();
            let w = split_whitespace(&l[i]);
            assert(texts(w@) == words(line));
            if w.len() > 0 {
                assert(texts(w@)[0] == w@[0]@);
                if is_word(&w[0], 'v') {
                    if w.len() >= 4 {
                        assert(texts(w@)[1] == w@[1]@);
                        assert(texts(w@)[2] == w@[2]@);
                        assert(texts(w@)[3] == w@[3]@);
                        let x = slice(&w[1], 0, w[1].len());
                        let y = slice(&w[2], 0, w[2].len());
                        let z = slice(&w[3], 0, w[3].len());
                        assert(x@ =~= w@[1]@ && y@ =~= w@[2]@ && z@ =~= w@[3]@);
                        model.vertices.push(VertexText { x, y, z });
                        assert(model.vertex_words() =~= old_vertices.push((x@, y@, z@)));
                        assert(model.face_lists() =~= old_faces);
                    }
                } else if is_word(&w[0], 'f') {
                    match read_face(&w) {
                        Some(indices) => {
                            if indices.len() > 0 {
                                let ghost list = indices@;
                                model.faces.push(Face { vertex_indices: indices });
                                assert(model.face_lists() =~= old_faces.push(list));
                                assert(model.vertex_words() =~= old_vertices);
                            }
                        },
                        None => {
                            return Err(ParseError { line: i + 1 });
                        },
                    }
                }
            }
            i = i + 1;
        }
        Ok(model)
    }
}

} // verus!

use vstd::prelude::*;
use crate::polygon::Polygon;

verus! {

/// The byte that ends a line.
pub const NEWLINE: u8 = 10;

/// The bytes that separate words: space, tab, line feed, vertical tab, form
/// feed and carriage return.
pub open spec fn is_blank(b: u8) -> bool {
    b == 32 || (9 <= b && b <= 13)
}

/// The text cut at each newline byte, newlines dropped. A text that ends in a
/// newline has an empty last piece, which holds no record.
pub open spec fn split_lines(t: Seq<u8>) -> Seq<Seq<u8>>
    decreases t.len(),
{
    if t.len() == 0 {
        seq![Seq::<u8>::empty()]
    } else {
        let s = split_lines(t.drop_last());
        if t.last() == NEWLINE {
            s.push(Seq::<u8>::empty())
        } else {
            s.update(s.len() - 1, s.last().push(t.last()))
        }
    }
}

/// The maximal runs of non-blank bytes of a line, left to right.
pub open spec fn words(l: Seq<u8>) -> Seq<Seq<u8>>
    decreases l.len(),
{
    if l.len() == 0 {
        Seq::<Seq<u8>>::empty()
    } else {
        let w = words(l.drop_last());
        if is_blank(l.last()) {
            w
        } else if l.len() >= 2 && !is_blank(l[l.len() - 2]) {
            w.update(w.len() - 1, w.last().push(l.last()))
        } else {
            w.push(seq![l.last()])
        }
    }
}

pub open spec fn is_digit(b: u8) -> bool {
    48 <= b && b <= 57
}

/// A vertex index token without its optional leading `+`.
pub open spec fn unsigned_digits(s: Seq<u8>) -> Seq<u8> {
    if s.len() > 0 && s[0] == 43u8 {
        s.drop_first()
    } else {
        s
    }
}

/// The number that a run of decimal digits writes.
pub open spec fn decimal_value(d: Seq<u8>) -> nat
    decreases d.len(),
{
    if d.len() == 0 {
        0
    } else {
        decimal_value(d.drop_last()) * 10 + (d.last() - 48) as nat
    }
}

/// A token that reads as an unsigned machine-sized integer: an optional `+`,
/// then at least one decimal digit, of a value that fits in `usize`.
pub open spec fn is_index(s: Seq<u8>) -> bool {
    let d = unsigned_digits(s);
    &&& d.len() > 0
    &&& forall|i: int| 0 <= i < d.len() ==> is_digit(#[trigger] d[i])
    &&& decimal_value(d) <= usize::MAX
}

pub open spec fn index_value(s: Seq<u8>) -> nat {
    decimal_value(unsigned_digits(s))
}

/// A 1-based vertex index that names one of the `n` vertices declared so far.
pub open spec fn names_vertex(s: Seq<u8>, n: nat) -> bool {
    1 <= index_value(s) <= n
}

/// What a geometry text declares: the coordinate tokens of each vertex, three
/// per vertex in the order x, y, z, and each face as three 0-based vertex
/// indices.
pub struct MeshModel {
    pub vertices: Seq<Seq<Seq<u8>>>,
    pub faces: Seq<(usize, usize, usize)>,
}

pub open spec fn empty_model() -> MeshModel {
    MeshModel { vertices: Seq::empty(), faces: Seq::empty() }
}

/// Why a geometry text was refused.
#[derive(Clone, Copy, Debug, PartialEq, Eq, Structural)]
pub enum ObjError {
    /// A `v` record with fewer than three coordinates.
    MissingCoordinate,
    /// An `f` record with fewer than three vertex indices.
    MissingVertexIndex,
    /// A vertex index that is not an unsigned integer.
    InvalidVertexIndex,
    /// A vertex index that is `0` or names a vertex not declared before it.
    VertexIndexOutOfRange,
}

/// An `f` record, given its words: indices are read left to right, and only
/// when all three read are they looked up.
pub open spec fn face_record(w: Seq<Seq<u8>>, m: MeshModel) -> Result<MeshModel, ObjError> {
    let n = m.vertices.len();
    if w.len() < 2 {
        Err(ObjError::MissingVertexIndex)
    } else if !is_index(w[1]) {
        Err(ObjError::InvalidVertexIndex)
    } else if w.len() < 3 {
        Err(ObjError::MissingVertexIndex)
    } else if !is_index(w[2]) {
        Err(ObjError::InvalidVertexIndex)
    } else if w.len() < 4 {
        Err(ObjError::MissingVertexIndex)
    } else if !is_index(w[3]) {
        Err(ObjError::InvalidVertexIndex)
    } else if !(names_vertex(w[1], n) && names_vertex(w[2], n) && names_vertex(w[3], n)) {
        Err(ObjError::VertexIndexOutOfRange)
    } else {
        let face = (
            (index_value(w[1]) - 1) as usize,
            (index_value(w[2]) - 1) as usize,
            (index_value(w[3]) - 1) as usize,
        );
        Ok(MeshModel { vertices: m.vertices, faces: m.faces.push(face) })
    }
}

/// A `v` record, given its words: the three tokens after the keyword.
pub open spec fn vertex_record(w: Seq<Seq<u8>>, m: MeshModel) -> Result<MeshModel, ObjError> {
    if w.len() < 4 {
        Err(ObjError::MissingCoordinate)
    } else {
        Ok(MeshModel { vertices: m.vertices.push(w.subrange(1, 4)), faces: m.faces })
    }
}

/// One line, given its words. Lines of another keyword, and blank lines, are
/// passed over; words after the third operand are ignored.
pub open spec fn record(w: Seq<Seq<u8>>, m: MeshModel) -> Result<MeshModel, ObjError> {
    if w.len() == 0 {
        Ok(m)
    } else if w[0] == seq![118u8] {
        vertex_record(w, m)
    } else if w[0] == seq![102u8] {
        face_record(w, m)
    } else {
        Ok(m)
    }
}

/// The lines read in order; the first refused line decides the error.
pub open spec fn parse_lines(ls: Seq<Seq<u8>>) -> Result<MeshModel, ObjError>
    decreases ls.len(),
{
    if ls.len() == 0 {
        Ok(empty_model())
    } else {
        match parse_lines(ls.drop_last()) {
            Ok(m) => record(words(ls.last()), m),
            Err(e) => Err(e),
        }
    }
}

/// What a whole geometry text declares, or why it is refused.
pub open spec fn parse_text(t: Seq<u8>) -> Result<MeshModel, ObjError> {
    parse_lines(split_lines(t))
}

/// A run of digits is worth at least as much as any of its prefixes.
proof fn lemma_prefix_value_le(d: Seq<u8>, k: int)
    requires
        0 <= k <= d.len(),
        forall|i: int| 0 <= i < d.len() ==> is_digit(#[trigger] d[i]),
    ensures
        decimal_value(d.take(k)) <= decimal_value(d),
    decreases d.len(),
{
    if k < d.len() {
        let p = d.drop_last();
        assert forall|i: int| 0 <= i < p.len() implies is_digit(#[trigger] p[i]) by {
            assert(p[i] == d[i]);
        }
        lemma_prefix_value_le(p, k);
        assert(p.take(k) =~= d.take(k));
    } else {
        assert(d.take(k) =~= d);
    }
}

/// Reads a vertex index token as an unsigned integer.
fn parse_index(s: &Vec<u8>) -> (r: Option<usize>)
    ensures
        match r {
            Some(v) => is_index(s@) && v as nat == index_value(s@),
            None => !is_index(s@),
        },
{
    let start: usize = if s.len() > 0 && s[0] == 43u8 {
        1
    } else {
        0
    };
    let ghost d = unsigned_digits(s@);
    assert(d =~= s@.subrange(start as int, s@.len() as int));
    if start >= s.len() {
        return None;
    }
    let mut v: usize = 0;
    let mut i: usize = start;
    while i < s.len()
        invariant
            start <= i <= s@.len(),
            d == s@.subrange(start as int, s@.len() as int),
            d == unsigned_digits(s@),
            v as nat == decimal_value(d.take(i - start)),
            forall|k: int| 0 <= k < i - start ==> is_digit(#[trigger] d[k]),
        decreases s.len() - i,
    {
        let b = s[i];
        let ghost j = i - start;
        assert(d[j] == b);
        if b < 48u8 || b > 57u8 {
            assert(!is_digit(d[j]));
            assert(!is_index(s@));
            return None;
        }
        let digit = (b - 48u8) as usize;
        assert(d.take(j + 1).drop_last() =~= d.take(j));
        assert(decimal_value(d.take(j + 1)) == decimal_value(d.take(j)) * 10 + digit);
        if v > (usize::MAX - digit) / 10 {
            proof {
                let m = usize::MAX as int;
                let q = (m - digit) / 10;
                assert(v * 10 + digit > m) by (nonlinear_arith)
                    requires
                        v > q,
                        q == (m - digit) / 10,
                        0 <= digit <= 9,
                        m > 9,
                ;
                if forall|k: int| 0 <= k < d.len() ==> is_digit(#[trigger] d[k]) {
                    lemma_prefix_value_le(d, j + 1);
                }
                assert(!is_index(s@));
            }
            return None;
        }
        proof {
            let m = usize::MAX as int;
            let q = (m - digit) / 10;
            assert(v * 10 + digit <= m) by (nonlinear_arith)
                requires
                    v <= q,
                    q == (m - digit) / 10,
                    0 <= digit <= 9,
            ;
        }
        v = v * 10 + digit;
        i = i + 1;
    }
    assert(d.take(i - start) =~= d);
    Some(v)
}

/// The records of a geometry text that was accepted: the coordinate tokens of
/// each vertex, three per vertex, and each face as three 0-based indices into
/// `vertices`.
#[derive(Debug)]
pub struct ObjMesh {
    pub vertices: Vec<Vec<Vec<u8>>>,
    pub faces: Vec<(usize, usize, usize)>,
}

impl View for ObjMesh {
    type V = MeshModel;

    open spec fn view(&self) -> MeshModel {
        MeshModel { vertices: self.vertices.deep_view(), faces: self.faces@ }
    }
}

fn is_blank_byte(b: u8) -> (r: bool)
    ensures
        r == is_blank(b),
{
    b == 32u8 || (9u8 <= b && b <= 13u8)
}

proof fn lemma_words_nonempty(l: Seq<u8>)
    requires
        l.len() > 0,
        !is_blank(l.last()),
    ensures
        words(l).len() > 0,
    decreases l.len(),
{
    if l.len() >= 2 && !is_blank(l[l.len() - 2]) {
        lemma_words_nonempty(l.drop_last());
    }
}

/// Applies the record that one line's words make to the mesh read so far.
fn apply_record(w: Vec<Vec<u8>>, mesh: &mut ObjMesh) -> (r: Result<(), ObjError>)
    ensures
        match record(w.deep_view(), old(mesh)@) {
            Ok(m) => r is Ok && final(mesh)@ == m,
            Err(e) => r == Err::<(), ObjError>(e),
        },
{
    let ghost wv = w.deep_view();
    assert forall|k: int| 0 <= k < w.len() implies #[trigger] wv[k] == w@[k]@ by {
        assert(wv[k] =~= w@[k]@);
    }
    if w.len() == 0 {
        return Ok(());
    }
    let is_v = w[0].len() == 1 && w[0][0] == 118u8;
    let is_f = w[0].len() == 1 && w[0][0] == 102u8;
    assert(is_v == (wv[0] == seq![118u8])) by {
        if w@[0]@.len() == 1 && w@[0]@[0] == 118u8 {
            assert(wv[0] =~= seq![118u8]);
        }
    }
    assert(is_f == (wv[0] == seq![102u8])) by {
        if w@[0]@.len() == 1 && w@[0]@[0] == 102u8 {
            assert(wv[0] =~= seq![102u8]);
        }
    }
    if is_v {
        if w.len() < 4 {
            return Err(ObjError::MissingCoordinate);
        }
        let mut w = w;
        w.truncate(4);
        let z = w.pop().unwrap();
        let y = w.pop().unwrap();
        let x = w.pop().unwrap();
        let mut coords: Vec<Vec<u8>> = Vec::new();
        coords.push(x);
        coords.push(y);
        coords.push(z);
        assert(coords.deep_view() =~= wv.subrange(1, 4));
        mesh.vertices.push(coords);
        assert(mesh@.vertices =~= old(mesh)@.vertices.push(wv.subrange(1, 4)));
        Ok(())
    } else if is_f {
        let n = mesh.vertices.len();
        if w.len() < 2 {
            return Err(ObjError::MissingVertexIndex);
        }
        let a = match parse_index(&w[1]) {
            Some(a) => a,
            None => return Err(ObjError::InvalidVertexIndex),
        };
        if w.len() < 3 {
            return Err(ObjError::MissingVertexIndex);
        }
        let b = match parse_index(&w[2]) {
            Some(b) => b,
            None => return Err(ObjError::InvalidVertexIndex),
        };
        if w.len() < 4 {
            return Err(ObjError::MissingVertexIndex);
        }
        let c = match parse_index(&w[3]) {
            Some(c) => c,
            None => return Err(ObjError::InvalidVertexIndex),
        };
        if a < 1 || a > n || b < 1 || b > n || c < 1 || c > n {
            return Err(ObjError::VertexIndexOutOfRange);
        }
        mesh.faces.push((a - 1, b - 1, c - 1));
        Ok(())
    } else {
        Ok(())
    }
}

/// Reads a geometry text, line by line. A `v x y z` line declares a vertex
/// from three coordinate tokens; an `f i j k` line declares a face from three
/// 1-based indices of vertices declared on earlier lines. Lines of any other
/// keyword, and blank lines, are passed over. The coordinate tokens are kept
/// as they stand: reading them as numbers is left to the caller.
pub fn parse_obj(text: &[u8]) -> (r: Result<ObjMesh, ObjError>)
    ensures
        match r {
            Ok(mesh) => parse_text(text@) == Ok::<MeshModel, ObjError>(mesh@),
            Err(e) => parse_text(text@) == Err::<MeshModel, ObjError>(e),
        },
{
    let mut mesh = ObjMesh { vertices: Vec::new(), faces: Vec::new() };
    assert(mesh@.vertices =~= empty_model().vertices);
    assert(mesh@.faces =~= empty_model().faces);
    let mut failure: Option<ObjError> = None;
    let mut cur: Vec<Vec<u8>> = Vec::new();
    let mut in_word: bool = false;
    let ghost mut line: Seq<u8> = Seq::empty();
    assert(text@.take(0) =~= Seq::<u8>::empty());
    assert(cur.deep_view() =~= words(line));
    let mut i: usize = 0;
    while i < text.len()
        invariant
            i <= text@.len(),
            split_lines(text@.take(i as int)).len() >= 1,
            split_lines(text@.take(i as int)).last() == line,
            cur.deep_view() == words(line),
            in_word == (line.len() > 0 && !is_blank(line.last())),
            match parse_lines(split_lines(text@.take(i as int)).drop_last()) {
                Ok(m) => failure is None && mesh@ == m,
                Err(e) => failure == Some(e),
            },
        decreases text@.len() - i,
    {
        let b = text[i];
        let ghost sp = split_lines(text@.take(i as int));
        assert(text@.take(i + 1).drop_last() =~= text@.take(i as int));
        assert(text@.take(i + 1).last() == b);
        if b == NEWLINE {
            assert(split_lines(text@.take(i + 1)).drop_last() =~= sp);
            if failure.is_none() {
                match apply_record(cur, &mut mesh) {
                    Ok(()) => {},
                    Err(e) => {
                        failure = Some(e);
                    },
                }
            }
            cur = Vec::new();
            in_word = false;
            proof {
                line = Seq::empty();
            }
            assert(cur.deep_view() =~= words(line));
        } else {
            let ghost next = line.push(b);
            assert(next.drop_last() =~= line);
            assert(split_lines(text@.take(i + 1)).drop_last() =~= sp.drop_last());
            if is_blank_byte(b) {
                in_word = false;
            } else if in_word {
                proof {
                    lemma_words_nonempty(line);
                }
                let ghost before = cur.deep_view();
                let mut last = cur.pop().unwrap();
                assert(cur.deep_view() =~= before.drop_last());
                assert(last.deep_view() =~= before.last());
                last.push(b);
                assert(last.deep_view() =~= before.last().push(b));
                cur.push(last);
                assert(cur.deep_view() =~= before.update(before.len() - 1, before.last().push(b)));
            } else {
                let mut fresh: Vec<u8> = Vec::new();
                fresh.push(b);
                in_word = true;
                assert(fresh.deep_view() =~= seq![b]);
                cur.push(fresh);
                assert(cur.deep_view() =~= words(line).push(seq![b]));
            }
            proof {
                line = next;
            }
        }
        i = i + 1;
    }
    assert(text@.take(i as int) =~= text@);
    if failure.is_none() {
        match apply_record(cur, &mut mesh) {
            Ok(()) => {},
            Err(e) => {
                failure = Some(e);
            },
        }
    }
    match failure {
        Some(e) => Err(e),
        None => Ok(mesh),
    }
}

/// Every face of the model names one of its vertices.
pub open spec fn faces_in_range(m: MeshModel, n: nat) -> bool {
    forall|j: int|
        0 <= j < m.faces.len() ==> {
            let f = #[trigger] m.faces[j];
            f.0 < n && f.1 < n && f.2 < n
        }
}

/// The triangle that a face makes of a list of vertices.
pub open spec fn resolve_face<V>(f: (usize, usize, usize), vs: Seq<V>) -> (V, V, V) {
    (vs[f.0 as int], vs[f.1 as int], vs[f.2 as int])
}

impl ObjMesh {
    /// The faces as triangles over `vertices`, in the order of the text; `None`
    /// where a face names an index that `vertices` does not hold.
    pub fn polygons<V: Copy>(&self, vertices: &Vec<V>) -> (r: Option<Vec<Polygon<V>>>)
        ensures
            match r {
                Some(ps) => faces_in_range(self@, vertices@.len()) && ps@.map_values(
                    |p: Polygon<V>| p@,
                ) == self@.faces.map_values(|f: (usize, usize, usize)| resolve_face(f, vertices@)),
                None => !faces_in_range(self@, vertices@.len()),
            },
    {
        let n = vertices.len();
        let mut ps: Vec<Polygon<V>> = Vec::new();
        let mut j: usize = 0;
        while j < self.faces.len()
            invariant
                j <= self.faces@.len(),
                n == vertices@.len(),
                forall|k: int|
                    0 <= k < j ==> {
                        let f = #[trigger] self.faces@[k];
                        f.0 < n && f.1 < n && f.2 < n
                    },
                ps@.map_values(|p: Polygon<V>| p@) == self.faces@.subrange(0, j as int).map_values(
                    |f: (usize, usize, usize)| resolve_face(f, vertices@),
                ),
            decreases self.faces@.len() - j,
        {
            let (a, b, c) = self.faces[j];
            if a >= n || b >= n || c >= n {
                assert(!faces_in_range(self@, vertices@.len())) by {
                    assert(self@.faces[j as int] == (a, b, c));
                }
                return None;
            }
            let ghost before = ps@.map_values(|p: Polygon<V>| p@);
            ps.push(Polygon::new(vertices[a], vertices[b], vertices[c]));
            j = j + 1;
            assert(ps@.map_values(|p: Polygon<V>| p@) =~= before.push(
                resolve_face(self.faces@[j - 1], vertices@),
            ));
            assert(self.faces@.subrange(0, j as int) =~= self.faces@.subrange(0, j - 1).push(
                self.faces@[j - 1],
            ));
            assert(self.faces@.subrange(0, j as int).map_values(
                |f: (usize, usize, usize)| resolve_face(f, vertices@),
            ) =~= self.faces@.subrange(0, j - 1).map_values(
                |f: (usize, usize, usize)| resolve_face(f, vertices@),
            ).push(resolve_face(self.faces@[j - 1], vertices@)));
        }
        assert(self.faces@.subrange(0, j as int) =~= self.faces@);
        Some(ps)
    }
}

/// A refusal is final: once the first `j` lines are refused, so is every
/// longer run of lines that begins with them, with the same error.
proof fn lemma_refusal_sticks(ls: Seq<Seq<u8>>, j: int, e: ObjError)
    requires
        0 <= j <= ls.len(),
        parse_lines(ls.take(j)) == Err::<MeshModel, ObjError>(e),
    ensures
        parse_lines(ls) == Err::<MeshModel, ObjError>(e),
    decreases ls.len(),
{
    if j == ls.len() {
        assert(ls.take(j) =~= ls);
    } else {
        let p = ls.drop_last();
        assert(p.take(j) =~= ls.take(j));
        lemma_refusal_sticks(p, j, e);
    }
}

proof fn lemma_lines_faces_in_range(ls: Seq<Seq<u8>>)
    ensures
        parse_lines(ls) matches Ok(m) ==> faces_in_range(m, m.vertices.len()),
    decreases ls.len(),
{
    if ls.len() > 0 {
        lemma_lines_faces_in_range(ls.drop_last());
        if let Ok(m) = parse_lines(ls.drop_last()) {
            if let Ok(m2) = record(words(ls.last()), m) {
                assert forall|j: int| 0 <= j < m2.faces.len() implies {
                    let f = #[trigger] m2.faces[j];
                    f.0 < m2.vertices.len() && f.1 < m2.vertices.len() && f.2 < m2.vertices.len()
                } by {
                    if j < m.faces.len() {
                        assert(m2.faces[j] == m.faces[j]);
                    }
                }
            }
        }
    }
}

/// Every face of an accepted text names a vertex that the text declares.
pub proof fn lemma_accepted_faces_in_range(t: Seq<u8>)
    ensures
        parse_text(t) matches Ok(m) ==> faces_in_range(m, m.vertices.len()),
{
    lemma_lines_faces_in_range(split_lines(t));
}

/// The words of an `f` line whose three indices read as integers, one of
/// which is `0` or greater than `n`.
pub open spec fn names_unknown_vertex(w: Seq<Seq<u8>>, n: nat) -> bool {
    &&& w.len() >= 4
    &&& w[0] == seq![102u8]
    &&& is_index(w[1]) && is_index(w[2]) && is_index(w[3])
    &&& !(names_vertex(w[1], n) && names_vertex(w[2], n) && names_vertex(w[3], n))
}

/// A face that names index `0`, or a vertex not declared on an earlier line,
/// has the whole text refused as out of range: no other vertex stands in.
pub proof fn lemma_unknown_vertex_refused(t: Seq<u8>, k: int)
    requires
        0 <= k < split_lines(t).len(),
        parse_lines(split_lines(t).take(k)) is Ok,
        names_unknown_vertex(
            words(split_lines(t)[k]),
            parse_lines(split_lines(t).take(k))->Ok_0.vertices.len(),
        ),
    ensures
        parse_text(t) == Err::<MeshModel, ObjError>(ObjError::VertexIndexOutOfRange),
{
    let ls = split_lines(t);
    let upto = ls.take(k + 1);
    assert(upto.drop_last() =~= ls.take(k));
    assert(upto.last() == ls[k]);
    let w = words(ls[k]);
    let m = parse_lines(ls.take(k))->Ok_0;
    assert(w[0] != seq![118u8]) by {
        assert(w[0][0] != seq![118u8][0]);
    }
    assert(face_record(w, m) == Err::<MeshModel, ObjError>(ObjError::VertexIndexOutOfRange));
    assert(parse_lines(upto) == record(w, m));
    lemma_refusal_sticks(ls, k + 1, ObjError::VertexIndexOutOfRange);
}

} // verus!

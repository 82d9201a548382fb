//! The line-oriented mesh description: what kind of record a line holds, and
//! the face records, three `vertex/texture/normal` groups of 1-based indices.

use vstd::prelude::*;
use vstd::string::StringSliceAdditionalSpecFns;

verus! {

/// One corner of a face: zero-based indices into the vertex, texture
/// coordinate and normal lists.
#[derive(Clone, Copy, Debug, PartialEq, Eq, Structural)]
pub struct Face {
    pub vertex_index: usize,
    pub texture_index: usize,
    pub norm_index: usize,
}

/// Why a line of a mesh description cannot be read.
#[derive(Clone, Copy, Debug, PartialEq, Eq, Structural)]
pub enum MeshError {
    /// A face line without three well-formed `v/t/n` groups.
    MalformedFace,
}

/// ASCII whitespace: space, tab, line feed, form feed, carriage return.
pub open spec fn is_space(b: u8) -> bool {
    b == 32 || b == 9 || b == 10 || b == 12 || b == 13
}

pub open spec fn is_digit(b: u8) -> bool {
    48 <= b <= 57
}

/// The first position at or after `i` that holds no whitespace, or the length.
pub open spec fn skip_spaces(s: Seq<u8>, i: int) -> int
    decreases s.len() - i,
{
    if i >= s.len() {
        s.len() as int
    } else if is_space(s[i]) {
        skip_spaces(s, i + 1)
    } else {
        i
    }
}

/// The first position at or after `i` that holds whitespace, or the length.
pub open spec fn word_end(s: Seq<u8>, i: int) -> int
    decreases s.len() - i,
{
    if i >= s.len() {
        s.len() as int
    } else if is_space(s[i]) {
        i
    } else {
        word_end(s, i + 1)
    }
}

/// The first position in `[i, e)` that holds `/`, or `e`.
pub open spec fn slash_pos(s: Seq<u8>, i: int, e: int) -> int
    decreases e - i,
{
    if i >= e {
        e
    } else if s[i] == 47 {
        i
    } else {
        slash_pos(s, i + 1, e)
    }
}

/// The span `(start, end)` of the `k`-th whitespace-separated word at or
/// after `from`; a word that does not exist starts at the length.
pub open spec fn word_bounds(s: Seq<u8>, from: int, k: nat) -> (int, int)
    decreases k,
{
    let prev_end = if k == 0 {
        from
    } else {
        word_bounds(s, from, (k - 1) as nat).1
    };
    let b = skip_spaces(s, prev_end);
    (b, word_end(s, b))
}

/// The decimal value of the digits in `[i, j)`.
pub open spec fn digits_value(s: Seq<u8>, i: int, j: int) -> int
    decreases j - i,
{
    if j <= i {
        0
    } else {
        digits_value(s, i, j - 1) * 10 + (s[j - 1] - 48)
    }
}

pub open spec fn all_digits(s: Seq<u8>, i: int, j: int) -> bool {
    forall|k: int| i <= k < j ==> is_digit(#[trigger] s[k])
}

/// The zero-based index that the bytes `[i, j)` write 1-based: an optional
/// `+` and at least one digit, with a value from 1 to `i32::MAX`.
pub open spec fn index_in(s: Seq<u8>, i: int, j: int) -> Option<usize> {
    let d = if i < j && s[i] == 43 {
        i + 1
    } else {
        i
    };
    if d < j && all_digits(s, d, j) && 1 <= digits_value(s, d, j) <= i32::MAX {
        Some((digits_value(s, d, j) - 1) as usize)
    } else {
        None
    }
}

/// The corner that the word `[b, e)` writes as `vertex/texture/normal`;
/// parts after a third `/` are ignored.
pub open spec fn corner_in(s: Seq<u8>, b: int, e: int) -> Option<Face> {
    let p0 = slash_pos(s, b, e);
    let p1 = slash_pos(s, p0 + 1, e);
    let p2 = slash_pos(s, p1 + 1, e);
    let v = index_in(s, b, p0);
    let t = index_in(s, p0 + 1, p1);
    let n = index_in(s, p1 + 1, p2);
    if p0 < e && p1 < e && v is Some && t is Some && n is Some {
        Some(Face { vertex_index: v->Some_0, texture_index: t->Some_0, norm_index: n->Some_0 })
    } else {
        None
    }
}

/// The face that the bytes from `from` on write: their first three words are
/// its corners; later words are ignored.
pub open spec fn face_in(s: Seq<u8>, from: int) -> Result<[Face; 3], MeshError> {
    let w0 = word_bounds(s, from, 0);
    let w1 = word_bounds(s, from, 1);
    let w2 = word_bounds(s, from, 2);
    let c0 = corner_in(s, w0.0, w0.1);
    let c1 = corner_in(s, w1.0, w1.1);
    let c2 = corner_in(s, w2.0, w2.1);
    if w0.0 < s.len() && w1.0 < s.len() && w2.0 < s.len() && c0 is Some && c1 is Some
        && c2 is Some {
        Ok([c0->Some_0, c1->Some_0, c2->Some_0])
    } else {
        Err(MeshError::MalformedFace)
    }
}

proof fn lemma_digits_grow(s: Seq<u8>, d: int, k: int, j: int)
    requires
        d <= k <= j,
        all_digits(s, d, j),
    ensures
        0 <= digits_value(s, d, k) <= digits_value(s, d, j),
    decreases j - k,
{
    if k < j {
        lemma_digits_grow(s, d, k, j - 1);
        assert(is_digit(s[j - 1]));
    } else {
        lemma_digits_nonneg(s, d, k);
    }
}

proof fn lemma_digits_nonneg(s: Seq<u8>, d: int, k: int)
    requires
        all_digits(s, d, k),
    ensures
        0 <= digits_value(s, d, k),
    decreases k - d,
{
    if k > d {
        lemma_digits_nonneg(s, d, k - 1);
        assert(is_digit(s[k - 1]));
    }
}

fn is_space_byte(b: u8) -> (r: bool)
    ensures
        r == is_space(b),
{
    b == 32 || b == 9 || b == 10 || b == 12 || b == 13
}

fn skip_spaces_from(s: &[u8], i: usize) -> (r: usize)
    requires
        i <= s@.len(),
    ensures
        r == skip_spaces(s@, i as int),
        i <= r <= s@.len(),
{
    let mut j = i;
    while j < s.len() && is_space_byte(s[j])
        invariant
            i <= j <= s@.len(),
            skip_spaces(s@, i as int) == skip_spaces(s@, j as int),
        decreases s@.len() - j,
    {
        j = j + 1;
    }
    j
}

fn word_end_from(s: &[u8], i: usize) -> (r: usize)
    requires
        i <= s@.len(),
    ensures
        r == word_end(s@, i as int),
        i <= r <= s@.len(),
{
    let mut j = i;
    while j < s.len() && !is_space_byte(s[j])
        invariant
            i <= j <= s@.len(),
            word_end(s@, i as int) == word_end(s@, j as int),
        decreases s@.len() - j,
    {
        j = j + 1;
    }
    j
}

fn slash_from(s: &[u8], i: usize, e: usize) -> (r: usize)
    requires
        i <= e <= s@.len(),
    ensures
        r == slash_pos(s@, i as int, e as int),
        i <= r <= e,
{
    let mut j = i;
    while j < e && s[j] != 47
        invariant
            i <= j <= e,
            e <= s@.len(),
            slash_pos(s@, i as int, e as int) == slash_pos(s@, j as int, e as int),
        decreases e - j,
    {
        j = j + 1;
    }
    j
}

/// Reads the 1-based index written in `[i, j)` as a zero-based one.
fn parse_index(s: &[u8], i: usize, j: usize) -> (r: Option<usize>)
    requires
        i <= j <= s@.len(),
    ensures
        r == index_in(s@, i as int, j as int),
{
    let d = if i < j && s[i] == 43 {
        i + 1
    } else {
        i
    };
    if d >= j {
        return None;
    }
    let mut v: u64 = 0;
    let mut k = d;
    while k < j
        invariant
            d <= k <= j,
            j <= s@.len(),
            d == (if i < j && s@[i as int] == 43 { i + 1 } else { i as int }),
            v == digits_value(s@, d as int, k as int),
            v <= i32::MAX,
            all_digits(s@, d as int, k as int),
        decreases j - k,
    {
        let b = s[k];
        if b < 48 || b > 57 {
            return None;
        }
        v = v * 10 + (b - 48) as u64;
        if v > 0x7fff_ffff {
            proof {
                if all_digits(s@, d as int, j as int) {
                    lemma_digits_grow(s@, d as int, k + 1, j as int);
                }
            }
            return None;
        }
        k = k + 1;
    }
    if v < 1 {
        return None;
    }
    Some((v - 1) as usize)
}

/// Reads the corner that the word `[b, e)` writes.
fn parse_corner(s: &[u8], b: usize, e: usize) -> (r: Option<Face>)
    requires
        b <= e <= s@.len(),
    ensures
        r == corner_in(s@, b as int, e as int),
{
    let p0 = slash_from(s, b, e);
    if p0 >= e {
        return None;
    }
    let p1 = slash_from(s, p0 + 1, e);
    if p1 >= e {
        return None;
    }
    let p2 = slash_from(s, p1 + 1, e);
    let v = parse_index(s, b, p0);
    let t = parse_index(s, p0 + 1, p1);
    let n = parse_index(s, p1 + 1, p2);
    match (v, t, n) {
        (Some(v), Some(t), Some(n)) => Some(Face { vertex_index: v, texture_index: t, norm_index: n }),
        _ => None,
    }
}

/// Reads a face from the bytes of `s` from `from` on.
fn parse_face(s: &[u8], from: usize) -> (r: Result<[Face; 3], MeshError>)
    requires
        from <= s@.len(),
    ensures
        r == face_in(s@, from as int),
{
    let b0 = skip_spaces_from(s, from);
    let e0 = word_end_from(s, b0);
    let b1 = skip_spaces_from(s, e0);
    let e1 = word_end_from(s, b1);
    let b2 = skip_spaces_from(s, e1);
    let e2 = word_end_from(s, b2);
    proof {
        assert(word_bounds(s@, from as int, 0) == (b0 as int, e0 as int));
        assert(word_bounds(s@, from as int, 1) == (b1 as int, e1 as int));
        assert(word_bounds(s@, from as int, 2) == (b2 as int, e2 as int));
    }
    if b2 >= s.len() {
        return Err(MeshError::MalformedFace);
    }
    let c0 = parse_corner(s, b0, e0);
    let c1 = parse_corner(s, b1, e1);
    let c2 = parse_corner(s, b2, e2);
    match (c0, c1, c2) {
        (Some(c0), Some(c1), Some(c2)) => Ok([c0, c1, c2]),
        _ => Err(MeshError::MalformedFace),
    }
}

/// Reads the body of a face line (the text after `f `): three
/// whitespace-separated `vertex/texture/normal` groups of 1-based indices,
/// made zero-based.
pub fn face_from_str(s: &str) -> (r: Result<[Face; 3], MeshError>)
    ensures
        r == face_in(s.spec_bytes(), 0),
{
    parse_face(s.as_bytes(), 0)
}

/// What a line of a mesh description holds. For vertex, texture coordinate
/// and normal lines, `[start, end)` is the byte range of the numbers that
/// follow the two-byte prefix, without trailing whitespace.
#[derive(Clone, Copy, Debug, PartialEq, Eq)]
pub enum LineKind {
    Blank,
    Comment,
    Vertex { start: usize, end: usize },
    TextureCoord { start: usize, end: usize },
    Normal { start: usize, end: usize },
    Face([Face; 3]),
    Unsupported,
}

/// The end of `[0, e)` once trailing whitespace is dropped.
pub open spec fn trim_end_pos(s: Seq<u8>, e: int) -> int
    decreases e,
{
    if e <= 0 {
        0
    } else if is_space(s[e - 1]) {
        trim_end_pos(s, e - 1)
    } else {
        e
    }
}

/// The kind of the line `s`, read after leading and trailing whitespace is
/// dropped: empty, a `#` comment, or by its prefix `v `, `f `, `vt` or `vn`;
/// anything else is unsupported. A face line must hold a well-formed face.
pub open spec fn line_kind(s: Seq<u8>) -> Result<LineKind, MeshError> {
    let a = skip_spaces(s, 0);
    let t = trim_end_pos(s, s.len() as int);
    if a >= t {
        Ok(LineKind::Blank)
    } else if s[a] == 35 {
        Ok(LineKind::Comment)
    } else if t - a >= 2 && s[a] == 118 && s[a + 1] == 32 {
        Ok(LineKind::Vertex { start: (a + 2) as usize, end: t as usize })
    } else if t - a >= 2 && s[a] == 102 && s[a + 1] == 32 {
        match face_in(s, a + 2) {
            Ok(f) => Ok(LineKind::Face(f)),
            Err(e) => Err(e),
        }
    } else if t - a >= 2 && s[a] == 118 && s[a + 1] == 116 {
        Ok(LineKind::TextureCoord { start: (a + 2) as usize, end: t as usize })
    } else if t - a >= 2 && s[a] == 118 && s[a + 1] == 110 {
        Ok(LineKind::Normal { start: (a + 2) as usize, end: t as usize })
    } else {
        Ok(LineKind::Unsupported)
    }
}

fn trim_end_from(s: &[u8]) -> (r: usize)
    ensures
        r == trim_end_pos(s@, s@.len() as int),
        r <= s@.len(),
{
    let mut e = s.len();
    while e > 0 && is_space_byte(s[e - 1])
        invariant
            e <= s@.len(),
            trim_end_pos(s@, s@.len() as int) == trim_end_pos(s@, e as int),
        decreases e,
    {
        e = e - 1;
    }
    e
}

/// Classifies one line of a mesh description, and reads it if it is a face.
pub fn classify_line(line: &str) -> (r: Result<LineKind, MeshError>)
    ensures
        r == line_kind(line.spec_bytes()),
{
    let s = line.as_bytes();
    let a = skip_spaces_from(s, 0);
    let t = trim_end_from(s);
    if a >= t {
        Ok(LineKind::Blank)
    } else if s[a] == 35 {
        Ok(LineKind::Comment)
    } else if t - a >= 2 && s[a] == 118 && s[a + 1] == 32 {
        Ok(LineKind::Vertex { start: a + 2, end: t })
    } else if t - a >= 2 && s[a] == 102 && s[a + 1] == 32 {
        match parse_face(s, a + 2) {
            Ok(f) => Ok(LineKind::Face(f)),
            Err(e) => Err(e),
        }
    } else if t - a >= 2 && s[a] == 118 && s[a + 1] == 116 {
        Ok(LineKind::TextureCoord { start: a + 2, end: t })
    } else if t - a >= 2 && s[a] == 118 && s[a + 1] == 110 {
        Ok(LineKind::Normal { start: a + 2, end: t })
    } else {
        Ok(LineKind::Unsupported)
    }
}

/// Every corner of the face refers to an existing vertex, texture
/// coordinate and normal.
pub open spec fn face_in_bounds(f: [Face; 3], vertices: int, textures: int, normals: int) -> bool {
    forall|k: int|
        0 <= k < 3 ==> (#[trigger] f[k]).vertex_index < vertices && f[k].texture_index < textures
            && f[k].norm_index < normals
}

/// Whether every face refers only to existing vertices, texture coordinates
/// and normals, as a loaded mesh must.
pub fn faces_in_bounds(faces: &Vec<[Face; 3]>, vertices: usize, textures: usize, normals: usize) -> (r:
    bool)
    ensures
        r == (forall|i: int|
            0 <= i < faces@.len() ==> face_in_bounds(
                #[trigger] faces@[i],
                vertices as int,
                textures as int,
                normals as int,
            )),
{
    let mut i: usize = 0;
    while i < faces.len()
        invariant
            0 <= i <= faces@.len(),
            forall|j: int|
                0 <= j < i ==> face_in_bounds(
                    #[trigger] faces@[j],
                    vertices as int,
                    textures as int,
                    normals as int,
                ),
        decreases faces@.len() - i,
    {
        let f = faces[i];
        let mut k: usize = 0;
        while k < 3
            invariant
                0 <= k <= 3,
                i < faces@.len(),
                f == faces@[i as int],
                forall|m: int|
                    0 <= m < k ==> (#[trigger] f[m]).vertex_index < vertices && f[m].texture_index
                        < textures && f[m].norm_index < normals,
            decreases 3 - k,
        {
            if f[k].vertex_index >= vertices || f[k].texture_index >= textures || f[k].norm_index
                >= normals {
                proof {
                    assert(!face_in_bounds(f, vertices as int, textures as int, normals as int));
                    assert(!face_in_bounds(faces@[i as int], vertices as int, textures as int, normals as int));
                }
                return false;
            }
            k = k + 1;
        }
        i = i + 1;
    }
    true
}

} // verus!

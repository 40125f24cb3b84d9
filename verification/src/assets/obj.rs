//! Wavefront OBJ parsing.
//!
//! Indices are 1-based and may be negative; every distinct combination of
//! position, texture coordinate and normal becomes one vertex; faces of any size
//! are fanned into triangles. Winding is preserved as authored. Coordinates are
//! kept as the number texts of the file.

use vstd::prelude::*;
use crate::engine::error::EngineError;
use crate::text::chars_of;
use crate::text::decimal;
use crate::text::find_char;
use crate::text::integer_of;
use crate::text::is_number;
use crate::text::is_number_text;
use crate::text::is_space;
use crate::text::lemma_find_char;
use crate::text::lemma_skip_space;
use crate::text::lemma_skip_word;
use crate::text::lemma_words_len;
use crate::text::parse_i64;
use crate::text::push_decimal;
use crate::text::quote;
use crate::text::quoted;
use crate::text::skip_space;
use crate::text::skip_word;
use crate::text::spells;
use crate::text::split_words;
use crate::text::string_of;
use crate::text::trim;
use crate::text::trimmed;
use crate::text::word_views;
use crate::text::words;
use crate::text::words_from;

verus! {

// --- indices -----------------------------------------------------------------

/// The element an index names in a list of `count`: positive indices are
/// 1-based, negative ones count back from the end, and 0 names nothing.
pub open spec fn resolved(raw: int, count: int) -> Option<int> {
    if 0 < raw <= count {
        Some(raw - 1)
    } else if -count <= raw < 0 {
        Some(count + raw)
    } else {
        None
    }
}

/// Resolve an index against a list length.
pub fn resolve_index(raw: i64, count: usize) -> (r: Option<usize>)
    ensures
        match resolved(raw as int, count as int) {
            Some(i) => r == Some(i as usize) && i < count,
            None => r is None,
        },
{
    if raw > 0 {
        let index: u64 = (raw - 1) as u64;
        if index < count as u64 {
            Some(index as usize)
        } else {
            None
        }
    } else if raw < 0 {
        let from_end: u64 = if raw == i64::MIN {
            0x8000_0000_0000_0000
        } else {
            (-raw) as u64
        };
        if from_end <= count as u64 {
            Some(count - from_end as usize)
        } else {
            None
        }
    } else {
        None
    }
}

/// `1` names the first element and `-1` the last; an index and its negative
/// counterpart name the same element, and nothing else names anything.
pub proof fn law_indices_are_one_based_from_either_end(raw: int, count: int)
    requires
        count >= 0,
    ensures
        resolved(raw, count) is Some <==> raw != 0 && -count <= raw <= count,
        resolved(raw, count) matches Some(i) ==> 0 <= i < count,
        0 < raw <= count ==> resolved(raw, count) == resolved(raw - count - 1, count),
        count > 0 ==> resolved(1, count) == Some(0int) && resolved(-1, count) == Some(count - 1),
{
}

/// One face vertex: positions in the position, normal and texture coordinate
/// lists.
#[derive(Clone, Copy, Debug, PartialEq, Eq, Structural)]
pub struct FaceVertex {
    pub position: usize,
    pub normal: Option<usize>,
    pub texcoord: Option<usize>,
}

/// How many elements of each kind a file has defined so far.
#[derive(Clone, Copy, Debug)]
pub struct Counts {
    pub positions: usize,
    pub normals: usize,
    pub texcoords: usize,
}

/// The position of the first `/` at or after `i`, or the end.
pub open spec fn slash_from(s: Seq<char>, i: int) -> int
    decreases s.len() - i,
{
    if 0 <= i < s.len() && s[i] != '/' {
        slash_from(s, i + 1)
    } else {
        i
    }
}

/// What the part of a face vertex between `from` and `to` names, without the
/// white space around it.
pub open spec fn part_index(s: Seq<char>, from: int, to: int, count: int) -> Option<int> {
    match integer_of(trimmed(s.subrange(from, to))) {
        Some(n) if i64::MIN <= n <= i64::MAX => resolved(n, count),
        _ => None,
    }
}

/// An optional part: absent when the field has no such part or it is blank.
/// The outer option is `None` when the part is there and names nothing.
pub open spec fn optional_index(s: Seq<char>, slash: int, count: int) -> Option<Option<usize>> {
    let end = slash_from(s, slash + 1);
    if slash >= s.len() || trimmed(s.subrange(slash + 1, end)).len() == 0 {
        Some(None)
    } else {
        match part_index(s, slash + 1, end, count) {
            Some(i) => Some(Some(i as usize)),
            None => None,
        }
    }
}

/// The face vertex a field `position/texcoord/normal` names. The last two parts
/// may be left out or blank, and parts after the third are ignored.
pub open spec fn corner_of(s: Seq<char>, counts: Counts) -> Option<FaceVertex> {
    let first = slash_from(s, 0);
    let second = slash_from(s, first + 1);
    match part_index(s, 0, first, counts.positions as int) {
        None => None,
        Some(position) => match optional_index(s, first, counts.texcoords as int) {
            None => None,
            Some(texcoord) => match if first >= s.len() {
                Some(None)
            } else {
                optional_index(s, second, counts.normals as int)
            } {
                None => None,
                Some(normal) => Some(
                    FaceVertex { position: position as usize, normal, texcoord },
                ),
            },
        },
    }
}

fn find_slash(s: &[char], i: usize) -> (r: usize)
    requires
        i <= s@.len(),
    ensures
        r == slash_from(s@, i as int),
        i <= r <= s@.len(),
{
    let mut k: usize = i;
    while k < s.len() && s[k] != '/'
        invariant
            i <= k <= s@.len(),
            slash_from(s@, i as int) == slash_from(s@, k as int),
        decreases s.len() - k,
    {
        k = k + 1;
    }
    k
}

fn read_part(s: &[char], from: usize, to: usize, count: usize) -> (r: Option<usize>)
    requires
        from <= to <= s@.len(),
    ensures
        match part_index(s@, from as int, to as int, count as int) {
            Some(i) => r == Some(i as usize) && i < count,
            None => r is None,
        },
{
    match parse_i64(trim(vstd::slice::slice_subrange(s, from, to))) {
        Some(raw) => resolve_index(raw, count),
        None => None,
    }
}

fn read_optional(s: &[char], slash: usize, count: usize) -> (r: Option<Option<usize>>)
    requires
        slash <= s@.len(),
    ensures
        r == optional_index(s@, slash as int, count as int),
        r matches Some(Some(i)) ==> i < count,
{
    if slash >= s.len() {
        return Some(None);
    }
    let end: usize = find_slash(s, slash + 1);
    if trim(vstd::slice::slice_subrange(s, slash + 1, end)).len() == 0 {
        return Some(None);
    }
    match read_part(s, slash + 1, end, count) {
        Some(i) => Some(Some(i)),
        None => None,
    }
}

/// Every index of a face vertex lies inside its list.
pub open spec fn corner_in_range(corner: FaceVertex, counts: Counts) -> bool {
    &&& corner.position < counts.positions
    &&& corner.normal matches Some(i) ==> i < counts.normals
    &&& corner.texcoord matches Some(i) ==> i < counts.texcoords
}

/// Parse a face vertex.
pub fn parse_face_vertex(s: &[char], counts: &Counts) -> (r: Option<FaceVertex>)
    ensures
        r == corner_of(s@, *counts),
        r matches Some(corner) ==> corner_in_range(corner, *counts),
{
    let first: usize = find_slash(s, 0);
    let position: usize = match read_part(s, 0, first, counts.positions) {
        Some(i) => i,
        None => {
            return None;
        },
    };
    let texcoord: Option<usize> = match read_optional(s, first, counts.texcoords) {
        Some(part) => part,
        None => {
            return None;
        },
    };
    if first >= s.len() {
        return Some(FaceVertex { position, normal: None, texcoord });
    }
    let second: usize = find_slash(s, first + 1);
    match read_optional(s, second, counts.normals) {
        Some(normal) => Some(FaceVertex { position, normal, texcoord }),
        None => None,
    }
}

// --- vertices ----------------------------------------------------------------

/// The distinct face vertices after one more is used.
pub open spec fn with_corner(corners: Seq<FaceVertex>, corner: FaceVertex) -> Seq<FaceVertex> {
    if corners.contains(corner) {
        corners
    } else {
        corners.push(corner)
    }
}

/// The distinct face vertices after those of a face are used, in order.
pub open spec fn with_corners(corners: Seq<FaceVertex>, face: Seq<FaceVertex>) -> Seq<FaceVertex>
    decreases face.len(),
{
    if face.len() == 0 {
        corners
    } else {
        with_corner(with_corners(corners, face.drop_last()), face.last())
    }
}

/// The corner of a fan that its `k`-th index uses: triangles (0, 1, 2),
/// (0, 2, 3), (0, 3, 4) and so on.
pub open spec fn fan_slot(k: int) -> int {
    if k % 3 == 0 {
        0
    } else {
        k / 3 + k % 3
    }
}

/// The vertex numbers of a face's triangle fan.
pub open spec fn fan_indices(corners: Seq<FaceVertex>, face: Seq<FaceVertex>) -> Seq<int> {
    Seq::new((3 * (face.len() - 2)) as nat, |k: int| corners.index_of(face[fan_slot(k)]))
}

/// How many vertices a mesh can number with 32 bits.
pub const MAX_VERTICES: u64 = 0x1_0000_0000;

/// Distinct face vertices, found again by their position.
struct VertexTable {
    corners: Vec<FaceVertex>,
    /// For each position, the vertices that use it.
    users: Vec<Vec<u32>>,
}

impl VertexTable {
    spec fn wf(&self) -> bool {
        &&& self.corners@.len() <= MAX_VERTICES
        &&& self.corners@.no_duplicates()
        &&& forall|v: int|
            0 <= v < self.corners@.len() ==> {
                let p = (#[trigger] self.corners@[v]).position as int;
                p < self.users@.len() && self.users@[p]@.contains(v as u32)
            }
        &&& forall|p: int, k: int|
            0 <= p < self.users@.len() && 0 <= k < self.users@[p]@.len() ==> (
            #[trigger] self.users@[p]@[k]) < self.corners@.len()
    }

    fn new() -> (r: Self)
        ensures
            r.wf(),
            r.corners@ == Seq::<FaceVertex>::empty(),
            r.users@.len() == 0,
    {
        VertexTable { corners: Vec::new(), users: Vec::new() }
    }

    /// Make room for one more position.
    fn add_position(&mut self)
        requires
            old(self).wf(),
        ensures
            final(self).wf(),
            final(self).corners == old(self).corners,
            final(self).users@.len() == old(self).users@.len() + 1,
    {
        let none: Vec<u32> = Vec::new();
        self.users.push(none);
        proof {
            assert forall|v: int| 0 <= v < self.corners@.len() implies ({
                let p = (#[trigger] self.corners@[v]).position as int;
                p < self.users@.len() && self.users@[p]@.contains(v as u32)
            }) by {
                assert(old(self).corners@[v] == self.corners@[v]);
            }
            assert forall|p: int, k: int|
                0 <= p < self.users@.len() && 0 <= k < self.users@[p]@.len() implies (
            #[trigger] self.users@[p]@[k]) < self.corners@.len() by {
                assert(old(self).users@[p]@[k] == self.users@[p]@[k]);
            }
        }
    }

    /// The vertex of a corner, added if it is new.
    fn vertex_of(&mut self, corner: FaceVertex) -> (r: u32)
        requires
            old(self).wf(),
            with_corner(old(self).corners@, corner).len() <= MAX_VERTICES,
            corner.position < old(self).users@.len(),
        ensures
            final(self).wf(),
            final(self).users@.len() == old(self).users@.len(),
            final(self).corners@ == with_corner(old(self).corners@, corner),
            r < final(self).corners@.len(),
            final(self).corners@[r as int] == corner,
    {
        let p: usize = corner.position;
        let mut k: usize = 0;
        while k < self.users[p].len()
            invariant
                self.wf(),
                *self == *old(self),
                p == corner.position,
                p < self.users@.len(),
                k <= self.users@[p as int]@.len(),
                forall|j: int|
                    0 <= j < k ==> self.corners@[(#[trigger] self.users@[p as int]@[j]) as int]
                        != corner,
            decreases self.users@[p as int]@.len() - k,
        {
            let v: u32 = self.users[p][k];
            assert(self.users@[p as int]@[k as int] == v);
            if self.corners[v as usize] == corner {
                assert(self.corners@.contains(corner));
                return v;
            }
            k = k + 1;
        }
        proof {
            if self.corners@.contains(corner) {
                let v = choose|v: int|
                    0 <= v < self.corners@.len() && self.corners@[v] == corner;
                assert(self.users@[p as int]@.contains(v as u32));
                let j = choose|j: int|
                    0 <= j < self.users@[p as int]@.len() && self.users@[p as int]@[j] == v as u32;
                assert(self.corners@[self.users@[p as int]@[j] as int] != corner);
            }
        }
        let v: u32 = self.corners.len() as u32;
        let ghost before = *self;
        self.corners.push(corner);
        self.users[p].push(v);
        proof {
            let here = self.users@[p as int]@;
            assert(here == before.users@[p as int]@.push(v));
            assert forall|w: int| 0 <= w < self.corners@.len() implies ({
                let q = (#[trigger] self.corners@[w]).position as int;
                q < self.users@.len() && self.users@[q]@.contains(w as u32)
            }) by {
                let q = self.corners@[w].position as int;
                if w < before.corners@.len() {
                    assert(before.corners@[w] == self.corners@[w]);
                    assert(before.users@[q]@.contains(w as u32));
                    if q == p {
                        let j = choose|j: int|
                            0 <= j < before.users@[q]@.len() && before.users@[q]@[j] == w as u32;
                        assert(here[j] == w as u32);
                    } else {
                        assert(self.users@[q] == before.users@[q]);
                    }
                } else {
                    assert(here[here.len() - 1] == v);
                }
            }
            assert forall|q: int, j: int|
                0 <= q < self.users@.len() && 0 <= j < self.users@[q]@.len() implies (
            #[trigger] self.users@[q]@[j]) < self.corners@.len() by {
                if q == p {
                    if j < before.users@[q]@.len() {
                        assert(before.users@[q]@[j] == here[j]);
                    }
                } else {
                    assert(before.users@[q]@[j] == self.users@[q]@[j]);
                }
            }
        }
        v
    }
}

// --- lines -------------------------------------------------------------------

/// What the lines of a file have said so far.
pub struct Parsed {
    pub name: Option<Seq<char>>,
    /// Three number texts per position.
    pub positions: Seq<Seq<Seq<char>>>,
    /// Three number texts for each position that carries a colour.
    pub colors: Seq<Option<Seq<Seq<char>>>>,
    /// Three number texts per normal.
    pub normals: Seq<Seq<Seq<char>>>,
    pub texcoords: nat,
    /// The distinct face vertices, in order of first use.
    pub corners: Seq<FaceVertex>,
    /// Three vertex numbers per triangle.
    pub indices: Seq<int>,
    pub triangulated: nat,
    pub skipped: nat,
}

/// A file of which nothing has been read.
pub open spec fn nothing_parsed() -> Parsed {
    Parsed {
        name: None,
        positions: seq![],
        colors: seq![],
        normals: seq![],
        texcoords: 0,
        corners: seq![],
        indices: seq![],
        triangulated: 0,
        skipped: 0,
    }
}

impl Parsed {
    pub open spec fn counts(self) -> Counts {
        Counts {
            positions: self.positions.len() as usize,
            normals: self.normals.len() as usize,
            texcoords: self.texcoords as usize,
        }
    }
}

/// A line without its comment, which starts at `#` anywhere on the line.
pub open spec fn before_comment(line: Seq<char>) -> Seq<char> {
    line.subrange(0, find_char(line, 0, '#'))
}

/// A message about a line.
pub open spec fn at_line(number: nat, message: Seq<char>) -> Seq<char> {
    "line "@ + decimal(number) + ": "@ + message
}

/// The first of the fields `i` to `n - 1` that is not a number.
pub open spec fn bad_field(fields: Seq<Seq<char>>, i: int, n: int) -> Option<int>
    decreases n - i,
{
    if i >= n {
        None
    } else if !is_number_text(fields[i]) {
        Some(i)
    } else {
        bad_field(fields, i + 1, n)
    }
}

/// The complaint about a field that is not a number.
pub open spec fn bad_number(number: nat, field: Seq<char>) -> Seq<char> {
    at_line(number, "expected a number, found "@ + quoted(field))
}

/// Fields joined by single spaces.
pub open spec fn joined(fields: Seq<Seq<char>>) -> Seq<char>
    decreases fields.len(),
{
    if fields.len() == 0 {
        seq![]
    } else if fields.len() == 1 {
        fields[0]
    } else {
        joined(fields.drop_last()) + " "@ + fields.last()
    }
}

/// The corners of a face, if every field names one.
pub open spec fn corners_of(fields: Seq<Seq<char>>, counts: Counts) -> Option<Seq<FaceVertex>>
    decreases fields.len(),
{
    if fields.len() == 0 {
        Some(seq![])
    } else {
        match (corners_of(fields.drop_last(), counts), corner_of(fields.last(), counts)) {
            (Some(before), Some(corner)) => Some(before.push(corner)),
            _ => None,
        }
    }
}

/// A vertex line.
pub open spec fn vertex_line(st: Parsed, fields: Seq<Seq<char>>, number: nat) -> Result<
    Parsed,
    Seq<char>,
> {
    let n: int = if fields.len() >= 6 {
        6
    } else {
        3
    };
    if fields.len() < 3 {
        Err(at_line(number, "vertex needs at least three coordinates"@))
    } else {
        match bad_field(fields, 0, n) {
            Some(i) => Err(bad_number(number, fields[i])),
            None => Ok(
                Parsed {
                    positions: st.positions.push(fields.subrange(0, 3)),
                    colors: st.colors.push(
                        if n == 6 {
                            Some(fields.subrange(3, 6))
                        } else {
                            None
                        },
                    ),
                    ..st
                },
            ),
        }
    }
}

/// A normal line.
pub open spec fn normal_line(st: Parsed, fields: Seq<Seq<char>>, number: nat) -> Result<
    Parsed,
    Seq<char>,
> {
    if fields.len() < 3 {
        Err(at_line(number, "normal needs three components"@))
    } else {
        match bad_field(fields, 0, 3) {
            Some(i) => Err(bad_number(number, fields[i])),
            None => Ok(Parsed { normals: st.normals.push(fields.subrange(0, 3)), ..st }),
        }
    }
}

/// A texture coordinate line: one or two numbers.
pub open spec fn texcoord_line(st: Parsed, fields: Seq<Seq<char>>, number: nat) -> Result<
    Parsed,
    Seq<char>,
> {
    let n: int = if fields.len() >= 2 {
        2
    } else {
        1
    };
    if fields.len() == 0 {
        Err(at_line(number, "texture coordinate needs at least one value"@))
    } else {
        match bad_field(fields, 0, n) {
            Some(i) => Err(bad_number(number, fields[i])),
            None => Ok(Parsed { texcoords: st.texcoords + 1, ..st }),
        }
    }
}

/// A face line. A face with fewer than three corners, or with one that names
/// nothing, is skipped whole and counted.
pub open spec fn face_line(st: Parsed, fields: Seq<Seq<char>>) -> Parsed {
    match corners_of(fields, st.counts()) {
        Some(face) if fields.len() >= 3 => {
            let corners = with_corners(st.corners, face);
            Parsed {
                corners,
                indices: st.indices + fan_indices(corners, face),
                triangulated: st.triangulated + (if face.len() > 3 {
                    1nat
                } else {
                    0nat
                }),
                ..st
            }
        },
        _ => Parsed { skipped: st.skipped + 1, ..st },
    }
}

/// What one line says. The name is that of the last `o` line that has one;
/// unknown directives say nothing.
pub open spec fn line_step(st: Parsed, line: Seq<char>, number: nat) -> Result<Parsed, Seq<char>> {
    let w = words(before_comment(line));
    let fields = w.subrange(1, w.len() as int);
    if w.len() == 0 {
        Ok(st)
    } else if w[0] == "v"@ {
        vertex_line(st, fields, number)
    } else if w[0] == "vn"@ {
        normal_line(st, fields, number)
    } else if w[0] == "vt"@ {
        texcoord_line(st, fields, number)
    } else if w[0] == "o"@ {
        if fields.len() == 0 {
            Ok(st)
        } else {
            Ok(Parsed { name: Some(joined(fields)), ..st })
        }
    } else if w[0] == "f"@ {
        Ok(face_line(st, fields))
    } else {
        Ok(st)
    }
}

/// What the lines from position `i` on add, the first of them being line
/// `number`.
pub open spec fn lines_from(s: Seq<char>, i: int, number: nat, st: Parsed) -> Result<
    Parsed,
    Seq<char>,
>
    decreases s.len() + 1 - i,
    when 0 <= i
{
    let end = find_char(s, i, '\n');
    proof {
        lemma_find_char(s, i, '\n');
    }
    if i >= s.len() {
        Ok(st)
    } else {
        match line_step(st, s.subrange(i, end), number) {
            Err(text) => Err(text),
            Ok(next) => lines_from(s, end + 1, number + 1, next),
        }
    }
}

/// How many vertices the lines from position `i` on have defined once reading
/// ends, be it at the end of the file or at a line that is refused.
pub open spec fn vertices_read(s: Seq<char>, i: int, number: nat, st: Parsed) -> nat
    decreases s.len() + 1 - i,
    when 0 <= i
{
    let end = find_char(s, i, '\n');
    proof {
        lemma_find_char(s, i, '\n');
    }
    if i >= s.len() {
        st.corners.len()
    } else {
        match line_step(st, s.subrange(i, end), number) {
            Err(_) => st.corners.len(),
            Ok(next) => vertices_read(s, end + 1, number + 1, next),
        }
    }
}

/// What a file says, or the complaint about it.
pub open spec fn parsed(s: Seq<char>) -> Result<Parsed, Seq<char>> {
    match lines_from(s, 0, 1, nothing_parsed()) {
        Err(text) => Err(text),
        Ok(st) => if st.corners.len() == 0 {
            Err("OBJ file produced no geometry (no usable 'f' lines?)"@)
        } else {
            Ok(st)
        },
    }
}

// --- the parsed model ----------------------------------------------------------

/// Three number texts.
#[derive(Clone, Debug)]
pub struct Coords {
    pub x: String,
    pub y: String,
    pub z: String,
}

impl Coords {
    pub open spec fn texts(&self) -> Seq<Seq<char>> {
        seq![self.x@, self.y@, self.z@]
    }

    fn copy(&self) -> (r: Self)
        ensures
            r.texts() == self.texts(),
    {
        Coords { x: self.x.clone(), y: self.y.clone(), z: self.z.clone() }
    }
}

/// The texts of coordinates that may be absent.
pub open spec fn optional_texts(c: Option<Coords>) -> Option<Seq<Seq<char>>> {
    match c {
        Some(c) => Some(c.texts()),
        None => None,
    }
}

/// One vertex of a mesh. A vertex without a normal needs one computed from the
/// winding of its triangles.
#[derive(Clone, Debug)]
pub struct MeshVertex {
    pub position: Coords,
    pub normal: Option<Coords>,
    pub color: Coords,
}

/// The colour of a vertex for which the file gives none: a light grey.
pub open spec fn default_color() -> Seq<Seq<char>> {
    seq!["0.75"@, "0.75"@, "0.75"@]
}

/// A triangle mesh.
#[derive(Clone, Debug)]
pub struct Mesh {
    pub vertices: Vec<MeshVertex>,
    /// Three vertex numbers per triangle.
    pub indices: Vec<u32>,
}

/// A parsed OBJ file.
#[derive(Clone, Debug)]
pub struct ObjModel {
    /// Object name from the last `o` directive, if any.
    pub name: Option<String>,
    pub mesh: Mesh,
    /// Faces that were fanned into more than one triangle.
    pub triangulated_faces: usize,
    /// Faces skipped as unusable.
    pub skipped_faces: usize,
}

/// The text of a name that may be absent.
pub open spec fn name_text(name: Option<String>) -> Option<Seq<char>> {
    match name {
        Some(s) => Some(s@),
        None => None,
    }
}

/// A vertex holds what its corner names.
pub open spec fn vertex_is(v: MeshVertex, st: Parsed, corner: FaceVertex) -> bool {
    &&& v.position.texts() == st.positions[corner.position as int]
    &&& optional_texts(v.normal) == (match corner.normal {
        Some(i) => Some(st.normals[i as int]),
        None => None,
    })
    &&& v.color.texts() == (match st.colors[corner.position as int] {
        Some(texts) => texts,
        None => default_color(),
    })
}

impl ObjModel {
    /// The model is what the file said.
    pub open spec fn describes(&self, st: Parsed) -> bool {
        &&& name_text(self.name) == st.name
        &&& self.mesh.vertices@.len() == st.corners.len()
        &&& forall|v: int|
            0 <= v < st.corners.len() ==> vertex_is(
                #[trigger] self.mesh.vertices@[v],
                st,
                st.corners[v],
            )
        &&& self.mesh.indices@.len() == st.indices.len()
        &&& forall|k: int|
            0 <= k < st.indices.len() ==> #[trigger] self.mesh.indices@[k] == st.indices[k]
        &&& self.triangulated_faces == st.triangulated
        &&& self.skipped_faces == st.skipped
    }
}

/// What has been read, in executable form.
struct Builder {
    name: Option<String>,
    positions: Vec<Coords>,
    colors: Vec<Option<Coords>>,
    normals: Vec<Coords>,
    texcoords: usize,
    table: VertexTable,
    indices: Vec<u32>,
    triangulated: usize,
    skipped: usize,
}

impl Builder {
    spec fn model(&self) -> Parsed {
        Parsed {
            name: name_text(self.name),
            positions: Seq::new(self.positions@.len(), |i: int| self.positions@[i].texts()),
            colors: Seq::new(self.colors@.len(), |i: int| optional_texts(self.colors@[i])),
            normals: Seq::new(self.normals@.len(), |i: int| self.normals@[i].texts()),
            texcoords: self.texcoords as nat,
            corners: self.table.corners@,
            indices: Seq::new(self.indices@.len(), |i: int| self.indices@[i] as int),
            triangulated: self.triangulated as nat,
            skipped: self.skipped as nat,
        }
    }

    spec fn counts(&self) -> Counts {
        Counts {
            positions: self.positions@.len() as usize,
            normals: self.normals@.len() as usize,
            texcoords: self.texcoords,
        }
    }

    spec fn wf(&self) -> bool {
        &&& self.table.wf()
        &&& self.table.users@.len() == self.positions@.len()
        &&& self.colors@.len() == self.positions@.len()
        &&& forall|v: int|
            0 <= v < self.table.corners@.len() ==> corner_in_range(
                #[trigger] self.table.corners@[v],
                self.counts(),
            )
    }
}

fn line_error(number: usize, message: &str) -> (r: EngineError)
    ensures
        r.is_invalid_state(at_line(number as nat, message@)),
{
    let mut s = String::from_str("line ");
    push_decimal(&mut s, number as u64);
    s.append(": ");
    s.append(message);
    EngineError::InvalidState(s)
}

fn number_error(number: usize, field: &[char]) -> (r: EngineError)
    ensures
        r.is_invalid_state(bad_number(number as nat, field@)),
{
    let mut s = String::from_str("expected a number, found ");
    s.append(quote(string_of(field).as_str()).as_str());
    line_error(number, s.as_str())
}

/// Check that the first `n` fields are numbers.
fn check_numbers(fields: &Vec<Vec<char>>, n: usize, number: usize) -> (r: Result<(), EngineError>)
    requires
        n <= fields@.len(),
    ensures
        match bad_field(word_views(fields@), 0, n as int) {
            None => r is Ok,
            Some(i) => 0 <= i < n && (r matches Err(e) && e.is_invalid_state(
                bad_number(number as nat, fields@[i]@),
            )),
        },
{
    let mut i: usize = 0;
    while i < n
        invariant
            i <= n <= fields@.len(),
            bad_field(word_views(fields@), 0, n as int) == bad_field(
                word_views(fields@),
                i as int,
                n as int,
            ),
        decreases n - i,
    {
        assert(word_views(fields@)[i as int] == fields@[i as int]@);
        if !is_number(fields[i].as_slice()) {
            return Err(number_error(number, fields[i].as_slice()));
        }
        i = i + 1;
    }
    Ok(())
}

fn read_coords(fields: &Vec<Vec<char>>, from: usize) -> (r: Coords)
    requires
        from + 3 <= fields@.len(),
    ensures
        r.texts() == word_views(fields@).subrange(from as int, from + 3),
{
    assert(from + 3 <= fields.len());
    let r = Coords {
        x: string_of(fields[from].as_slice()),
        y: string_of(fields[from + 1].as_slice()),
        z: string_of(fields[from + 2].as_slice()),
    };
    assert(r.texts() =~= word_views(fields@).subrange(from as int, from + 3));
    r
}

/// Join words with single spaces.
fn join(fields: &Vec<Vec<char>>) -> (r: String)
    ensures
        r@ == joined(word_views(fields@)),
{
    let mut s = String::new();
    let mut i: usize = 0;
    assert(word_views(fields@).take(0) =~= seq![]);
    while i < fields.len()
        invariant
            i <= fields@.len(),
            s@ == joined(word_views(fields@).take(i as int)),
        decreases fields.len() - i,
    {
        let ghost next = word_views(fields@).take(i + 1);
        assert(next.drop_last() =~= word_views(fields@).take(i as int));
        assert(next.last() == fields@[i as int]@);
        if i > 0 {
            s.append(" ");
        } else {
            assert(s@ + fields@[0]@ =~= fields@[0]@);
        }
        s.append(string_of(fields[i].as_slice()).as_str());
        i = i + 1;
    }
    assert(word_views(fields@).take(fields@.len() as int) =~= word_views(fields@));
    s
}

/// Resolve every corner of a face.
fn read_corners(fields: &Vec<Vec<char>>, counts: &Counts) -> (r: Option<Vec<FaceVertex>>)
    ensures
        match corners_of(word_views(fields@), *counts) {
            Some(face) => r matches Some(v) && v@ == face && face.len() == fields@.len() && forall|
                i: int,
            |
                0 <= i < face.len() ==> corner_in_range(#[trigger] face[i], *counts),
            None => r is None,
        },
{
    let mut face: Vec<FaceVertex> = Vec::new();
    let mut i: usize = 0;
    assert(word_views(fields@).take(0) =~= seq![]);
    while i < fields.len()
        invariant
            i <= fields@.len(),
            face@.len() == i,
            corners_of(word_views(fields@).take(i as int), *counts) == Some(face@),
            forall|j: int| 0 <= j < i ==> corner_in_range(#[trigger] face@[j], *counts),
        decreases fields.len() - i,
    {
        let ghost next = word_views(fields@).take(i + 1);
        proof {
            assert(next.drop_last() =~= word_views(fields@).take(i as int));
            assert(next.last() == fields@[i as int]@);
        }
        match parse_face_vertex(fields[i].as_slice(), counts) {
            Some(corner) => {
                face.push(corner);
            },
            None => {
                proof {
                    lemma_bad_corner(word_views(fields@), i as int, *counts);
                }
                return None;
            },
        }
        i = i + 1;
    }
    assert(word_views(fields@).take(fields@.len() as int) =~= word_views(fields@));
    Some(face)
}

/// One field that names nothing spoils the whole face.
proof fn lemma_bad_corner(fields: Seq<Seq<char>>, i: int, counts: Counts)
    requires
        0 <= i < fields.len(),
        corner_of(fields[i], counts) is None,
    ensures
        corners_of(fields, counts) is None,
    decreases fields.len(),
{
    if i < fields.len() - 1 {
        assert(fields.drop_last()[i] == fields[i]);
        lemma_bad_corner(fields.drop_last(), i, counts);
    }
}

/// A later corner never renumbers an earlier vertex.
pub(crate) proof fn lemma_with_corners(corners: Seq<FaceVertex>, face: Seq<FaceVertex>)
    requires
        corners.no_duplicates(),
    ensures
        with_corners(corners, face).no_duplicates(),
        corners.len() <= with_corners(corners, face).len() <= corners.len() + face.len(),
        forall|i: int|
            0 <= i < face.len() ==> with_corners(corners, face).contains(#[trigger] face[i]),
        forall|v: int|
            0 <= v < corners.len() ==> with_corners(corners, face)[v] == #[trigger] corners[v],
        forall|v: int|
            corners.len() <= v < with_corners(corners, face).len() ==> face.contains(
                #[trigger] with_corners(corners, face)[v],
            ),
    decreases face.len(),
{
    if face.len() > 0 {
        let rest = face.drop_last();
        let before = with_corners(corners, rest);
        let after = with_corners(corners, face);
        lemma_with_corners(corners, rest);
        assert(after =~= before || after =~= before.push(face.last()));
        assert(after.contains(face.last())) by {
            if !before.contains(face.last()) {
                assert(after[after.len() - 1] == face.last());
            }
        }
        assert forall|i: int| 0 <= i < face.len() implies after.contains(#[trigger] face[i]) by {
            if i < rest.len() {
                assert(rest[i] == face[i]);
                let v = choose|v: int| 0 <= v < before.len() && before[v] == rest[i];
                assert(after[v] == face[i]);
            }
        }
        assert forall|v: int| corners.len() <= v < after.len() implies face.contains(
            #[trigger] after[v],
        ) by {
            if v < before.len() {
                assert(rest.contains(before[v]));
                let i = choose|i: int| 0 <= i < rest.len() && rest[i] == before[v];
                assert(face[i] == after[v]);
            } else {
                assert(face[face.len() - 1] == after[v]);
            }
        }
    }
}

/// Using more corners takes no vertex away.
proof fn lemma_with_more_corners(corners: Seq<FaceVertex>, face: Seq<FaceVertex>, n: int)
    requires
        0 <= n <= face.len(),
    ensures
        with_corners(corners, face.take(n)).len() <= with_corners(corners, face).len(),
    decreases face.len(),
{
    if n < face.len() {
        assert(face.drop_last().take(n) =~= face.take(n));
        lemma_with_more_corners(corners, face.drop_last(), n);
    } else {
        assert(face.take(n) =~= face);
    }
}

/// In a sequence without duplicates an element stands at its own index.
pub(crate) proof fn lemma_index_of(corners: Seq<FaceVertex>, v: int)
    requires
        corners.no_duplicates(),
        0 <= v < corners.len(),
    ensures
        corners.index_of(corners[v]) == v,
{
    let i = corners.index_of(corners[v]);
    assert(corners.contains(corners[v]));
    assert(0 <= i < corners.len() && corners[i] == corners[v]);
}

impl Builder {
    fn current_counts(&self) -> (r: Counts)
        ensures
            r == self.counts(),
            r == self.model().counts(),
    {
        Counts {
            positions: self.positions.len(),
            normals: self.normals.len(),
            texcoords: self.texcoords,
        }
    }

    fn add_vertex(&mut self, fields: &Vec<Vec<char>>, number: usize) -> (r: Result<(), EngineError>)
        requires
            old(self).wf(),
            old(self).positions@.len() < usize::MAX,
        ensures
            match vertex_line(old(self).model(), word_views(fields@), number as nat) {
                Ok(next) => r is Ok && final(self).model() == next && final(self).wf(),
                Err(text) => r matches Err(e) && e.is_invalid_state(text),
            },
    {
        if fields.len() < 3 {
            return Err(line_error(number, "vertex needs at least three coordinates"));
        }
        let n: usize = if fields.len() >= 6 {
            6
        } else {
            3
        };
        match check_numbers(fields, n, number) {
            Ok(()) => {},
            Err(e) => {
                return Err(e);
            },
        }
        let ghost before = *self;
        self.positions.push(read_coords(fields, 0));
        let color: Option<Coords> = if n == 6 {
            Some(read_coords(fields, 3))
        } else {
            None
        };
        self.colors.push(color);
        self.table.add_position();
        proof {
            let next = vertex_line(before.model(), word_views(fields@), number as nat)->Ok_0;
            assert(self.model().positions =~= next.positions);
            assert(self.model().colors =~= next.colors);
            assert(self.model().normals =~= next.normals);
            assert(self.model().indices =~= next.indices);
            assert forall|v: int| 0 <= v < self.table.corners@.len() implies corner_in_range(
                #[trigger] self.table.corners@[v],
                self.counts(),
            ) by {
                assert(corner_in_range(before.table.corners@[v], before.counts()));
            }
        }
        Ok(())
    }

    fn add_normal(&mut self, fields: &Vec<Vec<char>>, number: usize) -> (r: Result<(), EngineError>)
        requires
            old(self).wf(),
            old(self).normals@.len() < usize::MAX,
        ensures
            match normal_line(old(self).model(), word_views(fields@), number as nat) {
                Ok(next) => r is Ok && final(self).model() == next && final(self).wf(),
                Err(text) => r matches Err(e) && e.is_invalid_state(text),
            },
    {
        if fields.len() < 3 {
            return Err(line_error(number, "normal needs three components"));
        }
        match check_numbers(fields, 3, number) {
            Ok(()) => {},
            Err(e) => {
                return Err(e);
            },
        }
        let ghost before = *self;
        self.normals.push(read_coords(fields, 0));
        proof {
            let next = normal_line(before.model(), word_views(fields@), number as nat)->Ok_0;
            assert(self.model().positions =~= next.positions);
            assert(self.model().colors =~= next.colors);
            assert(self.model().normals =~= next.normals);
            assert(self.model().indices =~= next.indices);
            assert forall|v: int| 0 <= v < self.table.corners@.len() implies corner_in_range(
                #[trigger] self.table.corners@[v],
                self.counts(),
            ) by {
                assert(corner_in_range(before.table.corners@[v], before.counts()));
            }
        }
        Ok(())
    }

    fn add_texcoord(&mut self, fields: &Vec<Vec<char>>, number: usize) -> (r: Result<
        (),
        EngineError,
    >)
        requires
            old(self).wf(),
            old(self).texcoords < usize::MAX,
        ensures
            match texcoord_line(old(self).model(), word_views(fields@), number as nat) {
                Ok(next) => r is Ok && final(self).model() == next && final(self).wf(),
                Err(text) => r matches Err(e) && e.is_invalid_state(text),
            },
    {
        if fields.len() == 0 {
            return Err(line_error(number, "texture coordinate needs at least one value"));
        }
        let n: usize = if fields.len() >= 2 {
            2
        } else {
            1
        };
        match check_numbers(fields, n, number) {
            Ok(()) => {},
            Err(e) => {
                return Err(e);
            },
        }
        let ghost before = *self;
        self.texcoords = self.texcoords + 1;
        proof {
            let next = texcoord_line(before.model(), word_views(fields@), number as nat)->Ok_0;
            assert(self.model().positions =~= next.positions);
            assert(self.model().colors =~= next.colors);
            assert(self.model().normals =~= next.normals);
            assert(self.model().indices =~= next.indices);
            assert forall|v: int| 0 <= v < self.table.corners@.len() implies corner_in_range(
                #[trigger] self.table.corners@[v],
                self.counts(),
            ) by {
                assert(corner_in_range(before.table.corners@[v], before.counts()));
            }
        }
        Ok(())
    }

    /// Number the corners of a face, adding those that are new.
    fn number_corners(&mut self, face: &Vec<FaceVertex>) -> (r: Vec<u32>)
        requires
            old(self).wf(),
            with_corners(old(self).table.corners@, face@).len() <= MAX_VERTICES,
            forall|i: int|
                0 <= i < face@.len() ==> corner_in_range(#[trigger] face@[i], old(self).counts()),
        ensures
            final(self).wf(),
            final(self).model() == (Parsed {
                corners: with_corners(old(self).table.corners@, face@),
                ..old(self).model()
            }),
            r@.len() == face@.len(),
            forall|i: int|
                0 <= i < face@.len() ==> (#[trigger] r@[i]) as int
                    == final(self).table.corners@.index_of(face@[i]),
    {
        let ghost start = self.table.corners@;
        let mut ids: Vec<u32> = Vec::new();
        let mut i: usize = 0;
        assert(face@.take(0) =~= seq![]);
        while i < face.len()
            invariant
                i <= face@.len(),
                self.wf(),
                start == old(self).table.corners@,
                start.no_duplicates(),
                with_corners(start, face@).len() <= MAX_VERTICES,
                self.counts() == old(self).counts(),
                self.table.corners@ == with_corners(start, face@.take(i as int)),
                self.model() == (Parsed {
                    corners: with_corners(start, face@.take(i as int)),
                    ..old(self).model()
                }),
                forall|j: int|
                    0 <= j < face@.len() ==> corner_in_range(#[trigger] face@[j], self.counts()),
                ids@.len() == i,
                forall|j: int|
                    0 <= j < i ==> {
                        &&& (#[trigger] ids@[j]) < self.table.corners@.len()
                        &&& self.table.corners@[ids@[j] as int] == face@[j]
                    },
            decreases face.len() - i,
        {
            let ghost before = *self;
            proof {
                lemma_with_corners(start, face@.take(i as int));
                lemma_with_more_corners(start, face@, i + 1);
                assert(corner_in_range(face@[i as int], self.counts()));
                assert(face@.take(i + 1).drop_last() =~= face@.take(i as int));
                assert(face@.take(i + 1).last() == face@[i as int]);
            }
            let id: u32 = self.table.vertex_of(face[i]);
            ids.push(id);
            proof {
                assert forall|v: int| 0 <= v < self.table.corners@.len() implies corner_in_range(
                    #[trigger] self.table.corners@[v],
                    self.counts(),
                ) by {
                    if v < before.table.corners@.len() {
                        assert(corner_in_range(before.table.corners@[v], before.counts()));
                    }
                }
                assert forall|j: int| 0 <= j < i + 1 implies {
                    &&& (#[trigger] ids@[j]) < self.table.corners@.len()
                    &&& self.table.corners@[ids@[j] as int] == face@[j]
                } by {
                    if j < i {
                        assert(before.table.corners@[ids@[j] as int] == face@[j]);
                    }
                }
                let next = Parsed {
                    corners: with_corners(start, face@.take(i + 1)),
                    ..old(self).model()
                };
                assert(self.model().positions =~= next.positions);
                assert(self.model().colors =~= next.colors);
                assert(self.model().normals =~= next.normals);
                assert(self.model().indices =~= next.indices);
            }
            i = i + 1;
        }
        proof {
            assert(face@.take(face@.len() as int) =~= face@);
            assert forall|j: int| 0 <= j < face@.len() implies (#[trigger] ids@[j]) as int
                == self.table.corners@.index_of(face@[j]) by {
                lemma_index_of(self.table.corners@, ids@[j] as int);
            }
        }
        ids
    }

    fn add_face(&mut self, fields: &Vec<Vec<char>>)
        requires
            old(self).wf(),
            face_line(old(self).model(), word_views(fields@)).corners.len() <= MAX_VERTICES,
            old(self).skipped < usize::MAX,
            old(self).triangulated < usize::MAX,
        ensures
            final(self).wf(),
            final(self).model() == face_line(old(self).model(), word_views(fields@)),
    {
        let ghost start = self.model();
        if fields.len() < 3 {
            self.skipped = self.skipped + 1;
            assert(self.model().positions =~= start.positions);
            assert(self.model().colors =~= start.colors);
            assert(self.model().normals =~= start.normals);
            assert(self.model().indices =~= start.indices);
            return ;
        }
        let counts = self.current_counts();
        let face = match read_corners(fields, &counts) {
            Some(face) => face,
            None => {
                self.skipped = self.skipped + 1;
                assert(self.model().positions =~= start.positions);
                assert(self.model().colors =~= start.colors);
                assert(self.model().normals =~= start.normals);
                assert(self.model().indices =~= start.indices);
                return ;
            },
        };
        if face.len() > 3 {
            self.triangulated = self.triangulated + 1;
        }
        let ghost counted = *self;
        assert(counted.model().positions =~= start.positions);
        assert(counted.model().colors =~= start.colors);
        assert(counted.model().normals =~= start.normals);
        assert(counted.model().indices =~= start.indices);
        let ids = self.number_corners(&face);
        let ghost corners = self.table.corners@;
        let ghost fan = fan_indices(corners, face@);
        let ghost numbered = *self;
        let mut i: usize = 1;
        assert(self.model().indices + fan.take(0) =~= self.model().indices);
        while i < face.len() - 1
            invariant
                1 <= i <= face@.len() - 1,
                ids@.len() == face@.len(),
                fan == fan_indices(corners, face@),
                fan.len() == 3 * (face@.len() - 2),
                forall|j: int|
                    0 <= j < face@.len() ==> (#[trigger] ids@[j]) as int == corners.index_of(
                        face@[j],
                    ),
                self.wf(),
                self.model() == (Parsed {
                    indices: numbered.model().indices + fan.take(3 * (i - 1)),
                    ..numbered.model()
                }),
            decreases face.len() - i,
        {
            let ghost before = *self;
            self.indices.push(ids[0]);
            self.indices.push(ids[i]);
            self.indices.push(ids[i + 1]);
            i = i + 1;
            proof {
                let k = 3 * (i - 2);
                assert(k % 3 == 0 && (k + 1) % 3 == 1 && (k + 2) % 3 == 2);
                assert((k + 1) / 3 == i - 2 && (k + 2) / 3 == i - 2);
                assert(fan[k] == ids@[0]);
                assert(fan[k + 1] == ids@[i - 1]);
                assert(fan[k + 2] == ids@[i as int]);
                assert(self.model().indices =~= before.model().indices.push(fan[k]).push(
                    fan[k + 1],
                ).push(fan[k + 2]));
                assert(fan.take(k + 3) =~= fan.take(k).push(fan[k]).push(fan[k + 1]).push(
                    fan[k + 2],
                ));
                let next = Parsed {
                    indices: numbered.model().indices + fan.take(3 * (i - 1)),
                    ..numbered.model()
                };
                assert(self.model().positions =~= next.positions);
                assert(self.model().colors =~= next.colors);
                assert(self.model().normals =~= next.normals);
                assert(self.model().indices =~= next.indices);
            }
        }
        assert(fan.take(3 * (face@.len() - 2)) =~= fan);
    }
}

/// Counts after some lines are bounded by the characters read.
spec fn bounded(st: Parsed, chars: int) -> bool {
    &&& st.positions.len() <= chars
    &&& st.normals.len() <= chars
    &&& st.texcoords <= chars
    &&& st.triangulated <= chars
    &&& st.skipped <= chars
    &&& st.corners.len() <= chars
    &&& st.corners.no_duplicates()
}

pub(crate) proof fn lemma_face_len(fields: Seq<Seq<char>>, counts: Counts)
    ensures
        corners_of(fields, counts) matches Some(face) ==> face.len() == fields.len(),
    decreases fields.len(),
{
    if fields.len() > 0 {
        lemma_face_len(fields.drop_last(), counts);
    }
}

proof fn lemma_step_bounded(st: Parsed, line: Seq<char>, number: nat, chars: int)
    requires
        bounded(st, chars),
    ensures
        line_step(st, line, number) matches Ok(next) ==> bounded(next, chars + line.len() + 1),
{
    lemma_find_char(line, 0, '#');
    let text = before_comment(line);
    let w = words(text);
    lemma_words_len(text, 0);
    if w.len() > 0 && w[0] == "f"@ {
        let fields = w.subrange(1, w.len() as int);
        lemma_face_len(fields, st.counts());
        if let Some(face) = corners_of(fields, st.counts()) {
            lemma_with_corners(st.corners, face);
        }
    }
}

proof fn lemma_step_distinct(st: Parsed, line: Seq<char>, number: nat)
    requires
        st.corners.no_duplicates(),
    ensures
        line_step(st, line, number) matches Ok(next) ==> next.corners.no_duplicates()
            && st.corners.len() <= next.corners.len(),
{
    let w = words(before_comment(line));
    if w.len() > 0 && w[0] == "f"@ {
        if let Some(face) = corners_of(w.subrange(1, w.len() as int), st.counts()) {
            lemma_with_corners(st.corners, face);
        }
    }
}

proof fn lemma_vertices_grow(s: Seq<char>, i: int, number: nat, st: Parsed)
    requires
        0 <= i,
        st.corners.no_duplicates(),
    ensures
        st.corners.len() <= vertices_read(s, i, number, st),
    decreases s.len() + 1 - i,
{
    let end = find_char(s, i, '\n');
    lemma_find_char(s, i, '\n');
    if i < s.len() {
        lemma_step_distinct(st, s.subrange(i, end), number);
        if let Ok(next) = line_step(st, s.subrange(i, end), number) {
            lemma_vertices_grow(s, end + 1, number + 1, next);
        }
    }
}

proof fn lemma_vertices_bounded(s: Seq<char>, i: int, number: nat, st: Parsed)
    requires
        0 <= i <= s.len() + 1,
        bounded(st, i),
    ensures
        vertices_read(s, i, number, st) <= s.len() + 1,
    decreases s.len() + 1 - i,
{
    let end = find_char(s, i, '\n');
    lemma_find_char(s, i, '\n');
    if i < s.len() {
        lemma_step_bounded(st, s.subrange(i, end), number, i);
        if let Ok(next) = line_step(st, s.subrange(i, end), number) {
            lemma_vertices_bounded(s, end + 1, number + 1, next);
        }
    }
}

fn position_of(s: &[char], from: usize, target: char) -> (r: usize)
    requires
        from <= s@.len(),
    ensures
        r == find_char(s@, from as int, target),
        from <= r <= s@.len(),
{
    let mut k: usize = from;
    while k < s.len() && s[k] != target
        invariant
            from <= k <= s@.len(),
            find_char(s@, from as int, target) == find_char(s@, k as int, target),
        decreases s.len() - k,
    {
        k = k + 1;
    }
    k
}

impl Builder {
    /// Act on one line.
    fn read_line(&mut self, line: &[char], number: usize, Ghost(chars): Ghost<int>) -> (r: Result<
        (),
        EngineError,
    >)
        requires
            old(self).wf(),
            bounded(old(self).model(), chars),
            chars + line@.len() < usize::MAX,
            line_step(old(self).model(), line@, number as nat) matches Ok(next)
                ==> next.corners.len() <= MAX_VERTICES,
        ensures
            match line_step(old(self).model(), line@, number as nat) {
                Ok(next) => r is Ok && final(self).wf() && final(self).model() == next,
                Err(text) => r matches Err(e) && e.is_invalid_state(text),
            },
    {
        let end: usize = position_of(line, 0, '#');
        let mut fields = split_words(vstd::slice::slice_subrange(line, 0, end));
        let ghost w = words(before_comment(line@));
        proof {
            lemma_words_len(before_comment(line@), 0);
            assert(self.model().positions.len() == self.positions@.len());
            assert(self.model().normals.len() == self.normals@.len());
        }
        if fields.len() == 0 {
            return Ok(());
        }
        let keyword = fields.remove(0);
        assert(keyword@ == w[0]);
        assert(word_views(fields@) =~= w.subrange(1, w.len() as int));
        if spells(keyword.as_slice(), "v") {
            self.add_vertex(&fields, number)
        } else if spells(keyword.as_slice(), "vn") {
            self.add_normal(&fields, number)
        } else if spells(keyword.as_slice(), "vt") {
            self.add_texcoord(&fields, number)
        } else if spells(keyword.as_slice(), "o") {
            if fields.len() > 0 {
                let ghost before = *self;
                self.name = Some(join(&fields));
                assert(self.model().positions =~= before.model().positions);
                assert(self.model().colors =~= before.model().colors);
                assert(self.model().normals =~= before.model().normals);
                assert(self.model().indices =~= before.model().indices);
            }
            Ok(())
        } else if spells(keyword.as_slice(), "f") {
            self.add_face(&fields);
            Ok(())
        } else {
            Ok(())
        }
    }

    /// Turn a resolved corner into a vertex.
    fn build_vertex(&self, corner: &FaceVertex) -> (r: MeshVertex)
        requires
            self.wf(),
            corner_in_range(*corner, self.counts()),
        ensures
            vertex_is(r, self.model(), *corner),
    {
        let position = self.positions[corner.position].copy();
        let normal: Option<Coords> = match corner.normal {
            Some(i) => Some(self.normals[i].copy()),
            None => None,
        };
        let color: Coords = match &self.colors[corner.position] {
            Some(c) => c.copy(),
            None => Coords {
                x: "0.75".to_string(),
                y: "0.75".to_string(),
                z: "0.75".to_string(),
            },
        };
        MeshVertex { position, normal, color }
    }
}

/// Parse OBJ source text.
pub fn parse(source: &str) -> (r: Result<ObjModel, EngineError>)
    requires
        source@.len() < usize::MAX,
        vertices_read(source@, 0, 1, nothing_parsed()) <= MAX_VERTICES,
    ensures
        match parsed(source@) {
            Ok(st) => r matches Ok(model) && model.describes(st),
            Err(text) => r matches Err(e) && e.is_invalid_state(text),
        },
{
    let chars = chars_of(source);
    let s: &[char] = chars.as_slice();
    let mut builder = Builder {
        name: None,
        positions: Vec::new(),
        colors: Vec::new(),
        normals: Vec::new(),
        texcoords: 0,
        table: VertexTable::new(),
        indices: Vec::new(),
        triangulated: 0,
        skipped: 0,
    };
    proof {
        let m = builder.model();
        assert(m.positions =~= seq![]);
        assert(m.colors =~= seq![]);
        assert(m.normals =~= seq![]);
        assert(m.corners =~= seq![]);
        assert(m.indices =~= seq![]);
        assert(m == nothing_parsed());
    }
    let mut at: usize = 0;
    let mut number: usize = 1;
    while at < s.len()
        invariant
            s@ == source@,
            s@.len() < usize::MAX,
            at <= s@.len() + 1,
            number <= at + 1,
            builder.wf(),
            bounded(builder.model(), at as int),
            lines_from(source@, 0, 1, nothing_parsed()) == lines_from(
                source@,
                at as int,
                number as nat,
                builder.model(),
            ),
            vertices_read(source@, 0, 1, nothing_parsed()) <= MAX_VERTICES,
            vertices_read(source@, 0, 1, nothing_parsed()) == vertices_read(
                source@,
                at as int,
                number as nat,
                builder.model(),
            ),
        decreases s.len() + 1 - at,
    {
        let end: usize = position_of(s, at, '\n');
        let line = vstd::slice::slice_subrange(s, at, end);
        let ghost before = builder.model();
        proof {
            lemma_step_bounded(before, line@, number as nat, at as int);
            if let Ok(next) = line_step(before, line@, number as nat) {
                lemma_vertices_grow(source@, end + 1, number as nat + 1, next);
            }
        }
        match builder.read_line(line, number, Ghost(at as int)) {
            Ok(()) => {},
            Err(e) => {
                return Err(e);
            },
        }
        number = number + 1;
        at = end + 1;
    }
    assert(lines_from(source@, 0, 1, nothing_parsed()) == Ok::<Parsed, Seq<char>>(builder.model()));
    if builder.table.corners.len() == 0 {
        return Err(
            EngineError::InvalidState(
                String::from_str("OBJ file produced no geometry (no usable 'f' lines?)"),
            ),
        );
    }
    let mut vertices: Vec<MeshVertex> = Vec::new();
    let mut v: usize = 0;
    while v < builder.table.corners.len()
        invariant
            builder.wf(),
            v <= builder.table.corners@.len(),
            vertices@.len() == v,
            forall|j: int|
                0 <= j < v ==> vertex_is(
                    #[trigger] vertices@[j],
                    builder.model(),
                    builder.table.corners@[j],
                ),
        decreases builder.table.corners.len() - v,
    {
        assert(corner_in_range(builder.table.corners@[v as int], builder.counts()));
        let corner = builder.table.corners[v];
        vertices.push(builder.build_vertex(&corner));
        v = v + 1;
    }
    Ok(
        ObjModel {
            name: builder.name,
            mesh: Mesh { vertices, indices: builder.indices },
            triangulated_faces: builder.triangulated,
            skipped_faces: builder.skipped,
        },
    )
}

// --- laws --------------------------------------------------------------------

/// A file has at most one vertex more than characters, so that every file of
/// fewer characters than a mesh can number vertices is one to be parsed.
pub proof fn law_vertices_are_bounded(s: Seq<char>)
    ensures
        vertices_read(s, 0, 1, nothing_parsed()) <= s.len() + 1,
{
    lemma_vertices_bounded(s, 0, 1, nothing_parsed());
}

/// A comment changes nothing about the line it ends.
pub proof fn law_comments_are_ignored(
    st: Parsed,
    line: Seq<char>,
    comment: Seq<char>,
    number: nat,
)
    requires
        !line.contains('#'),
    ensures
        line_step(st, line + seq!['#'] + comment, number) == line_step(st, line, number),
{
    let whole = line + seq!['#'] + comment;
    lemma_first_char(line, whole, 0, '#');
    lemma_no_char(line, 0, '#');
    assert(before_comment(whole) =~= before_comment(line));
}

pub(crate) proof fn lemma_no_char(s: Seq<char>, i: int, target: char)
    requires
        0 <= i <= s.len(),
        !s.contains(target),
    ensures
        find_char(s, i, target) == s.len(),
    decreases s.len() - i,
{
    if i < s.len() {
        assert(s.contains(s[i]));
        lemma_no_char(s, i + 1, target);
    }
}

proof fn lemma_first_char(s: Seq<char>, whole: Seq<char>, i: int, target: char)
    requires
        0 <= i <= s.len() < whole.len(),
        !s.contains(target),
        forall|j: int| 0 <= j < s.len() ==> whole[j] == s[j],
        whole[s.len() as int] == target,
    ensures
        find_char(whole, i, target) == s.len(),
    decreases s.len() - i,
{
    if i < s.len() {
        assert(s.contains(s[i]));
        lemma_first_char(s, whole, i + 1, target);
    }
}

/// What every parsed file satisfies: vertices are distinct, every triangle
/// index names a vertex, and indices come in threes.
pub open spec fn mesh_valid(st: Parsed) -> bool {
    &&& st.corners.no_duplicates()
    &&& st.indices.len() % 3 == 0
    &&& forall|k: int| 0 <= k < st.indices.len() ==> 0 <= #[trigger] st.indices[k] < st.corners.len()
}

proof fn lemma_step_valid(st: Parsed, line: Seq<char>, number: nat)
    requires
        mesh_valid(st),
    ensures
        line_step(st, line, number) matches Ok(next) ==> mesh_valid(next),
{
    let w = words(before_comment(line));
    if w.len() > 0 && w[0] == "f"@ {
        let fields = w.subrange(1, w.len() as int);
        lemma_face_len(fields, st.counts());
        if let Some(face) = corners_of(fields, st.counts()) {
            if fields.len() >= 3 {
                let corners = with_corners(st.corners, face);
                let fan = fan_indices(corners, face);
                let next = face_line(st, fields);
                lemma_with_corners(st.corners, face);
                assert forall|k: int| 0 <= k < next.indices.len() implies 0
                    <= #[trigger] next.indices[k] < next.corners.len() by {
                    if k < st.indices.len() {
                        assert(next.indices[k] == st.indices[k]);
                    } else {
                        let f = k - st.indices.len();
                        let corner = face[fan_slot(f)];
                        assert(next.indices[k] == fan[f]);
                        assert(corners.contains(corner));
                    }
                }
            }
        }
    }
}

pub(crate) proof fn lemma_lines_valid(s: Seq<char>, i: int, number: nat, st: Parsed)
    requires
        0 <= i,
        mesh_valid(st),
    ensures
        lines_from(s, i, number, st) matches Ok(next) ==> mesh_valid(next),
    decreases s.len() + 1 - i,
{
    if i < s.len() {
        let end = find_char(s, i, '\n');
        lemma_find_char(s, i, '\n');
        lemma_step_valid(st, s.subrange(i, end), number);
        if let Ok(next) = line_step(st, s.subrange(i, end), number) {
            lemma_lines_valid(s, end + 1, number + 1, next);
        }
    }
}

/// A file that parses has geometry: at least one vertex, no vertex twice, and
/// whole triangles whose indices all name vertices.
pub proof fn law_parsed_meshes_are_valid(s: Seq<char>)
    ensures
        parsed(s) matches Ok(st) ==> st.corners.len() > 0 && mesh_valid(st),
{
    lemma_lines_valid(s, 0, 1, nothing_parsed());
}

/// A quad is the same surface as its two triangles: the same vertices and the
/// same indices, in the same order.
pub proof fn law_quad_is_two_triangles(
    corners: Seq<FaceVertex>,
    a: FaceVertex,
    b: FaceVertex,
    c: FaceVertex,
    d: FaceVertex,
)
    requires
        corners.no_duplicates(),
    ensures
        ({
            let first = with_corners(corners, seq![a, b, c]);
            let both = with_corners(first, seq![a, c, d]);
            &&& with_corners(corners, seq![a, b, c, d]) == both
            &&& fan_indices(both, seq![a, b, c, d]) == fan_indices(first, seq![a, b, c])
                + fan_indices(both, seq![a, c, d])
        }),
{
    let abc = seq![a, b, c];
    let acd = seq![a, c, d];
    let abcd = seq![a, b, c, d];
    let first = with_corners(corners, abc);
    let both = with_corners(first, acd);
    lemma_with_corners(corners, abc);
    lemma_with_corners(first, acd);
    assert(first.contains(abc[0]) && first.contains(abc[1]) && first.contains(abc[2]));
    reveal_with_fuel(with_corners, 4);
    assert(acd.drop_last() =~= seq![a, c]);
    assert(acd.drop_last().drop_last() =~= seq![a]);
    assert(acd.drop_last().drop_last().drop_last() =~= seq![]);
    assert(abcd.drop_last() =~= abc);
    assert(both == with_corner(first, d));
    assert(with_corners(corners, abcd) == with_corner(with_corners(corners, abcd.drop_last()), d));
    let quad_fan = fan_indices(both, abcd);
    let fans = fan_indices(first, abc) + fan_indices(both, acd);
    assert forall|v: int| 0 <= v < first.len() implies both.index_of(first[v]) == first.index_of(
        #[trigger] first[v],
    ) by {
        lemma_index_of(first, v);
        assert(both[v] == first[v]);
        lemma_index_of(both, v);
    }
    assert(both.index_of(a) == first.index_of(a)) by {
        let v = choose|v: int| 0 <= v < first.len() && first[v] == a;
        assert(first[v] == a);
    }
    assert(both.index_of(b) == first.index_of(b)) by {
        let v = choose|v: int| 0 <= v < first.len() && first[v] == b;
        assert(first[v] == b);
    }
    assert(both.index_of(c) == first.index_of(c)) by {
        let v = choose|v: int| 0 <= v < first.len() && first[v] == c;
        assert(first[v] == c);
    }
    assert(quad_fan.len() == 6 && fans.len() == 6);
    assert forall|k: int| 0 <= k < 6 implies quad_fan[k] == #[trigger] fans[k] by {
        assert(k == 0 || k == 1 || k == 2 || k == 3 || k == 4 || k == 5);
    }
    assert(quad_fan =~= fans);
}

/// How many line ends stand at or after position `i`.
spec fn breaks_from(s: Seq<char>, i: int) -> nat
    decreases s.len() - i,
{
    if 0 <= i < s.len() {
        breaks_from(s, i + 1) + (if s[i] == '\n' {
            1nat
        } else {
            0nat
        })
    } else {
        0
    }
}

proof fn lemma_breaks(s: Seq<char>, i: int)
    requires
        0 <= i <= s.len(),
    ensures
        breaks_from(s, i) == (if find_char(s, i, '\n') < s.len() {
            1 + breaks_from(s, find_char(s, i, '\n') + 1)
        } else {
            0
        }),
    decreases s.len() - i,
{
    if i < s.len() && s[i] != '\n' {
        lemma_breaks(s, i + 1);
    }
}

proof fn lemma_find_in_front(s: Seq<char>, whole: Seq<char>, i: int)
    requires
        0 <= i <= s.len() < whole.len(),
        whole.take(s.len() as int) == s,
        whole[s.len() as int] == '\n',
    ensures
        find_char(whole, i, '\n') == find_char(s, i, '\n'),
    decreases s.len() - i,
{
    if i < s.len() {
        assert(whole.take(s.len() as int)[i] == whole[i]);
        if s[i] != '\n' {
            lemma_find_in_front(s, whole, i + 1);
        }
    }
}

proof fn lemma_empty_line(st: Parsed, number: nat)
    ensures
        line_step(st, seq![], number) == Ok::<Parsed, Seq<char>>(st),
{
    let empty: Seq<char> = seq![];
    assert(find_char(empty, 0, '#') == 0);
    assert(before_comment(empty) =~= empty);
    assert(words(empty) =~= seq![]);
}

/// Reading two texts with a line end between them is reading one and then the
/// other.
proof fn lemma_lines_join(s: Seq<char>, rest: Seq<char>, i: int, number: nat, st: Parsed)
    requires
        0 <= i <= s.len(),
    ensures
        lines_from(s + seq!['\n'] + rest, i, number, st) == (match lines_from(s, i, number, st) {
            Err(text) => Err(text),
            Ok(next) => lines_from(
                s + seq!['\n'] + rest,
                s.len() as int + 1,
                number + breaks_from(s, i) + 1,
                next,
            ),
        }),
    decreases s.len() - i,
{
    let whole = s + seq!['\n'] + rest;
    let end = find_char(s, i, '\n');
    assert(whole.take(s.len() as int) =~= s);
    lemma_find_char(s, i, '\n');
    lemma_find_in_front(s, whole, i);
    lemma_breaks(s, i);
    assert(whole.subrange(i, end) =~= s.subrange(i, end));
    if i == s.len() {
        assert(whole.subrange(i, end) =~= seq![]);
        lemma_empty_line(st, number);
    } else if let Ok(next) = line_step(st, s.subrange(i, end), number) {
        if end < s.len() {
            lemma_lines_join(s, rest, end + 1, number + 1, next);
        } else {
            assert(lines_from(s, end + 1, number + 1, next) == Ok::<Parsed, Seq<char>>(next));
        }
    }
}

/// A line end at the end of a text says nothing.
pub(crate) proof fn lemma_trailing_break(s: Seq<char>)
    ensures
        lines_from(s + seq!['\n'], 0, 1, nothing_parsed()) == lines_from(
            s,
            0,
            1,
            nothing_parsed(),
        ),
{
    let empty: Seq<char> = seq![];
    let whole = s + seq!['\n'] + empty;
    assert(whole =~= s + seq!['\n']);
    lemma_lines_join(s, empty, 0, 1, nothing_parsed());
    if let Ok(st) = lines_from(s, 0, 1, nothing_parsed()) {
        let number = (1 + breaks_from(s, 0) + 1) as nat;
        assert(lines_from(whole, s.len() as int + 1, number, st) == Ok::<Parsed, Seq<char>>(st));
    }
}

proof fn lemma_find_line_end(front: Seq<char>, line: Seq<char>, k: int)
    requires
        0 <= k <= line.len(),
        !line.contains('\n'),
    ensures
        find_char(front + line, front.len() + k, '\n') == front.len() + line.len(),
    decreases line.len() - k,
{
    if k < line.len() {
        assert((front + line)[front.len() + k] == line[k]);
        assert(line.contains(line[k]));
        lemma_find_line_end(front, line, k + 1);
    }
}

/// A text with one more line says what the line adds.
pub(crate) proof fn lemma_line_added(s: Seq<char>, line: Seq<char>) -> (number: nat)
    requires
        line.len() > 0,
        !line.contains('\n'),
    ensures
        lines_from(s + seq!['\n'] + line, 0, 1, nothing_parsed()) == (match lines_from(
            s,
            0,
            1,
            nothing_parsed(),
        ) {
            Err(text) => Err(text),
            Ok(st) => line_step(st, line, number),
        }),
{
    let front = s + seq!['\n'];
    let whole = front + line;
    let number = (1 + breaks_from(s, 0) + 1) as nat;
    lemma_lines_join(s, line, 0, 1, nothing_parsed());
    lemma_find_line_end(front, line, 0);
    assert(whole.subrange(front.len() as int, whole.len() as int) =~= line);
    if let Ok(st) = lines_from(s, 0, 1, nothing_parsed()) {
        if let Ok(next) = line_step(st, line, number) {
            assert(lines_from(whole, whole.len() as int + 1, number + 1, next) == Ok::<
                Parsed,
                Seq<char>,
            >(next));
        }
    }
    number
}

/// A face line that adds no geometry: it has fewer than three corners, or one
/// that names nothing.
pub open spec fn is_unusable_face(line: Seq<char>, counts: Counts) -> bool {
    let w = words(before_comment(line));
    &&& w.len() > 0 && w[0] == "f"@
    &&& w.len() < 4 || exists|i: int|
        1 <= i < w.len() && corner_of(#[trigger] w[i], counts) is None
}

/// An unusable face at the end of a file changes nothing but the count of
/// skipped faces.
pub proof fn law_unusable_faces_only_count(s: Seq<char>, line: Seq<char>)
    requires
        !line.contains('\n'),
        lines_from(s, 0, 1, nothing_parsed()) matches Ok(st) ==> is_unusable_face(
            line,
            st.counts(),
        ),
    ensures
        parsed(s + seq!['\n'] + line + seq!['\n']) == (match parsed(s) {
            Ok(st) => Ok(Parsed { skipped: st.skipped + 1, ..st }),
            Err(text) => Err(text),
        }),
{
    let w = words(before_comment(line));
    let fields = w.subrange(1, w.len() as int);
    lemma_trailing_break(s + seq!['\n'] + line);
    if line.len() > 0 {
        let number = lemma_line_added(s, line);
        if let Ok(st) = lines_from(s, 0, 1, nothing_parsed()) {
            lemma_keywords_differ();
            if fields.len() >= 3 {
                let i = choose|i: int|
                    1 <= i < w.len() && corner_of(#[trigger] w[i], st.counts()) is None;
                assert(fields[i - 1] == w[i]);
                lemma_bad_corner(fields, i - 1, st.counts());
            }
            assert(line_step(st, line, number) == Ok::<Parsed, Seq<char>>(face_line(st, fields)));
        }
    } else {
        assert(before_comment(line) =~= seq![]);
        assert(w =~= seq![]);
        lemma_trailing_break(s);
        assert(s + seq!['\n'] + line =~= s + seq!['\n']);
    }
}

pub(crate) proof fn lemma_keywords_differ()
    ensures
        "f"@ != "v"@ && "f"@ != "vn"@ && "f"@ != "vt"@ && "f"@ != "o"@,
        is_field("f"@),
{
    reveal_strlit("f");
    reveal_strlit("v");
    reveal_strlit("vn");
    reveal_strlit("vt");
    reveal_strlit("o");
    assert("f"@[0] != "v"@[0] && "f"@[0] != "vn"@[0] && "f"@[0] != "vt"@[0] && "f"@[0]
        != "o"@[0]);
}

/// A run of characters that a line can hold as one field.
pub open spec fn is_field(s: Seq<char>) -> bool {
    s.len() > 0 && forall|i: int| 0 <= i < s.len() ==> !is_space(#[trigger] s[i]) && s[i] != '#'
}

proof fn lemma_skips_in_front(x: Seq<char>, word: Seq<char>, i: int)
    requires
        0 <= i <= x.len(),
        is_field(word),
    ensures
        skip_space(x + seq![' '] + word, i) == (if skip_space(x, i) < x.len() {
            skip_space(x, i)
        } else {
            x.len() as int + 1
        }),
        skip_word(x + seq![' '] + word, i) == skip_word(x, i),
    decreases x.len() - i,
{
    let whole = x + seq![' '] + word;
    if i < x.len() {
        assert(whole[i] == x[i]);
        lemma_skips_in_front(x, word, i + 1);
    } else {
        assert(whole[i] == ' ' && is_space(' '));
        assert(whole[i + 1] == word[0]);
        assert(skip_space(whole, i + 1) == i + 1);
    }
}

proof fn lemma_skip_last_word(x: Seq<char>, word: Seq<char>, k: int)
    requires
        0 <= k <= word.len(),
        is_field(word),
    ensures
        skip_word(x + word, x.len() + k) == x.len() + word.len(),
    decreases word.len() - k,
{
    if k < word.len() {
        assert((x + word)[x.len() + k] == word[k]);
        lemma_skip_last_word(x, word, k + 1);
    }
}

proof fn lemma_words_append(x: Seq<char>, word: Seq<char>, i: int)
    requires
        0 <= i <= x.len(),
        is_field(word),
    ensures
        words_from(x + seq![' '] + word, i) == words_from(x, i).push(word),
    decreases x.len() - i,
{
    let whole = x + seq![' '] + word;
    let a = skip_space(x, i);
    lemma_skip_space(x, i);
    lemma_skips_in_front(x, word, i);
    if a < x.len() {
        let b = skip_word(x, a);
        lemma_skip_word(x, a);
        lemma_skips_in_front(x, word, a);
        lemma_words_append(x, word, b);
        assert(whole.subrange(a, b) =~= x.subrange(a, b));
        assert(words_from(whole, i) =~= words_from(x, i).push(word));
    } else {
        let start = x.len() as int + 1;
        lemma_skip_last_word(x + seq![' '], word, 0);
        assert(whole.subrange(start, whole.len() as int) =~= word);
        assert(skip_space(whole, whole.len() as int) == whole.len());
        assert(words_from(whole, whole.len() as int) =~= seq![]);
        assert(words_from(whole, i) =~= words_from(x, i).push(word));
    }
}

/// Fields joined by spaces are the words of the line, and the line holds
/// neither a line end nor a comment.
pub(crate) proof fn lemma_words_of_joined(fields: Seq<Seq<char>>)
    requires
        forall|i: int| 0 <= i < fields.len() ==> is_field(#[trigger] fields[i]),
    ensures
        words(joined(fields)) == fields,
        !joined(fields).contains('\n'),
        !joined(fields).contains('#'),
    decreases fields.len(),
{
    reveal_strlit(" ");
    assert(" "@ =~= seq![' ']);
    assert(is_space(' ') && is_space('\n'));
    let line = joined(fields);
    if fields.len() == 0 {
        assert(words(line) =~= fields);
    } else if fields.len() == 1 {
        let word = fields[0];
        assert(is_field(word));
        lemma_skip_last_word(seq![], word, 0);
        assert(seq![] + word =~= word);
        assert(skip_space(word, 0) == 0);
        assert(word.subrange(0, word.len() as int) =~= word);
        assert(skip_space(word, word.len() as int) == word.len());
        assert(words_from(word, word.len() as int) =~= seq![]);
        assert(words(line) =~= fields);
    } else {
        let before = fields.drop_last();
        let word = fields.last();
        assert(is_field(fields[fields.len() - 1]));
        assert forall|i: int| 0 <= i < before.len() implies is_field(#[trigger] before[i]) by {
            assert(before[i] == fields[i]);
        }
        lemma_words_of_joined(before);
        lemma_words_append(joined(before), word, 0);
        assert(words(line) =~= fields);
        assert forall|k: int| 0 <= k < line.len() implies line[k] != '\n' && line[k] != '#' by {
            let n = joined(before).len();
            if k < n {
                assert(joined(before).contains(joined(before)[k]));
                assert(line[k] == joined(before)[k]);
            } else if k > n {
                assert(line[k] == word[k - n - 1]);
            }
        }
    }
}

/// A face line of the given fields.
pub open spec fn face_of(fields: Seq<Seq<char>>) -> Seq<char> {
    joined(seq!["f"@] + fields)
}

pub(crate) proof fn lemma_face_added(head: Seq<char>, fields: Seq<Seq<char>>)
    requires
        forall|i: int| 0 <= i < fields.len() ==> is_field(#[trigger] fields[i]),
        lines_from(head, 0, 1, nothing_parsed()) is Ok,
    ensures
        lines_from(head + seq!['\n'] + face_of(fields), 0, 1, nothing_parsed()) == Ok::<
            Parsed,
            Seq<char>,
        >(face_line(lines_from(head, 0, 1, nothing_parsed())->Ok_0, fields)),
{
    let w = seq!["f"@] + fields;
    let line = face_of(fields);
    lemma_keywords_differ();
    assert forall|i: int| 0 <= i < w.len() implies is_field(#[trigger] w[i]) by {
        if i > 0 {
            assert(w[i] == fields[i - 1]);
        }
    }
    lemma_words_of_joined(w);
    lemma_no_char(line, 0, '#');
    assert(before_comment(line) =~= line);
    assert(w.subrange(1, w.len() as int) =~= fields);
    if line.len() == 0 {
        assert(words(line) =~= seq![]);
        assert(w[0] == "f"@);
    }
    let _ = lemma_line_added(head, line);
}

/// A quad adds what its two triangles add.
proof fn lemma_quad_face(st: Parsed, a: Seq<char>, b: Seq<char>, c: Seq<char>, d: Seq<char>)
    requires
        mesh_valid(st),
        corner_of(a, st.counts()) is Some,
        corner_of(b, st.counts()) is Some,
        corner_of(c, st.counts()) is Some,
        corner_of(d, st.counts()) is Some,
    ensures
        ({
            let both = face_line(face_line(st, seq![a, b, c]), seq![a, c, d]);
            &&& face_line(st, seq![a, b, c, d]) == (Parsed {
                triangulated: both.triangulated + 1,
                ..both
            })
            &&& both.triangulated == st.triangulated
            &&& both.skipped == st.skipped
            &&& both.corners.len() > 0
        }),
{
    let counts = st.counts();
    let abcd = seq![a, b, c, d];
    let (pa, pb, pc, pd) = (
        corner_of(a, counts)->Some_0,
        corner_of(b, counts)->Some_0,
        corner_of(c, counts)->Some_0,
        corner_of(d, counts)->Some_0,
    );
    lemma_corners_of_three(a, b, c, counts);
    lemma_corners_of_three(a, c, d, counts);
    assert(abcd.drop_last() =~= seq![a, b, c]);
    assert(corners_of(abcd, counts) == Some(seq![pa, pb, pc].push(pd)));
    assert(seq![pa, pb, pc].push(pd) =~= seq![pa, pb, pc, pd]);
    law_quad_is_two_triangles(st.corners, pa, pb, pc, pd);
    let first = face_line(st, seq![a, b, c]);
    let both = face_line(first, seq![a, c, d]);
    assert(first.counts() == counts);
    assert(face_line(st, abcd).indices =~= both.indices);
    lemma_with_corners(st.corners, seq![pa, pb, pc]);
    lemma_with_corners(first.corners, seq![pa, pc, pd]);
    assert(first.corners.contains(seq![pa, pb, pc][0]));
}

/// An index of 0 names nothing, whatever the file has defined.
proof fn lemma_zero_names_nothing(counts: Counts)
    ensures
        corner_of(seq!['0'], counts) is None,
        is_field(seq!['0']),
{
    let zero = seq!['0'];
    assert(slash_from(zero, 1) == 1);
    assert(slash_from(zero, 0) == 1);
    assert(zero.subrange(0, 1) =~= zero);
    assert(trimmed(zero) =~= zero);
    assert(integer_of(zero) == Some(0int)) by {
        reveal_with_fuel(crate::text::digits_value, 2);
    }
}

/// A face with fewer than three corners, or with an index of 0, can be put at
/// the end of any file: it is dropped whole and counted, and nothing else
/// changes.
pub proof fn law_faces_that_name_nothing_are_dropped(s: Seq<char>, fields: Seq<Seq<char>>)
    requires
        forall|i: int| 0 <= i < fields.len() ==> is_field(#[trigger] fields[i]),
        fields.len() < 3 || fields.contains(seq!['0']),
    ensures
        parsed(s + seq!['\n'] + face_of(fields) + seq!['\n']) == (match parsed(s) {
            Ok(st) => Ok(Parsed { skipped: st.skipped + 1, ..st }),
            Err(text) => Err(text),
        }),
{
    let w = seq!["f"@] + fields;
    let line = face_of(fields);
    lemma_keywords_differ();
    assert forall|i: int| 0 <= i < w.len() implies is_field(#[trigger] w[i]) by {
        if i > 0 {
            assert(w[i] == fields[i - 1]);
        }
    }
    lemma_words_of_joined(w);
    lemma_no_char(line, 0, '#');
    assert(before_comment(line) =~= line);
    if let Ok(st) = lines_from(s, 0, 1, nothing_parsed()) {
        if fields.len() >= 3 {
            lemma_zero_names_nothing(st.counts());
            let k = fields.index_of(seq!['0']);
            assert(w[k + 1] == seq!['0']);
        }
        assert(is_unusable_face(line, st.counts()));
    }
    law_unusable_faces_only_count(s, line);
}

/// No line from position `i` on is a face.
pub open spec fn no_faces_from(s: Seq<char>, i: int) -> bool
    decreases s.len() + 1 - i,
    when 0 <= i
{
    let end = find_char(s, i, '\n');
    proof {
        lemma_find_char(s, i, '\n');
    }
    let w = words(before_comment(s.subrange(i, end)));
    i >= s.len() || ((w.len() > 0 ==> w[0] != "f"@) && no_faces_from(s, end + 1))
}

pub(crate) proof fn lemma_no_faces(s: Seq<char>, i: int, number: nat, st: Parsed)
    requires
        0 <= i,
        no_faces_from(s, i),
    ensures
        lines_from(s, i, number, st) matches Ok(next) ==> next.corners == st.corners
            && next.indices == st.indices && next.triangulated == st.triangulated && next.skipped
            == st.skipped,
    decreases s.len() + 1 - i,
{
    let end = find_char(s, i, '\n');
    lemma_find_char(s, i, '\n');
    if i < s.len() {
        if let Ok(next) = line_step(st, s.subrange(i, end), number) {
            lemma_no_faces(s, end + 1, number + 1, next);
        }
    }
}

/// Only faces make geometry: a file without any is refused.
pub proof fn law_files_without_faces_are_refused(s: Seq<char>)
    requires
        no_faces_from(s, 0),
    ensures
        parsed(s) is Err,
{
    lemma_no_faces(s, 0, 1, nothing_parsed());
}

/// A file with a quad gives what the file with its two triangles gives: the same
/// vertices and indices, with one face more that was fanned and none more that
/// was skipped. Behind lines without faces that is one and none in all.
pub proof fn law_parsed_quad_is_two_triangles(
    head: Seq<char>,
    a: Seq<char>,
    b: Seq<char>,
    c: Seq<char>,
    d: Seq<char>,
)
    requires
        is_field(a) && is_field(b) && is_field(c) && is_field(d),
        lines_from(head, 0, 1, nothing_parsed()) matches Ok(st) && corner_of(a, st.counts()) is Some
            && corner_of(b, st.counts()) is Some && corner_of(c, st.counts()) is Some && corner_of(
            d,
            st.counts(),
        ) is Some,
    ensures
        ({
            let st = lines_from(head, 0, 1, nothing_parsed())->Ok_0;
            let quad = parsed(head + seq!['\n'] + face_of(seq![a, b, c, d]) + seq!['\n']);
            let pair = parsed(
                head + seq!['\n'] + face_of(seq![a, b, c]) + seq!['\n'] + face_of(seq![a, c, d])
                    + seq!['\n'],
            );
            &&& pair matches Ok(p) && quad == Ok::<Parsed, Seq<char>>(
                Parsed { triangulated: p.triangulated + 1, ..p },
            ) && p.triangulated == st.triangulated && p.skipped == st.skipped && (no_faces_from(
                head,
                0,
            ) ==> p.triangulated == 0 && p.skipped == 0)
        }),
{
    let st = lines_from(head, 0, 1, nothing_parsed())->Ok_0;
    let (abc, acd, abcd) = (seq![a, b, c], seq![a, c, d], seq![a, b, c, d]);
    let one = head + seq!['\n'] + face_of(abc);
    lemma_lines_valid(head, 0, 1, nothing_parsed());
    lemma_quad_face(st, a, b, c, d);
    lemma_face_added(head, abcd);
    lemma_trailing_break(head + seq!['\n'] + face_of(abcd));
    lemma_face_added(head, abc);
    lemma_face_added(one, acd);
    lemma_trailing_break(one + seq!['\n'] + face_of(acd));
    if no_faces_from(head, 0) {
        lemma_no_faces(head, 0, 1, nothing_parsed());
    }
}

proof fn lemma_corners_of_three(a: Seq<char>, b: Seq<char>, c: Seq<char>, counts: Counts)
    requires
        corner_of(a, counts) is Some,
        corner_of(b, counts) is Some,
        corner_of(c, counts) is Some,
    ensures
        corners_of(seq![a, b, c], counts) == Some(
            seq![corner_of(a, counts)->Some_0, corner_of(b, counts)->Some_0, corner_of(
                c,
                counts,
            )->Some_0],
        ),
{
    let fields = seq![a, b, c];
    reveal_with_fuel(corners_of, 4);
    assert(fields.drop_last() =~= seq![a, b]);
    assert(fields.drop_last().drop_last() =~= seq![a]);
    assert(fields.drop_last().drop_last().drop_last() =~= seq![]);
    let (pa, pb, pc) = (
        corner_of(a, counts)->Some_0,
        corner_of(b, counts)->Some_0,
        corner_of(c, counts)->Some_0,
    );
    assert(seq![].push(pa).push(pb).push(pc) =~= seq![pa, pb, pc]);
}

} // verus!

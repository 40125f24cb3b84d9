//! What the lines of an OBJ file stand for, said of their fields directly.

use vstd::prelude::*;
use crate::assets::obj::{
    bad_field, before_comment, corner_of, corners_of, face_line, face_of, fan_indices, is_field,
    joined, lemma_face_added, lemma_face_len, lemma_index_of, lemma_lines_valid, lemma_no_char,
    lemma_trailing_break, lemma_with_corners, lemma_words_of_joined, line_step, lines_from,
    mesh_valid, nothing_parsed, parsed, resolved, slash_from, vertex_is, with_corner, with_corners,
    Coords, Counts, FaceVertex, ObjModel, Parsed,
};
use crate::text::{
    decimal, find_char, integer_of, is_number_text, lemma_find_char, trimmed, words,
};

verus! {

// --- faces -------------------------------------------------------------------

/// A face is cut into the triangles of its first corner with each two that follow
/// each other: triangle `i` has the corners 0, `i` and `i + 1`.
pub proof fn law_faces_are_fans(corners: Seq<FaceVertex>, face: Seq<FaceVertex>, i: int)
    requires
        face.len() >= 3,
        1 <= i < face.len() - 1,
    ensures
        fan_indices(corners, face).len() == 3 * (face.len() - 2),
        fan_indices(corners, face)[3 * (i - 1)] == corners.index_of(face[0]),
        fan_indices(corners, face)[3 * (i - 1) + 1] == corners.index_of(face[i]),
        fan_indices(corners, face)[3 * (i - 1) + 2] == corners.index_of(face[i + 1]),
{
    let k = 3 * (i - 1);
    assert(k % 3 == 0 && (k + 1) % 3 == 1 && (k + 2) % 3 == 2);
    assert((k + 1) / 3 == i - 1 && (k + 2) / 3 == i - 1);
}

/// The vertices of a file are the distinct corners of its faces, numbered by
/// their first use: using more keeps the numbers of those that are there, adds
/// none that was not used and none twice.
pub proof fn law_vertices_are_numbered_by_first_use(
    corners: Seq<FaceVertex>,
    face: Seq<FaceVertex>,
    corner: FaceVertex,
)
    requires
        corners.no_duplicates(),
    ensures
        with_corners(corners, face).no_duplicates(),
        with_corners(corners, face).take(corners.len() as int) == corners,
        with_corners(corners, face).contains(corner) <==> corners.contains(corner)
            || face.contains(corner),
        with_corners(corners, face.push(corner)) == (if corners.contains(corner) || face.contains(
            corner,
        ) {
            with_corners(corners, face)
        } else {
            with_corners(corners, face).push(corner)
        }),
{
    lemma_with_corners(corners, face);
    let all = with_corners(corners, face);
    assert(all.take(corners.len() as int) =~= corners);
    if corners.contains(corner) {
        let v = choose|v: int| 0 <= v < corners.len() && corners[v] == corner;
        assert(all[v] == corner);
    }
    if face.contains(corner) {
        let i = choose|i: int| 0 <= i < face.len() && face[i] == corner;
        assert(all.contains(face[i]));
    }
    if all.contains(corner) {
        let v = choose|v: int| 0 <= v < all.len() && all[v] == corner;
        if v < corners.len() {
            assert(corners[v] == corner);
        } else {
            assert(face.contains(all[v]));
        }
    }
    assert(face.push(corner).drop_last() =~= face);
    assert(face.push(corner).last() == corner);
}

proof fn lemma_fan_grows(
    corners: Seq<FaceVertex>,
    more: Seq<FaceVertex>,
    face: Seq<FaceVertex>,
    d: FaceVertex,
)
    requires
        face.len() >= 3,
        corners.no_duplicates(),
        more.no_duplicates(),
        more.len() >= corners.len(),
        more.take(corners.len() as int) == corners,
        forall|i: int| 0 <= i < face.len() ==> corners.contains(#[trigger] face[i]),
    ensures
        fan_indices(more, face.push(d)) == fan_indices(corners, face) + fan_indices(
            more,
            seq![face[0], face.last(), d],
        ),
{
    let k = face.len() as int;
    let longer = face.push(d);
    let last = seq![face[0], face.last(), d];
    let whole = fan_indices(more, longer);
    let parts = fan_indices(corners, face) + fan_indices(more, last);
    assert forall|i: int| 0 <= i < k implies more.index_of(#[trigger] face[i]) == corners.index_of(
        face[i],
    ) by {
        let v = choose|v: int| 0 <= v < corners.len() && corners[v] == face[i];
        assert(more.take(corners.len() as int)[v] == more[v]);
        lemma_index_of(corners, v);
        lemma_index_of(more, v);
    }
    assert(whole.len() == 3 * (k - 1) && parts.len() == 3 * (k - 2) + 3);
    assert forall|j: int| 0 <= j < whole.len() implies whole[j] == #[trigger] parts[j] by {
        let i = j / 3 + 1;
        let r = j % 3;
        assert(j == 3 * (i - 1) + r && 0 <= r < 3);
        law_faces_are_fans(more, longer, i);
        assert(longer[0] == face[0]);
        if i < k - 1 {
            law_faces_are_fans(corners, face, i);
            assert(longer[i] == face[i] && longer[i + 1] == face[i + 1]);
            assert(parts[j] == fan_indices(corners, face)[j]);
            assert(r == 0 || r == 1 || r == 2);
        } else {
            law_faces_are_fans(more, last, 1);
            assert(longer[i] == face.last() && longer[i + 1] == d);
            assert(parts[j] == fan_indices(more, last)[j - 3 * (k - 2)]);
            assert(r == 0 || r == 1 || r == 2);
        }
    }
    assert(whole =~= parts);
}

proof fn lemma_using_again(corners: Seq<FaceVertex>, a: FaceVertex, b: FaceVertex, d: FaceVertex)
    requires
        corners.contains(a),
        corners.contains(b),
    ensures
        with_corners(corners, seq![a, b, d]) == with_corner(corners, d),
{
    let three = seq![a, b, d];
    reveal_with_fuel(with_corners, 4);
    assert(three.drop_last() =~= seq![a, b]);
    assert(three.drop_last().drop_last() =~= seq![a]);
    assert(three.drop_last().drop_last().drop_last() =~= seq![]);
}

/// A face with one corner more adds what the face adds, and then the triangle of
/// its first corner, its last and the new one.
proof fn lemma_face_grows(st: Parsed, fields: Seq<Seq<char>>, d: Seq<char>)
    requires
        mesh_valid(st),
        fields.len() >= 3,
        corners_of(fields, st.counts()) is Some,
        corner_of(d, st.counts()) is Some,
    ensures
        ({
            let both = face_line(face_line(st, fields), seq![fields[0], fields.last(), d]);
            let one = face_line(st, fields.push(d));
            &&& one.corners == both.corners
            &&& one.indices == both.indices
            &&& one.skipped == st.skipped && both.skipped == st.skipped
            &&& one.triangulated == st.triangulated + 1
            &&& both.triangulated == st.triangulated + (if fields.len() > 3 {
                1int
            } else {
                0
            })
            &&& one.name == both.name && one.positions == both.positions && one.colors
                == both.colors && one.normals == both.normals && one.texcoords == both.texcoords
            &&& both.corners.len() > 0
        }),
{
    let counts = st.counts();
    let face = corners_of(fields, counts)->Some_0;
    let corner = corner_of(d, counts)->Some_0;
    let three = seq![fields[0], fields.last(), d];
    lemma_face_len(fields, counts);
    lemma_corners(fields, counts, 0);
    lemma_corners(fields, counts, fields.len() - 1);
    assert(fields.push(d).drop_last() =~= fields);
    assert(corners_of(fields.push(d), counts) == Some(face.push(corner)));
    let last = seq![face[0], face.last(), corner];
    assert(corners_of(three, counts) == Some(last)) by {
        reveal_with_fuel(corners_of, 4);
        assert(three.drop_last() =~= seq![fields[0], fields.last()]);
        assert(three.drop_last().drop_last() =~= seq![fields[0]]);
        assert(three.drop_last().drop_last().drop_last() =~= seq![]);
        assert(seq![].push(face[0]).push(face.last()).push(corner) =~= last);
    }
    let first = face_line(st, fields);
    assert(first.counts() == counts);
    lemma_with_corners(st.corners, face);
    let corners = with_corners(st.corners, face);
    assert(corners.contains(face[0]) && corners.contains(face[face.len() - 1]));
    lemma_using_again(corners, face[0], face.last(), corner);
    let more = with_corner(corners, corner);
    assert(face.push(corner).drop_last() =~= face);
    assert(with_corners(st.corners, face.push(corner)) == more);
    assert(more.take(corners.len() as int) =~= corners);
    lemma_with_corners(corners, seq![corner]);
    assert(seq![corner].drop_last() =~= seq![]);
    reveal_with_fuel(with_corners, 2);
    assert(with_corners(corners, seq![corner]) == more);
    lemma_fan_grows(corners, more, face, corner);
    let one = face_line(st, fields.push(d));
    let both = face_line(first, three);
    assert(one.indices =~= both.indices);
}

proof fn lemma_corners(fields: Seq<Seq<char>>, counts: Counts, i: int)
    requires
        corners_of(fields, counts) is Some,
        0 <= i < fields.len(),
    ensures
        corner_of(fields[i], counts) == Some(corners_of(fields, counts)->Some_0[i]),
        corners_of(fields, counts)->Some_0.len() == fields.len(),
    decreases fields.len(),
{
    lemma_face_len(fields, counts);
    lemma_face_len(fields.drop_last(), counts);
    if i < fields.len() - 1 {
        assert(fields.drop_last()[i] == fields[i]);
        lemma_corners(fields.drop_last(), counts, i);
    }
}

/// A file with a face of any size, of three corners or more, and one corner more
/// gives what the file gives in which the face comes without that corner and is
/// followed by the triangle of its first corner, its last and that one: the same
/// vertices and the same indices.
pub proof fn law_parsed_faces_grow_by_a_triangle(
    head: Seq<char>,
    fields: Seq<Seq<char>>,
    d: Seq<char>,
)
    requires
        fields.len() >= 3,
        forall|i: int| 0 <= i < fields.len() ==> is_field(#[trigger] fields[i]),
        is_field(d),
        lines_from(head, 0, 1, nothing_parsed()) matches Ok(st) && corners_of(fields, st.counts())
            is Some && corner_of(d, st.counts()) is Some,
    ensures
        ({
            let st = lines_from(head, 0, 1, nothing_parsed())->Ok_0;
            let one = parsed(head + seq!['\n'] + face_of(fields.push(d)) + seq!['\n']);
            let two = parsed(
                head + seq!['\n'] + face_of(fields) + seq!['\n'] + face_of(
                    seq![fields[0], fields.last(), d],
                ) + seq!['\n'],
            );
            &&& one matches Ok(a) && two matches Ok(b) && a.corners == b.corners && a.indices
                == b.indices && a.positions == b.positions && a.normals == b.normals && a.colors
                == b.colors && a.triangulated == st.triangulated + 1 && a.skipped == st.skipped
                && b.skipped == st.skipped
        }),
{
    let st = lines_from(head, 0, 1, nothing_parsed())->Ok_0;
    let longer = fields.push(d);
    let three = seq![fields[0], fields.last(), d];
    let front = head + seq!['\n'] + face_of(fields);
    assert(is_field(fields[0]) && is_field(fields[fields.len() - 1]));
    assert forall|i: int| 0 <= i < longer.len() implies is_field(#[trigger] longer[i]) by {
        if i < fields.len() {
            assert(longer[i] == fields[i]);
        }
    }
    lemma_lines_valid(head, 0, 1, nothing_parsed());
    lemma_face_grows(st, fields, d);
    lemma_face_added(head, longer);
    lemma_trailing_break(head + seq!['\n'] + face_of(longer));
    lemma_face_added(head, fields);
    lemma_face_added(front, three);
    lemma_trailing_break(front + seq!['\n'] + face_of(three));
}

// --- corners -----------------------------------------------------------------

/// What a number text between slashes names in a list of `count`.
pub open spec fn names(text: Seq<char>, count: int) -> Option<int> {
    match integer_of(trimmed(text)) {
        Some(n) if -0x8000_0000_0000_0000 <= n < 0x8000_0000_0000_0000 => resolved(n, count),
        _ => None,
    }
}

proof fn lemma_slash(front: Seq<char>, part: Seq<char>, behind: Seq<char>, k: int)
    requires
        0 <= k <= part.len(),
        !part.contains('/'),
        behind.len() == 0 || behind[0] == '/',
    ensures
        slash_from(front + part + behind, front.len() + k) == front.len() + part.len(),
    decreases part.len() - k,
{
    let whole = front + part + behind;
    if k < part.len() {
        assert(whole[front.len() + k] == part[k]);
        assert(part.contains(part[k]));
        lemma_slash(front, part, behind, k + 1);
    }
}

/// A field of three parts names a position, a texture coordinate and a normal, in
/// this order: it does so if the first part names a position and each of the
/// others names one of its list or is blank.
pub proof fn law_corners_have_three_parts(
    p: Seq<char>,
    t: Seq<char>,
    n: Seq<char>,
    counts: Counts,
)
    requires
        !p.contains('/') && !t.contains('/') && !n.contains('/'),
    ensures
        ({
            let corner = corner_of(p + seq!['/'] + t + seq!['/'] + n, counts);
            let position = names(p, counts.positions as int);
            let texcoord = names(t, counts.texcoords as int);
            let normal = names(n, counts.normals as int);
            &&& corner is Some <==> position is Some && (texcoord is Some || trimmed(t).len() == 0)
                && (normal is Some || trimmed(n).len() == 0)
            &&& corner matches Some(v) ==> position == Some(v.position as int) && v.texcoord == (
            if trimmed(t).len() == 0 {
                None
            } else {
                Some(texcoord->Some_0 as usize)
            }) && v.normal == (if trimmed(n).len() == 0 {
                None
            } else {
                Some(normal->Some_0 as usize)
            })
        }),
{
    let s = p + seq!['/'] + t + seq!['/'] + n;
    let empty: Seq<char> = seq![];
    let first = p.len() as int;
    let second = first + 1 + t.len();
    assert(s =~= empty + p + (seq!['/'] + t + seq!['/'] + n));
    lemma_slash(empty, p, seq!['/'] + t + seq!['/'] + n, 0);
    assert(s =~= (p + seq!['/']) + t + (seq!['/'] + n));
    lemma_slash(p + seq!['/'], t, seq!['/'] + n, 0);
    assert(s =~= (p + seq!['/'] + t + seq!['/']) + n + empty);
    lemma_slash(p + seq!['/'] + t + seq!['/'], n, empty, 0);
    assert(s.subrange(0, first) =~= p);
    assert(s.subrange(first + 1, second) =~= t);
    assert(s.subrange(second + 1, s.len() as int) =~= n);
}

/// A field without slashes names a position alone, and one with one slash a
/// position and a texture coordinate.
pub proof fn law_parts_may_be_left_out(p: Seq<char>, t: Seq<char>, counts: Counts)
    requires
        !p.contains('/') && !t.contains('/'),
    ensures
        corner_of(p, counts) == corner_of(p + seq!['/', '/'], counts),
        corner_of(p + seq!['/'] + t, counts) == corner_of(p + seq!['/'] + t + seq!['/'], counts),
{
    let empty: Seq<char> = seq![];
    assert(trimmed(empty).len() == 0);
    assert(p =~= empty + p + empty);
    lemma_slash(empty, p, empty, 0);
    let two = p + seq!['/', '/'];
    assert(two =~= empty + p + seq!['/', '/']);
    lemma_slash(empty, p, seq!['/', '/'], 0);
    assert(slash_from(two, p.len() as int + 1) == p.len() + 1);
    assert(slash_from(two, p.len() as int + 2) == p.len() + 2);
    assert(two.subrange(p.len() as int + 1, p.len() as int + 1) =~= empty);
    assert(two.subrange(p.len() as int + 2, p.len() as int + 2) =~= empty);
    assert(p.subrange(0, p.len() as int) =~= p && two.subrange(0, p.len() as int) =~= p);
    let one = p + seq!['/'] + t;
    let more = one + seq!['/'];
    let (a, b) = (p.len() as int, p.len() as int + 1 + t.len());
    assert(one =~= empty + p + (seq!['/'] + t));
    lemma_slash(empty, p, seq!['/'] + t, 0);
    assert(one =~= (p + seq!['/']) + t + empty);
    lemma_slash(p + seq!['/'], t, empty, 0);
    assert(more =~= empty + p + (seq!['/'] + t + seq!['/']));
    lemma_slash(empty, p, seq!['/'] + t + seq!['/'], 0);
    assert(more =~= (p + seq!['/']) + t + seq!['/']);
    lemma_slash(p + seq!['/'], t, seq!['/'], 0);
    assert(slash_from(more, b + 1) == b + 1);
    assert(more.subrange(b + 1, b + 1) =~= empty);
    assert(one.subrange(0, a) =~= p && more.subrange(0, a) =~= p);
    assert(one.subrange(a + 1, b) =~= t && more.subrange(a + 1, b) =~= t);
}

// --- other lines -------------------------------------------------------------

proof fn lemma_line_words(keyword: Seq<char>, fields: Seq<Seq<char>>)
    requires
        is_field(keyword),
        forall|i: int| 0 <= i < fields.len() ==> is_field(#[trigger] fields[i]),
    ensures
        words(before_comment(joined(seq![keyword] + fields))) == seq![keyword] + fields,
        (seq![keyword] + fields).subrange(1, fields.len() as int + 1) == fields,
{
    let w = seq![keyword] + fields;
    let line = joined(w);
    assert forall|i: int| 0 <= i < w.len() implies is_field(#[trigger] w[i]) by {
        if i > 0 {
            assert(w[i] == fields[i - 1]);
        }
    }
    lemma_words_of_joined(w);
    lemma_no_char(line, 0, '#');
    assert(before_comment(line) =~= line);
    assert(w.subrange(1, fields.len() as int + 1) =~= fields);
}

proof fn lemma_no_bad_field(fields: Seq<Seq<char>>, i: int, n: int)
    requires
        0 <= i,
    ensures
        bad_field(fields, i, n) is None <==> forall|k: int|
            i <= k < n ==> is_number_text(#[trigger] fields[k]),
    decreases n - i,
{
    if i < n {
        lemma_no_bad_field(fields, i + 1, n);
        if is_number_text(fields[i]) {
            assert forall|k: int| i <= k < n && (forall|j: int|
                i + 1 <= j < n ==> is_number_text(#[trigger] fields[j])) implies is_number_text(
                #[trigger] fields[k],
            ) by {
                if k != i {
                    assert(i + 1 <= k < n);
                }
            }
        }
    }
}

proof fn lemma_keywords()
    ensures
        is_field("v"@) && is_field("vn"@) && is_field("vt"@) && is_field("o"@) && is_field("f"@),
        "v"@ != "vn"@ && "v"@ != "vt"@ && "v"@ != "o"@ && "v"@ != "f"@,
        "vn"@ != "vt"@ && "vn"@ != "o"@ && "vn"@ != "f"@,
        "vt"@ != "o"@ && "vt"@ != "f"@ && "o"@ != "f"@,
{
    reveal_strlit("v");
    reveal_strlit("vn");
    reveal_strlit("vt");
    reveal_strlit("o");
    reveal_strlit("f");
    assert("v"@.len() == 1 && "vn"@.len() == 2 && "vt"@.len() == 2 && "o"@.len() == 1 && "f"@.len()
        == 1);
    assert("v"@[0] == 'v' && "vn"@[1] == 'n' && "vt"@[1] == 't' && "o"@[0] == 'o' && "f"@[0]
        == 'f');
}

/// A `v` line adds one position, its first three fields, and with six fields or
/// more a colour, the next three; it is refused if it has fewer than three fields
/// or if one of those it uses is no number. Nothing else changes.
pub proof fn law_vertex_lines(st: Parsed, fields: Seq<Seq<char>>, number: nat)
    requires
        forall|i: int| 0 <= i < fields.len() ==> is_field(#[trigger] fields[i]),
    ensures
        ({
            let used: int = if fields.len() < 6 {
                3
            } else {
                6
            };
            let r = line_step(st, joined(seq!["v"@] + fields), number);
            &&& r is Ok <==> fields.len() >= 3 && forall|i: int|
                0 <= i < used ==> is_number_text(#[trigger] fields[i])
            &&& r matches Ok(next) ==> next == (Parsed {
                positions: st.positions.push(seq![fields[0], fields[1], fields[2]]),
                colors: st.colors.push(
                    if fields.len() < 6 {
                        None
                    } else {
                        Some(seq![fields[3], fields[4], fields[5]])
                    },
                ),
                ..st
            })
        }),
{
    lemma_keywords();
    lemma_line_words("v"@, fields);
    if fields.len() >= 3 {
        lemma_no_bad_field(fields, 0, 3);
        assert(fields.subrange(0, 3) =~= seq![fields[0], fields[1], fields[2]]);
    }
    if fields.len() >= 6 {
        lemma_no_bad_field(fields, 0, 6);
        assert(fields.subrange(3, 6) =~= seq![fields[3], fields[4], fields[5]]);
    }
}

/// A `vn` line adds one normal, its first three fields, and is refused if it has
/// fewer or if one of them is no number. Nothing else changes.
pub proof fn law_normal_lines(st: Parsed, fields: Seq<Seq<char>>, number: nat)
    requires
        forall|i: int| 0 <= i < fields.len() ==> is_field(#[trigger] fields[i]),
    ensures
        ({
            let r = line_step(st, joined(seq!["vn"@] + fields), number);
            &&& r is Ok <==> fields.len() >= 3 && forall|i: int|
                0 <= i < 3 ==> is_number_text(#[trigger] fields[i])
            &&& r matches Ok(next) ==> next == (Parsed {
                normals: st.normals.push(seq![fields[0], fields[1], fields[2]]),
                ..st
            })
        }),
{
    lemma_keywords();
    lemma_line_words("vn"@, fields);
    if fields.len() >= 3 {
        lemma_no_bad_field(fields, 0, 3);
        assert(fields.subrange(0, 3) =~= seq![fields[0], fields[1], fields[2]]);
    }
}

/// A `vt` line adds one texture coordinate, and is refused if it has no field or
/// if one of its first two is no number. Nothing else changes.
pub proof fn law_texture_lines(st: Parsed, fields: Seq<Seq<char>>, number: nat)
    requires
        forall|i: int| 0 <= i < fields.len() ==> is_field(#[trigger] fields[i]),
    ensures
        ({
            let r = line_step(st, joined(seq!["vt"@] + fields), number);
            &&& r is Ok <==> fields.len() >= 1 && forall|i: int|
                0 <= i < 2 && i < fields.len() ==> is_number_text(#[trigger] fields[i])
            &&& r matches Ok(next) ==> next == (Parsed { texcoords: st.texcoords + 1, ..st })
        }),
{
    lemma_keywords();
    lemma_line_words("vt"@, fields);
    lemma_no_bad_field(fields, 0, 1);
    lemma_no_bad_field(fields, 0, 2);
}

/// An `o` line names the object by all its fields, with one space between them,
/// and one without fields names nothing. A line of any other kind, but for faces,
/// says nothing.
pub proof fn law_other_lines(
    st: Parsed,
    keyword: Seq<char>,
    fields: Seq<Seq<char>>,
    number: nat,
)
    requires
        is_field(keyword),
        forall|i: int| 0 <= i < fields.len() ==> is_field(#[trigger] fields[i]),
        keyword != "v"@ && keyword != "vn"@ && keyword != "vt"@ && keyword != "f"@,
    ensures
        line_step(st, joined(seq![keyword] + fields), number) == Ok::<Parsed, Seq<char>>(
            if keyword == "o"@ && fields.len() > 0 {
                Parsed { name: Some(joined(fields)), ..st }
            } else {
                st
            },
        ),
        fields.len() == 1 ==> joined(fields) == fields[0],
        fields.len() >= 2 ==> joined(fields) == joined(fields.drop_last()) + seq![' ']
            + fields.last(),
{
    lemma_keywords();
    lemma_line_words(keyword, fields);
    reveal_strlit(" ");
    assert(" "@ =~= seq![' ']);
}

/// A face of three corners or more that all name something adds its triangles,
/// and counts as fanned if it has more than three.
pub proof fn law_face_lines(st: Parsed, fields: Seq<Seq<char>>, face: Seq<FaceVertex>, number: nat)
    requires
        forall|i: int| 0 <= i < fields.len() ==> is_field(#[trigger] fields[i]),
        fields.len() >= 3,
        face.len() == fields.len(),
        forall|i: int|
            0 <= i < face.len() ==> corner_of(fields[i], st.counts()) == Some(#[trigger] face[i]),
    ensures
        line_step(st, face_of(fields), number) matches Ok(next) && next.corners == with_corners(
            st.corners,
            face,
        ) && next.indices == st.indices + fan_indices(next.corners, face) && next.triangulated
            == st.triangulated + (if face.len() > 3 {
            1int
        } else {
            0
        }) && next.skipped == st.skipped && next.positions == st.positions && next.normals
            == st.normals && next.colors == st.colors && next.texcoords == st.texcoords && next.name
            == st.name,
{
    lemma_keywords();
    lemma_line_words("f"@, fields);
    lemma_all_corners(fields, face, st.counts());
}

proof fn lemma_all_corners(fields: Seq<Seq<char>>, face: Seq<FaceVertex>, counts: Counts)
    requires
        face.len() == fields.len(),
        forall|i: int|
            0 <= i < face.len() ==> corner_of(fields[i], counts) == Some(#[trigger] face[i]),
    ensures
        corners_of(fields, counts) == Some(face),
    decreases fields.len(),
{
    if fields.len() > 0 {
        let rest = face.drop_last();
        assert forall|i: int| 0 <= i < rest.len() implies corner_of(fields.drop_last()[i], counts)
            == Some(#[trigger] rest[i]) by {
            assert(rest[i] == face[i]);
        }
        lemma_all_corners(fields.drop_last(), rest, counts);
        assert(corner_of(fields[fields.len() - 1], counts) == Some(face[face.len() - 1]));
        assert(rest.push(face.last()) =~= face);
    } else {
        assert(face =~= seq![]);
    }
}

/// Coordinates as three texts: x, y and z.
pub open spec fn spelled(c: Coords) -> Seq<Seq<char>> {
    seq![c.x@, c.y@, c.z@]
}

/// A model that describes what was read has one vertex for each corner, which
/// holds the coordinates that the corner names, x, y and z each in its place, the
/// colour of its position or a light grey, and the indices and counts as read.
pub proof fn law_models_hold_what_was_read(model: ObjModel, st: Parsed, v: int, k: int)
    requires
        model.describes(st),
        0 <= v < st.corners.len(),
        0 <= k < st.indices.len(),
    ensures
        model.mesh.vertices@.len() == st.corners.len(),
        st.positions[st.corners[v].position as int] == spelled(model.mesh.vertices@[v].position),
        match (st.corners[v].normal, model.mesh.vertices@[v].normal) {
            (Some(i), Some(n)) => st.normals[i as int] == spelled(n),
            (None, None) => true,
            _ => false,
        },
        match st.colors[st.corners[v].position as int] {
            Some(color) => color == spelled(model.mesh.vertices@[v].color),
            None => spelled(model.mesh.vertices@[v].color) == seq!["0.75"@, "0.75"@, "0.75"@],
        },
        model.mesh.indices@.len() == st.indices.len() && model.mesh.indices@[k] == st.indices[k],
        model.triangulated_faces == st.triangulated && model.skipped_faces == st.skipped,
        match (model.name, st.name) {
            (Some(n), Some(text)) => n@ == text,
            (None, None) => true,
            _ => false,
        },
{
    let vertex = model.mesh.vertices@[v];
    assert(vertex_is(vertex, st, st.corners[v]));
}

/// Lines are read in their order and counted from one on; the first that is refused
/// refuses the file.
pub proof fn law_lines(line: Seq<char>, rest: Seq<char>, number: nat, st: Parsed)
    requires
        !line.contains('\n'),
    ensures
        lines_from(line + seq!['\n'] + rest, 0, number, st) == (match line_step(
            st,
            line,
            number,
        ) {
            Err(text) => Err::<Parsed, Seq<char>>(text),
            Ok(next) => lines_from(rest, 0, number + 1, next),
        }),
        lines_from(Seq::<char>::empty(), 0, number, st) == Ok::<Parsed, Seq<char>>(st),
{
    let s = line + seq!['\n'] + rest;
    assert(s.take(line.len() as int) =~= line);
    lemma_first_break(s, 0, line);
    assert(s.subrange(0, line.len() as int) =~= line);
    if let Ok(next) = line_step(st, line, number) {
        lemma_lines_behind(line + seq!['\n'], rest, 0, number + 1, next);
    }
}

/// A line ends at the first break.
proof fn lemma_first_break(s: Seq<char>, i: int, line: Seq<char>)
    requires
        0 <= i <= line.len() < s.len(),
        s.take(line.len() as int) == line,
        !line.contains('\n'),
        s[line.len() as int] == '\n',
    ensures
        find_char(s, i, '\n') == line.len(),
    decreases line.len() - i,
{
    if i < line.len() {
        assert(s.take(line.len() as int)[i] == s[i]);
        assert(line.contains(line[i]));
        lemma_first_break(s, i + 1, line);
    }
}

/// Where a character is found does not depend on what stands before.
proof fn lemma_found_behind(p: Seq<char>, s: Seq<char>, i: int, target: char)
    requires
        0 <= i,
    ensures
        find_char(p + s, p.len() + i, target) == p.len() + find_char(s, i, target),
    decreases s.len() - i,
{
    if i < s.len() {
        assert((p + s)[p.len() + i] == s[i]);
        lemma_found_behind(p, s, i + 1, target);
    }
}

/// Nor does what the lines say.
proof fn lemma_lines_behind(p: Seq<char>, s: Seq<char>, i: int, number: nat, st: Parsed)
    requires
        0 <= i,
    ensures
        lines_from(p + s, p.len() + i, number, st) == lines_from(s, i, number, st),
    decreases s.len() + 1 - i,
{
    if i < s.len() {
        let end = find_char(s, i, '\n');
        lemma_found_behind(p, s, i, '\n');
        lemma_find_char(s, i, '\n');
        assert((p + s).subrange(p.len() + i, p.len() + end) =~= s.subrange(i, end));
        if let Ok(next) = line_step(st, s.subrange(i, end), number) {
            lemma_lines_behind(p, s, end + 1, number + 1, next);
        }
    }
}

/// A refused line is told by its number and by what it lacks.
pub proof fn law_refused_lines(st: Parsed, fields: Seq<Seq<char>>, number: nat)
    requires
        forall|i: int| 0 <= i < fields.len() ==> is_field(#[trigger] fields[i]),
        fields.len() < 3,
    ensures
        line_step(st, joined(seq!["v"@] + fields), number) == Err::<Parsed, Seq<char>>(
            "line "@ + decimal(number) + ": "@ + "vertex needs at least three coordinates"@,
        ),
        line_step(st, joined(seq!["vn"@] + fields), number) == Err::<Parsed, Seq<char>>(
            "line "@ + decimal(number) + ": "@ + "normal needs three components"@,
        ),
{
    lemma_keywords();
    lemma_line_words("v"@, fields);
    lemma_line_words("vn"@, fields);
}

} // verus!

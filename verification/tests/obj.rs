//! OBJ meshes.

use astraglyph::assets::obj::{
    parse, parse_face_vertex, Coords, Counts, FaceVertex, MeshVertex, ObjModel,
};

const DEFAULT_COLOR: [f32; 3] = [0.75, 0.75, 0.75];

/// The numbers that three coordinate texts spell.
fn numbers(c: &Coords) -> [f32; 3] {
    [&c.x, &c.y, &c.z].map(|text| text.parse().expect("a number"))
}

fn distance(a: [f32; 3], b: [f32; 3]) -> f32 {
    (0..3).map(|i| (a[i] - b[i]).powi(2)).sum::<f32>().sqrt()
}

trait Attributes {
    fn position(&self) -> [f32; 3];
    fn normal(&self) -> [f32; 3];
    fn color(&self) -> [f32; 3];
}

impl Attributes for MeshVertex {
    fn position(&self) -> [f32; 3] {
        numbers(&self.position)
    }

    fn normal(&self) -> [f32; 3] {
        numbers(self.normal.as_ref().expect("a normal from the file"))
    }

    fn color(&self) -> [f32; 3] {
        numbers(&self.color)
    }
}

/// A unit triangle with explicit normals.
const TRIANGLE: &str = "\
# a comment
o test_triangle
v 0.0 0.0 0.0
v 1.0 0.0 0.0
v 0.0 1.0 0.0
vn 0.0 0.0 1.0
f 1//1 2//1 3//1
";

#[test]
fn parses_a_triangle() {
    let model = parse(TRIANGLE).expect("should parse");
    assert_eq!(model.name.as_deref(), Some("test_triangle"));
    assert_eq!(model.mesh.vertices.len(), 3);
    assert_eq!(model.mesh.indices, vec![0, 1, 2]);
    assert_eq!(model.mesh.vertices[1].position(), [1.0, 0.0, 0.0]);
    assert_eq!(model.mesh.vertices[0].normal(), [0.0, 0.0, 1.0]);
    assert_eq!(model.skipped_faces, 0);
}

/// Indices are 1-based. An off-by-one shifts the entire mesh by one vertex,
/// which looks like a subtly wrong model rather than an error.
#[test]
fn indices_are_one_based() {
    let model = parse("v 1 0 0\nv 2 0 0\nv 3 0 0\nf 1 2 3\n").unwrap();
    // Face index 1 must be the FIRST vertex, x = 1.
    assert_eq!(model.mesh.vertices[0].position()[0], 1.0);
    assert_eq!(model.mesh.vertices[2].position()[0], 3.0);
}

/// Negative indices count back from the end: `-1` is the most recent vertex.
/// Read as unsigned they wrap to a huge number and the face vanishes.
#[test]
fn negative_indices_count_back_from_the_end() {
    let model = parse("v 1 0 0\nv 2 0 0\nv 3 0 0\nf -3 -2 -1\n").unwrap();
    assert_eq!(model.mesh.indices.len(), 3);
    let xs: Vec<f32> = model.mesh.vertices.iter().map(|v| v.position()[0]).collect();
    assert_eq!(xs, vec![1.0, 2.0, 3.0]);
}

#[test]
fn index_zero_is_rejected_as_a_face_but_does_not_fail_the_file() {
    // 0 is not a valid OBJ index; the face is skipped and reported.
    let model = parse("v 1 0 0\nv 2 0 0\nv 3 0 0\nf 0 1 2\nf 1 2 3\n").unwrap();
    assert_eq!(model.skipped_faces, 1);
    assert_eq!(model.mesh.indices.len(), 3, "the good face still loaded");
}

#[test]
fn an_out_of_range_index_skips_only_that_face() {
    let model = parse("v 1 0 0\nv 2 0 0\nv 3 0 0\nf 1 2 99\nf 1 2 3\n").unwrap();
    assert_eq!(model.skipped_faces, 1);
    assert_eq!(model.mesh.indices.len(), 3);
}

/// All four face-vertex forms appear in real files. `1//3` in particular is what
/// an exporter writes for normals-but-no-UVs, and mis-parsing it loses the normal.
#[test]
fn every_face_vertex_form_parses() {
    let source = "\
v 0 0 0
v 1 0 0
v 0 1 0
vt 0 0
vn 0 0 1
f 1 2 3
f 1/1 2/1 3/1
f 1//1 2//1 3//1
f 1/1/1 2/1/1 3/1/1
";
    let model = parse(source).unwrap();
    assert_eq!(model.skipped_faces, 0, "every form should have parsed");
    assert_eq!(model.mesh.indices.len(), 12, "four triangles");
}

/// A quad must become two triangles: the renderer draws TriangleList, and a quad
/// passed through as-is would be read as one triangle plus garbage.
#[test]
fn a_quad_is_fanned_into_two_triangles() {
    let source = "\
v 0 0 0
v 1 0 0
v 1 1 0
v 0 1 0
f 1 2 3 4
";
    let model = parse(source).unwrap();
    assert_eq!(model.mesh.indices.len(), 6, "two triangles");
    assert_eq!(model.triangulated_faces, 1);
    // The fan shares corner 0, so both triangles start there.
    assert_eq!(model.mesh.indices[0], model.mesh.indices[3]);
}

#[test]
fn an_ngon_is_fanned_into_n_minus_two_triangles() {
    let source = "\
v 0 0 0
v 1 0 0
v 2 1 0
v 1 2 0
v 0 2 0
f 1 2 3 4 5
";
    let model = parse(source).unwrap();
    assert_eq!(model.mesh.indices.len(), 9, "three triangles from a pentagon");
}

/// Two faces can share a position but use different normals. GPU vertices are a
/// flat array, so each distinct triple needs its own vertex — sharing them
/// smooths every corner of what should be a hard edge.
#[test]
fn the_same_position_with_different_normals_becomes_two_vertices() {
    let source = "\
v 0 0 0
v 1 0 0
v 0 1 0
v 1 1 0
vn 0 0 1
vn 0 1 0
f 1//1 2//1 3//1
f 1//2 2//2 4//2
";
    let model = parse(source).unwrap();
    // Positions 1 and 2 appear with both normals, so they duplicate: 3 + 3
    // distinct triples rather than 4 positions.
    assert_eq!(
        model.mesh.vertices.len(),
        6,
        "distinct index triples must not be merged"
    );
    // And the two faces really do carry different normals.
    let normals: Vec<[f32; 3]> = model.mesh.vertices.iter().map(|v| v.normal()).collect();
    assert!(normals.contains(&[0.0, 0.0, 1.0]));
    assert!(normals.contains(&[0.0, 1.0, 0.0]));
}

/// An identical triple *should* be shared, or a large mesh doubles in size.
#[test]
fn identical_triples_are_shared() {
    let source = "\
v 0 0 0
v 1 0 0
v 0 1 0
v 1 1 0
vn 0 0 1
f 1//1 2//1 3//1
f 2//1 4//1 3//1
";
    let model = parse(source).unwrap();
    assert_eq!(
        model.mesh.vertices.len(),
        4,
        "the shared edge should reuse its vertices"
    );
    assert_eq!(model.mesh.indices.len(), 6);
}

/// Winding is preserved as authored, never "corrected". A mesh with reversed
/// winding disappears under back-face culling, and that is a property of the
/// file the author needs to see.
#[test]
fn winding_is_preserved_rather_than_normalised() {
    let ccw = parse("v 0 0 0\nv 1 0 0\nv 0 1 0\nf 1 2 3\n").unwrap();
    let cw = parse("v 0 0 0\nv 1 0 0\nv 0 1 0\nf 3 2 1\n").unwrap();
    // The index orders must differ, i.e. the parser did not reorder either.
    let ccw_positions: Vec<[f32; 3]> = ccw
        .mesh
        .indices
        .iter()
        .map(|i| ccw.mesh.vertices[*i as usize].position())
        .collect();
    let cw_positions: Vec<[f32; 3]> = cw
        .mesh
        .indices
        .iter()
        .map(|i| cw.mesh.vertices[*i as usize].position())
        .collect();
    assert_ne!(ccw_positions, cw_positions);
}

#[test]
fn per_vertex_colours_are_read_when_present() {
    let model = parse("v 0 0 0 1.0 0.0 0.0\nv 1 0 0 0.0 1.0 0.0\nv 0 1 0 0.0 0.0 1.0\nf 1 2 3\n")
        .unwrap();
    assert_eq!(model.mesh.vertices[0].color(), [1.0, 0.0, 0.0]);
    assert_eq!(model.mesh.vertices[2].color(), [0.0, 0.0, 1.0]);
}

#[test]
fn a_file_without_colours_gets_the_default() {
    let model = parse(TRIANGLE).unwrap();
    assert_eq!(model.mesh.vertices[0].color(), DEFAULT_COLOR);
}

#[test]
fn comments_and_blank_lines_are_ignored() {
    let source = "\
# leading comment

v 0 0 0   # trailing comment
v 1 0 0
v 0 1 0

f 1 2 3
# trailing comment at EOF
";
    let model = parse(source).unwrap();
    assert_eq!(model.mesh.vertices.len(), 3);
    assert_eq!(model.mesh.indices.len(), 3);
}

#[test]
fn unknown_directives_are_skipped_without_failing() {
    let source = "\
mtllib scene.mtl
usemtl red
s off
v 0 0 0
v 1 0 0
v 0 1 0
f 1 2 3
";
    assert!(parse(source).is_ok());
}

#[test]
fn a_file_with_no_geometry_is_an_error() {
    assert!(parse("").is_err());
    assert!(parse("# only a comment").is_err());
    assert!(
        parse("v 0 0 0\nv 1 0 0\nv 0 1 0\n").is_err(),
        "vertices with no faces produce no drawable geometry"
    );
}

#[test]
fn a_malformed_number_is_an_error_naming_its_line() {
    let e = parse("v 0 0 0\nv not-a-number 0 0\n").unwrap_err();
    assert!(e.message().contains("line 2"), "{e:?}");
}

#[test]
fn a_short_vertex_line_is_an_error() {
    assert!(parse("v 0 0\nf 1 1 1\n").is_err());
    assert!(parse("vn 0 1\n").is_err());
}

#[test]
fn a_face_with_too_few_vertices_is_skipped_and_counted() {
    let model = parse("v 0 0 0\nv 1 0 0\nv 0 1 0\nf 1 2\nf 1 2 3\n").unwrap();
    assert_eq!(model.skipped_faces, 1);
    assert_eq!(model.mesh.indices.len(), 3);
}

/// Whatever a malformed file contains, the parser must return rather than panic.
#[test]
fn obj_malformed_input_never_panics() {
    for source in [
        "f",
        "f 1",
        "f 1 2",
        "f //",
        "f 1// 2// 3//",
        "f a b c",
        "v",
        "v 1",
        "vn",
        "vt",
        "f -99 -98 -97",
        "f 1/2/3/4/5 1 1",
        "o",
        "\0\0\0",
    ] {
        let _ = parse(source);
    }
}

#[test]
fn a_cube_loads_to_the_geometry_it_describes() {
    // 8 corners, 6 quad faces, each with its own normal.
    let source = "\
o cube
v -1 -1 -1
v  1 -1 -1
v  1  1 -1
v -1  1 -1
v -1 -1  1
v  1 -1  1
v  1  1  1
v -1  1  1
vn  0  0 -1
vn  0  0  1
vn -1  0  0
vn  1  0  0
vn  0 -1  0
vn  0  1  0
f 1//1 3//1 2//1
f 1//1 4//1 3//1
f 5//2 6//2 7//2
f 5//2 7//2 8//2
f 1//3 5//3 8//3
f 1//3 8//3 4//3
f 2//4 3//4 7//4
f 2//4 7//4 6//4
f 1//5 2//5 6//5
f 1//5 6//5 5//5
f 4//6 8//6 7//6
f 4//6 7//6 3//6
";
    let model = parse(source).expect("cube should parse");
    assert_eq!(model.name.as_deref(), Some("cube"));
    assert_eq!(model.mesh.indices.len(), 36, "12 triangles");
    assert_eq!(model.skipped_faces, 0);
    // Each corner appears with three different face normals, so the 8 positions
    // become 24 vertices — the hallmark of a hard-edged cube.
    assert_eq!(
        model.mesh.vertices.len(),
        24,
        "8 corners x 3 face normals; fewer means normals were merged"
    );
    // Every vertex sits on the cube's surface.
    for v in &model.mesh.vertices {
        assert!(
            (v.position()[0].abs() - 1.0).abs() < 1e-6
                && (v.position()[1].abs() - 1.0).abs() < 1e-6
                && (v.position()[2].abs() - 1.0).abs() < 1e-6,
            "vertex off the cube: {:?}",
            v.position()
        );
    }
    // Every index is in range, which a shifted 1-based conversion would break.
    assert!(model
        .mesh
        .indices
        .iter()
        .all(|i| (*i as usize) < model.mesh.vertices.len()));
    // All six axis-aligned normals are present.
    for expected in [
        [1.0, 0.0, 0.0],
        [-1.0, 0.0, 0.0],
        [0.0, 1.0, 0.0],
        [0.0, -1.0, 0.0],
        [0.0, 0.0, 1.0],
        [0.0, 0.0, -1.0],
    ] {
        assert!(
            model
                .mesh
                .vertices
                .iter()
                .any(|v| distance(v.normal(), expected) < 1e-5),
            "no vertex has normal {expected:?}"
        );
    }
}

/// The other half of the criterion: the loaded quad-based cube must describe the
/// same surface as one written with explicit triangles.
#[test]
fn a_quad_face_and_its_two_triangles_describe_the_same_surface() {
    let quad = parse("v 0 0 0\nv 1 0 0\nv 1 1 0\nv 0 1 0\nf 1 2 3 4\n").unwrap();
    let tris =
        parse("v 0 0 0\nv 1 0 0\nv 1 1 0\nv 0 1 0\nf 1 2 3\nf 1 3 4\n").unwrap();
    assert_eq!(quad.mesh.indices.len(), tris.mesh.indices.len());
    // Same triangle corner positions, in the same order.
    let corners = |m: &ObjModel| -> Vec<[f32; 3]> {
        m.mesh
            .indices
            .iter()
            .map(|i| m.mesh.vertices[*i as usize].position())
            .collect()
    };
    assert_eq!(corners(&quad), corners(&tris));
}

/// An unusable face at the end of a file changes nothing but the count.
#[test]
fn unusable_faces_only_count() {
    let plain = parse(TRIANGLE).unwrap();
    for line in ["f 0 1 2", "f 1 2", "f", "f 1 2 99", "f 1 2 x", "f 1//9 2 3 # late"] {
        let model = parse(&format!("{TRIANGLE}\n{line}\n")).unwrap();
        assert_eq!(model.skipped_faces, plain.skipped_faces + 1, "{line}");
        assert_eq!(model.mesh.indices, plain.mesh.indices);
        assert_eq!(format!("{:?}", model.mesh), format!("{:?}", plain.mesh));
        assert_eq!(model.name, plain.name);
        assert_eq!(model.triangulated_faces, plain.triangulated_faces);
    }
}

/// A file with a quad gives what the file with its two triangles gives.
#[test]
fn a_quad_parses_as_its_two_triangles() {
    let head = "v 0 0 0\nv 1 0 0\nv 1 1 0\nv 0 1 0\nvn 0 0 1\nvt 0 0\n";
    let quad = parse(&format!("{head}f 1/1/1 2//1 3 -1\n")).unwrap();
    let pair = parse(&format!("{head}f 1/1/1 2//1 3\nf 1/1/1 3 -1\n")).unwrap();
    assert_eq!(format!("{:?}", quad.mesh), format!("{:?}", pair.mesh));
    assert_eq!(quad.mesh.indices, [0, 1, 2, 0, 2, 3]);
    assert_eq!((quad.triangulated_faces, pair.triangulated_faces), (1, 0));
    assert_eq!((quad.skipped_faces, pair.skipped_faces), (0, 0));
    let copy = quad.clone();
    assert_eq!(format!("{copy:?}"), format!("{quad:?}"));
}

/// White space around the parts of a face vertex counts for nothing, and a blank
/// part is an absent one.
#[test]
fn the_parts_of_a_face_vertex_are_trimmed() {
    let counts = Counts { positions: 3, normals: 2, texcoords: 4 };
    let corner = |field: &str| parse_face_vertex(&field.chars().collect::<Vec<char>>(), &counts);
    let full = FaceVertex { position: 0, normal: Some(1), texcoord: Some(3) };
    assert_eq!(corner("1/4/2"), Some(full));
    assert_eq!(corner(" 1 /\t4/ -1\u{2003}"), Some(full));
    assert_eq!(corner("1/ / "), Some(FaceVertex { position: 0, normal: None, texcoord: None }));
    assert_eq!(corner("1/ /2"), Some(FaceVertex { texcoord: None, ..full }));
    for bad in ["", " ", " /1/1", "1 1", "1/4 4", "1/4/2 2", "1/ x", "- 1"] {
        assert_eq!(corner(bad), None, "{bad:?}");
    }
}

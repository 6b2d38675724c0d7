use ldraw_parts::brick::{parse_part, LDrawBrick, SourceFile};
use ldraw_parts::command::{BFCDirection, Color, LDrawCommand, Matrix as Rows, Scalar, Vector};
use ldraw_parts::part::{assemble, LDrawTriangle};
use ldraw_parts::resolver::{flatten, place_triangle, Placement, ResolveError, WorldTriangle};
use three_d::{vec3, Matrix, Matrix3, Matrix4, SquareMatrix, Vector3};

fn v(x: &str, y: &str, z: &str) -> Vector {
    Vector {
        x: Scalar::new(x).unwrap(),
        y: Scalar::new(y).unwrap(),
        z: Scalar::new(z).unwrap(),
    }
}

fn source(name: &str, text: &[&str]) -> SourceFile {
    SourceFile { name: name.to_string(), lines: text.iter().map(|l| l.to_string()).collect() }
}

fn brick(id: &str, files: &[(&str, &[&str])]) -> LDrawBrick {
    let sources: Vec<SourceFile> = files.iter().map(|(n, t)| source(n, t)).collect();
    parse_part(id, &sources).unwrap()
}

fn number(s: &Scalar) -> f32 {
    s.text().parse().unwrap()
}

fn point(p: &Vector) -> Vector3<f32> {
    vec3(number(&p.x), number(&p.y), number(&p.z))
}

fn transform(placements: &[Placement]) -> Matrix4<f32> {
    let mut m = Matrix4::identity();
    for p in placements {
        let t = &p.transformation;
        let linear = Matrix3::new(
            number(&t.r0.x),
            number(&t.r0.y),
            number(&t.r0.z),
            number(&t.r1.x),
            number(&t.r1.y),
            number(&t.r1.z),
            number(&t.r2.x),
            number(&t.r2.y),
            number(&t.r2.z),
        );
        m = m * Matrix4::from_translation(point(&p.translation)) * Matrix4::from(linear).transpose();
    }
    m
}

fn corners(t: &WorldTriangle) -> [Vector3<f32>; 3] {
    let m = transform(&t.placements);
    [
        (m * point(&t.a).extend(1.0)).truncate(),
        (m * point(&t.b).extend(1.0)).truncate(),
        (m * point(&t.c).extend(1.0)).truncate(),
    ]
}

#[test]
fn certified_counter_clockwise_keeps_corner_order() {
    let b = brick(
        "t",
        &[("t.dat", &["0 Title", "0 Name: t.dat", "0 BFC CERTIFY CCW", "3 5 0 0 0 1 0 0 0 1 0"])],
    );
    let got = flatten(&b).unwrap();
    assert_eq!(
        got,
        vec![WorldTriangle {
            color: Color { value: 5 },
            placements: vec![],
            a: v("0", "0", "0"),
            b: v("1", "0", "0"),
            c: v("0", "1", "0"),
        }]
    );
}

#[test]
fn default_clockwise_exchanges_last_two_corners() {
    let b = brick("t", &[("t.dat", &["0 Title", "0 Name: t.dat", "3 5 0 0 0 1 0 0 0 1 0"])]);
    let got = flatten(&b).unwrap();
    assert_eq!(
        got,
        vec![WorldTriangle {
            color: Color { value: 5 },
            placements: vec![],
            a: v("0", "0", "0"),
            b: v("0", "1", "0"),
            c: v("1", "0", "0"),
        }]
    );
}

#[test]
fn certification_after_the_triangle_still_counts() {
    let b = brick(
        "t",
        &[("t.dat", &["0 Title", "0 Name: t.dat", "3 5 0 0 0 1 0 0 0 1 0", "0 BFC CERTIFY CCW"])],
    );
    let got = flatten(&b).unwrap();
    assert_eq!(got[0].b, v("1", "0", "0"));
    assert_eq!(got[0].c, v("0", "1", "0"));
}

#[test]
fn place_triangle_by_winding() {
    let t = LDrawTriangle {
        color: Color { value: 9 },
        x: v("1", "2", "3"),
        y: v("4", "5", "6"),
        z: v("7", "8", "9"),
    };
    let ccw = place_triangle(&t, &vec![], BFCDirection::CCW);
    assert_eq!((ccw.a, ccw.b, ccw.c), (v("1", "2", "3"), v("4", "5", "6"), v("7", "8", "9")));
    let cw = place_triangle(&t, &vec![], BFCDirection::CW);
    assert_eq!((cw.a, cw.b, cw.c), (v("1", "2", "3"), v("7", "8", "9"), v("4", "5", "6")));
    assert_eq!(cw.color, Color { value: 9 });
}

#[test]
fn referenced_triangle_is_translated() {
    let b = brick(
        "a",
        &[
            ("a.dat", &["0 A", "0 Name: a.dat", "0 BFC CERTIFY CCW", "1 16 1 0 0 1 0 0 0 1 0 0 0 1 b.dat"]),
            ("b.dat", &["0 B", "0 Name: b.dat", "0 BFC CERTIFY CCW", "3 2 0 0 0 1 0 0 0 1 0"]),
        ],
    );
    let got = flatten(&b).unwrap();
    assert_eq!(got.len(), 1);
    assert_eq!(got[0].color, Color { value: 2 });
    assert_eq!(got[0].placements.len(), 1);
    assert_eq!(got[0].placements[0].translation, v("1", "0", "0"));
    assert_eq!(
        corners(&got[0]),
        [vec3(1.0, 0.0, 0.0), vec3(2.0, 0.0, 0.0), vec3(1.0, 1.0, 0.0)]
    );
}

#[test]
fn referenced_file_is_drawn_under_the_winding_of_the_reference() {
    let b = brick(
        "a",
        &[
            ("a.dat", &["0 A", "0 Name: a.dat", "1 16 1 0 0 1 0 0 0 1 0 0 0 1 b.dat"]),
            ("b.dat", &["0 B", "0 Name: b.dat", "0 BFC CERTIFY CCW", "3 2 0 0 0 1 0 0 0 1 0"]),
        ],
    );
    let got = flatten(&b).unwrap();
    assert_eq!(
        corners(&got[0]),
        [vec3(1.0, 0.0, 0.0), vec3(1.0, 1.0, 0.0), vec3(2.0, 0.0, 0.0)]
    );
}

#[test]
fn transform_rows_are_matrix_rows() {
    let b = brick(
        "a",
        &[
            ("a.dat", &["0 A", "0 Name: a.dat", "0 BFC CERTIFY CCW", "1 16 0 0 5 0 -1 0 1 0 0 0 0 2 b.dat"]),
            ("b.dat", &["0 B", "0 Name: b.dat", "3 2 1 0 0 0 1 0 0 0 1"]),
        ],
    );
    let got = flatten(&b).unwrap();
    assert_eq!(
        corners(&got[0]),
        [vec3(0.0, 1.0, 5.0), vec3(-1.0, 0.0, 5.0), vec3(0.0, 0.0, 7.0)]
    );
}

#[test]
fn nested_references_compose_outermost_first() {
    let b = brick(
        "a",
        &[
            ("a.dat", &["0 A", "0 Name: a.dat", "0 BFC CERTIFY CCW", "1 16 10 0 0 2 0 0 0 2 0 0 0 2 b.dat"]),
            ("b.dat", &["0 B", "0 Name: b.dat", "0 BFC CERTIFY CCW", "1 16 0 1 0 1 0 0 0 1 0 0 0 1 c.dat"]),
            ("c.dat", &["0 C", "0 Name: c.dat", "3 2 0 0 0 1 0 0 0 1 0"]),
        ],
    );
    let got = flatten(&b).unwrap();
    assert_eq!(got.len(), 1);
    assert_eq!(got[0].placements.len(), 2);
    assert_eq!(got[0].placements[0].translation, v("10", "0", "0"));
    assert_eq!(got[0].placements[1].translation, v("0", "1", "0"));
    assert_eq!(
        corners(&got[0]),
        [vec3(10.0, 2.0, 0.0), vec3(12.0, 2.0, 0.0), vec3(10.0, 4.0, 0.0)]
    );
}

#[test]
fn own_triangles_come_before_those_of_references() {
    let b = brick(
        "a",
        &[
            (
                "a.dat",
                &[
                    "0 A",
                    "0 Name: a.dat",
                    "1 16 0 0 0 1 0 0 0 1 0 0 0 1 b.dat",
                    "3 1 0 0 0 1 0 0 0 1 0",
                    "1 16 0 0 0 1 0 0 0 1 0 0 0 1 c.dat",
                    "3 2 0 0 0 1 0 0 0 1 0",
                ],
            ),
            ("b.dat", &["0 B", "0 Name: b.dat", "3 3 0 0 0 1 0 0 0 1 0", "1 16 0 0 0 1 0 0 0 1 0 0 0 1 c.dat"]),
            ("c.dat", &["0 C", "0 Name: c.dat", "3 4 0 0 0 1 0 0 0 1 0"]),
        ],
    );
    let got = flatten(&b).unwrap();
    let colors: Vec<u32> = got.iter().map(|t| t.color.value).collect();
    assert_eq!(colors, vec![1, 2, 3, 4, 4]);
    let depths: Vec<usize> = got.iter().map(|t| t.placements.len()).collect();
    assert_eq!(depths, vec![0, 0, 1, 2, 1]);
}

#[test]
fn missing_file_is_reported() {
    let b = brick(
        "a",
        &[("a.dat", &["0 A", "0 Name: a.dat", "3 1 0 0 0 1 0 0 0 1 0", "1 16 0 0 0 1 0 0 0 1 0 0 0 1 gone.dat"])],
    );
    assert_eq!(
        flatten(&b),
        Err(ResolveError::UnresolvedSubfileReference {
            filename: "gone.dat".to_string(),
            chain: vec!["a.dat".to_string()],
        })
    );
}

#[test]
fn missing_file_deep_down_is_reported_with_the_way_to_it() {
    let b = brick(
        "a",
        &[
            ("a.dat", &["0 A", "0 Name: a.dat", "1 16 0 0 0 1 0 0 0 1 0 0 0 1 b.dat"]),
            ("b.dat", &["0 B", "0 Name: b.dat", "1 16 0 0 0 1 0 0 0 1 0 0 0 1 gone.dat"]),
        ],
    );
    assert_eq!(
        flatten(&b),
        Err(ResolveError::UnresolvedSubfileReference {
            filename: "gone.dat".to_string(),
            chain: vec!["a.dat".to_string(), "b.dat".to_string()],
        })
    );
}

#[test]
fn missing_entry_file_is_reported() {
    let b = brick("a", &[("b.dat", &["0 B", "0 Name: b.dat"])]);
    assert_eq!(
        flatten(&b),
        Err(ResolveError::UnresolvedSubfileReference { filename: "a.dat".to_string(), chain: vec![] })
    );
}

#[test]
fn cycle_of_two_files_is_reported() {
    let b = brick(
        "a",
        &[
            ("a.dat", &["0 A", "0 Name: a.dat", "1 16 0 0 0 1 0 0 0 1 0 0 0 1 b.dat"]),
            ("b.dat", &["0 B", "0 Name: b.dat", "1 16 0 0 0 1 0 0 0 1 0 0 0 1 a.dat"]),
        ],
    );
    assert_eq!(flatten(&b), Err(ResolveError::ReferenceCycle { filename: "a.dat".to_string() }));
}

#[test]
fn file_that_refers_to_itself_is_reported() {
    let b = brick("a", &[("a.dat", &["0 A", "0 Name: a.dat", "1 16 0 0 0 1 0 0 0 1 0 0 0 1 a.dat"])]);
    assert_eq!(flatten(&b), Err(ResolveError::ReferenceCycle { filename: "a.dat".to_string() }));
}

#[test]
fn cycle_below_the_entry_names_the_repeating_file() {
    let b = brick(
        "a",
        &[
            ("a.dat", &["0 A", "0 Name: a.dat", "1 16 0 0 0 1 0 0 0 1 0 0 0 1 b.dat"]),
            ("b.dat", &["0 B", "0 Name: b.dat", "1 16 0 0 0 1 0 0 0 1 0 0 0 1 c.dat"]),
            ("c.dat", &["0 C", "0 Name: c.dat", "1 16 0 0 0 1 0 0 0 1 0 0 0 1 b.dat"]),
        ],
    );
    assert_eq!(flatten(&b), Err(ResolveError::ReferenceCycle { filename: "b.dat".to_string() }));
}

#[test]
fn cycle_before_a_missing_file_is_reported_first() {
    let b = brick(
        "a",
        &[(
            "a.dat",
            &[
                "0 A",
                "0 Name: a.dat",
                "1 16 0 0 0 1 0 0 0 1 0 0 0 1 a.dat",
                "1 16 0 0 0 1 0 0 0 1 0 0 0 1 gone.dat",
            ],
        )],
    );
    assert_eq!(flatten(&b), Err(ResolveError::ReferenceCycle { filename: "a.dat".to_string() }));
}

#[test]
fn file_used_twice_is_no_cycle() {
    let b = brick(
        "a",
        &[
            (
                "a.dat",
                &[
                    "0 A",
                    "0 Name: a.dat",
                    "1 16 0 0 0 1 0 0 0 1 0 0 0 1 b.dat",
                    "1 16 0 0 0 1 0 0 0 1 0 0 0 1 c.dat",
                    "1 16 5 0 0 1 0 0 0 1 0 0 0 1 d.dat",
                ],
            ),
            ("b.dat", &["0 B", "0 Name: b.dat", "1 16 1 0 0 1 0 0 0 1 0 0 0 1 d.dat"]),
            ("c.dat", &["0 C", "0 Name: c.dat", "1 16 2 0 0 1 0 0 0 1 0 0 0 1 d.dat"]),
            ("d.dat", &["0 D", "0 Name: d.dat", "3 8 0 0 0 1 0 0 0 1 0"]),
        ],
    );
    let got = flatten(&b).unwrap();
    assert_eq!(got.len(), 3);
    let firsts: Vec<Vector3<f32>> = got.iter().map(|t| corners(t)[0]).collect();
    assert_eq!(firsts, vec![vec3(1.0, 0.0, 0.0), vec3(2.0, 0.0, 0.0), vec3(5.0, 0.0, 0.0)]);
}

#[test]
fn flattening_leaves_the_brick_as_it_was() {
    let b = brick(
        "a",
        &[
            ("a.dat", &["0 A", "0 Name: a.dat", "1 16 1 0 0 1 0 0 0 1 0 0 0 1 b.dat"]),
            ("b.dat", &["0 B", "0 Name: b.dat", "3 2 0 0 0 1 0 0 0 1 0"]),
        ],
    );
    let first = flatten(&b).unwrap();
    let second = flatten(&b).unwrap();
    assert_eq!(first, second);
}

#[test]
fn inverted_reference_draws_counter_clockwise() {
    let identity = Rows { r0: v("1", "0", "0"), r1: v("0", "1", "0"), r2: v("0", "0", "1") };
    let mut b = LDrawBrick::new("a.dat".to_string());
    b.insert(assemble(&vec![
        LDrawCommand::Name("a.dat".to_string()),
        LDrawCommand::SubfileReference(
            Color { value: 16 },
            v("1", "0", "0"),
            identity,
            "b.dat".to_string(),
            true,
        ),
    ]));
    b.insert(assemble(&vec![
        LDrawCommand::Name("b.dat".to_string()),
        LDrawCommand::Triangle(Color { value: 2 }, v("0", "0", "0"), v("1", "0", "0"), v("0", "1", "0")),
    ]));
    let got = flatten(&b).unwrap();
    assert_eq!(
        corners(&got[0]),
        [vec3(1.0, 0.0, 0.0), vec3(2.0, 0.0, 0.0), vec3(1.0, 1.0, 0.0)]
    );
}

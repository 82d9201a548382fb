use tiny_renderer::wireframe::{classify_line, face_from_str, faces_in_bounds, Face, LineKind, MeshError};

fn corner(v: usize, t: usize, n: usize) -> Face {
    Face {
        vertex_index: v,
        texture_index: t,
        norm_index: n,
    }
}

#[test]
fn test_face_from_str() {
    let s = "f 1193/1240/1193 1180/1227/1180 1179/1226/1178";
    let face = face_from_str(&s[2..]).unwrap();
    let expected: [Face; 3] = [
        Face {
            vertex_index: 1192,
            texture_index: 1239,
            norm_index: 1192,
        },
        Face {
            vertex_index: 1179,
            texture_index: 1226,
            norm_index: 1179,
        },
        Face {
            vertex_index: 1178,
            texture_index: 1225,
            norm_index: 1177,
        },
    ];
    assert_eq!(face, expected);
}

#[test]
fn face_indices_become_zero_based() {
    let s = "f 1193/1240/1193 1180/1227/1180 1179/1226/1179";
    let face = face_from_str(&s[2..]).unwrap();
    assert_eq!(
        face,
        [corner(1192, 1239, 1192), corner(1179, 1226, 1179), corner(1178, 1225, 1178)]
    );
}

#[test]
fn vertex_line_payload_parses_to_three_numbers() {
    let s = "v 0.123 0.234 0.345 1.0";
    let kind = classify_line(s).unwrap();
    assert_eq!(kind, LineKind::Vertex { start: 2, end: s.len() });
    let mut it = s[2..].split_ascii_whitespace();
    let x: f32 = it.next().unwrap().parse().unwrap();
    let y: f32 = it.next().unwrap().parse().unwrap();
    let z: f32 = it.next().unwrap().parse().unwrap();
    assert_eq!((x, y, z), (0.123, 0.234, 0.345));
}

#[test]
fn face_with_extra_whitespace_and_groups() {
    let face = face_from_str("  1/2/3\t4/5/6   7/8/9/10 11/12/13").unwrap();
    assert_eq!(face, [corner(0, 1, 2), corner(3, 4, 5), corner(6, 7, 8)]);
}

#[test]
fn face_index_with_plus_sign() {
    let face = face_from_str("+3/1/1 1/1/1 1/1/1").unwrap();
    assert_eq!(face[0], corner(2, 0, 0));
}

#[test]
fn face_largest_index() {
    let face = face_from_str("2147483647/1/1 1/1/1 1/1/1").unwrap();
    assert_eq!(face[0].vertex_index, 2147483646);
}

#[test]
fn face_errors() {
    let bad = [
        "",
        "1/1/1 2/2/2",
        "1/1 2/2/2 3/3/3",
        "0/1/1 2/2/2 3/3/3",
        "-1/1/1 2/2/2 3/3/3",
        "a/1/1 2/2/2 3/3/3",
        "1//1 2/2/2 3/3/3",
        "+/1/1 2/2/2 3/3/3",
        "2147483648/1/1 2/2/2 3/3/3",
        "1/1/1 2/2/2 3/3/x",
    ];
    for s in bad {
        assert_eq!(face_from_str(s), Err(MeshError::MalformedFace), "{}", s);
    }
}

#[test]
fn classify_each_kind() {
    assert_eq!(classify_line(""), Ok(LineKind::Blank));
    assert_eq!(classify_line("   \t "), Ok(LineKind::Blank));
    assert_eq!(classify_line("# a comment"), Ok(LineKind::Comment));
    assert_eq!(classify_line("  #x"), Ok(LineKind::Comment));
    let vt = "vt  0.532 0.923 0.000";
    assert_eq!(
        classify_line(vt),
        Ok(LineKind::TextureCoord { start: 2, end: vt.len() })
    );
    let vn = "vn  -0.319 -0.065 0.946  ";
    assert_eq!(classify_line(vn), Ok(LineKind::Normal { start: 2, end: vn.len() - 2 }));
    assert_eq!(
        classify_line("  v 1 2 3"),
        Ok(LineKind::Vertex { start: 4, end: 9 })
    );
    assert_eq!(
        classify_line(" f 1/2/3 4/5/6 7/8/9 "),
        Ok(LineKind::Face([corner(0, 1, 2), corner(3, 4, 5), corner(6, 7, 8)]))
    );
    assert_eq!(classify_line("f 1/2/3 4/5/6"), Err(MeshError::MalformedFace));
    assert_eq!(classify_line("o head"), Ok(LineKind::Unsupported));
    assert_eq!(classify_line("v"), Ok(LineKind::Unsupported));
    assert_eq!(classify_line("s 1"), Ok(LineKind::Unsupported));
}

#[test]
fn texture_and_normal_payloads() {
    let vt = "vt  0.532 0.923 0.000";
    if let Ok(LineKind::TextureCoord { start, end }) = classify_line(vt) {
        let mut it = vt[start..end].split_ascii_whitespace();
        let u: f32 = it.next().unwrap().parse().unwrap();
        let v: f32 = it.next().unwrap().parse().unwrap();
        assert_eq!((u, v), (0.532, 0.923));
    } else {
        panic!("not a texture coordinate line");
    }
}

#[test]
fn faces_in_bounds_checks_every_corner() {
    let faces = vec![
        [corner(0, 0, 0), corner(1, 1, 1), corner(2, 2, 2)],
        [corner(2, 1, 0), corner(1, 0, 2), corner(0, 2, 1)],
    ];
    assert!(faces_in_bounds(&faces, 3, 3, 3));
    assert!(!faces_in_bounds(&faces, 2, 3, 3));
    assert!(!faces_in_bounds(&faces, 3, 2, 3));
    assert!(!faces_in_bounds(&faces, 3, 3, 2));
    assert!(faces_in_bounds(&Vec::new(), 0, 0, 0));
}

use kd_accel::error::{LoadErrorKind, ObjError};
use kd_accel::mesh::{index_positions, index_vertices, Polygon};
use kd_accel::sorting::argsort;

fn kind_and_note(e: ObjError) -> (LoadErrorKind, &'static str) {
    let ObjError::Load(inner) = e;
    (*inner.kind(), inner.message())
}

#[test]
fn shared_corners_share_a_vertex() {
    let polygons = vec![
        Polygon::PN(vec![(0, 0), (1, 0), (2, 0)]),
        Polygon::PN(vec![(2, 0), (1, 0), (3, 0)]),
        Polygon::PN(vec![(2, 1), (1, 0), (0, 0)]),
    ];
    let (keys, indices) = index_vertices(&polygons, false).unwrap();
    assert_eq!(keys, vec![(0, 0, 0), (1, 0, 0), (2, 0, 0), (3, 0, 0), (2, 1, 0)]);
    assert_eq!(indices, vec![0, 1, 2, 2, 1, 3, 4, 1, 0]);
}

#[test]
fn texture_indices_are_passed_over_unless_asked_for() {
    let polygons = vec![Polygon::PTN(vec![(0, 7, 1), (1, 8, 1), (0, 9, 1)])];
    let (keys, indices) = index_vertices(&polygons, false).unwrap();
    assert_eq!(keys, vec![(0, 1, 0), (1, 1, 0)]);
    assert_eq!(indices, vec![0, 1, 0]);
    let (keys, indices) = index_vertices(&polygons, true).unwrap();
    assert_eq!(keys, vec![(0, 1, 7), (1, 1, 8), (0, 1, 9)]);
    assert_eq!(indices, vec![0, 1, 2]);
}

#[test]
fn mesh_without_faces_gives_empty_buffers() {
    let (keys, indices) = index_vertices(&vec![], true).unwrap();
    assert!(keys.is_empty());
    assert!(indices.is_empty());
    assert_eq!(index_positions(&vec![]).unwrap(), Vec::<u16>::new());
}

#[test]
fn faces_without_normals_are_insufficient() {
    let p = vec![Polygon::P(vec![0, 1, 2])];
    assert_eq!(
        kind_and_note(index_vertices(&p, false).unwrap_err()),
        (LoadErrorKind::InsufficientData, "Tried to extract normal data which are not contained in the model")
    );
    assert_eq!(
        kind_and_note(index_vertices(&p, true).unwrap_err()),
        (
            LoadErrorKind::InsufficientData,
            "Tried to extract normal and texture data which are not contained in the model"
        )
    );
    let pt = vec![Polygon::PT(vec![(0, 0), (1, 1), (2, 2)])];
    assert_eq!(
        kind_and_note(index_vertices(&pt, true).unwrap_err()),
        (LoadErrorKind::InsufficientData, "Tried to extract normal data which are not contained in the model")
    );
    let pn = vec![Polygon::PN(vec![(0, 0), (1, 1), (2, 2)])];
    assert_eq!(
        kind_and_note(index_vertices(&pn, true).unwrap_err()),
        (LoadErrorKind::InsufficientData, "Tried to extract texture data which are not contained in the model")
    );
}

#[test]
fn faces_that_are_no_triangles_are_refused() {
    let quad = vec![Polygon::PN(vec![(0, 0), (1, 0), (2, 0)]), Polygon::PN(vec![(0, 0), (1, 0), (2, 0), (3, 0)])];
    assert_eq!(
        kind_and_note(index_vertices(&quad, false).unwrap_err()),
        (LoadErrorKind::UntriangulatedModel, "Model should be triangulated first to be loaded properly")
    );
    let line = vec![Polygon::PTN(vec![(0, 0, 0), (1, 0, 0)])];
    assert_eq!(kind_and_note(index_vertices(&line, true).unwrap_err()).0, LoadErrorKind::UntriangulatedModel);
    let quad_p = vec![Polygon::P(vec![0, 1, 2, 3])];
    assert_eq!(
        kind_and_note(index_positions(&quad_p).unwrap_err()),
        (LoadErrorKind::UntriangulatedModel, "Model should be triangulated first to be loaded properly")
    );
}

#[test]
fn the_first_bad_face_decides() {
    let polygons = vec![Polygon::PN(vec![(0, 0), (1, 0)]), Polygon::P(vec![0, 1, 2])];
    assert_eq!(kind_and_note(index_vertices(&polygons, false).unwrap_err()).0, LoadErrorKind::UntriangulatedModel);
    let polygons = vec![Polygon::P(vec![0, 1, 2]), Polygon::PN(vec![(0, 0), (1, 0)])];
    assert_eq!(kind_and_note(index_vertices(&polygons, false).unwrap_err()).0, LoadErrorKind::InsufficientData);
}

#[test]
fn position_indices_are_taken_as_they_are() {
    let polygons = vec![
        Polygon::P(vec![0, 1, 2]),
        Polygon::PT(vec![(2, 9), (1, 9), (3, 9)]),
        Polygon::PN(vec![(65535, 0), (4, 0), (5, 0)]),
        Polygon::PTN(vec![(6, 1, 2), (7, 3, 4), (8, 5, 6)]),
    ];
    assert_eq!(index_positions(&polygons).unwrap(), vec![0, 1, 2, 2, 1, 3, 65535, 4, 5, 6, 7, 8]);
}

#[test]
fn position_index_past_sixteen_bits_is_out_of_range() {
    let polygons = vec![Polygon::P(vec![0, 1, 2]), Polygon::P(vec![0, 65536, 2])];
    assert_eq!(
        kind_and_note(index_positions(&polygons).unwrap_err()),
        (LoadErrorKind::IndexOutOfRange, "Unable to convert the index from usize")
    );
    let huge = vec![Polygon::PT(vec![(usize::MAX, 0), (0, 0), (0, 0)])];
    assert_eq!(kind_and_note(index_positions(&huge).unwrap_err()).0, LoadErrorKind::IndexOutOfRange);
}

#[test]
fn argsort_lists_positions_by_value() {
    assert_eq!(argsort(&[3, 1, 2]), vec![1, 2, 0]);
    assert_eq!(argsort(&[]), Vec::<usize>::new());
    assert_eq!(argsort(&[i32::MAX, i32::MIN, 0]), vec![1, 2, 0]);
}

#[test]
fn argsort_keeps_equal_values_in_place() {
    assert_eq!(argsort(&[5, 5, 1, 5, 1]), vec![2, 4, 0, 1, 3]);
    let data: Vec<i32> = (0..200).map(|k| (k * 37) % 11).collect();
    let order = argsort(&data);
    assert_eq!(order.len(), data.len());
    for w in order.windows(2) {
        assert!(data[w[0]] < data[w[1]] || (data[w[0]] == data[w[1]] && w[0] < w[1]));
    }
    let mut seen = vec![false; data.len()];
    for i in order {
        seen[i] = true;
    }
    assert!(seen.iter().all(|s| *s));
}

use virtual_camera::obj::{parse_obj, ObjError, ObjMesh};

fn parse(text: &str) -> Result<ObjMesh, ObjError> {
    parse_obj(text.as_bytes())
}

fn tokens(mesh: &ObjMesh) -> Vec<Vec<String>> {
    mesh.vertices
        .iter()
        .map(|v| v.iter().map(|t| String::from_utf8(t.clone()).unwrap()).collect())
        .collect()
}

fn coordinates(mesh: &ObjMesh) -> Vec<(f64, f64, f64)> {
    tokens(mesh)
        .iter()
        .map(|t| (t[0].parse().unwrap(), t[1].parse().unwrap(), t[2].parse().unwrap()))
        .collect()
}

#[test]
fn minimal_text_gives_one_triangle() {
    let mesh = parse("v 0.0 10.0 0.0\nv -10.0 0.0 -10.0\nv 10.0 0.0 -10.0\nf 1 2 3\n").unwrap();
    assert_eq!(mesh.faces, vec![(0, 1, 2)]);
    let vertices = coordinates(&mesh);
    let polygons = mesh.polygons(&vertices).unwrap();
    assert_eq!(polygons.len(), 1);
    assert_eq!(
        polygons[0].vertices(),
        vec![(0.0, 10.0, 0.0), (-10.0, 0.0, -10.0), (10.0, 0.0, -10.0)]
    );
}

#[test]
fn coordinate_tokens_are_kept_verbatim() {
    let mesh = parse("v 1.5 -2 3e2").unwrap();
    assert_eq!(tokens(&mesh), vec![vec!["1.5".to_string(), "-2".to_string(), "3e2".to_string()]]);
    assert!(mesh.faces.is_empty());
}

#[test]
fn face_order_of_indices_is_kept() {
    let mesh = parse("v 0 0 0\nv 1 0 0\nv 0 1 0\nf 3 1 2\nf 2 2 2\n").unwrap();
    assert_eq!(mesh.faces, vec![(2, 0, 1), (1, 1, 1)]);
    let vertices = coordinates(&mesh);
    let polygons = mesh.polygons(&vertices).unwrap();
    assert_eq!(polygons[0].vertices(), vec![(0.0, 1.0, 0.0), (0.0, 0.0, 0.0), (1.0, 0.0, 0.0)]);
    assert_eq!(polygons[1].vertices(), vec![(1.0, 0.0, 0.0); 3]);
}

#[test]
fn face_index_zero_is_refused() {
    let r = parse("v 0 0 0\nv 1 0 0\nv 0 1 0\nf 0 1 2\n");
    assert_eq!(r.unwrap_err(), ObjError::VertexIndexOutOfRange);
}

#[test]
fn undeclared_vertex_is_refused() {
    let r = parse("v 0 0 0\nv 1 0 0\nv 0 1 0\nf 1 2 4\n");
    assert_eq!(r.unwrap_err(), ObjError::VertexIndexOutOfRange);
}

#[test]
fn forward_reference_is_refused() {
    let r = parse("f 1 2 3\nv 0 0 0\nv 1 0 0\nv 0 1 0\n");
    assert_eq!(r.unwrap_err(), ObjError::VertexIndexOutOfRange);
}

#[test]
fn refusal_stands_whatever_follows() {
    let r = parse("v 0 0 0\nf 1 1 2\nv 1 0 0\nf 1 x 1\n");
    assert_eq!(r.unwrap_err(), ObjError::VertexIndexOutOfRange);
}

#[test]
fn missing_coordinate_is_refused() {
    assert_eq!(parse("v 1 2\n").unwrap_err(), ObjError::MissingCoordinate);
    assert_eq!(parse("v\n").unwrap_err(), ObjError::MissingCoordinate);
}

#[test]
fn coordinates_stop_at_the_line_end() {
    assert_eq!(parse("v 1 2\n3\n").unwrap_err(), ObjError::MissingCoordinate);
}

#[test]
fn missing_vertex_index_is_refused() {
    let r = parse("v 0 0 0\nf 1 1\n");
    assert_eq!(r.unwrap_err(), ObjError::MissingVertexIndex);
}

#[test]
fn non_numeric_vertex_index_is_refused() {
    assert_eq!(parse("v 0 0 0\nf 1 a 1\n").unwrap_err(), ObjError::InvalidVertexIndex);
    assert_eq!(parse("v 0 0 0\nf -1 1 1\n").unwrap_err(), ObjError::InvalidVertexIndex);
    assert_eq!(parse("v 0 0 0\nf + 1 1\n").unwrap_err(), ObjError::InvalidVertexIndex);
    assert_eq!(parse("v 0 0 0\nf 1.0 1 1\n").unwrap_err(), ObjError::InvalidVertexIndex);
}

#[test]
fn indices_are_read_before_they_are_looked_up() {
    let r = parse("v 0 0 0\nf 0 1 z\n");
    assert_eq!(r.unwrap_err(), ObjError::InvalidVertexIndex);
}

#[test]
fn index_beyond_machine_size_is_refused() {
    let r = parse("v 0 0 0\nf 1 1 99999999999999999999999999\n");
    assert_eq!(r.unwrap_err(), ObjError::InvalidVertexIndex);
}

#[test]
fn largest_index_is_read_and_found_out_of_range() {
    let text = format!("v 0 0 0\nf 1 1 {}\n", usize::MAX);
    assert_eq!(parse(&text).unwrap_err(), ObjError::VertexIndexOutOfRange);
}

#[test]
fn plus_sign_on_index_is_accepted() {
    let mesh = parse("v 0 0 0\nv 1 1 1\nf +1 2 +2\n").unwrap();
    assert_eq!(mesh.faces, vec![(0, 1, 1)]);
}

#[test]
fn other_records_and_blank_lines_are_passed_over() {
    let mesh = parse("# a comment\n\n   \nvn 0 0 1\nvt 0 0\no thing\nv 1 2 3\n").unwrap();
    assert_eq!(tokens(&mesh), vec![vec!["1".to_string(), "2".to_string(), "3".to_string()]]);
}

#[test]
fn extra_words_are_ignored() {
    let mesh = parse("v 1 2 3 4\nf 1 1 1 7\n").unwrap();
    assert_eq!(tokens(&mesh)[0], vec!["1".to_string(), "2".to_string(), "3".to_string()]);
    assert_eq!(mesh.faces, vec![(0, 0, 0)]);
}

#[test]
fn tabs_carriage_returns_and_runs_of_blanks_separate_words() {
    let mesh = parse("v\t1   2\t\t3\r\nv 4 5 6\r\n  f  1 2   2  \r\n").unwrap();
    assert_eq!(tokens(&mesh)[1], vec!["4".to_string(), "5".to_string(), "6".to_string()]);
    assert_eq!(mesh.faces, vec![(0, 1, 1)]);
}

#[test]
fn last_line_without_newline_is_read() {
    let mesh = parse("v 0 0 0\nf 1 1 1").unwrap();
    assert_eq!(mesh.faces, vec![(0, 0, 0)]);
}

#[test]
fn empty_text_gives_empty_mesh() {
    let mesh = parse("").unwrap();
    assert!(mesh.vertices.is_empty());
    assert!(mesh.faces.is_empty());
}

#[test]
fn keyword_must_stand_alone() {
    let mesh = parse("v1 2 3\nf1 2 3\nvv 1 2 3\n").unwrap();
    assert!(mesh.vertices.is_empty());
    assert!(mesh.faces.is_empty());
}

#[test]
fn polygons_need_every_named_vertex() {
    let mesh = parse("v 0 0 0\nv 1 0 0\nv 0 1 0\nf 1 2 3\n").unwrap();
    let two: Vec<u32> = vec![10, 20];
    assert!(mesh.polygons(&two).is_none());
    let three: Vec<u32> = vec![10, 20, 30];
    assert_eq!(mesh.polygons(&three).unwrap()[0].vertices(), vec![10, 20, 30]);
}

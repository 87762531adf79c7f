use raytracer::faces::{mesh_triangles, IndexTriple, MeshError, TriangleIndices};
use wavefront_obj::obj;

const CUBE: &str = "o cube
v -1 -1 -1
v 1 -1 -1
v 1 1 -1
v -1 1 -1
v -1 -1 1
v 1 -1 1
v 1 1 1
v -1 1 1
vn 0 0 -1
vn 0 0 1
f 1 3 2
f 1 4 3
f 5 6 7
f 5 7 8
f 1 2 6
f 1 6 5
f 4 8 7
f 4 7 3
f 1 5 8
f 1 8 4
f 2 3 7
f 2 7 6
";

fn triple(first: usize, second: usize, third: usize) -> IndexTriple {
    IndexTriple { first, second, third }
}

fn object(vertices: usize, normals: usize, prims: Vec<obj::Primitive>) -> obj::Object {
    let v = obj::Vertex { x: 0.0, y: 0.0, z: 0.0 };
    obj::Object {
        name: String::from("t"),
        vertices: vec![v; vertices],
        tex_vertices: vec![],
        normals: vec![v; normals],
        geometry: vec![obj::Geometry {
            material_name: None,
            shapes: prims
                .into_iter()
                .map(|primitive| obj::Shape { primitive, groups: vec![], smoothing_groups: vec![] })
                .collect(),
        }],
    }
}

#[test]
fn cube_has_twelve_triangles() {
    let set = obj::parse(CUBE).unwrap();
    let tris = mesh_triangles(&set.objects[0]).unwrap();
    assert_eq!(tris.len(), 12);
    let corners = |t: &TriangleIndices| {
        let mut c = [t.vertices.first, t.vertices.second, t.vertices.third];
        c.sort();
        c
    };
    assert_eq!(corners(&tris[0]), [0, 1, 2]);
    assert_eq!(corners(&tris[11]), [1, 5, 6]);
    assert!(tris.iter().all(|t| t.normals.is_none()));
}

#[test]
fn points_and_lines_are_left_out_and_normals_kept() {
    let o = object(
        3,
        2,
        vec![
            obj::Primitive::Point((0, None, None)),
            obj::Primitive::Triangle((0, None, Some(1)), (1, None, Some(0)), (2, Some(0), Some(1))),
            obj::Primitive::Line((0, None, None), (1, None, None)),
            obj::Primitive::Triangle((2, None, Some(1)), (1, None, None), (0, None, Some(0))),
        ],
    );
    let tris = mesh_triangles(&o).unwrap();
    assert_eq!(
        tris,
        vec![
            TriangleIndices { vertices: triple(0, 1, 2), normals: Some(triple(1, 0, 1)) },
            TriangleIndices { vertices: triple(2, 1, 0), normals: None },
        ]
    );
}

#[test]
fn mesh_without_triangles_is_an_error() {
    let o = object(2, 0, vec![obj::Primitive::Line((0, None, None), (1, None, None))]);
    assert_eq!(mesh_triangles(&o), Err(MeshError::NoTriangles));
    let empty = object(0, 0, vec![]);
    assert_eq!(mesh_triangles(&empty), Err(MeshError::NoTriangles));
}

#[test]
fn out_of_range_indices_are_an_error() {
    let o = object(3, 0, vec![obj::Primitive::Triangle((0, None, None), (1, None, None), (3, None, None))]);
    assert_eq!(mesh_triangles(&o), Err(MeshError::IndexOutOfRange));
    let n = object(3, 1, vec![obj::Primitive::Triangle((0, None, Some(0)), (1, None, Some(1)), (2, None, Some(0)))]);
    assert_eq!(mesh_triangles(&n), Err(MeshError::IndexOutOfRange));
}

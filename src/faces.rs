use vstd::prelude::*;
use wavefront_obj::obj;

verus! {

#[verifier::external_type_specification]
#[verifier::external_body]
pub struct ExObject(obj::Object);

/// One corner of a face: its vertex index and, where the file gives one, its normal index.
#[derive(Clone, Copy, Debug, PartialEq, Eq, Structural)]
pub struct Corner {
    pub vertex: usize,
    pub normal: Option<usize>,
}

/// A face of a parsed OBJ object, by the indices of its corners.
#[derive(Clone, Copy, Debug, PartialEq, Eq, Structural)]
pub enum Face {
    Point(Corner),
    Line(Corner, Corner),
    Triangle(Corner, Corner, Corner),
}

/// Three table indices, one per corner of a triangle.
#[derive(Clone, Copy, Debug, PartialEq, Eq, Structural)]
pub struct IndexTriple {
    pub first: usize,
    pub second: usize,
    pub third: usize,
}

/// A mesh triangle as indices into the object's vertex table and, when all
/// three corners name one, into its normal table.
#[derive(Clone, Copy, Debug, PartialEq, Eq, Structural)]
pub struct TriangleIndices {
    pub vertices: IndexTriple,
    pub normals: Option<IndexTriple>,
}

/// Why no mesh can be built from an object.
#[derive(Clone, Copy, Debug, PartialEq, Eq, Structural)]
pub enum MeshError {
    /// A triangle names a vertex or a normal that the object does not have.
    IndexOutOfRange,
    /// The object has no triangle.
    NoTriangles,
}

/// The faces of each geometry group of the object, in file order.
pub uninterp spec fn obj_faces(o: obj::Object) -> Seq<Seq<Face>>;

/// The number of entries in the object's vertex table and in its normal table.
pub uninterp spec fn obj_table_sizes(o: obj::Object) -> (usize, usize);

/// Relies on the public field `obj::Object::geometry`: the number of groups.
#[verifier::external_body]
fn group_count(o: &obj::Object) -> (n: usize)
    ensures
        n == obj_faces(*o).len(),
{
    o.geometry.len()
}

/// Relies on the public field `obj::Geometry::shapes`: the number of faces in group `g`.
#[verifier::external_body]
fn face_count(o: &obj::Object, g: usize) -> (n: usize)
    requires
        g < obj_faces(*o).len(),
    ensures
        n == obj_faces(*o)[g as int].len(),
{
    o.geometry[g].shapes.len()
}

/// Relies on the public field `obj::Shape::primitive`: face `s` of group `g`,
/// without its texture indices.
#[verifier::external_body]
fn face_at(o: &obj::Object, g: usize, s: usize) -> (f: Face)
    requires
        g < obj_faces(*o).len(),
        s < obj_faces(*o)[g as int].len(),
    ensures
        f == obj_faces(*o)[g as int][s as int],
{
    match o.geometry[g].shapes[s].primitive {
        obj::Primitive::Point(a) => Face::Point(Corner { vertex: a.0, normal: a.2 }),
        obj::Primitive::Line(a, b) => Face::Line(
            Corner { vertex: a.0, normal: a.2 },
            Corner { vertex: b.0, normal: b.2 },
        ),
        obj::Primitive::Triangle(a, b, c) => Face::Triangle(
            Corner { vertex: a.0, normal: a.2 },
            Corner { vertex: b.0, normal: b.2 },
            Corner { vertex: c.0, normal: c.2 },
        ),
    }
}

/// Relies on the public fields `obj::Object::vertices` and `obj::Object::normals`:
/// their lengths.
#[verifier::external_body]
fn table_sizes(o: &obj::Object) -> (r: (usize, usize))
    ensures
        r == obj_table_sizes(*o),
{
    (o.vertices.len(), o.normals.len())
}

/// The triangle that a face contributes, if it is one.
pub open spec fn triangle_of(f: Face) -> Option<TriangleIndices> {
    match f {
        Face::Triangle(a, b, c) => Some(
            TriangleIndices {
                vertices: IndexTriple { first: a.vertex, second: b.vertex, third: c.vertex },
                normals: if a.normal is Some && b.normal is Some && c.normal is Some {
                    Some(
                        IndexTriple {
                            first: a.normal.unwrap(),
                            second: b.normal.unwrap(),
                            third: c.normal.unwrap(),
                        },
                    )
                } else {
                    None
                },
            },
        ),
        _ => None,
    }
}

/// The triangles among a sequence of faces, in order.
pub open spec fn group_triangles(fs: Seq<Face>) -> Seq<TriangleIndices>
    decreases fs.len(),
{
    if fs.len() == 0 {
        Seq::empty()
    } else {
        let rest = group_triangles(fs.drop_last());
        match triangle_of(fs.last()) {
            Some(t) => rest.push(t),
            None => rest,
        }
    }
}

/// The triangles of all groups, group after group.
pub open spec fn all_triangles(gs: Seq<Seq<Face>>) -> Seq<TriangleIndices>
    decreases gs.len(),
{
    if gs.len() == 0 {
        Seq::empty()
    } else {
        all_triangles(gs.drop_last()) + group_triangles(gs.last())
    }
}

pub open spec fn fits_table(t: IndexTriple, len: usize) -> bool {
    t.first < len && t.second < len && t.third < len
}

/// Whether every index of the triangle lies inside the tables.
pub open spec fn in_tables(t: TriangleIndices, nv: usize, nn: usize) -> bool {
    &&& fits_table(t.vertices, nv)
    &&& t.normals matches Some(n) ==> fits_table(n, nn)
}

fn face_triangle(f: Face) -> (r: Option<TriangleIndices>)
    ensures
        r == triangle_of(f),
{
    match f {
        Face::Triangle(a, b, c) => {
            let normals = match (a.normal, b.normal, c.normal) {
                (Some(na), Some(nb), Some(nc)) => Some(IndexTriple { first: na, second: nb, third: nc }),
                _ => None,
            };
            let vertices = IndexTriple { first: a.vertex, second: b.vertex, third: c.vertex };
            Some(TriangleIndices { vertices, normals })
        },
        _ => None,
    }
}

/// Collects the triangles of an OBJ object, group after group; points and
/// lines are left out. A triangle keeps its normals only where all three
/// corners name one.
pub fn mesh_triangles(o: &obj::Object) -> (r: Result<Vec<TriangleIndices>, MeshError>)
    ensures
        ({
            let ts = all_triangles(obj_faces(*o));
            let (nv, nn) = obj_table_sizes(*o);
            &&& r is Ok <==> ts.len() > 0 && forall|k: int| 0 <= k < ts.len() ==> in_tables(#[trigger] ts[k], nv, nn)
            &&& r matches Ok(v) ==> v@ == ts
            &&& r == Err::<Vec<TriangleIndices>, MeshError>(MeshError::NoTriangles) <==> ts.len() == 0
            &&& r == Err::<Vec<TriangleIndices>, MeshError>(MeshError::IndexOutOfRange) <==> exists|k: int|
                0 <= k < ts.len() && !in_tables(#[trigger] ts[k], nv, nn)
        }),
{
    let ghost gs = obj_faces(*o);
    let groups = group_count(o);
    let mut out: Vec<TriangleIndices> = Vec::new();
    let mut g: usize = 0;
    while g < groups
        invariant
            gs == obj_faces(*o),
            groups == gs.len(),
            g <= groups,
            out@ == all_triangles(gs.take(g as int)),
        decreases groups - g,
    {
        let faces = face_count(o, g);
        let ghost fs = gs[g as int];
        let mut s: usize = 0;
        while s < faces
            invariant
                gs == obj_faces(*o),
                groups == gs.len(),
                g < groups,
                fs == gs[g as int],
                faces == fs.len(),
                s <= faces,
                out@ == all_triangles(gs.take(g as int)) + group_triangles(fs.take(s as int)),
            decreases faces - s,
        {
            let f = face_at(o, g, s);
            proof {
                assert(fs.take(s as int + 1).drop_last() =~= fs.take(s as int));
            }
            match face_triangle(f) {
                Some(t) => {
                    out.push(t);
                },
                None => {},
            }
            proof {
                assert(out@ =~= all_triangles(gs.take(g as int)) + group_triangles(fs.take(s as int + 1)));
            }
            s = s + 1;
        }
        proof {
            assert(fs.take(s as int) =~= fs);
            assert(gs.take(g as int + 1).drop_last() =~= gs.take(g as int));
        }
        g = g + 1;
    }
    proof {
        assert(gs.take(g as int) =~= gs);
    }
    let (nv, nn) = table_sizes(o);
    let mut i: usize = 0;
    while i < out.len()
        invariant
            i <= out@.len(),
            out@ == all_triangles(obj_faces(*o)),
            (nv, nn) == obj_table_sizes(*o),
            forall|k: int| 0 <= k < i ==> in_tables(#[trigger] out@[k], nv, nn),
        decreases out@.len() - i,
    {
        let t = out[i];
        let normals_ok = match t.normals {
            Some(n) => n.first < nn && n.second < nn && n.third < nn,
            None => true,
        };
        let v = t.vertices;
        if !(v.first < nv && v.second < nv && v.third < nv && normals_ok) {
            assert(!in_tables(out@[i as int], nv, nn));
            return Err(MeshError::IndexOutOfRange);
        }
        i = i + 1;
    }
    if out.len() == 0 {
        return Err(MeshError::NoTriangles);
    }
    Ok(out)
}

} // verus!

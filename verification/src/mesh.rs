//! Vertex and index buffers of a triangle mesh, as far as whole numbers
//! tell them: which corners share a vertex, and the index of each.
use vstd::prelude::*;
use crate::error::{LoadError, LoadErrorKind, ObjError};

verus! {

/// A vertex as the mesh names it: the indices of its position, of its
/// normal and of its texture coordinate (0 where textures are left out).
pub type Corner = (usize, usize, usize);

/// A face of the mesh, by the indices of its corners.
#[derive(Clone, Debug)]
pub enum Polygon {
    /// Positions only.
    P(Vec<usize>),
    /// Positions and texture coordinates.
    PT(Vec<(usize, usize)>),
    /// Positions and normals.
    PN(Vec<(usize, usize)>),
    /// Positions, texture coordinates and normals.
    PTN(Vec<(usize, usize, usize)>),
}

/// `num_traits::FromPrimitive::from_usize` for `u16`: the number itself
/// where it fits into sixteen bits, and nothing where it does not.
#[verifier::external_body]
fn index_from_usize(n: usize) -> (r: Option<u16>)
    ensures
        n <= u16::MAX ==> r == Some(n as u16),
        n > u16::MAX ==> r is None,
{
    num_traits::FromPrimitive::from_usize(n)
}

/// The buffers after one more corner: a corner seen before repeats its
/// index, a new one takes the next index, if that still fits.
pub open spec fn with_corner(buffers: (Seq<Corner>, Seq<u16>), corner: Corner) -> Option<
    (Seq<Corner>, Seq<u16>),
> {
    let (keys, indices) = buffers;
    if keys.contains(corner) {
        Some((keys, indices.push(keys.index_of(corner) as u16)))
    } else if keys.len() > u16::MAX {
        None
    } else {
        Some((keys.push(corner), indices.push(keys.len() as u16)))
    }
}

/// The buffers after a run of corners, or nothing where an index did not fit.
pub open spec fn with_corners(buffers: (Seq<Corner>, Seq<u16>), corners: Seq<Corner>) -> Option<
    (Seq<Corner>, Seq<u16>),
>
    decreases corners.len(),
{
    if corners.len() == 0 {
        Some(buffers)
    } else {
        match with_corners(buffers, corners.drop_last()) {
            Some(b) => with_corner(b, corners.last()),
            None => None,
        }
    }
}

/// The buffers of a mesh: the distinct corners in the order in which they
/// first occur, and for every corner of every face its place among them.
/// The first face that cannot be taken decides the failure.
pub open spec fn indexed(polygons: Seq<Polygon>, textured: bool) -> Result<
    (Seq<Corner>, Seq<u16>),
    (LoadErrorKind, Seq<char>),
>
    decreases polygons.len(),
{
    if polygons.len() == 0 {
        Ok((Seq::empty(), Seq::empty()))
    } else {
        match indexed(polygons.drop_last(), textured) {
            Err(fault) => Err(fault),
            Ok(b) => match polygons.last().corners(textured) {
                Err(fault) => Err(fault),
                Ok(corners) => match with_corners(b, corners) {
                    Some(next) => Ok(next),
                    None => Err((LoadErrorKind::IndexOutOfRange, "Unable to convert the index from usize"@)),
                },
            },
        }
    }
}

/// The index buffer of a mesh whose vertices are its positions: for every
/// corner of every face the index of its position, as far as all faces
/// are triangles and every index fits into sixteen bits. The first face
/// that cannot be taken decides the failure.
pub open spec fn positions_indexed(polygons: Seq<Polygon>) -> Result<Seq<u16>, (LoadErrorKind, Seq<char>)>
    decreases polygons.len(),
{
    if polygons.len() == 0 {
        Ok(Seq::empty())
    } else {
        match positions_indexed(polygons.drop_last()) {
            Err(fault) => Err(fault),
            Ok(indices) => match polygons.last().positions() {
                None => Err(
                    (
                        LoadErrorKind::UntriangulatedModel,
                        "Model should be triangulated first to be loaded properly"@,
                    ),
                ),
                Some(p) => if p[0] <= u16::MAX && p[1] <= u16::MAX && p[2] <= u16::MAX {
                    Ok(indices.push(p[0] as u16).push(p[1] as u16).push(p[2] as u16))
                } else {
                    Err((LoadErrorKind::IndexOutOfRange, "Unable to convert the index from usize"@))
                },
            },
        }
    }
}

/// A failure on the way is the failure of the whole mesh.
proof fn lemma_position_failure_stays(polygons: Seq<Polygon>, i: int)
    requires
        0 <= i <= polygons.len(),
        positions_indexed(polygons.take(i)) is Err,
    ensures
        positions_indexed(polygons) == positions_indexed(polygons.take(i)),
    decreases polygons.len() - i,
{
    if i < polygons.len() {
        assert(polygons.take(i + 1).drop_last() =~= polygons.take(i));
        lemma_position_failure_stays(polygons, i + 1);
    } else {
        assert(polygons.take(i) =~= polygons);
    }
}

/// No corner stands twice among the keys, the keys are few enough for
/// sixteen-bit indices, and every index names a key.
pub open spec fn consistent(buffers: (Seq<Corner>, Seq<u16>)) -> bool {
    &&& buffers.0.no_duplicates()
    &&& buffers.0.len() <= u16::MAX + 1
    &&& forall|c: int| 0 <= c < buffers.1.len() ==> (#[trigger] buffers.1[c]) < buffers.0.len()
}

/// One more corner keeps the buffers consistent, adds one index, and that
/// index names the corner.
pub proof fn lemma_with_corner(buffers: (Seq<Corner>, Seq<u16>), corner: Corner)
    requires
        consistent(buffers),
        with_corner(buffers, corner) is Some,
    ensures
        consistent(with_corner(buffers, corner).unwrap()),
        with_corner(buffers, corner).unwrap().1.len() == buffers.1.len() + 1,
        with_corner(buffers, corner).unwrap().0[with_corner(buffers, corner).unwrap().1.last() as int] == corner,
        buffers.0.is_prefix_of(with_corner(buffers, corner).unwrap().0),
        buffers.1.is_prefix_of(with_corner(buffers, corner).unwrap().1),
{
    let (keys, indices) = buffers;
    let next = with_corner(buffers, corner).unwrap();
    if keys.contains(corner) {
        let j = keys.index_of(corner);
        assert(0 <= j < keys.len() && keys[j] == corner);
        assert(next.1.last() == j as u16);
    } else {
        assert(next.0 == keys.push(corner));
        assert forall|i: int, j: int| 0 <= i < next.0.len() && 0 <= j < next.0.len() && i != j implies next.0[i]
            != next.0[j] by {
            if i == keys.len() {
                assert(keys[j] == next.0[j]);
                assert(keys.contains(keys[j]));
            } else if j == keys.len() {
                assert(keys[i] == next.0[i]);
                assert(keys.contains(keys[i]));
            }
        }
    }
    assert forall|c: int| 0 <= c < next.1.len() implies (#[trigger] next.1[c]) < next.0.len() by {
        if c < indices.len() {
            assert(next.1[c] == indices[c]);
        }
    }
}

/// The buffers of a mesh that could be indexed are consistent and hold
/// three indices for every face.
pub proof fn lemma_indexed_consistent(polygons: Seq<Polygon>, textured: bool)
    requires
        indexed(polygons, textured) is Ok,
    ensures
        consistent(indexed(polygons, textured)->Ok_0),
        indexed(polygons, textured)->Ok_0.1.len() == 3 * polygons.len(),
    decreases polygons.len(),
{
    if polygons.len() > 0 {
        lemma_indexed_consistent(polygons.drop_last(), textured);
        let b = indexed(polygons.drop_last(), textured)->Ok_0;
        let corners = polygons.last().corners(textured)->Ok_0;
        assert(corners.len() == 3);
        let c0 = corners.drop_last().drop_last();
        reveal_with_fuel(with_corners, 4);
        assert(c0.drop_last().len() == 0);
        assert(with_corners(b, c0.drop_last()) == Some(b));
        assert(with_corners(b, c0) == with_corner(b, c0.last()));
        let b1 = with_corner(b, c0.last()).unwrap();
        lemma_with_corner(b, c0.last());
        let b2 = with_corner(b1, corners.drop_last().last()).unwrap();
        lemma_with_corner(b1, corners.drop_last().last());
        lemma_with_corner(b2, corners.last());
    }
}

/// The corners of all faces of a mesh of triangles, face by face.
pub open spec fn all_corners(polygons: Seq<Polygon>, textured: bool) -> Seq<Corner>
    decreases polygons.len(),
{
    if polygons.len() == 0 {
        Seq::empty()
    } else {
        match polygons.last().corners(textured) {
            Ok(corners) => all_corners(polygons.drop_last(), textured) + corners,
            Err(fault) => all_corners(polygons.drop_last(), textured),
        }
    }
}

/// Every index of the buffers names the corner that it stands for: the
/// `c`-th index points at the key that equals the `c`-th corner of the mesh.
#[verifier::rlimit(50)]
pub proof fn lemma_indices_name_corners(polygons: Seq<Polygon>, textured: bool, c: int)
    requires
        indexed(polygons, textured) is Ok,
        0 <= c < 3 * polygons.len(),
    ensures
        all_corners(polygons, textured).len() == 3 * polygons.len(),
        indexed(polygons, textured)->Ok_0.1.len() == 3 * polygons.len(),
        0 <= indexed(polygons, textured)->Ok_0.1[c] < indexed(polygons, textured)->Ok_0.0.len(),
        indexed(polygons, textured)->Ok_0.0[indexed(polygons, textured)->Ok_0.1[c] as int] == all_corners(
            polygons,
            textured,
        )[c],
    decreases polygons.len(),
{
    let init = polygons.drop_last();
    lemma_indexed_consistent(polygons, textured);
    lemma_indexed_consistent(init, textured);
    lemma_all_corners_len(polygons, textured);
    lemma_all_corners_len(init, textured);
    let b = indexed(init, textured)->Ok_0;
    let corners = polygons.last().corners(textured)->Ok_0;
    let c0 = corners.drop_last().drop_last();
    reveal_with_fuel(with_corners, 4);
    assert(c0.drop_last().len() == 0);
    assert(with_corners(b, c0) == with_corner(b, c0.last()));
    let b1 = with_corner(b, c0.last()).unwrap();
    lemma_with_corner(b, c0.last());
    let b2 = with_corner(b1, corners.drop_last().last()).unwrap();
    lemma_with_corner(b1, corners.drop_last().last());
    let b3 = with_corner(b2, corners.last()).unwrap();
    lemma_with_corner(b2, corners.last());
    assert(b3 == indexed(polygons, textured)->Ok_0);
    let base = 3 * init.len();
    assert(c0.last() == corners[0] && corners.drop_last().last() == corners[1] && corners.last() == corners[2]);
    if c < base {
        lemma_indices_name_corners(init, textured, c);
        assert(b3.1[c] == b.1[c]);
        assert(b3.0[b.1[c] as int] == b.0[b.1[c] as int]);
    } else if c == base {
        assert(b3.1[c] == b1.1.last());
        assert(b3.0[b1.1.last() as int] == b1.0[b1.1.last() as int]);
    } else if c == base + 1 {
        assert(b3.1[c] == b2.1.last());
        assert(b3.0[b2.1.last() as int] == b2.0[b2.1.last() as int]);
    } else {
        assert(b3.1[c] == b3.1.last());
    }
}

/// A mesh that could be indexed has three corners for every face.
proof fn lemma_all_corners_len(polygons: Seq<Polygon>, textured: bool)
    requires
        indexed(polygons, textured) is Ok,
    ensures
        all_corners(polygons, textured).len() == 3 * polygons.len(),
    decreases polygons.len(),
{
    if polygons.len() > 0 {
        lemma_all_corners_len(polygons.drop_last(), textured);
    }
}

/// A failure on the way is the failure of the whole mesh.
proof fn lemma_failure_stays(polygons: Seq<Polygon>, textured: bool, i: int)
    requires
        0 <= i <= polygons.len(),
        indexed(polygons.take(i), textured) is Err,
    ensures
        indexed(polygons, textured) == indexed(polygons.take(i), textured),
    decreases polygons.len() - i,
{
    if i < polygons.len() {
        assert(polygons.take(i + 1).drop_last() =~= polygons.take(i));
        lemma_failure_stays(polygons, textured, i + 1);
    } else {
        assert(polygons.take(i) =~= polygons);
    }
}

impl Polygon {
    /// The three corners of a triangle as they enter the buffers, or why
    /// the face cannot be taken: it lacks data that the vertices need, or
    /// it is no triangle.
    pub open spec fn corners(self, textured: bool) -> Result<Seq<Corner>, (LoadErrorKind, Seq<char>)> {
        match self {
            Polygon::P(v) => Err(
                (
                    LoadErrorKind::InsufficientData,
                    if textured {
                        "Tried to extract normal and texture data which are not contained in the model"@
                    } else {
                        "Tried to extract normal data which are not contained in the model"@
                    },
                ),
            ),
            Polygon::PT(v) => Err(
                (
                    LoadErrorKind::InsufficientData,
                    "Tried to extract normal data which are not contained in the model"@,
                ),
            ),
            Polygon::PN(v) => if textured {
                Err(
                    (
                        LoadErrorKind::InsufficientData,
                        "Tried to extract texture data which are not contained in the model"@,
                    ),
                )
            } else if v@.len() == 3 {
                Ok(Seq::new(3, |k: int| (v@[k].0, v@[k].1, 0usize)))
            } else {
                Err(
                    (
                        LoadErrorKind::UntriangulatedModel,
                        "Model should be triangulated first to be loaded properly"@,
                    ),
                )
            },
            Polygon::PTN(v) => if v@.len() == 3 {
                Ok(
                    Seq::new(
                        3,
                        |k: int|
                            if textured {
                                (v@[k].0, v@[k].2, v@[k].1)
                            } else {
                                (v@[k].0, v@[k].2, 0usize)
                            },
                    ),
                )
            } else {
                Err(
                    (
                        LoadErrorKind::UntriangulatedModel,
                        "Model should be triangulated first to be loaded properly"@,
                    ),
                )
            },
        }
    }

    /// The position indices of the three corners of a triangle; nothing
    /// for a face that is no triangle.
    pub open spec fn positions(self) -> Option<Seq<usize>> {
        match self {
            Polygon::P(v) => if v@.len() == 3 {
                Some(v@)
            } else {
                None
            },
            Polygon::PT(v) => if v@.len() == 3 {
                Some(Seq::new(3, |k: int| v@[k].0))
            } else {
                None
            },
            Polygon::PN(v) => if v@.len() == 3 {
                Some(Seq::new(3, |k: int| v@[k].0))
            } else {
                None
            },
            Polygon::PTN(v) => if v@.len() == 3 {
                Some(Seq::new(3, |k: int| v@[k].0))
            } else {
                None
            },
        }
    }

    /// Reads the position indices of the face's corners.
    pub fn read_positions(&self) -> (r: Option<[usize; 3]>)
        ensures
            r is Some == self.positions() is Some,
            r is Some ==> r.unwrap()@ == self.positions().unwrap(),
    {
        let found = match self {
            Polygon::P(v) => if v.len() == 3 {
                Some([v[0], v[1], v[2]])
            } else {
                None
            },
            Polygon::PT(v) => if v.len() == 3 {
                Some([v[0].0, v[1].0, v[2].0])
            } else {
                None
            },
            Polygon::PN(v) => if v.len() == 3 {
                Some([v[0].0, v[1].0, v[2].0])
            } else {
                None
            },
            Polygon::PTN(v) => if v.len() == 3 {
                Some([v[0].0, v[1].0, v[2].0])
            } else {
                None
            },
        };
        proof {
            if found is Some {
                assert(found.unwrap()@ =~= self.positions().unwrap());
            }
        }
        found
    }

    /// Reads the corners of the face.
    pub fn read_corners(&self, textured: bool) -> (r: Result<Vec<Corner>, LoadError>)
        ensures
            match self.corners(textured) {
                Ok(corners) => r matches Ok(v) && v@ == corners,
                Err((kind, note)) => r matches Err(e) && e.kind_of() == kind && e.note_of() == note,
            },
    {
        match self {
            Polygon::P(_) => {
                if textured {
                    Err(
                        LoadError::new(
                            LoadErrorKind::InsufficientData,
                            "Tried to extract normal and texture data which are not contained in the model",
                        ),
                    )
                } else {
                    Err(
                        LoadError::new(
                            LoadErrorKind::InsufficientData,
                            "Tried to extract normal data which are not contained in the model",
                        ),
                    )
                }
            },
            Polygon::PT(_) => Err(
                LoadError::new(
                    LoadErrorKind::InsufficientData,
                    "Tried to extract normal data which are not contained in the model",
                ),
            ),
            Polygon::PN(v) => {
                if textured {
                    Err(
                        LoadError::new(
                            LoadErrorKind::InsufficientData,
                            "Tried to extract texture data which are not contained in the model",
                        ),
                    )
                } else if v.len() == 3 {
                    let mut out: Vec<Corner> = Vec::new();
                    out.push((v[0].0, v[0].1, 0));
                    out.push((v[1].0, v[1].1, 0));
                    out.push((v[2].0, v[2].1, 0));
                    proof {
                        assert(out@ =~= self.corners(textured)->Ok_0);
                    }
                    Ok(out)
                } else {
                    Err(
                        LoadError::new(
                            LoadErrorKind::UntriangulatedModel,
                            "Model should be triangulated first to be loaded properly",
                        ),
                    )
                }
            },
            Polygon::PTN(v) => {
                if v.len() == 3 {
                    let mut out: Vec<Corner> = Vec::new();
                    out.push((v[0].0, v[0].2, if textured { v[0].1 } else { 0 }));
                    out.push((v[1].0, v[1].2, if textured { v[1].1 } else { 0 }));
                    out.push((v[2].0, v[2].2, if textured { v[2].1 } else { 0 }));
                    proof {
                        assert(out@ =~= self.corners(textured)->Ok_0);
                    }
                    Ok(out)
                } else {
                    Err(
                        LoadError::new(
                            LoadErrorKind::UntriangulatedModel,
                            "Model should be triangulated first to be loaded properly",
                        ),
                    )
                }
            },
        }
    }
}

/// Enters one corner into the buffers; false, with the buffers as they
/// were, where its index does not fit.
fn add_corner(keys: &mut Vec<Corner>, indices: &mut Vec<u16>, corner: Corner) -> (ok: bool)
    requires
        consistent((old(keys)@, old(indices)@)),
    ensures
        ok == (with_corner((old(keys)@, old(indices)@), corner) is Some),
        ok ==> Some((final(keys)@, final(indices)@)) == with_corner((old(keys)@, old(indices)@), corner),
        !ok ==> final(keys)@ == old(keys)@ && final(indices)@ == old(indices)@,
        consistent((final(keys)@, final(indices)@)),
{
    let mut j: usize = 0;
    while j < keys.len()
        invariant
            j <= keys@.len(),
            keys@ == old(keys)@,
            indices@ == old(indices)@,
            consistent((keys@, indices@)),
            forall|k: int| 0 <= k < j ==> keys@[k] != corner,
        decreases keys@.len() - j,
    {
        let k = keys[j];
        if k.0 == corner.0 && k.1 == corner.1 && k.2 == corner.2 {
            proof {
                assert(keys@[j as int] == corner);
                assert(keys@.contains(corner));
                let at = keys@.index_of(corner);
                assert(0 <= at < keys@.len() && keys@[at] == corner);
                assert(at == j);
                lemma_with_corner((keys@, indices@), corner);
            }
            indices.push(j as u16);
            return true;
        }
        j += 1;
    }
    proof {
        assert(!keys@.contains(corner));
    }
    match index_from_usize(keys.len()) {
        Some(index) => {
            proof {
                lemma_with_corner((keys@, indices@), corner);
            }
            keys.push(corner);
            indices.push(index);
            true
        },
        None => false,
    }
}

/// Builds the vertex keys and the index buffer of a mesh of triangles.
/// With `textured` every corner needs position, normal and texture
/// coordinate; without it position and normal, and texture coordinates
/// are passed over.
#[verifier::rlimit(50)]
pub fn index_vertices(polygons: &Vec<Polygon>, textured: bool) -> (r: Result<(Vec<Corner>, Vec<u16>), ObjError>)
    ensures
        match indexed(polygons@, textured) {
            Ok((keys, indices)) => r matches Ok(b) && b.0@ == keys && b.1@ == indices,
            Err((kind, note)) => r matches Err(ObjError::Load(e)) && e.kind_of() == kind && e.note_of() == note,
        },
{
    let mut keys: Vec<Corner> = Vec::new();
    let mut indices: Vec<u16> = Vec::new();
    let mut i: usize = 0;
    proof {
        assert(polygons@.take(0) =~= Seq::empty());
    }
    while i < polygons.len()
        invariant
            i <= polygons@.len(),
            indexed(polygons@.take(i as int), textured) == Ok::<
                (Seq<Corner>, Seq<u16>),
                (LoadErrorKind, Seq<char>),
            >((keys@, indices@)),
            consistent((keys@, indices@)),
        decreases polygons@.len() - i,
    {
        proof {
            assert(polygons@.take(i + 1).drop_last() =~= polygons@.take(i as int));
            assert(polygons@.take(i + 1).last() == polygons@[i as int]);
        }
        let corners = match polygons[i].read_corners(textured) {
            Ok(corners) => corners,
            Err(e) => {
                proof {
                    lemma_failure_stays(polygons@, textured, i + 1);
                }
                return Err(ObjError::Load(e));
            },
        };
        let ghost start = (keys@, indices@);
        let mut c: usize = 0;
        while c < 3
            invariant
                c <= 3,
                corners@.len() == 3,
                i < polygons@.len(),
                indexed(polygons@.take(i as int), textured) == Ok::<
                    (Seq<Corner>, Seq<u16>),
                    (LoadErrorKind, Seq<char>),
                >(start),
                polygons@.take(i + 1).drop_last() == polygons@.take(i as int),
                polygons@.take(i + 1).last().corners(textured) == Ok::<Seq<Corner>, (LoadErrorKind, Seq<char>)>(
                    corners@,
                ),
                with_corners(start, corners@.take(c as int)) == Some((keys@, indices@)),
                consistent((keys@, indices@)),
            decreases 3 - c,
        {
            proof {
                assert(corners@.take(c + 1).drop_last() =~= corners@.take(c as int));
                assert(corners@.take(c + 1).last() == corners@[c as int]);
            }
            if !add_corner(&mut keys, &mut indices, corners[c]) {
                proof {
                    assert(with_corners(start, corners@.take(c + 1)) is None);
                    lemma_overflow_stays(start, corners@, c + 1);
                    lemma_failure_stays(polygons@, textured, i + 1);
                }
                return Err(
                    ObjError::Load(
                        LoadError::new(LoadErrorKind::IndexOutOfRange, "Unable to convert the index from usize"),
                    ),
                );
            }
            c += 1;
        }
        proof {
            assert(corners@.take(3) =~= corners@);
        }
        i += 1;
    }
    proof {
        assert(polygons@.take(i as int) =~= polygons@);
    }
    Ok((keys, indices))
}

/// Builds the index buffer of a mesh of triangles whose vertices are its
/// positions.
pub fn index_positions(polygons: &Vec<Polygon>) -> (r: Result<Vec<u16>, ObjError>)
    ensures
        match positions_indexed(polygons@) {
            Ok(indices) => r matches Ok(v) && v@ == indices,
            Err((kind, note)) => r matches Err(ObjError::Load(e)) && e.kind_of() == kind && e.note_of() == note,
        },
{
    let mut indices: Vec<u16> = Vec::new();
    let mut i: usize = 0;
    proof {
        assert(polygons@.take(0) =~= Seq::empty());
    }
    while i < polygons.len()
        invariant
            i <= polygons@.len(),
            positions_indexed(polygons@.take(i as int)) == Ok::<Seq<u16>, (LoadErrorKind, Seq<char>)>(indices@),
        decreases polygons@.len() - i,
    {
        proof {
            assert(polygons@.take(i + 1).drop_last() =~= polygons@.take(i as int));
            assert(polygons@.take(i + 1).last() == polygons@[i as int]);
        }
        let p = match polygons[i].read_positions() {
            Some(p) => p,
            None => {
                proof {
                    lemma_position_failure_stays(polygons@, i + 1);
                }
                return Err(
                    ObjError::Load(
                        LoadError::new(
                            LoadErrorKind::UntriangulatedModel,
                            "Model should be triangulated first to be loaded properly",
                        ),
                    ),
                );
            },
        };
        match (index_from_usize(p[0]), index_from_usize(p[1]), index_from_usize(p[2])) {
            (Some(a), Some(b), Some(c)) => {
                indices.push(a);
                indices.push(b);
                indices.push(c);
            },
            _ => {
                proof {
                    lemma_position_failure_stays(polygons@, i + 1);
                }
                return Err(
                    ObjError::Load(
                        LoadError::new(LoadErrorKind::IndexOutOfRange, "Unable to convert the index from usize"),
                    ),
                );
            },
        }
        i += 1;
    }
    proof {
        assert(polygons@.take(i as int) =~= polygons@);
    }
    Ok(indices)
}

/// Once an index did not fit, the rest of the corners changes nothing.
proof fn lemma_overflow_stays(buffers: (Seq<Corner>, Seq<u16>), corners: Seq<Corner>, c: int)
    requires
        0 <= c <= corners.len(),
        with_corners(buffers, corners.take(c)) is None,
    ensures
        with_corners(buffers, corners) is None,
    decreases corners.len() - c,
{
    if c < corners.len() {
        assert(corners.take(c + 1).drop_last() =~= corners.take(c));
        lemma_overflow_stays(buffers, corners, c + 1);
    } else {
        assert(corners.take(c) =~= corners);
    }
}

} // verus!

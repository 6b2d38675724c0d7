use crate::brick::{lemma_files_by_name_finite, BrickModel, LDrawBrick};
use crate::command::{
    clone_strings, views, BFCDirection, Color, Matrix, MatrixModel, Vector, VectorModel,
};
use crate::part::{FileModel, LDrawFile, LDrawTriangle, SubfileModel, TriangleModel};
use vstd::prelude::*;

verus! {

/// One step from a file into a file it refers to: the linear transform of the
/// reference, then its translation.
#[derive(Debug, PartialEq, Eq)]
pub struct Placement {
    pub translation: Vector,
    pub transformation: Matrix,
}

/// What a `Placement` holds.
pub struct PlacementModel {
    pub translation: VectorModel,
    pub transformation: MatrixModel,
}

impl View for Placement {
    type V = PlacementModel;

    open spec fn view(&self) -> PlacementModel {
        PlacementModel { translation: self.translation@, transformation: self.transformation@ }
    }
}

impl Clone for Placement {
    fn clone(&self) -> (r: Self)
        ensures
            r@ == self@,
    {
        Placement {
            translation: self.translation.clone(),
            transformation: self.transformation.clone(),
        }
    }
}

/// A triangle of the assembled model.
///
/// The corners are in the coordinates of the file that holds the triangle, and
/// `placements` are the references that lead from the entry file down to that
/// file, outermost first. Where `T(p)` moves by the translation of `p` and `L(p)`
/// is the matrix whose rows are the rows of `p`, a corner `v` lies in the model
/// at `T(p1) L(p1) ... T(pk) L(pk) v`. The corners are in the order in which
/// they are to be drawn.
#[derive(Debug, Clone, PartialEq, Eq)]
pub struct WorldTriangle {
    pub color: Color,
    pub placements: Vec<Placement>,
    pub a: Vector,
    pub b: Vector,
    pub c: Vector,
}

/// What a `WorldTriangle` holds.
pub struct WorldTriangleModel {
    pub color: Color,
    pub placements: Seq<PlacementModel>,
    pub a: VectorModel,
    pub b: VectorModel,
    pub c: VectorModel,
}

impl View for WorldTriangle {
    type V = WorldTriangleModel;

    open spec fn view(&self) -> WorldTriangleModel {
        WorldTriangleModel {
            color: self.color,
            placements: views(self.placements@),
            a: self.a@,
            b: self.b@,
            c: self.c@,
        }
    }
}

/// Why a model could not be flattened.
#[derive(Debug, Clone, PartialEq, Eq)]
pub enum ResolveError {
    /// No file declares the name `filename`. `chain` holds the names of the files
    /// that lead to the reference, from the entry file on.
    UnresolvedSubfileReference { filename: String, chain: Vec<String> },
    /// The file `filename` refers to itself, directly or through other files.
    ReferenceCycle { filename: String },
}

/// What a `ResolveError` holds.
pub enum ResolveFailure {
    UnresolvedSubfileReference { filename: Seq<char>, chain: Seq<Seq<char>> },
    ReferenceCycle { filename: Seq<char> },
}

impl View for ResolveError {
    type V = ResolveFailure;

    open spec fn view(&self) -> ResolveFailure {
        match *self {
            ResolveError::UnresolvedSubfileReference { filename, chain } => {
                ResolveFailure::UnresolvedSubfileReference {
                    filename: filename@,
                    chain: views(chain@),
                }
            },
            ResolveError::ReferenceCycle { filename } => ResolveFailure::ReferenceCycle {
                filename: filename@,
            },
        }
    }
}

/// A triangle as it is drawn under a winding: its corners in the order of the
/// file where the winding is counter-clockwise, and with the last two exchanged
/// where it is clockwise.
pub open spec fn placed(
    t: TriangleModel,
    placements: Seq<PlacementModel>,
    winding: BFCDirection,
) -> WorldTriangleModel {
    match winding {
        BFCDirection::CCW => WorldTriangleModel { color: t.color, placements, a: t.x, b: t.y, c: t.z },
        BFCDirection::CW => WorldTriangleModel { color: t.color, placements, a: t.x, b: t.z, c: t.y },
    }
}

/// The triangles of one file as they are drawn.
pub open spec fn placed_triangles(
    triangles: Seq<TriangleModel>,
    placements: Seq<PlacementModel>,
    winding: BFCDirection,
) -> Seq<WorldTriangleModel> {
    Seq::new(triangles.len(), |i: int| placed(triangles[i], placements, winding))
}

/// The step that a reference makes.
pub open spec fn placement_of(r: SubfileModel) -> PlacementModel {
    PlacementModel { translation: r.translation, transformation: r.transformation }
}

/// How many files are not on the trail.
pub open spec fn remaining(parts: Map<Seq<char>, FileModel>, trail: Seq<Seq<char>>) -> nat {
    parts.dom().difference(trail.to_set()).len()
}

/// The triangles of the file `name` and of all it refers to, the file's own first
/// and then those of each reference in turn.
///
/// `placements` lead from the entry file to this file, `winding` is the winding
/// under which it is drawn, and `trail` names the files that are being expanded,
/// from the entry file on. A name that no file declares and a name that is on
/// the trail already end the work.
pub open spec fn flatten_file(
    parts: Map<Seq<char>, FileModel>,
    name: Seq<char>,
    placements: Seq<PlacementModel>,
    winding: BFCDirection,
    trail: Seq<Seq<char>>,
) -> Result<Seq<WorldTriangleModel>, ResolveFailure>
    decreases remaining(parts, trail), 0nat,
    when parts.dom().finite()
    via flatten_file_decreases
{
    if !parts.dom().contains(name) {
        Err(ResolveFailure::UnresolvedSubfileReference { filename: name, chain: trail })
    } else if trail.contains(name) {
        Err(ResolveFailure::ReferenceCycle { filename: name })
    } else {
        match flatten_references(
            parts,
            parts[name].subfiles,
            parts[name].subfiles.len(),
            placements,
            trail.push(name),
        ) {
            Ok(below) => Ok(placed_triangles(parts[name].triangles, placements, winding) + below),
            Err(e) => Err(e),
        }
    }
}

/// The triangles of the first `count` of the references of a file, in turn.
pub open spec fn flatten_references(
    parts: Map<Seq<char>, FileModel>,
    references: Seq<SubfileModel>,
    count: nat,
    placements: Seq<PlacementModel>,
    trail: Seq<Seq<char>>,
) -> Result<Seq<WorldTriangleModel>, ResolveFailure>
    decreases remaining(parts, trail), count + 1,
    when parts.dom().finite()
{
    if count == 0 {
        Ok(Seq::empty())
    } else {
        match flatten_references(parts, references, (count - 1) as nat, placements, trail) {
            Err(e) => Err(e),
            Ok(before) => {
                let r = references[count - 1];
                match flatten_file(
                    parts,
                    r.filename,
                    placements.push(placement_of(r)),
                    r.bfc_direction,
                    trail,
                ) {
                    Err(e) => Err(e),
                    Ok(inner) => Ok(before + inner),
                }
            },
        }
    }
}

#[via_fn]
proof fn flatten_file_decreases(
    parts: Map<Seq<char>, FileModel>,
    name: Seq<char>,
    placements: Seq<PlacementModel>,
    winding: BFCDirection,
    trail: Seq<Seq<char>>,
) {
    if parts.dom().contains(name) && !trail.contains(name) {
        lemma_remaining_decreases(parts, trail, name);
    }
}

/// Taking a file onto the trail leaves fewer files off it.
pub proof fn lemma_remaining_decreases(
    parts: Map<Seq<char>, FileModel>,
    trail: Seq<Seq<char>>,
    name: Seq<char>,
)
    requires
        parts.dom().finite(),
        parts.dom().contains(name),
        !trail.contains(name),
    ensures
        remaining(parts, trail.push(name)) < remaining(parts, trail),
{
    let off = parts.dom().difference(trail.to_set());
    let next = parts.dom().difference(trail.push(name).to_set());
    assert(off.finite());
    assert(off.contains(name));
    assert(next =~= off.remove(name)) by {
        assert forall|n: Seq<char>| next.contains(n) <==> off.remove(name).contains(n) by {
            if trail.push(name).contains(n) {
                let i = choose|i: int| 0 <= i < trail.push(name).len() && trail.push(name)[i] == n;
                if i < trail.len() {
                    assert(trail[i] == n);
                }
            }
            if trail.contains(n) {
                let i = choose|i: int| 0 <= i < trail.len() && trail[i] == n;
                assert(trail.push(name)[i] == n);
            }
            if n == name {
                assert(trail.push(name)[trail.len() as int] == name);
            }
        }
    }
}

/// The triangles of the whole model, from its entry file on, under the entry
/// file's own winding.
pub open spec fn flattened(brick: BrickModel) -> Result<Seq<WorldTriangleModel>, ResolveFailure> {
    if brick.files.dom().contains(brick.entry_file) {
        flatten_file(
            brick.files,
            brick.entry_file,
            Seq::empty(),
            brick.files[brick.entry_file].bfc_direction,
            Seq::empty(),
        )
    } else {
        Err(
            ResolveFailure::UnresolvedSubfileReference {
                filename: brick.entry_file,
                chain: Seq::empty(),
            },
        )
    }
}

/// The view of the triangles of a model or of the failure to flatten it.
pub open spec fn flatten_result_view(r: Result<Vec<WorldTriangle>, ResolveError>) -> Result<
    Seq<WorldTriangleModel>,
    ResolveFailure,
> {
    match r {
        Ok(triangles) => Ok(views(triangles@)),
        Err(e) => Err(e@),
    }
}

/// Once some of the references of a file fail, all of them fail in the same way.
pub proof fn lemma_flatten_references_fails(
    parts: Map<Seq<char>, FileModel>,
    references: Seq<SubfileModel>,
    count: nat,
    total: nat,
    placements: Seq<PlacementModel>,
    trail: Seq<Seq<char>>,
)
    requires
        parts.dom().finite(),
        count <= total,
        flatten_references(parts, references, count, placements, trail) is Err,
    ensures
        flatten_references(parts, references, total, placements, trail) == flatten_references(
            parts,
            references,
            count,
            placements,
            trail,
        ),
    decreases total - count,
{
    if count < total {
        lemma_flatten_references_fails(
            parts,
            references,
            count,
            (total - 1) as nat,
            placements,
            trail,
        );
    }
}

fn trail_contains(trail: &Vec<String>, name: &String) -> (r: bool)
    ensures
        r == views(trail@).contains(name@),
{
    let mut i: usize = 0;
    while i < trail.len()
        invariant
            i <= trail.len(),
            forall|j: int| 0 <= j < i ==> views(trail@)[j] != name@,
        decreases trail.len() - i,
    {
        if trail[i] == *name {
            assert(views(trail@)[i as int] == name@);
            return true;
        }
        i += 1;
    }
    false
}

fn clone_placements(placements: &Vec<Placement>) -> (r: Vec<Placement>)
    ensures
        views(r@) == views(placements@),
{
    let mut out: Vec<Placement> = Vec::new();
    let mut i: usize = 0;
    while i < placements.len()
        invariant
            i <= placements.len(),
            views(out@) == views(placements@).take(i as int),
        decreases placements.len() - i,
    {
        let ghost before = views(out@);
        let p = placements[i].clone();
        out.push(p);
        i += 1;
        assert(views(out@) =~= before.push(placements@[i - 1]@));
        assert(views(out@) =~= views(placements@).take(i as int));
    }
    assert(views(placements@).take(placements.len() as int) == views(placements@));
    out
}

/// Draws one triangle under a winding.
pub fn place_triangle(t: &LDrawTriangle, placements: &Vec<Placement>, winding: BFCDirection) -> (r:
    WorldTriangle)
    ensures
        r@ == placed(t@, views(placements@), winding),
{
    match winding {
        BFCDirection::CCW => WorldTriangle {
            color: t.color,
            placements: clone_placements(placements),
            a: t.x.clone(),
            b: t.y.clone(),
            c: t.z.clone(),
        },
        BFCDirection::CW => WorldTriangle {
            color: t.color,
            placements: clone_placements(placements),
            a: t.x.clone(),
            b: t.z.clone(),
            c: t.y.clone(),
        },
    }
}

fn place_triangles(
    file: &LDrawFile,
    placements: &Vec<Placement>,
    winding: BFCDirection,
    out: &mut Vec<WorldTriangle>,
)
    ensures
        views(final(out)@) == views(old(out)@) + placed_triangles(
            file@.triangles,
            views(placements@),
            winding,
        ),
{
    let ghost before = views(out@);
    let ghost all = placed_triangles(file@.triangles, views(placements@), winding);
    let mut i: usize = 0;
    assert(before + all.take(0) =~= before);
    while i < file.triangles.len()
        invariant
            i <= file.triangles.len(),
            all == placed_triangles(file@.triangles, views(placements@), winding),
            views(out@) == before + all.take(i as int),
        decreases file.triangles.len() - i,
    {
        let ghost so_far = views(out@);
        let t = place_triangle(&file.triangles[i], placements, winding);
        out.push(t);
        assert(views(out@) =~= so_far.push(t@));
        assert(all[i as int] == t@);
        i += 1;
        assert(before + all.take(i as int) =~= (before + all.take(i - 1)).push(all[i - 1]));
    }
    assert(all.take(file.triangles.len() as int) == all);
}

#[verifier::loop_isolation(false)]
fn collect_triangles(
    brick: &LDrawBrick,
    name: &String,
    winding: BFCDirection,
    placements: &mut Vec<Placement>,
    trail: &mut Vec<String>,
    out: &mut Vec<WorldTriangle>,
) -> (r: Result<(), ResolveError>)
    ensures
        match flatten_file(
            brick@.files,
            name@,
            views(old(placements)@),
            winding,
            views(old(trail)@),
        ) {
            Ok(triangles) => {
                &&& r is Ok
                &&& views(final(out)@) == views(old(out)@) + triangles
                &&& views(final(placements)@) == views(old(placements)@)
                &&& views(final(trail)@) == views(old(trail)@)
            },
            Err(failure) => r is Err && r->Err_0@ == failure,
        },
    decreases remaining(brick@.files, views(old(trail)@)),
{
    let ghost parts = brick@.files;
    let ghost placements0 = views(placements@);
    let ghost trail0 = views(trail@);
    let ghost out0 = views(out@);
    proof {
        lemma_files_by_name_finite(views(brick.files@));
    }
    let index = match brick.find(name) {
        Some(i) => i,
        None => {
            return Err(
                ResolveError::UnresolvedSubfileReference {
                    filename: name.clone(),
                    chain: clone_strings(trail),
                },
            );
        },
    };
    if trail_contains(trail, name) {
        return Err(ResolveError::ReferenceCycle { filename: name.clone() });
    }
    let file = &brick.files[index];
    let ghost references = file@.subfiles;
    assert(file@ == parts[name@]);
    place_triangles(file, placements, winding, out);
    let ghost own = placed_triangles(file@.triangles, placements0, winding);
    trail.push(name.clone());
    let ghost trail1 = trail0.push(name@);
    assert(views(trail@) =~= trail1);
    proof {
        lemma_remaining_decreases(parts, trail0, name@);
    }
    let ghost mut below: Seq<WorldTriangleModel> = Seq::empty();
    let mut k: usize = 0;
    assert(out0 + own + below =~= out0 + own);
    while k < file.subfiles.len()
        invariant
            k <= file.subfiles.len(),
            parts == brick@.files,
            parts.dom().finite(),
            references == file@.subfiles,
            references.len() == file.subfiles.len(),
            views(placements@) == placements0,
            views(trail@) == trail1,
            remaining(parts, trail1) < remaining(parts, trail0),
            flatten_references(parts, references, k as nat, placements0, trail1) == Ok::<
                Seq<WorldTriangleModel>,
                ResolveFailure,
            >(below),
            views(out@) == out0 + own + below,
        decreases file.subfiles.len() - k,
    {
        let reference = &file.subfiles[k];
        assert(references[k as int] == reference@);
        let step = Placement {
            translation: reference.translation.clone(),
            transformation: reference.transformation.clone(),
        };
        placements.push(step);
        assert(views(placements@) =~= placements0.push(placement_of(reference@)));
        let ghost mid = views(out@);
        let inner = collect_triangles(
            brick,
            &reference.filename,
            reference.bfc_direction,
            placements,
            trail,
            out,
        );
        match inner {
            Ok(()) => {},
            Err(e) => {
                proof {
                    lemma_flatten_references_fails(
                        parts,
                        references,
                        (k + 1) as nat,
                        references.len(),
                        placements0,
                        trail1,
                    );
                }
                return Err(e);
            },
        }
        let ghost before = views(placements@);
        placements.pop();
        assert(views(placements@) =~= placements0) by {
            assert(before == placements0.push(placement_of(reference@)));
            assert(views(placements@) =~= before.drop_last());
        }
        proof {
            let sub = flatten_file(
                parts,
                reference@.filename,
                placements0.push(placement_of(reference@)),
                reference.bfc_direction,
                trail1,
            )->Ok_0;
            assert(views(out@) == mid + sub);
            assert(out0 + own + (below + sub) =~= out0 + own + below + sub);
            below = below + sub;
        }
        k += 1;
    }
    let ghost full = views(trail@);
    trail.pop();
    assert(views(trail@) =~= trail0) by {
        assert(views(trail@) =~= full.drop_last());
    }
    assert(out0 + own + below =~= out0 + (own + below));
    Ok(())
}

/// Flattens a model into the triangles of its entry file and of every file that
/// the entry file refers to, directly or through other files.
///
/// The triangles of a file come first, then those of each of its references in
/// turn. A file other than the entry file is drawn under the winding that was
/// stored with the reference to it. The work ends at the first reference to a
/// name that no file declares, and at the first reference to a file that is
/// being expanded already.
pub fn flatten(brick: &LDrawBrick) -> (r: Result<Vec<WorldTriangle>, ResolveError>)
    ensures
        flatten_result_view(r) == flattened(brick@),
{
    let index = match brick.find(&brick.entry_file) {
        Some(i) => i,
        None => {
            let e = ResolveError::UnresolvedSubfileReference {
                filename: brick.entry_file.clone(),
                chain: Vec::new(),
            };
            assert(e@ =~= ResolveFailure::UnresolvedSubfileReference {
                filename: brick@.entry_file,
                chain: Seq::empty(),
            }) by {
                assert(views(Seq::<String>::empty()) =~= Seq::<Seq<char>>::empty());
            }
            return Err(e);
        },
    };
    let winding = brick.files[index].bfc_direction;
    let mut placements: Vec<Placement> = Vec::new();
    let mut trail: Vec<String> = Vec::new();
    let mut out: Vec<WorldTriangle> = Vec::new();
    assert(views(placements@) =~= Seq::<PlacementModel>::empty());
    assert(views(trail@) =~= Seq::<Seq<char>>::empty());
    assert(views(out@) =~= Seq::<WorldTriangleModel>::empty());
    match collect_triangles(brick, &brick.entry_file, winding, &mut placements, &mut trail, &mut out) {
        Ok(()) => {
            assert(views(out@) =~= flattened(brick@)->Ok_0);
            Ok(out)
        },
        Err(e) => Err(e),
    }
}

} // verus!

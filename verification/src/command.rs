use crate::number::{is_number, is_numeric};
use crate::text::{chars_of, string_of};
use vstd::prelude::*;

verus! {

/// A colour code as written in a file. It is carried along and never resolved.
#[derive(Debug, Clone, Copy, PartialEq, Eq)]
pub struct Color {
    pub value: u32,
}

/// The winding convention of a file's triangles.
#[derive(Debug, Clone, Copy, PartialEq, Eq)]
pub enum BFCDirection {
    CW,
    CCW,
}

/// The kinds of file that the `!LDRAW_ORG` line can declare.
#[derive(Debug, Clone, Copy, PartialEq, Eq)]
pub enum LDrawType {
    Part,
    Subpart,
    Primitive,
    Primitive8,
    Primitive48,
    Shortcut,
    UnofficialPart,
    UnofficialSubpart,
    UnofficialPrimitive,
    UnofficialPrimitive8,
    UnofficialPrimitive48,
    UnofficialShortcut,
}

/// A calendar date, as the three numbers of its ISO form.
#[derive(Debug, Clone, Copy, PartialEq, Eq)]
pub struct HistoryDate {
    pub year: i32,
    pub month: u32,
    pub day: u32,
}

/// A numeric field of a geometry line, kept as the text that the file holds.
///
/// The text always is a number of the line grammar, so that turning it into a
/// binary number cannot fail; that step, and every rounding it brings, is left
/// to whoever consumes the geometry.
#[derive(Debug, PartialEq, Eq)]
pub struct Scalar {
    text: String,
}

impl View for Scalar {
    type V = Seq<char>;

    closed spec fn view(&self) -> Seq<char> {
        self.text@
    }
}

impl Scalar {
    #[verifier::type_invariant]
    spec fn well_formed(&self) -> bool {
        is_number(self.text@)
    }

    /// Reads a numeric field.
    pub fn parse(token: &Vec<char>) -> (r: Option<Scalar>)
        ensures
            r is Some == is_number(token@),
            r is Some ==> r->0@ == token@,
    {
        if is_numeric(token) {
            Some(Scalar { text: string_of(token) })
        } else {
            None
        }
    }

    /// Reads a numeric field from a string.
    pub fn new(text: &str) -> (r: Option<Scalar>)
        ensures
            r is Some == is_number(text@),
            r is Some ==> r->0@ == text@,
    {
        let chars = chars_of(text);
        Scalar::parse(&chars)
    }

    /// The text of the field.
    pub fn text(&self) -> (r: &String)
        ensures
            r@ == self@,
            is_number(r@),
    {
        proof {
            use_type_invariant(self);
        }
        &self.text
    }
}

impl Clone for Scalar {
    fn clone(&self) -> (r: Self)
        ensures
            r@ == self@,
    {
        proof {
            use_type_invariant(self);
        }
        Scalar { text: self.text.clone() }
    }
}

/// Three numeric fields: a point or a translation.
#[derive(Debug, PartialEq, Eq)]
pub struct Vector {
    pub x: Scalar,
    pub y: Scalar,
    pub z: Scalar,
}

/// What a `Vector` holds.
pub struct VectorModel {
    pub x: Seq<char>,
    pub y: Seq<char>,
    pub z: Seq<char>,
}

impl View for Vector {
    type V = VectorModel;

    open spec fn view(&self) -> VectorModel {
        VectorModel { x: self.x@, y: self.y@, z: self.z@ }
    }
}

impl Clone for Vector {
    fn clone(&self) -> (r: Self)
        ensures
            r@ == self@,
    {
        Vector { x: self.x.clone(), y: self.y.clone(), z: self.z.clone() }
    }
}

/// The nine fields of a linear transform, row by row as the file holds them.
#[derive(Debug, PartialEq, Eq)]
pub struct Matrix {
    pub r0: Vector,
    pub r1: Vector,
    pub r2: Vector,
}

/// What a `Matrix` holds.
pub struct MatrixModel {
    pub r0: VectorModel,
    pub r1: VectorModel,
    pub r2: VectorModel,
}

impl View for Matrix {
    type V = MatrixModel;

    open spec fn view(&self) -> MatrixModel {
        MatrixModel { r0: self.r0@, r1: self.r1@, r2: self.r2@ }
    }
}

impl Clone for Matrix {
    fn clone(&self) -> (r: Self)
        ensures
            r@ == self@,
    {
        Matrix { r0: self.r0.clone(), r1: self.r1.clone(), r2: self.r2.clone() }
    }
}

/// The view of each item.
pub open spec fn views<T: View>(v: Seq<T>) -> Seq<T::V> {
    Seq::new(v.len(), |i: int| v[i]@)
}

/// The text of an optional string.
pub open spec fn option_view(s: Option<String>) -> Option<Seq<char>> {
    match s {
        Some(t) => Some(t@),
        None => None,
    }
}

/// Copies a list of strings.
pub fn clone_strings(v: &Vec<String>) -> (r: Vec<String>)
    ensures
        views(r@) == views(v@),
{
    let mut out: Vec<String> = Vec::new();
    let mut i: usize = 0;
    while i < v.len()
        invariant
            i <= v.len(),
            views(out@) == views(v@).take(i as int),
        decreases v.len() - i,
    {
        let ghost before = views(out@);
        let s = v[i].clone();
        out.push(s);
        i += 1;
        assert(views(out@) =~= before.push(v@[i - 1]@));
        assert(views(out@) =~= views(v@).take(i as int));
    }
    assert(views(v@).take(v.len() as int) == views(v@));
    out
}

/// Copies an optional string.
pub fn clone_option(s: &Option<String>) -> (r: Option<String>)
    ensures
        option_view(r) == option_view(*s),
{
    match s {
        Some(t) => Some(t.clone()),
        None => None,
    }
}

/// What one line of a file says.
#[derive(Debug, PartialEq, Eq)]
pub enum LDrawCommand {
    Comment,
    Title(String),
    Name(String),
    Author(String, Option<String>),
    License(String, String),
    LDrawOrg(LDrawType),
    Category(String),
    Keywords(Vec<String>),
    History(HistoryDate, Option<String>, String),
    BFCCertification(Option<BFCDirection>),
    /// Colour, translation, linear transform, file name, and whether the winding is inverted.
    SubfileReference(Color, Vector, Matrix, String, bool),
    Contour(Color, Vector, Vector),
    Triangle(Color, Vector, Vector, Vector),
    Quadrilateral(Color, Vector, Vector, Vector, Vector),
    OptionalContour(Color, Vector, Vector, Vector, Vector),
}

/// What an `LDrawCommand` holds.
pub enum CommandModel {
    Comment,
    Title(Seq<char>),
    Name(Seq<char>),
    Author(Seq<char>, Option<Seq<char>>),
    License(Seq<char>, Seq<char>),
    LDrawOrg(LDrawType),
    Category(Seq<char>),
    Keywords(Seq<Seq<char>>),
    History(HistoryDate, Option<Seq<char>>, Seq<char>),
    BFCCertification(Option<BFCDirection>),
    SubfileReference(Color, VectorModel, MatrixModel, Seq<char>, bool),
    Contour(Color, VectorModel, VectorModel),
    Triangle(Color, VectorModel, VectorModel, VectorModel),
    Quadrilateral(Color, VectorModel, VectorModel, VectorModel, VectorModel),
    OptionalContour(Color, VectorModel, VectorModel, VectorModel, VectorModel),
}

impl View for LDrawCommand {
    type V = CommandModel;

    open spec fn view(&self) -> CommandModel {
        match *self {
            LDrawCommand::Comment => CommandModel::Comment,
            LDrawCommand::Title(t) => CommandModel::Title(t@),
            LDrawCommand::Name(n) => CommandModel::Name(n@),
            LDrawCommand::Author(n, h) => CommandModel::Author(n@, option_view(h)),
            LDrawCommand::License(t, c) => CommandModel::License(t@, c@),
            LDrawCommand::LDrawOrg(t) => CommandModel::LDrawOrg(t),
            LDrawCommand::Category(c) => CommandModel::Category(c@),
            LDrawCommand::Keywords(k) => CommandModel::Keywords(views(k@)),
            LDrawCommand::History(d, h, t) => CommandModel::History(d, option_view(h), t@),
            LDrawCommand::BFCCertification(w) => CommandModel::BFCCertification(w),
            LDrawCommand::SubfileReference(c, t, m, f, i) => CommandModel::SubfileReference(
                c,
                t@,
                m@,
                f@,
                i,
            ),
            LDrawCommand::Contour(c, p0, p1) => CommandModel::Contour(c, p0@, p1@),
            LDrawCommand::Triangle(c, p0, p1, p2) => CommandModel::Triangle(c, p0@, p1@, p2@),
            LDrawCommand::Quadrilateral(c, p0, p1, p2, p3) => CommandModel::Quadrilateral(
                c,
                p0@,
                p1@,
                p2@,
                p3@,
            ),
            LDrawCommand::OptionalContour(c, p0, p1, a, b) => CommandModel::OptionalContour(
                c,
                p0@,
                p1@,
                a@,
                b@,
            ),
        }
    }
}

impl Clone for LDrawCommand {
    fn clone(&self) -> (r: Self)
        ensures
            r@ == self@,
    {
        match self {
            LDrawCommand::Comment => LDrawCommand::Comment,
            LDrawCommand::Title(t) => LDrawCommand::Title(t.clone()),
            LDrawCommand::Name(n) => LDrawCommand::Name(n.clone()),
            LDrawCommand::Author(n, h) => LDrawCommand::Author(n.clone(), clone_option(h)),
            LDrawCommand::License(t, c) => LDrawCommand::License(t.clone(), c.clone()),
            LDrawCommand::LDrawOrg(t) => LDrawCommand::LDrawOrg(*t),
            LDrawCommand::Category(c) => LDrawCommand::Category(c.clone()),
            LDrawCommand::Keywords(k) => LDrawCommand::Keywords(clone_strings(k)),
            LDrawCommand::History(d, h, t) => LDrawCommand::History(
                *d,
                clone_option(h),
                t.clone(),
            ),
            LDrawCommand::BFCCertification(w) => LDrawCommand::BFCCertification(*w),
            LDrawCommand::SubfileReference(c, t, m, f, i) => LDrawCommand::SubfileReference(
                *c,
                t.clone(),
                m.clone(),
                f.clone(),
                *i,
            ),
            LDrawCommand::Contour(c, p0, p1) => LDrawCommand::Contour(*c, p0.clone(), p1.clone()),
            LDrawCommand::Triangle(c, p0, p1, p2) => LDrawCommand::Triangle(
                *c,
                p0.clone(),
                p1.clone(),
                p2.clone(),
            ),
            LDrawCommand::Quadrilateral(c, p0, p1, p2, p3) => LDrawCommand::Quadrilateral(
                *c,
                p0.clone(),
                p1.clone(),
                p2.clone(),
                p3.clone(),
            ),
            LDrawCommand::OptionalContour(c, p0, p1, a, b) => LDrawCommand::OptionalContour(
                *c,
                p0.clone(),
                p1.clone(),
                a.clone(),
                b.clone(),
            ),
        }
    }
}

} // verus!

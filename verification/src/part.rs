use crate::command::{
    clone_option, option_view, views, BFCDirection, Color, CommandModel, LDrawCommand, Matrix,
    MatrixModel, Vector, VectorModel,
};
use vstd::prelude::*;

verus! {

/// Who wrote a file.
#[derive(Debug, Clone, PartialEq, Eq)]
pub struct LDrawAuthor {
    pub name: String,
    pub username: Option<String>,
}

/// What an `LDrawAuthor` holds.
pub struct AuthorModel {
    pub name: Seq<char>,
    pub username: Option<Seq<char>>,
}

impl View for LDrawAuthor {
    type V = AuthorModel;

    open spec fn view(&self) -> AuthorModel {
        AuthorModel { name: self.name@, username: option_view(self.username) }
    }
}

/// An edge that is always drawn.
#[derive(Debug, Clone, PartialEq, Eq)]
pub struct LDrawContour {
    pub color: Color,
    pub x: Vector,
    pub y: Vector,
}

/// What an `LDrawContour` holds.
pub struct ContourModel {
    pub color: Color,
    pub x: VectorModel,
    pub y: VectorModel,
}

impl View for LDrawContour {
    type V = ContourModel;

    open spec fn view(&self) -> ContourModel {
        ContourModel { color: self.color, x: self.x@, y: self.y@ }
    }
}

/// An edge that is drawn only where its two control points lie on one side of it.
#[derive(Debug, Clone, PartialEq, Eq)]
pub struct LDrawOptionalContour {
    pub color: Color,
    pub x: Vector,
    pub y: Vector,
    pub ox: Vector,
    pub oy: Vector,
}

/// What an `LDrawOptionalContour` holds.
pub struct OptionalContourModel {
    pub color: Color,
    pub x: VectorModel,
    pub y: VectorModel,
    pub ox: VectorModel,
    pub oy: VectorModel,
}

impl View for LDrawOptionalContour {
    type V = OptionalContourModel;

    open spec fn view(&self) -> OptionalContourModel {
        OptionalContourModel {
            color: self.color,
            x: self.x@,
            y: self.y@,
            ox: self.ox@,
            oy: self.oy@,
        }
    }
}

/// A triangle in the coordinates of its file.
#[derive(Debug, Clone, PartialEq, Eq)]
pub struct LDrawTriangle {
    pub color: Color,
    pub x: Vector,
    pub y: Vector,
    pub z: Vector,
}

/// What an `LDrawTriangle` holds.
pub struct TriangleModel {
    pub color: Color,
    pub x: VectorModel,
    pub y: VectorModel,
    pub z: VectorModel,
}

impl View for LDrawTriangle {
    type V = TriangleModel;

    open spec fn view(&self) -> TriangleModel {
        TriangleModel { color: self.color, x: self.x@, y: self.y@, z: self.z@ }
    }
}

/// A reference to another file, with the winding in force where the reference stands.
#[derive(Debug, Clone, PartialEq, Eq)]
pub struct LDrawSubfile {
    pub color: Color,
    pub bfc_direction: BFCDirection,
    pub transformation: Matrix,
    pub translation: Vector,
    pub filename: String,
}

/// What an `LDrawSubfile` holds.
pub struct SubfileModel {
    pub color: Color,
    pub bfc_direction: BFCDirection,
    pub transformation: MatrixModel,
    pub translation: VectorModel,
    pub filename: Seq<char>,
}

impl View for LDrawSubfile {
    type V = SubfileModel;

    open spec fn view(&self) -> SubfileModel {
        SubfileModel {
            color: self.color,
            bfc_direction: self.bfc_direction,
            transformation: self.transformation@,
            translation: self.translation@,
            filename: self.filename@,
        }
    }
}

/// The contents of one file.
#[derive(Debug, Clone, PartialEq, Eq)]
pub struct LDrawFile {
    /// The name that the file declares; other files refer to it by this name.
    pub name: String,
    pub title: String,
    pub author: LDrawAuthor,
    /// The winding that the file last certified.
    pub bfc_direction: BFCDirection,
    pub lines: Vec<LDrawContour>,
    pub optional_lines: Vec<LDrawOptionalContour>,
    pub triangles: Vec<LDrawTriangle>,
    pub subfiles: Vec<LDrawSubfile>,
    /// The commands that bear on neither geometry nor winding, in the order of the file.
    pub metadata: Vec<LDrawCommand>,
}

/// What an `LDrawFile` holds.
pub struct FileModel {
    pub name: Seq<char>,
    pub title: Seq<char>,
    pub author: AuthorModel,
    pub bfc_direction: BFCDirection,
    pub lines: Seq<ContourModel>,
    pub optional_lines: Seq<OptionalContourModel>,
    pub triangles: Seq<TriangleModel>,
    pub subfiles: Seq<SubfileModel>,
    pub metadata: Seq<CommandModel>,
}

impl View for LDrawFile {
    type V = FileModel;

    open spec fn view(&self) -> FileModel {
        FileModel {
            name: self.name@,
            title: self.title@,
            author: self.author@,
            bfc_direction: self.bfc_direction,
            lines: views(self.lines@),
            optional_lines: views(self.optional_lines@),
            triangles: views(self.triangles@),
            subfiles: views(self.subfiles@),
            metadata: views(self.metadata@),
        }
    }
}

/// A file before its first command: no name, no geometry, clockwise winding.
pub open spec fn empty_file() -> FileModel {
    FileModel {
        name: Seq::empty(),
        title: Seq::empty(),
        author: AuthorModel { name: Seq::empty(), username: None },
        bfc_direction: BFCDirection::CW,
        lines: Seq::empty(),
        optional_lines: Seq::empty(),
        triangles: Seq::empty(),
        subfiles: Seq::empty(),
        metadata: Seq::empty(),
    }
}

/// The winding stored with a reference: the winding in force, or counter-clockwise
/// where the reference inverts.
pub open spec fn reference_winding(current: BFCDirection, invert: bool) -> BFCDirection {
    if invert {
        BFCDirection::CCW
    } else {
        current
    }
}

/// The file after one more command.
pub open spec fn apply(file: FileModel, command: CommandModel) -> FileModel {
    match command {
        CommandModel::Name(name) => FileModel { name, ..file },
        CommandModel::Title(title) => FileModel { title, ..file },
        CommandModel::Author(name, username) => FileModel {
            author: AuthorModel { name, username },
            ..file
        },
        CommandModel::BFCCertification(Some(winding)) => FileModel {
            bfc_direction: winding,
            ..file
        },
        CommandModel::BFCCertification(None) => file,
        CommandModel::Contour(color, x, y) => FileModel {
            lines: file.lines.push(ContourModel { color, x, y }),
            ..file
        },
        CommandModel::OptionalContour(color, x, y, ox, oy) => FileModel {
            optional_lines: file.optional_lines.push(
                OptionalContourModel { color, x, y, ox, oy },
            ),
            ..file
        },
        CommandModel::Triangle(color, x, y, z) => FileModel {
            triangles: file.triangles.push(TriangleModel { color, x, y, z }),
            ..file
        },
        CommandModel::Quadrilateral(color, x, y, z, w) => FileModel {
            triangles: file.triangles.push(TriangleModel { color, x, y, z }).push(
                TriangleModel { color, x: z, y: w, z: x },
            ),
            ..file
        },
        CommandModel::SubfileReference(color, translation, transformation, filename, invert) => {
            FileModel {
                subfiles: file.subfiles.push(
                    SubfileModel {
                        color,
                        bfc_direction: reference_winding(file.bfc_direction, invert),
                        transformation,
                        translation,
                        filename,
                    },
                ),
                ..file
            }
        },
        _ => FileModel { metadata: file.metadata.push(command), ..file },
    }
}

/// The file that a sequence of commands builds, read from first to last.
pub open spec fn assembled(commands: Seq<CommandModel>) -> FileModel
    decreases commands.len(),
{
    if commands.len() == 0 {
        empty_file()
    } else {
        apply(assembled(commands.drop_last()), commands.last())
    }
}

impl LDrawFile {
    /// A file before its first command.
    pub fn new() -> (r: LDrawFile)
        ensures
            r@ == empty_file(),
    {
        let r = LDrawFile {
            name: String::new(),
            title: String::new(),
            author: LDrawAuthor { name: String::new(), username: None },
            bfc_direction: BFCDirection::CW,
            lines: Vec::new(),
            optional_lines: Vec::new(),
            triangles: Vec::new(),
            subfiles: Vec::new(),
            metadata: Vec::new(),
        };
        assert(views(r.lines@) =~= Seq::<ContourModel>::empty());
        assert(views(r.optional_lines@) =~= Seq::<OptionalContourModel>::empty());
        assert(views(r.triangles@) =~= Seq::<TriangleModel>::empty());
        assert(views(r.subfiles@) =~= Seq::<SubfileModel>::empty());
        assert(views(r.metadata@) =~= Seq::<CommandModel>::empty());
        r
    }

    /// Takes one more command into the file.
    pub fn apply(&mut self, command: &LDrawCommand)
        ensures
            final(self)@ == apply(old(self)@, command@),
    {
        let ghost before = self@;
        match command {
            LDrawCommand::Name(name) => {
                self.name = name.clone();
            },
            LDrawCommand::Title(title) => {
                self.title = title.clone();
            },
            LDrawCommand::Author(name, username) => {
                self.author = LDrawAuthor {
                    name: name.clone(),
                    username: clone_option(username),
                };
            },
            LDrawCommand::BFCCertification(Some(winding)) => {
                self.bfc_direction = *winding;
            },
            LDrawCommand::BFCCertification(None) => {},
            LDrawCommand::Contour(color, x, y) => {
                let item = LDrawContour { color: *color, x: x.clone(), y: y.clone() };
                self.lines.push(item);
                assert(views(self.lines@) =~= before.lines.push(item@));
            },
            LDrawCommand::OptionalContour(color, x, y, ox, oy) => {
                let item = LDrawOptionalContour {
                    color: *color,
                    x: x.clone(),
                    y: y.clone(),
                    ox: ox.clone(),
                    oy: oy.clone(),
                };
                self.optional_lines.push(item);
                assert(views(self.optional_lines@) =~= before.optional_lines.push(item@));
            },
            LDrawCommand::Triangle(color, x, y, z) => {
                let item = LDrawTriangle { color: *color, x: x.clone(), y: y.clone(), z: z.clone() };
                self.triangles.push(item);
                assert(views(self.triangles@) =~= before.triangles.push(item@));
            },
            LDrawCommand::Quadrilateral(color, x, y, z, w) => {
                let first = LDrawTriangle {
                    color: *color,
                    x: x.clone(),
                    y: y.clone(),
                    z: z.clone(),
                };
                let second = LDrawTriangle {
                    color: *color,
                    x: z.clone(),
                    y: w.clone(),
                    z: x.clone(),
                };
                self.triangles.push(first);
                self.triangles.push(second);
                assert(views(self.triangles@) =~= before.triangles.push(first@).push(second@));
            },
            LDrawCommand::SubfileReference(color, translation, transformation, filename, invert) => {
                let winding = if *invert {
                    BFCDirection::CCW
                } else {
                    self.bfc_direction
                };
                let item = LDrawSubfile {
                    color: *color,
                    bfc_direction: winding,
                    transformation: transformation.clone(),
                    translation: translation.clone(),
                    filename: filename.clone(),
                };
                self.subfiles.push(item);
                assert(views(self.subfiles@) =~= before.subfiles.push(item@));
            },
            _ => {
                let item = command.clone();
                self.metadata.push(item);
                assert(views(self.metadata@) =~= before.metadata.push(item@));
            },
        }
    }
}

/// Builds a file from its commands, read from first to last.
pub fn assemble(commands: &Vec<LDrawCommand>) -> (file: LDrawFile)
    ensures
        file@ == assembled(views(commands@)),
{
    let ghost all = views(commands@);
    let mut file = LDrawFile::new();
    let mut i: usize = 0;
    assert(all.take(0).len() == 0);
    while i < commands.len()
        invariant
            i <= commands.len(),
            all == views(commands@),
            file@ == assembled(all.take(i as int)),
        decreases commands.len() - i,
    {
        assert(all.take(i + 1).drop_last() == all.take(i as int));
        assert(all.take(i + 1).last() == commands@[i as int]@);
        file.apply(&commands[i]);
        i += 1;
    }
    assert(all.take(commands.len() as int) == all);
    file
}

} // verus!

use crate::brick::BrickModel;
use crate::command::{BFCDirection, Color, CommandModel, VectorModel};
use crate::grammar::{decode_file, decode_line, visible_len, DecodeError, FailureModel};
use crate::part::{apply, assembled, empty_file, FileModel, TriangleModel};
use crate::resolver::{
    flatten_file, flatten_references, flattened, lemma_flatten_references_fails, placed,
    placed_triangles, placement_of, PlacementModel, ResolveFailure, WorldTriangleModel,
};
use crate::grammar::{
    decode_author, decode_bfc, decode_history, decode_license, decode_meta, keywords_of,
    ldraw_type_of,
};
use crate::text::{is_space, join, lemma_word_len_bound, sanitized, word_len, words};
use vstd::prelude::*;

verus! {

/// A word: one character or more, none of them white space.
pub open spec fn is_word(w: Seq<char>) -> bool {
    w.len() > 0 && forall|j: int| 0 <= j < w.len() ==> !is_space(#[trigger] w[j])
}

/// No word of a line is empty, and no word holds white space.
pub proof fn lemma_words_hold_no_space(line: Seq<char>)
    ensures
        forall|i: int| 0 <= i < words(line).len() ==> is_word(#[trigger] words(line)[i]),
    decreases line.len(),
{
    if line.len() == 0 {
        assert(words(line).len() == 0);
    } else if is_space(line[0]) {
        lemma_words_hold_no_space(line.drop_first());
        assert(words(line) == words(line.drop_first()));
    } else {
        let n = word_len(line) as int;
        lemma_word_len_bound(line);
        let rest = line.skip(n);
        lemma_words_hold_no_space(rest);
        let first = line.take(n);
        assert(is_word(first)) by {
            assert forall|j: int| 0 <= j < first.len() implies !is_space(#[trigger] first[j]) by {
                assert(first[j] == line[j]);
            }
        }
        assert(words(line) == seq![first] + words(rest));
        assert forall|i: int| 0 <= i < words(line).len() implies is_word(
            #[trigger] words(line)[i],
        ) by {
            if i > 0 {
                assert(words(line)[i] == words(rest)[i - 1]);
            }
        }
    }
}

/// After the first line of a file, the first token of a line of type `0`
/// chooses the command, and the tokens after it are what the command reads.
pub proof fn lemma_meta_keywords(args: Seq<Seq<char>>, index: int)
    requires
        index != 0,
    ensures
        decode_meta(seq!["Name:"@] + args, index) == Ok::<CommandModel, DecodeError>(
            CommandModel::Name(sanitized(join(args))),
        ),
        decode_meta(seq!["Author:"@] + args, index) == Ok::<CommandModel, DecodeError>(
            decode_author(args),
        ),
        decode_meta(seq!["!LICENSE"@] + args, index) == Ok::<CommandModel, DecodeError>(
            decode_license(args),
        ),
        decode_meta(seq!["!LDRAW_ORG"@] + args, index) == if args.len() > 0 && ldraw_type_of(
            args[0],
        ) is Some {
            Ok::<CommandModel, DecodeError>(CommandModel::LDrawOrg(ldraw_type_of(args[0])->0))
        } else {
            Err::<CommandModel, DecodeError>(DecodeError::UnknownLDrawOrgType)
        },
        decode_meta(seq!["!CATEGORY"@] + args, index) == Ok::<CommandModel, DecodeError>(
            CommandModel::Category(
                if args.len() > 0 {
                    args[0]
                } else {
                    Seq::empty()
                },
            ),
        ),
        decode_meta(seq!["!KEYWORDS"@] + args, index) == Ok::<CommandModel, DecodeError>(
            CommandModel::Keywords(keywords_of(args)),
        ),
        decode_meta(seq!["!HISTORY"@] + args, index) == decode_history(args),
        decode_meta(seq!["BFC"@] + args, index) == Ok::<CommandModel, DecodeError>(
            decode_bfc(args),
        ),
{
    reveal_strlit("Name:");
    reveal_strlit("Author:");
    reveal_strlit("!LICENSE");
    reveal_strlit("!LDRAW_ORG");
    reveal_strlit("!CATEGORY");
    reveal_strlit("!KEYWORDS");
    reveal_strlit("!HISTORY");
    reveal_strlit("BFC");
    assert("Name:"@.len() == 5 && "Author:"@.len() == 7 && "!LICENSE"@.len() == 8);
    assert("!LDRAW_ORG"@.len() == 10 && "!CATEGORY"@.len() == 9 && "!KEYWORDS"@.len() == 9);
    assert("!HISTORY"@.len() == 8 && "BFC"@.len() == 3);
    assert("!LICENSE"@[1int] == 'L' && "!HISTORY"@[1int] == 'H');
    assert("!CATEGORY"@[1int] == 'C' && "!KEYWORDS"@[1int] == 'K');
    assert((seq!["Name:"@] + args)[0] == "Name:"@);
    assert((seq!["Author:"@] + args)[0] == "Author:"@);
    assert((seq!["!LICENSE"@] + args)[0] == "!LICENSE"@);
    assert((seq!["!LDRAW_ORG"@] + args)[0] == "!LDRAW_ORG"@);
    assert((seq!["!CATEGORY"@] + args)[0] == "!CATEGORY"@);
    assert((seq!["!KEYWORDS"@] + args)[0] == "!KEYWORDS"@);
    assert((seq!["!HISTORY"@] + args)[0] == "!HISTORY"@);
    assert((seq!["BFC"@] + args)[0] == "BFC"@);
    assert((seq!["Name:"@] + args).skip(1) =~= args);
    assert((seq!["Author:"@] + args).skip(1) =~= args);
    assert((seq!["!LICENSE"@] + args).skip(1) =~= args);
    assert((seq!["!LDRAW_ORG"@] + args).skip(1) =~= args);
    assert((seq!["!CATEGORY"@] + args).skip(1) =~= args);
    assert((seq!["!KEYWORDS"@] + args).skip(1) =~= args);
    assert((seq!["!HISTORY"@] + args).skip(1) =~= args);
    assert((seq!["BFC"@] + args).skip(1) =~= args);
}

/// A line of type `0` at the head of a file is the title, whatever follows the
/// type: the title is the rest of the line's words, joined by single spaces.
pub proof fn lemma_first_line_is_title(line: Seq<char>)
    requires
        visible_len(line) >= 2,
        words(line)[0] == "0"@,
    ensures
        decode_line(line, 0) == Ok::<Option<CommandModel>, DecodeError>(
            Some(CommandModel::Title(join(words(line).skip(1)))),
        ),
{
}

/// A line of white space has no visible character, and a line of one character
/// has at most one.
pub proof fn lemma_visible_len_bound(line: Seq<char>)
    ensures
        visible_len(line) <= line.len(),
        (forall|i: int| 0 <= i < line.len() ==> is_space(#[trigger] line[i])) ==> visible_len(line)
            == 0,
    decreases line.len(),
{
    if line.len() > 0 {
        lemma_visible_len_bound(line.drop_last());
        if forall|i: int| 0 <= i < line.len() ==> is_space(#[trigger] line[i]) {
            assert forall|i: int| 0 <= i < line.drop_last().len() implies is_space(
                #[trigger] line.drop_last()[i],
            ) by {
                assert(line.drop_last()[i] == line[i]);
            }
            assert(is_space(line[line.len() - 1]));
        }
    }
}

/// A line that is white space throughout, or that has a single character, says
/// nothing, wherever in the file it stands.
pub proof fn lemma_quiet_line_says_nothing(line: Seq<char>, index: int)
    requires
        line.len() <= 1 || forall|i: int| 0 <= i < line.len() ==> is_space(#[trigger] line[i]),
    ensures
        decode_line(line, index) == Ok::<Option<CommandModel>, DecodeError>(None),
{
    lemma_visible_len_bound(line);
}

/// A file whose lines all have fewer than two visible characters has no commands.
pub proof fn lemma_quiet_file_is_empty(lines: Seq<Seq<char>>)
    requires
        forall|i: int| 0 <= i < lines.len() ==> visible_len(#[trigger] lines[i]) < 2,
    ensures
        decode_file(lines) == Ok::<Seq<CommandModel>, FailureModel>(Seq::empty()),
    decreases lines.len(),
{
    if lines.len() > 0 {
        assert forall|i: int| 0 <= i < lines.drop_last().len() implies visible_len(
            #[trigger] lines.drop_last()[i],
        ) < 2 by {
            assert(lines.drop_last()[i] == lines[i]);
        }
        lemma_quiet_file_is_empty(lines.drop_last());
        assert(visible_len(lines[lines.len() - 1]) < 2);
    }
}

/// A four-sided face is stored as two triangles that share the diagonal from its
/// third corner to its first: the first three corners, then the third, the
/// fourth and the first. They follow the triangles that the file holds already.
pub proof fn lemma_quadrilateral_splits(
    file: FileModel,
    color: Color,
    x: VectorModel,
    y: VectorModel,
    z: VectorModel,
    w: VectorModel,
)
    ensures
        apply(file, CommandModel::Quadrilateral(color, x, y, z, w)).triangles == file.triangles
            + seq![
            TriangleModel { color, x, y, z },
            TriangleModel { color, x: z, y: w, z: x },
        ],
        assembled(seq![CommandModel::Quadrilateral(color, x, y, z, w)]).triangles == seq![
            TriangleModel { color, x, y, z },
            TriangleModel { color, x: z, y: w, z: x },
        ],
{
    let quad = CommandModel::Quadrilateral(color, x, y, z, w);
    let pair = seq![TriangleModel { color, x, y, z }, TriangleModel { color, x: z, y: w, z: x }];
    assert(apply(file, quad).triangles =~= file.triangles + pair);
    assert(seq![quad].drop_last() =~= Seq::<CommandModel>::empty());
    assert(assembled(seq![quad]) == apply(empty_file(), quad)) by {
        reveal_with_fuel(assembled, 2);
    }
    assert(empty_file().triangles + pair =~= pair);
}

/// A command never changes a reference that the file holds already: the winding
/// stored with a reference is the one in force where the reference stands.
pub proof fn lemma_references_are_frozen(file: FileModel, command: CommandModel)
    ensures
        file.subfiles.len() <= apply(file, command).subfiles.len(),
        apply(file, command).subfiles.take(file.subfiles.len() as int) == file.subfiles,
{
    assert(apply(file, command).subfiles.take(file.subfiles.len() as int) =~= file.subfiles);
}

/// Only a certification that names a winding changes the winding of a file.
pub proof fn lemma_winding_changes_by_certification(file: FileModel, command: CommandModel)
    ensures
        apply(file, command).bfc_direction == match command {
            CommandModel::BFCCertification(Some(winding)) => winding,
            _ => file.bfc_direction,
        },
{
}

/// A comment, a licence, a file type, a category, keywords and a history entry
/// are kept with the file and leave its header, geometry and winding alone.
pub proof fn lemma_metadata_leaves_geometry(file: FileModel, command: CommandModel)
    requires
        command is Comment || command is License || command is LDrawOrg || command is Category
            || command is Keywords || command is History,
    ensures
        apply(file, command) == (FileModel { metadata: file.metadata.push(command), ..file }),
{
}

/// A model whose entry file refers to no other file flattens to the triangles
/// of that file, drawn under the file's own winding.
pub proof fn lemma_single_file(brick: BrickModel)
    requires
        brick.files.dom().finite(),
        brick.files.dom().contains(brick.entry_file),
        brick.files[brick.entry_file].subfiles.len() == 0,
    ensures
        flattened(brick) == Ok::<Seq<WorldTriangleModel>, ResolveFailure>(
            placed_triangles(
                brick.files[brick.entry_file].triangles,
                Seq::empty(),
                brick.files[brick.entry_file].bfc_direction,
            ),
        ),
{
    let file = brick.files[brick.entry_file];
    let own = placed_triangles(file.triangles, Seq::empty(), file.bfc_direction);
    assert(!Seq::<Seq<char>>::empty().contains(brick.entry_file));
    assert(own + Seq::<WorldTriangleModel>::empty() =~= own);
}

/// The model that consists of one file.
pub open spec fn single_file_brick(file: FileModel) -> BrickModel {
    BrickModel {
        entry_file: file.name,
        files: Map::<Seq<char>, FileModel>::empty().insert(file.name, file),
    }
}

/// A file that certifies counter-clockwise winding and then holds a triangle
/// draws the corners in the order of the file; a file that certifies nothing
/// is wound clockwise and draws the triangle with its last two corners exchanged.
pub proof fn lemma_winding_orders_corners(
    color: Color,
    x: VectorModel,
    y: VectorModel,
    z: VectorModel,
)
    ensures
        flattened(
            single_file_brick(
                assembled(
                    seq![
                        CommandModel::BFCCertification(Some(BFCDirection::CCW)),
                        CommandModel::Triangle(color, x, y, z),
                    ],
                ),
            ),
        ) == Ok::<Seq<WorldTriangleModel>, ResolveFailure>(
            seq![WorldTriangleModel { color, placements: Seq::empty(), a: x, b: y, c: z }],
        ),
        flattened(single_file_brick(assembled(seq![CommandModel::Triangle(color, x, y, z)])))
            == Ok::<Seq<WorldTriangleModel>, ResolveFailure>(
            seq![WorldTriangleModel { color, placements: Seq::empty(), a: x, b: z, c: y }],
        ),
{
    let certify = CommandModel::BFCCertification(Some(BFCDirection::CCW));
    let triangle = CommandModel::Triangle(color, x, y, z);
    let t = TriangleModel { color, x, y, z };
    let certified = assembled(seq![certify, triangle]);
    let plain = assembled(seq![triangle]);
    assert(seq![certify, triangle].drop_last() =~= seq![certify]);
    assert(seq![certify].drop_last() =~= Seq::<CommandModel>::empty());
    assert(seq![triangle].drop_last() =~= Seq::<CommandModel>::empty());
    assert(certified == apply(apply(empty_file(), certify), triangle)) by {
        reveal_with_fuel(assembled, 3);
    }
    assert(plain == apply(empty_file(), triangle)) by {
        reveal_with_fuel(assembled, 2);
    }
    assert(certified.triangles =~= seq![t]);
    assert(plain.triangles =~= seq![t]);
    lemma_single_file(single_file_brick(certified));
    lemma_single_file(single_file_brick(plain));
    assert(placed_triangles(seq![t], Seq::empty(), BFCDirection::CCW) =~= seq![
        placed(t, Seq::empty(), BFCDirection::CCW),
    ]);
    assert(placed_triangles(seq![t], Seq::empty(), BFCDirection::CW) =~= seq![
        placed(t, Seq::empty(), BFCDirection::CW),
    ]);
}

/// Where the entry file holds one reference, to a file that refers to nothing,
/// the model is the entry file's triangles under its own winding, then the
/// triangles of the other file, one step down and under the winding stored
/// with the reference.
pub proof fn lemma_single_reference(brick: BrickModel)
    requires
        brick.files.dom().finite(),
        brick.files.dom().contains(brick.entry_file),
        brick.files[brick.entry_file].subfiles.len() == 1,
        brick.files.dom().contains(brick.files[brick.entry_file].subfiles[0].filename),
        brick.files[brick.entry_file].subfiles[0].filename != brick.entry_file,
        brick.files[brick.files[brick.entry_file].subfiles[0].filename].subfiles.len() == 0,
    ensures
        flattened(brick) == Ok::<Seq<WorldTriangleModel>, ResolveFailure>(
            placed_triangles(
                brick.files[brick.entry_file].triangles,
                Seq::empty(),
                brick.files[brick.entry_file].bfc_direction,
            ) + placed_triangles(
                brick.files[brick.files[brick.entry_file].subfiles[0].filename].triangles,
                seq![placement_of(brick.files[brick.entry_file].subfiles[0])],
                brick.files[brick.entry_file].subfiles[0].bfc_direction,
            ),
        ),
{
    let parts = brick.files;
    let entry = parts[brick.entry_file];
    let r = entry.subfiles[0];
    let inner = parts[r.filename];
    let none = Seq::<Seq<char>>::empty();
    let trail = none.push(brick.entry_file);
    let steps = Seq::<PlacementModel>::empty().push(placement_of(r));
    let below = placed_triangles(inner.triangles, steps, r.bfc_direction);
    assert(!none.contains(brick.entry_file));
    assert(!trail.contains(r.filename)) by {
        if trail.contains(r.filename) {
            let i = choose|i: int| 0 <= i < trail.len() && trail[i] == r.filename;
            assert(trail[i] == brick.entry_file);
        }
    }
    assert(flatten_references(parts, inner.subfiles, 0, steps, trail.push(r.filename)) == Ok::<
        Seq<WorldTriangleModel>,
        ResolveFailure,
    >(Seq::empty()));
    assert(flatten_file(parts, r.filename, steps, r.bfc_direction, trail) == Ok::<
        Seq<WorldTriangleModel>,
        ResolveFailure,
    >(below)) by {
        assert(below + Seq::<WorldTriangleModel>::empty() =~= below);
    }
    assert(flatten_references(parts, entry.subfiles, 1, Seq::empty(), trail) == Ok::<
        Seq<WorldTriangleModel>,
        ResolveFailure,
    >(below)) by {
        reveal_with_fuel(flatten_references, 2);
        assert(Seq::<WorldTriangleModel>::empty() + below =~= below);
    }
    assert(steps =~= seq![placement_of(r)]);
}

/// Where the first reference of the entry file names a file that the model
/// does not hold, flattening fails on that name, and reports the entry file
/// as the way to it.
pub proof fn lemma_unresolved_reference(brick: BrickModel)
    requires
        brick.files.dom().finite(),
        brick.files.dom().contains(brick.entry_file),
        brick.files[brick.entry_file].subfiles.len() > 0,
        !brick.files.dom().contains(brick.files[brick.entry_file].subfiles[0].filename),
    ensures
        flattened(brick) == Err::<Seq<WorldTriangleModel>, ResolveFailure>(
            ResolveFailure::UnresolvedSubfileReference {
                filename: brick.files[brick.entry_file].subfiles[0].filename,
                chain: seq![brick.entry_file],
            },
        ),
{
    let parts = brick.files;
    let entry = parts[brick.entry_file];
    let none = Seq::<Seq<char>>::empty();
    let trail = none.push(brick.entry_file);
    assert(!none.contains(brick.entry_file));
    assert(trail =~= seq![brick.entry_file]);
    assert(flatten_references(parts, entry.subfiles, 1, Seq::empty(), trail) is Err) by {
        reveal_with_fuel(flatten_references, 2);
    }
    lemma_flatten_references_fails(
        parts,
        entry.subfiles,
        1,
        entry.subfiles.len(),
        Seq::empty(),
        trail,
    );
    assert(flatten_references(parts, entry.subfiles, 1, Seq::empty(), trail) == Err::<
        Seq<WorldTriangleModel>,
        ResolveFailure,
    >(
        ResolveFailure::UnresolvedSubfileReference {
            filename: entry.subfiles[0].filename,
            chain: trail,
        },
    )) by {
        reveal_with_fuel(flatten_references, 2);
    }
}

/// Whatever else the entry file refers to, a reference to a name that the model
/// does not hold makes flattening fail.
pub proof fn lemma_missing_file_fails(brick: BrickModel, k: int)
    requires
        brick.files.dom().finite(),
        brick.files.dom().contains(brick.entry_file),
        0 <= k < brick.files[brick.entry_file].subfiles.len(),
        !brick.files.dom().contains(brick.files[brick.entry_file].subfiles[k].filename),
    ensures
        flattened(brick) is Err,
{
    let parts = brick.files;
    let entry = parts[brick.entry_file];
    let none = Seq::<Seq<char>>::empty();
    let trail = none.push(brick.entry_file);
    assert(!none.contains(brick.entry_file));
    let r = entry.subfiles[k];
    let steps = Seq::<PlacementModel>::empty().push(placement_of(r));
    assert(flatten_file(parts, r.filename, steps, r.bfc_direction, trail) is Err);
    assert(((k + 1) as nat - 1) as nat == k as nat);
    assert(flatten_references(parts, entry.subfiles, (k + 1) as nat, Seq::empty(), trail) is Err);
    lemma_flatten_references_fails(
        parts,
        entry.subfiles,
        (k + 1) as nat,
        entry.subfiles.len(),
        Seq::empty(),
        trail,
    );
}

/// Where the first reference of the entry file leads to a file whose first
/// reference leads back to the entry file, flattening fails, and names the
/// entry file as the one that repeats. A file whose first reference is to
/// itself fails in the same way.
pub proof fn lemma_reference_cycle(brick: BrickModel)
    requires
        brick.files.dom().finite(),
        brick.files.dom().contains(brick.entry_file),
        brick.files[brick.entry_file].subfiles.len() > 0,
        brick.files.dom().contains(brick.files[brick.entry_file].subfiles[0].filename),
        brick.files[brick.files[brick.entry_file].subfiles[0].filename].subfiles.len() > 0,
        brick.files[brick.files[brick.entry_file].subfiles[0].filename].subfiles[0].filename
            == brick.entry_file,
    ensures
        flattened(brick) == Err::<Seq<WorldTriangleModel>, ResolveFailure>(
            ResolveFailure::ReferenceCycle { filename: brick.entry_file },
        ),
{
    let parts = brick.files;
    let a = brick.entry_file;
    let entry = parts[a];
    let r = entry.subfiles[0];
    let b = r.filename;
    let none = Seq::<Seq<char>>::empty();
    let trail = none.push(a);
    let cycle = Err::<Seq<WorldTriangleModel>, ResolveFailure>(
        ResolveFailure::ReferenceCycle { filename: a },
    );
    assert(!none.contains(a));
    assert(trail[0] == a);
    assert(trail.contains(a));
    let steps = Seq::<PlacementModel>::empty().push(placement_of(r));
    if b == a {
        assert(flatten_file(parts, b, steps, r.bfc_direction, trail) == cycle);
    } else {
        let inner = parts[b];
        let back = inner.subfiles[0];
        let deeper = trail.push(b);
        assert(deeper[0] == a);
        assert(deeper.contains(a));
        assert(!trail.contains(b)) by {
            if trail.contains(b) {
                let i = choose|i: int| 0 <= i < trail.len() && trail[i] == b;
                assert(trail[i] == a);
            }
        }
        assert(flatten_file(
            parts,
            back.filename,
            steps.push(placement_of(back)),
            back.bfc_direction,
            deeper,
        ) == cycle);
        assert(flatten_references(parts, inner.subfiles, 1, steps, deeper) == cycle) by {
            reveal_with_fuel(flatten_references, 2);
        }
        lemma_flatten_references_fails(
            parts,
            inner.subfiles,
            1,
            inner.subfiles.len(),
            steps,
            deeper,
        );
        assert(flatten_file(parts, b, steps, r.bfc_direction, trail) == cycle);
    }
    assert(flatten_references(parts, entry.subfiles, 1, Seq::empty(), trail) == cycle) by {
        reveal_with_fuel(flatten_references, 2);
    }
    lemma_flatten_references_fails(
        parts,
        entry.subfiles,
        1,
        entry.subfiles.len(),
        Seq::empty(),
        trail,
    );
}

} // verus!

use crate::command::views;
use crate::grammar::{decode_file, FailureModel};
use crate::part::{assemble, assembled, FileModel, LDrawFile};
use crate::tokenizer::{tokenize_file, TokenizeError};
use vstd::prelude::*;
use vstd::string::StringExecFns;

verus! {

/// The files of one model, found by the names they declare, and the name of
/// the file the model starts from.
#[derive(Debug, Clone, PartialEq, Eq)]
pub struct LDrawBrick {
    pub entry_file: String,
    /// The files in the order they were put in. Of two files that declare the
    /// same name, the later one stands for the name.
    pub files: Vec<LDrawFile>,
}

/// What an `LDrawBrick` holds.
pub struct BrickModel {
    pub entry_file: Seq<char>,
    pub files: Map<Seq<char>, FileModel>,
}

/// The files by name, a later file taking the place of an earlier one of its name.
pub open spec fn files_by_name(files: Seq<FileModel>) -> Map<Seq<char>, FileModel>
    decreases files.len(),
{
    if files.len() == 0 {
        Map::empty()
    } else {
        files_by_name(files.drop_last()).insert(files.last().name, files.last())
    }
}

impl View for LDrawBrick {
    type V = BrickModel;

    open spec fn view(&self) -> BrickModel {
        BrickModel { entry_file: self.entry_file@, files: files_by_name(views(self.files@)) }
    }
}

/// The names are finitely many.
pub proof fn lemma_files_by_name_finite(files: Seq<FileModel>)
    ensures
        files_by_name(files).dom().finite(),
    decreases files.len(),
{
    if files.len() > 0 {
        lemma_files_by_name_finite(files.drop_last());
    }
}

/// A name stands for the last file that declares it, and for nothing where no file does.
pub proof fn lemma_files_by_name_lookup(files: Seq<FileModel>, name: Seq<char>, from: int)
    requires
        0 <= from <= files.len(),
        forall|j: int| from <= j < files.len() ==> (#[trigger] files[j]).name != name,
    ensures
        from == 0 ==> !files_by_name(files).dom().contains(name),
        from > 0 && files[from - 1].name == name ==> files_by_name(files).dom().contains(name)
            && files_by_name(files)[name] == files[from - 1],
    decreases files.len(),
{
    if files.len() > 0 {
        let rest = files.drop_last();
        if from == files.len() {
            if from > 0 && files[from - 1].name == name {
                assert(files.last() == files[from - 1]);
            }
        } else {
            assert(files.last().name != name);
            assert forall|j: int| from <= j < rest.len() implies (#[trigger] rest[j]).name
                != name by {
                assert(rest[j] == files[j]);
            }
            lemma_files_by_name_lookup(rest, name, from);
            if from > 0 {
                assert(rest[from - 1] == files[from - 1]);
            }
        }
    }
}

impl LDrawBrick {
    /// A model without files.
    pub fn new(entry_file: String) -> (r: LDrawBrick)
        ensures
            r.entry_file == entry_file,
            r.files@.len() == 0,
            r@.files == Map::<Seq<char>, FileModel>::empty(),
    {
        let r = LDrawBrick { entry_file, files: Vec::new() };
        assert(views(r.files@).len() == 0);
        r
    }

    /// Puts a file in under the name it declares, in place of any file of that name.
    pub fn insert(&mut self, file: LDrawFile)
        ensures
            final(self).entry_file == old(self).entry_file,
            final(self).files@ == old(self).files@.push(file),
            final(self)@.files == old(self)@.files.insert(file@.name, file@),
    {
        let ghost before = views(self.files@);
        self.files.push(file);
        assert(views(self.files@).drop_last() =~= before);
    }

    /// Where the file that stands for `name` is kept.
    pub fn find(&self, name: &String) -> (r: Option<usize>)
        ensures
            r is Some == self@.files.dom().contains(name@),
            r is Some ==> r->0 < self.files.len() && self.files[r->0 as int]@
                == self@.files[name@] && self.files[r->0 as int].name@ == name@,
            r is Some ==> forall|j: int|
                r->0 < j < self.files.len() ==> (#[trigger] self.files[j]).name@ != name@,
    {
        let ghost all = views(self.files@);
        let mut i: usize = self.files.len();
        while i > 0
            invariant
                i <= self.files.len(),
                all == views(self.files@),
                forall|j: int| i <= j < all.len() ==> (#[trigger] all[j]).name != name@,
            decreases i,
        {
            if self.files[i - 1].name == *name {
                proof {
                    assert(all[i - 1] == self.files[i - 1]@);
                    lemma_files_by_name_lookup(all, name@, i as int);
                    assert forall|j: int| i - 1 < j < self.files.len() implies (
                    #[trigger] self.files[j]).name@ != name@ by {
                        assert(all[j] == self.files[j]@);
                    }
                }
                return Some(i - 1);
            }
            assert(all[i - 1] == self.files[i - 1]@);
            i -= 1;
        }
        proof {
            lemma_files_by_name_lookup(all, name@, 0);
        }
        None
    }

    /// The file that stands for `name`.
    pub fn get(&self, name: &String) -> (r: Option<&LDrawFile>)
        ensures
            r is Some == self@.files.dom().contains(name@),
            r is Some ==> r->0@ == self@.files[name@],
    {
        match self.find(name) {
            Some(i) => Some(&self.files[i]),
            None => None,
        }
    }
}

/// The text of one file, with the name it was asked for by.
#[derive(Debug, Clone, PartialEq, Eq)]
pub struct SourceFile {
    pub name: String,
    pub lines: Vec<String>,
}

/// What a `SourceFile` holds.
pub struct SourceModel {
    pub name: Seq<char>,
    pub lines: Seq<Seq<char>>,
}

impl View for SourceFile {
    type V = SourceModel;

    open spec fn view(&self) -> SourceModel {
        SourceModel { name: self.name@, lines: views(self.lines@) }
    }
}

/// A file that could not be read, and the line it failed on.
#[derive(Debug, Clone, PartialEq, Eq)]
pub struct ParseError {
    /// The name the file was asked for by.
    pub file: String,
    pub error: TokenizeError,
}

/// What a `ParseError` holds.
pub struct ParseFailure {
    pub file: Seq<char>,
    pub failure: FailureModel,
}

impl View for ParseError {
    type V = ParseFailure;

    open spec fn view(&self) -> ParseFailure {
        ParseFailure { file: self.file@, failure: self.error@ }
    }
}

/// The files that the sources build, each under the name it declares, or the
/// first source that cannot be decoded.
pub open spec fn parsed_files(sources: Seq<SourceModel>) -> Result<
    Map<Seq<char>, FileModel>,
    ParseFailure,
>
    decreases sources.len(),
{
    if sources.len() == 0 {
        Ok(Map::empty())
    } else {
        match parsed_files(sources.drop_last()) {
            Err(e) => Err(e),
            Ok(files) => match decode_file(sources.last().lines) {
                Err(failure) => Err(ParseFailure { file: sources.last().name, failure }),
                Ok(commands) => Ok(files.insert(assembled(commands).name, assembled(commands))),
            },
        }
    }
}

/// The model with the identifier `id`: its files, and `id` with `.dat` as the entry.
pub open spec fn parsed_brick(id: Seq<char>, sources: Seq<SourceModel>) -> Result<
    BrickModel,
    ParseFailure,
> {
    match parsed_files(sources) {
        Ok(files) => Ok(BrickModel { entry_file: id + ".dat"@, files }),
        Err(e) => Err(e),
    }
}

/// The view of a model or of the failure to read it.
pub open spec fn brick_result_view(r: Result<LDrawBrick, ParseError>) -> Result<
    BrickModel,
    ParseFailure,
> {
    match r {
        Ok(b) => Ok(b@),
        Err(e) => Err(e@),
    }
}

proof fn lemma_parsed_files_fails(sources: Seq<SourceModel>, n: int)
    requires
        0 <= n <= sources.len(),
        parsed_files(sources.take(n)) is Err,
    ensures
        parsed_files(sources) == parsed_files(sources.take(n)),
    decreases sources.len() - n,
{
    if n < sources.len() {
        assert(sources.take(n + 1).drop_last() == sources.take(n));
        lemma_parsed_files_fails(sources, n + 1);
    } else {
        assert(sources.take(n) == sources);
    }
}

/// Builds the model with the identifier `id` from the text of its files.
///
/// Each source is decoded and assembled on its own, in the order given. The first
/// source that cannot be decoded ends the work, and is reported with its name.
pub fn parse_part(id: &str, sources: &Vec<SourceFile>) -> (r: Result<LDrawBrick, ParseError>)
    ensures
        brick_result_view(r) == parsed_brick(id@, views(sources@)),
{
    let ghost all = views(sources@);
    let mut entry = String::from_str(id);
    entry.append(".dat");
    let mut brick = LDrawBrick::new(entry);
    let mut i: usize = 0;
    assert(all.take(0).len() == 0);
    while i < sources.len()
        invariant
            i <= sources.len(),
            all == views(sources@),
            brick@.entry_file == id@ + ".dat"@,
            parsed_files(all.take(i as int)) == Ok::<Map<Seq<char>, FileModel>, ParseFailure>(
                brick@.files,
            ),
        decreases sources.len() - i,
    {
        proof {
            assert(all.take(i + 1).drop_last() == all.take(i as int));
            assert(all.take(i + 1).last() == sources@[i as int]@);
        }
        match tokenize_file(&sources[i].lines) {
            Ok(commands) => {
                brick.insert(assemble(&commands));
            },
            Err(error) => {
                let e = ParseError { file: sources[i].name.clone(), error };
                proof {
                    lemma_parsed_files_fails(all, i + 1);
                }
                return Err(e);
            },
        }
        i += 1;
    }
    assert(all.take(sources.len() as int) == all);
    Ok(brick)
}

} // verus!

use crate::command::{
    views, BFCDirection, Color, CommandModel, HistoryDate, LDrawCommand, LDrawType, Matrix, Scalar,
    Vector,
};
use crate::grammar::{
    color_of, decode_author, decode_bfc, decode_contour, decode_file, decode_history,
    decode_history_entry, decode_license, decode_line, decode_meta, decode_optional_contour,
    decode_quadrilateral, decode_subfile_reference, decode_triangle, fields_ok, history_date,
    iso_date, keywords_of, ldraw_type_of, some_command, vector_at, visible_len, winding_of,
    DecodeError, FailureModel,
};
use crate::number::{color_value, is_number, parse_color};
use crate::text::{
    chars_of, is_space, join_tokens, sanitize_file_name, space, split_words, string_of, strip,
    texts, token_is, tokenize_user_name, words,
};
use vstd::prelude::*;

verus! {

/// A line that could not be decoded.
#[derive(Debug, Clone, PartialEq, Eq)]
pub struct TokenizeError {
    pub kind: DecodeError,
    /// The number of the line in its file, counted from one.
    pub line_number: usize,
    /// The line as it was given.
    pub line: String,
}

impl View for TokenizeError {
    type V = FailureModel;

    open spec fn view(&self) -> FailureModel {
        FailureModel { kind: self.kind, line_number: self.line_number as int, line: self.line@ }
    }
}

/// The view of a decoded command or its error.
pub open spec fn command_result_view(r: Result<LDrawCommand, DecodeError>) -> Result<
    CommandModel,
    DecodeError,
> {
    match r {
        Ok(c) => Ok(c@),
        Err(e) => Err(e),
    }
}

/// The view of what a line gave.
pub open spec fn line_result_view(r: Result<Option<LDrawCommand>, DecodeError>) -> Result<
    Option<CommandModel>,
    DecodeError,
> {
    match r {
        Ok(Some(c)) => Ok(Some(c@)),
        Ok(None) => Ok(None),
        Err(e) => Err(e),
    }
}

/// The view of what a file gave.
pub open spec fn file_result_view(r: Result<Vec<LDrawCommand>, TokenizeError>) -> Result<
    Seq<CommandModel>,
    FailureModel,
> {
    match r {
        Ok(commands) => Ok(views(commands@)),
        Err(e) => Err(e@),
    }
}

impl BFCDirection {
    /// Reads a winding from its name.
    pub fn from_str(input: &str) -> (r: Result<BFCDirection, ()>)
        ensures
            r.ok() == winding_of(input@),
    {
        let token = chars_of(input);
        match winding_from_token(&token) {
            Some(w) => Ok(w),
            None => Err(()),
        }
    }
}

fn winding_from_token(token: &Vec<char>) -> (r: Option<BFCDirection>)
    ensures
        r == winding_of(token@),
{
    if token_is(token, "CW") {
        Some(BFCDirection::CW)
    } else if token_is(token, "CCW") {
        Some(BFCDirection::CCW)
    } else {
        None
    }
}

impl LDrawType {
    /// Reads a file type from its name.
    pub fn from_str(input: &str) -> (r: Result<LDrawType, ()>)
        ensures
            r.ok() == ldraw_type_of(input@),
    {
        let token = chars_of(input);
        match type_from_token(&token) {
            Some(t) => Ok(t),
            None => Err(()),
        }
    }
}

fn type_from_token(token: &Vec<char>) -> (r: Option<LDrawType>)
    ensures
        r == ldraw_type_of(token@),
{
    if token_is(token, "Part") {
        Some(LDrawType::Part)
    } else if token_is(token, "Subpart") {
        Some(LDrawType::Subpart)
    } else if token_is(token, "Primitive") {
        Some(LDrawType::Primitive)
    } else if token_is(token, "8_Primitive") {
        Some(LDrawType::Primitive8)
    } else if token_is(token, "48_Primitive") {
        Some(LDrawType::Primitive48)
    } else if token_is(token, "Shortcut") {
        Some(LDrawType::Shortcut)
    } else if token_is(token, "Unofficial_Part") {
        Some(LDrawType::UnofficialPart)
    } else if token_is(token, "Unofficial_Subpart") {
        Some(LDrawType::UnofficialSubpart)
    } else if token_is(token, "Unofficial_Primitive") {
        Some(LDrawType::UnofficialPrimitive)
    } else if token_is(token, "Unofficial_8_Primitive") {
        Some(LDrawType::UnofficialPrimitive8)
    } else if token_is(token, "Unofficial_48_Primitive") {
        Some(LDrawType::UnofficialPrimitive48)
    } else if token_is(token, "Unofficial_Shortcut") {
        Some(LDrawType::UnofficialShortcut)
    } else {
        None
    }
}

/// Calls `chrono::NaiveDate::parse_from_str` with the format `%Y-%m-%d` and hands
/// back the year, month and day of the date it gives, or nothing where it fails.
/// What it makes of a token is not stated here: the result is only given its name.
#[verifier::external_body]
fn parse_iso_date(token: &str) -> (r: Option<(i32, u32, u32)>)
    ensures
        r == iso_date(token@),
{
    match chrono::NaiveDate::parse_from_str(token, "%Y-%m-%d") {
        Ok(date) => Some(
            (
                chrono::Datelike::year(&date),
                chrono::Datelike::month(&date),
                chrono::Datelike::day(&date),
            ),
        ),
        Err(_) => None,
    }
}

/// Reads a token as a date.
pub fn tokenize_date(token: &Vec<char>) -> (r: Option<HistoryDate>)
    ensures
        r == history_date(token@),
{
    let text = string_of(token);
    match parse_iso_date(text.as_str()) {
        Some(d) => Some(HistoryDate { year: d.0, month: d.1, day: d.2 }),
        None => None,
    }
}

fn tokenize_author(tokens: &Vec<Vec<char>>, from: usize) -> (r: LDrawCommand)
    requires
        from <= tokens.len(),
    ensures
        r@ == decode_author(texts(tokens@).skip(from as int)),
{
    let n: usize = tokens.len();
    let ghost args = texts(tokens@).skip(from as int);
    assert(args == texts(tokens@).subrange(from as int, n as int));
    if n > from {
        assert(args.last() == tokens@[n - 1]@);
        assert(args.drop_last() == texts(tokens@).subrange(from as int, n - 1));
        match tokenize_user_name(&tokens[n - 1]) {
            Some(handle) => {
                let name = join_tokens(tokens, from, n - 1);
                return LDrawCommand::Author(name, Some(handle));
            },
            None => {},
        }
    }
    LDrawCommand::Author(join_tokens(tokens, from, n), None)
}

fn tokenize_license(tokens: &Vec<Vec<char>>, from: usize) -> (r: LDrawCommand)
    requires
        from <= tokens.len(),
    ensures
        r@ == decode_license(texts(tokens@).skip(from as int)),
{
    let n: usize = tokens.len();
    let ghost args = texts(tokens@).skip(from as int);
    let text = if n - from > 3 {
        assert(args.take(args.len() - 3) == texts(tokens@).subrange(from as int, n - 3));
        join_tokens(tokens, from, n - 3)
    } else {
        String::new()
    };
    let code = if n > from {
        assert(args.last() == tokens@[n - 1]@);
        string_of(&tokens[n - 1])
    } else {
        String::new()
    };
    LDrawCommand::License(text, code)
}

fn tokenize_keywords(tokens: &Vec<Vec<char>>, from: usize) -> (r: LDrawCommand)
    requires
        from <= tokens.len(),
    ensures
        r@ == CommandModel::Keywords(keywords_of(texts(tokens@).skip(from as int))),
{
    let n: usize = tokens.len();
    let ghost args = texts(tokens@).skip(from as int);
    let mut out: Vec<String> = Vec::new();
    let mut i: usize = from;
    while i < n
        invariant
            from <= i <= n,
            n == tokens.len(),
            args == texts(tokens@).skip(from as int),
            views(out@) == keywords_of(args).take(i - from),
        decreases n - i,
    {
        let ghost before = views(out@);
        let word = strip(&tokens[i], ',');
        out.push(word);
        assert(args[i - from] == tokens@[i as int]@);
        assert(views(out@) =~= before.push(keywords_of(args)[i - from]));
        i += 1;
        assert(views(out@) =~= keywords_of(args).take(i - from));
    }
    assert(keywords_of(args).take(n - from) == keywords_of(args));
    LDrawCommand::Keywords(out)
}

/// Builds the history command from what the first token is as a date, and from
/// the tokens of the line from `from` on, the date's token being the first.
pub fn history_entry(date: Option<HistoryDate>, tokens: &Vec<Vec<char>>, from: usize) -> (r:
    Result<LDrawCommand, DecodeError>)
    requires
        from <= tokens.len(),
    ensures
        command_result_view(r) == decode_history_entry(date, texts(tokens@).skip(from as int)),
{
    let n: usize = tokens.len();
    let ghost args = texts(tokens@).skip(from as int);
    match date {
        Some(d) => {
            let handle = if n - from > 1 {
                assert(args[1] == tokens@[from + 1]@);
                tokenize_user_name(&tokens[from + 1])
            } else {
                None
            };
            let text = if n - from > 2 {
                assert(args.skip(2) == texts(tokens@).subrange(from + 2, n as int));
                join_tokens(tokens, from + 2, n)
            } else {
                String::new()
            };
            Ok(LDrawCommand::History(d, handle, text))
        },
        None => Err(DecodeError::MalformedHistoryDate),
    }
}

fn tokenize_history(tokens: &Vec<Vec<char>>, from: usize) -> (r: Result<
    LDrawCommand,
    DecodeError,
>)
    requires
        from <= tokens.len(),
    ensures
        command_result_view(r) == decode_history(texts(tokens@).skip(from as int)),
{
    if from == tokens.len() {
        return Err(DecodeError::MalformedHistoryDate);
    }
    assert(texts(tokens@).skip(from as int)[0] == tokens@[from as int]@);
    let date = tokenize_date(&tokens[from]);
    history_entry(date, tokens, from)
}

fn tokenize_bfc_certification(tokens: &Vec<Vec<char>>, from: usize) -> (r: LDrawCommand)
    requires
        from <= tokens.len(),
    ensures
        r@ == decode_bfc(texts(tokens@).skip(from as int)),
{
    let n: usize = tokens.len();
    let ghost args = texts(tokens@).skip(from as int);
    if from == n {
        return LDrawCommand::Comment;
    }
    assert(args[0] == tokens@[from as int]@);
    if token_is(&tokens[from], "CERTIFY") {
        if n - from > 1 {
            assert(args[1] == tokens@[from + 1]@);
            LDrawCommand::BFCCertification(winding_from_token(&tokens[from + 1]))
        } else {
            LDrawCommand::BFCCertification(None)
        }
    } else if token_is(&tokens[from], "NOCERTIFY") {
        LDrawCommand::BFCCertification(None)
    } else {
        LDrawCommand::Comment
    }
}

fn tokenize_meta(tokens: &Vec<Vec<char>>, from: usize, line_index: usize) -> (r: Result<
    LDrawCommand,
    DecodeError,
>)
    requires
        from <= tokens.len(),
    ensures
        command_result_view(r) == decode_meta(texts(tokens@).skip(from as int), line_index as int),
{
    let n: usize = tokens.len();
    let ghost tail = texts(tokens@).skip(from as int);
    if line_index == 0 {
        assert(tail == texts(tokens@).subrange(from as int, n as int));
        return Ok(LDrawCommand::Title(join_tokens(tokens, from, n)));
    }
    if from == n {
        return Ok(LDrawCommand::Comment);
    }
    let key = &tokens[from];
    let ghost args = tail.skip(1);
    assert(tail[0] == key@);
    assert(args == texts(tokens@).skip(from + 1));
    if token_is(key, "Name:") {
        assert(args == texts(tokens@).subrange(from + 1, n as int));
        let joined = join_tokens(tokens, from + 1, n);
        let name = chars_of(joined.as_str());
        Ok(LDrawCommand::Name(sanitize_file_name(&name)))
    } else if token_is(key, "Author:") {
        Ok(tokenize_author(tokens, from + 1))
    } else if token_is(key, "!LICENSE") {
        Ok(tokenize_license(tokens, from + 1))
    } else if token_is(key, "!LDRAW_ORG") {
        if n - from > 1 {
            assert(args[0] == tokens@[from + 1]@);
            match type_from_token(&tokens[from + 1]) {
                Some(t) => Ok(LDrawCommand::LDrawOrg(t)),
                None => Err(DecodeError::UnknownLDrawOrgType),
            }
        } else {
            Err(DecodeError::UnknownLDrawOrgType)
        }
    } else if token_is(key, "!CATEGORY") {
        if n - from > 1 {
            assert(args[0] == tokens@[from + 1]@);
            Ok(LDrawCommand::Category(string_of(&tokens[from + 1])))
        } else {
            Ok(LDrawCommand::Category(String::new()))
        }
    } else if token_is(key, "!KEYWORDS") {
        Ok(tokenize_keywords(tokens, from + 1))
    } else if token_is(key, "!HISTORY") {
        tokenize_history(tokens, from + 1)
    } else if token_is(key, "BFC") {
        Ok(tokenize_bfc_certification(tokens, from + 1))
    } else {
        Ok(LDrawCommand::Comment)
    }
}

fn tokenize_vec3(tokens: &Vec<Vec<char>>, at: usize) -> (r: Option<Vector>)
    requires
        at + 3 <= tokens.len(),
    ensures
        r is Some == (is_number(tokens@[at as int]@) && is_number(tokens@[at + 1]@) && is_number(
            tokens@[at + 2]@,
        )),
        r is Some ==> r->0@ == vector_at(texts(tokens@), at as int),
{
    let x = match Scalar::parse(&tokens[at]) {
        Some(s) => s,
        None => {
            return None;
        },
    };
    let y = match Scalar::parse(&tokens[at + 1]) {
        Some(s) => s,
        None => {
            return None;
        },
    };
    let z = match Scalar::parse(&tokens[at + 2]) {
        Some(s) => s,
        None => {
            return None;
        },
    };
    Some(Vector { x, y, z })
}

fn tokenize_color(token: &Vec<char>) -> (r: Option<Color>)
    ensures
        r is Some == color_value(token@) is Some,
        r is Some ==> r->0.value == color_value(token@)->0,
{
    match parse_color(token) {
        Some(value) => Some(Color { value }),
        None => None,
    }
}

/// The fields of a geometry line: the colour, then the points.
struct Fields {
    color: Color,
    points: Vec<Vector>,
}

fn tokenize_fields(tokens: &Vec<Vec<char>>, from: usize, points: usize) -> (r: Option<Fields>)
    requires
        from <= tokens.len(),
        points <= 4,
    ensures
        r is Some == fields_ok(texts(tokens@).skip(from as int), 3 * points),
        r is Some ==> {
            &&& r->0.color == color_of(texts(tokens@).skip(from as int))
            &&& r->0.points.len() == points
            &&& forall|k: int|
                0 <= k < points ==> (#[trigger] r->0.points[k])@ == vector_at(
                    texts(tokens@).skip(from as int),
                    1 + 3 * k,
                )
        },
{
    let n: usize = tokens.len();
    let ghost tail = texts(tokens@).skip(from as int);
    if n - from <= 3 * points {
        return None;
    }
    assert(tail[0] == tokens@[from as int]@);
    let color = match tokenize_color(&tokens[from]) {
        Some(c) => c,
        None => {
            return None;
        },
    };
    let mut out: Vec<Vector> = Vec::new();
    let mut k: usize = 0;
    while k < points
        invariant
            k <= points <= 4,
            n == tokens.len(),
            n - from > 3 * points,
            tail == texts(tokens@).skip(from as int),
            out.len() == k,
            forall|i: int| 1 <= i <= 3 * k ==> is_number(#[trigger] tail[i]),
            forall|j: int| 0 <= j < k ==> (#[trigger] out[j])@ == vector_at(tail, 1 + 3 * j),
        decreases points - k,
    {
        let at: usize = from + 1 + 3 * k;
        assert(tail[1 + 3 * k] == tokens@[at as int]@);
        assert(tail[2 + 3 * k] == tokens@[at + 1]@);
        assert(tail[3 + 3 * k] == tokens@[at + 2]@);
        match tokenize_vec3(tokens, at) {
            Some(v) => {
                out.push(v);
            },
            None => {
                return None;
            },
        }
        k += 1;
    }
    Some(Fields { color, points: out })
}

fn tokenize_subfile_reference(tokens: &Vec<Vec<char>>, from: usize) -> (r: Result<
    LDrawCommand,
    DecodeError,
>)
    requires
        from <= tokens.len(),
    ensures
        command_result_view(r) == decode_subfile_reference(texts(tokens@).skip(from as int)),
{
    let ghost tail = texts(tokens@).skip(from as int);
    if tokens.len() - from <= 13 {
        return Err(DecodeError::MalformedNumericField);
    }
    match tokenize_fields(tokens, from, 4) {
        Some(fields) => {
            let color = fields.color;
            let mut v = fields.points;
            let r2 = v.pop().unwrap();
            let r1 = v.pop().unwrap();
            let r0 = v.pop().unwrap();
            let translation = v.pop().unwrap();
            assert(tail[13] == tokens@[from + 13]@);
            let file = sanitize_file_name(&tokens[from + 13]);
            Ok(
                LDrawCommand::SubfileReference(
                    color,
                    translation,
                    Matrix { r0, r1, r2 },
                    file,
                    false,
                ),
            )
        },
        None => Err(DecodeError::MalformedNumericField),
    }
}

fn tokenize_contour(tokens: &Vec<Vec<char>>, from: usize) -> (r: Result<
    LDrawCommand,
    DecodeError,
>)
    requires
        from <= tokens.len(),
    ensures
        command_result_view(r) == decode_contour(texts(tokens@).skip(from as int)),
{
    match tokenize_fields(tokens, from, 2) {
        Some(fields) => {
            let color = fields.color;
            let mut v = fields.points;
            let y = v.pop().unwrap();
            let x = v.pop().unwrap();
            Ok(LDrawCommand::Contour(color, x, y))
        },
        None => Err(DecodeError::MalformedNumericField),
    }
}

fn tokenize_triangle(tokens: &Vec<Vec<char>>, from: usize) -> (r: Result<
    LDrawCommand,
    DecodeError,
>)
    requires
        from <= tokens.len(),
    ensures
        command_result_view(r) == decode_triangle(texts(tokens@).skip(from as int)),
{
    match tokenize_fields(tokens, from, 3) {
        Some(fields) => {
            let color = fields.color;
            let mut v = fields.points;
            let z = v.pop().unwrap();
            let y = v.pop().unwrap();
            let x = v.pop().unwrap();
            Ok(LDrawCommand::Triangle(color, x, y, z))
        },
        None => Err(DecodeError::MalformedNumericField),
    }
}

fn tokenize_quadrilateral(tokens: &Vec<Vec<char>>, from: usize) -> (r: Result<
    LDrawCommand,
    DecodeError,
>)
    requires
        from <= tokens.len(),
    ensures
        command_result_view(r) == decode_quadrilateral(texts(tokens@).skip(from as int)),
{
    match tokenize_fields(tokens, from, 4) {
        Some(fields) => {
            let color = fields.color;
            let mut v = fields.points;
            let w = v.pop().unwrap();
            let z = v.pop().unwrap();
            let y = v.pop().unwrap();
            let x = v.pop().unwrap();
            Ok(LDrawCommand::Quadrilateral(color, x, y, z, w))
        },
        None => Err(DecodeError::MalformedNumericField),
    }
}

fn tokenize_optional_contour(tokens: &Vec<Vec<char>>, from: usize) -> (r: Result<
    LDrawCommand,
    DecodeError,
>)
    requires
        from <= tokens.len(),
    ensures
        command_result_view(r) == decode_optional_contour(texts(tokens@).skip(from as int)),
{
    match tokenize_fields(tokens, from, 4) {
        Some(fields) => {
            let color = fields.color;
            let mut v = fields.points;
            let w = v.pop().unwrap();
            let z = v.pop().unwrap();
            let y = v.pop().unwrap();
            let x = v.pop().unwrap();
            Ok(LDrawCommand::OptionalContour(color, x, y, z, w))
        },
        None => Err(DecodeError::MalformedNumericField),
    }
}

proof fn lemma_visible_has_witness(s: Seq<char>)
    requires
        visible_len(s) > 0,
    ensures
        exists|i: int| 0 <= i < s.len() && !is_space(#[trigger] s[i]),
    decreases s.len(),
{
    if is_space(s.last()) {
        lemma_visible_has_witness(s.drop_last());
        let i = choose|i: int| 0 <= i < s.len() - 1 && !is_space(#[trigger] s.drop_last()[i]);
        assert(!is_space(s[i]));
    } else {
        assert(!is_space(s[s.len() - 1]));
    }
}

proof fn lemma_words_nonempty(s: Seq<char>, i: int)
    requires
        0 <= i < s.len(),
        !is_space(s[i]),
    ensures
        words(s).len() > 0,
    decreases s.len(),
{
    if is_space(s[0]) {
        assert(s.drop_first()[i - 1] == s[i]);
        lemma_words_nonempty(s.drop_first(), i - 1);
    }
}

fn few_visible(line: &Vec<char>) -> (r: bool)
    ensures
        r == (visible_len(line@) < 2),
        !r ==> words(line@).len() > 0,
{
    let mut seen: usize = 0;
    let mut i: usize = 0;
    while i < line.len()
        invariant
            i <= line.len(),
            seen == visible_len(line@.take(i as int)),
            seen <= i,
        decreases line.len() - i,
    {
        assert(line@.take(i + 1).drop_last() == line@.take(i as int));
        if !space(line[i]) {
            seen += 1;
        }
        i += 1;
    }
    assert(line@.take(line.len() as int) == line@);
    proof {
        if seen >= 2 {
            lemma_visible_has_witness(line@);
            let w = choose|w: int| 0 <= w < line@.len() && !is_space(#[trigger] line@[w]);
            lemma_words_nonempty(line@, w);
        }
    }
    seen < 2
}

fn some_of(r: Result<LDrawCommand, DecodeError>) -> (out: Result<
    Option<LDrawCommand>,
    DecodeError,
>)
    ensures
        line_result_view(out) == some_command(command_result_view(r)),
{
    match r {
        Ok(c) => Ok(Some(c)),
        Err(e) => Err(e),
    }
}

/// Decodes the line at `index` of a file.
pub fn tokenize_line(line: &str, index: usize) -> (r: Result<Option<LDrawCommand>, DecodeError>)
    ensures
        line_result_view(r) == decode_line(line@, index as int),
{
    let chars = chars_of(line);
    if few_visible(&chars) {
        return Ok(None);
    }
    let tokens = split_words(&chars);
    assert(texts(tokens@).len() == tokens.len());
    assert(texts(tokens@)[0] == tokens@[0]@);
    let kind = &tokens[0];
    if token_is(kind, "0") {
        some_of(tokenize_meta(&tokens, 1, index))
    } else if token_is(kind, "1") {
        some_of(tokenize_subfile_reference(&tokens, 1))
    } else if token_is(kind, "2") {
        some_of(tokenize_contour(&tokens, 1))
    } else if token_is(kind, "3") {
        some_of(tokenize_triangle(&tokens, 1))
    } else if token_is(kind, "4") {
        some_of(tokenize_quadrilateral(&tokens, 1))
    } else if token_is(kind, "5") {
        some_of(tokenize_optional_contour(&tokens, 1))
    } else {
        Ok(None)
    }
}

/// Decodes the lines of a file into its commands.
///
/// Lines that say nothing are left out. The first line that cannot be decoded
/// ends the work, and is reported with its number and text.
pub fn tokenize_file(lines: &Vec<String>) -> (r: Result<Vec<LDrawCommand>, TokenizeError>)
    ensures
        file_result_view(r) == decode_file(views(lines@)),
{
    let ghost all = views(lines@);
    let mut out: Vec<LDrawCommand> = Vec::new();
    let mut i: usize = 0;
    assert(all.take(0).len() == 0);
    assert(views(out@) =~= Seq::<CommandModel>::empty());
    while i < lines.len()
        invariant
            i <= lines.len(),
            all == views(lines@),
            decode_file(all.take(i as int)) == Ok::<Seq<CommandModel>, FailureModel>(
                views(out@),
            ),
        decreases lines.len() - i,
    {
        let ghost before = views(out@);
        proof {
            assert(all.take(i + 1).drop_last() == all.take(i as int));
            assert(all.take(i + 1).last() == lines@[i as int]@);
        }
        match tokenize_line(lines[i].as_str(), i) {
            Ok(Some(c)) => {
                out.push(c);
                assert(views(out@) =~= before.push(c@));
            },
            Ok(None) => {},
            Err(kind) => {
                let e = TokenizeError { kind, line_number: i + 1, line: lines[i].clone() };
                proof {
                    lemma_decode_file_fails(all, i + 1);
                }
                return Err(e);
            },
        }
        i += 1;
    }
    assert(all.take(lines.len() as int) == all);
    Ok(out)
}

/// Once a prefix of a file fails, the file fails in the same way.
pub proof fn lemma_decode_file_fails(lines: Seq<Seq<char>>, n: int)
    requires
        0 <= n <= lines.len(),
        decode_file(lines.take(n)) is Err,
    ensures
        decode_file(lines) == decode_file(lines.take(n)),
    decreases lines.len() - n,
{
    if n < lines.len() {
        assert(lines.take(n + 1).drop_last() == lines.take(n));
        lemma_decode_file_fails(lines, n + 1);
    } else {
        assert(lines.take(n) == lines);
    }
}

} // verus!

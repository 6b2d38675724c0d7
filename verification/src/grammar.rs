use crate::command::{
    BFCDirection, Color, CommandModel, HistoryDate, LDrawType, MatrixModel, VectorModel,
};
use crate::number::{color_value, is_number};
use crate::text::{handle_of, is_space, join, sanitized, without, words};
use vstd::prelude::*;

verus! {

/// Why a line could not be decoded.
#[derive(Debug, Clone, Copy, PartialEq, Eq)]
pub enum DecodeError {
    /// A colour or a coordinate is missing or is no number.
    MalformedNumericField,
    /// The file type is missing or is none of the known ones.
    UnknownLDrawOrgType,
    /// The date of a history line is missing or is no calendar date.
    MalformedHistoryDate,
}

/// How many characters of `s` are no white space.
pub open spec fn visible_len(s: Seq<char>) -> nat
    decreases s.len(),
{
    if s.len() == 0 {
        0
    } else {
        visible_len(s.drop_last()) + if is_space(s.last()) {
            0nat
        } else {
            1nat
        }
    }
}

/// The winding that a token names.
pub open spec fn winding_of(s: Seq<char>) -> Option<BFCDirection> {
    if s == "CW"@ {
        Some(BFCDirection::CW)
    } else if s == "CCW"@ {
        Some(BFCDirection::CCW)
    } else {
        None
    }
}

/// The file type that a token names.
pub open spec fn ldraw_type_of(s: Seq<char>) -> Option<LDrawType> {
    if s == "Part"@ {
        Some(LDrawType::Part)
    } else if s == "Subpart"@ {
        Some(LDrawType::Subpart)
    } else if s == "Primitive"@ {
        Some(LDrawType::Primitive)
    } else if s == "8_Primitive"@ {
        Some(LDrawType::Primitive8)
    } else if s == "48_Primitive"@ {
        Some(LDrawType::Primitive48)
    } else if s == "Shortcut"@ {
        Some(LDrawType::Shortcut)
    } else if s == "Unofficial_Part"@ {
        Some(LDrawType::UnofficialPart)
    } else if s == "Unofficial_Subpart"@ {
        Some(LDrawType::UnofficialSubpart)
    } else if s == "Unofficial_Primitive"@ {
        Some(LDrawType::UnofficialPrimitive)
    } else if s == "Unofficial_8_Primitive"@ {
        Some(LDrawType::UnofficialPrimitive8)
    } else if s == "Unofficial_48_Primitive"@ {
        Some(LDrawType::UnofficialPrimitive48)
    } else if s == "Unofficial_Shortcut"@ {
        Some(LDrawType::UnofficialShortcut)
    } else {
        None
    }
}

/// The author line: a trailing token in square brackets is the handle, and what
/// stands before it the name; without one, every token belongs to the name.
pub open spec fn decode_author(args: Seq<Seq<char>>) -> CommandModel {
    if args.len() > 0 && handle_of(args.last()) is Some {
        CommandModel::Author(join(args.drop_last()), handle_of(args.last()))
    } else {
        CommandModel::Author(join(args), None)
    }
}

/// The licence line: the last token is the code, and the text is every token
/// but the last three.
pub open spec fn decode_license(args: Seq<Seq<char>>) -> CommandModel {
    let text = if args.len() > 3 {
        join(args.take(args.len() - 3))
    } else {
        Seq::empty()
    };
    let code = if args.len() > 0 {
        args.last()
    } else {
        Seq::empty()
    };
    CommandModel::License(text, code)
}

/// The keywords of a line: each token without its commas.
pub open spec fn keywords_of(args: Seq<Seq<char>>) -> Seq<Seq<char>> {
    Seq::new(args.len(), |i: int| without(args[i], ','))
}

/// The history line, given what its first token is as a date.
pub open spec fn decode_history_entry(
    date: Option<HistoryDate>,
    args: Seq<Seq<char>>,
) -> Result<CommandModel, DecodeError> {
    match date {
        Some(d) => Ok(
            CommandModel::History(
                d,
                if args.len() > 1 {
                    handle_of(args[1])
                } else {
                    None
                },
                if args.len() > 2 {
                    join(args.skip(2))
                } else {
                    Seq::empty()
                },
            ),
        ),
        None => Err(DecodeError::MalformedHistoryDate),
    }
}

/// What the date parser makes of a token: year, month and day, or nothing
/// where the token is no date in the form `YYYY-MM-DD`.
pub uninterp spec fn iso_date(token: Seq<char>) -> Option<(i32, u32, u32)>;

/// The date that a token holds.
pub open spec fn history_date(token: Seq<char>) -> Option<HistoryDate> {
    match iso_date(token) {
        Some(d) => Some(HistoryDate { year: d.0, month: d.1, day: d.2 }),
        None => None,
    }
}

/// The history line: a date, then an optional handle in square brackets, then free text.
pub open spec fn decode_history(args: Seq<Seq<char>>) -> Result<CommandModel, DecodeError> {
    if args.len() == 0 {
        Err(DecodeError::MalformedHistoryDate)
    } else {
        decode_history_entry(history_date(args[0]), args)
    }
}

/// The certification line.
pub open spec fn decode_bfc(args: Seq<Seq<char>>) -> CommandModel {
    if args.len() == 0 {
        CommandModel::Comment
    } else if args[0] == "CERTIFY"@ {
        CommandModel::BFCCertification(
            if args.len() > 1 {
                winding_of(args[1])
            } else {
                None
            },
        )
    } else if args[0] == "NOCERTIFY"@ {
        CommandModel::BFCCertification(None)
    } else {
        CommandModel::Comment
    }
}

/// A line of type `0`, from the tokens that follow the type.
///
/// The first line of a file is its title, whatever it holds. On every other line
/// the first token chooses the command, and an unknown one makes a comment.
pub open spec fn decode_meta(tail: Seq<Seq<char>>, index: int) -> Result<
    CommandModel,
    DecodeError,
> {
    if index == 0 {
        Ok(CommandModel::Title(join(tail)))
    } else if tail.len() == 0 {
        Ok(CommandModel::Comment)
    } else {
        let args = tail.skip(1);
        if tail[0] == "Name:"@ {
            Ok(CommandModel::Name(sanitized(join(args))))
        } else if tail[0] == "Author:"@ {
            Ok(decode_author(args))
        } else if tail[0] == "!LICENSE"@ {
            Ok(decode_license(args))
        } else if tail[0] == "!LDRAW_ORG"@ {
            if args.len() > 0 && ldraw_type_of(args[0]) is Some {
                Ok(CommandModel::LDrawOrg(ldraw_type_of(args[0])->0))
            } else {
                Err(DecodeError::UnknownLDrawOrgType)
            }
        } else if tail[0] == "!CATEGORY"@ {
            Ok(
                CommandModel::Category(
                    if args.len() > 0 {
                        args[0]
                    } else {
                        Seq::empty()
                    },
                ),
            )
        } else if tail[0] == "!KEYWORDS"@ {
            Ok(CommandModel::Keywords(keywords_of(args)))
        } else if tail[0] == "!HISTORY"@ {
            decode_history(args)
        } else if tail[0] == "BFC"@ {
            Ok(decode_bfc(args))
        } else {
            Ok(CommandModel::Comment)
        }
    }
}

/// The tokens after the line type start with a colour and `count` numbers.
pub open spec fn fields_ok(tail: Seq<Seq<char>>, count: int) -> bool {
    &&& tail.len() > count
    &&& color_value(tail[0]) is Some
    &&& forall|i: int| 1 <= i <= count ==> is_number(#[trigger] tail[i])
}

/// The colour at the head of a geometry line.
pub open spec fn color_of(tail: Seq<Seq<char>>) -> Color {
    Color { value: color_value(tail[0])->0 }
}

/// The three fields from `at` on.
pub open spec fn vector_at(tail: Seq<Seq<char>>, at: int) -> VectorModel {
    VectorModel { x: tail[at], y: tail[at + 1], z: tail[at + 2] }
}

/// The nine fields from `at` on, row by row.
pub open spec fn matrix_at(tail: Seq<Seq<char>>, at: int) -> MatrixModel {
    MatrixModel {
        r0: vector_at(tail, at),
        r1: vector_at(tail, at + 3),
        r2: vector_at(tail, at + 6),
    }
}

/// A line of type `1`: colour, translation, linear transform, file name.
pub open spec fn decode_subfile_reference(tail: Seq<Seq<char>>) -> Result<
    CommandModel,
    DecodeError,
> {
    if fields_ok(tail, 12) && tail.len() > 13 {
        Ok(
            CommandModel::SubfileReference(
                color_of(tail),
                vector_at(tail, 1),
                matrix_at(tail, 4),
                sanitized(tail[13]),
                false,
            ),
        )
    } else {
        Err(DecodeError::MalformedNumericField)
    }
}

/// A line of type `2`: colour and two points.
pub open spec fn decode_contour(tail: Seq<Seq<char>>) -> Result<CommandModel, DecodeError> {
    if fields_ok(tail, 6) {
        Ok(CommandModel::Contour(color_of(tail), vector_at(tail, 1), vector_at(tail, 4)))
    } else {
        Err(DecodeError::MalformedNumericField)
    }
}

/// A line of type `3`: colour and three points.
pub open spec fn decode_triangle(tail: Seq<Seq<char>>) -> Result<CommandModel, DecodeError> {
    if fields_ok(tail, 9) {
        Ok(
            CommandModel::Triangle(
                color_of(tail),
                vector_at(tail, 1),
                vector_at(tail, 4),
                vector_at(tail, 7),
            ),
        )
    } else {
        Err(DecodeError::MalformedNumericField)
    }
}

/// A line of type `4`: colour and four points.
pub open spec fn decode_quadrilateral(tail: Seq<Seq<char>>) -> Result<
    CommandModel,
    DecodeError,
> {
    if fields_ok(tail, 12) {
        Ok(
            CommandModel::Quadrilateral(
                color_of(tail),
                vector_at(tail, 1),
                vector_at(tail, 4),
                vector_at(tail, 7),
                vector_at(tail, 10),
            ),
        )
    } else {
        Err(DecodeError::MalformedNumericField)
    }
}

/// A line of type `5`: colour, two points and two control points.
pub open spec fn decode_optional_contour(tail: Seq<Seq<char>>) -> Result<
    CommandModel,
    DecodeError,
> {
    if fields_ok(tail, 12) {
        Ok(
            CommandModel::OptionalContour(
                color_of(tail),
                vector_at(tail, 1),
                vector_at(tail, 4),
                vector_at(tail, 7),
                vector_at(tail, 10),
            ),
        )
    } else {
        Err(DecodeError::MalformedNumericField)
    }
}

/// A decoded command as the command of a line.
pub open spec fn some_command(r: Result<CommandModel, DecodeError>) -> Result<
    Option<CommandModel>,
    DecodeError,
> {
    match r {
        Ok(c) => Ok(Some(c)),
        Err(e) => Err(e),
    }
}

/// What the line at `index` of a file says.
///
/// A line with fewer than two characters that are no white space says nothing.
/// Otherwise its first word is the line type, `0` to `5`; a line of any other
/// type says nothing either.
pub open spec fn decode_line(line: Seq<char>, index: int) -> Result<
    Option<CommandModel>,
    DecodeError,
> {
    let ts = words(line);
    let tail = ts.skip(1);
    if visible_len(line) < 2 {
        Ok(None)
    } else if ts[0] == "0"@ {
        some_command(decode_meta(tail, index))
    } else if ts[0] == "1"@ {
        some_command(decode_subfile_reference(tail))
    } else if ts[0] == "2"@ {
        some_command(decode_contour(tail))
    } else if ts[0] == "3"@ {
        some_command(decode_triangle(tail))
    } else if ts[0] == "4"@ {
        some_command(decode_quadrilateral(tail))
    } else if ts[0] == "5"@ {
        some_command(decode_optional_contour(tail))
    } else {
        Ok(None)
    }
}

/// A line that could not be decoded: why, its number counted from one, and its text.
pub struct FailureModel {
    pub kind: DecodeError,
    pub line_number: int,
    pub line: Seq<char>,
}

/// The commands of a file, line after line, or its first line that cannot be decoded.
pub open spec fn decode_file(lines: Seq<Seq<char>>) -> Result<Seq<CommandModel>, FailureModel>
    decreases lines.len(),
{
    if lines.len() == 0 {
        Ok(Seq::empty())
    } else {
        match decode_file(lines.drop_last()) {
            Err(e) => Err(e),
            Ok(commands) => match decode_line(lines.last(), lines.len() - 1) {
                Ok(None) => Ok(commands),
                Ok(Some(c)) => Ok(commands.push(c)),
                Err(kind) => Err(
                    FailureModel { kind, line_number: lines.len() as int, line: lines.last() },
                ),
            },
        }
    }
}

} // verus!

//! The annotation language of comments.
//!
//! A comment is free text in which directives may stand. A directive is a
//! bracket that opens with `%cal` (a list of arrows) or `%csl` (a list of
//! marked squares), a space or a newline, and then items separated by commas:
//! a brush letter `Y`, `G` or `R` and two squares for an arrow, one for a mark.
//! A bracket that breaks this form yields one diagnostic and no shape, and
//! reading goes on behind its closing bracket. Only where the text ends
//! inside a bracket are the items read up to there kept.

use crate::shape::{square_named, Color, Shape, Square};
use vstd::prelude::*;
use vstd::slice::slice_subrange;

verus! {

/// `[`.
pub const OPEN: u8 = 0x5b;

/// `]`.
pub const CLOSE: u8 = 0x5d;

/// `%`.
pub const PERCENT: u8 = 0x25;

/// `,`.
pub const COMMA: u8 = 0x2c;

/// A space.
pub const SPACE: u8 = 0x20;

/// A line feed.
pub const NEWLINE: u8 = 0x0a;

/// `a`.
pub const LOWER_A: u8 = 0x61;

/// `c`.
pub const LOWER_C: u8 = 0x63;

/// `l`.
pub const LOWER_L: u8 = 0x6c;

/// `s`.
pub const LOWER_S: u8 = 0x73;

/// `G`.
pub const UPPER_G: u8 = 0x47;

/// `R`.
pub const UPPER_R: u8 = 0x52;

/// `Y`.
pub const UPPER_Y: u8 = 0x59;

/// What went wrong in a bracket, or with a move.
#[derive(Clone, Copy, Debug, PartialEq, Eq, Structural)]
pub enum Diagnostic {
    /// The bracket opens with neither `%ca` nor `%cs`.
    UnknownDirective,
    /// No `l` and separator follow the directive's kind.
    ExpectedList,
    /// An item does not begin with `Y`, `G` or `R`.
    BadColor,
    /// An item's square is cut short or names no square.
    BadSquare,
    /// An item is followed by this byte, neither a comma nor the closing bracket.
    UnexpectedByte(u8),
    /// The text ends behind an item, before the closing bracket.
    Unterminated,
    /// A move that cannot be played in the position it was given for.
    IllegalMove,
}

/// What a directive lists.
#[derive(Clone, Copy, Debug, PartialEq, Eq, Structural)]
pub enum Kind {
    Arrows,
    Squares,
}

/// The outcome of reading one bracket: the shapes it gave, what broke it if
/// anything did, and the text behind it.
pub ghost struct Span {
    pub rest: Seq<u8>,
    pub shapes: Seq<Shape>,
    pub fault: Option<Diagnostic>,
}

/// The outcome of reading a whole comment.
pub ghost struct Parsed {
    pub shapes: Seq<Shape>,
    pub diagnostics: Seq<Diagnostic>,
}

/// The shapes and diagnostics of a comment, in the order of the text.
#[derive(Debug)]
pub struct Annotations {
    pub shapes: Vec<Shape>,
    pub diagnostics: Vec<Diagnostic>,
}

impl View for Annotations {
    type V = Parsed;

    open spec fn view(&self) -> Parsed {
        Parsed { shapes: self.shapes@, diagnostics: self.diagnostics@ }
    }
}

/// What is left of `bytes` once everything up to and including the first
/// closing bracket has been dropped; nothing is left where there is none.
pub open spec fn after_bracket(bytes: Seq<u8>) -> Seq<u8>
    decreases bytes.len(),
{
    if bytes.len() == 0 {
        bytes
    } else if bytes[0] == CLOSE {
        bytes.skip(1)
    } else {
        after_bracket(bytes.skip(1))
    }
}

/// Whether a closing bracket stands anywhere in `bytes`.
pub open spec fn closes_bracket(bytes: Seq<u8>) -> bool
    decreases bytes.len(),
{
    bytes.len() != 0 && (bytes[0] == CLOSE || closes_bracket(bytes.skip(1)))
}

/// The brush that a letter stands for.
pub open spec fn brush_of(letter: u8) -> Option<Color> {
    if letter == UPPER_Y {
        Some(Color::Yellow)
    } else if letter == UPPER_G {
        Some(Color::Green)
    } else if letter == UPPER_R {
        Some(Color::Red)
    } else {
        None
    }
}

/// The number of bytes of one item.
pub open spec fn item_len(kind: Kind) -> int {
    match kind {
        Kind::Arrows => 5,
        Kind::Squares => 3,
    }
}

/// The item at the start of `bytes`: the shape it denotes, or why it is none.
pub open spec fn item(kind: Kind, bytes: Seq<u8>) -> Result<Shape, Diagnostic> {
    if bytes.len() == 0 {
        Err(Diagnostic::BadColor)
    } else {
        match brush_of(bytes[0]) {
            None => Err(Diagnostic::BadColor),
            Some(brush) => if bytes.len() < 3 {
                Err(Diagnostic::BadSquare)
            } else {
                match square_named(bytes.subrange(1, 3)) {
                    None => Err(Diagnostic::BadSquare),
                    Some(orig) => match kind {
                        Kind::Squares => Ok(Shape { orig, dest: orig, brush }),
                        Kind::Arrows => if bytes.len() < 5 {
                            Err(Diagnostic::BadSquare)
                        } else {
                            match square_named(bytes.subrange(3, 5)) {
                                None => Err(Diagnostic::BadSquare),
                                Some(dest) => Ok(Shape { orig, dest, brush }),
                            }
                        },
                    },
                }
            },
        }
    }
}

/// The items of a list as they are read, from its first item on: the shapes
/// up to the end of the list or to what breaks it.
pub open spec fn items(kind: Kind, bytes: Seq<u8>) -> Span
    decreases bytes.len(),
{
    match item(kind, bytes) {
        Err(fault) => Span { rest: after_bracket(bytes), shapes: seq![], fault: Some(fault) },
        Ok(shape) => {
            let behind = bytes.skip(item_len(kind));
            if behind.len() == 0 {
                Span { rest: behind, shapes: seq![shape], fault: Some(Diagnostic::Unterminated) }
            } else if behind[0] == CLOSE {
                Span { rest: behind.skip(1), shapes: seq![shape], fault: None }
            } else if behind[0] == COMMA {
                let more = items(kind, behind.skip(1));
                Span { rest: more.rest, shapes: seq![shape] + more.shapes, fault: more.fault }
            } else {
                Span {
                    rest: after_bracket(behind),
                    shapes: seq![shape],
                    fault: Some(Diagnostic::UnexpectedByte(behind[0])),
                }
            }
        },
    }
}

/// What a list gives once it has been read. A list that breaks and is
/// closed by a bracket all the same gives no shape; one that breaks because
/// the text ends keeps the shapes read.
pub open spec fn settled(read: Span, closed: bool) -> Span {
    if read.fault is Some && closed {
        Span { shapes: seq![], ..read }
    } else {
        read
    }
}

/// A list, from behind the directive's kind on: `l`, a space or a newline,
/// and the items.
pub open spec fn list(kind: Kind, bytes: Seq<u8>) -> Span {
    if bytes.len() >= 2 && bytes[0] == LOWER_L && (bytes[1] == SPACE || bytes[1] == NEWLINE) {
        settled(items(kind, bytes.skip(2)), closes_bracket(bytes.skip(2)))
    } else {
        Span {
            rest: after_bracket(bytes),
            shapes: seq![],
            fault: Some(Diagnostic::ExpectedList),
        }
    }
}

/// The kind that the text behind an opening bracket announces.
pub open spec fn kind_of(bytes: Seq<u8>) -> Option<Kind> {
    if bytes.len() >= 3 && bytes[0] == PERCENT && bytes[1] == LOWER_C {
        if bytes[2] == LOWER_A {
            Some(Kind::Arrows)
        } else if bytes[2] == LOWER_S {
            Some(Kind::Squares)
        } else {
            None
        }
    } else {
        None
    }
}

/// A bracket, from behind its opening bracket on.
pub open spec fn directive(bytes: Seq<u8>) -> Span {
    match kind_of(bytes) {
        Some(kind) => list(kind, bytes.skip(3)),
        None => Span {
            rest: after_bracket(bytes),
            shapes: seq![],
            fault: Some(Diagnostic::UnknownDirective),
        },
    }
}

/// The diagnostics of one bracket: none, or the one that broke it.
pub open spec fn reported(fault: Option<Diagnostic>) -> Seq<Diagnostic> {
    match fault {
        Some(diagnostic) => seq![diagnostic],
        None => seq![],
    }
}

/// A whole comment: text outside brackets is passed over, and each bracket
/// adds its shapes and its diagnostic.
pub open spec fn scan(bytes: Seq<u8>) -> Parsed
    decreases bytes.len(),
    via scan_decreases
{
    if bytes.len() == 0 {
        Parsed { shapes: seq![], diagnostics: seq![] }
    } else if bytes[0] != OPEN {
        scan(bytes.skip(1))
    } else {
        let bracket = directive(bytes.skip(1));
        let behind = scan(bracket.rest);
        Parsed {
            shapes: bracket.shapes + behind.shapes,
            diagnostics: reported(bracket.fault) + behind.diagnostics,
        }
    }
}

#[via_fn]
proof fn scan_decreases(bytes: Seq<u8>) {
    if bytes.len() != 0 && bytes[0] == OPEN {
        lemma_directive_rest(bytes.skip(1));
    }
}

/// Whether an executable result is the span `span`.
pub open spec fn spans(out: (&[u8], Vec<Shape>, Option<Diagnostic>), span: Span) -> bool {
    out.0@ == span.rest && out.1@ == span.shapes && out.2 == span.fault
}

/// What is left behind a closing bracket is no longer than the text.
pub proof fn lemma_after_bracket_rest(bytes: Seq<u8>)
    ensures
        after_bracket(bytes).len() <= bytes.len(),
    decreases bytes.len(),
{
    if bytes.len() != 0 && bytes[0] != CLOSE {
        lemma_after_bracket_rest(bytes.skip(1));
    }
}

/// What is left behind a list of items is no longer than the text.
pub proof fn lemma_items_rest(kind: Kind, bytes: Seq<u8>)
    ensures
        items(kind, bytes).rest.len() <= bytes.len(),
    decreases bytes.len(),
{
    match item(kind, bytes) {
        Err(_) => {
            lemma_after_bracket_rest(bytes);
        },
        Ok(_) => {
            let behind = bytes.skip(item_len(kind));
            if behind.len() != 0 && behind[0] == COMMA {
                lemma_items_rest(kind, behind.skip(1));
            } else {
                lemma_after_bracket_rest(behind);
            }
        },
    }
}

/// What is left behind a bracket is no longer than the text.
pub proof fn lemma_directive_rest(bytes: Seq<u8>)
    ensures
        directive(bytes).rest.len() <= bytes.len(),
{
    lemma_after_bracket_rest(bytes);
    match kind_of(bytes) {
        Some(kind) => {
            let behind = bytes.skip(3);
            lemma_after_bracket_rest(behind);
            lemma_items_rest(kind, behind.skip(2));
        },
        None => {},
    }
}

/// An item that reads holds no closing bracket.
pub proof fn lemma_item_holds_no_bracket(kind: Kind, bytes: Seq<u8>)
    requires
        item(kind, bytes) is Ok,
    ensures
        bytes.len() >= item_len(kind),
        closes_bracket(bytes) == closes_bracket(bytes.skip(item_len(kind))),
{
    let first = bytes.subrange(1, 3);
    assert(first[0] == bytes[1] && first[1] == bytes[2]);
    assert(bytes.skip(1).skip(1) =~= bytes.skip(2));
    assert(bytes.skip(2).skip(1) =~= bytes.skip(3));
    assert(closes_bracket(bytes) == closes_bracket(bytes.skip(1)));
    assert(closes_bracket(bytes.skip(1)) == closes_bracket(bytes.skip(2)));
    assert(closes_bracket(bytes.skip(2)) == closes_bracket(bytes.skip(3)));
    if kind == Kind::Arrows {
        let second = bytes.subrange(3, 5);
        assert(second[0] == bytes[3] && second[1] == bytes[4]);
        assert(bytes.skip(3).skip(1) =~= bytes.skip(4));
        assert(bytes.skip(4).skip(1) =~= bytes.skip(5));
        assert(closes_bracket(bytes.skip(3)) == closes_bracket(bytes.skip(4)));
        assert(closes_bracket(bytes.skip(4)) == closes_bracket(bytes.skip(5)));
    }
}

/// Drops everything up to and including the first closing bracket, and says
/// whether there was one.
fn skip_bracket(bytes: &[u8]) -> (out: (&[u8], bool))
    ensures
        out.0@ == after_bracket(bytes@),
        out.1 == closes_bracket(bytes@),
{
    let mut rest = bytes;
    loop
        invariant
            after_bracket(rest@) == after_bracket(bytes@),
            closes_bracket(rest@) == closes_bracket(bytes@),
        decreases rest@.len(),
    {
        if rest.len() == 0 {
            return (rest, false);
        }
        let closing = rest[0] == CLOSE;
        rest = slice_subrange(rest, 1, rest.len());
        if closing {
            return (rest, true);
        }
    }
}

/// Drops everything up to and including the first closing bracket.
pub fn skip_until_annotation_end(bytes: &[u8]) -> (rest: &[u8])
    ensures
        rest@ == after_bracket(bytes@),
{
    skip_bracket(bytes).0
}

/// Reads the brush letter at the start of `bytes`.
pub fn color(bytes: &[u8]) -> (out: Option<(&[u8], Color)>)
    ensures
        match out {
            Some((rest, brush)) => bytes@.len() > 0 && brush_of(bytes@[0]) == Some(brush)
                && rest@ == bytes@.skip(1),
            None => bytes@.len() == 0 || brush_of(bytes@[0]) is None,
        },
{
    if bytes.len() == 0 {
        return None;
    }
    let letter = bytes[0];
    let brush = if letter == UPPER_Y {
        Color::Yellow
    } else if letter == UPPER_G {
        Color::Green
    } else if letter == UPPER_R {
        Color::Red
    } else {
        return None;
    };
    Some((slice_subrange(bytes, 1, bytes.len()), brush))
}

/// Reads the square named by the first two bytes of `bytes`.
fn coordinate(bytes: &[u8]) -> (out: Option<(&[u8], Square)>)
    ensures
        match out {
            Some((rest, square)) => bytes@.len() >= 2 && square_named(bytes@.subrange(0, 2))
                == Some(square) && rest@ == bytes@.skip(2),
            None => bytes@.len() < 2 || square_named(bytes@.subrange(0, 2)) is None,
        },
{
    if bytes.len() < 2 {
        return None;
    }
    match Square::parse(slice_subrange(bytes, 0, 2)) {
        Some(square) => Some((slice_subrange(bytes, 2, bytes.len()), square)),
        None => None,
    }
}

/// Reads one arrow: a brush letter, the origin and the destination.
pub fn arrow(bytes: &[u8]) -> (out: Result<(&[u8], Shape), Diagnostic>)
    ensures
        match out {
            Ok((rest, shape)) => item(Kind::Arrows, bytes@) == Ok::<Shape, Diagnostic>(shape)
                && rest@ == bytes@.skip(5),
            Err(fault) => item(Kind::Arrows, bytes@) == Err::<Shape, Diagnostic>(fault),
        },
{
    let (behind_brush, brush) = match color(bytes) {
        Some(read) => read,
        None => return Err(Diagnostic::BadColor),
    };
    let (behind_orig, orig) = match coordinate(behind_brush) {
        Some(read) => read,
        None => {
            proof {
                assert(bytes@.len() >= 3 ==> bytes@.subrange(1, 3) =~= behind_brush@.subrange(0, 2));
            }
            return Err(Diagnostic::BadSquare);
        },
    };
    proof {
        assert(bytes@.subrange(1, 3) =~= behind_brush@.subrange(0, 2));
        assert(behind_orig@ =~= bytes@.skip(3));
    }
    let (rest, dest) = match coordinate(behind_orig) {
        Some(read) => read,
        None => {
            proof {
                assert(bytes@.len() >= 5 ==> bytes@.subrange(3, 5) =~= behind_orig@.subrange(0, 2));
            }
            return Err(Diagnostic::BadSquare);
        },
    };
    proof {
        assert(bytes@.subrange(3, 5) =~= behind_orig@.subrange(0, 2));
        assert(rest@ =~= bytes@.skip(5));
    }
    Ok((rest, Shape { orig, dest, brush }))
}

/// Reads one marked square: a brush letter and the square.
pub fn square(bytes: &[u8]) -> (out: Result<(&[u8], Shape), Diagnostic>)
    ensures
        match out {
            Ok((rest, shape)) => item(Kind::Squares, bytes@) == Ok::<Shape, Diagnostic>(shape)
                && rest@ == bytes@.skip(3),
            Err(fault) => item(Kind::Squares, bytes@) == Err::<Shape, Diagnostic>(fault),
        },
{
    let (behind_brush, brush) = match color(bytes) {
        Some(read) => read,
        None => return Err(Diagnostic::BadColor),
    };
    let (rest, marked) = match coordinate(behind_brush) {
        Some(read) => read,
        None => {
            proof {
                assert(bytes@.len() >= 3 ==> bytes@.subrange(1, 3) =~= behind_brush@.subrange(0, 2));
            }
            return Err(Diagnostic::BadSquare);
        },
    };
    proof {
        assert(bytes@.subrange(1, 3) =~= behind_brush@.subrange(0, 2));
        assert(rest@ =~= bytes@.skip(3));
    }
    Ok((rest, Shape { orig: marked, dest: marked, brush }))
}

/// Reads the items of a list up to its closing bracket or to what breaks
/// it, and says whether the list holds a closing bracket.
fn item_list(kind: Kind, bytes: &[u8]) -> (out: (&[u8], Vec<Shape>, Option<Diagnostic>, bool))
    ensures
        spans((out.0, out.1, out.2), items(kind, bytes@)),
        out.3 == closes_bracket(bytes@),
{
    let mut shapes: Vec<Shape> = Vec::new();
    let mut rest = bytes;
    loop
        invariant
            items(kind, bytes@).shapes == shapes@ + items(kind, rest@).shapes,
            items(kind, bytes@).fault == items(kind, rest@).fault,
            items(kind, bytes@).rest == items(kind, rest@).rest,
            closes_bracket(bytes@) == closes_bracket(rest@),
        decreases rest@.len(),
    {
        let read = match kind {
            Kind::Arrows => arrow(rest),
            Kind::Squares => square(rest),
        };
        let ghost before = shapes@;
        match read {
            Err(fault) => {
                let (behind, closed) = skip_bracket(rest);
                return (behind, shapes, Some(fault), closed);
            },
            Ok((behind, shape)) => {
                shapes.push(shape);
                proof {
                    lemma_item_holds_no_bracket(kind, rest@);
                    assert(before + seq![shape] =~= shapes@);
                }
                if behind.len() == 0 {
                    return (behind, shapes, Some(Diagnostic::Unterminated), false);
                }
                let next = behind[0];
                if next == CLOSE {
                    return (slice_subrange(behind, 1, behind.len()), shapes, None, true);
                } else if next == COMMA {
                    proof {
                        let more = items(kind, behind@.skip(1));
                        assert(before + (seq![shape] + more.shapes) =~= shapes@ + more.shapes);
                    }
                    rest = slice_subrange(behind, 1, behind.len());
                } else {
                    let (dropped, closed) = skip_bracket(behind);
                    return (dropped, shapes, Some(Diagnostic::UnexpectedByte(next)), closed);
                }
            },
        }
    }
}

/// Reads a list from behind the directive's kind on. A list that breaks
/// inside a closed bracket gives no shape.
fn listed(kind: Kind, bytes: &[u8]) -> (out: (&[u8], Vec<Shape>, Option<Diagnostic>))
    ensures
        spans(out, list(kind, bytes@)),
{
    if bytes.len() >= 2 && bytes[0] == LOWER_L && (bytes[1] == SPACE || bytes[1] == NEWLINE) {
        let (rest, shapes, fault, closed) = item_list(kind, slice_subrange(bytes, 2, bytes.len()));
        if fault.is_some() && closed {
            (rest, Vec::new(), fault)
        } else {
            (rest, shapes, fault)
        }
    } else {
        (skip_until_annotation_end(bytes), Vec::new(), Some(Diagnostic::ExpectedList))
    }
}

/// Reads a list of arrows from behind `%ca` on.
pub fn arrows(bytes: &[u8]) -> (out: (&[u8], Vec<Shape>, Option<Diagnostic>))
    ensures
        spans(out, list(Kind::Arrows, bytes@)),
{
    listed(Kind::Arrows, bytes)
}

/// Reads a list of marked squares from behind `%cs` on.
pub fn squares(bytes: &[u8]) -> (out: (&[u8], Vec<Shape>, Option<Diagnostic>))
    ensures
        spans(out, list(Kind::Squares, bytes@)),
{
    listed(Kind::Squares, bytes)
}

/// Reads one bracket from behind its opening bracket on.
pub fn annotations(bytes: &[u8]) -> (out: (&[u8], Vec<Shape>, Option<Diagnostic>))
    ensures
        spans(out, directive(bytes@)),
{
    if bytes.len() >= 3 && bytes[0] == PERCENT && bytes[1] == LOWER_C {
        if bytes[2] == LOWER_A {
            return arrows(slice_subrange(bytes, 3, bytes.len()));
        } else if bytes[2] == LOWER_S {
            return squares(slice_subrange(bytes, 3, bytes.len()));
        }
    }
    (skip_until_annotation_end(bytes), Vec::new(), Some(Diagnostic::UnknownDirective))
}

/// Reads every directive of a comment.
pub fn parse_annotations(bytes: &[u8]) -> (found: Annotations)
    ensures
        found@ == scan(bytes@),
{
    let mut shapes: Vec<Shape> = Vec::new();
    let mut diagnostics: Vec<Diagnostic> = Vec::new();
    let mut rest = bytes;
    loop
        invariant
            scan(bytes@).shapes == shapes@ + scan(rest@).shapes,
            scan(bytes@).diagnostics == diagnostics@ + scan(rest@).diagnostics,
        decreases rest@.len(),
    {
        if rest.len() == 0 {
            return Annotations { shapes, diagnostics };
        }
        if rest[0] != OPEN {
            rest = slice_subrange(rest, 1, rest.len());
        } else {
            let ghost shapes_before = shapes@;
            let ghost diagnostics_before = diagnostics@;
            let ghost bracket = directive(rest@.skip(1));
            let (behind, mut new_shapes, fault) = annotations(
                slice_subrange(rest, 1, rest.len()),
            );
            shapes.append(&mut new_shapes);
            if let Some(diagnostic) = fault {
                diagnostics.push(diagnostic);
            }
            proof {
                lemma_directive_rest(rest@.skip(1));
                let more = scan(bracket.rest);
                assert(shapes_before + (bracket.shapes + more.shapes) =~= shapes@ + more.shapes);
                assert(diagnostics_before + (reported(bracket.fault) + more.diagnostics)
                    =~= diagnostics@ + more.diagnostics);
            }
            rest = behind;
        }
    }
}

} // verus!

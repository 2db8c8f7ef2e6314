//! The annotation language from the writer's side: how a directive is
//! written, and that what is written is what is read.

use crate::parser::{
    after_bracket, closes_bracket, directive, item, item_len, items, kind_of, list, reported, scan, Diagnostic,
    Kind, Parsed, Span, CLOSE, COMMA, LOWER_A, LOWER_C, LOWER_L, LOWER_S, NEWLINE, OPEN, PERCENT,
    SPACE, UPPER_G, UPPER_R, UPPER_Y,
};
use crate::shape::{square_named, Color, Shape, Square};
use vstd::prelude::*;

verus! {

/// The letter that stands for a brush.
pub open spec fn brush_letter(brush: Color) -> u8 {
    match brush {
        Color::Yellow => UPPER_Y,
        Color::Green => UPPER_G,
        Color::Red => UPPER_R,
    }
}

/// The letter that stands for a kind of directive.
pub open spec fn kind_letter(kind: Kind) -> u8 {
    match kind {
        Kind::Arrows => LOWER_A,
        Kind::Squares => LOWER_S,
    }
}

/// Whether a directive of this kind can list the shape: its squares lie on
/// the board, and a list of squares holds marks only.
pub open spec fn fits(kind: Kind, shape: Shape) -> bool {
    shape.valid() && (kind == Kind::Squares ==> shape.is_mark())
}

/// One item as it is written: the brush letter and the squares.
pub open spec fn item_text(kind: Kind, shape: Shape) -> Seq<u8> {
    match kind {
        Kind::Arrows => seq![brush_letter(shape.brush)] + shape.orig.name() + shape.dest.name(),
        Kind::Squares => seq![brush_letter(shape.brush)] + shape.orig.name(),
    }
}

/// The items of a list as they are written: commas between them and the
/// closing bracket behind the last.
pub open spec fn items_text(kind: Kind, shapes: Seq<Shape>) -> Seq<u8>
    decreases shapes.len(),
{
    if shapes.len() == 0 {
        seq![]
    } else if shapes.len() == 1 {
        item_text(kind, shapes[0]) + seq![CLOSE]
    } else {
        item_text(kind, shapes[0]) + seq![COMMA] + items_text(kind, shapes.skip(1))
    }
}

/// A whole directive as it is written.
pub open spec fn directive_text(kind: Kind, separator: u8, shapes: Seq<Shape>) -> Seq<u8> {
    seq![OPEN, PERCENT, LOWER_C, kind_letter(kind), LOWER_L, separator] + items_text(kind, shapes)
}

/// The name of a square on the board reads back as that square.
pub proof fn lemma_name_reads(square: Square)
    requires
        square.valid(),
    ensures
        square_named(square.name()) == Some(square),
{
}

/// An item that is written reads back as its shape, whatever follows it.
pub proof fn lemma_item_reads(kind: Kind, shape: Shape, rest: Seq<u8>)
    requires
        fits(kind, shape),
    ensures
        item(kind, item_text(kind, shape) + rest) == Ok::<Shape, Diagnostic>(shape),
        (item_text(kind, shape) + rest).skip(item_len(kind)) == rest,
{
    let text = item_text(kind, shape) + rest;
    lemma_name_reads(shape.orig);
    lemma_name_reads(shape.dest);
    assert(text.subrange(1, 3) =~= shape.orig.name());
    if kind == Kind::Arrows {
        assert(text.subrange(3, 5) =~= shape.dest.name());
    }
    assert(text.skip(item_len(kind)) =~= rest);
}

/// Behind an item that reads, a closing bracket ends the list.
pub proof fn lemma_items_end(kind: Kind, bytes: Seq<u8>, shape: Shape)
    requires
        item(kind, bytes) == Ok::<Shape, Diagnostic>(shape),
        bytes.len() > item_len(kind),
        bytes[item_len(kind)] == CLOSE,
    ensures
        items(kind, bytes) == (Span {
            rest: bytes.skip(item_len(kind) + 1),
            shapes: seq![shape],
            fault: None,
        }),
{
    let behind = bytes.skip(item_len(kind));
    assert(behind[0] == CLOSE);
    assert(behind.skip(1) =~= bytes.skip(item_len(kind) + 1));
}

/// Behind an item that reads, a comma leads on to the rest of the list.
pub proof fn lemma_items_go_on(kind: Kind, bytes: Seq<u8>, shape: Shape)
    requires
        item(kind, bytes) == Ok::<Shape, Diagnostic>(shape),
        bytes.len() > item_len(kind),
        bytes[item_len(kind)] == COMMA,
    ensures
        items(kind, bytes) == ({
            let more = items(kind, bytes.skip(item_len(kind) + 1));
            Span { rest: more.rest, shapes: seq![shape] + more.shapes, fault: more.fault }
        }),
{
    let behind = bytes.skip(item_len(kind));
    assert(behind[0] == COMMA);
    assert(behind.skip(1) =~= bytes.skip(item_len(kind) + 1));
}

/// How a written list splits into its first item, the byte behind it and
/// what follows.
pub proof fn lemma_items_text_splits(kind: Kind, shapes: Seq<Shape>, rest: Seq<u8>)
    requires
        shapes.len() > 0,
    ensures
        item_text(kind, shapes[0]).len() == item_len(kind),
        shapes.len() == 1 ==> items_text(kind, shapes) + rest == item_text(kind, shapes[0]) + (
        seq![CLOSE] + rest),
        shapes.len() > 1 ==> items_text(kind, shapes) + rest == item_text(kind, shapes[0]) + (
        seq![COMMA] + (items_text(kind, shapes.skip(1)) + rest)),
{
    if shapes.len() == 1 {
        assert(items_text(kind, shapes) + rest =~= item_text(kind, shapes[0]) + (seq![CLOSE]
            + rest));
    } else {
        assert(items_text(kind, shapes) + rest =~= item_text(kind, shapes[0]) + (seq![COMMA] + (
        items_text(kind, shapes.skip(1)) + rest)));
    }
}

/// In a text made of a head, one byte and a tail, the byte stands behind the
/// head and the tail behind the byte.
pub proof fn lemma_byte_behind(head: Seq<u8>, byte: u8, tail: Seq<u8>)
    ensures
        (head + (seq![byte] + tail)).len() > head.len(),
        (head + (seq![byte] + tail))[head.len() as int] == byte,
        (head + (seq![byte] + tail)).skip(head.len() as int + 1) == tail,
{
    assert((head + (seq![byte] + tail)).skip(head.len() as int + 1) =~= tail);
}

/// A list that is written reads back as its shapes, in their order and
/// without a diagnostic, and reading goes on behind its closing bracket.
pub proof fn lemma_items_read(kind: Kind, shapes: Seq<Shape>, rest: Seq<u8>)
    requires
        shapes.len() > 0,
        forall|i: int| 0 <= i < shapes.len() ==> fits(kind, #[trigger] shapes[i]),
    ensures
        items(kind, items_text(kind, shapes) + rest) == (Span { rest, shapes, fault: None }),
    decreases shapes.len(),
{
    let first = shapes[0];
    let text = items_text(kind, shapes) + rest;
    lemma_items_text_splits(kind, shapes, rest);
    if shapes.len() == 1 {
        lemma_item_reads(kind, first, seq![CLOSE] + rest);
        lemma_byte_behind(item_text(kind, first), CLOSE, rest);
        lemma_items_end(kind, text, first);
        assert(seq![first] =~= shapes);
    } else {
        let more = shapes.skip(1);
        let behind = items_text(kind, more) + rest;
        lemma_item_reads(kind, first, seq![COMMA] + behind);
        lemma_byte_behind(item_text(kind, first), COMMA, behind);
        lemma_items_go_on(kind, text, first);
        assert forall|i: int| 0 <= i < more.len() implies fits(kind, #[trigger] more[i]) by {
            assert(more[i] == shapes[i + 1]);
        }
        lemma_items_read(kind, more, rest);
        assert(seq![first] + more =~= shapes);
    }
}

/// A directive that is written, whether `[%cal ...]` or `[%csl ...]`, reads
/// back as exactly its shapes, in their order and without a diagnostic; what
/// follows it is read as if it stood alone.
pub proof fn lemma_directive_reads(kind: Kind, separator: u8, shapes: Seq<Shape>, rest: Seq<u8>)
    requires
        separator == SPACE || separator == NEWLINE,
        shapes.len() > 0,
        forall|i: int| 0 <= i < shapes.len() ==> fits(kind, #[trigger] shapes[i]),
    ensures
        scan(directive_text(kind, separator, shapes) + rest) == (Parsed {
            shapes: shapes + scan(rest).shapes,
            diagnostics: scan(rest).diagnostics,
        }),
{
    let text = directive_text(kind, separator, shapes) + rest;
    let listed = items_text(kind, shapes) + rest;
    assert(text.skip(1).skip(3).skip(2) =~= listed);
    assert(kind_of(text.skip(1)) == Some(kind));
    lemma_items_read(kind, shapes, rest);
    assert(directive(text.skip(1)) == (Span { rest, shapes, fault: None }));
    assert(reported(None) + scan(rest).diagnostics =~= scan(rest).diagnostics);
}

/// A list of arrows that is written reads back as exactly its arrows, as
/// many as were written and in their order; each joins two different squares
/// where the one written did.
pub proof fn lemma_arrows_read(separator: u8, arrows: Seq<Shape>)
    requires
        separator == SPACE || separator == NEWLINE,
        arrows.len() > 0,
        forall|i: int| 0 <= i < arrows.len() ==> (#[trigger] arrows[i]).valid(),
    ensures
        scan(directive_text(Kind::Arrows, separator, arrows)) == (Parsed {
            shapes: arrows,
            diagnostics: seq![],
        }),
        forall|i: int|
            0 <= i < arrows.len() && arrows[i].is_arrow() ==> (#[trigger] scan(
                directive_text(Kind::Arrows, separator, arrows),
            ).shapes[i]).is_arrow(),
{
    let text = directive_text(Kind::Arrows, separator, arrows);
    lemma_directive_reads(Kind::Arrows, separator, arrows, seq![]);
    assert(text + Seq::<u8>::empty() =~= text);
    assert(arrows + Seq::<Shape>::empty() =~= arrows);
}

/// A list of squares that is written reads back as exactly its marks, as
/// many as were written and in their order, each on a single square.
pub proof fn lemma_squares_read(separator: u8, marks: Seq<Shape>)
    requires
        separator == SPACE || separator == NEWLINE,
        marks.len() > 0,
        forall|i: int| 0 <= i < marks.len() ==> (#[trigger] marks[i]).valid() && marks[i].is_mark(),
    ensures
        scan(directive_text(Kind::Squares, separator, marks)) == (Parsed {
            shapes: marks,
            diagnostics: seq![],
        }),
        forall|i: int|
            0 <= i < marks.len() ==> (#[trigger] scan(
                directive_text(Kind::Squares, separator, marks),
            ).shapes[i]).is_mark(),
{
    let text = directive_text(Kind::Squares, separator, marks);
    lemma_directive_reads(Kind::Squares, separator, marks, seq![]);
    assert(text + Seq::<u8>::empty() =~= text);
    assert(marks + Seq::<Shape>::empty() =~= marks);
}

/// A text that ends with its only closing bracket.
pub open spec fn closes(text: Seq<u8>) -> bool {
    &&& text.len() > 0
    &&& text.last() == CLOSE
    &&& forall|i: int| 0 <= i < text.len() - 1 ==> text[i] != CLOSE
}

/// A bracket: it opens with `[` and ends with its only `]`.
pub open spec fn is_bracket(text: Seq<u8>) -> bool {
    text.len() >= 2 && text[0] == OPEN && closes(text)
}

/// Whether a span is the span `alone` of a text that closes, read with
/// `rest` behind it: the same shapes and fault, and `rest` is what is left.
pub open spec fn scoped(span: Span, alone: Span, rest: Seq<u8>) -> bool {
    span.rest == rest && span.shapes == alone.shapes && span.fault == alone.fault
}

/// Dropping bytes from the front of a text that closes, short of its last,
/// leaves a text that closes; and it makes no difference whether something
/// follows.
pub proof fn lemma_closes_skip(closed: Seq<u8>, rest: Seq<u8>, count: int)
    requires
        closes(closed),
        0 <= count < closed.len(),
    ensures
        closes(closed.skip(count)),
        (closed + rest).skip(count) == closed.skip(count) + rest,
{
    assert((closed + rest).skip(count) =~= closed.skip(count) + rest);
}

/// Dropping a whole text from the front of what it is followed by leaves
/// what follows.
pub proof fn lemma_skip_all(closed: Seq<u8>, rest: Seq<u8>)
    ensures
        (closed + rest).skip(closed.len() as int) == rest,
        closed + Seq::<u8>::empty() == closed,
{
    assert((closed + rest).skip(closed.len() as int) =~= rest);
    assert(closed + Seq::<u8>::empty() =~= closed);
}

/// A text that closes holds a closing bracket, alone and with anything
/// behind it.
pub proof fn lemma_closes_holds_bracket(closed: Seq<u8>, rest: Seq<u8>)
    requires
        closes(closed),
    ensures
        closes_bracket(closed),
        closes_bracket(closed + rest),
    decreases closed.len(),
{
    assert((closed + rest)[0] == closed[0]);
    if closed.len() > 1 {
        lemma_closes_skip(closed, rest, 1);
        lemma_closes_holds_bracket(closed.skip(1), rest);
    }
}

/// Dropping up to the closing bracket of a text that closes leaves exactly
/// what follows the text.
pub proof fn lemma_after_bracket_scoped(closed: Seq<u8>, rest: Seq<u8>)
    requires
        closes(closed),
    ensures
        after_bracket(closed + rest) == rest,
    decreases closed.len(),
{
    let text = closed + rest;
    assert(text[0] == closed[0]);
    if closed.len() == 1 {
        lemma_skip_all(closed, rest);
    } else {
        lemma_closes_skip(closed, rest, 1);
        lemma_after_bracket_scoped(closed.skip(1), rest);
    }
}

/// An item of a text that closes reads the same whatever follows the text.
pub proof fn lemma_item_scoped(kind: Kind, closed: Seq<u8>, rest: Seq<u8>)
    requires
        closes(closed),
    ensures
        item(kind, closed + rest) == item(kind, closed),
        item(kind, closed) is Ok ==> closed.len() > item_len(kind),
{
    let text = closed + rest;
    assert(text[0] == closed[0]);
    if closed.len() >= 3 {
        assert(text.subrange(1, 3) =~= closed.subrange(1, 3));
        if closed.len() >= 5 {
            assert(text.subrange(3, 5) =~= closed.subrange(3, 5));
            assert(closed.len() == 5 ==> closed.subrange(3, 5)[1] == CLOSE);
        } else if closed.len() == 4 && text.len() >= 5 {
            assert(text.subrange(3, 5)[0] == CLOSE);
        }
        assert(closed.len() == 3 ==> closed.subrange(1, 3)[1] == CLOSE);
    } else if closed.len() == 2 && text.len() >= 3 {
        assert(text.subrange(1, 3)[0] == CLOSE);
    }
}

/// The items of a text that closes read the same whatever follows the text,
/// and reading goes on exactly behind the text.
pub proof fn lemma_items_scoped(kind: Kind, closed: Seq<u8>, rest: Seq<u8>)
    requires
        closes(closed),
    ensures
        scoped(items(kind, closed + rest), items(kind, closed), rest),
        items(kind, closed).rest.len() == 0,
    decreases closed.len(),
{
    let text = closed + rest;
    let width = item_len(kind);
    lemma_item_scoped(kind, closed, rest);
    lemma_skip_all(closed, rest);
    lemma_after_bracket_scoped(closed, rest);
    lemma_after_bracket_scoped(closed, seq![]);
    match item(kind, closed) {
        Err(_) => {},
        Ok(shape) => {
            lemma_closes_skip(closed, rest, width);
            let behind = closed.skip(width);
            assert((behind + rest)[0] == behind[0]);
            lemma_skip_all(behind, rest);
            if behind[0] == CLOSE {
                assert(behind.len() == 1);
                assert(behind.skip(1) =~= Seq::<u8>::empty());
            } else if behind[0] == COMMA {
                lemma_closes_skip(behind, rest, 1);
                lemma_items_scoped(kind, behind.skip(1), rest);
            } else {
                lemma_after_bracket_scoped(behind, rest);
                lemma_after_bracket_scoped(behind, seq![]);
            }
        },
    }
}

/// A list of a text that closes reads the same whatever follows the text.
pub proof fn lemma_list_scoped(kind: Kind, closed: Seq<u8>, rest: Seq<u8>)
    requires
        closes(closed),
    ensures
        scoped(list(kind, closed + rest), list(kind, closed), rest),
{
    let text = closed + rest;
    lemma_skip_all(closed, rest);
    lemma_after_bracket_scoped(closed, rest);
    lemma_after_bracket_scoped(closed, seq![]);
    assert(text[0] == closed[0]);
    if closed.len() >= 2 {
        assert(text[1] == closed[1]);
        if closed.len() > 2 {
            lemma_closes_skip(closed, rest, 2);
            lemma_items_scoped(kind, closed.skip(2), rest);
            lemma_closes_holds_bracket(closed.skip(2), rest);
        }
    }
}

/// What a bracket holds reads the same whatever follows the bracket.
pub proof fn lemma_directive_scoped(closed: Seq<u8>, rest: Seq<u8>)
    requires
        closes(closed),
    ensures
        scoped(directive(closed + rest), directive(closed), rest),
{
    let text = closed + rest;
    lemma_skip_all(closed, rest);
    lemma_after_bracket_scoped(closed, rest);
    lemma_after_bracket_scoped(closed, seq![]);
    assert(text[0] == closed[0]);
    if closed.len() >= 2 {
        assert(text[1] == closed[1]);
        if closed.len() >= 3 {
            assert(text[2] == closed[2]);
            if closed.len() > 3 {
                lemma_closes_skip(closed, rest, 3);
                match kind_of(closed) {
                    Some(kind) => {
                        lemma_list_scoped(kind, closed.skip(3), rest);
                    },
                    None => {},
                }
            }
        }
    }
}

/// Every bracket is read by itself: what it gives depends on the bracket
/// alone, and what follows it is read as if it stood alone. A bracket that
/// breaks off does not reach into the text behind it.
pub proof fn lemma_brackets_read_apart(bracket: Seq<u8>, rest: Seq<u8>)
    requires
        is_bracket(bracket),
    ensures
        scan(bracket + rest) == (Parsed {
            shapes: directive(bracket.skip(1)).shapes + scan(rest).shapes,
            diagnostics: reported(directive(bracket.skip(1)).fault) + scan(rest).diagnostics,
        }),
{
    lemma_closes_skip(bracket, rest, 1);
    lemma_directive_scoped(bracket.skip(1), rest);
    assert((bracket + rest)[0] == OPEN);
}

/// A list that breaks inside a text that closes gives no shape.
pub proof fn lemma_broken_list_is_empty(kind: Kind, closed: Seq<u8>)
    requires
        closes(closed),
    ensures
        list(kind, closed).fault is Some ==> list(kind, closed).shapes.len() == 0,
{
    if closed.len() > 2 {
        lemma_closes_skip(closed, seq![], 2);
        lemma_closes_holds_bracket(closed.skip(2), seq![]);
    }
}

/// What a bracket that breaks holds gives no shape.
pub proof fn lemma_broken_bracket_is_empty(closed: Seq<u8>)
    requires
        closes(closed),
    ensures
        directive(closed).fault is Some ==> directive(closed).shapes.len() == 0,
{
    match kind_of(closed) {
        Some(kind) => {
            if closed.len() > 3 {
                lemma_closes_skip(closed, seq![], 3);
                lemma_broken_list_is_empty(kind, closed.skip(3));
            }
        },
        None => {},
    }
}

/// A malformed bracket adds one diagnostic and nothing else: with whatever
/// follows it, the shapes of the whole text are those of what follows, so
/// that a well-formed directive behind a malformed one yields its own shapes
/// and only those.
pub proof fn lemma_recovery(bracket: Seq<u8>, rest: Seq<u8>)
    requires
        is_bracket(bracket),
        directive(bracket.skip(1)).fault is Some,
    ensures
        scan(bracket + rest).shapes == scan(rest).shapes,
        scan(bracket + rest).diagnostics == seq![directive(bracket.skip(1)).fault.unwrap()] + scan(
            rest,
        ).diagnostics,
{
    lemma_brackets_read_apart(bracket, rest);
    lemma_closes_skip(bracket, rest, 1);
    lemma_broken_bracket_is_empty(bracket.skip(1));
    assert(directive(bracket.skip(1)).shapes + scan(rest).shapes =~= scan(rest).shapes);
}

/// A malformed bracket followed by a directive that is written yields
/// exactly the shapes of that directive, in their order.
pub proof fn lemma_recovery_before_directive(
    bracket: Seq<u8>,
    kind: Kind,
    separator: u8,
    shapes: Seq<Shape>,
)
    requires
        is_bracket(bracket),
        directive(bracket.skip(1)).fault is Some,
        separator == SPACE || separator == NEWLINE,
        shapes.len() > 0,
        forall|i: int| 0 <= i < shapes.len() ==> fits(kind, #[trigger] shapes[i]),
    ensures
        scan(bracket + directive_text(kind, separator, shapes)).shapes == shapes,
        scan(bracket + directive_text(kind, separator, shapes)).shapes == scan(
            directive_text(kind, separator, shapes),
        ).shapes,
{
    let written = directive_text(kind, separator, shapes);
    lemma_recovery(bracket, written);
    lemma_directive_reads(kind, separator, shapes, seq![]);
    assert(written + Seq::<u8>::empty() =~= written);
    assert(shapes + Seq::<Shape>::empty() =~= shapes);
}

/// Text without an opening bracket is passed over: it gives neither
/// shapes nor diagnostics, and what follows it is read as if it stood alone.
pub proof fn lemma_prose_is_passed_over(prose: Seq<u8>, rest: Seq<u8>)
    requires
        forall|i: int| 0 <= i < prose.len() ==> prose[i] != OPEN,
    ensures
        scan(prose + rest) == scan(rest),
    decreases prose.len(),
{
    if prose.len() == 0 {
        assert(prose + rest =~= rest);
    } else {
        assert((prose + rest)[0] == prose[0]);
        assert((prose + rest).skip(1) =~= prose.skip(1) + rest);
        lemma_prose_is_passed_over(prose.skip(1), rest);
    }
}

/// Whether the head of a directive, `[%cal` or `[%csl`, stands at `index`.
pub open spec fn heads_directive(text: Seq<u8>, index: int) -> bool {
    &&& 0 <= index
    &&& index + 4 < text.len()
    &&& text[index] == OPEN
    &&& text[index + 1] == PERCENT
    &&& text[index + 2] == LOWER_C
    &&& (text[index + 3] == LOWER_A || text[index + 3] == LOWER_S)
    &&& text[index + 4] == LOWER_L
}

/// How many bytes are dropped up to and including the first closing bracket.
pub open spec fn dropped(bytes: Seq<u8>) -> int
    decreases bytes.len(),
{
    if bytes.len() == 0 {
        0
    } else if bytes[0] == CLOSE {
        1
    } else {
        1 + dropped(bytes.skip(1))
    }
}

/// What is left behind a closing bracket is the text without the bytes
/// dropped.
pub proof fn lemma_dropped(bytes: Seq<u8>)
    ensures
        0 <= dropped(bytes) <= bytes.len(),
        after_bracket(bytes) == bytes.skip(dropped(bytes)),
    decreases bytes.len(),
{
    if bytes.len() == 0 {
        assert(bytes.skip(0) =~= bytes);
    } else if bytes[0] != CLOSE {
        lemma_dropped(bytes.skip(1));
        assert(bytes.skip(1).skip(dropped(bytes.skip(1))) =~= bytes.skip(dropped(bytes)));
    }
}

/// From any place on, a text without the head of a directive gives no shape.
proof fn lemma_no_directive_from(text: Seq<u8>, from: int)
    requires
        forall|i: int| !heads_directive(text, i),
        0 <= from <= text.len(),
    ensures
        scan(text.skip(from)).shapes.len() == 0,
    decreases text.len() - from,
{
    let here = text.skip(from);
    if here.len() != 0 {
        if here[0] != OPEN {
            assert(here.skip(1) =~= text.skip(from + 1));
            lemma_no_directive_from(text, from + 1);
        } else {
            let inside = here.skip(1);
            let bracket = directive(inside);
            assert(!heads_directive(text, from));
            assert(inside =~= text.skip(from + 1));
            let skipped = if kind_of(inside) is Some {
                inside.skip(3)
            } else {
                inside
            };
            let offset = if kind_of(inside) is Some {
                from + 4
            } else {
                from + 1
            };
            assert(skipped =~= text.skip(offset));
            if kind_of(inside) is Some && skipped.len() >= 2 {
                assert(skipped[0] == text[from + 4]);
            }
            assert(bracket.shapes.len() == 0);
            assert(bracket.rest == after_bracket(skipped));
            lemma_dropped(skipped);
            assert(skipped.skip(dropped(skipped)) =~= text.skip(offset + dropped(skipped)));
            lemma_no_directive_from(text, offset + dropped(skipped));
        }
    }
}

/// A comment without a directive gives no shape, whatever else it holds.
pub proof fn lemma_no_directive_no_shapes(text: Seq<u8>)
    requires
        forall|i: int| !heads_directive(text, i),
    ensures
        scan(text).shapes == Seq::<Shape>::empty(),
{
    lemma_no_directive_from(text, 0);
    assert(text.skip(0) =~= text);
    assert(scan(text).shapes =~= Seq::<Shape>::empty());
}

} // verus!

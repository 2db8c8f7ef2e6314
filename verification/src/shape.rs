//! Squares, brush colours and the shapes that annotate a board.

use vstd::prelude::*;
use vstd::std_specs::cmp::PartialEqSpec;

verus! {

/// The brush a shape is drawn with.
#[derive(Clone, Copy, Debug, PartialEq, Eq, Structural)]
pub enum Color {
    Yellow,
    Green,
    Red,
}

/// A square of the board, counted from a1 (0) along the ranks to h8 (63).
#[derive(Clone, Copy, Debug, PartialEq, Eq, Structural)]
pub struct Square {
    pub index: u8,
}

/// The square that a two-byte name denotes: a file letter `a` to `h`
/// followed by a rank digit `1` to `8`. Any other text names no square.
pub open spec fn square_named(text: Seq<u8>) -> Option<Square> {
    if text.len() == 2 && 0x61 <= text[0] <= 0x68 && 0x31 <= text[1] <= 0x38 {
        Some(Square { index: ((text[0] - 0x61) + 8 * (text[1] - 0x31)) as u8 })
    } else {
        None
    }
}

/// Calls `shakmaty::Square::from_ascii`, which accepts exactly the names of
/// two lowercase ASCII bytes, file then rank, and numbers the square as file
/// plus eight times rank, both counted from zero.
#[verifier::external_body]
pub(crate) fn square_from_ascii(text: &[u8]) -> (square: Option<Square>)
    ensures
        square == square_named(text@),
{
    match shakmaty::Square::from_ascii(text) {
        Ok(square) => Some(Square { index: u8::from(square) }),
        Err(_) => None,
    }
}

impl Square {
    /// Whether the index lies on the board.
    pub open spec fn valid(self) -> bool {
        self.index < 64
    }

    /// The two bytes that name the square.
    pub open spec fn name(self) -> Seq<u8> {
        seq![(0x61 + self.index % 8) as u8, (0x31 + self.index / 8) as u8]
    }

    /// The square on `file` and `rank`, both counted from zero.
    pub fn new(file: u8, rank: u8) -> (square: Option<Square>)
        ensures
            square == if file < 8 && rank < 8 {
                Some(Square { index: (file + 8 * rank) as u8 })
            } else {
                None::<Square>
            },
    {
        if file < 8 && rank < 8 {
            Some(Square { index: file + 8 * rank })
        } else {
            None
        }
    }

    /// Reads a square from its name.
    pub fn parse(text: &[u8]) -> (square: Option<Square>)
        ensures
            square == square_named(text@),
            square matches Some(sq) ==> sq.valid() && sq.name() == text@,
    {
        let square = square_from_ascii(text);
        proof {
            if let Some(sq) = square {
                assert(sq.name() =~= text@);
            }
        }
        square
    }

    /// The file, counted from zero.
    pub fn file(&self) -> (file: u8)
        ensures
            file == self.index % 8,
    {
        self.index % 8
    }

    /// The rank, counted from zero.
    pub fn rank(&self) -> (rank: u8)
        ensures
            rank == self.index / 8,
    {
        self.index / 8
    }
}

/// One annotation: an arrow from `orig` to `dest`, or, where the two are the
/// same square, a mark on that square.
#[derive(Clone, Copy, Debug, Eq)]
pub struct Shape {
    pub orig: Square,
    pub dest: Square,
    pub brush: Color,
}

/// A shape as a board widget reports it once the user has drawn it.
#[derive(Clone, Copy, Debug, Eq)]
pub struct DrawnShape {
    pub orig: Square,
    pub dest: Square,
    pub brush: Color,
}

impl Shape {
    /// Both squares lie on the board.
    pub open spec fn valid(self) -> bool {
        self.orig.valid() && self.dest.valid()
    }

    /// An arrow joins two different squares.
    pub open spec fn is_arrow(self) -> bool {
        self.orig != self.dest
    }

    /// A mark highlights a single square.
    pub open spec fn is_mark(self) -> bool {
        self.orig == self.dest
    }

    /// Whether a drawn shape has this shape's squares and brush.
    pub open spec fn agrees(self, drawn: DrawnShape) -> bool {
        self.orig == drawn.orig && self.dest == drawn.dest && self.brush == drawn.brush
    }

    /// The mark on `square`.
    pub fn mark(brush: Color, square: Square) -> (shape: Shape)
        ensures
            shape == (Shape { orig: square, dest: square, brush }),
    {
        Shape { orig: square, dest: square, brush }
    }

    /// The arrow from `orig` to `dest`.
    pub fn arrow(brush: Color, orig: Square, dest: Square) -> (shape: Shape)
        ensures
            shape == (Shape { orig, dest, brush }),
    {
        Shape { orig, dest, brush }
    }
}

impl PartialEq for Shape {
    fn eq(&self, other: &Shape) -> (equal: bool) {
        self.orig == other.orig && self.dest == other.dest && self.brush == other.brush
    }
}

impl vstd::std_specs::cmp::PartialEqSpecImpl for Shape {
    open spec fn obeys_eq_spec() -> bool {
        true
    }

    open spec fn eq_spec(&self, other: &Shape) -> bool {
        self.orig == other.orig && self.dest == other.dest && self.brush == other.brush
    }
}

impl PartialEq<DrawnShape> for Shape {
    fn eq(&self, drawn: &DrawnShape) -> (equal: bool) {
        self.orig == drawn.orig && self.dest == drawn.dest && self.brush == drawn.brush
    }
}

impl vstd::std_specs::cmp::PartialEqSpecImpl<DrawnShape> for Shape {
    open spec fn obeys_eq_spec() -> bool {
        true
    }

    open spec fn eq_spec(&self, drawn: &DrawnShape) -> bool {
        self.agrees(*drawn)
    }
}

impl PartialEq for DrawnShape {
    fn eq(&self, other: &DrawnShape) -> (equal: bool) {
        self.orig == other.orig && self.dest == other.dest && self.brush == other.brush
    }
}

impl vstd::std_specs::cmp::PartialEqSpecImpl for DrawnShape {
    open spec fn obeys_eq_spec() -> bool {
        true
    }

    open spec fn eq_spec(&self, other: &DrawnShape) -> bool {
        self.orig == other.orig && self.dest == other.dest && self.brush == other.brush
    }
}

impl PartialEq<Shape> for DrawnShape {
    fn eq(&self, shape: &Shape) -> (equal: bool) {
        self.orig == shape.orig && self.dest == shape.dest && self.brush == shape.brush
    }
}

impl vstd::std_specs::cmp::PartialEqSpecImpl<Shape> for DrawnShape {
    open spec fn obeys_eq_spec() -> bool {
        true
    }

    open spec fn eq_spec(&self, shape: &Shape) -> bool {
        shape.agrees(*self)
    }
}

/// A shape equals a drawn shape exactly when origin, destination and brush
/// all agree, whichever of the two stands on the left.
pub proof fn lemma_shape_equality(shape: Shape, drawn: DrawnShape)
    ensures
        shape.eq_spec(&drawn) == drawn.eq_spec(&shape),
        shape.eq_spec(&drawn) <==> shape.orig == drawn.orig && shape.dest == drawn.dest
            && shape.brush == drawn.brush,
        shape.brush != drawn.brush ==> !shape.eq_spec(&drawn),
{
}

} // verus!

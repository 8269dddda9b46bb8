//! Lines of terminal output as styled pieces of text: what is printed is
//! decided here, how a style is coloured where the line is printed.

use vstd::prelude::*;

verus! {

/// How a piece of text stands out.
#[derive(Clone, Copy, Debug, PartialEq, Eq, Structural)]
pub enum Style {
    Plain,
    Bold,
    Dimmed,
    White,
    Red,
    RedBold,
    Yellow,
    YellowBold,
    GreenBold,
    Blue,
    BlueBold,
    BrightCyanBold,
    CyanDimmed,
}

/// A piece of a line in one style.
#[derive(Debug)]
pub struct Span {
    pub text: String,
    pub style: Style,
}

/// One line of output.
#[derive(Debug)]
pub struct Line {
    pub spans: Vec<Span>,
}

impl View for Span {
    type V = (Seq<char>, Style);

    open spec fn view(&self) -> (Seq<char>, Style) {
        (self.text@, self.style)
    }
}

impl View for Line {
    type V = Seq<(Seq<char>, Style)>;

    open spec fn view(&self) -> Seq<(Seq<char>, Style)> {
        self.spans@.map_values(|span: Span| span@)
    }
}

/// What a line reads without its styles.
pub open spec fn plain_text(line: Seq<(Seq<char>, Style)>) -> Seq<char>
    decreases line.len(),
{
    if line.len() == 0 {
        Seq::empty()
    } else {
        plain_text(line.drop_last()) + line.last().0
    }
}

/// What each line of a list shows.
pub open spec fn lines(list: Seq<Line>) -> Seq<Seq<(Seq<char>, Style)>> {
    list.map_values(|line: Line| line@)
}

impl Line {
    /// An empty line.
    pub fn new() -> (r: Self)
        ensures
            r@ == Seq::<(Seq<char>, Style)>::empty(),
    {
        let r = Line { spans: Vec::new() };
        assert(r@ =~= Seq::empty());
        r
    }

    /// Appends a piece of text.
    pub fn push(&mut self, text: &str, style: Style)
        ensures
            final(self)@ == old(self)@.push((text@, style)),
    {
        let span = Span { text: text.to_owned(), style };
        self.spans.push(span);
        assert(self@ =~= old(self)@.push((text@, style)));
    }

    /// What the line reads without its styles.
    pub fn plain(&self) -> (r: String)
        ensures
            r@ == plain_text(self@),
    {
        let mut r = String::new();
        let mut i: usize = 0;
        while i < self.spans.len()
            invariant
                i <= self.spans.len(),
                r@ == plain_text(self@.take(i as int)),
            decreases self.spans.len() - i,
        {
            r.append(&self.spans[i].text);
            assert(self@.take(i + 1).drop_last() =~= self@.take(i as int));
            i += 1;
        }
        assert(self@.take(self@.len() as int) =~= self@);
        r
    }
}

/// A line reads as its pieces one after the other, whatever their styles.
pub proof fn lines_read_piece_by_piece(
    a: Seq<(Seq<char>, Style)>,
    b: Seq<(Seq<char>, Style)>,
    piece: Seq<char>,
    style: Style,
)
    ensures
        plain_text(a + b) == plain_text(a) + plain_text(b),
        plain_text(seq![(piece, style)]) == piece,
    decreases b.len(),
{
    let none: Seq<(Seq<char>, Style)> = Seq::empty();
    assert(seq![(piece, style)].drop_last() =~= none);
    assert(plain_text(none) =~= Seq::empty());
    assert(plain_text(seq![(piece, style)]) =~= piece);
    if b.len() == 0 {
        assert(a + b =~= a);
        assert(plain_text(a + b) =~= plain_text(a) + plain_text(b));
    } else {
        lines_read_piece_by_piece(a, b.drop_last(), piece, style);
        assert((a + b).drop_last() =~= a + b.drop_last());
        assert(plain_text(a + b) =~= plain_text(a) + plain_text(b));
    }
}

} // verus!

//! Messages for the user, as pieces of text with the emphasis that each is
//! shown with. What is shown is decided here; how the emphasis looks on a
//! terminal is left to whoever prints the pieces.
use vstd::prelude::*;

verus! {

/// How a piece of a message is set off from the text around it.
#[derive(Clone, Copy, Debug, PartialEq, Eq, Structural)]
pub enum Emphasis {
    Plain,
    Blue,
    Cyan,
    CyanBold,
    CyanUnderlined,
    GreenBold,
    Magenta,
    RedBold,
    YellowBold,
}

/// A piece of a message.
#[derive(Clone, Debug, PartialEq, Eq)]
pub struct Piece {
    pub text: String,
    pub emphasis: Emphasis,
}

/// The mathematical value of a [`Piece`].
pub struct PieceView {
    pub text: Seq<char>,
    pub emphasis: Emphasis,
}

impl View for Piece {
    type V = PieceView;

    open spec fn view(&self) -> PieceView {
        PieceView { text: self.text@, emphasis: self.emphasis }
    }
}

/// The values of the pieces of a message.
pub open spec fn piece_views(pieces: Seq<Piece>) -> Seq<PieceView> {
    Seq::new(pieces.len(), |i: int| pieces[i]@)
}

/// The values of the lines of a report.
pub open spec fn line_views(lines: Seq<Vec<Piece>>) -> Seq<Seq<PieceView>> {
    Seq::new(lines.len(), |i: int| piece_views(lines[i]@))
}

/// A piece of plain text.
pub open spec fn plain(text: Seq<char>) -> PieceView {
    PieceView { text, emphasis: Emphasis::Plain }
}

/// A piece of text with an emphasis.
pub open spec fn marked(text: Seq<char>, emphasis: Emphasis) -> PieceView {
    PieceView { text, emphasis }
}

/// The text of a message without any emphasis.
pub open spec fn flat(pieces: Seq<PieceView>) -> Seq<char>
    decreases pieces.len(),
{
    if pieces.len() == 0 {
        Seq::empty()
    } else {
        flat(pieces.drop_last()) + pieces.last().text
    }
}

/// Appends the piece `text` with `emphasis` to `message`.
pub fn put(message: &mut Vec<Piece>, text: &str, emphasis: Emphasis)
    ensures
        piece_views(final(message)@) == piece_views(old(message)@).push(marked(text@, emphasis)),
{
    message.push(Piece { text: text.to_owned(), emphasis });
    assert(piece_views(message@) =~= piece_views(old(message)@).push(marked(text@, emphasis)));
}

/// The text of `message` without any emphasis.
pub fn flatten(message: &Vec<Piece>) -> (text: String)
    ensures
        text@ == flat(piece_views(message@)),
{
    let ghost all = piece_views(message@);
    let mut text = String::new();
    let mut i: usize = 0;
    proof {
        assert(all.take(0) == Seq::<PieceView>::empty());
    }
    while i < message.len()
        invariant
            all == piece_views(message@),
            i <= message@.len(),
            text@ == flat(all.take(i as int)),
        decreases message@.len() - i,
    {
        proof {
            assert(all.take(i + 1).drop_last() == all.take(i as int));
            assert(all.take(i + 1).last() == message@[i as int]@);
        }
        text.append(message[i].text.as_str());
        i = i + 1;
    }
    proof {
        assert(all.take(i as int) == all);
    }
    text
}

} // verus!

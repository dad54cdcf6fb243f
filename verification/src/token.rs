//! The token model: one `Token` per parse event of the Markdown grammar
//! parser. The rewrite pipeline only inspects the variants below; any other
//! parse event is carried through opaquely as `Other`, holding a handle the
//! caller can resolve back to the event it stands for.

use vstd::prelude::*;

verus! {

/// A structural marker opened by `Token::Start` and closed by `Token::End`.
#[derive(Debug, PartialEq, Eq)]
pub enum Tag {
    Paragraph,
    /// A heading: its level, `1` (shallowest) through `6`, and a handle the
    /// caller can resolve to the heading's remaining metadata (an explicit
    /// id, classes, attributes), with `0` standing for none. The rewrite
    /// logic reads only the level; the handle is carried through unchanged.
    Heading(u8, u64),
    Emphasis,
    Strong,
    BlockQuote,
    /// Any other structural marker, carried through unchanged; the handle
    /// identifies the original parse event for the caller.
    Other(u64),
}

/// One parse event of the document, as the rewrite pipeline sees it.
#[derive(Debug, PartialEq, Eq)]
pub enum Token {
    Start(Tag),
    End(Tag),
    /// A literal text run.
    Text(String),
    /// Raw markup emitted verbatim by the renderer.
    Html(String),
    SoftBreak,
    HardBreak,
    /// A thematic break.
    Rule,
    /// Any other parse event, carried through unchanged; the handle
    /// identifies the original event for the caller.
    Other(u64),
}

/// The mathematical value of a `Token`: the same shape, with text as a
/// sequence of characters. Contracts speak of token sequences through it.
pub enum TokenView {
    Start(Tag),
    End(Tag),
    Text(Seq<char>),
    Html(Seq<char>),
    SoftBreak,
    HardBreak,
    Rule,
    Other(u64),
}

impl View for Token {
    type V = TokenView;

    open spec fn view(&self) -> TokenView {
        match self {
            Token::Start(tag) => TokenView::Start(*tag),
            Token::End(tag) => TokenView::End(*tag),
            Token::Text(text) => TokenView::Text(text@),
            Token::Html(text) => TokenView::Html(text@),
            Token::SoftBreak => TokenView::SoftBreak,
            Token::HardBreak => TokenView::HardBreak,
            Token::Rule => TokenView::Rule,
            Token::Other(handle) => TokenView::Other(*handle),
        }
    }
}

/// The views of the tokens of an indexed sequence, positions dropped.
pub open spec fn views(w: Seq<(usize, Token)>) -> Seq<TokenView> {
    w.map_values(|p: (usize, Token)| p.1@)
}

/// The views of the tokens of an indexed sequence, positions kept.
pub open spec fn view_pairs(w: Seq<(usize, Token)>) -> Seq<(usize, TokenView)> {
    w.map_values(|p: (usize, Token)| (p.0, p.1@))
}

/// The token views of an indexed view sequence, positions dropped.
pub open spec fn strip(w: Seq<(usize, TokenView)>) -> Seq<TokenView> {
    w.map_values(|p: (usize, TokenView)| p.1)
}

/// The views paired with their own indices as positions.
pub open spec fn with_positions(t: Seq<TokenView>) -> Seq<(usize, TokenView)> {
    Seq::new(t.len(), |k: int| (k as usize, t[k]))
}

impl Clone for Tag {
    fn clone(&self) -> (res: Self)
        ensures
            res == *self,
    {
        match self {
            Tag::Paragraph => Tag::Paragraph,
            Tag::Heading(level, extras) => Tag::Heading(*level, *extras),
            Tag::Emphasis => Tag::Emphasis,
            Tag::Strong => Tag::Strong,
            Tag::BlockQuote => Tag::BlockQuote,
            Tag::Other(handle) => Tag::Other(*handle),
        }
    }
}

impl Clone for Token {
    fn clone(&self) -> (res: Self)
        ensures
            res == *self,
    {
        match self {
            Token::Start(tag) => Token::Start(tag.clone()),
            Token::End(tag) => Token::End(tag.clone()),
            Token::Text(text) => Token::Text(text.clone()),
            Token::Html(text) => Token::Html(text.clone()),
            Token::SoftBreak => Token::SoftBreak,
            Token::HardBreak => Token::HardBreak,
            Token::Rule => Token::Rule,
            Token::Other(handle) => Token::Other(*handle),
        }
    }
}

} // verus!

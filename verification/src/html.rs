//! HTML tokens, and the tokenizer that turns a page into them.
//!
//! The tokenizer itself is `html5ever`'s. This module holds the plain token
//! types that the rest of the library reads, their mathematical views, and the
//! one call into the tokenizer.

use html5ever::tokenizer::BufferQueue;
use html5ever::tokenizer::CharacterTokens;
use html5ever::tokenizer::CommentToken;
use html5ever::tokenizer::DoctypeToken;
use html5ever::tokenizer::EOFToken;
use html5ever::tokenizer::EndTag;
use html5ever::tokenizer::NullCharacterToken;
use html5ever::tokenizer::ParseError;
use html5ever::tokenizer::StartTag;
use html5ever::tokenizer::TagToken;
use html5ever::tokenizer::TokenSink;
use html5ever::tokenizer::TokenSinkResult;
use html5ever::tokenizer::Tokenizer;
use html5ever::tokenizer::TokenizerOpts;
use vstd::prelude::*;

verus! {

/// The longest page, in bytes, that is handed to the tokenizer.
///
/// The tokenizer keeps text in buffers whose length is a 32-bit number and
/// may write three bytes where it read one, so a page of at most a quarter of
/// that range stays inside them.
pub const MAX_PAGE_BYTES: usize = 0x3fff_ffff;

/// Whether a page is short enough for the tokenizer.
pub open spec fn page_fits(html: Seq<char>) -> bool {
    vstd::utf8::encode_utf8(html).len() as usize <= MAX_PAGE_BYTES
}

/// Tells whether a page is short enough for the tokenizer.
pub fn is_readable(html: &str) -> (fits: bool)
    ensures
        fits == page_fits(html@),
{
    html.len() <= MAX_PAGE_BYTES
}

/// Whether a tag opens or closes an element.
#[derive(Clone, Copy, Debug, PartialEq, Eq, Structural)]
pub enum TagKind {
    StartTag,
    EndTag,
}

/// One attribute of a tag: its local name and its decoded value.
#[derive(Debug)]
pub struct Attribute {
    pub name: String,
    pub value: String,
}

/// A tag as the tokenizer reports it.
#[derive(Debug)]
pub struct HtmlTag {
    pub kind: TagKind,
    pub name: String,
    pub self_closing: bool,
    pub attrs: Vec<Attribute>,
}

/// A token of an HTML document. Only a tag carries data: nothing else is read
/// when links are looked for.
#[derive(Debug)]
pub enum HtmlToken {
    DoctypeToken,
    TagToken(HtmlTag),
    CommentToken,
    CharacterTokens,
    NullCharacterToken,
    EOFToken,
    ParseError,
}

/// The mathematical value of an [`Attribute`].
pub struct AttributeView {
    pub name: Seq<char>,
    pub value: Seq<char>,
}

/// The mathematical value of an [`HtmlTag`].
pub struct TagView {
    pub kind: TagKind,
    pub name: Seq<char>,
    pub self_closing: bool,
    pub attrs: Seq<AttributeView>,
}

/// The mathematical value of an [`HtmlToken`].
pub enum TokenView {
    Doctype,
    Tag(TagView),
    Comment,
    Characters,
    NullCharacter,
    EndOfFile,
    ParseError,
}

impl View for Attribute {
    type V = AttributeView;

    open spec fn view(&self) -> AttributeView {
        AttributeView { name: self.name@, value: self.value@ }
    }
}

impl View for HtmlTag {
    type V = TagView;

    open spec fn view(&self) -> TagView {
        TagView {
            kind: self.kind,
            name: self.name@,
            self_closing: self.self_closing,
            attrs: attributes_view(self.attrs@),
        }
    }
}

impl View for HtmlToken {
    type V = TokenView;

    open spec fn view(&self) -> TokenView {
        match self {
            HtmlToken::DoctypeToken => TokenView::Doctype,
            HtmlToken::TagToken(tag) => TokenView::Tag(tag@),
            HtmlToken::CommentToken => TokenView::Comment,
            HtmlToken::CharacterTokens => TokenView::Characters,
            HtmlToken::NullCharacterToken => TokenView::NullCharacter,
            HtmlToken::EOFToken => TokenView::EndOfFile,
            HtmlToken::ParseError => TokenView::ParseError,
        }
    }
}

/// The views of a run of attributes, in order.
pub open spec fn attributes_view(attrs: Seq<Attribute>) -> Seq<AttributeView> {
    attrs.map_values(|a: Attribute| a@)
}

/// The views of a run of tokens, in order.
pub open spec fn tokens_view(tokens: Seq<HtmlToken>) -> Seq<TokenView> {
    tokens.map_values(|t: HtmlToken| t@)
}

/// The tokens that `html5ever`'s tokenizer emits while it is fed a page in
/// one piece, in document order, when every token is answered with
/// "continue". A tag is emitted when its closing `>` is read, so a tag that
/// the page leaves open at its end is not among them.
pub uninterp spec fn html_tokens(html: Seq<char>) -> Seq<TokenView>;

#[verifier::external_type_specification]
#[verifier::external_body]
pub struct ExToken(html5ever::tokenizer::Token);

#[verifier::external_type_specification]
#[verifier::external_body]
#[verifier::reject_recursive_types(Handle)]
pub struct ExTokenSinkResult<Handle>(html5ever::tokenizer::TokenSinkResult<Handle>);

/// The sink that the tokenizer writes to: it keeps every token, as an
/// [`HtmlToken`].
struct TokenCollector {
    tokens: Vec<HtmlToken>,
}

impl TokenSink for TokenCollector {
    type Handle = ();

    /// Called by the tokenizer for each token. Stores the token, a tag with
    /// its kind, name, flag and attributes, and always answers "continue".
    #[verifier::external_body]
    fn process_token(&mut self, token: html5ever::tokenizer::Token, _line: u64) -> TokenSinkResult<()> {
        let kept = match token {
            DoctypeToken(_) => HtmlToken::DoctypeToken,
            TagToken(tag) => HtmlToken::TagToken(HtmlTag {
                kind: match tag.kind { StartTag => TagKind::StartTag, EndTag => TagKind::EndTag },
                name: tag.name.to_string(), self_closing: tag.self_closing,
                attrs: tag.attrs.iter().map(|a| Attribute { name: a.name.local.to_string(), value: a.value.to_string() }).collect(),
            }),
            CommentToken(_) => HtmlToken::CommentToken,
            CharacterTokens(_) => HtmlToken::CharacterTokens,
            NullCharacterToken => HtmlToken::NullCharacterToken,
            EOFToken => HtmlToken::EOFToken,
            ParseError(_) => HtmlToken::ParseError,
        };
        self.tokens.push(kept);
        TokenSinkResult::Continue
    }
}

/// Runs `html5ever`'s `Tokenizer::feed` over the whole page with default
/// options and returns what it emitted. The contract only names that result:
/// it is [`html_tokens`] of the page's text.
#[verifier::external_body]
pub(crate) fn tokenize(html: &str) -> (tokens: Vec<HtmlToken>)
    requires
        page_fits(html@),
    ensures
        tokens_view(tokens@) == html_tokens(html@),
{
    let sink = TokenCollector { tokens: Vec::new() };
    let mut tokenizer = Tokenizer::new(sink, TokenizerOpts::default());
    let mut input = BufferQueue::new();
    input.push_back(html.into());
    let _ = tokenizer.feed(&mut input);
    tokenizer.sink.tokens
}

} // verus!

//! The link extractor: the `href` values of the `<a>` start tags of a page,
//! in document order, duplicates kept.

use crate::html::tokenize;
use crate::html::tokens_view;
use crate::html::html_tokens;
use crate::html::Attribute;
use crate::html::AttributeView;
use crate::html::HtmlTag;
use crate::html::HtmlToken;
use crate::html::TagKind;
use crate::html::TagView;
use crate::html::TokenView;
use crate::html::page_fits;
use vstd::prelude::*;

verus! {

/// The tag name that marks a hyperlink. The tokenizer lowers the case of tag
/// and attribute names, so matching against it ignores case in the page.
pub open spec fn anchor_name() -> Seq<char> {
    seq!['a']
}

/// The attribute name that holds a hyperlink's target.
pub open spec fn href_name() -> Seq<char> {
    seq!['h', 'r', 'e', 'f']
}

/// Whether a tag is the start tag of an `<a>` element.
pub open spec fn is_anchor_start(tag: TagView) -> bool {
    tag.kind == TagKind::StartTag && tag.name == anchor_name()
}

/// Whether an attribute is named `href`.
pub open spec fn is_href(attr: AttributeView) -> bool {
    attr.name == href_name()
}

/// The values of the `href` attributes among `attrs`, in order.
pub open spec fn href_values(attrs: Seq<AttributeView>) -> Seq<Seq<char>> {
    attrs.filter(|a: AttributeView| is_href(a)).map_values(|a: AttributeView| a.value)
}

/// The raw links that one tag contributes.
pub open spec fn tag_links(tag: TagView) -> Seq<Seq<char>> {
    if is_anchor_start(tag) {
        href_values(tag.attrs)
    } else {
        Seq::empty()
    }
}

/// The raw links that one token contributes: those of its tag, if it is one.
pub open spec fn token_links(token: TokenView) -> Seq<Seq<char>> {
    match token {
        TokenView::Tag(tag) => tag_links(tag),
        _ => Seq::empty(),
    }
}

/// The raw links of a run of tokens: each token's links, one after another.
pub open spec fn links_of(tokens: Seq<TokenView>) -> Seq<Seq<char>> {
    tokens.map_values(|t: TokenView| token_links(t)).flatten()
}

/// Whether some token is the start tag of an `<a>` element.
pub open spec fn has_anchor(tokens: Seq<TokenView>) -> bool {
    exists|i: int|
        0 <= i < tokens.len() && (#[trigger] tokens[i] matches TokenView::Tag(tag)
            && is_anchor_start(tag))
}

/// The texts of a run of strings, in order.
pub open spec fn strings_view(strings: Seq<String>) -> Seq<Seq<char>> {
    strings.map_values(|s: String| s@)
}

/// The `href` values of a run of attributes grow by at most the last one.
pub proof fn lemma_href_values_push(attrs: Seq<AttributeView>, attr: AttributeView)
    ensures
        href_values(attrs.push(attr)) == if is_href(attr) {
            href_values(attrs).push(attr.value)
        } else {
            href_values(attrs)
        },
{
    let pred = |a: AttributeView| is_href(a);
    attrs.lemma_filter_push(attr, pred);
    if is_href(attr) {
        assert(attrs.filter(pred).push(attr).map_values(|a: AttributeView| a.value)
            =~= attrs.filter(pred).map_values(|a: AttributeView| a.value).push(attr.value));
    }
}

/// The links of a run of tokens grow by exactly the links of the last one.
pub proof fn lemma_links_of_push(tokens: Seq<TokenView>, token: TokenView)
    ensures
        links_of(tokens.push(token)) == links_of(tokens) + token_links(token),
{
    let each = |t: TokenView| token_links(t);
    assert(tokens.push(token).map_values(each) =~= tokens.map_values(each).push(
        token_links(token),
    ));
    tokens.map_values(each).lemma_flatten_push(token_links(token));
}

/// A page without any `<a>` start tag has no links.
pub proof fn lemma_no_anchor_no_links(tokens: Seq<TokenView>)
    requires
        !has_anchor(tokens),
    ensures
        links_of(tokens) == Seq::<Seq<char>>::empty(),
    decreases tokens.len(),
{
    if tokens.len() > 0 {
        let front = tokens.drop_last();
        let last = tokens.last();
        assert(tokens =~= front.push(last));
        assert(!has_anchor(front)) by {
            if has_anchor(front) {
                let i = choose|i: int|
                    0 <= i < front.len() && (#[trigger] front[i] matches TokenView::Tag(tag)
                        && is_anchor_start(tag));
                assert(tokens[i] == front[i]);
            }
        }
        lemma_no_anchor_no_links(front);
        lemma_links_of_push(front, last);
        assert(tokens[tokens.len() - 1] == last);
        assert(token_links(last) =~= Seq::<Seq<char>>::empty());
    } else {
        assert(tokens.map_values(|t: TokenView| token_links(t)) =~= Seq::<
            Seq<Seq<char>>,
        >::empty());
    }
}

/// The links found so far while a page's tokens go by.
#[derive(Debug)]
pub struct LinkQueue {
    pub links: Vec<String>,
}

impl View for LinkQueue {
    type V = Seq<Seq<char>>;

    open spec fn view(&self) -> Seq<Seq<char>> {
        strings_view(self.links@)
    }
}

impl Default for LinkQueue {
    fn default() -> (queue: LinkQueue)
        ensures
            queue@ == Seq::<Seq<char>>::empty(),
    {
        let queue = LinkQueue { links: Vec::new() };
        assert(queue@ =~= Seq::<Seq<char>>::empty());
        queue
    }
}

impl LinkQueue {
    /// Takes one token in: the `href` values of an `<a>` start tag are added
    /// at the end, in the order of the attributes; any other token adds
    /// nothing.
    pub fn process_token(&mut self, token: &HtmlToken)
        ensures
            final(self)@ == old(self)@ + token_links(token@),
    {
        match token {
            HtmlToken::TagToken(tag) => {
                self.process_tag(tag);
            },
            _ => {
                assert(self@ + token_links(token@) =~= self@);
            },
        }
    }

    /// Takes one tag in, as [`LinkQueue::process_token`] does for a tag token.
    pub fn process_tag(&mut self, tag: &HtmlTag)
        ensures
            final(self)@ == old(self)@ + tag_links(tag@),
    {
        let anchor = String::from_str("a");
        let href = String::from_str("href");
        proof {
            reveal_strlit("a");
            reveal_strlit("href");
            assert(anchor@ =~= anchor_name());
            assert(href@ =~= href_name());
        }
        let is_start = match tag.kind {
            TagKind::StartTag => true,
            TagKind::EndTag => false,
        };
        if !is_start || tag.name != anchor {
            assert(self@ + tag_links(tag@) =~= self@);
            return ;
        }
        let ghost attrs = tag@.attrs;
        assert(attrs.take(0) =~= Seq::<AttributeView>::empty());
        assert(href_values(Seq::<AttributeView>::empty()) =~= Seq::<Seq<char>>::empty()) by {
            reveal(Seq::filter);
        }
        assert(self@ + Seq::<Seq<char>>::empty() =~= self@);
        let mut i: usize = 0;
        while i < tag.attrs.len()
            invariant
                i <= tag.attrs.len(),
                attrs == tag@.attrs,
                attrs.len() == tag.attrs.len(),
                href@ == href_name(),
                self@ == old(self)@ + href_values(attrs.take(i as int)),
            decreases tag.attrs.len() - i,
        {
            let attr: &Attribute = &tag.attrs[i];
            proof {
                assert(attrs[i as int] == attr@);
                assert(attrs.take(i + 1) =~= attrs.take(i as int).push(attr@));
                lemma_href_values_push(attrs.take(i as int), attr@);
            }
            if attr.name == href {
                let ghost before = self@;
                self.links.push(attr.value.clone());
                assert(self@ =~= before.push(attr@.value));
                assert(before.push(attr@.value) =~= old(self)@ + href_values(
                    attrs.take(i as int),
                ).push(attr@.value));
            }
            i += 1;
        }
        assert(attrs.take(i as int) =~= attrs);
    }
}

/// The raw links of a run of tokens that is already at hand.
pub fn links_in_tokens(tokens: &Vec<HtmlToken>) -> (links: Vec<String>)
    ensures
        strings_view(links@) == links_of(tokens_view(tokens@)),
        !has_anchor(tokens_view(tokens@)) ==> links@.len() == 0,
{
    let mut queue = LinkQueue::default();
    let ghost all = tokens_view(tokens@);
    assert(all.take(0) =~= Seq::<TokenView>::empty());
    assert(links_of(Seq::<TokenView>::empty()) =~= Seq::<Seq<char>>::empty()) by {
        assert(Seq::<TokenView>::empty().map_values(|t: TokenView| token_links(t)) =~= Seq::<
            Seq<Seq<char>>,
        >::empty());
    }
    let mut i: usize = 0;
    while i < tokens.len()
        invariant
            i <= tokens.len(),
            all == tokens_view(tokens@),
            queue@ == links_of(all.take(i as int)),
        decreases tokens.len() - i,
    {
        let token: &HtmlToken = &tokens[i];
        proof {
            assert(all[i as int] == token@);
            assert(all.take(i + 1) =~= all.take(i as int).push(token@));
            lemma_links_of_push(all.take(i as int), token@);
        }
        queue.process_token(token);
        i += 1;
    }
    proof {
        assert(all.take(i as int) =~= all);
        if !has_anchor(all) {
            lemma_no_anchor_no_links(all);
        }
    }
    queue.links
}

/// The raw links of a page: the `href` values of its `<a>` start tags, in
/// document order. Never fails; a page without such a tag gives no link.
pub fn extract_links(html: &str) -> (links: Vec<String>)
    requires
        page_fits(html@),
    ensures
        strings_view(links@) == links_of(html_tokens(html@)),
        !has_anchor(html_tokens(html@)) ==> links@.len() == 0,
{
    let tokens = tokenize(html);
    links_in_tokens(&tokens)
}

} // verus!

//! Absolute URLs and the resolver that turns a raw link into one.
//!
//! Parsing and joining are the `url` crate's. A [`PageUrl`] holds the text
//! that the parser wrote out, so every value of the type is an absolute URL.

use url::ParseError;
use url::Url;
use vstd::prelude::*;

verus! {

/// Why the parser turned a text down; the variants are those of the parser's
/// own error, with `Other` for any that it may add.
#[derive(Clone, Copy, Debug, PartialEq, Eq, Structural)]
pub enum UrlError {
    EmptyHost,
    IdnaError,
    InvalidPort,
    InvalidIpv4Address,
    InvalidIpv6Address,
    InvalidDomainCharacter,
    RelativeUrlWithoutBase,
    RelativeUrlWithCannotBeABaseBase,
    SetHostOnCannotBeABaseUrl,
    Overflow,
    Other,
}

/// What `Url::parse` makes of a text: the serialization of the URL it parsed,
/// or its error.
pub uninterp spec fn url_parse(input: Seq<char>) -> Result<Seq<char>, UrlError>;

/// What `Url::join` makes of a text against the URL parsed from `base`: the
/// serialization of the joined URL, or the error of either step.
pub uninterp spec fn url_join(base: Seq<char>, input: Seq<char>) -> Result<Seq<char>, UrlError>;

/// The mathematical value of a parser result that holds a `String`.
pub open spec fn text_result(r: Result<String, UrlError>) -> Result<Seq<char>, UrlError> {
    match r {
        Ok(text) => Ok(text@),
        Err(e) => Err(e),
    }
}

/// Calls `Url::parse` and hands back the serialization of the parsed URL, or
/// the error under its own name. The contract only names that result.
#[verifier::external_body]
fn parse_text(input: &str) -> (r: Result<String, UrlError>)
    ensures
        text_result(r) == url_parse(input@),
{
    match Url::parse(input) {
        Ok(url) => Ok(url.into()),
        Err(ParseError::EmptyHost) => Err(UrlError::EmptyHost),
        Err(ParseError::IdnaError) => Err(UrlError::IdnaError),
        Err(ParseError::InvalidPort) => Err(UrlError::InvalidPort),
        Err(ParseError::InvalidIpv4Address) => Err(UrlError::InvalidIpv4Address),
        Err(ParseError::InvalidIpv6Address) => Err(UrlError::InvalidIpv6Address),
        Err(ParseError::InvalidDomainCharacter) => Err(UrlError::InvalidDomainCharacter),
        Err(ParseError::RelativeUrlWithoutBase) => Err(UrlError::RelativeUrlWithoutBase),
        Err(ParseError::RelativeUrlWithCannotBeABaseBase) => Err(UrlError::RelativeUrlWithCannotBeABaseBase),
        Err(ParseError::SetHostOnCannotBeABaseUrl) => Err(UrlError::SetHostOnCannotBeABaseUrl),
        Err(ParseError::Overflow) => Err(UrlError::Overflow),
        Err(_) => Err(UrlError::Other),
    }
}

/// Parses `base`, calls `Url::join` on it with `input`, and hands back the
/// serialization of the joined URL, or the error of either step under its own
/// name. The contract only names that result.
#[verifier::external_body]
fn join_text(base: &str, input: &str) -> (r: Result<String, UrlError>)
    ensures
        text_result(r) == url_join(base@, input@),
{
    match Url::parse(base).and_then(|b| b.join(input)) {
        Ok(url) => Ok(url.into()),
        Err(ParseError::EmptyHost) => Err(UrlError::EmptyHost),
        Err(ParseError::IdnaError) => Err(UrlError::IdnaError),
        Err(ParseError::InvalidPort) => Err(UrlError::InvalidPort),
        Err(ParseError::InvalidIpv4Address) => Err(UrlError::InvalidIpv4Address),
        Err(ParseError::InvalidIpv6Address) => Err(UrlError::InvalidIpv6Address),
        Err(ParseError::InvalidDomainCharacter) => Err(UrlError::InvalidDomainCharacter),
        Err(ParseError::RelativeUrlWithoutBase) => Err(UrlError::RelativeUrlWithoutBase),
        Err(ParseError::RelativeUrlWithCannotBeABaseBase) => Err(UrlError::RelativeUrlWithCannotBeABaseBase),
        Err(ParseError::SetHostOnCannotBeABaseUrl) => Err(UrlError::SetHostOnCannotBeABaseUrl),
        Err(ParseError::Overflow) => Err(UrlError::Overflow),
        Err(_) => Err(UrlError::Other),
    }
}

/// Whether a text is the serialization of a URL that the parser produced,
/// from a text alone or from a text joined to a base. Such a URL is absolute.
pub open spec fn is_url_text(text: Seq<char>) -> bool {
    ||| exists|input: Seq<char>| #[trigger] url_parse(input) == Ok::<Seq<char>, UrlError>(text)
    ||| exists|base: Seq<char>, input: Seq<char>| #[trigger]
        url_join(base, input) == Ok::<Seq<char>, UrlError>(text)
}

/// An absolute URL, held as the text that the parser wrote out for it.
#[derive(Debug)]
pub struct PageUrl {
    text: String,
}

impl View for PageUrl {
    type V = Seq<char>;

    closed spec fn view(&self) -> Seq<char> {
        self.text@
    }
}

/// The mathematical value of a parser result that holds a [`PageUrl`].
pub open spec fn url_result(r: Result<PageUrl, UrlError>) -> Result<Seq<char>, UrlError> {
    match r {
        Ok(url) => Ok(url@),
        Err(e) => Err(e),
    }
}

/// The texts of a run of URLs, in order.
pub open spec fn urls_view(urls: Seq<PageUrl>) -> Seq<Seq<char>> {
    urls.map_values(|u: PageUrl| u@)
}

impl Clone for PageUrl {
    fn clone(&self) -> (copy: PageUrl)
        ensures
            copy@ == self@,
    {
        proof {
            use_type_invariant(self);
        }
        PageUrl { text: self.text.clone() }
    }
}

impl PageUrl {
    #[verifier::type_invariant]
    spec fn absolute(&self) -> bool {
        is_url_text(self.text@)
    }

    /// Parses an absolute URL. Fails, with the parser's reason, on a text
    /// that is not one on its own.
    pub fn parse(input: &str) -> (r: Result<PageUrl, UrlError>)
        ensures
            url_result(r) == url_parse(input@),
            r matches Ok(url) ==> is_url_text(url@),
    {
        match parse_text(input) {
            Ok(text) => {
                assert(url_parse(input@) == Ok::<Seq<char>, UrlError>(text@));
                Ok(PageUrl { text })
            },
            Err(e) => Err(e),
        }
    }

    /// Parses `input` with this URL as its base.
    pub fn join(&self, input: &str) -> (r: Result<PageUrl, UrlError>)
        ensures
            url_result(r) == url_join(self@, input@),
            r matches Ok(url) ==> is_url_text(url@),
    {
        match join_text(self.text.as_str(), input) {
            Ok(text) => {
                assert(url_join(self@, input@) == Ok::<Seq<char>, UrlError>(text@));
                Ok(PageUrl { text })
            },
            Err(e) => Err(e),
        }
    }

    /// The URL as text, ready to be fetched.
    pub fn as_str(&self) -> (text: &str)
        ensures
            text@ == self@,
            is_url_text(text@),
    {
        proof {
            use_type_invariant(self);
        }
        self.text.as_str()
    }

    /// Whether two URLs are the same text.
    pub fn same_as(&self, other: &PageUrl) -> (same: bool)
        ensures
            same == (self@ == other@),
    {
        self.text == other.text
    }
}

/// Why a raw link gave no URL.
#[derive(Clone, Copy, Debug, PartialEq, Eq, Structural)]
pub enum ResolveError {
    /// The link is no URL, and not for want of a base.
    Malformed(UrlError),
    /// The link is relative and could not be joined to its base.
    Unresolvable(UrlError),
}

/// What parsing a raw link on its own has settled.
#[derive(Debug)]
pub enum Resolution {
    /// The link is an absolute URL: this one.
    Absolute(PageUrl),
    /// The link is relative: it has to be joined to a base.
    Relative,
    /// The link is malformed.
    Malformed(UrlError),
}

/// The mathematical value of a [`Resolution`].
pub enum ResolutionView {
    Absolute(Seq<char>),
    Relative,
    Malformed(UrlError),
}

impl View for Resolution {
    type V = ResolutionView;

    open spec fn view(&self) -> ResolutionView {
        match self {
            Resolution::Absolute(url) => ResolutionView::Absolute(url@),
            Resolution::Relative => ResolutionView::Relative,
            Resolution::Malformed(e) => ResolutionView::Malformed(*e),
        }
    }
}

/// The mathematical value of a resolver result.
pub open spec fn resolved_view(r: Result<PageUrl, ResolveError>) -> Result<
    Seq<char>,
    ResolveError,
> {
    match r {
        Ok(url) => Ok(url@),
        Err(e) => Err(e),
    }
}

/// What a parse of the raw link alone settles: an absolute URL stands, a
/// relative link waits for its base, anything else is malformed.
pub open spec fn classified(parsed: Result<Seq<char>, UrlError>) -> ResolutionView {
    match parsed {
        Ok(url) => ResolutionView::Absolute(url),
        Err(UrlError::RelativeUrlWithoutBase) => ResolutionView::Relative,
        Err(e) => ResolutionView::Malformed(e),
    }
}

/// What joining a relative link to its base comes to.
pub open spec fn rebased_spec(joined: Result<Seq<char>, UrlError>) -> Result<
    Seq<char>,
    ResolveError,
> {
    match joined {
        Ok(url) => Ok(url),
        Err(e) => Err(ResolveError::Unresolvable(e)),
    }
}

/// The resolver's rule, over the parse of the link alone and its join to the
/// base: the first stands if it gave a URL; the second is consulted only for
/// a relative link; every other failure is the link's own.
pub open spec fn settle(
    parsed: Result<Seq<char>, UrlError>,
    joined: Result<Seq<char>, UrlError>,
) -> Result<Seq<char>, ResolveError> {
    match classified(parsed) {
        ResolutionView::Absolute(url) => Ok(url),
        ResolutionView::Relative => rebased_spec(joined),
        ResolutionView::Malformed(e) => Err(ResolveError::Malformed(e)),
    }
}

/// What resolving `raw` against `base` gives.
pub open spec fn resolve_spec(raw: Seq<char>, base: Seq<char>) -> Result<Seq<char>, ResolveError> {
    settle(url_parse(raw), url_join(base, raw))
}

/// The URL that a raw link resolves to against `base`, if it does.
pub open spec fn resolved(raw: Seq<char>, base: Seq<char>) -> Option<Seq<char>> {
    match resolve_spec(raw, base) {
        Ok(url) => Some(url),
        Err(_) => None,
    }
}

/// The URLs that a run of raw links resolves to against `base`, in order; a
/// link that does not resolve is left out.
pub open spec fn resolved_links(base: Seq<char>, raws: Seq<Seq<char>>) -> Seq<Seq<char>> {
    raws.filter_map(|raw: Seq<char>| resolved(raw, base))
}

/// Reads off a parse of the raw link alone what is left to do.
pub fn classify(parsed: Result<PageUrl, UrlError>) -> (c: Resolution)
    ensures
        c@ == classified(url_result(parsed)),
{
    match parsed {
        Ok(url) => Resolution::Absolute(url),
        Err(UrlError::RelativeUrlWithoutBase) => Resolution::Relative,
        Err(e) => Resolution::Malformed(e),
    }
}

/// Reads off a join of a relative link to its base what the link resolves to.
pub fn rebased(joined: Result<PageUrl, UrlError>) -> (r: Result<PageUrl, ResolveError>)
    ensures
        resolved_view(r) == rebased_spec(url_result(joined)),
{
    match joined {
        Ok(url) => Ok(url),
        Err(e) => Err(ResolveError::Unresolvable(e)),
    }
}

/// Resolves a raw link against a base URL. An absolute link stands as parsed;
/// a relative one is joined to `base`; any other is an error for this link
/// alone.
pub fn resolve(raw: &str, base: &PageUrl) -> (r: Result<PageUrl, ResolveError>)
    ensures
        resolved_view(r) == resolve_spec(raw@, base@),
        r matches Ok(url) ==> is_url_text(url@),
{
    match classify(PageUrl::parse(raw)) {
        Resolution::Absolute(url) => Ok(url),
        Resolution::Relative => rebased(base.join(raw)),
        Resolution::Malformed(e) => Err(ResolveError::Malformed(e)),
    }
}

/// Resolves each raw link against `base` and keeps those that resolve, in
/// order.
pub fn resolve_links(base: &PageUrl, raws: &Vec<String>) -> (urls: Vec<PageUrl>)
    ensures
        urls_view(urls@) == resolved_links(base@, crate::extract::strings_view(raws@)),
{
    let mut urls: Vec<PageUrl> = Vec::new();
    let ghost texts = crate::extract::strings_view(raws@);
    let ghost pick = |raw: Seq<char>| resolved(raw, base@);
    assert(urls_view(urls@) =~= texts.take(0).filter_map(pick));
    let mut i: usize = 0;
    while i < raws.len()
        invariant
            i <= raws.len(),
            texts == crate::extract::strings_view(raws@),
            pick == |raw: Seq<char>| resolved(raw, base@),
            urls_view(urls@) == texts.take(i as int).filter_map(pick),
        decreases raws.len() - i,
    {
        proof {
            texts.lemma_filter_map_take_succ(pick, i as int);
        }
        match resolve(raws[i].as_str(), base) {
            Ok(url) => {
                let ghost before = urls_view(urls@);
                let ghost text = url@;
                urls.push(url);
                assert(urls_view(urls@) =~= before + seq![text]);
            },
            Err(_) => {
                assert(urls_view(urls@) + Seq::<Seq<char>>::empty() =~= urls_view(urls@));
            },
        }
        i += 1;
    }
    assert(texts.take(i as int) =~= texts);
    urls
}

/// An absolute link resolves to its own parse, whatever the base.
pub proof fn lemma_absolute_ignores_base(raw: Seq<char>, base: Seq<char>, other: Seq<char>)
    requires
        url_parse(raw) is Ok,
    ensures
        resolve_spec(raw, base) == Ok::<Seq<char>, ResolveError>(url_parse(raw)->Ok_0),
        resolve_spec(raw, base) == resolve_spec(raw, other),
{
}

/// A link that fails to parse, and not for want of a base, is an error of
/// that link, whatever the base.
pub proof fn lemma_malformed_is_error(raw: Seq<char>, base: Seq<char>)
    requires
        url_parse(raw) is Err,
        url_parse(raw)->Err_0 != UrlError::RelativeUrlWithoutBase,
    ensures
        resolve_spec(raw, base) == Err::<Seq<char>, ResolveError>(
            ResolveError::Malformed(url_parse(raw)->Err_0),
        ),
        resolved_links(base, seq![raw]) == Seq::<Seq<char>>::empty(),
{
    Seq::lemma_filter_map_singleton(raw, |r: Seq<char>| resolved(r, base));
}

/// Every URL that the resolver gives is absolute.
pub proof fn lemma_resolved_is_absolute(raw: Seq<char>, base: Seq<char>)
    requires
        resolve_spec(raw, base) is Ok,
    ensures
        is_url_text(resolve_spec(raw, base)->Ok_0),
{
    if url_parse(raw) is Ok {
        assert(url_parse(raw) == Ok::<Seq<char>, UrlError>(url_parse(raw)->Ok_0));
    } else {
        assert(url_join(base, raw) == Ok::<Seq<char>, UrlError>(url_join(base, raw)->Ok_0));
    }
}

} // verus!

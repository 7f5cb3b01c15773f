use crawler::extract::extract_links;
use crawler::extract::links_in_tokens;
use crawler::extract::LinkQueue;
use crawler::html::is_readable;
use crawler::html::Attribute;
use crawler::html::HtmlTag;
use crawler::html::HtmlToken;
use crawler::html::TagKind;

fn attr(name: &str, value: &str) -> Attribute {
    Attribute { name: name.to_string(), value: value.to_string() }
}

fn tag(kind: TagKind, name: &str, attrs: Vec<Attribute>) -> HtmlToken {
    HtmlToken::TagToken(HtmlTag { kind, name: name.to_string(), self_closing: false, attrs })
}

#[test]
fn extracts_links_in_document_order() {
    let links = extract_links("<a href=\"/x\">t</a><a href=\"http://b.com/y\">u</a>");
    assert_eq!(links, vec!["/x".to_string(), "http://b.com/y".to_string()]);
}

#[test]
fn page_without_anchor_has_no_links() {
    assert!(extract_links("").is_empty());
    assert!(extract_links("plain text, no markup").is_empty());
    assert!(extract_links("<html><body><p class=\"a\">hello</p></body></html>").is_empty());
    assert!(extract_links("<link href=\"/style.css\"><img src=\"/a.png\">").is_empty());
}

#[test]
fn anchor_without_href_gives_nothing() {
    assert!(extract_links("<a name=\"top\">top</a>").is_empty());
    assert!(extract_links("<a>bare</a>").is_empty());
}

#[test]
fn tag_and_attribute_names_match_without_case() {
    let links = extract_links("<A HREF=\"/upper\">x</A><a HrEf='/mixed'>y</a>");
    assert_eq!(links, vec!["/upper".to_string(), "/mixed".to_string()]);
}

#[test]
fn duplicate_links_are_kept() {
    let links = extract_links("<a href=\"/x\">1</a><p><a href=\"/x\">2</a></p>");
    assert_eq!(links, vec!["/x".to_string(), "/x".to_string()]);
}

#[test]
fn malformed_html_degrades_gracefully() {
    let links = extract_links("<<<a href=/one>>> <b <a href=\"/two\"> </nothing <a href='/three");
    assert_eq!(links.first().map(String::as_str), Some("/one"));
    assert!(links.len() <= 3);
    assert!(extract_links("<a href=\"/never closed").is_empty());
}

#[test]
fn attribute_values_are_decoded() {
    let links = extract_links("<a href=\"/q?a=1&amp;b=2\">x</a><a href=/bare>y</a>");
    assert_eq!(links, vec!["/q?a=1&b=2".to_string(), "/bare".to_string()]);
}

#[test]
fn unquoted_and_empty_href_values() {
    let links = extract_links("<a href>x</a><a href=\"\">y</a>");
    assert_eq!(links, vec![String::new(), String::new()]);
}

#[test]
fn other_elements_between_anchors_are_skipped() {
    let page = "<!DOCTYPE html><!-- c --><div><a href=\"/1\">a</a><span href=\"/no\">s</span><a id=k href=\"/2\">b</a></div>";
    assert_eq!(extract_links(page), vec!["/1".to_string(), "/2".to_string()]);
}

#[test]
fn tokens_at_hand_start_tags_only() {
    let tokens = vec![
        HtmlToken::DoctypeToken,
        tag(TagKind::StartTag, "a", vec![attr("href", "/start")]),
        HtmlToken::CharacterTokens,
        tag(TagKind::EndTag, "a", vec![attr("href", "/end")]),
        tag(TagKind::StartTag, "area", vec![attr("href", "/area")]),
        tag(TagKind::StartTag, "A", vec![attr("href", "/upper")]),
        HtmlToken::EOFToken,
    ];
    assert_eq!(links_in_tokens(&tokens), vec!["/start".to_string()]);
}

#[test]
fn tokens_at_hand_every_href_of_a_tag_counts() {
    let tokens = vec![
        tag(
            TagKind::StartTag,
            "a",
            vec![attr("id", "x"), attr("href", "/1"), attr("hreflang", "en"), attr("href", "/2")],
        ),
        HtmlToken::CommentToken,
        HtmlToken::NullCharacterToken,
        HtmlToken::ParseError,
        tag(TagKind::StartTag, "a", vec![]),
        tag(TagKind::StartTag, "a", vec![attr("HREF", "/case")]),
    ];
    assert_eq!(links_in_tokens(&tokens), vec!["/1".to_string(), "/2".to_string()]);
}

#[test]
fn tokens_at_hand_without_anchor() {
    let tokens = vec![
        tag(TagKind::StartTag, "p", vec![attr("href", "/p")]),
        tag(TagKind::EndTag, "p", vec![]),
    ];
    assert!(links_in_tokens(&tokens).is_empty());
    assert!(links_in_tokens(&Vec::new()).is_empty());
}

#[test]
fn queue_appends_token_by_token() {
    let mut queue = LinkQueue::default();
    assert!(queue.links.is_empty());
    queue.process_token(&tag(TagKind::StartTag, "a", vec![attr("href", "/1")]));
    queue.process_token(&HtmlToken::CharacterTokens);
    queue.process_token(&tag(TagKind::StartTag, "b", vec![attr("href", "/no")]));
    queue.process_token(&tag(TagKind::StartTag, "a", vec![attr("href", "/2")]));
    assert_eq!(queue.links, vec!["/1".to_string(), "/2".to_string()]);
    queue.process_tag(&HtmlTag {
        kind: TagKind::StartTag,
        name: "a".to_string(),
        self_closing: true,
        attrs: vec![attr("href", "/3")],
    });
    assert_eq!(queue.links.len(), 3);
    assert_eq!(queue.links[2], "/3");
}

#[test]
fn short_pages_are_readable() {
    assert!(is_readable(""));
    assert!(is_readable("<a href=\"/x\">t</a>"));
    assert_eq!(crawler::html::MAX_PAGE_BYTES, 1_073_741_823);
}

//! The pages that the documentation page of a struct or an enum links to.

use crate::model::text;
use crate::model::PathText;
use soup::NodeExt;
use soup::QueryBuilderExt;
use soup::Soup;
use url::ParseError;
use url::Url;
use vstd::prelude::*;

verus! {

/// Why a link is no address by itself.
#[derive(Debug, Clone, Copy, PartialEq, Eq, Structural)]
pub enum LinkError {
    /// The link is relative: it needs the address of its page.
    RelativeWithoutBase,
    /// The link is no address at all.
    Invalid,
}

/// What `Url::parse` makes of `href`: the address without its fragment, as
/// it is written out, or why there is none.
pub uninterp spec fn absolute_link(href: Seq<char>) -> Result<Seq<char>, LinkError>;

/// What `Url::join` makes of `href` on the page at `base`: the address
/// without its fragment, as it is written out, or why there is none.
pub uninterp spec fn relative_link(base: Seq<char>, href: Seq<char>) -> Result<
    Seq<char>,
    LinkError,
>;

/// What a search of the document `body` gives: inside the first element
/// with the tag `outer` and the classes `first_class` and `second_class`,
/// for each element with the tag `inner` that has the attribute
/// `attribute`, in document order, what it holds for that attribute.
/// Nothing if `body` has no such first element.
pub uninterp spec fn nested_attributes(
    body: Seq<char>,
    outer: Seq<char>,
    first_class: Seq<char>,
    second_class: Seq<char>,
    inner: Seq<char>,
    attribute: Seq<char>,
) -> Option<Seq<Option<Seq<char>>>>;

/// The text of each link of `found`.
pub open spec fn anchor_texts(found: Seq<Option<String>>) -> Seq<Option<Seq<char>>> {
    Seq::new(
        found.len(),
        |i: int|
            match found[i] {
                Some(href) => Some(href@),
                None => None,
            },
    )
}

/// Calls `Url::parse` on `href`, takes the fragment off the address with
/// `Url::set_fragment`, and hands out the address as it is written out. Of
/// the errors of `Url::parse` it tells `RelativeUrlWithoutBase` from all
/// others. The result goes by the name [`absolute_link`].
#[verifier::external_body]
fn parse_absolute(href: &str) -> (r: Result<String, LinkError>)
    ensures
        match r {
            Ok(url) => absolute_link(href@) == Ok::<Seq<char>, LinkError>(url@),
            Err(why) => absolute_link(href@) == Err::<Seq<char>, LinkError>(why),
        },
{
    match Url::parse(href) {
        Ok(mut url) => {
            url.set_fragment(None);
            Ok(String::from(url))
        },
        Err(ParseError::RelativeUrlWithoutBase) => Err(LinkError::RelativeWithoutBase),
        Err(_) => Err(LinkError::Invalid),
    }
}

/// Calls `Url::parse` on `base` and `Url::join` on the address with `href`,
/// takes the fragment off the result with `Url::set_fragment`, and hands
/// out the address as it is written out. Of the errors of the two it tells
/// `RelativeUrlWithoutBase` from all others. The result goes by the name
/// [`relative_link`].
#[verifier::external_body]
fn parse_relative(base: &str, href: &str) -> (r: Result<String, LinkError>)
    ensures
        match r {
            Ok(url) => relative_link(base@, href@) == Ok::<Seq<char>, LinkError>(url@),
            Err(why) => relative_link(base@, href@) == Err::<Seq<char>, LinkError>(why),
        },
{
    let joined = match Url::parse(base) {
        Ok(page) => page.join(href),
        Err(why) => Err(why),
    };
    match joined {
        Ok(mut url) => {
            url.set_fragment(None);
            Ok(String::from(url))
        },
        Err(ParseError::RelativeUrlWithoutBase) => Err(LinkError::RelativeWithoutBase),
        Err(_) => Err(LinkError::Invalid),
    }
}

/// Parses `body` with `Soup::new`, asks for the first element with the tag
/// `outer` and the classes `first_class` and `second_class`, and in it for
/// every element with the tag `inner` that has the attribute `attribute`,
/// and hands out what `NodeExt::get` gives for that attribute of each. The
/// result goes by the name [`nested_attributes`].
#[verifier::external_body]
fn attributes_in_block(
    body: &str,
    outer: &str,
    first_class: &str,
    second_class: &str,
    inner: &str,
    attribute: &str,
) -> (r: Option<Vec<Option<String>>>)
    ensures
        match r {
            Some(found) => nested_attributes(
                body@,
                outer@,
                first_class@,
                second_class@,
                inner@,
                attribute@,
            ) == Some(anchor_texts(found@)),
            None => nested_attributes(
                body@,
                outer@,
                first_class@,
                second_class@,
                inner@,
                attribute@,
            ) is None,
        },
{
    let soup = Soup::new(body);
    let block = soup.tag(outer).class(first_class).class(second_class).find()?;
    let found = block.tag(inner).attr_name(attribute).find_all();
    Some(found.map(|element| element.get(attribute)).collect())
}

/// The links in the declaration of the given kind on the page `body`: the
/// `href` of each `a` element that has one, inside the first `pre` element
/// with the classes `rust` and `kind`. Nothing if the page has no such
/// declaration.
pub open spec fn block_anchors(body: Seq<char>, kind: Seq<char>) -> Option<Seq<Option<Seq<char>>>> {
    nested_attributes(body, "pre"@, "rust"@, kind, "a"@, "href"@)
}

/// Which of the two readings of a link counts: the link read by itself if
/// that is an address; the link read on its page if it is relative and that
/// is an address; else nothing.
pub open spec fn settled_link(
    alone: Result<Seq<char>, LinkError>,
    on_page: Result<Seq<char>, LinkError>,
) -> Option<Seq<char>> {
    match alone {
        Ok(url) => Some(url),
        Err(LinkError::RelativeWithoutBase) => match on_page {
            Ok(url) => Some(url),
            Err(_) => None,
        },
        Err(LinkError::Invalid) => None,
    }
}

/// The address that the link `href` on the page at `base` leads to, without
/// its fragment: the link itself if it is an address, else the link taken
/// relative to the page; nothing if it is neither.
pub open spec fn link_target(base: Seq<char>, href: Seq<char>) -> Option<Seq<char>> {
    settled_link(absolute_link(href), relative_link(base, href))
}

/// The text of a reading of a link.
pub open spec fn reading_text(reading: Result<String, LinkError>) -> Result<Seq<char>, LinkError> {
    match reading {
        Ok(url) => Ok(url@),
        Err(why) => Err(why),
    }
}

/// The addresses that the links `hrefs` on the page at `base` lead to, in
/// their order, the links that lead nowhere left out.
pub open spec fn link_targets(base: Seq<char>, hrefs: Seq<Option<Seq<char>>>) -> PathText
    decreases hrefs.len(),
{
    if hrefs.len() == 0 {
        Seq::empty()
    } else {
        let head = link_targets(base, hrefs.drop_last());
        match hrefs.last() {
            Some(href) => match link_target(base, href) {
                Some(url) => head.push(url),
                None => head,
            },
            None => head,
        }
    }
}

/// The pages that the page `body` at `base` declares as parts of its type:
/// what the links in its struct declaration lead to or, if it has none, in
/// its enum declaration. Nothing if it has neither.
pub open spec fn declared_links(base: Seq<char>, body: Seq<char>) -> Option<PathText> {
    match block_anchors(body, "struct"@) {
        Some(hrefs) => Some(link_targets(base, hrefs)),
        None => match block_anchors(body, "enum"@) {
            Some(hrefs) => Some(link_targets(base, hrefs)),
            None => None,
        },
    }
}

/// Which of the two readings of a link counts: the link read by itself if
/// that is an address; the link read on its page if it is relative and that
/// is an address; else nothing.
pub fn settle_link(alone: Result<String, LinkError>, on_page: Result<String, LinkError>) -> (r:
    Option<String>)
    ensures
        match r {
            Some(url) => settled_link(reading_text(alone), reading_text(on_page)) == Some(url@),
            None => settled_link(reading_text(alone), reading_text(on_page)) is None,
        },
{
    match alone {
        Ok(url) => Some(url),
        Err(LinkError::RelativeWithoutBase) => match on_page {
            Ok(url) => Some(url),
            Err(_) => None,
        },
        Err(LinkError::Invalid) => None,
    }
}

/// The address that the link `href` on the page at `base` leads to, without
/// its fragment: nothing if the link is no address, by itself or relative
/// to the page. The link is read on its page only if it is relative.
pub fn resolve_link(base: &str, href: &str) -> (r: Option<String>)
    ensures
        match r {
            Some(url) => link_target(base@, href@) == Some(url@),
            None => link_target(base@, href@) is None,
        },
{
    match parse_absolute(href) {
        Err(LinkError::RelativeWithoutBase) => settle_link(
            Err(LinkError::RelativeWithoutBase),
            parse_relative(base, href),
        ),
        alone => settle_link(alone, Err(LinkError::Invalid)),
    }
}

/// The addresses that the links `hrefs` on the page at `base` lead to, in
/// their order, the links that lead nowhere left out.
pub fn resolve_links(base: &str, hrefs: &Vec<Option<String>>) -> (urls: Vec<String>)
    ensures
        text(urls) == link_targets(base@, anchor_texts(hrefs@)),
{
    let ghost wanted = anchor_texts(hrefs@);
    let mut urls: Vec<String> = Vec::new();
    let mut i: usize = 0;
    assert(text(urls) =~= Seq::<Seq<char>>::empty());
    assert(wanted.take(0) =~= Seq::<Option<Seq<char>>>::empty());
    while i < hrefs.len()
        invariant
            i <= hrefs@.len(),
            wanted == anchor_texts(hrefs@),
            text(urls) == link_targets(base@, wanted.take(i as int)),
        decreases hrefs@.len() - i,
    {
        let ghost before = text(urls);
        proof {
            assert(wanted.take(i + 1).drop_last() == wanted.take(i as int));
            assert(wanted.take(i + 1).last() == wanted[i as int]);
        }
        if let Some(href) = &hrefs[i] {
            if let Some(url) = resolve_link(base, href.as_str()) {
                urls.push(url);
                assert(text(urls) =~= before.push(url@));
            }
        }
        i += 1;
    }
    assert(wanted.take(hrefs@.len() as int) == wanted);
    urls
}

/// The links in the declaration of the given kind on the page `body`: the
/// `href` of each `a` element that has one, inside the first `pre` element
/// with the classes `rust` and `kind`. Nothing if the page has no such
/// declaration.
pub fn anchors_in_block(body: &str, kind: &str) -> (r: Option<Vec<Option<String>>>)
    ensures
        match r {
            Some(found) => block_anchors(body@, kind@) == Some(anchor_texts(found@)),
            None => block_anchors(body@, kind@) is None,
        },
{
    attributes_in_block(body, "pre", "rust", kind, "a", "href")
}

/// The pages that the page `body` at `base` declares as parts of its type:
/// what the links in its struct declaration lead to or, if it has none, in
/// its enum declaration. Nothing if it has neither.
pub fn page_links(base: &str, body: &str) -> (r: Option<Vec<String>>)
    ensures
        match r {
            Some(urls) => declared_links(base@, body@) == Some(text(urls)),
            None => declared_links(base@, body@) is None,
        },
{
    let hrefs = match anchors_in_block(body, "struct") {
        Some(hrefs) => hrefs,
        None => match anchors_in_block(body, "enum") {
            Some(hrefs) => hrefs,
            None => {
                return None;
            },
        },
    };
    Some(resolve_links(base, &hrefs))
}

} // verus!

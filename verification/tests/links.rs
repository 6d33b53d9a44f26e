use what_the_struct::links::anchors_in_block;
use what_the_struct::links::page_links;
use what_the_struct::links::resolve_link;
use what_the_struct::links::resolve_links;
use what_the_struct::links::settle_link;
use what_the_struct::links::LinkError;

const PAGE: &str = "https://docs.example/krate/struct.Point.html";

fn some(url: &str) -> Option<String> {
    Some(String::from(url))
}

#[test]
fn absolute_link_is_taken_as_it_is() {
    assert_eq!(
        resolve_link(PAGE, "https://other.example/a/struct.B.html"),
        some("https://other.example/a/struct.B.html")
    );
    assert_eq!(resolve_link("not a page", "http://other.example"), some("http://other.example/"));
}

#[test]
fn relative_link_is_taken_from_its_page() {
    assert_eq!(
        resolve_link(PAGE, "enum.Shape.html"),
        some("https://docs.example/krate/enum.Shape.html")
    );
    assert_eq!(
        resolve_link(PAGE, "../core/primitive.u8.html"),
        some("https://docs.example/core/primitive.u8.html")
    );
    assert_eq!(resolve_link(PAGE, "/top.html"), some("https://docs.example/top.html"));
}

#[test]
fn fragment_is_taken_off() {
    assert_eq!(
        resolve_link(PAGE, "https://other.example/struct.B.html#method.new"),
        some("https://other.example/struct.B.html")
    );
    assert_eq!(
        resolve_link(PAGE, "enum.Shape.html#variant.Dot"),
        some("https://docs.example/krate/enum.Shape.html")
    );
    assert_eq!(resolve_link(PAGE, "#structfield.x"), some(PAGE));
}

#[test]
fn link_that_is_no_address_leads_nowhere() {
    assert_eq!(resolve_link(PAGE, "https://"), None);
    assert_eq!(resolve_link(PAGE, "http://[::1"), None);
    assert_eq!(resolve_link("no address", "enum.Shape.html"), None);
    assert_eq!(resolve_link("mailto:someone@example.com", "enum.Shape.html"), None);
}

#[test]
fn links_keep_their_order_and_the_dead_ones_drop_out() {
    let hrefs = vec![
        some("struct.A.html"),
        None,
        some("https://"),
        some("struct.B.html#fields"),
        some("struct.A.html"),
    ];
    assert_eq!(
        resolve_links(PAGE, &hrefs),
        [
            "https://docs.example/krate/struct.A.html",
            "https://docs.example/krate/struct.B.html",
            "https://docs.example/krate/struct.A.html",
        ]
    );
    assert!(resolve_links(PAGE, &Vec::new()).is_empty());
}

#[test]
fn struct_declaration_gives_the_links() {
    let body = r##"<html><body>
        <a href="elsewhere.html">not in the declaration</a>
        <pre class="rust struct"><code>pub struct Point {
            pub x: <a class="primitive" href="../core/primitive.i32.html">i32</a>,
            pub shape: <a class="enum" href="enum.Shape.html#variants">Shape</a>,
            <a name="anchor">no link</a>
        }</code></pre>
        <pre class="rust enum"><a href="struct.Ignored.html">second declaration</a></pre>
        </body></html>"##;
    assert_eq!(
        page_links(PAGE, body),
        Some(vec![
            String::from("https://docs.example/core/primitive.i32.html"),
            String::from("https://docs.example/krate/enum.Shape.html"),
        ])
    );
}

#[test]
fn enum_declaration_gives_the_links_where_there_is_no_struct() {
    let body = r#"<pre class="rust fn"><a href="fn.f.html">f</a></pre>
        <pre class="enum rust"><a href="struct.Point.html">Point</a></pre>"#;
    assert_eq!(
        page_links(PAGE, body),
        Some(vec![String::from("https://docs.example/krate/struct.Point.html")])
    );
}

#[test]
fn declaration_without_links_gives_none_of_them() {
    let body = r#"<pre class="rust struct">pub struct Unit;</pre>"#;
    assert_eq!(page_links(PAGE, body), Some(Vec::new()));
}

#[test]
fn page_without_declaration_gives_nothing() {
    assert_eq!(page_links(PAGE, ""), None);
    assert_eq!(page_links(PAGE, r#"<pre class="rust"><a href="a.html">a</a></pre>"#), None);
    assert_eq!(page_links(PAGE, r#"<div class="rust struct"><a href="a.html">a</a></div>"#), None);
    assert_eq!(page_links(PAGE, r#"<pre class="struct"><a href="a.html">a</a></pre>"#), None);
}

#[test]
fn link_that_reads_alone_needs_no_page() {
    let alone = || Ok(String::from("https://a.example/"));
    let on_page = || Ok(String::from("https://b.example/"));
    assert_eq!(settle_link(alone(), on_page()), some("https://a.example/"));
    assert_eq!(settle_link(alone(), Err(LinkError::Invalid)), some("https://a.example/"));
    assert_eq!(
        settle_link(alone(), Err(LinkError::RelativeWithoutBase)),
        some("https://a.example/")
    );
}

#[test]
fn relative_link_is_read_on_its_page() {
    let on_page = || Ok(String::from("https://b.example/"));
    assert_eq!(settle_link(Err(LinkError::RelativeWithoutBase), on_page()), some("https://b.example/"));
    assert_eq!(settle_link(Err(LinkError::RelativeWithoutBase), Err(LinkError::Invalid)), None);
    assert_eq!(
        settle_link(Err(LinkError::RelativeWithoutBase), Err(LinkError::RelativeWithoutBase)),
        None
    );
}

#[test]
fn invalid_link_is_not_read_on_its_page() {
    let on_page = || Ok(String::from("https://b.example/"));
    assert_eq!(settle_link(Err(LinkError::Invalid), on_page()), None);
    assert_eq!(settle_link(Err(LinkError::Invalid), Err(LinkError::Invalid)), None);
}

#[test]
fn anchors_are_those_of_the_first_declaration_of_the_kind() {
    let body = r##"<pre class="rust enum"><a href="One.html">1</a><b href="b.html">b</b><a>bare</a>
        <span><a href="#two">2</a></span></pre>
        <pre class="rust enum"><a href="three.html">3</a></pre>"##;
    assert_eq!(anchors_in_block(body, "enum"), Some(vec![some("One.html"), some("#two")]));
    assert_eq!(anchors_in_block(body, "struct"), None);
    assert_eq!(anchors_in_block(body, "rust"), Some(vec![some("One.html"), some("#two")]));
    assert_eq!(anchors_in_block(r#"<pre class="rust union"></pre>"#, "union"), Some(vec![]));
}

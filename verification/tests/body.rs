use killer::body::{
    after_upload, clean, image_source_spans, image_sources, rewrite_at, rewrite_image_sources,
    target_chars, transform_body,
};
use killer::image::{ImageReply, UploadCause, UploadFailure};
use killer::posts::PostData;
use killer::rewriter::parse_substitutions;

fn chars(s: &str) -> Vec<char> {
    s.chars().collect()
}

fn text(v: &[char]) -> String {
    v.iter().collect()
}

fn post(html: &str) -> PostData {
    PostData {
        id: 9,
        title: "T".to_string(),
        slug: "t".to_string(),
        html: html.to_string(),
        created_at: "c".to_string(),
        updated_at: "u".to_string(),
        author_id: "17".to_string(),
        image_url: Some("legacy.jpg".to_string()),
        tags: None,
    }
}

#[test]
fn sources_of_the_image_tags() {
    assert_eq!(
        image_sources("<img class=\"x\" src=\"a.jpg\"><p>t</p><img src=\"ção.png\" alt=\"\">"),
        Some(vec!["a.jpg".to_string(), "ção.png".to_string()])
    );
    assert_eq!(image_sources("<p>no image</p>"), Some(vec![]));
    assert_eq!(image_sources("<img alt=\"x\">"), Some(vec![]));
    assert_eq!(image_sources(""), Some(vec![]));
}

#[test]
fn a_successful_upload_is_embedded() {
    let html = "<img src=\"a.jpg\"><a href=\"a.jpg\">a</a><img src=\"b.jpg\">";
    let upload = Ok(ImageReply { image: "/content/images/a.jpg".to_string() });
    assert_eq!(
        after_upload(html, "a.jpg", &upload),
        "<img src=\"__GHOST_URL__/content/images/a.jpg\"><a href=\"__GHOST_URL__/content/images/a.jpg\">a</a><img src=\"b.jpg\">"
    );
}

#[test]
fn a_failed_upload_changes_nothing() {
    let html = "<img src=\"a.jpg\">";
    let upload =
        Err(UploadFailure { owner: "image basic".to_string(), cause: UploadCause::Transport });
    assert_eq!(after_upload(html, "a.jpg", &upload), html);
}

#[test]
fn image_sources_are_rewritten() {
    let html = "<p>x</p><img src=\"https://pstu.org.br/wp-content/uploads/2019/01/a.jpg\" alt=\"a\"><img src=\"2015/10/b.png\">";
    assert_eq!(
        rewrite_image_sources(html, &[], "/content/images"),
        Some(
            "<p>x</p><img src=\"/content/images/2019/01/a.jpg\" alt=\"a\"><img src=\"/content/images/2015/10/b.png\">"
                .to_string()
        )
    );
    let subs = parse_substitutions("cdn://|https://pstu.org.br/wp-content/uploads/");
    assert_eq!(
        rewrite_image_sources("<img src=\"cdn://2019/a.jpg\">", &subs, "/images"),
        Some("<img src=\"/images/2019/a.jpg\">".to_string())
    );
    assert_eq!(
        rewrite_image_sources("<p>no image</p>", &[], "/content/images"),
        Some("<p>no image</p>".to_string())
    );
}

#[test]
fn references_of_the_destination_stay() {
    let html = "<img src=\"__GHOST_URL__/content/images/a.jpg\"><img src=\"2015/10/b.png\">";
    assert_eq!(
        rewrite_image_sources(html, &[], "/content/images"),
        Some(
            "<img src=\"__GHOST_URL__/content/images/a.jpg\"><img src=\"/content/images/2015/10/b.png\">"
                .to_string()
        )
    );
}

#[test]
fn the_sanitizer_is_applied() {
    assert_eq!(clean(""), "");
    assert_eq!(clean("<p>a</p><script>alert(1)</script>"), "<p>a</p>");
    assert_eq!(clean("<b onclick=\"x()\">a</b>"), "<b>a</b>");
}

#[test]
fn the_pipeline_on_a_blank_body() {
    assert_eq!(transform_body("", &[], "/content/images", 3, 1), Some(String::new()));
    assert_eq!(transform_body(" \n\n\t\n \n", &[], "/content/images", 0, 1), Some(String::new()));
}

#[test]
fn the_pipeline_with_the_promotional_block() {
    let raw = "a\n\nb\n\nc<img src=\"https://x.org/wp-content/uploads/2022/02/a.jpg\" alt=\"a\">";
    let out = transform_body(raw, &[], "/content/images", 3, 2).unwrap();
    assert!(out.starts_with("<p>a</p><p>b</p><p>c</p><a href=\"/nos-apoie\""));
    assert!(out.contains("src=\"/content/images/2025/05/contribua_v2.jpg\""));
    assert!(out.ends_with("<img src=\"/content/images/2022/02/a.jpg\" alt=\"a\">"));
    assert!(!out.contains("wp-content"));
}

#[test]
fn sanitizing_a_post_rewrites_its_images() {
    let out = post("old")
        .sanitize("See\n\n<img src=\"https://x.org/wp-content/uploads/2022/02/a.jpg\" alt=\"a\">".to_string());
    assert_eq!(out.html, "<p>See</p><img src=\"/content/images/2022/02/a.jpg\" alt=\"a\">");
    let subs = parse_substitutions("cdn://|https://pstu.org.br/wp-content/uploads/");
    let out = post("old").sanitize_with("<img src=\"cdn://2019/a.jpg\">".to_string(), &subs);
    assert_eq!(out.html, "<img src=\"/content/images/2019/a.jpg\">");
    assert_eq!(out.title, "T");
    assert_eq!(out.image_url, Some("legacy.jpg".to_string()));
}

#[test]
fn sanitizing_an_empty_body() {
    let before = post("old body");
    let out = before.clone().sanitize(String::new());
    assert_eq!(out.html, "");
    assert_eq!(out, PostData { html: String::new(), ..before });
    let out = post("old body").sanitize(" \n\n\t\n \n".to_string());
    assert_eq!(out.html, "");
}

#[test]
fn the_whole_pipeline() {
    let raw = "See\n\n<img src=\"https://x.org/wp-content/uploads/2022/02/a.jpg\" alt=\"a\">\n\n<script>alert(1)</script>end";
    assert_eq!(
        transform_body(raw, &[], "/content/images", 3, 1),
        Some(
            "<p>See</p><img src=\"/content/images/2022/02/a.jpg\" alt=\"a\"><p>end</p>".to_string()
        )
    );
}

#[test]
fn sanitizing_a_post() {
    let out = post("old").sanitize("Hello\n\nWorld<script>alert(1)</script>".to_string());
    assert_eq!(out.html, "<p>Hello</p><p>World</p>");
    assert_eq!(out.id, 9);
    assert_eq!(out.title, "T");
    assert_eq!(out.image_url, Some("legacy.jpg".to_string()));
    let out = post("old").sanitize(String::new());
    assert_eq!(out.html, "");
}

#[test]
fn sanitizing_keeps_what_is_allowed() {
    let out = post("").sanitize("<h2 onclick=\"x()\">Title</h2>text <b>bold</b>".to_string());
    assert_eq!(out.html, "<h2>Title</h2><p>text <b>bold</b></p>");
}

#[test]
fn each_source_is_rewritten_in_its_place() {
    assert_eq!(
        rewrite_image_sources("<img src=\"a.jpg\"><img src=\"a.jpg\">", &[], "/content/images"),
        Some("<img src=\"/content/images/a.jpg\"><img src=\"/content/images/a.jpg\">".to_string())
    );
    assert_eq!(
        rewrite_image_sources("<img src=\"a.jpg\" alt=\"a.jpg\"> a.jpg", &[], "/content/images"),
        Some("<img src=\"/content/images/a.jpg\" alt=\"a.jpg\"> a.jpg".to_string())
    );
    assert_eq!(
        rewrite_image_sources("<img src=\"ba.jpg\"><img src=\"a.jpg\">", &[], "/i"),
        Some("<img src=\"/i/ba.jpg\"><img src=\"/i/a.jpg\">".to_string())
    );
    assert_eq!(
        rewrite_image_sources("<img alt=\"ção\" src=\"https://x.org/wp-content/uploads/é.png\">", &[], "/i"),
        Some("<img alt=\"ção\" src=\"/i/é.png\">".to_string())
    );
}

#[test]
fn where_the_sources_lie() {
    assert_eq!(
        image_source_spans(&chars("<img src=\"a.jpg\"><p>é</p><img alt=\"\" src=\"b\">")),
        Some(vec![(10, 15), (42, 43)])
    );
    assert_eq!(image_source_spans(&chars("<p>no image</p>")), Some(vec![]));
}

#[test]
fn rewriting_at_given_spans() {
    let html = chars("xxAByyCDzz");
    assert_eq!(text(&rewrite_at(&html, &[(2, 4), (6, 8)], &[], &chars("/r"))), "xx/r/AByy/r/CDzz");
    assert_eq!(text(&rewrite_at(&html, &[], &[], &chars("/r"))), "xxAByyCDzz");
    assert_eq!(text(&rewrite_at(&html, &[(0, 10)], &[], &chars("/r"))), "/r/xxAByyCDzz");
    assert_eq!(text(&rewrite_at(&html, &[(2, 4), (3, 8)], &[], &chars("/r"))), "xx/r/AByyCDzz");
    assert_eq!(text(&rewrite_at(&html, &[(6, 8), (2, 4)], &[], &chars("/r"))), "xxAByy/r/CDzz");
    assert_eq!(text(&rewrite_at(&html, &[(4, 2), (8, 11)], &[], &chars("/r"))), "xxAByyCDzz");
    assert_eq!(text(&rewrite_at(&html, &[(4, 4)], &[], &chars("/r"))), "xxAB/r/yyCDzz");
}

#[test]
fn what_stands_in_the_place_of_a_source() {
    let subs = parse_substitutions("https://mirror.example|https://pstu.org.br");
    let root = chars("/content/images");
    assert_eq!(
        text(&target_chars(&chars("https://mirror.example/wp-content/uploads/2019/01/a.jpg"), &subs, &root)),
        "/content/images/2019/01/a.jpg"
    );
    assert_eq!(text(&target_chars(&chars("2019/01/a.jpg"), &subs, &root)), "/content/images/2019/01/a.jpg");
    assert_eq!(
        text(&target_chars(&chars("__GHOST_URL__/content/images/a.jpg"), &subs, &root)),
        "__GHOST_URL__/content/images/a.jpg"
    );
}

use clip_llm::images::css::css_px;
use clip_llm::images::filter::ImgHint;
use clip_llm::images::html::decode_entities;
use clip_llm::images::html::fragment;
use clip_llm::images::html::img_refs;
use clip_llm::images::html::parse_attrs;
use clip_llm::images::html::ImgRef;

const CF_HTML: &str = "Version:0.9\r\nStartHTML:0000000105\r\nEndHTML:0000000310\r\nStartFragment:0000000141\r\nEndFragment:0000000274\r\n<html>\r\n<body>\r\n<!--StartFragment--><p>Hello <img src=\"https://intranet/chart.png\" width=\"640\" height=\"360\" alt=\"Q3 chart\"> world</p><!--EndFragment-->\r\n</body>\r\n</html>";

const CHROME_MAC: &str = "<meta charset='utf-8'><img src=\"https://h/photo.jpg?x=1&amp;y=2\" style=\"width: 320px; height: 240px;\" class=\"photo\">";

const WORD: &str = "<p class=MsoNormal><!--[if gte vml 1]><v:shape id=\"Picture_x0020_1\" style='width:468pt;height:234pt'><v:imagedata src=\"file:///C:/Users/U/AppData/Local/Temp/msohtmlclip1/01/clip_image001.png\" o:title=\"\"/></v:shape><![endif]--><![if !vml]><img width=624 height=312 src=\"file:///C:/Users/U/AppData/Local/Temp/msohtmlclip1/01/clip_image002.png\" v:shapes=\"Picture_x0020_1\"><![endif]></p>";

#[test]
fn fragment_strips_the_cf_html_wrapper() {
    assert_eq!(
        fragment(CF_HTML),
        "<p>Hello <img src=\"https://intranet/chart.png\" width=\"640\" height=\"360\" alt=\"Q3 chart\"> world</p>"
    );
    assert_eq!(fragment(CHROME_MAC), CHROME_MAC);
    // A start marker without an end marker: take the rest.
    assert_eq!(fragment("x<!--StartFragment-->tail"), "tail");
}

#[test]
fn refs_from_cf_html_carry_attributes() {
    let refs = img_refs(&fragment(CF_HTML));
    assert_eq!(refs.len(), 1, "{refs:?}");
    assert_eq!(refs[0].src, "https://intranet/chart.png");
    assert_eq!((refs[0].width, refs[0].height), (Some(640), Some(360)));
    assert_eq!(refs[0].alt.as_deref(), Some("Q3 chart"));
    assert_eq!(refs[0].class, None);
    assert_eq!(refs[0].offset, "<p>Hello ".len());
}

#[test]
fn refs_decode_entities_and_read_inline_style_size() {
    let refs = img_refs(CHROME_MAC);
    assert_eq!(refs.len(), 1, "{refs:?}");
    assert_eq!(refs[0].src, "https://h/photo.jpg?x=1&y=2");
    assert_eq!((refs[0].width, refs[0].height), (Some(320), Some(240)));
    assert_eq!(refs[0].class.as_deref(), Some("photo"));
}

#[test]
fn refs_take_word_img_not_vml_imagedata() {
    let refs = img_refs(WORD);
    assert_eq!(refs.len(), 1, "{refs:?}");
    assert!(refs[0].src.ends_with("clip_image002.png"), "{}", refs[0].src);
    assert_eq!((refs[0].width, refs[0].height), (Some(624), Some(312)));
}

#[test]
fn refs_dedupe_by_src_in_document_order() {
    let html = "<img src='b.png'><IMG SRC=\"a.png\" WIDTH=100><img src='b.png' width=9><img src=\"c.png\"/>";
    let refs = img_refs(html);
    let srcs: Vec<&str> = refs.iter().map(|r| r.src.as_str()).collect();
    assert_eq!(srcs, vec!["b.png", "a.png", "c.png"]);
    assert_eq!(refs[0].width, None);
    assert_eq!(refs[1].width, Some(100));
    assert!(refs[0].offset < refs[1].offset && refs[1].offset < refs[2].offset);
}

#[test]
fn refs_skip_tags_without_src_and_non_pixel_sizes() {
    let html = "<img alt='no source'><img src=\"d.png\" width=\"100%\" height=\"auto\"><img src=\"data:image/png;base64,iVBORw0KGgo=\" />";
    let refs = img_refs(html);
    assert_eq!(refs.len(), 2, "{refs:?}");
    assert_eq!((refs[0].width, refs[0].height), (None, None));
    assert!(refs[1].src.starts_with("data:image/png;base64,"));
}

#[test]
fn refs_attribute_wins_over_style_and_px_suffix_is_accepted() {
    let html = "<img src=\"e.png\" width=\"800px\" style=\"width:100px\">";
    let refs = img_refs(html);
    assert_eq!(refs[0].width, Some(800));
    // `<image` or `<imgx` are not image tags.
    assert!(img_refs("<imgx src='f.png'><image src='g.png'>").is_empty());
}

#[test]
fn hint_borrows_the_ref() {
    let r = ImgRef {
        src: "h.png".into(),
        width: Some(1),
        height: None,
        alt: Some("a".into()),
        class: None,
        offset: 0,
    };
    assert_eq!(
        r.hint(),
        ImgHint { src: "h.png", width: Some(1), height: None, alt: Some("a"), class: None }
    );
}

// --- pieces ---

fn chars(s: &str) -> Vec<char> {
    s.chars().collect()
}

fn decoded(s: &str) -> String {
    decode_entities(&chars(s)).into_iter().collect()
}

#[test]
fn entities_stand_for_characters() {
    assert_eq!(decoded("a&amp;b&lt;c&gt;d&quot;e&apos;f"), "a&b<c>d\"e'f");
    assert_eq!(decoded("&#65;&#x41;&#x1F600;"), "AA\u{1f600}");
    assert_eq!(decoded("&unknown; & &#xd800; &amp"), "&unknown; & &#xd800; &amp");
    assert_eq!(decoded("no entities"), "no entities");
}

#[test]
fn attributes_are_read_with_and_without_quotes() {
    let attrs = parse_attrs(&chars(" a=1 B='two words' c=\"x\" d"));
    let pairs: Vec<(String, String)> = attrs
        .iter()
        .map(|(k, v)| (k.iter().collect(), v.iter().collect()))
        .collect();
    let pair = |k: &str, v: &str| (k.to_string(), v.to_string());
    assert_eq!(
        pairs,
        vec![pair("a", "1"), pair("b", "two words"), pair("c", "x"), pair("d", "")]
    );
}

#[test]
fn lengths_are_read_in_pixels() {
    for (text, px) in [
        ("640", Some(640)),
        (" 12.5px ", Some(13)),
        ("0.4", None),
        ("0.5", Some(1)),
        ("4294967296", None),
        ("100%", None),
        ("auto", None),
        ("", None),
    ] {
        assert_eq!(css_px(&chars(text)), px, "{text:?}");
    }
}

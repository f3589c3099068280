use ghost_export::plan::{
    classify, filename_with_extension, copy_jobs, decide, new_filename, plan_assets, relative_source, replacement_tag,
    AssetDecision, AssetResolutionError, LinkKind, Resolution,
};
use ghost_export::relocate::move_img_links;
use ghost_export::rewrite::rewrite_content;
use ghost_export::scan::{attributes_scannable, find_src, get_img_links, links_in_order, Attribute, MediaLink};
use ghost_export::text::{decimal_string, has_prefix};

fn found(ext: &str) -> Resolution {
    Resolution::Found(Some(ext.to_string()))
}

fn run(html: &str, resolutions: Vec<Resolution>) -> (String, Vec<(String, String)>) {
    let links = get_img_links(html);
    assert_eq!(links.len(), resolutions.len());
    let r = move_img_links(html, &links, &resolutions);
    let copies = r.copies.iter().map(|c| (c.source.clone(), c.destination.clone())).collect();
    (String::from_utf8(r.content).unwrap(), copies)
}

#[test]
fn single_local_image_is_relocated() {
    let (out, copies) = run("<p><img src=\"/content/images/a.JPG\"></p>", vec![found("JPG")]);
    assert_eq!(out, "<p><img src=\"./pic0.jpg\" alt=\"\" /></p>");
    assert_eq!(copies, vec![("./content/images/a.JPG".to_string(), "pic0.jpg".to_string())]);
}

#[test]
fn second_replacement_lands_after_first_changed_length() {
    let html = "<div><img src=\"/content/images/a.png\"> and <img src=\"/content/images/b.png\" /></div>";
    let (out, copies) = run(html, vec![found("png"), found("png")]);
    assert_eq!(
        out,
        "<div><img src=\"./pic0.png\" alt=\"\" /> and <img src=\"./pic1.png\" alt=\"\" /></div>"
    );
    assert_eq!(copies.len(), 2);
    assert_eq!(copies[1], ("./content/images/b.png".to_string(), "pic1.png".to_string()));
}

#[test]
fn remote_image_is_left_alone() {
    let html = "<p><img src=\"https://example.com/x.png\"></p>";
    assert_eq!(classify("https://example.com/x.png"), LinkKind::Remote);
    let (out, copies) = run(html, vec![Resolution::NotFound]);
    assert_eq!(out, html);
    assert!(copies.is_empty());
}

#[test]
fn missing_extension_fails_and_keeps_tag() {
    let html = "<p><img src=\"/content/images/noext\"></p>";
    let links = get_img_links(html);
    let res = vec![Resolution::Found(None)];
    let r = move_img_links(html, &links, &res);
    assert!(matches!(
        r.plan[0].decision,
        AssetDecision::Failed(AssetResolutionError::MissingExtension)
    ));
    assert_eq!(String::from_utf8(r.content).unwrap(), html);
    assert!(r.copies.is_empty());
}

#[test]
fn unresolvable_source_fails_and_keeps_tag() {
    let html = "<img src=\"/content/gone.png\">";
    let links = get_img_links(html);
    let r = move_img_links(html, &links, &vec![Resolution::NotFound]);
    assert!(matches!(
        r.plan[0].decision,
        AssetDecision::Failed(AssetResolutionError::SourceNotFound)
    ));
    assert_eq!(String::from_utf8(r.content).unwrap(), html);
}

#[test]
fn page_without_images_is_unchanged() {
    let html = "<html><body><p class=\"x\">héllo <b>world</b></p><br/></body></html>";
    assert!(get_img_links(html).is_empty());
    let (out, copies) = run(html, vec![]);
    assert_eq!(out, html);
    assert!(copies.is_empty());
}

#[test]
fn remote_and_unsupported_only_is_unchanged() {
    let html = "<img src=\"http://a/b.png\"><img src=\"data:image/png;base64,AAAA\"><img src=\"HTTPS://c/d.gif\">";
    let (out, copies) = run(html, vec![found("png"), found("png"), found("gif")]);
    assert_eq!(out, html);
    assert!(copies.is_empty());
}

#[test]
fn planning_twice_gives_same_names() {
    let html = "<img src=\"/content/a.PNG\"><img src=\"http://x/y.png\"><img src=\"/content/b.Gif\">";
    let links = get_img_links(html);
    let res = || vec![found("PNG"), Resolution::NotFound, found("Gif")];
    let names = |plan: Vec<ghost_export::plan::PlanEntry>| -> Vec<Option<String>> {
        plan.into_iter()
            .map(|e| match e.decision {
                AssetDecision::Local { new_filename, .. } => Some(new_filename),
                _ => None,
            })
            .collect()
    };
    let first = names(plan_assets(&links, &res()));
    let second = names(plan_assets(&links, &res()));
    assert_eq!(first, second);
    assert_eq!(first, vec![Some("pic0.png".to_string()), None, Some("pic2.gif".to_string())]);
}

#[test]
fn replacements_longer_and_shorter_than_old_tags() {
    let html = "a<img src=\"/content/x.png\" alt=\"a very long alternative text for this image\" width=\"100\">b<img src=\"/content/y.png\" >c";
    let (out, _) = run(html, vec![found("png"), found("png")]);
    assert_eq!(out, "a<img src=\"./pic0.png\" alt=\"\" />b<img src=\"./pic1.png\" alt=\"\" />c");
}

#[test]
fn mixed_references_keep_offsets() {
    let html = "<img src=\"/content/a.png\"><img src=\"http://r/x.png\"><img src=\"/content/b.JPEG\">";
    let (out, copies) = run(html, vec![found("png"), Resolution::NotFound, found("JPEG")]);
    assert_eq!(
        out,
        "<img src=\"./pic0.png\" alt=\"\" /><img src=\"http://r/x.png\"><img src=\"./pic2.jpeg\" alt=\"\" />"
    );
    assert_eq!(copies.len(), 2);
}

#[test]
fn img_without_src_is_skipped() {
    let html = "<img alt=\"x\"><img data-src=\"/content/a.png\" src='/content/b.png' >";
    let links = get_img_links(html);
    assert_eq!(links.len(), 1);
    assert_eq!(links[0].url, "/content/b.png");
    assert_eq!(&html[links[0].start..links[0].end], "<img data-src=\"/content/a.png\" src='/content/b.png' >");
}

#[test]
fn link_spans_cover_whole_tags() {
    let html = "x<IMG src=\"/content/a.png\"><img src=\"/content/b.png\"/>";
    let links = get_img_links(html);
    assert_eq!(links.len(), 1);
    assert_eq!(links[0].start, 27);
    assert_eq!(links[0].end, html.len());
}

#[test]
fn classification() {
    assert_eq!(classify("http://x"), LinkKind::Remote);
    assert_eq!(classify("HtTpS://x"), LinkKind::Remote);
    assert_eq!(classify("/content/images/a.png"), LinkKind::Local);
    assert_eq!(classify("/Content/images/a.png"), LinkKind::Unsupported);
    assert_eq!(classify("images/a.png"), LinkKind::Unsupported);
    assert_eq!(classify(""), LinkKind::Unsupported);
}

#[test]
fn first_src_wins() {
    let attrs = vec![
        Attribute { name: "alt".to_string(), value: "x".to_string() },
        Attribute { name: "src".to_string(), value: "one".to_string() },
        Attribute { name: "src".to_string(), value: "two".to_string() },
    ];
    assert_eq!(find_src(&attrs), Some("one".to_string()));
    assert_eq!(find_src(&vec![]), None);
}

#[test]
fn names_and_tags() {
    assert_eq!(new_filename(0, "JPG"), "pic0.jpg");
    assert_eq!(new_filename(12, "Png"), "pic12.png");
    assert_eq!(replacement_tag("pic3.gif"), "<img src=\"./pic3.gif\" alt=\"\" />");
    assert_eq!(relative_source("/content/a.png"), "./content/a.png");
    assert_eq!(decimal_string(0), "0");
    assert_eq!(decimal_string(9), "9");
    assert_eq!(decimal_string(10), "10");
    assert_eq!(decimal_string(4070), "4070");
    assert!(has_prefix("HTTP://a", "http", true));
    assert!(!has_prefix("HTTP://a", "http", false));
    assert!(!has_prefix("htt", "http", true));
}

#[test]
fn decide_each_kind() {
    assert!(matches!(decide(0, "https://x/y.png", &found("png")), AssetDecision::Remote));
    assert!(matches!(decide(0, "ftp://x/y.png", &found("png")), AssetDecision::Unsupported));
    match decide(7, "/content/i/Z.WEBP", &found("WEBP")) {
        AssetDecision::Local { source, new_filename, replacement_tag } => {
            assert_eq!(source, "./content/i/Z.WEBP");
            assert_eq!(new_filename, "pic7.webp");
            assert_eq!(replacement_tag, "<img src=\"./pic7.webp\" alt=\"\" />");
        }
        _ => panic!("expected a local decision"),
    }
}

#[test]
fn spans_checked() {
    let ok = vec![
        MediaLink { start: 0, end: 3, url: String::new() },
        MediaLink { start: 3, end: 5, url: String::new() },
    ];
    assert!(links_in_order(&ok, 5));
    assert!(!links_in_order(&ok, 4));
    let overlap = vec![
        MediaLink { start: 0, end: 4, url: String::new() },
        MediaLink { start: 3, end: 5, url: String::new() },
    ];
    assert!(!links_in_order(&overlap, 10));
}

#[test]
fn rewrite_and_copy_from_plan() {
    let html = "<img src=\"/content/a.png\">";
    let links = get_img_links(html);
    let plan = plan_assets(&links, &vec![found("png")]);
    let out = rewrite_content(html, &plan);
    assert_eq!(String::from_utf8(out).unwrap(), "<img src=\"./pic0.png\" alt=\"\" />");
    let jobs = copy_jobs(&plan);
    assert_eq!(jobs.len(), 1);
    assert_eq!(jobs[0].destination, "pic0.png");
}

#[test]
fn attribute_text_that_cannot_be_split_is_passed_over() {
    assert!(get_img_links("<img a=\u{e9}=\"c\">").is_empty());
    let html = "<img src=\"/content/a.png\" alt=\u{e9}t\u{e9} ><img src=\"/content/b.png\" alt=\"\u{e9}t\u{e9}\">";
    let links = get_img_links(html);
    assert_eq!(links.len(), 1);
    assert_eq!(links[0].url, "/content/b.png");
    assert!(attributes_scannable("src=\"x\" alt=\"\u{e9}\""));
    assert!(attributes_scannable("a="));
    assert!(attributes_scannable(""));
    assert!(!attributes_scannable("a=\u{e9}"));
}

#[test]
fn link_spans_start_and_end_at_angle_brackets() {
    let html = "<p>t\u{e9}xt <img class=\"w\" src=\"/content/a.png\" /> more</p>";
    let links = get_img_links(html);
    assert_eq!(links.len(), 1);
    let bytes = html.as_bytes();
    assert_eq!(bytes[links[0].start], b'<');
    assert_eq!(bytes[links[0].end - 1], b'>');
    assert!(links[0].start < links[0].end);
}

#[test]
fn filename_keeps_given_extension() {
    assert_eq!(filename_with_extension(3, "JPG"), "pic3.JPG");
    assert_eq!(filename_with_extension(11, "png"), "pic11.png");
}

//! From Markdown to what a browser is shown.
use treff::markup::{kept_value, mentions, render, render_with};

fn attribute_values(html: &str) -> Vec<String> {
    html.split("=\"")
        .skip(1)
        .filter_map(|rest| rest.split('"').next().map(str::to_string))
        .collect()
}

#[test]
fn renders_ordinary_markdown() {
    let html = render("**bold** and a [link](https://example.org)");
    assert!(html.contains("<strong>bold</strong>"), "got: {html}");
    assert!(html.contains("href=\"https://example.org\""), "got: {html}");
}

#[test]
fn keeps_the_everyday_things() {
    let html = render("- one\n- two\n\n`code` and https://example.org\n");
    assert!(html.contains("<li>"), "got: {html}");
    assert!(html.contains("<code>code</code>"), "got: {html}");
    assert!(
        html.contains("href=\"https://example.org\""),
        "autolink: {html}"
    );
}

#[test]
fn links_carry_rel_noopener() {
    let html = render("[out](https://example.org)");
    assert!(html.contains("rel=\""), "got: {html}");
    assert!(html.contains("noopener"), "got: {html}");
}

#[test]
fn strips_script_tags() {
    let html = render("<script>alert(1)</script>");
    assert!(!html.contains("<script"), "got: {html}");
    assert!(!html.contains("alert(1)"), "got: {html}");
}

#[test]
fn strips_event_handlers() {
    let html = render("<img src=x onerror=alert(1)>");
    assert!(!html.to_lowercase().contains("onerror"), "got: {html}");
}

#[test]
fn strips_event_handlers_on_allowed_tags_too() {
    let html = render("<a href=\"https://example.org\" onclick=\"alert(1)\">x</a>");
    assert!(!html.to_lowercase().contains("onclick"), "got: {html}");
}

#[test]
fn refuses_javascript_urls() {
    let html = render("[click](javascript:alert(1))");
    assert!(!html.to_lowercase().contains("javascript:"), "got: {html}");
}

#[test]
fn refuses_javascript_urls_however_they_are_dressed_up() {
    for attempt in [
        "[a](JaVaScRiPt:alert(1))",
        "[b](  javascript:alert(1))",
        "[c](java\tscript:alert(1))",
        "[d](&#106;avascript:alert(1))",
        "<a href=\"JAVASCRIPT:alert(1)\">e</a>",
        "<img src=\"javascript:alert(1)\">",
    ] {
        let html = render(attempt).to_lowercase();
        for value in attribute_values(&html) {
            assert!(
                !value.replace(['\t', '\n', ' '], "").contains("javascript"),
                "{attempt:?} kept a usable attribute: {html}"
            );
        }
    }
}

#[test]
fn refuses_data_urls_in_images() {
    let html = render("![x](data:text/html;base64,PHNjcmlwdD4=)");
    assert!(!html.contains("data:text/html"), "got: {html}");
}

#[test]
fn keeps_raw_html_out_even_when_it_looks_harmless() {
    let html = render("<iframe src=\"https://example.org\"></iframe>");
    assert!(!html.contains("<iframe"), "got: {html}");
}

#[test]
fn a_script_hidden_inside_markdown_structure_is_still_stripped() {
    let html =
        render("> quoted\n>\n> <script>alert(1)</script>\n\n1. <script>alert(2)</script>\n");
    assert!(!html.contains("<script"), "got: {html}");
    assert!(!html.contains("alert("), "got: {html}");
}

#[test]
fn a_fenced_code_block_shows_its_contents_as_text() {
    let html = render("```\n<script>alert(1)</script>\n```\n");
    assert!(html.contains("<code"), "got: {html}");
    assert!(!html.contains("<script>"), "got: {html}");
    assert!(html.contains("&lt;script&gt;"), "got: {html}");
}

fn handles(list: &[&str]) -> Vec<String> {
    list.iter().map(|h| (*h).to_string()).collect()
}

#[test]
fn a_handle_after_an_at_sign_is_a_mention() {
    assert_eq!(mentions("thanks @konrad!"), vec!["konrad"]);
    assert_eq!(mentions("@ada see this"), vec!["ada"], "start of text");
    assert_eq!(
        mentions("(@ada) and, @ben."),
        vec!["ada", "ben"],
        "after punctuation, before a full stop"
    );
    assert_eq!(mentions("@Konrad"), vec!["konrad"], "lower-cased");
    assert_eq!(mentions("@ada and @ada again"), vec!["ada"], "each once");
    assert_eq!(
        mentions("**@ada** and _@ben_"),
        vec!["ada", "ben"],
        "inside emphasis still counts"
    );
    assert_eq!(mentions("line one\n@ada on line two"), vec!["ada"]);
}

#[test]
fn an_at_sign_that_belongs_to_something_else_is_not_a_mention() {
    assert!(
        mentions("write to user@example.org").is_empty(),
        "an address"
    );
    assert!(
        mentions("mail me at ada@home").is_empty(),
        "no boundary before the @"
    );
    assert!(mentions("`@ada`").is_empty(), "a code span");
    assert!(mentions("```\n@ada\n```\n").is_empty(), "a code block");
    assert!(mentions("    @ada\n").is_empty(), "an indented code block");
    assert!(
        mentions("[@ada](https://example.org)").is_empty(),
        "a link text"
    );
    assert!(mentions("https://example.org/@ada").is_empty(), "a url");
    assert!(
        mentions("@ada@example.org").is_empty(),
        "a handle-shaped address"
    );
    assert!(mentions("an @ alone").is_empty());
    assert!(
        mentions(&format!("@{}", "x".repeat(65))).is_empty(),
        "too long to be a handle"
    );
}

#[test]
fn a_mentionable_handle_is_marked_and_nothing_else_is() {
    let html = render_with("hi @Ada and @eve", &handles(&["ada"]));
    assert!(
        html.contains(r#"<span class="mention">@Ada</span>"#),
        "got: {html}"
    );
    assert!(
        html.contains("and @eve"),
        "an unknown one stays text: {html}"
    );
    assert!(
        !html.contains(r#"<span class="mention">@eve"#),
        "got: {html}"
    );
}

#[test]
fn with_nothing_mentionable_the_output_is_the_plain_rendering() {
    let md = "hi @ada, see `@ben` and [@cem](https://example.org)";
    assert_eq!(render_with(md, &handles(&[])), render(md));
}

#[test]
fn a_mention_in_code_is_not_marked_even_if_mentionable() {
    let html = render_with("`@ada`", &handles(&["ada"]));
    assert!(!html.contains("mention"), "got: {html}");
}

#[test]
fn a_hand_written_mention_span_is_not_a_mention() {
    let html = render_with(r#"<span class="mention">@eve</span>"#, &handles(&["ada"]));
    assert!(!html.contains(r#"class="mention""#), "got: {html}");
    let html = render(r#"<span class="mention">@ada</span>"#);
    assert!(!html.contains(r#"class="mention""#), "got: {html}");
}

#[test]
fn an_image_from_this_instance_survives() {
    let html = render("![a picture](/a/7)");
    assert!(html.contains("src=\"/a/7\""), "got: {html}");
    assert!(html.contains("alt=\"a picture\""), "got: {html}");
}

#[test]
fn an_image_from_somewhere_else_does_not() {
    let html = render("![tracker](https://elsewhere.example/pixel.png)");
    assert!(!html.contains("elsewhere.example"), "got: {html}");
}

#[test]
fn only_the_address_of_a_picture_is_looked_at() {
    assert_eq!(kept_value("img", "src", "/a/7"), Some("/a/7"));
    assert_eq!(kept_value("img", "src", "https://elsewhere.example/a"), None);
    assert_eq!(kept_value("img", "src", ""), None);
    assert_eq!(kept_value("img", "alt", "a picture"), Some("a picture"));
    assert_eq!(kept_value("a", "href", "https://example.org"), Some("https://example.org"));
}

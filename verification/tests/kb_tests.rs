use cookbook::markup::{markdown_to_pango, markup_escape};

#[test]
fn test_h1_heading() {
    let result = markdown_to_pango("# Title");
    assert!(result.contains("xx-large"), "h1 should use xx-large size");
    assert!(result.contains("Title"), "should contain heading text");
    assert!(
        result.contains("weight='bold'") || result.contains("weight=\"bold\""),
        "heading should be bold"
    );
}

#[test]
fn test_h2_heading() {
    let result = markdown_to_pango("## Subtitle");
    assert!(result.contains("x-large"), "h2 should use x-large size");
    assert!(result.contains("Subtitle"));
}

#[test]
fn test_h3_heading() {
    let result = markdown_to_pango("### Section");
    assert!(result.contains("large"), "h3 should use large size");
    assert!(result.contains("Section"));
}

#[test]
fn test_bold_text() {
    let result = markdown_to_pango("**bold**");
    assert!(result.contains("<b>") && result.contains("</b>"), "bold text should be wrapped in <b>");
    assert!(result.contains("bold"));
}

#[test]
fn test_italic_text() {
    let result = markdown_to_pango("*italic*");
    assert!(result.contains("<i>") && result.contains("</i>"), "italic text should be wrapped in <i>");
    assert!(result.contains("italic"));
}

#[test]
fn test_list_item_star() {
    let result = markdown_to_pango("* item");
    assert!(result.contains("•"), "list items should use bullet point");
    assert!(result.contains("item"));
}

#[test]
fn test_list_item_dash() {
    let result = markdown_to_pango("- item");
    assert!(result.contains("•"), "list items with dash should use bullet point");
}

#[test]
fn test_empty_string() {
    let result = markdown_to_pango("");
    assert!(result.is_empty() || result.trim().is_empty(), "empty input should produce empty output");
}

#[test]
fn test_plain_text() {
    let result = markdown_to_pango("Hello world");
    assert!(result.contains("Hello world"), "plain text should pass through");
}

#[test]
fn test_multiline() {
    let result = markdown_to_pango("# Title\nPlain text\n**bold**");
    assert!(result.contains("Title"));
    assert!(result.contains("Plain text"));
    assert!(result.contains("<b>"));
}

#[test]
fn test_exact_outputs() {
    assert_eq!(
        markdown_to_pango("# Title"),
        "<span size='xx-large' weight='bold'>Title</span>"
    );
    assert_eq!(markdown_to_pango("a **b** c *d*"), "a <b>b</b> c <i>d</i>");
    assert_eq!(markdown_to_pango("see [docs](http://x)"), "see <u>docs</u> (http://x)");
    assert_eq!(markdown_to_pango("* one\n- two"), "• one\n• two");
    assert_eq!(markdown_to_pango("**"), "**");
    assert_eq!(markdown_to_pango("a & b < c"), "a &amp; b &lt; c");
}

#[test]
fn test_table_block() {
    let md = "Intro\n| a | b |\n|---|---|\nAfter";
    assert_eq!(
        markdown_to_pango(md),
        "Intro\n<span font_family='monospace'>| a | b |\n|---|---|\n</span>\nAfter"
    );
    assert_eq!(
        markdown_to_pango("| x |"),
        "<span font_family='monospace'>| x |\n</span>"
    );
}

#[test]
fn test_escape() {
    assert_eq!(markup_escape("<a href=\"x\">'&'</a>"), "&lt;a href=&quot;x&quot;&gt;&#39;&amp;&#39;&lt;/a&gt;");
    assert_eq!(markup_escape("\u{1}\u{1f}\t\n"), "&#x1;&#x1f;\t\n");
    assert_eq!(markup_escape("plain"), "plain");
}

#[test]
fn escaped_text_has_no_markup_characters() {
    let e = markup_escape("<b>\"quoted\" & 'single'</b>\u{7f}");
    assert!(!e.contains('<') && !e.contains('>') && !e.contains('"') && !e.contains('\''));
}

#[test]
fn converted_markup_is_trimmed() {
    let r = markdown_to_pango("\n\n  # Title  \n| a |\n\n");
    assert_eq!(r, r.trim());
    assert_eq!(r.matches("<span").count(), r.matches("</span>").count());
}

#[test]
fn converted_markup_closes_every_span() {
    let r = markdown_to_pango(
        "### **Bold** heading with [a link](url) and *it*\n| a | b |\n|---|\nText **x** *y*\n## Two\n| open |",
    );
    assert_eq!(r.matches("<span").count(), 4);
    assert_eq!(r.matches("</span>").count(), 4);
    assert!(r.ends_with("</span>"));
}

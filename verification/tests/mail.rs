use newsletter::mail::{confirm_email, esc, landing_page, post_email, strip_tags, subscribe_page, wrap_custom};
use newsletter::templates::SUBSCRIBE_PAGE;

fn chained_replacements(s: &str) -> String {
    s.replace('&', "&amp;")
        .replace('<', "&lt;")
        .replace('>', "&gt;")
        .replace('"', "&quot;")
        .replace('\'', "&#39;")
}

#[test]
fn esc_escapes_each_special_character() {
    assert_eq!(
        esc("<a href=\"x\">Tom & Jerry's</a>"),
        "&lt;a href=&quot;x&quot;&gt;Tom &amp; Jerry&#39;s&lt;/a&gt;"
    );
}

#[test]
fn esc_keeps_plain_text() {
    assert_eq!(esc(""), "");
    assert_eq!(esc("plain text, caf\u{e9} \u{2603}"), "plain text, caf\u{e9} \u{2603}");
}

#[test]
fn esc_does_not_double_escape_in_one_pass() {
    assert_eq!(esc("&amp;"), "&amp;amp;");
    assert_eq!(esc("&lt;"), "&amp;lt;");
}

#[test]
fn esc_matches_chained_replacements() {
    for s in ["", "a&b", "<<>>", "'\"'", "&lt;&#39;", "x < y && y > z", "\u{1f600}&\u{1f600}"] {
        assert_eq!(esc(s), chained_replacements(s));
    }
}

#[test]
fn esc_leaves_no_markup() {
    let out = esc("<script>alert('x')</script> \"q\" & more");
    assert!(!out.contains('<') && !out.contains('>') && !out.contains('"') && !out.contains('\''));
}

#[test]
fn esc_of_concatenation_concatenates() {
    let a = "a<b";
    let b = "c&d'";
    assert_eq!(esc(&format!("{a}{b}")), format!("{}{}", esc(a), esc(b)));
}

#[test]
fn strip_tags_drops_tags_and_decodes() {
    assert_eq!(
        strip_tags("<p>Hello <b>world</b></p>\n\n  <br>&amp; more&nbsp;text"),
        "Hello world & more text"
    );
}

#[test]
fn strip_tags_decodes_each_entity() {
    assert_eq!(strip_tags("&quot;q&quot; &#39;a&#39; &lt;t&gt;"), "\"q\" 'a' <t>");
}

#[test]
fn strip_tags_decodes_in_order() {
    assert_eq!(strip_tags("&amp;lt;"), "<");
    assert_eq!(strip_tags("&amp;amp;"), "&amp;");
}

#[test]
fn strip_tags_collapses_whitespace() {
    assert_eq!(strip_tags("  a \t\n b  "), "a b");
    assert_eq!(strip_tags("x\u{3000}\u{a0}y\u{2028}z"), "x y z");
    assert_eq!(strip_tags("   "), "");
    assert_eq!(strip_tags(""), "");
}

#[test]
fn strip_tags_handles_unbalanced_brackets() {
    assert_eq!(strip_tags("a<b c"), "a");
    assert_eq!(strip_tags("a > b"), "a b");
    assert_eq!(strip_tags("<<x>y>z"), "yz");
}

#[test]
fn strip_tags_is_idempotent_on_plain_output() {
    let once = strip_tags("<h1>Title</h1>\n<p>Some   text</p>");
    assert_eq!(once, "Title Some text");
    assert_eq!(strip_tags(&once), once);
}

#[test]
fn strip_tags_output_is_single_spaced() {
    let out = strip_tags("<div>\n  one\t\ttwo \r\n three\u{2003}</div>");
    assert_eq!(out, "one two three");
    assert!(!out.starts_with(' ') && !out.ends_with(' ') && !out.contains("  "));
}

#[test]
fn confirm_email_text_is_exact() {
    let (_, text) = confirm_email("https://x.test/c?t=1&u=2", "Jo's list");
    assert_eq!(
        text,
        "Thanks for subscribing to Jo's list.\n\nConfirm your email address to start receiving new posts:\nhttps://x.test/c?t=1&u=2\n\nIf you didn't request this, ignore this email and you won't be added."
    );
}

#[test]
fn confirm_email_html_is_exact() {
    let (html, _) = confirm_email("https://x.test/c?t=1&u=2", "Jo's <list>");
    let u = "https://x.test/c?t=1&amp;u=2";
    let d = "Jo&#39;s &lt;list&gt;";
    let expected = format!(
        r#"<div style="font-family:-apple-system,Segoe UI,Arial,sans-serif;font-size:16px;line-height:1.6;color:#181512;max-width:520px;">
  <p>Thanks for subscribing to <strong>{d}</strong>.</p>
  <p>Please confirm your email address to start receiving new posts:</p>
  <p style="margin:24px 0;">
    <a href="{u}" style="background:#9b4d24;color:#fff;text-decoration:none;padding:11px 18px;border-radius:6px;font-weight:600;display:inline-block;">Confirm subscription</a>
  </p>
  <p style="color:#625a52;font-size:14px;">Or paste this link into your browser:<br><a href="{u}" style="color:#9b4d24;">{u}</a></p>
  <p style="color:#625a52;font-size:14px;">If you didn't request this, you can ignore this email and you won't be added.</p>
</div>"#
    );
    assert_eq!(html, expected);
}

#[test]
fn post_email_escapes_html_and_keeps_text_raw() {
    let (html, text) = post_email("A < B", "Why \"A\" & B", "https://b.test/p?a=1&b=2", "https://b.test/u?x='y'");
    assert!(html.contains("<h1 style=\"font-size:22px;line-height:1.25;margin:0 0 12px;color:#181512;\">A &lt; B</h1>"));
    assert!(html.contains("<p style=\"margin:0 0 24px;color:#333;\">Why &quot;A&quot; &amp; B</p>"));
    assert!(html.contains("<a href=\"https://b.test/p?a=1&amp;b=2\" style="));
    assert!(html.contains("<a href=\"https://b.test/u?x=&#39;y&#39;\" style=\"color:#8a8178;\">Unsubscribe</a>."));
    assert!(html.starts_with("<div style="));
    assert!(html.ends_with("</p>\n</div>"));
    assert_eq!(
        text,
        "New post on Jacob Stephens' blog\n\nA < B\n\nWhy \"A\" & B\n\nRead it: https://b.test/p?a=1&b=2\n\n---\nUnsubscribe: https://b.test/u?x='y'\n"
    );
}

#[test]
fn wrap_custom_keeps_body_and_strips_text() {
    let body = "<p>Hello <b>readers</b> &amp; friends</p>";
    let (html, text) = wrap_custom(body, "https://b.test/u?a=1&b=2");
    assert!(html.contains("\n  <p>Hello <b>readers</b> &amp; friends</p>\n  <hr style="));
    assert!(html.contains("<a href=\"https://b.test/u?a=1&amp;b=2\" style=\"color:#8a8178;\">Unsubscribe</a>."));
    assert_eq!(text, "Hello readers & friends\n\n---\nUnsubscribe: https://b.test/u?a=1&b=2\n");
}

#[test]
fn subscribe_page_fills_placeholders() {
    let page = subscribe_page("0x4AAA\"key", "main", "Jo's <blog>");
    assert!(page.contains("data-sitekey=\"0x4AAA&quot;key\""));
    assert!(page.contains("<input type=\"hidden\" name=\"list\" value=\"main\">"));
    assert!(page.contains("<div class=\"eyebrow\">Jo&#39;s &lt;blog&gt;</div>"));
    assert!(!page.contains("__SITEKEY__") && !page.contains("__LIST__") && !page.contains("__DISPLAY__"));
    assert!(page.starts_with("<!DOCTYPE html>"));
    assert!(page.ends_with("</html>"));
}

#[test]
fn subscribe_page_substitutes_in_order() {
    let page = subscribe_page("__LIST__", "L", "__SITEKEY__");
    let expected = SUBSCRIBE_PAGE
        .replace("__SITEKEY__", "__LIST__")
        .replace("__LIST__", "L")
        .replace("__DISPLAY__", "__SITEKEY__");
    assert_eq!(page, expected);
    assert!(page.contains("data-sitekey=\"L\""));
}

#[test]
fn landing_page_is_exact() {
    let page = landing_page("Confirmed", "You're in", "<p>Welcome.</p>");
    let expected = format!(
        r#"<!DOCTYPE html>
<html lang="en">
<head>
<meta charset="UTF-8">
<link rel="icon" type="image/png" href="https://stephens.page/bee-favicon.png">
<meta name="viewport" content="width=device-width, initial-scale=1.0">
<meta name="robots" content="noindex">
<title>{title} | Jacob Stephens</title>
<link href="https://fonts.googleapis.com/css2?family=Source+Serif+4:wght@600;700&family=Source+Sans+3:ital,wght@0,400;0,600;0,700;1,400&display=swap" rel="stylesheet">
<style>
:root{{--ink:#181512;--brand:#9b4d24;--muted:#625a52;--surface:#fff;--rule:#d6d1c9;}}
*{{margin:0;padding:0;box-sizing:border-box;}}
body{{font-family:'Source Sans 3',Arial,sans-serif;background:var(--surface);color:var(--ink);line-height:1.7;min-height:100vh;display:flex;align-items:center;justify-content:center;padding:1.5rem;}}
.card{{max-width:520px;text-align:center;}}
h1{{font-family:'Source Serif 4',Georgia,serif;font-weight:700;font-size:clamp(1.8rem,4vw,2.4rem);line-height:1.1;color:var(--brand);margin-bottom:1rem;}}
p{{color:var(--ink);margin-bottom:1rem;}}
a{{color:var(--brand);}}
.btn{{display:inline-block;margin-top:1.5rem;padding:0.6rem 1.1rem;border:1px solid var(--rule);border-radius:6px;color:var(--ink);text-decoration:none;font-weight:600;}}
.btn:hover{{border-color:var(--brand);color:var(--brand);}}
</style>
</head>
<body>
<div class="card">
<h1>{heading}</h1>
{body_html}
<a class="btn" href="https://stephens.page/blog/">&larr; Back to the blog</a>
</div>
</body>
</html>"#,
        title = "Confirmed",
        heading = "You're in",
        body_html = "<p>Welcome.</p>"
    );
    assert_eq!(page, expected);
}

#[test]
fn strip_tags_undoes_esc_up_to_whitespace() {
    for s in ["a < b > c", "say \"hi\"  it's\n me", "<b>bold</b>", ""] {
        let collapsed = s.split_whitespace().collect::<Vec<_>>().join(" ");
        assert_eq!(strip_tags(&esc(s)), collapsed);
    }
    // With an `&` in the text the entities are decoded once too often.
    assert_eq!(strip_tags(&esc("&lt;")), "<");
}

#[test]
fn strip_tags_leaves_no_brackets_without_entities() {
    let out = strip_tags("<a href='x'>a > b <i>c</i></a> d < e");
    assert_eq!(out, "a b c d");
    assert!(!out.contains('<') && !out.contains('>'));
}

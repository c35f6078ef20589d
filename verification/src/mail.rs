//! HTML escaping, HTML-to-text conversion, and the HTML/text bodies that the
//! newsletter service sends and serves.
use vstd::prelude::*;
use crate::text::{
    chars_of, lemma_occurs_between, lemma_replaced_passes, lemma_replaced_pattern, push_char, replace_all, replaced, stands_at, subst,
};
use crate::words::{
    collapse_whitespace, collapsed, lemma_collapsed_chars, lemma_collapsed_idempotent,
    lemma_collapsed_keeps_words, lemma_collapsed_single_spaced, single_spaced, words,
};
use crate::templates::{
    CONFIRM_HTML_0, CONFIRM_HTML_1, CONFIRM_HTML_2, CONFIRM_HTML_3, CONFIRM_HTML_4, CONFIRM_TEXT_0,
    CONFIRM_TEXT_1, CONFIRM_TEXT_2, POST_HTML_0, POST_HTML_1, POST_HTML_2, POST_HTML_3,
    POST_HTML_4, POST_TEXT_0, POST_TEXT_1, POST_TEXT_2, POST_TEXT_3, POST_TEXT_4, CUSTOM_HTML_0,
    CUSTOM_HTML_1, CUSTOM_HTML_2, CUSTOM_TEXT_1, CUSTOM_TEXT_2, LANDING_0, LANDING_1, LANDING_2,
    LANDING_3, SUBSCRIBE_PAGE,
};

verus! {

/// `&amp;`
pub open spec fn amp_entity() -> Seq<char> {
    seq!['&', 'a', 'm', 'p', ';']
}

/// `&lt;`
pub open spec fn lt_entity() -> Seq<char> {
    seq!['&', 'l', 't', ';']
}

/// `&gt;`
pub open spec fn gt_entity() -> Seq<char> {
    seq!['&', 'g', 't', ';']
}

/// `&quot;`
pub open spec fn quot_entity() -> Seq<char> {
    seq!['&', 'q', 'u', 'o', 't', ';']
}

/// `&#39;`
pub open spec fn apos_entity() -> Seq<char> {
    seq!['&', '#', '3', '9', ';']
}

/// `&nbsp;`
pub open spec fn nbsp_entity() -> Seq<char> {
    seq!['&', 'n', 'b', 's', 'p', ';']
}

/// What `esc` writes for one character.
pub open spec fn escape_char(c: char) -> Seq<char> {
    if c == '&' {
        amp_entity()
    } else if c == '<' {
        lt_entity()
    } else if c == '>' {
        gt_entity()
    } else if c == '"' {
        quot_entity()
    } else if c == '\'' {
        apos_entity()
    } else {
        seq![c]
    }
}

/// `s` with each character replaced by its escape.
pub open spec fn escaped(s: Seq<char>) -> Seq<char>
    decreases s.len(),
{
    if s.len() == 0 {
        seq![]
    } else {
        escaped(s.drop_last()) + escape_char(s.last())
    }
}

/// Minimal HTML-escape for interpolating user/site text into pages and emails.
pub fn esc(s: &str) -> (r: String)
    ensures
        r@ == escaped(s@),
{
    proof {
        reveal_strlit("&amp;");
        reveal_strlit("&lt;");
        reveal_strlit("&gt;");
        reveal_strlit("&quot;");
        reveal_strlit("&#39;");
    }
    assert("&amp;"@ =~= amp_entity());
    assert("&lt;"@ =~= lt_entity());
    assert("&gt;"@ =~= gt_entity());
    assert("&quot;"@ =~= quot_entity());
    assert("&#39;"@ =~= apos_entity());
    let v = chars_of(s);
    let mut out = String::new();
    assert(v@.take(0) =~= Seq::<char>::empty());
    for i in 0..v.len()
        invariant
            v@ == s@,
            out@ == escaped(v@.take(i as int)),
            "&amp;"@ == amp_entity(),
            "&lt;"@ == lt_entity(),
            "&gt;"@ == gt_entity(),
            "&quot;"@ == quot_entity(),
            "&#39;"@ == apos_entity(),
    {
        let c = v[i];
        if c == '&' {
            out.append("&amp;");
        } else if c == '<' {
            out.append("&lt;");
        } else if c == '>' {
            out.append("&gt;");
        } else if c == '"' {
            out.append("&quot;");
        } else if c == '\'' {
            out.append("&#39;");
        } else {
            push_char(&mut out, c);
        }
        assert(v@.take(i + 1).drop_last() =~= v@.take(i as int));
    }
    assert(v@.take(v@.len() as int) =~= v@);
    out
}

/// Whether HTML can read `c` as markup or as the end of an attribute value.
pub open spec fn markup_char(c: char) -> bool {
    c == '<' || c == '>' || c == '"' || c == '\''
}

/// Whether `esc` rewrites `c`.
pub open spec fn special_char(c: char) -> bool {
    c == '&' || markup_char(c)
}

/// Escaped text holds no `<`, `>`, `"` or `'`.
pub proof fn lemma_escaped_no_markup(s: Seq<char>)
    ensures
        forall|k: int| 0 <= k < escaped(s).len() ==> !markup_char(#[trigger] escaped(s)[k]),
    decreases s.len(),
{
    if s.len() > 0 {
        let p = s.drop_last();
        lemma_escaped_no_markup(p);
        let a = escaped(p);
        let e = escape_char(s.last());
        assert forall|k: int| 0 <= k < escaped(s).len() implies !markup_char(
            #[trigger] escaped(s)[k],
        ) by {
            if k < a.len() {
                assert(escaped(s)[k] == a[k]);
            } else {
                assert(escaped(s)[k] == e[k - a.len()]);
            }
        }
    }
}

/// Escaping a concatenation escapes each part.
pub proof fn lemma_escaped_concat(a: Seq<char>, b: Seq<char>)
    ensures
        escaped(a + b) == escaped(a) + escaped(b),
    decreases b.len(),
{
    if b.len() == 0 {
        assert(a + b =~= a);
        assert(escaped(a) + escaped(b) =~= escaped(a));
    } else {
        lemma_escaped_concat(a, b.drop_last());
        assert((a + b).drop_last() =~= a + b.drop_last());
        assert((a + b).last() == b.last());
        assert(escaped(a + b) =~= escaped(a) + escaped(b));
    }
}

/// Text without `&`, `<`, `>`, `"` and `'` is its own escape.
pub proof fn lemma_escaped_plain(s: Seq<char>)
    requires
        forall|k: int| 0 <= k < s.len() ==> !special_char(#[trigger] s[k]),
    ensures
        escaped(s) == s,
    decreases s.len(),
{
    if s.len() > 0 {
        let p = s.drop_last();
        assert forall|k: int| 0 <= k < p.len() implies !special_char(#[trigger] p[k]) by {
            assert(p[k] == s[k]);
        }
        lemma_escaped_plain(p);
        assert(!special_char(s[s.len() - 1]));
        assert(escaped(s) =~= s);
    }
}

/// Replaces the character `p` by `rep` and keeps every other character.
pub open spec fn swap_char(p: char, rep: Seq<char>) -> spec_fn(char) -> Seq<char> {
    |c: char| if c == p { rep } else { seq![c] }
}

proof fn lemma_replaced_one_char(s: Seq<char>, p: char, rep: Seq<char>)
    ensures
        replaced(s, seq![p], rep) == subst(s, swap_char(p, rep)),
    decreases s.len(),
{
    if s.len() > 0 {
        lemma_replaced_one_char(s.skip(1), p, rep);
        assert(s.take(1) =~= seq![s[0]]);
        if s[0] == p {
            assert(s.take(1) =~= seq![p]);
        } else {
            assert(s.take(1) != seq![p]) by {
                assert(s.take(1)[0] != seq![p][0]);
            }
        }
    }
}

proof fn lemma_subst_concat(a: Seq<char>, b: Seq<char>, f: spec_fn(char) -> Seq<char>)
    ensures
        subst(a + b, f) == subst(a, f) + subst(b, f),
    decreases a.len(),
{
    if a.len() == 0 {
        assert(a + b =~= b);
        assert(subst(a, f) + subst(b, f) =~= subst(b, f));
    } else {
        lemma_subst_concat(a.skip(1), b, f);
        assert((a + b).skip(1) =~= a.skip(1) + b);
        assert((a + b)[0] == a[0]);
        assert(subst(a + b, f) =~= subst(a, f) + subst(b, f));
    }
}

proof fn lemma_subst_single(c: char, f: spec_fn(char) -> Seq<char>)
    ensures
        subst(seq![c], f) == f(c),
{
    let e = Seq::<char>::empty();
    assert(seq![c].skip(1) =~= e);
    assert(subst(e, f) == e);
    assert(subst(seq![c], f) == f(seq![c][0]) + subst(seq![c].skip(1), f));
    assert(f(c) + e =~= f(c));
}

/// Substituting with a map that keeps every character of `s` gives `s`.
proof fn lemma_subst_fixed(s: Seq<char>, f: spec_fn(char) -> Seq<char>)
    requires
        forall|k: int| 0 <= k < s.len() ==> f(#[trigger] s[k]) == seq![s[k]],
    ensures
        subst(s, f) == s,
    decreases s.len(),
{
    if s.len() > 0 {
        let t = s.skip(1);
        assert forall|k: int| 0 <= k < t.len() implies f(#[trigger] t[k]) == seq![t[k]] by {
            assert(t[k] == s[k + 1]);
        }
        lemma_subst_fixed(t, f);
        assert(f(s[0]) == seq![s[0]]);
        assert(subst(s, f) =~= s);
    }
}

/// `escape_char` restricted to its first `n` cases, in the order `&`, `<`,
/// `>`, `"`, `'`.
spec fn escape_first(n: int, c: char) -> Seq<char> {
    if n >= 1 && c == '&' {
        amp_entity()
    } else if n >= 2 && c == '<' {
        lt_entity()
    } else if n >= 3 && c == '>' {
        gt_entity()
    } else if n >= 4 && c == '"' {
        quot_entity()
    } else if n >= 5 && c == '\'' {
        apos_entity()
    } else {
        seq![c]
    }
}

/// The `n`-th character that `esc` rewrites, in the order `&`, `<`, `>`,
/// `"`, `'`.
spec fn nth_special(n: int) -> char {
    if n == 1 {
        '&'
    } else if n == 2 {
        '<'
    } else if n == 3 {
        '>'
    } else if n == 4 {
        '"'
    } else {
        '\''
    }
}

/// Substituting with the first `n` cases, then replacing the next special
/// character, is substituting with the first `n + 1` cases.
proof fn lemma_subst_step(s: Seq<char>, n: int)
    requires
        0 <= n < 5,
    ensures
        subst(
            subst(s, |c: char| escape_first(n, c)),
            swap_char(nth_special(n + 1), escape_first(n + 1, nth_special(n + 1))),
        ) == subst(s, |c: char| escape_first(n + 1, c)),
    decreases s.len(),
{
    let f = |c: char| escape_first(n, c);
    let p = nth_special(n + 1);
    let g = swap_char(p, escape_first(n + 1, p));
    let h = |c: char| escape_first(n + 1, c);
    if s.len() > 0 {
        let c = s[0];
        lemma_subst_step(s.skip(1), n);
        lemma_subst_concat(f(c), subst(s.skip(1), f), g);
        if f(c) == seq![c] {
            lemma_subst_single(c, g);
        } else {
            let e = f(c);
            assert forall|k: int| 0 <= k < e.len() implies g(#[trigger] e[k]) == seq![e[k]] by {
                assert(e[k] != p);
            }
            lemma_subst_fixed(e, g);
        }
        assert(subst(s, f) == f(c) + subst(s.skip(1), f));
        assert(subst(s, h) == h(c) + subst(s.skip(1), h));
    }
}

proof fn lemma_subst_ext(s: Seq<char>, f: spec_fn(char) -> Seq<char>, g: spec_fn(char) -> Seq<char>)
    requires
        forall|c: char| #[trigger] f(c) == g(c),
    ensures
        subst(s, f) == subst(s, g),
    decreases s.len(),
{
    if s.len() > 0 {
        lemma_subst_ext(s.skip(1), f, g);
        assert(f(s[0]) == g(s[0]));
    }
}

proof fn lemma_escaped_subst(s: Seq<char>)
    ensures
        escaped(s) == subst(s, |c: char| escape_char(c)),
    decreases s.len(),
{
    let f = |c: char| escape_char(c);
    if s.len() > 0 {
        let p = s.drop_last();
        lemma_escaped_subst(p);
        assert(s =~= p + seq![s.last()]);
        lemma_subst_concat(p, seq![s.last()], f);
        lemma_subst_single(s.last(), f);
    }
}

/// Escaping character by character is the same as replacing, one after the
/// other, every `&` by `&amp;`, every `<` by `&lt;`, every `>` by `&gt;`,
/// every `"` by `&quot;` and every `'` by `&#39;`.
pub proof fn lemma_escaped_is_replacement_chain(s: Seq<char>)
    ensures
        escaped(s) == replaced(
            replaced(
                replaced(
                    replaced(replaced(s, seq!['&'], amp_entity()), seq!['<'], lt_entity()),
                    seq!['>'],
                    gt_entity(),
                ),
                seq!['"'],
                quot_entity(),
            ),
            seq!['\''],
            apos_entity(),
        ),
{
    let f0 = |c: char| escape_first(0, c);
    let f1 = |c: char| escape_first(1, c);
    let f2 = |c: char| escape_first(2, c);
    let f3 = |c: char| escape_first(3, c);
    let f4 = |c: char| escape_first(4, c);
    let f5 = |c: char| escape_first(5, c);
    let s1 = replaced(s, seq!['&'], amp_entity());
    let s2 = replaced(s1, seq!['<'], lt_entity());
    let s3 = replaced(s2, seq!['>'], gt_entity());
    let s4 = replaced(s3, seq!['"'], quot_entity());
    let s5 = replaced(s4, seq!['\''], apos_entity());
    assert forall|k: int| 0 <= k < s.len() implies f0(#[trigger] s[k]) == seq![s[k]] by {}
    lemma_subst_fixed(s, f0);
    lemma_replaced_one_char(s, '&', amp_entity());
    lemma_subst_step(s, 0);
    assert(swap_char(nth_special(1), escape_first(1, nth_special(1))) == swap_char(
        '&',
        amp_entity(),
    ));
    assert(s1 == subst(s, f1));
    lemma_replaced_one_char(s1, '<', lt_entity());
    lemma_subst_step(s, 1);
    assert(swap_char(nth_special(2), escape_first(2, nth_special(2))) == swap_char(
        '<',
        lt_entity(),
    ));
    assert(s2 == subst(s, f2));
    lemma_replaced_one_char(s2, '>', gt_entity());
    lemma_subst_step(s, 2);
    assert(swap_char(nth_special(3), escape_first(3, nth_special(3))) == swap_char(
        '>',
        gt_entity(),
    ));
    assert(s3 == subst(s, f3));
    lemma_replaced_one_char(s3, '"', quot_entity());
    lemma_subst_step(s, 3);
    assert(swap_char(nth_special(4), escape_first(4, nth_special(4))) == swap_char(
        '"',
        quot_entity(),
    ));
    assert(s4 == subst(s, f4));
    lemma_replaced_one_char(s4, '\'', apos_entity());
    lemma_subst_step(s, 4);
    assert(swap_char(nth_special(5), escape_first(5, nth_special(5))) == swap_char(
        '\'',
        apos_entity(),
    ));
    assert(s5 == subst(s, f5));
    lemma_escaped_subst(s);
    assert forall|c: char| #[trigger] f5(c) == escape_char(c) by {}
    lemma_subst_ext(s, f5, |c: char| escape_char(c));
}

/// Whether the text `s` ends inside a tag: its last `<` or `>` is a `<`.
pub open spec fn ends_in_tag(s: Seq<char>) -> bool
    decreases s.len(),
{
    if s.len() == 0 {
        false
    } else if s.last() == '<' {
        true
    } else if s.last() == '>' {
        false
    } else {
        ends_in_tag(s.drop_last())
    }
}

/// The characters of `s` outside tags: `<` opens a tag, `>` closes it, and
/// neither is kept.
pub open spec fn outside_tags(s: Seq<char>) -> Seq<char>
    decreases s.len(),
{
    if s.len() == 0 {
        seq![]
    } else {
        let c = s.last();
        let p = s.drop_last();
        if c == '<' || c == '>' || ends_in_tag(p) {
            outside_tags(p)
        } else {
            outside_tags(p).push(c)
        }
    }
}

/// The six entities that `strip_tags` decodes, replaced one after the other
/// in this order.
pub open spec fn decode_entities(s: Seq<char>) -> Seq<char> {
    let s1 = replaced(s, amp_entity(), seq!['&']);
    let s2 = replaced(s1, quot_entity(), seq!['"']);
    let s3 = replaced(s2, apos_entity(), seq!['\'']);
    let s4 = replaced(s3, lt_entity(), seq!['<']);
    let s5 = replaced(s4, gt_entity(), seq!['>']);
    replaced(s5, nbsp_entity(), seq![' '])
}

/// The plain text of `html`: its text outside tags, with six entities decoded
/// and whitespace collapsed.
pub open spec fn stripped(html: Seq<char>) -> Seq<char> {
    collapsed(decode_entities(outside_tags(html)))
}

/// Crude HTML -> text: drop tags, collapse whitespace. For the text/plain part.
pub fn strip_tags(html: &str) -> (r: String)
    ensures
        r@ == stripped(html@),
        words(r@) == words(decode_entities(outside_tags(html@))),
        single_spaced(r@),
{
    let v = chars_of(html);
    let mut out = String::new();
    let mut in_tag = false;
    assert(v@.take(0) =~= Seq::<char>::empty());
    for i in 0..v.len()
        invariant
            v@ == html@,
            out@ == outside_tags(v@.take(i as int)),
            in_tag == ends_in_tag(v@.take(i as int)),
    {
        let c = v[i];
        assert(v@.take(i + 1).drop_last() =~= v@.take(i as int));
        if c == '<' {
            in_tag = true;
        } else if c == '>' {
            in_tag = false;
        } else if !in_tag {
            push_char(&mut out, c);
        }
    }
    assert(v@.take(v@.len() as int) =~= v@);
    proof {
        reveal_strlit("&amp;");
        reveal_strlit("&quot;");
        reveal_strlit("&#39;");
        reveal_strlit("&lt;");
        reveal_strlit("&gt;");
        reveal_strlit("&nbsp;");
        reveal_strlit("&");
        reveal_strlit("\"");
        reveal_strlit("'");
        reveal_strlit("<");
        reveal_strlit(">");
        reveal_strlit(" ");
    }
    assert("&amp;"@ =~= amp_entity());
    assert("&quot;"@ =~= quot_entity());
    assert("&#39;"@ =~= apos_entity());
    assert("&lt;"@ =~= lt_entity());
    assert("&gt;"@ =~= gt_entity());
    assert("&nbsp;"@ =~= nbsp_entity());
    assert("&"@ =~= seq!['&']);
    assert("\""@ =~= seq!['"']);
    assert("'"@ =~= seq!['\'']);
    assert("<"@ =~= seq!['<']);
    assert(">"@ =~= seq!['>']);
    assert(" "@ =~= seq![' ']);
    let d1 = replace_all(out.as_str(), "&amp;", "&");
    let d2 = replace_all(d1.as_str(), "&quot;", "\"");
    let d3 = replace_all(d2.as_str(), "&#39;", "'");
    let d4 = replace_all(d3.as_str(), "&lt;", "<");
    let d5 = replace_all(d4.as_str(), "&gt;", ">");
    let d6 = replace_all(d5.as_str(), "&nbsp;", " ");
    let decoded = chars_of(d6.as_str());
    let r = collapse_whitespace(&decoded);
    proof {
        lemma_stripped_keeps_words(html@);
    }
    r
}

/// HTML part of the confirmation email, for the escaped link `u` and the
/// escaped list name `d`.
pub open spec fn confirm_html(u: Seq<char>, d: Seq<char>) -> Seq<char> {
    CONFIRM_HTML_0@ + d + CONFIRM_HTML_1@ + u + CONFIRM_HTML_2@ + u + CONFIRM_HTML_3@ + u
        + CONFIRM_HTML_4@
}

/// Text part of the confirmation email.
pub open spec fn confirm_text(confirm_url: Seq<char>, display: Seq<char>) -> Seq<char> {
    CONFIRM_TEXT_0@ + display + CONFIRM_TEXT_1@ + confirm_url + CONFIRM_TEXT_2@
}

/// Confirmation (double opt-in) email body.
pub fn confirm_email(confirm_url: &str, display: &str) -> (r: (String, String))
    ensures
        r.0@ == confirm_html(escaped(confirm_url@), escaped(display@)),
        r.1@ == confirm_text(confirm_url@, display@),
{
    let u = esc(confirm_url);
    let d = esc(display);
    let mut html = String::new();
    html.append(CONFIRM_HTML_0);
    html.append(d.as_str());
    html.append(CONFIRM_HTML_1);
    html.append(u.as_str());
    html.append(CONFIRM_HTML_2);
    html.append(u.as_str());
    html.append(CONFIRM_HTML_3);
    html.append(u.as_str());
    html.append(CONFIRM_HTML_4);
    let mut text = String::new();
    text.append(CONFIRM_TEXT_0);
    text.append(display);
    text.append(CONFIRM_TEXT_1);
    text.append(confirm_url);
    text.append(CONFIRM_TEXT_2);
    (html, text)
}

/// HTML part of a post email, for the escaped title `t`, description `d`,
/// post link `p` and unsubscribe link `u`.
pub open spec fn post_html(t: Seq<char>, d: Seq<char>, p: Seq<char>, u: Seq<char>) -> Seq<char> {
    POST_HTML_0@ + t + POST_HTML_1@ + d + POST_HTML_2@ + p + POST_HTML_3@ + u + POST_HTML_4@
}

/// Text part of a post email.
pub open spec fn post_text(
    title: Seq<char>,
    desc: Seq<char>,
    post_url: Seq<char>,
    unsub_url: Seq<char>,
) -> Seq<char> {
    POST_TEXT_0@ + title + POST_TEXT_1@ + desc + POST_TEXT_2@ + post_url + POST_TEXT_3@
        + unsub_url + POST_TEXT_4@
}

/// Newsletter (per-post) email body for one subscriber.
pub fn post_email(title: &str, desc: &str, post_url: &str, unsub_url: &str) -> (r: (
    String,
    String,
))
    ensures
        r.0@ == post_html(escaped(title@), escaped(desc@), escaped(post_url@), escaped(unsub_url@)),
        r.1@ == post_text(title@, desc@, post_url@, unsub_url@),
{
    let t = esc(title);
    let d = esc(desc);
    let p = esc(post_url);
    let u = esc(unsub_url);
    let mut html = String::new();
    html.append(POST_HTML_0);
    html.append(t.as_str());
    html.append(POST_HTML_1);
    html.append(d.as_str());
    html.append(POST_HTML_2);
    html.append(p.as_str());
    html.append(POST_HTML_3);
    html.append(u.as_str());
    html.append(POST_HTML_4);
    let mut text = String::new();
    text.append(POST_TEXT_0);
    text.append(title);
    text.append(POST_TEXT_1);
    text.append(desc);
    text.append(POST_TEXT_2);
    text.append(post_url);
    text.append(POST_TEXT_3);
    text.append(unsub_url);
    text.append(POST_TEXT_4);
    (html, text)
}

/// HTML part of a custom email: the composed body as it is, and the escaped
/// unsubscribe link `u`.
pub open spec fn custom_html(body_html: Seq<char>, u: Seq<char>) -> Seq<char> {
    CUSTOM_HTML_0@ + body_html + CUSTOM_HTML_1@ + u + CUSTOM_HTML_2@
}

/// Text part of a custom email: the plain text of the body, then the
/// unsubscribe footer.
pub open spec fn custom_text(body_html: Seq<char>, unsub_url: Seq<char>) -> Seq<char> {
    stripped(body_html) + CUSTOM_TEXT_1@ + unsub_url + CUSTOM_TEXT_2@
}

/// Wrap a custom composed body (from the WYSIWYG editor) in the standard email
/// container and unsubscribe footer. Returns (html, text).
pub fn wrap_custom(body_html: &str, unsub_url: &str) -> (r: (String, String))
    ensures
        r.0@ == custom_html(body_html@, escaped(unsub_url@)),
        r.1@ == custom_text(body_html@, unsub_url@),
{
    let u = esc(unsub_url);
    let mut html = String::new();
    html.append(CUSTOM_HTML_0);
    html.append(body_html);
    html.append(CUSTOM_HTML_1);
    html.append(u.as_str());
    html.append(CUSTOM_HTML_2);
    let mut text = strip_tags(body_html);
    text.append(CUSTOM_TEXT_1);
    text.append(unsub_url);
    text.append(CUSTOM_TEXT_2);
    (html, text)
}

/// The subscribe page with its three placeholders replaced, one after the
/// other, by the escaped site key, list and list name.
pub open spec fn subscribe_html(sitekey: Seq<char>, list: Seq<char>, display: Seq<char>) -> Seq<
    char,
> {
    let p1 = replaced(SUBSCRIBE_PAGE@, "__SITEKEY__"@, escaped(sitekey));
    let p2 = replaced(p1, "__LIST__"@, escaped(list));
    replaced(p2, "__DISPLAY__"@, escaped(display))
}

/// Standalone subscribe page served at the service root (newsletter.stephens.page/).
///
/// Carries the same light/dark/system control as stephens.page: system preference
/// is the default, `data-theme` on `<html>` is set only when the visitor pins light
/// or dark, and the choice persists under `localStorage.theme`. The toggle cycles
/// system -> light -> dark -> system, matching `stephens.page/theme.js`.
///
/// Built by placeholder substitution rather than formatting because the page
/// carries enough inline CSS and JS that doubling every brace hurts more than it
/// helps.
pub fn subscribe_page(sitekey: &str, list: &str, display: &str) -> (r: String)
    ensures
        r@ == subscribe_html(sitekey@, list@, display@),
{
    proof {
        reveal_strlit("__SITEKEY__");
        reveal_strlit("__LIST__");
        reveal_strlit("__DISPLAY__");
    }
    let s = esc(sitekey);
    let l = esc(list);
    let d = esc(display);
    let p1 = replace_all(SUBSCRIBE_PAGE, "__SITEKEY__", s.as_str());
    let p2 = replace_all(p1.as_str(), "__LIST__", l.as_str());
    replace_all(p2.as_str(), "__DISPLAY__", d.as_str())
}

/// A landing page: title, heading and body are inserted as they are.
pub open spec fn landing_html(title: Seq<char>, heading: Seq<char>, body_html: Seq<char>) -> Seq<
    char,
> {
    LANDING_0@ + title + LANDING_1@ + heading + LANDING_2@ + body_html + LANDING_3@
}

/// Branded landing page (confirm / unsubscribe screens), mirrors the blog style.
pub fn landing_page(title: &str, heading: &str, body_html: &str) -> (r: String)
    ensures
        r@ == landing_html(title@, heading@, body_html@),
{
    let mut page = String::new();
    page.append(LANDING_0);
    page.append(title);
    page.append(LANDING_1);
    page.append(heading);
    page.append(LANDING_2);
    page.append(body_html);
    page.append(LANDING_3);
    page
}


/// Text without `<` and `>` is all outside tags: it is kept whole.
pub proof fn lemma_outside_tags_plain(s: Seq<char>)
    requires
        !s.contains('<'),
        !s.contains('>'),
    ensures
        outside_tags(s) == s,
        !ends_in_tag(s),
    decreases s.len(),
{
    if s.len() > 0 {
        let p = s.drop_last();
        assert(s.last() == s[s.len() - 1]);
        assert(!p.contains('<')) by {
            if p.contains('<') {
                let k = choose|k: int| 0 <= k < p.len() && p[k] == '<';
                assert(s[k] == '<');
            }
        }
        assert(!p.contains('>')) by {
            if p.contains('>') {
                let k = choose|k: int| 0 <= k < p.len() && p[k] == '>';
                assert(s[k] == '>');
            }
        }
        lemma_outside_tags_plain(p);
        assert(s.last() != '<' && s.last() != '>');
        assert(outside_tags(s) =~= s);
    }
}

/// The text outside tags holds no `<` or `>`, and no character that `s` does
/// not hold.
proof fn lemma_outside_tags_chars(s: Seq<char>, x: char)
    ensures
        !outside_tags(s).contains('<'),
        !outside_tags(s).contains('>'),
        !s.contains(x) ==> !outside_tags(s).contains(x),
    decreases s.len(),
{
    if s.len() > 0 {
        let p = s.drop_last();
        lemma_outside_tags_chars(p, x);
        let o = outside_tags(p);
        let c = s.last();
        if !(c == '<' || c == '>' || ends_in_tag(p)) {
            assert(outside_tags(s) == o.push(c));
            assert forall|y: char| !o.contains(y) && y != c implies !o.push(c).contains(y) by {
                if o.push(c).contains(y) {
                    let k = choose|k: int| 0 <= k < o.push(c).len() && o.push(c)[k] == y;
                    if k < o.len() {
                        assert(o[k] == y);
                    }
                }
            }
            if !s.contains(x) {
                assert(s[s.len() - 1] == c);
                assert(!p.contains(x)) by {
                    if p.contains(x) {
                        let k = choose|k: int| 0 <= k < p.len() && p[k] == x;
                        assert(s[k] == x);
                    }
                }
            }
        }
    }
}

/// Replacing a pattern whose first character `s` does not hold leaves `s` as
/// it is.
proof fn lemma_replaced_absent(s: Seq<char>, pat: Seq<char>, rep: Seq<char>)
    requires
        pat.len() > 0,
        !s.contains(pat[0]),
    ensures
        replaced(s, pat, rep) == s,
    decreases s.len(),
{
    if s.len() > 0 {
        let t = s.skip(1);
        assert(!t.contains(pat[0])) by {
            if t.contains(pat[0]) {
                let k = choose|k: int| 0 <= k < t.len() && t[k] == pat[0];
                assert(s[k + 1] == pat[0]);
            }
        }
        lemma_replaced_absent(t, pat, rep);
        if pat.len() <= s.len() {
            assert(s.take(pat.len() as int)[0] == s[0]);
            assert(s[0] != pat[0]);
        }
        assert(replaced(s, pat, rep) =~= s);
    }
}

/// Text without `&` has no entity to decode: it is kept whole.
pub proof fn lemma_decode_plain(s: Seq<char>)
    requires
        !s.contains('&'),
    ensures
        decode_entities(s) == s,
{
    lemma_replaced_absent(s, amp_entity(), seq!['&']);
    lemma_replaced_absent(s, quot_entity(), seq!['"']);
    lemma_replaced_absent(s, apos_entity(), seq!['\'']);
    lemma_replaced_absent(s, lt_entity(), seq!['<']);
    lemma_replaced_absent(s, gt_entity(), seq!['>']);
    lemma_replaced_absent(s, nbsp_entity(), seq![' ']);
}

/// The plain text of HTML has its whitespace collapsed: none at either end,
/// none but plain spaces, never two in a row.
pub proof fn lemma_stripped_single_spaced(html: Seq<char>)
    ensures
        single_spaced(stripped(html)),
{
    lemma_collapsed_single_spaced(decode_entities(outside_tags(html)));
}

/// Stripping keeps every word of the decoded text outside tags, in order.
pub proof fn lemma_stripped_keeps_words(html: Seq<char>)
    ensures
        words(stripped(html)) == words(decode_entities(outside_tags(html))),
        single_spaced(stripped(html)),
{
    lemma_collapsed_keeps_words(decode_entities(outside_tags(html)));
    lemma_collapsed_single_spaced(decode_entities(outside_tags(html)));
}

/// Tags are dropped: from HTML without entities (no `&`), the plain text
/// holds no `<` and no `>`.
pub proof fn lemma_stripped_drops_tags(html: Seq<char>)
    requires
        !html.contains('&'),
    ensures
        !stripped(html).contains('<'),
        !stripped(html).contains('>'),
{
    let o = outside_tags(html);
    lemma_outside_tags_chars(html, '&');
    lemma_decode_plain(o);
    lemma_collapsed_chars(o, '<');
    lemma_collapsed_chars(o, '>');
}

/// Text without `<`, `>` and `&` only has its whitespace collapsed.
pub proof fn lemma_stripped_plain_text(s: Seq<char>)
    requires
        !s.contains('<'),
        !s.contains('>'),
        !s.contains('&'),
    ensures
        stripped(s) == collapsed(s),
{
    lemma_outside_tags_plain(s);
    lemma_decode_plain(s);
}

/// Stripping plain text that holds no `<`, `>` or `&` again changes nothing.
pub proof fn lemma_stripped_idempotent(html: Seq<char>)
    requires
        !stripped(html).contains('<'),
        !stripped(html).contains('>'),
        !stripped(html).contains('&'),
    ensures
        stripped(stripped(html)) == stripped(html),
{
    lemma_stripped_plain_text(stripped(html));
    lemma_collapsed_idempotent(decode_entities(outside_tags(html)));
}


/// An entity: `&`, then characters other than `&` and `;`, then `;`.
pub open spec fn is_entity(e: Seq<char>) -> bool {
    &&& e.len() >= 2
    &&& e[0] == '&'
    &&& e.last() == ';'
    &&& forall|i: int| 0 <= i < e.len() - 1 ==> #[trigger] e[i] != ';'
    &&& forall|i: int| 0 < i < e.len() ==> #[trigger] e[i] != '&'
}

/// A piece of escaped text: one character other than `&`, or an entity.
pub open spec fn is_chunk(x: Seq<char>) -> bool {
    (x.len() == 1 && x[0] != '&') || is_entity(x)
}

/// An entity other than `pat` does not start with the entity `pat`, whatever
/// follows it.
proof fn lemma_entity_mismatch(e: Seq<char>, t: Seq<char>, pat: Seq<char>)
    requires
        is_entity(e),
        is_entity(pat),
        e != pat,
    ensures
        !(pat.len() <= (e + t).len() && (e + t).take(pat.len() as int) == pat),
{
    let z = e + t;
    let n = pat.len() as int;
    if n <= z.len() && z.take(n) == pat {
        if n <= e.len() {
            assert(z.take(n)[n - 1] == e[n - 1]);
            if n < e.len() {
                assert(e[n - 1] != ';');
            }
            assert(e =~= pat) by {
                assert forall|i: int| 0 <= i < e.len() implies e[i] == pat[i] by {
                    assert(z.take(n)[i] == e[i]);
                }
            }
        } else {
            let m = e.len() as int;
            assert(z.take(n)[m - 1] == e[m - 1]);
            assert(pat[m - 1] == ';');
        }
    }
}

/// Replacing an entity in text made of chunks replaces the chunks that are
/// that entity.
proof fn lemma_replaced_chunks(
    s: Seq<char>,
    f: spec_fn(char) -> Seq<char>,
    g: spec_fn(char) -> Seq<char>,
    pat: Seq<char>,
    rep: Seq<char>,
)
    requires
        is_entity(pat),
        forall|k: int| 0 <= k < s.len() ==> is_chunk(f(#[trigger] s[k])),
        forall|c: char| #[trigger] g(c) == if f(c) == pat { rep } else { f(c) },
    ensures
        replaced(subst(s, f), pat, rep) == subst(s, g),
    decreases s.len(),
{
    if s.len() == 0 {
        assert(replaced(subst(s, f), pat, rep) =~= subst(s, g));
    } else {
        let s1 = s.skip(1);
        assert forall|k: int| 0 <= k < s1.len() implies is_chunk(f(#[trigger] s1[k])) by {
            assert(s1[k] == s[k + 1]);
        }
        lemma_replaced_chunks(s1, f, g, pat, rep);
        let e = f(s[0]);
        assert(is_chunk(f(s[0])));
        let t = subst(s1, f);
        assert(subst(s, f) == e + t);
        assert(subst(s, g) == g(s[0]) + subst(s1, g));
        if e == pat {
            assert((e + t).take(pat.len() as int) =~= pat);
            assert((e + t).skip(pat.len() as int) =~= t);
        } else if e.len() == 1 && e[0] != '&' {
            assert(!e.contains(pat[0])) by {
                if e.contains(pat[0]) {
                    let k = choose|k: int| 0 <= k < e.len() && e[k] == pat[0];
                    assert(k == 0);
                }
            }
            lemma_replaced_passes(e, t, pat, rep);
        } else {
            lemma_entity_mismatch(e, t, pat);
            let e1 = e.skip(1);
            assert(!e1.contains(pat[0])) by {
                if e1.contains(pat[0]) {
                    let k = choose|k: int| 0 <= k < e1.len() && e1[k] == pat[0];
                    assert(e[k + 1] == '&');
                }
            }
            lemma_replaced_passes(e1, t, pat, rep);
            assert((e + t).skip(1) =~= e1 + t);
            assert((e + t)[0] == e[0]);
            assert(seq![e[0]] + (e1 + replaced(t, pat, rep)) =~= e + replaced(t, pat, rep));
        }
    }
}

/// Decoding the entities of escaped text without `&` gives the text back.
proof fn lemma_decode_escaped(s: Seq<char>)
    requires
        !s.contains('&'),
    ensures
        decode_entities(escaped(s)) == s,
{
    let f0 = |c: char| escape_char(c);
    assert(is_entity(amp_entity()));
    assert(is_entity(quot_entity()));
    assert(is_entity(apos_entity()));
    assert(is_entity(lt_entity()));
    assert(is_entity(gt_entity()));
    assert(is_entity(nbsp_entity()));
    assert forall|k: int| 0 <= k < s.len() implies #[trigger] s[k] != '&' by {
        if s[k] == '&' {
            assert(s.contains('&'));
        }
    }
    lemma_escaped_subst(s);
    assert forall|k: int| 0 <= k < s.len() implies is_chunk(f0(#[trigger] s[k])) by {}
    let f1 = |c: char| if f0(c) == amp_entity() { seq!['&'] } else { f0(c) };
    lemma_replaced_chunks(s, f0, f1, amp_entity(), seq!['&']);
    assert forall|k: int| 0 <= k < s.len() implies is_chunk(f1(#[trigger] s[k])) by {}
    let f2 = |c: char| if f1(c) == quot_entity() { seq!['"'] } else { f1(c) };
    lemma_replaced_chunks(s, f1, f2, quot_entity(), seq!['"']);
    assert forall|k: int| 0 <= k < s.len() implies is_chunk(f2(#[trigger] s[k])) by {}
    let f3 = |c: char| if f2(c) == apos_entity() { seq!['\''] } else { f2(c) };
    lemma_replaced_chunks(s, f2, f3, apos_entity(), seq!['\'']);
    assert forall|k: int| 0 <= k < s.len() implies is_chunk(f3(#[trigger] s[k])) by {}
    let f4 = |c: char| if f3(c) == lt_entity() { seq!['<'] } else { f3(c) };
    lemma_replaced_chunks(s, f3, f4, lt_entity(), seq!['<']);
    assert forall|k: int| 0 <= k < s.len() implies is_chunk(f4(#[trigger] s[k])) by {}
    let f5 = |c: char| if f4(c) == gt_entity() { seq!['>'] } else { f4(c) };
    lemma_replaced_chunks(s, f4, f5, gt_entity(), seq!['>']);
    assert forall|k: int| 0 <= k < s.len() implies is_chunk(f5(#[trigger] s[k])) by {}
    let f6 = |c: char| if f5(c) == nbsp_entity() { seq![' '] } else { f5(c) };
    lemma_replaced_chunks(s, f5, f6, nbsp_entity(), seq![' ']);
    assert forall|k: int| 0 <= k < s.len() implies f6(#[trigger] s[k]) == seq![s[k]] by {}
    lemma_subst_fixed(s, f6);
    let d0 = escaped(s);
    assert(d0 == subst(s, f0));
    let d1 = replaced(d0, amp_entity(), seq!['&']);
    assert(d1 == subst(s, f1));
    let d2 = replaced(d1, quot_entity(), seq!['"']);
    assert(d2 == subst(s, f2));
    let d3 = replaced(d2, apos_entity(), seq!['\'']);
    assert(d3 == subst(s, f3));
    let d4 = replaced(d3, lt_entity(), seq!['<']);
    assert(d4 == subst(s, f4));
    let d5 = replaced(d4, gt_entity(), seq!['>']);
    assert(d5 == subst(s, f5));
    let d6 = replaced(d5, nbsp_entity(), seq![' ']);
    assert(d6 == subst(s, f6));
}

/// Stripping undoes escaping up to whitespace: the plain text of escaped text
/// without `&` is that text with its whitespace collapsed.
pub proof fn lemma_stripped_escaped(s: Seq<char>)
    requires
        !s.contains('&'),
    ensures
        stripped(escaped(s)) == collapsed(s),
{
    let e = escaped(s);
    lemma_escaped_no_markup(s);
    assert(!e.contains('<')) by {
        if e.contains('<') {
            let k = choose|k: int| 0 <= k < e.len() && e[k] == '<';
            assert(!markup_char(e[k]));
        }
    }
    assert(!e.contains('>')) by {
        if e.contains('>') {
            let k = choose|k: int| 0 <= k < e.len() && e[k] == '>';
            assert(!markup_char(e[k]));
        }
    }
    lemma_outside_tags_plain(e);
    lemma_decode_escaped(s);
}


/// Whether `t` starts with `e`.
pub open spec fn starts_with(t: Seq<char>, e: Seq<char>) -> bool {
    e.len() <= t.len() && t.take(e.len() as int) == e
}

/// One left-to-right pass over `t` that turns each `&amp;`, `&lt;`, `&gt;`,
/// `&quot;` and `&#39;` back into `&`, `<`, `>`, `"` and `'`, and never reads
/// what it has written.
pub open spec fn unescaped(t: Seq<char>) -> Seq<char>
    decreases t.len(),
{
    if t.len() == 0 {
        seq![]
    } else if starts_with(t, amp_entity()) {
        seq!['&'] + unescaped(t.skip(5))
    } else if starts_with(t, lt_entity()) {
        seq!['<'] + unescaped(t.skip(4))
    } else if starts_with(t, gt_entity()) {
        seq!['>'] + unescaped(t.skip(4))
    } else if starts_with(t, quot_entity()) {
        seq!['"'] + unescaped(t.skip(6))
    } else if starts_with(t, apos_entity()) {
        seq!['\''] + unescaped(t.skip(5))
    } else {
        seq![t[0]] + unescaped(t.skip(1))
    }
}

proof fn lemma_not_starts_with(t: Seq<char>, e: Seq<char>, i: int)
    requires
        0 <= i < e.len(),
        i < t.len(),
        t[i] != e[i],
    ensures
        !starts_with(t, e),
{
    if starts_with(t, e) {
        assert(t.take(e.len() as int)[i] == t[i]);
    }
}

/// Unescaping the escape of one character, followed by any text, gives that
/// character back, followed by the unescaped text.
proof fn lemma_unescaped_chunk(c: char, r: Seq<char>)
    ensures
        unescaped(escape_char(c) + r) == seq![c] + unescaped(r),
{
    let e = escape_char(c);
    let t = e + r;
    assert(t.len() > 0);
    assert(forall|i: int| 0 <= i < e.len() ==> t[i] == e[i]);
    assert(t.skip(e.len() as int) =~= r);
    if c == '&' {
        assert(t.take(5) =~= amp_entity());
    } else if c == '<' {
        lemma_not_starts_with(t, amp_entity(), 1);
        assert(t.take(4) =~= lt_entity());
    } else if c == '>' {
        lemma_not_starts_with(t, amp_entity(), 1);
        lemma_not_starts_with(t, lt_entity(), 1);
        assert(t.take(4) =~= gt_entity());
    } else if c == '"' {
        lemma_not_starts_with(t, amp_entity(), 1);
        lemma_not_starts_with(t, lt_entity(), 1);
        lemma_not_starts_with(t, gt_entity(), 1);
        assert(t.take(6) =~= quot_entity());
    } else if c == '\'' {
        lemma_not_starts_with(t, amp_entity(), 1);
        lemma_not_starts_with(t, lt_entity(), 1);
        lemma_not_starts_with(t, gt_entity(), 1);
        lemma_not_starts_with(t, quot_entity(), 1);
        assert(t.take(5) =~= apos_entity());
    } else {
        lemma_not_starts_with(t, amp_entity(), 0);
        lemma_not_starts_with(t, lt_entity(), 0);
        lemma_not_starts_with(t, gt_entity(), 0);
        lemma_not_starts_with(t, quot_entity(), 0);
        lemma_not_starts_with(t, apos_entity(), 0);
        assert(t[0] == c);
    }
}

/// A one-pass unescape undoes escaping: `unescaped(escaped(s)) == s`.
pub proof fn lemma_unescaped_escaped(s: Seq<char>)
    ensures
        unescaped(escaped(s)) == s,
    decreases s.len(),
{
    let f = |c: char| escape_char(c);
    if s.len() == 0 {
        assert(escaped(s) =~= Seq::<char>::empty());
    } else {
        let s1 = s.skip(1);
        lemma_unescaped_escaped(s1);
        lemma_escaped_subst(s);
        lemma_escaped_subst(s1);
        assert(subst(s, f) == f(s[0]) + subst(s1, f));
        assert(escaped(s) == escape_char(s[0]) + escaped(s1));
        lemma_unescaped_chunk(s[0], escaped(s1));
        assert(seq![s[0]] + s1 =~= s);
    }
}

/// Escaping is injective: different texts have different escapes.
pub proof fn lemma_escaped_injective(a: Seq<char>, b: Seq<char>)
    requires
        escaped(a) == escaped(b),
    ensures
        a == b,
{
    lemma_unescaped_escaped(a);
    lemma_unescaped_escaped(b);
}


/// The confirmation email carries the link and the list name whole: its
/// text part is the template with the list name and the whole link in
/// place, the link standing right after the list name and the words that
/// lead to it; its HTML part has the escaped list name, and the whole escaped
/// link in each of its three places.
pub proof fn lemma_confirm_email_carries_link(confirm_url: Seq<char>, display: Seq<char>)
    ensures
        confirm_text(confirm_url, display) == CONFIRM_TEXT_0@ + display + CONFIRM_TEXT_1@
            + confirm_url + CONFIRM_TEXT_2@,
        stands_at(
            confirm_text(confirm_url, display),
            (CONFIRM_TEXT_0@ + display + CONFIRM_TEXT_1@).len() as int,
            confirm_url,
        ),
        confirm_html(escaped(confirm_url), escaped(display)) == CONFIRM_HTML_0@ + escaped(display)
            + CONFIRM_HTML_1@ + escaped(confirm_url) + CONFIRM_HTML_2@ + escaped(confirm_url)
            + CONFIRM_HTML_3@ + escaped(confirm_url) + CONFIRM_HTML_4@,
        stands_at(
            confirm_html(escaped(confirm_url), escaped(display)),
            (CONFIRM_HTML_0@ + escaped(display) + CONFIRM_HTML_1@).len() as int,
            escaped(confirm_url),
        ),
{
    lemma_occurs_between(CONFIRM_TEXT_0@ + display + CONFIRM_TEXT_1@, confirm_url, CONFIRM_TEXT_2@);
    lemma_occurs_between(
        CONFIRM_HTML_0@ + escaped(display) + CONFIRM_HTML_1@,
        escaped(confirm_url),
        CONFIRM_HTML_2@ + escaped(confirm_url) + CONFIRM_HTML_3@ + escaped(confirm_url)
            + CONFIRM_HTML_4@,
    );
    assert(confirm_html(escaped(confirm_url), escaped(display)) =~= CONFIRM_HTML_0@ + escaped(
        display,
    ) + CONFIRM_HTML_1@ + escaped(confirm_url) + (CONFIRM_HTML_2@ + escaped(confirm_url)
        + CONFIRM_HTML_3@ + escaped(confirm_url) + CONFIRM_HTML_4@));
}

/// A post email carries its values whole: its HTML part is the template with
/// the escaped title, description, post link and unsubscribe link in place,
/// and ends with the whole escaped unsubscribe link and the footer; its text
/// part is the template with the values as they are.
pub proof fn lemma_post_email_carries_links(
    title: Seq<char>,
    desc: Seq<char>,
    post_url: Seq<char>,
    unsub_url: Seq<char>,
)
    ensures
        post_html(escaped(title), escaped(desc), escaped(post_url), escaped(unsub_url))
            == POST_HTML_0@ + escaped(title) + POST_HTML_1@ + escaped(desc) + POST_HTML_2@
            + escaped(post_url) + POST_HTML_3@ + escaped(unsub_url) + POST_HTML_4@,
        stands_at(
            post_html(escaped(title), escaped(desc), escaped(post_url), escaped(unsub_url)),
            (POST_HTML_0@ + escaped(title) + POST_HTML_1@ + escaped(desc) + POST_HTML_2@
                + escaped(post_url) + POST_HTML_3@).len() as int,
            escaped(unsub_url) + POST_HTML_4@,
        ),
        post_text(title, desc, post_url, unsub_url) == POST_TEXT_0@ + title + POST_TEXT_1@ + desc
            + POST_TEXT_2@ + post_url + POST_TEXT_3@ + unsub_url + POST_TEXT_4@,
{
    let a = POST_HTML_0@ + escaped(title) + POST_HTML_1@ + escaped(desc) + POST_HTML_2@ + escaped(
        post_url,
    ) + POST_HTML_3@;
    lemma_occurs_between(a, escaped(unsub_url) + POST_HTML_4@, Seq::<char>::empty());
    assert(a + (escaped(unsub_url) + POST_HTML_4@) + Seq::<char>::empty() =~= a + escaped(
        unsub_url,
    ) + POST_HTML_4@);
}

/// A custom email carries the composed body as it is and the unsubscribe link
/// whole: its HTML part is the container with the body and the escaped link
/// in place; its text part is the plain text of the body, then the footer
/// with the whole link.
pub proof fn lemma_custom_email_carries_link(body_html: Seq<char>, unsub_url: Seq<char>)
    ensures
        custom_html(body_html, escaped(unsub_url)) == CUSTOM_HTML_0@ + body_html + CUSTOM_HTML_1@
            + escaped(unsub_url) + CUSTOM_HTML_2@,
        custom_text(body_html, unsub_url) == stripped(body_html) + CUSTOM_TEXT_1@ + unsub_url
            + CUSTOM_TEXT_2@,
        words(custom_text(body_html, unsub_url).take(stripped(body_html).len() as int)) == words(
            decode_entities(outside_tags(body_html)),
        ),
        stands_at(
            custom_text(body_html, unsub_url),
            (stripped(body_html) + CUSTOM_TEXT_1@).len() as int,
            unsub_url,
        ),
{
    lemma_stripped_keeps_words(body_html);
    let t = custom_text(body_html, unsub_url);
    assert(t.take(stripped(body_html).len() as int) =~= stripped(body_html));
    lemma_occurs_between(stripped(body_html) + CUSTOM_TEXT_1@, unsub_url, CUSTOM_TEXT_2@);
}

/// The subscribe page is the page template with `__SITEKEY__`, then
/// `__LIST__`, then `__DISPLAY__` replaced, each by the whole escape of its
/// value.
pub proof fn lemma_subscribe_page_fills(sitekey: Seq<char>, list: Seq<char>, display: Seq<char>)
    ensures
        subscribe_html(sitekey, list, display) == replaced(
            replaced(
                replaced(SUBSCRIBE_PAGE@, "__SITEKEY__"@, escaped(sitekey)),
                "__LIST__"@,
                escaped(list),
            ),
            "__DISPLAY__"@,
            escaped(display),
        ),
{
}

/// A landing page is the page template with the title, heading and body in
/// place, each whole and as it is.
pub proof fn lemma_landing_page_fills(title: Seq<char>, heading: Seq<char>, body_html: Seq<char>)
    ensures
        landing_html(title, heading, body_html) == LANDING_0@ + title + LANDING_1@ + heading
            + LANDING_2@ + body_html + LANDING_3@,
        stands_at(
            landing_html(title, heading, body_html),
            (LANDING_0@ + title + LANDING_1@ + heading + LANDING_2@).len() as int,
            body_html,
        ),
{
    lemma_occurs_between(LANDING_0@ + title + LANDING_1@ + heading + LANDING_2@, body_html, LANDING_3@);
}


/// Whether `s` holds neither `<` nor `>`.
pub open spec fn bracket_free(s: Seq<char>) -> bool {
    !s.contains('<') && !s.contains('>')
}

proof fn lemma_bracket_free_drop_last(s: Seq<char>)
    requires
        bracket_free(s),
        s.len() > 0,
    ensures
        bracket_free(s.drop_last()),
        s.last() != '<' && s.last() != '>',
{
    assert(s.last() == s[s.len() - 1]);
    let p = s.drop_last();
    if p.contains('<') {
        let k = choose|k: int| 0 <= k < p.len() && p[k] == '<';
        assert(s[k] == '<');
    }
    if p.contains('>') {
        let k = choose|k: int| 0 <= k < p.len() && p[k] == '>';
        assert(s[k] == '>');
    }
}

/// After an opening `<`, text without brackets is inside the tag.
proof fn lemma_inside_tag(x: Seq<char>, t: Seq<char>)
    requires
        bracket_free(t),
    ensures
        ends_in_tag(x + seq!['<'] + t),
        outside_tags(x + seq!['<'] + t) == outside_tags(x),
    decreases t.len(),
{
    let z = x + seq!['<'] + t;
    if t.len() == 0 {
        assert(z =~= x.push('<'));
        assert(z.drop_last() =~= x);
    } else {
        lemma_bracket_free_drop_last(t);
        lemma_inside_tag(x, t.drop_last());
        assert(z.drop_last() =~= x + seq!['<'] + t.drop_last());
        assert(z.last() == t.last());
    }
}

/// After a closing `>`, text without brackets is outside tags.
proof fn lemma_after_tag(z: Seq<char>, y: Seq<char>)
    requires
        bracket_free(y),
    ensures
        !ends_in_tag(z + seq!['>'] + y),
        outside_tags(z + seq!['>'] + y) == outside_tags(z + seq!['>']) + y,
    decreases y.len(),
{
    let w = z + seq!['>'] + y;
    if y.len() == 0 {
        assert(w =~= z.push('>'));
        assert(outside_tags(z + seq!['>']) + y =~= outside_tags(z + seq!['>']));
    } else {
        lemma_bracket_free_drop_last(y);
        lemma_after_tag(z, y.drop_last());
        assert(w.drop_last() =~= z + seq!['>'] + y.drop_last());
        assert(w.last() == y.last());
        assert(outside_tags(w) =~= outside_tags(z + seq!['>']) + y);
    }
}

/// A tag is dropped with all it holds, and the text around it is kept whole:
/// for text `x` and `y` without brackets and a tag `<t>`, the text outside
/// tags of `x<t>y` is `x` followed by `y`.
pub proof fn lemma_outside_tags_drops_tag(x: Seq<char>, t: Seq<char>, y: Seq<char>)
    requires
        bracket_free(x),
        bracket_free(t),
        bracket_free(y),
    ensures
        outside_tags(x + seq!['<'] + t + seq!['>'] + y) == x + y,
{
    let z = x + seq!['<'] + t;
    lemma_after_tag(z, y);
    lemma_inside_tag(x, t);
    assert((z + seq!['>']).drop_last() =~= z);
    assert((z + seq!['>']).last() == '>');
    lemma_outside_tags_plain(x);
}


proof fn lemma_no_amp_concat(a: Seq<char>, b: Seq<char>)
    requires
        !a.contains('&'),
        !b.contains('&'),
    ensures
        !(a + b).contains('&'),
{
    if (a + b).contains('&') {
        let k = choose|k: int| 0 <= k < (a + b).len() && (a + b)[k] == '&';
        if k < a.len() {
            assert(a[k] == '&');
        } else {
            assert(b[k - a.len()] == '&');
        }
    }
}

/// Replacing the entity `pat` around one entity `e` in text without `&`:
/// `e` is replaced when it is `pat` and kept otherwise; the rest is kept.
proof fn lemma_replaced_around(
    x: Seq<char>,
    e: Seq<char>,
    y: Seq<char>,
    pat: Seq<char>,
    rep: Seq<char>,
)
    requires
        !x.contains('&'),
        !y.contains('&'),
        is_entity(e),
        is_entity(pat),
    ensures
        e == pat ==> replaced(x + e + y, pat, rep) == x + rep + y,
        e != pat ==> replaced(x + e + y, pat, rep) == x + e + y,
{
    assert(x + e + y =~= x + (e + y));
    lemma_replaced_passes(x, e + y, pat, rep);
    lemma_replaced_absent(y, pat, rep);
    if e == pat {
        lemma_replaced_pattern(y, pat, rep);
        assert(x + (rep + y) =~= x + rep + y);
    } else {
        lemma_entity_mismatch(e, y, pat);
        let e1 = e.skip(1);
        assert(!e1.contains('&')) by {
            if e1.contains('&') {
                let k = choose|k: int| 0 <= k < e1.len() && e1[k] == '&';
                assert(e[k + 1] == '&');
            }
        }
        lemma_no_amp_concat(e1, y);
        lemma_replaced_absent(e1 + y, pat, rep);
        let z = e + y;
        assert(z[0] == e[0]);
        assert(z.skip(1) =~= e1 + y);
        assert(replaced(z, pat, rep) == seq![z[0]] + replaced(z.skip(1), pat, rep));
        assert(seq![e[0]] + (e1 + y) =~= e + y);
        assert(x + (e + y) =~= x + e + y);
    }
}

/// Each of `&quot;`, `&#39;`, `&lt;`, `&gt;` and `&nbsp;` in text without
/// another `&` decodes to its character, and the text around it is kept.
pub proof fn lemma_decode_entity(x: Seq<char>, y: Seq<char>)
    requires
        !x.contains('&'),
        !y.contains('&'),
    ensures
        decode_entities(x + quot_entity() + y) == x + seq!['"'] + y,
        decode_entities(x + apos_entity() + y) == x + seq!['\''] + y,
        decode_entities(x + lt_entity() + y) == x + seq!['<'] + y,
        decode_entities(x + gt_entity() + y) == x + seq!['>'] + y,
        decode_entities(x + nbsp_entity() + y) == x + seq![' '] + y,
{
    let pats = seq![amp_entity(), quot_entity(), apos_entity(), lt_entity(), gt_entity(), nbsp_entity()];
    assert(is_entity(amp_entity()));
    assert(is_entity(quot_entity()));
    assert(is_entity(apos_entity()));
    assert(is_entity(lt_entity()));
    assert(is_entity(gt_entity()));
    assert(is_entity(nbsp_entity()));
    assert(amp_entity() != quot_entity() && amp_entity() != apos_entity() && amp_entity()
        != lt_entity() && amp_entity() != gt_entity() && amp_entity() != nbsp_entity()) by {
        assert(amp_entity()[1] != quot_entity()[1]);
        assert(amp_entity()[1] != apos_entity()[1]);
        assert(amp_entity()[1] != lt_entity()[1]);
        assert(amp_entity()[1] != gt_entity()[1]);
        assert(amp_entity()[1] != nbsp_entity()[1]);
    }
    assert(quot_entity() != apos_entity() && quot_entity() != lt_entity() && quot_entity()
        != gt_entity() && quot_entity() != nbsp_entity()) by {
        assert(quot_entity()[1] != apos_entity()[1]);
        assert(quot_entity()[1] != lt_entity()[1]);
        assert(quot_entity()[1] != gt_entity()[1]);
        assert(quot_entity()[1] != nbsp_entity()[1]);
    }
    assert(apos_entity() != lt_entity() && apos_entity() != gt_entity() && apos_entity()
        != nbsp_entity()) by {
        assert(apos_entity()[1] != lt_entity()[1]);
        assert(apos_entity()[1] != gt_entity()[1]);
        assert(apos_entity()[1] != nbsp_entity()[1]);
    }
    assert(lt_entity() != gt_entity() && lt_entity() != nbsp_entity()) by {
        assert(lt_entity()[1] != gt_entity()[1]);
        assert(lt_entity()[1] != nbsp_entity()[1]);
    }
    assert(gt_entity() != nbsp_entity()) by {
        assert(gt_entity()[1] != nbsp_entity()[1]);
    }
    // one entity: kept by every replacement but its own, which leaves no `&`
    let reps = seq![seq!['&'], seq!['"'], seq!['\''], seq!['<'], seq!['>'], seq![' ']];
    assert forall|k: int| 1 <= k < 6 implies decode_entities(x + #[trigger] pats[k] + y) == x
        + reps[k] + y by {
        let e = pats[k];
        let c = reps[k];
        let r = x + c + y;
        assert(!c.contains('&')) by {
            if c.contains('&') {
                let i = choose|i: int| 0 <= i < c.len() && c[i] == '&';
                assert(i == 0);
            }
        }
        lemma_no_amp_concat(x, c);
        lemma_no_amp_concat(x + c, y);
        lemma_replaced_around(x, e, y, amp_entity(), seq!['&']);
        lemma_replaced_around(x, e, y, quot_entity(), seq!['"']);
        lemma_replaced_around(x, e, y, apos_entity(), seq!['\'']);
        lemma_replaced_around(x, e, y, lt_entity(), seq!['<']);
        lemma_replaced_around(x, e, y, gt_entity(), seq!['>']);
        lemma_replaced_around(x, e, y, nbsp_entity(), seq![' ']);
        lemma_replaced_absent(r, quot_entity(), seq!['"']);
        lemma_replaced_absent(r, apos_entity(), seq!['\'']);
        lemma_replaced_absent(r, lt_entity(), seq!['<']);
        lemma_replaced_absent(r, gt_entity(), seq!['>']);
        lemma_replaced_absent(r, nbsp_entity(), seq![' ']);
    }
    assert(pats[1] == quot_entity() && reps[1] == seq!['"']);
    assert(pats[2] == apos_entity() && reps[2] == seq!['\'']);
    assert(pats[3] == lt_entity() && reps[3] == seq!['<']);
    assert(pats[4] == gt_entity() && reps[4] == seq!['>']);
    assert(pats[5] == nbsp_entity() && reps[5] == seq![' ']);
}

} // verus!

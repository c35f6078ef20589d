//! JSON strings: how `serde_json` writes a string, and how a JSON reader
//! reads it back.
use vstd::prelude::*;
use crate::text::subst;

verus! {

/// A lowercase hexadecimal digit, for `0 <= n < 16`.
pub open spec fn hex_digit(n: int) -> char {
    seq!['0', '1', '2', '3', '4', '5', '6', '7', '8', '9', 'a', 'b', 'c', 'd', 'e', 'f'][n]
}

/// How `serde_json` writes one character inside a JSON string: `"` and `\`
/// behind a backslash, the five named control characters as `\b`, `\t`,
/// `\n`, `\f`, `\r`, every other character below U+0020 as `\u00` and two
/// lowercase hexadecimal digits, and every other character as it is.
pub open spec fn json_escape_char(c: char) -> Seq<char> {
    if c == '"' {
        seq!['\\', '"']
    } else if c == '\\' {
        seq!['\\', '\\']
    } else if c == '\u{8}' {
        seq!['\\', 'b']
    } else if c == '\t' {
        seq!['\\', 't']
    } else if c == '\n' {
        seq!['\\', 'n']
    } else if c == '\u{c}' {
        seq!['\\', 'f']
    } else if c == '\r' {
        seq!['\\', 'r']
    } else if (c as int) < 0x20 {
        seq!['\\', 'u', '0', '0', hex_digit(c as int / 16), hex_digit(c as int % 16)]
    } else {
        seq![c]
    }
}

/// The JSON text of the string `s`: `s` quoted, each character written as
/// `json_escape_char` says.
pub open spec fn json_string_text(s: Seq<char>) -> Seq<char> {
    seq!['"'] + subst(s, |c: char| json_escape_char(c)) + seq!['"']
}

/// The character that a JSON reader reads for the escape `\x`, where `x` is
/// one of `"`, `\`, `/`, `b`, `f`, `n`, `r`, `t`.
pub open spec fn json_simple_escape(x: char) -> Option<char> {
    if x == '"' {
        Some('"')
    } else if x == '\\' {
        Some('\\')
    } else if x == '/' {
        Some('/')
    } else if x == 'b' {
        Some('\u{8}')
    } else if x == 'f' {
        Some('\u{c}')
    } else if x == 'n' {
        Some('\n')
    } else if x == 'r' {
        Some('\r')
    } else if x == 't' {
        Some('\t')
    } else {
        None
    }
}

/// The value of a hexadecimal digit, or -1.
pub open spec fn hex_value(c: char) -> int {
    if '0' <= c <= '9' {
        c as int - '0' as int
    } else if 'a' <= c <= 'f' {
        c as int - 'a' as int + 10
    } else if 'A' <= c <= 'F' {
        c as int - 'A' as int + 10
    } else {
        -1
    }
}

/// The code of the escape `\uXXXX` at the start of `t`, or -1 where `t` does
/// not start with one.
pub open spec fn json_unicode_escape(t: Seq<char>) -> int {
    if t.len() >= 6 && t[0] == '\\' && t[1] == 'u' && hex_value(t[2]) >= 0 && hex_value(t[3])
        >= 0 && hex_value(t[4]) >= 0 && hex_value(t[5]) >= 0 {
        4096 * hex_value(t[2]) + 256 * hex_value(t[3]) + 16 * hex_value(t[4]) + hex_value(t[5])
    } else {
        -1
    }
}

/// The characters that a JSON reader reads from the inside of a JSON string
/// (between its quotes), one left-to-right pass: the escapes `\"`, `\\`,
/// `\/`, `\b`, `\f`, `\n`, `\r`, `\t` and `\uXXXX` (for a code that is not a
/// surrogate; surrogate pairs are not read here) give one character each,
/// every other character stands for itself.
pub open spec fn json_read_content(t: Seq<char>) -> Seq<char>
    decreases t.len(),
{
    if t.len() == 0 {
        seq![]
    } else if t.len() >= 2 && t[0] == '\\' && json_simple_escape(t[1]) is Some {
        seq![json_simple_escape(t[1])->0] + json_read_content(t.skip(2))
    } else if json_unicode_escape(t) >= 0 && !(0xD800 <= json_unicode_escape(t) < 0xE000) {
        seq![json_unicode_escape(t) as char] + json_read_content(t.skip(6))
    } else {
        seq![t[0]] + json_read_content(t.skip(1))
    }
}

proof fn lemma_hex_digit_value(n: int)
    requires
        0 <= n < 16,
    ensures
        hex_value(hex_digit(n)) == n,
{
    let d = seq!['0', '1', '2', '3', '4', '5', '6', '7', '8', '9', 'a', 'b', 'c', 'd', 'e', 'f'];
    assert(hex_digit(n) == d[n]);
    if n == 0 { assert(d[n] == '0'); } else if n == 1 { assert(d[n] == '1'); } else if n == 2 {
        assert(d[n] == '2');
    } else if n == 3 { assert(d[n] == '3'); } else if n == 4 { assert(d[n] == '4'); } else if n
        == 5 { assert(d[n] == '5'); } else if n == 6 { assert(d[n] == '6'); } else if n == 7 {
        assert(d[n] == '7');
    } else if n == 8 { assert(d[n] == '8'); } else if n == 9 { assert(d[n] == '9'); } else if n
        == 10 { assert(d[n] == 'a'); } else if n == 11 { assert(d[n] == 'b'); } else if n == 12 {
        assert(d[n] == 'c');
    } else if n == 13 { assert(d[n] == 'd'); } else if n == 14 { assert(d[n] == 'e'); } else {
        assert(d[n] == 'f');
    }
}

/// Reading the JSON form of one character, followed by any text, gives that
/// character back, followed by what the text reads as.
proof fn lemma_read_escaped_char(c: char, r: Seq<char>)
    ensures
        json_read_content(json_escape_char(c) + r) == seq![c] + json_read_content(r),
{
    let e = json_escape_char(c);
    let t = e + r;
    assert(forall|i: int| 0 <= i < e.len() ==> t[i] == e[i]);
    assert(t.skip(e.len() as int) =~= r);
    if e.len() == 6 {
        let n = c as int;
        assert(0 <= n < 0x20);
        lemma_hex_digit_value(n / 16);
        lemma_hex_digit_value(n % 16);
        assert(hex_value('0') == 0);
        assert(json_unicode_escape(t) == n);
        assert(json_simple_escape(t[1]) is None);
        assert((n as char) == c);
    } else if e.len() == 1 {
        assert(t[0] == c);
        assert(c != '\\');
        assert(json_unicode_escape(t) == -1);
    }
}

/// Reading the JSON form of a text's characters gives the text back.
proof fn lemma_read_escaped(s: Seq<char>)
    ensures
        json_read_content(subst(s, |c: char| json_escape_char(c))) == s,
    decreases s.len(),
{
    let f = |c: char| json_escape_char(c);
    if s.len() == 0 {
        assert(subst(s, f) =~= Seq::<char>::empty());
    } else {
        let s1 = s.skip(1);
        lemma_read_escaped(s1);
        assert(subst(s, f) == f(s[0]) + subst(s1, f));
        lemma_read_escaped_char(s[0], subst(s1, f));
        assert(seq![s[0]] + s1 =~= s);
    }
}

/// Whether `t` can stand between the quotes of a JSON string: no character
/// below U+0020, and every `"` follows a `\`.
pub open spec fn string_content_ok(t: Seq<char>) -> bool {
    forall|k: int|
        0 <= k < t.len() ==> (#[trigger] t[k] as int) >= 0x20 && (t[k] == '"' ==> k > 0 && t[k
            - 1] == '\\')
}

/// The JSON form of one character can stand between the quotes of a JSON
/// string.
proof fn lemma_escape_char_content(c: char)
    ensures
        json_escape_char(c).len() > 0,
        string_content_ok(json_escape_char(c)),
{
    let e = json_escape_char(c);
    if e.len() == 6 {
        let n = c as int;
        assert(0 <= n < 0x20);
        assert(0 <= n / 16 < 16 && 0 <= n % 16 < 16) by (nonlinear_arith)
            requires
                0 <= n < 0x20,
        ;
        let d = seq!['0', '1', '2', '3', '4', '5', '6', '7', '8', '9', 'a', 'b', 'c', 'd', 'e', 'f'];
        assert(forall|i: int| 0 <= i < 16 ==> (#[trigger] d[i] as int) >= 0x30);
        assert(hex_digit(n / 16) == d[n / 16]);
        assert(hex_digit(n % 16) == d[n % 16]);
    }
    assert forall|k: int| 0 <= k < e.len() implies (#[trigger] e[k] as int) >= 0x20 && (e[k]
        == '"' ==> k > 0 && e[k - 1] == '\\') by {}
}

/// The JSON form of a text's characters can stand between the quotes of a
/// JSON string.
proof fn lemma_escaped_is_string_content(s: Seq<char>)
    ensures
        string_content_ok(subst(s, |c: char| json_escape_char(c))),
    decreases s.len(),
{
    let f = |c: char| json_escape_char(c);
    if s.len() > 0 {
        let s1 = s.skip(1);
        lemma_escaped_is_string_content(s1);
        lemma_escape_char_content(s[0]);
        let e = f(s[0]);
        let r = subst(s1, f);
        let t = subst(s, f);
        assert(t == e + r);
        assert forall|k: int| 0 <= k < t.len() implies (#[trigger] t[k] as int) >= 0x20 && (t[k]
            == '"' ==> k > 0 && t[k - 1] == '\\') by {
            if k < e.len() {
                assert(t[k] == e[k]);
                if k > 0 {
                    assert(t[k - 1] == e[k - 1]);
                }
            } else {
                assert(t[k] == r[k - e.len()]);
                if k - e.len() > 0 {
                    assert(t[k - 1] == r[k - 1 - e.len()]);
                }
            }
        }
    }
}

/// A JSON string as `serde_json` writes it reads back as the text it was
/// written from: it is quoted, holds between its quotes no character below
/// U+0020 and no `"` that is not escaped, and what is between its quotes
/// reads as the text.
pub proof fn lemma_json_string_reads_back(s: Seq<char>)
    ensures
        ({
            let t = json_string_text(s);
            let inner = t.subrange(1, t.len() - 1);
            &&& t.len() >= 2
            &&& t[0] == '"'
            &&& t[t.len() - 1] == '"'
            &&& inner == subst(s, |c: char| json_escape_char(c))
            &&& string_content_ok(inner)
            &&& json_read_content(inner) == s
        }),
{
    let f = |c: char| json_escape_char(c);
    let body = subst(s, f);
    let t = json_string_text(s);
    assert(t == seq!['"'] + body + seq!['"']);
    assert(t.subrange(1, t.len() - 1) =~= body);
    lemma_read_escaped(s);
    lemma_escaped_is_string_content(s);
}

} // verus!

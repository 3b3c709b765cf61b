use vstd::prelude::*;
use crate::text::push_char;

verus! {

/// The lowercase hexadecimal digit for a value below 16.
pub open spec fn hex_digit(n: u32) -> char {
    if n < 10 {
        (('0' as u32) + n) as char
    } else {
        (('a' as u32) + n - 10) as char
    }
}

/// A control character that JSON forbids raw inside a string, or DEL.
pub open spec fn needs_unicode_escape(c: char) -> bool {
    (c as u32) < 0x20 || c == '\u{7f}'
}

/// How one character is written inside a JSON string literal.
pub open spec fn escape_char(c: char) -> Seq<char> {
    if c == '"' {
        seq!['\\', '"']
    } else if c == '\\' {
        seq!['\\', '\\']
    } else if c == '\n' {
        seq!['\\', 'n']
    } else if c == '\r' {
        seq!['\\', 'r']
    } else if c == '\t' {
        seq!['\\', 't']
    } else if c == '\u{08}' {
        seq!['\\', 'b']
    } else if c == '\u{0c}' {
        seq!['\\', 'f']
    } else if needs_unicode_escape(c) {
        seq!['\\', 'u', '0', '0', hex_digit((c as u32) / 16), hex_digit((c as u32) % 16)]
    } else {
        seq![c]
    }
}

/// The escaped body of a JSON string literal: each character escaped in turn.
pub open spec fn escape_all(s: Seq<char>) -> Seq<char>
    decreases s.len(),
{
    if s.len() == 0 {
        Seq::empty()
    } else {
        escape_all(s.drop_last()) + escape_char(s.last())
    }
}

/// A JSON string literal holding `s`.
pub open spec fn json_string(s: Seq<char>) -> Seq<char> {
    seq!['"'] + escape_all(s) + seq!['"']
}

fn hex_char(n: u32) -> (c: char)
    requires
        n < 16,
    ensures
        c == hex_digit(n),
{
    if n < 10 {
        let b: u8 = 48u8 + (n as u8);
        b as char
    } else {
        let b: u8 = 97u8 + ((n - 10) as u8);
        b as char
    }
}

fn push_escaped(out: &mut String, c: char)
    ensures
        final(out)@ == old(out)@ + escape_char(c),
{
    if c == '"' {
        out.append("\\\"");
        proof { reveal_strlit("\\\""); }
    } else if c == '\\' {
        out.append("\\\\");
        proof { reveal_strlit("\\\\"); }
    } else if c == '\n' {
        out.append("\\n");
        proof { reveal_strlit("\\n"); }
    } else if c == '\r' {
        out.append("\\r");
        proof { reveal_strlit("\\r"); }
    } else if c == '\t' {
        out.append("\\t");
        proof { reveal_strlit("\\t"); }
    } else if c == '\u{08}' {
        out.append("\\b");
        proof { reveal_strlit("\\b"); }
    } else if c == '\u{0c}' {
        out.append("\\f");
        proof { reveal_strlit("\\f"); }
    } else if (c as u32) < 0x20 || c == '\u{7f}' {
        let code: u32 = c as u32;
        out.append("\\u00");
        proof { reveal_strlit("\\u00"); }
        let hi = hex_char(code / 16);
        push_char(out, hi);
        let lo = hex_char(code % 16);
        push_char(out, lo);
    } else {
        push_char(out, c);
    }
}

/// Writes `value` as a JSON string literal: quoted, with `"`, `\` and every
/// control character escaped, and everything else (non-ASCII included) kept.
pub fn string(value: &str) -> (out: String)
    ensures
        out@ == json_string(value@),
{
    let mut out = String::new();
    push_char(&mut out, '"');
    let ghost mut done: Seq<char> = Seq::empty();
    for c in it: value.chars()
        invariant
            it.seq() == value@,
            done == value@.take(it.index() as int),
            out@ == seq!['"'] + escape_all(done),
    {
        proof {
            assert(value@.take(it.index() + 1).drop_last() =~= done);
            done = value@.take(it.index() + 1);
        }
        push_escaped(&mut out, c);
    }
    proof {
        assert(done =~= value@);
    }
    push_char(&mut out, '"');
    out
}

proof fn lemma_hex_digit(n: u32)
    requires
        n < 16,
    ensures
        0x30 <= hex_digit(n) as u32 <= 0x66,
        n < 10 ==> hex_digit(n) as u32 == 0x30 + n,
        n >= 10 ==> hex_digit(n) as u32 == 0x61 + n - 10,
{
}

proof fn lemma_escape_char_printable(c: char)
    ensures
        escape_char(c).len() >= 1,
        forall|i: int|
            0 <= i < escape_char(c).len() ==> !needs_unicode_escape(#[trigger] escape_char(c)[i]),
{
    if needs_unicode_escape(c) && c != '\n' && c != '\r' && c != '\t' && c != '\u{08}' && c
        != '\u{0c}' {
        lemma_hex_digit((c as u32) / 16);
        lemma_hex_digit((c as u32) % 16);
    }
}

/// Escaping never leaves a control character or DEL in the output.
pub proof fn lemma_escape_all_printable(s: Seq<char>)
    ensures
        forall|i: int|
            0 <= i < escape_all(s).len() ==> !needs_unicode_escape(#[trigger] escape_all(s)[i]),
        escape_all(s).len() >= s.len(),
    decreases s.len(),
{
    if s.len() > 0 {
        lemma_escape_all_printable(s.drop_last());
        lemma_escape_char_printable(s.last());
        let a = escape_all(s.drop_last());
        let b = escape_char(s.last());
        assert forall|i: int| 0 <= i < escape_all(s).len() implies !needs_unicode_escape(
            #[trigger] escape_all(s)[i],
        ) by {
            if i < a.len() {
                assert(escape_all(s)[i] == a[i]);
            } else {
                assert(escape_all(s)[i] == b[i - a.len()]);
            }
        }
    }
}

/// A JSON string literal written by `string` is quoted at both ends and holds no
/// raw control character or DEL, whatever it was made from: a value read from a
/// tampered file cannot carry a terminal escape or a line break into the output.
pub proof fn law_json_string_is_printable(s: Seq<char>)
    ensures
        json_string(s).len() >= 2,
        json_string(s)[0] == '"',
        json_string(s).last() == '"',
        forall|i: int|
            0 <= i < json_string(s).len() ==> !needs_unicode_escape(#[trigger] json_string(s)[i]),
{
    lemma_escape_all_printable(s);
    let e = escape_all(s);
    assert forall|i: int| 0 <= i < json_string(s).len() implies !needs_unicode_escape(
        #[trigger] json_string(s)[i],
    ) by {
        if 1 <= i <= e.len() {
            assert(json_string(s)[i] == e[i - 1]);
        }
    }
}

/// Escaping works character by character: the escape of a concatenation is
/// the concatenation of the escapes.
pub proof fn lemma_escape_all_append(a: Seq<char>, b: Seq<char>)
    ensures
        escape_all(a + b) == escape_all(a) + escape_all(b),
    decreases b.len(),
{
    if b.len() == 0 {
        assert(a + b =~= a);
        assert(escape_all(a) + escape_all(b) =~= escape_all(a));
    } else {
        lemma_escape_all_append(a, b.drop_last());
        assert((a + b).drop_last() =~= a + b.drop_last());
        assert(escape_all(a) + escape_all(b.drop_last()) + escape_char(b.last()) =~= escape_all(a)
            + (escape_all(b.drop_last()) + escape_char(b.last())));
    }
}

proof fn lemma_escape_all_front(s: Seq<char>)
    requires
        s.len() > 0,
    ensures
        escape_all(s) == escape_char(s[0]) + escape_all(s.drop_first()),
{
    lemma_escape_all_append(seq![s[0]], s.drop_first());
    assert(seq![s[0]] + s.drop_first() =~= s);
    let one = seq![s[0]];
    assert(one.drop_last() =~= Seq::<char>::empty());
    assert(one.last() == s[0]);
    assert(escape_all(one) == escape_all(one.drop_last()) + escape_char(s[0]));
    assert(escape_all(one) =~= escape_char(s[0]));
}

proof fn lemma_hex_injective(a: u32, b: u32)
    requires
        a < 16,
        b < 16,
        hex_digit(a) == hex_digit(b),
    ensures
        a == b,
{
    lemma_hex_digit(a);
    lemma_hex_digit(b);
}

/// No escape code is a proper prefix of another: the first code of an escaped
/// text determines the character it came from.
proof fn lemma_escape_char_prefix(x: char, y: char, r1: Seq<char>, r2: Seq<char>)
    requires
        escape_char(x) + r1 == escape_char(y) + r2,
    ensures
        x == y,
        r1 == r2,
{
    let ex = escape_char(x);
    let ey = escape_char(y);
    lemma_escape_char_printable(x);
    lemma_escape_char_printable(y);
    assert((ex + r1)[0] == ex[0]);
    assert((ey + r2)[0] == ey[0]);
    if ex[0] == '\\' {
        assert((ex + r1)[1] == ex[1]);
        assert((ey + r2)[1] == ey[1]);
        if ex[1] == 'u' {
            assert((ex + r1)[4] == ex[4]);
            assert((ey + r2)[4] == ey[4]);
            assert((ex + r1)[5] == ex[5]);
            assert((ey + r2)[5] == ey[5]);
            lemma_hex_injective((x as u32) / 16, (y as u32) / 16);
            lemma_hex_injective((x as u32) % 16, (y as u32) % 16);
            assert(x as u32 == y as u32);
            vstd::utf8::char_u32_cast(x, x as u32);
            vstd::utf8::char_u32_cast(y, y as u32);
        }
    }
    assert(ex == ey);
    assert(r1 =~= (ex + r1).skip(ex.len() as int));
    assert(r2 =~= (ey + r2).skip(ey.len() as int));
}

proof fn lemma_escape_all_injective(a: Seq<char>, b: Seq<char>)
    requires
        escape_all(a) == escape_all(b),
    ensures
        a == b,
    decreases a.len(),
{
    lemma_escape_all_printable(a);
    lemma_escape_all_printable(b);
    if a.len() == 0 {
        assert(b.len() == 0);
        assert(a =~= b);
    } else {
        assert(b.len() > 0);
        lemma_escape_all_front(a);
        lemma_escape_all_front(b);
        lemma_escape_char_prefix(a[0], b[0], escape_all(a.drop_first()), escape_all(b.drop_first()));
        lemma_escape_all_injective(a.drop_first(), b.drop_first());
        assert(a =~= seq![a[0]] + a.drop_first());
        assert(b =~= seq![b[0]] + b.drop_first());
    }
}

/// Different texts give different JSON string literals: the escaping loses nothing.
pub proof fn law_json_string_injective(a: Seq<char>, b: Seq<char>)
    requires
        json_string(a) == json_string(b),
    ensures
        a == b,
{
    let ea = escape_all(a);
    let eb = escape_all(b);
    assert(ea =~= json_string(a).subrange(1, json_string(a).len() - 1));
    assert(eb =~= json_string(b).subrange(1, json_string(b).len() - 1));
    lemma_escape_all_injective(a, b);
}

// ----------------------------------------------------------------------------
// Reading a JSON string back (RFC 8259, section 7)
// ----------------------------------------------------------------------------

/// A hexadecimal digit, either case.
pub open spec fn is_hex(c: char) -> bool {
    ('0' <= c <= '9') || ('a' <= c <= 'f') || ('A' <= c <= 'F')
}

/// The value of a hexadecimal digit.
pub open spec fn hex_value(c: char) -> int {
    if '0' <= c <= '9' {
        c as int - '0' as int
    } else if 'a' <= c <= 'f' {
        c as int - 'a' as int + 10
    } else {
        c as int - 'A' as int + 10
    }
}

/// `t[i..i + 4]` are hexadecimal digits.
pub open spec fn hex4_at(t: Seq<char>, i: int) -> bool {
    0 <= i && i + 4 <= t.len() && is_hex(t[i]) && is_hex(t[i + 1]) && is_hex(t[i + 2])
        && is_hex(t[i + 3])
}

/// The value of the four hexadecimal digits at `t[i..i + 4]`.
pub open spec fn hex4_value(t: Seq<char>, i: int) -> int {
    hex_value(t[i]) * 4096 + hex_value(t[i + 1]) * 256 + hex_value(t[i + 2]) * 16 + hex_value(
        t[i + 3],
    )
}

/// `c` followed by the decoded rest, if the rest decodes.
pub open spec fn prepend(c: char, rest: Option<Seq<char>>) -> Option<Seq<char>> {
    match rest {
        Some(r) => Some(seq![c] + r),
        None => None,
    }
}

/// Decodes the characters of a JSON string that follow its opening quote: the
/// text must end at the first unescaped `"`. Raw characters below U+0020 are
/// refused; escapes are `\"`, `\\`, `\/`, `\b`, `\f`, `\n`, `\r`, `\t` and
/// `\uXXXX`, where a high surrogate must be followed by `\uXXXX` holding a low one.
pub open spec fn decode_body(t: Seq<char>) -> Option<Seq<char>>
    decreases t.len(),
{
    if t.len() == 0 {
        None
    } else if t[0] == '"' {
        if t.len() == 1 {
            Some(Seq::empty())
        } else {
            None
        }
    } else if t[0] == '\\' {
        if t.len() < 2 {
            None
        } else if t[1] == '"' {
            prepend('"', decode_body(t.skip(2)))
        } else if t[1] == '\\' {
            prepend('\\', decode_body(t.skip(2)))
        } else if t[1] == '/' {
            prepend('/', decode_body(t.skip(2)))
        } else if t[1] == 'b' {
            prepend('\u{08}', decode_body(t.skip(2)))
        } else if t[1] == 'f' {
            prepend('\u{0c}', decode_body(t.skip(2)))
        } else if t[1] == 'n' {
            prepend('\n', decode_body(t.skip(2)))
        } else if t[1] == 'r' {
            prepend('\r', decode_body(t.skip(2)))
        } else if t[1] == 't' {
            prepend('\t', decode_body(t.skip(2)))
        } else if t[1] == 'u' && hex4_at(t, 2) {
            let v = hex4_value(t, 2);
            if 0xdc00 <= v <= 0xdfff {
                None
            } else if 0xd800 <= v <= 0xdbff {
                if t.len() >= 12 && t[6] == '\\' && t[7] == 'u' && hex4_at(t, 8) && 0xdc00
                    <= hex4_value(t, 8) <= 0xdfff {
                    prepend(
                        (0x10000 + (v - 0xd800) * 1024 + (hex4_value(t, 8) - 0xdc00)) as char,
                        decode_body(t.skip(12)),
                    )
                } else {
                    None
                }
            } else {
                prepend(v as char, decode_body(t.skip(6)))
            }
        } else {
            None
        }
    } else if (t[0] as u32) < 0x20 {
        None
    } else {
        prepend(t[0], decode_body(t.drop_first()))
    }
}

/// JSON's insignificant white space: space, tab, line feed, carriage return.
pub open spec fn is_json_ws(c: char) -> bool {
    c == ' ' || c == '\t' || c == '\n' || c == '\r'
}

/// `t` without leading JSON white space.
pub open spec fn skip_json_ws(t: Seq<char>) -> Seq<char>
    decreases t.len(),
{
    if t.len() > 0 && is_json_ws(t[0]) {
        skip_json_ws(t.drop_first())
    } else {
        t
    }
}

/// `t` without trailing JSON white space.
pub open spec fn drop_json_ws(t: Seq<char>) -> Seq<char>
    decreases t.len(),
{
    if t.len() > 0 && is_json_ws(t.last()) {
        drop_json_ws(t.drop_last())
    } else {
        t
    }
}

/// The string that a JSON text holds, when the text is a single string value
/// (optionally surrounded by white space).
pub open spec fn parse_json_string_text(t: Seq<char>) -> Option<Seq<char>> {
    let v = drop_json_ws(skip_json_ws(t));
    if v.len() > 0 && v[0] == '"' {
        decode_body(v.drop_first())
    } else {
        None
    }
}

proof fn lemma_hex_value_of_digit(n: u32)
    requires
        n < 16,
    ensures
        is_hex(hex_digit(n)),
        hex_value(hex_digit(n)) == n,
{
    lemma_hex_digit(n);
}

/// Decoding an escaped character followed by more text gives the character
/// followed by the decoding of that text.
proof fn lemma_decode_escape_char(c: char, tail: Seq<char>)
    ensures
        decode_body(escape_char(c) + tail) == prepend(c, decode_body(tail)),
{
    let e = escape_char(c);
    let t = e + tail;
    lemma_escape_char_printable(c);
    if c == '"' || c == '\\' || c == '\n' || c == '\r' || c == '\t' || c == '\u{08}' || c
        == '\u{0c}' {
        assert(t[0] == '\\');
        assert(t[1] == e[1]);
        assert(t.skip(2) =~= tail);
    } else if needs_unicode_escape(c) {
        let u = c as u32;
        lemma_hex_value_of_digit(u / 16);
        lemma_hex_value_of_digit(u % 16);
        assert(t[0] == '\\');
        assert(t[1] == 'u');
        assert(t[2] == '0' && t[3] == '0');
        assert(t[4] == hex_digit(u / 16));
        assert(t[5] == hex_digit(u % 16));
        assert(hex4_at(t, 2));
        assert(hex4_value(t, 2) == u);
        vstd::utf8::char_u32_cast(c, u);
        assert(t.skip(6) =~= tail);
    } else {
        assert(t[0] == c);
        assert(t.drop_first() =~= tail);
    }
}

proof fn lemma_decode_escape_all(s: Seq<char>)
    ensures
        decode_body(escape_all(s) + seq!['"']) == Some(s),
    decreases s.len(),
{
    if s.len() == 0 {
        assert(escape_all(s) + seq!['"'] =~= seq!['"']);
        assert(Seq::<char>::empty() =~= s);
    } else {
        lemma_escape_all_front(s);
        let rest = escape_all(s.drop_first()) + seq!['"'];
        assert(escape_all(s) + seq!['"'] =~= escape_char(s[0]) + rest);
        lemma_decode_escape_char(s[0], rest);
        lemma_decode_escape_all(s.drop_first());
        assert(seq![s[0]] + s.drop_first() =~= s);
    }
}

/// Read as a JSON text, what `string` writes is exactly one string value, and
/// that value is the input, character for character.
pub proof fn law_json_string_parses_back(s: Seq<char>)
    ensures
        parse_json_string_text(json_string(s)) == Some(s),
{
    let j = json_string(s);
    assert(j[0] == '"');
    assert(skip_json_ws(j) == j);
    assert(j.last() == '"');
    assert(drop_json_ws(j) == j);
    assert(j.drop_first() =~= escape_all(s) + seq!['"']);
    lemma_decode_escape_all(s);
}

/// Which escape each character gets: `"` and `\` are backslash-escaped, the
/// five controls with a short form use it, every other control character and
/// DEL is written `\u00` and two lowercase hex digits of its code, and every
/// other character is copied unchanged.
pub proof fn law_json_escape_forms(c: char)
    ensures
        c == '"' ==> escape_char(c) == seq!['\\', '"'],
        c == '\\' ==> escape_char(c) == seq!['\\', '\\'],
        c == '\n' ==> escape_char(c) == seq!['\\', 'n'],
        c == '\r' ==> escape_char(c) == seq!['\\', 'r'],
        c == '\t' ==> escape_char(c) == seq!['\\', 't'],
        c == '\u{08}' ==> escape_char(c) == seq!['\\', 'b'],
        c == '\u{0c}' ==> escape_char(c) == seq!['\\', 'f'],
        ((c as u32) < 0x20 || c == '\u{7f}') && c != '\n' && c != '\r' && c != '\t' && c
            != '\u{08}' && c != '\u{0c}' ==> {
            let e = escape_char(c);
            &&& e.len() == 6
            &&& e.take(4) == seq!['\\', 'u', '0', '0']
            &&& (e[4] as u32) == (if (c as u32) / 16 < 10 {
                0x30 + (c as u32) / 16
            } else {
                0x61 + (c as u32) / 16 - 10
            })
            &&& (e[5] as u32) == (if (c as u32) % 16 < 10 {
                0x30 + (c as u32) % 16
            } else {
                0x61 + (c as u32) % 16 - 10
            })
        },
        (c as u32) >= 0x20 && c != '\u{7f}' && c != '"' && c != '\\' ==> escape_char(c) == seq![c],
{
    if ((c as u32) < 0x20 || c == '\u{7f}') && c != '\n' && c != '\r' && c != '\t' && c
        != '\u{08}' && c != '\u{0c}' {
        lemma_hex_digit((c as u32) / 16);
        lemma_hex_digit((c as u32) % 16);
        assert(escape_char(c).take(4) =~= seq!['\\', 'u', '0', '0']);
    }
}

} // verus!

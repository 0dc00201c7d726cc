//! Character classes that matter when text is shown to a user, and the escape
//! that makes a hidden character visible.

use vstd::prelude::*;

verus! {

/// Appends one character.
///
/// Trusted: `String::push` appends the given character to the end of the string
/// and leaves what was there before in place.
pub assume_specification[ std::string::String::push ](s: &mut std::string::String, c: char)
    ensures
        final(s)@ == old(s)@.push(c),
;

/// The control codes: general category Cc.
pub open spec fn control_char(c: char) -> bool {
    ||| c as u32 <= 0x1f
    ||| 0x7f <= c as u32 <= 0x9f
}

/// The characters with the White_Space property.
pub open spec fn whitespace_char(c: char) -> bool {
    ||| 0x9 <= c as u32 <= 0xd
    ||| c as u32 == 0x20
    ||| c as u32 == 0x85
    ||| c as u32 == 0xa0
    ||| c as u32 == 0x1680
    ||| 0x2000 <= c as u32 <= 0x200a
    ||| c as u32 == 0x2028
    ||| c as u32 == 0x2029
    ||| c as u32 == 0x202f
    ||| c as u32 == 0x205f
    ||| c as u32 == 0x3000
}

/// The Unicode tag block.
pub open spec fn tag_char(c: char) -> bool {
    0xe0000 <= c as u32 <= 0xe007f
}

/// Characters that render as nothing or reorder the text around them: control
/// codes, bidirectional controls, zero-width and other format characters, and
/// the tag block.
pub open spec fn invisible_char(c: char) -> bool {
    ||| control_char(c)
    ||| c == '\u{00AD}'
    ||| c == '\u{061C}'
    ||| 0x200b <= c as u32 <= 0x200f
    ||| 0x202a <= c as u32 <= 0x202e
    ||| 0x2060 <= c as u32 <= 0x2064
    ||| 0x2066 <= c as u32 <= 0x2069
    ||| c == '\u{FEFF}'
    ||| 0xfff9 <= c as u32 <= 0xfffb
    ||| tag_char(c)
}

/// Some character of `text` is invisible.
pub open spec fn has_invisible(text: Seq<char>) -> bool {
    exists|i: int| 0 <= i < text.len() && invisible_char(#[trigger] text[i])
}

/// Some character of `text` is in the tag block.
pub open spec fn has_tag(text: Seq<char>) -> bool {
    exists|i: int| 0 <= i < text.len() && tag_char(#[trigger] text[i])
}

/// Whether `c` is a control code.
pub fn is_control(c: char) -> (r: bool)
    ensures
        r == control_char(c),
{
    matches!(c, '\u{0}'..='\u{1F}' | '\u{7F}'..='\u{9F}')
}

/// Whether `c` has the White_Space property.
pub fn is_whitespace(c: char) -> (r: bool)
    ensures
        r == whitespace_char(c),
{
    matches!(c,
        '\u{9}'..='\u{D}'
        | ' '
        | '\u{85}'
        | '\u{A0}'
        | '\u{1680}'
        | '\u{2000}'..='\u{200A}'
        | '\u{2028}'
        | '\u{2029}'
        | '\u{202F}'
        | '\u{205F}'
        | '\u{3000}'
    )
}

/// Whether `c` has to be escaped before it is shown.
///
/// Control codes are not all of it: bidirectional and other format characters
/// render as nothing or reorder the text around them.
pub fn is_invisible(c: char) -> (r: bool)
    ensures
        r == invisible_char(c),
{
    is_control(c)
        || matches!(c,
            '\u{00AD}'                    // soft hyphen
            | '\u{061C}'                  // arabic letter mark
            | '\u{200B}'..='\u{200F}'     // zero-width space .. RLM
            | '\u{202A}'..='\u{202E}'     // bidi embeddings / override
            | '\u{2060}'..='\u{2064}'     // word joiner .. invisible plus
            | '\u{2066}'..='\u{2069}'     // bidi isolates
            | '\u{FEFF}'                  // zero-width no-break space / BOM
            | '\u{FFF9}'..='\u{FFFB}'     // interlinear annotation
            | '\u{E0000}'..='\u{E007F}'   // tag block
        )
}

/// Whether `c` is in the tag block.
pub fn is_unicode_tag(c: char) -> (r: bool)
    ensures
        r == tag_char(c),
{
    matches!(c, '\u{E0000}'..='\u{E007F}')
}

/// Whether `text` holds a character of the tag block.
pub fn contains_unicode_tags(text: &str) -> (r: bool)
    ensures
        r == has_tag(text@),
{
    for c in it: text.chars()
        invariant
            it.seq() == text@,
            forall|i: int| 0 <= i < it.index() ==> !tag_char(#[trigger] text@[i]),
    {
        if is_unicode_tag(c) {
            assert(tag_char(text@[it.index() as int]));
            return true;
        }
    }
    false
}

/// Whether `text` holds an invisible character.
pub fn contains_invisible(text: &str) -> (r: bool)
    ensures
        r == has_invisible(text@),
{
    for c in it: text.chars()
        invariant
            it.seq() == text@,
            forall|i: int| 0 <= i < it.index() ==> !invisible_char(#[trigger] text@[i]),
    {
        if is_invisible(c) {
            assert(invisible_char(text@[it.index() as int]));
            return true;
        }
    }
    false
}

/// The hexadecimal digit for `d`, in lower case.
pub open spec fn hex_digit(d: nat) -> char {
    if d < 10 {
        (48 + d) as char
    } else {
        (87 + d) as char
    }
}

/// `n` in hexadecimal, without leading zeros.
pub open spec fn hex(n: nat) -> Seq<char>
    decreases n,
{
    if n < 16 {
        seq![hex_digit(n)]
    } else {
        hex(n / 16).push(hex_digit(n % 16))
    }
}

/// The escape of `c` by its code point, such as `\u{202e}`.
pub open spec fn unicode_escape(c: char) -> Seq<char> {
    seq!['\\', 'u', '{'] + hex(c as nat) + seq!['}']
}

fn push_hex(out: &mut String, n: u32)
    ensures
        final(out)@ == old(out)@ + hex(n as nat),
    decreases n,
{
    if n >= 16 {
        push_hex(out, n / 16);
    }
    let d: u8 = (n % 16) as u8;
    let digit: char = if d < 10 { (48 + d) as char } else { (87 + d) as char };
    out.push(digit);
    assert(out@ =~= old(out)@ + hex(n as nat));
}

/// Appends the escape of `c` to `out`.
pub fn push_unicode_escape(out: &mut String, c: char)
    ensures
        final(out)@ == old(out)@ + unicode_escape(c),
{
    out.push('\\');
    out.push('u');
    out.push('{');
    push_hex(out, c as u32);
    out.push('}');
    assert(out@ =~= old(out)@ + unicode_escape(c));
}

/// The invisible characters, by their code points: the control codes, the soft hyphen,
/// the marks and overrides of writing direction, the zero-width characters, the
/// annotation characters and the tag block.
pub proof fn lemma_invisible_code_points(c: char)
    ensures
        invisible_char(c) <==> {
            ||| c as u32 <= 0x1f
            ||| 0x7f <= c as u32 <= 0x9f
            ||| c as u32 == 0xad
            ||| c as u32 == 0x61c
            ||| 0x200b <= c as u32 <= 0x200f
            ||| 0x202a <= c as u32 <= 0x202e
            ||| 0x2060 <= c as u32 <= 0x2064
            ||| 0x2066 <= c as u32 <= 0x2069
            ||| c as u32 == 0xfeff
            ||| 0xfff9 <= c as u32 <= 0xfffb
            ||| 0xe0000 <= c as u32 <= 0xe007f
        },
{
}

/// The control codes, the white space and the tag block, by their code points.
pub proof fn lemma_class_code_points(c: char)
    ensures
        control_char(c) <==> c as u32 <= 0x1f || 0x7f <= c as u32 <= 0x9f,
        tag_char(c) <==> 0xe0000 <= c as u32 <= 0xe007f,
        whitespace_char(c) <==> {
            ||| 0x9 <= c as u32 <= 0xd
            ||| c as u32 == 0x20
            ||| c as u32 == 0x85
            ||| c as u32 == 0xa0
            ||| c as u32 == 0x1680
            ||| 0x2000 <= c as u32 <= 0x200a
            ||| c as u32 == 0x2028
            ||| c as u32 == 0x2029
            ||| c as u32 == 0x202f
            ||| c as u32 == 0x205f
            ||| c as u32 == 0x3000
        },
{
}

/// One invisible character anywhere in a text is found, and one of the tag block too.
pub proof fn lemma_hidden_anywhere(text: Seq<char>, i: int)
    requires
        0 <= i < text.len(),
    ensures
        invisible_char(text[i]) ==> has_invisible(text),
        0xe0000 <= text[i] as u32 <= 0xe007f ==> has_tag(text) && has_invisible(text),
{
}

/// Nothing hidden is found in a text that hides nothing.
pub proof fn lemma_nothing_hidden(text: Seq<char>)
    ensures
        (forall|i: int| 0 <= i < text.len() ==> !invisible_char(#[trigger] text[i]))
            ==> !has_invisible(text),
        (forall|i: int|
            0 <= i < text.len() ==> !(0xe0000 <= (#[trigger] text[i]) as u32 <= 0xe007f))
            ==> !has_tag(text),
{
}

/// A number is written with its lowest digit last, in front of that the number without
/// the digit, and nothing where that is zero.
pub proof fn lemma_hex_by_digits(n: nat)
    ensures
        hex(n).len() > 0,
        hex(n).last() == "0123456789abcdef"@[(n % 16) as int],
        n < 16 ==> hex(n).len() == 1,
        n >= 16 ==> hex(n).drop_last() == hex(n / 16),
{
    reveal_strlit("0123456789abcdef");
    if n >= 16 {
        assert(hex(n).drop_last() =~= hex(n / 16));
    }
}

/// A character is escaped by its code point, between braces.
pub proof fn lemma_escape_by_code_point(c: char)
    ensures
        unicode_escape(c) == "\\u{"@ + hex(c as nat) + "}"@,
{
    reveal_strlit("\\u{");
    reveal_strlit("}");
    assert("\\u{"@ =~= seq!['\\', 'u', '{']);
    assert("}"@ =~= seq!['}']);
}

} // verus!

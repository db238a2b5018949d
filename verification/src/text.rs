//! Text helpers: UTF-8 decoding, line endings, decimal numbers and quoting.

use vstd::prelude::*;
use vstd::string::StringExecFns;
use vstd::utf8::*;

verus! {

/// What an optional value looks like through its view.
pub open spec fn opt_view<T: View>(value: Option<T>) -> Option<T::V> {
    match value {
        Some(inner) => Some(inner@),
        None => None,
    }
}

/// `<str as PartialEq>::eq`: two string slices are equal exactly when they hold the same
/// characters.
pub assume_specification[ <str as PartialEq>::eq ](s: &str, other: &str) -> (res: bool)
    ensures
        res == (s@ == other@),
;

/// `String::push` appends one character and leaves the characters before it alone.
pub assume_specification[ std::string::String::push ](s: &mut std::string::String, ch: char)
    ensures
        final(s)@ == old(s)@.push(ch),
;

/// The error of `String::from_utf8`; nothing inside it is looked at.
#[verifier::external_type_specification]
#[verifier::external_body]
pub struct ExFromUtf8Error(std::string::FromUtf8Error);

/// `String::from_utf8` succeeds exactly on well-formed UTF-8, and the string then holds
/// the characters that the bytes encode.
pub assume_specification[ std::string::String::from_utf8 ](vec: Vec<u8>) -> (res: Result<
    std::string::String,
    std::string::FromUtf8Error,
>)
    ensures
        res is Ok <==> valid_utf8(vec@),
        res matches Ok(text) ==> text@ == decode_utf8(vec@),
;

/// The text that the bytes encode, if they are well-formed UTF-8.
pub open spec fn decoded(bytes: Seq<u8>) -> Option<Seq<char>> {
    if valid_utf8(bytes) {
        Some(decode_utf8(bytes))
    } else {
        None
    }
}

/// Decodes a payload, if it is well-formed UTF-8.
pub fn decode(bytes: Vec<u8>) -> (text: Option<String>)
    ensures
        opt_view(text) == decoded(bytes@),
{
    match String::from_utf8(bytes) {
        Ok(text) => Some(text),
        Err(_) => None,
    }
}

/// Decoding gives back the text that was encoded.
pub proof fn law_encoded_text_decodes_to_itself(text: Seq<char>)
    ensures
        decoded(encode_utf8(text)) == Some(text),
{
    encode_utf8_valid_utf8(text);
    encode_utf8_decode_utf8(text);
}

/// A payload decodes to a text exactly where it is the encoding of that text.
pub proof fn law_decoding_inverts_encoding(bytes: Vec<u8>, text: Option<String>, chars: Seq<char>)
    requires
        call_ensures(decode, (bytes,), text),
    ensures
        bytes@ == encode_utf8(chars) <==> (text matches Some(text) && text@ == chars),
{
    encode_utf8_valid_utf8(chars);
    encode_utf8_decode_utf8(chars);
    if valid_utf8(bytes@) {
        decode_utf8_encode_utf8(bytes@);
    }
}

/// A payload that decodes is the encoding of what it decodes to, and one that does not decode
/// encodes no text.
pub proof fn law_decoded_text_encodes_to_the_payload(bytes: Seq<u8>, chars: Seq<char>)
    ensures
        decoded(bytes) == Some(chars) <==> bytes == encode_utf8(chars),
{
    encode_utf8_valid_utf8(chars);
    encode_utf8_decode_utf8(chars);
    if valid_utf8(bytes) {
        decode_utf8_encode_utf8(bytes);
    }
}

/// The text `s` ends in a carriage return followed by a line feed.
pub open spec fn ends_in_crlf(s: Seq<char>) -> bool {
    s.len() >= 2 && s[s.len() - 2] == '\r' && s[s.len() - 1] == '\n'
}

/// The text with every carriage return and line feed pair replaced by a line feed.
pub open spec fn unix_text(s: Seq<char>) -> Seq<char>
    decreases s.len(),
{
    if s.len() == 0 {
        s
    } else if ends_in_crlf(s) {
        unix_text(s.take(s.len() - 2)).push('\n')
    } else {
        unix_text(s.drop_last()).push(s.last())
    }
}

/// How one more character changes the normalized text: a line feed takes the place of a
/// carriage return right before it, anything else is appended.
proof fn lemma_unix_text_push(s: Seq<char>, c: char)
    ensures
        s.len() > 0 && s.last() == '\r' && c == '\n' ==> unix_text(s.push(c)) == unix_text(
            s.drop_last(),
        ).push('\n'),
        !(s.len() > 0 && s.last() == '\r' && c == '\n') ==> unix_text(s.push(c)) == unix_text(
            s,
        ).push(c),
{
    let t = s.push(c);
    assert(t.drop_last() =~= s);
    if s.len() > 0 && s.last() == '\r' && c == '\n' {
        assert(t.take(t.len() - 2) =~= s.drop_last());
    }
}

/// Replaces every carriage return and line feed pair by a line feed.
pub fn unix_line_endings(text: &str) -> (res: String)
    ensures
        res@ == unix_text(text@),
{
    let mut out = String::new();
    let mut held: bool = false;
    assert(text@.take(0) =~= Seq::<char>::empty());
    for c in iter: text.chars()
        invariant
            iter.seq() == text@,
            held ==> iter.index() > 0 && text@[iter.index() - 1] == '\r',
            !held && iter.index() > 0 ==> text@[iter.index() - 1] != '\r',
            held ==> out@ == unix_text(text@.take(iter.index() - 1)),
            !held ==> out@ == unix_text(text@.take(iter.index() as int)),
    {
        let ghost seen = text@.take(iter.index() as int);
        proof {
            assert(text@.take(iter.index() + 1) =~= seen.push(c));
            lemma_unix_text_push(seen, c);
            if seen.len() > 0 {
                assert(seen.drop_last() =~= text@.take(iter.index() - 1));
                assert(seen =~= seen.drop_last().push(seen.last()));
                lemma_unix_text_push(seen.drop_last(), seen.last());
            }
        }
        if held && c != '\n' {
            out.push('\r');
        }
        if c == '\r' {
            held = true;
        } else {
            out.push(c);
            held = false;
        }
    }
    assert(text@.take(text@.len() as int) =~= text@);
    if held {
        proof {
            lemma_unix_text_push(text@.drop_last(), '\r');
            assert(text@.drop_last() =~= text@.take(text@.len() - 1));
            assert(text@.drop_last().push('\r') =~= text@);
        }
        out.push('\r');
    }
    out
}

/// Somewhere in `s` a carriage return is followed by a line feed.
pub open spec fn has_crlf(s: Seq<char>) -> bool {
    exists|i: int| 0 <= i < s.len() - 1 && #[trigger] s[i] == '\r' && s[i + 1] == '\n'
}

/// Somewhere in `s` two carriage returns are followed by a line feed.
pub open spec fn has_crcrlf(s: Seq<char>) -> bool {
    exists|i: int|
        0 <= i < s.len() - 2 && #[trigger] s[i] == '\r' && s[i + 1] == '\r' && s[i + 2] == '\n'
}

/// Text without a carriage return and line feed pair is left as it is.
pub proof fn law_unix_text_is_unchanged(s: Seq<char>)
    requires
        !has_crlf(s),
    ensures
        unix_text(s) == s,
    decreases s.len(),
{
    if s.len() > 0 {
        if ends_in_crlf(s) {
            assert(s[s.len() - 2] == '\r');
        }
        assert forall|i: int| 0 <= i < s.drop_last().len() - 1 implies !(
        #[trigger] s.drop_last()[i] == '\r' && s.drop_last()[i + 1] == '\n') by {
            assert(s[i] == s.drop_last()[i]);
        }
        law_unix_text_is_unchanged(s.drop_last());
        assert(s.drop_last().push(s.last()) =~= s);
    }
}

/// The normalized text ends in a carriage return only where the text itself does.
proof fn lemma_unix_text_last(s: Seq<char>)
    requires
        s.len() > 0,
    ensures
        unix_text(s).len() > 0,
        unix_text(s).last() == s.last(),
{
}

/// No carriage return and line feed pair is left after normalizing, unless the text holds
/// one with another carriage return in front of it.
pub proof fn law_unix_text_has_no_crlf(s: Seq<char>)
    requires
        !has_crcrlf(s),
    ensures
        !has_crlf(unix_text(s)),
    decreases s.len(),
{
    if s.len() > 0 {
        let out = unix_text(s);
        let cut = if ends_in_crlf(s) {
            s.take(s.len() - 2)
        } else {
            s.drop_last()
        };
        assert forall|i: int| 0 <= i < cut.len() - 2 implies !(#[trigger] cut[i] == '\r' && cut[i
            + 1] == '\r' && cut[i + 2] == '\n') by {
            assert(s[i] == cut[i]);
        }
        law_unix_text_has_no_crlf(cut);
        let head = unix_text(cut);
        if cut.len() > 0 {
            lemma_unix_text_last(cut);
            if ends_in_crlf(s) {
                assert(s[s.len() - 3] == cut.last());
            }
        }
        assert forall|i: int| 0 <= i < out.len() - 1 implies !(#[trigger] out[i] == '\r' && out[i
            + 1] == '\n') by {
            if i < head.len() - 1 {
                assert(head[i] == out[i]);
            }
        }
    }
}

/// Normalizing text a second time changes nothing, unless the text holds two carriage
/// returns in front of a line feed.
pub proof fn law_unix_text_twice(s: Seq<char>)
    requires
        !has_crcrlf(s),
    ensures
        unix_text(unix_text(s)) == unix_text(s),
{
    law_unix_text_has_no_crlf(s);
    law_unix_text_is_unchanged(unix_text(s));
}

/// A carriage return and line feed pair anywhere in a text becomes a line feed, and what is on
/// either side of it is normalized by itself.
pub proof fn law_unix_text_replaces_each_pair(before: Seq<char>, after: Seq<char>)
    ensures
        unix_text(before + seq!['\r', '\n'] + after) == unix_text(before) + seq!['\n'] + unix_text(
            after,
        ),
    decreases after.len(),
{
    let pair = seq!['\r', '\n'];
    let whole = before + pair + after;
    if after.len() == 0 {
        assert(whole =~= (before + pair));
        assert(ends_in_crlf(whole));
        assert(whole.take(whole.len() - 2) =~= before);
        assert(unix_text(before).push('\n') =~= unix_text(before) + seq!['\n'] + unix_text(after));
    } else if ends_in_crlf(after) {
        let cut = after.take(after.len() - 2);
        law_unix_text_replaces_each_pair(before, cut);
        assert(whole[whole.len() - 2] == after[after.len() - 2]);
        assert(ends_in_crlf(whole));
        assert(whole.take(whole.len() - 2) =~= before + pair + cut);
        assert(unix_text(before + pair + cut).push('\n') =~= unix_text(before) + seq!['\n']
            + unix_text(cut).push('\n'));
    } else {
        let cut = after.drop_last();
        law_unix_text_replaces_each_pair(before, cut);
        if ends_in_crlf(whole) {
            if after.len() == 1 {
                assert(whole[whole.len() - 2] == '\n');
            } else {
                assert(whole[whole.len() - 2] == after[after.len() - 2]);
            }
        }
        assert(whole.drop_last() =~= before + pair + cut);
        assert(unix_text(before + pair + cut).push(after.last()) =~= unix_text(before) + seq!['\n']
            + unix_text(cut).push(after.last()));
    }
}

/// Text without a carriage return and line feed pair comes back as it is.
pub proof fn law_other_text_keeps_its_line_endings(text: &str, res: String)
    requires
        call_ensures(unix_line_endings, (text,), res),
        forall|i: int|
            0 <= i < text@.len() - 1 ==> !(#[trigger] text@[i] == '\r' && text@[i + 1] == '\n'),
    ensures
        res@ == text@,
{
    law_unix_text_is_unchanged(text@);
}

/// A carriage return and line feed pair between two texts becomes a line feed between what
/// the two texts become.
pub proof fn law_line_endings_are_replaced_one_by_one(
    before: &str,
    after: &str,
    whole: &str,
    before_res: String,
    after_res: String,
    whole_res: String,
)
    requires
        whole@ == before@ + seq!['\r', '\n'] + after@,
        call_ensures(unix_line_endings, (before,), before_res),
        call_ensures(unix_line_endings, (after,), after_res),
        call_ensures(unix_line_endings, (whole,), whole_res),
    ensures
        whole_res@ == before_res@ + seq!['\n'] + after_res@,
{
    law_unix_text_replaces_each_pair(before@, after@);
}

/// The decimal digit `d` as a character.
pub open spec fn digit(d: int) -> char
    recommends
        0 <= d < 10,
{
    (48 + d) as char
}

/// The decimal digits of `n`, the most significant first.
pub open spec fn decimal(n: int) -> Seq<char>
    decreases n,
{
    if n < 10 {
        seq![digit(n)]
    } else {
        decimal(n / 10).push(digit(n % 10))
    }
}

/// Appends the decimal digits of `n`.
pub fn push_decimal(out: &mut String, n: u32)
    ensures
        final(out)@ == old(out)@ + decimal(n as int),
    decreases n,
{
    if n >= 10 {
        push_decimal(out, n / 10);
    }
    let last: u8 = (n % 10) as u8;
    out.push((48 + last) as char);
    assert(out@ =~= old(out)@ + decimal(n as int));
}

/// Different numbers have different decimal digits.
pub proof fn law_decimal_is_injective(a: int, b: int)
    requires
        0 <= a,
        0 <= b,
        decimal(a) == decimal(b),
    ensures
        a == b,
    decreases a,
{
    assert(decimal(a).last() == digit(a % 10));
    assert(decimal(b).last() == digit(b % 10));
    assert(a % 10 == b % 10);
    lemma_decimal_len(a);
    lemma_decimal_len(b);
    if a >= 10 {
        assert(decimal(a).drop_last() =~= decimal(a / 10));
        assert(decimal(b).drop_last() =~= decimal(b / 10));
        law_decimal_is_injective(a / 10, b / 10);
    }
}

/// One digit below ten, more from ten on.
proof fn lemma_decimal_len(n: int)
    requires
        0 <= n,
    ensures
        decimal(n).len() >= 1,
        n >= 10 <==> decimal(n).len() > 1,
    decreases n,
{
    if n >= 10 {
        lemma_decimal_len(n / 10);
    }
}

/// The number that decimal digits stand for.
pub open spec fn number_of(digits: Seq<char>) -> int
    decreases digits.len(),
{
    if digits.len() == 0 {
        0
    } else {
        number_of(digits.drop_last()) * 10 + (digits.last() as int - '0' as int)
    }
}

/// The decimal digits of a number read as that number, are digits all of them, and do not
/// start with a zero that could be left out.
pub proof fn law_decimal_reads_as_the_number(n: int)
    requires
        0 <= n,
    ensures
        number_of(decimal(n)) == n,
        decimal(n).len() > 0,
        forall|i: int| 0 <= i < decimal(n).len() ==> '0' <= #[trigger] decimal(n)[i] <= '9',
        decimal(n).len() > 1 ==> decimal(n)[0] != '0',
    decreases n,
{
    if n < 10 {
        reveal_with_fuel(number_of, 2);
        assert(decimal(n).drop_last() =~= Seq::empty());
    } else {
        law_decimal_reads_as_the_number(n / 10);
        assert(decimal(n).drop_last() =~= decimal(n / 10));
        if decimal(n / 10).len() == 1 && decimal(n / 10)[0] == '0' {
            lemma_decimal_len(n / 10);
        }
    }
}

/// Appending a number keeps the text before it, and what comes behind reads as the number.
pub proof fn law_pushed_digits_read_as_the_number(out: &mut String, n: u32, done: ())
    requires
        call_ensures(push_decimal, (out, n), done),
    ensures
        final(out)@.len() > old(out)@.len(),
        final(out)@.take(old(out)@.len() as int) == old(out)@,
        number_of(final(out)@.skip(old(out)@.len() as int)) == n,
{
    law_decimal_reads_as_the_number(n as int);
    assert((old(out)@ + decimal(n as int)).take(old(out)@.len() as int) =~= old(out)@);
    assert((old(out)@ + decimal(n as int)).skip(old(out)@.len() as int) =~= decimal(n as int));
}

/// Two texts joined by a third.
pub fn joined(left: &str, middle: &str, right: &str) -> (res: String)
    ensures
        res@ == left@ + middle@ + right@,
{
    let mut out = left.to_owned();
    out.append(middle);
    out.append(right);
    out
}

/// The text as `Debug` for `str` prints it: in double quotes, with escapes.
pub uninterp spec fn quoted_text(s: Seq<char>) -> Seq<char>;

/// `format!` with `{:?}` on a string slice: what comes out depends on the characters
/// alone. Which characters are escaped, and how, is left unsaid.
#[verifier::external_body]
pub(crate) fn quoted(s: &str) -> (res: String)
    ensures
        res@ == quoted_text(s@),
{
    format!("{:?}", s)
}

} // verus!

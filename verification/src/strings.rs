//! Strings built from and taken apart into characters, and the calls into std that
//! do so.

use vstd::prelude::*;
use vstd::utf8::*;

verus! {

/// `String::from_utf8`: the text that `bytes` encode in UTF-8, or `None` when they are not
/// valid UTF-8. Its contract restates the documentation over vstd's UTF-8 definitions.
#[verifier::external_body]
pub(crate) fn string_from_utf8(bytes: Vec<u8>) -> (r: Option<String>)
    ensures
        r is Some <==> valid_utf8(bytes@),
        r matches Some(s) ==> s@ == decode_utf8(bytes@),
{
    match String::from_utf8(bytes) {
        Ok(s) => Some(s),
        Err(_) => None,
    }
}

/// `String::push`: appends one character.
#[verifier::external_body]
pub(crate) fn push_char(s: &mut String, c: char)
    ensures
        final(s)@ == old(s)@.push(c),
{
    s.push(c);
}

/// What `{:?}` writes for a string: its Debug form. Named, not spelled out: std escapes
/// characters by tables of printable characters.
pub uninterp spec fn debug_form(s: Seq<char>) -> Seq<char>;

/// A character that `{:?}` writes as itself inside a string: printable ASCII other than the
/// double quote and the backslash. (Debug of a `str`, unlike that of a `char`, leaves the
/// single quote as it is.)
pub open spec fn is_plain_char(c: char) -> bool {
    ' ' <= c && c <= '~' && c != '"' && c != '\\'
}

/// Every character is plain.
pub open spec fn is_plain(s: Seq<char>) -> bool {
    forall|i: int| 0 <= i < s.len() ==> is_plain_char(#[trigger] s[i])
}

/// The Debug form of a string, spelled out where the string is plain: between double
/// quotes, unchanged.
pub open spec fn debug_text(s: Seq<char>) -> Seq<char> {
    if is_plain(s) {
        seq!['"'] + s + seq!['"']
    } else {
        debug_form(s)
    }
}

/// `format!("{:?}", s)`: the Debug form of a string (`<str as Debug>::fmt`). The contract
/// names the result, and states one fact of that impl: a string of plain characters
/// (printable ASCII other than `"` and `\`, which it escapes) is written between double
/// quotes, unchanged. Of other strings it states nothing more than the name.
#[verifier::external_body]
pub(crate) fn debug_string(s: &str) -> (r: String)
    ensures
        r@ == debug_form(s@),
        is_plain(s@) ==> r@ == seq!['"'] + s@ + seq!['"'],
{
    format!("{:?}", s)
}

/// The string of the characters `t[lo..hi]`.
pub fn string_from_chars(t: &Vec<char>, lo: usize, hi: usize) -> (s: String)
    requires
        lo <= hi <= t.len(),
    ensures
        s@ == t@.subrange(lo as int, hi as int),
{
    let mut s = String::new();
    let mut i = lo;
    while i < hi
        invariant
            lo <= i <= hi <= t.len(),
            s@ == t@.subrange(lo as int, i as int),
        decreases hi - i,
    {
        push_char(&mut s, t[i]);
        assert(s@ =~= t@.subrange(lo as int, i + 1));
        i = i + 1;
    }
    s
}

/// Text with no `x` in either part has none in the whole.
pub proof fn lemma_concat_lacks(a: Seq<char>, b: Seq<char>, x: char)
    requires
        forall|i: int| 0 <= i < a.len() ==> a[i] != x,
        forall|i: int| 0 <= i < b.len() ==> b[i] != x,
    ensures
        forall|i: int| 0 <= i < (a + b).len() ==> #[trigger] (a + b)[i] != x,
{
    assert forall|i: int| 0 <= i < (a + b).len() implies #[trigger] (a + b)[i] != x by {
        if i < a.len() {
            assert((a + b)[i] == a[i]);
        } else {
            assert((a + b)[i] == b[i - a.len()]);
        }
    }
}

/// UTF-8 encodes text piece by piece.
pub proof fn lemma_encode_concat(a: Seq<char>, b: Seq<char>)
    ensures
        encode_utf8(a + b) == encode_utf8(a) + encode_utf8(b),
    decreases a.len(),
{
    if a.len() == 0 {
        assert(a + b =~= b);
        assert(encode_utf8(a) =~= Seq::<u8>::empty());
        assert(Seq::<u8>::empty() + encode_utf8(b) =~= encode_utf8(b));
    } else {
        assert((a + b).drop_first() =~= a.drop_first() + b);
        assert((a + b)[0] == a[0]);
        lemma_encode_concat(a.drop_first(), b);
        assert(encode_scalar(a[0] as u32) + (encode_utf8(a.drop_first()) + encode_utf8(b))
            =~= encode_scalar(a[0] as u32) + encode_utf8(a.drop_first()) + encode_utf8(b));
    }
}

/// The encoding of a character other than `\n` holds no byte 10.
proof fn lemma_scalar_lacks_newline(c: char)
    requires
        c != '\n',
    ensures
        forall|i: int|
            0 <= i < encode_scalar(c as u32).len() ==> #[trigger] encode_scalar(c as u32)[i] != 10u8,
{
    let x = c as u32;
    assert(x != 10u32);
    assert(has_width_1_encoding(x) && x != 10u32 ==> leading_byte_width_1(x) != 10u8)
        by (bit_vector);
    assert(leading_byte_width_2(x) != 10u8) by (bit_vector);
    assert(leading_byte_width_3(x) != 10u8) by (bit_vector);
    assert(leading_byte_width_4(x) != 10u8) by (bit_vector);
    assert(last_continuation_byte(x) != 10u8) by (bit_vector);
    assert(second_last_continuation_byte(x) != 10u8) by (bit_vector);
    assert(third_last_continuation_byte(x) != 10u8) by (bit_vector);
}

/// The encoding of text without `\n` holds no byte 10; `\n` itself is the byte 10.
pub proof fn lemma_encode_lacks_newline(s: Seq<char>)
    requires
        forall|i: int| 0 <= i < s.len() ==> s[i] != '\n',
    ensures
        forall|i: int| 0 <= i < encode_utf8(s).len() ==> #[trigger] encode_utf8(s)[i] != 10u8,
        encode_utf8(seq!['\n']) == seq![10u8],
    decreases s.len(),
{
    assert(('\n' as u32) == 10u32);
    assert(leading_byte_width_1(10u32) == 10u8) by (bit_vector);
    let nl = seq!['\n'];
    assert(nl.drop_first() =~= Seq::<char>::empty());
    assert(encode_utf8(nl.drop_first()) =~= Seq::<u8>::empty());
    assert(nl[0] as u32 == 10u32);
    assert(encode_scalar(10u32) =~= seq![10u8]);
    assert(encode_utf8(nl) == encode_scalar(10u32) + encode_utf8(nl.drop_first()));
    assert(encode_utf8(nl) =~= seq![10u8]);
    if s.len() > 0 {
        let w = s.drop_first();
        assert forall|i: int| 0 <= i < w.len() implies w[i] != '\n' by {
            assert(w[i] == s[i + 1]);
        }
        lemma_encode_lacks_newline(w);
        lemma_scalar_lacks_newline(s[0]);
        let e = encode_scalar(s[0] as u32);
        assert forall|i: int| 0 <= i < encode_utf8(s).len() implies #[trigger] encode_utf8(s)[i] != 10u8 by {
            if i < e.len() {
                assert(encode_utf8(s)[i] == e[i]);
            } else {
                assert(encode_utf8(s)[i] == encode_utf8(w)[i - e.len()]);
            }
        }
    }
}

} // verus!

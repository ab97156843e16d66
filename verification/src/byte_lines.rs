//! Lines of bytes decoded one at a time, as a line reader meets them: reading stops at the
//! first line that is not UTF-8, and what came before it has been read.

use vstd::prelude::*;
use vstd::slice::{slice_subrange, slice_to_vec};
use vstd::utf8::{decode_utf8, valid_utf8};
use crate::strings::string_from_utf8;
use crate::text::{chars_of, find_first, lemma_find_first, lemma_find_first_at, strip_cr};

verus! {

broadcast use vstd::string::group_string_axioms;

/// The lines of `b` up to the first one that is not UTF-8: each cut at `\n`, decoded, and
/// stripped of a `\r` before the `\n`; no empty line after a final `\n`.
pub open spec fn good_lines(b: Seq<u8>) -> Seq<Seq<char>>
    decreases b.len(),
{
    if b.len() == 0 {
        seq![]
    } else {
        let k = find_first(b, 10u8);
        proof {
            lemma_find_first(b, 10u8);
        }
        if k >= b.len() {
            if valid_utf8(b) {
                seq![decode_utf8(b)]
            } else {
                seq![]
            }
        } else if valid_utf8(b.take(k)) {
            seq![strip_cr(decode_utf8(b.take(k)))] + good_lines(b.skip(k + 1))
        } else {
            seq![]
        }
    }
}

/// Position of the first `\n` byte in `input[from..]`, or the length.
pub fn find_byte_newline(input: &[u8], from: usize) -> (k: usize)
    requires
        from <= input.len(),
    ensures
        from <= k <= input.len(),
        k - from == find_first(input@.skip(from as int), 10u8),
{
    let mut k = from;
    while k < input.len() && input[k] != 10u8
        invariant
            from <= k <= input@.len(),
            forall|i: int| from <= i < k ==> input@[i] != 10u8,
        decreases input@.len() - k,
    {
        k = k + 1;
    }
    proof {
        let s = input@.skip(from as int);
        assert forall|i: int| 0 <= i < k - from implies s[i] != 10u8 by {
            assert(s[i] == input@[from + i]);
        }
        lemma_find_first_at(s, 10u8, k - from);
    }
    k
}

/// The first line of `input[pos..]` and where the next one starts, or `None` when that
/// line is not UTF-8.
pub fn next_good_line(input: &[u8], pos: usize) -> (r: Option<(Vec<char>, usize)>)
    requires
        pos < input.len(),
    ensures
        match r {
            None => good_lines(input@.skip(pos as int)) == Seq::<Seq<char>>::empty(),
            Some((l, next)) => {
                &&& pos < next <= input@.len()
                &&& good_lines(input@.skip(pos as int)) == seq![l@] + good_lines(
                    input@.skip(next as int),
                )
            },
        },
{
    let ghost b = input@.skip(pos as int);
    let k = find_byte_newline(input, pos);
    let bytes = slice_to_vec(slice_subrange(input, pos, k));
    let ghost line = b.take(k - pos);
    assert(bytes@ =~= line);
    match string_from_utf8(bytes) {
        None => {
            if k == input.len() {
                assert(line =~= b);
            }
            None
        },
        Some(s) => {
            let mut l = chars_of(s.as_str());
            if k == input.len() {
                assert(line =~= b);
                assert(input@.skip(k as int) =~= Seq::<u8>::empty());
                assert(seq![l@] + Seq::<Seq<char>>::empty() =~= seq![l@]);
                Some((l, k))
            } else {
                assert(b.skip(k - pos + 1) =~= input@.skip(k + 1));
                let n = l.len();
                if n > 0 && l[n - 1] == '\r' {
                    l.pop();
                    assert(l@ =~= strip_cr(decode_utf8(line)));
                }
                Some((l, k + 1))
            }
        },
    }
}

} // verus!

verus! {

/// The bytes of text without `\n` are one line: the text itself.
pub proof fn lemma_good_lines_single(l: Seq<char>)
    requires
        l.len() > 0,
        forall|i: int| 0 <= i < l.len() ==> l[i] != '\n',
    ensures
        good_lines(vstd::utf8::encode_utf8(l)) == seq![l],
{
    let b = vstd::utf8::encode_utf8(l);
    crate::strings::lemma_encode_lacks_newline(l);
    vstd::utf8::encode_utf8_valid_utf8(l);
    vstd::utf8::encode_utf8_decode_utf8(l);
    lemma_find_first_at(b, 10u8, b.len() as int);
    if b.len() == 0 {
        vstd::utf8::encode_utf8_first_scalar(l);
    }
}

} // verus!

//! YPBankCsv: a header line, then one comma-separated line per transaction:
//! `TX_ID,TX_TYPE,FROM_USER_ID,TO_USER_ID,AMOUNT,TIMESTAMP,STATUS,DESCRIPTION`.

use vstd::prelude::*;
use vstd::slice::{slice_subrange, slice_to_vec};
use vstd::string::*;
use vstd::utf8::{decode_utf8, encode_utf8, valid_utf8};
use crate::error::ReadError;
use crate::fields::{
    push_debug, push_decimal, push_status_name, push_type_name, read_status, read_tx_type,
    read_u64, status_name, status_of, tx_type_name, tx_type_of,
};
use crate::fields::{lemma_status_name, lemma_tx_type_name};
use crate::strings::{
    debug_text, is_plain, is_plain_char, lemma_concat_lacks, lemma_encode_concat,
    lemma_encode_lacks_newline,
    push_char, string_from_chars, string_from_utf8,
};
use crate::text::{
    chars_of, clean_bounds, clean_description, decimal, find_first, is_digit, lacks,
    lemma_clean_quoted, lemma_decimal, lemma_find_first, lemma_find_first_at, lemma_lines_cons,
    lemma_parse_decimal, lemma_split_cons, lemma_split_single, lemma_trim_unchanged, lines,
    next_line, parse_u64_spec, split_on, split_prefix, trim, trim_bounds,
};
use crate::transaction::{is_complete_spec, txs_view, Transaction, TxView};
use crate::byte_lines::{good_lines, next_good_line};
use crate::text::{count_pieces, is_white_space, lemma_strip_end, lemma_strip_start};
use crate::transaction::empty_tx;
use crate::warning::{push_warning, warnings_view, Warning, WarningView};

verus! {

broadcast use vstd::string::group_string_axioms;

/// The transaction a CSV line holds: `None` for a blank line or one with fewer than eight
/// fields. Fields past the eighth are ignored; the description is always present, cleaned.
pub open spec fn csv_record(l: Seq<char>) -> Option<TxView> {
    if trim(l).len() == 0 {
        None
    } else {
        let p = split_on(l, ',');
        if p.len() < 8 {
            None
        } else {
            Some(
                TxView {
                    tx_id: parse_u64_spec(p[0]),
                    tx_type: tx_type_of(p[1]),
                    from_user_id: parse_u64_spec(p[2]),
                    to_user_id: parse_u64_spec(p[3]),
                    amount: parse_u64_spec(p[4]),
                    timestamp: parse_u64_spec(p[5]),
                    status: status_of(p[6]),
                    description: Some(clean_description(p[7])),
                },
            )
        }
    }
}

/// The transactions of a list of CSV lines, in order.
pub open spec fn csv_records(ls: Seq<Seq<char>>) -> Seq<TxView>
    decreases ls.len(),
{
    if ls.len() == 0 {
        seq![]
    } else {
        match csv_record(ls[0]) {
            Some(t) => seq![t] + csv_records(ls.drop_first()),
            None => csv_records(ls.drop_first()),
        }
    }
}

/// What reading YPBankCsv gives: the first line is skipped, whatever it holds; the rest
/// must be UTF-8 (else `InvalidFormat`) and each of its lines gives at most one
/// transaction.
pub open spec fn csv_parse(input: Seq<u8>) -> Result<Seq<TxView>, ReadError> {
    let k = find_first(input, 10u8);
    if k >= input.len() {
        Ok(seq![])
    } else {
        let rest = input.skip(k + 1);
        if valid_utf8(rest) {
            Ok(csv_records(lines(decode_utf8(rest))))
        } else {
            Err(ReadError::InvalidFormat)
        }
    }
}

/// The transaction of the line `t[lo..hi]`.
fn read_line(t: &Vec<char>, lo: usize, hi: usize) -> (r: Option<Transaction>)
    requires
        lo <= hi <= t.len(),
    ensures
        match r {
            Some(x) => csv_record(t@.subrange(lo as int, hi as int)) == Some(x@),
            None => csv_record(t@.subrange(lo as int, hi as int)) is None,
        },
{
    let (a, b) = trim_bounds(t, lo, hi);
    if a == b {
        return None;
    }
    match split_prefix(t, lo, hi, ',', 8) {
        None => None,
        Some(p) => {
            let (d0, d1) = clean_bounds(t, p[7].0, p[7].1);
            let x = Transaction {
                tx_id: read_u64(t, p[0].0, p[0].1),
                tx_type: read_tx_type(t, p[1].0, p[1].1),
                from_user_id: read_u64(t, p[2].0, p[2].1),
                to_user_id: read_u64(t, p[3].0, p[3].1),
                amount: read_u64(t, p[4].0, p[4].1),
                timestamp: read_u64(t, p[5].0, p[5].1),
                status: read_status(t, p[6].0, p[6].1),
                description: Some(string_from_chars(t, d0, d1)),
            };
            Some(x)
        },
    }
}

/// The transactions of all lines of `t`.
fn read_lines(t: &Vec<char>) -> (v: Vec<Transaction>)
    ensures
        txs_view(v@) == csv_records(lines(t@)),
{
    let mut out: Vec<Transaction> = Vec::new();
    let mut pos: usize = 0;
    let len = t.len();
    assert(t@.subrange(0, len as int) =~= t@);
    assert(txs_view(out@) + csv_records(lines(t@)) =~= csv_records(lines(t@)));
    while pos < len
        invariant
            pos <= len == t@.len(),
            csv_records(lines(t@)) == txs_view(out@) + csv_records(
                lines(t@.subrange(pos as int, len as int)),
            ),
        decreases len - pos,
    {
        let (lo, hi, next) = next_line(t, pos);
        let ghost ls = lines(t@.subrange(pos as int, len as int));
        let ghost rest = lines(t@.subrange(next as int, len as int));
        assert(ls.drop_first() =~= rest);
        match read_line(t, lo, hi) {
            Some(x) => {
                assert(txs_view(out@.push(x)) =~= txs_view(out@) + seq![x@]);
                out.push(x);
                assert(csv_records(lines(t@)) =~= txs_view(out@) + csv_records(rest));
            },
            None => {},
        }
        pos = next;
    }
    assert(t@.subrange(len as int, len as int) =~= Seq::<char>::empty());
    assert(lines(Seq::<char>::empty()) =~= Seq::<Seq<char>>::empty());
    assert(txs_view(out@) + Seq::<TxView>::empty() =~= txs_view(out@));
    out
}

/// Position of the first `\n` byte, or the length when there is none.
fn find_newline(input: &[u8]) -> (k: usize)
    ensures
        k == find_first(input@, 10u8),
        k <= input@.len(),
{
    let mut k: usize = 0;
    while k < input.len() && input[k] != 10u8
        invariant
            k <= input@.len(),
            forall|i: int| 0 <= i < k ==> input@[i] != 10u8,
        decreases input@.len() - k,
    {
        k = k + 1;
    }
    proof {
        lemma_find_first_at(input@, 10u8, k as int);
    }
    k
}

/// Reads YPBankCsv bytes into transactions. The header line is skipped; the rest must be
/// UTF-8, else `InvalidFormat`. Blank lines and lines with fewer than eight fields are
/// skipped; fields that do not parse are absent; the description is trimmed and stripped
/// of surrounding quotes.
pub fn from_read(input: &[u8]) -> (r: Result<Vec<Transaction>, ReadError>)
    ensures
        match r {
            Ok(v) => csv_parse(input@) == Ok::<Seq<TxView>, ReadError>(txs_view(v@)),
            Err(e) => csv_parse(input@) == Err::<Seq<TxView>, ReadError>(e),
        },
{
    let k = find_newline(input);
    if k == input.len() {
        let v: Vec<Transaction> = Vec::new();
        assert(txs_view(v@) =~= Seq::<TxView>::empty());
        return Ok(v);
    }
    let rest = slice_to_vec(slice_subrange(input, k + 1, input.len()));
    assert(rest@ =~= input@.skip(k + 1));
    match string_from_utf8(rest) {
        None => Err(ReadError::InvalidFormat),
        Some(s) => {
            let t = chars_of(s.as_str());
            Ok(read_lines(&t))
        },
    }
}

/// The header line, without its `\n`.
pub open spec fn csv_header() -> Seq<char> {
    "TX_ID,TX_TYPE,FROM_USER_ID,TO_USER_ID,AMOUNT,TIMESTAMP,STATUS,DESCRIPTION"@
}

/// The line of a complete transaction, without its `\n`: its fields separated by commas,
/// numbers in decimal, type and status by name, the description in its Debug form.
pub open spec fn csv_line(t: TxView) -> Seq<char> {
    let c = seq![','];
    decimal(t.tx_id->0 as nat) + (c + (tx_type_name(t.tx_type->0) + (c + (decimal(
        t.from_user_id->0 as nat,
    ) + (c + (decimal(t.to_user_id->0 as nat) + (c + (decimal(t.amount->0 as nat) + (c + (
    decimal(t.timestamp->0 as nat) + (c + (status_name(t.status->0) + (c + debug_text(
        t.description->0,
    ))))))))))))))
}

/// The line of a complete transaction, with its `\n`.
pub open spec fn csv_row(t: TxView) -> Seq<char> {
    csv_line(t) + seq!['\n']
}

/// What a transaction contributes: its line when complete, nothing otherwise.
pub open spec fn csv_entry(t: TxView) -> Seq<char> {
    if is_complete_spec(t) {
        csv_row(t)
    } else {
        seq![]
    }
}

/// The text of a list of transactions: the header, then the line of each complete one.
pub open spec fn csv_text(v: Seq<TxView>) -> Seq<char> {
    csv_header() + seq!['\n'] + v.map_values(|t: TxView| csv_entry(t)).flatten()
}

/// Appends the line of a complete transaction.
fn write_row(out: &mut String, t: &Transaction)
    requires
        is_complete_spec(t@),
    ensures
        final(out)@ == old(out)@ + csv_row(t@),
{
    let ghost o = out@;
    match (t.tx_id, t.tx_type, t.from_user_id, t.to_user_id, t.amount, t.timestamp, t.status, &t.description) {
        (Some(id), Some(ty), Some(from), Some(to), Some(amount), Some(ts), Some(st), Some(d)) => {
            push_decimal(out, id);
            push_char(out, ',');
            push_type_name(out, ty);
            push_char(out, ',');
            push_decimal(out, from);
            push_char(out, ',');
            push_decimal(out, to);
            push_char(out, ',');
            push_decimal(out, amount);
            push_char(out, ',');
            push_decimal(out, ts);
            push_char(out, ',');
            push_status_name(out, st);
            push_char(out, ',');
            push_debug(out, d);
            push_char(out, '\n');
            assert(out@ =~= o + csv_row(t@));
        },
        _ => {},
    }
}

/// Writes transactions as YPBankCsv: the header, then one line per complete transaction,
/// in order; incomplete ones are left out. Returns the UTF-8 bytes of the text.
pub fn write_to(transactions: Vec<Transaction>) -> (out: Vec<u8>)
    ensures
        out@ == encode_utf8(csv_text(txs_view(transactions@))),
{
    let mut s = String::new();
    s.append("TX_ID,TX_TYPE,FROM_USER_ID,TO_USER_ID,AMOUNT,TIMESTAMP,STATUS,DESCRIPTION");
    push_char(&mut s, '\n');
    let ghost f = |t: TxView| csv_entry(t);
    let mut i: usize = 0;
    assert(txs_view(transactions@.take(0)).map_values(f) =~= Seq::<Seq<char>>::empty());
    assert(s@ =~= csv_header() + seq!['\n'] + txs_view(transactions@.take(0)).map_values(
        f,
    ).flatten());
    while i < transactions.len()
        invariant
            0 <= i <= transactions@.len(),
            f == (|t: TxView| csv_entry(t)),
            s@ == csv_header() + seq!['\n'] + txs_view(transactions@.take(i as int)).map_values(
                f,
            ).flatten(),
        decreases transactions@.len() - i,
    {
        let t = &transactions[i];
        let ghost before = s@;
        if t.is_complete() {
            write_row(&mut s, t);
        } else {
            assert(s@ =~= before + csv_entry(t@));
        }
        proof {
            let e = csv_entry(transactions@[i as int]@);
            let a = txs_view(transactions@.take(i as int)).map_values(f);
            assert(txs_view(transactions@.take(i + 1)).map_values(f) =~= a.push(e));
            a.lemma_flatten_push(e);
            assert(s@ =~= csv_header() + seq!['\n'] + a.push(e).flatten());
        }
        i = i + 1;
    }
    assert(transactions@.take(i as int) =~= transactions@);
    s.as_str().as_bytes_vec()
}

} // verus!

verus! {

/// Text that a CSV field gives back unchanged: plain, without commas.
pub open spec fn csv_safe(d: Seq<char>) -> bool {
    is_plain(d) && lacks(d, ',')
}

/// A transaction whose line reads back as itself: incomplete ones are not written at all;
/// a complete one needs a description that is `csv_safe`.
pub open spec fn csv_writable(t: TxView) -> bool {
    is_complete_spec(t) ==> csv_safe(t.description->0)
}

/// The complete transactions, in order.
pub open spec fn complete_only(v: Seq<TxView>) -> Seq<TxView>
    decreases v.len(),
{
    if v.len() == 0 {
        seq![]
    } else if is_complete_spec(v[0]) {
        seq![v[0]] + complete_only(v.drop_first())
    } else {
        complete_only(v.drop_first())
    }
}

/// The fields of a complete transaction as written.
pub open spec fn csv_fields(t: TxView) -> Seq<Seq<char>> {
    seq![
        decimal(t.tx_id->0 as nat),
        tx_type_name(t.tx_type->0),
        decimal(t.from_user_id->0 as nat),
        decimal(t.to_user_id->0 as nat),
        decimal(t.amount->0 as nat),
        decimal(t.timestamp->0 as nat),
        status_name(t.status->0),
        debug_text(t.description->0),
    ]
}

/// A field without commas, a comma, then the rest: the field comes first in the split.
proof fn lemma_split_field(a: Seq<char>, rest: Seq<char>)
    requires
        lacks(a, ','),
    ensures
        split_on(a + (seq![','] + rest), ',') == seq![a] + split_on(rest, ','),
{
    assert(a + (seq![','] + rest) =~= a + seq![','] + rest);
    lemma_split_cons(a, rest, ',');
}

/// A field joined to the rest of a line by a comma holds `x` only where they do.
proof fn lemma_field_lacks(a: Seq<char>, rest: Seq<char>, x: char)
    requires
        lacks(a, x),
        lacks(rest, x),
        x != ',',
    ensures
        lacks(a + (seq![','] + rest), x),
{
    lemma_concat_lacks(seq![','], rest, x);
    lemma_concat_lacks(a, seq![','] + rest, x);
}

/// The line of a `csv_writable` complete transaction holds no `\n`, does not end in `\r`,
/// and reads back as the transaction.
proof fn lemma_csv_line(t: TxView)
    requires
        is_complete_spec(t),
        csv_safe(t.description->0),
    ensures
        lacks(csv_line(t), '\n'),
        csv_line(t).len() > 0,
        csv_line(t).last() != '\r',
        csv_record(csv_line(t)) == Some(t),
{
    let f = csv_fields(t);
    let d = t.description->0;
    let c = seq![','];
    lemma_decimal(t.tx_id->0 as nat);
    lemma_decimal(t.from_user_id->0 as nat);
    lemma_decimal(t.to_user_id->0 as nat);
    lemma_decimal(t.amount->0 as nat);
    lemma_decimal(t.timestamp->0 as nat);
    lemma_tx_type_name(t.tx_type->0);
    lemma_status_name(t.status->0);
    let q = debug_text(d);
    assert(q == seq!['"'] + d + seq!['"']);
    assert forall|i: int| 0 <= i < f.len() implies lacks(#[trigger] f[i], ',') && lacks(
        f[i],
        '\n',
    ) by {
        if i == 7 {
            assert forall|j: int| 0 <= j < q.len() implies q[j] != ',' && q[j] != '\n' by {
                if 0 < j < q.len() - 1 {
                    assert(q[j] == d[j - 1]);
                    assert(is_plain_char(d[j - 1]));
                }
            }
        } else if i == 1 || i == 6 {
            assert forall|j: int| 0 <= j < f[i].len() implies f[i][j] != '\n' by {
                assert(is_plain_char(f[i][j]));
            }
        } else {
            assert forall|j: int| 0 <= j < f[i].len() implies f[i][j] != '\n' && f[i][j]
                != ',' by {
                assert(is_digit(f[i][j]));
            }
        }
    }
    let r7 = f[7];
    let r6 = f[6] + (c + r7);
    let r5 = f[5] + (c + r6);
    let r4 = f[4] + (c + r5);
    let r3 = f[3] + (c + r4);
    let r2 = f[2] + (c + r3);
    let r1 = f[1] + (c + r2);
    let r0 = f[0] + (c + r1);
    assert(r0 == csv_line(t));
    lemma_split_single(r7, ',');
    lemma_split_field(f[6], r7);
    lemma_split_field(f[5], r6);
    lemma_split_field(f[4], r5);
    lemma_split_field(f[3], r4);
    lemma_split_field(f[2], r3);
    lemma_split_field(f[1], r2);
    lemma_split_field(f[0], r1);
    assert(split_on(r0, ',') =~= f);
    lemma_field_lacks(f[6], r7, '\n');
    lemma_field_lacks(f[5], r6, '\n');
    lemma_field_lacks(f[4], r5, '\n');
    lemma_field_lacks(f[3], r4, '\n');
    lemma_field_lacks(f[2], r3, '\n');
    lemma_field_lacks(f[1], r2, '\n');
    lemma_field_lacks(f[0], r1, '\n');
    assert(r0[0] == f[0][0]);
    assert(is_digit(f[0][0]));
    assert(r6.last() == '"');
    assert(r0.last() == '"');
    lemma_trim_unchanged(r0);
    lemma_parse_decimal(t.tx_id->0);
    lemma_parse_decimal(t.from_user_id->0);
    lemma_parse_decimal(t.to_user_id->0);
    lemma_parse_decimal(t.amount->0);
    lemma_parse_decimal(t.timestamp->0);
    assert forall|i: int| 0 <= i < d.len() implies d[i] != '"' by {
        assert(is_plain_char(d[i]));
    }
    lemma_clean_quoted(d);
}

/// The lines of the written transactions read back as the complete ones.
proof fn lemma_csv_entries(v: Seq<TxView>)
    requires
        forall|i: int| 0 <= i < v.len() ==> csv_writable(#[trigger] v[i]),
    ensures
        csv_records(lines(v.map_values(|t: TxView| csv_entry(t)).flatten())) == complete_only(v),
    decreases v.len(),
{
    let e = |t: TxView| csv_entry(t);
    if v.len() == 0 {
        assert(v.map_values(e) =~= Seq::<Seq<char>>::empty());
        assert(v.map_values(e).flatten() =~= Seq::<char>::empty());
        assert(lines(Seq::<char>::empty()) =~= Seq::<Seq<char>>::empty());
    } else {
        let t = v[0];
        let w = v.drop_first();
        assert forall|i: int| 0 <= i < w.len() implies csv_writable(#[trigger] w[i]) by {
            assert(w[i] == v[i + 1]);
        }
        lemma_csv_entries(w);
        assert(v.map_values(e).drop_first() =~= w.map_values(e));
        let rest = w.map_values(e).flatten();
        assert(v.map_values(e).flatten() == csv_entry(t) + rest);
        if is_complete_spec(t) {
            lemma_csv_line(t);
            let line = csv_line(t);
            lemma_lines_cons(line, rest);
            assert(lines(csv_entry(t) + rest) == seq![line] + lines(rest));
            let ls = seq![line] + lines(rest);
            assert(ls.drop_first() =~= lines(rest));
        } else {
            assert(csv_entry(t) + rest =~= rest);
        }
    }
}

/// Writing transactions as YPBankCsv and reading the bytes back gives the complete ones, in
/// order. It holds where every complete transaction's description is plain printable ASCII
/// without double quotes, backslashes or commas.
pub proof fn law_write_then_read(v: Seq<TxView>)
    requires
        forall|i: int| 0 <= i < v.len() ==> csv_writable(#[trigger] v[i]),
    ensures
        csv_parse(encode_utf8(csv_text(v))) == Ok::<Seq<TxView>, ReadError>(complete_only(v)),
{
    reveal_strlit("TX_ID,TX_TYPE,FROM_USER_ID,TO_USER_ID,AMOUNT,TIMESTAMP,STATUS,DESCRIPTION");
    let h = csv_header();
    let r = v.map_values(|t: TxView| csv_entry(t)).flatten();
    assert(lacks(h, '\n'));
    lemma_encode_lacks_newline(h);
    lemma_encode_concat(h, seq!['\n']);
    lemma_encode_concat(h + seq!['\n'], r);
    let hb = vstd::utf8::encode_utf8(h);
    let b = encode_utf8(csv_text(v));
    assert(b == hb + seq![10u8] + encode_utf8(r));
    lemma_find_first_at(b, 10u8, hb.len() as int);
    assert(b.skip(hb.len() as int + 1) =~= encode_utf8(r));
    vstd::utf8::encode_utf8_valid_utf8(r);
    vstd::utf8::encode_utf8_decode_utf8(r);
    lemma_csv_entries(v);
}

/// Keeping the complete transactions of a list of complete ones keeps them all.
pub proof fn lemma_complete_only_all(v: Seq<TxView>)
    requires
        forall|i: int| 0 <= i < v.len() ==> is_complete_spec(#[trigger] v[i]),
    ensures
        complete_only(v) == v,
    decreases v.len(),
{
    if v.len() > 0 {
        let w = v.drop_first();
        assert forall|i: int| 0 <= i < w.len() implies is_complete_spec(#[trigger] w[i]) by {
            assert(w[i] == v[i + 1]);
        }
        lemma_complete_only_all(w);
        assert(is_complete_spec(v[0]));
        assert(seq![v[0]] + w =~= v);
    }
}

} // verus!

verus! {

/// Every record read from CSV lines has a description.
proof fn lemma_records_described(ls: Seq<Seq<char>>)
    ensures
        forall|i: int|
            0 <= i < csv_records(ls).len() ==> (#[trigger] csv_records(ls)[i]).description is Some,
    decreases ls.len(),
{
    if ls.len() > 0 {
        let w = ls.drop_first();
        lemma_records_described(w);
        let r = csv_records(w);
        if let Some(t) = csv_record(ls[0]) {
            assert forall|i: int| 0 <= i < (seq![t] + r).len() implies (#[trigger] (seq![t]
                + r)[i]).description is Some by {
                if i > 0 {
                    assert((seq![t] + r)[i] == r[i - 1]);
                }
            }
        }
    }
}

/// Every transaction read from YPBankCsv has a description, possibly empty.
pub proof fn law_read_has_descriptions(input: Seq<u8>)
    ensures
        csv_parse(input) matches Ok(v) ==> forall|i: int|
            0 <= i < v.len() ==> (#[trigger] v[i]).description is Some,
{
    let k = find_first(input, 10u8);
    if k < input.len() && valid_utf8(input.skip(k + 1)) {
        lemma_records_described(lines(decode_utf8(input.skip(k + 1))));
    }
}

} // verus!

verus! {

/// The warnings about a non-blank CSV line, record `n`: a line with fewer than eight
/// fields is reported with its count; otherwise a TX_TYPE, then a STATUS, that names
/// nothing is reported as it stands.
pub open spec fn csv_line_warnings(l: Seq<char>, n: nat) -> Seq<WarningView> {
    let p = split_on(l, ',');
    if p.len() < 8 {
        seq![WarningView::ShortRecord { fields: p.len(), record: n }]
    } else {
        (if tx_type_of(p[1]) is None {
            seq![WarningView::UnknownType { value: p[1], record: n }]
        } else {
            seq![]
        }) + (if status_of(p[6]) is None {
            seq![WarningView::UnknownStatus { value: p[6], record: n }]
        } else {
            seq![]
        })
    }
}

/// The warnings about the lines `ls`, `n` non-blank lines having come before them.
pub open spec fn csv_warnings_from(ls: Seq<Seq<char>>, n: nat) -> Seq<WarningView>
    decreases ls.len(),
{
    if ls.len() == 0 {
        seq![]
    } else if trim(ls[0]).len() == 0 {
        csv_warnings_from(ls.drop_first(), n)
    } else {
        csv_line_warnings(ls[0], n + 1) + csv_warnings_from(ls.drop_first(), n + 1)
    }
}

/// The warnings that reading YPBankCsv gives, in order: about each line after the header
/// that is read before the first one that is not UTF-8.
pub open spec fn csv_warnings(input: Seq<u8>) -> Seq<WarningView> {
    let k = find_first(input, 10u8);
    if k >= input.len() {
        seq![]
    } else {
        csv_warnings_from(good_lines(input.skip(k + 1)), 0)
    }
}

/// Appends the warnings about the non-blank line `t`, record `n`.
fn push_line_warnings(t: &Vec<char>, n: usize, out: &mut Vec<Warning>)
    ensures
        warnings_view(final(out)@) == warnings_view(old(out)@) + csv_line_warnings(t@, n as nat),
{
    let len = t.len();
    assert(t@.subrange(0, len as int) =~= t@);
    let ghost p = split_on(t@, ',');
    match split_prefix(t, 0, len, ',', 8) {
        None => {
            let c = count_pieces(t, 0, len, ',', 8);
            push_warning(out, Warning::ShortRecord { fields: c, record: n });
        },
        Some(q) => {
            let ghost o = warnings_view(out@);
            let ghost a: Seq<WarningView> = if tx_type_of(p[1]) is None {
                seq![WarningView::UnknownType { value: p[1], record: n as nat }]
            } else {
                seq![]
            };
            let ghost b: Seq<WarningView> = if status_of(p[6]) is None {
                seq![WarningView::UnknownStatus { value: p[6], record: n as nat }]
            } else {
                seq![]
            };
            assert(t@.subrange(q[1].0 as int, q[1].1 as int) == p[1]);
            assert(t@.subrange(q[6].0 as int, q[6].1 as int) == p[6]);
            if read_tx_type(t, q[1].0, q[1].1).is_none() {
                let v = string_from_chars(t, q[1].0, q[1].1);
                push_warning(out, Warning::UnknownType { value: v, record: n });
            }
            assert(warnings_view(out@) =~= o + a);
            if read_status(t, q[6].0, q[6].1).is_none() {
                let v = string_from_chars(t, q[6].0, q[6].1);
                push_warning(out, Warning::UnknownStatus { value: v, record: n });
            }
            assert(warnings_view(out@) =~= o + (a + b));
        },
    }
}

/// The warnings that reading YPBankCsv bytes gives, in the order the lines come.
pub fn read_warnings(input: &[u8]) -> (w: Vec<Warning>)
    ensures
        warnings_view(w@) == csv_warnings(input@),
{
    let mut out: Vec<Warning> = Vec::new();
    assert(warnings_view(out@) =~= Seq::<WarningView>::empty());
    let k = find_newline(input);
    let len = input.len();
    if k == len {
        return out;
    }
    let mut pos = k + 1;
    let mut n: usize = 0;
    assert(Seq::<WarningView>::empty() + csv_warnings_from(good_lines(input@.skip(pos as int)), 0)
        =~= csv_warnings(input@));
    while pos < len
        invariant
            pos <= len == input@.len(),
            n <= pos,
            csv_warnings(input@) == warnings_view(out@) + csv_warnings_from(
                good_lines(input@.skip(pos as int)),
                n as nat,
            ),
        decreases len - pos,
    {
        match next_good_line(input, pos) {
            None => {
                assert(input@.skip(len as int) =~= Seq::<u8>::empty());
                pos = len;
            },
            Some((l, next)) => {
                let ghost ls = good_lines(input@.skip(pos as int));
                let ghost rest = good_lines(input@.skip(next as int));
                assert(ls[0] == l@);
                assert(ls.drop_first() =~= rest);
                let ghost o = warnings_view(out@);
                let (a, b) = trim_bounds(&l, 0, l.len());
                assert(l@.subrange(0, l@.len() as int) =~= l@);
                if a != b {
                    n = n + 1;
                    push_line_warnings(&l, n, &mut out);
                    assert(o + csv_warnings_from(ls, (n - 1) as nat) =~= warnings_view(out@)
                        + csv_warnings_from(rest, n as nat));
                }
                pos = next;
            },
        }
    }
    assert(input@.skip(len as int) =~= Seq::<u8>::empty());
    assert(warnings_view(out@) + Seq::<WarningView>::empty() =~= warnings_view(out@));
    out
}

} // verus!

verus! {

/// Writing one more transaction as YPBankCsv keeps what was written and, when the
/// transaction is complete, appends one line whatever its description holds: the line
/// starts with its TX_ID and a comma, and ends with a comma, the Debug form of its
/// description and `\n`. An incomplete one appends nothing.
#[verifier::spinoff_prover]
pub proof fn law_write_appends_line(v: Seq<TxView>, t: TxView)
    ensures
        csv_text(v.push(t)).take(csv_text(v).len() as int) == csv_text(v),
        !is_complete_spec(t) ==> csv_text(v.push(t)) == csv_text(v),
        is_complete_spec(t) ==> csv_text(v.push(t)).len() > csv_text(v).len(),
        is_complete_spec(t) ==> csv_text(v.push(t)).skip(csv_text(v).len() as int).take(
            (decimal(t.tx_id->0 as nat).len() + 1) as int,
        ) == decimal(t.tx_id->0 as nat) + seq![','],
        is_complete_spec(t) ==> csv_text(v.push(t)).skip(
            (csv_text(v.push(t)).len() - (debug_text(t.description->0).len() + 2)) as int,
        ) == seq![','] + debug_text(t.description->0) + seq!['\n'],
{
    lemma_text_push(v, t);
    let o = csv_text(v);
    if is_complete_spec(t) {
        lemma_row_shape(t);
        let e = csv_row(t);
        crate::text::lemma_append_parts(o, e, (debug_text(t.description->0).len() + 2) as int);
    } else {
        crate::text::lemma_append_parts(o, Seq::<char>::empty(), 0);
        assert(o + Seq::<char>::empty() =~= o);
    }
}

/// The line of a complete transaction starts with its TX_ID and a comma, and ends with a
/// comma, the Debug form of its description and `\n`.
#[verifier::spinoff_prover]
proof fn lemma_row_shape(t: TxView)
    requires
        is_complete_spec(t),
    ensures
        csv_row(t).len() >= debug_text(t.description->0).len() + 2,
        csv_row(t).take((decimal(t.tx_id->0 as nat).len() + 1) as int) == decimal(
            t.tx_id->0 as nat,
        ) + seq![','],
        csv_row(t).skip(csv_row(t).len() - (debug_text(t.description->0).len() + 2)) == seq![',']
            + debug_text(t.description->0) + seq!['\n'],
{
    let c = seq![','];
    let id = decimal(t.tx_id->0 as nat);
    let d = debug_text(t.description->0);
    let mid = tx_type_name(t.tx_type->0) + c + decimal(t.from_user_id->0 as nat) + c + decimal(
        t.to_user_id->0 as nat,
    ) + c + decimal(t.amount->0 as nat) + c + decimal(t.timestamp->0 as nat) + c + status_name(
        t.status->0,
    );
    assert(csv_line(t) =~= id + c + mid + c + d);
    let e = csv_row(t);
    let tail = c + d + seq!['\n'];
    assert(e =~= (id + c) + (mid + tail));
    assert(e.take((id.len() + 1) as int) =~= id + c);
    assert(e =~= ((id + c) + mid) + tail);
    assert(e.skip(e.len() - tail.len()) =~= tail);
}

/// The text of one more transaction is the text before and its entry.
proof fn lemma_text_push(v: Seq<TxView>, t: TxView)
    ensures
        csv_text(v.push(t)) == csv_text(v) + csv_entry(t),
{
    let f = |x: TxView| csv_entry(x);
    let a = v.map_values(f);
    assert(v.push(t).map_values(f) =~= a.push(csv_entry(t)));
    a.lemma_flatten_push(csv_entry(t));
    assert(csv_header() + seq!['\n'] + (a.flatten() + csv_entry(t)) =~= csv_header() + seq!['\n']
        + a.flatten() + csv_entry(t));
}

} // verus!

verus! {

/// A CSV line's eighth field becomes the description whatever text it holds, not only plain
/// ASCII, and a line of eight fields is read even where the others are empty: reading any
/// header line, then a TX_ID, six empty fields and any text without `\n` or comma, gives
/// one transaction with that TX_ID and that text, cleaned of surrounding white space and
/// double quotes, and no other field.
#[verifier::spinoff_prover]
pub proof fn law_read_any_description(h: Seq<char>, x: u64, d: Seq<char>)
    requires
        lacks(h, '\n'),
        lacks(d, '\n'),
        lacks(d, ','),
    ensures
        csv_parse(
            encode_utf8(h + seq!['\n'] + decimal(x as nat) + seq![',', ',', ',', ',', ',', ',', ',']
                + d),
        ) == Ok::<Seq<TxView>, ReadError>(
            seq![TxView { tx_id: Some(x), description: Some(clean_description(d)), ..empty_tx() }],
        ),
{
    let n = decimal(x as nat);
    let c = seq![','];
    let e = Seq::<char>::empty();
    let r = n + seq![',', ',', ',', ',', ',', ',', ','] + d;
    assert(h + seq!['\n'] + n + seq![',', ',', ',', ',', ',', ',', ','] + d =~= h + seq!['\n'] + r);
    // The bytes: the header, `\n`, then the line.
    lemma_encode_lacks_newline(h);
    lemma_encode_concat(h, seq!['\n']);
    lemma_encode_concat(h + seq!['\n'], r);
    let hb = encode_utf8(h);
    let b = encode_utf8(h + seq!['\n'] + r);
    assert(b == hb + seq![10u8] + encode_utf8(r));
    lemma_find_first_at(b, 10u8, hb.len() as int);
    assert(b.skip(hb.len() as int + 1) =~= encode_utf8(r));
    vstd::utf8::encode_utf8_valid_utf8(r);
    vstd::utf8::encode_utf8_decode_utf8(r);
    // One line.
    lemma_decimal(x as nat);
    assert(lacks(r, '\n')) by {
        assert forall|i: int| 0 <= i < r.len() implies r[i] != '\n' by {
            if i < n.len() {
                assert(r[i] == n[i]);
                assert(is_digit(n[i]));
            } else if i >= n.len() + 7 {
                assert(r[i] == d[i - n.len() - 7]);
            }
        }
    }
    lemma_find_first_at(r, '\n', r.len() as int);
    assert(lines(r) == seq![r]);
    assert(seq![r].drop_first() =~= Seq::<Seq<char>>::empty());
    // Not blank.
    let p = |ch: char| is_white_space(ch);
    assert(r[0] == n[0] && is_digit(n[0]));
    lemma_strip_start(r, p, 0);
    assert(r.skip(0) =~= r);
    crate::text::lemma_strip_end_keeps_first(r, p);
    // Eight fields.
    assert(lacks(n, ',')) by {
        assert forall|i: int| 0 <= i < n.len() implies n[i] != ',' by {
            assert(is_digit(n[i]));
        }
    }
    let r1 = c + (c + (c + (c + (c + (c + (c + d))))));
    assert(r =~= n + r1);
    lemma_split_field(n, c + (c + (c + (c + (c + (c + d))))));
    lemma_split_field(e, c + (c + (c + (c + (c + d)))));
    assert(e + (c + (c + (c + (c + (c + (c + d)))))) =~= c + (c + (c + (c + (c + (c + d))))));
    lemma_split_field(e, c + (c + (c + (c + d))));
    assert(e + (c + (c + (c + (c + (c + d))))) =~= c + (c + (c + (c + (c + d)))));
    lemma_split_field(e, c + (c + (c + d)));
    assert(e + (c + (c + (c + (c + d)))) =~= c + (c + (c + (c + d))));
    lemma_split_field(e, c + (c + d));
    assert(e + (c + (c + (c + d))) =~= c + (c + (c + d)));
    lemma_split_field(e, c + d);
    assert(e + (c + (c + d)) =~= c + (c + d));
    lemma_split_field(e, d);
    assert(e + (c + d) =~= c + d);
    lemma_split_single(d, ',');
    let ps = split_on(r, ',');
    assert(ps =~= seq![n, e, e, e, e, e, e, d]);
    // The fields read.
    lemma_parse_decimal(x);
    reveal_strlit("deposit");
    reveal_strlit("transfer");
    reveal_strlit("withdrawal");
    reveal_strlit("success");
    reveal_strlit("failure");
    reveal_strlit("pending");
    lemma_strip_start(e, p, 0);
    lemma_strip_end(e, p, 0);
    assert(trim(e) =~= e);
    assert(tx_type_of(e) is None);
    assert(status_of(e) is None);
    assert(parse_u64_spec(e) is None);
    let t = TxView { tx_id: Some(x), description: Some(clean_description(d)), ..empty_tx() };
    assert(csv_record(r) == Some(t));
    assert(csv_records(seq![r]) == seq![t] + csv_records(Seq::<Seq<char>>::empty()));
    assert(csv_records(seq![r]) =~= seq![t]);
    assert(decode_utf8(b.skip(hb.len() as int + 1)) == r);
    assert(csv_parse(b) == Ok::<Seq<TxView>, ReadError>(csv_records(lines(r))));
}

} // verus!

verus! {

/// A line after the header with fewer than eight fields gives one ShortRecord warning with
/// its number of fields, for record 1.
#[verifier::spinoff_prover]
pub proof fn law_warn_short_line(h: Seq<char>, l: Seq<char>)
    requires
        lacks(h, '\n'),
        lacks(l, '\n'),
        l.len() > 0,
        !is_white_space(l[0]),
        split_on(l, ',').len() < 8,
    ensures
        csv_warnings(encode_utf8(h + seq!['\n'] + l)) == seq![
            WarningView::ShortRecord { fields: split_on(l, ',').len(), record: 1 },
        ],
{
    lemma_encode_lacks_newline(h);
    lemma_encode_concat(h, seq!['\n']);
    lemma_encode_concat(h + seq!['\n'], l);
    let hb = encode_utf8(h);
    let b = encode_utf8(h + seq!['\n'] + l);
    assert(b == hb + seq![10u8] + encode_utf8(l));
    lemma_find_first_at(b, 10u8, hb.len() as int);
    assert(b.skip(hb.len() as int + 1) =~= encode_utf8(l));
    crate::byte_lines::lemma_good_lines_single(l);
    let p = |c: char| is_white_space(c);
    lemma_strip_start(l, p, 0);
    assert(l.skip(0) =~= l);
    crate::text::lemma_strip_end_keeps_first(l, p);
    assert(trim(l).len() > 0);
    let ls = seq![l];
    assert(ls[0] == l);
    assert(ls.drop_first() =~= Seq::<Seq<char>>::empty());
    assert(csv_warnings_from(ls, 0) == csv_line_warnings(l, 1) + csv_warnings_from(
        ls.drop_first(),
        1,
    ));
    assert(csv_line_warnings(l, 1) + Seq::<WarningView>::empty() =~= csv_line_warnings(l, 1));
}

} // verus!

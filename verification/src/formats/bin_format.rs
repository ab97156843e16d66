//! YPBankBin: a sequence of records, each starting with the magic word `YPBN`.
//!
//! Record layout, all integers big-endian: magic (4 bytes), record size (u32), TX_ID (u64),
//! TX_TYPE (u8), FROM_USER_ID (u64), TO_USER_ID (u64), AMOUNT (64 bits), TIMESTAMP (u64),
//! STATUS (u8), DESC_LEN (u32), then DESC_LEN bytes of UTF-8 description.

use vstd::prelude::*;
use vstd::slice::*;
use vstd::utf8::*;
use crate::endian::{
    big_endian, lemma_be_u32_value, lemma_be_u64_value,
    be_u32, be_u64, lemma_u32_roundtrip, lemma_u64_roundtrip, push_u32_be, push_u64_be,
    read_u32_be, read_u64_be, u32_be, u64_be,
};
use crate::error::ReadError;
use crate::strings::{string_from_chars, string_from_utf8};
use crate::text::{chars_of, clean_bounds, clean_description};
use crate::transaction::{txs_view, StatusType, Transaction, TransactionType, TxView};
use crate::warning::{push_warning, warnings_view, Warning, WarningView};

verus! {

broadcast use vstd::string::group_string_axioms;

/// The magic word `YPBN` that opens every record.
pub open spec fn magic() -> Seq<u8> {
    seq![0x59u8, 0x50u8, 0x42u8, 0x4Eu8]
}

/// Bytes of a record before its description.
pub open spec fn header_len() -> int {
    54
}

/// The transaction type a type byte stands for.
pub open spec fn type_of_byte(b: u8) -> Option<TransactionType> {
    if b == 0 {
        Some(TransactionType::DEPOSIT)
    } else if b == 1 {
        Some(TransactionType::TRANSFER)
    } else if b == 2 {
        Some(TransactionType::WITHDRAWAL)
    } else {
        None
    }
}

/// The status a status byte stands for.
pub open spec fn status_of_byte(b: u8) -> Option<StatusType> {
    if b == 0 {
        Some(StatusType::SUCCESS)
    } else if b == 1 {
        Some(StatusType::FAILURE)
    } else if b == 2 {
        Some(StatusType::PENDING)
    } else {
        None
    }
}

/// The fixed fields of the record that starts `s` (at least `header_len()` bytes long).
pub open spec fn record_fields(s: Seq<u8>, description: Option<Seq<char>>) -> TxView {
    TxView {
        tx_id: Some(be_u64(s.subrange(8, 16))),
        tx_type: type_of_byte(s[16]),
        from_user_id: Some(be_u64(s.subrange(17, 25))),
        to_user_id: Some(be_u64(s.subrange(25, 33))),
        amount: Some(be_u64(s.subrange(33, 41))),
        timestamp: Some(be_u64(s.subrange(41, 49))),
        status: status_of_byte(s[49]),
        description: description,
    }
}

/// `t` in front of a successful reading; an error stays.
pub open spec fn prepend(t: Seq<TxView>, r: Result<Seq<TxView>, ReadError>) -> Result<
    Seq<TxView>,
    ReadError,
> {
    match r {
        Ok(v) => Ok(t + v),
        Err(e) => Err(e),
    }
}

/// Reading the record that starts `s` (at least 4 bytes long): the transaction and the
/// number of bytes it takes, or why it cannot be read. Without the magic word it is
/// `InvalidFormat`; cut short, `UnexpectedEof`; with a description that is not UTF-8,
/// `InvalidDescription`. A description of length 0 is absent; another is decoded and
/// cleaned. The record size field is not consulted.
pub open spec fn bin_step(s: Seq<u8>) -> Result<(TxView, int), ReadError> {
    if s.take(4) != magic() {
        Err(ReadError::InvalidFormat)
    } else if s.len() < header_len() {
        Err(ReadError::UnexpectedEof)
    } else {
        let n = be_u32(s.subrange(50, 54)) as int;
        if n == 0 {
            Ok((record_fields(s, None), header_len()))
        } else if s.len() < header_len() + n {
            Err(ReadError::UnexpectedEof)
        } else if !valid_utf8(s.subrange(header_len(), header_len() + n)) {
            Err(ReadError::InvalidDescription)
        } else {
            let d = clean_description(decode_utf8(s.subrange(header_len(), header_len() + n)));
            Ok((record_fields(s, Some(d)), header_len() + n))
        }
    }
}

/// What reading YPBankBin gives: records one after another until fewer than four bytes
/// are left, or the first error.
pub open spec fn bin_parse(s: Seq<u8>) -> Result<Seq<TxView>, ReadError>
    decreases s.len(),
{
    if s.len() < 4 {
        Ok(seq![])
    } else {
        match bin_step(s) {
            Err(e) => Err(e),
            Ok((t, n)) => if 0 < n <= s.len() {
                prepend(seq![t], bin_parse(s.skip(n)))
            } else {
                Ok(seq![])
            },
        }
    }
}

/// The byte a transaction type is written as; an absent type is written as 0.
pub open spec fn type_byte(t: Option<TransactionType>) -> u8 {
    match t {
        Some(TransactionType::DEPOSIT) => 0,
        Some(TransactionType::TRANSFER) => 1,
        Some(TransactionType::WITHDRAWAL) => 2,
        None => 0,
    }
}

/// The byte a status is written as; an absent status is written as 0.
pub open spec fn status_byte(s: Option<StatusType>) -> u8 {
    match s {
        Some(StatusType::SUCCESS) => 0,
        Some(StatusType::FAILURE) => 1,
        Some(StatusType::PENDING) => 2,
        None => 0,
    }
}

/// A number field as written: an absent one is written as 0.
pub open spec fn or_zero(v: Option<u64>) -> u64 {
    match v {
        Some(x) => x,
        None => 0,
    }
}

/// The UTF-8 bytes of the description, empty when it is absent.
pub open spec fn description_bytes(t: TxView) -> Seq<u8> {
    match t.description {
        Some(d) => encode_utf8(d),
        None => seq![],
    }
}

/// The DESC_LEN field: the byte length of the description, cut to 32 bits.
pub open spec fn desc_len_field(t: TxView) -> u32 {
    description_bytes(t).len() as u32
}

/// The record size field does not overflow: what writing a record asks for.
pub open spec fn record_fits(t: TxView) -> bool {
    desc_len_field(t) as int + 46 <= u32::MAX
}

/// The bytes of one record. The description is written only when DESC_LEN is not 0.
pub open spec fn bin_record(t: TxView) -> Seq<u8> {
    record_head(t) + (if desc_len_field(t) > 0 {
        description_bytes(t)
    } else {
        seq![]
    })
}

/// The bytes of a list of transactions: their records one after another.
pub open spec fn bin_bytes(v: Seq<TxView>) -> Seq<u8> {
    v.map_values(|t: TxView| bin_record(t)).flatten()
}

/// Reads the record fields that do not depend on the description.
fn read_fields(s: &[u8], at: usize) -> (t: Transaction)
    requires
        at + 54 <= s.len(),
    ensures
        t@ == record_fields(s@.subrange(at as int, s@.len() as int), None),
{
    let ghost r = s@.subrange(at as int, s@.len() as int);
    let tx_type = match s[at + 16] {
        0 => Some(TransactionType::DEPOSIT),
        1 => Some(TransactionType::TRANSFER),
        2 => Some(TransactionType::WITHDRAWAL),
        _ => None,
    };
    let status = match s[at + 49] {
        0 => Some(StatusType::SUCCESS),
        1 => Some(StatusType::FAILURE),
        2 => Some(StatusType::PENDING),
        _ => None,
    };
    let t = Transaction {
        tx_id: Some(read_u64_be(s, at + 8)),
        tx_type,
        from_user_id: Some(read_u64_be(s, at + 17)),
        to_user_id: Some(read_u64_be(s, at + 25)),
        amount: Some(read_u64_be(s, at + 33)),
        timestamp: Some(read_u64_be(s, at + 41)),
        status,
        description: None,
    };
    assert(r.subrange(8, 16) =~= s@.subrange(at + 8, at + 16));
    assert(r.subrange(17, 25) =~= s@.subrange(at + 17, at + 25));
    assert(r.subrange(25, 33) =~= s@.subrange(at + 25, at + 33));
    assert(r.subrange(33, 41) =~= s@.subrange(at + 33, at + 41));
    assert(r.subrange(41, 49) =~= s@.subrange(at + 41, at + 49));
    t
}

/// The string of `s` with the description cleaning applied.
pub fn cleaned(s: &String) -> (r: String)
    ensures
        r@ == clean_description(s@),
{
    let t = chars_of(s.as_str());
    let (a, b) = clean_bounds(&t, 0, t.len());
    assert(t@.subrange(0, t@.len() as int) =~= t@);
    string_from_chars(&t, a, b)
}

/// Reads the record that starts at `input[pos..]`.
fn read_record(input: &[u8], pos: usize) -> (r: Result<(Transaction, usize), ReadError>)
    requires
        pos + 4 <= input.len(),
    ensures
        match r {
            Ok((t, end)) => {
                &&& pos < end <= input.len()
                &&& bin_step(input@.subrange(pos as int, input@.len() as int)) == Ok::<
                    (TxView, int),
                    ReadError,
                >((t@, end - pos))
            },
            Err(e) => bin_step(input@.subrange(pos as int, input@.len() as int)) == Err::<
                (TxView, int),
                ReadError,
            >(e),
        },
{
    let len = input.len();
    let ghost s = input@.subrange(pos as int, len as int);
    if input[pos] != 0x59u8 || input[pos + 1] != 0x50u8 || input[pos + 2] != 0x42u8 || input[pos
        + 3] != 0x4Eu8 {
        assert(s.take(4)[0] == input@[pos as int]);
        assert(s.take(4)[1] == input@[pos + 1]);
        assert(s.take(4)[2] == input@[pos + 2]);
        assert(s.take(4)[3] == input@[pos + 3]);
        assert(s.take(4) != magic());
        return Err(ReadError::InvalidFormat);
    }
    assert(s.take(4) =~= magic());
    if len - pos < 54 {
        return Err(ReadError::UnexpectedEof);
    }
    let n = read_u32_be(input, pos + 50);
    assert(s.subrange(50, 54) =~= input@.subrange(pos + 50, pos + 54));
    let mut t = read_fields(input, pos);
    if n == 0 {
        return Ok((t, pos + 54));
    }
    if len - pos - 54 < n as usize {
        return Err(ReadError::UnexpectedEof);
    }
    let end = pos + 54 + n as usize;
    let bytes = slice_to_vec(slice_subrange(input, pos + 54, end));
    assert(bytes@ =~= s.subrange(header_len(), header_len() + n));
    match string_from_utf8(bytes) {
        None => Err(ReadError::InvalidDescription),
        Some(d) => {
            let c = cleaned(&d);
            t.description = Some(c);
            Ok((t, end))
        },
    }
}

/// Reads YPBankBin bytes into transactions. Reading stops cleanly where fewer than four
/// bytes are left; otherwise each record must start with the magic word (else
/// `InvalidFormat`), hold all its fields and description (else `UnexpectedEof`) and a UTF-8
/// description (else `InvalidDescription`).
pub fn from_read(input: &[u8]) -> (r: Result<Vec<Transaction>, ReadError>)
    ensures
        match r {
            Ok(v) => bin_parse(input@) == Ok::<Seq<TxView>, ReadError>(txs_view(v@)),
            Err(e) => bin_parse(input@) == Err::<Seq<TxView>, ReadError>(e),
        },
{
    let mut out: Vec<Transaction> = Vec::new();
    let mut pos: usize = 0;
    let len = input.len();
    assert(input@.subrange(0, len as int) =~= input@);
    assert(txs_view(out@) + bin_parse(input@).unwrap() =~= bin_parse(input@).unwrap());
    while len - pos >= 4
        invariant
            pos <= len == input@.len(),
            bin_parse(input@) == prepend(
                txs_view(out@),
                bin_parse(input@.subrange(pos as int, len as int)),
            ),
        decreases len - pos,
    {
        let ghost s = input@.subrange(pos as int, len as int);
        match read_record(input, pos) {
            Err(e) => {
                return Err(e);
            },
            Ok((t, end)) => {
                proof {
                    assert(s.skip(end - pos) =~= input@.subrange(end as int, len as int));
                    assert(txs_view(out@.push(t)) =~= txs_view(out@) + seq![t@]);
                    match bin_parse(input@.subrange(end as int, len as int)) {
                        Ok(rest) => {
                            assert(txs_view(out@) + (seq![t@] + rest) =~= txs_view(out@)
                                + seq![t@] + rest);
                        },
                        Err(_) => {},
                    }
                }
                out.push(t);
                pos = end;
            },
        }
    }
    proof {
        let s = input@.subrange(pos as int, len as int);
        assert(bin_parse(s) == Ok::<Seq<TxView>, ReadError>(seq![]));
        assert(txs_view(out@) + seq![] =~= txs_view(out@));
    }
    Ok(out)
}

/// The first 17 bytes of a record: magic word, record size, TX_ID and TX_TYPE.
pub open spec fn record_head_ids(t: TxView) -> Seq<u8> {
    magic() + u32_be((46 + desc_len_field(t)) as u32) + u64_be(or_zero(t.tx_id)) + seq![
        type_byte(t.tx_type),
    ]
}

/// The next 37 bytes of a record: FROM_USER_ID, TO_USER_ID, AMOUNT, TIMESTAMP, STATUS and
/// DESC_LEN.
pub open spec fn record_head_values(t: TxView) -> Seq<u8> {
    u64_be(or_zero(t.from_user_id)) + u64_be(or_zero(t.to_user_id)) + u64_be(or_zero(t.amount))
        + u64_be(or_zero(t.timestamp)) + seq![status_byte(t.status)] + u32_be(desc_len_field(t))
}

/// The bytes of a record before its description.
pub open spec fn record_head(t: TxView) -> Seq<u8> {
    record_head_ids(t) + record_head_values(t)
}

/// Appends the magic word, record size, TX_ID and TX_TYPE.
fn write_head_ids(out: &mut Vec<u8>, t: &Transaction, desc_len: u32)
    requires
        desc_len == desc_len_field(t@),
        record_fits(t@),
    ensures
        final(out)@ == old(out)@ + record_head_ids(t@),
{
    let ghost o = out@;
    out.push(0x59u8);
    out.push(0x50u8);
    out.push(0x42u8);
    out.push(0x4Eu8);
    let ghost a0 = o + magic();
    assert(out@ =~= a0);
    push_u32_be(out, 46 + desc_len);
    let ghost a1 = a0 + u32_be((46 + desc_len) as u32);
    push_u64_be(out, match t.tx_id { Some(x) => x, None => 0 });
    let ghost a2 = a1 + u64_be(or_zero(t@.tx_id));
    out.push(match t.tx_type {
        Some(TransactionType::DEPOSIT) => 0u8,
        Some(TransactionType::TRANSFER) => 1u8,
        Some(TransactionType::WITHDRAWAL) => 2u8,
        None => 0u8,
    });
    assert(out@ =~= a2 + seq![type_byte(t@.tx_type)]);
    assert(out@ =~= o + record_head_ids(t@));
}

/// Appends FROM_USER_ID, TO_USER_ID, AMOUNT, TIMESTAMP, STATUS and DESC_LEN.
fn write_head_values(out: &mut Vec<u8>, t: &Transaction, desc_len: u32)
    requires
        desc_len == desc_len_field(t@),
    ensures
        final(out)@ == old(out)@ + record_head_values(t@),
{
    let ghost o = out@;
    push_u64_be(out, match t.from_user_id { Some(x) => x, None => 0 });
    let ghost a4 = o + u64_be(or_zero(t@.from_user_id));
    push_u64_be(out, match t.to_user_id { Some(x) => x, None => 0 });
    let ghost a5 = a4 + u64_be(or_zero(t@.to_user_id));
    push_u64_be(out, match t.amount { Some(x) => x, None => 0 });
    let ghost a6 = a5 + u64_be(or_zero(t@.amount));
    push_u64_be(out, match t.timestamp { Some(x) => x, None => 0 });
    let ghost a7 = a6 + u64_be(or_zero(t@.timestamp));
    out.push(match t.status {
        Some(StatusType::SUCCESS) => 0u8,
        Some(StatusType::FAILURE) => 1u8,
        Some(StatusType::PENDING) => 2u8,
        None => 0u8,
    });
    let ghost a8 = a7 + seq![status_byte(t@.status)];
    assert(out@ =~= a8);
    push_u32_be(out, desc_len);
    assert(out@ =~= o + record_head_values(t@));
}

/// Appends the bytes of a record before its description.
fn write_head(out: &mut Vec<u8>, t: &Transaction, desc_len: u32)
    requires
        desc_len == desc_len_field(t@),
        record_fits(t@),
    ensures
        final(out)@ == old(out)@ + record_head(t@),
{
    write_head_ids(out, t, desc_len);
    write_head_values(out, t, desc_len);
    assert(out@ =~= old(out)@ + record_head(t@));
}

/// Appends all of `bytes`.
fn append_bytes(out: &mut Vec<u8>, bytes: &[u8])
    ensures
        final(out)@ == old(out)@ + bytes@,
{
    let mut i: usize = 0;
    while i < bytes.len()
        invariant
            0 <= i <= bytes@.len(),
            out@ == old(out)@ + bytes@.take(i as int),
        decreases bytes@.len() - i,
    {
        out.push(bytes[i]);
        assert(bytes@.take(i + 1) =~= bytes@.take(i as int).push(bytes@[i as int]));
        i = i + 1;
    }
    assert(bytes@.take(i as int) =~= bytes@);
}

/// Appends one record.
fn write_record(out: &mut Vec<u8>, t: &Transaction)
    requires
        record_fits(t@),
    ensures
        final(out)@ == old(out)@ + bin_record(t@),
{
    let empty: [u8; 0] = [];
    let bytes: &[u8] = match &t.description {
        Some(d) => d.as_str().as_bytes(),
        None => empty.as_slice(),
    };
    assert(bytes@ == description_bytes(t@));
    let desc_len = #[verifier::truncate] (bytes.len() as u32);
    assert(desc_len == desc_len_field(t@));
    write_head(out, t, desc_len);
    let ghost mid = out@;
    if desc_len > 0 {
        append_bytes(out, bytes);
    } else {
        assert(out@ =~= mid + seq![]);
    }
    assert(out@ =~= old(out)@ + bin_record(t@));
}

/// Writes transactions as YPBankBin, one record each, in order. An absent number, type or
/// status is written as 0; an absent or empty description as length 0. Each description's
/// byte length, cut to 32 bits, plus 46 must fit in `u32`: the record size field.
pub fn write_to(transactions: Vec<Transaction>) -> (out: Vec<u8>)
    requires
        forall|i: int| 0 <= i < transactions@.len() ==> record_fits(#[trigger] transactions@[i]@),
    ensures
        out@ == bin_bytes(txs_view(transactions@)),
{
    let mut out: Vec<u8> = Vec::new();
    let mut i: usize = 0;
    while i < transactions.len()
        invariant
            0 <= i <= transactions@.len(),
            forall|j: int| 0 <= j < transactions@.len() ==> record_fits(#[trigger] transactions@[j]@),
            out@ == bin_bytes(txs_view(transactions@.take(i as int))),
        decreases transactions@.len() - i,
    {
        write_record(&mut out, &transactions[i]);
        proof {
            let f = |t: TxView| bin_record(t);
            let a = txs_view(transactions@.take(i as int)).map_values(f);
            assert(txs_view(transactions@.take(i + 1)).map_values(f) =~= a.push(
                bin_record(transactions@[i as int]@),
            ));
            a.lemma_flatten_push(bin_record(transactions@[i as int]@));
        }
        i = i + 1;
    }
    assert(transactions@.take(i as int) =~= transactions@);
    out
}

} // verus!

verus! {

/// What a transaction reads back as from its YPBankBin record: absent numbers are 0, an
/// absent type is DEPOSIT, an absent status is SUCCESS, an empty description is absent and
/// another is cleaned.
pub open spec fn bin_normal(t: TxView) -> TxView {
    TxView {
        tx_id: Some(or_zero(t.tx_id)),
        tx_type: match t.tx_type {
            Some(x) => Some(x),
            None => Some(TransactionType::DEPOSIT),
        },
        from_user_id: Some(or_zero(t.from_user_id)),
        to_user_id: Some(or_zero(t.to_user_id)),
        amount: Some(or_zero(t.amount)),
        timestamp: Some(or_zero(t.timestamp)),
        status: match t.status {
            Some(x) => Some(x),
            None => Some(StatusType::SUCCESS),
        },
        description: match t.description {
            Some(d) => if d.len() > 0 {
                Some(clean_description(d))
            } else {
                None
            },
            None => None,
        },
    }
}

/// The description's byte length plus 46 fits in `u32`, with no cutting.
pub open spec fn desc_fits(t: TxView) -> bool {
    description_bytes(t).len() + 46 <= u32::MAX
}

/// The UTF-8 encoding of text is empty exactly when the text is.
proof fn lemma_encode_empty(d: Seq<char>)
    ensures
        (encode_utf8(d).len() == 0) == (d.len() == 0),
{
    if d.len() > 0 {
        vstd::utf8::encode_utf8_first_scalar(d);
    }
}

/// Where the fields of the first 17 bytes of a record lie.
proof fn lemma_head_ids(t: TxView)
    ensures
        record_head_ids(t).len() == 17,
        record_head_ids(t).take(4) == magic(),
        be_u64(record_head_ids(t).subrange(8, 16)) == or_zero(t.tx_id),
        record_head_ids(t)[16] == type_byte(t.tx_type),
{
    let p2 = u64_be(or_zero(t.tx_id));
    let h = record_head_ids(t);
    assert(h.take(4) =~= magic());
    assert(h.subrange(8, 16) =~= p2);
    lemma_u64_roundtrip(or_zero(t.tx_id));
}

/// Where the fields of the next 37 bytes of a record lie.
proof fn lemma_head_values(t: TxView)
    ensures
        record_head_values(t).len() == 37,
        be_u64(record_head_values(t).subrange(0, 8)) == or_zero(t.from_user_id),
        be_u64(record_head_values(t).subrange(8, 16)) == or_zero(t.to_user_id),
        be_u64(record_head_values(t).subrange(16, 24)) == or_zero(t.amount),
        be_u64(record_head_values(t).subrange(24, 32)) == or_zero(t.timestamp),
        record_head_values(t)[32] == status_byte(t.status),
        be_u32(record_head_values(t).subrange(33, 37)) == desc_len_field(t),
{
    let h = record_head_values(t);
    assert(h.subrange(0, 8) =~= u64_be(or_zero(t.from_user_id)));
    assert(h.subrange(8, 16) =~= u64_be(or_zero(t.to_user_id)));
    assert(h.subrange(16, 24) =~= u64_be(or_zero(t.amount)));
    assert(h.subrange(24, 32) =~= u64_be(or_zero(t.timestamp)));
    assert(h.subrange(33, 37) =~= u32_be(desc_len_field(t)));
    lemma_u64_roundtrip(or_zero(t.from_user_id));
    lemma_u64_roundtrip(or_zero(t.to_user_id));
    lemma_u64_roundtrip(or_zero(t.amount));
    lemma_u64_roundtrip(or_zero(t.timestamp));
    lemma_u32_roundtrip(desc_len_field(t));
}

/// `t` with its description replaced.
pub open spec fn with_description(t: TxView, d: Option<Seq<char>>) -> TxView {
    TxView { description: d, ..t }
}

/// The fields that the head of a record reads back as.
proof fn lemma_head_fields(t: TxView, s: Seq<u8>)
    requires
        s.len() >= 54,
        s.take(54) == record_head(t),
    ensures
        s.take(4) == magic(),
        be_u32(s.subrange(50, 54)) == desc_len_field(t),
        record_fields(s, None) == with_description(bin_normal(t), None),
{
    lemma_head_ids(t);
    lemma_head_values(t);
    let a = record_head_ids(t);
    let b = record_head_values(t);
    assert forall|i: int| 0 <= i < 17 implies s[i] == a[i] by {
        assert(s[i] == s.take(54)[i]);
    }
    assert forall|i: int| 17 <= i < 54 implies s[i] == b[i - 17] by {
        assert(s[i] == s.take(54)[i]);
    }
    assert(s.take(4) =~= a.take(4));
    assert(s.subrange(8, 16) =~= a.subrange(8, 16));
    assert(s[16] == a[16]);
    assert(s.subrange(17, 25) =~= b.subrange(0, 8));
    assert(s.subrange(25, 33) =~= b.subrange(8, 16));
    assert(s.subrange(33, 41) =~= b.subrange(16, 24));
    assert(s.subrange(41, 49) =~= b.subrange(24, 32));
    assert(s[49] == b[32]);
    assert(s.subrange(50, 54) =~= b.subrange(33, 37));
}

/// One record, followed by anything, reads back as the normalized transaction and takes
/// exactly its own bytes.
proof fn lemma_bin_step_record(t: TxView, rest: Seq<u8>)
    requires
        desc_fits(t),
    ensures
        bin_record(t).len() >= header_len(),
        bin_step(bin_record(t) + rest) == Ok::<(TxView, int), ReadError>(
            (bin_normal(t), bin_record(t).len() as int),
        ),
{
    let n = desc_len_field(t);
    let db = description_bytes(t);
    assert(n as int == db.len());
    lemma_head_ids(t);
    lemma_head_values(t);
    let h = record_head(t);
    let tail = if n > 0 {
        db
    } else {
        seq![]
    };
    let r = bin_record(t);
    let s = r + rest;
    assert(s.take(54) =~= h);
    lemma_head_fields(t, s);
    match t.description {
        Some(d) => {
            lemma_encode_empty(d);
            if n > 0 {
                assert(s.subrange(54, 54 + n) =~= db);
                vstd::utf8::encode_utf8_valid_utf8(d);
                vstd::utf8::encode_utf8_decode_utf8(d);
                assert(record_fields(s, Some(clean_description(d))) == bin_normal(t));
            } else {
                assert(record_fields(s, None) == bin_normal(t));
            }
        },
        None => {
            assert(record_fields(s, None) == bin_normal(t));
        },
    }
}

/// Reading bytes that start with a readable record: that record, then the rest.
proof fn lemma_bin_parse_step(s: Seq<u8>, t: TxView, n: int)
    requires
        s.len() >= 4,
        bin_step(s) == Ok::<(TxView, int), ReadError>((t, n)),
        0 < n <= s.len(),
    ensures
        bin_parse(s) == prepend(seq![t], bin_parse(s.skip(n))),
{
}

/// Every transaction normalized as YPBankBin reads it back.
pub open spec fn bin_normal_all(v: Seq<TxView>) -> Seq<TxView> {
    v.map_values(|t: TxView| bin_normal(t))
}

/// Writing transactions as YPBankBin and reading the bytes back gives each transaction
/// normalized by `bin_normal`: absent numbers read as 0, an absent type as DEPOSIT, an
/// absent status as SUCCESS, an empty description as absent, and descriptions cleaned.
/// It holds where no description is so long that its length, plus 46, overflows `u32`.
#[verifier::spinoff_prover]
pub proof fn law_write_then_read(v: Seq<TxView>)
    requires
        forall|i: int| 0 <= i < v.len() ==> desc_fits(#[trigger] v[i]),
    ensures
        bin_parse(bin_bytes(v)) == Ok::<Seq<TxView>, ReadError>(bin_normal_all(v)),
    decreases v.len(),
{
    let f = |t: TxView| bin_record(t);
    if v.len() == 0 {
        assert(v.map_values(f) =~= Seq::<Seq<u8>>::empty());
        assert(bin_bytes(v) =~= Seq::<u8>::empty());
        assert(bin_normal_all(v) =~= Seq::<TxView>::empty());
    } else {
        let t = v[0];
        let w = v.drop_first();
        assert(v.map_values(f).drop_first() =~= w.map_values(f));
        let rest = bin_bytes(w);
        let s = bin_bytes(v);
        assert(s == bin_record(t) + rest);
        assert forall|i: int| 0 <= i < w.len() implies desc_fits(#[trigger] w[i]) by {
            assert(w[i] == v[i + 1]);
        }
        law_write_then_read(w);
        lemma_bin_step_record(t, rest);
        let n = bin_record(t).len() as int;
        assert(s.skip(n) =~= rest);
        lemma_bin_parse_step(s, bin_normal(t), n);
        assert(bin_normal_all(v) =~= seq![bin_normal(t)] + bin_normal_all(w));
    }
}

} // verus!

verus! {

/// All numeric fields are present.
pub open spec fn numbers_present(t: TxView) -> bool {
    &&& t.tx_id is Some
    &&& t.from_user_id is Some
    &&& t.to_user_id is Some
    &&& t.amount is Some
    &&& t.timestamp is Some
}

/// Every transaction read from YPBankBin has all its numeric fields: a record always holds
/// them.
pub proof fn law_read_numbers_present(s: Seq<u8>)
    ensures
        bin_parse(s) matches Ok(v) ==> forall|i: int|
            0 <= i < v.len() ==> numbers_present(#[trigger] v[i]),
    decreases s.len(),
{
    if s.len() >= 4 {
        if let Ok((t, n)) = bin_step(s) {
            if 0 < n <= s.len() {
                law_read_numbers_present(s.skip(n));
                if let Ok(r) = bin_parse(s.skip(n)) {
                    assert(numbers_present(t));
                    assert forall|i: int| 0 <= i < (seq![t] + r).len() implies numbers_present(
                        #[trigger] (seq![t] + r)[i],
                    ) by {
                        if i > 0 {
                            assert((seq![t] + r)[i] == r[i - 1]);
                        }
                    }
                }
            }
        }
    }
}

} // verus!

verus! {

/// The warnings about the record that starts `s` (with the magic word), record `n`: a
/// TX_TYPE byte, then a STATUS byte, other than 0, 1 or 2, each as soon as it is read.
pub open spec fn bin_record_warnings(s: Seq<u8>, n: nat) -> Seq<WarningView> {
    (if s.len() > 16 && s[16] > 2 {
        seq![WarningView::UnknownTypeByte { byte: s[16], record: n }]
    } else {
        seq![]
    }) + (if s.len() > 49 && s[49] > 2 {
        seq![WarningView::UnknownStatusByte { byte: s[49], record: n }]
    } else {
        seq![]
    })
}

/// The warnings about the records of `s`, the first being record `n`, up to the first
/// error.
pub open spec fn bin_warnings_from(s: Seq<u8>, n: nat) -> Seq<WarningView>
    decreases s.len(),
{
    if s.len() < 4 || s.take(4) != magic() {
        seq![]
    } else {
        bin_record_warnings(s, n) + match bin_step(s) {
            Ok((_, k)) => if 0 < k <= s.len() {
                bin_warnings_from(s.skip(k), n + 1)
            } else {
                seq![]
            },
            Err(_) => seq![],
        }
    }
}

/// The warnings that reading YPBankBin gives, in order, records numbered from 1.
pub open spec fn bin_warnings(s: Seq<u8>) -> Seq<WarningView> {
    bin_warnings_from(s, 1)
}

/// The warnings that reading YPBankBin bytes gives, in the order the records come.
pub fn read_warnings(input: &[u8]) -> (w: Vec<Warning>)
    ensures
        warnings_view(w@) == bin_warnings(input@),
{
    let mut out: Vec<Warning> = Vec::new();
    let mut pos: usize = 0;
    let mut n: usize = 1;
    let len = input.len();
    assert(input@.subrange(0, len as int) =~= input@);
    assert(Seq::<WarningView>::empty() + bin_warnings(input@) =~= bin_warnings(input@));
    while len - pos >= 4
        invariant
            pos <= len == input@.len(),
            n <= pos + 1,
            bin_warnings(input@) == warnings_view(out@) + bin_warnings_from(
                input@.subrange(pos as int, len as int),
                n as nat,
            ),
        decreases len - pos,
    {
        let ghost s = input@.subrange(pos as int, len as int);
        let ghost o = warnings_view(out@);
        if input[pos] != 0x59u8 || input[pos + 1] != 0x50u8 || input[pos + 2] != 0x42u8
            || input[pos + 3] != 0x4Eu8 {
            assert(s.take(4)[0] == input@[pos as int]);
            assert(s.take(4)[1] == input@[pos + 1]);
            assert(s.take(4)[2] == input@[pos + 2]);
            assert(s.take(4)[3] == input@[pos + 3]);
            assert(s.take(4) != magic());
            assert(o + Seq::<WarningView>::empty() =~= o);
            return out;
        }
        assert(s.take(4) =~= magic());
        if len - pos > 16 && input[pos + 16] > 2 {
            push_warning(&mut out, Warning::UnknownTypeByte { byte: input[pos + 16], record: n });
        }
        if len - pos > 49 && input[pos + 49] > 2 {
            push_warning(&mut out, Warning::UnknownStatusByte { byte: input[pos + 49], record: n });
        }
        assert(warnings_view(out@) =~= o + bin_record_warnings(s, n as nat));
        match read_record(input, pos) {
            Err(_) => {
                assert(warnings_view(out@) + Seq::<WarningView>::empty() =~= warnings_view(out@));
                return out;
            },
            Ok((_, end)) => {
                assert(s.skip(end - pos) =~= input@.subrange(end as int, len as int));
                assert(o + bin_warnings_from(s, n as nat) =~= warnings_view(out@)
                    + bin_warnings_from(input@.subrange(end as int, len as int), (n + 1) as nat));
                n = n + 1;
                pos = end;
            },
        }
    }
    assert(warnings_view(out@) + Seq::<WarningView>::empty() =~= warnings_view(out@));
    out
}

} // verus!

verus! {

/// Reading a YPBankBin source that starts with a record gives that record first: its
/// TX_TYPE byte (offset 16) 0, 1, 2 reads as DEPOSIT, TRANSFER, WITHDRAWAL and its STATUS
/// byte (offset 49) 0, 1, 2 as SUCCESS, FAILURE, PENDING; any other byte reads as absent.
#[verifier::spinoff_prover]
pub proof fn law_read_codes(s: Seq<u8>, v: Seq<TxView>)
    requires
        s.len() >= 4,
        bin_parse(s) == Ok::<Seq<TxView>, ReadError>(v),
    ensures
        s.len() >= 54,
        v.len() >= 1,
        s[16] == 0 ==> v[0].tx_type == Some(TransactionType::DEPOSIT),
        s[16] == 1 ==> v[0].tx_type == Some(TransactionType::TRANSFER),
        s[16] == 2 ==> v[0].tx_type == Some(TransactionType::WITHDRAWAL),
        s[16] > 2 ==> v[0].tx_type is None,
        s[49] == 0 ==> v[0].status == Some(StatusType::SUCCESS),
        s[49] == 1 ==> v[0].status == Some(StatusType::FAILURE),
        s[49] == 2 ==> v[0].status == Some(StatusType::PENDING),
        s[49] > 2 ==> v[0].status is None,
        v[0].tx_id matches Some(n) && n as nat == big_endian(s.subrange(8, 16)),
        v[0].from_user_id matches Some(n) && n as nat == big_endian(s.subrange(17, 25)),
        v[0].to_user_id matches Some(n) && n as nat == big_endian(s.subrange(25, 33)),
        v[0].amount matches Some(n) && n as nat == big_endian(s.subrange(33, 41)),
        v[0].timestamp matches Some(n) && n as nat == big_endian(s.subrange(41, 49)),
        big_endian(s.subrange(50, 54)) == 0 ==> v[0].description is None,
        big_endian(s.subrange(50, 54)) > 0 ==> s.len() >= 54 + big_endian(s.subrange(50, 54))
            && v[0].description == Some(
            clean_description(
                decode_utf8(s.subrange(54, 54 + big_endian(s.subrange(50, 54)) as int)),
            ),
        ),
{
    lemma_be_u32_value(s.subrange(50, 54));
    lemma_be_u64_value(s.subrange(8, 16));
    lemma_be_u64_value(s.subrange(17, 25));
    lemma_be_u64_value(s.subrange(25, 33));
    lemma_be_u64_value(s.subrange(33, 41));
    lemma_be_u64_value(s.subrange(41, 49));
    match bin_step(s) {
        Ok((t, n)) => {
            assert(0 < n <= s.len());
            match bin_parse(s.skip(n)) {
                Ok(rest) => {
                    assert(v == seq![t] + rest);
                    assert(v[0] == t);
                },
                Err(_) => {},
            }
        },
        Err(_) => {},
    }
}

/// Writing transactions as YPBankBin puts the first one's TX_TYPE at byte 16 as DEPOSIT 0,
/// TRANSFER 1, WITHDRAWAL 2, and its STATUS at byte 49 as SUCCESS 0, FAILURE 1, PENDING 2;
/// an absent type or status is written as 0.
#[verifier::spinoff_prover]
pub proof fn law_write_codes(v: Seq<TxView>)
    requires
        v.len() >= 1,
    ensures
        bin_bytes(v).len() >= 54,
        v[0].tx_type == Some(TransactionType::DEPOSIT) ==> bin_bytes(v)[16] == 0,
        v[0].tx_type == Some(TransactionType::TRANSFER) ==> bin_bytes(v)[16] == 1,
        v[0].tx_type == Some(TransactionType::WITHDRAWAL) ==> bin_bytes(v)[16] == 2,
        v[0].tx_type is None ==> bin_bytes(v)[16] == 0,
        v[0].status == Some(StatusType::SUCCESS) ==> bin_bytes(v)[49] == 0,
        v[0].status == Some(StatusType::FAILURE) ==> bin_bytes(v)[49] == 1,
        v[0].status == Some(StatusType::PENDING) ==> bin_bytes(v)[49] == 2,
        v[0].status is None ==> bin_bytes(v)[49] == 0,
        big_endian(bin_bytes(v).subrange(8, 16)) == or_zero(v[0].tx_id),
        big_endian(bin_bytes(v).subrange(17, 25)) == or_zero(v[0].from_user_id),
        big_endian(bin_bytes(v).subrange(25, 33)) == or_zero(v[0].to_user_id),
        big_endian(bin_bytes(v).subrange(33, 41)) == or_zero(v[0].amount),
        big_endian(bin_bytes(v).subrange(41, 49)) == or_zero(v[0].timestamp),
        bin_bytes(v).take(4) == seq![0x59u8, 0x50u8, 0x42u8, 0x4Eu8],
        desc_fits(v[0]) ==> big_endian(bin_bytes(v).subrange(4, 8)) == 46
            + description_bytes(v[0]).len(),
        desc_fits(v[0]) ==> big_endian(bin_bytes(v).subrange(50, 54)) == description_bytes(
            v[0],
        ).len(),
        desc_fits(v[0]) ==> bin_bytes(v).len() >= 54 + description_bytes(v[0]).len()
            && bin_bytes(v).subrange(54, 54 + description_bytes(v[0]).len() as int)
            == description_bytes(v[0]),
        v[0].description is None ==> description_bytes(v[0]).len() == 0,
        v[0].description matches Some(d) ==> description_bytes(v[0]) == encode_utf8(d),
{
    let t = v[0];
    let f = |x: TxView| bin_record(x);
    let a = v.map_values(f);
    assert(a[0] == bin_record(t));
    let b = bin_bytes(v);
    assert(b == a[0] + a.drop_first().flatten());
    let h = record_head(t);
    let ids = record_head_ids(t);
    let vals = record_head_values(t);
    assert(ids.len() == 17);
    assert(vals.len() == 37);
    assert(ids[16] == type_byte(t.tx_type));
    assert(vals[32] == status_byte(t.status));
    assert(h[16] == ids[16]);
    assert(h[49] == vals[32]);
    assert(bin_record(t)[16] == h[16]);
    assert(bin_record(t)[49] == h[49]);
    assert(b[16] == bin_record(t)[16]);
    assert(b[49] == bin_record(t)[49]);
    let r = bin_record(t);
    assert(b.subrange(8, 16) =~= r.subrange(8, 16));
    assert(b.subrange(17, 25) =~= r.subrange(17, 25));
    assert(b.subrange(25, 33) =~= r.subrange(25, 33));
    assert(b.subrange(33, 41) =~= r.subrange(33, 41));
    assert(b.subrange(41, 49) =~= r.subrange(41, 49));
    assert(r.subrange(8, 16) =~= u64_be(or_zero(t.tx_id)));
    assert(r.subrange(17, 25) =~= u64_be(or_zero(t.from_user_id)));
    assert(r.subrange(25, 33) =~= u64_be(or_zero(t.to_user_id)));
    assert(r.subrange(33, 41) =~= u64_be(or_zero(t.amount)));
    assert(r.subrange(41, 49) =~= u64_be(or_zero(t.timestamp)));
    lemma_u64_value(or_zero(t.tx_id));
    lemma_u64_value(or_zero(t.from_user_id));
    lemma_u64_value(or_zero(t.to_user_id));
    lemma_u64_value(or_zero(t.amount));
    lemma_u64_value(or_zero(t.timestamp));
    assert(b.take(4) =~= r.take(4));
    assert(r.take(4) =~= magic());
    if desc_fits(t) {
        let n = description_bytes(t).len();
        assert(desc_len_field(t) == n);
        assert(b.subrange(4, 8) =~= r.subrange(4, 8));
        assert(r.subrange(4, 8) =~= u32_be((46 + desc_len_field(t)) as u32));
        lemma_u32_value((46 + desc_len_field(t)) as u32);
        assert(b.subrange(50, 54) =~= r.subrange(50, 54));
        assert(r.subrange(50, 54) =~= u32_be(desc_len_field(t)));
        lemma_u32_value(desc_len_field(t));
        assert(r.len() == 54 + n);
        assert(b.subrange(54, 54 + n as int) =~= r.subrange(54, 54 + n as int));
        assert(r.subrange(54, 54 + n as int) =~= description_bytes(t));
    }
}

/// The bytes a `u32` is written as stand for it, most significant first.
proof fn lemma_u32_value(x: u32)
    ensures
        big_endian(u32_be(x)) == x,
{
    lemma_u32_roundtrip(x);
    lemma_be_u32_value(u32_be(x));
}

/// The bytes a `u64` is written as stand for it, most significant first.
proof fn lemma_u64_value(x: u64)
    ensures
        big_endian(u64_be(x)) == x,
{
    lemma_u64_roundtrip(x);
    lemma_be_u64_value(u64_be(x));
}

} // verus!

verus! {

/// A YPBankBin record whose TX_TYPE byte (offset 16) is not 0, 1 or 2 gives first an
/// UnknownTypeByte warning with that byte, and one whose STATUS byte (offset 49) is not 0, 1
/// or 2 an UnknownStatusByte warning with it, right after; both for record 1.
#[verifier::spinoff_prover]
pub proof fn law_warn_bytes(s: Seq<u8>)
    requires
        s.len() >= 54,
        s.take(4) == seq![0x59u8, 0x50u8, 0x42u8, 0x4Eu8],
    ensures
        s[16] > 2 ==> bin_warnings(s).len() >= 1 && bin_warnings(s)[0]
            == (WarningView::UnknownTypeByte { byte: s[16], record: 1 }),
        s[16] <= 2 && s[49] > 2 ==> bin_warnings(s).len() >= 1 && bin_warnings(s)[0]
            == (WarningView::UnknownStatusByte { byte: s[49], record: 1 }),
        s[16] > 2 && s[49] > 2 ==> bin_warnings(s).len() >= 2 && bin_warnings(s)[1]
            == (WarningView::UnknownStatusByte { byte: s[49], record: 1 }),
{
    assert(s.take(4) =~= magic());
    let w = bin_record_warnings(s, 1);
    let rest = match bin_step(s) {
        Ok((_, k)) => if 0 < k <= s.len() {
            bin_warnings_from(s.skip(k), 2)
        } else {
            Seq::<WarningView>::empty()
        },
        Err(_) => Seq::<WarningView>::empty(),
    };
    assert(bin_warnings(s) == w + rest);
}

} // verus!

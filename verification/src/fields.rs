//! Reading and writing single fields of the text formats: numbers, transaction types,
//! statuses and descriptions.

use vstd::prelude::*;
use vstd::string::*;
use crate::strings::{debug_string, debug_text, push_char};
use crate::strings::{is_plain, is_plain_char};
use crate::text::{
    decimal, digit_char, lacks, lemma_trim_unchanged, matches_keyword, matches_keyword_at,
    parse_u64_at, trim, trim_bounds,
};
use crate::transaction::{StatusType, TransactionType};

verus! {

broadcast use vstd::string::group_string_axioms;

/// The transaction type a text field names: the trimmed field equals `deposit`,
/// `transfer` or `withdrawal` up to letter case.
pub open spec fn tx_type_of(field: Seq<char>) -> Option<TransactionType> {
    let f = trim(field);
    if matches_keyword(f, "deposit"@) {
        Some(TransactionType::DEPOSIT)
    } else if matches_keyword(f, "transfer"@) {
        Some(TransactionType::TRANSFER)
    } else if matches_keyword(f, "withdrawal"@) {
        Some(TransactionType::WITHDRAWAL)
    } else {
        None
    }
}

/// The status a text field names: the trimmed field equals `success`, `failure` or
/// `pending` up to letter case.
pub open spec fn status_of(field: Seq<char>) -> Option<StatusType> {
    let f = trim(field);
    if matches_keyword(f, "success"@) {
        Some(StatusType::SUCCESS)
    } else if matches_keyword(f, "failure"@) {
        Some(StatusType::FAILURE)
    } else if matches_keyword(f, "pending"@) {
        Some(StatusType::PENDING)
    } else {
        None
    }
}

/// How a transaction type is written: its name in capitals.
pub open spec fn tx_type_name(t: TransactionType) -> Seq<char> {
    match t {
        TransactionType::DEPOSIT => "DEPOSIT"@,
        TransactionType::TRANSFER => "TRANSFER"@,
        TransactionType::WITHDRAWAL => "WITHDRAWAL"@,
    }
}

/// How a status is written: its name in capitals.
pub open spec fn status_name(s: StatusType) -> Seq<char> {
    match s {
        StatusType::SUCCESS => "SUCCESS"@,
        StatusType::FAILURE => "FAILURE"@,
        StatusType::PENDING => "PENDING"@,
    }
}

/// `tx_type_of(t[lo..hi])`.
pub fn read_tx_type(t: &Vec<char>, lo: usize, hi: usize) -> (r: Option<TransactionType>)
    requires
        lo <= hi <= t.len(),
    ensures
        r == tx_type_of(t@.subrange(lo as int, hi as int)),
{
    let (a, b) = trim_bounds(t, lo, hi);
    if matches_keyword_at(t, a, b, "deposit") {
        Some(TransactionType::DEPOSIT)
    } else if matches_keyword_at(t, a, b, "transfer") {
        Some(TransactionType::TRANSFER)
    } else if matches_keyword_at(t, a, b, "withdrawal") {
        Some(TransactionType::WITHDRAWAL)
    } else {
        None
    }
}

/// `status_of(t[lo..hi])`.
pub fn read_status(t: &Vec<char>, lo: usize, hi: usize) -> (r: Option<StatusType>)
    requires
        lo <= hi <= t.len(),
    ensures
        r == status_of(t@.subrange(lo as int, hi as int)),
{
    let (a, b) = trim_bounds(t, lo, hi);
    if matches_keyword_at(t, a, b, "success") {
        Some(StatusType::SUCCESS)
    } else if matches_keyword_at(t, a, b, "failure") {
        Some(StatusType::FAILURE)
    } else if matches_keyword_at(t, a, b, "pending") {
        Some(StatusType::PENDING)
    } else {
        None
    }
}

/// The number in `t[lo..hi]`, as the text formats read it.
pub fn read_u64(t: &Vec<char>, lo: usize, hi: usize) -> (r: Option<u64>)
    requires
        lo <= hi <= t.len(),
    ensures
        r == crate::text::parse_u64_spec(t@.subrange(lo as int, hi as int)),
{
    parse_u64_at(t, lo, hi)
}

/// Appends the decimal writing of `n`.
pub fn push_decimal(out: &mut String, n: u64)
    ensures
        final(out)@ == old(out)@ + decimal(n as nat),
    decreases n,
{
    if n >= 10 {
        push_decimal(out, n / 10);
    }
    let d = (n % 10) as u8;
    let c = (d + 48) as char;
    assert(c == digit_char((n % 10) as int));
    push_char(out, c);
    assert(out@ =~= old(out)@ + decimal(n as nat));
}

/// Appends the name of a transaction type.
pub fn push_type_name(out: &mut String, t: TransactionType)
    ensures
        final(out)@ == old(out)@ + tx_type_name(t),
{
    match t {
        TransactionType::DEPOSIT => out.append("DEPOSIT"),
        TransactionType::TRANSFER => out.append("TRANSFER"),
        TransactionType::WITHDRAWAL => out.append("WITHDRAWAL"),
    }
}

/// Appends the name of a status.
pub fn push_status_name(out: &mut String, s: StatusType)
    ensures
        final(out)@ == old(out)@ + status_name(s),
{
    match s {
        StatusType::SUCCESS => out.append("SUCCESS"),
        StatusType::FAILURE => out.append("FAILURE"),
        StatusType::PENDING => out.append("PENDING"),
    }
}

/// Appends the Debug form of a description, as `{:?}` writes it.
pub fn push_debug(out: &mut String, d: &String)
    ensures
        final(out)@ == old(out)@ + debug_text(d@),
{
    let f = debug_string(d.as_str());
    out.append(f.as_str());
}

/// A written name is plain text without commas, starts and ends with a character other than
/// white space, and reads back as what it names.
pub proof fn lemma_tx_type_name(x: TransactionType)
    ensures
        tx_type_of(tx_type_name(x)) == Some(x),
        is_plain(tx_type_name(x)),
        lacks(tx_type_name(x), ','),
        lacks(tx_type_name(x), '\n'),
        tx_type_name(x).len() > 0,
        !crate::text::is_white_space(tx_type_name(x)[0]),
        !crate::text::is_white_space(tx_type_name(x).last()),
{
    reveal_strlit("DEPOSIT");
    reveal_strlit("TRANSFER");
    reveal_strlit("WITHDRAWAL");
    reveal_strlit("deposit");
    reveal_strlit("transfer");
    reveal_strlit("withdrawal");
    let n = tx_type_name(x);
    assert(is_plain_char(n[0]) && is_plain_char(n.last()));
    lemma_trim_unchanged(n);
    match x {
        TransactionType::DEPOSIT => {
            assert(matches_keyword(n, "deposit"@));
        },
        TransactionType::TRANSFER => {
            assert(!matches_keyword(n, "deposit"@));
            assert(matches_keyword(n, "transfer"@));
        },
        TransactionType::WITHDRAWAL => {
            assert(!matches_keyword(n, "deposit"@));
            assert(!matches_keyword(n, "transfer"@));
            assert(matches_keyword(n, "withdrawal"@));
        },
    }
}

/// A written status name is plain text without commas, starts and ends with a character
/// other than white space, and reads back as what it names.
pub proof fn lemma_status_name(x: StatusType)
    ensures
        status_of(status_name(x)) == Some(x),
        is_plain(status_name(x)),
        lacks(status_name(x), ','),
        lacks(status_name(x), '\n'),
        status_name(x).len() > 0,
        !crate::text::is_white_space(status_name(x)[0]),
        !crate::text::is_white_space(status_name(x).last()),
{
    reveal_strlit("SUCCESS");
    reveal_strlit("FAILURE");
    reveal_strlit("PENDING");
    reveal_strlit("success");
    reveal_strlit("failure");
    reveal_strlit("pending");
    let n = status_name(x);
    assert(is_plain_char(n[0]) && is_plain_char(n.last()));
    lemma_trim_unchanged(n);
    match x {
        StatusType::SUCCESS => {
            assert(matches_keyword(n, "success"@));
        },
        StatusType::FAILURE => {
            assert(!char_matches_at(n, "success"@, 0));
            assert(!matches_keyword(n, "success"@));
            assert(matches_keyword(n, "failure"@));
        },
        StatusType::PENDING => {
            assert(!char_matches_at(n, "success"@, 0));
            assert(!char_matches_at(n, "failure"@, 0));
            assert(!matches_keyword(n, "success"@));
            assert(!matches_keyword(n, "failure"@));
            assert(matches_keyword(n, "pending"@));
        },
    }
}

/// The characters at `i` match.
spec fn char_matches_at(s: Seq<char>, kw: Seq<char>, i: int) -> bool {
    crate::text::char_matches(s[i], kw[i])
}

} // verus!

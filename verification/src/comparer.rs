//! Whether two sources hold the same transactions.

use vstd::prelude::*;
use crate::converter::{
    format_bytes, format_of_name, format_parse, format_warnings, law_write_then_read,
    read_transactions, read_warnings, survives, Format,
};
use crate::warning::{warnings_view, Warning, WarningView};
use crate::error::ReadError;
use crate::transaction::{transactions_eq, txs_view, TxView};

verus! {

/// Why two sources could not be compared.
#[derive(Debug, Clone, Copy, PartialEq, Eq, Structural)]
pub enum CompareError {
    /// The first format name is not `csv`, `text` or `bin`.
    UnsupportedFirstFormat,
    /// The first source cannot be read in its format.
    FirstUnreadable(ReadError),
    /// The second format name is not `csv`, `text` or `bin`.
    UnsupportedSecondFormat,
    /// The second source cannot be read in its format.
    SecondUnreadable(ReadError),
}

/// The outcome of comparing two sources: the first is checked and read before the second;
/// then whether the two lists of transactions are equal.
pub open spec fn compare_spec(
    input1: Seq<u8>,
    format1: Seq<char>,
    input2: Seq<u8>,
    format2: Seq<char>,
) -> Result<bool, CompareError> {
    match format_of_name(format1) {
        None => Err(CompareError::UnsupportedFirstFormat),
        Some(f1) => match format_parse(f1, input1) {
            Err(e) => Err(CompareError::FirstUnreadable(e)),
            Ok(v1) => match format_of_name(format2) {
                None => Err(CompareError::UnsupportedSecondFormat),
                Some(f2) => match format_parse(f2, input2) {
                    Err(e) => Err(CompareError::SecondUnreadable(e)),
                    Ok(v2) => Ok(v1 == v2),
                },
            },
        },
    }
}

/// Reads both sources, each in its format, and tells whether they hold the same
/// transactions in the same order.
pub fn compare(input1: &[u8], format1: &str, input2: &[u8], format2: &str) -> (r: Result<
    bool,
    CompareError,
>)
    ensures
        r == compare_spec(input1@, format1@, input2@, format2@),
{
    let f1 = match Format::from_name(format1) {
        None => return Err(CompareError::UnsupportedFirstFormat),
        Some(f) => f,
    };
    let v1 = match read_transactions(f1, input1) {
        Err(e) => return Err(CompareError::FirstUnreadable(e)),
        Ok(v) => v,
    };
    let f2 = match Format::from_name(format2) {
        None => return Err(CompareError::UnsupportedSecondFormat),
        Some(f) => f,
    };
    let v2 = match read_transactions(f2, input2) {
        Err(e) => return Err(CompareError::SecondUnreadable(e)),
        Ok(v) => v,
    };
    Ok(transactions_eq(&v1, &v2))
}

/// The warnings a comparison gives while reading: those of the first source when its
/// format name is supported, then, where it was read and the second name is supported,
/// those of the second.
pub open spec fn compare_warnings(
    input1: Seq<u8>,
    format1: Seq<char>,
    input2: Seq<u8>,
    format2: Seq<char>,
) -> Seq<WarningView> {
    match format_of_name(format1) {
        None => seq![],
        Some(f1) => format_warnings(f1, input1) + match format_parse(f1, input1) {
            Err(_) => seq![],
            Ok(_) => match format_of_name(format2) {
                None => seq![],
                Some(f2) => format_warnings(f2, input2),
            },
        },
    }
}

/// What a comparison gives: its outcome and the warnings met while reading.
pub struct Comparison {
    pub result: Result<bool, CompareError>,
    pub warnings: Vec<Warning>,
}

/// `compare`, with the warnings that reading the sources gives, in the order they come.
pub fn compare_with_warnings(input1: &[u8], format1: &str, input2: &[u8], format2: &str) -> (c:
    Comparison)
    ensures
        c.result == compare_spec(input1@, format1@, input2@, format2@),
        warnings_view(c.warnings@) == compare_warnings(input1@, format1@, input2@, format2@),
{
    let result = compare(input1, format1, input2, format2);
    let mut warnings: Vec<Warning> = Vec::new();
    assert(warnings_view(warnings@) =~= Seq::<WarningView>::empty());
    if let Some(f1) = Format::from_name(format1) {
        warnings = read_warnings(f1, input1);
        let ghost w1 = warnings_view(warnings@);
        if read_transactions(f1, input1).is_ok() {
            if let Some(f2) = Format::from_name(format2) {
                let mut more = read_warnings(f2, input2);
                let ghost w2 = warnings_view(more@);
                warnings.append(&mut more);
                assert(warnings_view(warnings@) =~= w1 + w2);
            } else {
                assert(warnings_view(warnings@) =~= w1 + Seq::<WarningView>::empty());
            }
        } else {
            assert(warnings_view(warnings@) =~= w1 + Seq::<WarningView>::empty());
        }
    }
    Comparison { result, warnings }
}

} // verus!

verus! {

/// A readable source compared with itself, in the same format, is identical.
pub proof fn law_compare_reflexive(input: Seq<u8>, format: Seq<char>)
    requires
        format_of_name(format) is Some,
        format_parse(format_of_name(format)->0, input) is Ok,
    ensures
        compare_spec(input, format, input, format) == Ok::<bool, CompareError>(true),
{
}

/// Comparing two readable sources does not depend on their order.
pub proof fn law_compare_symmetric(
    input1: Seq<u8>,
    format1: Seq<char>,
    input2: Seq<u8>,
    format2: Seq<char>,
)
    requires
        format_of_name(format1) is Some,
        format_parse(format_of_name(format1)->0, input1) is Ok,
        format_of_name(format2) is Some,
        format_parse(format_of_name(format2)->0, input2) is Ok,
    ensures
        compare_spec(input1, format1, input2, format2) == compare_spec(
            input2,
            format2,
            input1,
            format1,
        ),
{
}

/// A readable source, converted to another format, compares as identical with the bytes
/// written, where every transaction it holds survives the output format.
pub proof fn law_convert_then_compare(
    input: Seq<u8>,
    format1: Seq<char>,
    format2: Seq<char>,
    v: Seq<TxView>,
)
    requires
        format_of_name(format1) is Some,
        format_of_name(format2) is Some,
        format_parse(format_of_name(format1)->0, input) == Ok::<Seq<TxView>, ReadError>(v),
        forall|i: int| 0 <= i < v.len() ==> survives(format_of_name(format2)->0, #[trigger] v[i]),
    ensures
        compare_spec(input, format1, format_bytes(format_of_name(format2)->0, v), format2)
            == Ok::<bool, CompareError>(true),
{
    law_write_then_read(format_of_name(format2)->0, v);
}

} // verus!

verus! {

/// Two readable sources compare as identical exactly when they hold as many transactions
/// and agree at every position: one transaction that differs anywhere, or a different
/// count, gives `false`.
#[verifier::spinoff_prover]
pub proof fn law_compare_pointwise(
    input1: Seq<u8>,
    format1: Seq<char>,
    input2: Seq<u8>,
    format2: Seq<char>,
    v1: Seq<TxView>,
    v2: Seq<TxView>,
)
    requires
        format_of_name(format1) is Some,
        format_parse(format_of_name(format1)->0, input1) == Ok::<Seq<TxView>, ReadError>(v1),
        format_of_name(format2) is Some,
        format_parse(format_of_name(format2)->0, input2) == Ok::<Seq<TxView>, ReadError>(v2),
    ensures
        compare_spec(input1, format1, input2, format2) == Ok::<bool, CompareError>(
            v1.len() == v2.len() && forall|i: int| 0 <= i < v1.len() ==> #[trigger] v1[i] == v2[i],
        ),
{
    if v1.len() == v2.len() && forall|i: int| 0 <= i < v1.len() ==> #[trigger] v1[i] == v2[i] {
        assert(v1 =~= v2);
    }
}

} // verus!

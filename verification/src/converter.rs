//! Choosing a format by name, and reading or writing transactions in it.

use vstd::prelude::*;
use vstd::utf8::encode_utf8;
use crate::error::ReadError;
use crate::formats::bin_format::{self, bin_bytes, bin_normal, bin_normal_all, bin_parse, desc_fits, record_fits};
use crate::formats::csv_format::{self, csv_parse, csv_safe, csv_text};
use crate::formats::txt_format::{self, txt_parse, txt_text, txt_writable};
use crate::text::{chars_of, equals_str};
use crate::transaction::{is_complete_spec, txs_view, Transaction, TxView};
use crate::warning::{warnings_view, Warning, WarningView};
use crate::formats::bin_format::bin_warnings;
use crate::formats::csv_format::csv_warnings;
use crate::formats::txt_format::txt_warnings;

verus! {

broadcast use vstd::string::group_string_axioms;

/// The three supported formats.
#[derive(Debug, Clone, Copy, PartialEq, Eq, Structural)]
pub enum Format {
    /// YPBankCsv, named `csv`.
    Csv,
    /// YPBankText, named `text`.
    Text,
    /// YPBankBin, named `bin`.
    Bin,
}

/// The format a name stands for: exactly `csv`, `text` or `bin`.
pub open spec fn format_of_name(name: Seq<char>) -> Option<Format> {
    if name == "csv"@ {
        Some(Format::Csv)
    } else if name == "text"@ {
        Some(Format::Text)
    } else if name == "bin"@ {
        Some(Format::Bin)
    } else {
        None
    }
}

/// The file extension of a format.
pub open spec fn extension_of(f: Format) -> Seq<char> {
    match f {
        Format::Csv => "csv"@,
        Format::Text => "txt"@,
        Format::Bin => "bin"@,
    }
}

/// What reading bytes in a format gives.
pub open spec fn format_parse(f: Format, input: Seq<u8>) -> Result<Seq<TxView>, ReadError> {
    match f {
        Format::Csv => csv_parse(input),
        Format::Text => txt_parse(input),
        Format::Bin => bin_parse(input),
    }
}

/// The bytes of transactions written in a format.
pub open spec fn format_bytes(f: Format, v: Seq<TxView>) -> Seq<u8> {
    match f {
        Format::Csv => encode_utf8(csv_text(v)),
        Format::Text => encode_utf8(txt_text(v)),
        Format::Bin => bin_bytes(v),
    }
}

/// Every record fits YPBankBin's record size field.
pub open spec fn all_records_fit(v: Seq<TxView>) -> bool {
    forall|i: int| 0 <= i < v.len() ==> record_fits(#[trigger] v[i])
}

impl Format {
    /// The format named `name`: `csv`, `text` or `bin`, exactly; `None` for any other name.
    pub fn from_name(name: &str) -> (r: Option<Format>)
        ensures
            r == format_of_name(name@),
    {
        let t = chars_of(name);
        if equals_str(&t, "csv") {
            Some(Format::Csv)
        } else if equals_str(&t, "text") {
            Some(Format::Text)
        } else if equals_str(&t, "bin") {
            Some(Format::Bin)
        } else {
            None
        }
    }

    /// The extension of a converted file: `csv`, `txt` or `bin`.
    pub fn extension(&self) -> (e: &'static str)
        ensures
            e@ == extension_of(*self),
    {
        match self {
            Format::Csv => "csv",
            Format::Text => "txt",
            Format::Bin => "bin",
        }
    }
}

/// Reads transactions from bytes in the given format.
pub fn read_transactions(format: Format, input: &[u8]) -> (r: Result<Vec<Transaction>, ReadError>)
    ensures
        match r {
            Ok(v) => format_parse(format, input@) == Ok::<Seq<TxView>, ReadError>(txs_view(v@)),
            Err(e) => format_parse(format, input@) == Err::<Seq<TxView>, ReadError>(e),
        },
{
    match format {
        Format::Csv => csv_format::from_read(input),
        Format::Text => txt_format::from_read(input),
        Format::Bin => bin_format::from_read(input),
    }
}

/// Whether every transaction fits YPBankBin's record size field: its description's byte
/// length, cut to 32 bits, plus 46 does not overflow `u32`.
pub fn records_fit(v: &Vec<Transaction>) -> (b: bool)
    ensures
        b == all_records_fit(txs_view(v@)),
{
    let mut i: usize = 0;
    while i < v.len()
        invariant
            0 <= i <= v@.len(),
            forall|j: int| 0 <= j < i ==> record_fits(#[trigger] v@[j]@),
        decreases v@.len() - i,
    {
        let n: u32 = match &v[i].description {
            Some(d) => #[verifier::truncate] (d.as_str().as_bytes().len() as u32),
            None => 0,
        };
        assert(n == bin_format::desc_len_field(v@[i as int]@));
        if n > u32::MAX - 46 {
            assert(!record_fits(txs_view(v@)[i as int]));
            return false;
        }
        i = i + 1;
    }
    assert forall|j: int| 0 <= j < txs_view(v@).len() implies record_fits(
        #[trigger] txs_view(v@)[j],
    ) by {
        assert(txs_view(v@)[j] == v@[j]@);
    }
    true
}

/// Writes transactions in the given format. Writing YPBankBin asks that every record fits
/// its record size field.
pub fn write_transactions(format: Format, transactions: Vec<Transaction>) -> (out: Vec<u8>)
    requires
        format == Format::Bin ==> all_records_fit(txs_view(transactions@)),
    ensures
        out@ == format_bytes(format, txs_view(transactions@)),
{
    match format {
        Format::Csv => csv_format::write_to(transactions),
        Format::Text => txt_format::write_to(transactions),
        Format::Bin => {
            assert forall|i: int| 0 <= i < transactions@.len() implies record_fits(
                #[trigger] transactions@[i]@,
            ) by {
                assert(txs_view(transactions@)[i] == transactions@[i]@);
            }
            bin_format::write_to(transactions)
        },
    }
}

} // verus!

verus! {

/// A transaction that a format writes and reads back unchanged: in YPBankCsv a complete one
/// whose description is `csv_safe`; in YPBankText one with a TX_ID and, where it has a
/// description, a plain one; in YPBankBin one already in the form that `bin_normal` gives,
/// whose description fits the record size field.
pub open spec fn survives(f: Format, t: TxView) -> bool {
    match f {
        Format::Csv => is_complete_spec(t) && csv_safe(t.description->0),
        Format::Text => txt_writable(t),
        Format::Bin => desc_fits(t) && bin_normal(t) == t,
    }
}

/// Writing transactions in a format and reading the bytes back in the same format gives
/// them unchanged, where every one of them survives the format.
pub proof fn law_write_then_read(f: Format, v: Seq<TxView>)
    requires
        forall|i: int| 0 <= i < v.len() ==> survives(f, #[trigger] v[i]),
    ensures
        format_parse(f, format_bytes(f, v)) == Ok::<Seq<TxView>, ReadError>(v),
{
    match f {
        Format::Csv => {
            assert forall|i: int| 0 <= i < v.len() implies csv_format::csv_writable(
                #[trigger] v[i],
            ) by {
                assert(survives(f, v[i]));
            }
            csv_format::law_write_then_read(v);
            assert forall|i: int| 0 <= i < v.len() implies is_complete_spec(#[trigger] v[i]) by {
                assert(survives(f, v[i]));
            }
            csv_format::lemma_complete_only_all(v);
        },
        Format::Text => {
            assert forall|i: int| 0 <= i < v.len() implies txt_writable(#[trigger] v[i]) by {
                assert(survives(f, v[i]));
            }
            txt_format::law_write_then_read(v);
        },
        Format::Bin => {
            assert forall|i: int| 0 <= i < v.len() implies desc_fits(#[trigger] v[i]) by {
                assert(survives(f, v[i]));
            }
            bin_format::law_write_then_read(v);
            assert forall|i: int| 0 <= i < v.len() implies bin_normal_all(v)[i] == v[i] by {
                assert(survives(f, v[i]));
            }
            assert(bin_normal_all(v) =~= v);
        },
    }
}

} // verus!

verus! {

/// The warnings that reading bytes in a format gives.
pub open spec fn format_warnings(f: Format, input: Seq<u8>) -> Seq<WarningView> {
    match f {
        Format::Csv => csv_warnings(input),
        Format::Text => txt_warnings(input),
        Format::Bin => bin_warnings(input),
    }
}

/// The warnings that reading bytes in the given format gives, in order.
pub fn read_warnings(format: Format, input: &[u8]) -> (w: Vec<Warning>)
    ensures
        warnings_view(w@) == format_warnings(format, input@),
{
    match format {
        Format::Csv => csv_format::read_warnings(input),
        Format::Text => txt_format::read_warnings(input),
        Format::Bin => bin_format::read_warnings(input),
    }
}

/// Why a conversion could not be made.
#[derive(Debug, Clone, Copy, PartialEq, Eq, Structural)]
pub enum ConvertError {
    /// The input format name is not `csv`, `text` or `bin`.
    UnsupportedInputFormat,
    /// The source cannot be read in the input format.
    Unreadable(ReadError),
    /// The output format name is not `csv`, `text` or `bin`.
    UnsupportedOutputFormat,
}

/// The outcome of converting: the input name is checked, the source read, then the output
/// name checked; the transactions read are written in the output format.
pub open spec fn convert_spec(input: Seq<u8>, from: Seq<char>, to: Seq<char>) -> Result<
    (Format, Seq<u8>),
    ConvertError,
> {
    match format_of_name(from) {
        None => Err(ConvertError::UnsupportedInputFormat),
        Some(f) => match format_parse(f, input) {
            Err(e) => Err(ConvertError::Unreadable(e)),
            Ok(v) => match format_of_name(to) {
                None => Err(ConvertError::UnsupportedOutputFormat),
                Some(g) => Ok((g, format_bytes(g, v))),
            },
        },
    }
}

/// The warnings a conversion gives while reading: none where the input name is not
/// supported.
pub open spec fn convert_warnings(input: Seq<u8>, from: Seq<char>) -> Seq<WarningView> {
    match format_of_name(from) {
        None => seq![],
        Some(f) => format_warnings(f, input),
    }
}

/// The number of transactions that are not complete.
pub open spec fn incomplete_count(v: Seq<TxView>) -> nat
    decreases v.len(),
{
    if v.len() == 0 {
        0
    } else {
        (if is_complete_spec(v[0]) {
            0nat
        } else {
            1nat
        }) + incomplete_count(v.drop_first())
    }
}

/// How many transactions a conversion leaves out: writing YPBankCsv leaves out the ones
/// that are not complete; other conversions, and failed ones, leave out none.
pub open spec fn convert_skipped(input: Seq<u8>, from: Seq<char>, to: Seq<char>) -> nat {
    match (format_of_name(from), format_of_name(to)) {
        (Some(f), Some(Format::Csv)) => match format_parse(f, input) {
            Ok(v) => incomplete_count(v),
            Err(_) => 0,
        },
        _ => 0,
    }
}

/// A conversion can be written: unless it reads transactions and writes YPBankBin, every
/// record then fits the record size field.
pub open spec fn convert_fits_spec(input: Seq<u8>, from: Seq<char>, to: Seq<char>) -> bool {
    match (format_of_name(from), format_of_name(to)) {
        (Some(f), Some(Format::Bin)) => match format_parse(f, input) {
            Ok(v) => all_records_fit(v),
            Err(_) => true,
        },
        _ => true,
    }
}

/// What a conversion gives: the output format and bytes, or the error; the warnings met
/// while reading; and how many transactions writing left out.
pub struct Conversion {
    pub result: Result<(Format, Vec<u8>), ConvertError>,
    pub warnings: Vec<Warning>,
    pub skipped: usize,
}

/// The number of transactions that are not complete.
fn count_incomplete(v: &Vec<Transaction>) -> (n: usize)
    ensures
        n == incomplete_count(txs_view(v@)),
{
    let mut n: usize = 0;
    let len = v.len();
    let mut i = len;
    assert(txs_view(v@).skip(i as int) =~= Seq::<TxView>::empty());
    while i > 0
        invariant
            i <= len == v@.len(),
            n <= len - i,
            n == incomplete_count(txs_view(v@).skip(i as int)),
        decreases i,
    {
        i = i - 1;
        let ghost w = txs_view(v@).skip(i as int);
        assert(w.drop_first() =~= txs_view(v@).skip(i + 1));
        assert(w[0] == v@[i as int]@);
        if !v[i].is_complete() {
            n = n + 1;
        }
    }
    assert(txs_view(v@).skip(0) =~= txs_view(v@));
    n
}

/// Whether the conversion of `input` from `from` to `to` can be written: false only where
/// it reads transactions and one of them does not fit YPBankBin's record size field.
pub fn convert_fits(input: &[u8], from: &str, to: &str) -> (b: bool)
    ensures
        b == convert_fits_spec(input@, from@, to@),
{
    match (Format::from_name(from), Format::from_name(to)) {
        (Some(f), Some(Format::Bin)) => match read_transactions(f, input) {
            Ok(v) => records_fit(&v),
            Err(_) => true,
        },
        _ => true,
    }
}

/// Converts `input` from the format named `from` to the one named `to`: the input name is
/// checked, the source read (with its warnings), the output name checked, and the
/// transactions written. YPBankBin output asks that every record fits its size field.
pub fn convert(input: &[u8], from: &str, to: &str) -> (c: Conversion)
    requires
        convert_fits_spec(input@, from@, to@),
    ensures
        match c.result {
            Ok((g, out)) => convert_spec(input@, from@, to@) == Ok::<
                (Format, Seq<u8>),
                ConvertError,
            >((g, out@)),
            Err(e) => convert_spec(input@, from@, to@) == Err::<(Format, Seq<u8>), ConvertError>(e),
        },
        warnings_view(c.warnings@) == convert_warnings(input@, from@),
        c.skipped == convert_skipped(input@, from@, to@),
{
    let f = match Format::from_name(from) {
        None => {
            let w: Vec<Warning> = Vec::new();
            assert(warnings_view(w@) =~= Seq::<WarningView>::empty());
            return Conversion { result: Err(ConvertError::UnsupportedInputFormat), warnings: w, skipped: 0 };
        },
        Some(f) => f,
    };
    let warnings = read_warnings(f, input);
    let v = match read_transactions(f, input) {
        Err(e) => {
            return Conversion { result: Err(ConvertError::Unreadable(e)), warnings, skipped: 0 };
        },
        Ok(v) => v,
    };
    let g = match Format::from_name(to) {
        None => {
            return Conversion { result: Err(ConvertError::UnsupportedOutputFormat), warnings, skipped: 0 };
        },
        Some(g) => g,
    };
    let skipped = if g == Format::Csv {
        count_incomplete(&v)
    } else {
        0
    };
    let out = write_transactions(g, v);
    Conversion { result: Ok((g, out)), warnings, skipped }
}

} // verus!

verus! {

/// A conversion writes exactly the transactions it read, all of them and in order: for a
/// readable source and a supported output format, the output is the transactions read,
/// written in that format; to YPBankCsv, the ones it leaves out and the complete ones it
/// writes add up to all that were read. Read back as YPBankBin it gives every one of them, normalized, so
/// as many as were read; read back as YPBankText it gives them unchanged where each has a
/// TX_ID and a plain description.
#[verifier::spinoff_prover]
pub proof fn law_convert_writes_all(input: Seq<u8>, from: Seq<char>, to: Seq<char>, v: Seq<TxView>)
    requires
        format_of_name(from) is Some,
        format_parse(format_of_name(from)->0, input) == Ok::<Seq<TxView>, ReadError>(v),
        format_of_name(to) is Some,
    ensures
        convert_spec(input, from, to) == Ok::<(Format, Seq<u8>), ConvertError>(
            (format_of_name(to)->0, format_bytes(format_of_name(to)->0, v)),
        ),
        format_of_name(to) == Some(Format::Bin) && (forall|i: int|
            0 <= i < v.len() ==> desc_fits(#[trigger] v[i])) ==> format_parse(
            Format::Bin,
            format_bytes(Format::Bin, v),
        ) == Ok::<Seq<TxView>, ReadError>(bin_normal_all(v)) && bin_normal_all(v).len()
            == v.len(),
        format_of_name(to) == Some(Format::Text) && (forall|i: int|
            0 <= i < v.len() ==> txt_writable(#[trigger] v[i])) ==> format_parse(
            Format::Text,
            format_bytes(Format::Text, v),
        ) == Ok::<Seq<TxView>, ReadError>(v),
        format_of_name(to) == Some(Format::Csv) ==> convert_skipped(input, from, to)
            + csv_format::complete_only(v).len() == v.len(),
{
    lemma_skipped_and_written(v);
    if format_of_name(to) == Some(Format::Bin) && (forall|i: int|
        0 <= i < v.len() ==> desc_fits(#[trigger] v[i])) {
        bin_format::law_write_then_read(v);
    }
    if format_of_name(to) == Some(Format::Text) && (forall|i: int|
        0 <= i < v.len() ==> txt_writable(#[trigger] v[i])) {
        txt_format::law_write_then_read(v);
    }
}

} // verus!

verus! {

/// The transactions that are not complete and the complete ones add up to all of them.
proof fn lemma_skipped_and_written(v: Seq<TxView>)
    ensures
        incomplete_count(v) + csv_format::complete_only(v).len() == v.len(),
    decreases v.len(),
{
    if v.len() > 0 {
        lemma_skipped_and_written(v.drop_first());
    }
}

} // verus!

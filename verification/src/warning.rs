//! Warnings that reading a source gives about records it reads only in part.

use vstd::prelude::*;

verus! {

/// Something reading noticed about one record, numbered from 1, that did not stop the read.
#[derive(Debug, Clone, PartialEq, Eq)]
pub enum Warning {
    /// A CSV line with fewer than eight fields, and how many it has; the line is skipped.
    ShortRecord { fields: usize, record: usize },
    /// A TX_TYPE field that names no type, as it stands in the source.
    UnknownType { value: String, record: usize },
    /// A STATUS field that names no status, as it stands in the source.
    UnknownStatus { value: String, record: usize },
    /// A YPBankBin TX_TYPE byte other than 0, 1 or 2.
    UnknownTypeByte { byte: u8, record: usize },
    /// A YPBankBin STATUS byte other than 0, 1 or 2.
    UnknownStatusByte { byte: u8, record: usize },
    /// A YPBankText line whose key names no field.
    UnknownKey { record: usize },
}

/// The mathematical value of a [`Warning`]: field text is taken by its characters.
pub enum WarningView {
    ShortRecord { fields: nat, record: nat },
    UnknownType { value: Seq<char>, record: nat },
    UnknownStatus { value: Seq<char>, record: nat },
    UnknownTypeByte { byte: u8, record: nat },
    UnknownStatusByte { byte: u8, record: nat },
    UnknownKey { record: nat },
}

impl View for Warning {
    type V = WarningView;

    open spec fn view(&self) -> WarningView {
        match self {
            Warning::ShortRecord { fields, record } => WarningView::ShortRecord {
                fields: *fields as nat,
                record: *record as nat,
            },
            Warning::UnknownType { value, record } => WarningView::UnknownType {
                value: value@,
                record: *record as nat,
            },
            Warning::UnknownStatus { value, record } => WarningView::UnknownStatus {
                value: value@,
                record: *record as nat,
            },
            Warning::UnknownTypeByte { byte, record } => WarningView::UnknownTypeByte {
                byte: *byte,
                record: *record as nat,
            },
            Warning::UnknownStatusByte { byte, record } => WarningView::UnknownStatusByte {
                byte: *byte,
                record: *record as nat,
            },
            Warning::UnknownKey { record } => WarningView::UnknownKey { record: *record as nat },
        }
    }
}

/// The views of a sequence of warnings.
pub open spec fn warnings_view(v: Seq<Warning>) -> Seq<WarningView> {
    v.map_values(|w: Warning| w@)
}

/// Appends a warning.
pub fn push_warning(out: &mut Vec<Warning>, w: Warning)
    ensures
        warnings_view(final(out)@) == warnings_view(old(out)@) + seq![w@],
{
    let ghost w0 = w@;
    out.push(w);
    assert(warnings_view(out@) =~= warnings_view(old(out)@) + seq![w0]);
}

} // verus!

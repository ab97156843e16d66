//! YPBankText: one block of `KEY: value` lines per transaction, blocks separated by
//! blank lines.

use vstd::prelude::*;
use vstd::string::*;
use vstd::utf8::{decode_utf8, encode_utf8, valid_utf8};
use crate::error::ReadError;
use crate::fields::{
    push_debug, push_decimal, push_status_name, push_type_name, read_status, read_tx_type,
    read_u64, status_name, status_of, tx_type_name, tx_type_of,
};
use crate::strings::{
    debug_text, is_plain, is_plain_char, push_char, string_from_chars, string_from_utf8,
};
use crate::fields::{lemma_status_name, lemma_tx_type_name};
use crate::text::{
    chars_of, clean_bounds, clean_description, decimal, find_char, find_first, is_digit,
    is_white_space, lacks, lemma_decimal, lemma_find_first, lemma_find_first_at,
    lemma_clean_quoted, lemma_lines_cons, lemma_parse_decimal, lemma_trim_after_space, lemma_trim_unchanged, lines,
    matches_keyword, matches_keyword_at, next_line, parse_u64_spec, trim, trim_bounds,
};
use crate::text::{
    is_quote, lemma_strip_end, lemma_strip_end_keeps_first, lemma_strip_start, strip_end,
    strip_start,
};
use crate::transaction::{empty_tx, txs_view, Transaction, TxView};
use crate::byte_lines::{good_lines, next_good_line};
use crate::warning::{push_warning, warnings_view, Warning, WarningView};

verus! {

broadcast use vstd::string::group_string_axioms;

/// The transaction `cur` after a `key: value` line: the field that the trimmed key
/// names, up to letter case, is set from the value; another key changes nothing.
pub open spec fn apply_key(cur: TxView, key: Seq<char>, value: Seq<char>) -> TxView {
    if matches_keyword(key, "tx_id"@) {
        TxView { tx_id: parse_u64_spec(value), ..cur }
    } else if matches_keyword(key, "tx_type"@) {
        TxView { tx_type: tx_type_of(value), ..cur }
    } else if matches_keyword(key, "from_user_id"@) {
        TxView { from_user_id: parse_u64_spec(value), ..cur }
    } else if matches_keyword(key, "to_user_id"@) {
        TxView { to_user_id: parse_u64_spec(value), ..cur }
    } else if matches_keyword(key, "amount"@) {
        TxView { amount: parse_u64_spec(value), ..cur }
    } else if matches_keyword(key, "timestamp"@) {
        TxView { timestamp: parse_u64_spec(value), ..cur }
    } else if matches_keyword(key, "status"@) {
        TxView { status: status_of(value), ..cur }
    } else if matches_keyword(key, "description"@) {
        TxView { description: Some(clean_description(value)), ..cur }
    } else {
        cur
    }
}

/// The transaction `cur` after the line `l`, cut at its first colon into key and value; a
/// line without a colon changes nothing.
pub open spec fn txt_apply(cur: TxView, l: Seq<char>) -> TxView {
    let k = find_first(l, ':');
    if k >= l.len() {
        cur
    } else {
        apply_key(cur, trim(l.take(k)), l.skip(k + 1))
    }
}

/// The transactions of the lines `ls`, the current transaction being `cur`. A blank line
/// ends the current transaction when it has a TX_ID; one without keeps collecting fields.
/// At the end, the current transaction is kept when it has a TX_ID.
pub open spec fn txt_fold(ls: Seq<Seq<char>>, cur: TxView) -> Seq<TxView>
    decreases ls.len(),
{
    if ls.len() == 0 {
        if cur.tx_id is Some {
            seq![cur]
        } else {
            seq![]
        }
    } else if trim(ls[0]).len() == 0 {
        if cur.tx_id is Some {
            seq![cur] + txt_fold(ls.drop_first(), empty_tx())
        } else {
            txt_fold(ls.drop_first(), cur)
        }
    } else {
        txt_fold(ls.drop_first(), txt_apply(cur, ls[0]))
    }
}

/// What reading YPBankText gives: the source must be UTF-8 (else `InvalidFormat`), and its
/// lines are folded from the empty transaction.
pub open spec fn txt_parse(input: Seq<u8>) -> Result<Seq<TxView>, ReadError> {
    if valid_utf8(input) {
        Ok(txt_fold(lines(decode_utf8(input)), empty_tx()))
    } else {
        Err(ReadError::InvalidFormat)
    }
}

/// Applies the line `t[lo..hi]` to the current transaction.
fn apply_line(cur: &mut Transaction, t: &Vec<char>, lo: usize, hi: usize)
    requires
        lo <= hi <= t.len(),
    ensures
        final(cur)@ == txt_apply(old(cur)@, t@.subrange(lo as int, hi as int)),
{
    let ghost l = t@.subrange(lo as int, hi as int);
    let k = find_char(t, lo, hi, ':');
    if k == hi {
        return;
    }
    assert(l.take(k - lo) =~= t@.subrange(lo as int, k as int));
    assert(l.skip(k - lo + 1) =~= t@.subrange(k + 1, hi as int));
    let (a, b) = trim_bounds(t, lo, k);
    let v = k + 1;
    if matches_keyword_at(t, a, b, "tx_id") {
        cur.tx_id = read_u64(t, v, hi);
    } else if matches_keyword_at(t, a, b, "tx_type") {
        cur.tx_type = read_tx_type(t, v, hi);
    } else if matches_keyword_at(t, a, b, "from_user_id") {
        cur.from_user_id = read_u64(t, v, hi);
    } else if matches_keyword_at(t, a, b, "to_user_id") {
        cur.to_user_id = read_u64(t, v, hi);
    } else if matches_keyword_at(t, a, b, "amount") {
        cur.amount = read_u64(t, v, hi);
    } else if matches_keyword_at(t, a, b, "timestamp") {
        cur.timestamp = read_u64(t, v, hi);
    } else if matches_keyword_at(t, a, b, "status") {
        cur.status = read_status(t, v, hi);
    } else if matches_keyword_at(t, a, b, "description") {
        let (d0, d1) = clean_bounds(t, v, hi);
        cur.description = Some(string_from_chars(t, d0, d1));
    }
}

/// The transactions of all lines of `t`.
fn read_lines(t: &Vec<char>) -> (v: Vec<Transaction>)
    ensures
        txs_view(v@) == txt_fold(lines(t@), empty_tx()),
{
    let mut out: Vec<Transaction> = Vec::new();
    let mut cur = Transaction::new();
    let mut pos: usize = 0;
    let len = t.len();
    assert(t@.subrange(0, len as int) =~= t@);
    assert(txs_view(out@) + txt_fold(lines(t@), empty_tx()) =~= txt_fold(lines(t@), empty_tx()));
    while pos < len
        invariant
            pos <= len == t@.len(),
            txt_fold(lines(t@), empty_tx()) == txs_view(out@) + txt_fold(
                lines(t@.subrange(pos as int, len as int)),
                cur@,
            ),
        decreases len - pos,
    {
        let (lo, hi, next) = next_line(t, pos);
        let ghost ls = lines(t@.subrange(pos as int, len as int));
        let ghost rest = lines(t@.subrange(next as int, len as int));
        assert(ls.drop_first() =~= rest);
        let (a, b) = trim_bounds(t, lo, hi);
        if a == b {
            if cur.tx_id.is_some() {
                let done = cur;
                cur = Transaction::new();
                assert(txs_view(out@.push(done)) =~= txs_view(out@) + seq![done@]);
                out.push(done);
                assert(txt_fold(lines(t@), empty_tx()) =~= txs_view(out@) + txt_fold(rest, cur@));
            }
        } else {
            apply_line(&mut cur, t, lo, hi);
        }
        pos = next;
    }
    assert(t@.subrange(len as int, len as int) =~= Seq::<char>::empty());
    assert(lines(Seq::<char>::empty()) =~= Seq::<Seq<char>>::empty());
    if cur.tx_id.is_some() {
        assert(txs_view(out@.push(cur)) =~= txs_view(out@) + seq![cur@]);
        out.push(cur);
    } else {
        assert(txs_view(out@) + Seq::<TxView>::empty() =~= txs_view(out@));
    }
    out
}

/// Reads YPBankText bytes into transactions. The source must be UTF-8, else
/// `InvalidFormat`. Each line `KEY: value` sets a field of the current transaction; a blank
/// line closes it when it has a TX_ID, and so does the end of the source.
pub fn from_read(input: &[u8]) -> (r: Result<Vec<Transaction>, ReadError>)
    ensures
        match r {
            Ok(v) => txt_parse(input@) == Ok::<Seq<TxView>, ReadError>(txs_view(v@)),
            Err(e) => txt_parse(input@) == Err::<Seq<TxView>, ReadError>(e),
        },
{
    let bytes = vstd::slice::slice_to_vec(input);
    match string_from_utf8(bytes) {
        None => Err(ReadError::InvalidFormat),
        Some(s) => {
            let t = chars_of(s.as_str());
            Ok(read_lines(&t))
        },
    }
}

/// The line `label` + decimal value, when the number is present.
pub open spec fn u64_line(label: Seq<char>, o: Option<u64>) -> Seq<char> {
    match o {
        Some(x) => label + decimal(x as nat) + seq!['\n'],
        None => seq![],
    }
}

/// The TX_TYPE line, when the type is present.
pub open spec fn type_line(o: Option<crate::transaction::TransactionType>) -> Seq<char> {
    match o {
        Some(x) => "TX_TYPE: "@ + tx_type_name(x) + seq!['\n'],
        None => seq![],
    }
}

/// The STATUS line, when the status is present.
pub open spec fn status_line(o: Option<crate::transaction::StatusType>) -> Seq<char> {
    match o {
        Some(x) => "STATUS: "@ + status_name(x) + seq!['\n'],
        None => seq![],
    }
}

/// The DESCRIPTION line, the description in its Debug form, when it is present.
pub open spec fn description_line(o: Option<Seq<char>>) -> Seq<char> {
    match o {
        Some(d) => "DESCRIPTION: "@ + debug_text(d) + seq!['\n'],
        None => seq![],
    }
}

/// The block of a transaction: one line per present field, in a fixed order, then a blank
/// line.
pub open spec fn txt_block(t: TxView) -> Seq<char> {
    u64_line("TX_ID: "@, t.tx_id) + type_line(t.tx_type) + u64_line(
        "FROM_USER_ID: "@,
        t.from_user_id,
    ) + u64_line("TO_USER_ID: "@, t.to_user_id) + u64_line("AMOUNT: "@, t.amount) + u64_line(
        "TIMESTAMP: "@,
        t.timestamp,
    ) + status_line(t.status) + description_line(t.description) + seq!['\n']
}

/// The text of a list of transactions: their blocks one after another.
pub open spec fn txt_text(v: Seq<TxView>) -> Seq<char> {
    v.map_values(|t: TxView| txt_block(t)).flatten()
}

/// Appends a labelled number line when the number is present.
fn write_u64_line(out: &mut String, label: &str, o: Option<u64>)
    ensures
        final(out)@ == old(out)@ + u64_line(label@, o),
{
    match o {
        Some(x) => {
            out.append(label);
            push_decimal(out, x);
            push_char(out, '\n');
            assert(out@ =~= old(out)@ + u64_line(label@, o));
        },
        None => {
            assert(out@ =~= old(out)@ + u64_line(label@, o));
        },
    }
}

/// Appends the TX_TYPE line when the type is present.
fn write_type_line(out: &mut String, o: Option<crate::transaction::TransactionType>)
    ensures
        final(out)@ == old(out)@ + type_line(o),
{
    match o {
        Some(x) => {
            out.append("TX_TYPE: ");
            push_type_name(out, x);
            push_char(out, '\n');
        },
        None => {},
    }
    assert(out@ =~= old(out)@ + type_line(o));
}

/// Appends the STATUS line when the status is present.
fn write_status_line(out: &mut String, o: Option<crate::transaction::StatusType>)
    ensures
        final(out)@ == old(out)@ + status_line(o),
{
    match o {
        Some(x) => {
            out.append("STATUS: ");
            push_status_name(out, x);
            push_char(out, '\n');
        },
        None => {},
    }
    assert(out@ =~= old(out)@ + status_line(o));
}

/// Appends the DESCRIPTION line when the description is present.
fn write_description_line(out: &mut String, o: &Option<String>)
    ensures
        final(out)@ == old(out)@ + description_line(crate::transaction::opt_string_view(*o)),
{
    match o {
        Some(d) => {
            out.append("DESCRIPTION: ");
            push_debug(out, d);
            push_char(out, '\n');
        },
        None => {},
    }
    assert(out@ =~= old(out)@ + description_line(crate::transaction::opt_string_view(*o)));
}

/// Appends the block of a transaction.
fn write_block(out: &mut String, t: &Transaction)
    ensures
        final(out)@ == old(out)@ + txt_block(t@),
{
    let ghost o = out@;
    write_u64_line(out, "TX_ID: ", t.tx_id);
    let ghost a1 = u64_line("TX_ID: "@, t@.tx_id);
    write_type_line(out, t.tx_type);
    let ghost a2 = a1 + type_line(t@.tx_type);
    assert(out@ =~= o + a2);
    write_u64_line(out, "FROM_USER_ID: ", t.from_user_id);
    let ghost a3 = a2 + u64_line("FROM_USER_ID: "@, t@.from_user_id);
    assert(out@ =~= o + a3);
    write_u64_line(out, "TO_USER_ID: ", t.to_user_id);
    let ghost a4 = a3 + u64_line("TO_USER_ID: "@, t@.to_user_id);
    assert(out@ =~= o + a4);
    write_u64_line(out, "AMOUNT: ", t.amount);
    let ghost a5 = a4 + u64_line("AMOUNT: "@, t@.amount);
    assert(out@ =~= o + a5);
    write_u64_line(out, "TIMESTAMP: ", t.timestamp);
    let ghost a6 = a5 + u64_line("TIMESTAMP: "@, t@.timestamp);
    assert(out@ =~= o + a6);
    write_status_line(out, t.status);
    let ghost a7 = a6 + status_line(t@.status);
    assert(out@ =~= o + a7);
    write_description_line(out, &t.description);
    let ghost a8 = a7 + description_line(t@.description);
    assert(out@ =~= o + a8);
    push_char(out, '\n');
    assert(out@ =~= o + (a8 + seq!['\n']));
    assert(a8 + seq!['\n'] == txt_block(t@));
}

/// Writes transactions as YPBankText: one block per transaction, in order, each field line
/// present only for a present field, each block followed by a blank line. Returns the UTF-8
/// bytes of the text.
pub fn write_to(transactions: Vec<Transaction>) -> (out: Vec<u8>)
    ensures
        out@ == encode_utf8(txt_text(txs_view(transactions@))),
{
    let mut s = String::new();
    let ghost f = |t: TxView| txt_block(t);
    let mut i: usize = 0;
    assert(txs_view(transactions@.take(0)).map_values(f) =~= Seq::<Seq<char>>::empty());
    assert(s@ =~= txs_view(transactions@.take(0)).map_values(f).flatten());
    while i < transactions.len()
        invariant
            0 <= i <= transactions@.len(),
            f == (|t: TxView| txt_block(t)),
            s@ == txs_view(transactions@.take(i as int)).map_values(f).flatten(),
        decreases transactions@.len() - i,
    {
        write_block(&mut s, &transactions[i]);
        proof {
            let e = txt_block(transactions@[i as int]@);
            let a = txs_view(transactions@.take(i as int)).map_values(f);
            assert(txs_view(transactions@.take(i + 1)).map_values(f) =~= a.push(e));
            a.lemma_flatten_push(e);
        }
        i = i + 1;
    }
    assert(transactions@.take(i as int) =~= transactions@);
    s.as_str().as_bytes_vec()
}

} // verus!

verus! {

/// A transaction whose block reads back as itself: it has a TX_ID (a block without one is
/// not closed by its blank line) and a plain description, if any.
pub open spec fn txt_writable(t: TxView) -> bool {
    &&& t.tx_id is Some
    &&& (t.description matches Some(d) ==> is_plain(d))
}

/// A `name: value` line is cut into the name and the value with its leading space.
proof fn lemma_key_value(cur: TxView, label: Seq<char>, name: Seq<char>, value: Seq<char>)
    requires
        label == name + seq![':', ' '],
        lacks(name, ':'),
        name.len() > 0,
        !is_white_space(name[0]),
        !is_white_space(name.last()),
    ensures
        txt_apply(cur, label + value) == apply_key(cur, name, seq![' '] + value),
{
    let l = label + value;
    lemma_find_first_at(l, ':', name.len() as int);
    assert(l.take(name.len() as int) =~= name);
    assert(l.skip(name.len() as int + 1) =~= seq![' '] + value);
    lemma_trim_unchanged(name);
}

/// What a line of a block looks like: no `\n`, not blank, not ending in `\r`.
pub open spec fn block_line(l: Seq<char>) -> bool {
    &&& lacks(l, '\n')
    &&& l.len() > 0
    &&& l.last() != '\r'
    &&& trim(l).len() > 0
}

/// A label followed by a value that starts and ends with a plain character makes a block
/// line.
proof fn lemma_block_line(label: Seq<char>, value: Seq<char>)
    requires
        label.len() > 0,
        !is_white_space(label[0]),
        lacks(label, '\n'),
        value.len() > 0,
        lacks(value, '\n'),
        !is_white_space(value.last()),
    ensures
        block_line(label + value),
{
    let l = label + value;
    assert(l.last() == value.last());
    assert(l[0] == label[0]);
    lemma_trim_unchanged(l);
    crate::strings::lemma_concat_lacks(label, value, '\n');
}

/// An optional line of a block: nothing, or a block line and `\n` that turns `cur` into
/// `next`. Folding over it moves from `cur` to `next`.
proof fn lemma_piece(piece: Seq<char>, line: Seq<char>, rest: Seq<char>, cur: TxView, next: TxView)
    requires
        (piece.len() == 0 && next == cur) || (piece == line + seq!['\n'] && block_line(line)
            && txt_apply(cur, line) == next),
    ensures
        txt_fold(lines(piece + rest), cur) == txt_fold(lines(rest), next),
{
    if piece.len() == 0 {
        assert(piece + rest =~= rest);
    } else {
        lemma_lines_cons(line, rest);
        let ls = seq![line] + lines(rest);
        assert(ls.drop_first() =~= lines(rest));
        assert(ls[0] == line);
    }
}

/// The name of a number field, with the space that follows its colon.
proof fn lemma_number_line(label: Seq<char>, x: u64)
    requires
        label.len() > 0,
        !is_white_space(label[0]),
        lacks(label, '\n'),
    ensures
        block_line(label + decimal(x as nat)),
        parse_u64_spec(seq![' '] + decimal(x as nat)) == Some(x),
{
    let d = decimal(x as nat);
    lemma_decimal(x as nat);
    assert(is_digit(d[0]) && is_digit(d.last()));
    assert(lacks(d, '\n')) by {
        assert forall|i: int| 0 <= i < d.len() implies d[i] != '\n' by {
            assert(is_digit(d[i]));
        }
    }
    lemma_block_line(label, d);
    lemma_trim_after_space(d);
    lemma_parse_decimal(x);
}

/// A name a block writes before a colon: not empty, without colon or `\n`, and neither
/// starting nor ending with white space.
pub open spec fn field_name(name: Seq<char>) -> bool {
    &&& name.len() > 0
    &&& lacks(name, ':')
    &&& lacks(name, '\n')
    &&& !is_white_space(name[0])
    &&& !is_white_space(name.last())
}

/// The names a block writes, against the keys reading tries in turn: each is a field name,
/// its label is the name, a colon and a space, and it matches its own key and none of the
/// keys tried before it.
proof fn lemma_key_names()
    ensures
        field_name("TX_ID"@),
        field_name("TX_TYPE"@),
        field_name("FROM_USER_ID"@),
        field_name("TO_USER_ID"@),
        field_name("AMOUNT"@),
        field_name("TIMESTAMP"@),
        field_name("STATUS"@),
        field_name("DESCRIPTION"@),
        "TX_ID: "@ == "TX_ID"@ + seq![':', ' '],
        "TX_TYPE: "@ == "TX_TYPE"@ + seq![':', ' '],
        "FROM_USER_ID: "@ == "FROM_USER_ID"@ + seq![':', ' '],
        "TO_USER_ID: "@ == "TO_USER_ID"@ + seq![':', ' '],
        "AMOUNT: "@ == "AMOUNT"@ + seq![':', ' '],
        "TIMESTAMP: "@ == "TIMESTAMP"@ + seq![':', ' '],
        "STATUS: "@ == "STATUS"@ + seq![':', ' '],
        "DESCRIPTION: "@ == "DESCRIPTION"@ + seq![':', ' '],
        matches_keyword("TX_ID"@, "tx_id"@),
        !matches_keyword("TX_TYPE"@, "tx_id"@),
        matches_keyword("TX_TYPE"@, "tx_type"@),
        !matches_keyword("FROM_USER_ID"@, "tx_id"@),
        !matches_keyword("FROM_USER_ID"@, "tx_type"@),
        matches_keyword("FROM_USER_ID"@, "from_user_id"@),
        !matches_keyword("TO_USER_ID"@, "tx_id"@),
        !matches_keyword("TO_USER_ID"@, "tx_type"@),
        !matches_keyword("TO_USER_ID"@, "from_user_id"@),
        matches_keyword("TO_USER_ID"@, "to_user_id"@),
        !matches_keyword("AMOUNT"@, "tx_id"@),
        !matches_keyword("AMOUNT"@, "tx_type"@),
        !matches_keyword("AMOUNT"@, "from_user_id"@),
        !matches_keyword("AMOUNT"@, "to_user_id"@),
        matches_keyword("AMOUNT"@, "amount"@),
        !matches_keyword("TIMESTAMP"@, "tx_id"@),
        !matches_keyword("TIMESTAMP"@, "tx_type"@),
        !matches_keyword("TIMESTAMP"@, "from_user_id"@),
        !matches_keyword("TIMESTAMP"@, "to_user_id"@),
        !matches_keyword("TIMESTAMP"@, "amount"@),
        matches_keyword("TIMESTAMP"@, "timestamp"@),
        !matches_keyword("STATUS"@, "tx_id"@),
        !matches_keyword("STATUS"@, "tx_type"@),
        !matches_keyword("STATUS"@, "from_user_id"@),
        !matches_keyword("STATUS"@, "to_user_id"@),
        !matches_keyword("STATUS"@, "amount"@),
        !matches_keyword("STATUS"@, "timestamp"@),
        matches_keyword("STATUS"@, "status"@),
        !matches_keyword("DESCRIPTION"@, "tx_id"@),
        !matches_keyword("DESCRIPTION"@, "tx_type"@),
        !matches_keyword("DESCRIPTION"@, "from_user_id"@),
        !matches_keyword("DESCRIPTION"@, "to_user_id"@),
        !matches_keyword("DESCRIPTION"@, "amount"@),
        !matches_keyword("DESCRIPTION"@, "timestamp"@),
        !matches_keyword("DESCRIPTION"@, "status"@),
        matches_keyword("DESCRIPTION"@, "description"@),
{
    reveal_strlit("TX_ID");
    reveal_strlit("TX_TYPE");
    reveal_strlit("FROM_USER_ID");
    reveal_strlit("TO_USER_ID");
    reveal_strlit("AMOUNT");
    reveal_strlit("TIMESTAMP");
    reveal_strlit("STATUS");
    reveal_strlit("DESCRIPTION");
    reveal_strlit("TX_ID: ");
    reveal_strlit("TX_TYPE: ");
    reveal_strlit("FROM_USER_ID: ");
    reveal_strlit("TO_USER_ID: ");
    reveal_strlit("AMOUNT: ");
    reveal_strlit("TIMESTAMP: ");
    reveal_strlit("STATUS: ");
    reveal_strlit("DESCRIPTION: ");
    reveal_strlit("tx_id");
    reveal_strlit("tx_type");
    reveal_strlit("from_user_id");
    reveal_strlit("to_user_id");
    reveal_strlit("amount");
    reveal_strlit("timestamp");
    reveal_strlit("status");
    reveal_strlit("description");
    assert("TX_ID: "@ =~= "TX_ID"@ + seq![':', ' ']);
    assert("TX_TYPE: "@ =~= "TX_TYPE"@ + seq![':', ' ']);
    assert("FROM_USER_ID: "@ =~= "FROM_USER_ID"@ + seq![':', ' ']);
    assert("TO_USER_ID: "@ =~= "TO_USER_ID"@ + seq![':', ' ']);
    assert("AMOUNT: "@ =~= "AMOUNT"@ + seq![':', ' ']);
    assert("TIMESTAMP: "@ =~= "TIMESTAMP"@ + seq![':', ' ']);
    assert("STATUS: "@ =~= "STATUS"@ + seq![':', ' ']);
    assert("DESCRIPTION: "@ =~= "DESCRIPTION"@ + seq![':', ' ']);
    assert(!crate::text::char_matches("STATUS"@[0], "amount"@[0]));
}

/// A name that is a field name, then a colon and a space, starts a block line and does not
/// hold `\n`.
proof fn lemma_label(name: Seq<char>)
    requires
        field_name(name),
    ensures
        (name + seq![':', ' ']).len() > 0,
        !is_white_space((name + seq![':', ' '])[0]),
        lacks(name + seq![':', ' '], '\n'),
{
    let label = name + seq![':', ' '];
    assert(label[0] == name[0]);
    assert forall|i: int| 0 <= i < label.len() implies label[i] != '\n' by {
        if i < name.len() {
            assert(label[i] == name[i]);
        }
    }
}

/// A number line of a block, `NAME: x` when the number is present: folding over it moves
/// from `cur` to `next`, what a line of that name and any value that parses as `x` gives.
proof fn lemma_number_piece(
    name: Seq<char>,
    v: Option<u64>,
    rest: Seq<char>,
    cur: TxView,
    next: TxView,
)
    requires
        field_name(name),
        v is None ==> next == cur,
        v matches Some(x) ==> forall|value: Seq<char>|
            parse_u64_spec(value) == Some(x) ==> #[trigger] apply_key(cur, name, value) == next,
    ensures
        txt_fold(lines(u64_line(name + seq![':', ' '], v) + rest), cur) == txt_fold(
            lines(rest),
            next,
        ),
{
    let label = name + seq![':', ' '];
    match v {
        Some(x) => {
            lemma_label(name);
            lemma_number_line(label, x);
            lemma_key_value(cur, label, name, decimal(x as nat));
            assert(apply_key(cur, name, seq![' '] + decimal(x as nat)) == next);
            lemma_piece(u64_line(label, v), label + decimal(x as nat), rest, cur, next);
        },
        None => {
            lemma_piece(u64_line(label, v), seq![], rest, cur, cur);
        },
    }
}

/// The TX_TYPE line of a block.
proof fn lemma_type_piece(t: TxView, rest: Seq<char>, cur: TxView)
    ensures
        txt_fold(lines(type_line(t.tx_type) + rest), cur) == txt_fold(
            lines(rest),
            match t.tx_type {
                Some(x) => TxView { tx_type: Some(x), ..cur },
                None => cur,
            },
        ),
{
    lemma_key_names();
    lemma_label("TX_TYPE"@);
    match t.tx_type {
        Some(x) => {
            let label = "TX_TYPE: "@;
            let n = tx_type_name(x);
            lemma_tx_type_name(x);
            lemma_block_line(label, n);
            lemma_key_value(cur, label, "TX_TYPE"@, n);
            lemma_trim_after_space(n);
            lemma_trim_unchanged(n);
            assert(tx_type_of(seq![' '] + n) == tx_type_of(n));
            assert(type_line(t.tx_type) =~= label + n + seq!['\n']);
            lemma_piece(type_line(t.tx_type), label + n, rest, cur, TxView { tx_type: Some(x), ..cur });
        },
        None => {
            lemma_piece(type_line(t.tx_type), seq![], rest, cur, cur);
        },
    }
}

/// The STATUS line of a block.
proof fn lemma_status_piece(t: TxView, rest: Seq<char>, cur: TxView)
    ensures
        txt_fold(lines(status_line(t.status) + rest), cur) == txt_fold(
            lines(rest),
            match t.status {
                Some(x) => TxView { status: Some(x), ..cur },
                None => cur,
            },
        ),
{
    lemma_key_names();
    lemma_label("STATUS"@);
    match t.status {
        Some(x) => {
            let label = "STATUS: "@;
            let n = status_name(x);
            lemma_status_name(x);
            lemma_block_line(label, n);
            lemma_key_value(cur, label, "STATUS"@, n);
            lemma_trim_after_space(n);
            lemma_trim_unchanged(n);
            assert(status_of(seq![' '] + n) == status_of(n));
            assert(status_line(t.status) =~= label + n + seq!['\n']);
            lemma_piece(status_line(t.status), label + n, rest, cur, TxView { status: Some(x), ..cur });
        },
        None => {
            lemma_piece(status_line(t.status), seq![], rest, cur, cur);
        },
    }
}

/// The DESCRIPTION line of a block.
proof fn lemma_description_piece(t: TxView, rest: Seq<char>, cur: TxView)
    requires
        t.description matches Some(d) ==> is_plain(d),
    ensures
        txt_fold(lines(description_line(t.description) + rest), cur) == txt_fold(
            lines(rest),
            match t.description {
                Some(d) => TxView { description: Some(d), ..cur },
                None => cur,
            },
        ),
{
    lemma_key_names();
    lemma_label("DESCRIPTION"@);
    match t.description {
        Some(d) => {
            let label = "DESCRIPTION: "@;
            let q = debug_text(d);
            assert(q == seq!['"'] + d + seq!['"']);
            assert(lacks(q, '\n')) by {
                assert forall|i: int| 0 <= i < q.len() implies q[i] != '\n' by {
                    if 0 < i < q.len() - 1 {
                        assert(q[i] == d[i - 1]);
                        assert(is_plain_char(d[i - 1]));
                    }
                }
            }
            lemma_block_line(label, q);
            lemma_key_value(cur, label, "DESCRIPTION"@, q);
            lemma_trim_after_space(q);
            assert forall|i: int| 0 <= i < d.len() implies d[i] != '"' by {
                assert(is_plain_char(d[i]));
            }
            lemma_clean_quoted(d);
            assert(clean_description(seq![' '] + q) == d);
            assert(description_line(t.description) =~= label + q + seq!['\n']);
            lemma_piece(description_line(t.description), label + q, rest, cur, TxView { description: Some(d), ..cur });
        },
        None => {
            lemma_piece(description_line(t.description), seq![], rest, cur, cur);
        },
    }
}

/// A block followed by anything, regrouped line by line.
proof fn lemma_block_split(t: TxView, rest: Seq<char>)
    ensures
        txt_block(t) + rest == u64_line("TX_ID: "@, t.tx_id) + (type_line(t.tx_type) + (u64_line(
            "FROM_USER_ID: "@,
            t.from_user_id,
        ) + (u64_line("TO_USER_ID: "@, t.to_user_id) + (u64_line("AMOUNT: "@, t.amount) + (
        u64_line("TIMESTAMP: "@, t.timestamp) + (status_line(t.status) + (description_line(
            t.description,
        ) + (seq!['\n'] + rest)))))))),
{
    let p1 = u64_line("TX_ID: "@, t.tx_id);
    let p2 = type_line(t.tx_type);
    let p3 = u64_line("FROM_USER_ID: "@, t.from_user_id);
    let p4 = u64_line("TO_USER_ID: "@, t.to_user_id);
    let p5 = u64_line("AMOUNT: "@, t.amount);
    let p6 = u64_line("TIMESTAMP: "@, t.timestamp);
    let p7 = status_line(t.status);
    let p8 = description_line(t.description);
    let l2 = p1 + p2;
    let l3 = l2 + p3;
    let l4 = l3 + p4;
    let l5 = l4 + p5;
    let l6 = l5 + p6;
    let l7 = l6 + p7;
    let l8 = l7 + p8;
    let r8 = seq!['\n'] + rest;
    let r7 = p8 + r8;
    let r6 = p7 + r7;
    let r5 = p6 + r6;
    let r4 = p5 + r5;
    let r3 = p4 + r4;
    let r2 = p3 + r3;
    let r1 = p2 + r2;
    assert(txt_block(t) == l8 + seq!['\n']);
    assert((l8 + seq!['\n']) + rest =~= l8 + r8);
    assert(l8 + r8 =~= l7 + r7);
    assert(l7 + r7 =~= l6 + r6);
    assert(l6 + r6 =~= l5 + r5);
    assert(l5 + r5 =~= l4 + r4);
    assert(l4 + r4 =~= l3 + r3);
    assert(l3 + r3 =~= l2 + r2);
    assert(l2 + r2 =~= p1 + r1);
}

/// The fields of a block, read one after another from the empty transaction, give back the
/// transaction; the blank line after them closes it.
proof fn lemma_block_fields(t: TxView, rest: Seq<char>)
    requires
        txt_writable(t),
    ensures
        txt_fold(
            lines(u64_line("TX_ID: "@, t.tx_id) + (type_line(t.tx_type) + (u64_line(
                "FROM_USER_ID: "@,
                t.from_user_id,
            ) + (u64_line("TO_USER_ID: "@, t.to_user_id) + (u64_line("AMOUNT: "@, t.amount) + (
            u64_line("TIMESTAMP: "@, t.timestamp) + (status_line(t.status) + (description_line(
                t.description,
            ) + (seq!['\n'] + rest))))))))),
            empty_tx(),
        ) == seq![t] + txt_fold(lines(rest), empty_tx()),
{
    let p2 = type_line(t.tx_type);
    let p3 = u64_line("FROM_USER_ID: "@, t.from_user_id);
    let p4 = u64_line("TO_USER_ID: "@, t.to_user_id);
    let p5 = u64_line("AMOUNT: "@, t.amount);
    let p6 = u64_line("TIMESTAMP: "@, t.timestamp);
    let p7 = status_line(t.status);
    let p8 = description_line(t.description);
    let r8 = seq!['\n'] + rest;
    let r7 = p8 + r8;
    let r6 = p7 + r7;
    let r5 = p6 + r6;
    let r4 = p5 + r5;
    let r3 = p4 + r4;
    let r2 = p3 + r3;
    let r1 = p2 + r2;
    let c0 = empty_tx();
    lemma_key_names();
    let c1 = TxView { tx_id: t.tx_id, ..c0 };
    lemma_number_piece("TX_ID"@, t.tx_id, r1, c0, c1);
    lemma_type_piece(t, r2, c1);
    let c2 = TxView { tx_type: t.tx_type, ..c1 };
    let c3 = TxView { from_user_id: t.from_user_id, ..c2 };
    lemma_number_piece("FROM_USER_ID"@, t.from_user_id, r3, c2, c3);
    let c4 = TxView { to_user_id: t.to_user_id, ..c3 };
    lemma_number_piece("TO_USER_ID"@, t.to_user_id, r4, c3, c4);
    let c5 = TxView { amount: t.amount, ..c4 };
    lemma_number_piece("AMOUNT"@, t.amount, r5, c4, c5);
    let c6 = TxView { timestamp: t.timestamp, ..c5 };
    lemma_number_piece("TIMESTAMP"@, t.timestamp, r6, c5, c6);
    lemma_status_piece(t, r7, c6);
    let c7 = TxView { status: t.status, ..c6 };
    lemma_description_piece(t, r8, c7);
    assert(TxView { description: t.description, ..c7 } == t);
    lemma_blank_closes(t, rest);
}

/// A blank line closes a transaction that has a TX_ID.
proof fn lemma_blank_closes(t: TxView, rest: Seq<char>)
    requires
        t.tx_id is Some,
    ensures
        txt_fold(lines(seq!['\n'] + rest), t) == seq![t] + txt_fold(lines(rest), empty_tx()),
{
    lemma_lines_cons(Seq::<char>::empty(), rest);
    assert(Seq::<char>::empty() + seq!['\n'] + rest =~= seq!['\n'] + rest);
    let ls = seq![Seq::<char>::empty()] + lines(rest);
    assert(ls.drop_first() =~= lines(rest));
    assert(ls[0] == Seq::<char>::empty());
    assert(trim(Seq::<char>::empty()) =~= Seq::<char>::empty());
}

/// The block of a `txt_writable` transaction, followed by anything, reads back as the
/// transaction and leaves the reading at the start of what follows.
proof fn lemma_block(t: TxView, rest: Seq<char>)
    requires
        txt_writable(t),
    ensures
        txt_fold(lines(txt_block(t) + rest), empty_tx()) == seq![t] + txt_fold(
            lines(rest),
            empty_tx(),
        ),
{
    lemma_block_split(t, rest);
    lemma_block_fields(t, rest);
}

/// The text of transactions whose blocks all read back.
proof fn lemma_blocks(v: Seq<TxView>)
    requires
        forall|i: int| 0 <= i < v.len() ==> txt_writable(#[trigger] v[i]),
    ensures
        txt_fold(lines(txt_text(v)), empty_tx()) == v,
    decreases v.len(),
{
    let f = |t: TxView| txt_block(t);
    if v.len() == 0 {
        assert(v.map_values(f) =~= Seq::<Seq<char>>::empty());
        assert(txt_text(v) =~= Seq::<char>::empty());
        assert(lines(Seq::<char>::empty()) =~= Seq::<Seq<char>>::empty());
        assert(v =~= Seq::<TxView>::empty());
    } else {
        let w = v.drop_first();
        assert forall|i: int| 0 <= i < w.len() implies txt_writable(#[trigger] w[i]) by {
            assert(w[i] == v[i + 1]);
        }
        lemma_blocks(w);
        assert(v.map_values(f).drop_first() =~= w.map_values(f));
        assert(txt_text(v) == txt_block(v[0]) + txt_text(w));
        lemma_block(v[0], txt_text(w));
        assert(seq![v[0]] + w =~= v);
    }
}

/// Writing transactions as YPBankText and reading the bytes back gives the same
/// transactions. It holds where every transaction has a TX_ID and every description is plain
/// printable ASCII without double quotes or backslashes.
pub proof fn law_write_then_read(v: Seq<TxView>)
    requires
        forall|i: int| 0 <= i < v.len() ==> txt_writable(#[trigger] v[i]),
    ensures
        txt_parse(encode_utf8(txt_text(v))) == Ok::<Seq<TxView>, ReadError>(v),
{
    vstd::utf8::encode_utf8_valid_utf8(txt_text(v));
    vstd::utf8::encode_utf8_decode_utf8(txt_text(v));
    lemma_blocks(v);
}

} // verus!

verus! {

/// Folding lines only ever yields transactions with a TX_ID.
proof fn lemma_fold_has_ids(ls: Seq<Seq<char>>, cur: TxView)
    ensures
        forall|i: int|
            0 <= i < txt_fold(ls, cur).len() ==> (#[trigger] txt_fold(ls, cur)[i]).tx_id is Some,
    decreases ls.len(),
{
    if ls.len() > 0 {
        let w = ls.drop_first();
        if trim(ls[0]).len() == 0 {
            lemma_fold_has_ids(w, empty_tx());
            lemma_fold_has_ids(w, cur);
            if cur.tx_id is Some {
                let r = txt_fold(w, empty_tx());
                assert forall|i: int| 0 <= i < (seq![cur] + r).len() implies (#[trigger] (seq![
                    cur,
                ] + r)[i]).tx_id is Some by {
                    if i > 0 {
                        assert((seq![cur] + r)[i] == r[i - 1]);
                    }
                }
            }
        } else {
            lemma_fold_has_ids(w, txt_apply(cur, ls[0]));
        }
    }
}

/// Every transaction read from YPBankText has a TX_ID: a block without one is never closed.
pub proof fn law_read_has_ids(input: Seq<u8>)
    ensures
        txt_parse(input) matches Ok(v) ==> forall|i: int|
            0 <= i < v.len() ==> (#[trigger] v[i]).tx_id is Some,
{
    if valid_utf8(input) {
        lemma_fold_has_ids(lines(decode_utf8(input)), empty_tx());
    }
}

} // verus!

verus! {

/// A trimmed key that names a field other than TX_TYPE and STATUS.
pub open spec fn plain_key(key: Seq<char>) -> bool {
    ||| matches_keyword(key, "tx_id"@)
    ||| matches_keyword(key, "from_user_id"@)
    ||| matches_keyword(key, "to_user_id"@)
    ||| matches_keyword(key, "amount"@)
    ||| matches_keyword(key, "timestamp"@)
    ||| matches_keyword(key, "description"@)
}

/// The warnings about a non-blank line of record `n`: a TX_TYPE or STATUS value that names
/// nothing, as it stands, or a key that names no field. A line without a colon gives none.
pub open spec fn txt_line_warnings(l: Seq<char>, n: nat) -> Seq<WarningView> {
    let k = find_first(l, ':');
    if k >= l.len() {
        seq![]
    } else {
        let key = trim(l.take(k));
        let value = l.skip(k + 1);
        if matches_keyword(key, "tx_type"@) {
            if tx_type_of(value) is None {
                seq![WarningView::UnknownType { value: value, record: n }]
            } else {
                seq![]
            }
        } else if matches_keyword(key, "status"@) {
            if status_of(value) is None {
                seq![WarningView::UnknownStatus { value: value, record: n }]
            } else {
                seq![]
            }
        } else if plain_key(key) {
            seq![]
        } else {
            seq![WarningView::UnknownKey { record: n }]
        }
    }
}

/// The warnings about the lines `ls`, the current transaction being `cur` and its record
/// number `n`; the number goes up when a blank line ends a transaction with a TX_ID.
pub open spec fn txt_warnings_from(ls: Seq<Seq<char>>, cur: TxView, n: nat) -> Seq<WarningView>
    decreases ls.len(),
{
    if ls.len() == 0 {
        seq![]
    } else if trim(ls[0]).len() == 0 {
        if cur.tx_id is Some {
            txt_warnings_from(ls.drop_first(), empty_tx(), n + 1)
        } else {
            txt_warnings_from(ls.drop_first(), cur, n)
        }
    } else {
        txt_line_warnings(ls[0], n) + txt_warnings_from(ls.drop_first(), txt_apply(cur, ls[0]), n)
    }
}

/// The warnings that reading YPBankText gives, in order: about each line read before the
/// first one that is not UTF-8, records numbered from 1.
pub open spec fn txt_warnings(input: Seq<u8>) -> Seq<WarningView> {
    txt_warnings_from(good_lines(input), empty_tx(), 1)
}

/// Appends the warnings about the non-blank line `t` of record `n`.
fn push_line_warnings(t: &Vec<char>, n: usize, out: &mut Vec<Warning>)
    ensures
        warnings_view(final(out)@) == warnings_view(old(out)@) + txt_line_warnings(t@, n as nat),
{
    let len = t.len();
    let k = find_char(t, 0, len, ':');
    assert(t@.subrange(0, len as int) =~= t@);
    if k == len {
        assert(warnings_view(out@) =~= warnings_view(out@) + Seq::<WarningView>::empty());
        return;
    }
    assert(t@.take(k as int) =~= t@.subrange(0, k as int));
    assert(t@.skip(k + 1) =~= t@.subrange(k + 1, len as int));
    let (a, b) = trim_bounds(t, 0, k);
    let v = k + 1;
    if matches_keyword_at(t, a, b, "tx_type") {
        if read_tx_type(t, v, len).is_none() {
            let value = string_from_chars(t, v, len);
            push_warning(out, Warning::UnknownType { value, record: n });
        } else {
            assert(warnings_view(out@) =~= warnings_view(out@) + Seq::<WarningView>::empty());
        }
    } else if matches_keyword_at(t, a, b, "status") {
        if read_status(t, v, len).is_none() {
            let value = string_from_chars(t, v, len);
            push_warning(out, Warning::UnknownStatus { value, record: n });
        } else {
            assert(warnings_view(out@) =~= warnings_view(out@) + Seq::<WarningView>::empty());
        }
    } else if matches_keyword_at(t, a, b, "tx_id") || matches_keyword_at(t, a, b, "from_user_id")
        || matches_keyword_at(t, a, b, "to_user_id") || matches_keyword_at(t, a, b, "amount")
        || matches_keyword_at(t, a, b, "timestamp") || matches_keyword_at(t, a, b, "description") {
        assert(warnings_view(out@) =~= warnings_view(out@) + Seq::<WarningView>::empty());
    } else {
        push_warning(out, Warning::UnknownKey { record: n });
    }
}

/// The warnings that reading YPBankText bytes gives, in the order the lines come.
pub fn read_warnings(input: &[u8]) -> (w: Vec<Warning>)
    ensures
        warnings_view(w@) == txt_warnings(input@),
{
    let mut out: Vec<Warning> = Vec::new();
    let mut cur = Transaction::new();
    let mut pos: usize = 0;
    let mut n: usize = 1;
    let len = input.len();
    assert(input@.skip(0) =~= input@);
    assert(Seq::<WarningView>::empty() + txt_warnings(input@) =~= txt_warnings(input@));
    while pos < len
        invariant
            pos <= len == input@.len(),
            n <= pos + 1,
            cur@.tx_id is Some ==> n <= pos,
            txt_warnings(input@) == warnings_view(out@) + txt_warnings_from(
                good_lines(input@.skip(pos as int)),
                cur@,
                n as nat,
            ),
        decreases len - pos,
    {
        match next_good_line(input, pos) {
            None => {
                assert(input@.skip(len as int) =~= Seq::<u8>::empty());
                pos = len;
            },
            Some((l, next)) => {
                let ghost ls = good_lines(input@.skip(pos as int));
                let ghost rest = good_lines(input@.skip(next as int));
                assert(ls[0] == l@);
                assert(ls.drop_first() =~= rest);
                let ghost o = warnings_view(out@);
                let ghost c0 = cur@;
                let (a, b) = trim_bounds(&l, 0, l.len());
                assert(l@.subrange(0, l@.len() as int) =~= l@);
                if a == b {
                    if cur.tx_id.is_some() {
                        n = n + 1;
                        cur = Transaction::new();
                    }
                } else {
                    push_line_warnings(&l, n, &mut out);
                    apply_line(&mut cur, &l, 0, l.len());
                    assert(o + txt_warnings_from(ls, c0, n as nat) =~= warnings_view(out@)
                        + txt_warnings_from(rest, cur@, n as nat));
                }
                pos = next;
            },
        }
    }
    assert(input@.skip(len as int) =~= Seq::<u8>::empty());
    assert(warnings_view(out@) + Seq::<WarningView>::empty() =~= warnings_view(out@));
    out
}

} // verus!

verus! {

/// A space in front changes nothing that cleaning gives.
proof fn lemma_clean_after_space(d: Seq<char>)
    ensures
        clean_description(seq![' '] + d) == clean_description(d),
{
    let p = |c: char| is_white_space(c);
    let s = seq![' '] + d;
    assert(s.drop_first() =~= d);
    assert(strip_start(s, p) == strip_start(d, p));
}

/// Text that neither starts nor ends with white space or a double quote is cleaned to itself.
proof fn lemma_clean_unchanged(d: Seq<char>)
    requires
        d.len() > 0,
        !is_white_space(d[0]),
        !is_white_space(d.last()),
        d[0] != '"',
        d.last() != '"',
    ensures
        clean_description(d) == d,
{
    let pq = |c: char| is_quote(c);
    lemma_trim_unchanged(d);
    lemma_strip_start(d, pq, 0);
    assert(d.skip(0) =~= d);
    lemma_strip_end(d, pq, d.len() as int);
    assert(d.take(d.len() as int) =~= d);
}

/// A DESCRIPTION line sets the description from whatever text follows its colon, not only
/// plain ASCII: reading a TX_ID line, then `DESCRIPTION: ` and any text without `\n`, gives
/// one transaction with that TX_ID and that text, cleaned of surrounding white space and
/// double quotes. Text that neither starts nor ends with white space or a double quote is
/// kept exactly.
#[verifier::spinoff_prover]
pub proof fn law_read_any_description(x: u64, d: Seq<char>)
    requires
        lacks(d, '\n'),
    ensures
        txt_parse(
            encode_utf8("TX_ID: "@ + decimal(x as nat) + seq!['\n'] + "DESCRIPTION: "@ + d),
        ) == Ok::<Seq<TxView>, ReadError>(
            seq![TxView { tx_id: Some(x), description: Some(clean_description(d)), ..empty_tx() }],
        ),
        d.len() > 0 && !is_white_space(d[0]) && !is_white_space(d.last()) && d[0] != '"'
            && d.last() != '"' ==> clean_description(d) == d,
{
    lemma_key_names();
    lemma_label("TX_ID"@);
    lemma_label("DESCRIPTION"@);
    let l1 = "TX_ID: "@ + decimal(x as nat);
    let l2 = "DESCRIPTION: "@ + d;
    let s = "TX_ID: "@ + decimal(x as nat) + seq!['\n'] + "DESCRIPTION: "@ + d;
    assert(s =~= l1 + seq!['\n'] + l2);
    vstd::utf8::encode_utf8_valid_utf8(s);
    vstd::utf8::encode_utf8_decode_utf8(s);
    // The two lines.
    lemma_number_line("TX_ID: "@, x);
    assert(block_line(l1));
    lemma_lines_cons(l1, l2);
    crate::strings::lemma_concat_lacks("DESCRIPTION: "@, d, '\n');
    assert(lacks(l2, '\n'));
    lemma_find_first_at(l2, '\n', l2.len() as int);
    assert(lines(l2) == seq![l2]);
    let ls = lines(s);
    assert(ls == seq![l1] + seq![l2]);
    assert(ls[0] == l1);
    assert(ls.drop_first() =~= seq![l2]);
    assert(seq![l2].drop_first() =~= Seq::<Seq<char>>::empty());
    // The first sets the TX_ID.
    let c0 = empty_tx();
    lemma_key_value(c0, "TX_ID: "@, "TX_ID"@, decimal(x as nat));
    let c1 = txt_apply(c0, l1);
    assert(c1 == TxView { tx_id: Some(x), ..c0 });
    // The second is not blank and sets the description.
    let p = |c: char| is_white_space(c);
    assert(l2[0] == "DESCRIPTION"@[0]);
    lemma_strip_start(l2, p, 0);
    assert(l2.skip(0) =~= l2);
    lemma_strip_end_keeps_first(l2, p);
    assert(trim(l2).len() > 0);
    lemma_key_value(c1, "DESCRIPTION: "@, "DESCRIPTION"@, d);
    lemma_clean_after_space(d);
    let c2 = txt_apply(c1, l2);
    assert(c2 == TxView { description: Some(clean_description(d)), ..c1 });
    assert(txt_fold(seq![l2], c1) == txt_fold(Seq::<Seq<char>>::empty(), c2));
    assert(txt_fold(ls, c0) == txt_fold(seq![l2], c1));
    if d.len() > 0 && !is_white_space(d[0]) && !is_white_space(d.last()) && d[0] != '"'
        && d.last() != '"' {
        lemma_clean_unchanged(d);
    }
}

} // verus!

verus! {

/// Writing one more transaction as YPBankText keeps what was written and appends its block,
/// whatever its description holds: the block starts with its TX_ID line when it has one,
/// ends with the line `DESCRIPTION: ` and the Debug form of its description when it has one,
/// and always ends with the blank line that closes it.
#[verifier::spinoff_prover]
pub proof fn law_write_appends_block(v: Seq<TxView>, t: TxView)
    ensures
        txt_text(v.push(t)).take(txt_text(v).len() as int) == txt_text(v),
        txt_text(v.push(t)).len() > txt_text(v).len(),
        txt_text(v.push(t)).last() == '\n',
        t.tx_id matches Some(x) ==> txt_text(v.push(t)).skip(txt_text(v).len() as int).take(
            ("TX_ID: "@.len() + decimal(x as nat).len() + 1) as int,
        ) == "TX_ID: "@ + decimal(x as nat) + seq!['\n'],
        t.description matches Some(d) ==> txt_text(v.push(t)).skip(
            (txt_text(v.push(t)).len() - ("DESCRIPTION: "@.len() + debug_text(d).len() + 2)) as int,
        ) == "DESCRIPTION: "@ + debug_text(d) + seq!['\n', '\n'],
{
    lemma_text_push(v, t);
    lemma_block_shape(t);
    let k = match t.description {
        Some(d) => ("DESCRIPTION: "@.len() + debug_text(d).len() + 2) as int,
        None => 1,
    };
    crate::text::lemma_append_parts(txt_text(v), txt_block(t), k);
    crate::text::lemma_append_parts(txt_text(v), txt_block(t), 1);
}

/// A block ends with `\n`; it starts with its TX_ID line when it has one, and ends with
/// its DESCRIPTION line and the blank line when it has a description.
#[verifier::spinoff_prover]
proof fn lemma_block_shape(t: TxView)
    ensures
        txt_block(t).len() > 0,
        txt_block(t).skip(txt_block(t).len() - 1) == seq!['\n'],
        t.tx_id matches Some(x) ==> txt_block(t).take(
            ("TX_ID: "@.len() + decimal(x as nat).len() + 1) as int,
        ) == "TX_ID: "@ + decimal(x as nat) + seq!['\n'],
        t.description matches Some(d) ==> txt_block(t).len() >= "DESCRIPTION: "@.len()
            + debug_text(d).len() + 2 && txt_block(t).skip(
            (txt_block(t).len() - ("DESCRIPTION: "@.len() + debug_text(d).len() + 2)) as int,
        ) == "DESCRIPTION: "@ + debug_text(d) + seq!['\n', '\n'],
{
    lemma_block_parts(t);
    let b = txt_block(t);
    let nl = seq!['\n'];
    assert(b.skip(b.len() - 1) =~= nl);
    match t.tx_id {
        Some(x) => {
            let id = "TX_ID: "@ + decimal(x as nat) + nl;
            assert(b.take(id.len() as int) =~= id);
        },
        None => {},
    }
    match t.description {
        Some(d) => {
            let tail = "DESCRIPTION: "@ + debug_text(d) + seq!['\n', '\n'];
            let pre = block_before_description(t);
            assert(b =~= pre + tail);
            assert(b.skip(b.len() - tail.len()) =~= tail);
        },
        None => {},
    }
}

/// The lines of a block before its DESCRIPTION line.
spec fn block_before_description(t: TxView) -> Seq<char> {
    u64_line("TX_ID: "@, t.tx_id) + type_line(t.tx_type) + u64_line(
        "FROM_USER_ID: "@,
        t.from_user_id,
    ) + u64_line("TO_USER_ID: "@, t.to_user_id) + u64_line("AMOUNT: "@, t.amount) + u64_line(
        "TIMESTAMP: "@,
        t.timestamp,
    ) + status_line(t.status)
}

/// The lines of a block after its TX_ID line, blank line included.
spec fn block_after_id(t: TxView) -> Seq<char> {
    type_line(t.tx_type) + u64_line("FROM_USER_ID: "@, t.from_user_id) + u64_line(
        "TO_USER_ID: "@,
        t.to_user_id,
    ) + u64_line("AMOUNT: "@, t.amount) + u64_line("TIMESTAMP: "@, t.timestamp) + status_line(
        t.status,
    ) + description_line(t.description) + seq!['\n']
}

/// A block is its TX_ID line and the rest, or the lines before its description, its
/// DESCRIPTION line and the blank line.
proof fn lemma_block_parts(t: TxView)
    ensures
        txt_block(t) == u64_line("TX_ID: "@, t.tx_id) + block_after_id(t),
        txt_block(t) == block_before_description(t) + description_line(t.description) + seq![
            '\n',
        ],
        t.tx_id matches Some(x) ==> u64_line("TX_ID: "@, t.tx_id) == "TX_ID: "@ + decimal(
            x as nat,
        ) + seq!['\n'],
        t.description matches Some(d) ==> description_line(t.description) == "DESCRIPTION: "@
            + debug_text(d) + seq!['\n'],
        t.description is None ==> description_line(t.description) == Seq::<char>::empty(),
{
    let p1 = u64_line("TX_ID: "@, t.tx_id);
    let p2 = type_line(t.tx_type);
    let p3 = u64_line("FROM_USER_ID: "@, t.from_user_id);
    let p4 = u64_line("TO_USER_ID: "@, t.to_user_id);
    let p5 = u64_line("AMOUNT: "@, t.amount);
    let p6 = u64_line("TIMESTAMP: "@, t.timestamp);
    let p7 = status_line(t.status);
    let p8 = description_line(t.description);
    let nl = seq!['\n'];
    assert(p1 + p2 + p3 + p4 + p5 + p6 + p7 + p8 + nl =~= p1 + (p2 + p3 + p4 + p5 + p6 + p7 + p8
        + nl));
}

/// The text of one more transaction is the text before and its block.
proof fn lemma_text_push(v: Seq<TxView>, t: TxView)
    ensures
        txt_text(v.push(t)) == txt_text(v) + txt_block(t),
{
    let f = |x: TxView| txt_block(x);
    let a = v.map_values(f);
    assert(v.push(t).map_values(f) =~= a.push(txt_block(t)));
    a.lemma_flatten_push(txt_block(t));
}

} // verus!

verus! {

/// A source of one line, not blank, gives the warnings of that line for record 1.
proof fn lemma_one_line_warnings(l: Seq<char>)
    requires
        l.len() > 0,
        lacks(l, '\n'),
        !is_white_space(l[0]),
    ensures
        txt_warnings(encode_utf8(l)) == txt_line_warnings(l, 1),
{
    crate::byte_lines::lemma_good_lines_single(l);
    let p = |c: char| is_white_space(c);
    lemma_strip_start(l, p, 0);
    assert(l.skip(0) =~= l);
    lemma_strip_end_keeps_first(l, p);
    assert(trim(l).len() > 0);
    let ls = seq![l];
    assert(ls[0] == l);
    assert(ls.drop_first() =~= Seq::<Seq<char>>::empty());
    let c = txt_apply(empty_tx(), l);
    assert(txt_warnings_from(ls.drop_first(), c, 1) == Seq::<WarningView>::empty());
    assert(txt_warnings_from(ls, empty_tx(), 1) == txt_line_warnings(l, 1) + txt_warnings_from(
        ls.drop_first(),
        c,
        1,
    ));
    assert(txt_line_warnings(l, 1) + Seq::<WarningView>::empty() =~= txt_line_warnings(l, 1));
}

/// The line `key:value` is cut at the colon after `key`.
proof fn lemma_cut_at_colon(k: Seq<char>, w: Seq<char>)
    requires
        lacks(k, ':'),
    ensures
        find_first(k + seq![':'] + w, ':') == k.len(),
        (k + seq![':'] + w).take(k.len() as int) == k,
        (k + seq![':'] + w).skip(k.len() as int + 1) == w,
{
    let l = k + seq![':'] + w;
    lemma_find_first_at(l, ':', k.len() as int);
    assert(l.take(k.len() as int) =~= k);
    assert(l.skip(k.len() as int + 1) =~= w);
}

/// A `key:value` line whose key names no field gives one UnknownKey warning for the record
/// it belongs to, whatever the value.
#[verifier::spinoff_prover]
pub proof fn law_warn_unknown_key(k: Seq<char>, w: Seq<char>)
    requires
        k.len() > 0,
        !is_white_space(k[0]),
        lacks(k, ':'),
        lacks(k, '\n'),
        lacks(w, '\n'),
        !matches_keyword(trim(k), "tx_id"@),
        !matches_keyword(trim(k), "tx_type"@),
        !matches_keyword(trim(k), "from_user_id"@),
        !matches_keyword(trim(k), "to_user_id"@),
        !matches_keyword(trim(k), "amount"@),
        !matches_keyword(trim(k), "timestamp"@),
        !matches_keyword(trim(k), "status"@),
        !matches_keyword(trim(k), "description"@),
    ensures
        txt_warnings(encode_utf8(k + seq![':'] + w)) == seq![WarningView::UnknownKey { record: 1 }],
{
    let l = k + seq![':'] + w;
    crate::strings::lemma_concat_lacks(k + seq![':'], w, '\n');
    crate::strings::lemma_concat_lacks(k, seq![':'], '\n');
    assert(l[0] == k[0]);
    lemma_one_line_warnings(l);
    lemma_cut_at_colon(k, w);
}

/// A TX_TYPE line whose value names no type gives one UnknownType warning with the value as
/// it stands; a STATUS line whose value names no status, one UnknownStatus warning.
#[verifier::spinoff_prover]
pub proof fn law_warn_unknown_value(w: Seq<char>)
    requires
        lacks(w, '\n'),
    ensures
        tx_type_of(w) is None ==> txt_warnings(encode_utf8("TX_TYPE"@ + seq![':'] + w)) == seq![
            WarningView::UnknownType { value: w, record: 1 },
        ],
        status_of(w) is None ==> txt_warnings(encode_utf8("STATUS"@ + seq![':'] + w)) == seq![
            WarningView::UnknownStatus { value: w, record: 1 },
        ],
        tx_type_of(w) is Some ==> txt_warnings(encode_utf8("TX_TYPE"@ + seq![':'] + w)) == Seq::<
            WarningView,
        >::empty(),
        status_of(w) is Some ==> txt_warnings(encode_utf8("STATUS"@ + seq![':'] + w)) == Seq::<
            WarningView,
        >::empty(),
{
    lemma_key_names();
    let k1 = "TX_TYPE"@;
    let k2 = "STATUS"@;
    lemma_trim_unchanged(k1);
    lemma_trim_unchanged(k2);
    crate::strings::lemma_concat_lacks(k1 + seq![':'], w, '\n');
    crate::strings::lemma_concat_lacks(k1, seq![':'], '\n');
    crate::strings::lemma_concat_lacks(k2 + seq![':'], w, '\n');
    crate::strings::lemma_concat_lacks(k2, seq![':'], '\n');
    assert((k1 + seq![':'] + w)[0] == k1[0]);
    assert((k2 + seq![':'] + w)[0] == k2[0]);
    lemma_one_line_warnings(k1 + seq![':'] + w);
    lemma_one_line_warnings(k2 + seq![':'] + w);
    lemma_cut_at_colon(k1, w);
    lemma_cut_at_colon(k2, w);
}

} // verus!

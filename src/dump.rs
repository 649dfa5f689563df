//! The dump format and its verified writer.
//!
//! A dump is a header line naming the value, followed by one line per row of
//! sixteen bytes. In relative mode a row starts with the offset of its first
//! byte (`0010 |`), in absolute mode with that byte's address (`0x7ff0 |`).
//! Each byte is written as a space and two hexadecimal digits, and the ninth
//! byte of a row is preceded by an extra ` :`.

use vstd::prelude::*;
use crate::hex::{append_hex_fixed, append_hex_padded, hex_fixed, hex_padded};

verus! {

/// Bytes per row.
pub const ROW_WIDTH: usize = 16;

/// Position within a row before which the ` :` separator stands.
pub const ROW_CENTER: usize = 8;

/// Everything needed to render one dump.
///
/// `address` is where the inspected value lives and is used only for display;
/// `bytes` is the view of its memory that is dumped.
pub struct Record<'a> {
    pub address: usize,
    pub bytes: &'a [u8],
    pub sized: bool,
    pub type_label: &'a str,
    pub source: &'a str,
    pub label: Option<&'a str>,
    pub file: &'a str,
    pub line: u32,
    pub column: u32,
}

/// An address as a pointer is displayed: `0x` and its hexadecimal digits.
pub open spec fn pointer_text(a: nat) -> Seq<char> {
    seq!['0', 'x'] + hex_padded(a, 1)
}

/// The header up to the type label.
pub open spec fn header_prefix(address: nat, absolute: bool) -> Seq<char> {
    if absolute {
        pointer_text(address) + seq![' ', ':', ' ']
    } else {
        seq!['-', '-', '-', '-', '-', '+', ' '] + pointer_text(address) + seq![':', ' ']
    }
}

/// The header line: where the value is, its type and its source expression.
pub open spec fn header(
    address: nat,
    type_label: Seq<char>,
    source: Seq<char>,
    absolute: bool,
) -> Seq<char> {
    header_prefix(address, absolute) + type_label + seq![' ', '=', ' '] + source + seq!['\n']
}

/// The number of rows for `len` bytes: `len / 16` rounded up.
pub open spec fn row_count(len: nat) -> nat {
    (len + 15) / 16
}

/// The bytes of row `k`.
pub open spec fn row_bytes(bytes: Seq<u8>, k: nat) -> Seq<u8> {
    let start = 16 * k as int;
    let end = if start + 16 <= bytes.len() { start + 16 } else { bytes.len() as int };
    bytes.subrange(start as int, end)
}

/// What stands before the bytes of row `k`.
pub open spec fn row_prefix(address: nat, k: nat, absolute: bool) -> Seq<char> {
    if absolute {
        pointer_text(address + 16 * k) + seq![' ', '|']
    } else {
        hex_padded(16 * k, 4) + seq![' ', '|']
    }
}

/// The byte `b` at position `j` of its row.
pub open spec fn cell(j: nat, b: u8) -> Seq<char> {
    let sep = if j == 8 { seq![' ', ':'] } else { Seq::<char>::empty() };
    sep + seq![' '] + hex_fixed(b as nat, 2)
}

/// The bytes of one row, each as a cell at its position.
pub open spec fn cells(row: Seq<u8>) -> Seq<char>
    decreases row.len(),
{
    if row.len() == 0 {
        Seq::empty()
    } else {
        cells(row.drop_last()) + cell((row.len() - 1) as nat, row.last())
    }
}

/// Row `k` with its line break.
pub open spec fn row_line(address: nat, bytes: Seq<u8>, k: nat, absolute: bool) -> Seq<char> {
    row_prefix(address, k, absolute) + cells(row_bytes(bytes, k)) + seq!['\n']
}

/// The first `n` rows.
pub open spec fn rows_text(address: nat, bytes: Seq<u8>, n: nat, absolute: bool) -> Seq<char>
    decreases n,
{
    if n == 0 {
        Seq::empty()
    } else {
        rows_text(address, bytes, (n - 1) as nat, absolute) + row_line(
            address,
            bytes,
            (n - 1) as nat,
            absolute,
        )
    }
}

/// The whole dump: the header, then every row.
pub open spec fn dump_text(
    address: nat,
    type_label: Seq<char>,
    source: Seq<char>,
    bytes: Seq<u8>,
    absolute: bool,
) -> Seq<char> {
    header(address, type_label, source, absolute) + rows_text(
        address,
        bytes,
        row_count(bytes.len()),
        absolute,
    )
}

/// The dump of `record`.
pub open spec fn record_text(record: Record, absolute: bool) -> Seq<char> {
    dump_text(
        record.address as nat,
        record.type_label@,
        record.source@,
        record.bytes@,
        absolute,
    )
}

fn append_pointer(out: &mut String, a: u128)
    ensures
        final(out)@ == old(out)@ + pointer_text(a as nat),
{
    proof {
        reveal_strlit("0x");
    }
    out.append("0x");
    append_hex_padded(out, a, 1);
    assert(final(out)@ =~= old(out)@ + pointer_text(a as nat));
}

fn append_header(out: &mut String, record: &Record, absolute: bool)
    ensures
        final(out)@ == old(out)@ + header(
            record.address as nat,
            record.type_label@,
            record.source@,
            absolute,
        ),
{
    proof {
        reveal_strlit("-----+ ");
        reveal_strlit(" : ");
        reveal_strlit(": ");
        reveal_strlit(" = ");
        reveal_strlit("\n");
    }
    if absolute {
        append_pointer(out, record.address as u128);
        out.append(" : ");
    } else {
        out.append("-----+ ");
        append_pointer(out, record.address as u128);
        out.append(": ");
    }
    out.append(record.type_label);
    out.append(" = ");
    out.append(record.source);
    out.append("\n");
    assert(final(out)@ =~= old(out)@ + header(
        record.address as nat,
        record.type_label@,
        record.source@,
        absolute,
    ));
}

/// Appends row `k` of `record`, its line break included.
fn append_row(out: &mut String, record: &Record, k: usize, absolute: bool)
    requires
        k < row_count(record.bytes@.len()),
    ensures
        final(out)@ == old(out)@ + row_line(
            record.address as nat,
            record.bytes@,
            k as nat,
            absolute,
        ),
{
    let len = record.bytes.len();
    assert(16 * k < len) by (nonlinear_arith)
        requires
            k < (len + 15) / 16,
    ;
    let start: usize = k * ROW_WIDTH;
    let end: usize = if len - start < ROW_WIDTH {
        len
    } else {
        start + ROW_WIDTH
    };
    proof {
        reveal_strlit(" |");
        reveal_strlit("\n");
    }
    if absolute {
        append_pointer(out, record.address as u128 + start as u128);
    } else {
        append_hex_padded(out, start as u128, 4);
    }
    out.append(" |");
    let ghost before_cells = out@;
    let mut j: usize = start;
    assert(record.bytes@.subrange(start as int, start as int) =~= Seq::<u8>::empty());
    while j < end
        invariant
            start <= j <= end,
            end <= len,
            end - start <= ROW_WIDTH,
            len == record.bytes@.len(),
            out@ == before_cells + cells(record.bytes@.subrange(start as int, j as int)),
        decreases end - j,
    {
        proof {
            reveal_strlit(" :");
            reveal_strlit(" ");
        }
        let ghost prev = out@;
        if j - start == ROW_CENTER {
            out.append(" :");
        }
        out.append(" ");
        append_hex_fixed(out, record.bytes[j] as u128, 2);
        proof {
            let row = record.bytes@.subrange(start as int, j + 1);
            assert(row.drop_last() =~= record.bytes@.subrange(start as int, j as int));
            assert(row.last() == record.bytes@[j as int]);
            assert(out@ =~= prev + cell((j - start) as nat, record.bytes@[j as int]));
        }
        j += 1;
    }
    out.append("\n");
    assert(record.bytes@.subrange(start as int, end as int) =~= row_bytes(record.bytes@, k as nat));
    assert(final(out)@ =~= old(out)@ + row_line(
        record.address as nat,
        record.bytes@,
        k as nat,
        absolute,
    ));
}

/// Appends the dump of `record` to `out`: the header, then one line per row
/// of sixteen bytes. `absolute` selects addresses instead of offsets as the
/// row prefixes. Nothing but the header is written for an empty byte view.
pub fn write_internal(out: &mut String, record: &Record, absolute: bool)
    ensures
        final(out)@ == old(out)@ + record_text(*record, absolute),
{
    append_header(out, record, absolute);
    let len = record.bytes.len();
    let rows: usize = if len % ROW_WIDTH == 0 {
        len / ROW_WIDTH
    } else {
        len / ROW_WIDTH + 1
    };
    assert(rows == row_count(len as nat));
    let ghost after_header = out@;
    let mut k: usize = 0;
    while k < rows
        invariant
            k <= rows,
            rows == row_count(record.bytes@.len()),
            out@ == after_header + rows_text(record.address as nat, record.bytes@, k as nat, absolute),
        decreases rows - k,
    {
        append_row(out, record, k, absolute);
        k += 1;
        assert(out@ =~= after_header + rows_text(record.address as nat, record.bytes@, k as nat, absolute));
    }
    assert(final(out)@ =~= old(out)@ + record_text(*record, absolute));
}

/// The dump of `record` with offsets as row prefixes, as a new `String`.
pub fn binspect_string(record: &Record) -> (text: String)
    ensures
        text@ == record_text(*record, false),
{
    let mut text = String::new();
    write_internal(&mut text, record, false);
    assert(text@ =~= record_text(*record, false));
    text
}

} // verus!

//! Properties of the dump format, proved over the spec functions that
//! [`crate::dump::write_internal`] is verified against.

use vstd::prelude::*;
use crate::hex::{
    digit_count, hex_alphabet, hex_fixed, hex_padded, lemma_digit_count_bound,
    lemma_hex_fixed_digits, pow16,
};
use crate::dump::{
    cell, cells, dump_text, header, header_prefix, pointer_text, row_bytes, row_count, row_line,
    row_prefix, rows_text,
};

verus! {

/// The number of line breaks in `s`.
pub open spec fn line_breaks(s: Seq<char>) -> nat
    decreases s.len(),
{
    if s.len() == 0 {
        0
    } else {
        line_breaks(s.drop_last()) + if s.last() == '\n' {
            1nat
        } else {
            0nat
        }
    }
}

/// The bytes of `bytes`, grouped by row.
pub open spec fn row_groups(bytes: Seq<u8>) -> Seq<Seq<u8>> {
    Seq::new(row_count(bytes.len()), |k: int| row_bytes(bytes, k as nat))
}

/// Bytes written one after another as a space and two digits, with no
/// separator among them.
pub open spec fn spaced_bytes(row: Seq<u8>) -> Seq<char>
    decreases row.len(),
{
    if row.len() == 0 {
        Seq::empty()
    } else {
        spaced_bytes(row.drop_last()) + seq![' '] + hex_fixed(row.last() as nat, 2)
    }
}

proof fn lemma_line_breaks_add(a: Seq<char>, b: Seq<char>)
    ensures
        line_breaks(a + b) == line_breaks(a) + line_breaks(b),
    decreases b.len(),
{
    if b.len() == 0 {
        assert(a + b =~= a);
    } else {
        lemma_line_breaks_add(a, b.drop_last());
        assert((a + b).drop_last() =~= a + b.drop_last());
    }
}

proof fn lemma_no_line_breaks(s: Seq<char>)
    requires
        forall|i: int| 0 <= i < s.len() ==> s[i] != '\n',
    ensures
        line_breaks(s) == 0,
    decreases s.len(),
{
    if s.len() > 0 {
        lemma_no_line_breaks(s.drop_last());
    }
}

proof fn lemma_hex_no_line_breaks(v: nat, n: nat)
    ensures
        line_breaks(hex_fixed(v, n)) == 0,
{
    lemma_hex_fixed_digits(v, n);
    let s = hex_fixed(v, n);
    assert forall|i: int| 0 <= i < s.len() implies s[i] != '\n' by {
        assert(hex_alphabet().contains(s[i]));
    }
    lemma_no_line_breaks(s);
}

proof fn lemma_cells_no_line_breaks(row: Seq<u8>)
    ensures
        line_breaks(cells(row)) == 0,
    decreases row.len(),
{
    if row.len() > 0 {
        let j = (row.len() - 1) as nat;
        lemma_cells_no_line_breaks(row.drop_last());
        lemma_hex_no_line_breaks(row.last() as nat, 2);
        let sep = if j == 8 { seq![' ', ':'] } else { Seq::<char>::empty() };
        lemma_no_line_breaks(sep + seq![' ']);
        lemma_line_breaks_add(sep + seq![' '], hex_fixed(row.last() as nat, 2));
        lemma_line_breaks_add(cells(row.drop_last()), cell(j, row.last()));
    }
}

proof fn lemma_row_line_breaks(address: nat, bytes: Seq<u8>, k: nat, absolute: bool)
    ensures
        line_breaks(row_line(address, bytes, k, absolute)) == 1,
{
    let p = row_prefix(address, k, absolute);
    let c = cells(row_bytes(bytes, k));
    lemma_no_line_breaks(seq![' ', '|']);
    lemma_no_line_breaks(seq!['0', 'x']);
    if absolute {
        let a = address + 16 * k;
        lemma_hex_no_line_breaks(a, if digit_count(a) < 1 { 1 } else { digit_count(a) });
        lemma_line_breaks_add(seq!['0', 'x'], hex_padded(a, 1));
        lemma_line_breaks_add(pointer_text(a), seq![' ', '|']);
    } else {
        let o = 16 * k;
        lemma_hex_no_line_breaks(o, if digit_count(o) < 4 { 4 } else { digit_count(o) });
        lemma_line_breaks_add(hex_padded(o, 4), seq![' ', '|']);
    }
    assert(line_breaks(p) == 0);
    lemma_cells_no_line_breaks(row_bytes(bytes, k));
    lemma_line_breaks_add(p, c);
    lemma_line_breaks_add(p + c, seq!['\n']);
    assert(seq!['\n'].drop_last() =~= Seq::<char>::empty());
    let nl = seq!['\n'];
    assert(nl.len() == 1 && nl.last() == '\n');
    assert(line_breaks(nl.drop_last()) == 0);
    assert(line_breaks(nl) == 1);
}

proof fn lemma_rows_line_breaks(address: nat, bytes: Seq<u8>, n: nat, absolute: bool)
    ensures
        line_breaks(rows_text(address, bytes, n, absolute)) == n,
    decreases n,
{
    if n > 0 {
        let m = (n - 1) as nat;
        lemma_rows_line_breaks(address, bytes, m, absolute);
        lemma_row_line_breaks(address, bytes, m, absolute);
        lemma_line_breaks_add(rows_text(address, bytes, m, absolute), row_line(address, bytes, m, absolute));
    }
}

proof fn lemma_groups_prefix(bytes: Seq<u8>, n: nat)
    requires
        n <= row_count(bytes.len()),
    ensures
        Seq::new(n, |k: int| row_bytes(bytes, k as nat)).flatten_alt() =~= bytes.subrange(
            0,
            if 16 * n <= bytes.len() { 16 * n as int } else { bytes.len() as int },
        ),
    decreases n,
{
    let groups = Seq::new(n, |k: int| row_bytes(bytes, k as nat));
    if n > 0 {
        let m = (n - 1) as nat;
        lemma_groups_prefix(bytes, m);
        assert(groups.drop_last() =~= Seq::new(m, |k: int| row_bytes(bytes, k as nat)));
        assert(16 * m < bytes.len());
    }
}

/// Rows: a dump of `L` bytes has `ceil(L / 16)` rows, each ending in a line
/// break, and the rows' bytes, taken in order, are exactly the dumped bytes,
/// each written as one cell of its row.
pub proof fn lemma_rows_cover_bytes(address: nat, bytes: Seq<u8>, absolute: bool)
    ensures
        16 * row_count(bytes.len()) >= bytes.len(),
        bytes.len() > 0 ==> 16 * (row_count(bytes.len()) - 1) < bytes.len(),
        row_groups(bytes).len() == row_count(bytes.len()),
        row_groups(bytes).flatten() == bytes,
        forall|k: nat|
            k < row_count(bytes.len()) ==> #[trigger] row_line(address, bytes, k, absolute) == row_prefix(
                address,
                k,
                absolute,
            ) + cells(row_groups(bytes)[k as int]) + seq!['\n'],
        line_breaks(rows_text(address, bytes, row_count(bytes.len()), absolute)) == row_count(
            bytes.len(),
        ),
{
    let n = row_count(bytes.len());
    lemma_groups_prefix(bytes, n);
    row_groups(bytes).lemma_flatten_and_flatten_alt_are_equivalent();
    assert(bytes.subrange(0, bytes.len() as int) =~= bytes);
    lemma_rows_line_breaks(address, bytes, n, absolute);
}

/// Empty view: the dump of no bytes is the header line alone, with no row
/// and no further line break.
pub proof fn lemma_empty_dump(
    address: nat,
    type_label: Seq<char>,
    source: Seq<char>,
    bytes: Seq<u8>,
    absolute: bool,
)
    requires
        bytes.len() == 0,
    ensures
        dump_text(address, type_label, source, bytes, absolute) == header(
            address,
            type_label,
            source,
            absolute,
        ),
{
    assert(dump_text(address, type_label, source, bytes, absolute) =~= header(
        address,
        type_label,
        source,
        absolute,
    ));
}

proof fn lemma_spaced_no_colon(row: Seq<u8>)
    ensures
        forall|i: int| 0 <= i < spaced_bytes(row).len() ==> spaced_bytes(row)[i] != ':',
    decreases row.len(),
{
    if row.len() > 0 {
        lemma_spaced_no_colon(row.drop_last());
        lemma_hex_fixed_digits(row.last() as nat, 2);
        let h = hex_fixed(row.last() as nat, 2);
        let s = spaced_bytes(row);
        let prev = spaced_bytes(row.drop_last());
        assert(s =~= prev + seq![' '] + h);
        assert forall|i: int| 0 <= i < s.len() implies s[i] != ':' by {
            if i >= prev.len() + 1 {
                assert(s[i] == h[i - prev.len() - 1]);
                assert(hex_alphabet().contains(h[i - prev.len() - 1]));
            }
        }
    }
}

proof fn lemma_cells_split(row: Seq<u8>)
    ensures
        row.len() <= 8 ==> cells(row) == spaced_bytes(row),
        row.len() > 8 ==> cells(row) == spaced_bytes(row.take(8)) + seq![' ', ':']
            + spaced_bytes(row.skip(8)),
    decreases row.len(),
{
    if row.len() > 0 {
        let dl = row.drop_last();
        let h = hex_fixed(row.last() as nat, 2);
        lemma_cells_split(dl);
        if row.len() <= 8 {
            assert(cells(row) =~= spaced_bytes(row));
        } else if row.len() == 9 {
            assert(dl =~= row.take(8));
            let tail = row.skip(8);
            assert(tail.drop_last() =~= Seq::<u8>::empty());
            assert(tail.last() == row.last());
            assert(spaced_bytes(tail.drop_last()) =~= Seq::<char>::empty());
            assert(spaced_bytes(tail) =~= seq![' '] + h);
            assert(cells(row) =~= spaced_bytes(row.take(8)) + seq![' ', ':'] + spaced_bytes(tail));
        } else {
            assert(dl.take(8) =~= row.take(8));
            let tail = row.skip(8);
            assert(tail.drop_last() =~= dl.skip(8));
            assert(tail.last() == row.last());
            assert(cells(row) =~= spaced_bytes(row.take(8)) + seq![' ', ':'] + spaced_bytes(tail));
        }
    }
}

/// Midpoint separator: in every row, ` :` stands once, just before the
/// ninth byte, when the row has one; a row of eight bytes or fewer has none.
/// No other cell text holds a `:`.
pub proof fn lemma_midpoint_separator(bytes: Seq<u8>, k: nat)
    requires
        k < row_count(bytes.len()),
    ensures
        row_bytes(bytes, k).len() <= 8 ==> cells(row_bytes(bytes, k)) == spaced_bytes(
            row_bytes(bytes, k),
        ),
        row_bytes(bytes, k).len() > 8 ==> cells(row_bytes(bytes, k)) == spaced_bytes(
            row_bytes(bytes, k).take(8),
        ) + seq![' ', ':'] + spaced_bytes(row_bytes(bytes, k).skip(8)),
        forall|i: int|
            0 <= i < spaced_bytes(row_bytes(bytes, k).take(8)).len() ==> spaced_bytes(
                row_bytes(bytes, k).take(8),
            )[i] != ':',
        forall|i: int|
            0 <= i < spaced_bytes(row_bytes(bytes, k).skip(8)).len() ==> spaced_bytes(
                row_bytes(bytes, k).skip(8),
            )[i] != ':',
        forall|i: int|
            0 <= i < spaced_bytes(row_bytes(bytes, k)).len() ==> spaced_bytes(
                row_bytes(bytes, k),
            )[i] != ':',
{
    let row = row_bytes(bytes, k);
    lemma_cells_split(row);
    lemma_spaced_no_colon(row);
    lemma_spaced_no_colon(row.take(8));
    lemma_spaced_no_colon(row.skip(8));
}

/// Relative offsets: row `k` starts with the byte at offset `16 * k`, and its
/// prefix is that offset as exactly four lower-case hexadecimal digits and
/// ` |` (for offsets that fit in four digits).
pub proof fn lemma_relative_offsets(address: nat, bytes: Seq<u8>, k: nat)
    requires
        k < row_count(bytes.len()),
        16 * k < 0x10000,
    ensures
        row_bytes(bytes, k)[0] == bytes[16 * k as int],
        row_prefix(address, k, false) == hex_fixed(16 * k, 4) + seq![' ', '|'],
        hex_fixed(16 * k, 4).len() == 4,
        forall|i: int| 0 <= i < 4 ==> hex_alphabet().contains(#[trigger] hex_fixed(16 * k, 4)[i]),
{
    assert(pow16(4) == 0x10000) by {
        reveal_with_fuel(pow16, 5);
    }
    lemma_digit_count_bound(16 * k, 4);
    lemma_hex_fixed_digits(16 * k, 4);
}

/// Labels: the header holds the type label and the source label exactly as
/// given, each in its place, with nothing escaped or cut.
pub proof fn lemma_labels_verbatim(
    address: nat,
    type_label: Seq<char>,
    source: Seq<char>,
    bytes: Seq<u8>,
    absolute: bool,
)
    ensures
        dump_text(address, type_label, source, bytes, absolute) == header_prefix(address, absolute)
            + type_label + seq![' ', '=', ' '] + source + seq!['\n'] + rows_text(
            address,
            bytes,
            row_count(bytes.len()),
            absolute,
        ),
        dump_text(address, type_label, source, bytes, absolute).subrange(
            header_prefix(address, absolute).len() as int,
            header_prefix(address, absolute).len() as int + type_label.len(),
        ) == type_label,
        dump_text(address, type_label, source, bytes, absolute).subrange(
            header_prefix(address, absolute).len() as int + type_label.len() + 3,
            header_prefix(address, absolute).len() as int + type_label.len() + 3 + source.len(),
        ) == source,
{
    let p = header_prefix(address, absolute);
    let t = dump_text(address, type_label, source, bytes, absolute);
    assert(t.subrange(p.len() as int, p.len() as int + type_label.len()) =~= type_label);
    assert(t.subrange(
        p.len() as int + type_label.len() + 3,
        p.len() as int + type_label.len() + 3 + source.len(),
    ) =~= source);
}

} // verus!

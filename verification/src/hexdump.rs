//! Hex dumps of raw bytes for debug logging.
use vstd::prelude::*;
use crate::text::{decimal, hex, push_char, push_radix};

verus! {

/// Number of bytes shown on each row.
pub open spec fn row_width() -> nat {
    16
}

/// How a byte appears in the character column: itself when it is a printable
/// ASCII character or a space, `.` otherwise.
pub open spec fn ascii_cell(b: u8) -> char {
    if (0x21 <= b && b <= 0x7e) || b == 0x20 {
        b as char
    } else {
        '.'
    }
}

/// The character column of a row.
pub open spec fn ascii_column(chunk: Seq<u8>) -> Seq<char>
    decreases chunk.len(),
{
    if chunk.len() == 0 {
        Seq::empty()
    } else {
        ascii_column(chunk.drop_last()).push(ascii_cell(chunk.last()))
    }
}

/// Position `p` of the hexadecimal column: an extra space before the ninth
/// position, then the byte's two digits and a space, or three spaces past the
/// end of a short row.
pub open spec fn hex_cell(chunk: Seq<u8>, p: nat) -> Seq<char> {
    (if p == 8 { seq![' '] } else { Seq::empty() }) + if p < chunk.len() {
        hex(chunk[p as int] as nat, 2).push(' ')
    } else {
        "   "@
    }
}

/// The first `n` positions of the hexadecimal column of a row.
pub open spec fn hex_column(chunk: Seq<u8>, n: nat) -> Seq<char>
    decreases n,
{
    if n == 0 {
        Seq::empty()
    } else {
        hex_column(chunk, (n - 1) as nat) + hex_cell(chunk, (n - 1) as nat)
    }
}

/// One row of the dump: indentation, the offset of its first byte in at least
/// four hexadecimal digits, the hexadecimal column, and the character column
/// between bars.
pub open spec fn row_text(offset: nat, chunk: Seq<u8>) -> Seq<char> {
    "  "@ + hex(offset, 4) + ": "@ + hex_column(chunk, 16) + " |"@ + ascii_column(chunk) + "|"@
}

/// The bytes of row `k`: sixteen bytes from `16 * k`, fewer in the last row.
pub open spec fn row_bytes(s: Seq<u8>, k: nat) -> Seq<u8> {
    let start: int = 16 * k as int;
    let end: int = if start + 16 <= s.len() { start + 16 } else { s.len() as int };
    s.subrange(start, end)
}

/// The first `k` rows of the dump of `s`, on separate lines.
pub open spec fn dump_rows(s: Seq<u8>, k: nat) -> Seq<char>
    decreases k,
{
    if k == 0 {
        Seq::empty()
    } else if k == 1 {
        row_text(0, row_bytes(s, 0))
    } else {
        dump_rows(s, (k - 1) as nat) + "\n"@ + row_text((16 * (k - 1)) as nat, row_bytes(s, (k - 1) as nat))
    }
}

/// Number of rows that `n` bytes take.
pub open spec fn row_count(n: nat) -> nat {
    (n + 15) / 16
}

/// The hex dump of `data` shown up to `max_bytes`: one row per sixteen shown
/// bytes, and a final line counting the bytes left out when `data` is longer.
pub open spec fn hex_dump_text(data: Seq<u8>, max_bytes: nat) -> Seq<char> {
    let shown = if data.len() <= max_bytes { data } else { data.take(max_bytes as int) };
    dump_rows(shown, row_count(shown.len())) + if data.len() > max_bytes {
        "\n  ... ("@ + decimal((data.len() - max_bytes) as nat) + " bytes truncated)"@
    } else {
        Seq::empty()
    }
}

/// Appends the row of `chunk` that starts at `offset`.
fn push_row(out: &mut String, offset: u64, chunk: &[u8])
    requires
        chunk@.len() <= 16,
    ensures
        final(out)@ == old(out)@ + row_text(offset as nat, chunk@),
{
    out.append("  ");
    push_radix(out, offset, 16, 4);
    out.append(": ");
    let ghost head = out@;
    let mut p: usize = 0;
    while p < 16
        invariant
            p <= 16,
            chunk@.len() <= 16,
            out@ == head + hex_column(chunk@, p as nat),
        decreases 16 - p,
    {
        let ghost before = out@;
        if p == 8 {
            push_char(out, ' ');
        }
        let ghost mid = out@;
        if p < chunk.len() {
            push_radix(out, chunk[p] as u64, 16, 2);
            push_char(out, ' ');
        } else {
            out.append("   ");
        }
        proof {
            if p == 8 {
                assert(mid == before + seq![' ']);
            } else {
                assert(mid == before + Seq::<char>::empty());
            }
            assert(out@ =~= head + hex_column(chunk@, (p + 1) as nat));
        }
        p = p + 1;
    }
    out.append(" |");
    let ghost head2 = out@;
    let mut j: usize = 0;
    while j < chunk.len()
        invariant
            j <= chunk@.len(),
            out@ == head2 + ascii_column(chunk@.take(j as int)),
        decreases chunk@.len() - j,
    {
        let b = chunk[j];
        let c = if (0x21 <= b && b <= 0x7e) || b == 0x20 {
            b as char
        } else {
            '.'
        };
        push_char(out, c);
        assert(chunk@.take(j + 1).drop_last() =~= chunk@.take(j as int));
        j = j + 1;
    }
    assert(chunk@.take(chunk@.len() as int) =~= chunk@);
    out.append("|");
}

/// Formats a byte slice as a hex dump suitable for debug logging.
pub fn hex_dump(data: &[u8], max_bytes: usize) -> (r: String)
    ensures
        r@ == hex_dump_text(data@, max_bytes as nat),
{
    let truncated = data.len() > max_bytes;
    let shown_len = if truncated { max_bytes } else { data.len() };
    let display = vstd::slice::slice_subrange(data, 0, shown_len);
    let ghost shown = display@;
    assert(shown =~= (if data@.len() <= max_bytes { data@ } else { data@.take(max_bytes as int) }));
    let rows = shown_len / 16 + if shown_len % 16 != 0 { 1 } else { 0 };
    assert(rows == row_count(shown_len as nat));
    let mut result = String::new();
    let mut i: usize = 0;
    while i < rows
        invariant
            i <= rows,
            rows == row_count(shown_len as nat),
            shown_len == display@.len(),
            result@ == dump_rows(display@, i as nat),
        decreases rows - i,
    {
        if i > 0 {
            push_char(&mut result, '\n');
        }
        let start = 16 * i;
        let end = if shown_len - start > 16 { start + 16 } else { shown_len };
        let chunk = vstd::slice::slice_subrange(display, start, end);
        push_row(&mut result, start as u64, chunk);
        proof {
            assert(chunk@ =~= row_bytes(display@, i as nat));
            assert("\n"@ =~= seq!['\n']) by {
                reveal_strlit("\n");
            }
        }
        i = i + 1;
    }
    if truncated {
        result.append("\n  ... (");
        push_radix(&mut result, (data.len() - max_bytes) as u64, 10, 1);
        result.append(" bytes truncated)");
    }
    result
}

/// Every byte of a row shows in the character column: printable ASCII
/// characters and the space as themselves, every other byte as `.`.
pub proof fn lemma_row_shows_printable_bytes(offset: nat, chunk: Seq<u8>)
    ensures
        row_text(offset, chunk) == "  "@ + hex(offset, 4) + ": "@ + hex_column(chunk, 16) + " |"@
            + chunk.map_values(|b: u8| if 0x20 <= b && b <= 0x7e { b as char } else { '.' })
            + "|"@,
{
    lemma_ascii_column_map(chunk);
}

/// The character column maps each byte on its own.
proof fn lemma_ascii_column_map(chunk: Seq<u8>)
    ensures
        ascii_column(chunk) == chunk.map_values(|b: u8| if 0x20 <= b && b <= 0x7e { b as char } else { '.' }),
    decreases chunk.len(),
{
    let shown = chunk.map_values(|b: u8| if 0x20 <= b && b <= 0x7e { b as char } else { '.' });
    if chunk.len() > 0 {
        lemma_ascii_column_map(chunk.drop_last());
        assert(shown =~= chunk.drop_last().map_values(
            |b: u8| if 0x20 <= b && b <= 0x7e { b as char } else { '.' },
        ).push(ascii_cell(chunk.last())));
    } else {
        assert(shown =~= Seq::<char>::empty());
    }
}

/// The first `r` rows hold the first `16 * r` bytes (all of them, once the
/// rows run out).
proof fn lemma_rows_prefix(s: Seq<u8>, r: nat)
    requires
        r <= row_count(s.len()),
    ensures
        Seq::new(r, |k: int| row_bytes(s, k as nat)).flatten_alt() =~= s.take(
            if 16 * r <= s.len() { 16 * r as int } else { s.len() as int },
        ),
    decreases r,
{
    let rows = Seq::new(r, |k: int| row_bytes(s, k as nat));
    if r == 0 {
        assert(rows.len() == 0);
    } else {
        lemma_rows_prefix(s, (r - 1) as nat);
        assert(rows.drop_last() =~= Seq::new((r - 1) as nat, |k: int| row_bytes(s, k as nat)));
        assert(rows.last() == row_bytes(s, (r - 1) as nat));
        assert(16 * (r - 1) < s.len());
    }
}

/// The rows of a dump split the shown bytes in order: joined, they give back
/// exactly those bytes; every row but the last holds sixteen of them, and no
/// row is empty.
pub proof fn lemma_rows_split_bytes(s: Seq<u8>)
    ensures
        Seq::new(row_count(s.len()), |k: int| row_bytes(s, k as nat)).flatten() == s,
        forall|k: nat| k + 1 < row_count(s.len()) ==> (#[trigger] row_bytes(s, k)).len() == 16,
        forall|k: nat| k < row_count(s.len()) ==> (#[trigger] row_bytes(s, k)).len() > 0,
{
    let rows = Seq::new(row_count(s.len()), |k: int| row_bytes(s, k as nat));
    lemma_rows_prefix(s, row_count(s.len()));
    rows.lemma_flatten_and_flatten_alt_are_equivalent();
    assert(s.take(s.len() as int) =~= s);
}

} // verus!

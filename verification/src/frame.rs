//! Moving pixels between a padded surface and a packed RGBA frame.

use crate::eval::{frame_len, lemma_row_bounds, lemma_same_rows, row_len, row_of};
use vstd::prelude::*;

verus! {

/// Where the byte at `k` goes when red and blue are exchanged.
pub open spec fn swapped_at(k: int) -> int {
    if k % 4 == 0 {
        k + 2
    } else if k % 4 == 2 {
        k - 2
    } else {
        k
    }
}

/// Pixels with their first and third components exchanged.
pub open spec fn swapped(bytes: Seq<u8>) -> Seq<u8> {
    Seq::new(bytes.len(), |k: int| bytes[swapped_at(k)])
}

/// A frame in RGBA order, given in RGBA or in BGRA order. The same exchange leads back.
pub open spec fn reordered(frame: Seq<u8>, bgra: bool) -> Seq<u8> {
    if bgra {
        swapped(frame)
    } else {
        frame
    }
}

/// The pixels of line `y` of a surface whose lines are `linesize` bytes apart.
pub open spec fn line_of(data: Seq<u8>, linesize: u32, width: u32, y: int) -> Seq<u8> {
    data.subrange(y * linesize, y * linesize + row_len(width))
}

/// The first `rows` lines of a surface, one after the other without padding.
pub open spec fn packed(data: Seq<u8>, linesize: u32, width: u32, rows: nat) -> Seq<u8>
    decreases rows,
{
    if rows == 0 {
        Seq::empty()
    } else {
        packed(data, linesize, width, (rows - 1) as nat) + line_of(data, linesize, width, rows - 1)
    }
}

/// `data` with `bytes` written at `at`.
pub open spec fn overwritten(data: Seq<u8>, at: int, bytes: Seq<u8>) -> Seq<u8> {
    Seq::new(
        data.len(),
        |i: int|
            if at <= i < at + bytes.len() {
                bytes[i - at]
            } else {
                data[i]
            },
    )
}

/// A surface with the first `rows` rows of a frame written to its lines, from the top down.
pub open spec fn unpacked(
    data: Seq<u8>,
    frame: Seq<u8>,
    linesize: u32,
    width: u32,
    rows: nat,
) -> Seq<u8>
    decreases rows,
{
    if rows == 0 {
        data
    } else {
        overwritten(
            unpacked(data, frame, linesize, width, (rows - 1) as nat),
            (rows - 1) * linesize,
            row_of(frame, width, rows - 1),
        )
    }
}

/// The bytes that a surface must hold at least.
pub open spec fn surface_len(linesize: u32, width: u32, height: u32) -> int {
    (height - 1) * linesize + row_len(width)
}

/// Bounds of line `y` of a surface.
proof fn lemma_line_bounds(linesize: u32, width: u32, height: u32, y: int)
    requires
        0 <= y < height,
    ensures
        0 <= y * linesize,
        y * linesize + row_len(width) <= surface_len(linesize, width, height),
{
    assert(0 <= y * linesize) by (nonlinear_arith)
        requires
            0 <= y,
    ;
    assert(y * linesize <= (height - 1) * linesize) by (nonlinear_arith)
        requires
            y <= height - 1,
    ;
}

/// A row fits where its frame fits.
pub proof fn lemma_frame_bounds(width: u32, height: u32)
    requires
        height > 0,
    ensures
        row_len(width) <= frame_len(width, height),
{
    assert(row_len(width) <= height * row_len(width)) by (nonlinear_arith)
        requires
            height > 0,
            row_len(width) >= 0,
    ;
}

/// Exchanges red and blue in every pixel.
pub fn swap_red_blue(frame: &mut Vec<u8>)
    requires
        old(frame)@.len() % 4 == 0,
    ensures
        final(frame)@ == swapped(old(frame)@),
{
    let len: usize = frame.len();
    let mut i: usize = 0;
    while i < len
        invariant
            i <= len,
            i % 4 == 0,
            len % 4 == 0,
            len == frame@.len(),
            len == old(frame)@.len(),
            forall|k: int| 0 <= k < i ==> #[trigger] frame@[k] == old(frame)@[swapped_at(k)],
            forall|k: int| i <= k < len ==> #[trigger] frame@[k] == old(frame)@[k],
        decreases len - i,
    {
        let first: u8 = frame[i];
        let third: u8 = frame[i + 2];
        frame[i] = third;
        frame[i + 2] = first;
        i = i + 4;
    }
    assert(frame@ =~= swapped(old(frame)@));
}

/// Copies a surface's lines into `frame`, dropping the padding.
pub fn copy_lines_in(frame: &mut Vec<u8>, data: &[u8], linesize: u32, width: u32, height: u32)
    requires
        height > 0,
        frame_len(width, height) <= isize::MAX,
        surface_len(linesize, width, height) <= data@.len(),
    ensures
        final(frame)@ == packed(data@, linesize, width, height as nat),
        final(frame)@.len() == frame_len(width, height),
{
    proof {
        lemma_frame_bounds(width, height);
    }
    let surface: usize = data.len();
    let stride: usize = width as usize * 4;
    frame.resize(height as usize * stride, 0);
    let mut y: u32 = 0;
    while y < height
        invariant
            y <= height,
            stride == row_len(width),
            surface == data@.len(),
            surface_len(linesize, width, height) <= surface,
            frame_len(width, height) <= isize::MAX,
            frame@.len() == frame_len(width, height),
            y * row_len(width) <= frame_len(width, height),
            frame@.subrange(0, y * row_len(width)) == packed(data@, linesize, width, y as nat),
        decreases height - y,
    {
        proof {
            lemma_line_bounds(linesize, width, height, y as int);
            lemma_row_bounds(width, height, y as int);
        }
        let from: usize = y as usize * linesize as usize;
        let to: usize = y as usize * stride;
        let ghost before = frame@;
        let mut k: usize = 0;
        while k < stride
            invariant
                k <= stride,
                stride == row_len(width),
                surface == data@.len(),
                from + stride <= surface,
                to + stride <= frame@.len(),
                frame@.len() == before.len(),
                frame@.len() <= isize::MAX,
                frame@.subrange(0, to as int) == before.subrange(0, to as int),
                forall|i: int|
                    to <= i < to + k ==> #[trigger] frame@[i] == data@[from + (i - to)],
            decreases stride - k,
        {
            frame[to + k] = data[from + k];
            assert(frame@.subrange(0, to as int) =~= before.subrange(0, to as int));
            k = k + 1;
        }
        assert(frame@.subrange(0, (y + 1) * row_len(width)) =~= frame@.subrange(0, to as int)
            + frame@.subrange(to as int, to + stride));
        assert(frame@.subrange(to as int, to + stride) =~= line_of(
            data@,
            linesize,
            width,
            y as int,
        ));
        y = y + 1;
    }
    assert(frame@ =~= frame@.subrange(0, height * row_len(width)));
}

/// Copies `frame` to a surface's lines. Bytes between the lines stay as they are.
pub fn copy_lines_out(data: &mut [u8], frame: &Vec<u8>, linesize: u32, width: u32, height: u32)
    requires
        height > 0,
        frame@.len() == frame_len(width, height),
        surface_len(linesize, width, height) <= old(data)@.len(),
    ensures
        final(data)@ == unpacked(old(data)@, frame@, linesize, width, height as nat),
{
    proof {
        lemma_frame_bounds(width, height);
    }
    let total: usize = frame.len();
    let surface: usize = data.len();
    let stride: usize = width as usize * 4;
    let mut y: u32 = 0;
    while y < height
        invariant
            y <= height,
            stride == row_len(width),
            surface == data@.len(),
            surface_len(linesize, width, height) <= surface,
            total == frame@.len(),
            total == frame_len(width, height),
            data@ == unpacked(old(data)@, frame@, linesize, width, y as nat),
        decreases height - y,
    {
        proof {
            lemma_line_bounds(linesize, width, height, y as int);
            lemma_row_bounds(width, height, y as int);
        }
        let to: usize = y as usize * linesize as usize;
        let from: usize = y as usize * stride;
        let ghost before = data@;
        let mut k: usize = 0;
        while k < stride
            invariant
                k <= stride,
                surface == data@.len(),
                surface == before.len(),
                to + stride <= surface,
                from + stride <= total,
                total == frame@.len(),
                forall|i: int|
                    0 <= i < surface ==> #[trigger] data@[i] == if to <= i < to + k {
                        frame@[from + (i - to)]
                    } else {
                        before[i]
                    },
            decreases stride - k,
        {
            data[to + k] = frame[from + k];
            k = k + 1;
        }
        assert(data@ =~= overwritten(before, y * linesize, row_of(frame@, width, y as int)));
        y = y + 1;
    }
}

/// Exchanging red and blue twice gives the pixels back.
pub proof fn law_swap_undoes_itself(bytes: Seq<u8>)
    requires
        bytes.len() % 4 == 0,
    ensures
        swapped(swapped(bytes)) == bytes,
{
    assert(swapped(swapped(bytes)) =~= bytes);
}

/// A packed surface has one row for each line.
pub proof fn lemma_packed_rows(data: Seq<u8>, linesize: u32, width: u32, height: u32, rows: nat)
    requires
        rows <= height,
        height > 0,
        surface_len(linesize, width, height) <= data.len(),
    ensures
        packed(data, linesize, width, rows).len() == rows * row_len(width),
        forall|y: int|
            0 <= y < rows ==> #[trigger] row_of(packed(data, linesize, width, rows), width, y)
                == line_of(data, linesize, width, y),
    decreases rows,
{
    if rows > 0 {
        let above = packed(data, linesize, width, (rows - 1) as nat);
        let all = packed(data, linesize, width, rows);
        lemma_packed_rows(data, linesize, width, height, (rows - 1) as nat);
        lemma_line_bounds(linesize, width, height, rows - 1);
        lemma_row_bounds(width, height, rows - 1);
        assert forall|y: int| 0 <= y < rows implies #[trigger] row_of(all, width, y) == line_of(
            data,
            linesize,
            width,
            y,
        ) by {
            if y < rows - 1 {
                lemma_row_bounds(width, (rows - 1) as u32, y);
                assert(row_of(all, width, y) =~= row_of(above, width, y));
            } else {
                assert(row_of(all, width, y) =~= line_of(data, linesize, width, y));
            }
        }
    }
}

/// Writing a frame to a surface keeps the surface's size, and every line written so far holds
/// its row, where lines do not overlap.
proof fn lemma_unpacked_lines(
    data: Seq<u8>,
    frame: Seq<u8>,
    linesize: u32,
    width: u32,
    height: u32,
    rows: nat,
)
    requires
        rows <= height,
        height > 0,
        surface_len(linesize, width, height) <= data.len(),
        frame.len() == frame_len(width, height),
    ensures
        unpacked(data, frame, linesize, width, rows).len() == data.len(),
        row_len(width) <= linesize ==> forall|y: int|
            0 <= y < rows ==> #[trigger] line_of(
                unpacked(data, frame, linesize, width, rows),
                linesize,
                width,
                y,
            ) == row_of(frame, width, y),
    decreases rows,
{
    if rows > 0 {
        let before = unpacked(data, frame, linesize, width, (rows - 1) as nat);
        let after = unpacked(data, frame, linesize, width, rows);
        lemma_unpacked_lines(data, frame, linesize, width, height, (rows - 1) as nat);
        lemma_line_bounds(linesize, width, height, rows - 1);
        lemma_row_bounds(width, height, rows - 1);
        if row_len(width) <= linesize {
            assert forall|y: int| 0 <= y < rows implies #[trigger] line_of(
                after,
                linesize,
                width,
                y,
            ) == row_of(frame, width, y) by {
                lemma_line_bounds(linesize, width, height, y);
                lemma_row_bounds(width, height, y);
                if y < rows - 1 {
                    assert(y * linesize + linesize <= (rows - 1) * linesize) by (nonlinear_arith)
                        requires
                            y + 1 <= rows - 1,
                    ;
                    assert(line_of(after, linesize, width, y) =~= line_of(
                        before,
                        linesize,
                        width,
                        y,
                    ));
                } else {
                    assert(line_of(after, linesize, width, y) =~= row_of(frame, width, y));
                }
            }
        }
    }
}

/// A frame written to a surface is read back from it, where the surface's lines are at least
/// as long as a row.
pub proof fn law_written_frame_is_read_back(
    data: Seq<u8>,
    frame: Seq<u8>,
    linesize: u32,
    width: u32,
    height: u32,
)
    requires
        height > 0,
        row_len(width) <= linesize,
        surface_len(linesize, width, height) <= data.len(),
        frame.len() == frame_len(width, height),
    ensures
        packed(
            unpacked(data, frame, linesize, width, height as nat),
            linesize,
            width,
            height as nat,
        ) == frame,
{
    let written = unpacked(data, frame, linesize, width, height as nat);
    let back = packed(written, linesize, width, height as nat);
    lemma_unpacked_lines(data, frame, linesize, width, height, height as nat);
    lemma_packed_rows(written, linesize, width, height, height as nat);
    assert forall|y: int| 0 <= y < height implies row_of(back, width, y) == #[trigger] row_of(
        frame,
        width,
        y,
    ) by {
        assert(row_of(back, width, y) == line_of(written, linesize, width, y));
    }
    lemma_same_rows(back, frame, width, height);
}

/// Writing a surface's own pixels back changes nothing, to `rows` lines.
proof fn lemma_unpacked_own(data: Seq<u8>, linesize: u32, width: u32, height: u32, rows: nat)
    requires
        rows <= height,
        height > 0,
        surface_len(linesize, width, height) <= data.len(),
    ensures
        unpacked(data, packed(data, linesize, width, height as nat), linesize, width, rows) == data,
    decreases rows,
{
    if rows > 0 {
        let frame = packed(data, linesize, width, height as nat);
        lemma_unpacked_own(data, linesize, width, height, (rows - 1) as nat);
        lemma_packed_rows(data, linesize, width, height, height as nat);
        lemma_line_bounds(linesize, width, height, rows - 1);
        assert(row_of(frame, width, rows - 1) == line_of(data, linesize, width, rows - 1));
        assert(overwritten(data, (rows - 1) * linesize, row_of(frame, width, rows - 1)) =~= data);
    }
}

/// A surface whose own pixels are written back to it is unchanged.
pub proof fn law_unchanged_frame_leaves_surface(
    data: Seq<u8>,
    linesize: u32,
    width: u32,
    height: u32,
)
    requires
        height > 0,
        surface_len(linesize, width, height) <= data.len(),
    ensures
        unpacked(
            data,
            packed(data, linesize, width, height as nat),
            linesize,
            width,
            height as nat,
        ) == data,
{
    lemma_unpacked_own(data, linesize, width, height, height as nat);
}

/// Bytes of a surface that lie in none of its lines' pixels are left alone by a write.
pub proof fn law_padding_is_untouched(
    data: Seq<u8>,
    frame: Seq<u8>,
    linesize: u32,
    width: u32,
    height: u32,
    rows: nat,
    i: int,
)
    requires
        rows <= height,
        height > 0,
        surface_len(linesize, width, height) <= data.len(),
        frame.len() == frame_len(width, height),
        0 <= i < data.len(),
        forall|y: int| #![trigger y * linesize]
            0 <= y < rows ==> !(y * linesize <= i < y * linesize + row_len(width)),
    ensures
        unpacked(data, frame, linesize, width, rows)[i] == data[i],
    decreases rows,
{
    if rows > 0 {
        law_padding_is_untouched(data, frame, linesize, width, height, (rows - 1) as nat, i);
        lemma_unpacked_lines(data, frame, linesize, width, height, (rows - 1) as nat);
        lemma_row_bounds(width, height, rows - 1);
        assert(!((rows - 1) * linesize <= i < (rows - 1) * linesize + row_len(width)));
    }
}

/// Packing takes the pixels of every line, in order, and nothing of what lies between lines.
pub proof fn law_packed_bytes(
    data: Seq<u8>,
    linesize: u32,
    width: u32,
    height: u32,
    y: int,
    k: int,
)
    requires
        (height - 1) * linesize + 4 * width <= data.len(),
        0 <= y < height,
        0 <= k < 4 * width,
    ensures
        packed(data, linesize, width, height as nat).len() == height * (4 * width),
        packed(data, linesize, width, height as nat)[y * (4 * width) + k] == data[y * linesize + k],
{
    let all = packed(data, linesize, width, height as nat);
    lemma_packed_rows(data, linesize, width, height, height as nat);
    lemma_row_bounds(width, height, y);
    lemma_line_bounds(linesize, width, height, y);
    assert(row_of(all, width, y)[k] == all[y * (4 * width) + k]);
    assert(line_of(data, linesize, width, y)[k] == data[y * linesize + k]);
}

/// Unpacking writes every byte of every row to its place in the row's line: a byte of the surface
/// is that of the last line that covers it. It keeps the surface's size.
pub proof fn law_unpacked_bytes(
    data: Seq<u8>,
    frame: Seq<u8>,
    linesize: u32,
    width: u32,
    height: u32,
    y: int,
    k: int,
)
    requires
        (height - 1) * linesize + 4 * width <= data.len(),
        frame.len() == height * (4 * width),
        0 <= y < height,
        0 <= k < 4 * width,
        forall|z: int| #![trigger z * linesize]
            y < z < height ==> !(z * linesize <= y * linesize + k < z * linesize + 4 * width),
    ensures
        unpacked(data, frame, linesize, width, height as nat).len() == data.len(),
        unpacked(data, frame, linesize, width, height as nat)[y * linesize + k] == frame[y * (4
            * width) + k],
{
    lemma_unpacked_lines(data, frame, linesize, width, height, height as nat);
    lemma_last_line_stays(data, frame, linesize, width, height, height as nat, y, k);
}

/// A byte keeps what the last line that covers it was given.
proof fn lemma_last_line_stays(
    data: Seq<u8>,
    frame: Seq<u8>,
    linesize: u32,
    width: u32,
    height: u32,
    rows: nat,
    y: int,
    k: int,
)
    requires
        surface_len(linesize, width, height) <= data.len(),
        frame.len() == frame_len(width, height),
        0 <= y < rows <= height,
        0 <= k < row_len(width),
        forall|z: int| #![trigger z * linesize]
            y < z < rows ==> !(z * linesize <= y * linesize + k < z * linesize + row_len(width)),
    ensures
        unpacked(data, frame, linesize, width, rows)[y * linesize + k] == frame[y * row_len(width)
            + k],
    decreases rows,
{
    let above = unpacked(data, frame, linesize, width, (rows - 1) as nat);
    lemma_unpacked_lines(data, frame, linesize, width, height, (rows - 1) as nat);
    lemma_line_bounds(linesize, width, height, y);
    lemma_row_bounds(width, height, rows - 1);
    if y == rows - 1 {
        assert(row_of(frame, width, y)[k] == frame[y * row_len(width) + k]);
    } else {
        lemma_last_line_stays(data, frame, linesize, width, height, (rows - 1) as nat, y, k);
        assert(!((rows - 1) * linesize <= y * linesize + k < (rows - 1) * linesize + row_len(
            width,
        )));
    }
}

/// In a BGRA frame the first and the third byte of every pixel change places, and no others; an
/// RGBA frame stays as it is.
pub proof fn law_reordered_bytes(frame: Seq<u8>, bgra: bool, pixel: int)
    requires
        0 <= pixel,
        4 * pixel + 3 < frame.len(),
    ensures
        reordered(frame, bgra).len() == frame.len(),
        reordered(frame, bgra)[4 * pixel] == if bgra {
            frame[4 * pixel + 2]
        } else {
            frame[4 * pixel]
        },
        reordered(frame, bgra)[4 * pixel + 1] == frame[4 * pixel + 1],
        reordered(frame, bgra)[4 * pixel + 2] == if bgra {
            frame[4 * pixel]
        } else {
            frame[4 * pixel + 2]
        },
        reordered(frame, bgra)[4 * pixel + 3] == frame[4 * pixel + 3],
        swapped(frame).len() == frame.len(),
        swapped(frame)[4 * pixel] == frame[4 * pixel + 2],
        swapped(frame)[4 * pixel + 1] == frame[4 * pixel + 1],
        swapped(frame)[4 * pixel + 2] == frame[4 * pixel],
        swapped(frame)[4 * pixel + 3] == frame[4 * pixel + 3],
{
}

/// A surface holds whole lines up to the last, which ends with its pixels.
pub proof fn law_surface_len(linesize: u32, width: u32, height: u32)
    ensures
        surface_len(linesize, width, height) == (height - 1) * linesize + 4 * width,
        frame_len(width, height) == height * (4 * width),
{
}

}

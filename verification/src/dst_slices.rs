//! The decomposition of a destination buffer into one row slot per source row.
use crate::index_of;
use crate::position::PositionU;
use crate::multi_threaded::copy_in_chunks;
use crate::multi_threaded::ThreadedBlitParams;
use crate::rows::{
    copied, copied_first, disjoint, gap_start, lemma_copied_nothing, lemma_copy_step,
    lemma_woven_copied, lemma_woven_rows, source_row, woven,
};
use crate::size::Size;
use vstd::prelude::*;

verus! {

/// Where the slot of source row `r` starts in the destination buffer.
pub open spec fn slot_start(position: PositionU, dst_w: usize, stride: usize, r: int) -> int {
    index_of(position.x as int, position.y + r, dst_w as int, stride as int)
}

/// The starts of the row slots of all `rows` source rows, top row first.
pub open spec fn slot_starts(position: PositionU, dst_w: usize, stride: usize, rows: usize) -> Seq<
    int,
> {
    Seq::new(rows as nat, |r: int| slot_start(position, dst_w, stride, r))
}

/// The number of bytes in one source row.
pub open spec fn row_len(src_size: Size, stride: usize) -> int {
    src_size.w * stride
}

/// Whether a source of size `src_size` can be placed at `position` in a
/// destination buffer of `dst_len` bytes that holds an image of size `dst_size`:
/// the stride is positive, the placement is a pixel of the destination, the
/// source does not overhang the right or the bottom edge, and the buffer
/// holds the whole destination image.
pub open spec fn decomposable(
    dst_len: usize,
    position: PositionU,
    dst_size: Size,
    src_size: Size,
    stride: usize,
) -> bool {
    &&& stride > 0
    &&& position.inside(dst_size)
    &&& position.x + src_size.w <= dst_size.w
    &&& position.y + src_size.h <= dst_size.h
    &&& dst_size.bytes(stride as int) <= dst_len
}

/// Whether a source of `src_w` by `src_h` pixels can be placed at `(dst_x, dst_y)`
/// in a destination buffer of `len` bytes that holds rows of `dst_w` pixels: the
/// height of the destination is the number of whole rows in the buffer.
pub open spec fn flat_decomposable(
    len: int,
    dst_x: usize,
    dst_y: usize,
    dst_w: usize,
    src_w: usize,
    src_h: usize,
    stride: usize,
) -> bool {
    &&& stride > 0
    &&& dst_w > 0
    &&& len <= usize::MAX
    &&& decomposable(
        len as usize,
        PositionU { x: dst_x, y: dst_y },
        Size::of_len(len, dst_w as int, stride as int),
        Size { w: src_w, h: src_h },
        stride,
    )
}

/// Every row slot of a source that fits lies inside the bytes of the destination image.
pub proof fn lemma_slot_inside(
    position: PositionU,
    dst_size: Size,
    src_size: Size,
    stride: usize,
    r: int,
)
    requires
        position.x + src_size.w <= dst_size.w,
        position.y + src_size.h <= dst_size.h,
        0 <= r < src_size.h,
    ensures
        0 <= slot_start(position, dst_size.w, stride, r),
        slot_start(position, dst_size.w, stride, r) + row_len(src_size, stride) <= dst_size.bytes(
            stride as int,
        ),
{
    let x = position.x as int;
    let y = position.y as int;
    let dw = dst_size.w as int;
    let dh = dst_size.h as int;
    let w = src_size.w as int;
    let s = stride as int;
    assert(0 <= (x + (y + r) * dw) * s && (x + (y + r) * dw) * s + w * s <= dw * dh * s)
        by (nonlinear_arith)
        requires
            0 <= x,
            0 <= y,
            0 <= r,
            0 <= w,
            0 <= s,
            x + w <= dw,
            y + r + 1 <= dh,
    {
        assert((x + (y + r) * dw) * s + w * s == (x + w + (y + r) * dw) * s);
        assert(x + w + (y + r) * dw <= (y + r + 1) * dw);
        assert((y + r + 1) * dw <= dh * dw);
        assert((x + w + (y + r) * dw) * s <= (dh * dw) * s);
    }
}

/// The slot of a row ends before the slot of any later row starts: no two
/// row slots of a decomposition overlap.
pub proof fn lemma_slots_apart(
    position: PositionU,
    dst_size: Size,
    src_size: Size,
    stride: usize,
    a: int,
    b: int,
)
    requires
        position.x + src_size.w <= dst_size.w,
        0 <= a < b,
    ensures
        slot_start(position, dst_size.w, stride, a) + row_len(src_size, stride) <= slot_start(
            position,
            dst_size.w,
            stride,
            b,
        ),
{
    let x = position.x as int;
    let y = position.y as int;
    let dw = dst_size.w as int;
    let w = src_size.w as int;
    let s = stride as int;
    assert((x + (y + a) * dw) * s + w * s <= (x + (y + b) * dw) * s) by (nonlinear_arith)
        requires
            0 <= x,
            0 <= y,
            0 <= a < b,
            0 <= w,
            0 <= s,
            x + w <= dw,
    {
        assert((x + (y + a) * dw) * s + w * s == (x + w + (y + a) * dw) * s);
        assert(x + w + (y + a) * dw <= (y + a + 1) * dw);
        assert((y + a + 1) * dw <= (y + b) * dw);
        assert((x + w + (y + a) * dw) * s <= (x + (y + b) * dw) * s);
    }
}

/// The row slots of a decomposable placement are disjoint and lie inside the buffer.
pub proof fn lemma_decomposition_disjoint(
    dst_len: usize,
    position: PositionU,
    dst_size: Size,
    src_size: Size,
    stride: usize,
)
    requires
        decomposable(dst_len, position, dst_size, src_size, stride),
    ensures
        disjoint(
            slot_starts(position, dst_size.w, stride, src_size.h),
            row_len(src_size, stride),
            dst_len as int,
        ),
{
    let starts = slot_starts(position, dst_size.w, stride, src_size.h);
    assert(0 <= row_len(src_size, stride)) by (nonlinear_arith)
        requires
            row_len(src_size, stride) == src_size.w * stride,
    ;
    assert forall|r: int| 0 <= r < starts.len() implies 0 <= (#[trigger] starts[r]) && starts[r]
        + row_len(src_size, stride) <= dst_len by {
        lemma_slot_inside(position, dst_size, src_size, stride, r);
    }
    assert forall|a: int, b: int| 0 <= a < b < starts.len() implies (#[trigger] starts[a])
        + row_len(src_size, stride) <= (#[trigger] starts[b]) by {
        lemma_slots_apart(position, dst_size, src_size, stride, a, b);
    }
}

/// `<[T]>::copy_from_slice` of std copies all elements of `src` into `dst`.
/// It panics where the two slices differ in length, so equal lengths are required.
pub assume_specification<T>[ <[T]>::copy_from_slice ](dst: &mut [T], src: &[T]) where T: Copy
    requires
        old(dst)@.len() == src@.len(),
    ensures
        final(dst)@ == src@,
;

/// Copy `row` over the bytes of `dst` that start at `start`, with one memory copy.
pub fn copy_row(dst: &mut [u8], start: usize, row: &[u8])
    requires
        start + row@.len() <= old(dst)@.len(),
    ensures
        final(dst)@ == old(dst)@.subrange(0, start as int) + row@ + old(dst)@.subrange(
            start + row@.len(),
            old(dst)@.len() as int,
        ),
{
    let n: usize = row.len();
    let (_head, tail) = dst.split_at_mut(start);
    let (slot, _rest) = tail.split_at_mut(n);
    slot.copy_from_slice(row);
}

/// The row slots of one placement of a source in a destination buffer: for
/// each source row the range of destination bytes that receives it.
///
/// The slots are kept as offsets into the buffer they were made for. They
/// can be kept and used for any number of copies into a buffer of that length.
#[derive(Debug)]
pub struct DstSlices {
    starts: Vec<usize>,
    row_bytes: usize,
    src_bytes: usize,
    dst_len: usize,
}

impl DstSlices {
    /// Where each row slot starts in the destination buffer, top row first.
    pub closed spec fn starts(&self) -> Seq<int> {
        Seq::new(self.starts@.len(), |r: int| self.starts@[r] as int)
    }

    /// The number of bytes in each row slot.
    pub closed spec fn row_bytes(&self) -> int {
        self.row_bytes as int
    }

    /// The length of the destination buffer that the slots were made for.
    pub closed spec fn dst_len(&self) -> int {
        self.dst_len as int
    }

    /// The slots lie inside the destination buffer and no two of them overlap.
    pub closed spec fn wf(&self) -> bool {
        &&& disjoint(self.starts(), self.row_bytes(), self.dst_len())
        &&& self.src_bytes == self.starts@.len() * self.row_bytes
    }

    #[verifier::type_invariant]
    spec fn inv(&self) -> bool {
        self.wf()
    }

    /// Whether a copy of a source of `src_len` bytes into a destination of `dst_len`
    /// bytes goes ahead: the destination has the length that the slots were made
    /// for, and the source holds a row for every slot.
    pub open spec fn accepts(&self, src_len: nat, dst_len: nat) -> bool {
        dst_len == self.dst_len() && self.starts().len() * self.row_bytes() <= src_len
    }

    /// No two row slots overlap, and each lies inside the destination buffer.
    pub proof fn lemma_disjoint(&self, a: int, b: int)
        requires
            self.wf(),
            0 <= a < b < self.starts().len(),
        ensures
            0 <= self.starts()[a],
            self.starts()[a] + self.row_bytes() <= self.starts()[b],
            self.starts()[b] + self.row_bytes() <= self.dst_len(),
    {
    }

    /// Decompose a destination buffer of `dst_len` bytes, which holds an image of
    /// size `dst_size`, into the row slots of a source of size `src_size` placed at
    /// `position`. Returns `None` where the placement is not decomposable.
    pub fn decompose(
        dst_len: usize,
        position: &PositionU,
        dst_size: &Size,
        src_size: &Size,
        stride: usize,
    ) -> (slots: Option<Self>)
        ensures
            slots.is_some() == decomposable(dst_len, *position, *dst_size, *src_size, stride),
            slots matches Some(s) ==> {
                &&& s.wf()
                &&& s.starts().len() == src_size.h
                &&& s.starts() == slot_starts(*position, dst_size.w, stride, src_size.h)
                &&& s.row_bytes() == row_len(*src_size, stride)
                &&& s.dst_len() == dst_len
            },
    {
        if stride == 0 || !position.is_inside(dst_size) {
            return None;
        }
        if src_size.w > dst_size.w - position.x || src_size.h > dst_size.h - position.y {
            return None;
        }
        let ghost dw = dst_size.w as int;
        let ghost dh = dst_size.h as int;
        let ghost st = stride as int;
        let area: usize = match dst_size.w.checked_mul(dst_size.h) {
            Some(area) => area,
            None => {
                assert(dw * dh * st >= dw * dh) by (nonlinear_arith)
                    requires
                        st >= 1,
                        dw * dh >= 0,
                ;
                return None;
            },
        };
        let bytes: usize = match area.checked_mul(stride) {
            Some(bytes) => bytes,
            None => {
                return None;
            },
        };
        if bytes > dst_len {
            return None;
        }
        let ghost x = position.x as int;
        let ghost y = position.y as int;
        let ghost w = src_size.w as int;
        let ghost h = src_size.h as int;
        assert(w * st <= dw * dh * st && dw * st <= dw * dh * st && (x + y * dw) * st <= dw * dh
            * st && h * (w * st) <= dw * dh * st && 0 <= y * dw && x + y * dw <= dw * dh)
            by (nonlinear_arith)
            requires
                0 <= x < dw,
                0 <= y < dh,
                0 <= w,
                0 <= h,
                x + w <= dw,
                y + h <= dh,
                st >= 1,
        {
            assert(dw * st <= dw * dh * st);
            assert(x + y * dw <= dw * dh);
            assert(h * w <= dh * dw);
            assert(h * (w * st) == (h * w) * st);
        }
        let row_bytes: usize = src_size.w * stride;
        let pitch: usize = dst_size.w * stride;
        let first: usize = (position.x + position.y * dst_size.w) * stride;
        let src_bytes: usize = src_size.h * row_bytes;
        let mut starts: Vec<usize> = Vec::new();
        let mut r: usize = 0;
        while r < src_size.h
            invariant
                r <= src_size.h,
                position.x + src_size.w <= dst_size.w,
                position.y + src_size.h <= dst_size.h,
                bytes == dst_size.bytes(stride as int),
                pitch == dst_size.w * stride,
                first == (position.x + position.y * dst_size.w) * stride,
                starts@.len() == r,
                forall|i: int|
                    0 <= i < r ==> (#[trigger] starts@[i]) == slot_start(
                        *position,
                        dst_size.w,
                        stride,
                        i,
                    ),
            decreases src_size.h - r,
        {
            proof {
                lemma_slot_inside(*position, *dst_size, *src_size, stride, r as int);
                let ri = r as int;
                let x = position.x as int;
                let y = position.y as int;
                let dw = dst_size.w as int;
                let st = stride as int;
                assert((x + (y + ri) * dw) * st == (x + y * dw) * st + ri * (dw * st))
                    by (nonlinear_arith);
                assert(0 <= ri * (dw * st)) by (nonlinear_arith)
                    requires
                        0 <= ri,
                        0 <= dw,
                        0 <= st,
                ;
            }
            let start: usize = first + r * pitch;
            starts.push(start);
            r = r + 1;
        }
        proof {
            let view = Seq::new(starts@.len(), |r: int| starts@[r] as int);
            lemma_decomposition_disjoint(dst_len, *position, *dst_size, *src_size, stride);
            assert(view =~= slot_starts(*position, dst_size.w, stride, src_size.h));
        }
        Some(DstSlices { starts, row_bytes, src_bytes, dst_len })
    }

    /// Decompose a destination buffer of `len` bytes, which holds rows of `dst_w`
    /// pixels, into the row slots of a source of `src_w` by `src_h` pixels placed at
    /// `(dst_x, dst_y)`.
    fn from_len(
        len: usize,
        dst_x: usize,
        dst_y: usize,
        dst_w: usize,
        src_w: usize,
        src_h: usize,
        stride: usize,
    ) -> (slots: Option<Self>)
        ensures
            slots.is_some() == flat_decomposable(
                len as int,
                dst_x,
                dst_y,
                dst_w,
                src_w,
                src_h,
                stride,
            ),
            slots matches Some(s) ==> {
                &&& s.wf()
                &&& s.starts().len() == src_h
                &&& s.starts() == slot_starts(PositionU { x: dst_x, y: dst_y }, dst_w, stride, src_h)
                &&& s.row_bytes() == src_w * stride
                &&& s.dst_len() == len
            },
    {
        if stride == 0 || dst_w == 0 {
            return None;
        }
        let dst_size = Size::from_len(len, dst_w, stride);
        let position = PositionU { x: dst_x, y: dst_y };
        let src_size = Size { w: src_w, h: src_h };
        Self::decompose(len, &position, &dst_size, &src_size, stride)
    }

    /// Decompose the destination bytes `dst`, which hold rows of `dst_w` pixels of
    /// `stride` bytes, into the row slots of a source of `src_w` by `src_h` pixels
    /// placed at `(dst_x, dst_y)`. Returns `None` where the source does not lie
    /// within the whole rows that `dst` holds.
    pub fn new(
        dst: &[u8],
        dst_x: usize,
        dst_y: usize,
        dst_w: usize,
        src_w: usize,
        src_h: usize,
        stride: usize,
    ) -> (slots: Option<Self>)
        ensures
            slots.is_some() == flat_decomposable(
                dst@.len() as int,
                dst_x,
                dst_y,
                dst_w,
                src_w,
                src_h,
                stride,
            ),
            slots matches Some(s) ==> {
                &&& s.wf()
                &&& s.starts().len() == src_h
                &&& s.starts() == slot_starts(PositionU { x: dst_x, y: dst_y }, dst_w, stride, src_h)
                &&& s.row_bytes() == src_w * stride
                &&& s.dst_len() == dst@.len()
            },
    {
        Self::from_len(dst.len(), dst_x, dst_y, dst_w, src_w, src_h, stride)
    }

    /// The row slots in the bytes of a destination of 32-bit pixels.
    pub fn from_u32(
        dst: &[u32],
        dst_x: usize,
        dst_y: usize,
        dst_w: usize,
        src_w: usize,
        src_h: usize,
    ) -> (slots: Option<Self>)
        ensures
            slots.is_some() == flat_decomposable(
                (dst@.len() * 4) as int,
                dst_x,
                dst_y,
                dst_w,
                src_w,
                src_h,
                4,
            ),
            slots matches Some(s) ==> {
                &&& s.wf()
                &&& s.starts().len() == src_h
                &&& s.starts() == slot_starts(PositionU { x: dst_x, y: dst_y }, dst_w, 4, src_h)
                &&& s.row_bytes() == src_w * 4
                &&& s.dst_len() == dst@.len() * 4
            },
    {
        Self::from_stride(dst, dst_x, dst_y, dst_w, src_w, src_h, 4)
    }

    /// The row slots in the bytes of a destination of pixels of `CHANNELS` bytes each.
    pub fn from_pixels<const CHANNELS: usize>(
        dst: &[[u8; CHANNELS]],
        dst_x: usize,
        dst_y: usize,
        dst_w: usize,
        src_w: usize,
        src_h: usize,
    ) -> (slots: Option<Self>)
        ensures
            slots.is_some() == flat_decomposable(
                (dst@.len() * CHANNELS) as int,
                dst_x,
                dst_y,
                dst_w,
                src_w,
                src_h,
                CHANNELS,
            ),
            slots matches Some(s) ==> {
                &&& s.wf()
                &&& s.starts().len() == src_h
                &&& s.starts() == slot_starts(
                    PositionU { x: dst_x, y: dst_y },
                    dst_w,
                    CHANNELS,
                    src_h,
                )
                &&& s.row_bytes() == src_w * CHANNELS
                &&& s.dst_len() == dst@.len() * CHANNELS
            },
    {
        Self::from_stride(dst, dst_x, dst_y, dst_w, src_w, src_h, CHANNELS)
    }

    /// The row slots in the bytes of a destination bitmap `W` pixels wide and `H`
    /// pixels high, of `CHANNELS` bytes per pixel: its `W * H * CHANNELS` bytes
    /// are taken as `H` rows of `W` pixels.
    pub fn from_bitmap<const W: usize, const H: usize, const CHANNELS: usize>(
        dst: &[[[u8; CHANNELS]; H]; W],
        dst_x: usize,
        dst_y: usize,
        src_w: usize,
        src_h: usize,
    ) -> (slots: Option<Self>)
        ensures
            slots.is_some() == (W * H * CHANNELS <= usize::MAX && flat_decomposable(
                (W * H * CHANNELS) as int,
                dst_x,
                dst_y,
                W,
                src_w,
                src_h,
                CHANNELS,
            )),
            slots matches Some(s) ==> {
                &&& s.wf()
                &&& s.starts().len() == src_h
                &&& s.starts() == slot_starts(PositionU { x: dst_x, y: dst_y }, W, CHANNELS, src_h)
                &&& s.row_bytes() == src_w * CHANNELS
                &&& s.dst_len() == W * H * CHANNELS
            },
    {
        let dst_w: usize = dst.as_slice().len();
        if CHANNELS == 0 {
            return None;
        }
        match dst_w.checked_mul(H) {
            Some(pixels) => match pixels.checked_mul(CHANNELS) {
                Some(len) => Self::from_len(len, dst_x, dst_y, dst_w, src_w, src_h, CHANNELS),
                None => None,
            },
            None => {
                assert(W * H * CHANNELS >= W * H) by (nonlinear_arith)
                    requires
                        CHANNELS >= 1,
                        W * H >= 0,
                ;
                None
            },
        }
    }

    /// The row slots in the bytes of a destination of `dst.len()` elements of
    /// `stride` bytes each.
    fn from_stride<Element>(
        dst: &[Element],
        dst_x: usize,
        dst_y: usize,
        dst_w: usize,
        src_w: usize,
        src_h: usize,
        stride: usize,
    ) -> (slots: Option<Self>)
        ensures
            slots.is_some() == flat_decomposable(
                (dst@.len() * stride) as int,
                dst_x,
                dst_y,
                dst_w,
                src_w,
                src_h,
                stride,
            ),
            slots matches Some(s) ==> {
                &&& s.wf()
                &&& s.starts().len() == src_h
                &&& s.starts() == slot_starts(PositionU { x: dst_x, y: dst_y }, dst_w, stride, src_h)
                &&& s.row_bytes() == src_w * stride
                &&& s.dst_len() == dst@.len() * stride
            },
    {
        match dst.len().checked_mul(stride) {
            Some(len) => Self::from_len(len, dst_x, dst_y, dst_w, src_w, src_h, stride),
            None => None,
        }
    }

    /// The number of row slots, which is the number of source rows.
    pub fn len(&self) -> (n: usize)
        ensures
            n == self.starts().len(),
    {
        self.starts.len()
    }

    /// The number of bytes in each row slot.
    pub fn row_len(&self) -> (n: usize)
        ensures
            n == self.row_bytes(),
    {
        self.row_bytes
    }

    /// The range of destination bytes that is the slot of source row `r`, as
    /// its start and its end, or `None` where there is no such row.
    pub fn slot(&self, r: usize) -> (range: Option<(usize, usize)>)
        ensures
            range.is_some() == (r < self.starts().len()),
            range matches Some((start, end)) ==> {
                &&& start == self.starts()[r as int]
                &&& end == start + self.row_bytes()
                &&& end <= self.dst_len()
            },
    {
        proof {
            use_type_invariant(self);
        }
        if r < self.starts.len() {
            let start: usize = self.starts[r];
            assert(self.starts()[r as int] == start);
            Some((start, start + self.row_bytes))
        } else {
            None
        }
    }

    /// Copy each row of `src` into its row slot in `dst`, top row first.
    /// Returns false, and leaves `dst` as it is, where `dst` is not as long as
    /// the buffer that the slots were made for or `src` is too short to hold a
    /// row for every slot.
    pub fn copy(&self, src: &[u8], dst: &mut [u8]) -> (done: bool)
        ensures
            done == self.accepts(src@.len(), old(dst)@.len()),
            done ==> copied(old(dst)@, final(dst)@, src@, self.starts(), self.row_bytes()),
            !done ==> final(dst)@ == old(dst)@,
            self.starts().len() == 0 || self.row_bytes() == 0 ==> final(dst)@ == old(dst)@,
    {
        proof {
            use_type_invariant(self);
        }
        if dst.len() != self.dst_len || src.len() < self.src_bytes {
            return false;
        }
        let n: usize = self.starts.len();
        let row_bytes: usize = self.row_bytes;
        let mut r: usize = 0;
        while r < n
            invariant
                r <= n,
                n == self.starts@.len(),
                row_bytes == self.row_bytes,
                self.wf(),
                n * row_bytes <= src@.len(),
                dst@.len() == self.dst_len,
                old(dst)@.len() == self.dst_len,
                copied_first(old(dst)@, dst@, src@, self.starts(), self.row_bytes(), r as int),
            decreases n - r,
        {
            assert(r * row_bytes + row_bytes <= n * row_bytes && (r + 1) * row_bytes == r
                * row_bytes + row_bytes) by (nonlinear_arith)
                requires
                    r < n,
            ;
            let from: usize = r * row_bytes;
            let row = vstd::slice::slice_subrange(src, from, from + row_bytes);
            let start: usize = self.starts[r];
            let ghost cur = dst@;
            assert(self.starts()[r as int] == start);
            copy_row(dst, start, row);
            proof {
                assert(row@ == source_row(src@, r as int, row_bytes as int));
                lemma_copy_step(
                    old(dst)@,
                    cur,
                    dst@,
                    src@,
                    self.starts(),
                    self.row_bytes(),
                    r as int,
                );
            }
            r = r + 1;
        }
        proof {
            if n == 0 || row_bytes == 0 {
                lemma_copied_nothing(old(dst)@, dst@, src@, self.starts(), self.row_bytes());
            }
        }
        true
    }

    /// Copy each row of `src` into its row slot in `dst`, the rows handed out to
    /// threads in chunks of `chunk_size` rows. The outcome is that of [`Self::copy`].
    pub fn copy_chunked(&self, src: &[u8], dst: &mut [u8], chunk_size: usize) -> (done: bool)
        requires
            chunk_size > 0,
        ensures
            done == self.accepts(src@.len(), old(dst)@.len()),
            done ==> copied(old(dst)@, final(dst)@, src@, self.starts(), self.row_bytes()),
            !done ==> final(dst)@ == old(dst)@,
            self.starts().len() == 0 || self.row_bytes() == 0 ==> final(dst)@ == old(dst)@,
    {
        proof {
            use_type_invariant(self);
        }
        if dst.len() != self.dst_len || src.len() < self.src_bytes {
            return false;
        }
        let n: usize = self.starts.len();
        let row_bytes: usize = self.row_bytes;
        let ghost before = dst@;
        let ghost after = final(dst)@;
        let ghost starts = self.starts();
        let mut rest: &mut [u8] = dst;
        let mut offset: usize = 0;
        let mut rows: Vec<(&[u8], &mut [u8])> = Vec::new();
        let mut r: usize = 0;
        while r < n
            invariant
                r <= n,
                n == self.starts@.len(),
                row_bytes == self.row_bytes,
                starts == self.starts(),
                self.wf(),
                before.len() == self.dst_len,
                n * row_bytes <= src@.len(),
                rows@.len() == r,
                offset == gap_start(starts, row_bytes as int, r as int),
                offset <= before.len(),
                rest@ == before.subrange(offset as int, before.len() as int),
                after == woven(
                    before,
                    Seq::new(r as nat, |i: int| final(rows@[i].1)@),
                    starts,
                    row_bytes as int,
                    r as int,
                ) + final(rest)@,
                forall|i: int|
                    0 <= i < r ==> (#[trigger] rows@[i]).0@ == source_row(
                        src@,
                        i,
                        row_bytes as int,
                    ),
                forall|i: int| 0 <= i < r ==> (#[trigger] rows@[i]).0@.len() == row_bytes,
                forall|i: int| 0 <= i < r ==> (#[trigger] rows@[i]).1@.len() == row_bytes,
            decreases n - r,
        {
            assert(r * row_bytes + row_bytes <= n * row_bytes) by (nonlinear_arith)
                requires
                    r < n,
            ;
            let start: usize = self.starts[r];
            proof {
                assert(starts[r as int] == start);
                if r > 0 {
                    assert(starts[r - 1] + row_bytes <= starts[r as int]);
                }
            }
            let from: usize = r * row_bytes;
            let row = vstd::slice::slice_subrange(src, from, from + row_bytes);
            let cur = rest;
            let (_gap, tail) = cur.split_at_mut(start - offset);
            let (slot, beyond) = tail.split_at_mut(row_bytes);
            let ghost sofar = rows@;
            rows.push((row, slot));
            rest = beyond;
            proof {
                let earlier = Seq::new(r as nat, |i: int| final(sofar[i].1)@);
                let now = Seq::new((r + 1) as nat, |i: int| final(rows@[i].1)@);
                lemma_woven_rows(before, earlier, now, starts, row_bytes as int, r as int);
                let head = woven(before, now, starts, row_bytes as int, r + 1);
                assert(after =~= head + final(rest)@);
            }
            offset = start + row_bytes;
            r = r + 1;
        }
        let ghost pairs = rows@;
        copy_in_chunks(rows, chunk_size);
        proof {
            let copies = Seq::new(n as nat, |i: int| final(pairs[i].1)@);
            assert forall|i: int| 0 <= i < n implies #[trigger] copies[i] == source_row(
                src@,
                i,
                row_bytes as int,
            ) by {
                assert(final(pairs[i].1)@ == pairs[i].0@);
            }
            lemma_woven_copied(before, copies, src@, starts, row_bytes as int, n as int);
            if n == 0 || row_bytes == 0 {
                lemma_copied_nothing(before, after, src@, starts, row_bytes as int);
            }
        }
        true
    }

    /// Copy each row of `src` into its row slot in `dst`: in one pass, or, where
    /// `parallel` is set, with the rows handed out to threads in chunks whose size
    /// `params` gives. A chunk holds one row at least. The outcome is that of
    /// [`Self::copy`] either way, whatever the chunk size. Where there is no
    /// row, or the rows are empty, `params` is not looked at.
    pub fn copy_with(
        &self,
        src: &[u8],
        dst: &mut [u8],
        parallel: bool,
        params: &ThreadedBlitParams,
    ) -> (done: bool)
        requires
            parallel && self.starts().len() > 0 && self.row_bytes() > 0 ==> params.valid(),
        ensures
            done == self.accepts(src@.len(), old(dst)@.len()),
            done ==> copied(old(dst)@, final(dst)@, src@, self.starts(), self.row_bytes()),
            !done ==> final(dst)@ == old(dst)@,
            self.starts().len() == 0 || self.row_bytes() == 0 ==> final(dst)@ == old(dst)@,
    {
        if parallel && self.starts.len() > 0 && self.row_bytes > 0 {
            let rows: usize = params.get_chunk_size(self.starts.len());
            let chunk_size: usize = if rows == 0 {
                1
            } else {
                rows
            };
            self.copy_chunked(src, dst, chunk_size)
        } else {
            self.copy(src, dst)
        }
    }
}

} // verus!
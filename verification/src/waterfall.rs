//! The waterfall: a ring of coloured spectrum lines.

use vstd::prelude::*;

use crate::arithmetic::Arithmetic;
use crate::colour::{db_to_rgba, is_colour};

verus! {

/// Ring buffer of spectrum lines as pixels.
pub struct WaterfallBuffer<A: Arithmetic> {
    /// Pixels, four bytes each, row by row; the newest row is the one at
    /// `write_pos`.
    pub data: Vec<u8>,
    /// Pixels in a row.
    pub width: usize,
    /// Rows.
    pub height: usize,
    /// The newest row.
    pub write_pos: usize,
    /// The level of the first colour.
    pub min_db: A::Real,
    /// The level of the last colour.
    pub max_db: A::Real,
}

/// Whether the four bytes at `at` are the colour of `db`.
pub open spec fn is_pixel<A: Arithmetic>(
    bytes: Seq<u8>,
    at: int,
    db: A::Real,
    min_db: A::Real,
    max_db: A::Real,
) -> bool {
    is_colour::<A>(db, min_db, max_db, bytes.subrange(at, at + 4))
}

impl<A: Arithmetic> WaterfallBuffer<A> {
    /// Every row has its pixels, and one of the rows is the newest.
    pub open spec fn valid(self) -> bool {
        &&& self.data@.len() == self.width * self.height * 4
        &&& self.write_pos < self.height || (self.height == 0 && self.write_pos == 0)
    }

    /// How many bytes a row has.
    pub open spec fn row_bytes(self) -> int {
        self.width * 4
    }

    /// The row after row `write_pos`: the oldest one.
    pub open spec fn next_pos(self) -> int {
        if self.write_pos + 1 < self.height {
            self.write_pos + 1
        } else {
            0
        }
    }

    /// Where the oldest row begins.
    pub open spec fn oldest(self) -> int {
        self.next_pos() * self.row_bytes()
    }

    /// The pixels of the newest row.
    pub open spec fn newest_row(self) -> Seq<u8> {
        self.data@.subrange(
            self.write_pos * self.row_bytes(),
            self.write_pos * self.row_bytes() + self.row_bytes(),
        )
    }

    /// The rows one after the other, oldest first.
    pub open spec fn ordered(self) -> Seq<u8> {
        self.data@.skip(self.oldest()) + self.data@.take(self.oldest())
    }

    /// How many pixels a line of `len` levels fills.
    pub open spec fn filled(self, len: int) -> int {
        if len < self.width {
            len
        } else {
            self.width as int
        }
    }

    /// Whether `next` is this buffer with the line `spectrum` put in: the
    /// oldest row becomes the newest and gets the colours of the levels, as far
    /// as they reach and fit.
    pub open spec fn is_pushed(self, spectrum: Seq<A::Real>, next: WaterfallBuffer<A>) -> bool {
        &&& next.width == self.width
        &&& next.height == self.height
        &&& next.min_db == self.min_db
        &&& next.max_db == self.max_db
        &&& next.write_pos == self.next_pos()
        &&& next.data@.len() == self.data@.len()
        &&& forall|i: int| #![trigger spectrum[i]]
            0 <= i < self.filled(spectrum.len() as int) ==> is_pixel::<A>(
                next.data@,
                self.oldest() + 4 * i,
                spectrum[i],
                self.min_db,
                self.max_db,
            )
        &&& forall|k: int| #![trigger next.data@[k]]
            0 <= k < self.data@.len() && !(self.oldest() <= k < self.oldest() + 4 * self.filled(
                spectrum.len() as int,
            )) ==> next.data@[k] == self.data@[k]
    }

    /// A buffer of black, transparent pixels.
    pub fn new(width: usize, height: usize) -> (res: WaterfallBuffer<A>)
        requires
            width * height * 4 <= isize::MAX,
        ensures
            res.valid(),
            res.data@ == Seq::new((width * height * 4) as nat, |i: int| 0u8),
            res.width == width,
            res.height == height,
            res.write_pos == 0,
            call_ensures(A::integer, (-60i64,), res.min_db),
            call_ensures(A::integer, (0i64,), res.max_db),
    {
        assert(width * height <= width * height * 4) by (nonlinear_arith)
            requires
                width >= 0,
                height >= 0,
        ;
        let data: Vec<u8> = vec![0u8; width * height * 4];
        assert(data@ =~= Seq::new((width * height * 4) as nat, |i: int| 0u8));
        WaterfallBuffer {
            data,
            width,
            height,
            write_pos: 0,
            min_db: A::integer(-60),
            max_db: A::integer(0),
        }
    }

    /// A row lies within the pixels.
    proof fn lemma_row_in_data(self, row: int)
        requires
            self.valid(),
            0 <= row < self.height,
        ensures
            0 <= row * self.row_bytes(),
            row * self.row_bytes() + self.row_bytes() <= self.data@.len(),
            row * self.row_bytes() == row * self.width * 4,
            0 <= row * self.width <= row * self.row_bytes(),
            row + 1 == self.height ==> row * self.row_bytes() + self.row_bytes()
                == self.data@.len(),
    {
        let w = self.width as int;
        let h = self.height as int;
        assert(row * (w * 4) + w * 4 <= w * h * 4 && row * (w * 4) == row * w * 4 && 0 <= row * w
            && row * w <= row * w * 4 && (row + 1 == h ==> row * (w * 4) + w * 4 == w * h * 4))
            by (nonlinear_arith)
            requires
                0 <= row,
                row + 1 <= h,
                w >= 0,
        ;
    }

    /// Puts in a new line in place of the oldest one.
    pub fn push_line(&mut self, spectrum: &[A::Real])
        requires
            old(self).valid(),
            old(self).height > 0,
        ensures
            final(self).valid(),
            old(self).is_pushed(spectrum@, *final(self)),
    {
        let ghost before = *self;
        self.write_pos = if self.write_pos < self.height - 1 {
            self.write_pos + 1
        } else {
            0
        };
        proof {
            before.lemma_row_in_data(before.next_pos());
            assert(self.data.len() == self.data@.len());
        }
        let row_start: usize = self.write_pos * self.width * 4;
        let count: usize = if spectrum.len() < self.width {
            spectrum.len()
        } else {
            self.width
        };
        let mut i: usize = 0;
        while i < count
            invariant
                i <= count,
                count == before.filled(spectrum@.len() as int),
                count <= spectrum@.len(),
                row_start == before.oldest(),
                row_start + before.row_bytes() <= before.data@.len(),
                self.data@.len() == before.data@.len(),
                self.width == before.width,
                self.height == before.height,
                self.write_pos == before.next_pos(),
                self.min_db == before.min_db,
                self.max_db == before.max_db,
                forall|j: int| #![trigger spectrum@[j]]
                    0 <= j < i ==> is_pixel::<A>(
                        self.data@,
                        row_start + 4 * j,
                        spectrum@[j],
                        before.min_db,
                        before.max_db,
                    ),
                forall|k: int| #![trigger self.data@[k]]
                    0 <= k < before.data@.len() && !(row_start <= k < row_start + 4 * i)
                        ==> self.data@[k] == before.data@[k],
            decreases count - i,
        {
            let ghost done = self.data@;
            let rgba: [u8; 4] = db_to_rgba::<A>(spectrum[i], self.min_db, self.max_db);
            assert(self.data.len() == before.data.len());
            let off: usize = row_start + i * 4;
            self.data.set(off, rgba[0]);
            self.data.set(off + 1, rgba[1]);
            self.data.set(off + 2, rgba[2]);
            self.data.set(off + 3, rgba[3]);
            assert forall|j: int| #![trigger spectrum@[j]] 0 <= j <= i implies is_pixel::<A>(
                self.data@,
                row_start + 4 * j,
                spectrum@[j],
                before.min_db,
                before.max_db,
            ) by {
                let at = row_start + 4 * j;
                if j < i {
                    assert(self.data@.subrange(at, at + 4) =~= done.subrange(at, at + 4));
                } else {
                    assert(self.data@.subrange(at, at + 4) =~= rgba@);
                }
            }
            i = i + 1;
        }
    }

    /// The rows one after the other, oldest first.
    pub fn get_ordered_rows(&self) -> (out: Vec<u8>)
        requires
            self.valid(),
        ensures
            out@ == self.ordered(),
    {
        let n: usize = self.data.len();
        let mut out: Vec<u8> = Vec::new();
        if self.height == 0 {
            proof {
                vstd::arithmetic::mul::lemma_mul_basics(self.width as int);
                vstd::arithmetic::mul::lemma_mul_basics(self.row_bytes());
            }
            assert(out@ =~= self.ordered());
            return out;
        }
        proof {
            self.lemma_row_in_data(self.next_pos());
        }
        let oldest: usize = if self.write_pos < self.height - 1 {
            self.write_pos + 1
        } else {
            0
        };
        let start: usize = oldest * self.width * 4;
        let mut i: usize = 0;
        while i < n
            invariant
                i <= n,
                n == self.data@.len(),
                start == self.oldest(),
                start <= n,
                out@ == self.ordered().take(i as int),
                self.ordered().len() == n,
            decreases n - i,
        {
            let place: usize = if i < n - start {
                start + i
            } else {
                i - (n - start)
            };
            out.push(self.data[place]);
            i = i + 1;
            assert(self.ordered().take(i as int) =~= self.ordered().take(i - 1).push(
                self.ordered()[i - 1],
            ));
        }
        assert(self.ordered().take(n as int) =~= self.ordered());
        out
    }
}

/// Putting a line in drops the oldest row and puts the new row last, which is the
/// row at `write_pos`; where the line does not reach, the new row keeps the
/// pixels of the dropped one. The rows between keep their order and their pixels.
pub proof fn new_line_comes_last<A: Arithmetic>(
    before: WaterfallBuffer<A>,
    spectrum: Seq<A::Real>,
    after: WaterfallBuffer<A>,
)
    requires
        before.valid(),
        before.height > 0,
        before.is_pushed(spectrum, after),
    ensures
        after.valid(),
        after.ordered().len() == before.ordered().len() == before.data@.len(),
        before.row_bytes() <= before.data@.len(),
        ({
            let kept = before.data@.len() - before.row_bytes();
            let filled = before.filled(spectrum.len() as int);
            let row = after.newest_row();
            &&& after.ordered().skip(kept) == row
            &&& after.ordered().take(kept) == before.ordered().skip(before.row_bytes())
            &&& forall|i: int| #![trigger spectrum[i]]
                0 <= i < filled ==> is_pixel::<A>(
                    row,
                    4 * i,
                    spectrum[i],
                    before.min_db,
                    before.max_db,
                )
            &&& row.skip(4 * filled) == before.ordered().take(before.row_bytes()).skip(4 * filled)
        }),
{
    before.lemma_row_in_data(before.next_pos());
    after.lemma_row_in_data(after.next_pos());
    let n = before.data@.len() as int;
    let r = before.row_bytes();
    let s = before.oldest();
    let kept = n - r;
    let filled = before.filled(spectrum.len() as int);
    let row = after.newest_row();
    if before.next_pos() + 1 < before.height {
        assert(after.oldest() == s + r) by (nonlinear_arith)
            requires
                after.oldest() == after.next_pos() * after.row_bytes(),
                after.row_bytes() == r,
                after.next_pos() == before.next_pos() + 1,
                s == before.next_pos() * r,
        ;
    } else {
        assert(after.oldest() == 0) by (nonlinear_arith)
            requires
                after.oldest() == after.next_pos() * after.row_bytes(),
                after.next_pos() == 0,
        ;
        assert(s + r == n);
    }
    assert(row =~= after.data@.subrange(s, s + r));
    assert(after.ordered().take(kept) =~= before.ordered().skip(r));
    assert(after.ordered().skip(kept) =~= row);
    assert forall|i: int| #![trigger spectrum[i]] 0 <= i < filled implies is_pixel::<A>(
        row,
        4 * i,
        spectrum[i],
        before.min_db,
        before.max_db,
    ) by {
        assert(row.subrange(4 * i, 4 * i + 4) =~= after.data@.subrange(s + 4 * i, s + 4 * i + 4));
    }
    assert(row.skip(4 * filled) =~= before.ordered().take(r).skip(4 * filled));
}

} // verus!

//! A buffer in memory that the client shares, which is copied to the graphics device.
use crate::protocols::wl::shm::{ARGB8888, XRGB8888};
use crate::protocols::wl::timeline::{point_after, Points};
use crate::types::Vector2;
use vstd::prelude::*;

verus! {

/// The number that Vulkan gives to the texture format with eight bits each of blue, green,
/// red and alpha.
pub const B8G8R8A8_SRGB: u32 = 50;

/// The bytes of a pixel, in every format that is supported.
pub const PIXEL_BYTES: u64 = 4;

/// Why a buffer could not be made. `E` is what went wrong when the formats of the server were
/// asked for.
#[derive(Debug, Clone, Copy, PartialEq, Eq)]
pub enum ShmBackingCreationError<E> {
    UnsupportedFormat,
    DmatexFormatEnumerationFailed(E),
    FormatNotSupportedByDmatex,
}

/// Where the pixels of a buffer are in the client's memory, and which points of its timeline
/// are taken.
#[derive(Debug, Clone, Copy, PartialEq, Eq)]
pub struct ShmBufferBacking {
    pub offset: usize,
    pub stride: usize,
    pub size: Vector2<u64>,
    pub wl_format: u32,
    pub points: Points,
}

/// What a buffer needs on the graphics device.
#[derive(Debug, Clone, Copy, PartialEq, Eq)]
pub struct Allocation {
    pub format: u32,
    pub image: Vector2<u32>,
    /// The bytes of the memory from which the image is filled.
    pub staging: u64,
}

/// The texture format for a format of the protocol, if there is one.
pub open spec fn texture_for(wl_format: u32) -> Option<u32> {
    if wl_format == ARGB8888 || wl_format == XRGB8888 {
        Some(B8G8R8A8_SRGB)
    } else {
        None
    }
}

/// The texture format for a format of the protocol.
pub fn texture_format<E>(wl_format: u32) -> (r: Result<u32, ShmBackingCreationError<E>>)
    ensures
        r == match texture_for(wl_format) {
            Some(format) => Ok(format),
            None => Err(ShmBackingCreationError::<E>::UnsupportedFormat),
        },
{
    if wl_format == ARGB8888 || wl_format == XRGB8888 {
        Ok(B8G8R8A8_SRGB)
    } else {
        Err(ShmBackingCreationError::UnsupportedFormat)
    }
}

impl ShmBufferBacking {
    /// The bytes of a line of pixels.
    pub open spec fn line(self) -> int {
        self.size.x * PIXEL_BYTES
    }

    /// Where a line starts in the client's memory.
    pub open spec fn line_start(self, y: int) -> int {
        self.offset + y * self.stride
    }

    /// Whether every line lies in so many bytes of memory.
    pub open spec fn lies_in(self, shm_len: nat) -> bool {
        forall|y: int| 0 <= y < self.size.y ==> #[trigger] self.line_start(y) + self.line() <= shm_len
    }

    /// The pixels without the gaps between the lines.
    pub open spec fn packed(self, shm_data: Seq<u8>) -> Seq<u8> {
        Seq::new(
            (self.size.y * self.line()) as nat,
            |i: int| shm_data[self.line_start(i / self.line()) + i % self.line()],
        )
    }

    /// A buffer and what it needs on the graphics device. `formats` are the texture formats
    /// that the server can take, or why they are not known.
    pub fn new<E>(
        offset: usize,
        stride: usize,
        size: Vector2<u64>,
        wl_format: u32,
        formats: Result<Vec<u32>, E>,
    ) -> (r: Result<(Self, Allocation), ShmBackingCreationError<E>>)
        requires
            size.x * size.y * PIXEL_BYTES <= u64::MAX,
        ensures
            match (texture_for(wl_format), formats) {
                (None, _) => r == Err::<(Self, Allocation), _>(
                    ShmBackingCreationError::<E>::UnsupportedFormat,
                ),
                (Some(_), Err(e)) => r == Err::<(Self, Allocation), _>(
                    ShmBackingCreationError::DmatexFormatEnumerationFailed(e),
                ),
                (Some(format), Ok(formats)) => if formats@.contains(format) {
                    r == Ok::<_, ShmBackingCreationError<E>>(
                        (
                            ShmBufferBacking {
                                offset,
                                stride,
                                size,
                                wl_format,
                                points: Points { next: 0 },
                            },
                            Allocation {
                                format,
                                image: Vector2 { x: size.x as u32, y: size.y as u32 },
                                staging: (size.x * size.y * PIXEL_BYTES) as u64,
                            },
                        ),
                    )
                } else {
                    r == Err::<(Self, Allocation), _>(
                        ShmBackingCreationError::<E>::FormatNotSupportedByDmatex,
                    )
                },
            },
    {
        let format: u32 = match texture_format::<E>(wl_format) {
            Ok(format) => format,
            Err(e) => {
                return Err(e);
            },
        };
        let formats = match formats {
            Ok(formats) => formats,
            Err(e) => {
                return Err(ShmBackingCreationError::DmatexFormatEnumerationFailed(e));
            },
        };
        let mut i: usize = 0;
        while i < formats.len()
            invariant
                i <= formats.len(),
                forall|j: int| 0 <= j < i ==> formats@[j] != format,
            ensures
                i < formats.len() ==> formats@[i as int] == format,
                i >= formats.len() ==> !formats@.contains(format),
            decreases formats.len() - i,
        {
            if formats[i] == format {
                break ;
            }
            i += 1;
        }
        if i == formats.len() {
            return Err(ShmBackingCreationError::FormatNotSupportedByDmatex);
        }
        assert(formats@.contains(format)) by {
            assert(formats@[i as int] == format);
        }
        assert(size.x * size.y <= u64::MAX) by (nonlinear_arith)
            requires
                size.x * size.y * PIXEL_BYTES <= u64::MAX,
                PIXEL_BYTES == 4,
        ;
        let staging: u64 = size.x * size.y * PIXEL_BYTES;
        Ok(
            (
                ShmBufferBacking { offset, stride, size, wl_format, points: Points::new() },
                Allocation {
                    format,
                    image: Vector2 { x: size.x as u32, y: size.y as u32 },
                    staging,
                },
            ),
        )
    }

    /// Whether every line lies in so many bytes of memory.
    pub fn fits(&self, shm_len: usize) -> (r: bool)
        ensures
            r == self.lies_in(shm_len as nat),
    {
        if self.size.y == 0 {
            return true;
        }
        let last: u128 = (self.size.y - 1) as u128;
        let stride: u128 = self.stride as u128;
        proof {
            assert(0 <= last * stride <= u64::MAX * u64::MAX) by (nonlinear_arith)
                requires
                    0 <= last <= u64::MAX,
                    0 <= stride <= u64::MAX,
            ;
        }
        let end: u128 = last * stride;
        // Lines can start no farther than the end of the memory, so that nothing below
        // can grow too large.
        if end > shm_len as u128 {
            proof {
                assert(self.line_start(last as int) + self.line() > shm_len);
            }
            return false;
        }
        let end: u128 = end + self.offset as u128 + self.size.x as u128 * PIXEL_BYTES as u128;
        proof {
            assert(end == self.line_start(last as int) + self.line());
            assert forall|y: int| 0 <= y < self.size.y implies #[trigger] self.line_start(y)
                <= self.line_start(last as int) by {
                assert(y * self.stride <= last * self.stride) by (nonlinear_arith)
                    requires
                        y <= last,
                        0 <= self.stride,
                ;
            }
        }
        end <= shm_len as u128
    }

    /// Takes the points of a new submission and copies the pixels out of the client's memory.
    pub fn update(&mut self, shm_data: &Vec<u8>, staging: &mut Vec<u8>) -> (points: (u64, u64))
        requires
            old(self).lies_in(shm_data@.len()),
            old(staging)@.len() == old(self).size.y * old(self).line(),
        ensures
            points.0 == old(self).points.next,
            points.1 == point_after(old(self).points.next, 1),
            *final(self) == (ShmBufferBacking {
                points: Points { next: point_after(old(self).points.next, 2) },
                ..*old(self)
            }),
            final(staging)@ == old(self).packed(shm_data@),
    {
        self.copy_lines(shm_data, staging);
        self.points.submission()
    }

    fn copy_lines(&self, shm_data: &Vec<u8>, staging: &mut Vec<u8>)
        requires
            self.lies_in(shm_data@.len()),
            old(staging)@.len() == self.size.y * self.line(),
        ensures
            final(staging)@ == self.packed(shm_data@),
    {
        let shm_len: usize = shm_data.len();
        let n: usize = staging.len();
        let mut y: u64 = 0;
        // The start of the line in both places.
        let mut from: usize = self.offset;
        let mut to: usize = 0;
        proof {
            if self.size.y > 0 {
                assert(self.line_start(0) + self.line() <= shm_data@.len());
                lemma_lines(self.size.y as int, self.line(), 1);
            }
        }
        while y < self.size.y
            invariant
                y <= self.size.y,
                self.lies_in(shm_data@.len()),
                shm_data@.len() == shm_len,
                staging@.len() == n,
                n == self.size.y * self.line(),
                to == y * self.line(),
                y < self.size.y ==> from == self.line_start(y as int),
                forall|i: int|
                    0 <= i < y * self.line() ==> #[trigger] staging@[i]
                        == self.packed(shm_data@)[i],
            decreases self.size.y - y,
        {
            proof {
                assert(self.line_start(y as int) + self.line() <= shm_data@.len());
                lemma_lines(self.size.y as int, self.line(), y + 1);
            }
            let line: usize = (self.size.x * PIXEL_BYTES) as usize;
            let mut x: usize = 0;
            while x < line
                invariant
                    x <= line,
                    line == self.line(),
                    y < self.size.y,
                    self.lies_in(shm_data@.len()),
                    shm_data@.len() == shm_len,
                    staging@.len() == n,
                    n == self.size.y * self.line(),
                    to == y * self.line(),
                    to + line <= n,
                    from == self.line_start(y as int),
                    from + line <= shm_data@.len(),
                    forall|i: int|
                        0 <= i < y * self.line() + x ==> #[trigger] staging@[i]
                            == self.packed(shm_data@)[i],
                decreases line - x,
            {
                proof {
                    lemma_split(y as int, self.line(), x as int);
                }
                staging.set(to + x, shm_data[from + x]);
                assert(staging@[to + x] == self.packed(shm_data@)[to + x]);
                x += 1;
            }
            proof {
                assert((y + 1) * self.line() == y * self.line() + self.line())
                    by (nonlinear_arith);
                assert((y + 1) * self.stride == y * self.stride + self.stride)
                    by (nonlinear_arith);
                if y + 1 < self.size.y {
                    assert(self.line_start(y + 1) + self.line() <= shm_data@.len());
                }
            }
            y += 1;
            to += line;
            if y < self.size.y {
                from += self.stride;
            }
        }
        assert(staging@ =~= self.packed(shm_data@));
    }

    /// A point for a release of the buffer that is not part of a new submission.
    pub fn new_timeline_point(&mut self) -> (point: u64)
        ensures
            point == old(self).points.next,
            *final(self) == (ShmBufferBacking {
                points: Points { next: point_after(old(self).points.next, 1) },
                ..*old(self)
            }),
    {
        self.points.take()
    }

    /// Whether pixels may let what is behind them through.
    pub fn is_transparent(&self) -> (r: bool)
        ensures
            r == (self.wl_format != XRGB8888),
    {
        self.wl_format != XRGB8888
    }

    pub fn size(&self) -> (size: Vector2<usize>)
        ensures
            size == (Vector2 { x: self.size.x as usize, y: self.size.y as usize }),
    {
        Vector2 { x: self.size.x as usize, y: self.size.y as usize }
    }
}

/// The first `n` of some lines take up no more than all of them.
proof fn lemma_lines(lines: int, line: int, n: int)
    requires
        0 <= n <= lines,
        0 <= line,
    ensures
        0 <= n * line <= lines * line,
        n > 0 ==> (n - 1) * line + line == n * line,
{
    assert(0 <= n * line <= lines * line) by (nonlinear_arith)
        requires
            0 <= n <= lines,
            0 <= line,
    ;
    assert((n - 1) * line + line == n * line) by (nonlinear_arith);
}

/// A byte of a line is found again from where it is among all lines.
proof fn lemma_split(y: int, line: int, x: int)
    requires
        0 <= y,
        0 <= x < line,
    ensures
        (y * line + x) / line == y,
        (y * line + x) % line == x,
{
    vstd::arithmetic::div_mod::lemma_fundamental_div_mod_converse(y * line + x, line, y, x);
}

/// The packed pixels hold every line of the client's memory, one after the other.
pub proof fn lines_are_packed(backing: ShmBufferBacking, shm_data: Seq<u8>, y: int, x: int)
    requires
        0 <= y < backing.size.y,
        0 <= x < backing.line(),
    ensures
        backing.packed(shm_data)[y * backing.line() + x] == shm_data[backing.offset + y
            * backing.stride + x],
{
    lemma_split(y, backing.line(), x);
    lemma_lines(backing.size.y as int, backing.line(), y + 1);
}

/// Something to be copied to an image of the graphics device. Memory and images are named by
/// numbers.
#[derive(Debug, Clone, Copy, PartialEq, Eq, Structural)]
pub struct DmatexUpload {
    pub image: u64,
    pub staging: u64,
    pub acquire: u64,
}

/// One piece of work for the graphics device: the copies, and for each of them a semaphore
/// that leads to a point of an image's timeline.
#[derive(Debug, PartialEq, Eq)]
pub struct UploadBatch {
    /// Pairs of memory and the image that it is copied to.
    pub copies: Vec<(u64, u64)>,
    /// Pairs of an image and the point that its semaphore leads to.
    pub signals: Vec<(u64, u64)>,
}

/// The most uploads that are handed to the graphics device at once.
pub const UPLOADS_AT_ONCE: usize = 16;

/// How many of so many waiting uploads are handed to the graphics device at once.
pub open spec fn batch_size(waiting: nat) -> nat {
    if waiting <= UPLOADS_AT_ONCE {
        waiting
    } else {
        UPLOADS_AT_ONCE as nat
    }
}

/// What is copied for some uploads: pairs of memory and the image that it is copied to.
pub open spec fn upload_copies(uploads: Seq<DmatexUpload>) -> Seq<(u64, u64)> {
    uploads.map_values(|u: DmatexUpload| (u.staging, u.image))
}

/// What is signalled for some uploads: pairs of an image and a point of its timeline.
pub open spec fn upload_signals(uploads: Seq<DmatexUpload>) -> Seq<(u64, u64)> {
    uploads.map_values(|u: DmatexUpload| (u.image, u.acquire))
}

/// Takes the oldest of the uploads that are waiting, as many as go out at once, and says what
/// is to be done for them. That there are none means that no more will come.
pub fn plan_uploads(uploads: &mut Vec<DmatexUpload>) -> (batch: Option<UploadBatch>)
    ensures
        ({
            let n = batch_size(old(uploads)@.len()) as int;
            &&& final(uploads)@ == old(uploads)@.skip(n)
            &&& match batch {
                None => old(uploads)@.len() == 0,
                Some(batch) => {
                    &&& old(uploads)@.len() > 0
                    &&& batch.copies@ == upload_copies(old(uploads)@.take(n))
                    &&& batch.signals@ == upload_signals(old(uploads)@.take(n))
                },
            }
        }),
{
    let ghost all = uploads@;
    if uploads.is_empty() {
        assert(uploads@ =~= all.skip(0));
        return None;
    }
    let mut copies: Vec<(u64, u64)> = Vec::new();
    let mut signals: Vec<(u64, u64)> = Vec::new();
    let n: usize = if uploads.len() <= UPLOADS_AT_ONCE {
        uploads.len()
    } else {
        UPLOADS_AT_ONCE
    };
    let mut i: usize = 0;
    while i < n
        invariant
            i <= n <= uploads.len(),
            uploads@ == all,
            copies@ == upload_copies(all.take(i as int)),
            signals@ == upload_signals(all.take(i as int)),
        decreases n - i,
    {
        let upload: DmatexUpload = uploads[i];
        copies.push((upload.staging, upload.image));
        signals.push((upload.image, upload.acquire));
        i += 1;
        assert(copies@ =~= upload_copies(all.take(i as int)));
        assert(signals@ =~= upload_signals(all.take(i as int)));
    }
    let rest: Vec<DmatexUpload> = uploads.split_off(n);
    *uploads = rest;
    assert(uploads@ =~= all.skip(n as int));
    Some(UploadBatch { copies, signals })
}

/// The uploads of each batch, when batch after batch goes out as long as uploads are waiting.
pub open spec fn all_batches(uploads: Seq<DmatexUpload>) -> Seq<Seq<DmatexUpload>>
    decreases uploads.len(),
{
    if uploads.len() == 0 {
        Seq::empty()
    } else {
        let n = batch_size(uploads.len()) as int;
        seq![uploads.take(n)] + all_batches(uploads.skip(n))
    }
}

/// What is copied in each batch.
pub open spec fn all_copies(uploads: Seq<DmatexUpload>) -> Seq<Seq<(u64, u64)>> {
    all_batches(uploads).map_values(|batch: Seq<DmatexUpload>| upload_copies(batch))
}

/// What is signalled with each batch.
pub open spec fn all_signals(uploads: Seq<DmatexUpload>) -> Seq<Seq<(u64, u64)>> {
    all_batches(uploads).map_values(|batch: Seq<DmatexUpload>| upload_signals(batch))
}

/// Batch after batch every upload goes out once and in order, so many at a time at most: each is
/// copied, and the point that it leads to is signalled.
pub proof fn batches_hold_every_upload(uploads: Seq<DmatexUpload>)
    ensures
        all_batches(uploads).flatten() == uploads,
        all_copies(uploads).flatten() == upload_copies(uploads),
        all_signals(uploads).flatten() == upload_signals(uploads),
        forall|i: int|
            0 <= i < all_batches(uploads).len() ==> 0 < (#[trigger] all_batches(uploads)[i]).len()
                <= UPLOADS_AT_ONCE,
    decreases uploads.len(),
{
    let all = all_batches(uploads);
    let copies = all_copies(uploads);
    let signals = all_signals(uploads);
    if uploads.len() == 0 {
        assert(all.flatten() =~= uploads);
        assert(copies.flatten() =~= upload_copies(uploads));
        assert(signals.flatten() =~= upload_signals(uploads));
    } else {
        let n = batch_size(uploads.len()) as int;
        let rest = uploads.skip(n);
        batches_hold_every_upload(rest);
        assert(all.drop_first() =~= all_batches(rest));
        assert(copies.drop_first() =~= all_copies(rest));
        assert(signals.drop_first() =~= all_signals(rest));
        assert(all.flatten() =~= uploads);
        assert(copies.flatten() =~= upload_copies(uploads));
        assert(signals.flatten() =~= upload_signals(uploads));
        assert forall|i: int| 0 <= i < all.len() implies 0 < (#[trigger] all[i]).len()
            <= UPLOADS_AT_ONCE by {
            if i > 0 {
                assert(all[i] == all_batches(rest)[i - 1]);
            }
        }
    }
}

} // verus!

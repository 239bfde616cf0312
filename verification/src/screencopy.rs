//! Screencopy: which copy requests a frame accepts, and which buffers fit a
//! frame's region.
use vstd::prelude::*;

use crate::geometry::{Rectangle, Size};

verus! {

/// The state of the screencopy protocol.
#[derive(Debug, Clone, Copy, PartialEq, Eq, Structural)]
pub struct ScreencopyManagerState;

/// What is known of a buffer that a client hands in for a copy.
#[derive(Debug, Clone, Copy, PartialEq, Eq, Structural)]
pub enum ScreencopyBuffer {
    /// A shared-memory buffer: whether its format is ARGB8888, its stride,
    /// its height, and the length of its memory.
    Shm { argb8888: bool, stride: i32, height: i32, len: usize },
    /// A dma buffer: whether its format is ARGB8888, its width and height.
    Dma { argb8888: bool, width: u32, height: u32 },
    /// A dma buffer whose parameters could not be read.
    DmaUnreadable,
    /// Any other buffer.
    Other,
}

/// A region whose ARGB8888 buffer size fits in `i32`.
pub open spec fn region_fits(size: Size) -> bool {
    &&& 0 <= size.w
    &&& 0 <= size.h
    &&& size.w * 4 <= i32::MAX
    &&& size.w * 4 * size.h <= i32::MAX
}

/// Whether `buffer` can take a copy of a region of `size`: an ARGB8888
/// buffer exactly that large, with rows of four bytes per pixel.
pub open spec fn spec_buffer_fits(buffer: ScreencopyBuffer, size: Size) -> bool {
    match buffer {
        ScreencopyBuffer::Shm { argb8888, stride, height, len } => {
            &&& argb8888
            &&& stride == size.w * 4
            &&& height == size.h
            &&& len as i32 == stride * height
        },
        ScreencopyBuffer::Dma { argb8888, width, height } => {
            &&& argb8888
            &&& width == size.w as u32
            &&& height == size.h as u32
        },
        _ => false,
    }
}

/// Checks that `buffer` can take a copy of a region of `size`.
pub fn buffer_fits(buffer: ScreencopyBuffer, size: Size) -> (r: bool)
    requires
        region_fits(size),
    ensures
        r == spec_buffer_fits(buffer, size),
{
    match buffer {
        ScreencopyBuffer::Shm { argb8888, stride, height, len } => {
            if !argb8888 || stride != size.w * 4 || height != size.h {
                return false;
            }
            assert(stride * height == size.w * 4 * size.h) by (nonlinear_arith)
                requires
                    stride == size.w * 4,
                    height == size.h,
            ;
            #[verifier::truncate] (len as i32) == stride * height
        },
        ScreencopyBuffer::Dma { argb8888, width, height } => {
            argb8888 && width == size.w as u32 && height == size.h as u32
        },
        _ => false,
    }
}

/// The shared-memory buffer a frame asks for: width, height and stride.
pub fn shm_buffer_params(size: Size) -> (r: (u32, u32, u32))
    requires
        region_fits(size),
    ensures
        r == (size.w as u32, size.h as u32, (size.w * 4) as u32),
{
    let w = size.w as u32;
    (w, size.h as u32, w * 4)
}

/// Whether a region asked for has a size: a region with a width or height
/// that is not positive fails at once.
pub fn region_has_size(width: i32, height: i32) -> (r: bool)
    ensures
        r == (width > 0 && height > 0),
{
    width > 0 && height > 0
}

/// The state of a screencopy frame: failed from the start, or waiting for
/// one copy of `region` (with the cursor drawn or not).
#[derive(Debug, Clone, Copy, PartialEq, Eq, Structural)]
pub enum ScreencopyFrameState {
    Failed,
    Pending { region: Rectangle, overlay_cursor: bool, copied: bool },
}

/// What answers a copy request.
#[derive(Debug, Clone, Copy, PartialEq, Eq, Structural)]
pub enum CopyAnswer {
    /// The frame failed already: nothing happens.
    Ignore,
    /// A protocol error: a copy was already asked.
    AlreadyUsed,
    /// A protocol error: the buffer does not fit.
    InvalidBuffer,
    /// The copy is handed to the compositor, on damage or at once.
    Copy { with_damage: bool },
}

/// The answer to a copy request with `buffer` on a frame in state `s`.
pub open spec fn copy_answer(s: ScreencopyFrameState, buffer: ScreencopyBuffer, with_damage: bool) -> CopyAnswer {
    match s {
        ScreencopyFrameState::Failed => CopyAnswer::Ignore,
        ScreencopyFrameState::Pending { region, copied, .. } => if copied {
            CopyAnswer::AlreadyUsed
        } else if !spec_buffer_fits(buffer, region.size) {
            CopyAnswer::InvalidBuffer
        } else {
            CopyAnswer::Copy { with_damage }
        },
    }
}

/// The state of the frame after a copy request: copied where the copy was
/// handed over, else as it was.
pub open spec fn state_after_copy(
    s: ScreencopyFrameState,
    buffer: ScreencopyBuffer,
    with_damage: bool,
) -> ScreencopyFrameState {
    match s {
        ScreencopyFrameState::Pending { region, overlay_cursor, .. } => if copy_answer(
            s,
            buffer,
            with_damage,
        ) is Copy {
            ScreencopyFrameState::Pending { region, overlay_cursor, copied: true }
        } else {
            s
        },
        _ => s,
    }
}

impl ScreencopyFrameState {
    /// A frame that waits for a copy has a region whose buffer size fits.
    pub open spec fn wf(self) -> bool {
        match self {
            ScreencopyFrameState::Pending { region, .. } => region_fits(region.size),
            _ => true,
        }
    }

    /// Handles a copy request with `buffer`: each frame is copied at most
    /// once, and only into a buffer that fits its region.
    pub fn copy(&mut self, buffer: ScreencopyBuffer, with_damage: bool) -> (r: CopyAnswer)
        requires
            old(self).wf(),
        ensures
            final(self).wf(),
            r == copy_answer(*old(self), buffer, with_damage),
            *final(self) == state_after_copy(*old(self), buffer, with_damage),
    {
        match self {
            ScreencopyFrameState::Failed => CopyAnswer::Ignore,
            ScreencopyFrameState::Pending { region, overlay_cursor: _, copied } => {
                if *copied {
                    return CopyAnswer::AlreadyUsed;
                }
                if !buffer_fits(buffer, region.size) {
                    return CopyAnswer::InvalidBuffer;
                }
                *copied = true;
                CopyAnswer::Copy { with_damage }
            },
        }
    }
}

/// A frame copies at most once: after a copy was handed over, every further
/// copy request is refused with `AlreadyUsed` and changes nothing.
pub proof fn law_screencopy_frame_copies_once(
    s: ScreencopyFrameState,
    buffer: ScreencopyBuffer,
    with_damage: bool,
    later: ScreencopyBuffer,
    later_damage: bool,
)
    requires
        copy_answer(s, buffer, with_damage) is Copy,
    ensures
        copy_answer(state_after_copy(s, buffer, with_damage), later, later_damage)
            == CopyAnswer::AlreadyUsed,
        state_after_copy(state_after_copy(s, buffer, with_damage), later, later_damage)
            == state_after_copy(s, buffer, with_damage),
{
}

/// A damage rectangle as the protocol sends it: each coordinate read as
/// unsigned.
pub open spec fn damage_event(r: Rectangle) -> (u32, u32, u32, u32) {
    (r.loc.x as u32, r.loc.y as u32, r.size.w as u32, r.size.h as u32)
}

/// The damage events a copy sends: one per rectangle where the copy was
/// asked on damage, none otherwise.
pub fn damage_events(with_damage: bool, damage: &Vec<Rectangle>) -> (r: Vec<(u32, u32, u32, u32)>)
    ensures
        with_damage ==> r@ == damage@.map_values(|d: Rectangle| damage_event(d)),
        !with_damage ==> r@.len() == 0,
{
    let mut r: Vec<(u32, u32, u32, u32)> = Vec::new();
    if !with_damage {
        return r;
    }
    let mut i: usize = 0;
    while i < damage.len()
        invariant
            0 <= i <= damage@.len(),
            r@ == damage@.subrange(0, i as int).map_values(|d: Rectangle| damage_event(d)),
        decreases damage@.len() - i,
    {
        let d = damage[i];
        r.push((d.loc.x as u32, d.loc.y as u32, d.size.w as u32, d.size.h as u32));
        proof {
            assert(damage@.subrange(0, i as int + 1).map_values(|d: Rectangle| damage_event(d))
                =~= damage@.subrange(0, i as int).map_values(|d: Rectangle| damage_event(d)).push(
                damage_event(d),
            ));
        }
        i = i + 1;
    }
    proof {
        assert(damage@.subrange(0, i as int) =~= damage@);
    }
    r
}

/// The size in pixels that a buffer has, as (width, height), where it can be
/// read and has the ARGB8888 format (four bytes per pixel): a shared-memory
/// buffer's width is its stride over four.
pub open spec fn argb_buffer_size(buffer: ScreencopyBuffer) -> Option<(int, int)> {
    match buffer {
        ScreencopyBuffer::Shm { argb8888, stride, height, .. } => if argb8888 && stride % 4 == 0 {
            Some((stride / 4, height as int))
        } else {
            None
        },
        ScreencopyBuffer::Dma { argb8888, width, height } => if argb8888 {
            Some((width as int, height as int))
        } else {
            None
        },
        _ => None,
    }
}

/// A buffer fits a region only where it is an ARGB8888 buffer of exactly the
/// region's width and height (a shared-memory one with a memory length, read
/// as the protocol's 32-bit integer, of exactly its rows); a dma buffer of that format and size always
/// fits, and so does a shared-memory one whose memory holds exactly its rows.
pub proof fn law_buffer_fits_only_its_region(buffer: ScreencopyBuffer, size: Size)
    requires
        region_fits(size),
    ensures
        spec_buffer_fits(buffer, size) ==> argb_buffer_size(buffer) == Some((size.w as int, size.h as int)),
        spec_buffer_fits(buffer, size) && buffer is Shm ==> buffer->Shm_len as i32 == 4 * size.w * size.h,
        buffer is Dma && argb_buffer_size(buffer) == Some((size.w as int, size.h as int))
            ==> spec_buffer_fits(buffer, size),
        (buffer matches ScreencopyBuffer::Shm { len, .. } && len as int == 4 * size.w * size.h
            && argb_buffer_size(buffer) == Some((size.w as int, size.h as int)))
            ==> spec_buffer_fits(buffer, size),
{
    if let ScreencopyBuffer::Shm { argb8888, stride, height, len } = buffer {
        if argb_buffer_size(buffer) == Some((size.w as int, size.h as int)) {
            assert(stride == 4 * size.w);
            assert(stride * height == 4 * size.w * size.h) by (nonlinear_arith)
                requires
                    stride == 4 * size.w,
                    height == size.h,
            ;
        }
    }
}

/// A copy into a buffer of another size or format than the frame's region is
/// refused with `InvalidBuffer`, and the frame keeps waiting for its copy.
pub proof fn law_misfit_copy_is_refused(
    region: Rectangle,
    overlay_cursor: bool,
    buffer: ScreencopyBuffer,
    with_damage: bool,
)
    requires
        region_fits(region.size),
        argb_buffer_size(buffer) != Some((region.size.w as int, region.size.h as int)),
    ensures
        ({
            let s = ScreencopyFrameState::Pending { region, overlay_cursor, copied: false };
            &&& copy_answer(s, buffer, with_damage) == CopyAnswer::InvalidBuffer
            &&& state_after_copy(s, buffer, with_damage) == s
        }),
{
    law_buffer_fits_only_its_region(buffer, region.size);
}

} // verus!

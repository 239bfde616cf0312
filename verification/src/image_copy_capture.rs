//! Image copy capture frames: what a client may do with a frame in each
//! state, and how capturing moves it along.
//!
//! Buffers are named by integer handles; whether a buffer is of a kind that
//! can be captured, and whether the frame still belongs to a session, are
//! read by the protocol plumbing and handed in.
use vstd::prelude::*;

use crate::geometry::{Point, Rectangle, Size};

verus! {

/// The state of a frame.
#[derive(Debug, Clone, Copy, PartialEq, Eq, Structural, Hash, PartialOrd, Ord)]
pub enum FrameState {
    /// The frame has failed.
    Failed,
    /// The frame is idle.
    Idle,
    /// The client has requested capture.
    CaptureRequested,
    /// The frame is in the process of capturing.
    Capturing,
    /// The frame has been captured and the client has been notified.
    Submitted,
}

impl Default for FrameState {
    fn default() -> (r: Self)
        ensures
            r == FrameState::Idle,
    {
        FrameState::Idle
    }
}

/// The place of a state in the order `Failed < Idle < CaptureRequested <
/// Capturing < Submitted`.
pub open spec fn frame_rank(s: FrameState) -> nat {
    match s {
        FrameState::Failed => 0,
        FrameState::Idle => 1,
        FrameState::CaptureRequested => 2,
        FrameState::Capturing => 3,
        FrameState::Submitted => 4,
    }
}

/// Whether the client has asked for capture (or more) on the frame.
pub open spec fn capture_asked(s: FrameState) -> bool {
    frame_rank(s) >= frame_rank(FrameState::CaptureRequested)
}

impl FrameState {
    /// The place of this state in the order of states.
    pub fn rank(&self) -> (r: u8)
        ensures
            r == frame_rank(*self),
    {
        match self {
            FrameState::Failed => 0,
            FrameState::Idle => 1,
            FrameState::CaptureRequested => 2,
            FrameState::Capturing => 3,
            FrameState::Submitted => 4,
        }
    }
}

/// Why a frame failed.
#[derive(Debug, Clone, Copy, PartialEq, Eq, Structural)]
pub enum FailureReason {
    Unknown,
    BufferConstraints,
    Stopped,
}

/// What a frame holds: its state, the damage the client reported on its
/// buffer, and the buffer it attached, if any.
#[derive(Debug)]
pub struct FrameData {
    pub frame_state: FrameState,
    pub client_buffer_damage: Vec<Rectangle>,
    pub buffer: Option<u64>,
}

impl FrameData {
    /// A frame that asked for capture, is capturing or was submitted has a
    /// buffer.
    pub open spec fn wf(&self) -> bool {
        match self.frame_state {
            FrameState::CaptureRequested | FrameState::Capturing | FrameState::Submitted => self.buffer
                is Some,
            _ => true,
        }
    }

    /// A new, idle frame.
    pub fn new() -> (r: Self)
        ensures
            r.wf(),
            r.frame_state == FrameState::Idle,
            r.client_buffer_damage@.len() == 0,
            r.buffer is None,
    {
        FrameData { frame_state: FrameState::Idle, client_buffer_damage: Vec::new(), buffer: None }
    }
}

/// A request that a client makes on a frame.
#[derive(Debug, Clone, Copy, PartialEq, Eq, Structural)]
pub enum FrameRequest {
    AttachBuffer { buffer: u64 },
    DamageBuffer { x: i32, y: i32, width: i32, height: i32 },
    /// Ask for capture. `buffer_supported` says whether the attached buffer
    /// (if any) is a shared-memory or dma buffer; `in_session` whether the
    /// frame is still the frame of a session.
    Capture { buffer_supported: bool, in_session: bool },
    Destroy,
}

/// What answers a frame request.
#[derive(Debug, Clone, Copy, PartialEq, Eq, Structural)]
pub enum FrameAnswer {
    Nothing,
    /// A protocol error: the frame was already captured.
    AlreadyCaptured,
    /// A protocol error: the damage has a negative corner or an empty size.
    InvalidBufferDamage,
    /// A protocol error: capture was asked with no buffer attached.
    NoBuffer,
    /// The client is told that the frame failed.
    Failed(FailureReason),
}

/// The damage rectangle of a `DamageBuffer` request.
pub open spec fn damage_rect(x: i32, y: i32, width: i32, height: i32) -> Rectangle {
    Rectangle { loc: Point { x, y }, size: Size { w: width, h: height } }
}

/// The answer to `request` on a frame in state `s` with `buffer` attached.
pub open spec fn frame_answer(s: FrameState, buffer: Option<u64>, request: FrameRequest) -> FrameAnswer {
    match request {
        FrameRequest::Destroy => FrameAnswer::Nothing,
        _ => if capture_asked(s) {
            FrameAnswer::AlreadyCaptured
        } else {
            match request {
                FrameRequest::DamageBuffer { x, y, width, height } => if x < 0 || y < 0 || width
                    <= 0 || height <= 0 {
                    FrameAnswer::InvalidBufferDamage
                } else {
                    FrameAnswer::Nothing
                },
                FrameRequest::Capture { buffer_supported, in_session } => if buffer is None {
                    FrameAnswer::NoBuffer
                } else if !buffer_supported {
                    if s == FrameState::Failed {
                        FrameAnswer::Nothing
                    } else {
                        FrameAnswer::Failed(FailureReason::BufferConstraints)
                    }
                } else if !in_session {
                    if s == FrameState::Failed {
                        FrameAnswer::Nothing
                    } else {
                        FrameAnswer::Failed(FailureReason::Stopped)
                    }
                } else {
                    FrameAnswer::Nothing
                },
                _ => FrameAnswer::Nothing,
            }
        },
    }
}

/// The state of the frame after `request`.
pub open spec fn frame_state_after(s: FrameState, buffer: Option<u64>, request: FrameRequest) -> FrameState {
    match request {
        FrameRequest::Capture { buffer_supported, in_session } => if capture_asked(s)
            || buffer is None {
            s
        } else if !buffer_supported || !in_session {
            FrameState::Failed
        } else {
            FrameState::CaptureRequested
        },
        _ => s,
    }
}

/// The buffer of the frame after `request`.
pub open spec fn buffer_after(s: FrameState, buffer: Option<u64>, request: FrameRequest) -> Option<u64> {
    match request {
        FrameRequest::AttachBuffer { buffer: b } => if capture_asked(s) {
            buffer
        } else {
            Some(b)
        },
        _ => buffer,
    }
}

/// The damage of the frame after `request`.
pub open spec fn damage_after(
    s: FrameState,
    damage: Seq<Rectangle>,
    request: FrameRequest,
) -> Seq<Rectangle> {
    match request {
        FrameRequest::DamageBuffer { x, y, width, height } => if capture_asked(s) || x < 0 || y < 0
            || width <= 0 || height <= 0 {
            damage
        } else {
            damage.push(damage_rect(x, y, width, height))
        },
        _ => damage,
    }
}

impl FrameData {
    /// Handles a request of the client on this frame.
    pub fn request(&mut self, request: FrameRequest) -> (r: FrameAnswer)
        requires
            old(self).wf(),
        ensures
            final(self).wf(),
            r == frame_answer(old(self).frame_state, old(self).buffer, request),
            final(self).frame_state == frame_state_after(
                old(self).frame_state,
                old(self).buffer,
                request,
            ),
            final(self).buffer == buffer_after(old(self).frame_state, old(self).buffer, request),
            final(self).client_buffer_damage@ == damage_after(
                old(self).frame_state,
                old(self).client_buffer_damage@,
                request,
            ),
    {
        match request {
            FrameRequest::Destroy => FrameAnswer::Nothing,
            FrameRequest::AttachBuffer { buffer } => {
                if self.frame_state.rank() >= 2 {
                    return FrameAnswer::AlreadyCaptured;
                }
                self.buffer = Some(buffer);
                FrameAnswer::Nothing
            },
            FrameRequest::DamageBuffer { x, y, width, height } => {
                if self.frame_state.rank() >= 2 {
                    return FrameAnswer::AlreadyCaptured;
                }
                if x < 0 || y < 0 || width <= 0 || height <= 0 {
                    return FrameAnswer::InvalidBufferDamage;
                }
                self.client_buffer_damage.push(
                    Rectangle { loc: Point { x, y }, size: Size { w: width, h: height } },
                );
                FrameAnswer::Nothing
            },
            FrameRequest::Capture { buffer_supported, in_session } => {
                if self.frame_state.rank() >= 2 {
                    return FrameAnswer::AlreadyCaptured;
                }
                if self.buffer.is_none() {
                    return FrameAnswer::NoBuffer;
                }
                if !buffer_supported {
                    if self.frame_state != FrameState::Failed {
                        self.frame_state = FrameState::Failed;
                        return FrameAnswer::Failed(FailureReason::BufferConstraints);
                    }
                    return FrameAnswer::Nothing;
                }
                if !in_session {
                    if self.frame_state != FrameState::Failed {
                        self.frame_state = FrameState::Failed;
                        return FrameAnswer::Failed(FailureReason::Stopped);
                    }
                    return FrameAnswer::Nothing;
                }
                self.frame_state = FrameState::CaptureRequested;
                FrameAnswer::Nothing
            },
        }
    }
}

/// What becomes of a frame that a session looks for to capture.
#[derive(Debug, Clone, Copy, PartialEq, Eq, Structural)]
pub enum PendingFrame {
    /// No capture is asked of the frame now: it is left as it is.
    NotReady,
    /// The frame's buffer has the wrong size: the frame fails.
    Failed,
    /// The frame is taken for capturing.
    Ready,
}

impl FrameData {
    /// Starts capturing a frame whose capture was asked.
    pub fn begin_capture(&mut self)
        requires
            old(self).wf(),
            old(self).frame_state == FrameState::CaptureRequested,
        ensures
            final(self).wf(),
            final(self).frame_state == FrameState::Capturing,
            final(self).buffer == old(self).buffer,
            final(self).client_buffer_damage@ == old(self).client_buffer_damage@,
    {
        self.frame_state = FrameState::Capturing;
    }

    /// Submits the captured frame. Without damage, the frame goes back to
    /// the state it had right after the client asked for capture; with
    /// damage, the client is told it is ready (the result says so).
    pub fn submit(&mut self, has_damage: bool) -> (ready: bool)
        requires
            old(self).wf(),
            old(self).buffer is Some,
        ensures
            final(self).wf(),
            ready == has_damage,
            final(self).frame_state == if has_damage {
                FrameState::Submitted
            } else {
                FrameState::CaptureRequested
            },
            final(self).buffer == old(self).buffer,
            final(self).client_buffer_damage@ == old(self).client_buffer_damage@,
    {
        if !has_damage {
            self.frame_state = FrameState::CaptureRequested;
            return false;
        }
        self.frame_state = FrameState::Submitted;
        true
    }

    /// Lets go of a frame taken for capturing: unless it was submitted, or
    /// put back with no damage, it fails.
    pub fn release(&mut self) -> (failed: Option<FailureReason>)
        requires
            old(self).wf(),
            capture_asked(old(self).frame_state),
        ensures
            final(self).wf(),
            failed == if old(self).frame_state == FrameState::CaptureRequested || old(
                self,
            ).frame_state == FrameState::Submitted {
                None::<FailureReason>
            } else {
                Some(FailureReason::Unknown)
            },
            final(self).frame_state == if failed is Some {
                FrameState::Failed
            } else {
                old(self).frame_state
            },
            final(self).buffer == old(self).buffer,
            final(self).client_buffer_damage@ == old(self).client_buffer_damage@,
    {
        if self.frame_state == FrameState::CaptureRequested {
            return None;
        }
        if self.frame_state != FrameState::Submitted {
            self.frame_state = FrameState::Failed;
            return Some(FailureReason::Unknown);
        }
        None
    }

    /// New buffer constraints were sent: a frame whose capture was asked or
    /// is under way fails.
    pub fn constraints_changed(&mut self) -> (failed: Option<FailureReason>)
        requires
            old(self).wf(),
        ensures
            final(self).wf(),
            failed == if old(self).frame_state == FrameState::CaptureRequested || old(
                self,
            ).frame_state == FrameState::Capturing {
                Some(FailureReason::BufferConstraints)
            } else {
                None::<FailureReason>
            },
            final(self).frame_state == if failed is Some {
                FrameState::Failed
            } else {
                old(self).frame_state
            },
            final(self).buffer == old(self).buffer,
            final(self).client_buffer_damage@ == old(self).client_buffer_damage@,
    {
        match self.frame_state {
            FrameState::CaptureRequested | FrameState::Capturing => {
                self.frame_state = FrameState::Failed;
                Some(FailureReason::BufferConstraints)
            },
            _ => None,
        }
    }

    /// A session looks for its frame to capture into a buffer of the size
    /// it renders. `cursor_away` says the session captures a cursor that is
    /// not over its source; `size_matches` whether the attached buffer has
    /// the size rendered. A frame whose capture was asked is taken where the
    /// size matches, and fails where it does not.
    pub fn take_pending(&mut self, cursor_away: bool, size_matches: bool) -> (r: PendingFrame)
        requires
            old(self).wf(),
        ensures
            final(self).wf(),
            r == if cursor_away || old(self).frame_state != FrameState::CaptureRequested {
                PendingFrame::NotReady
            } else if !size_matches {
                PendingFrame::Failed
            } else {
                PendingFrame::Ready
            },
            final(self).frame_state == match r {
                PendingFrame::NotReady => old(self).frame_state,
                PendingFrame::Failed => FrameState::Failed,
                PendingFrame::Ready => FrameState::Capturing,
            },
            final(self).buffer == old(self).buffer,
            final(self).client_buffer_damage@ == old(self).client_buffer_damage@,
    {
        if cursor_away {
            return PendingFrame::NotReady;
        }
        if self.frame_state != FrameState::CaptureRequested {
            return PendingFrame::NotReady;
        }
        if !size_matches {
            self.frame_state = FrameState::Failed;
            return PendingFrame::Failed;
        }
        self.begin_capture();
        PendingFrame::Ready
    }
}

/// Once the client has asked for capture, the frame refuses to take another
/// buffer, more damage, or another capture request, and stays as it is.
pub proof fn law_captured_frame_refuses_changes(
    s: FrameState,
    buffer: Option<u64>,
    damage: Seq<Rectangle>,
    request: FrameRequest,
)
    requires
        capture_asked(s),
        request != FrameRequest::Destroy,
    ensures
        frame_answer(s, buffer, request) == FrameAnswer::AlreadyCaptured,
        frame_state_after(s, buffer, request) == s,
        buffer_after(s, buffer, request) == buffer,
        damage_after(s, damage, request) == damage,
{
}

/// A failed frame is never reported failed again by a request, and it stays
/// failed unless a capture request goes through.
pub proof fn law_failure_reported_once(buffer: Option<u64>, request: FrameRequest)
    ensures
        !(frame_answer(FrameState::Failed, buffer, request) is Failed),
        frame_state_after(FrameState::Failed, buffer, request) == FrameState::Failed
            || frame_state_after(FrameState::Failed, buffer, request) == FrameState::CaptureRequested,
        frame_state_after(FrameState::Failed, buffer, request) == FrameState::CaptureRequested
            ==> request is Capture,
{
}

/// A capture request puts the frame in `CaptureRequested` only where a buffer
/// is attached that can be captured into and the frame still belongs to a
/// session.
pub proof fn law_capture_requires_a_usable_buffer(
    s: FrameState,
    buffer: Option<u64>,
    buffer_supported: bool,
    in_session: bool,
)
    requires
        !capture_asked(s),
        frame_state_after(s, buffer, FrameRequest::Capture { buffer_supported, in_session })
            == FrameState::CaptureRequested,
    ensures
        buffer is Some,
        buffer_supported,
        in_session,
{
}

/// How a capture session handles the cursor.
#[derive(Debug, Clone, Copy, PartialEq, Eq, Structural)]
pub enum Cursor {
    /// The cursor is hidden.
    Hidden,
    /// The cursor is composited onto the frame.
    Composited,
    /// Only the cursor is drawn (a cursor session's capture session).
    Standalone,
}

/// The protocol errors of session and cursor session requests.
#[derive(Debug, Clone, Copy, PartialEq, Eq, Structural)]
pub enum SessionError {
    /// The session options hold an unknown bit.
    InvalidOption,
    /// A frame was created while the previous one still exists.
    DuplicateFrame,
    /// A cursor session's capture session was asked for twice.
    DuplicateSession,
}

/// The option bit that asks for the cursor to be painted.
pub const OPTION_PAINT_CURSORS: u32 = 1;

/// How a new session handles the cursor, from its options: painted where
/// asked; an unknown option bit is an error.
pub fn session_cursor(options: u32) -> (r: Result<Cursor, SessionError>)
    ensures
        options & !OPTION_PAINT_CURSORS != 0 ==> r == Err::<Cursor, SessionError>(
            SessionError::InvalidOption,
        ),
        options & !OPTION_PAINT_CURSORS == 0 ==> r == Ok::<Cursor, SessionError>(
            if options & OPTION_PAINT_CURSORS != 0 {
                Cursor::Composited
            } else {
                Cursor::Hidden
            },
        ),
{
    if options & !OPTION_PAINT_CURSORS != 0 {
        return Err(SessionError::InvalidOption);
    }
    if options & OPTION_PAINT_CURSORS != 0 {
        Ok(Cursor::Composited)
    } else {
        Ok(Cursor::Hidden)
    }
}

/// The frame of a capture session (by handle), if it has one.
#[derive(Debug, Clone, Copy, PartialEq, Eq, Structural)]
pub struct SessionFrameSlot {
    pub frame: Option<u64>,
}

impl SessionFrameSlot {
    /// A client creates a frame: a session has one frame at a time.
    pub fn create_frame(&mut self, frame: u64) -> (r: Result<(), SessionError>)
        ensures
            old(self).frame is Some ==> r == Err::<(), SessionError>(SessionError::DuplicateFrame)
                && *final(self) == *old(self),
            old(self).frame is None ==> r is Ok && final(self).frame == Some(frame),
    {
        if self.frame.is_some() {
            return Err(SessionError::DuplicateFrame);
        }
        self.frame = Some(frame);
        Ok(())
    }

    /// A frame was destroyed: where it is this session's frame, the session
    /// has none any more. Returns whether it was.
    pub fn frame_destroyed(&mut self, frame: u64) -> (r: bool)
        ensures
            r == (old(self).frame == Some(frame)),
            r ==> final(self).frame is None,
            !r ==> *final(self) == *old(self),
    {
        match self.frame {
            Some(f) => {
                if f == frame {
                    self.frame = None;
                    true
                } else {
                    false
                }
            },
            None => false,
        }
    }
}

/// An event of a cursor capture session.
#[derive(Debug, Clone, Copy, PartialEq, Eq, Structural)]
pub enum CursorEvent {
    Enter,
    Leave,
    Hotspot { x: i32, y: i32 },
    Position { x: i32, y: i32 },
}

/// The state of a cursor capture session: whether its capture session was
/// handed out, the cursor's hotspot, and whether the cursor is over the
/// source.
#[derive(Debug, Clone, Copy, PartialEq, Eq, Structural)]
pub struct CursorSessionData {
    pub capture_session_retrieved: bool,
    pub hotspot: Point,
    pub cursor_entered: bool,
}

/// The events that moving the cursor to `position` (`None`: off the source)
/// sends from a session where the cursor is `entered` or not, with `hotspot`.
pub open spec fn position_events(entered: bool, hotspot: Point, position: Option<Point>) -> Seq<
    CursorEvent,
> {
    let crossing = if entered != position is Some {
        if position is Some {
            seq![CursorEvent::Enter, CursorEvent::Hotspot { x: hotspot.x, y: hotspot.y }]
        } else {
            seq![CursorEvent::Leave]
        }
    } else {
        Seq::empty()
    };
    match position {
        Some(p) => crossing.push(CursorEvent::Position { x: p.x, y: p.y }),
        None => crossing,
    }
}

impl CursorSessionData {
    /// A new cursor session: no capture session handed out, the hotspot at
    /// the origin, the cursor away.
    pub fn new() -> (r: Self)
        ensures
            r == (CursorSessionData {
                capture_session_retrieved: false,
                hotspot: Point { x: 0, y: 0 },
                cursor_entered: false,
            }),
    {
        CursorSessionData {
            capture_session_retrieved: false,
            hotspot: Point { x: 0, y: 0 },
            cursor_entered: false,
        }
    }

    /// A client asks for the cursor session's capture session, once.
    pub fn get_capture_session(&mut self) -> (r: Result<(), SessionError>)
        ensures
            old(self).capture_session_retrieved ==> r == Err::<(), SessionError>(
                SessionError::DuplicateSession,
            ) && *final(self) == *old(self),
            !old(self).capture_session_retrieved ==> r is Ok && *final(self) == (CursorSessionData {
                capture_session_retrieved: true,
                ..*old(self)
            }),
    {
        if self.capture_session_retrieved {
            return Err(SessionError::DuplicateSession);
        }
        self.capture_session_retrieved = true;
        Ok(())
    }

    /// Sets the cursor's hotspot; the client hears of a new hotspot while
    /// the cursor is over the source.
    pub fn set_hotspot(&mut self, hotspot: Point) -> (r: Option<CursorEvent>)
        ensures
            final(self).hotspot == hotspot,
            final(self).cursor_entered == old(self).cursor_entered,
            final(self).capture_session_retrieved == old(self).capture_session_retrieved,
            r == if old(self).hotspot != hotspot && old(self).cursor_entered {
                Some(CursorEvent::Hotspot { x: hotspot.x, y: hotspot.y })
            } else {
                None::<CursorEvent>
            },
    {
        if self.hotspot == hotspot {
            return None;
        }
        self.hotspot = hotspot;
        if self.cursor_entered {
            Some(CursorEvent::Hotspot { x: hotspot.x, y: hotspot.y })
        } else {
            None
        }
    }

    /// Moves the cursor to `position` over the source, or off it (`None`).
    /// Entering sends the hotspot; every position is sent.
    pub fn set_position(&mut self, position: Option<Point>) -> (r: Vec<CursorEvent>)
        ensures
            final(self).cursor_entered == position is Some,
            final(self).hotspot == old(self).hotspot,
            final(self).capture_session_retrieved == old(self).capture_session_retrieved,
            r@ == position_events(old(self).cursor_entered, old(self).hotspot, position),
    {
        let mut r: Vec<CursorEvent> = Vec::new();
        let entering = position.is_some();
        if self.cursor_entered != entering {
            self.cursor_entered = entering;
            if entering {
                r.push(CursorEvent::Enter);
                r.push(CursorEvent::Hotspot { x: self.hotspot.x, y: self.hotspot.y });
            } else {
                r.push(CursorEvent::Leave);
            }
        }
        if let Some(p) = position {
            r.push(CursorEvent::Position { x: p.x, y: p.y });
        }
        proof {
            assert(r@ =~= position_events(old(self).cursor_entered, old(self).hotspot, position));
        }
        r
    }
}

/// Enter and leave alternate: the cursor enters only from away and leaves
/// only from over the source.
pub proof fn law_cursor_enter_leave_alternate(entered: bool, hotspot: Point, position: Option<Point>)
    ensures
        position_events(entered, hotspot, position).contains(CursorEvent::Enter) ==> !entered
            && position is Some,
        position_events(entered, hotspot, position).contains(CursorEvent::Leave) ==> entered
            && position is None,
{
    let ev = position_events(entered, hotspot, position);
    if ev.contains(CursorEvent::Enter) {
        let i = choose|i: int| 0 <= i < ev.len() && ev[i] == CursorEvent::Enter;
        assert(ev[i] == CursorEvent::Enter);
    }
    if ev.contains(CursorEvent::Leave) {
        let i = choose|i: int| 0 <= i < ev.len() && ev[i] == CursorEvent::Leave;
        assert(ev[i] == CursorEvent::Leave);
    }
}

} // verus!

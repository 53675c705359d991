//! Reading a capture dma-buf back to CPU pixels: what to do after what.
//!
//! The GPU calls themselves are made by whoever holds an EGL context. [`setup_next`] says how
//! to come by one, and [`begin`] and [`readback_next`] say which call follows which outcome,
//! so that every object that was created is destroyed again on every path.

use vstd::prelude::*;

use crate::dmabuf::{
    dmabuf_image_attribs, frame_attribs, DmabufFrame, DmabufImport, EGL_ATTRIB_NONE, EGL_HEIGHT,
    EGL_LINUX_DMA_BUF_EXT, EGL_WIDTH,
};
use crate::geometry::{law_low_bits_are_congruent, low_i32, signed_low};
use crate::text::{hex, hex_digits};

verus! {

/// The GLES API.
pub const EGL_OPENGL_ES_API: u32 = 0x30A0;

/// Attribute name of the surfaces that a configuration supports.
pub const EGL_SURFACE_TYPE: i32 = 0x3033;

/// Pbuffer surfaces.
pub const EGL_PBUFFER_BIT: i32 = 0x0001;

/// Attribute name of the APIs that a configuration supports.
pub const EGL_RENDERABLE_TYPE: i32 = 0x3040;

/// GLES 2.
pub const EGL_OPENGL_ES2_BIT: i32 = 0x0004;

/// Attribute name of the bits for red.
pub const EGL_RED_SIZE: i32 = 0x3024;

/// Attribute name of the bits for green.
pub const EGL_GREEN_SIZE: i32 = 0x3023;

/// Attribute name of the bits for blue.
pub const EGL_BLUE_SIZE: i32 = 0x3022;

/// Attribute name of the bits for alpha.
pub const EGL_ALPHA_SIZE: i32 = 0x3021;

/// Attribute name of a context's GLES version.
pub const EGL_CONTEXT_CLIENT_VERSION: i32 = 0x3098;

/// Target of the texture that a frame is read through.
pub const GL_TEXTURE_2D: u32 = 0x0DE1;

/// The configuration to choose: one for pbuffers and GLES 2, with eight bits for each of red,
/// green, blue and alpha.
pub fn config_attribs() -> (attribs: Vec<i32>)
    ensures
        attribs@ == seq![
            EGL_SURFACE_TYPE,
            EGL_PBUFFER_BIT,
            EGL_RENDERABLE_TYPE,
            EGL_OPENGL_ES2_BIT,
            EGL_RED_SIZE,
            8,
            EGL_GREEN_SIZE,
            8,
            EGL_BLUE_SIZE,
            8,
            EGL_ALPHA_SIZE,
            8,
            EGL_ATTRIB_NONE,
        ],
{
    vec![
        EGL_SURFACE_TYPE,
        EGL_PBUFFER_BIT,
        EGL_RENDERABLE_TYPE,
        EGL_OPENGL_ES2_BIT,
        EGL_RED_SIZE,
        8,
        EGL_GREEN_SIZE,
        8,
        EGL_BLUE_SIZE,
        8,
        EGL_ALPHA_SIZE,
        8,
        EGL_ATTRIB_NONE,
    ]
}

/// The attributes of a context for a GLES version.
pub fn context_attribs(version: i32) -> (attribs: Vec<i32>)
    ensures
        attribs@ == seq![EGL_CONTEXT_CLIENT_VERSION, version, EGL_ATTRIB_NONE],
{
    vec![EGL_CONTEXT_CLIENT_VERSION, version, EGL_ATTRIB_NONE]
}

/// The attributes of the pbuffer surface: one pixel.
pub fn pbuffer_attribs() -> (attribs: Vec<i32>)
    ensures
        attribs@ == seq![EGL_WIDTH, 1, EGL_HEIGHT, 1, EGL_ATTRIB_NONE],
{
    vec![EGL_WIDTH, 1, EGL_HEIGHT, 1, EGL_ATTRIB_NONE]
}

/// One call on the way to an offscreen context.
#[derive(Clone, Copy, Debug, PartialEq, Eq, Structural)]
pub enum SetupCall {
    /// Connect to the Wayland display.
    Connect,
    /// Load libEGL.
    LoadEgl,
    /// Get the EGL display of the connection.
    GetDisplay,
    /// Initialise EGL.
    Initialize,
    /// Bind this API.
    BindApi(u32),
    /// Choose a configuration with [`config_attribs`].
    ChooseConfig,
    /// Create a context for this GLES version, with [`context_attribs`].
    CreateContext(i32),
    /// Create a surface with [`pbuffer_attribs`]. A pbuffer keeps this portable across drivers
    /// that lack surfaceless contexts.
    CreateSurface,
    /// Make the context current.
    MakeCurrent,
}

/// How a call on the way to a context ended.
#[derive(Clone, Copy, Debug, PartialEq, Eq, Structural)]
pub enum SetupOutcome {
    /// It gave what it was called for.
    Done,
    /// It succeeded and found nothing; only a configuration can be missing.
    Nothing,
    /// It failed.
    Failed,
}

/// Where the way to a context has led.
#[derive(Clone, Copy, Debug, PartialEq, Eq, Structural)]
pub enum Setup {
    /// This call is next.
    Next(SetupCall),
    /// The context is there.
    Ready,
    /// This call failed, and with it the whole.
    Failed(SetupCall),
    /// There is no configuration that fits.
    NoConfig,
}

/// The call after one that succeeded, or the end.
pub open spec fn setup_after(call: SetupCall) -> Setup {
    match call {
        SetupCall::Connect => Setup::Next(SetupCall::LoadEgl),
        SetupCall::LoadEgl => Setup::Next(SetupCall::GetDisplay),
        SetupCall::GetDisplay => Setup::Next(SetupCall::Initialize),
        SetupCall::Initialize => Setup::Next(SetupCall::BindApi(EGL_OPENGL_ES_API)),
        SetupCall::BindApi(_) => Setup::Next(SetupCall::ChooseConfig),
        SetupCall::ChooseConfig => Setup::Next(SetupCall::CreateContext(3)),
        SetupCall::CreateContext(_) => Setup::Next(SetupCall::CreateSurface),
        SetupCall::CreateSurface => Setup::Next(SetupCall::MakeCurrent),
        SetupCall::MakeCurrent => Setup::Ready,
    }
}

/// Where a call and its outcome lead: on to the next call after a success, to the end after a
/// failure, except that a context that cannot be had for GLES 3 is tried for GLES 2.
pub open spec fn setup_step(call: SetupCall, outcome: SetupOutcome) -> Setup {
    match outcome {
        SetupOutcome::Done => setup_after(call),
        SetupOutcome::Nothing => if call == SetupCall::ChooseConfig {
            Setup::NoConfig
        } else {
            Setup::Failed(call)
        },
        SetupOutcome::Failed => if call == SetupCall::CreateContext(3) {
            Setup::Next(SetupCall::CreateContext(2))
        } else {
            Setup::Failed(call)
        },
    }
}

/// The first call on the way to a context.
pub fn setup_start() -> (setup: Setup)
    ensures
        setup == Setup::Next(SetupCall::Connect),
{
    Setup::Next(SetupCall::Connect)
}

/// Where a call and its outcome lead.
pub fn setup_next(call: SetupCall, outcome: SetupOutcome) -> (setup: Setup)
    ensures
        setup == setup_step(call, outcome),
{
    match outcome {
        SetupOutcome::Done => match call {
            SetupCall::Connect => Setup::Next(SetupCall::LoadEgl),
            SetupCall::LoadEgl => Setup::Next(SetupCall::GetDisplay),
            SetupCall::GetDisplay => Setup::Next(SetupCall::Initialize),
            SetupCall::Initialize => Setup::Next(SetupCall::BindApi(EGL_OPENGL_ES_API)),
            SetupCall::BindApi(_) => Setup::Next(SetupCall::ChooseConfig),
            SetupCall::ChooseConfig => Setup::Next(SetupCall::CreateContext(3)),
            SetupCall::CreateContext(_) => Setup::Next(SetupCall::CreateSurface),
            SetupCall::CreateSurface => Setup::Next(SetupCall::MakeCurrent),
            SetupCall::MakeCurrent => Setup::Ready,
        },
        SetupOutcome::Nothing => match call {
            SetupCall::ChooseConfig => Setup::NoConfig,
            _ => Setup::Failed(call),
        },
        SetupOutcome::Failed => match call {
            SetupCall::CreateContext(3) => Setup::Next(SetupCall::CreateContext(2)),
            _ => Setup::Failed(call),
        },
    }
}

/// What a failed call is reported as.
pub open spec fn setup_label(call: SetupCall) -> Seq<char> {
    match call {
        SetupCall::Connect => "Wayland connection"@,
        SetupCall::LoadEgl => "libEGL not found"@,
        SetupCall::GetDisplay => "eglGetDisplay"@,
        SetupCall::Initialize => "eglInitialize"@,
        SetupCall::BindApi(_) => "eglBindAPI"@,
        SetupCall::ChooseConfig => "eglChooseConfig"@,
        SetupCall::CreateContext(_) => "eglCreateContext"@,
        SetupCall::CreateSurface => "eglCreatePbufferSurface"@,
        SetupCall::MakeCurrent => "eglMakeCurrent"@,
    }
}

impl Setup {
    /// What a failed way to a context is reported as; `None` where nothing failed.
    pub fn message(&self) -> (message: Option<&'static str>)
        ensures
            message is Some <==> *self is Failed || *self is NoConfig,
            *self is Failed ==> (message->0)@ == setup_label(self->Failed_0),
            *self is NoConfig ==> (message->0)@ == "no EGL pbuffer config"@,
    {
        match self {
            Setup::Failed(call) => Some(
                match call {
                    SetupCall::Connect => "Wayland connection",
                    SetupCall::LoadEgl => "libEGL not found",
                    SetupCall::GetDisplay => "eglGetDisplay",
                    SetupCall::Initialize => "eglInitialize",
                    SetupCall::BindApi(_) => "eglBindAPI",
                    SetupCall::ChooseConfig => "eglChooseConfig",
                    SetupCall::CreateContext(_) => "eglCreateContext",
                    SetupCall::CreateSurface => "eglCreatePbufferSurface",
                    SetupCall::MakeCurrent => "eglMakeCurrent",
                },
            ),
            Setup::NoConfig => Some("no EGL pbuffer config"),
            _ => None,
        }
    }
}

/// How many calls may still follow.
pub open spec fn setup_calls_left(setup: Setup) -> nat {
    match setup {
        Setup::Next(SetupCall::Connect) => 10,
        Setup::Next(SetupCall::LoadEgl) => 9,
        Setup::Next(SetupCall::GetDisplay) => 8,
        Setup::Next(SetupCall::Initialize) => 7,
        Setup::Next(SetupCall::BindApi(_)) => 6,
        Setup::Next(SetupCall::ChooseConfig) => 5,
        Setup::Next(SetupCall::CreateContext(v)) => if v == 3 {
            4
        } else {
            3
        },
        Setup::Next(SetupCall::CreateSurface) => 2,
        Setup::Next(SetupCall::MakeCurrent) => 1,
        _ => 0,
    }
}

/// Where the way leads in the end, given how each call would end.
pub open spec fn setup_end(setup: Setup, outcome: spec_fn(SetupCall) -> SetupOutcome) -> Setup
    decreases setup_calls_left(setup),
{
    match setup {
        Setup::Next(call) => setup_end(setup_step(call, outcome(call)), outcome),
        _ => setup,
    }
}

/// A context is there in the end exactly where every call succeeds, the creation of a context
/// for GLES 3 or else for GLES 2; and the way always ends.
pub proof fn law_setup_ready(outcome: spec_fn(SetupCall) -> SetupOutcome)
    ensures
        setup_end(Setup::Next(SetupCall::Connect), outcome) == Setup::Ready <==> {
            &&& outcome(SetupCall::Connect) is Done
            &&& outcome(SetupCall::LoadEgl) is Done
            &&& outcome(SetupCall::GetDisplay) is Done
            &&& outcome(SetupCall::Initialize) is Done
            &&& outcome(SetupCall::BindApi(EGL_OPENGL_ES_API)) is Done
            &&& outcome(SetupCall::ChooseConfig) is Done
            &&& outcome(SetupCall::CreateContext(3)) is Done || (outcome(
                SetupCall::CreateContext(3),
            ) is Failed && outcome(SetupCall::CreateContext(2)) is Done)
            &&& outcome(SetupCall::CreateSurface) is Done
            &&& outcome(SetupCall::MakeCurrent) is Done
        },
        setup_end(Setup::Next(SetupCall::Connect), outcome) !is Next,
{
    reveal_with_fuel(setup_end, 12);
}

/// An image in CPU memory, four bytes a pixel: red, green, blue, alpha.
#[derive(Debug)]
pub struct CapturedImage {
    /// Width in pixels.
    pub width: u32,
    /// Height in pixels.
    pub height: u32,
    /// The pixels, row by row.
    pub rgba: Vec<u8>,
}

/// Why a readback failed.
#[derive(Debug)]
pub enum ReadbackError {
    /// The driver cannot import dma-bufs.
    Unavailable,
    /// The frame has no pixels.
    ZeroSized,
    /// The context could not be made current.
    Current,
    /// The dma-buf could not be imported.
    Import,
    /// No texture could be created, for this reason.
    Texture(String),
    /// No framebuffer could be created, for this reason.
    Framebuffer(String),
    /// The framebuffer is not complete: its status.
    Incomplete(u32),
}

/// What an error is reported as.
pub open spec fn error_message(error: ReadbackError) -> Seq<char> {
    match error {
        ReadbackError::Unavailable => "EGL dma-buf import unavailable (driver)"@,
        ReadbackError::ZeroSized => "zero-sized readback"@,
        ReadbackError::Current => "eglMakeCurrent"@,
        ReadbackError::Import => "eglCreateImageKHR failed"@,
        ReadbackError::Texture(reason) => "glGenTextures: "@ + reason@,
        ReadbackError::Framebuffer(reason) => "glGenFramebuffers: "@ + reason@,
        ReadbackError::Incomplete(status) => "incomplete readback FBO (0x"@ + hex_digits(
            status as nat,
        ) + ")"@,
    }
}

impl ReadbackError {
    /// What the error is reported as.
    pub fn message(&self) -> (message: String)
        ensures
            message@ == error_message(*self),
    {
        match self {
            ReadbackError::Unavailable => "EGL dma-buf import unavailable (driver)".to_owned(),
            ReadbackError::ZeroSized => "zero-sized readback".to_owned(),
            ReadbackError::Current => "eglMakeCurrent".to_owned(),
            ReadbackError::Import => "eglCreateImageKHR failed".to_owned(),
            ReadbackError::Texture(reason) => "glGenTextures: ".to_owned().concat(
                reason.as_str(),
            ),
            ReadbackError::Framebuffer(reason) => "glGenFramebuffers: ".to_owned().concat(
                reason.as_str(),
            ),
            ReadbackError::Incomplete(status) => "incomplete readback FBO (0x".to_owned().concat(
                hex(*status).as_str(),
            ).concat(")"),
        }
    }
}

/// Makes every pixel opaque: captures are opaque, and formats without alpha leave that byte
/// undefined. Bytes after the last whole pixel stay as they are.
pub fn force_opaque(rgba: &mut Vec<u8>)
    ensures
        final(rgba)@ == opaque(old(rgba)@),
        final(rgba)@.len() == old(rgba)@.len(),
        forall|i: int|
            0 <= i < final(rgba)@.len() && i % 4 == 3 ==> #[trigger] final(rgba)@[i] == 255,
        forall|i: int|
            0 <= i < final(rgba)@.len() && i % 4 != 3 ==> #[trigger] final(rgba)@[i]
                == old(rgba)@[i],
{
    let ghost before = rgba@;
    let mut i: usize = 0;
    while rgba.len() - i >= 4
        invariant
            i <= rgba@.len(),
            i % 4 == 0,
            rgba@.len() == before.len(),
            forall|k: int|
                0 <= k < rgba@.len() ==> #[trigger] rgba@[k] == (if k < i && k % 4 == 3 {
                    255u8
                } else {
                    before[k]
                }),
        decreases rgba@.len() - i,
    {
        rgba.set(i + 3, 255);
        i += 4;
    }
    assert(rgba@ =~= opaque(before));
}

/// The pixels with every alpha byte at its greatest.
pub open spec fn opaque(rgba: Seq<u8>) -> Seq<u8> {
    Seq::new(
        rgba.len(),
        |i: int|
            if i % 4 == 3 {
                255u8
            } else {
                rgba[i]
            },
    )
}

/// How many bytes the pixels of a frame take.
pub fn pixel_bytes(width: u32, height: u32) -> (bytes: usize)
    requires
        width * height * 4 <= usize::MAX,
    ensures
        bytes == width * height * 4,
{
    assert(width * height <= width * height * 4) by (nonlinear_arith);
    width as usize * height as usize * 4
}

/// How many bytes the pixels of a frame take.
pub open spec fn frame_bytes(frame: DmabufFrame) -> int {
    frame.width * frame.height * 4
}

/// What an image is created from: the arguments of `eglCreateImageKHR` besides the display,
/// with no context and no client buffer.
#[derive(Debug)]
pub struct ImageRequest {
    /// The target.
    pub target: u32,
    /// The attribute list.
    pub attribs: Vec<i32>,
}

/// Whether a request imports the frame, in the way that the driver offers.
pub open spec fn imports(request: ImageRequest, import: DmabufImport, frame: DmabufFrame) -> bool {
    &&& request.target == EGL_LINUX_DMA_BUF_EXT
    &&& request.attribs@ == frame_attribs(frame, import.modifiers)
}

/// How a texture is attached to a framebuffer.
#[derive(Clone, Copy, Debug, PartialEq, Eq, Structural)]
pub struct Attachment {
    /// The framebuffer's target.
    pub target: u32,
    /// The point that it is attached to.
    pub point: u32,
    /// The texture's target.
    pub texture_target: u32,
    /// The mipmap level.
    pub level: i32,
}

/// The frame's texture as the colour of the framebuffer.
pub open spec fn color_texture() -> Attachment {
    Attachment { target: 0x8D40, point: 0x8CE0, texture_target: GL_TEXTURE_2D, level: 0 }
}

/// The target of framebuffers: `glow::FRAMEBUFFER`. Trusted: its value.
#[verifier::external_body]
fn framebuffer_target() -> (target: u32)
    ensures
        target == 0x8D40,
{
    glow::FRAMEBUFFER
}

/// The first colour attachment: `glow::COLOR_ATTACHMENT0`. Trusted: its value.
#[verifier::external_body]
fn color_attachment() -> (point: u32)
    ensures
        point == 0x8CE0,
{
    glow::COLOR_ATTACHMENT0
}

/// How the frame's texture is attached: whole, as the first colour of the framebuffer.
pub fn attachment() -> (attachment: Attachment)
    ensures
        attachment == color_texture(),
{
    Attachment {
        target: framebuffer_target(),
        point: color_attachment(),
        texture_target: GL_TEXTURE_2D,
        level: 0,
    }
}

/// What is read out of a framebuffer.
#[derive(Clone, Copy, Debug, PartialEq, Eq, Structural)]
pub struct PixelRead {
    /// Left edge.
    pub x: i32,
    /// Bottom edge.
    pub y: i32,
    /// Width in pixels.
    pub width: i32,
    /// Height in pixels.
    pub height: i32,
    /// The channels of a pixel.
    pub format: u32,
    /// The type of a channel.
    pub channel: u32,
}

/// All pixels of a frame, as red, green, blue and alpha of a byte each.
pub open spec fn whole_frame(frame: DmabufFrame) -> PixelRead {
    PixelRead {
        x: 0,
        y: 0,
        width: low_i32(frame.width as int),
        height: low_i32(frame.height as int),
        format: 0x1908,
        channel: 0x1401,
    }
}

/// The format of red, green, blue and alpha: `glow::RGBA`. Trusted: its value.
#[verifier::external_body]
fn rgba_format() -> (format: u32)
    ensures
        format == 0x1908,
{
    glow::RGBA
}

/// The type of a channel of one byte: `glow::UNSIGNED_BYTE`. Trusted: its value.
#[verifier::external_body]
fn byte_channel() -> (channel: u32)
    ensures
        channel == 0x1401,
{
    glow::UNSIGNED_BYTE
}

/// What is read of a frame: all of it, from the origin on, as RGBA8.
pub fn pixel_read(frame: &DmabufFrame) -> (read: PixelRead)
    ensures
        read == whole_frame(*frame),
{
    PixelRead {
        x: 0,
        y: 0,
        width: signed_low(frame.width as i64),
        height: signed_low(frame.height as i64),
        format: rgba_format(),
        channel: byte_channel(),
    }
}

/// What a read gave: pixels, or why not.
pub type Read = Result<Vec<u8>, ReadbackError>;

/// One step of a readback: what to do next.
#[derive(Debug)]
pub enum Step {
    /// Make the context current; how the driver offers to import.
    MakeCurrent(DmabufImport),
    /// Import the dma-buf as an image, as requested.
    CreateImage(ImageRequest),
    /// Create a texture.
    CreateTexture,
    /// Bind the texture to [`GL_TEXTURE_2D`], give it the image, and create a framebuffer.
    CreateFramebuffer,
    /// Bind the framebuffer, attach the texture to it in this way, and check its status.
    CheckStatus(Attachment),
    /// Read these pixels.
    ReadPixels(PixelRead),
    /// Unbind and delete the framebuffer.
    DeleteFramebuffer(Read),
    /// Delete the texture, after unbinding it where the flag says so.
    DeleteTexture(Read, bool),
    /// Destroy the image.
    DestroyImage(Read),
    /// Nothing is left to do.
    Finished(Result<CapturedImage, ReadbackError>),
}

/// How a step ended.
#[derive(Debug)]
pub enum Event {
    /// It was done.
    Done,
    /// It failed, for this reason.
    Failed(String),
    /// The framebuffer has this status.
    Status(u32),
    /// These are the pixels.
    Pixels(Vec<u8>),
}

/// Whether a step of a readback of `frame` can end so; a read gives all pixels of the frame.
pub open spec fn can_end(step: Step, event: Event, frame: DmabufFrame) -> bool {
    match step {
        Step::MakeCurrent(_)
        | Step::CreateImage(_)
        | Step::CreateTexture
        | Step::CreateFramebuffer => event is Done || event is Failed,
        Step::CheckStatus(_) => event is Status,
        Step::ReadPixels(_) => event matches Event::Pixels(pixels) && pixels@.len()
            == frame_bytes(frame),
        Step::DeleteFramebuffer(_) | Step::DeleteTexture(_, _) | Step::DestroyImage(_) => {
            event is Done
        },
        Step::Finished(_) => false,
    }
}

/// Whether the pixels that a read gave are those of the whole frame.
pub open spec fn whole_read(read: Read, frame: DmabufFrame) -> bool {
    read matches Ok(pixels) ==> pixels@.len() == frame_bytes(frame)
}

/// Whether what a step carries fits the frame: the pixels that were read, or the image that
/// came of them.
pub open spec fn fits(step: Step, frame: DmabufFrame) -> bool {
    match step {
        Step::DeleteFramebuffer(read) => whole_read(read, frame),
        Step::DeleteTexture(read, _) => whole_read(read, frame),
        Step::DestroyImage(read) => whole_read(read, frame),
        Step::Finished(Ok(image)) => {
            &&& image.width == frame.width
            &&& image.height == frame.height
            &&& image.rgba@.len() == frame_bytes(frame)
        },
        _ => true,
    }
}

/// The status of a complete framebuffer: `glow::FRAMEBUFFER_COMPLETE`. Trusted: its value.
#[verifier::external_body]
fn framebuffer_complete() -> (status: u32)
    ensures
        status == 0x8CD5,
{
    glow::FRAMEBUFFER_COMPLETE
}

/// The first step of a readback.
pub open spec fn first_step(import: Option<DmabufImport>, frame: DmabufFrame) -> Step {
    match import {
        None => Step::Finished(Err(ReadbackError::Unavailable)),
        Some(offer) => if frame.width == 0 || frame.height == 0 {
            Step::Finished(Err(ReadbackError::ZeroSized))
        } else {
            Step::MakeCurrent(offer)
        },
    }
}

/// The first step of a readback of `frame`: nothing is done where the driver cannot import
/// dma-bufs or the frame has no pixels.
pub fn begin(import: Option<DmabufImport>, frame: &DmabufFrame) -> (step: Step)
    ensures
        step == (if import is None {
            Step::Finished(Err(ReadbackError::Unavailable))
        } else if frame.width == 0 || frame.height == 0 {
            Step::Finished(Err(ReadbackError::ZeroSized))
        } else {
            Step::MakeCurrent(import->0)
        }),
        step == first_step(import, *frame),
        fits(step, *frame),
{
    let import = match import {
        Some(import) => import,
        None => return Step::Finished(Err(ReadbackError::Unavailable)),
    };
    if frame.width == 0 || frame.height == 0 {
        return Step::Finished(Err(ReadbackError::ZeroSized));
    }
    Step::MakeCurrent(import)
}

/// The step that follows, but for the import and the image that comes out of the last step.
pub open spec fn following(step: Step, event: Event, frame: DmabufFrame) -> Step {
    match (step, event) {
        (Step::MakeCurrent(_), Event::Failed(_)) => Step::Finished(Err(ReadbackError::Current)),
        (Step::CreateImage(_), Event::Done) => Step::CreateTexture,
        (Step::CreateImage(_), _) => Step::Finished(Err(ReadbackError::Import)),
        (Step::CreateTexture, Event::Done) => Step::CreateFramebuffer,
        (Step::CreateTexture, Event::Failed(reason)) => Step::DestroyImage(
            Err(ReadbackError::Texture(reason)),
        ),
        (Step::CreateFramebuffer, Event::Done) => Step::CheckStatus(color_texture()),
        (Step::CreateFramebuffer, Event::Failed(reason)) => Step::DeleteTexture(
            Err(ReadbackError::Framebuffer(reason)),
            false,
        ),
        (Step::CheckStatus(_), Event::Status(status)) => if status == 0x8CD5 {
            Step::ReadPixels(whole_frame(frame))
        } else {
            Step::DeleteFramebuffer(Err(ReadbackError::Incomplete(status)))
        },
        (Step::ReadPixels(_), Event::Pixels(pixels)) => Step::DeleteFramebuffer(Ok(pixels)),
        (Step::DeleteFramebuffer(read), _) => Step::DeleteTexture(read, true),
        (Step::DeleteTexture(read, _), _) => Step::DestroyImage(read),
        (Step::DestroyImage(Err(error)), _) => Step::Finished(Err(error)),
        _ => step,
    }
}

/// The step that follows the end of another in a readback of `frame`. What is imported is the
/// frame. The image that comes out of the last step has the frame's size and the pixels that
/// were read, made opaque.
pub fn readback_next(step: Step, event: Event, frame: &DmabufFrame) -> (next: Step)
    requires
        can_end(step, event, *frame),
        fits(step, *frame),
    ensures
        match (step, event) {
            (Step::MakeCurrent(import), Event::Done) => {
                &&& next matches Step::CreateImage(request)
                &&& imports(request, import, *frame)
            },
            (Step::DestroyImage(Ok(pixels)), _) => {
                &&& next matches Step::Finished(Ok(image))
                &&& image.width == frame.width
                &&& image.height == frame.height
                &&& image.rgba@ == opaque(pixels@)
                &&& image.rgba@.len() == pixels@.len()
                &&& forall|i: int|
                    0 <= i < image.rgba@.len() ==> #[trigger] image.rgba@[i] == (if i % 4 == 3 {
                        255u8
                    } else {
                        pixels@[i]
                    })
            },
            _ => next == following(step, event, *frame),
        },
        fits(next, *frame),
        phase(next) == phase_after(phase(step), succeeded(event)),
        verdict(next) == verdict_after(phase(step), verdict(step), succeeded(event)),
{
    match step {
        Step::MakeCurrent(import) => match event {
            Event::Done => Step::CreateImage(
                ImageRequest {
                    target: EGL_LINUX_DMA_BUF_EXT,
                    attribs: dmabuf_image_attribs(frame, import.modifiers),
                },
            ),
            _ => Step::Finished(Err(ReadbackError::Current)),
        },
        Step::CreateImage(_) => match event {
            Event::Done => Step::CreateTexture,
            _ => Step::Finished(Err(ReadbackError::Import)),
        },
        Step::CreateTexture => match event {
            Event::Failed(reason) => Step::DestroyImage(Err(ReadbackError::Texture(reason))),
            _ => Step::CreateFramebuffer,
        },
        Step::CreateFramebuffer => match event {
            Event::Failed(reason) => Step::DeleteTexture(
                Err(ReadbackError::Framebuffer(reason)),
                false,
            ),
            _ => Step::CheckStatus(attachment()),
        },
        Step::CheckStatus(attachment) => match event {
            Event::Status(status) => if status == framebuffer_complete() {
                Step::ReadPixels(pixel_read(frame))
            } else {
                Step::DeleteFramebuffer(Err(ReadbackError::Incomplete(status)))
            },
            _ => Step::CheckStatus(attachment),
        },
        Step::ReadPixels(read) => match event {
            Event::Pixels(pixels) => Step::DeleteFramebuffer(Ok(pixels)),
            _ => Step::ReadPixels(read),
        },
        Step::DeleteFramebuffer(read) => Step::DeleteTexture(read, true),
        Step::DeleteTexture(read, _) => Step::DestroyImage(read),
        Step::DestroyImage(read) => match read {
            Ok(pixels) => {
                let mut rgba = pixels;
                force_opaque(&mut rgba);
                Step::Finished(
                    Ok(CapturedImage { width: frame.width, height: frame.height, rgba }),
                )
            },
            Err(error) => Step::Finished(Err(error)),
        },
        Step::Finished(result) => Step::Finished(result),
    }
}

/// A step without what it carries.
pub enum Phase {
    /// Of [`Step::MakeCurrent`].
    MakeCurrent,
    /// Of [`Step::CreateImage`].
    CreateImage,
    /// Of [`Step::CreateTexture`].
    CreateTexture,
    /// Of [`Step::CreateFramebuffer`].
    CreateFramebuffer,
    /// Of [`Step::CheckStatus`].
    CheckStatus,
    /// Of [`Step::ReadPixels`].
    ReadPixels,
    /// Of [`Step::DeleteFramebuffer`].
    DeleteFramebuffer,
    /// Of [`Step::DeleteTexture`].
    DeleteTexture,
    /// Of [`Step::DestroyImage`].
    DestroyImage,
    /// Of [`Step::Finished`].
    Finished,
}

/// The phase of a step.
pub open spec fn phase(step: Step) -> Phase {
    match step {
        Step::MakeCurrent(_) => Phase::MakeCurrent,
        Step::CreateImage(_) => Phase::CreateImage,
        Step::CreateTexture => Phase::CreateTexture,
        Step::CreateFramebuffer => Phase::CreateFramebuffer,
        Step::CheckStatus(_) => Phase::CheckStatus,
        Step::ReadPixels(_) => Phase::ReadPixels,
        Step::DeleteFramebuffer(_) => Phase::DeleteFramebuffer,
        Step::DeleteTexture(_, _) => Phase::DeleteTexture,
        Step::DestroyImage(_) => Phase::DestroyImage,
        Step::Finished(_) => Phase::Finished,
    }
}

/// Whether an event is a success.
pub open spec fn succeeded(event: Event) -> bool {
    match event {
        Event::Failed(_) => false,
        Event::Status(status) => status == 0x8CD5,
        _ => true,
    }
}

/// The phase after one that succeeded or failed.
pub open spec fn phase_after(phase: Phase, success: bool) -> Phase {
    match phase {
        Phase::MakeCurrent => if success {
            Phase::CreateImage
        } else {
            Phase::Finished
        },
        Phase::CreateImage => if success {
            Phase::CreateTexture
        } else {
            Phase::Finished
        },
        Phase::CreateTexture => if success {
            Phase::CreateFramebuffer
        } else {
            Phase::DestroyImage
        },
        Phase::CreateFramebuffer => if success {
            Phase::CheckStatus
        } else {
            Phase::DeleteTexture
        },
        Phase::CheckStatus => if success {
            Phase::ReadPixels
        } else {
            Phase::DeleteFramebuffer
        },
        Phase::ReadPixels => Phase::DeleteFramebuffer,
        Phase::DeleteFramebuffer => Phase::DeleteTexture,
        Phase::DeleteTexture => Phase::DestroyImage,
        Phase::DestroyImage => Phase::Finished,
        Phase::Finished => Phase::Finished,
    }
}

/// How many of each object exist.
pub struct Objects {
    /// Images.
    pub images: int,
    /// Textures.
    pub textures: int,
    /// Framebuffers.
    pub framebuffers: int,
}

/// What a phase that succeeded or failed does to the objects.
pub open spec fn objects_after(objects: Objects, phase: Phase, success: bool) -> Objects {
    match phase {
        Phase::CreateImage => if success {
            Objects { images: objects.images + 1, ..objects }
        } else {
            objects
        },
        Phase::CreateTexture => if success {
            Objects { textures: objects.textures + 1, ..objects }
        } else {
            objects
        },
        Phase::CreateFramebuffer => if success {
            Objects { framebuffers: objects.framebuffers + 1, ..objects }
        } else {
            objects
        },
        Phase::DeleteFramebuffer => Objects { framebuffers: objects.framebuffers - 1, ..objects },
        Phase::DeleteTexture => Objects { textures: objects.textures - 1, ..objects },
        Phase::DestroyImage => Objects { images: objects.images - 1, ..objects },
        _ => objects,
    }
}

/// Whether it is settled that a readback gives pixels, or that it does not.
pub open spec fn verdict(step: Step) -> Option<bool> {
    match step {
        Step::DeleteFramebuffer(read) => Some(read is Ok),
        Step::DeleteTexture(read, _) => Some(read is Ok),
        Step::DestroyImage(read) => Some(read is Ok),
        Step::Finished(result) => Some(result is Ok),
        _ => None,
    }
}

/// The verdict after a phase that succeeded or failed.
pub open spec fn verdict_after(phase: Phase, verdict: Option<bool>, success: bool) -> Option<bool> {
    match phase {
        Phase::MakeCurrent
        | Phase::CreateImage
        | Phase::CreateTexture
        | Phase::CreateFramebuffer
        | Phase::CheckStatus => if success {
            None
        } else {
            Some(false)
        },
        Phase::ReadPixels => Some(true),
        _ => verdict,
    }
}

/// Where a readback stands.
pub struct Progress {
    /// The phase that is next.
    pub phase: Phase,
    /// Whether it will give pixels, once that is settled.
    pub verdict: Option<bool>,
    /// The objects that it holds.
    pub objects: Objects,
}

/// Where a readback stands after a number of steps that succeeded or failed.
pub open spec fn run(outcomes: Seq<bool>) -> Progress
    decreases outcomes.len(),
{
    if outcomes.len() == 0 {
        Progress {
            phase: Phase::MakeCurrent,
            verdict: None,
            objects: Objects { images: 0, textures: 0, framebuffers: 0 },
        }
    } else {
        let at = run(outcomes.drop_last());
        Progress {
            phase: phase_after(at.phase, outcomes.last()),
            verdict: verdict_after(at.phase, at.verdict, outcomes.last()),
            objects: objects_after(at.objects, at.phase, outcomes.last()),
        }
    }
}

/// The objects that exist in each phase.
pub open spec fn held(phase: Phase) -> Objects {
    match phase {
        Phase::MakeCurrent | Phase::CreateImage | Phase::Finished => {
            Objects { images: 0, textures: 0, framebuffers: 0 }
        },
        Phase::CreateTexture | Phase::DestroyImage => {
            Objects { images: 1, textures: 0, framebuffers: 0 }
        },
        Phase::CreateFramebuffer | Phase::DeleteTexture => {
            Objects { images: 1, textures: 1, framebuffers: 0 }
        },
        Phase::CheckStatus | Phase::ReadPixels | Phase::DeleteFramebuffer => {
            Objects { images: 1, textures: 1, framebuffers: 1 }
        },
    }
}

/// However the steps end, each object that a readback creates is destroyed once, none is
/// destroyed that does not exist, and none is left when the readback is finished.
pub proof fn law_readback_releases_everything(outcomes: Seq<bool>)
    ensures
        ({
            let at = run(outcomes);
            &&& at.objects == held(at.phase)
            &&& at.phase is Finished ==> at.objects.images == 0 && at.objects.textures == 0
                && at.objects.framebuffers == 0
            &&& at.phase is DeleteFramebuffer ==> at.objects.framebuffers == 1
            &&& at.phase is DeleteTexture ==> at.objects.textures == 1
            &&& at.phase is DestroyImage ==> at.objects.images == 1
        }),
    decreases outcomes.len(),
{
    if outcomes.len() > 0 {
        law_readback_releases_everything(outcomes.drop_last());
    }
}

/// The phases still to come, at most.
spec fn phases_left(phase: Phase) -> nat {
    match phase {
        Phase::MakeCurrent => 9,
        Phase::CreateImage => 8,
        Phase::CreateTexture => 7,
        Phase::CreateFramebuffer => 6,
        Phase::CheckStatus => 5,
        Phase::ReadPixels => 4,
        Phase::DeleteFramebuffer => 3,
        Phase::DeleteTexture => 2,
        Phase::DestroyImage => 1,
        Phase::Finished => 0,
    }
}

proof fn lemma_run_shrinks(outcomes: Seq<bool>)
    ensures
        run(outcomes).phase is Finished || phases_left(run(outcomes).phase) + outcomes.len() <= 9,
    decreases outcomes.len(),
{
    if outcomes.len() > 0 {
        lemma_run_shrinks(outcomes.drop_last());
    }
}

/// However the steps end, a readback is finished after nine of them.
pub proof fn law_readback_ends(outcomes: Seq<bool>)
    requires
        outcomes.len() >= 9,
    ensures
        run(outcomes).phase is Finished,
{
    lemma_run_shrinks(outcomes);
}

/// No step of a readback is done twice: what is imported is imported once, and what is
/// destroyed is destroyed once.
pub proof fn law_no_step_is_repeated(outcomes: Seq<bool>, i: int, j: int)
    requires
        0 <= i < j <= outcomes.len(),
        run(outcomes.take(i)).phase !is Finished,
    ensures
        run(outcomes.take(j)).phase != run(outcomes.take(i)).phase,
{
    lemma_run_goes_on(outcomes, i, j);
}

proof fn lemma_run_goes_on(outcomes: Seq<bool>, i: int, j: int)
    requires
        0 <= i <= j <= outcomes.len(),
    ensures
        phases_left(run(outcomes.take(j)).phase) <= phases_left(run(outcomes.take(i)).phase),
        i < j && run(outcomes.take(i)).phase !is Finished ==> phases_left(
            run(outcomes.take(j)).phase,
        ) < phases_left(run(outcomes.take(i)).phase),
    decreases j,
{
    if i < j {
        lemma_run_goes_on(outcomes, i, j - 1);
        assert(outcomes.take(j).drop_last() =~= outcomes.take(j - 1));
    }
}

/// Whether the steps up to the status of the framebuffer have all succeeded so far.
spec fn well_so_far(outcomes: Seq<bool>) -> bool {
    forall|k: int| 0 <= k < outcomes.len() && k < 5 ==> #[trigger] outcomes[k]
}

proof fn lemma_run_verdict(outcomes: Seq<bool>)
    ensures
        well_so_far(outcomes) ==> phases_left(run(outcomes).phase) == (if outcomes.len() < 9 {
            9 - outcomes.len()
        } else {
            0
        }) && run(outcomes).verdict == (if outcomes.len() < 6 {
            None::<bool>
        } else {
            Some(true)
        }),
        !well_so_far(outcomes) ==> run(outcomes).verdict == Some(false) && phases_left(
            run(outcomes).phase,
        ) < 4,
    decreases outcomes.len(),
{
    if outcomes.len() > 0 {
        let front = outcomes.drop_last();
        lemma_run_verdict(front);
        assert(forall|k: int| 0 <= k < front.len() ==> front[k] == outcomes[k]);
        if well_so_far(front) {
            if outcomes.len() <= 5 {
                assert(well_so_far(outcomes) ==> outcomes[outcomes.len() - 1]);
            }
        } else {
            let k = choose|k: int| 0 <= k < front.len() && k < 5 && !#[trigger] front[k];
            assert(!outcomes[k]);
        }
    }
}

/// A readback gives pixels exactly where the context is made current, the image, the texture
/// and the framebuffer are created, and the framebuffer is complete.
pub proof fn law_readback_succeeds(outcomes: Seq<bool>)
    requires
        outcomes.len() >= 9,
    ensures
        run(outcomes).verdict == Some(
            outcomes[0] && outcomes[1] && outcomes[2] && outcomes[3] && outcomes[4],
        ),
{
    lemma_run_verdict(outcomes);
}

/// Making pixels opaque keeps every byte but the alpha bytes, and doing it again changes
/// nothing.
pub proof fn law_opaque_is_idempotent(rgba: Seq<u8>)
    ensures
        opaque(opaque(rgba)) == opaque(rgba),
        opaque(rgba).len() == rgba.len(),
        forall|i: int|
            0 <= i < rgba.len() && i % 4 != 3 ==> #[trigger] opaque(rgba)[i] == rgba[i],
{
    assert(opaque(opaque(rgba)) =~= opaque(rgba));
}

/// Made opaque, every pixel has an alpha of 255, whatever it had, and its own colour.
pub proof fn law_opaque_pixels_have_full_alpha(rgba: Seq<u8>, pixel: int)
    requires
        0 <= pixel,
        4 * pixel + 3 < rgba.len(),
    ensures
        opaque(rgba).len() == rgba.len(),
        opaque(rgba)[4 * pixel + 3] == 255,
        opaque(rgba)[4 * pixel] == rgba[4 * pixel],
        opaque(rgba)[4 * pixel + 1] == rgba[4 * pixel + 1],
        opaque(rgba)[4 * pixel + 2] == rgba[4 * pixel + 2],
{
}

/// Pixels of the same colours come out the same, whatever their alpha was.
pub proof fn law_alpha_does_not_matter(a: Seq<u8>, b: Seq<u8>)
    requires
        a.len() == b.len(),
        forall|i: int| 0 <= i < a.len() && i % 4 != 3 ==> #[trigger] a[i] == b[i],
    ensures
        opaque(a) == opaque(b),
{
    assert(opaque(a) =~= opaque(b));
}

/// The calls on the way to a context follow one another in one order, each after the one before
/// it has succeeded.
pub proof fn law_setup_calls_follow_in_order(version: i32, api: u32)
    ensures
        setup_step(SetupCall::Connect, SetupOutcome::Done) == Setup::Next(SetupCall::LoadEgl),
        setup_step(SetupCall::LoadEgl, SetupOutcome::Done) == Setup::Next(SetupCall::GetDisplay),
        setup_step(SetupCall::GetDisplay, SetupOutcome::Done) == Setup::Next(
            SetupCall::Initialize,
        ),
        setup_step(SetupCall::Initialize, SetupOutcome::Done) == Setup::Next(
            SetupCall::BindApi(0x30A0),
        ),
        setup_step(SetupCall::BindApi(api), SetupOutcome::Done) == Setup::Next(
            SetupCall::ChooseConfig,
        ),
        setup_step(SetupCall::ChooseConfig, SetupOutcome::Done) == Setup::Next(
            SetupCall::CreateContext(3),
        ),
        setup_step(SetupCall::CreateContext(version), SetupOutcome::Done) == Setup::Next(
            SetupCall::CreateSurface,
        ),
        setup_step(SetupCall::CreateSurface, SetupOutcome::Done) == Setup::Next(
            SetupCall::MakeCurrent,
        ),
        setup_step(SetupCall::MakeCurrent, SetupOutcome::Done) == Setup::Ready,
{
}

/// A call that fails ends the way to a context and is what is reported, but for a context that
/// cannot be had for GLES 3, which is tried for GLES 2; and a configuration that is not found is
/// reported as that.
pub proof fn law_setup_failures_are_reported(call: SetupCall)
    ensures
        call != SetupCall::CreateContext(3) ==> setup_step(call, SetupOutcome::Failed)
            == Setup::Failed(call),
        setup_step(SetupCall::CreateContext(3), SetupOutcome::Failed) == Setup::Next(
            SetupCall::CreateContext(2),
        ),
        setup_step(SetupCall::ChooseConfig, SetupOutcome::Nothing) == Setup::NoConfig,
        call != SetupCall::ChooseConfig ==> setup_step(call, SetupOutcome::Nothing)
            == Setup::Failed(call),
{
}

/// Where the way to a context ends without one, the call that is reported did not succeed.
pub proof fn law_setup_blames_a_call_that_failed(outcome: spec_fn(SetupCall) -> SetupOutcome)
    ensures
        setup_end(Setup::Next(SetupCall::Connect), outcome) matches Setup::Failed(call)
            ==> outcome(call) != SetupOutcome::Done,
        setup_end(Setup::Next(SetupCall::Connect), outcome) == Setup::NoConfig ==> outcome(
            SetupCall::ChooseConfig,
        ) == SetupOutcome::Nothing,
{
    reveal_with_fuel(setup_end, 12);
}

/// Each failed call is reported by its own name.
pub proof fn law_setup_labels(version: i32, api: u32)
    ensures
        setup_label(SetupCall::Connect) == "Wayland connection"@,
        setup_label(SetupCall::LoadEgl) == "libEGL not found"@,
        setup_label(SetupCall::GetDisplay) == "eglGetDisplay"@,
        setup_label(SetupCall::Initialize) == "eglInitialize"@,
        setup_label(SetupCall::BindApi(api)) == "eglBindAPI"@,
        setup_label(SetupCall::ChooseConfig) == "eglChooseConfig"@,
        setup_label(SetupCall::CreateContext(version)) == "eglCreateContext"@,
        setup_label(SetupCall::CreateSurface) == "eglCreatePbufferSurface"@,
        setup_label(SetupCall::MakeCurrent) == "eglMakeCurrent"@,
{
}

/// Each error is reported by its own message, with the driver's reason or the status in it.
pub proof fn law_error_messages(reason: String, status: u32)
    ensures
        error_message(ReadbackError::Unavailable) == "EGL dma-buf import unavailable (driver)"@,
        error_message(ReadbackError::ZeroSized) == "zero-sized readback"@,
        error_message(ReadbackError::Current) == "eglMakeCurrent"@,
        error_message(ReadbackError::Import) == "eglCreateImageKHR failed"@,
        error_message(ReadbackError::Texture(reason)) == "glGenTextures: "@ + reason@,
        error_message(ReadbackError::Framebuffer(reason)) == "glGenFramebuffers: "@ + reason@,
        error_message(ReadbackError::Incomplete(status)) == "incomplete readback FBO (0x"@
            + hex_digits(status as nat) + ")"@,
{
}

/// A step that succeeds leads on, up to the pixels.
pub proof fn law_readback_goes_on(
    frame: DmabufFrame,
    request: ImageRequest,
    attachment: Attachment,
    read: PixelRead,
    pixels: Vec<u8>,
)
    ensures
        following(Step::CreateImage(request), Event::Done, frame) == Step::CreateTexture,
        following(Step::CreateTexture, Event::Done, frame) == Step::CreateFramebuffer,
        following(Step::CreateFramebuffer, Event::Done, frame) is CheckStatus,
        following(Step::CheckStatus(attachment), Event::Status(0x8CD5), frame) is ReadPixels,
        following(Step::ReadPixels(read), Event::Pixels(pixels), frame) == Step::DeleteFramebuffer(
            Ok(pixels),
        ),
{
}

/// A step that fails leads to the end by way of what was created before it, with its own error.
pub proof fn law_readback_fails_with_the_reason(
    frame: DmabufFrame,
    import: DmabufImport,
    request: ImageRequest,
    attachment: Attachment,
    reason: String,
    status: u32,
)
    requires
        status != 0x8CD5,
    ensures
        following(Step::MakeCurrent(import), Event::Failed(reason), frame) == Step::Finished(
            Err(ReadbackError::Current),
        ),
        following(Step::CreateImage(request), Event::Failed(reason), frame) == Step::Finished(
            Err(ReadbackError::Import),
        ),
        following(Step::CreateTexture, Event::Failed(reason), frame) == Step::DestroyImage(
            Err(ReadbackError::Texture(reason)),
        ),
        following(Step::CreateFramebuffer, Event::Failed(reason), frame) == Step::DeleteTexture(
            Err(ReadbackError::Framebuffer(reason)),
            false,
        ),
        following(Step::CheckStatus(attachment), Event::Status(status), frame)
            == Step::DeleteFramebuffer(Err(ReadbackError::Incomplete(status))),
{
}

/// The clean-up goes from the framebuffer over the texture to the image, and hands on what was
/// read, or why it was not, unchanged.
pub proof fn law_clean_up_hands_on_the_read(
    frame: DmabufFrame,
    read: Read,
    unbind: bool,
    error: ReadbackError,
)
    ensures
        following(Step::DeleteFramebuffer(read), Event::Done, frame) == Step::DeleteTexture(
            read,
            true,
        ),
        following(Step::DeleteTexture(read, unbind), Event::Done, frame) == Step::DestroyImage(
            read,
        ),
        following(Step::DestroyImage(Err(error)), Event::Done, frame) == Step::Finished(
            Err(error),
        ),
{
}

/// What is read is the whole frame from its origin on, as RGBA of a byte each; what is imported
/// is the frame as a dma-buf; and the texture is the first colour of the framebuffer.
pub proof fn law_readback_arguments(
    frame: DmabufFrame,
    request: ImageRequest,
    import: DmabufImport,
    attachment: Attachment,
)
    ensures
        following(Step::CheckStatus(attachment), Event::Status(0x8CD5), frame)
            matches Step::ReadPixels(read) && {
            &&& read.x == 0 && read.y == 0
            &&& (read.width - frame.width) % 0x1_0000_0000 == 0
            &&& (read.height - frame.height) % 0x1_0000_0000 == 0
            &&& read.format == 0x1908
            &&& read.channel == 0x1401
        },
        following(Step::CreateFramebuffer, Event::Done, frame) matches Step::CheckStatus(a) && {
            &&& a.target == 0x8D40
            &&& a.point == 0x8CE0
            &&& a.texture_target == 0x0DE1
            &&& a.level == 0
        },
        imports(request, import, frame) <==> request.target == 0x3270 && request.attribs@
            == frame_attribs(frame, import.modifiers),
{
    law_low_bits_are_congruent(frame.width as int);
    law_low_bits_are_congruent(frame.height as int);
}

/// A read gives four bytes for each pixel of the frame, and so has the image that comes out.
pub proof fn law_images_are_whole(
    frame: DmabufFrame,
    read: PixelRead,
    pixels: Vec<u8>,
    image: CapturedImage,
)
    ensures
        can_end(Step::ReadPixels(read), Event::Pixels(pixels), frame) <==> pixels@.len()
            == frame.width * frame.height * 4,
        fits(Step::DestroyImage(Ok(pixels)), frame) <==> pixels@.len() == frame.width
            * frame.height * 4,
        fits(Step::Finished(Ok(image)), frame) <==> image.width == frame.width && image.height
            == frame.height && image.rgba@.len() == frame.width * frame.height * 4,
{
}

/// A readback starts exactly where the driver can import and the frame has pixels in both
/// directions; without a driver that can, that is what is reported, whatever the frame.
pub proof fn law_readback_starts_where_it_can(import: DmabufImport, frame: DmabufFrame)
    ensures
        first_step(None, frame) == Step::Finished(Err(ReadbackError::Unavailable)),
        frame.width > 0 && frame.height > 0 ==> first_step(Some(import), frame)
            == Step::MakeCurrent(import),
        frame.width == 0 || frame.height == 0 ==> first_step(Some(import), frame)
            == Step::Finished(Err(ReadbackError::ZeroSized)),
{
}

/// Every step can end in each way that its call can: the calls that make something succeed or
/// fail for any reason, a check gives any status, and what is destroyed is destroyed.
pub proof fn law_steps_can_end_in_every_way(
    frame: DmabufFrame,
    import: DmabufImport,
    request: ImageRequest,
    attachment: Attachment,
    read: Read,
    unbind: bool,
    reason: String,
    status: u32,
)
    ensures
        can_end(Step::MakeCurrent(import), Event::Done, frame),
        can_end(Step::MakeCurrent(import), Event::Failed(reason), frame),
        can_end(Step::CreateImage(request), Event::Done, frame),
        can_end(Step::CreateImage(request), Event::Failed(reason), frame),
        can_end(Step::CreateTexture, Event::Done, frame),
        can_end(Step::CreateTexture, Event::Failed(reason), frame),
        can_end(Step::CreateFramebuffer, Event::Done, frame),
        can_end(Step::CreateFramebuffer, Event::Failed(reason), frame),
        can_end(Step::CheckStatus(attachment), Event::Status(status), frame),
        can_end(Step::DeleteFramebuffer(read), Event::Done, frame),
        can_end(Step::DeleteTexture(read, unbind), Event::Done, frame),
        can_end(Step::DestroyImage(read), Event::Done, frame),
{
}

/// A step that carries no pixels fits every frame.
pub proof fn law_steps_without_pixels_fit(
    frame: DmabufFrame,
    import: DmabufImport,
    request: ImageRequest,
    attachment: Attachment,
    read: PixelRead,
    error: ReadbackError,
    unbind: bool,
)
    ensures
        fits(Step::MakeCurrent(import), frame),
        fits(Step::CreateImage(request), frame),
        fits(Step::CreateTexture, frame),
        fits(Step::CreateFramebuffer, frame),
        fits(Step::CheckStatus(attachment), frame),
        fits(Step::ReadPixels(read), frame),
        fits(Step::DeleteFramebuffer(Err(error)), frame),
        fits(Step::DeleteTexture(Err(error), unbind), frame),
        fits(Step::DestroyImage(Err(error)), frame),
        fits(Step::Finished(Err(error)), frame),
{
}

} // verus!

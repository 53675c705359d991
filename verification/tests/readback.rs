//! The way to a context, and readbacks.

use edgefirst_egl as egl;
use wlr_utils::dmabuf::{dmabuf_image_attribs, DmabufFrame, DmabufImport, DmabufPlane};
use wlr_utils::readback::{
    attachment, begin, config_attribs, context_attribs, force_opaque, pbuffer_attribs,
    pixel_bytes, pixel_read, readback_next, setup_next, setup_start, Attachment, Event, PixelRead,
    ReadbackError, Setup, SetupCall, SetupOutcome, Step, EGL_OPENGL_ES_API, GL_TEXTURE_2D,
};

fn frame(width: u32, height: u32) -> DmabufFrame {
    DmabufFrame { planes: Vec::new(), width, height, fourcc: 0, modifier: 0 }
}

const IMPORT: Option<DmabufImport> = Some(DmabufImport { modifiers: true });

/// Runs the set-up with the given calls failing; the calls made and the end.
fn set_up(failing: &[SetupCall]) -> (Vec<SetupCall>, Setup) {
    let mut calls = Vec::new();
    let mut at = setup_start();
    while let Setup::Next(call) = at {
        calls.push(call);
        let outcome = match failing.contains(&call) {
            true => SetupOutcome::Failed,
            false => SetupOutcome::Done,
        };
        at = setup_next(call, outcome);
    }
    (calls, at)
}

#[test]
fn a_context_is_set_up_call_by_call() {
    let (calls, end) = set_up(&[]);
    assert_eq!(end, Setup::Ready);
    assert_eq!(end.message(), None);
    assert_eq!(
        calls,
        [
            SetupCall::Connect,
            SetupCall::LoadEgl,
            SetupCall::GetDisplay,
            SetupCall::Initialize,
            SetupCall::BindApi(EGL_OPENGL_ES_API),
            SetupCall::ChooseConfig,
            SetupCall::CreateContext(3),
            SetupCall::CreateSurface,
            SetupCall::MakeCurrent,
        ]
    );
}

#[test]
fn an_older_context_is_the_fallback() {
    let (calls, end) = set_up(&[SetupCall::CreateContext(3)]);
    assert_eq!(end, Setup::Ready);
    assert!(calls.contains(&SetupCall::CreateContext(2)));
    let (_, end) = set_up(&[SetupCall::CreateContext(3), SetupCall::CreateContext(2)]);
    assert_eq!(end.message(), Some("eglCreateContext"));
}

#[test]
fn set_up_failures_are_named() {
    for (call, message) in [
        (SetupCall::Connect, "Wayland connection"),
        (SetupCall::LoadEgl, "libEGL not found"),
        (SetupCall::GetDisplay, "eglGetDisplay"),
        (SetupCall::Initialize, "eglInitialize"),
        (SetupCall::BindApi(EGL_OPENGL_ES_API), "eglBindAPI"),
        (SetupCall::ChooseConfig, "eglChooseConfig"),
        (SetupCall::CreateSurface, "eglCreatePbufferSurface"),
        (SetupCall::MakeCurrent, "eglMakeCurrent"),
    ] {
        let (calls, end) = set_up(&[call]);
        assert_eq!(calls.last(), Some(&call));
        assert_eq!(end.message(), Some(message));
    }
    let none = setup_next(SetupCall::ChooseConfig, SetupOutcome::Nothing);
    assert_eq!(none, Setup::NoConfig);
    assert_eq!(none.message(), Some("no EGL pbuffer config"));
}

#[test]
fn set_up_calls_get_their_attributes() {
    assert_eq!(EGL_OPENGL_ES_API, egl::OPENGL_ES_API);
    assert_eq!(
        config_attribs(),
        [
            egl::SURFACE_TYPE,
            egl::PBUFFER_BIT,
            egl::RENDERABLE_TYPE,
            egl::OPENGL_ES2_BIT,
            egl::RED_SIZE,
            8,
            egl::GREEN_SIZE,
            8,
            egl::BLUE_SIZE,
            8,
            egl::ALPHA_SIZE,
            8,
            egl::NONE,
        ]
    );
    assert_eq!(context_attribs(3), [egl::CONTEXT_CLIENT_VERSION, 3, egl::NONE]);
    assert_eq!(context_attribs(2), [egl::CONTEXT_CLIENT_VERSION, 2, egl::NONE]);
    assert_eq!(pbuffer_attribs(), [egl::WIDTH, 1, egl::HEIGHT, 1, egl::NONE]);
}

#[test]
fn the_whole_frame_is_read_as_rgba8() {
    let whole = PixelRead {
        x: 0,
        y: 0,
        width: 64,
        height: 32,
        format: glow::RGBA,
        channel: glow::UNSIGNED_BYTE,
    };
    let frame = frame(64, 32);
    assert_eq!(pixel_read(&frame), whole);
    let step = Step::CheckStatus(attachment());
    match readback_next(step, Event::Status(glow::FRAMEBUFFER_COMPLETE), &frame) {
        Step::ReadPixels(read) => assert_eq!(read, whole),
        other => panic!("{other:?}"),
    }
}

#[test]
fn the_texture_is_the_first_colour_of_the_framebuffer() {
    let expected = Attachment {
        target: glow::FRAMEBUFFER,
        point: glow::COLOR_ATTACHMENT0,
        texture_target: glow::TEXTURE_2D,
        level: 0,
    };
    assert_eq!(GL_TEXTURE_2D, glow::TEXTURE_2D);
    assert_eq!(attachment(), expected);
    match readback_next(Step::CreateFramebuffer, Event::Done, &frame(1, 1)) {
        Step::CheckStatus(attachment) => assert_eq!(attachment, expected),
        other => panic!("{other:?}"),
    }
}

/// Runs a readback in which the named step fails; the steps made and the end.
fn read_back(failing: &str, status: u32) -> (Vec<String>, Result<Vec<u8>, String>) {
    let mut names = Vec::new();
    let mut step = begin(IMPORT, &frame(1, 2));
    loop {
        let name = format!("{step:?}").split(['(', ' ']).next().unwrap().to_string();
        let event = match &step {
            Step::Finished(Ok(image)) => {
                assert_eq!((image.width, image.height), (1, 2));
                return (names, Ok(image.rgba.clone()));
            }
            Step::Finished(Err(error)) => return (names, Err(error.message())),
            _ if name == failing => Event::Failed("why".to_string()),
            Step::CheckStatus(_) => Event::Status(status),
            Step::ReadPixels(_) => Event::Pixels(vec![1, 2, 3, 4, 5, 6, 7, 8]),
            _ => Event::Done,
        };
        names.push(name);
        step = readback_next(step, event, &frame(1, 2));
    }
}

#[test]
fn a_readback_cleans_up_and_is_opaque() {
    let (steps, end) = read_back("", glow::FRAMEBUFFER_COMPLETE);
    assert_eq!(end.unwrap(), [1, 2, 3, 255, 5, 6, 7, 255]);
    assert_eq!(
        steps,
        [
            "MakeCurrent",
            "CreateImage",
            "CreateTexture",
            "CreateFramebuffer",
            "CheckStatus",
            "ReadPixels",
            "DeleteFramebuffer",
            "DeleteTexture",
            "DestroyImage",
        ]
    );
}

#[test]
fn failed_readbacks_clean_up_too() {
    let (steps, end) = read_back("MakeCurrent", 0);
    assert_eq!(end.unwrap_err(), "eglMakeCurrent");
    assert_eq!(steps, ["MakeCurrent"]);
    let (steps, end) = read_back("CreateImage", 0);
    assert_eq!(end.unwrap_err(), "eglCreateImageKHR failed");
    assert_eq!(steps.last().unwrap(), "CreateImage");
    let (steps, end) = read_back("CreateTexture", 0);
    assert_eq!(end.unwrap_err(), "glGenTextures: why");
    assert_eq!(&steps[3..], ["DestroyImage"]);
    let (steps, end) = read_back("CreateFramebuffer", 0);
    assert_eq!(end.unwrap_err(), "glGenFramebuffers: why");
    assert_eq!(&steps[4..], ["DeleteTexture", "DestroyImage"]);
    let (steps, end) = read_back("", 0x8cd6);
    assert_eq!(end.unwrap_err(), "incomplete readback FBO (0x8cd6)");
    assert_eq!(&steps[5..], ["DeleteFramebuffer", "DeleteTexture", "DestroyImage"]);
    assert_eq!(read_back("", 0).1.unwrap_err(), "incomplete readback FBO (0x0)");
}

#[test]
fn textures_are_unbound_only_after_a_framebuffer() {
    let frame = frame(1, 1);
    let done = readback_next(Step::DeleteFramebuffer(Ok(vec![0; 4])), Event::Done, &frame);
    assert!(matches!(done, Step::DeleteTexture(Ok(_), true)));
    let failed = readback_next(Step::CreateFramebuffer, Event::Failed(String::new()), &frame);
    assert!(matches!(failed, Step::DeleteTexture(Err(ReadbackError::Framebuffer(_)), false)));
}

#[test]
fn some_readbacks_do_not_start() {
    let message = |step| match step {
        Step::Finished(Err(error)) => ReadbackError::message(&error),
        _ => String::new(),
    };
    assert_eq!(message(begin(None, &frame(0, 1))), "EGL dma-buf import unavailable (driver)");
    assert_eq!(message(begin(IMPORT, &frame(0, 1))), "zero-sized readback");
    assert_eq!(message(begin(IMPORT, &frame(1, 0))), "zero-sized readback");
    assert!(matches!(
        begin(IMPORT, &frame(1, 1)),
        Step::MakeCurrent(DmabufImport { modifiers: true })
    ));
}

#[test]
fn what_is_imported_is_the_frame() {
    let mut frame = frame(64, 32);
    frame.planes.push(DmabufPlane { fd: 7, offset: 1, stride: 2 });
    frame.modifier = 0x1_0000_0002;
    for modifiers in [false, true] {
        let step = begin(Some(DmabufImport { modifiers }), &frame);
        match readback_next(step, Event::Done, &frame) {
            Step::CreateImage(request) => {
                assert_eq!(request.target, 0x3270);
                assert_eq!(request.attribs, dmabuf_image_attribs(&frame, modifiers));
                assert_eq!(request.attribs.len(), if modifiers { 17 } else { 13 });
            }
            other => panic!("{other:?}"),
        }
    }
}

#[test]
fn images_have_all_pixels_of_the_frame() {
    let (_, end) = read_back("", glow::FRAMEBUFFER_COMPLETE);
    assert_eq!(end.unwrap().len(), pixel_bytes(1, 2));
}

#[test]
fn no_step_is_made_twice() {
    for failing in ["", "MakeCurrent", "CreateImage", "CreateTexture", "CreateFramebuffer"] {
        let (mut steps, _) = read_back(failing, glow::FRAMEBUFFER_COMPLETE);
        let all = steps.len();
        steps.sort();
        steps.dedup();
        assert_eq!(steps.len(), all);
    }
}

#[test]
fn only_whole_pixels_are_made_opaque() {
    let mut rgba = vec![0, 0, 0, 0, 9, 9, 9];
    force_opaque(&mut rgba);
    assert_eq!(rgba, [0, 0, 0, 255, 9, 9, 9]);
    let mut again = rgba.clone();
    force_opaque(&mut again);
    assert_eq!(again, rgba);
    let mut none: Vec<u8> = Vec::new();
    force_opaque(&mut none);
    assert!(none.is_empty());
}

#[test]
fn pixels_take_four_bytes() {
    assert_eq!(pixel_bytes(64, 32), 8192);
    assert_eq!(pixel_bytes(0, 32), 0);
}

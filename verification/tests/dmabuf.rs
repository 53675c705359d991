//! Attribute lists and extension strings.

use wlr_utils::dmabuf::{
    dmabuf_image_attribs, has_extension, load_dmabuf_egl, DmabufFrame, DmabufImport, DmabufPlane,
    EGL_ATTRIB_NONE, EGL_HEIGHT, EGL_LINUX_DRM_FOURCC_EXT, EGL_WIDTH, PLANE_ATTRS,
};

/// A frame with `n` planes, each with a distinct offset/stride so the attribute list can be
/// checked positionally.
fn frame(n: usize) -> DmabufFrame {
    let planes = (0..n)
        .map(|i| DmabufPlane { fd: 7 + i as i32, offset: 100 + i as u32, stride: 200 + i as u32 })
        .collect();
    DmabufFrame {
        planes,
        width: 64,
        height: 32,
        fourcc: 0x3432_5258,
        modifier: 0x0100_0000_0000_0008,
    }
}

/// Attribute lists are name/value pairs; look a name up.
fn get(attrs: &[i32], name: i32) -> Option<i32> {
    attrs
        .chunks_exact(2)
        .find(|c| c[0] == name)
        .map(|c| c[1])
        .filter(|_| name != EGL_ATTRIB_NONE)
}

#[test]
fn single_plane_attribs() {
    let a = dmabuf_image_attribs(&frame(1), true);
    assert_eq!(get(&a, EGL_WIDTH), Some(64));
    assert_eq!(get(&a, EGL_HEIGHT), Some(32));
    assert_eq!(get(&a, PLANE_ATTRS[0][1]), Some(100));
    assert_eq!(get(&a, PLANE_ATTRS[0][2]), Some(200));
    assert_eq!(a.last(), Some(&EGL_ATTRIB_NONE));
    // No plane 1 entry when there is only one plane.
    assert_eq!(get(&a, PLANE_ATTRS[1][0]), None);
}

#[test]
fn attribs_without_the_modifiers_extension_omit_the_modifier() {
    let a = dmabuf_image_attribs(&frame(1), false);
    assert_eq!(get(&a, PLANE_ATTRS[0][1]), Some(100));
    assert_eq!(get(&a, PLANE_ATTRS[0][3]), None);
    assert_eq!(get(&a, PLANE_ATTRS[0][4]), None);
}

#[test]
fn extension_lookup_matches_whole_names() {
    let list = "EGL_EXT_image_dma_buf_import EGL_KHR_image_base";
    assert!(has_extension(list, "EGL_EXT_image_dma_buf_import"));
    assert!(!has_extension(
        list,
        "EGL_EXT_image_dma_buf_import_modifiers"
    ));
}

/// Compressed layouts carry three planes.
#[test]
fn multi_plane_attribs_describe_every_plane() {
    for n in 2..=4 {
        let a = dmabuf_image_attribs(&frame(n), true);
        for (i, names) in PLANE_ATTRS.iter().enumerate().take(n) {
            assert_eq!(get(&a, names[1]), Some(100 + i as i32), "plane {i}");
            assert_eq!(get(&a, names[2]), Some(200 + i as i32), "plane {i}");
            // The modifier is repeated on every plane, split in halves.
            assert_eq!(get(&a, names[3]), Some(8), "plane {i}");
            assert_eq!(get(&a, names[4]), Some(0x0100_0000), "plane {i}");
        }
        assert!(get(&a, PLANE_ATTRS[n - 1][0]).is_some());
        assert_eq!(a.last(), Some(&EGL_ATTRIB_NONE));
    }
}

#[test]
fn attribs_stand_in_order() {
    let mut f = frame(1);
    f.width = u32::MAX;
    f.modifier = 0xffff_fffe_8000_0001;
    assert_eq!(
        dmabuf_image_attribs(&f, true),
        [
            EGL_WIDTH, -1, EGL_HEIGHT, 32, EGL_LINUX_DRM_FOURCC_EXT, 0x3432_5258,
            0x3272, 7, 0x3273, 100, 0x3274, 200, 0x3443, i32::MIN + 1, 0x3444, -2,
            EGL_ATTRIB_NONE,
        ]
    );
}

#[test]
fn planes_without_names_are_left_out() {
    assert_eq!(
        dmabuf_image_attribs(&frame(5), false),
        dmabuf_image_attribs(&frame(4), false)
    );
    assert_eq!(dmabuf_image_attribs(&frame(0), true).len(), 7);
}

#[test]
fn extension_names_may_stand_anywhere() {
    assert!(has_extension("  a\tbb\nccc\r\x0Cd", "bb"));
    assert!(has_extension("  a\tbb\nccc\r\x0Cd", "a"));
    assert!(has_extension("  a\tbb\nccc\r\x0Cd", "d"));
    assert!(!has_extension("  a\tbb\nccc\r\x0Cd", "cc"));
    assert!(!has_extension("a b", ""));
    assert!(!has_extension("a b", "a b"));
    assert!(!has_extension("", "a"));
    // A vertical tab and a no-break space are part of a word.
    assert!(!has_extension("a\x0Bb", "a"));
    assert!(has_extension("a\u{a0}b", "a\u{a0}b"));
}

#[test]
fn listed_names_are_found_and_no_others() {
    let names = ["EGL_KHR_image", "EGL_KHR_image_base", "EGL_EXT_image"];
    let list = names.join(" ");
    for name in names {
        assert!(has_extension(&list, name));
    }
    for other in ["EGL_KHR", "EGL_KHR_image_bas", "KHR_image", "EGL_EXT_image_dma_buf_import"] {
        assert!(!has_extension(&list, other));
    }
}

#[test]
fn import_needs_every_entry_point() {
    let list = Some("EGL_KHR_image EGL_EXT_image_dma_buf_import_modifiers");
    assert_eq!(load_dmabuf_egl(true, true, true, list), Some(DmabufImport { modifiers: true }));
    assert_eq!(
        load_dmabuf_egl(true, true, true, Some("EGL_EXT_image_dma_buf_import")),
        Some(DmabufImport { modifiers: false })
    );
    assert_eq!(load_dmabuf_egl(true, true, true, None), Some(DmabufImport { modifiers: false }));
    assert_eq!(load_dmabuf_egl(false, true, true, list), None);
    assert_eq!(load_dmabuf_egl(true, false, true, list), None);
    assert_eq!(load_dmabuf_egl(true, true, false, list), None);
}

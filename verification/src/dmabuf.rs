//! Describing a capture dma-buf to EGL.

use vstd::prelude::*;

use crate::geometry::{
    law_low_bits_are_congruent, law_signed_low_bits_are_the_low_bits, low_i32, low_u32, signed_low,
};
use crate::text::{contains_word, has_word, is_ascii_gap, word_at};

verus! {

/// Target of a dma-buf import.
pub const EGL_LINUX_DMA_BUF_EXT: u32 = 0x3270;

/// Attribute name of the width.
pub const EGL_WIDTH: i32 = 0x3057;

/// Attribute name of the height.
pub const EGL_HEIGHT: i32 = 0x3056;

/// Attribute name of the pixel format.
pub const EGL_LINUX_DRM_FOURCC_EXT: i32 = 0x3271;

/// Ends an attribute list.
pub const EGL_ATTRIB_NONE: i32 = 0x3038;

/// Per-plane attribute names, in plane order: fd, offset, pitch, modifier lo/hi. The values
/// are not contiguous across planes (planes 0 to 2 come from `EGL_EXT_image_dma_buf_import`,
/// plane 3 was added later), so they are tabulated rather than computed.
pub const PLANE_ATTRS: [[i32; 5]; 4] = [
    [0x3272, 0x3273, 0x3274, 0x3443, 0x3444],
    [0x3275, 0x3276, 0x3277, 0x3445, 0x3446],
    [0x3278, 0x3279, 0x327A, 0x3447, 0x3448],
    [0x3440, 0x3441, 0x3442, 0x3449, 0x344A],
];

/// One plane of a dma-buf.
#[derive(Clone, Copy, Debug, PartialEq, Eq, Structural)]
pub struct DmabufPlane {
    /// The file descriptor, borrowed from the frame's owner.
    pub fd: i32,
    /// Where the plane starts.
    pub offset: u32,
    /// The bytes in a row.
    pub stride: u32,
}

/// A captured frame that is still in GPU memory.
#[derive(Debug)]
pub struct DmabufFrame {
    /// The planes; a compressed layout carries auxiliary ones.
    pub planes: Vec<DmabufPlane>,
    /// Width in pixels.
    pub width: u32,
    /// Height in pixels.
    pub height: u32,
    /// The DRM pixel format.
    pub fourcc: u32,
    /// The DRM layout modifier.
    pub modifier: u64,
}

/// The attributes of plane `i`: names and values in turn. The modifier, the same for every
/// plane, comes in halves, and only where `modifiers` says that its names are known.
pub open spec fn plane_attribs(plane: DmabufPlane, i: int, modifier: u64, modifiers: bool) -> Seq<
    i32,
> {
    seq![
        PLANE_ATTRS[i][0],
        plane.fd,
        PLANE_ATTRS[i][1],
        low_i32(plane.offset as int),
        PLANE_ATTRS[i][2],
        low_i32(plane.stride as int),
    ] + if modifiers {
        seq![
            PLANE_ATTRS[i][3],
            low_i32(modifier as int),
            PLANE_ATTRS[i][4],
            low_i32(modifier as int / 0x1_0000_0000),
        ]
    } else {
        Seq::empty()
    }
}

/// The attributes of the first `n` planes.
pub open spec fn planes_attribs(
    planes: Seq<DmabufPlane>,
    n: nat,
    modifier: u64,
    modifiers: bool,
) -> Seq<i32>
    decreases n,
{
    if n == 0 {
        Seq::empty()
    } else {
        planes_attribs(planes, (n - 1) as nat, modifier, modifiers) + plane_attribs(
            planes[n - 1],
            n - 1,
            modifier,
            modifiers,
        )
    }
}

/// How many planes EGL has names for.
pub open spec fn named_planes(planes: Seq<DmabufPlane>) -> nat {
    if planes.len() < 4 {
        planes.len()
    } else {
        4
    }
}

/// The whole attribute list of a frame.
pub open spec fn frame_attribs(frame: DmabufFrame, modifiers: bool) -> Seq<i32> {
    seq![
        EGL_WIDTH,
        low_i32(frame.width as int),
        EGL_HEIGHT,
        low_i32(frame.height as int),
        EGL_LINUX_DRM_FOURCC_EXT,
        low_i32(frame.fourcc as int),
    ] + planes_attribs(
        frame.planes@,
        named_planes(frame.planes@),
        frame.modifier,
        modifiers,
    ) + seq![EGL_ATTRIB_NONE]
}

/// Builds the `EGL_LINUX_DMA_BUF_EXT` attribute list for `frame`. Every plane is described:
/// a compressed modifier carries auxiliary planes, and importing it with only the first one
/// is rejected. The fds are only borrowed, so the frame must outlive the import call.
///
/// `modifiers` gates the modifier attributes: without
/// `EGL_EXT_image_dma_buf_import_modifiers` they are not valid names and would fail the
/// import outright, so the layout is left implicit.
pub fn dmabuf_image_attribs(frame: &DmabufFrame, modifiers: bool) -> (attribs: Vec<i32>)
    ensures
        attribs@ == frame_attribs(*frame, modifiers),
{
    let mut a: Vec<i32> = vec![
        EGL_WIDTH,
        signed_low(frame.width as i64),
        EGL_HEIGHT,
        signed_low(frame.height as i64),
        EGL_LINUX_DRM_FOURCC_EXT,
        signed_low(frame.fourcc as i64),
    ];
    let ghost head = a@;
    let modifier: u64 = frame.modifier;
    let low: i32 = signed_low((modifier & 0xffff_ffff) as i64);
    let high: i32 = signed_low((modifier >> 32) as i64);
    assert(modifier & 0xffff_ffff == modifier % 0x1_0000_0000) by (bit_vector);
    assert(modifier >> 32 == modifier / 0x1_0000_0000) by (bit_vector);
    assert(low == low_i32(modifier as int));
    let mut i: usize = 0;
    assert(a@ =~= head + planes_attribs(frame.planes@, 0, modifier, modifiers));
    while i < frame.planes.len() && i < 4
        invariant
            i <= frame.planes@.len(),
            i <= 4,
            modifier == frame.modifier,
            low == low_i32(modifier as int),
            high == low_i32(modifier as int / 0x1_0000_0000),
            a@ == head + planes_attribs(frame.planes@, i as nat, modifier, modifiers),
        decreases 4 - i,
    {
        let ghost before = a@;
        let plane = frame.planes[i];
        a.push(PLANE_ATTRS[i][0]);
        a.push(plane.fd);
        a.push(PLANE_ATTRS[i][1]);
        a.push(signed_low(plane.offset as i64));
        a.push(PLANE_ATTRS[i][2]);
        a.push(signed_low(plane.stride as i64));
        if modifiers {
            a.push(PLANE_ATTRS[i][3]);
            a.push(low);
            a.push(PLANE_ATTRS[i][4]);
            a.push(high);
        }
        assert(a@ =~= before + plane_attribs(plane, i as int, modifier, modifiers));
        assert(a@ =~= head + planes_attribs(frame.planes@, (i + 1) as nat, modifier, modifiers));
        i += 1;
    }
    a.push(EGL_ATTRIB_NONE);
    assert(a@ =~= frame_attribs(*frame, modifiers));
    a
}

/// Whether `list` (a space-separated EGL extension string) contains `want`: as a whole name,
/// so that a longer name that merely starts with `want` does not count as a hit.
pub fn has_extension(list: &str, want: &str) -> (has: bool)
    ensures
        has == has_word(list@, want@),
{
    contains_word(list, want)
}

/// What a driver offers for importing dma-bufs.
#[derive(Clone, Copy, Debug, PartialEq, Eq, Structural)]
pub struct DmabufImport {
    /// Whether `EGL_EXT_image_dma_buf_import_modifiers` is available. Without it the modifier
    /// attributes are not accepted, and only implicit-layout, single-plane buffers can be
    /// imported.
    pub modifiers: bool,
}

/// Whether the display's extension string offers import with modifiers. A string that could
/// not be had offers nothing.
pub open spec fn offers_modifiers(extensions: Option<&str>) -> bool {
    extensions is Some && has_word(
        (extensions->0)@,
        "EGL_EXT_image_dma_buf_import_modifiers"@,
    )
}

/// The dma-buf import path, given which of `eglCreateImageKHR`, `eglDestroyImageKHR` and
/// `glEGLImageTargetTexture2DOES` were found and the display's extension string. `None` if
/// the driver lacks one of the entry points (then there is no GPU import path and callers
/// fall back to whatever shm provided).
pub fn load_dmabuf_egl(
    create_image: bool,
    destroy_image: bool,
    image_target: bool,
    extensions: Option<&str>,
) -> (import: Option<DmabufImport>)
    ensures
        import is Some <==> create_image && destroy_image && image_target,
        import is Some ==> (import->0).modifiers == offers_modifiers(extensions),
{
    if !create_image || !destroy_image || !image_target {
        return None;
    }
    let modifiers = match extensions {
        Some(list) => has_extension(list, "EGL_EXT_image_dma_buf_import_modifiers"),
        None => false,
    };
    Some(DmabufImport { modifiers })
}

/// The value of an attribute: that after the first place where its name stands as a name.
pub open spec fn value_of(attribs: Seq<i32>, name: i32) -> Option<i32>
    decreases attribs.len(),
{
    if attribs.len() < 2 {
        None
    } else if attribs[0] == name {
        Some(attribs[1])
    } else {
        value_of(attribs.skip(2), name)
    }
}

/// Looking through two lists of pairs in a row.
proof fn lemma_value_of_add(a: Seq<i32>, b: Seq<i32>, name: i32)
    requires
        a.len() % 2 == 0,
    ensures
        value_of(a + b, name) == (if value_of(a, name) is Some {
            value_of(a, name)
        } else {
            value_of(b, name)
        }),
    decreases a.len(),
{
    if a.len() == 0 {
        assert(a + b =~= b);
    } else {
        assert((a + b).skip(2) =~= a.skip(2) + b);
        if a[0] != name {
            lemma_value_of_add(a.skip(2), b, name);
        }
    }
}

/// What one plane's attributes hold under each plane's names.
proof fn lemma_plane_values(
    plane: DmabufPlane,
    i: int,
    modifier: u64,
    modifiers: bool,
    k: int,
    j: int,
)
    requires
        0 <= i < 4,
        0 <= k < 4,
        0 <= j < 5,
    ensures
        plane_attribs(plane, i, modifier, modifiers).len() % 2 == 0,
        value_of(plane_attribs(plane, i, modifier, modifiers), PLANE_ATTRS[k][j]) == (if i == k {
            plane_value(plane, modifier, modifiers, j)
        } else {
            None
        }),
{
    let a = plane_attribs(plane, i, modifier, modifiers);
    let name = PLANE_ATTRS[k][j];
    reveal_with_fuel(value_of, 6);
    assert(a.skip(2).skip(2) =~= a.skip(4));
    assert(a.skip(4).skip(2) =~= a.skip(6));
    if modifiers {
        assert(a.len() == 10);
        assert(a.skip(6).skip(2) =~= a.skip(8));
        assert(a.skip(8).skip(2) =~= Seq::empty());
    } else {
        assert(a.len() == 6);
        assert(a.skip(6) =~= Seq::empty());
    }
}

/// The value under the `j`-th name of a plane.
pub open spec fn plane_value(plane: DmabufPlane, modifier: u64, modifiers: bool, j: int) -> Option<
    i32,
> {
    if j == 0 {
        Some(plane.fd)
    } else if j == 1 {
        Some(low_i32(plane.offset as int))
    } else if j == 2 {
        Some(low_i32(plane.stride as int))
    } else if !modifiers {
        None
    } else if j == 3 {
        Some(low_i32(modifier as int))
    } else {
        Some(low_i32(modifier as int / 0x1_0000_0000))
    }
}

proof fn lemma_planes_values(
    planes: Seq<DmabufPlane>,
    n: nat,
    modifier: u64,
    modifiers: bool,
    k: int,
    j: int,
)
    requires
        n <= planes.len(),
        n <= 4,
        0 <= k < 4,
        0 <= j < 5,
    ensures
        planes_attribs(planes, n, modifier, modifiers).len() % 2 == 0,
        value_of(planes_attribs(planes, n, modifier, modifiers), PLANE_ATTRS[k][j]) == (if k < n {
            plane_value(planes[k], modifier, modifiers, j)
        } else {
            None
        }),
    decreases n,
{
    if n > 0 {
        lemma_planes_values(planes, (n - 1) as nat, modifier, modifiers, k, j);
        lemma_plane_values(planes[n - 1], n - 1, modifier, modifiers, k, j);
        lemma_value_of_add(
            planes_attribs(planes, (n - 1) as nat, modifier, modifiers),
            plane_attribs(planes[n - 1], n - 1, modifier, modifiers),
            PLANE_ATTRS[k][j],
        );
    }
}

/// The attribute list describes the frame: under each plane's names stand that plane's
/// values, with the modifier repeated on every plane and split in halves; without the
/// modifiers extension no modifier name has a value; and names of planes that the frame does
/// not have, have none.
pub proof fn law_attribs_describe_every_plane(
    frame: DmabufFrame,
    modifiers: bool,
    k: int,
    j: int,
)
    requires
        0 <= k < 4,
        0 <= j < 5,
    ensures
        value_of(frame_attribs(frame, modifiers), PLANE_ATTRS[k][j]) == (if k
            < frame.planes@.len() {
            plane_value(frame.planes@[k], frame.modifier, modifiers, j)
        } else {
            None
        }),
{
    let name = PLANE_ATTRS[k][j];
    let head = seq![
        EGL_WIDTH,
        low_i32(frame.width as int),
        EGL_HEIGHT,
        low_i32(frame.height as int),
        EGL_LINUX_DRM_FOURCC_EXT,
        low_i32(frame.fourcc as int),
    ];
    let n = named_planes(frame.planes@);
    let planes = planes_attribs(frame.planes@, n, frame.modifier, modifiers);
    lemma_planes_values(frame.planes@, n, frame.modifier, modifiers, k, j);
    lemma_value_of_add(planes, seq![EGL_ATTRIB_NONE], name);
    lemma_value_of_add(head, planes + seq![EGL_ATTRIB_NONE], name);
    assert(head + planes + seq![EGL_ATTRIB_NONE] =~= head + (planes + seq![EGL_ATTRIB_NONE]));
    reveal_with_fuel(value_of, 4);
    assert(head.skip(2).skip(2) =~= head.skip(4));
    assert(head.skip(4).skip(2) =~= Seq::empty());
}

/// The attribute list holds the frame's size and format, and ends with the end mark.
pub proof fn law_attribs_describe_the_frame(frame: DmabufFrame, modifiers: bool)
    ensures
        value_of(frame_attribs(frame, modifiers), EGL_WIDTH) == Some(low_i32(frame.width as int)),
        value_of(frame_attribs(frame, modifiers), EGL_HEIGHT) == Some(
            low_i32(frame.height as int),
        ),
        value_of(frame_attribs(frame, modifiers), EGL_LINUX_DRM_FOURCC_EXT) == Some(
            low_i32(frame.fourcc as int),
        ),
        frame_attribs(frame, modifiers).last() == EGL_ATTRIB_NONE,
        frame_attribs(frame, modifiers).len() == 7 + named_planes(frame.planes@) * (if modifiers {
            10int
        } else {
            6int
        }),
{
    let a = frame_attribs(frame, modifiers);
    reveal_with_fuel(value_of, 4);
    assert(a.skip(2).skip(2) =~= a.skip(4));
    lemma_planes_len(frame.planes@, named_planes(frame.planes@), frame.modifier, modifiers);
}

proof fn lemma_planes_len(
    planes: Seq<DmabufPlane>,
    n: nat,
    modifier: u64,
    modifiers: bool,
)
    ensures
        planes_attribs(planes, n, modifier, modifiers).len() == n * (if modifiers {
            10int
        } else {
            6int
        }),
    decreases n,
{
    if n > 0 {
        lemma_planes_len(planes, (n - 1) as nat, modifier, modifiers);
    }
}

/// Extension names as a driver lists them, with a space between one and the next.
pub open spec fn listed(names: Seq<Seq<char>>) -> Seq<char>
    decreases names.len(),
{
    if names.len() == 0 {
        Seq::empty()
    } else if names.len() == 1 {
        names[0]
    } else {
        listed(names.drop_last()) + seq![' '] + names.last()
    }
}

/// Whether a text can be a name: it has characters, and none of them is a gap.
pub open spec fn is_name(name: Seq<char>) -> bool {
    name.len() > 0 && forall|k: int| 0 <= k < name.len() ==> !is_ascii_gap(#[trigger] name[k])
}

/// Extension lookup matches whole names: in a list of names exactly those are found that are
/// in it, and so not one that another merely starts with.
pub proof fn law_extension_lookup_matches_whole_names(names: Seq<Seq<char>>, want: Seq<char>)
    requires
        forall|i: int| 0 <= i < names.len() ==> is_name(#[trigger] names[i]),
    ensures
        has_word(listed(names), want) <==> names.contains(want),
    decreases names.len(),
{
    if names.len() == 1 {
        lemma_name_is_one_word(names[0], want);
        assert(names[0] == want ==> names.contains(want));
    } else if names.len() > 1 {
        let front = names.drop_last();
        assert forall|i: int| 0 <= i < front.len() implies is_name(#[trigger] front[i]) by {
            assert(front[i] == names[i]);
        }
        law_extension_lookup_matches_whole_names(front, want);
        lemma_name_is_one_word(names.last(), want);
        lemma_words_around_a_gap(listed(front), names.last(), want);
        if front.contains(want) {
            let k = choose|k: int| 0 <= k < front.len() && front[k] == want;
            assert(names[k] == want);
        }
        if names.contains(want) && names.last() != want {
            let k = choose|k: int| 0 <= k < names.len() && names[k] == want;
            assert(front[k] == want);
        }
    }
}

proof fn lemma_name_is_one_word(name: Seq<char>, want: Seq<char>)
    requires
        is_name(name),
    ensures
        has_word(name, want) <==> want == name,
{
    assert forall|i: int, j: int| #[trigger] word_at(name, i, j) implies i == 0 && j
        == name.len() by {}
    assert(name.subrange(0, name.len() as int) =~= name);
    assert(word_at(name, 0, name.len() as int));
}

proof fn lemma_words_around_a_gap(a: Seq<char>, b: Seq<char>, want: Seq<char>)
    ensures
        has_word(a + seq![' '] + b, want) <==> has_word(a, want) || has_word(b, want),
{
    let text = a + seq![' '] + b;
    if has_word(text, want) {
        let (i, j) = choose|i: int, j: int| #[trigger]
            word_at(text, i, j) && text.subrange(i, j) == want;
        lemma_word_beside_gap(a, b, i, j);
    }
    if has_word(a, want) {
        let (i, j) = choose|i: int, j: int| #[trigger]
            word_at(a, i, j) && a.subrange(i, j) == want;
        lemma_word_before_gap(a, b, i, j);
    }
    if has_word(b, want) {
        let (i, j) = choose|i: int, j: int| #[trigger]
            word_at(b, i, j) && b.subrange(i, j) == want;
        lemma_word_after_gap(a, b, i, j);
    }
}

/// A word of two texts with a gap between them is a word of one of them.
proof fn lemma_word_beside_gap(a: Seq<char>, b: Seq<char>, i: int, j: int)
    requires
        word_at(a + seq![' '] + b, i, j),
    ensures
        has_word(a, (a + seq![' '] + b).subrange(i, j)) || has_word(
            b,
            (a + seq![' '] + b).subrange(i, j),
        ),
{
    let text = a + seq![' '] + b;
    let g = a.len() as int;
    assert(text[g] == ' ');
    if j <= g {
        assert forall|k: int| i <= k < j implies !is_ascii_gap(#[trigger] a[k]) by {
            assert(text[k] == a[k]);
        }
        if i > 0 {
            assert(text[i - 1] == a[i - 1]);
        }
        if j < g {
            assert(text[j] == a[j]);
        }
        assert(word_at(a, i, j));
        assert(a.subrange(i, j) =~= text.subrange(i, j));
    } else {
        assert(i > g) by {
            if i <= g {
                assert(!is_ascii_gap(text[g]));
            }
        }
        let p = i - g - 1;
        let q = j - g - 1;
        assert forall|k: int| p <= k < q implies !is_ascii_gap(#[trigger] b[k]) by {
            assert(text[k + g + 1] == b[k]);
        }
        if p > 0 {
            assert(text[i - 1] == b[p - 1]);
        }
        if q < b.len() {
            assert(text[j] == b[q]);
        }
        assert(word_at(b, p, q));
        assert(b.subrange(p, q) =~= text.subrange(i, j));
    }
}

/// A word before a gap stays a word.
proof fn lemma_word_before_gap(a: Seq<char>, b: Seq<char>, i: int, j: int)
    requires
        word_at(a, i, j),
    ensures
        has_word(a + seq![' '] + b, a.subrange(i, j)),
{
    let text = a + seq![' '] + b;
    assert forall|k: int| i <= k < j implies !is_ascii_gap(#[trigger] text[k]) by {
        assert(text[k] == a[k]);
    }
    if i > 0 {
        assert(text[i - 1] == a[i - 1]);
    }
    if j < a.len() {
        assert(text[j] == a[j]);
    } else {
        assert(text[j] == ' ');
    }
    assert(word_at(text, i, j));
    assert(text.subrange(i, j) =~= a.subrange(i, j));
}

/// A word after a gap stays a word.
proof fn lemma_word_after_gap(a: Seq<char>, b: Seq<char>, p: int, q: int)
    requires
        word_at(b, p, q),
    ensures
        has_word(a + seq![' '] + b, b.subrange(p, q)),
{
    let text = a + seq![' '] + b;
    let i = p + a.len() + 1;
    let j = q + a.len() + 1;
    assert forall|k: int| i <= k < j implies !is_ascii_gap(#[trigger] text[k]) by {
        assert(text[k] == b[k - a.len() - 1]);
    }
    if p > 0 {
        assert(text[i - 1] == b[p - 1]);
    } else {
        assert(text[i - 1] == ' ');
    }
    if q < b.len() {
        assert(text[j] == b[q]);
    }
    assert(word_at(text, i, j));
    assert(text.subrange(i, j) =~= b.subrange(p, q));
}

/// The attribute names of the planes: the first three planes' come in one run of nine, the
/// fourth's in a run of their own, and the halves of the modifier in pairs.
pub proof fn law_plane_names_run_on(k: int, j: int)
    requires
        0 <= k < 4,
        0 <= j < 5,
    ensures
        j < 3 && k < 3 ==> PLANE_ATTRS[k][j] == 0x3272 + 3 * k + j,
        j < 3 && k == 3 ==> PLANE_ATTRS[k][j] == 0x3440 + j,
        j >= 3 ==> PLANE_ATTRS[k][j] == 0x3443 + 2 * k + (j - 3),
{
}

/// The attribute list starts with the width, the height and the format, each after its name, and
/// ends with the end mark.
pub proof fn law_attribs_start_with_the_frame(frame: DmabufFrame, modifiers: bool)
    ensures
        ({
            let a = frame_attribs(frame, modifiers);
            &&& a[0] == 0x3057
            &&& (a[1] - frame.width) % 0x1_0000_0000 == 0
            &&& a[2] == 0x3056
            &&& (a[3] - frame.height) % 0x1_0000_0000 == 0
            &&& a[4] == 0x3271
            &&& (a[5] - frame.fourcc) % 0x1_0000_0000 == 0
            &&& a[a.len() - 1] == 0x3038
            &&& frame.planes@.len() == 0 ==> a.len() == 7
        }),
{
    law_attribs_describe_the_frame(frame, modifiers);
    law_low_bits_are_congruent(frame.width as int);
    law_low_bits_are_congruent(frame.height as int);
    law_low_bits_are_congruent(frame.fourcc as int);
}

/// After the frame come the planes in their order, up to the fourth: each its descriptor, its
/// offset and its stride, and, where the driver knows modifiers, the low and the high half of
/// the frame's modifier, every value after its plane's own name for it. Nothing else is in the
/// list.
pub proof fn law_attribs_list_plane_after_plane(frame: DmabufFrame, modifiers: bool, k: int)
    requires
        0 <= k < frame.planes@.len(),
        k < 4,
    ensures
        ({
            let a = frame_attribs(frame, modifiers);
            let planes: int = if frame.planes@.len() < 4 {
                frame.planes@.len() as int
            } else {
                4
            };
            let at = if modifiers {
                6 + 10 * k
            } else {
                6 + 6 * k
            };
            &&& a.len() == if modifiers {
                7 + 10 * planes
            } else {
                7 + 6 * planes
            }
            &&& a[at] == PLANE_ATTRS[k][0]
            &&& a[at + 1] == frame.planes@[k].fd
            &&& a[at + 2] == PLANE_ATTRS[k][1]
            &&& (a[at + 3] - frame.planes@[k].offset) % 0x1_0000_0000 == 0
            &&& a[at + 4] == PLANE_ATTRS[k][2]
            &&& (a[at + 5] - frame.planes@[k].stride) % 0x1_0000_0000 == 0
            &&& modifiers ==> {
                &&& a[at + 6] == PLANE_ATTRS[k][3]
                &&& (a[at + 7] - frame.modifier) % 0x1_0000_0000 == 0
                &&& a[at + 8] == PLANE_ATTRS[k][4]
                &&& (a[at + 9] - frame.modifier as int / 0x1_0000_0000) % 0x1_0000_0000 == 0
            }
        }),
{
    let plane = frame.planes@[k];
    let own = plane_attribs(plane, k, frame.modifier, modifiers);
    let a = frame_attribs(frame, modifiers);
    let at = 6 + plane_start(k, modifiers);
    law_attribs_describe_the_frame(frame, modifiers);
    lemma_plane_stands_in_list(frame, modifiers, k);
    law_low_bits_are_congruent(plane.offset as int);
    law_low_bits_are_congruent(plane.stride as int);
    law_low_bits_are_congruent(frame.modifier as int);
    law_low_bits_are_congruent(frame.modifier as int / 0x1_0000_0000);
    assert(stands(a, at, own, 0) && stands(a, at, own, 1) && stands(a, at, own, 2));
    assert(stands(a, at, own, 3) && stands(a, at, own, 4) && stands(a, at, own, 5));
    if modifiers {
        assert(stands(a, at, own, 6) && stands(a, at, own, 7));
        assert(stands(a, at, own, 8) && stands(a, at, own, 9));
    }
}

/// How many attributes stand before those of a plane, those of the frame aside.
spec fn plane_start(k: int, modifiers: bool) -> int {
    if modifiers {
        10 * k
    } else {
        6 * k
    }
}

/// Whether the `i`-th item of a list stands in another, counted from a place on.
spec fn stands(outer: Seq<i32>, at: int, inner: Seq<i32>, i: int) -> bool {
    outer[at + i] == inner[i]
}

/// Where the attributes of a plane stand in the whole list.
proof fn lemma_plane_stands_in_list(frame: DmabufFrame, modifiers: bool, k: int)
    requires
        0 <= k < frame.planes@.len(),
        k < 4,
    ensures
        forall|i: int|
            0 <= i < plane_start(1, modifiers) ==> #[trigger] stands(
                frame_attribs(frame, modifiers),
                6 + plane_start(k, modifiers),
                plane_attribs(frame.planes@[k], k, frame.modifier, modifiers),
                i,
            ),
{
    let n = named_planes(frame.planes@);
    let part = planes_attribs(frame.planes@, n, frame.modifier, modifiers);
    let own = plane_attribs(frame.planes@[k], k, frame.modifier, modifiers);
    let a = frame_attribs(frame, modifiers);
    let at = plane_start(k, modifiers);
    lemma_planes_len(frame.planes@, n, frame.modifier, modifiers);
    lemma_plane_stands(frame.planes@, n, frame.modifier, modifiers, k);
    assert forall|i: int| 0 <= i < plane_start(1, modifiers) implies #[trigger] stands(
        a,
        6 + at,
        own,
        i,
    ) by {
        assert(stands(part, at, own, i));
        assert(a[6 + (at + i)] == part[at + i]);
    }
}

/// Where the attributes of a plane stand among those of the first planes.
proof fn lemma_plane_stands(
    planes: Seq<DmabufPlane>,
    n: nat,
    modifier: u64,
    modifiers: bool,
    k: int,
)
    requires
        0 <= k < n,
    ensures
        forall|i: int|
            0 <= i < plane_start(1, modifiers) ==> #[trigger] stands(
                planes_attribs(planes, n, modifier, modifiers),
                plane_start(k, modifiers),
                plane_attribs(planes[k], k, modifier, modifiers),
                i,
            ),
    decreases n,
{
    let front = planes_attribs(planes, (n - 1) as nat, modifier, modifiers);
    let last = plane_attribs(planes[n - 1], n - 1, modifier, modifiers);
    let own = plane_attribs(planes[k], k, modifier, modifiers);
    let at = plane_start(k, modifiers);
    lemma_planes_len(planes, (n - 1) as nat, modifier, modifiers);
    assert(front.len() == plane_start(n - 1, modifiers));
    if k < n - 1 {
        lemma_plane_stands(planes, (n - 1) as nat, modifier, modifiers, k);
        assert forall|i: int| 0 <= i < plane_start(1, modifiers) implies #[trigger] stands(
            front + last,
            at,
            own,
            i,
        ) by {
            assert(stands(front, at, own, i));
        }
    }
}

/// The two halves that stand for a modifier in the list make up the modifier.
pub proof fn law_modifier_is_its_halves(frame: DmabufFrame, k: int)
    requires
        0 <= k < frame.planes@.len(),
        k < 4,
    ensures
        ({
            let a = frame_attribs(frame, true);
            let low = low_u32(a[6 + 10 * k + 7] as int);
            let high = low_u32(a[6 + 10 * k + 9] as int);
            high * 0x1_0000_0000 + low == frame.modifier
        }),
{
    let a = frame_attribs(frame, true);
    let own = plane_attribs(frame.planes@[k], k, frame.modifier, true);
    let m = frame.modifier as int;
    lemma_plane_stands_in_list(frame, true, k);
    assert(stands(a, 6 + plane_start(k, true), own, 7));
    assert(stands(a, 6 + plane_start(k, true), own, 9));
    assert(a[6 + 10 * k + 7] == low_i32(m));
    assert(a[6 + 10 * k + 9] == low_i32(m / 0x1_0000_0000));
    lemma_halves(m);
}

/// The low and the high half of a 64-bit number, each taken through a signed number.
proof fn lemma_halves(m: int)
    requires
        0 <= m <= u64::MAX,
    ensures
        low_u32(low_i32(m / 0x1_0000_0000) as int) * 0x1_0000_0000 + low_u32(low_i32(m) as int)
            == m,
{
    law_signed_low_bits_are_the_low_bits(m);
    law_signed_low_bits_are_the_low_bits(m / 0x1_0000_0000);
    assert(m / 0x1_0000_0000 <= u32::MAX);
    assert(low_u32(m / 0x1_0000_0000) == m / 0x1_0000_0000);
    assert(low_u32(m) == m % 0x1_0000_0000);
}

/// Import with modifiers is offered exactly where the extension string has that very name in it.
pub proof fn law_modifiers_go_by_the_extension(list: &str)
    ensures
        offers_modifiers(Some(list)) <==> has_word(
            list@,
            "EGL_EXT_image_dma_buf_import_modifiers"@,
        ),
        !offers_modifiers(None),
{
}

} // verus!

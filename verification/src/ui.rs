use vstd::prelude::*;

use crate::desktop::{WindowId, WorkspaceId};

verus! {

/// An 8-bit RGBA color.
#[derive(Clone, Copy, Debug, PartialEq, Eq, Structural)]
pub struct Color {
    pub red: u8,
    pub green: u8,
    pub blue: u8,
    pub alpha: u8,
}

impl Color {
    /// Background of panels and the bar.
    pub fn background() -> (c: Color)
        ensures
            c == (Color { red: 21, green: 29, blue: 40, alpha: 255 }),
    {
        Color { red: 21, green: 29, blue: 40, alpha: 255 }
    }

    /// Highlight for the active workspace and the focused window.
    pub fn accent() -> (c: Color)
        ensures
            c == (Color { red: 93, green: 173, blue: 226, alpha: 255 }),
    {
        Color { red: 93, green: 173, blue: 226, alpha: 255 }
    }

    /// Foreground of text.
    pub fn text() -> (c: Color)
        ensures
            c == (Color { red: 240, green: 244, blue: 248, alpha: 255 }),
    {
        Color { red: 240, green: 244, blue: 248, alpha: 255 }
    }

    /// Builds a color from its four channels.
    pub fn rgba(red: u8, green: u8, blue: u8, alpha: u8) -> (c: Self)
        ensures
            c == (Color { red, green, blue, alpha }),
    {
        Color { red, green, blue, alpha }
    }
}

} // verus!

verus! {

/// An RGBA8 image whose pixel storage is shared between clones.
#[derive(Debug)]
pub struct UiImage {
    width: u32,
    height: u32,
    pixels: std::sync::Arc<Vec<u8>>,
}

/// Whether `len` bytes form a tightly packed RGBA8 image of the given size.
pub open spec fn is_rgba_layout(width: int, height: int, len: int) -> bool {
    width > 0 && height > 0 && len == width * height * 4
}

impl Clone for UiImage {
    /// A clone is the same image and shares its pixel storage.
    fn clone(&self) -> (r: Self)
        ensures
            r == *self,
    {
        proof {
            use_type_invariant(self);
        }
        UiImage { width: self.width, height: self.height, pixels: self.pixels.clone() }
    }
}

impl UiImage {
    /// The image width in pixels.
    pub closed spec fn spec_width(&self) -> u32 {
        self.width
    }

    /// The image height in pixels.
    pub closed spec fn spec_height(&self) -> u32 {
        self.height
    }

    /// The RGBA8 bytes of the image, row by row.
    pub closed spec fn spec_pixels(&self) -> Seq<u8> {
        self.pixels@
    }

    /// The shape every image keeps: a non-empty size and exactly four bytes per pixel.
    pub closed spec fn wf(&self) -> bool {
        is_rgba_layout(self.width as int, self.height as int, self.pixels@.len() as int)
    }

    /// Every image has the shape `wf` describes.
    #[verifier::type_invariant]
    spec fn shape_invariant(&self) -> bool {
        self.wf()
    }

    /// Wraps packed RGBA8 bytes; refuses an empty size and a byte count that
    /// does not match `width * height * 4`.
    pub fn from_rgba(width: u32, height: u32, pixels: Vec<u8>) -> (r: Option<Self>)
        ensures
            r is Some <==> is_rgba_layout(width as int, height as int, pixels@.len() as int),
            r matches Some(img) ==> {
                &&& img.wf()
                &&& img.spec_width() == width
                &&& img.spec_height() == height
                &&& img.spec_pixels() == pixels@
            },
    {
        let w = width as usize;
        let h = height as usize;
        let len = pixels.len();
        let expected = match w.checked_mul(h) {
            Some(n) => match n.checked_mul(4) {
                Some(n4) => n4,
                None => {
                    proof {
                        assert(w * h * 4 > usize::MAX) by (nonlinear_arith)
                            requires n == w * h, n * 4 > usize::MAX;
                    }
                    return None;
                },
            },
            None => {
                proof {
                    assert(w * h * 4 > usize::MAX) by (nonlinear_arith)
                        requires w * h > usize::MAX;
                }
                return None;
            },
        };
        if len != expected || width == 0 || height == 0 {
            return None;
        }
        Some(UiImage { width, height, pixels: std::sync::Arc::new(pixels) })
    }

    /// The image width in pixels.
    pub fn width(&self) -> (w: u32)
        ensures
            w == self.spec_width(),
            self.wf(),
    {
        proof {
            use_type_invariant(self);
        }
        self.width
    }

    /// The image height in pixels.
    pub fn height(&self) -> (h: u32)
        ensures
            h == self.spec_height(),
            self.wf(),
    {
        proof {
            use_type_invariant(self);
        }
        self.height
    }

    /// The RGBA8 bytes of the image.
    pub fn pixels(&self) -> (p: &[u8])
        ensures
            p@ == self.spec_pixels(),
            is_rgba_layout(self.spec_width() as int, self.spec_height() as int, p@.len() as int),
    {
        proof {
            use_type_invariant(self);
        }
        self.pixels.as_slice()
    }
}

} // verus!

verus! {

/// Identifier of a node in a UI scene.
#[derive(Clone, Copy, Debug, PartialEq, Eq, Structural)]
pub struct NodeId(pub u64);

/// What activating a scene element asks the shell to do.
#[derive(Clone, Copy, Debug, PartialEq, Eq, Structural)]
pub enum UiAction {
    CloseOverview,
    FocusWorkspace(WorkspaceId),
    FocusWindow(WindowId),
    RestoreWindow(WindowId),
}

/// A decoded preview of one workspace.
#[derive(Clone, Debug)]
pub struct WorkspacePreviewImage {
    pub workspace: WorkspaceId,
    pub image: UiImage,
}

} // verus!

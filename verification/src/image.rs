//! Pixel data sources and GPU-backed images.
//!
//! [`ImageData`] is the capability a renderer reads pixels through;
//! [`BasicImageData`] is the in-memory implementation owning its byte
//! buffer. [`Image`] pairs a pixel source with an optional GPU texture
//! handle and owns that handle's lifetime: destroying the image hands the
//! handle back exactly once, for the GPU shell to release.

use vstd::prelude::*;

use crate::geometry::Size2D;

verus! {

/// Byte layout of pixel data.
#[derive(Clone, Copy, PartialEq, Eq, Structural, Debug)]
pub enum Format {
    ARGB32Format,
    RGB24Format,
}

/// How many bytes one pixel of the format occupies.
pub open spec fn spec_bytes_per_pixel(format: Format) -> nat {
    match format {
        Format::ARGB32Format => 4,
        Format::RGB24Format => 3,
    }
}

/// How many bytes one pixel of the format occupies.
pub fn bytes_per_pixel(format: Format) -> (n: usize)
    ensures
        n == spec_bytes_per_pixel(format),
{
    match format {
        Format::ARGB32Format => 4,
        Format::RGB24Format => 3,
    }
}

/// A source of raw pixel bytes with size, stride and format metadata and
/// scoped read access to the bytes.
pub trait ImageData {
    /// Pixel dimensions of the source.
    spec fn spec_size(&self) -> Size2D;

    /// Row length in pixels.
    spec fn spec_stride(&self) -> usize;

    /// Byte layout of the pixels.
    spec fn spec_format(&self) -> Format;

    /// The buffer of raw bytes the source hands to a reader.
    spec fn spec_buffer(&self) -> Vec<u8>;

    fn size(&self) -> (r: Size2D)
        ensures
            r == self.spec_size(),
    ;

    /// Stride is in pixels, not bytes, after GL row-length conventions.
    fn stride(&self) -> (r: usize)
        ensures
            r == self.spec_stride(),
    ;

    fn format(&self) -> (r: Format)
        ensures
            r == self.spec_format(),
    ;

    /// Invokes `f` exactly once, synchronously, on a byte view holding
    /// exactly `spec_buffer()`; the view is valid only for the call.
    fn with_data<R, F: FnOnce(&Vec<u8>) -> R>(&self, f: F) -> (r: R)
        requires
            call_requires(f, (&self.spec_buffer(),)),
        ensures
            call_ensures(f, (&self.spec_buffer(),), r),
    ;
}

/// An in-memory pixel source that owns its byte buffer. Immutable after
/// construction.
#[derive(Clone, PartialEq, Eq, Debug)]
pub struct BasicImageData {
    pub size: Size2D,
    pub stride: usize,
    pub format: Format,
    pub data: Vec<u8>,
}

impl BasicImageData {
    /// Stores the arguments verbatim. The buffer must cover
    /// `stride * height` pixels of the given format, and a row must be at
    /// least as long as the image is wide.
    pub fn new(size: Size2D, stride: usize, format: Format, data: Vec<u8>) -> (r:
        BasicImageData)
        requires
            stride >= size.width,
            data@.len() >= size.height * stride * spec_bytes_per_pixel(format),
        ensures
            r.size == size,
            r.stride == stride,
            r.format == format,
            r.data@ == data@,
    {
        BasicImageData { size, stride, format, data }
    }
}

impl ImageData for BasicImageData {
    open spec fn spec_size(&self) -> Size2D {
        self.size
    }

    open spec fn spec_stride(&self) -> usize {
        self.stride
    }

    open spec fn spec_format(&self) -> Format {
        self.format
    }

    open spec fn spec_buffer(&self) -> Vec<u8> {
        self.data
    }

    fn size(&self) -> (r: Size2D) {
        self.size
    }

    fn stride(&self) -> (r: usize) {
        self.stride
    }

    fn format(&self) -> (r: Format) {
        self.format
    }

    fn with_data<R, F: FnOnce(&Vec<u8>) -> R>(&self, f: F) -> (r: R) {
        f(&self.data)
    }
}

/// An image: a pixel source plus an optional GPU texture handle (a GL
/// object name, 32 bits). A present handle names a live GPU resource
/// owned by this image alone; destroying the image reports the handle
/// exactly once, for the GPU shell to release.
pub struct Image<D> {
    pub data: D,
    pub texture: Option<u32>,
}

impl<D> Image<D> {
    /// The handle that destroying this image must release: the present
    /// texture, if any.
    pub open spec fn spec_release(self) -> Option<u32> {
        self.texture
    }

    /// A fresh image over `data`, with no texture yet; a renderer
    /// populates the texture later.
    pub fn new(data: D) -> (img: Image<D>)
        ensures
            img.data == data,
            img.texture is None,
    {
        Image { data, texture: None }
    }

    /// Hands the image its texture handle. Demanding that none is
    /// present keeps at most one live texture per image, so destruction
    /// has at most one handle to release.
    pub fn set_texture(&mut self, texture: u32)
        requires
            old(self).texture is None,
        ensures
            final(self).texture == Some(texture),
            final(self).data == old(self).data,
    {
        self.texture = Some(texture);
    }

    /// Takes the texture handle out, leaving none behind: a second take
    /// yields nothing, so no handle can be released twice.
    pub fn take_texture(&mut self) -> (r: Option<u32>)
        ensures
            r == old(self).texture,
            final(self).texture is None,
            final(self).data == old(self).data,
    {
        let t = self.texture;
        self.texture = None;
        t
    }

    /// Destroys the image and reports the handle to release: exactly the
    /// present texture. The image is consumed, so destruction - and the
    /// release it reports - happens once on every exit path.
    pub fn destroy(self) -> (r: Option<u32>)
        ensures
            r == self.spec_release(),
    {
        self.texture
    }
}

/// Law: destroying an image that holds texture handle `t` releases
/// exactly `t`: `destroy` reports `Some(t)`, and consuming the image
/// makes a second report impossible, whatever exit path runs it.
pub proof fn lemma_destroy_releases_present_texture<D>(img: Image<D>, t: u32)
    requires
        img.texture == Some(t),
    ensures
        img.spec_release() == Some(t),
{
}

/// Law: destroying an image that holds no texture releases nothing.
pub proof fn lemma_destroy_without_texture_releases_nothing<D>(img: Image<D>)
    requires
        img.texture is None,
    ensures
        img.spec_release() is None,
{
}

} // verus!

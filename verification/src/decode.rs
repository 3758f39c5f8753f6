//! H.264 software decoding (openh264) into RGBA frames.
use openh264::formats::YUVSource;
use vstd::prelude::*;

verus! {

/// One decoded picture, ready for texture upload.
pub struct DecodedFrame {
    pub width: u32,
    pub height: u32,
    /// RGBA, row-major (alpha is 255).
    pub rgba: Vec<u8>,
}

#[verifier::external_type_specification]
#[verifier::external_body]
pub struct ExDecoder(openh264::decoder::Decoder);

/// `Decoder::new`: a decoder with default settings.
#[verifier::external_body]
fn new_decoder() -> (r: Result<openh264::decoder::Decoder, openh264::Error>) {
    openh264::decoder::Decoder::new()
}

/// Every pixel of the RGBA bytes has alpha 255.
pub open spec fn opaque_pixels(rgba: Seq<u8>) -> bool {
    forall|i: int| 0 <= i < rgba.len() / 4 ==> #[trigger] rgba[4 * i + 3] == 255
}

/// `Decoder::decode` on the bytes handed over (recorded in the decoder), the
/// picture (if any) turned into plain values: its `dimensions()` (width, then
/// height; recorded in the decoder as the pictures it gave out), and the RGBA
/// bytes that `write_rgba8` fills into a buffer of `estimate_rgba_u8_size()`
/// (`w * h * 4`) bytes, setting every alpha byte to 255. Whether a picture
/// comes back, and its pixels, depend on what the decoder has buffered.
#[verifier::external_body]
fn decode_packet(dec: &mut VideoDecoder, nal: &[u8]) -> (r: Result<
    Option<(usize, usize, Vec<u8>)>,
    openh264::Error,
>)
    ensures
        final(dec).spec_fed() == old(dec).spec_fed().push(nal@),
        r matches Ok(Some(picture)) ==> final(dec).spec_pictures() == old(dec).spec_pictures().push(
            (picture.0, picture.1),
        ),
        !(r matches Ok(Some(_))) ==> final(dec).spec_pictures() == old(dec).spec_pictures(),
        r matches Ok(Some(picture)) ==> picture.2@.len() == picture.0 * picture.1 * 4,
        r matches Ok(Some(picture)) ==> opaque_pixels(picture.2@),
{
    dec.decoder.decode(nal).map(
        |picture|
            picture.map(
                |yuv| {
                    let (w, h) = yuv.dimensions();
                    let mut rgba = vec![0u8; yuv.estimate_rgba_u8_size()];
                    yuv.write_rgba8(&mut rgba);
                    (w, h, rgba)
                },
            ),
    )
}

/// Why decoding failed.
#[derive(Debug, Clone, Copy, PartialEq, Eq, Structural)]
pub enum DecodeError {
    /// openh264 could not be set up.
    Create,
    /// The packet could not be decoded.
    Decode,
}

/// The frame for a decoded picture of `width` x `height` pixels (the sizes are
/// narrowed to `u32` as `as` does).
pub fn frame_of_picture(width: usize, height: usize, rgba: Vec<u8>) -> (f: DecodedFrame)
    ensures
        f.width == width as u32,
        f.height == height as u32,
        f.rgba@ == rgba@,
{
    DecodedFrame { width: width as u32, height: height as u32, rgba }
}

/// The frame holds the RGBA bytes of a `w` x `h` picture, its sizes narrowed to `u32`.
pub open spec fn picture_size(f: DecodedFrame, w: usize, h: usize) -> bool {
    f.width == w as u32 && f.height == h as u32 && f.rgba@.len() == w * h * 4
}

/// A frame of a picture keeps its orientation: its width is the picture's
/// width and its height the picture's height (for sizes that fit a `u32`),
/// its bytes are `height` rows of `width` four-byte pixels, and, unless the
/// picture is square, the frame with width and height exchanged is not it.
pub proof fn law_frame_keeps_picture_orientation(f: DecodedFrame, w: usize, h: usize)
    requires
        picture_size(f, w, h),
        w <= u32::MAX,
        h <= u32::MAX,
    ensures
        f.width == w,
        f.height == h,
        f.rgba@.len() == f.width * f.height * 4,
        w != h ==> !picture_size(f, h, w),
{
}

/// H.264 software decoder.
pub struct VideoDecoder {
    decoder: openh264::decoder::Decoder,
    /// The byte packets handed to openh264 so far.
    fed: Ghost<Seq<Seq<u8>>>,
    /// The pictures openh264 gave out so far, as their `dimensions()` (width, height).
    pictures: Ghost<Seq<(usize, usize)>>,
}

impl VideoDecoder {
    /// The byte packets handed to openh264 so far, oldest first.
    pub closed spec fn spec_fed(&self) -> Seq<Seq<u8>> {
        self.fed@
    }

    /// The pictures openh264 gave out so far, as (width, height), oldest first.
    pub closed spec fn spec_pictures(&self) -> Seq<(usize, usize)> {
        self.pictures@
    }

    /// A decoder with openh264's default settings; `Create` when openh264
    /// cannot set one up.
    pub fn new() -> (r: Result<VideoDecoder, DecodeError>)
        ensures
            r matches Err(e) ==> e == DecodeError::Create,
            r matches Ok(d) ==> d.spec_fed() == Seq::<Seq<u8>>::empty(),
            r matches Ok(d) ==> d.spec_pictures() == Seq::<(usize, usize)>::empty(),
    {
        match new_decoder() {
            Ok(decoder) => Ok(
                VideoDecoder { decoder, fed: Ghost(Seq::empty()), pictures: Ghost(Seq::empty()) },
            ),
            Err(_) => Err(DecodeError::Create),
        }
    }

    /// Decodes one or more NAL units: the bytes are handed to openh264 as they
    /// are. `None` while the decoder is buffering; a picture comes back as a
    /// frame of its size (openh264's width as the width, its height as the
    /// height) with opaque RGBA pixels.
    pub fn decode_nal(&mut self, nal: &[u8]) -> (r: Result<Option<DecodedFrame>, DecodeError>)
        ensures
            final(self).spec_fed() == old(self).spec_fed().push(nal@),
            r matches Ok(Some(f)) ==> final(self).spec_pictures().len() == old(
                self,
            ).spec_pictures().len() + 1 && final(self).spec_pictures().drop_last() == old(
                self,
            ).spec_pictures() && picture_size(
                f,
                final(self).spec_pictures().last().0,
                final(self).spec_pictures().last().1,
            ),
            !(r matches Ok(Some(_))) ==> final(self).spec_pictures() == old(self).spec_pictures(),
            r matches Ok(Some(f)) ==> exists|w: usize, h: usize| #[trigger]
                picture_size(f, w, h),
            r matches Ok(Some(f)) ==> opaque_pixels(f.rgba@),
            r matches Err(e) ==> e == DecodeError::Decode,
    {
        match decode_packet(self, nal) {
            Err(_) => Err(DecodeError::Decode),
            Ok(None) => Ok(None),
            Ok(Some((w, h, rgba))) => {
                let f = frame_of_picture(w, h, rgba);
                assert(picture_size(f, w, h));
                assert(self.spec_pictures().drop_last() =~= old(self).spec_pictures());
                let r = Ok(Some(f));
                assert(r matches Ok(Some(g)) && picture_size(g, w, h));
                r
            },
        }
    }
}

} // verus!

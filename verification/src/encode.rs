//! H.264 software encoding (openh264) and the framing of its output.
use vstd::prelude::*;

verus! {

/// One encoded packet, ready for the video channel.
pub struct EncodedPacket {
    pub is_keyframe: bool,
    pub is_config: bool,
    pub pts: u64,
    pub data: Vec<u8>,
}

/// A 4-byte Annex B start code `00 00 00 01` at `i`.
pub open spec fn start_code4_at(data: Seq<u8>, i: int) -> bool {
    data[i] == 0 && data[i + 1] == 0 && data[i + 2] == 0 && data[i + 3] == 1
}

/// A 3-byte Annex B start code `00 00 01` at `i`.
pub open spec fn start_code3_at(data: Seq<u8>, i: int) -> bool {
    data[i] == 0 && data[i + 1] == 0 && data[i + 2] == 1
}

/// The NAL unit type after the first start code at or after `i`: at each
/// position a 4-byte code (when a header byte follows it) is tried before a
/// 3-byte code (when a header byte follows it); 0 when there is none.
pub open spec fn nal_type_from(data: Seq<u8>, i: int) -> u8
    decreases data.len() - i,
{
    if i < 0 || i + 3 >= data.len() {
        0
    } else if i + 4 < data.len() && start_code4_at(data, i) {
        data[i + 4] & 0x1Fu8
    } else if start_code3_at(data, i) {
        data[i + 3] & 0x1Fu8
    } else {
        nal_type_from(data, i + 1)
    }
}

/// The NAL unit type of the first NAL unit in an Annex B bitstream (0 if none).
pub open spec fn first_nal_type(data: Seq<u8>) -> u8 {
    nal_type_from(data, 0)
}

/// Finds the NAL unit type of the first NAL unit in the bitstream; 0 if not found.
pub fn find_first_nal_type(data: &[u8]) -> (t: u8)
    ensures
        t == first_nal_type(data@),
{
    let n = data.len();
    let mut i: usize = 0;
    while i < n && n - i > 3
        invariant
            n == data@.len(),
            i <= n,
            nal_type_from(data@, 0) == nal_type_from(data@, i as int),
        decreases n - i,
    {
        if n - i > 4 && data[i] == 0 && data[i + 1] == 0 && data[i + 2] == 0 && data[i + 3] == 1 {
            return data[i + 4] & 0x1F;
        }
        if data[i] == 0 && data[i + 1] == 0 && data[i + 2] == 1 {
            return data[i + 3] & 0x1F;
        }
        i = i + 1;
    }
    0
}

/// SPS (7) and PPS (8) NAL units carry the decoder configuration.
pub open spec fn is_config_nal(t: u8) -> bool {
    t == 7 || t == 8
}

/// An IDR slice (5) starts a keyframe.
pub open spec fn is_keyframe_nal(t: u8) -> bool {
    t == 5
}

/// The packets an encoder output becomes: none for an empty bitstream, else
/// the whole bitstream as one packet, flagged by the type of its first NAL unit.
pub fn packets_for_bitstream(bitstream: Vec<u8>, pts: u64) -> (pkts: Vec<EncodedPacket>)
    ensures
        bitstream@.len() == 0 ==> pkts@.len() == 0,
        bitstream@.len() > 0 ==> {
            &&& pkts@.len() == 1
            &&& pkts@[0].data@ == bitstream@
            &&& pkts@[0].pts == pts
            &&& pkts@[0].is_config == is_config_nal(first_nal_type(bitstream@))
            &&& pkts@[0].is_keyframe == is_keyframe_nal(first_nal_type(bitstream@))
        },
{
    let mut pkts: Vec<EncodedPacket> = Vec::new();
    if bitstream.len() == 0 {
        return pkts;
    }
    let t = find_first_nal_type(bitstream.as_slice());
    let is_config = t == 7 || t == 8;
    let is_keyframe = t == 5;
    pkts.push(EncodedPacket { is_keyframe, is_config, pts, data: bitstream });
    pkts
}

/// What one encoded frame gives: at most one packet, with a non-empty payload
/// stamped `pts` and flagged by the type of its first NAL unit.
pub open spec fn frame_packets(pkts: Seq<EncodedPacket>, pts: u64) -> bool {
    &&& pkts.len() <= 1
    &&& forall|k: int|
        0 <= k < pkts.len() ==> {
            &&& #[trigger] pkts[k].pts == pts
            &&& pkts[k].data@.len() > 0
            &&& pkts[k].is_config == is_config_nal(first_nal_type(pkts[k].data@))
            &&& pkts[k].is_keyframe == is_keyframe_nal(first_nal_type(pkts[k].data@))
        }
}

/// The packets carry one encoder output whole: none for an empty output, else
/// one packet holding all of its bytes, stamped `pts` and flagged by the type
/// of its first NAL unit.
pub open spec fn packets_carry(pkts: Seq<EncodedPacket>, out: Seq<u8>, pts: u64) -> bool {
    &&& out.len() == 0 ==> pkts.len() == 0
    &&& out.len() > 0 ==> {
        &&& pkts.len() == 1
        &&& pkts[0].data@ == out
        &&& pkts[0].pts == pts
        &&& pkts[0].is_config == is_config_nal(first_nal_type(out))
        &&& pkts[0].is_keyframe == is_keyframe_nal(first_nal_type(out))
    }
}

#[verifier::external_type_specification]
#[verifier::external_body]
pub struct ExEncoder(openh264::encoder::Encoder);

#[verifier::external_type_specification]
#[verifier::external_body]
pub struct ExOpenH264Error(openh264::Error);

/// One frame through openh264: `YUVBuffer::new(width, height)` filled by
/// `read_rgb8` from the RGB bytes (RGB to YUV 4:2:0), then `Encoder::encode`,
/// the bitstream copied out with `to_vec`. What comes back depends on the
/// encoder's state (rate control, keyframe interval), so the frame handed over
/// and the bitstream that came back are recorded. openh264 panics on odd sizes or on a slice whose length is
/// not `width * height * 3`.
#[verifier::external_body]
fn encode_frame(enc: &mut VideoEncoder, rgb: &[u8], width: usize, height: usize) -> (r: Result<
    Vec<u8>,
    openh264::Error,
>)
    requires
        width % 2 == 0,
        height % 2 == 0,
        rgb@.len() == width * height * 3,
    ensures
        final(enc).spec_frames() == old(enc).spec_frames().push((rgb@, width, height)),
        r matches Ok(b) ==> final(enc).spec_outputs() == old(enc).spec_outputs().push(b@),
        r is Err ==> final(enc).spec_outputs() == old(enc).spec_outputs(),
        final(enc).spec_pts() == old(enc).spec_pts(),
        final(enc).spec_width() == old(enc).spec_width(),
        final(enc).spec_height() == old(enc).spec_height(),
{
    let mut yuv = openh264::formats::YUVBuffer::new(width, height);
    yuv.read_rgb8(openh264::formats::RgbSliceU8::new(rgb, (width, height)));
    enc.encoder.encode(&yuv).map(|bitstream| bitstream.to_vec())
}

/// Why a frame could not be encoded.
#[derive(Debug, Clone, Copy, PartialEq, Eq, Structural)]
pub enum EncodeError {
    /// openh264 refused the frame.
    Encoder,
}

/// H.264 software encoder for frames of a fixed size.
pub struct VideoEncoder {
    encoder: openh264::encoder::Encoder,
    pts: u64,
    width: u32,
    height: u32,
    /// The frames handed to openh264 so far, each as its RGB bytes, width and height.
    frames: Ghost<Seq<(Seq<u8>, usize, usize)>>,
    /// The bitstreams openh264 gave back so far.
    outputs: Ghost<Seq<Seq<u8>>>,
}

impl VideoEncoder {
    /// The frames handed to openh264 so far (RGB bytes, width, height), oldest first.
    pub closed spec fn spec_frames(&self) -> Seq<(Seq<u8>, usize, usize)> {
        self.frames@
    }

    /// The bitstreams openh264 gave back so far, oldest first.
    pub closed spec fn spec_outputs(&self) -> Seq<Seq<u8>> {
        self.outputs@
    }

    pub closed spec fn spec_width(&self) -> u32 {
        self.width
    }

    pub closed spec fn spec_height(&self) -> u32 {
        self.height
    }

    /// The presentation timestamp the next frame gets.
    pub closed spec fn spec_pts(&self) -> u64 {
        self.pts
    }

    /// An encoder for `width` x `height` frames, around an openh264 encoder
    /// configured by the caller; timestamps start at 0.
    pub fn from_encoder(encoder: openh264::encoder::Encoder, width: u32, height: u32) -> (e: Self)
        ensures
            e.spec_width() == width,
            e.spec_height() == height,
            e.spec_pts() == 0,
            e.spec_frames() == Seq::<(Seq<u8>, usize, usize)>::empty(),
            e.spec_outputs() == Seq::<Seq<u8>>::empty(),
    {
        VideoEncoder {
            encoder,
            pts: 0,
            width,
            height,
            frames: Ghost(Seq::empty()),
            outputs: Ghost(Seq::empty()),
        }
    }

    /// The frame size, `(width, height)`.
    pub fn resolution(&self) -> (r: (u32, u32))
        ensures
            r == (self.spec_width(), self.spec_height()),
    {
        (self.width, self.height)
    }

    /// The timestamp the next frame gets.
    pub fn next_pts(&self) -> (pts: u64)
        ensures
            pts == self.spec_pts(),
    {
        self.pts
    }

    /// Encodes one RGB frame (3 bytes per pixel, row-major), handing openh264
    /// the frame at the encoder's size: zero or one packet,
    /// stamped with the frame's timestamp; the next frame gets the next one.
    pub fn encode_rgb(&mut self, rgb: &[u8]) -> (r: Result<Vec<EncodedPacket>, EncodeError>)
        requires
            old(self).spec_width() % 2 == 0,
            old(self).spec_height() % 2 == 0,
            rgb@.len() == old(self).spec_width() * old(self).spec_height() * 3,
            old(self).spec_pts() < u64::MAX,
        ensures
            final(self).spec_pts() == old(self).spec_pts() + 1,
            final(self).spec_width() == old(self).spec_width(),
            final(self).spec_height() == old(self).spec_height(),
            final(self).spec_frames() == old(self).spec_frames().push(
                (rgb@, old(self).spec_width() as usize, old(self).spec_height() as usize),
            ),
            r matches Ok(pkts) ==> frame_packets(pkts@, old(self).spec_pts()),
            r matches Ok(pkts) ==> final(self).spec_outputs().len() == old(
                self,
            ).spec_outputs().len() + 1 && final(self).spec_outputs().drop_last() == old(
                self,
            ).spec_outputs() && packets_carry(
                pkts@,
                final(self).spec_outputs().last(),
                old(self).spec_pts(),
            ),
            r is Err ==> final(self).spec_outputs() == old(self).spec_outputs(),
    {
        let w = self.width as usize;
        let h = self.height as usize;
        assert(w * h * 3 == self.width * self.height * 3);
        let pts = self.pts;
        self.pts = self.pts + 1;
        let bitstream = match encode_frame(self, rgb, w, h) {
            Ok(b) => b,
            Err(_) => return Err(EncodeError::Encoder),
        };
        assert(self.spec_outputs().drop_last() =~= old(self).spec_outputs());
        Ok(packets_for_bitstream(bitstream, pts))
    }
}

} // verus!

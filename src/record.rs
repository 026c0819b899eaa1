//! Record shapes carried by the link and their decoding from a COBS frame.
use vstd::prelude::*;

verus! {

/// A record shape that can be decoded from the bytes of one COBS frame
/// (the encoded bytes, without the terminating zero).
pub trait Record: Sized + View {
    /// The value that the frame `frame` decodes to, or `None` if it is not a
    /// valid encoding of this shape.
    spec fn from_frame(frame: Seq<u8>) -> Option<Self::V>;

    /// Decodes `storage[..len]`, which may be overwritten while decoding.
    fn decode_frame(storage: &mut Vec<u8>, len: usize) -> (r: Option<Self>)
        requires
            len <= old(storage)@.len(),
        ensures
            final(storage)@.len() == old(storage)@.len(),
            match r {
                Some(t) => Self::from_frame(old(storage)@.subrange(0, len as int)) == Some(t@),
                None => Self::from_frame(old(storage)@.subrange(0, len as int)) is None,
            },
    ;

    /// The magnetometer X and Y axes of the value `v`.
    spec fn axes_of(v: Self::V) -> (i16, i16);

    /// The magnetometer X and Y axes.
    fn magnetometer(&self) -> (r: (i16, i16))
        ensures
            r == Self::axes_of(self@),
    ;
}

/// What postcard decodes from the COBS frame `frame` as the tuple
/// `(i16, i16, String)`, the string given by its characters.
pub uninterp spec fn postcard_cobs_mag(frame: Seq<u8>) -> Option<(i16, i16, Seq<char>)>;

/// Relies on postcard::from_bytes_cobs, which undoes the COBS stuffing of
/// `storage[..len]` in place and decodes the result as `(i16, i16, String)`;
/// it depends on those bytes alone and never changes the vector's length.
#[verifier::external_body]
fn postcard_decode_mag(storage: &mut Vec<u8>, len: usize) -> (r: Option<(i16, i16, String)>)
    requires
        len <= old(storage)@.len(),
    ensures
        final(storage)@.len() == old(storage)@.len(),
        match postcard_cobs_mag(old(storage)@.subrange(0, len as int)) {
            Some(v) => r matches Some(w) && w.0 == v.0 && w.1 == v.1 && w.2@ == v.2,
            None => r is None,
        },
{
    postcard::from_bytes_cobs::<(i16, i16, String)>(&mut storage[..len]).ok()
}

/// What postcard decodes from the COBS frame `frame` as the tuple
/// `(i16, i16, [u8; 4], [u8; 4], [u8; 4], i8)`, each 4-byte group read as a
/// little-endian `u32`. postcard writes an `f32` as the four little-endian
/// bytes of its bit pattern, so those three values are the bit patterns of
/// the float fields of a telemetry record.
pub uninterp spec fn postcard_cobs_telemetry(frame: Seq<u8>) -> Option<(i16, i16, u32, u32, u32, i8)>;

/// Relies on postcard::from_bytes_cobs, which undoes the COBS stuffing of
/// `storage[..len]` in place and decodes the result as
/// `(i16, i16, [u8; 4], [u8; 4], [u8; 4], i8)`; it depends on those bytes
/// alone and never changes the vector's length.
#[verifier::external_body]
fn postcard_decode_telemetry(storage: &mut Vec<u8>, len: usize) -> (r: Option<(i16, i16, u32, u32, u32, i8)>)
    requires
        len <= old(storage)@.len(),
    ensures
        final(storage)@.len() == old(storage)@.len(),
        r == postcard_cobs_telemetry(old(storage)@.subrange(0, len as int)),
{
    let decoded = postcard::from_bytes_cobs::<(i16, i16, [u8; 4], [u8; 4], [u8; 4], i8)>(&mut storage[..len]);
    decoded.ok().map(|(a, b, c, d, e, f)| (a, b, u32::from_le_bytes(c), u32::from_le_bytes(d), u32::from_le_bytes(e), f))
}

/// The COBS frame, terminator included, that postcard writes for the tuple
/// `(i16, i16, [u8; 4], [u8; 4], [u8; 4], i8)`, each `u32` of `v` written
/// as its four little-endian bytes (as postcard writes an `f32`).
pub uninterp spec fn postcard_cobs_telemetry_bytes(v: (i16, i16, u32, u32, u32, i8)) -> Seq<u8>;

/// Relies on postcard::to_slice_cobs, which writes the COBS frame of its
/// value, terminator included, at the start of `buf`, and fails only when
/// `buf` is too short for it.
#[verifier::external_body]
fn postcard_encode_telemetry(v: (i16, i16, u32, u32, u32, i8), buf: &mut Vec<u8>) -> (r: Option<usize>)
    ensures
        final(buf)@.len() == old(buf)@.len(),
        match r {
            Some(n) => n == postcard_cobs_telemetry_bytes(v).len() && n <= old(buf)@.len()
                && final(buf)@.subrange(0, n as int) == postcard_cobs_telemetry_bytes(v),
            None => postcard_cobs_telemetry_bytes(v).len() > old(buf)@.len(),
        },
{
    let (a, b, c, d, e, f) = v;
    let value = (a, b, c.to_le_bytes(), d.to_le_bytes(), e.to_le_bytes(), f);
    postcard::to_slice_cobs(&value, &mut buf[..]).ok().map(|used| used.len())
}

/// The largest payload that the radio carries in one packet.
pub const RADIO_PAYLOAD: usize = 32;

/// The minimal record shape: the two magnetometer axes and a short command
/// tag.
pub struct MagSample {
    pub x: i16,
    pub y: i16,
    pub command: String,
}

impl View for MagSample {
    type V = (i16, i16, Seq<char>);

    open spec fn view(&self) -> (i16, i16, Seq<char>) {
        (self.x, self.y, self.command@)
    }
}

impl Record for MagSample {
    open spec fn from_frame(frame: Seq<u8>) -> Option<(i16, i16, Seq<char>)> {
        postcard_cobs_mag(frame)
    }

    open spec fn axes_of(v: (i16, i16, Seq<char>)) -> (i16, i16) {
        (v.0, v.1)
    }

    fn magnetometer(&self) -> (r: (i16, i16)) {
        (self.x, self.y)
    }

    fn decode_frame(storage: &mut Vec<u8>, len: usize) -> (r: Option<MagSample>) {
        match postcard_decode_mag(storage, len) {
            Some((x, y, command)) => Some(MagSample { x, y, command }),
            None => None,
        }
    }
}

/// The full record shape: magnetometer X/Y, three gyroscope rates and the
/// temperature. The rates are `f32` on the wire; they are held here as their
/// bit patterns (`f32::to_bits`).
#[derive(Clone, Copy, Debug, PartialEq, Eq, Structural)]
pub struct Telemetry {
    pub mag_x: i16,
    pub mag_y: i16,
    pub gyro_x_bits: u32,
    pub gyro_y_bits: u32,
    pub gyro_z_bits: u32,
    pub temp: i8,
}

impl View for Telemetry {
    type V = (i16, i16, u32, u32, u32, i8);

    open spec fn view(&self) -> (i16, i16, u32, u32, u32, i8) {
        (self.mag_x, self.mag_y, self.gyro_x_bits, self.gyro_y_bits, self.gyro_z_bits, self.temp)
    }
}

impl Telemetry {
    /// The COBS frame of this record, terminator included, as the sensor
    /// board sends it; `None` where it would not fit in one radio packet.
    pub fn encode_frame(&self) -> (r: Option<Vec<u8>>)
        ensures
            match r {
                Some(b) => b@ == postcard_cobs_telemetry_bytes(self@),
                None => postcard_cobs_telemetry_bytes(self@).len() > RADIO_PAYLOAD,
            },
    {
        let mut buf: Vec<u8> = vec![0u8; RADIO_PAYLOAD];
        let fields = (self.mag_x, self.mag_y, self.gyro_x_bits, self.gyro_y_bits, self.gyro_z_bits, self.temp);
        match postcard_encode_telemetry(fields, &mut buf) {
            Some(n) => {
                buf.truncate(n);
                Some(buf)
            },
            None => None,
        }
    }
}

impl Record for Telemetry {
    open spec fn from_frame(frame: Seq<u8>) -> Option<(i16, i16, u32, u32, u32, i8)> {
        postcard_cobs_telemetry(frame)
    }

    open spec fn axes_of(v: (i16, i16, u32, u32, u32, i8)) -> (i16, i16) {
        (v.0, v.1)
    }

    fn magnetometer(&self) -> (r: (i16, i16)) {
        (self.mag_x, self.mag_y)
    }

    fn decode_frame(storage: &mut Vec<u8>, len: usize) -> (r: Option<Telemetry>) {
        match postcard_decode_telemetry(storage, len) {
            Some((mag_x, mag_y, gyro_x_bits, gyro_y_bits, gyro_z_bits, temp)) => Some(
                Telemetry { mag_x, mag_y, gyro_x_bits, gyro_y_bits, gyro_z_bits, temp },
            ),
            None => None,
        }
    }
}

} // verus!

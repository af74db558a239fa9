//! Frames: a payload behind its length, as manifest files hold it.

use tokio_util::bytes::BytesMut;
use tokio_util::codec::{Decoder, Encoder, LengthDelimitedCodec};
use vstd::prelude::*;

verus! {

/// The length of the head of a frame.
pub const HEAD_LEN: usize = 4;

/// The length of the longest payload that a frame can carry.
pub const MAX_PAYLOAD_LEN: usize = 8_388_608;

/// Why bytes could not be put into a frame or taken out of one.
#[derive(Clone, Copy, Debug, PartialEq, Eq, Structural)]
pub enum FrameError {
    /// The payload is longer than a frame can carry.
    TooBig,
    /// The frame ends before its payload does.
    Truncated,
}

/// The errors of the codec.
#[verifier::external_type_specification]
#[verifier::external_body]
pub struct ExIoError(std::io::Error);

/// The head of a frame: the length of its payload in big-endian order.
pub open spec fn head(len: nat) -> Seq<u8> {
    seq![
        (len / 0x100_0000 % 0x100) as u8,
        (len / 0x1_0000 % 0x100) as u8,
        (len / 0x100 % 0x100) as u8,
        (len % 0x100) as u8,
    ]
}

/// The length that the head of `bytes` announces.
pub open spec fn announced_len(bytes: Seq<u8>) -> nat
    recommends
        bytes.len() >= HEAD_LEN,
{
    (bytes[0] * 0x100_0000 + bytes[1] * 0x1_0000 + bytes[2] * 0x100 + bytes[3]) as nat
}

/// The frame that carries `payload`.
pub open spec fn framed(payload: Seq<u8>) -> Seq<u8> {
    head(payload.len()) + payload
}

/// What the first frame of a stream that holds exactly `bytes` comes to: its
/// payload; nothing, where the stream ends before a frame or right behind a
/// head; or an error.
pub open spec fn first_payload(bytes: Seq<u8>) -> Result<Option<Seq<u8>>, FrameError> {
    if bytes.len() == 0 {
        Ok(None)
    } else if bytes.len() < HEAD_LEN {
        Err(FrameError::Truncated)
    } else if announced_len(bytes) > MAX_PAYLOAD_LEN {
        Err(FrameError::TooBig)
    } else if bytes.len() >= HEAD_LEN + announced_len(bytes) {
        Ok(Some(bytes.subrange(HEAD_LEN as int, HEAD_LEN + announced_len(bytes))))
    } else if bytes.len() == HEAD_LEN {
        Ok(None)
    } else {
        Err(FrameError::Truncated)
    }
}

/// Calls `encode` of a fresh `tokio_util::codec::LengthDelimitedCodec`. With
/// its default settings the codec refuses a payload of more than eight
/// mebibytes, and puts any other behind four bytes that hold its length.
#[verifier::external_body]
fn codec_encode(payload: &[u8]) -> (res: Result<Vec<u8>, std::io::Error>)
    ensures
        res is Ok <==> payload@.len() <= MAX_PAYLOAD_LEN,
        res matches Ok(frame) ==> frame@ == framed(payload@),
{
    let mut frame = BytesMut::new();
    LengthDelimitedCodec::new().encode(payload, &mut frame)?;
    Ok(frame.to_vec())
}

/// Calls `decode_eof` of a fresh `tokio_util::codec::LengthDelimitedCodec` on
/// a buffer that holds `bytes`: the codec reads the head, refuses a length of
/// more than eight mebibytes, and takes the payload out if it is all there. If
/// it is not, bytes that were not taken as a head are an error.
#[verifier::external_body]
fn codec_decode_eof(bytes: &[u8]) -> (res: Result<Option<Vec<u8>>, std::io::Error>)
    ensures
        match res {
            Ok(Some(payload)) => first_payload(bytes@) == Ok::<_, FrameError>(Some(payload@)),
            Ok(None) => first_payload(bytes@) == Ok::<_, FrameError>(None::<Seq<u8>>),
            Err(_) => first_payload(bytes@) is Err,
        },
{
    let mut buffer = BytesMut::from(bytes);
    match LengthDelimitedCodec::new().decode_eof(&mut buffer)? {
        Some(payload) => Ok(Some(payload.to_vec())),
        None => Ok(None),
    }
}

/// Puts `payload` into a frame.
pub fn encode(payload: &[u8]) -> (res: Result<Vec<u8>, FrameError>)
    ensures
        match res {
            Ok(frame) => {
                &&& payload@.len() <= MAX_PAYLOAD_LEN
                &&& frame@ == framed(payload@)
                &&& frame@.len() == 4 + payload@.len()
                &&& frame@[0] * 0x100_0000 + frame@[1] * 0x1_0000 + frame@[2] * 0x100 + frame@[3]
                    == payload@.len()
                &&& frame@.skip(4) == payload@
            },
            Err(error) => payload@.len() > MAX_PAYLOAD_LEN && error == FrameError::TooBig,
        },
{
    match codec_encode(payload) {
        Ok(frame) => {
            proof {
                law_frame_is_length_and_payload(payload@);
            }
            Ok(frame)
        },
        Err(_) => Err(FrameError::TooBig),
    }
}

/// Takes the payload of the first frame out of a stream that holds exactly
/// `bytes`.
pub fn decode(bytes: &[u8]) -> (res: Result<Option<Vec<u8>>, FrameError>)
    ensures
        match res {
            Ok(Some(payload)) => first_payload(bytes@) == Ok::<_, FrameError>(Some(payload@)),
            Ok(None) => first_payload(bytes@) == Ok::<_, FrameError>(None::<Seq<u8>>),
            Err(error) => first_payload(bytes@) == Err::<Option<Seq<u8>>, _>(error),
        },
        ({
            let len = bytes@[0] * 0x100_0000 + bytes@[1] * 0x1_0000 + bytes@[2] * 0x100 + bytes@[3];
            match res {
                Ok(Some(payload)) => {
                    &&& 4 + len <= bytes@.len()
                    &&& len <= 8_388_608
                    &&& payload@ == bytes@.subrange(4, 4 + len)
                },
                Ok(None) => bytes@.len() == 0 || (bytes@.len() == 4 && 0 < len <= 8_388_608),
                Err(FrameError::TooBig) => bytes@.len() >= 4 && len > 8_388_608,
                Err(FrameError::Truncated) => 0 < bytes@.len() < 4 || (4 < bytes@.len() < 4 + len
                    && len <= 8_388_608),
            }
        }),
{
    match codec_decode_eof(bytes) {
        Ok(payload) => Ok(payload),
        Err(_) => {
            if bytes.len() < HEAD_LEN {
                return Err(FrameError::Truncated);
            }
            let announced: u64 = bytes[0] as u64 * 0x100_0000 + bytes[1] as u64 * 0x1_0000
                + bytes[2] as u64 * 0x100 + bytes[3] as u64;
            if announced > MAX_PAYLOAD_LEN as u64 {
                Err(FrameError::TooBig)
            } else {
                Err(FrameError::Truncated)
            }
        },
    }
}

/// A frame is the length of its payload in four bytes, the highest first, and then
/// the payload.
pub proof fn law_frame_is_length_and_payload(payload: Seq<u8>)
    requires
        payload.len() <= MAX_PAYLOAD_LEN,
    ensures
        framed(payload).len() == 4 + payload.len(),
        framed(payload)[0] * 0x100_0000 + framed(payload)[1] * 0x1_0000 + framed(payload)[2] * 0x100
            + framed(payload)[3] == payload.len(),
        framed(payload).skip(4) == payload,
{
    assert(framed(payload).skip(4) =~= payload);
}

/// A payload that fits into a frame comes back out of it, whatever follows the
/// frame.
pub proof fn law_frame_round_trip(payload: Seq<u8>, rest: Seq<u8>)
    requires
        payload.len() <= MAX_PAYLOAD_LEN,
    ensures
        first_payload(framed(payload) + rest) == Ok::<_, FrameError>(Some(payload)),
{
    let bytes = framed(payload) + rest;
    assert(announced_len(bytes) == payload.len());
    assert(bytes.subrange(HEAD_LEN as int, HEAD_LEN + payload.len()) =~= payload);
}

/// A frame that was cut short gives no payload.
pub proof fn law_cut_frame_gives_nothing(payload: Seq<u8>, kept: int)
    requires
        payload.len() <= MAX_PAYLOAD_LEN,
        0 <= kept < framed(payload).len(),
    ensures
        !(first_payload(framed(payload).take(kept)) matches Ok(Some(_))),
{
    let bytes = framed(payload).take(kept);
    if kept >= HEAD_LEN {
        assert(announced_len(bytes) == payload.len());
    }
}

} // verus!

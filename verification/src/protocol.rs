//! The byte protocol the embedding page uses to push game messages.
//!
//! A buffer is a run of frames:
//! - `OP_FLIP_PLAYER_SPRITE` (no payload)
//! - `OP_LOG_DEBUG`, a `u16` little-endian length, then that many bytes of
//!   UTF-8 text (invalid sequences are replaced)
//!
//! Unknown opcodes are skipped so that later extensions stay readable.

use std::collections::VecDeque;
use vstd::prelude::*;
use vstd::utf8::{decode_utf8, valid_utf8};

verus! {

pub const OP_FLIP_PLAYER_SPRITE: u8 = 1;

pub const OP_LOG_DEBUG: u8 = 2;

/// A message for the game loop.
#[derive(Debug, Clone)]
pub enum GameMessage {
    FlipPlayerSprite,
    Log(String),
}

/// A message as the contracts see it.
pub enum MessageSpec {
    FlipPlayerSprite,
    Log(Seq<char>),
}

impl View for GameMessage {
    type V = MessageSpec;

    open spec fn view(&self) -> MessageSpec {
        match self {
            GameMessage::FlipPlayerSprite => MessageSpec::FlipPlayerSprite,
            GameMessage::Log(s) => MessageSpec::Log(s@),
        }
    }
}

/// The text `String::from_utf8_lossy` makes of `bytes`.
pub uninterp spec fn utf8_lossy(bytes: Seq<u8>) -> Seq<char>;

/// `String::from_utf8_lossy(bytes).into_owned()`: by its documentation, valid
/// UTF-8 decodes to the characters it encodes; for other input the result
/// (with replacement characters) is named, not described.
#[verifier::external_body]
fn lossy_text(bytes: &[u8]) -> (r: String)
    ensures
        r@ == utf8_lossy(bytes@),
        valid_utf8(bytes@) ==> r@ == decode_utf8(bytes@),
{
    String::from_utf8_lossy(bytes).into_owned()
}

/// The text a log payload decodes to: the characters valid UTF-8 encodes,
/// otherwise what `String::from_utf8_lossy` makes of the bytes.
pub open spec fn log_text(bytes: Seq<u8>) -> Seq<char> {
    if valid_utf8(bytes) {
        decode_utf8(bytes)
    } else {
        utf8_lossy(bytes)
    }
}

/// The payload length stored little-endian in `lo`, `hi`.
pub open spec fn le_u16(lo: u8, hi: u8) -> int {
    lo + 256 * hi
}

/// The messages decoded from the frames starting at `cursor`, and whether
/// decoding stopped on a truncated frame.
pub open spec fn decode_from(bytes: Seq<u8>, cursor: int) -> (
    Seq<MessageSpec>,
    Result<(), &'static str>,
)
    decreases bytes.len() - cursor,
{
    if cursor < 0 || cursor >= bytes.len() {
        (Seq::empty(), Ok(()))
    } else if bytes[cursor] == OP_FLIP_PLAYER_SPRITE {
        let (rest, r) = decode_from(bytes, cursor + 1);
        (seq![MessageSpec::FlipPlayerSprite] + rest, r)
    } else if bytes[cursor] == OP_LOG_DEBUG {
        if cursor + 2 >= bytes.len() {
            (Seq::empty(), Err("truncated log length"))
        } else {
            let len = le_u16(bytes[cursor + 1], bytes[cursor + 2]);
            let start = cursor + 3;
            if start + len > bytes.len() {
                (Seq::empty(), Err("truncated log payload"))
            } else {
                let (rest, r) = decode_from(bytes, start + len);
                (
                    seq![MessageSpec::Log(log_text(bytes.subrange(start, start + len)))] + rest,
                    r,
                )
            }
        }
    } else {
        decode_from(bytes, cursor + 1)
    }
}

/// The views of a queue's messages, front first.
pub open spec fn queue_view(q: Seq<GameMessage>) -> Seq<MessageSpec> {
    q.map_values(|m: GameMessage| m@)
}

/// Decode `bytes` and append the messages to `queue`, in order. On a
/// truncated frame the messages before it stay queued and the error names
/// the truncation.
pub fn enqueue_messages_from_bytes(bytes: &[u8], queue: &mut VecDeque<GameMessage>) -> (r: Result<
    (),
    &'static str,
>)
    ensures
        r == decode_from(bytes@, 0).1,
        queue_view(final(queue)@) == queue_view(old(queue)@) + decode_from(bytes@, 0).0,
{
    let mut cursor: usize = 0;
    let ghost total = decode_from(bytes@, 0);
    while cursor < bytes.len()
        invariant
            cursor <= bytes@.len(),
            total == decode_from(bytes@, 0),
            total.0 == queue_view(queue@).subrange(
                queue_view(old(queue)@).len() as int,
                queue_view(queue@).len() as int,
            ) + decode_from(bytes@, cursor as int).0,
            total.1 == decode_from(bytes@, cursor as int).1,
            queue_view(queue@).len() >= queue_view(old(queue)@).len(),
            queue_view(queue@).subrange(0, queue_view(old(queue)@).len() as int) == queue_view(
                old(queue)@,
            ),
        decreases bytes@.len() - cursor,
    {
        let ghost before = queue@;
        let op = bytes[cursor];
        if op == OP_FLIP_PLAYER_SPRITE {
            queue.push_back(GameMessage::FlipPlayerSprite);
            proof {
                assert(queue_view(queue@) =~= queue_view(before).push(MessageSpec::FlipPlayerSprite));
            }
            cursor = cursor + 1;
        } else if op == OP_LOG_DEBUG {
            if bytes.len() - cursor <= 2 {
                return Err("truncated log length");
            }
            let len: usize = (bytes[cursor + 1] as usize) + 256 * (bytes[cursor + 2] as usize);
            let start: usize = cursor + 3;
            if len > bytes.len() - start {
                return Err("truncated log payload");
            }
            let payload = vstd::slice::slice_subrange(bytes, start, start + len);
            let msg = lossy_text(payload);
            queue.push_back(GameMessage::Log(msg));
            proof {
                assert(payload@ =~= bytes@.subrange(start as int, (start + len) as int));
                assert(queue_view(queue@) =~= queue_view(before).push(
                    MessageSpec::Log(log_text(bytes@.subrange(start as int, (start + len) as int))),
                ));
            }
            cursor = start + len;
        } else {
            cursor = cursor + 1;
        }
    }
    proof {
        assert(queue_view(queue@) =~= queue_view(old(queue)@) + total.0);
    }
    Ok(())
}

} // verus!

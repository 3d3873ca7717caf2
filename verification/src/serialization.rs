//! The wire format between a client and the server: events as records of
//! bytes, written and read back.
//!
//! A record starts with a byte that tells its kind; its fields follow.
//! Numbers are written least significant byte first; a text is written as the
//! number of its bytes in four bytes, followed by its bytes in UTF-8; a
//! character is written as its scalar value in four bytes.

use crate::connection::{RemoteConnectionWithClientHandle, TargetClient};
use crate::platform::Key;
use vstd::prelude::*;
use vstd::slice::slice_subrange;
use vstd::utf8::{decode_utf8, encode_utf8, is_scalar, valid_utf8};

verus! {

/// The error of `core::str::from_utf8`.
#[verifier::external_type_specification]
#[verifier::external_body]
pub struct ExUtf8Error(core::str::Utf8Error);

/// `core::str::from_utf8` of the standard library: the text that the bytes
/// encode in UTF-8, or an error where they encode none.
pub assume_specification[ core::str::from_utf8 ](v: &[u8]) -> (r: Result<
    &str,
    core::str::Utf8Error,
>)
    ensures
        valid_utf8(v@) ==> r is Ok && r->Ok_0@ == decode_utf8(v@),
        !valid_utf8(v@) ==> r is Err,
;

/// `char::from_u32` of the standard library: the character with the scalar
/// value given, or `None` where the value is no Unicode scalar value.
pub assume_specification[ char::from_u32 ](v: u32) -> (r: Option<char>)
    ensures
        is_scalar(v) ==> r == Some(v as char),
        !is_scalar(v) ==> r is None,
;

/// Why bytes could not be read as an event.
#[derive(Debug, Clone, Copy, PartialEq, Eq, Structural)]
pub enum DeserializeError {
    /// The bytes end before the record does: more bytes are needed.
    InsufficientData,
    /// The bytes are no record.
    InvalidData,
}

/// What a client sends to the server.
pub enum ClientEvent {
    Key(TargetClient, Key),
    Resize(TargetClient, u16, u16),
    Command(TargetClient, String),
    OpenBuffer(TargetClient, String),
}

/// A client event with its text as a sequence of characters.
pub enum ClientEventView {
    Key(TargetClient, Key),
    Resize(TargetClient, u16, u16),
    Command(TargetClient, Seq<char>),
    OpenBuffer(TargetClient, Seq<char>),
}

impl View for ClientEvent {
    type V = ClientEventView;

    open spec fn view(&self) -> ClientEventView {
        match self {
            ClientEvent::Key(target, key) => ClientEventView::Key(*target, *key),
            ClientEvent::Resize(target, width, height) => ClientEventView::Resize(
                *target,
                *width,
                *height,
            ),
            ClientEvent::Command(target, text) => ClientEventView::Command(*target, text@),
            ClientEvent::OpenBuffer(target, path) => ClientEventView::OpenBuffer(*target, path@),
        }
    }
}

/// What the server sends to a client.
pub enum ServerEvent {
    Display(Vec<u8>),
    Suspend,
    CommandOutput(String),
    Request(u8),
}

/// A server event with its contents as sequences.
pub enum ServerEventView {
    Display(Seq<u8>),
    Suspend,
    CommandOutput(Seq<char>),
    Request(u8),
}

impl View for ServerEvent {
    type V = ServerEventView;

    open spec fn view(&self) -> ServerEventView {
        match self {
            ServerEvent::Display(bytes) => ServerEventView::Display(bytes@),
            ServerEvent::Suspend => ServerEventView::Suspend,
            ServerEvent::CommandOutput(text) => ServerEventView::CommandOutput(text@),
            ServerEvent::Request(kind) => ServerEventView::Request(*kind),
        }
    }
}

pub open spec fn u16_bytes(v: u16) -> Seq<u8> {
    seq![(v % 256) as u8, (v / 256) as u8]
}

pub open spec fn u32_bytes(v: u32) -> Seq<u8> {
    seq![
        (v % 256) as u8,
        ((v / 256) % 256) as u8,
        ((v / 65536) % 256) as u8,
        (v / 16777216) as u8,
    ]
}

pub open spec fn u64_bytes(v: u64) -> Seq<u8> {
    u32_bytes((v % 0x1_0000_0000) as u32) + u32_bytes((v / 0x1_0000_0000) as u32)
}

/// A text on the wire: the number of its bytes, then its bytes.
pub open spec fn text_bytes(text: Seq<char>) -> Seq<u8> {
    u32_bytes(encode_utf8(text).len() as u32) + encode_utf8(text)
}

/// A block of bytes on the wire: its length, then the bytes.
pub open spec fn block_bytes(bytes: Seq<u8>) -> Seq<u8> {
    u32_bytes(bytes.len() as u32) + bytes
}

pub open spec fn key_bytes(key: Key) -> Seq<u8> {
    match key {
        Key::NoKey => seq![0u8],
        Key::Backspace => seq![1u8],
        Key::Enter => seq![2u8],
        Key::Left => seq![3u8],
        Key::Right => seq![4u8],
        Key::Up => seq![5u8],
        Key::Down => seq![6u8],
        Key::Home => seq![7u8],
        Key::End => seq![8u8],
        Key::PageUp => seq![9u8],
        Key::PageDown => seq![10u8],
        Key::Tab => seq![11u8],
        Key::Delete => seq![12u8],
        Key::F(n) => seq![13u8, n],
        Key::Char(c) => seq![14u8] + u32_bytes(c as u32),
        Key::Ctrl(c) => seq![15u8] + u32_bytes(c as u32),
        Key::Alt(c) => seq![16u8] + u32_bytes(c as u32),
        Key::Esc => seq![17u8],
    }
}

pub open spec fn target_bytes(target: TargetClient) -> Seq<u8> {
    match target {
        TargetClient::All => seq![0u8],
        TargetClient::Local => seq![1u8],
        TargetClient::Remote(handle) => seq![2u8] + u64_bytes(handle.index() as u64),
    }
}

/// The record of a client event.
pub open spec fn client_event_bytes(event: ClientEventView) -> Seq<u8> {
    match event {
        ClientEventView::Key(target, key) => seq![0u8] + target_bytes(target) + key_bytes(key),
        ClientEventView::Resize(target, width, height) => seq![1u8] + target_bytes(target)
            + u16_bytes(width) + u16_bytes(height),
        ClientEventView::Command(target, text) => seq![2u8] + target_bytes(target) + text_bytes(
            text,
        ),
        ClientEventView::OpenBuffer(target, path) => seq![3u8] + target_bytes(target)
            + text_bytes(path),
    }
}

/// The record of a server event.
pub open spec fn server_event_bytes(event: ServerEventView) -> Seq<u8> {
    match event {
        ServerEventView::Display(bytes) => seq![0u8] + block_bytes(bytes),
        ServerEventView::Suspend => seq![1u8],
        ServerEventView::CommandOutput(text) => seq![2u8] + text_bytes(text),
        ServerEventView::Request(kind) => seq![3u8, kind],
    }
}

/// Whether the event can be written: its texts are short enough for their
/// length to be written in four bytes.
pub open spec fn client_event_fits(event: ClientEventView) -> bool {
    match event {
        ClientEventView::Command(_, text) => encode_utf8(text).len() <= u32::MAX,
        ClientEventView::OpenBuffer(_, path) => encode_utf8(path).len() <= u32::MAX,
        _ => true,
    }
}

pub open spec fn server_event_fits(event: ServerEventView) -> bool {
    match event {
        ServerEventView::Display(bytes) => bytes.len() <= u32::MAX,
        ServerEventView::CommandOutput(text) => encode_utf8(text).len() <= u32::MAX,
        _ => true,
    }
}

pub open spec fn take_u8(bytes: Seq<u8>, at: int) -> Result<(u8, int), DeserializeError> {
    if at + 1 <= bytes.len() {
        Ok((bytes[at], at + 1))
    } else {
        Err(DeserializeError::InsufficientData)
    }
}

pub open spec fn take_u16(bytes: Seq<u8>, at: int) -> Result<(u16, int), DeserializeError> {
    if at + 2 <= bytes.len() {
        Ok(((bytes[at] + 256 * bytes[at + 1]) as u16, at + 2))
    } else {
        Err(DeserializeError::InsufficientData)
    }
}

pub open spec fn take_u32(bytes: Seq<u8>, at: int) -> Result<(u32, int), DeserializeError> {
    if at + 4 <= bytes.len() {
        Ok(
            (
                (bytes[at] + 256 * bytes[at + 1] + 65536 * bytes[at + 2] + 16777216 * bytes[at
                    + 3]) as u32,
                at + 4,
            ),
        )
    } else {
        Err(DeserializeError::InsufficientData)
    }
}

pub open spec fn take_u64(bytes: Seq<u8>, at: int) -> Result<(u64, int), DeserializeError> {
    match take_u32(bytes, at) {
        Ok((low, next)) => match take_u32(bytes, next) {
            Ok((high, end)) => Ok(((low + 0x1_0000_0000 * high) as u64, end)),
            Err(e) => Err(e),
        },
        Err(e) => Err(e),
    }
}

pub open spec fn take_block(bytes: Seq<u8>, at: int) -> Result<(Seq<u8>, int), DeserializeError> {
    match take_u32(bytes, at) {
        Ok((len, start)) => if start + len <= bytes.len() {
            Ok((bytes.subrange(start, start + len), start + len))
        } else {
            Err(DeserializeError::InsufficientData)
        },
        Err(e) => Err(e),
    }
}

pub open spec fn take_text(bytes: Seq<u8>, at: int) -> Result<(Seq<char>, int), DeserializeError> {
    match take_block(bytes, at) {
        Ok((data, end)) => if valid_utf8(data) {
            Ok((decode_utf8(data), end))
        } else {
            Err(DeserializeError::InvalidData)
        },
        Err(e) => Err(e),
    }
}

pub open spec fn take_char(bytes: Seq<u8>, at: int) -> Result<(char, int), DeserializeError> {
    match take_u32(bytes, at) {
        Ok((v, end)) => if is_scalar(v) {
            Ok((v as char, end))
        } else {
            Err(DeserializeError::InvalidData)
        },
        Err(e) => Err(e),
    }
}

pub open spec fn take_key(bytes: Seq<u8>, at: int) -> Result<(Key, int), DeserializeError> {
    match take_u8(bytes, at) {
        Ok((tag, next)) => {
            if tag == 0 {
                Ok((Key::NoKey, next))
            } else if tag == 1 {
                Ok((Key::Backspace, next))
            } else if tag == 2 {
                Ok((Key::Enter, next))
            } else if tag == 3 {
                Ok((Key::Left, next))
            } else if tag == 4 {
                Ok((Key::Right, next))
            } else if tag == 5 {
                Ok((Key::Up, next))
            } else if tag == 6 {
                Ok((Key::Down, next))
            } else if tag == 7 {
                Ok((Key::Home, next))
            } else if tag == 8 {
                Ok((Key::End, next))
            } else if tag == 9 {
                Ok((Key::PageUp, next))
            } else if tag == 10 {
                Ok((Key::PageDown, next))
            } else if tag == 11 {
                Ok((Key::Tab, next))
            } else if tag == 12 {
                Ok((Key::Delete, next))
            } else if tag == 13 {
                match take_u8(bytes, next) {
                    Ok((n, end)) => Ok((Key::F(n), end)),
                    Err(e) => Err(e),
                }
            } else if tag == 14 {
                match take_char(bytes, next) {
                    Ok((c, end)) => Ok((Key::Char(c), end)),
                    Err(e) => Err(e),
                }
            } else if tag == 15 {
                match take_char(bytes, next) {
                    Ok((c, end)) => Ok((Key::Ctrl(c), end)),
                    Err(e) => Err(e),
                }
            } else if tag == 16 {
                match take_char(bytes, next) {
                    Ok((c, end)) => Ok((Key::Alt(c), end)),
                    Err(e) => Err(e),
                }
            } else if tag == 17 {
                Ok((Key::Esc, next))
            } else {
                Err(DeserializeError::InvalidData)
            }
        },
        Err(e) => Err(e),
    }
}

pub open spec fn take_target(bytes: Seq<u8>, at: int) -> Result<
    (TargetClient, int),
    DeserializeError,
> {
    match take_u8(bytes, at) {
        Ok((tag, next)) => {
            if tag == 0 {
                Ok((TargetClient::All, next))
            } else if tag == 1 {
                Ok((TargetClient::Local, next))
            } else if tag == 2 {
                match take_u64(bytes, next) {
                    Ok((index, end)) => if index <= usize::MAX {
                        Ok((TargetClient::Remote(remote_handle(index as usize)), end))
                    } else {
                        Err(DeserializeError::InvalidData)
                    },
                    Err(e) => Err(e),
                }
            } else {
                Err(DeserializeError::InvalidData)
            }
        },
        Err(e) => Err(e),
    }
}

/// The handle of the slot `index`.
pub open spec fn remote_handle(index: usize) -> RemoteConnectionWithClientHandle {
    RemoteConnectionWithClientHandle::of_index(index)
}

/// What the bytes from `at` on hold: a client event and the place behind
/// its record, or why there is none.
pub open spec fn take_client_event(bytes: Seq<u8>, at: int) -> Result<
    (ClientEventView, int),
    DeserializeError,
> {
    match take_u8(bytes, at) {
        Ok((tag, next)) => if tag > 3 {
            Err(DeserializeError::InvalidData)
        } else {
            match take_target(bytes, next) {
                Ok((target, fields)) => {
                    if tag == 0 {
                        match take_key(bytes, fields) {
                            Ok((key, end)) => Ok((ClientEventView::Key(target, key), end)),
                            Err(e) => Err(e),
                        }
                    } else if tag == 1 {
                        match take_u16(bytes, fields) {
                            Ok((width, mid)) => match take_u16(bytes, mid) {
                                Ok((height, end)) => Ok(
                                    (ClientEventView::Resize(target, width, height), end),
                                ),
                                Err(e) => Err(e),
                            },
                            Err(e) => Err(e),
                        }
                    } else if tag == 2 {
                        match take_text(bytes, fields) {
                            Ok((text, end)) => Ok((ClientEventView::Command(target, text), end)),
                            Err(e) => Err(e),
                        }
                    } else {
                        match take_text(bytes, fields) {
                            Ok((path, end)) => Ok((ClientEventView::OpenBuffer(target, path), end)),
                            Err(e) => Err(e),
                        }
                    }
                },
                Err(e) => Err(e),
            }
        },
        Err(e) => Err(e),
    }
}

/// What the bytes from `at` on hold: a server event and the place behind
/// its record, or why there is none.
pub open spec fn take_server_event(bytes: Seq<u8>, at: int) -> Result<
    (ServerEventView, int),
    DeserializeError,
> {
    match take_u8(bytes, at) {
        Ok((tag, next)) => {
            if tag == 0 {
                match take_block(bytes, next) {
                    Ok((data, end)) => Ok((ServerEventView::Display(data), end)),
                    Err(e) => Err(e),
                }
            } else if tag == 1 {
                Ok((ServerEventView::Suspend, next))
            } else if tag == 2 {
                match take_text(bytes, next) {
                    Ok((text, end)) => Ok((ServerEventView::CommandOutput(text), end)),
                    Err(e) => Err(e),
                }
            } else if tag == 3 {
                match take_u8(bytes, next) {
                    Ok((kind, end)) => Ok((ServerEventView::Request(kind), end)),
                    Err(e) => Err(e),
                }
            } else {
                Err(DeserializeError::InvalidData)
            }
        },
        Err(e) => Err(e),
    }
}

fn write_u16(out: &mut Vec<u8>, v: u16)
    ensures
        final(out)@ == old(out)@ + u16_bytes(v),
{
    out.push((v % 256) as u8);
    out.push((v / 256) as u8);
    assert(out@ =~= old(out)@ + u16_bytes(v));
}

fn write_u32(out: &mut Vec<u8>, v: u32)
    ensures
        final(out)@ == old(out)@ + u32_bytes(v),
{
    out.push((v % 256) as u8);
    out.push(((v / 256) % 256) as u8);
    out.push(((v / 65536) % 256) as u8);
    out.push((v / 16777216) as u8);
    assert(out@ =~= old(out)@ + u32_bytes(v));
}

fn write_u64(out: &mut Vec<u8>, v: u64)
    ensures
        final(out)@ == old(out)@ + u64_bytes(v),
{
    write_u32(out, (v % 0x1_0000_0000) as u32);
    write_u32(out, (v / 0x1_0000_0000) as u32);
    assert(out@ =~= old(out)@ + u64_bytes(v));
}

fn write_bytes(out: &mut Vec<u8>, bytes: &[u8])
    ensures
        final(out)@ == old(out)@ + bytes@,
{
    let mut i: usize = 0;
    while i < bytes.len()
        invariant
            0 <= i <= bytes.len(),
            out@ == old(out)@ + bytes@.take(i as int),
        decreases bytes.len() - i,
    {
        out.push(bytes[i]);
        assert(out@ =~= old(out)@ + bytes@.take(i + 1));
        i = i + 1;
    }
    assert(bytes@.take(bytes.len() as int) =~= bytes@);
}

fn write_block(out: &mut Vec<u8>, bytes: &[u8])
    requires
        bytes@.len() <= u32::MAX,
    ensures
        final(out)@ == old(out)@ + block_bytes(bytes@),
{
    write_u32(out, bytes.len() as u32);
    write_bytes(out, bytes);
    assert(out@ =~= old(out)@ + block_bytes(bytes@));
}

fn write_key(out: &mut Vec<u8>, key: Key)
    ensures
        final(out)@ == old(out)@ + key_bytes(key),
{
    match key {
        Key::NoKey => out.push(0),
        Key::Backspace => out.push(1),
        Key::Enter => out.push(2),
        Key::Left => out.push(3),
        Key::Right => out.push(4),
        Key::Up => out.push(5),
        Key::Down => out.push(6),
        Key::Home => out.push(7),
        Key::End => out.push(8),
        Key::PageUp => out.push(9),
        Key::PageDown => out.push(10),
        Key::Tab => out.push(11),
        Key::Delete => out.push(12),
        Key::F(n) => {
            out.push(13);
            out.push(n);
        },
        Key::Char(c) => {
            out.push(14);
            write_u32(out, c as u32);
        },
        Key::Ctrl(c) => {
            out.push(15);
            write_u32(out, c as u32);
        },
        Key::Alt(c) => {
            out.push(16);
            write_u32(out, c as u32);
        },
        Key::Esc => out.push(17),
    }
    assert(out@ =~= old(out)@ + key_bytes(key));
}

fn write_target(out: &mut Vec<u8>, target: TargetClient)
    ensures
        final(out)@ == old(out)@ + target_bytes(target),
{
    match target {
        TargetClient::All => out.push(0),
        TargetClient::Local => out.push(1),
        TargetClient::Remote(handle) => {
            out.push(2);
            write_u64(out, handle.into_index() as u64);
        },
    }
    assert(out@ =~= old(out)@ + target_bytes(target));
}

fn read_u8(bytes: &[u8], at: usize) -> (r: Result<(u8, usize), DeserializeError>)
    requires
        at <= bytes.len(),
    ensures
        match take_u8(bytes@, at as int) {
            Ok((v, next)) => r == Ok::<(u8, usize), DeserializeError>((v, next as usize)) && next
                <= bytes.len(),
            Err(e) => r == Err::<(u8, usize), DeserializeError>(e),
        },
{
    if bytes.len() - at >= 1 {
        Ok((bytes[at], at + 1))
    } else {
        Err(DeserializeError::InsufficientData)
    }
}

fn read_u16(bytes: &[u8], at: usize) -> (r: Result<(u16, usize), DeserializeError>)
    requires
        at <= bytes.len(),
    ensures
        match take_u16(bytes@, at as int) {
            Ok((v, next)) => r == Ok::<(u16, usize), DeserializeError>((v, next as usize)) && next
                <= bytes.len(),
            Err(e) => r == Err::<(u16, usize), DeserializeError>(e),
        },
{
    if bytes.len() - at >= 2 {
        let v: u16 = bytes[at] as u16 + 256 * (bytes[at + 1] as u16);
        Ok((v, at + 2))
    } else {
        Err(DeserializeError::InsufficientData)
    }
}

fn read_u32(bytes: &[u8], at: usize) -> (r: Result<(u32, usize), DeserializeError>)
    requires
        at <= bytes.len(),
    ensures
        match take_u32(bytes@, at as int) {
            Ok((v, next)) => r == Ok::<(u32, usize), DeserializeError>((v, next as usize)) && next
                <= bytes.len(),
            Err(e) => r == Err::<(u32, usize), DeserializeError>(e),
        },
{
    if bytes.len() - at >= 4 {
        let v: u32 = bytes[at] as u32 + 256 * (bytes[at + 1] as u32) + 65536 * (bytes[at
            + 2] as u32) + 16777216 * (bytes[at + 3] as u32);
        Ok((v, at + 4))
    } else {
        Err(DeserializeError::InsufficientData)
    }
}

fn read_u64(bytes: &[u8], at: usize) -> (r: Result<(u64, usize), DeserializeError>)
    requires
        at <= bytes.len(),
    ensures
        match take_u64(bytes@, at as int) {
            Ok((v, next)) => r == Ok::<(u64, usize), DeserializeError>((v, next as usize)) && next
                <= bytes.len(),
            Err(e) => r == Err::<(u64, usize), DeserializeError>(e),
        },
{
    let (low, next) = match read_u32(bytes, at) {
        Ok(x) => x,
        Err(e) => {
            return Err(e);
        },
    };
    let (high, end) = match read_u32(bytes, next) {
        Ok(x) => x,
        Err(e) => {
            return Err(e);
        },
    };
    Ok((low as u64 + 0x1_0000_0000 * (high as u64), end))
}

fn read_block<'a>(bytes: &'a [u8], at: usize) -> (r: Result<(&'a [u8], usize), DeserializeError>)
    requires
        at <= bytes.len(),
    ensures
        match take_block(bytes@, at as int) {
            Ok((data, next)) => r is Ok && r->Ok_0.0@ == data && r->Ok_0.1 == next && next
                <= bytes.len(),
            Err(e) => r is Err && r->Err_0 == e,
        },
{
    let (len, start) = match read_u32(bytes, at) {
        Ok(x) => x,
        Err(e) => {
            return Err(e);
        },
    };
    if (bytes.len() - start) as u64 >= len as u64 {
        let end = start + len as usize;
        Ok((slice_subrange(bytes, start, end), end))
    } else {
        Err(DeserializeError::InsufficientData)
    }
}

fn read_text(bytes: &[u8], at: usize) -> (r: Result<(String, usize), DeserializeError>)
    requires
        at <= bytes.len(),
    ensures
        match take_text(bytes@, at as int) {
            Ok((text, next)) => r is Ok && r->Ok_0.0@ == text && r->Ok_0.1 == next && next
                <= bytes.len(),
            Err(e) => r is Err && r->Err_0 == e,
        },
{
    let (data, end) = match read_block(bytes, at) {
        Ok(x) => x,
        Err(e) => {
            return Err(e);
        },
    };
    match core::str::from_utf8(data) {
        Ok(text) => Ok((String::from_str(text), end)),
        Err(_) => Err(DeserializeError::InvalidData),
    }
}

fn read_char(bytes: &[u8], at: usize) -> (r: Result<(char, usize), DeserializeError>)
    requires
        at <= bytes.len(),
    ensures
        match take_char(bytes@, at as int) {
            Ok((c, next)) => r == Ok::<(char, usize), DeserializeError>((c, next as usize))
                && next <= bytes.len(),
            Err(e) => r == Err::<(char, usize), DeserializeError>(e),
        },
{
    let (v, end) = match read_u32(bytes, at) {
        Ok(x) => x,
        Err(e) => {
            return Err(e);
        },
    };
    match char::from_u32(v) {
        Some(c) => Ok((c, end)),
        None => Err(DeserializeError::InvalidData),
    }
}

fn read_key(bytes: &[u8], at: usize) -> (r: Result<(Key, usize), DeserializeError>)
    requires
        at <= bytes.len(),
    ensures
        match take_key(bytes@, at as int) {
            Ok((key, next)) => r == Ok::<(Key, usize), DeserializeError>((key, next as usize))
                && next <= bytes.len(),
            Err(e) => r == Err::<(Key, usize), DeserializeError>(e),
        },
{
    let (tag, next) = match read_u8(bytes, at) {
        Ok(x) => x,
        Err(e) => {
            return Err(e);
        },
    };
    if tag == 0 {
        Ok((Key::NoKey, next))
    } else if tag == 1 {
        Ok((Key::Backspace, next))
    } else if tag == 2 {
        Ok((Key::Enter, next))
    } else if tag == 3 {
        Ok((Key::Left, next))
    } else if tag == 4 {
        Ok((Key::Right, next))
    } else if tag == 5 {
        Ok((Key::Up, next))
    } else if tag == 6 {
        Ok((Key::Down, next))
    } else if tag == 7 {
        Ok((Key::Home, next))
    } else if tag == 8 {
        Ok((Key::End, next))
    } else if tag == 9 {
        Ok((Key::PageUp, next))
    } else if tag == 10 {
        Ok((Key::PageDown, next))
    } else if tag == 11 {
        Ok((Key::Tab, next))
    } else if tag == 12 {
        Ok((Key::Delete, next))
    } else if tag == 13 {
        match read_u8(bytes, next) {
            Ok((n, end)) => Ok((Key::F(n), end)),
            Err(e) => Err(e),
        }
    } else if tag == 14 {
        match read_char(bytes, next) {
            Ok((c, end)) => Ok((Key::Char(c), end)),
            Err(e) => Err(e),
        }
    } else if tag == 15 {
        match read_char(bytes, next) {
            Ok((c, end)) => Ok((Key::Ctrl(c), end)),
            Err(e) => Err(e),
        }
    } else if tag == 16 {
        match read_char(bytes, next) {
            Ok((c, end)) => Ok((Key::Alt(c), end)),
            Err(e) => Err(e),
        }
    } else if tag == 17 {
        Ok((Key::Esc, next))
    } else {
        Err(DeserializeError::InvalidData)
    }
}

fn read_target(bytes: &[u8], at: usize) -> (r: Result<(TargetClient, usize), DeserializeError>)
    requires
        at <= bytes.len(),
    ensures
        match take_target(bytes@, at as int) {
            Ok((target, next)) => r == Ok::<(TargetClient, usize), DeserializeError>(
                (target, next as usize),
            ) && next <= bytes.len(),
            Err(e) => r == Err::<(TargetClient, usize), DeserializeError>(e),
        },
{
    let (tag, next) = match read_u8(bytes, at) {
        Ok(x) => x,
        Err(e) => {
            return Err(e);
        },
    };
    if tag == 0 {
        Ok((TargetClient::All, next))
    } else if tag == 1 {
        Ok((TargetClient::Local, next))
    } else if tag == 2 {
        match read_u64(bytes, next) {
            Ok((index, end)) => {
                if index <= usize::MAX as u64 {
                    Ok(
                        (
                            TargetClient::Remote(
                                RemoteConnectionWithClientHandle::from_index(index as usize),
                            ),
                            end,
                        ),
                    )
                } else {
                    Err(DeserializeError::InvalidData)
                }
            },
            Err(e) => Err(e),
        }
    } else {
        Err(DeserializeError::InvalidData)
    }
}

impl ClientEvent {
    /// Appends the record of the event to `out` and returns `true`; where a
    /// text of the event is too long for the format, appends nothing and
    /// returns `false`.
    pub fn serialize(&self, out: &mut Vec<u8>) -> (r: bool)
        ensures
            r == client_event_fits(self@),
            r ==> final(out)@ == old(out)@ + client_event_bytes(self@),
            !r ==> final(out)@ == old(out)@,
    {
        match self {
            ClientEvent::Key(target, key) => {
                out.push(0);
                write_target(out, *target);
                write_key(out, *key);
            },
            ClientEvent::Resize(target, width, height) => {
                out.push(1);
                write_target(out, *target);
                write_u16(out, *width);
                write_u16(out, *height);
            },
            ClientEvent::Command(target, text) => {
                let data = text.as_str().as_bytes();
                if data.len() > u32::MAX as usize {
                    return false;
                }
                out.push(2);
                write_target(out, *target);
                write_block(out, data);
            },
            ClientEvent::OpenBuffer(target, path) => {
                let data = path.as_str().as_bytes();
                if data.len() > u32::MAX as usize {
                    return false;
                }
                out.push(3);
                write_target(out, *target);
                write_block(out, data);
            },
        }
        assert(out@ =~= old(out)@ + client_event_bytes(self@));
        true
    }

    /// Reads one event from the start of `bytes`. Returns the event and the
    /// number of bytes that its record takes. Nothing is consumed: the
    /// caller drops the bytes of the record, or, where more data is needed,
    /// keeps them all and comes back with more.
    pub fn deserialize(bytes: &[u8]) -> (r: Result<(ClientEvent, usize), DeserializeError>)
        ensures
            match take_client_event(bytes@, 0) {
                Ok((event, len)) => r is Ok && r->Ok_0.0@ == event && r->Ok_0.1 == len && len
                    <= bytes.len(),
                Err(e) => r is Err && r->Err_0 == e,
            },
    {
        let (tag, next) = match read_u8(bytes, 0) {
            Ok(x) => x,
            Err(e) => {
                return Err(e);
            },
        };
        if tag > 3 {
            return Err(DeserializeError::InvalidData);
        }
        let (target, fields) = match read_target(bytes, next) {
            Ok(x) => x,
            Err(e) => {
                return Err(e);
            },
        };
        if tag == 0 {
            match read_key(bytes, fields) {
                Ok((key, end)) => Ok((ClientEvent::Key(target, key), end)),
                Err(e) => Err(e),
            }
        } else if tag == 1 {
            let (width, mid) = match read_u16(bytes, fields) {
                Ok(x) => x,
                Err(e) => {
                    return Err(e);
                },
            };
            match read_u16(bytes, mid) {
                Ok((height, end)) => Ok((ClientEvent::Resize(target, width, height), end)),
                Err(e) => Err(e),
            }
        } else if tag == 2 {
            match read_text(bytes, fields) {
                Ok((text, end)) => Ok((ClientEvent::Command(target, text), end)),
                Err(e) => Err(e),
            }
        } else {
            match read_text(bytes, fields) {
                Ok((path, end)) => Ok((ClientEvent::OpenBuffer(target, path), end)),
                Err(e) => Err(e),
            }
        }
    }
}

impl ServerEvent {
    /// Appends the record of the event to `out` and returns `true`; where the
    /// contents of the event are too long for the format, appends nothing and
    /// returns `false`.
    pub fn serialize(&self, out: &mut Vec<u8>) -> (r: bool)
        ensures
            r == server_event_fits(self@),
            r ==> final(out)@ == old(out)@ + server_event_bytes(self@),
            !r ==> final(out)@ == old(out)@,
    {
        match self {
            ServerEvent::Display(bytes) => {
                if bytes.len() > u32::MAX as usize {
                    return false;
                }
                out.push(0);
                write_block(out, bytes.as_slice());
            },
            ServerEvent::Suspend => {
                out.push(1);
            },
            ServerEvent::CommandOutput(text) => {
                let data = text.as_str().as_bytes();
                if data.len() > u32::MAX as usize {
                    return false;
                }
                out.push(2);
                write_block(out, data);
            },
            ServerEvent::Request(kind) => {
                out.push(3);
                out.push(*kind);
            },
        }
        assert(out@ =~= old(out)@ + server_event_bytes(self@));
        true
    }

    /// Reads one event from the start of `bytes`. Returns the event and the
    /// number of bytes that its record takes.
    pub fn deserialize(bytes: &[u8]) -> (r: Result<(ServerEvent, usize), DeserializeError>)
        ensures
            match take_server_event(bytes@, 0) {
                Ok((event, len)) => r is Ok && r->Ok_0.0@ == event && r->Ok_0.1 == len && len
                    <= bytes.len(),
                Err(e) => r is Err && r->Err_0 == e,
            },
    {
        let (tag, next) = match read_u8(bytes, 0) {
            Ok(x) => x,
            Err(e) => {
                return Err(e);
            },
        };
        if tag == 0 {
            match read_block(bytes, next) {
                Ok((data, end)) => {
                    let mut copy: Vec<u8> = Vec::new();
                    write_bytes(&mut copy, data);
                    assert(copy@ =~= data@);
                    Ok((ServerEvent::Display(copy), end))
                },
                Err(e) => Err(e),
            }
        } else if tag == 1 {
            Ok((ServerEvent::Suspend, next))
        } else if tag == 2 {
            match read_text(bytes, next) {
                Ok((text, end)) => Ok((ServerEvent::CommandOutput(text), end)),
                Err(e) => Err(e),
            }
        } else if tag == 3 {
            match read_u8(bytes, next) {
                Ok((kind, end)) => Ok((ServerEvent::Request(kind), end)),
                Err(e) => Err(e),
            }
        } else {
            Err(DeserializeError::InvalidData)
        }
    }
}

/// `data` stands in `bytes` from `at` on, whole.
pub open spec fn holds_at(bytes: Seq<u8>, at: int, data: Seq<u8>) -> bool {
    0 <= at && at + data.len() <= bytes.len() && bytes.subrange(at, at + data.len()) == data
}

/// `bytes` ends inside `data`, which begins at `at`: what is there of `data`
/// is a proper prefix of it.
pub open spec fn cut_at(bytes: Seq<u8>, at: int, data: Seq<u8>) -> bool {
    0 <= at <= bytes.len() < at + data.len() && bytes.subrange(at, bytes.len() as int)
        == data.take(bytes.len() - at)
}

proof fn lemma_holds_split(bytes: Seq<u8>, at: int, a: Seq<u8>, b: Seq<u8>)
    requires
        holds_at(bytes, at, a + b),
    ensures
        holds_at(bytes, at, a),
        holds_at(bytes, at + a.len(), b),
{
    let whole = bytes.subrange(at, at + (a + b).len());
    assert(bytes.subrange(at, at + a.len()) =~= whole.subrange(0, a.len() as int));
    assert(whole.subrange(0, a.len() as int) =~= a);
    assert(bytes.subrange(at + a.len(), at + a.len() + b.len()) =~= whole.subrange(
        a.len() as int,
        (a + b).len() as int,
    ));
    assert(whole.subrange(a.len() as int, (a + b).len() as int) =~= b);
}

proof fn lemma_cut_split(bytes: Seq<u8>, at: int, a: Seq<u8>, b: Seq<u8>)
    requires
        cut_at(bytes, at, a + b),
    ensures
        cut_at(bytes, at, a) || (holds_at(bytes, at, a) && cut_at(bytes, at + a.len(), b)),
{
    let have = bytes.len() - at;
    let part = bytes.subrange(at, bytes.len() as int);
    if have < a.len() {
        assert(part =~= a.take(have));
    } else {
        assert(bytes.subrange(at, at + a.len()) =~= part.subrange(0, a.len() as int));
        assert(part.subrange(0, a.len() as int) =~= a);
        assert(bytes.subrange(at + a.len(), bytes.len() as int) =~= part.subrange(
            a.len() as int,
            have,
        ));
        assert(part.subrange(a.len() as int, have) =~= b.take(have - a.len()));
    }
}

proof fn lemma_holds_index(bytes: Seq<u8>, at: int, data: Seq<u8>, i: int)
    requires
        holds_at(bytes, at, data),
        0 <= i < data.len(),
    ensures
        bytes[at + i] == data[i],
{
    assert(bytes.subrange(at, at + data.len())[i] == bytes[at + i]);
}

proof fn lemma_u8(bytes: Seq<u8>, at: int, v: u8)
    ensures
        holds_at(bytes, at, seq![v]) ==> take_u8(bytes, at) == Ok::<(u8, int), DeserializeError>(
            (v, at + 1),
        ),
        cut_at(bytes, at, seq![v]) ==> take_u8(bytes, at) == Err::<(u8, int), DeserializeError>(
            DeserializeError::InsufficientData,
        ),
{
    if holds_at(bytes, at, seq![v]) {
        lemma_holds_index(bytes, at, seq![v], 0);
    }
}

proof fn lemma_u16(bytes: Seq<u8>, at: int, v: u16)
    ensures
        holds_at(bytes, at, u16_bytes(v)) ==> take_u16(bytes, at) == Ok::<
            (u16, int),
            DeserializeError,
        >((v, at + 2)),
        cut_at(bytes, at, u16_bytes(v)) ==> take_u16(bytes, at) == Err::<
            (u16, int),
            DeserializeError,
        >(DeserializeError::InsufficientData),
{
    let data = u16_bytes(v);
    if holds_at(bytes, at, data) {
        lemma_holds_index(bytes, at, data, 0);
        lemma_holds_index(bytes, at, data, 1);
    }
}

proof fn lemma_u32(bytes: Seq<u8>, at: int, v: u32)
    ensures
        u32_bytes(v).len() == 4,
        holds_at(bytes, at, u32_bytes(v)) ==> take_u32(bytes, at) == Ok::<
            (u32, int),
            DeserializeError,
        >((v, at + 4)),
        cut_at(bytes, at, u32_bytes(v)) ==> take_u32(bytes, at) == Err::<
            (u32, int),
            DeserializeError,
        >(DeserializeError::InsufficientData),
{
    let data = u32_bytes(v);
    if holds_at(bytes, at, data) {
        lemma_holds_index(bytes, at, data, 0);
        lemma_holds_index(bytes, at, data, 1);
        lemma_holds_index(bytes, at, data, 2);
        lemma_holds_index(bytes, at, data, 3);
    }
}

proof fn lemma_u64(bytes: Seq<u8>, at: int, v: u64)
    ensures
        u64_bytes(v).len() == 8,
        holds_at(bytes, at, u64_bytes(v)) ==> take_u64(bytes, at) == Ok::<
            (u64, int),
            DeserializeError,
        >((v, at + 8)),
        cut_at(bytes, at, u64_bytes(v)) ==> take_u64(bytes, at) == Err::<
            (u64, int),
            DeserializeError,
        >(DeserializeError::InsufficientData),
{
    let low = (v % 0x1_0000_0000) as u32;
    let high = (v / 0x1_0000_0000) as u32;
    lemma_u32(bytes, at, low);
    lemma_u32(bytes, at + 4, high);
    if holds_at(bytes, at, u64_bytes(v)) {
        lemma_holds_split(bytes, at, u32_bytes(low), u32_bytes(high));
    }
    if cut_at(bytes, at, u64_bytes(v)) {
        lemma_cut_split(bytes, at, u32_bytes(low), u32_bytes(high));
    }
}

proof fn lemma_block(bytes: Seq<u8>, at: int, data: Seq<u8>)
    requires
        data.len() <= u32::MAX,
    ensures
        holds_at(bytes, at, block_bytes(data)) ==> take_block(bytes, at) == Ok::<
            (Seq<u8>, int),
            DeserializeError,
        >((data, at + 4 + data.len())),
        cut_at(bytes, at, block_bytes(data)) ==> take_block(bytes, at) == Err::<
            (Seq<u8>, int),
            DeserializeError,
        >(DeserializeError::InsufficientData),
{
    let len = data.len() as u32;
    lemma_u32(bytes, at, len);
    if holds_at(bytes, at, block_bytes(data)) {
        lemma_holds_split(bytes, at, u32_bytes(len), data);
    }
    if cut_at(bytes, at, block_bytes(data)) {
        lemma_cut_split(bytes, at, u32_bytes(len), data);
    }
}

proof fn lemma_text(bytes: Seq<u8>, at: int, text: Seq<char>)
    requires
        encode_utf8(text).len() <= u32::MAX,
    ensures
        holds_at(bytes, at, text_bytes(text)) ==> take_text(bytes, at) == Ok::<
            (Seq<char>, int),
            DeserializeError,
        >((text, at + text_bytes(text).len())),
        cut_at(bytes, at, text_bytes(text)) ==> take_text(bytes, at) == Err::<
            (Seq<char>, int),
            DeserializeError,
        >(DeserializeError::InsufficientData),
{
    broadcast use {vstd::utf8::encode_utf8_valid_utf8, vstd::utf8::encode_utf8_decode_utf8};

    lemma_block(bytes, at, encode_utf8(text));
}

proof fn lemma_char(bytes: Seq<u8>, at: int, c: char)
    ensures
        holds_at(bytes, at, u32_bytes(c as u32)) ==> take_char(bytes, at) == Ok::<
            (char, int),
            DeserializeError,
        >((c, at + 4)),
        cut_at(bytes, at, u32_bytes(c as u32)) ==> take_char(bytes, at) == Err::<
            (char, int),
            DeserializeError,
        >(DeserializeError::InsufficientData),
{
    broadcast use {vstd::utf8::char_is_scalar, vstd::utf8::char_u32_cast};

    lemma_u32(bytes, at, c as u32);
}

proof fn lemma_key(bytes: Seq<u8>, at: int, key: Key)
    ensures
        holds_at(bytes, at, key_bytes(key)) ==> take_key(bytes, at) == Ok::<
            (Key, int),
            DeserializeError,
        >((key, at + key_bytes(key).len())),
        cut_at(bytes, at, key_bytes(key)) ==> take_key(bytes, at) == Err::<
            (Key, int),
            DeserializeError,
        >(DeserializeError::InsufficientData),
{
    let data = key_bytes(key);
    let tag = data[0];
    lemma_u8(bytes, at, tag);
    let fields = data.skip(1);
    assert(data =~= seq![tag] + fields);
    if holds_at(bytes, at, data) {
        lemma_holds_split(bytes, at, seq![tag], fields);
    }
    if cut_at(bytes, at, data) {
        lemma_cut_split(bytes, at, seq![tag], fields);
    }
    match key {
        Key::F(n) => {
            assert(fields =~= seq![n]);
            lemma_u8(bytes, at + 1, n);
        },
        Key::Char(c) => {
            assert(fields =~= u32_bytes(c as u32));
            lemma_char(bytes, at + 1, c);
        },
        Key::Ctrl(c) => {
            assert(fields =~= u32_bytes(c as u32));
            lemma_char(bytes, at + 1, c);
        },
        Key::Alt(c) => {
            assert(fields =~= u32_bytes(c as u32));
            lemma_char(bytes, at + 1, c);
        },
        _ => {
            assert(fields =~= Seq::<u8>::empty());
        },
    }
}

proof fn lemma_remote_index(bytes: Seq<u8>, at: int, handle: RemoteConnectionWithClientHandle)
    ensures
        holds_at(bytes, at, u64_bytes(handle.index() as u64)) ==> take_u64(bytes, at) == Ok::<
            (u64, int),
            DeserializeError,
        >((handle.index() as u64, at + 8)) && handle.index() as u64 <= usize::MAX && remote_handle(
            (handle.index() as u64) as usize,
        ) == handle,
        cut_at(bytes, at, u64_bytes(handle.index() as u64)) ==> take_u64(bytes, at) == Err::<
            (u64, int),
            DeserializeError,
        >(DeserializeError::InsufficientData),
        u64_bytes(handle.index() as u64).len() == 8,
{
    handle.lemma_index();
    let i = handle.index();
    assert(0 <= i <= usize::MAX);
    let v = i as u64;
    assert(v == i);
    assert(v as usize == i as usize);
    lemma_u64(bytes, at, v);
}

#[verifier::rlimit(50)]
proof fn lemma_target(bytes: Seq<u8>, at: int, target: TargetClient)
    ensures
        holds_at(bytes, at, target_bytes(target)) ==> take_target(bytes, at) == Ok::<
            (TargetClient, int),
            DeserializeError,
        >((target, at + target_bytes(target).len())),
        cut_at(bytes, at, target_bytes(target)) ==> take_target(bytes, at) == Err::<
            (TargetClient, int),
            DeserializeError,
        >(DeserializeError::InsufficientData),
{
    match target {
        TargetClient::Remote(handle) => {
            let fields = u64_bytes(handle.index() as u64);
            let data = seq![2u8] + fields;
            assert(target_bytes(target) == data);
            lemma_u8(bytes, at, 2u8);
            lemma_remote_index(bytes, at + 1, handle);
            if holds_at(bytes, at, data) {
                lemma_holds_split(bytes, at, seq![2u8], fields);
            }
            if cut_at(bytes, at, data) {
                lemma_cut_split(bytes, at, seq![2u8], fields);
            }
        },
        TargetClient::All => {
            lemma_u8(bytes, at, 0u8);
        },
        TargetClient::Local => {
            lemma_u8(bytes, at, 1u8);
        },
    }
}

proof fn lemma_client_event(bytes: Seq<u8>, event: ClientEventView)
    requires
        client_event_fits(event),
    ensures
        holds_at(bytes, 0, client_event_bytes(event)) ==> take_client_event(bytes, 0) == Ok::<
            (ClientEventView, int),
            DeserializeError,
        >((event, client_event_bytes(event).len() as int)),
        cut_at(bytes, 0, client_event_bytes(event)) ==> take_client_event(bytes, 0) == Err::<
            (ClientEventView, int),
            DeserializeError,
        >(DeserializeError::InsufficientData),
{
    let data = client_event_bytes(event);
    let tag = data[0];
    lemma_u8(bytes, 0, tag);
    let (target, fields): (TargetClient, Seq<u8>) = match event {
        ClientEventView::Key(target, key) => (target, key_bytes(key)),
        ClientEventView::Resize(target, width, height) => (
            target,
            u16_bytes(width) + u16_bytes(height),
        ),
        ClientEventView::Command(target, text) => (target, text_bytes(text)),
        ClientEventView::OpenBuffer(target, path) => (target, text_bytes(path)),
    };
    let head = target_bytes(target);
    let body = head + fields;
    assert(data =~= seq![tag] + body);
    lemma_target(bytes, 1, target);
    let at: int = 1 + head.len() as int;
    let whole = holds_at(bytes, 0, data);
    let cut = cut_at(bytes, 0, data);
    if whole {
        lemma_holds_split(bytes, 0, seq![tag], body);
        lemma_holds_split(bytes, 1, head, fields);
    }
    if cut {
        lemma_cut_split(bytes, 0, seq![tag], body);
        if holds_at(bytes, 0, seq![tag]) {
            lemma_cut_split(bytes, 1, head, fields);
        }
    }
    match event {
        ClientEventView::Key(_, key) => {
            lemma_key(bytes, at, key);
        },
        ClientEventView::Resize(_, width, height) => {
            lemma_u16(bytes, at, width);
            lemma_u16(bytes, at + 2, height);
            if holds_at(bytes, at, fields) {
                lemma_holds_split(bytes, at, u16_bytes(width), u16_bytes(height));
            }
            if cut_at(bytes, at, fields) {
                lemma_cut_split(bytes, at, u16_bytes(width), u16_bytes(height));
            }
        },
        ClientEventView::Command(_, text) => {
            lemma_text(bytes, at, text);
        },
        ClientEventView::OpenBuffer(_, path) => {
            lemma_text(bytes, at, path);
        },
    }
}

/// Reading back what was written gives the event that was written, whatever
/// follows its record, and tells how long the record is.
pub proof fn law_client_event_round_trip(event: ClientEventView, rest: Seq<u8>)
    requires
        client_event_fits(event),
    ensures
        take_client_event(client_event_bytes(event) + rest, 0) == Ok::<
            (ClientEventView, int),
            DeserializeError,
        >((event, client_event_bytes(event).len() as int)),
{
    let data = client_event_bytes(event);
    let bytes = data + rest;
    assert(bytes.subrange(0, data.len() as int) =~= data);
    lemma_client_event(bytes, event);
}

/// A record that is cut short reads as insufficient data, wherever it is cut.
pub proof fn law_client_event_partial(event: ClientEventView, n: int)
    requires
        client_event_fits(event),
        0 <= n < client_event_bytes(event).len(),
    ensures
        take_client_event(client_event_bytes(event).take(n), 0) == Err::<
            (ClientEventView, int),
            DeserializeError,
        >(DeserializeError::InsufficientData),
{
    let data = client_event_bytes(event);
    let bytes = data.take(n);
    assert(bytes.subrange(0, n) =~= data.take(n));
    lemma_client_event(bytes, event);
}

/// The records of the events, one after another.
pub open spec fn client_events_bytes(events: Seq<ClientEventView>) -> Seq<u8>
    decreases events.len(),
{
    if events.len() == 0 {
        Seq::empty()
    } else {
        client_event_bytes(events[0]) + client_events_bytes(events.skip(1))
    }
}

/// What reading the bytes record by record gives: the events that stand
/// whole at their start, and the bytes that are left behind the last of
/// them.
#[verifier::opaque]
pub open spec fn client_events_read(bytes: Seq<u8>) -> (Seq<ClientEventView>, Seq<u8>)
    decreases bytes.len(),
{
    match take_client_event(bytes, 0) {
        Ok((event, length)) => if 0 < length <= bytes.len() {
            let (more, rest) = client_events_read(bytes.skip(length));
            (seq![event] + more, rest)
        } else {
            (Seq::empty(), bytes)
        },
        Err(_) => (Seq::empty(), bytes),
    }
}

proof fn lemma_record_not_empty(event: ClientEventView)
    ensures
        client_event_bytes(event).len() > 0,
{
}

/// Whether the bytes begin with the whole record of `event`, which takes
/// `length` bytes.
#[verifier::opaque]
pub open spec fn begins_with_record(bytes: Seq<u8>, event: ClientEventView, length: int) -> bool {
    take_client_event(bytes, 0) == Ok::<(ClientEventView, int), DeserializeError>((event, length))
}

/// Whether the bytes begin with no whole record.
#[verifier::opaque]
pub open spec fn begins_with_no_record(bytes: Seq<u8>) -> bool {
    take_client_event(bytes, 0) is Err
}

proof fn lemma_record_read(event: ClientEventView, behind: Seq<u8>)
    requires
        client_event_fits(event),
    ensures
        client_event_bytes(event).len() > 0,
        begins_with_record(
            client_event_bytes(event) + behind,
            event,
            client_event_bytes(event).len() as int,
        ),
{
    reveal(begins_with_record);
    law_client_event_round_trip(event, behind);
    lemma_record_not_empty(event);
}

proof fn lemma_read_behind(bytes: Seq<u8>, event: ClientEventView, record: Seq<u8>, behind: Seq<u8>)
    requires
        bytes == record + behind,
        record.len() > 0,
        begins_with_record(bytes, event, record.len() as int),
    ensures
        client_events_read(bytes) == (
            seq![event] + client_events_read(behind).0,
            client_events_read(behind).1,
        ),
{
    reveal(begins_with_record);
    reveal_with_fuel(client_events_read, 1);
    assert(bytes.skip(record.len() as int) =~= behind);
}

proof fn lemma_read_nothing(tail: Seq<u8>)
    requires
        begins_with_no_record(tail),
    ensures
        client_events_read(tail) == (Seq::<ClientEventView>::empty(), tail),
{
    reveal(begins_with_no_record);
    reveal_with_fuel(client_events_read, 1);
}

proof fn lemma_events_read(events: Seq<ClientEventView>, tail: Seq<u8>)
    requires
        forall|i: int| 0 <= i < events.len() ==> client_event_fits(#[trigger] events[i]),
        begins_with_no_record(tail),
    ensures
        client_events_read(client_events_bytes(events) + tail) == (events, tail),
    decreases events.len(),
{
    if events.len() == 0 {
        assert(client_events_bytes(events) + tail =~= tail);
        lemma_read_nothing(tail);
    } else {
        let event = events[0];
        let others = events.skip(1);
        let record = client_event_bytes(event);
        let behind = client_events_bytes(others) + tail;
        let bytes = client_events_bytes(events) + tail;
        assert(bytes =~= record + behind);
        lemma_record_read(event, behind);
        lemma_read_behind(bytes, event, record, behind);
        assert forall|i: int| 0 <= i < others.len() implies client_event_fits(
            #[trigger] others[i],
        ) by {
            assert(others[i] == events[i + 1]);
        }
        lemma_events_read(others, tail);
        assert(seq![event] + others =~= events);
    }
}

/// Reading the records of events, followed by bytes that are no whole
/// record, gives back exactly those events, in order, and leaves those
/// bytes.
pub proof fn law_client_events_round_trip(events: Seq<ClientEventView>, tail: Seq<u8>)
    requires
        forall|i: int| 0 <= i < events.len() ==> client_event_fits(#[trigger] events[i]),
        take_client_event(tail, 0) is Err,
    ensures
        client_events_read(client_events_bytes(events) + tail) == (events, tail),
{
    assert(begins_with_no_record(tail)) by {
        reveal(begins_with_no_record);
    }
    lemma_events_read(events, tail);
}

/// A record that comes in two parts is read as no event from the first
/// part, which is kept whole, and as exactly its event once the second
/// part has joined the first.
pub proof fn law_client_event_in_two_parts(event: ClientEventView, n: int)
    requires
        client_event_fits(event),
        0 <= n < client_event_bytes(event).len(),
    ensures
        client_events_read(client_event_bytes(event).take(n)) == (
            Seq::<ClientEventView>::empty(),
            client_event_bytes(event).take(n),
        ),
        client_events_read(client_event_bytes(event).take(n) + client_event_bytes(event).skip(n))
            == (seq![event], Seq::<u8>::empty()),
{
    let record = client_event_bytes(event);
    let none = Seq::<u8>::empty();
    assert(begins_with_no_record(record.take(n))) by {
        reveal(begins_with_no_record);
        law_client_event_partial(event, n);
    }
    lemma_read_nothing(record.take(n));
    assert(begins_with_no_record(none)) by {
        reveal(begins_with_no_record);
    }
    lemma_read_nothing(none);
    lemma_record_read(event, none);
    lemma_read_behind(record + none, event, record, none);
    assert(record + none =~= record);
    assert(record.take(n) + record.skip(n) =~= record);
    assert(seq![event] + Seq::<ClientEventView>::empty() =~= seq![event]);
}

} // verus!

//! Mouse movements in datagrams, and keys, buttons and wheels on a reliable stream.
use super::protocol;
use super::protocol::{
    decode_message, encode_message, ChannelId, MessageHeader, MessageType, ProtocolError,
    SessionId, HEADER_LEN,
};
use crate::counting;
use crate::wire;
use std::collections::BTreeSet;
use vstd::prelude::*;

verus! {

broadcast use {vstd::std_specs::btree::group_btree_axioms, vstd::laws_cmp::group_laws_cmp};

pub const MOUSE_MOVEMENT_PAYLOAD_LEN: usize = 20;

pub const RELIABLE_INPUT_PAYLOAD_LEN: usize = 24;

pub const MAX_DISPLAY_ID: u32 = 255;

pub const KNOWN_BUTTON_MASK: u16 = 0x001f;

#[derive(Clone, Copy, Debug, Eq, PartialEq, Structural)]
pub enum MouseMovementMode {
    Absolute,
    Relative,
}

impl MouseMovementMode {
    /// The byte that stands for the mode on the wire.
    pub open spec fn code_spec(self) -> u8 {
        match self {
            MouseMovementMode::Absolute => 1,
            MouseMovementMode::Relative => 2,
        }
    }

    /// The byte that stands for the mode on the wire.
    #[verifier::when_used_as_spec(code_spec)]
    pub fn code(self) -> (code: u8)
        ensures
            code == self.code_spec(),
    {
        match self {
            MouseMovementMode::Absolute => 1,
            MouseMovementMode::Relative => 2,
        }
    }
}

/// The mode that a byte stands for.
pub open spec fn mouse_mode_of(value: u8) -> Result<MouseMovementMode, InputProtocolError> {
    match value {
        1 => Ok(MouseMovementMode::Absolute),
        2 => Ok(MouseMovementMode::Relative),
        _ => Err(InputProtocolError::UnknownMouseMode(value)),
    }
}

impl vstd::std_specs::convert::TryFromSpecImpl<u8> for MouseMovementMode {
    open spec fn obeys_try_from_spec() -> bool {
        true
    }

    open spec fn try_from_spec(value: u8) -> Result<Self, InputProtocolError> {
        mouse_mode_of(value)
    }
}

impl TryFrom<u8> for MouseMovementMode {
    type Error = InputProtocolError;

    fn try_from(value: u8) -> (result: Result<Self, InputProtocolError>) {
        match value {
            1 => Ok(MouseMovementMode::Absolute),
            2 => Ok(MouseMovementMode::Relative),
            _ => Err(InputProtocolError::UnknownMouseMode(value)),
        }
    }
}

#[derive(Clone, Copy, Debug, Eq, PartialEq, Structural)]
pub struct MouseMovement {
    pub sequence_number: u64,
    pub monotonic_timestamp_us: u64,
    pub mode: MouseMovementMode,
    pub x: i32,
    pub y: i32,
    pub display_id: u32,
    pub button_state_mask: u16,
}

#[derive(Clone, Copy, Debug, Eq, PartialEq, Ord, PartialOrd, Structural)]
pub enum MouseButton {
    Left,
    Right,
    Middle,
    Back,
    Forward,
}

impl MouseButton {
    /// The byte that stands for the button on the wire.
    pub open spec fn code_spec(self) -> u8 {
        match self {
            MouseButton::Left => 1,
            MouseButton::Right => 2,
            MouseButton::Middle => 3,
            MouseButton::Back => 4,
            MouseButton::Forward => 5,
        }
    }

    /// The byte that stands for the button on the wire.
    #[verifier::when_used_as_spec(code_spec)]
    pub fn code(self) -> (code: u8)
        ensures
            code == self.code_spec(),
    {
        match self {
            MouseButton::Left => 1,
            MouseButton::Right => 2,
            MouseButton::Middle => 3,
            MouseButton::Back => 4,
            MouseButton::Forward => 5,
        }
    }

    /// The bit that stands for the button in a mask of buttons.
    pub open spec fn mask_spec(self) -> u16 {
        match self {
            MouseButton::Left => 1,
            MouseButton::Right => 2,
            MouseButton::Middle => 4,
            MouseButton::Back => 8,
            MouseButton::Forward => 16,
        }
    }

    fn mask(self) -> (mask: u16)
        ensures
            mask == self.mask_spec(),
    {
        match self {
            MouseButton::Left => 1,
            MouseButton::Right => 2,
            MouseButton::Middle => 4,
            MouseButton::Back => 8,
            MouseButton::Forward => 16,
        }
    }
}

/// The button that a byte stands for.
pub open spec fn mouse_button_of(value: u8) -> Result<MouseButton, InputProtocolError> {
    match value {
        1 => Ok(MouseButton::Left),
        2 => Ok(MouseButton::Right),
        3 => Ok(MouseButton::Middle),
        4 => Ok(MouseButton::Back),
        5 => Ok(MouseButton::Forward),
        _ => Err(InputProtocolError::UnknownMouseButton(value)),
    }
}

impl vstd::std_specs::convert::TryFromSpecImpl<u8> for MouseButton {
    open spec fn obeys_try_from_spec() -> bool {
        true
    }

    open spec fn try_from_spec(value: u8) -> Result<Self, InputProtocolError> {
        mouse_button_of(value)
    }
}

impl TryFrom<u8> for MouseButton {
    type Error = InputProtocolError;

    fn try_from(value: u8) -> (result: Result<Self, InputProtocolError>) {
        match value {
            1 => Ok(MouseButton::Left),
            2 => Ok(MouseButton::Right),
            3 => Ok(MouseButton::Middle),
            4 => Ok(MouseButton::Back),
            5 => Ok(MouseButton::Forward),
            _ => Err(InputProtocolError::UnknownMouseButton(value)),
        }
    }
}

#[derive(Clone, Copy, Debug, Eq, PartialEq, Structural)]
pub enum ReliableInputEvent {
    Key { key_code: u32, pressed: bool, modifiers: u32 },
    MouseButton { button: MouseButton, pressed: bool, x: i32, y: i32, display_id: u32 },
    Wheel { delta_x: i32, delta_y: i32, display_id: u32 },
}

#[derive(Clone, Copy, Debug, Eq, PartialEq, Structural)]
pub enum InputProtocolError {
    Protocol(ProtocolError),
    InvalidMousePayloadSize,
    InvalidReliablePayloadSize,
    UnknownMouseMode(u8),
    UnknownInputEvent(u8),
    UnknownMouseButton(u8),
    UnknownFlags(u8),
    ReservedField,
    InvalidDisplayId(u32),
    InvalidButtonMask(u16),
    InvalidCoordinates,
    InvalidKeyCode,
    InvalidSequence { previous: u64, received: u64 },
    SessionMismatch,
}

/// Whether a point lies within the range of absolute coordinates.
pub open spec fn absolute_ok(x: i32, y: i32) -> bool {
    0 <= x <= 1_000_000 && 0 <= y <= 1_000_000
}

/// Whether a step lies within the range of relative coordinates.
pub open spec fn relative_ok(x: i32, y: i32) -> bool {
    -100_000 <= x <= 100_000 && -100_000 <= y <= 100_000
}

/// The first rule that a movement breaks, if any.
pub open spec fn movement_error(movement: MouseMovement) -> Option<InputProtocolError> {
    if movement.display_id > MAX_DISPLAY_ID {
        Some(InputProtocolError::InvalidDisplayId(movement.display_id))
    } else if movement.button_state_mask & !KNOWN_BUTTON_MASK != 0 {
        Some(InputProtocolError::InvalidButtonMask(movement.button_state_mask))
    } else if match movement.mode {
        MouseMovementMode::Absolute => absolute_ok(movement.x, movement.y),
        MouseMovementMode::Relative => relative_ok(movement.x, movement.y),
    } {
        None
    } else {
        Some(InputProtocolError::InvalidCoordinates)
    }
}

fn validate_display_id(display_id: u32) -> (result: Result<(), InputProtocolError>)
    ensures
        if display_id > MAX_DISPLAY_ID {
            result == Err::<(), _>(InputProtocolError::InvalidDisplayId(display_id))
        } else {
            result == Ok::<_, InputProtocolError>(())
        },
{
    if display_id > MAX_DISPLAY_ID {
        return Err(InputProtocolError::InvalidDisplayId(display_id));
    }
    Ok(())
}

fn validate_absolute_coordinates(x: i32, y: i32) -> (result: Result<(), InputProtocolError>)
    ensures
        if absolute_ok(x, y) {
            result == Ok::<_, InputProtocolError>(())
        } else {
            result == Err::<(), _>(InputProtocolError::InvalidCoordinates)
        },
{
    if x < 0 || y < 0 || x > 1_000_000 || y > 1_000_000 {
        return Err(InputProtocolError::InvalidCoordinates);
    }
    Ok(())
}

fn validate_relative_coordinates(x: i32, y: i32) -> (result: Result<(), InputProtocolError>)
    ensures
        if relative_ok(x, y) {
            result == Ok::<_, InputProtocolError>(())
        } else {
            result == Err::<(), _>(InputProtocolError::InvalidCoordinates)
        },
{
    if x < -100_000 || x > 100_000 || y < -100_000 || y > 100_000 {
        return Err(InputProtocolError::InvalidCoordinates);
    }
    Ok(())
}

fn validate_mouse_movement(movement: MouseMovement) -> (result: Result<(), InputProtocolError>)
    ensures
        match movement_error(movement) {
            Some(error) => result == Err::<(), _>(error),
            None => result == Ok::<_, InputProtocolError>(()),
        },
{
    validate_display_id(movement.display_id)?;
    if movement.button_state_mask & !KNOWN_BUTTON_MASK != 0 {
        return Err(InputProtocolError::InvalidButtonMask(movement.button_state_mask));
    }
    match movement.mode {
        MouseMovementMode::Absolute => validate_absolute_coordinates(movement.x, movement.y),
        MouseMovementMode::Relative => validate_relative_coordinates(movement.x, movement.y),
    }
}

/// The twenty bytes of a movement.
pub open spec fn movement_bytes(movement: MouseMovement) -> Seq<u8> {
    seq![movement.mode.code(), 0u8] + wire::be16(movement.button_state_mask) + wire::be32(
        movement.display_id,
    ) + wire::be32(wire::bits_of_i32(movement.x)) + wire::be32(wire::bits_of_i32(movement.y))
        + wire::be32(0)
}

/// The header of a movement's message with a payload of the given length.
pub open spec fn movement_header(
    session_id: SessionId,
    movement: MouseMovement,
    payload_length: nat,
) -> MessageHeader {
    MessageHeader {
        message_type: MessageType::MouseMovement,
        flags: 0,
        channel: ChannelId::MouseDatagram,
        session_id,
        sequence_number: movement.sequence_number,
        payload_length: payload_length as u32,
        monotonic_timestamp_us: movement.monotonic_timestamp_us,
    }
}

/// The datagram of a movement, with what the application adds to it.
pub open spec fn movement_datagram(
    session_id: SessionId,
    movement: MouseMovement,
    extra: Seq<u8>,
) -> Seq<u8> {
    protocol::header_bytes(
        movement_header(session_id, movement, MOUSE_MOVEMENT_PAYLOAD_LEN as nat + extra.len()),
    ) + (movement_bytes(movement) + extra)
}

/// The first reason, if any, why a movement with `extra` more bytes cannot be sent.
pub open spec fn movement_sending_error(
    session_id: Seq<u8>,
    movement: MouseMovement,
    extra: nat,
    max_datagram_size: usize,
) -> Option<InputProtocolError> {
    if movement_error(movement) is Some {
        movement_error(movement)
    } else if HEADER_LEN + MOUSE_MOVEMENT_PAYLOAD_LEN + extra > max_datagram_size {
        Some(InputProtocolError::InvalidMousePayloadSize)
    } else {
        match protocol::field_error(
            MessageType::MouseMovement,
            0,
            ChannelId::MouseDatagram,
            session_id,
            movement.sequence_number,
            (MOUSE_MOVEMENT_PAYLOAD_LEN + extra) as usize,
        ) {
            Some(error) => Some(InputProtocolError::Protocol(error)),
            None => None,
        }
    }
}

/// The movement at the front of a payload, or the first reason why there is none.
pub open spec fn parse_movement(sequence_number: u64, timestamp: u64, payload: Seq<u8>) -> Result<
    MouseMovement,
    InputProtocolError,
> {
    if payload[1] != 0 || wire::u32_at(payload, 16) != 0 {
        Err(InputProtocolError::ReservedField)
    } else {
        match mouse_mode_of(payload[0]) {
            Err(error) => Err(error),
            Ok(mode) => {
                let movement = MouseMovement {
                    sequence_number,
                    monotonic_timestamp_us: timestamp,
                    mode,
                    button_state_mask: wire::u16_at(payload, 2),
                    display_id: wire::u32_at(payload, 4),
                    x: wire::i32_of(wire::u32_at(payload, 8)),
                    y: wire::i32_of(wire::u32_at(payload, 12)),
                };
                match movement_error(movement) {
                    Some(error) => Err(error),
                    None => Ok(movement),
                }
            },
        }
    }
}

/// Why a datagram is no message about the mouse, if at all.
pub open spec fn mouse_message_error(datagram: Seq<u8>) -> Option<InputProtocolError> {
    match protocol::message_error(datagram) {
        Some(error) => Some(InputProtocolError::Protocol(error)),
        None => if protocol::packet_type(datagram) != MessageType::MouseMovement {
            Some(
                InputProtocolError::Protocol(
                    ProtocolError::ChannelMismatch {
                        message_type: protocol::packet_type(datagram),
                        channel: protocol::packet_type(datagram).channel(),
                    },
                ),
            )
        } else {
            None
        },
    }
}

/// The movement that a datagram carries, or the first reason why it carries none.
pub open spec fn parse_movement_datagram(datagram: Seq<u8>) -> Result<
    MouseMovement,
    InputProtocolError,
> {
    if mouse_message_error(datagram) is Some {
        Err(mouse_message_error(datagram)->Some_0)
    } else if protocol::packet_payload(datagram).len() != MOUSE_MOVEMENT_PAYLOAD_LEN {
        Err(InputProtocolError::InvalidMousePayloadSize)
    } else {
        parse_movement(
            wire::u64_at(datagram, 28),
            wire::u64_at(datagram, 40),
            protocol::packet_payload(datagram),
        )
    }
}

/// The movement and the application's bytes that a datagram carries, or the first
/// reason why it does not carry them.
pub open spec fn parse_application_datagram(datagram: Seq<u8>) -> Result<
    (MouseMovement, Seq<u8>),
    InputProtocolError,
> {
    let payload = protocol::packet_payload(datagram);
    if mouse_message_error(datagram) is Some {
        Err(mouse_message_error(datagram)->Some_0)
    } else if payload.len() <= MOUSE_MOVEMENT_PAYLOAD_LEN {
        Err(InputProtocolError::InvalidMousePayloadSize)
    } else {
        match parse_movement(wire::u64_at(datagram, 28), wire::u64_at(datagram, 40), payload) {
            Err(error) => Err(error),
            Ok(movement) => Ok(
                (
                    movement,
                    payload.subrange(MOUSE_MOVEMENT_PAYLOAD_LEN as int, payload.len() as int),
                ),
            ),
        }
    }
}

fn encode_movement_message(
    session_id: SessionId,
    movement: MouseMovement,
    extra: &[u8],
    max_datagram_size: usize,
) -> (result: Result<Vec<u8>, InputProtocolError>)
    ensures
        match movement_sending_error(session_id@, movement, extra@.len(), max_datagram_size) {
            Some(error) => result == Err::<Vec<u8>, _>(error),
            None => result matches Ok(datagram) && datagram@ == movement_datagram(
                session_id,
                movement,
                extra@,
            ) && datagram@.len() <= max_datagram_size,
        },
{
    validate_mouse_movement(movement)?;
    if max_datagram_size < HEADER_LEN + MOUSE_MOVEMENT_PAYLOAD_LEN || extra.len()
        > max_datagram_size - HEADER_LEN - MOUSE_MOVEMENT_PAYLOAD_LEN {
        return Err(InputProtocolError::InvalidMousePayloadSize);
    }
    let mut payload: Vec<u8> = Vec::new();
    wire::put_u8(&mut payload, movement.mode.code());
    wire::put_u8(&mut payload, 0);
    wire::put_u16(&mut payload, movement.button_state_mask);
    wire::put_u32(&mut payload, movement.display_id);
    wire::put_i32(&mut payload, movement.x);
    wire::put_i32(&mut payload, movement.y);
    wire::put_u32(&mut payload, 0);
    assert(payload@ =~= movement_bytes(movement));
    wire::put_bytes(&mut payload, extra);
    let header = match MessageHeader::new(
        MessageType::MouseMovement,
        0,
        session_id,
        movement.sequence_number,
        payload.len(),
        movement.monotonic_timestamp_us,
    ) {
        Ok(header) => header,
        Err(error) => {
            return Err(InputProtocolError::Protocol(error));
        },
    };
    match encode_message(&header, &payload) {
        Ok(datagram) => {
            proof {
                protocol::lemma_packet_parts(datagram@, header, payload@);
            }
            Ok(datagram)
        },
        Err(error) => Err(InputProtocolError::Protocol(error)),
    }
}

/// The datagram of a movement.
pub fn encode_mouse_movement(
    session_id: SessionId,
    movement: MouseMovement,
    max_datagram_size: usize,
) -> (result: Result<Vec<u8>, InputProtocolError>)
    ensures
        match movement_sending_error(session_id@, movement, 0, max_datagram_size) {
            Some(error) => result == Err::<Vec<u8>, _>(error),
            None => result matches Ok(datagram) && datagram@ == movement_datagram(
                session_id,
                movement,
                Seq::empty(),
            ) && datagram@.len() <= max_datagram_size,
        },
{
    let none: Vec<u8> = Vec::new();
    encode_movement_message(session_id, movement, &none, max_datagram_size)
}

/// The datagram of a movement, followed by bytes of the application.
pub fn encode_application_mouse_movement(
    session_id: SessionId,
    movement: MouseMovement,
    application_payload: &[u8],
    max_datagram_size: usize,
) -> (result: Result<Vec<u8>, InputProtocolError>)
    ensures
        if application_payload@.len() == 0 {
            result == Err::<Vec<u8>, _>(InputProtocolError::InvalidMousePayloadSize)
        } else {
            match movement_sending_error(
                session_id@,
                movement,
                application_payload@.len(),
                max_datagram_size,
            ) {
                Some(error) => result == Err::<Vec<u8>, _>(error),
                None => result matches Ok(datagram) && datagram@ == movement_datagram(
                    session_id,
                    movement,
                    application_payload@,
                ) && datagram@.len() <= max_datagram_size,
            }
        },
{
    if application_payload.len() == 0 {
        return Err(InputProtocolError::InvalidMousePayloadSize);
    }
    encode_movement_message(session_id, movement, application_payload, max_datagram_size)
}

fn decode_movement(sequence_number: u64, timestamp: u64, payload: &[u8]) -> (result: Result<
    MouseMovement,
    InputProtocolError,
>)
    requires
        payload@.len() >= MOUSE_MOVEMENT_PAYLOAD_LEN,
    ensures
        result == parse_movement(sequence_number, timestamp, payload@),
{
    if payload[1] != 0 || wire::read_u32(payload, 16) != 0 {
        return Err(InputProtocolError::ReservedField);
    }
    let mode = MouseMovementMode::try_from(payload[0])?;
    let movement = MouseMovement {
        sequence_number,
        monotonic_timestamp_us: timestamp,
        mode,
        button_state_mask: wire::read_u16(payload, 2),
        display_id: wire::read_u32(payload, 4),
        x: wire::read_i32(payload, 8),
        y: wire::read_i32(payload, 12),
    };
    validate_mouse_movement(movement)?;
    Ok(movement)
}

/// The movement that a datagram carries.
pub fn decode_mouse_movement(datagram: &[u8]) -> (result: Result<MouseMovement, InputProtocolError>)
    ensures
        result == parse_movement_datagram(datagram@),
{
    let message = match decode_message(datagram) {
        Ok(message) => message,
        Err(error) => {
            return Err(InputProtocolError::Protocol(error));
        },
    };
    proof {
        protocol::lemma_packet_parts(datagram@, message.header, message.payload@);
    }
    if message.header.message_type != MessageType::MouseMovement {
        return Err(
            InputProtocolError::Protocol(
                ProtocolError::ChannelMismatch {
                    message_type: message.header.message_type,
                    channel: message.header.channel,
                },
            ),
        );
    }
    if message.payload.len() != MOUSE_MOVEMENT_PAYLOAD_LEN {
        return Err(InputProtocolError::InvalidMousePayloadSize);
    }
    decode_movement(
        message.header.sequence_number,
        message.header.monotonic_timestamp_us,
        message.payload,
    )
}

/// The movement and the application's bytes that a datagram carries.
pub fn decode_application_mouse_movement(datagram: &[u8]) -> (result: Result<
    (MouseMovement, Vec<u8>),
    InputProtocolError,
>)
    ensures
        match parse_application_datagram(datagram@) {
            Err(error) => result == Err::<(MouseMovement, Vec<u8>), _>(error),
            Ok((movement, extra)) => result matches Ok(decoded) && decoded.0 == movement
                && decoded.1@ == extra,
        },
{
    let message = match decode_message(datagram) {
        Ok(message) => message,
        Err(error) => {
            return Err(InputProtocolError::Protocol(error));
        },
    };
    proof {
        protocol::lemma_packet_parts(datagram@, message.header, message.payload@);
    }
    if message.header.message_type != MessageType::MouseMovement {
        return Err(
            InputProtocolError::Protocol(
                ProtocolError::ChannelMismatch {
                    message_type: message.header.message_type,
                    channel: message.header.channel,
                },
            ),
        );
    }
    if message.payload.len() <= MOUSE_MOVEMENT_PAYLOAD_LEN {
        return Err(InputProtocolError::InvalidMousePayloadSize);
    }
    let movement = decode_movement(
        message.header.sequence_number,
        message.header.monotonic_timestamp_us,
        message.payload,
    )?;
    Ok(
        (
            movement,
            wire::copy_range(message.payload, MOUSE_MOVEMENT_PAYLOAD_LEN, message.payload.len()),
        ),
    )
}

/// The twenty-four bytes of an event.
pub open spec fn input_bytes(event: ReliableInputEvent) -> Seq<u8> {
    match event {
        ReliableInputEvent::Key { key_code, pressed, modifiers } => seq![1u8, pressed_byte(pressed)]
            + wire::be16(0) + wire::be32(key_code) + wire::be32(0) + wire::be32(0) + wire::be32(
            modifiers,
        ) + wire::be32(0),
        ReliableInputEvent::MouseButton { button, pressed, x, y, display_id } => seq![
            2u8,
            pressed_byte(pressed),
        ] + wire::be16(0) + seq![button.code(), 0u8, 0u8, 0u8] + wire::be32(wire::bits_of_i32(x))
            + wire::be32(wire::bits_of_i32(y)) + wire::be32(display_id) + wire::be32(0),
        ReliableInputEvent::Wheel { delta_x, delta_y, display_id } => seq![3u8, 0u8] + wire::be16(0)
            + wire::be32(0) + wire::be32(wire::bits_of_i32(delta_x)) + wire::be32(
            wire::bits_of_i32(delta_y),
        ) + wire::be32(display_id) + wire::be32(0),
    }
}

pub open spec fn pressed_byte(pressed: bool) -> u8 {
    if pressed {
        1
    } else {
        0
    }
}

/// Whether an event can be sent and read back.
pub open spec fn event_ok(event: ReliableInputEvent) -> bool {
    match event {
        ReliableInputEvent::Key { key_code, .. } => key_code != 0,
        ReliableInputEvent::MouseButton { x, y, display_id, .. } => display_id <= MAX_DISPLAY_ID
            && absolute_ok(x, y),
        ReliableInputEvent::Wheel { delta_x, delta_y, display_id } => display_id <= MAX_DISPLAY_ID
            && relative_ok(delta_x, delta_y),
    }
}

/// The event in a payload, or the first reason why there is none.
pub open spec fn parse_input(payload: Seq<u8>) -> Result<ReliableInputEvent, InputProtocolError> {
    let display_id = wire::u32_at(payload, 16);
    let x = wire::i32_of(wire::u32_at(payload, 8));
    let y = wire::i32_of(wire::u32_at(payload, 12));
    if payload.len() != RELIABLE_INPUT_PAYLOAD_LEN {
        Err(InputProtocolError::InvalidReliablePayloadSize)
    } else if wire::u16_at(payload, 2) != 0 || wire::u32_at(payload, 20) != 0 {
        Err(InputProtocolError::ReservedField)
    } else if payload[1] > 1 {
        Err(InputProtocolError::UnknownFlags(payload[1]))
    } else if payload[0] == 1 {
        if wire::u32_at(payload, 4) == 0 || x != 0 || y != 0 {
            Err(InputProtocolError::InvalidKeyCode)
        } else {
            Ok(
                ReliableInputEvent::Key {
                    key_code: wire::u32_at(payload, 4),
                    pressed: payload[1] != 0,
                    modifiers: wire::u32_at(payload, 16),
                },
            )
        }
    } else if payload[0] == 2 {
        if payload[5] != 0 || payload[6] != 0 || payload[7] != 0 {
            Err(InputProtocolError::ReservedField)
        } else if display_id > MAX_DISPLAY_ID {
            Err(InputProtocolError::InvalidDisplayId(display_id))
        } else if !absolute_ok(x, y) {
            Err(InputProtocolError::InvalidCoordinates)
        } else {
            match mouse_button_of(payload[4]) {
                Err(error) => Err(error),
                Ok(button) => Ok(
                    ReliableInputEvent::MouseButton {
                        button,
                        pressed: payload[1] != 0,
                        x,
                        y,
                        display_id,
                    },
                ),
            }
        }
    } else if payload[0] == 3 {
        if payload[1] != 0 || wire::u32_at(payload, 4) != 0 {
            Err(InputProtocolError::ReservedField)
        } else if display_id > MAX_DISPLAY_ID {
            Err(InputProtocolError::InvalidDisplayId(display_id))
        } else if !relative_ok(x, y) {
            Err(InputProtocolError::InvalidCoordinates)
        } else {
            Ok(ReliableInputEvent::Wheel { delta_x: x, delta_y: y, display_id })
        }
    } else {
        Err(InputProtocolError::UnknownInputEvent(payload[0]))
    }
}

/// The bytes of an event.
pub fn encode_reliable_input(event: ReliableInputEvent) -> (payload: Vec<u8>)
    ensures
        payload@ == input_bytes(event),
{
    let mut payload: Vec<u8> = Vec::new();
    match event {
        ReliableInputEvent::Key { key_code, pressed, modifiers } => {
            wire::put_u8(&mut payload, 1);
            wire::put_u8(&mut payload, if pressed { 1 } else { 0 });
            wire::put_u16(&mut payload, 0);
            wire::put_u32(&mut payload, key_code);
            wire::put_u32(&mut payload, 0);
            wire::put_u32(&mut payload, 0);
            wire::put_u32(&mut payload, modifiers);
            wire::put_u32(&mut payload, 0);
        },
        ReliableInputEvent::MouseButton { button, pressed, x, y, display_id } => {
            wire::put_u8(&mut payload, 2);
            wire::put_u8(&mut payload, if pressed { 1 } else { 0 });
            wire::put_u16(&mut payload, 0);
            wire::put_u8(&mut payload, button.code());
            wire::put_u8(&mut payload, 0);
            wire::put_u8(&mut payload, 0);
            wire::put_u8(&mut payload, 0);
            wire::put_i32(&mut payload, x);
            wire::put_i32(&mut payload, y);
            wire::put_u32(&mut payload, display_id);
            wire::put_u32(&mut payload, 0);
        },
        ReliableInputEvent::Wheel { delta_x, delta_y, display_id } => {
            wire::put_u8(&mut payload, 3);
            wire::put_u8(&mut payload, 0);
            wire::put_u16(&mut payload, 0);
            wire::put_u32(&mut payload, 0);
            wire::put_i32(&mut payload, delta_x);
            wire::put_i32(&mut payload, delta_y);
            wire::put_u32(&mut payload, display_id);
            wire::put_u32(&mut payload, 0);
        },
    }
    assert(payload@ =~= input_bytes(event));
    payload
}

/// The event in a payload.
pub fn decode_reliable_input(payload: &[u8]) -> (result: Result<
    ReliableInputEvent,
    InputProtocolError,
>)
    ensures
        result == parse_input(payload@),
{
    if payload.len() != RELIABLE_INPUT_PAYLOAD_LEN {
        return Err(InputProtocolError::InvalidReliablePayloadSize);
    }
    if wire::read_u16(payload, 2) != 0 || wire::read_u32(payload, 20) != 0 {
        return Err(InputProtocolError::ReservedField);
    }
    let flags: u8 = payload[1];
    assert((flags & !1u8 != 0) == (flags > 1)) by (bit_vector);
    if flags & !1u8 != 0 {
        return Err(InputProtocolError::UnknownFlags(flags));
    }
    let x: i32 = wire::read_i32(payload, 8);
    let y: i32 = wire::read_i32(payload, 12);
    match payload[0] {
        1 => {
            if wire::read_u32(payload, 4) == 0 || x != 0 || y != 0 {
                return Err(InputProtocolError::InvalidKeyCode);
            }
            Ok(
                ReliableInputEvent::Key {
                    key_code: wire::read_u32(payload, 4),
                    pressed: flags != 0,
                    modifiers: wire::read_u32(payload, 16),
                },
            )
        },
        2 => {
            if payload[5] != 0 || payload[6] != 0 || payload[7] != 0 {
                return Err(InputProtocolError::ReservedField);
            }
            let display_id: u32 = wire::read_u32(payload, 16);
            validate_display_id(display_id)?;
            validate_absolute_coordinates(x, y)?;
            let button = MouseButton::try_from(payload[4])?;
            Ok(
                ReliableInputEvent::MouseButton { button, pressed: flags != 0, x, y, display_id },
            )
        },
        3 => {
            if flags != 0 || wire::read_u32(payload, 4) != 0 {
                return Err(InputProtocolError::ReservedField);
            }
            let display_id: u32 = wire::read_u32(payload, 16);
            validate_display_id(display_id)?;
            validate_relative_coordinates(x, y)?;
            Ok(ReliableInputEvent::Wheel { delta_x: x, delta_y: y, display_id })
        },
        value => Err(InputProtocolError::UnknownInputEvent(value)),
    }
}

/// Keeps the newest mouse movement of a session and drops older ones.
pub struct MouseMovementReceiver {
    session_id: SessionId,
    last_sequence: u64,
}

/// The session that a mouse receiver listens to, and the last sequence number it took.
pub struct MouseReceiverView {
    pub session_id: Seq<u8>,
    pub last_sequence: u64,
}

impl View for MouseMovementReceiver {
    type V = MouseReceiverView;

    closed spec fn view(&self) -> MouseReceiverView {
        MouseReceiverView { session_id: self.session_id@, last_sequence: self.last_sequence }
    }
}

impl MouseReceiverView {
    /// The state once the sequence number was taken.
    pub open spec fn taking(self, sequence_number: u64) -> MouseReceiverView {
        MouseReceiverView { last_sequence: sequence_number, ..self }
    }

    /// What `apply` does and returns.
    pub open spec fn applied(self, datagram: Seq<u8>) -> (
        MouseReceiverView,
        Result<Option<MouseMovement>, InputProtocolError>,
    ) {
        match protocol::message_error(datagram) {
            Some(error) => (self, Err(InputProtocolError::Protocol(error))),
            None => if datagram.subrange(12, 28) != self.session_id {
                (self, Err(InputProtocolError::SessionMismatch))
            } else {
                match parse_movement_datagram(datagram) {
                    Err(error) => (self, Err(error)),
                    Ok(movement) => if movement.sequence_number <= self.last_sequence {
                        (self, Ok(None))
                    } else {
                        (self.taking(movement.sequence_number), Ok(Some(movement)))
                    },
                }
            },
        }
    }

    /// What `apply_application` does and returns.
    pub open spec fn applied_application(self, datagram: Seq<u8>) -> (
        MouseReceiverView,
        Result<Option<(MouseMovement, Seq<u8>)>, InputProtocolError>,
    ) {
        match protocol::message_error(datagram) {
            Some(error) => (self, Err(InputProtocolError::Protocol(error))),
            None => if datagram.subrange(12, 28) != self.session_id {
                (self, Err(InputProtocolError::SessionMismatch))
            } else {
                match parse_application_datagram(datagram) {
                    Err(error) => (self, Err(error)),
                    Ok((movement, extra)) => if movement.sequence_number <= self.last_sequence {
                        (self, Ok(None))
                    } else {
                        (self.taking(movement.sequence_number), Ok(Some((movement, extra))))
                    },
                }
            },
        }
    }
}

impl MouseMovementReceiver {
    pub fn new(session_id: SessionId) -> (receiver: MouseMovementReceiver)
        ensures
            receiver@ == (MouseReceiverView { session_id: session_id@, last_sequence: 0 }),
    {
        MouseMovementReceiver { session_id, last_sequence: 0 }
    }

    /// Checks that a datagram is a message of the session.
    fn check_session(&self, datagram: &[u8]) -> (result: Result<(), InputProtocolError>)
        ensures
            match protocol::message_error(datagram@) {
                Some(error) => result == Err::<(), _>(InputProtocolError::Protocol(error)),
                None => if datagram@.subrange(12, 28) != self@.session_id {
                    result == Err::<(), _>(InputProtocolError::SessionMismatch)
                } else {
                    result == Ok::<_, InputProtocolError>(())
                },
            },
    {
        let message = match decode_message(datagram) {
            Ok(message) => message,
            Err(error) => {
                return Err(InputProtocolError::Protocol(error));
            },
        };
        proof {
            protocol::lemma_packet_parts(datagram@, message.header, message.payload@);
        }
        if !wire::bytes_equal(&message.header.session_id, &self.session_id) {
            return Err(InputProtocolError::SessionMismatch);
        }
        Ok(())
    }

    /// The movement of a datagram, if it is newer than all before it.
    pub fn apply(&mut self, datagram: &[u8]) -> (result: Result<
        Option<MouseMovement>,
        InputProtocolError,
    >)
        ensures
            (final(self)@, result) == old(self)@.applied(datagram@),
    {
        self.check_session(datagram)?;
        let movement = decode_mouse_movement(datagram)?;
        if movement.sequence_number <= self.last_sequence {
            return Ok(None);
        }
        self.last_sequence = movement.sequence_number;
        Ok(Some(movement))
    }

    /// The movement of a datagram and the bytes that the application added to it, if
    /// it is newer than all before it.
    pub fn apply_application(&mut self, datagram: &[u8]) -> (result: Result<
        Option<(MouseMovement, Vec<u8>)>,
        InputProtocolError,
    >)
        ensures
            final(self)@ == old(self)@.applied_application(datagram@).0,
            match old(self)@.applied_application(datagram@).1 {
                Err(error) => result == Err::<Option<(MouseMovement, Vec<u8>)>, _>(error),
                Ok(None) => result matches Ok(None),
                Ok(Some((movement, extra))) => result matches Ok(Some(taken)) && taken.0 == movement
                    && taken.1@ == extra,
            },
    {
        self.check_session(datagram)?;
        let (movement, extra) = decode_application_mouse_movement(datagram)?;
        if movement.sequence_number <= self.last_sequence {
            return Ok(None);
        }
        self.last_sequence = movement.sequence_number;
        Ok(Some((movement, extra)))
    }

    pub fn reset(&mut self)
        ensures
            final(self)@ == old(self)@.taking(0),
    {
        self.last_sequence = 0;
    }
}

/// Applies keys and buttons in order and knows which of them are down.
pub struct ReliableInputReceiver {
    last_sequence: u64,
    pressed_keys: BTreeSet<u32>,
    pressed_buttons: u16,
}

/// The last sequence number that was applied, and what is down.
#[verifier::ext_equal]
pub struct InputView {
    pub last_sequence: u64,
    pub pressed_keys: Set<u32>,
    pub pressed_buttons: Set<MouseButton>,
}

/// The buttons in a mask.
pub open spec fn buttons_in(mask: u16) -> Set<MouseButton> {
    Set::new(|button: MouseButton| mask & button.mask_spec() != 0)
}

impl View for ReliableInputReceiver {
    type V = InputView;

    closed spec fn view(&self) -> InputView {
        InputView {
            last_sequence: self.last_sequence,
            pressed_keys: self.pressed_keys@,
            pressed_buttons: buttons_in(self.pressed_buttons),
        }
    }
}

impl InputView {
    pub open spec fn fresh() -> InputView {
        InputView {
            last_sequence: 0,
            pressed_keys: Set::empty(),
            pressed_buttons: Set::empty(),
        }
    }

    /// The sequence number that must come next.
    pub open spec fn next_sequence(self) -> u64 {
        counting::saturated64(self.last_sequence, 1)
    }

    /// Whether an event changes what is down, or is a turn of the wheel.
    pub open spec fn is_changed_by(self, event: ReliableInputEvent) -> bool {
        match event {
            ReliableInputEvent::Key { key_code, pressed, .. } => self.pressed_keys.contains(
                key_code,
            ) != pressed,
            ReliableInputEvent::MouseButton { button, pressed, .. } =>
                self.pressed_buttons.contains(button) != pressed,
            ReliableInputEvent::Wheel { .. } => true,
        }
    }

    /// What is down after an event.
    pub open spec fn after(self, event: ReliableInputEvent) -> InputView {
        match event {
            ReliableInputEvent::Key { key_code, pressed, .. } => InputView {
                pressed_keys: if pressed {
                    self.pressed_keys.insert(key_code)
                } else {
                    self.pressed_keys.remove(key_code)
                },
                ..self
            },
            ReliableInputEvent::MouseButton { button, pressed, .. } => InputView {
                pressed_buttons: if pressed {
                    self.pressed_buttons.insert(button)
                } else {
                    self.pressed_buttons.remove(button)
                },
                ..self
            },
            ReliableInputEvent::Wheel { .. } => self,
        }
    }

    /// What `apply` does and returns.
    pub open spec fn applied(self, sequence_number: u64, payload: Seq<u8>) -> (
        InputView,
        Result<Option<ReliableInputEvent>, InputProtocolError>,
    ) {
        if sequence_number != self.next_sequence() {
            (
                self,
                Err(
                    InputProtocolError::InvalidSequence {
                        previous: self.last_sequence,
                        received: sequence_number,
                    },
                ),
            )
        } else {
            match parse_input(payload) {
                Err(error) => (self, Err(error)),
                Ok(event) => (
                    InputView { last_sequence: sequence_number, ..self.after(event) },
                    Ok(
                        if self.is_changed_by(event) {
                            Some(event)
                        } else {
                            None
                        },
                    ),
                ),
            }
        }
    }
}

/// The event that lets a key go.
pub open spec fn key_release(key_code: u32) -> ReliableInputEvent {
    ReliableInputEvent::Key { key_code, pressed: false, modifiers: 0 }
}

/// The event that lets a button go, if it is down.
pub open spec fn button_release(pressed: Set<MouseButton>, button: MouseButton) -> Seq<
    ReliableInputEvent,
> {
    if pressed.contains(button) {
        seq![
            ReliableInputEvent::MouseButton { button, pressed: false, x: 0, y: 0, display_id: 0 },
        ]
    } else {
        Seq::empty()
    }
}

/// The events that let all buttons go that are down.
pub open spec fn button_releases(pressed: Set<MouseButton>) -> Seq<ReliableInputEvent> {
    button_release(pressed, MouseButton::Left) + button_release(pressed, MouseButton::Right)
        + button_release(pressed, MouseButton::Middle) + button_release(pressed, MouseButton::Back)
        + button_release(pressed, MouseButton::Forward)
}

proof fn lemma_button_bits(mask: u16, button: MouseButton, other: MouseButton)
    ensures
        ((mask | button.mask_spec()) & other.mask_spec() != 0) == (mask & other.mask_spec() != 0
            || button == other),
        ((mask & !button.mask_spec()) & other.mask_spec() != 0) == (mask & other.mask_spec() != 0
            && button != other),
{
    let bit = button.mask_spec();
    let probe = other.mask_spec();
    assert(((mask | bit) & probe != 0) == (mask & probe != 0 || bit == probe) && ((mask & !bit)
        & probe != 0) == (mask & probe != 0 && bit != probe)) by (bit_vector)
        requires
            bit == 1 || bit == 2 || bit == 4 || bit == 8 || bit == 16,
            probe == 1 || probe == 2 || probe == 4 || probe == 8 || probe == 16,
    ;
}

proof fn lemma_no_buttons()
    ensures
        buttons_in(0) == Set::<MouseButton>::empty(),
{
    assert forall|button: MouseButton| !buttons_in(0).contains(button) by {
        let bit = button.mask_spec();
        assert(0u16 & bit == 0) by (bit_vector);
    }
    assert(buttons_in(0) =~= Set::<MouseButton>::empty());
}

impl ReliableInputReceiver {
    pub fn new() -> (receiver: ReliableInputReceiver)
        ensures
            receiver@ == InputView::fresh(),
    {
        proof {
            lemma_no_buttons();
        }
        ReliableInputReceiver {
            last_sequence: 0,
            pressed_keys: BTreeSet::new(),
            pressed_buttons: 0,
        }
    }

    /// Applies the event with the next sequence number; tells it if it changed anything.
    pub fn apply(&mut self, sequence_number: u64, payload: &[u8]) -> (result: Result<
        Option<ReliableInputEvent>,
        InputProtocolError,
    >)
        ensures
            (final(self)@, result) == old(self)@.applied(sequence_number, payload@),
    {
        let expected: u64 = self.last_sequence.saturating_add(1);
        if sequence_number != expected {
            return Err(
                InputProtocolError::InvalidSequence {
                    previous: self.last_sequence,
                    received: sequence_number,
                },
            );
        }
        let event = decode_reliable_input(payload)?;
        self.last_sequence = sequence_number;
        let changed = match event {
            ReliableInputEvent::Key { key_code, pressed, .. } => {
                if pressed {
                    self.pressed_keys.insert(key_code)
                } else {
                    self.pressed_keys.remove(&key_code)
                }
            },
            ReliableInputEvent::MouseButton { button, pressed, .. } => {
                let ghost before = self.pressed_buttons;
                let mask: u16 = button.mask();
                let was_pressed = self.pressed_buttons & mask != 0;
                if pressed {
                    self.pressed_buttons = self.pressed_buttons | mask;
                } else {
                    self.pressed_buttons = self.pressed_buttons & !mask;
                }
                proof {
                    assert forall|other: MouseButton| #[trigger]
                        buttons_in(self.pressed_buttons).contains(other) == (if pressed {
                            buttons_in(before).insert(button).contains(other)
                        } else {
                            buttons_in(before).remove(button).contains(other)
                        }) by {
                        lemma_button_bits(before, button, other);
                    }
                }
                was_pressed != pressed
            },
            ReliableInputEvent::Wheel { .. } => true,
        };
        assert(self@ =~= old(self)@.applied(sequence_number, payload@).0);
        Ok(
            if changed {
                Some(event)
            } else {
                None
            },
        )
    }

    fn push_button_release(&self, button: MouseButton, releases: &mut Vec<ReliableInputEvent>)
        ensures
            final(releases)@ == old(releases)@ + button_release(self@.pressed_buttons, button),
    {
        if self.pressed_buttons & button.mask() != 0 {
            releases.push(
                ReliableInputEvent::MouseButton {
                    button,
                    pressed: false,
                    x: 0,
                    y: 0,
                    display_id: 0,
                },
            );
        }
        assert(releases@ =~= old(releases)@ + button_release(self@.pressed_buttons, button));
    }

    /// Lets go of everything that is down: first the keys in increasing order, then
    /// the buttons. The next sequence number is one again.
    pub fn release_all(&mut self) -> (releases: Vec<ReliableInputEvent>)
        ensures
            final(self)@ == InputView::fresh(),
            exists|keys: Seq<u32>| #[trigger]
                counting::lists_members_in_order(keys, old(self)@.pressed_keys) && releases@
                    == keys.map_values(|key: u32| key_release(key)) + button_releases(
                    old(self)@.pressed_buttons,
                ),
    {
        let keys = counting::members_in_order(&self.pressed_keys);
        let ghost names = keys@.map_values(|key: u32| key_release(key));
        let mut releases: Vec<ReliableInputEvent> = Vec::new();
        let mut index: usize = 0;
        while index < keys.len()
            invariant
                index <= keys@.len(),
                names == keys@.map_values(|key: u32| key_release(key)),
                releases@ == names.take(index as int),
            decreases keys@.len() - index,
        {
            releases.push(
                ReliableInputEvent::Key { key_code: keys[index], pressed: false, modifiers: 0 },
            );
            index = index + 1;
            assert(releases@ =~= names.take(index as int));
        }
        assert(releases@ =~= names);
        self.push_button_release(MouseButton::Left, &mut releases);
        self.push_button_release(MouseButton::Right, &mut releases);
        self.push_button_release(MouseButton::Middle, &mut releases);
        self.push_button_release(MouseButton::Back, &mut releases);
        self.push_button_release(MouseButton::Forward, &mut releases);
        assert(releases@ =~= names + button_releases(old(self)@.pressed_buttons));
        assert(counting::lists_members_in_order(keys@, old(self)@.pressed_keys));
        self.pressed_keys.clear();
        self.pressed_buttons = 0;
        self.last_sequence = 0;
        proof {
            lemma_no_buttons();
        }
        releases
    }
}

impl Default for ReliableInputReceiver {
    fn default() -> (receiver: ReliableInputReceiver)
        ensures
            receiver@ == InputView::fresh(),
    {
        ReliableInputReceiver::new()
    }
}

/// An event that can be sent comes back from its bytes.
#[verifier::rlimit(50)]
#[verifier::spinoff_prover]
pub proof fn lemma_input_round_trip(event: ReliableInputEvent)
    requires
        event_ok(event),
    ensures
        parse_input(input_bytes(event)) == Ok::<_, InputProtocolError>(event),
{
    let bytes = input_bytes(event);
    assert(bytes.subrange(2, 4) =~= wire::be16(0));
    assert(bytes.subrange(20, 24) =~= wire::be32(0));
    wire::lemma_u16_round_trip(bytes, 2, 0);
    wire::lemma_u32_round_trip(bytes, 20, 0);
    match event {
        ReliableInputEvent::Key { key_code, pressed, modifiers } => {
            assert(bytes.subrange(4, 8) =~= wire::be32(key_code));
            assert(bytes.subrange(8, 12) =~= wire::be32(0));
            assert(bytes.subrange(12, 16) =~= wire::be32(0));
            assert(bytes.subrange(16, 20) =~= wire::be32(modifiers));
            wire::lemma_u32_round_trip(bytes, 4, key_code);
            wire::lemma_u32_round_trip(bytes, 8, 0);
            wire::lemma_u32_round_trip(bytes, 12, 0);
            wire::lemma_u32_round_trip(bytes, 16, modifiers);
        },
        ReliableInputEvent::MouseButton { button, pressed, x, y, display_id } => {
            assert(bytes.subrange(8, 12) =~= wire::be32(wire::bits_of_i32(x)));
            assert(bytes.subrange(12, 16) =~= wire::be32(wire::bits_of_i32(y)));
            assert(bytes.subrange(16, 20) =~= wire::be32(display_id));
            wire::lemma_u32_round_trip(bytes, 8, wire::bits_of_i32(x));
            wire::lemma_u32_round_trip(bytes, 12, wire::bits_of_i32(y));
            wire::lemma_u32_round_trip(bytes, 16, display_id);
        },
        ReliableInputEvent::Wheel { delta_x, delta_y, display_id } => {
            assert(bytes.subrange(4, 8) =~= wire::be32(0));
            assert(bytes.subrange(8, 12) =~= wire::be32(wire::bits_of_i32(delta_x)));
            assert(bytes.subrange(12, 16) =~= wire::be32(wire::bits_of_i32(delta_y)));
            assert(bytes.subrange(16, 20) =~= wire::be32(display_id));
            wire::lemma_u32_round_trip(bytes, 4, 0);
            wire::lemma_u32_round_trip(bytes, 8, wire::bits_of_i32(delta_x));
            wire::lemma_u32_round_trip(bytes, 12, wire::bits_of_i32(delta_y));
            wire::lemma_u32_round_trip(bytes, 16, display_id);
        },
    }
}

#[verifier::rlimit(50)]
#[verifier::spinoff_prover]
proof fn lemma_movement_fields(movement: MouseMovement, extra: Seq<u8>)
    ensures
        ({
            let bytes = movement_bytes(movement) + extra;
            &&& movement_bytes(movement).len() == MOUSE_MOVEMENT_PAYLOAD_LEN
            &&& bytes[0] == movement.mode.code()
            &&& bytes[1] == 0
            &&& wire::u16_at(bytes, 2) == movement.button_state_mask
            &&& wire::u32_at(bytes, 4) == movement.display_id
            &&& wire::u32_at(bytes, 8) == wire::bits_of_i32(movement.x)
            &&& wire::u32_at(bytes, 12) == wire::bits_of_i32(movement.y)
            &&& wire::u32_at(bytes, 16) == 0
            &&& bytes.subrange(MOUSE_MOVEMENT_PAYLOAD_LEN as int, bytes.len() as int) == extra
        }),
{
    let bytes = movement_bytes(movement) + extra;
    assert(bytes.subrange(2, 4) =~= wire::be16(movement.button_state_mask));
    assert(bytes.subrange(4, 8) =~= wire::be32(movement.display_id));
    assert(bytes.subrange(8, 12) =~= wire::be32(wire::bits_of_i32(movement.x)));
    assert(bytes.subrange(12, 16) =~= wire::be32(wire::bits_of_i32(movement.y)));
    assert(bytes.subrange(16, 20) =~= wire::be32(0));
    wire::lemma_u16_round_trip(bytes, 2, movement.button_state_mask);
    wire::lemma_u32_round_trip(bytes, 4, movement.display_id);
    wire::lemma_u32_round_trip(bytes, 8, wire::bits_of_i32(movement.x));
    wire::lemma_u32_round_trip(bytes, 12, wire::bits_of_i32(movement.y));
    wire::lemma_u32_round_trip(bytes, 16, 0);
    assert(bytes.subrange(MOUSE_MOVEMENT_PAYLOAD_LEN as int, bytes.len() as int) =~= extra);
}

/// A valid movement comes back from the front of its payload.
proof fn lemma_movement_parses(movement: MouseMovement, extra: Seq<u8>)
    requires
        movement_error(movement) is None,
    ensures
        ({
            let payload = movement_bytes(movement) + extra;
            &&& payload.len() == MOUSE_MOVEMENT_PAYLOAD_LEN + extra.len()
            &&& payload.subrange(MOUSE_MOVEMENT_PAYLOAD_LEN as int, payload.len() as int) == extra
            &&& parse_movement(movement.sequence_number, movement.monotonic_timestamp_us, payload)
                == Ok::<_, InputProtocolError>(movement)
        }),
{
    lemma_movement_fields(movement, extra);
    wire::lemma_i32_bits_round_trip(movement.x, 0);
    wire::lemma_i32_bits_round_trip(movement.y, 0);
}

/// A movement that can be sent comes back from its datagram, with the bytes that
/// the application added to it.
pub proof fn lemma_movement_round_trip(
    session_id: SessionId,
    movement: MouseMovement,
    extra: Seq<u8>,
    max_datagram_size: usize,
)
    requires
        movement_sending_error(session_id@, movement, extra.len(), max_datagram_size) is None,
    ensures
        extra.len() == 0 ==> parse_movement_datagram(
            movement_datagram(session_id, movement, extra),
        ) == Ok::<_, InputProtocolError>(movement),
        extra.len() > 0 ==> parse_application_datagram(
            movement_datagram(session_id, movement, extra),
        ) == Ok::<_, InputProtocolError>((movement, extra)),
{
    let payload = movement_bytes(movement) + extra;
    let header = movement_header(
        session_id,
        movement,
        MOUSE_MOVEMENT_PAYLOAD_LEN as nat + extra.len(),
    );
    lemma_movement_parses(movement, extra);
    protocol::lemma_encoded_message_decodes(header, payload);
    protocol::lemma_packet_parts(movement_datagram(session_id, movement, extra), header, payload);
}

/// The movements that are taken have growing sequence numbers.
pub proof fn lemma_newest_movement_wins(state: MouseReceiverView, datagram: Seq<u8>)
    ensures
        match state.applied(datagram) {
            (after, Ok(Some(movement))) => after.last_sequence == movement.sequence_number
                && movement.sequence_number > state.last_sequence,
            (after, _) => after == state,
        },
{
}

/// An event that is applied a second time in a row changes nothing, unless it is
/// a turn of the wheel.
pub proof fn lemma_repeated_event_is_suppressed(state: InputView, event: ReliableInputEvent)
    requires
        !(event is Wheel),
    ensures
        !state.after(event).is_changed_by(event),
        state.after(event).after(event) == state.after(event),
{
    assert(state.after(event).after(event) =~= state.after(event));
}

impl InputView {
    /// What is down after some events.
    pub open spec fn after_each(self, events: Seq<ReliableInputEvent>) -> InputView
        decreases events.len(),
    {
        if events.len() == 0 {
            self
        } else {
            self.after_each(events.drop_last()).after(events.last())
        }
    }
}

proof fn lemma_after_all(
    state: InputView,
    first: Seq<ReliableInputEvent>,
    second: Seq<ReliableInputEvent>,
)
    ensures
        state.after_each(first + second) == state.after_each(first).after_each(second),
    decreases second.len(),
{
    if second.len() == 0 {
        assert(first + second =~= first);
    } else {
        lemma_after_all(state, first, second.drop_last());
        assert((first + second).drop_last() =~= first + second.drop_last());
    }
}

/// After some keys were let go, those keys are up and all else is as it was.
proof fn lemma_after_key_releases(state: InputView, keys: Seq<u32>)
    ensures
        ({
            let after = state.after_each(keys.map_values(|key: u32| key_release(key)));
            &&& after.pressed_buttons == state.pressed_buttons
            &&& after.last_sequence == state.last_sequence
            &&& forall|key: u32| #[trigger]
                after.pressed_keys.contains(key) <==> state.pressed_keys.contains(key)
                    && !keys.contains(key)
        }),
    decreases keys.len(),
{
    let releases = keys.map_values(|key: u32| key_release(key));
    if keys.len() > 0 {
        let earlier = keys.drop_last();
        lemma_after_key_releases(state, earlier);
        assert(releases.drop_last() =~= earlier.map_values(|key: u32| key_release(key)));
        assert forall|key: u32| keys.contains(key) <==> #[trigger] earlier.contains(key) || key
            == keys.last() by {
            if earlier.contains(key) {
                let place = choose|place: int|
                    0 <= place < earlier.len() && earlier[place] == key;
                assert(keys[place] == key);
            }
            if keys.contains(key) && key != keys.last() {
                let place = choose|place: int| 0 <= place < keys.len() && keys[place] == key;
                assert(earlier[place] == key);
            }
        }
    }
}

/// After a button was let go, if it was down, it is up and all else is as it was.
proof fn lemma_after_button_release(
    state: InputView,
    pressed: Set<MouseButton>,
    button: MouseButton,
)
    requires
        state.pressed_buttons.contains(button) ==> pressed.contains(button),
    ensures
        state.after_each(button_release(pressed, button)) == (InputView {
            pressed_buttons: state.pressed_buttons.remove(button),
            ..state
        }),
{
    let releases = button_release(pressed, button);
    if pressed.contains(button) {
        assert(releases.drop_last() =~= Seq::empty());
        assert(state.after_each(releases.drop_last()) == state);
    } else {
        assert(state.pressed_buttons.remove(button) =~= state.pressed_buttons);
    }
}

/// Once all events were applied that let go what is down, nothing is down any more.
pub proof fn lemma_releases_leave_nothing_pressed(state: InputView, keys: Seq<u32>)
    requires
        counting::lists_members_in_order(keys, state.pressed_keys),
    ensures
        state.after_each(
            keys.map_values(|key: u32| key_release(key)) + button_releases(state.pressed_buttons),
        ) == (InputView { last_sequence: state.last_sequence, ..InputView::fresh() }),
{
    let names = keys.map_values(|key: u32| key_release(key));
    let pressed = state.pressed_buttons;
    let left = button_release(pressed, MouseButton::Left);
    let right = button_release(pressed, MouseButton::Right);
    let middle = button_release(pressed, MouseButton::Middle);
    let back = button_release(pressed, MouseButton::Back);
    let forward = button_release(pressed, MouseButton::Forward);
    lemma_after_key_releases(state, keys);
    lemma_after_all(state, names, button_releases(pressed));
    let first = state.after_each(names);
    assert(first.pressed_keys =~= Set::<u32>::empty());
    lemma_after_all(first, left + right + middle + back, forward);
    lemma_after_all(first, left + right + middle, back);
    lemma_after_all(first, left + right, middle);
    lemma_after_all(first, left, right);
    lemma_after_button_release(first, pressed, MouseButton::Left);
    let second = first.after_each(left);
    lemma_after_button_release(second, pressed, MouseButton::Right);
    let third = second.after_each(right);
    lemma_after_button_release(third, pressed, MouseButton::Middle);
    let fourth = third.after_each(middle);
    lemma_after_button_release(fourth, pressed, MouseButton::Back);
    let fifth = fourth.after_each(back);
    lemma_after_button_release(fifth, pressed, MouseButton::Forward);
    let last = fifth.after_each(forward);
    assert forall|button: MouseButton| !last.pressed_buttons.contains(button) by {
        match button {
            MouseButton::Left | MouseButton::Right | MouseButton::Middle | MouseButton::Back
            | MouseButton::Forward => {},
        }
    }
    assert(last.pressed_buttons =~= Set::<MouseButton>::empty());
}

/// A movement is good exactly where its display is one of 256, no unknown button is down, and
/// it goes to a place between 0 and a million, or by at most a hundred thousand, either way.
pub proof fn lemma_good_movements(movement: MouseMovement)
    ensures
        movement_error(movement) is None <==> {
            &&& movement.display_id <= 255
            &&& movement.button_state_mask < 32
            &&& movement.mode == MouseMovementMode::Absolute ==> 0 <= movement.x <= 1_000_000 && 0
                <= movement.y <= 1_000_000
            &&& movement.mode == MouseMovementMode::Relative ==> -100_000 <= movement.x <= 100_000
                && -100_000 <= movement.y <= 100_000
        },
        movement_error(movement) matches Some(error) ==> match error {
            InputProtocolError::InvalidDisplayId(id) => id == movement.display_id && id > 255,
            InputProtocolError::InvalidButtonMask(mask) => mask == movement.button_state_mask
                && mask >= 32,
            InputProtocolError::InvalidCoordinates => movement.display_id <= 255
                && movement.button_state_mask < 32,
            _ => false,
        },
{
    let mask = movement.button_state_mask;
    assert(mask & !0x1fu16 != 0 <==> mask >= 32) by (bit_vector);
}

/// A movement with more bytes behind it can be sent exactly where it is good, has a session and
/// a number, and its datagram is not too long.
pub proof fn lemma_movements_that_can_be_sent(
    session_id: Seq<u8>,
    movement: MouseMovement,
    extra: nat,
    max_datagram_size: usize,
)
    requires
        extra <= 0xffff_ffff,
    ensures
        movement_sending_error(session_id, movement, extra, max_datagram_size) is None
            <==> movement_error(movement) is None && 68 + extra <= max_datagram_size && extra
            <= 65_516 && movement.sequence_number > 0 && !wire::all_zero(session_id),
{
    assert(0u16 & !3u16 == 0) by (bit_vector);
}

/// Where each part of a movement stands in its twenty bytes.
#[verifier::rlimit(60)]
#[verifier::spinoff_prover]
pub proof fn lemma_movement_layout(movement: MouseMovement)
    ensures
        ({
            let bytes = movement_bytes(movement);
            &&& bytes.len() == 20
            &&& bytes[0] == if movement.mode == MouseMovementMode::Absolute {
                1u8
            } else {
                2u8
            }
            &&& bytes[1] == 0
            &&& wire::u16_at(bytes, 2) == movement.button_state_mask
            &&& wire::u32_at(bytes, 4) == movement.display_id
            &&& wire::i32_of(wire::u32_at(bytes, 8)) == movement.x
            &&& wire::i32_of(wire::u32_at(bytes, 12)) == movement.y
            &&& wire::u32_at(bytes, 16) == 0
        }),
{
    let bytes = movement_bytes(movement);
    assert(bytes.subrange(2, 4) =~= wire::be16(movement.button_state_mask));
    assert(bytes.subrange(4, 8) =~= wire::be32(movement.display_id));
    assert(bytes.subrange(8, 12) =~= wire::be32(wire::bits_of_i32(movement.x)));
    assert(bytes.subrange(12, 16) =~= wire::be32(wire::bits_of_i32(movement.y)));
    assert(bytes.subrange(16, 20) =~= wire::be32(0));
    wire::lemma_u16_round_trip(bytes, 2, movement.button_state_mask);
    wire::lemma_u32_round_trip(bytes, 4, movement.display_id);
    wire::lemma_u32_round_trip(bytes, 8, wire::bits_of_i32(movement.x));
    wire::lemma_u32_round_trip(bytes, 12, wire::bits_of_i32(movement.y));
    wire::lemma_u32_round_trip(bytes, 16, 0);
}

/// A payload is read as a movement exactly where its reserved fields are empty, its mode is
/// known and the movement is good, and its parts stand in their places.
pub proof fn lemma_movements_that_can_be_read(sequence: u64, timestamp: u64, payload: Seq<u8>)
    ensures
        parse_movement(sequence, timestamp, payload) matches Ok(movement) ==> {
            &&& payload[1] == 0 && wire::u32_at(payload, 16) == 0
            &&& payload[0] == 1 && movement.mode == MouseMovementMode::Absolute || payload[0] == 2
                && movement.mode == MouseMovementMode::Relative
            &&& movement.sequence_number == sequence
            &&& movement.monotonic_timestamp_us == timestamp
            &&& movement.button_state_mask == wire::u16_at(payload, 2)
            &&& movement.display_id == wire::u32_at(payload, 4)
            &&& movement.x == wire::i32_of(wire::u32_at(payload, 8))
            &&& movement.y == wire::i32_of(wire::u32_at(payload, 12))
            &&& movement_error(movement) is None
        },
        parse_movement(sequence, timestamp, payload) matches Err(error) ==> match error {
            InputProtocolError::ReservedField => payload[1] != 0 || wire::u32_at(payload, 16) != 0,
            InputProtocolError::UnknownMouseMode(mode) => mode == payload[0] && mode != 1 && mode
                != 2,
            InputProtocolError::InvalidDisplayId(id) => id == wire::u32_at(payload, 4) && id > 255,
            InputProtocolError::InvalidButtonMask(mask) => mask == wire::u16_at(payload, 2) && mask
                >= 32,
            InputProtocolError::InvalidCoordinates => {
                let x = wire::i32_of(wire::u32_at(payload, 8));
                let y = wire::i32_of(wire::u32_at(payload, 12));
                ||| payload[0] == 1 && !(0 <= x <= 1_000_000 && 0 <= y <= 1_000_000)
                ||| payload[0] == 2 && !(-100_000 <= x <= 100_000 && -100_000 <= y <= 100_000)
            },
            _ => false,
        },
{
    let mask = wire::u16_at(payload, 2);
    assert(mask & !0x1fu16 != 0 <==> mask >= 32) by (bit_vector);
}

/// A datagram of another session is refused, an old one is passed over, and a new one is taken
/// with what it says; the receiver remembers nothing but the number of the newest.
pub proof fn lemma_movements_are_taken_in_order(state: MouseReceiverView, datagram: Seq<u8>)
    requires
        protocol::message_error(datagram) is None,
        protocol::packet_type(datagram) == MessageType::MouseMovement,
    ensures
        ({
            let sequence = wire::u64_at(datagram, 28);
            let ours = datagram.subrange(12, 28) == state.session_id;
            let (plain, moved) = state.applied(datagram);
            let (mixed, both) = state.applied_application(datagram);
            &&& !ours ==> moved == Err::<Option<MouseMovement>, _>(
                InputProtocolError::SessionMismatch,
            ) && plain == state
            &&& !ours ==> both == Err::<Option<(MouseMovement, Seq<u8>)>, _>(
                InputProtocolError::SessionMismatch,
            ) && mixed == state
            &&& ours && datagram.len() == 68 ==> match parse_movement(
                sequence,
                wire::u64_at(datagram, 40),
                protocol::packet_payload(datagram),
            ) {
                Ok(movement) => if sequence > state.last_sequence {
                    &&& moved == Ok::<_, InputProtocolError>(Some(movement))
                    &&& plain.last_sequence == sequence
                    &&& plain.session_id == state.session_id
                } else {
                    moved == Ok::<Option<MouseMovement>, InputProtocolError>(None) && plain == state
                },
                Err(error) => moved == Err::<Option<MouseMovement>, _>(error) && plain == state,
            }
            &&& ours && datagram.len() != 68 ==> moved == Err::<Option<MouseMovement>, _>(
                InputProtocolError::InvalidMousePayloadSize,
            )
            &&& ours && datagram.len() <= 68 ==> both == Err::<
                Option<(MouseMovement, Seq<u8>)>,
                _,
            >(InputProtocolError::InvalidMousePayloadSize)
            &&& ours && datagram.len() > 68 ==> match parse_movement(
                sequence,
                wire::u64_at(datagram, 40),
                protocol::packet_payload(datagram),
            ) {
                Ok(movement) => if sequence > state.last_sequence {
                    &&& both == Ok::<_, InputProtocolError>(
                        Some((movement, datagram.subrange(68, datagram.len() as int))),
                    )
                    &&& mixed.last_sequence == sequence
                    &&& mixed.session_id == state.session_id
                } else {
                    both == Ok::<Option<(MouseMovement, Seq<u8>)>, InputProtocolError>(None)
                        && mixed == state
                },
                Err(error) => both == Err::<Option<(MouseMovement, Seq<u8>)>, _>(error) && mixed
                    == state,
            }
        }),
{
    let payload = protocol::packet_payload(datagram);
    if datagram.len() > 68 {
        assert(payload.subrange(20, payload.len() as int) =~= datagram.subrange(
            68,
            datagram.len() as int,
        ));
    }
}

/// Where each part of an event stands in its 24 bytes.
#[verifier::rlimit(60)]
#[verifier::spinoff_prover]
pub proof fn lemma_event_layout(event: ReliableInputEvent)
    ensures
        ({
            let bytes = input_bytes(event);
            &&& bytes.len() == 24
            &&& wire::u16_at(bytes, 2) == 0
            &&& wire::u32_at(bytes, 20) == 0
            &&& match event {
                ReliableInputEvent::Key { key_code, pressed, modifiers } => bytes[0] == 1 && (
                bytes[1] == if pressed {
                    1u8
                } else {
                    0u8
                }) && wire::u32_at(bytes, 4) == key_code && wire::u32_at(bytes, 8) == 0
                    && wire::u32_at(bytes, 12) == 0 && wire::u32_at(bytes, 16) == modifiers,
                ReliableInputEvent::MouseButton { button, pressed, x, y, display_id } => bytes[0]
                    == 2 && (bytes[1] == if pressed {
                    1u8
                } else {
                    0u8
                }) && bytes[4] == button.code() && wire::i32_of(wire::u32_at(bytes, 8)) == x
                    && wire::i32_of(wire::u32_at(bytes, 12)) == y && wire::u32_at(bytes, 16)
                    == display_id,
                ReliableInputEvent::Wheel { delta_x, delta_y, display_id } => bytes[0] == 3
                    && bytes[1] == 0 && wire::i32_of(wire::u32_at(bytes, 8)) == delta_x
                    && wire::i32_of(wire::u32_at(bytes, 12)) == delta_y && wire::u32_at(bytes, 16)
                    == display_id,
            }
        }),
{
    let bytes = input_bytes(event);
    assert(bytes.len() == 24);
    let fourth = match event {
        ReliableInputEvent::Key { modifiers, .. } => modifiers,
        ReliableInputEvent::MouseButton { display_id, .. } => display_id,
        ReliableInputEvent::Wheel { display_id, .. } => display_id,
    };
    let (second, third) = match event {
        ReliableInputEvent::Key { .. } => (0u32, 0u32),
        ReliableInputEvent::MouseButton { x, y, .. } => (
            wire::bits_of_i32(x),
            wire::bits_of_i32(y),
        ),
        ReliableInputEvent::Wheel { delta_x, delta_y, .. } => (
            wire::bits_of_i32(delta_x),
            wire::bits_of_i32(delta_y),
        ),
    };
    assert(bytes.subrange(2, 4) =~= wire::be16(0));
    assert(bytes.subrange(8, 12) =~= wire::be32(second));
    assert(bytes.subrange(12, 16) =~= wire::be32(third));
    assert(bytes.subrange(16, 20) =~= wire::be32(fourth));
    assert(bytes.subrange(20, 24) =~= wire::be32(0));
    wire::lemma_u16_round_trip(bytes, 2, 0);
    wire::lemma_u32_round_trip(bytes, 8, second);
    wire::lemma_u32_round_trip(bytes, 12, third);
    wire::lemma_u32_round_trip(bytes, 16, fourth);
    wire::lemma_u32_round_trip(bytes, 20, 0);
    if let ReliableInputEvent::Key { key_code, .. } = event {
        assert(bytes.subrange(4, 8) =~= wire::be32(key_code));
        wire::lemma_u32_round_trip(bytes, 4, key_code);
    }
}

/// A payload is read as an event exactly where it is as long as one, its reserved fields are
/// empty, and it is a key with a code, a known button at a place, or a turn of the wheel within
/// its range.
pub proof fn lemma_events_that_can_be_read(payload: Seq<u8>)
    ensures
        ({
            let x = wire::i32_of(wire::u32_at(payload, 8));
            let y = wire::i32_of(wire::u32_at(payload, 12));
            let plain = payload.len() == 24 && wire::u16_at(payload, 2) == 0 && wire::u32_at(
                payload,
                20,
            ) == 0 && payload[1] <= 1;
            let key = payload[0] == 1 && wire::u32_at(payload, 4) > 0 && x == 0 && y == 0;
            let button = payload[0] == 2 && 1 <= payload[4] <= 5 && payload[5] == 0 && payload[6]
                == 0 && payload[7] == 0 && wire::u32_at(payload, 16) <= 255 && 0 <= x <= 1_000_000
                && 0 <= y <= 1_000_000;
            let wheel = payload[0] == 3 && payload[1] == 0 && wire::u32_at(payload, 4) == 0
                && wire::u32_at(payload, 16) <= 255 && -100_000 <= x <= 100_000 && -100_000 <= y
                <= 100_000;
            &&& parse_input(payload) is Ok <==> plain && (key || button || wheel)
            &&& parse_input(payload) matches Ok(event) ==> match event {
                ReliableInputEvent::Key { key_code, pressed, modifiers } => key && key_code
                    == wire::u32_at(payload, 4) && pressed == (payload[1] == 1) && modifiers
                    == wire::u32_at(payload, 16),
                ReliableInputEvent::MouseButton {
                    button: which,
                    pressed,
                    x: to_x,
                    y: to_y,
                    display_id,
                } => button && which.code() == payload[4] && pressed == (payload[1] == 1) && to_x
                    == x && to_y == y && display_id == wire::u32_at(payload, 16),
                ReliableInputEvent::Wheel { delta_x, delta_y, display_id } => wheel && delta_x == x
                    && delta_y == y && display_id == wire::u32_at(payload, 16),
            }
        }),
{
}

/// Events are applied one number after the other. What is down afterwards is what was down
/// before, with the key or button of the event down or up as it says; the event is reported
/// exactly where that is a change, and a turn of the wheel always.
pub proof fn lemma_events_are_applied_in_order(
    state: InputView,
    sequence_number: u64,
    payload: Seq<u8>,
    key: u32,
    button: MouseButton,
)
    requires
        state.last_sequence < u64::MAX,
    ensures
        ({
            let (after, result) = state.applied(sequence_number, payload);
            let next = sequence_number == state.last_sequence + 1;
            &&& result is Ok <==> next && parse_input(payload) is Ok
            &&& result is Err ==> after == state
            &&& !next ==> result == Err::<Option<ReliableInputEvent>, _>(
                InputProtocolError::InvalidSequence {
                    previous: state.last_sequence,
                    received: sequence_number,
                },
            )
            &&& result is Ok ==> after.last_sequence == sequence_number
            &&& result is Ok ==> match parse_input(payload)->Ok_0 {
                ReliableInputEvent::Key { key_code, pressed, .. } => {
                    &&& after.pressed_buttons == state.pressed_buttons
                    &&& after.pressed_keys.contains(key) <==> if key == key_code {
                        pressed
                    } else {
                        state.pressed_keys.contains(key)
                    }
                    &&& result->Ok_0 is Some <==> state.pressed_keys.contains(key_code) != pressed
                },
                ReliableInputEvent::MouseButton { button: which, pressed, .. } => {
                    &&& after.pressed_keys == state.pressed_keys
                    &&& after.pressed_buttons.contains(button) <==> if button == which {
                        pressed
                    } else {
                        state.pressed_buttons.contains(button)
                    }
                    &&& result->Ok_0 is Some <==> state.pressed_buttons.contains(which) != pressed
                },
                ReliableInputEvent::Wheel { .. } => {
                    &&& after.pressed_keys == state.pressed_keys
                    &&& after.pressed_buttons == state.pressed_buttons
                    &&& result->Ok_0 is Some
                },
            }
            &&& result matches Ok(Some(event)) ==> event == parse_input(payload)->Ok_0
        }),
{
}

/// All buttons, in the order in which they are let go.
pub open spec fn all_buttons() -> Seq<MouseButton> {
    seq![
        MouseButton::Left,
        MouseButton::Right,
        MouseButton::Middle,
        MouseButton::Back,
        MouseButton::Forward,
    ]
}

proof fn lemma_released_so_far(pressed: Set<MouseButton>, count: int)
    requires
        0 < count <= 5,
    ensures
        all_buttons().take(count).filter(|button: MouseButton| pressed.contains(button))
            == all_buttons().take(count - 1).filter(|button: MouseButton| pressed.contains(button))
            + if pressed.contains(all_buttons()[count - 1]) {
            seq![all_buttons()[count - 1]]
        } else {
            Seq::empty()
        },
{
    let first = all_buttons().take(count);
    assert(first.drop_last() =~= all_buttons().take(count - 1));
    assert(first.last() == all_buttons()[count - 1]);
    reveal(Seq::filter);
    let before = all_buttons().take(count - 1).filter(
        |button: MouseButton| pressed.contains(button),
    );
    assert(before + Seq::<MouseButton>::empty() =~= before);
    assert(before.push(first.last()) =~= before + seq![first.last()]);
}

/// A button is let go exactly where it is down, each once, and in their order.
pub proof fn lemma_only_what_is_down_is_let_go(pressed: Set<MouseButton>)
    ensures
        button_releases(pressed) == all_buttons().filter(
            |button: MouseButton| pressed.contains(button),
        ).map_values(
            |button: MouseButton|
                ReliableInputEvent::MouseButton { button, pressed: false, x: 0, y: 0, display_id: 0 },
        ),
{
    let release = |button: MouseButton|
        ReliableInputEvent::MouseButton { button, pressed: false, x: 0, y: 0, display_id: 0 };
    let down = |button: MouseButton| pressed.contains(button);
    let all = all_buttons();
    let none = all.take(0).filter(down);
    let one = all.take(1).filter(down);
    let two = all.take(2).filter(down);
    let three = all.take(3).filter(down);
    let four = all.take(4).filter(down);
    let five = all.take(5).filter(down);
    reveal(Seq::filter);
    assert(all.take(0) =~= Seq::empty());
    assert(none =~= Seq::empty());
    lemma_released_so_far(pressed, 1);
    lemma_released_so_far(pressed, 2);
    lemma_released_so_far(pressed, 3);
    lemma_released_so_far(pressed, 4);
    lemma_released_so_far(pressed, 5);
    assert(all.take(5) =~= all);
    let left = button_release(pressed, MouseButton::Left);
    let right = button_release(pressed, MouseButton::Right);
    let middle = button_release(pressed, MouseButton::Middle);
    let back = button_release(pressed, MouseButton::Back);
    let forward = button_release(pressed, MouseButton::Forward);
    assert(one.map_values(release) =~= left);
    assert(two.map_values(release) =~= left + right);
    assert(three.map_values(release) =~= left + right + middle);
    assert(four.map_values(release) =~= left + right + middle + back);
    assert(five.map_values(release) =~= left + right + middle + back + forward);
}

/// A key is let go by an event that names it, without modifiers.
pub proof fn lemma_keys_are_let_go(key_code: u32)
    ensures
        key_release(key_code) == (ReliableInputEvent::Key {
            key_code,
            pressed: false,
            modifiers: 0,
        }),
{
}

/// The bytes of modes and buttons, and the bits of buttons in a mask.
pub proof fn lemma_input_codes(byte: u8)
    ensures
        mouse_mode_of(byte) is Ok <==> byte == 1 || byte == 2,
        mouse_mode_of(1) == Ok::<_, InputProtocolError>(MouseMovementMode::Absolute),
        mouse_mode_of(2) == Ok::<_, InputProtocolError>(MouseMovementMode::Relative),
        mouse_button_of(byte) is Ok <==> 1 <= byte <= 5,
        mouse_button_of(1) == Ok::<_, InputProtocolError>(MouseButton::Left),
        mouse_button_of(2) == Ok::<_, InputProtocolError>(MouseButton::Right),
        mouse_button_of(3) == Ok::<_, InputProtocolError>(MouseButton::Middle),
        mouse_button_of(4) == Ok::<_, InputProtocolError>(MouseButton::Back),
        mouse_button_of(5) == Ok::<_, InputProtocolError>(MouseButton::Forward),
        mouse_button_of(byte) matches Ok(button) ==> button.code() == byte,
        mouse_mode_of(byte) matches Ok(mode) ==> mode.code() == byte,
{
}

} // verus!

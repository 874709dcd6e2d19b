//! Teleoperation control messages for the dedicated datagram channel, and the
//! 4-byte motor command framed over the serial link. Velocity fields carry
//! single-precision bit patterns; the motor command uses signed
//! milli-units.

use vstd::prelude::*;
use crate::bytes::{lemma_u16_le_round_trip, lemma_u32_le_round_trip, push_u32, read_u16, read_u32,
    s_dec_u16, s_u16_le, s_u32_le};

verus! {

/// A commanded velocity: forward speed and turn rate, as single-precision
/// bit patterns.
#[derive(Clone, Copy, Debug, PartialEq, Eq, Structural)]
pub struct SetTargetVelocity {
    pub forward: u32,
    pub turn: u32,
}

/// A teleoperation command.
#[derive(Clone, Copy, Debug, PartialEq, Eq, Structural)]
pub enum ControlMessage {
    SetTargetVelocity(SetTargetVelocity),
    SetLegLength(u32),
}

/// The wire form of a control message: a tag, then its payload words.
pub open spec fn s_enc_control(m: ControlMessage) -> Seq<u8> {
    match m {
        ControlMessage::SetTargetVelocity(v) => seq![0u8] + (s_u32_le(v.forward) + s_u32_le(
            v.turn,
        )),
        ControlMessage::SetLegLength(l) => seq![1u8] + s_u32_le(l),
    }
}

/// What a control datagram's bytes denote.
pub open spec fn s_dec_control(s: Seq<u8>) -> Option<ControlMessage> {
    if s.len() == 9 && s[0] == 0 {
        Some(
            ControlMessage::SetTargetVelocity(
                SetTargetVelocity {
                    forward: crate::wire::s_at_u32(s, 1),
                    turn: crate::wire::s_at_u32(s, 5),
                },
            ),
        )
    } else if s.len() == 5 && s[0] == 1 {
        Some(ControlMessage::SetLegLength(crate::wire::s_at_u32(s, 1)))
    } else {
        None
    }
}

impl ControlMessage {
    pub fn serialize(&self) -> (out: Vec<u8>)
        ensures
            out@ == s_enc_control(*self),
    {
        let mut out: Vec<u8> = Vec::new();
        match self {
            ControlMessage::SetTargetVelocity(v) => {
                out.push(0);
                push_u32(&mut out, v.forward);
                push_u32(&mut out, v.turn);
            },
            ControlMessage::SetLegLength(l) => {
                out.push(1);
                push_u32(&mut out, *l);
            },
        }
        proof {
            assert(out@ =~= s_enc_control(*self));
        }
        out
    }

    pub fn deserialize(data: &[u8]) -> (r: Option<ControlMessage>)
        ensures
            r == s_dec_control(data@),
    {
        if data.len() == 9 {
            if data[0] == 0 {
                return Some(
                    ControlMessage::SetTargetVelocity(
                        SetTargetVelocity {
                            forward: read_u32(data, 1),
                            turn: read_u32(data, 5),
                        },
                    ),
                );
            }
        }
        if data.len() == 5 {
            if data[0] == 1 {
                return Some(ControlMessage::SetLegLength(read_u32(data, 1)));
            }
        }
        None
    }
}

/// A control message decodes back to itself.
pub proof fn lemma_control_round_trip(m: ControlMessage)
    ensures
        s_dec_control(s_enc_control(m)) == Some(m),
{
    match m {
        ControlMessage::SetTargetVelocity(v) => {
            lemma_u32_le_round_trip(v.forward);
            lemma_u32_le_round_trip(v.turn);
        },
        ControlMessage::SetLegLength(l) => {
            lemma_u32_le_round_trip(l);
        },
    }
}

/// The motor command framed over the serial link: forward velocity in mm/s
/// and counter-clockwise turn rate in mrad/s, each a little-endian `i16`,
/// four bytes in all.
#[derive(Clone, Copy, Debug, PartialEq, Eq, Structural)]
pub struct Message {
    pub forward_vel: i16,
    pub turn_vel: i16,
}

/// The four wire bytes of a motor command.
pub open spec fn s_enc_motor(m: Message) -> Seq<u8> {
    s_u16_le(m.forward_vel as u16) + s_u16_le(m.turn_vel as u16)
}

/// What four wire bytes denote as a motor command.
pub open spec fn s_dec_motor(s: Seq<u8>) -> Option<Message> {
    if s.len() == 4 {
        Some(
            Message {
                forward_vel: s_dec_u16(s[0], s[1]) as i16,
                turn_vel: s_dec_u16(s[2], s[3]) as i16,
            },
        )
    } else {
        None
    }
}

impl Message {
    pub fn pack(&self) -> (out: Vec<u8>)
        ensures
            out@ == s_enc_motor(*self),
    {
        let mut out: Vec<u8> = Vec::new();
        let f = self.forward_vel as u16;
        let t = self.turn_vel as u16;
        out.push((f % 256) as u8);
        out.push((f / 256) as u8);
        out.push((t % 256) as u8);
        out.push((t / 256) as u8);
        proof {
            assert((f / 256) % 256 == f / 256);
            assert((t / 256) % 256 == t / 256);
            assert(out@ =~= s_enc_motor(*self));
        }
        out
    }

    pub fn unpack(data: &[u8]) -> (r: Option<Message>)
        ensures
            r == s_dec_motor(data@),
    {
        if data.len() == 4 {
            let f = read_u16(data, 0);
            let t = read_u16(data, 2);
            Some(Message { forward_vel: f as i16, turn_vel: t as i16 })
        } else {
            None
        }
    }
}

/// A motor command decodes back to itself.
pub proof fn lemma_motor_round_trip(m: Message)
    ensures
        s_dec_motor(s_enc_motor(m)) == Some(m),
{
    lemma_u16_le_round_trip(m.forward_vel as u16);
    lemma_u16_le_round_trip(m.turn_vel as u16);
    let f = m.forward_vel;
    let t = m.turn_vel;
    assert((f as u16) as i16 == f) by (bit_vector);
    assert((t as u16) as i16 == t) by (bit_vector);
}

} // verus!

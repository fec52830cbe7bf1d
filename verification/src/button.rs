use vstd::prelude::*;

verus! {

use crate::bits::{bytes_to_bits, false_bits, pad_len};
use crate::codec;
use crate::codec::{enc_ops, spec_decode_action};
use vstd::slice::{slice_subrange, slice_to_vec};

/// An operand of a macro instruction: either a reference to a device-resident
/// runtime slot, or a literal fixed by the host.
#[derive(Clone, Copy, PartialEq, Eq, Hash, Debug, Structural)]
pub enum Value<T> {
    Var(u8),
    Const(T),
}

impl Default for Value<i16> {
    fn default() -> (r: Self)
        ensures
            r == Value::<i16>::Const(0i16),
    {
        Value::Const(0)
    }
}

/// One instruction of a button macro.
#[derive(Debug, PartialEq, Eq, Hash)]
pub enum Op {
    Kill,
    Pause(Value<i16>),
    Mouse {
        auto_release: bool,
        buttons: Value<i16>,
        dx: Value<i16>,
        dy: Value<i16>,
        wheel1: Value<i16>,
        wheel2: Value<i16>,
    },
    Key {
        auto_release: bool,
        payload: Vec<Value<i8>>,
    },
    Media {
        auto_release: bool,
        payload: Vec<Value<i8>>,
    },
}

/// The mathematical shape of an [`Op`], with payloads as sequences.
pub enum OpView {
    Kill,
    Pause(Value<i16>),
    Mouse {
        auto_release: bool,
        buttons: Value<i16>,
        dx: Value<i16>,
        dy: Value<i16>,
        wheel1: Value<i16>,
        wheel2: Value<i16>,
    },
    Key {
        auto_release: bool,
        payload: Seq<Value<i8>>,
    },
    Media {
        auto_release: bool,
        payload: Seq<Value<i8>>,
    },
}

impl View for Op {
    type V = OpView;

    open spec fn view(&self) -> OpView {
        match self {
            Op::Kill => OpView::Kill,
            Op::Pause(v) => OpView::Pause(*v),
            Op::Mouse { auto_release, buttons, dx, dy, wheel1, wheel2 } => OpView::Mouse {
                auto_release: *auto_release,
                buttons: *buttons,
                dx: *dx,
                dy: *dy,
                wheel1: *wheel1,
                wheel2: *wheel2,
            },
            Op::Key { auto_release, payload } => OpView::Key {
                auto_release: *auto_release,
                payload: payload@,
            },
            Op::Media { auto_release, payload } => OpView::Media {
                auto_release: *auto_release,
                payload: payload@,
            },
        }
    }
}

impl DeepView for Op {
    type V = OpView;

    open spec fn deep_view(&self) -> OpView {
        self.view()
    }
}

impl Op {
    pub fn pause(value: Value<i16>) -> (r: Self)
        ensures
            r@ == OpView::Pause(value),
    {
        Op::Pause(value)
    }

    pub fn mouse(
        auto_release: bool,
        buttons: Value<i16>,
        dx: Value<i16>,
        dy: Value<i16>,
        wheel1: Value<i16>,
        wheel2: Value<i16>,
    ) -> (r: Self)
        ensures
            r@ == (OpView::Mouse { auto_release, buttons, dx, dy, wheel1, wheel2 }),
    {
        Op::Mouse { auto_release, buttons, dx, dy, wheel1, wheel2 }
    }

    pub fn key(auto_release: bool, payload: Vec<Value<i8>>) -> (r: Self)
        ensures
            r@ == (OpView::Key { auto_release, payload: payload@ }),
    {
        Op::Key { auto_release, payload }
    }

    pub fn media(auto_release: bool, payload: Vec<Value<i8>>) -> (r: Self)
        ensures
            r@ == (OpView::Media { auto_release, payload: payload@ }),
    {
        Op::Media { auto_release, payload }
    }
}

/// When a stored binding fires relative to the physical press.
#[derive(Debug, Clone, Copy, PartialEq, Eq, PartialOrd, Ord, Hash, Structural)]
pub enum PressType {
    Normal,
    Long,
    Double,
    Down,
    Up,
}

pub open spec fn spec_press_type_u8(p: PressType) -> u8 {
    match p {
        PressType::Normal => 0,
        PressType::Long => 1,
        PressType::Double => 2,
        PressType::Down => 3,
        PressType::Up => 4,
    }
}

pub open spec fn spec_press_type_from_u8(value: u8) -> Option<PressType> {
    if value == 0 {
        Some(PressType::Normal)
    } else if value == 1 {
        Some(PressType::Long)
    } else if value == 2 {
        Some(PressType::Double)
    } else if value == 3 {
        Some(PressType::Down)
    } else if value == 4 {
        Some(PressType::Up)
    } else {
        None
    }
}

impl PressType {
    pub fn from_u8(value: u8) -> (r: Option<Self>)
        ensures
            r == spec_press_type_from_u8(value),
    {
        match value {
            0 => Some(Self::Normal),
            1 => Some(Self::Long),
            2 => Some(Self::Double),
            3 => Some(Self::Down),
            4 => Some(Self::Up),
            _ => None,
        }
    }

    pub fn to_u8(self) -> (r: u8)
        ensures
            r == spec_press_type_u8(self),
    {
        match self {
            Self::Normal => 0,
            Self::Long => 1,
            Self::Double => 2,
            Self::Down => 3,
            Self::Up => 4,
        }
    }
}

/// One stored binding slot of a physical button, with its action bytes still
/// in wire form.
#[derive(Debug)]
pub struct Button {
    pub id: u8,
    pub host_id: u8,
    pub press_type: PressType,
    pub(crate) action: Vec<u8>,
}

pub struct ButtonView {
    pub id: u8,
    pub host_id: u8,
    pub press_type: PressType,
    pub action: Seq<u8>,
}

impl View for Button {
    type V = ButtonView;

    closed spec fn view(&self) -> ButtonView {
        ButtonView {
            id: self.id,
            host_id: self.host_id,
            press_type: self.press_type,
            action: self.action@,
        }
    }
}

impl DeepView for Button {
    type V = ButtonView;

    open spec fn deep_view(&self) -> ButtonView {
        self.view()
    }
}

/// Wire form of one button record: id, host id, press type, action length,
/// then the action bytes.
pub open spec fn spec_button_encode(b: ButtonView) -> Seq<u8> {
    seq![b.id, b.host_id, spec_press_type_u8(b.press_type), b.action.len() as u8] + b.action
}

/// Parse one length-prefixed button record from the front of `d`; the second
/// component is how many bytes the record occupied.
pub open spec fn spec_button_decode(d: Seq<u8>) -> Option<(ButtonView, int)> {
    if d.len() <= 3 {
        None
    } else {
        let size = d[3] as int;
        match spec_press_type_from_u8(d[2]) {
            None => None,
            Some(pt) => if 4 + size > d.len() {
                None
            } else {
                Some(
                    (
                        ButtonView {
                            id: d[0],
                            host_id: d[1],
                            press_type: pt,
                            action: d.subrange(4, 4 + size),
                        },
                        4 + size,
                    ),
                )
            },
        }
    }
}

impl Button {
    /// Build a button record by encoding `action` through the action codec.
    pub fn new(id: u8, host_id: u8, press_type: PressType, action: &[Op]) -> (r: Self)
        requires
            enc_ops(action.deep_view()).len() <= usize::MAX,
        ensures
            r@.id == id,
            r@.host_id == host_id,
            r@.press_type == press_type,
            bytes_to_bits(r@.action) == enc_ops(action.deep_view()) + false_bits(
                pad_len(enc_ops(action.deep_view()).len() as int),
            ),
    {
        Self { id, host_id, press_type, action: codec::encode_action(action) }
    }

    /// Parse one button record from the front of `data`.
    pub fn decode(data: &[u8]) -> (r: Option<(Self, usize)>)
        ensures
            match r {
                None => spec_button_decode(data@) is None,
                Some((b, n)) => spec_button_decode(data@) == Some((b@, n as int)),
            },
    {
        if data.len() <= 3 {
            return None;
        }
        let size = data[3] as usize;
        let press_type = match PressType::from_u8(data[2]) {
            Some(p) => p,
            None => {
                return None;
            },
        };
        if size > data.len() - 4 {
            return None;
        }
        let action = slice_to_vec(slice_subrange(data, 4, 4 + size));
        let button = Self { id: data[0], host_id: data[1], press_type, action };
        Some((button, 4 + size))
    }

    /// Append this record's wire form to `data`.
    pub fn encode(&self, data: &mut Vec<u8>)
        requires
            self@.action.len() <= 255,
            old(data)@.len() + 4 + self@.action.len() <= usize::MAX,
        ensures
            final(data)@ == old(data)@ + spec_button_encode(self@),
    {
        data.push(self.id);
        data.push(self.host_id);
        data.push(self.press_type.to_u8());
        data.push(self.action.len() as u8);
        data.extend_from_slice(self.action.as_slice());
        proof {
            assert(final(data)@ =~= old(data)@ + spec_button_encode(self@));
        }
    }

    /// The raw action bytes of this record.
    pub fn action(&self) -> (r: &Vec<u8>)
        ensures
            r@ == self@.action,
    {
        &self.action
    }

    /// Decode this record's action bytes into a macro.
    pub fn decode_action(&self) -> (r: Result<Vec<Op>, codec::DecodeError>)
        requires
            self@.action.len() * 8 <= usize::MAX,
        ensures
            match r {
                Ok(ops) => spec_decode_action(self@.action) == Ok::<
                    Seq<OpView>,
                    codec::DecodeError,
                >(ops.deep_view()),
                Err(e) => spec_decode_action(self@.action) == Err::<
                    Seq<OpView>,
                    codec::DecodeError,
                >(e),
            },
    {
        codec::decode_action(self.action.as_slice())
    }
}

} // verus!

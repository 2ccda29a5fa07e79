use vstd::prelude::*;

verus! {

#[derive(Debug, PartialEq, Eq, Structural, PartialOrd, Ord, Hash, Clone, Copy)]
pub enum Baudrate {
    Baud300,
    Baud600,
    Baud1200,
    Baud2400,
    Baud4800,
    Baud9600,
}

#[derive(Debug, PartialEq, Eq, Structural, Hash, Clone, Copy)]
pub enum Parity {
    Off,
    Odd,
    Even,
}

#[derive(Debug, PartialEq, Eq, Structural, Hash, Clone, Copy)]
pub enum FlowControl {
    Off,
    Software,
    Hardware,
}

#[derive(Debug, PartialEq, Eq, Structural, Hash, Clone, Copy)]
pub enum StopBits {
    One,
    Two,
}

/// Line settings of the serial link.
#[derive(Debug, Clone, Copy, PartialEq, Eq, Structural)]
pub struct ConnectionParameters {
    pub baudrate: Baudrate,
    pub parity: Parity,
    pub flow: FlowControl,
    pub stop_bits: StopBits,
}

pub open spec fn bits_per_second(b: Baudrate) -> u32 {
    match b {
        Baudrate::Baud300 => 300,
        Baudrate::Baud600 => 600,
        Baudrate::Baud1200 => 1200,
        Baudrate::Baud2400 => 2400,
        Baudrate::Baud4800 => 4800,
        Baudrate::Baud9600 => 9600,
    }
}

impl From<Baudrate> for u32 {
    fn from(val: Baudrate) -> u32 {
        match val {
            Baudrate::Baud300 => 300,
            Baudrate::Baud600 => 600,
            Baudrate::Baud1200 => 1200,
            Baudrate::Baud2400 => 2400,
            Baudrate::Baud4800 => 4800,
            Baudrate::Baud9600 => 9600,
        }
    }
}

impl vstd::std_specs::convert::FromSpecImpl<Baudrate> for u32 {
    open spec fn obeys_from_spec() -> bool {
        true
    }

    open spec fn from_spec(v: Baudrate) -> u32 {
        bits_per_second(v)
    }
}

impl Default for ConnectionParameters {
    /// 9600 baud, parity off, flow control off, one stop bit.
    fn default() -> (r: ConnectionParameters)
        ensures
            r == (ConnectionParameters {
                baudrate: Baudrate::Baud9600,
                parity: Parity::Off,
                flow: FlowControl::Off,
                stop_bits: StopBits::One,
            }),
    {
        ConnectionParameters {
            baudrate: Baudrate::Baud9600,
            parity: Parity::Off,
            flow: FlowControl::Off,
            stop_bits: StopBits::One,
        }
    }
}

} // verus!

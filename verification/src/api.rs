//! Readings as five bytes for a wire.

use vstd::prelude::*;

verus! {

/// What a reading on the wire is a reading of.
#[derive(Debug, Clone, Copy, PartialEq, Eq, Structural)]
pub enum ReadingType {
    Temperature,
    Pressure,
    WindSpeedRaw,
}

impl ReadingType {
    /// The byte that stands for the type on the wire.
    pub open spec fn tag(self) -> u8 {
        match self {
            ReadingType::Temperature => 0,
            ReadingType::Pressure => 1,
            ReadingType::WindSpeedRaw => 2,
        }
    }
}

/// A reading as it goes over the wire.
#[derive(Debug, Clone, Copy)]
pub struct Reading {
    pub reading_type: ReadingType,
    pub value: i32,
}

/// `value` as the unsigned number with the same 32 bits.
pub open spec fn as_unsigned(value: i32) -> int {
    if value >= 0 {
        value as int
    } else {
        value + 0x1_0000_0000
    }
}

/// The five bytes of a reading: the type's tag, and the 32 bits of the
/// value from the most significant byte down.
pub open spec fn encoded_reading(reading_type: ReadingType, value: i32) -> Seq<u8> {
    let bits = as_unsigned(value);
    seq![
        reading_type.tag(),
        (bits / 0x100_0000) as u8,
        (bits / 0x1_0000 % 0x100) as u8,
        (bits / 0x100 % 0x100) as u8,
        (bits % 0x100) as u8,
    ]
}

impl Reading {
    /// The reading as five bytes for the wire.
    pub fn encode(&self) -> (bytes: [u8; 5])
        ensures
            bytes@ == encoded_reading(self.reading_type, self.value),
    {
        let tag: u8 = match self.reading_type {
            ReadingType::Temperature => 0,
            ReadingType::Pressure => 1,
            ReadingType::WindSpeedRaw => 2,
        };
        let bits: u64 = if self.value >= 0 {
            self.value as u64
        } else {
            (self.value as i64 + 0x1_0000_0000) as u64
        };
        let result: [u8; 5] = [
            tag,
            (bits / 0x100_0000) as u8,
            (bits / 0x1_0000 % 0x100) as u8,
            (bits / 0x100 % 0x100) as u8,
            (bits % 0x100) as u8,
        ];
        assert(result@ =~= encoded_reading(self.reading_type, self.value));
        result
    }
}

} // verus!

//! The audio codec chip: the register writes that turn its microphone on and off.

use vstd::prelude::*;

verus! {

pub const ES8311_ADDRESS: u8 = 0x18;

/// A write of `value` to `register`.
#[derive(Debug, Clone, Copy, PartialEq, Eq, Structural)]
pub struct RegisterWrite {
    pub register: u8,
    pub value: u8,
}

/// What turns the microphone on, in order.
pub open spec fn enable_adc_sequence() -> Seq<RegisterWrite> {
    seq![
        RegisterWrite { register: 0x00, value: 0x80 },
        RegisterWrite { register: 0x01, value: 0xBA },
        RegisterWrite { register: 0x02, value: 0x18 },
        RegisterWrite { register: 0x0D, value: 0x01 },
        RegisterWrite { register: 0x0E, value: 0x02 },
        RegisterWrite { register: 0x14, value: 0x10 },
        RegisterWrite { register: 0x17, value: 0xFF },
        RegisterWrite { register: 0x1C, value: 0x6A },
    ]
}

/// What turns it off, in order.
pub open spec fn disable_sequence() -> Seq<RegisterWrite> {
    seq![
        RegisterWrite { register: 0x0D, value: 0xFC },
        RegisterWrite { register: 0x0E, value: 0x6A },
        RegisterWrite { register: 0x00, value: 0x00 },
    ]
}

fn write_reg(writes: &mut Vec<RegisterWrite>, register: u8, value: u8)
    ensures
        final(writes)@ == old(writes)@.push(RegisterWrite { register, value }),
{
    writes.push(RegisterWrite { register, value });
}

pub struct Es8311;

impl Es8311 {
    pub fn enable_adc() -> (writes: Vec<RegisterWrite>)
        ensures
            writes@ == enable_adc_sequence(),
    {
        let mut writes: Vec<RegisterWrite> = Vec::new();
        // Reset, then power the state machine on.
        write_reg(&mut writes, 0x00, 0x80);
        // Clock manager: the master clock is the bit clock.
        write_reg(&mut writes, 0x01, 0xBA);
        // Clock manager: the multiplier is three.
        write_reg(&mut writes, 0x02, 0x18);
        // Power the analog circuitry up.
        write_reg(&mut writes, 0x0D, 0x01);
        // Enable the analog amplifier and the ADC modulator.
        write_reg(&mut writes, 0x0E, 0x02);
        // Select the differential microphone at minimum gain.
        write_reg(&mut writes, 0x14, 0x10);
        // Maximum ADC volume.
        write_reg(&mut writes, 0x17, 0xFF);
        // Bypass the equalizer and cancel the DC offset.
        write_reg(&mut writes, 0x1C, 0x6A);
        assert(writes@ =~= enable_adc_sequence());
        writes
    }

    pub fn disable() -> (writes: Vec<RegisterWrite>)
        ensures
            writes@ == disable_sequence(),
    {
        let mut writes: Vec<RegisterWrite> = Vec::new();
        // Power the analog circuitry down.
        write_reg(&mut writes, 0x0D, 0xFC);
        write_reg(&mut writes, 0x0E, 0x6A);
        // Power the state machine down.
        write_reg(&mut writes, 0x00, 0x00);
        assert(writes@ =~= disable_sequence());
        writes
    }
}

} // verus!

//! An I2C bus driven line by line: what is done to its two lines for each byte,
//! and the bytes of each transaction.

use vstd::prelude::*;

verus! {

/// How long each step takes.
pub const DELAY_US: u32 = 5;

/// How often the clock line is looked at before a device that holds it low is
/// given up on.
pub const STRETCH_LIMIT: usize = 1_000;

/// How many clock pulses may free a stuck data line.
pub const RECOVERY_PULSES: usize = 9;

/// One step on the lines.
#[derive(Debug, Clone, Copy, PartialEq, Eq, Structural)]
pub enum LineStep {
    ReleaseSda,
    DriveSdaLow,
    ReleaseScl,
    DriveSclLow,
    /// Wait until the clock line is high.
    WaitSclHigh,
    Delay,
    /// Look at the data line.
    SampleSda,
}

/// A start condition: the data line falls while the clock is high.
pub open spec fn start_steps() -> Seq<LineStep> {
    seq![
        LineStep::ReleaseSda,
        LineStep::ReleaseScl,
        LineStep::WaitSclHigh,
        LineStep::Delay,
        LineStep::DriveSdaLow,
        LineStep::Delay,
        LineStep::DriveSclLow,
        LineStep::Delay,
    ]
}

/// A stop condition: the data line rises while the clock is high.
pub open spec fn stop_steps() -> Seq<LineStep> {
    seq![
        LineStep::DriveSdaLow,
        LineStep::Delay,
        LineStep::ReleaseScl,
        LineStep::WaitSclHigh,
        LineStep::Delay,
        LineStep::ReleaseSda,
        LineStep::Delay,
    ]
}

/// The bit of `byte` that is sent in place `i`, the most significant first.
pub open spec fn bit_sent(byte: u8, i: int) -> bool {
    if i == 0 {
        byte / 128 % 2 == 1
    } else if i == 1 {
        byte / 64 % 2 == 1
    } else if i == 2 {
        byte / 32 % 2 == 1
    } else if i == 3 {
        byte / 16 % 2 == 1
    } else if i == 4 {
        byte / 8 % 2 == 1
    } else if i == 5 {
        byte / 4 % 2 == 1
    } else if i == 6 {
        byte / 2 % 2 == 1
    } else {
        byte % 2 == 1
    }
}

/// A bit on the lines: it is set up while the clock is low and held while the
/// clock is high.
pub open spec fn bit_steps(bit: bool) -> Seq<LineStep> {
    seq![
        if bit {
            LineStep::ReleaseSda
        } else {
            LineStep::DriveSdaLow
        },
        LineStep::Delay,
        LineStep::ReleaseScl,
        LineStep::WaitSclHigh,
        LineStep::Delay,
        LineStep::DriveSclLow,
        LineStep::Delay,
    ]
}

/// The first `n` bits of `byte` on the lines.
pub open spec fn bits_steps(byte: u8, n: nat) -> Seq<LineStep>
    decreases n,
{
    if n == 0 {
        Seq::empty()
    } else {
        bits_steps(byte, (n - 1) as nat) + bit_steps(bit_sent(byte, n - 1))
    }
}

/// After the eighth bit the device answers on the data line: low means that it
/// has the byte.
pub open spec fn ack_steps() -> Seq<LineStep> {
    seq![
        LineStep::ReleaseSda,
        LineStep::Delay,
        LineStep::ReleaseScl,
        LineStep::WaitSclHigh,
        LineStep::Delay,
        LineStep::SampleSda,
        LineStep::DriveSclLow,
        LineStep::Delay,
    ]
}

pub open spec fn write_byte_steps(byte: u8) -> Seq<LineStep> {
    bits_steps(byte, 8) + ack_steps()
}

/// A bit that is read: the data line is sampled while the clock is high.
pub open spec fn read_bit_steps() -> Seq<LineStep> {
    seq![
        LineStep::ReleaseScl,
        LineStep::WaitSclHigh,
        LineStep::Delay,
        LineStep::SampleSda,
        LineStep::DriveSclLow,
        LineStep::Delay,
    ]
}

pub open spec fn read_bits_steps(n: nat) -> Seq<LineStep>
    decreases n,
{
    if n == 0 {
        Seq::empty()
    } else {
        read_bits_steps((n - 1) as nat) + read_bit_steps()
    }
}

pub open spec fn read_byte_steps(ack: bool) -> Seq<LineStep> {
    seq![LineStep::ReleaseSda] + read_bits_steps(8) + seq![
        if ack {
            LineStep::DriveSdaLow
        } else {
            LineStep::ReleaseSda
        },
        LineStep::Delay,
        LineStep::ReleaseScl,
        LineStep::WaitSclHigh,
        LineStep::Delay,
        LineStep::DriveSclLow,
        LineStep::ReleaseSda,
        LineStep::Delay,
    ]
}

pub fn start() -> (steps: Vec<LineStep>)
    ensures
        steps@ == start_steps(),
{
    let mut steps: Vec<LineStep> = Vec::new();
    steps.push(LineStep::ReleaseSda);
    steps.push(LineStep::ReleaseScl);
    steps.push(LineStep::WaitSclHigh);
    steps.push(LineStep::Delay);
    steps.push(LineStep::DriveSdaLow);
    steps.push(LineStep::Delay);
    steps.push(LineStep::DriveSclLow);
    steps.push(LineStep::Delay);
    assert(steps@ =~= start_steps());
    steps
}

pub fn stop() -> (steps: Vec<LineStep>)
    ensures
        steps@ == stop_steps(),
{
    let mut steps: Vec<LineStep> = Vec::new();
    steps.push(LineStep::DriveSdaLow);
    steps.push(LineStep::Delay);
    steps.push(LineStep::ReleaseScl);
    steps.push(LineStep::WaitSclHigh);
    steps.push(LineStep::Delay);
    steps.push(LineStep::ReleaseSda);
    steps.push(LineStep::Delay);
    assert(steps@ =~= stop_steps());
    steps
}

fn bit_of(byte: u8, i: usize) -> (bit: bool)
    requires
        i < 8,
    ensures
        bit == bit_sent(byte, i as int),
{
    match i {
        0 => byte / 128 % 2 == 1,
        1 => byte / 64 % 2 == 1,
        2 => byte / 32 % 2 == 1,
        3 => byte / 16 % 2 == 1,
        4 => byte / 8 % 2 == 1,
        5 => byte / 4 % 2 == 1,
        6 => byte / 2 % 2 == 1,
        _ => byte % 2 == 1,
    }
}

fn push_bit(steps: &mut Vec<LineStep>, bit: bool)
    ensures
        final(steps)@ == old(steps)@ + bit_steps(bit),
{
    let ghost before = steps@;
    if bit {
        steps.push(LineStep::ReleaseSda);
    } else {
        steps.push(LineStep::DriveSdaLow);
    }
    steps.push(LineStep::Delay);
    steps.push(LineStep::ReleaseScl);
    steps.push(LineStep::WaitSclHigh);
    steps.push(LineStep::Delay);
    steps.push(LineStep::DriveSclLow);
    steps.push(LineStep::Delay);
    assert(steps@ =~= before + bit_steps(bit));
}

pub fn write_byte(byte: u8) -> (steps: Vec<LineStep>)
    ensures
        steps@ == write_byte_steps(byte),
{
    let mut steps: Vec<LineStep> = Vec::new();
    let mut i: usize = 0;
    while i < 8
        invariant
            i <= 8,
            steps@ == bits_steps(byte, i as nat),
        decreases 8 - i,
    {
        push_bit(&mut steps, bit_of(byte, i));
        i += 1;
    }
    let ghost before = steps@;
    steps.push(LineStep::ReleaseSda);
    steps.push(LineStep::Delay);
    steps.push(LineStep::ReleaseScl);
    steps.push(LineStep::WaitSclHigh);
    steps.push(LineStep::Delay);
    steps.push(LineStep::SampleSda);
    steps.push(LineStep::DriveSclLow);
    steps.push(LineStep::Delay);
    assert(steps@ =~= before + ack_steps());
    steps
}

pub fn read_byte(ack: bool) -> (steps: Vec<LineStep>)
    ensures
        steps@ == read_byte_steps(ack),
{
    let mut steps: Vec<LineStep> = Vec::new();
    steps.push(LineStep::ReleaseSda);
    let mut i: usize = 0;
    assert(steps@ =~= seq![LineStep::ReleaseSda] + read_bits_steps(0));
    while i < 8
        invariant
            i <= 8,
            steps@ == seq![LineStep::ReleaseSda] + read_bits_steps(i as nat),
        decreases 8 - i,
    {
        let ghost before = steps@;
        steps.push(LineStep::ReleaseScl);
        steps.push(LineStep::WaitSclHigh);
        steps.push(LineStep::Delay);
        steps.push(LineStep::SampleSda);
        steps.push(LineStep::DriveSclLow);
        steps.push(LineStep::Delay);
        assert(steps@ =~= before + read_bit_steps());
        i += 1;
        assert(steps@ =~= seq![LineStep::ReleaseSda] + read_bits_steps(i as nat));
    }
    let ghost before = steps@;
    if ack {
        steps.push(LineStep::DriveSdaLow);
    } else {
        steps.push(LineStep::ReleaseSda);
    }
    steps.push(LineStep::Delay);
    steps.push(LineStep::ReleaseScl);
    steps.push(LineStep::WaitSclHigh);
    steps.push(LineStep::Delay);
    steps.push(LineStep::DriveSclLow);
    steps.push(LineStep::ReleaseSda);
    steps.push(LineStep::Delay);
    assert(steps@ =~= read_byte_steps(ack));
    steps
}

/// The number that bits spell, the most significant first.
pub open spec fn bits_value(bits: Seq<bool>) -> nat
    decreases bits.len(),
{
    if bits.len() == 0 {
        0
    } else {
        2 * bits_value(bits.drop_last()) + if bits.last() {
            1nat
        } else {
            0
        }
    }
}

pub open spec fn pow2(n: nat) -> nat
    decreases n,
{
    if n == 0 {
        1
    } else {
        2 * pow2((n - 1) as nat)
    }
}

proof fn lemma_bits_value_bound(bits: Seq<bool>)
    ensures
        bits_value(bits) < pow2(bits.len()),
    decreases bits.len(),
{
    if bits.len() > 0 {
        lemma_bits_value_bound(bits.drop_last());
    }
}

/// The byte that was sampled.
pub fn byte_of_bits(bits: &[bool]) -> (byte: u8)
    requires
        bits@.len() == 8,
    ensures
        byte == bits_value(bits@),
{
    let mut byte: u8 = 0;
    let mut i: usize = 0;
    assert(bits@.take(0) =~= Seq::<bool>::empty());
    while i < 8
        invariant
            i <= 8,
            bits@.len() == 8,
            byte == bits_value(bits@.take(i as int)),
        decreases 8 - i,
    {
        proof {
            assert(bits@.take(i + 1).drop_last() =~= bits@.take(i as int));
            lemma_bits_value_bound(bits@.take(i as int));
            assert(pow2(i as nat) <= 128) by {
                reveal_with_fuel(pow2, 9);
            }
        }
        byte = 2 * byte + if bits[i] {
            1
        } else {
            0
        };
        i += 1;
    }
    assert(bits@.take(8) =~= bits@);
    byte
}

/// The bits of a byte in the order in which they are sent spell the byte.
pub proof fn law_bits_sent_spell_the_byte(byte: u8)
    ensures
        bits_value(Seq::new(8, |i: int| bit_sent(byte, i))) == byte,
{
    let bits = Seq::new(8, |i: int| bit_sent(byte, i));
    let b7 = bits.drop_last();
    let b6 = b7.drop_last();
    let b5 = b6.drop_last();
    let b4 = b5.drop_last();
    let b3 = b4.drop_last();
    let b2 = b3.drop_last();
    let b1 = b2.drop_last();
    let b0 = b1.drop_last();
    assert(bits_value(b0) == 0);
    assert(bits_value(b1) == byte as int / 128);
    assert(bits_value(b2) == byte as int / 64);
    assert(bits_value(b3) == byte as int / 32);
    assert(bits_value(b4) == byte as int / 16);
    assert(bits_value(b5) == byte as int / 8);
    assert(bits_value(b6) == byte as int / 4);
    assert(bits_value(b7) == byte as int / 2);
}

/// One part of a transaction.
#[derive(Debug, Clone, Copy, PartialEq, Eq, Structural)]
pub enum BusCommand {
    Start,
    Write(u8),
    Read { ack: bool },
}

/// The byte that addresses a device for writing; the one for reading is the next.
pub open spec fn address_byte(address: u8) -> u8 {
    (address as int * 2 % 256) as u8
}

/// A write of `bytes` to the device.
pub open spec fn write_commands(address: u8, bytes: Seq<u8>) -> Seq<BusCommand> {
    seq![BusCommand::Start, BusCommand::Write(address_byte(address))] + bytes.map_values(
        |byte: u8| BusCommand::Write(byte),
    )
}

/// A write of `bytes` and then a read of `read_len` bytes, of which all but the
/// last are acknowledged.
pub open spec fn write_read_commands(address: u8, bytes: Seq<u8>, read_len: nat) -> Seq<BusCommand> {
    write_commands(address, bytes) + seq![
        BusCommand::Start,
        BusCommand::Write((address_byte(address) + 1) as u8),
    ] + Seq::new(read_len, |i: int| BusCommand::Read { ack: i != read_len - 1 })
}

pub fn write(address: u8, bytes: &[u8]) -> (commands: Vec<BusCommand>)
    ensures
        commands@ == write_commands(address, bytes@),
{
    let mut commands: Vec<BusCommand> = Vec::new();
    commands.push(BusCommand::Start);
    commands.push(BusCommand::Write((address as u16 * 2 % 256) as u8));
    let mut i: usize = 0;
    assert(commands@ =~= write_commands(address, bytes@.take(0)));
    while i < bytes.len()
        invariant
            i <= bytes@.len(),
            commands@ == write_commands(address, bytes@.take(i as int)),
        decreases bytes@.len() - i,
    {
        commands.push(BusCommand::Write(bytes[i]));
        i += 1;
        assert(commands@ =~= write_commands(address, bytes@.take(i as int)));
    }
    assert(bytes@.take(i as int) =~= bytes@);
    commands
}

pub fn write_read(address: u8, bytes: &[u8], read_len: usize) -> (commands: Vec<BusCommand>)
    ensures
        commands@ == write_read_commands(address, bytes@, read_len as nat),
{
    let mut commands = write(address, bytes);
    commands.push(BusCommand::Start);
    commands.push(BusCommand::Write((address as u16 * 2 % 256) as u8 + 1));
    let ghost before = commands@;
    let mut i: usize = 0;
    while i < read_len
        invariant
            i <= read_len,
            commands@ == before + Seq::new(
                i as nat,
                |k: int| BusCommand::Read { ack: k != read_len - 1 },
            ),
        decreases read_len - i,
    {
        commands.push(BusCommand::Read { ack: i != read_len - 1 });
        i += 1;
        assert(commands@ =~= before + Seq::new(
            i as nat,
            |k: int| BusCommand::Read { ack: k != read_len - 1 },
        ));
    }
    assert(commands@ =~= write_read_commands(address, bytes@, read_len as nat));
    commands
}

/// Why a transaction failed.
#[derive(Debug, Clone, Copy, PartialEq, Eq, Structural)]
pub enum BusError {
    /// The device did not acknowledge a byte.
    Nack,
    /// The device held the clock low for too long.
    Timeout,
    /// A line could not be set.
    Line(i32),
}

/// How a byte that was written ends: `sda_high` is what the data line was at the
/// acknowledgement.
pub fn acknowledged(sda_high: bool) -> (result: Result<(), BusError>)
    ensures
        result == if sda_high {
            Err::<(), BusError>(BusError::Nack)
        } else {
            Ok(())
        },
{
    if sda_high {
        Err(BusError::Nack)
    } else {
        Ok(())
    }
}

/// How a transaction ends whose stop condition is always sent: its own failure
/// comes before that of the stop.
pub fn finish(result: Result<(), BusError>, stop: Result<(), BusError>) -> (outcome: Result<
    (),
    BusError,
>)
    ensures
        outcome == if result is Err {
            result
        } else {
            stop
        },
{
    if result.is_err() {
        result
    } else {
        stop
    }
}

/// Whether another clock pulse is tried to free the data line.
pub fn recovery_goes_on(pulses: usize, sda_high: bool) -> (on: bool)
    ensures
        on == (pulses < RECOVERY_PULSES && !sda_high),
{
    pulses < RECOVERY_PULSES && !sda_high
}

/// Whether the clock line is looked at again.
#[derive(Debug, Clone, Copy, PartialEq, Eq, Structural)]
pub enum ClockWait {
    High,
    LookAgain,
    TimedOut,
}

/// How waiting for the clock goes on: `looks` is how often it has been looked at,
/// this time not counted.
pub fn clock_wait(looks: usize, scl_high: bool) -> (wait: ClockWait)
    requires
        looks < STRETCH_LIMIT,
    ensures
        wait == if scl_high {
            ClockWait::High
        } else if looks + 1 < STRETCH_LIMIT {
            ClockWait::LookAgain
        } else {
            ClockWait::TimedOut
        },
{
    if scl_high {
        ClockWait::High
    } else if looks + 1 < STRETCH_LIMIT {
        ClockWait::LookAgain
    } else {
        ClockWait::TimedOut
    }
}

/// The levels of the two lines, as far as the master lets them go.
pub ghost struct Lines {
    pub sda: bool,
    pub scl: bool,
}

/// The lines after a step.
pub open spec fn lines_after(lines: Lines, step: LineStep) -> Lines {
    match step {
        LineStep::ReleaseSda => Lines { sda: true, ..lines },
        LineStep::DriveSdaLow => Lines { sda: false, ..lines },
        LineStep::ReleaseScl => Lines { scl: true, ..lines },
        LineStep::DriveSclLow => Lines { scl: false, ..lines },
        _ => lines,
    }
}

/// What a device on the bus takes from the lines: the data line each time that the clock
/// rises, and a start or a stop where the data line moves while the clock is high.
pub ghost enum Seen {
    Bit(bool),
    Start,
    Stop,
}

/// What is seen as a step is taken.
pub open spec fn seen_in(lines: Lines, step: LineStep) -> Seq<Seen> {
    let after = lines_after(lines, step);
    if !lines.scl && after.scl {
        seq![Seen::Bit(after.sda)]
    } else if lines.scl && after.scl && lines.sda && !after.sda {
        seq![Seen::Start]
    } else if lines.scl && after.scl && !lines.sda && after.sda {
        seq![Seen::Stop]
    } else {
        Seq::empty()
    }
}

/// The lines after some steps.
pub open spec fn lines_after_all(lines: Lines, steps: Seq<LineStep>) -> Lines
    decreases steps.len(),
{
    if steps.len() == 0 {
        lines
    } else {
        lines_after_all(lines_after(lines, steps[0]), steps.drop_first())
    }
}

/// What is seen while some steps are taken.
pub open spec fn seen(lines: Lines, steps: Seq<LineStep>) -> Seq<Seen>
    decreases steps.len(),
{
    if steps.len() == 0 {
        Seq::empty()
    } else {
        seen_in(lines, steps[0]) + seen(lines_after(lines, steps[0]), steps.drop_first())
    }
}

proof fn lemma_seen_in_parts(lines: Lines, a: Seq<LineStep>, b: Seq<LineStep>)
    ensures
        lines_after_all(lines, a + b) == lines_after_all(lines_after_all(lines, a), b),
        seen(lines, a + b) == seen(lines, a) + seen(lines_after_all(lines, a), b),
    decreases a.len(),
{
    if a.len() == 0 {
        assert(a + b =~= b);
        assert(seen(lines, a + b) =~= seen(lines, a) + seen(lines_after_all(lines, a), b));
    } else {
        assert((a + b).drop_first() =~= a.drop_first() + b);
        lemma_seen_in_parts(lines_after(lines, a[0]), a.drop_first(), b);
        assert(seen(lines, a + b) =~= seen(lines, a) + seen(lines_after_all(lines, a), b));
    }
}

/// From any lines a device sees one bit where a bit is sent, and that bit, as long as the
/// clock is low before; the clock is low again behind it.
pub proof fn law_a_device_sees_the_bit_sent(lines: Lines, bit: bool)
    requires
        !lines.scl,
    ensures
        seen(lines, bit_steps(bit)) == seq![Seen::Bit(bit)],
        !lines_after_all(lines, bit_steps(bit)).scl,
{
    let steps = bit_steps(bit);
    reveal_with_fuel(seen, 8);
    reveal_with_fuel(lines_after_all, 8);
    let s1 = steps.drop_first();
    let s2 = s1.drop_first();
    let s3 = s2.drop_first();
    let s4 = s3.drop_first();
    let s5 = s4.drop_first();
    let s6 = s5.drop_first();
    let s7 = s6.drop_first();
    assert(s1[0] == steps[1] && s2[0] == steps[2] && s3[0] == steps[3] && s4[0] == steps[4]
        && s5[0] == steps[5] && s6[0] == steps[6] && s7.len() == 0);
    assert(seen(lines, steps) =~= seq![Seen::Bit(bit)]);
}

proof fn lemma_bits_seen(lines: Lines, byte: u8, n: nat)
    requires
        !lines.scl,
        n <= 8,
    ensures
        seen(lines, bits_steps(byte, n)) == Seq::new(n, |i: int| Seen::Bit(bit_sent(byte, i))),
        !lines_after_all(lines, bits_steps(byte, n)).scl,
    decreases n,
{
    if n == 0 {
        assert(seen(lines, bits_steps(byte, n)) =~= Seq::new(
            n,
            |i: int| Seen::Bit(bit_sent(byte, i)),
        ));
    } else {
        let m = (n - 1) as nat;
        let before = bits_steps(byte, m);
        lemma_bits_seen(lines, byte, m);
        lemma_seen_in_parts(lines, before, bit_steps(bit_sent(byte, n - 1)));
        law_a_device_sees_the_bit_sent(lines_after_all(lines, before), bit_sent(byte, n - 1));
        assert(seen(lines, bits_steps(byte, n)) =~= Seq::new(
            n,
            |i: int| Seen::Bit(bit_sent(byte, i)),
        ));
    }
}

/// A device sees the eight bits of a byte that is written, and then a ninth for which the
/// master lets go of the data line, so that the device can answer; and no start or stop
/// among them.
pub proof fn law_a_device_sees_the_byte_written(lines: Lines, byte: u8)
    requires
        !lines.scl,
    ensures
        seen(lines, write_byte_steps(byte)) == Seq::new(8, |i: int| Seen::Bit(bit_sent(byte, i)))
            + seq![Seen::Bit(true)],
        !lines_after_all(lines, write_byte_steps(byte)).scl,
{
    let bits = bits_steps(byte, 8);
    let steps = ack_steps();
    lemma_bits_seen(lines, byte, 8);
    lemma_seen_in_parts(lines, bits, steps);
    let middle = lines_after_all(lines, bits);
    reveal_with_fuel(seen, 9);
    reveal_with_fuel(lines_after_all, 9);
    let s1 = steps.drop_first();
    let s2 = s1.drop_first();
    let s3 = s2.drop_first();
    let s4 = s3.drop_first();
    let s5 = s4.drop_first();
    let s6 = s5.drop_first();
    let s7 = s6.drop_first();
    let s8 = s7.drop_first();
    assert(s1[0] == steps[1] && s2[0] == steps[2] && s3[0] == steps[3] && s4[0] == steps[4]
        && s5[0] == steps[5] && s6[0] == steps[6] && s7[0] == steps[7] && s8.len() == 0);
    assert(seen(middle, steps) =~= seq![Seen::Bit(true)]);
}

/// A device sees one start, and one stop, where they are meant: a start from idle lines
/// leaves both low, and a stop leaves both high.
pub proof fn law_a_device_sees_starts_and_stops(lines: Lines)
    ensures
        lines.sda && lines.scl ==> seen(lines, start_steps()) == seq![Seen::Start],
        lines_after_all(lines, start_steps()) == (Lines { sda: false, scl: false }),
        !lines.scl ==> seen(lines, stop_steps()) == seq![Seen::Bit(false), Seen::Stop],
        lines_after_all(lines, stop_steps()) == (Lines { sda: true, scl: true }),
{
    let steps = start_steps();
    reveal_with_fuel(seen, 9);
    reveal_with_fuel(lines_after_all, 9);
    let s1 = steps.drop_first();
    let s2 = s1.drop_first();
    let s3 = s2.drop_first();
    let s4 = s3.drop_first();
    let s5 = s4.drop_first();
    let s6 = s5.drop_first();
    let s7 = s6.drop_first();
    let s8 = s7.drop_first();
    assert(s1[0] == steps[1] && s2[0] == steps[2] && s3[0] == steps[3] && s4[0] == steps[4]
        && s5[0] == steps[5] && s6[0] == steps[6] && s7[0] == steps[7] && s8.len() == 0);
    if lines.sda && lines.scl {
        assert(seen(lines, steps) =~= seq![Seen::Start]);
    }
    let steps = stop_steps();
    let s1 = steps.drop_first();
    let s2 = s1.drop_first();
    let s3 = s2.drop_first();
    let s4 = s3.drop_first();
    let s5 = s4.drop_first();
    let s6 = s5.drop_first();
    let s7 = s6.drop_first();
    assert(s1[0] == steps[1] && s2[0] == steps[2] && s3[0] == steps[3] && s4[0] == steps[4]
        && s5[0] == steps[5] && s6[0] == steps[6] && s7.len() == 0);
    if !lines.scl {
        assert(seen(lines, steps) =~= seq![Seen::Bit(false), Seen::Stop]);
    }
}

proof fn lemma_read_bits_seen(lines: Lines, n: nat)
    requires
        !lines.scl,
        lines.sda,
    ensures
        seen(lines, read_bits_steps(n)) == Seq::new(n, |i: int| Seen::Bit(true)),
        lines_after_all(lines, read_bits_steps(n)) == lines,
    decreases n,
{
    if n == 0 {
        assert(seen(lines, read_bits_steps(n)) =~= Seq::new(n, |i: int| Seen::Bit(true)));
    } else {
        let before = read_bits_steps((n - 1) as nat);
        let steps = read_bit_steps();
        lemma_read_bits_seen(lines, (n - 1) as nat);
        lemma_seen_in_parts(lines, before, steps);
        reveal_with_fuel(seen, 7);
        reveal_with_fuel(lines_after_all, 7);
        let s1 = steps.drop_first();
        let s2 = s1.drop_first();
        let s3 = s2.drop_first();
        let s4 = s3.drop_first();
        let s5 = s4.drop_first();
        let s6 = s5.drop_first();
        assert(s1[0] == steps[1] && s2[0] == steps[2] && s3[0] == steps[3] && s4[0] == steps[4]
            && s5[0] == steps[5] && s6.len() == 0);
        assert(seen(lines, steps) =~= seq![Seen::Bit(true)]);
        assert(seen(lines, read_bits_steps(n)) =~= Seq::new(n, |i: int| Seen::Bit(true)));
    }
}

/// While a byte is read the master lets go of the data line for eight bits, so that the
/// device can send them, and answers with a ninth: low for a byte that it acknowledges.
pub proof fn law_a_read_leaves_the_line_to_the_device(lines: Lines, ack: bool)
    requires
        !lines.scl,
    ensures
        seen(lines, read_byte_steps(ack)) == Seq::new(8, |i: int| Seen::Bit(true)) + seq![
            Seen::Bit(!ack),
        ],
        lines_after_all(lines, read_byte_steps(ack)) == (Lines { sda: true, scl: false }),
{
    let first = seq![LineStep::ReleaseSda];
    let bits = read_bits_steps(8);
    let whole = read_byte_steps(ack);
    let n = 1 + bits.len() as int;
    let steps = whole.skip(n);
    assert(whole =~= first + bits + steps);
    let released = Lines { sda: true, scl: false };
    assert(lines_after_all(lines, first) == released) by {
        reveal_with_fuel(lines_after_all, 2);
    }
    assert(seen(lines, first) =~= Seq::<Seen>::empty()) by {
        reveal_with_fuel(seen, 2);
    }
    lemma_read_bits_seen(released, 8);
    lemma_seen_in_parts(lines, first, bits);
    lemma_seen_in_parts(lines, first + bits, steps);
    reveal_with_fuel(seen, 9);
    reveal_with_fuel(lines_after_all, 9);
    let s1 = steps.drop_first();
    let s2 = s1.drop_first();
    let s3 = s2.drop_first();
    let s4 = s3.drop_first();
    let s5 = s4.drop_first();
    let s6 = s5.drop_first();
    let s7 = s6.drop_first();
    let s8 = s7.drop_first();
    assert(s1[0] == steps[1] && s2[0] == steps[2] && s3[0] == steps[3] && s4[0] == steps[4]
        && s5[0] == steps[5] && s6[0] == steps[6] && s7[0] == steps[7] && s8.len() == 0);
    assert(seen(released, steps) =~= seq![Seen::Bit(!ack)]);
    assert(seen(lines, whole) =~= Seq::new(8, |i: int| Seen::Bit(true)) + seq![Seen::Bit(!ack)]);
}

/// A transaction addresses its device in the upper seven bits of a byte, with the lowest
/// telling a read from a write, sends its bytes in order, and acknowledges every byte it
/// reads but the last.
pub proof fn law_a_transaction_has_its_form(address: u8, bytes: Seq<u8>, read_len: nat, i: int)
    requires
        address < 128,
    ensures
        ({
            let written = write_commands(address, bytes);
            let both = write_read_commands(address, bytes, read_len);
            let n = bytes.len() as int;
            &&& written.len() == n + 2 && both.len() == n + 4 + read_len
            &&& both.take(n + 2) == written
            &&& written[0] == BusCommand::Start && both[n + 2] == BusCommand::Start
            &&& written[1] == BusCommand::Write((2 * address) as u8)
            &&& both[n + 3] == BusCommand::Write((2 * address + 1) as u8)
            &&& 0 <= i < n ==> written[i + 2] == BusCommand::Write(bytes[i])
            &&& 0 <= i < read_len ==> both[n + 4 + i] == (BusCommand::Read {
                ack: i + 1 < read_len,
            })
        }),
{
    let written = write_commands(address, bytes);
    let both = write_read_commands(address, bytes, read_len);
    assert(both.take(bytes.len() as int + 2) =~= written);
}

} // verus!

//! The power management chip: its registers, and the battery.

use vstd::prelude::*;

verus! {

pub const PM1_ADDRESS: u8 = 0x6e;

pub const REG_PWR_SRC: u8 = 0x04;

pub const REG_PWR_CFG: u8 = 0x06;

pub const REG_I2C_CFG: u8 = 0x09;

pub const REG_GPIO_MODE: u8 = 0x10;

pub const REG_GPIO_OUT: u8 = 0x11;

pub const REG_GPIO_DRV: u8 = 0x13;

pub const REG_GPIO_FUNC0: u8 = 0x16;

pub const REG_VBAT_L: u8 = 0x22;

pub const REG_VIN_L: u8 = 0x24;

pub const REG_5VINOUT_L: u8 = 0x26;

pub const LDO_EN: u8 = 0x04;

pub const PM1_GPIO2: u8 = 0x04;

/// An input at or above this voltage supplies the device.
pub const INPUT_POWER_MV: u16 = 4_300;

#[derive(Debug, Clone, Copy, PartialEq, Eq, Structural)]
pub enum PowerSource {
    FiveVoltIn,
    FiveVoltInOut,
    Battery,
    Unknown,
}

#[derive(Debug, Clone, Copy, PartialEq, Eq, Structural)]
pub struct BatteryStatus {
    pub millivolts: u16,
    pub percent: u8,
    pub power_source: PowerSource,
}

/// What is done to a register.
#[derive(Debug, Clone, Copy, PartialEq, Eq, Structural)]
pub enum RegisterUpdate {
    SetBits { register: u8, mask: u8 },
    ClearBits { register: u8, mask: u8 },
    Write { register: u8, value: u8 },
}

impl RegisterUpdate {
    /// The value that a register gets that holds `current`.
    pub open spec fn result(self, current: u8) -> u8 {
        match self {
            RegisterUpdate::SetBits { mask, .. } => current | mask,
            RegisterUpdate::ClearBits { mask, .. } => current & !mask,
            RegisterUpdate::Write { value, .. } => value,
        }
    }

    pub fn apply(self, current: u8) -> (value: u8)
        ensures
            value == self.result(current),
    {
        match self {
            RegisterUpdate::SetBits { mask, .. } => current | mask,
            RegisterUpdate::ClearBits { mask, .. } => current & !mask,
            RegisterUpdate::Write { value, .. } => value,
        }
    }
}

/// What turns the power rails on, in order.
pub open spec fn power_up_sequence() -> Seq<RegisterUpdate> {
    seq![
        RegisterUpdate::SetBits { register: REG_PWR_CFG, mask: LDO_EN },
        RegisterUpdate::Write { register: REG_I2C_CFG, value: 0x00 },
        RegisterUpdate::ClearBits { register: REG_GPIO_FUNC0, mask: PM1_GPIO2 },
        RegisterUpdate::SetBits { register: REG_GPIO_MODE, mask: PM1_GPIO2 },
        RegisterUpdate::ClearBits { register: REG_GPIO_DRV, mask: PM1_GPIO2 },
        RegisterUpdate::SetBits { register: REG_GPIO_OUT, mask: PM1_GPIO2 },
    ]
}

pub fn init_sticks3_power() -> (updates: Vec<RegisterUpdate>)
    ensures
        updates@ == power_up_sequence(),
{
    let mut updates: Vec<RegisterUpdate> = Vec::new();
    updates.push(RegisterUpdate::SetBits { register: REG_PWR_CFG, mask: LDO_EN });
    updates.push(RegisterUpdate::Write { register: REG_I2C_CFG, value: 0x00 });
    updates.push(RegisterUpdate::ClearBits { register: REG_GPIO_FUNC0, mask: PM1_GPIO2 });
    updates.push(RegisterUpdate::SetBits { register: REG_GPIO_MODE, mask: PM1_GPIO2 });
    updates.push(RegisterUpdate::ClearBits { register: REG_GPIO_DRV, mask: PM1_GPIO2 });
    updates.push(RegisterUpdate::SetBits { register: REG_GPIO_OUT, mask: PM1_GPIO2 });
    assert(updates@ =~= power_up_sequence());
    updates
}

/// The source that the low three bits of its register name.
pub open spec fn source_of(value: u8) -> PowerSource {
    if value % 8 == 0 {
        PowerSource::FiveVoltIn
    } else if value % 8 == 1 {
        PowerSource::FiveVoltInOut
    } else if value % 8 == 2 {
        PowerSource::Battery
    } else {
        PowerSource::Unknown
    }
}

pub fn power_source(value: u8) -> (source: PowerSource)
    ensures
        source == source_of(value),
{
    match value % 8 {
        0 => PowerSource::FiveVoltIn,
        1 => PowerSource::FiveVoltInOut,
        2 => PowerSource::Battery,
        _ => PowerSource::Unknown,
    }
}

/// The charge of the battery, interpolated between the voltages at which it is a
/// multiple of ten percent.
pub open spec fn charge_percent(mv: int) -> int {
    if mv <= 3300 {
        0
    } else if mv <= 3600 {
        (mv - 3300) * 10 / 300
    } else if mv <= 3700 {
        10 + (mv - 3600) * 10 / 100
    } else if mv <= 3750 {
        20 + (mv - 3700) * 10 / 50
    } else if mv <= 3790 {
        30 + (mv - 3750) * 10 / 40
    } else if mv <= 3830 {
        40 + (mv - 3790) * 10 / 40
    } else if mv <= 3870 {
        50 + (mv - 3830) * 10 / 40
    } else if mv <= 3920 {
        60 + (mv - 3870) * 10 / 50
    } else if mv <= 3970 {
        70 + (mv - 3920) * 10 / 50
    } else if mv <= 4050 {
        80 + (mv - 3970) * 10 / 80
    } else if mv <= 4150 {
        90 + (mv - 4050) * 10 / 100
    } else {
        100
    }
}

/// More voltage never means less charge, and the charge is between nothing and
/// full.
pub proof fn law_charge_grows_with_voltage(low_mv: int, high_mv: int)
    requires
        low_mv <= high_mv,
    ensures
        0 <= charge_percent(low_mv) <= charge_percent(high_mv) <= 100,
{
}

pub const VOLTAGES_MV: [u16; 11] = [
    3300, 3600, 3700, 3750, 3790, 3830, 3870, 3920, 3970, 4050, 4150,
];

pub fn battery_percent(millivolts: u16) -> (percent: u8)
    ensures
        percent == charge_percent(millivolts as int),
{
    if millivolts <= VOLTAGES_MV[0] {
        return 0;
    }
    let mut i: usize = 0;
    while i < 10
        invariant
            i <= 10,
            millivolts > VOLTAGES_MV@[i as int],
        decreases 10 - i,
    {
        let low: u16 = VOLTAGES_MV[i];
        let high: u16 = VOLTAGES_MV[i + 1];
        if millivolts <= high {
            let span: u32 = (high - low) as u32;
            let offset: u32 = (millivolts - low) as u32;
            proof {
                lemma_interpolation(i as int, millivolts as int, span as int, offset as int);
            }
            return (10 * i as u32 + offset * 10 / span) as u8;
        }
        i += 1;
    }
    100
}

proof fn lemma_interpolation(i: int, mv: int, span: int, offset: int)
    requires
        0 <= i < 10,
        VOLTAGES_MV@[i] < mv <= VOLTAGES_MV@[i + 1],
        span == VOLTAGES_MV@[i + 1] - VOLTAGES_MV@[i],
        offset == mv - VOLTAGES_MV@[i],
    ensures
        10 * i + offset * 10 / span == charge_percent(mv),
        0 <= offset * 10 / span <= 10,
        span > 0,
{
    if i == 0 {
        assert(offset * 10 / span == offset * 10 / 300) by (nonlinear_arith)
            requires
                span == 300,
        ;
    } else if i == 1 || i == 9 {
        assert(offset * 10 / span == offset * 10 / 100) by (nonlinear_arith)
            requires
                span == 100,
        ;
    } else if i == 2 || i == 6 || i == 7 {
        assert(offset * 10 / span == offset * 10 / 50) by (nonlinear_arith)
            requires
                span == 50,
        ;
    } else if i == 3 || i == 4 || i == 5 {
        assert(offset * 10 / span == offset * 10 / 40) by (nonlinear_arith)
            requires
                span == 40,
        ;
    } else {
        assert(offset * 10 / span == offset * 10 / 80) by (nonlinear_arith)
            requires
                span == 80,
        ;
    }
}

/// What the registers say of the battery.
pub fn battery_status(millivolts: u16, source_register: u8) -> (status: BatteryStatus)
    ensures
        status == (BatteryStatus {
            millivolts,
            percent: charge_percent(millivolts as int) as u8,
            power_source: source_of(source_register),
        }),
{
    BatteryStatus {
        millivolts,
        percent: battery_percent(millivolts),
        power_source: power_source(source_register),
    }
}

/// What the screen shows of the battery.
#[derive(Debug, Clone, Copy, PartialEq, Eq, Structural)]
pub struct BatteryView {
    pub percent: Option<u8>,
    pub external_power: bool,
}

pub open spec fn unknown_battery() -> BatteryView {
    BatteryView { percent: None, external_power: false }
}

impl BatteryView {
    pub fn unknown() -> (view: BatteryView)
        ensures
            view == unknown_battery(),
    {
        BatteryView { percent: None, external_power: false }
    }
}

/// What is shown of a battery status and of the two input voltages, either of
/// which may not have been readable.
pub open spec fn battery_view_of(status: Option<BatteryStatus>, inputs: Option<(u16, u16)>) -> BatteryView {
    match status {
        Some(status) => BatteryView {
            percent: Some(status.percent),
            external_power: (inputs matches Some((vin, five_volt)) && (vin >= INPUT_POWER_MV
                || five_volt >= INPUT_POWER_MV)) || status.power_source == PowerSource::FiveVoltIn
                || status.power_source == PowerSource::FiveVoltInOut,
        },
        None => unknown_battery(),
    }
}

pub fn read_battery_view(status: Option<BatteryStatus>, inputs: Option<(u16, u16)>) -> (view:
    BatteryView)
    ensures
        view == battery_view_of(status, inputs),
{
    match status {
        Some(status) => {
            let input_power = match inputs {
                Some((vin_mv, five_volt_mv)) => vin_mv >= INPUT_POWER_MV || five_volt_mv
                    >= INPUT_POWER_MV,
                None => false,
            };
            BatteryView {
                percent: Some(status.percent),
                external_power: input_power || status.power_source == PowerSource::FiveVoltIn
                    || status.power_source == PowerSource::FiveVoltInOut,
            }
        },
        None => BatteryView::unknown(),
    }
}

/// Between two voltages whose charges are ten percent apart, the charge grows evenly from
/// the one to the other, rounded down; below the lowest it is nothing and above the
/// highest full.
pub proof fn law_charge_is_interpolated(i: int, mv: int)
    requires
        0 <= i < 10,
    ensures
        ({
            let points: Seq<int> = seq![
                3300,
                3600,
                3700,
                3750,
                3790,
                3830,
                3870,
                3920,
                3970,
                4050,
                4150,
            ];
            let low = points[i];
            let high = points[i + 1];
            let beyond = charge_percent(mv) - 10 * i;
            &&& low <= mv <= high ==> (high - low) * beyond <= 10 * (mv - low) < (high - low) * (
            beyond + 1)
            &&& mv <= 3300 ==> charge_percent(mv) == 0
            &&& mv >= 4150 ==> charge_percent(mv) == 100
        }),
{
    let points: Seq<int> = seq![
        3300,
        3600,
        3700,
        3750,
        3790,
        3830,
        3870,
        3920,
        3970,
        4050,
        4150,
    ];
    let low = points[i];
    let high = points[i + 1];
    let beyond = charge_percent(mv) - 10 * i;
    if low <= mv <= high {
        let span = high - low;
        assert(span == 300 || span == 100 || span == 50 || span == 40 || span == 80);
        if span == 300 {
            assert(span * beyond == 300 * beyond && span * (beyond + 1) == 300 * beyond + 300)
                by (nonlinear_arith)
                requires
                    span == 300,
            ;
        } else if span == 100 {
            assert(span * beyond == 100 * beyond && span * (beyond + 1) == 100 * beyond + 100)
                by (nonlinear_arith)
                requires
                    span == 100,
            ;
        } else if span == 50 {
            assert(span * beyond == 50 * beyond && span * (beyond + 1) == 50 * beyond + 50)
                by (nonlinear_arith)
                requires
                    span == 50,
            ;
        } else if span == 40 {
            assert(span * beyond == 40 * beyond && span * (beyond + 1) == 40 * beyond + 40)
                by (nonlinear_arith)
                requires
                    span == 40,
            ;
        } else {
            assert(span * beyond == 80 * beyond && span * (beyond + 1) == 80 * beyond + 80)
                by (nonlinear_arith)
                requires
                    span == 80,
            ;
        }
    }
}

/// Setting bits sets those of the mask and keeps the others, clearing them clears those
/// and keeps the others, and writing keeps nothing.
pub proof fn law_updates_touch_only_their_bits(register: u8, mask: u8, current: u8)
    ensures
        ({
            let set = (RegisterUpdate::SetBits { register, mask }).result(current);
            let cleared = (RegisterUpdate::ClearBits { register, mask }).result(current);
            &&& set & mask == mask
            &&& set & !mask == current & !mask
            &&& cleared & mask == 0
            &&& cleared & !mask == current & !mask
            &&& (RegisterUpdate::Write { register, value: mask }).result(current) == mask
        }),
{
    assert((current | mask) & mask == mask) by (bit_vector);
    assert((current | mask) & !mask == current & !mask) by (bit_vector);
    assert((current & !mask) & mask == 0) by (bit_vector);
    assert((current & !mask) & !mask == current & !mask) by (bit_vector);
}

pub open spec fn register_of(update: RegisterUpdate) -> u8 {
    match update {
        RegisterUpdate::SetBits { register, .. } => register,
        RegisterUpdate::ClearBits { register, .. } => register,
        RegisterUpdate::Write { register, .. } => register,
    }
}

/// The registers after the updates.
pub open spec fn registers_after(registers: Map<u8, u8>, updates: Seq<RegisterUpdate>) -> Map<u8, u8>
    decreases updates.len(),
{
    if updates.len() == 0 {
        registers
    } else {
        let before = registers_after(registers, updates.drop_last());
        let update = updates.last();
        before.insert(register_of(update), update.result(before[register_of(update)]))
    }
}

/// Whatever the registers held, after the power-up the supply is on, and the pin that
/// switches the rest on is an ordinary output that is driven and high.
pub proof fn law_the_power_comes_up(registers: Map<u8, u8>)
    ensures
        ({
            let after = registers_after(registers, power_up_sequence());
            &&& after[REG_PWR_CFG] == registers[REG_PWR_CFG] | 0x04
            &&& after[REG_I2C_CFG] == 0
            &&& after[REG_GPIO_FUNC0] == registers[REG_GPIO_FUNC0] & !0x04u8
            &&& after[REG_GPIO_MODE] == registers[REG_GPIO_MODE] | 0x04
            &&& after[REG_GPIO_DRV] == registers[REG_GPIO_DRV] & !0x04u8
            &&& after[REG_GPIO_OUT] == registers[REG_GPIO_OUT] | 0x04
            &&& forall|register: u8|
                register != REG_PWR_CFG && register != REG_I2C_CFG && register != REG_GPIO_FUNC0
                    && register != REG_GPIO_MODE && register != REG_GPIO_DRV && register
                    != REG_GPIO_OUT ==> #[trigger] after[register] == registers[register]
        }),
{
    let all = power_up_sequence();
    let one = all.drop_last();
    let two = one.drop_last();
    let three = two.drop_last();
    let four = three.drop_last();
    let five = four.drop_last();
    assert(five.drop_last() =~= Seq::<RegisterUpdate>::empty());
    reveal_with_fuel(registers_after, 8);
}

/// Only the three low bits of the register tell the source.
pub proof fn law_three_bits_tell_the_source(value: u8, other: u8)
    ensures
        value % 8 == other % 8 ==> source_of(value) == source_of(other),
        source_of(value) == source_of(other) && source_of(value) != PowerSource::Unknown ==> value
            % 8 == other % 8,
        source_of(value) == PowerSource::Battery <==> value & 7 == 2,
        source_of(value) == PowerSource::FiveVoltIn <==> value & 7 == 0,
        source_of(value) == PowerSource::FiveVoltInOut <==> value & 7 == 1,
{
    assert(value & 7 == value % 8) by (bit_vector);
}

/// The screen shows external power if and only if the battery could be read and an input
/// is at 4.3 volts or the power comes from one; it shows a charge if and only if the
/// battery could be read, and then the battery's.
pub proof fn law_inputs_mean_external_power(status: BatteryStatus, vin: u16, five_volt: u16)
    ensures
        battery_view_of(Some(status), Some((vin, five_volt))).external_power <==> vin >= 4_300
            || five_volt >= 4_300 || battery_view_of(Some(status), None).external_power,
        battery_view_of(Some(status), None).external_power <==> !(status.power_source
            == PowerSource::Battery || status.power_source == PowerSource::Unknown),
        battery_view_of(Some(status), Some((vin, five_volt))).percent == Some(status.percent),
        battery_view_of(Some(status), None).percent == Some(status.percent),
        battery_view_of(None, Some((vin, five_volt))).percent is None,
        !battery_view_of(None, Some((vin, five_volt))).external_power,
{
}

} // verus!

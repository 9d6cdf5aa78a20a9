//! Temperature encodings used by the embedded controller.
//!
//! The EC reports a temperature as one byte `b` meaning `b + 200` kelvin, so
//! the representable span is 200K..=454K (-73°C..=181°C).  The four highest
//! byte values are reserved as sensor error codes.

use vstd::prelude::*;

verus! {

/// Kelvin offset of the EC temperature encoding.
pub const EC_TEMP_SENSOR_OFFSET: u16 = 200;

/// Offset between kelvin and degrees Celsius.
pub const KELVIN_CELSIUS_OFFSET: u16 = 273;

/// Offset between the EC encoding and degrees Celsius (`ec = celsius + 73`).
pub const EC_TEMP_SENSOR_OFFSET_CELSIUS: u16 = KELVIN_CELSIUS_OFFSET - EC_TEMP_SENSOR_OFFSET;

/// Lowest temperature the EC encoding can express, in °C.
pub const MIN_TEMP_CELSIUS: i16 = -73;

/// Highest temperature the EC encoding can express, in °C.
pub const MAX_TEMP_CELSIUS: i16 = 181;

/// Number of temperature sensor slots in the EC memory map.
pub const EC_TEMP_SENSOR_ENTRIES: usize = 16;

/// Lowest byte that the EC uses as an error code rather than a temperature.
pub const EC_TEMP_FIRST_ERROR_CODE: u8 = 0xFC;

/// A reading taken as a temperature (EC encoding, `°C + 73`).  Decoded
/// sensor readings never hold an error code (0xFC..=0xFF); the maximum over
/// raw sensor slots (`max_temp`) may.
#[derive(Debug, Clone, Copy, PartialEq, Eq, PartialOrd, Ord, Structural)]
pub struct ValidEcTemp(pub u8);

/// A raw byte read from the EC; it may be an error code.
#[derive(Debug, Clone, Copy, PartialEq, Eq, PartialOrd, Ord, Structural)]
pub struct UnvalidatedEcTemp(pub u8);

/// A temperature in kelvin.
#[derive(Debug, Clone, Copy, PartialEq, Eq, Structural)]
pub struct KelvinTemp(pub u16);

/// A temperature in degrees Celsius.
#[derive(Debug, Clone, Copy, PartialEq, Eq, Structural)]
pub struct CelsiusTemp(pub i16);

/// The error codes that the EC reports in place of a temperature.
#[derive(Debug, Clone, Copy, PartialEq, Eq, Structural)]
pub enum EcTempSensorError {
    /// Byte `0xFF`.
    NotPresent,
    /// Byte `0xFE`.
    Error,
    /// Byte `0xFD`.
    NotPowered,
    /// Byte `0xFC`.
    NotCalibrated,
}

/// Decoding of a raw EC byte: the four highest values are error codes, every
/// other value is a valid temperature.
pub open spec fn decode_ec_byte(b: u8) -> Result<ValidEcTemp, EcTempSensorError> {
    if b == 0xFF {
        Err(EcTempSensorError::NotPresent)
    } else if b == 0xFE {
        Err(EcTempSensorError::Error)
    } else if b == 0xFD {
        Err(EcTempSensorError::NotPowered)
    } else if b == 0xFC {
        Err(EcTempSensorError::NotCalibrated)
    } else {
        Ok(ValidEcTemp(b))
    }
}

/// `c + 73` reduced into a byte (wrapping arithmetic).
pub open spec fn celsius_to_ec_byte(c: i16) -> u8 {
    ((c + 73) % 256) as u8
}

/// Kelvin to Celsius with 16-bit wrap-around:
/// the kelvin value is reinterpreted as `i16` before subtracting 273.
pub open spec fn kelvin_to_celsius_value(k: u16) -> i16 {
    if k < 33041 {
        (k - 273) as i16
    } else {
        (k - 65809) as i16
    }
}

impl EcTempSensorError {
    /// The byte the EC uses for this error.
    pub open spec fn spec_code(self) -> u8 {
        match self {
            EcTempSensorError::NotPresent => 0xFF,
            EcTempSensorError::Error => 0xFE,
            EcTempSensorError::NotPowered => 0xFD,
            EcTempSensorError::NotCalibrated => 0xFC,
        }
    }

    /// The byte the EC uses for this error.
    pub fn code(&self) -> (r: u8)
        ensures
            r == self.spec_code(),
    {
        match self {
            EcTempSensorError::NotPresent => 0xFF,
            EcTempSensorError::Error => 0xFE,
            EcTempSensorError::NotPowered => 0xFD,
            EcTempSensorError::NotCalibrated => 0xFC,
        }
    }

    /// Human readable description of the error.
    pub open spec fn spec_description(self) -> Seq<char> {
        match self {
            EcTempSensorError::NotPresent => "Not present"@,
            EcTempSensorError::Error => "Error"@,
            EcTempSensorError::NotPowered => "Not powered"@,
            EcTempSensorError::NotCalibrated => "Not calibrated"@,
        }
    }

    /// Human readable description of the error.
    pub fn description(&self) -> (s: &'static str)
        ensures
            s@ == self.spec_description(),
    {
        match self {
            EcTempSensorError::NotPresent => "Not present",
            EcTempSensorError::Error => "Error",
            EcTempSensorError::NotPowered => "Not powered",
            EcTempSensorError::NotCalibrated => "Not calibrated",
        }
    }
}

impl ValidEcTemp {
    /// Converts to degrees Celsius.
    pub fn to_celsius(self) -> (c: CelsiusTemp)
        ensures
            c.0 == self.0 - 73,
    {
        CelsiusTemp((self.0 as i16) - 73)
    }

    /// Converts from degrees Celsius (`celsius + 73`, reduced into a byte).
    pub fn from_celsius(celsius: CelsiusTemp) -> (t: ValidEcTemp)
        ensures
            t.0 == celsius_to_ec_byte(celsius.0),
    {
        let raw: i32 = celsius.0 as i32 + 73;
        let wrapped: i32 = ((raw % 256) + 256) % 256;
        ValidEcTemp(wrapped as u8)
    }

    /// Converts to kelvin.
    pub fn to_kelvin(self) -> (k: KelvinTemp)
        ensures
            k.0 == self.0 + 200,
    {
        KelvinTemp(self.0 as u16 + EC_TEMP_SENSOR_OFFSET)
    }
}

impl UnvalidatedEcTemp {
    /// Classifies the raw byte: a temperature, or the error code it holds.
    pub fn get(self) -> (r: Result<ValidEcTemp, EcTempSensorError>)
        ensures
            r == decode_ec_byte(self.0),
    {
        if self.0 == 0xFF {
            Err(EcTempSensorError::NotPresent)
        } else if self.0 == 0xFE {
            Err(EcTempSensorError::Error)
        } else if self.0 == 0xFD {
            Err(EcTempSensorError::NotPowered)
        } else if self.0 == 0xFC {
            Err(EcTempSensorError::NotCalibrated)
        } else {
            Ok(ValidEcTemp(self.0))
        }
    }

    /// Same as [`UnvalidatedEcTemp::get`].
    pub fn validate(self) -> (r: Result<ValidEcTemp, EcTempSensorError>)
        ensures
            r == decode_ec_byte(self.0),
    {
        self.get()
    }

    /// Converts to degrees Celsius, or reports the error code.
    pub fn to_celsius(self) -> (r: Result<CelsiusTemp, EcTempSensorError>)
        ensures
            match decode_ec_byte(self.0) {
                Ok(v) => r == Ok::<CelsiusTemp, EcTempSensorError>(CelsiusTemp((v.0 - 73) as i16)),
                Err(e) => r == Err::<CelsiusTemp, EcTempSensorError>(e),
            },
    {
        match self.get() {
            Ok(v) => Ok(v.to_celsius()),
            Err(e) => Err(e),
        }
    }

    /// Encodes a Celsius temperature; fails when `celsius + 73` is not a byte.
    pub fn try_from_celsius(celsius: CelsiusTemp) -> (r: Result<UnvalidatedEcTemp, &'static str>)
        ensures
            0 <= celsius.0 + 73 <= 255 ==> r == Ok::<UnvalidatedEcTemp, &'static str>(
                UnvalidatedEcTemp((celsius.0 + 73) as u8),
            ),
            !(0 <= celsius.0 + 73 <= 255) ==> r == Err::<UnvalidatedEcTemp, &'static str>(
                "CelsiusTemp out of range for EcTemp",
            ),
    {
        let raw: i32 = celsius.0 as i32 + 73;
        if 0 <= raw && raw <= 255 {
            Ok(UnvalidatedEcTemp(raw as u8))
        } else {
            Err("CelsiusTemp out of range for EcTemp")
        }
    }
}

/// The conversions agree: an EC temperature taken to Celsius through kelvin
/// gives the same value as taken directly, and converting that Celsius value
/// back gives the EC temperature again.
pub proof fn lemma_conversions_agree(t: ValidEcTemp)
    ensures
        kelvin_to_celsius_value((t.0 + 200) as u16) == t.0 - 73,
        celsius_to_ec_byte((t.0 - 73) as i16) == t.0,
{
}

/// A Celsius temperature whose encoding is a valid EC byte decodes back to
/// the same Celsius value.
pub proof fn lemma_celsius_encoding_round_trip(c: i16)
    requires
        0 <= c + 73 < 0xFC,
    ensures
        decode_ec_byte((c + 73) as u8) == Ok::<ValidEcTemp, EcTempSensorError>(ValidEcTemp((c + 73) as u8)),
        ((c + 73) as u8) - 73 == c,
{
}

impl KelvinTemp {
    /// Converts to degrees Celsius (with 16-bit wrap-around).
    pub fn to_celsius(self) -> (c: CelsiusTemp)
        ensures
            c.0 == kelvin_to_celsius_value(self.0),
    {
        if self.0 < 33041 {
            CelsiusTemp((self.0 as i32 - 273) as i16)
        } else {
            CelsiusTemp((self.0 as i32 - 65809) as i16)
        }
    }
}

impl Default for ValidEcTemp {
    fn default() -> (r: Self)
        ensures
            r == ValidEcTemp(96),
    {
        // room temperature, 296K
        ValidEcTemp(96)
    }
}

impl Default for UnvalidatedEcTemp {
    fn default() -> (r: Self)
        ensures
            r == UnvalidatedEcTemp(0),
    {
        UnvalidatedEcTemp(0)
    }
}

impl Default for KelvinTemp {
    fn default() -> (r: Self)
        ensures
            r == KelvinTemp(200),
    {
        KelvinTemp(EC_TEMP_SENSOR_OFFSET)
    }
}

impl Default for CelsiusTemp {
    fn default() -> (r: Self)
        ensures
            r == CelsiusTemp(-73i16),
    {
        KelvinTemp(EC_TEMP_SENSOR_OFFSET).to_celsius()
    }
}

impl From<CelsiusTemp> for ValidEcTemp {
    fn from(celsius: CelsiusTemp) -> (t: ValidEcTemp) {
        ValidEcTemp::from_celsius(celsius)
    }
}

impl vstd::std_specs::convert::FromSpecImpl<CelsiusTemp> for ValidEcTemp {
    open spec fn obeys_from_spec() -> bool {
        true
    }

    open spec fn from_spec(celsius: CelsiusTemp) -> ValidEcTemp {
        ValidEcTemp(celsius_to_ec_byte(celsius.0))
    }
}

impl From<ValidEcTemp> for KelvinTemp {
    fn from(t: ValidEcTemp) -> (k: KelvinTemp) {
        t.to_kelvin()
    }
}

impl vstd::std_specs::convert::FromSpecImpl<ValidEcTemp> for KelvinTemp {
    open spec fn obeys_from_spec() -> bool {
        true
    }

    open spec fn from_spec(t: ValidEcTemp) -> KelvinTemp {
        KelvinTemp((t.0 + 200) as u16)
    }
}

impl From<KelvinTemp> for CelsiusTemp {
    fn from(k: KelvinTemp) -> (c: CelsiusTemp) {
        k.to_celsius()
    }
}

impl vstd::std_specs::convert::FromSpecImpl<KelvinTemp> for CelsiusTemp {
    open spec fn obeys_from_spec() -> bool {
        true
    }

    open spec fn from_spec(k: KelvinTemp) -> CelsiusTemp {
        CelsiusTemp(kelvin_to_celsius_value(k.0))
    }
}

impl From<ValidEcTemp> for CelsiusTemp {
    fn from(t: ValidEcTemp) -> (c: CelsiusTemp) {
        t.to_celsius()
    }
}

impl vstd::std_specs::convert::FromSpecImpl<ValidEcTemp> for CelsiusTemp {
    open spec fn obeys_from_spec() -> bool {
        true
    }

    open spec fn from_spec(t: ValidEcTemp) -> CelsiusTemp {
        CelsiusTemp((t.0 - 73) as i16)
    }
}

impl From<UnvalidatedEcTemp> for Result<ValidEcTemp, EcTempSensorError> {
    fn from(t: UnvalidatedEcTemp) -> (r: Result<ValidEcTemp, EcTempSensorError>) {
        t.get()
    }
}

impl vstd::std_specs::convert::FromSpecImpl<UnvalidatedEcTemp> for Result<ValidEcTemp, EcTempSensorError> {
    open spec fn obeys_from_spec() -> bool {
        true
    }

    open spec fn from_spec(t: UnvalidatedEcTemp) -> Result<ValidEcTemp, EcTempSensorError> {
        decode_ec_byte(t.0)
    }
}

impl TryFrom<CelsiusTemp> for UnvalidatedEcTemp {
    type Error = &'static str;

    fn try_from(celsius: CelsiusTemp) -> (r: Result<UnvalidatedEcTemp, &'static str>) {
        UnvalidatedEcTemp::try_from_celsius(celsius)
    }
}

impl vstd::std_specs::convert::TryFromSpecImpl<CelsiusTemp> for UnvalidatedEcTemp {
    open spec fn obeys_try_from_spec() -> bool {
        true
    }

    open spec fn try_from_spec(celsius: CelsiusTemp) -> Result<UnvalidatedEcTemp, &'static str> {
        if 0 <= celsius.0 + 73 <= 255 {
            Ok(UnvalidatedEcTemp((celsius.0 + 73) as u8))
        } else {
            Err("CelsiusTemp out of range for EcTemp")
        }
    }
}

/// Highest raw byte among all sensor slots (the slots the EC did not fill
/// read as zero).
pub open spec fn seq_max(s: Seq<u8>) -> u8
    decreases s.len(),
{
    if s.len() == 0 {
        0
    } else {
        let m = seq_max(s.drop_last());
        if s.last() > m { s.last() } else { m }
    }
}

proof fn lemma_seq_max_bounds(s: Seq<u8>)
    ensures
        forall|i: int| 0 <= i < s.len() ==> s[i] <= seq_max(s),
        s.len() > 0 ==> exists|i: int| 0 <= i < s.len() && s[i] == seq_max(s),
    decreases s.len(),
{
    if s.len() > 0 {
        lemma_seq_max_bounds(s.drop_last());
        let m = seq_max(s.drop_last());
        assert forall|i: int| 0 <= i < s.len() implies s[i] <= seq_max(s) by {
            if i < s.len() - 1 {
                assert(s[i] == s.drop_last()[i]);
            }
        }
        if s.last() <= m && s.len() > 1 {
            let j = choose|j: int| 0 <= j < s.drop_last().len() && s.drop_last()[j] == m;
            assert(s[j] == seq_max(s));
        } else if s.last() <= m {
            assert(s[0] == seq_max(s));
        } else {
            assert(s[s.len() - 1] == seq_max(s));
        }
    }
}

/// The hottest reading across all sensor slots, taken as a temperature.
pub fn max_temp(readings: &[u8]) -> (t: ValidEcTemp)
    ensures
        t.0 == seq_max(readings@),
        forall|i: int| 0 <= i < readings@.len() ==> readings@[i] <= t.0,
        readings@.len() > 0 ==> exists|i: int| 0 <= i < readings@.len() && readings@[i] == t.0,
{
    let mut m: u8 = 0;
    let mut i: usize = 0;
    while i < readings.len()
        invariant
            i <= readings@.len(),
            m == seq_max(readings@.take(i as int)),
        decreases readings@.len() - i,
    {
        assert(readings@.take(i as int + 1).drop_last() == readings@.take(i as int));
        if readings[i] > m {
            m = readings[i];
        }
        i = i + 1;
    }
    assert(readings@.take(i as int) == readings@);
    proof {
        lemma_seq_max_bounds(readings@);
    }
    ValidEcTemp(m)
}

/// The readings of the first `num_sensors` slots, as raw EC bytes.
pub fn temperatures_from_readings(readings: &[u8], num_sensors: u8) -> (temps: Vec<UnvalidatedEcTemp>)
    requires
        num_sensors <= readings@.len(),
    ensures
        temps@.len() == num_sensors,
        forall|i: int| 0 <= i < num_sensors ==> temps@[i] == UnvalidatedEcTemp(readings@[i]),
{
    let mut temps: Vec<UnvalidatedEcTemp> = Vec::new();
    let mut i: usize = 0;
    while i < num_sensors as usize
        invariant
            num_sensors <= readings@.len(),
            i <= num_sensors,
            temps@.len() == i,
            forall|j: int| 0 <= j < i ==> temps@[j] == UnvalidatedEcTemp(readings@[j]),
        decreases num_sensors - i,
    {
        temps.push(UnvalidatedEcTemp(readings[i]));
        i = i + 1;
    }
    temps
}

/// Index of the hottest raw reading; among equal readings the last one wins.
pub fn hottest_sensor_index(temps: &[UnvalidatedEcTemp]) -> (idx: usize)
    requires
        temps@.len() > 0,
    ensures
        idx < temps@.len(),
        forall|j: int| 0 <= j < temps@.len() ==> temps@[j].0 <= temps@[idx as int].0,
        forall|j: int| idx < j < temps@.len() ==> temps@[j].0 < temps@[idx as int].0,
{
    let mut best: usize = 0;
    let mut i: usize = 1;
    while i < temps.len()
        invariant
            1 <= i <= temps@.len(),
            best < i,
            forall|j: int| 0 <= j < i ==> temps@[j].0 <= temps@[best as int].0,
            forall|j: int| best < j < i ==> temps@[j].0 < temps@[best as int].0,
        decreases temps@.len() - i,
    {
        if temps[i].0 >= temps[best].0 {
            best = i;
        }
        i = i + 1;
    }
    best
}

/// Length of the NUL-terminated string held in `bytes` (all of them when
/// there is no NUL).
pub fn c_str_len(bytes: &[u8]) -> (n: usize)
    ensures
        n <= bytes@.len(),
        forall|j: int| 0 <= j < n ==> bytes@[j] != 0,
        n < bytes@.len() ==> bytes@[n as int] == 0,
{
    let mut n: usize = 0;
    while n < bytes.len() && bytes[n] != 0
        invariant
            n <= bytes@.len(),
            forall|j: int| 0 <= j < n ==> bytes@[j] != 0,
        decreases bytes@.len() - n,
    {
        n = n + 1;
    }
    n
}

/// Name of an EC temperature sensor type code.
pub fn sensor_type_name(sensor_type: u8) -> (s: &'static str)
    ensures
        s@ == (if sensor_type == 255 {
            "TEMP_SENSOR_TYPE_IGNORED"@
        } else if sensor_type == 0 {
            "TEMP_SENSOR_TYPE_CPU"@
        } else if sensor_type == 1 {
            "TEMP_SENSOR_TYPE_BOARD"@
        } else if sensor_type == 2 {
            "TEMP_SENSOR_TYPE_CASE"@
        } else if sensor_type == 3 {
            "TEMP_SENSOR_TYPE_BATTERY"@
        } else if sensor_type == 4 {
            "TEMP_SENSOR_TYPE_COUNT"@
        } else {
            "ERROR: BAD SENSOR TYPE"@
        }),
{
    match sensor_type {
        255 => "TEMP_SENSOR_TYPE_IGNORED",
        0 => "TEMP_SENSOR_TYPE_CPU",
        1 => "TEMP_SENSOR_TYPE_BOARD",
        2 => "TEMP_SENSOR_TYPE_CASE",
        3 => "TEMP_SENSOR_TYPE_BATTERY",
        4 => "TEMP_SENSOR_TYPE_COUNT",
        _ => "ERROR: BAD SENSOR TYPE",
    }
}

} // verus!

use std::convert::Into;
use fw_fanctrl_rs::temp::{
    c_str_len, hottest_sensor_index, max_temp, sensor_type_name, temperatures_from_readings,
    CelsiusTemp, EcTempSensorError, KelvinTemp, UnvalidatedEcTemp, ValidEcTemp,
    EC_TEMP_SENSOR_OFFSET,
};

#[test]
fn test_ec_temp_to_kelvin() {
    let valid_cases = [0, 50, 100, 0xFB];
    for case in valid_cases {
        let res: Result<ValidEcTemp, EcTempSensorError> = UnvalidatedEcTemp(case).into();
        assert!(res.is_ok());
        let res: KelvinTemp = res.unwrap().into();

        assert_eq!(res.0, u16::from(case) + EC_TEMP_SENSOR_OFFSET);
    }

    assert_eq!(
        Into::<Result<ValidEcTemp, EcTempSensorError>>::into(UnvalidatedEcTemp(0xFF)),
        Err(EcTempSensorError::NotPresent)
    );
    assert_eq!(
        Into::<Result<ValidEcTemp, EcTempSensorError>>::into(UnvalidatedEcTemp(0xFE)),
        Err(EcTempSensorError::Error)
    );
    assert_eq!(
        Into::<Result<ValidEcTemp, EcTempSensorError>>::into(UnvalidatedEcTemp(0xFD)),
        Err(EcTempSensorError::NotPowered)
    );
    assert_eq!(
        Into::<Result<ValidEcTemp, EcTempSensorError>>::into(UnvalidatedEcTemp(0xFC)),
        Err(EcTempSensorError::NotCalibrated)
    );
}

#[test]
fn test_kelvin_to_celsius() {
    let test_cases = [(273, 0), (300, 27), (200, -73), (0, -273)];

    for (kelvin, expected_celsius) in test_cases {
        let celsius: CelsiusTemp = KelvinTemp(kelvin).into();
        assert_eq!(celsius.0, expected_celsius);
    }
}

#[test]
fn valid_temp_round_trips_through_celsius() {
    for raw in 0u8..=0xFB {
        let t = ValidEcTemp(raw);
        let c = t.to_celsius();
        assert_eq!(c.0, i16::from(raw) - 73);
        assert_eq!(ValidEcTemp::from_celsius(c), t);
        let back: ValidEcTemp = c.into();
        assert_eq!(back, t);
        let k: KelvinTemp = t.into();
        let via_kelvin: CelsiusTemp = k.into();
        assert_eq!(via_kelvin, c);
    }
}

#[test]
fn celsius_to_ec_wraps_into_a_byte() {
    assert_eq!(ValidEcTemp::from_celsius(CelsiusTemp(-73)).0, 0);
    assert_eq!(ValidEcTemp::from_celsius(CelsiusTemp(182)).0, 255);
    assert_eq!(ValidEcTemp::from_celsius(CelsiusTemp(183)).0, 0);
    assert_eq!(ValidEcTemp::from_celsius(CelsiusTemp(-74)).0, 255);
}

#[test]
fn unvalidated_to_celsius_and_errors() {
    assert_eq!(UnvalidatedEcTemp(100).to_celsius().unwrap().0, 27);
    assert_eq!(UnvalidatedEcTemp(0xFC).to_celsius().unwrap_err(), EcTempSensorError::NotCalibrated);
    assert_eq!(UnvalidatedEcTemp(0xFB).validate(), Ok(ValidEcTemp(0xFB)));
    assert_eq!(EcTempSensorError::NotPresent.code(), 0xFF);
    assert_eq!(EcTempSensorError::NotPowered.description(), "Not powered");
}

#[test]
fn try_from_celsius_checks_byte_range() {
    assert_eq!(UnvalidatedEcTemp::try_from(CelsiusTemp(-73)).unwrap().0, 0);
    assert_eq!(UnvalidatedEcTemp::try_from(CelsiusTemp(182)).unwrap().0, 255);
    assert_eq!(
        UnvalidatedEcTemp::try_from(CelsiusTemp(183)).unwrap_err(),
        "CelsiusTemp out of range for EcTemp"
    );
    assert!(UnvalidatedEcTemp::try_from(CelsiusTemp(-74)).is_err());
    assert!(UnvalidatedEcTemp::try_from(CelsiusTemp(i16::MAX)).is_err());
}

#[test]
fn kelvin_wraps_for_huge_values() {
    let c: CelsiusTemp = KelvinTemp(33040).into();
    assert_eq!(c.0, 32767);
    let c: CelsiusTemp = KelvinTemp(33041).into();
    assert_eq!(c.0, -32768);
    let c: CelsiusTemp = KelvinTemp(65535).into();
    assert_eq!(c.0, (65535i32 - 65809) as i16);
}

#[test]
fn defaults() {
    assert_eq!(ValidEcTemp::default(), ValidEcTemp(96));
    assert_eq!(UnvalidatedEcTemp::default(), UnvalidatedEcTemp(0));
    assert_eq!(KelvinTemp::default(), KelvinTemp(200));
    assert_eq!(CelsiusTemp::default(), CelsiusTemp(-73));
}

#[test]
fn max_temp_takes_every_slot() {
    let readings = [10u8, 80, 3, 0, 0, 0, 0, 0, 0, 0, 0, 0, 0, 0, 0, 0];
    assert_eq!(max_temp(&readings), ValidEcTemp(80));
    assert_eq!(max_temp(&[]), ValidEcTemp(0));
    // error codes are bytes like any other here
    assert_eq!(max_temp(&[90, 0xFF, 10]), ValidEcTemp(0xFF));
}

#[test]
fn temperatures_from_readings_takes_prefix() {
    let readings = [1u8, 2, 3, 4];
    let temps = temperatures_from_readings(&readings, 3);
    assert_eq!(temps, vec![UnvalidatedEcTemp(1), UnvalidatedEcTemp(2), UnvalidatedEcTemp(3)]);
    assert!(temperatures_from_readings(&readings, 0).is_empty());
}

#[test]
fn hottest_sensor_prefers_last_of_equals() {
    let temps = [UnvalidatedEcTemp(5), UnvalidatedEcTemp(9), UnvalidatedEcTemp(9), UnvalidatedEcTemp(1)];
    assert_eq!(hottest_sensor_index(&temps), 2);
    assert_eq!(hottest_sensor_index(&[UnvalidatedEcTemp(3)]), 0);
}

#[test]
fn sensor_names() {
    assert_eq!(sensor_type_name(0), "TEMP_SENSOR_TYPE_CPU");
    assert_eq!(sensor_type_name(255), "TEMP_SENSOR_TYPE_IGNORED");
    assert_eq!(sensor_type_name(9), "ERROR: BAD SENSOR TYPE");
    assert_eq!(c_str_len(b"cpu\0junk"), 3);
    assert_eq!(c_str_len(b"full"), 4);
}

#[test]
fn celsius_encoding_round_trips() {
    for c in -73i16..=178 {
        let raw = UnvalidatedEcTemp::try_from(CelsiusTemp(c)).unwrap();
        assert_eq!(raw.to_celsius().unwrap().0, c);
    }
    assert!(UnvalidatedEcTemp::try_from(CelsiusTemp(179)).unwrap().to_celsius().is_err());
}

use fw_fanctrl_rs::plugins::{
    validate_decision, Decision, DecisionValue, PluginError, PluginGetStatus, PluginState,
};
use fw_fanctrl_rs::temp::{EcTempSensorError, UnvalidatedEcTemp, ValidEcTemp};

#[test]
fn decisions_are_checked() {
    let d = Decision { value: DecisionValue::SetSpeed(100), run_again_in: 5 };
    assert_eq!(
        validate_decision(d),
        Ok(Decision { value: DecisionValue::SetSpeed(100), run_again_in: 5 })
    );
    let d = Decision { value: DecisionValue::SetSpeed(101), run_again_in: 0 };
    assert_eq!(validate_decision(d), Err(PluginError::SpeedAbove100));
    let d = Decision { value: DecisionValue::GetSpeedFromCurve(UnvalidatedEcTemp(50)), run_again_in: 0 };
    assert_eq!(
        validate_decision(d),
        Ok(Decision { value: DecisionValue::GetSpeedFromCurve(ValidEcTemp(50)), run_again_in: 0 })
    );
    let d = Decision { value: DecisionValue::GetSpeedFromCurve(UnvalidatedEcTemp(0xFE)), run_again_in: 0 };
    assert_eq!(
        validate_decision(d),
        Err(PluginError::InvalidTemperature(EcTempSensorError::Error))
    );
}

#[test]
fn state_get_after_set() {
    let mut state = PluginState::new();
    assert_eq!(state.get(b"call_count", true, 8).status, PluginGetStatus::NotFound);
    assert!(state.set(b"call_count", &1u64.to_le_bytes()));
    let r = state.get(b"call_count", true, 8);
    assert_eq!(r.status, PluginGetStatus::Success);
    assert_eq!(r.required_len, Some(8));
    assert_eq!(r.data.unwrap(), 1u64.to_le_bytes().to_vec());
    // overwrite
    assert!(state.set(b"call_count", &[7]));
    let r = state.get(b"call_count", true, 8);
    assert_eq!(r.data.unwrap(), vec![7]);
    // other keys untouched
    assert!(state.set(b"other", &[1, 2, 3]));
    assert_eq!(state.get(b"call_count", true, 1).data.unwrap(), vec![7]);
    assert_eq!(state.summary().len(), 2);
}

#[test]
fn state_buffer_too_small() {
    let mut state = PluginState::new();
    state.set(b"k", &[1, 2, 3]);
    let r = state.get(b"k", true, 2);
    assert_eq!(r.status, PluginGetStatus::BufferTooSmall);
    assert_eq!(r.required_len, Some(3));
    assert!(r.data.is_none());
    let r = state.get(b"k", false, 100);
    assert_eq!(r.status, PluginGetStatus::BufferTooSmall);
    assert_eq!(r.required_len, Some(3));
    let r = state.get(b"", true, 100);
    assert_eq!(r.status, PluginGetStatus::NotFound);
    assert_eq!(r.required_len, None);
}

#[test]
fn state_empty_value() {
    let mut state = PluginState::new();
    state.set(b"e", &[]);
    let r = state.get(b"e", false, 0);
    assert_eq!(r.status, PluginGetStatus::BufferTooSmall);
    let r = state.get(b"e", true, 0);
    assert_eq!(r.status, PluginGetStatus::Success);
    assert_eq!(r.data.unwrap(), Vec::<u8>::new());
}

#[test]
fn plugin_error_messages() {
    assert_eq!(PluginError::SpeedAbove100.message(), "Plugin set speed above 100%");
    assert_eq!(
        PluginError::InvalidTemperature(EcTempSensorError::NotPresent).message(),
        "Plugin get speed from curve with invalid temperature: Not present"
    );
    assert_eq!(PluginError::CallFailed.message(), "Plugin could not be called");
}

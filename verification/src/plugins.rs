//! Plugin decisions and the plugins' persistent key-value state.
//!
//! A plugin answers every poll with a decision: set the fan speed directly,
//! or look the speed up on the active curve at a temperature of its choice,
//! and optionally when to be asked again.  Plugins can keep byte strings
//! under C-string keys between calls.

use vstd::prelude::*;

use crate::temp::{decode_ec_byte, EcTempSensorError, UnvalidatedEcTemp, ValidEcTemp};
use crate::text::{push_str, string_from_chars};

verus! {

/// Outcome of a plugin's state lookup.
#[derive(Debug, Clone, Copy, PartialEq, Eq, Structural)]
pub enum PluginGetStatus {
    /// The buffer was large enough and the data was copied.
    Success,
    /// The key does not exist or the arguments were null.
    NotFound,
    /// The key exists, but the buffer was null or too small; the required
    /// size was reported.
    BufferTooSmall,
    /// Some other error occurred.
    SomeOtherError,
}

/// What a plugin decided.
#[derive(Debug, Clone, Copy, PartialEq, Eq, Structural)]
pub enum DecisionValue<T> {
    /// Set the fan speed directly to the given percentage.
    SetSpeed(u8),
    /// Use the active curve's speed at the given temperature.
    GetSpeedFromCurve(T),
}

/// A plugin decision and when to ask the plugin again, in milliseconds
/// (0: after the configured poll interval).
#[derive(Debug, Clone, Copy, PartialEq, Eq, Structural)]
pub struct Decision<T> {
    pub value: DecisionValue<T>,
    pub run_again_in: u16,
}

/// Why a plugin decision was rejected.
#[derive(Debug, Clone, Copy, PartialEq, Eq, Structural)]
pub enum PluginError {
    /// The plugin asked for a speed above 100 %.
    SpeedAbove100,
    /// The plugin asked for the curve speed at an EC error code.
    InvalidTemperature(EcTempSensorError),
    /// The plugin could not be consulted: gathering what it is handed failed.
    CallFailed,
}

/// The text a rejected decision is reported with.
pub open spec fn plugin_error_message(e: PluginError) -> Seq<char> {
    match e {
        PluginError::SpeedAbove100 => "Plugin set speed above 100%"@,
        PluginError::InvalidTemperature(t) => "Plugin get speed from curve with invalid temperature: "@
            + t.spec_description(),
        PluginError::CallFailed => "Plugin could not be called"@,
    }
}

impl PluginError {
    /// The error as the text shown to the user.
    pub fn message(&self) -> (text: String)
        ensures
            text@ == plugin_error_message(*self),
    {
        let mut out: Vec<char> = Vec::new();
        match self {
            PluginError::SpeedAbove100 => push_str(&mut out, "Plugin set speed above 100%"),
            PluginError::InvalidTemperature(t) => {
                push_str(&mut out, "Plugin get speed from curve with invalid temperature: ");
                push_str(&mut out, t.description());
            },
            PluginError::CallFailed => push_str(&mut out, "Plugin could not be called"),
        }
        string_from_chars(out.as_slice())
    }
}

/// The verdict on a raw plugin decision.
pub open spec fn validate_decision_spec(d: Decision<UnvalidatedEcTemp>) -> Result<
    Decision<ValidEcTemp>,
    PluginError,
> {
    match d.value {
        DecisionValue::SetSpeed(speed) => if speed > 100 {
            Err(PluginError::SpeedAbove100)
        } else {
            Ok(Decision { value: DecisionValue::SetSpeed(speed), run_again_in: d.run_again_in })
        },
        DecisionValue::GetSpeedFromCurve(t) => match decode_ec_byte(t.0) {
            Ok(v) => Ok(Decision { value: DecisionValue::GetSpeedFromCurve(v), run_again_in: d.run_again_in }),
            Err(e) => Err(PluginError::InvalidTemperature(e)),
        },
    }
}

/// What a checked decision is, in terms of the raw one: a speed of at most
/// 100 and a curve temperature below the EC error codes pass unchanged (the
/// temperature now known valid), with the same re-poll time; a speed above
/// 100 is refused as such, and a curve temperature that is an error code is
/// refused with that code.
pub open spec fn decision_checked(d: Decision<UnvalidatedEcTemp>, r: Result<Decision<ValidEcTemp>, PluginError>) -> bool {
    &&& r matches Ok(d2) ==> d2.run_again_in == d.run_again_in
    &&& d.value matches DecisionValue::SetSpeed(s) ==> if s <= 100 {
        r == Ok::<Decision<ValidEcTemp>, PluginError>(
            Decision { value: DecisionValue::SetSpeed(s), run_again_in: d.run_again_in },
        )
    } else {
        r == Err::<Decision<ValidEcTemp>, PluginError>(PluginError::SpeedAbove100)
    }
    &&& d.value matches DecisionValue::GetSpeedFromCurve(t) ==> if t.0 < 0xFC {
        r == Ok::<Decision<ValidEcTemp>, PluginError>(
            Decision { value: DecisionValue::GetSpeedFromCurve(ValidEcTemp(t.0)), run_again_in: d.run_again_in },
        )
    } else {
        r matches Err(PluginError::InvalidTemperature(e)) && e.spec_code() == t.0
    }
}

/// A decision keeps its re-poll time through the check, and is refused
/// exactly when its speed is above 100 or its curve temperature is an EC
/// error code.
pub proof fn lemma_validate_decision(d: Decision<UnvalidatedEcTemp>)
    ensures
        decision_checked(d, validate_decision_spec(d)),
{
}

/// Checks a raw plugin decision: speeds must be at most 100 and curve
/// temperatures must not be EC error codes.
pub fn validate_decision(d: Decision<UnvalidatedEcTemp>) -> (r: Result<Decision<ValidEcTemp>, PluginError>)
    ensures
        r == validate_decision_spec(d),
        decision_checked(d, r),
{
    match d.value {
        DecisionValue::SetSpeed(speed) => {
            if speed > 100 {
                Err(PluginError::SpeedAbove100)
            } else {
                Ok(Decision { value: DecisionValue::SetSpeed(speed), run_again_in: d.run_again_in })
            }
        },
        DecisionValue::GetSpeedFromCurve(t) => match t.validate() {
            Ok(v) => Ok(Decision { value: DecisionValue::GetSpeedFromCurve(v), run_again_in: d.run_again_in }),
            Err(e) => Err(PluginError::InvalidTemperature(e)),
        },
    }
}

/// The value stored under `key`: the first matching entry.
pub open spec fn lookup(entries: Seq<(Seq<u8>, Seq<u8>)>, key: Seq<u8>) -> Option<Seq<u8>>
    decreases entries.len(),
{
    if entries.len() == 0 {
        None
    } else if entries[0].0 == key {
        Some(entries[0].1)
    } else {
        lookup(entries.drop_first(), key)
    }
}

/// What a lookup of `key` reports on storage `m`, for a caller whose buffer
/// holds `capacity` bytes: status, the length reported back, the bytes copied.
pub open spec fn get_spec(m: Map<Seq<u8>, Seq<u8>>, key: Seq<u8>, has_buffer: bool, capacity: usize) -> (
    PluginGetStatus,
    Option<usize>,
    Option<Seq<u8>>,
) {
    if !m.contains_key(key) {
        (PluginGetStatus::NotFound, None, None)
    } else if !has_buffer || capacity < m[key].len() {
        (PluginGetStatus::BufferTooSmall, Some(m[key].len() as usize), None)
    } else {
        (PluginGetStatus::Success, Some(m[key].len() as usize), Some(m[key]))
    }
}

/// Key-value storage that plugins keep between calls.
pub struct PluginState {
    entries: Vec<(Vec<u8>, Vec<u8>)>,
}

/// The result of a state lookup: its status, the length reported back when
/// the key exists, and the copied bytes on success.
#[derive(Debug, Clone, PartialEq, Eq)]
pub struct PluginGetResult {
    pub status: PluginGetStatus,
    pub required_len: Option<usize>,
    pub data: Option<Vec<u8>>,
}

fn copy_bytes(s: &[u8]) -> (v: Vec<u8>)
    ensures
        v@ == s@,
{
    let mut v: Vec<u8> = Vec::new();
    let mut i: usize = 0;
    while i < s.len()
        invariant
            i <= s@.len(),
            v@ == s@.subrange(0, i as int),
        decreases s@.len() - i,
    {
        v.push(s[i]);
        i = i + 1;
        assert(v@ =~= s@.subrange(0, i as int));
    }
    assert(s@.subrange(0, s@.len() as int) =~= s@);
    v
}

fn bytes_eq(a: &[u8], b: &[u8]) -> (r: bool)
    ensures
        r == (a@ == b@),
{
    if a.len() != b.len() {
        return false;
    }
    let mut i: usize = 0;
    while i < a.len()
        invariant
            a@.len() == b@.len(),
            i <= a@.len(),
            forall|j: int| 0 <= j < i ==> a@[j] == b@[j],
        decreases a@.len() - i,
    {
        if a[i] != b[i] {
            return false;
        }
        i = i + 1;
    }
    assert(a@ =~= b@);
    true
}

/// No key is stored twice.
pub open spec fn keys_distinct(entries: Seq<(Seq<u8>, Seq<u8>)>) -> bool {
    forall|i: int, j: int| 0 <= i < j < entries.len() ==> #[trigger] entries[i].0 != #[trigger] entries[j].0
}

impl PluginState {
    pub closed spec fn entries_view(self) -> Seq<(Seq<u8>, Seq<u8>)> {
        self.entries@.map_values(|e: (Vec<u8>, Vec<u8>)| (e.0@, e.1@))
    }

    #[verifier::type_invariant]
    spec fn well_formed(self) -> bool {
        keys_distinct(self.entries_view())
    }

    /// The stored values by key.
    pub closed spec fn view(self) -> Map<Seq<u8>, Seq<u8>> {
        Map::new(
            |k: Seq<u8>| lookup(self.entries_view(), k) is Some,
            |k: Seq<u8>| lookup(self.entries_view(), k)->0,
        )
    }

    /// Empty storage.
    pub fn new() -> (s: PluginState)
        ensures
            s@ == Map::<Seq<u8>, Seq<u8>>::empty(),
    {
        let s = PluginState { entries: Vec::new() };
        assert(s@ =~= Map::<Seq<u8>, Seq<u8>>::empty());
        s
    }

    /// Index of the first entry with the key, or the number of entries.
    fn find_entry(&self, key: &[u8]) -> (i: usize)
        ensures
            i <= self.entries@.len(),
            i < self.entries@.len() ==> self.entries@[i as int].0@ == key@,
            forall|j: int| 0 <= j < i ==> #[trigger] self.entries@[j].0@ != key@,
    {
        let mut i: usize = 0;
        while i < self.entries.len()
            invariant
                i <= self.entries@.len(),
                forall|j: int| 0 <= j < i ==> #[trigger] self.entries@[j].0@ != key@,
            decreases self.entries@.len() - i,
        {
            if bytes_eq(self.entries[i].0.as_slice(), key) {
                return i;
            }
            i = i + 1;
        }
        i
    }

    /// Stores `data` under `key`, replacing what was there.
    pub fn set(&mut self, key: &[u8], data: &[u8]) -> (ok: bool)
        ensures
            ok,
            final(self)@ == old(self)@.insert(key@, data@),
    {
        proof {
            use_type_invariant(&*self);
        }
        let i: usize = self.find_entry(key);
        let ghost old_entries = self.entries_view();
        proof {
            lemma_lookup_prefix(old_entries, key@, i as int);
            assert forall|j: int| 0 <= j < i implies #[trigger] old_entries[j].0 != key@ by {
                assert(self.entries@[j].0@ != key@);
            }
        }
        let mut entries: Vec<(Vec<u8>, Vec<u8>)> = Vec::new();
        std::mem::swap(&mut entries, &mut self.entries);
        let ghost view_of = |e: (Vec<u8>, Vec<u8>)| (e.0@, e.1@);
        assert(entries@.map_values(view_of) == old_entries);
        if i < entries.len() {
            let kv: Vec<u8> = copy_bytes(key);
            entries.set(i, (kv, copy_bytes(data)));
            let ghost new_entries = entries@.map_values(view_of);
            assert(new_entries == old_entries.update(i as int, (key@, data@)));
            proof {
                lemma_lookup_update(old_entries, key@, data@, i as int);
                assert forall|a: int, b: int| 0 <= a < b < new_entries.len() implies #[trigger] new_entries[a].0
                    != #[trigger] new_entries[b].0 by {
                    assert(new_entries[a].0 == old_entries[a].0);
                    assert(new_entries[b].0 == old_entries[b].0);
                }
            }
        } else {
            let kv: Vec<u8> = copy_bytes(key);
            entries.push((kv, copy_bytes(data)));
            let ghost new_entries = entries@.map_values(view_of);
            assert(new_entries == old_entries.push((key@, data@)));
            proof {
                lemma_lookup_push(old_entries, key@, data@);
                assert forall|a: int, b: int| 0 <= a < b < new_entries.len() implies #[trigger] new_entries[a].0
                    != #[trigger] new_entries[b].0 by {
                    assert(new_entries[a].0 == old_entries[a].0);
                    if b < old_entries.len() {
                        assert(new_entries[b].0 == old_entries[b].0);
                    } else {
                        assert(old_entries[a].0 != key@);
                    }
                }
            }
        }
        self.entries = entries;
        assert(self@ =~= old(self)@.insert(key@, data@));
        true
    }

    /// Looks `key` up for a caller whose buffer holds `capacity` bytes
    /// (`has_buffer`: whether there is a buffer at all).
    pub fn get(&self, key: &[u8], has_buffer: bool, capacity: usize) -> (r: PluginGetResult)
        ensures
            (r.status, r.required_len, match r.data {
                Some(d) => Some(d@),
                None => None,
            }) == get_spec(self@, key@, has_buffer, capacity),
    {
        let i: usize = self.find_entry(key);
        proof {
            lemma_lookup_prefix(self.entries_view(), key@, i as int);
        }
        if i < self.entries.len() {
            let len: usize = self.entries[i].1.len();
            if !has_buffer || capacity < len {
                PluginGetResult { status: PluginGetStatus::BufferTooSmall, required_len: Some(len), data: None }
            } else {
                let d: Vec<u8> = copy_bytes(self.entries[i].1.as_slice());
                PluginGetResult { status: PluginGetStatus::Success, required_len: Some(len), data: Some(d) }
            }
        } else {
            PluginGetResult { status: PluginGetStatus::NotFound, required_len: None, data: None }
        }
    }

    /// The keys and value lengths, in storage order.
    pub fn summary(&self) -> (s: Vec<(Vec<u8>, usize)>)
        ensures
            forall|i: int|
                0 <= i < s@.len() ==> #[trigger] self@.contains_key(s@[i].0@) && s@[i].1 == self@[s@[i].0@].len(),
            forall|k: Seq<u8>|
                #[trigger] self@.contains_key(k) ==> exists|i: int| 0 <= i < s@.len() && #[trigger] s@[i].0@ == k,
            forall|i: int, j: int| 0 <= i < j < s@.len() ==> #[trigger] s@[i].0@ != #[trigger] s@[j].0@,
    {
        proof {
            use_type_invariant(self);
        }
        let mut s: Vec<(Vec<u8>, usize)> = Vec::new();
        let mut i: usize = 0;
        while i < self.entries.len()
            invariant
                i <= self.entries@.len(),
                s@.len() == i,
                forall|j: int|
                    0 <= j < i ==> #[trigger] s@[j].0@ == self.entries_view()[j].0 && s@[j].1
                        == self.entries_view()[j].1.len(),
            decreases self.entries@.len() - i,
        {
            let k: Vec<u8> = copy_bytes(self.entries[i].0.as_slice());
            s.push((k, self.entries[i].1.len()));
            i = i + 1;
        }
        proof {
            let ev = self.entries_view();
            assert forall|i: int| 0 <= i < s@.len() implies #[trigger] self@.contains_key(s@[i].0@) && s@[i].1
                == self@[s@[i].0@].len() by {
                lemma_lookup_distinct(ev, i);
            }
            assert forall|k: Seq<u8>| #[trigger] self@.contains_key(k) implies exists|i: int|
                0 <= i < s@.len() && #[trigger] s@[i].0@ == k by {
                lemma_lookup_found(ev, k);
                let i = choose|i: int| 0 <= i < ev.len() && ev[i].0 == k;
                assert(s@[i].0@ == k);
            }
            assert forall|i: int, j: int| 0 <= i < j < s@.len() implies #[trigger] s@[i].0@ != #[trigger] s@[j].0@ by {
                assert(ev[i].0 != ev[j].0);
            }
        }
        s
    }
}

/// With distinct keys, looking up an entry's key finds that entry.
proof fn lemma_lookup_distinct(entries: Seq<(Seq<u8>, Seq<u8>)>, i: int)
    requires
        keys_distinct(entries),
        0 <= i < entries.len(),
    ensures
        lookup(entries, entries[i].0) == Some(entries[i].1),
{
    assert forall|j: int| 0 <= j < i implies #[trigger] entries[j].0 != entries[i].0 by {
        assert(entries[j].0 != entries[i].0);
    }
    lemma_lookup_prefix(entries, entries[i].0, i);
}

/// A key that is found is held by some entry.
proof fn lemma_lookup_found(entries: Seq<(Seq<u8>, Seq<u8>)>, key: Seq<u8>)
    requires
        lookup(entries, key) is Some,
    ensures
        exists|i: int| 0 <= i < entries.len() && entries[i].0 == key,
    decreases entries.len(),
{
    if entries[0].0 != key {
        lemma_lookup_found(entries.drop_first(), key);
        let i = choose|i: int| 0 <= i < entries.drop_first().len() && entries.drop_first()[i].0 == key;
        assert(entries[i + 1].0 == key);
    }
}

/// When the first `i` keys differ from `key`, the lookup is decided from
/// position `i` on.
proof fn lemma_lookup_prefix(entries: Seq<(Seq<u8>, Seq<u8>)>, key: Seq<u8>, i: int)
    requires
        0 <= i <= entries.len(),
        forall|j: int| 0 <= j < i ==> #[trigger] entries[j].0 != key,
        i < entries.len() ==> entries[i].0 == key,
    ensures
        i < entries.len() ==> lookup(entries, key) == Some(entries[i].1),
        i == entries.len() ==> lookup(entries, key) is None,
    decreases i,
{
    if i > 0 {
        let rest = entries.drop_first();
        assert forall|j: int| 0 <= j < i - 1 implies #[trigger] rest[j].0 != key by {
            assert(rest[j] == entries[j + 1]);
        }
        assert(entries[0].0 != key);
        lemma_lookup_prefix(rest, key, i - 1);
    }
}

proof fn lemma_lookup_update(entries: Seq<(Seq<u8>, Seq<u8>)>, key: Seq<u8>, data: Seq<u8>, i: int)
    requires
        0 <= i < entries.len(),
        entries[i].0 == key,
        forall|j: int| 0 <= j < i ==> #[trigger] entries[j].0 != key,
    ensures
        forall|k: Seq<u8>|
            #[trigger] lookup(entries.update(i, (key, data)), k) == if k == key {
                Some(data)
            } else {
                lookup(entries, k)
            },
    decreases i,
{
    assert forall|k: Seq<u8>| #[trigger] lookup(entries.update(i, (key, data)), k) == if k == key {
        Some(data)
    } else {
        lookup(entries, k)
    } by {
        lemma_lookup_update_one(entries, key, data, i, k);
    }
}

proof fn lemma_lookup_update_one(
    entries: Seq<(Seq<u8>, Seq<u8>)>,
    key: Seq<u8>,
    data: Seq<u8>,
    i: int,
    k: Seq<u8>,
)
    requires
        0 <= i < entries.len(),
        entries[i].0 == key,
        forall|j: int| 0 <= j < i ==> #[trigger] entries[j].0 != key,
    ensures
        lookup(entries.update(i, (key, data)), k) == if k == key {
            Some(data)
        } else {
            lookup(entries, k)
        },
    decreases i,
{
    let upd = entries.update(i, (key, data));
    if i == 0 {
        assert(upd.drop_first() =~= entries.drop_first());
    } else {
        assert(entries[0].0 != key);
        let rest = entries.drop_first();
        assert forall|j: int| 0 <= j < i - 1 implies #[trigger] rest[j].0 != key by {
            assert(rest[j] == entries[j + 1]);
        }
        assert(upd.drop_first() =~= rest.update(i - 1, (key, data)));
        lemma_lookup_update_one(rest, key, data, i - 1, k);
    }
}

proof fn lemma_lookup_push(entries: Seq<(Seq<u8>, Seq<u8>)>, key: Seq<u8>, data: Seq<u8>)
    requires
        lookup(entries, key) is None,
    ensures
        forall|k: Seq<u8>|
            #[trigger] lookup(entries.push((key, data)), k) == if k == key {
                Some(data)
            } else {
                lookup(entries, k)
            },
{
    assert forall|k: Seq<u8>| #[trigger] lookup(entries.push((key, data)), k) == if k == key {
        Some(data)
    } else {
        lookup(entries, k)
    } by {
        lemma_lookup_push_one(entries, key, data, k);
    }
}

proof fn lemma_lookup_push_one(entries: Seq<(Seq<u8>, Seq<u8>)>, key: Seq<u8>, data: Seq<u8>, k: Seq<u8>)
    requires
        lookup(entries, key) is None,
    ensures
        lookup(entries.push((key, data)), k) == if k == key {
            Some(data)
        } else {
            lookup(entries, k)
        },
    decreases entries.len(),
{
    let p = entries.push((key, data));
    if entries.len() == 0 {
        assert(p.drop_first() =~= Seq::<(Seq<u8>, Seq<u8>)>::empty());
    } else {
        assert(p.drop_first() =~= entries.drop_first().push((key, data)));
        if entries[0].0 != key {
            lemma_lookup_push_one(entries.drop_first(), key, data, k);
        }
    }
}

/// A read after a write gives back what was written: once `data` is stored
/// under `key`, a lookup of `key` with a buffer large enough succeeds with
/// exactly `data`, and lookups of every other key answer as before.
pub proof fn lemma_get_after_set(
    m: Map<Seq<u8>, Seq<u8>>,
    key: Seq<u8>,
    data: Seq<u8>,
    capacity: usize,
    other: Seq<u8>,
    has_buffer: bool,
    other_capacity: usize,
)
    requires
        capacity >= data.len(),
        other != key,
    ensures
        get_spec(m.insert(key, data), key, true, capacity) == (
            PluginGetStatus::Success,
            Some(data.len() as usize),
            Some(data),
        ),
        get_spec(m.insert(key, data), other, has_buffer, other_capacity) == get_spec(
            m,
            other,
            has_buffer,
            other_capacity,
        ),
{
}

} // verus!

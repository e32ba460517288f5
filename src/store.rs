//! The device record and an in-memory store of device records.

use vstd::prelude::*;
use crate::jid::{jid_text, Jid};
use crate::node::str_eq;

verus! {

/// Identity and keys of one linked device.
#[derive(Clone, Debug)]
pub struct Device {
    /// Own address once paired.
    pub id: Option<Jid>,
    pub lid: Option<Jid>,
    pub business_name: Option<String>,
    pub platform: Option<String>,
    /// Key pair of the handshake identity.
    pub noise_key_pub: Option<[u8; 32]>,
    pub noise_key_priv: Option<[u8; 32]>,
    /// Ed25519 identity key pair.
    pub identity_key_pub: Option<[u8; 32]>,
    pub identity_key_priv: Option<[u8; 32]>,
    /// Advertising secret.
    pub adv_secret_key: Option<[u8; 32]>,
    /// The signed identity blob.
    pub account: Option<Vec<u8>>,
    pub registration_id: u32,
    pub signed_prekey_id: u32,
}

impl Default for Device {
    fn default() -> (r: Device)
        ensures
            r.id is None && r.lid is None && r.business_name is None && r.platform is None,
            r.noise_key_pub is None && r.noise_key_priv is None && r.identity_key_pub is None && r.identity_key_priv is None,
            r.adv_secret_key is None && r.account is None,
            r.registration_id == 0 && r.signed_prekey_id == 0,
    {
        Device {
            id: None,
            lid: None,
            business_name: None,
            platform: None,
            noise_key_pub: None,
            noise_key_priv: None,
            identity_key_pub: None,
            identity_key_priv: None,
            adv_secret_key: None,
            account: None,
            registration_id: 0,
            signed_prekey_id: 0,
        }
    }
}

impl Device {
    /// Whether the device is paired.
    pub fn is_logged_in(&self) -> (r: bool)
        ensures
            r == self.id is Some,
    {
        self.id.is_some()
    }
}

/// The key under which a device with no address is kept.
pub open spec fn first_key_spec() -> Seq<char> {
    "__first"@
}

/// The key under which `d` is kept.
pub open spec fn device_key(d: Device) -> Seq<char> {
    match d.id {
        Some(j) => jid_text(j),
        None => first_key_spec(),
    }
}

/// Stored records by key, keys distinct.
pub type Records = Seq<(Seq<char>, Device)>;

pub open spec fn records_distinct(s: Records) -> bool {
    forall|i: int, j: int| 0 <= i < j < s.len() ==> #[trigger] s[i].0 != #[trigger] s[j].0
}

/// The record under key `k`.
pub open spec fn record_at(s: Records, k: Seq<char>) -> Option<Device> {
    if exists|i: int| 0 <= i < s.len() && #[trigger] s[i].0 == k {
        Some(s[choose|i: int| 0 <= i < s.len() && #[trigger] s[i].0 == k].1)
    } else {
        None
    }
}

/// The records of a list of keyed devices.
pub open spec fn records_of(v: Seq<(String, Device)>) -> Records {
    v.map_values(|e: (String, Device)| (e.0@, e.1))
}

/// `d` is one of the stored records.
pub open spec fn stored(s: Records, d: Device) -> bool {
    exists|j: int| 0 <= j < s.len() && s[j].1 == d
}

/// An in-memory device store; nothing survives the process.
pub struct MemoryStore {
    devices: Vec<(String, Device)>,
    first_jid: Option<String>,
}

impl MemoryStore {
    /// The records, in the order they were first saved.
    pub closed spec fn records(&self) -> Records {
        records_of(self.devices@)
    }

    /// The key of the device that `get_first_device` returns, when one was
    /// saved with an address.
    pub closed spec fn first(&self) -> Option<Seq<char>> {
        match self.first_jid {
            Some(s) => Some(s@),
            None => None,
        }
    }

    #[verifier::type_invariant]
    spec fn inv(&self) -> bool {
        records_distinct(self.records())
    }

    /// An empty store.
    pub fn new() -> (r: MemoryStore)
        ensures
            r.records().len() == 0,
            r.first() is None,
    {
        let r = MemoryStore { devices: Vec::new(), first_jid: None };
        assert(r.records() =~= Seq::<(Seq<char>, Device)>::empty());
        r
    }

    fn first_jid_key() -> (r: String)
        ensures
            r@ == first_key_spec(),
    {
        "__first".to_owned()
    }

    fn position(&self, k: &str) -> (r: Option<usize>)
        ensures
            match r {
                Some(i) => i < self.records().len() && self.records()[i as int].0 == k@
                    && record_at(self.records(), k@) == Some(self.records()[i as int].1),
                None => record_at(self.records(), k@) is None,
            },
    {
        proof {
            use_type_invariant(self);
        }
        let ghost s = self.records();
        let mut i: usize = 0;
        while i < self.devices.len()
            invariant
                s == self.records(),
                records_distinct(s),
                i <= s.len(),
                self.devices@.len() == s.len(),
                forall|j: int| 0 <= j < i ==> #[trigger] s[j].0 != k@,
            decreases s.len() - i,
        {
            assert(s[i as int].0 == self.devices@[i as int].0@);
            if str_eq(self.devices[i].0.as_str(), k) {
                proof {
                    let c = choose|j: int| 0 <= j < s.len() && #[trigger] s[j].0 == k@;
                    if c != i {
                        assert(s[c].0 != s[i as int].0);
                    }
                }
                return Some(i);
            }
            i = i + 1;
        }
        None
    }

    fn lookup(&self, k: &str) -> (r: Option<&Device>)
        ensures
            match r {
                Some(d) => record_at(self.records(), k@) == Some(*d),
                None => record_at(self.records(), k@) is None,
            },
    {
        match self.position(k) {
            Some(i) => Some(&self.devices[i].1),
            None => None,
        }
    }

    /// The device saved last with an address; where none was, the one saved
    /// without an address.
    pub fn get_first_device(&self) -> (r: Option<&Device>)
        ensures
            match r {
                Some(d) => record_at(self.records(), match self.first() { Some(k) => k, None => first_key_spec() }) == Some(*d),
                None => record_at(self.records(), match self.first() { Some(k) => k, None => first_key_spec() }) is None,
            },
    {
        match &self.first_jid {
            Some(k) => self.lookup(k.as_str()),
            None => {
                let k = Self::first_jid_key();
                self.lookup(k.as_str())
            },
        }
    }

    /// The device saved under the text form of `jid`.
    pub fn get_device(&self, jid: &Jid) -> (r: Option<&Device>)
        ensures
            match r {
                Some(d) => record_at(self.records(), jid_text(*jid)) == Some(*d),
                None => record_at(self.records(), jid_text(*jid)) is None,
            },
    {
        let k = jid.to_string();
        self.lookup(k.as_str())
    }

    /// Saves `device` under its key, replacing what was there; a device with
    /// an address becomes the first device.
    pub fn save(&mut self, device: Device)
        ensures
            record_at(final(self).records(), device_key(device)) == Some(device),
            forall|k: Seq<char>| k != device_key(device) ==> record_at(final(self).records(), k) == record_at(old(self).records(), k),
            final(self).first() == if device.id is Some { Some(device_key(device)) } else { old(self).first() },
    {
        proof {
            use_type_invariant(&*self);
        }
        let key = match &device.id {
            Some(j) => j.to_string(),
            None => Self::first_jid_key(),
        };
        if device.id.is_some() {
            self.first_jid = Some(key.clone());
        }
        proof {
            use_type_invariant(&*self);
        }
        let ghost s = self.records();
        let pos = self.position(key.as_str());
        let mut devices: Vec<(String, Device)> = Vec::new();
        core::mem::swap(&mut self.devices, &mut devices);
        assert(records_of(devices@) == s);
        match pos {
            Some(i) => {
                devices.set(i, (key, device));
                proof {
                    assert(records_of(devices@) =~= s.update(i as int, (device_key(device), device)));
                    lemma_update_records(s, i as int, device_key(device), device);
                }
            },
            None => {
                devices.push((key, device));
                proof {
                    assert(records_of(devices@) =~= s.push((device_key(device), device)));
                    lemma_push_records(s, device_key(device), device);
                }
            },
        }
        self.devices = devices;
    }

    /// Removes the device saved under the text form of `jid`; it stops being
    /// the first device.
    pub fn delete(&mut self, jid: &Jid)
        ensures
            record_at(final(self).records(), jid_text(*jid)) is None,
            forall|k: Seq<char>| k != jid_text(*jid) ==> record_at(final(self).records(), k) == record_at(old(self).records(), k),
            final(self).first() == if old(self).first() == Some(jid_text(*jid)) { None } else { old(self).first() },
    {
        let key = jid.to_string();
        proof {
            use_type_invariant(&*self);
        }
        let ghost s = self.records();
        let pos = self.position(key.as_str());
        let mut devices: Vec<(String, Device)> = Vec::new();
        core::mem::swap(&mut self.devices, &mut devices);
        assert(records_of(devices@) == s);
        match pos {
            Some(i) => {
                devices.remove(i);
                proof {
                    assert(records_of(devices@) =~= s.remove(i as int));
                    lemma_remove_records(s, i as int);
                }
            },
            None => {},
        }
        self.devices = devices;
        let clear = match &self.first_jid {
            Some(f) => str_eq(f.as_str(), key.as_str()),
            None => false,
        };
        if clear {
            self.first_jid = None;
        }
    }

    /// Every device that has an address, in the order first saved.
    pub fn get_all_devices(&self) -> (r: Vec<&Device>)
        ensures
            forall|i: int| 0 <= i < r@.len() ==> (#[trigger] r@[i]).id is Some,
            forall|i: int| 0 <= i < r@.len() ==> stored(self.records(), *#[trigger] r@[i]),
            forall|j: int| 0 <= j < self.records().len() && (#[trigger] self.records()[j]).1.id is Some ==> exists|i: int| 0 <= i < r@.len() && *r@[i] == self.records()[j].1,
    {
        let ghost s = self.records();
        let mut out: Vec<&Device> = Vec::new();
        let ghost mut idx: Seq<int> = Seq::empty();
        let mut i: usize = 0;
        while i < self.devices.len()
            invariant
                s == self.records(),
                i <= s.len(),
                self.devices@.len() == s.len(),
                idx.len() == out@.len(),
                forall|k: int| 0 <= k < out@.len() ==> 0 <= #[trigger] idx[k] < i && *out@[k] == s[idx[k]].1 && out@[k].id is Some,
                forall|j: int| 0 <= j < i && (#[trigger] s[j]).1.id is Some ==> exists|k: int| 0 <= k < idx.len() && idx[k] == j,
            decreases s.len() - i,
        {
            let d = &self.devices[i].1;
            assert(s[i as int].1 == *d);
            let ghost old_idx = idx;
            if d.id.is_some() {
                out.push(d);
                proof {
                    idx = idx.push(i as int);
                    assert(idx[idx.len() - 1] == i);
                }
            }
            proof {
                assert forall|j: int| 0 <= j < i + 1 && (#[trigger] s[j]).1.id is Some implies exists|k: int| 0 <= k < idx.len() && idx[k] == j by {
                    if j < i {
                        let k = choose|k: int| 0 <= k < old_idx.len() && old_idx[k] == j;
                        assert(idx[k] == j);
                    } else {
                        assert(idx[idx.len() - 1] == j);
                    }
                }
            }
            i = i + 1;
        }
        assert forall|k: int| 0 <= k < out@.len() implies (#[trigger] out@[k]).id is Some by {
            assert(0 <= idx[k] < i);
        }
        assert forall|k: int| 0 <= k < out@.len() implies stored(self.records(), *#[trigger] out@[k]) by {
            assert(0 <= idx[k] < i);
            assert(s[idx[k]].1 == *out@[k]);
        }
        assert forall|j: int| 0 <= j < self.records().len() && (#[trigger] self.records()[j]).1.id is Some implies exists|k: int| 0 <= k < out@.len() && *out@[k] == self.records()[j].1 by {
            let k = choose|k: int| 0 <= k < idx.len() && idx[k] == j;
            assert(*out@[k] == s[idx[k]].1);
        }
        out
    }
}

impl Default for MemoryStore {
    fn default() -> (r: MemoryStore)
        ensures
            r.records().len() == 0,
            r.first() is None,
    {
        MemoryStore::new()
    }
}

proof fn lemma_update_records(s: Records, i: int, k: Seq<char>, d: Device)
    requires
        records_distinct(s),
        0 <= i < s.len(),
        s[i].0 == k,
    ensures
        records_distinct(s.update(i, (k, d))),
        record_at(s.update(i, (k, d)), k) == Some(d),
        forall|k2: Seq<char>| k2 != k ==> record_at(s.update(i, (k, d)), k2) == record_at(s, k2),
{
    let t = s.update(i, (k, d));
    assert forall|a: int, b: int| 0 <= a < b < t.len() implies #[trigger] t[a].0 != #[trigger] t[b].0 by {
        assert(s[a].0 != s[b].0);
    }
    let c = choose|j: int| 0 <= j < t.len() && #[trigger] t[j].0 == k;
    assert(t[i].0 == k);
    if c != i {
        assert(t[c].0 != t[i].0);
    }
    assert forall|k2: Seq<char>| k2 != k implies record_at(t, k2) == record_at(s, k2) by {
        if exists|j: int| 0 <= j < s.len() && #[trigger] s[j].0 == k2 {
            let j = choose|j: int| 0 <= j < s.len() && #[trigger] s[j].0 == k2;
            assert(t[j].0 == k2);
            let c2 = choose|j: int| 0 <= j < t.len() && #[trigger] t[j].0 == k2;
            if c2 != j {
                assert(t[c2].0 != t[j].0);
            }
        } else {
            if exists|j: int| 0 <= j < t.len() && #[trigger] t[j].0 == k2 {
                let j = choose|j: int| 0 <= j < t.len() && #[trigger] t[j].0 == k2;
                assert(s[j].0 == k2);
            }
        }
    }
}

proof fn lemma_push_records(s: Records, k: Seq<char>, d: Device)
    requires
        records_distinct(s),
        record_at(s, k) is None,
    ensures
        records_distinct(s.push((k, d))),
        record_at(s.push((k, d)), k) == Some(d),
        forall|k2: Seq<char>| k2 != k ==> record_at(s.push((k, d)), k2) == record_at(s, k2),
{
    let t = s.push((k, d));
    assert forall|a: int, b: int| 0 <= a < b < t.len() implies #[trigger] t[a].0 != #[trigger] t[b].0 by {
        if b == s.len() {
            assert(s[a].0 != k);
        } else {
            assert(s[a].0 != s[b].0);
        }
    }
    assert(t[s.len() as int].0 == k);
    let c = choose|j: int| 0 <= j < t.len() && #[trigger] t[j].0 == k;
    if c != s.len() {
        assert(s[c].0 != k);
    }
    assert forall|k2: Seq<char>| k2 != k implies record_at(t, k2) == record_at(s, k2) by {
        if exists|j: int| 0 <= j < s.len() && #[trigger] s[j].0 == k2 {
            let j = choose|j: int| 0 <= j < s.len() && #[trigger] s[j].0 == k2;
            assert(t[j].0 == k2);
            let c2 = choose|j: int| 0 <= j < t.len() && #[trigger] t[j].0 == k2;
            if c2 != j {
                assert(t[c2].0 != t[j].0);
            }
        } else {
            if exists|j: int| 0 <= j < t.len() && #[trigger] t[j].0 == k2 {
                let j = choose|j: int| 0 <= j < t.len() && #[trigger] t[j].0 == k2;
                assert(s[j].0 == k2);
            }
        }
    }
}

proof fn lemma_remove_records(s: Records, i: int)
    requires
        records_distinct(s),
        0 <= i < s.len(),
    ensures
        records_distinct(s.remove(i)),
        record_at(s.remove(i), s[i].0) is None,
        forall|k2: Seq<char>| k2 != s[i].0 ==> record_at(s.remove(i), k2) == record_at(s, k2),
{
    let t = s.remove(i);
    let k = s[i].0;
    assert forall|a: int, b: int| 0 <= a < b < t.len() implies #[trigger] t[a].0 != #[trigger] t[b].0 by {
        let a2 = if a < i { a } else { a + 1 };
        let b2 = if b < i { b } else { b + 1 };
        assert(t[a] == s[a2]);
        assert(t[b] == s[b2]);
        assert(s[a2].0 != s[b2].0);
    }
    if exists|j: int| 0 <= j < t.len() && #[trigger] t[j].0 == k {
        let j = choose|j: int| 0 <= j < t.len() && #[trigger] t[j].0 == k;
        let j2 = if j < i { j } else { j + 1 };
        assert(t[j] == s[j2]);
        assert(s[j2].0 != s[i].0);
    }
    assert forall|k2: Seq<char>| k2 != k implies record_at(t, k2) == record_at(s, k2) by {
        if exists|j: int| 0 <= j < s.len() && #[trigger] s[j].0 == k2 {
            let j = choose|j: int| 0 <= j < s.len() && #[trigger] s[j].0 == k2;
            assert(j != i);
            let jt = if j < i { j } else { j - 1 };
            assert(t[jt] == s[j]);
            let c2 = choose|j: int| 0 <= j < t.len() && #[trigger] t[j].0 == k2;
            let c2s = if c2 < i { c2 } else { c2 + 1 };
            assert(t[c2] == s[c2s]);
            if c2s != j {
                assert(s[c2s].0 != s[j].0);
            }
        } else {
            if exists|j: int| 0 <= j < t.len() && #[trigger] t[j].0 == k2 {
                let j = choose|j: int| 0 <= j < t.len() && #[trigger] t[j].0 == k2;
                let js = if j < i { j } else { j + 1 };
                assert(t[j] == s[js]);
            }
        }
    }
}

} // verus!

use vstd::prelude::*;
use crate::models::AppSettings;
use crate::security::{str_eq, AuthorizedDevice};

verus! {

/// The persisted configuration: master token, secret key, the set of
/// authorized devices keyed by device id, and UI preferences.
///
/// The devices sit in a vector whose ids are mutually distinct, so the
/// vector behaves as a map keyed by `device_id`.
pub struct AppConfig {
    /// Master token (persistent, only changes on explicit regeneration).
    pub master_token: Option<String>,
    /// Secret key for AES encryption (base64 encoded).
    pub secret_key: Option<String>,
    /// Authorized devices, at most one record per device id.
    pub authorized_devices: Vec<AuthorizedDevice>,
    /// Start together with the session.
    pub auto_start: bool,
    /// Minimize to tray on close.
    pub minimize_to_tray: bool,
    /// Start minimized (in tray).
    pub start_minimized: bool,
}

/// The fields of the configuration that device bookkeeping leaves alone.
pub open spec fn same_except_devices(a: AppConfig, b: AppConfig) -> bool {
    &&& a.master_token == b.master_token
    &&& a.secret_key == b.secret_key
    &&& a.auto_start == b.auto_start
    &&& a.minimize_to_tray == b.minimize_to_tray
    &&& a.start_minimized == b.start_minimized
}

impl AppConfig {
    /// Device ids are mutually distinct.
    pub open spec fn wf(self) -> bool {
        forall|i: int, j: int|
            0 <= i < j < self.authorized_devices@.len() ==> (#[trigger] self.authorized_devices@[i]).device_id@
                != (#[trigger] self.authorized_devices@[j]).device_id@
    }

    /// The device has completed `pair` and has not been revoked.
    pub open spec fn spec_is_authorized(self, d: Seq<char>) -> bool {
        exists|i: int|
            0 <= i < self.authorized_devices@.len() && (#[trigger] self.authorized_devices@[i]).device_id@
                == d
    }

    /// The index of the record for a device id, when one exists.
    pub open spec fn spec_index_of(self, d: Seq<char>) -> int {
        choose|i: int|
            0 <= i < self.authorized_devices@.len() && (#[trigger] self.authorized_devices@[i]).device_id@
                == d
    }

    /// The record stored for a device id.
    pub open spec fn spec_get(self, d: Seq<char>) -> Option<AuthorizedDevice> {
        if self.spec_is_authorized(d) {
            Some(self.authorized_devices@[self.spec_index_of(d)])
        } else {
            None
        }
    }

    /// Any index holding a device id yields the stored record: ids are unique.
    pub proof fn lemma_spec_get_at(self, j: int)
        requires
            self.wf(),
            0 <= j < self.authorized_devices@.len(),
        ensures
            self.spec_get(self.authorized_devices@[j].device_id@) == Some(
                self.authorized_devices@[j],
            ),
            self.spec_index_of(self.authorized_devices@[j].device_id@) == j,
    {
        let d = self.authorized_devices@[j].device_id@;
        assert(self.spec_is_authorized(d));
        let k = self.spec_index_of(d);
        if k != j {
            if k < j {
                assert(self.authorized_devices@[k].device_id@
                    != self.authorized_devices@[j].device_id@);
            } else {
                assert(self.authorized_devices@[j].device_id@
                    != self.authorized_devices@[k].device_id@);
            }
            assert(false);
        }
    }

    /// Finds the index of a device id's record.
    fn find_device_index(&self, device_id: &str) -> (r: Option<usize>)
        ensures
            match r {
                Some(i) => i < self.authorized_devices@.len()
                    && self.authorized_devices@[i as int].device_id@ == device_id@,
                None => !self.spec_is_authorized(device_id@),
            },
    {
        let n = self.authorized_devices.len();
        let mut i: usize = 0;
        while i < n
            invariant
                i <= n,
                n == self.authorized_devices@.len(),
                forall|j: int|
                    0 <= j < i ==> (#[trigger] self.authorized_devices@[j]).device_id@
                        != device_id@,
            decreases n - i,
        {
            if str_eq(self.authorized_devices[i].device_id.as_str(), device_id) {
                return Some(i);
            }
            i += 1;
        }
        None
    }

    /// Inserts or replaces the record for `device.device_id`.
    pub fn add_device(&mut self, device: AuthorizedDevice)
        requires
            old(self).wf(),
        ensures
            final(self).wf(),
            final(self).spec_get(device.device_id@) == Some(device),
            final(self).spec_is_authorized(device.device_id@),
            forall|d: Seq<char>|
                d != device.device_id@ ==> final(self).spec_is_authorized(d) == old(
                    self,
                ).spec_is_authorized(d),
            forall|d: Seq<char>|
                d != device.device_id@ ==> final(self).spec_get(d) == old(self).spec_get(d),
            same_except_devices(*final(self), *old(self)),
    {
        let ghost pre = *self;
        match self.find_device_index(device.device_id.as_str()) {
            Some(i) => {
                let ghost did = device.device_id@;
                let slot = &mut self.authorized_devices[i];
                *slot = device;
                proof {
                    assert(self.authorized_devices@ == pre.authorized_devices@.update(
                        i as int,
                        self.authorized_devices@[i as int],
                    ));
                    assert forall|a: int, b: int|
                        0 <= a < b < self.authorized_devices@.len() implies (
                    #[trigger] self.authorized_devices@[a]).device_id@ != (
                    #[trigger] self.authorized_devices@[b]).device_id@ by {
                        assert(pre.authorized_devices@[a].device_id@
                            != pre.authorized_devices@[b].device_id@);
                        if a == i as int {
                            assert(self.authorized_devices@[a].device_id@ == did);
                            assert(pre.authorized_devices@[i as int].device_id@ == did);
                        } else if b == i as int {
                            assert(self.authorized_devices@[b].device_id@ == did);
                            assert(pre.authorized_devices@[i as int].device_id@ == did);
                        }
                    }
                    self.lemma_spec_get_at(i as int);
                    assert forall|d: Seq<char>| d != did implies self.spec_is_authorized(d)
                        == pre.spec_is_authorized(d) by {
                        if pre.spec_is_authorized(d) {
                            let j = pre.spec_index_of(d);
                            assert(self.authorized_devices@[j].device_id@ == d);
                        }
                        if self.spec_is_authorized(d) {
                            let j = self.spec_index_of(d);
                            assert(pre.authorized_devices@[j].device_id@ == d);
                        }
                    }
                    assert forall|d: Seq<char>| d != did implies self.spec_get(d)
                        == pre.spec_get(d) by {
                        if pre.spec_is_authorized(d) {
                            let j = pre.spec_index_of(d);
                            assert(self.authorized_devices@[j].device_id@ == d);
                            self.lemma_spec_get_at(j);
                            pre.lemma_spec_get_at(j);
                        }
                    }
                }
            },
            None => {
                let ghost did = device.device_id@;
                self.authorized_devices.push(device);
                proof {
                    let n = pre.authorized_devices@.len() as int;
                    assert(self.authorized_devices@ == pre.authorized_devices@.push(
                        self.authorized_devices@[n],
                    ));
                    assert(self.authorized_devices@[n].device_id@ == did);
                    assert forall|a: int, b: int|
                        0 <= a < b < self.authorized_devices@.len() implies (
                    #[trigger] self.authorized_devices@[a]).device_id@ != (
                    #[trigger] self.authorized_devices@[b]).device_id@ by {
                        if b < n {
                            assert(pre.authorized_devices@[a].device_id@
                                != pre.authorized_devices@[b].device_id@);
                        } else {
                            assert(self.authorized_devices@[b].device_id@ == did);
                            assert(self.authorized_devices@[a] == pre.authorized_devices@[a]);
                            assert(!pre.spec_is_authorized(did));
                        }
                    }
                    self.lemma_spec_get_at(n);
                    assert forall|d: Seq<char>| d != did implies self.spec_is_authorized(d)
                        == pre.spec_is_authorized(d) by {
                        if pre.spec_is_authorized(d) {
                            let j = pre.spec_index_of(d);
                            assert(self.authorized_devices@[j].device_id@ == d);
                        }
                        if self.spec_is_authorized(d) {
                            let j = self.spec_index_of(d);
                            assert(j != n);
                            assert(pre.authorized_devices@[j].device_id@ == d);
                        }
                    }
                    assert forall|d: Seq<char>| d != did implies self.spec_get(d)
                        == pre.spec_get(d) by {
                        if pre.spec_is_authorized(d) {
                            let j = pre.spec_index_of(d);
                            assert(self.authorized_devices@[j].device_id@ == d);
                            self.lemma_spec_get_at(j);
                            pre.lemma_spec_get_at(j);
                        }
                    }
                }
            },
        }
    }

    /// Removes the record for a device id; reports whether one existed.
    pub fn remove_device(&mut self, device_id: &str) -> (r: bool)
        requires
            old(self).wf(),
        ensures
            final(self).wf(),
            !final(self).spec_is_authorized(device_id@),
            r == old(self).spec_is_authorized(device_id@),
            forall|d: Seq<char>|
                d != device_id@ ==> final(self).spec_is_authorized(d) == old(
                    self,
                ).spec_is_authorized(d),
            forall|d: Seq<char>|
                d != device_id@ ==> final(self).spec_get(d) == old(self).spec_get(d),
            same_except_devices(*final(self), *old(self)),
    {
        let ghost pre = *self;
        match self.find_device_index(device_id) {
            Some(i) => {
                self.authorized_devices.remove(i);
                proof {
                    let n = pre.authorized_devices@.len() as int;
                    assert(self.authorized_devices@ == pre.authorized_devices@.remove(i as int));
                    assert forall|k: int| 0 <= k < n - 1 implies #[trigger] self.authorized_devices@[k]
                        == (if k < i as int {
                        pre.authorized_devices@[k]
                    } else {
                        pre.authorized_devices@[k + 1]
                    }) by {}
                    assert forall|a: int, b: int|
                        0 <= a < b < self.authorized_devices@.len() implies (
                    #[trigger] self.authorized_devices@[a]).device_id@ != (
                    #[trigger] self.authorized_devices@[b]).device_id@ by {}
                    if self.spec_is_authorized(device_id@) {
                        let j = self.spec_index_of(device_id@);
                        let oj = if j < i as int {
                            j
                        } else {
                            j + 1
                        };
                        assert(pre.authorized_devices@[oj].device_id@ == device_id@);
                        assert(oj != i as int);
                        if oj < i as int {
                            assert(pre.authorized_devices@[oj].device_id@
                                != pre.authorized_devices@[i as int].device_id@);
                        } else {
                            assert(pre.authorized_devices@[i as int].device_id@
                                != pre.authorized_devices@[oj].device_id@);
                        }
                        assert(false);
                    }
                    assert forall|d: Seq<char>| d != device_id@ implies self.spec_is_authorized(d) == pre.spec_is_authorized(d) by {
                        if pre.spec_is_authorized(d) {
                            let j = pre.spec_index_of(d);
                            assert(pre.authorized_devices@[j].device_id@ == d);
                            assert(j != i as int);
                            if j < i as int {
                                assert(self.authorized_devices@[j].device_id@ == d);
                            } else {
                                assert(self.authorized_devices@[j - 1].device_id@ == d);
                            }
                        }
                        if self.spec_is_authorized(d) {
                            let j = self.spec_index_of(d);
                            let oj = if j < i as int {
                                j
                            } else {
                                j + 1
                            };
                            assert(pre.authorized_devices@[oj].device_id@ == d);
                        }
                    }
                    assert forall|d: Seq<char>| d != device_id@ implies self.spec_get(d)
                        == pre.spec_get(d) by {
                        if pre.spec_is_authorized(d) {
                            let j = pre.spec_index_of(d);
                            assert(pre.authorized_devices@[j].device_id@ == d);
                            pre.lemma_spec_get_at(j);
                            assert(j != i as int);
                            if j < i as int {
                                assert(self.authorized_devices@[j].device_id@ == d);
                                self.lemma_spec_get_at(j);
                            } else {
                                assert(self.authorized_devices@[j - 1].device_id@ == d);
                                self.lemma_spec_get_at(j - 1);
                            }
                        }
                    }
                }
                true
            },
            None => false,
        }
    }

    /// Removes every authorized device.
    pub fn revoke_all_devices(&mut self)
        ensures
            final(self).wf(),
            final(self).authorized_devices@.len() == 0,
            forall|d: Seq<char>| !final(self).spec_is_authorized(d),
            same_except_devices(*final(self), *old(self)),
    {
        self.authorized_devices.clear();
    }

    /// Reports whether a device id has a record.
    pub fn is_device_authorized(&self, device_id: &str) -> (r: bool)
        ensures
            r == self.spec_is_authorized(device_id@),
    {
        match self.find_device_index(device_id) {
            Some(i) => {
                proof {
                    assert(self.spec_is_authorized(device_id@));
                }
                true
            },
            None => false,
        }
    }

    /// The record stored for a device id, if any.
    pub fn get_device(&self, device_id: &str) -> (r: Option<&AuthorizedDevice>)
        requires
            self.wf(),
        ensures
            match r {
                Some(dev) => self.spec_get(device_id@) == Some(*dev),
                None => !self.spec_is_authorized(device_id@),
            },
    {
        match self.find_device_index(device_id) {
            Some(i) => {
                proof {
                    self.lemma_spec_get_at(i as int);
                }
                Some(&self.authorized_devices[i])
            },
            None => None,
        }
    }

    /// A mutable handle on the record stored for a device id, if any. What
    /// the caller writes through it lands in the store as is; writing a
    /// duplicate device id would break the store's invariant, which the
    /// other operations require.
    pub fn get_device_mut(&mut self, device_id: &str) -> (r: Option<&mut AuthorizedDevice>)
        requires
            old(self).wf(),
        ensures
            r is Some == old(self).spec_is_authorized(device_id@),
            r matches Some(d) ==> *d == old(self).spec_get(device_id@)->Some_0
                && final(self).authorized_devices@ == old(self).authorized_devices@.update(
                old(self).spec_index_of(device_id@),
                *final(d),
            ),
            r is None ==> *final(self) == *old(self),
            same_except_devices(*final(self), *old(self)),
    {
        match self.find_device_index(device_id) {
            Some(i) => {
                proof {
                    self.lemma_spec_get_at(i as int);
                }
                Some(&mut self.authorized_devices[i])
            },
            None => None,
        }
    }

    /// Stamps the record of a device id with a new last sighting; reports
    /// whether a record existed.
    pub fn touch_device(&mut self, device_id: &str, last_seen: String) -> (r: bool)
        requires
            old(self).wf(),
        ensures
            final(self).wf(),
            r == old(self).spec_is_authorized(device_id@),
            forall|d: Seq<char>|
                final(self).spec_is_authorized(d) == old(self).spec_is_authorized(d),
            forall|d: Seq<char>|
                d != device_id@ ==> final(self).spec_get(d) == old(self).spec_get(d),
            old(self).spec_is_authorized(device_id@) ==> {
                let prev = old(self).spec_get(device_id@)->Some_0;
                final(self).spec_get(device_id@) == Some(
                    AuthorizedDevice {
                        last_seen: final(self).spec_get(device_id@)->Some_0.last_seen,
                        ..prev
                    },
                ) && final(self).spec_get(device_id@)->Some_0.last_seen@ == last_seen@
            },
            same_except_devices(*final(self), *old(self)),
    {
        let ghost pre = *self;
        match self.find_device_index(device_id) {
            Some(i) => {
                let slot = &mut self.authorized_devices[i];
                slot.last_seen = last_seen;
                proof {
                    let did = pre.authorized_devices@[i as int].device_id@;
                    assert(did == device_id@);
                    assert forall|a: int, b: int|
                        0 <= a < b < self.authorized_devices@.len() implies (
                    #[trigger] self.authorized_devices@[a]).device_id@ != (
                    #[trigger] self.authorized_devices@[b]).device_id@ by {
                        assert(pre.authorized_devices@[a].device_id@
                            != pre.authorized_devices@[b].device_id@);
                    }
                    pre.lemma_spec_get_at(i as int);
                    self.lemma_spec_get_at(i as int);
                    assert forall|d: Seq<char>| self.spec_is_authorized(d) == pre.spec_is_authorized(
                        d,
                    ) by {
                        if pre.spec_is_authorized(d) {
                            let j = pre.spec_index_of(d);
                            assert(self.authorized_devices@[j].device_id@ == d);
                        }
                        if self.spec_is_authorized(d) {
                            let j = self.spec_index_of(d);
                            assert(pre.authorized_devices@[j].device_id@ == d);
                        }
                    }
                    assert forall|d: Seq<char>| d != device_id@ implies self.spec_get(d)
                        == pre.spec_get(d) by {
                        if pre.spec_is_authorized(d) {
                            let j = pre.spec_index_of(d);
                            assert(self.authorized_devices@[j].device_id@ == d);
                            self.lemma_spec_get_at(j);
                            pre.lemma_spec_get_at(j);
                        }
                    }
                }
                true
            },
            None => false,
        }
    }
}

impl AppConfig {
    /// The UI preferences, as the frontend shows them.
    pub fn get_settings(&self) -> (r: AppSettings)
        ensures
            r.auto_start == self.auto_start,
            r.minimize_to_tray == self.minimize_to_tray,
            r.start_minimized == self.start_minimized,
    {
        AppSettings {
            auto_start: self.auto_start,
            minimize_to_tray: self.minimize_to_tray,
            start_minimized: self.start_minimized,
        }
    }

    /// Applies new UI preferences; tokens, keys and devices are untouched.
    pub fn update_settings(&mut self, settings: &AppSettings)
        ensures
            final(self).auto_start == settings.auto_start,
            final(self).minimize_to_tray == settings.minimize_to_tray,
            final(self).start_minimized == settings.start_minimized,
            final(self).master_token == old(self).master_token,
            final(self).secret_key == old(self).secret_key,
            final(self).authorized_devices == old(self).authorized_devices,
    {
        self.auto_start = settings.auto_start;
        self.minimize_to_tray = settings.minimize_to_tray;
        self.start_minimized = settings.start_minimized;
    }
}

impl Default for AppConfig {
    /// The defaults used when no configuration can be read: no token, no
    /// key, no devices, every preference off. (A stored document that merely
    /// omits the minimize-to-tray field reads back as true; that is the
    /// reader's field default, not this one.)
    fn default() -> (r: Self)
        ensures
            r.master_token is None,
            r.secret_key is None,
            r.authorized_devices@.len() == 0,
            !r.auto_start,
            !r.minimize_to_tray,
            !r.start_minimized,
            r.wf(),
    {
        AppConfig {
            master_token: None,
            secret_key: None,
            authorized_devices: Vec::new(),
            auto_start: false,
            minimize_to_tray: false,
            start_minimized: false,
        }
    }
}

} // verus!

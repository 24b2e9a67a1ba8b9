//! The registry of running device workers, one per (address, slave id).
//!
//! The registry holds one handle per device key; adding a device that is
//! already registered starts nothing, removing a device hands its handle back
//! (it is not stopped), and stopping everything takes every handle out.

use vstd::prelude::*;

verus! {

/// A device's socket address: an IPv4 address (as its 32-bit number) and
/// port, or an IPv6 address (as its 128-bit number), port, flow information
/// and scope id. Two addresses are the same device address exactly when all
/// their parts agree.
#[derive(Clone, Copy, Debug, PartialEq, Eq, Hash, Structural)]
pub enum DeviceAddress {
    V4 { ip4: u32, port: u16 },
    V6 { ip6: u128, port: u16, flowinfo: u32, scope_id: u32 },
}

/// The key of a device: its address and Modbus slave id.
pub type DeviceKey = (DeviceAddress, u8);

/// The keys of a sequence of entries, in order.
pub open spec fn keys_of<H>(entries: Seq<(DeviceKey, H)>) -> Seq<DeviceKey> {
    entries.map_values(|e: (DeviceKey, H)| e.0)
}

/// The handles of a sequence of entries, in order.
pub open spec fn handles_of<H>(entries: Seq<(DeviceKey, H)>) -> Seq<H> {
    entries.map_values(|e: (DeviceKey, H)| e.1)
}

/// The map from key to handle that a sequence of entries describes.
pub open spec fn map_of<H>(entries: Seq<(DeviceKey, H)>) -> Map<DeviceKey, H>
    decreases entries.len(),
{
    if entries.len() == 0 {
        Map::empty()
    } else {
        map_of(entries.drop_last()).insert(entries.last().0, entries.last().1)
    }
}

/// A key is in the map exactly when some entry has it, and with unique keys
/// it maps to that entry's handle.
pub proof fn lemma_map_of_lookup<H>(entries: Seq<(DeviceKey, H)>, k: DeviceKey)
    ensures
        map_of(entries).contains_key(k) <==> keys_of(entries).contains(k),
        keys_of(entries).no_duplicates() ==> forall|i: int|
            0 <= i < entries.len() && #[trigger] entries[i].0 == k ==> map_of(entries)[k]
                == entries[i].1,
    decreases entries.len(),
{
    if entries.len() > 0 {
        let init = entries.drop_last();
        let last = entries.last();
        lemma_map_of_lookup(init, k);
        assert(keys_of(entries) =~= keys_of(init).push(last.0));
        if k == last.0 {
            assert(keys_of(entries)[entries.len() - 1] == k);
        }
        if keys_of(init).contains(k) {
            let j = choose|j: int| 0 <= j < keys_of(init).len() && keys_of(init)[j] == k;
            assert(keys_of(entries)[j] == k);
        }
        if keys_of(entries).contains(k) {
            let j = choose|j: int| 0 <= j < keys_of(entries).len() && keys_of(entries)[j] == k;
            if j < entries.len() - 1 {
                assert(keys_of(init)[j] == k);
            }
        }
        if keys_of(entries).no_duplicates() {
            assert forall|a: int, b: int|
                0 <= a < b < keys_of(init).len() implies keys_of(init)[a] != keys_of(init)[b] by {
                assert(keys_of(init)[a] == keys_of(entries)[a]);
                assert(keys_of(init)[b] == keys_of(entries)[b]);
            }
            assert forall|i: int|
                0 <= i < entries.len() && #[trigger] entries[i].0 == k implies map_of(entries)[k]
                == entries[i].1 by {
                if i < entries.len() - 1 {
                    assert(keys_of(entries)[i] != keys_of(entries)[entries.len() - 1]);
                    assert(init[i] == entries[i]);
                }
            }
        }
    }
}

/// Removing the entry that holds `k` removes `k` from the map.
pub proof fn lemma_map_of_remove<H>(entries: Seq<(DeviceKey, H)>, i: int)
    requires
        keys_of(entries).no_duplicates(),
        0 <= i < entries.len(),
    ensures
        map_of(entries.remove(i)) =~= map_of(entries).remove(entries[i].0),
    decreases entries.len(),
{
    let k = entries[i].0;
    let init = entries.drop_last();
    assert(keys_of(init) =~= keys_of(entries).drop_last());
    if i == entries.len() - 1 {
        assert(entries.remove(i) =~= init);
        lemma_map_of_lookup(init, k);
        if keys_of(init).contains(k) {
            let j = choose|j: int| 0 <= j < keys_of(init).len() && keys_of(init)[j] == k;
            assert(keys_of(entries)[j] == keys_of(entries)[i]);
        }
    } else {
        assert(entries.remove(i) =~= init.remove(i).push(entries.last()));
        assert(entries.remove(i).drop_last() =~= init.remove(i));
        assert(keys_of(entries)[i] != keys_of(entries)[entries.len() - 1]);
        lemma_map_of_remove(init, i);
    }
}

/// The device registry. `H` is the handle of a running worker.
pub struct DeviceManager<H> {
    devices: Vec<(DeviceKey, H)>,
}

impl<H> DeviceManager<H> {
    /// The registered devices with their handles, in registration order.
    pub closed spec fn entries(&self) -> Seq<(DeviceKey, H)> {
        self.devices@
    }

    /// The registered devices, in registration order.
    pub open spec fn keys(&self) -> Seq<DeviceKey> {
        keys_of(self.entries())
    }

    /// The registry as a map from device key to handle.
    pub open spec fn devices(&self) -> Map<DeviceKey, H> {
        map_of(self.entries())
    }

    /// No device is registered twice.
    #[verifier::type_invariant]
    closed spec fn unique_keys(&self) -> bool {
        keys_of(self.devices@).no_duplicates()
    }

    /// An empty registry.
    pub fn new() -> (m: Self)
        ensures
            m.entries() == Seq::<(DeviceKey, H)>::empty(),
            m.devices() == Map::<DeviceKey, H>::empty(),
    {
        DeviceManager { devices: Vec::new() }
    }

    /// The position of `key` in the registry, if it is registered.
    fn position(&self, key: &DeviceKey) -> (r: Option<usize>)
        ensures
            match r {
                Some(i) => i < self.entries().len() && self.entries()[i as int].0 == *key
                    && self.keys().contains(*key),
                None => !self.keys().contains(*key),
            },
    {
        let mut i: usize = 0;
        while i < self.devices.len()
            invariant
                i <= self.devices.len(),
                forall|j: int| 0 <= j < i ==> self.devices@[j].0 != *key,
            decreases self.devices.len() - i,
        {
            let entry_key = &self.devices[i].0;
            if entry_key.0 == key.0 && entry_key.1 == key.1 {
                assert(self.keys()[i as int] == *key);
                return Some(i);
            }
            i = i + 1;
        }
        proof {
            if self.keys().contains(*key) {
                let j = choose|j: int| 0 <= j < self.keys().len() && self.keys()[j] == *key;
                assert(self.devices@[j].0 == *key);
            }
        }
        None
    }

    /// Registers the device `(socket_addr, slave_id)` with the worker that
    /// `start_worker` starts, unless the device is registered already. In that
    /// case `start_worker` is not run: the registry is unchanged and the
    /// device's existing handle is given back together with the unused
    /// `start_worker`. `None` means that a worker was started and registered.
    pub fn add_device<'a, F: FnOnce() -> H>(
        &'a mut self,
        socket_addr: DeviceAddress,
        slave_id: u8,
        start_worker: F,
    ) -> (existing: Option<(&'a H, F)>)
        requires
            start_worker.requires(()),
        ensures
            existing is Some <==> old(self).devices().contains_key((socket_addr, slave_id)),
            final(self).devices().contains_key((socket_addr, slave_id)),
            match existing {
                Some((handle, unused)) => {
                    &&& *handle == old(self).devices()[(socket_addr, slave_id)]
                    &&& unused == start_worker
                    &&& final(self).entries() == old(self).entries()
                },
                None => exists|h: H|
                    #![trigger start_worker.ensures((), h)]
                    start_worker.ensures((), h) && final(self).entries() == old(
                        self,
                    ).entries().push(((socket_addr, slave_id), h)) && final(self).devices() == old(
                        self,
                    ).devices().insert((socket_addr, slave_id), h),
            },
    {
        proof {
            use_type_invariant(&*self);
            lemma_map_of_lookup(self.entries(), (socket_addr, slave_id));
        }
        let key = (socket_addr, slave_id);
        match self.position(&key) {
            Some(i) => Some((&self.devices[i].1, start_worker)),
            None => {
                let handle = start_worker();
                let ghost before = self.devices@;
                proof {
                    let after = before.push((key, handle));
                    assert(keys_of(after) =~= keys_of(before).push(key));
                    assert(after.drop_last() =~= before);
                }
                let mut devices: Vec<(DeviceKey, H)> = Vec::new();
                std::mem::swap(&mut devices, &mut self.devices);
                devices.push((key, handle));
                self.devices = devices;
                assert(start_worker.ensures((), handle));
                None
            },
        }
    }

    /// Takes the device `(socket_addr, slave_id)` out of the registry and
    /// returns its handle, without stopping it; `None` when it is not registered.
    pub fn remove_device(&mut self, socket_addr: DeviceAddress, slave_id: u8) -> (r: Option<H>)
        ensures
            r == (if old(self).devices().contains_key((socket_addr, slave_id)) {
                Some(old(self).devices()[(socket_addr, slave_id)])
            } else {
                None::<H>
            }),
            final(self).devices() == old(self).devices().remove((socket_addr, slave_id)),
            match r {
                Some(_) => exists|i: int|
                    0 <= i < old(self).entries().len() && old(self).entries()[i].0 == (
                    socket_addr,
                    slave_id,
                ) && final(self).entries() == old(self).entries().remove(i),
                None => final(self).entries() == old(self).entries(),
            },
    {
        proof {
            use_type_invariant(&*self);
            lemma_map_of_lookup(self.entries(), (socket_addr, slave_id));
        }
        let key = (socket_addr, slave_id);
        match self.position(&key) {
            None => {
                assert(self.devices() =~= self.devices().remove(key));
                None
            },
            Some(i) => {
                let ghost before = self.devices@;
                proof {
                    lemma_map_of_remove(before, i as int);
                    assert(keys_of(before.remove(i as int)) =~= keys_of(before).remove(i as int));
                    assert forall|a: int, b: int|
                        0 <= a < b < keys_of(before).remove(i as int).len() implies keys_of(
                        before,
                    ).remove(i as int)[a] != keys_of(before).remove(i as int)[b] by {
                        let ka = if a < i { a } else { a + 1 };
                        let kb = if b < i { b } else { b + 1 };
                        assert(keys_of(before).remove(i as int)[a] == keys_of(before)[ka]);
                        assert(keys_of(before).remove(i as int)[b] == keys_of(before)[kb]);
                    }
                }
                let mut devices: Vec<(DeviceKey, H)> = Vec::new();
                std::mem::swap(&mut devices, &mut self.devices);
                let (_, handle) = devices.remove(i);
                self.devices = devices;
                Some(handle)
            },
        }
    }

    /// The registered devices, each once, in registration order.
    pub fn list_devices(&self) -> (r: Vec<DeviceKey>)
        ensures
            r@ == self.keys(),
            r@.no_duplicates(),
            forall|k: DeviceKey| #[trigger] r@.contains(k) <==> self.devices().contains_key(k),
    {
        proof {
            use_type_invariant(self);
        }
        let mut r: Vec<DeviceKey> = Vec::new();
        let mut i: usize = 0;
        while i < self.devices.len()
            invariant
                i <= self.devices.len(),
                r@ == keys_of(self.devices@).take(i as int),
            decreases self.devices.len() - i,
        {
            r.push(self.devices[i].0);
            assert(keys_of(self.devices@).take(i + 1) =~= keys_of(self.devices@).take(
                i as int,
            ).push(self.devices@[i as int].0));
            i = i + 1;
        }
        assert(keys_of(self.devices@).take(i as int) =~= keys_of(self.devices@));
        proof {
            assert forall|k: DeviceKey| #[trigger]
                r@.contains(k) <==> self.devices().contains_key(k) by {
                lemma_map_of_lookup(self.entries(), k);
            }
        }
        r
    }

    /// Takes every handle out, in registration order, and leaves the registry
    /// empty; stopping the workers is up to the caller.
    pub fn drain_devices(&mut self) -> (r: Vec<H>)
        ensures
            r@ == handles_of(old(self).entries()),
            final(self).entries() == Seq::<(DeviceKey, H)>::empty(),
            final(self).devices() == Map::<DeviceKey, H>::empty(),
    {
        let mut taken: Vec<(DeviceKey, H)> = Vec::new();
        std::mem::swap(&mut taken, &mut self.devices);
        let ghost all = taken@;
        let mut r: Vec<H> = Vec::new();
        while taken.len() > 0
            invariant
                r.len() + taken.len() == all.len(),
                r@ == handles_of(all).take(r.len() as int),
                taken@ == all.skip(r.len() as int),
            decreases taken.len(),
        {
            let (_, handle) = taken.remove(0);
            let ghost k = r.len() as int;
            r.push(handle);
            assert(handles_of(all).take(k + 1) =~= handles_of(all).take(k).push(all[k].1));
            assert(all.skip(k + 1) =~= all.skip(k).remove(0));
        }
        assert(handles_of(all).take(all.len() as int) =~= handles_of(all));
        assert(self.devices@ =~= Seq::<(DeviceKey, H)>::empty());
        r
    }
}


/// Adding a device that was not registered and then removing it hands back
/// the handle that was started and leaves the registry as it was before.
pub proof fn lemma_remove_undoes_add<H>(before: Map<DeviceKey, H>, key: DeviceKey, handle: H)
    requires
        !before.contains_key(key),
    ensures
        before.insert(key, handle).contains_key(key),
        before.insert(key, handle)[key] == handle,
        before.insert(key, handle).remove(key) == before,
{
    assert(before.insert(key, handle).remove(key) =~= before);
}

} // verus!

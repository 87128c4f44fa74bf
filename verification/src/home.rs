//! The home registry: the authoritative two-level name hierarchy.

use crate::assoc::assoc_map;
use crate::assoc::keys_unique;
use crate::assoc::lemma_assoc_map_contains;
use crate::assoc::lemma_assoc_map_index;
use crate::assoc::lemma_assoc_map_len;
use crate::assoc::lemma_assoc_map_push;
use crate::assoc::lemma_assoc_map_remove;
use crate::assoc::lemma_assoc_map_update;
use crate::builder::builder_append;
use crate::builder::builder_chars;
use crate::builder::builder_new;
use crate::builder::builder_string;
use crate::builder::builder_utf8;
use crate::device_info_provider::DeviceId;
use crate::device_info_provider::DeviceInfoProvider;
use crate::error::DeviceError;
use crate::error::RoomError;
use crate::text::str_eq;
use crate::text::u8_dec;
use crate::text::u8_to_string;
use vstd::prelude::*;

verus! {

/// The map reading of one room: each device name maps to the view of the
/// identifier registered under it.
pub type RoomView = Map<Seq<char>, (Seq<char>, u8)>;

/// The map reading of a home's rooms: each room name maps to that room's
/// [`RoomView`].
pub type RoomsView = Map<Seq<char>, RoomView>;

/// One room: its name, and the devices registered in it as a list of
/// (device name, identifier) entries with pairwise distinct names.
struct Room {
    name: String,
    devices: Vec<(String, DeviceId)>,
}

/// The entries of a device list, with names and identifiers read as values.
spec fn device_pairs(devices: Seq<(String, DeviceId)>) -> Seq<(Seq<char>, (Seq<char>, u8))> {
    Seq::new(devices.len(), |i: int| (devices[i].0@, devices[i].1@))
}

/// The entries of a room list: each room's name beside its map reading.
spec fn room_pairs(rooms: Seq<Room>) -> Seq<(Seq<char>, RoomView)> {
    Seq::new(rooms.len(), |i: int| (rooms[i].name@, assoc_map(device_pairs(rooms[i].devices@))))
}

/// The home registry. It stores only names and identifiers, never device
/// instances, and enforces that room names are unique in the home and device
/// names unique within their room.
pub struct Home {
    name: String,
    rooms: Vec<Room>,
}

impl View for Home {
    type V = RoomsView;

    closed spec fn view(&self) -> RoomsView {
        assoc_map(room_pairs(self.rooms@))
    }
}

/// `names` is a faithful listing of the keys of `entries`: it holds every
/// key exactly once and nothing else, in no promised order.
pub open spec fn lists_keys<V>(names: Seq<String>, entries: Map<Seq<char>, V>) -> bool {
    &&& names.len() == entries.dom().len()
    &&& (forall|k: Seq<char>|
        #[trigger] entries.contains_key(k) <==> exists|i: int|
            0 <= i < names.len() && (#[trigger] names[i])@ == k)
    &&& (forall|i: int, j: int| 0 <= i < j < names.len() ==> names[i]@ != names[j]@)
}

/// A name whose key is absent from the map — for one, a name just removed —
/// appears nowhere in a faithful listing of that map.
pub proof fn lemma_absent_key_unlisted<V>(
    names: Seq<String>,
    entries: Map<Seq<char>, V>,
    key: Seq<char>,
)
    requires
        lists_keys(names, entries),
        !entries.contains_key(key),
    ensures
        forall|i: int| 0 <= i < names.len() ==> names[i]@ != key,
{
    assert forall|i: int| 0 <= i < names.len() implies names[i]@ != key by {
        if names[i]@ == key {
            assert(entries.contains_key(key));
        }
    }
}

/// A key the map holds — for one, a device name just added — appears at
/// exactly one position of a faithful listing of that map.
pub proof fn lemma_present_key_listed_once<V>(
    names: Seq<String>,
    entries: Map<Seq<char>, V>,
    key: Seq<char>,
)
    requires
        lists_keys(names, entries),
        entries.contains_key(key),
    ensures
        exists|i: int| 0 <= i < names.len() && (#[trigger] names[i])@ == key,
        forall|i: int, j: int|
            0 <= i < names.len() && 0 <= j < names.len() && names[i]@ == key && names[j]@ == key
                ==> i == j,
{
}

/// The rooms after a device removal: if the room is present its entry for
/// the device is dropped; otherwise nothing changes. Removal of an absent
/// room or device is a no-op, never an error.
pub open spec fn spec_device_removed(rooms: RoomsView, room: Seq<char>, device: Seq<char>) -> RoomsView {
    if rooms.contains_key(room) {
        rooms.insert(room, rooms[room].remove(device))
    } else {
        rooms
    }
}

/// Removing a device twice from the same (room, device) pair has the same
/// observable effect as removing it once.
pub proof fn lemma_device_remove_idempotent(rooms: RoomsView, room: Seq<char>, device: Seq<char>)
    ensures
        spec_device_removed(spec_device_removed(rooms, room, device), room, device)
            == spec_device_removed(rooms, room, device),
{
    if rooms.contains_key(room) {
        let once = spec_device_removed(rooms, room, device);
        assert(once[room].remove(device) =~= once[room]);
        assert(once.insert(room, once[room]) =~= once);
    }
}

/// The index of the room called `name`, when there is one. A found index
/// also ties the home's map reading to that room's device map.
fn find_room(rooms: &Vec<Room>, name: &str) -> (found: Option<usize>)
    requires
        keys_unique(room_pairs(rooms@)),
    ensures
        match found {
            Some(i) => i < rooms@.len() && rooms@[i as int].name@ == name@ && assoc_map(
                room_pairs(rooms@),
            ).contains_key(name@) && assoc_map(room_pairs(rooms@))[name@] == assoc_map(
                device_pairs(rooms@[i as int].devices@),
            ),
            None => !assoc_map(room_pairs(rooms@)).contains_key(name@),
        },
{
    let n = rooms.len();
    let mut i: usize = 0;
    while i < n
        invariant
            i <= n,
            n == rooms@.len(),
            keys_unique(room_pairs(rooms@)),
            forall|j: int| 0 <= j < i ==> rooms@[j].name@ != name@,
        decreases n - i,
    {
        if str_eq(rooms[i].name.as_str(), name) {
            proof {
                lemma_assoc_map_index(room_pairs(rooms@), i as int);
            }
            return Some(i);
        }
        i += 1;
    }
    proof {
        lemma_assoc_map_contains(room_pairs(rooms@), name@);
    }
    None
}

/// The index of the device called `name` in a room's device list, when
/// there is one; a found index also ties the room's map reading to the
/// identifier stored at it.
fn find_device(devices: &Vec<(String, DeviceId)>, name: &str) -> (found: Option<usize>)
    requires
        keys_unique(device_pairs(devices@)),
    ensures
        match found {
            Some(i) => i < devices@.len() && devices@[i as int].0@ == name@ && assoc_map(
                device_pairs(devices@),
            ).contains_key(name@) && assoc_map(device_pairs(devices@))[name@] == devices@[
                i as int
            ].1@,
            None => !assoc_map(device_pairs(devices@)).contains_key(name@),
        },
{
    let n = devices.len();
    let mut i: usize = 0;
    while i < n
        invariant
            i <= n,
            n == devices@.len(),
            keys_unique(device_pairs(devices@)),
            forall|j: int| 0 <= j < i ==> devices@[j].0@ != name@,
        decreases n - i,
    {
        if str_eq(devices[i].0.as_str(), name) {
            proof {
                lemma_assoc_map_index(device_pairs(devices@), i as int);
            }
            return Some(i);
        }
        i += 1;
    }
    proof {
        lemma_assoc_map_contains(device_pairs(devices@), name@);
    }
    None
}

impl Home {
    /// The home's own name, fixed at construction.
    pub closed spec fn name_spec(&self) -> Seq<char> {
        self.name@
    }

    /// Room names are unique in the home, and device names unique within
    /// each room.
    pub closed spec fn wf(&self) -> bool {
        &&& keys_unique(room_pairs(self.rooms@))
        &&& forall|i: int|
            0 <= i < self.rooms@.len() ==> keys_unique(
                device_pairs(#[trigger] self.rooms@[i].devices@),
            )
    }

    /// A home called `name` with no rooms.
    pub fn new(name: String) -> (home: Self)
        ensures
            home.wf(),
            home.name_spec() == name@,
            home@ == Map::<Seq<char>, RoomView>::empty(),
    {
        Self { name, rooms: Vec::new() }
    }

    /// The home's name.
    pub fn get_name(&self) -> (name: String)
        ensures
            name@ == self.name_spec(),
    {
        self.name.clone()
    }

    /// A snapshot of the room names: every registered room exactly once, in
    /// no promised order.
    pub fn room_list(&self) -> (names: Vec<String>)
        requires
            self.wf(),
        ensures
            lists_keys(names@, self@),
    {
        let n = self.rooms.len();
        let mut result: Vec<String> = Vec::new();
        let mut i: usize = 0;
        while i < n
            invariant
                i <= n,
                n == self.rooms@.len(),
                result@.len() == i,
                forall|j: int| 0 <= j < i ==> (#[trigger] result@[j])@ == self.rooms@[j].name@,
            decreases n - i,
        {
            result.push(self.rooms[i].name.clone());
            i += 1;
        }
        proof {
            let pairs = room_pairs(self.rooms@);
            lemma_assoc_map_len(pairs);
            assert forall|k: Seq<char>| #[trigger] self@.contains_key(k) implies exists|i: int|
                0 <= i < result@.len() && (#[trigger] result@[i])@ == k by {
                lemma_assoc_map_contains(pairs, k);
                let i = choose|i: int| 0 <= i < pairs.len() && pairs[i].0 == k;
                assert((result@[i])@ == k);
            }
            assert forall|k: Seq<char>|
                exists|i: int|
                    0 <= i < result@.len() && (#[trigger] result@[i])@
                        == k implies self@.contains_key(k) by {
                let i = choose|i: int| 0 <= i < result@.len() && (#[trigger] result@[i])@ == k;
                assert(pairs[i].0 == k);
                lemma_assoc_map_contains(pairs, k);
            }
            assert forall|p: int, q: int|
                0 <= p < q < result@.len() implies result@[p]@ != result@[q]@ by {
                assert(pairs[p].0 == result@[p]@);
                assert(pairs[q].0 == result@[q]@);
            }
            assert(lists_keys(result@, self@));
        }
        result
    }

    /// Registers a new, empty room. Fails with [`RoomError::Duplicated`]
    /// exactly when a room of this name already exists, and then changes
    /// nothing — in particular the number of rooms stays the same.
    pub fn room_add(&mut self, room_name: &str) -> (result: Result<(), RoomError>)
        requires
            old(self).wf(),
        ensures
            final(self).wf(),
            final(self).name_spec() == old(self).name_spec(),
            old(self)@.contains_key(room_name@) ==> {
                &&& *final(self) == *old(self)
                &&& result matches Err(RoomError::Duplicated(name)) && name@ == room_name@
                &&& final(self)@.dom().len() == old(self)@.dom().len()
            },
            !old(self)@.contains_key(room_name@) ==> {
                &&& result is Ok
                &&& final(self)@ == old(self)@.insert(room_name@, Map::<Seq<char>, (Seq<char>, u8)>::empty())
            },
    {
        match find_room(&self.rooms, room_name) {
            Some(_) => Err(RoomError::Duplicated(room_name.to_owned())),
            None => {
                let ghost old_pairs = room_pairs(self.rooms@);
                let room = Room { name: room_name.to_owned(), devices: Vec::new() };
                self.rooms.push(room);
                proof {
                    lemma_assoc_map_contains(old_pairs, room_name@);
                    assert(room_pairs(self.rooms@) =~= old_pairs.push(
                        (room_name@, Map::<Seq<char>, (Seq<char>, u8)>::empty()),
                    )) by {
                        assert(device_pairs(self.rooms@.last().devices@) =~= Seq::empty());
                    }
                    lemma_assoc_map_push(
                        old_pairs,
                        room_name@,
                        Map::<Seq<char>, (Seq<char>, u8)>::empty(),
                    );
                }
                Ok(())
            },
        }
    }

    /// Drops a room and everything registered under it. Removing an absent
    /// room is a no-op; either way the name is no longer registered
    /// afterwards. No identifier registry is notified: identifiers issued
    /// for the dropped devices simply become unresolvable.
    pub fn room_remove(&mut self, room_name: &str)
        requires
            old(self).wf(),
        ensures
            final(self).wf(),
            final(self).name_spec() == old(self).name_spec(),
            final(self)@ == old(self)@.remove(room_name@),
            !final(self)@.contains_key(room_name@),
    {
        match find_room(&self.rooms, room_name) {
            None => {
                proof {
                    assert(old(self)@.remove(room_name@) =~= old(self)@);
                }
            },
            Some(i) => {
                let ghost old_rooms = self.rooms@;
                let ghost old_pairs = room_pairs(old_rooms);
                self.rooms.remove(i);
                proof {
                    assert(room_pairs(self.rooms@) =~= old_pairs.remove(i as int));
                    lemma_assoc_map_remove(old_pairs, i as int);
                    assert(keys_unique(room_pairs(self.rooms@)));
                    assert forall|j: int|
                        0 <= j < self.rooms@.len() implies keys_unique(
                        device_pairs(#[trigger] self.rooms@[j].devices@),
                    ) by {
                        if j < i {
                            assert(self.rooms@[j] == old_rooms[j]);
                        } else {
                            assert(self.rooms@[j] == old_rooms[j + 1]);
                        }
                    }
                }
            },
        }
    }

    /// The device names registered in a room: each exactly once, in no
    /// promised order. Fails with [`RoomError::NoRoom`] exactly when the
    /// room does not exist.
    pub fn device_list(&self, room_name: &str) -> (result: Result<Vec<String>, RoomError>)
        requires
            self.wf(),
        ensures
            result is Ok <==> self@.contains_key(room_name@),
            result matches Ok(names) ==> lists_keys(names@, self@[room_name@]),
            result matches Err(error) ==> (error matches RoomError::NoRoom(name) && name@
                == room_name@),
    {
        match find_room(&self.rooms, room_name) {
            None => Err(RoomError::NoRoom(room_name.to_owned())),
            Some(i) => {
                let devices = &self.rooms[i].devices;
                let n = devices.len();
                let mut result: Vec<String> = Vec::new();
                let mut j: usize = 0;
                while j < n
                    invariant
                        j <= n,
                        n == devices@.len(),
                        result@.len() == j,
                        forall|p: int| 0 <= p < j ==> (#[trigger] result@[p])@ == devices@[p].0@,
                    decreases n - j,
                {
                    result.push(devices[j].0.clone());
                    j += 1;
                }
                proof {
                    let pairs = device_pairs(devices@);
                    lemma_assoc_map_len(pairs);
                    assert forall|k: Seq<char>|
                        #[trigger] self@[room_name@].contains_key(k) implies exists|i: int|
                        0 <= i < result@.len() && (#[trigger] result@[i])@ == k by {
                        lemma_assoc_map_contains(pairs, k);
                        let p = choose|p: int| 0 <= p < pairs.len() && pairs[p].0 == k;
                        assert((result@[p])@ == k);
                    }
                    assert forall|k: Seq<char>|
                        exists|i: int|
                            0 <= i < result@.len() && (#[trigger] result@[i])@
                                == k implies self@[room_name@].contains_key(k) by {
                        let p = choose|p: int|
                            0 <= p < result@.len() && (#[trigger] result@[p])@ == k;
                        assert(pairs[p].0 == k);
                        lemma_assoc_map_contains(pairs, k);
                    }
                    assert forall|p: int, q: int|
                        0 <= p < q < result@.len() implies result@[p]@ != result@[q]@ by {
                        assert(pairs[p].0 == result@[p]@);
                        assert(pairs[q].0 == result@[q]@);
                    }
                    assert(lists_keys(result@, self@[room_name@]));
                }
                Ok(result)
            },
        }
    }

    /// Registers `device_id` in a room under `device_name`. Fails with
    /// [`DeviceError::NoRoom`] exactly when the room does not exist, and
    /// with [`DeviceError::DeviceDuplicated`] exactly when the room already
    /// has a device of this name; a failure changes nothing. On success the
    /// name appears in the room, mapped to the identifier.
    pub fn device_add(&mut self, room_name: &str, device_name: &str, device_id: DeviceId) -> (result:
        Result<(), DeviceError>)
        requires
            old(self).wf(),
        ensures
            final(self).wf(),
            final(self).name_spec() == old(self).name_spec(),
            !old(self)@.contains_key(room_name@) ==> {
                &&& *final(self) == *old(self)
                &&& result matches Err(DeviceError::NoRoom(name)) && name@ == room_name@
            },
            old(self)@.contains_key(room_name@) && old(self)@[room_name@].contains_key(
                device_name@,
            ) ==> {
                &&& *final(self) == *old(self)
                &&& result matches Err(DeviceError::DeviceDuplicated(room, device)) && room@
                    == room_name@ && device@ == device_name@
            },
            old(self)@.contains_key(room_name@) && !old(self)@[room_name@].contains_key(
                device_name@,
            ) ==> {
                &&& result is Ok
                &&& final(self)@ == old(self)@.insert(
                    room_name@,
                    old(self)@[room_name@].insert(device_name@, device_id@),
                )
                &&& final(self)@[room_name@].contains_key(device_name@)
            },
    {
        match find_room(&self.rooms, room_name) {
            None => Err(DeviceError::NoRoom(room_name.to_owned())),
            Some(i) => {
                match find_device(&self.rooms[i].devices, device_name) {
                    Some(_) => Err(
                        DeviceError::DeviceDuplicated(room_name.to_owned(), device_name.to_owned()),
                    ),
                    None => {
                        let ghost old_rooms = self.rooms@;
                        let ghost old_pairs = room_pairs(old_rooms);
                        let ghost old_devices = old_rooms[i as int].devices@;
                        let ghost old_devmap = assoc_map(device_pairs(old_devices));
                        let ghost id_view = device_id@;
                        self.rooms[i].devices.push((device_name.to_owned(), device_id));
                        proof {
                            let new_rooms = self.rooms@;
                            let new_devmap = old_devmap.insert(device_name@, id_view);
                            lemma_assoc_map_contains(device_pairs(old_devices), device_name@);
                            assert(device_pairs(new_rooms[i as int].devices@) =~= device_pairs(
                                old_devices,
                            ).push((device_name@, id_view)));
                            lemma_assoc_map_push(device_pairs(old_devices), device_name@, id_view);
                            assert(keys_unique(device_pairs(new_rooms[i as int].devices@)));
                            assert(room_pairs(new_rooms) =~= old_pairs.update(
                                i as int,
                                (room_name@, new_devmap),
                            ));
                            lemma_assoc_map_update(old_pairs, i as int, new_devmap);
                            assert(keys_unique(room_pairs(new_rooms)));
                            assert forall|j: int| 0 <= j < new_rooms.len() implies keys_unique(
                                device_pairs(#[trigger] new_rooms[j].devices@),
                            ) by {
                                if j != i {
                                    assert(new_rooms[j] == old_rooms[j]);
                                }
                            }
                        }
                        Ok(())
                    },
                }
            },
        }
    }

    /// Unregisters a device name from a room. Removing from an absent room,
    /// or removing an absent device, is a no-op, never an error; afterwards
    /// the room — if it exists — no longer lists the name.
    pub fn device_remove(&mut self, room_name: &str, device_name: &str)
        requires
            old(self).wf(),
        ensures
            final(self).wf(),
            final(self).name_spec() == old(self).name_spec(),
            final(self)@ == spec_device_removed(old(self)@, room_name@, device_name@),
            final(self)@.contains_key(room_name@) ==> !final(self)@[room_name@].contains_key(
                device_name@,
            ),
    {
        match find_room(&self.rooms, room_name) {
            None => {},
            Some(i) => {
                match find_device(&self.rooms[i].devices, device_name) {
                    None => {
                        proof {
                            assert(old(self)@[room_name@].remove(device_name@) =~= old(
                                self,
                            )@[room_name@]);
                            assert(old(self)@.insert(room_name@, old(self)@[room_name@]) =~= old(
                                self,
                            )@);
                        }
                    },
                    Some(j) => {
                        let ghost old_rooms = self.rooms@;
                        let ghost old_pairs = room_pairs(old_rooms);
                        let ghost old_devices = old_rooms[i as int].devices@;
                        let ghost old_devmap = assoc_map(device_pairs(old_devices));
                        self.rooms[i].devices.remove(j);
                        proof {
                            let new_rooms = self.rooms@;
                            let new_devmap = old_devmap.remove(device_name@);
                            assert(device_pairs(new_rooms[i as int].devices@) =~= device_pairs(
                                old_devices,
                            ).remove(j as int));
                            lemma_assoc_map_remove(device_pairs(old_devices), j as int);
                            assert(keys_unique(device_pairs(new_rooms[i as int].devices@)));
                            assert(room_pairs(new_rooms) =~= old_pairs.update(
                                i as int,
                                (room_name@, new_devmap),
                            ));
                            lemma_assoc_map_update(old_pairs, i as int, new_devmap);
                            assert(keys_unique(room_pairs(new_rooms)));
                            assert forall|p: int| 0 <= p < new_rooms.len() implies keys_unique(
                                device_pairs(#[trigger] new_rooms[p].devices@),
                            ) by {
                                if p != i {
                                    assert(new_rooms[p] == old_rooms[p]);
                                }
                            }
                        }
                    },
                }
            },
        }
    }
}

/// One report query: a room name and a device name to look up in it. It is
/// read-only and never stored.
pub struct ReportParam {
    pub room_name: String,
    pub device_name: String,
}

impl View for ReportParam {
    type V = (Seq<char>, Seq<char>);

    open spec fn view(&self) -> (Seq<char>, Seq<char>) {
        (self.room_name@, self.device_name@)
    }
}

/// The views of a report request's queries, in order.
pub open spec fn queries_view(params: Seq<ReportParam>) -> Seq<(Seq<char>, Seq<char>)> {
    Seq::new(params.len(), |i: int| params[i]@)
}

/// The line reporting that a listed identifier no longer resolves: it names
/// the dangling handle, its claimed category, and the device name under
/// which the home still lists it.
pub open spec fn desync_line(device: Seq<char>, id: (Seq<char>, u8)) -> Seq<char> {
    "- рассинхронизация данных: устройство с идентификатором "@ + u8_dec(id.1)
        + " не зарегистрировано среди "@ + id.0 + ", но числиться как "@ + device + "\n"@
}

/// The report block for one query, by the first case that applies: the room
/// is absent from the home; the device name is not registered in the room;
/// the registered identifier does not resolve; or the device's status as
/// the provider returns it.
pub open spec fn report_line<P: DeviceInfoProvider>(
    rooms: RoomsView,
    provider: &P,
    room: Seq<char>,
    device: Seq<char>,
) -> Seq<char> {
    if !rooms.contains_key(room) {
        room + ":"@ + " нет в доме\n"@
    } else if !rooms[room].contains_key(device) {
        room + ":"@ + "\n"@ + "- "@ + device + ": не зарегистрировано"@
    } else {
        let id = rooms[room][device];
        match provider.resolves(id.0, id.1) {
            None => room + ":"@ + "\n"@ + desync_line(device, id),
            Some(status) => room + ":"@ + "\n"@ + "- "@ + device + ": "@ + status + "\n"@,
        }
    }
}

/// The whole report: the blocks of all queries, in query order, with no
/// sorting, deduplication or aggregation.
pub open spec fn report_text<P: DeviceInfoProvider>(
    rooms: RoomsView,
    provider: &P,
    queries: Seq<(Seq<char>, Seq<char>)>,
) -> Seq<char>
    decreases queries.len(),
{
    if queries.len() == 0 {
        Seq::empty()
    } else {
        report_text(rooms, provider, queries.drop_last()) + report_line(
            rooms,
            provider,
            queries.last().0,
            queries.last().1,
        )
    }
}

impl Home {
    /// Renders one status block per query, strictly in input order. The
    /// text is a function of the registry, the provider's resolutions and
    /// the queries alone, so equal states and queries give byte-identical
    /// reports.
    pub fn report<P: DeviceInfoProvider>(&self, filter: &[ReportParam], provider: &P) -> (text:
        String)
        requires
            self.wf(),
        ensures
            text@ == report_text(self@, provider, queries_view(filter@)),
    {
        let ghost qs = queries_view(filter@);
        let mut builder = builder_new();
        let n = filter.len();
        let mut i: usize = 0;
        proof {
            assert(qs.take(0) =~= Seq::empty());
        }
        while i < n
            invariant
                i <= n,
                n == filter@.len(),
                self.wf(),
                qs == queries_view(filter@),
                builder_utf8(builder),
                builder_chars(builder) == report_text(self@, provider, qs.take(i as int)),
            decreases n - i,
        {
            let ghost prev = builder_chars(builder);
            let param = &filter[i];
            builder_append(&mut builder, param.room_name.as_str());
            builder_append(&mut builder, ":");
            match find_room(&self.rooms, param.room_name.as_str()) {
                None => {
                    builder_append(&mut builder, " нет в доме\n");
                },
                Some(r) => {
                    builder_append(&mut builder, "\n");
                    match find_device(&self.rooms[r].devices, param.device_name.as_str()) {
                        None => {
                            builder_append(&mut builder, "- ");
                            builder_append(&mut builder, param.device_name.as_str());
                            builder_append(&mut builder, ": не зарегистрировано");
                        },
                        Some(d) => {
                            let id = &self.rooms[r].devices[d].1;
                            match provider.get_info(id) {
                                Some(status) => {
                                    builder_append(&mut builder, "- ");
                                    builder_append(&mut builder, param.device_name.as_str());
                                    builder_append(&mut builder, ": ");
                                    builder_append(&mut builder, status.as_str());
                                    builder_append(&mut builder, "\n");
                                },
                                None => {
                                    builder_append(
                                        &mut builder,
                                        "- рассинхронизация данных: устройство с идентификатором ",
                                    );
                                    let handle = u8_to_string(id.1);
                                    builder_append(&mut builder, handle.as_str());
                                    builder_append(&mut builder, " не зарегистрировано среди ");
                                    builder_append(&mut builder, id.0.as_str());
                                    builder_append(&mut builder, ", но числиться как ");
                                    builder_append(&mut builder, param.device_name.as_str());
                                    builder_append(&mut builder, "\n");
                                },
                            }
                        },
                    }
                },
            }
            proof {
                assert(builder_chars(builder) =~= prev + report_line(
                    self@,
                    provider,
                    qs[i as int].0,
                    qs[i as int].1,
                ));
                assert(qs.take(i as int + 1).drop_last() =~= qs.take(i as int));
                assert(qs.take(i as int + 1).last() == qs[i as int]);
            }
            i += 1;
        }
        proof {
            assert(qs.take(n as int) =~= qs);
        }
        builder_string(builder)
    }
}

} // verus!

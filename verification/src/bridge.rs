//! The sessions of all receivers that are connected.

use crate::outside;
use crate::session::{AirPlayDevice, AudioCommand};
use crate::text;
use vstd::prelude::*;
use vstd::slice::*;
use vstd::string::*;

verus! {

/// A session that is ready for audio, and the way to send it commands.
pub struct SessionInfo<T> {
    pub device_id: String,
    pub device_name: String,
    pub audio_tx: T,
}

/// Whether one of the sessions is with this device.
pub open spec fn is_among<T>(infos: Seq<SessionInfo<T>>, id: Seq<char>) -> bool {
    exists|i: int| 0 <= i < infos.len() && (#[trigger] infos[i]).device_id@ == id
}

/// Whether no two of the sessions are with the same device.
pub open spec fn no_device_twice<T>(infos: Seq<SessionInfo<T>>) -> bool {
    forall|i: int, j: int|
        0 <= i < j < infos.len() ==> (#[trigger] infos[i]).device_id@ != (
        #[trigger] infos[j]).device_id@
}

/// The sessions by device.
pub open spec fn by_device<T>(infos: Seq<SessionInfo<T>>) -> Map<Seq<char>, SessionInfo<T>> {
    Map::new(
        |id: Seq<char>| is_among(infos, id),
        |id: Seq<char>|
            infos[choose|i: int|
                0 <= i < infos.len() && (#[trigger] infos[i]).device_id@ == id],
    )
}

/// Whether `infos` are the sessions of `m`, each once, in whatever order.
pub open spec fn lists<T>(infos: Seq<SessionInfo<T>>, m: Map<Seq<char>, SessionInfo<T>>) -> bool {
    no_device_twice(infos) && by_device(infos) == m
}

/// Whether `ids` are the members of `s`, each once, in whatever order.
pub open spec fn lists_ids(ids: Seq<Seq<char>>, s: Set<Seq<char>>) -> bool {
    ids.no_duplicates() && ids.to_set() == s
}

/// The sessions with one taken in: an earlier one with the same device is dropped.
pub open spec fn with_session<T>(
    m: Map<Seq<char>, SessionInfo<T>>,
    info: SessionInfo<T>,
) -> Map<Seq<char>, SessionInfo<T>> {
    m.insert(info.device_id@, info)
}

/// The sessions without that of a device.
pub open spec fn without_session<T>(
    m: Map<Seq<char>, SessionInfo<T>>,
    id: Seq<char>,
) -> Map<Seq<char>, SessionInfo<T>> {
    m.remove(id)
}

/// The session of a device.
pub open spec fn session_of<T>(
    m: Map<Seq<char>, SessionInfo<T>>,
    id: Seq<char>,
) -> Option<SessionInfo<T>> {
    if m.dom().contains(id) {
        Some(m[id])
    } else {
        None
    }
}

/// Whether a receiver is what was asked for: a port is taken by its low 16 bits, and only 1 says
/// that the receiver knows AirPlay 2.
pub open spec fn is_receiver(
    device: AirPlayDevice,
    id: Seq<char>,
    name: Seq<char>,
    address: Seq<char>,
    port: i32,
    supports_airplay2: u8,
) -> bool {
    &&& device.id@ == id
    &&& device.name@ == name
    &&& device.address@ == address
    &&& device.port == (port as int) % 0x1_0000
    &&& device.supports_airplay2 == (supports_airplay2 == 1)
}

/// Whether a command is to play PCM. A rate and a number of channels are taken by their bits.
pub open spec fn plays(
    command: AudioCommand,
    data: Seq<u8>,
    sample_rate: i32,
    channels: i32,
) -> bool {
    &&& command matches AudioCommand::SendAudio { data: d, sample_rate: s, channels: c }
    &&& d@ == data
    &&& s == (sample_rate as int) % 0x1_0000_0000
    &&& c == (channels as int) % 0x1_0000_0000
}

/// The sessions of all receivers that are connected, at most one with each.
pub struct AirPlayBridge<T> {
    sessions: Vec<SessionInfo<T>>,
    discovery_running: bool,
}

impl<T> View for AirPlayBridge<T> {
    type V = Map<Seq<char>, SessionInfo<T>>;

    closed spec fn view(&self) -> Map<Seq<char>, SessionInfo<T>> {
        by_device(self.sessions@)
    }
}

/// Where no device occurs twice, its session is where it stands.
proof fn lemma_by_device<T>(infos: Seq<SessionInfo<T>>, i: int)
    requires
        no_device_twice(infos),
        0 <= i < infos.len(),
    ensures
        by_device(infos).dom().contains(infos[i].device_id@),
        by_device(infos)[infos[i].device_id@] == infos[i],
{
    let id = infos[i].device_id@;
    assert(is_among(infos, id));
    let j = choose|j: int| 0 <= j < infos.len() && (#[trigger] infos[j]).device_id@ == id;
    assert(i == j);
}

impl<T> AirPlayBridge<T> {
    /// No device has two sessions.
    pub closed spec fn wf(&self) -> bool {
        no_device_twice(self.sessions@)
    }

    /// Whether receivers are being looked for.
    pub closed spec fn discovering(&self) -> bool {
        self.discovery_running
    }

    /// No sessions.
    pub fn new() -> (r: Self)
        ensures
            r.wf(),
            r@ == Map::<Seq<char>, SessionInfo<T>>::empty(),
            !r.discovering(),
    {
        let r: AirPlayBridge<T> = AirPlayBridge { sessions: Vec::new(), discovery_running: false };
        assert(r@ =~= Map::<Seq<char>, SessionInfo<T>>::empty());
        r
    }

    /// The sessions.
    pub fn sessions(&self) -> (r: &[SessionInfo<T>])
        requires
            self.wf(),
        ensures
            lists(r@, self@),
    {
        self.sessions.as_slice()
    }

    /// Whether receivers are being looked for.
    pub fn discovery_running(&self) -> (r: bool)
        ensures
            r == self.discovering(),
    {
        self.discovery_running
    }

    /// Whether any device is connected.
    pub fn is_connected(&self) -> (r: bool)
        requires
            self.wf(),
        ensures
            r <==> self@ != Map::<Seq<char>, SessionInfo<T>>::empty(),
    {
        let r: bool = self.sessions.len() > 0;
        proof {
            if r {
                lemma_by_device(self.sessions@, 0);
            } else {
                assert(self@ =~= Map::<Seq<char>, SessionInfo<T>>::empty());
            }
        }
        r
    }

    /// The devices that are connected, each once.
    pub fn connected_device_ids(&self) -> (r: Vec<String>)
        requires
            self.wf(),
        ensures
            lists_ids(outside::texts(r@), self@.dom()),
    {
        let mut r: Vec<String> = Vec::new();
        let mut i: usize = 0;
        while i < self.sessions.len()
            invariant
                i <= self.sessions@.len(),
                r@.len() == i,
                forall|j: int| 0 <= j < i ==> (#[trigger] r@[j])@ == self.sessions@[j].device_id@,
            decreases self.sessions@.len() - i,
        {
            let id: String = String::from_str(self.sessions[i].device_id.as_str());
            r.push(id);
            i = i + 1;
        }
        proof {
            let ids = outside::texts(r@);
            assert forall|a: int, b: int|
                0 <= a < ids.len() && 0 <= b < ids.len() && a != b implies ids[a] != ids[b] by {
                assert(self.sessions@[a].device_id@ != self.sessions@[b].device_id@);
            }
            assert forall|id: Seq<char>| ids.to_set().contains(id) <==> self@.dom().contains(
                id,
            ) by {
                if ids.contains(id) {
                    let k = ids.index_of(id);
                    lemma_by_device(self.sessions@, k);
                }
                if is_among(self.sessions@, id) {
                    let k = choose|k: int|
                        0 <= k < self.sessions@.len() && (
                        #[trigger] self.sessions@[k]).device_id@ == id;
                    assert(ids[k] == id);
                }
            }
            assert(ids.to_set() =~= self@.dom());
        }
        r
    }

    /// The place of a device's session.
    fn position(&self, device_id: &str) -> (r: Option<usize>)
        ensures
            match r {
                Some(i) => i < self.sessions@.len() && self.sessions@[i as int].device_id@
                    == device_id@,
                None => !is_among(self.sessions@, device_id@),
            },
    {
        let mut i: usize = 0;
        while i < self.sessions.len()
            invariant
                i <= self.sessions@.len(),
                forall|j: int|
                    0 <= j < i ==> (#[trigger] self.sessions@[j]).device_id@ != device_id@,
            decreases self.sessions@.len() - i,
        {
            if same_text(self.sessions[i].device_id.as_str(), device_id) {
                return Some(i);
            }
            i = i + 1;
        }
        None
    }

    /// Whether a device is connected.
    pub fn is_device_connected(&self, device_id: &str) -> (r: bool)
        requires
            self.wf(),
        ensures
            r == self@.dom().contains(device_id@),
    {
        self.position(device_id).is_some()
    }

    /// The receiver to start a session with; none where the device is connected already. A port is
    /// taken by its low 16 bits, and only 1 says that the receiver knows AirPlay 2.
    pub fn connect(
        &self,
        device_id: String,
        device_name: String,
        address: String,
        port: i32,
        supports_airplay2: u8,
    ) -> (r: Option<AirPlayDevice>)
        requires
            self.wf(),
        ensures
            r is None <==> self@.dom().contains(device_id@),
            r matches Some(device) ==> {
                &&& is_receiver(
                    device,
                    device_id@,
                    device_name@,
                    address@,
                    port,
                    supports_airplay2,
                )
                &&& 0 <= port <= 65535 ==> device.port == port
            },
    {
        if self.is_device_connected(device_id.as_str()) {
            return None;
        }
        assert(#[verifier::truncate] (port as u16) == (port as int) % 0x1_0000) by (bit_vector);
        Some(
            AirPlayDevice {
                id: device_id,
                name: device_name,
                address,
                port: #[verifier::truncate] (port as u16),
                supports_airplay2: supports_airplay2 == 1,
            },
        )
    }

    /// Takes in a session that is ready for audio. An earlier one with the same device is dropped.
    pub fn register(&mut self, info: SessionInfo<T>)
        requires
            old(self).wf(),
        ensures
            final(self).wf(),
            final(self)@ == with_session(old(self)@, info),
            final(self).discovering() == old(self).discovering(),
    {
        let ghost before = self.sessions@;
        match self.position(info.device_id.as_str()) {
            Some(i) => {
                self.sessions.set(i, info);
                proof {
                    lemma_replaced(before, i as int, info);
                }
            },
            None => {
                self.sessions.push(info);
                proof {
                    lemma_pushed(before, info);
                }
            },
        }
    }

    /// Takes out the session with a device.
    pub fn remove(&mut self, device_id: &str) -> (r: Option<SessionInfo<T>>)
        requires
            old(self).wf(),
        ensures
            final(self).wf(),
            final(self)@ == without_session(old(self)@, device_id@),
            r == session_of(old(self)@, device_id@),
            final(self).discovering() == old(self).discovering(),
    {
        let ghost before = self.sessions@;
        match self.position(device_id) {
            Some(i) => {
                let info: SessionInfo<T> = self.sessions.remove(i);
                proof {
                    lemma_by_device(before, i as int);
                    lemma_removed(before, i as int);
                }
                Some(info)
            },
            None => {
                assert(self@ =~= old(self)@.remove(device_id@));
                None
            },
        }
    }

    /// Takes out all sessions.
    pub fn take_all(&mut self) -> (r: Vec<SessionInfo<T>>)
        requires
            old(self).wf(),
        ensures
            final(self).wf(),
            final(self)@ == Map::<Seq<char>, SessionInfo<T>>::empty(),
            lists(r@, old(self)@),
            final(self).discovering() == old(self).discovering(),
    {
        let mut r: Vec<SessionInfo<T>> = Vec::new();
        std::mem::swap(&mut r, &mut self.sessions);
        assert(self@ =~= Map::<Seq<char>, SessionInfo<T>>::empty());
        r
    }

    /// Takes out all sessions, and stops looking for receivers.
    pub fn destroy(&mut self) -> (r: Vec<SessionInfo<T>>)
        requires
            old(self).wf(),
        ensures
            final(self).wf(),
            final(self)@ == Map::<Seq<char>, SessionInfo<T>>::empty(),
            lists(r@, old(self)@),
            !final(self).discovering(),
    {
        let r: Vec<SessionInfo<T>> = self.take_all();
        self.discovery_running = false;
        r
    }

    /// The devices that are connected, as a JSON array.
    pub fn connected_devices_json(&self) -> (r: String)
        requires
            self.wf(),
        ensures
            exists|ids: Seq<Seq<char>>|
                lists_ids(ids, self@.dom()) && r@ == #[trigger] outside::json_array(ids),
    {
        let ids: Vec<String> = self.connected_device_ids();
        ids_json(&ids)
    }
}

/// With a session in place of another with the same device, it is the device's.
proof fn lemma_replaced<T>(infos: Seq<SessionInfo<T>>, i: int, info: SessionInfo<T>)
    requires
        no_device_twice(infos),
        0 <= i < infos.len(),
        infos[i].device_id@ == info.device_id@,
    ensures
        no_device_twice(infos.update(i, info)),
        by_device(infos.update(i, info)) == by_device(infos).insert(info.device_id@, info),
{
    let after = infos.update(i, info);
    lemma_by_device(after, i);
    assert forall|id: Seq<char>| is_among(after, id) <==> is_among(infos, id) || id
        == info.device_id@ by {
        if is_among(infos, id) {
            let j = choose|j: int| 0 <= j < infos.len() && (#[trigger] infos[j]).device_id@ == id;
            assert(after[j].device_id@ == id);
        }
        if is_among(after, id) {
            let j = choose|j: int| 0 <= j < after.len() && (#[trigger] after[j]).device_id@ == id;
            assert(infos[j].device_id@ == id);
        }
    }
    assert forall|id: Seq<char>| is_among(after, id) && id != info.device_id@ implies by_device(
        after,
    )[id] == by_device(infos)[id] by {
        let j = choose|j: int| 0 <= j < after.len() && (#[trigger] after[j]).device_id@ == id;
        lemma_by_device(after, j);
        lemma_by_device(infos, j);
    }
    assert(by_device(after) =~= by_device(infos).insert(info.device_id@, info));
}

/// With a session with a new device added, it is the device's.
proof fn lemma_pushed<T>(infos: Seq<SessionInfo<T>>, info: SessionInfo<T>)
    requires
        no_device_twice(infos),
        !is_among(infos, info.device_id@),
    ensures
        no_device_twice(infos.push(info)),
        by_device(infos.push(info)) == by_device(infos).insert(info.device_id@, info),
{
    let after = infos.push(info);
    assert forall|i: int, j: int| 0 <= i < j < after.len() implies (
    #[trigger] after[i]).device_id@ != (#[trigger] after[j]).device_id@ by {
        assert(after[i] == infos[i]);
        if j < infos.len() {
            assert(after[j] == infos[j]);
        }
    }
    lemma_by_device(after, infos.len() as int);
    assert forall|id: Seq<char>| is_among(after, id) <==> is_among(infos, id) || id
        == info.device_id@ by {
        if is_among(infos, id) {
            let j = choose|j: int| 0 <= j < infos.len() && (#[trigger] infos[j]).device_id@ == id;
            assert(after[j].device_id@ == id);
        }
        if is_among(after, id) {
            let j = choose|j: int| 0 <= j < after.len() && (#[trigger] after[j]).device_id@ == id;
            if j < infos.len() {
                assert(infos[j].device_id@ == id);
            }
        }
    }
    assert forall|id: Seq<char>| is_among(infos, id) implies by_device(after)[id] == by_device(
        infos,
    )[id] by {
        let j = choose|j: int| 0 <= j < infos.len() && (#[trigger] infos[j]).device_id@ == id;
        lemma_by_device(infos, j);
        assert(after[j] == infos[j]);
        lemma_by_device(after, j);
    }
    assert(by_device(after) =~= by_device(infos).insert(info.device_id@, info));
}

/// Without the session at a place, its device has none.
proof fn lemma_removed<T>(infos: Seq<SessionInfo<T>>, i: int)
    requires
        no_device_twice(infos),
        0 <= i < infos.len(),
    ensures
        no_device_twice(infos.remove(i)),
        by_device(infos.remove(i)) == by_device(infos).remove(infos[i].device_id@),
{
    let after = infos.remove(i);
    let gone = infos[i].device_id@;
    assert forall|a: int, b: int| 0 <= a < b < after.len() implies (
    #[trigger] after[a]).device_id@ != (#[trigger] after[b]).device_id@ by {
        let c = if a < i {
            a
        } else {
            a + 1
        };
        let d = if b < i {
            b
        } else {
            b + 1
        };
        assert(after[a] == infos[c] && after[b] == infos[d]);
    }
    assert forall|id: Seq<char>| is_among(after, id) <==> is_among(infos, id) && id != gone by {
        if is_among(infos, id) && id != gone {
            let j = choose|j: int| 0 <= j < infos.len() && (#[trigger] infos[j]).device_id@ == id;
            let k = if j < i {
                j
            } else {
                j - 1
            };
            assert(after[k] == infos[j]);
        }
        if is_among(after, id) {
            let k = choose|k: int| 0 <= k < after.len() && (#[trigger] after[k]).device_id@ == id;
            let j = if k < i {
                k
            } else {
                k + 1
            };
            assert(after[k] == infos[j]);
        }
    }
    assert forall|id: Seq<char>| is_among(after, id) implies by_device(after)[id] == by_device(
        infos,
    )[id] by {
        let k = choose|k: int| 0 <= k < after.len() && (#[trigger] after[k]).device_id@ == id;
        let j = if k < i {
            k
        } else {
            k + 1
        };
        assert(after[k] == infos[j]);
        lemma_by_device(infos, j);
        lemma_by_device(after, k);
    }
    assert(by_device(after) =~= by_device(infos).remove(gone));
}

/// Whether two texts are the same.
fn same_text(a: &str, b: &str) -> (r: bool)
    ensures
        r == (a@ == b@),
{
    let x: Vec<char> = text::chars_of(a);
    let y: Vec<char> = text::chars_of(b);
    let r: bool = x.len() == y.len() && text::has_prefix(x.as_slice(), y.as_slice());
    assert(x@.take(x@.len() as int) == x@);
    r
}

/// Texts as a JSON array.
pub fn ids_json(ids: &Vec<String>) -> (r: String)
    ensures
        r@ == outside::json_array(outside::texts(ids@)),
{
    match outside::json_of_texts(ids) {
        Ok(json) => json,
        Err(_) => String::from_str("[]"),
    }
}

/// The command to play PCM. A rate and a number of channels are taken by their bits.
pub fn audio_command(data: &[u8], sample_rate: i32, channels: i32) -> (r: AudioCommand)
    ensures
        plays(r, data@, sample_rate, channels),
{
    assert(#[verifier::truncate] (sample_rate as u32) == (sample_rate as int) % 0x1_0000_0000)
        by (bit_vector);
    assert(#[verifier::truncate] (channels as u32) == (channels as int) % 0x1_0000_0000)
        by (bit_vector);
    AudioCommand::SendAudio {
        data: slice_to_vec(data),
        sample_rate: #[verifier::truncate] (sample_rate as u32),
        channels: #[verifier::truncate] (channels as u32),
    }
}

/// Whether a command has reached any session.
pub fn any_delivered(delivered: &[bool]) -> (r: bool)
    ensures
        r <==> delivered@.contains(true),
{
    let mut i: usize = 0;
    while i < delivered.len()
        invariant
            i <= delivered@.len(),
            forall|j: int| 0 <= j < i ==> !#[trigger] delivered@[j],
        decreases delivered@.len() - i,
    {
        if delivered[i] {
            return true;
        }
        i = i + 1;
    }
    false
}

/// A session that has been taken in is its device's, and all other devices are as they were.
pub proof fn law_registered_is_connected<T>(
    m: Map<Seq<char>, SessionInfo<T>>,
    info: SessionInfo<T>,
    other: Seq<char>,
)
    ensures
        ({
            let after = with_session(m, info);
            &&& after.dom().contains(info.device_id@)
            &&& session_of(after, info.device_id@) == Some(info)
            &&& after != Map::<Seq<char>, SessionInfo<T>>::empty()
            &&& other != info.device_id@ ==> session_of(after, other) == session_of(m, other)
            &&& other != info.device_id@ ==> after.dom().contains(other) == m.dom().contains(other)
        }),
{
    assert(with_session(m, info).dom().contains(info.device_id@));
}

/// A device whose session has been taken out is not connected, however often it is taken out, and
/// all other devices are as they were.
pub proof fn law_removed_is_not_connected<T>(
    m: Map<Seq<char>, SessionInfo<T>>,
    id: Seq<char>,
    other: Seq<char>,
)
    ensures
        ({
            let after = without_session(m, id);
            &&& !after.dom().contains(id)
            &&& session_of(after, id) is None
            &&& without_session(after, id) == after
            &&& other != id ==> session_of(after, other) == session_of(m, other)
            &&& other != id ==> after.dom().contains(other) == m.dom().contains(other)
        }),
{
    assert(without_session(without_session(m, id), id) =~= without_session(m, id));
}

/// A device is connected where it has a session, and that is the one that is taken out.
pub proof fn law_session_of_device<T>(m: Map<Seq<char>, SessionInfo<T>>, id: Seq<char>)
    ensures
        m.dom().contains(id) ==> session_of(m, id) == Some(m[id]),
        !m.dom().contains(id) ==> session_of(m, id) is None,
{
}

/// Taking a session out undoes taking it in.
pub proof fn law_remove_undoes_register<T>(
    m: Map<Seq<char>, SessionInfo<T>>,
    info: SessionInfo<T>,
)
    requires
        !m.dom().contains(info.device_id@),
    ensures
        without_session(with_session(m, info), info.device_id@) == m,
{
    assert(without_session(with_session(m, info), info.device_id@) =~= m);
}

/// A port that is one is taken as it is, and any other number by what it is modulo 65536; only a flag
/// of 1 says that the receiver knows AirPlay 2; the texts are those given.
pub proof fn law_receiver_as_asked(
    device: AirPlayDevice,
    id: Seq<char>,
    name: Seq<char>,
    address: Seq<char>,
    port: i32,
    supports_airplay2: u8,
)
    requires
        is_receiver(device, id, name, address, port, supports_airplay2),
    ensures
        0 <= port <= 65535 ==> device.port == port,
        (device.port - port) % 65536 == 0,
        device.supports_airplay2 <==> supports_airplay2 == 1,
        device.id@ == id && device.name@ == name && device.address@ == address,
{
}

/// A command to play hands on the bytes that it was given; a rate and a number of channels that are
/// not negative as they are, and any other by what it is modulo 2^32.
pub proof fn law_plays_what_it_was_given(
    command: AudioCommand,
    data: Seq<u8>,
    sample_rate: i32,
    channels: i32,
)
    requires
        plays(command, data, sample_rate, channels),
    ensures
        command is SendAudio,
        command->data@ == data,
        sample_rate >= 0 ==> command->sample_rate == sample_rate,
        channels >= 0 ==> command->channels == channels,
        (command->sample_rate - sample_rate) % 0x1_0000_0000 == 0,
        (command->channels - channels) % 0x1_0000_0000 == 0,
{
}

/// Each device that is connected has one session, and no more, among those listed: a command that
/// goes to each session goes to each device once.
pub proof fn law_one_session_each<T>(
    infos: Seq<SessionInfo<T>>,
    m: Map<Seq<char>, SessionInfo<T>>,
    id: Seq<char>,
)
    requires
        lists(infos, m),
        m.dom().contains(id),
    ensures
        exists|i: int|
            {
                &&& 0 <= i < infos.len()
                &&& #[trigger] infos[i] == m[id]
                &&& infos[i].device_id@ == id
                &&& forall|j: int|
                    0 <= j < infos.len() && (#[trigger] infos[j]).device_id@ == id ==> j == i
            },
{
    let i = choose|i: int| 0 <= i < infos.len() && (#[trigger] infos[i]).device_id@ == id;
    assert(infos[i] == m[id]);
}

/// Each session that is listed is its device's, and none is listed twice.
pub proof fn law_listed_sessions_are_the_devices<T>(
    infos: Seq<SessionInfo<T>>,
    m: Map<Seq<char>, SessionInfo<T>>,
    i: int,
    j: int,
)
    requires
        lists(infos, m),
        0 <= i < infos.len(),
        0 <= j < infos.len(),
    ensures
        m.dom().contains(infos[i].device_id@),
        m[infos[i].device_id@] == infos[i],
        infos[i].device_id@ == infos[j].device_id@ ==> i == j,
{
    lemma_by_device(infos, i);
    if i < j {
        assert(infos[i].device_id@ != infos[j].device_id@);
    }
    if j < i {
        assert(infos[j].device_id@ != infos[i].device_id@);
    }
}

/// A list of devices holds each of them, and no other, once.
pub proof fn law_listed_ids(ids: Seq<Seq<char>>, s: Set<Seq<char>>, id: Seq<char>)
    requires
        lists_ids(ids, s),
    ensures
        s.contains(id) <==> exists|i: int| 0 <= i < ids.len() && #[trigger] ids[i] == id,
        forall|i: int, j: int|
            0 <= i < j < ids.len() ==> #[trigger] ids[i] != #[trigger] ids[j],
{
    assert(s.contains(id) <==> ids.to_set().contains(id));
    if ids.contains(id) {
        let i = ids.index_of(id);
        assert(ids[i] == id);
    }
}

/// The texts of a list, one for one.
pub proof fn law_texts(v: Seq<String>, i: int)
    requires
        0 <= i < v.len(),
    ensures
        outside::texts(v).len() == v.len(),
        outside::texts(v)[i] == v[i]@,
{
}

} // verus!

//! Presence tracking: the set of devices that are currently online.
//!
//! Devices announce themselves on `tele/<device>/LWT` with the literal
//! payload `Online` or `Offline`. The tracker keeps the set of known
//! devices and turns each announcement into at most one discrete update:
//! `Added` when a device not yet known comes online, `Removed` when a known
//! device goes offline. Every other payload, and every topic without a
//! device segment, is ignored. The known devices are enumerated in
//! ascending order. A late subscriber to discovery first receives a
//! snapshot of the known set as `Added` updates, then the live tail.

use vstd::prelude::*;
use vstd::string::StrSliceExecFns;

use crate::DeviceUpdate;
use crate::mux::Message;
use crate::mux::MessageView;
use crate::topic::device_of_topic;
use crate::topic::spec_device_of_topic;
use crate::topic::str_eq;

verus! {

/// The bytes of the liveness payload `Online`.
pub open spec fn online_payload() -> Seq<u8> {
    seq![79u8, 110u8, 108u8, 105u8, 110u8, 101u8]
}

/// The bytes of the liveness payload `Offline`.
pub open spec fn offline_payload() -> Seq<u8> {
    seq![79u8, 102u8, 102u8, 108u8, 105u8, 110u8, 101u8]
}

fn is_online(p: &[u8]) -> (r: bool)
    ensures
        r == (p@ == online_payload()),
{
    if p.len() != 6 {
        return false;
    }
    let r = p[0] == 79 && p[1] == 110 && p[2] == 108 && p[3] == 105 && p[4] == 110 && p[5]
        == 101;
    proof {
        if r {
            assert(p@ =~= online_payload());
        }
    }
    r
}

fn is_offline(p: &[u8]) -> (r: bool)
    ensures
        r == (p@ == offline_payload()),
{
    if p.len() != 7 {
        return false;
    }
    let r = p[0] == 79 && p[1] == 102 && p[2] == 102 && p[3] == 108 && p[4] == 105 && p[5]
        == 110 && p[6] == 101;
    proof {
        if r {
            assert(p@ =~= offline_payload());
        }
    }
    r
}

/// Strict lexicographic order on character sequences, by scalar value: the
/// order in which the known devices are enumerated.
pub open spec fn lex_lt(a: Seq<char>, b: Seq<char>) -> bool
    decreases a.len(),
{
    if b.len() == 0 {
        false
    } else if a.len() == 0 {
        true
    } else if a[0] != b[0] {
        a[0] < b[0]
    } else {
        lex_lt(a.drop_first(), b.drop_first())
    }
}

/// Each entry is strictly below the next: ascending, so duplicate-free.
pub open spec fn sorted_strict(s: Seq<Seq<char>>) -> bool {
    forall|i: int, j: int| 0 <= i < j < s.len() ==> lex_lt(s[i], s[j])
}

proof fn lemma_lex_lt_ne(a: Seq<char>, b: Seq<char>)
    requires
        lex_lt(a, b),
    ensures
        a != b,
    decreases a.len(),
{
    if b.len() == 0 {
    } else if a.len() == 0 {
        assert(a.len() != b.len());
    } else if a[0] != b[0] {
    } else {
        lemma_lex_lt_ne(a.drop_first(), b.drop_first());
    }
}

proof fn lemma_lex_lt_trichotomy(a: Seq<char>, b: Seq<char>)
    ensures
        lex_lt(a, b) || lex_lt(b, a) || a == b,
    decreases a.len(),
{
    if a.len() == 0 && b.len() == 0 {
        assert(a =~= b);
    } else if a.len() > 0 && b.len() > 0 && a[0] == b[0] {
        lemma_lex_lt_trichotomy(a.drop_first(), b.drop_first());
        if !lex_lt(a, b) && !lex_lt(b, a) {
            assert(a.drop_first() == b.drop_first());
            assert forall|k: int| 0 <= k < a.len() implies a[k] == b[k] by {
                if k > 0 {
                    assert(a.drop_first()[k - 1] == b.drop_first()[k - 1]);
                }
            }
            assert(a =~= b);
        }
    }
}

proof fn lemma_lex_lt_trans(a: Seq<char>, b: Seq<char>, c: Seq<char>)
    requires
        lex_lt(a, b),
        lex_lt(b, c),
    ensures
        lex_lt(a, c),
    decreases a.len(),
{
    if a.len() > 0 && b.len() > 0 && c.len() > 0 && a[0] == b[0] && b[0] == c[0] {
        lemma_lex_lt_trans(a.drop_first(), b.drop_first(), c.drop_first());
    }
}

proof fn lemma_sorted_no_duplicates(s: Seq<Seq<char>>)
    requires
        sorted_strict(s),
    ensures
        s.no_duplicates(),
{
    assert forall|i: int, j: int|
        0 <= i < s.len() && 0 <= j < s.len() && i != j implies s[i] != s[j] by {
        if i < j {
            lemma_lex_lt_ne(s[i], s[j]);
        } else {
            lemma_lex_lt_ne(s[j], s[i]);
        }
    }
}

proof fn lemma_lex_lt_common_prefix(a: Seq<char>, b: Seq<char>, i: int)
    requires
        0 <= i <= a.len(),
        i <= b.len(),
        forall|k: int| 0 <= k < i ==> a[k] == b[k],
    ensures
        lex_lt(a, b) == lex_lt(a.skip(i), b.skip(i)),
    decreases i,
{
    if i == 0 {
        assert(a.skip(0) =~= a);
        assert(b.skip(0) =~= b);
    } else {
        lemma_lex_lt_common_prefix(a.drop_first(), b.drop_first(), i - 1);
        assert(a.drop_first().skip(i - 1) =~= a.skip(i));
        assert(b.drop_first().skip(i - 1) =~= b.skip(i));
    }
}

/// Whether `a` comes strictly before `b` in lexicographic order.
fn str_lt(a: &str, b: &str) -> (r: bool)
    ensures
        r == lex_lt(a@, b@),
{
    let an = a.unicode_len();
    let bn = b.unicode_len();
    let n = if an < bn {
        an
    } else {
        bn
    };
    let mut i: usize = 0;
    while i < n
        invariant
            0 <= i <= n,
            an == a@.len(),
            bn == b@.len(),
            n == if an < bn {
                an
            } else {
                bn
            },
            forall|k: int| 0 <= k < i ==> a@[k] == b@[k],
        decreases n - i,
    {
        let ca = a.get_char(i);
        let cb = b.get_char(i);
        if ca != cb {
            proof {
                lemma_lex_lt_common_prefix(a@, b@, i as int);
                assert(a@.skip(i as int)[0] == a@[i as int]);
                assert(b@.skip(i as int)[0] == b@[i as int]);
            }
            return (ca as u32) < (cb as u32);
        }
        i = i + 1;
    }
    proof {
        lemma_lex_lt_common_prefix(a@, b@, n as int);
        assert(a@.skip(n as int).len() == a@.len() - n);
        assert(b@.skip(n as int).len() == b@.len() - n);
    }
    an < bn
}

/// What one announcement does to the known-device set: an `Online` payload
/// inserts the topic's device, an `Offline` payload removes it, and
/// everything else leaves the set alone.
pub open spec fn announce_step(s: Set<Seq<char>>, topic: Seq<char>, payload: Seq<u8>) -> Set<
    Seq<char>,
> {
    match spec_device_of_topic(topic) {
        Some(d) => if payload == online_payload() {
            s.insert(d)
        } else if payload == offline_payload() {
            s.remove(d)
        } else {
            s
        },
        None => s,
    }
}

/// The update one announcement emits against the known-device set `s`:
/// `Some((true, d))` when `d` newly comes online, `Some((false, d))` when
/// the known `d` goes offline, and nothing otherwise.
pub open spec fn spec_update(s: Set<Seq<char>>, topic: Seq<char>, payload: Seq<u8>) -> Option<
    (bool, Seq<char>),
> {
    match spec_device_of_topic(topic) {
        Some(d) => if payload == online_payload() && !s.contains(d) {
            Some((true, d))
        } else if payload == offline_payload() && s.contains(d) {
            Some((false, d))
        } else {
            None
        },
        None => None,
    }
}

/// The known-device set after a whole sequence of messages has been
/// processed, starting from `s`.
pub open spec fn replay(s: Set<Seq<char>>, msgs: Seq<MessageView>) -> Set<Seq<char>>
    decreases msgs.len(),
{
    if msgs.len() == 0 {
        s
    } else {
        announce_step(replay(s, msgs.drop_last()), msgs.last().topic, msgs.last().payload)
    }
}

/// The liveness state the most recent announcement for `d` in `msgs` gave:
/// `Some(true)` when it was `Online`, `Some(false)` when it was `Offline`,
/// nothing when no message announced `d` at all.
pub open spec fn last_announcement(msgs: Seq<MessageView>, d: Seq<char>) -> Option<bool>
    decreases msgs.len(),
{
    if msgs.len() == 0 {
        None
    } else if spec_device_of_topic(msgs.last().topic) == Some(d) && (msgs.last().payload
        == online_payload() || msgs.last().payload == offline_payload()) {
        Some(msgs.last().payload == online_payload())
    } else {
        last_announcement(msgs.drop_last(), d)
    }
}

/// The devices whose most recent announcement in `msgs` was `Online`.
pub open spec fn online_set(msgs: Seq<MessageView>) -> Set<Seq<char>> {
    Set::new(|d: Seq<char>| last_announcement(msgs, d) == Some(true))
}

/// Replaying any sequence of announcements into an empty tracker leaves
/// known exactly the devices whose most recent announcement was `Online`.
pub proof fn lemma_replay_computes_online_set(msgs: Seq<MessageView>)
    ensures
        replay(Set::empty(), msgs) == online_set(msgs),
    decreases msgs.len(),
{
    if msgs.len() == 0 {
        assert forall|d: Seq<char>| !replay(Set::<Seq<char>>::empty(), msgs).contains(d) by {}
        assert(replay(Set::empty(), msgs) =~= online_set(msgs));
    } else {
        let rest = msgs.drop_last();
        let m = msgs.last();
        lemma_replay_computes_online_set(rest);
        assert forall|d: Seq<char>|
            replay(Set::<Seq<char>>::empty(), msgs).contains(d) == online_set(msgs).contains(
                d,
            ) by {
            assert(replay(Set::empty(), msgs) == announce_step(
                online_set(rest),
                m.topic,
                m.payload,
            ));
        }
        assert(replay(Set::empty(), msgs) =~= online_set(msgs));
    }
}

/// The current set of known devices, as their identifier strings.
pub struct PresenceTracker {
    known: Vec<String>,
}

impl View for PresenceTracker {
    type V = Set<Seq<char>>;

    open spec fn view(&self) -> Set<Seq<char>> {
        self.devices_seq().to_set()
    }
}

impl PresenceTracker {
    /// The known devices, in ascending order.
    pub closed spec fn devices_seq(&self) -> Seq<Seq<char>> {
        self.known@.map_values(|s: String| s@)
    }

    /// The tracker holds its devices in ascending order, each at most once.
    pub open spec fn wf(&self) -> bool {
        sorted_strict(self.devices_seq())
    }

    /// A tracker that knows no devices yet.
    pub fn new() -> (r: PresenceTracker)
        ensures
            r.wf(),
            r@ == Set::<Seq<char>>::empty(),
            r.devices_seq() == Seq::<Seq<char>>::empty(),
    {
        let r = PresenceTracker { known: Vec::new() };
        proof {
            assert(r.devices_seq() =~= Seq::<Seq<char>>::empty());
            assert(r.devices_seq().to_set() =~= Set::<Seq<char>>::empty());
        }
        r
    }

    fn find_device(&self, d: &str) -> (r: Option<usize>)
        ensures
            match r {
                Some(i) => i < self.devices_seq().len() && self.devices_seq()[i as int] == d@,
                None => !self@.contains(d@),
            },
    {
        let n = self.known.len();
        let mut i: usize = 0;
        while i < n
            invariant
                0 <= i <= n,
                n == self.known@.len(),
                forall|k: int| 0 <= k < i ==> self.devices_seq()[k] != d@,
            decreases n - i,
        {
            if str_eq(self.known[i].as_str(), d) {
                return Some(i);
            }
            i = i + 1;
        }
        proof {
            assert(forall|k: int|
                0 <= k < self.devices_seq().len() ==> self.devices_seq()[k] != d@);
            assert(!self.devices_seq().contains(d@));
        }
        None
    }

    /// The position where `d` stands, or would be inserted, in the
    /// ascending device list.
    fn insertion_point(&self, d: &str) -> (r: usize)
        requires
            self.wf(),
        ensures
            r <= self.devices_seq().len(),
            forall|k: int| 0 <= k < r ==> lex_lt(self.devices_seq()[k], d@),
            r < self.devices_seq().len() ==> !lex_lt(self.devices_seq()[r as int], d@),
    {
        let n = self.known.len();
        let mut i: usize = 0;
        while i < n
            invariant
                0 <= i <= n,
                n == self.known@.len(),
                forall|k: int| 0 <= k < i ==> lex_lt(self.devices_seq()[k], d@),
            decreases n - i,
        {
            if !str_lt(self.known[i].as_str(), d) {
                return i;
            }
            i = i + 1;
        }
        n
    }

    /// Feeds one bus message to the tracker.
    ///
    /// When the topic names a device and the payload is the literal `Online`
    /// or `Offline`, the known set is updated and the discrete update to
    /// announce, if any, is returned: `Added` only for a device that was not
    /// yet known, `Removed` only for one that was. Anything else leaves the
    /// tracker unchanged and announces nothing.
    pub fn process_announcement(&mut self, topic: &str, payload: &[u8]) -> (r: Option<
        DeviceUpdate,
    >)
        requires
            old(self).wf(),
        ensures
            final(self).wf(),
            final(self)@ == announce_step(old(self)@, topic@, payload@),
            match (r, spec_update(old(self)@, topic@, payload@)) {
                (Some(DeviceUpdate::Added(x)), Some((online, d))) => online && x@ == d,
                (Some(DeviceUpdate::Removed(x)), Some((online, d))) => !online && x@ == d,
                (None, None) => true,
                _ => false,
            },
    {
        let device = match device_of_topic(topic) {
            Some(d) => d,
            None => {
                return None;
            },
        };
        if is_online(payload) {
            let pos = self.insertion_point(device.as_str());
            if pos < self.known.len() && str_eq(self.known[pos].as_str(), device.as_str()) {
                proof {
                    assert(self.devices_seq()[pos as int] == device@);
                    assert(self.devices_seq().contains(device@));
                    assert(old(self)@.insert(device@) =~= old(self)@);
                }
                None
            } else {
                let announced = device.clone();
                proof {
                    let ds = self.devices_seq();
                    let dv = device@;
                    let p = pos as int;
                    assert forall|k: int| p <= k < ds.len() implies lex_lt(dv, ds[k]) by {
                        lemma_lex_lt_trichotomy(dv, ds[k]);
                        if k > p {
                            if lex_lt(ds[k], dv) {
                                lemma_lex_lt_trans(ds[p], ds[k], dv);
                                assert(!lex_lt(ds[p], dv));
                            }
                            if ds[k] == dv {
                                assert(lex_lt(ds[p], ds[k]));
                                assert(!lex_lt(ds[p], dv));
                            }
                        }
                    }
                    assert forall|k: int| 0 <= k < ds.len() implies ds[k] != dv by {
                        if k < p {
                            lemma_lex_lt_ne(ds[k], dv);
                        } else {
                            lemma_lex_lt_ne(dv, ds[k]);
                        }
                    }
                    assert(!ds.contains(dv));
                    assert(!ds.to_set().contains(dv));
                    lemma_insert_device(self.known@, device, p);
                    ds.insert_ensures(p, dv);
                    let t = ds.insert(p, dv);
                    assert forall|i1: int, j1: int|
                        0 <= i1 < j1 < t.len() implies lex_lt(t[i1], t[j1]) by {
                        if j1 < p {
                            assert(t[i1] == ds[i1]);
                            assert(t[j1] == ds[j1]);
                        } else if i1 > p {
                            assert(t[(i1 - 1) + 1] == ds[i1 - 1]);
                            assert(t[(j1 - 1) + 1] == ds[j1 - 1]);
                        } else if i1 == p {
                            assert(t[(j1 - 1) + 1] == ds[j1 - 1]);
                            assert(lex_lt(dv, ds[j1 - 1]));
                        } else if j1 == p {
                            assert(t[i1] == ds[i1]);
                            assert(lex_lt(ds[i1], dv));
                        } else {
                            assert(t[i1] == ds[i1]);
                            assert(t[(j1 - 1) + 1] == ds[j1 - 1]);
                            assert(lex_lt(ds[i1], ds[j1 - 1]));
                        }
                    }
                }
                self.known.insert(pos, device);
                Some(DeviceUpdate::Added(announced))
            }
        } else if is_offline(payload) {
            match self.find_device(device.as_str()) {
                Some(i) => {
                    proof {
                        lemma_sorted_no_duplicates(self.devices_seq());
                        lemma_remove_device(self.known@, i as int);
                        lemma_sorted_remove(self.devices_seq(), i as int);
                        assert(self@.contains(device@));
                    }
                    self.known.remove(i);
                    Some(DeviceUpdate::Removed(device))
                },
                None => {
                    proof {
                        assert(old(self)@.remove(device@) =~= old(self)@);
                    }
                    None
                },
            }
        } else {
            None
        }
    }

    /// Feeds a whole sequence of bus messages to the tracker, in order.
    pub fn process_all(&mut self, msgs: &Vec<Message>)
        requires
            old(self).wf(),
        ensures
            final(self).wf(),
            final(self)@ == replay(old(self)@, msgs@.map_values(|m: Message| m@)),
    {
        let ghost views = msgs@.map_values(|m: Message| m@);
        let n = msgs.len();
        let mut i: usize = 0;
        while i < n
            invariant
                0 <= i <= n,
                n == msgs@.len(),
                views == msgs@.map_values(|m: Message| m@),
                self.wf(),
                self@ == replay(old(self)@, views.take(i as int)),
            decreases n - i,
        {
            let m = &msgs[i];
            self.process_announcement(m.topic.as_str(), m.payload.as_slice());
            proof {
                assert(views.take(i + 1).drop_last() =~= views.take(i as int));
                assert(views.take(i + 1).last() == views[i as int]);
            }
            i = i + 1;
        }
        proof {
            assert(views.take(n as int) =~= views);
        }
    }

    /// The devices known right now, in ascending order.
    pub fn current_devices(&self) -> (r: Vec<String>)
        requires
            self.wf(),
        ensures
            r@.len() == self.devices_seq().len(),
            forall|i: int| 0 <= i < r@.len() ==> r@[i]@ == self.devices_seq()[i],
            forall|i: int, j: int| 0 <= i < j < r@.len() ==> lex_lt(r@[i]@, r@[j]@),
    {
        let n = self.known.len();
        let mut r: Vec<String> = Vec::new();
        let mut i: usize = 0;
        while i < n
            invariant
                0 <= i <= n,
                n == self.known@.len(),
                r@.len() == i,
                forall|k: int| 0 <= k < i ==> r@[k]@ == self.devices_seq()[k],
            decreases n - i,
        {
            r.push(self.known[i].clone());
            i = i + 1;
        }
        proof {
            assert forall|i1: int, j1: int|
                0 <= i1 < j1 < r@.len() implies lex_lt(r@[i1]@, r@[j1]@) by {
                assert(r@[i1]@ == self.devices_seq()[i1]);
                assert(r@[j1]@ == self.devices_seq()[j1]);
            }
        }
        r
    }

    /// The snapshot a late discovery subscriber receives before the live
    /// tail: one `Added` update for every device known right now, in
    /// ascending order, and no other update.
    pub fn snapshot_updates(&self) -> (r: Vec<DeviceUpdate>)
        requires
            self.wf(),
        ensures
            r@.len() == self.devices_seq().len(),
            r@.len() == self@.len(),
            forall|i: int|
                0 <= i < r@.len() ==> match #[trigger] r@[i] {
                    DeviceUpdate::Added(d) => d@ == self.devices_seq()[i],
                    DeviceUpdate::Removed(_) => false,
                },
            forall|i: int, j: int|
                0 <= i < j < r@.len() ==> lex_lt(self.devices_seq()[i], self.devices_seq()[j]),
    {
        let n = self.known.len();
        let mut r: Vec<DeviceUpdate> = Vec::new();
        let mut i: usize = 0;
        while i < n
            invariant
                0 <= i <= n,
                n == self.known@.len(),
                r@.len() == i,
                forall|k: int|
                    0 <= k < i ==> match #[trigger] r@[k] {
                        DeviceUpdate::Added(d) => d@ == self.devices_seq()[k],
                        DeviceUpdate::Removed(_) => false,
                    },
            decreases n - i,
        {
            r.push(DeviceUpdate::Added(self.known[i].clone()));
            i = i + 1;
        }
        proof {
            lemma_sorted_no_duplicates(self.devices_seq());
            self.devices_seq().unique_seq_to_set();
        }
        r
    }
}

/// Inserting a device string at position `i` inserts its characters at the
/// same position of the device list, and adds exactly it to the device set.
proof fn lemma_insert_device(known: Seq<String>, x: String, i: int)
    requires
        0 <= i <= known.len(),
    ensures
        known.insert(i, x).map_values(|s: String| s@) == known.map_values(|s: String| s@).insert(
            i,
            x@,
        ),
        known.insert(i, x).map_values(|s: String| s@).to_set() == known.map_values(
            |s: String| s@,
        ).to_set().insert(x@),
{
    let m = known.map_values(|s: String| s@);
    known.insert_ensures(i, x);
    m.insert_ensures(i, x@);
    assert(known.insert(i, x).map_values(|s: String| s@) =~= m.insert(i, x@));
    let t = m.insert(i, x@);
    assert forall|y: Seq<char>| t.to_set().contains(y) == m.to_set().insert(x@).contains(y) by {
        if t.to_set().contains(y) {
            let j = choose|j: int| 0 <= j < t.len() && t[j] == y;
            if j < i {
                assert(m[j] == y);
                assert(m.contains(y));
            } else if j > i {
                assert(t[(j - 1) + 1] == m[j - 1]);
                assert(m.contains(y));
            }
        }
        if m.to_set().insert(x@).contains(y) {
            if y == x@ {
                assert(t[i] == y);
            } else {
                let j = choose|j: int| 0 <= j < m.len() && m[j] == y;
                if j < i {
                    assert(t[j] == y);
                } else {
                    assert(t[j + 1] == m[j]);
                }
            }
            assert(t.contains(y));
        }
    }
    assert(t.to_set() =~= m.to_set().insert(x@));
}

/// Removing a position of an ascending sequence keeps it ascending.
proof fn lemma_sorted_remove(s: Seq<Seq<char>>, i: int)
    requires
        0 <= i < s.len(),
        sorted_strict(s),
    ensures
        sorted_strict(s.remove(i)),
{
    s.remove_ensures(i);
    let t = s.remove(i);
    assert forall|j1: int, j2: int| 0 <= j1 < j2 < t.len() implies lex_lt(t[j1], t[j2]) by {
        let k1: int = if j1 < i {
            j1
        } else {
            j1 + 1
        };
        let k2: int = if j2 < i {
            j2
        } else {
            j2 + 1
        };
        assert(t[j1] == s[k1]);
        assert(t[j2] == s[k2]);
    }
}

/// Removing position `i` removes exactly that device from the device set of
/// a duplicate-free sequence, and keeps it duplicate-free.
proof fn lemma_remove_device(known: Seq<String>, i: int)
    requires
        0 <= i < known.len(),
        known.map_values(|s: String| s@).no_duplicates(),
    ensures
        known.remove(i).map_values(|s: String| s@) == known.map_values(|s: String| s@).remove(i),
        known.remove(i).map_values(|s: String| s@).no_duplicates(),
        known.remove(i).map_values(|s: String| s@).to_set() == known.map_values(
            |s: String| s@,
        ).to_set().remove(known.map_values(|s: String| s@)[i]),
{
    let m = known.map_values(|s: String| s@);
    let mr = known.remove(i).map_values(|s: String| s@);
    known.remove_ensures(i);
    m.remove_ensures(i);
    assert(mr =~= m.remove(i));
    let t = m.remove(i);
    assert forall|j1: int, j2: int| 0 <= j1 < j2 < t.len() implies t[j1] != t[j2] by {
        let k1: int = if j1 < i {
            j1
        } else {
            j1 + 1
        };
        let k2: int = if j2 < i {
            j2
        } else {
            j2 + 1
        };
        assert(t[j1] == m[k1]);
        assert(t[j2] == m[k2]);
    }
    assert forall|y: Seq<char>| t.to_set().contains(y) == m.to_set().remove(m[i]).contains(y) by {
        if t.to_set().contains(y) {
            let j = choose|j: int| 0 <= j < t.len() && t[j] == y;
            let k: int = if j < i {
                j
            } else {
                j + 1
            };
            assert(m[k] == y);
            assert(m.contains(y));
            assert(y != m[i]);
        }
        if m.to_set().remove(m[i]).contains(y) {
            let k = choose|k: int| 0 <= k < m.len() && m[k] == y;
            assert(k != i);
            if k < i {
                assert(t[k] == y);
            } else {
                assert(t[k - 1] == y);
            }
            assert(t.contains(y));
        }
    }
    assert(t.to_set() =~= m.to_set().remove(m[i]));
}

/// No `Added` update is ever produced for a device already in the known
/// set, and no `Removed` update for a device not in it.
pub proof fn lemma_no_ghost_updates(s: Set<Seq<char>>, topic: Seq<char>, payload: Seq<u8>)
    ensures
        match spec_update(s, topic, payload) {
            Some((online, d)) => if online {
                !s.contains(d)
            } else {
                s.contains(d)
            },
            None => true,
        },
{
}

} // verus!

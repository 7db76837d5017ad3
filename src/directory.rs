//! The presence directory: the last known address of each peer, keyed by
//! `name@host`.
use vstd::prelude::*;
use crate::protocol::{IpMsgPacket, PacketModel};
use crate::protocol::commands::{BR_ENTRY, BR_EXIT, IPMSG_ANSENTRY};
use crate::text::push_char;

verus! {

/// A peer's network address: its IP address as text and its UDP port.
#[derive(Clone, Debug)]
pub struct PeerAddr {
    pub ip: String,
    pub port: u16,
}

impl View for PeerAddr {
    type V = (Seq<char>, u16);

    open spec fn view(&self) -> (Seq<char>, u16) {
        (self.ip@, self.port)
    }
}

/// One row of the online-user listing.
#[derive(Clone, Debug)]
pub struct OnlineUser {
    pub username: String,
    pub hostname: String,
    pub ip: String,
    pub port: u16,
}

/// An online user as mathematical values.
pub struct OnlineUserModel {
    pub username: Seq<char>,
    pub hostname: Seq<char>,
    pub ip: Seq<char>,
    pub port: u16,
}

impl View for OnlineUser {
    type V = OnlineUserModel;

    open spec fn view(&self) -> OnlineUserModel {
        OnlineUserModel {
            username: self.username@,
            hostname: self.hostname@,
            ip: self.ip@,
            port: self.port,
        }
    }
}

struct Entry {
    key: String,
    addr: PeerAddr,
}

/// The known peers: at most one address for each key.
pub struct Directory {
    entries: Vec<Entry>,
}

/// The directory key of a packet's sender: `sender_name@sender_host`.
pub open spec fn key_of(p: PacketModel) -> Seq<char> {
    p.sender_name + seq!['@'] + p.sender_host
}

/// The command class: the low byte of the command.
pub open spec fn command_class(command: u32) -> u32 {
    command & 0xff
}

/// What a successfully decoded packet from `addr` does to the directory `d`:
/// an entry announcement or an answer to one records the address under the
/// sender's key, an exit announcement forgets the key, anything else leaves
/// `d` as it is.
pub open spec fn apply_spec(
    d: Map<Seq<char>, (Seq<char>, u16)>,
    p: PacketModel,
    addr: (Seq<char>, u16),
) -> Map<Seq<char>, (Seq<char>, u16)> {
    let class = command_class(p.command);
    if class == BR_ENTRY || class == IPMSG_ANSENTRY {
        d.insert(key_of(p), addr)
    } else if class == BR_EXIT {
        d.remove(key_of(p))
    } else {
        d
    }
}

/// `k` split at its first `c`, if it holds one.
pub open spec fn split_once_spec(k: Seq<char>, c: char) -> Option<(Seq<char>, Seq<char>)>
    decreases k.len(),
{
    if k.len() == 0 {
        None
    } else if k[0] == c {
        Some((Seq::empty(), k.drop_first()))
    } else {
        match split_once_spec(k.drop_first(), c) {
            Some((a, b)) => Some((seq![k[0]] + a, b)),
            None => None,
        }
    }
}

/// The listing row for key `k` at `addr`: the key splits at its first `@`
/// into user and host, both `unknown` where it has none.
pub open spec fn user_of(k: Seq<char>, addr: (Seq<char>, u16)) -> OnlineUserModel {
    let (u, h) = match split_once_spec(k, '@') {
        Some(p) => p,
        None => ("unknown"@, "unknown"@),
    };
    OnlineUserModel { username: u, hostname: h, ip: addr.0, port: addr.1 }
}

/// An entry announcement applied twice for one key leaves that key once, at
/// the address of the later announcement: the same as applying only the
/// later one.
pub proof fn lemma_entry_twice(
    d: Map<Seq<char>, (Seq<char>, u16)>,
    p1: PacketModel,
    a1: (Seq<char>, u16),
    p2: PacketModel,
    a2: (Seq<char>, u16),
)
    requires
        command_class(p1.command) == BR_ENTRY,
        command_class(p2.command) == BR_ENTRY,
        key_of(p1) == key_of(p2),
    ensures
        apply_spec(apply_spec(d, p1, a1), p2, a2) == d.insert(key_of(p2), a2),
        apply_spec(apply_spec(d, p1, a1), p2, a2) == apply_spec(d, p2, a2),
        apply_spec(apply_spec(d, p1, a1), p2, a2)[key_of(p2)] == a2,
        apply_spec(apply_spec(d, p1, a1), p2, a2).dom() == d.dom().insert(key_of(p2)),
{
    assert(apply_spec(apply_spec(d, p1, a1), p2, a2) =~= d.insert(key_of(p2), a2));
}

/// An exit announcement after an entry announcement for the same key leaves
/// the key unknown; an exit announcement for an unknown key changes nothing.
pub proof fn lemma_exit_removes(
    d: Map<Seq<char>, (Seq<char>, u16)>,
    entry: PacketModel,
    a1: (Seq<char>, u16),
    exit: PacketModel,
    a2: (Seq<char>, u16),
)
    requires
        command_class(entry.command) == BR_ENTRY,
        command_class(exit.command) == BR_EXIT,
        key_of(entry) == key_of(exit),
    ensures
        !apply_spec(apply_spec(d, entry, a1), exit, a2).contains_key(key_of(exit)),
        apply_spec(apply_spec(d, entry, a1), exit, a2) == d.remove(key_of(exit)),
        !d.contains_key(key_of(exit)) ==> apply_spec(d, exit, a2) == d,
{
    assert(apply_spec(apply_spec(d, entry, a1), exit, a2) =~= d.remove(key_of(exit)));
    if !d.contains_key(key_of(exit)) {
        assert(apply_spec(d, exit, a2) =~= d);
    }
}

spec fn entry_map(s: Seq<Entry>) -> Map<Seq<char>, (Seq<char>, u16)>
    decreases s.len(),
{
    if s.len() == 0 {
        Map::empty()
    } else {
        entry_map(s.drop_last()).insert(s.last().key@, s.last().addr@)
    }
}

spec fn distinct_keys(s: Seq<Entry>) -> bool {
    forall|i: int, j: int| 0 <= i < j < s.len() ==> s[i].key@ != s[j].key@
}

proof fn lemma_entry_map_absent(s: Seq<Entry>, k: Seq<char>)
    requires
        forall|i: int| 0 <= i < s.len() ==> (#[trigger] s[i]).key@ != k,
    ensures
        !entry_map(s).contains_key(k),
    decreases s.len(),
{
    if s.len() > 0 {
        lemma_entry_map_absent(s.drop_last(), k);
    }
}

proof fn lemma_entry_map_index(s: Seq<Entry>, i: int)
    requires
        distinct_keys(s),
        0 <= i < s.len(),
    ensures
        entry_map(s).contains_key(s[i].key@),
        entry_map(s)[s[i].key@] == s[i].addr@,
    decreases s.len(),
{
    if i < s.len() - 1 {
        lemma_entry_map_index(s.drop_last(), i);
    }
}

proof fn lemma_entry_map_dom(s: Seq<Entry>, k: Seq<char>)
    requires
        entry_map(s).contains_key(k),
    ensures
        exists|i: int| 0 <= i < s.len() && (#[trigger] s[i]).key@ == k,
    decreases s.len(),
{
    if s.last().key@ != k {
        lemma_entry_map_dom(s.drop_last(), k);
        let i = choose|i: int| 0 <= i < s.len() - 1 && (#[trigger] s.drop_last()[i]).key@ == k;
        assert(s[i] == s.drop_last()[i]);
    } else {
        assert(s[s.len() - 1].key@ == k);
    }
}

proof fn lemma_entry_map_update(s: Seq<Entry>, i: int, e: Entry)
    requires
        distinct_keys(s),
        0 <= i < s.len(),
        e.key@ == s[i].key@,
    ensures
        entry_map(s.update(i, e)) == entry_map(s).insert(e.key@, e.addr@),
    decreases s.len(),
{
    let t = s.update(i, e);
    if i == s.len() - 1 {
        assert(t.drop_last() =~= s.drop_last());
        assert(entry_map(t) =~= entry_map(s).insert(e.key@, e.addr@));
    } else {
        assert(t.drop_last() =~= s.drop_last().update(i, e));
        lemma_entry_map_update(s.drop_last(), i, e);
        assert(s.last().key@ != e.key@);
        assert(entry_map(t) =~= entry_map(s).insert(e.key@, e.addr@));
    }
}

proof fn lemma_entry_map_remove(s: Seq<Entry>, i: int)
    requires
        distinct_keys(s),
        0 <= i < s.len(),
    ensures
        entry_map(s.remove(i)) == entry_map(s).remove(s[i].key@),
    decreases s.len(),
{
    let k = s[i].key@;
    let t = s.remove(i);
    if i == s.len() - 1 {
        assert(t =~= s.drop_last());
        assert forall|j: int| 0 <= j < s.drop_last().len() implies (#[trigger] s.drop_last()[j]).key@ != k by {
            assert(s.drop_last()[j] == s[j]);
        }
        lemma_entry_map_absent(s.drop_last(), k);
        assert(entry_map(t) =~= entry_map(s).remove(k));
    } else {
        assert(t.drop_last() =~= s.drop_last().remove(i));
        lemma_entry_map_remove(s.drop_last(), i);
        assert(s.last().key@ != k);
        assert(t.last() == s.last());
        assert(entry_map(t) =~= entry_map(s).remove(k));
    }
}

proof fn lemma_split_once(a: Seq<char>, b: Seq<char>, c: char)
    requires
        forall|i: int| 0 <= i < a.len() ==> a[i] != c,
    ensures
        split_once_spec(a + seq![c] + b, c) == Some((a, b)),
        split_once_spec(a, c) is None,
    decreases a.len(),
{
    if a.len() == 0 {
        assert(a + seq![c] + b =~= seq![c] + b);
        assert((seq![c] + b).drop_first() =~= b);
    } else {
        assert((a + seq![c] + b).drop_first() =~= a.drop_first() + seq![c] + b);
        lemma_split_once(a.drop_first(), b, c);
        assert(seq![a[0]] + a.drop_first() =~= a);
    }
}

/// Splits `s` at its first `c`, as `str::split_once` does.
pub fn split_once(s: &str, c: char) -> (r: Option<(String, String)>)
    ensures
        match r {
            Some((a, b)) => split_once_spec(s@, c) == Some((a@, b@)),
            None => split_once_spec(s@, c) is None,
        },
{
    let mut before = String::new();
    let mut after = String::new();
    let mut found = false;
    let ghost mut seen: Seq<char> = Seq::empty();
    for x in it: s.chars()
        invariant
            it.seq() == s@,
            seen == it.seq().subrange(0, it.index() as int),
            forall|i: int| 0 <= i < before@.len() ==> before@[i] != c,
            found ==> seen == before@ + seq![c] + after@,
            !found ==> seen == before@ && after@.len() == 0,
    {
        proof {
            assert(seen.push(x) =~= it.seq().subrange(0, it.index() + 1));
        }
        if found {
            push_char(&mut after, x);
            assert(seen.push(x) =~= before@ + seq![c] + after@);
        } else if x == c {
            found = true;
            assert(seen.push(x) =~= before@ + seq![c] + after@);
        } else {
            push_char(&mut before, x);
        }
        proof {
            seen = seen.push(x);
        }
    }
    proof {
        assert(seen =~= s@);
        lemma_split_once(before@, after@, c);
    }
    if found {
        Some((before, after))
    } else {
        None
    }
}

impl Directory {
    /// The address known for each key.
    pub closed spec fn view(&self) -> Map<Seq<char>, (Seq<char>, u16)> {
        entry_map(self.entries@)
    }

    /// Every key is held once.
    pub closed spec fn wf(&self) -> bool {
        distinct_keys(self.entries@)
    }

    /// The keys, in the order in which the listing reports them.
    pub closed spec fn keys(&self) -> Seq<Seq<char>> {
        self.entries@.map_values(|e: Entry| e.key@)
    }

    /// The keys are exactly those of the map, each once.
    pub proof fn lemma_keys(&self)
        requires
            self.wf(),
        ensures
            self.keys().no_duplicates(),
            forall|k: Seq<char>| self@.contains_key(k) <==> self.keys().contains(k),
    {
        let s = self.entries@;
        assert forall|k: Seq<char>| self@.contains_key(k) <==> self.keys().contains(k) by {
            if self@.contains_key(k) {
                lemma_entry_map_dom(s, k);
                let i = choose|i: int| 0 <= i < s.len() && (#[trigger] s[i]).key@ == k;
                assert(self.keys()[i] == k);
            }
            if self.keys().contains(k) {
                let i = choose|i: int| 0 <= i < self.keys().len() && self.keys()[i] == k;
                lemma_entry_map_index(s, i);
            }
        }
    }

    /// An empty directory.
    pub fn new() -> (r: Directory)
        ensures
            r.wf(),
            r@ == Map::<Seq<char>, (Seq<char>, u16)>::empty(),
    {
        Directory { entries: Vec::new() }
    }

    fn find(&self, key: &String) -> (r: Option<usize>)
        requires
            self.wf(),
        ensures
            match r {
                Some(i) => i < self.entries.len() && self.entries@[i as int].key@ == key@,
                None => !self@.contains_key(key@),
            },
    {
        let mut i: usize = 0;
        while i < self.entries.len()
            invariant
                i <= self.entries.len(),
                forall|j: int| 0 <= j < i ==> (#[trigger] self.entries@[j]).key@ != key@,
            decreases self.entries.len() - i,
        {
            if self.entries[i].key == *key {
                return Some(i);
            }
            i = i + 1;
        }
        proof {
            lemma_entry_map_absent(self.entries@, key@);
        }
        None
    }

    /// Records `addr` under `key`, replacing any address it had.
    pub fn insert(&mut self, key: String, addr: PeerAddr)
        requires
            old(self).wf(),
        ensures
            final(self).wf(),
            final(self)@ == old(self)@.insert(key@, addr@),
    {
        match self.find(&key) {
            Some(i) => {
                let ghost e = Entry { key, addr };
                proof {
                    lemma_entry_map_update(self.entries@, i as int, e);
                }
                self.entries.set(i, Entry { key, addr });
                assert(self.entries@ =~= old(self).entries@.update(i as int, e));
            },
            None => {
                proof {
                    assert forall|j: int| 0 <= j < self.entries.len() implies (#[trigger] self.entries@[j]).key@ != key@ by {
                        lemma_entry_map_index(self.entries@, j);
                    }
                }
                self.entries.push(Entry { key, addr });
                assert(self.entries@.drop_last() =~= old(self).entries@);
            },
        }
    }

    /// Forgets `key`; nothing happens where it is not known.
    pub fn remove(&mut self, key: &String)
        requires
            old(self).wf(),
        ensures
            final(self).wf(),
            final(self)@ == old(self)@.remove(key@),
    {
        match self.find(key) {
            Some(i) => {
                proof {
                    lemma_entry_map_remove(self.entries@, i as int);
                }
                self.entries.remove(i);
                assert forall|a: int, b: int| 0 <= a < b < self.entries.len() implies self.entries@[a].key@ != self.entries@[b].key@ by {
                    let s = old(self).entries@;
                    let a2 = if a < i { a } else { a + 1 };
                    let b2 = if b < i { b } else { b + 1 };
                    assert(self.entries@[a] == s[a2]);
                    assert(self.entries@[b] == s[b2]);
                }
            },
            None => {
                assert(old(self)@.remove(key@) =~= old(self)@);
            },
        }
    }

    /// Updates the directory for a successfully decoded packet from `addr`.
    pub fn handle_packet(&mut self, packet: &IpMsgPacket, addr: &PeerAddr)
        requires
            old(self).wf(),
        ensures
            final(self).wf(),
            final(self)@ == apply_spec(old(self)@, packet@, addr@),
    {
        let mut username = packet.sender_name.clone();
        push_char(&mut username, '@');
        username.append(packet.sender_host.as_str());
        assert(username@ =~= key_of(packet@));
        let command = packet.command & 0xff;
        if command == BR_ENTRY || command == IPMSG_ANSENTRY {
            self.insert(username, PeerAddr { ip: addr.ip.clone(), port: addr.port });
        } else if command == BR_EXIT {
            self.remove(&username);
        }
    }

    /// The keys of all known peers.
    pub fn keys_list(&self) -> (r: Vec<String>)
        ensures
            r.len() == self.keys().len(),
            forall|i: int| 0 <= i < r.len() ==> (#[trigger] r@[i])@ == self.keys()[i],
    {
        let mut r: Vec<String> = Vec::new();
        let mut i: usize = 0;
        while i < self.entries.len()
            invariant
                i <= self.entries.len(),
                r.len() == i,
                forall|j: int| 0 <= j < i ==> (#[trigger] r@[j])@ == self.keys()[j],
            decreases self.entries.len() - i,
        {
            r.push(self.entries[i].key.clone());
            i = i + 1;
        }
        r
    }

    /// One listing row for each known peer, in the order of `keys`.
    pub fn online_users(&self) -> (r: Vec<OnlineUser>)
        requires
            self.wf(),
        ensures
            r.len() == self.keys().len(),
            forall|i: int| 0 <= i < r.len() ==> (#[trigger] r@[i])@ == user_of(self.keys()[i], self@[self.keys()[i]]),
    {
        let mut r: Vec<OnlineUser> = Vec::new();
        let mut i: usize = 0;
        while i < self.entries.len()
            invariant
                self.wf(),
                i <= self.entries.len(),
                r.len() == i,
                forall|j: int| 0 <= j < i ==> (#[trigger] r@[j])@ == user_of(self.keys()[j], self@[self.keys()[j]]),
            decreases self.entries.len() - i,
        {
            let e = &self.entries[i];
            let (username, hostname) = match split_once(e.key.as_str(), '@') {
                Some(pair) => pair,
                None => (String::from_str("unknown"), String::from_str("unknown")),
            };
            proof {
                lemma_entry_map_index(self.entries@, i as int);
            }
            r.push(OnlineUser { username, hostname, ip: e.addr.ip.clone(), port: e.addr.port });
            i = i + 1;
        }
        r
    }

    /// The address known for `key`, if any.
    pub fn get(&self, key: &String) -> (r: Option<PeerAddr>)
        requires
            self.wf(),
        ensures
            match r {
                Some(a) => self@.contains_key(key@) && self@[key@] == a@,
                None => !self@.contains_key(key@),
            },
    {
        match self.find(key) {
            Some(i) => {
                proof {
                    lemma_entry_map_index(self.entries@, i as int);
                }
                Some(PeerAddr { ip: self.entries[i].addr.ip.clone(), port: self.entries[i].addr.port })
            },
            None => None,
        }
    }
}

} // verus!

use vstd::prelude::*;

verus! {

/// The number of distinct keyboard events that the event center can track.
pub const MAX_EVENT_COUNT: usize = 512;

pub const OPEN_COSMOS_VIEW: usize = 0;
pub const PLAYER_MOVE_UP: usize = 100;
pub const PLAYER_MOVE_DOWN: usize = 101;
pub const PLAYER_MOVE_LEFT: usize = 102;
pub const PLAYER_MOVE_RIGHT: usize = 103;
pub const TOGGLE_CAMERA_CONTROL_OVERRIDE: usize = 104;

/// Whether bit `k` of byte `b` is set.
pub open spec fn byte_bit(b: u8, k: int) -> bool {
    (b >> (k as u8)) & 1u8 == 1u8
}

/// A bit set of the keyboard events that are currently active: event `e`
/// lives in bit `e % 8` of byte `e / 8`.
pub struct KeyboardEventCenter([u8; 64]);

impl View for KeyboardEventCenter {
    type V = Set<int>;

    /// The set of active events.
    closed spec fn view(&self) -> Set<int> {
        Set::new(|e: int| 0 <= e < MAX_EVENT_COUNT && byte_bit(self.0@[e / 8], e % 8))
    }
}

proof fn lemma_bit_or(b: u8, k: u8, j: u8)
    requires
        k < 8,
        j < 8,
    ensures
        ((b | (1u8 << k)) >> j) & 1u8 == 1u8 <==> (j == k || (b >> j) & 1u8 == 1u8),
{
    assert(((b | (1u8 << k)) >> j) & 1u8 == 1u8 <==> (j == k || (b >> j) & 1u8 == 1u8))
        by (bit_vector)
        requires
            k < 8,
            j < 8,
    ;
}

proof fn lemma_bit_clear(b: u8, k: u8, j: u8)
    requires
        k < 8,
        j < 8,
    ensures
        ((b & !(1u8 << k)) >> j) & 1u8 == 1u8 <==> (j != k && (b >> j) & 1u8 == 1u8),
{
    assert(((b & !(1u8 << k)) >> j) & 1u8 == 1u8 <==> (j != k && (b >> j) & 1u8 == 1u8))
        by (bit_vector)
        requires
            k < 8,
            j < 8,
    ;
}

proof fn lemma_bit_test(b: u8, k: u8)
    requires
        k < 8,
    ensures
        (b & (1u8 << k) != 0) <==> ((b >> k) & 1u8 == 1u8),
{
    assert((b & (1u8 << k) != 0) <==> ((b >> k) & 1u8 == 1u8)) by (bit_vector)
        requires
            k < 8,
    ;
}

impl KeyboardEventCenter {
    /// A center where no event is active.
    pub fn new() -> (r: Self)
        ensures
            r@ == Set::<int>::empty(),
    {
        let r = KeyboardEventCenter([0u8; 64]);
        assert forall|e: int| !r@.contains(e) by {
            if 0 <= e < MAX_EVENT_COUNT {
                let b: u8 = r.0@[e / 8];
                assert(b == 0);
                let k: u8 = (e % 8) as u8;
                assert((0u8 >> k) & 1u8 != 1u8) by (bit_vector);
            }
        }
        assert(r@ =~= Set::<int>::empty());
        r
    }

    /// Marks `event` as active; every other event keeps its state.
    pub fn activate(&mut self, event: usize)
        requires
            event < MAX_EVENT_COUNT,
        ensures
            final(self)@ == old(self)@.insert(event as int),
    {
        let i = event / 8;
        let k: u8 = (event % 8) as u8;
        let ghost before = self.0@;
        self.0[i] = self.0[i] | (1u8 << k);
        proof {
            assert forall|e: int| 0 <= e < MAX_EVENT_COUNT implies
                (#[trigger] byte_bit(self.0@[e / 8], e % 8) <==> (e == event || byte_bit(before[e / 8], e % 8)))
            by {
                let j: u8 = (e % 8) as u8;
                if e / 8 == i as int {
                    lemma_bit_or(before[e / 8], k, j);
                } else {
                    assert(self.0@[e / 8] == before[e / 8]);
                }
            }
            assert(final(self)@ =~= old(self)@.insert(event as int));
        }
    }

    /// Marks `event` as inactive; every other event keeps its state.
    pub fn deactivate(&mut self, event: usize)
        requires
            event < MAX_EVENT_COUNT,
        ensures
            final(self)@ == old(self)@.remove(event as int),
    {
        let i = event / 8;
        let k: u8 = (event % 8) as u8;
        let ghost before = self.0@;
        self.0[i] = self.0[i] & !(1u8 << k);
        proof {
            assert forall|e: int| 0 <= e < MAX_EVENT_COUNT implies
                (#[trigger] byte_bit(self.0@[e / 8], e % 8) <==> (e != event && byte_bit(before[e / 8], e % 8)))
            by {
                let j: u8 = (e % 8) as u8;
                if e / 8 == i as int {
                    lemma_bit_clear(before[e / 8], k, j);
                } else {
                    assert(self.0@[e / 8] == before[e / 8]);
                }
            }
            assert(final(self)@ =~= old(self)@.remove(event as int));
        }
    }

    /// Whether `event` is active.
    pub fn is_activating(&self, event: usize) -> (r: bool)
        requires
            event < MAX_EVENT_COUNT,
        ensures
            r == self@.contains(event as int),
    {
        let k: u8 = (event % 8) as u8;
        let b = self.0[event / 8];
        proof {
            lemma_bit_test(b, k);
        }
        b & (1u8 << k) != 0
    }
}

impl Default for KeyboardEventCenter {
    fn default() -> (r: Self)
        ensures
            r@ == Set::<int>::empty(),
    {
        KeyboardEventCenter::new()
    }
}

/// Every event in `events` is one that the center can track.
pub open spec fn events_in_range(events: Seq<usize>) -> bool {
    forall|i: int| 0 <= i < events.len() ==> #[trigger] events[i] < MAX_EVENT_COUNT
}

/// Brings the keyboard's input of one frame into the center: the events of
/// the keys just pressed become active, then those of the keys just released
/// become inactive.
pub fn apply_keyboard_input(center: &mut KeyboardEventCenter, pressed: &Vec<usize>, released: &Vec<usize>)
    requires
        events_in_range(pressed@),
        events_in_range(released@),
    ensures
        forall|e: int|
            #[trigger] final(center)@.contains(e) == ((old(center)@.contains(e) || exists|i: int|
                0 <= i < pressed@.len() && pressed@[i] == e) && !exists|j: int|
                0 <= j < released@.len() && released@[j] == e),
{
    let mut i: usize = 0;
    while i < pressed.len()
        invariant
            i <= pressed@.len(),
            events_in_range(pressed@),
            forall|e: int|
                #[trigger] center@.contains(e) == (old(center)@.contains(e) || exists|k: int|
                    0 <= k < i && pressed@[k] == e),
        decreases pressed@.len() - i,
    {
        center.activate(pressed[i]);
        proof {
            assert forall|e: int| #[trigger] center@.contains(e) == (old(center)@.contains(e) || exists|k: int|
                0 <= k < i + 1 && pressed@[k] == e) by {
                if e == pressed@[i as int] {
                    assert(0 <= i < i + 1 && pressed@[i as int] == e);
                }
                if exists|k: int| 0 <= k < i + 1 && pressed@[k] == e {
                    let k = choose|k: int| 0 <= k < i + 1 && pressed@[k] == e;
                    if k < i {
                        assert(exists|k2: int| 0 <= k2 < i && pressed@[k2] == e);
                    }
                }
            }
        }
        i = i + 1;
    }
    let ghost mid = center@;
    let mut j: usize = 0;
    while j < released.len()
        invariant
            j <= released@.len(),
            events_in_range(released@),
            forall|e: int|
                #[trigger] center@.contains(e) == (mid.contains(e) && !exists|k: int|
                    0 <= k < j && released@[k] == e),
        decreases released@.len() - j,
    {
        center.deactivate(released[j]);
        proof {
            assert forall|e: int| #[trigger] center@.contains(e) == (mid.contains(e) && !exists|k: int|
                0 <= k < j + 1 && released@[k] == e) by {
                if e == released@[j as int] {
                    assert(0 <= j < j + 1 && released@[j as int] == e);
                }
                if exists|k: int| 0 <= k < j + 1 && released@[k] == e {
                    let k = choose|k: int| 0 <= k < j + 1 && released@[k] == e;
                    if k < j {
                        assert(exists|k2: int| 0 <= k2 < j && released@[k2] == e);
                    }
                }
            }
        }
        j = j + 1;
    }
}

/// Marking an event active and asking for it gives true; marking it
/// inactive and asking gives false; no other event changes.
pub proof fn law_activate_then_query(before: Set<int>, e: int, other: int)
    requires
        other != e,
    ensures
        before.insert(e).contains(e),
        !before.remove(e).contains(e),
        before.insert(e).contains(other) == before.contains(other),
        before.remove(e).contains(other) == before.contains(other),
{
}

/// A hash map from the readable names of events to their numbers, held in
/// `bevy`'s `HashMap` (`hashbrown`'s).
#[verifier::external_body]
pub struct ReadableMapping {
    inner: bevy::utils::HashMap<String, usize>,
}

/// What a [`ReadableMapping`] holds, by the characters of each name.
pub uninterp spec fn readable_mapping_contents(m: ReadableMapping) -> Map<Seq<char>, usize>;

impl ReadableMapping {
    /// `HashMap::default`: an empty map.
    #[verifier::external_body]
    pub(crate) fn new() -> (r: Self)
        ensures
            readable_mapping_contents(r).dom().is_empty(),
    {
        ReadableMapping { inner: Default::default() }
    }

    /// `HashMap::insert`: names `event` by `name`.
    #[verifier::external_body]
    pub(crate) fn insert(&mut self, name: String, event: usize)
        ensures
            readable_mapping_contents(*final(self)) == readable_mapping_contents(*old(self)).insert(
                name@,
                event,
            ),
    {
        self.inner.insert(name, event);
    }

    /// `HashMap::get`: the event named `name`, if any.
    #[verifier::external_body]
    pub(crate) fn get(&self, name: &String) -> (r: Option<usize>)
        ensures
            r == (if readable_mapping_contents(*self).contains_key(name@) {
                Some(readable_mapping_contents(*self)[name@])
            } else {
                None
            }),
    {
        self.inner.get(name).copied()
    }
}

/// The mapping that naming each event of `entries` in order gives: a later
/// entry for a name replaces an earlier one.
pub open spec fn entries_map(entries: Seq<(String, usize)>) -> Map<Seq<char>, usize>
    decreases entries.len(),
{
    if entries.len() == 0 {
        Map::empty()
    } else {
        entries_map(entries.drop_last()).insert(entries.last().0@, entries.last().1)
    }
}

impl ReadableMapping {
    /// The mapping of the `(name, event)` entries, a later entry for a name
    /// replacing an earlier one.
    pub fn from_entries(entries: Vec<(String, usize)>) -> (r: Self)
        ensures
            readable_mapping_contents(r) == entries_map(entries@),
    {
        let ghost src = entries@;
        let mut m = ReadableMapping::new();
        let mut entries = entries;
        let n = entries.len();
        let mut i: usize = 0;
        assert(readable_mapping_contents(m) =~= entries_map(src.take(0)));
        while i < n
            invariant
                i <= n,
                n == src.len(),
                entries@.len() == n,
                forall|j: int| i <= j < n ==> #[trigger] entries@[j].0@ == src[j].0@ && entries@[j].1 == src[j].1,
                readable_mapping_contents(m) == entries_map(src.take(i as int)),
            decreases n - i,
        {
            let mut name = String::new();
            std::mem::swap(&mut name, &mut entries[i].0);
            let event = entries[i].1;
            m.insert(name, event);
            proof {
                assert(src.take(i + 1).drop_last() =~= src.take(i as int));
            }
            i = i + 1;
        }
        assert(src.take(n as int) =~= src);
        m
    }

    /// The event named `name`, if any.
    pub fn lookup(&self, name: &String) -> (r: Option<usize>)
        ensures
            r == (if readable_mapping_contents(*self).contains_key(name@) {
                Some(readable_mapping_contents(*self)[name@])
            } else {
                None
            }),
    {
        self.get(name)
    }
}

/// The events that the readable names `names` stand for; each name must be
/// in the mapping.
pub fn resolve_events(names: &Vec<String>, mapping: &ReadableMapping) -> (r: Vec<usize>)
    requires
        forall|i: int| 0 <= i < names@.len() ==> readable_mapping_contents(*mapping).contains_key(#[trigger] names@[i]@),
    ensures
        r@.len() == names@.len(),
        forall|i: int| 0 <= i < names@.len() ==> #[trigger] r@[i] == readable_mapping_contents(*mapping)[names@[i]@],
{
    let mut r: Vec<usize> = Vec::new();
    let mut i: usize = 0;
    while i < names.len()
        invariant
            i <= names@.len(),
            forall|j: int| 0 <= j < names@.len() ==> readable_mapping_contents(*mapping).contains_key(#[trigger] names@[j]@),
            r@.len() == i,
            forall|j: int| 0 <= j < i ==> #[trigger] r@[j] == readable_mapping_contents(*mapping)[names@[j]@],
        decreases names@.len() - i,
    {
        assert(readable_mapping_contents(*mapping).contains_key(names@[i as int]@));
        let e = mapping.get(&names[i]).unwrap();
        r.push(e);
        i = i + 1;
    }
    r
}

/// The keyboard mapping with each key's readable event names resolved to
/// event numbers; each name must be in the mapping.
pub fn resolve_keyboard_mapping(keys: Vec<(String, Vec<String>)>, mapping: &ReadableMapping) -> (r: Vec<(String, Vec<usize>)>)
    requires
        forall|i: int, j: int|
            0 <= i < keys@.len() && 0 <= j < keys@[i].1@.len() ==> readable_mapping_contents(*mapping).contains_key(
                #[trigger] keys@[i].1@[j]@,
            ),
    ensures
        r@.len() == keys@.len(),
        forall|i: int|
            0 <= i < keys@.len() ==> {
                &&& #[trigger] r@[i].0@ == keys@[i].0@
                &&& r@[i].1@.len() == keys@[i].1@.len()
                &&& forall|j: int|
                    0 <= j < keys@[i].1@.len() ==> #[trigger] r@[i].1@[j] == readable_mapping_contents(*mapping)[keys@[i].1@[j]@]
            },
{
    let n = keys.len();
    let mut r: Vec<(String, Vec<usize>)> = Vec::new();
    let mut i: usize = 0;
    while i < n
        invariant
            i <= n,
            n == keys@.len(),
            forall|k: int, j: int|
                0 <= k < keys@.len() && 0 <= j < keys@[k].1@.len() ==> readable_mapping_contents(*mapping).contains_key(
                    #[trigger] keys@[k].1@[j]@,
                ),
            r@.len() == i,
            forall|k: int|
                0 <= k < i ==> {
                    &&& #[trigger] r@[k].0@ == keys@[k].0@
                    &&& r@[k].1@.len() == keys@[k].1@.len()
                    &&& forall|j: int|
                        0 <= j < keys@[k].1@.len() ==> #[trigger] r@[k].1@[j] == readable_mapping_contents(*mapping)[keys@[k].1@[j]@]
                },
        decreases n - i,
    {
        let key = keys[i].0.clone();
        let events = resolve_events(&keys[i].1, mapping);
        r.push((key, events));
        i = i + 1;
    }
    r
}

/// Every readable name of the keyboard mapping is in `m`.
pub open spec fn names_known(keys: Seq<(String, Vec<String>)>, m: Map<Seq<char>, usize>) -> bool {
    forall|i: int, j: int|
        0 <= i < keys.len() && 0 <= j < keys[i].1@.len() ==> m.contains_key(#[trigger] keys[i].1@[j]@)
}

/// The keyboard mapping with each key's readable event names resolved, or
/// `None` exactly where some name is not in the mapping.
pub fn resolve_keyboard_mapping_checked(keys: Vec<(String, Vec<String>)>, mapping: &ReadableMapping) -> (r: Option<
    Vec<(String, Vec<usize>)>,
>)
    ensures
        r is None <==> !names_known(keys@, readable_mapping_contents(*mapping)),
        r matches Some(v) ==> {
            &&& v@.len() == keys@.len()
            &&& forall|i: int|
                0 <= i < keys@.len() ==> {
                    &&& #[trigger] v@[i].0@ == keys@[i].0@
                    &&& v@[i].1@.len() == keys@[i].1@.len()
                    &&& forall|j: int|
                        0 <= j < keys@[i].1@.len() ==> #[trigger] v@[i].1@[j]
                            == readable_mapping_contents(*mapping)[keys@[i].1@[j]@]
                }
        },
{
    let ghost m = readable_mapping_contents(*mapping);
    let mut i: usize = 0;
    while i < keys.len()
        invariant
            i <= keys@.len(),
            m == readable_mapping_contents(*mapping),
            forall|a: int, b: int|
                0 <= a < i && 0 <= b < keys@[a].1@.len() ==> m.contains_key(#[trigger] keys@[a].1@[b]@),
        decreases keys@.len() - i,
    {
        let names = &keys[i].1;
        let mut j: usize = 0;
        while j < names.len()
            invariant
                j <= names@.len(),
                i < keys@.len(),
                names@ == keys@[i as int].1@,
                m == readable_mapping_contents(*mapping),
                forall|a: int, b: int|
                    0 <= a < i && 0 <= b < keys@[a].1@.len() ==> m.contains_key(#[trigger] keys@[a].1@[b]@),
                forall|b: int| 0 <= b < j ==> m.contains_key(#[trigger] keys@[i as int].1@[b]@),
            decreases names@.len() - j,
        {
            if mapping.lookup(&names[j]).is_none() {
                assert(!m.contains_key(keys@[i as int].1@[j as int]@));
                return None;
            }
            j = j + 1;
        }
        i = i + 1;
    }
    Some(resolve_keyboard_mapping(keys, mapping))
}

} // verus!

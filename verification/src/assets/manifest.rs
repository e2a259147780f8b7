use vstd::prelude::*;

verus! {

/// A hash set of names, held in `bevy`'s `HashSet` (`hashbrown`'s).
#[verifier::external_body]
pub struct NameSet {
    inner: bevy::utils::HashSet<String>,
}

/// What a [`NameSet`] holds, by the characters of each name.
pub uninterp spec fn name_set_contents(s: NameSet) -> Set<Seq<char>>;

impl NameSet {
    /// `HashSet::default`: an empty set.
    #[verifier::external_body]
    fn new() -> (r: Self)
        ensures
            name_set_contents(r).is_empty(),
            name_set_contents(r).finite(),
    {
        NameSet { inner: Default::default() }
    }

    /// `HashSet::insert`: adds `name`.
    #[verifier::external_body]
    fn insert(&mut self, name: String)
        ensures
            name_set_contents(*final(self)) == name_set_contents(*old(self)).insert(name@),
    {
        self.inner.insert(name);
    }

    /// `HashSet::remove`: takes `name` out.
    #[verifier::external_body]
    fn remove(&mut self, name: &str)
        ensures
            name_set_contents(*final(self)) == name_set_contents(*old(self)).remove(name@),
    {
        self.inner.remove(name);
    }

    /// `HashSet::len`: how many names the set holds.
    #[verifier::external_body]
    fn len(&self) -> (r: usize)
        requires
            name_set_contents(*self).finite(),
        ensures
            r == name_set_contents(*self).len(),
    {
        self.inner.len()
    }

    /// `HashSet::is_empty`.
    #[verifier::external_body]
    fn is_empty(&self) -> (r: bool)
        ensures
            r == name_set_contents(*self).is_empty(),
    {
        self.inner.is_empty()
    }

    /// `HashSet::contains`.
    #[verifier::external_body]
    fn contains(&self, name: &str) -> (r: bool)
        ensures
            r == name_set_contents(*self).contains(name@),
    {
        self.inner.contains(name)
    }
}

/// The configs still to load, and how many there were to load in all.
pub struct Manifest {
    to_load: NameSet,
    total: u32,
}

impl Manifest {
    /// The names still to load.
    pub closed spec fn spec_to_load(&self) -> Set<Seq<char>> {
        name_set_contents(self.to_load)
    }

    pub closed spec fn spec_total(&self) -> u32 {
        self.total
    }

    /// A manifest of the distinct names of `to_load`; the total counts them.
    pub fn new(to_load: Vec<String>) -> (r: Self)
        ensures
            r.spec_to_load() == to_load@.map_values(|s: String| s@).to_set(),
            r.spec_to_load().finite(),
            r.spec_total() == r.spec_to_load().len() as u32,
    {
        let mut set = NameSet::new();
        let mut names = to_load;
        let ghost src = names@.map_values(|s: String| s@);
        let n = names.len();
        let mut i: usize = 0;
        while i < n
            invariant
                i <= n,
                names@.len() == n,
                src.len() == n,
                forall|j: int| i <= j < n ==> #[trigger] names@[j]@ == src[j],
                name_set_contents(set) == src.take(i as int).to_set(),
                name_set_contents(set).finite(),
            decreases n - i,
        {
            let mut name = String::new();
            std::mem::swap(&mut name, &mut names[i]);
            set.insert(name);
            proof {
                src.take(i as int).lemma_push_to_set_commute(src[i as int]);
                assert(src.take(i + 1) =~= src.take(i as int).push(src[i as int]));
            }
            i = i + 1;
        }
        proof {
            assert(src.take(n as int) =~= src);
        }
        let total = set.len() as u32;
        Manifest { to_load: set, total }
    }

    /// Marks the config `name` as loaded.
    pub fn finish(&mut self, name: &str)
        ensures
            final(self).spec_to_load() == old(self).spec_to_load().remove(name@),
            final(self).spec_total() == old(self).spec_total(),
    {
        self.to_load.remove(name);
    }

    /// Adds the config `name` to load; the total grows by one.
    pub fn add(&mut self, name: &str)
        requires
            old(self).spec_total() < u32::MAX,
        ensures
            final(self).spec_to_load() == old(self).spec_to_load().insert(name@),
            final(self).spec_total() == old(self).spec_total() + 1,
    {
        self.to_load.insert(String::from_str(name));
        self.total = self.total + 1;
    }

    pub fn total(&self) -> (r: u32)
        ensures
            r == self.spec_total(),
    {
        self.total
    }

    /// Whether the config `name` is still to load.
    pub fn is_pending(&self, name: &str) -> (r: bool)
        ensures
            r == self.spec_to_load().contains(name@),
    {
        self.to_load.contains(name)
    }

    /// Whether every config is loaded.
    pub fn is_finished(&self) -> (r: bool)
        ensures
            r == self.spec_to_load().is_empty(),
    {
        self.to_load.is_empty()
    }
}

/// Once every config that was added is finished, the manifest is finished.
pub proof fn law_finish_all(to_load: Set<Seq<char>>, finished: Seq<Seq<char>>)
    requires
        forall|x: Seq<char>| to_load.contains(x) ==> finished.contains(x),
    ensures
        remove_all(to_load, finished).is_empty(),
    decreases finished.len(),
{
    if finished.len() > 0 {
        let last = finished.last();
        let rest = finished.drop_last();
        assert forall|x: Seq<char>| to_load.remove(last).contains(x) implies rest.contains(x) by {
            let i = choose|i: int| 0 <= i < finished.len() && finished[i] == x;
            if i < rest.len() {
                assert(rest[i] == x);
            }
        }
        law_finish_all(to_load.remove(last), rest);
    } else {
        assert(to_load =~= Set::empty());
    }
}

/// The names of `s` left after removing those of `names`, in order.
pub open spec fn remove_all(s: Set<Seq<char>>, names: Seq<Seq<char>>) -> Set<Seq<char>>
    decreases names.len(),
{
    if names.len() == 0 {
        s
    } else {
        remove_all(s.remove(names.last()), names.drop_last())
    }
}

} // verus!

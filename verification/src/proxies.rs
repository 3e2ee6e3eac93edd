//! Proxies as the core reports them, reduced to what the tray reads.
use crate::text;
use vstd::hash_map::StringHashMap;
use vstd::prelude::*;

verus! {

/// One past measurement of a proxy.
#[derive(Debug, Clone, Copy, PartialEq, Eq, Structural)]
pub struct DelayHistory {
    /// The measured delay in milliseconds.
    pub delay: u32,
}

/// A proxy node or a proxy group.
#[derive(Debug, Clone, PartialEq, Eq)]
pub struct Proxy {
    /// The members, for a group.
    pub all: Option<Vec<String>>,
    /// The selected member, for a group.
    pub now: Option<String>,
    /// Whether the group asks to be kept out of menus.
    pub hidden: Option<bool>,
    /// Past measurements, the latest last.
    pub history: Vec<DelayHistory>,
}

impl Proxy {
    /// The delay of the latest measurement.
    pub open spec fn latest_delay(self) -> Option<u32> {
        if self.history@.len() > 0 {
            Some(self.history@.last().delay)
        } else {
            None
        }
    }

    /// The names of the members, none where the proxy is no group.
    pub open spec fn members(self) -> Seq<Seq<char>> {
        match self.all {
            Some(all) => text::texts(all@),
            None => seq![],
        }
    }

    /// The name of the selected member, empty where there is none.
    pub open spec fn selected(self) -> Seq<char> {
        match self.now {
            Some(now) => now@,
            None => seq![],
        }
    }
}

/// All proxies by name, in the order in which they were added.
pub struct Proxies {
    names: Vec<String>,
    table: StringHashMap<Proxy>,
}

impl View for Proxies {
    type V = Map<Seq<char>, Proxy>;

    closed spec fn view(&self) -> Map<Seq<char>, Proxy> {
        self.table@
    }
}

impl Proxies {
    /// The names in the order in which they were added.
    pub closed spec fn order(&self) -> Seq<Seq<char>> {
        text::texts(self.names@)
    }

    /// Every proxy stands in the order exactly once.
    pub open spec fn wf(&self) -> bool {
        &&& self.order().no_duplicates()
        &&& forall|name: Seq<char>|
            #![trigger self@.contains_key(name)]
            #![trigger self.order().contains(name)]
            self@.contains_key(name) <==> self.order().contains(name)
    }

    /// No proxies.
    pub fn new() -> (proxies: Self)
        ensures
            proxies.wf(),
            proxies@ == Map::<Seq<char>, Proxy>::empty(),
            proxies.order() == Seq::<Seq<char>>::empty(),
    {
        let proxies = Proxies { names: Vec::new(), table: StringHashMap::new() };
        assert(proxies.order() =~= Seq::<Seq<char>>::empty());
        proxies
    }

    /// Adds a proxy behind the others. One with the same name is replaced and keeps its place.
    pub fn insert(&mut self, name: String, proxy: Proxy)
        requires
            old(self).wf(),
        ensures
            final(self).wf(),
            final(self)@ == old(self)@.insert(name@, proxy),
            final(self).order() == (if old(self)@.contains_key(name@) {
                old(self).order()
            } else {
                old(self).order().push(name@)
            }),
    {
        let ghost before = *self;
        if !self.table.contains_key(name.as_str()) {
            self.names.push(name.clone());
            assert(self.order() =~= before.order().push(name@));
            assert(!before.order().contains(name@));
        }
        self.table.insert(name, proxy);
        proof {
            let order = before.order();
            assert forall|other: Seq<char>| self.order().contains(other) <==> order.contains(other)
                || other == name@ by {
                if order.contains(other) {
                    let i = choose|i: int| 0 <= i < order.len() && order[i] == other;
                    assert(self.order()[i] == other);
                }
                if before@.contains_key(name@) {
                    assert(order.contains(name@));
                } else {
                    assert(self.order()[order.len() as int] == name@);
                }
            }
            assert(self.order().no_duplicates());
            assert forall|other: Seq<char>|
                self@.contains_key(other) <==> #[trigger] self.order().contains(other) by {
                assert(before@.contains_key(other) <==> order.contains(other));
            }
        }
    }

    /// The proxy with a name.
    pub fn get(&self, name: &str) -> (proxy: Option<&Proxy>)
        ensures
            match proxy {
                Some(proxy) => self@.contains_key(name@) && *proxy == self@[name@],
                None => !self@.contains_key(name@),
            },
    {
        self.table.get(name)
    }

    /// How many proxies there are.
    pub fn len(&self) -> (len: usize)
        ensures
            len == self.order().len(),
    {
        self.names.len()
    }

    /// The name at a place in the order.
    pub fn name(&self, index: usize) -> (name: &String)
        requires
            index < self.order().len(),
        ensures
            name@ == self.order()[index as int],
    {
        &self.names[index]
    }
}

/// The latest delay is that of the measurement that was appended last, whatever came before it, and
/// there is none without a measurement.
pub proof fn latest_delay_is_the_appended_one(
    proxy: Proxy,
    earlier: Seq<DelayHistory>,
    latest: DelayHistory,
)
    ensures
        proxy.history@ == earlier.push(latest) ==> proxy.latest_delay() == Some(latest.delay),
        proxy.history@ == Seq::<DelayHistory>::empty() ==> proxy.latest_delay() is None,
{
}

/// The members of a group are those of its list, in its order; a proxy without a list has none. The
/// selected member is the one that the group names.
pub proof fn members_are_those_of_the_list(proxy: Proxy)
    ensures
        proxy.all matches Some(all) ==> {
            &&& proxy.members().len() == all@.len()
            &&& forall|i: int| 0 <= i < all@.len() ==> #[trigger] proxy.members()[i] == all@[i]@
        },
        proxy.all is None ==> proxy.members().len() == 0,
        proxy.now matches Some(now) ==> proxy.selected() == now@,
        proxy.now is None ==> proxy.selected().len() == 0,
{
}

} // verus!

//! What is known of the decks that are plugged in, by their names: the token
//! that ends a deck's tasks, the open device, and its renderer.

use vstd::prelude::*;

use crate::error::DeviceError;
use crate::mappings;
use crate::mappings::{resolve_device_kind, Kind};

verus! {

/// A value and the name that it is kept under.
pub struct Entry<V> {
    pub id: String,
    pub value: V,
}

/// Values by name.
pub struct Table<V> {
    entries: Vec<Entry<V>>,
}

impl<V> Table<V> {
    /// No name occurs twice.
    pub closed spec fn wf(self) -> bool {
        forall|i: int, j: int|
            0 <= i < j < self.entries@.len() ==> (#[trigger] self.entries@[i]).id@ != (
            #[trigger] self.entries@[j]).id@
    }

    closed spec fn holds_at(self, i: int, id: Seq<char>) -> bool {
        0 <= i < self.entries@.len() && self.entries@[i].id@ == id
    }

    /// The values by name.
    pub closed spec fn view(&self) -> Map<Seq<char>, V> {
        Map::new(
            |id: Seq<char>| exists|i: int| self.holds_at(i, id),
            |id: Seq<char>| self.entries@[choose|i: int| self.holds_at(i, id)].value,
        )
    }

    proof fn lemma_at(self, i: int, id: Seq<char>)
        requires
            self.wf(),
            self.holds_at(i, id),
        ensures
            self@.dom().contains(id),
            self@[id] == self.entries@[i].value,
    {
        let chosen = choose|i: int| self.holds_at(i, id);
        assert(self.holds_at(chosen, id));
        assert(chosen == i);
    }

    /// A table that holds nothing.
    pub fn new() -> (table: Table<V>)
        ensures
            table.wf(),
            table@ == Map::<Seq<char>, V>::empty(),
    {
        let table = Table { entries: Vec::new() };
        assert(table@ =~= Map::<Seq<char>, V>::empty());
        table
    }

    fn position(&self, id: &String) -> (at: Option<usize>)
        requires
            self.wf(),
        ensures
            match at {
                Some(i) => self.holds_at(i as int, id@),
                None => !self@.dom().contains(id@),
            },
    {
        let mut i: usize = 0;
        while i < self.entries.len()
            invariant
                self.wf(),
                i <= self.entries@.len(),
                forall|j: int| 0 <= j < i ==> !self.holds_at(j, id@),
            decreases self.entries@.len() - i,
        {
            if self.entries[i].id == *id {
                return Some(i);
            }
            i += 1;
        }
        None
    }

    /// The value under a name.
    pub fn get(&self, id: &String) -> (value: Option<&V>)
        requires
            self.wf(),
        ensures
            match value {
                Some(value) => self@.dom().contains(id@) && *value == self@[id@],
                None => !self@.dom().contains(id@),
            },
    {
        match self.position(id) {
            Some(i) => {
                proof {
                    self.lemma_at(i as int, id@);
                }
                Some(&self.entries[i].value)
            },
            None => None,
        }
    }

    /// Takes the value under a name out.
    pub fn remove(&mut self, id: &String) -> (value: Option<V>)
        requires
            old(self).wf(),
        ensures
            final(self).wf(),
            final(self)@ == old(self)@.remove(id@),
            match value {
                Some(value) => old(self)@.dom().contains(id@) && value == old(self)@[id@],
                None => !old(self)@.dom().contains(id@),
            },
    {
        let ghost before = *self;
        match self.position(id) {
            Some(i) => {
                let entry = self.entries.remove(i);
                proof {
                    before.lemma_at(i as int, id@);
                    self.lemma_removed(before, i as int, id@);
                }
                Some(entry.value)
            },
            None => {
                assert(self@ =~= before@.remove(id@));
                None
            },
        }
    }

    proof fn lemma_removed(self, before: Table<V>, at: int, id: Seq<char>)
        requires
            before.wf(),
            before.holds_at(at, id),
            self.entries@ == before.entries@.remove(at),
        ensures
            self.wf(),
            self@ == before@.remove(id),
    {
        assert forall|i: int, j: int| 0 <= i < j < self.entries@.len() implies (
        #[trigger] self.entries@[i]).id@ != (#[trigger] self.entries@[j]).id@ by {
            let k = if i < at {
                i
            } else {
                i + 1
            };
            let l = if j < at {
                j
            } else {
                j + 1
            };
            assert(before.entries@[k].id@ != before.entries@[l].id@);
        }
        assert forall|k: Seq<char>| self@.dom().contains(k) == before@.remove(
            id,
        ).dom().contains(k) by {
            if self@.dom().contains(k) {
                let i = choose|i: int| self.holds_at(i, k);
                let j = if i < at {
                    i
                } else {
                    i + 1
                };
                assert(before.holds_at(j, k));
                if j < at {
                    assert(before.entries@[j].id@ != before.entries@[at].id@);
                } else {
                    assert(before.entries@[at].id@ != before.entries@[j].id@);
                }
            }
            if before@.dom().contains(k) && k != id {
                let i = choose|i: int| before.holds_at(i, k);
                let j = if i < at {
                    i
                } else {
                    i - 1
                };
                assert(self.holds_at(j, k));
            }
        }
        assert forall|k: Seq<char>| #[trigger] self@.dom().contains(k) implies self@[k]
            == before@.remove(id)[k] by {
            let i = choose|i: int| self.holds_at(i, k);
            let j = if i < at {
                i
            } else {
                i + 1
            };
            self.lemma_at(i, k);
            assert(before.holds_at(j, k));
            before.lemma_at(j, k);
        }
        assert(self@ =~= before@.remove(id));
    }

    /// Keeps a value under a name, and hands out the one that was kept under
    /// it.
    pub fn insert(&mut self, id: String, value: V) -> (previous: Option<V>)
        requires
            old(self).wf(),
        ensures
            final(self).wf(),
            final(self)@ == old(self)@.insert(id@, value),
            match previous {
                Some(previous) => old(self)@.dom().contains(id@) && previous == old(self)@[id@],
                None => !old(self)@.dom().contains(id@),
            },
    {
        let ghost start = *self;
        let previous = self.remove(&id);
        let ghost before = *self;
        let ghost name = id@;
        self.entries.push(Entry { id, value });
        proof {
            self.lemma_pushed(before, name, value);
            assert(start@.remove(name).insert(name, value) =~= start@.insert(name, value));
        }
        previous
    }

    proof fn lemma_pushed(self, before: Table<V>, id: Seq<char>, value: V)
        requires
            before.wf(),
            !before@.dom().contains(id),
            self.entries@.len() == before.entries@.len() + 1,
            self.entries@.last().id@ == id,
            self.entries@.last().value == value,
            forall|i: int|
                0 <= i < before.entries@.len() ==> #[trigger] self.entries@[i]
                    == before.entries@[i],
        ensures
            self.wf(),
            self@ == before@.insert(id, value),
    {
        let last = before.entries@.len() as int;
        assert forall|i: int, j: int| 0 <= i < j < self.entries@.len() implies (
        #[trigger] self.entries@[i]).id@ != (#[trigger] self.entries@[j]).id@ by {
            if j == last {
                assert(!before.holds_at(i, id));
            } else {
                assert(before.entries@[i].id@ != before.entries@[j].id@);
            }
        }
        self.lemma_at(last, id);
        assert forall|k: Seq<char>| self@.dom().contains(k) == before@.insert(
            id,
            value,
        ).dom().contains(k) by {
            if self@.dom().contains(k) {
                let i = choose|i: int| self.holds_at(i, k);
                if i != last {
                    assert(before.holds_at(i, k));
                }
            }
            if before@.dom().contains(k) {
                let i = choose|i: int| before.holds_at(i, k);
                assert(self.holds_at(i, k));
            }
        }
        assert forall|k: Seq<char>| #[trigger] self@.dom().contains(k) implies self@[k]
            == before@.insert(id, value)[k] by {
            let i = choose|i: int| self.holds_at(i, k);
            self.lemma_at(i, k);
            if k != id {
                before.lemma_at(i, k);
            }
        }
        assert(self@ =~= before@.insert(id, value));
    }

    /// All values with their names, each once.
    pub fn entries(&self) -> (entries: &Vec<Entry<V>>)
        requires
            self.wf(),
        ensures
            entries@.no_duplicates(),
            forall|i: int|
                0 <= i < entries@.len() ==> {
                    let entry = #[trigger] entries@[i];
                    self@.dom().contains(entry.id@) && self@[entry.id@] == entry.value
                },
            forall|id: Seq<char>| #[trigger]
                self@.dom().contains(id) ==> exists|i: int|
                    0 <= i < entries@.len() && (#[trigger] entries@[i]).id@ == id,
    {
        proof {
            assert forall|i: int| 0 <= i < self.entries@.len() implies {
                let entry = #[trigger] self.entries@[i];
                self@.dom().contains(entry.id@) && self@[entry.id@] == entry.value
            } by {
                assert(self.holds_at(i, self.entries@[i].id@));
                self.lemma_at(i, self.entries@[i].id@);
            }
            assert forall|id: Seq<char>| #[trigger] self@.dom().contains(id) implies exists|i: int|
                0 <= i < self.entries@.len() && (#[trigger] self.entries@[i]).id@ == id by {
                let i = choose|i: int| self.holds_at(i, id);
                assert(self.entries@[i].id@ == id);
            }
            assert forall|i: int, j: int|
                0 <= i < self.entries@.len() && 0 <= j < self.entries@.len() && i
                    != j implies self.entries@[i] != self.entries@[j] by {
                if i < j {
                    assert(self.entries@[i].id@ != self.entries@[j].id@);
                } else {
                    assert(self.entries@[j].id@ != self.entries@[i].id@);
                }
            }
        }
        &self.entries
    }
}

/// A deck's renderer: the handle that commands are sent through, and a ticket
/// that no other renderer ever had.
pub struct Renderer<H> {
    pub ticket: u64,
    pub handle: H,
}

/// What was found when a renderer was asked for.
#[derive(Debug, Clone, Copy, PartialEq, Eq)]
pub struct RendererFound {
    pub ticket: u64,
    /// The model whose worker is to be started, if the renderer is new.
    pub started: Option<Kind>,
}

/// What a deck leaves behind: its tasks and its renderer are to be told.
pub struct Forgotten<T, H> {
    pub token: Option<T>,
    pub renderer: Option<Renderer<H>>,
}

/// Everything that is known of the decks that are plugged in.
pub struct DeviceTables<T, D, H> {
    pub tokens: Table<T>,
    pub devices: Table<D>,
    pub renderers: Table<Renderer<H>>,
    /// How many tickets were handed out. The next one has this number.
    pub issued: u64,
}

impl<T, D, H> DeviceTables<T, D, H> {
    /// The tables are sound, and every ticket was handed out.
    pub open spec fn wf(self) -> bool {
        &&& self.tokens.wf()
        &&& self.devices.wf()
        &&& self.renderers.wf()
        &&& forall|id: Seq<char>| #[trigger]
            self.renderers@.dom().contains(id) ==> self.renderers@[id].ticket < self.issued
    }

    /// Nothing is known yet.
    pub fn new() -> (tables: DeviceTables<T, D, H>)
        ensures
            tables.wf(),
            tables.tokens@ == Map::<Seq<char>, T>::empty(),
            tables.devices@ == Map::<Seq<char>, D>::empty(),
            tables.renderers@ == Map::<Seq<char>, Renderer<H>>::empty(),
            tables.issued == 0,
    {
        DeviceTables {
            tokens: Table::new(),
            devices: Table::new(),
            renderers: Table::new(),
            issued: 0,
        }
    }

    /// Whether there are tickets left.
    pub fn can_add_renderer(&self) -> (can: bool)
        ensures
            can == (self.issued < u64::MAX),
    {
        self.issued < u64::MAX
    }

    /// The renderer of a deck, if it has one.
    pub fn find_renderer(&self, device_id: &String) -> (renderer: Option<&Renderer<H>>)
        requires
            self.wf(),
        ensures
            match renderer {
                Some(renderer) => self.renderers@.dom().contains(device_id@) && *renderer
                    == self.renderers@[device_id@],
                None => !self.renderers@.dom().contains(device_id@),
            },
    {
        self.renderers.get(device_id)
    }

    /// Finds the renderer of a deck. Where there is none, the given handle
    /// becomes the deck's, and a worker is to be started for its model; a deck
    /// of no known model gets none.
    pub fn get_device_renderer(
        &mut self,
        device_id: &String,
        vid: u16,
        pid: u16,
        handle: H,
    ) -> (r: Result<RendererFound, DeviceError>)
        requires
            old(self).wf(),
            old(self).renderers@.dom().contains(device_id@) || old(self).issued < u64::MAX,
        ensures
            final(self).wf(),
            final(self).comes_from(*old(self)),
            final(self).tokens == old(self).tokens,
            final(self).devices == old(self).devices,
            old(self).renderers@.dom().contains(device_id@) ==> {
                &&& *final(self) == *old(self)
                &&& r == Ok::<RendererFound, DeviceError>(
                    RendererFound {
                        ticket: old(self).renderers@[device_id@].ticket,
                        started: None,
                    },
                )
            },
            !old(self).renderers@.dom().contains(device_id@) ==> match mappings::known_kind(
                vid,
                pid,
            ) {
                None => *final(self) == *old(self) && r == Err::<RendererFound, DeviceError>(
                    DeviceError::BadData,
                ),
                Some(kind) => {
                    let ticket = old(self).issued;
                    &&& final(self).renderers@ == old(self).renderers@.insert(
                        device_id@,
                        Renderer { ticket, handle },
                    )
                    &&& final(self).issued == ticket + 1
                    &&& r == Ok::<RendererFound, DeviceError>(
                        RendererFound { ticket, started: Some(kind) },
                    )
                },
            },
            r matches Ok(found) ==> {
                &&& found.started == Some(Kind::AMPGD6) ==> vid == 0x3142 && pid == 0x0007
                &&& found.started == Some(Kind::AMPGD6R2) ==> vid == 0x3142 && pid == 0x0060
                &&& final(self).renderers@.dom().contains(device_id@)
                &&& final(self).renderers@[device_id@].ticket == found.ticket
            },
            forall|other: Seq<char>|
                #![trigger final(self).renderers@.dom().contains(other)]
                other != device_id@ ==> {
                    &&& final(self).renderers@.dom().contains(other) <==> old(
                        self,
                    ).renderers@.dom().contains(other)
                    &&& old(self).renderers@.dom().contains(other) ==> final(self).renderers@[other] == old(self).renderers@[other]
                },
    {
        if let Some(renderer) = self.renderers.get(device_id) {
            return Ok(RendererFound { ticket: renderer.ticket, started: None });
        }
        match resolve_device_kind(vid, pid) {
            Err(err) => Err(err),
            Ok(kind) => {
                let ticket: u64 = self.issued;
                self.issued = ticket + 1;
                let _ = self.renderers.insert(device_id.clone(), Renderer { ticket, handle });
                Ok(RendererFound { ticket, started: Some(kind) })
            },
        }
    }

    /// Forgets a deck's renderer, if it still is the one with the given
    /// ticket. A newer one stays.
    pub fn remove_renderer_handle(&mut self, device_id: &String, ticket: u64) -> (removed: bool)
        requires
            old(self).wf(),
        ensures
            final(self).wf(),
            final(self).comes_from(*old(self)),
            final(self).tokens == old(self).tokens,
            final(self).devices == old(self).devices,
            final(self).issued == old(self).issued,
            removed == (old(self).renderers@.dom().contains(device_id@) && old(
                self,
            ).renderers@[device_id@].ticket == ticket),
            final(self).renderers@ == if removed {
                old(self).renderers@.remove(device_id@)
            } else {
                old(self).renderers@
            },
    {
        let current = match self.renderers.get(device_id) {
            Some(renderer) => renderer.ticket == ticket,
            None => false,
        };
        if current {
            let _ = self.renderers.remove(device_id);
        }
        current
    }

    /// Forgets a deck. Its token and its renderer are handed out, so that they
    /// can be told.
    pub fn cleanup_device_state(&mut self, id: &String) -> (left: Forgotten<T, H>)
        requires
            old(self).wf(),
        ensures
            final(self).wf(),
            final(self).comes_from(*old(self)),
            final(self).tokens@ == old(self).tokens@.remove(id@),
            final(self).devices@ == old(self).devices@.remove(id@),
            final(self).renderers@ == old(self).renderers@.remove(id@),
            final(self).issued == old(self).issued,
            match left.token {
                Some(token) => old(self).tokens@.dom().contains(id@) && token == old(
                    self,
                ).tokens@[id@],
                None => !old(self).tokens@.dom().contains(id@),
            },
            match left.renderer {
                Some(renderer) => old(self).renderers@.dom().contains(id@) && renderer == old(
                    self,
                ).renderers@[id@],
                None => !old(self).renderers@.dom().contains(id@),
            },
    {
        let token = self.tokens.remove(id);
        let _ = self.devices.remove(id);
        let renderer = self.renderers.remove(id);
        Forgotten { token, renderer }
    }
}

impl<T, D, H> DeviceTables<T, D, H> {
    /// These tables come from earlier ones: each renderer was there before, or
    /// has a ticket that was handed out since.
    pub open spec fn comes_from(self, before: DeviceTables<T, D, H>) -> bool {
        &&& before.issued <= self.issued
        &&& forall|id: Seq<char>| #[trigger]
            self.renderers@.dom().contains(id) ==> {
                ||| before.renderers@.dom().contains(id) && before.renderers@[id]
                    == self.renderers@[id]
                ||| before.issued <= self.renderers@[id].ticket
            }
    }
}

/// Tables that come from tables that come from others come from those.
pub proof fn history_of_tables_adds_up<T, D, H>(
    first: DeviceTables<T, D, H>,
    second: DeviceTables<T, D, H>,
    third: DeviceTables<T, D, H>,
)
    requires
        second.comes_from(first),
        third.comes_from(second),
    ensures
        third.comes_from(first),
{
    assert forall|id: Seq<char>| #[trigger] third.renderers@.dom().contains(id) implies {
        ||| first.renderers@.dom().contains(id) && first.renderers@[id] == third.renderers@[id]
        ||| first.issued <= third.renderers@[id].ticket
    } by {
        assert(second.renderers@.dom().contains(id) || second.issued
            <= third.renderers@[id].ticket);
    }
}

/// Once a renderer is forgotten, its ticket never stands for a renderer of the
/// deck again. So a worker that comes to its end late takes no later renderer
/// along.
pub proof fn forgotten_tickets_stay_forgotten<T, D, H>(
    before: DeviceTables<T, D, H>,
    after: DeviceTables<T, D, H>,
    device_id: Seq<char>,
    ticket: u64,
)
    requires
        after.comes_from(before),
        ticket < before.issued,
        !(before.renderers@.dom().contains(device_id) && before.renderers@[device_id].ticket
            == ticket),
    ensures
        !(after.renderers@.dom().contains(device_id) && after.renderers@[device_id].ticket
            == ticket),
{
}

} // verus!

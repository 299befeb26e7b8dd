//! The shared storage in memory: entries held by their content, and the two
//! well-known anchors whose links make them discoverable.

use crate::error::ChatError;
use crate::message::{lookup_view, lookup_views, Entry, EntryView};
use vstd::prelude::*;

verus! {

/// The two well-known roots of the index.
#[derive(Debug, Clone, Copy, PartialEq, Eq, Structural)]
pub enum Anchor {
    /// The root under which the identities of the peers are linked.
    Agents,
    /// The root under which the chat messages are linked.
    Messages,
}

impl Anchor {
    /// The well-known name from which the anchor's address is derived.
    pub fn path(&self) -> (path: &'static str)
        ensures
            *self == Anchor::Agents ==> path@ == "agents"@,
            *self == Anchor::Messages ==> path@ == "messages"@,
    {
        match self {
            Anchor::Agents => "agents",
            Anchor::Messages => "messages",
        }
    }
}

/// The reference of an entry, derived from its content alone. This storage
/// takes the content itself for the reference, so that equal content has one
/// address and different content never shares one.
#[derive(Debug, Clone, PartialEq)]
pub struct Address(Entry);

impl View for Address {
    type V = EntryView;

    closed spec fn view(&self) -> EntryView {
        self.0@
    }
}

/// The contents that a sequence of addresses refers to, in order.
pub open spec fn address_views(addresses: Seq<Address>) -> Seq<EntryView> {
    addresses.map_values(|a: Address| a@)
}

/// One write to the storage.
#[derive(Debug, Clone, PartialEq)]
pub enum Write {
    /// Store this entry under the address of its content.
    Entry(Entry),
    /// Put a link under this anchor, to the address of this content.
    Link(Anchor, Entry),
}

/// A write as a mathematical value.
pub enum WriteView {
    Entry(EntryView),
    Link(Anchor, EntryView),
}

impl View for Write {
    type V = WriteView;

    open spec fn view(&self) -> WriteView {
        match self {
            Write::Entry(entry) => WriteView::Entry(entry@),
            Write::Link(anchor, target) => WriteView::Link(*anchor, target@),
        }
    }
}

/// The views of a sequence of writes, in order.
pub open spec fn write_views(writes: Seq<Write>) -> Seq<WriteView> {
    writes.map_values(|w: Write| w@)
}

/// One stored entry as a mathematical value.
pub struct SlotView {
    pub content: EntryView,
    /// Whether a lookup of the entry succeeds at present.
    pub available: bool,
}

/// The storage as a mathematical value.
#[verifier::ext_equal]
pub struct DhtView {
    /// The stored entries, in the order in which their content first came.
    pub slots: Seq<SlotView>,
    /// The targets of the identity anchor's links, in the order of insertion.
    pub agent_links: Seq<EntryView>,
    /// The targets of the message anchor's links, in the order of insertion.
    pub message_links: Seq<EntryView>,
    /// Whether the storage takes writes at present.
    pub writable: bool,
}

/// The slot `slot`, made available if it holds `content`.
pub open spec fn restored(slot: SlotView, content: EntryView) -> SlotView {
    if slot.content == content {
        SlotView { content: slot.content, available: true }
    } else {
        slot
    }
}

/// The slot `slot`, made unavailable if it holds `content`.
pub open spec fn withheld(slot: SlotView, content: EntryView) -> SlotView {
    if slot.content == content {
        SlotView { content: slot.content, available: false }
    } else {
        slot
    }
}

impl DhtView {
    /// The storage with nothing in it, taking writes.
    pub open spec fn empty() -> DhtView {
        DhtView {
            slots: Seq::empty(),
            agent_links: Seq::empty(),
            message_links: Seq::empty(),
            writable: true,
        }
    }

    /// Whether an entry with this content is stored.
    pub open spec fn holds(self, content: EntryView) -> bool {
        exists|i: int| 0 <= i < self.slots.len() && (#[trigger] self.slots[i]).content == content
    }

    /// Whether a lookup of this content succeeds.
    pub open spec fn resolves(self, content: EntryView) -> bool {
        exists|i: int|
            0 <= i < self.slots.len() && (#[trigger] self.slots[i]).content == content
                && self.slots[i].available
    }

    /// No content is stored twice.
    pub open spec fn distinct(self) -> bool {
        forall|i: int, j: int|
            0 <= i < j < self.slots.len() ==> (#[trigger] self.slots[i]).content != (
            #[trigger] self.slots[j]).content
    }

    /// What a lookup of `address` gives.
    pub open spec fn get(self, address: EntryView) -> Option<EntryView> {
        if self.resolves(address) {
            Some(address)
        } else {
            None
        }
    }

    /// `get` as a function on addresses.
    pub open spec fn getter(self) -> spec_fn(EntryView) -> Option<EntryView> {
        |address: EntryView| self.get(address)
    }

    /// The targets of an anchor's links, in the order of insertion.
    pub open spec fn links(self, anchor: Anchor) -> Seq<EntryView> {
        match anchor {
            Anchor::Agents => self.agent_links,
            Anchor::Messages => self.message_links,
        }
    }

    /// What following each of an anchor's links gives, in the order of the
    /// links.
    pub open spec fn lookups(self, anchor: Anchor) -> Seq<Option<EntryView>> {
        self.links(anchor).map_values(self.getter())
    }

    /// The storage after `content` was written: stored once, whether or not
    /// it was there before, and available.
    pub open spec fn with_entry(self, content: EntryView) -> DhtView {
        DhtView {
            slots: if self.holds(content) {
                self.slots.map_values(|slot: SlotView| restored(slot, content))
            } else {
                self.slots.push(SlotView { content, available: true })
            },
            ..self
        }
    }

    /// The storage after lookups of `content` began to fail.
    pub open spec fn without(self, content: EntryView) -> DhtView {
        DhtView { slots: self.slots.map_values(|slot: SlotView| withheld(slot, content)), ..self }
    }

    /// The storage after one more link was put under `anchor`.
    pub open spec fn with_link(self, anchor: Anchor, target: EntryView) -> DhtView {
        match anchor {
            Anchor::Agents => DhtView { agent_links: self.agent_links.push(target), ..self },
            Anchor::Messages => DhtView { message_links: self.message_links.push(target), ..self },
        }
    }

    /// The storage after one write.
    pub open spec fn written(self, write: WriteView) -> DhtView {
        match write {
            WriteView::Entry(content) => self.with_entry(content),
            WriteView::Link(anchor, target) => self.with_link(anchor, target),
        }
    }

    /// The storage after a run of writes, made in their order.
    pub open spec fn written_all(self, writes: Seq<WriteView>) -> DhtView
        decreases writes.len(),
    {
        if writes.len() == 0 {
            self
        } else {
            self.written_all(writes.drop_last()).written(writes.last())
        }
    }
}

/// After a write of `content`, a lookup succeeds for `content` and for
/// whatever it succeeded for before, and for nothing else.
pub proof fn law_write_resolves(dht: DhtView, content: EntryView, other: EntryView)
    ensures
        dht.with_entry(content).resolves(other) <==> other == content || dht.resolves(other),
        dht.with_entry(content).holds(other) <==> other == content || dht.holds(other),
{
    let after = dht.with_entry(content);
    if dht.holds(content) {
        let at = choose|i: int| 0 <= i < dht.slots.len() && (#[trigger] dht.slots[i]).content == content;
        assert(after.slots[at] == restored(dht.slots[at], content));
        if dht.resolves(other) {
            let i = choose|i: int|
                0 <= i < dht.slots.len() && (#[trigger] dht.slots[i]).content == other
                    && dht.slots[i].available;
            assert(after.slots[i] == restored(dht.slots[i], content));
        }
        if dht.holds(other) {
            let i = choose|i: int| 0 <= i < dht.slots.len() && (#[trigger] dht.slots[i]).content == other;
            assert(after.slots[i] == restored(dht.slots[i], content));
        }
        if after.resolves(other) {
            let i = choose|i: int|
                0 <= i < after.slots.len() && (#[trigger] after.slots[i]).content == other
                    && after.slots[i].available;
            assert(after.slots[i] == restored(dht.slots[i], content));
        }
        if after.holds(other) {
            let i = choose|i: int|
                0 <= i < after.slots.len() && (#[trigger] after.slots[i]).content == other;
            assert(after.slots[i] == restored(dht.slots[i], content));
        }
    } else {
        let last = dht.slots.len() as int;
        assert(after.slots[last].content == content && after.slots[last].available);
        if dht.resolves(other) {
            let i = choose|i: int|
                0 <= i < dht.slots.len() && (#[trigger] dht.slots[i]).content == other
                    && dht.slots[i].available;
            assert(after.slots[i] == dht.slots[i]);
        }
        if dht.holds(other) {
            let i = choose|i: int| 0 <= i < dht.slots.len() && (#[trigger] dht.slots[i]).content == other;
            assert(after.slots[i] == dht.slots[i]);
        }
        if after.resolves(other) && other != content {
            let i = choose|i: int|
                0 <= i < after.slots.len() && (#[trigger] after.slots[i]).content == other
                    && after.slots[i].available;
            assert(after.slots[i] == dht.slots[i]);
        }
        if after.holds(other) && other != content {
            let i = choose|i: int|
                0 <= i < after.slots.len() && (#[trigger] after.slots[i]).content == other;
            assert(after.slots[i] == dht.slots[i]);
        }
    }
}

/// Content addressing: a write stores its content once. Content that was
/// stored already takes no second slot, content that was not takes one, and
/// a storage without doubles stays so.
pub proof fn law_write_stores_once(dht: DhtView, content: EntryView)
    requires
        dht.distinct(),
    ensures
        dht.with_entry(content).distinct(),
        dht.with_entry(content).holds(content),
        dht.with_entry(content).slots.len() == if dht.holds(content) {
            dht.slots.len()
        } else {
            dht.slots.len() + 1
        },
{
    let after = dht.with_entry(content);
    law_write_resolves(dht, content, content);
    if dht.holds(content) {
        assert forall|i: int, j: int| 0 <= i < j < after.slots.len() implies (
        #[trigger] after.slots[i]).content != (#[trigger] after.slots[j]).content by {
            assert(after.slots[i].content == dht.slots[i].content);
            assert(after.slots[j].content == dht.slots[j].content);
        }
    } else {
        assert forall|i: int, j: int| 0 <= i < j < after.slots.len() implies (
        #[trigger] after.slots[i]).content != (#[trigger] after.slots[j]).content by {
            assert(after.slots[i] == dht.slots[i]);
            if j < dht.slots.len() {
                assert(after.slots[j] == dht.slots[j]);
            }
        }
    }
}

/// After lookups of `content` began to fail, a lookup succeeds for whatever
/// it succeeded for before, `content` left out. What is stored stays stored,
/// and a storage without doubles stays so.
pub proof fn law_withheld_fails_alone(dht: DhtView, content: EntryView, other: EntryView)
    ensures
        dht.without(content).resolves(other) <==> other != content && dht.resolves(other),
        dht.without(content).holds(other) <==> dht.holds(other),
        dht.distinct() ==> dht.without(content).distinct(),
{
    let after = dht.without(content);
    if dht.resolves(other) {
        let i = choose|i: int|
            0 <= i < dht.slots.len() && (#[trigger] dht.slots[i]).content == other
                && dht.slots[i].available;
        assert(after.slots[i] == withheld(dht.slots[i], content));
    }
    if dht.holds(other) {
        let i = choose|i: int| 0 <= i < dht.slots.len() && (#[trigger] dht.slots[i]).content == other;
        assert(after.slots[i] == withheld(dht.slots[i], content));
    }
    if after.resolves(other) {
        let i = choose|i: int|
            0 <= i < after.slots.len() && (#[trigger] after.slots[i]).content == other
                && after.slots[i].available;
        assert(after.slots[i] == withheld(dht.slots[i], content));
    }
    if after.holds(other) {
        let i = choose|i: int|
            0 <= i < after.slots.len() && (#[trigger] after.slots[i]).content == other;
        assert(after.slots[i] == withheld(dht.slots[i], content));
    }
    if dht.distinct() {
        assert forall|i: int, j: int| 0 <= i < j < after.slots.len() implies (
        #[trigger] after.slots[i]).content != (#[trigger] after.slots[j]).content by {
            assert(after.slots[i].content == dht.slots[i].content);
            assert(after.slots[j].content == dht.slots[j].content);
        }
    }
}

struct Slot {
    entry: Entry,
    available: bool,
}

impl View for Slot {
    type V = SlotView;

    closed spec fn view(&self) -> SlotView {
        SlotView { content: self.entry@, available: self.available }
    }
}

/// The storage that all peers share: append-only, addressed by content.
pub struct Dht {
    slots: Vec<Slot>,
    agent_links: Vec<Address>,
    message_links: Vec<Address>,
    writable: bool,
}

impl View for Dht {
    type V = DhtView;

    closed spec fn view(&self) -> DhtView {
        DhtView {
            slots: self.slots@.map_values(|slot: Slot| slot@),
            agent_links: address_views(self.agent_links@),
            message_links: address_views(self.message_links@),
            writable: self.writable,
        }
    }
}

impl Dht {
    /// An empty storage that takes writes.
    pub fn new() -> (dht: Dht)
        ensures
            dht@ == DhtView::empty(),
            dht@.distinct(),
    {
        let dht = Dht {
            slots: Vec::new(),
            agent_links: Vec::new(),
            message_links: Vec::new(),
            writable: true,
        };
        assert(dht@ =~~= DhtView::empty());
        dht
    }

    /// The address of an entry: a function of its content alone.
    pub fn hash_entry(entry: &Entry) -> (address: Address)
        ensures
            address@ == entry@,
    {
        Address(entry.duplicate())
    }

    /// Makes the storage take writes, or refuse them.
    pub fn set_writable(&mut self, writable: bool)
        ensures
            final(self)@ == (DhtView { writable, ..old(self)@ }),
    {
        self.writable = writable;
        assert(self@ =~~= (DhtView { writable, ..old(self)@ }));
    }

    /// How many entries are stored.
    pub fn entry_count(&self) -> (count: usize)
        ensures
            count == self@.slots.len(),
    {
        self.slots.len()
    }

    /// How many links an anchor has.
    pub fn link_count(&self, anchor: Anchor) -> (count: usize)
        ensures
            count == self@.links(anchor).len(),
    {
        match anchor {
            Anchor::Agents => self.agent_links.len(),
            Anchor::Messages => self.message_links.len(),
        }
    }

    /// Stores an entry under the address of its content. Content that is
    /// stored already is not stored again. Refused, with nothing changed,
    /// while the storage takes no writes.
    pub fn create_entry(&mut self, entry: Entry) -> (created: Result<Address, ChatError>)
        ensures
            created is Ok <==> old(self)@.writable,
            created matches Ok(address) ==> address@ == entry@ && final(self)@ == old(self)@.with_entry(
                entry@,
            ),
            created matches Err(error) ==> error == ChatError::StorageWrite && final(self)@ == old(
                self,
            )@,
            old(self)@.distinct() ==> final(self)@.distinct(),
    {
        if !self.writable {
            return Err(ChatError::StorageWrite);
        }
        let address = Address(entry.duplicate());
        let ghost before = self.slots@.map_values(|slot: Slot| slot@);
        let ghost content = entry@;
        let mut found: bool = false;
        let mut i: usize = 0;
        while i < self.slots.len()
            invariant
                i <= self.slots.len(),
                self.slots.len() == before.len(),
                entry@ == content,
                self.writable == old(self).writable,
                self.agent_links == old(self).agent_links,
                self.message_links == old(self).message_links,
                forall|j: int| 0 <= j < i ==> (#[trigger] self.slots@[j])@ == restored(before[j], content),
                forall|j: int| i <= j < before.len() ==> (#[trigger] self.slots@[j])@ == before[j],
                found <==> exists|j: int| 0 <= j < i && (#[trigger] before[j]).content == content,
            decreases self.slots.len() - i,
        {
            if self.slots[i].entry.same_as(&entry) {
                let kept = self.slots[i].entry.duplicate();
                self.slots.set(i, Slot { entry: kept, available: true });
                found = true;
            }
            i += 1;
        }
        if !found {
            self.slots.push(Slot { entry, available: true });
            assert(!old(self)@.holds(content));
        } else {
            assert(old(self)@.holds(content));
        }
        assert(self@.slots =~= old(self)@.with_entry(content).slots);
        assert(self@ =~~= old(self)@.with_entry(content));
        proof {
            if old(self)@.distinct() {
                law_write_stores_once(old(self)@, content);
            }
        }
        Ok(address)
    }

    /// Puts one more link under an anchor, after those that are there.
    /// Refused, with nothing changed, while the storage takes no writes.
    pub fn create_link(&mut self, anchor: Anchor, target: Address) -> (linked: Result<
        (),
        ChatError,
    >)
        ensures
            linked is Ok <==> old(self)@.writable,
            linked is Ok ==> final(self)@ == old(self)@.with_link(anchor, target@),
            linked matches Err(error) ==> error == ChatError::StorageWrite && final(self)@ == old(
                self,
            )@,
            old(self)@.distinct() ==> final(self)@.distinct(),
    {
        if !self.writable {
            return Err(ChatError::StorageWrite);
        }
        match anchor {
            Anchor::Agents => {
                self.agent_links.push(target);
                assert(self@.agent_links =~= old(self)@.agent_links.push(target@));
            },
            Anchor::Messages => {
                self.message_links.push(target);
                assert(self@.message_links =~= old(self)@.message_links.push(target@));
            },
        }
        assert(self@ =~~= old(self)@.with_link(anchor, target@));
        Ok(())
    }

    /// Makes one write. Refused, with nothing changed, while the storage
    /// takes no writes.
    pub fn apply(&mut self, write: &Write) -> (applied: Result<(), ChatError>)
        ensures
            applied is Ok <==> old(self)@.writable,
            applied is Ok ==> final(self)@ == old(self)@.written(write@),
            applied matches Err(error) ==> error == ChatError::StorageWrite && final(self)@ == old(
                self,
            )@,
            old(self)@.distinct() ==> final(self)@.distinct(),
    {
        match write {
            Write::Entry(entry) => match self.create_entry(entry.duplicate()) {
                Ok(_) => Ok(()),
                Err(error) => Err(error),
            },
            Write::Link(anchor, target) => self.create_link(*anchor, Dht::hash_entry(target)),
        }
    }

    /// Makes a run of writes in their order, and stops at the first that is
    /// refused. While the storage takes no writes, a run that holds a write
    /// fails with nothing changed.
    pub fn apply_all(&mut self, writes: &Vec<Write>) -> (applied: Result<(), ChatError>)
        ensures
            applied is Ok <==> old(self)@.writable || writes.len() == 0,
            applied is Ok ==> final(self)@ == old(self)@.written_all(write_views(writes@)),
            applied matches Err(error) ==> error == ChatError::StorageWrite && final(self)@ == old(
                self,
            )@,
            old(self)@.distinct() ==> final(self)@.distinct(),
    {
        let ghost views = write_views(writes@);
        let mut i: usize = 0;
        while i < writes.len()
            invariant
                i <= writes.len(),
                views == write_views(writes@),
                self@ == old(self)@.written_all(views.take(i as int)),
                self@.writable == old(self)@.writable,
                i > 0 ==> old(self)@.writable,
                old(self)@.distinct() ==> self@.distinct(),
            decreases writes.len() - i,
        {
            proof {
                assert(views.take(i + 1).drop_last() =~= views.take(i as int));
                assert(views.take(i + 1).last() == writes@[i as int]@);
            }
            match self.apply(&writes[i]) {
                Ok(()) => {},
                Err(error) => {
                    return Err(error);
                },
            }
            i += 1;
        }
        assert(views.take(views.len() as int) =~= views);
        Ok(())
    }

    /// The targets of an anchor's links, in the order of insertion.
    pub fn get_links(&self, anchor: Anchor) -> (targets: Vec<Address>)
        ensures
            address_views(targets@) == self@.links(anchor),
    {
        let links = match anchor {
            Anchor::Agents => &self.agent_links,
            Anchor::Messages => &self.message_links,
        };
        let mut targets: Vec<Address> = Vec::new();
        let mut i: usize = 0;
        while i < links.len()
            invariant
                i <= links.len(),
                address_views(targets@) == address_views(links@.take(i as int)),
            decreases links.len() - i,
        {
            let ghost before = targets@;
            targets.push(Address(links[i].0.duplicate()));
            proof {
                assert(links@.take(i + 1) =~= links@.take(i as int).push(links@[i as int]));
                assert(address_views(targets@) =~= address_views(before).push(links@[i as int]@));
                assert(address_views(links@.take(i + 1)) =~= address_views(
                    links@.take(i as int),
                ).push(links@[i as int]@));
            }
            i += 1;
        }
        assert(links@.take(links@.len() as int) =~= links@);
        targets
    }

    /// Looks an address up: the entry with that content, if it is stored and
    /// available, and nothing otherwise.
    pub fn get(&self, address: &Address) -> (found: Option<Entry>)
        ensures
            lookup_view(found) == self@.get(address@),
    {
        let mut i: usize = 0;
        while i < self.slots.len()
            invariant
                i <= self.slots.len(),
                forall|j: int|
                    0 <= j < i ==> !((#[trigger] self@.slots[j]).content == address@
                        && self@.slots[j].available),
            decreases self.slots.len() - i,
        {
            if self.slots[i].available && self.slots[i].entry.same_as(&address.0) {
                assert(self@.slots[i as int].content == address@ && self@.slots[i as int].available);
                return Some(self.slots[i].entry.duplicate());
            }
            assert(self@.slots[i as int] == self.slots@[i as int]@);
            i += 1;
        }
        None
    }

    /// Follows every link of an anchor, in the order of the links: for each
    /// the entry behind it, or nothing where the lookup fails. A failed
    /// lookup fails nothing but itself.
    pub fn follow_links(&self, anchor: Anchor) -> (lookups: Vec<Option<Entry>>)
        ensures
            lookup_views(lookups@) == self@.lookups(anchor),
    {
        let targets = self.get_links(anchor);
        let mut lookups: Vec<Option<Entry>> = Vec::new();
        let mut i: usize = 0;
        while i < targets.len()
            invariant
                i <= targets.len(),
                lookup_views(lookups@) == address_views(targets@.take(i as int)).map_values(
                    self@.getter(),
                ),
            decreases targets.len() - i,
        {
            let ghost before = lookups@;
            let found = self.get(&targets[i]);
            lookups.push(found);
            proof {
                assert(targets@.take(i + 1) =~= targets@.take(i as int).push(targets@[i as int]));
                assert(lookup_views(lookups@) =~= lookup_views(before).push(lookup_view(found)));
                assert(address_views(targets@.take(i + 1)).map_values(self@.getter())
                    =~= address_views(targets@.take(i as int)).map_values(self@.getter()).push(
                    self@.get(targets@[i as int]@),
                ));
            }
            i += 1;
        }
        assert(targets@.take(targets@.len() as int) =~= targets@);
        lookups
    }

    /// Makes lookups of an address fail from now on, as they do where the
    /// entry was lost or cannot be reached. The links to it stay.
    pub fn withhold(&mut self, address: &Address)
        ensures
            final(self)@ == old(self)@.without(address@),
            old(self)@.distinct() ==> final(self)@.distinct(),
    {
        let ghost before = self.slots@.map_values(|slot: Slot| slot@);
        let mut i: usize = 0;
        while i < self.slots.len()
            invariant
                i <= self.slots.len(),
                self.slots.len() == before.len(),
                self.writable == old(self).writable,
                self.agent_links == old(self).agent_links,
                self.message_links == old(self).message_links,
                forall|j: int|
                    0 <= j < i ==> (#[trigger] self.slots@[j])@ == withheld(before[j], address@),
                forall|j: int| i <= j < before.len() ==> (#[trigger] self.slots@[j])@ == before[j],
            decreases self.slots.len() - i,
        {
            if self.slots[i].entry.same_as(&address.0) {
                let kept = self.slots[i].entry.duplicate();
                self.slots.set(i, Slot { entry: kept, available: false });
            }
            i += 1;
        }
        assert(self@.slots =~= old(self)@.without(address@).slots);
        assert(self@ =~~= old(self)@.without(address@));
        proof {
            law_withheld_fails_alone(old(self)@, address@, address@);
        }
    }
}

} // verus!

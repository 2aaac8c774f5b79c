//! Process-wide registry: the map from canvas identifier to its live handle.
//!
//! A handle bundles the canvas's bounded outbound command queue with its
//! last-known configuration. An identifier exists in the registry exactly as
//! long as the canvas session that owns it; identifiers are decimal renderings
//! of a counter that only grows, so none is ever assigned twice.

use vstd::prelude::*;

use crate::ids::{dec_of, format_id, lemma_identifiers_distinct};
use crate::messages::{Config, Message, MessageView};

verus! {

/// Upper bound on commands pending for one canvas.
pub const QUEUE_CAPACITY: usize = 10;

/// Handle of one live canvas: pending commands, oldest first, and the
/// canvas's most recent configuration.
#[derive(Debug)]
pub struct Canvas {
    queue: Vec<Message>,
    config: Config,
}

/// Mathematical state of a canvas handle.
#[verifier::ext_equal]
pub ghost struct CanvasView {
    pub queue: Seq<MessageView>,
    pub config: Config,
}

struct CanvasEntry {
    key: u64,
    name: String,
    canvas: Canvas,
}

/// Mathematical state of one registry slot.
#[verifier::ext_equal]
pub ghost struct EntryView {
    pub key: nat,
    pub name: Seq<char>,
    pub canvas: CanvasView,
}

impl DeepView for Canvas {
    type V = CanvasView;

    closed spec fn deep_view(&self) -> CanvasView {
        CanvasView { queue: self.queue.deep_view(), config: self.config }
    }
}

impl DeepView for CanvasEntry {
    type V = EntryView;

    closed spec fn deep_view(&self) -> EntryView {
        EntryView { key: self.key as nat, name: self.name@, canvas: self.canvas.deep_view() }
    }
}

/// Whether some slot carries this identifier.
pub open spec fn is_registered(s: Seq<EntryView>, name: Seq<char>) -> bool {
    exists|i: int| 0 <= i < s.len() && s[i].name == name
}

/// The slot carrying this identifier (meaningful when one exists).
pub open spec fn idx_of(s: Seq<EntryView>, name: Seq<char>) -> int {
    choose|i: int| 0 <= i < s.len() && s[i].name == name
}

/// Cached configuration of a registered canvas.
pub open spec fn config_of(s: Seq<EntryView>, name: Seq<char>) -> Config {
    s[idx_of(s, name)].canvas.config
}

/// Pending commands of a registered canvas, oldest first.
pub open spec fn queue_of(s: Seq<EntryView>, name: Seq<char>) -> Seq<MessageView> {
    s[idx_of(s, name)].canvas.queue
}

/// No identifier occupies two slots.
pub open spec fn unique_names(s: Seq<EntryView>) -> bool {
    forall|i: int, j: int| 0 <= i < j < s.len() ==> s[i].name != s[j].name
}

/// Every pending command is a `Create`.
pub open spec fn all_create(q: Seq<MessageView>) -> bool {
    forall|k: int| 0 <= k < q.len() ==> (#[trigger] q[k]) is Create
}

/// Well-formedness of the registry's slots against its identifier counter.
pub open spec fn entries_wf(s: Seq<EntryView>, next: nat) -> bool {
    &&& forall|i: int| 0 <= i < s.len() ==> (#[trigger] s[i]).key < next
    &&& forall|i: int| 0 <= i < s.len() ==> (#[trigger] s[i]).name == dec_of(s[i].key)
    &&& forall|i: int, j: int| 0 <= i < j < s.len() ==> s[i].key != s[j].key
    &&& forall|i: int| 0 <= i < s.len() ==> (#[trigger] s[i]).canvas.queue.len()
        <= QUEUE_CAPACITY as nat
    &&& forall|i: int| 0 <= i < s.len() ==> all_create((#[trigger] s[i]).canvas.queue)
}

/// Slot created for a fresh registration: empty queue, the offered
/// configuration, and the decimal rendering of `key` as identifier.
pub open spec fn entry_for(key: nat, config: Config) -> EntryView {
    EntryView {
        key,
        name: dec_of(key),
        canvas: CanvasView { queue: Seq::empty(), config },
    }
}

/// Slot sequence after the registered canvas `name` cached `config`.
pub open spec fn with_config(s: Seq<EntryView>, name: Seq<char>, config: Config) -> Seq<
    EntryView,
> {
    let i = idx_of(s, name);
    s.update(i, EntryView {
        key: s[i].key,
        name: s[i].name,
        canvas: CanvasView { queue: s[i].canvas.queue, config },
    })
}

/// Slot sequence after a command was queued for the registered canvas `name`.
pub open spec fn with_queue_push(s: Seq<EntryView>, name: Seq<char>, m: MessageView) -> Seq<
    EntryView,
> {
    let i = idx_of(s, name);
    s.update(i, EntryView {
        key: s[i].key,
        name: s[i].name,
        canvas: CanvasView { queue: s[i].canvas.queue.push(m), config: s[i].canvas.config },
    })
}

/// Slot sequence after the registered canvas `name` drained its oldest command.
pub open spec fn with_queue_popped(s: Seq<EntryView>, name: Seq<char>) -> Seq<EntryView> {
    let i = idx_of(s, name);
    s.update(i, EntryView {
        key: s[i].key,
        name: s[i].name,
        canvas: CanvasView { queue: s[i].canvas.queue.drop_first(), config: s[i].canvas.config },
    })
}

/// Slot sequence after the registered canvas `name` was removed.
pub open spec fn without(s: Seq<EntryView>, name: Seq<char>) -> Seq<EntryView> {
    s.remove(idx_of(s, name))
}

/// The slot index of a registered identifier is in range, carries the
/// identifier, and — under uniqueness — is the only slot that does.
pub proof fn lemma_idx_of(s: Seq<EntryView>, name: Seq<char>)
    requires
        unique_names(s),
        is_registered(s, name),
    ensures
        0 <= idx_of(s, name) < s.len(),
        s[idx_of(s, name)].name == name,
        forall|i: int| 0 <= i < s.len() && s[i].name == name ==> i == idx_of(s, name),
{
    let w = idx_of(s, name);
    assert(0 <= w < s.len() && s[w].name == name);
    assert forall|i: int| 0 <= i < s.len() && s[i].name == name implies i == w by {
        if i < w {
            assert(s[i].name != s[w].name);
        } else if i > w {
            assert(s[w].name != s[i].name);
        }
    }
}

/// Replacing slots without touching their identifiers preserves membership,
/// uniqueness, and slot indices.
pub proof fn lemma_same_names(s: Seq<EntryView>, t: Seq<EntryView>)
    requires
        s.len() == t.len(),
        forall|i: int| 0 <= i < s.len() ==> (#[trigger] t[i]).name == s[i].name,
        unique_names(s),
    ensures
        unique_names(t),
        forall|m: Seq<char>| #[trigger] is_registered(t, m) == is_registered(s, m),
        forall|m: Seq<char>| #[trigger] is_registered(s, m) ==> idx_of(t, m) == idx_of(s, m),
{
    assert forall|m: Seq<char>| #[trigger] is_registered(t, m) == is_registered(s, m) by {
        if is_registered(t, m) {
            let i = choose|i: int| 0 <= i < t.len() && t[i].name == m;
            assert(s[i].name == m);
        }
        if is_registered(s, m) {
            let i = choose|i: int| 0 <= i < s.len() && s[i].name == m;
            assert(t[i].name == m);
        }
    }
    assert forall|m: Seq<char>| #[trigger] is_registered(s, m) implies idx_of(t, m) == idx_of(
        s,
        m,
    ) by {
        lemma_idx_of(s, m);
        assert(is_registered(t, m));
        let j = idx_of(t, m);
        assert(0 <= j < t.len() && t[j].name == m);
        assert(s[j].name == m);
    }
}

/// Appending a slot with a fresh identifier keeps the old slots as they are
/// and makes the new identifier registered.
pub proof fn lemma_push_entry(s: Seq<EntryView>, e: EntryView)
    requires
        unique_names(s),
        !is_registered(s, e.name),
    ensures
        unique_names(s.push(e)),
        is_registered(s.push(e), e.name),
        idx_of(s.push(e), e.name) == s.len(),
        config_of(s.push(e), e.name) == e.canvas.config,
        queue_of(s.push(e), e.name) == e.canvas.queue,
        forall|m: Seq<char>|
            m != e.name ==> #[trigger] is_registered(s.push(e), m) == is_registered(s, m),
        forall|m: Seq<char>|
            m != e.name && #[trigger] is_registered(s, m) ==> config_of(s.push(e), m)
                == config_of(s, m) && queue_of(s.push(e), m) == queue_of(s, m),
{
    let t = s.push(e);
    assert(t[s.len() as int] == e);
    assert forall|i: int| 0 <= i < s.len() implies #[trigger] t[i] == s[i] by {}
    assert(unique_names(t)) by {
        assert forall|i: int, j: int| 0 <= i < j < t.len() implies t[i].name != t[j].name by {
            if j < s.len() {
                assert(s[i].name != s[j].name);
            } else {
                if t[i].name == e.name {
                    assert(is_registered(s, e.name));
                }
            }
        }
    }
    assert(is_registered(t, e.name));
    lemma_idx_of(t, e.name);
    assert forall|m: Seq<char>|
        m != e.name implies #[trigger] is_registered(t, m) == is_registered(s, m) by {
        if is_registered(t, m) {
            let i = choose|i: int| 0 <= i < t.len() && t[i].name == m;
            assert(i < s.len());
            assert(s[i].name == m);
        }
        if is_registered(s, m) {
            let i = choose|i: int| 0 <= i < s.len() && s[i].name == m;
            assert(t[i].name == m);
        }
    }
    assert forall|m: Seq<char>|
        m != e.name && #[trigger] is_registered(s, m) implies config_of(t, m) == config_of(s, m)
        && queue_of(t, m) == queue_of(s, m) by {
        lemma_idx_of(s, m);
        lemma_idx_of(t, m);
        let i = idx_of(s, m);
        assert(t[i].name == m);
        assert(idx_of(t, m) == i);
    }
}

/// Overwriting one slot's handle while keeping its identifier: membership and
/// every other slot are untouched.
proof fn lemma_update_entry(s: Seq<EntryView>, i: int, e: EntryView)
    requires
        unique_names(s),
        0 <= i < s.len(),
        e.name == s[i].name,
    ensures
        unique_names(s.update(i, e)),
        forall|m: Seq<char>| #[trigger] is_registered(s.update(i, e), m) == is_registered(s, m),
        forall|m: Seq<char>|
            #[trigger] is_registered(s, m) ==> idx_of(s.update(i, e), m) == idx_of(s, m),
        is_registered(s, s[i].name),
        idx_of(s, s[i].name) == i,
{
    let t = s.update(i, e);
    assert forall|j: int| 0 <= j < s.len() implies (#[trigger] t[j]).name == s[j].name by {}
    lemma_same_names(s, t);
    assert(s[i].name == s[i].name);
    assert(is_registered(s, s[i].name));
    lemma_idx_of(s, s[i].name);
}

/// A configuration update changes exactly the named canvas's cached
/// configuration; identifiers, queues, and all other slots stay as they were.
pub proof fn lemma_with_config(s: Seq<EntryView>, name: Seq<char>, config: Config)
    requires
        unique_names(s),
        is_registered(s, name),
    ensures
        unique_names(with_config(s, name, config)),
        forall|m: Seq<char>|
            #[trigger] is_registered(with_config(s, name, config), m) == is_registered(s, m),
        config_of(with_config(s, name, config), name) == config,
        queue_of(with_config(s, name, config), name) == queue_of(s, name),
        forall|m: Seq<char>|
            m != name && #[trigger] is_registered(s, m) ==> config_of(
                with_config(s, name, config),
                m,
            ) == config_of(s, m) && queue_of(with_config(s, name, config), m) == queue_of(s, m),
{
    lemma_idx_of(s, name);
    let i = idx_of(s, name);
    let t = with_config(s, name, config);
    lemma_update_entry(s, i, t[i]);
    assert forall|m: Seq<char>|
        m != name && #[trigger] is_registered(s, m) implies config_of(t, m) == config_of(s, m)
        && queue_of(t, m) == queue_of(s, m) by {
        lemma_idx_of(s, m);
        assert(idx_of(t, m) == idx_of(s, m));
        assert(idx_of(s, m) != i);
    }
    assert(idx_of(t, name) == i);
}

/// Queuing a command for a canvas extends exactly that canvas's queue at the
/// tail; its configuration and every other slot stay as they were.
pub proof fn lemma_with_queue_push(s: Seq<EntryView>, name: Seq<char>, m0: MessageView)
    requires
        unique_names(s),
        is_registered(s, name),
    ensures
        unique_names(with_queue_push(s, name, m0)),
        forall|m: Seq<char>|
            #[trigger] is_registered(with_queue_push(s, name, m0), m) == is_registered(s, m),
        queue_of(with_queue_push(s, name, m0), name) == queue_of(s, name).push(m0),
        config_of(with_queue_push(s, name, m0), name) == config_of(s, name),
        forall|m: Seq<char>|
            m != name && #[trigger] is_registered(s, m) ==> config_of(
                with_queue_push(s, name, m0),
                m,
            ) == config_of(s, m) && queue_of(with_queue_push(s, name, m0), m) == queue_of(s, m),
{
    lemma_idx_of(s, name);
    let i = idx_of(s, name);
    let t = with_queue_push(s, name, m0);
    lemma_update_entry(s, i, t[i]);
    assert forall|m: Seq<char>|
        m != name && #[trigger] is_registered(s, m) implies config_of(t, m) == config_of(s, m)
        && queue_of(t, m) == queue_of(s, m) by {
        lemma_idx_of(s, m);
        assert(idx_of(t, m) == idx_of(s, m));
        assert(idx_of(s, m) != i);
    }
    assert(idx_of(t, name) == i);
}

/// Draining the oldest command shortens exactly that canvas's queue at the
/// head; its configuration and every other slot stay as they were.
pub proof fn lemma_with_queue_popped(s: Seq<EntryView>, name: Seq<char>)
    requires
        unique_names(s),
        is_registered(s, name),
    ensures
        unique_names(with_queue_popped(s, name)),
        forall|m: Seq<char>|
            #[trigger] is_registered(with_queue_popped(s, name), m) == is_registered(s, m),
        queue_of(with_queue_popped(s, name), name) == queue_of(s, name).drop_first(),
        config_of(with_queue_popped(s, name), name) == config_of(s, name),
        forall|m: Seq<char>|
            m != name && #[trigger] is_registered(s, m) ==> config_of(
                with_queue_popped(s, name),
                m,
            ) == config_of(s, m) && queue_of(with_queue_popped(s, name), m) == queue_of(s, m),
{
    lemma_idx_of(s, name);
    let i = idx_of(s, name);
    let t = with_queue_popped(s, name);
    lemma_update_entry(s, i, t[i]);
    assert forall|m: Seq<char>|
        m != name && #[trigger] is_registered(s, m) implies config_of(t, m) == config_of(s, m)
        && queue_of(t, m) == queue_of(s, m) by {
        lemma_idx_of(s, m);
        assert(idx_of(t, m) == idx_of(s, m));
        assert(idx_of(s, m) != i);
    }
    assert(idx_of(t, name) == i);
}

/// Removing a canvas unregisters exactly its identifier; every other canvas
/// keeps its slot, configuration, and queue.
pub proof fn lemma_without(s: Seq<EntryView>, name: Seq<char>)
    requires
        unique_names(s),
        is_registered(s, name),
    ensures
        unique_names(without(s, name)),
        !is_registered(without(s, name), name),
        forall|m: Seq<char>|
            m != name ==> #[trigger] is_registered(without(s, name), m) == is_registered(s, m),
        forall|m: Seq<char>|
            m != name && #[trigger] is_registered(s, m) ==> config_of(without(s, name), m)
                == config_of(s, m) && queue_of(without(s, name), m) == queue_of(s, m),
{
    lemma_idx_of(s, name);
    let i = idx_of(s, name);
    let t = without(s, name);
    s.remove_ensures(i);
    assert(t.len() == s.len() - 1);
    assert forall|j: int| 0 <= j < t.len() implies #[trigger] t[j] == (if j < i {
        s[j]
    } else {
        s[j + 1]
    }) by {}
    assert(unique_names(t)) by {
        assert forall|p: int, q: int| 0 <= p < q < t.len() implies t[p].name != t[q].name by {}
    }
    assert(!is_registered(t, name)) by {
        if is_registered(t, name) {
            let j = choose|j: int| 0 <= j < t.len() && t[j].name == name;
            if j < i {
                assert(s[j].name == name);
                assert(j == i);
            } else {
                assert(s[j + 1].name == name);
                assert(j + 1 == i);
            }
        }
    }
    assert forall|m: Seq<char>|
        m != name implies #[trigger] is_registered(t, m) == is_registered(s, m) by {
        if is_registered(t, m) {
            let j = choose|j: int| 0 <= j < t.len() && t[j].name == m;
            if j < i {
                assert(s[j].name == m);
            } else {
                assert(s[j + 1].name == m);
            }
        }
        if is_registered(s, m) {
            let j = choose|j: int| 0 <= j < s.len() && s[j].name == m;
            assert(j != i);
            if j < i {
                assert(t[j].name == m);
            } else {
                assert(t[j - 1].name == m);
            }
        }
    }
    assert forall|m: Seq<char>|
        m != name && #[trigger] is_registered(s, m) implies config_of(t, m) == config_of(s, m)
        && queue_of(t, m) == queue_of(s, m) by {
        lemma_idx_of(s, m);
        lemma_idx_of(t, m);
        let j = idx_of(s, m);
        let j2 = idx_of(t, m);
        if j2 < i {
            assert(s[j2].name == m);
            assert(j2 == j);
        } else {
            assert(s[j2 + 1].name == m);
            assert(j2 + 1 == j);
        }
    }
}

/// The connection registry: one slot per live canvas, plus the counter from
/// which fresh identifiers are minted.
pub struct Registry {
    entries: Vec<CanvasEntry>,
    next_key: u64,
}

/// Outcome of queueing a command for a canvas.
#[derive(Debug, PartialEq, Eq, Structural)]
pub enum EnqueueOutcome {
    /// The command now sits at the tail of the canvas's queue.
    Delivered,
    /// The queue is at capacity; nothing was stored (back-pressure).
    Busy,
    /// No canvas carries this identifier.
    Vanished,
}

/// Outcome of draining one command for a canvas.
#[derive(Debug)]
pub enum DequeueOutcome {
    /// The oldest pending command, removed from the queue.
    Forward(Message),
    /// Nothing pending.
    Idle,
    /// No canvas carries this identifier.
    Vanished,
}

impl View for Registry {
    type V = Seq<EntryView>;

    closed spec fn view(&self) -> Seq<EntryView> {
        self.entries.deep_view()
    }
}

impl Registry {
    /// Value of the identifier counter: every identifier handed out so far is
    /// the decimal rendering of a number below it.
    pub closed spec fn next_id(&self) -> nat {
        self.next_key as nat
    }

    /// Registry invariant: established by [`Registry::new`] and preserved by
    /// every operation.
    pub closed spec fn wf(&self) -> bool {
        entries_wf(self@, self.next_id())
    }

    /// The invariant, spelled out for callers: slots are well-formed against
    /// the counter and identifiers are pairwise distinct.
    pub proof fn lemma_wf_facts(&self)
        requires
            self.wf(),
        ensures
            entries_wf(self@, self.next_id()),
            unique_names(self@),
    {
        let s = self@;
        assert forall|i: int, j: int| 0 <= i < j < s.len() implies s[i].name != s[j].name by {
            lemma_identifiers_distinct(s[i].key, s[j].key);
        }
    }

    /// Every queue the registry holds is bounded by the capacity.
    pub proof fn lemma_queues_bounded(&self)
        requires
            self.wf(),
        ensures
            forall|name: Seq<char>|
                #[trigger] is_registered(self@, name) ==> queue_of(self@, name).len()
                    <= QUEUE_CAPACITY as nat,
    {
        self.lemma_wf_facts();
        assert forall|name: Seq<char>| #[trigger] is_registered(self@, name) implies queue_of(
            self@,
            name,
        ).len() <= QUEUE_CAPACITY as nat by {
            lemma_idx_of(self@, name);
        }
    }

    /// An empty registry.
    pub fn new() -> (r: Registry)
        ensures
            r.wf(),
            r@ == Seq::<EntryView>::empty(),
            r.next_id() == 0,
    {
        let r = Registry { entries: Vec::new(), next_key: 0 };
        proof {
            assert(r@ =~= Seq::<EntryView>::empty());
        }
        r
    }

    /// Number of live canvases.
    pub fn canvas_count(&self) -> (n: usize)
        ensures
            n == self@.len(),
    {
        self.entries.len()
    }

    /// Slot index that carries `id`, if any.
    fn find(&self, id: &String) -> (r: Option<usize>)
        requires
            self.wf(),
        ensures
            r matches Some(i) ==> i < self@.len() && self@[i as int].name == id@,
            r is Some ==> is_registered(self@, id@),
            r is None ==> !is_registered(self@, id@),
    {
        let n = self.entries.len();
        let mut i: usize = 0;
        while i < n
            invariant
                n == self@.len(),
                i <= n,
                forall|j: int| 0 <= j < i ==> (#[trigger] self@[j]).name != id@,
            decreases n - i,
        {
            if self.entries[i].name == *id {
                proof {
                    assert(self@[i as int].name == id@);
                }
                return Some(i);
            }
            i = i + 1;
        }
        None
    }

    /// Registers a canvas that offered `config`: mints a fresh identifier,
    /// creates its slot with an empty queue, and returns the identifier.
    /// Fails only when the identifier counter is exhausted, leaving the
    /// registry as it was.
    pub fn register(&mut self, config: Config) -> (r: Option<String>)
        requires
            old(self).wf(),
        ensures
            final(self).wf(),
            final(self).next_id() >= old(self).next_id(),
            old(self).next_id() < u64::MAX as nat ==> (r matches Some(id) && id@ == dec_of(
                old(self).next_id(),
            ) && !is_registered(old(self)@, id@) && final(self)@ == old(self)@.push(
                entry_for(old(self).next_id(), config),
            ) && final(self).next_id() == old(self).next_id() + 1),
            old(self).next_id() == u64::MAX as nat ==> r is None && *final(self) == *old(self),
    {
        if self.next_key == u64::MAX {
            return None;
        }
        let key = self.next_key;
        let name = format_id(key);
        let ghost s0 = self@;
        proof {
            self.lemma_wf_facts();
            assert forall|j: int| 0 <= j < s0.len() implies (#[trigger] s0[j]).name != dec_of(
                key as nat,
            ) by {
                lemma_identifiers_distinct(s0[j].key, key as nat);
            }
            assert(!is_registered(s0, dec_of(key as nat)));
        }
        let entry = CanvasEntry {
            key,
            name: name.clone(),
            canvas: Canvas { queue: Vec::new(), config },
        };
        proof {
            assert(entry.deep_view() =~= entry_for(key as nat, config));
        }
        self.entries.push(entry);
        self.next_key = key + 1;
        proof {
            assert(self@ =~= s0.push(entry_for(key as nat, config)));
            assert(entries_wf(self@, self.next_id())) by {
                assert forall|i: int| 0 <= i < self@.len() implies (#[trigger] self@[i]).key
                    < self.next_id() && self@[i].name == dec_of(self@[i].key) && self@[
                    i
                ].canvas.queue.len() <= QUEUE_CAPACITY as nat && all_create(
                    self@[i].canvas.queue,
                ) by {
                    if i < s0.len() {
                        assert(self@[i] == s0[i]);
                    }
                }
            }
        }
        Some(name)
    }

    /// Current configuration of the canvas carrying `id`, if one is
    /// registered.
    pub fn lookup_config(&self, id: &String) -> (r: Option<Config>)
        requires
            self.wf(),
        ensures
            is_registered(self@, id@) ==> r == Some(config_of(self@, id@)),
            !is_registered(self@, id@) ==> r is None,
    {
        proof {
            self.lemma_wf_facts();
        }
        match self.find(id) {
            Some(i) => {
                proof {
                    lemma_idx_of(self@, id@);
                }
                Some(self.entries[i].canvas.config)
            },
            None => None,
        }
    }

    /// Overwrites the cached configuration of the canvas carrying `id`.
    /// Returns whether such a canvas exists; when none does, the registry is
    /// unchanged.
    pub fn set_config(&mut self, id: &String, config: Config) -> (r: bool)
        requires
            old(self).wf(),
        ensures
            final(self).wf(),
            final(self).next_id() == old(self).next_id(),
            r == is_registered(old(self)@, id@),
            r ==> final(self)@ == with_config(old(self)@, id@, config),
            !r ==> *final(self) == *old(self),
    {
        proof {
            self.lemma_wf_facts();
        }
        let ghost s0 = self@;
        match self.find(id) {
            Some(i) => {
                proof {
                    lemma_idx_of(s0, id@);
                }
                self.entries[i].canvas.config = config;
                proof {
                    assert(self@ =~= with_config(s0, id@, config));
                    lemma_with_config(s0, id@, config);
                    assert(entries_wf(self@, self.next_id())) by {
                        assert forall|j: int| 0 <= j < self@.len() implies (#[trigger] self@[
                            j
                        ]).key < self.next_id() && self@[j].name == dec_of(self@[j].key)
                            && self@[j].canvas.queue.len() <= QUEUE_CAPACITY as nat
                            && all_create(self@[j].canvas.queue) by {
                            if j != i {
                                assert(self@[j] == s0[j]);
                            }
                        }
                    }
                }
                true
            },
            None => false,
        }
    }

    /// Queues a command for the canvas carrying `id`. The queue is bounded:
    /// at capacity the command is refused and the registry is unchanged, so a
    /// controller outrunning its canvas can only ever hold `QUEUE_CAPACITY`
    /// commands in memory.
    pub fn enqueue(&mut self, id: &String, message: Message) -> (r: EnqueueOutcome)
        requires
            old(self).wf(),
            message@ is Create,
        ensures
            final(self).wf(),
            final(self).next_id() == old(self).next_id(),
            !is_registered(old(self)@, id@) ==> r == EnqueueOutcome::Vanished && *final(self)
                == *old(self),
            is_registered(old(self)@, id@) && queue_of(old(self)@, id@).len() >= QUEUE_CAPACITY
                as nat ==> r == EnqueueOutcome::Busy && *final(self) == *old(self),
            is_registered(old(self)@, id@) && queue_of(old(self)@, id@).len() < QUEUE_CAPACITY
                as nat ==> r == EnqueueOutcome::Delivered && final(self)@ == with_queue_push(
                old(self)@,
                id@,
                message@,
            ),
    {
        proof {
            self.lemma_wf_facts();
        }
        let ghost s0 = self@;
        match self.find(id) {
            Some(i) => {
                proof {
                    lemma_idx_of(s0, id@);
                }
                if self.entries[i].canvas.queue.len() >= QUEUE_CAPACITY {
                    EnqueueOutcome::Busy
                } else {
                    self.entries[i].canvas.queue.push(message);
                    proof {
                        assert(self@[i as int].canvas.queue =~= s0[i as int].canvas.queue.push(
                            message@,
                        ));
                        assert(self@[i as int] == with_queue_push(s0, id@, message@)[i as int]);
                        assert(self@ =~= with_queue_push(s0, id@, message@));
                        lemma_with_queue_push(s0, id@, message@);
                        assert(entries_wf(self@, self.next_id())) by {
                            assert forall|j: int| 0 <= j < self@.len() implies (#[trigger] self@[
                                j
                            ]).key < self.next_id() && self@[j].name == dec_of(self@[j].key)
                                && self@[j].canvas.queue.len() <= QUEUE_CAPACITY as nat
                                && all_create(self@[j].canvas.queue) by {
                                if j != i {
                                    assert(self@[j] == s0[j]);
                                } else {
                                    assert(all_create(self@[j].canvas.queue)) by {
                                        assert forall|k: int|
                                            0 <= k < self@[j].canvas.queue.len() implies (
                                        #[trigger] self@[j].canvas.queue[k]) is Create by {
                                            if k < s0[j].canvas.queue.len() {
                                                assert(self@[j].canvas.queue[k]
                                                    == s0[j].canvas.queue[k]);
                                            }
                                        }
                                    }
                                }
                            }
                        }
                    }
                    EnqueueOutcome::Delivered
                }
            },
            None => EnqueueOutcome::Vanished,
        }
    }

    /// Removes and returns the oldest pending command of the canvas carrying
    /// `id`, if any.
    pub fn dequeue(&mut self, id: &String) -> (r: DequeueOutcome)
        requires
            old(self).wf(),
        ensures
            final(self).wf(),
            final(self).next_id() == old(self).next_id(),
            !is_registered(old(self)@, id@) ==> r is Vanished && *final(self) == *old(self),
            is_registered(old(self)@, id@) && queue_of(old(self)@, id@).len() == 0 ==> r is Idle
                && *final(self) == *old(self),
            is_registered(old(self)@, id@) && queue_of(old(self)@, id@).len() > 0 ==> (r matches
                DequeueOutcome::Forward(m) && m@ == queue_of(old(self)@, id@)[0] && m@ is Create
                && final(self)@ == with_queue_popped(old(self)@, id@)),
    {
        proof {
            self.lemma_wf_facts();
        }
        let ghost s0 = self@;
        match self.find(id) {
            Some(i) => {
                proof {
                    lemma_idx_of(s0, id@);
                }
                if self.entries[i].canvas.queue.len() == 0 {
                    DequeueOutcome::Idle
                } else {
                    let message = self.entries[i].canvas.queue.remove(0);
                    proof {
                        assert(s0[i as int].canvas.queue[0] is Create);
                        assert(self@ =~= with_queue_popped(s0, id@)) by {
                            assert(self.entries@[i as int].canvas.queue@.map_values(
                                |m: Message| m@,
                            ) =~= s0[i as int].canvas.queue.drop_first());
                            assert(self@[i as int] =~= with_queue_popped(s0, id@)[i as int]);
                        }
                        lemma_with_queue_popped(s0, id@);
                        assert(entries_wf(self@, self.next_id())) by {
                            assert forall|j: int| 0 <= j < self@.len() implies (#[trigger] self@[
                                j
                            ]).key < self.next_id() && self@[j].name == dec_of(self@[j].key)
                                && self@[j].canvas.queue.len() <= QUEUE_CAPACITY as nat
                                && all_create(self@[j].canvas.queue) by {
                                if j != i {
                                    assert(self@[j] == s0[j]);
                                } else {
                                    assert forall|k: int|
                                        0 <= k < self@[j].canvas.queue.len() implies (
                                    #[trigger] self@[j].canvas.queue[k]) is Create by {
                                        assert(self@[j].canvas.queue[k]
                                            == s0[j].canvas.queue[k + 1]);
                                    }
                                }
                            }
                        }
                    }
                    DequeueOutcome::Forward(message)
                }
            },
            None => DequeueOutcome::Vanished,
        }
    }

    /// Removes the slot of the canvas carrying `id`, if any. The identifier
    /// counter is untouched, so the identifier can never come back for a
    /// different canvas.
    pub fn remove(&mut self, id: &String) -> (r: bool)
        requires
            old(self).wf(),
        ensures
            final(self).wf(),
            final(self).next_id() == old(self).next_id(),
            r == is_registered(old(self)@, id@),
            !is_registered(final(self)@, id@),
            r ==> final(self)@ == without(old(self)@, id@),
            !r ==> *final(self) == *old(self),
    {
        proof {
            self.lemma_wf_facts();
        }
        let ghost s0 = self@;
        match self.find(id) {
            Some(i) => {
                proof {
                    lemma_idx_of(s0, id@);
                }
                self.entries.remove(i);
                proof {
                    s0.remove_ensures(i as int);
                    assert(self@ =~= without(s0, id@)) by {
                        assert(self.entries@.len() == s0.len() - 1);
                        assert forall|j: int| 0 <= j < self@.len() implies self@[j] == without(
                            s0,
                            id@,
                        )[j] by {
                            if j < i {
                                assert(self.entries@[j] == old(self).entries@[j]);
                            } else {
                                assert(self.entries@[j] == old(self).entries@[j + 1]);
                            }
                        }
                    }
                    lemma_without(s0, id@);
                    assert(entries_wf(self@, self.next_id())) by {
                        assert forall|j: int| 0 <= j < self@.len() implies (#[trigger] self@[
                            j
                        ]).key < self.next_id() && self@[j].name == dec_of(self@[j].key)
                            && self@[j].canvas.queue.len() <= QUEUE_CAPACITY as nat
                            && all_create(self@[j].canvas.queue) by {
                            if j < i {
                                assert(self@[j] == s0[j]);
                            } else {
                                assert(self@[j] == s0[j + 1]);
                            }
                        }
                    }
                }
                true
            },
            None => false,
        }
    }
}

} // verus!

//! Handles that native code holds on managed values.
use vstd::multiset::Multiset;
use vstd::prelude::*;
use crate::diagnostic::{fault, outcome, Diagnostic, Fault, Result};
use crate::value::Value;

verus! {

/// No raw constructor, value encoding, address, or mutable table entry is
/// behind it: a table slot and the token the slot had when it was given out.
#[derive(Clone, Copy, Debug, PartialEq, Eq, Structural)]
pub struct Handle(u64);

/// A handle that lives until it is released.
#[derive(Debug)]
pub struct PersistentHandle(Handle);

#[derive(Clone, Copy, Debug, PartialEq, Eq, Structural)]
pub enum HandleKind {
    Local,
    Persistent,
    BufferOwner,
    ForeignReference,
}

#[derive(Clone, Copy, Debug)]
pub struct Entry {
    pub token: u32,
    pub value: Option<Value>,
    pub kind: HandleKind,
}

/// The supply of tokens. Unique tokens prevent stale and cross-runtime
/// aliasing; they are never reused and never wrap.
#[derive(Debug)]
pub struct TokenSource {
    next: u32,
}

impl TokenSource {
    /// The next token to be given out.
    pub closed spec fn upcoming(&self) -> u32 {
        self.next
    }

    /// A supply that goes on after the tokens below `next`.
    pub fn starting_at(next: u32) -> (r: TokenSource)
        ensures
            r.upcoming() == next,
    {
        TokenSource { next }
    }

    /// The next token, unless the supply is exhausted.
    pub fn take(&mut self) -> (r: Option<u32>)
        ensures
            r == if old(self).upcoming() == u32::MAX {
                None
            } else {
                Some(old(self).upcoming())
            },
            final(self).upcoming() == if old(self).upcoming() == u32::MAX {
                u32::MAX
            } else {
                (old(self).upcoming() + 1) as u32
            },
    {
        if self.next == u32::MAX {
            None
        } else {
            let token = self.next;
            self.next = token + 1;
            Some(token)
        }
    }
}

impl Handle {
    pub closed spec fn word(self) -> u64 {
        self.0
    }

    /// The table slot.
    pub open spec fn slot(self) -> int {
        (self.word() as u32) as int
    }

    /// The token of the slot when the handle was given out.
    pub open spec fn token(self) -> int {
        ((self.word() >> 32) as u32) as int
    }

    /// The handle with a word.
    pub closed spec fn of(raw: u64) -> Handle {
        Handle(raw)
    }

    pub fn from_raw(raw: u64) -> (r: Handle)
        ensures
            r == Handle::of(raw),
            r.word() == raw,
    {
        Handle(raw)
    }

    pub fn raw(self) -> (r: u64)
        ensures
            r == self.word(),
    {
        self.0
    }

    fn pack(token: u32, slot: u32) -> (r: Handle)
        ensures
            r.token() == token,
            r.slot() == slot,
    {
        let word = ((token as u64) << 32) | slot as u64;
        assert(word as u32 == slot && (word >> 32) as u32 == token) by (bit_vector)
            requires
                word == ((token as u64) << 32) | slot as u64,
        ;
        Handle(word)
    }
}

impl PersistentHandle {
    pub closed spec fn handle(&self) -> Handle {
        self.0
    }

    pub(crate) fn as_handle(&self) -> (r: Handle)
        ensures
            r == self.handle(),
    {
        self.0
    }

    pub fn from_raw(raw: u64) -> (r: PersistentHandle)
        ensures
            r.handle() == Handle::of(raw),
            r.handle().word() == raw,
    {
        PersistentHandle(Handle::from_raw(raw))
    }

    pub fn raw(&self) -> (r: u64)
        ensures
            r == self.handle().word(),
    {
        self.0.raw()
    }
}

/// Every slot and every token make a handle.
pub proof fn handles_are_pairs(token: u32, slot: u32) -> (handle: Handle)
    ensures
        handle.token() == token,
        handle.slot() == slot,
{
    let word: u64 = ((token as u64) << 32) | slot as u64;
    assert(word as u32 == slot && (word >> 32) as u32 == token) by (bit_vector)
        requires
            word == ((token as u64) << 32) | slot as u64,
    ;
    Handle(word)
}

/// A slot and a token make one handle.
pub proof fn handles_are_distinct(a: Handle, b: Handle)
    requires
        a.slot() == b.slot(),
        a.token() == b.token(),
    ensures
        a == b,
{
    let (x, y) = (a.0, b.0);
    assert(x == y) by (bit_vector)
        requires
            x as u32 == y as u32,
            (x >> 32) as u32 == (y >> 32) as u32,
    ;
}

/// A handle is its word.
pub proof fn words_are_distinct(a: Handle, b: Handle)
    ensures
        (a.word() == b.word()) == (a == b),
{
}

/// What the table says of a handle it does not hold.
pub open spec fn invalid_handle() -> Fault {
    fault("HandleError", "stale, released, or foreign-runtime handle")
}

fn invalid() -> (r: Diagnostic)
    ensures
        r@ == invalid_handle(),
{
    Diagnostic::new("HandleError", "stale, released, or foreign-runtime handle")
}

#[derive(Debug)]
pub struct HandleTable {
    entries: Vec<Entry>,
    free: Vec<u32>,
}

/// The entry a handle stands for, if the handle is good.
pub open spec fn held(entries: Seq<Entry>, handle: Handle) -> Option<(Value, HandleKind)> {
    if 0 <= handle.slot() < entries.len() {
        let entry = entries[handle.slot()];
        if entry.token == handle.token() && entry.value is Some {
            Some((entry.value.unwrap(), entry.kind))
        } else {
            None
        }
    } else {
        None
    }
}

/// The rooted values: those of every handle but a foreign reference.
pub open spec fn rooted(entries: Seq<Entry>) -> Seq<Value>
    decreases entries.len(),
{
    if entries.len() == 0 {
        Seq::empty()
    } else {
        let rest = rooted(entries.drop_last());
        let last = entries.last();
        if last.kind != HandleKind::ForeignReference && last.value is Some {
            rest.push(last.value.unwrap())
        } else {
            rest
        }
    }
}

/// The number of good handles.
pub open spec fn active_count(entries: Seq<Entry>) -> nat
    decreases entries.len(),
{
    if entries.len() == 0 {
        0
    } else {
        active_count(entries.drop_last()) + if entries.last().value is Some {
            1nat
        } else {
            0
        }
    }
}

/// What a value held as a kind adds to the rooted values.
pub open spec fn rooting(value: Value, kind: HandleKind) -> Multiset<Value> {
    if kind == HandleKind::ForeignReference {
        Multiset::empty()
    } else {
        Multiset::singleton(value)
    }
}

/// What an entry adds to the rooted values.
spec fn rooting_of(entry: Entry) -> Multiset<Value> {
    match entry.value {
        Some(value) => rooting(value, entry.kind),
        None => Multiset::empty(),
    }
}

/// One if the entry is in use.
spec fn use_of(entry: Entry) -> int {
    if entry.value is Some {
        1
    } else {
        0
    }
}

/// What one more entry does to the counts.
proof fn lemma_entry_added(entries: Seq<Entry>, entry: Entry)
    ensures
        active_count(entries.push(entry)) == active_count(entries) + use_of(entry),
        rooted(entries.push(entry)).to_multiset() == rooted(entries).to_multiset().add(
            rooting_of(entry),
        ),
{
    assert(entries.push(entry).drop_last() =~= entries);
    let rest = rooted(entries);
    rest.to_multiset_ensures();
    if entry.value is Some && entry.kind != HandleKind::ForeignReference {
        let value = entry.value.unwrap();
        assert(rest.push(value).to_multiset() =~= rest.to_multiset().insert(value));
        assert(rest.to_multiset().insert(value) =~= rest.to_multiset().add(
            Multiset::singleton(value),
        ));
    } else {
        assert(rest.to_multiset().add(Multiset::empty()) =~= rest.to_multiset());
    }
}

/// What another entry in a slot does to the counts.
proof fn lemma_entry_set(entries: Seq<Entry>, slot: int, entry: Entry)
    requires
        0 <= slot < entries.len(),
    ensures
        active_count(entries.update(slot, entry)) == active_count(entries) - use_of(entries[slot])
            + use_of(entry),
        rooted(entries.update(slot, entry)).to_multiset().add(rooting_of(entries[slot])) == rooted(
            entries,
        ).to_multiset().add(rooting_of(entry)),
    decreases entries.len(),
{
    let (rest, last) = (entries.drop_last(), entries.last());
    let changed = entries.update(slot, entry);
    lemma_entry_added(rest, last);
    assert(rest.push(last) =~= entries);
    lemma_entry_added(changed.drop_last(), changed.last());
    assert(changed.drop_last().push(changed.last()) =~= changed);
    if slot == entries.len() - 1 {
        assert(changed.drop_last() =~= rest);
    } else {
        lemma_entry_set(rest, slot, entry);
        assert(changed.drop_last() =~= rest.update(slot, entry));
        let (kept, had) = (rooted(changed.drop_last()).to_multiset(), rooted(rest).to_multiset());
        let (old_share, new_share) = (rooting_of(entries[slot]), rooting_of(entry));
        assert(rest[slot] == entries[slot]);
        assert forall|v: Value|
            kept.count(v) + old_share.count(v) == had.count(v) + new_share.count(v) by {
            assert(kept.add(old_share).count(v) == had.add(new_share).count(v));
        }
        assert(changed.last() == last);
    }
    assert(rooted(changed).to_multiset().add(rooting_of(entries[slot])) =~= rooted(
        entries,
    ).to_multiset().add(rooting_of(entry)));
}

/// Nothing is held where no slot is in use.
proof fn lemma_unused(entries: Seq<Entry>)
    requires
        forall|k: int| 0 <= k < entries.len() ==> (#[trigger] entries[k]).value is None,
    ensures
        active_count(entries) == 0,
        rooted(entries) == Seq::<Value>::empty(),
    decreases entries.len(),
{
    if entries.len() > 0 {
        let rest = entries.drop_last();
        assert(entries.last() == entries[entries.len() - 1]);
        assert forall|k: int| 0 <= k < rest.len() implies (#[trigger] rest[k]).value is None by {
            assert(rest[k] == entries[k]);
        }
        lemma_unused(rest);
    }
}

/// The value of a handle of one of the kinds that native code may read.
pub open spec fn resolved(entries: Seq<Entry>, handle: Handle) -> core::result::Result<
    Value,
    Fault,
> {
    match held(entries, handle) {
        Some((value, kind)) => if kind == HandleKind::Local || kind == HandleKind::Persistent {
            Ok(value)
        } else {
            Err(invalid_handle())
        },
        None => Err(invalid_handle()),
    }
}

/// The value of a handle of exactly one kind.
pub open spec fn resolved_as(
    entries: Seq<Entry>,
    handle: Handle,
    kind: HandleKind,
) -> core::result::Result<Value, Fault> {
    match held(entries, handle) {
        Some((value, actual)) => if actual == kind {
            Ok(value)
        } else {
            Err(invalid_handle())
        },
        None => Err(invalid_handle()),
    }
}

impl View for HandleTable {
    type V = Seq<Entry>;

    closed spec fn view(&self) -> Seq<Entry> {
        self.entries@
    }
}

/// A persistent handle as the handle that it is.
pub open spec fn persistent(
    result: core::result::Result<PersistentHandle, Diagnostic>,
) -> core::result::Result<Handle, Diagnostic> {
    match result {
        Ok(handle) => Ok(handle.handle()),
        Err(error) => Err(error),
    }
}

/// The slots that handles of some kinds give up in turn, each once.
pub open spec fn vacated(
    entries: Seq<Entry>,
    handles: Seq<Handle>,
    kinds: Set<HandleKind>,
) -> Seq<u32>
    decreases handles.len(),
{
    if handles.len() == 0 {
        Seq::empty()
    } else {
        let earlier = handles.drop_last();
        let rest = vacated(entries, earlier, kinds);
        let last = handles.last();
        match held(entries, last) {
            Some((_, kind)) => if kinds.contains(kind) && !earlier.contains(last) {
                rest.push(last.slot() as u32)
            } else {
                rest
            },
            None => rest,
        }
    }
}

/// What giving out a handle does.
pub open spec fn inserted(
    table: HandleTable,
    tokens: TokenSource,
    next_table: HandleTable,
    next_tokens: TokenSource,
    result: core::result::Result<Handle, Diagnostic>,
    value: Value,
    kind: HandleKind,
) -> bool {
    &&& next_tokens.upcoming() == if tokens.upcoming() == u32::MAX {
        u32::MAX
    } else {
        (tokens.upcoming() + 1) as u32
    }
    &&& match result {
        Ok(handle) => tokens.upcoming() < u32::MAX && table.has_room()
            && handle.token() == tokens.upcoming() && held(table@, handle) is None
            && held(next_table@, handle) == Some((value, kind)) && (forall|other: Handle|
            other != handle ==> #[trigger] held(next_table@, other) == held(
                table@,
                other,
            )) && active_count(next_table@) == active_count(table@) + 1 && rooted(
            next_table@,
        ).to_multiset() == rooted(table@).to_multiset().add(rooting(value, kind)) && if table.spare().len()
            > 0 {
            handle.slot() == table.spare().last() && next_table.spare()
                == table.spare().drop_last() && next_table@.len() == table@.len()
        } else {
            handle.slot() == table@.len() && next_table.spare() == table.spare()
                && next_table@.len() == table@.len() + 1
        },
        Err(error) => next_table@ == table@ && next_table.spare() == table.spare() && error@ == if tokens.upcoming()
            == u32::MAX {
            fault("HandleError", "handle token space exhausted")
        } else {
            fault("HandleError", "handle table exhausted")
        } && (tokens.upcoming() < u32::MAX ==> !table.has_room()),
    }
}

/// What releasing a handle of a kind does.
pub open spec fn released(
    before: Seq<Entry>,
    after: Seq<Entry>,
    result: core::result::Result<(), Diagnostic>,
    handle: Handle,
    kind: HandleKind,
) -> bool {
    match resolved_as(before, handle, kind) {
        Ok(value) => result is Ok && held(after, handle) is None && (forall|other: Handle|
            other != handle ==> #[trigger] held(after, other) == held(before, other))
            && active_count(before) == active_count(after) + 1 && rooted(before).to_multiset()
            == rooted(after).to_multiset().add(rooting(value, kind)) && after.len()
            == before.len(),
        Err(error) => result is Err && result->Err_0@ == error && after == before,
    }
}

impl HandleTable {
    /// The slots that were given up, which are used again from the last on.
    pub closed spec fn spare(&self) -> Seq<u32> {
        self.free@
    }

    /// Whether the spare slots are distinct, and are those without a value.
    pub closed spec fn wf(&self) -> bool {
        &&& self.entries.len() <= 0x1_0000_0000
        &&& forall|k: int|
            0 <= k < self.entries.len() && (#[trigger] self.entries[k]).value is None
                ==> self.free@.contains(k as u32)
        &&& self.free@.no_duplicates()
        &&& forall|i: int|
            0 <= i < self.free.len() ==> (#[trigger] self.free[i]) < self.entries.len()
                && self.entries[self.free[i] as int].value is None
    }

    /// Whether a slot for another handle can be had.
    pub open spec fn has_room(&self) -> bool {
        self.spare().len() > 0 || self@.len() <= u32::MAX
    }

    pub fn new() -> (r: HandleTable)
        ensures
            r.wf(),
            r@ == Seq::<Entry>::empty(),
            r.spare() == Seq::<u32>::empty(),
            r.has_room(),
    {
        HandleTable { entries: Vec::new(), free: Vec::new() }
    }

    /// Gives out a handle on `value`.
    pub fn insert(&mut self, tokens: &mut TokenSource, value: Value, kind: HandleKind) -> (r: Result<
        Handle,
    >)
        requires
            old(self).wf(),
        ensures
            final(self).wf(),
            inserted(*old(self), *old(tokens), *final(self), *final(tokens), r, value, kind),
    {
        let ghost before = self.entries@;
        let token = match tokens.take() {
            Some(token) => token,
            None => {
                return Err(Diagnostic::new("HandleError", "handle token space exhausted"));
            },
        };
        let slot: u32 = match self.free.pop() {
            Some(slot) => {
                assert(old(self).free[old(self).free.len() - 1] == slot);
                assert(before[slot as int].value is None);
                slot
            },
            None => {
                if self.entries.len() as u64 > u32::MAX as u64 {
                    return Err(Diagnostic::new("HandleError", "handle table exhausted"));
                }
                let slot = self.entries.len() as u32;
                self.entries.push(Entry { token: 0, value: None, kind: HandleKind::Local });
                proof {
                    lemma_entry_added(before, self.entries@[slot as int]);
                    assert(rooted(self.entries@).to_multiset() =~= rooted(before).to_multiset());
                }
                slot
            },
        };
        let entry = Entry { token, value: Some(value), kind };
        proof {
            lemma_entry_set(self.entries@, slot as int, entry);
            let changed = rooted(self.entries@.update(slot as int, entry)).to_multiset();
            assert(changed.add(Multiset::empty()) =~= changed);
        }
        self.entries[slot as usize] = entry;
        let handle = Handle::pack(token, slot);
        proof {
            assert forall|k: int|
                0 <= k < self.entries.len() && (#[trigger] self.entries[k]).value is None implies self.free@.contains(
                k as u32,
            ) by {
                assert(k != slot && before[k] == self.entries[k]);
                assert(old(self).free@.contains(k as u32));
                let i = choose|i: int|
                    0 <= i < old(self).free.len() && old(self).free@[i] == k as u32;
                assert(self.free@[i] == k as u32);
            }
            assert forall|i: int| 0 <= i < self.free.len() implies (#[trigger] self.free[i])
                < self.entries.len() && self.entries[self.free[i] as int].value is None by {
                assert(old(self).free[i] == self.free[i]);
                assert(self.free[i] != slot);
            }
            assert forall|other: Handle| other != handle implies #[trigger] held(
                self.entries@,
                other,
            ) == held(before, other) by {
                if other.slot() == slot && other.token() == token {
                    handles_are_distinct(other, handle);
                }
            }
        }
        Ok(handle)
    }

    /// The value of a local or persistent handle.
    pub fn resolve(&self, handle: Handle) -> (r: Result<Value>)
        ensures
            outcome(r) == resolved(self@, handle),
    {
        match self.entry(handle) {
            Some((value, kind)) => match kind {
                HandleKind::Local | HandleKind::Persistent => Ok(value),
                _ => Err(invalid()),
            },
            None => Err(invalid()),
        }
    }

    /// The value and kind of a good handle.
    pub fn entry(&self, handle: Handle) -> (r: Option<(Value, HandleKind)>)
        ensures
            r == held(self@, handle),
    {
        let slot = (handle.0 as u32) as usize;
        if slot >= self.entries.len() {
            return None;
        }
        let entry = &self.entries[slot];
        if entry.token != (handle.0 >> 32) as u32 {
            return None;
        }
        match entry.value {
            Some(value) => Some((value, entry.kind)),
            None => None,
        }
    }

    fn resolve_kind(&self, handle: Handle, kind: HandleKind) -> (r: Result<Value>)
        ensures
            outcome(r) == resolved_as(self@, handle, kind),
    {
        match self.entry(handle) {
            Some((value, actual)) => if actual == kind {
                Ok(value)
            } else {
                Err(invalid())
            },
            None => Err(invalid()),
        }
    }

    /// Gives up a handle of the stated kind.
    pub fn release(&mut self, handle: Handle, kind: HandleKind) -> (r: Result<()>)
        requires
            old(self).wf(),
        ensures
            final(self).wf(),
            released(old(self)@, final(self)@, r, handle, kind),
            final(self).spare() == match r {
                Ok(_) => old(self).spare().push(handle.slot() as u32),
                Err(_) => old(self).spare(),
            },
    {
        let ghost before = self.entries@;
        match self.resolve_kind(handle, kind) {
            Ok(_) => {},
            Err(error) => {
                return Err(error);
            },
        }
        let slot = handle.0 as u32;
        let mut entry = self.entries[slot as usize];
        entry.value = None;
        self.entries[slot as usize] = entry;
        self.free.push(slot);
        proof {
            lemma_entry_set(before, slot as int, entry);
            let rest = rooted(before).to_multiset();
            assert(rest.add(Multiset::empty()) =~= rest);
            assert forall|k: int|
                0 <= k < self.entries.len() && (#[trigger] self.entries[k]).value is None implies self.free@.contains(
                k as u32,
            ) by {
                if k == slot {
                    assert(self.free@[self.free.len() - 1] == slot);
                } else {
                    assert(before[k] == self.entries[k]);
                    let i = choose|i: int|
                        0 <= i < old(self).free.len() && old(self).free@[i] == k as u32;
                    assert(self.free@[i] == k as u32);
                }
            }
            assert forall|i: int| 0 <= i < self.free.len() implies (#[trigger] self.free[i])
                < self.entries.len() && self.entries[self.free[i] as int].value is None by {
                if i < old(self).free.len() {
                    assert(old(self).free[i] == self.free[i]);
                }
            }
            assert(self.free@.no_duplicates()) by {
                assert forall|i: int, j: int|
                    0 <= i < self.free.len() && 0 <= j < self.free.len() && i
                        != j implies self.free[i] != self.free[j] by {
                    if i < old(self).free.len() {
                        assert(old(self).free[i] == self.free[i]);
                    }
                    if j < old(self).free.len() {
                        assert(old(self).free[j] == self.free[j]);
                    }
                }
            }
            assert forall|other: Handle| other != handle implies #[trigger] held(
                self.entries@,
                other,
            ) == held(before, other) by {
                if other.slot() == slot && other.token() == handle.token() {
                    handles_are_distinct(other, handle);
                }
            }
        }
        Ok(())
    }

    /// Appends every rooted value to `visited`.
    pub fn roots(&self, visited: &mut Vec<Value>)
        ensures
            final(visited)@ == old(visited)@ + rooted(self@),
    {
        let mut i: usize = 0;
        while i < self.entries.len()
            invariant
                i <= self.entries.len(),
                visited@ == old(visited)@ + rooted(self.entries@.take(i as int)),
            decreases self.entries.len() - i,
        {
            assert(self.entries@.take(i + 1).drop_last() =~= self.entries@.take(i as int));
            let entry = self.entries[i];
            if entry.kind != HandleKind::ForeignReference {
                if let Some(value) = entry.value {
                    visited.push(value);
                }
            }
            i += 1;
            assert(visited@ =~= old(visited)@ + rooted(self.entries@.take(i as int)));
        }
        assert(self.entries@.take(i as int) =~= self.entries@);
    }

    /// The number of good handles.
    pub fn active(&self) -> (r: usize)
        ensures
            r == active_count(self@),
    {
        let mut count: usize = 0;
        let mut i: usize = 0;
        while i < self.entries.len()
            invariant
                i <= self.entries.len(),
                count <= i,
                count == active_count(self.entries@.take(i as int)),
            decreases self.entries.len() - i,
        {
            assert(self.entries@.take(i + 1).drop_last() =~= self.entries@.take(i as int));
            if self.entries[i].value.is_some() {
                count += 1;
            }
            i += 1;
        }
        assert(self.entries@.take(i as int) =~= self.entries@);
        count
    }

    pub fn resolve_persistent(&self, handle: &PersistentHandle) -> (r: Result<Value>)
        ensures
            outcome(r) == resolved_as(self@, handle.handle(), HandleKind::Persistent),
    {
        self.resolve_kind(handle.0, HandleKind::Persistent)
    }

    pub fn persist_value(&mut self, tokens: &mut TokenSource, value: Value) -> (r: Result<
        PersistentHandle,
    >)
        requires
            old(self).wf(),
        ensures
            final(self).wf(),
            inserted(
                *old(self),
                *old(tokens),
                *final(self),
                *final(tokens),
                persistent(r),
                value,
                HandleKind::Persistent,
            ),
    {
        match self.insert(tokens, value, HandleKind::Persistent) {
            Ok(handle) => Ok(PersistentHandle(handle)),
            Err(error) => Err(error),
        }
    }

    pub fn release_persistent(&mut self, handle: &PersistentHandle) -> (r: Result<()>)
        requires
            old(self).wf(),
        ensures
            final(self).wf(),
            released(old(self)@, final(self)@, r, handle.handle(), HandleKind::Persistent),
            final(self).spare() == match r {
                Ok(_) => old(self).spare().push(handle.handle().slot() as u32),
                Err(_) => old(self).spare(),
            },
    {
        self.release(handle.0, HandleKind::Persistent)
    }

    pub fn insert_foreign_reference(&mut self, tokens: &mut TokenSource, value: Value) -> (r: Result<
        Handle,
    >)
        requires
            old(self).wf(),
        ensures
            final(self).wf(),
            inserted(
                *old(self),
                *old(tokens),
                *final(self),
                *final(tokens),
                r,
                value,
                HandleKind::ForeignReference,
            ),
    {
        self.insert(tokens, value, HandleKind::ForeignReference)
    }

    pub fn resolve_foreign_reference(&self, handle: Handle) -> (r: Result<Value>)
        ensures
            outcome(r) == resolved_as(self@, handle, HandleKind::ForeignReference),
    {
        self.resolve_kind(handle, HandleKind::ForeignReference)
    }

    /// A persistent handle on what a foreign reference stands for.
    pub fn promote_foreign_reference(&mut self, tokens: &mut TokenSource, handle: Handle) -> (r:
        Result<PersistentHandle>)
        requires
            old(self).wf(),
        ensures
            final(self).wf(),
            match resolved_as(old(self)@, handle, HandleKind::ForeignReference) {
                Ok(value) => inserted(
                    *old(self),
                    *old(tokens),
                    *final(self),
                    *final(tokens),
                    persistent(r),
                    value,
                    HandleKind::Persistent,
                ),
                Err(error) => r is Err && r->Err_0@ == error && *final(self) == *old(self)
                    && *final(tokens) == *old(tokens),
            },
    {
        match self.resolve_foreign_reference(handle) {
            Ok(value) => self.persist_value(tokens, value),
            Err(error) => Err(error),
        }
    }

    pub fn release_foreign_reference(&mut self, handle: Handle) -> (r: Result<()>)
        requires
            old(self).wf(),
        ensures
            final(self).wf(),
            released(old(self)@, final(self)@, r, handle, HandleKind::ForeignReference),
            final(self).spare() == match r {
                Ok(_) => old(self).spare().push(handle.slot() as u32),
                Err(_) => old(self).spare(),
            },
    {
        self.release(handle, HandleKind::ForeignReference)
    }

    /// Makes every handle stale.
    pub fn invalidate_all(&mut self)
        requires
            old(self).wf(),
        ensures
            final(self).wf(),
            final(self)@.len() == old(self)@.len(),
            forall|handle: Handle| #[trigger] held(final(self)@, handle) is None,
            active_count(final(self)@) == 0,
            rooted(final(self)@) == Seq::<Value>::empty(),
            final(self).spare() == Seq::new(final(self)@.len(), |k: int| k as u32),
            final(self).has_room(),
    {
        self.free.clear();
        let mut i: usize = 0;
        while i < self.entries.len()
            invariant
                i <= self.entries.len(),
                self.entries.len() == old(self).entries.len(),
                forall|k: int| 0 <= k < i ==> (#[trigger] self.entries[k]).value is None,
                forall|k: int| 0 <= k < self.free.len() ==> (#[trigger] self.free[k]) == k,
                self.free.len() == i,
                self.entries.len() <= 0x1_0000_0000,
            decreases self.entries.len() - i,
        {
            let mut entry = self.entries[i];
            entry.value = None;
            self.entries[i] = entry;
            self.free.push(i as u32);
            i += 1;
        }
        proof {
            lemma_unused(self.entries@);
            assert(self.free@ =~= Seq::new(self.entries@.len(), |k: int| k as u32));
            assert forall|k: int|
                0 <= k < self.entries.len() && (#[trigger] self.entries[k]).value is None implies self.free@.contains(
                k as u32,
            ) by {
                assert(self.free[k] == k as u32);
            }
        }
    }
}

/// The spare slots are the slots of no good handle, each once.
pub proof fn spare_slots_are_unused(table: HandleTable)
    requires
        table.wf(),
    ensures
        table.spare().no_duplicates(),
        forall|k: int|
            0 <= k < table@.len() ==> (table.spare().contains(k as u32) <==> (
            #[trigger] table@[k]).value is None),
        forall|i: int| 0 <= i < table.spare().len() ==> (#[trigger] table.spare()[i]) < table@.len(),
        table.spare().len() > 0 <==> exists|k: int|
            0 <= k < table@.len() && (#[trigger] table@[k]).value is None,
{
    assert forall|k: int| 0 <= k < table@.len() && table.spare().contains(k as u32) implies (
    #[trigger] table@[k]).value is None by {
        let i = choose|i: int| 0 <= i < table.spare().len() && table.spare()[i] == k as u32;
        assert(table.free[i] == k);
    }
    if table.spare().len() > 0 {
        assert(table.free[0] == table.spare()[0]);
        assert(table@[table.spare()[0] as int].value is None);
    }
}

/// A table of fewer entries than there are slots has room for a handle.
pub proof fn small_tables_have_room(table: HandleTable)
    requires
        table@.len() <= u32::MAX,
    ensures
        table.has_room(),
{
}

/// A released handle is good for nothing: it resolves as no kind, and
/// releasing it again fails and changes nothing. Of the good handles one
/// fewer is left.
pub proof fn released_handles_are_dead(
    before: Seq<Entry>,
    after: Seq<Entry>,
    again: Seq<Entry>,
    first: core::result::Result<(), Diagnostic>,
    second: core::result::Result<(), Diagnostic>,
    handle: Handle,
    kind: HandleKind,
    other: HandleKind,
)
    requires
        released(before, after, first, handle, kind),
        first is Ok,
        released(after, again, second, handle, other),
    ensures
        resolved(after, handle) == Err::<Value, Fault>(invalid_handle()),
        resolved_as(after, handle, other) == Err::<Value, Fault>(invalid_handle()),
        second is Err && second->Err_0@ == invalid_handle(),
        again == after,
        active_count(after) == active_count(before) - 1,
{
}

/// A release undoes a grant: the same number of good handles, the same rooted
/// values, and every handle stands for what it stood for.
pub proof fn release_undoes_insertion(
    before: (HandleTable, TokenSource),
    between: (HandleTable, TokenSource),
    after: Seq<Entry>,
    result: core::result::Result<(), Diagnostic>,
    handle: Handle,
    value: Value,
    kind: HandleKind,
    other: Handle,
)
    requires
        inserted(before.0, before.1, between.0, between.1, Ok(handle), value, kind),
        released(between.0@, after, result, handle, kind),
    ensures
        result is Ok,
        active_count(after) == active_count(before.0@),
        rooted(after).to_multiset() == rooted(before.0@).to_multiset(),
        held(after, other) == held(before.0@, other),
{
    let (a, b) = (rooted(after).to_multiset(), rooted(before.0@).to_multiset());
    assert(a.add(rooting(value, kind)) == b.add(rooting(value, kind)));
    assert forall|v: Value| a.count(v) == b.count(v) by {
        assert(a.add(rooting(value, kind)).count(v) == b.add(rooting(value, kind)).count(v));
    }
    assert(a =~= b);
}

/// One step of a table and its token supply: a handle is given out, one is
/// released, or all become stale.
pub open spec fn table_step(
    before: (HandleTable, TokenSource),
    after: (HandleTable, TokenSource),
) -> bool {
    ||| exists|result: core::result::Result<Handle, Diagnostic>, value: Value, kind: HandleKind|
        inserted(before.0, before.1, after.0, after.1, result, value, kind)
    ||| before.1.upcoming() == after.1.upcoming() && exists|
        result: core::result::Result<(), Diagnostic>,
        handle: Handle,
        kind: HandleKind,
    | released(before.0@, after.0@, result, handle, kind)
    ||| before.1.upcoming() == after.1.upcoming() && forall|handle: Handle| #[trigger]
        held(after.0@, handle) is None
}

/// A handle that is stale, of a token that was given out before, is stale for
/// ever.
pub proof fn dead_handles_stay_dead(states: Seq<(HandleTable, TokenSource)>, handle: Handle)
    requires
        states.len() > 0,
        forall|i: int|
            #![trigger states[i]]
            0 <= i < states.len() - 1 ==> table_step(states[i], states[i + 1]),
        held(states[0].0@, handle) is None,
        handle.token() < states[0].1.upcoming(),
    ensures
        held(states.last().0@, handle) is None,
        handle.token() < states.last().1.upcoming(),
    decreases states.len(),
{
    if states.len() > 1 {
        let rest = states.drop_last();
        assert forall|i: int|
            #![trigger rest[i]]
            0 <= i < rest.len() - 1 implies table_step(rest[i], rest[i + 1]) by {
            assert(rest[i] == states[i] && rest[i + 1] == states[i + 1]);
        }
        dead_handles_stay_dead(rest, handle);
        let last = states[states.len() - 2];
        assert(rest.last() == last);
        assert(table_step(last, states.last()));
    }
}

/// A handle whose token was given out before a new handle never comes to
/// stand for the new handle's value: stale handles stay stale, and a handle
/// of one table is stale in every other table that shares its token supply.
pub proof fn insertion_revives_nothing(
    before: Seq<Entry>,
    after: Seq<Entry>,
    inserted: Handle,
    stale: Handle,
)
    requires
        held(before, stale) is None,
        stale.token() < inserted.token(),
        forall|other: Handle|
            other != inserted ==> #[trigger] held(after, other) == held(before, other),
    ensures
        held(after, stale) is None,
{
}

/// A handle that was given out resolves to its value, as its kind; what other
/// handles resolve to stays.
pub proof fn inserted_handles_resolve(
    before: (HandleTable, TokenSource),
    after: (HandleTable, TokenSource),
    handle: Handle,
    value: Value,
    kind: HandleKind,
    other: Handle,
)
    requires
        inserted(before.0, before.1, after.0, after.1, Ok(handle), value, kind),
        other != handle,
    ensures
        resolved_as(after.0@, handle, kind) == Ok::<Value, Fault>(value),
        kind == HandleKind::Local || kind == HandleKind::Persistent ==> resolved(
            after.0@,
            handle,
        ) == Ok::<Value, Fault>(value),
        resolved(after.0@, other) == resolved(before.0@, other),
{
}

} // verus!

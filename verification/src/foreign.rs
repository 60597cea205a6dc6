//! Foreign-payload metadata and the bookkeeping round foreign callbacks.
//!
//! The managed wrapper holds an integer form of the external payload and names
//! its callbacks by number; who calls them reports here what they did.
use vstd::prelude::*;
use crate::c_api::{TonicStatus, TONIC_ABI_VERSION};
use crate::diagnostic::{fault, fault_text, outcome, Diagnostic, Fault, Result};
use crate::handles::{resolved_as, Entry, Handle, HandleKind, HandleTable};
use crate::measure;
use crate::shapes::visit_all;
use crate::text::{decimal, decimal_u64, join3};
use crate::value::Value;

verus! {

pub const FOREIGN_OWNED: u64 = 1;

/// The bytes of the function table an extension passes: two 32-bit words, two
/// 64-bit words and two function pointers.
pub const FOREIGN_VTABLE_BYTES: u32 = 40;

/// What an extension says of its payload.
#[derive(Clone, Copy, Debug)]
pub struct TonicForeignVTable {
    pub struct_size: u32,
    pub abi_version: u32,
    pub adapter_id: u64,
    pub flags: u64,
    pub trace: Option<u64>,
    pub destroy: Option<u64>,
}

#[derive(Clone, Copy, Debug)]
pub struct ForeignSpec {
    pub adapter_id: u64,
    pub owned: bool,
    pub trace: Option<u64>,
    pub destroy: Option<u64>,
}

/// Whether a flag word asks for ownership, and for nothing unknown.
pub open spec fn owned_flag(flags: u64) -> Option<bool> {
    if flags == 0 {
        Some(false)
    } else if flags == FOREIGN_OWNED {
        Some(true)
    } else {
        None
    }
}

/// The accepted form of a function table.
pub open spec fn validated(table: TonicForeignVTable) -> core::result::Result<ForeignSpec, Fault> {
    if table.struct_size < FOREIGN_VTABLE_BYTES {
        Err(fault("ForeignError", "foreign vtable is smaller than ABI v1"))
    } else if table.abi_version != TONIC_ABI_VERSION {
        Err(fault("ForeignError", "foreign vtable ABI version is incompatible"))
    } else {
        match owned_flag(table.flags) {
            None => Err(fault("ForeignError", "foreign vtable contains unknown flags")),
            Some(owned) => if owned && table.destroy is None {
                Err(fault("ForeignError", "owned foreign payload requires a destroy callback"))
            } else if !owned && table.destroy is Some {
                Err(
                    fault(
                        "ForeignError",
                        "borrowed foreign payload cannot define a destroy callback",
                    ),
                )
            } else {
                Ok(
                    ForeignSpec {
                        adapter_id: table.adapter_id,
                        owned,
                        trace: table.trace,
                        destroy: table.destroy,
                    },
                )
            },
        }
    }
}

impl ForeignSpec {
    pub fn validate(table: &TonicForeignVTable) -> (r: Result<ForeignSpec>)
        ensures
            outcome(r) == validated(*table),
    {
        if table.struct_size < FOREIGN_VTABLE_BYTES {
            return Err(Diagnostic::new("ForeignError", "foreign vtable is smaller than ABI v1"));
        }
        if table.abi_version != TONIC_ABI_VERSION {
            return Err(
                Diagnostic::new("ForeignError", "foreign vtable ABI version is incompatible"),
            );
        }
        if table.flags != 0 && table.flags != FOREIGN_OWNED {
            return Err(Diagnostic::new("ForeignError", "foreign vtable contains unknown flags"));
        }
        let owned = table.flags == FOREIGN_OWNED;
        if owned && table.destroy.is_none() {
            return Err(
                Diagnostic::new(
                    "ForeignError",
                    "owned foreign payload requires a destroy callback",
                ),
            );
        }
        if !owned && table.destroy.is_some() {
            return Err(
                Diagnostic::new(
                    "ForeignError",
                    "borrowed foreign payload cannot define a destroy callback",
                ),
            );
        }
        Ok(
            ForeignSpec {
                adapter_id: table.adapter_id,
                owned,
                trace: table.trace,
                destroy: table.destroy,
            },
        )
    }
}

/// How a trace callback ended.
#[derive(Clone, Copy, Debug)]
pub enum TraceEnd {
    Panicked,
    Returned(TonicStatus),
}

/// The references a trace callback reported.
#[derive(Debug)]
pub struct TracedHandles {
    pub owned: Vec<Handle>,
    pub borrowed: Vec<Handle>,
}

/// Whether handles stand in increasing order of their words.
pub open spec fn ascending(handles: Seq<Handle>) -> bool {
    forall|i: int, j: int|
        0 <= i < j < handles.len() ==> (#[trigger] handles[i]).word() <= (
        #[trigger] handles[j]).word()
}

/// Whether a handle is reported more than once.
pub open spec fn reported_twice(owned: Seq<Handle>, borrowed: Seq<Handle>) -> bool {
    !(owned + borrowed).no_duplicates()
}

/// The complaint about a callback that failed.
pub open spec fn failed_trace(status: TonicStatus) -> Fault {
    fault_text(
        "ForeignError",
        "foreign trace callback failed with status TonicStatus("@ + decimal(status.code() as int)
            + ")"@,
    )
}

/// The complaint about a trace that cannot be used, if there is one.
pub open spec fn trace_fault(
    end: TraceEnd,
    owned: Seq<Handle>,
    borrowed: Seq<Handle>,
) -> Option<Fault> {
    match end {
        TraceEnd::Panicked => Some(
            fault(
                "ForeignError",
                "foreign trace panic was contained at the Tonic ABI boundary",
            ),
        ),
        TraceEnd::Returned(status) => if status != TonicStatus::ok() {
            Some(failed_trace(status))
        } else if reported_twice(owned, borrowed) {
            Some(
                fault("ForeignError", "foreign trace callback reported a reference more than once"),
            )
        } else {
            None
        },
    }
}

/// Sorts handles by their words.
fn sort(handles: &mut Vec<Handle>)
    ensures
        ascending(final(handles)@),
        final(handles)@.to_multiset() == old(handles)@.to_multiset(),
        final(handles)@.len() == old(handles)@.len(),
{
    broadcast use vstd::seq_lib::group_to_multiset_ensures;

    let mut i: usize = 0;
    while i < handles.len()
        invariant
            i <= handles.len(),
            handles.len() == old(handles).len(),
            handles@.to_multiset() == old(handles)@.to_multiset(),
            ascending(handles@.take(i as int)),
        decreases handles.len() - i,
    {
        let mut j: usize = i;
        assert forall|a: int, b: int| 0 <= a < b < i implies (#[trigger] handles[a]).word() <= (
        #[trigger] handles[b]).word() by {
            assert(handles@.take(i as int)[a].word() <= handles@.take(i as int)[b].word());
        }
        while j > 0 && handles[j - 1].raw() > handles[j].raw()
            invariant
                j <= i < handles.len(),
                handles.len() == old(handles).len(),
                handles@.to_multiset() == old(handles)@.to_multiset(),
                forall|a: int, b: int|
                    0 <= a < b <= i && a != j && b != j ==> (#[trigger] handles[a]).word() <= (
                    #[trigger] handles[b]).word(),
                forall|b: int| j < b <= i ==> handles[j as int].word() <= (
                #[trigger] handles[b]).word(),
            decreases j,
        {
            let upper = handles[j - 1];
            let lower = handles[j];
            let ghost before = handles@;
            handles[j - 1] = lower;
            handles[j] = upper;
            proof {
                lemma_swap(before, j - 1, j as int);
                assert(handles@ =~= before.update(j - 1, before[j as int]).update(
                    j as int,
                    before[j - 1],
                ));
                assert forall|a: int, b: int|
                    0 <= a < b <= i && a != j - 1 && b != j - 1 implies (
                #[trigger] handles[a]).word() <= (#[trigger] handles[b]).word() by {
                    if a == j {
                        assert(before[j - 1].word() <= before[b].word());
                    } else if b == j {
                        assert(before[a].word() <= before[j - 1].word());
                    } else {
                        assert(before[a].word() <= before[b].word());
                    }
                }
            }
            j -= 1;
        }
        i += 1;
        proof {
            assert forall|a: int, b: int| 0 <= a < b < i implies (#[trigger] handles@.take(
                i as int,
            )[a]).word() <= (#[trigger] handles@.take(i as int)[b]).word() by {
                assert(handles[a].word() <= handles[b].word()) by {
                    if a == j {
                    } else if b == j {
                        if a < j - 1 {
                            assert(handles[a].word() <= handles[j - 1].word());
                        }
                    }
                }
            }
        }
    }
    assert(handles@.take(i as int) =~= handles@);
}

proof fn lemma_swap(handles: Seq<Handle>, a: int, b: int)
    requires
        0 <= a < b < handles.len(),
    ensures
        handles.update(a, handles[b]).update(b, handles[a]).to_multiset() == handles.to_multiset(),
{
    broadcast use vstd::seq_lib::group_to_multiset_ensures;

    let first = handles.update(a, handles[b]);
    vstd::seq_lib::to_multiset_update(handles, a, handles[b]);
    vstd::seq_lib::to_multiset_update(first, b, handles[a]);
    let m = handles.to_multiset();
    assert(m.insert(handles[b]).remove(handles[a]).insert(handles[a]).remove(handles[b]) =~= m);
}

/// Whether sorted handles hold one twice.
fn repeats(handles: &Vec<Handle>) -> (r: bool)
    requires
        ascending(handles@),
    ensures
        r == !handles@.no_duplicates(),
{
    let mut i: usize = 1;
    while i < handles.len()
        invariant
            1 <= i,
            ascending(handles@),
            i <= handles.len() || handles.len() == 0,
            forall|k: int| 1 <= k < i && k < handles.len() ==> handles[k - 1].word()
                < (#[trigger] handles[k]).word(),
        decreases handles.len() - i,
    {
        if handles[i - 1].raw() == handles[i].raw() {
            proof {
                crate::handles::words_are_distinct(handles[i - 1], handles[i as int]);
                assert(handles@[i - 1] == handles@[i as int]);
            }
            return true;
        }
        i += 1;
    }
    proof {
        assert forall|a: int, b: int|
            0 <= a < handles.len() && 0 <= b < handles.len() && a != b implies handles@[a]
            != handles@[b] by {
            if a < b {
                assert(handles[b - 1].word() < handles[b].word());
                if a < b - 1 {
                    assert(handles[a].word() <= handles[b - 1].word());
                }
            } else {
                assert(handles[a - 1].word() < handles[a].word());
                if b < a - 1 {
                    assert(handles[b].word() <= handles[a - 1].word());
                }
            }
        }
    }
    false
}

/// Whether `handle` stands among `handles`.
pub fn holds(handles: &Vec<Handle>, handle: Handle) -> (r: bool)
    ensures
        r == handles@.contains(handle),
{
    let mut i: usize = 0;
    while i < handles.len()
        invariant
            i <= handles.len(),
            forall|k: int| 0 <= k < i ==> handles[k] != handle,
        decreases handles.len() - i,
    {
        if handles[i] == handle {
            assert(handles@[i as int] == handle);
            return true;
        }
        i += 1;
    }
    false
}

/// Accepts what a trace callback reported, if it ended well and reported no
/// reference twice.
pub fn settle_trace(end: TraceEnd, owned: Vec<Handle>, borrowed: Vec<Handle>) -> (r: Result<
    TracedHandles,
>)
    ensures
        match trace_fault(end, owned@, borrowed@) {
            Some(error) => r is Err && r->Err_0@ == error,
            None => r is Ok && ascending(r->Ok_0.owned@) && ascending(r->Ok_0.borrowed@)
                && r->Ok_0.owned@.to_multiset() == owned@.to_multiset()
                && r->Ok_0.borrowed@.to_multiset() == borrowed@.to_multiset(),
        },
{
    match end {
        TraceEnd::Panicked => {
            return Err(
                Diagnostic::new(
                    "ForeignError",
                    "foreign trace panic was contained at the Tonic ABI boundary",
                ),
            );
        },
        TraceEnd::Returned(status) => {
            if status != TonicStatus::ok() {
                let code = decimal_u64(status.number() as u64);
                return Err(
                    Diagnostic::with_text(
                        "ForeignError",
                        join3(
                            "foreign trace callback failed with status TonicStatus(",
                            code.as_str(),
                            ")",
                        ),
                    ),
                );
            }
        },
    }
    let mut owned_sorted = owned;
    let mut borrowed_sorted = borrowed;
    sort(&mut owned_sorted);
    sort(&mut borrowed_sorted);
    proof {
        lemma_same_repeats(owned@, borrowed@, owned_sorted@, borrowed_sorted@);
    }
    let mut twice = repeats(&owned_sorted) || repeats(&borrowed_sorted);
    let mut i: usize = 0;
    while i < owned_sorted.len() && !twice
        invariant
            i <= owned_sorted.len(),
            twice ==> !(owned_sorted@ + borrowed_sorted@).no_duplicates(),
            !twice ==> owned_sorted@.no_duplicates() && borrowed_sorted@.no_duplicates()
                && forall|k: int| 0 <= k < i ==> !borrowed_sorted@.contains(owned_sorted@[k]),
        decreases owned_sorted.len() - i,
    {
        if holds(&borrowed_sorted, owned_sorted[i]) {
            proof {
                let all = owned_sorted@ + borrowed_sorted@;
                let k = choose|k: int|
                    0 <= k < borrowed_sorted.len() && borrowed_sorted@[k] == owned_sorted@[i as int];
                assert(all[i as int] == all[owned_sorted.len() + k]);
            }
            twice = true;
        }
        i += 1;
    }
    if twice {
        return Err(
            Diagnostic::new(
                "ForeignError",
                "foreign trace callback reported a reference more than once",
            ),
        );
    }
    proof {
        let all = owned_sorted@ + borrowed_sorted@;
        assert forall|a: int, b: int|
            0 <= a < all.len() && 0 <= b < all.len() && a != b implies all[a] != all[b] by {
            let n = owned_sorted.len() as int;
            if a < n && b >= n {
                assert(borrowed_sorted@[b - n] == all[b]);
            } else if b < n && a >= n {
                assert(borrowed_sorted@[a - n] == all[a]);
            }
        }
    }
    Ok(TracedHandles { owned: owned_sorted, borrowed: borrowed_sorted })
}

proof fn lemma_same_repeats(
    owned: Seq<Handle>,
    borrowed: Seq<Handle>,
    owned_sorted: Seq<Handle>,
    borrowed_sorted: Seq<Handle>,
)
    requires
        owned.to_multiset() == owned_sorted.to_multiset(),
        borrowed.to_multiset() == borrowed_sorted.to_multiset(),
    ensures
        (owned + borrowed).no_duplicates() == (owned_sorted + borrowed_sorted).no_duplicates(),
        !owned_sorted.no_duplicates() ==> !(owned_sorted + borrowed_sorted).no_duplicates(),
        !borrowed_sorted.no_duplicates() ==> !(owned_sorted + borrowed_sorted).no_duplicates(),
{
    let a = owned + borrowed;
    let b = owned_sorted + borrowed_sorted;
    vstd::seq_lib::lemma_multiset_commutative(owned, borrowed);
    vstd::seq_lib::lemma_multiset_commutative(owned_sorted, borrowed_sorted);
    assert(a.to_multiset() == b.to_multiset());
    if a.no_duplicates() {
        a.lemma_multiset_has_no_duplicates();
        b.lemma_multiset_has_no_duplicates_conv();
    }
    if b.no_duplicates() {
        b.lemma_multiset_has_no_duplicates();
        a.lemma_multiset_has_no_duplicates_conv();
    }
    if b.no_duplicates() {
        let n = owned_sorted.len() as int;
        assert forall|i: int, j: int|
            0 <= i < owned_sorted.len() && 0 <= j < owned_sorted.len() && i
                != j implies owned_sorted[i] != owned_sorted[j] by {
            assert(b[i] != b[j]);
        }
        assert forall|i: int, j: int|
            0 <= i < borrowed_sorted.len() && 0 <= j < borrowed_sorted.len() && i
                != j implies borrowed_sorted[i] != borrowed_sorted[j] by {
            assert(b[n + i] != b[n + j]);
        }
    }
}

/// The values that foreign references stand for, if all of them are good.
pub open spec fn resolved_all(entries: Seq<Entry>, handles: Seq<Handle>) -> core::result::Result<
    Seq<Value>,
    Fault,
>
    decreases handles.len(),
{
    if handles.len() == 0 {
        Ok(Seq::empty())
    } else {
        match resolved_all(entries, handles.drop_last()) {
            Err(error) => Err(error),
            Ok(values) => match resolved_as(
                entries,
                handles.last(),
                HandleKind::ForeignReference,
            ) {
                Err(error) => Err(error),
                Ok(value) => Ok(values.push(value)),
            },
        }
    }
}

proof fn lemma_resolved_fault(entries: Seq<Entry>, handles: Seq<Handle>, i: int)
    requires
        0 <= i <= handles.len(),
        resolved_all(entries, handles.take(i)) is Err,
    ensures
        resolved_all(entries, handles) == resolved_all(entries, handles.take(i)),
    decreases handles.len() - i,
{
    if i < handles.len() {
        assert(handles.take(i + 1).drop_last() =~= handles.take(i));
        lemma_resolved_fault(entries, handles, i + 1);
    } else {
        assert(handles.take(i) =~= handles);
    }
}

/// Resolves the owned, then the borrowed references of a trace.
pub fn resolve_traced(table: &HandleTable, traced: &TracedHandles) -> (r: Result<Vec<Value>>)
    ensures
        match resolved_all(table@, traced.owned@ + traced.borrowed@) {
            Ok(values) => r is Ok && r->Ok_0@ == values,
            Err(error) => r is Err && r->Err_0@ == error,
        },
{
    let ghost all = traced.owned@ + traced.borrowed@;
    let mut values: Vec<Value> = Vec::new();
    let mut i: usize = 0;
    let owned = traced.owned.len();
    assert(all.take(0) =~= Seq::empty());
    let mut rest: usize = 0;
    while i < owned
        invariant
            i <= owned,
            owned == traced.owned.len(),
            all == traced.owned@ + traced.borrowed@,
            resolved_all(table@, all.take(i as int)) == Ok::<Seq<Value>, Fault>(values@),
        decreases owned - i,
    {
        assert(all.take(i + 1).drop_last() =~= all.take(i as int));
        match table.resolve_foreign_reference(traced.owned[i]) {
            Ok(value) => {
                values.push(value);
            },
            Err(error) => {
                proof {
                    lemma_resolved_fault(table@, all, i + 1);
                }
                return Err(error);
            },
        }
        i += 1;
    }
    while rest < traced.borrowed.len()
        invariant
            rest <= traced.borrowed.len(),
            owned == traced.owned.len(),
            all == traced.owned@ + traced.borrowed@,
            resolved_all(table@, all.take(owned + rest)) == Ok::<Seq<Value>, Fault>(values@),
        decreases traced.borrowed.len() - rest,
    {
        assert(all.take(owned + rest + 1).drop_last() =~= all.take(owned + rest));
        match table.resolve_foreign_reference(traced.borrowed[rest]) {
            Ok(value) => {
                values.push(value);
            },
            Err(error) => {
                proof {
                    lemma_resolved_fault(table@, all, owned + rest + 1);
                }
                return Err(error);
            },
        }
        rest += 1;
    }
    assert(all.take(owned + rest) =~= all);
    Ok(values)
}

#[derive(Debug)]
pub struct ForeignObject {
    pub adapter_id: u64,
    pub payload: usize,
    pub spec: ForeignSpec,
    pub references: Vec<Value>,
    pub reference_handles: Vec<Handle>,
    pub borrowed_handles: Vec<Handle>,
    pub active: bool,
}

/// See [`ForeignObject`].
#[verifier::ext_equal]
pub struct ForeignView {
    pub adapter_id: u64,
    pub payload: usize,
    pub spec: ForeignSpec,
    pub references: Seq<Value>,
    pub reference_handles: Seq<Handle>,
    pub borrowed_handles: Seq<Handle>,
    pub active: bool,
}

impl View for ForeignObject {
    type V = ForeignView;

    open spec fn view(&self) -> ForeignView {
        ForeignView {
            adapter_id: self.adapter_id,
            payload: self.payload,
            spec: self.spec,
            references: self.references@,
            reference_handles: self.reference_handles@,
            borrowed_handles: self.borrowed_handles@,
            active: self.active,
        }
    }
}

/// A payload whose wrapper is gone.
#[derive(Debug)]
pub struct PendingForeign {
    pub payload: usize,
    pub owned: bool,
    pub destroy: Option<u64>,
    pub reference_handles: Vec<Handle>,
}

/// See [`PendingForeign`].
#[verifier::ext_equal]
pub struct PendingView {
    pub payload: usize,
    pub owned: bool,
    pub destroy: Option<u64>,
    pub reference_handles: Seq<Handle>,
}

impl View for PendingForeign {
    type V = PendingView;

    open spec fn view(&self) -> PendingView {
        PendingView {
            payload: self.payload,
            owned: self.owned,
            destroy: self.destroy,
            reference_handles: self.reference_handles@,
        }
    }
}

impl PendingView {
    /// With the payload consumed and the destructor of an owned one given out.
    pub open spec fn consumed(self) -> PendingView {
        PendingView {
            payload: 0,
            destroy: if self.owned {
                None
            } else {
                self.destroy
            },
            ..self
        }
    }

    /// The destructor call still owed: the callback and the payload.
    pub open spec fn owed(self) -> Option<(u64, usize)> {
        if self.owned {
            match self.destroy {
                Some(destroy) => Some((destroy, self.payload)),
                None => None,
            }
        } else {
            None
        }
    }
}

impl ForeignView {
    /// What remains to be done for a wrapper that dies.
    pub open spec fn finalizer(self) -> PendingView {
        PendingView {
            payload: self.payload,
            owned: self.active && self.spec.owned,
            destroy: self.spec.destroy,
            reference_handles: self.reference_handles,
        }
    }

    /// A wrapper whose finalizer was taken.
    pub open spec fn spent(self) -> ForeignView {
        ForeignView { payload: 0, active: false, reference_handles: Seq::empty(), ..self }
    }
}

/// The members of `before` that `after` lacks, in order.
pub open spec fn dropped(before: Seq<Handle>, after: Seq<Handle>) -> Seq<Handle>
    decreases before.len(),
{
    if before.len() == 0 {
        Seq::empty()
    } else {
        let rest = dropped(before.drop_last(), after);
        if after.contains(before.last()) {
            rest
        } else {
            rest.push(before.last())
        }
    }
}

impl ForeignObject {
    pub fn new(
        payload: usize,
        spec: ForeignSpec,
        reference_handles: Vec<Handle>,
        borrowed_handles: Vec<Handle>,
        references: Vec<Value>,
    ) -> (r: ForeignObject)
        ensures
            r@ == (ForeignView {
                adapter_id: spec.adapter_id,
                payload,
                spec,
                references: references@,
                reference_handles: reference_handles@,
                borrowed_handles: borrowed_handles@,
                active: true,
            }),
    {
        ForeignObject {
            adapter_id: spec.adapter_id,
            payload,
            spec,
            references,
            reference_handles,
            borrowed_handles,
            active: true,
        }
    }

    /// Appends every traced edge to `visited`.
    pub fn trace(&self, visited: &mut Vec<Value>)
        ensures
            final(visited)@ == old(visited)@ + self@.references,
    {
        visit_all(&self.references, visited);
    }

    /// Takes over the references of a new trace; returns the owned
    /// references that are no longer reported.
    pub fn refresh(&mut self, table: &HandleTable, traced: TracedHandles) -> (r: Result<Vec<Handle>>)
        ensures
            match resolved_all(table@, traced.owned@ + traced.borrowed@) {
                Ok(values) => r is Ok && r->Ok_0@ == dropped(
                    old(self)@.reference_handles,
                    traced.owned@,
                ) && final(self)@ == (ForeignView {
                    references: values,
                    reference_handles: traced.owned@,
                    borrowed_handles: traced.borrowed@,
                    ..old(self)@
                }),
                Err(error) => r is Err && r->Err_0@ == error && *final(self) == *old(self),
            },
    {
        let references = match resolve_traced(table, &traced) {
            Ok(values) => values,
            Err(error) => {
                return Err(error);
            },
        };
        let mut removed: Vec<Handle> = Vec::new();
        let mut i: usize = 0;
        while i < self.reference_handles.len()
            invariant
                i <= self.reference_handles.len(),
                *self == *old(self),
                removed@ == dropped(self.reference_handles@.take(i as int), traced.owned@),
            decreases self.reference_handles.len() - i,
        {
            assert(self.reference_handles@.take(i + 1).drop_last()
                =~= self.reference_handles@.take(i as int));
            if !holds(&traced.owned, self.reference_handles[i]) {
                removed.push(self.reference_handles[i]);
            }
            i += 1;
        }
        assert(self.reference_handles@.take(i as int) =~= self.reference_handles@);
        self.reference_handles = traced.owned;
        self.borrowed_handles = traced.borrowed;
        self.references = references;
        Ok(removed)
    }

    pub fn references(&self) -> (r: &Vec<Value>)
        ensures
            r@ == self@.references,
    {
        &self.references
    }

    pub fn payload(&self) -> (r: usize)
        ensures
            r == self@.payload,
    {
        self.payload
    }

    pub fn has_trace(&self) -> (r: bool)
        ensures
            r == self@.spec.trace is Some,
    {
        self.spec.trace.is_some()
    }

    /// What the allocator gave to the parts.
    pub fn room(&self) -> (r: ForeignRoom)
        ensures
            r.holds(self@),
    {
        ForeignRoom {
            references: measure::room(&self.references),
            owned: measure::room(&self.reference_handles),
            borrowed: measure::room(&self.borrowed_handles),
        }
    }

    /// An estimate of the storage held: that of the parts as allocated. How
    /// much more than the items' own size was allocated is not stated.
    pub fn estimated_bytes(&self) -> (r: usize)
        ensures
            exists|room: ForeignRoom| #[trigger]
                room.holds(self@) && r == measure::saturate(room.total()),
            r >= measure::saturate(self@.least_bytes()),
    {
        let room = self.room();
        proof {
            lemma_least(self@, room);
        }
        room.bytes()
    }

    /// Takes what remains to be done when the wrapper dies. A second call
    /// yields nothing to destroy.
    pub fn take_finalizer(&mut self) -> (r: PendingForeign)
        ensures
            r@ == old(self)@.finalizer(),
            final(self)@ == old(self)@.spent(),
            final(self)@.finalizer().owed() is None,
    {
        let mut reference_handles: Vec<Handle> = Vec::new();
        core::mem::swap(&mut reference_handles, &mut self.reference_handles);
        let r = PendingForeign {
            payload: self.payload,
            owned: self.active && self.spec.owned,
            destroy: self.spec.destroy,
            reference_handles,
        };
        self.payload = 0;
        self.active = false;
        r
    }
}

/// What the allocator gave to the parts of a wrapper, in items.
#[derive(Clone, Copy, Debug)]
pub struct ForeignRoom {
    pub references: usize,
    pub owned: usize,
    pub borrowed: usize,
}

impl ForeignRoom {
    /// Whether there is room for a wrapper.
    pub open spec fn holds(self, foreign: ForeignView) -> bool {
        &&& self.references >= foreign.references.len()
        &&& self.owned >= foreign.reference_handles.len()
        &&& self.borrowed >= foreign.borrowed_handles.len()
    }

    /// The bytes of the parts together.
    pub open spec fn total(self) -> int {
        self.references * vstd::layout::size_of::<Value>() + self.owned * vstd::layout::size_of::<
            Handle,
        >() + self.borrowed * vstd::layout::size_of::<Handle>()
    }

    /// The bytes of the parts together.
    pub fn bytes(&self) -> (r: usize)
        ensures
            r == measure::saturate(self.total()),
    {
        measure::area(self.references, core::mem::size_of::<Value>()).saturating_add(
            measure::area(self.owned, core::mem::size_of::<Handle>()),
        ).saturating_add(measure::area(self.borrowed, core::mem::size_of::<Handle>()))
    }
}

impl ForeignView {
    /// What the wrapper occupies at the least, beside its own words.
    pub open spec fn least_bytes(self) -> int {
        0int + self.references.len() * vstd::layout::size_of::<Value>()
            + self.reference_handles.len() * vstd::layout::size_of::<Handle>() + self.borrowed_handles.len()
            * vstd::layout::size_of::<Handle>()
    }
}

proof fn lemma_least(foreign: ForeignView, room: ForeignRoom)
    requires
        room.holds(foreign),
    ensures
        measure::saturate(foreign.least_bytes()) <= measure::saturate(room.total()),
{
    let (v, h) = (
        vstd::layout::size_of::<Value>() as int,
        vstd::layout::size_of::<Handle>() as int,
    );
    let (r, o, b) = (
        foreign.references.len() as int,
        foreign.reference_handles.len() as int,
        foreign.borrowed_handles.len() as int,
    );
    assert(r * v <= room.references * v && o * h <= room.owned * h && b * h <= room.borrowed * h)
        by (nonlinear_arith)
        requires
            0 <= r <= room.references,
            0 <= o <= room.owned,
            0 <= b <= room.borrowed,
            v >= 0,
            h >= 0,
    ;
}

impl PendingForeign {
    pub fn will_destroy(&self) -> (r: bool)
        ensures
            r == self@.owed() is Some,
    {
        self.owned && self.destroy.is_some()
    }

    /// Gives out the destructor call that is owed, once: the payload is
    /// consumed before anybody calls, so nothing can call a second time.
    pub fn run(&mut self) -> (r: Option<(u64, usize)>)
        ensures
            r == old(self)@.owed(),
            final(self)@ == old(self)@.consumed(),
            final(self)@.owed() is None,
    {
        let payload = self.payload;
        self.payload = 0;
        if !self.owned {
            return None;
        }
        match self.destroy.take() {
            Some(destroy) => Some((destroy, payload)),
            None => None,
        }
    }
}

} // verus!

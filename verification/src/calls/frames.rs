//! Frames: how arguments become the registers and cells of a function.
use vstd::prelude::*;
use crate::attributes::answers;
use crate::calls::arguments::{ArgsView, ExpandedArgs};
use crate::calls::known::{arguments_known, lemma_positional_known};
use crate::calls::refuses;
use crate::dict::{Dict, DictView};
use crate::diagnostic::{fault, fault_text, outcome, Diagnostic, Fault, Result};
use crate::heap::{Heap, HeapView};
use crate::lookup::Outcome;
use crate::mapping::lemma_dict_set_frame;
use crate::namespaces::allocates;
use crate::object::{Object, ObjectView};
use crate::prepare::attributes_known;
use crate::text::{decimal, decimal_usize, join3, name_pairs, same};
use crate::value::{lemma_not_heap, Value};

verus! {

/// What a call needs to know of a code object.
#[derive(Debug)]
pub struct CodeInfo {
    pub name: String,
    pub registers: u16,
    pub positional: u16,
    /// How many of the positional parameters cannot be named.
    pub posonly: u16,
    pub keyword_only: u16,
    pub vararg: Option<u16>,
    pub kwarg: Option<u16>,
    /// The registers of the parameters with defaults.
    pub defaults: Vec<u16>,
    /// The names of the local registers, the parameters first.
    pub locals: Vec<String>,
    /// The registers that closures share.
    pub cell_locals: Vec<u16>,
    /// The names of the cells that the function got.
    pub free_vars: Vec<String>,
    pub params: u16,
}

impl CodeInfo {
    /// How many parameters have names.
    pub open spec fn named(&self) -> int {
        self.positional + self.keyword_only
    }

    /// Whether every register that is spoken of is there.
    pub open spec fn wf(&self) -> bool {
        &&& self.named() <= self.registers
        &&& self.named() <= self.locals@.len()
        &&& self.vararg matches Some(slot) ==> slot < self.registers
        &&& self.kwarg matches Some(slot) ==> slot < self.registers
        &&& forall|i: int|
            0 <= i < self.defaults@.len() ==> #[trigger] self.defaults@[i] < self.registers
        &&& forall|i: int|
            0 <= i < self.cell_locals@.len() ==> #[trigger] self.cell_locals@[i] < self.registers
    }

    /// The register of a parameter that can be named so, from a position on.
    pub open spec fn slot_from(&self, name: Seq<char>, from: int) -> Option<int>
        decreases self.named() - from,
    {
        if from >= self.named() {
            None
        } else if self.locals@[from]@ == name {
            Some(from)
        } else {
            self.slot_from(name, from + 1)
        }
    }

    /// The register of a parameter that can be named so.
    pub open spec fn slot_of(&self, name: Seq<char>) -> Option<int> {
        self.slot_from(name, self.posonly as int)
    }

    /// The register of a parameter that can be named so.
    fn find_slot(&self, name: &str) -> (r: Option<usize>)
        requires
            self.wf(),
        ensures
            match r {
                Some(slot) => self.slot_of(name@) == Some(slot as int) && slot < self.named(),
                None => self.slot_of(name@) is None,
            },
    {
        let named: usize = self.positional as usize + self.keyword_only as usize;
        let mut slot: usize = self.posonly as usize;
        while slot < named
            invariant
                self.wf(),
                named == self.named(),
                self.slot_of(name@) == self.slot_from(name@, slot as int),
            decreases named - slot,
        {
            if same(self.locals[slot].as_str(), name) {
                return Some(slot);
            }
            slot += 1;
        }
        None
    }
}

/// Where a frame would stand, and what bounds it.
#[derive(Clone, Copy, Debug)]
pub struct FrameBounds {
    pub depth: usize,
    pub frames: usize,
    pub base: usize,
    pub registers: usize,
}

/// The registers and cells that a function starts with.
#[derive(Debug)]
pub struct Window {
    pub registers: Vec<Value>,
    pub cells: Vec<Value>,
}

/// The arguments that have registers of their own, in those registers.
pub open spec fn placed(info: CodeInfo, values: Seq<Value>) -> Seq<Value> {
    Seq::new(
        info.registers as nat,
        |i: int|
            if i < info.positional && i < values.len() {
                values[i]
            } else {
                Value::unbound()
            },
    )
}

/// The arguments behind those that have registers of their own.
pub open spec fn surplus(info: CodeInfo, values: Seq<Value>) -> Seq<Value> {
    if values.len() > info.positional {
        values.skip(info.positional as int)
    } else {
        Seq::empty()
    }
}

pub open spec fn too_many_arguments(info: CodeInfo, count: int) -> Fault {
    fault_text(
        "TypeError",
        info.name@ + "() accepts at most "@ + decimal(info.positional as int)
            + " positional arguments, got "@ + decimal(count),
    )
}

pub open spec fn given_twice(info: CodeInfo, name: Seq<char>) -> Fault {
    fault_text(
        "TypeError",
        info.name@ + "() got multiple values for argument '"@ + name + "'"@,
    )
}

pub open spec fn unexpected_keyword(info: CodeInfo, name: Seq<char>) -> Fault {
    fault_text(
        "TypeError",
        info.name@ + "() got unexpected or positional-only keyword '"@ + name + "'"@,
    )
}

pub open spec fn missing_argument(info: CodeInfo, slot: int) -> Fault {
    fault_text(
        "TypeError",
        info.name@ + "() missing required argument '"@ + info.locals@[slot]@ + "'"@,
    )
}

/// What giving a keyword argument does.
pub open spec fn keyword_bound(
    before: HeapView,
    window: Seq<Value>,
    after: HeapView,
    result: Outcome<Seq<Value>>,
    info: CodeInfo,
    dict: Option<Value>,
    name: Seq<char>,
    value: Value,
) -> bool {
    match info.slot_of(name) {
        Some(slot) => after == before && result == if window[slot] != Value::unbound() {
            Err(given_twice(info, name))
        } else {
            Ok::<Seq<Value>, Fault>(window.update(slot, value))
        },
        None => match dict {
            None => after == before && result == Err::<Seq<Value>, Fault>(
                unexpected_keyword(info, name),
            ),
            Some(dict) => exists|between: HeapView, made: core::result::Result<Value, Diagnostic>|
                #![trigger allocates(before, between, made, ObjectView::Str(name))]
                allocates(before, between, made, ObjectView::Str(name)) && match made {
                    Err(error) => after == between && result == Err::<Seq<Value>, Fault>(error@),
                    Ok(key) => {
                        let change = between.dict_set(dict, key, value);
                        after == change.0 && result == match change.1 {
                            Ok(_) => Ok(window),
                            Err(error) => Err(error),
                        }
                    },
                },
        },
    }
}

/// Whether a heap and what was bound so far stand between two steps; every
/// pair may.
pub open spec fn reaches<T>(heap: HeapView, held: Outcome<T>) -> bool {
    true
}

/// What giving keyword arguments in turn does.
pub open spec fn keywords_bound(
    before: HeapView,
    window: Seq<Value>,
    after: HeapView,
    result: Outcome<Seq<Value>>,
    info: CodeInfo,
    dict: Option<Value>,
    keywords: Seq<(Seq<char>, Value)>,
) -> bool
    decreases keywords.len(),
{
    if keywords.len() == 0 {
        after == before && result == Ok::<Seq<Value>, Fault>(window)
    } else {
        exists|between: HeapView, held: Outcome<Seq<Value>>|
            #![trigger reaches(between, held)]
            reaches(between, held) && keywords_bound(before, window, between, held, info, dict, keywords.drop_last())
                && match held {
                Err(error) => after == between && result == Err::<Seq<Value>, Fault>(error),
                Ok(window) => keyword_bound(
                    between,
                    window,
                    after,
                    result,
                    info,
                    dict,
                    keywords.last().0,
                    keywords.last().1,
                ),
            }
    }
}

/// A window with defaults for the parameters that got nothing.
pub open spec fn defaulted(
    window: Seq<Value>,
    slots: Seq<u16>,
    defaults: Seq<Value>,
    count: int,
) -> Seq<Value>
    decreases count,
{
    if count <= 0 {
        window
    } else {
        let held = defaulted(window, slots, defaults, count - 1);
        let slot = slots[count - 1] as int;
        if held[slot] == Value::unbound() {
            held.update(slot, defaults[count - 1])
        } else {
            held
        }
    }
}

/// How many defaults there are registers and values for.
pub open spec fn default_count(slots: Seq<u16>, defaults: Seq<Value>) -> int {
    if slots.len() < defaults.len() {
        slots.len() as int
    } else {
        defaults.len() as int
    }
}

/// The first parameter from a position on that got nothing.
pub open spec fn unbound_from(window: Seq<Value>, named: int, from: int) -> Option<int>
    decreases named - from,
{
    if from >= named {
        None
    } else if window[from] == Value::unbound() {
        Some(from)
    } else {
        unbound_from(window, named, from + 1)
    }
}

/// What moving registers to cells does.
pub open spec fn cells_made(
    before: HeapView,
    window: Seq<Value>,
    after: HeapView,
    result: Outcome<(Seq<Value>, Seq<Value>)>,
    locals: Seq<u16>,
) -> bool
    decreases locals.len(),
{
    if locals.len() == 0 {
        after == before && result == Ok::<(Seq<Value>, Seq<Value>), Fault>((window, Seq::empty()))
    } else {
        exists|between: HeapView, held: Outcome<(Seq<Value>, Seq<Value>)>|
            #![trigger reaches(between, held)]
            reaches(between, held) && cells_made(before, window, between, held, locals.drop_last()) && match held {
                Err(error) => after == between && result == Err::<(Seq<Value>, Seq<Value>), Fault>(
                    error,
                ),
                Ok((window, cells)) => cell_made(
                    between,
                    window,
                    cells,
                    after,
                    result,
                    locals.last() as int,
                ),
            }
    }
}

/// What moving a register to a cell does.
pub open spec fn cell_made(
    before: HeapView,
    window: Seq<Value>,
    cells: Seq<Value>,
    after: HeapView,
    result: Outcome<(Seq<Value>, Seq<Value>)>,
    slot: int,
) -> bool {
    exists|made: core::result::Result<Value, Diagnostic>|
        #![trigger allocates(before, after, made, ObjectView::Cell(window[slot]))]
        allocates(before, after, made, ObjectView::Cell(window[slot])) && result == match made {
            Err(error) => Err(error@),
            Ok(cell) => Ok((window.update(slot, Value::unbound()), cells.push(cell))),
        }
}

/// The defaults of a function.
pub open spec fn defaults_of(heap: HeapView, callable: Option<Value>) -> Seq<Value> {
    match callable {
        Some(callable) => match heap.at(callable) {
            Some(ObjectView::Function { defaults, .. }) => defaults,
            _ => Seq::empty(),
        },
        None => Seq::empty(),
    }
}

/// The cells that a function got.
pub open spec fn captures_of(heap: HeapView, callable: Option<Value>) -> Seq<Value> {
    match callable {
        Some(callable) => match heap.at(callable) {
            Some(ObjectView::Function { captures, .. }) => captures,
            _ => Seq::empty(),
        },
        None => Seq::empty(),
    }
}

/// Whether registers and cells were given.
pub open spec fn windowed(
    result: core::result::Result<Window, Diagnostic>,
    registers: Seq<Value>,
    cells: Seq<Value>,
) -> bool {
    result matches Ok(window) && window.registers@ == registers && window.cells@ == cells
}

/// What completing a window does: defaults, the check for missing arguments,
/// and cells.
pub open spec fn window_completed(
    before: HeapView,
    window: Seq<Value>,
    after: HeapView,
    result: core::result::Result<Window, Diagnostic>,
    info: CodeInfo,
    callable: Option<Value>,
) -> bool {
    let defaults = defaults_of(before, callable);
    let filled = defaulted(
        window,
        info.defaults@,
        defaults,
        default_count(info.defaults@, defaults),
    );
    match unbound_from(filled, info.named(), 0) {
        Some(slot) => after == before && refuses(result, missing_argument(info, slot)),
        None => exists|cells: Outcome<(Seq<Value>, Seq<Value>)>|
            #![trigger cells_made(before, filled, after, cells, info.cell_locals@)]
            cells_made(before, filled, after, cells, info.cell_locals@) && match cells {
                Err(error) => refuses(result, error),
                Ok((registers, cells)) => windowed(
                    result,
                    registers,
                    cells + captures_of(before, callable),
                ),
            },
    }
}

/// What giving keyword arguments and completing the window does.
pub open spec fn keywords_completed(
    before: HeapView,
    window: Seq<Value>,
    after: HeapView,
    result: core::result::Result<Window, Diagnostic>,
    info: CodeInfo,
    dict: Option<Value>,
    keywords: Seq<(Seq<char>, Value)>,
    callable: Option<Value>,
) -> bool {
    exists|between: HeapView, held: Outcome<Seq<Value>>|
        #![trigger keywords_bound(before, window, between, held, info, dict, keywords)]
        keywords_bound(before, window, between, held, info, dict, keywords) && match held {
            Err(error) => after == between && refuses(result, error),
            Ok(window) => window_completed(between, window, after, result, info, callable),
        }
}

/// What making the dictionary of surplus keywords and going on does.
pub open spec fn kwarg_completed(
    before: HeapView,
    window: Seq<Value>,
    after: HeapView,
    result: core::result::Result<Window, Diagnostic>,
    info: CodeInfo,
    keywords: Seq<(Seq<char>, Value)>,
    callable: Option<Value>,
) -> bool {
    match info.kwarg {
        None => keywords_completed(
            before,
            window,
            after,
            result,
            info,
            None,
            keywords,
            callable,
        ),
        Some(slot) => exists|between: HeapView, made: core::result::Result<Value, Diagnostic>|
            #![trigger allocates(before, between, made, ObjectView::Dict(DictView::empty()))]
            allocates(before, between, made, ObjectView::Dict(DictView::empty())) && match made {
                Err(error) => after == between && refuses(result, error@),
                Ok(dict) => keywords_completed(
                    between,
                    window.update(slot as int, dict),
                    after,
                    result,
                    info,
                    Some(dict),
                    keywords,
                    callable,
                ),
            },
    }
}

/// What making the tuple of surplus arguments and going on does.
pub open spec fn vararg_completed(
    before: HeapView,
    window: Seq<Value>,
    after: HeapView,
    result: core::result::Result<Window, Diagnostic>,
    info: CodeInfo,
    arguments: ArgsView,
    callable: Option<Value>,
) -> bool {
    let rest = surplus(info, arguments.all());
    match info.vararg {
        None => kwarg_completed(
            before,
            window,
            after,
            result,
            info,
            arguments.keywords,
            callable,
        ),
        Some(slot) => exists|between: HeapView, made: core::result::Result<Value, Diagnostic>|
            #![trigger allocates(before, between, made, ObjectView::Tuple(rest))]
            allocates(before, between, made, ObjectView::Tuple(rest)) && match made {
                Err(error) => after == between && refuses(result, error@),
                Ok(tuple) => kwarg_completed(
                    between,
                    window.update(slot as int, tuple),
                    after,
                    result,
                    info,
                    arguments.keywords,
                    callable,
                ),
            },
    }
}

/// What entering a function does.
pub open spec fn frame_entered(
    before: HeapView,
    after: HeapView,
    result: core::result::Result<Window, Diagnostic>,
    info: CodeInfo,
    arguments: ArgsView,
    callable: Option<Value>,
    bounds: FrameBounds,
) -> bool {
    let count = arguments.all().len();
    let end = bounds.base + info.registers;
    if bounds.depth >= bounds.frames {
        after == before && refuses(
            result,
            fault("RecursionError", "maximum call depth exceeded"),
        )
    } else if end > usize::MAX {
        after == before && refuses(result, fault("MemoryError", "register size overflow"))
    } else if end > bounds.registers {
        after == before && refuses(result, fault("MemoryError", "register budget exceeded"))
    } else if count > info.positional && info.vararg is None {
        after == before && refuses(result, too_many_arguments(info, count as int))
    } else {
        vararg_completed(
            before,
            placed(info, arguments.all()),
            after,
            result,
            info,
            arguments,
            callable,
        )
    }
}

proof fn lemma_keywords_fail(
    before: HeapView,
    window: Seq<Value>,
    after: HeapView,
    error: Fault,
    info: CodeInfo,
    dict: Option<Value>,
    keywords: Seq<(Seq<char>, Value)>,
    i: int,
)
    requires
        0 <= i <= keywords.len(),
        keywords_bound(before, window, after, Err(error), info, dict, keywords.take(i)),
    ensures
        keywords_bound(before, window, after, Err(error), info, dict, keywords),
    decreases keywords.len() - i,
{
    if i < keywords.len() {
        assert(keywords.take(i + 1).drop_last() =~= keywords.take(i));
        assert(reaches(after, Err::<Seq<Value>, Fault>(error)));
        assert(keywords_bound(
            before,
            window,
            after,
            Err(error),
            info,
            dict,
            keywords.take(i + 1),
        ));
        lemma_keywords_fail(before, window, after, error, info, dict, keywords, i + 1);
    } else {
        assert(keywords.take(i) =~= keywords);
    }
}

proof fn lemma_cells_fail(
    before: HeapView,
    window: Seq<Value>,
    after: HeapView,
    error: Fault,
    locals: Seq<u16>,
    i: int,
)
    requires
        0 <= i <= locals.len(),
        cells_made(before, window, after, Err(error), locals.take(i)),
    ensures
        cells_made(before, window, after, Err(error), locals),
    decreases locals.len() - i,
{
    if i < locals.len() {
        assert(locals.take(i + 1).drop_last() =~= locals.take(i));
        assert(reaches(after, Err::<(Seq<Value>, Seq<Value>), Fault>(error)));
        assert(cells_made(before, window, after, Err(error), locals.take(i + 1)));
        lemma_cells_fail(before, window, after, error, locals, i + 1);
    } else {
        assert(locals.take(i) =~= locals);
    }
}

/// A window as it is spoken of.
pub open spec fn registers_of(result: core::result::Result<Vec<Value>, Diagnostic>) -> Outcome<
    Seq<Value>,
> {
    match result {
        Ok(window) => Ok(window@),
        Err(error) => Err(error@),
    }
}

/// Registers and cells as they are spoken of.
pub open spec fn moved_of(
    result: core::result::Result<(Vec<Value>, Vec<Value>), Diagnostic>,
) -> Outcome<(Seq<Value>, Seq<Value>)> {
    match result {
        Ok((registers, cells)) => Ok((registers@, cells@)),
        Err(error) => Err(error@),
    }
}

impl Heap {
    fn bind_keyword(
        &mut self,
        window: Vec<Value>,
        info: &CodeInfo,
        dict: Option<Value>,
        name: &String,
        value: Value,
    ) -> (r: Result<Vec<Value>>)
        requires
            old(self).wf(),
            info.wf(),
            window@.len() == info.registers,
        ensures
            final(self).wf(),
            keyword_bound(
                old(self)@,
                window@,
                final(self)@,
                registers_of(r),
                *info,
                dict,
                name@,
                value,
            ),
            r matches Ok(next) ==> next@.len() == info.registers,
            forall|v: Value| #[trigger] old(self)@.known(v) ==> final(self)@.known(v),
            old(self)@.sound() && window_known(old(self)@, window@) && old(self)@.known(value)
                ==> final(self)@.sound() && (r matches Ok(next) ==> window_known(
                final(self)@,
                next@,
            )),
    {
        let ghost before = self@;
        let ghost given = window@;
        let mut window = window;
        if let Some(slot) = info.find_slot(name.as_str()) {
            if window[slot] != Value::unbound() {
                let mut text = join3(
                    info.name.as_str(),
                    "() got multiple values for argument '",
                    name.as_str(),
                );
                text.append("'");
                return Err(Diagnostic::with_text("TypeError", text));
            }
            window.set(slot, value);
            return Ok(window);
        }
        let dict = match dict {
            Some(dict) => dict,
            None => {
                let mut text = join3(
                    info.name.as_str(),
                    "() got unexpected or positional-only keyword '",
                    name.as_str(),
                );
                text.append("'");
                return Err(Diagnostic::with_text("TypeError", text));
            },
        };
        let made = self.allocate(Object::Str(name.clone()));
        assert(allocates(before, self@, made, ObjectView::Str(name@)));
        match made {
            Err(error) => Err(error),
            Ok(key) => {
                proof {
                    lemma_dict_set_frame(self@, dict, key, value);
                }
                self.dict_set(dict, key, value)?;
                proof {
                    lemma_window_stays(before, self@, given);
                }
                Ok(window)
            },
        }
    }

    fn bind_keywords(
        &mut self,
        window: Vec<Value>,
        info: &CodeInfo,
        dict: Option<Value>,
        keywords: &Vec<(String, Value)>,
    ) -> (r: Result<Vec<Value>>)
        requires
            old(self).wf(),
            info.wf(),
            window@.len() == info.registers,
        ensures
            final(self).wf(),
            keywords_bound(
                old(self)@,
                window@,
                final(self)@,
                registers_of(r),
                *info,
                dict,
                name_pairs(keywords@),
            ),
            r matches Ok(next) ==> next@.len() == info.registers,
            old(self)@.sound() && window_known(old(self)@, window@) && attributes_known(
                old(self)@,
                name_pairs(keywords@),
            ) ==> final(self)@.sound() && (r matches Ok(next) ==> window_known(
                final(self)@,
                next@,
            )),
    {
        let ghost before = self@;
        let ghost first = window@;
        let ghost names = name_pairs(keywords@);
        let ghost fine = before.sound() && window_known(before, first) && attributes_known(
            before,
            names,
        );
        let mut held = window;
        let mut i: usize = 0;
        assert(names.take(0) =~= Seq::empty());
        while i < keywords.len()
            invariant
                self.wf(),
                info.wf(),
                before == old(self)@,
                first == window@,
                names == name_pairs(keywords@),
                held@.len() == info.registers,
                i <= keywords.len(),
                keywords_bound(
                    before,
                    first,
                    self@,
                    Ok(held@),
                    *info,
                    dict,
                    names.take(i as int),
                ),
                fine == (before.sound() && window_known(before, first) && attributes_known(
                    before,
                    names,
                )),
                forall|v: Value| #[trigger] before.known(v) ==> self@.known(v),
                fine ==> self@.sound() && window_known(self@, held@),
            decreases keywords.len() - i,
        {
            proof {
                if fine {
                    assert(before.known(names[i as int].1));
                }
            }
            let ghost between = self@;
            let ghost view = held@;
            assert(names.take(i + 1).drop_last() =~= names.take(i as int));
            assert(names.take(i + 1).last() == (keywords@[i as int].0@, keywords@[i as int].1));
            assert(reaches(between, Ok::<Seq<Value>, Fault>(view)));
            match self.bind_keyword(held, info, dict, &keywords[i].0, keywords[i].1) {
                Ok(next) => {
                    held = next;
                },
                Err(error) => {
                    proof {
                        assert(keywords_bound(
                            before,
                            first,
                            self@,
                            Err(error@),
                            *info,
                            dict,
                            names.take(i + 1),
                        ));
                        lemma_keywords_fail(
                            before,
                            first,
                            self@,
                            error@,
                            *info,
                            dict,
                            names,
                            i + 1,
                        );
                    }
                    return Err(error);
                },
            }
            i += 1;
        }
        assert(names.take(i as int) =~= names);
        Ok(held)
    }

    fn move_to_cells(&mut self, window: Vec<Value>, locals: &Vec<u16>) -> (r: Result<
        (Vec<Value>, Vec<Value>),
    >)
        requires
            old(self).wf(),
            forall|i: int|
                0 <= i < locals@.len() ==> #[trigger] locals@[i] < window@.len(),
        ensures
            final(self).wf(),
            cells_made(old(self)@, window@, final(self)@, moved_of(r), locals@),
            forall|v: Value| old(self)@.live(v) ==> #[trigger] final(self)@.at(v) == old(self)@.at(v),
            old(self)@.sound() && window_known(old(self)@, window@) ==> final(self)@.sound(),
    {
        let ghost before = self@;
        let ghost first = window@;
        let mut held = window;
        let mut cells: Vec<Value> = Vec::new();
        let mut i: usize = 0;
        assert(locals@.take(0) =~= Seq::empty());
        assert(cells@ =~= Seq::<Value>::empty());
        while i < locals.len()
            invariant
                self.wf(),
                before == old(self)@,
                first == window@,
                held@.len() == first.len(),
                forall|i: int| 0 <= i < locals@.len() ==> #[trigger] locals@[i] < first.len(),
                i <= locals.len(),
                cells_made(before, first, self@, Ok((held@, cells@)), locals@.take(i as int)),
                forall|v: Value| before.live(v) ==> #[trigger] self@.live(v),
                forall|v: Value| before.live(v) ==> #[trigger] self@.at(v) == before.at(v),
                before.sound() && window_known(before, first) ==> self@.sound() && window_known(
                    self@,
                    held@,
                ),
            decreases locals.len() - i,
        {
            let ghost between = self@;
            let slot = locals[i] as usize;
            let ghost view = (held@, cells@);
            assert(locals@.take(i + 1).drop_last() =~= locals@.take(i as int));
            assert(locals@.take(i + 1).last() == locals@[i as int]);
            assert(reaches(between, Ok::<(Seq<Value>, Seq<Value>), Fault>(view)));
            proof {
                self.lemma_view();
            }
            let made = self.allocate(Object::Cell(held[slot]));
            proof {
                if before.sound() && window_known(before, first) {
                    lemma_window_stays(between, self@, view.0);
                    lemma_not_heap();
                }
                assert forall|v: Value| before.live(v) implies #[trigger] self@.live(v)
                    && self@.at(v) == before.at(v) by {
                    assert(between.live(v));
                    assert(between.at(v) == before.at(v));
                }
            }
            assert(allocates(between, self@, made, ObjectView::Cell(view.0[slot as int])));
            match made {
                Ok(cell) => {
                    held.set(slot, Value::unbound());
                    cells.push(cell);
                    assert(cell_made(
                        between,
                        view.0,
                        view.1,
                        self@,
                        Ok((held@, cells@)),
                        slot as int,
                    ));
                },
                Err(error) => {
                    proof {
                        assert(cell_made(
                            between,
                            view.0,
                            view.1,
                            self@,
                            Err(error@),
                            slot as int,
                        ));
                        assert(cells_made(
                            before,
                            first,
                            self@,
                            Err(error@),
                            locals@.take(i + 1),
                        ));
                        lemma_cells_fail(before, first, self@, error@, locals@, i + 1);
                    }
                    return Err(error);
                },
            }
            i += 1;
        }
        assert(locals@.take(i as int) =~= locals@);
        Ok((held, cells))
    }

    fn fill_defaults(&self, window: Vec<Value>, info: &CodeInfo, callable: Option<Value>) -> (r: Vec<
        Value,
    >)
        requires
            self.wf(),
            info.wf(),
            window@.len() == info.registers,
        ensures
            r@.len() == info.registers,
            ({
                let defaults = defaults_of(self@, callable);
                r@ == defaulted(
                    window@,
                    info.defaults@,
                    defaults,
                    default_count(info.defaults@, defaults),
                )
            }),
    {
        let ghost first = window@;
        let ghost view = defaults_of(self@, callable);
        let mut held = window;
        let object = match callable {
            Some(callable) => self.try_get(callable),
            None => None,
        };
        if let Some(Object::Function { defaults, .. }) = object {
            let mut i: usize = 0;
            while i < info.defaults.len() && i < defaults.len()
                invariant
                    info.wf(),
                    view == defaults@,
                    first == window@,
                    held@.len() == info.registers,
                    i <= info.defaults@.len(),
                    i <= defaults@.len(),
                    held@ == defaulted(first, info.defaults@, view, i as int),
                decreases info.defaults.len() - i,
            {
                let slot = info.defaults[i] as usize;
                if held[slot] == Value::unbound() {
                    held.set(slot, defaults[i]);
                }
                i += 1;
            }
        }
        held
    }

    fn complete_window(&mut self, window: Vec<Value>, info: &CodeInfo, callable: Option<Value>) -> (r:
        Result<Window>)
        requires
            old(self).wf(),
            info.wf(),
            window@.len() == info.registers,
            callable matches Some(function) ==> old(self)@.live(function),
        ensures
            final(self).wf(),
            window_completed(old(self)@, window@, final(self)@, r, *info, callable),
            old(self)@.sound() && window_known(old(self)@, window@) ==> final(self)@.sound(),
    {
        let ghost before = self@;
        let filled = self.fill_defaults(window, info, callable);
        proof {
            if before.sound() && window_known(before, window@) {
                let defaults = defaults_of(before, callable);
                lemma_defaults_known(before, callable);
                lemma_filled_known(
                    before,
                    window@,
                    *info,
                    defaults,
                    default_count(info.defaults@, defaults),
                );
            }
        }
        let named: usize = info.positional as usize + info.keyword_only as usize;
        let mut slot: usize = 0;
        while slot < named
            invariant
                self.wf(),
                self@ == before,
                before == old(self)@,
                info.wf(),
                named == info.named(),
                slot <= named,
                filled@.len() == info.registers,
                filled@ == defaulted(
                    window@,
                    info.defaults@,
                    defaults_of(before, callable),
                    default_count(info.defaults@, defaults_of(before, callable)),
                ),
                unbound_from(filled@, info.named(), 0) == unbound_from(
                    filled@,
                    info.named(),
                    slot as int,
                ),
            decreases named - slot,
        {
            if filled[slot] == Value::unbound() {
                let mut text = join3(
                    info.name.as_str(),
                    "() missing required argument '",
                    info.locals[slot].as_str(),
                );
                text.append("'");
                return Err(Diagnostic::with_text("TypeError", text));
            }
            slot += 1;
        }
        let ghost view = filled@;
        let moved = self.move_to_cells(filled, &info.cell_locals);
        let ghost moved_view = moved_of(moved);
        assert(cells_made(before, view, self@, moved_view, info.cell_locals@));
        let (registers, cells) = match moved {
            Ok(moved) => moved,
            Err(error) => {
                return Err(error);
            },
        };
        let ghost own = cells@;
        let mut cells = cells;
        if let Some(function) = callable {
            assert(self@.at(function) == before.at(function));
            if let Some(Object::Function { captures, .. }) = self.try_get(function) {
                assert(captures_of(before, callable) == captures@);
                crate::shapes::visit_all(captures, &mut cells);
            }
        }
        assert(cells@ =~= own + captures_of(before, callable));
        Ok(Window { registers, cells })
    }

    fn complete_keywords(
        &mut self,
        window: Vec<Value>,
        info: &CodeInfo,
        dict: Option<Value>,
        arguments: &ExpandedArgs,
        callable: Option<Value>,
    ) -> (r: Result<Window>)
        requires
            old(self).wf(),
            info.wf(),
            window@.len() == info.registers,
            callable matches Some(function) ==> old(self)@.live(function),
        ensures
            final(self).wf(),
            keywords_completed(
                old(self)@,
                window@,
                final(self)@,
                r,
                *info,
                dict,
                arguments@.keywords,
                callable,
            ),
            old(self)@.sound() && window_known(old(self)@, window@) && attributes_known(
                old(self)@,
                arguments@.keywords,
            ) ==> final(self)@.sound(),
    {
        let ghost before = self@;
        let ghost first = window@;
        let bound = self.bind_keywords(window, info, dict, &arguments.keywords);
        assert(keywords_bound(
            before,
            first,
            self@,
            registers_of(bound),
            *info,
            dict,
            arguments@.keywords,
        ));
        proof {
            lemma_keywords_live(
                before,
                first,
                self@,
                registers_of(bound),
                *info,
                dict,
                arguments@.keywords,
            );
        }
        match bound {
            Err(error) => Err(error),
            Ok(window) => self.complete_window(window, info, callable),
        }
    }

    fn complete_kwarg(
        &mut self,
        window: Vec<Value>,
        info: &CodeInfo,
        arguments: &ExpandedArgs,
        callable: Option<Value>,
    ) -> (r: Result<Window>)
        requires
            old(self).wf(),
            info.wf(),
            window@.len() == info.registers,
            callable matches Some(function) ==> old(self)@.live(function),
        ensures
            final(self).wf(),
            kwarg_completed(
                old(self)@,
                window@,
                final(self)@,
                r,
                *info,
                arguments@.keywords,
                callable,
            ),
            old(self)@.sound() && window_known(old(self)@, window@) && attributes_known(
                old(self)@,
                arguments@.keywords,
            ) ==> final(self)@.sound(),
    {
        let ghost before = self@;
        let slot = match info.kwarg {
            None => {
                return self.complete_keywords(window, info, None, arguments, callable);
            },
            Some(slot) => slot as usize,
        };
        let dict = Dict::new();
        proof {
            dict.lemma_view_wf();
            self.lemma_view();
        }
        let made = self.allocate(Object::Dict(dict));
        assert(allocates(before, self@, made, ObjectView::Dict(DictView::empty())));
        match made {
            Err(error) => Err(error),
            Ok(dict) => {
                proof {
                    lemma_window_stays(before, self@, window@);
                    if attributes_known(before, arguments@.keywords) {
                        lemma_attributes_stay(before, self@, arguments@.keywords);
                    }
                }
                let mut window = window;
                window.set(slot, dict);
                self.complete_keywords(window, info, Some(dict), arguments, callable)
            },
        }
    }

    /// Binds arguments to the registers and cells that a function starts with.
    pub fn enter_frame(
        &mut self,
        info: &CodeInfo,
        arguments: &ExpandedArgs,
        callable: Option<Value>,
        bounds: FrameBounds,
    ) -> (r: Result<Window>)
        requires
            old(self).wf(),
            info.wf(),
            callable matches Some(function) ==> (old(self)@.at(function) matches Some(
                ObjectView::Function { .. },
            )),
        ensures
            final(self).wf(),
            frame_entered(old(self)@, final(self)@, r, *info, arguments@, callable, bounds),
            old(self)@.sound() && arguments_known(old(self)@, arguments@) ==> final(self)@.sound(),
    {
        let ghost before = self@;
        if bounds.depth >= bounds.frames {
            return Err(Diagnostic::new("RecursionError", "maximum call depth exceeded"));
        }
        let end = match bounds.base.checked_add(info.registers as usize) {
            Some(end) => end,
            None => {
                return Err(Diagnostic::new("MemoryError", "register size overflow"));
            },
        };
        if end > bounds.registers {
            return Err(Diagnostic::new("MemoryError", "register budget exceeded"));
        }
        let values = arguments.values();
        let positional = info.positional as usize;
        if values.len() > positional && info.vararg.is_none() {
            let most = decimal_usize(positional);
            let got = decimal_usize(values.len());
            let mut text = join3(info.name.as_str(), "() accepts at most ", most.as_str());
            text.append(" positional arguments, got ");
            text.append(got.as_str());
            assert(text@ =~= too_many_arguments(*info, values@.len() as int).message);
            return Err(Diagnostic::with_text("TypeError", text));
        }
        let window = place(info, &values);
        proof {
            if arguments_known(before, arguments@) {
                lemma_positional_known(before, arguments@);
                lemma_not_heap();
                assert(attributes_known(before, arguments@.keywords));
                assert forall|i: int| 0 <= i < window@.len() implies before.known(
                    #[trigger] window@[i],
                ) by {
                    if i < info.positional && i < values@.len() {
                        assert(window@[i] == arguments@.all()[i]);
                    }
                }
                let rest = surplus(*info, values@);
                assert forall|e: Value| #[trigger] rest.contains(e) implies before.known(e) by {
                    let i = choose|i: int| 0 <= i < rest.len() && rest[i] == e;
                    assert(arguments@.all()[info.positional + i] == e);
                }
            }
        }
        let slot = match info.vararg {
            None => {
                return self.complete_kwarg(window, info, arguments, callable);
            },
            Some(slot) => slot as usize,
        };
        let rest = behind(info, &values);
        let ghost view = rest@;
        proof {
            self.lemma_view();
        }
        let made = self.allocate(Object::Tuple(rest));
        assert(allocates(before, self@, made, ObjectView::Tuple(view)));
        match made {
            Err(error) => Err(error),
            Ok(tuple) => {
                proof {
                    lemma_window_stays(before, self@, window@);
                    if arguments_known(before, arguments@) {
                        lemma_attributes_stay(before, self@, arguments@.keywords);
                    }
                }
                let mut window = window;
                window.set(slot, tuple);
                self.complete_kwarg(window, info, arguments, callable)
            },
        }
    }
}

proof fn lemma_set_live(heap: HeapView, owner: Value, key: Value, value: Value)
    ensures
        forall|v: Value| heap.live(v) ==> #[trigger] heap.dict_set(owner, key, value).0.live(v),
{
    reveal(HeapView::dict_set);
}

proof fn lemma_keyword_live(
    before: HeapView,
    window: Seq<Value>,
    after: HeapView,
    result: Outcome<Seq<Value>>,
    info: CodeInfo,
    dict: Option<Value>,
    name: Seq<char>,
    value: Value,
)
    requires
        keyword_bound(before, window, after, result, info, dict, name, value),
    ensures
        forall|v: Value| before.live(v) ==> #[trigger] after.live(v),
{
    if info.slot_of(name) is None && dict is Some {
        let owner = dict.unwrap();
        let (between, made) = choose|
            between: HeapView,
            made: core::result::Result<Value, Diagnostic>,
        |
            #![trigger allocates(before, between, made, ObjectView::Str(name))]
            allocates(before, between, made, ObjectView::Str(name)) && match made {
                Err(error) => after == between && result == Err::<Seq<Value>, Fault>(error@),
                Ok(key) => {
                    let change = between.dict_set(owner, key, value);
                    after == change.0 && result == match change.1 {
                        Ok(_) => Ok(window),
                        Err(error) => Err(error),
                    }
                },
            };
        assert(forall|v: Value| before.live(v) ==> #[trigger] between.live(v));
        if let Ok(key) = made {
            lemma_set_live(between, owner, key, value);
        }
    }
}

proof fn lemma_keywords_live(
    before: HeapView,
    window: Seq<Value>,
    after: HeapView,
    result: Outcome<Seq<Value>>,
    info: CodeInfo,
    dict: Option<Value>,
    keywords: Seq<(Seq<char>, Value)>,
)
    requires
        keywords_bound(before, window, after, result, info, dict, keywords),
    ensures
        forall|v: Value| before.live(v) ==> #[trigger] after.live(v),
    decreases keywords.len(),
{
    if keywords.len() > 0 {
        let (between, held) = choose|between: HeapView, held: Outcome<Seq<Value>>|
            #![trigger reaches(between, held)]
            reaches(between, held) && keywords_bound(before, window, between, held, info, dict, keywords.drop_last())
                && match held {
                Err(error) => after == between && result == Err::<Seq<Value>, Fault>(error),
                Ok(window) => keyword_bound(
                    between,
                    window,
                    after,
                    result,
                    info,
                    dict,
                    keywords.last().0,
                    keywords.last().1,
                ),
            };
        lemma_keywords_live(before, window, between, held, info, dict, keywords.drop_last());
        if let Ok(window) = held {
            lemma_keyword_live(
                between,
                window,
                after,
                result,
                info,
                dict,
                keywords.last().0,
                keywords.last().1,
            );
        }
    }
}

/// Whether registers hold nothing but what is known.
pub open spec fn window_known(heap: HeapView, window: Seq<Value>) -> bool {
    forall|i: int| 0 <= i < window.len() ==> heap.known(#[trigger] window[i])
}

/// What was known stays known.
proof fn lemma_window_stays(before: HeapView, after: HeapView, window: Seq<Value>)
    requires
        forall|v: Value| #[trigger] before.issued.contains(v) ==> after.issued.contains(v),
    ensures
        window_known(before, window) ==> window_known(after, window),
{
    if window_known(before, window) {
        assert forall|i: int| 0 <= i < window.len() implies after.known(#[trigger] window[i]) by {
            assert(before.known(window[i]));
        }
    }
}

/// See [`lemma_window_stays`].
proof fn lemma_attributes_stay(
    before: HeapView,
    after: HeapView,
    entries: Seq<(Seq<char>, Value)>,
)
    requires
        attributes_known(before, entries),
        forall|v: Value| #[trigger] before.issued.contains(v) ==> after.issued.contains(v),
    ensures
        attributes_known(after, entries),
{
    assert forall|i: int| 0 <= i < entries.len() implies after.known(#[trigger] entries[i].1) by {
        assert(before.known(entries[i].1));
    }
}

/// The defaults of a function are known.
proof fn lemma_defaults_known(heap: HeapView, callable: Option<Value>)
    requires
        heap.sound(),
    ensures
        window_known(heap, defaults_of(heap, callable)),
{
    if let Some(function) = callable {
        if let Some(ObjectView::Function { captures, defaults, .. }) = heap.at(function) {
            let edges = heap.objects[function].edges();
            assert forall|i: int| 0 <= i < defaults.len() implies heap.known(
                #[trigger] defaults[i],
            ) by {
                assert(edges[captures.len() + i] == defaults[i]);
                assert(edges.contains(defaults[i]));
            }
        }
    }
}

/// Registers that got known defaults hold nothing but what is known.
proof fn lemma_filled_known(
    heap: HeapView,
    window: Seq<Value>,
    info: CodeInfo,
    defaults: Seq<Value>,
    count: int,
)
    requires
        info.wf(),
        window.len() == info.registers,
        window_known(heap, window),
        window_known(heap, defaults),
        count <= info.defaults@.len(),
        count <= defaults.len(),
    ensures
        window_known(heap, defaulted(window, info.defaults@, defaults, count)),
        defaulted(window, info.defaults@, defaults, count).len() == window.len(),
    decreases count,
{
    if count > 0 {
        lemma_filled_known(heap, window, info, defaults, count - 1);
        let held = defaulted(window, info.defaults@, defaults, count - 1);
        let slot = info.defaults@[count - 1] as int;
        let after = defaulted(window, info.defaults@, defaults, count);
        assert forall|i: int| 0 <= i < after.len() implies heap.known(#[trigger] after[i]) by {
            if i == slot && held[slot] == Value::unbound() {
                assert(heap.known(defaults[count - 1]));
            } else {
                assert(heap.known(held[i]));
            }
        }
    }
}

/// The arguments that have registers of their own, in those registers.
fn place(info: &CodeInfo, values: &Vec<Value>) -> (r: Vec<Value>)
    ensures
        r@ == placed(*info, values@),
{
    let count = info.registers as usize;
    let positional = info.positional as usize;
    let mut window: Vec<Value> = Vec::new();
    while window.len() < count
        invariant
            count == info.registers,
            positional == info.positional,
            window@.len() <= count,
            window@ == placed(*info, values@).take(window@.len() as int),
        decreases count - window@.len(),
    {
        let i = window.len();
        let ghost held = window@;
        if i < positional && i < values.len() {
            window.push(values[i]);
        } else {
            window.push(Value::unbound());
        }
        assert(window@ =~= placed(*info, values@).take(i + 1));
    }
    assert(window@ =~= placed(*info, values@));
    window
}

/// The arguments behind those that have registers of their own.
fn behind(info: &CodeInfo, values: &Vec<Value>) -> (r: Vec<Value>)
    ensures
        r@ == surplus(*info, values@),
{
    let positional = info.positional as usize;
    let mut rest: Vec<Value> = Vec::new();
    let mut i: usize = positional;
    while i < values.len()
        invariant
            positional == info.positional,
            positional <= i,
            i <= values.len() || rest@.len() == 0,
            rest@.len() == i - positional,
            forall|k: int| 0 <= k < rest@.len() ==> #[trigger] rest@[k] == values@[positional + k],
        decreases values.len() - i,
    {
        rest.push(values[i]);
        i += 1;
    }
    assert(rest@ =~= surplus(*info, values@));
    rest
}

/// What the current frame says of the object that `super` without arguments
/// makes.
#[derive(Debug)]
pub struct SuperFrame {
    /// The names of the cells that the function got.
    pub free_vars: Vec<String>,
    pub params: u16,
    /// The cells of the frame, its own first.
    pub cells: Vec<Value>,
    /// How many cells are the frame's own.
    pub own_cells: usize,
    /// The first register of the frame.
    pub receiver: Value,
}

/// The position of a name.
pub open spec fn name_at(names: Seq<String>, name: Seq<char>, from: int) -> Option<int>
    decreases names.len() - from,
{
    if from >= names.len() {
        None
    } else if names[from]@ == name {
        Some(from)
    } else {
        name_at(names, name, from + 1)
    }
}

impl SuperFrame {
    /// Whether there is a cell for every name.
    pub open spec fn wf(&self) -> bool {
        self.own_cells + self.free_vars@.len() <= self.cells@.len()
    }
}

impl HeapView {
    /// The class that `super` without arguments starts from.
    pub open spec fn super_start(self, frame: Option<SuperFrame>) -> Outcome<Value> {
        match frame {
            None => Err(fault("RuntimeError", "super(): no current frame")),
            Some(frame) => match name_at(frame.free_vars@, "__class__"@, 0) {
                None => Err(fault("RuntimeError", "super(): __class__ cell not found")),
                Some(at) => if frame.params == 0 {
                    Err(fault("RuntimeError", "super(): no arguments"))
                } else {
                    match self.cell(frame.cells@[frame.own_cells + at]) {
                        Err(error) => Err(error),
                        Ok(class) => if class == Value::unbound() {
                            Err(fault("RuntimeError", "super(): empty __class__ cell"))
                        } else {
                            Ok(class)
                        },
                    }
                },
            },
        }
    }
}

impl Heap {
    fn super_start(&self, frame: &Option<SuperFrame>) -> (r: Result<Value>)
        requires
            self.wf(),
            *frame matches Some(frame) ==> frame.wf(),
        ensures
            outcome(r) == self@.super_start(*frame),
    {
        let frame = match frame {
            Some(frame) => frame,
            None => {
                return Err(Diagnostic::new("RuntimeError", "super(): no current frame"));
            },
        };
        let mut at: usize = 0;
        while at < frame.free_vars.len() && !same(frame.free_vars[at].as_str(), "__class__")
            invariant
                at <= frame.free_vars.len(),
                name_at(frame.free_vars@, "__class__"@, 0) == name_at(
                    frame.free_vars@,
                    "__class__"@,
                    at as int,
                ),
            decreases frame.free_vars.len() - at,
        {
            at += 1;
        }
        if at == frame.free_vars.len() {
            return Err(Diagnostic::new("RuntimeError", "super(): __class__ cell not found"));
        }
        if frame.params == 0 {
            return Err(Diagnostic::new("RuntimeError", "super(): no arguments"));
        }
        assert(frame.cells.len() <= usize::MAX);
        let class = self.cell(frame.cells[frame.own_cells + at])?;
        if class == Value::unbound() {
            return Err(Diagnostic::new("RuntimeError", "super(): empty __class__ cell"));
        }
        Ok(class)
    }

    /// The object that `super` without arguments makes in a frame.
    pub fn frame_super(&mut self, frame: &Option<SuperFrame>) -> (r: Result<Value>)
        requires
            old(self).wf(),
            *frame matches Some(frame) ==> frame.wf(),
        ensures
            final(self).wf(),
            match old(self)@.super_start(*frame) {
                Err(error) => final(self)@ == old(self)@ && refuses(r, error),
                Ok(class) => answers(
                    old(self)@,
                    final(self)@,
                    r,
                    old(self)@.super_value(class, frame->Some_0.receiver),
                ),
            },
            old(self)@.sound() ==> final(self)@.sound(),
    {
        let class = self.super_start(frame)?;
        match frame {
            Some(frame) => self.super_value(class, frame.receiver),
            None => Err(Diagnostic::new("RuntimeError", "super(): no current frame")),
        }
    }
}

proof fn lemma_keyword_widths(
    before: HeapView,
    window: Seq<Value>,
    after: HeapView,
    result: Outcome<Seq<Value>>,
    info: CodeInfo,
    dict: Option<Value>,
    keywords: Seq<(Seq<char>, Value)>,
)
    requires
        info.wf(),
        window.len() == info.registers,
        keywords_bound(before, window, after, result, info, dict, keywords),
    ensures
        result matches Ok(held) ==> held.len() == window.len(),
    decreases keywords.len(),
{
    if keywords.len() > 0 {
        let (between, held) = choose|between: HeapView, held: Outcome<Seq<Value>>|
            #![trigger reaches(between, held)]
            reaches(between, held) && keywords_bound(
                before,
                window,
                between,
                held,
                info,
                dict,
                keywords.drop_last(),
            ) && match held {
                Err(error) => after == between && result == Err::<Seq<Value>, Fault>(error),
                Ok(window) => keyword_bound(
                    between,
                    window,
                    after,
                    result,
                    info,
                    dict,
                    keywords.last().0,
                    keywords.last().1,
                ),
            };
        lemma_keyword_widths(before, window, between, held, info, dict, keywords.drop_last());
        lemma_slot_range(info, keywords.last().0, info.posonly as int);
    }
}

proof fn lemma_slot_range(info: CodeInfo, name: Seq<char>, from: int)
    ensures
        info.slot_from(name, from) matches Some(slot) ==> from <= slot < info.named(),
    decreases info.named() - from,
{
    if from < info.named() {
        lemma_slot_range(info, name, from + 1);
    }
}

proof fn lemma_default_widths(
    window: Seq<Value>,
    slots: Seq<u16>,
    defaults: Seq<Value>,
    count: int,
)
    requires
        count <= slots.len(),
        forall|i: int| 0 <= i < slots.len() ==> #[trigger] slots[i] < window.len(),
    ensures
        defaulted(window, slots, defaults, count).len() == window.len(),
    decreases count,
{
    if count > 0 {
        lemma_default_widths(window, slots, defaults, count - 1);
    }
}

proof fn lemma_bound_from(window: Seq<Value>, named: int, from: int, k: int)
    requires
        from <= k < named,
        unbound_from(window, named, from) is None,
    ensures
        window[k] != Value::unbound(),
    decreases named - from,
{
    if from < k {
        lemma_bound_from(window, named, from + 1, k);
    }
}

proof fn lemma_cells_kept(
    before: HeapView,
    window: Seq<Value>,
    after: HeapView,
    result: Outcome<(Seq<Value>, Seq<Value>)>,
    locals: Seq<u16>,
    k: int,
)
    requires
        cells_made(before, window, after, result, locals),
        0 <= k < window.len(),
        forall|i: int| 0 <= i < locals.len() ==> #[trigger] locals[i] < window.len(),
    ensures
        result matches Ok((registers, cells)) ==> registers.len() == window.len() && cells.len()
            == locals.len() && ((forall|i: int|
            0 <= i < locals.len() ==> #[trigger] locals[i] != k) ==> registers[k] == window[k]),
    decreases locals.len(),
{
    if locals.len() > 0 {
        let (between, held) = choose|between: HeapView, held: Outcome<(Seq<Value>, Seq<Value>)>|
            #![trigger reaches(between, held)]
            reaches(between, held) && cells_made(before, window, between, held, locals.drop_last())
                && match held {
                Err(error) => after == between && result == Err::<(Seq<Value>, Seq<Value>), Fault>(
                    error,
                ),
                Ok((window, cells)) => cell_made(
                    between,
                    window,
                    cells,
                    after,
                    result,
                    locals.last() as int,
                ),
            };
        let front = locals.drop_last();
        assert forall|i: int| 0 <= i < front.len() implies #[trigger] front[i] < window.len() by {
            assert(front[i] == locals[i]);
        }
        lemma_cells_kept(before, window, between, held, front, k);
        if result is Ok && forall|i: int| 0 <= i < locals.len() ==> #[trigger] locals[i] != k {
            assert forall|i: int| 0 <= i < front.len() implies #[trigger] front[i] != k by {
                assert(front[i] == locals[i]);
            }
            assert(locals[locals.len() - 1] != k);
        }
    }
}

proof fn lemma_completed(
    before: HeapView,
    window: Seq<Value>,
    after: HeapView,
    result: core::result::Result<Window, Diagnostic>,
    info: CodeInfo,
    callable: Option<Value>,
    k: int,
)
    requires
        window_completed(before, window, after, result, info, callable),
        info.wf(),
        window.len() == info.registers,
        0 <= k < info.named(),
    ensures
        result matches Ok(held) ==> held.registers@.len() == info.registers && held.cells@.len()
            == info.cell_locals@.len() + captures_of(before, callable).len() && ((forall|i: int|
            0 <= i < info.cell_locals@.len() ==> #[trigger] info.cell_locals@[i] != k)
            ==> held.registers@[k] != Value::unbound()),
{
    if result is Ok {
        let defaults = defaults_of(before, callable);
        let count = default_count(info.defaults@, defaults);
        let filled = defaulted(window, info.defaults@, defaults, count);
        lemma_default_widths(window, info.defaults@, defaults, count);
        lemma_bound_from(filled, info.named(), 0, k);
        let cells = choose|cells: Outcome<(Seq<Value>, Seq<Value>)>|
            #![trigger cells_made(before, filled, after, cells, info.cell_locals@)]
            cells_made(before, filled, after, cells, info.cell_locals@) && match cells {
                Err(error) => refuses(result, error),
                Ok((registers, cells)) => windowed(
                    result,
                    registers,
                    cells + captures_of(before, callable),
                ),
            };
        lemma_cells_kept(before, filled, after, cells, info.cell_locals@, k);
    }
}

proof fn lemma_keywords_completed(
    before: HeapView,
    window: Seq<Value>,
    after: HeapView,
    result: core::result::Result<Window, Diagnostic>,
    info: CodeInfo,
    dict: Option<Value>,
    keywords: Seq<(Seq<char>, Value)>,
    callable: Option<Value>,
    k: int,
)
    requires
        keywords_completed(before, window, after, result, info, dict, keywords, callable),
        info.wf(),
        window.len() == info.registers,
        0 <= k < info.named(),
    ensures
        result matches Ok(held) ==> held.registers@.len() == info.registers && ((forall|i: int|
            0 <= i < info.cell_locals@.len() ==> #[trigger] info.cell_locals@[i] != k)
            ==> held.registers@[k] != Value::unbound()),
{
    let (between, held) = choose|between: HeapView, held: Outcome<Seq<Value>>|
        #![trigger keywords_bound(before, window, between, held, info, dict, keywords)]
        keywords_bound(before, window, between, held, info, dict, keywords) && match held {
            Err(error) => after == between && refuses(result, error),
            Ok(window) => window_completed(between, window, after, result, info, callable),
        };
    lemma_keyword_widths(before, window, between, held, info, dict, keywords);
    if let Ok(bound) = held {
        lemma_completed(between, bound, after, result, info, callable, k);
    }
}

proof fn lemma_kwarg_completed(
    before: HeapView,
    window: Seq<Value>,
    after: HeapView,
    result: core::result::Result<Window, Diagnostic>,
    info: CodeInfo,
    keywords: Seq<(Seq<char>, Value)>,
    callable: Option<Value>,
    k: int,
)
    requires
        kwarg_completed(before, window, after, result, info, keywords, callable),
        info.wf(),
        window.len() == info.registers,
        0 <= k < info.named(),
    ensures
        result matches Ok(held) ==> held.registers@.len() == info.registers && ((forall|i: int|
            0 <= i < info.cell_locals@.len() ==> #[trigger] info.cell_locals@[i] != k)
            ==> held.registers@[k] != Value::unbound()),
{
    match info.kwarg {
        None => {
            lemma_keywords_completed(
                before,
                window,
                after,
                result,
                info,
                None,
                keywords,
                callable,
                k,
            );
        },
        Some(slot) => {
            let (between, made) = choose|
                between: HeapView,
                made: core::result::Result<Value, Diagnostic>,
            |
                #![trigger allocates(before, between, made, ObjectView::Dict(DictView::empty()))]
                allocates(before, between, made, ObjectView::Dict(DictView::empty())) && match made {
                    Err(error) => after == between && refuses(result, error@),
                    Ok(dict) => keywords_completed(
                        between,
                        window.update(slot as int, dict),
                        after,
                        result,
                        info,
                        Some(dict),
                        keywords,
                        callable,
                    ),
                };
            if let Ok(dict) = made {
                lemma_keywords_completed(
                    between,
                    window.update(slot as int, dict),
                    after,
                    result,
                    info,
                    Some(dict),
                    keywords,
                    callable,
                    k,
                );
            }
        },
    }
}

/// A function runs only with a value for each named parameter that closures do
/// not share.
pub proof fn entered_frames_are_bound(
    before: HeapView,
    after: HeapView,
    result: core::result::Result<Window, Diagnostic>,
    info: CodeInfo,
    arguments: ArgsView,
    callable: Option<Value>,
    bounds: FrameBounds,
    k: int,
)
    requires
        info.wf(),
        frame_entered(before, after, result, info, arguments, callable, bounds),
        0 <= k < info.named(),
        forall|i: int|
            0 <= i < info.cell_locals@.len() ==> #[trigger] info.cell_locals@[i] != k,
    ensures
        result matches Ok(window) ==> window.registers@.len() == info.registers
            && window.registers@[k] != Value::unbound(),
{
    if result is Ok {
        let window = placed(info, arguments.all());
        let rest = surplus(info, arguments.all());
        match info.vararg {
            None => {
                lemma_kwarg_completed(
                    before,
                    window,
                    after,
                    result,
                    info,
                    arguments.keywords,
                    callable,
                    k,
                );
            },
            Some(slot) => {
                let (between, made) = choose|
                    between: HeapView,
                    made: core::result::Result<Value, Diagnostic>,
                |
                    #![trigger allocates(before, between, made, ObjectView::Tuple(rest))]
                    allocates(before, between, made, ObjectView::Tuple(rest)) && match made {
                        Err(error) => after == between && refuses(result, error@),
                        Ok(tuple) => kwarg_completed(
                            between,
                            window.update(slot as int, tuple),
                            after,
                            result,
                            info,
                            arguments.keywords,
                            callable,
                        ),
                    };
                if let Ok(tuple) = made {
                    lemma_kwarg_completed(
                        between,
                        window.update(slot as int, tuple),
                        after,
                        result,
                        info,
                        arguments.keywords,
                        callable,
                        k,
                    );
                }
            },
        }
    }
}

} // verus!

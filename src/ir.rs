use vstd::prelude::*;

use crate::env::{pair_views, DeBruijnPair, Heap, HeapV};
use crate::keyed::{
    insert_element, insert_entry, keys_kept, keys_unique, last_wins, lemma_map_from, lemma_set_from,
    map_from, set_from,
};
use crate::value::{float_key, truthy_spec, views, Bytes, Rope, Value, ValueV};

verus! {

broadcast use vstd::std_specs::vec::axiom_vec_index_decreases;

/// A closure: an instruction unit of the program, an entry offset into its
/// code and the environment frame it captured.
#[derive(Clone, Copy, PartialEq, Eq, Structural, Debug)]
pub struct IrClosure {
    pub unit: usize,
    pub entry: usize,
    pub env: usize,
}

/// Where an instruction reads or writes: a scratch-storage slot of the
/// running invocation, or a binding of its environment.
#[derive(Clone, Copy, PartialEq, Eq, Structural, Debug)]
pub enum Addr {
    Storage(usize),
    Environment(DeBruijnPair),
}

/// A compile-time literal, mirroring the runtime values. `Fun` names an
/// instruction unit of the program and an entry offset into it.
pub enum IrLiteral {
    Nil,
    Bool(bool),
    Int(i64),
    Float(u64),
    Char(char),
    String(Vec<char>),
    Bytes(Vec<u8>),
    Array(Vec<IrLiteral>),
    SetOf(Vec<IrLiteral>),
    MapOf(Vec<(IrLiteral, IrLiteral)>),
    Fun(usize, usize),
}

/// One instruction. Every instruction that does not transfer control moves
/// on to the next one.
pub enum Instruction {
    /// Copy the value at `src` to `dst`.
    Write { src: Addr, dst: Addr },
    /// Apply the value at `fun` to the first `num_args` storage slots and
    /// write the result to `dst`. On failure, continue at `catch` with the
    /// thrown value in storage slot 0, or fail with it where there is no
    /// catch target.
    Apply { fun: Addr, num_args: usize, dst: Addr, catch: Option<usize> },
    /// Continue at the given offset.
    Jump(usize),
    /// Continue at the given offset if the value at the address is truthy.
    CondJump(Addr, usize),
    /// Build a value from the literal and write it to the address.
    Literal(IrLiteral, Addr),
    /// Make the next `Return` end the invocation with a failure.
    ThrowFlag,
    /// End the invocation with the value at the address: a success, or a
    /// failure where `ThrowFlag` has run.
    Return(Addr),
    /// End the invocation with the value at the address as a failure.
    Throw(Addr),
}

/// An instruction unit: code shared by the functions of one recursive group,
/// with the sizes that serve all of them.
pub struct IrFunction {
    pub max_args: usize,
    pub storage_size: usize,
    pub frame_size: usize,
    pub code: Vec<Instruction>,
}

/// The instruction units that closures and function literals refer to.
pub struct Program {
    pub units: Vec<IrFunction>,
}

/// Whether a control transfer of `ins` stays within code of length `n`.
pub open spec fn targets_within(ins: Instruction, n: nat) -> bool {
    match ins {
        Instruction::Jump(t) => t < n,
        Instruction::CondJump(_, t) => t < n,
        Instruction::Apply { catch: Some(t), .. } => t < n,
        _ => true,
    }
}

impl IrFunction {
    /// Every jump, conditional jump and catch target lies within the code.
    pub open spec fn targets_in_bounds(self) -> bool {
        forall|i: int| 0 <= i < self.code.len() ==> targets_within(#[trigger] self.code[i], self.code.len() as nat)
    }

    /// Checks, once, that every control transfer of the code stays within it.
    pub fn check_targets(&self) -> (r: bool)
        ensures
            r == self.targets_in_bounds(),
    {
        let n = self.code.len();
        let mut i: usize = 0;
        while i < n
            invariant
                n == self.code@.len(),
                i <= n,
                forall|j: int| 0 <= j < i ==> targets_within(#[trigger] self.code@[j], n as nat),
            decreases n - i,
        {
            let ok = match &self.code[i] {
                Instruction::Jump(t) => *t < n,
                Instruction::CondJump(_, t) => *t < n,
                Instruction::Apply { catch: Some(t), .. } => *t < n,
                _ => true,
            };
            if !ok {
                proof {
                    assert(!targets_within(self.code@[i as int], n as nat));
                }
                return false;
            }
            i = i + 1;
        }
        true
    }
}

impl Program {
    /// Whether every unit's control transfers stay within its code.
    pub open spec fn targets_in_bounds(self) -> bool {
        forall|u: int| 0 <= u < self.units.len() ==> (#[trigger] self.units[u]).targets_in_bounds()
    }

    /// Checks, once when the program is loaded, that every jump, conditional
    /// jump and catch target of every unit lies within that unit's code.
    pub fn validate(&self) -> (r: bool)
        ensures
            r == self.targets_in_bounds(),
    {
        let mut u: usize = 0;
        while u < self.units.len()
            invariant
                u <= self.units@.len(),
                forall|j: int| 0 <= j < u ==> (#[trigger] self.units@[j]).targets_in_bounds(),
            decreases self.units@.len() - u,
        {
            if !self.units[u].check_targets() {
                return false;
            }
            u = u + 1;
        }
        true
    }
}

/// The model of an optional value.
pub open spec fn opt_view(o: Option<Value>) -> Option<ValueV> {
    match o {
        Some(v) => Some(v@),
        None => None,
    }
}

impl Program {
    /// The heap and value that materializing `lit` against frame `env`
    /// yields; `None` where a function literal names no unit, `env` is no
    /// frame, or the slot store would overflow.
    pub open spec fn mat(self, h: HeapV, env: int, lit: IrLiteral) -> (HeapV, Option<ValueV>)
        decreases lit, 0nat,
    {
        match lit {
            IrLiteral::Nil => (h, Some(ValueV::Nil)),
            IrLiteral::Bool(b) => (h, Some(ValueV::Bool(b))),
            IrLiteral::Int(n) => (h, Some(ValueV::Int(n))),
            IrLiteral::Float(f) => (h, Some(ValueV::Float(float_key(f)))),
            IrLiteral::Char(c) => (h, Some(ValueV::Char(c))),
            IrLiteral::String(cs) => (h, Some(ValueV::Str(cs@))),
            IrLiteral::Bytes(bs) => (h, Some(ValueV::Bytes(bs@))),
            IrLiteral::Array(items) => {
                let (h1, o) = self.mat_list(h, env, items, items@.len());
                match o {
                    Some(vs) => (
                        HeapV { arrays: h1.arrays.push(vs), ..h1 },
                        Some(ValueV::Array(h1.arrays.len() as usize)),
                    ),
                    None => (h1, None),
                }
            },
            IrLiteral::SetOf(items) => {
                let (h1, o) = self.mat_list(h, env, items, items@.len());
                match o {
                    Some(vs) => (
                        HeapV { sets: h1.sets.push(set_from(vs)), ..h1 },
                        Some(ValueV::SetRef(h1.sets.len() as usize)),
                    ),
                    None => (h1, None),
                }
            },
            IrLiteral::MapOf(items) => {
                let (h1, o) = self.mat_pairs(h, env, items, items@.len());
                match o {
                    Some(ps) => (
                        HeapV { maps: h1.maps.push(map_from(ps)), ..h1 },
                        Some(ValueV::MapRef(h1.maps.len() as usize)),
                    ),
                    None => (h1, None),
                }
            },
            IrLiteral::Fun(u, e) => {
                if u < self.units.len() && 0 <= env < h.frames.len() && h.slots.len()
                    + self.units[u as int].frame_size <= usize::MAX {
                    (
                        h.child(env, self.units[u as int].frame_size as nat),
                        Some(
                            ValueV::Fun(IrClosure { unit: u, entry: e, env: h.frames.len() as usize }),
                        ),
                    )
                } else {
                    (h, None)
                }
            },
        }
    }

    /// Materializing the first `n` of `items` in order.
    pub open spec fn mat_list(self, h: HeapV, env: int, items: Vec<IrLiteral>, n: nat) -> (
        HeapV,
        Option<Seq<ValueV>>,
    )
        decreases items, n,
    {
        if n == 0 || n > items.len() {
            (h, Some(Seq::empty()))
        } else {
            let (h1, o) = self.mat_list(h, env, items, (n - 1) as nat);
            match o {
                Some(vs) => {
                    let (h2, o2) = self.mat(h1, env, items@[n - 1]);
                    match o2 {
                        Some(v) => (h2, Some(vs.push(v))),
                        None => (h2, None),
                    }
                },
                None => (h1, None),
            }
        }
    }

    /// Materializing the first `n` of the key/value pairs `items` in order,
    /// each key before its value.
    pub open spec fn mat_pairs(self, h: HeapV, env: int, items: Vec<(IrLiteral, IrLiteral)>, n: nat) -> (
        HeapV,
        Option<Seq<(ValueV, ValueV)>>,
    )
        decreases items, n,
    {
        if n == 0 || n > items.len() {
            (h, Some(Seq::empty()))
        } else {
            let (h1, o) = self.mat_pairs(h, env, items, (n - 1) as nat);
            match o {
                Some(ps) => {
                    let (h2, ok) = self.mat(h1, env, items@[n - 1].0);
                    match ok {
                        Some(k) => {
                            let (h3, ov) = self.mat(h2, env, items@[n - 1].1);
                            match ov {
                                Some(v) => (h3, Some(ps.push((k, v)))),
                                None => (h3, None),
                            }
                        },
                        None => (h2, None),
                    }
                },
                None => (h1, None),
            }
        }
    }
}

/// The models of an optional sequence of values.
pub open spec fn opt_views(o: Option<Vec<Value>>) -> Option<Seq<ValueV>> {
    match o {
        Some(v) => Some(views(v@)),
        None => None,
    }
}

/// The models of an optional sequence of pairs.
pub open spec fn opt_pair_views(o: Option<Vec<(Value, Value)>>) -> Option<Seq<(ValueV, ValueV)>> {
    match o {
        Some(v) => Some(pair_views(v@)),
        None => None,
    }
}

impl Program {
    proof fn lemma_mat_list_stuck(self, h: HeapV, env: int, items: Vec<IrLiteral>, i: nat, j: nat)
        requires
            i <= j <= items@.len(),
            self.mat_list(h, env, items, i).1 is None,
        ensures
            self.mat_list(h, env, items, j) == self.mat_list(h, env, items, i),
        decreases j,
    {
        if j > i {
            self.lemma_mat_list_stuck(h, env, items, i, (j - 1) as nat);
        }
    }

    proof fn lemma_mat_pairs_stuck(
        self,
        h: HeapV,
        env: int,
        items: Vec<(IrLiteral, IrLiteral)>,
        i: nat,
        j: nat,
    )
        requires
            i <= j <= items@.len(),
            self.mat_pairs(h, env, items, i).1 is None,
        ensures
            self.mat_pairs(h, env, items, j) == self.mat_pairs(h, env, items, i),
        decreases j,
    {
        if j > i {
            self.lemma_mat_pairs_stuck(h, env, items, i, (j - 1) as nat);
        }
    }

    /// Builds the runtime value that `lit` describes, against frame `env`:
    /// nested literals in order, a fresh child frame of `env` for each
    /// function literal, and one entry per key in sets and maps, the last
    /// one winning.
    pub fn materialize(&self, lit: &IrLiteral, heap: &mut Heap, env: usize) -> (r: Option<Value>)
        requires
            old(heap)@.wf(),
        ensures
            final(heap)@.wf(),
            (final(heap)@, opt_view(r)) == self.mat(old(heap)@, env as int, *lit),
        decreases lit, 0nat,
    {
        match lit {
            IrLiteral::Nil => Some(Value::Nil),
            IrLiteral::Bool(b) => Some(Value::Bool(*b)),
            IrLiteral::Int(n) => Some(Value::Int(*n)),
            IrLiteral::Float(f) => Some(Value::Float(*f)),
            IrLiteral::Char(c) => Some(Value::Char(*c)),
            IrLiteral::String(cs) => Some(Value::String(Rope::from_chars(cs.as_slice()))),
            IrLiteral::Bytes(bs) => Some(Value::Bytes(Bytes::from_slice(bs.as_slice()))),
            IrLiteral::Array(items) => {
                match self.materialize_list(items, heap, env) {
                    Some(vals) => {
                        let id = heap.alloc_array(vals);
                        Some(Value::Array(id))
                    },
                    None => None,
                }
            },
            IrLiteral::SetOf(items) => {
                match self.materialize_list(items, heap, env) {
                    Some(vals) => {
                        let ghost vs = views(vals@);
                        let mut elems: Vec<Value> = Vec::new();
                        let mut i: usize = 0;
                        proof {
                            assert(vs.take(0) =~= Seq::empty());
                            assert(views(elems@) =~= Seq::empty());
                        }
                        while i < vals.len()
                            invariant
                                i <= vals@.len(),
                                vs == views(vals@),
                                views(elems@) == set_from(vs.take(i as int)),
                            decreases vals@.len() - i,
                        {
                            insert_element(&mut elems, vals[i].copy());
                            proof {
                                assert(vs.take(i + 1).drop_last() =~= vs.take(i as int));
                            }
                            i = i + 1;
                        }
                        proof {
                            assert(vs.take(vals@.len() as int) =~= vs);
                            lemma_set_from(vs);
                        }
                        let id = heap.alloc_set(elems);
                        Some(Value::SetRef(id))
                    },
                    None => None,
                }
            },
            IrLiteral::MapOf(items) => {
                match self.materialize_pairs(items, heap, env) {
                    Some(pairs) => {
                        let ghost ps = pair_views(pairs@);
                        let mut entries: Vec<(Value, Value)> = Vec::new();
                        let mut i: usize = 0;
                        proof {
                            assert(ps.take(0) =~= Seq::empty());
                            assert(pair_views(entries@) =~= Seq::empty());
                        }
                        while i < pairs.len()
                            invariant
                                i <= pairs@.len(),
                                ps == pair_views(pairs@),
                                pair_views(entries@) == map_from(ps.take(i as int)),
                            decreases pairs@.len() - i,
                        {
                            let k = pairs[i].0.copy();
                            let v = pairs[i].1.copy();
                            insert_entry(&mut entries, k, v);
                            proof {
                                assert(ps.take(i + 1).drop_last() =~= ps.take(i as int));
                            }
                            i = i + 1;
                        }
                        proof {
                            assert(ps.take(pairs@.len() as int) =~= ps);
                            lemma_map_from(ps);
                        }
                        let id = heap.alloc_map(entries);
                        Some(Value::MapRef(id))
                    },
                    None => None,
                }
            },
            IrLiteral::Fun(u, e) => {
                if *u < self.units.len() && env < heap.frame_count() {
                    let size = self.units[*u].frame_size;
                    if heap.slot_count() <= usize::MAX - size {
                        let id = heap.child(env, size);
                        return Some(Value::Fun(IrClosure { unit: *u, entry: *e, env: id }));
                    }
                }
                None
            },
        }
    }

    fn materialize_list(&self, items: &Vec<IrLiteral>, heap: &mut Heap, env: usize) -> (r: Option<
        Vec<Value>,
    >)
        requires
            old(heap)@.wf(),
        ensures
            final(heap)@.wf(),
            (final(heap)@, opt_views(r)) == self.mat_list(old(heap)@, env as int, *items, items@.len()),
        decreases items, 0nat,
    {
        let ghost h0 = heap@;
        let mut vals: Vec<Value> = Vec::new();
        let mut i: usize = 0;
        proof {
            assert(views(vals@) =~= Seq::empty());
        }
        while i < items.len()
            invariant
                i <= items@.len(),
                h0 == old(heap)@,
                heap@.wf(),
                (heap@, Some(views(vals@))) == self.mat_list(h0, env as int, *items, i as nat),
            decreases items@.len() - i,
        {
            match self.materialize(&items[i], heap, env) {
                Some(v) => {
                    proof {
                        crate::env::lemma_views_push(vals@, v);
                    }
                    vals.push(v);
                },
                None => {
                    proof {
                        assert(self.mat_list(h0, env as int, *items, (i + 1) as nat) == (
                            heap@,
                            None::<Seq<ValueV>>,
                        ));
                        self.lemma_mat_list_stuck(h0, env as int, *items, (i + 1) as nat, items@.len());
                    }
                    return None;
                },
            }
            i = i + 1;
        }
        Some(vals)
    }

    fn materialize_pairs(&self, items: &Vec<(IrLiteral, IrLiteral)>, heap: &mut Heap, env: usize) -> (r:
        Option<Vec<(Value, Value)>>)
        requires
            old(heap)@.wf(),
        ensures
            final(heap)@.wf(),
            (final(heap)@, opt_pair_views(r)) == self.mat_pairs(
                old(heap)@,
                env as int,
                *items,
                items@.len(),
            ),
        decreases items, 0nat,
    {
        let ghost h0 = heap@;
        let mut pairs: Vec<(Value, Value)> = Vec::new();
        let mut i: usize = 0;
        proof {
            assert(pair_views(pairs@) =~= Seq::empty());
        }
        while i < items.len()
            invariant
                i <= items@.len(),
                h0 == old(heap)@,
                heap@.wf(),
                (heap@, Some(pair_views(pairs@))) == self.mat_pairs(h0, env as int, *items, i as nat),
            decreases items@.len() - i,
        {
            let k = match self.materialize(&items[i].0, heap, env) {
                Some(k) => k,
                None => {
                    proof {
                        assert(self.mat_pairs(h0, env as int, *items, (i + 1) as nat) == (
                            heap@,
                            None::<Seq<(ValueV, ValueV)>>,
                        ));
                        self.lemma_mat_pairs_stuck(h0, env as int, *items, (i + 1) as nat, items@.len());
                    }
                    return None;
                },
            };
            let v = match self.materialize(&items[i].1, heap, env) {
                Some(v) => v,
                None => {
                    proof {
                        assert(self.mat_pairs(h0, env as int, *items, (i + 1) as nat) == (
                            heap@,
                            None::<Seq<(ValueV, ValueV)>>,
                        ));
                        self.lemma_mat_pairs_stuck(h0, env as int, *items, (i + 1) as nat, items@.len());
                    }
                    return None;
                },
            };
            proof {
                assert(pair_views(pairs@.push((k, v))) =~= pair_views(pairs@).push((k@, v@)));
            }
            pairs.push((k, v));
            i = i + 1;
        }
        Some(pairs)
    }
}

/// How an invocation ended: with a result, with a thrown value, on an
/// address or offset that the code's compiler got wrong, or with its step
/// budget spent.
pub enum Completion {
    Return(Value),
    Throw(Value),
    Fault,
    OutOfFuel,
}

/// The model of a `Completion`.
pub enum CompletionV {
    Return(ValueV),
    Throw(ValueV),
    Fault,
    OutOfFuel,
}

impl View for Completion {
    type V = CompletionV;

    open spec fn view(&self) -> CompletionV {
        match self {
            Completion::Return(v) => CompletionV::Return(v@),
            Completion::Throw(v) => CompletionV::Throw(v@),
            Completion::Fault => CompletionV::Fault,
            Completion::OutOfFuel => CompletionV::OutOfFuel,
        }
    }
}

/// The value at `a`, for an invocation with scratch storage `st` running in
/// frame `env`.
pub open spec fn read(h: HeapV, env: int, st: Seq<ValueV>, a: Addr) -> Option<ValueV> {
    match a {
        Addr::Storage(i) => if i < st.len() {
            Some(st[i as int])
        } else {
            None
        },
        Addr::Environment(p) => h.get(env, p),
    }
}

/// The heap and scratch storage after writing `v` at `a`.
pub open spec fn written(h: HeapV, env: int, st: Seq<ValueV>, a: Addr, v: ValueV) -> Option<
    (HeapV, Seq<ValueV>),
> {
    match a {
        Addr::Storage(i) => if i < st.len() {
            Some((h, st.update(i as int, v)))
        } else {
            None
        },
        Addr::Environment(p) => if h.slot_of(env, p) is Some {
            Some((h.set(env, p, v), st))
        } else {
            None
        },
    }
}

/// The heap after the first `n` of `args` are written to slots `0..n` of
/// frame `env`.
pub open spec fn bind_args(h: HeapV, env: int, args: Seq<ValueV>, n: nat) -> HeapV
    decreases n,
{
    if n == 0 {
        h
    } else {
        bind_args(h, env, args, (n - 1) as nat).set(
            env,
            DeBruijnPair { up: 0, index: (n - 1) as usize },
            args[n - 1],
        )
    }
}

impl Program {
    /// Running the code of unit `c.unit` against frame `c.env`, the
    /// invocation's own frame, from offset `pc`, with the throw flag `throw`,
    /// scratch storage `st` and `fuel` steps left: the heap, completion and
    /// steps left at the end. Each instruction, a nested invocation's
    /// included, costs one step.
    pub open spec fn run_from(
        self,
        h: HeapV,
        c: IrClosure,
        pc: int,
        throw: bool,
        st: Seq<ValueV>,
        fuel: nat,
    ) -> (HeapV, CompletionV, nat)
        decreases fuel, 0nat,
    {
        if fuel == 0 {
            (h, CompletionV::OutOfFuel, 0)
        } else if c.unit >= self.units.len() || pc < 0 || pc >= self.units[c.unit as int].code.len() {
            (h, CompletionV::Fault, (fuel - 1) as nat)
        } else {
            let f = (fuel - 1) as nat;
            let env = c.env as int;
            match self.units[c.unit as int].code[pc] {
                Instruction::Write { src, dst } => match read(h, env, st, src) {
                    Some(v) => match written(h, env, st, dst, v) {
                        Some((h2, st2)) => self.run_from(h2, c, pc + 1, throw, st2, f),
                        None => (h, CompletionV::Fault, f),
                    },
                    None => (h, CompletionV::Fault, f),
                },
                Instruction::Apply { fun, num_args, dst, catch } => match read(h, env, st, fun) {
                    Some(callee) => if num_args > st.len() {
                        (h, CompletionV::Fault, f)
                    } else {
                        let (h2, r, f2) = self.apply_value(h, callee, st.take(num_args as int), f);
                        let f3 = if f2 <= f {
                            f2
                        } else {
                            f
                        };
                        match r {
                            CompletionV::Return(v) => match written(h2, env, st, dst, v) {
                                Some((h3, st3)) => self.run_from(h3, c, pc + 1, throw, st3, f3),
                                None => (h2, CompletionV::Fault, f3),
                            },
                            CompletionV::Throw(e) => match catch {
                                Some(t) => if st.len() == 0 {
                                    (h2, CompletionV::Fault, f3)
                                } else {
                                    self.run_from(h2, c, t as int, throw, st.update(0, e), f3)
                                },
                                None => (h2, CompletionV::Throw(e), f3),
                            },
                            other => (h2, other, f3),
                        }
                    },
                    None => (h, CompletionV::Fault, f),
                },
                Instruction::Jump(t) => self.run_from(h, c, t as int, throw, st, f),
                Instruction::CondJump(a, t) => match read(h, env, st, a) {
                    Some(v) => if truthy_spec(v) {
                        self.run_from(h, c, t as int, throw, st, f)
                    } else {
                        self.run_from(h, c, pc + 1, throw, st, f)
                    },
                    None => (h, CompletionV::Fault, f),
                },
                Instruction::Literal(lit, dst) => {
                    let (h2, o) = self.mat(h, env, lit);
                    match o {
                        Some(v) => match written(h2, env, st, dst, v) {
                            Some((h3, st3)) => self.run_from(h3, c, pc + 1, throw, st3, f),
                            None => (h2, CompletionV::Fault, f),
                        },
                        None => (h2, CompletionV::Fault, f),
                    }
                },
                Instruction::ThrowFlag => self.run_from(h, c, pc + 1, true, st, f),
                Instruction::Return(a) => match read(h, env, st, a) {
                    Some(v) => if throw {
                        (h, CompletionV::Throw(v), f)
                    } else {
                        (h, CompletionV::Return(v), f)
                    },
                    None => (h, CompletionV::Fault, f),
                },
                Instruction::Throw(a) => match read(h, env, st, a) {
                    Some(v) => (h, CompletionV::Throw(v), f),
                    None => (h, CompletionV::Fault, f),
                },
            }
        }
    }

    /// Applying `callee` to `args`: a closure is invoked; any other value
    /// cannot be called, and the call fails with that value.
    pub open spec fn apply_value(self, h: HeapV, callee: ValueV, args: Seq<ValueV>, fuel: nat) -> (
        HeapV,
        CompletionV,
        nat,
    )
        decreases fuel, 2nat,
    {
        match callee {
            ValueV::Fun(c) => self.invoke(h, c, args, fuel),
            _ => (h, CompletionV::Throw(callee), fuel),
        }
    }

    /// Invoking closure `c` with `args`: the invocation gets a frame of its
    /// own, `frame_size` nothing-filled slots linked where the captured frame
    /// links, and up to `max_args` of the arguments are bound to its first
    /// slots. The scratch storage starts as `storage_size` nothings, and the
    /// code runs from the entry offset against that frame.
    pub open spec fn invoke(self, h: HeapV, c: IrClosure, args: Seq<ValueV>, fuel: nat) -> (
        HeapV,
        CompletionV,
        nat,
    )
        decreases fuel, 1nat,
    {
        if c.unit < self.units.len() && c.env < h.frames.len() {
            let u = self.units[c.unit as int];
            let k = if args.len() < u.max_args {
                args.len()
            } else {
                u.max_args as nat
            };
            if k <= u.frame_size && h.slots.len() + u.frame_size <= usize::MAX {
                let h1 = h.with_frame(h.frames[c.env as int].parent, u.frame_size as nat);
                let f = h.frames.len();
                self.run_from(
                    bind_args(h1, f as int, args, k),
                    IrClosure { unit: c.unit, entry: c.entry, env: f as usize },
                    c.entry as int,
                    false,
                    Seq::new(u.storage_size as nat, |i: int| ValueV::Nil),
                    fuel,
                )
            } else {
                (h, CompletionV::Fault, fuel)
            }
        } else {
            (h, CompletionV::Fault, fuel)
        }
    }
}

impl IrClosure {
    fn load(&self, heap: &Heap, storage: &Vec<Value>, a: Addr) -> (r: Option<Value>)
        requires
            heap@.wf(),
        ensures
            opt_view(r) == read(heap@, self.env as int, views(storage@), a),
    {
        match a {
            Addr::Storage(i) => if i < storage.len() {
                Some(storage[i].copy())
            } else {
                None
            },
            Addr::Environment(p) => heap.get(self.env, p),
        }
    }

    fn store(&self, heap: &mut Heap, storage: &mut Vec<Value>, a: Addr, v: Value) -> (r: bool)
        requires
            old(heap)@.wf(),
        ensures
            final(heap)@.wf(),
            r == (written(old(heap)@, self.env as int, views(old(storage)@), a, v@) is Some),
            !r ==> final(heap)@ == old(heap)@ && final(storage)@ == old(storage)@,
            r ==> (final(heap)@, views(final(storage)@)) == written(
                old(heap)@,
                self.env as int,
                views(old(storage)@),
                a,
                v@,
            ).unwrap(),
    {
        match a {
            Addr::Storage(i) => if i < storage.len() {
                proof {
                    assert(views(storage@.update(i as int, v)) =~= views(storage@).update(
                        i as int,
                        v@,
                    ));
                }
                storage.set(i, v);
                true
            } else {
                false
            },
            Addr::Environment(p) => heap.set(self.env, p, v),
        }
    }

    /// Runs this closure on `args` with a budget of `fuel` steps; returns
    /// how it completed and the steps left. The invocation gets a fresh frame
    /// of its own for its arguments, so nested calls of the same closure do
    /// not disturb each other. The heap changes as the program's writes,
    /// allocations and nested invocations change it.
    pub fn run(&self, prog: &Program, heap: &mut Heap, args: &[Value], fuel: u64) -> (r: (
        Completion,
        u64,
    ))
        requires
            old(heap)@.wf(),
        ensures
            final(heap)@.wf(),
            r.1 <= fuel,
            (final(heap)@, r.0@, r.1 as nat) == prog.invoke(old(heap)@, *self, views(args@), fuel as nat),
        decreases fuel, 1nat,
    {
        let ghost h0 = heap@;
        let ghost sargs = views(args@);
        if self.unit >= prog.units.len() || self.env >= heap.frame_count() {
            return (Completion::Fault, fuel);
        }
        let unit = &prog.units[self.unit];
        let k: usize = if args.len() < unit.max_args {
            args.len()
        } else {
            unit.max_args
        };
        if k > unit.frame_size || heap.slot_count() > usize::MAX - unit.frame_size {
            return (Completion::Fault, fuel);
        }
        let frame = heap.invocation_frame(self.env, unit.frame_size);
        let ghost h1 = heap@;
        let active = IrClosure { unit: self.unit, entry: self.entry, env: frame };
        let mut i: usize = 0;
        while i < k
            invariant
                i <= k,
                k <= args@.len(),
                sargs == views(args@),
                heap@.wf(),
                heap@ == bind_args(h1, frame as int, sargs, i as nat),
            decreases k - i,
        {
            heap.set(frame, DeBruijnPair { up: 0, index: i }, args[i].copy());
            i = i + 1;
        }
        let mut storage: Vec<Value> = Vec::new();
        let mut j: usize = 0;
        while j < unit.storage_size
            invariant
                j <= unit.storage_size,
                views(storage@) == Seq::new(j as nat, |n: int| ValueV::Nil),
            decreases unit.storage_size - j,
        {
            proof {
                crate::env::lemma_views_push(storage@, Value::Nil);
            }
            storage.push(Value::Nil);
            j = j + 1;
            proof {
                assert(views(storage@) =~= Seq::new(j as nat, |n: int| ValueV::Nil));
            }
        }
        let mut pc: usize = self.entry;
        let mut throw = false;
        let mut left: u64 = fuel;
        loop
            invariant
                h0 == old(heap)@,
                sargs == views(args@),
                heap@.wf(),
                self.unit < prog.units@.len(),
                *unit == prog.units@[self.unit as int],
                left <= fuel,
                active == (IrClosure { unit: self.unit, entry: self.entry, env: frame }),
                prog.run_from(heap@, active, pc as int, throw, views(storage@), left as nat)
                    == prog.invoke(h0, *self, sargs, fuel as nat),
            decreases left,
        {
            if left == 0 {
                return (Completion::OutOfFuel, 0);
            }
            left = left - 1;
            if pc >= unit.code.len() {
                return (Completion::Fault, left);
            }
            match &unit.code[pc] {
                Instruction::Write { src, dst } => {
                    let v = match active.load(heap, &storage, *src) {
                        Some(v) => v,
                        None => {
                            return (Completion::Fault, left);
                        },
                    };
                    if !active.store(heap, &mut storage, *dst, v) {
                        return (Completion::Fault, left);
                    }
                    pc = pc + 1;
                },
                Instruction::Apply { fun, num_args, dst, catch } => {
                    let callee = match active.load(heap, &storage, *fun) {
                        Some(v) => v,
                        None => {
                            return (Completion::Fault, left);
                        },
                    };
                    if *num_args > storage.len() {
                        return (Completion::Fault, left);
                    }
                    let mut call_args: Vec<Value> = Vec::new();
                    let mut n: usize = 0;
                    while n < *num_args
                        invariant
                            n <= *num_args <= storage@.len(),
                            views(call_args@) == views(storage@).take(n as int),
                        decreases *num_args - n,
                    {
                        let a = storage[n].copy();
                        proof {
                            crate::env::lemma_views_push(call_args@, a);
                        }
                        call_args.push(a);
                        n = n + 1;
                        proof {
                            assert(views(call_args@) =~= views(storage@).take(n as int));
                        }
                    }
                    let (res, rest) = callee.apply(prog, heap, call_args.as_slice(), left);
                    left = rest;
                    match res {
                        Completion::Return(v) => {
                            if !active.store(heap, &mut storage, *dst, v) {
                                return (Completion::Fault, left);
                            }
                            pc = pc + 1;
                        },
                        Completion::Throw(e) => {
                            match catch {
                                Some(t) => {
                                    if storage.len() == 0 {
                                        return (Completion::Fault, left);
                                    }
                                    proof {
                                        assert(views(storage@.update(0, e)) =~= views(storage@).update(
                                            0,
                                            e@,
                                        ));
                                    }
                                    storage.set(0, e);
                                    pc = *t;
                                },
                                None => {
                                    return (Completion::Throw(e), left);
                                },
                            }
                        },
                        Completion::Fault => {
                            return (Completion::Fault, left);
                        },
                        Completion::OutOfFuel => {
                            return (Completion::OutOfFuel, left);
                        },
                    }
                },
                Instruction::Jump(t) => {
                    pc = *t;
                },
                Instruction::CondJump(a, t) => {
                    let v = match active.load(heap, &storage, *a) {
                        Some(v) => v,
                        None => {
                            return (Completion::Fault, left);
                        },
                    };
                    if v.truthy() {
                        pc = *t;
                    } else {
                        pc = pc + 1;
                    }
                },
                Instruction::Literal(lit, dst) => {
                    let v = match prog.materialize(lit, heap, frame) {
                        Some(v) => v,
                        None => {
                            return (Completion::Fault, left);
                        },
                    };
                    if !active.store(heap, &mut storage, *dst, v) {
                        return (Completion::Fault, left);
                    }
                    pc = pc + 1;
                },
                Instruction::ThrowFlag => {
                    throw = true;
                    pc = pc + 1;
                },
                Instruction::Return(a) => {
                    let v = match active.load(heap, &storage, *a) {
                        Some(v) => v,
                        None => {
                            return (Completion::Fault, left);
                        },
                    };
                    if throw {
                        return (Completion::Throw(v), left);
                    } else {
                        return (Completion::Return(v), left);
                    }
                },
                Instruction::Throw(a) => {
                    let v = match active.load(heap, &storage, *a) {
                        Some(v) => v,
                        None => {
                            return (Completion::Fault, left);
                        },
                    };
                    return (Completion::Throw(v), left);
                },
            }
        }
    }
}

impl Value {
    /// Applies this value to `args` with a budget of `fuel` steps: a closure
    /// runs; any other value cannot be called and the call fails with it.
    pub fn apply(&self, prog: &Program, heap: &mut Heap, args: &[Value], fuel: u64) -> (r: (
        Completion,
        u64,
    ))
        requires
            old(heap)@.wf(),
        ensures
            final(heap)@.wf(),
            r.1 <= fuel,
            (final(heap)@, r.0@, r.1 as nat) == prog.apply_value(
                old(heap)@,
                self@,
                views(args@),
                fuel as nat,
            ),
        decreases fuel, 2nat,
    {
        match self {
            Value::Fun(c) => c.run(prog, heap, args, fuel),
            _ => (Completion::Throw(self.copy()), fuel),
        }
    }
}

impl Program {
    /// An invocation never ends with more steps left than it was given.
    pub proof fn lemma_run_fuel(
        self,
        h: HeapV,
        c: IrClosure,
        pc: int,
        throw: bool,
        st: Seq<ValueV>,
        fuel: nat,
    )
        ensures
            self.run_from(h, c, pc, throw, st, fuel).2 <= fuel,
        decreases fuel, 0nat,
    {
        if fuel > 0 && c.unit < self.units.len() && 0 <= pc < self.units[c.unit as int].code.len() {
            let f = (fuel - 1) as nat;
            let env = c.env as int;
            match self.units[c.unit as int].code[pc] {
                Instruction::Write { src, dst } => {
                    if let Some(v) = read(h, env, st, src) {
                        if let Some((h2, st2)) = written(h, env, st, dst, v) {
                            self.lemma_run_fuel(h2, c, pc + 1, throw, st2, f);
                        }
                    }
                },
                Instruction::Apply { fun, num_args, dst, catch } => {
                    if let Some(callee) = read(h, env, st, fun) {
                        if num_args <= st.len() {
                            let (h2, r, f2) = self.apply_value(h, callee, st.take(num_args as int), f);
                            let f3 = if f2 <= f {
                                f2
                            } else {
                                f
                            };
                            match r {
                                CompletionV::Return(v) => {
                                    if let Some((h3, st3)) = written(h2, env, st, dst, v) {
                                        self.lemma_run_fuel(h3, c, pc + 1, throw, st3, f3);
                                    }
                                },
                                CompletionV::Throw(e) => {
                                    if let Some(t) = catch {
                                        if st.len() > 0 {
                                            self.lemma_run_fuel(h2, c, t as int, throw, st.update(0, e), f3);
                                        }
                                    }
                                },
                                _ => {},
                            }
                        }
                    }
                },
                Instruction::Jump(t) => {
                    self.lemma_run_fuel(h, c, t as int, throw, st, f);
                },
                Instruction::CondJump(a, t) => {
                    self.lemma_run_fuel(h, c, t as int, throw, st, f);
                    self.lemma_run_fuel(h, c, pc + 1, throw, st, f);
                },
                Instruction::Literal(lit, dst) => {
                    let (h2, o) = self.mat(h, env, lit);
                    if let Some(v) = o {
                        if let Some((h3, st3)) = written(h2, env, st, dst, v) {
                            self.lemma_run_fuel(h3, c, pc + 1, throw, st3, f);
                        }
                    }
                },
                Instruction::ThrowFlag => {
                    self.lemma_run_fuel(h, c, pc + 1, true, st, f);
                },
                _ => {},
            }
        }
    }

    /// Applying a value never ends with more steps left than it was given.
    pub proof fn lemma_apply_fuel(self, h: HeapV, callee: ValueV, args: Seq<ValueV>, fuel: nat)
        ensures
            self.apply_value(h, callee, args, fuel).2 <= fuel,
        decreases fuel, 2nat,
    {
        if let ValueV::Fun(c) = callee {
            if c.unit < self.units.len() && c.env < h.frames.len() {
                let u = self.units[c.unit as int];
                let k = if args.len() < u.max_args {
                    args.len()
                } else {
                    u.max_args as nat
                };
                let f = h.frames.len();
                self.lemma_run_fuel(
                    bind_args(
                        h.with_frame(h.frames[c.env as int].parent, u.frame_size as nat),
                        f as int,
                        args,
                        k,
                    ),
                    IrClosure { unit: c.unit, entry: c.entry, env: f as usize },
                    c.entry as int,
                    false,
                    Seq::new(u.storage_size as nat, |i: int| ValueV::Nil),
                    fuel,
                );
            }
        }
    }

    /// A failed call with no catch target ends the invocation with that
    /// failure, in the heap that the call left: no further instruction runs.
    pub proof fn lemma_uncaught_failure(
        self,
        h: HeapV,
        c: IrClosure,
        pc: int,
        throw: bool,
        st: Seq<ValueV>,
        fuel: nat,
        fun: Addr,
        num_args: usize,
        dst: Addr,
        callee: ValueV,
        e: ValueV,
    )
        requires
            fuel > 0,
            c.unit < self.units.len(),
            0 <= pc < self.units[c.unit as int].code.len(),
            self.units[c.unit as int].code[pc] == (Instruction::Apply { fun, num_args, dst, catch: None }),
            read(h, c.env as int, st, fun) == Some(callee),
            num_args <= st.len(),
            self.apply_value(h, callee, st.take(num_args as int), (fuel - 1) as nat).1
                == CompletionV::Throw(e),
        ensures
            self.run_from(h, c, pc, throw, st, fuel).0 == self.apply_value(
                h,
                callee,
                st.take(num_args as int),
                (fuel - 1) as nat,
            ).0,
            self.run_from(h, c, pc, throw, st, fuel).1 == CompletionV::Throw(e),
    {
    }

    /// A failed call with a catch target resumes there, with the thrown value
    /// in storage slot 0, in the same invocation.
    pub proof fn lemma_caught_failure(
        self,
        h: HeapV,
        c: IrClosure,
        pc: int,
        throw: bool,
        st: Seq<ValueV>,
        fuel: nat,
        fun: Addr,
        num_args: usize,
        dst: Addr,
        target: usize,
        callee: ValueV,
        e: ValueV,
    )
        requires
            fuel > 0,
            c.unit < self.units.len(),
            0 <= pc < self.units[c.unit as int].code.len(),
            self.units[c.unit as int].code[pc] == (Instruction::Apply {
                fun,
                num_args,
                dst,
                catch: Some(target),
            }),
            read(h, c.env as int, st, fun) == Some(callee),
            num_args <= st.len(),
            st.len() > 0,
            self.apply_value(h, callee, st.take(num_args as int), (fuel - 1) as nat).1
                == CompletionV::Throw(e),
        ensures
            ({
                let (h2, r, f2) = self.apply_value(h, callee, st.take(num_args as int), (fuel - 1) as nat);
                self.run_from(h, c, pc, throw, st, fuel) == self.run_from(
                    h2,
                    c,
                    target as int,
                    throw,
                    st.update(0, e),
                    f2,
                )
            }),
    {
        self.lemma_apply_fuel(h, callee, st.take(num_args as int), (fuel - 1) as nat);
    }

    /// A caught failure that reaches `Return` of storage slot 0 without the
    /// throw flag set ends the invocation with a success equal to the thrown
    /// value.
    pub proof fn lemma_caught_failure_returned(
        self,
        h: HeapV,
        c: IrClosure,
        pc: int,
        st: Seq<ValueV>,
        fuel: nat,
        fun: Addr,
        num_args: usize,
        dst: Addr,
        target: usize,
        callee: ValueV,
        e: ValueV,
    )
        requires
            fuel > 0,
            c.unit < self.units.len(),
            0 <= pc < self.units[c.unit as int].code.len(),
            self.units[c.unit as int].code[pc] == (Instruction::Apply {
                fun,
                num_args,
                dst,
                catch: Some(target),
            }),
            target < self.units[c.unit as int].code.len(),
            self.units[c.unit as int].code[target as int] == Instruction::Return(Addr::Storage(0)),
            read(h, c.env as int, st, fun) == Some(callee),
            num_args <= st.len(),
            st.len() > 0,
            self.apply_value(h, callee, st.take(num_args as int), (fuel - 1) as nat).1
                == CompletionV::Throw(e),
            self.apply_value(h, callee, st.take(num_args as int), (fuel - 1) as nat).2 > 0,
        ensures
            self.run_from(h, c, pc, false, st, fuel).1 == CompletionV::Return(e),
    {
        self.lemma_caught_failure(h, c, pc, false, st, fuel, fun, num_args, dst, target, callee, e);
        let (h2, r, f2) = self.apply_value(h, callee, st.take(num_args as int), (fuel - 1) as nat);
        assert(st.update(0, e)[0] == e);
        assert(read(h2, c.env as int, st.update(0, e), Addr::Storage(0)) == Some(e));
    }

    /// `Throw` ends the invocation with the addressed value as a failure,
    /// whatever the throw flag.
    pub proof fn lemma_throw(self, h: HeapV, c: IrClosure, pc: int, throw: bool, st: Seq<ValueV>, fuel: nat, a: Addr, v: ValueV)
        requires
            fuel > 0,
            c.unit < self.units.len(),
            0 <= pc < self.units[c.unit as int].code.len(),
            self.units[c.unit as int].code[pc] == Instruction::Throw(a),
            read(h, c.env as int, st, a) == Some(v),
        ensures
            self.run_from(h, c, pc, throw, st, fuel) == (h, CompletionV::Throw(v), (fuel - 1) as nat),
    {
    }

    /// A tail call is a jump within the same invocation: it costs one step,
    /// makes no nested invocation, and keeps the heap and scratch storage.
    pub proof fn lemma_tail_jump(self, h: HeapV, c: IrClosure, pc: int, throw: bool, st: Seq<ValueV>, fuel: nat, t: usize)
        requires
            fuel > 0,
            c.unit < self.units.len(),
            0 <= pc < self.units[c.unit as int].code.len(),
            self.units[c.unit as int].code[pc] == Instruction::Jump(t),
        ensures
            self.run_from(h, c, pc, throw, st, fuel) == self.run_from(h, c, t as int, throw, st, (fuel - 1) as nat),
    {
    }

    /// A map literal that materializes (every literal without function
    /// literals does) stores a map with one entry per key of its pairs, each
    /// entry the last pair with that key; a set literal stores each of its
    /// elements exactly once.
    pub proof fn lemma_keyed_literals(self, h: HeapV, env: int, lit: IrLiteral)
        requires
            fun_free(lit) || self.mat(h, env, lit).1 is Some,
        ensures
            self.mat(h, env, lit).1 is Some,
            lit matches IrLiteral::MapOf(items) ==> {
                let ps = self.mat_pairs(h, env, items, items@.len()).1.unwrap();
                let m = self.mat(h, env, lit).0.maps.last();
                &&& keys_unique(m)
                &&& keys_kept(ps, m)
                &&& last_wins(ps, m)
            },
            lit matches IrLiteral::SetOf(items) ==> {
                let vs = self.mat_list(h, env, items, items@.len()).1.unwrap();
                let s = self.mat(h, env, lit).0.sets.last();
                &&& forall|i: int, j: int| 0 <= i < j < s.len() ==> s[i] != s[j]
                &&& forall|x: ValueV| s.contains(x) <==> vs.contains(x)
            },
    {
        if fun_free(lit) {
            self.lemma_fun_free_materializes(h, env, lit);
        }
        match lit {
            IrLiteral::MapOf(items) => {
                lemma_map_from(self.mat_pairs(h, env, items, items@.len()).1.unwrap());
            },
            IrLiteral::SetOf(items) => {
                lemma_set_from(self.mat_list(h, env, items, items@.len()).1.unwrap());
            },
            _ => {},
        }
    }
}

/// Binding arguments changes only slots, never the frames or the number of
/// slots.
pub proof fn lemma_bind_args_shape(h: HeapV, f: int, args: Seq<ValueV>, n: nat)
    requires
        0 <= f < h.frames.len(),
        h.frames[f].base + h.frames[f].size <= h.slots.len(),
        n <= h.frames[f].size,
    ensures
        bind_args(h, f, args, n).frames == h.frames,
        bind_args(h, f, args, n).slots.len() == h.slots.len(),
    decreases n,
{
    if n > 0 {
        lemma_bind_args_shape(h, f, args, (n - 1) as nat);
        let prev = bind_args(h, f, args, (n - 1) as nat);
        assert(prev.slot_of(f, DeBruijnPair { up: 0, index: (n - 1) as usize }) == Some(
            h.frames[f].base + n - 1,
        ));
    }
}

/// Only the first `n` arguments matter to binding `n` of them.
pub proof fn lemma_bind_args_prefix(h: HeapV, f: int, args: Seq<ValueV>, n: nat)
    requires
        n <= args.len(),
    ensures
        bind_args(h, f, args, n) == bind_args(h, f, args.take(n as int), n),
    decreases n,
{
    if n > 0 {
        lemma_bind_args_prefix(h, f, args, (n - 1) as nat);
        lemma_bind_args_prefix(h, f, args.take(n as int), (n - 1) as nat);
        assert(args.take(n as int).take((n - 1) as int) =~= args.take((n - 1) as int));
    }
}

/// After binding `n` arguments into frame `f`, slot `j < n` of `f` holds
/// argument `j`.
pub proof fn lemma_bind_args_get(h: HeapV, f: int, args: Seq<ValueV>, n: nat, j: int)
    requires
        0 <= f < h.frames.len(),
        h.frames[f].base + h.frames[f].size <= h.slots.len(),
        n <= h.frames[f].size,
        n <= args.len(),
        0 <= j < n,
    ensures
        bind_args(h, f, args, n).get(f, DeBruijnPair { up: 0, index: j as usize }) == Some(args[j]),
    decreases n,
{
    let a = DeBruijnPair { up: 0, index: j as usize };
    let prev = bind_args(h, f, args, (n - 1) as nat);
    lemma_bind_args_shape(h, f, args, (n - 1) as nat);
    assert(prev.slot_of(f, a) == Some(h.frames[f].base + j));
    assert(prev.slot_of(f, DeBruijnPair { up: 0, index: (n - 1) as usize }) == Some(
        h.frames[f].base + n - 1,
    ));
    if j < n - 1 {
        lemma_bind_args_get(h, f, args, (n - 1) as nat, j);
    }
}

impl Program {
    /// Arguments beyond a unit's `max_args` are ignored: invoking with them
    /// is invoking with the first `max_args` alone.
    pub proof fn lemma_extra_args_ignored(self, h: HeapV, c: IrClosure, args: Seq<ValueV>, fuel: nat)
        requires
            c.unit < self.units.len(),
            args.len() >= self.units[c.unit as int].max_args,
        ensures
            self.invoke(h, c, args, fuel) == self.invoke(
                h,
                c,
                args.take(self.units[c.unit as int].max_args as int),
                fuel,
            ),
    {
        let u = self.units[c.unit as int];
        let k = u.max_args as nat;
        let short = args.take(k as int);
        assert(short.take(k as int) =~= short);
        if c.env < h.frames.len() {
            let h1 = h.with_frame(h.frames[c.env as int].parent, u.frame_size as nat);
            let f = h.frames.len() as int;
            lemma_bind_args_prefix(h1, f, args, k);
            lemma_bind_args_prefix(h1, f, short, k);
            assert(bind_args(h1, f, args, k) == bind_args(h1, f, short, k));
        }
    }

    /// A closure whose code starts by throwing its first binding fails, on
    /// every call with at least one argument, with that argument.
    pub proof fn lemma_throwing_body(self, h: HeapV, c: IrClosure, args: Seq<ValueV>, fuel: nat)
        requires
            h.wf(),
            c.unit < self.units.len(),
            c.env < h.frames.len(),
            c.entry < self.units[c.unit as int].code.len(),
            self.units[c.unit as int].code[c.entry as int] == Instruction::Throw(
                Addr::Environment(DeBruijnPair { up: 0, index: 0 }),
            ),
            1 <= self.units[c.unit as int].max_args <= self.units[c.unit as int].frame_size,
            args.len() >= 1,
            h.slots.len() + self.units[c.unit as int].frame_size <= usize::MAX,
            fuel > 0,
        ensures
            self.invoke(h, c, args, fuel).1 == CompletionV::Throw(args[0]),
    {
        let u = self.units[c.unit as int];
        let k = if args.len() < u.max_args {
            args.len()
        } else {
            u.max_args as nat
        };
        let h1 = h.with_frame(h.frames[c.env as int].parent, u.frame_size as nat);
        let f = h.frames.len() as int;
        lemma_bind_args_get(h1, f, args, k, 0);
        lemma_bind_args_shape(h1, f, args, k);
    }
}

/// Whether `lit` holds no function literal, at any depth.
pub open spec fn fun_free(lit: IrLiteral) -> bool
    decreases lit, 0nat,
{
    match lit {
        IrLiteral::Array(items) => fun_free_list(items, items@.len()),
        IrLiteral::SetOf(items) => fun_free_list(items, items@.len()),
        IrLiteral::MapOf(items) => fun_free_pairs(items, items@.len()),
        IrLiteral::Fun(_, _) => false,
        _ => true,
    }
}

/// Whether the first `n` of `items` hold no function literal.
pub open spec fn fun_free_list(items: Vec<IrLiteral>, n: nat) -> bool
    decreases items, n,
{
    if n == 0 || n > items.len() {
        true
    } else {
        fun_free_list(items, (n - 1) as nat) && fun_free(items@[n - 1])
    }
}

/// Whether the first `n` of the pairs `items` hold no function literal.
pub open spec fn fun_free_pairs(items: Vec<(IrLiteral, IrLiteral)>, n: nat) -> bool
    decreases items, n,
{
    if n == 0 || n > items.len() {
        true
    } else {
        fun_free_pairs(items, (n - 1) as nat) && fun_free(items@[n - 1].0) && fun_free(
            items@[n - 1].1,
        )
    }
}

impl Program {
    /// A literal that holds no function literal always materializes.
    pub proof fn lemma_fun_free_materializes(self, h: HeapV, env: int, lit: IrLiteral)
        requires
            fun_free(lit),
        ensures
            self.mat(h, env, lit).1 is Some,
        decreases lit, 0nat,
    {
        match lit {
            IrLiteral::Array(items) => {
                self.lemma_fun_free_list(h, env, items, items@.len());
            },
            IrLiteral::SetOf(items) => {
                self.lemma_fun_free_list(h, env, items, items@.len());
            },
            IrLiteral::MapOf(items) => {
                self.lemma_fun_free_pairs(h, env, items, items@.len());
            },
            _ => {},
        }
    }

    proof fn lemma_fun_free_list(self, h: HeapV, env: int, items: Vec<IrLiteral>, n: nat)
        requires
            fun_free_list(items, n),
        ensures
            self.mat_list(h, env, items, n).1 is Some,
        decreases items, n,
    {
        if n > 0 && n <= items.len() {
            self.lemma_fun_free_list(h, env, items, (n - 1) as nat);
            let h1 = self.mat_list(h, env, items, (n - 1) as nat).0;
            self.lemma_fun_free_materializes(h1, env, items@[n - 1]);
        }
    }

    proof fn lemma_fun_free_pairs(self, h: HeapV, env: int, items: Vec<(IrLiteral, IrLiteral)>, n: nat)
        requires
            fun_free_pairs(items, n),
        ensures
            self.mat_pairs(h, env, items, n).1 is Some,
        decreases items, n,
    {
        if n > 0 && n <= items.len() {
            self.lemma_fun_free_pairs(h, env, items, (n - 1) as nat);
            let h1 = self.mat_pairs(h, env, items, (n - 1) as nat).0;
            self.lemma_fun_free_materializes(h1, env, items@[n - 1].0);
            let h2 = self.mat(h1, env, items@[n - 1].0).0;
            self.lemma_fun_free_materializes(h2, env, items@[n - 1].1);
        }
    }
}

} // verus!

use vstd::prelude::*;

use crate::parser::{ByteCode, ParseProto, ProtoV, code_wf, codes_wf, slen, spec_compile, write_slot};
use crate::value::{NativeFn, SpecValue, Value, ValueG, bytes_eq};
use crate::{LuaError, RuntimeFault};

verus! {

/// The model of one interpreter state: the global name table, the operand
/// stack, and the values printed so far.
#[verifier::ext_equal]
pub ghost struct VmV {
    pub globals: Map<Seq<u8>, SpecValue>,
    pub stack: Seq<SpecValue>,
    pub output: Seq<SpecValue>,
}

/// The name of the one built-in, `print`.
pub open spec fn print_name() -> Seq<u8> {
    seq![112u8, 114u8, 105u8, 110u8, 116u8]
}

/// A fresh interpreter state: the global table holds only the print
/// primitive; the stack and the output are empty.
pub open spec fn initial_vm() -> VmV {
    VmV {
        globals: Map::empty().insert(print_name(), ValueG::NativeFunction(NativeFn::Print)),
        stack: Seq::empty(),
        output: Seq::empty(),
    }
}

/// A stack write: an existing slot is overwritten, the next free slot is
/// pushed, and any slot beyond that is a gap — a fatal fault that compiled
/// programs never produce.
pub open spec fn spec_set_stack(st: Seq<SpecValue>, dst: int, v: SpecValue) -> Result<
    Seq<SpecValue>,
    LuaError,
> {
    if dst < st.len() {
        Ok(st.update(dst, v))
    } else if dst == st.len() {
        Ok(st.push(v))
    } else {
        Err(LuaError::Runtime(RuntimeFault::StackGap))
    }
}

/// One instruction's effect on the interpreter state. Every fault leaves
/// the state as it was.
pub open spec fn spec_step(m: VmV, c: ByteCode, consts: Seq<SpecValue>) -> Result<VmV, LuaError> {
    match c {
        ByteCode::Call(f, _a) => {
            if f as int >= m.stack.len() {
                Err(LuaError::Runtime(RuntimeFault::StackOutOfRange))
            } else {
                match m.stack[f as int] {
                    ValueG::NativeFunction(nf) => match nf {
                        NativeFn::Print => {
                            if f as int + 1 >= m.stack.len() {
                                Err(LuaError::Runtime(RuntimeFault::StackOutOfRange))
                            } else {
                                Ok(VmV { output: m.output.push(m.stack[f as int + 1]), ..m })
                            }
                        },
                    },
                    _ => Err(LuaError::Runtime(RuntimeFault::InvalidFunction)),
                }
            }
        },
        ByteCode::GetGlobal(dst, k) => {
            if k as int >= consts.len() {
                Err(LuaError::Runtime(RuntimeFault::ConstantOutOfRange))
            } else {
                match consts[k as int] {
                    ValueG::Str(key) => {
                        let v = if m.globals.contains_key(key) {
                            m.globals[key]
                        } else {
                            ValueG::Nil
                        };
                        match spec_set_stack(m.stack, dst as int, v) {
                            Ok(st) => Ok(VmV { stack: st, ..m }),
                            Err(e) => Err(e),
                        }
                    },
                    _ => Err(LuaError::Runtime(RuntimeFault::InvalidGlobalKey)),
                }
            }
        },
        ByteCode::LoadConst(dst, ci) => {
            if ci as int >= consts.len() {
                Err(LuaError::Runtime(RuntimeFault::ConstantOutOfRange))
            } else {
                match spec_set_stack(m.stack, dst as int, consts[ci as int]) {
                    Ok(st) => Ok(VmV { stack: st, ..m }),
                    Err(e) => Err(e),
                }
            }
        },
        ByteCode::LoadNil(dst) => {
            match spec_set_stack(m.stack, dst as int, ValueG::Nil) {
                Ok(st) => Ok(VmV { stack: st, ..m }),
                Err(e) => Err(e),
            }
        },
        ByteCode::LoadBool(dst, b) => {
            match spec_set_stack(m.stack, dst as int, ValueG::Boolean(b)) {
                Ok(st) => Ok(VmV { stack: st, ..m }),
                Err(e) => Err(e),
            }
        },
        ByteCode::LoadInt(dst, i) => {
            match spec_set_stack(m.stack, dst as int, ValueG::Integer(i as i64)) {
                Ok(st) => Ok(VmV { stack: st, ..m }),
                Err(e) => Err(e),
            }
        },
        ByteCode::Move(dst, src) => {
            if src as int >= m.stack.len() {
                Err(LuaError::Runtime(RuntimeFault::StackOutOfRange))
            } else {
                match spec_set_stack(m.stack, dst as int, m.stack[src as int]) {
                    Ok(st) => Ok(VmV { stack: st, ..m }),
                    Err(e) => Err(e),
                }
            }
        },
        ByteCode::SetGlobal(nk, src) => {
            if nk as int >= consts.len() {
                Err(LuaError::Runtime(RuntimeFault::ConstantOutOfRange))
            } else {
                match consts[nk as int] {
                    ValueG::Str(key) => {
                        if src as int >= m.stack.len() {
                            Err(LuaError::Runtime(RuntimeFault::StackOutOfRange))
                        } else {
                            Ok(VmV { globals: m.globals.insert(key, m.stack[src as int]), ..m })
                        }
                    },
                    _ => Err(LuaError::Runtime(RuntimeFault::InvalidGlobalKey)),
                }
            }
        },
        ByteCode::SetGlobalConst(nk, vk) => {
            if nk as int >= consts.len() {
                Err(LuaError::Runtime(RuntimeFault::ConstantOutOfRange))
            } else {
                match consts[nk as int] {
                    ValueG::Str(key) => {
                        if vk as int >= consts.len() {
                            Err(LuaError::Runtime(RuntimeFault::ConstantOutOfRange))
                        } else {
                            Ok(VmV { globals: m.globals.insert(key, consts[vk as int]), ..m })
                        }
                    },
                    _ => Err(LuaError::Runtime(RuntimeFault::InvalidGlobalKey)),
                }
            }
        },
        ByteCode::SetGlobalGlobal(nk, ok) => {
            if nk as int >= consts.len() {
                Err(LuaError::Runtime(RuntimeFault::ConstantOutOfRange))
            } else {
                match consts[nk as int] {
                    ValueG::Str(key) => {
                        if ok as int >= consts.len() {
                            Err(LuaError::Runtime(RuntimeFault::ConstantOutOfRange))
                        } else {
                            match consts[ok as int] {
                                ValueG::Str(key2) => {
                                    let v = if m.globals.contains_key(key2) {
                                        m.globals[key2]
                                    } else {
                                        ValueG::Nil
                                    };
                                    Ok(VmV { globals: m.globals.insert(key, v), ..m })
                                },
                                _ => Err(LuaError::Runtime(RuntimeFault::InvalidGlobalKey)),
                            }
                        }
                    },
                    _ => Err(LuaError::Runtime(RuntimeFault::InvalidGlobalKey)),
                }
            }
        },
    }
}

/// Running the instruction sequence from position `i` on: the state it
/// reaches, and the fault that stopped it, if one did. Control flow is
/// strictly linear — no branch instructions exist.
pub open spec fn spec_exec(codes: Seq<ByteCode>, consts: Seq<SpecValue>, m: VmV, i: int) -> (
    VmV,
    Option<LuaError>,
)
    decreases codes.len() - i,
{
    if 0 <= i < codes.len() {
        match spec_step(m, codes[i], consts) {
            Err(e) => (m, Some(e)),
            Ok(m2) => spec_exec(codes, consts, m2, i + 1),
        }
    } else {
        (m, None)
    }
}

/// The global table that an association list denotes.
pub open spec fn globals_map(s: Seq<(Vec<u8>, Value)>) -> Map<Seq<u8>, SpecValue>
    decreases s.len(),
{
    if s.len() == 0 {
        Map::empty()
    } else {
        globals_map(s.drop_last()).insert(s.last().0@, s.last().1@)
    }
}

/// No two entries of the association list share a key.
pub open spec fn uniq_keys(s: Seq<(Vec<u8>, Value)>) -> bool {
    forall|i: int, j: int| 0 <= i < j < s.len() ==> s[i].0@ != s[j].0@
}

/// Each entry of a duplicate-free association list is in its table.
pub proof fn lemma_globals_map_index(s: Seq<(Vec<u8>, Value)>, i: int)
    requires
        uniq_keys(s),
        0 <= i < s.len(),
    ensures
        globals_map(s).contains_key(s[i].0@),
        globals_map(s)[s[i].0@] == s[i].1@,
    decreases s.len(),
{
    if i < s.len() - 1 {
        assert(uniq_keys(s.drop_last()));
        assert(s.drop_last()[i] == s[i]);
        lemma_globals_map_index(s.drop_last(), i);
        assert(s[i].0@ != s.last().0@);
    }
}

/// A key matching no entry is not in the table.
pub proof fn lemma_globals_map_absent(s: Seq<(Vec<u8>, Value)>, k: Seq<u8>)
    requires
        forall|i: int| 0 <= i < s.len() ==> s[i].0@ != k,
    ensures
        !globals_map(s).contains_key(k),
    decreases s.len(),
{
    if s.len() > 0 {
        lemma_globals_map_absent(s.drop_last(), k);
    }
}

/// Appending an entry inserts its binding.
pub proof fn lemma_globals_map_push(s: Seq<(Vec<u8>, Value)>, kv: (Vec<u8>, Value))
    ensures
        globals_map(s.push(kv)) == globals_map(s).insert(kv.0@, kv.1@),
{
    assert(s.push(kv).drop_last() =~= s);
    assert(s.push(kv).last() == kv);
}

/// Overwriting the entry that holds a key re-binds that key.
pub proof fn lemma_globals_map_update(s: Seq<(Vec<u8>, Value)>, i: int, kv: (Vec<u8>, Value))
    requires
        uniq_keys(s),
        0 <= i < s.len(),
        s[i].0@ == kv.0@,
    ensures
        globals_map(s.update(i, kv)) == globals_map(s).insert(kv.0@, kv.1@),
    decreases s.len(),
{
    let s2 = s.update(i, kv);
    if i == s.len() - 1 {
        assert(s2.drop_last() =~= s.drop_last());
        assert(s2.last() == kv);
        assert(globals_map(s2) == globals_map(s.drop_last()).insert(kv.0@, kv.1@));
        assert(globals_map(s).insert(kv.0@, kv.1@) =~= globals_map(s.drop_last()).insert(
            kv.0@,
            kv.1@,
        ));
    } else {
        assert(uniq_keys(s.drop_last()));
        assert(s.drop_last()[i] == s[i]);
        lemma_globals_map_update(s.drop_last(), i, kv);
        assert(s2.drop_last() =~= s.drop_last().update(i, kv));
        assert(s2.last() == s.last());
        assert(s[i].0@ != s.last().0@);
        assert(globals_map(s2) == globals_map(s.drop_last()).insert(kv.0@, kv.1@).insert(
            s.last().0@,
            s.last().1@,
        ));
        assert(globals_map(s).insert(kv.0@, kv.1@) =~= globals_map(s.drop_last()).insert(
            kv.0@,
            kv.1@,
        ).insert(s.last().0@, s.last().1@));
    }
}

/// One interpreter instance: the operand stack (register file), the global
/// name table, the call slot of the native function being invoked, and the
/// values the print primitive has written, in order. The caller renders
/// `output` after the run; nothing else is observable.
pub struct ExeState {
    globals: Vec<(Vec<u8>, Value)>,
    stack: Vec<Value>,
    func_index: usize,
    pub output: Vec<Value>,
}

impl View for ExeState {
    type V = VmV;

    closed spec fn view(&self) -> VmV {
        VmV {
            globals: globals_map(self.globals@),
            stack: self.stack@.map_values(|v: Value| v@),
            output: self.output@.map_values(|v: Value| v@),
        }
    }
}

impl ExeState {
    /// The global table never binds one name twice.
    pub closed spec fn wf(self) -> bool {
        uniq_keys(self.globals@)
    }

    /// A fresh interpreter: the global table holds only the print
    /// primitive; the stack and the output are empty.
    pub fn new() -> (r: ExeState)
        ensures
            r.wf(),
            r@ == initial_vm(),
    {
        let mut key: Vec<u8> = Vec::new();
        key.push(112);
        key.push(114);
        key.push(105);
        key.push(110);
        key.push(116);
        proof {
            assert(key@ =~= print_name());
        }
        let mut globals: Vec<(Vec<u8>, Value)> = Vec::new();
        globals.push((key, ValueG::NativeFunction(NativeFn::Print)));
        let r = ExeState { globals, stack: Vec::new(), func_index: 0, output: Vec::new() };
        proof {
            let s = r.globals@;
            assert(s.drop_last() =~= Seq::<(Vec<u8>, Value)>::empty());
            assert(globals_map(s.drop_last()) =~= Map::<Seq<u8>, SpecValue>::empty());
            assert(s.last().0@ == print_name());
            assert(s.last().1@ == ValueG::NativeFunction::<Seq<u8>>(NativeFn::Print));
            assert(r@.globals =~= initial_vm().globals);
            assert(r@.stack =~= initial_vm().stack);
            assert(r@.output =~= initial_vm().output);
            assert(r@ =~= initial_vm());
        }
        r
    }

    /// The position of the entry holding `key`, if the table binds it.
    fn lookup(&self, key: &Vec<u8>) -> (r: Option<usize>)
        requires
            self.wf(),
        ensures
            match r {
                Some(i) => {
                    &&& i < self.globals@.len()
                    &&& self.globals@[i as int].0@ == key@
                    &&& self@.globals.contains_key(key@)
                    &&& self@.globals[key@] == self.globals@[i as int].1@
                },
                None => {
                    &&& !self@.globals.contains_key(key@)
                    &&& forall|j: int| 0 <= j < self.globals@.len() ==> self.globals@[j].0@ != key@
                },
            },
    {
        let mut i: usize = 0;
        #[verifier::loop_isolation(false)]
        while i < self.globals.len()
            invariant
                i <= self.globals@.len(),
                forall|j: int| 0 <= j < i ==> self.globals@[j].0@ != key@,
            decreases self.globals@.len() - i,
        {
            if bytes_eq(&self.globals[i].0, key) {
                proof {
                    lemma_globals_map_index(self.globals@, i as int);
                }
                return Some(i);
            }
            i += 1;
        }
        proof {
            lemma_globals_map_absent(self.globals@, key@);
        }
        None
    }

    /// The current value of a global, when one is bound to `name`.
    pub fn get_global(&self, name: &Vec<u8>) -> (r: Option<Value>)
        requires
            self.wf(),
        ensures
            match r {
                Some(v) => self@.globals.contains_key(name@) && v@ == self@.globals[name@],
                None => !self@.globals.contains_key(name@),
            },
    {
        match self.lookup(name) {
            Some(i) => Some(self.globals[i].1.duplicate()),
            None => None,
        }
    }

    /// Binds `key` to `v` in the global table, replacing any earlier
    /// binding.
    fn set_global(&mut self, key: Vec<u8>, v: Value)
        requires
            old(self).wf(),
        ensures
            final(self).wf(),
            final(self)@ == (VmV { globals: old(self)@.globals.insert(key@, v@), ..old(self)@ }),
            final(self).func_index == old(self).func_index,
    {
        let ghost s0 = self.globals@;
        match self.lookup(&key) {
            Some(i) => {
                let ghost kv = (key, v);
                self.globals[i] = (key, v);
                proof {
                    assert(self.globals@ =~= s0.update(i as int, kv));
                    lemma_globals_map_update(s0, i as int, kv);
                    assert forall|a: int, b: int|
                        0 <= a < b < self.globals@.len() implies self.globals@[a].0@
                        != self.globals@[b].0@ by {
                        assert(s0[a].0@ != s0[b].0@);
                    }
                    assert(final(self)@ =~= (VmV {
                        globals: old(self)@.globals.insert(kv.0@, kv.1@),
                        ..old(self)@
                    }));
                }
            },
            None => {
                let ghost kv = (key, v);
                self.globals.push((key, v));
                proof {
                    assert(self.globals@ =~= s0.push(kv));
                    lemma_globals_map_push(s0, kv);
                    lemma_globals_map_absent(s0, kv.0@);
                    assert forall|a: int, b: int|
                        0 <= a < b < self.globals@.len() implies self.globals@[a].0@
                        != self.globals@[b].0@ by {
                        if b < s0.len() {
                            assert(s0[a].0@ != s0[b].0@);
                        } else {
                            assert(self.globals@[b] == kv);
                            assert(self@.globals =~= globals_map(s0).insert(kv.0@, kv.1@));
                        }
                    }
                    assert(final(self)@ =~= (VmV {
                        globals: old(self)@.globals.insert(kv.0@, kv.1@),
                        ..old(self)@
                    }));
                }
            },
        }
    }

    /// A stack write: overwrite an existing slot, push onto the next free
    /// one, and fail on any slot beyond that.
    fn set_stack(&mut self, dst: u8, v: Value) -> (r: Result<(), LuaError>)
        requires
            old(self).wf(),
        ensures
            final(self).wf(),
            final(self).func_index == old(self).func_index,
            match r {
                Ok(()) => spec_set_stack(old(self)@.stack, dst as int, v@) == Ok::<_, LuaError>(
                    final(self)@.stack,
                ) && final(self)@.globals == old(self)@.globals && final(self)@.output == old(
                    self,
                )@.output,
                Err(e) => spec_set_stack(old(self)@.stack, dst as int, v@) == Err::<
                    Seq<SpecValue>,
                    LuaError,
                >(e) && final(self)@ == old(self)@,
            },
    {
        let d = dst as usize;
        let ghost st0 = self@.stack;
        if d < self.stack.len() {
            let ghost vv = v@;
            self.stack[d] = v;
            proof {
                assert(self@.stack =~= st0.update(d as int, vv));
            }
            Ok(())
        } else if d == self.stack.len() {
            let ghost vv = v@;
            self.stack.push(v);
            proof {
                assert(self@.stack =~= st0.push(vv));
            }
            Ok(())
        } else {
            Err(LuaError::Runtime(RuntimeFault::StackGap))
        }
    }
}

/// The print primitive: reads the stack slot immediately following its own
/// call slot, records a rendering of that value on the output, and reports
/// zero results. A missing argument slot is a fatal stack fault.
fn lib_print(state: &mut ExeState) -> (r: Result<i32, LuaError>)
    requires
        old(state).wf(),
    ensures
        final(state).wf(),
        final(state).func_index == old(state).func_index,
        match r {
            Ok(n) => {
                &&& n == 0
                &&& old(state).func_index as int + 1 < old(state)@.stack.len()
                &&& final(state)@ == (VmV {
                    output: old(state)@.output.push(
                        old(state)@.stack[old(state).func_index as int + 1],
                    ),
                    ..old(state)@
                })
            },
            Err(e) => {
                &&& e == LuaError::Runtime(RuntimeFault::StackOutOfRange)
                &&& old(state).func_index as int + 1 >= old(state)@.stack.len()
                &&& final(state)@ == old(state)@
            },
        },
{
    if state.func_index >= state.stack.len() {
        return Err(LuaError::Runtime(RuntimeFault::StackOutOfRange));
    }
    let idx = state.func_index + 1;
    if idx >= state.stack.len() {
        return Err(LuaError::Runtime(RuntimeFault::StackOutOfRange));
    }
    let ghost out0 = state@.output;
    let v = state.stack[idx].duplicate();
    let ghost vv = v@;
    state.output.push(v);
    proof {
        assert(state@.output =~= out0.push(vv));
    }
    Ok(0)
}


impl ExeState {
    /// Executes a compiled program's instructions strictly in order against
    /// this interpreter state: exactly the run that `spec_exec` denotes,
    /// stopping at the first fault and leaving the state the fault found.
    #[verifier::rlimit(100)]
    #[verifier::loop_isolation(false)]
    pub fn execute(&mut self, proto: &ParseProto) -> (r: Result<(), LuaError>)
        requires
            old(self).wf(),
        ensures
            final(self).wf(),
            final(self)@ == spec_exec(proto@.byte_codes, proto@.constants, old(self)@, 0).0,
            match r {
                Ok(()) => spec_exec(proto@.byte_codes, proto@.constants, old(self)@, 0).1
                    is None,
                Err(e) => spec_exec(proto@.byte_codes, proto@.constants, old(self)@, 0).1 == Some(
                    e,
                ),
            },
    {
        let ghost codes = proto@.byte_codes;
        let ghost consts = proto@.constants;
        let mut i: usize = 0;
        while i < proto.byte_codes.len()
            invariant
                self.wf(),
                i <= codes.len(),
                spec_exec(codes, consts, old(self)@, 0) == spec_exec(
                    codes,
                    consts,
                    self@,
                    i as int,
                ),
            decreases codes.len() - i,
        {
            let ghost m0 = self@;
            let c = proto.byte_codes[i];
            match c {
                ByteCode::Call(f, _a) => {
                    if f as usize >= self.stack.len() {
                        proof {
                            assert(spec_step(m0, c, consts) == Err::<VmV, LuaError>(
                                LuaError::Runtime(RuntimeFault::StackOutOfRange),
                            ));
                        }
                        return Err(LuaError::Runtime(RuntimeFault::StackOutOfRange));
                    }
                    proof {
                        assert(m0.stack[f as int] == self.stack@[f as int]@);
                    }
                    let nf_opt: Option<NativeFn> = match &self.stack[f as usize] {
                        ValueG::NativeFunction(nf) => Some(*nf),
                        _ => None,
                    };
                    match nf_opt {
                        Some(NativeFn::Print) => {
                            self.func_index = f as usize;
                            proof {
                                assert(self@ =~= m0);
                            }
                            match lib_print(self) {
                                Ok(_) => {
                                    proof {
                                        assert(spec_step(m0, c, consts) == Ok::<VmV, LuaError>(
                                            self@,
                                        ));
                                    }
                                },
                                Err(e) => {
                                    proof {
                                        assert(spec_step(m0, c, consts) == Err::<VmV, LuaError>(e));
                                    }
                                    return Err(e);
                                },
                            }
                        },
                        None => {
                            proof {
                                assert(spec_step(m0, c, consts) == Err::<VmV, LuaError>(
                                    LuaError::Runtime(RuntimeFault::InvalidFunction),
                                ));
                            }
                            return Err(LuaError::Runtime(RuntimeFault::InvalidFunction));
                        },
                    }
                },
                ByteCode::GetGlobal(dst, k) => {
                    if k as usize >= proto.constants.len() {
                        proof {
                            assert(spec_step(m0, c, consts) == Err::<VmV, LuaError>(
                                LuaError::Runtime(RuntimeFault::ConstantOutOfRange),
                            ));
                        }
                        return Err(LuaError::Runtime(RuntimeFault::ConstantOutOfRange));
                    }
                    proof {
                        assert(consts[k as int] == proto.constants@[k as int]@);
                    }
                    match &proto.constants[k as usize] {
                        ValueG::Str(key) => {
                            let v = match self.lookup(key) {
                                Some(gi) => self.globals[gi].1.duplicate(),
                                None => ValueG::Nil,
                            };
                            match self.set_stack(dst, v) {
                                Ok(()) => {
                                    proof {
                                        assert(spec_step(m0, c, consts) is Ok);
                                        assert(self@ =~= spec_step(m0, c, consts)->Ok_0);
                                    }
                                },
                                Err(e) => {
                                    proof {
                                        assert(spec_step(m0, c, consts) == Err::<VmV, LuaError>(e));
                                    }
                                    return Err(e);
                                },
                            }
                        },
                        _ => {
                            proof {
                                assert(spec_step(m0, c, consts) == Err::<VmV, LuaError>(
                                    LuaError::Runtime(RuntimeFault::InvalidGlobalKey),
                                ));
                            }
                            return Err(LuaError::Runtime(RuntimeFault::InvalidGlobalKey));
                        },
                    }
                },
                ByteCode::LoadConst(dst, ci) => {
                    if ci as usize >= proto.constants.len() {
                        proof {
                            assert(spec_step(m0, c, consts) == Err::<VmV, LuaError>(
                                LuaError::Runtime(RuntimeFault::ConstantOutOfRange),
                            ));
                        }
                        return Err(LuaError::Runtime(RuntimeFault::ConstantOutOfRange));
                    }
                    proof {
                        assert(consts[ci as int] == proto.constants@[ci as int]@);
                    }
                    let v = proto.constants[ci as usize].duplicate();
                    match self.set_stack(dst, v) {
                        Ok(()) => {
                            proof {
                                assert(spec_step(m0, c, consts) is Ok);
                                assert(self@ =~= spec_step(m0, c, consts)->Ok_0);
                            }
                        },
                        Err(e) => {
                            proof {
                                assert(spec_step(m0, c, consts) == Err::<VmV, LuaError>(e));
                            }
                            return Err(e);
                        },
                    }
                },
                ByteCode::LoadNil(dst) => {
                    match self.set_stack(dst, ValueG::Nil) {
                        Ok(()) => {
                            proof {
                                assert(spec_step(m0, c, consts) is Ok);
                                assert(self@ =~= spec_step(m0, c, consts)->Ok_0);
                            }
                        },
                        Err(e) => {
                            proof {
                                assert(spec_step(m0, c, consts) == Err::<VmV, LuaError>(e));
                            }
                            return Err(e);
                        },
                    }
                },
                ByteCode::LoadBool(dst, b) => {
                    match self.set_stack(dst, ValueG::Boolean(b)) {
                        Ok(()) => {
                            proof {
                                assert(spec_step(m0, c, consts) is Ok);
                                assert(self@ =~= spec_step(m0, c, consts)->Ok_0);
                            }
                        },
                        Err(e) => {
                            proof {
                                assert(spec_step(m0, c, consts) == Err::<VmV, LuaError>(e));
                            }
                            return Err(e);
                        },
                    }
                },
                ByteCode::LoadInt(dst, imm) => {
                    match self.set_stack(dst, ValueG::Integer(imm as i64)) {
                        Ok(()) => {
                            proof {
                                assert(spec_step(m0, c, consts) is Ok);
                                assert(self@ =~= spec_step(m0, c, consts)->Ok_0);
                            }
                        },
                        Err(e) => {
                            proof {
                                assert(spec_step(m0, c, consts) == Err::<VmV, LuaError>(e));
                            }
                            return Err(e);
                        },
                    }
                },
                ByteCode::Move(dst, src) => {
                    if src as usize >= self.stack.len() {
                        proof {
                            assert(spec_step(m0, c, consts) == Err::<VmV, LuaError>(
                                LuaError::Runtime(RuntimeFault::StackOutOfRange),
                            ));
                        }
                        return Err(LuaError::Runtime(RuntimeFault::StackOutOfRange));
                    }
                    proof {
                        assert(m0.stack[src as int] == self.stack@[src as int]@);
                    }
                    let v = self.stack[src as usize].duplicate();
                    match self.set_stack(dst, v) {
                        Ok(()) => {
                            proof {
                                assert(spec_step(m0, c, consts) is Ok);
                                assert(self@ =~= spec_step(m0, c, consts)->Ok_0);
                            }
                        },
                        Err(e) => {
                            proof {
                                assert(spec_step(m0, c, consts) == Err::<VmV, LuaError>(e));
                            }
                            return Err(e);
                        },
                    }
                },
                ByteCode::SetGlobal(nk, src) => {
                    if nk as usize >= proto.constants.len() {
                        proof {
                            assert(spec_step(m0, c, consts) == Err::<VmV, LuaError>(
                                LuaError::Runtime(RuntimeFault::ConstantOutOfRange),
                            ));
                        }
                        return Err(LuaError::Runtime(RuntimeFault::ConstantOutOfRange));
                    }
                    proof {
                        assert(consts[nk as int] == proto.constants@[nk as int]@);
                    }
                    match &proto.constants[nk as usize] {
                        ValueG::Str(key) => {
                            if src as usize >= self.stack.len() {
                                proof {
                                    assert(spec_step(m0, c, consts) == Err::<VmV, LuaError>(
                                        LuaError::Runtime(RuntimeFault::StackOutOfRange),
                                    ));
                                }
                                return Err(LuaError::Runtime(RuntimeFault::StackOutOfRange));
                            }
                            proof {
                                assert(m0.stack[src as int] == self.stack@[src as int]@);
                            }
                            let v = self.stack[src as usize].duplicate();
                            let k2 = crate::value::copy_bytes(key);
                            self.set_global(k2, v);
                            proof {
                                assert(spec_step(m0, c, consts) is Ok);
                                assert(self@ =~= spec_step(m0, c, consts)->Ok_0);
                            }
                        },
                        _ => {
                            proof {
                                assert(spec_step(m0, c, consts) == Err::<VmV, LuaError>(
                                    LuaError::Runtime(RuntimeFault::InvalidGlobalKey),
                                ));
                            }
                            return Err(LuaError::Runtime(RuntimeFault::InvalidGlobalKey));
                        },
                    }
                },
                ByteCode::SetGlobalConst(nk, vk) => {
                    if nk as usize >= proto.constants.len() {
                        proof {
                            assert(spec_step(m0, c, consts) == Err::<VmV, LuaError>(
                                LuaError::Runtime(RuntimeFault::ConstantOutOfRange),
                            ));
                        }
                        return Err(LuaError::Runtime(RuntimeFault::ConstantOutOfRange));
                    }
                    proof {
                        assert(consts[nk as int] == proto.constants@[nk as int]@);
                    }
                    match &proto.constants[nk as usize] {
                        ValueG::Str(key) => {
                            if vk as usize >= proto.constants.len() {
                                proof {
                                    assert(spec_step(m0, c, consts) == Err::<VmV, LuaError>(
                                        LuaError::Runtime(RuntimeFault::ConstantOutOfRange),
                                    ));
                                }
                                return Err(LuaError::Runtime(RuntimeFault::ConstantOutOfRange));
                            }
                            proof {
                                assert(consts[vk as int] == proto.constants@[vk as int]@);
                            }
                            let v = proto.constants[vk as usize].duplicate();
                            let k2 = crate::value::copy_bytes(key);
                            self.set_global(k2, v);
                            proof {
                                assert(spec_step(m0, c, consts) is Ok);
                                assert(self@ =~= spec_step(m0, c, consts)->Ok_0);
                            }
                        },
                        _ => {
                            proof {
                                assert(spec_step(m0, c, consts) == Err::<VmV, LuaError>(
                                    LuaError::Runtime(RuntimeFault::InvalidGlobalKey),
                                ));
                            }
                            return Err(LuaError::Runtime(RuntimeFault::InvalidGlobalKey));
                        },
                    }
                },
                ByteCode::SetGlobalGlobal(nk, ok) => {
                    if nk as usize >= proto.constants.len() {
                        proof {
                            assert(spec_step(m0, c, consts) == Err::<VmV, LuaError>(
                                LuaError::Runtime(RuntimeFault::ConstantOutOfRange),
                            ));
                        }
                        return Err(LuaError::Runtime(RuntimeFault::ConstantOutOfRange));
                    }
                    proof {
                        assert(consts[nk as int] == proto.constants@[nk as int]@);
                    }
                    match &proto.constants[nk as usize] {
                        ValueG::Str(key) => {
                            if ok as usize >= proto.constants.len() {
                                proof {
                                    assert(spec_step(m0, c, consts) == Err::<VmV, LuaError>(
                                        LuaError::Runtime(RuntimeFault::ConstantOutOfRange),
                                    ));
                                }
                                return Err(LuaError::Runtime(RuntimeFault::ConstantOutOfRange));
                            }
                            proof {
                                assert(consts[ok as int] == proto.constants@[ok as int]@);
                            }
                            match &proto.constants[ok as usize] {
                                ValueG::Str(key2) => {
                                    let v = match self.lookup(key2) {
                                        Some(gi) => self.globals[gi].1.duplicate(),
                                        None => ValueG::Nil,
                                    };
                                    let k2 = crate::value::copy_bytes(key);
                                    self.set_global(k2, v);
                                    proof {
                                        assert(spec_step(m0, c, consts) is Ok);
                                        assert(self@ =~= spec_step(m0, c, consts)->Ok_0);
                                    }
                                },
                                _ => {
                                    proof {
                                        assert(spec_step(m0, c, consts) == Err::<VmV, LuaError>(
                                            LuaError::Runtime(RuntimeFault::InvalidGlobalKey),
                                        ));
                                    }
                                    return Err(LuaError::Runtime(RuntimeFault::InvalidGlobalKey));
                                },
                            }
                        },
                        _ => {
                            proof {
                                assert(spec_step(m0, c, consts) == Err::<VmV, LuaError>(
                                    LuaError::Runtime(RuntimeFault::InvalidGlobalKey),
                                ));
                            }
                            return Err(LuaError::Runtime(RuntimeFault::InvalidGlobalKey));
                        },
                    }
                },
            }
            i += 1;
        }
        Ok(())
    }
}


/// On a well-formed program, the operand stack's length follows the
/// statically determined profile `slen`, every stack write lands at or
/// below the next free slot, and the only fault a run can raise is a call
/// of a non-function value.
pub proof fn lemma_wf_exec(codes: Seq<ByteCode>, consts: Seq<SpecValue>, m: VmV, i: int)
    requires
        codes_wf(codes, consts),
        0 <= i <= codes.len(),
        m.stack.len() == slen(codes, i),
    ensures
        ({
            let (mend, err) = spec_exec(codes, consts, m, i);
            &&& (err is None || err == Some(LuaError::Runtime(RuntimeFault::InvalidFunction)))
            &&& (err is None ==> mend.stack.len() == slen(codes, codes.len() as int))
        }),
    decreases codes.len() - i,
{
    if i < codes.len() {
        let c = codes[i];
        assert(code_wf(c, consts, slen(codes, i)));
        assert(slen(codes, i + 1) == {
            let prev = slen(codes, i);
            match write_slot(c) {
                Some(d) => if d == prev {
                    prev + 1
                } else {
                    prev
                },
                None => prev,
            }
        });
        match spec_step(m, c, consts) {
            Err(e) => {
                assert(e == LuaError::Runtime(RuntimeFault::InvalidFunction));
            },
            Ok(m2) => {
                assert(m2.stack.len() == slen(codes, i + 1));
                lemma_wf_exec(codes, consts, m2, i + 1);
            },
        }
    }
}

/// The no-gap law for compiled programs: running what the compiler produced
/// against a fresh interpreter, every destination slot passed to a stack
/// write is at most the stack's length at that moment — the run never stops
/// on a stack or pool fault, only (possibly) on calling a non-function.
pub proof fn lemma_compiled_no_stack_gap(src: Seq<u8>, p: ProtoV)
    requires
        spec_compile(src) == Ok::<ProtoV, LuaError>(p),
    ensures
        ({
            let (mend, err) = spec_exec(p.byte_codes, p.constants, initial_vm(), 0);
            err is None || err == Some(LuaError::Runtime(RuntimeFault::InvalidFunction))
        }),
{
    crate::parser::lemma_compile_wf(src);
    assert(initial_vm().stack.len() == slen(p.byte_codes, 0));
    lemma_wf_exec(p.byte_codes, p.constants, initial_vm(), 0);
}

/// A global read before any assignment is not a fault: the fetch succeeds
/// and hands the destination slot Nil.
pub proof fn lemma_unassigned_global_is_nil(
    m: VmV,
    consts: Seq<SpecValue>,
    dst: u8,
    k: u8,
    name: Seq<u8>,
)
    requires
        (k as int) < consts.len(),
        consts[k as int] == ValueG::Str::<Seq<u8>>(name),
        !m.globals.contains_key(name),
        dst as int <= m.stack.len(),
    ensures
        spec_step(m, ByteCode::GetGlobal(dst, k), consts) matches Ok(m2) && m2.stack[dst as int]
            == ValueG::Nil::<Seq<u8>>,
{
}

/// Calling anything but a native function — in particular the Nil that an
/// unassigned name evaluates to — raises the invalid-function fault.
pub proof fn lemma_call_non_function(m: VmV, consts: Seq<SpecValue>, f: u8, a: u8)
    requires
        (f as int) < m.stack.len(),
        !(m.stack[f as int] is NativeFunction),
    ensures
        spec_step(m, ByteCode::Call(f, a), consts) == Err::<VmV, LuaError>(
            LuaError::Runtime(RuntimeFault::InvalidFunction),
        ),
{
}

/// Round-trip idempotence: running one compiled program against two fresh
/// interpreter states gives identical global tables, identical output, and
/// the same outcome — no hidden state survives between runs.
pub proof fn lemma_rerun_identical(p: ProtoV, a: VmV, ea: Option<LuaError>, b: VmV, eb: Option<
    LuaError,
>)
    requires
        (a, ea) == spec_exec(p.byte_codes, p.constants, initial_vm(), 0),
        (b, eb) == spec_exec(p.byte_codes, p.constants, initial_vm(), 0),
    ensures
        a.globals == b.globals,
        a.output == b.output,
        ea == eb,
{
}

} // verus!

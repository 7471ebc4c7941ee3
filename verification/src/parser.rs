use vstd::prelude::*;

use crate::lexer::{Lexer, SpecToken, TokView, TokenG, stream_next};
use crate::value::{SpecValue, Value, ValueG, bytes_eq};
use crate::{LuaError, SyntaxFault};

verus! {

/// The instruction set: a fixed, closed vocabulary whose operands are small
/// integers (a register slot, a constant-pool index, or an inline
/// immediate). Instructions are never mutated after emission.
#[derive(Debug, Clone, Copy, PartialEq, Eq, Structural)]
pub enum ByteCode {
    /// globals[constant[.0]] = constant[.1]
    SetGlobalConst(u8, u8),
    /// globals[constant[.0]] = current value of the global named constant[.1]
    SetGlobalGlobal(u8, u8),
    /// globals[constant[.0]] = stack[.1]
    SetGlobal(u8, u8),
    /// stack[.0] = globals[constant[.1]] (Nil when absent)
    GetGlobal(u8, u8),
    /// stack[.0] = Integer(.1)
    LoadInt(u8, i16),
    /// stack[.0] = Boolean(.1)
    LoadBool(u8, bool),
    /// stack[.0] = constant[.1]
    LoadConst(u8, u8),
    /// stack[.0] = Nil
    LoadNil(u8),
    /// invoke the native function in stack[.0]; its argument sits in
    /// stack[.1], the slot just above
    Call(u8, u8),
    /// stack[.0] = stack[.1]
    Move(u8, u8),
}

/// The model of a compiled program: constant pool, instruction sequence,
/// and locals table.
#[verifier::ext_equal]
pub ghost struct ProtoV {
    pub constants: Seq<SpecValue>,
    pub byte_codes: Seq<ByteCode>,
    pub locals: Seq<Seq<u8>>,
}

/// The compiled program, handed read-only to the virtual machine: the
/// deduplicated constant pool, the flat instruction sequence, and the
/// locals table (index = register slot).
#[derive(Debug)]
pub struct ParseProto {
    pub constants: Vec<Value>,
    pub byte_codes: Vec<ByteCode>,
    pub locals: Vec<Vec<u8>>,
}

impl View for ParseProto {
    type V = ProtoV;

    open spec fn view(&self) -> ProtoV {
        ProtoV {
            constants: self.constants@.map_values(|v: Value| v@),
            byte_codes: self.byte_codes@,
            locals: self.locals@.map_values(|l: Vec<u8>| l@),
        }
    }
}

/// The first index at or after `i` holding `v`, or -1 when there is none.
pub open spec fn find_from(cs: Seq<SpecValue>, v: SpecValue, i: int) -> int
    decreases cs.len() - i,
{
    if i < 0 || i >= cs.len() {
        -1
    } else if cs[i] == v {
        i
    } else {
        find_from(cs, v, i + 1)
    }
}

/// Constant-pool insertion: the index of an equal existing entry when there
/// is one, otherwise the pool extended by `v` and the new entry's index.
pub open spec fn spec_add_const(cs: Seq<SpecValue>, v: SpecValue) -> (Seq<SpecValue>, int) {
    let i = find_from(cs, v, 0);
    if i >= 0 {
        (cs, i)
    } else {
        (cs.push(v), cs.len() as int)
    }
}

/// The last index at or below `i` whose name equals `name`, or -1:
/// resolution scans from the most recent declaration backward, so a later
/// declaration shadows an earlier one of the same name.
pub open spec fn rfind_local(ls: Seq<Seq<u8>>, name: Seq<u8>, i: int) -> int
    decreases i + 1,
{
    if i < 0 || i >= ls.len() {
        -1
    } else if ls[i] == name {
        i
    } else {
        rfind_local(ls, name, i - 1)
    }
}

/// Resolution of a name against the locals table: the slot of its most
/// recent declaration, or -1 when it is not a local.
pub open spec fn spec_get_local(ls: Seq<Seq<u8>>, name: Seq<u8>) -> int {
    rfind_local(ls, name, ls.len() - 1)
}

/// No two distinct pool indices hold equal values.
pub open spec fn pool_dedup(cs: Seq<SpecValue>) -> bool {
    forall|i: int, j: int| 0 <= i < j < cs.len() ==> cs[i] != cs[j]
}

/// What `find_from` finds: the first match at or after `i`, if any.
pub proof fn lemma_find_from(cs: Seq<SpecValue>, v: SpecValue, i: int)
    requires
        0 <= i,
    ensures
        find_from(cs, v, i) < 0 ==> (forall|j: int| i <= j < cs.len() ==> cs[j] != v),
        find_from(cs, v, i) >= 0 ==> {
            let r = find_from(cs, v, i);
            &&& i <= r < cs.len()
            &&& cs[r] == v
            &&& forall|j: int| i <= j < r ==> cs[j] != v
        },
    decreases cs.len() - i,
{
    if 0 <= i < cs.len() && cs[i] != v {
        lemma_find_from(cs, v, i + 1);
    }
}

/// What `spec_add_const` guarantees: the pool stays deduplicated, existing
/// entries keep their indices, and the result indexes an entry equal to `v`.
pub proof fn lemma_add_const(cs: Seq<SpecValue>, v: SpecValue)
    requires
        pool_dedup(cs),
    ensures
        ({
            let (cs2, i) = spec_add_const(cs, v);
            &&& pool_dedup(cs2)
            &&& 0 <= i < cs2.len()
            &&& cs2[i] == v
            &&& cs.len() <= cs2.len()
            &&& forall|j: int| 0 <= j < cs.len() ==> cs2[j] == cs[j]
            &&& ((exists|j: int| 0 <= j < cs.len() && cs[j] == v) ==> cs2 == cs)
            &&& ((forall|j: int| 0 <= j < cs.len() ==> cs[j] != v) ==> cs2 == cs.push(v))
        }),
{
    lemma_find_from(cs, v, 0);
    let (cs2, i) = spec_add_const(cs, v);
    if find_from(cs, v, 0) < 0 {
        assert forall|a: int, b: int| 0 <= a < b < cs2.len() implies cs2[a] != cs2[b] by {
            if b == cs.len() {
                assert(cs2[a] == cs[a]);
                assert(cs[a] != v);
            }
        }
    }
}

/// What `rfind_local` finds: the last match at or below `i`, if any.
pub proof fn lemma_rfind_local(ls: Seq<Seq<u8>>, name: Seq<u8>, i: int)
    requires
        i < ls.len(),
    ensures
        rfind_local(ls, name, i) < 0 ==> (forall|j: int| 0 <= j <= i ==> ls[j] != name),
        rfind_local(ls, name, i) >= 0 ==> {
            let r = rfind_local(ls, name, i);
            &&& 0 <= r <= i
            &&& ls[r] == name
            &&& forall|j: int| r < j <= i ==> ls[j] != name
        },
    decreases i + 1,
{
    if 0 <= i < ls.len() && ls[i] != name {
        lemma_rfind_local(ls, name, i - 1);
    }
}

impl ParseProto {
    /// Pool insertion: a linear scan for an equal existing entry returns its
    /// index; otherwise `c` is appended and the new index returned.
    /// Inserting an already-present value never changes the pool's length
    /// and always returns the first (original) index.
    #[verifier::loop_isolation(false)]
    pub fn add_const(&mut self, c: Value) -> (idx: usize)
        ensures
            (final(self)@.constants, idx as int) == spec_add_const(old(self)@.constants, c@),
            final(self)@.byte_codes == old(self)@.byte_codes,
            final(self)@.locals == old(self)@.locals,
            idx < final(self)@.constants.len(),
            final(self)@.constants[idx as int] == c@,
            (exists|j: int|
                0 <= j < old(self)@.constants.len() && old(self)@.constants[j] == c@) ==> {
                &&& final(self)@.constants == old(self)@.constants
                &&& old(self)@.constants[idx as int] == c@
                &&& forall|j: int| 0 <= j < idx ==> old(self)@.constants[j] != c@
            },
    {
        let ghost cs = self@.constants;
        let mut i: usize = 0;
        while i < self.constants.len()
            invariant
                i <= self.constants@.len(),
                find_from(cs, c@, 0) == find_from(cs, c@, i as int),
            decreases self.constants@.len() - i,
        {
            proof {
                assert(cs[i as int] == self.constants@[i as int]@);
            }
            if self.constants[i].equals(&c) {
                proof {
                    lemma_find_from(cs, c@, 0);
                    assert(find_from(cs, c@, i as int) == i as int);
                    assert(spec_add_const(cs, c@) == (cs, i as int));
                }
                return i;
            }
            i += 1;
        }
        proof {
            lemma_find_from(cs, c@, 0);
        }
        self.constants.push(c);
        proof {
            assert(self@.constants =~= cs.push(c@));
        }
        self.constants.len() - 1
    }

    /// Resolves a name against the locals table, scanning from the most
    /// recently declared entry backward: the most recent local of that name
    /// wins, so a later declaration shadows an earlier one.
    #[verifier::loop_isolation(false)]
    pub fn get_local(&self, name: &Vec<u8>) -> (r: Option<usize>)
        ensures
            match r {
                Some(i) => {
                    &&& spec_get_local(self@.locals, name@) == i as int
                    &&& i < self@.locals.len()
                    &&& self@.locals[i as int] == name@
                    &&& forall|j: int| i < j < self@.locals.len() ==> self@.locals[j] != name@
                },
                None => {
                    &&& spec_get_local(self@.locals, name@) == -1
                    &&& forall|j: int| 0 <= j < self@.locals.len() ==> self@.locals[j] != name@
                },
            },
    {
        let ghost ls = self@.locals;
        let mut i: usize = self.locals.len();
        while i > 0
            invariant
                i <= self.locals@.len(),
                rfind_local(ls, name@, ls.len() - 1) == rfind_local(ls, name@, i as int - 1),
            decreases i,
        {
            i -= 1;
            proof {
                assert(ls[i as int] == self.locals@[i as int]@);
            }
            if bytes_eq(&self.locals[i], name) {
                proof {
                    assert(rfind_local(ls, name@, i as int) == i as int);
                    lemma_rfind_local(ls, name@, ls.len() - 1);
                }
                return Some(i);
            }
        }
        proof {
            lemma_rfind_local(ls, name@, ls.len() - 1);
        }
        None
    }
}


/// The program extended by one emitted instruction.
pub open spec fn push_code(p: ProtoV, c: ByteCode) -> ProtoV {
    ProtoV { byte_codes: p.byte_codes.push(c), ..p }
}

/// Loading a name into `dst`: a register copy when the name resolves to a
/// local, else a global fetch through the interned name constant. An
/// operand that would not fit in a byte is fatal.
pub open spec fn spec_load_var(p: ProtoV, dst: int, name: Seq<u8>) -> Result<
    (ProtoV, ByteCode),
    LuaError,
> {
    let li = spec_get_local(p.locals, name);
    if li >= 0 {
        if li > 255 {
            Err(LuaError::Syntax(SyntaxFault::OperandOverflow))
        } else {
            Ok((p, ByteCode::Move(dst as u8, li as u8)))
        }
    } else {
        let (cs, ic) = spec_add_const(p.constants, ValueG::Str(name));
        if ic > 255 {
            Err(LuaError::Syntax(SyntaxFault::OperandOverflow))
        } else {
            Ok((ProtoV { constants: cs, ..p }, ByteCode::GetGlobal(dst as u8, ic as u8)))
        }
    }
}

/// Compiling one expression token into register `dst`: a literal load, or a
/// register copy / global fetch when the token is a name. Any other token
/// cannot begin an expression and is fatal.
pub open spec fn spec_load_exp(v: TokView, p: ProtoV, dst: int) -> Result<
    (ProtoV, TokView),
    LuaError,
> {
    match stream_next(v) {
        Err(e) => Err(e),
        Ok((t, v2)) => match t {
            TokenG::Integer(i) => {
                if -32768 <= i <= 32767 {
                    Ok((push_code(p, ByteCode::LoadInt(dst as u8, i as i16)), v2))
                } else {
                    let (cs, ic) = spec_add_const(p.constants, ValueG::Integer(i));
                    if ic > 255 {
                        Err(LuaError::Syntax(SyntaxFault::OperandOverflow))
                    } else {
                        Ok(
                            (
                                ProtoV {
                                    constants: cs,
                                    byte_codes: p.byte_codes.push(
                                        ByteCode::LoadConst(dst as u8, ic as u8),
                                    ),
                                    ..p
                                },
                                v2,
                            ),
                        )
                    }
                }
            },
            TokenG::True => Ok((push_code(p, ByteCode::LoadBool(dst as u8, true)), v2)),
            TokenG::False => Ok((push_code(p, ByteCode::LoadBool(dst as u8, false)), v2)),
            TokenG::Nil => Ok((push_code(p, ByteCode::LoadNil(dst as u8)), v2)),
            TokenG::Str(s) => {
                let (cs, ic) = spec_add_const(p.constants, ValueG::Str(s));
                if ic > 255 {
                    Err(LuaError::Syntax(SyntaxFault::OperandOverflow))
                } else {
                    Ok(
                        (
                            ProtoV {
                                constants: cs,
                                byte_codes: p.byte_codes.push(
                                    ByteCode::LoadConst(dst as u8, ic as u8),
                                ),
                                ..p
                            },
                            v2,
                        ),
                    )
                }
            },
            TokenG::Name(n) => match spec_load_var(p, dst, n) {
                Err(e) => Err(e),
                Ok((p2, code)) => Ok((push_code(p2, code), v2)),
            },
            _ => Err(LuaError::Syntax(SyntaxFault::InvalidExpression)),
        },
    }
}

/// A global store of a literal: the value is interned in the pool and a
/// `SetGlobalConst` emitted against the already-interned name constant `nc`.
pub open spec fn spec_global_const(p: ProtoV, nc: int, val: SpecValue, v2: TokView) -> Result<
    (ProtoV, TokView),
    LuaError,
> {
    let (cs, ic) = spec_add_const(p.constants, val);
    if ic > 255 {
        Err(LuaError::Syntax(SyntaxFault::OperandOverflow))
    } else {
        Ok(
            (
                ProtoV {
                    constants: cs,
                    byte_codes: p.byte_codes.push(ByteCode::SetGlobalConst(nc as u8, ic as u8)),
                    ..p
                },
                v2,
            ),
        )
    }
}

/// Compiling an assignment statement, after its `=` token: into the local's
/// own register when the target resolves to a local; otherwise the target
/// name is interned first, and the right-hand-side token picks one of the
/// three global-store instructions. Any other right-hand side is fatal.
pub open spec fn spec_load_assign(v: TokView, p: ProtoV, name: Seq<u8>) -> Result<
    (ProtoV, TokView),
    LuaError,
> {
    let li = spec_get_local(p.locals, name);
    if li >= 0 {
        if li > 255 {
            Err(LuaError::Syntax(SyntaxFault::OperandOverflow))
        } else {
            spec_load_exp(v, p, li)
        }
    } else {
        let (cs1, nc) = spec_add_const(p.constants, ValueG::Str(name));
        if nc > 255 {
            Err(LuaError::Syntax(SyntaxFault::OperandOverflow))
        } else {
            let p1 = ProtoV { constants: cs1, ..p };
            match stream_next(v) {
                Err(e) => Err(e),
                Ok((t, v2)) => match t {
                    TokenG::Nil => spec_global_const(p1, nc, ValueG::Nil, v2),
                    TokenG::True => spec_global_const(p1, nc, ValueG::Boolean(true), v2),
                    TokenG::False => spec_global_const(p1, nc, ValueG::Boolean(false), v2),
                    TokenG::Integer(i) => spec_global_const(p1, nc, ValueG::Integer(i), v2),
                    TokenG::Str(s) => spec_global_const(p1, nc, ValueG::Str(s), v2),
                    TokenG::Name(n2) => {
                        let li2 = spec_get_local(p1.locals, n2);
                        if li2 >= 0 {
                            if li2 > 255 {
                                Err(LuaError::Syntax(SyntaxFault::OperandOverflow))
                            } else {
                                Ok(
                                    (
                                        push_code(p1, ByteCode::SetGlobal(nc as u8, li2 as u8)),
                                        v2,
                                    ),
                                )
                            }
                        } else {
                            let (cs2, nc2) = spec_add_const(p1.constants, ValueG::Str(n2));
                            if nc2 > 255 {
                                Err(LuaError::Syntax(SyntaxFault::OperandOverflow))
                            } else {
                                Ok(
                                    (
                                        ProtoV {
                                            constants: cs2,
                                            byte_codes: p1.byte_codes.push(
                                                ByteCode::SetGlobalGlobal(nc as u8, nc2 as u8),
                                            ),
                                            ..p1
                                        },
                                        v2,
                                    ),
                                )
                            }
                        }
                    },
                    _ => Err(LuaError::Syntax(SyntaxFault::InvalidAssignRhs)),
                },
            }
        }
    }
}

/// Compiling a local declaration, after its `local` token: `local <name> =
/// <expr>`, with the initializer compiled into the newly assigned slot and
/// the name appended afterwards, so the initializer still sees the outer
/// scope. Any deviation from this shape is fatal.
pub open spec fn spec_load_local(v: TokView, p: ProtoV) -> Result<(ProtoV, TokView), LuaError> {
    match stream_next(v) {
        Err(e) => Err(e),
        Ok((t, v1)) => match t {
            TokenG::Name(n) => match stream_next(v1) {
                Err(e) => Err(e),
                Ok((t2, v2)) => {
                    if t2 is Assign {
                        let dst = p.locals.len() as int;
                        if dst > 255 {
                            Err(LuaError::Syntax(SyntaxFault::OperandOverflow))
                        } else {
                            match spec_load_exp(v2, p, dst) {
                                Err(e) => Err(e),
                                Ok((p2, v3)) => Ok(
                                    (ProtoV { locals: p2.locals.push(n), ..p2 }, v3),
                                ),
                            }
                        }
                    } else {
                        Err(LuaError::Syntax(SyntaxFault::ExpectedAssign))
                    }
                },
            },
            _ => Err(LuaError::Syntax(SyntaxFault::ExpectedName)),
        },
    }
}

/// Compiling a call statement, after its callee name: the callee is loaded
/// into the scratch slot just above the locals, the single parenthesized
/// argument into the slot above that, and a call instruction emitted.
pub open spec fn spec_function_call(v: TokView, p: ProtoV, name: Seq<u8>) -> Result<
    (ProtoV, TokView),
    LuaError,
> {
    let ifunc = p.locals.len() as int;
    let iarg = ifunc + 1;
    if iarg > 255 {
        Err(LuaError::Syntax(SyntaxFault::OperandOverflow))
    } else {
        match spec_load_var(p, ifunc, name) {
            Err(e) => Err(e),
            Ok((p1, code)) => {
                let p2 = push_code(p1, code);
                match stream_next(v) {
                    Err(e) => Err(e),
                    Ok((t, v1)) => {
                        if t is ParL {
                            match spec_load_exp(v1, p2, iarg) {
                                Err(e) => Err(e),
                                Ok((p3, v2)) => match stream_next(v2) {
                                    Err(e) => Err(e),
                                    Ok((t2, v3)) => {
                                        if t2 is ParR {
                                            Ok(
                                                (
                                                    push_code(
                                                        p3,
                                                        ByteCode::Call(ifunc as u8, iarg as u8),
                                                    ),
                                                    v3,
                                                ),
                                            )
                                        } else {
                                            Err(LuaError::Syntax(SyntaxFault::ExpectedParenRight))
                                        }
                                    },
                                },
                            }
                        } else {
                            Err(LuaError::Syntax(SyntaxFault::ExpectedParenLeft))
                        }
                    },
                }
            },
        }
    }
}

/// One stream step never lengthens the remaining token stream.
pub proof fn lemma_stream_next_len(v: TokView)
    ensures
        stream_next(v) matches Ok((t, v2)) ==> v2.toks.len() <= v.toks.len(),
        stream_next(v) matches Ok((t, v2)) ==> (!(t is EOS) ==> v2.toks.len() < v.toks.len()),
{
}

/// Compiling one expression consumes tokens, never unconsumes them.
pub proof fn lemma_load_exp_len(v: TokView, p: ProtoV, dst: int)
    ensures
        spec_load_exp(v, p, dst) matches Ok((p2, v2)) ==> v2.toks.len() <= v.toks.len(),
{
    lemma_stream_next_len(v);
}

/// Compiling an assignment consumes tokens, never unconsumes them.
pub proof fn lemma_load_assign_len(v: TokView, p: ProtoV, name: Seq<u8>)
    ensures
        spec_load_assign(v, p, name) matches Ok((p2, v2)) ==> v2.toks.len() <= v.toks.len(),
{
    lemma_stream_next_len(v);
    let li = spec_get_local(p.locals, name);
    if li >= 0 && li <= 255 {
        lemma_load_exp_len(v, p, li);
    }
}

/// Compiling a local declaration consumes tokens, never unconsumes them.
pub proof fn lemma_load_local_len(v: TokView, p: ProtoV)
    ensures
        spec_load_local(v, p) matches Ok((p2, v2)) ==> v2.toks.len() <= v.toks.len(),
{
    lemma_stream_next_len(v);
    match stream_next(v) {
        Ok((t, v1)) => {
            lemma_stream_next_len(v1);
            match stream_next(v1) {
                Ok((t2, v2)) => {
                    lemma_load_exp_len(v2, p, p.locals.len() as int);
                },
                Err(_) => {},
            }
        },
        Err(_) => {},
    }
}

/// Compiling a call statement consumes tokens, never unconsumes them.
pub proof fn lemma_function_call_len(v: TokView, p: ProtoV, name: Seq<u8>)
    ensures
        spec_function_call(v, p, name) matches Ok((p2, v2)) ==> v2.toks.len() <= v.toks.len(),
{
    lemma_stream_next_len(v);
    match spec_load_var(p, p.locals.len() as int, name) {
        Ok((p1, code)) => {
            match stream_next(v) {
                Ok((t, v1)) => {
                    lemma_load_exp_len(v1, push_code(p1, code), p.locals.len() as int + 1);
                    match spec_load_exp(v1, push_code(p1, code), p.locals.len() as int + 1) {
                        Ok((p3, v2)) => {
                            lemma_stream_next_len(v2);
                        },
                        Err(_) => {},
                    }
                },
                Err(_) => {},
            }
        },
        Err(_) => {},
    }
}

/// The whole compilation unit: top-level dispatch on each leading token.
/// A name followed by `=` is an assignment, any other continuation of a
/// name is a call statement, `local` declares a local, the end sentinel
/// stops compilation, and any other leading token is skipped.
pub open spec fn spec_chunk(v: TokView, p: ProtoV) -> Result<ProtoV, LuaError>
    decreases v.toks.len(),
{
    match stream_next(v) {
        Err(e) => Err(e),
        Ok((t, v1)) => match t {
            TokenG::EOS => Ok(p),
            TokenG::Name(n) => match stream_next(v1) {
                Err(e) => Err(e),
                Ok((t2, v2)) => {
                    if t2 is Assign {
                        match spec_load_assign(v2, p, n) {
                            Err(e) => Err(e),
                            Ok((p2, v3)) => {
                                proof {
                                    lemma_stream_next_len(v);
                                    lemma_stream_next_len(v1);
                                    lemma_load_assign_len(v2, p, n);
                                }
                                spec_chunk(v3, p2)
                            },
                        }
                    } else {
                        match spec_function_call(v1, p, n) {
                            Err(e) => Err(e),
                            Ok((p2, v3)) => {
                                proof {
                                    lemma_stream_next_len(v);
                                    lemma_function_call_len(v1, p, n);
                                }
                                spec_chunk(v3, p2)
                            },
                        }
                    }
                },
            },
            TokenG::Local => match spec_load_local(v1, p) {
                Err(e) => Err(e),
                Ok((p2, v3)) => {
                    proof {
                        lemma_stream_next_len(v);
                        lemma_load_local_len(v1, p);
                    }
                    spec_chunk(v3, p2)
                },
            },
            _ => spec_chunk(v1, p),
        },
    }
}

/// The empty program that compilation starts from.
pub open spec fn empty_proto() -> ProtoV {
    ProtoV { constants: Seq::empty(), byte_codes: Seq::empty(), locals: Seq::empty() }
}

/// The compiled program that the given source bytes denote.
pub open spec fn spec_compile(s: Seq<u8>) -> Result<ProtoV, LuaError> {
    spec_chunk(crate::lexer::stream_from(s, 0), empty_proto())
}


impl ParseProto {
    /// Loads a name into `dst`: a register copy when the name resolves to a
    /// local, else a global fetch through the interned name constant.
    fn load_var(&mut self, dst: usize, name: Vec<u8>) -> (r: Result<ByteCode, LuaError>)
        requires
            dst <= 255,
        ensures
            match r {
                Ok(code) => spec_load_var(old(self)@, dst as int, name@) == Ok::<_, LuaError>(
                    (final(self)@, code),
                ),
                Err(e) => spec_load_var(old(self)@, dst as int, name@) == Err::<
                    (ProtoV, ByteCode),
                    LuaError,
                >(e),
            },
    {
        match self.get_local(&name) {
            Some(i) => {
                if i > 255 {
                    Err(LuaError::Syntax(SyntaxFault::OperandOverflow))
                } else {
                    Ok(ByteCode::Move(dst as u8, i as u8))
                }
            },
            None => {
                let ic = self.add_const(ValueG::Str(name));
                if ic > 255 {
                    Err(LuaError::Syntax(SyntaxFault::OperandOverflow))
                } else {
                    Ok(ByteCode::GetGlobal(dst as u8, ic as u8))
                }
            },
        }
    }

    /// Compiles one expression token into register `dst`: a literal load,
    /// or a register copy / global fetch when the token is a name.
    fn load_exp(&mut self, lx: &mut Lexer, dst: usize) -> (r: Result<(), LuaError>)
        requires
            old(lx).wf(),
            dst <= 255,
        ensures
            final(lx).wf(),
            match r {
                Ok(()) => spec_load_exp(old(lx)@, old(self)@, dst as int) == Ok::<_, LuaError>(
                    (final(self)@, final(lx)@),
                ),
                Err(e) => spec_load_exp(old(lx)@, old(self)@, dst as int) == Err::<
                    (ProtoV, TokView),
                    LuaError,
                >(e),
            },
    {
        let t = match lx.next() {
            Ok(t) => t,
            Err(e) => {
                return Err(e);
            },
        };
        match t {
            TokenG::Integer(i) => {
                if i >= -32768 && i <= 32767 {
                    self.byte_codes.push(ByteCode::LoadInt(dst as u8, i as i16));
                    Ok(())
                } else {
                    let ic = self.add_const(ValueG::Integer(i));
                    if ic > 255 {
                        Err(LuaError::Syntax(SyntaxFault::OperandOverflow))
                    } else {
                        self.byte_codes.push(ByteCode::LoadConst(dst as u8, ic as u8));
                        Ok(())
                    }
                }
            },
            TokenG::True => {
                self.byte_codes.push(ByteCode::LoadBool(dst as u8, true));
                Ok(())
            },
            TokenG::False => {
                self.byte_codes.push(ByteCode::LoadBool(dst as u8, false));
                Ok(())
            },
            TokenG::Nil => {
                self.byte_codes.push(ByteCode::LoadNil(dst as u8));
                Ok(())
            },
            TokenG::Str(s) => {
                let ic = self.add_const(ValueG::Str(s));
                if ic > 255 {
                    Err(LuaError::Syntax(SyntaxFault::OperandOverflow))
                } else {
                    self.byte_codes.push(ByteCode::LoadConst(dst as u8, ic as u8));
                    Ok(())
                }
            },
            TokenG::Name(n) => {
                match self.load_var(dst, n) {
                    Ok(code) => {
                        self.byte_codes.push(code);
                        Ok(())
                    },
                    Err(e) => Err(e),
                }
            },
            _ => Err(LuaError::Syntax(SyntaxFault::InvalidExpression)),
        }
    }

    /// Compiles an assignment statement: the token under the cursor (the
    /// `=` that was peeked) is discarded, then the right-hand side is
    /// compiled into the target local's register, or into one of the three
    /// global-store instructions.
    fn load_assign(&mut self, lx: &mut Lexer, var: Vec<u8>) -> (r: Result<(), LuaError>)
        requires
            old(lx).wf(),
        ensures
            final(lx).wf(),
            match stream_next(old(lx)@) {
                Err(e0) => r == Err::<(), LuaError>(e0),
                Ok((t0, v2)) => match r {
                    Ok(()) => spec_load_assign(v2, old(self)@, var@) == Ok::<_, LuaError>(
                        (final(self)@, final(lx)@),
                    ),
                    Err(e) => spec_load_assign(v2, old(self)@, var@) == Err::<
                        (ProtoV, TokView),
                        LuaError,
                    >(e),
                },
            },
    {
        let ghost vname = var@;
        match lx.next() {
            Ok(_) => {},
            Err(e) => {
                return Err(e);
            },
        }
        match self.get_local(&var) {
            Some(i) => {
                if i > 255 {
                    Err(LuaError::Syntax(SyntaxFault::OperandOverflow))
                } else {
                    self.load_exp(lx, i)
                }
            },
            None => {
                let nc = self.add_const(ValueG::Str(var));
                if nc > 255 {
                    return Err(LuaError::Syntax(SyntaxFault::OperandOverflow));
                }
                let t = match lx.next() {
                    Ok(t) => t,
                    Err(e) => {
                        return Err(e);
                    },
                };
                let code = match t {
                    TokenG::Nil => {
                        let ic = self.add_const(ValueG::Nil);
                        if ic > 255 {
                            return Err(LuaError::Syntax(SyntaxFault::OperandOverflow));
                        }
                        ByteCode::SetGlobalConst(nc as u8, ic as u8)
                    },
                    TokenG::True => {
                        let ic = self.add_const(ValueG::Boolean(true));
                        if ic > 255 {
                            return Err(LuaError::Syntax(SyntaxFault::OperandOverflow));
                        }
                        ByteCode::SetGlobalConst(nc as u8, ic as u8)
                    },
                    TokenG::False => {
                        let ic = self.add_const(ValueG::Boolean(false));
                        if ic > 255 {
                            return Err(LuaError::Syntax(SyntaxFault::OperandOverflow));
                        }
                        ByteCode::SetGlobalConst(nc as u8, ic as u8)
                    },
                    TokenG::Integer(i) => {
                        let ic = self.add_const(ValueG::Integer(i));
                        if ic > 255 {
                            return Err(LuaError::Syntax(SyntaxFault::OperandOverflow));
                        }
                        ByteCode::SetGlobalConst(nc as u8, ic as u8)
                    },
                    TokenG::Str(s) => {
                        let ic = self.add_const(ValueG::Str(s));
                        if ic > 255 {
                            return Err(LuaError::Syntax(SyntaxFault::OperandOverflow));
                        }
                        ByteCode::SetGlobalConst(nc as u8, ic as u8)
                    },
                    TokenG::Name(n2) => {
                        match self.get_local(&n2) {
                            Some(i2) => {
                                if i2 > 255 {
                                    return Err(LuaError::Syntax(SyntaxFault::OperandOverflow));
                                }
                                ByteCode::SetGlobal(nc as u8, i2 as u8)
                            },
                            None => {
                                let nc2 = self.add_const(ValueG::Str(n2));
                                if nc2 > 255 {
                                    return Err(LuaError::Syntax(SyntaxFault::OperandOverflow));
                                }
                                ByteCode::SetGlobalGlobal(nc as u8, nc2 as u8)
                            },
                        }
                    },
                    _ => {
                        return Err(LuaError::Syntax(SyntaxFault::InvalidAssignRhs));
                    },
                };
                self.byte_codes.push(code);
                Ok(())
            },
        }
    }

    /// Compiles a local declaration: `local <name> = <expr>`, the
    /// initializer compiled into the newly assigned slot and the name
    /// appended to the locals table afterwards, so the initializer still
    /// sees the outer scope.
    fn load_local(&mut self, lx: &mut Lexer) -> (r: Result<(), LuaError>)
        requires
            old(lx).wf(),
        ensures
            final(lx).wf(),
            match r {
                Ok(()) => spec_load_local(old(lx)@, old(self)@) == Ok::<_, LuaError>(
                    (final(self)@, final(lx)@),
                ),
                Err(e) => spec_load_local(old(lx)@, old(self)@) == Err::<
                    (ProtoV, TokView),
                    LuaError,
                >(e),
            },
    {
        let t = match lx.next() {
            Ok(t) => t,
            Err(e) => {
                return Err(e);
            },
        };
        let var = match t {
            TokenG::Name(n) => n,
            _ => {
                return Err(LuaError::Syntax(SyntaxFault::ExpectedName));
            },
        };
        let t2 = match lx.next() {
            Ok(t) => t,
            Err(e) => {
                return Err(e);
            },
        };
        match t2 {
            TokenG::Assign => {},
            _ => {
                return Err(LuaError::Syntax(SyntaxFault::ExpectedAssign));
            },
        }
        let dst = self.locals.len();
        if dst > 255 {
            return Err(LuaError::Syntax(SyntaxFault::OperandOverflow));
        }
        match self.load_exp(lx, dst) {
            Ok(()) => {
                let ghost before = self@.locals;
                self.locals.push(var);
                proof {
                    assert(self@.locals =~= before.push(var@));
                }
                Ok(())
            },
            Err(e) => Err(e),
        }
    }

    /// Compiles a call statement: the callee is loaded into the scratch
    /// slot just above the locals, the single parenthesized argument into
    /// the slot above that, and a call instruction emitted.
    fn function_call(&mut self, lx: &mut Lexer, name: Vec<u8>) -> (r: Result<(), LuaError>)
        requires
            old(lx).wf(),
        ensures
            final(lx).wf(),
            match r {
                Ok(()) => spec_function_call(old(lx)@, old(self)@, name@) == Ok::<_, LuaError>(
                    (final(self)@, final(lx)@),
                ),
                Err(e) => spec_function_call(old(lx)@, old(self)@, name@) == Err::<
                    (ProtoV, TokView),
                    LuaError,
                >(e),
            },
    {
        let ifunc = self.locals.len();
        if ifunc >= 255 {
            return Err(LuaError::Syntax(SyntaxFault::OperandOverflow));
        }
        let iarg = ifunc + 1;
        let code = match self.load_var(ifunc, name) {
            Ok(c) => c,
            Err(e) => {
                return Err(e);
            },
        };
        self.byte_codes.push(code);
        let t = match lx.next() {
            Ok(t) => t,
            Err(e) => {
                return Err(e);
            },
        };
        match t {
            TokenG::ParL => {},
            _ => {
                return Err(LuaError::Syntax(SyntaxFault::ExpectedParenLeft));
            },
        }
        match self.load_exp(lx, iarg) {
            Ok(()) => {},
            Err(e) => {
                return Err(e);
            },
        }
        let t2 = match lx.next() {
            Ok(t) => t,
            Err(e) => {
                return Err(e);
            },
        };
        match t2 {
            TokenG::ParR => {
                self.byte_codes.push(ByteCode::Call(ifunc as u8, iarg as u8));
                Ok(())
            },
            _ => Err(LuaError::Syntax(SyntaxFault::ExpectedParenRight)),
        }
    }

    /// The whole compilation unit: top-level dispatch on each leading
    /// token, emitting code statement by statement until the end sentinel.
    #[verifier::rlimit(60)]
    fn chunk(&mut self, lx: &mut Lexer) -> (r: Result<(), LuaError>)
        requires
            old(lx).wf(),
        ensures
            match r {
                Ok(()) => spec_chunk(old(lx)@, old(self)@) == Ok::<_, LuaError>(final(self)@),
                Err(e) => spec_chunk(old(lx)@, old(self)@) == Err::<ProtoV, LuaError>(e),
            },
    {
        loop
            invariant
                lx.wf(),
                spec_chunk(old(lx)@, old(self)@) == spec_chunk(lx@, self@),
            decreases lx@.toks.len(),
        {
            let ghost v = lx@;
            let ghost p = self@;
            let t = match lx.next() {
                Ok(t) => t,
                Err(e) => {
                    return Err(e);
                },
            };
            match t {
                TokenG::Name(name) => {
                    let ghost v1 = lx@;
                    let is_assign = match lx.peek() {
                        Ok(t2) => matches!(t2, TokenG::Assign),
                        Err(e) => {
                            return Err(e);
                        },
                    };
                    proof {
                        lemma_stream_next_len(v);
                        lemma_stream_next_len(v1);
                    }
                    if is_assign {
                        let ghost v2 = stream_next(v1)->Ok_0.1;
                        match self.load_assign(lx, name) {
                            Ok(()) => {
                                proof {
                                    lemma_load_assign_len(v2, p, name@);
                                }
                            },
                            Err(e) => {
                                return Err(e);
                            },
                        }
                    } else {
                        match self.function_call(lx, name) {
                            Ok(()) => {
                                proof {
                                    lemma_function_call_len(v1, p, name@);
                                }
                            },
                            Err(e) => {
                                return Err(e);
                            },
                        }
                    }
                },
                TokenG::Local => {
                    let ghost v1 = lx@;
                    match self.load_local(lx) {
                        Ok(()) => {
                            proof {
                                lemma_stream_next_len(v);
                                lemma_load_local_len(v1, p);
                            }
                        },
                        Err(e) => {
                            return Err(e);
                        },
                    }
                },
                TokenG::EOS => {
                    return Ok(());
                },
                _ => {},
            }
        }
    }

    /// Compiles the given source bytes into a program: the constant pool,
    /// instruction sequence, and locals table that `spec_compile` denotes.
    pub fn load(input: Vec<u8>) -> (r: Result<ParseProto, LuaError>)
        ensures
            match r {
                Ok(p) => spec_compile(input@) == Ok::<ProtoV, LuaError>(p@) && proto_wf(p@),
                Err(e) => spec_compile(input@) == Err::<ProtoV, LuaError>(e),
            },
    {
        let ghost src = input@;
        let mut lexer = Lexer::new(input);
        let mut proto = ParseProto {
            constants: Vec::new(),
            byte_codes: Vec::new(),
            locals: Vec::new(),
        };
        proof {
            assert(proto@.constants =~= empty_proto().constants);
            assert(proto@.locals =~= empty_proto().locals);
            assert(proto@ =~= empty_proto());
        }
        proof {
            lemma_compile_wf(src);
        }
        match proto.chunk(&mut lexer) {
            Ok(()) => Ok(proto),
            Err(e) => Err(e),
        }
    }
}


/// The stack slot an instruction writes, if any.
pub open spec fn write_slot(c: ByteCode) -> Option<int> {
    match c {
        ByteCode::GetGlobal(d, _) => Some(d as int),
        ByteCode::LoadConst(d, _) => Some(d as int),
        ByteCode::LoadInt(d, _) => Some(d as int),
        ByteCode::LoadBool(d, _) => Some(d as int),
        ByteCode::LoadNil(d) => Some(d as int),
        ByteCode::Move(d, _) => Some(d as int),
        ByteCode::SetGlobalConst(_, _) => None,
        ByteCode::SetGlobalGlobal(_, _) => None,
        ByteCode::SetGlobal(_, _) => None,
        ByteCode::Call(_, _) => None,
    }
}

/// The operand-stack length after the first `k` instructions, starting from
/// an empty stack: a write to the next free slot grows the stack by one, a
/// write below it overwrites in place.
pub open spec fn slen(codes: Seq<ByteCode>, k: int) -> int
    decreases k,
{
    if k <= 0 {
        0
    } else {
        let prev = slen(codes, k - 1);
        match write_slot(codes[k - 1]) {
            Some(d) => if d == prev {
                prev + 1
            } else {
                prev
            },
            None => prev,
        }
    }
}

/// One instruction's operands are sound against the pool `cs` and a stack
/// of length `n`: writes target at most the next free slot (the no-gap
/// invariant), reads stay inside the stack, pool indices stay inside the
/// pool, and every global key constant is a string.
pub open spec fn code_wf(c: ByteCode, cs: Seq<SpecValue>, n: int) -> bool {
    match c {
        ByteCode::GetGlobal(d, k) => d as int <= n && (k as int) < cs.len() && (cs[k as int]
            is Str),
        ByteCode::LoadConst(d, ci) => d as int <= n && (ci as int) < cs.len(),
        ByteCode::LoadInt(d, _) => d as int <= n,
        ByteCode::LoadBool(d, _) => d as int <= n,
        ByteCode::LoadNil(d) => d as int <= n,
        ByteCode::Move(d, src) => d as int <= n && (src as int) < n,
        ByteCode::SetGlobalConst(nk, vk) => (nk as int) < cs.len() && (cs[nk as int] is Str) && (
        vk as int) < cs.len(),
        ByteCode::SetGlobalGlobal(nk, ok) => (nk as int) < cs.len() && (cs[nk as int] is Str) && (
        ok as int) < cs.len() && (cs[ok as int] is Str),
        ByteCode::SetGlobal(nk, src) => (nk as int) < cs.len() && (cs[nk as int] is Str) && (
        src as int) < n,
        ByteCode::Call(f, a) => a as int == f as int + 1 && f as int + 2 <= n,
    }
}

/// Every instruction is sound at its own position's stack length.
pub open spec fn codes_wf(codes: Seq<ByteCode>, cs: Seq<SpecValue>) -> bool {
    forall|k: int| 0 <= k < codes.len() ==> code_wf(#[trigger] codes[k], cs, slen(codes, k))
}

/// A well-formed program: sound instructions over a deduplicated pool.
/// Compiler output always satisfies this.
pub open spec fn proto_wf(p: ProtoV) -> bool {
    codes_wf(p.byte_codes, p.constants) && pool_dedup(p.constants)
}

/// The stack length after the whole instruction sequence.
pub open spec fn final_slen(p: ProtoV) -> int {
    slen(p.byte_codes, p.byte_codes.len() as int)
}

/// The compiler's running invariant: the program so far is well formed and
/// the stack it builds covers every declared local's slot.
pub open spec fn building_wf(p: ProtoV) -> bool {
    proto_wf(p) && final_slen(p) >= p.locals.len()
}

/// `cs2` extends `cs` without disturbing existing entries.
pub open spec fn pool_extends(cs: Seq<SpecValue>, cs2: Seq<SpecValue>) -> bool {
    cs.len() <= cs2.len() && forall|j: int| 0 <= j < cs.len() ==> cs2[j] == cs[j]
}

/// Appending an instruction leaves the stack lengths of the prefix alone.
pub proof fn lemma_slen_push(codes: Seq<ByteCode>, c: ByteCode, k: int)
    requires
        0 <= k <= codes.len(),
    ensures
        slen(codes.push(c), k) == slen(codes, k),
    decreases k,
{
    if k >= 1 {
        lemma_slen_push(codes, c, k - 1);
    }
}

/// Instruction soundness survives extending the pool.
pub proof fn lemma_code_wf_extend(c: ByteCode, cs: Seq<SpecValue>, cs2: Seq<SpecValue>, n: int)
    requires
        code_wf(c, cs, n),
        pool_extends(cs, cs2),
    ensures
        code_wf(c, cs2, n),
{
}

/// A well-formed program stays well formed when its pool is extended.
pub proof fn lemma_building_extend(p: ProtoV, cs2: Seq<SpecValue>)
    requires
        building_wf(p),
        pool_extends(p.constants, cs2),
        pool_dedup(cs2),
    ensures
        building_wf(ProtoV { constants: cs2, ..p }),
{
    let p2 = ProtoV { constants: cs2, ..p };
    assert forall|k: int| 0 <= k < p2.byte_codes.len() implies code_wf(
        #[trigger] p2.byte_codes[k],
        cs2,
        slen(p2.byte_codes, k),
    ) by {
        lemma_code_wf_extend(p.byte_codes[k], p.constants, cs2, slen(p.byte_codes, k));
    }
}

/// Emitting one sound instruction keeps the program well formed; a write
/// leaves the stack covering the written slot.
pub proof fn lemma_push_code_wf(p: ProtoV, c: ByteCode)
    requires
        building_wf(p),
        code_wf(c, p.constants, final_slen(p)),
    ensures
        building_wf(push_code(p, c)),
        final_slen(push_code(p, c)) >= final_slen(p),
        write_slot(c) matches Some(d) ==> final_slen(push_code(p, c)) >= d + 1,
        write_slot(c) is None ==> final_slen(push_code(p, c)) == final_slen(p),
{
    let p2 = push_code(p, c);
    let codes2 = p.byte_codes.push(c);
    assert forall|k: int| 0 <= k < codes2.len() implies code_wf(
        #[trigger] codes2[k],
        p.constants,
        slen(codes2, k),
    ) by {
        lemma_slen_push(p.byte_codes, c, k);
        if k < p.byte_codes.len() {
            assert(codes2[k] == p.byte_codes[k]);
            assert(code_wf(p.byte_codes[k], p.constants, slen(p.byte_codes, k)));
        } else {
            assert(codes2[k] == c);
        }
    }
    lemma_slen_push(p.byte_codes, c, p.byte_codes.len() as int);
    assert(slen(codes2, codes2.len() as int) == slen(codes2, codes2.len() - 1 + 1));
}


/// Loading a name emits one sound instruction writing `dst` and keeps the
/// pool deduplicated and extended in place.
pub proof fn lemma_load_var_wf(p: ProtoV, dst: int, name: Seq<u8>)
    requires
        building_wf(p),
        0 <= dst <= 255,
        dst <= final_slen(p),
    ensures
        spec_load_var(p, dst, name) matches Ok((p2, code)) ==> {
            &&& building_wf(p2)
            &&& p2.locals == p.locals
            &&& p2.byte_codes == p.byte_codes
            &&& final_slen(p2) == final_slen(p)
            &&& pool_extends(p.constants, p2.constants)
            &&& code_wf(code, p2.constants, final_slen(p2))
            &&& write_slot(code) == Some(dst)
        },
{
    let li = spec_get_local(p.locals, name);
    if li >= 0 {
        lemma_rfind_local(p.locals, name, p.locals.len() - 1);
    } else {
        lemma_add_const(p.constants, ValueG::Str(name));
        let (cs, ic) = spec_add_const(p.constants, ValueG::Str(name));
        if ic <= 255 {
            lemma_building_extend(p, cs);
        }
    }
}

/// Compiling one expression keeps the program well formed; the stack it
/// builds covers the destination slot.
pub proof fn lemma_load_exp_wf(v: TokView, p: ProtoV, dst: int)
    requires
        building_wf(p),
        0 <= dst <= 255,
        dst <= final_slen(p),
    ensures
        spec_load_exp(v, p, dst) matches Ok((p2, v2)) ==> {
            &&& building_wf(p2)
            &&& p2.locals == p.locals
            &&& final_slen(p2) >= final_slen(p)
            &&& final_slen(p2) >= dst + 1
        },
{
    match stream_next(v) {
        Err(_) => {},
        Ok((t, v2)) => match t {
            TokenG::Integer(i) => {
                if -32768 <= i <= 32767 {
                    lemma_push_code_wf(p, ByteCode::LoadInt(dst as u8, i as i16));
                } else {
                    lemma_add_const(p.constants, ValueG::Integer(i));
                    let (cs, ic) = spec_add_const(p.constants, ValueG::Integer(i));
                    if ic <= 255 {
                        lemma_building_extend(p, cs);
                        lemma_push_code_wf(
                            ProtoV { constants: cs, ..p },
                            ByteCode::LoadConst(dst as u8, ic as u8),
                        );
                    }
                }
            },
            TokenG::True => {
                lemma_push_code_wf(p, ByteCode::LoadBool(dst as u8, true));
            },
            TokenG::False => {
                lemma_push_code_wf(p, ByteCode::LoadBool(dst as u8, false));
            },
            TokenG::Nil => {
                lemma_push_code_wf(p, ByteCode::LoadNil(dst as u8));
            },
            TokenG::Str(s) => {
                lemma_add_const(p.constants, ValueG::Str(s));
                let (cs, ic) = spec_add_const(p.constants, ValueG::Str(s));
                if ic <= 255 {
                    lemma_building_extend(p, cs);
                    lemma_push_code_wf(
                        ProtoV { constants: cs, ..p },
                        ByteCode::LoadConst(dst as u8, ic as u8),
                    );
                }
            },
            TokenG::Name(n) => {
                lemma_load_var_wf(p, dst, n);
                match spec_load_var(p, dst, n) {
                    Ok((p1, code)) => {
                        lemma_push_code_wf(p1, code);
                    },
                    Err(_) => {},
                }
            },
            _ => {},
        },
    }
}

/// A global store of a literal emits one sound instruction.
#[verifier::rlimit(100)]
#[verifier::spinoff_prover]
pub proof fn lemma_global_const_wf(p: ProtoV, nc: int, val: SpecValue, v2: TokView)
    requires
        building_wf(p),
        0 <= nc <= 255,
        nc < p.constants.len(),
        p.constants[nc] is Str,
    ensures
        spec_global_const(p, nc, val, v2) matches Ok((p2, v3)) ==> {
            &&& building_wf(p2)
            &&& p2.locals == p.locals
            &&& final_slen(p2) == final_slen(p)
        },
{
    lemma_add_const(p.constants, val);
    let (cs, ic) = spec_add_const(p.constants, val);
    if ic <= 255 {
        lemma_building_extend(p, cs);
        lemma_push_code_wf(
            ProtoV { constants: cs, ..p },
            ByteCode::SetGlobalConst(nc as u8, ic as u8),
        );
    }
}

/// Compiling an assignment keeps the program well formed and the locals
/// table unchanged.
pub proof fn lemma_load_assign_wf(v: TokView, p: ProtoV, name: Seq<u8>)
    requires
        building_wf(p),
    ensures
        spec_load_assign(v, p, name) matches Ok((p2, v2)) ==> building_wf(p2) && p2.locals
            == p.locals,
{
    let li = spec_get_local(p.locals, name);
    if li >= 0 {
        lemma_rfind_local(p.locals, name, p.locals.len() - 1);
        if li <= 255 {
            lemma_load_exp_wf(v, p, li);
        }
    } else {
        lemma_add_const(p.constants, ValueG::Str(name));
        let (cs1, nc) = spec_add_const(p.constants, ValueG::Str(name));
        if nc <= 255 {
            lemma_building_extend(p, cs1);
            let p1 = ProtoV { constants: cs1, ..p };
            match stream_next(v) {
                Err(_) => {},
                Ok((t, v2)) => match t {
                    TokenG::Nil => {
                        lemma_global_const_wf(p1, nc, ValueG::Nil, v2);
                    },
                    TokenG::True => {
                        lemma_global_const_wf(p1, nc, ValueG::Boolean(true), v2);
                    },
                    TokenG::False => {
                        lemma_global_const_wf(p1, nc, ValueG::Boolean(false), v2);
                    },
                    TokenG::Integer(i) => {
                        lemma_global_const_wf(p1, nc, ValueG::Integer(i), v2);
                    },
                    TokenG::Str(s) => {
                        lemma_global_const_wf(p1, nc, ValueG::Str(s), v2);
                    },
                    TokenG::Name(n2) => {
                        let li2 = spec_get_local(p1.locals, n2);
                        if li2 >= 0 {
                            lemma_rfind_local(p1.locals, n2, p1.locals.len() - 1);
                            if li2 <= 255 {
                                lemma_push_code_wf(p1, ByteCode::SetGlobal(nc as u8, li2 as u8));
                            }
                        } else {
                            lemma_add_const(p1.constants, ValueG::Str(n2));
                            let (cs2, nc2) = spec_add_const(p1.constants, ValueG::Str(n2));
                            if nc2 <= 255 {
                                lemma_building_extend(p1, cs2);
                                lemma_push_code_wf(
                                    ProtoV { constants: cs2, ..p1 },
                                    ByteCode::SetGlobalGlobal(nc as u8, nc2 as u8),
                                );
                            }
                        }
                    },
                    _ => {},
                },
            }
        }
    }
}

/// Compiling a local declaration keeps the program well formed: the stack
/// built by the initializer covers the newly assigned slot.
pub proof fn lemma_load_local_wf(v: TokView, p: ProtoV)
    requires
        building_wf(p),
    ensures
        spec_load_local(v, p) matches Ok((p2, v2)) ==> building_wf(p2) && p2.locals.len()
            == p.locals.len() + 1,
{
    match stream_next(v) {
        Err(_) => {},
        Ok((t, v1)) => match t {
            TokenG::Name(n) => {
                match stream_next(v1) {
                    Err(_) => {},
                    Ok((t2, v2)) => {
                        let dst = p.locals.len() as int;
                        if t2 is Assign && dst <= 255 {
                            lemma_load_exp_wf(v2, p, dst);
                        }
                    },
                }
            },
            _ => {},
        },
    }
}

/// Compiling a call statement keeps the program well formed: the callee and
/// argument writes cover the two scratch slots the call instruction reads.
pub proof fn lemma_function_call_wf(v: TokView, p: ProtoV, name: Seq<u8>)
    requires
        building_wf(p),
    ensures
        spec_function_call(v, p, name) matches Ok((p2, v2)) ==> building_wf(p2) && p2.locals
            == p.locals,
{
    let ifunc = p.locals.len() as int;
    let iarg = ifunc + 1;
    if iarg <= 255 {
        lemma_load_var_wf(p, ifunc, name);
        match spec_load_var(p, ifunc, name) {
            Err(_) => {},
            Ok((p1, code)) => {
                lemma_push_code_wf(p1, code);
                let p2 = push_code(p1, code);
                match stream_next(v) {
                    Err(_) => {},
                    Ok((t, v1)) => {
                        if t is ParL {
                            lemma_load_exp_wf(v1, p2, iarg);
                            match spec_load_exp(v1, p2, iarg) {
                                Err(_) => {},
                                Ok((p3, v2)) => {
                                    match stream_next(v2) {
                                        Err(_) => {},
                                        Ok((t2, v3)) => {
                                            if t2 is ParR {
                                                lemma_push_code_wf(
                                                    p3,
                                                    ByteCode::Call(ifunc as u8, iarg as u8),
                                                );
                                            }
                                        },
                                    }
                                },
                            }
                        }
                    },
                }
            },
        }
    }
}

/// Whatever well-formed program compilation starts from, what it produces
/// is well formed: every write the emitted code will make targets at most
/// the next free stack slot, every read stays inside the stack, and every
/// pool reference is valid.
pub proof fn lemma_chunk_wf(v: TokView, p: ProtoV)
    requires
        building_wf(p),
    ensures
        spec_chunk(v, p) matches Ok(p2) ==> building_wf(p2),
    decreases v.toks.len(),
{
    match stream_next(v) {
        Err(_) => {},
        Ok((t, v1)) => match t {
            TokenG::EOS => {},
            TokenG::Name(n) => match stream_next(v1) {
                Err(_) => {},
                Ok((t2, v2)) => {
                    if t2 is Assign {
                        lemma_load_assign_wf(v2, p, n);
                        match spec_load_assign(v2, p, n) {
                            Err(_) => {},
                            Ok((p2, v3)) => {
                                lemma_stream_next_len(v);
                                lemma_stream_next_len(v1);
                                lemma_load_assign_len(v2, p, n);
                                lemma_chunk_wf(v3, p2);
                            },
                        }
                    } else {
                        lemma_function_call_wf(v1, p, n);
                        match spec_function_call(v1, p, n) {
                            Err(_) => {},
                            Ok((p2, v3)) => {
                                lemma_stream_next_len(v);
                                lemma_function_call_len(v1, p, n);
                                lemma_chunk_wf(v3, p2);
                            },
                        }
                    }
                },
            },
            TokenG::Local => {
                lemma_load_local_wf(v1, p);
                match spec_load_local(v1, p) {
                    Err(_) => {},
                    Ok((p2, v3)) => {
                        lemma_stream_next_len(v);
                        lemma_load_local_len(v1, p);
                        lemma_chunk_wf(v3, p2);
                    },
                }
            },
            _ => {
                lemma_stream_next_len(v);
                lemma_chunk_wf(v1, p);
            },
        },
    }
}

/// Every program the compiler produces is well formed.
pub proof fn lemma_compile_wf(s: Seq<u8>)
    ensures
        spec_compile(s) matches Ok(p) ==> proto_wf(p),
{
    lemma_chunk_wf(crate::lexer::stream_from(s, 0), empty_proto());
}

} // verus!

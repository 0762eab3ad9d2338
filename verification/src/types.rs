//! The runtime value and environment model: value variants, mutable tables,
//! and the lexically scoped chain of environments.
//!
//! Scopes and object tables live in an arena ([`Interp`]) and are addressed
//! by stable handles, so closures and aliased objects can share ancestors
//! and backing storage without cyclic ownership. A scope's parent handle is
//! always smaller than its own, so the scope chain is acyclic and
//! resolution terminates. Mutation of an object table goes through the
//! arena's single `&mut` access, so at most one mutable access is in
//! flight at any instant.
//!
//! Numbers are carried as their exact numeric literal text; the core never
//! computes with them. Interpreting that text (as an IEEE double) is the
//! business of the host's native functions.

use vstd::prelude::*;

verus! {

/// The three literal keyword values.
#[derive(Clone, Copy, PartialEq, Eq, Structural, Debug)]
pub enum Literal {
    True,
    False,
    Nil,
}

/// The closed set of runtime type tags.
#[derive(Clone, Copy, PartialEq, Eq, Structural, Debug)]
pub enum Type {
    Number,
    String,
    Object,
    Literal,
    ForeignFunction,
    ForeignObject,
}

/// A runtime value. `Object` and the function variants are handles:
/// `Object` indexes the arena's table store, `ForeignFunction` names a
/// host-registered native function, and `Function` is reserved for
/// user-defined functions, which no syntax of this core produces.
pub enum Value {
    Nil,
    False,
    True,
    Number(std::string::String),
    Object(usize),
    String(std::string::String),
    Function(u32),
    ForeignFunction(u32),
    ForeignObject(u32),
}

/// Mathematical model of a runtime value.
pub ghost enum ValueModel {
    Nil,
    False,
    True,
    Number(Seq<char>),
    Object(int),
    String(Seq<char>),
    Function(u32),
    ForeignFunction(u32),
    ForeignObject(u32),
}

impl Value {
    /// The value as its mathematical model.
    pub open spec fn model(&self) -> ValueModel {
        match self {
            Value::Nil => ValueModel::Nil,
            Value::False => ValueModel::False,
            Value::True => ValueModel::True,
            Value::Number(t) => ValueModel::Number(t@),
            Value::Object(h) => ValueModel::Object(*h as int),
            Value::String(t) => ValueModel::String(t@),
            Value::Function(h) => ValueModel::Function(*h),
            Value::ForeignFunction(h) => ValueModel::ForeignFunction(*h),
            Value::ForeignObject(h) => ValueModel::ForeignObject(*h),
        }
    }

    /// True exactly on the callable variants: a user function handle or a
    /// host-registered native function.
    pub fn is_func(&self) -> (r: bool)
        ensures
            r == (self.model() is Function || self.model() is ForeignFunction),
    {
        match self {
            Value::Function(_) => true,
            Value::ForeignFunction(_) => true,
            _ => false,
        }
    }

    /// The numeric literal text held by a `Number`; `TypeMismatch` on every
    /// other variant.
    pub fn get_number(&self) -> (r: Result<std::string::String, EvalError>)
        ensures
            match r {
                Ok(t) => self.model() == ValueModel::Number(t@),
                Err(e) => !(self.model() is Number) && e.model() == EvalErrorModel::TypeMismatch,
            },
    {
        match self {
            Value::Number(t) => Ok(t.clone()),
            _ => Err(EvalError::TypeMismatch),
        }
    }

    /// The text held by a `String`; `TypeMismatch` on every other variant.
    pub fn get_string(&self) -> (r: Result<std::string::String, EvalError>)
        ensures
            match r {
                Ok(t) => self.model() == ValueModel::String(t@),
                Err(e) => !(self.model() is String) && e.model() == EvalErrorModel::TypeMismatch,
            },
    {
        match self {
            Value::String(t) => Ok(t.clone()),
            _ => Err(EvalError::TypeMismatch),
        }
    }

    /// The table handle held by an `Object`; `TypeMismatch` on every other
    /// variant.
    pub fn get_object(&self) -> (r: Result<usize, EvalError>)
        ensures
            match r {
                Ok(h) => self.model() == ValueModel::Object(h as int),
                Err(e) => !(self.model() is Object) && e.model() == EvalErrorModel::TypeMismatch,
            },
    {
        match self {
            Value::Object(h) => Ok(*h),
            _ => Err(EvalError::TypeMismatch),
        }
    }
}

impl Clone for Value {
    /// Clones are exact: the copy has the same model as the original.
    fn clone(&self) -> (r: Self)
        ensures
            r.model() == self.model(),
    {
        match self {
            Value::Nil => Value::Nil,
            Value::False => Value::False,
            Value::True => Value::True,
            Value::Number(t) => Value::Number(t.clone()),
            Value::Object(h) => Value::Object(*h),
            Value::String(t) => Value::String(t.clone()),
            Value::Function(h) => Value::Function(*h),
            Value::ForeignFunction(h) => Value::ForeignFunction(*h),
            Value::ForeignObject(h) => Value::ForeignObject(*h),
        }
    }
}

/// A typed evaluation error. Every failure during evaluation or native
/// argument access is one of these, propagated to the caller; the
/// interpreter never aborts the process.
#[derive(Debug)]
pub enum EvalError {
    UnboundName(std::string::String),
    NotCallable,
    ArityMismatch,
    TypeMismatch,
    IndexOutOfRange,
}

/// Mathematical model of an evaluation error.
pub ghost enum EvalErrorModel {
    UnboundName(Seq<char>),
    NotCallable,
    ArityMismatch,
    TypeMismatch,
    IndexOutOfRange,
}

impl EvalError {
    /// The error as its mathematical model.
    pub open spec fn model(&self) -> EvalErrorModel {
        match self {
            EvalError::UnboundName(n) => EvalErrorModel::UnboundName(n@),
            EvalError::NotCallable => EvalErrorModel::NotCallable,
            EvalError::ArityMismatch => EvalErrorModel::ArityMismatch,
            EvalError::TypeMismatch => EvalErrorModel::TypeMismatch,
            EvalError::IndexOutOfRange => EvalErrorModel::IndexOutOfRange,
        }
    }
}

/// A value-result as its mathematical model.
pub open spec fn value_result_model(r: Result<Value, EvalError>) -> Result<
    ValueModel,
    EvalErrorModel,
> {
    match r {
        Ok(v) => Ok(v.model()),
        Err(e) => Err(e.model()),
    }
}

/// A name-to-value table: an ordered list of bindings where the latest
/// binding for a name wins.
pub type Table = Vec<(std::string::String, Value)>;

/// The model of a table: its bindings in order.
pub open spec fn table_model(entries: Seq<(std::string::String, Value)>) -> Seq<
    (Seq<char>, ValueModel),
> {
    Seq::new(entries.len(), |i: int| (entries[i].0@, entries[i].1.model()))
}

/// The value bound to `name`, where the latest binding wins; `None` when
/// the name is unbound.
pub open spec fn spec_lookup(entries: Seq<(Seq<char>, ValueModel)>, name: Seq<char>) -> Option<
    ValueModel,
>
    decreases entries.len(),
{
    if entries.len() == 0 {
        None
    } else if entries.last().0 == name {
        Some(entries.last().1)
    } else {
        spec_lookup(entries.drop_last(), name)
    }
}

/// Look a name up in a table; the latest binding wins.
pub fn table_get(entries: &Table, name: &std::string::String) -> (r: Option<Value>)
    ensures
        match r {
            Some(v) => spec_lookup(table_model(entries@), name@) == Some(v.model()),
            None => spec_lookup(table_model(entries@), name@) is None,
        },
{
    let mut k = entries.len();
    proof {
        assert(table_model(entries@).take(k as int) =~= table_model(entries@));
    }
    loop
        invariant
            k <= entries.len(),
            spec_lookup(table_model(entries@), name@) == spec_lookup(
                table_model(entries@).take(k as int),
                name@,
            ),
        ensures
            k == 0,
            spec_lookup(table_model(entries@), name@) is None,
        decreases k,
    {
        if k == 0 {
            proof {
                assert(table_model(entries@).take(0) =~= Seq::empty());
            }
            break ;
        }
        let ghost pre = table_model(entries@).take(k as int);
        proof {
            assert(pre.last() == (entries@[k - 1].0@, entries@[k - 1].1.model()));
            assert(pre.drop_last() =~= table_model(entries@).take(k - 1));
        }
        if entries[k - 1].0 == *name {
            return Some(entries[k - 1].1.clone());
        }
        k -= 1;
    }
    proof {
        assert(table_model(entries@).take(entries@.len() as int) =~= table_model(entries@));
    }
    None
}

/// Bind `name` to `v` in a table: appends a binding that shadows any
/// earlier one for the same name.
pub fn table_put(entries: &mut Table, name: std::string::String, v: Value)
    ensures
        table_model(final(entries)@) == table_model(old(entries)@).push((name@, v.model())),
        spec_lookup(table_model(final(entries)@), name@) == Some(v.model()),
{
    let ghost gname = name@;
    let ghost gv = v.model();
    entries.push((name, v));
    proof {
        assert(table_model(entries@) =~= table_model(old(entries)@).push((gname, gv)));
        assert(table_model(entries@).last() == (gname, gv));
    }
}

/// One lexical scope: a local table of bindings and an optional parent
/// handle into the arena. The root scope has no parent.
pub struct Scope {
    pub local: Table,
    pub parent: Option<usize>,
}

/// Mathematical model of a scope.
pub ghost struct ScopeModel {
    pub local: Seq<(Seq<char>, ValueModel)>,
    pub parent: Option<int>,
}

impl Scope {
    /// The scope as its mathematical model.
    pub open spec fn model(&self) -> ScopeModel {
        ScopeModel {
            local: table_model(self.local@),
            parent: match self.parent {
                Some(p) => Some(p as int),
                None => None,
            },
        }
    }
}

/// The interpreter arena: all scopes and all object tables, addressed by
/// handle. Holding them in one place gives shared ancestry without cycles
/// and confines table mutation to a single `&mut` access at a time.
pub struct Interp {
    pub scopes: Vec<Scope>,
    pub objects: Vec<Table>,
}

/// Mathematical model of the arena.
pub ghost struct InterpModel {
    pub scopes: Seq<ScopeModel>,
    pub objects: Seq<Seq<(Seq<char>, ValueModel)>>,
}

impl InterpModel {
    /// Scope-chain well-formedness: every parent handle points at an
    /// earlier scope, so chains are acyclic and resolution terminates.
    pub open spec fn wf(&self) -> bool {
        forall|i: int|
            0 <= i < self.scopes.len() ==> match #[trigger] self.scopes[i].parent {
                Some(p) => 0 <= p < i,
                None => true,
            }
    }
}

impl Interp {
    /// The arena as its mathematical model.
    pub open spec fn model(&self) -> InterpModel {
        InterpModel {
            scopes: Seq::new(self.scopes@.len(), |i: int| self.scopes@[i].model()),
            objects: Seq::new(self.objects@.len(), |i: int| table_model(self.objects@[i]@)),
        }
    }

    /// Scope-chain well-formedness of the arena.
    pub open spec fn wf(&self) -> bool {
        self.model().wf()
    }
}

/// Resolution of `name` starting at `scope`: the local table first, then
/// the parent chain outward; unbound names fail with `UnboundName`.
pub open spec fn spec_resolve(m: InterpModel, scope: int, name: Seq<char>) -> Result<
    ValueModel,
    EvalErrorModel,
>
    decreases scope when m.wf() && 0 <= scope < m.scopes.len()
{
    match spec_lookup(m.scopes[scope].local, name) {
        Some(v) => Ok(v),
        None => match m.scopes[scope].parent {
            Some(p) => spec_resolve(m, p, name),
            None => Err(EvalErrorModel::UnboundName(name)),
        },
    }
}

/// True when `name` is bound somewhere in the scope chain starting at
/// `scope`.
pub open spec fn spec_bound_in_chain(m: InterpModel, scope: int, name: Seq<char>) -> bool
    decreases scope when m.wf() && 0 <= scope < m.scopes.len()
{
    spec_lookup(m.scopes[scope].local, name) is Some || match m.scopes[scope].parent {
        Some(p) => spec_bound_in_chain(m, p, name),
        None => false,
    }
}

/// Resolve `name` against the scope chain starting at `scope`.
pub fn resolve(env: &Interp, scope: usize, name: &std::string::String) -> (r: Result<
    Value,
    EvalError,
>)
    requires
        env.wf(),
        scope < env.scopes@.len(),
    ensures
        value_result_model(r) == spec_resolve(env.model(), scope as int, name@),
{
    let mut cur = scope;
    loop
        invariant
            env.wf(),
            cur < env.scopes@.len(),
            spec_resolve(env.model(), scope as int, name@) == spec_resolve(
                env.model(),
                cur as int,
                name@,
            ),
        decreases cur,
    {
        match table_get(&env.scopes[cur].local, name) {
            Some(v) => {
                return Ok(v);
            },
            None => {
                match env.scopes[cur].parent {
                    Some(p) => {
                        cur = p;
                    },
                    None => {
                        return Err(EvalError::UnboundName(name.clone()));
                    },
                }
            },
        }
    }
}

/// Law: a name never bound anywhere in the active scope chain always
/// resolves to `UnboundName` carrying that very name — never to a silent
/// `Nil` or any other value.
pub proof fn lemma_unbound_resolves_to_error(m: InterpModel, scope: int, name: Seq<char>)
    requires
        m.wf(),
        0 <= scope < m.scopes.len(),
        !spec_bound_in_chain(m, scope, name),
    ensures
        spec_resolve(m, scope, name) == Err::<ValueModel, EvalErrorModel>(
            EvalErrorModel::UnboundName(name),
        ),
    decreases scope,
{
    match m.scopes[scope].parent {
        Some(p) => {
            lemma_unbound_resolves_to_error(m, p, name);
        },
        None => {
        },
    }
}

/// Law: a name bound in the local table of a scope resolves, in that very
/// scope, to the locally bound value — local bindings shadow ancestors.
pub proof fn lemma_local_binding_resolves(m: InterpModel, scope: int, name: Seq<char>, v: ValueModel)
    requires
        m.wf(),
        0 <= scope < m.scopes.len(),
        spec_lookup(m.scopes[scope].local, name) == Some(v),
    ensures
        spec_resolve(m, scope, name) == Ok::<ValueModel, EvalErrorModel>(v),
{
}

} // verus!

verus! {

/// The literal keyword as its runtime value.
pub open spec fn lit_value(l: Literal) -> ValueModel {
    match l {
        Literal::True => ValueModel::True,
        Literal::False => ValueModel::False,
        Literal::Nil => ValueModel::Nil,
    }
}

/// A call frame: the callee's scope handle, the positional argument stack
/// (slot 0 is the callable itself; user-visible arguments start at 1), and
/// the single return slot the callee overwrites.
pub struct FunctionEnv {
    pub scope: usize,
    pub stack: Vec<Value>,
    pub retval: Value,
}

/// Mathematical model of a call frame.
pub ghost struct FunctionEnvModel {
    pub scope: int,
    pub stack: Seq<ValueModel>,
    pub retval: ValueModel,
}

impl FunctionEnv {
    /// The frame as its mathematical model.
    pub open spec fn model(&self) -> FunctionEnvModel {
        FunctionEnvModel {
            scope: self.scope as int,
            stack: Seq::new(self.stack@.len(), |i: int| self.stack@[i].model()),
            retval: self.retval.model(),
        }
    }
}

/// Create a fresh scope with an empty local table whose parent is
/// `parent` — one per function call.
pub fn child_scope(env: &mut Interp, parent: usize) -> (r: usize)
    requires
        old(env).wf(),
        parent < old(env).scopes@.len(),
    ensures
        final(env).wf(),
        r == old(env).scopes@.len(),
        final(env).model().scopes == old(env).model().scopes.push(
            ScopeModel { local: Seq::empty(), parent: Some(parent as int) },
        ),
        final(env).model().objects == old(env).model().objects,
{
    let r = env.scopes.len();
    env.scopes.push(Scope { local: Vec::new(), parent: Some(parent) });
    proof {
        assert(table_model(Seq::empty()) =~= Seq::<(Seq<char>, ValueModel)>::empty());
        assert(final(env).model().scopes =~= old(env).model().scopes.push(
            ScopeModel { local: Seq::empty(), parent: Some(parent as int) },
        ));
        assert(final(env).model().objects =~= old(env).model().objects);
    }
    r
}

/// Create a fresh, empty object table and return its handle.
pub fn new_object(env: &mut Interp) -> (r: usize)
    requires
        old(env).wf(),
    ensures
        final(env).wf(),
        r == old(env).objects@.len(),
        final(env).model().objects == old(env).model().objects.push(
            Seq::<(Seq<char>, ValueModel)>::empty(),
        ),
        final(env).model().scopes == old(env).model().scopes,
{
    let r = env.objects.len();
    env.objects.push(Vec::new());
    proof {
        assert(table_model(Seq::empty()) =~= Seq::<(Seq<char>, ValueModel)>::empty());
        assert(final(env).model().objects =~= old(env).model().objects.push(
            Seq::<(Seq<char>, ValueModel)>::empty(),
        ));
        assert(final(env).model().scopes =~= old(env).model().scopes);
    }
    r
}

/// Read `key` from the object table at `handle`; an absent key reads as
/// `Nil`, an invalid handle is `IndexOutOfRange`.
pub fn obj_get(env: &Interp, handle: usize, key: &std::string::String) -> (r: Result<
    Value,
    EvalError,
>)
    ensures
        match r {
            Ok(v) => handle < env.objects@.len() && Some(v.model()) == (
            match spec_lookup(env.model().objects[handle as int], key@) {
                Some(w) => Some(w),
                None => Some(ValueModel::Nil),
            }),
            Err(e) => handle >= env.objects@.len() && e.model()
                == EvalErrorModel::IndexOutOfRange,
        },
{
    if handle >= env.objects.len() {
        return Err(EvalError::IndexOutOfRange);
    }
    match table_get(&env.objects[handle], key) {
        Some(v) => Ok(v),
        None => Ok(Value::Nil),
    }
}

/// The `index`-th entry of the object table at `handle`, for iteration;
/// `IndexOutOfRange` on an invalid handle or position.
pub fn obj_at(env: &Interp, handle: usize, index: usize) -> (r: Result<
    (std::string::String, Value),
    EvalError,
>)
    ensures
        match r {
            Ok(e) => handle < env.objects@.len() && index < env.model().objects[
                handle as int
            ].len() && (e.0@, e.1.model()) == env.model().objects[handle as int][index as int],
            Err(e) => (handle >= env.objects@.len() || index >= env.model().objects[
                handle as int
            ].len()) && e.model() == EvalErrorModel::IndexOutOfRange,
        },
{
    if handle >= env.objects.len() {
        return Err(EvalError::IndexOutOfRange);
    }
    let t = &env.objects[handle];
    if index >= t.len() {
        return Err(EvalError::IndexOutOfRange);
    }
    let entry = &t[index];
    Ok((entry.0.clone(), entry.1.clone()))
}

impl Value {
    /// Write `key` to the object table this value refers to; mutation is
    /// visible through every alias of the handle, the table keeps one
    /// entry per key (an existing binding is overwritten in place), so
    /// iteration never sees a stale shadowed entry. `TypeMismatch`
    /// unless the value is an `Object`, `IndexOutOfRange` on a stale
    /// handle.
    pub fn put(&self, env: &mut Interp, key: std::string::String, value: Value) -> (r: Result<
        (),
        EvalError,
    >)
        requires
            old(env).wf(),
        ensures
            final(env).wf(),
            final(env).model().scopes == old(env).model().scopes,
            match self.model() {
                ValueModel::Object(h) => {
                    if 0 <= h < old(env).objects@.len() {
                        &&& r is Ok
                        &&& final(env).model().objects == old(env).model().objects.update(
                            h,
                            spec_set(old(env).model().objects[h], key@, value.model()),
                        )
                    } else {
                        &&& r matches Err(e) && e.model() == EvalErrorModel::IndexOutOfRange
                        &&& final(env).model() == old(env).model()
                    }
                },
                _ => {
                    &&& r matches Err(e) && e.model() == EvalErrorModel::TypeMismatch
                    &&& final(env).model() == old(env).model()
                },
            },
    {
        let h = match self {
            Value::Object(h) => *h,
            _ => {
                return Err(EvalError::TypeMismatch);
            },
        };
        if h >= env.objects.len() {
            return Err(EvalError::IndexOutOfRange);
        }
        table_set(&mut env.objects[h], key, value);
        proof {
            assert(final(env).model().scopes =~= old(env).model().scopes);
            assert(final(env).model().objects =~= old(env).model().objects.update(
                h as int,
                spec_set(old(env).model().objects[h as int], key@, value.model()),
            ));
        }
        Ok(())
    }
}

} // verus!

verus! {

/// The index of the latest binding for `name`, or -1 when the name is
/// unbound.
pub open spec fn spec_find_last(entries: Seq<(Seq<char>, ValueModel)>, name: Seq<char>) -> int
    decreases entries.len(),
{
    if entries.len() == 0 {
        -1
    } else if entries.last().0 == name {
        entries.len() - 1
    } else {
        spec_find_last(entries.drop_last(), name)
    }
}

/// A table after writing `name` to `v` with one entry per key: the
/// latest binding for `name` is overwritten in place, or a new binding
/// is appended when the name is unbound.
pub open spec fn spec_set(
    entries: Seq<(Seq<char>, ValueModel)>,
    name: Seq<char>,
    v: ValueModel,
) -> Seq<(Seq<char>, ValueModel)> {
    let i = spec_find_last(entries, name);
    if i >= 0 {
        entries.update(i, (name, v))
    } else {
        entries.push((name, v))
    }
}

proof fn lemma_find_last_bounds(entries: Seq<(Seq<char>, ValueModel)>, name: Seq<char>)
    ensures
        spec_find_last(entries, name) == -1 || 0 <= spec_find_last(entries, name) < entries.len(),
        spec_find_last(entries, name) >= 0 ==> entries[spec_find_last(entries, name)].0 == name,
        spec_find_last(entries, name) >= 0 <==> spec_lookup(entries, name) is Some,
        spec_find_last(entries, name) >= 0 ==> spec_lookup(entries, name) == Some(
            entries[spec_find_last(entries, name)].1,
        ),
    decreases entries.len(),
{
    if entries.len() > 0 && entries.last().0 != name {
        lemma_find_last_bounds(entries.drop_last(), name);
    }
}

/// Law: after writing `name` to `v`, `name` reads as `v` and every other
/// name reads as before.
pub proof fn lemma_set_lookup(
    entries: Seq<(Seq<char>, ValueModel)>,
    name: Seq<char>,
    v: ValueModel,
    other: Seq<char>,
)
    ensures
        spec_lookup(spec_set(entries, name, v), name) == Some(v),
        other != name ==> spec_lookup(spec_set(entries, name, v), other) == spec_lookup(
            entries,
            other,
        ),
    decreases entries.len(),
{
    lemma_find_last_bounds(entries, name);
    let i = spec_find_last(entries, name);
    if i >= 0 {
        if i == entries.len() - 1 {
            assert(spec_set(entries, name, v).drop_last() =~= entries.drop_last());
        } else {
            lemma_set_lookup(entries.drop_last(), name, v, other);
            assert(spec_set(entries, name, v).last() == entries.last());
            assert(spec_set(entries, name, v).drop_last() =~= spec_set(
                entries.drop_last(),
                name,
                v,
            ));
        }
    } else {
        assert(spec_set(entries, name, v).drop_last() =~= entries);
    }
}

/// Write `name` to `v` in a table keeping one entry per key: the latest
/// binding for `name` is overwritten in place, or a new binding is
/// appended when the name is unbound.
#[verifier::loop_isolation(false)]
pub fn table_set(entries: &mut Table, name: std::string::String, v: Value)
    ensures
        table_model(final(entries)@) == spec_set(table_model(old(entries)@), name@, v.model()),
{
    let ghost m0 = table_model(entries@);
    let ghost gname = name@;
    let ghost gv = v.model();
    let mut k = entries.len();
    proof {
        assert(m0.take(k as int) =~= m0);
    }
    while k > 0
        invariant
            k <= entries.len(),
            m0 == table_model(entries@),
            spec_find_last(m0, name@) == spec_find_last(m0.take(k as int), name@),
        decreases k,
    {
        let ghost pre = m0.take(k as int);
        proof {
            assert(pre.last() == (entries@[k - 1].0@, entries@[k - 1].1.model()));
            assert(pre.drop_last() =~= m0.take(k - 1));
        }
        if entries[k - 1].0 == name {
            let idx = k - 1;
            proof {
                assert(pre.len() == k);
                assert(pre.last().0 == gname);
                assert(spec_find_last(pre, gname) == k - 1);
                assert(spec_find_last(m0, gname) == idx as int);
            }
            entries[idx] = (name, v);
            proof {
                assert(table_model(entries@) =~= m0.update(idx as int, (gname, gv)));
            }
            return ;
        }
        k -= 1;
    }
    proof {
        assert(m0.take(0) =~= Seq::<(Seq<char>, ValueModel)>::empty());
        assert(spec_find_last(m0, gname) == -1);
    }
    entries.push((name, v));
    proof {
        assert(table_model(entries@) =~= m0.push((gname, gv)));
    }
}

} // verus!

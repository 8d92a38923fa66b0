//! Type environments and the errors of type inference.

use vstd::prelude::*;
use vstd::std_specs::convert::FromSpecImpl;
use crate::text::{push_str, str_to_string};
use crate::typechecker::traits::BoundError;
use crate::typechecker::types::{
    FunctionType, NovaType, Ty, TypeScheme, TypeVar, ids, model_fields, model_seq, var_list, var_list_fields,
    var_list_seq,
};
use crate::typechecker::unify::UnifyError;

verus! {

// ── Type environment ─────────────────────────────────────────────────────────

/// The model of a type scheme: its quantified variables and its body.
pub open spec fn scheme_model(s: TypeScheme) -> (Seq<u32>, Ty) {
    (ids(s.quantified@), s.body.model())
}

/// A scope's bindings in order; a later binding of a name shadows an earlier one.
pub open spec fn scope_model(v: Seq<(String, TypeScheme)>) -> Seq<(Seq<char>, (Seq<u32>, Ty))> {
    Seq::new(v.len(), |i: int| (v[i].0@, scheme_model(v[i].1)))
}

/// The latest binding of `name` in one scope.
pub open spec fn scope_find(s: Seq<(Seq<char>, (Seq<u32>, Ty))>, name: Seq<char>) -> Option<(Seq<u32>, Ty)>
    decreases s.len(),
{
    if s.len() == 0 {
        None
    } else if s.last().0 == name {
        Some(s.last().1)
    } else {
        scope_find(s.drop_last(), name)
    }
}

/// The binding of `name` seen from the innermost scope outwards.
pub open spec fn env_find(scopes: Seq<Seq<(Seq<char>, (Seq<u32>, Ty))>>, name: Seq<char>) -> Option<(Seq<u32>, Ty)>
    decreases scopes.len(),
{
    if scopes.len() == 0 {
        None
    } else {
        match scope_find(scopes.last(), name) {
            Some(s) => Some(s),
            None => env_find(scopes.drop_last(), name),
        }
    }
}

/// Scope shadowing: in an environment with a newly opened innermost scope
/// that binds `name` to `b` (what `push_scope` then `bind_scheme` give),
/// `name` is found with `b` whatever the outer scopes bind it to, and every
/// other name is found as before; closing that scope again (`pop_scope`)
/// gives back the environment as it was.
pub proof fn lemma_inner_scope_shadows(
    env: Seq<Seq<(Seq<char>, (Seq<u32>, Ty))>>,
    name: Seq<char>,
    b: (Seq<u32>, Ty),
    other: Seq<char>,
)
    requires
        other != name,
    ensures
        env_find(env.push(Seq::empty().push((name, b))), name) == Some(b),
        env_find(env.push(Seq::empty().push((name, b))), other) == env_find(env, other),
        env.push(Seq::empty().push((name, b))).drop_last() == env,
{
    let inner = Seq::<(Seq<char>, (Seq<u32>, Ty))>::empty().push((name, b));
    let e2 = env.push(inner);
    assert(e2.last() == inner);
    assert(e2.drop_last() =~= env);
    assert(inner.drop_last() =~= Seq::<(Seq<char>, (Seq<u32>, Ty))>::empty());
    assert(scope_find(inner, other) == scope_find(inner.drop_last(), other));
}

/// An operation on a type environment, as its model sees it: `push_scope`,
/// `pop_scope`, and `bind` or `bind_scheme` of a name to a scheme.
pub enum EnvOp {
    Push,
    Pop,
    Bind(Seq<char>, (Seq<u32>, Ty)),
}

/// The environment after one operation.
pub open spec fn env_step(m: Seq<Seq<(Seq<char>, (Seq<u32>, Ty))>>, op: EnvOp) -> Seq<Seq<(Seq<char>, (Seq<u32>, Ty))>> {
    match op {
        EnvOp::Push => m.push(Seq::empty()),
        EnvOp::Pop => if m.len() > 1 { m.drop_last() } else { m },
        EnvOp::Bind(n, b) => m.update(m.len() - 1, m.last().push((n, b))),
    }
}

/// The environment after the operations in turn.
pub open spec fn env_run(m: Seq<Seq<(Seq<char>, (Seq<u32>, Ty))>>, ops: Seq<EnvOp>) -> Seq<Seq<(Seq<char>, (Seq<u32>, Ty))>>
    decreases ops.len(),
{
    if ops.len() == 0 { m } else { env_step(env_run(m, ops.drop_last()), ops.last()) }
}

/// Scopes opened less scopes closed by the operations.
pub open spec fn rel_depth(ops: Seq<EnvOp>) -> int
    decreases ops.len(),
{
    if ops.len() == 0 {
        0
    } else {
        rel_depth(ops.drop_last()) + match ops.last() {
            EnvOp::Push => 1int,
            EnvOp::Pop => -1int,
            EnvOp::Bind(_, _) => 0int,
        }
    }
}

/// Operations that never close more scopes than they opened keep the
/// environment they started from below the scopes they work in.
proof fn lemma_run_keeps_outer(m: Seq<Seq<(Seq<char>, (Seq<u32>, Ty))>>, ops: Seq<EnvOp>)
    requires
        m.len() >= 2,
        forall|k: int| 0 <= k <= ops.len() ==> rel_depth(#[trigger] ops.take(k)) >= 0,
    ensures
        env_run(m, ops).len() == m.len() + rel_depth(ops),
        env_run(m, ops).take(m.len() - 1) == m.take(m.len() - 1),
    decreases ops.len(),
{
    if ops.len() > 0 {
        let p = ops.drop_last();
        assert forall|k: int| 0 <= k <= p.len() implies rel_depth(#[trigger] p.take(k)) >= 0 by {
            assert(p.take(k) =~= ops.take(k));
        }
        lemma_run_keeps_outer(m, p);
        assert(ops.take(ops.len() as int) =~= ops);
        assert(ops.take(p.len() as int) =~= p);
        let e = env_run(m, p);
        assert(env_step(e, ops.last()).take(m.len() - 1) =~= e.take(m.len() - 1));
    } else {
        assert(ops.take(0) =~= ops);
    }
}

/// Closing a scope gives back the environment from before it was opened:
/// after `push_scope`, any operations that close no more scopes than they
/// open (so every lookup meanwhile sees the new scope first) and `pop_scope`,
/// the environment, and so every lookup, is as it was.
pub proof fn lemma_scope_closes(m: Seq<Seq<(Seq<char>, (Seq<u32>, Ty))>>, ops: Seq<EnvOp>)
    requires
        m.len() >= 1,
        forall|k: int| 0 <= k <= ops.len() ==> rel_depth(#[trigger] ops.take(k)) >= 0,
        rel_depth(ops) == 0,
    ensures
        env_step(env_run(env_step(m, EnvOp::Push), ops), EnvOp::Pop) == m,
{
    let m1 = env_step(m, EnvOp::Push);
    lemma_run_keeps_outer(m1, ops);
    let e = env_run(m1, ops);
    assert(m1.take(m1.len() - 1) =~= m);
    assert(e.drop_last() =~= e.take(m1.len() - 1));
}

/// The number of scopes after the operations, from the single scope of a
/// new environment; the outermost scope is never closed.
pub open spec fn depth(ops: Seq<EnvOp>) -> nat
    decreases ops.len(),
{
    if ops.len() == 0 {
        1
    } else {
        let d = depth(ops.drop_last());
        match ops.last() {
            EnvOp::Push => d + 1,
            EnvOp::Pop => if d > 1 { (d - 1) as nat } else { d },
            EnvOp::Bind(_, _) => d,
        }
    }
}

/// The operation at `j` is still in force after all the operations: no scope
/// it was made in has been closed since.
pub open spec fn bind_open(ops: Seq<EnvOp>, j: int) -> bool {
    forall|k: int| j < k <= ops.len() ==> depth(#[trigger] ops.take(k)) >= depth(ops.take(j + 1))
}

/// The scheme of the latest of the first `m` operations that binds `name` and
/// is still in force after all the operations, if any.
pub open spec fn latest_open_bind(ops: Seq<EnvOp>, name: Seq<char>, m: int) -> Option<(Seq<u32>, Ty)>
    decreases m,
{
    if m <= 0 || m > ops.len() {
        None
    } else {
        match ops[m - 1] {
            EnvOp::Bind(x, b) => if x == name && bind_open(ops, m - 1) {
                Some(b)
            } else {
                latest_open_bind(ops, name, m - 1)
            },
            _ => latest_open_bind(ops, name, m - 1),
        }
    }
}

/// `latest_open_bind` among the binds made in the outermost `i` scopes.
spec fn latest_in(ops: Seq<EnvOp>, name: Seq<char>, m: int, i: int) -> Option<(Seq<u32>, Ty)>
    decreases m,
{
    if m <= 0 || m > ops.len() {
        None
    } else {
        match ops[m - 1] {
            EnvOp::Bind(x, b) => if x == name && bind_open(ops, m - 1) && depth(ops.take(m)) <= i {
                Some(b)
            } else {
                latest_in(ops, name, m - 1, i)
            },
            _ => latest_in(ops, name, m - 1, i),
        }
    }
}

/// There is always at least one scope.
proof fn lemma_depth_pos(ops: Seq<EnvOp>)
    ensures
        depth(ops) >= 1,
    decreases ops.len(),
{
    if ops.len() > 0 {
        lemma_depth_pos(ops.drop_last());
    }
}

/// One more operation keeps an earlier bind in force just when it was and the
/// new depth still reaches its scope.
proof fn lemma_open_push(ops: Seq<EnvOp>, op: EnvOp, j: int)
    requires
        0 <= j < ops.len(),
    ensures
        bind_open(ops.push(op), j) == (bind_open(ops, j) && depth(ops.push(op)) >= depth(ops.take(j + 1))),
{
    let o2 = ops.push(op);
    assert(o2.take(j + 1) =~= ops.take(j + 1));
    assert(o2.take(o2.len() as int) =~= o2);
    assert(o2.drop_last() =~= ops);
    if bind_open(o2, j) {
        assert forall|k: int| j < k <= ops.len() implies depth(#[trigger] ops.take(k)) >= depth(ops.take(j + 1)) by {
            assert(o2.take(k) =~= ops.take(k));
        }
    }
    if bind_open(ops, j) && depth(o2) >= depth(ops.take(j + 1)) {
        assert forall|k: int| j < k <= o2.len() implies depth(#[trigger] o2.take(k)) >= depth(o2.take(j + 1)) by {
            if k <= ops.len() {
                assert(o2.take(k) =~= ops.take(k));
            }
        }
    }
}

/// A bind in force was made in one of the scopes still open.
proof fn lemma_open_depth(ops: Seq<EnvOp>, j: int)
    requires
        0 <= j < ops.len(),
        bind_open(ops, j),
    ensures
        depth(ops.take(j + 1)) <= depth(ops),
{
    assert(ops.take(ops.len() as int) =~= ops);
}

/// `latest_in` after one more operation, over the first `m` operations, when
/// the binds it may pick stay in force alike.
proof fn lemma_latest_in_push(ops: Seq<EnvOp>, op: EnvOp, name: Seq<char>, m: int, i: int)
    requires
        0 <= m <= ops.len(),
        forall|j: int| 0 <= j < m && (ops[j] is Bind) && depth(#[trigger] ops.take(j + 1)) <= i
            ==> bind_open(ops.push(op), j) == bind_open(ops, j),
    ensures
        latest_in(ops.push(op), name, m, i) == latest_in(ops, name, m, i),
    decreases m,
{
    if m > 0 {
        let o2 = ops.push(op);
        assert(o2[m - 1] == ops[m - 1]);
        assert(o2.take(m) =~= ops.take(m));
        lemma_latest_in_push(ops, op, name, m - 1, i);
    }
}

/// Among the binds in force, every scope counts.
proof fn lemma_latest_all(ops: Seq<EnvOp>, name: Seq<char>, m: int, i: int)
    requires
        0 <= m <= ops.len(),
        i >= depth(ops),
    ensures
        latest_in(ops, name, m, i) == latest_open_bind(ops, name, m),
    decreases m,
{
    if m > 0 {
        if bind_open(ops, m - 1) {
            lemma_open_depth(ops, m - 1);
        }
        lemma_latest_all(ops, name, m - 1, i);
    }
}

/// The environment after a history of operations from a new one: its scopes
/// are as deep as the history says, and looking a name up in its outermost
/// `i` scopes finds the latest bind in force made in one of them.
proof fn lemma_env_history(ops: Seq<EnvOp>)
    ensures
        env_run(seq![Seq::<(Seq<char>, (Seq<u32>, Ty))>::empty()], ops).len() == depth(ops),
        forall|i: int, y: Seq<char>| 0 <= i <= depth(ops) ==>
            #[trigger] env_find(env_run(seq![Seq::<(Seq<char>, (Seq<u32>, Ty))>::empty()], ops).take(i), y)
            == latest_in(ops, y, ops.len() as int, i),
    decreases ops.len(),
{
    let m0 = seq![Seq::<(Seq<char>, (Seq<u32>, Ty))>::empty()];
    let n = ops.len() as int;
    lemma_depth_pos(ops);
    if n == 0 {
        assert(env_run(m0, ops) == m0);
        assert forall|i: int, y: Seq<char>| 0 <= i <= depth(ops) implies
            #[trigger] env_find(env_run(m0, ops).take(i), y) == latest_in(ops, y, n, i) by {
            assert(scope_find(Seq::<(Seq<char>, (Seq<u32>, Ty))>::empty(), y) is None);
            if i == 1 {
                assert(m0.take(1) =~= m0);
                assert(m0.drop_last() =~= Seq::<Seq<(Seq<char>, (Seq<u32>, Ty))>>::empty());
                assert(m0.last() == Seq::<(Seq<char>, (Seq<u32>, Ty))>::empty());
                assert(env_find(Seq::<Seq<(Seq<char>, (Seq<u32>, Ty))>>::empty(), y) is None);
                assert(env_find(m0, y) is None);
            } else {
                assert(m0.take(0) =~= Seq::<Seq<(Seq<char>, (Seq<u32>, Ty))>>::empty());
            }
        }
    } else {
        let p = ops.drop_last();
        let op = ops.last();
        lemma_env_history(p);
        assert(ops =~= p.push(op));
        let e = env_run(m0, p);
        let e2 = env_run(m0, ops);
        let d = depth(p);
        lemma_depth_pos(p);
        assert(e2 == env_step(e, op));
        assert(e2.len() == depth(ops));
        assert(p.take(n - 1) =~= p);
        assert(e.take(d as int) =~= e);
        // binds in force before stay in force, as far as the new depth reaches
        assert forall|j: int| 0 <= j < n - 1 implies bind_open(ops, j) == (bind_open(p, j) && depth(ops) >= depth(p.take(j + 1))) by {
            lemma_open_push(p, op, j);
        }
        assert forall|i: int, y: Seq<char>| 0 <= i <= depth(ops) implies
            #[trigger] env_find(e2.take(i), y) == latest_in(ops, y, n, i) by {
            assert(latest_in(ops, y, n, i) == match op {
                EnvOp::Bind(x, b) => if x == y && bind_open(ops, n - 1) && depth(ops.take(n)) <= i {
                    Some(b)
                } else {
                    latest_in(ops, y, n - 1, i)
                },
                _ => latest_in(ops, y, n - 1, i),
            });
            assert(ops.take(n) =~= ops);
            let ilim = if i <= d { i } else { d as int };
            assert forall|j: int| 0 <= j < n - 1 && (p[j] is Bind) && depth(#[trigger] p.take(j + 1)) <= ilim
                implies bind_open(ops, j) == bind_open(p, j) by {
                if bind_open(p, j) {
                    lemma_open_depth(p, j);
                }
            }
            lemma_latest_in_push(p, op, y, n - 1, ilim);
            match op {
                EnvOp::Push => {
                    if i <= d {
                        assert(e2.take(i) =~= e.take(i));
                        assert(env_find(e2.take(i), y) == latest_in(p, y, n - 1, i));
                        assert(latest_in(ops, y, n, i) == latest_in(p, y, n - 1, i));
                    } else {
                        assert(e2.take(i) =~= e2);
                        assert(e2.drop_last() =~= e);
                        assert(scope_find(e2.last(), y) is None);
                        assert(env_find(e2, y) == env_find(e, y));
                        lemma_latest_all(p, y, n - 1, d as int);
                        assert forall|j: int| 0 <= j < n - 1 && (p[j] is Bind) && depth(#[trigger] p.take(j + 1)) <= i
                            implies bind_open(ops, j) == bind_open(p, j) by {
                            if bind_open(p, j) {
                                lemma_open_depth(p, j);
                            }
                        }
                        lemma_latest_in_push(p, op, y, n - 1, i);
                        lemma_latest_all(p, y, n - 1, i);
                        assert(env_find(e2.take(i), y) == latest_in(ops, y, n, i));
                    }
                }
                EnvOp::Pop => {
                    if d > 1 {
                        assert(e2.take(i) =~= e.take(i));
                    } else {
                        assert(e2 == e);
                    }
                    assert(env_find(e2.take(i), y) == latest_in(p, y, n - 1, i));
                    assert(latest_in(ops, y, n, i) == latest_in(p, y, n - 1, i));
                }
                EnvOp::Bind(x, b) => {
                    assert(bind_open(ops, n - 1));
                    if i < d {
                        assert(e2.take(i) =~= e.take(i));
                    } else {
                        assert(e2.take(i) =~= e2);
                        assert(e2.drop_last() =~= e.drop_last());
                        assert(e2.last() == e.last().push((x, b)));
                        assert(e2.last().drop_last() =~= e.last());
                        assert(e.take(i) =~= e);
                        assert(env_find(e2.take(i), y) == latest_in(ops, y, n, i));
                    }
                    assert(env_find(e2.take(i), y) == latest_in(ops, y, n, i));
                }
            }
        }
    }
}

/// Lookup over a history: in an environment reached from a new one by
/// `push_scope`, `pop_scope`, `bind` and `bind_scheme` calls, looking up a
/// name gives the scheme of the latest bind of that name whose scope has not
/// been closed since (inner scopes shadowing outer ones), or nothing.
pub proof fn lemma_lookup_history(ops: Seq<EnvOp>, name: Seq<char>)
    ensures
        env_find(env_run(seq![Seq::<(Seq<char>, (Seq<u32>, Ty))>::empty()], ops), name)
            == latest_open_bind(ops, name, ops.len() as int),
{
    let e = env_run(seq![Seq::<(Seq<char>, (Seq<u32>, Ty))>::empty()], ops);
    lemma_env_history(ops);
    assert(e.take(depth(ops) as int) =~= e);
    assert(env_find(e.take(depth(ops) as int), name) == latest_in(ops, name, ops.len() as int, depth(ops) as int));
    lemma_latest_all(ops, name, ops.len() as int, depth(ops) as int);
}

/// A scoped mapping from variable names to type schemes.
#[derive(Debug)]
pub struct TypeEnv {
    scopes: Vec<Vec<(String, TypeScheme)>>,
}

impl View for TypeEnv {
    type V = Seq<Seq<(Seq<char>, (Seq<u32>, Ty))>>;

    closed spec fn view(&self) -> Self::V {
        Seq::new(self.scopes@.len(), |i: int| scope_model(self.scopes@[i]@))
    }
}

impl TypeEnv {
    /// An environment with one empty scope.
    pub fn new() -> (r: Self)
        ensures
            r@ == seq![Seq::<(Seq<char>, (Seq<u32>, Ty))>::empty()],
    {
        let r = TypeEnv { scopes: vec![Vec::new()] };
        assert(r@ =~= seq![Seq::<(Seq<char>, (Seq<u32>, Ty))>::empty()]) by {
            assert(scope_model(r.scopes@[0]@) =~= Seq::<(Seq<char>, (Seq<u32>, Ty))>::empty());
        }
        r
    }

    /// Opens a new innermost scope.
    pub fn push_scope(&mut self)
        ensures
            final(self)@ == old(self)@.push(Seq::empty()),
            final(self)@ == env_step(old(self)@, EnvOp::Push),
    {
        self.scopes.push(Vec::new());
        assert(self@ =~= old(self)@.push(Seq::empty())) by {
            assert(scope_model(self.scopes@.last()@) =~= Seq::<(Seq<char>, (Seq<u32>, Ty))>::empty());
        }
    }

    /// Closes the innermost scope; the outermost scope is never closed.
    pub fn pop_scope(&mut self)
        ensures
            final(self)@ == if old(self)@.len() > 1 { old(self)@.drop_last() } else { old(self)@ },
            final(self)@ == env_step(old(self)@, EnvOp::Pop),
    {
        if self.scopes.len() > 1 {
            self.scopes.pop();
            assert(self@ =~= old(self)@.drop_last());
        }
    }

    /// Binds a name to a monomorphic type in the innermost scope.
    pub fn bind(&mut self, name: &str, ty: NovaType)
        requires
            old(self)@.len() > 0,
        ensures
            final(self)@ == old(self)@.update(
                old(self)@.len() - 1,
                old(self)@.last().push((name@, (Seq::<u32>::empty(), ty.model()))),
            ),
            final(self)@ == env_step(old(self)@, EnvOp::Bind(name@, (Seq::<u32>::empty(), ty.model()))),
    {
        let ghost m = ty.model();
        let scheme = TypeScheme::mono(ty);
        assert(ids(scheme.quantified@) =~= Seq::<u32>::empty());
        self.bind_scheme(name, scheme);
    }

    /// Binds a name to a type scheme in the innermost scope.
    pub fn bind_scheme(&mut self, name: &str, scheme: TypeScheme)
        requires
            old(self)@.len() > 0,
        ensures
            final(self)@ == old(self)@.update(
                old(self)@.len() - 1,
                old(self)@.last().push((name@, scheme_model(scheme))),
            ),
            final(self)@ == env_step(old(self)@, EnvOp::Bind(name@, scheme_model(scheme))),
    {
        let ghost sm = scheme_model(scheme);
        let last = self.scopes.len() - 1;
        let n = str_to_string(name);
        self.scopes[last].push((n, scheme));
        assert(self@ =~= old(self)@.update(old(self)@.len() - 1, old(self)@.last().push((name@, sm)))) by {
            assert(scope_model(self.scopes@[last as int]@) =~= old(self)@.last().push((name@, sm)));
        }
    }

    /// The scheme bound to `name`, searching from the innermost scope outwards.
    #[verifier::loop_isolation(false)]
    pub fn lookup(&self, name: &str) -> (r: Option<&TypeScheme>)
        ensures
            match r {
                Some(s) => env_find(self@, name@) == Some(scheme_model(*s)),
                None => env_find(self@, name@) is None,
            },
    {
        let mut k: usize = self.scopes.len();
        assert(self@.take(k as int) =~= self@);
        while k > 0
            invariant
                k <= self.scopes@.len(),
                env_find(self@, name@) == env_find(self@.take(k as int), name@),
            decreases k,
        {
            let scope = &self.scopes[k - 1];
            let ghost sm = self@[k - 1];
            assert(sm == scope_model(scope@));
            let mut j: usize = scope.len();
            assert(sm.take(j as int) =~= sm);
            while j > 0
                invariant
                    j <= scope@.len(),
                    sm == scope_model(scope@),
                    scope_find(sm, name@) == scope_find(sm.take(j as int), name@),
                decreases j,
            {
                assert(sm.take(j as int).drop_last() =~= sm.take(j - 1));
                if scope[j - 1].0 == str_to_string(name) {
                    proof {
                        assert(sm[j - 1] == (scope@[j - 1].0@, scheme_model(scope@[j - 1].1)));
                        assert(sm.take(j as int).last() == sm[j - 1]);
                        assert(scope_find(sm, name@) == Some(scheme_model(scope@[j - 1].1)));
                        assert(self@.take(k as int).last() == sm);
                        assert(self@.take(k as int).drop_last() =~= self@.take(k - 1));
                    }
                    return Some(&scope[j - 1].1);
                }
                j = j - 1;
            }
            assert(sm.take(0) =~= Seq::<(Seq<char>, (Seq<u32>, Ty))>::empty());
            assert(self@.take(k as int).drop_last() =~= self@.take(k - 1));
            k = k - 1;
        }
        assert(self@.take(0) =~= Seq::<Seq<(Seq<char>, (Seq<u32>, Ty))>>::empty());
        None
    }

    /// Instantiates a scheme: each quantified variable is replaced by a
    /// fresh one, numbered from `counter` on in the order quantified.
    pub fn instantiate(&self, scheme: &TypeScheme, counter: &mut u32) -> (r: NovaType)
        requires
            *old(counter) + scheme.quantified@.len() <= u32::MAX,
        ensures
            *final(counter) == *old(counter) + scheme.quantified@.len(),
            r.model() == if scheme.quantified@.len() == 0 {
                scheme.body.model()
            } else {
                rename(scheme.body.model(), fresh_map(ids(scheme.quantified@), *old(counter)))
            },
    {
        if scheme.quantified.len() == 0 {
            return scheme.body.clone();
        }
        let mut pairs: Vec<(u32, u32)> = Vec::new();
        let mut i: usize = 0;
        while i < scheme.quantified.len()
            invariant
                i <= scheme.quantified@.len(),
                *counter == *old(counter) + i,
                *old(counter) + scheme.quantified@.len() <= u32::MAX,
                pair_map(pairs@) == fresh_map(ids(scheme.quantified@).take(i as int), *old(counter)),
            decreases scheme.quantified@.len() - i,
        {
            let v = TypeVar::fresh(counter);
            let ghost before = pairs@;
            pairs.push((scheme.quantified[i].0, v.0));
            proof {
                let q = ids(scheme.quantified@);
                assert(q.take(i + 1).drop_last() =~= q.take(i as int));
                assert(pairs@.drop_last() =~= before);
            }
            i = i + 1;
        }
        assert(ids(scheme.quantified@).take(scheme.quantified@.len() as int) =~= ids(scheme.quantified@));
        subst_vars(&scheme.body, &pairs)
    }
}

/// The renaming of the variables `q[0], q[1], ...` to `c, c + 1, ...`; a
/// variable listed twice takes its last number.
pub open spec fn fresh_map(q: Seq<u32>, c: u32) -> Map<u32, u32>
    decreases q.len(),
{
    if q.len() == 0 {
        Map::empty()
    } else {
        fresh_map(q.drop_last(), c).insert(q.last(), (c + q.len() - 1) as u32)
    }
}

/// The map of a list of pairs, a later pair for a key winning.
pub open spec fn pair_map(v: Seq<(u32, u32)>) -> Map<u32, u32>
    decreases v.len(),
{
    if v.len() == 0 {
        Map::empty()
    } else {
        pair_map(v.drop_last()).insert(v.last().0, v.last().1)
    }
}

/// Renames the variables of a type, wherever they occur in it.
pub open spec fn rename(t: Ty, m: Map<u32, u32>) -> Ty
    decreases t,
{
    match t {
        Ty::Var(v) => if m.contains_key(v) { Ty::Var(m[v]) } else { t },
        Ty::Tensor { elem, shape } => Ty::Tensor { elem: Box::new(rename(*elem, m)), shape },
        Ty::Row(fs) => Ty::Row(rename_fields(fs, m)),
        Ty::Array(a) => Ty::Array(Box::new(rename(*a, m))),
        Ty::Wave(a) => Ty::Wave(Box::new(rename(*a, m))),
        Ty::Opt(a) => Ty::Opt(Box::new(rename(*a, m))),
        Ty::Res(a, b) => Ty::Res(Box::new(rename(*a, m)), Box::new(rename(*b, m))),
        Ty::Tuple(ts) => Ty::Tuple(rename_seq(ts, m)),
        Ty::Function { params, ret, parallel } => Ty::Function {
            params: rename_seq(params, m),
            ret: Box::new(rename(*ret, m)),
            parallel,
        },
        Ty::Named { name, args } => Ty::Named { name, args: rename_seq(args, m) },
        _ => t,
    }
}

/// `rename` on each type of a list.
pub open spec fn rename_seq(s: Seq<Ty>, m: Map<u32, u32>) -> Seq<Ty>
    decreases s,
{
    if s.len() == 0 {
        Seq::empty()
    } else {
        rename_seq(s.drop_last(), m).push(rename(s.last(), m))
    }
}

/// `rename` on the type of each named field of a list.
pub open spec fn rename_fields(s: Seq<(Seq<char>, Ty)>, m: Map<u32, u32>) -> Seq<(Seq<char>, Ty)>
    decreases s,
{
    if s.len() == 0 {
        Seq::empty()
    } else {
        rename_fields(s.drop_last(), m).push((s.last().0, rename(s.last().1, m)))
    }
}

/// A variable after renaming.
pub open spec fn rename_var(v: u32, m: Map<u32, u32>) -> u32 {
    if m.contains_key(v) { m[v] } else { v }
}

/// Renaming renames every occurrence: the variables of the renamed type are
/// those of the type, each renamed, in the same order.
pub proof fn lemma_rename_vars(t: Ty, m: Map<u32, u32>)
    ensures
        var_list(rename(t, m)) == var_list(t).map_values(|v: u32| rename_var(v, m)),
    decreases t,
{
    let f = |v: u32| rename_var(v, m);
    match t {
        Ty::Var(v) => {
            assert(var_list(t).map_values(f) =~= seq![rename_var(v, m)]);
        }
        Ty::Tensor { elem, .. } => { lemma_rename_vars(*elem, m); }
        Ty::Array(a) => { lemma_rename_vars(*a, m); }
        Ty::Wave(a) => { lemma_rename_vars(*a, m); }
        Ty::Opt(a) => { lemma_rename_vars(*a, m); }
        Ty::Res(a, b) => {
            lemma_rename_vars(*a, m);
            lemma_rename_vars(*b, m);
            assert((var_list(*a) + var_list(*b)).map_values(f) =~= var_list(*a).map_values(f) + var_list(*b).map_values(f));
        }
        Ty::Function { params, ret, .. } => {
            lemma_rename_vars_seq(params, m);
            lemma_rename_vars(*ret, m);
            assert((var_list_seq(params) + var_list(*ret)).map_values(f)
                =~= var_list_seq(params).map_values(f) + var_list(*ret).map_values(f));
        }
        Ty::Named { args, .. } => { lemma_rename_vars_seq(args, m); }
        Ty::Tuple(ts) => { lemma_rename_vars_seq(ts, m); }
        Ty::Row(fs) => { lemma_rename_vars_fields(fs, m); }
        _ => {
            assert(var_list(t).map_values(f) =~= Seq::<u32>::empty());
        }
    }
}

/// The fresh renaming covers exactly the listed variables, each sent into
/// the numbers handed out, `c` up to `c + q.len()`.
proof fn lemma_fresh_map(q: Seq<u32>, c: u32)
    requires
        c + q.len() <= u32::MAX,
    ensures
        forall|w: u32| #[trigger] fresh_map(q, c).contains_key(w) <==> q.contains(w),
        forall|w: u32| #[trigger] fresh_map(q, c).contains_key(w)
            ==> c <= fresh_map(q, c)[w] < c + q.len(),
    decreases q.len(),
{
    if q.len() > 0 {
        let p = q.drop_last();
        lemma_fresh_map(p, c);
        let m0 = fresh_map(p, c);
        let m = fresh_map(q, c);
        assert(m == m0.insert(q.last(), (c + q.len() - 1) as u32));
        assert forall|w: u32| #[trigger] m.contains_key(w) implies q.contains(w) && c <= m[w] < c + q.len() by {
            if w == q.last() {
                assert(q[q.len() - 1] == w);
            } else {
                assert(m0.contains_key(w));
                let i = choose|i: int| 0 <= i < p.len() && p[i] == w;
                assert(q[i] == w);
            }
        }
        assert forall|w: u32| q.contains(w) implies #[trigger] m.contains_key(w) by {
            let i = choose|i: int| 0 <= i < q.len() && q[i] == w;
            if i < q.len() - 1 {
                assert(p[i] == w);
                assert(p.contains(w));
            }
        }
    }
}

/// Instantiating a scheme leaves none of its quantified variables, so long
/// as the fresh numbers handed out are not among them.
pub proof fn lemma_instantiate_replaces_quantified(body: Ty, q: Seq<u32>, c: u32)
    requires
        c + q.len() <= u32::MAX,
        forall|i: int| 0 <= i < q.len() ==> #[trigger] q[i] < c || q[i] >= c + q.len(),
    ensures
        forall|i: int| 0 <= i < q.len() ==> !var_list(rename(body, fresh_map(q, c))).contains(#[trigger] q[i]),
{
    let m = fresh_map(q, c);
    lemma_fresh_map(q, c);
    lemma_rename_vars(body, m);
    let vs = var_list(body);
    assert forall|i: int| 0 <= i < q.len() implies !var_list(rename(body, m)).contains(#[trigger] q[i]) by {
        if var_list(rename(body, m)).contains(q[i]) {
            let k = choose|k: int| 0 <= k < var_list(rename(body, m)).len() && var_list(rename(body, m))[k] == q[i];
            let w = vs[k];
            assert(rename_var(w, m) == q[i]);
            if m.contains_key(w) {
                assert(c <= m[w] < c + q.len());
            } else {
                assert(q.contains(q[i]));
            }
        }
    }
}

/// `lemma_rename_vars` for a list of types.
pub proof fn lemma_rename_vars_seq(s: Seq<Ty>, m: Map<u32, u32>)
    ensures
        var_list_seq(rename_seq(s, m)) == var_list_seq(s).map_values(|v: u32| rename_var(v, m)),
    decreases s,
{
    let f = |v: u32| rename_var(v, m);
    if s.len() == 0 {
        assert(var_list_seq(s).map_values(f) =~= Seq::<u32>::empty());
    } else {
        lemma_rename_vars_seq(s.drop_last(), m);
        lemma_rename_vars(s.last(), m);
        let r = rename_seq(s, m);
        assert(r.drop_last() == rename_seq(s.drop_last(), m));
        assert(r.last() == rename(s.last(), m));
        assert((var_list_seq(s.drop_last()) + var_list(s.last())).map_values(f)
            =~= var_list_seq(s.drop_last()).map_values(f) + var_list(s.last()).map_values(f));
    }
}

/// `lemma_rename_vars` for a list of named fields.
pub proof fn lemma_rename_vars_fields(s: Seq<(Seq<char>, Ty)>, m: Map<u32, u32>)
    ensures
        var_list_fields(rename_fields(s, m)) == var_list_fields(s).map_values(|v: u32| rename_var(v, m)),
    decreases s,
{
    let f = |v: u32| rename_var(v, m);
    if s.len() == 0 {
        assert(var_list_fields(s).map_values(f) =~= Seq::<u32>::empty());
    } else {
        lemma_rename_vars_fields(s.drop_last(), m);
        lemma_rename_vars(s.last().1, m);
        let r = rename_fields(s, m);
        assert(r.drop_last() == rename_fields(s.drop_last(), m));
        assert(r.last() == (s.last().0, rename(s.last().1, m)));
        assert((var_list_fields(s.drop_last()) + var_list(s.last().1)).map_values(f)
            =~= var_list_fields(s.drop_last()).map_values(f) + var_list(s.last().1).map_values(f));
    }
}

/// The number a variable is renamed to, if any: the last pair for it.
fn find_pair(pairs: &Vec<(u32, u32)>, v: u32) -> (r: Option<u32>)
    ensures
        match r {
            Some(w) => pair_map(pairs@).contains_key(v) && pair_map(pairs@)[v] == w,
            None => !pair_map(pairs@).contains_key(v),
        },
{
    let mut j: usize = pairs.len();
    assert(pairs@.take(j as int) =~= pairs@);
    while j > 0
        invariant
            j <= pairs@.len(),
            pair_map(pairs@).contains_key(v) <==> pair_map(pairs@.take(j as int)).contains_key(v),
            pair_map(pairs@).contains_key(v) ==> pair_map(pairs@)[v] == pair_map(pairs@.take(j as int))[v],
        decreases j,
    {
        assert(pairs@.take(j as int).drop_last() =~= pairs@.take(j - 1));
        if pairs[j - 1].0 == v {
            return Some(pairs[j - 1].1);
        }
        j = j - 1;
    }
    assert(pairs@.take(0) =~= Seq::<(u32, u32)>::empty());
    None
}

/// Renames the variables of a type according to the pairs.
fn subst_vars(ty: &NovaType, pairs: &Vec<(u32, u32)>) -> (r: NovaType)
    ensures
        r.model() == rename(ty.model(), pair_map(pairs@)),
    decreases ty,
{
    match ty {
        NovaType::Var(v) => {
            match find_pair(pairs, v.0) {
                Some(w) => NovaType::Var(TypeVar(w)),
                None => ty.clone(),
            }
        }
        NovaType::Array(t) => NovaType::Array(Box::new(subst_vars(t, pairs))),
        NovaType::Wave(t) => NovaType::Wave(Box::new(subst_vars(t, pairs))),
        NovaType::Option(t) => NovaType::Option(Box::new(subst_vars(t, pairs))),
        NovaType::Result(t, e) => NovaType::Result(Box::new(subst_vars(t, pairs)), Box::new(subst_vars(e, pairs))),
        NovaType::Tuple(ts) => NovaType::Tuple(subst_vars_all(ts, pairs)),
        NovaType::Function(ft) => NovaType::Function(FunctionType {
            params: subst_vars_all(&ft.params, pairs),
            ret: Box::new(subst_vars(&ft.ret, pairs)),
            parallel: ft.parallel,
        }),
        NovaType::Named { name, type_args } => NovaType::Named {
            name: name.clone(),
            type_args: subst_vars_all(type_args, pairs),
        },
        NovaType::Tensor { elem, shape } => NovaType::Tensor {
            elem: Box::new(subst_vars(elem, pairs)),
            shape: shape.duplicate(),
        },
        NovaType::Row { fields } => NovaType::Row { fields: subst_vars_fields(fields, pairs) },
        _ => ty.clone(),
    }
}

/// Renames the variables of the type of each named field of a list.
fn subst_vars_fields(v: &Vec<(String, NovaType)>, pairs: &Vec<(u32, u32)>) -> (r: Vec<(String, NovaType)>)
    ensures
        model_fields(r@) == rename_fields(model_fields(v@), pair_map(pairs@)),
    decreases v,
{
    let mut w: Vec<(String, NovaType)> = Vec::new();
    let mut i: usize = 0;
    assert(v@.take(0) =~= Seq::<(String, NovaType)>::empty());
    while i < v.len()
        invariant
            i <= v@.len(),
            model_fields(w@) == rename_fields(model_fields(v@.take(i as int)), pair_map(pairs@)),
        decreases v@.len() - i,
    {
        proof { broadcast use vstd::std_specs::vec::axiom_vec_decreases_to_view; }
        let n = v[i].0.clone();
        let t = subst_vars(&v[i].1, pairs);
        let ghost before = w@;
        w.push((n, t));
        proof {
            let ms = model_fields(v@.take(i as int));
            assert(w@.drop_last() =~= before);
            assert(v@.take(i + 1).drop_last() =~= v@.take(i as int));
            assert(model_fields(v@.take(i + 1)) == ms.push((v@[i as int].0@, v@[i as int].1.model())));
            assert(ms.push((v@[i as int].0@, v@[i as int].1.model())).drop_last() =~= ms);
        }
        i = i + 1;
    }
    assert(v@.take(v@.len() as int) =~= v@);
    w
}

/// Renames the variables of each type of a list.
fn subst_vars_all(v: &Vec<NovaType>, pairs: &Vec<(u32, u32)>) -> (r: Vec<NovaType>)
    ensures
        model_seq(r@) == rename_seq(model_seq(v@), pair_map(pairs@)),
    decreases v,
{
    let mut w: Vec<NovaType> = Vec::new();
    let mut i: usize = 0;
    assert(v@.take(0) =~= Seq::<NovaType>::empty());
    while i < v.len()
        invariant
            i <= v@.len(),
            model_seq(w@) == rename_seq(model_seq(v@.take(i as int)), pair_map(pairs@)),
        decreases v@.len() - i,
    {
        proof { broadcast use vstd::std_specs::vec::axiom_vec_decreases_to_view; }
        let t = subst_vars(&v[i], pairs);
        let ghost before = w@;
        w.push(t);
        proof {
            let ms = model_seq(v@.take(i as int));
            assert(w@.drop_last() =~= before);
            assert(v@.take(i + 1).drop_last() =~= v@.take(i as int));
            assert(model_seq(v@.take(i + 1)) == ms.push(v@[i as int].model()));
            assert(ms.push(v@[i as int].model()).drop_last() =~= ms);
        }
        i = i + 1;
    }
    assert(v@.take(v@.len() as int) =~= v@);
    w
}

// ── Type errors ──────────────────────────────────────────────────────────────

/// A type error from inference.
#[derive(Debug)]
pub enum TypeError {
    Unification(UnifyError),
    TraitBound(BoundError),
    UndefinedVariable { name: String, line: u32, col: u32 },
    UndefinedType { name: String, line: u32, col: u32 },
    UnitError { message: String, line: u32, col: u32 },
    Other { message: String, line: u32, col: u32 },
}

impl From<UnifyError> for TypeError {
    /// A unification failure as a type error.
    fn from(e: UnifyError) -> (r: Self) {
        TypeError::Unification(e)
    }
}

impl FromSpecImpl<UnifyError> for TypeError {
    open spec fn obeys_from_spec() -> bool {
        true
    }

    open spec fn from_spec(e: UnifyError) -> TypeError {
        TypeError::Unification(e)
    }
}

impl TypeError {
    /// The source line of the error.
    pub fn line(&self) -> (r: u32)
        ensures
            r == match self {
                TypeError::Unification(e) => e.line,
                TypeError::TraitBound(e) => e.line,
                TypeError::UndefinedVariable { line, .. } => *line,
                TypeError::UndefinedType { line, .. } => *line,
                TypeError::UnitError { line, .. } => *line,
                TypeError::Other { line, .. } => *line,
            },
    {
        match self {
            TypeError::Unification(e) => e.line,
            TypeError::TraitBound(e) => e.line,
            TypeError::UndefinedVariable { line, .. } => *line,
            TypeError::UndefinedType { line, .. } => *line,
            TypeError::UnitError { line, .. } => *line,
            TypeError::Other { line, .. } => *line,
        }
    }

    /// The message of the error.
    pub fn message(&self) -> (r: String)
        ensures
            r@ == match self {
                TypeError::Unification(e) => e.message@,
                TypeError::TraitBound(e) => e.message@,
                TypeError::UndefinedVariable { name, .. } => "undefined variable '"@ + name@ + "'"@,
                TypeError::UndefinedType { name, .. } => "undefined type '"@ + name@ + "'"@,
                TypeError::UnitError { message, .. } => message@,
                TypeError::Other { message, .. } => message@,
            },
    {
        match self {
            TypeError::Unification(e) => e.message.clone(),
            TypeError::TraitBound(e) => e.message.clone(),
            TypeError::UndefinedVariable { name, .. } => {
                let mut s = String::new();
                push_str(&mut s, "undefined variable '");
                push_str(&mut s, name.as_str());
                push_str(&mut s, "'");
                s
            }
            TypeError::UndefinedType { name, .. } => {
                let mut s = String::new();
                push_str(&mut s, "undefined type '");
                push_str(&mut s, name.as_str());
                push_str(&mut s, "'");
                s
            }
            TypeError::UnitError { message, .. } => message.clone(),
            TypeError::Other { message, .. } => message.clone(),
        }
    }
}

/// The binary operators of NOVA expressions.
#[derive(Debug, Clone, Copy, PartialEq, Eq, Structural)]
pub enum BinOp {
    Add,
    Sub,
    Mul,
    Div,
    Pow,
    Matmul,
    Eq,
    Ne,
    Lt,
    Gt,
    Le,
    Ge,
    And,
    Or,
}

impl Default for TypeEnv {
    fn default() -> (r: Self)
        ensures
            r@ == seq![Seq::<(Seq<char>, (Seq<u32>, Ty))>::empty()],
    {
        TypeEnv::new()
    }
}

} // verus!

use vstd::prelude::*;
use vstd::string::StringExecFns;

use crate::ast::{LiteralValue, ValueView};
use crate::interpreter::{RuntimeError, RuntimeErrorView};

verus! {

/// The scopes of a run, outermost first: each maps names to values.
pub type EnvView = Seq<Map<Seq<char>, ValueView>>;

/// The value that `name` resolves to: its binding in the innermost scope
/// that has one.
pub open spec fn lookup(env: EnvView, name: Seq<char>) -> Option<ValueView>
    decreases env.len(),
{
    if env.len() == 0 {
        None
    } else if env.last().contains_key(name) {
        Some(env.last()[name])
    } else {
        lookup(env.drop_last(), name)
    }
}

/// The scopes after `name` is bound to `v` in the innermost scope that binds
/// it, or nothing where no scope does.
pub open spec fn assigned(env: EnvView, name: Seq<char>, v: ValueView) -> Option<EnvView>
    decreases env.len(),
{
    if env.len() == 0 {
        None
    } else if env.last().contains_key(name) {
        Some(env.update(env.len() - 1, env.last().insert(name, v)))
    } else {
        match assigned(env.drop_last(), name, v) {
            Some(outer) => Some(outer.push(env.last())),
            None => None,
        }
    }
}

/// The scopes after `name` is bound to `v` in the innermost scope.
pub open spec fn defined(env: EnvView, name: Seq<char>, v: ValueView) -> EnvView {
    env.update(env.len() - 1, env.last().insert(name, v))
}

struct Binding {
    name: String,
    value: LiteralValue,
}

spec fn scope_map(bs: Seq<Binding>) -> Map<Seq<char>, ValueView>
    decreases bs.len(),
{
    if bs.len() == 0 {
        Map::empty()
    } else {
        scope_map(bs.drop_last()).insert(bs.last().name@, bs.last().value@)
    }
}

/// No two bindings of `bs` have the same name.
spec fn unique_names(bs: Seq<Binding>) -> bool {
    forall|i: int, j: int| 0 <= i < j < bs.len() ==> bs[i].name@ != bs[j].name@
}

/// The last position in `bs` that binds `name`, or -1.
spec fn last_index(bs: Seq<Binding>, name: Seq<char>) -> int
    decreases bs.len(),
{
    if bs.len() == 0 {
        -1
    } else if bs.last().name@ == name {
        bs.len() - 1
    } else {
        last_index(bs.drop_last(), name)
    }
}

proof fn lemma_scope_map(bs: Seq<Binding>, name: Seq<char>)
    ensures
        -1 <= last_index(bs, name) < bs.len(),
        last_index(bs, name) >= 0 ==> bs[last_index(bs, name)].name@ == name,
        scope_map(bs).contains_key(name) <==> last_index(bs, name) >= 0,
        last_index(bs, name) >= 0 ==> scope_map(bs)[name] == bs[last_index(bs, name)].value@,
    decreases bs.len(),
{
    if bs.len() > 0 {
        lemma_scope_map(bs.drop_last(), name);
    }
}

proof fn lemma_absent(bs: Seq<Binding>, name: Seq<char>)
    requires
        last_index(bs, name) == -1,
    ensures
        forall|k: int| 0 <= k < bs.len() ==> (#[trigger] bs[k]).name@ != name,
    decreases bs.len(),
{
    if bs.len() > 0 {
        lemma_absent(bs.drop_last(), name);
        assert forall|k: int| 0 <= k < bs.len() implies (#[trigger] bs[k]).name@ != name by {
            if k < bs.len() - 1 {
                assert(bs[k] == bs.drop_last()[k]);
            }
        }
    }
}

proof fn lemma_scope_update(bs: Seq<Binding>, name: Seq<char>, b: Binding)
    requires
        last_index(bs, name) >= 0,
        b.name@ == name,
    ensures
        scope_map(bs.update(last_index(bs, name), b)) == scope_map(bs).insert(name, b.value@),
    decreases bs.len(),
{
    let i = last_index(bs, name);
    lemma_scope_map(bs, name);
    let nb = bs.update(i, b);
    if i == bs.len() - 1 {
        assert(nb.drop_last() =~= bs.drop_last());
        assert(scope_map(nb) =~= scope_map(bs).insert(name, b.value@));
    } else {
        lemma_scope_update(bs.drop_last(), name, b);
        assert(nb.drop_last() =~= bs.drop_last().update(i, b));
        assert(scope_map(nb) =~= scope_map(bs).insert(name, b.value@));
    }
}

proof fn lemma_lookup_at(env: EnvView, name: Seq<char>, i: int)
    requires
        0 <= i < env.len(),
        env[i].contains_key(name),
        forall|j: int| i < j < env.len() ==> !(#[trigger] env[j]).contains_key(name),
    ensures
        lookup(env, name) == Some(env[i][name]),
    decreases env.len(),
{
    if i < env.len() - 1 {
        lemma_lookup_at(env.drop_last(), name, i);
    }
}

proof fn lemma_assigned_at(env: EnvView, name: Seq<char>, v: ValueView, i: int)
    requires
        0 <= i < env.len(),
        env[i].contains_key(name),
        forall|j: int| i < j < env.len() ==> !(#[trigger] env[j]).contains_key(name),
    ensures
        assigned(env, name, v) == Some(env.update(i, env[i].insert(name, v))),
    decreases env.len(),
{
    if i < env.len() - 1 {
        lemma_assigned_at(env.drop_last(), name, v, i);
        assert(env.drop_last().update(i, env[i].insert(name, v)).push(env.last()) =~= env.update(
            i,
            env[i].insert(name, v),
        ));
    }
}

proof fn lemma_unbound(env: EnvView, name: Seq<char>, v: ValueView)
    requires
        forall|j: int| 0 <= j < env.len() ==> !(#[trigger] env[j]).contains_key(name),
    ensures
        lookup(env, name) is None,
        assigned(env, name, v) is None,
    decreases env.len(),
{
    if env.len() > 0 {
        lemma_unbound(env.drop_last(), name, v);
    }
}

/// A chain of scopes, outermost first.
pub struct Environment {
    scopes: Vec<Vec<Binding>>,
}

impl Environment {
    /// Well formed: there is at least one scope, and no scope binds a name
    /// twice.
    pub closed spec fn wf(&self) -> bool {
        &&& self.scopes@.len() > 0
        &&& forall|i: int| 0 <= i < self.scopes@.len() ==> unique_names(#[trigger] self.scopes@[i]@)
    }

    /// A well-formed environment has at least one scope.
    pub proof fn lemma_wf_has_scope(&self)
        requires
            self.wf(),
        ensures
            self@.len() > 0,
    {
    }
}

impl View for Environment {
    type V = EnvView;

    closed spec fn view(&self) -> EnvView {
        self.scopes@.map_values(|s: Vec<Binding>| scope_map(s@))
    }
}

/// Where `name` stands in `scope`: its last binding.
fn find(scope: &Vec<Binding>, name: &String) -> (r: Option<usize>)
    ensures
        match r {
            Some(j) => j as int == last_index(scope@, name@),
            None => last_index(scope@, name@) == -1,
        },
{
    let mut j: usize = scope.len();
    assert(scope@.subrange(0, j as int) =~= scope@);
    while j > 0
        invariant
            j <= scope@.len(),
            last_index(scope@, name@) == last_index(scope@.subrange(0, j as int), name@),
        decreases j,
    {
        assert(scope@.subrange(0, j as int).drop_last() =~= scope@.subrange(0, j - 1));
        if scope[j - 1].name == *name {
            return Some(j - 1);
        }
        j = j - 1;
    }
    None
}

impl Environment {
    /// One empty scope.
    pub fn new() -> (r: Self)
        ensures
            r.wf(),
            r@ == seq![Map::<Seq<char>, ValueView>::empty()],
    {
        let mut scopes: Vec<Vec<Binding>> = Vec::new();
        scopes.push(Vec::new());
        let r = Self { scopes };
        assert(r@ =~= seq![Map::<Seq<char>, ValueView>::empty()]);
        r
    }

    /// The scopes of `enclosing` with an empty scope inside them.
    pub fn with_enclosing(enclosing: Environment) -> (r: Self)
        requires
            enclosing.wf(),
        ensures
            r.wf(),
            r@ == enclosing@.push(Map::empty()),
    {
        let mut r = enclosing;
        r.push_scope();
        r
    }

    /// The scopes outside the innermost one, if there are any.
    pub fn into_enclosing(self) -> (r: Option<Environment>)
        requires
            self.wf(),
        ensures
            r matches Some(e) ==> e.wf(),
            self@.len() > 1 ==> r is Some && r->Some_0@ == self@.drop_last(),
            self@.len() <= 1 ==> r is None,
    {
        if self.scopes.len() > 1 {
            let mut r = self;
            r.pop_scope();
            Some(r)
        } else {
            None
        }
    }

    /// Enters a new, empty innermost scope.
    pub fn push_scope(&mut self)
        requires
            old(self).wf(),
        ensures
            final(self).wf(),
            final(self)@ == old(self)@.push(Map::empty()),
    {
        self.scopes.push(Vec::new());
        assert forall|i: int| 0 <= i < self.scopes@.len() implies unique_names(
            #[trigger] self.scopes@[i]@,
        ) by {
            if i < old(self).scopes@.len() {
                assert(self.scopes@[i] == old(self).scopes@[i]);
            }
        }
        assert(self@ =~= old(self)@.push(Map::empty()));
    }

    /// Leaves the innermost scope; the outermost scope is never left.
    pub fn pop_scope(&mut self)
        requires
            old(self).wf(),
            old(self)@.len() > 1,
        ensures
            final(self).wf(),
            final(self)@ == old(self)@.drop_last(),
    {
        self.scopes.pop();
        assert forall|i: int| 0 <= i < self.scopes@.len() implies unique_names(
            #[trigger] self.scopes@[i]@,
        ) by {
            assert(self.scopes@[i] == old(self).scopes@[i]);
        }
        assert(self@ =~= old(self)@.drop_last());
    }

    /// Binds `name` to `value` in the innermost scope, replacing any binding
    /// of `name` there.
    pub fn define(&mut self, name: String, value: LiteralValue)
        requires
            old(self).wf(),
        ensures
            final(self).wf(),
            final(self)@ == defined(old(self)@, name@, value@),
    {
        let i = self.scopes.len() - 1;
        let ghost bs = self.scopes@[i as int]@;
        let ghost nv = name@;
        let ghost vv = value@;
        let found = find(&self.scopes[i], &name);
        proof {
            lemma_scope_map(bs, nv);
            assert(unique_names(bs));
        }
        let b = Binding { name, value };
        let ghost gb = b;
        let ghost before = self.scopes@;
        let scope = &mut self.scopes[i];
        match found {
            Some(j) => {
                scope.set(j, b);
                proof {
                    lemma_scope_update(bs, nv, gb);
                    assert(unique_names(bs.update(j as int, gb)));
                }
            },
            None => {
                scope.push(b);
                assert(scope@.drop_last() =~= bs);
                proof {
                    lemma_absent(bs, nv);
                    assert(unique_names(bs.push(gb)));
                }
            },
        }
        assert(self.scopes@ == before.update(i as int, self.scopes@[i as int]));
        assert forall|k: int| 0 <= k < self.scopes@.len() implies unique_names(
            #[trigger] self.scopes@[k]@,
        ) by {
            if k != i {
                assert(self.scopes@[k] == old(self).scopes@[k]);
            }
        }
        assert(self@ =~= defined(old(self)@, nv, vv));
    }

    /// The value of `name` in the innermost scope that binds it.
    pub fn get(&self, name: &str) -> (r: Option<LiteralValue>)
        ensures
            match lookup(self@, name@) {
                Some(v) => r is Some && r->Some_0@ == v,
                None => r is None,
            },
    {
        let key = String::from_str(name);
        let mut i: usize = self.scopes.len();
        while i > 0
            invariant
                i <= self.scopes@.len(),
                key@ == name@,
                forall|j: int| i <= j < self@.len() ==> !(#[trigger] self@[j]).contains_key(name@),
            decreases i,
        {
            let found = find(&self.scopes[i - 1], &key);
            proof {
                lemma_scope_map(self.scopes@[i - 1]@, name@);
            }
            match found {
                Some(j) => {
                    proof {
                        lemma_lookup_at(self@, name@, i - 1);
                    }
                    return Some(self.scopes[i - 1][j].value.cloned());
                },
                None => {},
            }
            i = i - 1;
        }
        proof {
            lemma_unbound(self@, name@, ValueView::Nil);
        }
        None
    }

    /// Rebinds `name` to `value` in the innermost scope that binds it; fails
    /// where no scope does, with an error that has no line (line 0): the
    /// caller knows where the assignment stands.
    pub fn assign(&mut self, name: &str, value: LiteralValue) -> (r: Result<(), RuntimeError>)
        requires
            old(self).wf(),
        ensures
            final(self).wf(),
            final(self)@.len() == old(self)@.len(),
            match assigned(old(self)@, name@, value@) {
                Some(env) => r is Ok && final(self)@ == env,
                None => r is Err && final(self)@ == old(self)@ && r->Err_0@ == (RuntimeErrorView {
                    line: 0,
                    message: undefined_message(name@),
                }),
            },
    {
        let key = String::from_str(name);
        let ghost vv = value@;
        let mut i: usize = self.scopes.len();
        while i > 0
            invariant
                i <= self.scopes@.len(),
                key@ == name@,
                vv == value@,
                self == old(self),
                self.wf(),
                forall|j: int| i <= j < self@.len() ==> !(#[trigger] self@[j]).contains_key(name@),
            decreases i,
        {
            let found = find(&self.scopes[i - 1], &key);
            proof {
                lemma_scope_map(self.scopes@[i - 1]@, name@);
            }
            match found {
                Some(j) => {
                    let ghost bs = self.scopes@[i - 1]@;
                    proof {
                        lemma_assigned_at(self@, name@, vv, i - 1);
                    }
                    let b = Binding { name: key, value };
                    let ghost gb = b;
                    let ghost before = self.scopes@;
                    let scope = &mut self.scopes[i - 1];
                    scope.set(j, b);
                    proof {
                        lemma_scope_update(bs, name@, gb);
                    }
                    assert(self.scopes@ == before.update(i - 1, self.scopes@[i - 1]));
                    assert(self.scopes@[i - 1]@ == bs.update(j as int, gb));
                    assert(unique_names(bs));
                    assert(unique_names(bs.update(j as int, gb)));
                    assert forall|k: int| 0 <= k < self.scopes@.len() implies unique_names(
                        #[trigger] self.scopes@[k]@,
                    ) by {
                        if k != i - 1 {
                            assert(self.scopes@[k] == old(self).scopes@[k]);
                        }
                    }
                    assert(self@[i - 1] == old(self)@[i - 1].insert(name@, vv));
                    assert(self@ =~= old(self)@.update(i - 1, old(self)@[i - 1].insert(name@, vv)));
                    return Ok(());
                },
                None => {},
            }
            i = i - 1;
        }
        proof {
            lemma_unbound(self@, name@, vv);
        }
        Err(RuntimeError { line: 0, message: undefined(name) })
    }
}

pub open spec fn undefined_message(name: Seq<char>) -> Seq<char> {
    "Undefined variable '"@ + name + "'"@
}

/// The message for a name that no scope binds.
pub fn undefined(name: &str) -> (r: String)
    ensures
        r@ == undefined_message(name@),
{
    let mut m = String::from_str("Undefined variable '");
    m.append(name);
    m.append("'");
    m
}

} // verus!

//! The scope: the variables that names are looked up in.

use crate::runtime::{Builtin, Value, ValueView, Variable, VariableView};
use vstd::hash_map::StringHashMap;
use vstd::prelude::*;
use vstd::string::*;

verus! {

/// The variables in scope, by name, and the names in the order in which they
/// were first bound.
pub struct Scope {
    table: StringHashMap<Variable>,
    names: Vec<String>,
}

impl View for Scope {
    type V = Map<Seq<char>, VariableView>;

    closed spec fn view(&self) -> Map<Seq<char>, VariableView> {
        Map::new(|name: Seq<char>| self.table@.contains_key(name), |name: Seq<char>| self.table@[name]@)
    }
}

/// The string variable that an environment variable becomes.
pub open spec fn imported(value: Seq<char>) -> VariableView {
    VariableView { mutable: false, value: ValueView::String(value) }
}

/// The variable that a builtin is bound to.
pub open spec fn provided(builtin: Builtin) -> VariableView {
    VariableView { mutable: false, value: ValueView::Function(builtin) }
}

/// The scope after the environment variables are bound in order, a later one
/// taking the place of an earlier one of the same name.
pub open spec fn seeded(environment: Seq<(Seq<char>, Seq<char>)>) -> Map<Seq<char>, VariableView>
    decreases environment.len(),
{
    if environment.len() == 0 {
        Map::empty()
    } else {
        seeded(environment.drop_last()).insert(
            environment.last().0,
            imported(environment.last().1),
        )
    }
}

/// The scope that the shell starts with: the environment, and over it the
/// builtins under their names.
pub open spec fn root_scope(environment: Seq<(Seq<char>, Seq<char>)>) -> Map<
    Seq<char>,
    VariableView,
> {
    seeded(environment).insert("clear"@, provided(Builtin::Clear)).insert(
        "exit"@,
        provided(Builtin::Exit),
    ).insert("pwd"@, provided(Builtin::Pwd)).insert(
        "debug_print_scope"@,
        provided(Builtin::DebugPrintScope),
    ).insert("ls"@, provided(Builtin::Ls))
}

/// The names after `name` is bound: it is added behind the others unless it
/// is among them.
pub open spec fn bound(names: Seq<Seq<char>>, name: Seq<char>) -> Seq<Seq<char>> {
    if names.contains(name) {
        names
    } else {
        names.push(name)
    }
}

/// The names of the environment variables in the order in which they are
/// first bound.
pub open spec fn seeded_names(environment: Seq<(Seq<char>, Seq<char>)>) -> Seq<Seq<char>>
    decreases environment.len(),
{
    if environment.len() == 0 {
        Seq::empty()
    } else {
        bound(seeded_names(environment.drop_last()), environment.last().0)
    }
}

/// The names in the scope that the shell starts with, in the order in which
/// they are first bound: those of the environment, then those of the
/// builtins.
pub open spec fn root_names(environment: Seq<(Seq<char>, Seq<char>)>) -> Seq<Seq<char>> {
    bound(
        bound(
            bound(bound(bound(seeded_names(environment), "clear"@), "exit"@), "pwd"@),
            "debug_print_scope"@,
        ),
        "ls"@,
    )
}

/// Whether `name` is the name of a builtin.
pub open spec fn is_builtin_name(name: Seq<char>) -> bool {
    name == "clear"@ || name == "exit"@ || name == "pwd"@ || name == "debug_print_scope"@ || name
        == "ls"@
}

/// An environment variable that no later one shares its name with is bound to
/// its value once the environment is bound.
pub proof fn lemma_seeded(environment: Seq<(Seq<char>, Seq<char>)>, i: int)
    requires
        0 <= i < environment.len(),
        forall|j: int| i < j < environment.len() ==> environment[j].0 != environment[i].0,
    ensures
        seeded(environment).contains_key(environment[i].0),
        seeded(environment)[environment[i].0] == imported(environment[i].1),
    decreases environment.len(),
{
    if i < environment.len() - 1 {
        lemma_seeded(environment.drop_last(), i);
    }
}

/// In the scope that the shell starts with, every environment
/// variable is bound to a string that holds its value, unless a builtin or a
/// later environment variable has the same name.
pub proof fn lemma_scope_seeding(environment: Seq<(Seq<char>, Seq<char>)>, i: int)
    requires
        0 <= i < environment.len(),
        !is_builtin_name(environment[i].0),
        forall|j: int| i < j < environment.len() ==> environment[j].0 != environment[i].0,
    ensures
        root_scope(environment).contains_key(environment[i].0),
        root_scope(environment)[environment[i].0] == imported(environment[i].1),
        root_scope(environment)[environment[i].0].value == ValueView::String(environment[i].1),
{
    lemma_seeded(environment, i);
}

/// The builtins are bound in the scope that the shell starts with, whatever
/// the environment holds.
pub proof fn lemma_builtins_bound(environment: Seq<(Seq<char>, Seq<char>)>)
    ensures
        root_scope(environment)["clear"@] == provided(Builtin::Clear),
        root_scope(environment)["exit"@] == provided(Builtin::Exit),
        root_scope(environment)["pwd"@] == provided(Builtin::Pwd),
        root_scope(environment)["debug_print_scope"@] == provided(Builtin::DebugPrintScope),
        root_scope(environment)["ls"@] == provided(Builtin::Ls),
{
    reveal_strlit("clear");
    reveal_strlit("exit");
    reveal_strlit("pwd");
    reveal_strlit("debug_print_scope");
    reveal_strlit("ls");
    assert("clear"@.len() == 5 && "exit"@.len() == 4 && "pwd"@.len() == 3 && "ls"@.len() == 2
        && "debug_print_scope"@.len() == 17);
}

/// The environment as pairs of texts.
pub open spec fn environment_view(environment: Seq<(String, String)>) -> Seq<
    (Seq<char>, Seq<char>),
> {
    Seq::new(environment.len(), |i: int| (environment[i].0@, environment[i].1@))
}

impl Scope {
    /// The names are exactly the names that are bound, each once.
    pub closed spec fn wf(&self) -> bool {
        &&& forall|i: int|
            0 <= i < self.names@.len() ==> self.table@.contains_key(#[trigger] self.names@[i]@)
        &&& forall|name: Seq<char>| #[trigger]
            self.table@.contains_key(name) ==> exists|i: int|
                0 <= i < self.names@.len() && #[trigger] self.names@[i]@ == name
        &&& forall|i: int, j: int|
            0 <= i < j < self.names@.len() ==> #[trigger] self.names@[i]@ != #[trigger] self.names@[j]@
    }

    /// The names in the order in which they were first bound.
    pub closed spec fn names_view(&self) -> Seq<Seq<char>> {
        Seq::new(self.names@.len(), |i: int| self.names@[i]@)
    }

    /// Every bound name is listed, every listed name is bound, and none is
    /// listed twice.
    pub proof fn lemma_names(&self)
        requires
            self.wf(),
        ensures
            forall|i: int|
                0 <= i < self.names_view().len() ==> self@.contains_key(
                    #[trigger] self.names_view()[i],
                ),
            forall|name: Seq<char>| #[trigger]
                self@.contains_key(name) ==> self.names_view().contains(name),
            self.names_view().no_duplicates(),
    {
        assert forall|name: Seq<char>| #[trigger] self@.contains_key(name) implies self.names_view().contains(
            name,
        ) by {
            let i = choose|i: int| 0 <= i < self.names@.len() && #[trigger] self.names@[i]@ == name;
            assert(self.names_view()[i] == name);
        }
    }

    /// A scope without variables.
    pub fn new() -> (r: Self)
        ensures
            r.wf(),
            r@ == Map::<Seq<char>, VariableView>::empty(),
            r.names_view() == Seq::<Seq<char>>::empty(),
    {
        let r = Scope { table: StringHashMap::new(), names: Vec::new() };
        assert(r@ =~= Map::<Seq<char>, VariableView>::empty());
        assert(r.names_view() =~= Seq::<Seq<char>>::empty());
        r
    }

    /// Binds `name` to `variable`, in place of what it was bound to before.
    pub fn insert(&mut self, name: String, variable: Variable)
        requires
            old(self).wf(),
        ensures
            final(self).wf(),
            final(self)@ == old(self)@.insert(name@, variable@),
            final(self).names_view() == bound(old(self).names_view(), name@),
    {
        let ghost before = *self;
        proof {
            before.lemma_names();
            if before.names_view().contains(name@) {
                let i = choose|i: int|
                    0 <= i < before.names_view().len() && before.names_view()[i] == name@;
                assert(before.table@.contains_key(before.names@[i]@));
            }
        }
        if !self.table.contains_key(name.as_str()) {
            self.names.push(name.clone());
        }
        self.table.insert(name, variable);
        proof {
            assert(self@ =~= before@.insert(name@, variable@));
            if before.table@.contains_key(name@) {
                assert(before@.contains_key(name@));
                assert(before.names_view().contains(name@));
                assert(self.names_view() =~= before.names_view());
            } else {
                assert(!before.names_view().contains(name@));
                assert(self.names_view() =~= before.names_view().push(name@));
            }
            assert forall|key: Seq<char>| #[trigger]
                self.table@.contains_key(key) implies exists|i: int|
                0 <= i < self.names@.len() && #[trigger] self.names@[i]@ == key by {
                if before.table@.contains_key(key) {
                    let i = choose|i: int|
                        0 <= i < before.names@.len() && #[trigger] before.names@[i]@ == key;
                    assert(self.names@[i]@ == key);
                } else {
                    assert(self.names@[before.names@.len() as int]@ == key);
                }
            }
        }
    }

    /// The variable that `name` is bound to, if it is bound.
    pub fn get(&self, name: &str) -> (r: Option<&Variable>)
        ensures
            r is Some <==> self@.contains_key(name@),
            r matches Some(variable) ==> variable@ == self@[name@],
    {
        self.table.get(name)
    }

    /// The names that are bound, in the order in which they were first
    /// bound.
    pub fn names(&self) -> (r: &Vec<String>)
        ensures
            Seq::new(r@.len(), |i: int| r@[i]@) == self.names_view(),
    {
        &self.names
    }
}

/// The scope that the shell starts with: every environment variable as a
/// string that cannot be assigned to, and over them the builtins `clear`,
/// `exit`, `pwd`, `debug_print_scope` and `ls`.
pub fn new_root_scope(environment: Vec<(String, String)>) -> (r: Scope)
    ensures
        r.wf(),
        r@ == root_scope(environment_view(environment@)),
        r.names_view() == root_names(environment_view(environment@)),
{
    let mut scope = Scope::new();
    let ghost all = environment_view(environment@);
    let mut i: usize = 0;
    while i < environment.len()
        invariant
            i <= environment.len(),
            scope.wf(),
            all == environment_view(environment@),
            scope@ == seeded(all.take(i as int)),
            scope.names_view() == seeded_names(all.take(i as int)),
        decreases environment.len() - i,
    {
        let name = environment[i].0.clone();
        let value = environment[i].1.clone();
        proof {
            assert(all.take(i + 1).drop_last() =~= all.take(i as int));
            assert(all.take(i + 1).last() == all[i as int]);
        }
        scope.insert(name, Variable { mutable: false, value: Value::String(value) });
        i += 1;
    }
    proof {
        assert(all.take(i as int) =~= all);
    }
    scope.insert("clear".to_string(), Variable { mutable: false, value: Value::Function(Builtin::Clear) });
    scope.insert("exit".to_string(), Variable { mutable: false, value: Value::Function(Builtin::Exit) });
    scope.insert("pwd".to_string(), Variable { mutable: false, value: Value::Function(Builtin::Pwd) });
    scope.insert(
        "debug_print_scope".to_string(),
        Variable { mutable: false, value: Value::Function(Builtin::DebugPrintScope) },
    );
    scope.insert("ls".to_string(), Variable { mutable: false, value: Value::Function(Builtin::Ls) });
    scope
}

} // verus!

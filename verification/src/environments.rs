use vstd::prelude::*;

use crate::tokens::TokenType;

verus! {

/// The kinds of scope a variable can be defined in.
#[derive(Debug, Clone, Copy, PartialEq, Eq, Structural)]
pub enum EnvironmentScope {
    Main,
    If,
}

/// A variable: its type, name and value, and whether it was assigned again
/// after its definition.
#[derive(Debug)]
pub struct Variable {
    pub variable_type: Option<TokenType>,
    pub name: Option<String>,
    pub value: Option<String>,
    pub is_reasigned: bool,
}

/// A variable with its texts as sequences.
pub ghost struct VariableView {
    pub variable_type: Option<TokenType>,
    pub name: Option<Seq<char>>,
    pub value: Option<Seq<char>>,
    pub is_reasigned: bool,
}

/// The view of an optional text.
pub open spec fn text_view(o: Option<String>) -> Option<Seq<char>> {
    match o {
        Some(s) => Some(s@),
        None => None,
    }
}

impl View for Variable {
    type V = VariableView;

    open spec fn view(&self) -> VariableView {
        VariableView {
            variable_type: self.variable_type,
            name: text_view(self.name),
            value: text_view(self.value),
            is_reasigned: self.is_reasigned,
        }
    }
}

impl Clone for Variable {
    fn clone(&self) -> (r: Self)
        ensures
            r@ == self@,
    {
        let name = match &self.name {
            Some(n) => Some(n.clone()),
            None => None,
        };
        let value = match &self.value {
            Some(v) => Some(v.clone()),
            None => None,
        };
        Variable { variable_type: self.variable_type, name, value, is_reasigned: self.is_reasigned }
    }
}

impl Variable {
    /// A variable with nothing in it.
    pub fn new() -> (r: Self)
        ensures
            r@ == (VariableView { variable_type: None, name: None, value: None, is_reasigned: false }),
    {
        Variable { variable_type: None, name: None, value: None, is_reasigned: false }
    }
}

/// The variables of one scope, each found by its name.
#[derive(Debug)]
pub struct Environment {
    pub scope: EnvironmentScope,
    pub variables: Vec<Variable>,
}

/// A scope with its variables as views.
pub ghost struct EnvironmentView {
    pub scope: EnvironmentScope,
    pub variables: Seq<VariableView>,
}

impl View for Environment {
    type V = EnvironmentView;

    open spec fn view(&self) -> EnvironmentView {
        EnvironmentView { scope: self.scope, variables: self.variables@.map_values(|v: Variable| v@) }
    }
}

impl Environment {
    /// An empty scope of kind `scope`.
    pub fn new(scope: EnvironmentScope) -> (r: Self)
        ensures
            r@ == (EnvironmentView { scope, variables: Seq::empty() }),
    {
        let r = Environment { scope, variables: Vec::new() };
        assert(r@.variables =~= Seq::<VariableView>::empty());
        r
    }
}

/// The variable is named `name`.
pub open spec fn is_named(v: VariableView, name: Seq<char>) -> bool {
    v.name == Some(name)
}

/// The first variable named `name`.
pub open spec fn find_var(vars: Seq<VariableView>, name: Seq<char>) -> Option<VariableView>
    decreases vars.len(),
{
    if vars.len() == 0 {
        None
    } else if is_named(vars[0], name) {
        Some(vars[0])
    } else {
        find_var(vars.drop_first(), name)
    }
}

/// The variable named `name` in the first scope, from the front of the
/// stack, that has one.
pub open spec fn find_variable(stack: Seq<EnvironmentView>, name: Seq<char>) -> Option<VariableView>
    decreases stack.len(),
{
    if stack.len() == 0 {
        None
    } else {
        match find_var(stack[0].variables, name) {
            Some(v) => Some(v),
            None => find_variable(stack.drop_first(), name),
        }
    }
}

/// The variables with `v` stored under its name: in place of the first
/// one of that name, or after the others.
pub open spec fn put_var(vars: Seq<VariableView>, v: VariableView) -> Seq<VariableView>
    decreases vars.len(),
{
    if vars.len() == 0 {
        seq![v]
    } else if vars[0].name == v.name {
        seq![v] + vars.drop_first()
    } else {
        seq![vars[0]] + put_var(vars.drop_first(), v)
    }
}

/// Every variable of every scope has a type.
pub open spec fn all_typed(stack: Seq<EnvironmentView>) -> bool {
    forall|i: int, j: int|
        0 <= i < stack.len() && 0 <= j < stack[i].variables.len() ==> (
        #[trigger] stack[i].variables[j]).variable_type is Some
}

/// What is found of a name in a scope is a variable of that scope.
pub proof fn lemma_find_var_member(vars: Seq<VariableView>, name: Seq<char>)
    ensures
        find_var(vars, name) matches Some(v) ==> exists|j: int| 0 <= j < vars.len() && vars[j] == v,
    decreases vars.len(),
{
    if vars.len() > 0 && !is_named(vars[0], name) {
        lemma_find_var_member(vars.drop_first(), name);
        if let Some(v) = find_var(vars.drop_first(), name) {
            let j = choose|j: int| 0 <= j < vars.drop_first().len() && vars.drop_first()[j] == v;
            assert(vars[j + 1] == v);
        }
    }
}

/// Storing a variable and reading its name back gives the variable; other
/// names read what they read before.
pub proof fn lemma_put_find_var(vars: Seq<VariableView>, v: VariableView, name: Seq<char>)
    requires
        v.name is Some,
    ensures
        find_var(put_var(vars, v), name) == if is_named(v, name) {
            Some(v)
        } else {
            find_var(vars, name)
        },
    decreases vars.len(),
{
    if vars.len() == 0 {
        assert(put_var(vars, v).drop_first() =~= Seq::<VariableView>::empty());
    } else if vars[0].name == v.name {
        assert(put_var(vars, v).drop_first() =~= vars.drop_first());
    } else {
        lemma_put_find_var(vars.drop_first(), v, name);
        assert(put_var(vars, v).drop_first() =~= put_var(vars.drop_first(), v));
    }
}

/// Storing a variable keeps the others and adds at most one.
pub proof fn lemma_put_var_members(vars: Seq<VariableView>, v: VariableView)
    ensures
        forall|j: int|
            0 <= j < put_var(vars, v).len() ==> #[trigger] put_var(vars, v)[j] == v || exists|k: int|
                0 <= k < vars.len() && vars[k] == put_var(vars, v)[j],
    decreases vars.len(),
{
    if vars.len() > 0 && vars[0].name != v.name {
        lemma_put_var_members(vars.drop_first(), v);
        let p = put_var(vars, v);
        assert forall|j: int| 0 <= j < p.len() implies #[trigger] p[j] == v || exists|k: int|
            0 <= k < vars.len() && vars[k] == p[j] by {
            if j == 0 {
                assert(vars[0] == p[0]);
            } else {
                assert(p[j] == put_var(vars.drop_first(), v)[j - 1]);
                if p[j] != v {
                    let k = choose|k: int|
                        0 <= k < vars.drop_first().len() && vars.drop_first()[k] == p[j];
                    assert(vars[k + 1] == p[j]);
                }
            }
        }
    } else if vars.len() > 0 {
        let p = put_var(vars, v);
        assert forall|j: int| 0 <= j < p.len() implies #[trigger] p[j] == v || exists|k: int|
            0 <= k < vars.len() && vars[k] == p[j] by {
            if j > 0 {
                assert(vars[j] == p[j]);
            }
        }
    }
}

} // verus!

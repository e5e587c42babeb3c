//! The resolver: from the statements of a program to the names that it
//! declares.

use crate::parser::Stmt;
use crate::parser::StmtView;
use vstd::prelude::*;
use vstd::std_specs::cmp::PartialEqSpec;

verus! {

/// The name that a statement declares at the top level: that of a function
/// or of a command.
pub open spec fn declared_name(stmt: StmtView) -> Option<Seq<char>> {
    match stmt {
        StmtView::DefFun(name, _, _) => Some(name),
        StmtView::DefCmd(name, _, _) => Some(name),
        _ => None,
    }
}

/// The names that the statements declare. A name declared twice is in the
/// set once, and the order of the statements plays no part.
pub open spec fn declared_names(stmts: Seq<StmtView>) -> Set<Seq<char>> {
    Set::new(
        |name: Seq<char>|
            exists|i: int| 0 <= i < stmts.len() && declared_name(#[trigger] stmts[i]) == Some(name),
    )
}

/// One more statement adds the name it declares, if it declares one.
pub proof fn lemma_declared_names_push(stmts: Seq<StmtView>, stmt: StmtView)
    ensures
        declared_names(stmts.push(stmt)) == match declared_name(stmt) {
            Some(name) => declared_names(stmts).insert(name),
            None => declared_names(stmts),
        },
{
    let longer = stmts.push(stmt);
    let expected = match declared_name(stmt) {
        Some(name) => declared_names(stmts).insert(name),
        None => declared_names(stmts),
    };
    assert forall|name: Seq<char>| declared_names(longer).contains(name) implies expected.contains(
        name,
    ) by {
        let i = choose|i: int|
            0 <= i < longer.len() && declared_name(#[trigger] longer[i]) == Some(name);
        if i < stmts.len() {
            assert(longer[i] == stmts[i]);
        }
    }
    assert forall|name: Seq<char>| expected.contains(name) implies declared_names(longer).contains(
        name,
    ) by {
        if declared_name(stmt) == Some(name) {
            assert(longer[stmts.len() as int] == stmt);
        } else {
            let i = choose|i: int|
                0 <= i < stmts.len() && declared_name(#[trigger] stmts[i]) == Some(name);
            assert(longer[i] == stmts[i]);
        }
    }
}

/// The order of the statements plays no part: two sequences with the same
/// statements, each as often in the one as in the other, declare the same
/// names.
pub proof fn lemma_declared_names_any_order(first: Seq<StmtView>, second: Seq<StmtView>)
    requires
        first.to_multiset() == second.to_multiset(),
    ensures
        declared_names(first) == declared_names(second),
{
    first.to_multiset_ensures();
    second.to_multiset_ensures();
    assert forall|name: Seq<char>| declared_names(first).contains(name) implies declared_names(
        second,
    ).contains(name) by {
        let i = choose|i: int|
            0 <= i < first.len() && declared_name(#[trigger] first[i]) == Some(name);
        assert(first.to_multiset().count(first[i]) > 0);
        assert(second.contains(first[i]));
    }
    assert forall|name: Seq<char>| declared_names(second).contains(name) implies declared_names(
        first,
    ).contains(name) by {
        let i = choose|i: int|
            0 <= i < second.len() && declared_name(#[trigger] second[i]) == Some(name);
        assert(second.to_multiset().count(second[i]) > 0);
        assert(first.contains(second[i]));
    }
}

/// A program that declares one function and one command, and nothing else,
/// declares exactly the two names, whichever of the two comes first.
pub proof fn lemma_function_and_command(stmts: Seq<StmtView>, function: int, command: int)
    requires
        0 <= function < stmts.len(),
        0 <= command < stmts.len(),
        stmts[function] is DefFun,
        stmts[command] is DefCmd,
        forall|k: int|
            0 <= k < stmts.len() && k != function && k != command ==> declared_name(
                #[trigger] stmts[k],
            ) is None,
    ensures
        declared_names(stmts) == set![stmts[function]->DefFun_0, stmts[command]->DefCmd_0],
{
    let names = set![stmts[function]->DefFun_0, stmts[command]->DefCmd_0];
    assert forall|name: Seq<char>| names.contains(name) implies declared_names(stmts).contains(
        name,
    ) by {
        if name == stmts[function]->DefFun_0 {
            assert(declared_name(stmts[function]) == Some(name));
        } else {
            assert(declared_name(stmts[command]) == Some(name));
        }
    }
}

/// The names declared at the top level of a program: a set of distinct
/// names, without scopes and without types.
#[derive(Debug)]
pub struct SymbolTable {
    names: Vec<String>,
}

impl View for SymbolTable {
    type V = Set<Seq<char>>;

    closed spec fn view(&self) -> Set<Seq<char>> {
        self.names.deep_view().to_set()
    }
}

impl SymbolTable {
    /// No name is held twice.
    #[verifier::type_invariant]
    spec fn distinct(self) -> bool {
        self.names.deep_view().no_duplicates()
    }

    /// The table without a name.
    pub fn new() -> (table: SymbolTable)
        ensures
            table@ == Set::<Seq<char>>::empty(),
    {
        let table = SymbolTable { names: Vec::new() };
        table
    }

    /// How many names the table holds.
    pub fn len(&self) -> (n: usize)
        ensures
            self@.finite(),
            n == self@.len(),
    {
        proof {
            use_type_invariant(self);
            self.names.deep_view().unique_seq_to_set();
        }
        self.names.len()
    }

    /// Whether `name` is one of the names.
    pub fn contains(&self, name: &String) -> (found: bool)
        ensures
            found == self@.contains(name@),
    {
        let ghost views = self.names.deep_view();
        let mut i: usize = 0;
        while i < self.names.len()
            invariant
                0 <= i <= self.names.len(),
                views == self.names.deep_view(),
                forall|k: int| 0 <= k < i ==> views[k] != name@,
            decreases self.names.len() - i,
        {
            assert(views[i as int] == self.names[i as int]@);
            if self.names[i] == *name {
                return true;
            }
            i = i + 1;
        }
        false
    }

    /// Puts `name` into the table, and says whether it was new.
    pub fn insert(&mut self, name: String) -> (added: bool)
        ensures
            final(self)@ == old(self)@.insert(name@),
            added == !old(self)@.contains(name@),
    {
        proof {
            use_type_invariant(&*self);
        }
        let ghost views = self.names.deep_view();
        if self.contains(&name) {
            false
        } else {
            let mut names: Vec<String> = Vec::new();
            std::mem::swap(&mut self.names, &mut names);
            names.push(name);
            proof {
                assert(names.deep_view() =~= views.push(name@));
                views.lemma_push_to_set_commute(name@);
            }
            std::mem::swap(&mut self.names, &mut names);
            true
        }
    }
}

/// Two tables are equal when they hold the same names.
impl PartialEq for SymbolTable {
    fn eq(&self, other: &SymbolTable) -> (equal: bool) {
        if self.len() != other.len() {
            return false;
        }
        let ghost views = self.names.deep_view();
        let mut i: usize = 0;
        while i < self.names.len()
            invariant
                0 <= i <= self.names.len(),
                views == self.names.deep_view(),
                forall|k: int| 0 <= k < i ==> other@.contains(#[trigger] views[k]),
            decreases self.names.len() - i,
        {
            assert(views.contains(views[i as int]));
            if !other.contains(&self.names[i]) {
                return false;
            }
            i = i + 1;
        }
        proof {
            assert(self@.subset_of(other@)) by {
                assert forall|name: Seq<char>| self@.contains(name) implies other@.contains(
                    name,
                ) by {
                    let k = choose|k: int| 0 <= k < views.len() && views[k] == name;
                    assert(other@.contains(views[k]));
                }
            }
            vstd::set_lib::lemma_subset_equality(self@, other@);
        }
        true
    }
}

impl vstd::std_specs::cmp::PartialEqSpecImpl for SymbolTable {
    open spec fn obeys_eq_spec() -> bool {
        true
    }

    open spec fn eq_spec(&self, other: &SymbolTable) -> bool {
        self@ == other@
    }
}

/// Two tables made from the same statements hold the same names, and
/// compare equal.
pub proof fn lemma_resolved_alike(stmts: Seq<StmtView>, first: SymbolTable, second: SymbolTable)
    requires
        first@ == declared_names(stmts),
        second@ == declared_names(stmts),
    ensures
        first@ == second@,
        first.eq_spec(&second),
{
}

/// Collects the names of the functions and commands that the statements
/// define. Statements of other kinds add nothing.
pub fn gen_sym_table(stmts: &Vec<Stmt>) -> (sym_table: SymbolTable)
    ensures
        sym_table@ == declared_names(stmts.deep_view()),
{
    let ghost views = stmts.deep_view();
    let mut sym_table = SymbolTable::new();
    let mut i: usize = 0;
    while i < stmts.len()
        invariant
            0 <= i <= stmts.len(),
            views == stmts.deep_view(),
            sym_table@ == declared_names(views.take(i as int)),
        decreases stmts.len() - i,
    {
        proof {
            lemma_declared_names_push(views.take(i as int), views[i as int]);
            assert(views.take(i as int).push(views[i as int]) =~= views.take(i + 1));
        }
        match &stmts[i] {
            Stmt::DefFun(fun_name, _, _) => {
                sym_table.insert(fun_name.clone());
            },
            Stmt::DefCmd(cmd_name, _, _) => {
                sym_table.insert(cmd_name.clone());
            },
            _ => {},
        }
        i = i + 1;
    }
    assert(views.take(i as int) =~= views);
    sym_table
}

} // verus!

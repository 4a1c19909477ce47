//! Scopes: the regions of a program in which names are declared.
use vstd::prelude::*;
use crate::semantic::symbol::{copy_symbol, same_symbol, Symbol, SymbolId};
use crate::util::text::copy_string;

verus! {

/// The construct a scope belongs to.
#[derive(Debug)]
pub enum ScopeType {
    Global,
    FunctionBody { name: String, parent: SymbolId },
    IfBody { parent: SymbolId },
}

/// The index of a scope in the scope table.
#[derive(Debug, Clone, Copy, PartialEq, Eq, Structural)]
pub struct ScopeId(pub i32);

impl ScopeId {
    /// The number of this scope.
    pub fn value(&self) -> (r: i32)
        ensures
            r == self.0,
    {
        self.0
    }
}

/// A scope: its kind, the scope that encloses it, and the symbols declared in
/// it, in declaration order.
#[derive(Debug)]
pub struct Scope {
    pub scope_id: ScopeId,
    pub kind: ScopeType,
    pub parent: Option<ScopeId>,
    pub symbols: Vec<Symbol>,
}

/// A scope table is well formed when every scope's parent is an earlier scope
/// and every scope's number is its index. Name lookups walk parents towards
/// the global scope, so in a well-formed table they end.
pub open spec fn scope_table_wf(t: Seq<Scope>) -> bool {
    forall|i: int|
        0 <= i < t.len() ==> {
            &&& (#[trigger] t[i]).scope_id.0 == i
            &&& match t[i].parent {
                Some(p) => 0 <= p.0 < i,
                None => true,
            }
        }
}

/// The index of the first symbol named `name` in `syms`.
pub open spec fn find_in(syms: Seq<Symbol>, name: Seq<char>) -> Option<int>
    decreases syms.len(),
{
    if syms.len() == 0 {
        None
    } else if syms[0].name@ == name {
        Some(0)
    } else {
        match find_in(syms.skip(1), name) {
            Some(i) => Some(i + 1),
            None => None,
        }
    }
}

/// Name resolution: the scope and index of the symbol `name` refers to from
/// scope `s`: the first one declared with that name in `s`, else the one it
/// refers to from the parent scope; `None` when no enclosing scope declares it.
pub open spec fn lookup(t: Seq<Scope>, s: int, name: Seq<char>) -> Option<(int, int)>
    decreases s,
{
    if 0 <= s < t.len() {
        match find_in(t[s].symbols@, name) {
            Some(i) => Some((s, i)),
            None => match t[s].parent {
                Some(p) => if 0 <= p.0 < s {
                    lookup(t, p.0 as int, name)
                } else {
                    None
                },
                None => None,
            },
        }
    } else {
        None
    }
}

/// What `find_in` finds: a symbol with that name, and none before it.
pub proof fn lemma_find_in(syms: Seq<Symbol>, name: Seq<char>)
    ensures
        find_in(syms, name) matches Some(i) ==> 0 <= i < syms.len() && syms[i].name@ == name
            && forall|k: int| 0 <= k < i ==> (#[trigger] syms[k]).name@ != name,
        find_in(syms, name) is None ==> forall|k: int| 0 <= k < syms.len() ==> (#[trigger] syms[k]).name@ != name,
    decreases syms.len(),
{
    if syms.len() > 0 {
        let t = syms.skip(1);
        lemma_find_in(t, name);
        if syms[0].name@ != name {
            match find_in(t, name) {
                Some(j) => {
                    assert forall|k: int| 0 <= k < j + 1 implies (#[trigger] syms[k]).name@ != name by {
                        if k > 0 {
                            assert(syms[k] == t[k - 1]);
                        }
                    }
                    assert(syms[j + 1] == t[j]);
                },
                None => {
                    assert forall|k: int| 0 <= k < syms.len() implies (#[trigger] syms[k]).name@ != name by {
                        if k > 0 {
                            assert(syms[k] == t[k - 1]);
                        }
                    }
                },
            }
        }
    }
}

/// `find_in` is the first match.
pub proof fn lemma_find_in_first(syms: Seq<Symbol>, name: Seq<char>, i: int)
    requires
        0 <= i <= syms.len(),
        forall|k: int| 0 <= k < i ==> (#[trigger] syms[k]).name@ != name,
    ensures
        i < syms.len() && syms[i].name@ == name ==> find_in(syms, name) == Some(i),
        i == syms.len() ==> find_in(syms, name) is None,
    decreases i,
{
    if i > 0 {
        assert forall|k: int| 0 <= k < i - 1 implies (#[trigger] syms.skip(1)[k]).name@ != name by {
            assert(syms.skip(1)[k] == syms[k + 1]);
        }
        lemma_find_in_first(syms.skip(1), name, i - 1);
    }
}

/// Symbols agree in everything but a variable's initialization state.
pub open spec fn same_sym_shape(a: Symbol, b: Symbol) -> bool {
    &&& a.name@ == b.name@
    &&& a.id == b.id
    &&& a.declared_scope == b.declared_scope
    &&& match (a.kind, b.kind) {
        (
            crate::semantic::symbol::SymbolKind::Function { return_type: r1, params: p1 },
            crate::semantic::symbol::SymbolKind::Function { return_type: r2, params: p2 },
        ) => r1 == r2 && p1@ == p2@,
        (
            crate::semantic::symbol::SymbolKind::Variable { var_type: t1, .. },
            crate::semantic::symbol::SymbolKind::Variable { var_type: t2, .. },
        ) => t1 == t2,
        _ => false,
    }
}

/// Scope tables agree in everything but variables' initialization states.
pub open spec fn same_shape(a: Seq<Scope>, b: Seq<Scope>) -> bool {
    &&& a.len() == b.len()
    &&& forall|i: int|
        #![trigger a[i], b[i]]
        0 <= i < a.len() ==> {
            &&& a[i].scope_id == b[i].scope_id
            &&& a[i].parent == b[i].parent
            &&& a[i].kind == b[i].kind
            &&& a[i].symbols@.len() == b[i].symbols@.len()
            &&& forall|k: int|
                0 <= k < a[i].symbols@.len() ==> same_sym_shape(#[trigger] a[i].symbols@[k], b[i].symbols@[k])
        }
}

/// `b` keeps every scope of `a`, with its number and parent, and every
/// symbol of `a` in place (up to variables' states); it may add scopes and
/// add symbols at the end of scopes.
pub open spec fn extends_shape(a: Seq<Scope>, b: Seq<Scope>) -> bool {
    &&& a.len() <= b.len()
    &&& forall|i: int|
        #![trigger a[i], b[i]]
        0 <= i < a.len() ==> {
            &&& a[i].scope_id == b[i].scope_id
            &&& a[i].parent == b[i].parent
            &&& a[i].kind == b[i].kind
            &&& a[i].symbols@.len() <= b[i].symbols@.len()
            &&& forall|k: int|
                0 <= k < a[i].symbols@.len() ==> same_sym_shape(#[trigger] a[i].symbols@[k], b[i].symbols@[k])
        }
}

/// A table extends itself, and one of the same shape.
pub proof fn lemma_extends_of_same_shape(a: Seq<Scope>, b: Seq<Scope>)
    requires
        same_shape(a, b),
    ensures
        extends_shape(a, b),
{
}

/// Extension is transitive.
pub proof fn lemma_extends_trans(a: Seq<Scope>, b: Seq<Scope>, c: Seq<Scope>)
    requires
        extends_shape(a, b),
        extends_shape(b, c),
    ensures
        extends_shape(a, c),
{
    assert forall|i: int| #![trigger a[i], c[i]] 0 <= i < a.len() implies {
        &&& a[i].scope_id == c[i].scope_id
        &&& a[i].parent == c[i].parent
        &&& a[i].kind == c[i].kind
        &&& a[i].symbols@.len() <= c[i].symbols@.len()
        &&& forall|k: int| 0 <= k < a[i].symbols@.len() ==> same_sym_shape(#[trigger] a[i].symbols@[k], c[i].symbols@[k])
    } by {
        assert(b[i] == b[i]);
        assert forall|k: int| 0 <= k < a[i].symbols@.len() implies same_sym_shape(#[trigger] a[i].symbols@[k], c[i].symbols@[k]) by {
            assert(same_sym_shape(a[i].symbols@[k], b[i].symbols@[k]));
            assert(same_sym_shape(b[i].symbols@[k], c[i].symbols@[k]));
        }
    }
}

/// Every table extends itself.
pub proof fn lemma_extends_refl(a: Seq<Scope>)
    ensures
        extends_shape(a, a),
{
    assert forall|i: int| #![trigger a[i]] 0 <= i < a.len() implies forall|k: int|
        0 <= k < a[i].symbols@.len() ==> same_sym_shape(#[trigger] a[i].symbols@[k], a[i].symbols@[k]) by {
        assert forall|k: int| 0 <= k < a[i].symbols@.len() implies same_sym_shape(#[trigger] a[i].symbols@[k], a[i].symbols@[k]) by {
            let x = a[i].symbols@[k];
            match x.kind {
                crate::semantic::symbol::SymbolKind::Function { .. } => {},
                crate::semantic::symbol::SymbolKind::Variable { .. } => {},
            }
        }
    }
}

/// Name resolution depends only on a table's shape.
pub proof fn lemma_lookup_same_shape(a: Seq<Scope>, b: Seq<Scope>, s: int, name: Seq<char>)
    requires
        same_shape(a, b),
    ensures
        lookup(a, s, name) == lookup(b, s, name),
    decreases s,
{
    if 0 <= s < a.len() {
        let x = a[s].symbols@;
        let y = b[s].symbols@;
        assert(a[s].parent == b[s].parent);
        lemma_find_in(x, name);
        lemma_find_in(y, name);
        match find_in(x, name) {
            Some(i) => {
                assert forall|k: int| 0 <= k < i implies (#[trigger] y[k]).name@ != name by {
                    assert(same_sym_shape(x[k], y[k]));
                }
                assert(same_sym_shape(x[i], y[i]));
                lemma_find_in_first(y, name, i);
            },
            None => {
                assert forall|k: int| 0 <= k < y.len() implies (#[trigger] y[k]).name@ != name by {
                    assert(same_sym_shape(x[k], y[k]));
                }
                lemma_find_in_first(y, name, y.len() as int);
                match a[s].parent {
                    Some(p) => {
                        if 0 <= p.0 < s {
                            lemma_lookup_same_shape(a, b, p.0 as int, name);
                        }
                    },
                    None => {},
                }
            },
        }
    }
}

/// What name resolution finds is in the table and has that name.
pub proof fn lemma_lookup_found(t: Seq<Scope>, s: int, name: Seq<char>)
    ensures
        lookup(t, s, name) matches Some((si, i)) ==> 0 <= si <= s && si < t.len() && 0 <= i < t[si].symbols@.len()
            && t[si].symbols@[i].name@ == name,
    decreases s,
{
    if 0 <= s < t.len() {
        lemma_find_in(t[s].symbols@, name);
        match find_in(t[s].symbols@, name) {
            Some(i) => {},
            None => match t[s].parent {
                Some(p) => {
                    if 0 <= p.0 < s {
                        lemma_lookup_found(t, p.0 as int, name);
                    }
                },
                None => {},
            },
        }
    }
}

/// Two scope kinds have equal content.
pub open spec fn same_scope_type(a: ScopeType, b: ScopeType) -> bool {
    match (a, b) {
        (ScopeType::Global, ScopeType::Global) => true,
        (ScopeType::FunctionBody { name: n1, parent: p1 }, ScopeType::FunctionBody {
            name: n2,
            parent: p2,
        }) => n1 == n2 && p1 == p2,
        (ScopeType::IfBody { parent: p1 }, ScopeType::IfBody { parent: p2 }) => p1 == p2,
        _ => false,
    }
}

/// Two lists of symbols have equal content.
pub open spec fn same_symbols(a: Seq<Symbol>, b: Seq<Symbol>) -> bool {
    a.len() == b.len() && forall|i: int| 0 <= i < a.len() ==> same_symbol(#[trigger] a[i], b[i])
}

/// Two scopes have equal content.
pub open spec fn same_scope(a: Scope, b: Scope) -> bool {
    a.scope_id == b.scope_id && same_scope_type(a.kind, b.kind) && a.parent == b.parent
        && same_symbols(a.symbols@, b.symbols@)
}

/// A copy of a list of symbols.
pub fn copy_symbols(v: &Vec<Symbol>) -> (r: Vec<Symbol>)
    ensures
        same_symbols(r@, v@),
{
    let mut r: Vec<Symbol> = Vec::new();
    let mut i: usize = 0;
    while i < v.len()
        invariant
            i <= v@.len(),
            r@.len() == i,
            forall|k: int| 0 <= k < i ==> same_symbol(#[trigger] r@[k], v@[k]),
        decreases v@.len() - i,
    {
        r.push(copy_symbol(&v[i]));
        i += 1;
    }
    r
}

/// A copy of a scope.
pub fn copy_scope(s: &Scope) -> (r: Scope)
    ensures
        same_scope(r, *s),
{
    let kind = match &s.kind {
        ScopeType::Global => ScopeType::Global,
        ScopeType::FunctionBody { name, parent } => ScopeType::FunctionBody {
            name: copy_string(name),
            parent: *parent,
        },
        ScopeType::IfBody { parent } => ScopeType::IfBody { parent: *parent },
    };
    Scope { scope_id: s.scope_id, kind, parent: s.parent, symbols: copy_symbols(&s.symbols) }
}

impl Clone for Scope {
    fn clone(&self) -> (r: Scope)
        ensures
            same_scope(r, *self),
    {
        copy_scope(self)
    }
}


/// The index of the first symbol numbered `id` in `syms`.
pub open spec fn find_id_in(syms: Seq<Symbol>, id: usize) -> Option<int>
    decreases syms.len(),
{
    if syms.len() == 0 {
        None
    } else if syms[0].id.0 == id {
        Some(0)
    } else {
        match find_id_in(syms.skip(1), id) {
            Some(i) => Some(i + 1),
            None => None,
        }
    }
}

/// The scope and index of the first symbol numbered `id`, scanning scopes
/// from `from` on, in table order.
pub open spec fn find_id_from(t: Seq<Scope>, id: usize, from: int) -> Option<(int, int)>
    decreases t.len() - from,
{
    if from < 0 || from >= t.len() {
        None
    } else {
        match find_id_in(t[from].symbols@, id) {
            Some(i) => Some((from, i)),
            None => find_id_from(t, id, from + 1),
        }
    }
}

/// The scope and index of the first symbol numbered `id` in the whole table.
pub open spec fn find_by_id(t: Seq<Scope>, id: usize) -> Option<(int, int)> {
    find_id_from(t, id, 0)
}

/// What `find_id_in` finds: a symbol with that number, and none before it.
pub proof fn lemma_find_id_in(syms: Seq<Symbol>, id: usize)
    ensures
        find_id_in(syms, id) matches Some(i) ==> 0 <= i < syms.len() && syms[i].id.0 == id
            && forall|k: int| 0 <= k < i ==> (#[trigger] syms[k]).id.0 != id,
        find_id_in(syms, id) is None ==> forall|k: int| 0 <= k < syms.len() ==> (#[trigger] syms[k]).id.0 != id,
    decreases syms.len(),
{
    if syms.len() > 0 {
        let t = syms.skip(1);
        lemma_find_id_in(t, id);
        if syms[0].id.0 != id {
            match find_id_in(t, id) {
                Some(j) => {
                    assert forall|k: int| 0 <= k < j + 1 implies (#[trigger] syms[k]).id.0 != id by {
                        if k > 0 {
                            assert(syms[k] == t[k - 1]);
                        }
                    }
                    assert(syms[j + 1] == t[j]);
                },
                None => {
                    assert forall|k: int| 0 <= k < syms.len() implies (#[trigger] syms[k]).id.0 != id by {
                        if k > 0 {
                            assert(syms[k] == t[k - 1]);
                        }
                    }
                },
            }
        }
    }
}

/// `find_id_in` is the first match.
pub proof fn lemma_find_id_in_first(syms: Seq<Symbol>, id: usize, i: int)
    requires
        0 <= i <= syms.len(),
        forall|k: int| 0 <= k < i ==> (#[trigger] syms[k]).id.0 != id,
    ensures
        i < syms.len() && syms[i].id.0 == id ==> find_id_in(syms, id) == Some(i),
        i == syms.len() ==> find_id_in(syms, id) is None,
    decreases i,
{
    if i > 0 {
        assert forall|k: int| 0 <= k < i - 1 implies (#[trigger] syms.skip(1)[k]).id.0 != id by {
            assert(syms.skip(1)[k] == syms[k + 1]);
        }
        lemma_find_id_in_first(syms.skip(1), id, i - 1);
    }
}

/// No two symbols of a table share a number.
pub open spec fn ids_distinct(t: Seq<Scope>) -> bool {
    forall|i: int, k: int, j: int, m: int|
        #![trigger t[i].symbols@[k], t[j].symbols@[m]]
        0 <= i < t.len() && 0 <= k < t[i].symbols@.len() && 0 <= j < t.len() && 0 <= m < t[j].symbols@.len()
            && (i != j || k != m) ==> t[i].symbols@[k].id != t[j].symbols@[m].id
}

/// In a table where numbers are distinct, the search by number finds the
/// one symbol that carries it.
pub proof fn lemma_find_by_id_unique(t: Seq<Scope>, i: int, k: int)
    requires
        ids_distinct(t),
        0 <= i < t.len(),
        0 <= k < t[i].symbols@.len(),
    ensures
        find_by_id(t, t[i].symbols@[k].id.0) == Some((i, k)),
{
    let id = t[i].symbols@[k].id.0;
    lemma_find_id_from_unique(t, id, 0, i, k);
}

proof fn lemma_find_id_from_unique(t: Seq<Scope>, id: usize, from: int, i: int, k: int)
    requires
        ids_distinct(t),
        0 <= from <= i < t.len(),
        0 <= k < t[i].symbols@.len(),
        t[i].symbols@[k].id.0 == id,
    ensures
        find_id_from(t, id, from) == Some((i, k)),
    decreases i - from,
{
    lemma_find_id_in(t[from].symbols@, id);
    if from == i {
        assert forall|m: int| 0 <= m < k implies (#[trigger] t[i].symbols@[m]).id.0 != id by {
            assert(t[i].symbols@[m].id != t[i].symbols@[k].id);
        }
        lemma_find_id_in_first(t[i].symbols@, id, k);
    } else {
        assert forall|m: int| 0 <= m < t[from].symbols@.len() implies (#[trigger] t[from].symbols@[m]).id.0 != id by {
            assert(t[from].symbols@[m].id != t[i].symbols@[k].id);
        }
        lemma_find_id_in_first(t[from].symbols@, id, t[from].symbols@.len() as int);
        lemma_find_id_from_unique(t, id, from + 1, i, k);
    }
}

/// What `find_id_from` finds is in the table and has that number.
pub proof fn lemma_find_id_from(t: Seq<Scope>, id: usize, from: int)
    ensures
        find_id_from(t, id, from) matches Some((si, i)) ==> from <= si < t.len() && 0 <= i < t[si].symbols@.len()
            && t[si].symbols@[i].id.0 == id,
    decreases t.len() - from,
{
    if 0 <= from < t.len() {
        lemma_find_id_in(t[from].symbols@, id);
        lemma_find_id_from(t, id, from + 1);
    }
}

/// The symbol `name` refers to from scope `s` (see `lookup`), as a scope
/// index and a symbol index.
pub fn resolve_name(table: &Vec<Scope>, s: usize, name: &String) -> (r: Option<(usize, usize)>)
    requires
        scope_table_wf(table@),
    ensures
        r matches Some((a, b)) ==> lookup(table@, s as int, name@) == Some((a as int, b as int)),
        r is None ==> lookup(table@, s as int, name@) is None,
{
    if s >= table.len() {
        return None;
    }
    let mut scope_id = s;
    loop
        invariant
            scope_table_wf(table@),
            scope_id < table@.len(),
            lookup(table@, s as int, name@) == lookup(table@, scope_id as int, name@),
        decreases scope_id,
    {
        let scope = &table[scope_id];
        let mut i: usize = 0;
        while i < scope.symbols.len()
            invariant
                scope_table_wf(table@),
                scope_id < table@.len(),
                *scope == table@[scope_id as int],
                lookup(table@, s as int, name@) == lookup(table@, scope_id as int, name@),
                i <= scope.symbols@.len(),
                forall|k: int| 0 <= k < i ==> (#[trigger] scope.symbols@[k]).name@ != name@,
            decreases scope.symbols@.len() - i,
        {
            if scope.symbols[i].name.eq(name) {
                proof {
                    lemma_find_in_first(scope.symbols@, name@, i as int);
                }
                return Some((scope_id, i));
            }
            i += 1;
        }
        proof {
            lemma_find_in_first(scope.symbols@, name@, i as int);
            assert(table@[scope_id as int].scope_id.0 == scope_id as int);
        }
        match scope.parent {
            Some(ScopeId(id)) => {
                scope_id = id as usize;
            },
            None => {
                return None;
            },
        }
    }
}

/// The scope and index of the first symbol numbered `id` (see `find_by_id`).
pub fn find_symbol_by_id(table: &Vec<Scope>, id: usize) -> (r: Option<(usize, usize)>)
    ensures
        r matches Some((a, b)) ==> find_by_id(table@, id) == Some((a as int, b as int)),
        r is None ==> find_by_id(table@, id) is None,
{
    let mut si: usize = 0;
    while si < table.len()
        invariant
            si <= table@.len(),
            find_by_id(table@, id) == find_id_from(table@, id, si as int),
        decreases table@.len() - si,
    {
        let scope = &table[si];
        let mut i: usize = 0;
        while i < scope.symbols.len()
            invariant
                si < table@.len(),
                *scope == table@[si as int],
                find_by_id(table@, id) == find_id_from(table@, id, si as int),
                i <= scope.symbols@.len(),
                forall|k: int| 0 <= k < i ==> (#[trigger] scope.symbols@[k]).id.0 != id,
            decreases scope.symbols@.len() - i,
        {
            if scope.symbols[i].id.0 == id {
                proof {
                    lemma_find_id_in_first(scope.symbols@, id, i as int);
                }
                return Some((si, i));
            }
            i += 1;
        }
        proof {
            lemma_find_id_in_first(scope.symbols@, id, i as int);
        }
        si += 1;
    }
    None
}

} // verus!

//! Facts about a module that the rewrite rules consult: its classes (methods,
//! bases, members, definition range), what its names are bound to, its
//! function names, and the expressions whose values are never used.
//!
//! The facts are gathered by walking a parsed module; this module holds them,
//! records them under the rules the walk follows, and answers queries.

use vstd::prelude::*;
use vstd::set_lib::*;

use crate::ordered::TextMap;
use crate::text::str_eq;

verus! {

/// How a method is bound on its class.
#[derive(Debug, Clone, Copy, PartialEq, Eq, Structural)]
pub enum MethodKind {
    Instance,
    Property,
    Static,
    Class,
}

/// The builtin container or number type a name is known to hold.
#[derive(Debug, Clone, Copy, PartialEq, Eq, Structural)]
pub enum BuiltinKind {
    Dict,
    Float,
    List,
    Tuple,
}

/// What every assignment seen so far binds a name to.
#[derive(Debug, Clone, PartialEq, Eq)]
pub enum BindingState {
    Instance(String),
    Builtin(BuiltinKind),
    Ambiguous,
}

/// A binding state as plain values.
pub enum BindingView {
    Instance(Seq<char>),
    Builtin(BuiltinKind),
    Ambiguous,
}

pub open spec fn binding_view(state: BindingState) -> BindingView {
    match state {
        BindingState::Instance(class) => BindingView::Instance(class@),
        BindingState::Builtin(kind) => BindingView::Builtin(kind),
        BindingState::Ambiguous => BindingView::Ambiguous,
    }
}

/// One statement of a class body: the name it binds, if any, and its byte range.
#[derive(Debug, Clone, PartialEq, Eq)]
pub struct ClassMember {
    pub name: Option<String>,
    pub start: usize,
    pub end: usize,
}

/// What a class definition declares.
#[derive(Debug, Clone, PartialEq, Eq)]
pub struct ClassInfo {
    methods: TextMap<MethodKind>,
    bases: Vec<String>,
    members: Vec<ClassMember>,
    definition_start: usize,
    definition_end: usize,
}

/// The method kind a decorator name selects.
pub open spec fn decorator_kind(name: Seq<char>) -> Option<MethodKind> {
    if name == "property"@ {
        Some(MethodKind::Property)
    } else if name == "staticmethod"@ {
        Some(MethodKind::Static)
    } else if name == "classmethod"@ {
        Some(MethodKind::Class)
    } else {
        None
    }
}

/// The kind of a method whose decorators have the given terminal names: the
/// first decorator that selects a kind wins, and an undecorated method is an
/// instance method.
pub open spec fn decorated_kind(names: Seq<Option<Seq<char>>>) -> MethodKind
    decreases names.len(),
{
    if names.len() == 0 {
        MethodKind::Instance
    } else {
        match names[0] {
            Some(name) => match decorator_kind(name) {
                Some(kind) => kind,
                None => decorated_kind(names.drop_first()),
            },
            None => decorated_kind(names.drop_first()),
        }
    }
}

/// The method kind a decorator's terminal name selects.
pub fn method_decorator_kind(name: &str) -> (kind: Option<MethodKind>)
    ensures
        kind == decorator_kind(name@),
{
    if str_eq(name, "property") {
        Some(MethodKind::Property)
    } else if str_eq(name, "staticmethod") {
        Some(MethodKind::Static)
    } else if str_eq(name, "classmethod") {
        Some(MethodKind::Class)
    } else {
        None
    }
}

/// The kind of a method, from the terminal names of its decorators in order.
pub fn method_kind_from_decorators(names: &Vec<Option<String>>) -> (kind: MethodKind)
    ensures
        kind == decorated_kind(names@.map_values(|name: Option<String>| match name {
            Some(text) => Some(text@),
            None => None,
        })),
{
    let ghost views = names@.map_values(|name: Option<String>| match name {
        Some(text) => Some(text@),
        None => None,
    });
    let mut i: usize = 0;
    assert(views.skip(0) =~= views);
    while i < names.len()
        invariant
            i <= names@.len(),
            views == names@.map_values(|name: Option<String>| match name {
                Some(text) => Some(text@),
                None => None,
            }),
            decorated_kind(views) == decorated_kind(views.skip(i as int)),
        decreases names@.len() - i,
    {
        assert(views.skip(i as int).drop_first() =~= views.skip(i + 1));
        match &names[i] {
            Some(name) => match method_decorator_kind(name.as_str()) {
                Some(kind) => return kind,
                None => {},
            },
            None => {},
        }
        i = i + 1;
    }
    assert(views.skip(i as int).len() == 0);
    MethodKind::Instance
}

impl ClassInfo {
    pub closed spec fn method_map(&self) -> Map<Seq<char>, MethodKind> {
        self.methods.view_map()
    }

    pub closed spec fn base_names(&self) -> Seq<String> {
        self.bases@
    }

    pub closed spec fn member_list(&self) -> Seq<ClassMember> {
        self.members@
    }

    pub closed spec fn range(&self) -> (usize, usize) {
        (self.definition_start, self.definition_end)
    }

    pub closed spec fn wf(&self) -> bool {
        self.methods.wf()
    }

    /// A class defined over `start..end` that declares nothing yet.
    pub fn new(start: usize, end: usize) -> (info: ClassInfo)
        ensures
            info.wf(),
            info.method_map() == Map::<Seq<char>, MethodKind>::empty(),
            info.base_names().len() == 0,
            info.member_list().len() == 0,
            info.range() == (start, end),
    {
        let methods = TextMap::new();
        assert(methods.view_map() =~= Map::<Seq<char>, MethodKind>::empty());
        ClassInfo { methods, bases: Vec::new(), members: Vec::new(), definition_start: start, definition_end: end }
    }

    /// Record a base class named in the class header.
    pub fn add_base(&mut self, name: String)
        ensures
            final(self).base_names() == old(self).base_names().push(name),
            final(self).method_map() == old(self).method_map(),
            final(self).member_list() == old(self).member_list(),
            final(self).range() == old(self).range(),
            final(self).wf() == old(self).wf(),
    {
        self.bases.push(name);
    }

    /// Record a statement of the class body.
    pub fn add_member(&mut self, member: ClassMember)
        ensures
            final(self).member_list() == old(self).member_list().push(member),
            final(self).method_map() == old(self).method_map(),
            final(self).base_names() == old(self).base_names(),
            final(self).range() == old(self).range(),
            final(self).wf() == old(self).wf(),
    {
        self.members.push(member);
    }

    /// Record a method; a later definition of the same name replaces an earlier one.
    pub fn add_method(&mut self, name: String, kind: MethodKind)
        requires
            old(self).wf(),
        ensures
            final(self).wf(),
            final(self).method_map() == old(self).method_map().insert(name@, kind),
            final(self).base_names() == old(self).base_names(),
            final(self).member_list() == old(self).member_list(),
            final(self).range() == old(self).range(),
    {
        self.methods.insert(name, kind);
    }

    /// How the method `name` is bound, if the class defines it.
    pub fn method_kind(&self, name: &str) -> (kind: Option<MethodKind>)
        requires
            self.wf(),
        ensures
            kind is Some <==> self.method_map().contains_key(name@),
            kind matches Some(k) ==> k == self.method_map()[name@],
    {
        match self.methods.get(name) {
            Some(kind) => Some(*kind),
            None => None,
        }
    }

    /// The base classes named in the class header, in order.
    pub fn bases(&self) -> (bases: &[String])
        ensures
            bases@ == self.base_names(),
    {
        self.bases.as_slice()
    }

    /// The statements of the class body, in order.
    pub fn members(&self) -> (members: &[ClassMember])
        ensures
            members@ == self.member_list(),
    {
        self.members.as_slice()
    }

    /// The byte range of the class definition.
    pub fn definition_range(&self) -> (range: (usize, usize))
        ensures
            range == self.range(),
    {
        (self.definition_start, self.definition_end)
    }
}

/// The builtin type a call of a builtin constructor name produces.
pub open spec fn builtin_call(name: Seq<char>) -> Option<BuiltinKind> {
    if name == "dict"@ {
        Some(BuiltinKind::Dict)
    } else if name == "float"@ {
        Some(BuiltinKind::Float)
    } else if name == "list"@ {
        Some(BuiltinKind::List)
    } else if name == "tuple"@ {
        Some(BuiltinKind::Tuple)
    } else {
        None
    }
}

/// The builtin type a call of `name` produces, if `name` is a builtin constructor.
pub fn builtin_call_kind(name: &str) -> (kind: Option<BuiltinKind>)
    ensures
        kind == builtin_call(name@),
{
    if str_eq(name, "dict") {
        Some(BuiltinKind::Dict)
    } else if str_eq(name, "float") {
        Some(BuiltinKind::Float)
    } else if str_eq(name, "list") {
        Some(BuiltinKind::List)
    } else if str_eq(name, "tuple") {
        Some(BuiltinKind::Tuple)
    } else {
        None
    }
}

/// The shape of an expression, as far as type facts look at it.
#[derive(Debug, Clone, PartialEq, Eq)]
pub enum ExprShape {
    /// A call; the callee's name when the callee is a plain name.
    Call(Option<String>),
    /// A plain name.
    Name(String),
    DictLiteral,
    ListLiteral,
    TupleLiteral,
    Other,
}

/// What a single assignment of a value of the given shape binds its target to.
pub open spec fn assigned_binding(classes: Map<Seq<char>, ClassInfo>, value: ExprShape) -> BindingView {
    match value {
        ExprShape::Call(Some(callee)) => if classes.contains_key(callee@) {
            BindingView::Instance(callee@)
        } else {
            match builtin_call(callee@) {
                Some(kind) => BindingView::Builtin(kind),
                None => BindingView::Ambiguous,
            }
        },
        ExprShape::DictLiteral => BindingView::Builtin(BuiltinKind::Dict),
        ExprShape::ListLiteral => BindingView::Builtin(BuiltinKind::List),
        ExprShape::TupleLiteral => BindingView::Builtin(BuiltinKind::Tuple),
        _ => BindingView::Ambiguous,
    }
}

/// A name keeps its binding while every assignment agrees, and becomes
/// ambiguous at the first disagreement.
pub open spec fn merged_binding(previous: Option<BindingView>, state: BindingView) -> BindingView {
    match previous {
        None => state,
        Some(existing) => if existing == state {
            existing
        } else {
            BindingView::Ambiguous
        },
    }
}

/// The class a method lookup reaches from `current` by following first bases:
/// the first class on the way that defines `method`, or nothing when the way
/// ends, leaves the known classes, or comes back to a class it passed.
pub open spec fn resolve_walk(
    classes: Map<Seq<char>, ClassInfo>,
    current: Seq<char>,
    method: Seq<char>,
    visited: Set<Seq<char>>,
    fuel: nat,
) -> Option<(Seq<char>, MethodKind)>
    decreases fuel,
{
    if fuel == 0 || visited.contains(current) || !classes.contains_key(current) {
        None
    } else {
        let info = classes[current];
        if info.method_map().contains_key(method) {
            Some((current, info.method_map()[method]))
        } else if info.base_names().len() == 0 {
            None
        } else {
            resolve_walk(
                classes,
                info.base_names()[0]@,
                method,
                visited.insert(current),
                (fuel - 1) as nat,
            )
        }
    }
}

fn same_binding(a: &BindingState, b: &BindingState) -> (same: bool)
    ensures
        same == (binding_view(*a) == binding_view(*b)),
{
    match (a, b) {
        (BindingState::Instance(x), BindingState::Instance(y)) => str_eq(x.as_str(), y.as_str()),
        (BindingState::Builtin(x), BindingState::Builtin(y)) => *x == *y,
        (BindingState::Ambiguous, BindingState::Ambiguous) => true,
        _ => false,
    }
}

/// Classes, name bindings, function names and unused results of one module.
#[derive(Debug, Clone, PartialEq, Eq)]
pub struct TypeFacts {
    classes: TextMap<ClassInfo>,
    bindings: TextMap<BindingState>,
    function_names: TextMap<bool>,
    dead_results: Vec<usize>,
}

impl TypeFacts {
    pub closed spec fn class_map(&self) -> Map<Seq<char>, ClassInfo> {
        self.classes.view_map()
    }

    pub closed spec fn binding_map(&self) -> Map<Seq<char>, BindingView> {
        self.bindings.view_map().map_values(|state: BindingState| binding_view(state))
    }

    pub closed spec fn functions(&self) -> Set<Seq<char>> {
        self.function_names.view_map().dom()
    }

    pub closed spec fn dead(&self) -> Set<usize> {
        self.dead_results@.to_set()
    }

    pub closed spec fn class_count(&self) -> nat {
        self.classes.key_seq().len()
    }

    pub closed spec fn wf(&self) -> bool {
        &&& self.classes.wf()
        &&& self.bindings.wf()
        &&& self.function_names.wf()
        &&& forall|name: Seq<char>| #[trigger]
            self.classes.view_map().contains_key(name) ==> self.classes.view_map()[name].wf()
    }

    /// Facts about an empty module.
    pub fn new() -> (facts: TypeFacts)
        ensures
            facts.wf(),
            facts.class_map() == Map::<Seq<char>, ClassInfo>::empty(),
            facts.binding_map() == Map::<Seq<char>, BindingView>::empty(),
            facts.functions() == Set::<Seq<char>>::empty(),
            facts.dead() == Set::<usize>::empty(),
    {
        let facts = TypeFacts {
            classes: TextMap::new(),
            bindings: TextMap::new(),
            function_names: TextMap::new(),
            dead_results: Vec::new(),
        };
        assert(facts.class_map() =~= Map::<Seq<char>, ClassInfo>::empty());
        assert(facts.binding_map() =~= Map::<Seq<char>, BindingView>::empty());
        assert(facts.functions() =~= Set::<Seq<char>>::empty());
        assert(facts.dead() =~= Set::<usize>::empty());
        facts
    }

    /// Record a class definition; a later definition of the same name replaces an earlier one.
    pub fn add_class(&mut self, name: String, info: ClassInfo)
        requires
            old(self).wf(),
            info.wf(),
        ensures
            final(self).wf(),
            final(self).class_map() == old(self).class_map().insert(name@, info),
            final(self).binding_map() == old(self).binding_map(),
            final(self).functions() == old(self).functions(),
            final(self).dead() == old(self).dead(),
    {
        self.classes.insert(name, info);
    }

    /// Record one assignment of `name` to a value whose binding is `state`.
    pub fn record_binding(&mut self, name: &str, state: BindingState)
        requires
            old(self).wf(),
        ensures
            final(self).wf(),
            final(self).binding_map() == old(self).binding_map().insert(
                name@,
                merged_binding(
                    if old(self).binding_map().contains_key(name@) {
                        Some(old(self).binding_map()[name@])
                    } else {
                        None
                    },
                    binding_view(state),
                ),
            ),
            final(self).class_map() == old(self).class_map(),
            final(self).functions() == old(self).functions(),
            final(self).dead() == old(self).dead(),
    {
        let ghost before = self.binding_map();
        let existing = match self.bindings.get(name) {
            None => None,
            Some(existing) => Some(same_binding(existing, &state)),
        };
        match existing {
            None => {
                self.bindings.insert(name.to_owned(), state);
            },
            Some(true) => {},
            Some(false) => {
                self.bindings.insert(name.to_owned(), BindingState::Ambiguous);
            },
        }
        assert(self.binding_map() =~= before.insert(
            name@,
            merged_binding(
                if before.contains_key(name@) {
                    Some(before[name@])
                } else {
                    None
                },
                binding_view(state),
            ),
        ));
    }

    /// Record the binding an assignment of `value` gives `name`.
    pub fn record_assignment(&mut self, name: &str, value: &ExprShape)
        requires
            old(self).wf(),
        ensures
            final(self).wf(),
            final(self).binding_map() == old(self).binding_map().insert(
                name@,
                merged_binding(
                    if old(self).binding_map().contains_key(name@) {
                        Some(old(self).binding_map()[name@])
                    } else {
                        None
                    },
                    assigned_binding(old(self).class_map(), *value),
                ),
            ),
            final(self).class_map() == old(self).class_map(),
            final(self).functions() == old(self).functions(),
            final(self).dead() == old(self).dead(),
    {
        let state = match value {
            ExprShape::Call(Some(callee)) => match self.classes.get_key_value(callee.as_str()) {
                Some(_) => BindingState::Instance(callee.clone()),
                None => match builtin_call_kind(callee.as_str()) {
                    Some(kind) => BindingState::Builtin(kind),
                    None => BindingState::Ambiguous,
                },
            },
            ExprShape::DictLiteral => BindingState::Builtin(BuiltinKind::Dict),
            ExprShape::ListLiteral => BindingState::Builtin(BuiltinKind::List),
            ExprShape::TupleLiteral => BindingState::Builtin(BuiltinKind::Tuple),
            _ => BindingState::Ambiguous,
        };
        self.record_binding(name, state);
    }

    /// Record the name of a function definition.
    pub fn add_function_name(&mut self, name: String)
        requires
            old(self).wf(),
        ensures
            final(self).wf(),
            final(self).functions() == old(self).functions().insert(name@),
            final(self).class_map() == old(self).class_map(),
            final(self).binding_map() == old(self).binding_map(),
            final(self).dead() == old(self).dead(),
    {
        let ghost before = self.function_names.view_map();
        self.function_names.insert(name, true);
        assert(self.functions() =~= before.dom().insert(name@));
    }

    /// Record that the value of the expression starting at byte `start` is never used.
    pub fn mark_dead_result(&mut self, start: usize)
        ensures
            final(self).dead() == old(self).dead().insert(start),
            final(self).class_map() == old(self).class_map(),
            final(self).binding_map() == old(self).binding_map(),
            final(self).functions() == old(self).functions(),
            old(self).wf() ==> final(self).wf(),
    {
        let ghost before = self.dead_results@;
        self.dead_results.push(start);
        assert(self.dead() =~= before.to_set().insert(start)) by {
            assert forall|x: usize| self.dead().contains(x) <==> before.to_set().insert(start).contains(x) by {
                if self.dead_results@.contains(x) {
                    let i = choose|i: int| 0 <= i < self.dead_results@.len() && self.dead_results@[i] == x;
                    if i < before.len() {
                        assert(before[i] == x);
                    }
                }
                if before.contains(x) {
                    let i = choose|i: int| 0 <= i < before.len() && before[i] == x;
                    assert(self.dead_results@[i] == x);
                }
                if x == start {
                    assert(self.dead_results@[before.len() as int] == x);
                }
            }
        }
    }

    /// Whether `name` is bound by an assignment or names a class.
    pub fn is_name_bound(&self, name: &str) -> (bound: bool)
        requires
            self.wf(),
        ensures
            bound == (self.binding_map().contains_key(name@) || self.class_map().contains_key(name@)),
    {
        self.bindings.get(name).is_some() || self.classes.get(name).is_some()
    }

    /// Whether a function of this name is defined.
    pub fn is_function_name(&self, name: &str) -> (defined: bool)
        requires
            self.wf(),
        ensures
            defined == self.functions().contains(name@),
    {
        self.function_names.get(name).is_some()
    }

    /// Whether the value of the expression starting at byte `start` is never used.
    pub fn is_dead_result(&self, start: usize) -> (dead: bool)
        ensures
            dead == self.dead().contains(start),
    {
        let mut i: usize = 0;
        while i < self.dead_results.len()
            invariant
                i <= self.dead_results@.len(),
                forall|j: int| 0 <= j < i ==> self.dead_results@[j] != start,
            decreases self.dead_results@.len() - i,
        {
            if self.dead_results[i] == start {
                assert(self.dead_results@[i as int] == start);
                return true;
            }
            i = i + 1;
        }
        false
    }

    /// What the module declares about the class `name`.
    pub fn class(&self, name: &str) -> (info: Option<&ClassInfo>)
        requires
            self.wf(),
        ensures
            info is Some <==> self.class_map().contains_key(name@),
            info matches Some(i) ==> *i == self.class_map()[name@],
    {
        self.classes.get(name)
    }

    /// The stored name of the class `name`.
    pub fn canonical_class(&self, name: &str) -> (canonical: Option<&str>)
        requires
            self.wf(),
        ensures
            canonical is Some <==> self.class_map().contains_key(name@),
            canonical matches Some(c) ==> c@ == name@,
    {
        match self.classes.get_key_value(name) {
            Some((key, _)) => Some(key.as_str()),
            None => None,
        }
    }

    /// The class an expression is known to be an instance of.
    pub fn class_for_expr(&self, expression: &ExprShape) -> (class: Option<&str>)
        requires
            self.wf(),
        ensures
            class matches Some(c) ==> match *expression {
                ExprShape::Call(Some(callee)) => self.class_map().contains_key(callee@) && c@ == callee@,
                ExprShape::Name(name) => self.binding_map().contains_key(name@)
                    && self.binding_map()[name@] == BindingView::Instance(c@),
                _ => false,
            },
            class is None ==> match *expression {
                ExprShape::Call(Some(callee)) => !self.class_map().contains_key(callee@),
                ExprShape::Name(name) => !(self.binding_map().contains_key(name@)
                    && self.binding_map()[name@] is Instance),
                _ => true,
            },
    {
        match expression {
            ExprShape::Call(Some(callee)) => self.canonical_class(callee.as_str()),
            ExprShape::Name(name) => match self.bindings.get(name.as_str()) {
                Some(BindingState::Instance(class)) => Some(class.as_str()),
                _ => None,
            },
            _ => None,
        }
    }

    /// The builtin type an expression is known to have.
    pub fn builtin_for_expr(&self, expression: &ExprShape) -> (kind: Option<BuiltinKind>)
        requires
            self.wf(),
        ensures
            kind == match *expression {
                ExprShape::DictLiteral => Some(BuiltinKind::Dict),
                ExprShape::ListLiteral => Some(BuiltinKind::List),
                ExprShape::TupleLiteral => Some(BuiltinKind::Tuple),
                ExprShape::Call(Some(callee)) => builtin_call(callee@),
                ExprShape::Name(name) => if self.binding_map().contains_key(name@) {
                    match self.binding_map()[name@] {
                        BindingView::Builtin(kind) => Some(kind),
                        _ => None,
                    }
                } else {
                    None
                },
                _ => None,
            },
    {
        match expression {
            ExprShape::DictLiteral => Some(BuiltinKind::Dict),
            ExprShape::ListLiteral => Some(BuiltinKind::List),
            ExprShape::TupleLiteral => Some(BuiltinKind::Tuple),
            ExprShape::Call(Some(callee)) => builtin_call_kind(callee.as_str()),
            ExprShape::Name(name) => match self.bindings.get(name.as_str()) {
                Some(BindingState::Builtin(kind)) => Some(*kind),
                _ => None,
            },
            _ => None,
        }
    }

    /// The class that defines `method` for instances of `class`, found by
    /// following first bases, and how the method is bound there.
    pub fn resolves_method(&self, class: &str, method: &str) -> (resolved: Option<(&str, MethodKind)>)
        requires
            self.wf(),
        ensures
            match resolved {
                Some((owner, kind)) => resolve_walk(
                    self.class_map(),
                    class@,
                    method@,
                    Set::empty(),
                    self.class_count() + 1,
                ) == Some((owner@, kind)),
                None => resolve_walk(
                    self.class_map(),
                    class@,
                    method@,
                    Set::empty(),
                    self.class_count() + 1,
                ) is None,
            },
    {
        let ghost classes = self.class_map();
        let ghost fuel: nat = self.class_count() + 1;
        proof {
            self.classes.lemma_dom_len();
        }
        let mut current: &str = match self.classes.get_key_value(class) {
            Some((key, _)) => key.as_str(),
            None => return None,
        };
        let mut visited: TextMap<bool> = TextMap::new();
        proof {
            assert(visited.view_map().dom() =~= Set::<Seq<char>>::empty());
        }
        loop
            invariant
                self.wf(),
                classes == self.class_map(),
                fuel == self.class_count() + 1,
                classes.dom().finite(),
                classes.dom().len() == self.class_count(),
                visited.wf(),
                visited.view_map().dom().subset_of(classes.dom()),
                visited.view_map().dom().finite(),
                visited.view_map().dom().len() == visited.key_seq().len(),
                classes.contains_key(current@),
                visited.key_seq().len() < fuel,
                resolve_walk(classes, class@, method@, Set::empty(), fuel) == resolve_walk(
                    classes,
                    current@,
                    method@,
                    visited.view_map().dom(),
                    (fuel - visited.key_seq().len()) as nat,
                ),
            decreases self.class_count() - visited.key_seq().len(),
        {
            let ghost seen = visited.view_map().dom();
            let ghost remaining = (fuel - visited.key_seq().len()) as nat;
            if visited.get(current).is_some() {
                return None;
            }
            assert(self.classes.key_seq().contains(current@));
            let (canonical, info) = match self.classes.get_key_value(current) {
                Some(entry) => entry,
                None => return None,
            };
            proof {
                assert(info.wf());
                vstd::set_lib::lemma_len_subset(seen.insert(current@), classes.dom());
                assert(seen.insert(current@).len() == seen.len() + 1);
            }
            visited.insert(current.to_owned(), true);
            proof {
                visited.lemma_dom_len();
                assert(visited.view_map().dom() =~= seen.insert(current@));
            }
            match info.method_kind(method) {
                Some(kind) => return Some((canonical.as_str(), kind)),
                None => {},
            }
            if info.bases.len() == 0 {
                return None;
            }
            let base = info.bases[0].as_str();
            proof {
                assert(classes[current@] == *info);
                assert(!info.method_map().contains_key(method@));
                assert(resolve_walk(classes, current@, method@, seen, remaining) == resolve_walk(
                    classes,
                    base@,
                    method@,
                    seen.insert(current@),
                    (remaining - 1) as nat,
                ));
            }
            current = match self.classes.get_key_value(base) {
                Some((key, _)) => key.as_str(),
                None => {
                    assert(!classes.contains_key(base@));
                    return None;
                },
            };
        }
    }
}

} // verus!
